//! The tree walker: parses a source document with a grammar and lists every
//! syntax node in pre-order, each with its depth below the root.
use crate::grammar::{Grammar, GrammarRegistry};
use crate::language::SourceLanguage;
use tree_sitter::{LanguageError, Node, Parser, Tree, TreeCursor};
use vstd::prelude::*;

verus! {

#[verifier::external_type_specification]
#[verifier::external_body]
pub struct ExParser(tree_sitter::Parser);

#[verifier::external_type_specification]
#[verifier::external_body]
pub struct ExTree(tree_sitter::Tree);

#[verifier::external_type_specification]
#[verifier::external_body]
pub struct ExLanguageError(tree_sitter::LanguageError);

#[verifier::external_type_specification]
#[verifier::external_body]
pub struct ExNode<'tree>(tree_sitter::Node<'tree>);

#[verifier::external_type_specification]
#[verifier::external_body]
pub struct ExTreeCursor<'cursor>(tree_sitter::TreeCursor<'cursor>);

/// A node of a syntax tree: its grammar category, whether it is named, its
/// byte span in the document, and its children from left to right.
pub struct SyntaxNodeView {
    pub kind: Seq<char>,
    pub named: bool,
    pub start_byte: nat,
    pub end_byte: nat,
    pub children: Seq<SyntaxNodeView>,
}

/// The tree that the bundled grammar of `lang` gives for `text`, or `None`
/// where no tree can be produced.
pub uninterp spec fn syntax_tree_of(lang: SourceLanguage, text: Seq<u8>) -> Option<SyntaxNodeView>;

/// The node reached from `root` by taking, at each step, the child at the
/// given position.
pub open spec fn node_at(root: SyntaxNodeView, path: Seq<int>) -> SyntaxNodeView
    decreases path.len(),
{
    if path.len() == 0 {
        root
    } else {
        node_at(root, path.drop_last()).children[path.last()]
    }
}

/// Every step of `path` names an existing child.
pub open spec fn valid_path(root: SyntaxNodeView, path: Seq<int>) -> bool
    decreases path.len(),
{
    path.len() == 0 || (valid_path(root, path.drop_last()) && 0 <= path.last() < node_at(
        root,
        path.drop_last(),
    ).children.len())
}

/// A parser, with the language of the grammar it was given.
pub struct SyntaxParser {
    parser: Parser,
    lang: Ghost<Option<SourceLanguage>>,
}

impl SyntaxParser {
    /// The language that the parser parses, once it has a grammar.
    pub closed spec fn language(&self) -> Option<SourceLanguage> {
        self.lang@
    }
}

/// A parsed tree.
pub struct SyntaxTree {
    tree: Tree,
    root: Ghost<SyntaxNodeView>,
}

impl View for SyntaxTree {
    type V = SyntaxNodeView;

    closed spec fn view(&self) -> SyntaxNodeView {
        self.root@
    }
}

/// A cursor on a parsed tree, at the node that `path` leads to.
pub struct SyntaxCursor<'tree> {
    cursor: TreeCursor<'tree>,
    root: Ghost<SyntaxNodeView>,
    path: Ghost<Seq<int>>,
}

impl<'tree> SyntaxCursor<'tree> {
    pub closed spec fn root(&self) -> SyntaxNodeView {
        self.root@
    }

    pub closed spec fn path(&self) -> Seq<int> {
        self.path@
    }

    /// The node under the cursor.
    pub open spec fn node(&self) -> SyntaxNodeView {
        node_at(self.root(), self.path())
    }
}

/// A node of a parsed tree.
pub struct SyntaxNode<'tree> {
    node: Node<'tree>,
    view: Ghost<SyntaxNodeView>,
}

impl<'tree> View for SyntaxNode<'tree> {
    type V = SyntaxNodeView;

    closed spec fn view(&self) -> SyntaxNodeView {
        self.view@
    }
}

/// Relies on tree_sitter::Parser::new: a parser with no language yet.
#[verifier::external_body]
fn new_parser() -> (r: SyntaxParser)
    ensures
        r.language() is None,
{
    SyntaxParser { parser: Parser::new(), lang: Ghost(None) }
}

/// Relies on tree_sitter::Parser::set_language: it accepts a grammar whose
/// version lies between MIN_COMPATIBLE_LANGUAGE_VERSION (13) and
/// LANGUAGE_VERSION (14), as every bundled grammar's does (14), and the parser
/// then parses with it.
#[verifier::external_body]
fn set_parser_language(parser: &mut SyntaxParser, grammar: &Grammar) -> (r: Result<(), LanguageError>)
    ensures
        r is Ok,
        final(parser).language() == Some(grammar.lang()),
{
    let r = parser.parser.set_language(&grammar.language);
    parser.lang = Ghost(Some(grammar.lang()));
    r
}

/// Relies on tree_sitter::Parser::parse, with no earlier tree and neither a
/// timeout nor a cancellation flag set: the tree of the text under the
/// parser's grammar, or `None` where none could be produced.
#[verifier::external_body]
fn parse_text(parser: &mut SyntaxParser, text: &[u8]) -> (r: Option<SyntaxTree>)
    requires
        old(parser).language() is Some,
    ensures
        final(parser).language() == old(parser).language(),
        r is Some <==> syntax_tree_of(old(parser).language().unwrap(), text@) is Some,
        r matches Some(t) ==> t@ == syntax_tree_of(old(parser).language().unwrap(), text@).unwrap(),
{
    let lang = parser.lang;
    match parser.parser.parse(text, None) {
        Some(tree) => Some(SyntaxTree { tree, root: Ghost(syntax_tree_of(lang@.unwrap(), text@).unwrap()) }),
        None => None,
    }
}

/// Relies on tree_sitter::Tree::walk: a cursor on the root of the tree.
#[verifier::external_body]
fn tree_cursor<'tree>(tree: &'tree SyntaxTree) -> (r: SyntaxCursor<'tree>)
    ensures
        r.root() == tree@,
        r.path() == Seq::<int>::empty(),
{
    SyntaxCursor { cursor: tree.tree.walk(), root: tree.root, path: Ghost(Seq::empty()) }
}

/// Relies on tree_sitter::TreeCursor::node: the node under the cursor.
#[verifier::external_body]
fn cursor_node<'tree>(cursor: &SyntaxCursor<'tree>) -> (r: SyntaxNode<'tree>)
    ensures
        r@ == cursor.node(),
{
    SyntaxNode { node: cursor.cursor.node(), view: Ghost(cursor.node()) }
}

/// Relies on tree_sitter::TreeCursor::goto_first_child: moves to the first
/// child, `false` where there is none.
#[verifier::external_body]
fn goto_first_child(cursor: &mut SyntaxCursor) -> (r: bool)
    ensures
        final(cursor).root() == old(cursor).root(),
        r == (old(cursor).node().children.len() > 0),
        final(cursor).path() == if r {
            old(cursor).path().push(0)
        } else {
            old(cursor).path()
        },
{
    let r = cursor.cursor.goto_first_child();
    if r {
        cursor.path = Ghost(cursor.path@.push(0));
    }
    r
}

/// Relies on tree_sitter::TreeCursor::goto_next_sibling: moves to the next
/// sibling, `false` where there is none.
#[verifier::external_body]
fn goto_next_sibling(cursor: &mut SyntaxCursor) -> (r: bool)
    requires
        old(cursor).path().len() > 0,
    ensures
        final(cursor).root() == old(cursor).root(),
        r == (old(cursor).path().last() + 1 < node_at(
            old(cursor).root(),
            old(cursor).path().drop_last(),
        ).children.len()),
        final(cursor).path() == if r {
            old(cursor).path().drop_last().push(old(cursor).path().last() + 1)
        } else {
            old(cursor).path()
        },
{
    let r = cursor.cursor.goto_next_sibling();
    if r {
        cursor.path = Ghost(cursor.path@.drop_last().push(cursor.path@.last() + 1));
    }
    r
}

/// Relies on tree_sitter::TreeCursor::goto_parent: moves to the parent,
/// which every node but the cursor's root has.
#[verifier::external_body]
fn goto_parent(cursor: &mut SyntaxCursor) -> (r: bool)
    requires
        old(cursor).path().len() > 0,
    ensures
        r,
        final(cursor).root() == old(cursor).root(),
        final(cursor).path() == old(cursor).path().drop_last(),
{
    let r = cursor.cursor.goto_parent();
    cursor.path = Ghost(cursor.path@.drop_last());
    r
}

/// Relies on tree_sitter::Node::kind: the node's grammar category.
#[verifier::external_body]
fn node_kind(node: &SyntaxNode) -> (r: String)
    ensures
        r@ == node@.kind,
{
    node.node.kind().to_string()
}

/// Relies on tree_sitter::Node::is_named: whether the node stands for a
/// named rule of the grammar rather than punctuation.
#[verifier::external_body]
fn node_is_named(node: &SyntaxNode) -> (r: bool)
    ensures
        r == node@.named,
{
    node.node.is_named()
}

/// Relies on tree_sitter::Node::start_byte: where the node's span starts.
#[verifier::external_body]
fn node_start_byte(node: &SyntaxNode) -> (r: usize)
    ensures
        r as nat == node@.start_byte,
{
    node.node.start_byte()
}

/// Relies on tree_sitter::Node::end_byte: where the node's span ends.
#[verifier::external_body]
fn node_end_byte(node: &SyntaxNode) -> (r: usize)
    ensures
        r as nat == node@.end_byte,
{
    node.node.end_byte()
}

/// One syntax node, as the walk met it.
pub struct NodeRecord {
    /// The grammar's category for the node (`identifier`, `function_item`).
    pub kind: String,
    /// Whether the node is named; unnamed nodes are syntax markers.
    pub named: bool,
    /// First byte of the node's span in the source document.
    pub start_byte: usize,
    /// One past the last byte of the node's span.
    pub end_byte: usize,
    /// Number of ancestors of the node: 0 for the root.
    pub depth: usize,
}

/// What a node record holds.
pub struct NodeInfo {
    pub kind: Seq<char>,
    pub named: bool,
    pub start_byte: nat,
    pub end_byte: nat,
    pub depth: nat,
}

impl View for NodeRecord {
    type V = NodeInfo;

    open spec fn view(&self) -> NodeInfo {
        NodeInfo {
            kind: self.kind@,
            named: self.named,
            start_byte: self.start_byte as nat,
            end_byte: self.end_byte as nat,
            depth: self.depth as nat,
        }
    }
}

/// The record of a node met at `depth`.
pub open spec fn info_of(node: SyntaxNodeView, depth: nat) -> NodeInfo {
    NodeInfo {
        kind: node.kind,
        named: node.named,
        start_byte: node.start_byte,
        end_byte: node.end_byte,
        depth,
    }
}

/// The pre-order listing of the subtree at `node`, which stands at `depth`:
/// the node, then the listing of each child, left to right, one level down.
/// Every node is listed, named or not.
pub open spec fn preorder(node: SyntaxNodeView, depth: nat) -> Seq<NodeInfo>
    decreases node, 1nat, 0int,
{
    seq![info_of(node, depth)] + children_preorder(node, node.children.len() as int, depth + 1)
}

/// The listings of the first `k` children of `node`, one after another.
pub open spec fn children_preorder(node: SyntaxNodeView, k: int, depth: nat) -> Seq<NodeInfo>
    decreases node, 0nat, k,
{
    if k <= 0 || k > node.children.len() {
        Seq::empty()
    } else {
        children_preorder(node, k - 1, depth) + preorder(node.children[k - 1], depth)
    }
}

/// Depths that a pre-order walk of one tree produces: the root first, at
/// depth 0, and each later node at most one level below the node before it
/// and never at the root's level.
pub open spec fn is_preorder(nodes: Seq<NodeInfo>) -> bool {
    &&& nodes.len() >= 1
    &&& nodes[0].depth == 0
    &&& forall|i: int|
        0 < i < nodes.len() ==> 1 <= #[trigger] nodes[i].depth <= nodes[i - 1].depth + 1
}

/// Each record is at most one level below the one before it.
pub open spec fn steps_down_by_one(nodes: Seq<NodeInfo>) -> bool {
    forall|i: int| 0 < i < nodes.len() ==> #[trigger] nodes[i].depth <= nodes[i - 1].depth + 1
}

/// Every record is at `depth` or below it.
pub open spec fn all_at_least(nodes: Seq<NodeInfo>, depth: nat) -> bool {
    forall|i: int| 0 <= i < nodes.len() ==> #[trigger] nodes[i].depth >= depth
}

proof fn lemma_concat_shape(a: Seq<NodeInfo>, b: Seq<NodeInfo>, depth: nat)
    requires
        steps_down_by_one(a),
        steps_down_by_one(b),
        all_at_least(a, depth),
        all_at_least(b, depth),
        b.len() > 0 ==> b[0].depth <= depth + 1,
    ensures
        steps_down_by_one(a + b),
        all_at_least(a + b, depth),
{
    let c = a + b;
    assert forall|i: int| 0 < i < c.len() implies #[trigger] c[i].depth <= c[i - 1].depth + 1 by {
        if i < a.len() {
            assert(c[i] == a[i] && c[i - 1] == a[i - 1]);
        } else if i == a.len() {
            assert(c[i] == b[0] && c[i - 1] == a[i - 1]);
        } else {
            assert(c[i] == b[i - a.len()] && c[i - 1] == b[i - 1 - a.len()]);
        }
    }
    assert forall|i: int| 0 <= i < c.len() implies #[trigger] c[i].depth >= depth by {
        if i < a.len() {
            assert(c[i] == a[i]);
        } else {
            assert(c[i] == b[i - a.len()]);
        }
    }
}

proof fn lemma_preorder_shape(node: SyntaxNodeView, depth: nat)
    ensures
        preorder(node, depth).len() >= 1,
        preorder(node, depth)[0].depth == depth,
        steps_down_by_one(preorder(node, depth)),
        forall|i: int| 0 < i < preorder(node, depth).len() ==> #[trigger] preorder(node, depth)[i].depth > depth,
    decreases node, 1nat, 0int,
{
    let rest = children_preorder(node, node.children.len() as int, depth + 1);
    lemma_children_shape(node, node.children.len() as int, depth + 1);
    let head = seq![info_of(node, depth)];
    lemma_concat_shape(head, rest, depth);
    let p = preorder(node, depth);
    assert(p == head + rest);
    assert forall|i: int| 0 < i < p.len() implies #[trigger] p[i].depth > depth by {
        assert(p[i] == rest[i - 1]);
    }
}

proof fn lemma_children_shape(node: SyntaxNodeView, k: int, depth: nat)
    ensures
        steps_down_by_one(children_preorder(node, k, depth)),
        all_at_least(children_preorder(node, k, depth), depth),
        children_preorder(node, k, depth).len() > 0 ==> children_preorder(node, k, depth)[0].depth
            == depth,
    decreases node, 0nat, k,
{
    if k <= 0 || k > node.children.len() {
    } else {
        let a = children_preorder(node, k - 1, depth);
        let b = preorder(node.children[k - 1], depth);
        assert(decreases_to!(node => node.children[k - 1]));
        lemma_children_shape(node, k - 1, depth);
        lemma_preorder_shape(node.children[k - 1], depth);
        assert(all_at_least(b, depth)) by {
            assert forall|i: int| 0 <= i < b.len() implies #[trigger] b[i].depth >= depth by {
                if i > 0 {
                    assert(b[i].depth > depth);
                }
            }
        }
        lemma_concat_shape(a, b, depth);
        if a.len() > 0 {
            assert((a + b)[0] == a[0]);
        } else {
            assert(a + b == b);
        }
    }
}

/// The listing of a whole tree from its root has the pre-order shape: the
/// root at depth 0, and every other node at depth 1 or more, at most one
/// level below the node listed before it.
pub proof fn lemma_listing_is_preorder(root: SyntaxNodeView)
    ensures
        is_preorder(preorder(root, 0)),
{
    lemma_preorder_shape(root, 0);
    let p = preorder(root, 0);
    assert forall|i: int| 0 < i < p.len() implies 1 <= #[trigger] p[i].depth <= p[i - 1].depth + 1 by {
        assert(p[i].depth > 0);
    }
}

/// Node `j` encloses node `i` at level `level`: it stands before `i` at that
/// depth, and every node from just after it up to `i` lies deeper.
pub open spec fn encloses_at(nodes: Seq<NodeInfo>, j: int, i: int, level: int) -> bool {
    &&& 0 <= j < i < nodes.len()
    &&& nodes[j].depth == level
    &&& forall|m: int| j < m <= i ==> #[trigger] nodes[m].depth > level
}

/// In a pre-order listing, a node at depth `d` has exactly one ancestor on
/// each level above it: for every level `0 <= level < d` exactly one earlier
/// node encloses it at that level. Its depth thus counts its ancestors.
pub proof fn lemma_depth_counts_ancestors(nodes: Seq<NodeInfo>, i: int, level: int)
    requires
        is_preorder(nodes),
        0 <= i < nodes.len(),
        0 <= level < nodes[i].depth,
    ensures
        exists|j: int| #[trigger] encloses_at(nodes, j, i, level),
        forall|j1: int, j2: int|
            #[trigger] encloses_at(nodes, j1, i, level) && #[trigger] encloses_at(nodes, j2, i, level)
                ==> j1 == j2,
    decreases i,
{
    assert forall|j1: int, j2: int|
        #[trigger] encloses_at(nodes, j1, i, level) && #[trigger] encloses_at(
            nodes,
            j2,
            i,
            level,
        ) implies j1 == j2 by {
        if j1 < j2 {
            assert(nodes[j2].depth > level);
        } else if j2 < j1 {
            assert(nodes[j1].depth > level);
        }
    }
    assert(i > 0);
    let prev = nodes[i - 1].depth;
    assert(nodes[i].depth <= prev + 1);
    if prev == level {
        assert(encloses_at(nodes, i - 1, i, level));
    } else {
        lemma_depth_counts_ancestors(nodes, i - 1, level);
        let j = choose|j: int| #[trigger] encloses_at(nodes, j, i - 1, level);
        assert(encloses_at(nodes, j, i, level));
    }
}

/// The records of a list of nodes.
pub open spec fn infos(nodes: Seq<NodeRecord>) -> Seq<NodeInfo> {
    nodes.map_values(|n: NodeRecord| n@)
}

/// Every span lies inside a document of `len` bytes.
pub open spec fn spans_within(nodes: Seq<NodeInfo>, len: nat) -> bool {
    forall|i: int|
        0 <= i < nodes.len() ==> #[trigger] nodes[i].start_byte <= nodes[i].end_byte <= len
}

/// Why the analysis of one file was abandoned.
#[derive(PartialEq, Eq, Structural, Clone, Copy, Debug)]
pub enum AnalysisError {
    /// The grammar does not suit the linked tree-sitter library.
    IncompatibleGrammar,
    /// The parser produced no tree at all.
    NoTree,
    /// A node's span does not lie inside the document.
    SpanOutOfRange,
}

/// What the walk of a document gives: its pre-order listing from the root,
/// or why there is none.
pub open spec fn nodes_result(lang: SourceLanguage, text: Seq<u8>) -> Result<Seq<NodeInfo>, AnalysisError> {
    match syntax_tree_of(lang, text) {
        None => Err(AnalysisError::NoTree),
        Some(t) => if spans_within(preorder(t, 0), text.len()) {
            Ok(preorder(t, 0))
        } else {
            Err(AnalysisError::SpanOutOfRange)
        },
    }
}

fn read_node(cursor: &SyntaxCursor, depth: usize) -> (r: NodeRecord)
    ensures
        r@ == info_of(cursor.node(), depth as nat),
{
    let node = cursor_node(cursor);
    NodeRecord {
        kind: node_kind(&node),
        named: node_is_named(&node),
        start_byte: node_start_byte(&node),
        end_byte: node_end_byte(&node),
        depth,
    }
}

proof fn lemma_child_step(root: SyntaxNodeView, path: Seq<int>, i: int)
    requires
        valid_path(root, path),
        0 <= i < node_at(root, path).children.len(),
    ensures
        valid_path(root, path.push(i)),
        node_at(root, path.push(i)) == node_at(root, path).children[i],
        path.push(i).drop_last() == path,
        path.push(i).last() == i,
{
    assert(path.push(i).drop_last() == path);
}

/// Appends the pre-order listing of the subtree under the cursor, and leaves
/// the cursor where it was.
fn walk_subtree(
    cursor: &mut SyntaxCursor,
    depth: usize,
    out: &mut Vec<NodeRecord>,
    Ghost(subtree): Ghost<SyntaxNodeView>,
)
    requires
        subtree == old(cursor).node(),
        valid_path(old(cursor).root(), old(cursor).path()),
        depth <= old(out)@.len(),
    ensures
        final(cursor).root() == old(cursor).root(),
        final(cursor).path() == old(cursor).path(),
        infos(final(out)@) == infos(old(out)@) + preorder(old(cursor).node(), depth as nat),
    decreases subtree,
{
    let ghost root = cursor.root();
    let ghost path = cursor.path();
    let ghost node = cursor.node();
    let ghost start = infos(out@);
    let record = read_node(cursor, depth);
    out.push(record);
    let len = out.len();
    assert(infos(out@) == start + seq![info_of(node, depth as nat)]);
    if goto_first_child(cursor) {
        let ghost mut i: int = 0;
        proof {
            lemma_child_step(root, path, 0);
            assert(children_preorder(node, 0, depth as nat + 1) == Seq::<NodeInfo>::empty());
        }
        loop
            invariant_except_break
                0 <= i < node.children.len(),
                cursor.path() == path.push(i),
                infos(out@) == start + seq![info_of(node, depth as nat)] + children_preorder(
                    node,
                    i,
                    depth as nat + 1,
                ),
            invariant
                cursor.root() == root,
                valid_path(root, path),
                node == node_at(root, path),
                node == subtree,
                depth < len <= out@.len(),
            ensures
                cursor.path() == path.push(node.children.len() - 1),
                infos(out@) == start + seq![info_of(node, depth as nat)] + children_preorder(
                    node,
                    node.children.len() as int,
                    depth as nat + 1,
                ),
            decreases node.children.len() - i,
        {
            proof {
                lemma_child_step(root, path, i);
            }
            let ghost before_len = out@.len();
            assert(decreases_to!(subtree => subtree.children[i]));
            walk_subtree(cursor, depth + 1, out, Ghost(node.children[i]));
            assert(infos(out@).len() == out@.len());
            assert(out@.len() >= before_len);
            assert(children_preorder(node, i + 1, depth as nat + 1) == children_preorder(
                node,
                i,
                depth as nat + 1,
            ) + preorder(node.children[i], depth as nat + 1));
            if !goto_next_sibling(cursor) {
                break;
            }
            proof {
                i = i + 1;
            }
        }
        goto_parent(cursor);
        assert(path.push(node.children.len() - 1).drop_last() == path);
    } else {
        assert(children_preorder(node, 0, depth as nat + 1) == Seq::<NodeInfo>::empty());
    }
}

/// Lists the nodes of a parsed tree in pre-order (left to right), every
/// node, named or not, with its depth below the root.
pub fn walk_tree(tree: &SyntaxTree) -> (r: Vec<NodeRecord>)
    ensures
        infos(r@) == preorder(tree@, 0),
        is_preorder(infos(r@)),
{
    proof {
        lemma_listing_is_preorder(tree@);
    }
    let mut cursor = tree_cursor(tree);
    let mut nodes: Vec<NodeRecord> = Vec::new();
    walk_subtree(&mut cursor, 0, &mut nodes, Ghost(tree@));
    assert(infos(nodes@) == Seq::<NodeInfo>::empty() + preorder(tree@, 0));
    assert(Seq::<NodeInfo>::empty() + preorder(tree@, 0) == preorder(tree@, 0));
    nodes
}

/// Accepts the nodes where every span lies inside a document of `len` bytes.
pub fn check_spans(nodes: Vec<NodeRecord>, len: usize) -> (r: Result<Vec<NodeRecord>, AnalysisError>)
    ensures
        r is Ok <==> spans_within(infos(nodes@), len as nat),
        r matches Ok(v) ==> v@ == nodes@,
        r matches Err(e) ==> e == AnalysisError::SpanOutOfRange,
{
    let mut i: usize = 0;
    while i < nodes.len()
        invariant
            i <= nodes@.len(),
            forall|j: int| 0 <= j < i ==> #[trigger] nodes@[j].start_byte <= nodes@[j].end_byte <= len,
        decreases nodes@.len() - i,
    {
        if nodes[i].start_byte > nodes[i].end_byte || nodes[i].end_byte > len {
            assert(infos(nodes@)[i as int] == nodes@[i as int]@);
            let ghost bad = infos(nodes@)[i as int];
            assert(!(bad.start_byte <= bad.end_byte <= len as nat));
            assert(!spans_within(infos(nodes@), len as nat)) by {
                if spans_within(infos(nodes@), len as nat) {
                    assert(infos(nodes@)[i as int].start_byte <= infos(nodes@)[i as int].end_byte
                        <= len as nat);
                }
            }
            return Err(AnalysisError::SpanOutOfRange);
        }
        i = i + 1;
    }
    assert forall|j: int| 0 <= j < infos(nodes@).len() implies #[trigger] infos(nodes@)[j].start_byte
        <= infos(nodes@)[j].end_byte <= len by {
        assert(infos(nodes@)[j] == nodes@[j]@);
    }
    Ok(nodes)
}

/// The Tree Walker for one document: parses `source` with the registered
/// grammar of `lang` (no earlier tree) and lists its nodes in pre-order.
pub fn parse_nodes(registry: &GrammarRegistry, lang: SourceLanguage, source: &[u8]) -> (r: Result<
    Vec<NodeRecord>,
    AnalysisError,
>)
    ensures
        match r {
            Ok(nodes) => nodes_result(lang, source@) == Ok::<_, AnalysisError>(infos(nodes@)),
            Err(e) => nodes_result(lang, source@) == Err::<Seq<NodeInfo>, _>(e),
        },
{
    let mut parser = new_parser();
    let grammar = registry.grammar(lang);
    match set_parser_language(&mut parser, grammar) {
        Ok(()) => {},
        Err(_) => {
            return Err(AnalysisError::IncompatibleGrammar);
        },
    }
    match parse_text(&mut parser, source) {
        Some(tree) => {
            let nodes = walk_tree(&tree);
            check_spans(nodes, source.len())
        },
        None => Err(AnalysisError::NoTree),
    }
}

} // verus!
