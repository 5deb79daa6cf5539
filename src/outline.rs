//! The node renderer: one line for each named node, indented by its depth,
//! with the source text of identifier nodes.
use crate::grammar::GrammarRegistry;
use crate::language::SourceLanguage;
use crate::syntax::{
    infos, nodes_result, parse_nodes, spans_within, AnalysisError, NodeInfo, NodeRecord,
};
use vstd::prelude::*;
use vstd::utf8::encode_utf8;

verus! {

/// One rendered line.
pub struct OutlineLine {
    /// Depth of the node below the root.
    pub depth: usize,
    /// The node's grammar category.
    pub kind: String,
    /// The exact source bytes that the node spans, for identifier nodes only.
    pub text: Option<Vec<u8>>,
}

/// What a rendered line holds.
pub struct OutlineLineView {
    pub depth: nat,
    pub kind: Seq<char>,
    pub text: Option<Seq<u8>>,
}

impl View for OutlineLine {
    type V = OutlineLineView;

    open spec fn view(&self) -> OutlineLineView {
        OutlineLineView {
            depth: self.depth as nat,
            kind: self.kind@,
            text: match self.text {
                Some(t) => Some(t@),
                None => None,
            },
        }
    }
}

/// The categories whose source text is shown.
pub open spec fn is_identifier_kind(kind: Seq<char>) -> bool {
    kind == "identifier"@ || kind == "type_identifier"@
}

/// The line rendered for a named node of `source`.
pub open spec fn line_of(source: Seq<u8>, node: NodeInfo) -> OutlineLineView {
    OutlineLineView {
        depth: node.depth,
        kind: node.kind,
        text: if is_identifier_kind(node.kind) {
            Some(source.subrange(node.start_byte as int, node.end_byte as int))
        } else {
            None
        },
    }
}

/// The outline of a pre-order node list: a line for each named node, in
/// order; unnamed nodes give none.
pub open spec fn outline_of(source: Seq<u8>, nodes: Seq<NodeInfo>) -> Seq<OutlineLineView>
    decreases nodes.len(),
{
    if nodes.len() == 0 {
        Seq::empty()
    } else {
        let rest = outline_of(source, nodes.drop_last());
        if nodes.last().named {
            rest.push(line_of(source, nodes.last()))
        } else {
            rest
        }
    }
}

/// Whether the category is one whose text is shown.
pub fn identifier_kind(kind: &str) -> (r: bool)
    ensures
        r == is_identifier_kind(kind@),
{
    crate::language::same_text(kind, "identifier") || crate::language::same_text(
        kind,
        "type_identifier",
    )
}

fn copy_span(source: &[u8], start: usize, end: usize) -> (r: Vec<u8>)
    requires
        start <= end <= source@.len(),
    ensures
        r@ == source@.subrange(start as int, end as int),
{
    let mut out: Vec<u8> = Vec::new();
    let mut i = start;
    while i < end
        invariant
            start <= i <= end <= source@.len(),
            out@ == source@.subrange(start as int, i as int),
        decreases end - i,
    {
        out.push(source[i]);
        assert(source@.subrange(start as int, i + 1) == source@.subrange(start as int, i as int).push(
            source@[i as int],
        ));
        i = i + 1;
    }
    out
}

/// Renders the nodes of `source` that the walk listed.
pub fn render_outline(source: &[u8], nodes: &Vec<NodeRecord>) -> (r: Vec<OutlineLine>)
    requires
        spans_within(infos(nodes@), source@.len()),
    ensures
        r@.map_values(|l: OutlineLine| l@) == outline_of(source@, infos(nodes@)),
{
    let mut lines: Vec<OutlineLine> = Vec::new();
    let mut i: usize = 0;
    while i < nodes.len()
        invariant
            i <= nodes@.len(),
            spans_within(infos(nodes@), source@.len()),
            lines@.map_values(|l: OutlineLine| l@) == outline_of(
                source@,
                infos(nodes@).subrange(0, i as int),
            ),
        decreases nodes@.len() - i,
    {
        let node = &nodes[i];
        let ghost all = infos(nodes@);
        let ghost prefix = all.subrange(0, i + 1);
        assert(prefix.drop_last() == all.subrange(0, i as int));
        assert(prefix.last() == nodes@[i as int]@);
        if node.named {
            let text = if identifier_kind(node.kind.as_str()) {
                assert(all[i as int].start_byte <= all[i as int].end_byte <= source@.len());
                Some(copy_span(source, node.start_byte, node.end_byte))
            } else {
                None
            };
            let line = OutlineLine { depth: node.depth, kind: node.kind.clone(), text };
            let ghost before = lines@;
            lines.push(line);
            assert(lines@.map_values(|l: OutlineLine| l@) == before.map_values(
                |l: OutlineLine| l@,
            ).push(line@));
        }
        i = i + 1;
    }
    assert(infos(nodes@).subrange(0, i as int) == infos(nodes@));
    lines
}

/// Two spaces for each level of depth.
pub open spec fn indentation(depth: nat) -> Seq<u8> {
    Seq::new(2 * depth, |i: int| 32u8)
}

/// The marker between a category and the text of an identifier: ` -> `.
pub open spec fn text_marker() -> Seq<u8> {
    seq![32u8, 45u8, 62u8, 32u8]
}

/// The bytes of a rendered line, without its line break: the indentation,
/// the category, and for identifier nodes the marker and the node's text.
pub open spec fn line_bytes(line: OutlineLineView) -> Seq<u8> {
    indentation(line.depth) + encode_utf8(line.kind) + match line.text {
        Some(t) => text_marker() + t,
        None => Seq::empty(),
    }
}

fn append_bytes(out: &mut Vec<u8>, bytes: &[u8])
    ensures
        final(out)@ == old(out)@ + bytes@,
{
    let ghost start = out@;
    let mut i: usize = 0;
    while i < bytes.len()
        invariant
            i <= bytes@.len(),
            out@ == start + bytes@.subrange(0, i as int),
        decreases bytes@.len() - i,
    {
        out.push(bytes[i]);
        assert(bytes@.subrange(0, i + 1) == bytes@.subrange(0, i as int).push(bytes@[i as int]));
        i = i + 1;
    }
    assert(bytes@.subrange(0, i as int) == bytes@);
}

/// The bytes of one rendered line (see `line_bytes`).
pub fn format_line(line: &OutlineLine) -> (r: Vec<u8>)
    ensures
        r@ == line_bytes(line@),
{
    let mut out: Vec<u8> = Vec::new();
    let mut d: usize = 0;
    while d < line.depth
        invariant
            d <= line.depth,
            out@ == indentation(d as nat),
        decreases line.depth - d,
    {
        out.push(32u8);
        out.push(32u8);
        assert(out@ == indentation((d + 1) as nat));
        d = d + 1;
    }
    append_bytes(&mut out, line.kind.as_str().as_bytes());
    match &line.text {
        Some(t) => {
            let marker: [u8; 4] = [32u8, 45u8, 62u8, 32u8];
            assert(marker@ == text_marker());
            append_bytes(&mut out, marker.as_slice());
            append_bytes(&mut out, t.as_slice());
        },
        None => {},
    }
    assert(out@ == line_bytes(line@));
    out
}

/// What the scan prints for a document: the outline of its pre-order
/// listing, or why there is none.
pub open spec fn outline_result(lang: SourceLanguage, text: Seq<u8>) -> Result<
    Seq<OutlineLineView>,
    AnalysisError,
> {
    match nodes_result(lang, text) {
        Ok(nodes) => Ok(outline_of(text, nodes)),
        Err(e) => Err(e),
    }
}

/// Parses `source` with the grammar of `lang` and renders its outline: the
/// Tree Walker and the Node Renderer for one file. The result depends on
/// `lang` and the text alone, so two runs over the same file agree.
pub fn outline_source(registry: &GrammarRegistry, lang: SourceLanguage, source: &[u8]) -> (r:
    Result<Vec<OutlineLine>, AnalysisError>)
    ensures
        match r {
            Ok(lines) => outline_result(lang, source@) == Ok::<_, AnalysisError>(
                lines@.map_values(|l: OutlineLine| l@),
            ),
            Err(e) => outline_result(lang, source@) == Err::<Seq<OutlineLineView>, _>(e),
        },
{
    match parse_nodes(registry, lang, source) {
        Ok(nodes) => Ok(render_outline(source, &nodes)),
        Err(e) => Err(e),
    }
}

/// The outline renders exactly the named nodes, in walk order: each line
/// carries its node's category and depth, and the text of the node's span
/// where the category is an identifier one.
pub proof fn lemma_outline_renders_named_nodes(source: Seq<u8>, nodes: Seq<NodeInfo>)
    ensures
        outline_of(source, nodes) == nodes.filter(|n: NodeInfo| n.named).map_values(
            |n: NodeInfo| line_of(source, n),
        ),
    decreases nodes.len(),
{
    reveal(Seq::filter);
    if nodes.len() > 0 {
        lemma_outline_renders_named_nodes(source, nodes.drop_last());
        let named = |n: NodeInfo| n.named;
        let render = |n: NodeInfo| line_of(source, n);
        assert(nodes.filter(named) == if nodes.last().named {
            nodes.drop_last().filter(named).push(nodes.last())
        } else {
            nodes.drop_last().filter(named)
        });
        if nodes.last().named {
            assert(nodes.drop_last().filter(named).push(nodes.last()).map_values(render)
                == nodes.drop_last().filter(named).map_values(render).push(render(nodes.last())));
        }
    }
}

/// Every identifier line of an outline shows exactly the source bytes that
/// its node spans, and names that node's category.
pub proof fn lemma_identifier_text(source: Seq<u8>, nodes: Seq<NodeInfo>, k: int)
    requires
        0 <= k < outline_of(source, nodes).len(),
        is_identifier_kind(outline_of(source, nodes)[k].kind),
    ensures
        exists|i: int|
            0 <= i < nodes.len() && #[trigger] nodes[i].named && outline_of(source, nodes)[k].kind
                == nodes[i].kind && outline_of(source, nodes)[k].depth == nodes[i].depth
                && outline_of(source, nodes)[k].text == Some(
                source.subrange(nodes[i].start_byte as int, nodes[i].end_byte as int),
            ),
    decreases nodes.len(),
{
    let rest = nodes.drop_last();
    if k < outline_of(source, rest).len() {
        lemma_identifier_text(source, rest, k);
        let i = choose|i: int|
            0 <= i < rest.len() && #[trigger] rest[i].named && outline_of(source, rest)[k].kind
                == rest[i].kind && outline_of(source, rest)[k].depth == rest[i].depth
                && outline_of(source, rest)[k].text == Some(
                source.subrange(rest[i].start_byte as int, rest[i].end_byte as int),
            );
        assert(nodes[i] == rest[i]);
    } else {
        let i = nodes.len() - 1;
        assert(nodes[i].named);
    }
}

} // verus!
