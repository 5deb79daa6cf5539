use syntax_outline::grammar::GrammarRegistry;
use syntax_outline::language::SourceLanguage;
use syntax_outline::outline::{format_line, identifier_kind, outline_source, render_outline, OutlineLine};
use syntax_outline::syntax::{check_spans, parse_nodes, AnalysisError, NodeRecord};

fn record(kind: &str, named: bool, start: usize, end: usize, depth: usize) -> NodeRecord {
    NodeRecord { kind: kind.to_string(), named, start_byte: start, end_byte: end, depth }
}

fn summary(lines: &[OutlineLine]) -> Vec<(usize, String, Option<String>)> {
    lines
        .iter()
        .map(|l| {
            (l.depth, l.kind.clone(), l.text.as_ref().map(|t| String::from_utf8(t.clone()).unwrap()))
        })
        .collect()
}

fn line(depth: usize, kind: &str, text: Option<&str>) -> (usize, String, Option<String>) {
    (depth, kind.to_string(), text.map(|t| t.to_string()))
}

#[test]
fn struct_with_one_field_outline() {
    let registry = GrammarRegistry::new();
    let lines = outline_source(&registry, SourceLanguage::Rust, b"struct Point { x: i32 }").unwrap();
    assert_eq!(
        summary(&lines),
        vec![
            line(0, "source_file", None),
            line(1, "struct_item", None),
            line(2, "type_identifier", Some("Point")),
            line(2, "field_declaration_list", None),
            line(3, "field_declaration", None),
            line(4, "field_identifier", None),
            line(4, "primitive_type", None),
        ]
    );
}

#[test]
fn function_name_is_shown_as_identifier_text() {
    let registry = GrammarRegistry::new();
    let lines = outline_source(&registry, SourceLanguage::Rust, b"fn foo() {}").unwrap();
    let idents: Vec<_> = summary(&lines).into_iter().filter(|l| l.1 == "identifier").collect();
    assert_eq!(idents, vec![line(2, "identifier", Some("foo"))]);
    assert_eq!(lines[0].kind, "source_file");
    assert_eq!(lines[0].depth, 0);
    assert_eq!(lines[1].kind, "function_item");
    assert_eq!(lines[1].depth, 1);
}

#[test]
fn multibyte_identifier_text_is_sliced_whole() {
    let registry = GrammarRegistry::new();
    let lines = outline_source(&registry, SourceLanguage::Rust, "fn café() {}".as_bytes()).unwrap();
    let idents: Vec<_> = summary(&lines).into_iter().filter(|l| l.1 == "identifier").collect();
    assert_eq!(idents, vec![line(2, "identifier", Some("café"))]);
}

#[test]
fn typescript_identifiers_are_shown() {
    let registry = GrammarRegistry::new();
    let lines = outline_source(&registry, SourceLanguage::TypeScript, b"let answer = 42;").unwrap();
    let s = summary(&lines);
    assert_eq!(s[0], line(0, "program", None));
    assert!(s.contains(&line(3, "identifier", Some("answer"))));
    assert!(s.iter().all(|l| l.1 != "=" && l.1 != ";"));
}

#[test]
fn tsx_and_c_sharp_parse() {
    let registry = GrammarRegistry::new();
    let tsx = outline_source(&registry, SourceLanguage::Tsx, b"const a = <div />;").unwrap();
    assert_eq!(tsx[0].kind, "program");
    assert!(summary(&tsx).contains(&line(3, "identifier", Some("a"))));
    let cs = outline_source(&registry, SourceLanguage::CSharp, b"class Greeter {}").unwrap();
    assert_eq!(cs[0].kind, "compilation_unit");
    assert!(summary(&cs).iter().any(|l| l.2.as_deref() == Some("Greeter")));
}

#[test]
fn invalid_source_still_gives_a_tree() {
    let registry = GrammarRegistry::new();
    let lines = outline_source(&registry, SourceLanguage::Rust, b"fn (").unwrap();
    assert_eq!(lines[0].kind, "source_file");
    assert!(lines.iter().any(|l| l.kind == "ERROR"));
}

#[test]
fn empty_source_gives_only_the_root() {
    let registry = GrammarRegistry::new();
    let lines = outline_source(&registry, SourceLanguage::Rust, b"").unwrap();
    assert_eq!(summary(&lines), vec![line(0, "source_file", None)]);
}

#[test]
fn walk_lists_every_node_in_preorder() {
    let registry = GrammarRegistry::new();
    let nodes = parse_nodes(&registry, SourceLanguage::Rust, b"struct P;").unwrap();
    let shape: Vec<_> = nodes.iter().map(|n| (n.depth, n.kind.as_str(), n.named)).collect();
    assert_eq!(
        shape,
        vec![
            (0, "source_file", true),
            (1, "struct_item", true),
            (2, "struct", false),
            (2, "type_identifier", true),
            (2, ";", false),
        ]
    );
    assert_eq!((nodes[3].start_byte, nodes[3].end_byte), (7, 8));
}

#[test]
fn render_skips_unnamed_nodes_and_shows_identifier_text() {
    let source = b"fn foo() {}";
    let nodes = vec![
        record("source_file", true, 0, 11, 0),
        record("function_item", true, 0, 11, 1),
        record("fn", false, 0, 2, 2),
        record("identifier", true, 3, 6, 2),
        record("type_identifier", true, 4, 6, 2),
        record("block", true, 9, 11, 2),
    ];
    let lines = render_outline(source, &nodes);
    assert_eq!(
        summary(&lines),
        vec![
            line(0, "source_file", None),
            line(1, "function_item", None),
            line(2, "identifier", Some("foo")),
            line(2, "type_identifier", Some("oo")),
            line(2, "block", None),
        ]
    );
}

#[test]
fn render_of_only_unnamed_nodes_is_empty() {
    let nodes = vec![record(";", false, 0, 1, 0)];
    assert!(render_outline(b";", &nodes).is_empty());
    assert!(render_outline(b"", &Vec::new()).is_empty());
}

#[test]
fn identifier_kinds_are_a_fixed_pair() {
    assert!(identifier_kind("identifier"));
    assert!(identifier_kind("type_identifier"));
    assert!(!identifier_kind("field_identifier"));
    assert!(!identifier_kind("Identifier"));
}

#[test]
fn format_line_indents_two_spaces_per_level() {
    let with_text = OutlineLine { depth: 2, kind: "identifier".to_string(), text: Some(b"foo".to_vec()) };
    assert_eq!(format_line(&with_text), b"    identifier -> foo".to_vec());
    let plain = OutlineLine { depth: 1, kind: "struct_item".to_string(), text: None };
    assert_eq!(format_line(&plain), b"  struct_item".to_vec());
    let root = OutlineLine { depth: 0, kind: "source_file".to_string(), text: None };
    assert_eq!(format_line(&root), b"source_file".to_vec());
}

#[test]
fn spans_outside_the_document_are_refused() {
    let ok = vec![record("identifier", true, 0, 3, 0)];
    assert_eq!(check_spans(ok, 3).unwrap().len(), 1);
    let past_end = vec![record("identifier", true, 0, 4, 0)];
    assert_eq!(check_spans(past_end, 3).err(), Some(AnalysisError::SpanOutOfRange));
    let reversed = vec![record("identifier", true, 2, 1, 0)];
    assert_eq!(check_spans(reversed, 3).err(), Some(AnalysisError::SpanOutOfRange));
}

#[test]
fn scanning_twice_gives_identical_lines() {
    let registry = GrammarRegistry::new();
    let source = b"struct Point { x: i32 }\nfn foo(p: Point) -> i32 { p.x }";
    let first: Vec<Vec<u8>> =
        outline_source(&registry, SourceLanguage::Rust, source).unwrap().iter().map(format_line).collect();
    let second: Vec<Vec<u8>> =
        outline_source(&registry, SourceLanguage::Rust, source).unwrap().iter().map(format_line).collect();
    assert_eq!(first, second);
    assert!(!first.is_empty());
}

#[test]
fn walk_climbs_back_out_of_nested_items() {
    let registry = GrammarRegistry::new();
    let source = b"mod a { mod b { struct C; } } struct D;";
    let lines = outline_source(&registry, SourceLanguage::Rust, source).unwrap();
    let types: Vec<_> = summary(&lines).into_iter().filter(|l| l.1 == "type_identifier").collect();
    assert_eq!(types, vec![line(6, "type_identifier", Some("C")), line(2, "type_identifier", Some("D"))]);
    let structs: Vec<usize> = lines.iter().filter(|l| l.kind == "struct_item").map(|l| l.depth).collect();
    assert_eq!(structs, vec![5, 1]);
}

#[test]
fn registry_looks_up_extensions() {
    let registry = GrammarRegistry::new();
    assert!(registry.lookup("rs").is_some());
    assert!(registry.lookup("tsx").is_some());
    assert!(registry.lookup("txt").is_none());
    assert!(registry.lookup("Rs").is_none());
}
