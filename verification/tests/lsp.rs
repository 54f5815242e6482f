use piolsp::lsp::{ts_range_to_lsp, DocumentData, Position, SymbolType};
use piolsp::lsp::node_ts_range;

fn doc(src: &str) -> DocumentData {
    let mut parser = piolsp::pio_parser().unwrap();
    DocumentData::new(&mut parser, src.to_string()).unwrap()
}

fn kind(doc: &DocumentData, n: usize) -> &'static str {
    doc.syntax.nodes[n].kind
}

#[test]
fn test_node_at() {
    let src = r#"
.program p
jmp 0
"#;
    let doc = doc(src);
    let node = doc.node_at(Position { line: 2, character: 0 }).unwrap();
    assert_eq!(kind(&doc, node), "opcode");
    let node = doc.node_at(Position { line: 2, character: 1 }).unwrap();
    assert_eq!(kind(&doc, node), "opcode");
    let node = doc.node_at(Position { line: 2, character: 2 }).unwrap();
    assert_eq!(kind(&doc, node), "opcode");
    let node = doc.node_at(Position { line: 2, character: 3 }).unwrap();
    assert_eq!(kind(&doc, node), "instr_jmp");
    let node = doc.node_at(Position { line: 2, character: 4 }).unwrap();
    assert_eq!(kind(&doc, node), "integer");
    let node = doc.node_at(Position { line: 2, character: 5 }).unwrap();
    assert_eq!(kind(&doc, node), "\n");
}

#[test]
fn count_instructions() {
    let src = r#"
.program test
    set pins, 1
    nop
    jmp start

start:
    nop
"#;
    let doc = doc(src);
    let prog = doc.programs.get_program("test").unwrap();
    assert_eq!(prog.instr_count, 4);
}

#[test]
fn finds_global_define() {
    let src = r#"
.define FOO 2
.program test
    set x, FOO
"#;
    let doc = doc(src);
    let pos = Position { line: 3, character: 13 };
    let node = doc.node_at(pos).unwrap();
    let def = doc.get_definition(node).unwrap();
    assert_eq!(def.text(), Some("FOO"));
    match def.typ {
        SymbolType::Define { value, named: _ } => assert_eq!(value, "2"),
        _ => panic!("expected define"),
    }
}

#[test]
fn finds_label_definition() {
    let src = r#"
.program p
start:
    nop
    jmp start
"#;
    let doc = doc(src);
    let pos = Position { line: 4, character: 10 };
    let node = doc.node_at(pos).unwrap();
    let def = doc.get_definition(node).unwrap();
    match def.typ {
        SymbolType::Label(_) => {}
        _ => panic!("expected label"),
    }
    assert_eq!(def.text().unwrap(), "start");
}

#[test]
fn collects_all_label_references() {
    let doc = doc(r#"
.program p
start:
    nop
    jmp start
    jmp start
"#);
    let pos = Position { line: 2, character: 1 };
    let node = doc.node_at(pos).unwrap();
    let (_, refs) = doc.get_references(node).unwrap();
    assert_eq!(refs.len(), 2);
}

#[test]
fn creates_instruction_pc_hints() {
    let doc = doc(r#"
.program p
    nop
    nop
    nop
"#);
    let labels: Vec<&str> = doc.inlay_hints().iter().map(|h| h.label.as_str()).collect();
    assert!(labels.contains(&"00:"));
    assert!(labels.contains(&"01:"));
    assert!(labels.contains(&"02:"));
    assert!(labels.iter().any(|s| s.contains("instructions")));
}

#[test]
fn wrap_get_refs() {
    let doc = doc(r#"
.program p
.wrap_target
    nop
.wrap
"#);
    let pos = Position { line: 2, character: 2 };
    let node = doc.node_at(pos).unwrap();
    let (d, refs) = doc.get_references(node).unwrap();
    let parent = doc.syntax.nodes[node].parent.unwrap();
    assert_eq!(ts_range_to_lsp(node_ts_range(&doc.syntax, parent)), d);
    assert_eq!(refs.len(), 1);
}

#[test]
fn wrap_get_definition() {
    let doc = doc(r#"
.program p
.wrap_target
    nop
.wrap
"#);
    let pos = Position { line: 4, character: 2 };
    let node = doc.node_at(pos).unwrap();
    let sd = doc.get_definition(node).unwrap();
    assert_eq!(sd.typ, SymbolType::Wrap);
    let target = doc.node_at(Position { line: 2, character: 2 }).unwrap();
    let parent = doc.syntax.nodes[target].parent.unwrap();
    assert_eq!(sd.statement_range, ts_range_to_lsp(node_ts_range(&doc.syntax, parent)));
}

#[test]
fn label_reference_hint_shows_address() {
    let doc = doc(".program p\n    nop\nloop:\n    nop\n    jmp loop\n");
    let hints: Vec<(u32, u32, &str)> = doc
        .inlay_hints()
        .iter()
        .map(|h| (h.position.line, h.position.character, h.label.as_str()))
        .collect();
    assert!(hints.contains(&(4, 12, "01")));
    assert!(hints.contains(&(0, 10, "3 instructions")));
}
