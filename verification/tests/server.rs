use piolsp::lsp::{DocumentData, Position, Range};
use piolsp::server::{HighlightKind, HoverText};

fn doc(src: &str) -> DocumentData {
    let mut parser = piolsp::pio_parser().unwrap();
    DocumentData::new(&mut parser, src.to_string()).unwrap()
}

fn pos(line: u32, character: u32) -> Position {
    Position { line, character }
}

fn range(sl: u32, sc: u32, el: u32, ec: u32) -> Range {
    Range { start: pos(sl, sc), end: pos(el, ec) }
}

const LABELS: &str = ".program p\nstart:\n    nop\n    jmp start\n    jmp start\n";

#[test]
fn references_with_and_without_declaration() {
    let doc = doc(LABELS);
    let node = doc.node_at(pos(3, 10)).unwrap();
    assert!(doc.lookup_fits(node));
    let with = doc.reference_ranges(node, true).unwrap();
    let without = doc.reference_ranges(node, false).unwrap();
    assert_eq!(with.len(), 3);
    assert_eq!(&with[1..], &without[..]);
    assert_eq!(with[0], range(1, 0, 1, 5));
    assert_eq!(without, vec![range(3, 8, 3, 13), range(4, 8, 4, 13)]);
}

#[test]
fn definition_and_rename_ranges() {
    let doc = doc(LABELS);
    let node = doc.node_at(pos(4, 10)).unwrap();
    assert_eq!(doc.definition_range(node), Some(range(1, 0, 1, 6)));
    assert_eq!(doc.rename_range(node), Some(range(1, 0, 1, 5)));
    let nop = doc.node_at(pos(2, 5)).unwrap();
    assert_eq!(doc.definition_range(nop), None);
    assert_eq!(doc.rename_range(nop), None);
}

#[test]
fn highlights_mark_definition_and_uses() {
    let doc = doc(LABELS);
    let node = doc.node_at(pos(1, 1)).unwrap();
    let hs = doc.highlights(node).unwrap();
    assert_eq!(hs.len(), 3);
    assert_eq!(hs[0], (range(1, 0, 1, 5), HighlightKind::Write));
    assert_eq!(hs[1], (range(3, 8, 3, 13), HighlightKind::Read));
    assert_eq!(hs[2].1, HighlightKind::Read);
}

#[test]
fn hover_shows_define_value() {
    let doc = doc(".define FOO 2\n.define BAR FOO\n.program test\n    set x, FOO\n");
    let node = doc.node_at(pos(1, 13)).unwrap();
    match doc.hover(node) {
        Some(HoverText::Plain(v)) => assert_eq!(v, "2"),
        _ => panic!("expected the value of the define"),
    }
    // inside an instruction the operand's documentation comes first
    let operand = doc.node_at(pos(3, 12)).unwrap();
    match doc.hover(operand) {
        Some(HoverText::Markdown(v)) => assert!(v.starts_with("The value to set")),
        _ => panic!("expected operand documentation"),
    }
    let op = doc.node_at(pos(3, 5)).unwrap();
    match doc.hover(op) {
        Some(HoverText::Markdown(v)) => assert!(v.starts_with("\n## Operation")),
        _ => panic!("expected instruction documentation"),
    }
}

#[test]
fn formatting_edit_covers_document() {
    let doc = doc("\n.program p\n\n\nnop\nset x 23\n");
    let (r, text) = doc.formatting_edit();
    assert_eq!(r, range(0, 0, 6, 0));
    assert_eq!(text, "\n.program p\n\n    nop\n    set x, 23\n");
}

#[test]
fn renaming_starts_where_preparing_it_shows() {
    let doc = doc(".define N 3\n.program p\nstart:\n    set x, N\n    jmp start\n");
    for p in [pos(4, 10), pos(3, 11), pos(2, 1)] {
        let node = doc.node_at(p).unwrap();
        let shown = doc.rename_range(node).unwrap();
        let edited = doc.reference_ranges(node, true).unwrap();
        assert_eq!(edited[0], shown);
    }
}
