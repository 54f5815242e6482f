use piolsp::edit::{
    apply_doc_changes, changes_fit, full_range, point_after_insert, range_to_offset, ContentChange,
    TextEdit,
};
use piolsp::lsp::{Position, Range};
use piolsp::tree::Point;

fn pos(line: u32, character: u32) -> Position {
    Position { line, character }
}

fn range(sl: u32, sc: u32, el: u32, ec: u32) -> Range {
    Range { start: pos(sl, sc), end: pos(el, ec) }
}

#[test]
fn computes_full_range() {
    let text = "abc\ndef";
    let r = full_range(text);
    assert_eq!(r.start, Position { line: 0, character: 0 });
    assert_eq!(r.end, Position { line: 1, character: 3 });
}

#[test]
fn full_range_edge_cases() {
    assert_eq!(full_range("").end, pos(0, 0));
    assert_eq!(full_range("abc\n").end, pos(1, 0));
    assert_eq!(full_range("abc\r\n").end, pos(1, 0));
    assert_eq!(full_range("a\n\n").end, pos(2, 0));
    assert_eq!(full_range("a\nbc\r").end, pos(1, 3));
    // the range covers every byte of the text
    for text in ["", "abc\n", "a\n\nb", "nop\r\n"] {
        assert_eq!(range_to_offset(text, full_range(text)), 0..text.len());
    }
}

#[test]
fn test_partial_update() {
    let mut doc = r#".program p
nop
set x 23
"#
    .to_owned();

    let changes = [
        (0, 10, 0, 10, "\njmp 3"),
        (2, 0, 3, 0, ""),
        (2, 8, 2, 8, "\nnop"),
        (2, 3, 2, 4, "1"),
        (2, 3, 2, 4, " "),
        (2, 4, 2, 5, "y"),
    ]
    .into_iter()
    .map(|(start_l, start_c, end_l, end_c, text)| ContentChange::Partial {
        range: range(start_l, start_c, end_l, end_c),
        text: text.to_string(),
    })
    .collect::<Vec<_>>();
    apply_doc_changes(&mut doc, changes);

    let doc_new = r#".program p
jmp 3
set y 23
nop
"#;

    assert_eq!(doc, doc_new);
}

#[test]
fn offsets_of_ranges() {
    let doc = "ab\ncd\n";
    assert_eq!(range_to_offset(doc, range(0, 1, 1, 1)), 1..4);
    // the start of the line past the last one is the end of the text
    assert_eq!(range_to_offset(doc, range(1, 0, 2, 0)), 3..6);
    // a range past the end is cut down to the end
    assert_eq!(range_to_offset(doc, range(1, 1, 7, 2)), 4..6);
    assert_eq!(range_to_offset("", range(0, 0, 0, 0)), 0..0);
}

#[test]
fn points_after_insertion() {
    let p = Point { row: 2, column: 4 };
    assert_eq!(point_after_insert(p, "abc"), Point { row: 2, column: 7 });
    assert_eq!(point_after_insert(p, "a\nbc"), Point { row: 3, column: 2 });
    assert_eq!(point_after_insert(p, "a\n\n"), Point { row: 4, column: 0 });
    assert_eq!(point_after_insert(p, ""), p);
}

#[test]
fn edits_follow_changes() {
    let mut doc = "nop\nnop\n".to_owned();
    let changes = vec![ContentChange::Partial { range: range(1, 0, 1, 3), text: "set x 1\n".to_string() }];
    let edits = apply_doc_changes(&mut doc, changes).unwrap();
    assert_eq!(doc, "nop\nset x 1\n\n");
    assert_eq!(
        edits,
        vec![TextEdit {
            start_byte: 4,
            old_end_byte: 7,
            new_end_byte: 12,
            start_position: Point { row: 1, column: 0 },
            old_end_position: Point { row: 1, column: 3 },
            new_end_position: Point { row: 2, column: 0 },
        }]
    );
}

#[test]
fn whole_text_change_gives_no_edits() {
    let mut doc = "nop\n".to_owned();
    let changes = vec![
        ContentChange::Partial { range: range(0, 0, 0, 0), text: "x".to_string() },
        ContentChange::Whole { text: "jmp 0\n".to_string() },
    ];
    assert!(apply_doc_changes(&mut doc, changes).is_none());
    assert_eq!(doc, "jmp 0\n");
}

#[test]
fn changes_that_split_a_character_do_not_fit() {
    let doc = "é\n";
    let bad = vec![ContentChange::Partial { range: range(0, 1, 0, 1), text: "x".to_string() }];
    assert!(!changes_fit(doc, &bad));
    let good = vec![ContentChange::Partial { range: range(0, 2, 0, 2), text: "x".to_string() }];
    assert!(changes_fit(doc, &good));
    let reversed = vec![ContentChange::Partial { range: range(0, 2, 0, 0), text: "x".to_string() }];
    assert!(!changes_fit(doc, &reversed));
}

#[test]
fn incremental_reparse_matches_fresh_parse() {
    let mut parser = piolsp::pio_parser().unwrap();
    let mut doc = piolsp::lsp::DocumentData::new(&mut parser, ".program p\nnop\nset x 23\n".to_string()).unwrap();
    let changes = vec![
        ContentChange::Partial { range: range(1, 0, 1, 3), text: "jmp 0".to_string() },
        ContentChange::Partial { range: range(2, 4, 2, 5), text: "y".to_string() },
    ];
    assert!(changes_fit(&doc.text, &changes));
    assert!(doc.apply_changes(&mut parser, changes));
    assert_eq!(doc.text, ".program p\njmp 0\nset y 23\n");
    let fresh = piolsp::lsp::DocumentData::new(&mut parser, doc.text.clone()).unwrap();
    let kinds = |d: &piolsp::lsp::DocumentData| {
        d.syntax
            .nodes
            .iter()
            .map(|n| (n.kind, n.start_byte, n.end_byte, n.start_point, n.end_point, n.parent))
            .collect::<Vec<_>>()
    };
    assert_eq!(kinds(&doc), kinds(&fresh));
}

#[test]
fn inserting_in_two_steps_ends_where_inserting_once() {
    let p = Point { row: 3, column: 7 };
    for (a, b) in [("ab", "cd"), ("ab\ncd", "e"), ("ab", "c\nde"), ("a\nb\n", "c\nd"), ("", "x\n"), ("xy", "")] {
        let joined = format!("{a}{b}");
        assert_eq!(
            point_after_insert(point_after_insert(p, a), b),
            point_after_insert(p, &joined),
            "{a:?} then {b:?}"
        );
    }
    assert_eq!(point_after_insert(p, ""), p);
    assert_eq!(point_after_insert(p, "ab\ncde\nfg"), Point { row: 5, column: 2 });
}

#[test]
fn update_with_whole_text_matches_new() {
    let text = ".program p\nstart:\nnop\njmp start\n.wrap\n".to_string();
    let mut parser = piolsp::pio_parser().unwrap();
    let fresh = piolsp::lsp::DocumentData::new(&mut parser, text.clone()).unwrap();
    let mut doc =
        piolsp::lsp::DocumentData::new(&mut parser, ".program q\nset x 1\nset y 2\n".to_string()).unwrap();
    assert!(doc.update(&mut parser, text.clone(), None));
    assert_eq!(doc.text, text);
    assert_eq!(doc.tree.root_node().to_sexp(), fresh.tree.root_node().to_sexp());
    assert_eq!(format!("{:?}", doc.syntax), format!("{:?}", fresh.syntax));
    assert_eq!(format!("{:?}", doc.programs), format!("{:?}", fresh.programs));
    assert_eq!(format!("{:?}", doc.inlay_hints), format!("{:?}", fresh.inlay_hints));
    assert!(doc.programs.get_program("q").is_none());
    assert!(doc.programs.get_program("p").is_some());
}
