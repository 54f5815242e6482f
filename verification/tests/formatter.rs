use piolsp::formatter::format_tree;
use piolsp::tree::parse_source;

fn fmt(src: &str) -> String {
    let mut parser = piolsp::pio_parser().unwrap();
    let (_, tree) = parse_source(&mut parser, src, None).unwrap();
    format_tree(src, &tree)
}

#[test]
fn formatting_basic() {
    let src = r#"
.program p


nop
set x 23
"#;
    let expected = r#"
.program p

    nop
    set x, 23
"#;
    assert_eq!(fmt(src), expected);
}

#[test]
fn formatting_is_idempotent() {
    let formatted = fmt(r#"
.program p
    nop
"#);
    let formatted2 = fmt(&formatted);
    assert_eq!(formatted, formatted2);
}

#[test]
fn formats_side_delay_and_comments() {
    let src = ".program p\n.side_set 1\nloop:\n  nop [2] side 1 ; wait\n  JMP X-- loop side 0\n";
    let out = fmt(src);
    assert_eq!(
        out,
        " .program p\n.side_set 1\nloop:\n    nop            side 1  [ 2 ] ; wait\n    jmp x--, loop  side 0\n"
    );
}
