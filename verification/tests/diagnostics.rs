use piolsp::diagnostics::{
    diagnostics_from_captures, parse_pioasm_diagnostics, parse_u32, DiagnosticsError, IntErrorKind,
    NumberField, TOO_MANY_ERRORS,
};
use piolsp::lsp::{Position, Range};

fn range(sl: u32, sc: u32, el: u32, ec: u32) -> Option<Range> {
    Some(Range {
        start: Position { line: sl, character: sc },
        end: Position { line: el, character: ec },
    })
}

#[test]
fn reads_pioasm_messages() {
    let stderr = ":3.5-7: undefined symbol 'foo'\n    3 | jmp foo\n      |     ^~~\n\
                  :4.1: syntax error, unexpected identifier\n    4 | bar\n      | ^\n";
    let ds = parse_pioasm_diagnostics(stderr).unwrap();
    assert_eq!(ds.len(), 2);
    assert_eq!(ds[0].message, "undefined symbol 'foo'");
    assert_eq!(ds[0].range, range(2, 4, 2, 7));
    assert_eq!(ds[1].message, "syntax error, unexpected identifier");
    assert_eq!(ds[1].range, range(3, 0, 3, 0));
}

#[test]
fn reads_too_many_errors() {
    let ds = parse_pioasm_diagnostics("\ntoo many errors; aborting.\n").unwrap();
    assert_eq!(ds.len(), 1);
    assert_eq!(ds[0].message, TOO_MANY_ERRORS);
    assert_eq!(ds[0].range, None);
}

#[test]
fn empty_output_has_no_messages() {
    assert!(parse_pioasm_diagnostics("").unwrap().is_empty());
}

#[test]
fn row_too_large_is_an_error() {
    let stderr = ":99999999999.1: oops\n    1 | nop\n      | ^\n";
    let e = parse_pioasm_diagnostics(stderr).err().unwrap();
    assert_eq!(e, DiagnosticsError::Number(NumberField::Row, IntErrorKind::PosOverflow));
    assert_eq!(e.message(), "failed to parse row: number too large to fit in target type");
}

#[test]
fn match_without_row_must_be_the_note() {
    let caps = vec![vec![Some((0, 5)), None]];
    assert_eq!(
        diagnostics_from_captures("hello", &caps).err(),
        Some(DiagnosticsError::NoRow)
    );
    let caps = vec![vec![Some((0, 15))]];
    let ds = diagnostics_from_captures("too many errors", &caps).unwrap();
    assert_eq!(ds[0].message, TOO_MANY_ERRORS);
}

#[test]
fn captures_without_columns_or_message() {
    let s = "12";
    let caps = vec![vec![Some((0, 2)), Some((0, 2))]];
    assert_eq!(
        diagnostics_from_captures(s, &caps).err(),
        Some(DiagnosticsError::NoColStart)
    );
    let caps = vec![vec![Some((0, 2)), Some((0, 2)), Some((0, 1)), None]];
    assert_eq!(diagnostics_from_captures(s, &caps).err(), Some(DiagnosticsError::NoMsg));
    let caps = vec![vec![Some((0, 2)), Some((0, 2)), Some((0, 0))]];
    assert_eq!(
        diagnostics_from_captures(s, &caps).err(),
        Some(DiagnosticsError::Number(NumberField::ColStart, IntErrorKind::Empty))
    );
}

#[test]
fn columns_move_back_to_character_boundaries() {
    // the columns index the output itself, as pioasm counts bytes of its input
    let s = "é12";
    let caps = vec![vec![Some((0, 4)), Some((2, 3)), Some((3, 4)), Some((2, 3)), Some((0, 2))]];
    let ds = diagnostics_from_captures(s, &caps).unwrap();
    // start column 2 - 1 = 1 lies inside "é" and moves back to 0; end column 1 too
    assert_eq!(ds[0].range, range(0, 0, 0, 0));
    assert_eq!(ds[0].message, "é");
    let caps = vec![vec![Some((0, 4)), Some((2, 3)), Some((3, 4)), Some((3, 4)), Some((0, 2))]];
    let ds = diagnostics_from_captures(s, &caps).unwrap();
    // end column 2 falls on a boundary and stays
    assert_eq!(ds[0].range, range(0, 0, 0, 2));
}

#[test]
fn parses_decimal_numbers() {
    assert_eq!(parse_u32(b"0"), Ok(0));
    assert_eq!(parse_u32(b"+42"), Ok(42));
    assert_eq!(parse_u32(b"4294967295"), Ok(4294967295));
    assert_eq!(parse_u32(b"4294967296"), Err(IntErrorKind::PosOverflow));
    assert_eq!(parse_u32(b""), Err(IntErrorKind::Empty));
    assert_eq!(parse_u32(b"+"), Err(IntErrorKind::InvalidDigit));
    assert_eq!(parse_u32(b"-1"), Err(IntErrorKind::InvalidDigit));
    assert_eq!(parse_u32(b"1a"), Err(IntErrorKind::InvalidDigit));
    for n in [0u32, 7, 10, 99, 12345, u32::MAX] {
        assert_eq!(parse_u32(n.to_string().as_bytes()), Ok(n));
    }
}

#[test]
fn unreadable_end_column_is_an_error() {
    let s = "1x";
    let caps = vec![vec![Some((0, 2)), Some((0, 1)), Some((0, 1)), Some((1, 2)), Some((0, 1))]];
    let e = diagnostics_from_captures(s, &caps).err().unwrap();
    assert_eq!(e, DiagnosticsError::Number(NumberField::ColEnd, IntErrorKind::InvalidDigit));
    assert_eq!(e.message(), "failed to parse col_end: invalid digit found in string");
}

#[test]
fn reads_output_with_invalid_bytes() {
    let mut out = b":1.1: invalid character: ".to_vec();
    out.push(0xC3);
    out.extend_from_slice(b"\n    1 | x\n      | ^\n");
    let ds = piolsp::diagnostics::read_pioasm_output(&out).unwrap();
    assert_eq!(ds.len(), 1);
    assert_eq!(ds[0].message, "invalid character: \u{FFFD}");
    assert_eq!(ds[0].range, range(0, 0, 0, 0));
}
