//! Diagnostics of the PIO assembler `pioasm`: its error output read into
//! messages with source ranges.
use vstd::prelude::*;
use vstd::string::{StringExecFns, StringSliceAdditionalSpecFns};
use vstd::utf8::{decode_utf8, encode_utf8, encode_utf8_decode_utf8, is_char_boundary};
use crate::lsp::{Position, Range};
use crate::text::{range_eq, substr};
use crate::tree::{floor_boundary, floor_char_boundary};

verus! {

/// Why a decimal number could not be read.
#[derive(Clone, Copy, Debug, PartialEq, Eq)]
pub enum IntErrorKind {
    /// there is no text
    Empty,
    /// a character is not a digit
    InvalidDigit,
    /// the number does not fit in 32 bits
    PosOverflow,
}

pub open spec fn is_digit(b: u8) -> bool {
    48 <= b <= 57
}

/// Reads the digits of `s` from position `i` on, after the value `acc` of
/// those before.
pub open spec fn digits_from(s: Seq<u8>, i: int, acc: int) -> Result<u32, IntErrorKind>
    decreases s.len() - i,
{
    if i < 0 || i >= s.len() {
        Ok(acc as u32)
    } else if !is_digit(s[i]) {
        Err(IntErrorKind::InvalidDigit)
    } else if acc * 10 + (s[i] - 48) > u32::MAX {
        Err(IntErrorKind::PosOverflow)
    } else {
        digits_from(s, i + 1, acc * 10 + (s[i] - 48))
    }
}

/// A decimal number of 32 bits, read as `u32::from_str` reads it: an
/// optional `+`, then digits only; the first digit that is not one, or the
/// first that makes the number too large, is the error.
pub open spec fn parse_u32_of(s: Seq<u8>) -> Result<u32, IntErrorKind> {
    if s.len() == 0 {
        Err(IntErrorKind::Empty)
    } else if s.len() == 1 && (s[0] == 43u8 || s[0] == 45u8) {
        Err(IntErrorKind::InvalidDigit)
    } else if s[0] == 43u8 {
        digits_from(s, 1, 0)
    } else {
        digits_from(s, 0, 0)
    }
}

/// Reads the decimal number in `s`.
pub fn parse_u32(s: &[u8]) -> (r: Result<u32, IntErrorKind>)
    ensures
        r == parse_u32_of(s@),
{
    let n = s.len();
    if n == 0 {
        return Err(IntErrorKind::Empty);
    }
    if n == 1 && (s[0] == 43u8 || s[0] == 45u8) {
        return Err(IntErrorKind::InvalidDigit);
    }
    let start: usize = if s[0] == 43u8 { 1 } else { 0 };
    let mut acc: u32 = 0;
    let mut i = start;
    while i < n
        invariant
            n == s@.len(),
            start <= i <= n,
            parse_u32_of(s@) == digits_from(s@, i as int, acc as int),
        decreases n - i,
    {
        let b = s[i];
        if !(48u8 <= b && b <= 57u8) {
            return Err(IntErrorKind::InvalidDigit);
        }
        let v: u64 = (acc as u64) * 10 + ((b - 48u8) as u64);
        if v > 4294967295u64 {
            return Err(IntErrorKind::PosOverflow);
        }
        acc = v as u32;
        i = i + 1;
    }
    Ok(acc)
}

/// `needle` occurs in `hay`.
pub open spec fn contains_bytes(hay: Seq<u8>, needle: Seq<u8>) -> bool {
    exists|i: int| 0 <= i && i + needle.len() <= hay.len() && #[trigger] hay.subrange(i, i + needle.len()) == needle
}

/// Whether `needle` occurs in `hay`.
pub fn bytes_contain(hay: &[u8], needle: &[u8]) -> (r: bool)
    ensures
        r == contains_bytes(hay@, needle@),
{
    let n = hay.len();
    let m = needle.len();
    if m > n {
        return false;
    }
    if m == 0 {
        assert(hay@.subrange(0int, 0int + needle@.len()) =~= needle@);
        return true;
    }
    let mut i: usize = 0;
    while i <= n - m
        invariant
            n == hay@.len(),
            m == needle@.len(),
            1 <= m <= n,
            i <= n - m + 1,
            forall|k: int| 0 <= k < i ==> #[trigger] hay@.subrange(k, k + m) != needle@,
        decreases n - m + 1 - i,
    {
        if range_eq(hay, i, i + m, needle) {
            return true;
        }
        i = i + 1;
    }
    false
}

/// The largest character boundary of `s` at most `i`, or its end when `i`
/// is past it.
pub open spec fn floor_boundary_clamped(s: Seq<u8>, i: int) -> int {
    if i >= s.len() {
        s.len() as int
    } else {
        floor_boundary(s, i)
    }
}

/// The largest character boundary of `s` at most `i`, as
/// `str::floor_char_boundary` gives it.
fn floor_boundary_of(s: &str, i: usize) -> (r: usize)
    ensures
        r == floor_boundary_clamped(s.spec_bytes(), i as int),
        r <= i,
{
    let n = s.as_bytes().len();
    if i >= n {
        n
    } else {
        floor_char_boundary(s, i)
    }
}

} // verus!

verus! {

/// The byte spans of the groups of each match of a pattern.
pub open spec fn caps_view(v: Seq<Vec<Option<(usize, usize)>>>) -> Seq<Seq<Option<(usize, usize)>>> {
    Seq::new(v.len(), |i: int| v[i]@)
}

/// A span lies in `s` and starts and ends at character boundaries.
pub open spec fn span_ok(s: Seq<u8>, g: Option<(usize, usize)>) -> bool {
    g matches Some(p) ==> p.0 <= p.1 <= s.len() && is_char_boundary(s, p.0 as int) && is_char_boundary(
        s,
        p.1 as int,
    )
}

/// Every match has its whole span as its first group, and every span lies in
/// `s` at character boundaries.
pub open spec fn captures_ok(s: Seq<u8>, caps: Seq<Seq<Option<(usize, usize)>>>) -> bool {
    forall|i: int|
        0 <= i < caps.len() ==> {
            &&& (#[trigger] caps[i]).len() >= 1
            &&& caps[i][0] is Some
            &&& forall|j: int| 0 <= j < caps[i].len() ==> span_ok(s, #[trigger] caps[i][j])
        }
}

/// The matches of the regular expression `pattern` in `haystack`, each as
/// the byte spans of its groups (`None` for a group that took no part), or
/// `None` when the pattern does not compile.
pub uninterp spec fn regex_captures_of(pattern: Seq<char>, haystack: Seq<char>) -> Option<
    Seq<Seq<Option<(usize, usize)>>>,
>;

/// Calls `regex::Regex::new(pattern)` and, when it gives a regex,
/// `captures_iter(haystack)` on it, taking of each match the spans of its
/// groups in order (`Captures::iter`, `Match::start`, `Match::end`). The
/// result is named `regex_captures_of`; beyond that it claims what the
/// crate documents: the first group of a match is always present, and every
/// span has its start at most its end and falls on character boundaries of
/// the haystack.
#[verifier::external_body]
fn regex_captures(pattern: &str, haystack: &str) -> (r: Option<Vec<Vec<Option<(usize, usize)>>>>)
    ensures
        r matches Some(v) ==> regex_captures_of(pattern@, haystack@) == Some(caps_view(v@))
            && captures_ok(haystack.spec_bytes(), caps_view(v@)),
        r is None ==> regex_captures_of(pattern@, haystack@) is None,
{
    match regex::Regex::new(pattern) {
        Ok(re) => Some(
            re.captures_iter(haystack).map(
                |c| c.iter().map(|g| g.map(|m| (m.start(), m.end()))).collect(),
            ).collect(),
        ),
        Err(_) => None,
    }
}

} // verus!

verus! {

/// The messages of `pioasm` on its error output: a line `:row.col[-col_end]:
/// message`, the source line and a line that marks the columns; or the note
/// that it gave up.
pub const DIAGNOSTICS_PATTERN: &'static str = r"(?m)^:(?<row>\d+).(?<col_start>\d+)(?:-(?<col_end>\d+))?:\s*(?<msg>.*)\n\s*(?<row2>\d+)\s*\|(?<orig_line>.*)\n\s*\|(?<pos_ind>\s*\^~*)\s*$|^\n*too many errors; aborting\.\n*$";

/// What `pioasm` says when it gives up; also the message reported for it.
pub const TOO_MANY_ERRORS: &'static str = "too many errors; aborting.";

/// The part of [`TOO_MANY_ERRORS`] that a match without a row must hold.
pub const TOO_MANY_ERRORS_NOTE: &'static str = "too many errors";

/// The number of a message that could not be read.
#[derive(Clone, Copy, Debug, PartialEq, Eq)]
pub enum NumberField {
    Row,
    ColStart,
    ColEnd,
}

/// Why the output of `pioasm` could not be read.
#[derive(Clone, Copy, Debug, PartialEq, Eq)]
pub enum DiagnosticsError {
    /// the pattern for the messages does not compile
    Pattern,
    /// a match without a row that is not the note that `pioasm` gave up
    NoRow,
    /// a message without a start column
    NoColStart,
    /// a message without its text
    NoMsg,
    /// a number of a message could not be read
    Number(NumberField, IntErrorKind),
}

/// One message of `pioasm`: its text and where it applies (`None` for the
/// note that it gave up).
pub struct PioDiagnostic {
    pub message: String,
    pub range: Option<Range>,
}

/// A message of `pioasm` as plain values.
pub struct DiagSt {
    pub message: Seq<char>,
    pub range: Option<Range>,
}

impl PioDiagnostic {
    pub open spec fn st(&self) -> DiagSt {
        DiagSt { message: self.message@, range: self.range }
    }
}

pub open spec fn diags_st(v: Seq<PioDiagnostic>) -> Seq<DiagSt> {
    v.map_values(|d: PioDiagnostic| d.st())
}

/// The span of group `i` of a match, if it took part.
pub open spec fn group(c: Seq<Option<(usize, usize)>>, i: int) -> Option<(usize, usize)> {
    if 0 <= i < c.len() {
        c[i]
    } else {
        None
    }
}

pub open spec fn span_bytes(s: Seq<u8>, g: (usize, usize)) -> Seq<u8> {
    s.subrange(g.0 as int, g.1 as int)
}

/// The number in the span `g`.
pub open spec fn number_at(s: Seq<u8>, g: (usize, usize), field: NumberField) -> Result<u32, DiagnosticsError> {
    match parse_u32_of(span_bytes(s, g)) {
        Ok(v) => Ok(v),
        Err(k) => Err(DiagnosticsError::Number(field, k)),
    }
}

/// `n - 1`, or 0 for 0.
pub open spec fn dec_sat(n: u32) -> u32 {
    if n > 0 {
        (n - 1) as u32
    } else {
        0
    }
}

/// The message that a match `c` of [`DIAGNOSTICS_PATTERN`] in `s` stands
/// for: rows and columns start at 1 in `pioasm`'s output and at 0 in the
/// result, columns are moved back to character boundaries of `s`, and a
/// message without an end column ends where it starts.
pub open spec fn diagnostic_of(s: Seq<u8>, c: Seq<Option<(usize, usize)>>) -> Result<DiagSt, DiagnosticsError> {
    match group(c, 1) {
        None => if contains_bytes(span_bytes(s, c[0]->0), TOO_MANY_ERRORS_NOTE.spec_bytes()) {
            Ok(DiagSt { message: TOO_MANY_ERRORS@, range: None })
        } else {
            Err(DiagnosticsError::NoRow)
        },
        Some(rg) => match number_at(s, rg, NumberField::Row) {
            Err(e) => Err(e),
            Ok(row) => match group(c, 2) {
                None => Err(DiagnosticsError::NoColStart),
                Some(cg) => match number_at(s, cg, NumberField::ColStart) {
                    Err(e) => Err(e),
                    Ok(cs) => {
                        let col_start = floor_boundary_clamped(s, dec_sat(cs) as int) as u32;
                        let col_end = match group(c, 3) {
                            None => Ok(col_start),
                            Some(eg) => match number_at(s, eg, NumberField::ColEnd) {
                                Err(e) => Err(e),
                                Ok(ce) => Ok(floor_boundary_clamped(s, ce as int) as u32),
                            },
                        };
                        match col_end {
                            Err(e) => Err(e),
                            Ok(ce) => match group(c, 4) {
                                None => Err(DiagnosticsError::NoMsg),
                                Some(mg) => Ok(
                                    DiagSt {
                                        message: decode_utf8(span_bytes(s, mg)),
                                        range: Some(
                                            Range {
                                                start: Position { line: dec_sat(row), character: col_start },
                                                end: Position { line: dec_sat(row), character: ce },
                                            },
                                        ),
                                    },
                                ),
                            },
                        }
                    },
                },
            },
        },
    }
}

/// The messages of the first `k` matches, or the error of the first that
/// could not be read.
pub open spec fn diagnostics_upto(s: Seq<u8>, caps: Seq<Seq<Option<(usize, usize)>>>, k: int) -> Result<
    Seq<DiagSt>,
    DiagnosticsError,
>
    decreases k,
{
    if k <= 0 {
        Ok(Seq::empty())
    } else {
        match diagnostics_upto(s, caps, k - 1) {
            Err(e) => Err(e),
            Ok(ds) => match diagnostic_of(s, caps[k - 1]) {
                Err(e) => Err(e),
                Ok(d) => Ok(ds.push(d)),
            },
        }
    }
}

/// Once a match could not be read, the later ones keep that error.
proof fn lemma_diagnostics_error_stays(s: Seq<u8>, caps: Seq<Seq<Option<(usize, usize)>>>, i: int, k: int)
    requires
        i <= k,
        diagnostics_upto(s, caps, i) is Err,
    ensures
        diagnostics_upto(s, caps, k) == diagnostics_upto(s, caps, i),
    decreases k - i,
{
    if k > i {
        lemma_diagnostics_error_stays(s, caps, i, k - 1);
    }
}

pub open spec fn diag_result(r: Result<PioDiagnostic, DiagnosticsError>) -> Result<DiagSt, DiagnosticsError> {
    match r {
        Ok(d) => Ok(d.st()),
        Err(e) => Err(e),
    }
}

pub open spec fn diags_result(r: Result<Vec<PioDiagnostic>, DiagnosticsError>) -> Result<
    Seq<DiagSt>,
    DiagnosticsError,
> {
    match r {
        Ok(v) => Ok(diags_st(v@)),
        Err(e) => Err(e),
    }
}

/// The bytes of the span `g` of `s`.
fn span<'a>(s: &'a str, g: (usize, usize)) -> (r: &'a str)
    requires
        span_ok(s.spec_bytes(), Some(g)),
    ensures
        r.spec_bytes() == span_bytes(s.spec_bytes(), g),
        r@ == decode_utf8(span_bytes(s.spec_bytes(), g)),
{
    let r = substr(s, g.0, g.1);
    proof {
        encode_utf8_decode_utf8(r@);
    }
    r
}

/// The number in the span `g` of `s`.
fn number_in(s: &str, g: (usize, usize), field: NumberField) -> (r: Result<u32, DiagnosticsError>)
    requires
        span_ok(s.spec_bytes(), Some(g)),
    ensures
        r == number_at(s.spec_bytes(), g, field),
{
    match parse_u32(span(s, g).as_bytes()) {
        Ok(v) => Ok(v),
        Err(k) => Err(DiagnosticsError::Number(field, k)),
    }
}

/// The group `i` of the match `c`.
fn group_at(c: &Vec<Option<(usize, usize)>>, i: usize) -> (r: Option<(usize, usize)>)
    ensures
        r == group(c@, i as int),
{
    if i < c.len() {
        c[i]
    } else {
        None
    }
}

/// The message that the match `c` of [`DIAGNOSTICS_PATTERN`] in `stderr`
/// stands for.
fn diagnostic_at(stderr: &str, c: &Vec<Option<(usize, usize)>>) -> (r: Result<PioDiagnostic, DiagnosticsError>)
    requires
        c@.len() >= 1,
        c@[0] is Some,
        forall|j: int| 0 <= j < c@.len() ==> span_ok(stderr.spec_bytes(), #[trigger] c@[j]),
    ensures
        diag_result(r) == diagnostic_of(stderr.spec_bytes(), c@),
{
    let ghost s = stderr.spec_bytes();
    let row = match group_at(c, 1) {
        None => {
            let whole = c[0].unwrap();
            if bytes_contain(span(stderr, whole).as_bytes(), TOO_MANY_ERRORS_NOTE.as_bytes()) {
                return Ok(PioDiagnostic { message: TOO_MANY_ERRORS.to_owned(), range: None });
            }
            return Err(DiagnosticsError::NoRow);
        },
        Some(rg) => {
            assert(span_ok(s, c@[1]));
            match number_in(stderr, rg, NumberField::Row) {
                Ok(v) => v,
                Err(e) => return Err(e),
            }
        },
    };
    let row = row.saturating_sub(1);
    let cs = match group_at(c, 2) {
        None => return Err(DiagnosticsError::NoColStart),
        Some(cg) => {
            assert(span_ok(s, c@[2]));
            match number_in(stderr, cg, NumberField::ColStart) {
                Ok(v) => v,
                Err(e) => return Err(e),
            }
        },
    };
    let col_start = floor_boundary_of(stderr, cs.saturating_sub(1) as usize) as u32;
    let col_end = match group_at(c, 3) {
        None => col_start,
        Some(eg) => {
            assert(span_ok(s, c@[3]));
            match number_in(stderr, eg, NumberField::ColEnd) {
                Ok(ce) => floor_boundary_of(stderr, ce as usize) as u32,
                Err(e) => return Err(e),
            }
        },
    };
    match group_at(c, 4) {
        None => Err(DiagnosticsError::NoMsg),
        Some(mg) => {
            assert(span_ok(s, c@[4]));
            let msg = span(stderr, mg);
            Ok(
                PioDiagnostic {
                    message: msg.to_owned(),
                    range: Some(
                        Range {
                            start: Position { line: row, character: col_start },
                            end: Position { line: row, character: col_end },
                        },
                    ),
                },
            )
        },
    }
}

/// The messages that the matches `caps` of [`DIAGNOSTICS_PATTERN`] in
/// `stderr` stand for, in order, or the error of the first match that could
/// not be read.
pub fn diagnostics_from_captures(stderr: &str, caps: &Vec<Vec<Option<(usize, usize)>>>) -> (r: Result<
    Vec<PioDiagnostic>,
    DiagnosticsError,
>)
    requires
        captures_ok(stderr.spec_bytes(), caps_view(caps@)),
    ensures
        diags_result(r) == diagnostics_upto(stderr.spec_bytes(), caps_view(caps@), caps@.len() as int),
{
    let ghost s = stderr.spec_bytes();
    let ghost cv = caps_view(caps@);
    let mut out: Vec<PioDiagnostic> = Vec::new();
    assert(diags_st(out@) =~= Seq::<DiagSt>::empty());
    let mut i: usize = 0;
    while i < caps.len()
        invariant
            i <= caps@.len(),
            s == stderr.spec_bytes(),
            cv == caps_view(caps@),
            captures_ok(s, cv),
            diagnostics_upto(s, cv, i as int) == Ok::<Seq<DiagSt>, DiagnosticsError>(diags_st(out@)),
        decreases caps@.len() - i,
    {
        let c = &caps[i];
        assert(cv[i as int] == c@);
        assert forall|j: int| 0 <= j < c@.len() implies span_ok(s, #[trigger] c@[j]) by {
            assert(c@[j] == cv[i as int][j]);
        }
        let ghost before = out@;
        match diagnostic_at(stderr, c) {
            Ok(d) => {
                let ghost ds = d.st();
                out.push(d);
                assert(diags_st(out@) =~= diags_st(before).push(ds));
            },
            Err(e) => {
                proof {
                    lemma_diagnostics_error_stays(s, cv, i + 1, caps@.len() as int);
                }
                return Err(e);
            },
        }
        i = i + 1;
    }
    Ok(out)
}

/// The messages of `pioasm` in its error output `stderr`, in order, or the
/// error of the first that could not be read.
pub fn parse_pioasm_diagnostics(stderr: &str) -> (r: Result<Vec<PioDiagnostic>, DiagnosticsError>)
    ensures
        regex_captures_of(DIAGNOSTICS_PATTERN@, stderr@) is None ==> r == Err::<Vec<PioDiagnostic>, DiagnosticsError>(
            DiagnosticsError::Pattern,
        ),
        regex_captures_of(DIAGNOSTICS_PATTERN@, stderr@) matches Some(caps) ==> diags_result(r)
            == diagnostics_upto(stderr.spec_bytes(), caps, caps.len() as int),
{
    match regex_captures(DIAGNOSTICS_PATTERN, stderr) {
        Some(caps) => diagnostics_from_captures(stderr, &caps),
        None => Err(DiagnosticsError::Pattern),
    }
}

} // verus!

verus! {

impl IntErrorKind {
    /// How the error reads.
    pub open spec fn text(self) -> Seq<char> {
        match self {
            IntErrorKind::Empty => "cannot parse integer from empty string"@,
            IntErrorKind::InvalidDigit => "invalid digit found in string"@,
            IntErrorKind::PosOverflow => "number too large to fit in target type"@,
        }
    }

    /// How the error reads.
    pub fn description(&self) -> (r: &'static str)
        ensures
            r@ == self.text(),
    {
        match self {
            IntErrorKind::Empty => "cannot parse integer from empty string",
            IntErrorKind::InvalidDigit => "invalid digit found in string",
            IntErrorKind::PosOverflow => "number too large to fit in target type",
        }
    }
}

impl NumberField {
    /// The name of the number.
    pub open spec fn name(self) -> Seq<char> {
        match self {
            NumberField::Row => "row"@,
            NumberField::ColStart => "col_start"@,
            NumberField::ColEnd => "col_end"@,
        }
    }
}

impl DiagnosticsError {
    /// How the error reads.
    pub open spec fn text(self) -> Seq<char> {
        match self {
            DiagnosticsError::Pattern => "the pattern for pioasm's messages does not compile"@,
            DiagnosticsError::NoRow => "no row"@,
            DiagnosticsError::NoColStart => "no col start"@,
            DiagnosticsError::NoMsg => "no msg"@,
            DiagnosticsError::Number(f, k) => "failed to parse "@ + f.name() + ": "@ + k.text(),
        }
    }

    /// How the error reads.
    pub fn message(&self) -> (r: String)
        ensures
            r@ == self.text(),
    {
        match self {
            DiagnosticsError::Pattern => "the pattern for pioasm's messages does not compile".to_owned(),
            DiagnosticsError::NoRow => "no row".to_owned(),
            DiagnosticsError::NoColStart => "no col start".to_owned(),
            DiagnosticsError::NoMsg => "no msg".to_owned(),
            DiagnosticsError::Number(f, k) => {
                let mut m = String::from_str("failed to parse ");
                let name = match f {
                    NumberField::Row => "row",
                    NumberField::ColStart => "col_start",
                    NumberField::ColEnd => "col_end",
                };
                m.append(name);
                m.append(": ");
                m.append(k.description());
                m
            },
        }
    }
}

} // verus!

verus! {

/// Reading one more character after the digits of `s`.
proof fn lemma_digits_from_push(s: Seq<u8>, d: u8, i: int, acc: int)
    requires
        0 <= i <= s.len(),
        0 <= acc <= u32::MAX,
    ensures
        digits_from(s.push(d), i, acc) == match digits_from(s, i, acc) {
            Ok(v) => if !is_digit(d) {
                Err(IntErrorKind::InvalidDigit)
            } else if v * 10 + (d - 48) > u32::MAX {
                Err(IntErrorKind::PosOverflow)
            } else {
                Ok((v * 10 + (d - 48)) as u32)
            },
            Err(e) => Err(e),
        },
    decreases s.len() - i,
{
    let t = s.push(d);
    if i == s.len() {
        assert(t[i] == d);
        if is_digit(d) && acc * 10 + (d - 48) <= u32::MAX {
            assert(digits_from(t, i + 1, acc * 10 + (d - 48)) == Ok::<u32, IntErrorKind>(
                (acc * 10 + (d - 48)) as u32,
            ));
        }
    } else {
        assert(t[i] == s[i]);
        if is_digit(s[i]) && acc * 10 + (s[i] - 48) <= u32::MAX {
            lemma_digits_from_push(s, d, i + 1, acc * 10 + (s[i] - 48));
        }
    }
}

/// The decimal digits of a number start with a digit.
proof fn lemma_dec_digits_first(n: nat)
    ensures
        crate::text::dec_digits(n).len() > 0,
        is_digit(crate::text::dec_digits(n)[0]),
    decreases n,
{
    if n >= 10 {
        lemma_dec_digits_first(n / 10);
        assert(crate::text::dec_digits(n)[0] == crate::text::dec_digits(n / 10)[0]);
    }
}

/// Reading the decimal digits of a number (as the address hints print
/// them) gives the number back.
pub proof fn decimal_digits_read_back(n: u32)
    ensures
        parse_u32_of(crate::text::dec_digits(n as nat)) == Ok::<u32, IntErrorKind>(n),
    decreases n,
{
    lemma_dec_digits_first(n as nat);
    let s = crate::text::dec_digits(n as nat);
    if n < 10 {
        assert(s == seq![(48 + n) as u8]);
        assert(digits_from(s, 1, n as int) == Ok::<u32, IntErrorKind>(n));
    } else {
        let m = (n / 10) as u32;
        decimal_digits_read_back(m);
        lemma_dec_digits_first(m as nat);
        let p = crate::text::dec_digits(m as nat);
        assert(s == p.push((48 + n % 10) as u8));
        lemma_digits_from_push(p, (48 + n % 10) as u8, 0, 0);
    }
}

} // verus!

verus! {

/// The messages of `pioasm` in the bytes of its error output, read as UTF-8
/// with invalid sequences replaced (`pioasm` may echo single bytes of a
/// character it does not accept), or the error of the first that could not
/// be read.
pub fn read_pioasm_output(stderr: &[u8]) -> (r: Result<Vec<PioDiagnostic>, DiagnosticsError>)
    ensures
        regex_captures_of(DIAGNOSTICS_PATTERN@, crate::text::utf8_lossy(stderr@)) is None ==> r
            == Err::<Vec<PioDiagnostic>, DiagnosticsError>(DiagnosticsError::Pattern),
        regex_captures_of(DIAGNOSTICS_PATTERN@, crate::text::utf8_lossy(stderr@)) matches Some(caps)
            ==> diags_result(r) == diagnostics_upto(
            encode_utf8(crate::text::utf8_lossy(stderr@)),
            caps,
            caps.len() as int,
        ),
{
    let text = crate::text::string_from_utf8_lossy(stderr);
    parse_pioasm_diagnostics(text.as_str())
}

} // verus!
