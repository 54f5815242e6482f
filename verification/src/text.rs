//! Byte-level text helpers and the UTF-8 facts the formatter relies on.
use vstd::prelude::*;
use vstd::string::StringSliceAdditionalSpecFns;
use vstd::utf8::*;

verus! {

/// ASCII lower case of one byte; other bytes are kept.
pub open spec fn lower_byte(b: u8) -> u8 {
    if 65 <= b <= 90 { (b + 32) as u8 } else { b }
}

/// ASCII lower case of a byte sequence.
pub open spec fn lower_bytes(s: Seq<u8>) -> Seq<u8> {
    Seq::new(s.len(), |i: int| lower_byte(s[i]))
}

/// All bytes are ASCII.
pub open spec fn is_ascii_bytes(s: Seq<u8>) -> bool {
    forall|i: int| 0 <= i < s.len() ==> #[trigger] s[i] < 128
}

/// `n` spaces.
pub open spec fn spaces(n: nat) -> Seq<u8> {
    Seq::new(n, |i: int| 32u8)
}

/// The number of occurrences of `b` in `s`.
pub open spec fn count_byte(s: Seq<u8>, b: u8) -> nat
    decreases s.len(),
{
    if s.len() == 0 {
        0
    } else {
        count_byte(s.drop_last(), b) + if s.last() == b { 1nat } else { 0nat }
    }
}

/// A byte occurs at most as often as `s` is long.
pub proof fn lemma_count_byte_le(s: Seq<u8>, b: u8)
    ensures
        count_byte(s, b) <= s.len(),
    decreases s.len(),
{
    if s.len() > 0 {
        lemma_count_byte_le(s.drop_last(), b);
    }
}

/// A sequence of ASCII bytes is valid UTF-8.
pub proof fn lemma_ascii_valid_utf8(s: Seq<u8>)
    requires
        is_ascii_bytes(s),
    ensures
        valid_utf8(s),
    decreases s.len(),
{
    if s.len() != 0 {
        let b = s[0];
        assert(b < 128);
        assert((b & 0x7F) as u32 == b as u32) by (bit_vector)
            requires
                b < 128,
        ;
        let rest = pop_first_scalar(s);
        assert(rest =~= s.subrange(1, s.len() as int));
        lemma_ascii_valid_utf8(rest);
    }
}

/// ASCII lower casing keeps a byte sequence valid UTF-8.
pub proof fn lemma_lower_valid_utf8(s: Seq<u8>)
    requires
        valid_utf8(s),
    ensures
        valid_utf8(lower_bytes(s)),
    decreases s.len(),
{
    let l = lower_bytes(s);
    if s.len() != 0 {
        let k = length_of_first_scalar(s);
        let b = s[0];
        if b < 128 {
            let c = l[0];
            assert(c < 128);
            assert((c & 0x7F) as u32 == c as u32) by (bit_vector)
                requires
                    c < 128,
            ;
        } else {
            assert(l[0] == s[0]);
            assert forall|j: int| 0 <= j < k implies l[j] == s[j] by {
                if j > 0 {
                    assert(is_continuation_byte(s[j]));
                }
            }
        }
        let rest = pop_first_scalar(s);
        lemma_lower_valid_utf8(rest);
        assert(pop_first_scalar(l) =~= lower_bytes(rest));
    }
}

/// A range of a valid UTF-8 sequence between two character boundaries is
/// valid UTF-8.
pub proof fn lemma_subrange_valid_utf8(s: Seq<u8>, a: int, b: int)
    requires
        valid_utf8(s),
        0 <= a <= b <= s.len(),
        is_char_boundary(s, a),
        is_char_boundary(s, b),
    ensures
        valid_utf8(s.subrange(a, b)),
{
    valid_utf8_split(s, b);
    let p = s.subrange(0, b);
    assert(is_char_boundary(p, a)) by {
        lemma_boundary_prefix(s, b, a);
    }
    valid_utf8_split(p, a);
    assert(p.subrange(a, p.len() as int) =~= s.subrange(a, b));
}

/// A character boundary below a boundary `b` stays a boundary of the prefix
/// that ends at `b`.
pub proof fn lemma_boundary_prefix(s: Seq<u8>, b: int, a: int)
    requires
        valid_utf8(s),
        0 <= a <= b <= s.len(),
        is_char_boundary(s, a),
        is_char_boundary(s, b),
    ensures
        valid_utf8(s.subrange(0, b)),
        is_char_boundary(s.subrange(0, b), a),
    decreases s.len(),
{
    valid_utf8_split(s, b);
    if a == 0 {
    } else {
        let k = length_of_first_scalar(s);
        let rest = pop_first_scalar(s);
        let p = s.subrange(0, b);
        reveal_with_fuel(is_char_boundary, 2);
        assert(a >= k) by {
            reveal_with_fuel(is_char_boundary, 2);
        }
        assert(b >= k);
        lemma_boundary_prefix(rest, b - k, a - k);
        assert(p[0] == s[0]);
        assert forall|j: int| 0 <= j < k implies p[j] == s[j] by {}
        assert(pop_first_scalar(p) =~= rest.subrange(0, b - k));
    }
}

/// Appends `src[start..end]` to `out`, lower cased when `lower` is set.
pub fn push_range(out: &mut Vec<u8>, src: &[u8], start: usize, end: usize, lower: bool)
    requires
        start <= end <= src@.len(),
    ensures
        final(out)@ == old(out)@ + (if lower {
            lower_bytes(src@.subrange(start as int, end as int))
        } else {
            src@.subrange(start as int, end as int)
        }),
{
    let ghost o = out@;
    let mut i = start;
    while i < end
        invariant
            start <= i <= end <= src@.len(),
            out@ == o + (if lower {
                lower_bytes(src@.subrange(start as int, i as int))
            } else {
                src@.subrange(start as int, i as int)
            }),
        decreases end - i,
    {
        let b = src[i];
        let c = if lower && 65 <= b && b <= 90 { b + 32 } else { b };
        out.push(c);
        i = i + 1;
        proof {
            if lower {
                assert(lower_bytes(src@.subrange(start as int, i as int)) =~= lower_bytes(
                    src@.subrange(start as int, (i - 1) as int),
                ).push(c));
            } else {
                assert(src@.subrange(start as int, i as int) =~= src@.subrange(
                    start as int,
                    (i - 1) as int,
                ).push(c));
            }
        }
    }
}

/// Appends `n` spaces to `out`.
pub fn push_spaces(out: &mut Vec<u8>, n: usize)
    ensures
        final(out)@ == old(out)@ + spaces(n as nat),
{
    let ghost o = out@;
    let mut i: usize = 0;
    while i < n
        invariant
            i <= n,
            out@ == o + spaces(i as nat),
        decreases n - i,
    {
        out.push(32u8);
        i = i + 1;
        assert(spaces(i as nat) =~= spaces((i - 1) as nat).push(32u8));
    }
}

/// Appends all of `s` to `out`.
pub fn push_all(out: &mut Vec<u8>, s: &[u8])
    ensures
        final(out)@ == old(out)@ + s@,
{
    let ghost o = out@;
    let mut i: usize = 0;
    while i < s.len()
        invariant
            i <= s@.len(),
            out@ == o + s@.subrange(0, i as int),
        decreases s@.len() - i,
    {
        out.push(s[i]);
        i = i + 1;
        assert(s@.subrange(0, i as int) =~= s@.subrange(0, (i - 1) as int).push(s@[i - 1]));
    }
    assert(s@.subrange(0, s@.len() as int) =~= s@);
}

/// Byte-wise equality of two slices.
pub fn bytes_eq(a: &[u8], b: &[u8]) -> (r: bool)
    ensures
        r == (a@ == b@),
{
    if a.len() != b.len() {
        return false;
    }
    let mut i: usize = 0;
    while i < a.len()
        invariant
            i <= a@.len() == b@.len(),
            forall|j: int| 0 <= j < i ==> a@[j] == b@[j],
        decreases a@.len() - i,
    {
        if a[i] != b[i] {
            return false;
        }
        i = i + 1;
    }
    assert(a@ =~= b@);
    true
}

/// Whether `s[a..b]` holds the bytes `o`.
pub fn range_eq(s: &[u8], a: usize, b: usize, o: &[u8]) -> (r: bool)
    requires
        a <= b <= s@.len(),
    ensures
        r == (s@.subrange(a as int, b as int) == o@),
{
    if b - a != o.len() {
        return false;
    }
    let mut i: usize = 0;
    while i < o.len()
        invariant
            a <= b <= s@.len(),
            b - a == o@.len(),
            i <= o@.len(),
            forall|j: int| 0 <= j < i ==> s@[a + j] == o@[j],
        decreases o@.len() - i,
    {
        if s[a + i] != o[i] {
            assert(s@.subrange(a as int, b as int)[i as int] != o@[i as int]);
            return false;
        }
        i = i + 1;
    }
    assert(s@.subrange(a as int, b as int) =~= o@);
    true
}

/// Equality of two strings.
pub fn str_eq(a: &str, b: &str) -> (r: bool)
    ensures
        r == (a@ == b@),
{
    let r = bytes_eq(a.as_bytes(), b.as_bytes());
    proof {
        encode_utf8_decode_utf8(a@);
        encode_utf8_decode_utf8(b@);
    }
    r
}

/// Whether `s` starts with `prefix`.
pub fn bytes_starts_with(s: &[u8], prefix: &[u8]) -> (r: bool)
    ensures
        r == (prefix@.len() <= s@.len() && s@.subrange(0, prefix@.len() as int) == prefix@),
{
    if prefix.len() > s.len() {
        return false;
    }
    let mut i: usize = 0;
    while i < prefix.len()
        invariant
            i <= prefix@.len() <= s@.len(),
            forall|j: int| 0 <= j < i ==> s@[j] == prefix@[j],
        decreases prefix@.len() - i,
    {
        if s[i] != prefix[i] {
            assert(s@.subrange(0, prefix@.len() as int)[i as int] != prefix@[i as int]);
            return false;
        }
        i = i + 1;
    }
    assert(s@.subrange(0, prefix@.len() as int) =~= prefix@);
    true
}

/// Whether the string `s` starts with the string `prefix`.
pub fn str_starts_with(s: &str, prefix: &str) -> (r: bool)
    ensures
        r == (prefix.spec_bytes().len() <= s.spec_bytes().len() && s.spec_bytes().subrange(
            0,
            prefix.spec_bytes().len() as int,
        ) == prefix.spec_bytes()),
{
    bytes_starts_with(s.as_bytes(), prefix.as_bytes())
}

} // verus!

verus! {

/// Calls `memchr::memchr_iter(needle, haystack)` and counts the positions it
/// yields, which the crate documents as every occurrence of `needle` in
/// `haystack`.
#[verifier::external_body]
pub(crate) fn count_occurrences(needle: u8, haystack: &[u8]) -> (r: usize)
    ensures
        r == count_byte(haystack@, needle),
{
    memchr::memchr_iter(needle, haystack).count()
}

} // verus!

verus! {

/// Calls `String::from_utf8`, which std documents to succeed exactly on
/// valid UTF-8 and then to hold those bytes.
#[verifier::external_body]
pub(crate) fn string_from_utf8(v: Vec<u8>) -> (r: Option<String>)
    ensures
        r is Some <==> valid_utf8(v@),
        r matches Some(s) ==> s@ == decode_utf8(v@),
{
    String::from_utf8(v).ok()
}

/// The decimal digits of `n`.
pub open spec fn dec_digits(n: nat) -> Seq<u8>
    decreases n,
{
    if n < 10 {
        seq![(48 + n) as u8]
    } else {
        dec_digits(n / 10) + seq![(48 + n % 10) as u8]
    }
}

/// The decimal digits of `n`, at least two of them.
pub open spec fn dec_digits2(n: nat) -> Seq<u8> {
    if n < 10 { seq![48u8] + dec_digits(n) } else { dec_digits(n) }
}

pub proof fn lemma_dec_digits_ascii(n: nat)
    ensures
        is_ascii_bytes(dec_digits(n)),
        is_ascii_bytes(dec_digits2(n)),
    decreases n,
{
    if n >= 10 {
        lemma_dec_digits_ascii(n / 10);
    }
}

/// Appends the decimal digits of `n` (at least `min2` + 1 of them).
pub fn push_decimal(out: &mut Vec<u8>, n: u8, two: bool)
    ensures
        final(out)@ == old(out)@ + if two { dec_digits2(n as nat) } else { dec_digits(n as nat) },
{
    let ghost o = out@;
    proof {
        reveal_with_fuel(dec_digits, 3);
    }
    if n >= 100 {
        out.push(48 + n / 100);
        out.push(48 + (n / 10) % 10);
        out.push(48 + n % 10);
        assert(dec_digits(n as nat) =~= seq![(48 + n / 100) as u8, (48 + (n / 10) % 10) as u8, (48 + n % 10) as u8]);
    } else if n >= 10 {
        out.push(48 + n / 10);
        out.push(48 + n % 10);
        assert(dec_digits(n as nat) =~= seq![(48 + n / 10) as u8, (48 + n % 10) as u8]);
    } else {
        if two {
            out.push(48u8);
        }
        out.push(48 + n);
    }
    assert(out@ =~= o + if two { dec_digits2(n as nat) } else { dec_digits(n as nat) });
}

/// The string of the valid UTF-8 bytes `v`.
pub fn utf8_string(v: Vec<u8>) -> (r: String)
    requires
        valid_utf8(v@),
    ensures
        r@ == decode_utf8(v@),
{
    match string_from_utf8(v) {
        Some(s) => s,
        None => {
            assert(false);
            String::new()
        },
    }
}

} // verus!

verus! {

/// The part of `s` between the byte offsets `a` and `b`, both character
/// boundaries.
pub fn substr(s: &str, a: usize, b: usize) -> (r: &str)
    requires
        a <= b <= s.spec_bytes().len(),
        is_char_boundary(s.spec_bytes(), a as int),
        is_char_boundary(s.spec_bytes(), b as int),
    ensures
        r.spec_bytes() == s.spec_bytes().subrange(a as int, b as int),
{
    proof {
        encode_utf8_valid_utf8(s@);
        lemma_boundary_prefix(s.spec_bytes(), b as int, a as int);
    }
    let (pre, _) = s.split_at(b);
    assert(pre.spec_bytes() == s.spec_bytes().subrange(0, b as int));
    let (_, mid) = pre.split_at(a);
    assert(mid.spec_bytes() =~= s.spec_bytes().subrange(a as int, b as int));
    mid
}

} // verus!

verus! {

/// The Unicode upper-case mapping of a string, as `str::to_uppercase` gives it.
pub uninterp spec fn uppercase(s: Seq<char>) -> Seq<char>;

/// The Unicode lower-case mapping of a string, as `str::to_lowercase` gives it.
pub uninterp spec fn lowercase(s: Seq<char>) -> Seq<char>;

/// Calls `str::to_uppercase`, which std documents to return the upper-case
/// equivalent of the string as a new `String`; the result is named
/// `uppercase` of the string and nothing more is claimed of it.
#[verifier::external_body]
pub(crate) fn to_uppercase(s: &str) -> (r: String)
    ensures
        r@ == uppercase(s@),
{
    s.to_uppercase()
}

/// Calls `str::to_lowercase`, which std documents to return the lower-case
/// equivalent of the string as a new `String`; the result is named
/// `lowercase` of the string and nothing more is claimed of it.
#[verifier::external_body]
pub(crate) fn to_lowercase(s: &str) -> (r: String)
    ensures
        r@ == lowercase(s@),
{
    s.to_lowercase()
}

} // verus!

verus! {

/// The text that `String::from_utf8_lossy` makes of bytes.
pub uninterp spec fn utf8_lossy(v: Seq<u8>) -> Seq<char>;

/// Calls `String::from_utf8_lossy`, which std documents to replace each
/// invalid sequence by U+FFFD and to give valid UTF-8 back as it is; the
/// result is named `utf8_lossy` of the bytes.
#[verifier::external_body]
pub(crate) fn string_from_utf8_lossy(v: &[u8]) -> (r: String)
    ensures
        r@ == utf8_lossy(v@),
        valid_utf8(v@) ==> r@ == decode_utf8(v@),
{
    String::from_utf8_lossy(v).into_owned()
}

} // verus!
