//! Changes of a document's text as an editor sends them: LSP positions to
//! byte offsets, applying the changes, and the edits that keep an old syntax
//! tree in step with the new text.
use vstd::prelude::*;
use vstd::string::StringSliceAdditionalSpecFns;
use vstd::utf8::{decode_utf8, encode_utf8, is_char_boundary, valid_utf8};
use crate::lsp::{lsp_pos_to_ts, lsp_to_point, Position, Range};
use crate::text::{count_byte, count_occurrences, push_all, push_range, string_from_utf8};
use crate::tree::Point;

verus! {

/// The position of the first newline in `s` at or after `i`.
pub open spec fn next_newline(s: Seq<u8>, i: int) -> Option<int>
    decreases s.len() - i,
{
    if i < 0 || i >= s.len() {
        None
    } else if s[i] == 10u8 {
        Some(i)
    } else {
        next_newline(s, i + 1)
    }
}

/// Where the line `l` lines below the line that starts at `i` starts: just
/// past the `l`-th newline from `i` on.
pub open spec fn line_begin_from(s: Seq<u8>, l: nat, i: int) -> Option<int>
    decreases l,
{
    if l == 0 {
        Some(i)
    } else {
        match next_newline(s, i) {
            Some(j) => line_begin_from(s, (l - 1) as nat, j + 1),
            None => None,
        }
    }
}

/// Where line `l` of `s` starts, if `s` has that many newlines.
pub open spec fn line_begin(s: Seq<u8>, l: nat) -> Option<int> {
    line_begin_from(s, l, 0)
}

/// `s` has a line `l`: some text starts there (the lines are the pieces of
/// `s` split after each newline).
pub open spec fn has_line(s: Seq<u8>, l: nat) -> bool {
    line_begin(s, l) matches Some(b) && b < s.len()
}

/// Line `l` is the one just past the last line of `s`.
pub open spec fn is_end_line(s: Seq<u8>, l: nat) -> bool {
    !has_line(s, l) && (l == 0 || has_line(s, (l - 1) as nat))
}

/// `a + b`, or `usize::MAX` when that does not fit.
pub open spec fn sat_add(a: int, b: int) -> usize {
    if a + b <= usize::MAX {
        (a + b) as usize
    } else {
        usize::MAX
    }
}

/// The byte offset of an LSP position (UTF-8 columns): on a line of the text
/// its start plus the column; at the start of the line past the last one
/// the end of the text; else none.
pub open spec fn position_offset(s: Seq<u8>, p: Position) -> Option<usize> {
    if has_line(s, p.line as nat) {
        Some(sat_add(line_begin(s, p.line as nat)->0, p.character as int))
    } else if is_end_line(s, p.line as nat) && p.character == 0 {
        Some(s.len() as usize)
    } else {
        None
    }
}

/// An offset cut down to `len`; none stands for past the end.
pub open spec fn clamp(o: Option<usize>, len: int) -> usize {
    match o {
        Some(x) => if x <= len { x } else { len as usize },
        None => len as usize,
    }
}

/// The byte offsets of an LSP range: those of its ends where both have one,
/// else each cut down to the end of the text.
pub open spec fn range_offsets(s: Seq<u8>, r: Range) -> (usize, usize) {
    match (position_offset(s, r.start), position_offset(s, r.end)) {
        (Some(a), Some(b)) => (a, b),
        (a, b) => (clamp(a, s.len() as int), clamp(b, s.len() as int)),
    }
}

/// The position of the first newline in `s` at or after `i`.
fn find_newline(s: &[u8], i: usize) -> (r: Option<usize>)
    requires
        i <= s@.len(),
    ensures
        r matches Some(j) ==> next_newline(s@, i as int) == Some(j as int) && i <= j < s@.len(),
        r is None ==> next_newline(s@, i as int) is None,
{
    let mut j = i;
    while j < s.len()
        invariant
            i <= j <= s@.len(),
            next_newline(s@, i as int) == next_newline(s@, j as int),
        decreases s@.len() - j,
    {
        if s[j] == 10u8 {
            return Some(j);
        }
        j = j + 1;
    }
    None
}

/// Where line `l` of `s` starts.
fn line_start(s: &[u8], l: u32) -> (r: Option<usize>)
    ensures
        r matches Some(b) ==> line_begin(s@, l as nat) == Some(b as int) && b <= s@.len(),
        r is None ==> line_begin(s@, l as nat) is None,
{
    let n = s.len();
    let mut i: usize = 0;
    let mut k: u32 = 0;
    while k < l
        invariant
            n == s@.len(),
            k <= l,
            i <= s@.len(),
            line_begin(s@, l as nat) == line_begin_from(s@, (l - k) as nat, i as int),
        decreases l - k,
    {
        match find_newline(s, i) {
            Some(j) => {
                assert(j < n);
                i = j + 1;
                k = k + 1;
            },
            None => {
                return None;
            },
        }
    }
    Some(i)
}

/// The byte offset of an LSP position in `s`.
fn position_to_offset(s: &[u8], p: Position) -> (r: Option<usize>)
    ensures
        r == position_offset(s@, p),
{
    if let Some(b) = line_start(s, p.line) {
        if b < s.len() {
            return Some(b.saturating_add(p.character as usize));
        }
    }
    if p.character == 0 {
        let prev = if p.line == 0 {
            true
        } else {
            match line_start(s, p.line - 1) {
                Some(b) => b < s.len(),
                None => false,
            }
        };
        if prev {
            return Some(s.len());
        }
    }
    None
}

/// The byte offsets of an LSP range (UTF-8 columns) in `document`; a
/// position past the end of the document is taken as its end.
pub fn range_to_offset(document: &str, range: Range) -> (r: std::ops::Range<usize>)
    ensures
        (r.start, r.end) == range_offsets(document.spec_bytes(), range),
{
    let s = document.as_bytes();
    let a = position_to_offset(s, range.start);
    let b = position_to_offset(s, range.end);
    match (a, b) {
        (Some(a), Some(b)) => a..b,
        _ => {
            let n = s.len();
            let a = match a {
                Some(x) => if x <= n { x } else { n },
                None => n,
            };
            let b = match b {
                Some(x) => if x <= n { x } else { n },
                None => n,
            };
            a..b
        },
    }
}

} // verus!

verus! {

/// The position of the last newline in `s`.
pub open spec fn last_newline(s: Seq<u8>) -> Option<int>
    decreases s.len(),
{
    if s.len() == 0 {
        None
    } else if s.last() == 10u8 {
        Some(s.len() - 1)
    } else {
        last_newline(s.drop_last())
    }
}

/// Where the text ends that is inserted at `start`: on the same row when it
/// holds no newline, else on the row one further per newline, after the
/// bytes of its last line.
pub open spec fn point_after(start: Point, inserted: Seq<u8>) -> Point {
    let n = count_byte(inserted, 10u8);
    if n == 0 {
        Point { row: start.row, column: sat_add(start.column as int, inserted.len() as int) }
    } else {
        Point {
            row: sat_add(start.row as int, n as int),
            column: (inserted.len() - 1 - last_newline(inserted)->0) as usize,
        }
    }
}

/// A text without newlines counts none of them, and one with a last newline
/// counts at least one.
proof fn lemma_count_newlines(s: Seq<u8>)
    ensures
        (count_byte(s, 10u8) == 0) == (last_newline(s) is None),
        last_newline(s) matches Some(k) ==> 0 <= k < s.len(),
    decreases s.len(),
{
    if s.len() > 0 {
        lemma_count_newlines(s.drop_last());
    }
}

/// The point where `inserted` ends when it is inserted at `start`.
pub fn point_after_insert(start: Point, inserted: &str) -> (r: Point)
    ensures
        r == point_after(start, inserted.spec_bytes()),
{
    let s = inserted.as_bytes();
    let newline_count = count_occurrences(10u8, s);
    proof {
        lemma_count_newlines(s@);
    }
    if newline_count == 0 {
        Point { row: start.row, column: start.column.saturating_add(s.len()) }
    } else {
        let mut i = s.len();
        assert(s@.subrange(0, i as int) =~= s@);
        while i > 0 && s[i - 1] != 10u8
            invariant
                i <= s@.len(),
                last_newline(s@) == last_newline(s@.subrange(0, i as int)),
            decreases i,
        {
            assert(s@.subrange(0, i as int).drop_last() =~= s@.subrange(0, i - 1));
            i = i - 1;
        }
        if i == 0 {
            assert(s@.subrange(0, 0) =~= Seq::<u8>::empty());
        }
        Point { row: start.row.saturating_add(newline_count), column: s.len() - i }
    }
}

} // verus!

verus! {

/// One change of a document's text, as an editor sends it.
pub enum ContentChange {
    /// replace the text in `range` by `text`
    Partial { range: Range, text: String },
    /// replace the whole text by `text`
    Whole { text: String },
}

/// An edit of the text in bytes and in rows and columns, as tree-sitter
/// takes it to keep an old tree in step with the new text.
#[derive(Clone, Copy, Debug, PartialEq, Eq)]
pub struct TextEdit {
    pub start_byte: usize,
    pub old_end_byte: usize,
    pub new_end_byte: usize,
    pub start_position: Point,
    pub old_end_position: Point,
    pub new_end_position: Point,
}

/// The text after one change.
pub open spec fn apply_change(s: Seq<u8>, c: ContentChange) -> Seq<u8> {
    match c {
        ContentChange::Partial { range, text } => {
            let (a, b) = range_offsets(s, range);
            s.subrange(0, a as int) + encode_utf8(text@) + s.subrange(b as int, s.len() as int)
        },
        ContentChange::Whole { text } => encode_utf8(text@),
    }
}

/// The change can be made: its range is in order and falls on character
/// boundaries of the text.
pub open spec fn change_ok(s: Seq<u8>, c: ContentChange) -> bool {
    match c {
        ContentChange::Partial { range, text } => {
            let (a, b) = range_offsets(s, range);
            &&& a <= b <= s.len()
            &&& is_char_boundary(s, a as int)
            &&& is_char_boundary(s, b as int)
        },
        ContentChange::Whole { text } => true,
    }
}

/// The text after the first `k` changes of `cs`.
pub open spec fn applied_upto(s: Seq<u8>, cs: Seq<ContentChange>, k: int) -> Seq<u8>
    decreases k,
{
    if k <= 0 {
        s
    } else {
        apply_change(applied_upto(s, cs, k - 1), cs[k - 1])
    }
}

/// Every change of `cs` can be made to the text as the changes before it
/// left it.
pub open spec fn changes_ok(s: Seq<u8>, cs: Seq<ContentChange>) -> bool {
    forall|k: int| 0 <= k < cs.len() ==> change_ok(#[trigger] applied_upto(s, cs, k), cs[k])
}

/// The tree edit of a change of the range `range` to `text` in `s`.
pub open spec fn edit_of(s: Seq<u8>, range: Range, text: Seq<u8>) -> TextEdit {
    let (a, b) = range_offsets(s, range);
    TextEdit {
        start_byte: a,
        old_end_byte: b,
        new_end_byte: (a + text.len()) as usize,
        start_position: lsp_to_point(range.start),
        old_end_position: lsp_to_point(range.end),
        new_end_position: point_after(lsp_to_point(range.start), text),
    }
}

/// The tree edits of the first `k` changes: none once the whole text was
/// replaced.
pub open spec fn edits_upto(s: Seq<u8>, cs: Seq<ContentChange>, k: int) -> Option<Seq<TextEdit>>
    decreases k,
{
    if k <= 0 {
        Some(Seq::empty())
    } else {
        match cs[k - 1] {
            ContentChange::Partial { range, text } => match edits_upto(s, cs, k - 1) {
                Some(es) => Some(es.push(edit_of(applied_upto(s, cs, k - 1), range, encode_utf8(text@)))),
                None => None,
            },
            ContentChange::Whole { text } => None,
        }
    }
}

/// `doc[..a] + text + doc[b..]`.
fn replace_range(doc: &str, a: usize, b: usize, text: &str) -> (r: String)
    requires
        a <= b <= doc.spec_bytes().len(),
        is_char_boundary(doc.spec_bytes(), a as int),
        is_char_boundary(doc.spec_bytes(), b as int),
    ensures
        encode_utf8(r@) == doc.spec_bytes().subrange(0, a as int) + text.spec_bytes()
            + doc.spec_bytes().subrange(b as int, doc.spec_bytes().len() as int),
{
    let s = doc.as_bytes();
    let t = text.as_bytes();
    let mut v: Vec<u8> = Vec::new();
    push_range(&mut v, s, 0, a, false);
    push_all(&mut v, t);
    push_range(&mut v, s, b, s.len(), false);
    proof {
        vstd::utf8::encode_utf8_valid_utf8(doc@);
        vstd::utf8::encode_utf8_valid_utf8(text@);
        let sb = s@;
        vstd::utf8::valid_utf8_split(sb, a as int);
        vstd::utf8::valid_utf8_split(sb, b as int);
        vstd::utf8::valid_utf8_concat(sb.subrange(0, a as int), t@);
        vstd::utf8::valid_utf8_concat(sb.subrange(0, a as int) + t@, sb.subrange(b as int, sb.len() as int));
        assert(v@ =~= sb.subrange(0, a as int) + t@ + sb.subrange(b as int, sb.len() as int));
    }
    match string_from_utf8(v) {
        Some(r) => {
            proof {
                vstd::utf8::decode_utf8_encode_utf8(s@.subrange(0, a as int) + t@ + s@.subrange(
                    b as int,
                    s@.len() as int,
                ));
            }
            r
        },
        None => {
            assert(false);
            String::new()
        },
    }
}

/// Applies `changes` to `doc` one after the other and gives the edits that
/// bring a syntax tree of the old text in step with the new one, or `None`
/// when a change replaced the whole text.
pub fn apply_doc_changes(doc: &mut String, changes: Vec<ContentChange>) -> (r: Option<Vec<TextEdit>>)
    requires
        changes_ok(encode_utf8(old(doc)@), changes@),
    ensures
        encode_utf8(final(doc)@) == applied_upto(encode_utf8(old(doc)@), changes@, changes@.len() as int),
        r matches Some(es) ==> edits_upto(encode_utf8(old(doc)@), changes@, changes@.len() as int)
            == Some(es@),
        r is None ==> edits_upto(encode_utf8(old(doc)@), changes@, changes@.len() as int) is None,
{
    let ghost s0 = encode_utf8(doc@);
    let mut tree_edits: Option<Vec<TextEdit>> = Some(Vec::new());
    let mut i: usize = 0;
    while i < changes.len()
        invariant
            i <= changes@.len(),
            changes_ok(s0, changes@),
            encode_utf8(doc@) == applied_upto(s0, changes@, i as int),
            tree_edits matches Some(es) ==> edits_upto(s0, changes@, i as int) == Some(es@),
            tree_edits is None ==> edits_upto(s0, changes@, i as int) is None,
        decreases changes@.len() - i,
    {
        let ghost cur = encode_utf8(doc@);
        assert(change_ok(applied_upto(s0, changes@, i as int), changes@[i as int]));
        match &changes[i] {
            ContentChange::Partial { range, text } => {
                let r = range_to_offset(doc.as_str(), *range);
                let new_doc = replace_range(doc.as_str(), r.start, r.end, text.as_str());
                *doc = new_doc;
                let total = doc.as_str().as_bytes().len();
                let tlen = text.as_str().as_bytes().len();
                assert(r.start + tlen <= total);
                tree_edits = match tree_edits {
                    Some(mut es) => {
                        let start = lsp_pos_to_ts(range.start);
                        es.push(
                            TextEdit {
                                start_byte: r.start,
                                old_end_byte: r.end,
                                new_end_byte: r.start + tlen,
                                start_position: start,
                                old_end_position: lsp_pos_to_ts(range.end),
                                new_end_position: point_after_insert(start, text.as_str()),
                            },
                        );
                        Some(es)
                    },
                    None => None,
                };
            },
            ContentChange::Whole { text } => {
                *doc = text.clone();
                tree_edits = None;
            },
        }
        i = i + 1;
    }
    tree_edits
}

} // verus!

verus! {

/// Whether every change of `changes` can be made to `doc` as the changes
/// before it leave it (see [`apply_doc_changes`]).
pub fn changes_fit(doc: &str, changes: &Vec<ContentChange>) -> (r: bool)
    ensures
        r == changes_ok(doc.spec_bytes(), changes@),
{
    let ghost s0 = doc.spec_bytes();
    let mut cur: String = doc.to_owned();
    let mut i: usize = 0;
    while i < changes.len()
        invariant
            i <= changes@.len(),
            s0 == doc.spec_bytes(),
            encode_utf8(cur@) == applied_upto(s0, changes@, i as int),
            forall|k: int| 0 <= k < i ==> change_ok(#[trigger] applied_upto(s0, changes@, k), changes@[k]),
        decreases changes@.len() - i,
    {
        match &changes[i] {
            ContentChange::Partial { range, text } => {
                let r = range_to_offset(cur.as_str(), *range);
                let n = cur.as_str().as_bytes().len();
                if !(r.start <= r.end && r.end <= n && cur.as_str().is_char_boundary(r.start)
                    && cur.as_str().is_char_boundary(r.end)) {
                    assert(!change_ok(applied_upto(s0, changes@, i as int), changes@[i as int]));
                    return false;
                }
                cur = replace_range(cur.as_str(), r.start, r.end, text.as_str());
            },
            ContentChange::Whole { text } => {
                cur = text.clone();
            },
        }
        i = i + 1;
    }
    true
}

/// The tree `t` after the edits `es`, one after the other.
pub open spec fn edits_applied(t: tree_sitter::Tree, es: Seq<TextEdit>) -> tree_sitter::Tree
    decreases es.len(),
{
    if es.len() == 0 {
        t
    } else {
        let e = es.last();
        crate::ts::tree_after_edit(
            edits_applied(t, es.drop_last()),
            crate::ts::input_edit_of(
                e.start_byte,
                e.old_end_byte,
                e.new_end_byte,
                e.start_position,
                e.old_end_position,
                e.new_end_position,
            ),
        )
    }
}

/// Brings a copy of `tree` in step with the text after `edits`.
pub fn edited_tree(tree: &tree_sitter::Tree, edits: &Vec<TextEdit>) -> (r: tree_sitter::Tree)
    ensures
        r == edits_applied(*tree, edits@),
{
    let mut t = crate::ts::tree_clone(tree);
    let mut i: usize = 0;
    while i < edits.len()
        invariant
            i <= edits@.len(),
            t == edits_applied(*tree, edits@.subrange(0, i as int)),
        decreases edits@.len() - i,
    {
        let e = edits[i];
        let edit = crate::ts::input_edit(
            e.start_byte,
            e.old_end_byte,
            e.new_end_byte,
            e.start_position,
            e.old_end_position,
            e.new_end_position,
        );
        crate::ts::tree_edit(&mut t, &edit);
        assert(edits@.subrange(0, i + 1).drop_last() =~= edits@.subrange(0, i as int));
        i = i + 1;
    }
    assert(edits@.subrange(0, edits@.len() as int) =~= edits@);
    t
}

impl crate::lsp::DocumentData {
    /// Applies an editor's changes to the document and analyzes it again,
    /// reparsing incrementally from the old tree, brought in step with the
    /// changes, unless a change replaced the whole text; `false`, with the
    /// document unchanged, when the parser gives no tree, which a ready
    /// parser does not.
    pub fn apply_changes(&mut self, parser: &mut tree_sitter::Parser, changes: Vec<ContentChange>) -> (r: bool)
        requires
            changes_ok(old(self).bytes(), changes@),
        ensures
            crate::ts::parser_ready(*old(parser)) ==> r,
            r ==> final(self).wf() && final(self).bytes() == applied_upto(
                old(self).bytes(),
                changes@,
                changes@.len() as int,
            ),
            r && crate::ts::parser_idle(*old(parser)) ==> final(self).tree == crate::ts::parse_of(
                *old(parser),
                applied_upto(old(self).bytes(), changes@, changes@.len() as int),
                match edits_upto(old(self).bytes(), changes@, changes@.len() as int) {
                    Some(es) => Some(edits_applied(old(self).tree, es)),
                    None => None,
                },
            ),
            !r ==> *final(self) == *old(self),
            crate::ts::parser_kept(*old(parser), *final(parser)),
    {
        let mut text = self.text.clone();
        let edits = apply_doc_changes(&mut text, changes);
        let old_tree = match edits {
            Some(es) => Some(edited_tree(&self.tree, &es)),
            None => None,
        };
        self.update(parser, text, old_tree.as_ref())
    }
}

} // verus!

verus! {

/// The number of bytes of `s` after its last newline (all of them when it
/// has none): the column just past its last byte.
pub open spec fn last_line_len(s: Seq<u8>) -> nat {
    match last_newline(s) {
        Some(k) => (s.len() - 1 - k) as nat,
        None => s.len(),
    }
}

/// The range that covers all of a text: from its start to just past its
/// last byte, on the line after its last newline.
pub open spec fn full_range_of(s: Seq<u8>) -> Range {
    Range {
        start: Position { line: 0, character: 0 },
        end: Position { line: count_byte(s, 10u8) as u32, character: last_line_len(s) as u32 },
    }
}

/// The range that covers all of `text`.
pub fn full_range(text: &str) -> (r: Range)
    ensures
        r == full_range_of(text.spec_bytes()),
{
    let s = text.as_bytes();
    let n = s.len();
    let newlines = count_occurrences(10u8, s);
    let mut i = n;
    assert(s@.subrange(0, n as int) =~= s@);
    while i > 0 && s[i - 1] != 10u8
        invariant
            i <= n == s@.len(),
            last_newline(s@) == last_newline(s@.subrange(0, i as int)),
        decreases i,
    {
        assert(s@.subrange(0, i as int).drop_last() =~= s@.subrange(0, i - 1));
        i = i - 1;
    }
    if i == 0 {
        assert(s@.subrange(0, 0) =~= Seq::<u8>::empty());
    }
    Range {
        start: Position { line: 0, character: 0 },
        end: Position {
            line: #[verifier::truncate] (newlines as u32),
            character: #[verifier::truncate] ((n - i) as u32),
        },
    }
}

} // verus!

verus! {

/// The newline that `next_newline` finds comes first from `i` on; when it
/// finds none there is none.
proof fn lemma_next_newline_facts(s: Seq<u8>, i: int)
    requires
        0 <= i,
    ensures
        next_newline(s, i) matches Some(j) ==> i <= j < s.len() && s[j] == 10u8 && forall|x: int|
            i <= x < j ==> s[x] != 10u8,
        next_newline(s, i) is None ==> forall|x: int| i <= x < s.len() ==> s[x] != 10u8,
    decreases s.len() - i,
{
    if i < s.len() && s[i] != 10u8 {
        lemma_next_newline_facts(s, i + 1);
    }
}

/// Two texts that agree before `a` have the same next newline where the
/// first one has it before `a`.
proof fn lemma_next_newline_same(s: Seq<u8>, n: Seq<u8>, i: int, a: int)
    requires
        0 <= i,
        a <= s.len(),
        a <= n.len(),
        forall|x: int| 0 <= x < a ==> n[x] == s[x],
        next_newline(s, i) matches Some(j) && j < a,
    ensures
        next_newline(n, i) == next_newline(s, i),
    decreases a - i,
{
    lemma_next_newline_facts(s, i);
    if s[i] != 10u8 {
        lemma_next_newline_same(s, n, i + 1, a);
    }
}

/// A line starts at or after where the search starts.
proof fn lemma_line_begin_ge(s: Seq<u8>, l: nat, i: int)
    ensures
        line_begin_from(s, l, i) matches Some(c) ==> c >= i,
    decreases l,
{
    if l > 0 && i >= 0 {
        lemma_next_newline_facts(s, i);
        if let Some(j) = next_newline(s, i) {
            lemma_line_begin_ge(s, (l - 1) as nat, j + 1);
        }
    }
}

/// Two texts that agree before `a` have the same line starts up to `a`.
proof fn lemma_line_begin_same(s: Seq<u8>, n: Seq<u8>, l: nat, i: int, a: int)
    requires
        0 <= i,
        a <= s.len(),
        a <= n.len(),
        forall|x: int| 0 <= x < a ==> n[x] == s[x],
        line_begin_from(s, l, i) matches Some(c) && c <= a,
    ensures
        line_begin_from(n, l, i) == line_begin_from(s, l, i),
    decreases l,
{
    if l > 0 {
        let j = next_newline(s, i)->0;
        lemma_next_newline_facts(s, i);
        lemma_line_begin_ge(s, (l - 1) as nat, j + 1);
        lemma_next_newline_same(s, n, i, a);
        lemma_line_begin_same(s, n, (l - 1) as nat, j + 1, a);
    }
}

/// Counting `l1 + l2` lines is counting `l1` lines, then `l2` more.
proof fn lemma_line_begin_split(s: Seq<u8>, l1: nat, l2: nat, i: int)
    ensures
        line_begin_from(s, l1 + l2, i) == match line_begin_from(s, l1, i) {
            Some(c) => line_begin_from(s, l2, c),
            None => None,
        },
    decreases l1,
{
    if l1 > 0 {
        if let Some(j) = next_newline(s, i) {
            lemma_line_begin_split(s, (l1 - 1) as nat, l2, j + 1);
            assert((l1 + l2 - 1) as nat == (l1 - 1) as nat + l2);
        }
    }
}

/// The search for a newline passes over bytes that are none.
proof fn lemma_next_newline_skip(n: Seq<u8>, i: int, a: int)
    requires
        0 <= i <= a <= n.len(),
        forall|x: int| i <= x < a ==> n[x] != 10u8,
    ensures
        next_newline(n, i) == next_newline(n, a),
    decreases a - i,
{
    if i < a {
        lemma_next_newline_skip(n, i + 1, a);
    }
}

/// A newline of `t` is found at its place in a text that holds `t` at `a`.
proof fn lemma_next_newline_shift(n: Seq<u8>, t: Seq<u8>, a: int, i: int)
    requires
        0 <= a,
        0 <= i <= t.len(),
        a + t.len() <= n.len(),
        forall|x: int| 0 <= x < t.len() ==> n[a + x] == t[x],
        next_newline(t, i) is Some,
    ensures
        next_newline(n, a + i) == Some(a + next_newline(t, i)->0),
    decreases t.len() - i,
{
    assert(n[a + i] == t[i]);
    if t[i] != 10u8 {
        lemma_next_newline_shift(n, t, a, i + 1);
    }
}

/// Counting bytes of a concatenation.
proof fn lemma_count_concat(u: Seq<u8>, v: Seq<u8>, b: u8)
    ensures
        count_byte(u + v, b) == count_byte(u, b) + count_byte(v, b),
    decreases v.len(),
{
    if v.len() == 0 {
        assert(u + v =~= u);
    } else {
        assert((u + v).drop_last() =~= u + v.drop_last());
        lemma_count_concat(u, v.drop_last(), b);
    }
}

/// A text without newlines counts none.
proof fn lemma_count_none(u: Seq<u8>)
    requires
        forall|x: int| 0 <= x < u.len() ==> u[x] != 10u8,
    ensures
        count_byte(u, 10u8) == 0,
    decreases u.len(),
{
    if u.len() > 0 {
        lemma_count_none(u.drop_last());
    }
}

/// A text that counts a newline holds one.
proof fn lemma_count_some(u: Seq<u8>)
    requires
        count_byte(u, 10u8) > 0,
    ensures
        exists|x: int| 0 <= x < u.len() && u[x] == 10u8,
    decreases u.len(),
{
    if u.last() != 10u8 {
        lemma_count_some(u.drop_last());
        let x = choose|x: int| 0 <= x < u.drop_last().len() && u.drop_last()[x] == 10u8;
        assert(u[x] == 10u8);
    } else {
        assert(u[u.len() - 1] == 10u8);
    }
}

/// The last newline of `t` is one after which none follows.
proof fn lemma_last_newline_at(t: Seq<u8>, f: int)
    requires
        0 <= f < t.len(),
        t[f] == 10u8,
        forall|x: int| f < x < t.len() ==> t[x] != 10u8,
    ensures
        last_newline(t) == Some(f),
    decreases t.len(),
{
    if t.len() - 1 != f {
        lemma_last_newline_at(t.drop_last(), f);
    }
}

/// From position `i` of `t`, placed at `a` in `n`, counting the newlines of
/// the rest of `t` reaches the line just past the last newline of `t`.
proof fn lemma_lines_through(n: Seq<u8>, t: Seq<u8>, a: int, i: int)
    requires
        0 <= a,
        0 <= i <= t.len(),
        a + t.len() <= n.len(),
        forall|x: int| 0 <= x < t.len() ==> n[a + x] == t[x],
        count_byte(t.subrange(i, t.len() as int), 10u8) >= 1,
    ensures
        last_newline(t) is Some,
        line_begin_from(n, count_byte(t.subrange(i, t.len() as int), 10u8), a + i) == Some(
            a + last_newline(t)->0 + 1,
        ),
    decreases t.len() - i,
{
    let u = t.subrange(i, t.len() as int);
    lemma_count_some(u);
    lemma_next_newline_facts(t, i);
    if next_newline(t, i) is None {
        let x = choose|x: int| 0 <= x < u.len() && u[x] == 10u8;
        assert(t[i + x] == 10u8);
    }
    let f = next_newline(t, i)->0;
    lemma_next_newline_shift(n, t, a, i);
    let head = t.subrange(i, f);
    let rest = t.subrange(f + 1, t.len() as int);
    assert(u =~= head + seq![10u8] + rest);
    lemma_count_none(head);
    lemma_count_concat(head, seq![10u8], 10u8);
    lemma_count_concat(head + seq![10u8], rest, 10u8);
    assert(count_byte(seq![10u8], 10u8) == 1) by {
        assert(seq![10u8].drop_last() =~= Seq::<u8>::empty());
        assert(count_byte(Seq::<u8>::empty(), 10u8) == 0);
        assert(seq![10u8].last() == 10u8);
    }
    let k2 = count_byte(rest, 10u8);
    assert(count_byte(u, 10u8) == k2 + 1);
    if k2 == 0 {
        lemma_count_newlines(rest);
        lemma_last_newline_none(rest);
        assert forall|x: int| f < x < t.len() implies t[x] != 10u8 by {
            assert(t[x] == rest[x - f - 1]);
        }
        lemma_last_newline_at(t, f);
        assert(line_begin_from(n, 0, f + 1 + a) == Some(a + f + 1));
    } else {
        lemma_lines_through(n, t, a, f + 1);
        assert(line_begin_from(n, k2 + 1, a + i) == line_begin_from(n, k2, a + f + 1));
    }
}

/// The last newline of a concatenation: the last one of its second part,
/// else the last one of its first.
proof fn lemma_last_newline_concat(u: Seq<u8>, v: Seq<u8>)
    ensures
        last_newline(u + v) == match last_newline(v) {
            Some(k) => Some(u.len() + k),
            None => last_newline(u),
        },
    decreases v.len(),
{
    if v.len() == 0 {
        assert(u + v =~= u);
    } else {
        assert((u + v).last() == v.last());
        assert((u + v).drop_last() =~= u + v.drop_last());
        lemma_last_newline_concat(u, v.drop_last());
    }
}

/// Inserting `a` and then `b` where `a` ended ends where inserting `a`
/// followed by `b` at once ends, and inserting nothing ends where it starts
/// (on inputs where no row or column runs past `usize::MAX`).
pub proof fn point_after_concat(p: Point, a: Seq<u8>, b: Seq<u8>)
    requires
        a.len() + b.len() <= usize::MAX,
        p.row + count_byte(a + b, 10u8) <= usize::MAX,
        count_byte(a + b, 10u8) == 0 ==> p.column + a.len() + b.len() <= usize::MAX,
    ensures
        point_after(point_after(p, a), b) == point_after(p, a + b),
        point_after(p, Seq::empty()) == p,
{
    lemma_count_concat(a, b, 10u8);
    lemma_last_newline_concat(a, b);
    lemma_count_newlines(a);
    lemma_count_newlines(b);
    lemma_count_newlines(a + b);
    assert(count_byte(Seq::<u8>::empty(), 10u8) == 0);
}

/// A text whose last newline is none has no newline.
proof fn lemma_last_newline_none(u: Seq<u8>)
    requires
        last_newline(u) is None,
    ensures
        forall|x: int| 0 <= x < u.len() ==> u[x] != 10u8,
    decreases u.len(),
{
    if u.len() > 0 {
        lemma_last_newline_none(u.drop_last());
        assert forall|x: int| 0 <= x < u.len() implies u[x] != 10u8 by {
            if x < u.len() - 1 {
                assert(u[x] == u.drop_last()[x]);
            }
        }
    }
}

/// Where an edit says that the inserted text ends is where it ends: when
/// `t` replaces the bytes `a..e` of `s`, and `a` is on line `start.row` at
/// column `start.column`, the point `point_after(start, t)` (the edit's new
/// end position) is, in the new text, at the start of its line plus its
/// column, the byte `a + t.len()` (the edit's new end byte).
pub proof fn edit_end_is_end_of_insertion(s: Seq<u8>, start: Point, b: int, a: int, e: int, t: Seq<u8>)
    requires
        line_begin(s, start.row as nat) == Some(b),
        a == b + start.column,
        a <= e <= s.len(),
        forall|x: int| b <= x < a ==> s[x] != 10u8,
        start.row + count_byte(t, 10u8) <= usize::MAX,
        start.column + t.len() <= usize::MAX,
    ensures
        ({
            let n = s.subrange(0, a) + t + s.subrange(e, s.len() as int);
            let p = point_after(start, t);
            line_begin(n, p.row as nat) matches Some(c) && c + p.column == a + t.len()
        }),
{
    let n = s.subrange(0, a) + t + s.subrange(e, s.len() as int);
    let p = point_after(start, t);
    lemma_line_begin_ge(s, start.row as nat, 0);
    assert forall|x: int| 0 <= x < a implies n[x] == s[x] by {}
    assert forall|x: int| 0 <= x < t.len() implies n[a + x] == t[x] by {}
    lemma_line_begin_same(s, n, start.row as nat, 0, a);
    let k = count_byte(t, 10u8);
    if k > 0 {
        lemma_line_begin_split(n, start.row as nat, k, 0);
        assert(p.row as nat == start.row as nat + k);
        assert forall|x: int| b <= x < a implies n[x] != 10u8 by {}
        lemma_next_newline_skip(n, b, a);
        assert(line_begin_from(n, k, b) == line_begin_from(n, k, a));
        assert(t.subrange(0, t.len() as int) =~= t);
        lemma_lines_through(n, t, a, 0);
        lemma_count_newlines(t);
    }
}

} // verus!

verus! {

/// The range that covers all of a text spans every byte of it: its offsets
/// are the start and the end of the text (where its line and column fit in
/// an LSP position).
pub proof fn full_range_covers_text(s: Seq<u8>)
    requires
        s.len() <= usize::MAX,
        count_byte(s, 10u8) <= u32::MAX,
        last_line_len(s) <= u32::MAX,
    ensures
        range_offsets(s, full_range_of(s)) == (0usize, s.len() as usize),
{
    let r = full_range_of(s);
    lemma_count_newlines(s);
    assert(position_offset(s, r.start) == Some(0usize)) by {
        if s.len() == 0 {
            assert(is_end_line(s, 0));
        }
    }
    let k = count_byte(s, 10u8);
    assert(r.end.line as nat == k);
    if k == 0 {
        assert(last_newline(s) is None);
        if s.len() == 0 {
            assert(is_end_line(s, 0));
        }
    } else {
        assert(s.subrange(0, s.len() as int) =~= s);
        assert forall|x: int| 0 <= x < s.len() implies #[trigger] s[0 + x] == s[x] by {}
        lemma_lines_through(s, s, 0, 0);
        let last = last_newline(s)->0;
        assert(line_begin(s, k) == Some(last + 1));
        if last + 1 == s.len() {
            lemma_line_begin_split(s, (k - 1) as nat, 1, 0);
            assert(((k - 1) as nat + 1) as nat == k);
            let c = line_begin(s, (k - 1) as nat)->0;
            lemma_line_begin_ge(s, (k - 1) as nat, 0);
            lemma_next_newline_facts(s, c);
            assert(has_line(s, (k - 1) as nat));
            assert(is_end_line(s, k));
            assert(r.end.character == 0);
        } else {
            assert(has_line(s, k));
            assert(r.end.character as int == s.len() - 1 - last);
        }
    }
    assert(position_offset(s, r.end) == Some(s.len() as usize));
}

} // verus!
