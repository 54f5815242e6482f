//! The PIO source formatter: a walk over the syntax tree emits layout tokens,
//! and `finish` lays the tokens out as aligned text lines.
use vstd::prelude::*;
use crate::text::{count_byte, lower_bytes, spaces, str_eq};
use crate::tree::SyntaxTree;
use vstd::string::StringSliceAdditionalSpecFns;

verus! {

/// A layout instruction produced by the tree walk.
#[derive(Clone, Copy, Debug, PartialEq, Eq)]
pub enum OutputToken {
    /// the source bytes `start..end`, lower cased when `lower` is set
    Leaf { start: usize, end: usize, lower: bool },
    InstructionStart,
    NewLine(usize),
    Space,
    Comma,
    Tab,
    Indent(usize),
    ResetIndent,
    SideStart,
    SideEnd,
    DelayStart,
    DelayEnd,
    /// an end of line comment, by node index
    LineComment(usize),
    /// an inline comment, by node index
    BlockComment(usize),
}

/// The abstract state of one output line.
pub struct LineSt {
    pub text: Seq<u8>,
    pub side: Option<Seq<u8>>,
    pub delay: Option<Seq<u8>>,
    pub line_comment: Option<usize>,
    pub reading_side: bool,
    pub reading_delay: bool,
    pub is_instruction: bool,
}

/// The abstract state of the line builder in `finish`.
pub struct FinSt {
    pub indent: usize,
    pub lines: Seq<LineSt>,
    pub cur: Option<LineSt>,
}

pub open spec fn empty_line() -> LineSt {
    LineSt {
        text: Seq::empty(),
        side: None,
        delay: None,
        line_comment: None,
        reading_side: false,
        reading_delay: false,
        is_instruction: false,
    }
}

pub open spec fn cur_line(c: Option<LineSt>) -> LineSt {
    match c {
        Some(l) => l,
        None => empty_line(),
    }
}

pub open spec fn opt_bytes(o: Option<Seq<u8>>) -> Seq<u8> {
    match o {
        Some(s) => s,
        None => Seq::empty(),
    }
}

/// Text goes to the side-set part, the delay part or the main text,
/// depending on what the line is reading.
pub open spec fn line_push_text(l: LineSt, s: Seq<u8>) -> LineSt {
    if l.reading_side {
        LineSt { side: Some(opt_bytes(l.side) + s), ..l }
    } else if l.reading_delay {
        LineSt { delay: Some(opt_bytes(l.delay) + s), ..l }
    } else {
        LineSt { text: l.text + s, ..l }
    }
}

/// A space unless the part being read already ends with one.
pub open spec fn with_space(s: Seq<u8>) -> Seq<u8> {
    if s.len() > 0 && s.last() == 32u8 { s } else { s.push(32u8) }
}

pub open spec fn line_push_space(l: LineSt) -> LineSt {
    if l.reading_side {
        LineSt { side: Some(with_space(opt_bytes(l.side))), ..l }
    } else if l.reading_delay {
        LineSt { delay: Some(with_space(opt_bytes(l.delay))), ..l }
    } else {
        LineSt { text: with_space(l.text), ..l }
    }
}

pub open spec fn tab_bytes() -> Seq<u8> {
    spaces(4)
}

pub open spec fn comma_bytes() -> Seq<u8> {
    seq![44u8, 32u8]
}

pub open spec fn side_bytes() -> Seq<u8> {
    seq![115u8, 105u8, 100u8, 101u8, 32u8]
}

pub open spec fn leaf_bytes(src: Seq<u8>, start: usize, end: usize, lower: bool) -> Seq<u8> {
    if lower {
        lower_bytes(src.subrange(start as int, end as int))
    } else {
        src.subrange(start as int, end as int)
    }
}

pub open spec fn node_text(t: SyntaxTree, src: Seq<u8>, n: int) -> Seq<u8> {
    src.subrange(t.nodes@[n].start_byte as int, t.nodes@[n].end_byte as int)
}

/// One token applied to the line builder.
pub open spec fn fin_step(t: SyntaxTree, src: Seq<u8>, st: FinSt, tok: OutputToken) -> FinSt {
    let c = cur_line(st.cur);
    match tok {
        OutputToken::Leaf { start, end, lower } => FinSt {
            cur: Some(line_push_text(c, leaf_bytes(src, start, end, lower))),
            ..st
        },
        OutputToken::InstructionStart => FinSt {
            cur: Some(LineSt { is_instruction: true, ..c }),
            ..st
        },
        OutputToken::NewLine(_) => FinSt {
            indent: st.indent,
            lines: st.lines.push(c),
            cur: Some(LineSt { text: spaces(4 * st.indent as nat), ..empty_line() }),
        },
        OutputToken::Space => FinSt { cur: Some(line_push_space(c)), ..st },
        OutputToken::Comma => FinSt { cur: Some(line_push_text(c, comma_bytes())), ..st },
        OutputToken::Tab => FinSt { cur: Some(line_push_text(c, tab_bytes())), ..st },
        OutputToken::Indent(i) => FinSt { indent: i, ..st },
        OutputToken::ResetIndent => FinSt { indent: 0, ..st },
        OutputToken::BlockComment(n) => FinSt {
            cur: Some(line_push_text(c, node_text(t, src, n as int))),
            ..st
        },
        OutputToken::LineComment(n) => FinSt {
            cur: Some(LineSt { line_comment: Some(n), ..c }),
            ..st
        },
        OutputToken::SideStart => FinSt {
            cur: Some(line_push_text(LineSt { reading_side: true, ..c }, side_bytes())),
            ..st
        },
        OutputToken::SideEnd => FinSt { cur: Some(LineSt { reading_side: false, ..c }), ..st },
        OutputToken::DelayStart => FinSt {
            cur: Some(LineSt { reading_delay: true, ..c }),
            ..st
        },
        OutputToken::DelayEnd => FinSt { cur: Some(LineSt { reading_delay: false, ..c }), ..st },
    }
}

/// The line builder after all tokens.
pub open spec fn fin_fold(t: SyntaxTree, src: Seq<u8>, toks: Seq<OutputToken>) -> FinSt
    decreases toks.len(),
{
    if toks.len() == 0 {
        FinSt { indent: 0, lines: Seq::empty(), cur: None }
    } else {
        fin_step(t, src, fin_fold(t, src, toks.drop_last()), toks.last())
    }
}

/// The line number of the last newline token, plus one (0 without one).
pub open spec fn next_line_number(toks: Seq<OutputToken>) -> usize
    decreases toks.len(),
{
    if toks.len() == 0 {
        0
    } else {
        match toks.last() {
            OutputToken::NewLine(l) => l.wrapping_add(1),
            _ => next_line_number(toks.drop_last()),
        }
    }
}

/// The tokens with a newline at the end.
pub open spec fn with_final_newline(toks: Seq<OutputToken>) -> Seq<OutputToken> {
    if toks.len() > 0 && toks.last() is NewLine {
        toks
    } else {
        toks.push(OutputToken::NewLine(next_line_number(toks)))
    }
}

pub open spec fn cap(x: int) -> usize {
    if x > usize::MAX { usize::MAX } else { x as usize }
}

pub open spec fn sat_add(a: int, b: int) -> usize {
    if a + b > usize::MAX { usize::MAX } else { (a + b) as usize }
}

/// The widest instruction text among the first `k` lines.
pub open spec fn max_instr_width(lines: Seq<LineSt>, k: int) -> usize
    decreases k,
{
    if k <= 0 {
        0
    } else {
        let m = max_instr_width(lines, k - 1);
        let l = lines[k - 1];
        if l.is_instruction && l.text.len() > m {
            cap(l.text.len() as int)
        } else {
            m
        }
    }
}

/// Appends the side-set part of an instruction line at column `col`.
pub open spec fn place_side(l: LineSt, col: usize) -> LineSt {
    if l.is_instruction && l.side is Some {
        LineSt {
            text: l.text + spaces(sat_add(col - l.text.len(), 1) as nat) + l.side->0,
            side: None,
            ..l
        }
    } else {
        l
    }
}

/// Appends the delay part of an instruction line at column `col`.
pub open spec fn place_delay(l: LineSt, col: usize) -> LineSt {
    if l.is_instruction && l.delay is Some {
        LineSt {
            text: l.text + spaces(sat_add(col - l.text.len(), 1) as nat) + l.delay->0,
            delay: None,
            ..l
        }
    } else {
        l
    }
}

/// The widest of `m` and the lines among the first `k` that `place_side`
/// extended.
pub open spec fn max_side_width(lines: Seq<LineSt>, m: usize, k: int) -> usize
    decreases k,
{
    if k <= 0 {
        m
    } else {
        let w = max_side_width(lines, m, k - 1);
        let l = lines[k - 1];
        let n = place_side(l, m);
        if l.is_instruction && l.side is Some && n.text.len() > w {
            cap(n.text.len() as int)
        } else {
            w
        }
    }
}

pub open spec fn max_delay_width(lines: Seq<LineSt>, m: usize, k: int) -> usize
    decreases k,
{
    if k <= 0 {
        m
    } else {
        let w = max_delay_width(lines, m, k - 1);
        let l = lines[k - 1];
        let n = place_delay(l, m);
        if l.is_instruction && l.delay is Some && n.text.len() > w {
            cap(n.text.len() as int)
        } else {
            w
        }
    }
}

/// Appends the end of line comment: after instructions, comments that start
/// with ';' are aligned one past `col`; other comments keep their column.
pub open spec fn place_comment(t: SyntaxTree, src: Seq<u8>, l: LineSt, col: usize) -> LineSt {
    match l.line_comment {
        None => l,
        Some(n) => {
            let ct = node_text(t, src, n as int);
            let target: int = if l.is_instruction && ct.len() > 0 && ct[0] == 59u8 {
                sat_add(col as int, 1) as int
            } else {
                t.nodes@[n as int].start_point.column as int
            };
            let pad: nat = if l.text.len() == 0 || target <= l.text.len() {
                0
            } else {
                (target - l.text.len()) as nat
            };
            LineSt { text: l.text + spaces(pad) + ct, line_comment: None, ..l }
        },
    }
}

pub open spec fn join_lines(lines: Seq<LineSt>) -> Seq<u8>
    decreases lines.len(),
{
    if lines.len() == 0 {
        Seq::empty()
    } else {
        join_lines(lines.drop_last()) + lines.last().text.push(10u8)
    }
}

/// The formatted text for a token stream.
pub open spec fn finish_spec(t: SyntaxTree, src: Seq<u8>, toks: Seq<OutputToken>) -> Seq<u8> {
    let lines0 = fin_fold(t, src, with_final_newline(toks)).lines;
    let m1 = sat_add(max_instr_width(lines0, lines0.len() as int) as int, 1);
    let lines1 = lines0.map_values(|l: LineSt| place_side(l, m1));
    let m2 = max_side_width(lines0, m1, lines0.len() as int);
    let lines2 = lines1.map_values(|l: LineSt| place_delay(l, m2));
    let m3 = max_delay_width(lines1, m2, lines1.len() as int);
    let lines3 = lines2.map_values(|l: LineSt| place_comment(t, src, l, m3));
    join_lines(lines3)
}

} // verus!

verus! {

/// The tokens only point into the text and the tree.
pub open spec fn tokens_ok(t: SyntaxTree, src: Seq<u8>, toks: Seq<OutputToken>) -> bool {
    forall|i: int| 0 <= i < toks.len() ==> match #[trigger] toks[i] {
        OutputToken::Leaf { start, end, lower } => start <= end <= src.len()
            && vstd::utf8::is_char_boundary(src, start as int)
            && vstd::utf8::is_char_boundary(src, end as int),
        OutputToken::LineComment(n) => n < t.len(),
        OutputToken::BlockComment(n) => n < t.len(),
        _ => true,
    }
}

/// One output line under construction.
pub struct OutputLine {
    pub text: Vec<u8>,
    pub side: Option<Vec<u8>>,
    pub delay: Option<Vec<u8>>,
    pub line_comment: Option<usize>,
    pub reading_side: bool,
    pub reading_delay: bool,
    pub is_instruction: bool,
}

pub open spec fn opt_vec_view(o: Option<Vec<u8>>) -> Option<Seq<u8>> {
    match o {
        Some(v) => Some(v@),
        None => None,
    }
}

impl OutputLine {
    pub open spec fn st(&self) -> LineSt {
        LineSt {
            text: self.text@,
            side: opt_vec_view(self.side),
            delay: opt_vec_view(self.delay),
            line_comment: self.line_comment,
            reading_side: self.reading_side,
            reading_delay: self.reading_delay,
            is_instruction: self.is_instruction,
        }
    }

    pub fn new() -> (r: OutputLine)
        ensures
            r.st() == empty_line(),
    {
        OutputLine {
            text: Vec::new(),
            side: None,
            delay: None,
            line_comment: None,
            reading_side: false,
            reading_delay: false,
            is_instruction: false,
        }
    }

    /// Appends `src[start..end]` (lower cased if `lower`) to the part being
    /// read.
    fn push_range(&mut self, src: &[u8], start: usize, end: usize, lower: bool)
        requires
            start <= end <= src@.len(),
        ensures
            final(self).st() == line_push_text(old(self).st(), leaf_bytes(src@, start, end, lower)),
    {
        if self.reading_side {
            let mut v = match self.side.take() {
                Some(v) => v,
                None => Vec::new(),
            };
            crate::text::push_range(&mut v, src, start, end, lower);
            self.side = Some(v);
        } else if self.reading_delay {
            let mut v = match self.delay.take() {
                Some(v) => v,
                None => Vec::new(),
            };
            crate::text::push_range(&mut v, src, start, end, lower);
            self.delay = Some(v);
        } else {
            crate::text::push_range(&mut self.text, src, start, end, lower);
        }
    }

    /// Appends `s` to the part being read.
    fn push_text(&mut self, s: &[u8])
        ensures
            final(self).st() == line_push_text(old(self).st(), s@),
    {
        if self.reading_side {
            let mut v = match self.side.take() {
                Some(v) => v,
                None => Vec::new(),
            };
            crate::text::push_all(&mut v, s);
            self.side = Some(v);
        } else if self.reading_delay {
            let mut v = match self.delay.take() {
                Some(v) => v,
                None => Vec::new(),
            };
            crate::text::push_all(&mut v, s);
            self.delay = Some(v);
        } else {
            crate::text::push_all(&mut self.text, s);
        }
    }

    /// Appends a space to the part being read unless it ends with one.
    fn push_space(&mut self)
        ensures
            final(self).st() == line_push_space(old(self).st()),
    {
        if self.reading_side {
            let mut v = match self.side.take() {
                Some(v) => v,
                None => Vec::new(),
            };
            if !(v.len() > 0 && v[v.len() - 1] == 32u8) {
                v.push(32u8);
            }
            self.side = Some(v);
        } else if self.reading_delay {
            let mut v = match self.delay.take() {
                Some(v) => v,
                None => Vec::new(),
            };
            if !(v.len() > 0 && v[v.len() - 1] == 32u8) {
                v.push(32u8);
            }
            self.delay = Some(v);
        } else {
            if !(self.text.len() > 0 && self.text[self.text.len() - 1] == 32u8) {
                self.text.push(32u8);
            }
        }
    }
}

pub open spec fn lines_st(lines: Seq<OutputLine>) -> Seq<LineSt> {
    lines.map_values(|l: OutputLine| l.st())
}

pub open spec fn cur_st(c: Option<OutputLine>) -> Option<LineSt> {
    match c {
        Some(l) => Some(l.st()),
        None => None,
    }
}

/// `with_final_newline`, computed.
fn append_final_newline(toks: &mut Vec<OutputToken>)
    ensures
        final(toks)@ == with_final_newline(old(toks)@),
{
    let n = toks.len();
    if n > 0 && matches!(toks[n - 1], OutputToken::NewLine(_)) {
        return;
    }
    assert(!(toks@.len() > 0 && toks@.last() is NewLine));
    // search backwards for the last newline
    let mut i = n;
    let mut line: usize = 0;
    let mut found = false;
    assert(toks@.subrange(0, n as int) =~= toks@);
    while i > 0 && !found
        invariant
            i <= n == toks@.len(),
            found ==> line == next_line_number(toks@),
            !found ==> line == 0,
            !found ==> next_line_number(toks@) == next_line_number(toks@.subrange(0, i as int)),
        decreases i + if found { 0int } else { 1int },
    {
        assert(toks@.subrange(0, i as int).drop_last() =~= toks@.subrange(0, i - 1));
        if let OutputToken::NewLine(l) = toks[i - 1] {
            line = l.wrapping_add(1);
            found = true;
        } else {
            i = i - 1;
        }
    }
    proof {
        if !found {
            assert(toks@.subrange(0, 0) =~= Seq::<OutputToken>::empty());
        }
    }
    toks.push(OutputToken::NewLine(line));
}

} // verus!

verus! {

/// Applies the tokens to the line builder, returning the finished lines.
fn build_lines(t: &SyntaxTree, src: &[u8], toks: &Vec<OutputToken>) -> (r: Vec<OutputLine>)
    requires
        t.wf_text(src@),
        tokens_ok(*t, src@, toks@),
    ensures
        lines_st(r@) == fin_fold(*t, src@, toks@).lines,
{
    let mut indent: usize = 0;
    let mut lines: Vec<OutputLine> = Vec::new();
    let mut cur: Option<OutputLine> = None;
    let mut i: usize = 0;
    assert(lines_st(lines@) =~= Seq::<LineSt>::empty());
    while i < toks.len()
        invariant
            i <= toks@.len(),
            t.wf_text(src@),
            tokens_ok(*t, src@, toks@),
            ({
                let f = fin_fold(*t, src@, toks@.subrange(0, i as int));
                &&& f.indent == indent
                &&& f.lines == lines_st(lines@)
                &&& f.cur == cur_st(cur)
            }),
        decreases toks@.len() - i,
    {
        assert(toks@.subrange(0, i + 1).drop_last() =~= toks@.subrange(0, i as int));
        let tok = toks[i];
        assert(tokens_ok(*t, src@, toks@) ==> match toks@[i as int] {
            OutputToken::Leaf { start, end, lower } => start <= end <= src@.len(),
            OutputToken::LineComment(n) => n < t.len(),
            OutputToken::BlockComment(n) => n < t.len(),
            _ => true,
        });
        if let OutputToken::Indent(ind) = tok {
            indent = ind;
            i = i + 1;
            continue;
        }
        if let OutputToken::ResetIndent = tok {
            indent = 0;
            i = i + 1;
            continue;
        }
        let mut c = match cur.take() {
            Some(c) => c,
            None => OutputLine::new(),
        };
        assert(c.st() == cur_line(fin_fold(*t, src@, toks@.subrange(0, i as int)).cur));
        match tok {
            OutputToken::Leaf { start, end, lower } => {
                c.push_range(src, start, end, lower);
                cur = Some(c);
            },
            OutputToken::InstructionStart => {
                c.is_instruction = true;
                cur = Some(c);
            },
            OutputToken::NewLine(_) => {
                let ghost old_lines = lines@;
                lines.push(c);
                assert(lines_st(lines@) =~= lines_st(old_lines).push(c.st()));
                let mut n = OutputLine::new();
                let mut k: usize = 0;
                assert(spaces(0) =~= Seq::<u8>::empty());
                while k < indent
                    invariant
                        k <= indent,
                        n.st() == (LineSt { text: spaces(4 * k as nat), ..empty_line() }),
                    decreases indent - k,
                {
                    crate::text::push_spaces(&mut n.text, 4);
                    k = k + 1;
                    assert(spaces(4 * (k - 1) as nat) + spaces(4) =~= spaces(4 * k as nat));
                }
                cur = Some(n);
            },
            OutputToken::Space => {
                c.push_space();
                cur = Some(c);
            },
            OutputToken::Comma => {
                let b: [u8; 2] = [44u8, 32u8];
                assert(b@ =~= comma_bytes());
                c.push_text(&b);
                cur = Some(c);
            },
            OutputToken::Tab => {
                let b: [u8; 4] = [32u8, 32u8, 32u8, 32u8];
                assert(b@ =~= tab_bytes());
                c.push_text(&b);
                cur = Some(c);
            },
            OutputToken::Indent(_) => {
                cur = Some(c);
            },
            OutputToken::ResetIndent => {
                cur = Some(c);
            },
            OutputToken::BlockComment(n) => {
                let node = &t.nodes[n];
                c.push_range(src, node.start_byte, node.end_byte, false);
                cur = Some(c);
            },
            OutputToken::LineComment(n) => {
                c.line_comment = Some(n);
                cur = Some(c);
            },
            OutputToken::SideStart => {
                c.reading_side = true;
                let b: [u8; 5] = [115u8, 105u8, 100u8, 101u8, 32u8];
                assert(b@ =~= side_bytes());
                c.push_text(&b);
                cur = Some(c);
            },
            OutputToken::SideEnd => {
                c.reading_side = false;
                cur = Some(c);
            },
            OutputToken::DelayStart => {
                c.reading_delay = true;
                cur = Some(c);
            },
            OutputToken::DelayEnd => {
                c.reading_delay = false;
                cur = Some(c);
            },
        }
        i = i + 1;
    }
    assert(toks@.subrange(0, toks@.len() as int) =~= toks@);
    lines
}

} // verus!

verus! {

proof fn lemma_max_instr_width(lines: Seq<LineSt>, k: int, j: int)
    requires
        0 <= j < k <= lines.len(),
        lines[j].is_instruction,
    ensures
        cap(lines[j].text.len() as int) <= max_instr_width(lines, k),
    decreases k,
{
    if j < k - 1 {
        lemma_max_instr_width(lines, k - 1, j);
    }
}

proof fn lemma_max_side_width(lines: Seq<LineSt>, m: usize, k: int)
    requires
        0 <= k <= lines.len(),
    ensures
        m <= max_side_width(lines, m, k),
        forall|j: int| 0 <= j <= k ==> max_side_width(lines, m, j) <= max_side_width(lines, m, k),
        forall|j: int|
            0 <= j < k && (#[trigger] lines[j]).is_instruction && lines[j].side is Some
                ==> cap(place_side(lines[j], m).text.len() as int) <= max_side_width(lines, m, k),
    decreases k,
{
    if k > 0 {
        lemma_max_side_width(lines, m, k - 1);
    }
}

fn max_width(lines: &Vec<OutputLine>) -> (r: usize)
    ensures
        r == max_instr_width(lines_st(lines@), lines@.len() as int),
{
    let mut m: usize = 0;
    let mut i: usize = 0;
    while i < lines.len()
        invariant
            i <= lines@.len(),
            m == max_instr_width(lines_st(lines@), i as int),
        decreases lines@.len() - i,
    {
        let l = &lines[i];
        if l.is_instruction && l.text.len() > m {
            m = l.text.len();
        }
        i = i + 1;
    }
    m
}

fn place_side_line(l: &mut OutputLine, col: usize)
    requires
        old(l).is_instruction && old(l).side is Some ==> old(l).text@.len() <= col,
    ensures
        final(l).st() == place_side(old(l).st(), col),
{
    if l.is_instruction {
        if let Some(side) = l.side.take() {
            let n = col - l.text.len();
            crate::text::push_spaces(&mut l.text, if n < usize::MAX { n + 1 } else { n });
            crate::text::push_all(&mut l.text, side.as_slice());
        }
    }
}

fn place_delay_line(l: &mut OutputLine, col: usize)
    requires
        old(l).is_instruction && old(l).delay is Some ==> old(l).text@.len() <= col,
    ensures
        final(l).st() == place_delay(old(l).st(), col),
{
    if l.is_instruction {
        if let Some(delay) = l.delay.take() {
            let n = col - l.text.len();
            crate::text::push_spaces(&mut l.text, if n < usize::MAX { n + 1 } else { n });
            crate::text::push_all(&mut l.text, delay.as_slice());
        }
    }
}

fn place_comment_line(t: &SyntaxTree, src: &[u8], l: &mut OutputLine, col: usize)
    requires
        t.wf_text(src@),
        old(l).line_comment matches Some(n) ==> n < t.len(),
    ensures
        final(l).st() == place_comment(*t, src@, old(l).st(), col),
{
    if let Some(n) = l.line_comment {
        let node = &t.nodes[n];
        assert(t.wf_text(src@) ==> node.start_byte <= node.end_byte <= src@.len());
        let s = node.start_byte;
        let e = node.end_byte;
        let semi = e > s && src[s] == 59u8;
        assert(semi == (node_text(*t, src@, n as int).len() > 0 && node_text(
            *t,
            src@,
            n as int,
        )[0] == 59u8));
        let target = if l.is_instruction && semi {
            if col < usize::MAX { col + 1 } else { col }
        } else {
            node.start_point.column
        };
        if l.text.len() > 0 && target > l.text.len() {
            let k = target - l.text.len();
            crate::text::push_spaces(&mut l.text, k);
        } else {
            assert(spaces(0) =~= Seq::<u8>::empty());
            assert(l.text@ + spaces(0) =~= l.text@);
        }
        crate::text::push_range(&mut l.text, src, s, e, false);
        l.line_comment = None;
    }
}

fn place_sides(lines: &mut Vec<OutputLine>, col: usize) -> (r: usize)
    requires
        forall|j: int|
            0 <= j < old(lines)@.len() && (#[trigger] old(lines)@[j]).is_instruction
                ==> old(lines)@[j].text@.len() <= col,
    ensures
        lines_st(final(lines)@) == lines_st(old(lines)@).map_values(
            |l: LineSt| place_side(l, col),
        ),
        r == max_side_width(lines_st(old(lines)@), col, old(lines)@.len() as int),
        forall|j: int|
            0 <= j < final(lines)@.len() && (#[trigger] final(lines)@[j]).is_instruction
                ==> final(lines)@[j].text@.len() <= r,
{
    let ghost old_v = lines@;
    let ghost old_st = lines_st(lines@);
    let ghost n = lines@.len();
    let mut w = col;
    let mut i: usize = 0;
    proof {
        lemma_max_side_width(old_st, col, n as int);
    }
    assert(m_le(old_st, col, n as int));
    while i < lines.len()
        invariant
            i <= lines@.len() == n,
            old_v.len() == n,
            old_st == lines_st(old_v),
            forall|j: int| 0 <= j < i ==> (#[trigger] lines@[j]).st() == place_side(old_v[j].st(), col),
            forall|j: int| i <= j < n ==> #[trigger] lines@[j] == old_v[j],
            w == max_side_width(old_st, col, i as int),
            col <= w,
            m_le(old_st, col, n as int),
            forall|j: int|
                0 <= j < n && (#[trigger] old_v[j]).is_instruction ==> old_v[j].text@.len() <= col,
            forall|j: int|
                0 <= j < i && (#[trigger] lines@[j]).is_instruction ==> lines@[j].text@.len()
                    <= max_side_width(old_st, col, n as int),
        decreases n - i,
    {
        let ghost before = lines@;
        let had_side = lines[i].is_instruction && lines[i].side.is_some();
        place_side_line(&mut lines[i], col);
        assert forall|j: int| 0 <= j < n && j != i implies #[trigger] lines@[j] == before[j] by {}
        assert(old_st[i as int] == old_v[i as int].st());
        if had_side && lines[i].text.len() > w {
            w = lines[i].text.len();
        }
        i = i + 1;
    }
    proof {
        assert(lines_st(lines@) =~= old_st.map_values(|l: LineSt| place_side(l, col)));
    }
    w
}

/// The side-set widths bound every extended line.
pub open spec fn m_le(lines: Seq<LineSt>, m: usize, k: int) -> bool {
    &&& m <= max_side_width(lines, m, k)
    &&& forall|j: int| 0 <= j <= k ==> max_side_width(lines, m, j) <= max_side_width(lines, m, k)
    &&& forall|j: int|
        0 <= j < k && (#[trigger] lines[j]).is_instruction && lines[j].side is Some
            ==> cap(place_side(lines[j], m).text.len() as int) <= max_side_width(lines, m, k)
}

fn place_delays(lines: &mut Vec<OutputLine>, col: usize)
    requires
        forall|j: int|
            0 <= j < old(lines)@.len() && (#[trigger] old(lines)@[j]).is_instruction
                ==> old(lines)@[j].text@.len() <= col,
    ensures
        lines_st(final(lines)@) == lines_st(old(lines)@).map_values(
            |l: LineSt| place_delay(l, col),
        ),
        final(lines)@.len() == old(lines)@.len(),
        forall|j: int|
            0 <= j < final(lines)@.len() ==> (#[trigger] final(lines)@[j]).line_comment
                == old(lines)@[j].line_comment,
{
    let ghost old_st = lines_st(lines@);
    let ghost old_v = lines@;
    let ghost n = lines@.len();
    let mut i: usize = 0;
    while i < lines.len()
        invariant
            i <= lines@.len() == n,
            old_v.len() == n,
            old_st == lines_st(old_v),
            forall|j: int| 0 <= j < i ==> (#[trigger] lines@[j]).st() == place_delay(old_v[j].st(), col),
            forall|j: int| i <= j < n ==> #[trigger] lines@[j] == old_v[j],
            forall|j: int| 0 <= j < n ==> (#[trigger] lines@[j]).line_comment == old_v[j].line_comment,
            forall|j: int|
                0 <= j < n && (#[trigger] old_v[j]).is_instruction ==> old_v[j].text@.len() <= col,
        decreases n - i,
    {
        let ghost before = lines@;
        place_delay_line(&mut lines[i], col);
        assert forall|j: int| 0 <= j < n && j != i implies #[trigger] lines@[j] == before[j] by {}
        i = i + 1;
    }
    proof {
        assert(lines_st(lines@) =~= old_st.map_values(|l: LineSt| place_delay(l, col)));
    }
}

/// The width after placing the delays, computed from the lines before.
fn delay_width(lines: &Vec<OutputLine>, col: usize) -> (r: usize)
    requires
        forall|j: int|
            0 <= j < lines@.len() && (#[trigger] lines@[j]).is_instruction
                ==> lines@[j].text@.len() <= col,
    ensures
        r == max_delay_width(lines_st(lines@), col, lines@.len() as int),
{
    let mut w = col;
    let mut i: usize = 0;
    while i < lines.len()
        invariant
            i <= lines@.len(),
            w == max_delay_width(lines_st(lines@), col, i as int),
            forall|j: int|
                0 <= j < lines@.len() && (#[trigger] lines@[j]).is_instruction
                    ==> lines@[j].text@.len() <= col,
        decreases lines@.len() - i,
    {
        let l = &lines[i];
        if l.is_instruction {
            if let Some(d) = &l.delay {
                let n = col - l.text.len();
                let pad = if n < usize::MAX { n + 1 } else { n };
                // the length of the placed text, if it fits
                let len = match l.text.len().checked_add(pad) {
                    Some(x) => x.checked_add(d.len()),
                    None => None,
                };
                match len {
                    Some(len) => {
                        if len > w {
                            w = len;
                        }
                    },
                    None => {
                        w = usize::MAX;
                    },
                }
            }
        }
        i = i + 1;
    }
    w
}

fn place_comments(t: &SyntaxTree, src: &[u8], lines: &mut Vec<OutputLine>, col: usize)
    requires
        t.wf_text(src@),
        forall|j: int|
            0 <= j < old(lines)@.len() ==> ((#[trigger] old(lines)@[j]).line_comment matches Some(
                n,
            ) ==> n < t.len()),
    ensures
        lines_st(final(lines)@) == lines_st(old(lines)@).map_values(
            |l: LineSt| place_comment(*t, src@, l, col),
        ),
{
    let ghost old_st = lines_st(lines@);
    let ghost old_v = lines@;
    let ghost n = lines@.len();
    let mut i: usize = 0;
    while i < lines.len()
        invariant
            i <= lines@.len() == n,
            old_v.len() == n,
            old_st == lines_st(old_v),
            t.wf_text(src@),
            forall|j: int|
                0 <= j < i ==> (#[trigger] lines@[j]).st() == place_comment(*t, src@, old_v[j].st(), col),
            forall|j: int| i <= j < n ==> #[trigger] lines@[j] == old_v[j],
            forall|j: int|
                0 <= j < n ==> ((#[trigger] old_v[j]).line_comment matches Some(m) ==> m < t.len()),
        decreases n - i,
    {
        let ghost before = lines@;
        place_comment_line(t, src, &mut lines[i], col);
        assert forall|j: int| 0 <= j < n && j != i implies #[trigger] lines@[j] == before[j] by {}
        i = i + 1;
    }
    proof {
        assert(lines_st(lines@) =~= old_st.map_values(|l: LineSt| place_comment(*t, src@, l, col)));
    }
}

fn join(lines: &Vec<OutputLine>) -> (r: Vec<u8>)
    ensures
        r@ == join_lines(lines_st(lines@)),
{
    let mut out: Vec<u8> = Vec::new();
    let mut i: usize = 0;
    while i < lines.len()
        invariant
            i <= lines@.len(),
            out@ == join_lines(lines_st(lines@).subrange(0, i as int)),
        decreases lines@.len() - i,
    {
        assert(lines_st(lines@).subrange(0, i + 1).drop_last() =~= lines_st(lines@).subrange(
            0,
            i as int,
        ));
        crate::text::push_all(&mut out, lines[i].text.as_slice());
        out.push(10u8);
        i = i + 1;
    }
    assert(lines_st(lines@).subrange(0, lines@.len() as int) =~= lines_st(lines@));
    out
}

} // verus!

verus! {

pub open spec fn comments_ok(t: SyntaxTree, l: LineSt) -> bool {
    l.line_comment matches Some(n) ==> n < t.len()
}

proof fn lemma_fold_comments(t: SyntaxTree, src: Seq<u8>, toks: Seq<OutputToken>)
    requires
        tokens_ok(t, src, toks),
    ensures
        forall|j: int|
            0 <= j < fin_fold(t, src, toks).lines.len() ==> comments_ok(
                t,
                #[trigger] fin_fold(t, src, toks).lines[j],
            ),
        comments_ok(t, cur_line(fin_fold(t, src, toks).cur)),
    decreases toks.len(),
{
    if toks.len() > 0 {
        let p = toks.drop_last();
        assert(tokens_ok(t, src, p)) by {
            assert forall|i: int| 0 <= i < p.len() implies match #[trigger] p[i] {
                OutputToken::Leaf { start, end, lower } => start <= end <= src.len()
                    && vstd::utf8::is_char_boundary(src, start as int)
                    && vstd::utf8::is_char_boundary(src, end as int),
                OutputToken::LineComment(n) => n < t.len(),
                OutputToken::BlockComment(n) => n < t.len(),
                _ => true,
            } by {
                assert(p[i] == toks[i]);
            }
        }
        lemma_fold_comments(t, src, p);
        assert(match toks[toks.len() - 1] {
            OutputToken::Leaf { start, end, lower } => start <= end <= src.len()
                && vstd::utf8::is_char_boundary(src, start as int)
                && vstd::utf8::is_char_boundary(src, end as int),
            OutputToken::LineComment(n) => n < t.len(),
            OutputToken::BlockComment(n) => n < t.len(),
            _ => true,
        });
    }
}

/// Lays the tokens out as text lines.
fn finish_bytes(t: &SyntaxTree, src: &[u8], toks: Vec<OutputToken>) -> (r: Vec<u8>)
    requires
        t.wf_text(src@),
        tokens_ok(*t, src@, toks@),
    ensures
        r@ == finish_spec(*t, src@, toks@),
{
    let mut toks = toks;
    let ghost orig = toks@;
    append_final_newline(&mut toks);
    assert(tokens_ok(*t, src@, toks@)) by {
        assert forall|i: int| 0 <= i < toks@.len() implies match #[trigger] toks@[i] {
            OutputToken::Leaf { start, end, lower } => start <= end <= src@.len()
                && vstd::utf8::is_char_boundary(src@, start as int)
                && vstd::utf8::is_char_boundary(src@, end as int),
            OutputToken::LineComment(n) => n < t.len(),
            OutputToken::BlockComment(n) => n < t.len(),
            _ => true,
        } by {
            if i < orig.len() {
                assert(toks@[i] == orig[i]);
            }
        }
    }
    let mut lines = build_lines(t, src, &toks);
    let ghost lines0 = lines_st(lines@);
    proof {
        lemma_fold_comments(*t, src@, toks@);
    }
    let m0 = max_width(&lines);
    let m1 = if m0 < usize::MAX { m0 + 1 } else { m0 };
    assert forall|j: int| 0 <= j < lines@.len() && (#[trigger] lines@[j]).is_instruction implies lines@[j].text@.len() <= m1 by {
        assert(lines0[j] == lines@[j].st());
        assert(lines@[j].text.len() == lines@[j].text@.len());
        lemma_max_instr_width(lines0, lines0.len() as int, j);
    }
    let ghost v0 = lines@;
    let m2 = place_sides(&mut lines, m1);
    let ghost lines1 = lines_st(lines@);
    let m3 = delay_width(&lines, m2);
    let ghost v1 = lines@;
    place_delays(&mut lines, m2);
    assert forall|j: int| 0 <= j < lines@.len() implies ((#[trigger] lines@[j]).line_comment matches Some(n) ==> n < t.len()) by {
        assert(lines0[j] == v0[j].st());
        assert(lines1[j] == v1[j].st());
        assert(lines1[j] == place_side(lines0[j], m1));
        assert(comments_ok(*t, fin_fold(*t, src@, toks@).lines[j]));
    }
    place_comments(t, src, &mut lines, m3);
    join(&lines)
}

} // verus!

verus! {

/// The abstract state of the tree walk.
pub struct FmtSt {
    pub out: Seq<OutputToken>,
    pub last: usize,
    pub last_non_comment: usize,
    pub bracket_depth: u32,
}

/// What the first part of `emit` decided.
pub struct Head {
    pub st: FmtSt,
    /// the node is done (separators, newlines and comments)
    pub stop: bool,
    /// an operator of a binary expression, spaced on both sides
    pub binary: bool,
    pub side: bool,
    pub delay: bool,
}

pub open spec fn kind_of(t: SyntaxTree, n: int) -> Seq<char> {
    t.nodes@[n].kind@
}

pub open spec fn parent_kind_is(t: SyntaxTree, n: int, k: &str) -> bool {
    t.nodes@[n].parent matches Some(p) && t.nodes@[p as int].kind@ == k@
}

/// The number of line breaks in the text between the end of `a` and the start
/// of `b` (none when `b` starts before `a` ends).
pub open spec fn newlines_between(t: SyntaxTree, src: Seq<u8>, a: int, b: int) -> nat {
    let s = t.nodes@[a].end_byte as int;
    let e = t.nodes@[b].start_byte as int;
    if s <= e && e <= src.len() {
        count_byte(src.subrange(s, e), 10u8)
    } else {
        0
    }
}

pub open spec fn push_tok(st: FmtSt, tok: OutputToken) -> FmtSt {
    FmtSt { out: st.out.push(tok), ..st }
}

/// Line breaks before a statement: one, or two where the source had a blank
/// line or `double` is set; none on the first line.
pub open spec fn newline_spec(t: SyntaxTree, src: Seq<u8>, st: FmtSt, n: int, double: bool) -> FmtSt {
    let line = t.nodes@[n].start_point.row;
    if line == 0 {
        st
    } else {
        let st1 = push_tok(st, OutputToken::NewLine((line - 1) as usize));
        if double || newlines_between(t, src, st.last as int, n) > 1 {
            push_tok(st1, OutputToken::NewLine((line - 1) as usize))
        } else {
            st1
        }
    }
}

/// The number of non-overlapping four-space groups, found left to right.
pub open spec fn count_indent(s: Seq<u8>) -> nat
    decreases s.len(),
{
    if s.len() < 4 {
        0
    } else if s.subrange(0, 4) == spaces(4) {
        1 + count_indent(s.subrange(4, s.len() as int))
    } else {
        count_indent(s.subrange(1, s.len() as int))
    }
}

/// The index of the last line break in `s`.
pub open spec fn last_newline(s: Seq<u8>) -> Option<int>
    decreases s.len(),
{
    if s.len() == 0 {
        None
    } else if s.last() == 10u8 {
        Some(s.len() - 1)
    } else {
        last_newline(s.drop_last())
    }
}

/// A label keeps the indentation it had in the source, in groups of four
/// spaces after the last line break before it.
pub open spec fn label_indent_spec(t: SyntaxTree, src: Seq<u8>, st: FmtSt, n: int) -> FmtSt {
    let last_end = t.nodes@[st.last_non_comment as int].end_byte as int;
    let node_start = t.nodes@[n].start_byte as int;
    if node_start > last_end {
        let between = src.subrange(last_end, node_start);
        match last_newline(between) {
            Some(p) => {
                let level = count_indent(between.subrange(p + 1, between.len() as int));
                if level != 0 {
                    push_tok(st, OutputToken::Indent(level as usize))
                } else {
                    st
                }
            },
            None => st,
        }
    } else {
        st
    }
}

pub open spec fn is_newline_tok(o: Option<OutputToken>) -> bool {
    o matches Some(OutputToken::NewLine(_))
}

pub open spec fn last_tok(out: Seq<OutputToken>) -> Option<OutputToken> {
    if out.len() == 0 { None } else { Some(out.last()) }
}

/// Whether a separating comma goes before an operand in this field.
pub open spec fn pre_comma(t: SyntaxTree, st: FmtSt, n: int, field: Option<&'static str>) -> bool {
    match field {
        Some(f) => {
            ||| f@ == "gpio_num"@
            ||| f@ == "pin_num"@
            ||| f@ == "bit_count"@
            ||| (f@ == "value"@ && parent_kind_is(t, n, "instr_set"))
            ||| (f@ == "op"@ && parent_kind_is(t, n, "instr_mov"))
            ||| (f@ == "target"@ && kind_of(t, st.last as int) == "jmp_condition"@)
        },
        None => false,
    }
}

pub open spec fn binary_op_kind(k: Seq<char>) -> bool {
    k == "+"@ || k == "-"@ || k == "/"@ || k == "*"@ || k == "<<"@ || k == ">>"@
}

pub open spec fn starts_with_bytes(s: Seq<u8>, p: Seq<u8>) -> bool {
    p.len() <= s.len() && s.subrange(0, p.len() as int) == p
}

pub open spec fn head_of(st: FmtSt, stop: bool, binary: bool, side: bool, delay: bool) -> Head {
    Head { st, stop, binary, side, delay }
}

/// The tokens that go before a node's own text, chosen by its kind.
pub open spec fn emit_head(
    t: SyntaxTree,
    src: Seq<u8>,
    st0: FmtSt,
    n: int,
    field: Option<&'static str>,
) -> Head {
    let last_kind = kind_of(t, st0.last as int);
    let after_inline = last_kind == "block_comment"@ && newlines_between(t, src, st0.last as int, n) == 0;
    let st = if pre_comma(t, st0, n, field) { push_tok(st0, OutputToken::Comma) } else { st0 };
    let k = kind_of(t, n);
    if k == "instruction"@ {
        let st1 = if !after_inline {
            push_tok(newline_spec(t, src, st, n, false), OutputToken::Tab)
        } else {
            st
        };
        head_of(push_tok(st1, OutputToken::InstructionStart), false, false, false, false)
    } else if k == "side"@ {
        head_of(push_tok(st, OutputToken::SideStart), false, false, true, false)
    } else if k == "delay"@ {
        head_of(push_tok(st, OutputToken::DelayStart), false, false, false, true)
    } else if k == "label"@ {
        let st1 = label_indent_spec(t, src, push_tok(st, OutputToken::ResetIndent), n);
        let st2 = if !after_inline { newline_spec(t, src, st1, n, false) } else { st1 };
        head_of(st2, false, false, false, false)
    } else if k == "directive"@ {
        let st1 = push_tok(st, OutputToken::ResetIndent);
        let st2 = if !after_inline { newline_spec(t, src, st1, n, false) } else { st1 };
        head_of(st2, false, false, false, false)
    } else if k == "code_block_start"@ {
        let st1 = push_tok(st, OutputToken::ResetIndent);
        let st2 = if !after_inline { newline_spec(t, src, st1, n, true) } else { st1 };
        head_of(st2, false, false, false, false)
    } else if k == ","@ {
        head_of(st, true, false, false, false)
    } else if binary_op_kind(k) && parent_kind_is(t, n, "binary_expression") {
        head_of(st, false, true, false, false)
    } else if k == "mov_source"@ {
        let o = st.out;
        let comma2 = o.len() >= 2 && o[o.len() - 2] is Comma;
        let comma3 = o.len() >= 3 && o[o.len() - 3] is Comma;
        let st1 = if !comma2 && !comma3 { push_tok(st, OutputToken::Comma) } else { st };
        head_of(st1, false, false, false, false)
    } else if k == "comment"@ {
        let st1 = if newlines_between(t, src, st.last as int, n) > 0 {
            push_tok(st, OutputToken::NewLine(t.nodes@[n].start_point.row))
        } else {
            st
        };
        head_of(st1, false, false, false, false)
    } else if k == "line_comment"@ {
        let st1 = FmtSt { last: n as usize, ..st };
        let st2 = if !(last_tok(st.out) is None || is_newline_tok(last_tok(st.out))) {
            push_tok(st1, OutputToken::Space)
        } else {
            st1
        };
        head_of(push_tok(st2, OutputToken::LineComment(n as usize)), true, false, false, false)
    } else if k == "block_comment"@ {
        let st1 = push_tok(FmtSt { last: n as usize, ..st }, OutputToken::Space);
        head_of(push_tok(st1, OutputToken::BlockComment(n as usize)), true, false, false, false)
    } else if k == "\n"@ {
        head_of(st, true, false, false, false)
    } else if k == ":"@ || k == "source_file"@ || k == "code_block_end"@ {
        head_of(st, false, false, false, false)
    } else if k == "("@ {
        head_of(FmtSt { bracket_depth: st.bracket_depth.wrapping_add(1), ..st }, false, false, false, false)
    } else if k == ")"@ {
        head_of(FmtSt { bracket_depth: st.bracket_depth.saturating_sub(1), ..st }, false, false, false, false)
    } else if st.bracket_depth != 0 {
        head_of(st, false, false, false, false)
    } else {
        let space = !is_newline_tok(last_tok(st.out)) && !starts_with_bytes(
            t.nodes@[n].kind.spec_bytes(),
            "directive".spec_bytes(),
        )
            && k != "define_typ"@ && last_kind != "."@;
        head_of(if space { push_tok(st, OutputToken::Space) } else { st }, false, false, false, false)
    }
}

/// The text of a leaf: symbols as written, everything else in lower case.
pub open spec fn leaf_spec(t: SyntaxTree, st: FmtSt, n: int, binary: bool) -> FmtSt {
    let node = t.nodes@[n];
    let tok = OutputToken::Leaf {
        start: node.start_byte,
        end: node.end_byte,
        lower: kind_of(t, n) != "symbol"@,
    };
    if binary {
        push_tok(push_tok(push_tok(st, OutputToken::Space), tok), OutputToken::Space)
    } else {
        push_tok(st, tok)
    }
}

/// The position in the children list of the first child with field `name`.
pub open spec fn field_child_from(t: SyntaxTree, n: int, name: &str, i: int) -> Option<int>
    decreases t.nodes@[n].children@.len() - i,
{
    if i < 0 || i >= t.nodes@[n].children@.len() {
        None
    } else if t.nodes@[t.nodes@[n].children@[i] as int].field_name matches Some(f) && f@ == name@ {
        Some(i)
    } else {
        field_child_from(t, n, name, i + 1)
    }
}

proof fn lemma_field_child_range(t: SyntaxTree, n: int, name: &str, i: int)
    requires
        0 <= i,
    ensures
        field_child_from(t, n, name, i) matches Some(j) ==> i <= j < t.nodes@[n].children@.len(),
    decreases t.nodes@[n].children@.len() - i,
{
    if i < t.nodes@[n].children@.len() {
        lemma_field_child_range(t, n, name, i + 1);
    }
}

/// For an instruction whose delay comes before its side-set, the positions
/// of the side-set and the delay among its children.
pub open spec fn side_delay_swap(t: SyntaxTree, n: int) -> Option<(int, int)> {
    if kind_of(t, n) == "instruction"@ {
        match (field_child_from(t, n, "side", 0), field_child_from(t, n, "delay", 0)) {
            (Some(s), Some(d)) => {
                let cs = t.nodes@[n].children@;
                if t.nodes@[cs[s] as int].start_byte > t.nodes@[cs[d] as int].start_byte {
                    Some((s, d))
                } else {
                    None
                }
            },
            _ => None,
        }
    } else {
        None
    }
}

pub open spec fn field_is(f: Option<&'static str>, name: &str) -> bool {
    f matches Some(x) && x@ == name@
}

/// The walk over one node and its subtree.
pub open spec fn emit_spec(
    t: SyntaxTree,
    src: Seq<u8>,
    st0: FmtSt,
    n: int,
    field: Option<&'static str>,
) -> FmtSt
    decreases t.len() - n, t.nodes@[n].children@.len() + 1,
    when t.wf_links() && 0 <= n < t.len()
{
    let h = emit_head(t, src, st0, n, field);
    if h.stop {
        h.st
    } else {
        let st1 = FmtSt {
            last: n as usize,
            last_non_comment: if kind_of(t, n) != "comment"@ {
                n as usize
            } else {
                h.st.last_non_comment
            },
            ..h.st
        };
        let st2 = if t.nodes@[n].children@.len() == 0 {
            leaf_spec(t, st1, n, h.binary)
        } else {
            emit_children(t, src, st1, n, 0, side_delay_swap(t, n))
        };
        let st3 = if h.side { push_tok(st2, OutputToken::SideEnd) } else { st2 };
        if h.delay { push_tok(st3, OutputToken::DelayEnd) } else { st3 }
    }
}

/// The walk over the children of `n` from position `i` on, with the side-set
/// and delay exchanged where `swap` says so.
pub open spec fn emit_children(
    t: SyntaxTree,
    src: Seq<u8>,
    st: FmtSt,
    n: int,
    i: int,
    swap: Option<(int, int)>,
) -> FmtSt
    decreases t.len() - n, t.nodes@[n].children@.len() - i,
    when t.wf_links() && 0 <= n < t.len() && 0 <= i
{
    let cs = t.nodes@[n].children@;
    if i >= cs.len() {
        st
    } else {
        let c = cs[i] as int;
        let f = t.nodes@[c].field_name;
        let st1 = match swap {
            Some((s, d)) => {
                if field_is(f, "side") && 0 <= d < cs.len() {
                    emit_spec(t, src, st, cs[d] as int, Some("delay"))
                } else if field_is(f, "delay") && 0 <= s < cs.len() {
                    emit_spec(t, src, st, cs[s] as int, Some("side"))
                } else {
                    emit_spec(t, src, st, c, f)
                }
            },
            None => emit_spec(t, src, st, c, f),
        };
        emit_children(t, src, st1, n, i + 1, swap)
    }
}

} // verus!

verus! {

/// The tree walk's state.
pub struct Formatter<'a> {
    src: &'a [u8],
    tree: &'a SyntaxTree,
    out: Vec<OutputToken>,
    last: usize,
    last_non_comment: usize,
    bracket_depth: u32,
}

/// What the first part of `emit` decided, without the state.
#[derive(Clone, Copy)]
struct HeadFlags {
    stop: bool,
    binary: bool,
    side: bool,
    delay: bool,
}

impl<'a> Formatter<'a> {
    pub closed spec fn st(&self) -> FmtSt {
        FmtSt {
            out: self.out@,
            last: self.last,
            last_non_comment: self.last_non_comment,
            bracket_depth: self.bracket_depth,
        }
    }

    pub closed spec fn tree_spec(&self) -> SyntaxTree {
        *self.tree
    }

    pub closed spec fn src_spec(&self) -> Seq<u8> {
        self.src@
    }

    pub closed spec fn inv(&self) -> bool {
        &&& self.tree.wf(self.src@)
        &&& self.last < self.tree.len()
        &&& self.last_non_comment < self.tree.len()
        &&& tokens_ok(*self.tree, self.src@, self.out@)
    }

    fn new(src: &'a [u8], tree: &'a SyntaxTree) -> (r: Formatter<'a>)
        requires
            tree.wf(src@),
        ensures
            r.inv(),
            r.tree_spec() == *tree,
            r.src_spec() == src@,
            r.st() == (FmtSt { out: Seq::empty(), last: 0, last_non_comment: 0, bracket_depth: 0 }),
    {
        Formatter { src, tree, out: Vec::new(), last: 0, last_non_comment: 0, bracket_depth: 0 }
    }

    fn push(&mut self, tok: OutputToken)
        requires
            old(self).inv(),
            match tok {
                OutputToken::Leaf { start, end, lower } => start <= end <= old(self).src@.len()
                    && vstd::utf8::is_char_boundary(old(self).src@, start as int)
                    && vstd::utf8::is_char_boundary(old(self).src@, end as int),
                OutputToken::LineComment(n) => n < old(self).tree.len(),
                OutputToken::BlockComment(n) => n < old(self).tree.len(),
                _ => true,
            },
        ensures
            final(self).inv(),
            final(self).tree == old(self).tree,
            final(self).src == old(self).src,
            final(self).st() == push_tok(old(self).st(), tok),
    {
        let ghost o = self.out@;
        self.out.push(tok);
        assert forall|i: int| 0 <= i < self.out@.len() implies match #[trigger] self.out@[i] {
            OutputToken::Leaf { start, end, lower } => start <= end <= self.src@.len()
                && vstd::utf8::is_char_boundary(self.src@, start as int)
                && vstd::utf8::is_char_boundary(self.src@, end as int),
            OutputToken::LineComment(n) => n < self.tree.len(),
            OutputToken::BlockComment(n) => n < self.tree.len(),
            _ => true,
        } by {
            if i < o.len() {
                assert(self.out@[i] == o[i]);
            }
        }
    }

    fn kind_is(&self, n: usize, lit: &str) -> (r: bool)
        requires
            n < self.tree.len(),
        ensures
            r == (kind_of(*self.tree, n as int) == lit@),
    {
        crate::text::str_eq(self.tree.nodes[n].kind, lit)
    }

    fn newlines_between(&self, a: usize, b: usize) -> (r: usize)
        requires
            self.inv(),
            a < self.tree.len(),
            b < self.tree.len(),
        ensures
            r == newlines_between(*self.tree, self.src@, a as int, b as int),
    {
        let s = self.tree.nodes[a].end_byte;
        let e = self.tree.nodes[b].start_byte;
        assert(self.tree.wf_text(self.src@));
        assert(e <= self.src@.len()) by {
            let nb = self.tree.nodes@[b as int];
            assert(nb.start_byte <= nb.end_byte <= self.src@.len());
        }
        if s <= e {
            crate::text::count_occurrences(10u8, vstd::slice::slice_subrange(self.src, s, e))
        } else {
            0
        }
    }

    fn newline(&mut self, n: usize, double: bool)
        requires
            old(self).inv(),
            n < old(self).tree.len(),
        ensures
            final(self).inv(),
            final(self).tree == old(self).tree,
            final(self).src == old(self).src,
            final(self).st() == newline_spec(*old(self).tree, old(self).src@, old(self).st(), n as int, double),
    {
        let line = self.tree.nodes[n].start_point.row;
        if line == 0 {
            return;
        }
        let between = self.newlines_between(self.last, n);
        self.push(OutputToken::NewLine(line - 1));
        if double || between > 1 {
            self.push(OutputToken::NewLine(line - 1));
        }
    }

    fn label_indent(&mut self, n: usize)
        requires
            old(self).inv(),
            n < old(self).tree.len(),
        ensures
            final(self).inv(),
            final(self).tree == old(self).tree,
            final(self).src == old(self).src,
            final(self).st() == label_indent_spec(*old(self).tree, old(self).src@, old(self).st(), n as int),
    {
        let last_end = self.tree.nodes[self.last_non_comment].end_byte;
        let node_start = self.tree.nodes[n].start_byte;
        assert(self.tree.wf_text(self.src@));
        assert(node_start <= self.src@.len()) by {
            let nb = self.tree.nodes@[n as int];
            assert(nb.start_byte <= nb.end_byte <= self.src@.len());
        }
        if node_start > last_end {
            let between = vstd::slice::slice_subrange(self.src, last_end, node_start);
            // find the last line break
            let mut j = between.len();
            let mut found = false;
            assert(between@.subrange(0, between@.len() as int) =~= between@);
            while j > 0 && !found
                invariant
                    j <= between@.len(),
                    found ==> j > 0 && between@[j - 1] == 10u8
                        && last_newline(between@) == Some(j - 1),
                    !found ==> last_newline(between@) == last_newline(between@.subrange(0, j as int)),
                decreases j + if found { 0int } else { 1int },
            {
                assert(between@.subrange(0, j as int).drop_last() =~= between@.subrange(0, j - 1));
                if between[j - 1] == 10u8 {
                    found = true;
                } else {
                    j = j - 1;
                }
            }
            if !found {
                assert(between@.subrange(0, 0) =~= Seq::<u8>::empty());
                return;
            }
            // count the groups of four spaces after it
            let rest = vstd::slice::slice_subrange(between, j, between.len());
            let mut k: usize = 0;
            let mut level: usize = 0;
            assert(rest@.subrange(0, rest@.len() as int) =~= rest@);
            while k < rest.len() && rest.len() - k >= 4
                invariant
                    k <= rest@.len(),
                    level <= k,
                    level + count_indent(rest@.subrange(k as int, rest@.len() as int))
                        == count_indent(rest@),
                decreases rest@.len() - k,
            {
                let ghost cur = rest@.subrange(k as int, rest@.len() as int);
                let quad = rest[k] == 32u8 && rest[k + 1] == 32u8 && rest[k + 2] == 32u8 && rest[k
                    + 3] == 32u8;
                proof {
                    if quad {
                        assert(cur.subrange(0, 4) =~= spaces(4));
                        assert(cur.subrange(4, cur.len() as int) =~= rest@.subrange(
                            k + 4,
                            rest@.len() as int,
                        ));
                    } else {
                        assert(cur.subrange(0, 4) != spaces(4)) by {
                            if cur.subrange(0, 4) == spaces(4) {
                                assert(cur.subrange(0, 4)[0] == 32u8);
                                assert(cur.subrange(0, 4)[1] == 32u8);
                                assert(cur.subrange(0, 4)[2] == 32u8);
                                assert(cur.subrange(0, 4)[3] == 32u8);
                            }
                        }
                        assert(cur.subrange(1, cur.len() as int) =~= rest@.subrange(
                            k + 1,
                            rest@.len() as int,
                        ));
                    }
                }
                if quad {
                    level = level + 1;
                    k = k + 4;
                } else {
                    k = k + 1;
                }
            }
            assert(count_indent(rest@.subrange(k as int, rest@.len() as int)) == 0);
            assert(rest@ =~= between@.subrange(j as int, between@.len() as int));
            if level != 0 {
                self.push(OutputToken::Indent(level));
            }
        }
    }

    fn field_child(&self, n: usize, name: &str) -> (r: Option<usize>)
        requires
            self.inv(),
            n < self.tree.len(),
        ensures
            r matches Some(i) ==> field_child_from(*self.tree, n as int, name, 0) == Some(i as int),
            r is None ==> field_child_from(*self.tree, n as int, name, 0) is None,
            r matches Some(i) ==> i < self.tree.nodes@[n as int].children@.len(),
    {
        let cs = &self.tree.nodes[n].children;
        let mut i: usize = 0;
        while i < cs.len()
            invariant
                self.inv(),
                n < self.tree.len(),
                i <= cs@.len(),
                cs == self.tree.nodes@[n as int].children,
                field_child_from(*self.tree, n as int, name, 0) == field_child_from(
                    *self.tree,
                    n as int,
                    name,
                    i as int,
                ),
            decreases cs@.len() - i,
        {
            let c = cs[i];
            assert(self.tree.wf_links());
            assert(c < self.tree.len());
            if let Some(f) = self.tree.nodes[c].field_name {
                if crate::text::str_eq(f, name) {
                    return Some(i);
                }
            }
            i = i + 1;
        }
        None
    }

    fn side_delay_swap(&self, n: usize) -> (r: Option<(usize, usize)>)
        requires
            self.inv(),
            n < self.tree.len(),
        ensures
            r matches Some((s, d)) ==> side_delay_swap(*self.tree, n as int) == Some((s as int, d as int)),
            r is None ==> side_delay_swap(*self.tree, n as int) is None,
            r matches Some((s, d)) ==> s < self.tree.nodes@[n as int].children@.len() && d
                < self.tree.nodes@[n as int].children@.len(),
    {
        if !self.kind_is(n, "instruction") {
            return None;
        }
        proof {
            lemma_field_child_range(*self.tree, n as int, "side", 0);
            lemma_field_child_range(*self.tree, n as int, "delay", 0);
        }
        let fs = self.field_child(n, "side");
        let fd = self.field_child(n, "delay");
        let ghost ss = field_child_from(*self.tree, n as int, "side", 0);
        let ghost sd = field_child_from(*self.tree, n as int, "delay", 0);
        match (fs, fd) {
            (Some(s), Some(d)) => {
                assert(ss == Some(s as int));
                assert(sd == Some(d as int));
                let cs = &self.tree.nodes[n].children;
                assert(self.tree.wf_links());
                let sn = cs[s];
                let dn = cs[d];
                if self.tree.nodes[sn].start_byte > self.tree.nodes[dn].start_byte {
                    Some((s, d))
                } else {
                    None
                }
            },
            _ => {
                assert(ss is None || sd is None);
                None
            },
        }
    }

    fn leaf(&mut self, n: usize, binary: bool)
        requires
            old(self).inv(),
            n < old(self).tree.len(),
        ensures
            final(self).inv(),
            final(self).tree == old(self).tree,
            final(self).src == old(self).src,
            final(self).st() == leaf_spec(*old(self).tree, old(self).st(), n as int, binary),
    {
        let start = self.tree.nodes[n].start_byte;
        let end = self.tree.nodes[n].end_byte;
        let lower = !self.kind_is(n, "symbol");
        assert(self.tree.wf_text(self.src@));
        assert({
            let nb = self.tree.nodes@[n as int];
            &&& nb.start_byte <= nb.end_byte <= self.src@.len()
            &&& vstd::utf8::is_char_boundary(self.src@, nb.start_byte as int)
            &&& vstd::utf8::is_char_boundary(self.src@, nb.end_byte as int)
        });
        if binary {
            self.push(OutputToken::Space);
        }
        self.push(OutputToken::Leaf { start, end, lower });
        if binary {
            self.push(OutputToken::Space);
        }
    }
}

} // verus!

verus! {

impl<'a> Formatter<'a> {
    fn pre_comma(&self, n: usize, field: Option<&'static str>) -> (r: bool)
        requires
            self.inv(),
            n < self.tree.len(),
        ensures
            r == pre_comma(*self.tree, self.st(), n as int, field),
    {
        match field {
            None => false,
            Some(f) => {
                str_eq(f, "gpio_num") || str_eq(f, "pin_num") || str_eq(f, "bit_count") || (str_eq(
                    f,
                    "value",
                ) && self.parent_kind_is(n, "instr_set")) || (str_eq(f, "op")
                    && self.parent_kind_is(n, "instr_mov")) || (str_eq(f, "target")
                    && self.kind_is(self.last, "jmp_condition"))
            },
        }
    }

    fn parent_kind_is(&self, n: usize, k: &str) -> (r: bool)
        requires
            self.inv(),
            n < self.tree.len(),
        ensures
            r == parent_kind_is(*self.tree, n as int, k),
    {
        match self.tree.nodes[n].parent {
            Some(p) => {
                assert(self.tree.wf_links());
                assert(n > 0);
                crate::text::str_eq(self.tree.nodes[p].kind, k)
            },
            None => false,
        }
    }

    fn last_is_newline(&self) -> (r: bool)
        ensures
            r == is_newline_tok(last_tok(self.out@)),
    {
        self.out.len() > 0 && matches!(self.out[self.out.len() - 1], OutputToken::NewLine(_))
    }

    #[verifier::rlimit(40)]
    fn head(&mut self, n: usize, field: Option<&'static str>) -> (r: HeadFlags)
        requires
            old(self).inv(),
            n < old(self).tree.len(),
        ensures
            final(self).inv(),
            final(self).tree == old(self).tree,
            final(self).src == old(self).src,
            ({
                let h = emit_head(*old(self).tree, old(self).src@, old(self).st(), n as int, field);
                &&& final(self).st() == h.st
                &&& r.stop == h.stop
                &&& r.binary == h.binary
                &&& r.side == h.side
                &&& r.delay == h.delay
            }),
    {
        let last = self.last;
        let after_inline = self.kind_is(last, "block_comment") && self.newlines_between(last, n) == 0;
        let last_is_dot = self.kind_is(last, ".");
        if self.pre_comma(n, field) {
            self.push(OutputToken::Comma);
        }
        let flags = HeadFlags { stop: false, binary: false, side: false, delay: false };
        if self.kind_is(n, "instruction") {
            if !after_inline {
                self.newline(n, false);
                self.push(OutputToken::Tab);
            }
            self.push(OutputToken::InstructionStart);
            flags
        } else if self.kind_is(n, "side") {
            self.push(OutputToken::SideStart);
            HeadFlags { side: true, ..flags }
        } else if self.kind_is(n, "delay") {
            self.push(OutputToken::DelayStart);
            HeadFlags { delay: true, ..flags }
        } else if self.kind_is(n, "label") {
            self.push(OutputToken::ResetIndent);
            self.label_indent(n);
            if !after_inline {
                self.newline(n, false);
            }
            flags
        } else if self.kind_is(n, "directive") {
            self.push(OutputToken::ResetIndent);
            if !after_inline {
                self.newline(n, false);
            }
            flags
        } else if self.kind_is(n, "code_block_start") {
            self.push(OutputToken::ResetIndent);
            if !after_inline {
                self.newline(n, true);
            }
            flags
        } else {
            self.head_rest(n, last_is_dot)
        }
    }

    #[verifier::rlimit(40)]
    fn head_rest(&mut self, n: usize, last_is_dot: bool) -> (r: HeadFlags)
        requires
            old(self).inv(),
            n < old(self).tree.len(),
            last_is_dot == (kind_of(*old(self).tree, old(self).last as int) == "."@),
            !(kind_of(*old(self).tree, n as int) == "instruction"@),
            !(kind_of(*old(self).tree, n as int) == "side"@),
            !(kind_of(*old(self).tree, n as int) == "delay"@),
            !(kind_of(*old(self).tree, n as int) == "label"@),
            !(kind_of(*old(self).tree, n as int) == "directive"@),
            !(kind_of(*old(self).tree, n as int) == "code_block_start"@),
        ensures
            final(self).inv(),
            final(self).tree == old(self).tree,
            final(self).src == old(self).src,
            ({
                let st = old(self).st();
                let t = *old(self).tree;
                let k = kind_of(t, n as int);
                let h = if k == ","@ {
                    head_of(st, true, false, false, false)
                } else if binary_op_kind(k) && parent_kind_is(t, n as int, "binary_expression") {
                    head_of(st, false, true, false, false)
                } else if k == "mov_source"@ {
                    let o = st.out;
                    let comma2 = o.len() >= 2 && o[o.len() - 2] is Comma;
                    let comma3 = o.len() >= 3 && o[o.len() - 3] is Comma;
                    let st1 = if !comma2 && !comma3 { push_tok(st, OutputToken::Comma) } else { st };
                    head_of(st1, false, false, false, false)
                } else if k == "comment"@ {
                    let st1 = if newlines_between(t, old(self).src@, st.last as int, n as int) > 0 {
                        push_tok(st, OutputToken::NewLine(t.nodes@[n as int].start_point.row))
                    } else {
                        st
                    };
                    head_of(st1, false, false, false, false)
                } else if k == "line_comment"@ {
                    let st1 = FmtSt { last: n as usize, ..st };
                    let st2 = if !(last_tok(st.out) is None || is_newline_tok(last_tok(st.out))) {
                        push_tok(st1, OutputToken::Space)
                    } else {
                        st1
                    };
                    head_of(push_tok(st2, OutputToken::LineComment(n as usize)), true, false, false, false)
                } else if k == "block_comment"@ {
                    let st1 = push_tok(FmtSt { last: n as usize, ..st }, OutputToken::Space);
                    head_of(push_tok(st1, OutputToken::BlockComment(n as usize)), true, false, false, false)
                } else if k == "\n"@ {
                    head_of(st, true, false, false, false)
                } else if k == ":"@ || k == "source_file"@ || k == "code_block_end"@ {
                    head_of(st, false, false, false, false)
                } else if k == "("@ {
                    head_of(FmtSt { bracket_depth: st.bracket_depth.wrapping_add(1), ..st }, false, false, false, false)
                } else if k == ")"@ {
                    head_of(FmtSt { bracket_depth: st.bracket_depth.saturating_sub(1), ..st }, false, false, false, false)
                } else if st.bracket_depth != 0 {
                    head_of(st, false, false, false, false)
                } else {
                    let space = !is_newline_tok(last_tok(st.out)) && !starts_with_bytes(
                        t.nodes@[n as int].kind.spec_bytes(),
                        "directive".spec_bytes(),
                    ) && k != "define_typ"@ && !last_is_dot;
                    head_of(if space { push_tok(st, OutputToken::Space) } else { st }, false, false, false, false)
                };
                &&& final(self).st() == h.st
                &&& r.stop == h.stop
                &&& r.binary == h.binary
                &&& r.side == h.side
                &&& r.delay == h.delay
            }),
    {
        let flags = HeadFlags { stop: false, binary: false, side: false, delay: false };
        let stop = HeadFlags { stop: true, ..flags };
        if self.kind_is(n, ",") {
            stop
        } else if (self.kind_is(n, "+") || self.kind_is(n, "-") || self.kind_is(n, "/")
            || self.kind_is(n, "*") || self.kind_is(n, "<<") || self.kind_is(n, ">>"))
            && self.parent_kind_is(n, "binary_expression") {
            HeadFlags { binary: true, ..flags }
        } else if self.kind_is(n, "mov_source") {
            let len = self.out.len();
            let comma2 = len >= 2 && matches!(self.out[len - 2], OutputToken::Comma);
            let comma3 = len >= 3 && matches!(self.out[len - 3], OutputToken::Comma);
            if !comma2 && !comma3 {
                self.push(OutputToken::Comma);
            }
            flags
        } else if self.kind_is(n, "comment") {
            if self.newlines_between(self.last, n) > 0 {
                let row = self.tree.nodes[n].start_point.row;
                self.push(OutputToken::NewLine(row));
            }
            flags
        } else if self.kind_is(n, "line_comment") {
            let space = !(self.out.len() == 0 || self.last_is_newline());
            self.last = n;
            if space {
                self.push(OutputToken::Space);
            }
            self.push(OutputToken::LineComment(n));
            stop
        } else if self.kind_is(n, "block_comment") {
            self.last = n;
            self.push(OutputToken::Space);
            self.push(OutputToken::BlockComment(n));
            stop
        } else if self.kind_is(n, "\n") {
            stop
        } else if self.kind_is(n, ":") || self.kind_is(n, "source_file") || self.kind_is(
            n,
            "code_block_end",
        ) {
            flags
        } else if self.kind_is(n, "(") {
            self.bracket_depth = self.bracket_depth.wrapping_add(1);
            flags
        } else if self.kind_is(n, ")") {
            self.bracket_depth = self.bracket_depth.saturating_sub(1);
            flags
        } else if self.bracket_depth != 0 {
            flags
        } else {
            let space = !self.last_is_newline() && !crate::text::str_starts_with(
                self.tree.nodes[n].kind,
                "directive",
            ) && !self.kind_is(n, "define_typ") && !last_is_dot;
            if space {
                self.push(OutputToken::Space);
            }
            flags
        }
    }
}

} // verus!

verus! {

impl<'a> Formatter<'a> {
    /// Walks node `n` (found under `field` in its parent) and its subtree.
    fn emit(&mut self, n: usize, field: Option<&'static str>)
        requires
            old(self).inv(),
            n < old(self).tree.len(),
        ensures
            final(self).inv(),
            final(self).tree == old(self).tree,
            final(self).src == old(self).src,
            final(self).st() == emit_spec(*old(self).tree, old(self).src@, old(self).st(), n as int, field),
        decreases old(self).tree.len() - n,
    {
        let ghost t = *self.tree;
        let ghost src = self.src@;
        assert(t.wf_links());
        let h = self.head(n, field);
        if h.stop {
            return;
        }
        self.last = n;
        if !self.kind_is(n, "comment") {
            self.last_non_comment = n;
        }
        let cc = self.tree.nodes[n].children.len();
        if cc == 0 {
            self.leaf(n, h.binary);
        } else {
            let swap = self.side_delay_swap(n);
            let ghost sw = side_delay_swap(t, n as int);
            let ghost st1 = self.st();
            let mut i: usize = 0;
            while i < cc
                invariant
                    self.inv(),
                    *self.tree == t,
                    *old(self).tree == t,
                    self.src@ == src,
                    t.wf_links(),
                    n < t.len(),
                    i <= cc == t.nodes@[n as int].children@.len(),
                    swap matches Some((s, d)) ==> sw == Some((s as int, d as int)) && s < cc && d < cc,
                    swap is None ==> sw is None,
                    emit_children(t, src, st1, n as int, 0, sw) == emit_children(
                        t,
                        src,
                        self.st(),
                        n as int,
                        i as int,
                        sw,
                    ),
                decreases cc - i,
            {
                let c = self.tree.nodes[n].children[i];
                assert(c < t.len() && c > n);
                let f = self.tree.nodes[c].field_name;
                match swap {
                    Some((s, d)) => {
                        let is_side = match f {
                            Some(x) => str_eq(x, "side"),
                            None => false,
                        };
                        let is_delay = match f {
                            Some(x) => str_eq(x, "delay"),
                            None => false,
                        };
                        if is_side {
                            let dn = self.tree.nodes[n].children[d];
                            assert(dn < t.len() && dn > n);
                            assert(self.tree.len() - dn < t.len() - n);
                            self.emit(dn, Some("delay"));
                        } else if is_delay {
                            let sn = self.tree.nodes[n].children[s];
                            assert(sn < t.len() && sn > n);
                            assert(self.tree.len() - sn < t.len() - n);
                            self.emit(sn, Some("side"));
                        } else {
                            assert(self.tree.len() - c < t.len() - n);
                            self.emit(c, f);
                        }
                    },
                    None => {
                        assert(self.tree.len() - c < t.len() - n);
                        self.emit(c, f);
                    },
                }
                i = i + 1;
            }
        }
        if h.side {
            self.push(OutputToken::SideEnd);
        }
        if h.delay {
            self.push(OutputToken::DelayEnd);
        }
    }

    /// The tokens after walking the whole tree.
    fn into_tokens(self) -> (r: Vec<OutputToken>)
        requires
            self.inv(),
        ensures
            r@ == self.st().out,
            tokens_ok(self.tree_spec(), self.src_spec(), r@),
    {
        self.out
    }
}

/// The tokens the walk over the whole tree produces.
pub open spec fn format_tokens(t: SyntaxTree, src: Seq<u8>) -> Seq<OutputToken> {
    emit_spec(
        t,
        src,
        FmtSt { out: Seq::empty(), last: 0, last_non_comment: 0, bracket_depth: 0 },
        0,
        None,
    ).out
}

/// The formatted text, as bytes.
pub open spec fn format_bytes(t: SyntaxTree, src: Seq<u8>) -> Seq<u8> {
    finish_spec(t, src, format_tokens(t, src))
}

} // verus!

verus! {

broadcast use vstd::utf8::valid_utf8_concat;

pub open spec fn line_valid(l: LineSt) -> bool {
    &&& vstd::utf8::valid_utf8(l.text)
    &&& vstd::utf8::valid_utf8(opt_bytes(l.side))
    &&& vstd::utf8::valid_utf8(opt_bytes(l.delay))
}

proof fn lemma_spaces_valid(n: nat)
    ensures
        vstd::utf8::valid_utf8(spaces(n)),
{
    crate::text::lemma_ascii_valid_utf8(spaces(n));
}

proof fn lemma_with_space_valid(s: Seq<u8>)
    requires
        vstd::utf8::valid_utf8(s),
    ensures
        vstd::utf8::valid_utf8(with_space(s)),
{
    crate::text::lemma_ascii_valid_utf8(seq![32u8]);
    assert(s.push(32u8) =~= s + seq![32u8]);
}

proof fn lemma_push_text_valid(l: LineSt, s: Seq<u8>)
    requires
        line_valid(l),
        vstd::utf8::valid_utf8(s),
    ensures
        line_valid(line_push_text(l, s)),
{
}

proof fn lemma_node_text_valid(t: SyntaxTree, src: Seq<u8>, n: int)
    requires
        t.wf_text(src),
        vstd::utf8::valid_utf8(src),
        0 <= n < t.len(),
    ensures
        vstd::utf8::valid_utf8(node_text(t, src, n)),
{
    let node = t.nodes@[n];
    crate::text::lemma_subrange_valid_utf8(src, node.start_byte as int, node.end_byte as int);
}

proof fn lemma_fold_valid(t: SyntaxTree, src: Seq<u8>, toks: Seq<OutputToken>)
    requires
        t.wf_text(src),
        vstd::utf8::valid_utf8(src),
        tokens_ok(t, src, toks),
    ensures
        forall|j: int|
            0 <= j < fin_fold(t, src, toks).lines.len() ==> line_valid(
                #[trigger] fin_fold(t, src, toks).lines[j],
            ),
        line_valid(cur_line(fin_fold(t, src, toks).cur)),
    decreases toks.len(),
{
    if toks.len() == 0 {
        assert(vstd::utf8::valid_utf8(Seq::<u8>::empty()));
    } else {
        let p = toks.drop_last();
        assert(tokens_ok(t, src, p)) by {
            assert forall|i: int| 0 <= i < p.len() implies match #[trigger] p[i] {
                OutputToken::Leaf { start, end, lower } => start <= end <= src.len()
                    && vstd::utf8::is_char_boundary(src, start as int)
                    && vstd::utf8::is_char_boundary(src, end as int),
                OutputToken::LineComment(n) => n < t.len(),
                OutputToken::BlockComment(n) => n < t.len(),
                _ => true,
            } by {
                assert(p[i] == toks[i]);
            }
        }
        lemma_fold_valid(t, src, p);
        let st = fin_fold(t, src, p);
        let c = cur_line(st.cur);
        let tok = toks[toks.len() - 1];
        assert(match tok {
            OutputToken::Leaf { start, end, lower } => start <= end <= src.len()
                && vstd::utf8::is_char_boundary(src, start as int)
                && vstd::utf8::is_char_boundary(src, end as int),
            OutputToken::LineComment(n) => n < t.len(),
            OutputToken::BlockComment(n) => n < t.len(),
            _ => true,
        });
        match tok {
            OutputToken::Leaf { start, end, lower } => {
                crate::text::lemma_subrange_valid_utf8(src, start as int, end as int);
                if lower {
                    crate::text::lemma_lower_valid_utf8(src.subrange(start as int, end as int));
                }
                lemma_push_text_valid(c, leaf_bytes(src, start, end, lower));
            },
            OutputToken::NewLine(_) => {
                lemma_spaces_valid(4 * st.indent as nat);
                assert(vstd::utf8::valid_utf8(Seq::<u8>::empty()));
                let f = fin_fold(t, src, toks);
                assert forall|j: int| 0 <= j < f.lines.len() implies line_valid(
                    #[trigger] f.lines[j],
                ) by {
                    if j < st.lines.len() {
                        assert(f.lines[j] == st.lines[j]);
                    }
                }
            },
            OutputToken::Space => {
                lemma_with_space_valid(opt_bytes(c.side));
                lemma_with_space_valid(opt_bytes(c.delay));
                lemma_with_space_valid(c.text);
            },
            OutputToken::Comma => {
                crate::text::lemma_ascii_valid_utf8(comma_bytes());
            },
            OutputToken::Tab => {
                lemma_spaces_valid(4);
            },
            OutputToken::BlockComment(n) => {
                lemma_node_text_valid(t, src, n as int);
            },
            OutputToken::SideStart => {
                crate::text::lemma_ascii_valid_utf8(side_bytes());
                assert(vstd::utf8::valid_utf8(Seq::<u8>::empty()));
                lemma_push_text_valid(LineSt { reading_side: true, ..c }, side_bytes());
            },
            _ => {},
        }
    }
}

proof fn lemma_join_valid(lines: Seq<LineSt>)
    requires
        forall|j: int| 0 <= j < lines.len() ==> vstd::utf8::valid_utf8(#[trigger] lines[j].text),
    ensures
        vstd::utf8::valid_utf8(join_lines(lines)),
    decreases lines.len(),
{
    if lines.len() == 0 {
        assert(vstd::utf8::valid_utf8(Seq::<u8>::empty()));
    } else {
        let p = lines.drop_last();
        assert forall|j: int| 0 <= j < p.len() implies vstd::utf8::valid_utf8(#[trigger] p[j].text) by {
            assert(p[j] == lines[j]);
        }
        lemma_join_valid(p);
        crate::text::lemma_ascii_valid_utf8(seq![10u8]);
        assert(lines.last().text.push(10u8) =~= lines.last().text + seq![10u8]);
        assert(vstd::utf8::valid_utf8(lines[lines.len() - 1].text));
        vstd::utf8::valid_utf8_concat(lines.last().text, seq![10u8]);
        vstd::utf8::valid_utf8_concat(join_lines(p), lines.last().text.push(10u8));
    }
}

/// The formatted bytes of valid UTF-8 text are valid UTF-8.
proof fn lemma_finish_valid(t: SyntaxTree, src: Seq<u8>, toks: Seq<OutputToken>)
    requires
        t.wf_text(src),
        vstd::utf8::valid_utf8(src),
        tokens_ok(t, src, toks),
    ensures
        vstd::utf8::valid_utf8(finish_spec(t, src, toks)),
{
    let toks1 = with_final_newline(toks);
    assert(tokens_ok(t, src, toks1)) by {
        assert forall|i: int| 0 <= i < toks1.len() implies match #[trigger] toks1[i] {
            OutputToken::Leaf { start, end, lower } => start <= end <= src.len()
                && vstd::utf8::is_char_boundary(src, start as int)
                && vstd::utf8::is_char_boundary(src, end as int),
            OutputToken::LineComment(n) => n < t.len(),
            OutputToken::BlockComment(n) => n < t.len(),
            _ => true,
        } by {
            if i < toks.len() {
                assert(toks1[i] == toks[i]);
            }
        }
    }
    lemma_fold_valid(t, src, toks1);
    lemma_fold_comments(t, src, toks1);
    let lines0 = fin_fold(t, src, toks1).lines;
    let m1 = sat_add(max_instr_width(lines0, lines0.len() as int) as int, 1);
    let lines1 = lines0.map_values(|l: LineSt| place_side(l, m1));
    let m2 = max_side_width(lines0, m1, lines0.len() as int);
    let lines2 = lines1.map_values(|l: LineSt| place_delay(l, m2));
    let m3 = max_delay_width(lines1, m2, lines1.len() as int);
    let lines3 = lines2.map_values(|l: LineSt| place_comment(t, src, l, m3));
    assert forall|j: int| 0 <= j < lines3.len() implies vstd::utf8::valid_utf8(
        #[trigger] lines3[j].text,
    ) by {
        let l0 = lines0[j];
        assert(line_valid(l0));
        assert(comments_ok(t, l0));
        let sp1 = spaces(sat_add(m1 - l0.text.len(), 1) as nat);
        lemma_spaces_valid(sat_add(m1 - l0.text.len(), 1) as nat);
        vstd::utf8::valid_utf8_concat(l0.text, sp1);
        vstd::utf8::valid_utf8_concat(l0.text + sp1, opt_bytes(l0.side));
        let l1 = lines1[j];
        assert(l1 == place_side(l0, m1));
        assert(line_valid(l1));
        let sp2 = spaces(sat_add(m2 - l1.text.len(), 1) as nat);
        lemma_spaces_valid(sat_add(m2 - l1.text.len(), 1) as nat);
        vstd::utf8::valid_utf8_concat(l1.text, sp2);
        vstd::utf8::valid_utf8_concat(l1.text + sp2, opt_bytes(l1.delay));
        let l2 = lines2[j];
        assert(l2 == place_delay(l1, m2));
        assert(vstd::utf8::valid_utf8(l2.text));
        assert(l2.line_comment == l0.line_comment);
        match l2.line_comment {
            Some(n) => {
                lemma_node_text_valid(t, src, n as int);
                let ct = node_text(t, src, n as int);
                let target: int = if l2.is_instruction && ct.len() > 0 && ct[0] == 59u8 {
                    sat_add(m3 as int, 1) as int
                } else {
                    t.nodes@[n as int].start_point.column as int
                };
                let pad: nat = if l2.text.len() == 0 || target <= l2.text.len() {
                    0
                } else {
                    (target - l2.text.len()) as nat
                };
                lemma_spaces_valid(pad);
                vstd::utf8::valid_utf8_concat(l2.text, spaces(pad));
                vstd::utf8::valid_utf8_concat(l2.text + spaces(pad), ct);
                assert(lines3[j] == place_comment(t, src, l2, m3));
            },
            None => {
                assert(lines3[j] == place_comment(t, src, l2, m3));
            },
        }
    }
    lemma_join_valid(lines3);
}

/// Formats PIO source `code` by its syntax tree: one statement per line,
/// instructions indented, operands separated by commas, side-set, delay and
/// end of line comments aligned in columns.
pub fn format_tree(code: &str, tree: &SyntaxTree) -> (r: String)
    requires
        tree.wf(code.spec_bytes()),
    ensures
        r@ == vstd::utf8::decode_utf8(format_bytes(*tree, code.spec_bytes())),
        vstd::utf8::encode_utf8(r@) == format_bytes(*tree, code.spec_bytes()),
{
    let src = code.as_bytes();
    let mut fmt = Formatter::new(src, tree);
    fmt.emit(0, None);
    let toks = fmt.into_tokens();
    let ghost tv = toks@;
    let bytes = finish_bytes(tree, src, toks);
    proof {
        vstd::utf8::encode_utf8_valid_utf8(code@);
        lemma_finish_valid(*tree, src@, tv);
        vstd::utf8::decode_utf8_encode_utf8(bytes@);
    }
    match crate::text::string_from_utf8(bytes) {
        Some(s) => s,
        None => {
            assert(false);
            String::new()
        },
    }
}

} // verus!

verus! {

/// Formatted text is never empty and ends with a newline.
pub proof fn formatted_text_ends_with_newline(t: SyntaxTree, src: Seq<u8>)
    ensures
        format_bytes(t, src).len() > 0,
        format_bytes(t, src).last() == 10u8,
{
    let toks = with_final_newline(format_tokens(t, src));
    assert(toks.len() > 0 && toks.last() is NewLine);
    let lines0 = fin_fold(t, src, toks).lines;
    assert(lines0.len() > 0);
    let m1 = sat_add(max_instr_width(lines0, lines0.len() as int) as int, 1);
    let lines1 = lines0.map_values(|l: LineSt| place_side(l, m1));
    let m2 = max_side_width(lines0, m1, lines0.len() as int);
    let lines2 = lines1.map_values(|l: LineSt| place_delay(l, m2));
    let m3 = max_delay_width(lines1, m2, lines1.len() as int);
    let lines3 = lines2.map_values(|l: LineSt| place_comment(t, src, l, m3));
    assert(lines3.len() > 0);
    assert(format_bytes(t, src) == join_lines(lines3));
    assert(join_lines(lines3) == join_lines(lines3.drop_last()) + lines3.last().text.push(10u8));
}

} // verus!

verus! {

/// Pushing a space twice is pushing it once: a part of a line never gets two
/// spaces in a row from spaces alone.
pub proof fn push_space_twice_is_once(l: LineSt)
    ensures
        line_push_space(line_push_space(l)) == line_push_space(l),
{
    let l1 = line_push_space(l);
    if l.reading_side {
        assert(opt_bytes(l1.side) == with_space(opt_bytes(l.side)));
        assert(with_space(with_space(opt_bytes(l.side))) == with_space(opt_bytes(l.side)));
    } else if l.reading_delay {
        assert(with_space(with_space(opt_bytes(l.delay))) == with_space(opt_bytes(l.delay)));
    } else {
        assert(with_space(with_space(l.text)) == with_space(l.text));
    }
}

} // verus!

verus! {

/// Side-set parts line up: on every instruction line that has one, it
/// starts two columns past the widest instruction text (where that column
/// fits in a `usize`).
pub proof fn side_parts_line_up(lines: Seq<LineSt>, k: int)
    requires
        0 <= k < lines.len(),
        lines[k].is_instruction,
        lines[k].side is Some,
        max_instr_width(lines, lines.len() as int) + 2 <= usize::MAX,
    ensures
        ({
            let w = max_instr_width(lines, lines.len() as int);
            let l = lines[k];
            let pad = (w + 2 - l.text.len()) as nat;
            &&& l.text.len() <= w
            &&& place_side(l, sat_add(w as int, 1)).text == l.text + spaces(pad) + l.side->0
            &&& l.text.len() + pad == w + 2
        }),
{
    lemma_max_instr_width(lines, lines.len() as int, k);
    assert(lines[k].text.len() <= usize::MAX) by {
        if lines[k].text.len() > usize::MAX {
            assert(cap(lines[k].text.len() as int) == usize::MAX);
        }
    }
}

/// Delay parts line up: on every instruction line that has one, after the
/// side-set parts are placed at `m1`, it starts one column past the widest
/// line with a side-set part (and at least two past `m1`), where that column
/// fits in a `usize`.
pub proof fn delay_parts_line_up(lines: Seq<LineSt>, m1: usize, k: int)
    requires
        0 <= k < lines.len(),
        lines[k].is_instruction,
        lines[k].delay is Some,
        lines[k].text.len() <= m1,
        max_side_width(lines, m1, lines.len() as int) + 1 <= usize::MAX,
    ensures
        ({
            let m2 = max_side_width(lines, m1, lines.len() as int);
            let l = place_side(lines[k], m1);
            let pad = (m2 + 1 - l.text.len()) as nat;
            &&& l.text.len() <= m2
            &&& place_delay(l, m2).text == l.text + spaces(pad) + l.delay->0
            &&& l.text.len() + pad == m2 + 1
        }),
{
    lemma_max_side_width(lines, m1, lines.len() as int);
    let l = place_side(lines[k], m1);
    let m2 = max_side_width(lines, m1, lines.len() as int);
    if lines[k].side is Some {
        assert(cap(l.text.len() as int) <= m2);
        assert(l.text.len() <= usize::MAX) by {
            if l.text.len() > usize::MAX {
                assert(cap(l.text.len() as int) == usize::MAX);
            }
        }
    }
}

} // verus!

verus! {

/// A leaf is written as its source text: a symbol exactly as written, any
/// other leaf in ASCII lower case. `leaf` adds one token for it (between two
/// spaces for an operator of a binary expression), and that token, laid out
/// on any line, adds exactly that text to the part the line is reading.
pub proof fn leaf_keeps_symbols_as_written(t: SyntaxTree, src: Seq<u8>, st: FmtSt, n: int, binary: bool, fs: FinSt)
    ensures
        ({
            let r = leaf_spec(t, st, n, binary);
            let k: int = if binary { st.out.len() + 1int } else { st.out.len() as int };
            let written = if t.nodes@[n].kind@ == "symbol"@ {
                node_text(t, src, n)
            } else {
                lower_bytes(node_text(t, src, n))
            };
            &&& r.out.len() == k + if binary { 2int } else { 1int }
            &&& r.out.subrange(0, st.out.len() as int) == st.out
            &&& binary ==> r.out[st.out.len() as int] == OutputToken::Space && r.out[k + 1] == OutputToken::Space
            &&& r.out[k] matches OutputToken::Leaf { start, end, lower } && leaf_bytes(src, start, end, lower)
                == written
            &&& fin_step(t, src, fs, r.out[k]).cur == Some(line_push_text(cur_line(fs.cur), written))
        }),
{
    let r = leaf_spec(t, st, n, binary);
    assert(r.out.subrange(0, st.out.len() as int) =~= st.out);
}

} // verus!
