//! Collecting the programs of a PIO document: their instructions, labels,
//! defines and `.wrap` directives, and the inlay hints that show instruction
//! addresses.
use vstd::prelude::*;
use crate::lsp::{point_to_lsp, range_to_lsp, node_range, Position, Range, TsRange};
use crate::text::str_eq;
use vstd::string::StringSliceAdditionalSpecFns;
use crate::tree::{child_by_field_name, child_of_kind, field_child_at, kind_child_at, same_nodes, SyntaxTree};

verus! {

/// A structural match of one of the statements the analysis looks for.
#[derive(Clone, Copy, Debug, PartialEq, Eq)]
pub enum QueryMatch {
    /// a `.program` directive and its name
    Program { statement: usize, name: usize },
    Instruction(usize),
    /// a label definition and its name
    Label { statement: usize, name: usize },
    /// a `.define` with its name and value
    Define { statement: usize, name: usize, value: usize },
    /// the value of a label reference (a jump target)
    LabelRef(usize),
    /// a `.wrap` directive
    Wrap(usize),
    /// a `.wrap_target` directive
    WrapTarget(usize),
}

pub open spec fn kind_is(t: SyntaxTree, n: int, k: &str) -> bool {
    t.nodes@[n].kind@ == k@
}

/// The matches rooted at node `n`: a directive holding `.program` with its
/// name, `.wrap` or `.wrap_target`; an instruction; a label whose name is a
/// symbol; a define whose name is a symbol and which has a value; the value of
/// a label reference.
pub open spec fn node_matches(t: SyntaxTree, n: int) -> Seq<QueryMatch> {
    if kind_is(t, n, "directive") {
        let p0 = match kind_child_at(t, n, "directive_program", 0) {
            Some(c) => match field_child_at(t, c as int, "program_name", 0) {
                Some(g) => seq![QueryMatch::Program { statement: n as usize, name: g }],
                None => Seq::empty(),
            },
            None => Seq::empty(),
        };
        let p5 = if kind_child_at(t, n, "directive_wrap", 0) is Some {
            seq![QueryMatch::Wrap(n as usize)]
        } else {
            Seq::empty()
        };
        let p6 = if kind_child_at(t, n, "directive_wrap_target", 0) is Some {
            seq![QueryMatch::WrapTarget(n as usize)]
        } else {
            Seq::empty()
        };
        p0 + p5 + p6
    } else if kind_is(t, n, "instruction") {
        seq![QueryMatch::Instruction(n as usize)]
    } else if kind_is(t, n, "label") {
        match field_child_at(t, n, "label", 0) {
            Some(c) => if kind_is(t, c as int, "symbol") {
                seq![QueryMatch::Label { statement: n as usize, name: c }]
            } else {
                Seq::empty()
            },
            None => Seq::empty(),
        }
    } else if kind_is(t, n, "define") {
        match (field_child_at(t, n, "define_symbol", 0), field_child_at(t, n, "define_value", 0)) {
            (Some(s), Some(v)) => if kind_is(t, s as int, "symbol") {
                seq![QueryMatch::Define { statement: n as usize, name: s, value: v }]
            } else {
                Seq::empty()
            },
            _ => Seq::empty(),
        }
    } else if kind_is(t, n, "label_reference") {
        match kind_child_at(t, n, "value", 0) {
            Some(v) => seq![QueryMatch::LabelRef(v)],
            None => Seq::empty(),
        }
    } else {
        Seq::empty()
    }
}

/// The matches of the first `k` nodes, in document order.
pub open spec fn matches_upto(t: SyntaxTree, k: int) -> Seq<QueryMatch>
    decreases k,
{
    if k <= 0 {
        Seq::empty()
    } else {
        matches_upto(t, k - 1) + node_matches(t, k - 1)
    }
}

pub open spec fn all_matches(t: SyntaxTree) -> Seq<QueryMatch> {
    matches_upto(t, t.len())
}

/// The nodes a match refers to are nodes of the tree.
pub open spec fn match_ok(t: SyntaxTree, m: QueryMatch) -> bool {
    match m {
        QueryMatch::Program { statement, name } => statement < t.len() && name < t.len(),
        QueryMatch::Instruction(n) => n < t.len(),
        QueryMatch::Label { statement, name } => statement < t.len() && name < t.len(),
        QueryMatch::Define { statement, name, value } => statement < t.len() && name < t.len()
            && value < t.len(),
        QueryMatch::LabelRef(n) => n < t.len(),
        QueryMatch::Wrap(n) => n < t.len(),
        QueryMatch::WrapTarget(n) => n < t.len(),
    }
}

fn push_node_matches(t: &SyntaxTree, n: usize, out: &mut Vec<QueryMatch>)
    requires
        t.wf_links(),
        n < t.len(),
    ensures
        final(out)@ == old(out)@ + node_matches(*t, n as int),
{
    let k = t.nodes[n].kind;
    if str_eq(k, "directive") {
        let ghost o = out@;
        let mut p0: Vec<QueryMatch> = Vec::new();
        if let Some(c) = child_of_kind(t, n, "directive_program") {
            if let Some(g) = child_by_field_name(t, c, "program_name") {
                p0.push(QueryMatch::Program { statement: n, name: g });
            }
        }
        let w = child_of_kind(t, n, "directive_wrap");
        let wt = child_of_kind(t, n, "directive_wrap_target");
        out.append(&mut p0);
        if w.is_some() {
            out.push(QueryMatch::Wrap(n));
        }
        if wt.is_some() {
            out.push(QueryMatch::WrapTarget(n));
        }
        proof {
            let nm = node_matches(*t, n as int);
            assert(out@ =~= o + nm);
        }
    } else if str_eq(k, "instruction") {
        out.push(QueryMatch::Instruction(n));
    } else if str_eq(k, "label") {
        if let Some(c) = child_by_field_name(t, n, "label") {
            if str_eq(t.nodes[c].kind, "symbol") {
                out.push(QueryMatch::Label { statement: n, name: c });
            } else {
                assert(out@ =~= out@ + Seq::<QueryMatch>::empty());
            }
        } else {
            assert(out@ =~= out@ + Seq::<QueryMatch>::empty());
        }
    } else if str_eq(k, "define") {
        let s = child_by_field_name(t, n, "define_symbol");
        let v = child_by_field_name(t, n, "define_value");
        match (s, v) {
            (Some(s), Some(v)) => {
                if str_eq(t.nodes[s].kind, "symbol") {
                    out.push(QueryMatch::Define { statement: n, name: s, value: v });
                } else {
                    assert(out@ =~= out@ + Seq::<QueryMatch>::empty());
                }
            },
            _ => {
                assert(out@ =~= out@ + Seq::<QueryMatch>::empty());
            },
        }
    } else if str_eq(k, "label_reference") {
        if let Some(v) = child_of_kind(t, n, "value") {
            out.push(QueryMatch::LabelRef(v));
        } else {
            assert(out@ =~= out@ + Seq::<QueryMatch>::empty());
        }
    } else {
        assert(out@ =~= out@ + Seq::<QueryMatch>::empty());
    }
}

proof fn lemma_field_child_at(t: SyntaxTree, n: int, name: &str, i: int)
    requires
        t.wf_links(),
        0 <= n < t.len(),
        0 <= i,
    ensures
        field_child_at(t, n, name, i) matches Some(c) ==> n < c < t.len(),
    decreases t.nodes@[n].children@.len() - i,
{
    if i < t.nodes@[n].children@.len() {
        lemma_field_child_at(t, n, name, i + 1);
    }
}

proof fn lemma_kind_child_at(t: SyntaxTree, n: int, kind: &str, i: int)
    requires
        t.wf_links(),
        0 <= n < t.len(),
        0 <= i,
    ensures
        kind_child_at(t, n, kind, i) matches Some(c) ==> n < c < t.len(),
    decreases t.nodes@[n].children@.len() - i,
{
    if i < t.nodes@[n].children@.len() {
        lemma_kind_child_at(t, n, kind, i + 1);
    }
}

/// Every match refers to nodes of the tree.
pub proof fn lemma_matches_ok(t: SyntaxTree, k: int)
    requires
        t.wf_links(),
        0 <= k <= t.len(),
    ensures
        forall|i: int| 0 <= i < matches_upto(t, k).len() ==> match_ok(t, #[trigger] matches_upto(t, k)[i]),
    decreases k,
{
    if k > 0 {
        lemma_matches_ok(t, k - 1);
        let n = k - 1;
        lemma_field_child_at(t, n, "program_name", 0);
        lemma_field_child_at(t, n, "label", 0);
        lemma_field_child_at(t, n, "define_symbol", 0);
        lemma_field_child_at(t, n, "define_value", 0);
        lemma_kind_child_at(t, n, "value", 0);
        match kind_child_at(t, n, "directive_program", 0) {
            Some(c) => {
                lemma_kind_child_at(t, n, "directive_program", 0);
                lemma_field_child_at(t, c as int, "program_name", 0);
            },
            None => {},
        }
        let a = matches_upto(t, k - 1);
        let b = node_matches(t, n);
        assert forall|i: int| 0 <= i < matches_upto(t, k).len() implies match_ok(
            t,
            #[trigger] matches_upto(t, k)[i],
        ) by {
            if i < a.len() {
                assert(matches_upto(t, k)[i] == a[i]);
            } else {
                assert(matches_upto(t, k)[i] == b[i - a.len()]);
            }
        }
    }
}

/// The statements the analysis looks for, in document order.
pub fn collect_matches(t: &SyntaxTree) -> (r: Vec<QueryMatch>)
    requires
        t.wf_links(),
    ensures
        r@ == all_matches(*t),
{
    let mut out: Vec<QueryMatch> = Vec::new();
    let mut n: usize = 0;
    while n < t.nodes.len()
        invariant
            t.wf_links(),
            n <= t.len(),
            out@ == matches_upto(*t, n as int),
        decreases t.len() - n,
    {
        push_node_matches(t, n, &mut out);
        n = n + 1;
    }
    out
}

} // verus!

verus! {

/// A `.define` statement: the ranges of the statement, its name and value.
#[derive(Clone, Copy, Debug, PartialEq, Eq)]
pub struct ProgramDefine {
    pub statement_range: TsRange,
    pub name_range: TsRange,
    pub value_range: TsRange,
}

/// A label: where it is defined, the address of the instruction it names,
/// and the places that refer to it.
#[derive(Debug)]
pub struct ProgramLabel {
    pub statement_range: TsRange,
    pub name_range: TsRange,
    pub instr_pc: u8,
    pub references: Vec<Range>,
}

/// One `.program`: its instruction count, defines, labels and wrap points.
#[derive(Debug)]
pub struct ProgramInfo {
    pub statement_range: Range,
    pub instr_count: u8,
    /// defines by name, each name once
    pub defines: Vec<(Vec<u8>, ProgramDefine)>,
    /// labels by name, each name once
    pub labels: Vec<(Vec<u8>, ProgramLabel)>,
    pub wrap: Option<Range>,
    pub wrap_target: Option<Range>,
}

/// The programs of a document by name, and the defines before the first
/// program.
#[derive(Debug)]
pub struct Programs {
    pub programs: Vec<(Vec<u8>, ProgramInfo)>,
    pub global_defines: Vec<(Vec<u8>, ProgramDefine)>,
}

#[derive(Clone, Copy, Debug, PartialEq, Eq)]
pub enum InlayHintKind {
    Type,
    Parameter,
}

/// A hint shown inline in the editor.
#[derive(Debug)]
pub struct InlayHint {
    pub position: Position,
    pub label: String,
    pub kind: InlayHintKind,
    pub padding_left: bool,
    pub padding_right: bool,
}

pub struct LabelSt {
    pub statement_range: TsRange,
    pub name_range: TsRange,
    pub instr_pc: u8,
    pub references: Seq<Range>,
}

pub struct InfoSt {
    pub statement_range: Range,
    pub instr_count: u8,
    pub defines: Seq<(Seq<u8>, ProgramDefine)>,
    pub labels: Seq<(Seq<u8>, LabelSt)>,
    pub wrap: Option<Range>,
    pub wrap_target: Option<Range>,
}

pub struct HintSt {
    pub position: Position,
    pub label: Seq<char>,
    pub kind: InlayHintKind,
    pub padding_left: bool,
    pub padding_right: bool,
}

impl ProgramLabel {
    pub open spec fn st(&self) -> LabelSt {
        LabelSt {
            statement_range: self.statement_range,
            name_range: self.name_range,
            instr_pc: self.instr_pc,
            references: self.references@,
        }
    }
}

pub open spec fn labels_st(v: Seq<(Vec<u8>, ProgramLabel)>) -> Seq<(Seq<u8>, LabelSt)> {
    v.map_values(|e: (Vec<u8>, ProgramLabel)| (e.0@, e.1.st()))
}

pub open spec fn defines_st(v: Seq<(Vec<u8>, ProgramDefine)>) -> Seq<(Seq<u8>, ProgramDefine)> {
    v.map_values(|e: (Vec<u8>, ProgramDefine)| (e.0@, e.1))
}

impl ProgramInfo {
    pub open spec fn st(&self) -> InfoSt {
        InfoSt {
            statement_range: self.statement_range,
            instr_count: self.instr_count,
            defines: defines_st(self.defines@),
            labels: labels_st(self.labels@),
            wrap: self.wrap,
            wrap_target: self.wrap_target,
        }
    }
}

pub open spec fn programs_st(v: Seq<(Vec<u8>, ProgramInfo)>) -> Seq<(Seq<u8>, InfoSt)> {
    v.map_values(|e: (Vec<u8>, ProgramInfo)| (e.0@, e.1.st()))
}

impl InlayHint {
    pub open spec fn st(&self) -> HintSt {
        HintSt {
            position: self.position,
            label: self.label@,
            kind: self.kind,
            padding_left: self.padding_left,
            padding_right: self.padding_right,
        }
    }
}

pub open spec fn hints_st(v: Seq<InlayHint>) -> Seq<HintSt> {
    v.map_values(|h: InlayHint| h.st())
}

/// The position of the first entry with key `k`.
pub open spec fn key_index<V>(s: Seq<(Seq<u8>, V)>, k: Seq<u8>) -> Option<int>
    decreases s.len(),
{
    if s.len() == 0 {
        None
    } else {
        match key_index(s.drop_last(), k) {
            Some(i) => Some(i),
            None => if s.last().0 == k { Some(s.len() - 1) } else { None },
        }
    }
}

/// The value under key `k`.
pub open spec fn assoc_get<V>(s: Seq<(Seq<u8>, V)>, k: Seq<u8>) -> Option<V> {
    match key_index(s, k) {
        Some(i) => Some(s[i].1),
        None => None,
    }
}

/// `s` with `k` mapped to `v`: the entry replaced where `k` is a key, added
/// at the end otherwise.
pub open spec fn assoc_insert<V>(s: Seq<(Seq<u8>, V)>, k: Seq<u8>, v: V) -> Seq<(Seq<u8>, V)> {
    match key_index(s, k) {
        Some(i) => s.update(i, (k, v)),
        None => s.push((k, v)),
    }
}

pub proof fn lemma_key_index<V>(s: Seq<(Seq<u8>, V)>, k: Seq<u8>)
    ensures
        key_index(s, k) matches Some(i) ==> 0 <= i < s.len() && s[i].0 == k && forall|j: int|
            0 <= j < i ==> s[j].0 != k,
        key_index(s, k) is None ==> forall|j: int| 0 <= j < s.len() ==> s[j].0 != k,
    decreases s.len(),
{
    if s.len() > 0 {
        let p = s.drop_last();
        lemma_key_index(p, k);
        assert forall|j: int| 0 <= j < p.len() implies p[j] == s[j] by {}
    }
}

pub proof fn lemma_key_index_unique<V>(s: Seq<(Seq<u8>, V)>, k: Seq<u8>, i: int)
    requires
        0 <= i < s.len(),
        s[i].0 == k,
        forall|j: int| 0 <= j < i ==> s[j].0 != k,
    ensures
        key_index(s, k) == Some(i),
{
    lemma_key_index(s, k);
}

/// The first position in `v` whose key is `k`.
pub fn find_key<V>(v: &Vec<(Vec<u8>, V)>, k: &[u8]) -> (r: Option<usize>)
    ensures
        r matches Some(i) ==> key_index(v@.map_values(|e: (Vec<u8>, V)| (e.0@, ())), k@) == Some(i as int),
        r is None ==> key_index(v@.map_values(|e: (Vec<u8>, V)| (e.0@, ())), k@) is None,
        r matches Some(i) ==> i < v@.len(),
{
    let ghost ks = v@.map_values(|e: (Vec<u8>, V)| (e.0@, ()));
    let mut i: usize = 0;
    while i < v.len()
        invariant
            i <= v@.len(),
            ks == v@.map_values(|e: (Vec<u8>, V)| (e.0@, ())),
            forall|j: int| 0 <= j < i ==> ks[j].0 != k@,
        decreases v@.len() - i,
    {
        if crate::text::bytes_eq(v[i].0.as_slice(), k) {
            proof {
                lemma_key_index_unique(ks, k@, i as int);
            }
            return Some(i);
        }
        i = i + 1;
    }
    proof {
        lemma_key_index(ks, k@);
        if key_index(ks, k@) is Some {
            let j = key_index(ks, k@)->0;
            assert(ks[j].0 != k@);
        }
    }
    None
}

/// Key positions do not depend on the values.
pub proof fn lemma_key_index_values<V, W>(s: Seq<(Seq<u8>, V)>, t: Seq<(Seq<u8>, W)>, k: Seq<u8>)
    requires
        s.len() == t.len(),
        forall|j: int| 0 <= j < s.len() ==> s[j].0 == t[j].0,
    ensures
        key_index(s, k) == key_index(t, k),
    decreases s.len(),
{
    if s.len() > 0 {
        lemma_key_index_values(s.drop_last(), t.drop_last(), k);
    }
}

} // verus!

verus! {

/// The state of the analysis while it walks the matches.
pub struct AnSt {
    pub programs: Seq<(Seq<u8>, InfoSt)>,
    pub globals: Seq<(Seq<u8>, ProgramDefine)>,
    pub hints: Seq<HintSt>,
    /// the program being read, by name
    pub program: Option<(Seq<u8>, InfoSt)>,
    /// labels waiting for the instruction they name: name, statement, name range
    pub pending: Seq<(Seq<u8>, TsRange, TsRange)>,
    /// label references: the value node and the program it is in
    pub refs: Seq<(usize, Seq<u8>)>,
    /// the address of the next instruction
    pub pc: u8,
}

pub open spec fn node_bytes(t: SyntaxTree, src: Seq<u8>, n: int) -> Seq<u8> {
    src.subrange(t.nodes@[n].start_byte as int, t.nodes@[n].end_byte as int)
}

pub open spec fn info_new(r: Range) -> InfoSt {
    InfoSt {
        statement_range: r,
        instr_count: 0,
        defines: Seq::empty(),
        labels: Seq::empty(),
        wrap: None,
        wrap_target: None,
    }
}

/// "<n> instructions" after the `.program` statement.
pub open spec fn prog_hint(v: InfoSt) -> HintSt {
    HintSt {
        position: v.statement_range.end,
        label: vstd::utf8::decode_utf8(
            crate::text::dec_digits(v.instr_count as nat) + " instructions".spec_bytes(),
        ),
        kind: InlayHintKind::Parameter,
        padding_left: true,
        padding_right: false,
    }
}

/// "<pc>:" (two digits at least) before an instruction.
pub open spec fn pc_hint(pos: Position, pc: u8) -> HintSt {
    HintSt {
        position: pos,
        label: vstd::utf8::decode_utf8(crate::text::dec_digits2(pc as nat) + ":".spec_bytes()),
        kind: InlayHintKind::Type,
        padding_left: false,
        padding_right: true,
    }
}

/// "<pc>" (two digits at least) after a jump target.
pub open spec fn ref_hint(pos: Position, pc: u8) -> HintSt {
    HintSt {
        position: pos,
        label: vstd::utf8::decode_utf8(crate::text::dec_digits2(pc as nat)),
        kind: InlayHintKind::Type,
        padding_left: true,
        padding_right: true,
    }
}

/// The waiting labels entered into `labels`, naming instruction `pc`.
pub open spec fn insert_pending(
    labels: Seq<(Seq<u8>, LabelSt)>,
    pending: Seq<(Seq<u8>, TsRange, TsRange)>,
    pc: u8,
) -> Seq<(Seq<u8>, LabelSt)>
    decreases pending.len(),
{
    if pending.len() == 0 {
        labels
    } else {
        let p = pending.last();
        assoc_insert(
            insert_pending(labels, pending.drop_last(), pc),
            p.0,
            LabelSt { statement_range: p.1, name_range: p.2, instr_pc: pc, references: Seq::empty() },
        )
    }
}

/// One match applied to the analysis state.
pub open spec fn an_step(t: SyntaxTree, src: Seq<u8>, s: AnSt, m: QueryMatch) -> AnSt {
    match m {
        QueryMatch::Program { statement, name } => {
            let s1 = match s.program {
                Some((on, ov)) => AnSt {
                    hints: s.hints.push(prog_hint(ov)),
                    programs: assoc_insert(s.programs, on, ov),
                    ..s
                },
                None => s,
            };
            AnSt {
                program: Some(
                    (
                        node_bytes(t, src, name as int),
                        info_new(range_to_lsp(node_range(t, statement as int))),
                    ),
                ),
                pc: 0,
                ..s1
            }
        },
        QueryMatch::Instruction(n) => match s.program {
            Some((pn, v)) => AnSt {
                program: Some(
                    (
                        pn,
                        InfoSt {
                            instr_count: v.instr_count.wrapping_add(1),
                            labels: insert_pending(v.labels, s.pending, s.pc),
                            ..v
                        },
                    ),
                ),
                pending: Seq::empty(),
                hints: s.hints.push(pc_hint(point_to_lsp(t.nodes@[n as int].start_point), s.pc)),
                pc: s.pc.wrapping_add(1),
                ..s
            },
            None => s,
        },
        QueryMatch::Label { statement, name } => AnSt {
            pending: s.pending.push(
                (
                    node_bytes(t, src, name as int),
                    node_range(t, statement as int),
                    node_range(t, name as int),
                ),
            ),
            ..s
        },
        QueryMatch::Define { statement, name, value } => {
            let pd = ProgramDefine {
                statement_range: node_range(t, statement as int),
                name_range: node_range(t, name as int),
                value_range: node_range(t, value as int),
            };
            let nm = node_bytes(t, src, name as int);
            match s.program {
                Some((pn, v)) => AnSt {
                    program: Some((pn, InfoSt { defines: assoc_insert(v.defines, nm, pd), ..v })),
                    ..s
                },
                None => AnSt { globals: assoc_insert(s.globals, nm, pd), ..s },
            }
        },
        QueryMatch::LabelRef(n) => match s.program {
            Some((p, _)) => AnSt { refs: s.refs.push((n, p)), ..s },
            None => s,
        },
        QueryMatch::Wrap(n) => match s.program {
            Some((pn, v)) => AnSt {
                program: Some(
                    (pn, InfoSt { wrap: Some(range_to_lsp(node_range(t, n as int))), ..v }),
                ),
                ..s
            },
            None => s,
        },
        QueryMatch::WrapTarget(n) => match s.program {
            Some((pn, v)) => AnSt {
                program: Some(
                    (pn, InfoSt { wrap_target: Some(range_to_lsp(node_range(t, n as int))), ..v }),
                ),
                ..s
            },
            None => s,
        },
    }
}

pub open spec fn an_init() -> AnSt {
    AnSt {
        programs: Seq::empty(),
        globals: Seq::empty(),
        hints: Seq::empty(),
        program: None,
        pending: Seq::empty(),
        refs: Seq::empty(),
        pc: 0,
    }
}

pub open spec fn an_fold(t: SyntaxTree, src: Seq<u8>, ms: Seq<QueryMatch>) -> AnSt
    decreases ms.len(),
{
    if ms.len() == 0 {
        an_init()
    } else {
        an_step(t, src, an_fold(t, src, ms.drop_last()), ms.last())
    }
}

/// The program being read at the end is entered too.
pub open spec fn an_close(s: AnSt) -> AnSt {
    match s.program {
        Some((n, v)) => AnSt {
            hints: s.hints.push(prog_hint(v)),
            programs: assoc_insert(s.programs, n, v),
            program: None,
            ..s
        },
        None => s,
    }
}

/// One label reference entered into its label, with a hint showing the
/// label's address.
pub open spec fn ref_step(
    t: SyntaxTree,
    src: Seq<u8>,
    ps: Seq<(Seq<u8>, InfoSt)>,
    hs: Seq<HintSt>,
    r: (usize, Seq<u8>),
) -> (Seq<(Seq<u8>, InfoSt)>, Seq<HintSt>) {
    let (n, p) = r;
    let txt = node_bytes(t, src, n as int);
    match key_index(ps, p) {
        Some(pi) => {
            let v = ps[pi].1;
            match key_index(v.labels, txt) {
                Some(li) => {
                    let l = v.labels[li].1;
                    let l1 = LabelSt {
                        references: l.references.push(range_to_lsp(node_range(t, n as int))),
                        ..l
                    };
                    (
                        ps.update(pi, (ps[pi].0, InfoSt { labels: v.labels.update(li, (v.labels[li].0, l1)), ..v })),
                        hs.push(ref_hint(point_to_lsp(t.nodes@[n as int].end_point), l.instr_pc)),
                    )
                },
                None => (ps, hs),
            }
        },
        None => (ps, hs),
    }
}

pub open spec fn refs_fold(
    t: SyntaxTree,
    src: Seq<u8>,
    ps: Seq<(Seq<u8>, InfoSt)>,
    hs: Seq<HintSt>,
    refs: Seq<(usize, Seq<u8>)>,
) -> (Seq<(Seq<u8>, InfoSt)>, Seq<HintSt>)
    decreases refs.len(),
{
    if refs.len() == 0 {
        (ps, hs)
    } else {
        let (ps1, hs1) = refs_fold(t, src, ps, hs, refs.drop_last());
        ref_step(t, src, ps1, hs1, refs.last())
    }
}

/// The programs, the global defines and the inlay hints of a document.
pub open spec fn analysis(t: SyntaxTree, src: Seq<u8>) -> (Seq<(Seq<u8>, InfoSt)>, Seq<(Seq<u8>, ProgramDefine)>, Seq<HintSt>) {
    let s = an_close(an_fold(t, src, all_matches(t)));
    let (ps, hs) = refs_fold(t, src, s.programs, s.hints, s.refs);
    (ps, s.globals, hs)
}

} // verus!

verus! {

pub open spec fn unit_keys<V>(v: Seq<(Vec<u8>, V)>) -> Seq<(Seq<u8>, ())> {
    v.map_values(|e: (Vec<u8>, V)| (e.0@, ()))
}

/// Enters `val` under `k`: replaces the entry with key `k`, or appends.
fn insert_key<V>(v: &mut Vec<(Vec<u8>, V)>, k: Vec<u8>, val: V)
    ensures
        final(v)@ == match key_index(unit_keys(old(v)@), k@) {
            Some(i) => old(v)@.update(i, (k, val)),
            None => old(v)@.push((k, val)),
        },
{
    match find_key(v, k.as_slice()) {
        Some(i) => {
            v.set(i, (k, val));
        },
        None => {
            v.push((k, val));
        },
    }
}

fn copy_bytes(s: &[u8]) -> (r: Vec<u8>)
    ensures
        r@ == s@,
{
    let mut v = Vec::new();
    crate::text::push_all(&mut v, s);
    assert(v@ =~= s@);
    v
}

fn node_bytes_vec(t: &SyntaxTree, src: &[u8], n: usize) -> (r: Vec<u8>)
    requires
        t.wf_text(src@),
        n < t.len(),
    ensures
        r@ == node_bytes(*t, src@, n as int),
{
    let node = &t.nodes[n];
    assert(node.start_byte <= node.end_byte <= src@.len());
    let mut v = Vec::new();
    crate::text::push_range(&mut v, src, node.start_byte, node.end_byte, false);
    assert(v@ =~= node_bytes(*t, src@, n as int));
    v
}

fn label_string(digits_of: u8, two: bool, suffix: &str) -> (r: String)
    ensures
        r@ == vstd::utf8::decode_utf8(
            (if two { crate::text::dec_digits2(digits_of as nat) } else { crate::text::dec_digits(digits_of as nat) })
                + suffix.spec_bytes(),
        ),
{
    let mut b: Vec<u8> = Vec::new();
    crate::text::push_decimal(&mut b, digits_of, two);
    let ghost d = b@;
    crate::text::push_all(&mut b, suffix.as_bytes());
    proof {
        crate::text::lemma_dec_digits_ascii(digits_of as nat);
        crate::text::lemma_ascii_valid_utf8(d);
        vstd::utf8::encode_utf8_valid_utf8(suffix@);
        vstd::utf8::valid_utf8_concat(d, suffix.spec_bytes());
    }
    crate::text::utf8_string(b)
}

fn prog_hint_exec(v: &ProgramInfo) -> (r: InlayHint)
    ensures
        r.st() == prog_hint(v.st()),
{
    InlayHint {
        position: v.statement_range.end,
        label: label_string(v.instr_count, false, " instructions"),
        kind: InlayHintKind::Parameter,
        padding_left: true,
        padding_right: false,
    }
}

fn pc_hint_exec(pos: Position, pc: u8) -> (r: InlayHint)
    ensures
        r.st() == pc_hint(pos, pc),
{
    InlayHint {
        position: pos,
        label: label_string(pc, true, ":"),
        kind: InlayHintKind::Type,
        padding_left: false,
        padding_right: true,
    }
}

fn ref_hint_exec(pos: Position, pc: u8) -> (r: InlayHint)
    ensures
        r.st() == ref_hint(pos, pc),
{
    let label = label_string(pc, true, "");
    proof {
        reveal_strlit("");
        assert(crate::text::dec_digits2(pc as nat) + "".spec_bytes() =~= crate::text::dec_digits2(pc as nat));
    }
    InlayHint { position: pos, label, kind: InlayHintKind::Type, padding_left: true, padding_right: true }
}

/// The views of an insertion agree with the insertion of the views.
proof fn lemma_insert_labels(old_v: Seq<(Vec<u8>, ProgramLabel)>, new_v: Seq<(Vec<u8>, ProgramLabel)>, k: Vec<u8>, val: ProgramLabel)
    requires
        new_v == match key_index(unit_keys(old_v), k@) {
            Some(i) => old_v.update(i, (k, val)),
            None => old_v.push((k, val)),
        },
    ensures
        labels_st(new_v) == assoc_insert(labels_st(old_v), k@, val.st()),
{
    lemma_key_index_values(unit_keys(old_v), labels_st(old_v), k@);
    lemma_key_index(unit_keys(old_v), k@);
    assert(labels_st(new_v) =~= assoc_insert(labels_st(old_v), k@, val.st()));
}

proof fn lemma_insert_defines(old_v: Seq<(Vec<u8>, ProgramDefine)>, new_v: Seq<(Vec<u8>, ProgramDefine)>, k: Vec<u8>, val: ProgramDefine)
    requires
        new_v == match key_index(unit_keys(old_v), k@) {
            Some(i) => old_v.update(i, (k, val)),
            None => old_v.push((k, val)),
        },
    ensures
        defines_st(new_v) == assoc_insert(defines_st(old_v), k@, val),
{
    lemma_key_index_values(unit_keys(old_v), defines_st(old_v), k@);
    lemma_key_index(unit_keys(old_v), k@);
    assert(defines_st(new_v) =~= assoc_insert(defines_st(old_v), k@, val));
}

proof fn lemma_insert_programs(old_v: Seq<(Vec<u8>, ProgramInfo)>, new_v: Seq<(Vec<u8>, ProgramInfo)>, k: Vec<u8>, val: ProgramInfo)
    requires
        new_v == match key_index(unit_keys(old_v), k@) {
            Some(i) => old_v.update(i, (k, val)),
            None => old_v.push((k, val)),
        },
    ensures
        programs_st(new_v) == assoc_insert(programs_st(old_v), k@, val.st()),
{
    lemma_key_index_values(unit_keys(old_v), programs_st(old_v), k@);
    lemma_key_index(unit_keys(old_v), k@);
    assert(programs_st(new_v) =~= assoc_insert(programs_st(old_v), k@, val.st()));
}

} // verus!

verus! {

struct Analyzer {
    programs: Vec<(Vec<u8>, ProgramInfo)>,
    globals: Vec<(Vec<u8>, ProgramDefine)>,
    hints: Vec<InlayHint>,
    program: Option<(Vec<u8>, ProgramInfo)>,
    pending: Vec<(Vec<u8>, TsRange, TsRange)>,
    refs: Vec<(usize, Vec<u8>)>,
    pc: u8,
}

pub open spec fn pending_st(v: Seq<(Vec<u8>, TsRange, TsRange)>) -> Seq<(Seq<u8>, TsRange, TsRange)> {
    v.map_values(|e: (Vec<u8>, TsRange, TsRange)| (e.0@, e.1, e.2))
}

pub open spec fn refs_st(v: Seq<(usize, Vec<u8>)>) -> Seq<(usize, Seq<u8>)> {
    v.map_values(|e: (usize, Vec<u8>)| (e.0, e.1@))
}

pub open spec fn cur_prog_st(p: Option<(Vec<u8>, ProgramInfo)>) -> Option<(Seq<u8>, InfoSt)> {
    match p {
        Some((n, v)) => Some((n@, v.st())),
        None => None,
    }
}

impl Analyzer {
    spec fn st(&self) -> AnSt {
        AnSt {
            programs: programs_st(self.programs@),
            globals: defines_st(self.globals@),
            hints: hints_st(self.hints@),
            program: cur_prog_st(self.program),
            pending: pending_st(self.pending@),
            refs: refs_st(self.refs@),
            pc: self.pc,
        }
    }

    fn new() -> (r: Analyzer)
        ensures
            r.st() == an_init(),
    {
        let r = Analyzer {
            programs: Vec::new(),
            globals: Vec::new(),
            hints: Vec::new(),
            program: None,
            pending: Vec::new(),
            refs: Vec::new(),
            pc: 0,
        };
        assert(r.st().programs =~= Seq::<(Seq<u8>, InfoSt)>::empty());
        assert(r.st().globals =~= Seq::<(Seq<u8>, ProgramDefine)>::empty());
        assert(r.st().hints =~= Seq::<HintSt>::empty());
        assert(r.st().pending =~= Seq::<(Seq<u8>, TsRange, TsRange)>::empty());
        assert(r.st().refs =~= Seq::<(usize, Seq<u8>)>::empty());
        r
    }

    fn push_hint(&mut self, h: InlayHint)
        ensures
            final(self).st() == (AnSt { hints: old(self).st().hints.push(h.st()), ..old(self).st() }),
    {
        self.hints.push(h);
        assert(hints_st(self.hints@) =~= hints_st(old(self).hints@).push(h.st()));
    }

    fn insert_program(&mut self, name: Vec<u8>, v: ProgramInfo)
        ensures
            final(self).st() == (AnSt {
                programs: assoc_insert(old(self).st().programs, name@, v.st()),
                ..old(self).st()
            }),
    {
        let ghost o = self.programs@;
        let ghost vs = v.st();
        insert_key(&mut self.programs, name, v);
        proof {
            lemma_insert_programs(o, self.programs@, name, v);
        }
    }

    /// Enters the program being read, with its hint.
    fn close_program(&mut self)
        ensures
            final(self).st() == an_close(old(self).st()),
    {
        let mut cur: Option<(Vec<u8>, ProgramInfo)> = None;
        std::mem::swap(&mut cur, &mut self.program);
        if let Some((name, v)) = cur {
            let h = prog_hint_exec(&v);
            self.push_hint(h);
            self.insert_program(name, v);
        }
    }

    fn step_program(&mut self, t: &SyntaxTree, src: &[u8], statement: usize, name: usize)
        requires
            t.wf_text(src@),
            statement < t.len(),
            name < t.len(),
        ensures
            final(self).st() == an_step(*t, src@, old(self).st(), QueryMatch::Program { statement, name }),
    {
        self.close_program();
        let nm = node_bytes_vec(t, src, name);
        let r = crate::lsp::ts_range_to_lsp(crate::lsp::node_ts_range(t, statement));
        let info = ProgramInfo {
            statement_range: r,
            instr_count: 0,
            defines: Vec::new(),
            labels: Vec::new(),
            wrap: None,
            wrap_target: None,
        };
        assert(info.st().defines =~= Seq::<(Seq<u8>, ProgramDefine)>::empty());
        assert(info.st().labels =~= Seq::<(Seq<u8>, LabelSt)>::empty());
        self.program = Some((nm, info));
        self.pc = 0;
    }

    fn step_instruction(&mut self, t: &SyntaxTree, src: &[u8], n: usize)
        requires
            n < t.len(),
        ensures
            final(self).st() == an_step(*t, src@, old(self).st(), QueryMatch::Instruction(n)),
    {
        let mut cur: Option<(Vec<u8>, ProgramInfo)> = None;
        std::mem::swap(&mut cur, &mut self.program);
        match cur {
            Some((pn, mut v)) => {
                v.instr_count = v.instr_count.wrapping_add(1);
                let mut pend: Vec<(Vec<u8>, TsRange, TsRange)> = Vec::new();
                std::mem::swap(&mut pend, &mut self.pending);
                let ghost ps = pending_st(pend@);
                let ghost l0 = v.st().labels;
                let ghost v0 = v.st();
                let mut i: usize = 0;
                while i < pend.len()
                    invariant
                        i <= pend@.len(),
                        v.statement_range == v0.statement_range,
                        v.instr_count == v0.instr_count,
                        defines_st(v.defines@) == v0.defines,
                        v.wrap == v0.wrap,
                        v.wrap_target == v0.wrap_target,
                        ps == pending_st(pend@),
                        labels_st(v.labels@) == insert_pending(l0, ps.subrange(0, i as int), self.pc),
                    decreases pend@.len() - i,
                {
                    let e = &pend[i];
                    let k = copy_bytes(e.0.as_slice());
                    let lab = ProgramLabel {
                        statement_range: e.1,
                        name_range: e.2,
                        instr_pc: self.pc,
                        references: Vec::new(),
                    };
                    assert(lab.st().references =~= Seq::<Range>::empty());
                    let ghost ov = v.labels@;
                    insert_key(&mut v.labels, k, lab);
                    proof {
                        lemma_insert_labels(ov, v.labels@, k, lab);
                        assert(ps.subrange(0, i + 1).drop_last() =~= ps.subrange(0, i as int));
                    }
                    i = i + 1;
                }
                assert(ps.subrange(0, pend@.len() as int) =~= ps);
                assert(pending_st(self.pending@) =~= Seq::<(Seq<u8>, TsRange, TsRange)>::empty());
                let pos = crate::lsp::ts_point_to_lsp(t.nodes[n].start_point);
                let h = pc_hint_exec(pos, self.pc);
                self.push_hint(h);
                self.pc = self.pc.wrapping_add(1);
                self.program = Some((pn, v));
            },
            None => {},
        }
    }

    fn step_label(&mut self, t: &SyntaxTree, src: &[u8], statement: usize, name: usize)
        requires
            t.wf_text(src@),
            statement < t.len(),
            name < t.len(),
        ensures
            final(self).st() == an_step(*t, src@, old(self).st(), QueryMatch::Label { statement, name }),
    {
        let nm = node_bytes_vec(t, src, name);
        let sr = crate::lsp::node_ts_range(t, statement);
        let nr = crate::lsp::node_ts_range(t, name);
        self.pending.push((nm, sr, nr));
        assert(pending_st(self.pending@) =~= pending_st(old(self).pending@).push((nm@, sr, nr)));
    }

    fn step_define(&mut self, t: &SyntaxTree, src: &[u8], statement: usize, name: usize, value: usize)
        requires
            t.wf_text(src@),
            statement < t.len(),
            name < t.len(),
            value < t.len(),
        ensures
            final(self).st() == an_step(*t, src@, old(self).st(), QueryMatch::Define { statement, name, value }),
    {
        let pd = ProgramDefine {
            statement_range: crate::lsp::node_ts_range(t, statement),
            name_range: crate::lsp::node_ts_range(t, name),
            value_range: crate::lsp::node_ts_range(t, value),
        };
        let nm = node_bytes_vec(t, src, name);
        let mut cur: Option<(Vec<u8>, ProgramInfo)> = None;
        std::mem::swap(&mut cur, &mut self.program);
        match cur {
            Some((pn, mut v)) => {
                let ghost od = v.defines@;
                insert_key(&mut v.defines, nm, pd);
                proof {
                    lemma_insert_defines(od, v.defines@, nm, pd);
                }
                self.program = Some((pn, v));
            },
            None => {
                let ghost og = self.globals@;
                insert_key(&mut self.globals, nm, pd);
                proof {
                    lemma_insert_defines(og, self.globals@, nm, pd);
                }
            },
        }
    }

    fn step_label_ref(&mut self, t: &SyntaxTree, src: &[u8], n: usize)
        ensures
            final(self).st() == an_step(*t, src@, old(self).st(), QueryMatch::LabelRef(n)),
    {
        match &self.program {
            Some((p, _)) => {
                let pc = copy_bytes(p.as_slice());
                self.refs.push((n, pc));
                assert(refs_st(self.refs@) =~= refs_st(old(self).refs@).push((n, pc@)));
            },
            None => {},
        }
    }

    fn step_wrap(&mut self, t: &SyntaxTree, src: &[u8], n: usize, target: bool)
        requires
            n < t.len(),
        ensures
            final(self).st() == an_step(*t, src@, old(self).st(), if target {
                QueryMatch::WrapTarget(n)
            } else {
                QueryMatch::Wrap(n)
            }),
    {
        let mut cur: Option<(Vec<u8>, ProgramInfo)> = None;
        std::mem::swap(&mut cur, &mut self.program);
        match cur {
            Some((pn, mut v)) => {
                let r = crate::lsp::ts_range_to_lsp(crate::lsp::node_ts_range(t, n));
                if target {
                    v.wrap_target = Some(r);
                } else {
                    v.wrap = Some(r);
                }
                self.program = Some((pn, v));
            },
            None => {},
        }
    }
}

} // verus!

verus! {

impl Analyzer {
    fn step(&mut self, t: &SyntaxTree, src: &[u8], m: QueryMatch)
        requires
            t.wf_text(src@),
            match_ok(*t, m),
        ensures
            final(self).st() == an_step(*t, src@, old(self).st(), m),
    {
        match m {
            QueryMatch::Program { statement, name } => self.step_program(t, src, statement, name),
            QueryMatch::Instruction(n) => self.step_instruction(t, src, n),
            QueryMatch::Label { statement, name } => self.step_label(t, src, statement, name),
            QueryMatch::Define { statement, name, value } => self.step_define(t, src, statement, name, value),
            QueryMatch::LabelRef(n) => self.step_label_ref(t, src, n),
            QueryMatch::Wrap(n) => self.step_wrap(t, src, n, false),
            QueryMatch::WrapTarget(n) => self.step_wrap(t, src, n, true),
        }
    }

    /// Enters one label reference into its label.
    fn add_reference(&mut self, t: &SyntaxTree, src: &[u8], n: usize, p: &Vec<u8>)
        requires
            t.wf_text(src@),
            n < t.len(),
        ensures
            ({
                let (ps, hs) = ref_step(*t, src@, old(self).st().programs, old(self).st().hints, (n, p@));
                final(self).st() == AnSt { programs: ps, hints: hs, ..old(self).st() }
            }),
    {
        let txt = node_bytes_vec(t, src, n);
        let ghost ps = programs_st(self.programs@);
        proof {
            lemma_key_index_values(unit_keys(self.programs@), ps, p@);
        }
        match find_key(&self.programs, p.as_slice()) {
            Some(pi) => {
                proof {
                    lemma_key_index_values(unit_keys(self.programs@[pi as int].1.labels@), ps[pi as int].1.labels, txt@);
                }
                match find_key(&self.programs[pi].1.labels, txt.as_slice()) {
                    Some(li) => {
                        let pc = self.programs[pi].1.labels[li].1.instr_pc;
                        let pos = crate::lsp::ts_point_to_lsp(t.nodes[n].end_point);
                        let r = crate::lsp::ts_range_to_lsp(crate::lsp::node_ts_range(t, n));
                        let h = ref_hint_exec(pos, pc);
                        self.push_hint(h);
                        let ghost before = self.programs@;
                        self.programs[pi].1.labels[li].1.references.push(r);
                        proof {
                            let v = ps[pi as int].1;
                            let l = v.labels[li as int].1;
                            let l1 = LabelSt { references: l.references.push(r), ..l };
                            assert(labels_st(self.programs@[pi as int].1.labels@) =~= v.labels.update(li as int, (v.labels[li as int].0, l1)));
                            assert(programs_st(self.programs@) =~= ps.update(pi as int, (ps[pi as int].0, InfoSt { labels: v.labels.update(li as int, (v.labels[li as int].0, l1)), ..v })));
                        }
                    },
                    None => {},
                }
            },
            None => {},
        }
    }
}

proof fn lemma_fold_refs_ok(t: SyntaxTree, src: Seq<u8>, ms: Seq<QueryMatch>)
    requires
        forall|j: int| 0 <= j < ms.len() ==> match_ok(t, #[trigger] ms[j]),
    ensures
        forall|j: int|
            0 <= j < an_fold(t, src, ms).refs.len() ==> (#[trigger] an_fold(t, src, ms).refs[j]).0
                < t.len(),
    decreases ms.len(),
{
    if ms.len() > 0 {
        let p = ms.drop_last();
        assert forall|j: int| 0 <= j < p.len() implies match_ok(t, #[trigger] p[j]) by {
            assert(p[j] == ms[j]);
        }
        lemma_fold_refs_ok(t, src, p);
        assert(match_ok(t, ms[ms.len() - 1]));
        let s0 = an_fold(t, src, p);
        let s1 = an_fold(t, src, ms);
        assert forall|j: int| 0 <= j < s1.refs.len() implies (#[trigger] s1.refs[j]).0 < t.len() by {
            if j < s0.refs.len() {
                assert(s1.refs[j] == s0.refs[j]);
            }
        }
    }
}

/// The programs of a document, its global defines and its inlay hints: the
/// instruction count of each program, the address of each instruction, and
/// the address of the label each jump target names.
pub fn analyze_tree(t: &SyntaxTree, src: &[u8]) -> (r: (Programs, Vec<InlayHint>))
    requires
        t.wf(src@),
    ensures
        ({
            let (ps, gs, hs) = analysis(*t, src@);
            &&& programs_st(r.0.programs@) == ps
            &&& defines_st(r.0.global_defines@) == gs
            &&& hints_st(r.1@) == hs
        }),
{
    let ms = collect_matches(t);
    proof {
        lemma_matches_ok(*t, t.len());
    }
    let mut a = Analyzer::new();
    let mut i: usize = 0;
    while i < ms.len()
        invariant
            t.wf(src@),
            i <= ms@.len(),
            ms@ == all_matches(*t),
            forall|j: int| 0 <= j < ms@.len() ==> match_ok(*t, #[trigger] ms@[j]),
            a.st() == an_fold(*t, src@, ms@.subrange(0, i as int)),
        decreases ms@.len() - i,
    {
        assert(ms@.subrange(0, i + 1).drop_last() =~= ms@.subrange(0, i as int));
        a.step(t, src, ms[i]);
        i = i + 1;
    }
    assert(ms@.subrange(0, ms@.len() as int) =~= ms@);
    proof {
        lemma_fold_refs_ok(*t, src@, ms@);
    }
    a.close_program();
    let ghost closed = a.st();
    let mut refs: Vec<(usize, Vec<u8>)> = Vec::new();
    std::mem::swap(&mut refs, &mut a.refs);
    assert(refs_st(refs@) == closed.refs);
    assert forall|j: int| 0 <= j < refs@.len() implies (#[trigger] refs@[j]).0 < t.len() by {
        assert(refs_st(refs@)[j].0 == refs@[j].0);
    }
    let mut k: usize = 0;
    while k < refs.len()
        invariant
            t.wf(src@),
            k <= refs@.len(),
            refs_st(refs@) == closed.refs,
            forall|j: int| 0 <= j < refs@.len() ==> (#[trigger] refs@[j]).0 < t.len(),
            ({
                let (ps, hs) = refs_fold(*t, src@, closed.programs, closed.hints, closed.refs.subrange(0, k as int));
                &&& a.st().programs == ps
                &&& a.st().hints == hs
            }),
            a.st().globals == closed.globals,
        decreases refs@.len() - k,
    {
        assert(closed.refs.subrange(0, k + 1).drop_last() =~= closed.refs.subrange(0, k as int));
        let e = &refs[k];
        a.add_reference(t, src, e.0, &e.1);
        k = k + 1;
    }
    assert(closed.refs.subrange(0, refs@.len() as int) =~= closed.refs);
    (Programs { programs: a.programs, global_defines: a.globals }, a.hints)
}

} // verus!

verus! {

/// A range lies in the text and starts and ends at character boundaries.
pub open spec fn range_ok(src: Seq<u8>, r: TsRange) -> bool {
    &&& r.start_byte <= r.end_byte <= src.len()
    &&& vstd::utf8::is_char_boundary(src, r.start_byte as int)
    &&& vstd::utf8::is_char_boundary(src, r.end_byte as int)
}

pub open spec fn defines_ok(src: Seq<u8>, ds: Seq<(Seq<u8>, ProgramDefine)>) -> bool {
    forall|j: int| 0 <= j < ds.len() ==> range_ok(src, (#[trigger] ds[j]).1.value_range)
}

pub open spec fn infos_ok(src: Seq<u8>, ps: Seq<(Seq<u8>, InfoSt)>) -> bool {
    forall|j: int| 0 <= j < ps.len() ==> defines_ok(src, (#[trigger] ps[j]).1.defines)
}

pub open spec fn an_ok(src: Seq<u8>, s: AnSt) -> bool {
    &&& infos_ok(src, s.programs)
    &&& defines_ok(src, s.globals)
    &&& (s.program matches Some((_, v)) ==> defines_ok(src, v.defines))
}

proof fn lemma_insert_define_ok(src: Seq<u8>, ds: Seq<(Seq<u8>, ProgramDefine)>, k: Seq<u8>, pd: ProgramDefine)
    requires
        defines_ok(src, ds),
        range_ok(src, pd.value_range),
    ensures
        defines_ok(src, assoc_insert(ds, k, pd)),
{
    lemma_key_index(ds, k);
    let r = assoc_insert(ds, k, pd);
    assert forall|j: int| 0 <= j < r.len() implies range_ok(src, (#[trigger] r[j]).1.value_range) by {
        if j < ds.len() && (key_index(ds, k) is None || key_index(ds, k)->0 != j) {
            assert(r[j] == ds[j]);
        }
    }
}

proof fn lemma_insert_info_ok(src: Seq<u8>, ps: Seq<(Seq<u8>, InfoSt)>, k: Seq<u8>, v: InfoSt)
    requires
        infos_ok(src, ps),
        defines_ok(src, v.defines),
    ensures
        infos_ok(src, assoc_insert(ps, k, v)),
{
    lemma_key_index(ps, k);
    let r = assoc_insert(ps, k, v);
    assert forall|j: int| 0 <= j < r.len() implies defines_ok(src, (#[trigger] r[j]).1.defines) by {
        if j < ps.len() && (key_index(ps, k) is None || key_index(ps, k)->0 != j) {
            assert(r[j] == ps[j]);
        }
    }
}

proof fn lemma_fold_ok(t: SyntaxTree, src: Seq<u8>, ms: Seq<QueryMatch>)
    requires
        t.wf_text(src),
        forall|j: int| 0 <= j < ms.len() ==> match_ok(t, #[trigger] ms[j]),
    ensures
        an_ok(src, an_fold(t, src, ms)),
    decreases ms.len(),
{
    if ms.len() == 0 {
    } else {
        let p = ms.drop_last();
        assert forall|j: int| 0 <= j < p.len() implies match_ok(t, #[trigger] p[j]) by {
            assert(p[j] == ms[j]);
        }
        lemma_fold_ok(t, src, p);
        let s = an_fold(t, src, p);
        let m = ms[ms.len() - 1];
        assert(match_ok(t, m));
        match m {
            QueryMatch::Program { statement, name } => {
                match s.program {
                    Some((on, ov)) => {
                        lemma_insert_info_ok(src, s.programs, on, ov);
                    },
                    None => {},
                }
                assert(defines_ok(src, Seq::<(Seq<u8>, ProgramDefine)>::empty()));
            },
            QueryMatch::Define { statement, name, value } => {
                let node = t.nodes@[value as int];
                assert(node.start_byte <= node.end_byte <= src.len());
                let pd = ProgramDefine {
                    statement_range: node_range(t, statement as int),
                    name_range: node_range(t, name as int),
                    value_range: node_range(t, value as int),
                };
                match s.program {
                    Some((pn, v)) => {
                        lemma_insert_define_ok(src, v.defines, node_bytes(t, src, name as int), pd);
                    },
                    None => {
                        lemma_insert_define_ok(src, s.globals, node_bytes(t, src, name as int), pd);
                    },
                }
            },
            _ => {},
        }
    }
}

proof fn lemma_refs_fold_ok(t: SyntaxTree, src: Seq<u8>, ps: Seq<(Seq<u8>, InfoSt)>, hs: Seq<HintSt>, refs: Seq<(usize, Seq<u8>)>)
    requires
        infos_ok(src, ps),
    ensures
        infos_ok(src, refs_fold(t, src, ps, hs, refs).0),
    decreases refs.len(),
{
    if refs.len() > 0 {
        lemma_refs_fold_ok(t, src, ps, hs, refs.drop_last());
        let (ps1, hs1) = refs_fold(t, src, ps, hs, refs.drop_last());
        let (n, p) = refs.last();
        let r = ref_step(t, src, ps1, hs1, refs.last()).0;
        match key_index(ps1, p) {
            Some(pi) => {
                lemma_key_index(ps1, p);
                assert forall|j: int| 0 <= j < r.len() implies defines_ok(src, (#[trigger] r[j]).1.defines) by {
                    if j != pi {
                        assert(r[j] == ps1[j]);
                    } else {
                        assert(defines_ok(src, ps1[j].1.defines));
                    }
                }
            },
            None => {},
        }
    }
}

proof fn lemma_kind_child_at_same(a: SyntaxTree, b: SyntaxTree, n: int, kind: &str, i: int)
    requires
        a.wf_links(),
        same_nodes(a, b),
        0 <= n < a.len(),
        0 <= i,
    ensures
        kind_child_at(a, n, kind, i) == kind_child_at(b, n, kind, i),
    decreases a.nodes@[n].children@.len() - i,
{
    assert(a.nodes@[n].st() == b.nodes@[n].st());
    if i < a.nodes@[n].children@.len() {
        let c = a.nodes@[n].children@[i] as int;
        assert(a.nodes@[c].st() == b.nodes@[c].st());
        lemma_kind_child_at_same(a, b, n, kind, i + 1);
    }
}

proof fn lemma_field_child_at_same(a: SyntaxTree, b: SyntaxTree, n: int, name: &str, i: int)
    requires
        a.wf_links(),
        same_nodes(a, b),
        0 <= n < a.len(),
        0 <= i,
    ensures
        field_child_at(a, n, name, i) == field_child_at(b, n, name, i),
    decreases a.nodes@[n].children@.len() - i,
{
    assert(a.nodes@[n].st() == b.nodes@[n].st());
    if i < a.nodes@[n].children@.len() {
        let c = a.nodes@[n].children@[i] as int;
        assert(a.nodes@[c].st() == b.nodes@[c].st());
        lemma_field_child_at_same(a, b, n, name, i + 1);
    }
}

proof fn lemma_node_matches_same(a: SyntaxTree, b: SyntaxTree, n: int)
    requires
        a.wf_links(),
        same_nodes(a, b),
        0 <= n < a.len(),
    ensures
        node_matches(a, n) == node_matches(b, n),
{
    assert(a.nodes@[n].st() == b.nodes@[n].st());
    lemma_kind_child_at_same(a, b, n, "directive_program", 0);
    lemma_kind_child_at(a, n, "directive_program", 0);
    if let Some(c) = kind_child_at(a, n, "directive_program", 0) {
        lemma_field_child_at_same(a, b, c as int, "program_name", 0);
    }
    lemma_kind_child_at_same(a, b, n, "directive_wrap", 0);
    lemma_kind_child_at_same(a, b, n, "directive_wrap_target", 0);
    lemma_kind_child_at_same(a, b, n, "value", 0);
    lemma_field_child_at_same(a, b, n, "label", 0);
    lemma_field_child_at(a, n, "label", 0);
    if let Some(c) = field_child_at(a, n, "label", 0) {
        assert(a.nodes@[c as int].st() == b.nodes@[c as int].st());
    }
    lemma_field_child_at_same(a, b, n, "define_symbol", 0);
    lemma_field_child_at(a, n, "define_symbol", 0);
    if let Some(c) = field_child_at(a, n, "define_symbol", 0) {
        assert(a.nodes@[c as int].st() == b.nodes@[c as int].st());
    }
    lemma_field_child_at_same(a, b, n, "define_value", 0);
}

proof fn lemma_matches_upto_same(a: SyntaxTree, b: SyntaxTree, k: int)
    requires
        a.wf_links(),
        same_nodes(a, b),
        0 <= k <= a.len(),
    ensures
        matches_upto(a, k) == matches_upto(b, k),
    decreases k,
{
    if k > 0 {
        lemma_matches_upto_same(a, b, k - 1);
        lemma_node_matches_same(a, b, k - 1);
    }
}

proof fn lemma_an_fold_same(a: SyntaxTree, b: SyntaxTree, src: Seq<u8>, ms: Seq<QueryMatch>)
    requires
        same_nodes(a, b),
        forall|j: int| 0 <= j < ms.len() ==> match_ok(a, #[trigger] ms[j]),
    ensures
        an_fold(a, src, ms) == an_fold(b, src, ms),
    decreases ms.len(),
{
    if ms.len() > 0 {
        let p = ms.drop_last();
        assert forall|j: int| 0 <= j < p.len() implies match_ok(a, #[trigger] p[j]) by {
            assert(p[j] == ms[j]);
        }
        lemma_an_fold_same(a, b, src, p);
        let m = ms.last();
        assert(match_ok(a, ms[ms.len() - 1]));
        match m {
            QueryMatch::Program { statement, name } => {
                assert(a.nodes@[statement as int].st() == b.nodes@[statement as int].st());
                assert(a.nodes@[name as int].st() == b.nodes@[name as int].st());
            },
            QueryMatch::Instruction(n) => {
                assert(a.nodes@[n as int].st() == b.nodes@[n as int].st());
            },
            QueryMatch::Label { statement, name } => {
                assert(a.nodes@[statement as int].st() == b.nodes@[statement as int].st());
                assert(a.nodes@[name as int].st() == b.nodes@[name as int].st());
            },
            QueryMatch::Define { statement, name, value } => {
                assert(a.nodes@[statement as int].st() == b.nodes@[statement as int].st());
                assert(a.nodes@[name as int].st() == b.nodes@[name as int].st());
                assert(a.nodes@[value as int].st() == b.nodes@[value as int].st());
            },
            QueryMatch::LabelRef(n) => {},
            QueryMatch::Wrap(n) => {
                assert(a.nodes@[n as int].st() == b.nodes@[n as int].st());
            },
            QueryMatch::WrapTarget(n) => {
                assert(a.nodes@[n as int].st() == b.nodes@[n as int].st());
            },
        }
    }
}

proof fn lemma_refs_fold_same(
    a: SyntaxTree,
    b: SyntaxTree,
    src: Seq<u8>,
    ps: Seq<(Seq<u8>, InfoSt)>,
    hs: Seq<HintSt>,
    refs: Seq<(usize, Seq<u8>)>,
)
    requires
        same_nodes(a, b),
        forall|j: int| 0 <= j < refs.len() ==> (#[trigger] refs[j]).0 < a.len(),
    ensures
        refs_fold(a, src, ps, hs, refs) == refs_fold(b, src, ps, hs, refs),
    decreases refs.len(),
{
    if refs.len() > 0 {
        let p = refs.drop_last();
        assert forall|j: int| 0 <= j < p.len() implies (#[trigger] p[j]).0 < a.len() by {
            assert(p[j] == refs[j]);
        }
        lemma_refs_fold_same(a, b, src, ps, hs, p);
        let n = refs[refs.len() - 1].0 as int;
        assert(a.nodes@[n].st() == b.nodes@[n].st());
    }
}

/// The analysis reads a syntax tree only through its nodes as plain values:
/// two trees with the same nodes give the same programs, global defines and
/// inlay hints.
pub proof fn lemma_analysis_same(a: SyntaxTree, b: SyntaxTree, src: Seq<u8>)
    requires
        a.wf_links(),
        same_nodes(a, b),
    ensures
        analysis(a, src) == analysis(b, src),
{
    lemma_matches_upto_same(a, b, a.len());
    lemma_matches_ok(a, a.len());
    let ms = all_matches(a);
    lemma_an_fold_same(a, b, src, ms);
    lemma_fold_refs_ok(a, src, ms);
    let s = an_close(an_fold(a, src, ms));
    lemma_refs_fold_same(a, b, src, s.programs, s.hints, s.refs);
}

/// Every define the analysis records has a value range inside the text, at
/// character boundaries.
pub proof fn lemma_analysis_ok(t: SyntaxTree, src: Seq<u8>)
    requires
        t.wf(src),
    ensures
        infos_ok(src, analysis(t, src).0),
        defines_ok(src, analysis(t, src).1),
{
    lemma_matches_ok(t, t.len());
    lemma_fold_ok(t, src, all_matches(t));
    let s0 = an_fold(t, src, all_matches(t));
    let s = an_close(s0);
    match s0.program {
        Some((n, v)) => lemma_insert_info_ok(src, s0.programs, n, v),
        None => {},
    }
    lemma_refs_fold_ok(t, src, s.programs, s.hints, s.refs);
}

} // verus!

verus! {

impl Programs {
    /// The program named `name`.
    pub fn get_program(&self, name: &str) -> (r: Option<&ProgramInfo>)
        ensures
            r matches Some(v) ==> assoc_get(programs_st(self.programs@), name.spec_bytes()) == Some(v.st()),
            r is None ==> assoc_get(programs_st(self.programs@), name.spec_bytes()) is None,
    {
        proof {
            lemma_key_index_values(unit_keys(self.programs@), programs_st(self.programs@), name.spec_bytes());
        }
        match find_key(&self.programs, name.as_bytes()) {
            Some(i) => Some(&self.programs[i].1),
            None => None,
        }
    }
}

} // verus!

verus! {

/// While a program is read, its instruction count is the address of its
/// next instruction: the "<n> instructions" hint of a program and the
/// "<pc>:" hints of its instructions count alike (both modulo 256).
pub proof fn instruction_count_is_next_address(t: SyntaxTree, src: Seq<u8>, ms: Seq<QueryMatch>)
    ensures
        an_fold(t, src, ms).program matches Some(p) ==> p.1.instr_count == an_fold(t, src, ms).pc,
    decreases ms.len(),
{
    if ms.len() > 0 {
        instruction_count_is_next_address(t, src, ms.drop_last());
    }
}

} // verus!
