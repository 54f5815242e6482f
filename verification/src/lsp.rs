//! The analysis behind the language server: programs, labels and defines of
//! a PIO document, definitions and references of symbols, inlay hints and
//! hover documentation.
use vstd::prelude::*;
use vstd::string::StringSliceAdditionalSpecFns;
use crate::text::str_eq;
use crate::tree::{Point, SyntaxTree};
use crate::programs::{analysis, analyze_tree, assoc_get, defines_st, find_key, hints_st, key_index, labels_st, lemma_key_index_values, node_bytes, programs_st, unit_keys, HintSt, InfoSt, InlayHint, ProgramDefine, ProgramInfo, ProgramLabel, Programs};

verus! {

/// An LSP position (line and UTF-8 column, zero based).
#[derive(Clone, Copy, Debug, PartialEq, Eq)]
pub struct Position {
    pub line: u32,
    pub character: u32,
}

/// An LSP range.
#[derive(Clone, Copy, Debug, PartialEq, Eq)]
pub struct Range {
    pub start: Position,
    pub end: Position,
}

/// A range of the source in bytes and in rows and columns.
#[derive(Clone, Copy, Debug, PartialEq, Eq)]
pub struct TsRange {
    pub start_byte: usize,
    pub end_byte: usize,
    pub start_point: Point,
    pub end_point: Point,
}

pub open spec fn point_to_lsp(p: Point) -> Position {
    Position { line: p.row as u32, character: p.column as u32 }
}

pub open spec fn lsp_to_point(p: Position) -> Point {
    Point { row: p.line as usize, column: p.character as usize }
}

pub open spec fn range_to_lsp(r: TsRange) -> Range {
    Range { start: point_to_lsp(r.start_point), end: point_to_lsp(r.end_point) }
}

/// Converts a tree-sitter point to an LSP position (UTF-8 columns).
pub fn ts_point_to_lsp(p: Point) -> (r: Position)
    ensures
        r == point_to_lsp(p),
{
    Position { line: p.row as u32, character: p.column as u32 }
}

/// Converts an LSP position (UTF-8 columns) to a tree-sitter point.
pub fn lsp_pos_to_ts(p: Position) -> (r: Point)
    ensures
        r == lsp_to_point(p),
{
    Point { row: p.line as usize, column: p.character as usize }
}

/// Converts a tree-sitter range to an LSP range.
pub fn ts_range_to_lsp(r: TsRange) -> (o: Range)
    ensures
        o == range_to_lsp(r),
{
    Range { start: ts_point_to_lsp(r.start_point), end: ts_point_to_lsp(r.end_point) }
}

pub open spec fn node_range(t: SyntaxTree, n: int) -> TsRange {
    let node = t.nodes@[n];
    TsRange {
        start_byte: node.start_byte,
        end_byte: node.end_byte,
        start_point: node.start_point,
        end_point: node.end_point,
    }
}

/// The range of node `n`.
pub fn node_ts_range(t: &SyntaxTree, n: usize) -> (r: TsRange)
    requires
        n < t.len(),
    ensures
        r == node_range(*t, n as int),
{
    let node = &t.nodes[n];
    TsRange {
        start_byte: node.start_byte,
        end_byte: node.end_byte,
        start_point: node.start_point,
        end_point: node.end_point,
    }
}

/// The field under which a node stands in its parent, if it has a parent.
pub open spec fn field_in_parent(t: SyntaxTree, n: int) -> Option<&'static str> {
    if t.nodes@[n].parent is Some {
        t.nodes@[n].field_name
    } else {
        None
    }
}

/// The field name of `node` in its parent.
pub fn get_named_node_field_name(t: &SyntaxTree, node: usize) -> (r: Option<&'static str>)
    requires
        node < t.len(),
    ensures
        r == field_in_parent(*t, node as int),
{
    match t.nodes[node].parent {
        Some(_) => t.nodes[node].field_name,
        None => None,
    }
}

/// Some proper ancestor of `n` is a label definition or a label reference.
pub open spec fn has_label_ancestor(t: SyntaxTree, n: int) -> bool
    decreases n,
    when t.wf_links() && 0 <= n < t.len()
{
    match t.nodes@[n].parent {
        Some(p) => {
            ||| t.nodes@[p as int].kind@ == "label_reference"@
            ||| t.nodes@[p as int].kind@ == "label"@
            ||| has_label_ancestor(t, p as int)
        },
        None => false,
    }
}

/// Whether `node` is (part of) a label definition or reference.
pub fn is_label(t: &SyntaxTree, node: usize) -> (r: bool)
    requires
        t.wf_links(),
        node < t.len(),
    ensures
        r == has_label_ancestor(*t, node as int),
{
    let mut cur = node;
    loop
        invariant
            t.wf_links(),
            cur < t.len(),
            has_label_ancestor(*t, node as int) == has_label_ancestor(*t, cur as int),
        decreases cur,
    {
        match t.nodes[cur].parent {
            Some(p) => {
                assert(cur > 0);
                if str_eq(t.nodes[p].kind, "label_reference") || str_eq(t.nodes[p].kind, "label") {
                    return true;
                }
                cur = p;
            },
            None => {
                return false;
            },
        }
    }
}

/// The path from `n` up to the nearest instruction containing it.
pub open spec fn instr_path(t: SyntaxTree, n: int) -> Option<Seq<usize>>
    decreases n,
    when t.wf_links() && 0 <= n < t.len()
{
    match t.nodes@[n].parent {
        Some(p) => {
            if t.nodes@[p as int].kind@ == "instruction"@ {
                Some(seq![n as usize, p])
            } else {
                match instr_path(t, p as int) {
                    Some(rest) => Some(seq![n as usize] + rest),
                    None => None,
                }
            }
        },
        None => None,
    }
}

/// When `node` is (part of) an instruction, the nodes on the path from it up
/// to the instruction node.
pub fn get_instruction(t: &SyntaxTree, node: usize) -> (r: Option<Vec<usize>>)
    requires
        t.wf_links(),
        node < t.len(),
    ensures
        r matches Some(v) ==> instr_path(*t, node as int) == Some(v@),
        r is None ==> instr_path(*t, node as int) is None,
{
    let mut path: Vec<usize> = Vec::new();
    path.push(node);
    let mut cur = node;
    loop
        invariant
            t.wf_links(),
            cur < t.len(),
            path@.len() > 0,
            path@.last() == cur,
            instr_path(*t, node as int) matches Some(full) ==> instr_path(*t, cur as int) matches Some(
                rest,
            ) && full == path@.drop_last() + rest,
            instr_path(*t, node as int) is None ==> instr_path(*t, cur as int) is None,
        decreases cur,
    {
        match t.nodes[cur].parent {
            Some(p) => {
                assert(cur > 0);
                let ghost before = path@;
                path.push(p);
                if str_eq(t.nodes[p].kind, "instruction") {
                    proof {
                        let full = instr_path(*t, node as int)->0;
                        assert(path@ =~= before.drop_last() + seq![cur as usize, p]);
                    }
                    return Some(path);
                }
                proof {
                    if instr_path(*t, node as int) is Some {
                        let rest = instr_path(*t, p as int)->0;
                        assert(seq![cur as usize] + rest =~= seq![cur as usize] + rest);
                        assert(before.drop_last() + (seq![cur as usize] + rest) =~= path@.drop_last()
                            + rest);
                    }
                }
                cur = p;
            },
            None => {
                return None;
            },
        }
    }
}

} // verus!

verus! {

/// Where the `.program` that a node belongs to was looked up.
pub enum ProgLookup {
    /// the name node of the program
    Found(usize),
    NotFound,
    /// a `.program` directive without a name (the lookup gives up there)
    Unnamed,
}

/// The program named by the directive `d`, if it holds a `.program`.
pub open spec fn directive_program(t: SyntaxTree, d: int) -> Option<ProgLookup> {
    if t.nodes@[d].kind@ == "directive"@ {
        match crate::tree::kind_child_at(t, d, "directive_program", 0) {
            Some(c) => match crate::tree::field_child_at(t, c as int, "program_name", 0) {
                Some(g) => Some(ProgLookup::Found(g)),
                None => Some(ProgLookup::Unnamed),
            },
            None => None,
        }
    } else {
        None
    }
}

/// Looks through the named siblings before position `i` among the children of
/// `p`, last first, for a `.program` directive.
pub open spec fn program_before(t: SyntaxTree, p: int, i: int) -> ProgLookup
    decreases i,
{
    if i <= 0 {
        ProgLookup::NotFound
    } else {
        let s = t.nodes@[p].children@[i - 1] as int;
        if t.nodes@[s].is_named && directive_program(t, s) is Some {
            directive_program(t, s)->0
        } else {
            program_before(t, p, i - 1)
        }
    }
}

/// The program a node belongs to: the last `.program` before the top-level
/// statement that holds it.
pub open spec fn program_of(t: SyntaxTree, n: int) -> ProgLookup
    decreases n,
    when t.wf_links() && 0 <= n < t.len()
{
    match t.nodes@[n].parent {
        Some(p) => if t.nodes@[p as int].kind@ == "source_file"@ {
            program_before(t, p as int, t.nodes@[n].child_index as int)
        } else {
            program_of(t, p as int)
        },
        None => ProgLookup::NotFound,
    }
}

} // verus!

verus! {

/// A loaded PIO document: its text, syntax tree, programs and inlay hints.
pub struct DocumentData {
    /// the tree-sitter tree, kept for incremental reparsing
    pub tree: tree_sitter::Tree,
    /// the syntax tree as plain values
    pub syntax: SyntaxTree,
    /// the document text
    pub text: String,
    /// the active inlay hints
    pub inlay_hints: Vec<InlayHint>,
    /// programs and global defines
    pub programs: Programs,
}

impl DocumentData {
    /// The bytes of the document text.
    pub open spec fn bytes(&self) -> Seq<u8> {
        vstd::utf8::encode_utf8(self.text@)
    }

    pub open spec fn hints(&self) -> Seq<HintSt> {
        hints_st(self.inlay_hints@)
    }

    /// The syntax tree is the copy of the tree-sitter tree, it belongs to the
    /// text, and the programs and hints are the analysis of the tree.
    pub open spec fn wf(&self) -> bool {
        &&& self.syntax.models(self.tree, self.bytes())
        &&& self.syntax.wf(self.bytes())
        &&& programs_st(self.programs.programs@) == analysis(self.syntax, self.bytes()).0
        &&& defines_st(self.programs.global_defines@) == analysis(self.syntax, self.bytes()).1
        &&& self.hints() == analysis(self.syntax, self.bytes()).2
    }

    /// Parses `text` and analyzes its programs; `None` when the parser gives
    /// no tree, which a ready parser does not.
    pub fn new(parser: &mut tree_sitter::Parser, text: String) -> (r: Option<DocumentData>)
        ensures
            crate::ts::parser_ready(*old(parser)) ==> r is Some,
            r matches Some(d) ==> d.wf() && d.text@ == text@,
            r matches Some(d) ==> crate::ts::parser_idle(*old(parser)) ==> d.tree == crate::ts::parse_of(
                *old(parser),
                vstd::utf8::encode_utf8(text@),
                None,
            ),
            crate::ts::parser_kept(*old(parser), *final(parser)),
    {
        match crate::tree::parse_source(parser, text.as_str(), None) {
            Some((tree, syntax)) => {
                let (programs, inlay_hints) = analyze_tree(&syntax, text.as_str().as_bytes());
                Some(DocumentData { tree, syntax, text, inlay_hints, programs })
            },
            None => None,
        }
    }

    /// Replaces the document text and analyzes it again, reusing `old_tree`
    /// (edited to match the new text) where given; `false`, with the document
    /// unchanged, when the parser gives no tree, which a ready parser does not.
    pub fn update(
        &mut self,
        parser: &mut tree_sitter::Parser,
        text: String,
        old_tree: Option<&tree_sitter::Tree>,
    ) -> (r: bool)
        ensures
            crate::ts::parser_ready(*old(parser)) ==> r,
            r ==> final(self).wf() && final(self).text@ == text@,
            r && crate::ts::parser_idle(*old(parser)) ==> final(self).tree == crate::ts::parse_of(
                *old(parser),
                vstd::utf8::encode_utf8(text@),
                crate::ts::opt_tree(old_tree),
            ),
            !r ==> *final(self) == *old(self),
            crate::ts::parser_kept(*old(parser), *final(parser)),
    {
        match crate::tree::parse_source(parser, text.as_str(), old_tree) {
            Some((tree, syntax)) => {
                self.tree = tree;
                self.syntax = syntax;
                let programs = self.analyze_programs(text.as_str());
                self.text = text;
                self.programs = programs;
                true
            },
            None => false,
        }
    }

    /// Analyzes the programs of `text`, which the syntax tree of the document
    /// was parsed from: sets the inlay hints and gives the programs and the
    /// global defines.
    pub fn analyze_programs(&mut self, text: &str) -> (r: Programs)
        requires
            old(self).syntax.wf(text.spec_bytes()),
        ensures
            final(self).tree == old(self).tree,
            final(self).syntax == old(self).syntax,
            final(self).text == old(self).text,
            final(self).programs == old(self).programs,
            hints_st(final(self).inlay_hints@) == analysis(old(self).syntax, text.spec_bytes()).2,
            programs_st(r.programs@) == analysis(old(self).syntax, text.spec_bytes()).0,
            defines_st(r.global_defines@) == analysis(old(self).syntax, text.spec_bytes()).1,
    {
        let (programs, inlay_hints) = analyze_tree(&self.syntax, text.as_bytes());
        self.inlay_hints = inlay_hints;
        programs
    }

    /// The inlay hints: program sizes, instruction addresses and the
    /// addresses of jump targets.
    pub fn inlay_hints(&self) -> (r: &Vec<InlayHint>)
        ensures
            hints_st(r@) == self.hints(),
    {
        &self.inlay_hints
    }

    /// The node at `position`: from the root down, the child that spans the
    /// position (see `point_node`), as far down as there is one.
    pub fn node_at(&self, position: Position) -> (r: Option<usize>)
        requires
            self.wf(),
        ensures
            r == Some(point_node(self.syntax, lsp_to_point(position))),
            point_node(self.syntax, lsp_to_point(position)) < self.syntax.len(),
    {
        let t = &self.syntax;
        let p = lsp_pos_to_ts(position);
        proof {
            lemma_point_node_in_tree(*t, 0, p, t.len() as nat);
        }
        let mut n: usize = 0;
        let mut fuel: usize = t.nodes.len();
        loop
            invariant
                t.wf_links(),
                *t == self.syntax,
                p == lsp_to_point(position),
                point_node(*t, p) < t.len(),
                n < t.len(),
                fuel <= t.len(),
                point_node(*t, p) == point_node_from(*t, n as int, p, fuel as nat),
            decreases fuel,
        {
            if fuel == 0 {
                assert(point_node_from(*t, n as int, p, 0) == n);
                return Some(n);
            }
            match point_child(t, n, p) {
                Some(c) => {
                    assert(point_node_from(*t, n as int, p, fuel as nat) == point_node_from(
                        *t,
                        c as int,
                        p,
                        (fuel - 1) as nat,
                    ));
                    n = c;
                    fuel = fuel - 1;
                },
                None => {
                    assert(point_node_from(*t, n as int, p, fuel as nat) == n);
                    return Some(n);
                },
            }
        }
    }
}

/// `a` comes before `b` (by row, then column).
pub open spec fn point_lt(a: Point, b: Point) -> bool {
    a.row < b.row || (a.row == b.row && a.column < b.column)
}

/// The child of node `n`, from position `i` of its children on, that the
/// search for the point `p` goes down into: the first one that reaches `p`
/// (ends after it, or at it when the child is empty), unless that one
/// starts after `p`.
pub open spec fn point_child_from(t: SyntaxTree, n: int, p: Point, i: int) -> Option<usize>
    decreases t.nodes@[n].children@.len() - i,
{
    if i < 0 || i >= t.nodes@[n].children@.len() {
        None
    } else {
        let c = t.nodes@[n].children@[i];
        let cn = t.nodes@[c as int];
        let empty = cn.start_point == cn.end_point;
        if point_lt(cn.end_point, p) || (!empty && cn.end_point == p) {
            point_child_from(t, n, p, i + 1)
        } else if point_lt(p, cn.start_point) {
            None
        } else {
            Some(c)
        }
    }
}

/// The node that the search for `p` ends at, from node `n` down, going down
/// at most `fuel` times.
pub open spec fn point_node_from(t: SyntaxTree, n: int, p: Point, fuel: nat) -> usize
    decreases fuel,
{
    if fuel == 0 {
        n as usize
    } else {
        match point_child_from(t, n, p, 0) {
            Some(c) => point_node_from(t, c as int, p, (fuel - 1) as nat),
            None => n as usize,
        }
    }
}

/// The node at the point `p`: from the root down, each time into the first
/// child that spans `p`, as long as there is one.
pub open spec fn point_node(t: SyntaxTree, p: Point) -> usize {
    point_node_from(t, 0, p, t.len() as nat)
}

/// The search only goes down into children.
proof fn lemma_point_child_is_child(t: SyntaxTree, n: int, p: Point, i: int)
    requires
        t.wf_links(),
        0 <= n < t.len(),
    ensures
        point_child_from(t, n, p, i) matches Some(c) ==> n < c < t.len(),
    decreases t.nodes@[n].children@.len() - i,
{
    if 0 <= i < t.nodes@[n].children@.len() {
        let c = t.nodes@[n].children@[i];
        lemma_point_child_is_child(t, n, p, i + 1);
    }
}

/// The search ends at a node of the tree.
proof fn lemma_point_node_in_tree(t: SyntaxTree, n: int, p: Point, fuel: nat)
    requires
        t.wf_links(),
        0 <= n < t.len(),
    ensures
        point_node_from(t, n, p, fuel) < t.len(),
    decreases fuel,
{
    if fuel > 0 {
        lemma_point_child_is_child(t, n, p, 0);
        if let Some(c) = point_child_from(t, n, p, 0) {
            lemma_point_node_in_tree(t, c as int, p, (fuel - 1) as nat);
        }
    }
}

/// The child of `n` that the search for `p` goes down into.
fn point_child(t: &SyntaxTree, n: usize, p: Point) -> (r: Option<usize>)
    requires
        t.wf_links(),
        n < t.len(),
    ensures
        r == point_child_from(*t, n as int, p, 0),
        r matches Some(c) ==> n < c < t.len(),
{
    proof {
        lemma_point_child_is_child(*t, n as int, p, 0);
    }
    let cs = &t.nodes[n].children;
    let mut i: usize = 0;
    while i < cs.len()
        invariant
            t.wf_links(),
            n < t.len(),
            i <= cs@.len(),
            cs == t.nodes@[n as int].children,
            point_child_from(*t, n as int, p, 0) == point_child_from(*t, n as int, p, i as int),
        decreases cs@.len() - i,
    {
        let c = cs[i];
        let cn = &t.nodes[c];
        let s = cn.start_point;
        let e = cn.end_point;
        let empty = s.row == e.row && s.column == e.column;
        let end_before = e.row < p.row || (e.row == p.row && e.column < p.column);
        let end_at = e.row == p.row && e.column == p.column;
        if end_before || (!empty && end_at) {
            i = i + 1;
        } else if p.row < s.row || (p.row == s.row && p.column < s.column) {
            return None;
        } else {
            return Some(c);
        }
    }
    None
}

} // verus!

verus! {

/// The name of a definition and where it stands.
#[derive(Debug, PartialEq, Eq)]
pub struct NamedSymbol<'a> {
    /// the name (e.g. "foo" for "foo:" or ".define foo 32")
    pub text: &'a str,
    /// the range of the name
    pub name_range: Range,
}

/// A label, a `.define`, or the `.wrap_target` of a program.
#[derive(Debug, PartialEq, Eq)]
pub enum SymbolType<'a> {
    Define { value: &'a str, named: NamedSymbol<'a> },
    Label(NamedSymbol<'a>),
    Wrap,
}

/// Where a symbol is defined.
#[derive(Debug)]
pub struct SymbolDefinition<'a> {
    /// the range of the whole statement (e.g. "foo:" or ".define foo 32")
    pub statement_range: Range,
    /// the program the definition belongs to
    pub program: Option<&'a str>,
    pub typ: SymbolType<'a>,
}

pub enum TypSt {
    Define { value: Seq<u8>, text: Seq<u8>, name_range: Range },
    Label { text: Seq<u8>, name_range: Range },
    Wrap,
}

pub struct DefSt {
    pub statement_range: Range,
    pub program: Option<Seq<u8>>,
    pub typ: TypSt,
}

impl<'a> SymbolDefinition<'a> {
    pub open spec fn st(&self) -> DefSt {
        DefSt {
            statement_range: self.statement_range,
            program: match self.program {
                Some(p) => Some(p.spec_bytes()),
                None => None,
            },
            typ: match self.typ {
                SymbolType::Define { value, named } => TypSt::Define {
                    value: value.spec_bytes(),
                    text: named.text.spec_bytes(),
                    name_range: named.name_range,
                },
                SymbolType::Label(named) => TypSt::Label {
                    text: named.text.spec_bytes(),
                    name_range: named.name_range,
                },
                SymbolType::Wrap => TypSt::Wrap,
            },
        }
    }

    /// The name of the definition (none for `.wrap_target`).
    pub fn text(&self) -> (r: Option<&str>)
        ensures
            r matches Some(s) ==> (self.st().typ matches TypSt::Define { text, .. } && s.spec_bytes() == text)
                || (self.st().typ matches TypSt::Label { text, .. } && s.spec_bytes() == text),
            r is None <==> self.st().typ is Wrap,
    {
        match &self.typ {
            SymbolType::Define { value: _, named } => Some(named.text),
            SymbolType::Label(named) => Some(named.text),
            SymbolType::Wrap => None,
        }
    }

    /// The range of the name of the definition (none for `.wrap_target`).
    pub fn name_range(&self) -> (r: Option<Range>)
        ensures
            r == match self.st().typ {
                TypSt::Define { name_range, .. } => Some(name_range),
                TypSt::Label { name_range, .. } => Some(name_range),
                TypSt::Wrap => None,
            },
    {
        match &self.typ {
            SymbolType::Define { value: _, named } => Some(named.name_range),
            SymbolType::Label(named) => Some(named.name_range),
            SymbolType::Wrap => None,
        }
    }
}

pub open spec fn define_def(src: Seq<u8>, pd: ProgramDefine, program: Option<Seq<u8>>, txt: Seq<u8>) -> DefSt {
    DefSt {
        statement_range: range_to_lsp(pd.statement_range),
        program,
        typ: TypSt::Define {
            value: src.subrange(pd.value_range.start_byte as int, pd.value_range.end_byte as int),
            text: txt,
            name_range: range_to_lsp(pd.name_range),
        },
    }
}

pub open spec fn found_name(t: SyntaxTree, src: Seq<u8>, l: ProgLookup) -> Option<Seq<u8>> {
    match l {
        ProgLookup::Found(g) => Some(node_bytes(t, src, g as int)),
        _ => None,
    }
}

/// The definition of the symbol at node `n`: a label of its program (when
/// the symbol is a jump target), else a `.define` of its program, else a
/// global `.define`; or the `.wrap_target` of its program at a `.wrap` or
/// `.wrap_target`.
pub open spec fn definition_of(
    t: SyntaxTree,
    src: Seq<u8>,
    ps: Seq<(Seq<u8>, InfoSt)>,
    gs: Seq<(Seq<u8>, ProgramDefine)>,
    n: int,
) -> Option<DefSt> {
    let k = t.nodes@[n].kind@;
    if k == "symbol"@ {
        let program = found_name(t, src, program_of(t, n));
        let txt = node_bytes(t, src, n);
        let prog = match program {
            Some(p) => assoc_get(ps, p),
            None => None,
        };
        let label = if has_label_ancestor(t, n) {
            match prog {
                Some(v) => assoc_get(v.labels, txt),
                None => None,
            }
        } else {
            None
        };
        match label {
            Some(l) => Some(
                DefSt {
                    statement_range: range_to_lsp(l.statement_range),
                    program,
                    typ: TypSt::Label { text: txt, name_range: range_to_lsp(l.name_range) },
                },
            ),
            None => {
                let local = match prog {
                    Some(v) => assoc_get(v.defines, txt),
                    None => None,
                };
                match local {
                    Some(pd) => Some(define_def(src, pd, program, txt)),
                    None => match assoc_get(gs, txt) {
                        Some(pd) => Some(define_def(src, pd, None, txt)),
                        None => None,
                    },
                }
            },
        }
    } else if k == "directive_wrap"@ || k == "directive_wrap_target"@ {
        match t.nodes@[n].parent {
            Some(p) => match found_name(t, src, program_of(t, p as int)) {
                Some(name) => match assoc_get(ps, name) {
                    Some(v) => match v.wrap_target {
                        Some(wt) => Some(DefSt { statement_range: wt, program: Some(name), typ: TypSt::Wrap }),
                        None => None,
                    },
                    None => None,
                },
                None => None,
            },
            None => None,
        }
    } else {
        None
    }
}

/// The program lookups that `definition_of` makes meet no unnamed `.program`.
pub open spec fn lookup_ok(t: SyntaxTree, n: int) -> bool {
    let k = t.nodes@[n].kind@;
    &&& k == "symbol"@ ==> !(program_of(t, n) is Unnamed)
    &&& (k == "directive_wrap"@ || k == "directive_wrap_target"@) ==> (t.nodes@[n].parent matches Some(
        p,
    ) ==> !(program_of(t, p as int) is Unnamed))
}

} // verus!

verus! {

/// The position of program `name` among `ps`.
fn program_index(ps: &Vec<(Vec<u8>, ProgramInfo)>, name: &[u8]) -> (r: Option<usize>)
    ensures
        r matches Some(i) ==> key_index(programs_st(ps@), name@) == Some(i as int) && i < ps@.len(),
        r is None ==> key_index(programs_st(ps@), name@) is None,
{
    proof {
        lemma_key_index_values(unit_keys(ps@), programs_st(ps@), name@);
    }
    find_key(ps, name)
}

fn label_index(ls: &Vec<(Vec<u8>, ProgramLabel)>, name: &[u8]) -> (r: Option<usize>)
    ensures
        r matches Some(i) ==> key_index(labels_st(ls@), name@) == Some(i as int) && i < ls@.len(),
        r is None ==> key_index(labels_st(ls@), name@) is None,
{
    proof {
        lemma_key_index_values(unit_keys(ls@), labels_st(ls@), name@);
    }
    find_key(ls, name)
}

fn define_index(ds: &Vec<(Vec<u8>, ProgramDefine)>, name: &[u8]) -> (r: Option<usize>)
    ensures
        r matches Some(i) ==> key_index(defines_st(ds@), name@) == Some(i as int) && i < ds@.len(),
        r is None ==> key_index(defines_st(ds@), name@) is None,
{
    proof {
        lemma_key_index_values(unit_keys(ds@), defines_st(ds@), name@);
    }
    find_key(ds, name)
}

/// The program named by directive `d`, if it holds a `.program`.
fn directive_program_exec(t: &SyntaxTree, d: usize) -> (r: Option<ProgLookup>)
    requires
        t.wf_links(),
        d < t.len(),
    ensures
        r == directive_program(*t, d as int),
        r matches Some(ProgLookup::Found(g)) ==> g < t.len(),
{
    if str_eq(t.nodes[d].kind, "directive") {
        match crate::tree::child_of_kind(t, d, "directive_program") {
            Some(c) => match crate::tree::child_by_field_name(t, c, "program_name") {
                Some(g) => Some(ProgLookup::Found(g)),
                None => Some(ProgLookup::Unnamed),
            },
            None => None,
        }
    } else {
        None
    }
}

/// Where the program that `node` belongs to was found: see `program_of`.
pub fn program_lookup(t: &SyntaxTree, node: usize) -> (r: ProgLookup)
    requires
        t.wf_links(),
        node < t.len(),
    ensures
        r == program_of(*t, node as int),
        r matches ProgLookup::Found(g) ==> g < t.len(),
{
    let mut cur = node;
    loop
        invariant
            t.wf_links(),
            cur < t.len(),
            program_of(*t, node as int) == program_of(*t, cur as int),
        decreases cur,
    {
        match t.nodes[cur].parent {
            Some(p) => {
                assert(cur > 0);
                if str_eq(t.nodes[p].kind, "source_file") {
                    let ci = t.nodes[cur].child_index;
                    proof {
                        reveal(SyntaxTree::in_parent);
                        assert(t.in_parent(cur as int));
                    }
                    let mut j = ci;
                    assert(program_of(*t, cur as int) == program_before(*t, p as int, ci as int));
                    while j > 0
                        invariant
                            t.wf_links(),
                            p < t.len(),
                            j <= ci < t.nodes@[p as int].children@.len(),
                            program_before(*t, p as int, ci as int) == program_before(*t, p as int, j as int),
                            program_of(*t, node as int) == program_before(*t, p as int, ci as int),
                        decreases j,
                    {
                        let s = t.nodes[p].children[j - 1];
                        if t.nodes[s].is_named {
                            match directive_program_exec(t, s) {
                                Some(l) => {
                                    return l;
                                },
                                None => {},
                            }
                        }
                        j = j - 1;
                    }
                    return ProgLookup::NotFound;
                }
                cur = p;
            },
            None => {
                return ProgLookup::NotFound;
            },
        }
    }
}

/// The name node of the program that `node` belongs to.
pub fn program_at(t: &SyntaxTree, node: usize) -> (r: Option<usize>)
    requires
        t.wf_links(),
        node < t.len(),
        !(program_of(*t, node as int) is Unnamed),
    ensures
        r matches Some(g) ==> program_of(*t, node as int) == ProgLookup::Found(g) && g < t.len(),
        r is None ==> program_of(*t, node as int) is NotFound,
{
    match program_lookup(t, node) {
        ProgLookup::Found(g) => Some(g),
        _ => None,
    }
}

impl DocumentData {
    /// Whether the definition and the references of the symbol at `node` can
    /// be looked up: the program it belongs to has a name.
    pub fn lookup_fits(&self, node: usize) -> (r: bool)
        requires
            self.wf(),
            node < self.syntax.len(),
        ensures
            r == lookup_ok(self.syntax, node as int),
    {
        let t = &self.syntax;
        let k = t.nodes[node].kind;
        let symbol_ok = if str_eq(k, "symbol") {
            !matches!(program_lookup(t, node), ProgLookup::Unnamed)
        } else {
            true
        };
        let wrap_ok = if str_eq(k, "directive_wrap") || str_eq(k, "directive_wrap_target") {
            match t.nodes[node].parent {
                Some(p) => !matches!(program_lookup(t, p), ProgLookup::Unnamed),
                None => true,
            }
        } else {
            true
        };
        symbol_ok && wrap_ok
    }
}

} // verus!

verus! {

impl DocumentData {
    /// The definition of the symbol at `node`: see `definition_of`.
    pub fn get_definition(&self, node: usize) -> (r: Option<SymbolDefinition<'_>>)
        requires
            self.wf(),
            node < self.syntax.len(),
            lookup_ok(self.syntax, node as int),
        ensures
            r matches Some(d) ==> definition_of(
                self.syntax,
                self.bytes(),
                analysis(self.syntax, self.bytes()).0,
                analysis(self.syntax, self.bytes()).1,
                node as int,
            ) == Some(d.st()),
            r is None ==> definition_of(
                self.syntax,
                self.bytes(),
                analysis(self.syntax, self.bytes()).0,
                analysis(self.syntax, self.bytes()).1,
                node as int,
            ) is None,
    {
        let t = &self.syntax;
        let text = self.text.as_str();
        let ghost src = self.bytes();
        let ghost ps = analysis(self.syntax, self.bytes()).0;
        let ghost gs = analysis(self.syntax, self.bytes()).1;
        proof {
            crate::programs::lemma_analysis_ok(self.syntax, src);
        }
        assert(text.spec_bytes() == src);
        let n = &t.nodes[node];
        assert(n.start_byte <= n.end_byte <= src.len());
        if str_eq(n.kind, "symbol") {
            let program: Option<&str> = match program_at(t, node) {
                Some(g) => {
                    let gn = &t.nodes[g];
                    assert(gn.start_byte <= gn.end_byte <= src.len());
                    Some(crate::text::substr(text, gn.start_byte, gn.end_byte))
                },
                None => None,
            };
            let txt = crate::text::substr(text, n.start_byte, n.end_byte);
            let prog_idx = match program {
                Some(p) => program_index(&self.programs.programs, p.as_bytes()),
                None => None,
            };
            if is_label(t, node) {
                if let Some(pi) = prog_idx {
                    let info = &self.programs.programs[pi].1;
                    assert(ps[pi as int].1 == info.st());
                    if let Some(li) = label_index(&info.labels, txt.as_bytes()) {
                        let l = &info.labels[li].1;
                        assert(labels_st(info.labels@)[li as int].1 == l.st());
                        return Some(SymbolDefinition {
                            statement_range: ts_range_to_lsp(l.statement_range),
                            program,
                            typ: SymbolType::Label(NamedSymbol {
                                text: txt,
                                name_range: ts_range_to_lsp(l.name_range),
                            }),
                        });
                    }
                }
            }
            if let Some(pi) = prog_idx {
                let info = &self.programs.programs[pi].1;
                assert(ps[pi as int].1 == info.st());
                if let Some(di) = define_index(&info.defines, txt.as_bytes()) {
                    let pd = info.defines[di].1;
                    assert(defines_st(info.defines@)[di as int].1 == pd);
                    assert(crate::programs::defines_ok(src, ps[pi as int].1.defines));
                    assert(crate::programs::range_ok(src, defines_st(info.defines@)[di as int].1.value_range));
                    let value = crate::text::substr(
                        text,
                        pd.value_range.start_byte,
                        pd.value_range.end_byte,
                    );
                    return Some(SymbolDefinition {
                        statement_range: ts_range_to_lsp(pd.statement_range),
                        program,
                        typ: SymbolType::Define {
                            value,
                            named: NamedSymbol { text: txt, name_range: ts_range_to_lsp(pd.name_range) },
                        },
                    });
                }
            }
            if let Some(gi) = define_index(&self.programs.global_defines, txt.as_bytes()) {
                let pd = self.programs.global_defines[gi].1;
                assert(gs[gi as int].1 == pd);
                assert(crate::programs::range_ok(src, gs[gi as int].1.value_range));
                let value = crate::text::substr(text, pd.value_range.start_byte, pd.value_range.end_byte);
                return Some(SymbolDefinition {
                    statement_range: ts_range_to_lsp(pd.statement_range),
                    program: None,
                    typ: SymbolType::Define {
                        value,
                        named: NamedSymbol { text: txt, name_range: ts_range_to_lsp(pd.name_range) },
                    },
                });
            }
            None
        } else if str_eq(n.kind, "directive_wrap") || str_eq(n.kind, "directive_wrap_target") {
            match n.parent {
                Some(p) => {
                    assert(node > 0);
                    match program_at(t, p) {
                        Some(g) => {
                            let gn = &t.nodes[g];
                            assert(gn.start_byte <= gn.end_byte <= src.len());
                            let name = crate::text::substr(text, gn.start_byte, gn.end_byte);
                            match program_index(&self.programs.programs, name.as_bytes()) {
                                Some(pi) => {
                                    let info = &self.programs.programs[pi].1;
                                    assert(ps[pi as int].1 == info.st());
                                    match info.wrap_target {
                                        Some(wt) => Some(SymbolDefinition {
                                            statement_range: wt,
                                            program: Some(name),
                                            typ: SymbolType::Wrap,
                                        }),
                                        None => None,
                                    }
                                },
                                None => None,
                            }
                        },
                        None => None,
                    }
                },
                None => None,
            }
        } else {
            None
        }
    }
}

} // verus!

verus! {

/// A node that the reference search looks at: the name of a `.program`, or
/// a symbol.
pub enum RefMatch {
    ProgName(usize),
    Sym(usize),
}

pub open spec fn ref_node_matches(t: SyntaxTree, n: int) -> Seq<RefMatch> {
    let p0 = match directive_program(t, n) {
        Some(ProgLookup::Found(g)) => seq![RefMatch::ProgName(g)],
        _ => Seq::empty(),
    };
    let p1 = if t.nodes@[n].kind@ == "symbol"@ { seq![RefMatch::Sym(n as usize)] } else { Seq::empty() };
    p0 + p1
}

pub open spec fn ref_matches_upto(t: SyntaxTree, k: int) -> Seq<RefMatch>
    decreases k,
{
    if k <= 0 {
        Seq::empty()
    } else {
        ref_matches_upto(t, k - 1) + ref_node_matches(t, k - 1)
    }
}

/// The symbols with text `txt` in program `program` (or anywhere, for a
/// global define), in document order; the program changes at each `.program`.
pub open spec fn ref_scan(
    t: SyntaxTree,
    src: Seq<u8>,
    program: Option<Seq<u8>>,
    txt: Seq<u8>,
    ms: Seq<RefMatch>,
) -> (Option<Seq<u8>>, Seq<Range>)
    decreases ms.len(),
{
    if ms.len() == 0 {
        (None, Seq::empty())
    } else {
        let (cur, refs) = ref_scan(t, src, program, txt, ms.drop_last());
        match ms.last() {
            RefMatch::ProgName(g) => if program is Some {
                (Some(node_bytes(t, src, g as int)), refs)
            } else {
                (cur, refs)
            },
            RefMatch::Sym(n) => if cur == program && node_bytes(t, src, n as int) == txt {
                (cur, refs.push(range_to_lsp(node_range(t, n as int))))
            } else {
                (cur, refs)
            },
        }
    }
}

/// The name of the definition of the symbol at `n` and the references to
/// it: for a define, every symbol of that name in its program (or in the
/// file, for a global define); for a label, the jump targets that name it;
/// for `.wrap_target`, the `.wrap` of the program.
pub open spec fn references_of(
    t: SyntaxTree,
    src: Seq<u8>,
    ps: Seq<(Seq<u8>, InfoSt)>,
    gs: Seq<(Seq<u8>, ProgramDefine)>,
    n: int,
) -> Option<(Range, Seq<Range>)> {
    match definition_of(t, src, ps, gs, n) {
        None => None,
        Some(d) => match d.typ {
            TypSt::Define { text, name_range, .. } => Some(
                (name_range, ref_scan(t, src, d.program, text, ref_matches_upto(t, t.len())).1),
            ),
            TypSt::Label { text, name_range } => Some(
                (
                    name_range,
                    match d.program {
                        Some(p) => match assoc_get(ps, p) {
                            Some(v) => match assoc_get(v.labels, text) {
                                Some(l) => l.references,
                                None => Seq::empty(),
                            },
                            None => Seq::empty(),
                        },
                        None => Seq::empty(),
                    },
                ),
            ),
            TypSt::Wrap => match d.program {
                Some(p) => match assoc_get(ps, p) {
                    Some(v) => match (v.wrap_target, v.wrap) {
                        (Some(wt), Some(w)) => Some((wt, seq![w])),
                        _ => None,
                    },
                    None => None,
                },
                None => None,
            },
        },
    }
}

impl DocumentData {
    /// The name of the definition of the symbol at `node` and all references
    /// to it: see `references_of`.
    pub fn get_references(&self, node: usize) -> (r: Option<(Range, Vec<Range>)>)
        requires
            self.wf(),
            node < self.syntax.len(),
            lookup_ok(self.syntax, node as int),
        ensures
            r matches Some((d, refs)) ==> references_of(
                self.syntax,
                self.bytes(),
                analysis(self.syntax, self.bytes()).0,
                analysis(self.syntax, self.bytes()).1,
                node as int,
            ) == Some((d, refs@)),
            r is None ==> references_of(
                self.syntax,
                self.bytes(),
                analysis(self.syntax, self.bytes()).0,
                analysis(self.syntax, self.bytes()).1,
                node as int,
            ) is None,
    {
        let ghost src = self.bytes();
        let ghost ps = analysis(self.syntax, self.bytes()).0;
        let definition = match self.get_definition(node) {
            Some(d) => d,
            None => {
                return None;
            },
        };
        let t = &self.syntax;
        let text = self.text.as_str();
        assert(text.spec_bytes() == src);
        match &definition.typ {
            SymbolType::Define { value: _, named } => {
                let mut refs: Vec<Range> = Vec::new();
                let mut program: Option<&str> = None;
                let ghost dp = definition.st().program;
                let ghost dt = named.text.spec_bytes();
                let mut k: usize = 0;
                while k < t.nodes.len()
                    invariant
                        t.wf(src),
                        text.spec_bytes() == src,
                        k <= t.len(),
                        ({
                            let (cur, rs) = ref_scan(*t, src, dp, dt, ref_matches_upto(*t, k as int));
                            &&& rs == refs@
                            &&& cur == match program {
                                Some(p) => Some(p.spec_bytes()),
                                None => None,
                            }
                        }),
                        dt == named.text.spec_bytes(),
                        dp == match definition.program {
                            Some(p) => Some(p.spec_bytes()),
                            None => None,
                        },
                    decreases t.len() - k,
                {
                    let ghost before = ref_matches_upto(*t, k as int);
                    // the name of a program
                    let d = directive_program_exec(t, k);
                    let ghost p0: Seq<RefMatch> = match d {
                        Some(ProgLookup::Found(g)) => seq![RefMatch::ProgName(g)],
                        _ => Seq::empty(),
                    };
                    let ghost mid = before + p0;
                    if let Some(ProgLookup::Found(g)) = d {
                        assert(mid.drop_last() =~= before);
                        if definition.program.is_some() {
                            let gn = &t.nodes[g];
                            assert(gn.start_byte <= gn.end_byte <= src.len());
                            program = Some(crate::text::substr(text, gn.start_byte, gn.end_byte));
                        }
                    } else {
                        assert(mid =~= before);
                    }
                    assert({
                        let (cur, rs) = ref_scan(*t, src, dp, dt, mid);
                        &&& rs == refs@
                        &&& cur == match program {
                            Some(p) => Some(p.spec_bytes()),
                            None => None,
                        }
                    });
                    // a symbol
                    let is_sym = str_eq(t.nodes[k].kind, "symbol");
                    let ghost p1: Seq<RefMatch> = if is_sym { seq![RefMatch::Sym(k)] } else { Seq::empty() };
                    if is_sym {
                        let kn = &t.nodes[k];
                        assert(kn.start_byte <= kn.end_byte <= src.len());
                        let same_program = match (program, definition.program) {
                            (Some(a), Some(b)) => crate::text::bytes_eq(a.as_bytes(), b.as_bytes()),
                            (None, None) => true,
                            _ => false,
                        };
                        let txt = crate::text::substr(text, kn.start_byte, kn.end_byte);
                        let ghost cur_v = match program {
                            Some(p) => Some(p.spec_bytes()),
                            None => None,
                        };
                        assert(same_program == (cur_v == dp));
                        assert(txt.spec_bytes() == node_bytes(*t, src, k as int));
                        let ghost old_refs = refs@;
                        if same_program && crate::text::bytes_eq(txt.as_bytes(), named.text.as_bytes()) {
                            refs.push(ts_range_to_lsp(node_ts_range(t, k)));
                        }
                        assert((mid + p1).drop_last() =~= mid);
                        assert((mid + p1).last() == RefMatch::Sym(k));
                    } else {
                        assert(mid + p1 =~= mid);
                    }
                    assert(ref_matches_upto(*t, (k + 1) as int) =~= mid + p1);
                    assert({
                        let (cur, rs) = ref_scan(*t, src, dp, dt, mid + p1);
                        &&& rs == refs@
                        &&& cur == match program {
                            Some(p) => Some(p.spec_bytes()),
                            None => None,
                        }
                    });
                    k = k + 1;
                }
                Some((named.name_range, refs))
            },
            SymbolType::Label(named) => {
                let mut refs: Vec<Range> = Vec::new();
                if let Some(p) = definition.program {
                    if let Some(pi) = program_index(&self.programs.programs, p.as_bytes()) {
                        let info = &self.programs.programs[pi].1;
                        assert(ps[pi as int].1 == info.st());
                        if let Some(li) = label_index(&info.labels, named.text.as_bytes()) {
                            let l = &info.labels[li].1;
                            assert(labels_st(info.labels@)[li as int].1 == l.st());
                            let mut j: usize = 0;
                            while j < l.references.len()
                                invariant
                                    j <= l.references@.len(),
                                    refs@ == l.references@.subrange(0, j as int),
                                decreases l.references@.len() - j,
                            {
                                refs.push(l.references[j]);
                                j = j + 1;
                                assert(refs@ =~= l.references@.subrange(0, j as int));
                            }
                            assert(l.references@.subrange(0, l.references@.len() as int) =~= l.references@);
                        }
                    }
                }
                assert(refs@ =~= refs@);
                Some((named.name_range, refs))
            },
            SymbolType::Wrap => {
                match definition.program {
                    Some(p) => match program_index(&self.programs.programs, p.as_bytes()) {
                        Some(pi) => {
                            let info = &self.programs.programs[pi].1;
                            assert(ps[pi as int].1 == info.st());
                            match (info.wrap_target, info.wrap) {
                                (Some(wt), Some(w)) => {
                                    let mut refs = Vec::new();
                                    refs.push(w);
                                    assert(refs@ =~= seq![w]);
                                    Some((wt, refs))
                                },
                                _ => None,
                            }
                        },
                        None => None,
                    },
                    None => None,
                }
            },
        }
    }
}

} // verus!

verus! {

/// The first range that the references of a symbol give, where renaming
/// starts, is the name of its definition (the one that preparing a rename
/// shows), or for `.wrap_target` the range of the statement that the
/// definition gives.
pub proof fn references_start_at_definition(
    t: SyntaxTree,
    src: Seq<u8>,
    ps: Seq<(Seq<u8>, InfoSt)>,
    gs: Seq<(Seq<u8>, ProgramDefine)>,
    n: int,
)
    requires
        references_of(t, src, ps, gs, n) is Some,
    ensures
        definition_of(t, src, ps, gs, n) matches Some(d) && (references_of(t, src, ps, gs, n)->0).0 == match d.typ {
            TypSt::Define { name_range, .. } => name_range,
            TypSt::Label { name_range, .. } => name_range,
            TypSt::Wrap => d.statement_range,
        },
{
    let d = definition_of(t, src, ps, gs, n)->0;
    if d.typ is Wrap {
        let k = t.nodes@[n].kind@;
        if k == "symbol"@ {
            assert(!(d.typ is Wrap));
        }
    }
}

} // verus!

verus! {

/// Updating a document with a whole new text and no old tree gives what
/// building a document afresh from that text gives, the parsers having the
/// same language: the same tree-sitter tree, the same syntax tree node by
/// node, and the same programs, global defines and inlay hints; nothing of
/// the document's earlier content stays.
pub proof fn update_with_whole_text_is_new(fresh: DocumentData, updated: DocumentData, l: tree_sitter::Language)
    requires
        fresh.wf(),
        updated.wf(),
        updated.text@ == fresh.text@,
        fresh.tree == crate::ts::parsed_tree(l, fresh.bytes(), None),
        updated.tree == crate::ts::parsed_tree(l, updated.bytes(), None),
    ensures
        updated.tree == fresh.tree,
        crate::tree::same_nodes(updated.syntax, fresh.syntax),
        programs_st(updated.programs.programs@) == programs_st(fresh.programs.programs@),
        defines_st(updated.programs.global_defines@) == defines_st(fresh.programs.global_defines@),
        updated.hints() == fresh.hints(),
{
    crate::tree::copies_of_one_tree_agree(updated.syntax, fresh.syntax, fresh.tree, fresh.bytes());
    crate::programs::lemma_analysis_same(updated.syntax, fresh.syntax, fresh.bytes());
}

} // verus!

verus! {

/// Whether child `j` of `p` is a named statement holding a `.program`.
pub open spec fn is_program_statement(t: SyntaxTree, p: int, j: int) -> bool {
    let s = t.nodes@[p].children@[j] as int;
    t.nodes@[s].is_named && directive_program(t, s) is Some
}

/// The program looked up before position `i` among the children of `p` is
/// the one of the nearest `.program` statement before `i`: when child `k`
/// holds a `.program` and none of the children between it and `i` does, it
/// is the program of child `k`; when none before `i` does, there is none.
pub proof fn program_before_is_nearest(t: SyntaxTree, p: int, i: int, k: int)
    requires
        0 <= i <= t.nodes@[p].children@.len(),
    ensures
        0 <= k < i && is_program_statement(t, p, k) && (forall|j: int|
            k < j < i ==> !#[trigger] is_program_statement(t, p, j)) ==> program_before(t, p, i)
            == directive_program(t, t.nodes@[p].children@[k] as int)->0,
        (forall|j: int| 0 <= j < i ==> !#[trigger] is_program_statement(t, p, j)) ==> program_before(
            t,
            p,
            i,
        ) == ProgLookup::NotFound,
    decreases i,
{
    if i > 0 {
        program_before_is_nearest(t, p, i - 1, k);
        assert(is_program_statement(t, p, i - 1) == (t.nodes@[t.nodes@[p].children@[i - 1] as int].is_named
            && directive_program(t, t.nodes@[p].children@[i - 1] as int) is Some));
    }
}

/// A top-level statement belongs to the nearest `.program` before it: for a
/// child `n` of the `source_file`, when its sibling `k` before it holds a
/// `.program` and none between them does, `n` is in that program.
pub proof fn statement_is_in_nearest_program(t: SyntaxTree, n: int, k: int)
    requires
        t.wf_links(),
        0 <= n < t.len(),
        t.nodes@[n].parent matches Some(p) && t.nodes@[p as int].kind@ == "source_file"@,
        0 <= k < t.nodes@[n].child_index,
        is_program_statement(t, t.nodes@[n].parent->0 as int, k),
        forall|j: int|
            k < j < t.nodes@[n].child_index ==> !#[trigger] is_program_statement(
                t,
                t.nodes@[n].parent->0 as int,
                j,
            ),
    ensures
        program_of(t, n) == directive_program(
            t,
            t.nodes@[t.nodes@[n].parent->0 as int].children@[k] as int,
        )->0,
{
    let p = t.nodes@[n].parent->0 as int;
    reveal(SyntaxTree::in_parent);
    assert(n > 0);
    assert(t.in_parent(n));
    program_before_is_nearest(t, p, t.nodes@[n].child_index as int, k);
}

} // verus!

verus! {

/// The ranges of the symbols among `ms` whose text is `txt`, in order.
pub open spec fn symbols_named(t: SyntaxTree, src: Seq<u8>, txt: Seq<u8>, ms: Seq<RefMatch>) -> Seq<Range>
    decreases ms.len(),
{
    if ms.len() == 0 {
        Seq::empty()
    } else {
        let r = symbols_named(t, src, txt, ms.drop_last());
        match ms.last() {
            RefMatch::Sym(n) => if node_bytes(t, src, n as int) == txt {
                r.push(range_to_lsp(node_range(t, n as int)))
            } else {
                r
            },
            RefMatch::ProgName(_) => r,
        }
    }
}

/// Whether `ms` names no program.
pub open spec fn no_program_name(ms: Seq<RefMatch>) -> bool {
    forall|j: int| 0 <= j < ms.len() ==> (#[trigger] ms[j]) is Sym
}

/// The references to a global define are all the symbols of its name, in
/// whatever program they stand.
pub proof fn global_define_references(t: SyntaxTree, src: Seq<u8>, txt: Seq<u8>, ms: Seq<RefMatch>)
    ensures
        ref_scan(t, src, None, txt, ms).0 is None,
        ref_scan(t, src, None, txt, ms).1 == symbols_named(t, src, txt, ms),
    decreases ms.len(),
{
    if ms.len() > 0 {
        global_define_references(t, src, txt, ms.drop_last());
    }
}

/// Before any program is named, a define of a program has no references.
pub proof fn no_references_before_a_program(
    t: SyntaxTree,
    src: Seq<u8>,
    prog: Seq<u8>,
    txt: Seq<u8>,
    ms: Seq<RefMatch>,
)
    requires
        no_program_name(ms),
    ensures
        ref_scan(t, src, Some(prog), txt, ms).0 is None,
        ref_scan(t, src, Some(prog), txt, ms).1 == Seq::<Range>::empty(),
    decreases ms.len(),
{
    if ms.len() > 0 {
        let p = ms.drop_last();
        assert forall|j: int| 0 <= j < p.len() implies (#[trigger] p[j]) is Sym by {
            assert(p[j] == ms[j]);
        }
        no_references_before_a_program(t, src, prog, txt, p);
        assert(ms[ms.len() - 1] is Sym);
    }
}

/// The references to a define of program `prog`: after the name `g` of a
/// program, and until the next program name, every symbol with the define's
/// name is a reference when `g` names `prog`, and none is otherwise.
pub proof fn program_define_references(
    t: SyntaxTree,
    src: Seq<u8>,
    prog: Seq<u8>,
    txt: Seq<u8>,
    before: Seq<RefMatch>,
    g: usize,
    after: Seq<RefMatch>,
)
    requires
        no_program_name(after),
    ensures
        ref_scan(t, src, Some(prog), txt, before + seq![RefMatch::ProgName(g)] + after).0 == Some(
            node_bytes(t, src, g as int),
        ),
        ref_scan(t, src, Some(prog), txt, before + seq![RefMatch::ProgName(g)] + after).1 == ref_scan(
            t,
            src,
            Some(prog),
            txt,
            before,
        ).1 + if node_bytes(t, src, g as int) == prog {
            symbols_named(t, src, txt, after)
        } else {
            Seq::<Range>::empty()
        },
    decreases after.len(),
{
    let head = before + seq![RefMatch::ProgName(g)];
    if after.len() == 0 {
        assert(head + after =~= head);
        assert(head.drop_last() =~= before);
        assert(symbols_named(t, src, txt, after) == Seq::<Range>::empty());
    } else {
        let p = after.drop_last();
        assert forall|j: int| 0 <= j < p.len() implies (#[trigger] p[j]) is Sym by {
            assert(p[j] == after[j]);
        }
        program_define_references(t, src, prog, txt, before, g, p);
        assert((head + after).drop_last() =~= head + p);
        assert((head + after).last() == after.last());
        assert(after[after.len() - 1] is Sym);
        let r0 = ref_scan(t, src, Some(prog), txt, before).1;
        if node_bytes(t, src, g as int) == prog {
            let s = symbols_named(t, src, txt, p);
            match after.last() {
                RefMatch::Sym(n) => {
                    let x = range_to_lsp(node_range(t, n as int));
                    assert((r0 + s).push(x) =~= r0 + s.push(x));
                },
                RefMatch::ProgName(_) => {},
            }
        } else {
            assert(r0 + Seq::<Range>::empty() =~= r0);
        }
    }
}

} // verus!

verus! {

/// The reference search looks at every symbol of the tree, and only at
/// symbols: among the first `k` nodes, node `n` is scanned as a symbol
/// exactly when it is one.
pub proof fn reference_search_sees_every_symbol(t: SyntaxTree, k: int, n: int)
    requires
        0 <= n < k <= usize::MAX,
    ensures
        ref_matches_upto(t, k).contains(RefMatch::Sym(n as usize)) <==> t.nodes@[n].kind@ == "symbol"@,
    decreases k,
{
    let m = ref_matches_upto(t, k);
    let prev = ref_matches_upto(t, k - 1);
    let here = ref_node_matches(t, k - 1);
    assert(m == prev + here);
    let p0 = match directive_program(t, k - 1) {
        Some(ProgLookup::Found(g)) => seq![RefMatch::ProgName(g)],
        _ => Seq::<RefMatch>::empty(),
    };
    assert forall|j: int| 0 <= j < p0.len() implies (#[trigger] p0[j]) is ProgName by {}
    let p1 = if t.nodes@[k - 1].kind@ == "symbol"@ {
        seq![RefMatch::Sym((k - 1) as usize)]
    } else {
        Seq::<RefMatch>::empty()
    };
    assert(here == p0 + p1);
    if n < k - 1 {
        reference_search_sees_every_symbol(t, k - 1, n);
        if m.contains(RefMatch::Sym(n as usize)) {
            let j = choose|j: int| 0 <= j < m.len() && m[j] == RefMatch::Sym(n as usize);
            if j >= prev.len() {
                assert(here[j - prev.len()] == RefMatch::Sym(n as usize));
                if j - prev.len() < p0.len() {
                    assert(p0[j - prev.len()] is ProgName);
                } else {
                    assert(p1[j - prev.len() - p0.len()] == RefMatch::Sym(n as usize));
                    assert(n == k - 1);
                }
            } else {
                assert(prev[j] == m[j]);
            }
        }
        if prev.contains(RefMatch::Sym(n as usize)) {
            let j = choose|j: int| 0 <= j < prev.len() && prev[j] == RefMatch::Sym(n as usize);
            assert(m[j] == prev[j]);
        }
    } else {
        if t.nodes@[n].kind@ == "symbol"@ {
            assert(m[m.len() - 1] == RefMatch::Sym(n as usize));
        }
        if m.contains(RefMatch::Sym(n as usize)) {
            let j = choose|j: int| 0 <= j < m.len() && m[j] == RefMatch::Sym(n as usize);
            if j < prev.len() {
                assert(prev[j] == m[j]);
                lemma_ref_matches_below(t, k - 1, j);
            } else {
                assert(here[j - prev.len()] == RefMatch::Sym(n as usize));
                if j - prev.len() < p0.len() {
                    assert(p0[j - prev.len()] is ProgName);
                }
            }
        }
    }
}

/// The symbols scanned among the first `k` nodes are nodes before `k`.
proof fn lemma_ref_matches_below(t: SyntaxTree, k: int, j: int)
    requires
        0 <= j < ref_matches_upto(t, k).len(),
    ensures
        ref_matches_upto(t, k)[j] matches RefMatch::Sym(s) ==> s < k,
    decreases k,
{
    if k > 0 {
        let prev = ref_matches_upto(t, k - 1);
        let here = ref_node_matches(t, k - 1);
        assert(ref_matches_upto(t, k) == prev + here);
        if j < prev.len() {
            lemma_ref_matches_below(t, k - 1, j);
        } else {
            let p0 = match directive_program(t, k - 1) {
                Some(ProgLookup::Found(g)) => seq![RefMatch::ProgName(g)],
                _ => Seq::<RefMatch>::empty(),
            };
            if j - prev.len() < p0.len() {
                assert(p0[j - prev.len()] is ProgName);
            }
        }
    }
}

} // verus!
