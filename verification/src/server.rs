//! The answers of the language server to an editor's requests about a
//! document, as plain values: definitions, references, renaming, hover,
//! highlights and formatting.
use vstd::prelude::*;
use vstd::utf8::{decode_utf8, encode_utf8_decode_utf8};
use vstd::string::StringSliceAdditionalSpecFns;
use crate::edit::{full_range, full_range_of};
use crate::formatter::{format_bytes, format_tree};
use crate::hover::hover_of;
use crate::lsp::{definition_of, lookup_ok, references_of, DocumentData, Range, SymbolType, TypSt};
use crate::programs::analysis;

verus! {

/// What hovering shows: the documentation of an instruction (Markdown) or
/// the value of a `.define` (plain text).
pub enum HoverText {
    Markdown(String),
    Plain(String),
}

pub enum HoverSt {
    Markdown(Seq<char>),
    Plain(Seq<char>),
}

impl HoverText {
    pub open spec fn st(&self) -> HoverSt {
        match self {
            HoverText::Markdown(s) => HoverSt::Markdown(s@),
            HoverText::Plain(s) => HoverSt::Plain(s@),
        }
    }
}

/// How a range of a symbol is highlighted: where it is defined or where it
/// is used.
#[derive(Clone, Copy, Debug, PartialEq, Eq)]
pub enum HighlightKind {
    Read,
    Write,
}

impl DocumentData {
    /// The definition of the symbol at `n`, as `definition_of` gives it for
    /// this document.
    pub open spec fn definition_at(&self, n: int) -> Option<crate::lsp::DefSt> {
        definition_of(
            self.syntax,
            self.bytes(),
            analysis(self.syntax, self.bytes()).0,
            analysis(self.syntax, self.bytes()).1,
            n,
        )
    }

    /// The references of the symbol at `n`, as `references_of` gives them for
    /// this document.
    pub open spec fn references_at(&self, n: int) -> Option<(Range, Seq<Range>)> {
        references_of(
            self.syntax,
            self.bytes(),
            analysis(self.syntax, self.bytes()).0,
            analysis(self.syntax, self.bytes()).1,
            n,
        )
    }

    /// What hovering node `n` shows: the documentation of the instruction
    /// or operand there, else the value of the `.define` of the symbol there.
    pub open spec fn hover_at(&self, n: int) -> Option<HoverSt> {
        match hover_of(self.syntax, self.bytes(), n) {
            Some(h) => Some(HoverSt::Markdown(h)),
            None => match self.definition_at(n) {
                Some(d) => match d.typ {
                    TypSt::Define { value, .. } => Some(HoverSt::Plain(decode_utf8(value))),
                    _ => None,
                },
                None => None,
            },
        }
    }

    /// Where the symbol at `node` is defined: the range of its whole
    /// statement.
    pub fn definition_range(&self, node: usize) -> (r: Option<Range>)
        requires
            self.wf(),
            node < self.syntax.len(),
            lookup_ok(self.syntax, node as int),
        ensures
            r == match self.definition_at(node as int) {
                Some(d) => Some(d.statement_range),
                None => None,
            },
    {
        match self.get_definition(node) {
            Some(d) => Some(d.statement_range),
            None => None,
        }
    }

    /// The ranges of the references to the symbol at `node`, after the name
    /// of its definition when `include_declaration` is set. Renaming the
    /// symbol replaces the text of all of them, the name included.
    pub fn reference_ranges(&self, node: usize, include_declaration: bool) -> (r: Option<Vec<Range>>)
        requires
            self.wf(),
            node < self.syntax.len(),
            lookup_ok(self.syntax, node as int),
        ensures
            match self.references_at(node as int) {
                Some((d, refs)) => r matches Some(v) && v@ == if include_declaration {
                    seq![d] + refs
                } else {
                    refs
                },
                None => r is None,
            },
    {
        match self.get_references(node) {
            Some((d, refs)) => {
                let mut out: Vec<Range> = Vec::new();
                if include_declaration {
                    out.push(d);
                }
                let ghost start = out@;
                let mut i: usize = 0;
                while i < refs.len()
                    invariant
                        i <= refs@.len(),
                        out@ == start + refs@.subrange(0, i as int),
                    decreases refs@.len() - i,
                {
                    out.push(refs[i]);
                    i = i + 1;
                    assert(refs@.subrange(0, i as int) =~= refs@.subrange(0, i - 1).push(refs@[i - 1]));
                }
                assert(refs@.subrange(0, refs@.len() as int) =~= refs@);
                assert(include_declaration ==> start =~= seq![d]);
                assert(!include_declaration ==> start =~= Seq::<Range>::empty());
                Some(out)
            },
            None => None,
        }
    }

    /// The range of the name that renaming the symbol at `node` changes (none
    /// for `.wrap_target`).
    pub fn rename_range(&self, node: usize) -> (r: Option<Range>)
        requires
            self.wf(),
            node < self.syntax.len(),
            lookup_ok(self.syntax, node as int),
        ensures
            r == match self.definition_at(node as int) {
                Some(d) => match d.typ {
                    TypSt::Define { name_range, .. } => Some(name_range),
                    TypSt::Label { name_range, .. } => Some(name_range),
                    TypSt::Wrap => None,
                },
                None => None,
            },
    {
        match self.get_definition(node) {
            Some(d) => d.name_range(),
            None => None,
        }
    }

    /// What hovering `node` shows.
    pub fn hover(&self, node: usize) -> (r: Option<HoverText>)
        requires
            self.wf(),
            node < self.syntax.len(),
            hover_of(self.syntax, self.bytes(), node as int) is None ==> lookup_ok(self.syntax, node as int),
        ensures
            match r {
                Some(h) => self.hover_at(node as int) == Some(h.st()),
                None => self.hover_at(node as int) is None,
            },
    {
        if let Some(value) = self.hover_instr(node) {
            return Some(HoverText::Markdown(value));
        }
        match self.get_definition(node) {
            Some(d) => match d.typ {
                SymbolType::Define { value, .. } => {
                    proof {
                        encode_utf8_decode_utf8(value@);
                    }
                    Some(HoverText::Plain(value.to_owned()))
                },
                _ => None,
            },
            None => None,
        }
    }

    /// The ranges to highlight for the symbol at `node`: the name of its
    /// definition, written, then each reference, read.
    pub fn highlights(&self, node: usize) -> (r: Option<Vec<(Range, HighlightKind)>>)
        requires
            self.wf(),
            node < self.syntax.len(),
            lookup_ok(self.syntax, node as int),
        ensures
            match self.references_at(node as int) {
                Some((d, refs)) => r matches Some(v) && v@ == seq![(d, HighlightKind::Write)] + refs.map_values(
                    |x: Range| (x, HighlightKind::Read),
                ),
                None => r is None,
            },
    {
        match self.get_references(node) {
            Some((d, refs)) => {
                let mut out: Vec<(Range, HighlightKind)> = Vec::new();
                out.push((d, HighlightKind::Write));
                let mut i: usize = 0;
                while i < refs.len()
                    invariant
                        i <= refs@.len(),
                        out@ == seq![(d, HighlightKind::Write)] + refs@.subrange(0, i as int).map_values(
                            |x: Range| (x, HighlightKind::Read),
                        ),
                    decreases refs@.len() - i,
                {
                    out.push((refs[i], HighlightKind::Read));
                    i = i + 1;
                    assert(refs@.subrange(0, i as int).map_values(|x: Range| (x, HighlightKind::Read))
                        =~= refs@.subrange(0, i - 1).map_values(|x: Range| (x, HighlightKind::Read)).push(
                        (refs@[i - 1], HighlightKind::Read),
                    ));
                }
                assert(refs@.subrange(0, refs@.len() as int) =~= refs@);
                Some(out)
            },
            None => None,
        }
    }

    /// The edit that formats the whole document: its full range and the
    /// formatted text.
    pub fn formatting_edit(&self) -> (r: (Range, String))
        requires
            self.wf(),
        ensures
            r.0 == full_range_of(self.bytes()),
            vstd::utf8::encode_utf8(r.1@) == format_bytes(self.syntax, self.bytes()),
    {
        let text = self.text.as_str();
        (full_range(text), format_tree(text, &self.syntax))
    }
}

} // verus!
