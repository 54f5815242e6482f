//! A language server and formatter for Raspberry Pi PIO assembly, built on
//! the tree-sitter PIO grammar.
use vstd::prelude::*;

pub mod cli;
pub mod diagnostics;
pub mod doc;
pub mod edit;
pub mod formatter;
pub mod hover;
pub mod lsp;
pub mod programs;
pub mod server;
pub mod text;
pub mod tree;
pub mod ts;

verus! {

/// The tree-sitter grammar of PIO assembly: calls
/// `tree_sitter_pio::LANGUAGE.into()`. The grammar's generated parser sets
/// its ABI version to 15 (`LANGUAGE_VERSION` in its `parser.c`) and is a
/// native one, not a WebAssembly one.
#[verifier::external_body]
pub fn pio_lang() -> (r: tree_sitter::Language)
    ensures
        ts::language_abi_version(r) == 15,
        !ts::language_is_wasm(r),
{
    tree_sitter_pio::LANGUAGE.into()
}

/// A tree-sitter parser set up for PIO assembly: it has the PIO language, no
/// timeout, no cancellation flag, the default included ranges and no halted
/// parse, so its parses give a tree. It would be
/// `None` when the grammar's ABI version did not fit the tree-sitter library
/// (13 to 15), which it does.
pub fn pio_parser() -> (r: Option<tree_sitter::Parser>)
    ensures
        r matches Some(p) && ts::parser_ready(p),
        r matches Some(p) && ts::parser_language(p) matches Some(l) && ts::language_abi_version(l) == 15
            && !ts::language_is_wasm(l),
{
    let mut parser = ts::parser_new();
    let lang = pio_lang();
    match ts::parser_set_language(&mut parser, &lang) {
        Ok(()) => Some(parser),
        Err(_) => None,
    }
}

} // verus!
