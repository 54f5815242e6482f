//! The tree-sitter calls that the library makes, each behind a trusted item,
//! and names for what they give.
use vstd::prelude::*;
use crate::tree::Point;

verus! {

#[verifier::external_type_specification]
#[verifier::external_body]
pub struct ExLanguage(tree_sitter::Language);

#[verifier::external_type_specification]
#[verifier::external_body]
pub struct ExLanguageError(tree_sitter::LanguageError);

#[verifier::external_type_specification]
#[verifier::external_body]
pub struct ExParser(tree_sitter::Parser);

#[verifier::external_type_specification]
#[verifier::external_body]
pub struct ExTree(tree_sitter::Tree);

#[verifier::external_type_specification]
#[verifier::external_body]
pub struct ExInputEdit(tree_sitter::InputEdit);

/// The ABI version of a language (`Language::abi_version`).
pub uninterp spec fn language_abi_version(l: tree_sitter::Language) -> usize;

/// Whether a language is a WebAssembly one (`ts_language_is_wasm`).
pub uninterp spec fn language_is_wasm(l: tree_sitter::Language) -> bool;

/// The language a parser is set to (`Parser::language`).
pub uninterp spec fn parser_language(p: tree_sitter::Parser) -> Option<tree_sitter::Language>;

/// The parse timeout of a parser in microseconds (`Parser::timeout_micros`).
pub uninterp spec fn parser_timeout(p: tree_sitter::Parser) -> u64;

/// Whether a parser has a cancellation flag (`Parser::cancellation_flag`).
pub uninterp spec fn parser_cancellation(p: tree_sitter::Parser) -> bool;

/// Whether `Parser::included_ranges` of a parser is the default one, the
/// whole document.
pub uninterp spec fn parser_default_ranges(p: tree_sitter::Parser) -> bool;

/// Whether a parse that a timeout, a cancellation or a callback halted waits
/// in the parser, to be resumed by the next call (`Parser::reset`).
pub uninterp spec fn parser_halted(p: tree_sitter::Parser) -> bool;

/// The tree that `Parser::parse` gives for `text` with language `l`, the
/// default included ranges and no halted parse, reusing `old`.
pub uninterp spec fn parsed_tree(l: tree_sitter::Language, text: Seq<u8>, old: Option<tree_sitter::Tree>) -> tree_sitter::Tree;

/// A tree after `Tree::edit` with `e`.
pub uninterp spec fn tree_after_edit(t: tree_sitter::Tree, e: tree_sitter::InputEdit) -> tree_sitter::Tree;

/// The `InputEdit` with these six fields.
pub uninterp spec fn input_edit_of(
    start_byte: usize,
    old_end_byte: usize,
    new_end_byte: usize,
    start_position: Point,
    old_end_position: Point,
    new_end_position: Point,
) -> tree_sitter::InputEdit;

/// The number of nodes of a tree, its root included
/// (`Node::descendant_count` of the root).
pub uninterp spec fn tree_node_count(t: tree_sitter::Tree) -> usize;

/// What tree-sitter reports of the `i`-th node of a tree in preorder.
pub uninterp spec fn tree_descendant(t: tree_sitter::Tree, i: usize) -> NodeFacts;

/// A parser that includes whole documents and holds no halted parse: what
/// it gives is a function of its language, the text and the old tree.
pub open spec fn parser_idle(p: tree_sitter::Parser) -> bool {
    parser_default_ranges(p) && !parser_halted(p)
}

/// An idle parser with a language that is not a WebAssembly one, no timeout
/// and no cancellation flag: tree-sitter documents that its parses give a
/// tree.
pub open spec fn parser_ready(p: tree_sitter::Parser) -> bool {
    &&& parser_language(p) matches Some(l) && !language_is_wasm(l)
    &&& parser_timeout(p) == 0
    &&& !parser_cancellation(p)
    &&& parser_idle(p)
}

/// Language, timeout, cancellation flag and included ranges of parser `b`
/// are those of `a`, and `b` is ready when `a` was.
pub open spec fn parser_kept(a: tree_sitter::Parser, b: tree_sitter::Parser) -> bool {
    &&& parser_language(b) == parser_language(a)
    &&& parser_timeout(b) == parser_timeout(a)
    &&& parser_cancellation(b) == parser_cancellation(a)
    &&& parser_default_ranges(b) == parser_default_ranges(a)
    &&& parser_ready(a) ==> !parser_halted(b)
}

/// The tree that an idle parser gives for `text`, reusing `old`.
pub open spec fn parse_of(p: tree_sitter::Parser, text: Seq<u8>, old: Option<tree_sitter::Tree>) -> tree_sitter::Tree {
    parsed_tree(parser_language(p)->0, text, old)
}

/// The tree behind an optional reference.
pub open spec fn opt_tree(o: Option<&tree_sitter::Tree>) -> Option<tree_sitter::Tree> {
    match o {
        Some(t) => Some(*t),
        None => None,
    }
}

/// What tree-sitter reports of one node, as plain values.
#[derive(Clone, Copy, Debug, PartialEq, Eq)]
pub struct NodeFacts {
    /// `Node::kind`
    pub kind: &'static str,
    /// `TreeCursor::field_name` at the node
    pub field_name: Option<&'static str>,
    /// `Node::is_named`
    pub is_named: bool,
    /// `Node::start_byte`
    pub start_byte: usize,
    /// `Node::end_byte`
    pub end_byte: usize,
    /// `Node::start_position`
    pub start_point: Point,
    /// `Node::end_position`
    pub end_point: Point,
    /// `TreeCursor::depth` below the root
    pub depth: u32,
}

/// Calls `tree_sitter::Parser::new`. The tree-sitter source sets a new
/// parser to no language, no timeout, no cancellation flag, the default
/// included ranges and no halted parse.
#[verifier::external_body]
pub(crate) fn parser_new() -> (r: tree_sitter::Parser)
    ensures
        parser_language(r) is None,
        parser_timeout(r) == 0,
        !parser_cancellation(r),
        parser_default_ranges(r),
        !parser_halted(r),
{
    tree_sitter::Parser::new()
}

/// Calls `tree_sitter::Parser::set_language`. Its source succeeds exactly
/// when the language's ABI version is in
/// `MIN_COMPATIBLE_LANGUAGE_VERSION..=LANGUAGE_VERSION` (13 to 15), and then
/// sets the language (for a language that is not a WebAssembly one), drops
/// any halted parse (`ts_parser_reset`) and keeps timeout, cancellation flag
/// and included ranges; it leaves the parser alone when it fails.
#[verifier::external_body]
pub(crate) fn parser_set_language(
    parser: &mut tree_sitter::Parser,
    language: &tree_sitter::Language,
) -> (r: Result<(), tree_sitter::LanguageError>)
    ensures
        r is Ok <==> 13 <= language_abi_version(*language) <= 15,
        r is Ok && !language_is_wasm(*language) ==> parser_language(*final(parser)) == Some(*language),
        r is Ok ==> parser_timeout(*final(parser)) == parser_timeout(*old(parser)),
        r is Ok ==> parser_cancellation(*final(parser)) == parser_cancellation(*old(parser)),
        r is Ok ==> parser_default_ranges(*final(parser)) == parser_default_ranges(*old(parser)),
        r is Ok ==> !parser_halted(*final(parser)),
        r is Err ==> *final(parser) == *old(parser),
{
    parser.set_language(language)
}

/// Calls `tree_sitter::Parser::parse` on the bytes of `text`, reusing
/// `old_tree` where given. tree-sitter documents `None` only without a
/// language, on a timeout or on cancellation, so a ready parser gives a
/// tree. From an idle parser the tree is named `parsed_tree` of the
/// parser's language, the text and the old tree; a parser that holds a
/// halted parse resumes it instead, so nothing is said of its tree. A parse
/// that gives a tree ends with `ts_parser_reset`, which leaves no halted
/// parse; language, timeout, cancellation flag and included ranges stay as
/// they were.
#[verifier::external_body]
pub(crate) fn parser_parse(
    parser: &mut tree_sitter::Parser,
    text: &str,
    old_tree: Option<&tree_sitter::Tree>,
) -> (r: Option<tree_sitter::Tree>)
    ensures
        parser_ready(*old(parser)) ==> r is Some,
        r is Some ==> parser_language(*old(parser)) is Some,
        r matches Some(t) ==> parser_idle(*old(parser)) ==> t == parsed_tree(
            parser_language(*old(parser))->0,
            vstd::string::StringSliceAdditionalSpecFns::spec_bytes(text),
            opt_tree(old_tree),
        ),
        r is Some ==> !parser_halted(*final(parser)),
        parser_language(*final(parser)) == parser_language(*old(parser)),
        parser_timeout(*final(parser)) == parser_timeout(*old(parser)),
        parser_cancellation(*final(parser)) == parser_cancellation(*old(parser)),
        parser_default_ranges(*final(parser)) == parser_default_ranges(*old(parser)),
{
    parser.parse(text, old_tree)
}

/// Calls `<tree_sitter::Tree as Clone>::clone`, which copies the tree.
#[verifier::external_body]
pub(crate) fn tree_clone(tree: &tree_sitter::Tree) -> (r: tree_sitter::Tree)
    ensures
        r == *tree,
{
    tree.clone()
}

/// Calls `tree_sitter::Tree::edit`, which shifts the positions stored in the
/// tree by the edit; the result is named `tree_after_edit`.
#[verifier::external_body]
pub(crate) fn tree_edit(tree: &mut tree_sitter::Tree, edit: &tree_sitter::InputEdit)
    ensures
        *final(tree) == tree_after_edit(*old(tree), *edit),
{
    tree.edit(edit)
}

/// Builds a `tree_sitter::InputEdit` from its six fields.
#[verifier::external_body]
pub(crate) fn input_edit(
    start_byte: usize,
    old_end_byte: usize,
    new_end_byte: usize,
    start_position: Point,
    old_end_position: Point,
    new_end_position: Point,
) -> (r: tree_sitter::InputEdit)
    ensures
        r == input_edit_of(start_byte, old_end_byte, new_end_byte, start_position, old_end_position, new_end_position),
{
    tree_sitter::InputEdit {
        start_byte,
        old_end_byte,
        new_end_byte,
        start_position: tree_sitter::Point::new(start_position.row, start_position.column),
        old_end_position: tree_sitter::Point::new(old_end_position.row, old_end_position.column),
        new_end_position: tree_sitter::Point::new(new_end_position.row, new_end_position.column),
    }
}

/// Calls `Node::descendant_count` on the root of `tree`, documented as the
/// number of descendants including the node itself.
#[verifier::external_body]
pub(crate) fn node_count(tree: &tree_sitter::Tree) -> (r: usize)
    ensures
        r == tree_node_count(*tree),
        r >= 1,
{
    tree.root_node().descendant_count()
}

/// Walks a cursor from the root of `tree` to its `i`-th descendant in
/// preorder (`TreeCursor::goto_descendant`, the root being the 0th) and reads
/// the node there; the result is named `tree_descendant`.
#[verifier::external_body]
pub(crate) fn descendant(tree: &tree_sitter::Tree, i: usize) -> (r: NodeFacts)
    ensures
        r == tree_descendant(*tree, i),
{
    let mut c = tree.root_node().walk();
    c.goto_descendant(i);
    let n = c.node();
    let (s, e) = (n.start_position(), n.end_position());
    NodeFacts {
        kind: n.kind(),
        field_name: c.field_name(),
        is_named: n.is_named(),
        start_byte: n.start_byte(),
        end_byte: n.end_byte(),
        start_point: Point { row: s.row, column: s.column },
        end_point: Point { row: e.row, column: e.column },
        depth: c.depth(),
    }
}

} // verus!
