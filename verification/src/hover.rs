//! Hover documentation for instructions and their operands.
use vstd::prelude::*;
use vstd::string::{StringExecFns, StringSliceAdditionalSpecFns};
use vstd::utf8::{decode_utf8, encode_utf8, encode_utf8_decode_utf8};
use crate::doc::{instruction_doc_table, instruction_docs, jmp_operands, operand_table, operand_table_of};
use crate::lsp::{field_in_parent, get_instruction, get_named_node_field_name, has_label_ancestor, instr_path, is_label, DocumentData};
use crate::text::{bytes_eq, bytes_starts_with, lowercase, range_eq, str_eq, substr, to_lowercase, to_uppercase, uppercase};
use crate::tree::{child_by_field_name, child_of_kind, field_child_at, kind_child_at, SyntaxTree};

verus! {

/// What hovering the `source` of a `wait` on its own shows.
pub const WAIT_SOURCE_SYNTAX: &'static str = "gpio | pin | irq ( prev | next ) | jmppin";

/// The character view of an optional string.
pub open spec fn opt_chars(r: Option<String>) -> Option<Seq<char>> {
    match r {
        Some(s) => Some(s@),
        None => None,
    }
}

/// `p` is a prefix of `s`.
pub open spec fn has_prefix(s: Seq<u8>, p: Seq<u8>) -> bool {
    p.len() <= s.len() && s.subrange(0, p.len() as int) == p
}

/// The first entry of `t`, from position `i` on, whose key has the bytes `key`.
pub open spec fn entry_index_from(t: Seq<(&'static str, &'static str)>, key: Seq<u8>, i: int) -> Option<int>
    decreases t.len() - i,
{
    if i < 0 || i >= t.len() {
        None
    } else if t[i].0.spec_bytes() == key {
        Some(i)
    } else {
        entry_index_from(t, key, i + 1)
    }
}

/// The text of the first entry of `t` whose key has the bytes `key`.
pub open spec fn entry_text(t: Seq<(&'static str, &'static str)>, key: Seq<u8>) -> Option<Seq<char>> {
    match entry_index_from(t, key, 0) {
        Some(i) => Some(t[i].1@),
        None => None,
    }
}

/// The position of the first space in `s`, from position `i` on.
pub open spec fn space_index_from(s: Seq<u8>, i: int) -> Option<int>
    decreases s.len() - i,
{
    if i < 0 || i >= s.len() {
        None
    } else if s[i] == 32u8 {
        Some(i)
    } else {
        space_index_from(s, i + 1)
    }
}

/// What comes after the first space of `s`, if it has one.
pub open spec fn after_space(s: Seq<u8>) -> Option<Seq<u8>> {
    match space_index_from(s, 0) {
        Some(i) => Some(s.subrange(i + 1, s.len() as int)),
        None => None,
    }
}

/// What comes before the first space of `s` (all of it when it has none).
pub open spec fn before_space(s: Seq<u8>) -> Seq<u8> {
    match space_index_from(s, 0) {
        Some(i) => s.subrange(0, i),
        None => s,
    }
}

/// `s` without its leading `<`s.
pub open spec fn trim_open(s: Seq<u8>) -> Seq<u8>
    decreases s.len(),
{
    if s.len() > 0 && s[0] == 60u8 {
        trim_open(s.drop_first())
    } else {
        s
    }
}

/// `s` without its trailing `>`s.
pub open spec fn trim_close(s: Seq<u8>) -> Seq<u8>
    decreases s.len(),
{
    if s.len() > 0 && s.last() == 62u8 {
        trim_close(s.drop_last())
    } else {
        s
    }
}

/// The operand name that a syntax entry such as `<irq_num> ( rel )` stands for.
pub open spec fn operand_key(k: Seq<u8>) -> Seq<u8> {
    trim_close(trim_open(before_space(k)))
}

/// The first entry of `t`, from position `i` on, whose key has the bytes
/// `text` after its first space (such as `irq wait` for `wait`).
pub open spec fn suffix_index_from(t: Seq<(&'static str, &'static str)>, text: Seq<u8>, i: int) -> Option<int>
    decreases t.len() - i,
{
    if i < 0 || i >= t.len() {
        None
    } else if after_space(t[i].0.spec_bytes()) == Some(text) {
        Some(i)
    } else {
        suffix_index_from(t, text, i + 1)
    }
}

/// The first entry of `t`, from position `i` on, that describes the operand
/// named `op`.
pub open spec fn operand_index_from(t: Seq<(&'static str, &'static str)>, op: Seq<u8>, i: int) -> Option<int>
    decreases t.len() - i,
{
    if i < 0 || i >= t.len() {
        None
    } else if operand_key(t[i].0.spec_bytes()) == op {
        Some(i)
    } else {
        operand_index_from(t, op, i + 1)
    }
}

/// The entry of an instruction's documentation in the `MOV` overview: a
/// heading with its name, then its text.
pub open spec fn mov_section(k: &'static str, d: &'static str) -> Seq<char> {
    "# "@ + k@ + "\n"@ + d@ + "\n"@
}

/// The sections of all entries of `t`, from position `i` on, whose name
/// starts with `MOV`.
pub open spec fn mov_sections_from(t: Seq<(&'static str, &'static str)>, i: int) -> Seq<char>
    decreases t.len() - i,
{
    if i < 0 || i >= t.len() {
        Seq::empty()
    } else if has_prefix(t[i].0.spec_bytes(), "MOV".spec_bytes()) {
        mov_section(t[i].0, t[i].1) + mov_sections_from(t, i + 1)
    } else {
        mov_sections_from(t, i + 1)
    }
}

/// The documentation shown for the opcode `opcode` (upper case): for `MOV`
/// that of every `MOV` variant, else that of the instruction.
pub open spec fn opcode_doc_of(opcode: Seq<u8>) -> Option<Seq<char>> {
    if opcode == "MOV".spec_bytes() {
        Some(mov_sections_from(instruction_docs(), 0))
    } else {
        entry_text(instruction_docs(), opcode)
    }
}

/// The operand that the `source` of a `wait` stands for: the last of
/// `gpio_num`, `pin_num` and `irq_num` that `node` has as a field.
pub open spec fn wait_operand(t: SyntaxTree, node: int, operand: &'static str) -> &'static str {
    let a = if field_child_at(t, node, "gpio_num", 0) is Some { "gpio_num" } else { operand };
    let b = if field_child_at(t, node, "pin_num", 0) is Some { "pin_num" } else { a };
    if field_child_at(t, node, "irq_num", 0) is Some { "irq_num" } else { b }
}

/// The text of the entry of `t` that describes the operand `op`.
pub open spec fn operand_text(t: Seq<(&'static str, &'static str)>, op: Seq<u8>) -> Option<Seq<char>> {
    match operand_index_from(t, op, 0) {
        Some(i) => Some(t[i].1@),
        None => None,
    }
}

/// The documentation of the operand at `node` of an instruction with the
/// opcode `opcode` (upper case), where `text` is the node's text in lower
/// case and `origin` the node that was hovered: a literal of the syntax
/// table, an `irq` mode, a jump target, or the operand named by the field
/// that holds `node`.
pub open spec fn operand_doc_of(
    t: SyntaxTree,
    origin: int,
    node: int,
    opcode: Seq<u8>,
    text: Seq<u8>,
) -> Option<Seq<char>> {
    match operand_table_of(opcode) {
        None => None,
        Some(d) => if entry_index_from(d, text, 0) is Some {
            entry_text(d, text)
        } else if opcode == "IRQ".spec_bytes() && suffix_index_from(d, text, 0) is Some {
            Some(d[suffix_index_from(d, text, 0)->0].1@)
        } else if opcode == "JMP".spec_bytes() && has_label_ancestor(t, node) {
            entry_text(d, "<target>".spec_bytes())
        } else {
            match field_in_parent(t, node) {
                None => None,
                Some(operand) => if opcode == "WAIT".spec_bytes() && operand@ == "source"@ {
                    if t.nodes@[origin].kind@ == "src"@ {
                        Some(WAIT_SOURCE_SYNTAX@)
                    } else {
                        operand_text(d, wait_operand(t, node, operand).spec_bytes())
                    }
                } else {
                    operand_text(d, operand.spec_bytes())
                },
            }
        },
    }
}

/// The text of node `n`.
pub open spec fn node_chars(t: SyntaxTree, src: Seq<u8>, n: int) -> Seq<char> {
    decode_utf8(src.subrange(t.nodes@[n].start_byte as int, t.nodes@[n].end_byte as int))
}

/// The upper-case text of node `n`, as bytes.
pub open spec fn upper_text(t: SyntaxTree, src: Seq<u8>, n: int) -> Seq<u8> {
    encode_utf8(uppercase(node_chars(t, src, n)))
}

/// The lower-case text of node `n`, as bytes.
pub open spec fn lower_text(t: SyntaxTree, src: Seq<u8>, n: int) -> Seq<u8> {
    encode_utf8(lowercase(node_chars(t, src, n)))
}

/// Hovering inside an instruction: the documentation of the operand that
/// holds `n`, found through the instruction's opcode.
pub open spec fn operand_hover(t: SyntaxTree, src: Seq<u8>, n: int) -> Option<Seq<char>> {
    match instr_path(t, n) {
        None => None,
        Some(path) => match field_child_at(t, path.last() as int, "op", 0) {
            None => None,
            Some(op) => match kind_child_at(t, op as int, "opcode", 0) {
                None => None,
                Some(oc) => {
                    let node = if path.len() >= 3 && t.nodes@[n].kind@ != "irq_target"@ {
                        path[path.len() - 3] as int
                    } else {
                        n
                    };
                    operand_doc_of(t, n, node, upper_text(t, src, oc as int), lower_text(t, src, node))
                },
            },
        },
    }
}

/// The hover documentation at node `n`: on an opcode, or on an instruction
/// node, the documentation of the instruction (nothing when an instruction
/// node has no opcode); else, or when the instruction has none, that of the
/// operand.
pub open spec fn hover_of(t: SyntaxTree, src: Seq<u8>, n: int) -> Option<Seq<char>> {
    let kind = t.nodes@[n].kind;
    let op_node = if kind@ == "opcode"@ {
        Some(Some(n as usize))
    } else if has_prefix(kind.spec_bytes(), "instr_".spec_bytes()) {
        Some(kind_child_at(t, n, "opcode", 0))
    } else {
        None
    };
    match op_node {
        Some(None) => None,
        Some(Some(o)) => match opcode_doc_of(upper_text(t, src, o as int)) {
            Some(d) => Some(d),
            None => operand_hover(t, src, n),
        },
        None => operand_hover(t, src, n),
    }
}

} // verus!

verus! {

/// The first entry of `t` whose key has the bytes `key`.
fn entry_index(t: &Vec<(&'static str, &'static str)>, key: &[u8]) -> (r: Option<usize>)
    ensures
        r matches Some(i) ==> entry_index_from(t@, key@, 0) == Some(i as int) && i < t@.len(),
        r is None ==> entry_index_from(t@, key@, 0) is None,
{
    let mut i: usize = 0;
    while i < t.len()
        invariant
            i <= t@.len(),
            entry_index_from(t@, key@, 0) == entry_index_from(t@, key@, i as int),
        decreases t@.len() - i,
    {
        if bytes_eq(t[i].0.as_bytes(), key) {
            return Some(i);
        }
        i = i + 1;
    }
    None
}

/// The position of the first space in `s`.
fn space_index(s: &[u8]) -> (r: Option<usize>)
    ensures
        r matches Some(i) ==> space_index_from(s@, 0) == Some(i as int) && i < s@.len(),
        r is None ==> space_index_from(s@, 0) is None,
{
    let mut i: usize = 0;
    while i < s.len()
        invariant
            i <= s@.len(),
            space_index_from(s@, 0) == space_index_from(s@, i as int),
        decreases s@.len() - i,
    {
        if s[i] == 32u8 {
            return Some(i);
        }
        i = i + 1;
    }
    None
}

/// Whether the key `k` has the bytes `text` after its first space.
fn suffix_is(k: &str, text: &[u8]) -> (r: bool)
    ensures
        r == (after_space(k.spec_bytes()) == Some(text@)),
{
    let kb = k.as_bytes();
    match space_index(kb) {
        Some(i) => {
            let n = kb.len();
            assert(i < n);
            range_eq(kb, i + 1, n, text)
        },
        None => false,
    }
}

/// Whether the syntax entry `k` describes the operand named `op`.
fn operand_key_is(k: &str, op: &[u8]) -> (r: bool)
    ensures
        r == (operand_key(k.spec_bytes()) == op@),
{
    let kb = k.as_bytes();
    let ghost s = kb@;
    let e = match space_index(kb) {
        Some(i) => i,
        None => kb.len(),
    };
    assert(before_space(s) =~= s.subrange(0, e as int));
    let mut a: usize = 0;
    while a < e && kb[a] == 60u8
        invariant
            a <= e <= s.len(),
            kb@ == s,
            trim_open(s.subrange(0, e as int)) == trim_open(s.subrange(a as int, e as int)),
        decreases e - a,
    {
        assert(s.subrange(a as int, e as int).drop_first() =~= s.subrange(a + 1, e as int));
        a = a + 1;
    }
    let ghost opened = s.subrange(a as int, e as int);
    assert(trim_open(opened) == opened);
    let mut b: usize = e;
    while b > a && kb[b - 1] == 62u8
        invariant
            a <= b <= e <= s.len(),
            kb@ == s,
            trim_close(opened) == trim_close(s.subrange(a as int, b as int)),
        decreases b,
    {
        assert(s.subrange(a as int, b as int).drop_last() =~= s.subrange(a as int, b - 1));
        b = b - 1;
    }
    assert(trim_close(s.subrange(a as int, b as int)) == s.subrange(a as int, b as int));
    range_eq(kb, a, b, op)
}

/// The first entry of `t` whose key has the bytes `text` after its first
/// space.
fn suffix_index(t: &Vec<(&'static str, &'static str)>, text: &[u8]) -> (r: Option<usize>)
    ensures
        r matches Some(i) ==> suffix_index_from(t@, text@, 0) == Some(i as int) && i < t@.len(),
        r is None ==> suffix_index_from(t@, text@, 0) is None,
{
    let mut i: usize = 0;
    while i < t.len()
        invariant
            i <= t@.len(),
            suffix_index_from(t@, text@, 0) == suffix_index_from(t@, text@, i as int),
        decreases t@.len() - i,
    {
        if suffix_is(t[i].0, text) {
            return Some(i);
        }
        i = i + 1;
    }
    None
}

/// The text of the entry of `t` that describes the operand `op`.
fn operand_entry(t: &Vec<(&'static str, &'static str)>, op: &[u8]) -> (r: Option<String>)
    ensures
        opt_chars(r) == operand_text(t@, op@),
{
    let mut i: usize = 0;
    while i < t.len()
        invariant
            i <= t@.len(),
            operand_index_from(t@, op@, 0) == operand_index_from(t@, op@, i as int),
        decreases t@.len() - i,
    {
        if operand_key_is(t[i].0, op) {
            return Some(t[i].1.to_owned());
        }
        i = i + 1;
    }
    None
}

/// The text of the entry of `t` whose key has the bytes `key`.
fn entry_string(t: &Vec<(&'static str, &'static str)>, key: &[u8]) -> (r: Option<String>)
    ensures
        opt_chars(r) == entry_text(t@, key@),
{
    match entry_index(t, key) {
        Some(i) => Some(t[i].1.to_owned()),
        None => None,
    }
}

/// The documentation of the opcode `opcode` (upper case): for `MOV` that of
/// every `MOV` variant, each under a heading with its name, else that of the
/// instruction; `None` for an unknown opcode.
pub fn opcode_doc(opcode: &str) -> (r: Option<String>)
    ensures
        opt_chars(r) == opcode_doc_of(opcode.spec_bytes()),
{
    let docs = instruction_doc_table();
    if bytes_eq(opcode.as_bytes(), "MOV".as_bytes()) {
        let mut out = String::new();
        let mut i: usize = 0;
        while i < docs.len()
            invariant
                i <= docs@.len(),
                docs@ == instruction_docs(),
                out@ + mov_sections_from(docs@, i as int) == mov_sections_from(docs@, 0),
            decreases docs@.len() - i,
        {
            let (k, d) = docs[i];
            let ghost before = out@;
            if str_starts_with_mov(k) {
                out.append("# ");
                out.append(k);
                out.append("\n");
                out.append(d);
                out.append("\n");
                assert(out@ == before + mov_section(k, d));
                assert(before + mov_section(k, d) + mov_sections_from(docs@, i + 1) == before
                    + (mov_section(k, d) + mov_sections_from(docs@, i + 1)));
            }
            i = i + 1;
        }
        assert(out@ + mov_sections_from(docs@, i as int) == out@ + Seq::<char>::empty());
        assert(out@ + Seq::<char>::empty() =~= out@);
        return Some(out);
    }
    entry_string(&docs, opcode.as_bytes())
}

/// Whether the name `k` starts with `MOV`.
fn str_starts_with_mov(k: &str) -> (r: bool)
    ensures
        r == has_prefix(k.spec_bytes(), "MOV".spec_bytes()),
{
    bytes_starts_with(k.as_bytes(), "MOV".as_bytes())
}

/// The documentation of the operand at `node` of an instruction with the
/// opcode `opcode` (upper case), where `text` is the node's text in lower
/// case and `origin` the node that was hovered.
pub fn operand_doc(t: &SyntaxTree, origin: usize, node: usize, opcode: &str, text: &str) -> (r: Option<String>)
    requires
        t.wf_links(),
        origin < t.len(),
        node < t.len(),
    ensures
        opt_chars(r) == operand_doc_of(*t, origin as int, node as int, opcode.spec_bytes(), text.spec_bytes()),
{
    let d = match operand_table(opcode.as_bytes()) {
        Some(d) => d,
        None => return None,
    };
    if let Some(i) = entry_index(&d, text.as_bytes()) {
        return Some(d[i].1.to_owned());
    }
    if bytes_eq(opcode.as_bytes(), "IRQ".as_bytes()) {
        if let Some(i) = suffix_index(&d, text.as_bytes()) {
            return Some(d[i].1.to_owned());
        }
    }
    if bytes_eq(opcode.as_bytes(), "JMP".as_bytes()) && is_label(t, node) {
        return entry_string(&d, "<target>".as_bytes());
    }
    match get_named_node_field_name(t, node) {
        None => None,
        Some(operand) => {
            if bytes_eq(opcode.as_bytes(), "WAIT".as_bytes()) && str_eq(operand, "source") {
                if str_eq(t.nodes[origin].kind, "src") {
                    return Some(WAIT_SOURCE_SYNTAX.to_owned());
                }
                let mut op: &'static str = operand;
                if child_by_field_name(t, node, "gpio_num").is_some() {
                    op = "gpio_num";
                }
                if child_by_field_name(t, node, "pin_num").is_some() {
                    op = "pin_num";
                }
                if child_by_field_name(t, node, "irq_num").is_some() {
                    op = "irq_num";
                }
                assert(op == wait_operand(*t, node as int, operand));
                operand_entry(&d, op.as_bytes())
            } else {
                operand_entry(&d, operand.as_bytes())
            }
        },
    }
}

} // verus!

verus! {

/// The nodes on the path from `n` up to its instruction are nodes of the
/// tree, at least `n` and the instruction.
pub proof fn lemma_instr_path_nodes(t: SyntaxTree, n: int)
    requires
        t.wf_links(),
        0 <= n < t.len(),
    ensures
        instr_path(t, n) matches Some(p) ==> p.len() >= 2 && p[0] == n && forall|i: int|
            0 <= i < p.len() ==> #[trigger] p[i] < t.len(),
    decreases n,
{
    if let Some(p) = t.nodes@[n].parent {
        assert(n > 0);
        assert(t.nodes.len() == t.nodes@.len());
        assert(n as usize == n);
        if t.nodes@[p as int].kind@ == "instruction"@ {
            let full = seq![n as usize, p];
            assert forall|i: int| 0 <= i < full.len() implies #[trigger] full[i] < t.len() by {
                if i == 1 {
                    assert(full[i] == p);
                }
            }
        } else {
            lemma_instr_path_nodes(t, p as int);
            if let Some(rest) = instr_path(t, p as int) {
                let full = seq![n as usize] + rest;
                assert forall|i: int| 0 <= i < full.len() implies #[trigger] full[i] < t.len() by {
                    if i > 0 {
                        assert(full[i] == rest[i - 1]);
                    }
                }
            }
        }
    }
}

impl DocumentData {
    /// The text of node `n`.
    fn node_text(&self, n: usize) -> (r: &str)
        requires
            self.wf(),
            n < self.syntax.len(),
        ensures
            r@ == node_chars(self.syntax, self.bytes(), n as int),
    {
        let s = self.text.as_str();
        let node = &self.syntax.nodes[n];
        let r = substr(s, node.start_byte, node.end_byte);
        proof {
            encode_utf8_decode_utf8(r@);
        }
        r
    }

    /// Hover documentation for the node at index `node`: on an opcode or an
    /// instruction node, the documentation of the instruction; inside an
    /// instruction, that of the operand under the cursor.
    pub fn hover_instr(&self, node: usize) -> (r: Option<String>)
        requires
            self.wf(),
            node < self.syntax.len(),
        ensures
            opt_chars(r) == hover_of(self.syntax, self.bytes(), node as int),
    {
        let t = &self.syntax;
        let kind = t.nodes[node].kind;
        let is_op = str_eq(kind, "opcode");
        if is_op || bytes_starts_with(kind.as_bytes(), "instr_".as_bytes()) {
            let op_node = if is_op {
                node
            } else {
                match child_of_kind(t, node, "opcode") {
                    Some(o) => o,
                    None => return None,
                }
            };
            let opcode = to_uppercase(self.node_text(op_node));
            if let Some(d) = opcode_doc(opcode.as_str()) {
                return Some(d);
            }
        }
        self.operand_hover(node)
    }

    /// Hover documentation for the operand of an instruction that holds
    /// `node`.
    fn operand_hover(&self, node: usize) -> (r: Option<String>)
        requires
            self.wf(),
            node < self.syntax.len(),
        ensures
            opt_chars(r) == operand_hover(self.syntax, self.bytes(), node as int),
    {
        let t = &self.syntax;
        proof {
            lemma_instr_path_nodes(*t, node as int);
        }
        let path = match get_instruction(t, node) {
            Some(p) => p,
            None => return None,
        };
        let n = path.len();
        let last = path[n - 1];
        let op = match child_by_field_name(t, last, "op") {
            Some(o) => o,
            None => return None,
        };
        let oc = match child_of_kind(t, op, "opcode") {
            Some(o) => o,
            None => return None,
        };
        let opcode = to_uppercase(self.node_text(oc));
        let target = if n >= 3 && !str_eq(t.nodes[node].kind, "irq_target") {
            path[n - 3]
        } else {
            node
        };
        let text = to_lowercase(self.node_text(target));
        operand_doc(t, node, target, opcode.as_str(), text.as_str())
    }
}

} // verus!

verus! {

/// The bytes of an ASCII text are its characters.
proof fn lemma_ascii_bytes(s: &str)
    requires
        vstd::utf8::is_ascii_chars(s@),
    ensures
        s.spec_bytes() == Seq::new(s@.len(), |i: int| s@[i] as u8),
        s.spec_bytes().len() == s@.len(),
{
    vstd::utf8::is_ascii_chars_encode_utf8(s@);
    assert(s.spec_bytes() =~= Seq::new(s@.len(), |i: int| s@[i] as u8));
}

proof fn lemma_space_index(s: Seq<u8>, i: int, m: int)
    requires
        0 <= i <= m <= s.len(),
        forall|x: int| i <= x < m ==> s[x] != 32u8,
        m < s.len() ==> s[m] == 32u8,
    ensures
        space_index_from(s, i) == if m < s.len() { Some(m) } else { None },
    decreases m - i,
{
    if i < m {
        lemma_space_index(s, i + 1, m);
    }
}

/// The operand key of an entry `<name>`, maybe followed by a space and more.
proof fn lemma_operand_key(k: Seq<u8>, m: int)
    requires
        3 <= m <= k.len(),
        k[0] == 60u8,
        k[1] != 60u8,
        k[m - 1] == 62u8,
        k[m - 2] != 62u8,
        forall|x: int| 0 <= x < m ==> k[x] != 32u8,
        m < k.len() ==> k[m] == 32u8,
    ensures
        operand_key(k) == k.subrange(1, m - 1),
{
    lemma_space_index(k, 0, m);
    let b = before_space(k);
    assert(b =~= k.subrange(0, m));
    let o = b.drop_first();
    assert(trim_open(o) == o);
    assert(trim_open(b) == o);
    let c = o.drop_last();
    assert(c =~= k.subrange(1, m - 1));
    assert(c.last() == k[m - 2]);
    assert(trim_close(c) == c);
    assert(trim_close(o) == c);
}

} // verus!

verus! {

/// The texts that the `WAIT` table gives for the operands a `wait` source
/// names.
proof fn lemma_wait_operand_texts()
    ensures
        operand_text(crate::doc::wait_operands(), "gpio_num".spec_bytes()) == Some(crate::doc::WAIT_GPIO_NUM@),
        operand_text(crate::doc::wait_operands(), "pin_num".spec_bytes()) == Some(crate::doc::WAIT_PIN_NUM@),
        operand_text(crate::doc::wait_operands(), "irq_num".spec_bytes()) == Some(crate::doc::WAIT_IRQ_NUM_REL@),
{
    let d = crate::doc::wait_operands();
    reveal_strlit("<polarity>");
    reveal_strlit("<pin_num>");
    reveal_strlit("<gpio_num>");
    reveal_strlit("<irq_num> ( rel )");
    reveal_strlit("gpio_num");
    reveal_strlit("pin_num");
    reveal_strlit("irq_num");
    lemma_ascii_bytes("<polarity>");
    lemma_ascii_bytes("<pin_num>");
    lemma_ascii_bytes("<gpio_num>");
    lemma_ascii_bytes("<irq_num> ( rel )");
    lemma_ascii_bytes("gpio_num");
    lemma_ascii_bytes("pin_num");
    lemma_ascii_bytes("irq_num");
    let k0 = d[0].0.spec_bytes();
    let k1 = d[1].0.spec_bytes();
    let k2 = d[2].0.spec_bytes();
    let k3 = d[3].0.spec_bytes();
    lemma_operand_key(k0, 10);
    lemma_operand_key(k1, 9);
    lemma_operand_key(k2, 10);
    lemma_operand_key(k3, 9);
    let g = "gpio_num".spec_bytes();
    let p = "pin_num".spec_bytes();
    let q = "irq_num".spec_bytes();
    assert(operand_key(k0)[0] != g[0]);
    assert(operand_key(k0).len() != p.len());
    assert(operand_key(k0).len() != q.len());
    assert(operand_key(k1).len() != g.len());
    assert(operand_key(k1) =~= p);
    assert(operand_key(k1)[0] != q[0]);
    assert(operand_key(k2) =~= g);
    assert(operand_key(k2).len() != q.len());
    assert(operand_key(k3) =~= q);
    assert(operand_index_from(d, g, 2) == Some(2int));
    assert(operand_index_from(d, g, 1) == Some(2int));
    assert(operand_index_from(d, g, 0) == Some(2int));
    assert(operand_index_from(d, p, 1) == Some(1int));
    assert(operand_index_from(d, p, 0) == Some(1int));
    assert(operand_index_from(d, q, 3) == Some(3int));
    assert(operand_index_from(d, q, 2) == Some(3int));
    assert(operand_index_from(d, q, 1) == Some(3int));
    assert(operand_index_from(d, q, 0) == Some(3int));
}

} // verus!

verus! {

/// Hovering the operand of a `wait` source shows the documentation of the
/// number it names: of `<irq_num>` when the source has an `irq_num`, else of
/// `<pin_num>` when it has a `pin_num`, else of `<gpio_num>` when it has a
/// `gpio_num` (for an operand whose text is not itself an entry of the
/// `WAIT` syntax table, hovered elsewhere than on the source keyword).
pub proof fn wait_source_operand_doc(t: SyntaxTree, origin: int, node: int, text: Seq<u8>)
    requires
        entry_index_from(crate::doc::wait_operands(), text, 0) is None,
        field_in_parent(t, node) matches Some(f) && f@ == "source"@,
        t.nodes@[origin].kind@ != "src"@,
    ensures
        ({
            let doc = operand_doc_of(t, origin, node, "WAIT".spec_bytes(), text);
            let gpio = field_child_at(t, node, "gpio_num", 0) is Some;
            let pin = field_child_at(t, node, "pin_num", 0) is Some;
            let irq = field_child_at(t, node, "irq_num", 0) is Some;
            &&& irq ==> doc == Some(crate::doc::WAIT_IRQ_NUM_REL@)
            &&& !irq && pin ==> doc == Some(crate::doc::WAIT_PIN_NUM@)
            &&& !irq && !pin && gpio ==> doc == Some(crate::doc::WAIT_GPIO_NUM@)
        }),
{
    reveal_strlit("WAIT");
    reveal_strlit("JMP");
    reveal_strlit("IRQ");
    lemma_ascii_bytes("WAIT");
    lemma_ascii_bytes("JMP");
    lemma_ascii_bytes("IRQ");
    assert("WAIT".spec_bytes() != "JMP".spec_bytes());
    assert("WAIT".spec_bytes() != "IRQ".spec_bytes());
    assert(operand_table_of("WAIT".spec_bytes()) == Some(crate::doc::wait_operands()));
    lemma_wait_operand_texts();
}

} // verus!
