//! A plain-value model of a PIO syntax tree.
use vstd::prelude::*;
use crate::ts;
use vstd::string::StringSliceAdditionalSpecFns;

verus! {

/// A row/column position in the source text (zero based, column in bytes).
#[derive(Clone, Copy, Debug, PartialEq, Eq)]
pub struct Point {
    pub row: usize,
    pub column: usize,
}

/// One node of the syntax tree, with its links into the node arena.
#[derive(Clone, Debug)]
pub struct SyntaxNode {
    /// grammar kind, e.g. "instruction" or ","
    pub kind: &'static str,
    /// name of the field under which the node stands in its parent
    pub field_name: Option<&'static str>,
    /// whether the grammar names this kind
    pub is_named: bool,
    pub start_byte: usize,
    pub end_byte: usize,
    pub start_point: Point,
    pub end_point: Point,
    /// index of the parent node, `None` for the root
    pub parent: Option<usize>,
    /// position of the node among its parent's children
    pub child_index: usize,
    /// indices of the children, in source order
    pub children: Vec<usize>,
}

/// A syntax tree stored in preorder: node 0 is the root and every child
/// has a larger index than its parent.
#[derive(Clone, Debug)]
pub struct SyntaxTree {
    pub nodes: Vec<SyntaxNode>,
}

impl SyntaxTree {
    pub open spec fn len(&self) -> int {
        self.nodes@.len() as int
    }

    pub open spec fn node(&self, i: int) -> SyntaxNode {
        self.nodes@[i]
    }

    /// Node `i` stands at its `child_index` among its parent's children.
    #[verifier::opaque]
    pub open spec fn in_parent(&self, i: int) -> bool {
        &&& self.nodes@[i].parent is Some
        &&& self.nodes@[i].child_index < self.nodes@[self.nodes@[i].parent->0 as int].children@.len()
        &&& self.nodes@[self.nodes@[i].parent->0 as int].children@[self.nodes@[i].child_index as int] == i
    }

    /// The links between the nodes form a tree stored in preorder.
    pub open spec fn wf_links(&self) -> bool {
        &&& self.nodes@.len() > 0
        &&& self.nodes@[0].parent is None
        &&& forall|i: int| 0 < i < self.len() ==> {
            &&& (#[trigger] self.nodes@[i]).parent is Some
            &&& self.nodes@[i].parent->0 < i
            &&& self.in_parent(i)
        }
        &&& forall|i: int, j: int|
            0 <= i < self.len() && 0 <= j < self.nodes@[i].children@.len() ==> {
                let c = #[trigger] self.nodes@[i].children@[j] as int;
                &&& i < c < self.len()
                &&& self.nodes@[c].parent == Some(i as usize)
            }
    }

    /// Every node spans a range of the text that starts and ends at
    /// character boundaries.
    pub open spec fn wf_text(&self, text: Seq<u8>) -> bool {
        forall|i: int| 0 <= i < self.len() ==> {
            let n = #[trigger] self.nodes@[i];
            &&& n.start_byte <= n.end_byte <= text.len()
            &&& vstd::utf8::is_char_boundary(text, n.start_byte as int)
            &&& vstd::utf8::is_char_boundary(text, n.end_byte as int)
        }
    }

    pub open spec fn wf(&self, text: Seq<u8>) -> bool {
        self.wf_links() && self.wf_text(text)
    }
}

} // verus!

verus! {

/// The largest character boundary of `s` that is at most `i`.
pub open spec fn floor_boundary(s: Seq<u8>, i: int) -> int
    decreases i,
{
    if i <= 0 {
        0
    } else if vstd::utf8::is_char_boundary(s, i) {
        i
    } else {
        floor_boundary(s, i - 1)
    }
}

/// The largest character boundary of `text` that is at most `index`.
pub fn floor_char_boundary(text: &str, index: usize) -> (r: usize)
    requires
        index <= text.spec_bytes().len(),
    ensures
        r == floor_boundary(text.spec_bytes(), index as int),
        r <= index,
        vstd::utf8::is_char_boundary(text.spec_bytes(), r as int),
        forall|k: int|
            r < k <= index ==> !vstd::utf8::is_char_boundary(text.spec_bytes(), k),
{
    proof {
        vstd::utf8::encode_utf8_valid_utf8(text@);
        vstd::utf8::is_char_boundary_start_end_of_seq(text.spec_bytes());
    }
    let mut r = index;
    while !text.is_char_boundary(r)
        invariant
            r <= index <= text.spec_bytes().len(),
            vstd::utf8::valid_utf8(text.spec_bytes()),
            vstd::utf8::is_char_boundary(text.spec_bytes(), 0),
            forall|k: int| r < k <= index ==> !vstd::utf8::is_char_boundary(text.spec_bytes(), k),
            floor_boundary(text.spec_bytes(), index as int) == floor_boundary(text.spec_bytes(), r as int),
        decreases r,
    {
        r = r - 1;
    }
    r
}

/// A node of the syntax tree as plain values.
pub struct NodeSt {
    pub kind: &'static str,
    pub field_name: Option<&'static str>,
    pub is_named: bool,
    pub start_byte: usize,
    pub end_byte: usize,
    pub start_point: Point,
    pub end_point: Point,
    pub parent: Option<usize>,
    pub child_index: usize,
    pub children: Seq<usize>,
}

/// Two syntax trees with the same nodes, taken as plain values.
pub open spec fn same_nodes(a: SyntaxTree, b: SyntaxTree) -> bool {
    &&& a.len() == b.len()
    &&& forall|i: int| 0 <= i < a.len() ==> (#[trigger] a.nodes@[i]).st() == b.nodes@[i].st()
}

impl SyntaxNode {
    pub open spec fn st(&self) -> NodeSt {
        NodeSt {
            kind: self.kind,
            field_name: self.field_name,
            is_named: self.is_named,
            start_byte: self.start_byte,
            end_byte: self.end_byte,
            start_point: self.start_point,
            end_point: self.end_point,
            parent: self.parent,
            child_index: self.child_index,
            children: self.children@,
        }
    }
}

/// How many ancestors stay on the stack for a node at depth `depth` below
/// the root: the root and `depth - 1` more, at least one, at most all.
pub open spec fn keep_len(stack_len: int, depth: int) -> int {
    if depth == 0 {
        1
    } else if depth < stack_len {
        depth
    } else {
        stack_len
    }
}

/// The ancestors (from the root down) of the nodes that come before node
/// `i` of the tree in preorder, as the depths that tree-sitter reports leave
/// them.
pub open spec fn stack_before(t: tree_sitter::Tree, i: nat) -> Seq<usize>
    decreases i,
{
    if i == 0 {
        Seq::empty()
    } else {
        let prev = stack_before(t, (i - 1) as nat);
        let kept = if i - 1 == 0 {
            prev
        } else {
            prev.subrange(0, keep_len(prev.len() as int, ts::tree_descendant(t, (i - 1) as usize).depth as int))
        };
        kept.push((i - 1) as usize)
    }
}

/// The parent of node `i`: the ancestor one level above it by depth.
pub open spec fn parent_of(t: tree_sitter::Tree, i: nat) -> Option<usize> {
    if i == 0 {
        None
    } else {
        let st = stack_before(t, i);
        Some(st[keep_len(st.len() as int, ts::tree_descendant(t, i as usize).depth as int) - 1])
    }
}

/// The nodes before `k` whose parent is `p`, in order.
pub open spec fn children_upto(t: tree_sitter::Tree, p: usize, k: nat) -> Seq<usize>
    decreases k,
{
    if k == 0 {
        Seq::empty()
    } else {
        let c = children_upto(t, p, (k - 1) as nat);
        if parent_of(t, (k - 1) as nat) == Some(p) {
            c.push((k - 1) as usize)
        } else {
            c
        }
    }
}

/// Node `i` of the tree in the library's representation, with its
/// children among the first `lim` nodes: kind, field and named flag as
/// tree-sitter reports them, the byte range cut down to the text and moved
/// back to character boundaries, the points as reported, and the parent by
/// depth.
pub open spec fn model_node(t: tree_sitter::Tree, text: Seq<u8>, i: nat, lim: nat) -> NodeSt {
    let f = ts::tree_descendant(t, i as usize);
    let len = text.len() as int;
    let s = floor_boundary(text, if f.start_byte < len { f.start_byte as int } else { len });
    let e0 = if f.end_byte < s { s } else if f.end_byte < len { f.end_byte as int } else { len };
    let e = floor_boundary(text, e0);
    NodeSt {
        kind: f.kind,
        field_name: f.field_name,
        is_named: f.is_named,
        start_byte: s as usize,
        end_byte: e as usize,
        start_point: f.start_point,
        end_point: f.end_point,
        parent: parent_of(t, i),
        child_index: match parent_of(t, i) {
            Some(p) => children_upto(t, p, i).len() as usize,
            None => 0,
        },
        children: children_upto(t, i as usize, lim),
    }
}

impl SyntaxTree {
    /// The tree is the copy of the tree-sitter tree `t` of `text`: one node
    /// per node of `t`, in preorder, each as `model_node` gives it.
    #[verifier::opaque]
    pub open spec fn models(&self, t: tree_sitter::Tree, text: Seq<u8>) -> bool {
        &&& self.len() == ts::tree_node_count(t)
        &&& forall|i: int|
            0 <= i < self.len() ==> (#[trigger] self.nodes@[i]).st() == model_node(
                t,
                text,
                i as nat,
                self.len() as nat,
            )
    }

    /// Copies the tree that tree-sitter parsed from `text` into the library's
    /// own representation, node by node in preorder.
    #[verifier::rlimit(100)]
    #[verifier::spinoff_prover]
    pub fn from_ts(tree: &tree_sitter::Tree, text: &str) -> (r: SyntaxTree)
        ensures
            r.wf(text.spec_bytes()),
            r.models(*tree, text.spec_bytes()),
    {
        let bytes_len = text.as_bytes().len();
        proof {
            vstd::utf8::encode_utf8_valid_utf8(text@);
            vstd::utf8::is_char_boundary_start_end_of_seq(text.spec_bytes());
        }
        let ghost tb = text.spec_bytes();
        let count = ts::node_count(tree);
        let mut nodes: Vec<SyntaxNode> = Vec::new();
        // ancestors of the next node, from the root down
        let mut stack: Vec<usize> = Vec::new();
        let mut i: usize = 0;
        while i < count
            invariant
                nodes@.len() == i,
                i <= count,
                count == ts::tree_node_count(*tree),
                tb == text.spec_bytes(),
                bytes_len == tb.len(),
                stack@ == stack_before(*tree, i as nat),
                i > 0 ==> stack@.len() > 0 && stack@[0] == 0,
                forall|k: int| 0 <= k < stack@.len() ==> #[trigger] stack@[k] < i,
                i > 0 ==> nodes@[0].parent is None,
                forall|k: int| 0 < k < i ==> {
                    &&& (#[trigger] nodes@[k]).parent is Some
                    &&& nodes@[k].parent->0 < k
                    &&& nodes@[k].child_index < nodes@[nodes@[k].parent->0 as int].children@.len()
                    &&& nodes@[nodes@[k].parent->0 as int].children@[nodes@[k].child_index as int] == k
                },
                forall|k: int, j: int|
                    0 <= k < i && 0 <= j < nodes@[k].children@.len() ==> {
                        let c = #[trigger] nodes@[k].children@[j] as int;
                        &&& k < c < i
                        &&& nodes@[c].parent == Some(k as usize)
                    },
                forall|k: int| 0 <= k < i ==> {
                    let n = #[trigger] nodes@[k];
                    &&& n.start_byte <= n.end_byte <= tb.len()
                    &&& vstd::utf8::is_char_boundary(tb, n.start_byte as int)
                    &&& vstd::utf8::is_char_boundary(tb, n.end_byte as int)
                },
                forall|k: int| 0 <= k < i ==> (#[trigger] nodes@[k]).st() == model_node(
                    *tree,
                    tb,
                    k as nat,
                    i as nat,
                ),
            decreases count - i,
        {
            let f = ts::descendant(tree, i);
            let depth = f.depth as usize;
            let start = f.start_byte;
            let end = f.end_byte;
            let start = floor_char_boundary(text, if start < bytes_len { start } else { bytes_len });
            let end = if end < start { start } else if end < bytes_len { end } else { bytes_len };
            let end = floor_char_boundary(text, end);
            proof {
                if end < start {
                    assert(!vstd::utf8::is_char_boundary(text.spec_bytes(), start as int));
                }
            }
            let ghost old_nodes = nodes@;
            let parent = if i == 0 {
                None
            } else {
                // the parent is the ancestor one level up
                let keep = if depth == 0 { 1 } else if depth < stack.len() { depth } else { stack.len() };
                stack.truncate(keep);
                Some(stack[keep - 1])
            };
            assert(parent == parent_of(*tree, i as nat));
            let child_index = match parent {
                Some(p) => nodes[p].children.len(),
                None => 0,
            };
            nodes.push(SyntaxNode {
                kind: f.kind,
                field_name: f.field_name,
                is_named: f.is_named,
                        start_byte: start,
                end_byte: end,
                start_point: f.start_point,
                end_point: f.end_point,
                parent,
                child_index,
                children: Vec::new(),
            });
            if let Some(p) = parent {
                nodes[p].children.push(i);
            }
            stack.push(i);
            proof {
                assert(stack@ =~= stack_before(*tree, (i + 1) as nat));
                assert forall|k: int| 0 <= k <= i implies (#[trigger] nodes@[k]).st() == model_node(
                    *tree,
                    tb,
                    k as nat,
                    (i + 1) as nat,
                ) by {
                    if k == i {
                        lemma_parent_before(*tree, i as nat);
                        lemma_children_before(*tree, i, i as nat);
                        assert(children_upto(*tree, i, (i + 1) as nat) == children_upto(*tree, i, i as nat));
                        assert(nodes@[k].children@ =~= children_upto(*tree, i, (i + 1) as nat));
                    } else if parent == Some(k as usize) {
                        assert(nodes@[k].children@ =~= old_nodes[k].children@.push(i));
                    } else {
                        assert(nodes@[k].children@ == old_nodes[k].children@);
                    }
                }
            }
            i = i + 1;
        }
        let r = SyntaxTree { nodes };
        proof {
            reveal(SyntaxTree::models);
            reveal(SyntaxTree::in_parent);
            assert forall|k: int| 0 < k < r.len() implies #[trigger] r.in_parent(k) by {
                assert(r.nodes@[k].parent is Some);
            }
        }
        r
    }
}

/// A node has no children before itself.
proof fn lemma_children_before(t: tree_sitter::Tree, p: usize, k: nat)
    requires
        k <= p,
    ensures
        children_upto(t, p, k) == Seq::<usize>::empty(),
    decreases k,
{
    if k > 0 {
        lemma_children_before(t, p, (k - 1) as nat);
        lemma_parent_before(t, (k - 1) as nat);
    }
}

/// The parent of a node comes before it.
proof fn lemma_parent_before(t: tree_sitter::Tree, i: nat)
    ensures
        parent_of(t, i) matches Some(p) ==> p < i,
{
    if i > 0 {
        lemma_stack_below(t, i);
        let st = stack_before(t, i);
        let k = keep_len(st.len() as int, ts::tree_descendant(t, i as usize).depth as int) - 1;
        assert(0 <= k < st.len());
        assert(st[k] < i);
    }
}

/// The stack before node `i > 0` is not empty and holds earlier nodes only.
proof fn lemma_stack_below(t: tree_sitter::Tree, i: nat)
    requires
        i > 0,
    ensures
        stack_before(t, i).len() > 0,
        forall|k: int| 0 <= k < stack_before(t, i).len() ==> #[trigger] stack_before(t, i)[k] < i,
    decreases i,
{
    if i == 1 {
        assert(stack_before(t, 0) == Seq::<usize>::empty());
        assert(stack_before(t, 1) == seq![0usize]);
    }
    if i > 1 {
        lemma_stack_below(t, (i - 1) as nat);
        let prev = stack_before(t, (i - 1) as nat);
        let kept = prev.subrange(0, keep_len(prev.len() as int, ts::tree_descendant(t, (i - 1) as usize).depth as int));
        assert(stack_before(t, i) == kept.push((i - 1) as usize));
        assert forall|k: int| 0 <= k < stack_before(t, i).len() implies #[trigger] stack_before(t, i)[k] < i by {
            if k < kept.len() {
                assert(stack_before(t, i)[k] == prev[k]);
            }
        }
    }
}

} // verus!

verus! {

/// Parses `text` with `parser` (reusing `old_tree` where given) and copies
/// the result into the library's representation; `None` when the parser
/// returns no tree, which a ready parser does not. From an idle parser the
/// tree is the parse of the text with the parser's language.
pub fn parse_source(
    parser: &mut tree_sitter::Parser,
    text: &str,
    old_tree: Option<&tree_sitter::Tree>,
) -> (r: Option<(tree_sitter::Tree, SyntaxTree)>)
    ensures
        ts::parser_ready(*old(parser)) ==> r is Some,
        r matches Some((tree, t)) ==> t.wf(text.spec_bytes()) && t.models(tree, text.spec_bytes()),
        r matches Some((tree, t)) ==> ts::parser_idle(*old(parser)) ==> tree == ts::parse_of(
            *old(parser),
            text.spec_bytes(),
            ts::opt_tree(old_tree),
        ),
        ts::parser_kept(*old(parser), *final(parser)),
{
    match ts::parser_parse(parser, text, old_tree) {
        Some(tree) => {
            let syntax = SyntaxTree::from_ts(&tree, text);
            Some((tree, syntax))
        },
        None => None,
    }
}

} // verus!

verus! {

/// The first child of `n`, from position `i` on, with field `name`.
pub open spec fn field_child_at(t: SyntaxTree, n: int, name: &str, i: int) -> Option<usize>
    decreases t.nodes@[n].children@.len() - i,
{
    if i < 0 || i >= t.nodes@[n].children@.len() {
        None
    } else if t.nodes@[t.nodes@[n].children@[i] as int].field_name matches Some(f) && f@ == name@ {
        Some(t.nodes@[n].children@[i])
    } else {
        field_child_at(t, n, name, i + 1)
    }
}

/// The first child of `n`, from position `i` on, of kind `kind`.
pub open spec fn kind_child_at(t: SyntaxTree, n: int, kind: &str, i: int) -> Option<usize>
    decreases t.nodes@[n].children@.len() - i,
{
    if i < 0 || i >= t.nodes@[n].children@.len() {
        None
    } else if t.nodes@[t.nodes@[n].children@[i] as int].kind@ == kind@ {
        Some(t.nodes@[n].children@[i])
    } else {
        kind_child_at(t, n, kind, i + 1)
    }
}

/// The first child of `node` with field `name`.
pub fn child_by_field_name(t: &SyntaxTree, node: usize, name: &str) -> (r: Option<usize>)
    requires
        t.wf_links(),
        node < t.len(),
    ensures
        r == field_child_at(*t, node as int, name, 0),
        r matches Some(c) ==> node < c < t.len(),
{
    let cs = &t.nodes[node].children;
    let mut i: usize = 0;
    while i < cs.len()
        invariant
            t.wf_links(),
            node < t.len(),
            i <= cs@.len(),
            cs == t.nodes@[node as int].children,
            field_child_at(*t, node as int, name, 0) == field_child_at(*t, node as int, name, i as int),
        decreases cs@.len() - i,
    {
        let c = cs[i];
        if let Some(f) = t.nodes[c].field_name {
            if crate::text::str_eq(f, name) {
                return Some(c);
            }
        }
        i = i + 1;
    }
    None
}

/// The first child of `node` of kind `kind`.
pub fn child_of_kind(t: &SyntaxTree, node: usize, kind: &str) -> (r: Option<usize>)
    requires
        t.wf_links(),
        node < t.len(),
    ensures
        r == kind_child_at(*t, node as int, kind, 0),
        r matches Some(c) ==> node < c < t.len(),
{
    let cs = &t.nodes[node].children;
    let mut i: usize = 0;
    while i < cs.len()
        invariant
            t.wf_links(),
            node < t.len(),
            i <= cs@.len(),
            cs == t.nodes@[node as int].children,
            kind_child_at(*t, node as int, kind, 0) == kind_child_at(*t, node as int, kind, i as int),
        decreases cs@.len() - i,
    {
        let c = cs[i];
        if crate::text::str_eq(t.nodes[c].kind, kind) {
            return Some(c);
        }
        i = i + 1;
    }
    None
}

} // verus!

verus! {

/// Two copies of the same tree-sitter tree of the same text are the same
/// node by node.
pub proof fn copies_of_one_tree_agree(a: SyntaxTree, b: SyntaxTree, t: tree_sitter::Tree, text: Seq<u8>)
    requires
        a.models(t, text),
        b.models(t, text),
    ensures
        same_nodes(a, b),
{
    reveal(SyntaxTree::models);
    assert forall|i: int| 0 <= i < a.len() implies (#[trigger] a.nodes@[i]).st() == b.nodes@[i].st() by {
        assert(a.nodes@[i].st() == model_node(t, text, i as nat, a.len() as nat));
        assert(b.nodes@[i].st() == model_node(t, text, i as nat, b.len() as nat));
    }
}

} // verus!
