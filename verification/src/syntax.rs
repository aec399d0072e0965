//! A parsed syntax tree as plain values, and the ways the language server
//! walks it: depth-first search for nodes of a kind, children of a kind and
//! the source text a node covers.
use vstd::prelude::*;
use vstd::utf8::{encode_utf8, valid_utf8, decode_utf8};
use vstd::string::StringSliceAdditionalSpecFns;

verus! {

/// A node of a concrete syntax tree: its kind, the byte range and the
/// (row, byte column) points of the source that it covers, the parser's
/// error flags and its children in order (named and anonymous alike).
#[derive(Debug)]
pub struct SyntaxNode {
    pub kind: String,
    pub start_byte: usize,
    pub end_byte: usize,
    pub start_row: usize,
    pub start_column: usize,
    pub end_row: usize,
    pub end_column: usize,
    /// The node stands for text the parser could not fit into the grammar.
    pub is_error: bool,
    /// The node was inserted by the parser for a token that is missing.
    pub is_missing: bool,
    /// The node or a node below it is an error or missing node.
    pub has_error: bool,
    pub children: Vec<SyntaxNode>,
}

/// Whether every node of the tree covers a byte range of a source that is
/// `len` bytes long.
pub open spec fn tree_ok(n: SyntaxNode, len: int) -> bool
    decreases n,
{
    &&& n.start_byte <= n.end_byte <= len
    &&& forall|i: int| 0 <= i < n.children@.len() ==> tree_ok(#[trigger] n.children@[i], len)
}

/// Whether the node is flagged as an error, a missing token or as holding
/// one.
pub open spec fn flagged(n: SyntaxNode) -> bool {
    n.is_error || n.is_missing || n.has_error
}

/// Whether every node of the tree covers a byte range within the first
/// `len` bytes.
pub fn tree_within(n: &SyntaxNode, len: usize) -> (r: bool)
    ensures
        r == tree_ok(*n, len as int),
    decreases n,
{
    if !(n.start_byte <= n.end_byte && n.end_byte <= len) {
        return false;
    }
    let mut i: usize = 0;
    while i < n.children.len()
        invariant
            i <= n.children@.len(),
            forall|j: int| 0 <= j < i ==> tree_ok(#[trigger] n.children@[j], len as int),
        decreases n.children@.len() - i,
    {
        assert(decreases_to!(n => n.children@[i as int]));
        if !tree_within(&n.children[i], len) {
            return false;
        }
        i = i + 1;
    }
    true
}

/// The source text that the node covers, where its bytes are valid UTF-8.
pub open spec fn node_text(n: SyntaxNode, source: Seq<char>) -> Option<Seq<char>> {
    let b = encode_utf8(source).subrange(n.start_byte as int, n.end_byte as int);
    if valid_utf8(b) {
        Some(decode_utf8(b))
    } else {
        None
    }
}

/// `std::str::from_utf8`: the string slice with the given bytes, where
/// they are valid UTF-8.
#[verifier::external_body]
pub(crate) fn str_from_utf8(bytes: &[u8]) -> (r: Option<&str>)
    ensures
        r is Some <==> valid_utf8(bytes@),
        r matches Some(s) ==> s.spec_bytes() == bytes@,
{
    std::str::from_utf8(bytes).ok()
}

/// The source text that the node covers, where its bytes are valid UTF-8.
pub fn text_of(n: &SyntaxNode, source: &str) -> (r: Option<String>)
    requires
        n.start_byte <= n.end_byte <= encode_utf8(source@).len(),
    ensures
        r matches Some(s) ==> node_text(*n, source@) == Some(s@),
        r is None ==> node_text(*n, source@) is None,
{
    let bytes = source.as_bytes();
    let mut v: Vec<u8> = Vec::new();
    let mut i = n.start_byte;
    while i < n.end_byte
        invariant
            n.start_byte <= i <= n.end_byte <= bytes@.len(),
            bytes@ == encode_utf8(source@),
            v@ == bytes@.subrange(n.start_byte as int, i as int),
        decreases n.end_byte - i,
    {
        v.push(bytes[i]);
        i = i + 1;
        assert(v@ =~= bytes@.subrange(n.start_byte as int, i as int));
    }
    match str_from_utf8(v.as_slice()) {
        Some(s) => {
            proof {
                vstd::utf8::encode_utf8_decode_utf8(s@);
            }
            Some(s.to_owned())
        },
        None => None,
    }
}

/// Whether two string slices hold the same characters.
pub fn str_eq(a: &str, b: &str) -> (r: bool)
    ensures
        r == (a@ == b@),
{
    let x = crate::text::chars_of(a);
    let y = crate::text::chars_of(b);
    if x.len() != y.len() {
        return false;
    }
    let mut i: usize = 0;
    while i < x.len()
        invariant
            x@ == a@,
            y@ == b@,
            x@.len() == y@.len(),
            i <= x@.len(),
            forall|j: int| 0 <= j < i ==> x@[j] == y@[j],
        decreases x.len() - i,
    {
        if x[i] != y[i] {
            return false;
        }
        i = i + 1;
    }
    assert(x@ =~= y@);
    true
}

/// Whether the node has the given kind.
pub fn is_kind(n: &SyntaxNode, kind: &str) -> (r: bool)
    ensures
        r == (n.kind@ == kind@),
{
    str_eq(n.kind.as_str(), kind)
}

// ---------------------------------------------------------------------------
// Children of a kind
// ---------------------------------------------------------------------------

/// The index of the first of `children[i..]` of the given kind.
pub open spec fn first_of_kind_from(children: Seq<SyntaxNode>, kind: Seq<char>, i: int) -> Option<int>
    decreases children.len() - i,
{
    if i < 0 || i >= children.len() {
        None
    } else if children[i].kind@ == kind {
        Some(i)
    } else {
        first_of_kind_from(children, kind, i + 1)
    }
}

/// The first child of `n` of the given kind.
pub open spec fn child_of_kind(n: SyntaxNode, kind: Seq<char>) -> Option<SyntaxNode> {
    match first_of_kind_from(n.children@, kind, 0) {
        Some(i) => Some(n.children@[i]),
        None => None,
    }
}

proof fn lemma_first_of_kind(children: Seq<SyntaxNode>, kind: Seq<char>, i: int)
    requires
        0 <= i,
    ensures
        first_of_kind_from(children, kind, i) matches Some(k) ==> i <= k < children.len()
            && children[k].kind@ == kind,
    decreases children.len() - i,
{
    if i < children.len() && children[i].kind@ != kind {
        lemma_first_of_kind(children, kind, i + 1);
    }
}

/// Get child node by kind.
pub fn get_child_by_kind<'a>(n: &'a SyntaxNode, kind: &str) -> (r: Option<&'a SyntaxNode>)
    ensures
        r matches Some(c) ==> child_of_kind(*n, kind@) == Some(*c),
        r is None ==> child_of_kind(*n, kind@) is None,
        r matches Some(c) ==> c.kind@ == kind@,
        r matches Some(c) ==> exists|i: int|
            0 <= i < n.children@.len() && n.children@[i] == *c,
{
    let mut i: usize = 0;
    while i < n.children.len()
        invariant
            i <= n.children.len(),
            first_of_kind_from(n.children@, kind@, i as int) == first_of_kind_from(
                n.children@,
                kind@,
                0,
            ),
        decreases n.children.len() - i,
    {
        if is_kind(&n.children[i], kind) {
            return Some(&n.children[i]);
        }
        i = i + 1;
    }
    None
}

/// The children of `children[i..]` of the given kind, in order.
pub open spec fn of_kind_from(children: Seq<SyntaxNode>, kind: Seq<char>, i: int) -> Seq<SyntaxNode>
    decreases children.len() - i,
{
    if i < 0 || i >= children.len() {
        seq![]
    } else {
        (if children[i].kind@ == kind {
            seq![children[i]]
        } else {
            seq![]
        }) + of_kind_from(children, kind, i + 1)
    }
}

/// The children of `n` of the given kind, in order.
pub open spec fn children_of_kind(n: SyntaxNode, kind: Seq<char>) -> Seq<SyntaxNode> {
    of_kind_from(n.children@, kind, 0)
}

/// The values behind a list of node references.
pub open spec fn node_views<'a>(v: Seq<&'a SyntaxNode>) -> Seq<SyntaxNode> {
    v.map_values(|x: &'a SyntaxNode| *x)
}

proof fn lemma_of_kind_members(children: Seq<SyntaxNode>, kind: Seq<char>, i: int)
    requires
        0 <= i,
    ensures
        forall|t: int|
            0 <= t < of_kind_from(children, kind, i).len() ==> exists|j: int|
                i <= j < children.len() && children[j] == #[trigger] of_kind_from(
                    children,
                    kind,
                    i,
                )[t],
    decreases children.len() - i,
{
    if i < children.len() {
        lemma_of_kind_members(children, kind, i + 1);
        let rest = of_kind_from(children, kind, i + 1);
        let head: Seq<SyntaxNode> = if children[i].kind@ == kind {
            seq![children[i]]
        } else {
            seq![]
        };
        assert forall|t: int|
            0 <= t < of_kind_from(children, kind, i).len() implies exists|j: int|
                i <= j < children.len() && children[j] == #[trigger] of_kind_from(
                    children,
                    kind,
                    i,
                )[t] by {
            if t < head.len() {
                assert(children[i] == of_kind_from(children, kind, i)[t]);
            } else {
                assert(of_kind_from(children, kind, i)[t] == rest[t - head.len()]);
            }
        }
    }
}

/// Get all children of a specific kind.
pub fn get_children_by_kind<'a>(n: &'a SyntaxNode, kind: &str) -> (r: Vec<&'a SyntaxNode>)
    ensures
        node_views(r@) == children_of_kind(*n, kind@),
        forall|t: int|
            0 <= t < r@.len() ==> exists|j: int|
                0 <= j < n.children@.len() && n.children@[j] == *#[trigger] r@[t],
{
    let mut out: Vec<&'a SyntaxNode> = Vec::new();
    let mut i: usize = 0;
    while i < n.children.len()
        invariant
            i <= n.children.len(),
            node_views(out@) + of_kind_from(n.children@, kind@, i as int) == children_of_kind(
                *n,
                kind@,
            ),
        decreases n.children.len() - i,
    {
        let ghost before = node_views(out@);
        if is_kind(&n.children[i], kind) {
            out.push(&n.children[i]);
        }
        assert(node_views(out@) + of_kind_from(n.children@, kind@, i + 1) =~= before
            + of_kind_from(n.children@, kind@, i as int));
        i = i + 1;
    }
    assert(node_views(out@) =~= children_of_kind(*n, kind@));
    proof {
        lemma_of_kind_members(n.children@, kind@, 0);
        assert forall|t: int| 0 <= t < out@.len() implies exists|j: int|
            0 <= j < n.children@.len() && n.children@[j] == *#[trigger] out@[t] by {
            assert(*out@[t] == node_views(out@)[t]);
        }
    }
    out
}

// ---------------------------------------------------------------------------
// Depth-first search
// ---------------------------------------------------------------------------

/// The nodes of the tree below and including `n` that have the given kind,
/// in depth-first pre-order.
pub open spec fn kind_nodes(n: SyntaxNode, kind: Seq<char>) -> Seq<SyntaxNode>
    decreases n,
{
    (if n.kind@ == kind {
        seq![n]
    } else {
        seq![]
    }) + kind_nodes_list(n.children@, kind, 0)
}

/// The nodes of the given kind in the trees `l[i..]`, in pre-order.
pub open spec fn kind_nodes_list(l: Seq<SyntaxNode>, kind: Seq<char>, i: int) -> Seq<SyntaxNode>
    decreases l, l.len() - i,
{
    if i < 0 || i >= l.len() {
        seq![]
    } else {
        kind_nodes(l[i], kind) + kind_nodes_list(l, kind, i + 1)
    }
}

fn collect_by_kind<'a>(n: &'a SyntaxNode, kind: &str, results: &mut Vec<&'a SyntaxNode>)
    ensures
        node_views(final(results)@) == node_views(old(results)@) + kind_nodes(*n, kind@),
    decreases n,
{
    let ghost base = node_views(results@);
    if is_kind(n, kind) {
        results.push(n);
    }
    assert(node_views(results@) =~= base + (if n.kind@ == kind@ {
        seq![*n]
    } else {
        seq![]
    }));
    let ghost mid = node_views(results@);
    let mut i: usize = 0;
    while i < n.children.len()
        invariant
            i <= n.children.len(),
            node_views(results@) + kind_nodes_list(n.children@, kind@, i as int) == mid
                + kind_nodes_list(n.children@, kind@, 0),
        decreases n.children.len() - i,
    {
        let ghost before = node_views(results@);
        collect_by_kind(&n.children[i], kind, results);
        assert(node_views(results@) + kind_nodes_list(n.children@, kind@, i + 1) =~= before
            + kind_nodes_list(n.children@, kind@, i as int));
        i = i + 1;
    }
    assert(node_views(results@) =~= mid + kind_nodes_list(n.children@, kind@, 0));
}

/// Find all nodes of a specific kind in the tree, in depth-first pre-order.
pub fn find_by_kind<'a>(root: &'a SyntaxNode, kind: &str) -> (r: Vec<&'a SyntaxNode>)
    ensures
        node_views(r@) == kind_nodes(*root, kind@),
{
    let mut results: Vec<&'a SyntaxNode> = Vec::new();
    assert(node_views(results@) =~= Seq::<SyntaxNode>::empty());
    collect_by_kind(root, kind, &mut results);
    assert(node_views(results@) =~= kind_nodes(*root, kind@));
    results
}

/// Every node of `kind_nodes(n, kind)` is a well-formed tree when `n` is.
pub proof fn lemma_kind_nodes_ok(n: SyntaxNode, kind: Seq<char>, len: int)
    requires
        tree_ok(n, len),
    ensures
        forall|t: int|
            0 <= t < kind_nodes(n, kind).len() ==> tree_ok(#[trigger] kind_nodes(n, kind)[t], len),
    decreases n,
{
    lemma_kind_nodes_list_ok(n.children@, kind, len, 0);
    let head: Seq<SyntaxNode> = if n.kind@ == kind {
        seq![n]
    } else {
        seq![]
    };
    let rest = kind_nodes_list(n.children@, kind, 0);
    assert forall|t: int| 0 <= t < kind_nodes(n, kind).len() implies tree_ok(
        #[trigger] kind_nodes(n, kind)[t],
        len,
    ) by {
        if t >= head.len() {
            assert(kind_nodes(n, kind)[t] == rest[t - head.len()]);
        }
    }
}

proof fn lemma_kind_nodes_list_ok(l: Seq<SyntaxNode>, kind: Seq<char>, len: int, i: int)
    requires
        forall|j: int| 0 <= j < l.len() ==> tree_ok(#[trigger] l[j], len),
    ensures
        forall|t: int|
            0 <= t < kind_nodes_list(l, kind, i).len() ==> tree_ok(
                #[trigger] kind_nodes_list(l, kind, i)[t],
                len,
            ),
    decreases l, l.len() - i,
{
    if 0 <= i < l.len() {
        lemma_kind_nodes_ok(l[i], kind, len);
        lemma_kind_nodes_list_ok(l, kind, len, i + 1);
        let a = kind_nodes(l[i], kind);
        let b = kind_nodes_list(l, kind, i + 1);
        assert forall|t: int| 0 <= t < kind_nodes_list(l, kind, i).len() implies tree_ok(
            #[trigger] kind_nodes_list(l, kind, i)[t],
            len,
        ) by {
            if t < a.len() {
                assert(kind_nodes_list(l, kind, i)[t] == a[t]);
            } else {
                assert(kind_nodes_list(l, kind, i)[t] == b[t - a.len()]);
            }
        }
    }
}

} // verus!
