//! Syntax trees: tree-sitter parses, and the library reads the result into a
//! tree of its own, a list of nodes in the order a depth-first walk meets
//! them, each with its kind, byte range, positions, depth and children.
use vstd::prelude::*;
use tree_sitter::{Node, Parser, Tree};

verus! {

/// A tree-sitter parser.
#[verifier::external_type_specification]
#[verifier::external_body]
pub struct ExParser(Parser);

/// A tree produced by tree-sitter.
#[verifier::external_type_specification]
#[verifier::external_body]
pub struct ExTree(Tree);

/// A node of a tree-sitter tree.
#[verifier::external_type_specification]
#[verifier::external_body]
pub struct ExNode<'a>(Node<'a>);

/// The languages the analysis knows.
#[derive(Clone, Copy, Debug, PartialEq, Eq, Structural)]
pub enum LanguageKind {
    Rust,
    C,
}

/// What the library reads of a tree-sitter node: its kind, start and end
/// byte, zero-based start row and column, end row and column, and how many
/// children it has.
pub type NodeFacts = (Seq<char>, usize, usize, usize, usize, usize, usize, usize);

/// The nodes of the tree that tree-sitter makes of a source in a language,
/// each at its path of child indices from the root.
pub uninterp spec fn parsed_nodes(kind: LanguageKind, source: Seq<char>) -> Map<Seq<usize>, NodeFacts>;

/// The nodes a tree holds, each at its path of child indices from the root.
pub uninterp spec fn tree_nodes(tree: Tree) -> Map<Seq<usize>, NodeFacts>;

/// The nodes of the subtree under a node, each at its path of child indices
/// from that node.
pub uninterp spec fn subtree_nodes(node: Node) -> Map<Seq<usize>, NodeFacts>;

/// The facts of the node itself.
pub open spec fn own_facts(node: Node) -> NodeFacts {
    subtree_nodes(node)[Seq::<usize>::empty()]
}

/// The nodes under path `p`, at their paths from there.
pub open spec fn subtree_at(m: Map<Seq<usize>, NodeFacts>, p: Seq<usize>) -> Map<Seq<usize>, NodeFacts> {
    Map::new(|q: Seq<usize>| m.dom().contains(p + q), |q: Seq<usize>| m[p + q])
}

/// A tree-sitter parser set to the grammar of a language.
pub struct LangParser {
    parser: Parser,
    kind: LanguageKind,
}

impl LangParser {
    /// The language whose grammar the parser has.
    pub closed spec fn kind(&self) -> LanguageKind {
        self.kind
    }

    /// The language whose grammar the parser has.
    pub fn language(&self) -> (k: LanguageKind)
        ensures
            k == self.kind(),
    {
        self.kind
    }
}

/// A parser with a language's grammar: `Parser::new`, then
/// `Parser::set_language` with `tree_sitter_rust::language` or
/// `tree_sitter_c::language`. `set_language` refuses only a grammar whose
/// ABI version lies outside 13 to 14 (its error is handed out as its text);
/// both bundled grammars are of version 14, so the parser is always made.
#[verifier::external_body]
pub(crate) fn new_lang_parser(kind: LanguageKind) -> (r: Result<LangParser, String>)
    ensures
        r is Ok,
        r matches Ok(p) ==> p.kind() == kind,
{
    let mut parser = Parser::new();
    let language = match kind {
        LanguageKind::Rust => tree_sitter_rust::language(),
        LanguageKind::C => tree_sitter_c::language(),
    };
    match parser.set_language(language) {
        Ok(()) => Ok(LangParser { parser, kind }),
        Err(e) => Err(e.to_string()),
    }
}

/// Parses UTF-8 source with no earlier tree (`Parser::parse`). With a
/// language set and neither a timeout nor a cancellation flag, tree-sitter
/// always gives a tree, and the tree depends on the grammar and the source
/// alone: its nodes are `parsed_nodes` of the two. The parser keeps its
/// language.
#[verifier::external_body]
pub(crate) fn parse_source(parser: &mut LangParser, source: &str) -> (t: Option<Tree>)
    ensures
        t is Some,
        t matches Some(tree) ==> tree_nodes(tree) == parsed_nodes(old(parser).kind(), source@),
        final(parser).kind() == old(parser).kind(),
{
    parser.parser.parse(source, None)
}

/// The root of a tree (`Tree::root_node`): the node at the empty path, whose
/// subtree is the whole tree.
#[verifier::external_body]
pub(crate) fn root_node<'a>(tree: &'a Tree) -> (n: Node<'a>)
    ensures
        subtree_nodes(n) == tree_nodes(*tree),
        subtree_nodes(n).dom().contains(Seq::<usize>::empty()),
{
    tree.root_node()
}

/// The kind of a node (`Node::kind`).
#[verifier::external_body]
pub(crate) fn node_kind(node: &Node) -> (k: String)
    ensures
        k@ == own_facts(*node).0,
{
    node.kind().to_string()
}

/// Where a node starts and ends, in bytes (`Node::start_byte`,
/// `Node::end_byte`).
#[verifier::external_body]
pub(crate) fn node_bytes(node: &Node) -> (r: (usize, usize))
    ensures
        r == (own_facts(*node).1, own_facts(*node).2),
{
    (node.start_byte(), node.end_byte())
}

/// Where a node starts, as zero-based row and column (`Node::start_position`).
#[verifier::external_body]
pub(crate) fn node_start(node: &Node) -> (r: (usize, usize))
    ensures
        r == (own_facts(*node).3, own_facts(*node).4),
{
    let p = node.start_position();
    (p.row, p.column)
}

/// Where a node ends, as zero-based row and column (`Node::end_position`).
#[verifier::external_body]
pub(crate) fn node_end(node: &Node) -> (r: (usize, usize))
    ensures
        r == (own_facts(*node).5, own_facts(*node).6),
{
    let p = node.end_position();
    (p.row, p.column)
}

/// How many children a node has (`Node::child_count`).
#[verifier::external_body]
pub(crate) fn node_child_count(node: &Node) -> (n: usize)
    ensures
        n == own_facts(*node).7,
{
    node.child_count()
}

/// The child at an index below the count (`Node::child`, which passes the
/// index on as a `u32`; a count is one, so such an index fits): there is
/// one, and its subtree is the part of the node's under that index.
#[verifier::external_body]
pub(crate) fn node_child<'a>(node: &Node<'a>, i: usize) -> (c: Option<Node<'a>>)
    requires
        i < own_facts(*node).7,
    ensures
        c is Some,
        c matches Some(n) ==> subtree_nodes(*node).dom().contains(seq![i]) && subtree_nodes(n)
            == subtree_at(subtree_nodes(*node), seq![i]),
{
    node.child(i)
}

/// Decodes bytes as UTF-8 (`std::str::from_utf8`): the text when the bytes
/// are valid UTF-8, nothing otherwise.
#[verifier::external_body]
pub(crate) fn decode_utf8_text(bytes: &[u8]) -> (r: Option<String>)
    ensures
        r is Some <==> vstd::utf8::valid_utf8(bytes@),
        r matches Some(s) ==> s@ == vstd::utf8::decode_utf8(bytes@),
{
    match std::str::from_utf8(bytes) {
        Ok(s) => Some(s.to_string()),
        Err(_) => None,
    }
}

/// A node of a syntax tree.
#[derive(Clone, Debug)]
pub struct SyntaxNode {
    pub kind: String,
    pub start_byte: usize,
    pub end_byte: usize,
    /// Zero-based start row and column.
    pub start_row: usize,
    pub start_column: usize,
    /// Zero-based end row and column.
    pub end_row: usize,
    pub end_column: usize,
    /// Distance from the root.
    pub depth: usize,
    /// Indices of the children, in order.
    pub children: Vec<usize>,
}

/// A syntax tree: its nodes in the order of a depth-first walk from the
/// root, which comes first.
#[derive(Clone, Debug)]
pub struct SyntaxTree {
    pub nodes: Vec<SyntaxNode>,
}

impl SyntaxTree {
    /// The root is first, at depth 0; every child comes after its parent,
    /// one level deeper, and a node's children come in the order of the list.
    pub open spec fn wf(&self) -> bool {
        &&& self.nodes@.len() > 0
        &&& self.nodes@[0].depth == 0
        &&& forall|i: int, k: int|
            0 <= i < self.nodes@.len() && 0 <= k < self.nodes@[i].children@.len() ==> {
                let c = #[trigger] self.nodes@[i].children@[k] as int;
                &&& i < c < self.nodes@.len()
                &&& self.nodes@[c].depth == self.nodes@[i].depth + 1
            }
        &&& forall|i: int, k1: int, k2: int|
            0 <= i < self.nodes@.len() && 0 <= k1 < k2 < self.nodes@[i].children@.len()
                ==> #[trigger] self.nodes@[i].children@[k1] < #[trigger] self.nodes@[i].children@[k2]
    }

    /// Every node's bytes lie within the first `n` bytes, in order.
    pub open spec fn fits(&self, n: nat) -> bool {
        forall|i: int|
            0 <= i < self.nodes@.len() ==> #[trigger] self.nodes@[i].start_byte
                <= self.nodes@[i].end_byte <= n
    }
}

/// A path that a walk from the root meets: the root, or a child, below its
/// parent's count of children, of such a path.
pub open spec fn reachable(m: Map<Seq<usize>, NodeFacts>, p: Seq<usize>) -> bool
    decreases p.len(),
{
    &&& m.dom().contains(p)
    &&& (p.len() > 0 ==> reachable(m, p.drop_last()) && p.last() < m[p.drop_last()].7)
}

/// `a` is a prefix of `b`.
pub open spec fn leads(a: Seq<usize>, b: Seq<usize>) -> bool {
    a.len() <= b.len() && forall|i: int| 0 <= i < a.len() ==> a[i] == b[i]
}

/// `a` comes before `b` in a depth-first walk that takes children in order:
/// `a` is a proper prefix of `b`, or at the first place where they differ
/// `a` has the smaller index.
pub open spec fn before(a: Seq<usize>, b: Seq<usize>) -> bool {
    ||| (a.len() < b.len() && leads(a, b))
    ||| exists|i: int|
        0 <= i < a.len() && i < b.len() && #[trigger] a[i] < #[trigger] b[i] && forall|k: int|
            0 <= k < i ==> a[k] == b[k]
}

/// Every node that a walk meets lies within the first `len` bytes, in order,
/// and less than `usize::MAX` deep, and fewer than `usize::MAX` distinct
/// nodes are met.
pub open spec fn readable(m: Map<Seq<usize>, NodeFacts>, len: nat) -> bool {
    &&& forall|p: Seq<usize>| #[trigger] reachable(m, p) ==> m[p].1 <= m[p].2 <= len && p.len() < usize::MAX
    &&& !exists|ps: Seq<Seq<usize>>|
        ps.len() == usize::MAX && ps.no_duplicates() && forall|i: int| 0 <= i < ps.len() ==> #[trigger] reachable(m, ps[i])
}

/// A syntax node shows a tree-sitter node's facts.
pub open spec fn shows(n: SyntaxNode, f: NodeFacts) -> bool {
    &&& n.kind@ == f.0
    &&& n.start_byte == f.1
    &&& n.end_byte == f.2
    &&& n.start_row == f.3
    &&& n.start_column == f.4
    &&& n.end_row == f.5
    &&& n.end_column == f.6
    &&& n.children@.len() == f.7
}

/// `t` holds the nodes that a walk from the root of `m` meets, node `j`
/// being the one at path `ps[j]`: the root first, each node's facts and
/// depth, its children at the paths one index longer, every node met, and
/// the nodes in the order of a depth-first walk that takes children in order.
pub open spec fn mirrors(t: SyntaxTree, m: Map<Seq<usize>, NodeFacts>, ps: Seq<Seq<usize>>) -> bool {
    &&& ps.len() == t.nodes@.len()
    &&& ps.len() > 0
    &&& ps[0] == Seq::<usize>::empty()
    &&& forall|j: int|
        0 <= j < ps.len() ==> reachable(m, #[trigger] ps[j]) && shows(t.nodes@[j], m[ps[j]])
            && t.nodes@[j].depth == ps[j].len()
    &&& forall|j: int, k: int|
        0 <= j < ps.len() && 0 <= k < t.nodes@[j].children@.len() ==> ps[#[trigger] t.nodes@[j].children@[k] as int]
            == ps[j].push(k as usize)
    &&& forall|p: Seq<usize>| #[trigger] reachable(m, p) ==> exists|j: int| 0 <= j < ps.len() && #[trigger] ps[j] == p
    &&& forall|j1: int, j2: int| 0 <= j1 < j2 < ps.len() ==> before(#[trigger] ps[j1], #[trigger] ps[j2])
}

/// The prefixes of a path that a walk meets are met too, each child index
/// below its parent's count.
proof fn lemma_reachable_prefix(m: Map<Seq<usize>, NodeFacts>, p: Seq<usize>, n: int)
    requires
        reachable(m, p),
        0 <= n <= p.len(),
    ensures
        reachable(m, p.take(n)),
        n < p.len() ==> p[n] < m[p.take(n)].7,
    decreases p.len(),
{
    if n == p.len() {
        assert(p.take(n) =~= p);
    } else if n == p.len() - 1 {
        assert(p.take(n) =~= p.drop_last());
    } else {
        lemma_reachable_prefix(m, p.drop_last(), n);
        assert(p.drop_last().take(n) =~= p.take(n));
    }
}

/// The subtree under child `i` of the subtree at `p` is the subtree at the
/// path one index longer.
proof fn lemma_subtree_step(m: Map<Seq<usize>, NodeFacts>, p: Seq<usize>, i: usize)
    ensures
        subtree_at(subtree_at(m, p), seq![i]) == subtree_at(m, p.push(i)),
        subtree_at(m, p).dom().contains(seq![i]) == m.dom().contains(p.push(i)),
{
    assert(p + seq![i] =~= p.push(i));
    assert forall|q: Seq<usize>| #[trigger] (seq![i] + q) == seq![i] + q implies p + (seq![i] + q) == p.push(i) + q by {
        assert(p + (seq![i] + q) =~= p.push(i) + q);
    }
    assert(subtree_at(subtree_at(m, p), seq![i]) =~= subtree_at(m, p.push(i)));
}

/// `n` zeros.
fn zeros(n: usize) -> (v: Vec<usize>)
    ensures
        v@.len() == n,
        forall|k: int| 0 <= k < n ==> #[trigger] v@[k] == 0,
{
    let mut v: Vec<usize> = Vec::new();
    while v.len() < n
        invariant
            v@.len() <= n,
            forall|k: int| 0 <= k < v@.len() ==> #[trigger] v@[k] == 0,
        decreases n - v@.len(),
    {
        v.push(0);
    }
    v
}

/// A node's record, with an empty slot for each child; nothing when its
/// bytes are not in order within the first `source_len`.
fn node_record(node: &Node, depth: usize, source_len: usize) -> (r: Option<SyntaxNode>)
    ensures
        r is Some <==> own_facts(*node).1 <= own_facts(*node).2 <= source_len,
        r matches Some(n) ==> shows(n, own_facts(*node)) && n.depth == depth && forall|k: int|
            0 <= k < n.children@.len() ==> #[trigger] n.children@[k] == 0,
{
    let (start_byte, end_byte) = node_bytes(node);
    if !(start_byte <= end_byte && end_byte <= source_len) {
        return None;
    }
    let (start_row, start_column) = node_start(node);
    let (end_row, end_column) = node_end(node);
    let count = node_child_count(node);
    Some(
        SyntaxNode {
            kind: node_kind(node),
            start_byte,
            end_byte,
            start_row,
            start_column,
            end_row,
            end_column,
            depth,
            children: zeros(count),
        },
    )
}

/// What waits on the walk's stack: a node, its parent's index, its place
/// among the parent's children, and its depth.
type Pending<'a> = (Node<'a>, usize, usize, usize);

/// The path of a waiting node.
pub open spec fn pending_path(ps: Seq<Seq<usize>>, e: (usize, usize)) -> Seq<usize> {
    ps[e.0 as int].push(e.1)
}

/// Pushes the children of node `idx`, the last first, so that the first
/// comes off the stack first.
fn push_children<'a>(node: &Node<'a>, idx: usize, depth: usize, stack: &mut Vec<Pending<'a>>)
    requires
        depth < usize::MAX,
    ensures
        final(stack)@.len() == old(stack)@.len() + own_facts(*node).7,
        forall|s: int| 0 <= s < old(stack)@.len() ==> #[trigger] final(stack)@[s] == old(stack)@[s],
        forall|s: int|
            old(stack)@.len() <= s < final(stack)@.len() ==> {
                let e = #[trigger] final(stack)@[s];
                let k = own_facts(*node).7 - 1 - (s - old(stack)@.len());
                &&& e.1 == idx
                &&& e.2 == k
                &&& e.3 == depth + 1
                &&& subtree_nodes(*node).dom().contains(seq![e.2])
                &&& subtree_nodes(e.0) == subtree_at(subtree_nodes(*node), seq![e.2])
            },
{
    let count = node_child_count(node);
    let mut i = count;
    while i > 0
        invariant
            count == own_facts(*node).7,
            i <= count,
            depth < usize::MAX,
            stack@.len() == old(stack)@.len() + (count - i),
            forall|s: int| 0 <= s < old(stack)@.len() ==> #[trigger] stack@[s] == old(stack)@[s],
            forall|s: int|
                old(stack)@.len() <= s < stack@.len() ==> {
                    let e = #[trigger] stack@[s];
                    let k = count - 1 - (s - old(stack)@.len());
                    &&& e.1 == idx
                    &&& e.2 == k
                    &&& e.3 == depth + 1
                    &&& subtree_nodes(*node).dom().contains(seq![e.2])
                    &&& subtree_nodes(e.0) == subtree_at(subtree_nodes(*node), seq![e.2])
                },
        decreases i,
    {
        i = i - 1;
        match node_child(node, i) {
            Some(child) => {
                stack.push((child, idx, i, depth + 1));
            },
            None => {
                assert(false);
            },
        }
    }
}

/// A node's bytes are in order within the first `len`.
pub open spec fn within(n: SyntaxNode, len: nat) -> bool {
    n.start_byte <= n.end_byte <= len
}

/// What holds at each turn of the walk: the nodes read so far, at paths
/// `ps`, with an empty slot for each child not yet read; the waiting nodes
/// `st`, one for each empty slot, the first child on top; every node that the
/// walk meets read or under a waiting one; no path read or waiting twice; and
/// the paths read in walk order, each before every waiting one, the top one
/// first.
pub open spec fn walk_state(
    m: Map<Seq<usize>, NodeFacts>,
    ns: Seq<SyntaxNode>,
    ps: Seq<Seq<usize>>,
    st: Seq<Pending>,
    len: nat,
) -> bool {
    &&& ns.len() == ps.len()
    &&& ps.len() >= 1
    &&& ps[0] == Seq::<usize>::empty()
    &&& forall|j: int|
            0 <= j < ps.len() ==> reachable(m, #[trigger] ps[j]) && shows(ns[j], m[ps[j]])
                && ns[j].depth == ps[j].len()
    &&& forall|j: int| 0 <= j < ns.len() ==> #[trigger] within(ns[j], len)
    &&& forall|j: int, k: int|
            0 <= j < ns.len() && 0 <= k < ns[j].children@.len() ==> {
                let c = #[trigger] ns[j].children@[k] as int;
                c == 0 || (j < c < ns.len() && ps[c] == ps[j].push(k as usize))
            }
    &&& forall|j: int, k1: int, k2: int|
            0 <= j < ns.len() && 0 <= k1 < k2 < ns[j].children@.len()
                && #[trigger] ns[j].children@[k2] != 0 ==> #[trigger] ns[j].children@[k1]
                != 0 && ns[j].children@[k1] < ns[j].children@[k2]
    &&& forall|s: int|
            0 <= s < st.len() ==> {
                let e = #[trigger] st[s];
                &&& e.1 < ns.len()
                &&& e.2 < ns[e.1 as int].children@.len()
                &&& ns[e.1 as int].children@[e.2 as int] == 0
                &&& e.3 == ps[e.1 as int].len() + 1
                &&& subtree_nodes(e.0) == subtree_at(m, pending_path(ps, (e.1, e.2)))
                &&& reachable(m, pending_path(ps, (e.1, e.2)))
            }
    &&& forall|j: int, k: int|
            0 <= j < ns.len() && 0 <= k < ns[j].children@.len() && #[trigger] ns[j].children@[k]
                == 0 ==> exists|s: int| 0 <= s < st.len() && #[trigger] st[s].1 == j && st[s].2 == k
    &&& forall|s1: int, s2: int|
            0 <= s1 < s2 < st.len() && #[trigger] st[s1].1 == #[trigger] st[s2].1 ==> st[s1].2
                > st[s2].2
    &&& forall|p: Seq<usize>|
            #[trigger] reachable(m, p) ==> ps.contains(p) || exists|s: int|
                0 <= s < st.len() && leads(#[trigger] pending_path(ps, (st[s].1, st[s].2)), p)
    &&& ps.no_duplicates()
    &&& forall|s: int, j: int|
            0 <= s < st.len() && 0 <= j < ps.len() ==> !leads(
                #[trigger] pending_path(ps, (st[s].1, st[s].2)),
                #[trigger] ps[j],
            )
    &&& forall|s1: int, s2: int|
            0 <= s1 < st.len() && 0 <= s2 < st.len() && s1 != s2 ==> !leads(
                #[trigger] pending_path(ps, (st[s1].1, st[s1].2)),
                #[trigger] pending_path(ps, (st[s2].1, st[s2].2)),
            )
    &&& forall|j1: int, j2: int| 0 <= j1 < j2 < ps.len() ==> before(#[trigger] ps[j1], #[trigger] ps[j2])
    &&& forall|s: int, j: int|
            0 <= s < st.len() && 0 <= j < ps.len() ==> before(
                #[trigger] ps[j],
                #[trigger] pending_path(ps, (st[s].1, st[s].2)),
            )
    &&& forall|s1: int, s2: int|
            0 <= s1 < s2 < st.len() ==> before(
                #[trigger] pending_path(ps, (st[s2].1, st[s2].2)),
                #[trigger] pending_path(ps, (st[s1].1, st[s1].2)),
            )
}

/// Prefixes and one-index extensions: a path that an extension of `a` leads
/// to is one that `a` leads to; `a` leads to itself but not its extension
/// to `a`; what leads to an extension of `a` leads to `a` or is it.
proof fn lemma_leads_push(a: Seq<usize>, k: usize, b: Seq<usize>)
    ensures
        leads(a.push(k), b) ==> leads(a, b),
        leads(a, a),
        !leads(a.push(k), a),
        leads(b, a.push(k)) ==> leads(b, a) || b == a.push(k),
{
    if leads(a.push(k), b) {
        assert forall|i: int| 0 <= i < a.len() implies a[i] == b[i] by {
            assert(a.push(k)[i] == a[i]);
        }
    }
    if leads(b, a.push(k)) && b.len() <= a.len() {
        assert forall|i: int| 0 <= i < b.len() implies b[i] == a[i] by {
            assert(a.push(k)[i] == a[i]);
        }
    }
    if leads(b, a.push(k)) && b.len() > a.len() {
        assert(b =~= a.push(k));
    }
}

/// One turn of the walk keeps its state: the node on top of the stack is
/// read at its path, filling its slot in its parent, and its children wait
/// on the stack, the first on top.
proof fn lemma_walk_step(
    m: Map<Seq<usize>, NodeFacts>,
    ns0: Seq<SyntaxNode>,
    ps0: Seq<Seq<usize>>,
    st0: Seq<Pending>,
    ns: Seq<SyntaxNode>,
    ps: Seq<Seq<usize>>,
    st: Seq<Pending>,
    len: nat,
)
    requires
        walk_state(m, ns0, ps0, st0, len),
        st0.len() > 0,
        ns0.len() < usize::MAX,
        ({
            let e = st0.last();
            let tp = st0.len() - 1;
            let pp = pending_path(ps0, (e.1, e.2));
            let idx = ns0.len() as int;
            let count = m[pp].7;
            &&& ps == ps0.push(pp)
            &&& ns.len() == idx + 1
            &&& shows(ns[idx], m[pp])
            &&& ns[idx].depth == e.3
            &&& ns[idx].start_byte <= ns[idx].end_byte <= len
            &&& forall|k: int| 0 <= k < ns[idx].children@.len() ==> #[trigger] ns[idx].children@[k] == 0
            &&& forall|j: int| 0 <= j < idx && j != e.1 ==> #[trigger] ns[j] == ns0[j]
            &&& shows(ns[e.1 as int], m[ps0[e.1 as int]])
            &&& ns[e.1 as int].depth == ns0[e.1 as int].depth
            &&& ns[e.1 as int].start_byte == ns0[e.1 as int].start_byte
            &&& ns[e.1 as int].end_byte == ns0[e.1 as int].end_byte
            &&& ns[e.1 as int].children@ == ns0[e.1 as int].children@.update(e.2 as int, idx as usize)
            &&& st.len() == tp + count
            &&& forall|s: int| 0 <= s < tp ==> #[trigger] st[s] == st0[s]
            &&& forall|s: int|
                tp <= s < st.len() ==> {
                    let f = #[trigger] st[s];
                    &&& f.1 == idx
                    &&& f.2 == count - 1 - (s - tp)
                    &&& f.3 == e.3 + 1
                    &&& subtree_at(m, pp).dom().contains(seq![f.2])
                    &&& subtree_nodes(f.0) == subtree_at(subtree_at(m, pp), seq![f.2])
                }
        }),
    ensures
        walk_state(m, ns, ps, st, len),
{
    let e = st0.last();
    let tp = st0.len() - 1;
    let pp = pending_path(ps0, (e.1, e.2));
    let idx = ns0.len() as int;
    let count = m[pp].7;
    let parent = e.1 as int;
    let place = e.2 as int;
    assert(st0[tp] == e);
    assert(e.1 < ns0.len() && e.2 < ns0[parent].children@.len() && ns0[parent].children@[place] == 0);
    assert(ns[parent].children@[place] == idx);
    assert(reachable(m, pp));
    assert(pp.len() == e.3);
    // the pending paths of the old entries stay
    assert forall|s: int| 0 <= s < tp implies #[trigger] pending_path(ps, (st[s].1, st[s].2)) == pending_path(
        ps0,
        (st0[s].1, st0[s].2),
    ) by {
        assert(st[s] == st0[s]);
    }
    // the new entries wait at the children's paths
    assert forall|s: int| tp <= s < st.len() implies #[trigger] pending_path(ps, (st[s].1, st[s].2)) == pp.push(
        st[s].2,
    ) && reachable(m, pp.push(st[s].2)) && subtree_nodes(st[s].0) == subtree_at(m, pp.push(st[s].2)) by {
        let f = st[s];
        lemma_subtree_step(m, pp, f.2);
        assert(pp.push(f.2).drop_last() =~= pp);
    }
    // no other entry had the top one's slot
    assert forall|s: int| 0 <= s < tp implies !(#[trigger] st0[s].1 == e.1 && st0[s].2 == e.2) by {
        lemma_leads_push(pending_path(ps0, (st0[s].1, st0[s].2)), 0, pp);
    }
    // nodes and paths
    assert forall|j: int| 0 <= j < ps.len() implies reachable(m, #[trigger] ps[j]) && shows(ns[j], m[ps[j]])
        && ns[j].depth == ps[j].len() by {
        if j < idx && j != parent {
            assert(ns[j] == ns0[j]);
        }
    }
    assert forall|j: int| 0 <= j < ns.len() implies #[trigger] within(ns[j], len) by {
        if j < idx {
            assert(within(ns0[j], len));
            if j != parent {
                assert(ns[j] == ns0[j]);
            }
        }
    }
    // filled slots
    assert forall|j: int, k: int| 0 <= j < ns.len() && 0 <= k < ns[j].children@.len() implies {
        let c = #[trigger] ns[j].children@[k] as int;
        c == 0 || (j < c < ns.len() && ps[c] == ps[j].push(k as usize))
    } by {
        let c = ns[j].children@[k] as int;
        if j < idx && j != parent {
            assert(ns[j] == ns0[j]);
            if c != 0 {
                assert(ps[c] == ps0[c] && ps[j] == ps0[j]);
            }
        } else if j == idx {
            assert(c == 0);
        } else if j == parent && k == place {
            assert(c == idx);
            assert(ps[idx] == pp && ps[parent] == ps0[parent]);
            assert(pp == ps0[parent].push(place as usize));
        } else if j == parent {
            assert(ns[j].children@[k] == ns0[j].children@[k]);
            if c != 0 {
                assert(ps[c] == ps0[c] && ps[j] == ps0[j]);
            }
        }
    }
    // slots fill in order
    assert forall|j: int, k1: int, k2: int|
        0 <= j < ns.len() && 0 <= k1 < k2 < ns[j].children@.len() && #[trigger] ns[j].children@[k2]
            != 0 implies #[trigger] ns[j].children@[k1] != 0 && ns[j].children@[k1] < ns[j].children@[k2] by {
        if j < idx && j != parent {
            assert(ns[j] == ns0[j]);
        } else if j == parent {
            if k2 == place {
                if ns0[parent].children@[k1] == 0 {
                    let s = choose|s: int| 0 <= s < st0.len() && #[trigger] st0[s].1 == j && st0[s].2 == k1;
                    assert(st0[s].1 == st0[tp].1);
                }
            } else if k1 == place {
                assert(ns0[parent].children@[k2] != 0);
            }
        }
    }
    // waiting entries
    assert forall|s: int| 0 <= s < st.len() implies {
        let f = #[trigger] st[s];
        &&& f.1 < ns.len()
        &&& f.2 < ns[f.1 as int].children@.len()
        &&& ns[f.1 as int].children@[f.2 as int] == 0
        &&& f.3 == ps[f.1 as int].len() + 1
        &&& subtree_nodes(f.0) == subtree_at(m, pending_path(ps, (f.1, f.2)))
        &&& reachable(m, pending_path(ps, (f.1, f.2)))
    } by {
        if s < tp {
            assert(st[s] == st0[s]);
            assert(pending_path(ps, (st[s].1, st[s].2)) == pending_path(ps0, (st0[s].1, st0[s].2)));
            if st0[s].1 as int != parent {
                assert(ns[st0[s].1 as int] == ns0[st0[s].1 as int]);
            }
        } else {
            assert(pending_path(ps, (st[s].1, st[s].2)) == pp.push(st[s].2));
        }
    }
    // every empty slot has its entry
    assert forall|j: int, k: int|
        0 <= j < ns.len() && 0 <= k < ns[j].children@.len() && #[trigger] ns[j].children@[k]
            == 0 implies exists|s: int| 0 <= s < st.len() && #[trigger] st[s].1 == j && st[s].2 == k by {
        if j == idx {
            let s = tp + count - 1 - k;
            assert(st[s].1 == j && st[s].2 == k);
        } else {
            if j != parent {
                assert(ns[j] == ns0[j]);
            }
            assert(idx > 0 && ns[parent].children@[place] == idx);
            assert(!(j == parent && k == place));
            assert(ns0[j].children@[k] == 0);
            let s = choose|s: int| 0 <= s < st0.len() && #[trigger] st0[s].1 == j && st0[s].2 == k;
            assert(s != tp);
            assert(st[s] == st0[s]);
            assert(st[s].1 == j && st[s].2 == k);
        }
    }
    // entries of one parent, the first on top
    assert forall|s1: int, s2: int|
        0 <= s1 < s2 < st.len() && #[trigger] st[s1].1 == #[trigger] st[s2].1 implies st[s1].2 > st[s2].2 by {
        if s2 < tp {
            assert(st[s1] == st0[s1] && st[s2] == st0[s2]);
        } else if s1 < tp {
            assert(st[s1] == st0[s1]);
        }
    }
    // every reachable node read or under a waiting one
    assert forall|p: Seq<usize>| #[trigger] reachable(m, p) implies ps.contains(p) || exists|s: int|
        0 <= s < st.len() && leads(#[trigger] pending_path(ps, (st[s].1, st[s].2)), p) by {
        if ps0.contains(p) {
            let j = choose|j: int| 0 <= j < ps0.len() && ps0[j] == p;
            assert(ps[j] == p);
        } else {
            let s = choose|s: int| 0 <= s < st0.len() && leads(#[trigger] pending_path(ps0, (st0[s].1, st0[s].2)), p);
            if s < tp {
                assert(pending_path(ps, (st[s].1, st[s].2)) == pending_path(ps0, (st0[s].1, st0[s].2)));
            } else if p.len() == pp.len() {
                assert(p =~= pp);
                assert(ps[idx] == p);
            } else {
                lemma_reachable_prefix(m, p, pp.len() as int);
                assert(p.take(pp.len() as int) =~= pp);
                let k = p[pp.len() as int];
                let s2 = tp + count - 1 - k;
                assert(pending_path(ps, (st[s2].1, st[s2].2)) == pp.push(k));
                assert(leads(pp.push(k), p));
            }
        }
    }
    // nothing read twice
    assert forall|j: int| 0 <= j < ps0.len() implies ps0[j] != pp by {
        lemma_leads_push(pp, 0, pp);
    }
    assert forall|s: int, j: int| 0 <= s < st.len() && 0 <= j < ps.len() implies !leads(
        #[trigger] pending_path(ps, (st[s].1, st[s].2)),
        #[trigger] ps[j],
    ) by {
        let q = pending_path(ps, (st[s].1, st[s].2));
        if s < tp {
            if j == idx {
                assert(q == pending_path(ps0, (st0[s].1, st0[s].2)));
            }
        } else {
            lemma_leads_push(pp, st[s].2, ps[j]);
            lemma_leads_push(pp, st[s].2, pp);
        }
    }
    assert forall|s1: int, s2: int| 0 <= s1 < st.len() && 0 <= s2 < st.len() && s1 != s2 implies !leads(
        #[trigger] pending_path(ps, (st[s1].1, st[s1].2)),
        #[trigger] pending_path(ps, (st[s2].1, st[s2].2)),
    ) by {
        let q1 = pending_path(ps, (st[s1].1, st[s1].2));
        let q2 = pending_path(ps, (st[s2].1, st[s2].2));
        if s1 >= tp && s2 >= tp {
            assert(q1[q1.len() - 1] != q2[q2.len() - 1]);
        } else if s1 >= tp {
            lemma_leads_push(pp, st[s1].2, q2);
        } else if s2 >= tp {
            lemma_leads_push(pp, st[s2].2, q1);
        }
    }
}

/// Reads a tree-sitter tree into a syntax tree, walking it depth first: the
/// result mirrors the tree's nodes. Nothing comes back when a node's bytes
/// are not in order within `source_len`, a node lies `usize::MAX` deep, or
/// the walk meets `usize::MAX` nodes.
pub fn read_tree(tree: &Tree, source_len: usize) -> (r: Option<SyntaxTree>)
    ensures
        r matches Some(t) ==> t.wf() && t.fits(source_len as nat) && exists|ps: Seq<Seq<usize>>|
            mirrors(t, tree_nodes(*tree), ps),
        r is None ==> !readable(tree_nodes(*tree), source_len as nat),
{
    let ghost m = tree_nodes(*tree);
    let root = root_node(tree);
    proof {
        assert(subtree_at(m, Seq::<usize>::empty()) =~= m) by {
            assert forall|q: Seq<usize>| #[trigger] m.dom().contains(q) == m.dom().contains(Seq::<usize>::empty() + q) by {
                assert(Seq::<usize>::empty() + q =~= q);
            }
            assert forall|q: Seq<usize>| m.dom().contains(q) implies #[trigger] m[q] == m[Seq::<usize>::empty() + q] by {
                assert(Seq::<usize>::empty() + q =~= q);
            }
        }
        assert(reachable(m, Seq::<usize>::empty()));
    }
    let first = match node_record(&root, 0, source_len) {
        Some(n) => n,
        None => {
            return None;
        },
    };
    let mut nodes: Vec<SyntaxNode> = Vec::new();
    nodes.push(first);
    let ghost mut ps: Seq<Seq<usize>> = seq![Seq::<usize>::empty()];
    let mut stack: Vec<Pending> = Vec::new();
    push_children(&root, 0, 0, &mut stack);
    proof {
        let count = own_facts(root).7;
        assert(m[Seq::<usize>::empty()] == own_facts(root));
        assert forall|s: int| 0 <= s < stack@.len() implies pending_path(ps, (#[trigger] stack@[s].1, stack@[s].2))
            == seq![stack@[s].2] && reachable(m, seq![stack@[s].2]) by {
            let e = stack@[s];
            assert(pending_path(ps, (e.1, e.2)) =~= seq![e.2]);
            assert(seq![e.2].drop_last() =~= Seq::<usize>::empty());
        }
        assert forall|j: int, k: int|
            0 <= j < nodes@.len() && 0 <= k < nodes@[j].children@.len() && #[trigger] nodes@[j].children@[k]
                == 0 implies exists|s: int| 0 <= s < stack@.len() && #[trigger] stack@[s].1 == j && stack@[s].2 == k by {
            let s = count - 1 - k;
            assert(stack@[s].1 == j && stack@[s].2 == k);
        }
        assert forall|p: Seq<usize>| #[trigger] reachable(m, p) implies ps.contains(p) || exists|s: int|
            0 <= s < stack@.len() && leads(#[trigger] pending_path(ps, (stack@[s].1, stack@[s].2)), p) by {
            if p.len() == 0 {
                assert(p =~= ps[0]);
            } else {
                lemma_reachable_prefix(m, p, 0);
                assert(p.take(0) =~= Seq::<usize>::empty());
                let s = count - 1 - p[0];
                assert(pending_path(ps, (stack@[s].1, stack@[s].2)) == seq![p[0]]);
                assert(leads(seq![p[0]], p));
            }
        }
        assert forall|s1: int, s2: int|
            0 <= s1 < stack@.len() && 0 <= s2 < stack@.len() && s1 != s2 implies !leads(
                #[trigger] pending_path(ps, (stack@[s1].1, stack@[s1].2)),
                #[trigger] pending_path(ps, (stack@[s2].1, stack@[s2].2)),
            ) by {
            assert(pending_path(ps, (stack@[s1].1, stack@[s1].2))[0] != pending_path(ps, (stack@[s2].1, stack@[s2].2))[0]);
        }
    }
    while stack.len() > 0
        invariant
            m == tree_nodes(*tree),
            walk_state(m, nodes@, ps, stack@, source_len as nat),
        decreases usize::MAX - nodes@.len(),
    {
        if nodes.len() == usize::MAX {
            proof {
                assert(ps.len() == usize::MAX && ps.no_duplicates() && forall|i: int| 0 <= i < ps.len() ==> #[trigger] reachable(m, ps[i]));
            }
            return None;
        }
        let ghost st0 = stack@;
        let ghost ns0 = nodes@;
        let ghost ps0 = ps;
        let (node, parent, place, depth) = stack.pop().unwrap();
        let ghost tp = st0.len() - 1;
        let ghost pp = pending_path(ps0, (parent, place));
        proof {
            assert(st0[tp] == (node, parent, place, depth));
            assert(stack@ =~= st0.take(tp));
            assert(subtree_at(m, pp).dom().contains(Seq::<usize>::empty()) && own_facts(node) == m[pp]) by {
                assert(pp + Seq::<usize>::empty() =~= pp);
            }
        }
        let idx = nodes.len();
        if depth == usize::MAX {
            return None;
        }
        let rec = match node_record(&node, depth, source_len) {
            Some(n) => n,
            None => {
                return None;
            },
        };
        nodes.push(rec);
        nodes[parent].children.set(place, idx);
        proof {
            ps = ps.push(pp);
        }
        push_children(&node, idx, depth, &mut stack);
        proof {
            lemma_walk_step(m, ns0, ps0, st0, nodes@, ps, stack@, source_len as nat);
        }
    }
    let t = SyntaxTree { nodes };
    proof {
        assert forall|j: int, k: int|
            0 <= j < t.nodes@.len() && 0 <= k < t.nodes@[j].children@.len() implies #[trigger] t.nodes@[j].children@[k]
            != 0 by {
            if t.nodes@[j].children@[k] == 0 {
                let s = choose|s: int| 0 <= s < stack@.len() && #[trigger] stack@[s].1 == j && stack@[s].2 == k;
            }
        }
        assert forall|i: int, k: int|
            0 <= i < t.nodes@.len() && 0 <= k < t.nodes@[i].children@.len() implies {
                let c = #[trigger] t.nodes@[i].children@[k] as int;
                &&& i < c < t.nodes@.len()
                &&& t.nodes@[c].depth == t.nodes@[i].depth + 1
            } by {
            let c = t.nodes@[i].children@[k] as int;
            assert(t.nodes@[i].children@[k] != 0);
            assert(ps[c] == ps[i].push(k as usize));
        }
        assert forall|i: int, k1: int, k2: int|
            0 <= i < t.nodes@.len() && 0 <= k1 < k2 < t.nodes@[i].children@.len()
                implies #[trigger] t.nodes@[i].children@[k1] < #[trigger] t.nodes@[i].children@[k2] by {
            assert(t.nodes@[i].children@[k2] != 0);
        }
        assert(t.wf());
        assert forall|p: Seq<usize>| #[trigger] reachable(m, p) implies exists|j: int| 0 <= j < ps.len() && #[trigger] ps[j] == p by {
            assert(ps.contains(p));
        }
        assert(mirrors(t, m, ps));
        assert(mirrors(t, tree_nodes(*tree), ps));
        assert forall|i: int| 0 <= i < t.nodes@.len() implies #[trigger] t.nodes@[i].start_byte <= t.nodes@[i].end_byte <= source_len by {
            assert(within(t.nodes@[i], source_len as nat));
        }
        assert(t.fits(source_len as nat));
    }
    Some(t)
}

} // verus!
