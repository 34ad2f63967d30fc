//! Structure and call graph of analysed source code, and the diagnosis of
//! an error location.
use vstd::prelude::*;
use vstd::utf8::{decode_utf8, valid_utf8};
use crate::ast::syntax::{
    decode_utf8_text, mirrors, new_lang_parser, parsed_nodes, readable, LangParser, LanguageKind,
    SyntaxNode, SyntaxTree,
};
use crate::error::HephaestusError;
use crate::text::{owned, extend_str, string_of, chars_of, lines, lines_of, opt_view, strs, trim, trim_chars, views};

verus! {

/// High-level AST diagnosis result.
#[derive(Clone, Debug)]
pub struct ASTDiagnosis {
    pub error_function: String,
    pub error_file: String,
    pub error_line: u32,
    pub function_signature: String,
    pub callers: Vec<String>,
    pub dependencies: Vec<String>,
    pub slim_nodes: Vec<SlimNode>,
    pub repair_context: String,
}

/// Slim node format: only the fields that fit a token budget.
#[derive(Clone, Debug)]
pub struct SlimNode {
    /// Deterministic ID (a hash of type, name and line).
    pub id: String,
    /// "function", "class", "module", ...
    pub node_type: String,
    pub name: String,
    pub file_path: String,
    /// Brief description taken from code comments.
    pub summary: String,
}

/// Structure node for internal representation.
#[derive(Clone, Debug)]
pub struct StructureNode {
    pub node_type: String,
    pub name: String,
    pub file_path: String,
    pub line_number: u32,
    /// Full function signature.
    pub signature: String,
    /// IDs of child nodes.
    pub children: Vec<String>,
}

/// Call graph edge.
#[derive(Clone, Debug)]
pub struct CallEdge {
    /// Function that makes the call.
    pub caller: String,
    /// Function being called.
    pub callee: String,
    /// Where the call occurs.
    pub line_number: u32,
}

/// Call graph: call edges in the order they were found, and the structure
/// nodes keyed by function name.
#[derive(Clone, Debug)]
pub struct CallGraph {
    pub edges: Vec<CallEdge>,
    /// Structure nodes; no two share a name (see `wf`).
    pub nodes: Vec<StructureNode>,
}

/// No two nodes share a name.
pub open spec fn names_unique(s: Seq<StructureNode>) -> bool {
    forall|i: int, j: int|
        0 <= i < s.len() && 0 <= j < s.len() && i != j ==> #[trigger] s[i].name@ != #[trigger] s[j].name@
}

/// Some node is named `k`.
pub open spec fn has_name(s: Seq<StructureNode>, k: Seq<char>) -> bool {
    exists|i: int| 0 <= i < s.len() && #[trigger] s[i].name@ == k
}

/// Callers of every edge whose callee is `f`, in edge order.
pub open spec fn callers_of(edges: Seq<CallEdge>, f: Seq<char>) -> Seq<Seq<char>>
    decreases edges.len(),
{
    if edges.len() == 0 {
        seq![]
    } else {
        let rest = callers_of(edges.drop_last(), f);
        if edges.last().callee@ == f {
            rest.push(edges.last().caller@)
        } else {
            rest
        }
    }
}

/// Callees of every edge whose caller is `f`, in edge order.
pub open spec fn callees_of(edges: Seq<CallEdge>, f: Seq<char>) -> Seq<Seq<char>>
    decreases edges.len(),
{
    if edges.len() == 0 {
        seq![]
    } else {
        let rest = callees_of(edges.drop_last(), f);
        if edges.last().caller@ == f {
            rest.push(edges.last().callee@)
        } else {
            rest
        }
    }
}

/// With unique names, the node picked for a name is the one that has it.
proof fn lemma_pick_is_index(s: Seq<StructureNode>, k: Seq<char>, i: int)
    requires
        names_unique(s),
        0 <= i < s.len(),
        s[i].name@ == k,
    ensures
        (choose|j: int| 0 <= j < s.len() && s[j].name@ == k) == i,
{
    let w = choose|j: int| 0 <= j < s.len() && s[j].name@ == k;
    assert(0 <= w < s.len() && s[w].name@ == k);
}

fn str_eq(a: &String, b: &str) -> (r: bool)
    ensures
        r == (a@ == b@),
{
    let x = crate::text::chars_of(a.as_str());
    let y = crate::text::chars_of(b);
    if x.len() != y.len() {
        return false;
    }
    let mut i: usize = 0;
    while i < x.len()
        invariant
            x@ == a@,
            y@ == b@,
            x@.len() == y@.len(),
            i <= x@.len(),
            forall|j: int| 0 <= j < i ==> x@[j] == y@[j],
        decreases x.len() - i,
    {
        if x[i] != y[i] {
            return false;
        }
        i = i + 1;
    }
    assert(x@ =~= y@);
    true
}

impl Default for CallGraph {
    /// The empty graph.
    fn default() -> (g: Self)
        ensures
            g.wf(),
            g.edges@.len() == 0,
            g.nodes@.len() == 0,
    {
        CallGraph::new()
    }
}

impl CallGraph {
    pub open spec fn wf(self) -> bool {
        names_unique(self.nodes@)
    }

    /// The nodes keyed by name.
    pub open spec fn node_map(self) -> Map<Seq<char>, StructureNode> {
        Map::new(
            |k: Seq<char>| has_name(self.nodes@, k),
            |k: Seq<char>|
                self.nodes@[choose|i: int| 0 <= i < self.nodes@.len() && self.nodes@[i].name@ == k],
        )
    }

    pub fn new() -> (g: Self)
        ensures
            g.wf(),
            g.edges@.len() == 0,
            g.nodes@.len() == 0,
            g.node_map() == Map::<Seq<char>, StructureNode>::empty(),
    {
        let g = CallGraph { edges: Vec::new(), nodes: Vec::new() };
        assert(g.node_map() =~= Map::<Seq<char>, StructureNode>::empty());
        g
    }

    fn index_of(&self, name: &str) -> (r: Option<usize>)
        requires
            self.wf(),
        ensures
            r matches Some(i) ==> i < self.nodes@.len() && self.nodes@[i as int].name@ == name@,
            r is None ==> !has_name(self.nodes@, name@),
    {
        let mut i: usize = 0;
        while i < self.nodes.len()
            invariant
                i <= self.nodes@.len(),
                forall|j: int| 0 <= j < i ==> self.nodes@[j].name@ != name@,
            decreases self.nodes.len() - i,
        {
            if str_eq(&self.nodes[i].name, name) {
                return Some(i);
            }
            i = i + 1;
        }
        None
    }

    /// Adds a node, replacing any node of the same name.
    #[verifier::spinoff_prover]
    #[verifier::rlimit(40)]
    pub fn add_node(&mut self, node: StructureNode)
        requires
            old(self).wf(),
        ensures
            final(self).wf(),
            final(self).edges == old(self).edges,
            final(self).node_map() == old(self).node_map().insert(node.name@, node),
    {
        let ghost old_nodes = self.nodes@;
        let ghost key = node.name@;
        match self.index_of(node.name.as_str()) {
            Some(i) => {
                self.nodes.set(i, node);
                assert(names_unique(self.nodes@)) by {
                    assert forall|a: int, b: int|
                        0 <= a < self.nodes@.len() && 0 <= b < self.nodes@.len() && a != b implies
                        #[trigger] self.nodes@[a].name@ != #[trigger] self.nodes@[b].name@ by {
                        if a != i && b != i {
                            assert(old_nodes[a].name@ != old_nodes[b].name@);
                        } else if a == i {
                            assert(old_nodes[i as int].name@ != old_nodes[b].name@);
                        } else {
                            assert(old_nodes[i as int].name@ != old_nodes[a].name@);
                        }
                    }
                }
                assert forall|k: Seq<char>| has_name(self.nodes@, k) == (has_name(old_nodes, k) || k == key) by {
                    if has_name(old_nodes, k) {
                        let w = choose|j: int| 0 <= j < old_nodes.len() && old_nodes[j].name@ == k;
                        if w != i {
                            assert(self.nodes@[w].name@ == k);
                        } else {
                            assert(self.nodes@[i as int].name@ == k);
                        }
                    }
                    if k == key {
                        assert(self.nodes@[i as int].name@ == k);
                    }
                    if has_name(self.nodes@, k) {
                        let w = choose|j: int| 0 <= j < self.nodes@.len() && self.nodes@[j].name@ == k;
                        if w != i {
                            assert(old_nodes[w].name@ == k);
                        }
                    }
                }
            },
            None => {
                self.nodes.push(node);
                assert(names_unique(self.nodes@)) by {
                    assert forall|a: int, b: int|
                        0 <= a < self.nodes@.len() && 0 <= b < self.nodes@.len() && a != b implies
                        #[trigger] self.nodes@[a].name@ != #[trigger] self.nodes@[b].name@ by {
                        if a < old_nodes.len() && b < old_nodes.len() {
                            assert(old_nodes[a].name@ != old_nodes[b].name@);
                        } else if a < old_nodes.len() {
                            assert(old_nodes[a].name@ == self.nodes@[a].name@);
                        } else {
                            assert(old_nodes[b].name@ == self.nodes@[b].name@);
                        }
                    }
                }
                assert forall|k: Seq<char>| has_name(self.nodes@, k) == (has_name(old_nodes, k) || k == key) by {
                    if has_name(old_nodes, k) {
                        let w = choose|j: int| 0 <= j < old_nodes.len() && old_nodes[j].name@ == k;
                        assert(self.nodes@[w].name@ == k);
                    }
                    if k == key {
                        assert(self.nodes@[old_nodes.len() as int].name@ == k);
                    }
                    if has_name(self.nodes@, k) {
                        let w = choose|j: int| 0 <= j < self.nodes@.len() && self.nodes@[j].name@ == k;
                        if w < old_nodes.len() {
                            assert(old_nodes[w].name@ == k);
                        }
                    }
                }
            },
        }
        assert(self.node_map().dom() =~= old(self).node_map().insert(key, node).dom()) by {
            assert forall|k: Seq<char>| #[trigger] self.node_map().dom().contains(k) == old(self).node_map().insert(key, node).dom().contains(k) by {
                assert(self.node_map().dom().contains(k) == has_name(self.nodes@, k));
                assert(old(self).node_map().dom().contains(k) == has_name(old_nodes, k));
            }
        }
        assert forall|k: Seq<char>| #[trigger] self.node_map().contains_key(k) implies self.node_map()[k]
            == old(self).node_map().insert(key, node)[k] by {
            let w = choose|j: int| 0 <= j < self.nodes@.len() && self.nodes@[j].name@ == k;
            lemma_pick_is_index(self.nodes@, k, w);
            if k != key {
                let w0 = choose|j: int| 0 <= j < old_nodes.len() && old_nodes[j].name@ == k;
                lemma_pick_is_index(old_nodes, k, w0);
                assert(self.nodes@[w0].name@ == k);
                lemma_pick_is_index(self.nodes@, k, w0);
            }
        }
        assert(self.node_map() =~= old(self).node_map().insert(key, node));
    }

    pub fn add_edge(&mut self, edge: CallEdge)
        ensures
            final(self).edges@ == old(self).edges@.push(edge),
            final(self).nodes == old(self).nodes,
    {
        self.edges.push(edge);
    }

    /// The node named `name`, if any.
    pub fn get_node(&self, name: &str) -> (r: Option<&StructureNode>)
        requires
            self.wf(),
        ensures
            r is Some <==> self.node_map().contains_key(name@),
            r matches Some(n) ==> *n == self.node_map()[name@],
    {
        match self.index_of(name) {
            Some(i) => {
                assert(has_name(self.nodes@, name@));
                let ghost w = choose|j: int| 0 <= j < self.nodes@.len() && self.nodes@[j].name@ == name@;
                assert(w == i);
                Some(&self.nodes[i])
            },
            None => None,
        }
    }

    /// Callers of `function_name`, one per edge, in edge order.
    pub fn find_callers(&self, function_name: &str) -> (r: Vec<String>)
        ensures
            strs(r@) == callers_of(self.edges@, function_name@),
    {
        let mut r: Vec<String> = Vec::new();
        let mut i: usize = 0;
        while i < self.edges.len()
            invariant
                i <= self.edges@.len(),
                strs(r@) == callers_of(self.edges@.take(i as int), function_name@),
            decreases self.edges.len() - i,
        {
            let ghost before = r@;
            if str_eq(&self.edges[i].callee, function_name) {
                r.push(self.edges[i].caller.clone());
            }
            proof {
                assert(self.edges@.take(i + 1).drop_last() =~= self.edges@.take(i as int));
            }
            i = i + 1;
            assert(strs(r@) =~= callers_of(self.edges@.take(i as int), function_name@));
        }
        assert(self.edges@.take(self.edges@.len() as int) =~= self.edges@);
        r
    }

    /// Callees of `function_name`, one per edge, in edge order.
    pub fn find_dependencies(&self, function_name: &str) -> (r: Vec<String>)
        ensures
            strs(r@) == callees_of(self.edges@, function_name@),
    {
        let mut r: Vec<String> = Vec::new();
        let mut i: usize = 0;
        while i < self.edges.len()
            invariant
                i <= self.edges@.len(),
                strs(r@) == callees_of(self.edges@.take(i as int), function_name@),
            decreases self.edges.len() - i,
        {
            if str_eq(&self.edges[i].caller, function_name) {
                r.push(self.edges[i].callee.clone());
            }
            proof {
                assert(self.edges@.take(i + 1).drop_last() =~= self.edges@.take(i as int));
            }
            i = i + 1;
            assert(strs(r@) =~= callees_of(self.edges@.take(i as int), function_name@));
        }
        assert(self.edges@.take(self.edges@.len() as int) =~= self.edges@);
        r
    }
}


/// Recording a call adds its caller to the callee's callers, at the end,
/// and changes no other function's callers.
pub proof fn lemma_add_edge_extends_callers(edges: Seq<CallEdge>, e: CallEdge, f: Seq<char>)
    ensures
        callers_of(edges.push(e), f) == (if e.callee@ == f {
            callers_of(edges, f).push(e.caller@)
        } else {
            callers_of(edges, f)
        }),
        callees_of(edges.push(e), f) == (if e.caller@ == f {
            callees_of(edges, f).push(e.callee@)
        } else {
            callees_of(edges, f)
        }),
{
    assert(edges.push(e).drop_last() =~= edges);
}

/// `a` is among the callers of `b` exactly when `b` is among the
/// dependencies of `a`.
pub proof fn lemma_callers_dependencies_dual(edges: Seq<CallEdge>, a: Seq<char>, b: Seq<char>)
    ensures
        callers_of(edges, b).contains(a) <==> callees_of(edges, a).contains(b),
    decreases edges.len(),
{
    if edges.len() > 0 {
        let rest = edges.drop_last();
        let e = edges.last();
        lemma_callers_dependencies_dual(rest, a, b);
        let cr = callers_of(rest, b);
        let cd = callees_of(rest, a);
        if e.callee@ == b && e.caller@ == a {
            assert(callers_of(edges, b) == cr.push(a));
            assert(callees_of(edges, a) == cd.push(b));
            assert(cr.push(a)[cr.len() as int] == a);
            assert(cd.push(b)[cd.len() as int] == b);
        } else {
            if e.callee@ == b {
                assert(callers_of(edges, b) == cr.push(e.caller@));
                assert(callers_of(edges, b).contains(a) <==> cr.contains(a)) by {
                    if callers_of(edges, b).contains(a) {
                        let k = choose|k: int| 0 <= k < cr.push(e.caller@).len() && cr.push(e.caller@)[k] == a;
                        assert(k < cr.len());
                        assert(cr[k] == a);
                    }
                    if cr.contains(a) {
                        let k = choose|k: int| 0 <= k < cr.len() && cr[k] == a;
                        assert(cr.push(e.caller@)[k] == a);
                    }
                }
            }
            if e.caller@ == a {
                assert(callees_of(edges, a) == cd.push(e.callee@));
                assert(callees_of(edges, a).contains(b) <==> cd.contains(b)) by {
                    if callees_of(edges, a).contains(b) {
                        let k = choose|k: int| 0 <= k < cd.push(e.callee@).len() && cd.push(e.callee@)[k] == b;
                        assert(k < cd.len());
                        assert(cd[k] == b);
                    }
                    if cd.contains(b) {
                        let k = choose|k: int| 0 <= k < cd.len() && cd[k] == b;
                        assert(cd.push(e.callee@)[k] == b);
                    }
                }
            }
        }
    }
}

/// A node read back by name after it was added is the node that was added,
/// and nodes of other names are as they were.
pub proof fn lemma_node_read_after_write(
    before: Map<Seq<char>, StructureNode>,
    n: StructureNode,
    k: Seq<char>,
)
    ensures
        before.insert(n.name@, n).contains_key(n.name@),
        before.insert(n.name@, n)[n.name@] == n,
        k != n.name@ ==> (before.insert(n.name@, n).contains_key(k) == before.contains_key(k)
            && (before.contains_key(k) ==> before.insert(n.name@, n)[k] == before[k])),
{
}

// ------------------------------------------------------------ tree reading

/// The text of a node: its bytes of the source, when they are valid UTF-8.
pub open spec fn node_text(src: Seq<u8>, n: SyntaxNode) -> Option<Seq<char>> {
    let b = src.subrange(n.start_byte as int, n.end_byte as int);
    if valid_utf8(b) {
        Some(decode_utf8(b))
    } else {
        None
    }
}

/// The one-based line of a zero-based row, as `row as u32 + 1` wraps.
pub open spec fn line_of(row: usize) -> u32 {
    if row as u32 == u32::MAX {
        0
    } else {
        (row as u32 + 1) as u32
    }
}

fn line_of_exec(row: usize) -> (l: u32)
    ensures
        l == line_of(row),
{
    let r = row as u32;
    if r == u32::MAX {
        0
    } else {
        r + 1
    }
}

fn byte_range(src: &[u8], from: usize, to: usize) -> (r: Vec<u8>)
    requires
        from <= to <= src@.len(),
    ensures
        r@ == src@.subrange(from as int, to as int),
{
    let mut r: Vec<u8> = Vec::new();
    let mut i = from;
    while i < to
        invariant
            from <= i <= to,
            to <= src@.len(),
            r@ == src@.subrange(from as int, i as int),
        decreases to - i,
    {
        r.push(src[i]);
        i = i + 1;
        assert(r@ =~= src@.subrange(from as int, i as int));
    }
    r
}

fn node_text_exec(src: &[u8], n: &SyntaxNode) -> (r: Option<String>)
    requires
        n.start_byte <= n.end_byte <= src@.len(),
    ensures
        opt_view(r) == node_text(src@, *n),
{
    let b = byte_range(src, n.start_byte, n.end_byte);
    decode_utf8_text(b.as_slice())
}

/// The first of the children `cs` whose kind is `kind`.
pub open spec fn first_child_of_kind(t: SyntaxTree, cs: Seq<usize>, kind: Seq<char>) -> Option<usize>
    decreases cs.len(),
{
    if cs.len() == 0 {
        None
    } else if t.nodes@[cs[0] as int].kind@ == kind {
        Some(cs[0])
    } else {
        first_child_of_kind(t, cs.drop_first(), kind)
    }
}

/// The first identifier under the first `function_declarator` among the
/// children `cs` that has one (how C names a function).
pub open spec fn c_name_node(t: SyntaxTree, cs: Seq<usize>) -> Option<usize>
    decreases cs.len(),
{
    if cs.len() == 0 {
        None
    } else {
        let c = cs[0] as int;
        if t.nodes@[c].kind@ == "function_declarator"@ && first_child_of_kind(
            t,
            t.nodes@[c].children@,
            "identifier"@,
        ) is Some {
            first_child_of_kind(t, t.nodes@[c].children@, "identifier"@)
        } else {
            c_name_node(t, cs.drop_first())
        }
    }
}

/// Whether a node kind defines a function in the language.
pub open spec fn is_function_kind(lang: LanguageKind, kind: Seq<char>) -> bool {
    match lang {
        LanguageKind::Rust => kind == "function_item"@,
        LanguageKind::C => kind == "function_definition"@,
    }
}

/// Whether a node kind is a call in the language.
pub open spec fn is_call_kind(lang: LanguageKind, kind: Seq<char>) -> bool {
    match lang {
        LanguageKind::Rust => kind == "method_call"@ || kind == "call_expression"@,
        LanguageKind::C => kind == "call_expression"@,
    }
}

/// The node that names the function defined at node `i`: its first
/// identifier child in Rust, the identifier of its declarator in C.
pub open spec fn name_node(t: SyntaxTree, lang: LanguageKind, i: int) -> Option<usize> {
    match lang {
        LanguageKind::Rust => first_child_of_kind(t, t.nodes@[i].children@, "identifier"@),
        LanguageKind::C => c_name_node(t, t.nodes@[i].children@),
    }
}

/// The text of the node `k` if there is one.
pub open spec fn text_of_node(t: SyntaxTree, src: Seq<u8>, k: Option<usize>) -> Option<Seq<char>> {
    match k {
        Some(c) => node_text(src, t.nodes@[c as int]),
        None => None,
    }
}

/// The signature of a function from its text: its first line, trimmed
/// (the whole text, trimmed, when it has no line).
pub open spec fn signature_of(text: Seq<char>) -> Seq<char> {
    if lines(text).len() > 0 {
        trim(lines(text)[0])
    } else {
        trim(text)
    }
}

/// What a structure node says: type, name, file, line, signature, children.
pub open spec fn structure_view(s: StructureNode) -> (Seq<char>, Seq<char>, Seq<char>, u32, Seq<char>, Seq<Seq<char>>) {
    (s.node_type@, s.name@, s.file_path@, s.line_number, s.signature@, strs(s.children@))
}

/// The structure node of node `i`, when it defines a function whose text
/// and name can be read.
pub open spec fn structure_at(t: SyntaxTree, src: Seq<u8>, lang: LanguageKind, i: int) -> Option<
    (Seq<char>, Seq<char>, Seq<char>, u32, Seq<char>, Seq<Seq<char>>),
> {
    let n = t.nodes@[i];
    if is_function_kind(lang, n.kind@) {
        match (node_text(src, n), text_of_node(t, src, name_node(t, lang, i))) {
            (Some(text), Some(name)) => Some(
                ("function"@, name, "unknown"@, line_of(n.start_row), signature_of(text), seq![]),
            ),
            _ => None,
        }
    } else {
        None
    }
}

/// The structure nodes of the first `n` nodes, in order.
pub open spec fn structures(t: SyntaxTree, src: Seq<u8>, lang: LanguageKind, n: int) -> Seq<
    (Seq<char>, Seq<char>, Seq<char>, u32, Seq<char>, Seq<Seq<char>>),
>
    decreases n,
{
    if n <= 0 {
        seq![]
    } else {
        let prev = structures(t, src, lang, n - 1);
        match structure_at(t, src, lang, n - 1) {
            Some(s) => prev.push(s),
            None => prev,
        }
    }
}

/// What a call edge says: caller, callee, line.
pub open spec fn edge_view(e: CallEdge) -> (Seq<char>, Seq<char>, u32) {
    (e.caller@, e.callee@, e.line_number)
}

/// The call edge of node `i`, when it is a call whose callee can be read:
/// the callee is its first identifier child, the caller is not known.
pub open spec fn edge_at(t: SyntaxTree, src: Seq<u8>, lang: LanguageKind, i: int) -> Option<
    (Seq<char>, Seq<char>, u32),
> {
    let n = t.nodes@[i];
    if is_call_kind(lang, n.kind@) {
        match text_of_node(t, src, first_child_of_kind(t, n.children@, "identifier"@)) {
            Some(callee) => Some(("unknown_function"@, callee, line_of(n.start_row))),
            None => None,
        }
    } else {
        None
    }
}

/// The call edges of the first `n` nodes, in order.
pub open spec fn call_edges(t: SyntaxTree, src: Seq<u8>, lang: LanguageKind, n: int) -> Seq<
    (Seq<char>, Seq<char>, u32),
>
    decreases n,
{
    if n <= 0 {
        seq![]
    } else {
        let prev = call_edges(t, src, lang, n - 1);
        match edge_at(t, src, lang, n - 1) {
            Some(e) => prev.push(e),
            None => prev,
        }
    }
}

fn kind_is(n: &SyntaxNode, k: &str) -> (b: bool)
    ensures
        b == (n.kind@ == k@),
{
    crate::text::str_eq(n.kind.as_str(), k)
}

fn first_child_of_kind_exec(t: &SyntaxTree, i: usize, kind: &str) -> (r: Option<usize>)
    requires
        t.wf(),
        i < t.nodes@.len(),
    ensures
        r == first_child_of_kind(*t, t.nodes@[i as int].children@, kind@),
        r matches Some(c) ==> c < t.nodes@.len(),
{
    let ghost cs = t.nodes@[i as int].children@;
    let mut k: usize = 0;
    assert(cs.skip(0) =~= cs);
    while k < t.nodes[i].children.len()
        invariant
            t.wf(),
            i < t.nodes@.len(),
            cs == t.nodes@[i as int].children@,
            k <= cs.len(),
            first_child_of_kind(*t, cs, kind@) == first_child_of_kind(*t, cs.skip(k as int), kind@),
        decreases cs.len() - k,
    {
        let c = t.nodes[i].children[k];
        assert(cs.skip(k as int)[0] == c);
        assert(cs.skip(k as int).drop_first() =~= cs.skip(k + 1));
        assert(i < c < t.nodes@.len()) by {
            assert(cs[k as int] == c);
        }
        if kind_is(&t.nodes[c], kind) {
            return Some(c);
        }
        k = k + 1;
    }
    None
}

fn c_name_node_exec(t: &SyntaxTree, i: usize) -> (r: Option<usize>)
    requires
        t.wf(),
        i < t.nodes@.len(),
    ensures
        r == c_name_node(*t, t.nodes@[i as int].children@),
        r matches Some(c) ==> c < t.nodes@.len(),
{
    let ghost cs = t.nodes@[i as int].children@;
    let mut k: usize = 0;
    assert(cs.skip(0) =~= cs);
    while k < t.nodes[i].children.len()
        invariant
            t.wf(),
            i < t.nodes@.len(),
            cs == t.nodes@[i as int].children@,
            k <= cs.len(),
            c_name_node(*t, cs) == c_name_node(*t, cs.skip(k as int)),
        decreases cs.len() - k,
    {
        let c = t.nodes[i].children[k];
        assert(cs.skip(k as int)[0] == c);
        assert(cs.skip(k as int).drop_first() =~= cs.skip(k + 1));
        assert(i < c < t.nodes@.len()) by {
            assert(cs[k as int] == c);
        }
        if kind_is(&t.nodes[c], "function_declarator") {
            let g = first_child_of_kind_exec(t, c, "identifier");
            if g.is_some() {
                return g;
            }
        }
        k = k + 1;
    }
    None
}

fn extract_function_signature(text: &str) -> (r: String)
    ensures
        r@ == signature_of(text@),
{
    let c = chars_of(text);
    let ls = lines_of(c.as_slice());
    if ls.len() > 0 {
        assert(views(ls@)[0] == ls@[0]@);
        let t = trim_chars(ls[0].as_slice());
        crate::text::string_of(t.as_slice())
    } else {
        let t = trim_chars(c.as_slice());
        crate::text::string_of(t.as_slice())
    }
}


// ------------------------------------------------------------ the analyzer

/// Turns source code into a structured diagnosis of an error location.
pub struct ASTAnalyzer {
    parser: LangParser,
}

impl ASTAnalyzer {
    /// The language analysed.
    pub closed spec fn lang(&self) -> LanguageKind {
        self.parser.kind()
    }

    /// An analyzer for a language. tree-sitter takes both bundled grammars,
    /// so the analyzer is always made; the error of a refused grammar is
    /// kept for its message.
    pub fn new(language: LanguageKind) -> (r: Result<Self, HephaestusError>)
        ensures
            r is Ok,
            r matches Ok(a) ==> a.lang() == language,
    {
        match new_lang_parser(language) {
            Ok(parser) => Ok(ASTAnalyzer { parser }),
            Err(e) => {
                let mut m: Vec<char> = Vec::new();
                extend_str(&mut m, "Failed to set language: ");
                extend_str(&mut m, e.as_str());
                Err(HephaestusError::InvalidInput(string_of(m.as_slice())))
            },
        }
    }

    /// The language analysed.
    pub fn language(&self) -> (l: LanguageKind)
        ensures
            l == self.lang(),
    {
        self.parser.language()
    }

    fn is_function_definition(&self, n: &SyntaxNode) -> (b: bool)
        ensures
            b == is_function_kind(self.lang(), n.kind@),
    {
        match self.language() {
            LanguageKind::Rust => kind_is(n, "function_item"),
            LanguageKind::C => kind_is(n, "function_definition"),
        }
    }

    fn is_call_expression(&self, n: &SyntaxNode) -> (b: bool)
        ensures
            b == is_call_kind(self.lang(), n.kind@),
    {
        match self.language() {
            LanguageKind::Rust => kind_is(n, "method_call") || kind_is(n, "call_expression"),
            LanguageKind::C => kind_is(n, "call_expression"),
        }
    }

    fn extract_function_name(&self, t: &SyntaxTree, src: &[u8], i: usize) -> (r: Option<String>)
        requires
            t.wf(),
            t.fits(src@.len()),
            i < t.nodes@.len(),
        ensures
            opt_view(r) == text_of_node(*t, src@, name_node(*t, self.lang(), i as int)),
    {
        let k = match self.language() {
            LanguageKind::Rust => first_child_of_kind_exec(t, i, "identifier"),
            LanguageKind::C => c_name_node_exec(t, i),
        };
        match k {
            Some(c) => node_text_exec(src, &t.nodes[c]),
            None => None,
        }
    }

    fn node_to_structure(&self, t: &SyntaxTree, src: &[u8], i: usize) -> (r: Option<StructureNode>)
        requires
            t.wf(),
            t.fits(src@.len()),
            i < t.nodes@.len(),
        ensures
            match r {
                Some(sn) => structure_at(*t, src@, self.lang(), i as int) == Some(structure_view(sn)),
                None => structure_at(*t, src@, self.lang(), i as int) is None,
            },
    {
        if !self.is_function_definition(&t.nodes[i]) {
            return None;
        }
        let text = match node_text_exec(src, &t.nodes[i]) {
            Some(x) => x,
            None => {
                return None;
            },
        };
        let name = match self.extract_function_name(t, src, i) {
            Some(x) => x,
            None => {
                return None;
            },
        };
        let sn = StructureNode {
            node_type: owned("function"),
            name,
            file_path: owned("unknown"),
            line_number: line_of_exec(t.nodes[i].start_row),
            signature: extract_function_signature(text.as_str()),
            children: Vec::new(),
        };
        assert(strs(sn.children@) =~= seq![]);
        Some(sn)
    }

    /// The structure nodes of the functions of a tree, in walk order.
    pub fn extract_structure(&self, t: &SyntaxTree, source: &str) -> (r: Result<Vec<StructureNode>, HephaestusError>)
        requires
            t.wf(),
            t.fits(vstd::utf8::encode_utf8(source@).len()),
        ensures
            r matches Ok(v) && v@.map_values(|s: StructureNode| structure_view(s)) == structures(
                *t,
                vstd::utf8::encode_utf8(source@),
                self.lang(),
                t.nodes@.len() as int,
            ),
    {
        let src = source.as_bytes();
        let mut out: Vec<StructureNode> = Vec::new();
        let mut i: usize = 0;
        while i < t.nodes.len()
            invariant
                t.wf(),
                t.fits(src@.len()),
                src@ == vstd::utf8::encode_utf8(source@),
                i <= t.nodes@.len(),
                out@.map_values(|s: StructureNode| structure_view(s)) == structures(
                    *t,
                    src@,
                    self.lang(),
                    i as int,
                ),
            decreases t.nodes.len() - i,
        {
            let ghost before = out@;
            match self.node_to_structure(t, src, i) {
                Some(sn) => {
                    out.push(sn);
                    assert(out@.map_values(|s: StructureNode| structure_view(s)) =~= before.map_values(
                        |s: StructureNode| structure_view(s),
                    ).push(structure_view(sn)));
                },
                None => {},
            }
            i = i + 1;
        }
        Ok(out)
    }

    /// The name a call calls: the text of its first identifier child, for a
    /// node that is a call in the language.
    fn extract_callee_name(&self, t: &SyntaxTree, src: &[u8], i: usize) -> (r: Option<String>)
        requires
            t.wf(),
            t.fits(src@.len()),
            i < t.nodes@.len(),
        ensures
            opt_view(r) == (if is_call_kind(self.lang(), t.nodes@[i as int].kind@) {
                text_of_node(*t, src@, first_child_of_kind(*t, t.nodes@[i as int].children@, "identifier"@))
            } else {
                None
            }),
    {
        if !self.is_call_expression(&t.nodes[i]) {
            return None;
        }
        match first_child_of_kind_exec(t, i, "identifier") {
            Some(c) => node_text_exec(src, &t.nodes[c]),
            None => None,
        }
    }

    fn node_to_call_edge(&self, t: &SyntaxTree, src: &[u8], i: usize) -> (r: Option<CallEdge>)
        requires
            t.wf(),
            t.fits(src@.len()),
            i < t.nodes@.len(),
        ensures
            match r {
                Some(e) => edge_at(*t, src@, self.lang(), i as int) == Some(edge_view(e)),
                None => edge_at(*t, src@, self.lang(), i as int) is None,
            },
    {
        let callee = match self.extract_callee_name(t, src, i) {
            Some(x) => x,
            None => {
                return None;
            },
        };
        Some(
            CallEdge {
                caller: owned("unknown_function"),
                callee,
                line_number: line_of_exec(t.nodes[i].start_row),
            },
        )
    }

    /// The call graph of a tree: one edge per call whose callee can be
    /// read, in walk order, and no nodes.
    pub fn extract_call_graph(&self, t: &SyntaxTree, source: &str) -> (r: Result<CallGraph, HephaestusError>)
        requires
            t.wf(),
            t.fits(vstd::utf8::encode_utf8(source@).len()),
        ensures
            r matches Ok(g) && g.wf() && g.nodes@.len() == 0 && g.edges@.map_values(
                |e: CallEdge| edge_view(e),
            ) == call_edges(
                *t,
                vstd::utf8::encode_utf8(source@),
                self.lang(),
                t.nodes@.len() as int,
            ),
    {
        let src = source.as_bytes();
        let mut g = CallGraph::new();
        let mut i: usize = 0;
        while i < t.nodes.len()
            invariant
                t.wf(),
                t.fits(src@.len()),
                src@ == vstd::utf8::encode_utf8(source@),
                i <= t.nodes@.len(),
                g.wf(),
                g.nodes@.len() == 0,
                g.edges@.map_values(|e: CallEdge| edge_view(e)) == call_edges(
                    *t,
                    src@,
                    self.lang(),
                    i as int,
                ),
            decreases t.nodes.len() - i,
        {
            let ghost before = g.edges@;
            match self.node_to_call_edge(t, src, i) {
                Some(e) => {
                    g.add_edge(e);
                    assert(g.edges@.map_values(|e: CallEdge| edge_view(e)) =~= before.map_values(
                        |e: CallEdge| edge_view(e),
                    ).push(edge_view(e)));
                },
                None => {},
            }
            i = i + 1;
        }
        Ok(g)
    }
}

// ------------------------------------------------------------ error position

/// Whether a node covers a zero-based line and, when given, column: the
/// line lies within its rows, and on its first (last) row the column is not
/// before its start (after its end).
pub open spec fn covers(n: SyntaxNode, line: usize, col: Option<usize>) -> bool {
    if line > n.end_row || line < n.start_row {
        false
    } else if line == n.start_row && line == n.end_row {
        match col {
            Some(c) => n.start_column <= c && c <= n.end_column,
            None => true,
        }
    } else if line == n.start_row {
        match col {
            Some(c) => c >= n.start_column,
            None => true,
        }
    } else if line == n.end_row {
        match col {
            Some(c) => c <= n.end_column,
            None => true,
        }
    } else {
        true
    }
}

/// `k` is the deepest node covering the position, the first in walk order
/// among the deepest.
pub open spec fn is_error_node(t: SyntaxTree, line: usize, col: Option<usize>, k: int) -> bool {
    &&& 0 <= k < t.nodes@.len()
    &&& covers(t.nodes@[k], line, col)
    &&& forall|j: int|
        0 <= j < t.nodes@.len() && covers(#[trigger] t.nodes@[j], line, col) ==> t.nodes@[j].depth
            <= t.nodes@[k].depth && (t.nodes@[j].depth == t.nodes@[k].depth ==> k <= j)
}

/// The zero-based line of a one-based one (line 0 counts as line 1).
pub open spec fn zero_based(n: u32) -> usize {
    if n == 0 {
        0
    } else {
        (n - 1) as usize
    }
}

/// The message when no node covers the position; the column is shown as
/// `Some(c)` or `None`.
pub open spec fn no_node_message(line: u32, col: Option<u32>) -> Seq<char> {
    "No AST node found at line "@ + crate::text::decimal(line as nat) + ", column "@ + match col {
        Some(c) => "Some("@ + crate::text::decimal(c as nat) + ")"@,
        None => "None"@,
    }
}

fn covers_exec(n: &SyntaxNode, line: usize, col: Option<usize>) -> (b: bool)
    ensures
        b == covers(*n, line, col),
{
    if line > n.end_row || line < n.start_row {
        false
    } else if line == n.start_row && line == n.end_row {
        match col {
            Some(c) => n.start_column <= c && c <= n.end_column,
            None => true,
        }
    } else if line == n.start_row {
        match col {
            Some(c) => c >= n.start_column,
            None => true,
        }
    } else if line == n.end_row {
        match col {
            Some(c) => c <= n.end_column,
            None => true,
        }
    } else {
        true
    }
}

impl ASTAnalyzer {
    /// The node at an error position (one-based line, optional one-based
    /// column): the deepest node that covers it, the first in walk order
    /// among the deepest; an error when no node covers it.
    pub fn find_error_node(&self, t: &SyntaxTree, source: &str, error_line: u32, error_column: Option<u32>) -> (r: Result<usize, HephaestusError>)
        ensures
            ({
                let line = zero_based(error_line);
                let col = match error_column {
                    Some(c) => Some(zero_based(c)),
                    None => None,
                };
                &&& (r matches Ok(k) ==> is_error_node(*t, line, col, k as int))
                &&& (r is Err <==> forall|j: int| 0 <= j < t.nodes@.len() ==> !covers(#[trigger] t.nodes@[j], line, col))
                &&& (r matches Err(e) ==> (e matches HephaestusError::InvalidInput(m) && m@ == no_node_message(error_line, error_column)))
            }),
    {
        let line: usize = if error_line == 0 {
            0
        } else {
            (error_line - 1) as usize
        };
        let col: Option<usize> = match error_column {
            Some(c) => Some(
                if c == 0 {
                    0
                } else {
                    (c - 1) as usize
                },
            ),
            None => None,
        };
        let mut best: Option<usize> = None;
        let mut i: usize = 0;
        while i < t.nodes.len()
            invariant
                line == zero_based(error_line),
                col == (match error_column {
                    Some(c) => Some(zero_based(c)),
                    None => None::<usize>,
                }),
                i <= t.nodes@.len(),
                match best {
                    Some(k) => k < i && covers(t.nodes@[k as int], line, col) && forall|j: int|
                        0 <= j < i && covers(#[trigger] t.nodes@[j], line, col) ==> t.nodes@[j].depth
                            <= t.nodes@[k as int].depth && (t.nodes@[j].depth
                            == t.nodes@[k as int].depth ==> k <= j),
                    None => forall|j: int| 0 <= j < i ==> !covers(#[trigger] t.nodes@[j], line, col),
                },
            decreases t.nodes.len() - i,
        {
            if covers_exec(&t.nodes[i], line, col) {
                match best {
                    Some(k) => {
                        if t.nodes[i].depth > t.nodes[k].depth {
                            best = Some(i);
                        }
                    },
                    None => {
                        best = Some(i);
                    },
                }
            }
            i = i + 1;
        }
        match best {
            Some(k) => Ok(k),
            None => {
                let mut m: Vec<char> = Vec::new();
                extend_str(&mut m, "No AST node found at line ");
                crate::text::push_decimal(&mut m, error_line as u64);
                extend_str(&mut m, ", column ");
                match error_column {
                    Some(c) => {
                        extend_str(&mut m, "Some(");
                        crate::text::push_decimal(&mut m, c as u64);
                        extend_str(&mut m, ")");
                    },
                    None => {
                        extend_str(&mut m, "None");
                    },
                }
                Err(HephaestusError::InvalidInput(string_of(m.as_slice())))
            },
        }
    }
}

// ------------------------------------------------------------ repair context

/// `a + b`, or `usize::MAX` when that overflows.
pub open spec fn sat_add(a: nat, b: nat) -> nat {
    if a + b > usize::MAX {
        usize::MAX as nat
    } else {
        a + b
    }
}

/// Where line `k` starts, in bytes, counting one byte for each line ending
/// (saturating at `usize::MAX`).
pub open spec fn line_start(ls: Seq<Seq<char>>, k: int) -> nat
    decreases k,
{
    if k <= 0 {
        0
    } else {
        sat_add(line_start(ls, k - 1), crate::text::byte_len(ls[k - 1]) + 1)
    }
}

/// The first line from `k` on that starts after byte `b`.
pub open spec fn first_start_after(ls: Seq<Seq<char>>, b: nat, k: int) -> Option<int>
    decreases ls.len() - k,
{
    if k < 0 || k >= ls.len() {
        None
    } else if line_start(ls, k) > b {
        Some(k)
    } else {
        first_start_after(ls, b, k + 1)
    }
}

/// The first line from `k` on that starts at or after byte `b`.
pub open spec fn first_start_from(ls: Seq<Seq<char>>, b: nat, k: int) -> Option<int>
    decreases ls.len() - k,
{
    if k < 0 || k >= ls.len() {
        None
    } else if line_start(ls, k) >= b {
        Some(k)
    } else {
        first_start_from(ls, b, k + 1)
    }
}

/// The lines around a node: from `context` lines before the line holding
/// its first byte to `context` lines after the line holding its last,
/// within the source, joined by newlines.
pub open spec fn repair_context_lines(ls: Seq<Seq<char>>, start_byte: nat, end_byte: nat, context: nat) -> (int, int) {
    let start_line: int = match first_start_after(ls, start_byte, 0) {
        Some(p) => if p > 0 {
            p - 1
        } else {
            0
        },
        None => 0,
    };
    let end_line: int = match first_start_from(ls, end_byte, 0) {
        Some(p) => if p > 0 {
            p - 1
        } else {
            0
        },
        None => ls.len() - 1,
    };
    let from = if start_line > context {
        start_line - context
    } else {
        0
    };
    let to = if sat_add(end_line as nat, context) < ls.len() - 1 {
        sat_add(end_line as nat, context) as int
    } else {
        ls.len() - 1
    };
    (from, to)
}

/// The repair context of a node in a source with lines `ls`.
pub open spec fn repair_context(ls: Seq<Seq<char>>, n: SyntaxNode, context: nat) -> Seq<char> {
    let (from, to) = repair_context_lines(ls, n.start_byte as nat, n.end_byte as nat, context);
    crate::text::join(ls.subrange(from, to + 1), "\n"@)
}

proof fn lemma_line_start_grows(ls: Seq<Seq<char>>, a: int, b: int)
    requires
        0 <= a <= b,
    ensures
        line_start(ls, a) <= line_start(ls, b),
        a < b && line_start(ls, a) < usize::MAX ==> line_start(ls, a) < line_start(ls, b),
        line_start(ls, b) <= usize::MAX,
    decreases b - a,
{
    if a < b {
        lemma_line_start_grows(ls, a, b - 1);
    }
}

proof fn lemma_first_after(ls: Seq<Seq<char>>, b: nat, k: int)
    requires
        0 <= k <= ls.len(),
    ensures
        first_start_after(ls, b, k) matches Some(p) ==> k <= p < ls.len() && line_start(ls, p) > b
            && forall|j: int| k <= j < p ==> line_start(ls, j) <= b,
        first_start_after(ls, b, k) is None ==> forall|j: int| k <= j < ls.len() ==> line_start(ls, j) <= b,
    decreases ls.len() - k,
{
    if k < ls.len() && line_start(ls, k) <= b {
        lemma_first_after(ls, b, k + 1);
    }
}

proof fn lemma_first_from(ls: Seq<Seq<char>>, b: nat, k: int)
    requires
        0 <= k <= ls.len(),
    ensures
        first_start_from(ls, b, k) matches Some(p) ==> k <= p < ls.len() && line_start(ls, p) >= b
            && forall|j: int| k <= j < p ==> line_start(ls, j) < b,
        first_start_from(ls, b, k) is None ==> forall|j: int| k <= j < ls.len() ==> line_start(ls, j) < b,
    decreases ls.len() - k,
{
    if k < ls.len() && line_start(ls, k) < b {
        lemma_first_from(ls, b, k + 1);
    }
}

/// The context lines always form a range within the source.
proof fn lemma_context_range(ls: Seq<Seq<char>>, sb: nat, eb: nat, context: nat)
    requires
        0 < ls.len() <= usize::MAX,
        sb <= eb <= usize::MAX,
    ensures
        ({
            let (from, to) = repair_context_lines(ls, sb, eb, context);
            0 <= from <= to + 1 && to < ls.len()
        }),
{
    lemma_first_after(ls, sb, 0);
    lemma_first_from(ls, eb, 0);
    let (from, to) = repair_context_lines(ls, sb, eb, context);
    match (first_start_after(ls, sb, 0), first_start_from(ls, eb, 0)) {
        (Some(p), Some(q)) => {
            if q + 1 < p {
                lemma_line_start_grows(ls, q, q + 1);
                lemma_line_start_grows(ls, q + 1, p);
                assert(line_start(ls, q) <= sb);
                assert(line_start(ls, q + 1) <= sb);
                assert(false);
            }
            assert(p <= q + 1);
        },
        (Some(p), None) => {
            assert(p < ls.len());
        },
        _ => {},
    }
    let start_line: int = match first_start_after(ls, sb, 0) {
        Some(p) => if p > 0 {
            p - 1
        } else {
            0
        },
        None => 0,
    };
    let end_line: int = match first_start_from(ls, eb, 0) {
        Some(p) => if p > 0 {
            p - 1
        } else {
            0
        },
        None => ls.len() - 1,
    };
    assert(start_line <= end_line + 1);
    assert(start_line < ls.len());
    assert(0 <= from);
    assert(to < ls.len());
    assert(from <= to + 1);
}

fn sat_add_exec(a: usize, b: usize) -> (r: usize)
    ensures
        r == sat_add(a as nat, b as nat),
{
    if a > usize::MAX - b {
        usize::MAX
    } else {
        a + b
    }
}

impl ASTAnalyzer {
    /// The source lines around a node, for a repair: `context_lines` lines
    /// on each side of the lines it spans, clipped to the source.
    pub fn extract_repair_context(&self, node: &SyntaxNode, source: &str, context_lines: usize) -> (r: Result<String, HephaestusError>)
        requires
            source@.len() > 0,
            node.start_byte <= node.end_byte,
        ensures
            r matches Ok(s) && s@ == repair_context(lines(source@), *node, context_lines as nat),
    {
        let c = chars_of(source);
        let ls = lines_of(c.as_slice());
        let ghost lv = views(ls@);
        assert(lv == lines(source@));
        assert(lv.len() > 0);
        let mut starts: Vec<usize> = Vec::new();
        let mut offset: usize = 0;
        let mut k: usize = 0;
        while k < ls.len()
            invariant
                lv == views(ls@),
                k <= ls@.len(),
                starts@.len() == k,
                offset == line_start(lv, k as int),
                forall|j: int| 0 <= j < k ==> #[trigger] starts@[j] == line_start(lv, j),
            decreases ls.len() - k,
        {
            starts.push(offset);
            let text = string_of(ls[k].as_slice());
            let len = text.as_str().len();
            assert(len == crate::text::byte_len(lv[k as int]));
            let step = sat_add_exec(len, 1);
            offset = sat_add_exec(offset, step);
            proof {
                lemma_line_start_grows(lv, 0, k as int);
            }
            k = k + 1;
        }
        let sb = node.start_byte;
        let eb = node.end_byte;
        let mut p: usize = 0;
        while p < starts.len() && starts[p] <= sb
            invariant
                lv == views(ls@),
                starts@.len() == lv.len(),
                forall|j: int| 0 <= j < lv.len() ==> #[trigger] starts@[j] == line_start(lv, j),
                p <= starts@.len(),
                first_start_after(lv, sb as nat, 0) == first_start_after(lv, sb as nat, p as int),
            decreases starts.len() - p,
        {
            p = p + 1;
        }
        let start_line: usize = if p < starts.len() {
            if p > 0 {
                p - 1
            } else {
                0
            }
        } else {
            0
        };
        let mut q: usize = 0;
        while q < starts.len() && starts[q] < eb
            invariant
                lv == views(ls@),
                starts@.len() == lv.len(),
                forall|j: int| 0 <= j < lv.len() ==> #[trigger] starts@[j] == line_start(lv, j),
                q <= starts@.len(),
                first_start_from(lv, eb as nat, 0) == first_start_from(lv, eb as nat, q as int),
            decreases starts.len() - q,
        {
            q = q + 1;
        }
        let end_line: usize = if q < starts.len() {
            if q > 0 {
                q - 1
            } else {
                0
            }
        } else {
            ls.len() - 1
        };
        let from: usize = if start_line > context_lines {
            start_line - context_lines
        } else {
            0
        };
        let widened = sat_add_exec(end_line, context_lines);
        let to: usize = if widened < ls.len() - 1 {
            widened
        } else {
            ls.len() - 1
        };
        proof {
            lemma_context_range(lv, sb as nat, eb as nat, context_lines as nat);
            assert((from as int, to as int) == repair_context_lines(
                lv,
                sb as nat,
                eb as nat,
                context_lines as nat,
            ));
        }
        let mut picked: Vec<Vec<char>> = Vec::new();
        let mut i = from;
        while i <= to
            invariant
                lv == views(ls@),
                from <= i <= to + 1,
                to < ls.len(),
                views(picked@) == lv.subrange(from as int, i as int),
            decreases to + 1 - i,
        {
            let ghost before = picked@;
            assert(lv[i as int] == ls@[i as int]@);
            let piece = crate::text::slice_of(ls[i].as_slice(), 0, ls[i].len());
            assert(piece@ =~= lv[i as int]);
            picked.push(piece);
            assert(views(picked@) =~= views(before).push(piece@));
            assert(lv.subrange(from as int, i + 1) =~= lv.subrange(from as int, i as int).push(lv[i as int]));
            assert(views(picked@) =~= lv.subrange(from as int, i + 1));
            i = i + 1;
        }
        let nl = chars_of("\n");
        let joined = crate::text::join_chars(&picked, nl.as_slice());
        Ok(string_of(joined.as_slice()))
    }
}

// ------------------------------------------------------------ summary and ids

/// A comment marker character.
pub open spec fn is_mark(c: char) -> bool {
    c == '/' || c == '*' || c == '!'
}

/// Drops the leading comment markers.
pub open spec fn strip_marks(s: Seq<char>) -> Seq<char>
    decreases s.len(),
{
    if s.len() > 0 && is_mark(s[0]) {
        strip_marks(s.drop_first())
    } else {
        s
    }
}

/// The summary found scanning the lines upward from line `i`: the first
/// comment with text (markers and spaces removed), or the first non-empty
/// line that does not start a definition; `?` when there is none.
pub open spec fn summary_scan(ls: Seq<Seq<char>>, i: int) -> Seq<char>
    decreases i + 1,
{
    if i < 0 {
        "?"@
    } else if i >= ls.len() {
        summary_scan(ls, i - 1)
    } else {
        let l = trim(ls[i]);
        if crate::text::starts_with(l, "//"@) || crate::text::starts_with(l, "/*"@)
            || crate::text::starts_with(l, "!"@) {
            let c = trim(strip_marks(l));
            if c.len() > 0 {
                c
            } else {
                summary_scan(ls, i - 1)
            }
        } else if l.len() > 0 && !crate::text::starts_with(l, "fn"@) && !crate::text::starts_with(
            l,
            "struct"@,
        ) && !crate::text::starts_with(l, "enum"@) && !crate::text::starts_with(l, "trait"@) {
            l
        } else {
            summary_scan(ls, i - 1)
        }
    }
}

/// The summary of a structure node: the scan starts two lines above its
/// one-based line.
pub open spec fn summary_of(line_number: u32, source: Seq<char>) -> Seq<char> {
    summary_scan(lines(source), line_number - 2)
}

fn strip_marks_exec(s: &[char]) -> (r: Vec<char>)
    ensures
        r@ == strip_marks(s@),
{
    let mut k: usize = 0;
    assert(s@.skip(0) =~= s@);
    while k < s.len() && (s[k] == '/' || s[k] == '*' || s[k] == '!')
        invariant
            k <= s@.len(),
            strip_marks(s@) == strip_marks(s@.skip(k as int)),
        decreases s.len() - k,
    {
        assert(s@.skip(k as int).drop_first() =~= s@.skip(k + 1));
        k = k + 1;
    }
    let r = crate::text::slice_of(s, k, s.len());
    assert(r@ =~= s@.skip(k as int));
    r
}

/// What the id of a node is made from: type, name and line joined by `_`.
pub open spec fn id_source(node_type: Seq<char>, name: Seq<char>, line: u32) -> Seq<char> {
    node_type + "_"@ + name + "_"@ + crate::text::decimal(line as nat)
}

/// The alphanumeric characters and underscores of a text, in order.
pub open spec fn id_chars(s: Seq<char>) -> Seq<char>
    decreases s.len(),
{
    if s.len() == 0 {
        seq![]
    } else if crate::text::alphanumeric(s.last()) || s.last() == '_' {
        id_chars(s.drop_last()).push(s.last())
    } else {
        id_chars(s.drop_last())
    }
}

/// The deterministic id of a node: the first 16 hex digits of the SHA-256
/// of its id characters.
pub open spec fn deterministic_id(node_type: Seq<char>, name: Seq<char>, line: u32) -> Seq<char> {
    crate::text::hex(
        crate::digest::sha256_digest(
            vstd::utf8::encode_utf8(id_chars(id_source(node_type, name, line))),
        ),
    ).take(16)
}

impl ASTAnalyzer {
    /// A summary of a structure node from the comments above it: the
    /// nearest comment line with text, or the nearest other line that does
    /// not start a definition; `?` when there is none.
    pub fn extract_summary(node: &StructureNode, source: &str) -> (r: String)
        ensures
            r@ == summary_of(node.line_number, source@),
    {
        let c = chars_of(source);
        let ls = lines_of(c.as_slice());
        let ghost lv = views(ls@);
        let start = node.line_number as usize;
        let upto: usize = if start >= 1 {
            start - 1
        } else {
            0
        };
        assert(summary_of(node.line_number, source@) == summary_scan(lv, upto - 1));
        let mut i = upto;
        while i > 0
            invariant
                lv == views(ls@),
                i <= upto,
                summary_of(node.line_number, source@) == summary_scan(lv, i - 1),
            decreases i,
        {
            let k = i - 1;
            if k < ls.len() {
                assert(lv[k as int] == ls@[k as int]@);
                let line = trim_chars(ls[k].as_slice());
                let l = line.as_slice();
                if crate::text::starts_with_str(l, "//") || crate::text::starts_with_str(l, "/*")
                    || crate::text::starts_with_str(l, "!") {
                    let stripped = strip_marks_exec(l);
                    let cleaned = trim_chars(stripped.as_slice());
                    if cleaned.len() > 0 {
                        return string_of(cleaned.as_slice());
                    }
                } else if l.len() > 0 && !crate::text::starts_with_str(l, "fn")
                    && !crate::text::starts_with_str(l, "struct") && !crate::text::starts_with_str(
                    l,
                    "enum",
                ) && !crate::text::starts_with_str(l, "trait") {
                    return string_of(l);
                }
            }
            i = k;
        }
        owned("?")
    }

    /// A deterministic id for a node from its type, name and line: the
    /// same inputs give the same id, 16 lowercase hex digits.
    pub fn make_deterministic_id(node_type: &str, name: &str, line: u32) -> (id: String)
        ensures
            id@ == deterministic_id(node_type@, name@, line),
            id@.len() == 16,
    {
        let mut combined: Vec<char> = Vec::new();
        extend_str(&mut combined, node_type);
        extend_str(&mut combined, "_");
        extend_str(&mut combined, name);
        extend_str(&mut combined, "_");
        crate::text::push_decimal(&mut combined, line as u64);
        let ghost src = combined@;
        assert(src =~= id_source(node_type@, name@, line));
        let mut cleaned: Vec<char> = Vec::new();
        let mut i: usize = 0;
        while i < combined.len()
            invariant
                i <= combined@.len(),
                combined@ == src,
                cleaned@ == id_chars(src.take(i as int)),
            decreases combined.len() - i,
        {
            let ch = combined[i];
            assert(src.take(i + 1).drop_last() =~= src.take(i as int));
            assert(src.take(i + 1).last() == ch);
            if crate::text::is_alphanumeric(ch) || ch == '_' {
                cleaned.push(ch);
            }
            i = i + 1;
        }
        assert(src.take(src.len() as int) =~= src);
        let text = string_of(cleaned.as_slice());
        let digest = crate::digest::sha256_hash(text.as_str().as_bytes());
        let hexed = crate::text::hex_string(digest.as_slice());
        proof {
            crate::text::lemma_hex_len(digest@);
        }
        let hc = chars_of(hexed.as_str());
        let first = crate::text::slice_of(hc.as_slice(), 0, 16);
        assert(first@ =~= hexed@.take(16));
        string_of(first.as_slice())
    }
}

// ------------------------------------------------------------ diagnosis

/// Callers of every edge view whose callee is `f`, in order.
pub open spec fn callers_in(es: Seq<(Seq<char>, Seq<char>, u32)>, f: Seq<char>) -> Seq<Seq<char>>
    decreases es.len(),
{
    if es.len() == 0 {
        seq![]
    } else {
        let rest = callers_in(es.drop_last(), f);
        if es.last().1 == f {
            rest.push(es.last().0)
        } else {
            rest
        }
    }
}

/// Callees of every edge view whose caller is `f`, in order.
pub open spec fn callees_in(es: Seq<(Seq<char>, Seq<char>, u32)>, f: Seq<char>) -> Seq<Seq<char>>
    decreases es.len(),
{
    if es.len() == 0 {
        seq![]
    } else {
        let rest = callees_in(es.drop_last(), f);
        if es.last().0 == f {
            rest.push(es.last().1)
        } else {
            rest
        }
    }
}

proof fn lemma_edge_views(edges: Seq<CallEdge>, f: Seq<char>)
    ensures
        callers_of(edges, f) == callers_in(edges.map_values(|e: CallEdge| edge_view(e)), f),
        callees_of(edges, f) == callees_in(edges.map_values(|e: CallEdge| edge_view(e)), f),
    decreases edges.len(),
{
    if edges.len() > 0 {
        lemma_edge_views(edges.drop_last(), f);
        assert(edges.drop_last().map_values(|e: CallEdge| edge_view(e)) =~= edges.map_values(
            |e: CallEdge| edge_view(e),
        ).drop_last());
    }
}

/// The first structure node at a line.
pub open spec fn first_at_line(
    ss: Seq<(Seq<char>, Seq<char>, Seq<char>, u32, Seq<char>, Seq<Seq<char>>)>,
    line: u32,
) -> Option<(Seq<char>, Seq<char>, Seq<char>, u32, Seq<char>, Seq<Seq<char>>)>
    decreases ss.len(),
{
    if ss.len() == 0 {
        None
    } else if ss[0].3 == line {
        Some(ss[0])
    } else {
        first_at_line(ss.drop_first(), line)
    }
}

/// The structure node of the error: the first function at the error node's
/// line, or an unknown node at that line.
pub open spec fn error_structure(
    ss: Seq<(Seq<char>, Seq<char>, Seq<char>, u32, Seq<char>, Seq<Seq<char>>)>,
    row: usize,
) -> (Seq<char>, Seq<char>, Seq<char>, u32, Seq<char>, Seq<Seq<char>>) {
    match first_at_line(ss, line_of(row)) {
        Some(s) => s,
        None => ("unknown"@, "unknown"@, "unknown"@, line_of(row), seq![], seq![]),
    }
}

/// `d` is the diagnosis of a source whose tree is `t`, with error node `k`.
pub open spec fn diagnosis_of(
    t: SyntaxTree,
    source: Seq<char>,
    lang: LanguageKind,
    k: int,
    d: ASTDiagnosis,
) -> bool {
    let src = vstd::utf8::encode_utf8(source);
    let n = t.nodes@.len() as int;
    let sv = error_structure(structures(t, src, lang, n), t.nodes@[k].start_row);
    let es = call_edges(t, src, lang, n);
    &&& d.error_function@ == sv.1
    &&& d.error_file@ == sv.2
    &&& d.error_line == sv.3
    &&& d.function_signature@ == sv.4
    &&& strs(d.callers@) == callers_in(es, sv.1)
    &&& strs(d.dependencies@) == callees_in(es, sv.1)
    &&& d.slim_nodes@.len() == 1
    &&& d.slim_nodes@[0].id@ == deterministic_id(sv.0, sv.1, sv.3)
    &&& d.slim_nodes@[0].node_type@ == sv.0
    &&& d.slim_nodes@[0].name@ == sv.1
    &&& d.slim_nodes@[0].file_path@ == sv.2
    &&& d.slim_nodes@[0].summary@ == summary_of(sv.3, source)
    &&& d.repair_context@ == repair_context(lines(source), t.nodes@[k], 4)
}

/// `d` diagnoses the source whose tree is `t` at the zero-based position:
/// it is the diagnosis with the node that the position selects.
pub open spec fn diagnosed(
    t: SyntaxTree,
    source: Seq<char>,
    lang: LanguageKind,
    line: usize,
    col: Option<usize>,
    d: ASTDiagnosis,
) -> bool {
    exists|k: int| is_error_node(t, line, col, k) && #[trigger] diagnosis_of(t, source, lang, k, d)
}

/// The zero-based position of a one-based line and optional column.
pub open spec fn zero_position(line: u32, col: Option<u32>) -> (usize, Option<usize>) {
    (
        zero_based(line),
        match col {
            Some(c) => Some(zero_based(c)),
            None => None,
        },
    )
}

fn first_at_line_exec(ss: &Vec<StructureNode>, line: u32) -> (r: Option<usize>)
    ensures
        match r {
            Some(i) => i < ss@.len() && first_at_line(
                ss@.map_values(|s: StructureNode| structure_view(s)),
                line,
            ) == Some(structure_view(ss@[i as int])),
            None => first_at_line(ss@.map_values(|s: StructureNode| structure_view(s)), line) is None,
        },
{
    let ghost sv = ss@.map_values(|s: StructureNode| structure_view(s));
    let mut i: usize = 0;
    assert(sv.skip(0) =~= sv);
    while i < ss.len()
        invariant
            sv == ss@.map_values(|s: StructureNode| structure_view(s)),
            i <= ss@.len(),
            first_at_line(sv, line) == first_at_line(sv.skip(i as int), line),
        decreases ss.len() - i,
    {
        assert(sv.skip(i as int)[0] == structure_view(ss@[i as int]));
        assert(sv.skip(i as int).drop_first() =~= sv.skip(i + 1));
        if ss[i].line_number == line {
            return Some(i);
        }
        i = i + 1;
    }
    None
}

impl ASTAnalyzer {
    /// The two passes over a tree: its structure, then its calls.
    fn extract_two_pass(&self, t: &SyntaxTree, source: &str) -> (r: Result<(Vec<StructureNode>, CallGraph), HephaestusError>)
        requires
            t.wf(),
            t.fits(vstd::utf8::encode_utf8(source@).len()),
        ensures
            r matches Ok((v, g)) && v@.map_values(|s: StructureNode| structure_view(s)) == structures(
                *t,
                vstd::utf8::encode_utf8(source@),
                self.lang(),
                t.nodes@.len() as int,
            ) && g.wf() && g.nodes@.len() == 0 && g.edges@.map_values(|e: CallEdge| edge_view(e))
                == call_edges(*t, vstd::utf8::encode_utf8(source@), self.lang(), t.nodes@.len() as int),
    {
        let structure_nodes = match self.extract_structure(t, source) {
            Ok(v) => v,
            Err(e) => {
                return Err(e);
            },
        };
        let call_graph = match self.extract_call_graph(t, source) {
            Ok(g) => g,
            Err(e) => {
                return Err(e);
            },
        };
        Ok((structure_nodes, call_graph))
    }

    /// Diagnoses an error position in a source whose tree is `t`: the
    /// error node is found (an error when no node covers the position), and
    /// the diagnosis names the function at its line, with that function's
    /// callers and callees, a slim node and the repair context.
    pub fn diagnose_tree(&self, t: &SyntaxTree, source: &str, error_line: u32, error_column: Option<u32>) -> (r: Result<ASTDiagnosis, HephaestusError>)
        requires
            t.wf(),
            t.fits(vstd::utf8::encode_utf8(source@).len()),
        ensures
            diagnosis_outcome(*t, source@, self.lang(), error_line, error_column, r),
    {
        let (structure_nodes, call_graph) = match self.extract_two_pass(t, source) {
            Ok(p) => p,
            Err(e) => {
                return Err(e);
            },
        };
        let k = match self.find_error_node(t, source, error_line, error_column) {
            Ok(k) => k,
            Err(e) => {
                let ghost (zl, zc) = zero_position(error_line, error_column);
                assert(forall|j: int| 0 <= j < t.nodes@.len() ==> !covers(#[trigger] t.nodes@[j], zl, zc));
                return Err(e);
            },
        };
        let node = &t.nodes[k];
        if source.unicode_len() == 0 {
            return Err(HephaestusError::InvalidInput(owned("Source code is empty")));
        }
        let repair_context = match self.extract_repair_context(node, source, 4) {
            Ok(c) => c,
            Err(e) => {
                return Err(e);
            },
        };
        let line = line_of_exec(node.start_row);
        let sn = match first_at_line_exec(&structure_nodes, line) {
            Some(i) => StructureNode {
                node_type: structure_nodes[i].node_type.clone(),
                name: structure_nodes[i].name.clone(),
                file_path: structure_nodes[i].file_path.clone(),
                line_number: structure_nodes[i].line_number,
                signature: structure_nodes[i].signature.clone(),
                children: crate::text::clone_strings(&structure_nodes[i].children),
            },
            None => {
                let u = StructureNode {
                    node_type: owned("unknown"),
                    name: owned("unknown"),
                    file_path: owned("unknown"),
                    line_number: line,
                    signature: String::new(),
                    children: Vec::new(),
                };
                assert(strs(u.children@) =~= seq![]);
                u
            },
        };
        let ghost sv = error_structure(
            structures(
                *t,
                vstd::utf8::encode_utf8(source@),
                self.lang(),
                t.nodes@.len() as int,
            ),
            t.nodes@[k as int].start_row,
        );
        assert(structure_view(sn) == sv);
        let node_id = Self::make_deterministic_id(sn.node_type.as_str(), sn.name.as_str(), sn.line_number);
        let summary = Self::extract_summary(&sn, source);
        let slim = SlimNode {
            id: node_id,
            node_type: sn.node_type.clone(),
            name: sn.name.clone(),
            file_path: sn.file_path.clone(),
            summary,
        };
        let callers = call_graph.find_callers(sn.name.as_str());
        let dependencies = call_graph.find_dependencies(sn.name.as_str());
        proof {
            lemma_edge_views(call_graph.edges@, sn.name@);
        }
        let mut slim_nodes: Vec<SlimNode> = Vec::new();
        slim_nodes.push(slim);
        let d = ASTDiagnosis {
            error_function: sn.name,
            error_file: sn.file_path,
            error_line: sn.line_number,
            function_signature: sn.signature,
            callers,
            dependencies,
            slim_nodes,
            repair_context,
        };
        assert(diagnosis_of(*t, source@, self.lang(), k as int, d));
        let ghost (zl, zc) = zero_position(error_line, error_column);
        assert(is_error_node(*t, zl, zc, k as int));
        assert(covers(t.nodes@[k as int], zl, zc));
        assert(!(forall|j: int| 0 <= j < t.nodes@.len() ==> !covers(#[trigger] t.nodes@[j], zl, zc)));
        assert(exists|k: int| is_error_node(*t, zl, zc, k) && #[trigger] diagnosis_of(*t, source@, self.lang(), k, d));
        assert(diagnosed(*t, source@, self.lang(), zl, zc, d));
        Ok(d)
    }

    /// Parses a source and diagnoses an error position in it (one-based
    /// line, optional one-based column): tree-sitter parses the source, the
    /// tree is read into a syntax tree that mirrors it (an error when it
    /// cannot be read), and the diagnosis is what `diagnose_tree` gives for
    /// that tree.
    pub fn diagnose(
        &mut self,
        source_code: &str,
        error_line: u32,
        error_column: Option<u32>,
        error_keywords: &[String],
    ) -> (r: Result<ASTDiagnosis, HephaestusError>)
        ensures
            final(self).lang() == old(self).lang(),
            readable(parsed_nodes(old(self).lang(), source_code@), vstd::utf8::encode_utf8(source_code@).len())
                ==> diagnosis_of_source(old(self).lang(), source_code@, error_line, error_column, r),
            r matches Ok(d) ==> diagnosis_of_source(old(self).lang(), source_code@, error_line, error_column, r),
            r matches Err(e) ==> e is InvalidInput,
    {
        let tree = match crate::ast::syntax::parse_source(&mut self.parser, source_code) {
            Some(tree) => tree,
            None => {
                return Err(HephaestusError::InvalidInput(owned("Failed to parse source code")));
            },
        };
        let len = source_code.as_bytes().len();
        let t = match crate::ast::syntax::read_tree(&tree, len) {
            Some(t) => t,
            None => {
                return Err(HephaestusError::InvalidInput(owned("Failed to parse source code")));
            },
        };
        let r = self.diagnose_tree(&t, source_code, error_line, error_column);
        proof {
            let ps = choose|ps: Seq<Seq<usize>>| mirrors(t, crate::ast::syntax::tree_nodes(tree), ps);
            assert(mirrors(t, parsed_nodes(old(self).lang(), source_code@), ps) && t.wf() && t.fits(
                vstd::utf8::encode_utf8(source_code@).len(),
            ) && diagnosis_outcome(t, source_code@, old(self).lang(), error_line, error_column, r));
        }
        r
    }
}

/// The message when a position is diagnosed in an empty source.
pub open spec fn empty_source_message() -> Seq<char> {
    "Source code is empty"@
}

/// `r` is what diagnosing the position gives for a source whose tree is
/// `t`: an error when no node covers the position (or the source is empty),
/// otherwise the diagnosis with the node that the position selects.
pub open spec fn diagnosis_outcome(
    t: SyntaxTree,
    source: Seq<char>,
    lang: LanguageKind,
    error_line: u32,
    error_column: Option<u32>,
    r: Result<ASTDiagnosis, HephaestusError>,
) -> bool {
    let (line, col) = zero_position(error_line, error_column);
    let uncovered = forall|j: int| 0 <= j < t.nodes@.len() ==> !covers(#[trigger] t.nodes@[j], line, col);
    &&& (r is Err <==> uncovered || source.len() == 0)
    &&& (r matches Err(e) ==> (e matches HephaestusError::InvalidInput(m) && m@ == if uncovered {
        no_node_message(error_line, error_column)
    } else {
        empty_source_message()
    }))
    &&& (r matches Ok(d) ==> diagnosed(t, source, lang, line, col, d))
}

/// `r` is what diagnosing the position gives for the syntax tree that
/// mirrors the tree tree-sitter makes of `source` in language `lang`.
pub open spec fn diagnosis_of_source(
    lang: LanguageKind,
    source: Seq<char>,
    error_line: u32,
    error_column: Option<u32>,
    r: Result<ASTDiagnosis, HephaestusError>,
) -> bool {
    exists|t: SyntaxTree, ps: Seq<Seq<usize>>|
        #[trigger] mirrors(t, parsed_nodes(lang, source), ps) && t.wf() && t.fits(
            vstd::utf8::encode_utf8(source).len(),
        ) && diagnosis_outcome(t, source, lang, error_line, error_column, r)
}

/// At most one node is the error node of a position.
pub proof fn lemma_error_node_unique(t: SyntaxTree, line: usize, col: Option<usize>, k1: int, k2: int)
    requires
        is_error_node(t, line, col, k1),
        is_error_node(t, line, col, k2),
    ensures
        k1 == k2,
{
    assert(covers(t.nodes@[k2], line, col));
    assert(covers(t.nodes@[k1], line, col));
}

/// Node ids depend only on the letters, digits and underscores of what they
/// are made from: the same inputs give the same id, and so do inputs that
/// differ only in other characters.
pub proof fn lemma_id_depends_on_id_chars(
    type1: Seq<char>,
    name1: Seq<char>,
    line1: u32,
    type2: Seq<char>,
    name2: Seq<char>,
    line2: u32,
)
    requires
        id_chars(id_source(type1, name1, line1)) == id_chars(id_source(type2, name2, line2)),
    ensures
        deterministic_id(type1, name1, line1) == deterministic_id(type2, name2, line2),
{
}

/// Every call edge comes from a call: a node before `n` of kind
/// `call_expression` (in Rust also `method_call`), whose first `identifier`
/// child's text is the callee, the caller being unknown and the line the
/// node's.
pub proof fn lemma_edges_come_from_calls(t: SyntaxTree, src: Seq<u8>, lang: LanguageKind, n: int, e: (
    Seq<char>,
    Seq<char>,
    u32,
))
    requires
        call_edges(t, src, lang, n).contains(e),
    ensures
        exists|i: int|
            0 <= i < n && ((#[trigger] t.nodes@[i]).kind@ == "call_expression"@ || (lang
                == LanguageKind::Rust && t.nodes@[i].kind@ == "method_call"@)) && e == (
                "unknown_function"@,
                e.1,
                line_of(t.nodes@[i].start_row),
            ) && text_of_node(t, src, first_child_of_kind(t, t.nodes@[i].children@, "identifier"@))
                == Some(e.1),
    decreases n,
{
    let prev = call_edges(t, src, lang, n - 1);
    let j = choose|j: int| 0 <= j < call_edges(t, src, lang, n).len() && call_edges(t, src, lang, n)[j] == e;
    match edge_at(t, src, lang, n - 1) {
        Some(x) => {
            if j == prev.len() {
                assert(prev.push(x)[j] == x);
                assert(t.nodes@[n - 1].kind@ == t.nodes@[n - 1].kind@);
            } else {
                assert(prev.push(x)[j] == prev[j]);
                lemma_edges_come_from_calls(t, src, lang, n - 1, e);
            }
        },
        None => {
            lemma_edges_come_from_calls(t, src, lang, n - 1, e);
        },
    }
}

/// A call is recognised by its kind: in C every `call_expression` node, in
/// Rust every `call_expression` or `method_call` node, whose first
/// `identifier` child has readable text gives a call edge from an unknown
/// caller to that text, at the node's line.
pub proof fn lemma_calls_give_edges(
    t: SyntaxTree,
    src: Seq<u8>,
    lang: LanguageKind,
    n: int,
    i: int,
    callee: Seq<char>,
)
    requires
        0 <= i < n,
        (lang == LanguageKind::C && t.nodes@[i].kind@ == "call_expression"@) || (lang
            == LanguageKind::Rust && (t.nodes@[i].kind@ == "call_expression"@ || t.nodes@[i].kind@
            == "method_call"@)),
        text_of_node(t, src, first_child_of_kind(t, t.nodes@[i].children@, "identifier"@)) == Some(
            callee,
        ),
    ensures
        call_edges(t, src, lang, n).contains(
            ("unknown_function"@, callee, line_of(t.nodes@[i].start_row)),
        ),
    decreases n,
{
    let e = ("unknown_function"@, callee, line_of(t.nodes@[i].start_row));
    let prev = call_edges(t, src, lang, n - 1);
    if i == n - 1 {
        assert(edge_at(t, src, lang, i) == Some(e));
        assert(call_edges(t, src, lang, n) == prev.push(e));
        assert(prev.push(e)[prev.len() as int] == e);
    } else {
        lemma_calls_give_edges(t, src, lang, n - 1, i, callee);
        let j = choose|j: int| 0 <= j < prev.len() && prev[j] == e;
        match edge_at(t, src, lang, n - 1) {
            Some(x) => {
                assert(prev.push(x)[j] == e);
            },
            None => {},
        }
    }
}

} // verus!
