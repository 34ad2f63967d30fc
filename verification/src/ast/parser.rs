//! AST genomes: a syntax tree serialized without its comments and errors,
//! with the BLAKE3 hash of the serialization as its id.
use vstd::prelude::*;
use crate::ast::syntax::{
    mirrors, new_lang_parser, parse_source, parsed_nodes, read_tree, readable, LangParser,
    LanguageKind, SyntaxTree,
};
use crate::digest::{blake3_digest, blake3_hash};
use crate::error::HephaestusError;
use crate::text::{owned, extend_str, hex, hex_string, lowercase, push_decimal, string_of, to_lowercase};

verus! {

/// A parsed AST genome: the hex BLAKE3 hash of its serialization, and the
/// serialization.
#[derive(Debug, Clone)]
pub struct Genome {
    pub id: String,
    pub content: Vec<u8>,
}

/// Parser of source code into AST genomes, keeping one parser per language.
pub struct AstParser {
    rust: Option<LangParser>,
    c: Option<LangParser>,
}

/// The largest serialization accepted: 45 MiB.
pub const MAX_SERIALIZED_BYTES: u64 = 47185920;

/// The language a name selects, whatever its case.
pub open spec fn language_named(name: Seq<char>) -> Option<LanguageKind> {
    if lowercase(name) == "rust"@ {
        Some(LanguageKind::Rust)
    } else if lowercase(name) == "c"@ {
        Some(LanguageKind::C)
    } else {
        None
    }
}

/// The message for a language name that selects none.
pub open spec fn unsupported_message(name: Seq<char>) -> Seq<char> {
    "Unsupported language: "@ + name + ". Supported languages: rust, c"@
}

/// Kinds whose subtrees the serialization leaves out.
pub open spec fn skipped_kind(k: Seq<char>) -> bool {
    k == "comment"@ || k == "error"@
}

/// Four bytes, little endian.
pub open spec fn le_u32(n: u32) -> Seq<u8> {
    seq![
        (n % 256) as u8,
        ((n / 256) % 256) as u8,
        ((n / 65536) % 256) as u8,
        ((n / 16777216) % 256) as u8,
    ]
}

/// A node's record: the length of its kind's UTF-8 bytes in four bytes,
/// then the bytes.
pub open spec fn kind_record(k: Seq<char>) -> Seq<u8> {
    let b = vstd::utf8::encode_utf8(k);
    le_u32(b.len() as u32) + b
}

/// The serialization of the subtree at node `i`: nothing for a comment or
/// error, otherwise its record and then its children's serializations.
pub open spec fn serialized(t: SyntaxTree, i: int) -> Seq<u8>
    decreases t.nodes@.len() - i, t.nodes@[i].children@.len() + 1,
{
    if i < 0 || i >= t.nodes@.len() {
        seq![]
    } else if skipped_kind(t.nodes@[i].kind@) {
        seq![]
    } else {
        kind_record(t.nodes@[i].kind@) + serialized_children(t, i, t.nodes@[i].children@.len() as int)
    }
}

/// The serializations of the first `k` children of node `i`, one after
/// another.
pub open spec fn serialized_children(t: SyntaxTree, i: int, k: int) -> Seq<u8>
    decreases t.nodes@.len() - i, k,
{
    if i < 0 || i >= t.nodes@.len() || k <= 0 || k > t.nodes@[i].children@.len() {
        seq![]
    } else {
        let c = t.nodes@[i].children@[k - 1] as int;
        if c <= i || c >= t.nodes@.len() {
            seq![]
        } else {
            serialized_children(t, i, k - 1) + serialized(t, c)
        }
    }
}

/// The message for a serialization over the limit.
pub open spec fn too_large_message(n: nat) -> Seq<char> {
    "Serialized AST size ("@ + crate::text::decimal(n) + " bytes) exceeds 45 MiB limit"@
}

fn push_bytes(buffer: &mut Vec<u8>, b: &[u8])
    ensures
        final(buffer)@ == old(buffer)@ + b@,
{
    let mut i: usize = 0;
    while i < b.len()
        invariant
            i <= b@.len(),
            buffer@ == old(buffer)@ + b@.take(i as int),
        decreases b.len() - i,
    {
        buffer.push(b[i]);
        i = i + 1;
        assert(buffer@ =~= old(buffer)@ + b@.take(i as int));
    }
    assert(b@.take(b@.len() as int) =~= b@);
}

fn serialize_node(t: &SyntaxTree, i: usize, buffer: &mut Vec<u8>)
    requires
        t.wf(),
        i < t.nodes@.len(),
    ensures
        final(buffer)@ == old(buffer)@ + serialized(*t, i as int),
    decreases t.nodes@.len() - i,
{
    let kind = t.nodes[i].kind.as_str();
    if crate::text::str_eq(kind, "comment") || crate::text::str_eq(kind, "error") {
        return;
    }
    let bytes = kind.as_bytes();
    let n = bytes.len() as u32;
    let mut head: Vec<u8> = Vec::new();
    head.push((n % 256) as u8);
    head.push(((n / 256) % 256) as u8);
    head.push(((n / 65536) % 256) as u8);
    head.push(((n / 16777216) % 256) as u8);
    assert(head@ =~= le_u32(n));
    push_bytes(buffer, head.as_slice());
    push_bytes(buffer, bytes);
    assert(buffer@ =~= old(buffer)@ + kind_record(t.nodes@[i as int].kind@));
    let ghost base = buffer@;
    let mut k: usize = 0;
    while k < t.nodes[i].children.len()
        invariant
            t.wf(),
            i < t.nodes@.len(),
            k <= t.nodes@[i as int].children@.len(),
            buffer@ == base + serialized_children(*t, i as int, k as int),
        decreases t.nodes@[i as int].children@.len() - k,
    {
        let c = t.nodes[i].children[k];
        assert(i < c < t.nodes@.len()) by {
            assert(t.nodes@[i as int].children@[k as int] == c);
        }
        serialize_node(t, c, buffer);
        k = k + 1;
        assert(buffer@ =~= base + serialized_children(*t, i as int, k as int));
    }
    assert(buffer@ =~= old(buffer)@ + serialized(*t, i as int));
}

/// The genome of a syntax tree: the serialization from the root, refused
/// over 45 MiB, with the hex BLAKE3 hash of it as the id.
pub open spec fn genome_spec(t: SyntaxTree, r: Result<Genome, HephaestusError>) -> bool {
    let bytes = serialized(t, 0);
    if bytes.len() > MAX_SERIALIZED_BYTES {
        r matches Err(HephaestusError::InvalidInput(m)) && m@ == too_large_message(bytes.len())
    } else {
        r matches Ok(g) && g.content@ == bytes && g.id@ == hex(blake3_digest(bytes))
    }
}

/// The genome of a syntax tree.
pub fn genome_of_tree(t: &SyntaxTree) -> (r: Result<Genome, HephaestusError>)
    requires
        t.wf(),
    ensures
        genome_spec(*t, r),
{
    let mut serialized_bytes: Vec<u8> = Vec::new();
    serialize_node(t, 0, &mut serialized_bytes);
    assert(serialized_bytes@ =~= serialized(*t, 0));
    if serialized_bytes.len() as u64 > MAX_SERIALIZED_BYTES {
        let mut m: Vec<char> = Vec::new();
        extend_str(&mut m, "Serialized AST size (");
        push_decimal(&mut m, serialized_bytes.len() as u64);
        extend_str(&mut m, " bytes) exceeds 45 MiB limit");
        return Err(HephaestusError::InvalidInput(string_of(m.as_slice())));
    }
    let digest = blake3_hash(serialized_bytes.as_slice());
    let id = hex_string(digest.as_slice());
    Ok(Genome { id, content: serialized_bytes })
}

impl AstParser {
    /// Each kept parser has the grammar of the language it is kept for.
    #[verifier::type_invariant]
    spec fn kept_by_language(&self) -> bool {
        &&& (self.rust matches Some(p) ==> p.kind() == LanguageKind::Rust)
        &&& (self.c matches Some(p) ==> p.kind() == LanguageKind::C)
    }

    /// Whether a parser for the language is kept.
    pub closed spec fn has_parser(&self, kind: LanguageKind) -> bool {
        match kind {
            LanguageKind::Rust => self.rust is Some,
            LanguageKind::C => self.c is Some,
        }
    }

    /// The parser kept for the language, if any.
    pub closed spec fn cached(&self, kind: LanguageKind) -> Option<LangParser> {
        match kind {
            LanguageKind::Rust => self.rust,
            LanguageKind::C => self.c,
        }
    }

    /// A parser with no language loaded yet.
    pub fn new() -> (p: Self)
        ensures
            !p.has_parser(LanguageKind::Rust),
            !p.has_parser(LanguageKind::C),
    {
        AstParser { rust: None, c: None }
    }

    /// The language a name selects, whatever its case; the error for any
    /// other name.
    pub fn get_language(language_name: &str) -> (r: Result<LanguageKind, HephaestusError>)
        ensures
            match language_named(language_name@) {
                Some(l) => r matches Ok(k) && k == l,
                None => r matches Err(HephaestusError::InvalidInput(m)) && m@ == unsupported_message(
                    language_name@,
                ),
            },
    {
        let lower = to_lowercase(language_name);
        if crate::text::str_eq(lower.as_str(), "rust") {
            Ok(LanguageKind::Rust)
        } else if crate::text::str_eq(lower.as_str(), "c") {
            Ok(LanguageKind::C)
        } else {
            let mut m: Vec<char> = Vec::new();
            extend_str(&mut m, "Unsupported language: ");
            extend_str(&mut m, language_name);
            extend_str(&mut m, ". Supported languages: rust, c");
            Err(HephaestusError::InvalidInput(string_of(m.as_slice())))
        }
    }

    /// The parser of a language, taken out of the cache (to be kept again),
    /// or a new one set to its grammar.
    fn get_parser(&mut self, kind: LanguageKind) -> (r: Result<LangParser, HephaestusError>)
        ensures
            r is Ok,
            r matches Ok(p) ==> p.kind() == kind,
            old(self).cached(kind) matches Some(p) ==> r == Ok::<LangParser, HephaestusError>(p),
            final(self).cached(kind) is None,
            forall|k: LanguageKind| k != kind ==> #[trigger] final(self).cached(k) == old(self).cached(k),
    {
        proof {
            use_type_invariant(&*self);
        }
        let mut cached: Option<LangParser> = None;
        match kind {
            LanguageKind::Rust => std::mem::swap(&mut cached, &mut self.rust),
            LanguageKind::C => std::mem::swap(&mut cached, &mut self.c),
        }
        match cached {
            Some(p) => Ok(p),
            None => {
                match new_lang_parser(kind) {
                    Ok(p) => Ok(p),
                    Err(e) => {
                        let mut m: Vec<char> = Vec::new();
                        extend_str(&mut m, "Failed to set language: ");
                        extend_str(&mut m, e.as_str());
                        Err(HephaestusError::InvalidInput(string_of(m.as_slice())))
                    },
                }
            },
        }
    }

    fn keep_parser(&mut self, kind: LanguageKind, p: LangParser)
        requires
            p.kind() == kind,
        ensures
            final(self).cached(kind) == Some(p),
            forall|k: LanguageKind| k != kind ==> #[trigger] final(self).cached(k) == old(self).cached(k),
    {
        proof {
            use_type_invariant(&*self);
        }
        match kind {
            LanguageKind::Rust => {
                self.rust = Some(p);
            },
            LanguageKind::C => {
                self.c = Some(p);
            },
        }
    }

    /// Parses source code into an AST genome: an unknown language name is
    /// refused as `get_language` says; otherwise tree-sitter parses the
    /// source, the tree is read into a syntax tree that mirrors it (an error
    /// when it cannot be read), and the genome is that tree's.
    pub fn parse_to_genome(&mut self, source: &str, language_name: &str) -> (r: Result<Genome, HephaestusError>)
        ensures
            language_named(language_name@) is None ==> (r matches Err(
                HephaestusError::InvalidInput(m),
            ) && m@ == unsupported_message(language_name@)),
            language_named(language_name@) matches Some(k) ==> (readable(
                parsed_nodes(k, source@),
                vstd::utf8::encode_utf8(source@).len(),
            ) ==> genome_of_source(k, source@, r)),
            r matches Ok(g) ==> (language_named(language_name@) matches Some(k) && genome_of_source(
                k,
                source@,
                r,
            )),
            r matches Err(e) ==> e is InvalidInput,
    {
        let kind = match Self::get_language(language_name) {
            Ok(k) => k,
            Err(e) => {
                return Err(e);
            },
        };
        let mut parser = match self.get_parser(kind) {
            Ok(p) => p,
            Err(e) => {
                return Err(e);
            },
        };
        let tree = parse_source(&mut parser, source);
        self.keep_parser(kind, parser);
        let tree = match tree {
            Some(t) => t,
            None => {
                return Err(HephaestusError::InvalidInput(owned("Failed to parse source code")));
            },
        };
        let t = match read_tree(&tree, source.as_bytes().len()) {
            Some(t) => t,
            None => {
                return Err(HephaestusError::InvalidInput(owned("Failed to parse source code")));
            },
        };
        let r = genome_of_tree(&t);
        proof {
            let ps = choose|ps: Seq<Seq<usize>>| mirrors(t, crate::ast::syntax::tree_nodes(tree), ps);
            assert(mirrors(t, parsed_nodes(kind, source@), ps) && t.wf() && genome_spec(t, r));
        }
        r
    }
}

/// `r` is the genome of the syntax tree that mirrors the tree tree-sitter
/// makes of `source` in language `k`.
pub open spec fn genome_of_source(k: LanguageKind, source: Seq<char>, r: Result<Genome, HephaestusError>) -> bool {
    exists|t: SyntaxTree, ps: Seq<Seq<usize>>|
        #[trigger] mirrors(t, parsed_nodes(k, source), ps) && t.wf() && genome_spec(t, r)
}

/// Two trees of the same size that agree on every node after `i`.
pub open spec fn agree_after(t1: SyntaxTree, t2: SyntaxTree, i: int) -> bool {
    &&& t1.nodes@.len() == t2.nodes@.len()
    &&& forall|j: int| i < j < t1.nodes@.len() ==> #[trigger] t1.nodes@[j] == t2.nodes@[j]
}

proof fn lemma_serialized_after(t1: SyntaxTree, t2: SyntaxTree, i: int, c: int)
    requires
        agree_after(t1, t2, i),
        i < c,
    ensures
        serialized(t1, c) == serialized(t2, c),
    decreases t1.nodes@.len() - c, t1.nodes@[c].children@.len() + 1,
{
    if c < t1.nodes@.len() {
        assert(t1.nodes@[c] == t2.nodes@[c]);
        if !skipped_kind(t1.nodes@[c].kind@) {
            lemma_children_after(t1, t2, i, c, t1.nodes@[c].children@.len() as int);
        }
    }
}

proof fn lemma_children_after(t1: SyntaxTree, t2: SyntaxTree, i: int, c: int, k: int)
    requires
        agree_after(t1, t2, i),
        i < c < t1.nodes@.len(),
    ensures
        serialized_children(t1, c, k) == serialized_children(t2, c, k),
    decreases t1.nodes@.len() - c, k,
{
    assert(t1.nodes@[c] == t2.nodes@[c]);
    if 0 < k <= t1.nodes@[c].children@.len() {
        let d = t1.nodes@[c].children@[k - 1] as int;
        lemma_children_after(t1, t2, i, c, k - 1);
        if c < d < t1.nodes@.len() {
            lemma_serialized_after(t1, t2, i, d);
        }
    }
}

/// Dropping a comment (or error) child from a node leaves the node's
/// serialization unchanged: `t2` is `t1` with the `k`-th child of node `i`
/// removed, that child being a comment or an error.
pub proof fn lemma_comment_child_invisible(t1: SyntaxTree, t2: SyntaxTree, i: int, k: int)
    requires
        t1.wf(),
        0 <= i < t1.nodes@.len(),
        0 <= k < t1.nodes@[i].children@.len(),
        skipped_kind(t1.nodes@[t1.nodes@[i].children@[k] as int].kind@),
        agree_after(t1, t2, i),
        t2.nodes@[i].kind@ == t1.nodes@[i].kind@,
        t2.nodes@[i].children@ == t1.nodes@[i].children@.remove(k),
    ensures
        serialized(t2, i) == serialized(t1, i),
{
    let n = t1.nodes@[i].children@.len() as int;
    lemma_suffix_children(t1, t2, i, k, n);
    assert(t2.nodes@[i].children@.len() == n - 1);
    if !skipped_kind(t1.nodes@[i].kind@) {
        assert(serialized(t1, i) == kind_record(t1.nodes@[i].kind@) + serialized_children(t1, i, n));
        assert(serialized(t2, i) == kind_record(t2.nodes@[i].kind@) + serialized_children(t2, i, n - 1));
    }
}

proof fn lemma_prefix_children(t1: SyntaxTree, t2: SyntaxTree, i: int, k: int, m: int)
    requires
        t1.wf(),
        0 <= i < t1.nodes@.len(),
        0 <= k < t1.nodes@[i].children@.len(),
        agree_after(t1, t2, i),
        t2.nodes@[i].children@ == t1.nodes@[i].children@.remove(k),
        0 <= m <= k,
    ensures
        serialized_children(t2, i, m) == serialized_children(t1, i, m),
    decreases m,
{
    if m > 0 {
        lemma_prefix_children(t1, t2, i, k, m - 1);
        let c = t1.nodes@[i].children@[m - 1] as int;
        assert(t2.nodes@[i].children@[m - 1] == t1.nodes@[i].children@[m - 1]);
        assert(i < c < t1.nodes@.len());
        lemma_serialized_after(t1, t2, i, c);
    }
}

proof fn lemma_suffix_children(t1: SyntaxTree, t2: SyntaxTree, i: int, k: int, m: int)
    requires
        t1.wf(),
        0 <= i < t1.nodes@.len(),
        0 <= k < t1.nodes@[i].children@.len(),
        skipped_kind(t1.nodes@[t1.nodes@[i].children@[k] as int].kind@),
        agree_after(t1, t2, i),
        t2.nodes@[i].children@ == t1.nodes@[i].children@.remove(k),
        k + 1 <= m <= t1.nodes@[i].children@.len(),
    ensures
        serialized_children(t1, i, m) == serialized_children(t2, i, m - 1),
    decreases m,
{
    let c = t1.nodes@[i].children@[m - 1] as int;
    assert(i < c < t1.nodes@.len());
    if m == k + 1 {
        lemma_prefix_children(t1, t2, i, k, k);
        assert(serialized(t1, c) =~= seq![]);
        assert(serialized_children(t1, i, m) =~= serialized_children(t1, i, k));
    } else {
        lemma_suffix_children(t1, t2, i, k, m - 1);
        assert(t2.nodes@[i].children@[m - 2] == t1.nodes@[i].children@[m - 1]);
        lemma_serialized_after(t1, t2, i, c);
    }
}

} // verus!
