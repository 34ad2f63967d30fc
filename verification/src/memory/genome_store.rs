//! The repair genome ledger and the checks and enrichments applied to a
//! genome before it is persisted.
use vstd::prelude::*;
use std::hash::{Hash, Hasher};
use crate::error::HephaestusError;
use crate::memory::evo_genome::aakk_encoder::zlib_compress;
use crate::memory::evo_genome::{AAKEncoder, SemanticClusterer, WingManager};
use crate::memory::evo_genome::wing_manager::wing_of_trigger;
use crate::text::{owned, 
    chars_of, count_matches, count_matches_str, extend_str, lemma_count_matches_bound, lowercase,
    push_decimal, decimal, split_char, split_char_of, string_of, to_lowercase, views,
};

verus! {

/// The four personalities of the Tribunal architecture.
#[derive(Debug, Clone, Copy, PartialEq, Eq, Structural)]
pub enum TribunalActor {
    WildMonkey,
    NeutralJudge,
    AngryMaster,
    NarrativeAgent,
}

/// A record of a rejected patch during the tribunal process.
#[derive(Debug, Clone, PartialEq, Eq, PartialOrd, Ord, Hash)]
pub struct RejectionRecord {
    /// The patch that was rejected.
    pub patch: String,
    /// The reason for rejection.
    pub reason: String,
    /// Timestamp of rejection.
    pub timestamp: u64,
}

/// The complete genome ledger entry of a code repair attempt.
#[derive(Debug, Clone)]
pub struct RepairGenome {
    /// Unique hash of the genome (typically a hash of the original code).
    pub hash: String,
    /// The original code that needs repair.
    pub original_code: String,
    /// Telemetry data that triggered the repair attempt.
    pub telemetry_trigger: Option<String>,
    /// Hypotheses generated by the Wild Monkey actor.
    pub monkey_hypotheses: Vec<String>,
    /// Patches that were rejected during tribunal trials.
    pub rejected_patches: Vec<RejectionRecord>,
    /// The final repaired code, if any.
    pub final_repaired_code: Option<String>,
    /// Narrative summary of the tribunal proceedings.
    pub narrative_summary: Option<String>,
    /// Timestamp when this genome was last updated.
    pub timestamp: u64,
    /// Semantic cluster grouping similar failures.
    pub semantic_cluster: Option<u64>,
    /// Wing assignment in the MemPalace (e.g. "WingOfConcurrency").
    pub wing: Option<String>,
    /// AAAK compressed form of the final repaired code.
    pub aaak_compressed: Option<Vec<u8>>,
    /// Dependency density in tenths (0 to 10, that is 0.0 to 1.0).
    pub dependency_density: Option<u64>,
    /// AST topology hash.
    pub ast_topology_hash: Option<u64>,
}


/// The current time in seconds since the Unix epoch (`SystemTime::now()`
/// measured from `UNIX_EPOCH`, 0 if the clock is before it). Nothing is
/// stated of the value: it is the clock's.
#[verifier::external_body]
pub(crate) fn unix_time_secs() -> (t: u64) {
    std::time::SystemTime::now().duration_since(std::time::UNIX_EPOCH).unwrap_or_default().as_secs()
}

/// What `DefaultHasher::new()` gives for a string hashed into it. Its
/// algorithm is unspecified, but every hasher made by `new` starts from the
/// same keys, so the value depends on the string alone.
pub uninterp spec fn str_default_hash(s: Seq<char>) -> u64;

/// Hashes a string with `std::collections::hash_map::DefaultHasher::new()`
/// (`Hash` for `str`, then `Hasher::finish`): the value is `str_default_hash`
/// of the string.
#[verifier::external_body]
pub(crate) fn default_hash(s: &str) -> (h: u64)
    ensures
        h == str_default_hash(s@),
{
    let mut hasher = std::collections::hash_map::DefaultHasher::new();
    s.hash(&mut hasher);
    hasher.finish()
}


impl RepairGenome {
    /// A genome with the given hash and original code, stamped with the
    /// current time, and nothing else recorded yet.
    pub fn new(hash: String, original_code: String) -> (g: Self)
        ensures
            g.hash == hash,
            g.original_code == original_code,
            g.telemetry_trigger is None,
            g.monkey_hypotheses@.len() == 0,
            g.rejected_patches@.len() == 0,
            g.final_repaired_code is None,
            g.narrative_summary is None,
            g.semantic_cluster is None,
            g.wing is None,
            g.aaak_compressed is None,
            g.dependency_density is None,
            g.ast_topology_hash is None,
    {
        RepairGenome {
            hash,
            original_code,
            telemetry_trigger: None,
            monkey_hypotheses: Vec::new(),
            rejected_patches: Vec::new(),
            final_repaired_code: None,
            narrative_summary: None,
            timestamp: unix_time_secs(),
            semantic_cluster: None,
            wing: None,
            aaak_compressed: None,
            dependency_density: None,
            ast_topology_hash: None,
        }
    }
}

// ------------------------------------------------------------ path checks

/// The file name of a path: its last piece between `/` that is neither
/// empty nor `.` (`Path::file_name`; `None` for `..`).
pub open spec fn file_name_in(pieces: Seq<Seq<char>>) -> Option<Seq<char>>
    decreases pieces.len(),
{
    if pieces.len() == 0 {
        None
    } else if pieces.last().len() == 0 || pieces.last() == "."@ {
        file_name_in(pieces.drop_last())
    } else if pieces.last() == ".."@ {
        None
    } else {
        Some(pieces.last())
    }
}

/// The extension of a file name: what follows its last `.`, if something
/// precedes that `.` (`Path::extension`).
pub open spec fn extension_of(name: Seq<char>) -> Option<Seq<char>> {
    match crate::text::rfind_char(name, '.') {
        Some(i) => if i > 0 {
            Some(name.skip(i + 1))
        } else {
            None
        },
        None => None,
    }
}

/// The extension of a Unix path, or the empty string when it has none.
pub open spec fn path_extension(path: Seq<char>) -> Seq<char> {
    match file_name_in(split_char(path, '/')) {
        Some(name) => match extension_of(name) {
            Some(e) => e,
            None => seq![],
        },
        None => seq![],
    }
}

/// The path has a `..` component.
pub open spec fn has_parent_component(path: Seq<char>) -> bool {
    split_char(path, '/').contains(".."@)
}

/// Why a database path is refused, if it is.
pub open spec fn path_refusal(path: Seq<char>) -> Option<Seq<char>> {
    if path.len() == 0 {
        Some("Database path cannot be empty"@)
    } else if has_parent_component(path) {
        Some("Database path cannot contain directory traversal sequences"@)
    } else if path[0] == '/' {
        Some("Database path must be relative to working directory"@)
    } else if lowercase(path_extension(path)) != "db"@ && lowercase(path_extension(path)) != "sqlite"@ {
        Some("Database path must have .db or .sqlite extension"@)
    } else {
        None
    }
}

fn is_str(v: &[char], s: &str) -> (b: bool)
    ensures
        b == (v@ == s@),
{
    let w = chars_of(s);
    crate::text::chars_eq(v, w.as_slice())
}

/// Validates that a database path is safe to use: not empty, without `..`
/// components, relative, and with a `.db` or `.sqlite` extension (in any
/// case).
pub fn validate_path(path: &str) -> (r: Result<(), HephaestusError>)
    ensures
        r is Ok <==> path_refusal(path@) is None,
        r matches Err(HephaestusError::InvalidInput(m)) ==> path_refusal(path@) == Some(m@),
        r is Err ==> r matches Err(HephaestusError::InvalidInput(_)),
{
    let p = chars_of(path);
    if p.len() == 0 {
        return Err(HephaestusError::InvalidInput(owned("Database path cannot be empty")));
    }
    let pieces = split_char_of(p.as_slice(), '/');
    let ghost pv = views(pieces@);
    let mut i: usize = 0;
    while i < pieces.len()
        invariant
            i <= pieces@.len(),
            pv == views(pieces@),
            pv == split_char(path@, '/'),
            path@.len() > 0,
            forall|j: int| 0 <= j < i ==> pv[j] != ".."@,
        decreases pieces.len() - i,
    {
        if is_str(pieces[i].as_slice(), "..") {
            assert(pv[i as int] == ".."@);
            assert(pv.contains(".."@));
            return Err(
                HephaestusError::InvalidInput(
                    owned("Database path cannot contain directory traversal sequences"),
                ),
            );
        }
        i = i + 1;
    }
    assert(!pv.contains(".."@));
    if p[0] == '/' {
        return Err(
            HephaestusError::InvalidInput(owned("Database path must be relative to working directory")),
        );
    }
    let ext = extension_chars(&pieces);
    let ext_str = string_of(ext.as_slice());
    let lower = to_lowercase(ext_str.as_str());
    let lc = chars_of(lower.as_str());
    if !is_str(lc.as_slice(), "db") && !is_str(lc.as_slice(), "sqlite") {
        return Err(
            HephaestusError::InvalidInput(owned("Database path must have .db or .sqlite extension")),
        );
    }
    Ok(())
}

fn extension_chars(pieces: &Vec<Vec<char>>) -> (e: Vec<char>)
    ensures
        e@ == (match file_name_in(views(pieces@)) {
            Some(name) => match extension_of(name) {
                Some(x) => x,
                None => seq![],
            },
            None => seq![],
        }),
{
    let ghost pv = views(pieces@);
    let mut n = pieces.len();
    assert(pv.take(n as int) =~= pv);
    while n > 0
        invariant
            n <= pieces@.len(),
            pv == views(pieces@),
            file_name_in(pv) == file_name_in(pv.take(n as int)),
        decreases n,
    {
        let piece = pieces[n - 1].as_slice();
        assert(pv.take(n as int).last() == piece@);
        assert(pv.take(n as int).drop_last() =~= pv.take(n - 1));
        if piece.len() == 0 || is_str(piece, ".") {
            n = n - 1;
        } else if is_str(piece, "..") {
            return Vec::new();
        } else {
            match crate::text::rfind_char_exec(piece, '.') {
                Some(i) => {
                    if i > 0 {
                        proof {
                            crate::orchestration::project_repair::lemma_rfind_bounds(piece@, '.', piece@.len() as int);
                        }
                        return crate::text::slice_of(piece, i + 1, piece.len());
                    } else {
                        return Vec::new();
                    }
                },
                None => {
                    return Vec::new();
                },
            }
        }
    }
    Vec::new()
}

// ------------------------------------------------------------ storage checks

/// Largest size, in bytes, the genome database may reach (45 MiB).
pub const MAX_STORE_BYTES: u64 = 47185920;

/// The message of a refused store that would exceed the size limit.
pub open spec fn size_limit_message(current: u64, required: u64) -> Seq<char> {
    "Storing this genome would exceed the 45 MiB memory limit. Current size: "@ + decimal(
        current as nat,
    ) + " bytes, Required: "@ + decimal(required as nat) + " bytes, Limit: "@ + decimal(
        MAX_STORE_BYTES as nat,
    ) + " bytes"@
}

/// Checks that a database of `current_size` bytes can take a serialized
/// genome of `json_size` bytes within the 45 MiB limit, and returns the
/// size it would reach.
pub fn check_size_limit(current_size: u64, json_size: u64) -> (r: Result<u64, HephaestusError>)
    ensures
        current_size + json_size > u64::MAX ==> (r matches Err(HephaestusError::InvalidInput(m))
            && m@ == "Genome size calculation overflow"@),
        current_size + json_size <= u64::MAX && current_size + json_size > MAX_STORE_BYTES
            ==> (r matches Err(HephaestusError::InvalidInput(m)) && m@ == size_limit_message(
            current_size,
            json_size,
        )),
        current_size + json_size <= MAX_STORE_BYTES ==> r == Ok::<u64, HephaestusError>(
            (current_size + json_size) as u64,
        ),
{
    match current_size.checked_add(json_size) {
        None => Err(HephaestusError::InvalidInput(owned("Genome size calculation overflow"))),
        Some(new_size) => {
            if new_size > MAX_STORE_BYTES {
                let mut m: Vec<char> = Vec::new();
                extend_str(&mut m, "Storing this genome would exceed the 45 MiB memory limit. Current size: ");
                push_decimal(&mut m, current_size);
                extend_str(&mut m, " bytes, Required: ");
                push_decimal(&mut m, json_size);
                extend_str(&mut m, " bytes, Limit: ");
                push_decimal(&mut m, MAX_STORE_BYTES);
                extend_str(&mut m, " bytes");
                let msg = string_of(m.as_slice());
                assert(msg@ =~= size_limit_message(current_size, json_size));
                Err(HephaestusError::InvalidInput(msg))
            } else {
                Ok(new_size)
            }
        },
    }
}

/// Refuses an empty genome hash.
pub fn require_hash(hash: &str) -> (r: Result<(), HephaestusError>)
    ensures
        r is Ok <==> hash@.len() > 0,
        r is Err ==> (r matches Err(HephaestusError::InvalidInput(m)) && m@ == "Genome hash cannot be empty"@),
{
    if hash.is_empty() {
        return Err(HephaestusError::InvalidInput(owned("Genome hash cannot be empty")));
    }
    Ok(())
}

/// The outcome of deleting the genome with the given hash, from the number
/// of rows the deletion removed.
pub fn deletion_result(rows_deleted: usize, hash: &str) -> (r: Result<(), HephaestusError>)
    ensures
        r is Ok <==> rows_deleted > 0,
        r is Err ==> (r matches Err(HephaestusError::NotFound(m)) && m@ == "Genome with hash "@ + hash@
            + " not found"@),
{
    if rows_deleted == 0 {
        let mut m: Vec<char> = Vec::new();
        extend_str(&mut m, "Genome with hash ");
        extend_str(&mut m, hash);
        extend_str(&mut m, " not found");
        return Err(HephaestusError::NotFound(string_of(m.as_slice())));
    }
    Ok(())
}

/// The genomes holding a final repaired code, in order.
pub open spec fn successful(gs: Seq<RepairGenome>) -> Seq<RepairGenome>
    decreases gs.len(),
{
    if gs.len() == 0 {
        seq![]
    } else if gs.last().final_repaired_code is Some {
        successful(gs.drop_last()).push(gs.last())
    } else {
        successful(gs.drop_last())
    }
}

/// The successful genomes all hold a final repaired code, and each of them
/// is one of the genomes it was drawn from.
pub proof fn lemma_successful_are_repaired(gs: Seq<RepairGenome>)
    ensures
        forall|i: int|
            0 <= i < successful(gs).len() ==> (#[trigger] successful(gs)[i]).final_repaired_code is Some
                && gs.contains(successful(gs)[i]),
    decreases gs.len(),
{
    if gs.len() > 0 {
        let prev = gs.drop_last();
        lemma_successful_are_repaired(prev);
        assert forall|i: int| 0 <= i < successful(gs).len() implies (#[trigger] successful(gs)[i]).final_repaired_code is Some
            && gs.contains(successful(gs)[i]) by {
            if i < successful(prev).len() {
                assert(successful(gs)[i] == successful(prev)[i]);
                let j = choose|j: int| 0 <= j < prev.len() && prev[j] == successful(prev)[i];
                assert(gs[j] == prev[j]);
            } else {
                assert(gs[gs.len() - 1] == gs.last());
            }
        }
    }
}

/// Keeps the successful genomes: those with a final repaired code.
pub fn successful_genomes(genomes: Vec<RepairGenome>) -> (r: Vec<RepairGenome>)
    ensures
        r@ == successful(genomes@),
{
    let mut rest = genomes;
    let ghost all = rest@;
    let ghost mut taken: int = 0;
    let mut out: Vec<RepairGenome> = Vec::new();
    assert(all.skip(0) =~= all);
    while rest.len() > 0
        invariant
            0 <= taken <= all.len(),
            rest@ == all.skip(taken),
            out@ == successful(all.take(taken)),
        decreases rest.len(),
    {
        let g = rest.remove(0);
        proof {
            assert(g == all[taken]);
            assert(all.take(taken + 1).drop_last() =~= all.take(taken));
            assert(rest@ =~= all.skip(taken + 1));
        }
        if g.final_repaired_code.is_some() {
            out.push(g);
        }
        proof {
            taken = taken + 1;
        }
    }
    assert(all.take(taken) =~= all);
    out
}

// ------------------------------------------------------------ enrichment

/// The dependency density, in tenths: a tenth per `fn `, two per `struct `
/// and three per `impl ` in the code, at most ten.
pub open spec fn density_tenths(code: Seq<char>) -> nat {
    let d = count_matches(code, "fn "@) + 2 * count_matches(code, "struct "@) + 3 * count_matches(
        code,
        "impl "@,
    );
    if d < 10 {
        d
    } else {
        10
    }
}

/// The clusterer, wing manager and encoder that enrich genomes before they
/// are stored.
pub struct EvoGenome {
    pub semantic_clusterer: SemanticClusterer,
    pub wing_manager: WingManager,
    pub aaak_encoder: AAKEncoder,
}

impl EvoGenome {
    pub fn new() -> (e: Self)
        ensures
            e.semantic_clusterer.wf(),
            e.semantic_clusterer.members() == Map::<u64, Seq<Seq<char>>>::empty(),
            e.semantic_clusterer.next_id() == 0,
            e.wing_manager.wf(),
            e.wing_manager.members() == Map::<Seq<char>, Seq<Seq<char>>>::empty(),
    {
        EvoGenome {
            semantic_clusterer: SemanticClusterer::new(),
            wing_manager: WingManager::new(),
            aaak_encoder: AAKEncoder::new(),
        }
    }

    /// Whether `prepare` can place the genome: a genome with an empty hash is
    /// refused before any placing, and one without a cluster either has one
    /// already for its hash or a new id is left to give.
    pub fn can_prepare(&self, genome: &RepairGenome) -> (b: bool)
        requires
            self.semantic_clusterer.wf(),
        ensures
            b == (genome.hash@.len() > 0 && genome.semantic_cluster is None ==> (
            self.semantic_clusterer.cluster_of(genome.hash@) is Some
                || self.semantic_clusterer.next_id() < u64::MAX)),
    {
        genome.hash.as_str().is_empty() || genome.semantic_cluster.is_some()
            || self.semantic_clusterer.get_cluster(genome).is_some()
            || self.semantic_clusterer.next_cluster_id() < u64::MAX
    }

    /// Prepares a genome for storage: refuses an empty hash; otherwise fills
    /// in whatever is missing of its semantic cluster, wing, compressed
    /// repaired code, dependency density and AST topology hash, and leaves
    /// the rest as it was.
    pub fn prepare(&mut self, genome: &mut RepairGenome) -> (r: Result<(), HephaestusError>)
        requires
            old(self).semantic_clusterer.wf(),
            old(self).wing_manager.wf(),
            old(genome).hash@.len() > 0 && old(genome).semantic_cluster is None ==> (
            old(self).semantic_clusterer.cluster_of(old(genome).hash@) is Some
                || old(self).semantic_clusterer.next_id() < u64::MAX),
        ensures
            final(self).semantic_clusterer.wf(),
            final(self).wing_manager.wf(),
            r is Ok <==> old(genome).hash@.len() > 0,
            r is Err ==> (r matches Err(HephaestusError::InvalidInput(m)) && m@ == "Genome hash cannot be empty"@
                && *final(genome) == *old(genome)),
            r is Ok ==> {
                let g0 = *old(genome);
                let g = *final(genome);
                &&& g.hash == g0.hash
                &&& g.original_code == g0.original_code
                &&& g.telemetry_trigger == g0.telemetry_trigger
                &&& g.monkey_hypotheses == g0.monkey_hypotheses
                &&& g.rejected_patches == g0.rejected_patches
                &&& g.final_repaired_code == g0.final_repaired_code
                &&& g.narrative_summary == g0.narrative_summary
                &&& g.timestamp == g0.timestamp
                &&& g0.semantic_cluster is Some ==> g.semantic_cluster == g0.semantic_cluster
                &&& g0.semantic_cluster is None ==> g.semantic_cluster == final(self).semantic_clusterer.cluster_of(g0.hash@)
                    && g.semantic_cluster is Some
                &&& g0.wing is Some ==> g.wing == g0.wing
                &&& g0.wing is None ==> g.wing is Some && g.wing.unwrap()@ == wing_of_trigger(g0.telemetry_trigger)
                &&& g0.aaak_compressed is Some || g0.final_repaired_code is None ==> g.aaak_compressed == g0.aaak_compressed
                &&& g0.aaak_compressed is None && g0.final_repaired_code is Some ==> g.aaak_compressed is Some
                    && g.aaak_compressed.unwrap()@ == zlib_compress(vstd::utf8::encode_utf8(g0.final_repaired_code.unwrap()@))
                &&& g0.dependency_density is Some ==> g.dependency_density == g0.dependency_density
                &&& g0.dependency_density is None ==> g.dependency_density == Some(density_tenths(g0.original_code@) as u64)
                &&& g0.ast_topology_hash is Some ==> g.ast_topology_hash == g0.ast_topology_hash
                &&& g0.ast_topology_hash is None ==> g.ast_topology_hash == Some(str_default_hash(g0.original_code@))
            },
    {
        if genome.hash.as_str().is_empty() {
            return Err(HephaestusError::InvalidInput(owned("Genome hash cannot be empty")));
        }
        if genome.semantic_cluster.is_none() {
            let c = self.semantic_clusterer.assign_cluster(genome);
            genome.semantic_cluster = Some(c);
        }
        if genome.wing.is_none() {
            let w = self.wing_manager.assign_wing(genome);
            genome.wing = Some(w);
        }
        if genome.aaak_compressed.is_none() {
            if let Some(code) = &genome.final_repaired_code {
                let bytes = code.as_str().as_bytes();
                let encoded = self.aaak_encoder.encode(bytes);
                genome.aaak_compressed = Some(encoded);
            }
        }
        if genome.dependency_density.is_none() {
            let code = chars_of(genome.original_code.as_str());
            proof {
                reveal_strlit("fn ");
                reveal_strlit("struct ");
                reveal_strlit("impl ");
            }
            let fns = count_matches_str(code.as_slice(), "fn ");
            let structs = count_matches_str(code.as_slice(), "struct ");
            let impls = count_matches_str(code.as_slice(), "impl ");
            proof {
                lemma_count_matches_bound(code@, "fn "@);
                lemma_count_matches_bound(code@, "struct "@);
                lemma_count_matches_bound(code@, "impl "@);
            }
            let d: u64 = if fns >= 10 || structs >= 5 || impls >= 4 {
                10
            } else {
                let s = (fns + 2 * structs + 3 * impls) as u64;
                if s < 10 { s } else { 10 }
            };
            genome.dependency_density = Some(d);
        }
        if genome.ast_topology_hash.is_none() {
            genome.ast_topology_hash = Some(default_hash(genome.original_code.as_str()));
        }
        Ok(())
    }
}

} // verus!
