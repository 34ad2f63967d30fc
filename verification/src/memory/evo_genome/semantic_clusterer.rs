//! Grouping of similar failures into semantic clusters. A genome joins a
//! cluster once, by its hash; clusters may later be merged.
use vstd::prelude::*;
use std::collections::HashMap;
use crate::memory::genome_store::RepairGenome;
use crate::text::{clone_strings, strings_contain, strs};

verus! {

broadcast use vstd::std_specs::hash::group_hash_axioms;

/// No hash is a member of two clusters.
pub open spec fn members_disjoint(m: Map<u64, Seq<Seq<char>>>) -> bool {
    forall|c1: u64, c2: u64, h: Seq<char>|
        m.contains_key(c1) && m.contains_key(c2) && c1 != c2 && #[trigger] m[c1].contains(h)
            ==> !#[trigger] m[c2].contains(h)
}

/// The clusters after merging `id1` and `id2`: both are removed and, unless
/// both were empty or absent, their members (those of `id1` first) form the
/// cluster with the smaller id.
pub open spec fn merged(m: Map<u64, Seq<Seq<char>>>, id1: u64, id2: u64) -> Map<u64, Seq<Seq<char>>> {
    if id1 == id2 {
        m
    } else {
        let m1 = if m.contains_key(id1) { m[id1] } else { Seq::<Seq<char>>::empty() };
        let m2 = if m.contains_key(id2) { m[id2] } else { Seq::<Seq<char>>::empty() };
        let rest = m.remove(id1).remove(id2);
        if (m1 + m2).len() == 0 {
            rest
        } else {
            rest.insert(if id1 < id2 { id1 } else { id2 }, m1 + m2)
        }
    }
}

/// A semantic clusterer for grouping similar failures.
pub struct SemanticClusterer {
    /// Cluster id to the hashes of its genomes.
    clusters: HashMap<u64, Vec<String>>,
    /// Next available cluster id.
    next_cluster_id: u64,
}

impl Default for SemanticClusterer {
    /// A clusterer without clusters.
    fn default() -> (c: Self)
        ensures
            c.wf(),
            c.members() == Map::<u64, Seq<Seq<char>>>::empty(),
            c.next_id() == 0,
    {
        SemanticClusterer::new()
    }
}

impl SemanticClusterer {
    /// Ids are below the next id; no hash is in two clusters.
    pub closed spec fn wf(self) -> bool {
        &&& members_disjoint(self.members())
        &&& forall|c: u64| #[trigger] self.clusters@.contains_key(c) ==> c < self.next_cluster_id
    }

    /// Cluster id to member hashes.
    pub closed spec fn members(self) -> Map<u64, Seq<Seq<char>>> {
        self.clusters@.map_values(|v: Vec<String>| strs(v@))
    }

    /// The cluster holding the hash `h`, if any.
    pub closed spec fn cluster_of(self, h: Seq<char>) -> Option<u64> {
        if exists|c: u64| self.members().contains_key(c) && #[trigger] self.members()[c].contains(h) {
            Some(choose|c: u64| self.members().contains_key(c) && #[trigger] self.members()[c].contains(h))
        } else {
            None
        }
    }

    /// The id the next new cluster gets.
    pub closed spec fn next_id(self) -> u64 {
        self.next_cluster_id
    }

    proof fn lemma_holder(self, h: Seq<char>, c: u64)
        requires
            self.wf(),
            self.members().contains_key(c),
            self.members()[c].contains(h),
        ensures
            self.cluster_of(h) == Some(c),
    {
        let w = choose|w: u64| self.members().contains_key(w) && #[trigger] self.members()[w].contains(h);
        assert(self.members()[c].contains(h));
        if w != c {
            assert(self.members()[w].contains(h));
        }
    }

    /// The cluster holding `h` is `c` exactly when `c`'s members contain `h`.
    pub proof fn lemma_cluster_of_members(self, h: Seq<char>, c: u64)
        requires
            self.wf(),
        ensures
            self.cluster_of(h) == Some(c) <==> (self.members().contains_key(c)
                && self.members()[c].contains(h)),
    {
        if self.members().contains_key(c) && self.members()[c].contains(h) {
            self.lemma_holder(h, c);
        }
    }

    pub fn new() -> (c: Self)
        ensures
            c.wf(),
            c.members() == Map::<u64, Seq<Seq<char>>>::empty(),
            c.next_id() == 0,
    {
        let c = SemanticClusterer { clusters: HashMap::new(), next_cluster_id: 0 };
        assert(c.members() =~= Map::<u64, Seq<Seq<char>>>::empty());
        c
    }

    /// The id of a cluster holding `h`, walking the clusters.
    fn find_holder(&self, h: &str) -> (r: Option<u64>)
        ensures
            r matches Some(c) ==> self.members().contains_key(c) && self.members()[c].contains(h@),
            r is None ==> forall|c: u64| #[trigger] self.members().contains_key(c) ==> !self.members()[c].contains(h@),
    {
        for entry in it: self.clusters.iter()
            invariant
                forall|j: int| 0 <= j < it.index() ==> !strs((*it.seq()[j].1)@).contains(h@),
        {
            let (id, hashes) = entry;
            if strings_contain(hashes, h) {
                return Some(*id);
            }
        }
        None
    }

    /// Assigns a genome to a cluster by its hash and returns the cluster id:
    /// the cluster already holding the hash, or else a new cluster holding
    /// only it. Afterwards the genome's cluster is the one returned.
    pub fn assign_cluster(&mut self, genome: &RepairGenome) -> (r: u64)
        requires
            old(self).wf(),
            old(self).cluster_of(genome.hash@) is Some || old(self).next_id() < u64::MAX,
        ensures
            final(self).wf(),
            final(self).cluster_of(genome.hash@) == Some(r),
            old(self).cluster_of(genome.hash@) matches Some(c) ==> r == c && final(self).members()
                == old(self).members() && final(self).next_id() == old(self).next_id(),
            old(self).cluster_of(genome.hash@) is None ==> r == old(self).next_id()
                && final(self).members() == old(self).members().insert(r, seq![genome.hash@])
                && final(self).next_id() == old(self).next_id() + 1,
    {
        let ghost h = genome.hash@;
        match self.find_holder(genome.hash.as_str()) {
            Some(c) => {
                proof {
                    self.lemma_holder(h, c);
                }
                c
            },
            None => {
                let ghost m0 = self.members();
                let id = self.next_cluster_id;
                proof {
                    assert(self.cluster_of(h) is None);
                    assert(!self.clusters@.contains_key(id));
                }
                let mut v: Vec<String> = Vec::new();
                v.push(genome.hash.clone());
                assert(strs(v@) =~= seq![h]);
                self.next_cluster_id = id + 1;
                self.clusters.insert(id, v);
                proof {
                    assert(self.members() =~= m0.insert(id, seq![h]));
                    let m = self.members();
                    assert forall|c1: u64, c2: u64, x: Seq<char>|
                        m.contains_key(c1) && m.contains_key(c2) && c1 != c2 && #[trigger] m[c1].contains(x)
                        implies !#[trigger] m[c2].contains(x) by {
                        if c1 == id {
                            assert(m[c1] == seq![h]);
                            assert(x == m[c1][0]);
                            assert(!m0[c2].contains(h));
                        } else if c2 == id {
                            assert(m[c2] == seq![h]);
                            if m[c2].contains(x) {
                                assert(x == m[c2][0]);
                                assert(!m0[c1].contains(h));
                            }
                        } else {
                            assert(m[c1] == m0[c1] && m[c2] == m0[c2]);
                        }
                    }
                    assert(m[id][0] == h);
                    self.lemma_holder(h, id);
                }
                id
            },
        }
    }

    /// The id the next new cluster gets.
    pub fn next_cluster_id(&self) -> (n: u64)
        ensures
            n == self.next_id(),
    {
        self.next_cluster_id
    }

    /// The cluster holding the genome's hash, if any.
    pub fn get_cluster(&self, genome: &RepairGenome) -> (r: Option<u64>)
        requires
            self.wf(),
        ensures
            r == self.cluster_of(genome.hash@),
    {
        match self.find_holder(genome.hash.as_str()) {
            Some(c) => {
                proof {
                    self.lemma_holder(genome.hash@, c);
                }
                Some(c)
            },
            None => None,
        }
    }

    /// The member hashes of a cluster, if it exists.
    pub fn get_cluster_members(&self, cluster_id: u64) -> (r: Option<Vec<String>>)
        requires
            self.wf(),
        ensures
            r is Some <==> self.members().contains_key(cluster_id),
            r is Some ==> strs(r.unwrap()@) == self.members()[cluster_id],
    {
        match self.clusters.get(&cluster_id) {
            Some(v) => Some(clone_strings(v)),
            None => None,
        }
    }

    /// Merges two clusters: both are removed and, if together they hold any
    /// hash, their members (those of `id1` first) form the cluster with the
    /// smaller id.
    pub fn merge_clusters(&mut self, id1: u64, id2: u64)
        requires
            old(self).wf(),
        ensures
            final(self).wf(),
            final(self).members() == merged(old(self).members(), id1, id2),
            final(self).next_id() == old(self).next_id(),
    {
        if id1 == id2 {
            return;
        }
        let ghost m0 = self.members();
        let mut members: Vec<String> = Vec::new();
        let ghost mut m1: Seq<Seq<char>> = Seq::empty();
        let ghost mut m2: Seq<Seq<char>> = Seq::empty();
        if let Some(v1) = self.clusters.remove(&id1) {
            proof {
                m1 = strs(v1@);
            }
            members = v1;
        }
        if let Some(mut v2) = self.clusters.remove(&id2) {
            proof {
                m2 = strs(v2@);
            }
            members.append(&mut v2);
        }
        let ghost rest = self.members();
        proof {
            assert(m1 == (if m0.contains_key(id1) { m0[id1] } else { Seq::<Seq<char>>::empty() }));
            assert(m2 == (if m0.contains_key(id2) { m0[id2] } else { Seq::<Seq<char>>::empty() }));
            assert(rest =~= m0.remove(id1).remove(id2));
            assert(strs(members@) =~= m1 + m2);
        }
        if members.len() > 0 {
            let low = if id1 < id2 { id1 } else { id2 };
            self.clusters.insert(low, members);
            proof {
                let m = self.members();
                assert(m =~= rest.insert(low, m1 + m2));
                assert(m0.contains_key(id1) || m0.contains_key(id2));
                assert forall|c1: u64, c2: u64, x: Seq<char>|
                    m.contains_key(c1) && m.contains_key(c2) && c1 != c2 && #[trigger] m[c1].contains(x)
                    implies !#[trigger] m[c2].contains(x) by {
                    if c1 == low || c2 == low {
                        let other = if c1 == low { c2 } else { c1 };
                        assert(m[other] == m0[other]);
                        if (m1 + m2).contains(x) && m0[other].contains(x) {
                            let q = choose|q: int| 0 <= q < (m1 + m2).len() && (m1 + m2)[q] == x;
                            if q < m1.len() {
                                assert(m1[q] == x);
                                assert(m0[id1].contains(x));
                            } else {
                                assert(m2[q - m1.len()] == x);
                                assert(m0[id2].contains(x));
                            }
                        }
                    } else {
                        assert(m[c1] == m0[c1] && m[c2] == m0[c2]);
                    }
                }
                assert(m =~= merged(m0, id1, id2));
            }
        } else {
            proof {
                assert(self.members() =~= merged(m0, id1, id2));
            }
        }
    }
}

/// Merging loses no member and gains none: a hash is held by some cluster
/// after a merge exactly when it was held by some cluster before; and the
/// larger of two distinct merged ids no longer names a cluster.
pub proof fn lemma_merge_keeps_members(
    m: Map<u64, Seq<Seq<char>>>,
    id1: u64,
    id2: u64,
    h: Seq<char>,
)
    ensures
        (exists|c: u64| m.contains_key(c) && #[trigger] m[c].contains(h)) <==> (exists|c: u64|
            merged(m, id1, id2).contains_key(c) && #[trigger] merged(m, id1, id2)[c].contains(h)),
        id1 != id2 ==> !merged(m, id1, id2).contains_key(if id1 < id2 { id2 } else { id1 }),
{
    let r = merged(m, id1, id2);
    if id1 != id2 {
        let m1 = if m.contains_key(id1) { m[id1] } else { Seq::<Seq<char>>::empty() };
        let m2 = if m.contains_key(id2) { m[id2] } else { Seq::<Seq<char>>::empty() };
        let low = if id1 < id2 { id1 } else { id2 };
        if exists|c: u64| m.contains_key(c) && #[trigger] m[c].contains(h) {
            let c = choose|c: u64| m.contains_key(c) && #[trigger] m[c].contains(h);
            if c == id1 || c == id2 {
                let q = choose|q: int| 0 <= q < m[c].len() && m[c][q] == h;
                if c == id1 {
                    assert((m1 + m2)[q] == h);
                } else {
                    assert((m1 + m2)[m1.len() + q] == h);
                }
                assert(r.contains_key(low) && r[low].contains(h));
            } else {
                assert(r.contains_key(c) && r[c].contains(h));
            }
        }
        if exists|c: u64| r.contains_key(c) && #[trigger] r[c].contains(h) {
            let c = choose|c: u64| r.contains_key(c) && #[trigger] r[c].contains(h);
            if c == low && (m1 + m2).len() > 0 {
                let q = choose|q: int| 0 <= q < r[c].len() && r[c][q] == h;
                if q < m1.len() {
                    assert(m[id1][q] == h);
                    assert(m.contains_key(id1) && m[id1].contains(h));
                } else {
                    assert(m[id2][q - m1.len()] == h);
                    assert(m.contains_key(id2) && m[id2].contains(h));
                }
            } else {
                assert(m.contains_key(c) && m[c].contains(h));
            }
        }
    }
}

} // verus!
