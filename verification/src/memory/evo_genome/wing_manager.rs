//! Organisation of genomes into "wings" of the MemPalace, one per technical
//! domain (concurrency, memory, panics, ...).
use vstd::prelude::*;
use crate::keyed::{has_key, key_index, keys_unique, kv_map, lemma_key_index, lemma_kv_push, lemma_kv_update};
use crate::memory::genome_store::RepairGenome;
use crate::text::{owned, lowercase, to_lowercase, chars_of, clone_strings, contains, contains_str, str_eq, strings_contain, strs};

verus! {

/// The wing a lowercased telemetry message belongs to.
pub open spec fn wing_for(lower: Seq<char>) -> Seq<char> {
    if contains(lower, "panic"@) || contains(lower, "unwrap"@) {
        "WingOfPanics"@
    } else if contains(lower, "deadlock"@) || contains(lower, "mutex"@) {
        "WingOfConcurrency"@
    } else if contains(lower, "overflow"@) || contains(lower, "oom"@) {
        "WingOfMemory"@
    } else if contains(lower, "index"@) || contains(lower, "bounds"@) {
        "WingOfIndexing"@
    } else {
        "WingOfGeneral"@
    }
}

/// The wing of a genome with the given telemetry trigger.
pub open spec fn wing_of_trigger(trigger: Option<String>) -> Seq<char> {
    match trigger {
        Some(t) => wing_for(lowercase(t@)),
        None => "WingOfUnknown"@,
    }
}

/// The first wing, in wing order, whose members contain `h`.
pub open spec fn first_wing_holding(s: Seq<(String, Vec<String>)>, h: Seq<char>) -> Option<Seq<char>>
    decreases s.len(),
{
    if s.len() == 0 {
        None
    } else if strs(s[0].1@).contains(h) {
        Some(s[0].0@)
    } else {
        first_wing_holding(s.drop_first(), h)
    }
}


/// The wing for an already lowercased telemetry message, chosen by the
/// keywords it contains.
pub fn wing_for_lowercase_telemetry(lower: &str) -> (w: String)
    ensures
        w@ == wing_for(lower@),
{
    let l = chars_of(lower);
    let s = l.as_slice();
    if contains_str(s, "panic") || contains_str(s, "unwrap") {
        owned("WingOfPanics")
    } else if contains_str(s, "deadlock") || contains_str(s, "mutex") {
        owned("WingOfConcurrency")
    } else if contains_str(s, "overflow") || contains_str(s, "oom") {
        owned("WingOfMemory")
    } else if contains_str(s, "index") || contains_str(s, "bounds") {
        owned("WingOfIndexing")
    } else {
        owned("WingOfGeneral")
    }
}

/// Manages the assignment of genomes to the wings of the MemPalace.
pub struct WingManager {
    /// Wing name and the hashes of its genomes, in the order wings appeared.
    wings: Vec<(String, Vec<String>)>,
}

impl WingManager {
    /// No two wings share a name.
    pub closed spec fn wf(self) -> bool {
        keys_unique(self.wings@)
    }

    /// Wing name to member hashes.
    pub closed spec fn members(self) -> Map<Seq<char>, Seq<Seq<char>>> {
        kv_map(self.wings@).map_values(|v: Vec<String>| strs(v@))
    }

    /// Wing names in the order the wings appeared.
    pub closed spec fn wing_order(self) -> Seq<Seq<char>> {
        self.wings@.map_values(|e: (String, Vec<String>)| e.0@)
    }

    /// The first wing, in wing order, holding the hash `h`.
    pub closed spec fn wing_of(self, h: Seq<char>) -> Option<Seq<char>> {
        first_wing_holding(self.wings@, h)
    }

    pub fn new() -> (m: Self)
        ensures
            m.wf(),
            m.members() == Map::<Seq<char>, Seq<Seq<char>>>::empty(),
            m.wing_order() == Seq::<Seq<char>>::empty(),
    {
        let m = WingManager { wings: Vec::new() };
        assert(m.members() =~= Map::<Seq<char>, Seq<Seq<char>>>::empty());
        assert(m.wing_order() =~= Seq::<Seq<char>>::empty());
        m
    }

    fn find_wing(&self, name: &str) -> (r: Option<usize>)
        ensures
            r matches Some(i) ==> i < self.wings@.len() && self.wings@[i as int].0@ == name@,
            r is None ==> !has_key(self.wings@, name@),
    {
        let mut i: usize = 0;
        while i < self.wings.len()
            invariant
                i <= self.wings@.len(),
                forall|j: int| 0 <= j < i ==> self.wings@[j].0@ != name@,
            decreases self.wings.len() - i,
        {
            if str_eq(self.wings[i].0.as_str(), name) {
                return Some(i);
            }
            i = i + 1;
        }
        None
    }

    /// Assigns a genome to a wing chosen from the keywords of its lowercased
    /// telemetry trigger ("WingOfUnknown" without one), adds its hash to the
    /// wing's members and returns the wing's name.
    pub fn assign_wing(&mut self, genome: &RepairGenome) -> (w: String)
        requires
            old(self).wf(),
        ensures
            final(self).wf(),
            w@ == wing_of_trigger(genome.telemetry_trigger),
            final(self).members() == old(self).members().insert(
                w@,
                (if old(self).members().contains_key(w@) {
                    old(self).members()[w@]
                } else {
                    Seq::<Seq<char>>::empty()
                }).push(genome.hash@),
            ),
            old(self).members().contains_key(w@) ==> final(self).wing_order() == old(self).wing_order(),
            !old(self).members().contains_key(w@) ==> final(self).wing_order() == old(self).wing_order().push(w@),
    {
        let wing = match &genome.telemetry_trigger {
            Some(telemetry) => {
                let lower = to_lowercase(telemetry.as_str());
                wing_for_lowercase_telemetry(lower.as_str())
            },
            None => owned("WingOfUnknown"),
        };
        let ghost s0 = self.wings@;
        let ghost m0 = self.members();
        let ghost key = wing@;
        match self.find_wing(wing.as_str()) {
            Some(i) => {
                let mut list = clone_strings(&self.wings[i].1);
                list.push(genome.hash.clone());
                let ghost e = (self.wings@[i as int].0, list);
                let name = self.wings[i].0.clone();
                proof {
                    lemma_key_index(s0, key, i as int);
                    assert(strs(list@) =~= m0[key].push(genome.hash@));
                }
                self.wings.set(i, (name, list));
                proof {
                    lemma_kv_update(s0, i as int, e);
                    assert(self.wings@ == s0.update(i as int, e));
                    assert(self.members() =~= m0.insert(key, m0[key].push(genome.hash@)));
                    assert(self.wing_order() =~= s0.map_values(|e: (String, Vec<String>)| e.0@));
                }
            },
            None => {
                let mut list: Vec<String> = Vec::new();
                list.push(genome.hash.clone());
                let name = wing.clone();
                let ghost e = (name, list);
                self.wings.push((name, list));
                proof {
                    lemma_kv_push(s0, e);
                    assert(!m0.contains_key(key));
                    assert(strs(list@) =~= Seq::<Seq<char>>::empty().push(genome.hash@));
                    assert(self.members() =~= m0.insert(key, Seq::<Seq<char>>::empty().push(genome.hash@)));
                    assert(self.wing_order() =~= s0.map_values(|e: (String, Vec<String>)| e.0@).push(key));
                }
            },
        }
        wing
    }

    /// The first wing, in wing order, that holds the genome's hash.
    pub fn get_wing(&self, genome: &RepairGenome) -> (r: Option<String>)
        ensures
            r is Some <==> self.wing_of(genome.hash@) is Some,
            r is Some ==> self.wing_of(genome.hash@) == Some(r.unwrap()@),
    {
        let ghost h = genome.hash@;
        let mut i: usize = 0;
        assert(self.wings@.skip(0) =~= self.wings@);
        while i < self.wings.len()
            invariant
                i <= self.wings@.len(),
                h == genome.hash@,
                first_wing_holding(self.wings@, h) == first_wing_holding(self.wings@.skip(i as int), h),
            decreases self.wings.len() - i,
        {
            assert(self.wings@.skip(i as int)[0] == self.wings@[i as int]);
            if strings_contain(&self.wings[i].1, genome.hash.as_str()) {
                let name = self.wings[i].0.clone();
                assert(self.wings@.skip(i as int).len() > 0);
                assert(strs(self.wings@.skip(i as int)[0].1@).contains(h));
                assert(first_wing_holding(self.wings@.skip(i as int), h) == Some(name@));
                return Some(name);
            }
            assert(self.wings@.skip(i as int).drop_first() =~= self.wings@.skip(i + 1));
            i = i + 1;
        }
        None
    }

    /// The member hashes of a wing, if it exists.
    pub fn get_wing_members(&self, wing: &str) -> (r: Option<Vec<String>>)
        requires
            self.wf(),
        ensures
            r is Some <==> self.members().contains_key(wing@),
            r is Some ==> strs(r.unwrap()@) == self.members()[wing@],
    {
        match self.find_wing(wing) {
            Some(i) => {
                proof {
                    lemma_key_index(self.wings@, wing@, i as int);
                }
                Some(clone_strings(&self.wings[i].1))
            },
            None => None,
        }
    }

    /// All wing names, in the order the wings appeared.
    pub fn list_wings(&self) -> (r: Vec<String>)
        ensures
            strs(r@) == self.wing_order(),
    {
        let mut r: Vec<String> = Vec::new();
        let mut i: usize = 0;
        while i < self.wings.len()
            invariant
                i <= self.wings@.len(),
                strs(r@) == self.wing_order().take(i as int),
            decreases self.wings.len() - i,
        {
            let name = self.wings[i].0.clone();
            assert(name@ == self.wing_order()[i as int]);
            let ghost old_r = r@;
            r.push(name);
            assert(strs(r@) =~= strs(old_r).push(name@));
            assert(self.wing_order().take(i + 1) =~= self.wing_order().take(i as int).push(name@));
            i = i + 1;
            assert(strs(r@) =~= self.wing_order().take(i as int));
        }
        assert(self.wing_order().take(self.wings@.len() as int) =~= self.wing_order());
        r
    }
}

proof fn lemma_first_wing(s: Seq<(String, Vec<String>)>, h: Seq<char>)
    ensures
        (exists|i: int| 0 <= i < s.len() && #[trigger] strs(s[i].1@).contains(h)) ==> first_wing_holding(s, h) is Some,
        first_wing_holding(s, h) matches Some(w) ==> exists|i: int|
            0 <= i < s.len() && s[i].0@ == w && #[trigger] strs(s[i].1@).contains(h),
    decreases s.len(),
{
    if s.len() > 0 {
        let rest = s.drop_first();
        lemma_first_wing(rest, h);
        if exists|i: int| 0 <= i < s.len() && #[trigger] strs(s[i].1@).contains(h) {
            let i = choose|i: int| 0 <= i < s.len() && #[trigger] strs(s[i].1@).contains(h);
            if i > 0 {
                assert(rest[i - 1] == s[i]);
                assert(strs(rest[i - 1].1@).contains(h));
            }
        }
        if !strs(s[0].1@).contains(h) {
            if let Some(w) = first_wing_holding(rest, h) {
                let j = choose|j: int| 0 <= j < rest.len() && rest[j].0@ == w && #[trigger] strs(rest[j].1@).contains(h);
                assert(s[j + 1] == rest[j]);
            }
        }
    }
}

impl WingManager {
    /// A hash is held by some wing exactly when `get_wing` finds a wing for
    /// it, and the wing found holds it: after `assign_wing`, the genome's
    /// wing can be read back.
    pub proof fn lemma_wing_read_back(self, h: Seq<char>)
        requires
            self.wf(),
        ensures
            (exists|w: Seq<char>| self.members().contains_key(w) && #[trigger] self.members()[w].contains(h))
                <==> self.wing_of(h) is Some,
            self.wing_of(h) matches Some(w) ==> self.members().contains_key(w) && self.members()[w].contains(h),
    {
        let s = self.wings@;
        lemma_first_wing(s, h);
        if exists|w: Seq<char>| self.members().contains_key(w) && #[trigger] self.members()[w].contains(h) {
            let w = choose|w: Seq<char>| self.members().contains_key(w) && #[trigger] self.members()[w].contains(h);
            let i = key_index(s, w);
            lemma_key_index(s, w, i);
            assert(strs(s[i].1@).contains(h));
        }
        if let Some(w) = self.wing_of(h) {
            let i = choose|i: int| 0 <= i < s.len() && s[i].0@ == w && #[trigger] strs(s[i].1@).contains(h);
            lemma_key_index(s, w, i);
            assert(self.members()[w] == strs(s[i].1@));
        }
    }
}

/// Wings by keyword, in order of precedence: "panic" or "unwrap" give the
/// panics wing; otherwise "deadlock" or "mutex" the concurrency wing;
/// otherwise "overflow" or "oom" the memory wing; otherwise "index" or
/// "bounds" the indexing wing; and anything else the general wing.
pub proof fn lemma_wing_keywords(lower: Seq<char>)
    ensures
        contains(lower, "panic"@) || contains(lower, "unwrap"@) ==> wing_for(lower) == "WingOfPanics"@,
        !contains(lower, "panic"@) && !contains(lower, "unwrap"@) && (contains(lower, "deadlock"@)
            || contains(lower, "mutex"@)) ==> wing_for(lower) == "WingOfConcurrency"@,
        !contains(lower, "panic"@) && !contains(lower, "unwrap"@) && !contains(lower, "deadlock"@)
            && !contains(lower, "mutex"@) && (contains(lower, "overflow"@) || contains(lower, "oom"@))
            ==> wing_for(lower) == "WingOfMemory"@,
        !contains(lower, "panic"@) && !contains(lower, "unwrap"@) && !contains(lower, "deadlock"@)
            && !contains(lower, "mutex"@) && !contains(lower, "overflow"@) && !contains(lower, "oom"@)
            && (contains(lower, "index"@) || contains(lower, "bounds"@)) ==> wing_for(lower)
            == "WingOfIndexing"@,
        !contains(lower, "panic"@) && !contains(lower, "unwrap"@) && !contains(lower, "deadlock"@)
            && !contains(lower, "mutex"@) && !contains(lower, "overflow"@) && !contains(lower, "oom"@)
            && !contains(lower, "index"@) && !contains(lower, "bounds"@) ==> wing_for(lower)
            == "WingOfGeneral"@,
{
}

} // verus!
