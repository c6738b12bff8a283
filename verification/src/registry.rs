use vstd::prelude::*;
use crate::path::CanonPath;
use crate::path::in_subtree;
use crate::path::path_eq;
use crate::path::path_in_dir;
use crate::time::Timestamp;
use crate::time::Ttl;
use crate::time::add_ttl;
use crate::time::expiration_of;
use crate::ttl::find_ttl;
use crate::ttl::path_ttl;

verus! {

/// One tracked file: its canonical path and the instant it expires.
pub struct Entry {
    pub path: CanonPath,
    pub expiration: Timestamp,
}

/// No two entries are for the same path.
spec fn unique_paths(s: Seq<Entry>) -> bool {
    forall|i: int, j: int| 0 <= i < j < s.len() ==> s[i].path@ != s[j].path@
}

/// Every stored expiration is well formed.
spec fn wf_expirations(s: Seq<Entry>) -> bool {
    forall|i: int| 0 <= i < s.len() ==> (#[trigger] s[i].expiration).wf()
}

/// The mapping a sequence of entries stands for.
spec fn entries_map(s: Seq<Entry>) -> Map<Seq<Seq<u8>>, Timestamp>
    decreases s.len(),
{
    if s.len() == 0 {
        Map::empty()
    } else {
        entries_map(s.drop_last()).insert(s.last().path@, s.last().expiration)
    }
}

proof fn lemma_unique_drop_last(s: Seq<Entry>)
    requires
        unique_paths(s),
        s.len() > 0,
    ensures
        unique_paths(s.drop_last()),
        wf_expirations(s) ==> wf_expirations(s.drop_last()),
{
    assert forall|i: int, j: int| 0 <= i < j < s.drop_last().len() implies s.drop_last()[i].path@
        != s.drop_last()[j].path@ by {
        assert(s.drop_last()[i] == s[i]);
        assert(s.drop_last()[j] == s[j]);
    }
    if wf_expirations(s) {
        assert forall|i: int|
            0 <= i < s.drop_last().len() implies (#[trigger] s.drop_last()[i].expiration).wf() by {
            assert(s.drop_last()[i] == s[i]);
        }
    }
}

proof fn lemma_entries_map_contains(s: Seq<Entry>, k: Seq<Seq<u8>>)
    ensures
        entries_map(s).contains_key(k) <==> exists|i: int| 0 <= i < s.len() && s[i].path@ == k,
    decreases s.len(),
{
    if s.len() == 0 {
    } else {
        lemma_entries_map_contains(s.drop_last(), k);
        if s.last().path@ == k {
            assert(s[s.len() - 1].path@ == k);
        } else {
            if entries_map(s).contains_key(k) {
                let i = choose|i: int| 0 <= i < s.drop_last().len() && s.drop_last()[i].path@ == k;
                assert(s[i].path@ == k);
            }
            if exists|i: int| 0 <= i < s.len() && s[i].path@ == k {
                let i = choose|i: int| 0 <= i < s.len() && s[i].path@ == k;
                assert(i != s.len() - 1);
                assert(s.drop_last()[i].path@ == k);
            }
        }
    }
}

proof fn lemma_entries_map_value(s: Seq<Entry>, i: int)
    requires
        unique_paths(s),
        0 <= i < s.len(),
    ensures
        entries_map(s).contains_key(s[i].path@),
        entries_map(s)[s[i].path@] == s[i].expiration,
    decreases s.len(),
{
    if i == s.len() - 1 {
    } else {
        assert(s[i].path@ != s[s.len() - 1].path@);
        lemma_unique_drop_last(s);
        assert(s.drop_last()[i] == s[i]);
        lemma_entries_map_value(s.drop_last(), i);
    }
}

proof fn lemma_entries_map_len(s: Seq<Entry>)
    requires
        unique_paths(s),
    ensures
        entries_map(s).dom().finite(),
        entries_map(s).dom().len() == s.len(),
    decreases s.len(),
{
    broadcast use vstd::set::axiom_set_insert_len;

    if s.len() == 0 {
        assert(entries_map(s).dom() =~= Set::<Seq<Seq<u8>>>::empty());
    } else {
        lemma_unique_drop_last(s);
        lemma_entries_map_len(s.drop_last());
        lemma_entries_map_contains(s.drop_last(), s.last().path@);
        assert(!entries_map(s.drop_last()).contains_key(s.last().path@)) by {
            if exists|i: int|
                0 <= i < s.drop_last().len() && s.drop_last()[i].path@ == s.last().path@ {
                let i = choose|i: int|
                    0 <= i < s.drop_last().len() && s.drop_last()[i].path@ == s.last().path@;
                assert(s[i].path@ == s[s.len() - 1].path@);
            }
        }
        assert(entries_map(s).dom() =~= entries_map(s.drop_last()).dom().insert(s.last().path@));
    }
}

proof fn lemma_entries_remove_wf(s: Seq<Entry>, i: int)
    requires
        unique_paths(s),
        wf_expirations(s),
        0 <= i < s.len(),
    ensures
        unique_paths(s.remove(i)),
        wf_expirations(s.remove(i)),
{
    assert forall|a: int, b: int| 0 <= a < b < s.remove(i).len() implies s.remove(i)[a].path@
        != s.remove(i)[b].path@ by {
        let a2: int = if a < i {
            a
        } else {
            a + 1
        };
        let b2: int = if b < i {
            b
        } else {
            b + 1
        };
        assert(s.remove(i)[a] == s[a2]);
        assert(s.remove(i)[b] == s[b2]);
    }
    assert forall|a: int|
        0 <= a < s.remove(i).len() implies (#[trigger] s.remove(i)[a].expiration).wf() by {
        let a2: int = if a < i {
            a
        } else {
            a + 1
        };
        assert(s.remove(i)[a] == s[a2]);
    }
}

proof fn lemma_entries_map_remove(s: Seq<Entry>, i: int)
    requires
        unique_paths(s),
        0 <= i < s.len(),
    ensures
        entries_map(s.remove(i)) == entries_map(s).remove(s[i].path@),
    decreases s.len(),
{
    let k = s[i].path@;
    lemma_unique_drop_last(s);
    if i == s.len() - 1 {
        assert(s.remove(i) =~= s.drop_last());
        lemma_entries_map_contains(s.drop_last(), k);
        assert(!entries_map(s.drop_last()).contains_key(k)) by {
            if exists|l: int| 0 <= l < s.drop_last().len() && s.drop_last()[l].path@ == k {
                let l = choose|l: int| 0 <= l < s.drop_last().len() && s.drop_last()[l].path@ == k;
                assert(s[l].path@ == s[s.len() - 1].path@);
            }
        }
        assert(entries_map(s).remove(k) =~= entries_map(s.drop_last()));
    } else {
        lemma_entries_map_remove(s.drop_last(), i);
        assert(s.remove(i).drop_last() =~= s.drop_last().remove(i));
        assert(s.remove(i).last() == s.last());
        assert(s.remove(i).len() > 0);
        assert(entries_map(s.remove(i)) == entries_map(s.remove(i).drop_last()).insert(
            s.remove(i).last().path@,
            s.remove(i).last().expiration,
        ));
        assert(s[i].path@ != s.last().path@);
        assert(entries_map(s.drop_last()).remove(k).insert(s.last().path@, s.last().expiration)
            =~= entries_map(s.drop_last()).insert(s.last().path@, s.last().expiration).remove(k));
    }
}

/// The registry map with every path within `dir`'s subtree dropped.
pub open spec fn prefix_removed(m: Map<Seq<Seq<u8>>, Timestamp>, dir: Seq<Seq<u8>>) -> Map<
    Seq<Seq<u8>>,
    Timestamp,
> {
    Map::new(|k: Seq<Seq<u8>>| m.contains_key(k) && !in_subtree(dir, k), |k: Seq<Seq<u8>>| m[k])
}

/// Whether the paths in `s` include the path `k`.
pub open spec fn paths_contain(s: Seq<CanonPath>, k: Seq<Seq<u8>>) -> bool {
    exists|j: int| 0 <= j < s.len() && s[j]@ == k
}

/// The registry map after a sweep at `now` whose deletions succeeded exactly
/// for the paths in `deleted`: every expired entry whose file was deleted is
/// evicted; every other entry keeps its expiration.
pub open spec fn swept(
    m: Map<Seq<Seq<u8>>, Timestamp>,
    now: Timestamp,
    deleted: Seq<CanonPath>,
) -> Map<Seq<Seq<u8>>, Timestamp> {
    Map::new(
        |k: Seq<Seq<u8>>|
            m.contains_key(k) && !(m[k].as_nanos() < now.as_nanos() && paths_contain(deleted, k)),
        |k: Seq<Seq<u8>>| m[k],
    )
}

/// The registry map after observing a file at `path` created at `created`:
/// where the path encodes a TTL the file is tracked with expiration
/// creation-time-plus-TTL; where it encodes none the registry is untouched.
pub open spec fn added(
    m: Map<Seq<Seq<u8>>, Timestamp>,
    path: Seq<Seq<u8>>,
    created: Timestamp,
) -> Map<Seq<Seq<u8>>, Timestamp> {
    match path_ttl(path) {
        Some(t) => m.insert(path, expiration_of(created, t)),
        None => m,
    }
}

/// The expiration registry: a mapping from canonical file path to the
/// absolute instant the file expires.
pub struct Registry {
    entries: Vec<Entry>,
}

impl View for Registry {
    type V = Map<Seq<Seq<u8>>, Timestamp>;

    closed spec fn view(&self) -> Map<Seq<Seq<u8>>, Timestamp> {
        entries_map(self.entries@)
    }
}

impl Registry {
    /// Each path is tracked at most once, with a well-formed expiration.
    pub closed spec fn wf(&self) -> bool {
        unique_paths(self.entries@) && wf_expirations(self.entries@)
    }

    /// An empty registry.
    pub fn new() -> (r: Registry)
        ensures
            r.wf(),
            r@ == Map::<Seq<Seq<u8>>, Timestamp>::empty(),
    {
        Registry { entries: Vec::new() }
    }

    fn find_index(&self, path: &CanonPath) -> (r: Option<usize>)
        ensures
            match r {
                Some(i) => i < self.entries@.len() && self.entries@[i as int].path@ == path@,
                None => forall|i: int|
                    0 <= i < self.entries@.len() ==> (#[trigger] self.entries@[i]).path@ != path@,
            },
    {
        let mut i: usize = 0;
        while i < self.entries.len()
            invariant
                i <= self.entries@.len(),
                forall|j: int| 0 <= j < i ==> (#[trigger] self.entries@[j]).path@ != path@,
            decreases self.entries@.len() - i,
        {
            if path_eq(&self.entries[i].path, path) {
                return Some(i);
            }
            i += 1;
        }
        None
    }

    /// The tracked expiration for a path, or `None` where it is untracked.
    pub fn get(&self, path: &CanonPath) -> (r: Option<Timestamp>)
        requires
            self.wf(),
        ensures
            r == if self@.contains_key(path@) {
                Some(self@[path@])
            } else {
                None::<Timestamp>
            },
    {
        match self.find_index(path) {
            Some(i) => {
                proof {
                    lemma_entries_map_value(self.entries@, i as int);
                }
                Some(self.entries[i].expiration)
            },
            None => {
                proof {
                    lemma_entries_map_contains(self.entries@, path@);
                }
                None
            },
        }
    }

    /// How many files are tracked.
    pub fn len(&self) -> (r: usize)
        requires
            self.wf(),
        ensures
            r == self@.dom().len(),
    {
        proof {
            lemma_entries_map_len(self.entries@);
        }
        self.entries.len()
    }

    /// Stop tracking a path; a no-op where the path is untracked.
    pub fn remove(&mut self, path: &CanonPath)
        requires
            old(self).wf(),
        ensures
            final(self).wf(),
            final(self)@ == old(self)@.remove(path@),
    {
        match self.find_index(path) {
            Some(i) => {
                proof {
                    lemma_entries_map_remove(self.entries@, i as int);
                    lemma_entries_remove_wf(self.entries@, i as int);
                }
                self.entries.remove(i);
            },
            None => {
                proof {
                    lemma_entries_map_contains(self.entries@, path@);
                    assert(self@.remove(path@) =~= self@);
                }
            },
        }
    }

    /// Track a path with the given expiration; a later call for the same
    /// path overwrites the expiration of an earlier one.
    pub fn insert_or_replace(&mut self, path: CanonPath, expiration: Timestamp)
        requires
            old(self).wf(),
            expiration.wf(),
        ensures
            final(self).wf(),
            final(self)@ == old(self)@.insert(path@, expiration),
    {
        self.remove(&path);
        let ghost mid = self.entries@;
        proof {
            lemma_entries_map_contains(mid, path@);
            assert(!entries_map(mid).contains_key(path@));
        }
        self.entries.push(Entry { path, expiration });
        proof {
            assert(self.entries@.drop_last() =~= mid);
            assert(entries_map(self.entries@) == entries_map(mid).insert(path@, expiration));
            assert(self@ =~= old(self)@.insert(path@, expiration));
            assert forall|a: int, b: int|
                0 <= a < b < self.entries@.len() implies self.entries@[a].path@
                != self.entries@[b].path@ by {
                if b == self.entries@.len() - 1 {
                    assert(self.entries@[a] == mid[a]);
                } else {
                    assert(self.entries@[a] == mid[a]);
                    assert(self.entries@[b] == mid[b]);
                }
            }
            assert forall|a: int|
                0 <= a < self.entries@.len() implies (#[trigger] self.entries@[a].expiration).wf() by {
                if a < self.entries@.len() - 1 {
                    assert(self.entries@[a] == mid[a]);
                }
            }
        }
    }

    /// Stop tracking every path within the subtree rooted at `dir`, and
    /// only those: a sibling whose name merely shares a string prefix with
    /// `dir` is untouched.
    #[verifier::rlimit(30)]
    pub fn remove_prefix(&mut self, dir: &CanonPath)
        requires
            old(self).wf(),
        ensures
            final(self).wf(),
            final(self)@ == prefix_removed(old(self)@, dir@),
            forall|k: Seq<Seq<u8>>| #[trigger]
                final(self)@.contains_key(k) <==> (old(self)@.contains_key(k) && !in_subtree(
                    dir@,
                    k,
                )),
            forall|k: Seq<Seq<u8>>| #[trigger]
                final(self)@.contains_key(k) ==> final(self)@[k] == old(self)@[k],
    {
        let ghost s0 = self.entries@;
        let mut kept: Vec<Entry> = Vec::new();
        let mut i: usize = 0;
        proof {
            assert(s0.take(0) =~= Seq::<Entry>::empty());
            assert(entries_map(kept@) =~= prefix_removed(entries_map(s0.take(0)), dir@));
        }
        while i < self.entries.len()
            invariant
                self.entries@ == s0,
                unique_paths(s0),
                wf_expirations(s0),
                i <= s0.len(),
                unique_paths(kept@),
                wf_expirations(kept@),
                entries_map(kept@) == prefix_removed(entries_map(s0.take(i as int)), dir@),
            decreases s0.len() - i,
        {
            let e = &self.entries[i];
            let ghost kept0 = kept@;
            let ghost ip = i as int;
            let ghost k = s0[ip].path@;
            proof {
                assert(s0.take(ip + 1).drop_last() =~= s0.take(ip));
                assert(s0.take(ip + 1).last() == s0[ip]);
                lemma_entries_map_contains(s0.take(ip), k);
                assert(!entries_map(s0.take(ip)).contains_key(k)) by {
                    if exists|l: int| 0 <= l < s0.take(ip).len() && s0.take(ip)[l].path@ == k {
                        let l = choose|l: int|
                            0 <= l < s0.take(ip).len() && s0.take(ip)[l].path@ == k;
                        assert(s0[l].path@ == s0[ip].path@);
                    }
                }
                assert(entries_map(s0.take(ip + 1)) == entries_map(s0.take(ip)).insert(
                    k,
                    s0[ip].expiration,
                ));
                lemma_entries_map_contains(kept0, k);
            }
            if !path_in_dir(&e.path, dir) {
                kept.push(Entry { path: e.path.clone(), expiration: e.expiration });
                proof {
                    assert(kept@.drop_last() =~= kept0);
                    assert(entries_map(kept@) == entries_map(kept0).insert(k, s0[ip].expiration));
                    assert forall|a: int, b: int|
                        0 <= a < b < kept@.len() implies kept@[a].path@ != kept@[b].path@ by {
                        if b == kept@.len() - 1 {
                            assert(kept@[a] == kept0[a]);
                            assert(kept0[a].path@ != k);
                        } else {
                            assert(kept@[a] == kept0[a]);
                            assert(kept@[b] == kept0[b]);
                        }
                    }
                    assert forall|a: int|
                        0 <= a < kept@.len() implies (#[trigger] kept@[a].expiration).wf() by {
                        if a < kept@.len() - 1 {
                            assert(kept@[a] == kept0[a]);
                        } else {
                            assert(kept@[a].expiration == s0[ip].expiration);
                        }
                    }
                    assert(entries_map(kept@) =~= prefix_removed(
                        entries_map(s0.take(ip + 1)),
                        dir@,
                    ));
                }
            } else {
                proof {
                    assert(in_subtree(dir@, k));
                    assert(entries_map(kept@) =~= prefix_removed(
                        entries_map(s0.take(ip + 1)),
                        dir@,
                    ));
                }
            }
            i += 1;
        }
        proof {
            assert(s0.take(s0.len() as int) =~= s0);
        }
        self.entries = kept;
    }

    /// The paths due for deletion at `now`: exactly the tracked paths whose
    /// expiration lies strictly before `now`, each listed once.
    #[verifier::rlimit(30)]
    pub fn sweep_candidates(&self, now: &Timestamp) -> (r: Vec<CanonPath>)
        requires
            self.wf(),
            now.wf(),
        ensures
            forall|j: int|
                0 <= j < r@.len() ==> self@.contains_key((#[trigger] r@[j])@)
                    && self@[r@[j]@].as_nanos() < now.as_nanos(),
            forall|k: Seq<Seq<u8>>|
                self@.contains_key(k) && self@[k].as_nanos() < now.as_nanos() ==> paths_contain(
                    r@,
                    k,
                ),
            forall|j1: int, j2: int| 0 <= j1 < j2 < r@.len() ==> r@[j1]@ != r@[j2]@,
    {
        let ghost s0 = self.entries@;
        let mut r: Vec<CanonPath> = Vec::new();
        let mut i: usize = 0;
        proof {
            assert(s0.take(0) =~= Seq::<Entry>::empty());
        }
        while i < self.entries.len()
            invariant
                self.entries@ == s0,
                unique_paths(s0),
                wf_expirations(s0),
                now.wf(),
                i <= s0.len(),
                forall|j: int| #![trigger r@[j]]
                    0 <= j < r@.len() ==> entries_map(s0.take(i as int)).contains_key(r@[j]@)
                        && entries_map(s0.take(i as int))[r@[j]@].as_nanos() < now.as_nanos(),
                forall|j1: int, j2: int| 0 <= j1 < j2 < r@.len() ==> r@[j1]@ != r@[j2]@,
                forall|k: Seq<Seq<u8>>| #![trigger entries_map(s0.take(i as int)).contains_key(k)]
                    entries_map(s0.take(i as int)).contains_key(k) && entries_map(
                        s0.take(i as int),
                    )[k].as_nanos() < now.as_nanos() ==> paths_contain(r@, k),
            decreases s0.len() - i,
        {
            let e = &self.entries[i];
            let ghost r0 = r@;
            let ghost ip = i as int;
            let ghost k = s0[ip].path@;
            proof {
                assert(s0.take(ip + 1).drop_last() =~= s0.take(ip));
                assert(s0.take(ip + 1).last() == s0[ip]);
                assert(entries_map(s0.take(ip + 1)) == entries_map(s0.take(ip)).insert(
                    k,
                    s0[ip].expiration,
                ));
                lemma_entries_map_contains(s0.take(ip), k);
                assert(!entries_map(s0.take(ip)).contains_key(k)) by {
                    if exists|l: int| 0 <= l < s0.take(ip).len() && s0.take(ip)[l].path@ == k {
                        let l = choose|l: int|
                            0 <= l < s0.take(ip).len() && s0.take(ip)[l].path@ == k;
                        assert(s0[l].path@ == s0[ip].path@);
                    }
                }
            }
            if e.expiration.before(now) {
                r.push(e.path.clone());
                proof {
                    assert forall|j: int| #![trigger r@[j]]
                        0 <= j < r@.len() implies entries_map(s0.take(ip + 1)).contains_key(r@[j]@)
                        && entries_map(s0.take(ip + 1))[r@[j]@].as_nanos() < now.as_nanos() by {
                        if j < r0.len() {
                            assert(r@[j] == r0[j]);
                            assert(entries_map(s0.take(ip)).contains_key(r0[j]@));
                            assert(r0[j]@ != k);
                        } else {
                            assert(r@[j]@ == k);
                        }
                    }
                    assert forall|j1: int, j2: int|
                        0 <= j1 < j2 < r@.len() implies r@[j1]@ != r@[j2]@ by {
                        if j2 == r@.len() - 1 {
                            assert(r@[j1] == r0[j1]);
                            assert(entries_map(s0.take(ip)).contains_key(r0[j1]@));
                            assert(r@[j2]@ == k);
                        } else {
                            assert(r@[j1] == r0[j1]);
                            assert(r@[j2] == r0[j2]);
                        }
                    }
                }
            }
            proof {
                assert forall|k2: Seq<Seq<u8>>|
                    #![trigger entries_map(s0.take(ip + 1)).contains_key(k2)]
                    entries_map(s0.take(ip + 1)).contains_key(k2) && entries_map(
                        s0.take(ip + 1),
                    )[k2].as_nanos() < now.as_nanos() implies paths_contain(r@, k2) by {
                    if k2 == k {
                        if s0[ip].expiration.as_nanos() < now.as_nanos() {
                            assert(r@[r@.len() - 1]@ == k);
                        }
                    } else {
                        assert(entries_map(s0.take(ip)).contains_key(k2));
                        let j = choose|j: int| 0 <= j < r0.len() && r0[j]@ == k2;
                        assert(r@[j] == r0[j]);
                        assert(0 <= j < r@.len() && r@[j]@ == k2);
                    }
                }
            }
            i += 1;
        }
        proof {
            assert(s0.take(s0.len() as int) =~= s0);
        }
        r
    }

    /// Apply one sweep at `now`, given the paths whose files were actually
    /// deleted: exactly the expired entries among `deleted` are evicted; an
    /// entry whose deletion failed stays, with unchanged expiration, to be
    /// retried by a later sweep. Returns how many entries were evicted.
    #[verifier::rlimit(30)]
    pub fn sweep(&mut self, now: &Timestamp, deleted: &Vec<CanonPath>) -> (count: usize)
        requires
            old(self).wf(),
            now.wf(),
        ensures
            final(self).wf(),
            final(self)@ == swept(old(self)@, *now, deleted@),
            forall|k: Seq<Seq<u8>>| #[trigger]
                final(self)@.contains_key(k) <==> (old(self)@.contains_key(k) && !(
                old(self)@[k].as_nanos() < now.as_nanos() && paths_contain(deleted@, k))),
            forall|k: Seq<Seq<u8>>| #[trigger]
                final(self)@.contains_key(k) ==> final(self)@[k] == old(self)@[k],
            count + final(self)@.dom().len() == old(self)@.dom().len(),
    {
        let ghost s0 = self.entries@;
        let mut kept: Vec<Entry> = Vec::new();
        let mut i: usize = 0;
        proof {
            assert(s0.take(0) =~= Seq::<Entry>::empty());
            assert(entries_map(kept@) =~= swept(entries_map(s0.take(0)), *now, deleted@));
        }
        while i < self.entries.len()
            invariant
                self.entries@ == s0,
                unique_paths(s0),
                wf_expirations(s0),
                now.wf(),
                i <= s0.len(),
                kept@.len() <= i,
                unique_paths(kept@),
                wf_expirations(kept@),
                entries_map(kept@) == swept(entries_map(s0.take(i as int)), *now, deleted@),
            decreases s0.len() - i,
        {
            let e = &self.entries[i];
            let expired = e.expiration.before(now);
            let in_deleted = contains_path(deleted, &e.path);
            let ghost kept0 = kept@;
            let ghost ip = i as int;
            let ghost k = s0[ip].path@;
            proof {
                assert(s0.take(ip + 1).drop_last() =~= s0.take(ip));
                assert(s0.take(ip + 1).last() == s0[ip]);
                lemma_entries_map_contains(s0.take(ip), k);
                assert(!entries_map(s0.take(ip)).contains_key(k)) by {
                    if exists|l: int| 0 <= l < s0.take(ip).len() && s0.take(ip)[l].path@ == k {
                        let l = choose|l: int|
                            0 <= l < s0.take(ip).len() && s0.take(ip)[l].path@ == k;
                        assert(s0[l].path@ == s0[ip].path@);
                    }
                }
                assert(entries_map(s0.take(ip + 1)) == entries_map(s0.take(ip)).insert(
                    k,
                    s0[ip].expiration,
                ));
                lemma_entries_map_contains(kept0, k);
            }
            if !(expired && in_deleted) {
                kept.push(Entry { path: e.path.clone(), expiration: e.expiration });
                proof {
                    assert(kept@.drop_last() =~= kept0);
                    assert(entries_map(kept@) == entries_map(kept0).insert(k, s0[ip].expiration));
                    assert forall|a: int, b: int|
                        0 <= a < b < kept@.len() implies kept@[a].path@ != kept@[b].path@ by {
                        if b == kept@.len() - 1 {
                            assert(kept@[a] == kept0[a]);
                            assert(kept0[a].path@ != k);
                        } else {
                            assert(kept@[a] == kept0[a]);
                            assert(kept@[b] == kept0[b]);
                        }
                    }
                    assert forall|a: int|
                        0 <= a < kept@.len() implies (#[trigger] kept@[a].expiration).wf() by {
                        if a < kept@.len() - 1 {
                            assert(kept@[a] == kept0[a]);
                        } else {
                            assert(kept@[a].expiration == s0[ip].expiration);
                        }
                    }
                    assert(entries_map(kept@) =~= swept(
                        entries_map(s0.take(ip + 1)),
                        *now,
                        deleted@,
                    ));
                }
            } else {
                proof {
                    assert(s0[ip].expiration.as_nanos() < now.as_nanos());
                    assert(paths_contain(deleted@, k));
                    assert(entries_map(kept@) =~= swept(
                        entries_map(s0.take(ip + 1)),
                        *now,
                        deleted@,
                    ));
                }
            }
            i += 1;
        }
        let count = self.entries.len() - kept.len();
        proof {
            assert(s0.take(s0.len() as int) =~= s0);
            lemma_entries_map_len(s0);
            lemma_entries_map_len(kept@);
        }
        self.entries = kept;
        count
    }

    /// Observe one file with its creation time: extract the TTL from its
    /// path and track the file; a file with no TTL anywhere in its path is
    /// never tracked. Returns whether the file is tracked afterwards.
    pub fn add_file(&mut self, path: CanonPath, created: &Timestamp) -> (r: bool)
        requires
            old(self).wf(),
            created.wf(),
        ensures
            final(self).wf(),
            final(self)@ == added(old(self)@, path@, *created),
            r == (path_ttl(path@) is Some),
    {
        match find_ttl(&path) {
            Some(t) => {
                let exp = add_ttl(created, &t);
                self.insert_or_replace(path, exp);
                true
            },
            None => false,
        }
    }
}

/// Whether `s` holds the path `p`.
pub fn contains_path(s: &Vec<CanonPath>, p: &CanonPath) -> (r: bool)
    ensures
        r == paths_contain(s@, p@),
{
    let mut i: usize = 0;
    while i < s.len()
        invariant
            i <= s@.len(),
            forall|j: int| 0 <= j < i ==> (#[trigger] s@[j])@ != p@,
        decreases s@.len() - i,
    {
        if path_eq(&s[i], p) {
            return true;
        }
        i += 1;
    }
    false
}

/// Idempotence law: tracking the same path with the same expiration twice
/// leaves the registry exactly as tracking it once does.
pub proof fn lemma_insert_idempotent(
    m: Map<Seq<Seq<u8>>, Timestamp>,
    path: Seq<Seq<u8>>,
    expiration: Timestamp,
)
    ensures
        m.insert(path, expiration).insert(path, expiration) == m.insert(path, expiration),
{
    assert(m.insert(path, expiration).insert(path, expiration) =~= m.insert(path, expiration));
}

/// Subtree-removal law: dropping a directory's subtree removes all and only
/// the entries whose canonical path lies within it; every other entry keeps
/// its expiration.
pub proof fn lemma_prefix_removed_exact(m: Map<Seq<Seq<u8>>, Timestamp>, dir: Seq<Seq<u8>>)
    ensures
        forall|k: Seq<Seq<u8>>| #[trigger]
            prefix_removed(m, dir).contains_key(k) <==> (m.contains_key(k) && !in_subtree(dir, k)),
        forall|k: Seq<Seq<u8>>| #[trigger]
            prefix_removed(m, dir).contains_key(k) ==> prefix_removed(m, dir)[k] == m[k],
{
}

/// Lifecycle law: a file whose path encodes the TTL `t`, observed at its
/// creation time `created`, is tracked with expiration exactly `created`
/// plus `t`; a sweep strictly after that instant whose deletion of the file
/// succeeded evicts the entry, while a sweep at or before it leaves the
/// entry tracked with its expiration unchanged.
pub proof fn lemma_observe_then_sweep(
    m: Map<Seq<Seq<u8>>, Timestamp>,
    path: Seq<Seq<u8>>,
    created: Timestamp,
    t: Ttl,
    late: Timestamp,
    early: Timestamp,
    deleted: Seq<CanonPath>,
)
    requires
        path_ttl(path) == Some(t),
        expiration_of(created, t).as_nanos() < late.as_nanos(),
        !(expiration_of(created, t).as_nanos() < early.as_nanos()),
        paths_contain(deleted, path),
    ensures
        added(m, path, created).contains_key(path),
        added(m, path, created)[path] == expiration_of(created, t),
        !swept(added(m, path, created), late, deleted).contains_key(path),
        swept(added(m, path, created), early, deleted).contains_key(path),
        swept(added(m, path, created), early, deleted)[path] == expiration_of(created, t),
{
}

/// Sweep law: a sweep at `now` whose deletions succeeded exactly for the
/// paths in `deleted` evicts exactly the entries that are expired at `now`
/// and were deleted; an entry whose deletion failed stays, with unchanged
/// expiration.
pub proof fn lemma_swept_exact(
    m: Map<Seq<Seq<u8>>, Timestamp>,
    now: Timestamp,
    deleted: Seq<CanonPath>,
)
    ensures
        forall|k: Seq<Seq<u8>>| #[trigger]
            swept(m, now, deleted).contains_key(k) <==> (m.contains_key(k) && !(m[k].as_nanos()
                < now.as_nanos() && paths_contain(deleted, k))),
        forall|k: Seq<Seq<u8>>| #[trigger]
            swept(m, now, deleted).contains_key(k) ==> swept(m, now, deleted)[k] == m[k],
{
}

} // verus!
