//! An ordered map from paths to paths, kept as a vector of entries in strictly
//! ascending order of their keys.

use crate::order::{
    lemma_path_before_irreflexive, lemma_path_before_transitive, path_before, rank, Rank,
};
use vstd::prelude::*;

verus! {

/// The keys of `s` stand in strictly ascending order.
pub open spec fn ascending(s: Seq<(Seq<char>, Seq<char>)>) -> bool {
    forall|i: int, j: int| 0 <= i < j < s.len() ==> path_before(#[trigger] s[i].0, #[trigger] s[j].0)
}

/// Some entry of `s` has the key `key`.
pub open spec fn holds_key(s: Seq<(Seq<char>, Seq<char>)>, key: Seq<char>) -> bool {
    exists|i: int| 0 <= i < s.len() && (#[trigger] s[i]).0 == key
}

/// The index of an entry of `s` with the key `key`.
pub open spec fn index_of_key(s: Seq<(Seq<char>, Seq<char>)>, key: Seq<char>) -> int {
    choose|i: int| 0 <= i < s.len() && (#[trigger] s[i]).0 == key
}

/// The map that a sequence of entries stands for.
pub open spec fn entries_map(s: Seq<(Seq<char>, Seq<char>)>) -> Map<Seq<char>, Seq<char>> {
    Map::new(|k: Seq<char>| holds_key(s, k), |k: Seq<char>| s[index_of_key(s, k)].1)
}

/// What a vector of entries holds, as plain sequences of characters.
pub open spec fn entry_views(v: Seq<(String, String)>) -> Seq<(Seq<char>, Seq<char>)> {
    v.map_values(|e: (String, String)| (e.0@, e.1@))
}

/// In an ascending sequence every entry is the one that the map has for its key.
pub proof fn lemma_entries_map(s: Seq<(Seq<char>, Seq<char>)>)
    requires
        ascending(s),
    ensures
        forall|i: int|
            0 <= i < s.len() ==> entries_map(s).contains_key((#[trigger] s[i]).0) && entries_map(
                s,
            )[s[i].0] == s[i].1,
        forall|k: Seq<char>| entries_map(s).contains_key(k) <==> holds_key(s, k),
{
    assert forall|i: int| 0 <= i < s.len() implies entries_map(s).contains_key(
        (#[trigger] s[i]).0,
    ) && entries_map(s)[s[i].0] == s[i].1 by {
        let k = s[i].0;
        assert(holds_key(s, k));
        let j = index_of_key(s, k);
        lemma_path_before_irreflexive(k);
        if j < i {
            assert(path_before(s[j].0, s[i].0));
        } else if i < j {
            assert(path_before(s[i].0, s[j].0));
        }
    }
}

/// The order of the walk is fixed by what the map holds: two ascending
/// sequences of entries that stand for the same map are the same sequence.
pub proof fn lemma_entries_determined(
    a: Seq<(Seq<char>, Seq<char>)>,
    b: Seq<(Seq<char>, Seq<char>)>,
)
    requires
        ascending(a),
        ascending(b),
        entries_map(a) == entries_map(b),
    ensures
        a == b,
    decreases a.len(),
{
    lemma_entries_map(a);
    lemma_entries_map(b);
    if a.len() == 0 {
        if b.len() > 0 {
            assert(entries_map(b).contains_key(b[0].0));
            assert(holds_key(a, b[0].0));
        }
        assert(a =~= b);
    } else {
        let x = a.last();
        assert(entries_map(a).contains_key(a[a.len() - 1].0));
        assert(holds_key(b, x.0));
        let j = index_of_key(b, x.0);
        let y = b.last();
        assert(entries_map(b).contains_key(b[b.len() - 1].0));
        assert(holds_key(a, y.0));
        let i = index_of_key(a, y.0);
        lemma_path_before_irreflexive(x.0);
        lemma_path_before_irreflexive(y.0);
        if j < b.len() - 1 {
            assert(path_before(b[j].0, b[b.len() - 1].0));
            if i < a.len() - 1 {
                assert(path_before(a[i].0, a[a.len() - 1].0));
                lemma_path_before_transitive(x.0, y.0, x.0);
            }
        }
        assert(x.0 == y.0);
        assert(entries_map(a)[a[a.len() - 1].0] == x.1);
        assert(entries_map(b)[b[b.len() - 1].0] == y.1);
        assert(x == y);
        let a0 = a.drop_last();
        let b0 = b.drop_last();
        lemma_entries_map(a0);
        lemma_entries_map(b0);
        assert forall|k: Seq<char>| holds_key(a0, k) <==> holds_key(b0, k) by {
            if holds_key(a0, k) {
                let m = index_of_key(a0, k);
                assert(a[m].0 == k);
                assert(path_before(a[m].0, a[a.len() - 1].0));
                assert(entries_map(a).contains_key(a[m].0));
                let n = index_of_key(b, k);
                assert(holds_key(b, k));
                assert(b0[n].0 == k);
            }
            if holds_key(b0, k) {
                let m = index_of_key(b0, k);
                assert(b[m].0 == k);
                assert(path_before(b[m].0, b[b.len() - 1].0));
                assert(entries_map(b).contains_key(b[m].0));
                let n = index_of_key(a, k);
                assert(holds_key(a, k));
                assert(a0[n].0 == k);
            }
        }
        assert forall|k: Seq<char>| holds_key(a0, k) implies entries_map(a0)[k] == entries_map(
            b0,
        )[k] by {
            let m = index_of_key(a0, k);
            let n = index_of_key(b0, k);
            assert(a[m] == a0[m]);
            assert(b[n] == b0[n]);
            assert(entries_map(a)[a[m].0] == a[m].1);
            assert(entries_map(b)[b[n].0] == b[n].1);
            assert(entries_map(a0)[a0[m].0] == a0[m].1);
            assert(entries_map(b0)[b0[n].0] == b0[n].1);
        }
        assert(entries_map(a0) =~= entries_map(b0));
        lemma_entries_determined(a0, b0);
        assert(a =~= a0.push(x));
        assert(b =~= b0.push(y));
    }
}

/// An ordered map from paths to paths. Walking it yields the entries in ascending
/// order of their keys, each key once.
#[derive(Debug, PartialEq, Eq)]
pub struct PathMap {
    entries: Vec<(String, String)>,
}

impl View for PathMap {
    type V = Map<Seq<char>, Seq<char>>;

    open spec fn view(&self) -> Map<Seq<char>, Seq<char>> {
        entries_map(self.entries())
    }
}

impl PathMap {
    #[verifier::type_invariant]
    spec fn sorted(&self) -> bool {
        ascending(entry_views(self.entries@))
    }

    /// The entries in the order in which the map is walked.
    pub closed spec fn entries(&self) -> Seq<(Seq<char>, Seq<char>)> {
        entry_views(self.entries@)
    }

    /// The empty map.
    pub fn new() -> (r: Self)
        ensures
            r.entries() == Seq::<(Seq<char>, Seq<char>)>::empty(),
            r@ == Map::<Seq<char>, Seq<char>>::empty(),
    {
        let r = PathMap { entries: Vec::new() };
        assert(r.entries() =~= Seq::empty());
        assert(r@ =~= Map::empty());
        r
    }

    /// The number of entries. The entries stand in strictly ascending order of
    /// their keys.
    pub fn len(&self) -> (n: usize)
        ensures
            n == self.entries().len(),
            ascending(self.entries()),
    {
        proof {
            use_type_invariant(self);
        }
        self.entries.len()
    }

    /// The entry at place `i` of the walk.
    pub fn entry(&self, i: usize) -> (e: (&String, &String))
        requires
            i < self.entries().len(),
        ensures
            (e.0@, e.1@) == self.entries()[i as int],
    {
        let pair = &self.entries[i];
        (&pair.0, &pair.1)
    }

    /// Where `key` stands among the entries: the number of entries whose keys come
    /// before it, and whether the entry at that place has this key.
    fn position(&self, key: &str) -> (r: (usize, bool))
        ensures
            r.0 <= self.entries().len(),
            forall|i: int| 0 <= i < r.0 ==> path_before((#[trigger] self.entries()[i]).0, key@),
            r.1 ==> r.0 < self.entries().len() && self.entries()[r.0 as int].0 == key@,
            !r.1 ==> !holds_key(self.entries(), key@),
            !r.1 && r.0 < self.entries().len() ==> path_before(key@, self.entries()[r.0 as int].0),
    {
        proof {
            use_type_invariant(self);
        }
        let ghost s = self.entries();
        let mut i: usize = 0;
        while i < self.entries.len()
            invariant
                i <= self.entries@.len(),
                s == entry_views(self.entries@),
                ascending(s),
                forall|j: int| 0 <= j < i ==> path_before((#[trigger] s[j]).0, key@),
            decreases self.entries@.len() - i,
        {
            match rank(self.entries[i].0.as_str(), key) {
                Rank::Before => {},
                Rank::Same => {
                    return (i, true);
                },
                Rank::After => {
                    proof {
                        lemma_path_before_irreflexive(key@);
                        assert forall|j: int| 0 <= j < s.len() implies (#[trigger] s[j]).0
                            != key@ by {
                            if j > i {
                                assert(path_before(s[i as int].0, s[j].0));
                                lemma_path_before_transitive(key@, s[i as int].0, s[j].0);
                            }
                        }
                    }
                    return (i, false);
                },
            }
            i += 1;
        }
        proof {
            lemma_path_before_irreflexive(key@);
        }
        (i, false)
    }

    /// The value that the map has for `key`, if it has one.
    pub fn get(&self, key: &str) -> (r: Option<&String>)
        ensures
            match r {
                Some(v) => self@.contains_key(key@) && self@[key@] == v@,
                None => !self@.contains_key(key@),
            },
    {
        proof {
            use_type_invariant(self);
            lemma_entries_map(self.entries());
        }
        let (p, found) = self.position(key);
        if found {
            Some(&self.entries[p].1)
        } else {
            None
        }
    }

    /// Sets the value for `key`, in place of the one that the map had for it, if any.
    pub fn insert(&mut self, key: String, value: String)
        ensures
            final(self)@ == old(self)@.insert(key@, value@),
    {
        proof {
            use_type_invariant(&*self);
        }
        let ghost before = self.entries();
        let (p, found) = self.position(key.as_str());
        let ghost k = key@;
        let ghost v = value@;
        let mut entries: Vec<(String, String)> = Vec::new();
        std::mem::swap(&mut entries, &mut self.entries);
        if found {
            let _ = entries.remove(p);
        }
        entries.insert(p, (key, value));
        proof {
            let after = entry_views(entries@);
            let shift: int = if found { 0 } else { 1 };
            assert(after.len() == before.len() + shift);
            assert(forall|i: int| 0 <= i < p ==> after[i] == before[i]);
            assert(after[p as int] == (k, v));
            assert(forall|i: int| p < i < after.len() ==> after[i] == before[i - shift]);
            assert forall|i: int, j: int| 0 <= i < j < after.len() implies path_before(
                (#[trigger] after[i]).0,
                (#[trigger] after[j]).0,
            ) by {
                if j == p {
                    assert(path_before(before[i].0, k));
                } else if i == p {
                    if found {
                        assert(path_before(before[p as int].0, before[j].0));
                    } else {
                        assert(path_before(k, before[p as int].0));
                        if j - 1 > p {
                            assert(path_before(before[p as int].0, before[j - 1].0));
                            lemma_path_before_transitive(k, before[p as int].0, before[j - 1].0);
                        }
                    }
                } else {
                    let a = if i < p { i } else { i - shift };
                    let b = if j < p { j } else { j - shift };
                    assert(path_before(before[a].0, before[b].0));
                }
            }
            lemma_entries_map(before);
            lemma_entries_map(after);
            assert forall|x: Seq<char>| holds_key(after, x) <==> (x == k || holds_key(
                before,
                x,
            )) by {
                if holds_key(after, x) {
                    let i = index_of_key(after, x);
                    if i < p {
                        assert(before[i].0 == x);
                    } else if i > p {
                        assert(before[i - shift].0 == x);
                    }
                }
                if x == k {
                    assert(after[p as int].0 == x);
                } else if holds_key(before, x) {
                    let i = index_of_key(before, x);
                    if i < p {
                        assert(after[i].0 == x);
                    } else {
                        assert(after[i + shift].0 == x);
                    }
                }
            }
            assert forall|x: Seq<char>| holds_key(before, x) && x != k implies entries_map(
                after,
            )[x] == entries_map(before)[x] by {
                let i = index_of_key(before, x);
                if i < p {
                    assert(after[i] == before[i]);
                } else {
                    assert(after[i + shift] == before[i]);
                }
            }
            assert(entries_map(after)[k] == v);
            assert(entries_map(after) =~= entries_map(before).insert(k, v));
        }
        self.entries = entries;
    }

    /// Takes the entry for `key` out of the map, if it has one.
    pub fn remove(&mut self, key: &str)
        ensures
            final(self)@ == old(self)@.remove(key@),
    {
        proof {
            use_type_invariant(&*self);
        }
        let ghost before = self.entries();
        let (p, found) = self.position(key);
        if found {
            let mut entries: Vec<(String, String)> = Vec::new();
            std::mem::swap(&mut entries, &mut self.entries);
            let _ = entries.remove(p);
            proof {
                let after = entry_views(entries@);
                assert(after.len() == before.len() - 1);
                assert(forall|i: int| 0 <= i < p ==> after[i] == before[i]);
                assert(forall|i: int| p <= i < after.len() ==> after[i] == before[i + 1]);
                assert forall|i: int, j: int| 0 <= i < j < after.len() implies path_before(
                    (#[trigger] after[i]).0,
                    (#[trigger] after[j]).0,
                ) by {
                    let a = if i < p { i } else { i + 1 };
                    let b = if j < p { j } else { j + 1 };
                    assert(path_before(before[a].0, before[b].0));
                }
                lemma_entries_map(before);
                lemma_entries_map(after);
                lemma_path_before_irreflexive(key@);
                assert forall|x: Seq<char>| holds_key(after, x) <==> (x != key@ && holds_key(
                    before,
                    x,
                )) by {
                    if holds_key(after, x) {
                        let i = index_of_key(after, x);
                        let a = if i < p { i } else { i + 1 };
                        assert(before[a].0 == x);
                        if a < p {
                            assert(path_before(before[a].0, before[p as int].0));
                        } else {
                            assert(path_before(before[p as int].0, before[a].0));
                        }
                    }
                    if x != key@ && holds_key(before, x) {
                        let i = index_of_key(before, x);
                        if i < p {
                            assert(after[i].0 == x);
                        } else {
                            assert(after[i - 1].0 == x);
                        }
                    }
                }
                assert forall|x: Seq<char>| holds_key(after, x) implies entries_map(after)[x]
                    == entries_map(before)[x] by {
                    let i = index_of_key(after, x);
                    let a = if i < p { i } else { i + 1 };
                    assert(after[i] == before[a]);
                }
                assert(entries_map(after) =~= entries_map(before).remove(key@));
            }
            self.entries = entries;
        } else {
            proof {
                lemma_entries_map(before);
                assert(entries_map(before) =~= entries_map(before).remove(key@));
            }
        }
    }
}

impl Clone for PathMap {
    fn clone(&self) -> (r: Self)
        ensures
            r.entries() == self.entries(),
            r@ == self@,
    {
        proof {
            use_type_invariant(self);
        }
        let mut entries: Vec<(String, String)> = Vec::new();
        let mut i: usize = 0;
        while i < self.entries.len()
            invariant
                i <= self.entries@.len(),
                entry_views(entries@) == entry_views(self.entries@).take(i as int),
            decreases self.entries@.len() - i,
        {
            let ghost before = entries@;
            entries.push((self.entries[i].0.clone(), self.entries[i].1.clone()));
            proof {
                let all = entry_views(self.entries@);
                assert(all.take(i + 1) =~= all.take(i as int).push(all[i as int]));
                assert(entry_views(entries@) =~= entry_views(before).push(all[i as int]));
            }
            i += 1;
        }
        proof {
            let all = entry_views(self.entries@);
            assert(all.take(i as int) =~= all);
        }
        PathMap { entries }
    }
}

} // verus!
