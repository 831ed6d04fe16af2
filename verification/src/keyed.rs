//! A small string-keyed map kept as a list of entries with distinct keys.
use vstd::prelude::*;

use crate::chars;

verus! {

/// The map that a list of entries with distinct keys stands for.
pub open spec fn entries_map<V>(e: Seq<(String, V)>) -> Map<Seq<char>, V> {
    Map::new(
        |k: Seq<char>| exists|i: int| 0 <= i < e.len() && (#[trigger] e[i]).0@ == k,
        |k: Seq<char>| e[choose|i: int| 0 <= i < e.len() && (#[trigger] e[i]).0@ == k].1,
    )
}

pub open spec fn keys_distinct<V>(e: Seq<(String, V)>) -> bool {
    forall|i: int, j: int|
        0 <= i < e.len() && 0 <= j < e.len() && i != j ==> (#[trigger] e[i]).0@ != (#[trigger] e[j]).0@
}

pub proof fn lemma_map_at<V>(e: Seq<(String, V)>, i: int)
    requires
        keys_distinct(e),
        0 <= i < e.len(),
    ensures
        entries_map(e).contains_key(e[i].0@),
        entries_map(e)[e[i].0@] == e[i].1,
{
    let k = e[i].0@;
    assert(0 <= i < e.len() && e[i].0@ == k);
    let j = choose|j: int| 0 <= j < e.len() && (#[trigger] e[j]).0@ == k;
    assert(j == i);
}

pub proof fn lemma_map_absent<V>(e: Seq<(String, V)>, k: Seq<char>)
    requires
        forall|i: int| 0 <= i < e.len() ==> (#[trigger] e[i]).0@ != k,
    ensures
        !entries_map(e).contains_key(k),
{
}

/// A string-keyed map.
pub struct KeyedList<V> {
    pub entries: Vec<(String, V)>,
}

impl<V> KeyedList<V> {
    pub open spec fn wf(&self) -> bool {
        keys_distinct(self.entries@)
    }

    pub open spec fn map(&self) -> Map<Seq<char>, V> {
        entries_map(self.entries@)
    }

    pub fn new() -> (r: Self)
        ensures
            r.wf(),
            r.entries@.len() == 0,
            r.map() == Map::<Seq<char>, V>::empty(),
    {
        let r = KeyedList { entries: Vec::new() };
        assert(r.map() =~= Map::<Seq<char>, V>::empty());
        r
    }

    /// The position of the entry for `k`.
    pub fn index_of(&self, k: &str) -> (r: Option<usize>)
        requires
            self.wf(),
        ensures
            match r {
                Some(i) => i < self.entries@.len() && self.entries@[i as int].0@ == k@,
                None => !self.map().contains_key(k@),
            },
    {
        let ks = chars::owned(k);
        let mut i: usize = 0;
        while i < self.entries.len()
            invariant
                i <= self.entries@.len(),
                ks@ == k@,
                forall|j: int| 0 <= j < i ==> (#[trigger] self.entries@[j]).0@ != k@,
            decreases self.entries.len() - i,
        {
            if self.entries[i].0 == ks {
                return Some(i);
            }
            i = i + 1;
        }
        proof {
            lemma_map_absent(self.entries@, k@);
        }
        None
    }

    pub fn get(&self, k: &str) -> (r: Option<&V>)
        requires
            self.wf(),
        ensures
            match r {
                Some(v) => self.map().contains_key(k@) && self.map()[k@] == *v,
                None => !self.map().contains_key(k@),
            },
    {
        match self.index_of(k) {
            Some(i) => {
                proof {
                    lemma_map_at(self.entries@, i as int);
                }
                Some(&self.entries[i].1)
            },
            None => None,
        }
    }

    /// Sets the value of `k`, adding the entry when it is new.
    pub fn insert(&mut self, k: String, v: V)
        requires
            old(self).wf(),
        ensures
            final(self).wf(),
            final(self).map() == old(self).map().insert(k@, v),
    {
        let ghost old_e = self.entries@;
        match self.index_of(k.as_str()) {
            Some(i) => {
                self.entries.set(i, (k, v));
                proof {
                    let e = self.entries@;
                    assert(keys_distinct(e)) by {
                        assert forall|a: int, b: int|
                            0 <= a < e.len() && 0 <= b < e.len() && a != b implies (
                        #[trigger] e[a]).0@ != (#[trigger] e[b]).0@ by {
                            assert(old_e[a].0@ == e[a].0@);
                            assert(old_e[b].0@ == e[b].0@);
                        }
                    }
                    lemma_update_map(old_e, e, i as int);
                }
            },
            None => {
                self.entries.push((k, v));
                proof {
                    let e = self.entries@;
                    assert(keys_distinct(e)) by {
                        assert forall|a: int, b: int|
                            0 <= a < e.len() && 0 <= b < e.len() && a != b implies (
                        #[trigger] e[a]).0@ != (#[trigger] e[b]).0@ by {
                            if a < old_e.len() && b < old_e.len() {
                                assert(e[a] == old_e[a]);
                                assert(e[b] == old_e[b]);
                            } else if a < old_e.len() {
                                assert(e[a] == old_e[a]);
                                assert(old_e[a].0@ != k@);
                            } else {
                                assert(e[b] == old_e[b]);
                                assert(old_e[b].0@ != k@);
                            }
                        }
                    }
                    lemma_push_map(old_e, e);
                }
            },
        }
    }

    /// Drops the entry of `k`, if there is one.
    pub fn remove(&mut self, k: &str)
        requires
            old(self).wf(),
        ensures
            final(self).wf(),
            final(self).map() == old(self).map().remove(k@),
    {
        let ghost old_e = self.entries@;
        match self.index_of(k) {
            Some(i) => {
                self.entries.remove(i);
                proof {
                    lemma_remove_map(old_e, self.entries@, i as int);
                }
            },
            None => {
                assert(old_e == self.entries@);
                assert(self.map() =~= old(self).map().remove(k@));
            },
        }
    }
}

pub proof fn lemma_update_map<V>(old_e: Seq<(String, V)>, e: Seq<(String, V)>, i: int)
    requires
        keys_distinct(old_e),
        keys_distinct(e),
        0 <= i < old_e.len(),
        e == old_e.update(i, e[i]),
        e[i].0@ == old_e[i].0@,
    ensures
        entries_map(e) == entries_map(old_e).insert(e[i].0@, e[i].1),
{
    let m = entries_map(old_e).insert(e[i].0@, e[i].1);
    assert forall|kk: Seq<char>| #[trigger] entries_map(e).contains_key(kk) <==> m.contains_key(kk) by {
        if entries_map(e).contains_key(kk) {
            let j = choose|j: int| 0 <= j < e.len() && (#[trigger] e[j]).0@ == kk;
            if j != i {
                lemma_map_at(old_e, j);
            }
        }
        if m.contains_key(kk) && kk != e[i].0@ {
            let j = choose|j: int| 0 <= j < old_e.len() && (#[trigger] old_e[j]).0@ == kk;
            lemma_map_at(e, j);
        }
        if kk == e[i].0@ {
            lemma_map_at(e, i);
        }
    }
    assert forall|kk: Seq<char>| #[trigger] entries_map(e).contains_key(kk) implies entries_map(
        e,
    )[kk] == m[kk] by {
        let j = choose|j: int| 0 <= j < e.len() && (#[trigger] e[j]).0@ == kk;
        lemma_map_at(e, j);
        if j != i {
            lemma_map_at(old_e, j);
        }
    }
    assert(entries_map(e) =~= m);
}

pub proof fn lemma_push_map<V>(old_e: Seq<(String, V)>, e: Seq<(String, V)>)
    requires
        keys_distinct(old_e),
        keys_distinct(e),
        e.len() == old_e.len() + 1,
        forall|j: int| 0 <= j < old_e.len() ==> e[j] == old_e[j],
    ensures
        entries_map(e) == entries_map(old_e).insert(e.last().0@, e.last().1),
{
    let n = old_e.len() as int;
    let m = entries_map(old_e).insert(e[n].0@, e[n].1);
    assert forall|kk: Seq<char>| #[trigger] entries_map(e).contains_key(kk) <==> m.contains_key(kk) by {
        if entries_map(e).contains_key(kk) {
            let j = choose|j: int| 0 <= j < e.len() && (#[trigger] e[j]).0@ == kk;
            if j != n {
                lemma_map_at(old_e, j);
            }
        }
        if m.contains_key(kk) && kk != e[n].0@ {
            let j = choose|j: int| 0 <= j < old_e.len() && (#[trigger] old_e[j]).0@ == kk;
            lemma_map_at(e, j);
        }
        if kk == e[n].0@ {
            lemma_map_at(e, n);
        }
    }
    assert forall|kk: Seq<char>| #[trigger] entries_map(e).contains_key(kk) implies entries_map(
        e,
    )[kk] == m[kk] by {
        let j = choose|j: int| 0 <= j < e.len() && (#[trigger] e[j]).0@ == kk;
        lemma_map_at(e, j);
        if j != n {
            lemma_map_at(old_e, j);
        }
    }
    assert(entries_map(e) =~= m);
}

pub proof fn lemma_remove_map<V>(old_e: Seq<(String, V)>, e: Seq<(String, V)>, i: int)
    requires
        keys_distinct(old_e),
        0 <= i < old_e.len(),
        e == old_e.remove(i),
    ensures
        keys_distinct(e),
        entries_map(e) == entries_map(old_e).remove(old_e[i].0@),
{
    assert forall|a: int| 0 <= a < e.len() implies #[trigger] e[a] == old_e[if a < i {
        a
    } else {
        a + 1
    }] by {}
    assert(keys_distinct(e)) by {
        assert forall|a: int, b: int|
            0 <= a < e.len() && 0 <= b < e.len() && a != b implies (#[trigger] e[a]).0@ != (
        #[trigger] e[b]).0@ by {
            let a2 = if a < i {
                a
            } else {
                a + 1
            };
            let b2 = if b < i {
                b
            } else {
                b + 1
            };
            assert(e[a] == old_e[a2]);
            assert(e[b] == old_e[b2]);
        }
    }
    let k = old_e[i].0@;
    let m = entries_map(old_e).remove(k);
    assert forall|kk: Seq<char>| #[trigger] entries_map(e).contains_key(kk) <==> m.contains_key(kk) by {
        if entries_map(e).contains_key(kk) {
            let j = choose|j: int| 0 <= j < e.len() && (#[trigger] e[j]).0@ == kk;
            let j2 = if j < i {
                j
            } else {
                j + 1
            };
            assert(e[j] == old_e[j2]);
            lemma_map_at(old_e, j2);
        }
        if m.contains_key(kk) {
            let j = choose|j: int| 0 <= j < old_e.len() && (#[trigger] old_e[j]).0@ == kk;
            let j2 = if j < i {
                j
            } else {
                j - 1
            };
            assert(j != i);
            assert(e[j2] == old_e[j]);
            lemma_map_at(e, j2);
        }
    }
    assert forall|kk: Seq<char>| #[trigger] entries_map(e).contains_key(kk) implies entries_map(
        e,
    )[kk] == m[kk] by {
        let j = choose|j: int| 0 <= j < e.len() && (#[trigger] e[j]).0@ == kk;
        let j2 = if j < i {
            j
        } else {
            j + 1
        };
        assert(e[j] == old_e[j2]);
        lemma_map_at(e, j);
        lemma_map_at(old_e, j2);
    }
    assert(entries_map(e) =~= m);
}

} // verus!
