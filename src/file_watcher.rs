//! The registry of directory watches: which path each watch handle stands for,
//! and how many file-system writes of the replica itself are under way below it.
use vstd::prelude::*;

use crate::path_local::{PathLocal, PathView};

verus! {

/// The position of the last entry of key `k`, or -1.
pub open spec fn key_pos<V>(s: Seq<(i32, V)>, k: i32) -> int
    decreases s.len(),
{
    if s.len() == 0 {
        -1
    } else if s.last().0 == k {
        s.len() - 1
    } else {
        key_pos(s.drop_last(), k)
    }
}

/// No key occurs twice.
pub open spec fn keys_unique<V>(s: Seq<(i32, V)>) -> bool {
    forall|i: int, j: int| 0 <= i < j < s.len() ==> (#[trigger] s[i]).0 != (#[trigger] s[j]).0
}

pub proof fn lemma_key_pos<V>(s: Seq<(i32, V)>, k: i32)
    ensures
        -1 <= key_pos(s, k) < s.len(),
        key_pos(s, k) >= 0 ==> s[key_pos(s, k)].0 == k,
        key_pos(s, k) == -1 <==> forall|i: int| 0 <= i < s.len() ==> (#[trigger] s[i]).0 != k,
        keys_unique(s) ==> forall|i: int| 0 <= i < s.len() && (#[trigger] s[i]).0 == k ==> key_pos(s, k) == i,
    decreases s.len(),
{
    if s.len() > 0 {
        let t = s.drop_last();
        lemma_key_pos(t, k);
        assert forall|i: int| 0 <= i < t.len() implies #[trigger] t[i] == s[i] by {}
        if keys_unique(s) {
            assert(keys_unique(t)) by {
                assert forall|i: int, j: int| 0 <= i < j < t.len() implies (#[trigger] t[i]).0 != (
                #[trigger] t[j]).0 by {
                    assert(t[i] == s[i] && t[j] == s[j]);
                }
            }
        }
        if s.last().0 != k {
            if key_pos(s, k) == -1 {
                assert forall|i: int| 0 <= i < s.len() implies (#[trigger] s[i]).0 != k by {
                    if i < t.len() {
                        assert(t[i] == s[i]);
                    }
                }
            }
        }
    }
}

fn find_key<V>(v: &Vec<(i32, V)>, k: i32) -> (r: Option<usize>)
    ensures
        r is Some ==> r->0 < v.len() && r->0 as int == key_pos(v@, k),
        r is None ==> key_pos(v@, k) == -1,
{
    let mut i: usize = v.len();
    proof {
        assert(v@.subrange(0, i as int) =~= v@);
    }
    while i > 0
        invariant
            i <= v.len(),
            key_pos(v@, k) == key_pos(v@.subrange(0, i as int), k),
        decreases i,
    {
        proof {
            let s = v@.subrange(0, i as int);
            assert(s.drop_last() =~= v@.subrange(0, i - 1));
        }
        if v[i - 1].0 == k {
            return Some(i - 1);
        }
        i -= 1;
    }
    None
}

proof fn lemma_remove_keeps_others<V>(s: Seq<(i32, V)>, p: int, k: i32)
    requires
        keys_unique(s),
        0 <= p < s.len(),
        s[p].0 != k,
    ensures
        keys_unique(s.remove(p)),
        key_pos(s.remove(p), k) >= 0 <==> key_pos(s, k) >= 0,
        key_pos(s, k) >= 0 ==> s.remove(p)[key_pos(s.remove(p), k)] == s[key_pos(s, k)],
{
    let t = s.remove(p);
    assert forall|i: int, j: int| 0 <= i < j < t.len() implies (#[trigger] t[i]).0 != (
    #[trigger] t[j]).0 by {
        let a = if i < p { i } else { i + 1 };
        let b = if j < p { j } else { j + 1 };
        assert(t[i] == s[a] && t[j] == s[b]);
    }
    lemma_key_pos(s, k);
    lemma_key_pos(t, k);
    if key_pos(s, k) >= 0 {
        let q = key_pos(s, k);
        let q2 = if q < p { q } else { q - 1 };
        assert(t[q2] == s[q]);
    }
    if key_pos(t, k) >= 0 {
        let q = key_pos(t, k);
        let q2 = if q < p { q } else { q + 1 };
        assert(t[q] == s[q2]);
    }
}

proof fn lemma_set_keeps_others<V>(s: Seq<(i32, V)>, p: int, x: (i32, V), k: i32)
    requires
        keys_unique(s),
        0 <= p < s.len(),
        s[p].0 == x.0,
    ensures
        keys_unique(s.update(p, x)),
        key_pos(s.update(p, x), x.0) == p,
        k != x.0 ==> key_pos(s.update(p, x), k) == key_pos(s, k),
{
    let t = s.update(p, x);
    assert forall|i: int, j: int| 0 <= i < j < t.len() implies (#[trigger] t[i]).0 != (
    #[trigger] t[j]).0 by {
        assert(t[i].0 == s[i].0 && t[j].0 == s[j].0);
    }
    lemma_key_pos(s, k);
    lemma_key_pos(t, k);
    lemma_key_pos(t, x.0);
    assert(t[p] == x);
    if k != x.0 {
        if key_pos(s, k) >= 0 {
            assert(t[key_pos(s, k)].0 == k);
        }
        if key_pos(t, k) >= 0 {
            assert(s[key_pos(t, k)].0 == k);
        }
    }
}

proof fn lemma_push_keeps_others<V>(s: Seq<(i32, V)>, x: (i32, V), k: i32)
    requires
        keys_unique(s),
        key_pos(s, x.0) == -1,
    ensures
        keys_unique(s.push(x)),
        key_pos(s.push(x), x.0) == s.len(),
        k != x.0 ==> key_pos(s.push(x), k) == key_pos(s, k),
{
    let t = s.push(x);
    lemma_key_pos(s, x.0);
    assert(t.drop_last() =~= s);
    assert forall|i: int, j: int| 0 <= i < j < t.len() implies (#[trigger] t[i]).0 != (
    #[trigger] t[j]).0 by {
        if j == s.len() {
            assert(t[i] == s[i]);
        } else {
            assert(t[i] == s[i] && t[j] == s[j]);
        }
    }
}

/// Watch handles and the paths they watch, with a freeze counter per handle.
#[derive(Debug)]
pub struct WatchIfc {
    wd_map: Vec<(i32, PathLocal)>,
    freeze_count_map: Vec<(i32, usize)>,
}

impl WatchIfc {
    #[verifier::type_invariant]
    spec fn inv(&self) -> bool {
        &&& keys_unique(self.wd_map@)
        &&& keys_unique(self.freeze_count_map@)
        &&& forall|i: int|
            0 <= i < self.freeze_count_map@.len() ==> (#[trigger] self.freeze_count_map@[i]).1 > 0
    }

    /// The path watched by `wd`, if it is registered.
    pub closed spec fn path_of(&self, wd: i32) -> Option<PathView> {
        let p = key_pos(self.wd_map@, wd);
        if p >= 0 {
            Some(self.wd_map@[p].1@)
        } else {
            None
        }
    }

    /// How many times `wd` is frozen.
    pub closed spec fn freeze_count(&self, wd: i32) -> nat {
        let p = key_pos(self.freeze_count_map@, wd);
        if p >= 0 {
            self.freeze_count_map@[p].1 as nat
        } else {
            0
        }
    }

    /// An empty registry.
    pub fn new() -> (r: Self)
        ensures
            forall|wd: i32| #[trigger] r.path_of(wd) is None,
            forall|wd: i32| #[trigger] r.freeze_count(wd) == 0,
    {
        Self { wd_map: Vec::new(), freeze_count_map: Vec::new() }
    }

    /// Registers the watch `wd` that the watcher gave for `path`.
    pub fn add_watch(&mut self, wd: i32, path: PathLocal)
        ensures
            final(self).path_of(wd) == Some(path@),
            forall|k: i32| k != wd ==> #[trigger] final(self).path_of(k) == old(self).path_of(k),
            forall|k: i32| #[trigger] final(self).freeze_count(k) == old(self).freeze_count(k),
    {
        proof {
            use_type_invariant(&*self);
        }
        let ghost p = path@;
        let mut m: Vec<(i32, PathLocal)> = Vec::new();
        std::mem::swap(&mut m, &mut self.wd_map);
        let ghost s = m@;
        match find_key(&m, wd) {
            Some(i) => {
                m.set(i, (wd, path));
                proof {
                    lemma_key_pos(s, wd);
                    lemma_key_pos(s, wd);
                    assert forall|k: i32| k != wd implies key_pos(m@, k) == key_pos(s, k) && (key_pos(
                        s,
                        k,
                    ) >= 0 ==> m@[key_pos(s, k)] == s[key_pos(s, k)]) by {
                        lemma_set_keeps_others(s, i as int, m@[i as int], k);
                        lemma_key_pos(s, k);
                    }
                    lemma_set_keeps_others(s, i as int, m@[i as int], wd);
                }
            },
            None => {
                m.push((wd, path));
                proof {
                    assert(m@ == s.push(m@.last()));
                    assert forall|k: i32| k != wd implies key_pos(m@, k) == key_pos(s, k) && (key_pos(
                        s,
                        k,
                    ) >= 0 ==> m@[key_pos(s, k)] == s[key_pos(s, k)]) by {
                        lemma_push_keeps_others(s, m@.last(), k);
                        lemma_key_pos(s, k);
                    }
                    lemma_push_keeps_others(s, m@.last(), wd);
                    assert(m@ == s.push(m@.last()));
                }
            },
        }
        self.wd_map = m;
    }

    /// Forgets the watch `wd`; returns whether it was registered.
    pub fn remove_watch(&mut self, wd: i32) -> (r: bool)
        ensures
            r == old(self).path_of(wd) is Some,
            final(self).path_of(wd) is None,
            forall|k: i32| k != wd ==> #[trigger] final(self).path_of(k) == old(self).path_of(k),
            forall|k: i32| #[trigger] final(self).freeze_count(k) == old(self).freeze_count(k),
    {
        proof {
            use_type_invariant(&*self);
        }
        let mut m: Vec<(i32, PathLocal)> = Vec::new();
        std::mem::swap(&mut m, &mut self.wd_map);
        let ghost s = m@;
        let r = match find_key(&m, wd) {
            Some(i) => {
                m.remove(i);
                proof {
                    lemma_key_pos(s, wd);
                    assert forall|k: i32| k != wd implies (key_pos(m@, k) >= 0 <==> key_pos(s, k)
                        >= 0) && (key_pos(s, k) >= 0 ==> m@[key_pos(m@, k)] == s[key_pos(
                        s,
                        k,
                    )]) by {
                        lemma_remove_keeps_others(s, i as int, k);
                    }
                    lemma_remove_keeps_others(s, i as int, if wd == 0i32 { 1i32 } else { 0i32 });
                    lemma_key_pos(m@, wd);
                    assert forall|j: int| 0 <= j < m@.len() implies (#[trigger] m@[j]).0 != wd by {
                        let a = if j < i { j } else { j + 1 };
                        assert(m@[j] == s[a]);
                    }
                }
                true
            },
            None => false,
        };
        self.wd_map = m;
        r
    }

    /// The path watched by `wd`.
    pub fn query_path(&self, wd: i32) -> (r: Option<PathLocal>)
        ensures
            self.path_of(wd) is None ==> r is None,
            self.path_of(wd) is Some ==> r is Some && r->0@ == self.path_of(wd)->0,
    {
        match find_key(&self.wd_map, wd) {
            Some(i) => Some(self.wd_map[i].1.duplicate()),
            None => None,
        }
    }

    /// One more write under way below `wd`: its events are to be dropped.
    pub fn freeze_watch(&mut self, wd: i32)
        requires
            old(self).freeze_count(wd) < usize::MAX,
        ensures
            final(self).freeze_count(wd) == old(self).freeze_count(wd) + 1,
            forall|k: i32| k != wd ==> #[trigger] final(self).freeze_count(k) == old(self).freeze_count(k),
            forall|k: i32| #[trigger] final(self).path_of(k) == old(self).path_of(k),
    {
        proof {
            use_type_invariant(&*self);
        }
        let mut m: Vec<(i32, usize)> = Vec::new();
        std::mem::swap(&mut m, &mut self.freeze_count_map);
        let ghost s = m@;
        match find_key(&m, wd) {
            Some(i) => {
                let c = m[i].1;
                m.set(i, (wd, c + 1));
                proof {
                    lemma_key_pos(s, wd);
                    assert forall|k: i32| k != wd implies key_pos(m@, k) == key_pos(s, k) && (key_pos(
                        s,
                        k,
                    ) >= 0 ==> m@[key_pos(s, k)] == s[key_pos(s, k)]) by {
                        lemma_set_keeps_others(s, i as int, m@[i as int], k);
                        lemma_key_pos(s, k);
                    }
                    lemma_set_keeps_others(s, i as int, m@[i as int], wd);
                    lemma_key_pos(s, wd);
                    assert forall|j: int| 0 <= j < m@.len() implies (#[trigger] m@[j]).1 > 0 by {
                        if j != i {
                            assert(m@[j] == s[j]);
                        }
                    }
                }
            },
            None => {
                m.push((wd, 1));
                proof {
                    assert(m@ == s.push(m@.last()));
                    assert forall|k: i32| k != wd implies key_pos(m@, k) == key_pos(s, k) && (key_pos(
                        s,
                        k,
                    ) >= 0 ==> m@[key_pos(s, k)] == s[key_pos(s, k)]) by {
                        lemma_push_keeps_others(s, m@.last(), k);
                        lemma_key_pos(s, k);
                    }
                    lemma_push_keeps_others(s, m@.last(), wd);
                    assert(m@ == s.push(m@.last()));
                    assert forall|j: int| 0 <= j < m@.len() implies (#[trigger] m@[j]).1 > 0 by {
                        if j < s.len() {
                            assert(m@[j] == s[j]);
                        }
                    }
                }
            },
        }
        self.freeze_count_map = m;
    }

    /// One write below `wd` is over.
    pub fn unfreeze_watch(&mut self, wd: i32)
        requires
            old(self).freeze_count(wd) > 0,
        ensures
            final(self).freeze_count(wd) == old(self).freeze_count(wd) - 1,
            forall|k: i32| k != wd ==> #[trigger] final(self).freeze_count(k) == old(self).freeze_count(k),
            forall|k: i32| #[trigger] final(self).path_of(k) == old(self).path_of(k),
    {
        proof {
            use_type_invariant(&*self);
        }
        let mut m: Vec<(i32, usize)> = Vec::new();
        std::mem::swap(&mut m, &mut self.freeze_count_map);
        let ghost s = m@;
        let i = find_key(&m, wd).unwrap();
        let c = m[i].1;
        if c > 1 {
            m.set(i, (wd, c - 1));
            proof {
                lemma_key_pos(s, wd);
                assert forall|k: i32| k != wd implies key_pos(m@, k) == key_pos(s, k) && (key_pos(
                    s,
                    k,
                ) >= 0 ==> m@[key_pos(s, k)] == s[key_pos(s, k)]) by {
                    lemma_set_keeps_others(s, i as int, m@[i as int], k);
                    lemma_key_pos(s, k);
                }
                lemma_set_keeps_others(s, i as int, m@[i as int], wd);
                assert forall|j: int| 0 <= j < m@.len() implies (#[trigger] m@[j]).1 > 0 by {
                    if j != i {
                        assert(m@[j] == s[j]);
                    }
                }
            }
        } else {
            m.remove(i);
            proof {
                lemma_key_pos(s, wd);
                assert forall|k: i32| k != wd implies (key_pos(m@, k) >= 0 <==> key_pos(s, k) >= 0)
                    && (key_pos(s, k) >= 0 ==> m@[key_pos(m@, k)] == s[key_pos(s, k)]) by {
                    lemma_remove_keeps_others(s, i as int, k);
                }
                lemma_remove_keeps_others(s, i as int, if wd == 0i32 { 1i32 } else { 0i32 });
                lemma_key_pos(m@, wd);
                assert forall|j: int| 0 <= j < m@.len() implies (#[trigger] m@[j]).0 != wd by {
                    let a = if j < i { j } else { j + 1 };
                    assert(m@[j] == s[a]);
                }
                assert forall|j: int| 0 <= j < m@.len() implies (#[trigger] m@[j]).1 > 0 by {
                    let a = if j < i { j } else { j + 1 };
                    assert(m@[j] == s[a]);
                }
            }
        }
        self.freeze_count_map = m;
    }

    /// Whether `wd` can be frozen once more (its counter is below the largest `usize`).
    pub fn can_freeze(&self, wd: i32) -> (r: bool)
        ensures
            r == (self.freeze_count(wd) < usize::MAX),
    {
        match find_key(&self.freeze_count_map, wd) {
            Some(i) => self.freeze_count_map[i].1 < usize::MAX,
            None => true,
        }
    }

    /// Whether events of `wd` are to be dropped.
    pub fn is_freezed(&self, wd: i32) -> (r: bool)
        ensures
            r == (self.freeze_count(wd) > 0),
    {
        proof {
            use_type_invariant(self);
        }
        match find_key(&self.freeze_count_map, wd) {
            Some(i) => self.freeze_count_map[i].1 > 0,
            None => false,
        }
    }
}

} // verus!
