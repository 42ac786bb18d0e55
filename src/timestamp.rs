//! Logical time: singleton creation stamps and vector clocks.
use vstd::prelude::*;

use crate::text::{decimal, int_text};

verus! {

/// The value a vector clock gives to a replica id: absent keys read as 0.
pub open spec fn vt_get(m: Map<i32, int>, id: i32) -> int {
    if m.contains_key(id) {
        m[id]
    } else {
        0
    }
}

/// Every entry of a vector clock is a positive counter.
pub open spec fn vt_valid(m: Map<i32, int>) -> bool {
    &&& m.dom().finite()
    &&& forall|k: i32| #[trigger] m.contains_key(k) ==> m[k] > 0
}

/// `a.leq(b)`: every component of `a` is at most the same component of `b`.
pub open spec fn vt_leq(a: Map<i32, int>, b: Map<i32, int>) -> bool {
    forall|id: i32| #[trigger] vt_get(a, id) <= vt_get(b, id)
}

/// Pointwise maximum of two vector clocks.
pub open spec fn vt_join(a: Map<i32, int>, b: Map<i32, int>) -> Map<i32, int> {
    Map::new(
        |id: i32| a.contains_key(id) || b.contains_key(id),
        |id: i32|
            if vt_get(a, id) >= vt_get(b, id) {
                vt_get(a, id)
            } else {
                vt_get(b, id)
            },
    )
}

/// The clock that holds a single stamp (empty when the counter is not positive).
pub open spec fn vt_single(id: i32, time: i32) -> Map<i32, int> {
    if time > 0 {
        Map::empty().insert(id, time as int)
    } else {
        Map::empty()
    }
}

/// The clock built from a list of pairs: repeated ids keep the largest counter,
/// and pairs whose counter is not positive are left out.
pub open spec fn vt_of_pairs(s: Seq<(i32, i32)>) -> Map<i32, int>
    decreases s.len(),
{
    if s.len() == 0 {
        Map::empty()
    } else {
        vt_join(vt_of_pairs(s.drop_last()), vt_single(s.last().0, s.last().1))
    }
}

/// Map built from a list of entries, later entries winning.
pub open spec fn map_of(s: Seq<(i32, i32)>) -> Map<i32, int>
    decreases s.len(),
{
    if s.len() == 0 {
        Map::empty()
    } else {
        map_of(s.drop_last()).insert(s.last().0, s.last().1 as int)
    }
}

/// The ids of a list of entries are pairwise distinct and all counters are positive.
pub open spec fn entries_ok(s: Seq<(i32, i32)>) -> bool {
    &&& forall|i: int, j: int| 0 <= i < j < s.len() ==> (#[trigger] s[i]).0 != (#[trigger] s[j]).0
    &&& forall|i: int| 0 <= i < s.len() ==> (#[trigger] s[i]).1 > 0
}

/// Text of a list of entries: `(id, time) ` for each, in order.
pub open spec fn entries_text(s: Seq<(i32, i32)>) -> Seq<char>
    decreases s.len(),
{
    if s.len() == 0 {
        Seq::empty()
    } else {
        entries_text(s.drop_last()) + "("@ + decimal(s.last().0 as int) + ", "@ + decimal(
            s.last().1 as int,
        ) + ") "@
    }
}

pub proof fn lemma_map_of(s: Seq<(i32, i32)>)
    requires
        entries_ok(s),
    ensures
        map_of(s).dom().finite(),
        forall|i: int| 0 <= i < s.len() ==> #[trigger] map_of(s).contains_key(s[i].0) && map_of(
            s,
        )[s[i].0] == s[i].1 as int,
        forall|k: i32| #[trigger]
            map_of(s).contains_key(k) ==> exists|i: int| 0 <= i < s.len() && s[i].0 == k,
        vt_valid(map_of(s)),
    decreases s.len(),
{
    if s.len() > 0 {
        let t = s.drop_last();
        assert(entries_ok(t)) by {
            assert forall|i: int, j: int| 0 <= i < j < t.len() implies (#[trigger] t[i]).0 != (
            #[trigger] t[j]).0 by {
                assert(t[i] == s[i] && t[j] == s[j]);
            }
            assert forall|i: int| 0 <= i < t.len() implies (#[trigger] t[i]).1 > 0 by {
                assert(t[i] == s[i]);
            }
        }
        lemma_map_of(t);
        let last = s.len() - 1;
        assert forall|i: int| 0 <= i < s.len() implies #[trigger] map_of(s).contains_key(s[i].0)
            && map_of(s)[s[i].0] == s[i].1 as int by {
            if i < last {
                assert(t[i] == s[i]);
                assert(s[i].0 != s[last].0);
            }
        }
        assert forall|k: i32| #[trigger]
            map_of(s).contains_key(k) implies exists|i: int| 0 <= i < s.len() && s[i].0 == k by {
            if k != s[last].0 {
                assert(t.len() == last);
                assert(map_of(t).contains_key(k));
                let i = choose|i: int| 0 <= i < t.len() && t[i].0 == k;
                assert(s[i] == t[i]);
            }
        }
        assert forall|k: i32| #[trigger] map_of(s).contains_key(k) implies map_of(s)[k] > 0 by {
            if k != s[last].0 {
                assert(map_of(t).contains_key(k));
            }
        }
    }
}

pub proof fn lemma_join_valid(a: Map<i32, int>, b: Map<i32, int>)
    requires
        vt_valid(a),
        vt_valid(b),
    ensures
        vt_valid(vt_join(a, b)),
{
    assert(vt_join(a, b).dom() =~= a.dom().union(b.dom()));
}

pub proof fn lemma_single_valid(id: i32, time: i32)
    ensures
        vt_valid(vt_single(id, time)),
        forall|k: i32| #[trigger] vt_get(vt_single(id, time), k) == if k == id && time > 0 {
            time as int
        } else {
            0
        },
{
}

/// `leq` is transitive.
pub proof fn lemma_leq_transitive(a: Map<i32, int>, b: Map<i32, int>, c: Map<i32, int>)
    requires
        vt_leq(a, b),
        vt_leq(b, c),
    ensures
        vt_leq(a, c),
{
    assert forall|id: i32| #[trigger] vt_get(a, id) <= vt_get(c, id) by {
        assert(vt_get(a, id) <= vt_get(b, id));
        assert(vt_get(b, id) <= vt_get(c, id));
    }
}

/// The join is the least upper bound of its two arguments.
pub proof fn lemma_join_least_upper_bound(a: Map<i32, int>, b: Map<i32, int>, c: Map<i32, int>)
    ensures
        vt_leq(a, vt_join(a, b)),
        vt_leq(b, vt_join(a, b)),
        vt_leq(a, c) && vt_leq(b, c) ==> vt_leq(vt_join(a, b), c),
        forall|id: i32| #[trigger]
            vt_get(vt_join(a, b), id) == if vt_get(a, id) >= vt_get(b, id) {
                vt_get(a, id)
            } else {
                vt_get(b, id)
            },
{
    assert forall|id: i32| #[trigger]
        vt_get(vt_join(a, b), id) == if vt_get(a, id) >= vt_get(b, id) {
            vt_get(a, id)
        } else {
            vt_get(b, id)
        } by {
        if !(a.contains_key(id) || b.contains_key(id)) {
            assert(vt_get(a, id) == 0 && vt_get(b, id) == 0);
        }
    }
    assert forall|id: i32| #[trigger] vt_get(a, id) <= vt_get(vt_join(a, b), id) by {
        if !(a.contains_key(id) || b.contains_key(id)) {
            assert(vt_get(a, id) == 0 && vt_get(b, id) == 0);
        }
    }
    assert forall|id: i32| #[trigger] vt_get(b, id) <= vt_get(vt_join(a, b), id) by {
        if !(a.contains_key(id) || b.contains_key(id)) {
            assert(vt_get(a, id) == 0 && vt_get(b, id) == 0);
        }
    }
    if vt_leq(a, c) && vt_leq(b, c) {
        assert forall|id: i32| #[trigger] vt_get(vt_join(a, b), id) <= vt_get(c, id) by {
            assert(vt_get(a, id) <= vt_get(c, id));
            assert(vt_get(b, id) <= vt_get(c, id));
            if !(a.contains_key(id) || b.contains_key(id)) {
                assert(vt_get(a, id) == 0 && vt_get(b, id) == 0);
            }
        }
    }
}

/// A creation stamp `(id, time)`: the replica that created a file and its counter then.
#[derive(Clone, Copy, PartialEq, Eq, Debug)]
pub struct SingletonTime {
    id: i32,
    time: i32,
}

impl Default for SingletonTime {
    /// The zero stamp `(0, 0)`.
    fn default() -> (r: Self)
        ensures
            r.spec_id() == 0 && r.spec_time() == 0,
    {
        Self { id: 0, time: 0 }
    }
}

/// Two stamps are the same value exactly when their ids and times agree.
pub proof fn lemma_stamp_eq(a: SingletonTime, b: SingletonTime)
    ensures
        (a == b) <==> (a.spec_id() == b.spec_id() && a.spec_time() == b.spec_time()),
{
}

impl SingletonTime {
    pub closed spec fn spec_id(&self) -> i32 {
        self.id
    }

    pub closed spec fn spec_time(&self) -> i32 {
        self.time
    }

    pub fn new(id: i32, time: i32) -> (r: Self)
        ensures
            r.spec_id() == id,
            r.spec_time() == time,
    {
        Self { id, time }
    }

    pub fn create_id(&self) -> (r: i32)
        ensures
            r == self.spec_id(),
    {
        self.id
    }

    pub fn time(&self) -> (r: i32)
        ensures
            r == self.spec_time(),
    {
        self.time
    }

    /// Whether the stamp is already known to a clock: `time <= other[id]`.
    pub fn leq_vec(&self, other: &VectorTime) -> (r: bool)
        ensures
            r == (self.spec_time() <= vt_get(other@, self.spec_id())),
    {
        self.time <= other.get(self.id)
    }
}

/// A vector clock: replica id to logical counter, absent ids reading as 0.
#[derive(Debug)]
pub struct VectorTime {
    times: Vec<(i32, i32)>,
}

impl View for VectorTime {
    type V = Map<i32, int>;

    closed spec fn view(&self) -> Map<i32, int> {
        map_of(self.times@)
    }
}

impl VectorTime {
    #[verifier::type_invariant]
    spec fn inv(&self) -> bool {
        entries_ok(self.times@)
    }

    /// The entries in the order that `display` lists them.
    pub closed spec fn entries(&self) -> Seq<(i32, i32)> {
        self.times@
    }

    /// Brings into scope that every entry of a clock is positive and that the
    /// clock is its list of entries (no run-time effect).
    pub fn note_valid(&self)
        ensures
            vt_valid(self@),
            self@ == map_of(self.entries()),
            entries_ok(self.entries()),
    {
        proof {
            use_type_invariant(self);
            lemma_map_of(self.times@);
        }
    }

    /// The empty clock.
    pub fn new_empty() -> (r: Self)
        ensures
            r@ == Map::<i32, int>::empty(),
    {
        Self { times: Vec::new() }
    }

    /// The clock that holds one stamp.
    pub fn from_singleton_time(create_time: &SingletonTime) -> (r: Self)
        ensures
            r@ == vt_single(create_time.spec_id(), create_time.spec_time()),
    {
        let mut times: Vec<(i32, i32)> = Vec::new();
        if create_time.time > 0 {
            times.push((create_time.id, create_time.time));
        }
        proof {
            lemma_map_of(times@);
            if create_time.time > 0 {
                assert(times@.drop_last() =~= Seq::<(i32, i32)>::empty());
            }
            assert(map_of(times@) =~= vt_single(create_time.spec_id(), create_time.spec_time()));
        }
        Self { times }
    }

    /// The clock built from a list of `(id, time)` pairs.
    pub fn from_pairs(pairs: &Vec<(i32, i32)>) -> (r: Self)
        ensures
            r@ == vt_of_pairs(pairs@),
    {
        let mut r = Self::new_empty();
        let mut i: usize = 0;
        while i < pairs.len()
            invariant
                i <= pairs.len(),
                r@ == vt_of_pairs(pairs@.subrange(0, i as int)),
            decreases pairs.len() - i,
        {
            let (id, time) = pairs[i];
            let single = Self::from_singleton_time(&SingletonTime::new(id, time));
            r.check_max(&single);
            proof {
                let s = pairs@.subrange(0, i + 1);
                assert(s.drop_last() =~= pairs@.subrange(0, i as int));
            }
            i += 1;
        }
        proof {
            assert(pairs@.subrange(0, pairs.len() as int) =~= pairs@);
        }
        r
    }

    /// The entries as `(id, time)` pairs, each id once.
    pub fn to_pairs(&self) -> (r: Vec<(i32, i32)>)
        ensures
            r@ == self.entries(),
            vt_of_pairs(r@) == self@,
    {
        proof {
            use_type_invariant(self);
            lemma_of_pairs_is_map(self.times@);
        }
        copy_entries(&self.times)
    }

    /// The counter of `id`, 0 when absent.
    pub fn get(&self, id: i32) -> (r: i32)
        ensures
            r == vt_get(self@, id),
    {
        proof {
            use_type_invariant(self);
            lemma_map_of(self.times@);
        }
        let mut i: usize = 0;
        while i < self.times.len()
            invariant
                i <= self.times.len(),
                entries_ok(self.times@),
                self@ == map_of(self.times@),
                forall|j: int| 0 <= j < i ==> (#[trigger] self.times@[j]).0 != id,
            decreases self.times.len() - i,
        {
            if self.times[i].0 == id {
                proof {
                    lemma_map_of(self.times@);
                    assert(map_of(self.times@).contains_key(self.times@[i as int].0));
                }
                return self.times[i].1;
            }
            i += 1;
        }
        0
    }

    /// Sets `id`'s counter to `time`, which must be above its current value.
    pub fn update_one(&mut self, id: i32, time: i32)
        requires
            time > vt_get(old(self)@, id),
        ensures
            final(self)@ == old(self)@.insert(id, time as int),
    {
        self.note_valid();
        proof {
            if self@.contains_key(id) {
                assert(self@[id] > 0);
            }
        }
        self.set_one(id, time);
    }

    /// Sets `id`'s counter to `time`, whatever it was.
    pub fn set_one(&mut self, id: i32, time: i32)
        requires
            time > 0,
        ensures
            final(self)@ == old(self)@.insert(id, time as int),
    {
        proof {
            use_type_invariant(&*self);
            lemma_map_of(self.times@);
        }
        let mut times = copy_entries(&self.times);
        let mut i: usize = 0;
        while i < times.len()
            invariant
                i <= times.len(),
                time > 0,
                times@ == old(self).times@,
                entries_ok(times@),
                forall|j: int| 0 <= j < i ==> (#[trigger] times@[j]).0 != id,
            decreases times.len() - i,
        {
            if times[i].0 == id {
                let ghost before = times@;
                times.set(i, (id, time));
                proof {
                    lemma_set_entry(before, i as int, time);
                }
                self.times = times;
                return;
            }
            i += 1;
        }
        let ghost before = times@;
        times.push((id, time));
        proof {
            assert(times@.drop_last() =~= before);
            assert forall|a: int, b: int| 0 <= a < b < times@.len() implies (
            #[trigger] times@[a]).0 != (#[trigger] times@[b]).0 by {
                if b == before.len() {
                    assert(times@[a] == before[a]);
                } else {
                    assert(times@[a] == before[a] && times@[b] == before[b]);
                }
            }
            assert forall|a: int| 0 <= a < times@.len() implies (#[trigger] times@[a]).1 > 0 by {
                if a < before.len() {
                    assert(times@[a] == before[a]);
                }
            }
        }
        self.times = times;
    }

    /// Raises `id`'s counter to at least `time` (pointwise join with one stamp).
    pub fn join_one(&mut self, id: i32, time: i32)
        ensures
            final(self)@ == vt_join(old(self)@, vt_single(id, time)),
    {
        let cur = self.get(id);
        self.note_valid();
        proof {
            lemma_single_valid(id, time);
        }
        if time > cur {
            self.update_one(id, time);
            proof {
                assert(final(self)@ =~= vt_join(old(self)@, vt_single(id, time)));
            }
        } else {
            proof {
                assert(self@ =~= vt_join(old(self)@, vt_single(id, time)));
            }
        }
    }

    /// Pointwise maximum with `other`, in place.
    pub fn check_max(&mut self, other: &Self)
        ensures
            final(self)@ == vt_join(old(self)@, other@),
    {
        other.note_valid();
        self.note_valid();
        let mut i: usize = 0;
        while i < other.times.len()
            invariant
                i <= other.times.len(),
                vt_valid(old(self)@),
                entries_ok(other.times@),
                other@ == map_of(other.times@),
                self@ == vt_join(old(self)@, map_of(other.times@.subrange(0, i as int))),
            decreases other.times.len() - i,
        {
            let (id, time) = other.times[i];
            self.join_one(id, time);
            proof {
                let s = other.times@.subrange(0, i + 1);
                let t = other.times@.subrange(0, i as int);
                assert(s.drop_last() =~= t);
                assert(s.last() == (id, time));
                assert(time > 0);
                lemma_entries_ok_prefix(other.times@, i as int);
                lemma_map_of(t);
                assert(!map_of(t).contains_key(id)) by {
                    if map_of(t).contains_key(id) {
                        let j = choose|j: int| 0 <= j < t.len() && t[j].0 == id;
                        assert(other.times@[j].0 == other.times@[i as int].0);
                    }
                }
                lemma_join_insert(old(self)@, map_of(t), id, time);
                assert(map_of(s) == map_of(t).insert(id, time as int));
            }
            i += 1;
        }
        proof {
            assert(other.times@.subrange(0, other.times.len() as int) =~= other.times@);
        }
    }

    /// Whether every component is at most the same component of `other`.
    pub fn leq(&self, other: &Self) -> (r: bool)
        ensures
            r == vt_leq(self@, other@),
    {
        self.note_valid();
        other.note_valid();
        let mut i: usize = 0;
        while i < self.times.len()
            invariant
                i <= self.times.len(),
                vt_valid(other@),
                entries_ok(self.times@),
                self@ == map_of(self.times@),
                forall|j: int|
                    0 <= j < i ==> (#[trigger] self.times@[j]).1 <= vt_get(
                        other@,
                        self.times@[j].0,
                    ),
            decreases self.times.len() - i,
        {
            let (id, time) = self.times[i];
            if time > other.get(id) {
                proof {
                    lemma_map_of(self.times@);
                    assert(map_of(self.times@).contains_key(self.times@[i as int].0));
                    assert(vt_get(self@, id) == time);
                }
                return false;
            }
            i += 1;
        }
        proof {
            lemma_map_of(self.times@);
            assert forall|id: i32| #[trigger] vt_get(self@, id) <= vt_get(other@, id) by {
                if self@.contains_key(id) {
                    let j = choose|j: int| 0 <= j < self.times@.len() && self.times@[j].0 == id;
                    assert(self.times@[j].1 <= vt_get(other@, self.times@[j].0));
                } else {
                    if other@.contains_key(id) {
                        assert(other@[id] > 0);
                    }
                }
            }
        }
        true
    }

    /// `(id, time) ` for each entry.
    pub fn display(&self) -> (r: String)
        ensures
            r@ == entries_text(self.entries()),
    {
        let mut r = String::new();
        let mut i: usize = 0;
        while i < self.times.len()
            invariant
                i <= self.times.len(),
                r@ == entries_text(self.times@.subrange(0, i as int)),
            decreases self.times.len() - i,
        {
            let (id, time) = self.times[i];
            let a = int_text(id);
            let b = int_text(time);
            r.append("(");
            r.append(a.as_str());
            r.append(", ");
            r.append(b.as_str());
            r.append(") ");
            proof {
                let s = self.times@.subrange(0, i + 1);
                assert(s.drop_last() =~= self.times@.subrange(0, i as int));
            }
            i += 1;
        }
        proof {
            assert(self.times@.subrange(0, self.times.len() as int) =~= self.times@);
        }
        r
    }

    /// A copy with the same entries.
    pub fn duplicate(&self) -> (r: Self)
        ensures
            r@ == self@,
            r.entries() == self.entries(),
    {
        proof {
            use_type_invariant(self);
        }
        let times = copy_entries(&self.times);
        Self { times }
    }
}

fn copy_entries(v: &Vec<(i32, i32)>) -> (r: Vec<(i32, i32)>)
    ensures
        r@ == v@,
{
    let mut r: Vec<(i32, i32)> = Vec::new();
    let mut i: usize = 0;
    while i < v.len()
        invariant
            i <= v.len(),
            r@ == v@.subrange(0, i as int),
        decreases v.len() - i,
    {
        r.push(v[i]);
        i += 1;
        proof {
            assert(r@ =~= v@.subrange(0, i as int));
        }
    }
    proof {
        assert(v@.subrange(0, v.len() as int) =~= v@);
    }
    r
}

proof fn lemma_entries_ok_prefix(s: Seq<(i32, i32)>, n: int)
    requires
        entries_ok(s),
        0 <= n <= s.len(),
    ensures
        entries_ok(s.subrange(0, n)),
{
    let t = s.subrange(0, n);
    assert forall|i: int, j: int| 0 <= i < j < t.len() implies (#[trigger] t[i]).0 != (
    #[trigger] t[j]).0 by {
        assert(t[i] == s[i] && t[j] == s[j]);
    }
    assert forall|i: int| 0 <= i < t.len() implies (#[trigger] t[i]).1 > 0 by {
        assert(t[i] == s[i]);
    }
}

proof fn lemma_join_insert(o: Map<i32, int>, m: Map<i32, int>, id: i32, time: i32)
    requires
        vt_valid(o),
        vt_valid(m),
        !m.contains_key(id),
        time > 0,
    ensures
        vt_join(vt_join(o, m), vt_single(id, time)) == vt_join(o, m.insert(id, time as int)),
{
    let l = vt_join(vt_join(o, m), vt_single(id, time));
    let r = vt_join(o, m.insert(id, time as int));
    assert forall|k: i32| #[trigger] l.contains_key(k) <==> r.contains_key(k) by {}
    assert forall|k: i32| #[trigger] l.contains_key(k) implies l[k] == r[k] by {
        if o.contains_key(k) {
            assert(o[k] > 0);
        }
        if m.contains_key(k) {
            assert(m[k] > 0);
        }
    }
    assert(l =~= r);
}

proof fn lemma_set_entry(s: Seq<(i32, i32)>, i: int, time: i32)
    requires
        entries_ok(s),
        0 <= i < s.len(),
        time > 0,
    ensures
        entries_ok(s.update(i, (s[i].0, time))),
        map_of(s.update(i, (s[i].0, time))) == map_of(s).insert(s[i].0, time as int),
{
    let u = s.update(i, (s[i].0, time));
    assert forall|a: int, b: int| 0 <= a < b < u.len() implies (#[trigger] u[a]).0 != (
    #[trigger] u[b]).0 by {
        assert(u[a].0 == s[a].0 && u[b].0 == s[b].0);
    }
    assert forall|a: int| 0 <= a < u.len() implies (#[trigger] u[a]).1 > 0 by {
        if a != i {
            assert(u[a] == s[a]);
        }
    }
    lemma_map_of(s);
    lemma_map_of(u);
    assert(map_of(u) =~= map_of(s).insert(s[i].0, time as int)) by {
        assert forall|k: i32| #[trigger] map_of(u).contains_key(k) <==> map_of(s).insert(
            s[i].0,
            time as int,
        ).contains_key(k) by {
            if map_of(u).contains_key(k) {
                let j = choose|j: int| 0 <= j < u.len() && u[j].0 == k;
                assert(s[j].0 == k);
            }
            if map_of(s).contains_key(k) {
                let j = choose|j: int| 0 <= j < s.len() && s[j].0 == k;
                assert(u[j].0 == k);
            }
        }
        assert forall|k: i32| #[trigger] map_of(u).contains_key(k) implies map_of(u)[k] == map_of(
            s,
        ).insert(s[i].0, time as int)[k] by {
            let j = choose|j: int| 0 <= j < u.len() && u[j].0 == k;
            if j != i {
                assert(u[j] == s[j]);
                assert(s[j].0 != s[i].0);
            }
        }
    }
}

proof fn lemma_of_pairs_is_map(s: Seq<(i32, i32)>)
    requires
        entries_ok(s),
    ensures
        vt_of_pairs(s) == map_of(s),
    decreases s.len(),
{
    if s.len() > 0 {
        let t = s.drop_last();
        assert(entries_ok(t)) by {
            assert forall|i: int, j: int| 0 <= i < j < t.len() implies (#[trigger] t[i]).0 != (
            #[trigger] t[j]).0 by {
                assert(t[i] == s[i] && t[j] == s[j]);
            }
            assert forall|i: int| 0 <= i < t.len() implies (#[trigger] t[i]).1 > 0 by {
                assert(t[i] == s[i]);
            }
        }
        lemma_of_pairs_is_map(t);
        lemma_map_of(t);
        let last = s.len() - 1;
        assert(!map_of(t).contains_key(s[last].0)) by {
            if map_of(t).contains_key(s[last].0) {
                let j = choose|j: int| 0 <= j < t.len() && t[j].0 == s[last].0;
                assert(t[j] == s[j]);
            }
        }
        assert(vt_of_pairs(s) =~= map_of(s));
    }
}

} // verus!
