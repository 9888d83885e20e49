//! A small map keyed by timeline slot.

use vstd::prelude::*;

verus! {

/// A list of slots without one.
pub open spec fn others(s: Seq<i64>, k: i64) -> Seq<i64> {
    s.filter(|x: i64| x != k)
}

/// Values keyed by the timestamp of a slot, in order of insertion.
#[derive(Debug)]
pub struct SlotMap<V> {
    entries: Vec<(i64, V)>,
}

impl<V> SlotMap<V> {
    /// No slot occurs twice.
    pub closed spec fn well_formed(self) -> bool {
        forall|i: int, j: int|
            0 <= i < j < self.entries@.len() ==> (#[trigger] self.entries@[i]).0 != (
            #[trigger] self.entries@[j]).0
    }

    spec fn holds(self, k: i64, i: int) -> bool {
        0 <= i < self.entries@.len() && self.entries@[i].0 == k
    }

    pub closed spec fn has(self, k: i64) -> bool {
        exists|i: int| #[trigger] self.holds(k, i)
    }

    pub closed spec fn at(self, k: i64) -> V {
        self.entries@[choose|i: int| #[trigger] self.holds(k, i)].1
    }

    /// The map from slots to values.
    pub open spec fn map(self) -> Map<i64, V> {
        Map::new(|k: i64| self.has(k), |k: i64| self.at(k))
    }

    /// The slots, in order of insertion.
    pub closed spec fn slots(self) -> Seq<i64> {
        self.entries@.map_values(|e: (i64, V)| e.0)
    }

    proof fn lemma_at(self, i: int)
        requires
            self.well_formed(),
            0 <= i < self.entries@.len(),
        ensures
            self.has(self.entries@[i].0),
            self.at(self.entries@[i].0) == self.entries@[i].1,
    {
        assert(self.holds(self.entries@[i].0, i));
    }

    /// The slots listed are the slots mapped, each once.
    pub proof fn lemma_slots(self)
        requires
            self.well_formed(),
        ensures
            self.slots().no_duplicates(),
            forall|k: i64| #[trigger] self.slots().contains(k) <==> self.map().dom().contains(k),
            self.map().dom() == self.slots().to_set(),
            self.map().dom().len() == self.slots().len(),
    {
        assert forall|k: i64| #[trigger] self.slots().contains(k) <==> self.has(k) by {
            if self.has(k) {
                let i = choose|i: int| #[trigger] self.holds(k, i);
                assert(self.slots()[i] == k);
            }
            if self.slots().contains(k) {
                let i = choose|i: int| 0 <= i < self.slots().len() && self.slots()[i] == k;
                assert(self.holds(k, i));
            }
        }
        assert(self.map().dom() =~= self.slots().to_set());
        self.slots().unique_seq_to_set();
    }

    pub fn new() -> (m: SlotMap<V>)
        ensures
            m.well_formed(),
            m.map() == Map::<i64, V>::empty(),
            m.slots() == Seq::<i64>::empty(),
    {
        let m = SlotMap { entries: Vec::new() };
        assert(m.map() =~= Map::empty());
        assert(m.slots() =~= Seq::empty());
        m
    }

    fn find(&self, k: i64) -> (r: Option<usize>)
        ensures
            match r {
                Some(i) => self.holds(k, i as int),
                None => !self.has(k),
            },
    {
        let mut i: usize = 0;
        while i < self.entries.len()
            invariant
                i <= self.entries.len(),
                forall|j: int| 0 <= j < i ==> (#[trigger] self.entries@[j]).0 != k,
            decreases self.entries.len() - i,
        {
            if self.entries[i].0 == k {
                return Some(i);
            }
            i = i + 1;
        }
        None
    }

    pub fn len(&self) -> (n: usize)
        ensures
            n == self.slots().len(),
    {
        self.entries.len()
    }

    pub fn contains(&self, k: i64) -> (r: bool)
        requires
            self.well_formed(),
        ensures
            r == self.map().dom().contains(k),
    {
        match self.find(k) {
            Some(i) => {
                assert(self.holds(k, i as int));
                true
            },
            None => false,
        }
    }

    pub fn get(&self, k: i64) -> (r: Option<&V>)
        requires
            self.well_formed(),
        ensures
            match r {
                Some(v) => self.map().dom().contains(k) && *v == self.map()[k],
                None => !self.map().dom().contains(k),
            },
    {
        match self.find(k) {
            Some(i) => {
                proof {
                    self.lemma_at(i as int);
                }
                Some(&self.entries[i].1)
            },
            None => None,
        }
    }

    /// The `i`th slot and its value.
    pub fn entry(&self, i: usize) -> (r: (i64, &V))
        requires
            self.well_formed(),
            i < self.slots().len(),
        ensures
            r.0 == self.slots()[i as int],
            self.map().dom().contains(r.0),
            *r.1 == self.map()[r.0],
    {
        proof {
            self.lemma_at(i as int);
        }
        (self.entries[i].0, &self.entries[i].1)
    }

    pub fn remove(&mut self, k: i64) -> (r: Option<V>)
        requires
            old(self).well_formed(),
        ensures
            final(self).well_formed(),
            final(self).map() == old(self).map().remove(k),
            final(self).slots() == others(old(self).slots(), k),
            match r {
                Some(v) => old(self).map().dom().contains(k) && v == old(self).map()[k],
                None => !old(self).map().dom().contains(k),
            },
    {
        let ghost before = *self;
        match self.find(k) {
            Some(i) => {
                let e = self.entries.remove(i);
                proof {
                    before.lemma_at(i as int);
                    lemma_removed(before, *self, i as int);
                }
                Some(e.1)
            },
            None => {
                proof {
                    self.lemma_slots();
                    assert(!self.map().dom().contains(k));
                    assert(self.map() =~= before.map().remove(k));
                    lemma_filter_all(self.slots(), k);
                }
                None
            },
        }
    }

    pub fn insert(&mut self, k: i64, v: V)
        requires
            old(self).well_formed(),
        ensures
            final(self).well_formed(),
            final(self).map() == old(self).map().insert(k, v),
            final(self).slots() == others(old(self).slots(), k).push(k),
    {
        let _ = self.remove(k);
        let ghost before = *self;
        proof {
            before.lemma_slots();
            assert(!before.map().dom().contains(k));
            assert(!before.has(k));
        }
        self.entries.push((k, v));
        let ghost after = *self;
        proof {
            assert forall|i: int, j: int| 0 <= i < j < after.entries@.len() implies (
            #[trigger] after.entries@[i]).0 != (#[trigger] after.entries@[j]).0 by {
                if j == before.entries@.len() {
                    assert(!before.holds(k, i));
                }
            }
            assert(after.slots() =~= before.slots().push(k));
            assert forall|x: i64| #[trigger] after.has(x) <==> x == k || before.has(x) by {
                if before.has(x) {
                    let i = choose|i: int| #[trigger] before.holds(x, i);
                    assert(after.holds(x, i));
                }
                if x == k {
                    assert(after.holds(x, before.entries@.len() as int));
                }
                if after.has(x) && x != k {
                    let i = choose|i: int| #[trigger] after.holds(x, i);
                    assert(before.holds(x, i));
                }
            }
            assert forall|x: i64| #[trigger] after.has(x) implies after.at(x) == (if x == k {
                v
            } else {
                before.at(x)
            }) by {
                let i = choose|i: int| #[trigger] after.holds(x, i);
                after.lemma_at(i);
                if x != k {
                    assert(before.holds(x, i));
                    before.lemma_at(i);
                }
            }
            assert(after.map() =~= before.map().insert(k, v));
            assert(after.map() =~= old(self).map().insert(k, v));
        }
    }

    pub fn clear(&mut self)
        ensures
            final(self).well_formed(),
            final(self).map() == Map::<i64, V>::empty(),
            final(self).slots() == Seq::<i64>::empty(),
    {
        self.entries.clear();
        assert(self.map() =~= Map::empty());
        assert(self.slots() =~= Seq::empty());
    }

    /// The slots, in order of insertion.
    pub fn keys(&self) -> (r: Vec<i64>)
        ensures
            r@ == self.slots(),
    {
        let mut r: Vec<i64> = Vec::new();
        let mut i: usize = 0;
        while i < self.entries.len()
            invariant
                i <= self.entries.len(),
                r@ == self.slots().take(i as int),
            decreases self.entries.len() - i,
        {
            r.push(self.entries[i].0);
            assert(r@ =~= self.slots().take(i + 1));
            i = i + 1;
        }
        assert(self.slots().take(i as int) =~= self.slots());
        r
    }

    /// Keep only the slots that `keep` lists.
    pub fn retain_in(&mut self, keep: &[i64])
        requires
            old(self).well_formed(),
        ensures
            final(self).well_formed(),
            final(self).map() == old(self).map().restrict(keep@.to_set()),
    {
        let keys = self.keys();
        let ghost all = self.slots();
        let ghost map0 = self.map();
        let mut i: usize = 0;
        proof {
            self.lemma_slots();
        }
        assert forall|k: i64| self.map().dom().contains(k) <==> map0.dom().contains(k) && (
        all.take(0).contains(k) ==> keep@.contains(k)) by {}
        while i < keys.len()
            invariant
                i <= keys.len(),
                keys@ == all,
                self.well_formed(),
                forall|k: i64| #[trigger]
                    self.map().dom().contains(k) <==> map0.dom().contains(k) && (all.take(
                        i as int,
                    ).contains(k) ==> keep@.contains(k)),
                forall|k: i64| #[trigger]
                    self.map().dom().contains(k) ==> self.map()[k] == map0[k],
            decreases keys.len() - i,
        {
            let k = keys[i];
            let ghost prev = self.map();
            let ghost t0 = all.take(i as int);
            let ghost t1 = all.take(i + 1);
            assert(t1 =~= t0.push(k));
            assert(t1[i as int] == k);
            assert forall|x: i64| x != k implies (#[trigger] t1.contains(x) <==> t0.contains(
                x,
            )) by {
                if t0.contains(x) {
                    let j = choose|j: int| 0 <= j < t0.len() && t0[j] == x;
                    assert(t1[j] == x);
                }
                if t1.contains(x) {
                    let j = choose|j: int| 0 <= j < t1.len() && t1[j] == x;
                    assert(t0[j] == x);
                }
            }
            if !contains_slot(keep, k) {
                let _ = self.remove(k);
            }
            i = i + 1;
        }
        assert(all.take(i as int) =~= all);
        assert(self.map() =~= map0.restrict(keep@.to_set()));
    }
}

/// What a list without one slot holds.
pub proof fn lemma_others(s: Seq<i64>, k: i64)
    ensures
        forall|x: i64| #[trigger] others(s, k).contains(x) <==> x != k && s.contains(x),
    decreases s.len(),
{
    reveal(Seq::filter);
    let o = others(s, k);
    if s.len() > 0 {
        let t = s.drop_last();
        let p = others(t, k);
        lemma_others(t, k);
        assert forall|x: i64| #[trigger] o.contains(x) <==> x != k && s.contains(x) by {
            if s.contains(x) && x != k {
                let i = choose|i: int| 0 <= i < s.len() && s[i] == x;
                if i < t.len() {
                    assert(t[i] == x);
                    assert(p.contains(x));
                    let j = choose|j: int| 0 <= j < p.len() && p[j] == x;
                    assert(o[j] == x);
                } else {
                    assert(o[p.len() as int] == x);
                }
            }
            if o.contains(x) {
                let j = choose|j: int| 0 <= j < o.len() && o[j] == x;
                if j < p.len() {
                    assert(p[j] == x);
                    assert(p.contains(x));
                    assert(t.contains(x));
                    let i = choose|i: int| 0 <= i < t.len() && t[i] == x;
                    assert(s[i] == x);
                } else {
                    assert(s[s.len() - 1] == x);
                }
            }
        }
    }
}

proof fn lemma_filter_all(s: Seq<i64>, k: i64)
    requires
        !s.contains(k),
    ensures
        others(s, k) == s,
    decreases s.len(),
{
    reveal(Seq::filter);
    if s.len() > 0 {
        let t = s.drop_last();
        assert(!t.contains(k)) by {
            if t.contains(k) {
                let i = choose|i: int| 0 <= i < t.len() && t[i] == k;
                assert(s[i] == k);
            }
        }
        lemma_filter_all(t, k);
        assert(s[s.len() - 1] == s.last());
        assert(t.push(s.last()) =~= s);
    }
}

proof fn lemma_filter_one(s: Seq<i64>, i: int)
    requires
        0 <= i < s.len(),
        s.no_duplicates(),
    ensures
        others(s, s[i]) == s.remove(i),
    decreases s.len(),
{
    reveal(Seq::filter);
    let k = s[i];
    let t = s.drop_last();
    if i == s.len() - 1 {
        assert(!t.contains(k)) by {
            if t.contains(k) {
                let j = choose|j: int| 0 <= j < t.len() && t[j] == k;
                assert(s[j] == k);
            }
        }
        lemma_filter_all(t, k);
        assert(s.remove(i) =~= t);
    } else {
        assert(t[i] == k);
        lemma_filter_one(t, i);
        assert(s.remove(i) =~= t.remove(i).push(s.last()));
    }
}

proof fn lemma_removed<V>(before: SlotMap<V>, after: SlotMap<V>, i: int)
    requires
        before.well_formed(),
        0 <= i < before.entries@.len(),
        after.entries@ == before.entries@.remove(i),
    ensures
        after.well_formed(),
        after.map() == before.map().remove(before.entries@[i].0),
        after.slots() == others(before.slots(), before.entries@[i].0),
{
    let k = before.entries@[i].0;
    assert forall|a: int, b: int| 0 <= a < b < after.entries@.len() implies (
    #[trigger] after.entries@[a]).0 != (#[trigger] after.entries@[b]).0 by {
        let x = if a < i { a } else { a + 1 };
        let y = if b < i { b } else { b + 1 };
        assert(after.entries@[a] == before.entries@[x]);
        assert(after.entries@[b] == before.entries@[y]);
    }
    assert forall|x: i64| #[trigger] after.has(x) <==> x != k && before.has(x) by {
        if before.has(x) && x != k {
            let j = choose|j: int| #[trigger] before.holds(x, j);
            if j < i {
                assert(after.holds(x, j));
            } else {
                assert(after.holds(x, j - 1));
            }
        }
        if after.has(x) {
            let j = choose|j: int| #[trigger] after.holds(x, j);
            if j < i {
                assert(before.holds(x, j));
            } else {
                assert(before.holds(x, j + 1));
            }
        }
    }
    assert forall|x: i64| #[trigger] after.has(x) implies after.at(x) == before.at(x) by {
        let j = choose|j: int| #[trigger] after.holds(x, j);
        after.lemma_at(j);
        if j < i {
            before.lemma_at(j);
        } else {
            before.lemma_at(j + 1);
        }
    }
    assert(after.map() =~= before.map().remove(k));
    before.lemma_slots();
    lemma_filter_one(before.slots(), i);
    assert(after.slots() =~= before.slots().remove(i));
}

/// Whether a list holds a slot.
pub fn contains_slot(list: &[i64], k: i64) -> (r: bool)
    ensures
        r == list@.contains(k),
{
    let mut i: usize = 0;
    while i < list.len()
        invariant
            i <= list.len(),
            forall|j: int| 0 <= j < i ==> #[trigger] list@[j] != k,
        decreases list.len() - i,
    {
        if list[i] == k {
            assert(list@[i as int] == k);
            return true;
        }
        i = i + 1;
    }
    false
}

} // verus!
