use vstd::prelude::*;

verus! {

/// Number of occupied entries in a table's backing storage.
pub open spec fn occupied_count<T>(s: Seq<Option<T>>) -> int
    decreases s.len(),
{
    if s.len() == 0 {
        0
    } else {
        occupied_count(s.drop_last()) + if s.last() is Some {
            1int
        } else {
            0int
        }
    }
}

proof fn lemma_occ_bounds<T>(s: Seq<Option<T>>)
    ensures
        0 <= occupied_count(s) <= s.len(),
    decreases s.len(),
{
    if s.len() > 0 {
        lemma_occ_bounds(s.drop_last());
    }
}

proof fn lemma_occ_update<T>(s: Seq<Option<T>>, i: int, v: Option<T>)
    requires
        0 <= i < s.len(),
    ensures
        occupied_count(s.update(i, v)) == occupied_count(s) - (if s[i] is Some {
            1int
        } else {
            0int
        }) + (if v is Some {
            1int
        } else {
            0int
        }),
    decreases s.len(),
{
    let t = s.update(i, v);
    if i == s.len() - 1 {
        assert(t.drop_last() =~= s.drop_last());
    } else {
        assert(t.drop_last() =~= s.drop_last().update(i, v));
        lemma_occ_update(s.drop_last(), i, v);
        assert(t.last() == s.last());
    }
}

proof fn lemma_occ_all_none<T>(s: Seq<Option<T>>)
    requires
        forall|i: int| 0 <= i < s.len() ==> s[i] is None,
    ensures
        occupied_count(s) == 0,
    decreases s.len(),
{
    if s.len() > 0 {
        lemma_occ_all_none(s.drop_last());
    }
}

proof fn lemma_occ_none_lt<T>(s: Seq<Option<T>>, i: int)
    requires
        0 <= i < s.len(),
        s[i] is None,
    ensures
        occupied_count(s) < s.len(),
    decreases s.len(),
{
    if i == s.len() - 1 {
        lemma_occ_bounds(s.drop_last());
    } else {
        lemma_occ_none_lt(s.drop_last(), i);
    }
}

proof fn lemma_occ_all_some<T>(s: Seq<Option<T>>)
    requires
        forall|i: int| 0 <= i < s.len() ==> s[i] is Some,
    ensures
        occupied_count(s) == s.len(),
    decreases s.len(),
{
    if s.len() > 0 {
        lemma_occ_all_some(s.drop_last());
    }
}

/// An occupied slot lies in the table's slot range.
pub broadcast proof fn lemma_has_in_range<T>(sl: Slab<T>, s: int)
    requires
        #[trigger] sl.has(s),
    ensures
        sl.start() <= s < sl.start() + sl.capacity(),
{
}

/// Slot range and starting slot are never negative.
pub broadcast proof fn lemma_bounds_nonneg<T>(sl: Slab<T>)
    ensures
        0 <= #[trigger] sl.capacity(),
        0 <= sl.start(),
{
}

/// Under the invariant, the whole slot range fits in a word.
pub broadcast proof fn lemma_range_fits<T>(sl: Slab<T>)
    requires
        #[trigger] sl.inv(),
    ensures
        sl.start() + sl.capacity() <= usize::MAX,
{
}

/// Under the invariant, the occupancy counter stays within the capacity.
pub broadcast proof fn lemma_count_bounds<T>(sl: Slab<T>)
    requires
        #[trigger] sl.inv(),
    ensures
        0 <= sl.spec_count() <= sl.capacity(),
{
    lemma_occ_bounds(sl.entries@);
}

/// A densely indexed table with stable slot numbers and a fixed capacity.
///
/// Slots run from `start()` up to but excluding `start() + capacity()`;
/// the starting slot is typically 1 so that slot 0 can serve as the
/// sentinel that never names a real entity. `insert` places a value into
/// the lowest free slot and fails exactly when the table is full;
/// `remove` frees a slot and hands the value back.
pub struct Slab<T> {
    entries: Vec<Option<T>>,
    first: usize,
    count: usize,
}

impl<T> Slab<T> {
    /// The first valid slot number.
    pub closed spec fn start(self) -> int {
        self.first as int
    }

    /// The fixed number of slots.
    pub closed spec fn capacity(self) -> int {
        self.entries@.len() as int
    }

    /// The number of occupied slots.
    pub closed spec fn spec_count(self) -> int {
        self.count as int
    }

    /// The content of slot `s`, `None` for free or out-of-range slots.
    pub closed spec fn entry(self, s: int) -> Option<T> {
        if self.start() <= s < self.start() + self.capacity() {
            self.entries@[s - self.start()]
        } else {
            None
        }
    }

    /// Slot `s` is occupied.
    pub open spec fn has(self, s: int) -> bool {
        self.entry(s) is Some
    }

    /// The value in occupied slot `s`.
    pub open spec fn at(self, s: int) -> T
        recommends
            self.has(s),
    {
        self.entry(s)->Some_0
    }

    /// The occupancy counter matches the storage and the slot range fits
    /// in a word.
    pub closed spec fn inv(self) -> bool {
        &&& self.count == occupied_count(self.entries@)
        &&& self.first + self.entries@.len() <= usize::MAX
    }

    /// An empty table whose slots are `start .. start + capacity`.
    pub fn new(start: usize, capacity: usize) -> (s: Slab<T>)
        requires
            start + capacity <= usize::MAX,
        ensures
            s.inv(),
            s.start() == start,
            s.capacity() == capacity,
            s.spec_count() == 0,
            forall|i: int| !s.has(i),
    {
        let mut entries: Vec<Option<T>> = Vec::new();
        let mut k: usize = 0;
        while k < capacity
            invariant
                k <= capacity,
                entries@.len() == k,
                forall|i: int| 0 <= i < k ==> entries@[i] is None,
            decreases capacity - k,
        {
            entries.push(None);
            k += 1;
        }
        proof {
            lemma_occ_all_none(entries@);
        }
        Slab { entries, first: start, count: 0 }
    }

    /// The number of occupied slots.
    pub fn len(&self) -> (r: usize)
        ensures
            r == self.spec_count(),
    {
        self.count
    }

    pub fn capacity_slots(&self) -> (r: usize)
        ensures
            r == self.capacity(),
    {
        self.entries.len()
    }

    pub fn start_slot(&self) -> (r: usize)
        ensures
            r == self.start(),
    {
        self.first
    }

    /// One past the last valid slot number.
    pub fn end_slot(&self) -> (r: usize)
        requires
            self.inv(),
        ensures
            r == self.start() + self.capacity(),
    {
        self.first + self.entries.len()
    }

    /// The slot the next `insert` will use: the lowest free slot, or
    /// `None` exactly when the table is full.
    pub fn peek_vacant(&self) -> (r: Option<usize>)
        requires
            self.inv(),
        ensures
            match r {
                Some(s) => {
                    &&& self.spec_count() < self.capacity()
                    &&& self.start() <= (s as int) && (s as int) < self.start() + self.capacity()
                    &&& !self.has(s as int)
                    &&& forall|t: int| self.start() <= t < s as int ==> self.has(t)
                },
                None => self.spec_count() == self.capacity(),
            },
    {
        let mut idx: usize = 0;
        while idx < self.entries.len()
            invariant
                self.inv(),
                idx <= self.entries@.len(),
                forall|i: int| 0 <= i < idx ==> self.entries@[i] is Some,
            decreases self.entries@.len() - idx,
        {
            if self.entries[idx].is_none() {
                proof {
                    lemma_occ_none_lt(self.entries@, idx as int);
                }
                return Some(self.first + idx);
            }
            idx += 1;
        }
        proof {
            lemma_occ_all_some(self.entries@);
        }
        None
    }

    pub fn is_full(&self) -> (r: bool)
        ensures
            r == (self.spec_count() == self.capacity()),
    {
        self.count == self.entries.len()
    }

    pub fn get(&self, slot: usize) -> (r: Option<&T>)
        ensures
            match r {
                Some(v) => self.has(slot as int) && *v == self.at(slot as int),
                None => !self.has(slot as int),
            },
    {
        if slot < self.first {
            return None;
        }
        let idx = slot - self.first;
        if idx >= self.entries.len() {
            return None;
        }
        self.entries[idx].as_ref()
    }

    pub fn get_mut(&mut self, slot: usize) -> (r: Option<&mut T>)
        ensures
            match r {
                None => !old(self).has(slot as int) && *final(self) == *old(self),
                Some(v) => {
                    &&& old(self).has(slot as int)
                    &&& *v == old(self).at(slot as int)
                    &&& final(self).start() == old(self).start()
                    &&& final(self).capacity() == old(self).capacity()
                    &&& final(self).spec_count() == old(self).spec_count()
                    &&& final(self).has(slot as int)
                    &&& final(self).at(slot as int) == *final(v)
                    &&& forall|i: int|
                        i != slot as int ==> final(self).entry(i) == old(self).entry(i)
                },
            },
    {
        if slot < self.first {
            return None;
        }
        let idx = slot - self.first;
        if idx >= self.entries.len() {
            return None;
        }
        if self.entries[idx].is_none() {
            return None;
        }
        self.entries[idx].as_mut()
    }

    /// Replacing the value of one occupied slot by another value, with
    /// the counter untouched, preserves the table invariant. Stated for
    /// callers that mutate a slot through `get_mut`.
    pub proof fn lemma_inv_after_value_update(pre: Slab<T>, post: Slab<T>, s: int)
        requires
            pre.inv(),
            post.start() == pre.start(),
            post.capacity() == pre.capacity(),
            post.spec_count() == pre.spec_count(),
            pre.has(s),
            post.has(s),
            forall|i: int| i != s ==> post.entry(i) == pre.entry(i),
        ensures
            post.inv(),
    {
        let idx = s - pre.start();
        assert forall|i: int| 0 <= i < post.entries@.len() && i != idx implies post.entries@[i]
            == pre.entries@[i] by {
            assert(post.entry(i + pre.start()) == pre.entry(i + pre.start()));
        }
        assert(post.entries@ =~= pre.entries@.update(idx, post.entries@[idx]));
        lemma_occ_update(pre.entries@, idx, post.entries@[idx]);
    }

    /// Place `value` into the lowest free slot. Fails, handing the value
    /// back, exactly when every slot is occupied.
    pub fn insert(&mut self, value: T) -> (r: Result<usize, T>)
        requires
            old(self).inv(),
        ensures
            final(self).inv(),
            final(self).start() == old(self).start(),
            final(self).capacity() == old(self).capacity(),
            match r {
                Ok(s) => {
                    &&& old(self).spec_count() < old(self).capacity()
                    &&& old(self).start() <= (s as int) && (s as int) < old(self).start()
                        + old(self).capacity()
                    &&& !old(self).has(s as int)
                    &&& forall|t: int| old(self).start() <= t < s as int ==> old(self).has(t)
                    &&& final(self).has(s as int)
                    &&& final(self).at(s as int) == value
                    &&& forall|t: int| t != s as int ==> final(self).entry(t) == old(self).entry(t)
                    &&& final(self).spec_count() == old(self).spec_count() + 1
                },
                Err(v) => {
                    &&& v == value
                    &&& *final(self) == *old(self)
                    &&& old(self).spec_count() == old(self).capacity()
                },
            },
    {
        let mut idx: usize = 0;
        while idx < self.entries.len()
            invariant
                *self == *old(self),
                old(self).inv(),
                idx <= self.entries@.len(),
                forall|i: int| 0 <= i < idx ==> self.entries@[i] is Some,
            decreases self.entries@.len() - idx,
        {
            if self.entries[idx].is_none() {
                let ghost pre = *self;
                self.entries[idx] = Some(value);
                proof {
                    lemma_occ_update(pre.entries@, idx as int, self.entries@[idx as int]);
                    lemma_occ_bounds(self.entries@);
                }
                self.count = self.count + 1;
                return Ok(self.first + idx);
            }
            idx += 1;
        }
        proof {
            lemma_occ_all_some(self.entries@);
        }
        Err(value)
    }

    /// Overwrite the value in an occupied slot.
    pub fn set_at(&mut self, slot: usize, value: T)
        requires
            old(self).has(slot as int),
        ensures
            final(self).start() == old(self).start(),
            final(self).capacity() == old(self).capacity(),
            final(self).spec_count() == old(self).spec_count(),
            final(self).has(slot as int),
            final(self).at(slot as int) == value,
            forall|i: int| i != slot as int ==> final(self).entry(i) == old(self).entry(i),
            old(self).inv() ==> final(self).inv(),
    {
        let ghost pre = *self;
        let idx = slot - self.first;
        self.entries[idx] = Some(value);
        proof {
            lemma_occ_update(pre.entries@, idx as int, self.entries@[idx as int]);
        }
    }

    /// Free a slot, handing back its value; `None` if the slot was
    /// already free or out of range.
    pub fn remove(&mut self, slot: usize) -> (r: Option<T>)
        requires
            old(self).inv(),
        ensures
            final(self).inv(),
            final(self).start() == old(self).start(),
            final(self).capacity() == old(self).capacity(),
            match r {
                None => !old(self).has(slot as int) && *final(self) == *old(self),
                Some(v) => {
                    &&& old(self).has(slot as int)
                    &&& v == old(self).at(slot as int)
                    &&& !final(self).has(slot as int)
                    &&& forall|i: int|
                        i != slot as int ==> final(self).entry(i) == old(self).entry(i)
                    &&& final(self).spec_count() == old(self).spec_count() - 1
                },
            },
    {
        if slot < self.first {
            return None;
        }
        let idx = slot - self.first;
        if idx >= self.entries.len() {
            return None;
        }
        if self.entries[idx].is_none() {
            return None;
        }
        let ghost pre = *self;
        let taken = self.entries[idx].take();
        proof {
            lemma_occ_update(pre.entries@, idx as int, None);
            lemma_occ_bounds(pre.entries@.update(idx as int, None));
        }
        let v = taken.unwrap();
        self.count = self.count - 1;
        Some(v)
    }
}

} // verus!
