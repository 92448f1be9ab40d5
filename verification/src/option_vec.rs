use vstd::prelude::*;

verus! {

/// Number of occupied slots in a sequence of slots.
pub open spec fn occupied_count<T>(s: Seq<Option<T>>) -> nat
    decreases s.len(),
{
    if s.len() == 0 {
        0
    } else {
        occupied_count(s.drop_last()) + (if s.last() is Some { 1nat } else { 0nat })
    }
}

/// One for an occupied slot, zero for an empty one.
pub open spec fn occupancy<T>(o: Option<T>) -> int {
    if o is Some { 1 } else { 0 }
}

/// `i` is the lowest empty slot of `s`, or `s.len()` when every slot is occupied.
pub open spec fn is_first_free<T>(s: Seq<Option<T>>, i: int) -> bool {
    &&& 0 <= i <= s.len()
    &&& forall|j: int| 0 <= j < i ==> #[trigger] s[j] is Some
    &&& i < s.len() ==> s[i] is None
}

/// The slots after an item went into the lowest free slot `i`.
pub open spec fn filled_at<T>(s: Seq<Option<T>>, i: int, item: T) -> Seq<Option<T>> {
    if i < s.len() {
        s.update(i, Some(item))
    } else {
        s.push(Some(item))
    }
}

/// The slots after the slot `idx` was freed; an index past the end frees nothing.
pub open spec fn freed_at<T>(s: Seq<Option<T>>, idx: int) -> Seq<Option<T>> {
    if 0 <= idx < s.len() {
        s.update(idx, None)
    } else {
        s
    }
}

/// Overwriting one slot changes the count by the difference of the two occupancies.
pub proof fn lemma_occupied_count_update<T>(s: Seq<Option<T>>, i: int, v: Option<T>)
    requires
        0 <= i < s.len(),
    ensures
        occupied_count(s.update(i, v)) == occupied_count(s) - occupancy(s[i]) + occupancy(v),
    decreases s.len(),
{
    let u = s.update(i, v);
    if i == s.len() - 1 {
        assert(u.drop_last() =~= s.drop_last());
    } else {
        assert(u.drop_last() =~= s.drop_last().update(i, v));
        lemma_occupied_count_update(s.drop_last(), i, v);
    }
}

/// Appending a slot adds its occupancy to the count.
pub proof fn lemma_occupied_count_push<T>(s: Seq<Option<T>>, v: Option<T>)
    ensures
        occupied_count(s.push(v)) == occupied_count(s) + occupancy(v),
{
    assert(s.push(v).drop_last() =~= s);
}

/// No sequence holds more occupied slots than slots.
pub proof fn lemma_occupied_count_bound<T>(s: Seq<Option<T>>)
    ensures
        occupied_count(s) <= s.len(),
    decreases s.len(),
{
    if s.len() > 0 {
        lemma_occupied_count_bound(s.drop_last());
    }
}

/// Inserting into the lowest free slot puts the item there, leaves every other
/// slot as it was, and adds exactly one occupied slot.
pub proof fn law_insert_keeps_other_slots<T>(s: Seq<Option<T>>, i: int, item: T)
    requires
        is_first_free(s, i),
    ensures
        filled_at(s, i, item)[i] == Some(item),
        forall|j: int| 0 <= j < s.len() && j != i ==> #[trigger] filled_at(s, i, item)[j] == s[j],
        filled_at(s, i, item).len() == (if i < s.len() { s.len() } else { s.len() + 1 }),
        occupied_count(filled_at(s, i, item)) == occupied_count(s) + 1,
{
    if i < s.len() {
        lemma_occupied_count_update(s, i, Some(item));
    } else {
        lemma_occupied_count_push(s, Some(item));
    }
}

/// Freeing a slot empties it, leaves every other slot as it was, and removes
/// one occupied slot exactly when it was occupied.
pub proof fn law_delete_frees_only_that_slot<T>(s: Seq<Option<T>>, idx: int)
    requires
        0 <= idx < s.len(),
    ensures
        freed_at(s, idx)[idx] is None,
        freed_at(s, idx).len() == s.len(),
        forall|j: int| 0 <= j < s.len() && j != idx ==> #[trigger] freed_at(s, idx)[j] == s[j],
        occupied_count(freed_at(s, idx)) == occupied_count(s) - occupancy(s[idx]),
{
    lemma_occupied_count_update(s, idx, None);
}

/// After a slot is freed, the next insertion goes to that slot unless a lower
/// slot was already free.
pub proof fn law_freed_slot_is_reused<T>(s: Seq<Option<T>>, f: int, idx: int)
    requires
        is_first_free(s, f),
        0 <= idx < s.len(),
    ensures
        is_first_free(freed_at(s, idx), if idx < f { idx } else { f }),
{
}

/// Inserting and then deleting at the returned index leaves every earlier
/// slot as it was and the same occupied count; a slot added by the insertion
/// stays, empty. A selection that was empty or on an occupied slot is not the
/// inserted slot, so the deletion keeps it.
pub proof fn law_insert_then_delete<T>(s: Seq<Option<T>>, i: int, item: T, selected: Option<usize>)
    requires
        is_first_free(s, i),
        selected matches Some(k) ==> k < s.len() && s[k as int] is Some,
    ensures
        freed_at(filled_at(s, i, item), i).len() <= s.len() + 1,
        forall|j: int| 0 <= j < s.len() ==> #[trigger] freed_at(filled_at(s, i, item), i)[j] == s[j],
        forall|j: int|
            s.len() <= j < freed_at(filled_at(s, i, item), i).len() ==> #[trigger] freed_at(
                filled_at(s, i, item),
                i,
            )[j] is None,
        occupied_count(freed_at(filled_at(s, i, item), i)) == occupied_count(s),
        selected matches Some(k) ==> k as int != i,
{
    let r = freed_at(filled_at(s, i, item), i);
    if i < s.len() {
        assert(r =~= s);
    } else {
        assert(r =~= s.push(None));
        lemma_occupied_count_push(s, None);
    }
}

/// The lowest empty slot of `s`, or `s.len()` when every slot is occupied.
pub open spec fn first_free_slot<T>(s: Seq<Option<T>>) -> int
    decreases s.len(),
{
    if s.len() == 0 {
        0
    } else if first_free_slot(s.drop_last()) < s.len() - 1 {
        first_free_slot(s.drop_last())
    } else if s.last() is None {
        s.len() - 1
    } else {
        s.len() as int
    }
}

proof fn lemma_first_free_slot<T>(s: Seq<Option<T>>)
    ensures
        is_first_free(s, first_free_slot(s)),
    decreases s.len(),
{
    if s.len() > 0 {
        let d = s.drop_last();
        lemma_first_free_slot(d);
        let f = first_free_slot(d);
        assert forall|j: int| 0 <= j < d.len() implies #[trigger] s[j] == d[j] by {}
        if f < s.len() - 1 {
            assert(s[f] == d[f]);
        } else {
            assert forall|j: int| 0 <= j < s.len() - 1 implies #[trigger] s[j] is Some by {
                assert(d[j] is Some);
            }
        }
    }
}

/// `first_free_slot` is the lowest free slot, and it is the only index that is.
pub proof fn law_first_free_is_unique<T>(s: Seq<Option<T>>, i: int)
    ensures
        is_first_free(s, first_free_slot(s)),
        is_first_free(s, i) ==> i == first_free_slot(s),
{
    lemma_first_free_slot(s);
    let f = first_free_slot(s);
    if is_first_free(s, i) && i != f {
        if i < f {
            assert(s[i] is Some);
        } else {
            assert(s[f] is Some);
        }
    }
}

/// One operation on a list of slots.
pub enum SlotOp<T> {
    /// Put an item into the lowest free slot.
    Insert(T),
    /// Free a slot.
    Delete(usize),
    /// Write an item into an occupied slot through element access.
    Write(usize, T),
}

/// The slots after one operation.
pub open spec fn apply_slot_op<T>(s: Seq<Option<T>>, op: SlotOp<T>) -> Seq<Option<T>> {
    match op {
        SlotOp::Insert(item) => filled_at(s, first_free_slot(s), item),
        SlotOp::Delete(idx) => freed_at(s, idx as int),
        SlotOp::Write(idx, item) => if idx < s.len() && s[idx as int] is Some {
            s.update(idx as int, Some(item))
        } else {
            s
        },
    }
}

/// The slots after a sequence of operations, first to last.
pub open spec fn run_slot_ops<T>(s: Seq<Option<T>>, ops: Seq<SlotOp<T>>) -> Seq<Option<T>>
    decreases ops.len(),
{
    if ops.len() == 0 {
        s
    } else {
        apply_slot_op(run_slot_ops(s, ops.drop_last()), ops.last())
    }
}

/// Inserting, deleting and writing through element access never remove a
/// slot, so every index handed out stays below the length; and no list holds
/// more occupied slots than slots.
pub proof fn law_length_never_shrinks<T>(s: Seq<Option<T>>, ops: Seq<SlotOp<T>>)
    ensures
        run_slot_ops(s, ops).len() >= s.len(),
        occupied_count(run_slot_ops(s, ops)) <= run_slot_ops(s, ops).len(),
    decreases ops.len(),
{
    if ops.len() > 0 {
        law_length_never_shrinks(s, ops.drop_last());
        let prev = run_slot_ops(s, ops.drop_last());
        law_first_free_is_unique(prev, 0);
    }
    lemma_occupied_count_bound(run_slot_ops(s, ops));
}

/// A vector of optional slots. Items keep their index for as long as they
/// live; deleting an item frees its slot, and inserting fills the lowest free
/// slot before growing the vector.
pub struct OptionVec<T> {
    optionvec: Vec<Option<T>>,
}

impl<T> View for OptionVec<T> {
    type V = Seq<Option<T>>;

    closed spec fn view(&self) -> Seq<Option<T>> {
        self.optionvec@
    }
}

impl<T> OptionVec<T> {
    /// An empty vector of slots.
    pub fn new() -> (v: Self)
        ensures
            v@ == Seq::<Option<T>>::empty(),
    {
        OptionVec { optionvec: Vec::new() }
    }

    /// An empty vector of slots with room reserved for `capacity` of them.
    pub fn with_capacity(capacity: usize) -> (v: Self)
        ensures
            v@ == Seq::<Option<T>>::empty(),
    {
        OptionVec { optionvec: Vec::with_capacity(capacity) }
    }

    /// Number of slots, occupied or not.
    pub fn len(&self) -> (n: usize)
        ensures
            n == self@.len(),
    {
        self.optionvec.len()
    }

    /// Number of occupied slots.
    pub fn count(&self) -> (n: usize)
        ensures
            n == occupied_count(self@),
    {
        let mut n: usize = 0;
        let mut i: usize = 0;
        while i < self.optionvec.len()
            invariant
                i <= self.optionvec@.len(),
                n == occupied_count(self.optionvec@.subrange(0, i as int)),
            decreases self.optionvec@.len() - i,
        {
            let ghost s = self.optionvec@;
            proof {
                assert(s.subrange(0, i as int + 1).drop_last() =~= s.subrange(0, i as int));
                lemma_occupied_count_bound(s.subrange(0, i as int));
            }
            if self.optionvec[i].is_some() {
                n = n + 1;
            }
            i = i + 1;
        }
        proof {
            assert(self.optionvec@.subrange(0, i as int) =~= self.optionvec@);
        }
        n
    }

    /// Puts `item` into the lowest free slot, growing the vector when none is
    /// free, and returns that slot's index.
    pub fn insert(&mut self, item: T) -> (idx: usize)
        requires
            old(self)@.len() < usize::MAX,
        ensures
            is_first_free(old(self)@, idx as int),
            idx == first_free_slot(old(self)@),
            final(self)@ == filled_at(old(self)@, idx as int, item),
    {
        let len = self.optionvec.len();
        let mut i: usize = 0;
        while i < len && self.optionvec[i].is_some()
            invariant
                i <= len,
                len == self.optionvec@.len(),
                self.optionvec@ == old(self).optionvec@,
                forall|j: int| 0 <= j < i ==> #[trigger] self.optionvec@[j] is Some,
            decreases len - i,
        {
            i = i + 1;
        }
        proof {
            law_first_free_is_unique(old(self)@, i as int);
        }
        if i < len {
            self.optionvec.set(i, Some(item));
        } else {
            self.optionvec.push(Some(item));
        }
        i
    }

    /// Frees the slot `idx`; an index past the end changes nothing.
    pub fn delete(&mut self, idx: usize)
        ensures
            final(self)@ == freed_at(old(self)@, idx as int),
    {
        if idx < self.optionvec.len() {
            self.optionvec.set(idx, None);
        }
    }

    /// Removes every slot.
    pub fn clear(&mut self)
        ensures
            final(self)@ == Seq::<Option<T>>::empty(),
    {
        self.optionvec.clear();
    }

    /// The item in slot `idx`, if that slot exists and is occupied.
    pub fn get_element(&self, idx: usize) -> (r: Option<&T>)
        ensures
            r == (if idx < self@.len() {
                match self@[idx as int] {
                    Some(t) => Some(&t),
                    None => None,
                }
            } else {
                None
            }),
    {
        if idx < self.optionvec.len() {
            self.optionvec[idx].as_ref()
        } else {
            None
        }
    }

    /// Mutable access to the item in slot `idx`, if that slot exists and is
    /// occupied; whatever is written through it ends up in that slot.
    pub fn get_mut_element(&mut self, idx: usize) -> (r: Option<&mut T>)
        ensures
            r is Some ==> {
                &&& idx < old(self)@.len()
                &&& old(self)@[idx as int] == Some(*r.unwrap())
                &&& final(self)@ == old(self)@.update(idx as int, Some(*final(r.unwrap())))
            },
            r is None ==> {
                &&& (idx >= old(self)@.len() || old(self)@[idx as int] is None)
                &&& final(self)@ == old(self)@
            },
    {
        if idx < self.optionvec.len() {
            self.optionvec[idx].as_mut()
        } else {
            None
        }
    }
}

} // verus!
