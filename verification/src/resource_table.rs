//! Per-instance store of opaque host objects indexed by reusable integer
//! handles, with last-freed-first-reused recycling and a permanently
//! reserved low range for built-in resources.

use vstd::prelude::*;

verus! {

/// Hands out reusable integer handles for opaque host objects.
///
/// Indices `0 .. reserved` are filled at construction with built-in objects
/// and are never released: dropping one of them is a no-op and they never
/// enter the free list. Every other index is at any time either occupied or
/// present exactly once in the free list; `save` pops the most recently
/// freed index first and only grows the table when no freed index is left.
pub struct ResourceTable<T> {
    slots: Vec<Option<T>>,
    free: Vec<usize>,
    reserved: usize,
}

impl<T> ResourceTable<T> {
    /// The stored objects, one optional entry per index.
    pub closed spec fn slots_view(self) -> Seq<Option<T>> {
        self.slots@
    }

    /// The free list, oldest freed index first.
    pub closed spec fn free_view(self) -> Seq<usize> {
        self.free@
    }

    /// How many low indices are permanently reserved for built-ins.
    pub closed spec fn reserved_count(self) -> int {
        self.reserved as int
    }

    /// Number of slots ever allocated (occupied or free).
    pub open spec fn len(self) -> int {
        self.slots_view().len() as int
    }

    /// Whether index `i` currently holds an object.
    pub open spec fn occupied(self, i: int) -> bool {
        0 <= i < self.len() && self.slots_view()[i] is Some
    }

    /// Well-formedness: the reserved range is occupied, free-list entries
    /// are empty non-reserved in-range indices listed exactly once, and
    /// every empty non-reserved index is on the free list.
    pub open spec fn wf(self) -> bool {
        &&& 0 <= self.reserved_count() <= self.len()
        &&& forall|j: int|
            0 <= j < self.free_view().len() ==> self.reserved_count() <= #[trigger] self.free_view()[j] < self.len()
        &&& forall|j: int|
            0 <= j < self.free_view().len() ==> self.slots_view()[#[trigger] self.free_view()[j] as int] is None
        &&& forall|j: int, k: int|
            0 <= j < k < self.free_view().len() ==> self.free_view()[j] != self.free_view()[k]
        &&& forall|i: usize|
            self.reserved_count() <= i as int && (i as int) < self.len() && self.slots_view()[i as int] is None
                ==> self.free_view().contains(i)
        &&& forall|i: int| 0 <= i < self.reserved_count() ==> self.slots_view()[i] is Some
    }

    /// How one `save` call relates the table before to the table after and
    /// to the returned handle: the most recently freed index is reused
    /// first; with no freed index left, a slot is appended at the end.
    pub open spec fn save_step(pre: Self, post: Self, obj: T, h: usize) -> bool {
        &&& post.reserved_count() == pre.reserved_count()
        &&& if pre.free_view().len() > 0 {
            &&& h == pre.free_view().last()
            &&& post.free_view() == pre.free_view().drop_last()
            &&& post.slots_view() == pre.slots_view().update(h as int, Some(obj))
        } else {
            &&& h as int == pre.len()
            &&& post.free_view() == pre.free_view()
            &&& post.slots_view() == pre.slots_view().push(Some(obj))
        }
    }

    /// How one `drop_handle` call relates the table before to the table
    /// after: an occupied non-reserved in-range index is cleared and pushed
    /// onto the free list; any other handle leaves the table unchanged.
    pub open spec fn drop_step(pre: Self, post: Self, h: usize) -> bool {
        if pre.reserved_count() <= h as int && (h as int) < pre.len() && pre.slots_view()[h as int] is Some {
            &&& post.slots_view() == pre.slots_view().update(h as int, None::<T>)
            &&& post.free_view() == pre.free_view().push(h)
            &&& post.reserved_count() == pre.reserved_count()
        } else {
            &&& post.slots_view() == pre.slots_view()
            &&& post.free_view() == pre.free_view()
            &&& post.reserved_count() == pre.reserved_count()
        }
    }

    /// Builds a table whose first `builtins.len()` indices hold the given
    /// built-in objects and are permanently reserved; the free list starts
    /// empty.
    pub fn new(builtins: Vec<T>) -> (t: Self)
        ensures
            t.wf(),
            t.reserved_count() == builtins@.len(),
            t.len() == builtins@.len(),
            forall|i: int| 0 <= i < builtins@.len() ==> t.slots_view()[i] == Some(builtins@[i]),
            t.free_view() == Seq::<usize>::empty(),
    {
        let reserved = builtins.len();
        let ghost orig = builtins@;
        let mut rest = builtins;
        let mut slots: Vec<Option<T>> = Vec::new();
        while rest.len() > 0
            invariant
                slots@.len() + rest@.len() == orig.len(),
                forall|i: int| 0 <= i < slots@.len() ==> slots@[i] == Some(orig[i]),
                forall|j: int| 0 <= j < rest@.len() ==> rest@[j] == orig[slots@.len() + j],
            decreases rest@.len(),
        {
            let obj = rest.remove(0);
            slots.push(Some(obj));
        }
        ResourceTable { slots, free: Vec::new(), reserved }
    }

    /// Stores `object` and returns a handle that is immediately valid for
    /// `get` and `drop_handle`: the most recently freed index if one
    /// exists, otherwise a fresh index at the end of the table.
    pub fn save(&mut self, object: T) -> (h: usize)
        requires
            old(self).wf(),
        ensures
            final(self).wf(),
            Self::save_step(*old(self), *final(self), object, h),
            old(self).reserved_count() <= h as int,
            (h as int) < final(self).len(),
            final(self).slots_view()[h as int] == Some(object),
    {
        match self.free.pop() {
            Some(h) => {
                self.slots.set(h, Some(object));
                proof {
                    let pre = *old(self);
                    let post = *self;
                    assert forall|i: usize|
                        post.reserved_count() <= i as int && (i as int) < post.len()
                            && post.slots_view()[i as int] is None
                            implies post.free_view().contains(i) by {
                        assert(pre.free_view().contains(i));
                        let j = choose|j: int|
                            0 <= j < pre.free_view().len() && pre.free_view()[j] == i;
                        assert(j < pre.free_view().len() - 1);
                        assert(post.free_view()[j] == i);
                    }
                }
                h
            },
            None => {
                let h = self.slots.len();
                self.slots.push(Some(object));
                h
            },
        }
    }

    /// Returns the object stored at `handle`, or nothing for a freed,
    /// reserved-but-never-set, or out-of-range index; absence is an
    /// ordinary result, not an error.
    pub fn get(&self, handle: usize) -> (r: Option<&T>)
        ensures
            match r {
                Some(v) => self.occupied(handle as int) && self.slots_view()[handle as int] == Some(*v),
                None => !self.occupied(handle as int),
            },
    {
        if handle < self.slots.len() {
            match &self.slots[handle] {
                Some(v) => Some(v),
                None => None,
            }
        } else {
            None
        }
    }

    /// Clears the slot at `handle` and makes the index the next one that
    /// `save` reuses. Dropping a reserved, out-of-range, or already-free
    /// handle is a no-op, so untrusted double-drops cannot corrupt the
    /// table.
    pub fn drop_handle(&mut self, handle: usize)
        requires
            old(self).wf(),
        ensures
            final(self).wf(),
            Self::drop_step(*old(self), *final(self), handle),
    {
        if handle < self.reserved || handle >= self.slots.len() {
            return ;
        }
        if self.slots[handle].is_some() {
            self.slots.set(handle, None);
            self.free.push(handle);
            proof {
                let pre = *old(self);
                let post = *self;
                assert forall|j: int, k: int|
                    0 <= j < k < post.free_view().len() implies post.free_view()[j] != post.free_view()[k] by {
                    if k == post.free_view().len() - 1 {
                        assert(pre.slots_view()[pre.free_view()[j] as int] is None);
                    }
                }
                assert forall|i: usize|
                    post.reserved_count() <= i as int && (i as int) < post.len()
                        && post.slots_view()[i as int] is None
                        implies post.free_view().contains(i) by {
                    if i == handle {
                        assert(post.free_view()[post.free_view().len() - 1] == handle);
                    } else {
                        assert(pre.free_view().contains(i));
                        let j = choose|j: int|
                            0 <= j < pre.free_view().len() && pre.free_view()[j] == i;
                        assert(post.free_view()[j] == i);
                    }
                }
            }
        }
    }

    /// Number of slots currently allocated, reserved ones included.
    pub fn length(&self) -> (n: usize)
        ensures
            n as int == self.len(),
    {
        self.slots.len()
    }

    /// How many low indices are permanently reserved for built-ins.
    pub fn reserved_slots(&self) -> (n: usize)
        ensures
            n as int == self.reserved_count(),
    {
        self.reserved
    }
}

/// Handle reuse is last-freed-first-reused: after drops of occupied
/// non-reserved handles `h1` then `h2`, the next save returns `h2` and the
/// one after it returns `h1`, provided no other saves intervene.
pub proof fn lemma_reuse_is_lifo<T>(
    t0: ResourceTable<T>,
    t1: ResourceTable<T>,
    t2: ResourceTable<T>,
    t3: ResourceTable<T>,
    t4: ResourceTable<T>,
    h1: usize,
    h2: usize,
    s1: usize,
    s2: usize,
    x: T,
    y: T,
)
    requires
        t0.wf(),
        t0.reserved_count() <= h1 as int,
        (h1 as int) < t0.len(),
        t0.slots_view()[h1 as int] is Some,
        t1.reserved_count() <= h2 as int,
        (h2 as int) < t1.len(),
        t1.slots_view()[h2 as int] is Some,
        ResourceTable::drop_step(t0, t1, h1),
        ResourceTable::drop_step(t1, t2, h2),
        ResourceTable::save_step(t2, t3, x, s1),
        ResourceTable::save_step(t3, t4, y, s2),
    ensures
        s1 == h2,
        s2 == h1,
{
    assert(t2.free_view() == t0.free_view().push(h1).push(h2));
    assert(t2.free_view().last() == h2);
    assert(t3.free_view() == t0.free_view().push(h1));
    assert(t3.free_view().last() == h1);
}

/// The reserved range is stable: a save never returns a reserved index,
/// and no reserved index ever appears in the free list.
pub proof fn lemma_reserved_never_reissued<T>(
    pre: ResourceTable<T>,
    post: ResourceTable<T>,
    obj: T,
    h: usize,
)
    requires
        pre.wf(),
        ResourceTable::save_step(pre, post, obj, h),
    ensures
        h as int >= pre.reserved_count(),
        forall|j: int|
            0 <= j < pre.free_view().len() ==> #[trigger] pre.free_view()[j] as int >= pre.reserved_count(),
{
}

/// Dropping a reserved index never releases it: the table is unchanged.
pub proof fn lemma_drop_reserved_is_noop<T>(
    pre: ResourceTable<T>,
    post: ResourceTable<T>,
    h: usize,
)
    requires
        pre.wf(),
        (h as int) < pre.reserved_count(),
        ResourceTable::drop_step(pre, post, h),
    ensures
        post.slots_view() == pre.slots_view(),
        post.free_view() == pre.free_view(),
        post.reserved_count() == pre.reserved_count(),
{
}

/// Occupied and free partition the index range: every non-reserved index
/// in `[0, len)` is occupied exactly when it is not on the free list, free
/// indices are listed exactly once, and reserved indices are always
/// occupied and never on the free list.
pub proof fn lemma_occupied_free_partition<T>(t: ResourceTable<T>)
    requires
        t.wf(),
    ensures
        forall|i: usize|
            t.reserved_count() <= i as int && (i as int) < t.len()
                ==> (t.occupied(i as int) <==> !t.free_view().contains(i)),
        forall|i: usize|
            (i as int) < t.reserved_count() ==> t.occupied(i as int) && !t.free_view().contains(i),
        forall|j: int, k: int|
            0 <= j < k < t.free_view().len() ==> t.free_view()[j] != t.free_view()[k],
{
    assert forall|i: usize|
        t.reserved_count() <= i as int && (i as int) < t.len()
            implies (t.occupied(i as int) <==> !t.free_view().contains(i)) by {
        if t.free_view().contains(i) {
            let j = choose|j: int| 0 <= j < t.free_view().len() && t.free_view()[j] == i;
            assert(t.slots_view()[t.free_view()[j] as int] is None);
        }
    }
    assert forall|i: usize|
        (i as int) < t.reserved_count()
            implies t.occupied(i as int) && !t.free_view().contains(i) by {
        if t.free_view().contains(i) {
            let j = choose|j: int| 0 <= j < t.free_view().len() && t.free_view()[j] == i;
            assert(t.free_view()[j] as int >= t.reserved_count());
        }
    }
}

} // verus!
