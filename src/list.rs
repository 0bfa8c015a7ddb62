use vstd::prelude::*;
use vstd::arithmetic::div_mod::{lemma_mod_sub_multiples_vanish, lemma_small_mod};

use crate::error::Error;

verus! {

/// Physical slot of logical position `i` when the front sits at `head`.
pub open spec fn physical(head: int, i: int, n: int) -> int {
    (head + i) % n
}

/// Within one turn around the block, the modulus is one subtraction at most.
proof fn lemma_physical(head: int, i: int, n: int)
    requires
        0 <= head < n,
        0 <= i <= n,
    ensures
        physical(head, i, n) == if head + i < n { head + i } else { head + i - n },
{
    if head + i < n {
        lemma_small_mod((head + i) as nat, n as nat);
    } else {
        lemma_small_mod((head + i - n) as nat, n as nat);
        lemma_mod_sub_multiples_vanish(head + i, n);
    }
}

/// Advancing the front by one and then walking `j` positions reaches the
/// slot that lay `j + 1` positions from the old front.
proof fn lemma_physical_shift(head: int, j: int, n: int)
    requires
        0 <= head < n,
        0 <= j < n,
    ensures
        0 <= physical(head, 1, n) < n,
        physical(physical(head, 1, n), j, n) == physical(head, j + 1, n),
{
    lemma_physical(head, 1, n);
    lemma_physical(physical(head, 1, n), j, n);
    lemma_physical(head, j + 1, n);
}

/// The last `n` elements of `s`, or the whole of `s` when it holds no more.
pub open spec fn keep_last<T>(s: Seq<T>, n: nat) -> Seq<T> {
    if s.len() <= n {
        s
    } else {
        s.subrange(s.len() - n, s.len() as int)
    }
}

/// Whether an insertion into a container of `len` elements and capacity
/// `cap` is taken: always under the overwrite policy, otherwise while there
/// is room.
pub open spec fn accepts(len: nat, cap: nat, write_over: bool) -> bool {
    write_over || len < cap
}

/// The elements after inserting `v` at the back of `s`: an accepted value
/// is appended and, past the capacity, the oldest elements drop out.
pub open spec fn after_push<T>(s: Seq<T>, v: T, cap: nat, write_over: bool) -> Seq<T> {
    if accepts(s.len(), cap, write_over) {
        keep_last(s.push(v), cap)
    } else {
        s
    }
}

/// The elements after removing the front of `s`, if there is one.
pub open spec fn after_remove<T>(s: Seq<T>) -> Seq<T> {
    if s.len() == 0 {
        s
    } else {
        s.drop_first()
    }
}

/// Trimming to the last `n` before an append changes nothing that survives
/// the trim after it.
proof fn lemma_keep_last_push<T>(s: Seq<T>, x: T, n: nat)
    ensures
        keep_last(keep_last(s, n).push(x), n) == keep_last(s.push(x), n),
{
    assert(keep_last(keep_last(s, n).push(x), n) =~= keep_last(s.push(x), n));
}

/// Relies on std's `<Vec<T> as From<[T; N]>>::from`: it allocates a vector
/// and moves the array's items into it, in their order.
#[verifier::external_body]
fn vec_from_array<T, const N: usize>(values: [T; N]) -> (r: Vec<T>)
    ensures
        r@ == values@,
{
    Vec::from(values)
}

/// A cyclic container of capacity `SIZE`. The slot of logical position `i`
/// is `(head + i) mod SIZE`; an insertion into a full container fails when
/// `WRITE_OVER` is false and evicts the front element when it is true.
#[derive(Debug)]
pub struct List<const SIZE: usize, T, const WRITE_OVER: bool> {
    slots: Vec<Option<T>>,
    head: usize,
    length: usize,
}

impl<const SIZE: usize, T, const WRITE_OVER: bool> View for List<SIZE, T, WRITE_OVER> {
    type V = Seq<T>;

    /// The live elements, front first.
    closed spec fn view(&self) -> Seq<T> {
        Seq::new(self.length as nat, |i: int| self.slots@[physical(self.head as int, i, SIZE as int)]->Some_0)
    }
}

impl<const SIZE: usize, T, const WRITE_OVER: bool> List<SIZE, T, WRITE_OVER> {
    /// The block has `SIZE` slots, the front lies inside it, and exactly the
    /// slots of logical positions below the length hold an element.
    pub closed spec fn wf(&self) -> bool {
        &&& self.slots@.len() == SIZE
        &&& self.length <= SIZE
        &&& if SIZE == 0 { self.head == 0 } else { self.head < SIZE }
        &&& forall|i: int| 0 <= i < SIZE ==>
            (#[trigger] self.slots@[physical(self.head as int, i, SIZE as int)] is Some <==> i < self.length)
    }

    /// The slot of logical position `i`: `(head + i) mod SIZE`, computed
    /// without overflow.
    fn physical_index(&self, i: usize) -> (r: usize)
        requires
            self.wf(),
            0 < SIZE,
            i <= SIZE,
        ensures
            r == physical(self.head as int, i as int, SIZE as int),
            r < SIZE,
    {
        proof { lemma_physical(self.head as int, i as int, SIZE as int); }
        if i < SIZE - self.head {
            self.head + i
        } else {
            i - (SIZE - self.head)
        }
    }

    /// An empty container with all `SIZE` slots vacant.
    pub fn new() -> (r: Self)
        ensures
            r.wf(),
            r@ == Seq::<T>::empty(),
    {
        let mut slots: Vec<Option<T>> = Vec::new();
        let mut k: usize = 0;
        while k < SIZE
            invariant
                k <= SIZE,
                slots@.len() == k,
                forall|j: int| 0 <= j < k ==> slots@[j] is None,
            decreases SIZE - k,
        {
            slots.push(None);
            k = k + 1;
        }
        let r = List { slots, head: 0, length: 0 };
        assert forall|i: int| 0 <= i < SIZE implies
            (#[trigger] r.slots@[physical(0, i, SIZE as int)] is Some <==> i < 0) by {
            lemma_physical(0, i, SIZE as int);
        }
        assert(r@ =~= Seq::<T>::empty());
        r
    }

    /// The number of live elements.
    pub fn len(&self) -> (r: usize)
        requires
            self.wf(),
        ensures
            r == self@.len(),
            r <= SIZE,
    {
        self.length
    }

    /// Writes `value` into the slot just past the back.
    fn write_back(&mut self, value: T)
        requires
            old(self).wf(),
            old(self)@.len() < SIZE,
        ensures
            final(self).wf(),
            final(self)@ == old(self)@.push(value),
    {
        let ghost h = self.head as int;
        let ghost n = SIZE as int;
        let ghost before = self@;
        let p = self.physical_index(self.length);
        self.slots.set(p, Some(value));
        self.length = self.length + 1;
        proof {
            lemma_physical(h, self.length - 1, n);
            assert forall|i: int| 0 <= i < n implies
                (#[trigger] self.slots@[physical(h, i, n)] is Some <==> i < self.length) by {
                lemma_physical(h, i, n);
            }
            assert forall|i: int| 0 <= i < self.length - 1 implies self@[i] == before[i] by {
                lemma_physical(h, i, n);
            }
            assert(self@ =~= before.push(value));
        }
    }

    /// Appends `value` at the back. A full container rejects it with
    /// `Error::Full` and stays as it was under the reject policy; under the
    /// overwrite policy the front element is evicted first.
    pub fn push_back(&mut self, value: T) -> (r: Result<(), Error>)
        requires
            old(self).wf(),
        ensures
            final(self).wf(),
            r is Ok <==> accepts(old(self)@.len(), SIZE as nat, WRITE_OVER),
            r is Err ==> r == Err::<(), Error>(Error::Full) && *final(self) == *old(self),
            final(self)@ == after_push(old(self)@, value, SIZE as nat, WRITE_OVER),
    {
        let ghost before = self@;
        if self.length == SIZE {
            if !WRITE_OVER {
                return Err(Error::Full);
            }
            if SIZE == 0 {
                assert(keep_last(before.push(value), 0) =~= Seq::<T>::empty());
                return Ok(());
            }
            let _evicted = self.remove_front();
        }
        self.write_back(value);
        assert(after_push(before, value, SIZE as nat, WRITE_OVER) =~= self@);
        Ok(())
    }

    /// Takes the front element out, or returns `None` when empty.
    pub fn remove_front(&mut self) -> (r: Option<T>)
        requires
            old(self).wf(),
        ensures
            final(self).wf(),
            r == if old(self)@.len() == 0 { None } else { Some(old(self)@[0]) },
            final(self)@ == after_remove(old(self)@),
    {
        if self.length == 0 {
            return None;
        }
        let ghost h = self.head as int;
        let ghost n = SIZE as int;
        let ghost before = self@;
        let p = self.physical_index(0);
        let next = self.physical_index(1);
        let mut out: Option<T> = None;
        self.slots.set_and_swap(p, &mut out);
        self.head = next;
        self.length = self.length - 1;
        proof {
            lemma_physical(h, 0, n);
            assert forall|i: int| 0 <= i < n implies
                (#[trigger] self.slots@[physical(self.head as int, i, n)] is Some <==> i < self.length) by {
                lemma_physical_shift(h, i, n);
                lemma_physical(h, i + 1, n);
                if i + 1 < n {
                    assert(self.slots@[physical(h, i + 1, n)] == old(self).slots@[physical(h, i + 1, n)]);
                }
            }
            assert forall|i: int| 0 <= i < self.length implies self@[i] == before[i + 1] by {
                lemma_physical_shift(h, i, n);
                lemma_physical(h, i + 1, n);
            }
            assert(self@ =~= before.drop_first());
        }
        out
    }

    /// A reference to the element at logical position `i`, front first, or
    /// `Error::IndexOutOfRange` when `i` is not below the length.
    pub fn get(&self, i: usize) -> (r: Result<&T, Error>)
        requires
            self.wf(),
        ensures
            i < self@.len() ==> (r matches Ok(x) && *x == self@[i as int]),
            i >= self@.len() ==> r == Err::<&T, Error>(Error::IndexOutOfRange),
    {
        if i >= self.length {
            return Err(Error::IndexOutOfRange);
        }
        let p = self.physical_index(i);
        Ok(self.slots[p].as_ref().unwrap())
    }

    /// Replaces the element at logical position `i`, dropping the old one,
    /// or returns `Error::IndexOutOfRange` and changes nothing when `i` is
    /// not below the length.
    pub fn set(&mut self, i: usize, value: T) -> (r: Result<(), Error>)
        requires
            old(self).wf(),
        ensures
            final(self).wf(),
            r is Ok <==> i < old(self)@.len(),
            r is Err ==> r == Err::<(), Error>(Error::IndexOutOfRange) && *final(self) == *old(self),
            final(self)@ == if i < old(self)@.len() {
                old(self)@.update(i as int, value)
            } else {
                old(self)@
            },
    {
        if i >= self.length {
            return Err(Error::IndexOutOfRange);
        }
        let ghost h = self.head as int;
        let ghost n = SIZE as int;
        let ghost before = self@;
        let p = self.physical_index(i);
        self.slots.set(p, Some(value));
        proof {
            assert forall|j: int| 0 <= j < n implies
                (#[trigger] self.slots@[physical(h, j, n)] is Some <==> j < self.length) by {
                lemma_physical(h, j, n);
                lemma_physical(h, i as int, n);
            }
            assert forall|j: int| 0 <= j < self.length implies self@[j] == before.update(i as int, value)[j] by {
                lemma_physical(h, j, n);
                lemma_physical(h, i as int, n);
            }
            assert(self@ =~= before.update(i as int, value));
        }
        Ok(())
    }

    /// Pushes every element of `values` in order into an empty container.
    fn load(values: Vec<T>) -> (r: Self)
        requires
            WRITE_OVER || values@.len() <= SIZE,
        ensures
            r.wf(),
            r@ == keep_last(values@, SIZE as nat),
    {
        let mut r = Self::new();
        let ghost all = values@;
        for x in it: values.into_iter()
            invariant
                r.wf(),
                it.seq() == all,
                WRITE_OVER || all.len() <= SIZE,
                r@ == keep_last(all.take(it.index() as int), SIZE as nat),
        {
            proof {
                lemma_keep_last_push(all.take(it.index() as int), x, SIZE as nat);
                assert(all.take(it.index() as int).push(x) =~= all.take(it.index() + 1));
            }
            let _accepted = r.push_back(x);
        }
        assert(all.take(all.len() as int) =~= all);
        r
    }

    /// A container holding the elements of `values` in order. Under the
    /// reject policy a source of more than `SIZE` elements is refused with
    /// `Error::CapacityMismatch`; under the overwrite policy only its last
    /// `SIZE` elements are kept.
    pub fn try_from_vec(values: Vec<T>) -> (r: Result<Self, Error>)
        ensures
            r is Err <==> !WRITE_OVER && values@.len() > SIZE,
            r matches Err(e) ==> e == Error::CapacityMismatch,
            r matches Ok(l) ==> l.wf() && l@ == keep_last(values@, SIZE as nat),
    {
        if !WRITE_OVER && values.len() > SIZE {
            return Err(Error::CapacityMismatch);
        }
        Ok(Self::load(values))
    }

    /// A full container holding the array's elements, index 0 at the front.
    pub fn from_array(values: [T; SIZE]) -> (r: Self)
        ensures
            r.wf(),
            r@ == values@,
    {
        let v = vec_from_array(values);
        Self::load(v)
    }
}

impl<const SIZE: usize, T, const WRITE_OVER: bool> List<SIZE, T, WRITE_OVER> {
    /// The same slots, front and length under the policy `W`.
    pub closed spec fn with_policy<const W: bool>(self) -> List<SIZE, T, W> {
        List { slots: self.slots, head: self.head, length: self.length }
    }

    /// Moves the live window, unchanged, into a container of policy `W`.
    pub(crate) fn into_policy<const W: bool>(self) -> (r: List<SIZE, T, W>)
        ensures
            r == self.with_policy::<W>(),
            self.wf() ==> r.wf(),
            r@ == self@,
    {
        List { slots: self.slots, head: self.head, length: self.length }
    }
}

impl<const SIZE: usize, T> List<SIZE, T, false> {
    /// The same elements, in the same order, under the overwrite policy.
    pub fn into_write_over(self) -> (r: List<SIZE, T, true>)
        requires
            self.wf(),
        ensures
            r == self.with_policy::<true>(),
            r.wf(),
            r@ == self@,
    {
        self.into_policy()
    }
}

impl<const SIZE: usize, T> List<SIZE, T, true> {
    /// The same elements, in the same order, under the reject policy.
    pub fn into_reject(self) -> (r: List<SIZE, T, false>)
        requires
            self.wf(),
        ensures
            r == self.with_policy::<false>(),
            r.wf(),
            r@ == self@,
    {
        self.into_policy()
    }
}

impl<const SIZE: usize, T, const WRITE_OVER: bool> Default for List<SIZE, T, WRITE_OVER> {
    fn default() -> (r: Self)
        ensures
            r.wf(),
            r@ == Seq::<T>::empty(),
    {
        Self::new()
    }
}

/// Turning a reject-policy container into an overwrite-policy one and back
/// gives the same container; the elements and their order are the same at
/// every step.
pub proof fn lemma_policy_round_trip<const SIZE: usize, T>(l: List<SIZE, T, false>)
    requires
        l.wf(),
    ensures
        l.with_policy::<true>().wf(),
        l.with_policy::<true>()@ == l@,
        l.with_policy::<true>().with_policy::<false>() == l,
{
    assert(l.with_policy::<true>()@ =~= l@);
}

} // verus!
