use vstd::prelude::*;

use crate::error::Error;
use crate::list::{List, accepts, after_push, after_remove, keep_last};

verus! {

/// A FIFO queue of capacity `SIZE` that stores its elements in a `List`.
#[derive(Debug)]
pub struct Queue<const SIZE: usize, T, const WRITE_OVER: bool>(List<SIZE, T, WRITE_OVER>);

impl<const SIZE: usize, T, const WRITE_OVER: bool> View for Queue<SIZE, T, WRITE_OVER> {
    type V = Seq<T>;

    /// The queued elements, oldest first.
    closed spec fn view(&self) -> Seq<T> {
        self.0@
    }
}

impl<const SIZE: usize, T, const WRITE_OVER: bool> Queue<SIZE, T, WRITE_OVER> {
    /// The list underneath is well formed.
    pub closed spec fn wf(&self) -> bool {
        self.0.wf()
    }

    /// The queue over `list`.
    pub closed spec fn with_list(list: List<SIZE, T, WRITE_OVER>) -> Self {
        Queue(list)
    }

    /// The list underneath.
    pub closed spec fn spec_list(&self) -> List<SIZE, T, WRITE_OVER> {
        self.0
    }

    /// An empty queue.
    pub fn new() -> (r: Self)
        ensures
            r.wf(),
            r@ == Seq::<T>::empty(),
    {
        Queue(List::new())
    }

    /// The number of queued elements.
    pub fn len(&self) -> (r: usize)
        requires
            self.wf(),
        ensures
            r == self@.len(),
            r <= SIZE,
    {
        self.0.len()
    }

    /// Adds `elem` at the back, as `List::push_back` does, and hands the
    /// queue back for chaining.
    pub fn enqueue(&mut self, elem: T) -> (r: Result<&mut Self, Error>)
        requires
            old(self).wf(),
        ensures
            r is Ok <==> accepts(old(self)@.len(), SIZE as nat, WRITE_OVER),
            r is Ok ==> {
                &&& r->Ok_0.wf()
                &&& r->Ok_0@ == after_push(old(self)@, elem, SIZE as nat, WRITE_OVER)
                &&& *final(self) == *final(r->Ok_0)
            },
            r is Err ==> {
                &&& r->Err_0 == Error::Full
                &&& *final(self) == *old(self)
            },
    {
        match self.0.push_back(elem) {
            Ok(_) => Ok(self),
            Err(err) => Err(err),
        }
    }

    /// The oldest element, left in place, or `None` when empty.
    pub fn peek(&self) -> (r: Option<&T>)
        requires
            self.wf(),
        ensures
            r is None <==> self@.len() == 0,
            r matches Some(x) ==> *x == self@[0],
    {
        if self.0.len() == 0 {
            return None;
        }
        Some(self.0.get(0).unwrap())
    }

    /// Takes the oldest element out, or returns `None` when empty.
    pub fn dequeue(&mut self) -> (r: Option<T>)
        requires
            old(self).wf(),
        ensures
            final(self).wf(),
            r == if old(self)@.len() == 0 { None } else { Some(old(self)@[0]) },
            final(self)@ == after_remove(old(self)@),
    {
        self.0.remove_front()
    }

    /// A queue over an existing list, which keeps its order.
    pub fn from_list(list: List<SIZE, T, WRITE_OVER>) -> (r: Self)
        requires
            list.wf(),
        ensures
            r.wf(),
            r.spec_list() == list,
            r@ == list@,
    {
        Queue(list)
    }

    /// The list underneath, moved out.
    pub fn into_list(self) -> (r: List<SIZE, T, WRITE_OVER>)
        requires
            self.wf(),
        ensures
            r == self.spec_list(),
            r.wf(),
            r@ == self@,
    {
        self.0
    }

    /// The list underneath, for reading.
    pub fn list(&self) -> (r: &List<SIZE, T, WRITE_OVER>)
        requires
            self.wf(),
        ensures
            *r == self.spec_list(),
            r.wf(),
            r@ == self@,
    {
        &self.0
    }

    /// The list underneath, for the list's own operations; whatever is done
    /// through the reference is what the queue holds afterwards.
    pub fn list_mut(&mut self) -> (r: &mut List<SIZE, T, WRITE_OVER>)
        requires
            old(self).wf(),
        ensures
            *r == old(self).spec_list(),
            r.wf(),
            r@ == old(self)@,
            final(self).spec_list() == *final(r),
            final(self)@ == final(r)@,
            final(self).wf() == final(r).wf(),
    {
        &mut self.0
    }

    /// A queue of the elements of `values`, as `List::try_from_vec` builds it.
    pub fn try_from_vec(values: Vec<T>) -> (r: Result<Self, Error>)
        ensures
            r is Err <==> !WRITE_OVER && values@.len() > SIZE,
            r matches Err(e) ==> e == Error::CapacityMismatch,
            r matches Ok(q) ==> q.wf() && q@ == keep_last(values@, SIZE as nat),
    {
        match List::try_from_vec(values) {
            Ok(list) => Ok(Queue(list)),
            Err(err) => Err(err),
        }
    }

    /// A full queue of the array's elements, index 0 first out.
    pub fn from_array(values: [T; SIZE]) -> (r: Self)
        ensures
            r.wf(),
            r@ == values@,
    {
        Queue(List::from_array(values))
    }
}

impl<const SIZE: usize, T> Queue<SIZE, T, false> {
    /// The same elements, in the same order, in a queue that overwrites.
    pub fn into_write_over(self) -> (r: Queue<SIZE, T, true>)
        requires
            self.wf(),
        ensures
            r.spec_list() == self.spec_list().with_policy::<true>(),
            r.wf(),
            r@ == self@,
    {
        Queue(self.0.into_write_over())
    }
}

impl<const SIZE: usize, T> Queue<SIZE, T, true> {
    /// The same elements, in the same order, in a queue that rejects when full.
    pub fn into_reject(self) -> (r: Queue<SIZE, T, false>)
        requires
            self.wf(),
        ensures
            r.spec_list() == self.spec_list().with_policy::<false>(),
            r.wf(),
            r@ == self@,
    {
        Queue(self.0.into_reject())
    }
}

impl<const SIZE: usize, T> From<Queue<SIZE, T, false>> for Queue<SIZE, T, true> {
    /// The same elements, in the same order, in a queue that overwrites.
    fn from(value: Queue<SIZE, T, false>) -> (r: Self)
        ensures
            r.spec_list() == value.spec_list().with_policy::<true>(),
            value.wf() ==> r.wf(),
            r@ == value@,
    {
        Queue(value.0.into_policy())
    }
}

impl<const SIZE: usize, T> vstd::std_specs::convert::FromSpecImpl<Queue<SIZE, T, false>> for Queue<SIZE, T, true> {
    open spec fn obeys_from_spec() -> bool {
        true
    }

    open spec fn from_spec(v: Queue<SIZE, T, false>) -> Self {
        Queue::with_list(v.spec_list().with_policy::<true>())
    }
}

impl<const SIZE: usize, T> From<Queue<SIZE, T, true>> for Queue<SIZE, T, false> {
    /// The same elements, in the same order, in a queue that rejects when full.
    fn from(value: Queue<SIZE, T, true>) -> (r: Self)
        ensures
            r.spec_list() == value.spec_list().with_policy::<false>(),
            value.wf() ==> r.wf(),
            r@ == value@,
    {
        Queue(value.0.into_policy())
    }
}

impl<const SIZE: usize, T> vstd::std_specs::convert::FromSpecImpl<Queue<SIZE, T, true>> for Queue<SIZE, T, false> {
    open spec fn obeys_from_spec() -> bool {
        true
    }

    open spec fn from_spec(v: Queue<SIZE, T, true>) -> Self {
        Queue::with_list(v.spec_list().with_policy::<false>())
    }
}

impl<const SIZE: usize, T, const WRITE_OVER: bool> From<List<SIZE, T, WRITE_OVER>> for Queue<SIZE, T, WRITE_OVER> {
    /// A queue over an existing list, which keeps its order.
    fn from(value: List<SIZE, T, WRITE_OVER>) -> (r: Self)
        ensures
            r.spec_list() == value,
            r.wf() == value.wf(),
            r@ == value@,
    {
        Queue(value)
    }
}

impl<const SIZE: usize, T, const WRITE_OVER: bool> vstd::std_specs::convert::FromSpecImpl<List<SIZE, T, WRITE_OVER>> for Queue<SIZE, T, WRITE_OVER> {
    open spec fn obeys_from_spec() -> bool {
        true
    }

    open spec fn from_spec(v: List<SIZE, T, WRITE_OVER>) -> Self {
        Queue::with_list(v)
    }
}

} // verus!
