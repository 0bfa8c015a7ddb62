//! What holds of every run of insertions and removals on a container,
//! stated over the same functions on sequences that the containers'
//! own contracts use.

use vstd::prelude::*;

use crate::list::{accepts, after_push, after_remove, keep_last};

verus! {

/// One call on a container: `push_back(v)` or `remove_front()`.
pub enum Op<T> {
    PushBack(T),
    RemoveFront,
}

/// The elements held after running `ops` on an empty container.
pub open spec fn contents<T>(ops: Seq<Op<T>>, cap: nat, write_over: bool) -> Seq<T>
    decreases ops.len(),
{
    if ops.len() == 0 {
        Seq::empty()
    } else {
        let s = contents(ops.drop_last(), cap, write_over);
        match ops.last() {
            Op::PushBack(v) => after_push(s, v, cap, write_over),
            Op::RemoveFront => after_remove(s),
        }
    }
}

/// Every value that `ops` offers for insertion, in order.
pub open spec fn offered<T>(ops: Seq<Op<T>>) -> Seq<T>
    decreases ops.len(),
{
    if ops.len() == 0 {
        Seq::empty()
    } else {
        let o = offered(ops.drop_last());
        match ops.last() {
            Op::PushBack(v) => o.push(v),
            Op::RemoveFront => o,
        }
    }
}

/// The values whose insertion was taken, in order.
pub open spec fn admitted<T>(ops: Seq<Op<T>>, cap: nat, write_over: bool) -> Seq<T>
    decreases ops.len(),
{
    if ops.len() == 0 {
        Seq::empty()
    } else {
        let a = admitted(ops.drop_last(), cap, write_over);
        let s = contents(ops.drop_last(), cap, write_over);
        match ops.last() {
            Op::PushBack(v) => if accepts(s.len(), cap, write_over) { a.push(v) } else { a },
            Op::RemoveFront => a,
        }
    }
}

/// The values that `remove_front` handed out, in order.
pub open spec fn removed<T>(ops: Seq<Op<T>>, cap: nat, write_over: bool) -> Seq<T>
    decreases ops.len(),
{
    if ops.len() == 0 {
        Seq::empty()
    } else {
        let r = removed(ops.drop_last(), cap, write_over);
        let s = contents(ops.drop_last(), cap, write_over);
        match ops.last() {
            Op::PushBack(_) => r,
            Op::RemoveFront => if s.len() == 0 { r } else { r.push(s[0]) },
        }
    }
}

/// The values that left the container, handed out or evicted, in the order
/// in which they left.
pub open spec fn departed<T>(ops: Seq<Op<T>>, cap: nat, write_over: bool) -> Seq<T>
    decreases ops.len(),
{
    if ops.len() == 0 {
        Seq::empty()
    } else {
        let d = departed(ops.drop_last(), cap, write_over);
        let s = contents(ops.drop_last(), cap, write_over);
        match ops.last() {
            Op::PushBack(v) => if accepts(s.len(), cap, write_over) {
                let t = s.push(v);
                d + t.take(t.len() - keep_last(t, cap).len())
            } else {
                d
            },
            Op::RemoveFront => if s.len() == 0 { d } else { d.push(s[0]) },
        }
    }
}

/// A container never holds more than its capacity.
pub proof fn lemma_length_bounded<T>(ops: Seq<Op<T>>, cap: nat, write_over: bool)
    ensures
        contents(ops, cap, write_over).len() <= cap,
    decreases ops.len(),
{
    if ops.len() > 0 {
        lemma_length_bounded(ops.drop_last(), cap, write_over);
    }
}

/// Under the reject policy the length never exceeds the capacity, and an
/// insertion into a full container is refused and leaves every element in
/// place.
pub proof fn lemma_reject_policy<T>(ops: Seq<Op<T>>, cap: nat, v: T)
    ensures
        contents(ops, cap, false).len() <= cap,
        contents(ops, cap, false).len() == cap ==> {
            &&& !accepts(contents(ops, cap, false).len(), cap, false)
            &&& after_push(contents(ops, cap, false), v, cap, false) == contents(ops, cap, false)
        },
{
    lemma_length_bounded(ops, cap, false);
}

/// Under the overwrite policy the length never exceeds the capacity, every
/// insertion is taken, and after an insertion into a full container the
/// front is what was second oldest before it.
pub proof fn lemma_overwrite_policy<T>(ops: Seq<Op<T>>, cap: nat, v: T)
    ensures
        contents(ops, cap, true).len() <= cap,
        accepts(contents(ops, cap, true).len(), cap, true),
        contents(ops, cap, true).len() == cap >= 2 ==> {
            let s = contents(ops, cap, true);
            &&& after_push(s, v, cap, true).len() == cap
            &&& after_push(s, v, cap, true)[0] == s[1]
            &&& after_push(s, v, cap, true).last() == v
        },
{
    lemma_length_bounded(ops, cap, true);
}

/// Order is kept under either policy: what left, followed by what is still
/// held, is exactly what was taken in, in the order it was inserted. Under
/// the reject policy nothing leaves but through `remove_front`; under the
/// overwrite policy every offered value is taken.
pub proof fn lemma_fifo<T>(ops: Seq<Op<T>>, cap: nat, write_over: bool)
    ensures
        departed(ops, cap, write_over) + contents(ops, cap, write_over) == admitted(ops, cap, write_over),
        !write_over ==> departed(ops, cap, write_over) == removed(ops, cap, write_over),
        write_over ==> admitted(ops, cap, write_over) == offered(ops),
    decreases ops.len(),
{
    if ops.len() > 0 {
        let p = ops.drop_last();
        lemma_fifo(p, cap, write_over);
        lemma_length_bounded(p, cap, write_over);
        let d = departed(p, cap, write_over);
        let s = contents(p, cap, write_over);
        let a = admitted(p, cap, write_over);
        match ops.last() {
            Op::PushBack(v) => {
                if accepts(s.len(), cap, write_over) {
                    let t = s.push(v);
                    let k = keep_last(t, cap);
                    assert(t.take(t.len() - k.len()) + k =~= t);
                    assert(d + t.take(t.len() - k.len()) + k =~= d + (t.take(t.len() - k.len()) + k));
                    assert(d + t =~= a.push(v));
                    if !write_over {
                        assert(t.take(t.len() - k.len()) =~= Seq::<T>::empty());
                        assert(d + Seq::<T>::empty() =~= d);
                    }
                }
            },
            Op::RemoveFront => {
                if s.len() > 0 {
                    assert(d.push(s[0]) + s.drop_first() =~= d + s);
                }
            },
        }
    }
}

} // verus!
