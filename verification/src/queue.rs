//! A bounded first-in first-out queue.
use std::collections::VecDeque;
use vstd::prelude::*;

verus! {

/// A FIFO queue that holds at most `capacity` items.
#[derive(Debug)]
pub struct Queue<T> {
    data: VecDeque<T>,
    capacity: usize,
}

impl<T> View for Queue<T> {
    type V = Seq<T>;

    closed spec fn view(&self) -> Seq<T> {
        self.data@
    }
}

impl<T> Queue<T> {
    /// The number of items the queue can hold.
    pub closed spec fn spec_capacity(&self) -> nat {
        self.capacity as nat
    }

    pub fn new(capacity: usize) -> (q: Self)
        ensures
            q@ == Seq::<T>::empty(),
            q.spec_capacity() == capacity,
    {
        Self { data: VecDeque::with_capacity(capacity), capacity }
    }

    /// Appends `item` at the back; hands it back when the queue is full.
    #[must_use]
    pub fn try_push(&mut self, item: T) -> (r: Option<T>)
        ensures
            final(self).spec_capacity() == old(self).spec_capacity(),
            old(self)@.len() >= old(self).spec_capacity() ==> r == Some(item) && final(self)@
                == old(self)@,
            old(self)@.len() < old(self).spec_capacity() ==> r is None && final(self)@ == old(
                self,
            )@.push(item),
    {
        if self.is_full() {
            return Some(item);
        }
        self.data.push_back(item);
        None
    }

    /// Removes the item at the front.
    pub fn try_pop(&mut self) -> (r: Option<T>)
        ensures
            final(self).spec_capacity() == old(self).spec_capacity(),
            old(self)@.len() == 0 ==> r is None && final(self)@ == old(self)@,
            old(self)@.len() > 0 ==> r == Some(old(self)@[0]) && final(self)@ == old(
                self,
            )@.drop_first(),
    {
        self.data.pop_front()
    }

    /// The item at the front.
    pub fn front(&self) -> (r: Option<&T>)
        ensures
            self@.len() == 0 ==> r is None,
            self@.len() > 0 ==> r == Some(&self@[0]),
    {
        if self.data.len() == 0 {
            None
        } else {
            Some(&self.data[0])
        }
    }

    /// The item at the back.
    pub fn back(&self) -> (r: Option<&T>)
        ensures
            self@.len() == 0 ==> r is None,
            self@.len() > 0 ==> r == Some(&self@.last()),
    {
        let n = self.data.len();
        if n == 0 {
            None
        } else {
            Some(&self.data[n - 1])
        }
    }

    pub fn is_full(&self) -> (r: bool)
        ensures
            r == (self@.len() >= self.spec_capacity()),
    {
        self.data.len() >= self.capacity
    }

    pub fn len(&self) -> (r: usize)
        ensures
            r == self@.len(),
    {
        self.data.len()
    }

    /// The `i`-th item from the front.
    pub fn get(&self, i: usize) -> (r: &T)
        requires
            i < self@.len(),
        ensures
            *r == self@[i as int],
    {
        &self.data[i]
    }

    /// Replaces the `i`-th item from the front.
    pub fn set(&mut self, i: usize, item: T)
        requires
            i < old(self)@.len(),
        ensures
            final(self).spec_capacity() == old(self).spec_capacity(),
            final(self)@ == old(self)@.update(i as int, item),
    {
        let ghost before = self.data@;
        self.data.remove(i);
        self.data.insert(i, item);
        assert(self.data@ =~= before.update(i as int, item));
    }

    /// Keeps the items on which `f` holds, in order; `pred` is what `f` computes.
    pub fn retain<F>(&mut self, f: F, Ghost(pred): Ghost<spec_fn(T) -> bool>) where F: Fn(&T) -> bool
        requires
            forall|x: &T| call_requires(f, (x,)),
            forall|x: &T, b: bool| call_ensures(f, (x,), b) ==> b == pred(*x),
        ensures
            final(self).spec_capacity() == old(self).spec_capacity(),
            final(self)@ == old(self)@.filter(pred),
    {
        let ghost orig = self.data@;
        let ghost cap = self.capacity;
        let n = self.data.len();
        let mut kept: VecDeque<T> = VecDeque::new();
        let mut i: usize = 0;
        while i < n
            invariant
                0 <= i <= n,
                n == orig.len(),
                self.capacity == cap,
                self.data@ == orig.skip(i as int),
                kept@ == orig.take(i as int).filter(pred),
                forall|x: &T| call_requires(f, (x,)),
                forall|x: &T, b: bool| call_ensures(f, (x,), b) ==> b == pred(*x),
            decreases n - i,
        {
            let ghost s = self.data@;
            let x = self.data.pop_front().unwrap();
            assert(x == orig[i as int]);
            let keep = f(&x);
            proof {
                assert(orig.take(i + 1).drop_last() == orig.take(i as int));
                assert(orig.take(i + 1).last() == x);
                reveal(Seq::filter);
            }
            if keep {
                kept.push_back(x);
            }
            assert(orig.skip(i + 1) == s.drop_first());
            i = i + 1;
        }
        assert(orig.take(n as int) == orig);
        self.data = kept;
    }
}

/// What a queue of capacity `cap` holding `s` holds after `try_push` of
/// each item of `xs` in turn, a push onto a full queue being refused.
pub open spec fn after_pushes<T>(s: Seq<T>, cap: nat, xs: Seq<T>) -> Seq<T>
    decreases xs.len(),
{
    if xs.len() == 0 {
        s
    } else {
        let before = after_pushes(s, cap, xs.drop_last());
        if before.len() < cap {
            before.push(xs.last())
        } else {
            before
        }
    }
}

/// A queue made with capacity `cap` accepts exactly `cap` pushes: pushing
/// the items of `xs` onto an empty one keeps the first `cap` of them, in
/// order, and refuses the rest.
pub proof fn lemma_capacity_pushes<T>(cap: nat, xs: Seq<T>)
    ensures
        after_pushes(Seq::empty(), cap, xs) == xs.take(if xs.len() < cap {
            xs.len() as int
        } else {
            cap as int
        }),
    decreases xs.len(),
{
    if xs.len() > 0 {
        let ys = xs.drop_last();
        lemma_capacity_pushes(cap, ys);
        if ys.len() < cap {
            assert(ys.take(ys.len() as int).push(xs.last()) =~= xs.take(xs.len() as int));
        } else {
            assert(ys.take(cap as int) =~= xs.take(cap as int));
        }
    }
}

} // verus!
