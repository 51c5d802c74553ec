//! The decisions of the service loop: requests parked until they can make
//! progress, their cancellation, and the re-arming of the periodic timer.
use vstd::prelude::*;

verus! {

/// A parked request, and whether a cancellation for it arrived.
pub struct Todo<T> {
    pub request: T,
    pub cancelling: bool,
}

/// What became of a parked request on a retry.
pub enum Verdict<T> {
    /// It completed: its response goes out and it leaves the list.
    Completed(T),
    /// It could not complete and was cancelled: it is answered with
    /// `Interrupted` and leaves the list.
    Interrupted(T),
    /// It stays parked.
    Kept,
}

/// Parked requests, oldest first.
pub struct TodoList<T> {
    items: Vec<Todo<T>>,
}

impl<T> TodoList<T> {
    pub closed spec fn items(&self) -> Seq<Todo<T>> {
        self.items@
    }

    pub fn new() -> (r: TodoList<T>)
        ensures
            r.items() == Seq::<Todo<T>>::empty(),
    {
        TodoList { items: Vec::new() }
    }

    pub fn len(&self) -> (r: usize)
        ensures
            r == self.items().len(),
    {
        self.items.len()
    }

    /// The request parked at position `i`.
    pub fn get(&self, i: usize) -> (r: &T)
        requires
            i < self.items().len(),
        ensures
            *r == self.items()[i as int].request,
    {
        &self.items[i].request
    }

    /// Parks `request` behind the others.
    pub fn push(&mut self, request: T)
        ensures
            final(self).items() == old(self).items().push(Todo { request, cancelling: false }),
    {
        self.items.push(Todo { request, cancelling: false });
    }

    /// Marks the request at position `i` as cancelled.
    pub fn cancel(&mut self, i: usize)
        requires
            i < old(self).items().len(),
        ensures
            final(self).items().len() == old(self).items().len(),
            final(self).items()[i as int].cancelling,
            forall|j: int| 0 <= j < old(self).items().len() && j != i ==> final(self).items()[j] == old(self).items()[j],
            final(self).items()[i as int].request == old(self).items()[i as int].request,
    {
        self.items[i].cancelling = true;
    }

    /// Settles the request at position `i` after a retry that `completed`
    /// or not.
    pub fn resolve(&mut self, i: usize, completed: bool) -> (r: Verdict<T>)
        requires
            i < old(self).items().len(),
        ensures
            completed ==> r == Verdict::Completed(old(self).items()[i as int].request) && final(self).items()
                == old(self).items().remove(i as int),
            !completed && old(self).items()[i as int].cancelling ==> r == Verdict::Interrupted(
                old(self).items()[i as int].request,
            ) && final(self).items() == old(self).items().remove(i as int),
            !completed && !old(self).items()[i as int].cancelling ==> r == Verdict::<T>::Kept && final(self).items()
                == old(self).items(),
    {
        if completed {
            let t = self.items.remove(i);
            Verdict::Completed(t.request)
        } else if self.items[i].cancelling {
            let t = self.items.remove(i);
            Verdict::Interrupted(t.request)
        } else {
            Verdict::Kept
        }
    }
}

/// Nanoseconds in a second.
pub const NANOS: i64 = 1_000_000_000;

/// The period of the timer, in nanoseconds.
pub const TICK_NANOS: i64 = 100_000_000;

/// The time one tick after `sec` seconds and `nsec` nanoseconds, with the
/// nanoseconds carried into the seconds.
pub fn next_deadline(sec: i64, nsec: i64) -> (r: (i64, i64))
    requires
        0 <= nsec < NANOS,
        sec < i64::MAX,
    ensures
        r.0 * NANOS + r.1 == sec * NANOS + nsec + TICK_NANOS,
        0 <= r.1 < NANOS,
{
    let mut s = sec;
    let mut n = nsec + TICK_NANOS;
    while n >= NANOS
        invariant
            s * NANOS + n == sec * NANOS + nsec + TICK_NANOS,
            0 <= n < NANOS + TICK_NANOS,
            sec < i64::MAX,
            sec <= s <= sec + 1,
            s == sec + 1 ==> n < NANOS,
        decreases n,
    {
        s += 1;
        n -= NANOS;
    }
    (s, n)
}

} // verus!
