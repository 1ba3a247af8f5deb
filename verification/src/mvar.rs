//! A FIFO hand-over cell with an exit signal.
//!
//! Values put in come out in the order they were put. Once exit is
//! signalled, taking from an empty cell gives `None` instead of waiting.
//! This is the cell's state and its rules; a caller that shares it between
//! threads holds it behind a lock and waits on a condition variable when
//! `take` would have to wait.
use std::collections::VecDeque;
use vstd::prelude::*;

verus! {

/// A FIFO hand-over cell with an exit signal.
#[derive(Debug)]
pub struct MVar<T> {
    queue: VecDeque<T>,
    exit_flag: bool,
}

impl<T> MVar<T> {
    /// The values waiting, oldest first.
    pub closed spec fn queued(&self) -> Seq<T> {
        self.queue@
    }

    /// Whether exit was signalled.
    pub closed spec fn exiting(&self) -> bool {
        self.exit_flag
    }

    /// Whether `take` can answer now: a value is waiting or exit was
    /// signalled.
    pub open spec fn can_take(&self) -> bool {
        self.queued().len() > 0 || self.exiting()
    }

    /// An empty cell.
    pub fn new() -> (m: Self)
        ensures
            m.queued() == Seq::<T>::empty(),
            !m.exiting(),
    {
        MVar { queue: VecDeque::new(), exit_flag: false }
    }

    /// Put a value in, behind the ones waiting.
    pub fn put(&mut self, value: T)
        ensures
            final(self).queued() == old(self).queued().push(value),
            final(self).exiting() == old(self).exiting(),
    {
        self.queue.push_back(value);
    }

    /// Take the oldest value; `None` when none is waiting and exit was
    /// signalled. (With none waiting and no exit signalled, a caller waits
    /// for a `put` or a `signal_exit` first.)
    pub fn take(&mut self) -> (r: Option<T>)
        requires
            old(self).can_take(),
        ensures
            old(self).queued().len() > 0 ==> r == Some(old(self).queued()[0]) && final(self).queued()
                == old(self).queued().drop_first(),
            old(self).queued().len() == 0 ==> r is None && final(self).queued() == old(self).queued(),
            final(self).exiting() == old(self).exiting(),
    {
        self.queue.pop_front()
    }

    /// Take the oldest value if one is waiting.
    pub fn try_take(&mut self) -> (r: Option<T>)
        ensures
            old(self).queued().len() > 0 ==> r == Some(old(self).queued()[0]) && final(self).queued()
                == old(self).queued().drop_first(),
            old(self).queued().len() == 0 ==> r is None && final(self).queued() == old(self).queued(),
            final(self).exiting() == old(self).exiting(),
    {
        self.queue.pop_front()
    }

    /// Signal exit: waiting takes give up once the cell is empty.
    pub fn signal_exit(&mut self)
        ensures
            final(self).queued() == old(self).queued(),
            final(self).exiting(),
    {
        self.exit_flag = true;
    }

    /// The number of values waiting.
    pub fn len(&self) -> (n: usize)
        ensures
            n == self.queued().len(),
    {
        self.queue.len()
    }

    /// Whether exit was signalled.
    pub fn is_exit_signaled(&self) -> (b: bool)
        ensures
            b == self.exiting(),
    {
        self.exit_flag
    }
}

impl<T> Default for MVar<T> {
    fn default() -> (m: Self)
        ensures
            m.queued() == Seq::<T>::empty(),
            !m.exiting(),
    {
        MVar::new()
    }
}

/// Values come out in the order they went in: after putting `a` then `b`
/// into an empty cell, taking gives `a`, then `b`.
pub proof fn law_mvar_is_fifo<T>(q0: Seq<T>, a: T, b: T)
    requires
        q0.len() == 0,
    ensures
        q0.push(a).push(b)[0] == a,
        q0.push(a).push(b).drop_first()[0] == b,
        q0.push(a).push(b).drop_first().drop_first().len() == 0,
{
}

} // verus!
