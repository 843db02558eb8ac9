//! The worker pool's bookkeeping, verified: admission of tasks, the
//! first-in-first-out order of the queue, and shutdown. The pool's
//! actual worker threads live outside the library; they claim tickets
//! from this state and run the closures the process keeps for them,
//! each task to completion before the next.

use vstd::prelude::*;

verus! {

/// The bookkeeping of a pool of `threads` long-lived workers sharing one
/// unbounded task queue. A task is represented by its ticket, handed out
/// by `execute` and claimed by workers in the order of submission: the
/// pool bounds how many tasks run at once, never which ones run.
#[derive(Debug)]
pub struct ThreadPool {
    threads: usize,
    verbose: bool,
    open: bool,
    pending: Vec<u64>,
    next_task: u64,
}

impl ThreadPool {
    /// The number of worker threads.
    pub closed spec fn spec_threads(&self) -> usize {
        self.threads
    }

    /// Whether the pool logs verbosely.
    pub closed spec fn spec_verbose(&self) -> bool {
        self.verbose
    }

    /// Whether the pool still accepts tasks.
    pub closed spec fn spec_open(&self) -> bool {
        self.open
    }

    /// The queued tickets, oldest first.
    pub closed spec fn spec_pending(&self) -> Seq<u64> {
        self.pending@
    }

    /// The ticket the next submitted task will get.
    pub closed spec fn spec_next(&self) -> u64 {
        self.next_task
    }

    /// Creates a pool of `size` workers; a pool of no workers cannot be
    /// created.
    pub fn new(size: usize) -> (r: Result<ThreadPool, String>)
        ensures
            size == 0 ==> (r matches Err(e) && e@ == "thread pool needs at least one worker"@),
            size > 0 ==> (r matches Ok(p) && p.spec_threads() == size && p.spec_open()
                && !p.spec_verbose() && p.spec_pending() == Seq::<u64>::empty() && p.spec_next()
                == 0),
    {
        if size == 0 {
            Err(String::from_str("thread pool needs at least one worker"))
        } else {
            Ok(ThreadPool { threads: size, verbose: false, open: true, pending: Vec::new(), next_task: 0 })
        }
    }

    /// Enqueues a task and returns its ticket; fails only when the pool
    /// has been shut down. The ticket goes to the back of the queue: an
    /// excess task waits, it is never rejected.
    pub fn execute(&mut self) -> (r: Result<u64, String>)
        requires
            old(self).spec_next() < u64::MAX,
        ensures
            old(self).spec_open() ==> (r matches Ok(t) && t == old(self).spec_next()
                && final(self).spec_pending() == old(self).spec_pending().push(t)
                && final(self).spec_next() == old(self).spec_next() + 1),
            !old(self).spec_open() ==> (r matches Err(e) && e@ == "the thread pool has shut down"@
                && *final(self) == *old(self)),
            final(self).spec_open() == old(self).spec_open(),
            final(self).spec_threads() == old(self).spec_threads(),
            final(self).spec_verbose() == old(self).spec_verbose(),
    {
        if !self.open {
            return Err(String::from_str("the thread pool has shut down"));
        }
        let t = self.next_task;
        self.pending.push(t);
        self.next_task = t + 1;
        Ok(t)
    }

    /// Hands the oldest queued ticket to a worker, if any is waiting:
    /// tasks are claimed strictly in submission order.
    pub fn claim(&mut self) -> (r: Option<u64>)
        ensures
            old(self).spec_pending().len() > 0 ==> (r matches Some(t) && t == old(
                self,
            ).spec_pending()[0] && final(self).spec_pending() == old(self).spec_pending().skip(1)),
            old(self).spec_pending().len() == 0 ==> r is None && *final(self) == *old(self),
            final(self).spec_open() == old(self).spec_open(),
            final(self).spec_threads() == old(self).spec_threads(),
            final(self).spec_verbose() == old(self).spec_verbose(),
            final(self).spec_next() == old(self).spec_next(),
    {
        if self.pending.len() == 0 {
            None
        } else {
            let t = self.pending.remove(0);
            proof {
                assert(self.pending@ =~= old(self).spec_pending().skip(1));
            }
            Some(t)
        }
    }

    /// Closes the queue: no further task is accepted; already queued
    /// tasks stay to be claimed.
    pub fn shutdown(&mut self)
        ensures
            !final(self).spec_open(),
            final(self).spec_pending() == old(self).spec_pending(),
            final(self).spec_threads() == old(self).spec_threads(),
            final(self).spec_verbose() == old(self).spec_verbose(),
            final(self).spec_next() == old(self).spec_next(),
    {
        self.open = false;
    }

    /// Puts the pool into verbose mode.
    pub fn verbose(&mut self)
        ensures
            final(self).spec_verbose(),
            final(self).spec_open() == old(self).spec_open(),
            final(self).spec_pending() == old(self).spec_pending(),
            final(self).spec_threads() == old(self).spec_threads(),
            final(self).spec_next() == old(self).spec_next(),
    {
        self.verbose = true;
    }

    /// The number of workers the pool was created with.
    pub fn get_threads(&self) -> (r: usize)
        ensures
            r == self.spec_threads(),
    {
        self.threads
    }

    /// The ticket the next submitted task will get; tickets run out at
    /// the largest ticket value.
    pub fn next_ticket(&self) -> (r: u64)
        ensures
            r == self.spec_next(),
    {
        self.next_task
    }

    /// How many tasks wait in the queue.
    pub fn queued(&self) -> (r: usize)
        ensures
            r == self.spec_pending().len(),
    {
        self.pending.len()
    }
}

} // verus!
