//! The queue of print jobs: strings that kernel code hands over without blocking and
//! that the print task takes out, first in, first out.

use vstd::prelude::*;

use crossbeam_queue::ArrayQueue;

verus! {

/// How many print jobs the queue holds at most.
pub const PRINT_QUEUE_CAPACITY: usize = 128;

#[verifier::external_type_specification]
#[verifier::external_body]
#[verifier::reject_recursive_types(T)]
pub struct ExArrayQueue<T>(ArrayQueue<T>);

/// The strings that a queue of print jobs holds, oldest first.
pub uninterp spec fn array_queue_items(q: ArrayQueue<&'static str>) -> Seq<Seq<char>>;

/// The capacity that a queue of print jobs was made with.
pub uninterp spec fn array_queue_capacity(q: ArrayQueue<&'static str>) -> nat;

/// `ArrayQueue::new`: an empty queue of capacity `cap`. It panics on a zero capacity and
/// on one too large to lay out; only capacities up to 4096 are admitted here.
#[verifier::external_body]
fn array_queue_new(cap: usize) -> (q: ArrayQueue<&'static str>)
    requires
        0 < cap <= 4096,
    ensures
        array_queue_items(q) == Seq::<Seq<char>>::empty(),
        array_queue_capacity(q) == cap,
{
    ArrayQueue::new(cap)
}

/// `ArrayQueue::push`, called with the queue borrowed exclusively so that no other
/// thread pushes or pops meanwhile: a queue below its capacity takes `s` at its end and
/// answers `Ok`; a full queue stays as it is and hands `s` back in `Err`.
#[verifier::external_body]
fn array_queue_push(q: &mut ArrayQueue<&'static str>, s: &'static str) -> (r: Result<
    (),
    &'static str,
>)
    ensures
        array_queue_capacity(*final(q)) == array_queue_capacity(*old(q)),
        array_queue_items(*old(q)).len() < array_queue_capacity(*old(q)) ==> {
            &&& r is Ok
            &&& array_queue_items(*final(q)) == array_queue_items(*old(q)).push(s@)
        },
        array_queue_items(*old(q)).len() >= array_queue_capacity(*old(q)) ==> {
            &&& r == Err::<(), &'static str>(s)
            &&& array_queue_items(*final(q)) == array_queue_items(*old(q))
        },
{
    q.push(s)
}

/// `ArrayQueue::pop`, called with the queue borrowed exclusively: an empty queue
/// answers `None` and stays empty; otherwise the oldest string leaves the queue and is
/// returned.
#[verifier::external_body]
fn array_queue_pop(q: &mut ArrayQueue<&'static str>) -> (r: Option<&'static str>)
    ensures
        array_queue_capacity(*final(q)) == array_queue_capacity(*old(q)),
        array_queue_items(*old(q)).len() == 0 ==> {
            &&& r is None
            &&& array_queue_items(*final(q)) == array_queue_items(*old(q))
        },
        array_queue_items(*old(q)).len() > 0 ==> {
            &&& r matches Some(s) && s@ == array_queue_items(*old(q))[0]
            &&& array_queue_items(*final(q)) == array_queue_items(*old(q)).drop_first()
        },
{
    q.pop()
}

/// What the consumer of the print queue does next.
#[derive(Clone, Copy, Debug)]
pub enum PollAction {
    /// Hand this string out.
    Ready(&'static str),
    /// The queue was empty: register the waker, then poll again.
    RegisterWaker,
    /// A string came in while the waker was being registered: take the waker back and
    /// hand the string out.
    ReadyTakeWaker(&'static str),
    /// Still empty after the waker was registered: wait to be woken.
    Pending,
}

/// The print queue, as its consumer sees it: the stream of print jobs.
pub struct PrintQueueStream {
    queue: ArrayQueue<&'static str>,
}

/// The jobs after `s` was offered to a queue holding `jobs`: appended if there was room.
pub open spec fn after_add(jobs: Seq<Seq<char>>, s: Seq<char>) -> Seq<Seq<char>> {
    if jobs.len() < PRINT_QUEUE_CAPACITY {
        jobs.push(s)
    } else {
        jobs
    }
}

/// Print jobs come out first in, first out: a job that a queue with room takes in lies
/// behind every job that was waiting, and those stay as they were.
pub proof fn lemma_jobs_in_order(jobs: Seq<Seq<char>>, s: Seq<char>)
    requires
        jobs.len() < PRINT_QUEUE_CAPACITY,
    ensures
        after_add(jobs, s).len() == jobs.len() + 1,
        after_add(jobs, s)[jobs.len() as int] == s,
        after_add(jobs, s).take(jobs.len() as int) == jobs,
        jobs.len() > 0 ==> after_add(jobs, s).drop_first() == after_add(jobs.drop_first(), s),
{
    assert(after_add(jobs, s).take(jobs.len() as int) =~= jobs);
    if jobs.len() > 0 {
        assert(after_add(jobs, s).drop_first() =~= after_add(jobs.drop_first(), s));
    }
}

impl View for PrintQueueStream {
    type V = Seq<Seq<char>>;

    /// The pending print jobs, oldest first.
    closed spec fn view(&self) -> Seq<Seq<char>> {
        array_queue_items(self.queue)
    }
}

impl PrintQueueStream {
    /// The queue has the capacity `PRINT_QUEUE_CAPACITY` and holds no more than that.
    pub closed spec fn wf(&self) -> bool {
        &&& array_queue_capacity(self.queue) == PRINT_QUEUE_CAPACITY
        &&& array_queue_items(self.queue).len() <= PRINT_QUEUE_CAPACITY
    }

    /// An empty queue of print jobs.
    pub fn new() -> (s: Self)
        ensures
            s.wf(),
            s@ == Seq::<Seq<char>>::empty(),
    {
        PrintQueueStream { queue: array_queue_new(PRINT_QUEUE_CAPACITY) }
    }

    /// The next step of polling the stream. `waker_registered` tells whether the waker
    /// was registered since the last poll found the queue empty. A job, if there is one,
    /// leaves the queue and is handed out; the stream never ends.
    pub fn poll_next(&mut self, waker_registered: bool) -> (a: PollAction)
        requires
            old(self).wf(),
        ensures
            final(self).wf(),
            old(self)@.len() == 0 ==> {
                &&& final(self)@ == old(self)@
                &&& a == if waker_registered {
                    PollAction::Pending
                } else {
                    PollAction::RegisterWaker
                }
            },
            old(self)@.len() > 0 ==> {
                &&& final(self)@ == old(self)@.drop_first()
                &&& if waker_registered {
                    a matches PollAction::ReadyTakeWaker(s) && s@ == old(self)@[0]
                } else {
                    a matches PollAction::Ready(s) && s@ == old(self)@[0]
                }
            },
    {
        match array_queue_pop(&mut self.queue) {
            Some(s) => {
                if waker_registered {
                    PollAction::ReadyTakeWaker(s)
                } else {
                    PollAction::Ready(s)
                }
            },
            None => {
                if waker_registered {
                    PollAction::Pending
                } else {
                    PollAction::RegisterWaker
                }
            },
        }
    }
}

/// Adds a print job to the queue without blocking or allocating. Answers whether the job
/// was queued, in which case the consumer is to be woken; a job offered to a full queue is
/// dropped.
pub fn add_print_job(stream: &mut PrintQueueStream, s: &'static str) -> (queued: bool)
    requires
        old(stream).wf(),
    ensures
        final(stream).wf(),
        queued == (old(stream)@.len() < PRINT_QUEUE_CAPACITY),
        final(stream)@ == after_add(old(stream)@, s@),
{
    match array_queue_push(&mut stream.queue, s) {
        Ok(()) => true,
        Err(_) => false,
    }
}

} // verus!
