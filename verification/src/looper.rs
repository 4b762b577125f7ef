//! The bounded in-process ring behind a looper channel: a FIFO of at most
//! `capacity` messages, the number of live senders, and whether the
//! receiver is still there. Every send, receive and hang-up is a
//! transition of this state; the shared handles and the waking of tasks
//! are the caller's.

use vstd::prelude::*;
use std::collections::VecDeque;

verus! {

/// The receiving end is gone: the ring is closed.
#[derive(Debug, Clone, Copy, PartialEq, Eq, Structural)]
pub struct RingClosed;

/// Why a non-blocking send failed; the message comes back.
#[derive(Debug, Clone, PartialEq, Eq)]
pub enum TrySendError<M> {
    /// The ring holds `capacity` messages already.
    Full(M),
    /// The receiver is gone.
    Closed(M),
}

/// Why a non-blocking receive found nothing.
#[derive(Debug, Clone, Copy, PartialEq, Eq, Structural)]
pub enum TryRecvError {
    /// No message is queued, but a sender may still send one.
    Empty,
    /// No message is queued and every sender is gone.
    Closed,
}

/// What a send that may wait does next.
#[derive(Debug, Clone, PartialEq, Eq)]
pub enum SendStep<M> {
    /// The message was queued.
    Sent,
    /// The receiver is gone; the message is dropped.
    Closed,
    /// The ring is full: wait for room, holding the message.
    Wait(M),
}

/// What a receive that may wait does next.
#[derive(Debug, Clone, PartialEq, Eq)]
pub enum RecvStep<M> {
    /// The oldest queued message.
    Received(M),
    /// Nothing is queued and every sender is gone.
    Closed,
    /// Nothing is queued yet: wait for a send.
    Wait,
}

/// The state of one ring.
#[derive(Debug)]
pub struct Ring<M> {
    queue: VecDeque<M>,
    capacity: usize,
    senders: usize,
    recv_open: bool,
}

/// The mathematical form of a [`Ring`].
pub struct RingView<M> {
    /// The queued messages, oldest first.
    pub queue: Seq<M>,
    pub capacity: nat,
    /// How many senders are alive.
    pub senders: nat,
    /// Whether the receiver is alive.
    pub recv_open: bool,
}

impl<M> View for Ring<M> {
    type V = RingView<M>;

    closed spec fn view(&self) -> RingView<M> {
        RingView {
            queue: self.queue@,
            capacity: self.capacity as nat,
            senders: self.senders as nat,
            recv_open: self.recv_open,
        }
    }
}

/// A ring never holds more than its capacity.
pub open spec fn within(r: RingView<impl Sized>) -> bool {
    r.queue.len() <= r.capacity
}

impl<M> Ring<M> {
    /// A fresh ring of the given capacity, with one sender and the
    /// receiver alive. A ring holds at least one message.
    pub fn new(capacity: usize) -> (r: Ring<M>)
        requires
            capacity >= 1,
        ensures
            r@.queue == Seq::<M>::empty(),
            r@.capacity == capacity,
            r@.senders == 1,
            r@.recv_open,
    {
        Ring { queue: VecDeque::new(), capacity, senders: 1, recv_open: true }
    }

    /// Queue `msg` without waiting: refused, with the message handed back,
    /// when the receiver is gone or the ring is full.
    pub fn try_send(&mut self, msg: M) -> (r: Result<(), TrySendError<M>>)
        ensures
            !old(self)@.recv_open ==> r == Err::<(), TrySendError<M>>(TrySendError::Closed(msg))
                && final(self)@ == old(self)@,
            old(self)@.recv_open && old(self)@.queue.len() >= old(self)@.capacity ==> r == Err::<
                (),
                TrySendError<M>,
            >(TrySendError::Full(msg)) && final(self)@ == old(self)@,
            old(self)@.recv_open && old(self)@.queue.len() < old(self)@.capacity ==> r is Ok
                && final(self)@ == (RingView { queue: old(self)@.queue.push(msg), ..old(self)@ }),
    {
        if !self.recv_open {
            return Err(TrySendError::Closed(msg));
        }
        if self.queue.len() >= self.capacity {
            return Err(TrySendError::Full(msg));
        }
        self.queue.push_back(msg);
        Ok(())
    }

    /// Take the oldest message without waiting.
    pub fn try_recv(&mut self) -> (r: Result<M, TryRecvError>)
        ensures
            old(self)@.queue.len() > 0 ==> r == Ok::<M, TryRecvError>(old(self)@.queue[0])
                && final(self)@ == (RingView { queue: old(self)@.queue.drop_first(), ..old(self)@ }),
            old(self)@.queue.len() == 0 ==> final(self)@ == old(self)@ && r == Err::<
                M,
                TryRecvError,
            >(if old(self)@.senders == 0 {
                TryRecvError::Closed
            } else {
                TryRecvError::Empty
            }),
    {
        match self.queue.pop_front() {
            Some(msg) => Ok(msg),
            None => {
                if self.senders == 0 {
                    Err(TryRecvError::Closed)
                } else {
                    Err(TryRecvError::Empty)
                }
            },
        }
    }

    /// One attempt of a send that may wait: as `try_send`, but a full ring
    /// means waiting and a closed one drops the message.
    pub fn step_send(&mut self, msg: M) -> (r: SendStep<M>)
        ensures
            !old(self)@.recv_open ==> r == SendStep::<M>::Closed && final(self)@ == old(self)@,
            old(self)@.recv_open && old(self)@.queue.len() >= old(self)@.capacity ==> r
                == SendStep::Wait(msg) && final(self)@ == old(self)@,
            old(self)@.recv_open && old(self)@.queue.len() < old(self)@.capacity ==> r
                == SendStep::<M>::Sent && final(self)@ == (RingView {
                queue: old(self)@.queue.push(msg),
                ..old(self)@
            }),
    {
        match self.try_send(msg) {
            Ok(()) => SendStep::Sent,
            Err(TrySendError::Closed(_)) => SendStep::Closed,
            Err(TrySendError::Full(m)) => SendStep::Wait(m),
        }
    }

    /// One attempt of a receive that may wait: queued messages drain
    /// before the ring reports closed.
    pub fn step_recv(&mut self) -> (r: RecvStep<M>)
        ensures
            old(self)@.queue.len() > 0 ==> r == RecvStep::Received(old(self)@.queue[0])
                && final(self)@ == (RingView { queue: old(self)@.queue.drop_first(), ..old(self)@ }),
            old(self)@.queue.len() == 0 ==> final(self)@ == old(self)@ && r == (if old(
                self,
            )@.senders == 0 {
                RecvStep::<M>::Closed
            } else {
                RecvStep::<M>::Wait
            }),
    {
        match self.try_recv() {
            Ok(m) => RecvStep::Received(m),
            Err(TryRecvError::Closed) => RecvStep::Closed,
            Err(TryRecvError::Empty) => RecvStep::Wait,
        }
    }

    /// A sender was cloned.
    pub fn add_sender(&mut self)
        requires
            old(self)@.senders < usize::MAX,
        ensures
            final(self)@ == (RingView { senders: old(self)@.senders + 1, ..old(self)@ }),
    {
        self.senders = self.senders + 1;
    }

    /// A sender was dropped; returns whether it was the last.
    pub fn drop_sender(&mut self) -> (last: bool)
        requires
            old(self)@.senders > 0,
        ensures
            final(self)@ == (RingView { senders: (old(self)@.senders - 1) as nat, ..old(self)@ }),
            last == (old(self)@.senders == 1),
    {
        self.senders = self.senders - 1;
        self.senders == 0
    }

    /// The receiver was dropped: the ring is closed to senders.
    pub fn close_receiver(&mut self)
        ensures
            final(self)@ == (RingView { recv_open: false, ..old(self)@ }),
    {
        self.recv_open = false;
    }

    /// How many messages are queued.
    pub fn len(&self) -> (n: usize)
        ensures
            n == self@.queue.len(),
    {
        self.queue.len()
    }
}

/// What a reply handed to a one-shot reply ring meets: delivered while the
/// caller waits, `RingClosed` once it has gone.
pub fn answer<M>(ring: &mut Ring<M>, reply: M) -> (r: Result<(), RingClosed>)
    ensures
        !old(ring)@.recv_open ==> r == Err::<(), RingClosed>(RingClosed),
        old(ring)@.recv_open && old(ring)@.queue.len() < old(ring)@.capacity ==> r is Ok
            && final(ring)@.queue == old(ring)@.queue.push(reply),
{
    match ring.try_send(reply) {
        Ok(()) => Ok(()),
        Err(_) => Err(RingClosed),
    }
}

/// A ring is first in, first out: a message sent to a ring with room is
/// received after everything queued before it, and before anything sent
/// after it.
pub proof fn lemma_fifo<M>(q: Seq<M>, m: M)
    ensures
        q.push(m).len() == q.len() + 1,
        q.len() > 0 ==> q.push(m)[0] == q[0] && q.push(m).drop_first() == q.drop_first().push(m),
        q.len() == 0 ==> q.push(m)[0] == m,
{
    if q.len() > 0 {
        assert(q.push(m).drop_first() =~= q.drop_first().push(m));
    }
}

/// Sends and receives keep a ring within its capacity.
pub proof fn lemma_sends_stay_within<M>(r: RingView<M>, m: M)
    requires
        within(r),
    ensures
        r.recv_open && r.queue.len() < r.capacity ==> within(
            RingView { queue: r.queue.push(m), ..r },
        ),
        r.queue.len() > 0 ==> within(RingView { queue: r.queue.drop_first(), ..r }),
{
}

// ---- the executor's bookkeeping ----------------------------------------------

/// How many tasks are still present.
pub open spec fn live_count(present: Seq<bool>) -> nat
    decreases present.len(),
{
    if present.len() == 0 {
        0
    } else {
        live_count(present.drop_last()) + if present.last() {
            1nat
        } else {
            0nat
        }
    }
}

/// What a looper does when no task is ready.
#[derive(Debug, Clone, Copy, PartialEq, Eq, Structural)]
pub enum Idle {
    /// Every task has completed: the run is over.
    Stop,
    /// Some task is still pending: wait for a wake.
    Wait,
}

/// Which of a looper's tasks are still pending, by task id, and how many.
/// A completed task's slot stays, so a stale wake for it is recognised.
#[derive(Debug)]
pub struct Tasks {
    present: Vec<bool>,
    live: usize,
}

impl View for Tasks {
    type V = Seq<bool>;

    closed spec fn view(&self) -> Seq<bool> {
        self.present@
    }
}

proof fn lemma_live_count_update(s: Seq<bool>, i: int)
    requires
        0 <= i < s.len(),
        s[i],
    ensures
        live_count(s.update(i, false)) + 1 == live_count(s),
    decreases s.len(),
{
    if i < s.len() - 1 {
        assert(s.update(i, false).drop_last() =~= s.drop_last().update(i, false));
        lemma_live_count_update(s.drop_last(), i);
    } else {
        assert(s.update(i, false).drop_last() =~= s.drop_last());
    }
}

proof fn lemma_live_count_bound(s: Seq<bool>)
    ensures
        live_count(s) <= s.len(),
    decreases s.len(),
{
    if s.len() > 0 {
        lemma_live_count_bound(s.drop_last());
    }
}

proof fn lemma_no_live_none_present(s: Seq<bool>)
    ensures
        live_count(s) == 0 <==> forall|i: int| 0 <= i < s.len() ==> !#[trigger] s[i],
    decreases s.len(),
{
    if s.len() > 0 {
        lemma_no_live_none_present(s.drop_last());
        if live_count(s) == 0 {
            assert forall|i: int| 0 <= i < s.len() implies !#[trigger] s[i] by {
                if i < s.len() - 1 {
                    assert(s.drop_last()[i] == s[i]);
                }
            }
        }
        if forall|i: int| 0 <= i < s.len() ==> !#[trigger] s[i] {
            assert forall|i: int| 0 <= i < s.drop_last().len() implies !#[trigger] s.drop_last()[i] by {
                assert(s.drop_last()[i] == s[i]);
            }
            assert(!s[s.len() - 1]);
        }
    }
}

impl Tasks {
    /// The pending count matches the table.
    pub closed spec fn wf(&self) -> bool {
        self.live == live_count(self.present@)
    }

    /// No task yet.
    pub fn new() -> (t: Tasks)
        ensures
            t.wf(),
            t@ == Seq::<bool>::empty(),
    {
        let t = Tasks { present: Vec::new(), live: 0 };
        assert(t.present@ =~= Seq::<bool>::empty());
        t
    }

    /// Admit a task; returns its id.
    pub fn install(&mut self) -> (id: usize)
        requires
            old(self).wf(),
            old(self)@.len() < usize::MAX,
        ensures
            final(self).wf(),
            id == old(self)@.len(),
            final(self)@ == old(self)@.push(true),
    {
        proof {
            lemma_live_count_bound(self.present@);
        }
        let id = self.present.len();
        let ghost before = self.present@;
        self.present.push(true);
        assert(self.present@.drop_last() =~= before);
        self.live = self.live + 1;
        id
    }

    /// Whether task `id` is still pending; a wake for a completed or
    /// unknown task is stale.
    pub fn is_present(&self, id: usize) -> (b: bool)
        ensures
            b == (id < self@.len() && self@[id as int]),
    {
        id < self.present.len() && self.present[id]
    }

    /// Task `id` completed.
    pub fn finish(&mut self, id: usize)
        requires
            old(self).wf(),
            id < old(self)@.len(),
            old(self)@[id as int],
        ensures
            final(self).wf(),
            final(self)@ == old(self)@.update(id as int, false),
    {
        proof {
            lemma_live_count_update(self.present@, id as int);
        }
        self.present.set(id, false);
        self.live = self.live - 1;
    }

    /// How many tasks are pending.
    pub fn live(&self) -> (n: usize)
        requires
            self.wf(),
        ensures
            n == live_count(self@),
    {
        self.live
    }

    /// With no task ready: stop once every task has completed, else wait.
    pub fn when_idle(&self) -> (i: Idle)
        requires
            self.wf(),
        ensures
            (i == Idle::Stop) <==> (forall|k: int| 0 <= k < self@.len() ==> !#[trigger] self@[k]),
    {
        proof {
            lemma_no_live_none_present(self.present@);
            assert(self@ == self.present@);
        }
        if self.live == 0 {
            Idle::Stop
        } else {
            Idle::Wait
        }
    }
}

impl RingClosed {
    /// The message a closed ring reads as.
    pub fn message(&self) -> (m: String)
        ensures
            m@ == "ring closed: the peer endpoint is gone"@,
    {
        crate::text::string_of(crate::text::chars_of("ring closed: the peer endpoint is gone").as_slice())
    }
}

} // verus!
