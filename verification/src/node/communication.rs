//! The outbound-job dispatcher.
//!
//! Outbound work is a queue of jobs: a peer address, a message, and an
//! optional schedule (not-before instant and minimum delay).  A dedicated
//! loop pops jobs from the back of the queue and either executes one,
//! re-enqueues it when it is not yet due, or, on the terminate marker,
//! starts the shutdown.  Performing a job (dialing and sending) is I/O and
//! stays with the caller; this module holds the decisions.

use vstd::prelude::*;
use std::collections::VecDeque;
use crate::network::peer::{Ipv4Addr, Peer};
use crate::network::protocol::{Header, Message};

verus! {

/// One outbound job: where to send, what to send, and optionally when
/// (a start tick and a minimum delay in ticks).
#[derive(Debug)]
pub struct Job {
    pub schedule: Option<(u64, u64)>,
    pub peer_addr: Ipv4Addr,
    pub msg: Message,
}

impl Job {
    /// An immediately due job.
    pub fn new(peer_addr: Ipv4Addr, msg: Message) -> (r: Job)
        ensures
            r.schedule is None,
            r.peer_addr == peer_addr,
            r.msg == msg,
    {
        Job { schedule: None, peer_addr, msg }
    }

    /// A job that may only run once `schedule.1` ticks have passed since
    /// tick `schedule.0`.
    pub fn _with_schedule(schedule: (u64, u64), peer_addr: Ipv4Addr, msg: Message) -> (r: Job)
        ensures
            r.schedule == Some(schedule),
            r.peer_addr == peer_addr,
            r.msg == msg,
    {
        Job { schedule: Some(schedule), peer_addr, msg }
    }
}

/// Whether a job is due at tick `now`.
pub open spec fn job_due(j: Job, now: u64) -> bool {
    match j.schedule {
        None => true,
        Some((start, delay)) => now > start + delay,
    }
}

/// What sits in the work queue: a job, or the terminate marker.
#[derive(Debug)]
pub enum ComMessage {
    Work(Job),
    Terminate,
}

/// Where the dispatcher stands.
#[derive(Clone, Copy, Debug, PartialEq, Eq, Structural)]
pub enum Status {
    Running,
    ShuttingDown,
    Shutdown,
}

/// What one dispatch step decided.
pub enum StepResult {
    /// Nothing to do: the queue is empty or the dispatcher has shut down.
    Idle,
    /// Dial the job's peer and send its message.
    Execute(Job),
    /// The popped job was not yet due and went back on the queue.
    Requeued,
    /// The terminate marker was processed.
    Terminated,
}

/// The dispatcher state: the work queue, the status, and the cooperative
/// shutdown flag.
pub struct Communication {
    work_queue: VecDeque<ComMessage>,
    status: Status,
    shutdown: bool,
}

impl Communication {
    /// The queued messages, front first.
    pub closed spec fn spec_queue(&self) -> Seq<ComMessage> {
        self.work_queue@
    }

    pub closed spec fn spec_status(&self) -> Status {
        self.status
    }

    pub closed spec fn spec_shutdown(&self) -> bool {
        self.shutdown
    }

    /// Once shut down, the dispatcher is quiescent: the flag is up and
    /// the queue is empty, so no further job can execute.
    pub open spec fn wf(&self) -> bool {
        self.spec_status() == Status::Shutdown ==> self.spec_shutdown() && self.spec_queue().len()
            == 0
    }

    /// A fresh dispatcher: running, nothing queued.
    pub fn new() -> (r: Communication)
        ensures
            r.wf(),
            r.spec_status() == Status::Running,
            r.spec_shutdown() == false,
            r.spec_queue().len() == 0,
    {
        Communication { work_queue: VecDeque::new(), status: Status::Running, shutdown: false }
    }

    /// Queues an outbound job; refused once shutdown has been requested.
    pub fn queue_job(&mut self, job: Job) -> (r: bool)
        requires
            old(self).wf(),
        ensures
            final(self).wf(),
            final(self).spec_status() == old(self).spec_status(),
            final(self).spec_shutdown() == old(self).spec_shutdown(),
            r == !old(self).spec_shutdown(),
            r ==> final(self).spec_queue() == old(self).spec_queue().push(
                ComMessage::Work(job),
            ),
            !r ==> final(self).spec_queue() == old(self).spec_queue(),
    {
        if self.shutdown {
            return false;
        }
        self.work_queue.push_back(ComMessage::Work(job));
        true
    }

    /// Builds and queues the request asking `peer_addr` for its peers;
    /// `self_descriptor` is this node's encoded descriptor.
    pub fn request_peers(&mut self, peer_addr: Ipv4Addr, self_descriptor: &str) -> (r: bool)
        requires
            old(self).wf(),
        ensures
            final(self).wf(),
            final(self).spec_status() == old(self).spec_status(),
            final(self).spec_shutdown() == old(self).spec_shutdown(),
            r == !old(self).spec_shutdown(),
            r ==> {
                &&& final(self).spec_queue().len() == old(self).spec_queue().len() + 1
                &&& final(self).spec_queue().drop_last() == old(self).spec_queue()
                &&& (final(self).spec_queue().last() matches ComMessage::Work(j) && {
                    &&& j.schedule is None
                    &&& j.peer_addr == peer_addr
                    &&& j.msg.header == Header::RequestPeers
                    &&& j.msg.body@ == self_descriptor@
                })
            },
            !r ==> final(self).spec_queue() == old(self).spec_queue(),
    {
        let msg = Message::with_data(Header::RequestPeers, self_descriptor);
        let r = self.queue_job(Job::new(peer_addr, msg));
        proof {
            if r {
                assert(final(self).spec_queue().drop_last() =~= old(self).spec_queue());
            }
        }
        r
    }

    /// One dispatch step at tick `now`: pops the newest queue entry and
    /// decides what to do with it.
    pub fn step(&mut self, now: u64) -> (r: StepResult)
        requires
            old(self).wf(),
        ensures
            final(self).wf(),
            old(self).spec_status() == Status::Shutdown || old(self).spec_queue().len() == 0
                ==> {
                &&& r is Idle
                &&& final(self).spec_queue() == old(self).spec_queue()
                &&& final(self).spec_status() == old(self).spec_status()
                &&& final(self).spec_shutdown() == old(self).spec_shutdown()
            },
            old(self).spec_status() != Status::Shutdown && old(self).spec_queue().len() > 0 ==> {
                &&& (old(self).spec_queue().last() == ComMessage::Terminate ==> r is Terminated)
                &&& (old(self).spec_queue().last() matches ComMessage::Work(j) ==> ((job_due(
                    j,
                    now,
                ) ==> r == StepResult::Execute(j)) && (!job_due(j, now) ==> r is Requeued)))
            },
            r matches StepResult::Execute(j) ==> {
                &&& old(self).spec_queue().len() > 0
                &&& old(self).spec_queue().last() == ComMessage::Work(j)
                &&& job_due(j, now)
                &&& final(self).spec_queue() == old(self).spec_queue().drop_last()
                &&& final(self).spec_status() == old(self).spec_status()
                &&& final(self).spec_shutdown() == old(self).spec_shutdown()
            },
            r is Requeued ==> {
                &&& old(self).spec_queue().len() > 0
                &&& (old(self).spec_queue().last() matches ComMessage::Work(j) && !job_due(
                    j,
                    now,
                ))
                &&& final(self).spec_queue() == old(self).spec_queue()
                &&& final(self).spec_status() == old(self).spec_status()
                &&& final(self).spec_shutdown() == old(self).spec_shutdown()
            },
            r is Terminated ==> {
                &&& old(self).spec_queue().len() > 0
                &&& old(self).spec_queue().last() == ComMessage::Terminate
                &&& final(self).spec_queue() == old(self).spec_queue().drop_last()
                &&& final(self).spec_status() == Status::ShuttingDown
                &&& final(self).spec_shutdown() == true
            },
    {
        if self.status == Status::Shutdown {
            return StepResult::Idle;
        }
        let popped = match self.work_queue.pop_back() {
            None => {
                return StepResult::Idle;
            },
            Some(p) => p,
        };
        match popped {
            ComMessage::Terminate => {
                self.shutdown = true;
                self.status = Status::ShuttingDown;
                StepResult::Terminated
            },
            ComMessage::Work(job) => {
                let due = match job.schedule {
                    None => true,
                    Some((start, delay)) => {
                        // `now > start + delay`, computed without overflow.
                        now > delay && now - delay > start
                    },
                };
                if due {
                    StepResult::Execute(job)
                } else {
                    self.work_queue.push_back(ComMessage::Work(job));
                    proof {
                        assert(self.spec_queue() =~= old(self).spec_queue());
                    }
                    StepResult::Requeued
                }
            },
        }
    }

    /// Requests shutdown: clears the pending jobs, queues one deregister
    /// job for every known peer, then the terminate marker.
    pub fn request_stop(&mut self, peers: &Vec<Peer>)
        requires
            old(self).wf(),
            old(self).spec_status() != Status::Shutdown,
        ensures
            final(self).wf(),
            final(self).spec_status() == old(self).spec_status(),
            final(self).spec_shutdown() == old(self).spec_shutdown(),
            final(self).spec_queue().len() == peers@.len() + 1,
            forall|i: int|
                0 <= i < peers@.len() ==> (#[trigger] final(self).spec_queue()[i]
                    matches ComMessage::Work(j) && {
                    &&& j.schedule is None
                    &&& j.peer_addr == peers@[i].address
                    &&& j.msg.header == Header::Deregister
                    &&& j.msg.body@ == Seq::<char>::empty()
                }),
            final(self).spec_queue().last() == ComMessage::Terminate,
    {
        self.work_queue.clear();
        let mut i: usize = 0;
        while i < peers.len()
            invariant
                0 <= i <= peers@.len(),
                self.spec_queue().len() == i,
                self.spec_status() == old(self).spec_status(),
                self.spec_shutdown() == old(self).spec_shutdown(),
                forall|k: int|
                    0 <= k < i ==> (#[trigger] self.spec_queue()[k] matches ComMessage::Work(j)
                        && {
                        &&& j.schedule is None
                        &&& j.peer_addr == peers@[k].address
                        &&& j.msg.header == Header::Deregister
                        &&& j.msg.body@ == Seq::<char>::empty()
                    }),
            decreases peers@.len() - i,
        {
            proof {
                reveal_strlit("");
                assert(""@ =~= Seq::<char>::empty());
            }
            let msg = Message::with_data(Header::Deregister, "");
            let job = Job::new(*peers[i].address(), msg);
            self.work_queue.push_back(ComMessage::Work(job));
            i = i + 1;
        }
        self.work_queue.push_back(ComMessage::Terminate);
    }

    /// The current status.
    pub fn status(&self) -> (r: Status)
        ensures
            r == self.spec_status(),
    {
        self.status
    }

    /// Whether shutdown has been requested.
    pub fn shutdown_requested(&self) -> (r: bool)
        ensures
            r == self.spec_shutdown(),
    {
        self.shutdown
    }

    /// How many messages are queued.
    pub fn pending(&self) -> (r: usize)
        ensures
            r == self.spec_queue().len(),
    {
        self.work_queue.len()
    }

    /// Marks shutdown complete, once the queue is drained and the flag is
    /// up.
    pub fn finish_shutdown(&mut self)
        requires
            old(self).wf(),
            old(self).spec_shutdown(),
            old(self).spec_queue().len() == 0,
        ensures
            final(self).wf(),
            final(self).spec_status() == Status::Shutdown,
            final(self).spec_queue().len() == 0,
            final(self).spec_shutdown(),
    {
        self.status = Status::Shutdown;
    }
}

/// After a shutdown request completes — the status has reached
/// `Shutdown` — the work queue is empty and the stop flag is up; by the
/// contract of `step`, every later dispatch step is then `Idle` and
/// leaves the dispatcher untouched, so no further job executes.
pub proof fn lemma_shutdown_quiescent(c: &Communication)
    requires
        c.wf(),
        c.spec_status() == Status::Shutdown,
    ensures
        c.spec_queue().len() == 0,
        c.spec_shutdown(),
{
}

} // verus!
