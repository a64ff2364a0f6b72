//! The per-callback context: the sole sink for side effects of a process
//! callback.
//!
//! Actions are not applied while the callback runs; they are collected in a
//! queue the node drains after the callback returns, so a failed callback
//! leaves no partial side effects.

use vstd::prelude::*;
use crate::message::Message;
use crate::node::{ProcessEvent, ProcessEventV, TimerBehavior};
use crate::rng::{spec_rng_init, spec_rng_next, Rng};

verus! {

/// The context handed to a process callback: collects outbound actions and
/// exposes the deterministic time and random draws.
pub struct Context {
    /// Name of the process the callback runs on.
    pub proc: String,
    /// The simulated time the callback observes, clock skew included.
    pub time: u64,
    /// The per-step seeded generator.
    pub rng: Rng,
    /// The queued actions, drained by the node after the callback returns.
    pub actions: Vec<ProcessEvent>,
}

impl Context {
    /// Creates a context bound to a process name, a time and a seed.
    pub fn basic(proc: String, time: u64, random_seed: u64) -> (r: Context)
        ensures
            r.proc@ == proc@,
            r.time == time,
            r.rng@ == spec_rng_init(random_seed),
            r.rng.wf(),
            r.actions.deep_view() == Seq::<ProcessEventV>::empty(),
    {
        let r = Context { proc, time, rng: Rng::new(random_seed), actions: Vec::new() };
        proof {
            assert(r.actions.deep_view() =~= Seq::<ProcessEventV>::empty());
        }
        r
    }

    /// The current simulated time.
    pub fn time(&self) -> (r: u64)
        ensures
            r == self.time,
    {
        self.time
    }

    /// A deterministic 64-bit random draw.
    pub fn rand(&mut self) -> (r: u64)
        requires
            old(self).rng.wf(),
        ensures
            r == spec_rng_next(old(self).rng@),
            final(self).rng@ == spec_rng_next(old(self).rng@),
            final(self).rng.wf(),
            final(self).proc == old(self).proc,
            final(self).time == old(self).time,
            final(self).actions == old(self).actions,
    {
        self.rng.next_u64()
    }

    /// A deterministic random draw below `bound`.
    pub fn rand_range(&mut self, bound: u64) -> (r: u64)
        requires
            old(self).rng.wf(),
            bound > 0,
        ensures
            r == spec_rng_next(old(self).rng@) % bound,
            r < bound,
            final(self).rng@ == spec_rng_next(old(self).rng@),
            final(self).rng.wf(),
            final(self).proc == old(self).proc,
            final(self).time == old(self).time,
            final(self).actions == old(self).actions,
    {
        self.rng.rand_range(bound)
    }

    /// Queues sending `msg` to the process named `dst`.
    pub fn send(&mut self, msg: Message, dst: String)
        ensures
            final(self).actions.deep_view() == old(self).actions.deep_view().push(
                ProcessEventV::MessageSent {
                    msg: msg.deep_view(),
                    src: old(self).proc@,
                    dst: dst@,
                },
            ),
            final(self).proc == old(self).proc,
            final(self).time == old(self).time,
            final(self).rng == old(self).rng,
    {
        let src = self.proc.clone();
        self.actions.push(ProcessEvent::MessageSent { msg, src, dst });
        proof {
            assert(self.actions.deep_view() =~= old(self).actions.deep_view().push(
                self.actions@.last().deep_view(),
            ));
        }
    }

    /// Queues emitting `msg` to the local user.
    pub fn send_local(&mut self, msg: Message)
        ensures
            final(self).actions.deep_view() == old(self).actions.deep_view().push(
                ProcessEventV::LocalMessageSent { msg: msg.deep_view() },
            ),
            final(self).proc == old(self).proc,
            final(self).time == old(self).time,
            final(self).rng == old(self).rng,
    {
        self.actions.push(ProcessEvent::LocalMessageSent { msg });
        proof {
            assert(self.actions.deep_view() =~= old(self).actions.deep_view().push(
                self.actions@.last().deep_view(),
            ));
        }
    }

    /// Queues setting a timer, overriding a pending timer of the same name.
    pub fn set_timer(&mut self, name: &str, delay: u64)
        ensures
            final(self).actions.deep_view() == old(self).actions.deep_view().push(
                ProcessEventV::TimerSet {
                    name: name@,
                    delay,
                    behavior: TimerBehavior::OverrideExisting,
                },
            ),
            final(self).proc == old(self).proc,
            final(self).time == old(self).time,
            final(self).rng == old(self).rng,
    {
        self.actions.push(ProcessEvent::TimerSet {
            name: name.to_owned(),
            delay,
            behavior: TimerBehavior::OverrideExisting,
        });
        proof {
            assert(self.actions.deep_view() =~= old(self).actions.deep_view().push(
                self.actions@.last().deep_view(),
            ));
        }
    }

    /// Queues setting a timer, keeping a pending timer of the same name.
    pub fn set_timer_once(&mut self, name: &str, delay: u64)
        ensures
            final(self).actions.deep_view() == old(self).actions.deep_view().push(
                ProcessEventV::TimerSet { name: name@, delay, behavior: TimerBehavior::SetOnce },
            ),
            final(self).proc == old(self).proc,
            final(self).time == old(self).time,
            final(self).rng == old(self).rng,
    {
        self.actions.push(ProcessEvent::TimerSet {
            name: name.to_owned(),
            delay,
            behavior: TimerBehavior::SetOnce,
        });
        proof {
            assert(self.actions.deep_view() =~= old(self).actions.deep_view().push(
                self.actions@.last().deep_view(),
            ));
        }
    }

    /// Queues cancelling the timer of the given name.
    pub fn cancel_timer(&mut self, name: &str)
        ensures
            final(self).actions.deep_view() == old(self).actions.deep_view().push(
                ProcessEventV::TimerCancelled { name: name@ },
            ),
            final(self).proc == old(self).proc,
            final(self).time == old(self).time,
            final(self).rng == old(self).rng,
    {
        self.actions.push(ProcessEvent::TimerCancelled { name: name.to_owned() });
        proof {
            assert(self.actions.deep_view() =~= old(self).actions.deep_view().push(
                self.actions@.last().deep_view(),
            ));
        }
    }

    /// Hands the queued actions out, consuming the context.
    pub fn actions(self) -> (r: Vec<ProcessEvent>)
        ensures
            r == self.actions,
    {
        self.actions
    }
}

} // verus!
