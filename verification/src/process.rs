//! Process implementations: the callback surface and the built-in process
//! behaviours shipped with the library.
//!
//! A process reacts to message deliveries, local messages and timer fires
//! through callbacks that queue actions on a [`Context`]; it also exposes a
//! snapshot of its externally observable state through [`ProcessImpl::state`]
//! and [`ProcessImpl::set_state`]. Implementations are variants kept uniform
//! through that capability surface, and every callback is an exact function
//! of the prior state and the inputs, stated by the `spec_on_*` functions.

use vstd::prelude::*;
use crate::context::Context;
use crate::message::{Message, MessageV};
use crate::node::{ProcessEventV, TimerBehavior};

verus! {

/// Delay, in time units, between the retries of the retrying client.
pub const RETRY_DELAY: u64 = 3;

/// The mathematical value of a [`ProcessImpl`].
#[verifier::ext_equal]
pub enum ProcessImplV {
    /// See [`ProcessImpl::BasicPingClient`].
    BasicPingClient { server: Seq<char> },
    /// See [`ProcessImpl::RetryPingClient`].
    RetryPingClient { server: Seq<char>, ping: Option<MessageV> },
    /// See [`ProcessImpl::PingServer`].
    PingServer,
    /// See [`ProcessImpl::CountingServer`].
    CountingServer { count: u64, forgetful: bool },
    /// See [`ProcessImpl::TimerOverride`].
    TimerOverride { fired: u64 },
    /// See [`ProcessImpl::Failing`].
    Failing { reason: Seq<char> },
}

/// A process: a variant of the built-in behaviours.
///
/// The value of a process is exactly its externally observable state, so a
/// snapshot is a plain copy of the value.
pub enum ProcessImpl {
    /// Forwards a local `PING` to `server` and hands a received `PONG` to
    /// the local user.
    BasicPingClient {
        /// Name of the server process.
        server: String,
    },
    /// Like the basic client, but keeps the ping and re-sends it every
    /// [`RETRY_DELAY`] time units until a `PONG` arrives.
    RetryPingClient {
        /// Name of the server process.
        server: String,
        /// The ping awaiting its answer, if any.
        ping: Option<Message>,
    },
    /// Answers each `PING` with a `PONG` carrying the same payload.
    PingServer,
    /// Answers the first `PING` with a `PONG` carrying the same payload and
    /// any later one with a `PONG` carrying `"stale"`. With `forgetful` set,
    /// `set_state` keeps the live count instead of the snapshot's: the
    /// variant models a faulty process that drops state between calls.
    CountingServer {
        /// Number of pings handled so far.
        count: u64,
        /// Whether `set_state` unfaithfully keeps the live count.
        forgetful: bool,
    },
    /// Sets timer `"t"` with delay 5 and at once overrides it with delay 1
    /// on a local `START`; reports each fire to the local user.
    TimerOverride {
        /// Number of fires observed.
        fired: u64,
    },
    /// Fails every callback with the given text: exercises the
    /// user-process-error path.
    Failing {
        /// The error text the callbacks return.
        reason: String,
    },
}

impl DeepView for ProcessImpl {
    type V = ProcessImplV;

    open spec fn deep_view(&self) -> ProcessImplV {
        match self {
            ProcessImpl::BasicPingClient { server } => ProcessImplV::BasicPingClient {
                server: server@,
            },
            ProcessImpl::RetryPingClient { server, ping } => ProcessImplV::RetryPingClient {
                server: server@,
                ping: ping.deep_view(),
            },
            ProcessImpl::PingServer => ProcessImplV::PingServer,
            ProcessImpl::CountingServer { count, forgetful } => ProcessImplV::CountingServer {
                count: *count,
                forgetful: *forgetful,
            },
            ProcessImpl::TimerOverride { fired } => ProcessImplV::TimerOverride { fired: *fired },
            ProcessImpl::Failing { reason } => ProcessImplV::Failing { reason: reason@ },
        }
    }
}

impl Clone for ProcessImpl {
    /// Cloning preserves the process value.
    fn clone(&self) -> (r: Self)
        ensures
            r.deep_view() == self.deep_view(),
    {
        match self {
            ProcessImpl::BasicPingClient { server } => ProcessImpl::BasicPingClient {
                server: server.clone(),
            },
            ProcessImpl::RetryPingClient { server, ping } => ProcessImpl::RetryPingClient {
                server: server.clone(),
                ping: match ping {
                    Option::Some(m) => Option::Some(m.clone()),
                    Option::None => Option::None,
                },
            },
            ProcessImpl::PingServer => ProcessImpl::PingServer,
            ProcessImpl::CountingServer { count, forgetful } => ProcessImpl::CountingServer {
                count: *count,
                forgetful: *forgetful,
            },
            ProcessImpl::TimerOverride { fired } => ProcessImpl::TimerOverride { fired: *fired },
            ProcessImpl::Failing { reason } => ProcessImpl::Failing { reason: reason.clone() },
        }
    }
}

/// Whether the callbacks of a process succeed: all variants but the failing
/// one do.
pub open spec fn spec_callbacks_ok(p: ProcessImplV) -> bool {
    !(p is Failing)
}

/// A process is honest when `set_state` restores a snapshot faithfully.
pub open spec fn spec_honest(p: ProcessImplV) -> bool {
    !(p matches ProcessImplV::CountingServer { forgetful: true, .. })
}

/// What `set_state` leaves behind: the snapshot, except that a forgetful
/// process keeps its live count.
pub open spec fn spec_set_state(p: ProcessImplV, snapshot: ProcessImplV) -> ProcessImplV {
    match p {
        ProcessImplV::CountingServer { count, forgetful: true } => ProcessImplV::CountingServer {
            count,
            forgetful: true,
        },
        _ => snapshot,
    }
}

/// The state and actions a message delivery leads to, as a function of the
/// prior state, the message, the sender name and the own name.
pub open spec fn spec_on_message(p: ProcessImplV, m: MessageV, from: Seq<char>, me: Seq<char>) -> (
    ProcessImplV,
    Seq<ProcessEventV>,
) {
    match p {
        ProcessImplV::BasicPingClient { server } => {
            if m.tag == "PONG"@ {
                (p, seq![ProcessEventV::LocalMessageSent { msg: m }])
            } else {
                (p, Seq::empty())
            }
        },
        ProcessImplV::RetryPingClient { server, ping } => {
            if m.tag == "PONG"@ {
                (
                    ProcessImplV::RetryPingClient { server, ping: Option::None },
                    seq![
                        ProcessEventV::TimerCancelled { name: "check-pong"@ },
                        ProcessEventV::LocalMessageSent { msg: m },
                    ],
                )
            } else {
                (p, Seq::empty())
            }
        },
        ProcessImplV::PingServer => {
            if m.tag == "PING"@ {
                (
                    p,
                    seq![
                        ProcessEventV::MessageSent {
                            msg: MessageV { tag: "PONG"@, data: m.data },
                            src: me,
                            dst: from,
                        },
                    ],
                )
            } else {
                (p, Seq::empty())
            }
        },
        ProcessImplV::CountingServer { count, forgetful } => {
            if m.tag == "PING"@ {
                let data = if count == 0 {
                    m.data
                } else {
                    "stale"@
                };
                let count2 = if count < u64::MAX {
                    (count + 1) as u64
                } else {
                    count
                };
                (
                    ProcessImplV::CountingServer { count: count2, forgetful },
                    seq![
                        ProcessEventV::MessageSent {
                            msg: MessageV { tag: "PONG"@, data },
                            src: me,
                            dst: from,
                        },
                    ],
                )
            } else {
                (p, Seq::empty())
            }
        },
        ProcessImplV::TimerOverride { .. } => (p, Seq::empty()),
        ProcessImplV::Failing { .. } => (p, Seq::empty()),
    }
}

/// The state and actions a local message leads to.
pub open spec fn spec_on_local_message(p: ProcessImplV, m: MessageV, me: Seq<char>) -> (
    ProcessImplV,
    Seq<ProcessEventV>,
) {
    match p {
        ProcessImplV::BasicPingClient { server } => {
            if m.tag == "PING"@ {
                (p, seq![ProcessEventV::MessageSent { msg: m, src: me, dst: server }])
            } else {
                (p, Seq::empty())
            }
        },
        ProcessImplV::RetryPingClient { server, ping } => {
            if m.tag == "PING"@ {
                (
                    ProcessImplV::RetryPingClient { server, ping: Option::Some(m) },
                    seq![
                        ProcessEventV::MessageSent { msg: m, src: me, dst: server },
                        ProcessEventV::TimerSet {
                            name: "check-pong"@,
                            delay: RETRY_DELAY,
                            behavior: TimerBehavior::OverrideExisting,
                        },
                    ],
                )
            } else {
                (p, Seq::empty())
            }
        },
        ProcessImplV::TimerOverride { .. } => {
            if m.tag == "START"@ {
                (
                    p,
                    seq![
                        ProcessEventV::TimerSet {
                            name: "t"@,
                            delay: 5,
                            behavior: TimerBehavior::OverrideExisting,
                        },
                        ProcessEventV::TimerSet {
                            name: "t"@,
                            delay: 1,
                            behavior: TimerBehavior::OverrideExisting,
                        },
                    ],
                )
            } else {
                (p, Seq::empty())
            }
        },
        _ => (p, Seq::empty()),
    }
}

/// The state and actions a timer fire leads to.
pub open spec fn spec_on_timer(p: ProcessImplV, timer: Seq<char>, me: Seq<char>) -> (
    ProcessImplV,
    Seq<ProcessEventV>,
) {
    match p {
        ProcessImplV::RetryPingClient { server, ping } => {
            if timer == "check-pong"@ && ping is Some {
                (
                    p,
                    seq![
                        ProcessEventV::MessageSent { msg: ping->0, src: me, dst: server },
                        ProcessEventV::TimerSet {
                            name: "check-pong"@,
                            delay: RETRY_DELAY,
                            behavior: TimerBehavior::OverrideExisting,
                        },
                    ],
                )
            } else {
                (p, Seq::empty())
            }
        },
        ProcessImplV::TimerOverride { fired } => {
            let fired2 = if fired < u64::MAX {
                (fired + 1) as u64
            } else {
                fired
            };
            (
                ProcessImplV::TimerOverride { fired: fired2 },
                seq![
                    ProcessEventV::LocalMessageSent {
                        msg: MessageV { tag: "FIRED"@, data: Seq::empty() },
                    },
                ],
            )
        },
        _ => (p, Seq::empty()),
    }
}

/// Restoring a snapshot into an honest process and reading the state back
/// yields the snapshot unchanged.
pub proof fn lemma_snapshot_round_trip(p: ProcessImplV, snapshot: ProcessImplV)
    requires
        spec_honest(p),
    ensures
        spec_set_state(p, snapshot) == snapshot,
{
}

/// A forgetful process drops state between calls: restoring a snapshot
/// whose count differs from the live one does not yield the snapshot, so
/// a search that restores states through the snapshot surface reaches
/// configurations an honest process could not.
pub proof fn lemma_forgetful_drops_state(p: ProcessImplV, snapshot: ProcessImplV)
    requires
        p matches ProcessImplV::CountingServer { forgetful: true, .. },
        snapshot matches ProcessImplV::CountingServer { .. },
        p != snapshot,
    ensures
        spec_set_state(p, snapshot) != snapshot,
{
}

/// Compares a string field against a literal.
pub fn str_eq(a: &String, b: &str) -> (r: bool)
    ensures
        r == (a@ == b@),
{
    *a == b.to_owned()
}

impl ProcessImpl {
    /// Invoked once when the process is bound to a node and after a
    /// recovery; the built-in behaviours take no start-up action.
    pub fn on_start(&mut self, ctx: &mut Context) -> (r: Result<(), String>)
        ensures
            *final(self) == *old(self),
            *final(ctx) == *old(ctx),
            r is Ok <==> spec_callbacks_ok(old(self).deep_view()),
            r matches Err(e) ==> old(self).deep_view() matches ProcessImplV::Failing { reason }
                && e@ == reason,
    {
        match self {
            ProcessImpl::Failing { reason } => Result::Err(reason.clone()),
            _ => Result::Ok(()),
        }
    }

    /// Handles a message delivered from the process named `from`.
    pub fn on_message(&mut self, msg: Message, from: String, ctx: &mut Context) -> (r: Result<
        (),
        String,
    >)
        ensures
            final(self).deep_view() == spec_on_message(
                old(self).deep_view(),
                msg.deep_view(),
                from@,
                old(ctx).proc@,
            ).0,
            final(ctx).actions.deep_view() == old(ctx).actions.deep_view() + spec_on_message(
                old(self).deep_view(),
                msg.deep_view(),
                from@,
                old(ctx).proc@,
            ).1,
            final(ctx).proc == old(ctx).proc,
            final(ctx).time == old(ctx).time,
            final(ctx).rng == old(ctx).rng,
            r is Ok <==> spec_callbacks_ok(old(self).deep_view()),
            r matches Err(e) ==> old(self).deep_view() matches ProcessImplV::Failing { reason }
                && e@ == reason,
    {
        let ghost acts = spec_on_message(
            self.deep_view(),
            msg.deep_view(),
            from@,
            ctx.proc@,
        ).1;
        let r: Result<(), String> = match self {
            ProcessImpl::BasicPingClient { server } => {
                if str_eq(&msg.tag, "PONG") {
                    ctx.send_local(msg);
                }
                Result::Ok(())
            },
            ProcessImpl::RetryPingClient { server, ping } => {
                if str_eq(&msg.tag, "PONG") {
                    *ping = Option::None;
                    ctx.cancel_timer("check-pong");
                    ctx.send_local(msg);
                }
                Result::Ok(())
            },
            ProcessImpl::PingServer => {
                if str_eq(&msg.tag, "PING") {
                    let resp = Message { tag: "PONG".to_owned(), data: msg.data };
                    ctx.send(resp, from);
                }
                Result::Ok(())
            },
            ProcessImpl::CountingServer { count, forgetful } => {
                if str_eq(&msg.tag, "PING") {
                    let data = if *count == 0 {
                        msg.data
                    } else {
                        "stale".to_owned()
                    };
                    if *count < u64::MAX {
                        *count = *count + 1;
                    }
                    let resp = Message { tag: "PONG".to_owned(), data };
                    ctx.send(resp, from);
                }
                Result::Ok(())
            },
            ProcessImpl::TimerOverride { .. } => Result::Ok(()),
            ProcessImpl::Failing { reason } => Result::Err(reason.clone()),
        };
        proof {
            assert(ctx.actions.deep_view() =~= old(ctx).actions.deep_view() + acts);
        }
        r
    }

    /// Handles a message delivered by the local user.
    pub fn on_local_message(&mut self, msg: Message, ctx: &mut Context) -> (r: Result<(), String>)
        ensures
            final(self).deep_view() == spec_on_local_message(
                old(self).deep_view(),
                msg.deep_view(),
                old(ctx).proc@,
            ).0,
            final(ctx).actions.deep_view() == old(ctx).actions.deep_view()
                + spec_on_local_message(
                old(self).deep_view(),
                msg.deep_view(),
                old(ctx).proc@,
            ).1,
            final(ctx).proc == old(ctx).proc,
            final(ctx).time == old(ctx).time,
            final(ctx).rng == old(ctx).rng,
            r is Ok <==> spec_callbacks_ok(old(self).deep_view()),
            r matches Err(e) ==> old(self).deep_view() matches ProcessImplV::Failing { reason }
                && e@ == reason,
    {
        let ghost acts = spec_on_local_message(self.deep_view(), msg.deep_view(), ctx.proc@).1;
        let r: Result<(), String> = match self {
            ProcessImpl::BasicPingClient { server } => {
                if str_eq(&msg.tag, "PING") {
                    let dst = server.clone();
                    ctx.send(msg, dst);
                }
                Result::Ok(())
            },
            ProcessImpl::RetryPingClient { server, ping } => {
                if str_eq(&msg.tag, "PING") {
                    *ping = Option::Some(msg.clone());
                    let dst = server.clone();
                    ctx.send(msg, dst);
                    ctx.set_timer("check-pong", RETRY_DELAY);
                }
                Result::Ok(())
            },
            ProcessImpl::TimerOverride { .. } => {
                if str_eq(&msg.tag, "START") {
                    ctx.set_timer("t", 5);
                    ctx.set_timer("t", 1);
                }
                Result::Ok(())
            },
            ProcessImpl::PingServer => Result::Ok(()),
            ProcessImpl::CountingServer { .. } => Result::Ok(()),
            ProcessImpl::Failing { reason } => Result::Err(reason.clone()),
        };
        proof {
            assert(ctx.actions.deep_view() =~= old(ctx).actions.deep_view() + acts);
        }
        r
    }

    /// Handles the fire of the timer named `timer`.
    pub fn on_timer(&mut self, timer: String, ctx: &mut Context) -> (r: Result<(), String>)
        ensures
            final(self).deep_view() == spec_on_timer(
                old(self).deep_view(),
                timer@,
                old(ctx).proc@,
            ).0,
            final(ctx).actions.deep_view() == old(ctx).actions.deep_view() + spec_on_timer(
                old(self).deep_view(),
                timer@,
                old(ctx).proc@,
            ).1,
            final(ctx).proc == old(ctx).proc,
            final(ctx).time == old(ctx).time,
            final(ctx).rng == old(ctx).rng,
            r is Ok <==> spec_callbacks_ok(old(self).deep_view()),
            r matches Err(e) ==> old(self).deep_view() matches ProcessImplV::Failing { reason }
                && e@ == reason,
    {
        let ghost acts = spec_on_timer(self.deep_view(), timer@, ctx.proc@).1;
        let r: Result<(), String> = match self {
            ProcessImpl::RetryPingClient { server, ping } => {
                if str_eq(&timer, "check-pong") && ping.is_some() {
                    let m = match ping {
                        Option::Some(m) => m.clone(),
                        Option::None => Message { tag: String::new(), data: String::new() },
                    };
                    let dst = server.clone();
                    ctx.send(m, dst);
                    ctx.set_timer("check-pong", RETRY_DELAY);
                }
                Result::Ok(())
            },
            ProcessImpl::TimerOverride { fired } => {
                if *fired < u64::MAX {
                    *fired = *fired + 1;
                }
                ctx.send_local(Message { tag: "FIRED".to_owned(), data: String::new() });
                Result::Ok(())
            },
            ProcessImpl::Failing { reason } => Result::Err(reason.clone()),
            _ => Result::Ok(()),
        };
        proof {
            assert(ctx.actions.deep_view() =~= old(ctx).actions.deep_view() + acts);
        }
        r
    }

    /// The externally observable state: a plain copy of the value.
    pub fn state(&self) -> (r: ProcessImpl)
        ensures
            r.deep_view() == self.deep_view(),
    {
        self.clone()
    }

    /// Restores a snapshot. An honest process takes it wholesale; a
    /// forgetful one keeps its live count, modelling dropped state.
    pub fn set_state(&mut self, snapshot: ProcessImpl)
        ensures
            final(self).deep_view() == spec_set_state(
                old(self).deep_view(),
                snapshot.deep_view(),
            ),
    {
        match self {
            ProcessImpl::CountingServer { count, forgetful } => {
                if *forgetful {
                    return ;
                }
                *self = snapshot;
            },
            _ => { *self = snapshot; },
        }
    }
}

} // verus!
