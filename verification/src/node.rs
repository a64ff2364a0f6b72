//! Nodes: named owners of processes, routing callbacks and collecting the
//! side effects each callback accumulates.

use vstd::prelude::*;
use crate::context::Context;
use crate::events::{DeliveryOptions, DeliveryOptionsV, McEvent, McEventV};
use crate::logger::{LogEntry, LogEntryV};
use crate::message::{Message, MessageV};
use crate::process::{
    spec_callbacks_ok, spec_on_local_message, spec_on_message, spec_on_timer, spec_set_state,
    ProcessImpl, ProcessImplV,
};

verus! {

/// What happens when a timer is set under a name that is already pending.
#[derive(Clone, Copy, PartialEq, Eq, Structural, Debug)]
pub enum TimerBehavior {
    /// Keep the existing timer and ignore the new request.
    SetOnce,
    /// Cancel the existing timer atomically and schedule the new one.
    OverrideExisting,
}

/// The mathematical value of a [`ProcessEvent`].
#[verifier::ext_equal]
pub enum ProcessEventV {
    /// See [`ProcessEvent::MessageSent`].
    MessageSent { msg: MessageV, src: Seq<char>, dst: Seq<char> },
    /// See [`ProcessEvent::MessageReceived`].
    MessageReceived { msg: MessageV, src: Seq<char>, dst: Seq<char> },
    /// See [`ProcessEvent::LocalMessageSent`].
    LocalMessageSent { msg: MessageV },
    /// See [`ProcessEvent::LocalMessageReceived`].
    LocalMessageReceived { msg: MessageV },
    /// See [`ProcessEvent::TimerSet`].
    TimerSet { name: Seq<char>, delay: u64, behavior: TimerBehavior },
    /// See [`ProcessEvent::TimerFired`].
    TimerFired { name: Seq<char> },
    /// See [`ProcessEvent::TimerCancelled`].
    TimerCancelled { name: Seq<char> },
}

/// An action performed by a process during a callback, or a trigger
/// delivered to it; also the entry type of the per-process event log.
pub enum ProcessEvent {
    /// The process sent a message to another process.
    MessageSent {
        /// The message.
        msg: Message,
        /// Name of the sending process.
        src: String,
        /// Name of the destination process.
        dst: String,
    },
    /// A message was delivered to the process.
    MessageReceived {
        /// The message.
        msg: Message,
        /// Name of the sending process.
        src: String,
        /// Name of the destination process.
        dst: String,
    },
    /// The process emitted a message to the local user.
    LocalMessageSent {
        /// The message.
        msg: Message,
    },
    /// The local user delivered a message to the process.
    LocalMessageReceived {
        /// The message.
        msg: Message,
    },
    /// The process requested a timer.
    TimerSet {
        /// Timer name, unique per process.
        name: String,
        /// Delay in time units from now until the fire.
        delay: u64,
        /// What to do if a timer of this name is already pending.
        behavior: TimerBehavior,
    },
    /// A timer fired on the process.
    TimerFired {
        /// Timer name.
        name: String,
    },
    /// The process cancelled a timer.
    TimerCancelled {
        /// Timer name.
        name: String,
    },
}

impl DeepView for ProcessEvent {
    type V = ProcessEventV;

    open spec fn deep_view(&self) -> ProcessEventV {
        match self {
            ProcessEvent::MessageSent { msg, src, dst } => ProcessEventV::MessageSent {
                msg: msg.deep_view(),
                src: src@,
                dst: dst@,
            },
            ProcessEvent::MessageReceived { msg, src, dst } => ProcessEventV::MessageReceived {
                msg: msg.deep_view(),
                src: src@,
                dst: dst@,
            },
            ProcessEvent::LocalMessageSent { msg } => ProcessEventV::LocalMessageSent {
                msg: msg.deep_view(),
            },
            ProcessEvent::LocalMessageReceived { msg } => ProcessEventV::LocalMessageReceived {
                msg: msg.deep_view(),
            },
            ProcessEvent::TimerSet { name, delay, behavior } => ProcessEventV::TimerSet {
                name: name@,
                delay: *delay,
                behavior: *behavior,
            },
            ProcessEvent::TimerFired { name } => ProcessEventV::TimerFired { name: name@ },
            ProcessEvent::TimerCancelled { name } => ProcessEventV::TimerCancelled { name: name@ },
        }
    }
}

impl Clone for ProcessEvent {
    /// Cloning preserves the event value.
    fn clone(&self) -> (r: Self)
        ensures
            r.deep_view() == self.deep_view(),
    {
        match self {
            ProcessEvent::MessageSent { msg, src, dst } => ProcessEvent::MessageSent {
                msg: msg.clone(),
                src: src.clone(),
                dst: dst.clone(),
            },
            ProcessEvent::MessageReceived { msg, src, dst } => ProcessEvent::MessageReceived {
                msg: msg.clone(),
                src: src.clone(),
                dst: dst.clone(),
            },
            ProcessEvent::LocalMessageSent { msg } => ProcessEvent::LocalMessageSent {
                msg: msg.clone(),
            },
            ProcessEvent::LocalMessageReceived { msg } => ProcessEvent::LocalMessageReceived {
                msg: msg.clone(),
            },
            ProcessEvent::TimerSet { name, delay, behavior } => ProcessEvent::TimerSet {
                name: name.clone(),
                delay: *delay,
                behavior: *behavior,
            },
            ProcessEvent::TimerFired { name } => ProcessEvent::TimerFired { name: name.clone() },
            ProcessEvent::TimerCancelled { name } => ProcessEvent::TimerCancelled {
                name: name.clone(),
            },
        }
    }
}

/// The mathematical value of an [`EventLogEntry`].
#[verifier::ext_equal]
pub struct EventLogEntryV {
    /// Time the entry was recorded at.
    pub time: u64,
    /// The recorded event.
    pub event: ProcessEventV,
}

/// A time-stamped entry of a per-process event log.
pub struct EventLogEntry {
    /// Time the entry was recorded at.
    pub time: u64,
    /// The recorded event.
    pub event: ProcessEvent,
}

impl DeepView for EventLogEntry {
    type V = EventLogEntryV;

    open spec fn deep_view(&self) -> EventLogEntryV {
        EventLogEntryV { time: self.time, event: self.event.deep_view() }
    }
}

impl EventLogEntry {
    /// Creates a log entry.
    pub fn new(time: u64, event: ProcessEvent) -> (r: EventLogEntry)
        ensures
            r.deep_view() == (EventLogEntryV { time, event: event.deep_view() }),
    {
        EventLogEntry { time, event }
    }
}

impl Clone for EventLogEntry {
    /// Cloning preserves the entry value.
    fn clone(&self) -> (r: Self)
        ensures
            r.deep_view() == self.deep_view(),
    {
        EventLogEntry { time: self.time, event: self.event.clone() }
    }
}


/// Incrementing a counter, saturating at the greatest value.
pub open spec fn sat_inc(c: u64) -> u64 {
    if c < u64::MAX {
        (c + 1) as u64
    } else {
        c
    }
}

/// Adding two times, saturating at the greatest value.
pub open spec fn sat_add(a: u64, b: u64) -> u64 {
    if a + b <= u64::MAX {
        (a + b) as u64
    } else {
        u64::MAX
    }
}

/// Whether a timer of the given name is pending.
pub open spec fn spec_has_timer(ts: Seq<Seq<char>>, name: Seq<char>) -> bool {
    exists|i: int| 0 <= i < ts.len() && ts[i] == name
}

/// The first index of a timer name in the pending list.
pub open spec fn spec_timer_index(ts: Seq<Seq<char>>, name: Seq<char>) -> int
    decreases ts.len(),
{
    if ts.len() == 0 {
        0
    } else if ts[0] == name {
        0
    } else {
        1 + spec_timer_index(ts.drop_first(), name)
    }
}

/// The pending list with the first entry of the given name removed.
pub open spec fn spec_remove_timer(ts: Seq<Seq<char>>, name: Seq<char>) -> Seq<Seq<char>> {
    if spec_has_timer(ts, name) {
        ts.remove(spec_timer_index(ts, name))
    } else {
        ts
    }
}

/// When a timer name is present, its first index lies in bounds, holds the
/// name, and nothing before it does.
pub proof fn lemma_timer_index(ts: Seq<Seq<char>>, name: Seq<char>)
    requires
        spec_has_timer(ts, name),
    ensures
        0 <= spec_timer_index(ts, name) < ts.len(),
        ts[spec_timer_index(ts, name)] == name,
        forall|j: int| 0 <= j < spec_timer_index(ts, name) ==> ts[j] != name,
    decreases ts.len(),
{
    if ts.len() > 0 && ts[0] != name {
        assert(spec_has_timer(ts.drop_first(), name)) by {
            let i = choose|i: int| 0 <= i < ts.len() && ts[i] == name;
            assert(ts.drop_first()[i - 1] == name);
        }
        lemma_timer_index(ts.drop_first(), name);
        assert forall|j: int| 0 <= j < spec_timer_index(ts, name) implies ts[j] != name by {
            if j > 0 {
                assert(ts.drop_first()[j - 1] == ts[j]);
            }
        }
    }
}

/// Finds the first pending timer of the given name.
fn find_timer(ts: &Vec<String>, name: &String) -> (r: Option<usize>)
    ensures
        r is Some <==> spec_has_timer(ts.deep_view(), name@),
        r matches Some(i) ==> i == spec_timer_index(ts.deep_view(), name@)
            && i < ts.deep_view().len(),
{
    let ghost tv = ts.deep_view();
    let mut i: usize = 0;
    while i < ts.len()
        invariant
            0 <= i <= ts.len(),
            tv == ts.deep_view(),
            tv.len() == ts.len(),
            forall|j: int| 0 <= j < i ==> tv[j] != name@,
        decreases ts.len() - i,
    {
        proof {
            assert(tv[i as int] == ts@[i as int]@);
        }
        if ts[i] == *name {
            proof {
                lemma_timer_index(tv, name@);
            }
            return Option::Some(i);
        }
        i = i + 1;
    }
    Option::None
}

/// The mathematical value of a [`ProcessEntry`] and of a
/// [`ProcessEntryState`]: a snapshot carries exactly the observable fields
/// of the live entry, so the two share one value type.
#[verifier::ext_equal]
pub struct ProcessEntryV {
    /// State of the process itself.
    pub proc: ProcessImplV,
    /// The recorded event log.
    pub event_log: Seq<EventLogEntryV>,
    /// Locally emitted messages awaiting the user.
    pub local_outbox: Seq<MessageV>,
    /// Names of the pending timers.
    pub pending_timers: Seq<Seq<char>>,
    /// Messages sent so far.
    pub sent_message_count: u64,
    /// Messages received so far.
    pub received_message_count: u64,
}

/// A process bound to a node, with its bookkeeping.
pub struct ProcessEntry {
    /// The process itself.
    pub proc_impl: ProcessImpl,
    /// Ordered log of the events seen and the actions taken.
    pub event_log: Vec<EventLogEntry>,
    /// Locally emitted messages awaiting consumption by the user.
    pub local_outbox: Vec<Message>,
    /// Names of the timers scheduled and not yet fired or cancelled.
    pub pending_timers: Vec<String>,
    /// Number of messages the process has sent.
    pub sent_message_count: u64,
    /// Number of messages delivered to the process.
    pub received_message_count: u64,
}

impl DeepView for ProcessEntry {
    type V = ProcessEntryV;

    open spec fn deep_view(&self) -> ProcessEntryV {
        ProcessEntryV {
            proc: self.proc_impl.deep_view(),
            event_log: self.event_log.deep_view(),
            local_outbox: self.local_outbox.deep_view(),
            pending_timers: self.pending_timers.deep_view(),
            sent_message_count: self.sent_message_count,
            received_message_count: self.received_message_count,
        }
    }
}

/// The blank entry a fresh process starts with.
pub open spec fn spec_blank_entry(p: ProcessImplV) -> ProcessEntryV {
    ProcessEntryV {
        proc: p,
        event_log: Seq::empty(),
        local_outbox: Seq::empty(),
        pending_timers: Seq::empty(),
        sent_message_count: 0,
        received_message_count: 0,
    }
}

impl ProcessEntry {
    /// Creates a blank entry around a process.
    pub fn new(proc_impl: ProcessImpl) -> (r: ProcessEntry)
        ensures
            r.deep_view() == spec_blank_entry(proc_impl.deep_view()),
    {
        let r = ProcessEntry {
            proc_impl,
            event_log: Vec::new(),
            local_outbox: Vec::new(),
            pending_timers: Vec::new(),
            sent_message_count: 0,
            received_message_count: 0,
        };
        proof {
            assert(r.deep_view() =~= spec_blank_entry(r.proc_impl.deep_view()));
        }
        r
    }

    /// Takes a snapshot of the entry. Always succeeds for the built-in
    /// processes; the `Result` mirrors the snapshot surface, whose process
    /// part is allowed to fail.
    pub fn get_state(&self) -> (r: Result<ProcessEntryState, String>)
        ensures
            r matches Ok(s) && s.deep_view() == self.deep_view(),
    {
        Result::Ok(ProcessEntryState {
            proc_state: self.proc_impl.state(),
            event_log: clone_log(&self.event_log),
            local_outbox: clone_messages(&self.local_outbox),
            pending_timers: clone_names(&self.pending_timers),
            sent_message_count: self.sent_message_count,
            received_message_count: self.received_message_count,
        })
    }

    /// Restores a snapshot; the process part goes through
    /// [`ProcessImpl::set_state`], so a forgetful process keeps its live
    /// count. Always succeeds for the built-in processes.
    pub fn set_state(&mut self, state: ProcessEntryState) -> (r: Result<(), String>)
        ensures
            r is Ok,
            final(self).deep_view() == spec_entry_set_state(
                old(self).deep_view(),
                state.deep_view(),
            ),
    {
        let ProcessEntryState {
            proc_state,
            event_log,
            local_outbox,
            pending_timers,
            sent_message_count,
            received_message_count,
        } = state;
        self.proc_impl.set_state(proc_state);
        self.event_log = event_log;
        self.local_outbox = local_outbox;
        self.pending_timers = pending_timers;
        self.sent_message_count = sent_message_count;
        self.received_message_count = received_message_count;
        Result::Ok(())
    }
}

/// What restoring a snapshot into an entry leaves behind: the snapshot,
/// except that the process part may keep live state (see
/// [`spec_set_state`]).
pub open spec fn spec_entry_set_state(e: ProcessEntryV, s: ProcessEntryV) -> ProcessEntryV {
    ProcessEntryV { proc: spec_set_state(e.proc, s.proc), ..s }
}

/// A hashable snapshot of a [`ProcessEntry`].
pub struct ProcessEntryState {
    /// Snapshot of the process state.
    pub proc_state: ProcessImpl,
    /// The recorded event log.
    pub event_log: Vec<EventLogEntry>,
    /// Locally emitted messages awaiting the user.
    pub local_outbox: Vec<Message>,
    /// Names of the pending timers.
    pub pending_timers: Vec<String>,
    /// Messages sent so far.
    pub sent_message_count: u64,
    /// Messages received so far.
    pub received_message_count: u64,
}

impl DeepView for ProcessEntryState {
    type V = ProcessEntryV;

    open spec fn deep_view(&self) -> ProcessEntryV {
        ProcessEntryV {
            proc: self.proc_state.deep_view(),
            event_log: self.event_log.deep_view(),
            local_outbox: self.local_outbox.deep_view(),
            pending_timers: self.pending_timers.deep_view(),
            sent_message_count: self.sent_message_count,
            received_message_count: self.received_message_count,
        }
    }
}

impl Clone for ProcessEntryState {
    /// Cloning preserves the snapshot value.
    fn clone(&self) -> (r: Self)
        ensures
            r.deep_view() == self.deep_view(),
    {
        ProcessEntryState {
            proc_state: self.proc_state.clone(),
            event_log: clone_log(&self.event_log),
            local_outbox: clone_messages(&self.local_outbox),
            pending_timers: clone_names(&self.pending_timers),
            sent_message_count: self.sent_message_count,
            received_message_count: self.received_message_count,
        }
    }
}

/// Clones an event log, preserving its value.
pub fn clone_log(v: &Vec<EventLogEntry>) -> (r: Vec<EventLogEntry>)
    ensures
        r.deep_view() == v.deep_view(),
{
    let mut r: Vec<EventLogEntry> = Vec::new();
    let mut i: usize = 0;
    while i < v.len()
        invariant
            0 <= i <= v.len(),
            r@.len() == i,
            forall|j: int| 0 <= j < i ==> r.deep_view()[j] == v.deep_view()[j],
        decreases v.len() - i,
    {
        let x = v[i].clone();
        proof {
            assert(v.deep_view()[i as int] == v@[i as int].deep_view());
        }
        r.push(x);
        proof {
            assert forall|j: int| 0 <= j < i + 1 implies r.deep_view()[j] == v.deep_view()[j] by {
                assert(r.deep_view()[j] == r@[j].deep_view());
            }
        }
        i = i + 1;
    }
    proof {
        assert(r.deep_view() =~= v.deep_view());
    }
    r
}

/// Clones a message list, preserving its value.
pub fn clone_messages(v: &Vec<Message>) -> (r: Vec<Message>)
    ensures
        r.deep_view() == v.deep_view(),
{
    let mut r: Vec<Message> = Vec::new();
    let mut i: usize = 0;
    while i < v.len()
        invariant
            0 <= i <= v.len(),
            r@.len() == i,
            forall|j: int| 0 <= j < i ==> r.deep_view()[j] == v.deep_view()[j],
        decreases v.len() - i,
    {
        let x = v[i].clone();
        proof {
            assert(v.deep_view()[i as int] == v@[i as int].deep_view());
        }
        r.push(x);
        proof {
            assert forall|j: int| 0 <= j < i + 1 implies r.deep_view()[j] == v.deep_view()[j] by {
                assert(r.deep_view()[j] == r@[j].deep_view());
            }
        }
        i = i + 1;
    }
    proof {
        assert(r.deep_view() =~= v.deep_view());
    }
    r
}

/// Clones a name list, preserving its value.
pub fn clone_names(v: &Vec<String>) -> (r: Vec<String>)
    ensures
        r.deep_view() == v.deep_view(),
{
    let mut r: Vec<String> = Vec::new();
    let mut i: usize = 0;
    while i < v.len()
        invariant
            0 <= i <= v.len(),
            r@.len() == i,
            forall|j: int| 0 <= j < i ==> r.deep_view()[j] == v.deep_view()[j],
        decreases v.len() - i,
    {
        let x = v[i].clone();
        proof {
            assert(v.deep_view()[i as int] == v@[i as int].deep_view());
        }
        r.push(x);
        proof {
            assert forall|j: int| 0 <= j < i + 1 implies r.deep_view()[j] == v.deep_view()[j] by {
                assert(r.deep_view()[j] == r@[j].deep_view());
            }
        }
        i = i + 1;
    }
    proof {
        assert(r.deep_view() =~= v.deep_view());
    }
    r
}

/// The entry, new events and trace entries one queued action leads to.
///
/// Every action is recorded in the event log. A send becomes a pending
/// delivery; a local send feeds the outbox; setting a timer schedules its
/// fire, and overriding an existing one cancels the stale fire atomically,
/// so it can never be enabled; a cancel retires the pending fire.
pub open spec fn spec_apply_action(
    e: ProcessEntryV,
    proc: Seq<char>,
    time: u64,
    a: ProcessEventV,
) -> (ProcessEntryV, Seq<McEventV>, Seq<LogEntryV>) {
    let el = ProcessEntryV { event_log: e.event_log.push(EventLogEntryV { time, event: a }), ..e };
    match a {
        ProcessEventV::MessageSent { msg, src, dst } => (
            ProcessEntryV { sent_message_count: sat_inc(el.sent_message_count), ..el },
            seq![
                McEventV::MessageReceived {
                    msg,
                    src,
                    dst,
                    options: DeliveryOptionsV::NoFailures { delay: 0 },
                },
            ],
            seq![LogEntryV::MessageSent { msg, src, dst }],
        ),
        ProcessEventV::LocalMessageSent { msg } => (
            ProcessEntryV { local_outbox: el.local_outbox.push(msg), ..el },
            Seq::empty(),
            seq![LogEntryV::LocalMessageSent { msg, proc }],
        ),
        ProcessEventV::TimerSet { name, delay, behavior } => {
            if spec_has_timer(el.pending_timers, name) {
                if behavior == TimerBehavior::OverrideExisting {
                    (
                        el,
                        seq![
                            McEventV::TimerCancelled { proc, timer: name },
                            McEventV::TimerFired { proc, timer: name, timer_delay: delay },
                        ],
                        seq![LogEntryV::TimerSet { proc, timer: name }],
                    )
                } else {
                    (el, Seq::empty(), Seq::empty())
                }
            } else {
                (
                    ProcessEntryV { pending_timers: el.pending_timers.push(name), ..el },
                    seq![McEventV::TimerFired { proc, timer: name, timer_delay: delay }],
                    seq![LogEntryV::TimerSet { proc, timer: name }],
                )
            }
        },
        ProcessEventV::TimerCancelled { name } => {
            if spec_has_timer(el.pending_timers, name) {
                (
                    ProcessEntryV {
                        pending_timers: spec_remove_timer(el.pending_timers, name),
                        ..el
                    },
                    seq![McEventV::TimerCancelled { proc, timer: name }],
                    seq![LogEntryV::TimerCancelled { proc, timer: name }],
                )
            } else {
                (el, Seq::empty(), Seq::empty())
            }
        },
        _ => (el, Seq::empty(), Seq::empty()),
    }
}

/// Folding [`spec_apply_action`] over a queue of actions, front first.
pub open spec fn spec_handle_actions(
    e: ProcessEntryV,
    proc: Seq<char>,
    time: u64,
    actions: Seq<ProcessEventV>,
) -> (ProcessEntryV, Seq<McEventV>, Seq<LogEntryV>)
    decreases actions.len(),
{
    if actions.len() == 0 {
        (e, Seq::empty(), Seq::empty())
    } else {
        let (e1, ev1, tr1) = spec_apply_action(e, proc, time, actions[0]);
        let (e2, ev2, tr2) = spec_handle_actions(e1, proc, time, actions.drop_first());
        (e2, ev1 + ev2, tr1 + tr2)
    }
}

/// Drains a queue of actions against one entry, producing the new events
/// and recording the user-visible ones in the trace.
pub fn handle_actions_entry(
    entry: &mut ProcessEntry,
    proc: &String,
    time: u64,
    actions: Vec<ProcessEvent>,
    trace: &mut Vec<LogEntry>,
) -> (r: Vec<McEvent>)
    ensures
        final(entry).deep_view() == spec_handle_actions(
            old(entry).deep_view(),
            proc@,
            time,
            actions.deep_view(),
        ).0,
        r.deep_view() == spec_handle_actions(
            old(entry).deep_view(),
            proc@,
            time,
            actions.deep_view(),
        ).1,
        final(trace).deep_view() == old(trace).deep_view() + spec_handle_actions(
            old(entry).deep_view(),
            proc@,
            time,
            actions.deep_view(),
        ).2,
{
    let ghost avs = actions.deep_view();
    let ghost total = spec_handle_actions(old(entry).deep_view(), proc@, time, avs);
    let ghost tr0 = trace.deep_view();
    let mut out: Vec<McEvent> = Vec::new();
    let mut k: usize = 0;
    proof {
        assert(avs.subrange(0, avs.len() as int) =~= avs);
        assert(out.deep_view() =~= Seq::<McEventV>::empty());
    }
    while k < actions.len()
        invariant
            0 <= k <= actions.len(),
            avs == actions.deep_view(),
            avs.len() == actions.len(),
            spec_handle_actions(
                entry.deep_view(),
                proc@,
                time,
                avs.subrange(k as int, avs.len() as int),
            ).0 == total.0,
            out.deep_view() + spec_handle_actions(
                entry.deep_view(),
                proc@,
                time,
                avs.subrange(k as int, avs.len() as int),
            ).1 == total.1,
            trace.deep_view() + spec_handle_actions(
                entry.deep_view(),
                proc@,
                time,
                avs.subrange(k as int, avs.len() as int),
            ).2 == tr0 + total.2,
        decreases actions.len() - k,
    {
        let ghost cur = entry.deep_view();
        let ghost rest = avs.subrange(k as int, avs.len() as int);
        let ghost stepres = spec_apply_action(cur, proc@, time, avs[k as int]);
        proof {
            assert(rest[0] == avs[k as int]);
            assert(rest.drop_first() =~= avs.subrange(k as int + 1, avs.len() as int));
            assert(actions@[k as int].deep_view() == avs[k as int]);
        }
        let a = &actions[k];
        entry.event_log.push(EventLogEntry::new(time, a.clone()));
        proof {
            assert(entry.event_log.deep_view() =~= cur.event_log.push(
                EventLogEntryV { time, event: avs[k as int] },
            ));
        }
        let ghost evs0 = out.deep_view();
        let ghost trs0 = trace.deep_view();
        match a {
            ProcessEvent::MessageSent { msg, src, dst } => {
                if entry.sent_message_count < u64::MAX {
                    entry.sent_message_count = entry.sent_message_count + 1;
                }
                out.push(McEvent::MessageReceived {
                    msg: msg.clone(),
                    src: src.clone(),
                    dst: dst.clone(),
                    options: DeliveryOptions::NoFailures { delay: 0 },
                });
                trace.push(LogEntry::MessageSent {
                    msg: msg.clone(),
                    src: src.clone(),
                    dst: dst.clone(),
                });
            },
            ProcessEvent::LocalMessageSent { msg } => {
                entry.local_outbox.push(msg.clone());
                trace.push(LogEntry::LocalMessageSent { msg: msg.clone(), proc: proc.clone() });
            },
            ProcessEvent::TimerSet { name, delay, behavior } => {
                let existing = find_timer(&entry.pending_timers, name);
                match existing {
                    Option::Some(_) => {
                        if *behavior == TimerBehavior::OverrideExisting {
                            out.push(McEvent::TimerCancelled {
                                proc: proc.clone(),
                                timer: name.clone(),
                            });
                            out.push(McEvent::TimerFired {
                                proc: proc.clone(),
                                timer: name.clone(),
                                timer_delay: *delay,
                            });
                            trace.push(LogEntry::TimerSet {
                                proc: proc.clone(),
                                timer: name.clone(),
                            });
                        }
                    },
                    Option::None => {
                        entry.pending_timers.push(name.clone());
                        proof {
                            assert(entry.pending_timers.deep_view() =~= cur.pending_timers.push(
                                name@,
                            ));
                        }
                        out.push(McEvent::TimerFired {
                            proc: proc.clone(),
                            timer: name.clone(),
                            timer_delay: *delay,
                        });
                        trace.push(LogEntry::TimerSet { proc: proc.clone(), timer: name.clone() });
                    },
                }
            },
            ProcessEvent::TimerCancelled { name } => {
                let existing = find_timer(&entry.pending_timers, name);
                match existing {
                    Option::Some(i) => {
                        entry.pending_timers.remove(i);
                        out.push(McEvent::TimerCancelled {
                            proc: proc.clone(),
                            timer: name.clone(),
                        });
                        trace.push(LogEntry::TimerCancelled {
                            proc: proc.clone(),
                            timer: name.clone(),
                        });
                    },
                    Option::None => {},
                }
            },
            _ => {},
        }
        proof {
            assert(entry.deep_view() =~= stepres.0);
            assert(out.deep_view() =~= evs0 + stepres.1);
            assert(trace.deep_view() =~= trs0 + stepres.2);
            assert(out.deep_view() + spec_handle_actions(
                entry.deep_view(),
                proc@,
                time,
                rest.drop_first(),
            ).1 =~= evs0 + spec_handle_actions(cur, proc@, time, rest).1);
            assert(trace.deep_view() + spec_handle_actions(
                entry.deep_view(),
                proc@,
                time,
                rest.drop_first(),
            ).2 =~= trs0 + spec_handle_actions(cur, proc@, time, rest).2);
        }
        k = k + 1;
    }
    proof {
        assert(avs.subrange(k as int, avs.len() as int) =~= Seq::<ProcessEventV>::empty());
        assert(out.deep_view() + Seq::<McEventV>::empty() =~= out.deep_view());
        assert(trace.deep_view() + Seq::<LogEntryV>::empty() =~= trace.deep_view());
    }
    out
}


/// The mathematical value of a [`ProcessSlot`] and of a
/// [`ProcessStateSlot`].
#[verifier::ext_equal]
pub struct ProcessSlotV {
    /// Name of the process.
    pub name: Seq<char>,
    /// The entry value.
    pub entry: ProcessEntryV,
}

/// A named process entry of a node.
pub struct ProcessSlot {
    /// Name of the process, unique within the system.
    pub name: String,
    /// The entry.
    pub entry: ProcessEntry,
}

impl DeepView for ProcessSlot {
    type V = ProcessSlotV;

    open spec fn deep_view(&self) -> ProcessSlotV {
        ProcessSlotV { name: self.name@, entry: self.entry.deep_view() }
    }
}

/// A named snapshot of a process entry, as held by a node snapshot.
pub struct ProcessStateSlot {
    /// Name of the process.
    pub name: String,
    /// The snapshot.
    pub state: ProcessEntryState,
}

impl DeepView for ProcessStateSlot {
    type V = ProcessSlotV;

    open spec fn deep_view(&self) -> ProcessSlotV {
        ProcessSlotV { name: self.name@, entry: self.state.deep_view() }
    }
}

/// Whether a process of the given name exists.
pub open spec fn spec_has_proc(ps: Seq<ProcessSlotV>, name: Seq<char>) -> bool {
    exists|i: int| 0 <= i < ps.len() && ps[i].name == name
}

/// The first index of a process name.
pub open spec fn spec_proc_index(ps: Seq<ProcessSlotV>, name: Seq<char>) -> int
    decreases ps.len(),
{
    if ps.len() == 0 {
        0
    } else if ps[0].name == name {
        0
    } else {
        1 + spec_proc_index(ps.drop_first(), name)
    }
}

/// When a process name is present, its first index lies in bounds, holds
/// the name, and nothing before it does.
pub proof fn lemma_proc_index(ps: Seq<ProcessSlotV>, name: Seq<char>)
    requires
        spec_has_proc(ps, name),
    ensures
        0 <= spec_proc_index(ps, name) < ps.len(),
        ps[spec_proc_index(ps, name)].name == name,
        forall|j: int| 0 <= j < spec_proc_index(ps, name) ==> ps[j].name != name,
    decreases ps.len(),
{
    if ps.len() > 0 && ps[0].name != name {
        assert(spec_has_proc(ps.drop_first(), name)) by {
            let i = choose|i: int| 0 <= i < ps.len() && ps[i].name == name;
            assert(ps.drop_first()[i - 1].name == name);
        }
        lemma_proc_index(ps.drop_first(), name);
        assert forall|j: int| 0 <= j < spec_proc_index(ps, name) implies ps[j].name != name by {
            if j > 0 {
                assert(ps.drop_first()[j - 1] == ps[j]);
            }
        }
    }
}

/// Finds the first process slot of the given name.
pub fn find_proc(ps: &Vec<ProcessSlot>, name: &String) -> (r: Option<usize>)
    ensures
        r is Some <==> spec_has_proc(ps.deep_view(), name@),
        r matches Some(i) ==> i == spec_proc_index(ps.deep_view(), name@)
            && i < ps.deep_view().len(),
{
    let ghost pv = ps.deep_view();
    let mut i: usize = 0;
    while i < ps.len()
        invariant
            0 <= i <= ps.len(),
            pv == ps.deep_view(),
            pv.len() == ps.len(),
            forall|j: int| 0 <= j < i ==> pv[j].name != name@,
        decreases ps.len() - i,
    {
        proof {
            assert(pv[i as int] == ps@[i as int].deep_view());
        }
        if ps[i].name == *name {
            proof {
                lemma_proc_index(pv, name@);
            }
            return Option::Some(i);
        }
        i = i + 1;
    }
    Option::None
}

/// The mathematical value of a [`McNode`].
#[verifier::ext_equal]
pub struct McNodeV {
    /// Name of the node.
    pub name: Seq<char>,
    /// The owned processes.
    pub processes: Seq<ProcessSlotV>,
    /// Clock skew added to the time a callback observes.
    pub clock_skew: u64,
    /// Whether the node is crashed.
    pub is_crashed: bool,
}

/// The mathematical value of a [`McNodeState`].
#[verifier::ext_equal]
pub struct McNodeStateV {
    /// Snapshots of the owned processes.
    pub proc_states: Seq<ProcessSlotV>,
    /// Whether the node was crashed.
    pub is_crashed: bool,
}

/// A hashable snapshot of a whole node: the snapshots of its processes and
/// its crash flag.
pub struct McNodeState {
    /// Snapshots of the owned processes, in binding order.
    pub proc_states: Vec<ProcessStateSlot>,
    /// Whether the node was crashed.
    pub is_crashed: bool,
}

impl DeepView for McNodeState {
    type V = McNodeStateV;

    open spec fn deep_view(&self) -> McNodeStateV {
        McNodeStateV { proc_states: self.proc_states.deep_view(), is_crashed: self.is_crashed }
    }
}

/// A node: a named owner of processes. It routes callbacks to them, keeps
/// their bookkeeping, and carries the crash flag.
pub struct McNode {
    /// Name of the node, unique within the system.
    pub name: String,
    /// The owned processes, in binding order.
    pub processes: Vec<ProcessSlot>,
    /// Clock skew added to the time a callback observes.
    pub clock_skew: u64,
    /// Whether the node is crashed; a crashed node receives no callback.
    pub is_crashed: bool,
}

impl DeepView for McNode {
    type V = McNodeV;

    open spec fn deep_view(&self) -> McNodeV {
        McNodeV {
            name: self.name@,
            processes: self.processes.deep_view(),
            clock_skew: self.clock_skew,
            is_crashed: self.is_crashed,
        }
    }
}

/// The node with the entry at `idx` replaced.
pub open spec fn spec_node_update_entry(n: McNodeV, idx: int, e: ProcessEntryV) -> McNodeV {
    McNodeV {
        processes: n.processes.update(
            idx,
            ProcessSlotV { name: n.processes[idx].name, entry: e },
        ),
        ..n
    }
}

/// The node, events, trace entries and success flag a message delivery
/// leads to: the trigger is logged, the received counter grows, the
/// callback runs, and its actions are drained.
pub open spec fn spec_on_message_received(
    n: McNodeV,
    proc: Seq<char>,
    m: MessageV,
    from: Seq<char>,
    time: u64,
) -> (McNodeV, Seq<McEventV>, Seq<LogEntryV>, bool) {
    let idx = spec_proc_index(n.processes, proc);
    let e0 = n.processes[idx].entry;
    let e1 = ProcessEntryV {
        event_log: e0.event_log.push(
            EventLogEntryV {
                time,
                event: ProcessEventV::MessageReceived { msg: m, src: from, dst: proc },
            },
        ),
        received_message_count: sat_inc(e0.received_message_count),
        ..e0
    };
    if !spec_callbacks_ok(e0.proc) {
        (spec_node_update_entry(n, idx, e1), Seq::empty(), Seq::empty(), false)
    } else {
        let (p2, acts) = spec_on_message(e1.proc, m, from, proc);
        let e2 = ProcessEntryV { proc: p2, ..e1 };
        let (e3, evs, trs) = spec_handle_actions(e2, proc, time, acts);
        (spec_node_update_entry(n, idx, e3), evs, trs, true)
    }
}

/// The node, events, trace entries and success flag a timer fire leads to:
/// the timer leaves the pending set, the callback runs, and its actions
/// are drained.
pub open spec fn spec_on_timer_fired(n: McNodeV, proc: Seq<char>, timer: Seq<char>, time: u64) -> (
    McNodeV,
    Seq<McEventV>,
    Seq<LogEntryV>,
    bool,
) {
    let idx = spec_proc_index(n.processes, proc);
    let e0 = n.processes[idx].entry;
    let e1 = ProcessEntryV {
        pending_timers: spec_remove_timer(e0.pending_timers, timer),
        ..e0
    };
    if !spec_callbacks_ok(e0.proc) {
        (spec_node_update_entry(n, idx, e1), Seq::empty(), Seq::empty(), false)
    } else {
        let (p2, acts) = spec_on_timer(e1.proc, timer, proc);
        let e2 = ProcessEntryV { proc: p2, ..e1 };
        let (e3, evs, trs) = spec_handle_actions(e2, proc, time, acts);
        (spec_node_update_entry(n, idx, e3), evs, trs, true)
    }
}

/// The node, events, trace entries and success flag a local message leads
/// to: the callback runs and its actions are drained.
pub open spec fn spec_on_local_message_received(
    n: McNodeV,
    proc: Seq<char>,
    m: MessageV,
    time: u64,
) -> (McNodeV, Seq<McEventV>, Seq<LogEntryV>, bool) {
    let idx = spec_proc_index(n.processes, proc);
    let e0 = n.processes[idx].entry;
    if !spec_callbacks_ok(e0.proc) {
        (n, Seq::empty(), Seq::empty(), false)
    } else {
        let (p2, acts) = spec_on_local_message(e0.proc, m, proc);
        let e2 = ProcessEntryV { proc: p2, ..e0 };
        let (e3, evs, trs) = spec_handle_actions(e2, proc, time, acts);
        (spec_node_update_entry(n, idx, e3), evs, trs, true)
    }
}

/// The node after a crash: the flag is set and every pending timer is
/// purged.
pub open spec fn spec_crash(n: McNodeV) -> McNodeV {
    McNodeV {
        is_crashed: true,
        processes: Seq::new(
            n.processes.len(),
            |i: int| ProcessSlotV {
                name: n.processes[i].name,
                entry: ProcessEntryV { pending_timers: Seq::empty(), ..n.processes[i].entry },
            },
        ),
        ..n
    }
}

/// The snapshot a node yields.
pub open spec fn spec_node_state_of(n: McNodeV) -> McNodeStateV {
    McNodeStateV { proc_states: n.processes, is_crashed: n.is_crashed }
}

impl McNode {
    /// Creates a node owning the given processes.
    pub fn new(name: String, processes: Vec<ProcessSlot>, clock_skew: u64) -> (r: McNode)
        ensures
            r.deep_view() == (McNodeV {
                name: name@,
                processes: processes.deep_view(),
                clock_skew,
                is_crashed: false,
            }),
    {
        McNode { name, processes, clock_skew, is_crashed: false }
    }

    /// Binds one more process to the node.
    pub fn add_process(&mut self, name: String, entry: ProcessEntry)
        ensures
            final(self).deep_view() == (McNodeV {
                processes: old(self).deep_view().processes.push(
                    ProcessSlotV { name: name@, entry: entry.deep_view() },
                ),
                ..old(self).deep_view()
            }),
    {
        let ghost nv = self.deep_view();
        let ghost sv = ProcessSlotV { name: name@, entry: entry.deep_view() };
        self.processes.push(ProcessSlot { name, entry });
        proof {
            assert forall|j: int| 0 <= j < self.processes.deep_view().len() implies
                self.processes.deep_view()[j] == nv.processes.push(sv)[j] by {
                assert(self.processes.deep_view()[j] == self.processes@[j].deep_view());
            }
            assert(self.processes.deep_view() =~= nv.processes.push(sv));
            assert(self.deep_view() =~= (McNodeV { processes: nv.processes.push(sv), ..nv }));
        }
    }

    /// Delivers a message to the process named `proc`, drains its actions,
    /// and returns the produced events; the error of a failed callback is
    /// returned with the node bookkeeping already recorded and no action
    /// applied.
    pub fn on_message_received(
        &mut self,
        proc: String,
        msg: Message,
        from: String,
        time: u64,
        random_seed: u64,
        trace: &mut Vec<LogEntry>,
    ) -> (r: Result<Vec<McEvent>, String>)
        requires
            !old(self).is_crashed,
            spec_has_proc(old(self).deep_view().processes, proc@),
        ensures
            final(self).deep_view() == spec_on_message_received(
                old(self).deep_view(),
                proc@,
                msg.deep_view(),
                from@,
                time,
            ).0,
            r matches Ok(v) ==> v.deep_view() == spec_on_message_received(
                old(self).deep_view(),
                proc@,
                msg.deep_view(),
                from@,
                time,
            ).1,
            final(trace).deep_view() == old(trace).deep_view() + spec_on_message_received(
                old(self).deep_view(),
                proc@,
                msg.deep_view(),
                from@,
                time,
            ).2,
            r is Ok <==> spec_on_message_received(
                old(self).deep_view(),
                proc@,
                msg.deep_view(),
                from@,
                time,
            ).3,
            r matches Err(e) ==> spec_fail_reason_matches(
                old(self).deep_view(),
                proc@,
                e@,
            ),
    {
        let ghost n0 = self.deep_view();
        let ghost res = spec_on_message_received(n0, proc@, msg.deep_view(), from@, time);
        proof {
            lemma_proc_index(n0.processes, proc@);
        }
        let idx = match find_proc(&self.processes, &proc) {
            Option::Some(i) => i,
            Option::None => {
                // Unreachable: the process is present by the precondition.
                proof {
                    assert(false);
                }
                0
            },
        };
        let skewed = if time <= u64::MAX - self.clock_skew {
            time + self.clock_skew
        } else {
            u64::MAX
        };
        let ghost e0 = n0.processes[idx as int].entry;
        let entry = &mut self.processes[idx].entry;
        entry.event_log.push(EventLogEntry::new(
            time,
            ProcessEvent::MessageReceived { msg: msg.clone(), src: from.clone(), dst: proc.clone() },
        ));
        if entry.received_message_count < u64::MAX {
            entry.received_message_count = entry.received_message_count + 1;
        }
        proof {
            assert(entry.event_log.deep_view() =~= e0.event_log.push(
                EventLogEntryV {
                    time,
                    event: ProcessEventV::MessageReceived {
                        msg: msg.deep_view(),
                        src: from@,
                        dst: proc@,
                    },
                },
            ));
        }
        let mut ctx = Context::basic(proc.clone(), skewed, random_seed);
        let cbres = entry.proc_impl.on_message(msg, from, &mut ctx);
        let ghost e1 = entry.deep_view();
        match cbres {
            Result::Err(e) => {
                proof {
                    assert(self.processes.deep_view() =~= n0.processes.update(
                        idx as int,
                        ProcessSlotV { name: n0.processes[idx as int].name, entry: e1 },
                    )) by {
                        assert forall|j: int| 0 <= j < self.processes.deep_view().len() implies
                            self.processes.deep_view()[j] == n0.processes.update(
                            idx as int,
                            ProcessSlotV { name: n0.processes[idx as int].name, entry: e1 },
                        )[j] by {
                            assert(self.processes.deep_view()[j] == self.processes@[
                                j
                            ].deep_view());
                        }
                    }
                    assert(self.deep_view() =~= res.0);
                    assert(trace.deep_view() =~= old(trace).deep_view() + res.2);
                }
                return Result::Err(e);
            },
            Result::Ok(u) => {},
        }
        let actions = ctx.actions();
        let ghost acts = actions.deep_view();
        let evs = handle_actions_entry(entry, &proc, time, actions, trace);
        proof {
            assert(self.processes.deep_view() =~= n0.processes.update(
                idx as int,
                ProcessSlotV {
                    name: n0.processes[idx as int].name,
                    entry: self.processes@[idx as int].entry.deep_view(),
                },
            )) by {
                assert forall|j: int| 0 <= j < self.processes.deep_view().len() implies
                    self.processes.deep_view()[j] == n0.processes.update(
                    idx as int,
                    ProcessSlotV {
                        name: n0.processes[idx as int].name,
                        entry: self.processes@[idx as int].entry.deep_view(),
                    },
                )[j] by {
                    assert(self.processes.deep_view()[j] == self.processes@[j].deep_view());
                }
            }
            assert(self.deep_view() =~= res.0);
        }
        Result::Ok(evs)
    }

    /// Fires the timer named `timer` on the process named `proc`: the timer
    /// leaves the pending set, the callback runs, and its actions are
    /// drained.
    pub fn on_timer_fired(
        &mut self,
        proc: String,
        timer: String,
        time: u64,
        random_seed: u64,
        trace: &mut Vec<LogEntry>,
    ) -> (r: Result<Vec<McEvent>, String>)
        requires
            !old(self).is_crashed,
            spec_has_proc(old(self).deep_view().processes, proc@),
        ensures
            final(self).deep_view() == spec_on_timer_fired(
                old(self).deep_view(),
                proc@,
                timer@,
                time,
            ).0,
            r matches Ok(v) ==> v.deep_view() == spec_on_timer_fired(
                old(self).deep_view(),
                proc@,
                timer@,
                time,
            ).1,
            final(trace).deep_view() == old(trace).deep_view() + spec_on_timer_fired(
                old(self).deep_view(),
                proc@,
                timer@,
                time,
            ).2,
            r is Ok <==> spec_on_timer_fired(old(self).deep_view(), proc@, timer@, time).3,
            r matches Err(e) ==> spec_fail_reason_matches(old(self).deep_view(), proc@, e@),
    {
        let ghost n0 = self.deep_view();
        let ghost res = spec_on_timer_fired(n0, proc@, timer@, time);
        proof {
            lemma_proc_index(n0.processes, proc@);
        }
        let idx = match find_proc(&self.processes, &proc) {
            Option::Some(i) => i,
            Option::None => {
                // Unreachable: the process is present by the precondition.
                proof {
                    assert(false);
                }
                0
            },
        };
        let skewed = if time <= u64::MAX - self.clock_skew {
            time + self.clock_skew
        } else {
            u64::MAX
        };
        let ghost e0 = n0.processes[idx as int].entry;
        let entry = &mut self.processes[idx].entry;
        match find_timer(&entry.pending_timers, &timer) {
            Option::Some(t) => {
                entry.pending_timers.remove(t);
            },
            Option::None => {},
        }
        proof {
            assert(entry.pending_timers.deep_view() =~= spec_remove_timer(
                e0.pending_timers,
                timer@,
            ));
        }
        let mut ctx = Context::basic(proc.clone(), skewed, random_seed);
        let cbres = entry.proc_impl.on_timer(timer, &mut ctx);
        let ghost e1 = entry.deep_view();
        match cbres {
            Result::Err(e) => {
                proof {
                    assert(self.processes.deep_view() =~= n0.processes.update(
                        idx as int,
                        ProcessSlotV { name: n0.processes[idx as int].name, entry: e1 },
                    )) by {
                        assert forall|j: int| 0 <= j < self.processes.deep_view().len() implies
                            self.processes.deep_view()[j] == n0.processes.update(
                            idx as int,
                            ProcessSlotV { name: n0.processes[idx as int].name, entry: e1 },
                        )[j] by {
                            assert(self.processes.deep_view()[j] == self.processes@[
                                j
                            ].deep_view());
                        }
                    }
                    assert(self.deep_view() =~= res.0);
                    assert(trace.deep_view() =~= old(trace).deep_view() + res.2);
                }
                return Result::Err(e);
            },
            Result::Ok(u) => {},
        }
        let actions = ctx.actions();
        let evs = handle_actions_entry(entry, &proc, time, actions, trace);
        proof {
            assert(self.processes.deep_view() =~= n0.processes.update(
                idx as int,
                ProcessSlotV {
                    name: n0.processes[idx as int].name,
                    entry: self.processes@[idx as int].entry.deep_view(),
                },
            )) by {
                assert forall|j: int| 0 <= j < self.processes.deep_view().len() implies
                    self.processes.deep_view()[j] == n0.processes.update(
                    idx as int,
                    ProcessSlotV {
                        name: n0.processes[idx as int].name,
                        entry: self.processes@[idx as int].entry.deep_view(),
                    },
                )[j] by {
                    assert(self.processes.deep_view()[j] == self.processes@[j].deep_view());
                }
            }
            assert(self.deep_view() =~= res.0);
        }
        Result::Ok(evs)
    }

    /// Delivers a message of the local user to the process named `proc` and
    /// drains its actions.
    pub fn on_local_message_received(
        &mut self,
        proc: String,
        msg: Message,
        time: u64,
        random_seed: u64,
        trace: &mut Vec<LogEntry>,
    ) -> (r: Result<Vec<McEvent>, String>)
        requires
            !old(self).is_crashed,
            spec_has_proc(old(self).deep_view().processes, proc@),
        ensures
            final(self).deep_view() == spec_on_local_message_received(
                old(self).deep_view(),
                proc@,
                msg.deep_view(),
                time,
            ).0,
            r matches Ok(v) ==> v.deep_view() == spec_on_local_message_received(
                old(self).deep_view(),
                proc@,
                msg.deep_view(),
                time,
            ).1,
            final(trace).deep_view() == old(trace).deep_view() + spec_on_local_message_received(
                old(self).deep_view(),
                proc@,
                msg.deep_view(),
                time,
            ).2,
            r is Ok <==> spec_on_local_message_received(
                old(self).deep_view(),
                proc@,
                msg.deep_view(),
                time,
            ).3,
            r matches Err(e) ==> spec_fail_reason_matches(old(self).deep_view(), proc@, e@),
    {
        let ghost n0 = self.deep_view();
        let ghost res = spec_on_local_message_received(n0, proc@, msg.deep_view(), time);
        proof {
            lemma_proc_index(n0.processes, proc@);
        }
        let idx = match find_proc(&self.processes, &proc) {
            Option::Some(i) => i,
            Option::None => {
                // Unreachable: the process is present by the precondition.
                proof {
                    assert(false);
                }
                0
            },
        };
        let skewed = if time <= u64::MAX - self.clock_skew {
            time + self.clock_skew
        } else {
            u64::MAX
        };
        let ghost e0 = n0.processes[idx as int].entry;
        let entry = &mut self.processes[idx].entry;
        let mut ctx = Context::basic(proc.clone(), skewed, random_seed);
        let cbres = entry.proc_impl.on_local_message(msg, &mut ctx);
        match cbres {
            Result::Err(e) => {
                proof {
                    assert(self.processes.deep_view() =~= n0.processes);
                    assert(self.deep_view() =~= res.0);
                    assert(trace.deep_view() =~= old(trace).deep_view() + res.2);
                }
                return Result::Err(e);
            },
            Result::Ok(u) => {},
        }
        let actions = ctx.actions();
        let evs = handle_actions_entry(entry, &proc, time, actions, trace);
        proof {
            assert(self.processes.deep_view() =~= n0.processes.update(
                idx as int,
                ProcessSlotV {
                    name: n0.processes[idx as int].name,
                    entry: self.processes@[idx as int].entry.deep_view(),
                },
            )) by {
                assert forall|j: int| 0 <= j < self.processes.deep_view().len() implies
                    self.processes.deep_view()[j] == n0.processes.update(
                    idx as int,
                    ProcessSlotV {
                        name: n0.processes[idx as int].name,
                        entry: self.processes@[idx as int].entry.deep_view(),
                    },
                )[j] by {
                    assert(self.processes.deep_view()[j] == self.processes@[j].deep_view());
                }
            }
            assert(self.deep_view() =~= res.0);
        }
        Result::Ok(evs)
    }

    /// Takes a snapshot of the whole node.
    pub fn get_state(&self) -> (r: McNodeState)
        ensures
            r.deep_view() == spec_node_state_of(self.deep_view()),
    {
        let mut states: Vec<ProcessStateSlot> = Vec::new();
        let mut i: usize = 0;
        while i < self.processes.len()
            invariant
                0 <= i <= self.processes.len(),
                states@.len() == i,
                forall|j: int| 0 <= j < i ==> #[trigger] states@[j].deep_view()
                    == self.processes@[j].deep_view(),
            decreases self.processes.len() - i,
        {
            let slot = &self.processes[i];
            let st = match slot.entry.get_state() {
                Result::Ok(st) => st,
                Result::Err(e) => {
                    // Unreachable: a built-in process always snapshots.
                    proof {
                        assert(false);
                    }
                    return McNodeState { proc_states: Vec::new(), is_crashed: false };
                },
            };
            let named = ProcessStateSlot { name: slot.name.clone(), state: st };
            let ghost namedv = named.deep_view();
            proof {
                assert(namedv =~= self.processes@[i as int].deep_view());
            }
            states.push(named);
            proof {
                assert(states@[i as int].deep_view() == namedv);
            }
            i = i + 1;
        }
        let r = McNodeState { proc_states: states, is_crashed: self.is_crashed };
        proof {
            assert forall|j: int| 0 <= j < r.deep_view().proc_states.len() implies r
                .deep_view().proc_states[j] == self.deep_view().processes[j] by {
                assert(states@[j].deep_view() == self.processes@[j].deep_view());
            }
            assert(r.deep_view().proc_states =~= self.deep_view().processes);
            assert(r.deep_view() =~= spec_node_state_of(self.deep_view()));
        }
        r
    }

    /// Restores a snapshot taken of this node: the snapshot of each process
    /// goes through its entry, and the crash flag is taken over.
    pub fn set_state(&mut self, state: &McNodeState)
        requires
            old(self).deep_view().processes.len() == state.deep_view().proc_states.len(),
            forall|j: int| 0 <= j < state.deep_view().proc_states.len() ==> #[trigger] state
                .deep_view().proc_states[j].name == old(self).deep_view().processes[j].name,
        ensures
            final(self).deep_view() == (McNodeV {
                is_crashed: state.is_crashed,
                processes: Seq::new(
                    old(self).deep_view().processes.len(),
                    |j: int| ProcessSlotV {
                        name: old(self).deep_view().processes[j].name,
                        entry: spec_entry_set_state(
                            old(self).deep_view().processes[j].entry,
                            state.deep_view().proc_states[j].entry,
                        ),
                    },
                ),
                ..old(self).deep_view()
            }),
    {
        let ghost n0 = self.deep_view();
        let ghost target = Seq::new(
            n0.processes.len(),
            |j: int| ProcessSlotV {
                name: n0.processes[j].name,
                entry: spec_entry_set_state(
                    n0.processes[j].entry,
                    state.deep_view().proc_states[j].entry,
                ),
            },
        );
        let mut i: usize = 0;
        while i < self.processes.len()
            invariant
                0 <= i <= self.processes.len(),
                self.processes@.len() == n0.processes.len(),
                state.deep_view().proc_states.len() == n0.processes.len(),
                target == Seq::new(
                    n0.processes.len(),
                    |j: int| ProcessSlotV {
                        name: n0.processes[j].name,
                        entry: spec_entry_set_state(
                            n0.processes[j].entry,
                            state.deep_view().proc_states[j].entry,
                        ),
                    },
                ),
                forall|j: int| 0 <= j < i ==> self.processes.deep_view()[j] == target[j],
                forall|j: int| i <= j < n0.processes.len() ==> self.processes.deep_view()[j]
                    == n0.processes[j],
                self.name@ == n0.name,
                self.clock_skew == n0.clock_skew,
                self.is_crashed == n0.is_crashed,
            decreases self.processes.len() - i,
        {
            proof {
                assert(self.processes.deep_view()[i as int] == self.processes@[
                    i as int
                ].deep_view());
                assert(state.proc_states.deep_view()[i as int] == state.proc_states@[
                    i as int
                ].deep_view());
            }
            let snapshot = state.proc_states[i].state.clone();
            let entry = &mut self.processes[i].entry;
            let sres = entry.set_state(snapshot);
            proof {
                assert forall|j: int| 0 <= j < self.processes@.len() implies self
                    .processes.deep_view()[j] == (if j < i + 1 {
                    target[j]
                } else {
                    n0.processes[j]
                }) by {
                    assert(self.processes.deep_view()[j] == self.processes@[j].deep_view());
                }
            }
            i = i + 1;
        }
        self.is_crashed = state.is_crashed;
        proof {
            assert(self.processes.deep_view() =~= target);
            assert(self.deep_view() =~= (McNodeV {
                is_crashed: state.is_crashed,
                processes: target,
                ..n0
            }));
        }
    }

    /// Crashes the node: the flag is set and every pending timer is purged.
    pub fn crash(&mut self)
        ensures
            final(self).deep_view() == spec_crash(old(self).deep_view()),
    {
        let ghost n0 = self.deep_view();
        let mut i: usize = 0;
        while i < self.processes.len()
            invariant
                0 <= i <= self.processes.len(),
                self.processes@.len() == n0.processes.len(),
                forall|j: int| 0 <= j < i ==> self.processes.deep_view()[j]
                    == spec_crash(n0).processes[j],
                forall|j: int| i <= j < n0.processes.len() ==> self.processes.deep_view()[j]
                    == n0.processes[j],
                self.name@ == n0.name,
                self.clock_skew == n0.clock_skew,
                self.is_crashed == n0.is_crashed,
            decreases self.processes.len() - i,
        {
            proof {
                assert(self.processes.deep_view()[i as int] == self.processes@[
                    i as int
                ].deep_view());
            }
            let entry = &mut self.processes[i].entry;
            entry.pending_timers = Vec::new();
            proof {
                assert(entry.pending_timers.deep_view() =~= Seq::<Seq<char>>::empty());
                assert forall|j: int| 0 <= j < self.processes@.len() implies self
                    .processes.deep_view()[j] == (if j < i + 1 {
                    spec_crash(n0).processes[j]
                } else {
                    n0.processes[j]
                }) by {
                    assert(self.processes.deep_view()[j] == self.processes@[j].deep_view());
                }
            }
            i = i + 1;
        }
        self.is_crashed = true;
        proof {
            assert(self.processes.deep_view() =~= spec_crash(n0).processes);
            assert(self.deep_view() =~= spec_crash(n0));
        }
    }

    /// Replaces the process at `idx` with a fresh one around `proc_impl`,
    /// with blank bookkeeping; used when a crashed node recovers.
    pub fn reset_process(&mut self, idx: usize, proc_impl: ProcessImpl)
        requires
            idx < old(self).deep_view().processes.len(),
        ensures
            final(self).deep_view() == (McNodeV {
                processes: old(self).deep_view().processes.update(
                    idx as int,
                    ProcessSlotV {
                        name: old(self).deep_view().processes[idx as int].name,
                        entry: spec_blank_entry(proc_impl.deep_view()),
                    },
                ),
                ..old(self).deep_view()
            }),
    {
        let ghost n0 = self.deep_view();
        let slot = &mut self.processes[idx];
        slot.entry = ProcessEntry::new(proc_impl);
        proof {
            let target = n0.processes.update(
                idx as int,
                ProcessSlotV {
                    name: n0.processes[idx as int].name,
                    entry: slot.entry.deep_view(),
                },
            );
            assert forall|j: int| 0 <= j < self.processes.deep_view().len() implies self
                .processes.deep_view()[j] == target[j] by {
                assert(self.processes.deep_view()[j] == self.processes@[j].deep_view());
            }
            assert(self.processes.deep_view() =~= target);
            assert(self.deep_view() =~= (McNodeV { processes: target, ..n0 }));
        }
    }

    /// Marks whether the node is crashed.
    pub fn crashed(&self) -> (r: bool)
        ensures
            r == self.is_crashed,
    {
        self.is_crashed
    }
}

/// Whether an error text is the failing reason of the process named `proc`.
pub open spec fn spec_fail_reason_matches(n: McNodeV, proc: Seq<char>, e: Seq<char>) -> bool {
    n.processes[spec_proc_index(n.processes, proc)].entry.proc matches ProcessImplV::Failing {
        reason,
    } && e == reason
}


impl Clone for ProcessEntry {
    /// Cloning preserves the entry value.
    fn clone(&self) -> (r: Self)
        ensures
            r.deep_view() == self.deep_view(),
    {
        let r = ProcessEntry {
            proc_impl: self.proc_impl.clone(),
            event_log: clone_log(&self.event_log),
            local_outbox: clone_messages(&self.local_outbox),
            pending_timers: clone_names(&self.pending_timers),
            sent_message_count: self.sent_message_count,
            received_message_count: self.received_message_count,
        };
        proof {
            assert(r.deep_view() =~= self.deep_view());
        }
        r
    }
}

impl Clone for ProcessSlot {
    /// Cloning preserves the slot value.
    fn clone(&self) -> (r: Self)
        ensures
            r.deep_view() == self.deep_view(),
    {
        let r = ProcessSlot { name: self.name.clone(), entry: self.entry.clone() };
        proof {
            assert(r.deep_view() =~= self.deep_view());
        }
        r
    }
}

/// Clones a slot list, preserving its value.
pub fn clone_slots(v: &Vec<ProcessSlot>) -> (r: Vec<ProcessSlot>)
    ensures
        r.deep_view() == v.deep_view(),
{
    let mut r: Vec<ProcessSlot> = Vec::new();
    let mut i: usize = 0;
    while i < v.len()
        invariant
            0 <= i <= v.len(),
            r@.len() == i,
            forall|j: int| 0 <= j < i ==> r.deep_view()[j] == v.deep_view()[j],
        decreases v.len() - i,
    {
        let x = v[i].clone();
        proof {
            assert(v.deep_view()[i as int] == v@[i as int].deep_view());
        }
        r.push(x);
        proof {
            assert forall|j: int| 0 <= j < i + 1 implies r.deep_view()[j] == v.deep_view()[j] by {
                assert(r.deep_view()[j] == r@[j].deep_view());
            }
        }
        i = i + 1;
    }
    proof {
        assert(r.deep_view() =~= v.deep_view());
    }
    r
}

impl Clone for McNode {
    /// Cloning preserves the node value.
    fn clone(&self) -> (r: Self)
        ensures
            r.deep_view() == self.deep_view(),
    {
        let r = McNode {
            name: self.name.clone(),
            processes: clone_slots(&self.processes),
            clock_skew: self.clock_skew,
            is_crashed: self.is_crashed,
        };
        proof {
            assert(r.deep_view() =~= self.deep_view());
        }
        r
    }
}

} // verus!
