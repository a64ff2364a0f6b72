//! The simulator: nodes, network, the pending-event queue and the main
//! loop.
//!
//! A step pops the least pending event by `(time, id)`, advances the clock
//! to it, dispatches it to the owning node and routes the produced events
//! through the network. Every stochastic choice draws from the seeded
//! generator, so a run is a function of the seed and the script. A record
//! of each executed event keeps the order auditable: a well-formed system
//! has processed its events in `(time, id)` order, never on a crashed node.

use vstd::prelude::*;
use crate::events::{
    lemma_min_index_is_min, lex_le, spec_min_index, DeliveryOptions, DeliveryOptionsV, McEvent,
    McEventV, PendingEvent, PendingEventV, PendingEvents,
};
use crate::logger::{LogEntry, LogEntryV};
use crate::message::{Message, MessageV};
use crate::network::{Network, NetworkV};
use crate::node::{
    clone_messages, find_proc, sat_add, spec_has_proc, spec_proc_index, McNode, McNodeState,
    McNodeStateV, McNodeV, ProcessEntry, ProcessSlotV,
};
use crate::process::ProcessImpl;
use crate::rng::Rng;

verus! {

/// The mathematical value of a [`ProcBinding`].
#[verifier::ext_equal]
pub struct ProcBindingV {
    /// Name of the process.
    pub proc: Seq<char>,
    /// Name of the node it runs on.
    pub node: Seq<char>,
    /// The process value it started from.
    pub initial: crate::process::ProcessImplV,
}

/// Where a process lives: the binding of a process name to a node name,
/// with the initial process value kept for recovery.
pub struct ProcBinding {
    /// Name of the process.
    pub proc: String,
    /// Name of the node it runs on.
    pub node: String,
    /// The process value it started from; recovery restarts from it.
    pub initial: ProcessImpl,
}

impl DeepView for ProcBinding {
    type V = ProcBindingV;

    open spec fn deep_view(&self) -> ProcBindingV {
        ProcBindingV { proc: self.proc@, node: self.node@, initial: self.initial.deep_view() }
    }
}

/// The `(time, id)` record of one executed event.
#[derive(Clone, Copy, PartialEq, Eq, Structural, Debug)]
pub struct ExecRecord {
    /// The time the event was executed at.
    pub time: u64,
    /// The id of the executed event.
    pub id: u64,
}

/// Finds the first node of the given name.
pub fn find_node(ns: &Vec<McNode>, name: &String) -> (r: Option<usize>)
    ensures
        r matches Some(i) ==> i < ns@.len() && ns@[i as int].name@ == name@ && forall|j: int|
            0 <= j < i ==> #[trigger] ns@[j].name@ != name@,
        r is None ==> forall|j: int| 0 <= j < ns@.len() ==> #[trigger] ns@[j].name@ != name@,
{
    let mut i: usize = 0;
    while i < ns.len()
        invariant
            0 <= i <= ns.len(),
            forall|j: int| 0 <= j < i ==> #[trigger] ns@[j].name@ != name@,
        decreases ns.len() - i,
    {
        if ns[i].name == *name {
            return Option::Some(i);
        }
        i = i + 1;
    }
    Option::None
}

/// Finds the first binding of the given process name.
pub fn find_binding(bs: &Vec<ProcBinding>, proc: &String) -> (r: Option<usize>)
    ensures
        r matches Some(i) ==> i < bs@.len() && bs@[i as int].proc@ == proc@ && forall|j: int|
            0 <= j < i ==> #[trigger] bs@[j].proc@ != proc@,
        r is None ==> forall|j: int| 0 <= j < bs@.len() ==> #[trigger] bs@[j].proc@ != proc@,
{
    let mut i: usize = 0;
    while i < bs.len()
        invariant
            0 <= i <= bs.len(),
            forall|j: int| 0 <= j < i ==> #[trigger] bs@[j].proc@ != proc@,
        decreases bs.len() - i,
    {
        if bs[i].proc == *proc {
            return Option::Some(i);
        }
        i = i + 1;
    }
    Option::None
}

/// The name of the process an event targets.
pub open spec fn spec_event_target(e: McEventV) -> Seq<char> {
    match e {
        McEventV::MessageReceived { dst, .. } => dst,
        McEventV::TimerFired { proc, .. } => proc,
        McEventV::TimerCancelled { proc, .. } => proc,
        McEventV::MessageDropped { dst, .. } => dst,
        McEventV::MessageDuplicated { dst, .. } => dst,
        McEventV::MessageCorrupted { dst, .. } => dst,
    }
}

/// Whether a pending event is the fire of the given timer.
pub open spec fn spec_is_fire(e: PendingEventV, proc: Seq<char>, timer: Seq<char>) -> bool {
    e.event matches McEventV::TimerFired { proc: p, timer: t, .. } && p == proc && t == timer
}

/// Whether some pending event is the fire of the given timer.
pub open spec fn spec_has_fire(s: Seq<PendingEventV>, proc: Seq<char>, timer: Seq<char>) -> bool {
    exists|i: int| 0 <= i < s.len() && spec_is_fire(#[trigger] s[i], proc, timer)
}

/// The first index of a pending fire of the given timer.
pub open spec fn spec_fire_index(s: Seq<PendingEventV>, proc: Seq<char>, timer: Seq<char>) -> int
    decreases s.len(),
{
    if s.len() == 0 {
        0
    } else if spec_is_fire(s[0], proc, timer) {
        0
    } else {
        1 + spec_fire_index(s.drop_first(), proc, timer)
    }
}

/// When a fire of the timer is pending, its first index lies in bounds,
/// holds such a fire, and nothing before it does.
pub proof fn lemma_fire_index(s: Seq<PendingEventV>, proc: Seq<char>, timer: Seq<char>)
    requires
        spec_has_fire(s, proc, timer),
    ensures
        0 <= spec_fire_index(s, proc, timer) < s.len(),
        spec_is_fire(s[spec_fire_index(s, proc, timer)], proc, timer),
        forall|j: int| 0 <= j < spec_fire_index(s, proc, timer) ==> !spec_is_fire(
            #[trigger] s[j],
            proc,
            timer,
        ),
    decreases s.len(),
{
    if s.len() > 0 && !spec_is_fire(s[0], proc, timer) {
        assert(spec_has_fire(s.drop_first(), proc, timer)) by {
            let i = choose|i: int| 0 <= i < s.len() && spec_is_fire(#[trigger] s[i], proc, timer);
            assert(spec_is_fire(s.drop_first()[i - 1], proc, timer));
        }
        lemma_fire_index(s.drop_first(), proc, timer);
        assert forall|j: int| 0 <= j < spec_fire_index(s, proc, timer) implies !spec_is_fire(
            #[trigger] s[j],
            proc,
            timer,
        ) by {
            if j > 0 {
                assert(s.drop_first()[j - 1] == s[j]);
            }
        }
    }
}

/// The pending events with the first fire of the given timer removed.
pub open spec fn spec_retire(s: Seq<PendingEventV>, proc: Seq<char>, timer: Seq<char>) -> Seq<
    PendingEventV,
> {
    if spec_has_fire(s, proc, timer) {
        s.remove(spec_fire_index(s, proc, timer))
    } else {
        s
    }
}

/// Whether a node of the given name exists.
pub open spec fn spec_has_node(ns: Seq<McNodeV>, name: Seq<char>) -> bool {
    exists|i: int| 0 <= i < ns.len() && ns[i].name == name
}

/// The first index of a node of the given name.
pub open spec fn spec_node_index(ns: Seq<McNodeV>, name: Seq<char>) -> int
    decreases ns.len(),
{
    if ns.len() == 0 {
        0
    } else if ns[0].name == name {
        0
    } else {
        1 + spec_node_index(ns.drop_first(), name)
    }
}

/// When a node is present, its first index lies in bounds, holds the name,
/// and nothing before it does.
pub proof fn lemma_node_index(ns: Seq<McNodeV>, name: Seq<char>)
    requires
        spec_has_node(ns, name),
    ensures
        0 <= spec_node_index(ns, name) < ns.len(),
        ns[spec_node_index(ns, name)].name == name,
        forall|j: int| 0 <= j < spec_node_index(ns, name) ==> ns[j].name != name,
    decreases ns.len(),
{
    if ns.len() > 0 && ns[0].name != name {
        assert(spec_has_node(ns.drop_first(), name)) by {
            let i = choose|i: int| 0 <= i < ns.len() && ns[i].name == name;
            assert(ns.drop_first()[i - 1].name == name);
        }
        lemma_node_index(ns.drop_first(), name);
        assert forall|j: int| 0 <= j < spec_node_index(ns, name) implies ns[j].name != name by {
            if j > 0 {
                assert(ns.drop_first()[j - 1] == ns[j]);
            }
        }
    }
}

/// Whether a binding of the given process name exists.
pub open spec fn spec_has_binding(bs: Seq<ProcBindingV>, proc: Seq<char>) -> bool {
    exists|i: int| 0 <= i < bs.len() && bs[i].proc == proc
}

/// The first index of a binding of the given process name.
pub open spec fn spec_binding_index(bs: Seq<ProcBindingV>, proc: Seq<char>) -> int
    decreases bs.len(),
{
    if bs.len() == 0 {
        0
    } else if bs[0].proc == proc {
        0
    } else {
        1 + spec_binding_index(bs.drop_first(), proc)
    }
}

/// When a binding is present, its first index lies in bounds, holds the
/// name, and nothing before it does.
pub proof fn lemma_binding_index(bs: Seq<ProcBindingV>, proc: Seq<char>)
    requires
        spec_has_binding(bs, proc),
    ensures
        0 <= spec_binding_index(bs, proc) < bs.len(),
        bs[spec_binding_index(bs, proc)].proc == proc,
        forall|j: int| 0 <= j < spec_binding_index(bs, proc) ==> bs[j].proc != proc,
    decreases bs.len(),
{
    if bs.len() > 0 && bs[0].proc != proc {
        assert(spec_has_binding(bs.drop_first(), proc)) by {
            let i = choose|i: int| 0 <= i < bs.len() && bs[i].proc == proc;
            assert(bs.drop_first()[i - 1].proc == proc);
        }
        lemma_binding_index(bs.drop_first(), proc);
        assert forall|j: int| 0 <= j < spec_binding_index(bs, proc) implies bs[j].proc
            != proc by {
            if j > 0 {
                assert(bs.drop_first()[j - 1] == bs[j]);
            }
        }
    }
}

/// Whether the first binding of the event's target process places it on
/// the given node.
pub open spec fn spec_on_node(bs: Seq<ProcBindingV>, e: McEventV, node: Seq<char>) -> bool {
    spec_has_binding(bs, spec_event_target(e)) && bs[spec_binding_index(
        bs,
        spec_event_target(e),
    )].node == node
}

/// The scheduler state a routing pass folds over: the pending events, the
/// next insertion id, the generator state and the trace.
#[verifier::ext_equal]
pub struct RouteStV {
    /// The pending events.
    pub events: Seq<PendingEventV>,
    /// The id the next scheduled event receives.
    pub next_id: u64,
    /// The generator state.
    pub rng: u64,
    /// The trace.
    pub trace: Seq<LogEntryV>,
}

/// The delay a delivery envelope pins, the least delay of an open one.
pub open spec fn spec_envelope_delay(o: DeliveryOptionsV) -> u64 {
    match o {
        DeliveryOptionsV::NoFailures { delay } => delay,
        DeliveryOptionsV::PossibleFailures { delay_min, .. } => delay_min,
    }
}

/// Routes one produced event: the exact effect on the scheduler state, or
/// the error text beside the state the failure leaves behind.
pub open spec fn spec_route_one(
    bs: Seq<ProcBindingV>,
    ns: Seq<McNodeV>,
    net: NetworkV,
    time: u64,
    mc: bool,
    ev: McEventV,
    st: RouteStV,
) -> Result<RouteStV, (RouteStV, Seq<char>)> {
    match ev {
        McEventV::MessageReceived { msg, src, dst, options } => {
            if !spec_has_binding(bs, src) {
                Result::Err((st, "unknown source process"@))
            } else if !spec_has_binding(bs, dst) {
                Result::Err((st, "unknown destination process"@))
            } else {
                let src_node = bs[spec_binding_index(bs, src)].node;
                let dst_node = bs[spec_binding_index(bs, dst)].node;
                let dst_crashed = if spec_has_node(ns, dst_node) {
                    ns[spec_node_index(ns, dst_node)].is_crashed
                } else {
                    true
                };
                if dst_crashed {
                    Result::Ok(
                        RouteStV {
                            trace: st.trace.push(LogEntryV::MessageDropped { msg, src, dst }),
                            ..st
                        },
                    )
                } else if src_node == dst_node {
                    if st.next_id == u64::MAX {
                        Result::Err((st, "event ids exhausted"@))
                    } else {
                        Result::Ok(
                            RouteStV {
                                events: st.events.push(
                                    PendingEventV {
                                        id: st.next_id,
                                        time,
                                        event: McEventV::MessageReceived {
                                            msg,
                                            src,
                                            dst,
                                            options: DeliveryOptionsV::NoFailures { delay: 0 },
                                        },
                                    },
                                ),
                                next_id: (st.next_id + 1) as u64,
                                ..st
                            },
                        )
                    }
                } else if !crate::network::spec_connected(net, src_node, dst_node) {
                    Result::Ok(
                        RouteStV {
                            trace: st.trace.push(LogEntryV::MessageDropped { msg, src, dst }),
                            ..st
                        },
                    )
                } else if mc {
                    // Under the model checker the network does not sample:
                    // the delivery honors its envelope, with the least
                    // delay of an open one, and the generator is untouched.
                    let d = spec_envelope_delay(options);
                    if st.next_id == u64::MAX {
                        Result::Err((st, "event ids exhausted"@))
                    } else {
                        Result::Ok(
                            RouteStV {
                                events: st.events.push(
                                    PendingEventV {
                                        id: st.next_id,
                                        time: sat_add(time, d),
                                        event: McEventV::MessageReceived {
                                            msg,
                                            src,
                                            dst,
                                            options: DeliveryOptionsV::NoFailures { delay: d },
                                        },
                                    },
                                ),
                                next_id: (st.next_id + 1) as u64,
                                ..st
                            },
                        )
                    }
                } else {
                    let (plan, rng2) = crate::network::spec_plan_delivery(net, st.rng);
                    if plan.dropped {
                        Result::Ok(
                            RouteStV {
                                rng: rng2,
                                trace: st.trace.push(
                                    LogEntryV::MessageDropped { msg, src, dst },
                                ),
                                ..st
                            },
                        )
                    } else {
                        let sent = if plan.corrupted {
                            MessageV { tag: msg.tag, data: Seq::empty() }
                        } else {
                            msg
                        };
                        let trace1 = if plan.corrupted {
                            st.trace.push(LogEntryV::MessageCorrupted { msg, src, dst })
                        } else {
                            st.trace
                        };
                        if st.next_id == u64::MAX {
                            Result::Err(
                                ((RouteStV { rng: rng2, trace: trace1, ..st }),
                                "event ids exhausted"@),
                            )
                        } else {
                            let st1 = RouteStV {
                                events: st.events.push(
                                    PendingEventV {
                                        id: st.next_id,
                                        time: sat_add(time, plan.delay),
                                        event: McEventV::MessageReceived {
                                            msg: sent,
                                            src,
                                            dst,
                                            options: DeliveryOptionsV::NoFailures {
                                                delay: plan.delay,
                                            },
                                        },
                                    },
                                ),
                                next_id: (st.next_id + 1) as u64,
                                rng: rng2,
                                trace: trace1,
                            };
                            if plan.duplicated {
                                let trace2 = st1.trace.push(
                                    LogEntryV::MessageDuplicated { msg, src, dst },
                                );
                                if st1.next_id == u64::MAX {
                                    Result::Err(
                                        ((RouteStV { trace: trace2, ..st1 }),
                                        "event ids exhausted"@),
                                    )
                                } else {
                                    Result::Ok(
                                        RouteStV {
                                            events: st1.events.push(
                                                PendingEventV {
                                                    id: st1.next_id,
                                                    time: sat_add(time, plan.dup_delay),
                                                    event: McEventV::MessageReceived {
                                                        msg,
                                                        src,
                                                        dst,
                                                        options: DeliveryOptionsV::NoFailures {
                                                            delay: plan.dup_delay,
                                                        },
                                                    },
                                                },
                                            ),
                                            next_id: (st1.next_id + 1) as u64,
                                            trace: trace2,
                                            ..st1
                                        },
                                    )
                                }
                            } else {
                                Result::Ok(st1)
                            }
                        }
                    }
                }
            }
        },
        McEventV::TimerFired { proc, timer, timer_delay } => {
            if st.next_id == u64::MAX {
                Result::Err((st, "event ids exhausted"@))
            } else {
                Result::Ok(
                    RouteStV {
                        events: st.events.push(
                            PendingEventV {
                                id: st.next_id,
                                time: sat_add(time, timer_delay),
                                event: McEventV::TimerFired { proc, timer, timer_delay },
                            },
                        ),
                        next_id: (st.next_id + 1) as u64,
                        ..st
                    },
                )
            }
        },
        McEventV::TimerCancelled { proc, timer } => Result::Ok(
            RouteStV { events: spec_retire(st.events, proc, timer), ..st },
        ),
        _ => Result::Ok(st),
    }
}

/// Routes a queue of produced events, front first; an error carries the
/// state the failure leaves behind.
pub open spec fn spec_route(
    bs: Seq<ProcBindingV>,
    ns: Seq<McNodeV>,
    net: NetworkV,
    time: u64,
    mc: bool,
    evs: Seq<McEventV>,
    st: RouteStV,
) -> Result<RouteStV, (RouteStV, Seq<char>)>
    decreases evs.len(),
{
    if evs.len() == 0 {
        Result::Ok(st)
    } else {
        match spec_route_one(bs, ns, net, time, mc, evs[0], st) {
            Result::Ok(st1) => spec_route(bs, ns, net, time, mc, evs.drop_first(), st1),
            Result::Err(e) => Result::Err(e),
        }
    }
}

/// The failing reason of a process, empty for one that succeeds.
pub open spec fn spec_reason(p: crate::process::ProcessImplV) -> Seq<char> {
    match p {
        crate::process::ProcessImplV::Failing { reason } => reason,
        _ => Seq::empty(),
    }
}

/// Executing one event: the exact effect on the nodes and the scheduler
/// state, or the error text beside what the failure leaves behind. An
/// event whose destination node is crashed changes nothing.
pub open spec fn spec_execute_event(
    bs: Seq<ProcBindingV>,
    net: NetworkV,
    time: u64,
    mc: bool,
    ev: McEventV,
    nodes: Seq<McNodeV>,
    st: RouteStV,
) -> Result<(Seq<McNodeV>, RouteStV), (Seq<McNodeV>, RouteStV, Seq<char>)> {
    match ev {
        McEventV::MessageReceived { msg, src, dst, options } => {
            if !spec_has_binding(bs, dst) {
                Result::Err((nodes, st, "unknown destination process"@))
            } else {
                let node_name = bs[spec_binding_index(bs, dst)].node;
                if !spec_has_node(nodes, node_name) {
                    Result::Err((nodes, st, "unknown node"@))
                } else {
                    let ni = spec_node_index(nodes, node_name);
                    if nodes[ni].is_crashed {
                        Result::Ok((nodes, st))
                    } else if !crate::node::spec_has_proc(nodes[ni].processes, dst) {
                        Result::Err((nodes, st, "unknown process"@))
                    } else {
                        let rng1 = if mc {
                            st.rng
                        } else {
                            crate::rng::spec_rng_next(st.rng)
                        };
                        let res = crate::node::spec_on_message_received(
                            nodes[ni],
                            dst,
                            msg,
                            src,
                            time,
                        );
                        let nodes2 = nodes.update(ni, res.0);
                        let st1 = RouteStV { rng: rng1, trace: st.trace + res.2, ..st };
                        if !res.3 {
                            Result::Err(
                                (nodes2, st1, spec_reason(
                                    nodes[ni].processes[crate::node::spec_proc_index(
                                        nodes[ni].processes,
                                        dst,
                                    )].entry.proc,
                                )),
                            )
                        } else {
                            match spec_route(bs, nodes2, net, time, mc, res.1, st1) {
                                Result::Ok(st2) => Result::Ok((nodes2, st2)),
                                Result::Err((st2, e)) => Result::Err((nodes2, st2, e)),
                            }
                        }
                    }
                }
            }
        },
        McEventV::TimerFired { proc, timer, timer_delay } => {
            if !spec_has_binding(bs, proc) {
                Result::Err((nodes, st, "unknown timer process"@))
            } else {
                let node_name = bs[spec_binding_index(bs, proc)].node;
                if !spec_has_node(nodes, node_name) {
                    Result::Err((nodes, st, "unknown node"@))
                } else {
                    let ni = spec_node_index(nodes, node_name);
                    if nodes[ni].is_crashed {
                        Result::Ok((nodes, st))
                    } else if !crate::node::spec_has_proc(nodes[ni].processes, proc) {
                        Result::Err((nodes, st, "unknown process"@))
                    } else {
                        let rng1 = if mc {
                            st.rng
                        } else {
                            crate::rng::spec_rng_next(st.rng)
                        };
                        let res = crate::node::spec_on_timer_fired(nodes[ni], proc, timer, time);
                        let nodes2 = nodes.update(ni, res.0);
                        let st1 = RouteStV { rng: rng1, trace: st.trace + res.2, ..st };
                        if !res.3 {
                            Result::Err(
                                (nodes2, st1, spec_reason(
                                    nodes[ni].processes[crate::node::spec_proc_index(
                                        nodes[ni].processes,
                                        proc,
                                    )].entry.proc,
                                )),
                            )
                        } else {
                            match spec_route(bs, nodes2, net, time, mc, res.1, st1) {
                                Result::Ok(st2) => Result::Ok((nodes2, st2)),
                                Result::Err((st2, e)) => Result::Err((nodes2, st2, e)),
                            }
                        }
                    }
                }
            }
        },
        McEventV::TimerCancelled { proc, timer } => Result::Ok(
            (nodes, RouteStV { events: spec_retire(st.events, proc, timer), ..st }),
        ),
        _ => Result::Ok((nodes, st)),
    }
}

/// Whether a node snapshot fits a node: same number of processes, with
/// the same names in the same order.
pub open spec fn spec_shape_matches(n: McNodeV, st: McNodeStateV) -> bool {
    n.processes.len() == st.proc_states.len() && forall|j: int|
        0 <= j < st.proc_states.len() ==> (#[trigger] st.proc_states[j]).name == n.processes[
            j
        ].name
}

/// What restoring the `j`-th snapshot of a list leaves of the `j`-th node:
/// the stated per-slot restore when a fitting snapshot exists there, the
/// node unchanged otherwise.
pub open spec fn spec_node_restored(n: McNodeV, sts: Seq<McNodeStateV>, j: int) -> McNodeV {
    if 0 <= j < sts.len() && spec_shape_matches(n, sts[j]) {
        McNodeV {
            is_crashed: sts[j].is_crashed,
            processes: Seq::new(
                n.processes.len(),
                |k: int| ProcessSlotV {
                    name: n.processes[k].name,
                    entry: crate::node::spec_entry_set_state(
                        n.processes[k].entry,
                        sts[j].proc_states[k].entry,
                    ),
                },
            ),
            ..n
        }
    } else {
        n
    }
}

/// Whether some pending event has the given id.
pub open spec fn spec_has_id(s: Seq<PendingEventV>, id: u64) -> bool {
    exists|i: int| 0 <= i < s.len() && s[i].id == id
}

/// The first index of the pending event with the given id (under
/// well-formedness there is at most one).
pub open spec fn spec_id_index(s: Seq<PendingEventV>, id: u64) -> int
    decreases s.len(),
{
    if s.len() == 0 {
        0
    } else if s[0].id == id {
        0
    } else {
        1 + spec_id_index(s.drop_first(), id)
    }
}

/// When an event with the id is pending, its first index lies in bounds,
/// holds the id, and nothing before it does.
pub proof fn lemma_id_index(s: Seq<PendingEventV>, id: u64)
    requires
        spec_has_id(s, id),
    ensures
        0 <= spec_id_index(s, id) < s.len(),
        s[spec_id_index(s, id)].id == id,
        forall|j: int| 0 <= j < spec_id_index(s, id) ==> s[j].id != id,
    decreases s.len(),
{
    if s.len() > 0 && s[0].id != id {
        assert(spec_has_id(s.drop_first(), id)) by {
            let i = choose|i: int| 0 <= i < s.len() && s[i].id == id;
            assert(s.drop_first()[i - 1].id == id);
        }
        lemma_id_index(s.drop_first(), id);
        assert forall|j: int| 0 <= j < spec_id_index(s, id) implies s[j].id != id by {
            if j > 0 {
                assert(s.drop_first()[j - 1] == s[j]);
            }
        }
    }
}

/// The pending events left after a crash of `node`: those whose target
/// process is not bound to it, in order.
pub open spec fn spec_purge(
    s: Seq<PendingEventV>,
    bs: Seq<ProcBindingV>,
    node: Seq<char>,
) -> Seq<PendingEventV>
    decreases s.len(),
{
    if s.len() == 0 {
        Seq::empty()
    } else {
        spec_purge(s.drop_last(), bs, node) + (if spec_on_node(bs, s.last().event, node) {
            Seq::empty()
        } else {
            seq![s.last()]
        })
    }
}

/// The purge keeps only events of the given sequence, none targeting
/// the node, and keeps distinct ids distinct.
pub proof fn lemma_purge_props(s: Seq<PendingEventV>, bs: Seq<ProcBindingV>, node: Seq<char>)
    requires
        forall|a: int, b: int| 0 <= a < b < s.len() ==> #[trigger] s[a].id != #[trigger] s[b].id,
    ensures
        forall|k: int|
            0 <= k < spec_purge(s, bs, node).len() ==> exists|j: int|
                0 <= j < s.len() && #[trigger] spec_purge(s, bs, node)[k] == s[j],
        forall|k: int|
            0 <= k < spec_purge(s, bs, node).len() ==> !spec_on_node(
                bs,
                (#[trigger] spec_purge(s, bs, node)[k]).event,
                node,
            ),
        forall|a: int, b: int|
            0 <= a < b < spec_purge(s, bs, node).len() ==> #[trigger] spec_purge(s, bs, node)[
                a
            ].id != #[trigger] spec_purge(s, bs, node)[b].id,
    decreases s.len(),
{
    if s.len() > 0 {
        let d = s.drop_last();
        assert forall|a: int, b: int| 0 <= a < b < d.len() implies #[trigger] d[a].id
            != #[trigger] d[b].id by {
            assert(d[a] == s[a]);
            assert(d[b] == s[b]);
        }
        lemma_purge_props(d, bs, node);
        let p = spec_purge(s, bs, node);
        let pd = spec_purge(d, bs, node);
        assert forall|k: int| 0 <= k < p.len() implies exists|j: int|
            0 <= j < s.len() && #[trigger] p[k] == s[j] by {
            if k < pd.len() {
                assert(p[k] == pd[k]);
                let j = choose|j: int| 0 <= j < d.len() && pd[k] == d[j];
                assert(p[k] == s[j]);
            } else {
                assert(p[k] == s[s.len() - 1]);
            }
        }
        assert forall|k: int| 0 <= k < p.len() implies !spec_on_node(
            bs,
            (#[trigger] p[k]).event,
            node,
        ) by {
            if k < pd.len() {
                assert(p[k] == pd[k]);
            } else {
                assert(p[k] == s.last());
            }
        }
        assert forall|a: int, b: int| 0 <= a < b < p.len() implies #[trigger] p[a].id
            != #[trigger] p[b].id by {
            if b < pd.len() {
                assert(p[a] == pd[a]);
                assert(p[b] == pd[b]);
            } else {
                assert(p[b] == s.last());
                assert(p[a] == pd[a]);
                let j = choose|j: int| 0 <= j < d.len() && pd[a] == d[j];
                assert(d[j] == s[j]);
                assert(s[j].id != s[s.len() - 1].id);
            }
        }
    }
}

/// The whole observable configuration of a system, as one value a step
/// folds over.
#[verifier::ext_equal]
pub struct SysSnapV {
    /// The bindings.
    pub bindings: Seq<ProcBindingV>,
    /// The nodes.
    pub nodes: Seq<McNodeV>,
    /// The network.
    pub net: NetworkV,
    /// Whether the system runs under the model checker.
    pub mc: bool,
    /// The clock.
    pub time: u64,
    /// The scheduler state.
    pub st: RouteStV,
    /// The executed record.
    pub executed: Seq<ExecRecord>,
}

/// How one step ended: no event was pending, an event ran, or a callback
/// failed with the given text.
#[verifier::ext_equal]
pub enum StepResV {
    /// No event was pending; nothing changed.
    Idle,
    /// The least pending event executed.
    Ran,
    /// A callback or the router failed.
    Failed {
        /// The error text.
        message: Seq<char>,
    },
}

/// One simulation step as a function of the configuration: the least
/// pending event by `(time, id)` is removed, the clock advances to it, the
/// record grows, and the event executes.
pub open spec fn spec_step(s: SysSnapV) -> (SysSnapV, StepResV) {
    if s.st.events.len() == 0 {
        (s, StepResV::Idle)
    } else {
        let m = spec_min_index(s.st.events);
        let pe = s.st.events[m];
        let s1 = SysSnapV {
            time: pe.time,
            executed: s.executed.push(ExecRecord { time: pe.time, id: pe.id }),
            st: RouteStV { events: s.st.events.remove(m), ..s.st },
            ..s
        };
        match spec_execute_event(s.bindings, s.net, pe.time, s.mc, pe.event, s.nodes, s1.st) {
            Result::Ok((ns2, st2)) => (SysSnapV { nodes: ns2, st: st2, ..s1 }, StepResV::Ran),
            Result::Err((ns2, st2, e)) => (
                SysSnapV { nodes: ns2, st: st2, ..s1 },
                StepResV::Failed { message: e },
            ),
        }
    }
}

/// Up to `n` steps, stopping when no event is pending or a step fails: the
/// final configuration, the number of steps taken, and the failure text if
/// any.
pub open spec fn spec_steps(s: SysSnapV, n: nat) -> (SysSnapV, nat, Option<Seq<char>>)
    decreases n,
{
    if n == 0 {
        (s, 0, Option::None)
    } else {
        let (s1, v) = spec_step(s);
        match v {
            StepResV::Idle => (s1, 0, Option::None),
            StepResV::Failed { message } => (s1, 0, Option::Some(message)),
            StepResV::Ran => {
                let (s2, k, e) = spec_steps(s1, (n - 1) as nat);
                (s2, k + 1, e)
            },
        }
    }
}

/// A run of up to `n` steps takes at most `n` steps.
pub proof fn lemma_spec_steps_count(s: SysSnapV, n: nat)
    ensures
        spec_steps(s, n).1 <= n,
    decreases n,
{
    if n > 0 {
        let (s1, v) = spec_step(s);
        if v is Ran {
            lemma_spec_steps_count(s1, (n - 1) as nat);
        }
    }
}

/// The simulated system: the harness around nodes, network and events.
pub struct System {
    /// The nodes, in creation order.
    pub nodes: Vec<McNode>,
    /// Where each process lives.
    pub bindings: Vec<ProcBinding>,
    /// The network.
    pub net: Network,
    /// The pending events.
    pub events: PendingEvents,
    /// The current simulated time.
    pub time: u64,
    /// The seeded generator driving every stochastic choice.
    pub rng: Rng,
    /// The trace of user-visible events of this run.
    pub trace: Vec<LogEntry>,
    /// The `(time, id)` of each executed event, in execution order.
    pub executed: Vec<ExecRecord>,
    /// Whether the system runs under the model checker: deliveries then
    /// honor their envelopes instead of sampling, and no callback seed is
    /// drawn, so the generator is never consumed.
    pub mc_mode: bool,
}

impl System {
    /// The network configuration is sane: rates are percentages and the
    /// delay window is ordered and bounded.
    pub open spec fn net_wf(&self) -> bool {
        &&& self.net.drop_rate <= 100
        &&& self.net.dup_rate <= 100
        &&& self.net.corrupt_rate <= 100
        &&& self.net.delay_min <= self.net.delay_max
        &&& self.net.delay_max < u64::MAX
    }

    /// Core well-formedness: the event store and the generator are well
    /// formed and the network configuration is sane.
    pub open spec fn wf_core(&self) -> bool {
        &&& self.events.wf()
        &&& self.rng.wf()
        &&& self.net_wf()
    }

    /// Simulation well-formedness: additionally, no pending event lies in
    /// the past, and the executed record is sorted by `(time, id)` and
    /// never ahead of the clock.
    pub open spec fn wf_sim(&self) -> bool {
        &&& self.wf_core()
        &&& forall|i: int|
            0 <= i < self.events.view_items().len() ==> #[trigger] self.events.view_items()[
                i
            ].time >= self.time
        &&& forall|i: int, j: int|
            0 <= i < j < self.executed@.len() ==> (#[trigger] self.executed@[i]).time
                <= (#[trigger] self.executed@[j]).time
        &&& forall|i: int| 0 <= i < self.executed@.len() ==> #[trigger] self.executed@[i].time
            <= self.time
    }

    /// Creates a system with no nodes and the given seed.
    pub fn new(seed: u64) -> (r: System)
        ensures
            r.wf_sim(),
            r.nodes@.len() == 0,
            r.bindings@.len() == 0,
            r.events.view_items().len() == 0,
            r.time == 0,
            r.trace@.len() == 0,
            r.executed@.len() == 0,
            !r.mc_mode,
    {
        System {
            nodes: Vec::new(),
            bindings: Vec::new(),
            net: Network::new(),
            events: PendingEvents::new(),
            time: 0,
            rng: Rng::new(seed),
            trace: Vec::new(),
            executed: Vec::new(),
            mc_mode: false,
        }
    }

    /// Adds a node of the given name with no clock skew.
    pub fn add_node(&mut self, name: &str)
        ensures
            final(self).nodes.deep_view() == old(self).nodes.deep_view().push(
                McNodeV {
                    name: name@,
                    processes: Seq::empty(),
                    clock_skew: 0,
                    is_crashed: false,
                },
            ),
            final(self).bindings == old(self).bindings,
            final(self).net == old(self).net,
            final(self).events == old(self).events,
            final(self).time == old(self).time,
            final(self).rng == old(self).rng,
            final(self).trace == old(self).trace,
            final(self).executed == old(self).executed,
            old(self).wf_sim() ==> final(self).wf_sim(),
            old(self).wf_core() ==> final(self).wf_core(),
    {
        let ghost n0 = self.nodes.deep_view();
        let node = McNode::new(name.to_owned(), Vec::new(), 0);
        proof {
            assert(node.processes.deep_view() =~= Seq::<ProcessSlotV>::empty());
        }
        self.nodes.push(node);
        proof {
            assert forall|j: int| 0 <= j < self.nodes.deep_view().len() implies self
                .nodes.deep_view()[j] == n0.push(
                McNodeV {
                    name: name@,
                    processes: Seq::empty(),
                    clock_skew: 0,
                    is_crashed: false,
                },
            )[j] by {
                assert(self.nodes.deep_view()[j] == self.nodes@[j].deep_view());
            }
            assert(self.nodes.deep_view() =~= n0.push(
                McNodeV {
                    name: name@,
                    processes: Seq::empty(),
                    clock_skew: 0,
                    is_crashed: false,
                },
            ));
        }
    }

    /// Binds a process to a node; returns whether the node exists.
    pub fn add_process(&mut self, proc: &str, proc_impl: ProcessImpl, node: &str) -> (r: bool)
        ensures
            old(self).wf_sim() ==> final(self).wf_sim(),
            old(self).wf_core() ==> final(self).wf_core(),
            final(self).events == old(self).events,
            final(self).time == old(self).time,
            final(self).rng == old(self).rng,
            final(self).net == old(self).net,
            final(self).executed == old(self).executed,
            r == spec_has_node(old(self).nodes.deep_view(), node@),
            !r ==> *final(self) == *old(self),
            r ==> ({
                let nsv = old(self).nodes.deep_view();
                let ni = spec_node_index(nsv, node@);
                &&& final(self).nodes.deep_view() == nsv.update(
                    ni,
                    McNodeV {
                        processes: nsv[ni].processes.push(
                            ProcessSlotV {
                                name: proc@,
                                entry: crate::node::spec_blank_entry(proc_impl.deep_view()),
                            },
                        ),
                        ..nsv[ni]
                    },
                )
                &&& final(self).bindings.deep_view() == old(self).bindings.deep_view().push(
                    ProcBindingV {
                        proc: proc@,
                        node: node@,
                        initial: proc_impl.deep_view(),
                    },
                )
            }),
    {
        let ghost nsv = self.nodes.deep_view();
        let ghost bsv = self.bindings.deep_view();
        let nidx = match find_node(&self.nodes, &node.to_owned()) {
            Option::Some(i) => {
                proof {
                    assert(nsv[i as int] == self.nodes@[i as int].deep_view());
                    assert(spec_has_node(nsv, node@));
                    lemma_node_index(nsv, node@);
                    assert forall|j: int| 0 <= j < i implies nsv[j].name != node@ by {
                        assert(nsv[j] == self.nodes@[j].deep_view());
                    }
                    assert(spec_node_index(nsv, node@) == i);
                }
                i
            },
            Option::None => {
                proof {
                    if spec_has_node(nsv, node@) {
                        let w = choose|w: int| 0 <= w < nsv.len() && nsv[w].name == node@;
                        assert(self.nodes@[w].deep_view() == nsv[w]);
                    }
                }
                return false;
            },
        };
        let initial = proc_impl.clone();
        {
            let n = &mut self.nodes[nidx];
            n.add_process(proc.to_owned(), ProcessEntry::new(proc_impl));
        }
        proof {
            let target = nsv.update(
                nidx as int,
                McNodeV {
                    processes: nsv[nidx as int].processes.push(
                        ProcessSlotV {
                            name: proc@,
                            entry: crate::node::spec_blank_entry(initial.deep_view()),
                        },
                    ),
                    ..nsv[nidx as int]
                },
            );
            assert forall|j: int| 0 <= j < self.nodes.deep_view().len() implies self
                .nodes.deep_view()[j] == target[j] by {
                assert(self.nodes.deep_view()[j] == self.nodes@[j].deep_view());
            }
            assert(self.nodes.deep_view() =~= target);
        }
        let ghost iv = initial.deep_view();
        self.bindings.push(ProcBinding { proc: proc.to_owned(), node: node.to_owned(), initial });
        proof {
            let pushed = ProcBindingV { proc: proc@, node: node@, initial: iv };
            assert forall|j: int| 0 <= j < self.bindings.deep_view().len() implies self
                .bindings.deep_view()[j] == bsv.push(pushed)[j] by {
                assert(self.bindings.deep_view()[j] == self.bindings@[j].deep_view());
            }
            assert(self.bindings.deep_view() =~= bsv.push(pushed));
        }
        true
    }

    /// Delivers a message of the local user to the process named `proc` on
    /// node `node`, dispatching its callback at the current time and
    /// scheduling the produced events.
    pub fn send_local_message(&mut self, node: &str, proc: &str, msg: Message) -> (r: Result<
        (),
        String,
    >)
        requires
            old(self).wf_sim(),
        ensures
            final(self).wf_sim(),
            final(self).time == old(self).time,
            final(self).executed == old(self).executed,
            !spec_has_node(old(self).nodes.deep_view(), node@) ==> (r matches Err(e) && e@
                == "unknown node"@ && *final(self) == *old(self)),
            spec_has_node(old(self).nodes.deep_view(), node@) && old(self).nodes.deep_view()[
                spec_node_index(old(self).nodes.deep_view(), node@)
            ].is_crashed ==> (r matches Err(e) && e@ == "node is crashed"@ && *final(self)
                == *old(self)),
            spec_has_node(old(self).nodes.deep_view(), node@) && !old(self).nodes.deep_view()[
                spec_node_index(old(self).nodes.deep_view(), node@)
            ].is_crashed && !spec_has_proc(
                old(self).nodes.deep_view()[
                    spec_node_index(old(self).nodes.deep_view(), node@)
                ].processes,
                proc@,
            ) ==> (r matches Err(e) && e@ == "unknown process"@ && *final(self) == *old(self)),
            spec_has_node(old(self).nodes.deep_view(), node@) && !old(self).nodes.deep_view()[
                spec_node_index(old(self).nodes.deep_view(), node@)
            ].is_crashed && spec_has_proc(
                old(self).nodes.deep_view()[
                    spec_node_index(old(self).nodes.deep_view(), node@)
                ].processes,
                proc@,
            ) ==> ({
                let nsv = old(self).nodes.deep_view();
                let ni = spec_node_index(nsv, node@);
                let disp = crate::node::spec_on_local_message_received(
                    nsv[ni],
                    proc@,
                    msg.deep_view(),
                    old(self).time,
                );
                let nodes2 = nsv.update(ni, disp.0);
                let st1 = RouteStV {
                    events: old(self).events.view_items(),
                    next_id: old(self).events.next_id,
                    rng: if old(self).mc_mode {
                        old(self).rng@
                    } else {
                        crate::rng::spec_rng_next(old(self).rng@)
                    },
                    trace: old(self).trace.deep_view() + disp.2,
                };
                if !disp.3 {
                    r matches Err(e) && e@ == spec_reason(
                        nsv[ni].processes[spec_proc_index(nsv[ni].processes, proc@)].entry.proc,
                    ) && final(self).nodes.deep_view() == nodes2 && final(self).route_st() == st1
                } else {
                    match spec_route(
                        old(self).bindings.deep_view(),
                        nodes2,
                        old(self).net.deep_view(),
                        old(self).time,
                        old(self).mc_mode,
                        disp.1,
                        st1,
                    ) {
                        Result::Ok(st2) => r is Ok && final(self).nodes.deep_view() == nodes2
                            && final(self).route_st() == st2,
                        Result::Err((st2, e)) => r matches Err(m) && m@ == e && final(self)
                            .nodes.deep_view() == nodes2 && final(self).route_st() == st2,
                    }
                }
            }),
    {
        let ghost nsv = self.nodes.deep_view();
        let ghost st0 = self.route_st();
        let node_name = node.to_owned();
        let proc_name = proc.to_owned();
        let nidx = match find_node(&self.nodes, &node_name) {
            Option::Some(i) => i,
            Option::None => {
                proof {
                    if spec_has_node(nsv, node@) {
                        let w = choose|w: int| 0 <= w < nsv.len() && nsv[w].name == node@;
                        assert(self.nodes@[w].deep_view() == nsv[w]);
                    }
                }
                return Result::Err("unknown node".to_owned());
            },
        };
        proof {
            assert(nsv[nidx as int] == self.nodes@[nidx as int].deep_view());
            assert(spec_has_node(nsv, node@));
            lemma_node_index(nsv, node@);
            assert forall|j: int| 0 <= j < nidx implies nsv[j].name != node@ by {
                assert(nsv[j] == self.nodes@[j].deep_view());
            }
            assert(spec_node_index(nsv, node@) == nidx);
        }
        if self.nodes[nidx].crashed() {
            return Result::Err("node is crashed".to_owned());
        }
        let has = find_proc(&self.nodes[nidx].processes, &proc_name);
        if has.is_none() {
            return Result::Err("unknown process".to_owned());
        }
        let seed = if self.mc_mode {
            0
        } else {
            self.rng.next_u64()
        };
        let time = self.time;
        let mut local_trace: Vec<LogEntry> = Vec::new();
        proof {
            assert(local_trace.deep_view() =~= Seq::<LogEntryV>::empty());
        }
        let cb = {
            let n = &mut self.nodes[nidx];
            n.on_local_message_received(proc_name, msg, time, seed, &mut local_trace)
        };
        let ghost disp = crate::node::spec_on_local_message_received(
            nsv[nidx as int],
            proc@,
            msg.deep_view(),
            time,
        );
        proof {
            assert forall|j: int| 0 <= j < self.nodes.deep_view().len() implies self
                .nodes.deep_view()[j] == nsv.update(nidx as int, disp.0)[j] by {
                assert(self.nodes.deep_view()[j] == self.nodes@[j].deep_view());
            }
            assert(self.nodes.deep_view() =~= nsv.update(nidx as int, disp.0));
            assert(local_trace.deep_view() =~= Seq::<LogEntryV>::empty() + disp.2);
        }
        self.append_trace(local_trace);
        proof {
            assert(self.trace.deep_view() =~= st0.trace + disp.2);
            assert(self.route_st() =~= (RouteStV {
                rng: if self.mc_mode {
                    st0.rng
                } else {
                    crate::rng::spec_rng_next(st0.rng)
                },
                trace: st0.trace + disp.2,
                ..st0
            }));
        }
        match cb {
            Result::Err(e) => Result::Err(e),
            Result::Ok(evs) => self.route_new_events(evs),
        }
    }

    /// Appends trace entries recorded by a node to the run trace.
    fn append_trace(&mut self, mut entries: Vec<LogEntry>)
        ensures
            final(self).trace.deep_view() == old(self).trace.deep_view()
                + entries.deep_view(),
            final(self).mc_mode == old(self).mc_mode,
            final(self).nodes == old(self).nodes,
            final(self).bindings == old(self).bindings,
            final(self).net == old(self).net,
            final(self).events == old(self).events,
            final(self).time == old(self).time,
            final(self).rng == old(self).rng,
            final(self).executed == old(self).executed,
            old(self).wf_sim() ==> final(self).wf_sim(),
            old(self).wf_core() ==> final(self).wf_core(),
    {
        let ghost t0 = self.trace.deep_view();
        let ghost e0 = entries.deep_view();
        self.trace.append(&mut entries);
        proof {
            assert forall|j: int| 0 <= j < self.trace.deep_view().len() implies self
                .trace.deep_view()[j] == (t0 + e0)[j] by {
                assert(self.trace.deep_view()[j] == self.trace@[j].deep_view());
                if j < t0.len() {
                    assert(t0[j] == old(self).trace@[j].deep_view());
                }
            }
            assert(self.trace.deep_view() =~= t0 + e0);
        }
    }

    /// The scheduler state of a system, as a routing pass folds over it.
    pub open spec fn route_st(&self) -> RouteStV {
        RouteStV {
            events: self.events.view_items(),
            next_id: self.events.next_id,
            rng: self.rng@,
            trace: self.trace.deep_view(),
        }
    }

    /// The whole observable configuration.
    pub open spec fn snap(&self) -> SysSnapV {
        SysSnapV {
            bindings: self.bindings.deep_view(),
            nodes: self.nodes.deep_view(),
            net: self.net.deep_view(),
            mc: self.mc_mode,
            time: self.time,
            st: self.route_st(),
            executed: self.executed@,
        }
    }

    /// Schedules the events a callback produced: sends go through the
    /// network, timer fires are scheduled after their delay, and a timer
    /// cancellation retires the matching pending fire. The outcome is the
    /// exact fold of [`spec_route_one`] over the queue.
    fn route_new_events(&mut self, evs: Vec<McEvent>) -> (r: Result<(), String>)
        requires
            old(self).wf_core(),
        ensures
            final(self).wf_core(),
            final(self).time == old(self).time,
            final(self).nodes == old(self).nodes,
            final(self).bindings == old(self).bindings,
            final(self).executed == old(self).executed,
            final(self).net == old(self).net,
            final(self).mc_mode == old(self).mc_mode,
            match spec_route(
                old(self).bindings.deep_view(),
                old(self).nodes.deep_view(),
                old(self).net.deep_view(),
                old(self).time,
                old(self).mc_mode,
                evs.deep_view(),
                old(self).route_st(),
            ) {
                Result::Ok(st) => r is Ok && final(self).route_st() == st,
                Result::Err((st, e)) => r matches Err(m) && m@ == e && final(self).route_st()
                    == st,
            },
            (forall|i: int|
                0 <= i < old(self).events.view_items().len() ==> #[trigger] old(self)
                    .events.view_items()[i].time >= old(self).time) ==> forall|i: int|
                0 <= i < final(self).events.view_items().len() ==> #[trigger] final(self)
                    .events.view_items()[i].time >= old(self).time,
    {
        let ghost bsv = self.bindings.deep_view();
        let ghost nsv = self.nodes.deep_view();
        let ghost netv = self.net.deep_view();
        let ghost t = self.time;
        let ghost mc = self.mc_mode;
        let ghost evsv = evs.deep_view();
        let ghost total = spec_route(bsv, nsv, netv, t, mc, evsv, self.route_st());
        let mut k: usize = 0;
        proof {
            assert(evsv.subrange(0, evsv.len() as int) =~= evsv);
        }
        while k < evs.len()
            invariant
                0 <= k <= evs.len(),
                self.wf_core(),
                self.time == old(self).time,
                self.nodes == old(self).nodes,
                self.bindings == old(self).bindings,
                self.executed == old(self).executed,
                self.net == old(self).net,
                bsv == self.bindings.deep_view(),
                nsv == self.nodes.deep_view(),
                netv == self.net.deep_view(),
                t == self.time,
                evsv == evs.deep_view(),
                evsv.len() == evs@.len(),
                mc == self.mc_mode,
                self.mc_mode == old(self).mc_mode,
                total == spec_route(bsv, nsv, netv, t, mc, evsv, old(self).route_st()),
                spec_route(bsv, nsv, netv, t, mc, evsv.subrange(k as int, evsv.len() as int),
                    self.route_st()) == total,
                (forall|i: int|
                    0 <= i < old(self).events.view_items().len() ==> #[trigger] old(self)
                        .events.view_items()[i].time >= old(self).time) ==> forall|i: int|
                    0 <= i < self.events.view_items().len() ==> #[trigger] self
                        .events.view_items()[i].time >= old(self).time,
            decreases evs.len() - k,
        {
            let ghost rest = evsv.subrange(k as int, evsv.len() as int);
            let ghost st_in = self.route_st();
            proof {
                assert(rest[0] == evsv[k as int]);
                assert(rest.drop_first() =~= evsv.subrange(k as int + 1, evsv.len() as int));
                assert(evs@[k as int].deep_view() == evsv[k as int]);
            }
            let ev = &evs[k];
            match ev {
                McEvent::MessageReceived { msg, src, dst, options } => {
                    let src_node_idx = match find_binding(&self.bindings, src) {
                        Option::Some(i) => {
                            proof {
                                assert(bsv[i as int] == self.bindings@[i as int].deep_view());
                                assert(spec_has_binding(bsv, src@));
                                lemma_binding_index(bsv, src@);
                                assert forall|j: int| 0 <= j < i implies bsv[j].proc
                                    != src@ by {
                                    assert(bsv[j] == self.bindings@[j].deep_view());
                                }
                                assert(spec_binding_index(bsv, src@) == i);
                            }
                            i
                        },
                        Option::None => {
                            proof {
                                if spec_has_binding(bsv, src@) {
                                    let w = choose|w: int|
                                        0 <= w < bsv.len() && bsv[w].proc == src@;
                                    assert(self.bindings@[w].deep_view() == bsv[w]);
                                }
                            }
                            proof {
                                let one = spec_route_one(bsv, nsv, netv, t, mc, rest[0], st_in);
                                assert(one is Err);
                                assert(one->Err_0.0 =~= self.route_st());
                                assert(spec_route(bsv, nsv, netv, t, mc, rest, st_in) == one);
                            }
                            return Result::Err("unknown source process".to_owned());
                        },
                    };
                    let dst_node_idx = match find_binding(&self.bindings, dst) {
                        Option::Some(i) => {
                            proof {
                                assert(bsv[i as int] == self.bindings@[i as int].deep_view());
                                assert(spec_has_binding(bsv, dst@));
                                lemma_binding_index(bsv, dst@);
                                assert forall|j: int| 0 <= j < i implies bsv[j].proc
                                    != dst@ by {
                                    assert(bsv[j] == self.bindings@[j].deep_view());
                                }
                                assert(spec_binding_index(bsv, dst@) == i);
                            }
                            i
                        },
                        Option::None => {
                            proof {
                                if spec_has_binding(bsv, dst@) {
                                    let w = choose|w: int|
                                        0 <= w < bsv.len() && bsv[w].proc == dst@;
                                    assert(self.bindings@[w].deep_view() == bsv[w]);
                                }
                            }
                            proof {
                                let one = spec_route_one(bsv, nsv, netv, t, mc, rest[0], st_in);
                                assert(one is Err);
                                assert(one->Err_0.0 =~= self.route_st());
                                assert(spec_route(bsv, nsv, netv, t, mc, rest, st_in) == one);
                            }
                            return Result::Err("unknown destination process".to_owned());
                        },
                    };
                    let src_node = self.bindings[src_node_idx].node.clone();
                    let dst_node = self.bindings[dst_node_idx].node.clone();
                    let dst_crashed = match find_node(&self.nodes, &dst_node) {
                        Option::Some(i) => {
                            proof {
                                assert(nsv[i as int] == self.nodes@[i as int].deep_view());
                                assert(spec_has_node(nsv, dst_node@));
                                lemma_node_index(nsv, dst_node@);
                                assert forall|j: int| 0 <= j < i implies nsv[j].name
                                    != dst_node@ by {
                                    assert(nsv[j] == self.nodes@[j].deep_view());
                                }
                                assert(spec_node_index(nsv, dst_node@) == i);
                            }
                            self.nodes[i].crashed()
                        },
                        Option::None => {
                            proof {
                                if spec_has_node(nsv, dst_node@) {
                                    let w = choose|w: int|
                                        0 <= w < nsv.len() && nsv[w].name == dst_node@;
                                    assert(self.nodes@[w].deep_view() == nsv[w]);
                                }
                            }
                            true
                        },
                    };
                    if dst_crashed {
                        self.trace.push(LogEntry::MessageDropped {
                            msg: msg.clone(),
                            src: src.clone(),
                            dst: dst.clone(),
                        });
                        proof {
                            assert(self.trace.deep_view() =~= st_in.trace.push(
                                self.trace@.last().deep_view(),
                            ));
                            assert(self.route_st() =~= spec_route_one(
                                bsv, nsv, netv, t, mc, rest[0], st_in,
                            )->Ok_0);
                        }
                    } else if src_node == dst_node {
                        let pushed = self.events.push(self.time, McEvent::MessageReceived {
                            msg: msg.clone(),
                            src: src.clone(),
                            dst: dst.clone(),
                            options: DeliveryOptions::NoFailures { delay: 0 },
                        });
                        if pushed.is_none() {
                            proof {
                                assert(self.route_st() =~= st_in);
                                let one = spec_route_one(bsv, nsv, netv, t, mc, rest[0], st_in);
                                assert(one is Err);
                                assert(one->Err_0.0 =~= self.route_st());
                                assert(spec_route(bsv, nsv, netv, t, mc, rest, st_in) == one);
                            }
                            return Result::Err("event ids exhausted".to_owned());
                        }
                        proof {
                            assert(self.route_st() =~= spec_route_one(
                                bsv, nsv, netv, t, mc, rest[0], st_in,
                            )->Ok_0);
                        }
                    } else if !self.net.connected(&src_node, &dst_node) {
                        self.trace.push(LogEntry::MessageDropped {
                            msg: msg.clone(),
                            src: src.clone(),
                            dst: dst.clone(),
                        });
                        proof {
                            assert(self.trace.deep_view() =~= st_in.trace.push(
                                self.trace@.last().deep_view(),
                            ));
                            assert(self.route_st() =~= spec_route_one(
                                bsv, nsv, netv, t, mc, rest[0], st_in,
                            )->Ok_0);
                        }
                    } else if self.mc_mode {
                        // Under the model checker the network does not
                        // sample: the delivery honors its envelope.
                        let d = match options {
                            DeliveryOptions::NoFailures { delay } => *delay,
                            DeliveryOptions::PossibleFailures { delay_min, .. } => *delay_min,
                        };
                        let t1 = if self.time <= u64::MAX - d {
                            self.time + d
                        } else {
                            u64::MAX
                        };
                        let pushed = self.events.push(t1, McEvent::MessageReceived {
                            msg: msg.clone(),
                            src: src.clone(),
                            dst: dst.clone(),
                            options: DeliveryOptions::NoFailures { delay: d },
                        });
                        if pushed.is_none() {
                            proof {
                                assert(self.route_st() =~= st_in);
                                let one = spec_route_one(bsv, nsv, netv, t, mc, rest[0], st_in);
                                assert(one is Err);
                                assert(one->Err_0.0 =~= self.route_st());
                                assert(spec_route(bsv, nsv, netv, t, mc, rest, st_in) == one);
                            }
                            return Result::Err("event ids exhausted".to_owned());
                        }
                        proof {
                            assert(self.route_st() =~= spec_route_one(
                                bsv, nsv, netv, t, mc, rest[0], st_in,
                            )->Ok_0);
                        }
                    } else {
                        let plan = self.net.plan_delivery(&mut self.rng);
                        if plan.dropped {
                            self.trace.push(LogEntry::MessageDropped {
                                msg: msg.clone(),
                                src: src.clone(),
                                dst: dst.clone(),
                            });
                            proof {
                                assert(self.trace.deep_view() =~= st_in.trace.push(
                                    self.trace@.last().deep_view(),
                                ));
                                assert(self.route_st() =~= spec_route_one(
                                    bsv, nsv, netv, t, mc, rest[0], st_in,
                                )->Ok_0);
                            }
                        } else {
                            let sent = if plan.corrupted {
                                // The documented corruption rule: the
                                // payload is emptied.
                                self.trace.push(LogEntry::MessageCorrupted {
                                    msg: msg.clone(),
                                    src: src.clone(),
                                    dst: dst.clone(),
                                });
                                proof {
                                    assert(self.trace.deep_view() =~= st_in.trace.push(
                                        self.trace@.last().deep_view(),
                                    ));
                                }
                                Message { tag: msg.tag.clone(), data: String::new() }
                            } else {
                                msg.clone()
                            };
                            let t1 = if self.time <= u64::MAX - plan.delay {
                                self.time + plan.delay
                            } else {
                                u64::MAX
                            };
                            let pushed = self.events.push(t1, McEvent::MessageReceived {
                                msg: sent,
                                src: src.clone(),
                                dst: dst.clone(),
                                options: DeliveryOptions::NoFailures { delay: plan.delay },
                            });
                            if pushed.is_none() {
                                proof {
                                    let one = spec_route_one(
                                        bsv, nsv, netv, t, mc, rest[0], st_in,
                                    );
                                    assert(one is Err);
                                    assert(one->Err_0.0 =~= self.route_st());
                                    assert(spec_route(bsv, nsv, netv, t, mc, rest, st_in) == one);
                                }
                                return Result::Err("event ids exhausted".to_owned());
                            }
                            if plan.duplicated {
                                self.trace.push(LogEntry::MessageDuplicated {
                                    msg: msg.clone(),
                                    src: src.clone(),
                                    dst: dst.clone(),
                                });
                                let t2 = if self.time <= u64::MAX - plan.dup_delay {
                                    self.time + plan.dup_delay
                                } else {
                                    u64::MAX
                                };
                                let pushed2 = self.events.push(t2, McEvent::MessageReceived {
                                    msg: msg.clone(),
                                    src: src.clone(),
                                    dst: dst.clone(),
                                    options: DeliveryOptions::NoFailures {
                                        delay: plan.dup_delay,
                                    },
                                });
                                if pushed2.is_none() {
                                    proof {
                                        let one = spec_route_one(
                                            bsv, nsv, netv, t, mc, rest[0], st_in,
                                        );
                                        assert(one is Err);
                                        assert(one->Err_0.0 =~= self.route_st());
                                        assert(spec_route(bsv, nsv, netv, t, mc, rest, st_in)
                                            == one);
                                    }
                                    return Result::Err("event ids exhausted".to_owned());
                                }
                                proof {
                                    assert(self.route_st() =~= spec_route_one(
                                        bsv, nsv, netv, t, mc, rest[0], st_in,
                                    )->Ok_0);
                                }
                            } else {
                                proof {
                                    assert(self.route_st() =~= spec_route_one(
                                        bsv, nsv, netv, t, mc, rest[0], st_in,
                                    )->Ok_0);
                                }
                            }
                        }
                    }
                },
                McEvent::TimerFired { proc, timer, timer_delay } => {
                    let t1 = if self.time <= u64::MAX - *timer_delay {
                        self.time + *timer_delay
                    } else {
                        u64::MAX
                    };
                    let pushed = self.events.push(t1, McEvent::TimerFired {
                        proc: proc.clone(),
                        timer: timer.clone(),
                        timer_delay: *timer_delay,
                    });
                    if pushed.is_none() {
                        proof {
                            assert(self.route_st() =~= st_in);
                            let one = spec_route_one(bsv, nsv, netv, t, mc, rest[0], st_in);
                            assert(one is Err);
                            assert(one->Err_0.0 =~= self.route_st());
                            assert(spec_route(bsv, nsv, netv, t, mc, rest, st_in) == one);
                        }
                        return Result::Err("event ids exhausted".to_owned());
                    }
                    proof {
                        assert(self.route_st() =~= spec_route_one(
                            bsv, nsv, netv, t, mc, rest[0], st_in,
                        )->Ok_0);
                    }
                },
                McEvent::TimerCancelled { proc, timer } => {
                    self.retire_timer_fire(proc, timer);
                    proof {
                        assert(self.route_st() =~= spec_route_one(
                            bsv, nsv, netv, t, mc, rest[0], st_in,
                        )->Ok_0);
                    }
                },
                _ => {
                    proof {
                        assert(self.route_st() =~= spec_route_one(
                            bsv, nsv, netv, t, mc, rest[0], st_in,
                        )->Ok_0);
                    }
                },
            }
            k = k + 1;
        }
        proof {
            assert(evsv.subrange(k as int, evsv.len() as int) =~= Seq::<McEventV>::empty());
        }
        Result::Ok(())
    }

    /// Removes the first pending fire of the given timer, if any: the
    /// scheduler's half of a cancellation or an override.
    fn retire_timer_fire(&mut self, proc: &String, timer: &String)
        requires
            old(self).events.wf(),
        ensures
            final(self).events.wf(),
            final(self).events.next_id == old(self).events.next_id,
            final(self).events.view_items() == spec_retire(
                old(self).events.view_items(),
                proc@,
                timer@,
            ),
            final(self).mc_mode == old(self).mc_mode,
            final(self).nodes == old(self).nodes,
            final(self).bindings == old(self).bindings,
            final(self).net == old(self).net,
            final(self).time == old(self).time,
            final(self).rng == old(self).rng,
            final(self).trace == old(self).trace,
            final(self).executed == old(self).executed,
            (forall|i: int|
                0 <= i < old(self).events.view_items().len() ==> #[trigger] old(self)
                    .events.view_items()[i].time >= old(self).time) ==> (forall|i: int|
                0 <= i < final(self).events.view_items().len() ==> #[trigger] final(self)
                    .events.view_items()[i].time >= old(self).time),
    {
        let ghost s0 = self.events.view_items();
        let mut i: usize = 0;
        while i < self.events.items.len()
            invariant
                0 <= i <= self.events.items@.len(),
                *self == *old(self),
                self.events.wf(),
                s0 == self.events.view_items(),
                s0.len() == self.events.items@.len(),
                forall|j: int| 0 <= j < i ==> !spec_is_fire(#[trigger] s0[j], proc@, timer@),
            decreases self.events.items@.len() - i,
        {
            proof {
                assert(s0[i as int] == self.events.items@[i as int].deep_view());
            }
            let found = match &self.events.items[i].event {
                McEvent::TimerFired { proc: p, timer: t, .. } => *p == *proc && *t == *timer,
                _ => false,
            };
            if found {
                proof {
                    assert(spec_is_fire(s0[i as int], proc@, timer@));
                    lemma_fire_index(s0, proc@, timer@);
                    assert(spec_fire_index(s0, proc@, timer@) == i);
                }
                self.events.items.remove(i);
                proof {
                    assert forall|w: int| 0 <= w < self.events.view_items().len() implies self
                        .events.view_items()[w] == s0.remove(i as int)[w] by {
                        assert(self.events.view_items()[w] == self.events.items@[w].deep_view());
                        if w < i {
                            assert(self.events.items@[w] == old(self).events.items@[w]);
                        } else {
                            assert(self.events.items@[w] == old(self).events.items@[w + 1]);
                        }
                    }
                    assert(self.events.view_items() =~= s0.remove(i as int));
                    assert forall|a: int, b: int|
                        0 <= a < b < self.events.view_items().len() implies #[trigger] self
                        .events.view_items()[a].id != #[trigger] self.events.view_items()[
                        b
                    ].id by {
                        let a0: int = if a < i { a } else { a + 1 };
                        let b0: int = if b < i { b } else { b + 1 };
                        assert(self.events.view_items()[a] == s0[a0]);
                        assert(self.events.view_items()[b] == s0[b0]);
                        assert(s0[a0].id != s0[b0].id);
                    }
                    assert forall|a: int| 0 <= a < self.events.view_items().len() implies
                        #[trigger] self.events.view_items()[a].id < self.events.next_id by {
                        let a0: int = if a < i { a } else { a + 1 };
                        assert(self.events.view_items()[a] == s0[a0]);
                        assert(s0[a0].id < self.events.next_id);
                    }
                    if forall|w: int| 0 <= w < s0.len() ==> #[trigger] s0[w].time >= old(
                        self,
                    ).time {
                        assert forall|w: int|
                            0 <= w < self.events.view_items().len() implies #[trigger] self
                            .events.view_items()[w].time >= old(self).time by {
                            let w0: int = if w < i { w } else { w + 1 };
                            assert(self.events.view_items()[w] == s0[w0]);
                            assert(s0[w0].time >= old(self).time);
                        }
                    }
                }
                return ;
            }
            i = i + 1;
        }
    }

    /// Executes one already-removed pending event at the current time:
    /// dispatches it to the owning node and routes the produced events. An
    /// event whose destination node is crashed is dropped unexecuted, so a
    /// crashed node never sees a callback. The outcome is exactly
    /// [`spec_execute_event`].
    fn execute_event(&mut self, pe: PendingEvent) -> (r: Result<(), String>)
        requires
            old(self).wf_core(),
        ensures
            final(self).wf_core(),
            final(self).time == old(self).time,
            final(self).executed == old(self).executed,
            final(self).bindings == old(self).bindings,
            final(self).net == old(self).net,
            final(self).nodes@.len() == old(self).nodes@.len(),
            final(self).mc_mode == old(self).mc_mode,
            forall|j: int|
                0 <= j < old(self).nodes@.len() && old(self).nodes@[j].is_crashed
                    ==> final(self).nodes@[j] == old(self).nodes@[j],
            match spec_execute_event(
                old(self).bindings.deep_view(),
                old(self).net.deep_view(),
                old(self).time,
                old(self).mc_mode,
                pe.event.deep_view(),
                old(self).nodes.deep_view(),
                old(self).route_st(),
            ) {
                Result::Ok((ns2, st2)) => r is Ok && final(self).nodes.deep_view() == ns2
                    && final(self).route_st() == st2,
                Result::Err((ns2, st2, e)) => r matches Err(m) && m@ == e && final(self).nodes.deep_view() == ns2 && final(self).route_st() == st2,
            },
            (forall|i: int|
                0 <= i < old(self).events.view_items().len() ==> #[trigger] old(self)
                    .events.view_items()[i].time >= old(self).time) ==> (forall|i: int|
                0 <= i < final(self).events.view_items().len() ==> #[trigger] final(self)
                    .events.view_items()[i].time >= old(self).time),
    {
        let ghost bsv = self.bindings.deep_view();
        let ghost nsv = self.nodes.deep_view();
        let ghost netv = self.net.deep_view();
        let ghost t = self.time;
        let ghost st0 = self.route_st();
        let ghost mc = self.mc_mode;
        let ghost evv = pe.event.deep_view();
        let ghost total = spec_execute_event(bsv, netv, t, mc, evv, nsv, st0);
        match pe.event {
            McEvent::MessageReceived { msg, src, dst, options } => {
                let bidx = match find_binding(&self.bindings, &dst) {
                    Option::Some(i) => {
                        proof {
                            assert(bsv[i as int] == self.bindings@[i as int].deep_view());
                            assert(spec_has_binding(bsv, dst@));
                            lemma_binding_index(bsv, dst@);
                            assert forall|j: int| 0 <= j < i implies bsv[j].proc != dst@ by {
                                assert(bsv[j] == self.bindings@[j].deep_view());
                            }
                            assert(spec_binding_index(bsv, dst@) == i);
                        }
                        i
                    },
                    Option::None => {
                        proof {
                            if spec_has_binding(bsv, dst@) {
                                let w = choose|w: int| 0 <= w < bsv.len() && bsv[w].proc == dst@;
                                assert(self.bindings@[w].deep_view() == bsv[w]);
                            }
                        }
                        return Result::Err("unknown destination process".to_owned());
                    },
                };
                let node_name = self.bindings[bidx].node.clone();
                let nidx = match find_node(&self.nodes, &node_name) {
                    Option::Some(i) => {
                        proof {
                            assert(nsv[i as int] == self.nodes@[i as int].deep_view());
                            assert(spec_has_node(nsv, node_name@));
                            lemma_node_index(nsv, node_name@);
                            assert forall|j: int| 0 <= j < i implies nsv[j].name
                                != node_name@ by {
                                assert(nsv[j] == self.nodes@[j].deep_view());
                            }
                            assert(spec_node_index(nsv, node_name@) == i);
                        }
                        i
                    },
                    Option::None => {
                        proof {
                            if spec_has_node(nsv, node_name@) {
                                let w = choose|w: int|
                                    0 <= w < nsv.len() && nsv[w].name == node_name@;
                                assert(self.nodes@[w].deep_view() == nsv[w]);
                            }
                        }
                        return Result::Err("unknown node".to_owned());
                    },
                };
                if self.nodes[nidx].crashed() {
                    // Dropped on crash: the callback is never invoked.
                    return Result::Ok(());
                }
                if find_proc(&self.nodes[nidx].processes, &dst).is_none() {
                    return Result::Err("unknown process".to_owned());
                }
                let seed = if self.mc_mode {
                    0
                } else {
                    self.rng.next_u64()
                };
                let time = self.time;
                let mut local_trace: Vec<LogEntry> = Vec::new();
                proof {
                    assert(local_trace.deep_view() =~= Seq::<LogEntryV>::empty());
                }
                let cb = {
                    let n = &mut self.nodes[nidx];
                    n.on_message_received(dst, msg, src, time, seed, &mut local_trace)
                };
                let ghost disp = crate::node::spec_on_message_received(
                    nsv[nidx as int],
                    evv->MessageReceived_dst,
                    evv->MessageReceived_msg,
                    evv->MessageReceived_src,
                    t,
                );
                proof {
                    assert forall|j: int| 0 <= j < self.nodes.deep_view().len() implies self
                        .nodes.deep_view()[j] == nsv.update(nidx as int, disp.0)[j] by {
                        assert(self.nodes.deep_view()[j] == self.nodes@[j].deep_view());
                    }
                    assert(self.nodes.deep_view() =~= nsv.update(nidx as int, disp.0));
                    assert(local_trace.deep_view() =~= Seq::<LogEntryV>::empty() + disp.2);
                }
                self.append_trace(local_trace);
                proof {
                    assert(self.trace.deep_view() =~= st0.trace + disp.2);
                }
                match cb {
                    Result::Err(e) => {
                        proof {
                            assert(self.route_st() =~= total->Err_0.1);
                        }
                        Result::Err(e)
                    },
                    Result::Ok(evs) => {
                        proof {
                            assert(self.route_st() =~= (RouteStV {
                                rng: if mc {
                                    st0.rng
                                } else {
                                    crate::rng::spec_rng_next(st0.rng)
                                },
                                trace: st0.trace + disp.2,
                                ..st0
                            }));
                        }
                        let rr = self.route_new_events(evs);
                        proof {
                            match &rr {
                                Result::Ok(u) => {
                                    assert(total is Ok);
                                    assert(self.route_st() == total->Ok_0.1);
                                },
                                Result::Err(m) => {
                                    assert(total is Err);
                                    assert(self.route_st() == total->Err_0.1);
                                },
                            }
                        }
                        rr
                    },
                }
            },
            McEvent::TimerFired { proc, timer, timer_delay } => {
                let bidx = match find_binding(&self.bindings, &proc) {
                    Option::Some(i) => {
                        proof {
                            assert(bsv[i as int] == self.bindings@[i as int].deep_view());
                            assert(spec_has_binding(bsv, proc@));
                            lemma_binding_index(bsv, proc@);
                            assert forall|j: int| 0 <= j < i implies bsv[j].proc != proc@ by {
                                assert(bsv[j] == self.bindings@[j].deep_view());
                            }
                            assert(spec_binding_index(bsv, proc@) == i);
                        }
                        i
                    },
                    Option::None => {
                        proof {
                            if spec_has_binding(bsv, proc@) {
                                let w = choose|w: int|
                                    0 <= w < bsv.len() && bsv[w].proc == proc@;
                                assert(self.bindings@[w].deep_view() == bsv[w]);
                            }
                        }
                        return Result::Err("unknown timer process".to_owned());
                    },
                };
                let node_name = self.bindings[bidx].node.clone();
                let nidx = match find_node(&self.nodes, &node_name) {
                    Option::Some(i) => {
                        proof {
                            assert(nsv[i as int] == self.nodes@[i as int].deep_view());
                            assert(spec_has_node(nsv, node_name@));
                            lemma_node_index(nsv, node_name@);
                            assert forall|j: int| 0 <= j < i implies nsv[j].name
                                != node_name@ by {
                                assert(nsv[j] == self.nodes@[j].deep_view());
                            }
                            assert(spec_node_index(nsv, node_name@) == i);
                        }
                        i
                    },
                    Option::None => {
                        proof {
                            if spec_has_node(nsv, node_name@) {
                                let w = choose|w: int|
                                    0 <= w < nsv.len() && nsv[w].name == node_name@;
                                assert(self.nodes@[w].deep_view() == nsv[w]);
                            }
                        }
                        return Result::Err("unknown node".to_owned());
                    },
                };
                if self.nodes[nidx].crashed() {
                    return Result::Ok(());
                }
                if find_proc(&self.nodes[nidx].processes, &proc).is_none() {
                    return Result::Err("unknown process".to_owned());
                }
                let seed = if self.mc_mode {
                    0
                } else {
                    self.rng.next_u64()
                };
                let time = self.time;
                let mut local_trace: Vec<LogEntry> = Vec::new();
                proof {
                    assert(local_trace.deep_view() =~= Seq::<LogEntryV>::empty());
                }
                let cb = {
                    let n = &mut self.nodes[nidx];
                    n.on_timer_fired(proc, timer, time, seed, &mut local_trace)
                };
                let ghost disp = crate::node::spec_on_timer_fired(
                    nsv[nidx as int],
                    evv->TimerFired_proc,
                    evv->TimerFired_timer,
                    t,
                );
                proof {
                    assert forall|j: int| 0 <= j < self.nodes.deep_view().len() implies self
                        .nodes.deep_view()[j] == nsv.update(nidx as int, disp.0)[j] by {
                        assert(self.nodes.deep_view()[j] == self.nodes@[j].deep_view());
                    }
                    assert(self.nodes.deep_view() =~= nsv.update(nidx as int, disp.0));
                    assert(local_trace.deep_view() =~= Seq::<LogEntryV>::empty() + disp.2);
                }
                self.append_trace(local_trace);
                proof {
                    assert(self.trace.deep_view() =~= st0.trace + disp.2);
                }
                match cb {
                    Result::Err(e) => {
                        proof {
                            assert(self.route_st() =~= total->Err_0.1);
                        }
                        Result::Err(e)
                    },
                    Result::Ok(evs) => {
                        proof {
                            assert(self.route_st() =~= (RouteStV {
                                rng: if mc {
                                    st0.rng
                                } else {
                                    crate::rng::spec_rng_next(st0.rng)
                                },
                                trace: st0.trace + disp.2,
                                ..st0
                            }));
                        }
                        let rr = self.route_new_events(evs);
                        proof {
                            match &rr {
                                Result::Ok(u) => {
                                    assert(total is Ok);
                                    assert(self.route_st() == total->Ok_0.1);
                                },
                                Result::Err(m) => {
                                    assert(total is Err);
                                    assert(self.route_st() == total->Err_0.1);
                                },
                            }
                        }
                        rr
                    },
                }
            },
            McEvent::TimerCancelled { proc, timer } => {
                self.retire_timer_fire(&proc, &timer);
                proof {
                    assert(self.route_st() =~= total->Ok_0.1);
                }
                Result::Ok(())
            },
            _ => Result::Ok(()),
        }
    }

    /// Executes the least pending event by `(time, id)`, advancing the
    /// clock to it; returns `Ok(false)` and changes nothing when no event
    /// is pending, and the error of a failed process callback.
    pub fn step(&mut self) -> (r: Result<bool, String>)
        requires
            old(self).wf_sim(),
        ensures
            final(self).wf_sim(),
            old(self).events.view_items().len() == 0 ==> r == Result::<bool, String>::Ok(false)
                && *final(self) == *old(self),
            ({
                let (s2, v) = spec_step(old(self).snap());
                &&& final(self).snap() == s2
                &&& match v {
                    StepResV::Idle => r == Result::<bool, String>::Ok(false),
                    StepResV::Ran => r == Result::<bool, String>::Ok(true),
                    StepResV::Failed { message } => r matches Err(m) && m@ == message,
                }
            }),
            old(self).events.view_items().len() > 0 ==> ({
                let m = spec_min_index(old(self).events.view_items());
                let pe = old(self).events.view_items()[m];
                let st0 = RouteStV {
                    events: old(self).events.view_items().remove(m),
                    next_id: old(self).events.next_id,
                    rng: old(self).rng@,
                    trace: old(self).trace.deep_view(),
                };
                &&& final(self).time == pe.time
                &&& old(self).time <= final(self).time
                &&& final(self).executed@ == old(self).executed@.push(
                    ExecRecord { time: pe.time, id: pe.id },
                )
                &&& forall|e: PendingEventV|
                    old(self).events.view_items().contains(e) ==> lex_le(pe, e)
                &&& forall|j: int|
                    0 <= j < old(self).nodes@.len() && old(self).nodes@[j].is_crashed
                        ==> final(self).nodes@[j] == old(self).nodes@[j]
                &&& final(self).mc_mode == old(self).mc_mode
                &&& match spec_execute_event(
                    old(self).bindings.deep_view(),
                    old(self).net.deep_view(),
                    pe.time,
                    old(self).mc_mode,
                    pe.event,
                    old(self).nodes.deep_view(),
                    st0,
                ) {
                    Result::Ok((ns2, st2)) => r == Result::<bool, String>::Ok(true) && final(self).nodes.deep_view() == ns2 && final(self).route_st() == st2,
                    Result::Err((ns2, st2, e)) => r matches Err(m2) && m2@ == e && final(self).nodes.deep_view() == ns2 && final(self).route_st() == st2,
                }
            }),
    {
        let ghost s0 = self.events.view_items();
        let popped = self.events.pop_min();
        let pe = match popped {
            Option::None => {
                return Result::Ok(false);
            },
            Option::Some(pe) => pe,
        };
        proof {
            lemma_min_index_is_min(s0);
            let m = spec_min_index(s0);
            assert(s0[m].time >= self.time);
            assert forall|e: PendingEventV| s0.contains(e) implies lex_le(s0[m], e) by {
                let w = choose|w: int| 0 <= w < s0.len() && s0[w] == e;
                assert(lex_le(s0[m], s0[w]));
            }
            assert forall|i: int|
                0 <= i < self.events.view_items().len() implies #[trigger] self
                .events.view_items()[i].time >= s0[m].time by {
                let w0: int = if i < m {
                    i
                } else {
                    i + 1
                };
                assert(self.events.view_items()[i] == s0[w0]);
                assert(lex_le(s0[m], s0[w0]));
            }
        }
        self.time = pe.time;
        self.executed.push(ExecRecord { time: pe.time, id: pe.id });
        proof {
            let m = spec_min_index(s0);
            assert(self.route_st() =~= (RouteStV {
                events: s0.remove(m),
                next_id: old(self).events.next_id,
                rng: old(self).rng@,
                trace: old(self).trace.deep_view(),
            }));
            assert(pe.deep_view() == s0[m]);
        }
        let r = self.execute_event(pe);
        proof {
            assert(self.snap() =~= spec_step(old(self).snap()).0);
        }
        match r {
            Result::Err(e) => Result::Err(e),
            Result::Ok(u) => Result::Ok(true),
        }
    }

    /// Executes steps until the predicate holds of the system, no event is
    /// pending, or the step budget is spent; returns whether the predicate
    /// held when stepping stopped. The predicate is evaluated between
    /// steps, never during one.
    pub fn step_until<P: Fn(&System) -> bool>(&mut self, pred: P, max_steps: u64) -> (r: Result<
        bool,
        String,
    >)
        requires
            old(self).wf_sim(),
            forall|s: &System| call_requires(pred, (s,)),
        ensures
            final(self).wf_sim(),
            r matches Ok(b) && b ==> exists|y: bool| call_ensures(pred, (&*final(self),), y)
                && y,
    {
        let mut done: u64 = 0;
        loop
            invariant_except_break
                self.wf_sim(),
                done <= max_steps,
                forall|s: &System| call_requires(pred, (s,)),
            ensures
                self.wf_sim(),
            decreases max_steps - done,
        {
            if pred(&*self) {
                return Result::Ok(true);
            }
            if done >= max_steps {
                return Result::Ok(false);
            }
            match self.step() {
                Result::Err(e) => {
                    return Result::Err(e);
                },
                Result::Ok(true) => {},
                Result::Ok(false) => {
                    return Result::Ok(false);
                },
            }
            done = done + 1;
        }
    }

    /// Executes up to `n` steps, stopping early when no event is pending;
    /// returns the number of steps taken or the first callback error.
    pub fn steps(&mut self, n: u64) -> (r: Result<u64, String>)
        requires
            old(self).wf_sim(),
        ensures
            final(self).wf_sim(),
            r matches Ok(k) ==> k <= n,
            r matches Ok(k) && k < n ==> final(self).events.view_items().len() == 0,
            ({
                let (s2, k, e) = spec_steps(old(self).snap(), n as nat);
                &&& final(self).snap() == s2
                &&& match e {
                    Option::None => r == Result::<u64, String>::Ok(k as u64),
                    Option::Some(msg) => r matches Err(m) && m@ == msg,
                }
            }),
    {
        let ghost total = spec_steps(old(self).snap(), n as nat);
        proof {
            lemma_spec_steps_count(old(self).snap(), n as nat);
        }
        let mut done: u64 = 0;
        while done < n
            invariant
                self.wf_sim(),
                done <= n,
                total == spec_steps(old(self).snap(), n as nat),
                spec_steps(self.snap(), (n - done) as nat).0 == total.0,
                done + spec_steps(self.snap(), (n - done) as nat).1 == total.1,
                spec_steps(self.snap(), (n - done) as nat).2 == total.2,
            decreases n - done,
        {
            let ghost pre = self.snap();
            proof {
                lemma_spec_steps_count(pre, (n - done) as nat);
            }
            match self.step() {
                Result::Err(e) => {
                    return Result::Err(e);
                },
                Result::Ok(true) => {},
                Result::Ok(false) => {
                    return Result::Ok(done);
                },
            }
            done = done + 1;
        }
        Result::Ok(done)
    }

    /// Executes steps until no event is pending or the step budget is
    /// spent; returns whether the queue drained.
    pub fn step_until_no_events(&mut self, max_steps: u64) -> (r: Result<bool, String>)
        requires
            old(self).wf_sim(),
        ensures
            final(self).wf_sim(),
            r matches Ok(true) ==> final(self).events.view_items().len() == 0,
            ({
                let (s2, k, e) = spec_steps(old(self).snap(), max_steps as nat);
                &&& final(self).snap() == s2
                &&& match e {
                    Option::None => r == Result::<bool, String>::Ok(
                        s2.st.events.len() == 0,
                    ),
                    Option::Some(msg) => r matches Err(m) && m@ == msg,
                }
            }),
    {
        let ghost total = spec_steps(old(self).snap(), max_steps as nat);
        let mut done: u64 = 0;
        while done < max_steps
            invariant
                self.wf_sim(),
                done <= max_steps,
                total == spec_steps(old(self).snap(), max_steps as nat),
                spec_steps(self.snap(), (max_steps - done) as nat).0 == total.0,
                spec_steps(self.snap(), (max_steps - done) as nat).2 == total.2,
            decreases max_steps - done,
        {
            let ghost pre = self.snap();
            match self.step() {
                Result::Err(e) => {
                    return Result::Err(e);
                },
                Result::Ok(true) => {},
                Result::Ok(false) => {
                    proof {
                        assert(self.events.view_items().len() == 0);
                    }
                    return Result::Ok(true);
                },
            }
            done = done + 1;
        }
        let drained = self.events.len() == 0;
        Result::Ok(drained)
    }

    /// Removes every pending event whose target process is bound to the
    /// given node; what remains is exactly [`spec_purge`] of the pending
    /// events.
    fn purge_node_events(&mut self, node: &String)
        requires
            old(self).events.wf(),
        ensures
            final(self).events.wf(),
            final(self).events.next_id == old(self).events.next_id,
            final(self).nodes == old(self).nodes,
            final(self).bindings == old(self).bindings,
            final(self).net == old(self).net,
            final(self).time == old(self).time,
            final(self).rng == old(self).rng,
            final(self).trace == old(self).trace,
            final(self).executed == old(self).executed,
            final(self).events.view_items() == spec_purge(
                old(self).events.view_items(),
                old(self).bindings.deep_view(),
                node@,
            ),
            final(self).mc_mode == old(self).mc_mode,
            forall|i: int|
                0 <= i < final(self).events.view_items().len() ==> !spec_on_node(
                    final(self).bindings.deep_view(),
                    (#[trigger] final(self).events.view_items()[i]).event,
                    node@,
                ),
            (forall|i: int|
                0 <= i < old(self).events.view_items().len() ==> #[trigger] old(self)
                    .events.view_items()[i].time >= old(self).time) ==> (forall|i: int|
                0 <= i < final(self).events.view_items().len() ==> #[trigger] final(self)
                    .events.view_items()[i].time >= old(self).time),
    {
        let ghost bsv = self.bindings.deep_view();
        let ghost s0 = self.events.view_items();
        let mut kept: Vec<PendingEvent> = Vec::new();
        proof {
            assert(kept.deep_view() =~= spec_purge(s0.subrange(0, 0), bsv, node@)) by {
                assert(s0.subrange(0, 0) =~= Seq::<PendingEventV>::empty());
                assert(kept.deep_view() =~= Seq::<PendingEventV>::empty());
            }
        }
        let mut i: usize = 0;
        while i < self.events.items.len()
            invariant
                0 <= i <= self.events.items@.len(),
                *self == *old(self),
                self.events.wf(),
                bsv == self.bindings.deep_view(),
                s0 == self.events.view_items(),
                s0.len() == self.events.items@.len(),
                kept.deep_view() == spec_purge(s0.subrange(0, i as int), bsv, node@),
            decreases self.events.items@.len() - i,
        {
            let ghost cur = s0[i as int];
            proof {
                assert(cur == self.events.items@[i as int].deep_view());
            }
            let target_owned = match &self.events.items[i].event {
                McEvent::MessageReceived { dst, .. } => dst.clone(),
                McEvent::TimerFired { proc, .. } => proc.clone(),
                McEvent::TimerCancelled { proc, .. } => proc.clone(),
                McEvent::MessageDropped { dst, .. } => dst.clone(),
                McEvent::MessageDuplicated { dst, .. } => dst.clone(),
                McEvent::MessageCorrupted { dst, .. } => dst.clone(),
            };
            proof {
                assert(target_owned@ == spec_event_target(cur.event));
            }
            let on_node = match find_binding(&self.bindings, &target_owned) {
                Option::Some(b) => {
                    proof {
                        assert(bsv[b as int] == self.bindings@[b as int].deep_view());
                        assert(bsv[b as int].proc == target_owned@);
                        assert(spec_has_binding(bsv, target_owned@));
                        lemma_binding_index(bsv, target_owned@);
                        assert forall|j: int| 0 <= j < b implies bsv[j].proc
                            != target_owned@ by {
                            assert(bsv[j] == self.bindings@[j].deep_view());
                        }
                        assert(spec_binding_index(bsv, target_owned@) == b);
                    }
                    self.bindings[b].node == *node
                },
                Option::None => {
                    proof {
                        if spec_has_binding(bsv, target_owned@) {
                            let w = choose|w: int|
                                0 <= w < bsv.len() && bsv[w].proc == target_owned@;
                            assert(self.bindings@[w].deep_view() == bsv[w]);
                        }
                    }
                    false
                },
            };
            proof {
                assert(on_node == spec_on_node(bsv, cur.event, node@));
                assert(s0.subrange(0, i + 1 as int).drop_last() =~= s0.subrange(0, i as int));
                assert(s0.subrange(0, i + 1 as int).last() == cur);
            }
            if !on_node {
                let ghost k0 = kept.deep_view();
                kept.push(self.events.items[i].clone());
                proof {
                    assert(kept.deep_view() =~= k0.push(cur));
                    assert(spec_purge(s0.subrange(0, i + 1 as int), bsv, node@) =~= k0.push(
                        cur,
                    ));
                }
            } else {
                proof {
                    assert(spec_purge(s0.subrange(0, i + 1 as int), bsv, node@)
                        =~= kept.deep_view());
                }
            }
            i = i + 1;
        }
        proof {
            assert(s0.subrange(0, s0.len() as int) =~= s0);
        }
        self.events.items = kept;
        proof {
            lemma_purge_props(s0, bsv, node@);
            assert(self.events.view_items() == spec_purge(s0, bsv, node@));
            assert forall|a: int| 0 <= a < self.events.view_items().len() implies #[trigger] self
                .events.view_items()[a].id < self.events.next_id by {
                let j = choose|j: int|
                    0 <= j < s0.len() && self.events.view_items()[a] == s0[j];
                assert(s0[j].id < self.events.next_id);
            }
            if forall|w: int| 0 <= w < s0.len() ==> #[trigger] s0[w].time >= old(self).time {
                assert forall|w: int| 0 <= w < self.events.view_items().len() implies
                    #[trigger] self.events.view_items()[w].time >= old(self).time by {
                    let j = choose|j: int|
                        0 <= j < s0.len() && self.events.view_items()[w] == s0[j];
                    assert(s0[j].time >= old(self).time);
                }
            }
        }
    }

    /// Crashes the node of the given name: its flag is set, its pending
    /// timers are purged, and every pending event targeting a process of
    /// the node is dropped. Returns whether the node exists.
    pub fn crash_node(&mut self, name: &str) -> (r: bool)
        requires
            old(self).wf_sim(),
        ensures
            final(self).wf_sim(),
            r == spec_has_node(old(self).nodes.deep_view(), name@),
            !r ==> *final(self) == *old(self),
            r ==> ({
                let nsv = old(self).nodes.deep_view();
                let ni = spec_node_index(nsv, name@);
                &&& final(self).nodes.deep_view() == nsv.update(
                    ni,
                    crate::node::spec_crash(nsv[ni]),
                )
                &&& final(self).events.view_items() == spec_purge(
                    old(self).events.view_items(),
                    old(self).bindings.deep_view(),
                    name@,
                )
                &&& forall|i: int|
                    0 <= i < final(self).events.view_items().len() ==> !spec_on_node(
                        final(self).bindings.deep_view(),
                        (#[trigger] final(self).events.view_items()[i]).event,
                        name@,
                    )
            }),
            final(self).bindings == old(self).bindings,
            final(self).net == old(self).net,
            final(self).time == old(self).time,
            final(self).rng == old(self).rng,
            final(self).trace == old(self).trace,
            final(self).executed == old(self).executed,
    {
        let ghost nsv = self.nodes.deep_view();
        let name_owned = name.to_owned();
        let nidx = match find_node(&self.nodes, &name_owned) {
            Option::Some(i) => {
                proof {
                    assert(nsv[i as int] == self.nodes@[i as int].deep_view());
                    assert(spec_has_node(nsv, name@));
                    lemma_node_index(nsv, name@);
                    assert forall|j: int| 0 <= j < i implies nsv[j].name != name@ by {
                        assert(nsv[j] == self.nodes@[j].deep_view());
                    }
                    assert(spec_node_index(nsv, name@) == i);
                }
                i
            },
            Option::None => {
                proof {
                    if spec_has_node(nsv, name@) {
                        let w = choose|w: int| 0 <= w < nsv.len() && nsv[w].name == name@;
                        assert(self.nodes@[w].deep_view() == nsv[w]);
                    }
                }
                return false;
            },
        };
        {
            let n = &mut self.nodes[nidx];
            n.crash();
        }
        proof {
            let target = nsv.update(nidx as int, crate::node::spec_crash(nsv[nidx as int]));
            assert forall|j: int| 0 <= j < self.nodes.deep_view().len() implies self
                .nodes.deep_view()[j] == target[j] by {
                assert(self.nodes.deep_view()[j] == self.nodes@[j].deep_view());
            }
            assert(self.nodes.deep_view() =~= target);
        }
        self.purge_node_events(&name_owned);
        true
    }

    /// Recovers a crashed node: the crash flag is cleared and every
    /// process of the node restarts from its initial value with blank
    /// bookkeeping, its `on_start` invoked. Returns whether the node
    /// exists; a failing start callback surfaces as its error.
    pub fn recover_node(&mut self, name: &str) -> (r: Result<bool, String>)
        requires
            old(self).wf_sim(),
        ensures
            final(self).wf_sim(),
            final(self).time == old(self).time,
            final(self).executed == old(self).executed,
            final(self).bindings == old(self).bindings,
            final(self).net == old(self).net,
            final(self).events == old(self).events,
            final(self).trace == old(self).trace,
            r matches Ok(b) ==> b == spec_has_node(old(self).nodes.deep_view(), name@),
            !spec_has_node(old(self).nodes.deep_view(), name@) ==> r == Result::<
                bool,
                String,
            >::Ok(false) && *final(self) == *old(self),
            spec_has_node(old(self).nodes.deep_view(), name@) ==> ({
                let nsv = old(self).nodes.deep_view();
                let ni = spec_node_index(nsv, name@);
                &&& final(self).nodes.deep_view().len() == nsv.len()
                &&& !final(self).nodes.deep_view()[ni].is_crashed
                &&& final(self).nodes.deep_view()[ni].name == nsv[ni].name
                &&& forall|j: int|
                    0 <= j < nsv.len() && j != ni ==> final(self).nodes.deep_view()[j]
                        == #[trigger] nsv[j]
            }),
            r matches Err(e) ==> exists|k: int|
                0 <= k < old(self).bindings.deep_view().len() && (#[trigger] old(self)
                    .bindings.deep_view()[k]).node == name@ && (old(self).bindings.deep_view()[
                    k
                ].initial matches crate::process::ProcessImplV::Failing { reason } && e@
                    == reason),
    {
        let ghost nsv = self.nodes.deep_view();
        let ghost bsv = self.bindings.deep_view();
        let name_owned = name.to_owned();
        let nidx = match find_node(&self.nodes, &name_owned) {
            Option::Some(i) => {
                proof {
                    assert(nsv[i as int] == self.nodes@[i as int].deep_view());
                    assert(spec_has_node(nsv, name@));
                    lemma_node_index(nsv, name@);
                    assert forall|j: int| 0 <= j < i implies nsv[j].name != name@ by {
                        assert(nsv[j] == self.nodes@[j].deep_view());
                    }
                    assert(spec_node_index(nsv, name@) == i);
                }
                i
            },
            Option::None => {
                proof {
                    if spec_has_node(nsv, name@) {
                        let w = choose|w: int| 0 <= w < nsv.len() && nsv[w].name == name@;
                        assert(self.nodes@[w].deep_view() == nsv[w]);
                    }
                }
                return Result::Ok(false);
            },
        };
        {
            let n = &mut self.nodes[nidx];
            n.is_crashed = false;
        }
        let mut k: usize = 0;
        while k < self.bindings.len()
            invariant
                0 <= k <= self.bindings@.len(),
                self.wf_sim(),
                self.time == old(self).time,
                self.executed == old(self).executed,
                self.bindings == old(self).bindings,
                self.net == old(self).net,
                self.events == old(self).events,
                self.trace == old(self).trace,
                bsv == self.bindings.deep_view(),
                nsv == old(self).nodes.deep_view(),
                nsv.len() == self.nodes@.len(),
                nidx < self.nodes@.len(),
                name_owned@ == name@,
                spec_has_node(nsv, name@),
                spec_node_index(nsv, name@) == nidx,
                !self.nodes.deep_view()[nidx as int].is_crashed,
                self.nodes.deep_view()[nidx as int].name == nsv[nidx as int].name,
                forall|j: int|
                    0 <= j < nsv.len() && j != nidx ==> self.nodes.deep_view()[j]
                        == #[trigger] nsv[j],
            decreases self.bindings@.len() - k,
        {
            proof {
                assert(bsv[k as int] == self.bindings@[k as int].deep_view());
            }
            if self.bindings[k].node == name_owned {
                let proc_name = self.bindings[k].proc.clone();
                let fresh = self.bindings[k].initial.clone();
                let found = find_proc(&self.nodes[nidx].processes, &proc_name);
                match found {
                    Option::Some(pidx) => {
                        let seed = self.rng.next_u64();
                        let time = self.time;
                        let started = {
                            let n = &mut self.nodes[nidx];
                            n.reset_process(pidx, fresh);
                            proof {
                                assert(n.processes.deep_view().len() == n.processes@.len());
                                assert(n.processes.deep_view()[pidx as int] == n.processes@[
                                    pidx as int
                                ].deep_view());
                            }
                            let slot = &mut n.processes[pidx];
                            let mut ctx = crate::context::Context::basic(
                                proc_name,
                                time,
                                seed,
                            );
                            slot.entry.proc_impl.on_start(&mut ctx)
                        };
                        proof {
                            assert forall|j: int|
                                0 <= j < nsv.len() && j != nidx implies #[trigger] self
                                .nodes.deep_view()[j] == nsv[j] by {
                                assert(self.nodes.deep_view()[j] == self.nodes@[j].deep_view());
                            }
                        }
                        match started {
                            Result::Err(e) => {
                                proof {
                                    assert(bsv[k as int].initial
                                        matches crate::process::ProcessImplV::Failing {
                                        reason,
                                    } && e@ == reason);
                                    assert(bsv[k as int].node == name@);
                                }
                                return Result::Err(e);
                            },
                            Result::Ok(u) => {},
                        }
                    },
                    Option::None => {},
                }
            }
            k = k + 1;
        }
        Result::Ok(true)
    }

    /// Hands out and clears the local outbox of the process named `proc`
    /// on node `node`; `None` when the node or process does not exist.
    pub fn read_local_messages(&mut self, node: &str, proc: &str) -> (r: Option<Vec<Message>>)
        requires
            old(self).wf_sim(),
        ensures
            final(self).wf_sim(),
            final(self).time == old(self).time,
            final(self).executed == old(self).executed,
            final(self).events == old(self).events,
            final(self).bindings == old(self).bindings,
            r is Some <==> spec_has_node(old(self).nodes.deep_view(), node@) && spec_has_proc(
                old(self).nodes.deep_view()[
                    spec_node_index(old(self).nodes.deep_view(), node@)
                ].processes,
                proc@,
            ),
            r is None ==> *final(self) == *old(self),
            r matches Some(v) ==> ({
                let nsv = old(self).nodes.deep_view();
                let ni = spec_node_index(nsv, node@);
                let pi = spec_proc_index(nsv[ni].processes, proc@);
                &&& v.deep_view() == nsv[ni].processes[pi].entry.local_outbox
                &&& final(self).nodes.deep_view() == nsv.update(
                    ni,
                    McNodeV {
                        processes: nsv[ni].processes.update(
                            pi,
                            ProcessSlotV {
                                name: nsv[ni].processes[pi].name,
                                entry: crate::node::ProcessEntryV {
                                    local_outbox: Seq::empty(),
                                    ..nsv[ni].processes[pi].entry
                                },
                            },
                        ),
                        ..nsv[ni]
                    },
                )
            }),
    {
        let ghost nsv = self.nodes.deep_view();
        let node_owned = node.to_owned();
        let proc_owned = proc.to_owned();
        let nidx = match find_node(&self.nodes, &node_owned) {
            Option::Some(i) => i,
            Option::None => {
                proof {
                    if spec_has_node(nsv, node@) {
                        let w = choose|w: int| 0 <= w < nsv.len() && nsv[w].name == node@;
                        assert(self.nodes@[w].deep_view() == nsv[w]);
                    }
                }
                return Option::None;
            },
        };
        proof {
            assert(nsv[nidx as int] == self.nodes@[nidx as int].deep_view());
            assert(spec_has_node(nsv, node@));
            crate::system::lemma_node_index(nsv, node@);
            assert forall|j: int| 0 <= j < nidx implies nsv[j].name != node@ by {
                assert(nsv[j] == self.nodes@[j].deep_view());
            }
            assert(spec_node_index(nsv, node@) == nidx);
        }
        let pidx = match find_proc(&self.nodes[nidx].processes, &proc_owned) {
            Option::Some(i) => i,
            Option::None => {
                return Option::None;
            },
        };
        let ghost psv = nsv[nidx as int].processes;
        let n = &mut self.nodes[nidx];
        let ghost n0 = n.deep_view();
        let slot = &mut n.processes[pidx];
        let ghost s0 = slot.deep_view();
        let out = clone_messages(&slot.entry.local_outbox);
        slot.entry.local_outbox = Vec::new();
        proof {
            assert(slot.entry.local_outbox.deep_view() =~= Seq::<MessageV>::empty());
            assert(slot.deep_view() =~= (ProcessSlotV {
                name: s0.name,
                entry: crate::node::ProcessEntryV { local_outbox: Seq::empty(), ..s0.entry },
            }));
            assert forall|j: int| 0 <= j < n.processes.deep_view().len() implies n
                .processes.deep_view()[j] == psv.update(
                pidx as int,
                ProcessSlotV {
                    name: s0.name,
                    entry: crate::node::ProcessEntryV { local_outbox: Seq::empty(), ..s0.entry },
                },
            )[j] by {
                assert(n.processes.deep_view()[j] == n.processes@[j].deep_view());
            }
            assert(n.processes.deep_view() =~= psv.update(
                pidx as int,
                ProcessSlotV {
                    name: s0.name,
                    entry: crate::node::ProcessEntryV { local_outbox: Seq::empty(), ..s0.entry },
                },
            ));
            assert(n.deep_view() =~= (McNodeV {
                processes: n.processes.deep_view(),
                ..n0
            }));
        }
        proof {
            assert forall|j: int| 0 <= j < self.nodes.deep_view().len() implies self
                .nodes.deep_view()[j] == nsv.update(
                nidx as int,
                McNodeV {
                    processes: psv.update(
                        pidx as int,
                        ProcessSlotV {
                            name: s0.name,
                            entry: crate::node::ProcessEntryV {
                                local_outbox: Seq::empty(),
                                ..s0.entry
                            },
                        },
                    ),
                    ..n0
                },
            )[j] by {
                assert(self.nodes.deep_view()[j] == self.nodes@[j].deep_view());
            }
            assert(self.nodes.deep_view() =~= nsv.update(
                nidx as int,
                McNodeV {
                    processes: psv.update(
                        pidx as int,
                        ProcessSlotV {
                            name: s0.name,
                            entry: crate::node::ProcessEntryV {
                                local_outbox: Seq::empty(),
                                ..s0.entry
                            },
                        },
                    ),
                    ..n0
                },
            ));
        }
        Option::Some(out)
    }

    /// Takes a snapshot of every node, in node order.
    pub fn node_states(&self) -> (r: Vec<McNodeState>)
        ensures
            r@.len() == self.nodes@.len(),
            forall|j: int| 0 <= j < r@.len() ==> (#[trigger] r@[j]).deep_view()
                == crate::node::spec_node_state_of(self.nodes.deep_view()[j]),
    {
        let mut out: Vec<McNodeState> = Vec::new();
        let mut i: usize = 0;
        while i < self.nodes.len()
            invariant
                0 <= i <= self.nodes@.len(),
                out@.len() == i,
                forall|j: int| 0 <= j < i ==> (#[trigger] out@[j]).deep_view()
                    == crate::node::spec_node_state_of(self.nodes.deep_view()[j]),
            decreases self.nodes@.len() - i,
        {
            proof {
                assert(self.nodes.deep_view()[i as int] == self.nodes@[i as int].deep_view());
            }
            let st = self.nodes[i].get_state();
            out.push(st);
            i = i + 1;
        }
        out
    }

    /// Restores node snapshots, in node order, through each node's
    /// snapshot surface; a snapshot whose process names do not match its
    /// node is skipped. Everything but the nodes is untouched, and the
    /// outcome at every node is pinned by [`spec_node_restored`].
    pub fn set_node_states(&mut self, states: &Vec<McNodeState>)
        ensures
            final(self).nodes@.len() == old(self).nodes@.len(),
            final(self).bindings == old(self).bindings,
            final(self).net == old(self).net,
            final(self).events == old(self).events,
            final(self).time == old(self).time,
            final(self).rng == old(self).rng,
            final(self).trace == old(self).trace,
            final(self).executed == old(self).executed,
            old(self).wf_core() ==> final(self).wf_core(),
            old(self).wf_sim() ==> final(self).wf_sim(),
            final(self).mc_mode == old(self).mc_mode,
            forall|j: int|
                0 <= j < old(self).nodes.deep_view().len() ==> #[trigger] final(self)
                    .nodes.deep_view()[j] == spec_node_restored(
                    old(self).nodes.deep_view()[j],
                    states.deep_view(),
                    j,
                ),
    {
        let ghost nsv = self.nodes.deep_view();
        let ghost stv = states.deep_view();
        let mut i: usize = 0;
        let n = if states.len() < self.nodes.len() {
            states.len()
        } else {
            self.nodes.len()
        };
        proof {
            assert(stv.len() == states@.len());
        }
        while i < n
            invariant
                0 <= i <= n,
                n <= self.nodes@.len(),
                n <= states@.len(),
                n == if states@.len() < old(self).nodes@.len() {
                    states@.len() as int
                } else {
                    old(self).nodes@.len() as int
                },
                nsv == old(self).nodes.deep_view(),
                stv == states.deep_view(),
                stv.len() == states@.len(),
                nsv.len() == old(self).nodes@.len(),
                self.nodes@.len() == old(self).nodes@.len(),
                self.bindings == old(self).bindings,
                self.net == old(self).net,
                self.events == old(self).events,
                self.time == old(self).time,
                self.rng == old(self).rng,
                self.trace == old(self).trace,
                self.executed == old(self).executed,
                self.mc_mode == old(self).mc_mode,
                forall|j: int| 0 <= j < i ==> self.nodes.deep_view()[j]
                    == #[trigger] spec_node_restored(nsv[j], stv, j),
                forall|j: int| i <= j < nsv.len() ==> self.nodes.deep_view()[j]
                    == #[trigger] nsv[j],
            decreases n - i,
        {
            proof {
                assert(self.nodes.deep_view()[i as int] == self.nodes@[i as int].deep_view());
                assert(stv[i as int] == states@[i as int].deep_view());
            }
            let matches_shape = node_state_matches(&self.nodes[i], &states[i]);
            proof {
                assert(matches_shape == spec_shape_matches(nsv[i as int], stv[i as int]));
            }
            if matches_shape {
                let node = &mut self.nodes[i];
                node.set_state(&states[i]);
                proof {
                    assert(node.deep_view() =~= spec_node_restored(nsv[i as int], stv, i as int));
                }
            }
            proof {
                assert forall|j: int| 0 <= j < self.nodes@.len() implies #[trigger] self
                    .nodes.deep_view()[j] == (if j < i + 1 {
                    spec_node_restored(nsv[j], stv, j)
                } else {
                    nsv[j]
                }) by {
                    assert(self.nodes.deep_view()[j] == self.nodes@[j].deep_view());
                    if j < i {
                        assert(self.nodes.deep_view()[j] == spec_node_restored(
                            nsv[j],
                            stv,
                            j,
                        ));
                    }
                    if j > i {
                        assert(self.nodes.deep_view()[j] == nsv[j]);
                    }
                    if j == i {
                        if matches_shape {
                            assert(self.nodes@[j].deep_view() == spec_node_restored(
                                nsv[j],
                                stv,
                                j,
                            ));
                        } else {
                            assert(!spec_shape_matches(nsv[j], stv[j]));
                            assert(spec_node_restored(nsv[j], stv, j) == nsv[j]);
                        }
                    }
                }
            }
            i = i + 1;
        }
        proof {
            assert forall|j: int| 0 <= j < nsv.len() implies #[trigger] self
                .nodes.deep_view()[j] == spec_node_restored(nsv[j], stv, j) by {
                if j >= n {
                    assert(self.nodes.deep_view()[j] == nsv[j]);
                    if j < stv.len() {
                        assert(!(0 <= j < stv.len() && spec_shape_matches(nsv[j], stv[j]))
                            || spec_node_restored(nsv[j], stv, j) == nsv[j]) by {
                        }
                    }
                }
            }
        }
    }

    /// Finds the pending event with the given id, removes it, advances
    /// the clock to it if it lies ahead, and executes it; `Ok(false)` when
    /// no pending event has the id, with nothing changed. The clock never
    /// moves backwards, so an exploration may apply events in any order;
    /// the outcome is exactly [`spec_execute_event`] on the chosen event.
    pub fn apply_event_by_id(&mut self, id: u64) -> (r: Result<bool, String>)
        requires
            old(self).wf_core(),
        ensures
            final(self).wf_core(),
            !spec_has_id(old(self).events.view_items(), id) ==> r == Result::<bool, String>::Ok(
                false,
            ) && *final(self) == *old(self),
            spec_has_id(old(self).events.view_items(), id) ==> ({
                let s = old(self).events.view_items();
                let j = spec_id_index(s, id);
                let pe = s[j];
                let t2 = if pe.time > old(self).time {
                    pe.time
                } else {
                    old(self).time
                };
                let st0 = RouteStV {
                    events: s.remove(j),
                    next_id: old(self).events.next_id,
                    rng: old(self).rng@,
                    trace: old(self).trace.deep_view(),
                };
                &&& final(self).time == t2
                &&& final(self).executed == old(self).executed
                &&& final(self).bindings == old(self).bindings
                &&& final(self).net == old(self).net
                &&& final(self).mc_mode == old(self).mc_mode
                &&& match spec_execute_event(
                    old(self).bindings.deep_view(),
                    old(self).net.deep_view(),
                    t2,
                    old(self).mc_mode,
                    pe.event,
                    old(self).nodes.deep_view(),
                    st0,
                ) {
                    Result::Ok((ns2, st2)) => r == Result::<bool, String>::Ok(true) && final(self).nodes.deep_view() == ns2 && final(self).route_st() == st2,
                    Result::Err((ns2, st2, e)) => r matches Err(m) && m@ == e && final(self).nodes.deep_view() == ns2 && final(self).route_st() == st2,
                }
            }),
    {
        let ghost s0 = self.events.view_items();
        let mut i: usize = 0;
        let mut found_at: Option<usize> = Option::None;
        while i < self.events.items.len() && found_at.is_none()
            invariant
                0 <= i <= self.events.items@.len(),
                *self == *old(self),
                self.wf_core(),
                s0 == self.events.view_items(),
                s0.len() == self.events.items@.len(),
                forall|j: int| 0 <= j < i ==> #[trigger] s0[j].id != id,
                found_at matches Some(f) ==> f < self.events.items@.len() && i == f && s0[
                    f as int
                ].id == id,
            decreases self.events.items@.len() - i - (if found_at is Some {
                1int
            } else {
                0int
            }),
        {
            proof {
                assert(s0[i as int] == self.events.items@[i as int].deep_view());
            }
            if self.events.items[i].id == id {
                found_at = Option::Some(i);
            } else {
                i = i + 1;
            }
        }
        let found = match found_at {
            Option::Some(f) => f,
            Option::None => {
                proof {
                    if spec_has_id(s0, id) {
                        let w = choose|w: int| 0 <= w < s0.len() && s0[w].id == id;
                    }
                }
                return Result::Ok(false);
            },
        };
        proof {
            assert(spec_has_id(s0, id));
            lemma_id_index(s0, id);
            assert(spec_id_index(s0, id) == found);
        }
        let pe = self.events.items.remove(found);
        proof {
            assert forall|w: int| 0 <= w < self.events.view_items().len() implies self
                .events.view_items()[w] == s0.remove(found as int)[w] by {
                assert(self.events.view_items()[w] == self.events.items@[w].deep_view());
            }
            assert(self.events.view_items() =~= s0.remove(found as int));
            assert forall|a: int, b: int|
                0 <= a < b < self.events.view_items().len() implies #[trigger] self
                .events.view_items()[a].id != #[trigger] self.events.view_items()[b].id by {
                let a0: int = if a < found {
                    a
                } else {
                    a + 1
                };
                let b0: int = if b < found {
                    b
                } else {
                    b + 1
                };
                assert(self.events.view_items()[a] == s0[a0]);
                assert(self.events.view_items()[b] == s0[b0]);
                assert(s0[a0].id != s0[b0].id);
            }
            assert forall|a: int| 0 <= a < self.events.view_items().len() implies #[trigger] self
                .events.view_items()[a].id < self.events.next_id by {
                let a0: int = if a < found {
                    a
                } else {
                    a + 1
                };
                assert(self.events.view_items()[a] == s0[a0]);
                assert(s0[a0].id < self.events.next_id);
            }
        }
        if pe.time > self.time {
            self.time = pe.time;
        }
        proof {
            assert(pe.deep_view() == s0[found as int]);
            assert(self.route_st() =~= (RouteStV {
                events: s0.remove(found as int),
                next_id: old(self).events.next_id,
                rng: old(self).rng@,
                trace: old(self).trace.deep_view(),
            }));
        }
        match self.execute_event(pe) {
            Result::Err(e) => Result::Err(e),
            Result::Ok(u) => Result::Ok(true),
        }
    }

    /// A crashed node sees no callback: executing any delivery or timer
    /// fire whose target process is bound to a crashed node changes
    /// nothing — no process runs, no state moves, no event is produced.
    /// Together with [`System::crash_node`], which drops every pending
    /// event targeting the node, nothing runs on a node between its crash
    /// and its recovery.
    pub proof fn lemma_crashed_node_sees_no_callback(
        bs: Seq<ProcBindingV>,
        net: NetworkV,
        time: u64,
        mc: bool,
        ev: McEventV,
        nodes: Seq<McNodeV>,
        st: RouteStV,
    )
        requires
            ev is MessageReceived || ev is TimerFired,
            spec_has_binding(bs, spec_event_target(ev)),
            spec_has_node(nodes, bs[spec_binding_index(bs, spec_event_target(ev))].node),
            nodes[spec_node_index(
                nodes,
                bs[spec_binding_index(bs, spec_event_target(ev))].node,
            )].is_crashed,
        ensures
            spec_execute_event(bs, net, time, mc, ev, nodes, st) == Result::<
                (Seq<McNodeV>, RouteStV),
                (Seq<McNodeV>, RouteStV, Seq<char>),
            >::Ok((nodes, st)),
    {
    }

    /// In any well-formed system the events executed so far were executed
    /// in nondecreasing time order, never ahead of the clock; which event
    /// runs at each step is pinned by [`System::step`]: the least pending
    /// event in `(time, id)` order.
    pub proof fn lemma_execution_time_ordered(&self)
        requires
            self.wf_sim(),
        ensures
            forall|i: int, j: int|
                0 <= i < j < self.executed@.len() ==> (#[trigger] self.executed@[i]).time
                    <= (#[trigger] self.executed@[j]).time,
            forall|i: int| 0 <= i < self.executed@.len() ==> (#[trigger] self.executed@[
                i
            ]).time <= self.time,
    {
    }
}

/// Whether a node snapshot fits a node: same number of processes, with
/// the same names in the same order.
pub fn node_state_matches(n: &McNode, st: &McNodeState) -> (r: bool)
    ensures
        r == (n.deep_view().processes.len() == st.deep_view().proc_states.len() && forall|j: int|
            0 <= j < st.deep_view().proc_states.len() ==> (#[trigger] st.deep_view().proc_states[
                j
            ]).name == n.deep_view().processes[j].name),
{
    if n.processes.len() != st.proc_states.len() {
        proof {
            assert(n.deep_view().processes.len() == n.processes@.len());
            assert(st.deep_view().proc_states.len() == st.proc_states@.len());
        }
        return false;
    }
    let mut i: usize = 0;
    while i < n.processes.len()
        invariant
            0 <= i <= n.processes@.len(),
            n.processes@.len() == st.proc_states@.len(),
            forall|j: int| 0 <= j < i ==> (#[trigger] st.deep_view().proc_states[j]).name
                == n.deep_view().processes[j].name,
        decreases n.processes@.len() - i,
    {
        proof {
            assert(n.deep_view().processes[i as int] == n.processes@[i as int].deep_view());
            assert(st.deep_view().proc_states[i as int] == st.proc_states@[i as int].deep_view());
        }
        if !(n.processes[i].name == st.proc_states[i].name) {
            return false;
        }
        i = i + 1;
    }
    true
}

/// Clones a binding list, preserving values, including the initial
/// process of each binding.
pub fn clone_bindings(v: &Vec<ProcBinding>) -> (r: Vec<ProcBinding>)
    ensures
        r.deep_view() == v.deep_view(),
        r@.len() == v@.len(),
        forall|j: int| 0 <= j < v@.len() ==> (#[trigger] r@[j].initial).deep_view() == v@[
            j
        ].initial.deep_view(),
{
    let mut r: Vec<ProcBinding> = Vec::new();
    let mut i: usize = 0;
    while i < v.len()
        invariant
            0 <= i <= v.len(),
            r@.len() == i,
            forall|j: int| 0 <= j < i ==> r.deep_view()[j] == v.deep_view()[j],
            forall|j: int| 0 <= j < i ==> (#[trigger] r@[j].initial).deep_view() == v@[
                j
            ].initial.deep_view(),
        decreases v.len() - i,
    {
        let x = ProcBinding {
            proc: v[i].proc.clone(),
            node: v[i].node.clone(),
            initial: v[i].initial.clone(),
        };
        proof {
            assert(v.deep_view()[i as int] == v@[i as int].deep_view());
            assert(x.deep_view() =~= v@[i as int].deep_view());
        }
        r.push(x);
        proof {
            assert forall|j: int| 0 <= j < i + 1 implies r.deep_view()[j] == v.deep_view()[j] by {
                assert(r.deep_view()[j] == r@[j].deep_view());
            }
        }
        i = i + 1;
    }
    proof {
        assert(r.deep_view() =~= v.deep_view());
    }
    r
}

/// Clones a node list, preserving its value.
pub fn clone_nodes(v: &Vec<McNode>) -> (r: Vec<McNode>)
    ensures
        r.deep_view() == v.deep_view(),
{
    let mut r: Vec<McNode> = Vec::new();
    let mut i: usize = 0;
    while i < v.len()
        invariant
            0 <= i <= v.len(),
            r@.len() == i,
            forall|j: int| 0 <= j < i ==> r.deep_view()[j] == v.deep_view()[j],
        decreases v.len() - i,
    {
        let x = v[i].clone();
        proof {
            assert(v.deep_view()[i as int] == v@[i as int].deep_view());
        }
        r.push(x);
        proof {
            assert forall|j: int| 0 <= j < i + 1 implies r.deep_view()[j] == v.deep_view()[j] by {
                assert(r.deep_view()[j] == r@[j].deep_view());
            }
        }
        i = i + 1;
    }
    proof {
        assert(r.deep_view() =~= v.deep_view());
    }
    r
}

impl Clone for System {
    /// Cloning preserves the whole observable state of the run; a clone of
    /// a well-formed system is well formed.
    fn clone(&self) -> (r: Self)
        ensures
            r.nodes.deep_view() == self.nodes.deep_view(),
            r.bindings.deep_view() == self.bindings.deep_view(),
            r.net.deep_view() == self.net.deep_view(),
            r.events.view_items() == self.events.view_items(),
            r.events.next_id == self.events.next_id,
            r.time == self.time,
            r.rng == self.rng,
            r.trace.deep_view() == self.trace.deep_view(),
            r.executed@ == self.executed@,
            r.mc_mode == self.mc_mode,
            self.wf_sim() ==> r.wf_sim(),
            self.wf_core() ==> r.wf_core(),
            self.net_wf() ==> r.net_wf(),
    {
        let r = System {
            nodes: clone_nodes(&self.nodes),
            bindings: clone_bindings(&self.bindings),
            net: self.net.clone(),
            events: self.events.clone(),
            time: self.time,
            rng: self.rng,
            trace: crate::logger::clone_trace(&self.trace),
            executed: clone_exec(&self.executed),
            mc_mode: self.mc_mode,
        };
        proof {
            if self.net_wf() {
                assert(r.net_wf()) by {
                    assert(r.net.deep_view().drop_rate == self.net.deep_view().drop_rate);
                }
            }
        }
        r
    }
}

/// Clones the executed record.
pub fn clone_exec(v: &Vec<ExecRecord>) -> (r: Vec<ExecRecord>)
    ensures
        r@ == v@,
{
    let mut r: Vec<ExecRecord> = Vec::new();
    let mut i: usize = 0;
    while i < v.len()
        invariant
            0 <= i <= v.len(),
            r@ =~= v@.subrange(0, i as int),
        decreases v.len() - i,
    {
        r.push(v[i]);
        proof {
            assert(r@ =~= v@.subrange(0, i + 1 as int));
        }
        i = i + 1;
    }
    proof {
        assert(v@.subrange(0, v@.len() as int) =~= v@);
    }
    r
}

} // verus!
