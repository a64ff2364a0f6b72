//! Canonical state snapshots: a byte encoding of the observable system
//! state, its deterministic hash, and state equality.
//!
//! Following the snapshot contract, the encoding covers the process
//! snapshots, crash flags and local outboxes of every node, the network
//! configuration and connectivity, and the pending events with their times;
//! it leaves out event logs, counters, pending-timer bookkeeping and
//! insertion ids. Equality of states is equality of encodings, and the hash
//! is a function of the encoding alone, so equal states hash alike.

use vstd::prelude::*;
use crate::events::{DeliveryOptions, DeliveryOptionsV, McEvent, McEventV, PendingEvent, PendingEventV};
use crate::message::{Message, MessageV};
use crate::network::{Link, LinkV, Network, NetworkV};
use crate::node::{McNode, McNodeV, ProcessEntry, ProcessEntryV, ProcessSlot, ProcessSlotV};
use crate::process::{ProcessImpl, ProcessImplV};
use crate::rng::spec_rng_next;
use crate::system::System;
use vstd::utf8::encode_utf8;

verus! {

/// The seed the state hash starts from.
pub const STATE_HASH_SEED: u64 = 0x243F6A8885A308D3;

/// The little-endian bytes of a 64-bit value.
pub open spec fn u64_le(x: u64) -> Seq<u8> {
    seq![
        x as u8,
        (x >> 8) as u8,
        (x >> 16) as u8,
        (x >> 24) as u8,
        (x >> 32) as u8,
        (x >> 40) as u8,
        (x >> 48) as u8,
        (x >> 56) as u8,
    ]
}

/// The encoding of a string: the length of its UTF-8 bytes, then the bytes.
pub open spec fn enc_str(s: Seq<char>) -> Seq<u8> {
    u64_le(encode_utf8(s).len() as u64) + encode_utf8(s)
}

/// The encoding of a message.
pub open spec fn enc_msg(m: MessageV) -> Seq<u8> {
    enc_str(m.tag) + enc_str(m.data)
}

/// The encoding of a message list.
pub open spec fn enc_msgs(ms: Seq<MessageV>) -> Seq<u8>
    decreases ms.len(),
{
    if ms.len() == 0 {
        Seq::empty()
    } else {
        enc_msgs(ms.drop_last()) + enc_msg(ms.last())
    }
}

/// The encoding of a process snapshot: a variant tag and the fields.
pub open spec fn enc_proc(p: ProcessImplV) -> Seq<u8> {
    match p {
        ProcessImplV::BasicPingClient { server } => seq![1u8] + enc_str(server),
        ProcessImplV::RetryPingClient { server, ping } => seq![2u8] + enc_str(server) + (match ping {
            Option::None => seq![0u8],
            Option::Some(m) => seq![1u8] + enc_msg(m),
        }),
        ProcessImplV::PingServer => seq![3u8],
        ProcessImplV::CountingServer { count, forgetful } => seq![4u8] + u64_le(count) + seq![
            if forgetful {
                1u8
            } else {
                0u8
            },
        ],
        ProcessImplV::TimerOverride { fired } => seq![5u8] + u64_le(fired),
        ProcessImplV::Failing { reason } => seq![6u8] + enc_str(reason),
    }
}

/// The encoding of a process entry: its snapshot and its local outbox.
pub open spec fn enc_entry(e: ProcessEntryV) -> Seq<u8> {
    enc_proc(e.proc) + u64_le(e.local_outbox.len() as u64) + enc_msgs(e.local_outbox)
}

/// The encoding of the named process slots of a node.
pub open spec fn enc_slots(ps: Seq<ProcessSlotV>) -> Seq<u8>
    decreases ps.len(),
{
    if ps.len() == 0 {
        Seq::empty()
    } else {
        enc_slots(ps.drop_last()) + enc_str(ps.last().name) + enc_entry(ps.last().entry)
    }
}

/// The encoding of a node: its name, crash flag and process slots.
pub open spec fn enc_node(n: McNodeV) -> Seq<u8> {
    enc_str(n.name) + seq![
        if n.is_crashed {
            1u8
        } else {
            0u8
        },
    ] + u64_le(n.processes.len() as u64) + enc_slots(n.processes)
}

/// The encoding of a node list.
pub open spec fn enc_nodes(ns: Seq<McNodeV>) -> Seq<u8>
    decreases ns.len(),
{
    if ns.len() == 0 {
        Seq::empty()
    } else {
        enc_nodes(ns.drop_last()) + enc_node(ns.last())
    }
}

/// The encoding of a delivery-failure envelope.
pub open spec fn enc_opts(o: DeliveryOptionsV) -> Seq<u8> {
    match o {
        DeliveryOptionsV::NoFailures { delay } => seq![0u8] + u64_le(delay),
        DeliveryOptionsV::PossibleFailures { delay_min, delay_max, can_drop, can_dup, can_corrupt } =>
            seq![1u8] + u64_le(delay_min) + u64_le(delay_max) + seq![
            if can_drop {
                1u8
            } else {
                0u8
            },
            if can_dup {
                1u8
            } else {
                0u8
            },
            if can_corrupt {
                1u8
            } else {
                0u8
            },
        ],
    }
}

/// The encoding of an event.
pub open spec fn enc_event(e: McEventV) -> Seq<u8> {
    match e {
        McEventV::MessageReceived { msg, src, dst, options } => seq![1u8] + enc_msg(msg)
            + enc_str(src) + enc_str(dst) + enc_opts(options),
        McEventV::TimerFired { proc, timer, timer_delay } => seq![2u8] + enc_str(proc) + enc_str(
            timer,
        ) + u64_le(timer_delay),
        McEventV::TimerCancelled { proc, timer } => seq![3u8] + enc_str(proc) + enc_str(timer),
        McEventV::MessageDropped { msg, src, dst } => seq![4u8] + enc_msg(msg) + enc_str(src)
            + enc_str(dst),
        McEventV::MessageDuplicated { msg, src, dst } => seq![5u8] + enc_msg(msg) + enc_str(src)
            + enc_str(dst),
        McEventV::MessageCorrupted { msg, src, dst } => seq![6u8] + enc_msg(msg) + enc_str(src)
            + enc_str(dst),
    }
}

/// The encoding of the pending events: times and events, without the
/// insertion ids, which carry no observable meaning.
pub open spec fn enc_pending(s: Seq<PendingEventV>) -> Seq<u8>
    decreases s.len(),
{
    if s.len() == 0 {
        Seq::empty()
    } else {
        enc_pending(s.drop_last()) + u64_le(s.last().time) + enc_event(s.last().event)
    }
}

/// The encoding of the cut links.
pub open spec fn enc_links(ls: Seq<LinkV>) -> Seq<u8>
    decreases ls.len(),
{
    if ls.len() == 0 {
        Seq::empty()
    } else {
        enc_links(ls.drop_last()) + enc_str(ls.last().from) + enc_str(ls.last().to)
    }
}

/// The encoding of a name list.
pub open spec fn enc_names(ns: Seq<Seq<char>>) -> Seq<u8>
    decreases ns.len(),
{
    if ns.len() == 0 {
        Seq::empty()
    } else {
        enc_names(ns.drop_last()) + enc_str(ns.last())
    }
}

/// The encoding of the network configuration and connectivity.
pub open spec fn enc_net(net: NetworkV) -> Seq<u8> {
    u64_le(net.delay_min) + u64_le(net.delay_max) + u64_le(net.drop_rate) + u64_le(net.dup_rate)
        + u64_le(net.corrupt_rate) + u64_le(net.disabled_links.len() as u64) + enc_links(
        net.disabled_links,
    ) + u64_le(net.disconnected.len() as u64) + enc_names(net.disconnected)
}

/// The canonical key of a system state: what state equality and the state
/// hash are defined over.
pub open spec fn spec_state_key(
    nodes: Seq<McNodeV>,
    net: NetworkV,
    pending: Seq<PendingEventV>,
) -> Seq<u8> {
    u64_le(nodes.len() as u64) + enc_nodes(nodes) + enc_net(net) + u64_le(pending.len() as u64)
        + enc_pending(pending)
}

/// One step of the byte mix of the state hash.
pub open spec fn mix(h: u64, b: u8) -> u64 {
    spec_rng_next(h ^ (b as u64))
}

/// The hash of the bytes from position `i` on, starting from `h`.
pub open spec fn hash_from(bs: Seq<u8>, i: int, h: u64) -> u64
    decreases bs.len() - i,
{
    if i < 0 || i >= bs.len() {
        h
    } else {
        hash_from(bs, i + 1, mix(h, bs[i]))
    }
}

/// The hash of a canonical state key.
pub open spec fn spec_hash_of_key(bs: Seq<u8>) -> u64 {
    hash_from(bs, 0, STATE_HASH_SEED)
}

/// The deterministic hash of a system state: a function of the canonical
/// key alone.
pub open spec fn spec_state_hash(
    nodes: Seq<McNodeV>,
    net: NetworkV,
    pending: Seq<PendingEventV>,
) -> u64 {
    spec_hash_of_key(spec_state_key(nodes, net, pending))
}

/// Equal states hash alike: two states with the same canonical key have
/// the same hash, because the hash is a function of the key.
pub proof fn lemma_equal_states_equal_hash(
    nodes1: Seq<McNodeV>,
    net1: NetworkV,
    pending1: Seq<PendingEventV>,
    nodes2: Seq<McNodeV>,
    net2: NetworkV,
    pending2: Seq<PendingEventV>,
)
    requires
        spec_state_key(nodes1, net1, pending1) == spec_state_key(nodes2, net2, pending2),
    ensures
        spec_state_hash(nodes1, net1, pending1) == spec_state_hash(nodes2, net2, pending2),
{
}

/// Appends the little-endian bytes of a 64-bit value.
fn write_u64(out: &mut Vec<u8>, x: u64)
    ensures
        final(out)@ == old(out)@ + u64_le(x),
{
    out.push(#[verifier::truncate] (x as u8));
    out.push(#[verifier::truncate] ((x >> 8) as u8));
    out.push(#[verifier::truncate] ((x >> 16) as u8));
    out.push(#[verifier::truncate] ((x >> 24) as u8));
    out.push(#[verifier::truncate] ((x >> 32) as u8));
    out.push(#[verifier::truncate] ((x >> 40) as u8));
    out.push(#[verifier::truncate] ((x >> 48) as u8));
    out.push(#[verifier::truncate] ((x >> 56) as u8));
    proof {
        assert(out@ =~= old(out)@ + u64_le(x));
    }
}

/// Appends the encoding of a string.
fn write_str(out: &mut Vec<u8>, s: &str)
    ensures
        final(out)@ == old(out)@ + enc_str(s@),
{
    let bs = s.as_bytes();
    write_u64(out, bs.len() as u64);
    let ghost base = out@;
    let mut i: usize = 0;
    while i < bs.len()
        invariant
            0 <= i <= bs@.len(),
            out@ == base + bs@.subrange(0, i as int),
        decreases bs@.len() - i,
    {
        out.push(bs[i]);
        proof {
            assert(out@ =~= base + bs@.subrange(0, i + 1 as int));
        }
        i = i + 1;
    }
    proof {
        assert(bs@.subrange(0, bs@.len() as int) =~= bs@);
        assert(out@ =~= old(out)@ + enc_str(s@));
    }
}

/// Appends the encoding of a message.
fn write_msg(out: &mut Vec<u8>, m: &Message)
    ensures
        final(out)@ == old(out)@ + enc_msg(m.deep_view()),
{
    write_str(out, m.tag.as_str());
    write_str(out, m.data.as_str());
    proof {
        assert(out@ =~= old(out)@ + enc_msg(m.deep_view()));
    }
}

/// Appends the encoding of a message list.
fn write_msgs(out: &mut Vec<u8>, ms: &Vec<Message>)
    ensures
        final(out)@ == old(out)@ + enc_msgs(ms.deep_view()),
{
    let ghost base = out@;
    let ghost msv = ms.deep_view();
    let mut i: usize = 0;
    while i < ms.len()
        invariant
            0 <= i <= ms@.len(),
            msv == ms.deep_view(),
            msv.len() == ms@.len(),
            out@ == base + enc_msgs(msv.subrange(0, i as int)),
        decreases ms@.len() - i,
    {
        proof {
            assert(msv[i as int] == ms@[i as int].deep_view());
        }
        write_msg(out, &ms[i]);
        proof {
            assert(msv.subrange(0, i + 1 as int).drop_last() =~= msv.subrange(0, i as int));
            assert(msv.subrange(0, i + 1 as int).last() == msv[i as int]);
            assert(out@ =~= base + enc_msgs(msv.subrange(0, i + 1 as int)));
        }
        i = i + 1;
    }
    proof {
        assert(msv.subrange(0, msv.len() as int) =~= msv);
    }
}

/// Appends the encoding of a process snapshot.
fn write_proc(out: &mut Vec<u8>, p: &ProcessImpl)
    ensures
        final(out)@ == old(out)@ + enc_proc(p.deep_view()),
{
    match p {
        ProcessImpl::BasicPingClient { server } => {
            out.push(1u8);
            write_str(out, server.as_str());
        },
        ProcessImpl::RetryPingClient { server, ping } => {
            out.push(2u8);
            write_str(out, server.as_str());
            match ping {
                Option::None => {
                    out.push(0u8);
                },
                Option::Some(m) => {
                    out.push(1u8);
                    write_msg(out, m);
                },
            }
        },
        ProcessImpl::PingServer => {
            out.push(3u8);
        },
        ProcessImpl::CountingServer { count, forgetful } => {
            out.push(4u8);
            write_u64(out, *count);
            out.push(if *forgetful {
                1u8
            } else {
                0u8
            });
        },
        ProcessImpl::TimerOverride { fired } => {
            out.push(5u8);
            write_u64(out, *fired);
        },
        ProcessImpl::Failing { reason } => {
            out.push(6u8);
            write_str(out, reason.as_str());
        },
    }
    proof {
        assert(out@ =~= old(out)@ + enc_proc(p.deep_view()));
    }
}

/// Appends the encoding of a process entry.
fn write_entry(out: &mut Vec<u8>, e: &ProcessEntry)
    ensures
        final(out)@ == old(out)@ + enc_entry(e.deep_view()),
{
    write_proc(out, &e.proc_impl);
    write_u64(out, e.local_outbox.len() as u64);
    write_msgs(out, &e.local_outbox);
    proof {
        assert(e.local_outbox.deep_view().len() == e.local_outbox@.len());
        assert(out@ =~= old(out)@ + enc_entry(e.deep_view()));
    }
}

/// Appends the encoding of the process slots of a node.
fn write_slots(out: &mut Vec<u8>, ps: &Vec<ProcessSlot>)
    ensures
        final(out)@ == old(out)@ + enc_slots(ps.deep_view()),
{
    let ghost base = out@;
    let ghost psv = ps.deep_view();
    let mut i: usize = 0;
    while i < ps.len()
        invariant
            0 <= i <= ps@.len(),
            psv == ps.deep_view(),
            psv.len() == ps@.len(),
            out@ == base + enc_slots(psv.subrange(0, i as int)),
        decreases ps@.len() - i,
    {
        proof {
            assert(psv[i as int] == ps@[i as int].deep_view());
        }
        let slot = &ps[i];
        write_str(out, slot.name.as_str());
        write_entry(out, &slot.entry);
        proof {
            assert(psv.subrange(0, i + 1 as int).drop_last() =~= psv.subrange(0, i as int));
            assert(psv.subrange(0, i + 1 as int).last() == psv[i as int]);
            assert(out@ =~= base + enc_slots(psv.subrange(0, i + 1 as int)));
        }
        i = i + 1;
    }
    proof {
        assert(psv.subrange(0, psv.len() as int) =~= psv);
    }
}

/// Appends the encoding of a node.
fn write_node(out: &mut Vec<u8>, n: &McNode)
    ensures
        final(out)@ == old(out)@ + enc_node(n.deep_view()),
{
    write_str(out, n.name.as_str());
    out.push(if n.is_crashed {
        1u8
    } else {
        0u8
    });
    write_u64(out, n.processes.len() as u64);
    write_slots(out, &n.processes);
    proof {
        assert(n.processes.deep_view().len() == n.processes@.len());
        assert(out@ =~= old(out)@ + enc_node(n.deep_view()));
    }
}

/// Appends the encoding of a node list.
fn write_nodes(out: &mut Vec<u8>, ns: &Vec<McNode>)
    ensures
        final(out)@ == old(out)@ + enc_nodes(ns.deep_view()),
{
    let ghost base = out@;
    let ghost nsv = ns.deep_view();
    let mut i: usize = 0;
    while i < ns.len()
        invariant
            0 <= i <= ns@.len(),
            nsv == ns.deep_view(),
            nsv.len() == ns@.len(),
            out@ == base + enc_nodes(nsv.subrange(0, i as int)),
        decreases ns@.len() - i,
    {
        proof {
            assert(nsv[i as int] == ns@[i as int].deep_view());
        }
        write_node(out, &ns[i]);
        proof {
            assert(nsv.subrange(0, i + 1 as int).drop_last() =~= nsv.subrange(0, i as int));
            assert(nsv.subrange(0, i + 1 as int).last() == nsv[i as int]);
            assert(out@ =~= base + enc_nodes(nsv.subrange(0, i + 1 as int)));
        }
        i = i + 1;
    }
    proof {
        assert(nsv.subrange(0, nsv.len() as int) =~= nsv);
    }
}

/// Appends the encoding of an event.
fn write_event(out: &mut Vec<u8>, e: &McEvent)
    ensures
        final(out)@ == old(out)@ + enc_event(e.deep_view()),
{
    match e {
        McEvent::MessageReceived { msg, src, dst, options } => {
            out.push(1u8);
            write_msg(out, msg);
            write_str(out, src.as_str());
            write_str(out, dst.as_str());
            match options {
                DeliveryOptions::NoFailures { delay } => {
                    out.push(0u8);
                    write_u64(out, *delay);
                },
                DeliveryOptions::PossibleFailures {
                    delay_min,
                    delay_max,
                    can_drop,
                    can_dup,
                    can_corrupt,
                } => {
                    out.push(1u8);
                    write_u64(out, *delay_min);
                    write_u64(out, *delay_max);
                    out.push(if *can_drop {
                        1u8
                    } else {
                        0u8
                    });
                    out.push(if *can_dup {
                        1u8
                    } else {
                        0u8
                    });
                    out.push(if *can_corrupt {
                        1u8
                    } else {
                        0u8
                    });
                },
            }
        },
        McEvent::TimerFired { proc, timer, timer_delay } => {
            out.push(2u8);
            write_str(out, proc.as_str());
            write_str(out, timer.as_str());
            write_u64(out, *timer_delay);
        },
        McEvent::TimerCancelled { proc, timer } => {
            out.push(3u8);
            write_str(out, proc.as_str());
            write_str(out, timer.as_str());
        },
        McEvent::MessageDropped { msg, src, dst } => {
            out.push(4u8);
            write_msg(out, msg);
            write_str(out, src.as_str());
            write_str(out, dst.as_str());
        },
        McEvent::MessageDuplicated { msg, src, dst } => {
            out.push(5u8);
            write_msg(out, msg);
            write_str(out, src.as_str());
            write_str(out, dst.as_str());
        },
        McEvent::MessageCorrupted { msg, src, dst } => {
            out.push(6u8);
            write_msg(out, msg);
            write_str(out, src.as_str());
            write_str(out, dst.as_str());
        },
    }
    proof {
        assert(out@ =~= old(out)@ + enc_event(e.deep_view()));
    }
}

/// Appends the encoding of the pending events.
fn write_pending(out: &mut Vec<u8>, ps: &Vec<PendingEvent>)
    ensures
        final(out)@ == old(out)@ + enc_pending(ps.deep_view()),
{
    let ghost base = out@;
    let ghost psv = ps.deep_view();
    let mut i: usize = 0;
    while i < ps.len()
        invariant
            0 <= i <= ps@.len(),
            psv == ps.deep_view(),
            psv.len() == ps@.len(),
            out@ == base + enc_pending(psv.subrange(0, i as int)),
        decreases ps@.len() - i,
    {
        proof {
            assert(psv[i as int] == ps@[i as int].deep_view());
        }
        let pe = &ps[i];
        write_u64(out, pe.time);
        write_event(out, &pe.event);
        proof {
            assert(psv.subrange(0, i + 1 as int).drop_last() =~= psv.subrange(0, i as int));
            assert(psv.subrange(0, i + 1 as int).last() == psv[i as int]);
            assert(out@ =~= base + enc_pending(psv.subrange(0, i + 1 as int)));
        }
        i = i + 1;
    }
    proof {
        assert(psv.subrange(0, psv.len() as int) =~= psv);
    }
}

/// Appends the encoding of the cut links.
fn write_links(out: &mut Vec<u8>, ls: &Vec<Link>)
    ensures
        final(out)@ == old(out)@ + enc_links(ls.deep_view()),
{
    let ghost base = out@;
    let ghost lsv = ls.deep_view();
    let mut i: usize = 0;
    while i < ls.len()
        invariant
            0 <= i <= ls@.len(),
            lsv == ls.deep_view(),
            lsv.len() == ls@.len(),
            out@ == base + enc_links(lsv.subrange(0, i as int)),
        decreases ls@.len() - i,
    {
        proof {
            assert(lsv[i as int] == ls@[i as int].deep_view());
        }
        let l = &ls[i];
        write_str(out, l.from.as_str());
        write_str(out, l.to.as_str());
        proof {
            assert(lsv.subrange(0, i + 1 as int).drop_last() =~= lsv.subrange(0, i as int));
            assert(lsv.subrange(0, i + 1 as int).last() == lsv[i as int]);
            assert(out@ =~= base + enc_links(lsv.subrange(0, i + 1 as int)));
        }
        i = i + 1;
    }
    proof {
        assert(lsv.subrange(0, lsv.len() as int) =~= lsv);
    }
}

/// Appends the encoding of a name list.
fn write_names(out: &mut Vec<u8>, ns: &Vec<String>)
    ensures
        final(out)@ == old(out)@ + enc_names(ns.deep_view()),
{
    let ghost base = out@;
    let ghost nsv = ns.deep_view();
    let mut i: usize = 0;
    while i < ns.len()
        invariant
            0 <= i <= ns@.len(),
            nsv == ns.deep_view(),
            nsv.len() == ns@.len(),
            out@ == base + enc_names(nsv.subrange(0, i as int)),
        decreases ns@.len() - i,
    {
        proof {
            assert(nsv[i as int] == ns@[i as int]@);
        }
        write_str(out, ns[i].as_str());
        proof {
            assert(nsv.subrange(0, i + 1 as int).drop_last() =~= nsv.subrange(0, i as int));
            assert(nsv.subrange(0, i + 1 as int).last() == nsv[i as int]);
            assert(out@ =~= base + enc_names(nsv.subrange(0, i + 1 as int)));
        }
        i = i + 1;
    }
    proof {
        assert(nsv.subrange(0, nsv.len() as int) =~= nsv);
    }
}

/// Appends the encoding of the network.
fn write_net(out: &mut Vec<u8>, net: &Network)
    ensures
        final(out)@ == old(out)@ + enc_net(net.deep_view()),
{
    write_u64(out, net.delay_min);
    write_u64(out, net.delay_max);
    write_u64(out, net.drop_rate);
    write_u64(out, net.dup_rate);
    write_u64(out, net.corrupt_rate);
    write_u64(out, net.disabled_links.len() as u64);
    write_links(out, &net.disabled_links);
    write_u64(out, net.disconnected.len() as u64);
    write_names(out, &net.disconnected);
    proof {
        assert(net.disabled_links.deep_view().len() == net.disabled_links@.len());
        assert(net.disconnected.deep_view().len() == net.disconnected@.len());
        assert(out@ =~= old(out)@ + enc_net(net.deep_view()));
    }
}

/// The canonical byte key of the observable state of a system.
pub fn state_key(s: &System) -> (r: Vec<u8>)
    ensures
        r@ == spec_state_key(s.nodes.deep_view(), s.net.deep_view(), s.events.view_items()),
{
    let mut out: Vec<u8> = Vec::new();
    proof {
        assert(out@ =~= Seq::<u8>::empty());
    }
    write_u64(&mut out, s.nodes.len() as u64);
    write_nodes(&mut out, &s.nodes);
    write_net(&mut out, &s.net);
    write_u64(&mut out, s.events.items.len() as u64);
    write_pending(&mut out, &s.events.items);
    proof {
        assert(s.nodes.deep_view().len() == s.nodes@.len());
        assert(s.events.view_items().len() == s.events.items@.len());
        assert(out@ =~= spec_state_key(
            s.nodes.deep_view(),
            s.net.deep_view(),
            s.events.view_items(),
        ));
    }
    out
}

/// The deterministic hash of the observable state of a system.
pub fn state_hash(s: &System) -> (r: u64)
    ensures
        r == spec_state_hash(s.nodes.deep_view(), s.net.deep_view(), s.events.view_items()),
{
    let key = state_key(s);
    let mut h: u64 = STATE_HASH_SEED;
    let mut i: usize = 0;
    while i < key.len()
        invariant
            0 <= i <= key@.len(),
            hash_from(key@, i as int, h) == spec_hash_of_key(key@),
        decreases key@.len() - i,
    {
        let b = key[i];
        h = h ^ (b as u64);
        let a: u64 = h ^ (h << 13u64);
        let c: u64 = a ^ (a >> 7u64);
        h = c ^ (c << 17u64);
        i = i + 1;
    }
    h
}

/// Whether two byte keys are equal.
pub fn bytes_eq(a: &Vec<u8>, b: &Vec<u8>) -> (r: bool)
    ensures
        r == (a@ == b@),
{
    if a.len() != b.len() {
        return false;
    }
    let mut i: usize = 0;
    while i < a.len()
        invariant
            0 <= i <= a@.len(),
            a@.len() == b@.len(),
            forall|j: int| 0 <= j < i ==> a@[j] == b@[j],
        decreases a@.len() - i,
    {
        if a[i] != b[i] {
            return false;
        }
        i = i + 1;
    }
    proof {
        assert(a@ =~= b@);
    }
    true
}

/// Whether two systems are in the same observable state: their canonical
/// keys coincide.
pub fn states_equal(a: &System, b: &System) -> (r: bool)
    ensures
        r == (spec_state_key(a.nodes.deep_view(), a.net.deep_view(), a.events.view_items())
            == spec_state_key(b.nodes.deep_view(), b.net.deep_view(), b.events.view_items())),
{
    let ka = state_key(a);
    let kb = state_key(b);
    bytes_eq(&ka, &kb)
}

} // verus!
