//! System events and the store of pending events.
//!
//! An event is a scheduled future callback invocation: a message delivery, a
//! timer fire, or one of the delivery-failure refinements the model checker
//! branches on. Pending events carry a strictly increasing insertion id used
//! to break ties in `(time, id)` order and to give every event a stable
//! identity during exploration.

use vstd::prelude::*;
use crate::message::{Message, MessageV};

verus! {

/// The mathematical value of [`DeliveryOptions`].
#[verifier::ext_equal]
pub enum DeliveryOptionsV {
    /// See [`DeliveryOptions::NoFailures`].
    NoFailures { delay: u64 },
    /// See [`DeliveryOptions::PossibleFailures`].
    PossibleFailures { delay_min: u64, delay_max: u64, can_drop: bool, can_dup: bool, can_corrupt: bool },
}

/// The delivery-failure envelope attached to a pending message delivery,
/// restricting how the model checker may branch on it.
pub enum DeliveryOptions {
    /// The delivery happens after exactly `delay`, with no failure.
    NoFailures {
        /// The pinned delay.
        delay: u64,
    },
    /// The delivery may be delayed within a window, dropped, duplicated or
    /// corrupted, as the flags allow.
    PossibleFailures {
        /// Least possible delay.
        delay_min: u64,
        /// Greatest possible delay.
        delay_max: u64,
        /// Whether the message may be dropped.
        can_drop: bool,
        /// Whether the message may be duplicated.
        can_dup: bool,
        /// Whether the payload may be corrupted.
        can_corrupt: bool,
    },
}

impl DeepView for DeliveryOptions {
    type V = DeliveryOptionsV;

    open spec fn deep_view(&self) -> DeliveryOptionsV {
        match self {
            DeliveryOptions::NoFailures { delay } => DeliveryOptionsV::NoFailures { delay: *delay },
            DeliveryOptions::PossibleFailures { delay_min, delay_max, can_drop, can_dup, can_corrupt } =>
                DeliveryOptionsV::PossibleFailures {
                    delay_min: *delay_min,
                    delay_max: *delay_max,
                    can_drop: *can_drop,
                    can_dup: *can_dup,
                    can_corrupt: *can_corrupt,
                },
        }
    }
}

impl Clone for DeliveryOptions {
    /// Cloning preserves the options value.
    fn clone(&self) -> (r: Self)
        ensures
            r.deep_view() == self.deep_view(),
    {
        match self {
            DeliveryOptions::NoFailures { delay } => DeliveryOptions::NoFailures { delay: *delay },
            DeliveryOptions::PossibleFailures { delay_min, delay_max, can_drop, can_dup, can_corrupt } =>
                DeliveryOptions::PossibleFailures {
                    delay_min: *delay_min,
                    delay_max: *delay_max,
                    can_drop: *can_drop,
                    can_dup: *can_dup,
                    can_corrupt: *can_corrupt,
                },
        }
    }
}

/// The mathematical value of a [`McEvent`].
#[verifier::ext_equal]
pub enum McEventV {
    /// See [`McEvent::MessageReceived`].
    MessageReceived { msg: MessageV, src: Seq<char>, dst: Seq<char>, options: DeliveryOptionsV },
    /// See [`McEvent::TimerFired`].
    TimerFired { proc: Seq<char>, timer: Seq<char>, timer_delay: u64 },
    /// See [`McEvent::TimerCancelled`].
    TimerCancelled { proc: Seq<char>, timer: Seq<char> },
    /// See [`McEvent::MessageDropped`].
    MessageDropped { msg: MessageV, src: Seq<char>, dst: Seq<char> },
    /// See [`McEvent::MessageDuplicated`].
    MessageDuplicated { msg: MessageV, src: Seq<char>, dst: Seq<char> },
    /// See [`McEvent::MessageCorrupted`].
    MessageCorrupted { msg: MessageV, src: Seq<char>, dst: Seq<char> },
}

/// An event of the system: a future callback invocation or a
/// delivery-failure refinement.
pub enum McEvent {
    /// Delivery of `msg` from process `src` to process `dst`.
    MessageReceived {
        /// The message.
        msg: Message,
        /// Sending process.
        src: String,
        /// Destination process.
        dst: String,
        /// The delivery-failure envelope.
        options: DeliveryOptions,
    },
    /// The fire of a timer on a process.
    TimerFired {
        /// The owning process.
        proc: String,
        /// Timer name.
        timer: String,
        /// Delay from the moment the timer was set until the fire.
        timer_delay: u64,
    },
    /// The cancellation of a timer on a process.
    TimerCancelled {
        /// The owning process.
        proc: String,
        /// Timer name.
        timer: String,
    },
    /// The network dropped the message (a model-checking refinement).
    MessageDropped {
        /// The message.
        msg: Message,
        /// Sending process.
        src: String,
        /// Destination process.
        dst: String,
    },
    /// The network duplicated the message (a model-checking refinement).
    MessageDuplicated {
        /// The message.
        msg: Message,
        /// Sending process.
        src: String,
        /// Destination process.
        dst: String,
    },
    /// The network corrupted the message (a model-checking refinement).
    MessageCorrupted {
        /// The message.
        msg: Message,
        /// Sending process.
        src: String,
        /// Destination process.
        dst: String,
    },
}

impl DeepView for McEvent {
    type V = McEventV;

    open spec fn deep_view(&self) -> McEventV {
        match self {
            McEvent::MessageReceived { msg, src, dst, options } => McEventV::MessageReceived {
                msg: msg.deep_view(),
                src: src@,
                dst: dst@,
                options: options.deep_view(),
            },
            McEvent::TimerFired { proc, timer, timer_delay } => McEventV::TimerFired {
                proc: proc@,
                timer: timer@,
                timer_delay: *timer_delay,
            },
            McEvent::TimerCancelled { proc, timer } => McEventV::TimerCancelled {
                proc: proc@,
                timer: timer@,
            },
            McEvent::MessageDropped { msg, src, dst } => McEventV::MessageDropped {
                msg: msg.deep_view(),
                src: src@,
                dst: dst@,
            },
            McEvent::MessageDuplicated { msg, src, dst } => McEventV::MessageDuplicated {
                msg: msg.deep_view(),
                src: src@,
                dst: dst@,
            },
            McEvent::MessageCorrupted { msg, src, dst } => McEventV::MessageCorrupted {
                msg: msg.deep_view(),
                src: src@,
                dst: dst@,
            },
        }
    }
}

impl Clone for McEvent {
    /// Cloning preserves the event value.
    fn clone(&self) -> (r: Self)
        ensures
            r.deep_view() == self.deep_view(),
    {
        match self {
            McEvent::MessageReceived { msg, src, dst, options } => McEvent::MessageReceived {
                msg: msg.clone(),
                src: src.clone(),
                dst: dst.clone(),
                options: options.clone(),
            },
            McEvent::TimerFired { proc, timer, timer_delay } => McEvent::TimerFired {
                proc: proc.clone(),
                timer: timer.clone(),
                timer_delay: *timer_delay,
            },
            McEvent::TimerCancelled { proc, timer } => McEvent::TimerCancelled {
                proc: proc.clone(),
                timer: timer.clone(),
            },
            McEvent::MessageDropped { msg, src, dst } => McEvent::MessageDropped {
                msg: msg.clone(),
                src: src.clone(),
                dst: dst.clone(),
            },
            McEvent::MessageDuplicated { msg, src, dst } => McEvent::MessageDuplicated {
                msg: msg.clone(),
                src: src.clone(),
                dst: dst.clone(),
            },
            McEvent::MessageCorrupted { msg, src, dst } => McEvent::MessageCorrupted {
                msg: msg.clone(),
                src: src.clone(),
                dst: dst.clone(),
            },
        }
    }
}

/// The mathematical value of a [`PendingEvent`].
#[verifier::ext_equal]
pub struct PendingEventV {
    /// Insertion id.
    pub id: u64,
    /// Scheduled time.
    pub time: u64,
    /// The event itself.
    pub event: McEventV,
}

/// A scheduled, not yet executed event.
pub struct PendingEvent {
    /// Insertion id, unique within the store, used as the `(time, id)`
    /// tie-break and as the stable identity of the event.
    pub id: u64,
    /// The time the event is scheduled at.
    pub time: u64,
    /// The event itself.
    pub event: McEvent,
}

impl DeepView for PendingEvent {
    type V = PendingEventV;

    open spec fn deep_view(&self) -> PendingEventV {
        PendingEventV { id: self.id, time: self.time, event: self.event.deep_view() }
    }
}

impl Clone for PendingEvent {
    /// Cloning preserves the pending event value.
    fn clone(&self) -> (r: Self)
        ensures
            r.deep_view() == self.deep_view(),
    {
        PendingEvent { id: self.id, time: self.time, event: self.event.clone() }
    }
}

/// The event-ordering mode of the model checker: which pending events may be
/// selected next.
#[derive(Clone, Copy, PartialEq, Eq, Structural, Debug)]
pub enum EventOrderingMode {
    /// Any pending event may be chosen: full interleaving.
    Normal,
    /// While a message delivery is pending, only deliveries may be chosen.
    MessagesFirst,
    /// Only events scheduled at the least pending time may be chosen.
    StrictTime,
}


/// Lexicographic `(time, id)` order on pending events.
pub open spec fn lex_le(a: PendingEventV, b: PendingEventV) -> bool {
    a.time < b.time || (a.time == b.time && a.id <= b.id)
}

/// The index of the least pending event of a nonempty sequence, by
/// `(time, id)`; the earliest such index on ties (ids make ties impossible
/// in a well-formed store).
pub open spec fn spec_min_index(s: Seq<PendingEventV>) -> int
    decreases s.len(),
{
    if s.len() <= 1 {
        0
    } else {
        let m = spec_min_index(s.drop_last());
        if lex_le(s[m], s.last()) {
            m
        } else {
            s.len() - 1
        }
    }
}

/// The least index holds a least element, and lies inside the sequence.
pub proof fn lemma_min_index_is_min(s: Seq<PendingEventV>)
    requires
        s.len() > 0,
    ensures
        0 <= spec_min_index(s) < s.len(),
        forall|i: int| 0 <= i < s.len() ==> lex_le(s[spec_min_index(s)], #[trigger] s[i]),
    decreases s.len(),
{
    if s.len() > 1 {
        lemma_min_index_is_min(s.drop_last());
        assert(forall|i: int|
            0 <= i < s.len() - 1 ==> s.drop_last()[i] == #[trigger] s[i]);
    }
}

/// The ordered store of scheduled, not yet executed events.
///
/// Ids grow monotonically with insertion and are never reused, so
/// `(time, id)` is a strict total order on the contents.
pub struct PendingEvents {
    /// The pending events, in insertion order.
    pub items: Vec<PendingEvent>,
    /// The id the next inserted event receives.
    pub next_id: u64,
}

impl PendingEvents {
    /// The contents as a sequence of mathematical values.
    pub open spec fn view_items(&self) -> Seq<PendingEventV> {
        self.items.deep_view()
    }

    /// Well-formedness: every id is below `next_id` (hence ids are bounded)
    /// and ids are pairwise distinct.
    pub open spec fn wf(&self) -> bool {
        &&& forall|i: int|
            0 <= i < self.view_items().len() ==> #[trigger] self.view_items()[i].id
                < self.next_id
        &&& forall|i: int, j: int|
            0 <= i < j < self.view_items().len() ==> #[trigger] self.view_items()[i].id
                != #[trigger] self.view_items()[j].id
    }

    /// Creates an empty store.
    pub fn new() -> (r: PendingEvents)
        ensures
            r.view_items() == Seq::<PendingEventV>::empty(),
            r.next_id == 0,
            r.wf(),
    {
        let r = PendingEvents { items: Vec::new(), next_id: 0 };
        proof {
            assert(r.view_items() =~= Seq::<PendingEventV>::empty());
        }
        r
    }

    /// Number of pending events.
    pub fn len(&self) -> (r: usize)
        ensures
            r == self.view_items().len(),
    {
        self.items.len()
    }

    /// Schedules `event` at `time`; returns the assigned id, or `None` when
    /// the id space is exhausted.
    pub fn push(&mut self, time: u64, event: McEvent) -> (r: Option<u64>)
        requires
            old(self).wf(),
        ensures
            final(self).wf(),
            old(self).next_id == u64::MAX ==> r is None && *final(self) == *old(self),
            old(self).next_id < u64::MAX ==> {
                &&& r == Option::Some(old(self).next_id)
                &&& final(self).view_items() == old(self).view_items().push(
                    PendingEventV {
                        id: old(self).next_id,
                        time,
                        event: event.deep_view(),
                    },
                )
                &&& final(self).next_id == old(self).next_id + 1
            },
    {
        if self.next_id == u64::MAX {
            return Option::None;
        }
        let id = self.next_id;
        self.next_id = self.next_id + 1;
        self.items.push(PendingEvent { id, time, event });
        proof {
            assert(self.view_items() =~= old(self).view_items().push(
                self.items@.last().deep_view(),
            ));
        }
        Option::Some(id)
    }

    /// Removes and returns the least pending event by `(time, id)`; `None`
    /// on an empty store. The result is pinned: it is the element at
    /// [`spec_min_index`].
    pub fn pop_min(&mut self) -> (r: Option<PendingEvent>)
        requires
            old(self).wf(),
        ensures
            final(self).wf(),
            final(self).next_id == old(self).next_id,
            old(self).view_items().len() == 0 ==> r is None && *final(self) == *old(self),
            old(self).view_items().len() > 0 ==> {
                let m = spec_min_index(old(self).view_items());
                &&& r matches Option::Some(e) && e.deep_view() == old(self).view_items()[m]
                &&& final(self).view_items() == old(self).view_items().remove(m)
                &&& forall|i: int|
                    0 <= i < old(self).view_items().len() ==> lex_le(
                        old(self).view_items()[m],
                        #[trigger] old(self).view_items()[i],
                    )
            },
    {
        if self.items.len() == 0 {
            return Option::None;
        }
        let ghost s = self.view_items();
        let mut m: usize = 0;
        let mut i: usize = 1;
        while i < self.items.len()
            invariant
                0 <= m < i <= self.items.len(),
                s == self.view_items(),
                s.len() == self.items.len(),
                m == spec_min_index(s.subrange(0, i as int)),
            decreases self.items.len() - i,
        {
            proof {
                assert(s.subrange(0, i + 1 as int).drop_last() =~= s.subrange(0, i as int));
                assert(s.subrange(0, i + 1 as int).last() == s[i as int]);
            }
            let cur_t = self.items[m].time;
            let cur_i = self.items[m].id;
            let cand_t = self.items[i].time;
            let cand_i = self.items[i].id;
            if !(cur_t < cand_t || (cur_t == cand_t && cur_i <= cand_i)) {
                m = i;
            }
            i = i + 1;
        }
        proof {
            assert(s.subrange(0, s.len() as int) =~= s);
            lemma_min_index_is_min(s);
        }
        let e = self.items.remove(m);
        proof {
            assert(self.view_items() =~= s.remove(spec_min_index(s)));
        }
        Option::Some(e)
    }
}


/// Clones a pending-event list, preserving its value.
pub fn clone_pending(v: &Vec<PendingEvent>) -> (r: Vec<PendingEvent>)
    ensures
        r.deep_view() == v.deep_view(),
{
    let mut r: Vec<PendingEvent> = Vec::new();
    let mut i: usize = 0;
    while i < v.len()
        invariant
            0 <= i <= v.len(),
            r@.len() == i,
            forall|j: int| 0 <= j < i ==> r.deep_view()[j] == v.deep_view()[j],
        decreases v.len() - i,
    {
        let x = v[i].clone();
        proof {
            assert(v.deep_view()[i as int] == v@[i as int].deep_view());
        }
        r.push(x);
        proof {
            assert forall|j: int| 0 <= j < i + 1 implies r.deep_view()[j] == v.deep_view()[j] by {
                assert(r.deep_view()[j] == r@[j].deep_view());
            }
        }
        i = i + 1;
    }
    proof {
        assert(r.deep_view() =~= v.deep_view());
    }
    r
}

impl Clone for PendingEvents {
    /// Cloning preserves the contents, the next id, and well-formedness.
    fn clone(&self) -> (r: Self)
        ensures
            r.view_items() == self.view_items(),
            r.next_id == self.next_id,
            self.wf() ==> r.wf(),
    {
        PendingEvents { items: clone_pending(&self.items), next_id: self.next_id }
    }
}


/// Whether a pending event is a message delivery.
pub open spec fn spec_is_delivery(e: PendingEventV) -> bool {
    e.event is MessageReceived
}

/// Whether some pending event is a message delivery.
pub open spec fn spec_any_delivery(s: Seq<PendingEventV>) -> bool {
    exists|i: int| 0 <= i < s.len() && spec_is_delivery(#[trigger] s[i])
}

/// Whether an event may be selected next under an ordering mode, given the
/// whole pending set.
pub open spec fn spec_enabled(s: Seq<PendingEventV>, mode: EventOrderingMode, e: PendingEventV) -> bool {
    match mode {
        EventOrderingMode::Normal => true,
        EventOrderingMode::MessagesFirst => if spec_any_delivery(s) {
            spec_is_delivery(e)
        } else {
            true
        },
        EventOrderingMode::StrictTime => s.len() > 0 && e.time == s[spec_min_index(s)].time,
    }
}

impl PendingEvents {
    /// The ids of the events that may be selected next under the ordering
    /// mode: exactly those the mode enables, and at least one while any
    /// event is pending.
    pub fn available(&self, mode: EventOrderingMode) -> (r: Vec<u64>)
        ensures
            forall|k: int|
                0 <= k < r@.len() ==> exists|j: int|
                    0 <= j < self.view_items().len() && #[trigger] r@[k] == self.view_items()[
                        j
                    ].id && spec_enabled(self.view_items(), mode, self.view_items()[j]),
            forall|j: int|
                0 <= j < self.view_items().len() && spec_enabled(
                    self.view_items(),
                    mode,
                    #[trigger] self.view_items()[j],
                ) ==> r@.contains(self.view_items()[j].id),
            self.view_items().len() > 0 ==> r@.len() > 0,
    {
        let ghost s = self.view_items();
        let mut deliveries: bool = false;
        let mut m: usize = 0;
        let mut i: usize = 0;
        if self.items.len() == 0 {
            return Vec::new();
        }
        // One pass for the mode context: whether any delivery is pending,
        // and the least pending `(time, id)`.
        i = 1;
        proof {
            assert(s[0] == self.items@[0].deep_view());
            assert(s.subrange(0, 1) =~= seq![s[0]]);
        }
        deliveries = match &self.items[0].event {
            McEvent::MessageReceived { .. } => true,
            _ => false,
        };
        proof {
            if deliveries {
                assert(spec_is_delivery(s.subrange(0, 1)[0]));
            } else {
                assert forall|w: int| 0 <= w < 1 implies !spec_is_delivery(
                    #[trigger] s.subrange(0, 1)[w],
                ) by {
                    assert(s.subrange(0, 1)[w] == s[0]);
                }
            }
            assert(deliveries == spec_any_delivery(s.subrange(0, 1)));
        }
        while i < self.items.len()
            invariant
                1 <= i <= self.items@.len(),
                0 <= m < i,
                s == self.view_items(),
                s.len() == self.items@.len(),
                m == spec_min_index(s.subrange(0, i as int)),
                deliveries == spec_any_delivery(s.subrange(0, i as int)),
            decreases self.items@.len() - i,
        {
            proof {
                assert(s.subrange(0, i + 1 as int).drop_last() =~= s.subrange(0, i as int));
                assert(s.subrange(0, i + 1 as int).last() == s[i as int]);
                assert(s[i as int] == self.items@[i as int].deep_view());
                if spec_any_delivery(s.subrange(0, i as int)) {
                    let w = choose|w: int|
                        0 <= w < i && spec_is_delivery(#[trigger] s.subrange(0, i as int)[w]);
                    assert(s.subrange(0, i + 1 as int)[w] == s.subrange(0, i as int)[w]);
                }
            }
            let cur_t = self.items[m].time;
            let cur_i = self.items[m].id;
            let cand_t = self.items[i].time;
            let cand_i = self.items[i].id;
            if !(cur_t < cand_t || (cur_t == cand_t && cur_i <= cand_i)) {
                m = i;
            }
            let is_del = match &self.items[i].event {
                McEvent::MessageReceived { .. } => true,
                _ => false,
            };
            if is_del {
                deliveries = true;
            }
            proof {
                if !spec_any_delivery(s.subrange(0, i + 1 as int)) {
                    assert(!is_del) by {
                        assert(s.subrange(0, i + 1 as int)[i as int] == s[i as int]);
                    }
                }
            }
            i = i + 1;
        }
        proof {
            assert(s.subrange(0, s.len() as int) =~= s);
        }
        let min_time = self.items[m].time;
        proof {
            crate::events::lemma_min_index_is_min(s);
            assert(s[m as int] == self.items@[m as int].deep_view());
            assert(lex_le(s[spec_min_index(s)], s[m as int]));
            assert(lex_le(s[m as int], s[spec_min_index(s)]));
            assert(min_time == s[spec_min_index(s)].time);
        }
        let mut r: Vec<u64> = Vec::new();
        let mut k: usize = 0;
        while k < self.items.len()
            invariant
                0 <= k <= self.items@.len(),
                s == self.view_items(),
                s.len() == self.items@.len(),
                s.len() > 0,
                deliveries == spec_any_delivery(s),
                min_time == s[spec_min_index(s)].time,
                forall|w: int|
                    0 <= w < r@.len() ==> exists|j: int|
                        0 <= j < s.len() && #[trigger] r@[w] == s[j].id && spec_enabled(
                            s,
                            mode,
                            s[j],
                        ),
                forall|j: int|
                    0 <= j < k && spec_enabled(s, mode, #[trigger] s[j]) ==> r@.contains(
                        s[j].id,
                    ),
            decreases self.items@.len() - k,
        {
            proof {
                assert(s[k as int] == self.items@[k as int].deep_view());
            }
            let take = match mode {
                EventOrderingMode::Normal => true,
                EventOrderingMode::MessagesFirst => {
                    if deliveries {
                        match &self.items[k].event {
                            McEvent::MessageReceived { .. } => true,
                            _ => false,
                        }
                    } else {
                        true
                    }
                },
                EventOrderingMode::StrictTime => self.items[k].time == min_time,
            };
            let ghost r0 = r@;
            if take {
                r.push(self.items[k].id);
                proof {
                    assert(r@[r0.len() as int] == s[k as int].id);
                    assert(spec_enabled(s, mode, s[k as int]));
                }
            }
            proof {
                assert forall|j: int|
                    0 <= j < k + 1 && spec_enabled(s, mode, #[trigger] s[j]) implies r@.contains(
                    s[j].id,
                ) by {
                    if j < k {
                        let w = choose|w: int| 0 <= w < r0.len() && r0[w] == s[j].id;
                        assert(r@[w] == s[j].id);
                    } else {
                        assert(take);
                        assert(r@[r@.len() - 1] == s[j].id);
                    }
                }
            }
            k = k + 1;
        }
        proof {
            if r@.len() == 0 {
                assert(spec_enabled(s, mode, s[spec_min_index(s)])) by {
                    if mode is MessagesFirst && spec_any_delivery(s) {
                        let w = choose|w: int|
                            0 <= w < s.len() && spec_is_delivery(#[trigger] s[w]);
                        assert(spec_enabled(s, mode, s[w]));
                        assert(r@.contains(s[w].id));
                    }
                }
                assert(r@.contains(s[spec_min_index(s)].id));
            }
        }
        r
    }
}

} // verus!
