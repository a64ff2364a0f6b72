//! The trace handler: an externally owned log of the user-visible events of
//! a run, recorded in the order they occur along the current path.
//!
//! The log is plain data passed by reference into the node and the network,
//! so exploration frames can snapshot and rewind it; rendering it is left to
//! the surrounding harness.

use vstd::prelude::*;
use crate::message::{Message, MessageV};

verus! {

/// The mathematical value of a [`LogEntry`].
#[verifier::ext_equal]
pub enum LogEntryV {
    /// See [`LogEntry::MessageSent`].
    MessageSent { msg: MessageV, src: Seq<char>, dst: Seq<char> },
    /// See [`LogEntry::LocalMessageSent`].
    LocalMessageSent { msg: MessageV, proc: Seq<char> },
    /// See [`LogEntry::TimerSet`].
    TimerSet { proc: Seq<char>, timer: Seq<char> },
    /// See [`LogEntry::TimerCancelled`].
    TimerCancelled { proc: Seq<char>, timer: Seq<char> },
    /// See [`LogEntry::MessageDropped`].
    MessageDropped { msg: MessageV, src: Seq<char>, dst: Seq<char> },
    /// See [`LogEntry::MessageDuplicated`].
    MessageDuplicated { msg: MessageV, src: Seq<char>, dst: Seq<char> },
    /// See [`LogEntry::MessageCorrupted`].
    MessageCorrupted { msg: MessageV, src: Seq<char>, dst: Seq<char> },
}

/// A user-visible event of a run.
#[derive(Debug)]
pub enum LogEntry {
    /// A process sent a message.
    MessageSent {
        /// The message.
        msg: Message,
        /// Sending process.
        src: String,
        /// Destination process.
        dst: String,
    },
    /// A process emitted a message to the local user.
    LocalMessageSent {
        /// The message.
        msg: Message,
        /// The emitting process.
        proc: String,
    },
    /// A process set a timer.
    TimerSet {
        /// The owning process.
        proc: String,
        /// Timer name.
        timer: String,
    },
    /// A process cancelled a timer.
    TimerCancelled {
        /// The owning process.
        proc: String,
        /// Timer name.
        timer: String,
    },
    /// The network dropped a message.
    MessageDropped {
        /// The message.
        msg: Message,
        /// Sending process.
        src: String,
        /// Destination process.
        dst: String,
    },
    /// The network duplicated a message.
    MessageDuplicated {
        /// The message.
        msg: Message,
        /// Sending process.
        src: String,
        /// Destination process.
        dst: String,
    },
    /// The network corrupted the payload of a message.
    MessageCorrupted {
        /// The message.
        msg: Message,
        /// Sending process.
        src: String,
        /// Destination process.
        dst: String,
    },
}

impl DeepView for LogEntry {
    type V = LogEntryV;

    open spec fn deep_view(&self) -> LogEntryV {
        match self {
            LogEntry::MessageSent { msg, src, dst } => LogEntryV::MessageSent {
                msg: msg.deep_view(),
                src: src@,
                dst: dst@,
            },
            LogEntry::LocalMessageSent { msg, proc } => LogEntryV::LocalMessageSent {
                msg: msg.deep_view(),
                proc: proc@,
            },
            LogEntry::TimerSet { proc, timer } => LogEntryV::TimerSet {
                proc: proc@,
                timer: timer@,
            },
            LogEntry::TimerCancelled { proc, timer } => LogEntryV::TimerCancelled {
                proc: proc@,
                timer: timer@,
            },
            LogEntry::MessageDropped { msg, src, dst } => LogEntryV::MessageDropped {
                msg: msg.deep_view(),
                src: src@,
                dst: dst@,
            },
            LogEntry::MessageDuplicated { msg, src, dst } => LogEntryV::MessageDuplicated {
                msg: msg.deep_view(),
                src: src@,
                dst: dst@,
            },
            LogEntry::MessageCorrupted { msg, src, dst } => LogEntryV::MessageCorrupted {
                msg: msg.deep_view(),
                src: src@,
                dst: dst@,
            },
        }
    }
}

impl Clone for LogEntry {
    /// Cloning preserves the entry value.
    fn clone(&self) -> (r: Self)
        ensures
            r.deep_view() == self.deep_view(),
    {
        match self {
            LogEntry::MessageSent { msg, src, dst } => LogEntry::MessageSent {
                msg: msg.clone(),
                src: src.clone(),
                dst: dst.clone(),
            },
            LogEntry::LocalMessageSent { msg, proc } => LogEntry::LocalMessageSent {
                msg: msg.clone(),
                proc: proc.clone(),
            },
            LogEntry::TimerSet { proc, timer } => LogEntry::TimerSet {
                proc: proc.clone(),
                timer: timer.clone(),
            },
            LogEntry::TimerCancelled { proc, timer } => LogEntry::TimerCancelled {
                proc: proc.clone(),
                timer: timer.clone(),
            },
            LogEntry::MessageDropped { msg, src, dst } => LogEntry::MessageDropped {
                msg: msg.clone(),
                src: src.clone(),
                dst: dst.clone(),
            },
            LogEntry::MessageDuplicated { msg, src, dst } => LogEntry::MessageDuplicated {
                msg: msg.clone(),
                src: src.clone(),
                dst: dst.clone(),
            },
            LogEntry::MessageCorrupted { msg, src, dst } => LogEntry::MessageCorrupted {
                msg: msg.clone(),
                src: src.clone(),
                dst: dst.clone(),
            },
        }
    }
}


/// Clones a trace, preserving its value.
pub fn clone_trace(v: &Vec<LogEntry>) -> (r: Vec<LogEntry>)
    ensures
        r.deep_view() == v.deep_view(),
{
    let mut r: Vec<LogEntry> = Vec::new();
    let mut i: usize = 0;
    while i < v.len()
        invariant
            0 <= i <= v.len(),
            r@.len() == i,
            forall|j: int| 0 <= j < i ==> r.deep_view()[j] == v.deep_view()[j],
        decreases v.len() - i,
    {
        let x = v[i].clone();
        proof {
            assert(v.deep_view()[i as int] == v@[i as int].deep_view());
        }
        r.push(x);
        proof {
            assert forall|j: int| 0 <= j < i + 1 implies r.deep_view()[j] == v.deep_view()[j] by {
                assert(r.deep_view()[j] == r@[j].deep_view());
            }
        }
        i = i + 1;
    }
    proof {
        assert(r.deep_view() =~= v.deep_view());
    }
    r
}

} // verus!
