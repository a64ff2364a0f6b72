//! A deterministic simulator and model checker for message-passing
//! distributed algorithms.
//!
//! A system is modelled as a set of named processes, each bound to a node;
//! nodes are linked by a network that may delay, drop, duplicate or corrupt
//! messages. Execution is a discrete-event simulation: events (message
//! deliveries and timer fires) are processed in `(time, id)` order, each one
//! invoking a callback on the owning process, whose queued actions produce
//! new events. A single seeded generator drives every stochastic choice, so
//! a run is a pure function of the seed and the script.
//!
//! Model checking replaces the clock-ordered run with an exhaustive search:
//! the entire system state is snapshotted, the set of legal next events is
//! enumerated under a configurable ordering mode, and visited states are
//! deduplicated through a canonical byte encoding and its hash. Invariants,
//! goals and prunes are evaluated along every path.

pub mod context;
pub mod events;
pub mod logger;
pub mod mc;
pub mod message;
pub mod network;
pub mod node;
pub mod process;
pub mod rng;
pub mod state;
pub mod system;
pub mod test;

pub use context::Context;
pub use events::{EventOrderingMode, McEvent, PendingEvents};
pub use logger::LogEntry;
pub use mc::{McError, McGoal, McInvariant, McPrune, McStats, ModelChecker, SearchStrategy, StrategyConfig};
pub use message::Message;
pub use network::Network;
pub use node::{
    EventLogEntry, McNode, McNodeState, ProcessEntry, ProcessEntryState, ProcessEvent,
    TimerBehavior,
};
pub use process::ProcessImpl;
pub use system::System;
pub use test::{TestResult, TestSuite};
