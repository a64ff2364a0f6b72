//! Model checking: exhaustive exploration of the reachable system states.
//!
//! The checker owns a root system and a strategy configuration. A search
//! repeatedly takes a state, evaluates the invariants, prunes and the goal,
//! asks the pending-event store which events the ordering mode enables,
//! and applies each enabled event to a clone of the state. Visited states
//! are deduplicated through their canonical byte keys, so every reachable
//! state is explored at most once; a violated invariant, a failed process
//! callback, or a terminal state without the goal ends the search with the
//! trace of the offending path.

use vstd::prelude::*;
use crate::events::{EventOrderingMode, PendingEvents};
use crate::logger::{clone_trace, LogEntry};
use crate::message::MessageV;
use crate::node::{sat_add, spec_has_proc, spec_proc_index, find_proc, lemma_proc_index, McNodeV, ProcessSlotV};
use crate::node::McNodeState;
use crate::state::{bytes_eq, state_key};
use crate::system::{find_node, lemma_node_index, spec_has_node, spec_node_index, System};

verus! {

/// The search order over the transition graph.
#[derive(Clone, Copy, PartialEq, Eq, Structural, Debug)]
pub enum SearchStrategy {
    /// Depth first: children are taken before siblings.
    Dfs,
    /// Breadth first: states are taken level by level.
    Bfs,
}

/// A reason to abandon a subtree without considering it a failure.
pub enum McPrune {
    /// Abandon once the total number of sent messages passes the limit.
    SentMessagesLimit(u64),
}

/// A predicate that must hold of every explored state.
pub enum McInvariant {
    /// The exploration depth may not pass the limit.
    StateDepth(u64),
    /// Every message in the local outbox of the process carries one of the
    /// allowed payloads.
    ReceivedMessages {
        /// Node the process runs on.
        node: String,
        /// Name of the process.
        proc: String,
        /// The allowed payloads.
        allowed_data: Vec<String>,
    },
}

/// A condition under which a branch counts as successful.
pub enum McGoal {
    /// The process has emitted at least `count` local messages.
    GotNLocalMessages {
        /// Node the process runs on.
        node: String,
        /// Name of the process.
        proc: String,
        /// The number of local messages asked for.
        count: u64,
    },
}

/// The configuration of a search: prunes, invariants, the goal, the event
/// ordering mode, and the search budget.
pub struct StrategyConfig {
    /// Subtrees abandoned without failure.
    pub prunes: Vec<McPrune>,
    /// Predicates evaluated at every state.
    pub invariants: Vec<McInvariant>,
    /// The success condition of a branch, if any.
    pub goal: Option<McGoal>,
    /// Which pending events may be selected next.
    pub ordering: EventOrderingMode,
    /// The search order over the transition graph.
    pub strategy: SearchStrategy,
    /// The greatest number of states the search may take off its store.
    pub steps_limit: u64,
}

impl StrategyConfig {
    /// A configuration with no predicates, full interleaving, and the
    /// given search budget.
    pub fn new(steps_limit: u64) -> (r: StrategyConfig)
        ensures
            r.prunes@.len() == 0,
            r.invariants@.len() == 0,
            r.goal is None,
            r.ordering == EventOrderingMode::Normal,
            r.strategy == SearchStrategy::Dfs,
            r.steps_limit == steps_limit,
    {
        StrategyConfig {
            prunes: Vec::new(),
            invariants: Vec::new(),
            goal: Option::None,
            ordering: EventOrderingMode::Normal,
            strategy: SearchStrategy::Dfs,
            steps_limit,
        }
    }
}

/// The error a search ends with: what went wrong and the trace of the
/// offending path.
#[derive(Debug)]
pub struct McError {
    /// What went wrong.
    pub message: String,
    /// The user-visible events along the offending path.
    pub trace: Vec<LogEntry>,
}

/// What a successful search saw.
#[derive(Clone, Copy, PartialEq, Eq, Structural, Debug)]
pub struct McStats {
    /// States taken off the search stack.
    pub explored: u64,
    /// Subtrees abandoned by a prune.
    pub pruned: u64,
    /// Branches that reached the goal.
    pub goals_reached: u64,
}

/// The total number of messages sent by the processes of the given slots,
/// saturating.
pub open spec fn spec_sent_of_slots(ps: Seq<ProcessSlotV>) -> u64
    decreases ps.len(),
{
    if ps.len() == 0 {
        0
    } else {
        sat_add(spec_sent_of_slots(ps.drop_last()), ps.last().entry.sent_message_count)
    }
}

/// The total number of messages sent anywhere in the system, saturating.
pub open spec fn spec_sent_total(ns: Seq<McNodeV>) -> u64
    decreases ns.len(),
{
    if ns.len() == 0 {
        0
    } else {
        sat_add(spec_sent_total(ns.drop_last()), spec_sent_of_slots(ns.last().processes))
    }
}

/// Whether a payload occurs in the allowed list.
pub open spec fn spec_data_allowed(allowed: Seq<Seq<char>>, d: Seq<char>) -> bool {
    exists|i: int| 0 <= i < allowed.len() && allowed[i] == d
}

/// Whether every message of an outbox carries an allowed payload.
pub open spec fn spec_outbox_ok(outbox: Seq<MessageV>, allowed: Seq<Seq<char>>) -> bool {
    forall|i: int| 0 <= i < outbox.len() ==> spec_data_allowed(allowed, (#[trigger] outbox[i]).data)
}

/// The local outbox of the process named `proc` on node `node`, taken from
/// the first matching node and slot.
pub open spec fn spec_outbox_of(ns: Seq<McNodeV>, node: Seq<char>, proc: Seq<char>) -> Seq<
    MessageV,
> {
    let n = ns[spec_node_index(ns, node)];
    n.processes[spec_proc_index(n.processes, proc)].entry.local_outbox
}

/// Whether the process exists at all.
pub open spec fn spec_proc_present(ns: Seq<McNodeV>, node: Seq<char>, proc: Seq<char>) -> bool {
    spec_has_node(ns, node) && spec_has_proc(ns[spec_node_index(ns, node)].processes, proc)
}

/// The total number of messages sent anywhere in the system, saturating.
pub fn total_sent_messages(sys: &System) -> (r: u64)
    ensures
        r == spec_sent_total(sys.nodes.deep_view()),
{
    let ghost nsv = sys.nodes.deep_view();
    let mut total: u64 = 0;
    let mut i: usize = 0;
    while i < sys.nodes.len()
        invariant
            0 <= i <= sys.nodes@.len(),
            nsv == sys.nodes.deep_view(),
            nsv.len() == sys.nodes@.len(),
            total == spec_sent_total(nsv.subrange(0, i as int)),
        decreases sys.nodes@.len() - i,
    {
        proof {
            assert(nsv[i as int] == sys.nodes@[i as int].deep_view());
        }
        let node = &sys.nodes[i];
        let ghost psv = node.processes.deep_view();
        let mut node_total: u64 = 0;
        let mut j: usize = 0;
        while j < node.processes.len()
            invariant
                0 <= j <= node.processes@.len(),
                psv == node.processes.deep_view(),
                psv.len() == node.processes@.len(),
                node_total == spec_sent_of_slots(psv.subrange(0, j as int)),
            decreases node.processes@.len() - j,
        {
            proof {
                assert(psv[j as int] == node.processes@[j as int].deep_view());
                assert(psv.subrange(0, j + 1 as int).drop_last() =~= psv.subrange(0, j as int));
                assert(psv.subrange(0, j + 1 as int).last() == psv[j as int]);
            }
            let c = node.processes[j].entry.sent_message_count;
            if node_total <= u64::MAX - c {
                node_total = node_total + c;
            } else {
                node_total = u64::MAX;
            }
            j = j + 1;
        }
        proof {
            assert(psv.subrange(0, psv.len() as int) =~= psv);
            assert(nsv.subrange(0, i + 1 as int).drop_last() =~= nsv.subrange(0, i as int));
            assert(nsv.subrange(0, i + 1 as int).last() == nsv[i as int]);
        }
        if total <= u64::MAX - node_total {
            total = total + node_total;
        } else {
            total = u64::MAX;
        }
        i = i + 1;
    }
    proof {
        assert(nsv.subrange(0, nsv.len() as int) =~= nsv);
    }
    total
}

/// The size of the local outbox of the process, or `None` when the node or
/// the process does not exist.
pub fn outbox_count(sys: &System, node: &String, proc: &String) -> (r: Option<usize>)
    ensures
        r is Some <==> spec_proc_present(sys.nodes.deep_view(), node@, proc@),
        r matches Some(c) ==> c == spec_outbox_of(sys.nodes.deep_view(), node@, proc@).len(),
{
    let ghost nsv = sys.nodes.deep_view();
    let nidx = match find_node(&sys.nodes, node) {
        Option::Some(i) => i,
        Option::None => {
            proof {
                if spec_has_node(nsv, node@) {
                    let w = choose|w: int| 0 <= w < nsv.len() && nsv[w].name == node@;
                    assert(sys.nodes@[w].deep_view() == nsv[w]);
                }
            }
            return Option::None;
        },
    };
    proof {
        assert(nsv[nidx as int] == sys.nodes@[nidx as int].deep_view());
        assert(spec_has_node(nsv, node@));
        lemma_node_index(nsv, node@);
        assert forall|j: int| 0 <= j < nidx implies nsv[j].name != node@ by {
            assert(nsv[j] == sys.nodes@[j].deep_view());
        }
        assert(spec_node_index(nsv, node@) == nidx);
    }
    let n = &sys.nodes[nidx];
    let pidx = match find_proc(&n.processes, proc) {
        Option::Some(i) => i,
        Option::None => {
            return Option::None;
        },
    };
    proof {
        lemma_proc_index(n.processes.deep_view(), proc@);
        assert(n.processes.deep_view()[pidx as int] == n.processes@[pidx as int].deep_view());
    }
    let c = n.processes[pidx].entry.local_outbox.len();
    proof {
        assert(n.processes@[pidx as int].entry.local_outbox.deep_view().len() == n.processes@[
            pidx as int
        ].entry.local_outbox@.len());
    }
    Option::Some(c)
}

/// Whether every local message the process has emitted carries an allowed
/// payload; `false` when the node or process does not exist.
pub fn outbox_data_allowed(
    sys: &System,
    node: &String,
    proc: &String,
    allowed: &Vec<String>,
) -> (r: bool)
    ensures
        spec_proc_present(sys.nodes.deep_view(), node@, proc@) ==> r == spec_outbox_ok(
            spec_outbox_of(sys.nodes.deep_view(), node@, proc@),
            allowed.deep_view(),
        ),
        !spec_proc_present(sys.nodes.deep_view(), node@, proc@) ==> r == false,
{
    let ghost nsv = sys.nodes.deep_view();
    let nidx = match find_node(&sys.nodes, node) {
        Option::Some(i) => i,
        Option::None => {
            proof {
                if spec_has_node(nsv, node@) {
                    let w = choose|w: int| 0 <= w < nsv.len() && nsv[w].name == node@;
                    assert(sys.nodes@[w].deep_view() == nsv[w]);
                }
            }
            return false;
        },
    };
    proof {
        assert(nsv[nidx as int] == sys.nodes@[nidx as int].deep_view());
        assert(spec_has_node(nsv, node@));
        lemma_node_index(nsv, node@);
        assert forall|j: int| 0 <= j < nidx implies nsv[j].name != node@ by {
            assert(nsv[j] == sys.nodes@[j].deep_view());
        }
        assert(spec_node_index(nsv, node@) == nidx);
    }
    let n = &sys.nodes[nidx];
    let pidx = match find_proc(&n.processes, proc) {
        Option::Some(i) => i,
        Option::None => {
            return false;
        },
    };
    proof {
        lemma_proc_index(n.processes.deep_view(), proc@);
        assert(n.processes.deep_view()[pidx as int] == n.processes@[pidx as int].deep_view());
    }
    let outbox = &n.processes[pidx].entry.local_outbox;
    let ghost obv = outbox.deep_view();
    let ghost alv = allowed.deep_view();
    proof {
        assert(nsv[nidx as int].processes == n.processes.deep_view());
        assert(obv == spec_outbox_of(nsv, node@, proc@));
        assert(spec_proc_present(nsv, node@, proc@));
    }
    let mut i: usize = 0;
    while i < outbox.len()
        invariant
            0 <= i <= outbox@.len(),
            nsv == sys.nodes.deep_view(),
            obv == spec_outbox_of(nsv, node@, proc@),
            spec_proc_present(nsv, node@, proc@),
            alv == allowed.deep_view(),
            obv == outbox.deep_view(),
            obv.len() == outbox@.len(),
            alv == allowed.deep_view(),
            alv.len() == allowed@.len(),
            forall|k: int| 0 <= k < i ==> spec_data_allowed(alv, (#[trigger] obv[k]).data),
        decreases outbox@.len() - i,
    {
        proof {
            assert(obv[i as int] == outbox@[i as int].deep_view());
        }
        let m = &outbox[i];
        let mut hit: bool = false;
        let mut j: usize = 0;
        while j < allowed.len()
            invariant
                0 <= j <= allowed@.len(),
                alv == allowed.deep_view(),
                alv.len() == allowed@.len(),
                obv == outbox.deep_view(),
                obv.len() == outbox@.len(),
                0 <= i < outbox@.len(),
                obv[i as int] == outbox@[i as int].deep_view(),
                *m == outbox@[i as int],
                hit ==> spec_data_allowed(alv, obv[i as int].data),
                !hit ==> forall|w: int| 0 <= w < j ==> alv[w] != obv[i as int].data,
            decreases allowed@.len() - j,
        {
            proof {
                assert(alv[j as int] == allowed@[j as int]@);
            }
            if m.data == allowed[j] {
                proof {
                    assert(alv[j as int] == obv[i as int].data);
                }
                hit = true;
            }
            j = j + 1;
        }
        if !hit {
            proof {
                assert(!spec_data_allowed(alv, obv[i as int].data)) by {
                    if spec_data_allowed(alv, obv[i as int].data) {
                        let w = choose|w: int|
                            0 <= w < alv.len() && alv[w] == obv[i as int].data;
                    }
                }
                assert(obv == spec_outbox_of(nsv, node@, proc@));
                assert(!spec_outbox_ok(obv, alv));
            }
            return false;
        }
        i = i + 1;
    }
    true
}

/// Whether an invariant of the configuration is violated by the given
/// nodes: only the received-messages invariant can fail on its own, and it
/// fails when the process is missing or its outbox holds a payload outside
/// the allowed list.
pub open spec fn spec_invariant_fails(nodes: Seq<McNodeV>, inv: McInvariant) -> bool {
    match inv {
        McInvariant::StateDepth(limit) => false,
        McInvariant::ReceivedMessages { node, proc, allowed_data } => !spec_proc_present(
            nodes,
            node@,
            proc@,
        ) || !spec_outbox_ok(spec_outbox_of(nodes, node@, proc@), allowed_data.deep_view()),
    }
}

/// A hashable, restorable snapshot of a reachable system state: the node
/// snapshots, the pending events, the logical time, the trace of the path
/// that reached it, and its depth.
struct McState {
    /// Snapshot of every node, in node order.
    node_states: Vec<McNodeState>,
    /// The pending events.
    events: PendingEvents,
    /// The logical time.
    time: u64,
    /// The user-visible events along the path from the root.
    trace: Vec<LogEntry>,
    /// Steps from the root.
    depth: u64,
}

/// Whether a key occurs among the visited keys.
fn visited_contains(visited: &Vec<Vec<u8>>, key: &Vec<u8>) -> (r: bool)
    ensures
        r == exists|j: int| 0 <= j < visited@.len() && (#[trigger] visited@[j])@ == key@,
{
    let mut i: usize = 0;
    while i < visited.len()
        invariant
            0 <= i <= visited@.len(),
            forall|j: int| 0 <= j < i ==> (#[trigger] visited@[j])@ != key@,
        decreases visited@.len() - i,
    {
        if bytes_eq(&visited[i], key) {
            return true;
        }
        i = i + 1;
    }
    false
}

/// The model checker: a root state and a strategy over the transition
/// graph it spans.
pub struct ModelChecker {
    /// The root state the search starts from.
    pub system: System,
    /// The strategy configuration.
    pub config: StrategyConfig,
}

impl ModelChecker {
    /// Creates a checker over a copy of the given system.
    pub fn new(system: &System, config: StrategyConfig) -> (r: ModelChecker)
        ensures
            system.wf_core() ==> r.system.wf_core(),
            r.config == config,
    {
        ModelChecker { system: system.clone(), config }
    }

    /// Runs a search from the root, depth first or breadth first as
    /// configured. States are snapshotted
    /// through the processes' snapshot surface and restored into a single
    /// working system before each transition, so a process that drops
    /// state between calls is caught. Every reachable state is visited at
    /// most once: states are deduplicated by their canonical keys. The
    /// search ends with the statistics when every branch reaches the goal,
    /// is pruned, or (with no goal configured) terminates; it ends with an
    /// error carrying the offending path's trace when an invariant fails,
    /// a process callback fails, a branch terminates without reaching a
    /// configured goal, or the search budget runs out.
    pub fn run(&self) -> (r: Result<McStats, McError>)
        requires
            self.system.wf_core(),
        ensures
            r matches Ok(stats) ==> stats.explored >= 1,
            self.config.steps_limit == 0 && !(exists|i: int|
                0 <= i < self.config.invariants@.len() && spec_invariant_fails(
                    self.system.nodes.deep_view(),
                    #[trigger] self.config.invariants@[i],
                )) ==> (r matches Err(e) && e.message@ == "search budget exhausted"@),
            (exists|i: int|
                0 <= i < self.config.invariants@.len() && spec_invariant_fails(
                    self.system.nodes.deep_view(),
                    #[trigger] self.config.invariants@[i],
                )) ==> (r matches Err(e) && e.message@ == "unexpected local message"@),
    {
        // The root is held against the invariants before the search
        // starts, so a violated root is reported whatever the budget.
        let mut ri: usize = 0;
        while ri < self.config.invariants.len()
            invariant
                0 <= ri <= self.config.invariants@.len(),
                forall|i: int| 0 <= i < ri ==> !spec_invariant_fails(
                    self.system.nodes.deep_view(),
                    #[trigger] self.config.invariants@[i],
                ),
            decreases self.config.invariants@.len() - ri,
        {
            match &self.config.invariants[ri] {
                McInvariant::StateDepth(limit) => {},
                McInvariant::ReceivedMessages { node, proc, allowed_data } => {
                    if !outbox_data_allowed(&self.system, node, proc, allowed_data) {
                        return Result::Err(McError {
                            message: "unexpected local message".to_owned(),
                            trace: clone_trace(&self.system.trace),
                        });
                    }
                },
            }
            ri = ri + 1;
        }
        let mut stats = McStats { explored: 0, pruned: 0, goals_reached: 0 };
        let mut working = self.system.clone();
        // The model checker never samples: deliveries honor their
        // envelopes and no callback seed is drawn.
        working.mc_mode = true;
        let mut stack: Vec<McState> = Vec::new();
        let mut visited: Vec<Vec<u8>> = Vec::new();
        visited.push(state_key(&working));
        stack.push(McState {
            node_states: working.node_states(),
            events: working.events.clone(),
            time: working.time,
            trace: clone_trace(&working.trace),
            depth: 0,
        });
        let mut budget = self.config.steps_limit;
        while stack.len() > 0
            invariant
                working.wf_core(),
                forall|i: int| 0 <= i < stack@.len() ==> (#[trigger] stack@[i]).events.wf(),
                stats.explored >= 1 || stack@.len() > 0,
                budget <= self.config.steps_limit,
                self.config.steps_limit == 0 ==> stack@.len() > 0,
                forall|i: int| 0 <= i < self.config.invariants@.len() ==> !spec_invariant_fails(
                    self.system.nodes.deep_view(),
                    #[trigger] self.config.invariants@[i],
                ),
            decreases budget,
        {
            if budget == 0 {
                return Result::Err(McError {
                    message: "search budget exhausted".to_owned(),
                    trace: Vec::new(),
                });
            }
            budget = budget - 1;
            let frame = match self.config.strategy {
                SearchStrategy::Dfs => {
                    match stack.pop() {
                        Option::Some(f) => f,
                        Option::None => {
                            // Unreachable: the store is nonempty here.
                            proof {
                                assert(false);
                            }
                            return Result::Ok(stats);
                        },
                    }
                },
                SearchStrategy::Bfs => {
                    let ghost s0 = stack@;
                    let f = stack.remove(0);
                    proof {
                        assert forall|i: int| 0 <= i < stack@.len() implies (#[trigger] stack@[
                            i
                        ]).events.wf() by {
                            assert(stack@[i] == s0[i + 1]);
                        }
                    }
                    f
                },
            };
            if stats.explored < u64::MAX {
                stats.explored = stats.explored + 1;
            }
            // Restore the frame into the working system.
            working.set_node_states(&frame.node_states);
            working.events = frame.events.clone();
            working.time = frame.time;
            working.trace = clone_trace(&frame.trace);
            proof {
                assert(working.wf_core());
            }
            // Invariants first: a violation aborts with the path's trace.
            let mut vi: usize = 0;
            while vi < self.config.invariants.len()
                invariant
                    working.wf_core(),
                    self.config.steps_limit > 0,
                    forall|i: int| 0 <= i < self.config.invariants@.len()
                        ==> !spec_invariant_fails(
                        self.system.nodes.deep_view(),
                        #[trigger] self.config.invariants@[i],
                    ),
                decreases self.config.invariants@.len() - vi,
            {
                match &self.config.invariants[vi] {
                    McInvariant::StateDepth(limit) => {
                        if frame.depth > *limit {
                            return Result::Err(McError {
                                message: "state depth exceeded".to_owned(),
                                trace: clone_trace(&working.trace),
                            });
                        }
                    },
                    McInvariant::ReceivedMessages { node, proc, allowed_data } => {
                        if !outbox_data_allowed(&working, node, proc, allowed_data) {
                            return Result::Err(McError {
                                message: "unexpected local message".to_owned(),
                                trace: clone_trace(&working.trace),
                            });
                        }
                    },
                }
                vi = vi + 1;
            }
            // Prunes: the subtree is abandoned, not failed.
            let mut pruned: bool = false;
            let mut pi: usize = 0;
            while pi < self.config.prunes.len()
                invariant
                    working.wf_core(),
                    self.config.steps_limit > 0,
                decreases self.config.prunes@.len() - pi,
            {
                match &self.config.prunes[pi] {
                    McPrune::SentMessagesLimit(limit) => {
                        if total_sent_messages(&working) > *limit {
                            pruned = true;
                        }
                    },
                }
                pi = pi + 1;
            }
            if pruned {
                if stats.pruned < u64::MAX {
                    stats.pruned = stats.pruned + 1;
                }
                continue;
            }
            // Goal: this branch is done successfully.
            let goal_reached = match &self.config.goal {
                Option::Some(McGoal::GotNLocalMessages { node, proc, count }) => {
                    match outbox_count(&working, node, proc) {
                        Option::Some(c) => c as u64 >= *count,
                        Option::None => false,
                    }
                },
                Option::None => false,
            };
            if goal_reached {
                if stats.goals_reached < u64::MAX {
                    stats.goals_reached = stats.goals_reached + 1;
                }
                continue;
            }
            let enabled = working.events.available(self.config.ordering);
            if enabled.len() == 0 {
                if self.config.goal.is_some() {
                    // A branch that terminates without the goal and without
                    // a prune is a liveness violation.
                    return Result::Err(McError {
                        message: "terminal state does not reach the goal".to_owned(),
                        trace: clone_trace(&working.trace),
                    });
                }
                continue;
            }
            let mut ei: usize = 0;
            while ei < enabled.len()
                invariant
                    working.wf_core(),
                    self.config.steps_limit > 0,
                    forall|i: int| 0 <= i < self.config.invariants@.len()
                        ==> !spec_invariant_fails(
                        self.system.nodes.deep_view(),
                        #[trigger] self.config.invariants@[i],
                    ),
                    frame.events.wf(),
                    forall|i: int| 0 <= i < stack@.len() ==> (#[trigger] stack@[
                        i
                    ]).events.wf(),
                decreases enabled@.len() - ei,
            {
                // Restore the frame, then take the transition.
                working.set_node_states(&frame.node_states);
                working.events = frame.events.clone();
                working.time = frame.time;
                working.trace = clone_trace(&frame.trace);
                match working.apply_event_by_id(enabled[ei]) {
                    Result::Err(e) => {
                        return Result::Err(McError {
                            message: e,
                            trace: clone_trace(&working.trace),
                        });
                    },
                    Result::Ok(applied) => {},
                }
                let key = state_key(&working);
                if !visited_contains(&visited, &key) {
                    visited.push(key);
                    if frame.depth < u64::MAX {
                        let ghost oldstack = stack@;
                        stack.push(McState {
                            node_states: working.node_states(),
                            events: working.events.clone(),
                            time: working.time,
                            trace: clone_trace(&working.trace),
                            depth: frame.depth + 1,
                        });
                        proof {
                            assert forall|i: int| 0 <= i < stack@.len() implies (#[trigger] stack@[
                                i
                            ]).events.wf() by {
                                if i < oldstack.len() {
                                    assert(stack@[i] == oldstack[i]);
                                }
                            }
                        }
                    }
                }
                ei = ei + 1;
            }
        }
        Result::Ok(stats)
    }
}

} // verus!
