use anysystem::mc::{McGoal, McInvariant, McPrune, ModelChecker, StrategyConfig};
use anysystem::message::Message;
use anysystem::process::ProcessImpl;
use anysystem::system::System;

fn build_mc_system(server: ProcessImpl) -> System {
    let mut sys = System::new(12345);
    sys.add_node("client-node");
    sys.add_node("server-node");
    assert!(sys.add_process(
        "client",
        ProcessImpl::RetryPingClient { server: "server".to_string(), ping: None },
        "client-node"
    ));
    assert!(sys.add_process("server", server, "server-node"));
    sys.send_local_message("client-node", "client", Message::new("PING", "0"))
        .unwrap();
    sys
}

fn ping_pong_config() -> StrategyConfig {
    let mut config = StrategyConfig::new(200000);
    config.prunes.push(McPrune::SentMessagesLimit(4));
    config.goal = Some(McGoal::GotNLocalMessages {
        node: "client-node".to_string(),
        proc: "client".to_string(),
        count: 1,
    });
    config.invariants.push(McInvariant::ReceivedMessages {
        node: "client-node".to_string(),
        proc: "client".to_string(),
        allowed_data: vec!["0".to_string()],
    });
    config.invariants.push(McInvariant::StateDepth(20));
    config
}

#[test]
fn mc_exhaustive_ping_pong() {
    let sys = build_mc_system(ProcessImpl::PingServer);
    let checker = ModelChecker::new(&sys, ping_pong_config());
    let stats = checker.run().expect("every branch must reach the goal or be pruned");
    assert!(stats.explored >= 2);
    assert!(stats.goals_reached >= 1);
}

#[test]
fn mc_detects_a_process_that_drops_state() {
    let sys = build_mc_system(ProcessImpl::CountingServer { count: 0, forgetful: true });
    let checker = ModelChecker::new(&sys, ping_pong_config());
    let err = checker
        .run()
        .expect_err("the forgetful server must eventually answer with a stale payload");
    assert_eq!(err.message, "unexpected local message");
    assert!(err.trace.len() >= 2);
}

#[test]
fn mc_honest_counting_server_stays_clean_to_one_ping() {
    // The honest variant restores its count with every snapshot, so a
    // single delivered ping always answers with the payload it carried.
    let mut sys = System::new(1);
    sys.add_node("client-node");
    sys.add_node("server-node");
    assert!(sys.add_process(
        "client",
        ProcessImpl::BasicPingClient { server: "server".to_string() },
        "client-node"
    ));
    assert!(sys.add_process(
        "server",
        ProcessImpl::CountingServer { count: 0, forgetful: false },
        "server-node"
    ));
    sys.send_local_message("client-node", "client", Message::new("PING", "0"))
        .unwrap();
    let mut config = StrategyConfig::new(100000);
    config.goal = Some(McGoal::GotNLocalMessages {
        node: "client-node".to_string(),
        proc: "client".to_string(),
        count: 1,
    });
    config.invariants.push(McInvariant::ReceivedMessages {
        node: "client-node".to_string(),
        proc: "client".to_string(),
        allowed_data: vec!["0".to_string()],
    });
    config.invariants.push(McInvariant::StateDepth(20));
    let checker = ModelChecker::new(&sys, config);
    let stats = checker.run().expect("one lossless ping must reach its goal everywhere");
    assert!(stats.goals_reached >= 1);
}

#[test]
fn mc_budget_exhaustion_is_reported() {
    let sys = build_mc_system(ProcessImpl::PingServer);
    let mut config = ping_pong_config();
    config.steps_limit = 1;
    let checker = ModelChecker::new(&sys, config);
    let err = checker.run().expect_err("a one-state budget cannot finish");
    assert_eq!(err.message, "search budget exhausted");
}

#[test]
fn mc_depth_invariant_fires() {
    let sys = build_mc_system(ProcessImpl::PingServer);
    let mut config = StrategyConfig::new(200000);
    config.invariants.push(McInvariant::StateDepth(0));
    config.goal = Some(McGoal::GotNLocalMessages {
        node: "client-node".to_string(),
        proc: "client".to_string(),
        count: 1,
    });
    let checker = ModelChecker::new(&sys, config);
    let err = checker.run().expect_err("depth zero must be exceeded");
    assert_eq!(err.message, "state depth exceeded");
}

#[test]
fn mc_messages_first_ordering_reaches_the_goal() {
    let mut config = ping_pong_config();
    config.ordering = anysystem::events::EventOrderingMode::MessagesFirst;
    let sys = build_mc_system(ProcessImpl::PingServer);
    let checker = ModelChecker::new(&sys, config);
    let stats = checker.run().expect("delivering messages before timers reaches the goal");
    assert!(stats.goals_reached >= 1);
}

#[test]
fn mc_strict_time_ordering_reaches_the_goal() {
    let mut config = ping_pong_config();
    config.ordering = anysystem::events::EventOrderingMode::StrictTime;
    let sys = build_mc_system(ProcessImpl::PingServer);
    let checker = ModelChecker::new(&sys, config);
    let stats = checker.run().expect("time-ordered exploration reaches the goal");
    assert!(stats.goals_reached >= 1);
}

#[test]
fn mc_terminal_state_without_goal_is_a_liveness_violation() {
    let mut sys = System::new(4);
    sys.add_node("client-node");
    assert!(sys.add_process(
        "client",
        ProcessImpl::BasicPingClient { server: "client".to_string() },
        "client-node"
    ));
    let mut config = StrategyConfig::new(1000);
    config.goal = Some(McGoal::GotNLocalMessages {
        node: "client-node".to_string(),
        proc: "client".to_string(),
        count: 1,
    });
    let checker = ModelChecker::new(&sys, config);
    let err = checker.run().expect_err("an empty queue cannot reach the goal");
    assert_eq!(err.message, "terminal state does not reach the goal");
}

#[test]
fn mc_breadth_first_agrees_on_the_verdict() {
    let mut config = ping_pong_config();
    config.strategy = anysystem::mc::SearchStrategy::Bfs;
    let sys = build_mc_system(ProcessImpl::PingServer);
    let checker = ModelChecker::new(&sys, config);
    let stats = checker.run().expect("breadth-first search reaches the goal too");
    assert!(stats.goals_reached >= 1);

    let mut config = ping_pong_config();
    config.strategy = anysystem::mc::SearchStrategy::Bfs;
    let sys = build_mc_system(ProcessImpl::CountingServer { count: 0, forgetful: true });
    let checker = ModelChecker::new(&sys, config);
    let err = checker.run().expect_err("breadth-first search finds the stale answer too");
    assert_eq!(err.message, "unexpected local message");
}

#[test]
fn mc_never_samples_the_network() {
    // Even with lossy network settings, the model checker honors the
    // delivery envelopes instead of sampling, so two runs agree exactly
    // and the goal is reached without stochastic drops.
    let mut sys = build_mc_system(ProcessImpl::PingServer);
    sys.net.set_drop_rate(50);
    sys.net.set_dup_rate(50);
    sys.net.set_corrupt_rate(50);
    sys.net.set_delay(0, 3);
    let first = ModelChecker::new(&sys, ping_pong_config()).run();
    let second = ModelChecker::new(&sys, ping_pong_config()).run();
    let a = first.expect("the checker ignores drop rates");
    let b = second.expect("the checker ignores drop rates");
    assert_eq!(a, b);
    assert!(a.goals_reached >= 1);
}

#[test]
fn mc_reports_a_root_invariant_violation() {
    let mut sys = System::new(8);
    sys.add_node("n");
    assert!(sys.add_process(
        "p",
        ProcessImpl::TimerOverride { fired: 0 },
        "n"
    ));
    sys.send_local_message("n", "p", Message::new("START", "")).unwrap();
    sys.step_until_no_events(50).unwrap();
    // The outbox now holds FIRED with an empty payload; allow nothing.
    let mut config = StrategyConfig::new(100);
    config.invariants.push(McInvariant::ReceivedMessages {
        node: "n".to_string(),
        proc: "p".to_string(),
        allowed_data: vec!["nothing".to_string()],
    });
    let err = ModelChecker::new(&sys, config).run().expect_err("the root violates it");
    assert_eq!(err.message, "unexpected local message");
}
