use anysystem::context::Context;
use anysystem::message::Message;
use anysystem::network::Network;
use anysystem::node::{ProcessEntry, ProcessEvent, TimerBehavior};
use anysystem::process::ProcessImpl;
use anysystem::rng::Rng;
use anysystem::system::System;
use anysystem::test::{TestResult, TestSuite};

#[test]
fn rng_is_deterministic_per_seed() {
    let mut a = Rng::new(99);
    let mut b = Rng::new(99);
    for _ in 0..10 {
        assert_eq!(a.next_u64(), b.next_u64());
    }
    let mut c = Rng::new(100);
    assert_ne!(a.next_u64(), c.next_u64());
}

#[test]
fn rng_range_stays_below_bound() {
    let mut r = Rng::new(3);
    for _ in 0..100 {
        assert!(r.rand_range(7) < 7);
    }
}

#[test]
fn message_equality_is_structural() {
    let a = Message::new("PING", "x");
    let b = Message::new("PING", "x");
    let c = Message::new("PING", "y");
    assert_eq!(a, b);
    assert!(a != c);
}

#[test]
fn context_queues_actions_without_applying_them() {
    let mut ctx = Context::basic("p".to_string(), 4, 1);
    assert_eq!(ctx.time(), 4);
    ctx.send(Message::new("A", "1"), "q".to_string());
    ctx.send_local(Message::new("B", "2"));
    ctx.set_timer("t", 5);
    ctx.set_timer_once("t", 9);
    ctx.cancel_timer("t");
    let actions = ctx.actions();
    assert_eq!(actions.len(), 5);
    match &actions[0] {
        ProcessEvent::MessageSent { msg, src, dst } => {
            assert_eq!(msg.tag, "A");
            assert_eq!(src, "p");
            assert_eq!(dst, "q");
        }
        _ => panic!("first action must be the send"),
    }
    match &actions[2] {
        ProcessEvent::TimerSet { name, delay, behavior } => {
            assert_eq!(name, "t");
            assert_eq!(*delay, 5);
            assert_eq!(*behavior, TimerBehavior::OverrideExisting);
        }
        _ => panic!("third action must be the timer set"),
    }
    match &actions[3] {
        ProcessEvent::TimerSet { behavior, .. } => {
            assert_eq!(*behavior, TimerBehavior::SetOnce);
        }
        _ => panic!("fourth action must be the keep-existing timer set"),
    }
    match &actions[4] {
        ProcessEvent::TimerCancelled { name } => assert_eq!(name, "t"),
        _ => panic!("fifth action must be the cancel"),
    }
}

#[test]
fn network_connectivity_rules() {
    let mut net = Network::new();
    let a = "a".to_string();
    let b = "b".to_string();
    assert!(net.connected(&a, &b));
    net.disconnect_link("a", "b");
    assert!(!net.connected(&a, &b));
    assert!(net.connected(&b, &a));
    net.disconnect_node("b");
    assert!(!net.connected(&b, &a));
    net.connect_node("b");
    assert!(net.connected(&b, &a));
}

#[test]
fn partition_cuts_both_directions() {
    let mut net = Network::new();
    net.make_partition(&vec!["a".to_string()], &vec!["b".to_string(), "c".to_string()]);
    assert!(!net.connected(&"a".to_string(), &"b".to_string()));
    assert!(!net.connected(&"b".to_string(), &"a".to_string()));
    assert!(!net.connected(&"a".to_string(), &"c".to_string()));
    assert!(!net.connected(&"c".to_string(), &"a".to_string()));
    assert!(net.connected(&"b".to_string(), &"c".to_string()));
}

#[test]
fn process_snapshot_round_trip() {
    let mut p = ProcessImpl::RetryPingClient { server: "s".to_string(), ping: None };
    let snapshot = ProcessImpl::RetryPingClient {
        server: "s".to_string(),
        ping: Some(Message::new("PING", "7")),
    };
    p.set_state(snapshot.clone());
    match p.state() {
        ProcessImpl::RetryPingClient { server, ping } => {
            assert_eq!(server, "s");
            assert_eq!(ping.unwrap().data, "7");
        }
        _ => panic!("the snapshot must restore the variant"),
    }
}

#[test]
fn forgetful_process_keeps_its_live_count() {
    let mut p = ProcessImpl::CountingServer { count: 3, forgetful: true };
    p.set_state(ProcessImpl::CountingServer { count: 0, forgetful: true });
    match p {
        ProcessImpl::CountingServer { count, .. } => assert_eq!(count, 3),
        _ => panic!("variant must be kept"),
    }
}

#[test]
fn entry_snapshot_round_trip() {
    let mut entry = ProcessEntry::new(ProcessImpl::PingServer);
    entry.local_outbox.push(Message::new("X", "1"));
    entry.sent_message_count = 2;
    let state = entry.get_state().unwrap();
    let mut other = ProcessEntry::new(ProcessImpl::PingServer);
    other.set_state(state).unwrap();
    assert_eq!(other.local_outbox.len(), 1);
    assert_eq!(other.sent_message_count, 2);
}

#[test]
fn equal_states_hash_alike() {
    let build = || {
        let mut sys = System::new(17);
        sys.add_node("n");
        assert!(sys.add_process(
            "c",
            ProcessImpl::BasicPingClient { server: "c".to_string() },
            "n"
        ));
        sys
    };
    let a = build();
    let b = build();
    assert_eq!(anysystem::state::state_key(&a), anysystem::state::state_key(&b));
    assert_eq!(anysystem::state::state_hash(&a), anysystem::state::state_hash(&b));
    let mut c = build();
    c.send_local_message("n", "c", Message::new("PING", "0")).unwrap();
    assert_ne!(anysystem::state::state_key(&a), anysystem::state::state_key(&c));
}

#[test]
fn events_execute_in_time_order() {
    let mut sys = System::new(23);
    sys.add_node("n");
    assert!(sys.add_process("t", ProcessImpl::TimerOverride { fired: 0 }, "n"));
    sys.send_local_message("n", "t", Message::new("START", "")).unwrap();
    sys.step_until_no_events(50).unwrap();
    let times: Vec<u64> = sys.executed.iter().map(|r| r.time).collect();
    for w in times.windows(2) {
        assert!(w[0] <= w[1], "events must execute in nondecreasing time order");
    }
}

fn check_positive(config: &u64) -> TestResult {
    if *config > 0 {
        Ok(true)
    } else {
        Err("not positive".to_string())
    }
}

#[test]
fn test_suite_collects_results() {
    let mut suite: TestSuite<u64, fn(&u64) -> TestResult> = TestSuite::new();
    suite.add("positive", check_positive, 5);
    suite.add("zero", check_positive, 0);
    let results = suite.run_results();
    assert_eq!(results.len(), 2);
    assert_eq!(results[0].0, "positive");
    assert!(results[0].1.is_ok());
    assert_eq!(results[1].0, "zero");
    assert_eq!(results[1].1.as_ref().unwrap_err(), "not positive");
    let matches = suite.run_test_results("zero");
    assert_eq!(matches.len(), 1);
    assert!(matches[0].is_err());
    assert!(suite.run_test_results("absent").is_empty());
    assert!(anysystem::test::TestSuite::<u64, fn(&u64) -> TestResult>::all_passed(&results) == false);
}
