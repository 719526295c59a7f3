use instancer::expiry::ExpiryQueue;
use instancer::models::{ChallengeInstance, ChallengeInstanceState, TimeSinceEpoch, User};
use instancer::store::{ChallengeInstanceInsertionResult, Store};
use instancer::worker::{
    complete_request, expire_due, find_challenge, prepare, time_until_next_expiry, Challenge,
    DeploymentRequest, DeploymentRequestCommand, DeploymentUpdate, DeploymentUpdateDetails, FatalError, MessageSeverity,
    RecoveryError, DeployerDetails, IDLE_WAIT_MS,
};

fn challenge(id: &str, ttl: u32) -> Challenge {
    Challenge {
        id: id.to_string(),
        name: format!("Name {id}"),
        description: None,
        ttl,
        deployer_path: "/opt/deployers/x".to_string(),
    }
}

fn store_with_user(id: &str) -> Store {
    let mut store = Store::new();
    store
        .insert_user(User {
            id: id.to_string(),
            username: id.to_string(),
            display_name: id.to_string(),
            avatar: None,
            creation_time: TimeSinceEpoch(0),
            instance_count: 0,
        })
        .unwrap();
    store
}

fn row(u: &str, c: &str, state: ChallengeInstanceState) -> ChallengeInstance {
    ChallengeInstance { user_id: u.to_string(), challenge_id: c.to_string(), state, details: None, stop_time: None }
}

fn request(u: &str, c: &str, command: DeploymentRequestCommand) -> DeploymentRequest {
    DeploymentRequest { user_id: u.to_string(), challenge_id: c.to_string(), command }
}

fn state_change(up: &DeploymentUpdate) -> (ChallengeInstanceState, Option<String>, Option<TimeSinceEpoch>) {
    match &up.details {
        DeploymentUpdateDetails::StateChange { state, details, stop_time } => (*state, details.clone(), *stop_time),
        other => panic!("not a state change: {other:?}"),
    }
}

fn message(up: &DeploymentUpdate) -> (String, MessageSeverity) {
    match &up.details {
        DeploymentUpdateDetails::Message { contents, severity } => (contents.clone(), *severity),
        other => panic!("not a message: {other:?}"),
    }
}

fn count(store: &Store, u: &str) -> u32 {
    store.fetch_user(u).unwrap().instance_count
}

fn details_of(lines: &[&str]) -> String {
    let mut details = DeployerDetails::new();
    for line in lines {
        details.take_line(line);
    }
    details.into_text()
}

#[test]
fn deployer_detail_lines() {
    assert_eq!(details_of(&["$ host=1.2.3.4", "$ port=5000"]), "host=1.2.3.4\nport=5000");
    assert_eq!(details_of(&["starting", "$ a", "noise $ b", "$ b", "$"]), "a\nb");
    assert_eq!(details_of(&["$ "]), "");
    assert_eq!(details_of(&["$ ", "$ X"]), "\nX");
    assert_eq!(details_of(&["$ a", "$ ", "$ b"]), "a\n\nb");
    assert_eq!(details_of(&[]), "");
}

#[test]
fn start_stop_happy_path() {
    let catalog = vec![challenge("c1", 10)];
    let mut store = store_with_user("u1");
    let mut queue = ExpiryQueue::new();
    assert_eq!(store.insert_challenge_instance(&row("u1", "c1", ChallengeInstanceState::QueuedStart), 3), ChallengeInstanceInsertionResult::Inserted);
    let details = details_of(&["$ host=1.2.3.4", "$ port=5000"]);
    let done = complete_request(&mut store, &mut queue, &catalog[0], &request("u1", "c1", DeploymentRequestCommand::Start), Ok(details), TimeSinceEpoch(1_000)).unwrap();
    assert!(done.follow_up.is_none());
    assert_eq!(state_change(&done.state_change), (ChallengeInstanceState::Running, Some("host=1.2.3.4\nport=5000".to_string()), Some(TimeSinceEpoch(11_000))));
    let (text, severity) = message(&done.message);
    assert_eq!(severity, MessageSeverity::Success);
    assert!(text.contains("Name c1"));
    let rows = store.get_user_challenge_instances("u1");
    assert_eq!(rows[0].state, ChallengeInstanceState::Running);
    assert_eq!(rows[0].details.as_deref(), Some("host=1.2.3.4\nport=5000"));
    assert_eq!(rows[0].stop_time, Some(TimeSinceEpoch(11_000)));
    assert_eq!(count(&store, "u1"), 1);
    assert_eq!(queue.peek().unwrap().stop_time, TimeSinceEpoch(11_000));

    assert!(store.transition_challenge_instance_state("u1", "c1", ChallengeInstanceState::Running, ChallengeInstanceState::QueuedStop));
    let done = complete_request(&mut store, &mut queue, &catalog[0], &request("u1", "c1", DeploymentRequestCommand::Stop), Ok(String::new()), TimeSinceEpoch(2_000)).unwrap();
    assert_eq!(state_change(&done.state_change).0, ChallengeInstanceState::Stopped);
    assert_eq!(message(&done.message).1, MessageSeverity::Success);
    assert!(store.get_user_challenge_instances("u1").is_empty());
    assert_eq!(count(&store, "u1"), 0);
    assert!(queue.peek().is_none());
}

#[test]
fn start_failure_schedules_cleanup() {
    let catalog = vec![challenge("c1", 10)];
    let mut store = store_with_user("u1");
    let mut queue = ExpiryQueue::new();
    store.insert_challenge_instance(&row("u1", "c1", ChallengeInstanceState::QueuedStart), 3);
    let done = complete_request(&mut store, &mut queue, &catalog[0], &request("u1", "c1", DeploymentRequestCommand::Start), Err(()), TimeSinceEpoch(1_000)).unwrap();
    assert_eq!(state_change(&done.state_change), (ChallengeInstanceState::QueuedStart, None, None));
    assert_eq!(message(&done.message).1, MessageSeverity::Error);
    let follow = done.follow_up.unwrap();
    assert_eq!((follow.user_id.as_str(), follow.challenge_id.as_str(), follow.command), ("u1", "c1", DeploymentRequestCommand::Cleanup));
    assert_eq!(store.get_user_challenge_instances("u1")[0].state, ChallengeInstanceState::QueuedStart);
    assert!(queue.peek().is_none());

    let done = complete_request(&mut store, &mut queue, &catalog[0], &follow, Ok(String::new()), TimeSinceEpoch(2_000)).unwrap();
    assert_eq!(state_change(&done.state_change).0, ChallengeInstanceState::Stopped);
    assert_eq!(message(&done.message).1, MessageSeverity::Info);
    assert!(store.get_user_challenge_instances("u1").is_empty());
    assert_eq!(count(&store, "u1"), 0);
}

#[test]
fn failed_stop_and_restart_keep_the_row() {
    let catalog = vec![challenge("c1", 10)];
    let mut store = store_with_user("u1");
    let mut queue = ExpiryQueue::new();
    store.insert_challenge_instance(&row("u1", "c1", ChallengeInstanceState::QueuedStart), 3);
    store.populate_running_challenge_instance("u1", "c1", "d".to_string(), TimeSinceEpoch(50));
    store.transition_challenge_instance_state("u1", "c1", ChallengeInstanceState::Running, ChallengeInstanceState::QueuedRestart);
    let done = complete_request(&mut store, &mut queue, &catalog[0], &request("u1", "c1", DeploymentRequestCommand::Restart), Err(()), TimeSinceEpoch(1)).unwrap();
    assert_eq!(state_change(&done.state_change).0, ChallengeInstanceState::QueuedRestart);
    assert!(done.follow_up.is_some());
    let done = complete_request(&mut store, &mut queue, &catalog[0], &request("u1", "c1", DeploymentRequestCommand::Stop), Err(()), TimeSinceEpoch(1)).unwrap();
    assert_eq!(state_change(&done.state_change).0, ChallengeInstanceState::QueuedStop);
    assert_eq!(message(&done.message).1, MessageSeverity::Error);
    assert_eq!(store.get_user_challenge_instances("u1")[0].state, ChallengeInstanceState::QueuedRestart);
}

#[test]
fn restart_success_returns_to_running() {
    let catalog = vec![challenge("c1", 10)];
    let mut store = store_with_user("u1");
    let mut queue = ExpiryQueue::new();
    store.insert_challenge_instance(&row("u1", "c1", ChallengeInstanceState::QueuedStart), 3);
    store.populate_running_challenge_instance("u1", "c1", "d".to_string(), TimeSinceEpoch(50));
    store.transition_challenge_instance_state("u1", "c1", ChallengeInstanceState::Running, ChallengeInstanceState::QueuedRestart);
    let done = complete_request(&mut store, &mut queue, &catalog[0], &request("u1", "c1", DeploymentRequestCommand::Restart), Ok(String::new()), TimeSinceEpoch(1)).unwrap();
    assert_eq!(state_change(&done.state_change), (ChallengeInstanceState::Running, None, None));
    let r = &store.get_user_challenge_instances("u1")[0];
    assert_eq!((r.state, r.details.as_deref(), r.stop_time), (ChallengeInstanceState::Running, Some("d"), Some(TimeSinceEpoch(50))));
}

#[test]
fn failed_cleanup_is_fatal() {
    let catalog = vec![challenge("c1", 10)];
    let mut store = store_with_user("u1");
    let mut queue = ExpiryQueue::new();
    store.insert_challenge_instance(&row("u1", "c1", ChallengeInstanceState::QueuedStart), 3);
    let r = complete_request(&mut store, &mut queue, &catalog[0], &request("u1", "c1", DeploymentRequestCommand::Cleanup), Err(()), TimeSinceEpoch(1));
    assert_eq!(r.err(), Some(FatalError::CleanupFailed));
    assert_eq!(count(&store, "u1"), 1);
}

#[test]
fn ttl_expiry_stops_the_instance() {
    let catalog = vec![challenge("c1", 2)];
    let mut store = store_with_user("u1");
    let mut queue = ExpiryQueue::new();
    store.insert_challenge_instance(&row("u1", "c1", ChallengeInstanceState::QueuedStart), 3);
    complete_request(&mut store, &mut queue, &catalog[0], &request("u1", "c1", DeploymentRequestCommand::Start), Ok(String::new()), TimeSinceEpoch(0)).unwrap();
    assert!(expire_due(&mut store, &mut queue, TimeSinceEpoch(1_999)).is_empty());
    assert_eq!(time_until_next_expiry(&queue, TimeSinceEpoch(1_500)), 500);
    let fired = expire_due(&mut store, &mut queue, TimeSinceEpoch(2_000));
    assert_eq!(fired.len(), 1);
    let (req, up) = &fired[0];
    assert_eq!((req.user_id.as_str(), req.challenge_id.as_str(), req.command), ("u1", "c1", DeploymentRequestCommand::Stop));
    assert_eq!(state_change(up), (ChallengeInstanceState::QueuedStop, None, None));
    assert_eq!(store.get_user_challenge_instances("u1")[0].state, ChallengeInstanceState::QueuedStop);
    assert_eq!(time_until_next_expiry(&queue, TimeSinceEpoch(2_000)), IDLE_WAIT_MS);
    let done = complete_request(&mut store, &mut queue, &catalog[0], req, Ok(String::new()), TimeSinceEpoch(2_100)).unwrap();
    assert_eq!(state_change(&done.state_change).0, ChallengeInstanceState::Stopped);
    assert!(store.get_user_challenge_instances("u1").is_empty());
}

#[test]
fn expiry_skips_instances_no_longer_running() {
    let mut store = store_with_user("u1");
    let mut queue = ExpiryQueue::new();
    store.insert_challenge_instance(&row("u1", "c1", ChallengeInstanceState::QueuedStart), 3);
    store.populate_running_challenge_instance("u1", "c1", "d".to_string(), TimeSinceEpoch(10));
    queue.push("u1".to_string(), "c1".to_string(), TimeSinceEpoch(10));
    store.transition_challenge_instance_state("u1", "c1", ChallengeInstanceState::Running, ChallengeInstanceState::QueuedStop);
    assert!(expire_due(&mut store, &mut queue, TimeSinceEpoch(20)).is_empty());
    assert!(queue.peek().is_none());
}

#[test]
fn extension_then_expiry_stops_once() {
    let mut store = store_with_user("u1");
    let mut queue = ExpiryQueue::new();
    store.insert_challenge_instance(&row("u1", "c1", ChallengeInstanceState::QueuedStart), 3);
    store.populate_running_challenge_instance("u1", "c1", "d".to_string(), TimeSinceEpoch(10));
    queue.push("u1".to_string(), "c1".to_string(), TimeSinceEpoch(10));
    assert!(store.extend_challenge_instance("u1", "c1", TimeSinceEpoch(50)));
    queue.push("u1".to_string(), "c1".to_string(), TimeSinceEpoch(50));
    assert!(expire_due(&mut store, &mut queue, TimeSinceEpoch(10)).is_empty());
    assert_eq!(expire_due(&mut store, &mut queue, TimeSinceEpoch(50)).len(), 1);
    assert!(expire_due(&mut store, &mut queue, TimeSinceEpoch(1_000)).is_empty());
}

#[test]
fn recovery_cleans_transient_rows_and_requeues_running_ones() {
    let catalog = vec![challenge("c1", 10), challenge("c2", 10)];
    let mut store = store_with_user("u1");
    store.insert_challenge_instance(&row("u1", "c1", ChallengeInstanceState::QueuedStart), 3);
    store.insert_challenge_instance(&row("u1", "c2", ChallengeInstanceState::QueuedStart), 3);
    store.populate_running_challenge_instance("u1", "c2", "d".to_string(), TimeSinceEpoch(77));
    let mut queue = ExpiryQueue::new();
    let cleanups = prepare(&store, &mut queue).unwrap();
    assert_eq!(cleanups.len(), 1);
    assert_eq!((cleanups[0].challenge_id.as_str(), cleanups[0].command), ("c1", DeploymentRequestCommand::Cleanup));
    assert_eq!(queue.peek().unwrap().challenge_id, "c2");

    let again = prepare(&store, &mut queue).unwrap();
    assert_eq!(again.len(), 1);
    assert_eq!(queue.pop().unwrap().stop_time, TimeSinceEpoch(77));
    assert!(queue.pop().is_none());

    let i = find_challenge(&catalog, "c1").unwrap();
    complete_request(&mut store, &mut ExpiryQueue::new(), &catalog[i], &cleanups[0], Ok(String::new()), TimeSinceEpoch(1)).unwrap();
    assert_eq!(store.get_user_challenge_instances("u1").len(), 1);
    assert_eq!(count(&store, "u1"), 1);
}

#[test]
fn recovery_refuses_running_row_without_stop_time() {
    let mut store = store_with_user("u1");
    let mut broken = row("u1", "c1", ChallengeInstanceState::Running);
    broken.details = None;
    store.insert_challenge_instance(&broken, 3);
    let mut queue = ExpiryQueue::new();
    assert_eq!(prepare(&store, &mut queue).err(), Some(RecoveryError::RunningWithoutStopTime));
    assert!(queue.peek().is_none());
}

#[test]
fn catalog_lookup() {
    let catalog = vec![challenge("c1", 1), challenge("c2", 1)];
    assert_eq!(find_challenge(&catalog, "c2"), Some(1));
    assert_eq!(find_challenge(&catalog, "c3"), None);
    assert_eq!(catalog[0].ttl_duration(), 1_000);
    assert_eq!(DeploymentRequestCommand::Cleanup.as_str(), "cleanup");
    assert_eq!(MessageSeverity::Warning.as_str(), "warning");
}

#[test]
fn expiry_queue_follows_running_rows() {
    let catalog = vec![challenge("c1", 5), challenge("c2", 7)];
    let mut store = store_with_user("u1");
    let mut queue = ExpiryQueue::new();
    for c in &catalog {
        store.insert_challenge_instance(&row("u1", &c.id, ChallengeInstanceState::QueuedStart), 3);
        complete_request(&mut store, &mut queue, c, &request("u1", &c.id, DeploymentRequestCommand::Start), Ok(String::new()), TimeSinceEpoch(0)).unwrap();
    }
    let mut rebuilt = ExpiryQueue::new();
    prepare(&store, &mut rebuilt).unwrap();
    let mut a = Vec::new();
    while let Some(e) = queue.pop() {
        a.push((e.challenge_id, e.stop_time));
    }
    let mut b = Vec::new();
    while let Some(e) = rebuilt.pop() {
        b.push((e.challenge_id, e.stop_time));
    }
    assert_eq!(a, vec![("c1".to_string(), TimeSinceEpoch(5_000)), ("c2".to_string(), TimeSinceEpoch(7_000))]);
    assert_eq!(a, b);
}
