use instancer::expiry::ExpiryQueue;
use instancer::gateway::{challenge_listing, dispatch_action, forward_update, heartbeat_reply, ChallengeActionCommand, ClientBoundMessage};
use instancer::models::{ChallengeInstance, ChallengeInstanceState, TimeSinceEpoch, User};
use instancer::store::Store;
use instancer::worker::{Challenge, DeploymentRequestCommand, DeploymentUpdate, DeploymentUpdateDetails, MessageSeverity};

fn catalog() -> Vec<Challenge> {
    ["c1", "c2"]
        .iter()
        .map(|id| Challenge {
            id: id.to_string(),
            name: format!("Name {id}"),
            description: Some("about".to_string()),
            ttl: 10,
            deployer_path: "/bin/true".to_string(),
        })
        .collect()
}

fn store_with_user(id: &str) -> Store {
    let mut store = Store::new();
    store
        .insert_user(User {
            id: id.to_string(),
            username: id.to_string(),
            display_name: id.to_string(),
            avatar: None,
            creation_time: TimeSinceEpoch(0),
            instance_count: 0,
        })
        .unwrap();
    store
}

fn act(
    store: &mut Store,
    queue: &mut ExpiryQueue,
    cid: &str,
    action: ChallengeActionCommand,
    max: u32,
    wait: Option<u64>,
) -> instancer::gateway::SessionReaction {
    dispatch_action(store, queue, &catalog(), &"u1".to_string(), &cid.to_string(), action, max, TimeSinceEpoch(1_000), wait, false)
}

fn warning_text(m: &ClientBoundMessage) -> String {
    match m {
        ClientBoundMessage::Message { contents, severity: MessageSeverity::Warning, .. } => contents.clone(),
        other => panic!("not a warning: {other:?}"),
    }
}

#[test]
fn start_is_queued_at_once() {
    let mut store = store_with_user("u1");
    let mut queue = ExpiryQueue::new();
    let r = act(&mut store, &mut queue, "c1", ChallengeActionCommand::Start, 3, None);
    assert!(!r.close);
    let req = r.request.unwrap();
    assert_eq!((req.user_id.as_str(), req.challenge_id.as_str(), req.command), ("u1", "c1", DeploymentRequestCommand::Start));
    assert!(matches!(&r.replies[..], [ClientBoundMessage::ChallengeStateChange { id, state: ChallengeInstanceState::QueuedStart, details: None, stop_time: None }] if id == "c1"));
    assert_eq!(store.fetch_user("u1").unwrap().instance_count, 1);
    let again = act(&mut store, &mut queue, "c1", ChallengeActionCommand::Start, 3, None);
    assert!(again.request.is_none() && again.replies.is_empty());
}

#[test]
fn concurrency_limit_warns() {
    let mut store = store_with_user("u1");
    let mut queue = ExpiryQueue::new();
    assert!(act(&mut store, &mut queue, "c1", ChallengeActionCommand::Start, 1, None).request.is_some());
    let r = act(&mut store, &mut queue, "c2", ChallengeActionCommand::Start, 1, None);
    assert!(r.request.is_none());
    assert_eq!(r.replies.len(), 1);
    let text = warning_text(&r.replies[0]);
    assert!(text.contains("1"));
    assert_eq!(text, "Vous avez atteint la limite de 1 défis concurrents.");
    assert_eq!(store.get_user_challenge_instances("u1").len(), 1);
}

#[test]
fn rate_limited_action_touches_nothing() {
    let mut store = store_with_user("u1");
    let mut queue = ExpiryQueue::new();
    let r = act(&mut store, &mut queue, "c1", ChallengeActionCommand::Start, 3, Some(1_200));
    assert!(!r.close && r.request.is_none());
    assert_eq!(warning_text(&r.replies[0]), "Veuillez attendre 2 secondes avant votre prochaine action.");
    assert!(store.get_challenge_instances().is_empty());
    let r = act(&mut store, &mut queue, "c1", ChallengeActionCommand::Start, 3, Some(1_000));
    assert_eq!(warning_text(&r.replies[0]), "Veuillez attendre 1 seconde avant votre prochaine action.");
}

#[test]
fn unknown_challenge_closes_the_session() {
    let mut store = store_with_user("u1");
    let mut queue = ExpiryQueue::new();
    let r = act(&mut store, &mut queue, "nope", ChallengeActionCommand::Start, 3, None);
    assert!(r.close && r.request.is_none() && r.replies.is_empty());
    assert!(store.get_challenge_instances().is_empty());
}

#[test]
fn actions_are_dropped_during_shutdown() {
    let mut store = store_with_user("u1");
    let mut queue = ExpiryQueue::new();
    let r = dispatch_action(&mut store, &mut queue, &catalog(), &"u1".to_string(), &"c1".to_string(), ChallengeActionCommand::Start, 3, TimeSinceEpoch(0), None, true);
    assert!(!r.close && r.request.is_none() && r.replies.is_empty());
    assert!(store.get_challenge_instances().is_empty());
}

#[test]
fn stop_restart_and_extend_need_a_running_instance() {
    let mut store = store_with_user("u1");
    let mut queue = ExpiryQueue::new();
    act(&mut store, &mut queue, "c1", ChallengeActionCommand::Start, 3, None);
    for action in [ChallengeActionCommand::Stop, ChallengeActionCommand::Restart, ChallengeActionCommand::Extend] {
        let r = act(&mut store, &mut queue, "c1", action, 3, None);
        assert!(r.request.is_none() && r.replies.is_empty());
    }
    store.populate_running_challenge_instance("u1", "c1", "d".to_string(), TimeSinceEpoch(5_000));
    let r = act(&mut store, &mut queue, "c1", ChallengeActionCommand::Extend, 3, None);
    assert!(r.request.is_none());
    assert!(matches!(&r.replies[0], ClientBoundMessage::ChallengeStateChange { state: ChallengeInstanceState::Running, stop_time: Some(TimeSinceEpoch(11_000)), .. }));
    assert!(matches!(&r.replies[1], ClientBoundMessage::Message { severity: MessageSeverity::Success, contents, .. } if contents == "Le défi <strong>Name c1</strong> a été étendu."));
    assert_eq!(queue.peek().unwrap().stop_time, TimeSinceEpoch(11_000));
    let r = act(&mut store, &mut queue, "c1", ChallengeActionCommand::Restart, 3, None);
    assert_eq!(r.request.unwrap().command, DeploymentRequestCommand::Restart);
    assert!(matches!(&r.replies[0], ClientBoundMessage::ChallengeStateChange { state: ChallengeInstanceState::QueuedRestart, .. }));
    store.update_challenge_instance_state("u1", "c1", ChallengeInstanceState::Running);
    let r = act(&mut store, &mut queue, "c1", ChallengeActionCommand::Stop, 3, None);
    assert_eq!(r.request.unwrap().command, DeploymentRequestCommand::Stop);
    assert_eq!(store.get_user_challenge_instances("u1")[0].state, ChallengeInstanceState::QueuedStop);
}

#[test]
fn listing_shows_every_catalog_challenge() {
    let rows = vec![ChallengeInstance {
        user_id: "u1".to_string(),
        challenge_id: "c2".to_string(),
        state: ChallengeInstanceState::Running,
        details: Some("port=1".to_string()),
        stop_time: Some(TimeSinceEpoch(99)),
    }];
    let listing = challenge_listing(&catalog(), &rows);
    assert_eq!(listing.len(), 2);
    assert_eq!((listing[0].id.as_str(), listing[0].state, listing[0].stop_time), ("c1", ChallengeInstanceState::Stopped, None));
    assert_eq!(listing[0].description.as_deref(), Some("about"));
    assert_eq!((listing[1].name.as_str(), listing[1].state), ("Name c2", ChallengeInstanceState::Running));
    assert_eq!(listing[1].details.as_deref(), Some("port=1"));
    assert_eq!(listing[1].stop_time, Some(TimeSinceEpoch(99)));
}

#[test]
fn updates_reach_only_their_user() {
    let up = DeploymentUpdate {
        user_id: "u1".to_string(),
        challenge_id: "c1".to_string(),
        details: DeploymentUpdateDetails::Message { contents: "hi".to_string(), severity: MessageSeverity::Info },
    };
    assert!(forward_update(up, "u2").is_none());
    let up = DeploymentUpdate {
        user_id: "u1".to_string(),
        challenge_id: "c1".to_string(),
        details: DeploymentUpdateDetails::StateChange { state: ChallengeInstanceState::Stopped, details: None, stop_time: None },
    };
    assert!(matches!(forward_update(up, "u1"), Some(ClientBoundMessage::ChallengeStateChange { id, state: ChallengeInstanceState::Stopped, .. }) if id == "c1"));
    assert!(matches!(heartbeat_reply(), ClientBoundMessage::Heartbeat));
}
