use instancer::models::{ChallengeInstance, ChallengeInstanceState, TimeSinceEpoch, User};
use instancer::store::{ChallengeInstanceInsertionResult, Store, StoreError};

fn user(id: &str) -> User {
    User {
        id: id.to_string(),
        username: format!("{id}-name"),
        display_name: format!("{id} display"),
        avatar: None,
        creation_time: TimeSinceEpoch(5),
        instance_count: 0,
    }
}

fn queued(u: &str, c: &str) -> ChallengeInstance {
    ChallengeInstance {
        user_id: u.to_string(),
        challenge_id: c.to_string(),
        state: ChallengeInstanceState::QueuedStart,
        details: None,
        stop_time: None,
    }
}

fn count(store: &Store, u: &str) -> u32 {
    store.fetch_user(u).unwrap().instance_count
}

fn state_of(store: &Store, u: &str, c: &str) -> Option<ChallengeInstanceState> {
    store.get_user_challenge_instances(u).into_iter().find(|r| r.challenge_id == c).map(|r| r.state)
}

#[test]
fn users_are_inserted_once() {
    let mut store = Store::new();
    assert_eq!(store.fetch_user("u1").map(|u| u.id), None);
    let mut first = user("u1");
    first.instance_count = 9;
    assert_eq!(store.insert_user(first), Ok(()));
    let fetched = store.fetch_user("u1").unwrap();
    assert_eq!(fetched.username, "u1-name");
    assert_eq!(fetched.instance_count, 0);
    assert_eq!(store.insert_user(user("u1")), Err(StoreError::Conflict));
}

#[test]
fn insertion_counts_and_respects_the_limit() {
    let mut store = Store::new();
    store.insert_user(user("u1")).unwrap();
    assert_eq!(store.insert_challenge_instance(&queued("u1", "c1"), 2), ChallengeInstanceInsertionResult::Inserted);
    assert_eq!(count(&store, "u1"), 1);
    assert_eq!(store.insert_challenge_instance(&queued("u1", "c1"), 2), ChallengeInstanceInsertionResult::Exists);
    assert_eq!(count(&store, "u1"), 1);
    assert_eq!(store.insert_challenge_instance(&queued("u1", "c2"), 2), ChallengeInstanceInsertionResult::Inserted);
    assert_eq!(count(&store, "u1"), 2);
    assert_eq!(store.insert_challenge_instance(&queued("u1", "c3"), 2), ChallengeInstanceInsertionResult::LimitReached);
    assert_eq!(count(&store, "u1"), 2);
    assert_eq!(store.get_user_challenge_instances("u1").len(), 2);
}

#[test]
fn insertion_for_unknown_user_reports_limit() {
    let mut store = Store::new();
    assert_eq!(store.insert_challenge_instance(&queued("ghost", "c1"), 5), ChallengeInstanceInsertionResult::LimitReached);
    assert!(store.get_challenge_instances().is_empty());
}

#[test]
fn limit_zero_refuses_everything() {
    let mut store = Store::new();
    store.insert_user(user("u1")).unwrap();
    assert_eq!(store.insert_challenge_instance(&queued("u1", "c1"), 0), ChallengeInstanceInsertionResult::LimitReached);
    assert_eq!(count(&store, "u1"), 0);
}

#[test]
fn compare_and_swap_succeeds_once() {
    let mut store = Store::new();
    store.insert_user(user("u1")).unwrap();
    store.insert_challenge_instance(&queued("u1", "c1"), 3);
    store.populate_running_challenge_instance("u1", "c1", "host=h".to_string(), TimeSinceEpoch(100));
    let first = store.transition_challenge_instance_state("u1", "c1", ChallengeInstanceState::Running, ChallengeInstanceState::QueuedStop);
    let second = store.transition_challenge_instance_state("u1", "c1", ChallengeInstanceState::Running, ChallengeInstanceState::QueuedStop);
    assert!(first);
    assert!(!second);
    assert_eq!(state_of(&store, "u1", "c1"), Some(ChallengeInstanceState::QueuedStop));
    assert!(!store.transition_challenge_instance_state("u1", "nope", ChallengeInstanceState::Running, ChallengeInstanceState::QueuedStop));
}

#[test]
fn transition_keeps_details_and_stop_time() {
    let mut store = Store::new();
    store.insert_user(user("u1")).unwrap();
    store.insert_challenge_instance(&queued("u1", "c1"), 3);
    store.populate_running_challenge_instance("u1", "c1", "port=1".to_string(), TimeSinceEpoch(100));
    assert!(store.transition_challenge_instance_state("u1", "c1", ChallengeInstanceState::Running, ChallengeInstanceState::QueuedRestart));
    store.update_challenge_instance_state("u1", "c1", ChallengeInstanceState::Running);
    let row = &store.get_user_challenge_instances("u1")[0];
    assert_eq!(row.state, ChallengeInstanceState::Running);
    assert_eq!(row.details.as_deref(), Some("port=1"));
    assert_eq!(row.stop_time, Some(TimeSinceEpoch(100)));
}

#[test]
fn extension_only_while_running() {
    let mut store = Store::new();
    store.insert_user(user("u1")).unwrap();
    store.insert_challenge_instance(&queued("u1", "c1"), 3);
    assert!(!store.extend_challenge_instance("u1", "c1", TimeSinceEpoch(500)));
    store.populate_running_challenge_instance("u1", "c1", "d".to_string(), TimeSinceEpoch(100));
    assert!(store.extend_challenge_instance("u1", "c1", TimeSinceEpoch(500)));
    assert_eq!(store.get_user_challenge_instances("u1")[0].stop_time, Some(TimeSinceEpoch(500)));
    store.transition_challenge_instance_state("u1", "c1", ChallengeInstanceState::Running, ChallengeInstanceState::QueuedStop);
    assert!(!store.extend_challenge_instance("u1", "c1", TimeSinceEpoch(900)));
    assert_eq!(store.get_user_challenge_instances("u1")[0].stop_time, Some(TimeSinceEpoch(500)));
}

#[test]
fn delete_twice_decrements_once() {
    let mut store = Store::new();
    store.insert_user(user("u1")).unwrap();
    store.insert_challenge_instance(&queued("u1", "c1"), 3);
    store.insert_challenge_instance(&queued("u1", "c2"), 3);
    assert_eq!(count(&store, "u1"), 2);
    assert!(store.delete_challenge_instance("u1", "c1"));
    assert_eq!(count(&store, "u1"), 1);
    assert!(!store.delete_challenge_instance("u1", "c1"));
    assert_eq!(count(&store, "u1"), 1);
    assert_eq!(state_of(&store, "u1", "c2"), Some(ChallengeInstanceState::QueuedStart));
}

#[test]
fn rows_are_listed_per_user() {
    let mut store = Store::new();
    store.insert_user(user("u1")).unwrap();
    store.insert_user(user("u2")).unwrap();
    store.insert_challenge_instance(&queued("u1", "c1"), 3);
    store.insert_challenge_instance(&queued("u2", "c1"), 3);
    store.insert_challenge_instance(&queued("u1", "c2"), 3);
    let mine: Vec<String> = store.get_user_challenge_instances("u1").into_iter().map(|r| r.challenge_id).collect();
    assert_eq!(mine, vec!["c1".to_string(), "c2".to_string()]);
    assert_eq!(store.get_challenge_instances().len(), 3);
    assert_eq!(count(&store, "u2"), 1);
}
