use instancer::models::{ChallengeInstanceState, TimeSinceEpoch};
use instancer::text::decimal_string;

#[test]
fn state_names_round_trip() {
    let all = [
        ChallengeInstanceState::Stopped,
        ChallengeInstanceState::Running,
        ChallengeInstanceState::QueuedStart,
        ChallengeInstanceState::QueuedRestart,
        ChallengeInstanceState::QueuedStop,
    ];
    for st in all {
        assert_eq!(ChallengeInstanceState::from_name(st.as_str()), Some(st));
    }
    assert_eq!(ChallengeInstanceState::QueuedRestart.as_str(), "queued_restart");
}

#[test]
fn unknown_state_name_is_rejected() {
    assert_eq!(ChallengeInstanceState::from_name("paused"), None);
    assert_eq!(ChallengeInstanceState::from_name(""), None);
    assert_eq!(ChallengeInstanceState::from_name("Running"), None);
}

#[test]
fn only_transient_states_are_queued() {
    assert!(ChallengeInstanceState::QueuedStart.is_queued());
    assert!(ChallengeInstanceState::QueuedStop.is_queued());
    assert!(ChallengeInstanceState::QueuedRestart.is_queued());
    assert!(!ChallengeInstanceState::Running.is_queued());
    assert!(!ChallengeInstanceState::Stopped.is_queued());
}

#[test]
fn time_arithmetic() {
    assert_eq!(TimeSinceEpoch::zero(), TimeSinceEpoch(0));
    assert_eq!(TimeSinceEpoch(1_000).after(10_000), TimeSinceEpoch(11_000));
    assert_eq!(TimeSinceEpoch(u64::MAX - 1).after(10), TimeSinceEpoch(u64::MAX));
    assert_eq!(TimeSinceEpoch(42).as_millis(), 42);
}

#[test]
fn clock_is_after_the_epoch() {
    let now = TimeSinceEpoch::now();
    assert!(now.0 > 1_600_000_000_000);
    let later = TimeSinceEpoch::from_now(10_000);
    assert!(later.0 >= now.0 + 10_000);
}

#[test]
fn decimal_rendering() {
    assert_eq!(decimal_string(0), "0");
    assert_eq!(decimal_string(7), "7");
    assert_eq!(decimal_string(10), "10");
    assert_eq!(decimal_string(86400), "86400");
    assert_eq!(decimal_string(u64::MAX), "18446744073709551615");
}
