//! Plain data of the instancer: instance states, timestamps, users and
//! persisted challenge instances.

use vstd::prelude::*;

verus! {

/// Lifecycle state of a user's challenge instance. `Stopped` is never
/// persisted: it stands for the absence of a row.
#[derive(Debug, Clone, Copy, PartialEq, Eq, Structural)]
pub enum ChallengeInstanceState {
    Stopped,
    Running,
    QueuedStart,
    QueuedRestart,
    QueuedStop,
}

impl ChallengeInstanceState {
    /// The transient states: an action is in flight or was interrupted.
    pub open spec fn spec_is_queued(self) -> bool {
        self is QueuedStart || self is QueuedRestart || self is QueuedStop
    }

    pub fn is_queued(&self) -> (r: bool)
        ensures
            r == self.spec_is_queued(),
    {
        match self {
            ChallengeInstanceState::QueuedStop
            | ChallengeInstanceState::QueuedStart
            | ChallengeInstanceState::QueuedRestart => true,
            _ => false,
        }
    }

    /// The wire and storage name of the state.
    pub open spec fn name(self) -> Seq<char> {
        match self {
            ChallengeInstanceState::Stopped => "stopped"@,
            ChallengeInstanceState::Running => "running"@,
            ChallengeInstanceState::QueuedStart => "queued_start"@,
            ChallengeInstanceState::QueuedRestart => "queued_restart"@,
            ChallengeInstanceState::QueuedStop => "queued_stop"@,
        }
    }

    pub fn as_str(&self) -> (r: &'static str)
        ensures
            r@ == self.name(),
    {
        match self {
            ChallengeInstanceState::Stopped => "stopped",
            ChallengeInstanceState::Running => "running",
            ChallengeInstanceState::QueuedStart => "queued_start",
            ChallengeInstanceState::QueuedRestart => "queued_restart",
            ChallengeInstanceState::QueuedStop => "queued_stop",
        }
    }

    /// Reads a state back from its name; `None` for a name of no state.
    pub fn from_name(s: &str) -> (r: Option<ChallengeInstanceState>)
        ensures
            match r {
                Some(st) => st.name() == s@,
                None => forall|st: ChallengeInstanceState| st.name() != s@,
            },
    {
        let s = String::from_str(s);
        if s == String::from_str("stopped") {
            Some(ChallengeInstanceState::Stopped)
        } else if s == String::from_str("running") {
            Some(ChallengeInstanceState::Running)
        } else if s == String::from_str("queued_start") {
            Some(ChallengeInstanceState::QueuedStart)
        } else if s == String::from_str("queued_restart") {
            Some(ChallengeInstanceState::QueuedRestart)
        } else if s == String::from_str("queued_stop") {
            Some(ChallengeInstanceState::QueuedStop)
        } else {
            None
        }
    }
}

/// A point in time, in milliseconds since the Unix epoch.
#[derive(Debug, Clone, Copy, PartialEq, Eq, Structural)]
pub struct TimeSinceEpoch(pub u64);

/// Relies on std's `SystemTime::now`: the wall clock, read as milliseconds
/// since the Unix epoch (0 for a clock set before the epoch). Nothing is
/// known of the value.
#[verifier::external_body]
fn wall_clock_millis() -> (r: u64) {
    std::time::SystemTime::now().duration_since(std::time::UNIX_EPOCH).map(|d| d.as_millis() as u64).unwrap_or(0)
}

impl TimeSinceEpoch {
    /// The current time.
    pub fn now() -> (r: TimeSinceEpoch) {
        TimeSinceEpoch(wall_clock_millis())
    }

    /// The Unix epoch.
    pub fn zero() -> (r: TimeSinceEpoch)
        ensures
            r.0 == 0,
    {
        TimeSinceEpoch(0)
    }

    /// The time `duration_ms` milliseconds after now, saturating at the
    /// largest representable time.
    pub fn from_now(duration_ms: u64) -> (r: TimeSinceEpoch)
        ensures
            r.0 >= duration_ms,
    {
        TimeSinceEpoch::now().after(duration_ms)
    }

    pub open spec fn after_spec(&self, duration_ms: u64) -> TimeSinceEpoch {
        TimeSinceEpoch(saturating_add(self.0, duration_ms))
    }

    /// The time `duration_ms` milliseconds after `self`, saturating.
    #[verifier::when_used_as_spec(after_spec)]
    pub fn after(&self, duration_ms: u64) -> (r: TimeSinceEpoch)
        ensures
            r == self.after_spec(duration_ms),
    {
        TimeSinceEpoch(self.0.saturating_add(duration_ms))
    }

    pub fn as_millis(&self) -> (r: u64)
        ensures
            r == self.0,
    {
        self.0
    }
}

pub open spec fn saturating_add(a: u64, b: u64) -> u64 {
    if a + b > u64::MAX {
        u64::MAX
    } else {
        (a + b) as u64
    }
}

/// A registered user. `instance_count` is the number of the user's persisted
/// challenge instances.
#[derive(Debug)]
pub struct User {
    pub id: String,
    pub username: String,
    pub display_name: String,
    pub avatar: Option<String>,
    pub creation_time: TimeSinceEpoch,
    pub instance_count: u32,
}

/// A persisted challenge instance, keyed by `(user_id, challenge_id)`.
#[derive(Debug)]
pub struct ChallengeInstance {
    pub user_id: String,
    pub challenge_id: String,
    pub state: ChallengeInstanceState,
    pub details: Option<String>,
    pub stop_time: Option<TimeSinceEpoch>,
}

pub fn clone_opt_string(o: &Option<String>) -> (r: Option<String>)
    ensures
        r == *o,
{
    match o {
        Some(s) => Some(s.clone()),
        None => None,
    }
}

impl Clone for User {
    fn clone(&self) -> (r: User)
        ensures
            r == *self,
    {
        User {
            id: self.id.clone(),
            username: self.username.clone(),
            display_name: self.display_name.clone(),
            avatar: clone_opt_string(&self.avatar),
            creation_time: self.creation_time,
            instance_count: self.instance_count,
        }
    }
}

impl Clone for ChallengeInstance {
    fn clone(&self) -> (r: ChallengeInstance)
        ensures
            r == *self,
    {
        ChallengeInstance {
            user_id: self.user_id.clone(),
            challenge_id: self.challenge_id.clone(),
            state: self.state,
            details: clone_opt_string(&self.details),
            stop_time: self.stop_time,
        }
    }
}

} // verus!
