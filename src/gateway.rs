//! The session gateway's decisions for one user's live session: the
//! initial challenge listing, the handling of inbound actions, and the
//! conversion of broadcast updates into outbound messages.

use vstd::prelude::*;

use crate::expiry::ExpiryQueue;
use crate::models::{clone_opt_string, ChallengeInstance, ChallengeInstanceState, TimeSinceEpoch};
use crate::store::{ChallengeInstanceInsertionResult, Store};
use crate::text::{decimal, decimal_string};
use crate::worker::{
    find_challenge, framed, lemma_tracks_extended, lemma_tracks_inserted, lemma_tracks_state_change, tracks_running, Challenge, DeploymentRequest, DeploymentRequestCommand, DeploymentUpdate,
    DeploymentUpdateDetails, MessageSeverity,
};

verus! {

/// An action a user asks for on one challenge.
#[derive(Debug, Clone, Copy, PartialEq, Eq, Structural)]
pub enum ChallengeActionCommand {
    Start,
    Stop,
    Restart,
    Extend,
}

/// A message from the client.
#[derive(Debug)]
pub enum ServerBoundMessage {
    ChallengeAction { id: String, action: ChallengeActionCommand },
    Heartbeat,
}

/// What a user sees of one challenge.
#[derive(Debug)]
pub struct ChallengePlayerState {
    pub id: String,
    pub name: String,
    pub description: Option<String>,
    pub state: ChallengeInstanceState,
    pub stop_time: Option<TimeSinceEpoch>,
    pub details: Option<String>,
}

/// A message to the client.
#[derive(Debug)]
pub enum ClientBoundMessage {
    ChallengeListing { challenges: Vec<ChallengePlayerState> },
    ChallengeStateChange {
        id: String,
        state: ChallengeInstanceState,
        details: Option<String>,
        stop_time: Option<TimeSinceEpoch>,
    },
    Message { id: String, contents: String, severity: MessageSeverity },
    Heartbeat,
}

/// What the session does about one inbound action: close the session, or
/// enqueue at most one request and send the replies in order.
#[derive(Debug)]
pub struct SessionReaction {
    pub close: bool,
    pub request: Option<DeploymentRequest>,
    pub replies: Vec<ClientBoundMessage>,
}

/// The first row of `rows` for the challenge `challenge_id`.
pub open spec fn first_row(rows: Seq<ChallengeInstance>, challenge_id: Seq<char>) -> Option<ChallengeInstance>
    decreases rows.len(),
{
    if rows.len() == 0 {
        None
    } else if rows[0].challenge_id@ == challenge_id {
        Some(rows[0])
    } else {
        first_row(rows.subrange(1, rows.len() as int), challenge_id)
    }
}

/// What the user with rows `rows` sees of `c`: `Stopped` without a row.
pub open spec fn player_state(c: Challenge, rows: Seq<ChallengeInstance>) -> ChallengePlayerState {
    match first_row(rows, c.id@) {
        Some(row) => ChallengePlayerState {
            id: c.id,
            name: c.name,
            description: c.description,
            state: row.state,
            stop_time: row.stop_time,
            details: row.details,
        },
        None => ChallengePlayerState {
            id: c.id,
            name: c.name,
            description: c.description,
            state: ChallengeInstanceState::Stopped,
            stop_time: None,
            details: None,
        },
    }
}

fn first_row_for(rows: &Vec<ChallengeInstance>, challenge_id: &String) -> (r: Option<usize>)
    ensures
        match first_row(rows@, challenge_id@) {
            Some(row) => r is Some && r->Some_0 < rows@.len() && rows@[r->Some_0 as int] == row,
            None => r is None,
        },
{
    let mut i: usize = 0;
    assert(rows@.subrange(0, rows@.len() as int) =~= rows@);
    while i < rows.len()
        invariant
            i <= rows@.len(),
            first_row(rows@, challenge_id@) == first_row(rows@.subrange(i as int, rows@.len() as int), challenge_id@),
        decreases rows@.len() - i,
    {
        let ghost rest = rows@.subrange(i as int, rows@.len() as int);
        proof {
            assert(rest[0] == rows@[i as int]);
            assert(rest.subrange(1, rest.len() as int) =~= rows@.subrange(i + 1, rows@.len() as int));
        }
        if rows[i].challenge_id == *challenge_id {
            return Some(i);
        }
        i += 1;
    }
    None
}

/// The listing sent when a session opens: one entry per catalog challenge,
/// in catalog order, from the user's rows `instances`.
pub fn challenge_listing(catalog: &Vec<Challenge>, instances: &Vec<ChallengeInstance>) -> (r: Vec<ChallengePlayerState>)
    ensures
        r@.len() == catalog@.len(),
        forall|i: int| 0 <= i < r@.len() ==> #[trigger] r@[i] == player_state(catalog@[i], instances@),
{
    let mut out: Vec<ChallengePlayerState> = Vec::new();
    let mut i: usize = 0;
    while i < catalog.len()
        invariant
            i <= catalog@.len(),
            out@.len() == i,
            forall|j: int| 0 <= j < i ==> #[trigger] out@[j] == player_state(catalog@[j], instances@),
        decreases catalog@.len() - i,
    {
        let c = &catalog[i];
        let entry = match first_row_for(instances, &c.id) {
            Some(k) => {
                let row = &instances[k];
                ChallengePlayerState {
                    id: c.id.clone(),
                    name: c.name.clone(),
                    description: clone_opt_string(&c.description),
                    state: row.state,
                    stop_time: row.stop_time,
                    details: clone_opt_string(&row.details),
                }
            },
            None => ChallengePlayerState {
                id: c.id.clone(),
                name: c.name.clone(),
                description: clone_opt_string(&c.description),
                state: ChallengeInstanceState::Stopped,
                stop_time: None,
                details: None,
            },
        };
        out.push(entry);
        i += 1;
    }
    out
}

/// The outbound form of a broadcast update, for the session of `user_id`
/// only: `None` for another user's update.
pub fn forward_update(update: DeploymentUpdate, user_id: &str) -> (r: Option<ClientBoundMessage>)
    ensures
        update.user_id@ != user_id@ ==> r is None,
        update.user_id@ == user_id@ ==> r == Some(
            match update.details {
                DeploymentUpdateDetails::StateChange { state, details, stop_time } => ClientBoundMessage::ChallengeStateChange {
                    id: update.challenge_id,
                    state,
                    details,
                    stop_time,
                },
                DeploymentUpdateDetails::Message { contents, severity } => ClientBoundMessage::Message {
                    id: update.challenge_id,
                    contents,
                    severity,
                },
            },
        ),
{
    if update.user_id != String::from_str(user_id) {
        return None;
    }
    match update.details {
        DeploymentUpdateDetails::StateChange { state, details, stop_time } => Some(
            ClientBoundMessage::ChallengeStateChange { id: update.challenge_id, state, details, stop_time },
        ),
        DeploymentUpdateDetails::Message { contents, severity } => Some(
            ClientBoundMessage::Message { id: update.challenge_id, contents, severity },
        ),
    }
}

/// The reply to a heartbeat.
pub fn heartbeat_reply() -> (r: ClientBoundMessage)
    ensures
        r is Heartbeat,
{
    ClientBoundMessage::Heartbeat
}

pub open spec fn is_client_state_change(
    m: ClientBoundMessage,
    id: Seq<char>,
    state: ChallengeInstanceState,
    details: Option<String>,
    stop_time: Option<TimeSinceEpoch>,
) -> bool {
    m matches ClientBoundMessage::ChallengeStateChange { id: i, state: s, details: d, stop_time: t } && i@ == id && s == state
        && d == details && t == stop_time
}

pub open spec fn is_client_message(m: ClientBoundMessage, id: Seq<char>, contents: Seq<char>, severity: MessageSeverity) -> bool {
    m matches ClientBoundMessage::Message { id: i, contents: c, severity: s } && i@ == id && c@ == contents && s == severity
}

/// The warning for a user at the concurrency limit `max`.
pub open spec fn limit_text(max: u32) -> Seq<char> {
    "Vous avez atteint la limite de "@ + decimal(max as nat) + " défis concurrents."@
}

/// Whole seconds to wait, rounded up, for a wait of `wait_ms` milliseconds.
pub open spec fn wait_seconds(wait_ms: u64) -> nat {
    ((wait_ms + 999) / 1000) as nat
}

/// The warning for a user who acts again too soon.
pub open spec fn wait_text(seconds: nat) -> Seq<char> {
    "Veuillez attendre "@ + decimal(seconds) + (if seconds == 1 {
        " seconde"@
    } else {
        " secondes"@
    }) + " avant votre prochaine action."@
}

/// The confirmation of an extension of the challenge named `name`.
pub open spec fn extended_text(name: Seq<char>) -> Seq<char> {
    framed("Le défi <strong>"@, name, "</strong> a été étendu."@)
}

pub open spec fn in_catalog(catalog: Seq<Challenge>, id: Seq<char>) -> bool {
    exists|i: int| 0 <= i < catalog.len() && #[trigger] catalog[i].id@ == id
}

/// Position of the first catalog challenge with id `id`.
pub open spec fn catalog_index(catalog: Seq<Challenge>, id: Seq<char>) -> int {
    choose|i: int|
        0 <= i < catalog.len() && #[trigger] catalog[i].id@ == id && forall|j: int| 0 <= j < i ==> (#[trigger] catalog[j]).id@ != id
}

fn client_state_change(
    id: &String,
    state: ChallengeInstanceState,
    details: Option<String>,
    stop_time: Option<TimeSinceEpoch>,
) -> (r: ClientBoundMessage)
    ensures
        is_client_state_change(r, id@, state, details, stop_time),
{
    ClientBoundMessage::ChallengeStateChange { id: id.clone(), state, details, stop_time }
}

fn limit_message(max: u32) -> (r: String)
    ensures
        r@ == limit_text(max),
{
    String::from_str("Vous avez atteint la limite de ").concat(decimal_string(max as u64).as_str()).concat(" défis concurrents.")
}

fn wait_message(wait_ms: u64) -> (r: String)
    ensures
        r@ == wait_text(wait_seconds(wait_ms)),
{
    let seconds = wait_ms / 1000 + if wait_ms % 1000 == 0 { 0 } else { 1 };
    assert(seconds == wait_seconds(wait_ms));
    let unit = if seconds == 1 { " seconde" } else { " secondes" };
    String::from_str("Veuillez attendre ").concat(decimal_string(seconds).as_str()).concat(unit).concat(
        " avant votre prochaine action.",
    )
}

fn request_for(user_id: &String, challenge_id: &String, command: DeploymentRequestCommand) -> (r: DeploymentRequest)
    ensures
        r == (DeploymentRequest { user_id: *user_id, challenge_id: *challenge_id, command }),
{
    DeploymentRequest { user_id: user_id.clone(), challenge_id: challenge_id.clone(), command }
}

/// Handles a `ChallengeAction` from the session of `user_id` on
/// `challenge_id` at `now`. `rate_wait_ms` is the rate limiter's verdict on
/// this action: `None` when it is allowed, else how long the user must
/// wait.
///
/// - While shutting down the action is dropped.
/// - An id outside the catalog closes the session.
/// - A denied action gets a warning with the wait in whole seconds.
/// - Start inserts a `QueuedStart` row under `max_concurrent`: once
///   inserted, a Start request and the `QueuedStart` state; at the limit, a
///   warning naming it; if the row exists, nothing.
/// - Stop and Restart move a `Running` row to `QueuedStop` or
///   `QueuedRestart`, then enqueue the request and announce the state.
/// - Extend moves the stop time of a `Running` row to `now` plus the TTL,
///   pushes it into the expiry queue, announces it and confirms.
///
/// Nothing else is changed.
pub fn dispatch_action(
    store: &mut Store,
    expiries: &mut ExpiryQueue,
    catalog: &Vec<Challenge>,
    user_id: &String,
    challenge_id: &String,
    action: ChallengeActionCommand,
    max_concurrent: u32,
    now: TimeSinceEpoch,
    rate_wait_ms: Option<u64>,
    shutting_down: bool,
) -> (r: SessionReaction)
    requires
        old(store)@.wf(),
        old(expiries).wf(),
    ensures
        final(store)@.wf(),
        final(expiries).wf(),
        old(store)@.consistent() ==> final(store)@.consistent(),
        tracks_running(old(store)@, old(expiries)@) ==> tracks_running(final(store)@, final(expiries)@),
        ({
            let u = user_id@;
            let c = challenge_id@;
            let s0 = old(store)@;
            let q0 = old(expiries)@;
            let acts = !shutting_down && in_catalog(catalog@, c) && rate_wait_ms is None;
            &&& r.close <==> (!shutting_down && !in_catalog(catalog@, c))
            &&& !acts ==> final(store)@ == s0 && final(expiries)@ == q0 && r.request is None
            &&& (shutting_down || !in_catalog(catalog@, c)) ==> r.replies@.len() == 0
            &&& !shutting_down && in_catalog(catalog@, c) && rate_wait_ms is Some ==> r.replies@.len() == 1
                && is_client_message(r.replies@[0], c, wait_text(wait_seconds(rate_wait_ms->Some_0)), MessageSeverity::Warning)
            &&& acts && action is Start ==> {
                let row = ChallengeInstance {
                    user_id: *user_id,
                    challenge_id: *challenge_id,
                    state: ChallengeInstanceState::QueuedStart,
                    details: None,
                    stop_time: None,
                };
                let outcome = s0.insertion_outcome(u, c, max_concurrent);
                &&& final(expiries)@ == q0
                &&& outcome is Inserted ==> final(store)@ == s0.inserted(row)
                    && r.request == Some(DeploymentRequest { user_id: *user_id, challenge_id: *challenge_id, command: DeploymentRequestCommand::Start })
                    && r.replies@.len() == 1
                    && is_client_state_change(r.replies@[0], c, ChallengeInstanceState::QueuedStart, None, None)
                &&& outcome is LimitReached ==> final(store)@ == s0 && r.request is None && r.replies@.len() == 1
                    && is_client_message(r.replies@[0], c, limit_text(max_concurrent), MessageSeverity::Warning)
                &&& outcome is Exists ==> final(store)@ == s0 && r.request is None && r.replies@.len() == 0
            }
            &&& acts && (action is Stop || action is Restart) ==> {
                let (to, command) = if action is Stop {
                    (ChallengeInstanceState::QueuedStop, DeploymentRequestCommand::Stop)
                } else {
                    (ChallengeInstanceState::QueuedRestart, DeploymentRequestCommand::Restart)
                };
                let moved = s0.in_state(u, c, ChallengeInstanceState::Running);
                &&& final(expiries)@ == q0
                &&& moved ==> final(store)@ == s0.with_state(u, c, to)
                    && r.request == Some(DeploymentRequest { user_id: *user_id, challenge_id: *challenge_id, command })
                    && r.replies@.len() == 1 && is_client_state_change(r.replies@[0], c, to, None, None)
                &&& !moved ==> final(store)@ == s0 && r.request is None && r.replies@.len() == 0
            }
            &&& acts && action is Extend ==> {
                let challenge = catalog@[catalog_index(catalog@, c)];
                let t = now.after(challenge.ttl_duration_spec());
                let moved = s0.in_state(u, c, ChallengeInstanceState::Running);
                &&& r.request is None
                &&& moved ==> final(store)@ == s0.extended(u, c, t) && final(expiries)@ == q0.insert((u, c), t.0)
                    && r.replies@.len() == 2
                    && is_client_state_change(r.replies@[0], c, ChallengeInstanceState::Running, None, Some(t))
                    && is_client_message(r.replies@[1], c, extended_text(challenge.name@), MessageSeverity::Success)
                &&& !moved ==> final(store)@ == s0 && final(expiries)@ == q0 && r.replies@.len() == 0
            }
        }),
{
    let ghost v0 = store@;
    let ghost q0 = expiries@;
    let mut replies: Vec<ClientBoundMessage> = Vec::new();
    if shutting_down {
        return SessionReaction { close: false, request: None, replies };
    }
    let index = match find_challenge(catalog, challenge_id.as_str()) {
        Some(index) => index,
        None => {
            return SessionReaction { close: true, request: None, replies };
        },
    };
    proof {
        let k = catalog_index(catalog@, challenge_id@);
        assert(catalog@[index as int].id@ == challenge_id@);
        if k != index {
            assert(catalog@[k].id@ == challenge_id@);
        }
    }
    let challenge = &catalog[index];
    if let Some(wait_ms) = rate_wait_ms {
        replies.push(
            ClientBoundMessage::Message {
                id: challenge_id.clone(),
                contents: wait_message(wait_ms),
                severity: MessageSeverity::Warning,
            },
        );
        return SessionReaction { close: false, request: None, replies };
    }
    match action {
        ChallengeActionCommand::Start => {
            let row = ChallengeInstance {
                user_id: user_id.clone(),
                challenge_id: challenge_id.clone(),
                state: ChallengeInstanceState::QueuedStart,
                details: None,
                stop_time: None,
            };
            match store.insert_challenge_instance(&row, max_concurrent) {
                ChallengeInstanceInsertionResult::Inserted => {
                    proof {
                        if tracks_running(v0, q0) {
                            lemma_tracks_inserted(v0, q0, row);
                        }
                    }
                    replies.push(client_state_change(challenge_id, ChallengeInstanceState::QueuedStart, None, None));
                    SessionReaction {
                        close: false,
                        request: Some(request_for(user_id, challenge_id, DeploymentRequestCommand::Start)),
                        replies,
                    }
                },
                ChallengeInstanceInsertionResult::LimitReached => {
                    replies.push(
                        ClientBoundMessage::Message {
                            id: challenge_id.clone(),
                            contents: limit_message(max_concurrent),
                            severity: MessageSeverity::Warning,
                        },
                    );
                    SessionReaction { close: false, request: None, replies }
                },
                ChallengeInstanceInsertionResult::Exists => SessionReaction { close: false, request: None, replies },
            }
        },
        ChallengeActionCommand::Stop | ChallengeActionCommand::Restart => {
            let (to, command) = if action == ChallengeActionCommand::Stop {
                (ChallengeInstanceState::QueuedStop, DeploymentRequestCommand::Stop)
            } else {
                (ChallengeInstanceState::QueuedRestart, DeploymentRequestCommand::Restart)
            };
            if store.transition_challenge_instance_state(
                user_id.as_str(),
                challenge_id.as_str(),
                ChallengeInstanceState::Running,
                to,
            ) {
                proof {
                    if tracks_running(v0, q0) {
                        lemma_tracks_state_change(v0, q0, user_id@, challenge_id@, to);
                    }
                }
                replies.push(client_state_change(challenge_id, to, None, None));
                SessionReaction { close: false, request: Some(request_for(user_id, challenge_id, command)), replies }
            } else {
                SessionReaction { close: false, request: None, replies }
            }
        },
        ChallengeActionCommand::Extend => {
            let stop_time = now.after(challenge.ttl_duration());
            if store.extend_challenge_instance(user_id.as_str(), challenge_id.as_str(), stop_time) {
                expiries.push(user_id.clone(), challenge_id.clone(), stop_time);
                proof {
                    if tracks_running(v0, q0) {
                        lemma_tracks_extended(v0, q0, user_id@, challenge_id@, stop_time);
                    }
                }
                replies.push(client_state_change(challenge_id, ChallengeInstanceState::Running, None, Some(stop_time)));
                let text = String::from_str("Le défi <strong>").concat(challenge.name.as_str()).concat("</strong> a été étendu.");
                replies.push(ClientBoundMessage::Message { id: challenge_id.clone(), contents: text, severity: MessageSeverity::Success });
                SessionReaction { close: false, request: None, replies }
            } else {
                SessionReaction { close: false, request: None, replies }
            }
        },
    }
}

} // verus!
