//! The deployment worker's decisions: what a finished deployer run does to
//! the store and the expiry queue and which updates it broadcasts, the
//! periodic expiry sweep, and crash recovery.

use vstd::prelude::*;

use crate::expiry::{due, entry_key, pending, ExpiryQueue};
use crate::models::{ChallengeInstance, ChallengeInstanceState, TimeSinceEpoch};
use crate::store::{
    is_key, lemma_deleted_lookup, lemma_deleted_wf, lemma_inserted_lookup, lemma_instance_index, lemma_position_of_key, lemma_with_row_lookup,
    Store, StoreView,
};

verus! {

/// A challenge of the catalog.
#[derive(Debug)]
pub struct Challenge {
    pub id: String,
    pub name: String,
    pub description: Option<String>,
    /// Time to live of an instance, in seconds.
    pub ttl: u32,
    pub deployer_path: String,
}

impl Challenge {
    /// The time to live in milliseconds.
    pub open spec fn ttl_duration_spec(&self) -> u64 {
        (self.ttl * 1000) as u64
    }

    #[verifier::when_used_as_spec(ttl_duration_spec)]
    pub fn ttl_duration(&self) -> (r: u64)
        ensures
            r == self.ttl_duration_spec(),
            r == self.ttl * 1000,
    {
        self.ttl as u64 * 1000
    }
}

/// What a deployment request asks the deployer to do.
#[derive(Debug, Clone, Copy, PartialEq, Eq, Structural)]
pub enum DeploymentRequestCommand {
    Start,
    Stop,
    Restart,
    Cleanup,
}

impl DeploymentRequestCommand {
    /// The action argument handed to the deployer executable.
    pub open spec fn name(self) -> Seq<char> {
        match self {
            DeploymentRequestCommand::Start => "start"@,
            DeploymentRequestCommand::Stop => "stop"@,
            DeploymentRequestCommand::Restart => "restart"@,
            DeploymentRequestCommand::Cleanup => "cleanup"@,
        }
    }

    pub fn as_str(&self) -> (r: &'static str)
        ensures
            r@ == self.name(),
    {
        match self {
            DeploymentRequestCommand::Start => "start",
            DeploymentRequestCommand::Stop => "stop",
            DeploymentRequestCommand::Restart => "restart",
            DeploymentRequestCommand::Cleanup => "cleanup",
        }
    }
}

/// A request for the worker pool.
#[derive(Debug)]
pub struct DeploymentRequest {
    pub user_id: String,
    pub challenge_id: String,
    pub command: DeploymentRequestCommand,
}

/// How a user-visible message is shown.
#[derive(Debug, Clone, Copy, PartialEq, Eq, Structural)]
pub enum MessageSeverity {
    Success,
    Info,
    Warning,
    Error,
}

impl MessageSeverity {
    pub open spec fn name(self) -> Seq<char> {
        match self {
            MessageSeverity::Success => "success"@,
            MessageSeverity::Info => "info"@,
            MessageSeverity::Warning => "warning"@,
            MessageSeverity::Error => "error"@,
        }
    }

    pub fn as_str(&self) -> (r: &'static str)
        ensures
            r@ == self.name(),
    {
        match self {
            MessageSeverity::Success => "success",
            MessageSeverity::Info => "info",
            MessageSeverity::Warning => "warning",
            MessageSeverity::Error => "error",
        }
    }
}

/// What changed: a new state, or a message for the user.
#[derive(Debug, Clone)]
pub enum DeploymentUpdateDetails {
    StateChange { state: ChallengeInstanceState, details: Option<String>, stop_time: Option<TimeSinceEpoch> },
    Message { contents: String, severity: MessageSeverity },
}

/// A change broadcast to the sessions of `user_id`.
#[derive(Debug, Clone)]
pub struct DeploymentUpdate {
    pub user_id: String,
    pub challenge_id: String,
    pub details: DeploymentUpdateDetails,
}

/// A cleanup failed: the instance cannot be reclaimed without an operator.
#[derive(Debug, Clone, Copy, PartialEq, Eq, Structural)]
pub enum FatalError {
    CleanupFailed,
}

/// What the worker does after a deployer run: an optional follow-up
/// request, then a state change and a message, in that order.
#[derive(Debug)]
pub struct RequestCompletion {
    pub follow_up: Option<DeploymentRequest>,
    pub state_change: DeploymentUpdate,
    pub message: DeploymentUpdate,
}

pub open spec fn framed(prefix: Seq<char>, name: Seq<char>, suffix: Seq<char>) -> Seq<char> {
    prefix + name + suffix
}

fn framed_text(prefix: &str, name: &String, suffix: &str) -> (r: String)
    ensures
        r@ == framed(prefix@, name@, suffix@),
{
    String::from_str(prefix).concat(name.as_str()).concat(suffix)
}

/// The message shown after a deployer run for `command` on the challenge
/// named `name`, which succeeded or not.
pub open spec fn outcome_text(command: DeploymentRequestCommand, succeeded: bool, name: Seq<char>) -> Seq<char> {
    let p = "Le défi <strong>"@;
    match (command, succeeded) {
        (DeploymentRequestCommand::Start, true) => framed(p, name, "</strong> a été démarré!"@),
        (DeploymentRequestCommand::Start, false) => framed(p, name, "</strong> n'a pas pu être démarré.<br>Contactez un administrateur si l'erreur persiste."@),
        (DeploymentRequestCommand::Stop, true) => framed(p, name, "</strong> a été arrêté."@),
        (DeploymentRequestCommand::Stop, false) => framed(p, name, "</strong> n'a pas pu être arrêté.<br>Contactez un administrateur si l'erreur persiste."@),
        (DeploymentRequestCommand::Restart, true) => framed(p, name, "</strong> a été redémarré!"@),
        (DeploymentRequestCommand::Restart, false) => framed(p, name, "</strong> n'a pas pu être redémarré.<br>Contactez un administrateur si l'erreur persiste."@),
        (DeploymentRequestCommand::Cleanup, _) => framed(p, name, "</strong> a été réinitialisé."@),
    }
}

fn outcome_message(command: DeploymentRequestCommand, succeeded: bool, name: &String) -> (r: String)
    ensures
        r@ == outcome_text(command, succeeded, name@),
{
    let p = "Le défi <strong>";
    match (command, succeeded) {
        (DeploymentRequestCommand::Start, true) => framed_text(p, name, "</strong> a été démarré!"),
        (DeploymentRequestCommand::Start, false) => framed_text(p, name, "</strong> n'a pas pu être démarré.<br>Contactez un administrateur si l'erreur persiste."),
        (DeploymentRequestCommand::Stop, true) => framed_text(p, name, "</strong> a été arrêté."),
        (DeploymentRequestCommand::Stop, false) => framed_text(p, name, "</strong> n'a pas pu être arrêté.<br>Contactez un administrateur si l'erreur persiste."),
        (DeploymentRequestCommand::Restart, true) => framed_text(p, name, "</strong> a été redémarré!"),
        (DeploymentRequestCommand::Restart, false) => framed_text(p, name, "</strong> n'a pas pu être redémarré.<br>Contactez un administrateur si l'erreur persiste."),
        (DeploymentRequestCommand::Cleanup, _) => framed_text(p, name, "</strong> a été réinitialisé."),
    }
}

/// A deployer's stdout line carries a detail when it starts with `$ `.
pub open spec fn is_detail_line(line: Seq<char>) -> bool {
    line.len() >= 2 && line[0] == '$' && line[1] == ' '
}

/// `lines` joined by `\n`.
pub open spec fn joined(lines: Seq<Seq<char>>) -> Seq<char>
    decreases lines.len(),
{
    if lines.len() == 0 {
        Seq::empty()
    } else if lines.len() == 1 {
        lines[0]
    } else {
        joined(lines.drop_last()) + "\n"@ + lines.last()
    }
}

/// The details carried by the stdout lines `stdout`: each detail line with
/// its `$ ` taken off, in order.
pub open spec fn detail_lines(stdout: Seq<Seq<char>>) -> Seq<Seq<char>>
    decreases stdout.len(),
{
    if stdout.len() == 0 {
        Seq::empty()
    } else if is_detail_line(stdout.last()) {
        detail_lines(stdout.drop_last()).push(stdout.last().subrange(2, stdout.last().len() as int))
    } else {
        detail_lines(stdout.drop_last())
    }
}

/// The details a deployer prints, gathered line by line from its stdout.
/// Its view is the stdout lines read so far; the text is the stripped
/// detail lines joined by `\n`.
pub struct DeployerDetails {
    text: String,
    seen_detail: bool,
    stdout: Ghost<Seq<Seq<char>>>,
}

impl View for DeployerDetails {
    type V = Seq<Seq<char>>;

    closed spec fn view(&self) -> Seq<Seq<char>> {
        self.stdout@
    }
}

impl DeployerDetails {
    pub closed spec fn wf(&self) -> bool {
        &&& self.text@ == joined(detail_lines(self.stdout@))
        &&& self.seen_detail == (detail_lines(self.stdout@).len() > 0)
    }

    /// Nothing read yet.
    pub fn new() -> (r: DeployerDetails)
        ensures
            r.wf(),
            r@ == Seq::<Seq<char>>::empty(),
    {
        DeployerDetails { text: String::new(), seen_detail: false, stdout: Ghost(Seq::empty()) }
    }

    /// Reads one more stdout line.
    pub fn take_line(&mut self, line: &str)
        requires
            old(self).wf(),
        ensures
            final(self).wf(),
            final(self)@ == old(self)@.push(line@),
    {
        let ghost before = self.stdout@;
        self.stdout = Ghost(before.push(line@));
        proof {
            assert(self.stdout@.drop_last() =~= before);
        }
        let n = line.unicode_len();
        if n < 2 || line.get_char(0) != '$' || line.get_char(1) != ' ' {
            return;
        }
        let rest = line.substring_char(2, n);
        let ghost lines = detail_lines(self.stdout@);
        proof {
            assert(lines.drop_last() =~= detail_lines(before));
        }
        if self.seen_detail {
            self.text.append("\n");
        }
        self.text.append(rest);
        self.seen_detail = true;
        proof {
            if lines.len() == 1 {
                assert(self.text@ =~= joined(lines));
            } else {
                assert(self.text@ =~= joined(lines));
            }
        }
    }

    /// The details read: the stripped detail lines joined by `\n`.
    pub fn into_text(self) -> (r: String)
        requires
            self.wf(),
        ensures
            r@ == joined(detail_lines(self@)),
    {
        self.text
    }
}

/// Position of the first challenge of `catalog` with id `id`.
pub fn find_challenge(catalog: &Vec<Challenge>, id: &str) -> (r: Option<usize>)
    ensures
        match r {
            Some(i) => i < catalog@.len() && catalog@[i as int].id@ == id@
                && forall|j: int| 0 <= j < i ==> (#[trigger] catalog@[j]).id@ != id@,
            None => forall|j: int| 0 <= j < catalog@.len() ==> (#[trigger] catalog@[j]).id@ != id@,
        },
{
    let wanted = String::from_str(id);
    let mut i: usize = 0;
    while i < catalog.len()
        invariant
            i <= catalog@.len(),
            wanted@ == id@,
            forall|j: int| 0 <= j < i ==> (#[trigger] catalog@[j]).id@ != id@,
        decreases catalog@.len() - i,
    {
        if catalog[i].id == wanted {
            return Some(i);
        }
        i += 1;
    }
    None
}

/// Severity of the message that follows a deployer run.
pub open spec fn outcome_severity(command: DeploymentRequestCommand, succeeded: bool) -> MessageSeverity {
    if !succeeded {
        MessageSeverity::Error
    } else if command is Cleanup {
        MessageSeverity::Info
    } else {
        MessageSeverity::Success
    }
}

/// State announced after a deployer run: the new state on success, the
/// state the row stays in on failure.
pub open spec fn outcome_state(command: DeploymentRequestCommand, succeeded: bool) -> ChallengeInstanceState {
    match command {
        DeploymentRequestCommand::Start => if succeeded {
            ChallengeInstanceState::Running
        } else {
            ChallengeInstanceState::QueuedStart
        },
        DeploymentRequestCommand::Stop => if succeeded {
            ChallengeInstanceState::Stopped
        } else {
            ChallengeInstanceState::QueuedStop
        },
        DeploymentRequestCommand::Restart => if succeeded {
            ChallengeInstanceState::Running
        } else {
            ChallengeInstanceState::QueuedRestart
        },
        DeploymentRequestCommand::Cleanup => ChallengeInstanceState::Stopped,
    }
}

pub open spec fn is_request(r: DeploymentRequest, user_id: Seq<char>, challenge_id: Seq<char>, command: DeploymentRequestCommand) -> bool {
    r.user_id@ == user_id && r.challenge_id@ == challenge_id && r.command == command
}

pub open spec fn is_state_change(
    up: DeploymentUpdate,
    user_id: Seq<char>,
    challenge_id: Seq<char>,
    state: ChallengeInstanceState,
    details: Option<String>,
    stop_time: Option<TimeSinceEpoch>,
) -> bool {
    &&& up.user_id@ == user_id
    &&& up.challenge_id@ == challenge_id
    &&& up.details == (DeploymentUpdateDetails::StateChange { state, details, stop_time })
}

pub open spec fn is_message(up: DeploymentUpdate, user_id: Seq<char>, challenge_id: Seq<char>, contents: Seq<char>, severity: MessageSeverity) -> bool {
    &&& up.user_id@ == user_id
    &&& up.challenge_id@ == challenge_id
    &&& up.details matches DeploymentUpdateDetails::Message { contents: c, severity: s } && c@ == contents && s == severity
}

fn state_change(
    user_id: &String,
    challenge_id: &String,
    state: ChallengeInstanceState,
    details: Option<String>,
    stop_time: Option<TimeSinceEpoch>,
) -> (r: DeploymentUpdate)
    ensures
        is_state_change(r, user_id@, challenge_id@, state, details, stop_time),
{
    DeploymentUpdate {
        user_id: user_id.clone(),
        challenge_id: challenge_id.clone(),
        details: DeploymentUpdateDetails::StateChange { state, details, stop_time },
    }
}

fn message(user_id: &String, challenge_id: &String, contents: String, severity: MessageSeverity) -> (r: DeploymentUpdate)
    ensures
        is_message(r, user_id@, challenge_id@, contents@, severity),
{
    DeploymentUpdate {
        user_id: user_id.clone(),
        challenge_id: challenge_id.clone(),
        details: DeploymentUpdateDetails::Message { contents, severity },
    }
}

/// Applies the result of the deployer run for `request` on `challenge`,
/// finished at `now`: `Ok` carries the details the deployer printed.
///
/// - Start: on success the instance stops at `now` plus the TTL; that time
///   goes into the expiry queue and the row becomes `Running` with the
///   details. On failure a cleanup follows.
/// - Stop, Cleanup: on success the key leaves the expiry queue and the row
///   is deleted. A failed Stop is followed by a cleanup; a failed cleanup is
///   fatal and changes nothing.
/// - Restart: on success the row is `Running` again, details and stop time
///   kept; on failure a cleanup follows.
///
/// A failed run changes neither the store nor the queue. Each completion
/// announces the state, then a message naming the challenge.
pub fn complete_request(
    store: &mut Store,
    expiries: &mut ExpiryQueue,
    challenge: &Challenge,
    request: &DeploymentRequest,
    outcome: Result<String, ()>,
    now: TimeSinceEpoch,
) -> (r: Result<RequestCompletion, FatalError>)
    requires
        old(store)@.wf(),
        old(expiries).wf(),
        challenge.id@ == request.challenge_id@,
    ensures
        final(store)@.wf(),
        final(expiries).wf(),
        r is Err <==> (request.command is Cleanup && outcome is Err),
        r is Err ==> final(store)@ == old(store)@ && final(expiries)@ == old(expiries)@,
        ({
            let u = request.user_id@;
            let c = request.challenge_id@;
            let ok = outcome is Ok;
            let stop = now.after(challenge.ttl_duration_spec());
            match r {
                Ok(done) => {
                    &&& is_state_change(
                        done.state_change,
                        u,
                        c,
                        outcome_state(request.command, ok),
                        if ok && request.command is Start { Some(outcome->Ok_0) } else { None },
                        if ok && request.command is Start { Some(stop) } else { None },
                    )
                    &&& is_message(done.message, u, c, outcome_text(request.command, ok, challenge.name@), outcome_severity(request.command, ok))
                    &&& match done.follow_up {
                        Some(f) => !ok && is_request(f, u, c, DeploymentRequestCommand::Cleanup),
                        None => ok,
                    }
                    &&& !ok ==> final(store)@ == old(store)@ && final(expiries)@ == old(expiries)@
                    &&& ok && request.command is Start ==> final(store)@ == old(store)@.populated(u, c, outcome->Ok_0, stop)
                        && final(expiries)@ == old(expiries)@.insert((u, c), stop.0)
                    &&& ok && (request.command is Stop || request.command is Cleanup) ==> final(store)@ == old(store)@.deleted(u, c)
                        && final(expiries)@ == old(expiries)@.remove((u, c))
                    &&& ok && request.command is Restart ==> final(store)@ == old(store)@.with_state(u, c, ChallengeInstanceState::Running)
                        && final(expiries)@ == old(expiries)@
                },
                Err(_) => true,
            }
        }),
        old(store)@.consistent() && (request.command is Restart
            ==> old(store)@.state_change_keeps_consistency(request.user_id@, request.challenge_id@, ChallengeInstanceState::Running))
            ==> final(store)@.consistent(),
        tracks_running(old(store)@, old(expiries)@) && (request.command is Restart
            ==> entry_kept(old(store)@, old(expiries)@, request.user_id@, request.challenge_id@))
            ==> tracks_running(final(store)@, final(expiries)@),
{
    let ghost v0 = store@;
    let ghost q0 = expiries@;
    let u = &request.user_id;
    let c = &request.challenge_id;
    let command = request.command;
    match outcome {
        Ok(details) => {
            let text = outcome_message(command, true, &challenge.name);
            match command {
                DeploymentRequestCommand::Start => {
                    let stop_time = now.after(challenge.ttl_duration());
                    expiries.push(u.clone(), c.clone(), stop_time);
                    let shown = details.clone();
                    store.populate_running_challenge_instance(u.as_str(), c.as_str(), details, stop_time);
                    proof {
                        if tracks_running(v0, q0) {
                            lemma_tracks_populated(v0, q0, u@, c@, shown, stop_time);
                        }
                    }
                    Ok(RequestCompletion {
                        follow_up: None,
                        state_change: state_change(u, c, ChallengeInstanceState::Running, Some(shown), Some(stop_time)),
                        message: message(u, c, text, MessageSeverity::Success),
                    })
                },
                DeploymentRequestCommand::Stop | DeploymentRequestCommand::Cleanup => {
                    expiries.pop_key(u.as_str(), c.as_str());
                    store.delete_challenge_instance(u.as_str(), c.as_str());
                    proof {
                        if tracks_running(v0, q0) {
                            lemma_tracks_deleted(v0, q0, u@, c@);
                        }
                    }
                    let severity = if command == DeploymentRequestCommand::Stop {
                        MessageSeverity::Success
                    } else {
                        MessageSeverity::Info
                    };
                    Ok(RequestCompletion {
                        follow_up: None,
                        state_change: state_change(u, c, ChallengeInstanceState::Stopped, None, None),
                        message: message(u, c, text, severity),
                    })
                },
                DeploymentRequestCommand::Restart => {
                    store.update_challenge_instance_state(u.as_str(), c.as_str(), ChallengeInstanceState::Running);
                    proof {
                        if tracks_running(v0, q0) && entry_kept(v0, q0, u@, c@) {
                            lemma_tracks_state_change(v0, q0, u@, c@, ChallengeInstanceState::Running);
                        }
                    }
                    Ok(RequestCompletion {
                        follow_up: None,
                        state_change: state_change(u, c, ChallengeInstanceState::Running, None, None),
                        message: message(u, c, text, MessageSeverity::Success),
                    })
                },
            }
        },
        Err(()) => {
            if command == DeploymentRequestCommand::Cleanup {
                return Err(FatalError::CleanupFailed);
            }
            let text = outcome_message(command, false, &challenge.name);
            let stays = if command == DeploymentRequestCommand::Start {
                ChallengeInstanceState::QueuedStart
            } else if command == DeploymentRequestCommand::Stop {
                ChallengeInstanceState::QueuedStop
            } else {
                ChallengeInstanceState::QueuedRestart
            };
            Ok(RequestCompletion {
                follow_up: Some(DeploymentRequest {
                    user_id: u.clone(),
                    challenge_id: c.clone(),
                    command: DeploymentRequestCommand::Cleanup,
                }),
                state_change: state_change(u, c, stays, None, None),
                message: message(u, c, text, MessageSeverity::Error),
            })
        },
    }
}

/// The store after the expiry sweep at `now` over the queue `q`: every row
/// whose key is due and that is `Running` becomes `QueuedStop`.
pub open spec fn expired(v: StoreView, q: Map<(Seq<char>, Seq<char>), u64>, now: u64) -> StoreView {
    StoreView {
        users: v.users,
        instances: Seq::new(
            v.instances.len(),
            |i: int|
                if due(q, now).contains_key((v.instances[i].user_id@, v.instances[i].challenge_id@))
                    && v.instances[i].state is Running {
                    ChallengeInstance { state: ChallengeInstanceState::QueuedStop, ..v.instances[i] }
                } else {
                    v.instances[i]
                },
        ),
    }
}

/// Two views with the same keys at every position find a key at the same
/// position.
proof fn lemma_same_keys(a: StoreView, b: StoreView, u: Seq<char>, c: Seq<char>)
    requires
        a.wf(),
        b.wf(),
        a.instances.len() == b.instances.len(),
        forall|i: int| 0 <= i < a.instances.len() ==> (#[trigger] a.instances[i]).user_id@ == b.instances[i].user_id@
            && a.instances[i].challenge_id@ == b.instances[i].challenge_id@,
    ensures
        a.has_instance(u, c) == b.has_instance(u, c),
        a.has_instance(u, c) ==> a.instance_index(u, c) == b.instance_index(u, c),
{
    if a.has_instance(u, c) {
        let i = a.instance_index(u, c);
        lemma_instance_index(a, i);
        lemma_instance_index(b, i);
    }
    if b.has_instance(u, c) {
        let i = b.instance_index(u, c);
        assert(is_key(a.instances[i], u, c));
    }
}

/// Each `Running` row's stop time is its key's entry in the expiry queue
/// `q`.
pub open spec fn tracks_running(v: StoreView, q: Map<(Seq<char>, Seq<char>), u64>) -> bool {
    forall|u: Seq<char>, c: Seq<char>|
        #[trigger] v.in_state(u, c, ChallengeInstanceState::Running) ==> q.contains_key((u, c))
            && v.instance(u, c).stop_time == Some(TimeSinceEpoch(q[(u, c)]))
}

/// The key's row, if any, has its stop time in the queue: what a
/// successful restart needs to keep `tracks_running`.
pub open spec fn entry_kept(v: StoreView, q: Map<(Seq<char>, Seq<char>), u64>, u: Seq<char>, c: Seq<char>) -> bool {
    v.has_instance(u, c) ==> q.contains_key((u, c)) && v.instance(u, c).stop_time == Some(TimeSinceEpoch(q[(u, c)]))
}

/// A successful Start keeps every `Running` row's stop time in the queue:
/// the new stop time is pushed as the row becomes `Running` with it.
pub proof fn lemma_tracks_populated(
    v: StoreView,
    q: Map<(Seq<char>, Seq<char>), u64>,
    u: Seq<char>,
    c: Seq<char>,
    details: String,
    stop_time: TimeSinceEpoch,
)
    requires
        v.wf(),
        tracks_running(v, q),
    ensures
        tracks_running(v.populated(u, c, details, stop_time), q.insert((u, c), stop_time.0)),
{
    let w = v.populated(u, c, details, stop_time);
    let q1 = q.insert((u, c), stop_time.0);
    assert forall|u2: Seq<char>, c2: Seq<char>| #[trigger] w.in_state(u2, c2, ChallengeInstanceState::Running) implies q1.contains_key((u2, c2))
        && w.instance(u2, c2).stop_time == Some(TimeSinceEpoch(q1[(u2, c2)])) by {
        if v.has_instance(u, c) {
            let row = ChallengeInstance {
                state: ChallengeInstanceState::Running,
                details: Some(details),
                stop_time: Some(stop_time),
                ..v.instance(u, c)
            };
            lemma_instance_index(v, v.instance_index(u, c));
            lemma_with_row_lookup(v, u, c, row, u2, c2);
            if !(u2 == u && c2 == c) {
                assert(v.in_state(u2, c2, ChallengeInstanceState::Running));
            }
        } else {
            assert(v.in_state(u2, c2, ChallengeInstanceState::Running));
        }
    }
}

/// Deleting a key and dropping its entry keeps every `Running` row's stop
/// time in the queue.
pub proof fn lemma_tracks_deleted(v: StoreView, q: Map<(Seq<char>, Seq<char>), u64>, u: Seq<char>, c: Seq<char>)
    requires
        v.wf(),
        tracks_running(v, q),
    ensures
        tracks_running(v.deleted(u, c), q.remove((u, c))),
{
    let w = v.deleted(u, c);
    let q1 = q.remove((u, c));
    crate::store::lemma_delete_idempotent(v, u, c);
    assert forall|u2: Seq<char>, c2: Seq<char>| #[trigger] w.in_state(u2, c2, ChallengeInstanceState::Running) implies q1.contains_key((u2, c2))
        && w.instance(u2, c2).stop_time == Some(TimeSinceEpoch(q1[(u2, c2)])) by {
        lemma_deleted_lookup(v, u, c, u2, c2);
        assert(v.in_state(u2, c2, ChallengeInstanceState::Running));
    }
}

/// A state change keeps every `Running` row's stop time in the queue,
/// provided a row made `Running` still has its entry.
pub proof fn lemma_tracks_state_change(
    v: StoreView,
    q: Map<(Seq<char>, Seq<char>), u64>,
    u: Seq<char>,
    c: Seq<char>,
    to: ChallengeInstanceState,
)
    requires
        v.wf(),
        tracks_running(v, q),
        to is Running ==> entry_kept(v, q, u, c),
    ensures
        tracks_running(v.with_state(u, c, to), q),
{
    let w = v.with_state(u, c, to);
    assert forall|u2: Seq<char>, c2: Seq<char>| #[trigger] w.in_state(u2, c2, ChallengeInstanceState::Running) implies q.contains_key((u2, c2))
        && w.instance(u2, c2).stop_time == Some(TimeSinceEpoch(q[(u2, c2)])) by {
        if v.has_instance(u, c) {
            let row = ChallengeInstance { state: to, ..v.instance(u, c) };
            lemma_instance_index(v, v.instance_index(u, c));
            lemma_with_row_lookup(v, u, c, row, u2, c2);
            if !(u2 == u && c2 == c) {
                assert(v.in_state(u2, c2, ChallengeInstanceState::Running));
            }
        } else {
            assert(v.in_state(u2, c2, ChallengeInstanceState::Running));
        }
    }
}

/// An extension that pushes the new stop time keeps every `Running` row's
/// stop time in the queue.
pub proof fn lemma_tracks_extended(
    v: StoreView,
    q: Map<(Seq<char>, Seq<char>), u64>,
    u: Seq<char>,
    c: Seq<char>,
    stop_time: TimeSinceEpoch,
)
    requires
        v.wf(),
        tracks_running(v, q),
        v.has_instance(u, c),
    ensures
        tracks_running(v.extended(u, c, stop_time), q.insert((u, c), stop_time.0)),
{
    let w = v.extended(u, c, stop_time);
    let q1 = q.insert((u, c), stop_time.0);
    assert forall|u2: Seq<char>, c2: Seq<char>| #[trigger] w.in_state(u2, c2, ChallengeInstanceState::Running) implies q1.contains_key((u2, c2))
        && w.instance(u2, c2).stop_time == Some(TimeSinceEpoch(q1[(u2, c2)])) by {
        let row = ChallengeInstance { stop_time: Some(stop_time), ..v.instance(u, c) };
        lemma_instance_index(v, v.instance_index(u, c));
        lemma_with_row_lookup(v, u, c, row, u2, c2);
        if !(u2 == u && c2 == c) {
            assert(v.in_state(u2, c2, ChallengeInstanceState::Running));
        }
    }
}

/// A new row that is not `Running` keeps every `Running` row's stop time in
/// the queue.
pub proof fn lemma_tracks_inserted(v: StoreView, q: Map<(Seq<char>, Seq<char>), u64>, row: ChallengeInstance)
    requires
        v.wf(),
        tracks_running(v, q),
        !v.has_instance(row.user_id@, row.challenge_id@),
        !(row.state is Running),
    ensures
        tracks_running(v.inserted(row), q),
{
    let w = v.inserted(row);
    assert forall|u2: Seq<char>, c2: Seq<char>| #[trigger] w.in_state(u2, c2, ChallengeInstanceState::Running) implies q.contains_key((u2, c2))
        && w.instance(u2, c2).stop_time == Some(TimeSinceEpoch(q[(u2, c2)])) by {
        if u2 == row.user_id@ && c2 == row.challenge_id@ {
            let k = w.instance_index(u2, c2);
            if k < v.instances.len() {
                assert(w.instances[k] == v.instances[k]);
                assert(is_key(v.instances[k], u2, c2));
            }
        } else {
            lemma_inserted_lookup(v, row, u2, c2);
            assert(v.in_state(u2, c2, ChallengeInstanceState::Running));
        }
    }
}

/// The expiry sweep keeps every `Running` row's stop time in the queue: the
/// entries it takes out are those of rows it moves off `Running`, or of rows
/// already off it.
pub proof fn lemma_tracks_expired(v: StoreView, q: Map<(Seq<char>, Seq<char>), u64>, now: u64)
    requires
        v.wf(),
        tracks_running(v, q),
    ensures
        tracks_running(expired(v, q, now), pending(q, now)),
{
    let w = expired(v, q, now);
    let q1 = pending(q, now);
    assert forall|j: int| 0 <= j < w.instances.len() implies (#[trigger] w.instances[j]).user_id@ == v.instances[j].user_id@
        && w.instances[j].challenge_id@ == v.instances[j].challenge_id@ by {}
    assert forall|u2: Seq<char>, c2: Seq<char>| #[trigger] w.in_state(u2, c2, ChallengeInstanceState::Running) implies q1.contains_key((u2, c2))
        && w.instance(u2, c2).stop_time == Some(TimeSinceEpoch(q1[(u2, c2)])) by {
        let j = w.instance_index(u2, c2);
        lemma_position_of_key(w, v, j);
        assert(is_key(v.instances[j], u2, c2));
        lemma_instance_index(v, j);
        assert(v.in_state(u2, c2, ChallengeInstanceState::Running));
    }
}

/// The expiry sweep: takes every entry due at `now` out of the queue and
/// moves each such instance that is still `Running` to `QueuedStop`. For
/// each instance moved it hands back a Stop request and the `QueuedStop`
/// state change to broadcast.
pub fn expire_due(store: &mut Store, expiries: &mut ExpiryQueue, now: TimeSinceEpoch) -> (r: Vec<(DeploymentRequest, DeploymentUpdate)>)
    requires
        old(store)@.wf(),
        old(expiries).wf(),
    ensures
        final(store)@.wf(),
        final(expiries).wf(),
        final(expiries)@ == pending(old(expiries)@, now.0),
        final(store)@ == expired(old(store)@, old(expiries)@, now.0),
        old(store)@.consistent() ==> final(store)@.consistent(),
        tracks_running(old(store)@, old(expiries)@) ==> tracks_running(final(store)@, final(expiries)@),
        forall|i: int| #![trigger r@[i]] 0 <= i < r@.len() ==> {
            let u = r@[i].0.user_id@;
            let c = r@[i].0.challenge_id@;
            &&& is_request(r@[i].0, u, c, DeploymentRequestCommand::Stop)
            &&& is_state_change(r@[i].1, u, c, ChallengeInstanceState::QueuedStop, None, None)
            &&& due(old(expiries)@, now.0).contains_key((u, c))
            &&& old(store)@.in_state(u, c, ChallengeInstanceState::Running)
        },
        forall|k: (Seq<char>, Seq<char>)|
            due(old(expiries)@, now.0).contains_key(k) && #[trigger] old(store)@.in_state(k.0, k.1, ChallengeInstanceState::Running)
            ==> exists|i: int| 0 <= i < r@.len() && (#[trigger] r@[i]).0.user_id@ == k.0 && r@[i].0.challenge_id@ == k.1,
        forall|i: int, j: int| 0 <= i < j < r@.len() ==> !((#[trigger] r@[i]).0.user_id@ == (#[trigger] r@[j]).0.user_id@
            && r@[i].0.challenge_id@ == r@[j].0.challenge_id@),
{
    let ghost v0 = store@;
    let ghost q0 = expiries@;
    let ghost d = due(q0, now.0);
    let taken = expiries.take_due(now);
    let mut out: Vec<(DeploymentRequest, DeploymentUpdate)> = Vec::new();
    let ghost mut done: Set<(Seq<char>, Seq<char>)> = Set::empty();
    let mut j: usize = 0;
    while j < taken.len()
        invariant
            j <= taken@.len(),
            store@.wf(),
            store@.users == v0.users,
            store@.instances.len() == v0.instances.len(),
            v0.wf(),
            v0.consistent() ==> store@.consistent(),
            forall|i: int| #![trigger taken@[i]] 0 <= i < taken@.len() ==> d.contains_key(entry_key(taken@[i])),
            forall|i: int, k: int| 0 <= i < k < taken@.len() ==> entry_key(#[trigger] taken@[i]) != entry_key(#[trigger] taken@[k]),
            forall|k: (Seq<char>, Seq<char>)| #[trigger] d.contains_key(k) ==> exists|i: int|
                0 <= i < taken@.len() && entry_key(#[trigger] taken@[i]) == k,
            forall|i: int| 0 <= i < j ==> done.contains(entry_key(#[trigger] taken@[i])),
            forall|i: int| j <= i < taken@.len() ==> !done.contains(entry_key(#[trigger] taken@[i])),
            forall|k: (Seq<char>, Seq<char>)| #[trigger] done.contains(k) ==> d.contains_key(k),
            forall|i: int| #![trigger store@.instances[i]] 0 <= i < v0.instances.len() ==> store@.instances[i] == if done.contains(
                (v0.instances[i].user_id@, v0.instances[i].challenge_id@),
            ) && v0.instances[i].state is Running {
                ChallengeInstance { state: ChallengeInstanceState::QueuedStop, ..v0.instances[i] }
            } else {
                v0.instances[i]
            },
            forall|i: int| #![trigger out@[i]] 0 <= i < out@.len() ==> {
                let u = out@[i].0.user_id@;
                let c = out@[i].0.challenge_id@;
                &&& is_request(out@[i].0, u, c, DeploymentRequestCommand::Stop)
                &&& is_state_change(out@[i].1, u, c, ChallengeInstanceState::QueuedStop, None, None)
                &&& done.contains((u, c))
                &&& d.contains_key((u, c))
                &&& v0.in_state(u, c, ChallengeInstanceState::Running)
            },
            forall|k: (Seq<char>, Seq<char>)|
                done.contains(k) && #[trigger] v0.in_state(k.0, k.1, ChallengeInstanceState::Running)
                ==> exists|i: int| 0 <= i < out@.len() && (#[trigger] out@[i]).0.user_id@ == k.0 && out@[i].0.challenge_id@ == k.1,
            forall|i: int, k: int| 0 <= i < k < out@.len() ==> !((#[trigger] out@[i]).0.user_id@ == (#[trigger] out@[k]).0.user_id@
                && out@[i].0.challenge_id@ == out@[k].0.challenge_id@),
        decreases taken@.len() - j,
    {
        let e = &taken[j];
        let ghost k = entry_key(taken@[j as int]);
        let ghost cur = store@;
        proof {
            assert forall|i: int| 0 <= i < cur.instances.len() implies (#[trigger] cur.instances[i]).user_id@ == v0.instances[i].user_id@
                && cur.instances[i].challenge_id@ == v0.instances[i].challenge_id@ by {
                assert(cur.instances[i] == store@.instances[i]);
            }
            lemma_same_keys(cur, v0, k.0, k.1);
            if v0.has_instance(k.0, k.1) {
                let idx = v0.instance_index(k.0, k.1);
                assert(!done.contains((v0.instances[idx].user_id@, v0.instances[idx].challenge_id@)));
                assert(store@.instances[idx] == v0.instances[idx]);
            }
        }
        let moved = store.transition_challenge_instance_state(
            e.user_id.as_str(),
            e.challenge_id.as_str(),
            ChallengeInstanceState::Running,
            ChallengeInstanceState::QueuedStop,
        );
        let ghost old_out = out@;
        if moved {
            let request = DeploymentRequest {
                user_id: e.user_id.clone(),
                challenge_id: e.challenge_id.clone(),
                command: DeploymentRequestCommand::Stop,
            };
            let update = state_change(&e.user_id, &e.challenge_id, ChallengeInstanceState::QueuedStop, None, None);
            out.push((request, update));
        }
        proof {
            let new_done = done.insert(k);
            let after = store@;
            assert forall|i: int| #![trigger after.instances[i]] 0 <= i < v0.instances.len() implies after.instances[i] == if new_done.contains(
                (v0.instances[i].user_id@, v0.instances[i].challenge_id@),
            ) && v0.instances[i].state is Running {
                ChallengeInstance { state: ChallengeInstanceState::QueuedStop, ..v0.instances[i] }
            } else {
                v0.instances[i]
            } by {
                if moved {
                    let idx = cur.instance_index(k.0, k.1);
                    if i != idx {
                        assert(after.instances[i] == cur.instances[i]);
                        if (v0.instances[i].user_id@, v0.instances[i].challenge_id@) == k {
                            lemma_instance_index(v0, i);
                        }
                    }
                } else {
                    if (v0.instances[i].user_id@, v0.instances[i].challenge_id@) == k {
                        lemma_instance_index(v0, i);
                    }
                }
            }
            assert forall|i: int| 0 <= i < j + 1 implies new_done.contains(entry_key(#[trigger] taken@[i])) by {}
            assert forall|i: int| j + 1 <= i < taken@.len() implies !new_done.contains(entry_key(#[trigger] taken@[i])) by {
                assert(entry_key(taken@[j as int]) != entry_key(taken@[i]));
            }
            assert forall|i: int| #![trigger out@[i]] 0 <= i < out@.len() implies {
                let u = out@[i].0.user_id@;
                let c = out@[i].0.challenge_id@;
                &&& is_request(out@[i].0, u, c, DeploymentRequestCommand::Stop)
                &&& is_state_change(out@[i].1, u, c, ChallengeInstanceState::QueuedStop, None, None)
                &&& new_done.contains((u, c))
                &&& d.contains_key((u, c))
                &&& v0.in_state(u, c, ChallengeInstanceState::Running)
            } by {
                if i < old_out.len() {
                    assert(out@[i] == old_out[i]);
                }
            }
            assert forall|q: (Seq<char>, Seq<char>)|
                new_done.contains(q) && #[trigger] v0.in_state(q.0, q.1, ChallengeInstanceState::Running)
                implies exists|i: int| 0 <= i < out@.len() && (#[trigger] out@[i]).0.user_id@ == q.0 && out@[i].0.challenge_id@ == q.1 by {
                if q == k {
                    assert(out@[old_out.len() as int].0.user_id@ == q.0);
                } else {
                    assert(done.contains(q));
                    let i = choose|i: int| 0 <= i < old_out.len() && (#[trigger] old_out[i]).0.user_id@ == q.0 && old_out[i].0.challenge_id@ == q.1;
                    assert(out@[i] == old_out[i]);
                }
            }
            assert forall|a: int, b: int| 0 <= a < b < out@.len() implies !((#[trigger] out@[a]).0.user_id@ == (#[trigger] out@[b]).0.user_id@
                && out@[a].0.challenge_id@ == out@[b].0.challenge_id@) by {
                assert(out@[a] == old_out[a]);
                if b < old_out.len() {
                    assert(out@[b] == old_out[b]);
                }
            }
            done = new_done;
        }
        j += 1;
    }
    proof {
        assert forall|k: (Seq<char>, Seq<char>)| d.contains_key(k) implies #[trigger] done.contains(k) by {
            let i = choose|i: int| 0 <= i < taken@.len() && entry_key(#[trigger] taken@[i]) == k;
        }
        assert(store@.instances =~= expired(v0, q0, now.0).instances);
        if tracks_running(v0, q0) {
            lemma_tracks_expired(v0, q0, now.0);
        }
    }
    out
}

/// How long to wait before the next sweep.
pub const IDLE_WAIT_MS: u64 = 60000;

/// Milliseconds from `now` until the earliest stop time of the queue (0
/// when it is already due), or `IDLE_WAIT_MS` when the queue is empty.
pub fn time_until_next_expiry(expiries: &ExpiryQueue, now: TimeSinceEpoch) -> (r: u64)
    requires
        expiries.wf(),
    ensures
        expiries@ =~= Map::<(Seq<char>, Seq<char>), u64>::empty() ==> r == IDLE_WAIT_MS,
        !(expiries@ =~= Map::<(Seq<char>, Seq<char>), u64>::empty()) ==> exists|k: (Seq<char>, Seq<char>)| {
            &&& #[trigger] expiries@.contains_key(k)
            &&& forall|q: (Seq<char>, Seq<char>)| #[trigger] expiries@.contains_key(q) ==> expiries@[k] <= expiries@[q]
            &&& r == if expiries@[k] > now.0 { expiries@[k] - now.0 } else { 0 }
        },
{
    match expiries.peek() {
        Some(e) => {
            proof {
                assert(expiries@.contains_key(entry_key(e)));
            }
            if e.stop_time.0 > now.0 {
                e.stop_time.0 - now.0
            } else {
                0
            }
        },
        None => IDLE_WAIT_MS,
    }
}

/// A `Running` row without a stop time was found at startup.
#[derive(Debug, Clone, Copy, PartialEq, Eq, Structural)]
pub enum RecoveryError {
    RunningWithoutStopTime,
}

/// Keys of the rows left in a transient state, in order: each needs a
/// cleanup.
pub open spec fn recovery_cleanups(rows: Seq<ChallengeInstance>) -> Seq<(Seq<char>, Seq<char>)>
    decreases rows.len(),
{
    if rows.len() == 0 {
        Seq::empty()
    } else if rows.last().state.spec_is_queued() {
        recovery_cleanups(rows.drop_last()).push((rows.last().user_id@, rows.last().challenge_id@))
    } else {
        recovery_cleanups(rows.drop_last())
    }
}

/// Stop times of the `Running` rows, by key.
pub open spec fn running_expiries(rows: Seq<ChallengeInstance>) -> Map<(Seq<char>, Seq<char>), u64>
    decreases rows.len(),
{
    if rows.len() == 0 {
        Map::empty()
    } else if rows.last().state is Running && rows.last().stop_time is Some {
        running_expiries(rows.drop_last()).insert(
            (rows.last().user_id@, rows.last().challenge_id@),
            rows.last().stop_time->Some_0.0,
        )
    } else {
        running_expiries(rows.drop_last())
    }
}

pub open spec fn running_without_stop_time(rows: Seq<ChallengeInstance>) -> bool {
    exists|i: int| 0 <= i < rows.len() && (#[trigger] rows[i]).state is Running && rows[i].stop_time is None
}

/// Startup recovery over the persisted store, before any worker runs: each
/// row in a transient state gets a Cleanup request, and each `Running`
/// row's stop time goes back into the expiry queue. A `Running` row without
/// a stop time is an inconsistency that stops the startup, with the queue
/// untouched.
pub fn prepare(store: &Store, expiries: &mut ExpiryQueue) -> (r: Result<Vec<DeploymentRequest>, RecoveryError>)
    requires
        store@.wf(),
        old(expiries).wf(),
    ensures
        final(expiries).wf(),
        r is Err <==> running_without_stop_time(store@.instances),
        store@.consistent() ==> r is Ok,
        store@.consistent() && old(expiries)@ == Map::<(Seq<char>, Seq<char>), u64>::empty()
            ==> tracks_running(store@, final(expiries)@),
        match r {
            Ok(requests) => {
                &&& requests@.len() == recovery_cleanups(store@.instances).len()
                &&& forall|i: int| #![trigger requests@[i]] 0 <= i < requests@.len() ==> is_request(
                    requests@[i],
                    recovery_cleanups(store@.instances)[i].0,
                    recovery_cleanups(store@.instances)[i].1,
                    DeploymentRequestCommand::Cleanup,
                )
                &&& final(expiries)@ == old(expiries)@.union_prefer_right(running_expiries(store@.instances))
            },
            Err(_) => final(expiries)@ == old(expiries)@,
        },
{
    let rows = store.get_challenge_instances();
    let mut i: usize = 0;
    while i < rows.len()
        invariant
            i <= rows@.len(),
            rows@ == store@.instances,
            expiries.wf(),
            expiries@ == old(expiries)@,
            forall|j: int| 0 <= j < i ==> !((#[trigger] rows@[j]).state is Running && rows@[j].stop_time is None),
        decreases rows@.len() - i,
    {
        if rows[i].state == ChallengeInstanceState::Running && rows[i].stop_time.is_none() {
            return Err(RecoveryError::RunningWithoutStopTime);
        }
        i += 1;
    }
    proof {
        if store@.consistent() {
            assert forall|j: int| 0 <= j < rows@.len() implies !((#[trigger] rows@[j]).state is Running && rows@[j].stop_time is None) by {
                assert(crate::store::row_consistent(store@.instances[j]));
            }
        }
    }
    let ghost q0 = expiries@;
    let mut requests: Vec<DeploymentRequest> = Vec::new();
    let mut i: usize = 0;
    while i < rows.len()
        invariant
            i <= rows@.len(),
            rows@ == store@.instances,
            expiries.wf(),
            !running_without_stop_time(rows@),
            requests@.len() == recovery_cleanups(rows@.subrange(0, i as int)).len(),
            forall|j: int| #![trigger requests@[j]] 0 <= j < requests@.len() ==> is_request(
                requests@[j],
                recovery_cleanups(rows@.subrange(0, i as int))[j].0,
                recovery_cleanups(rows@.subrange(0, i as int))[j].1,
                DeploymentRequestCommand::Cleanup,
            ),
            expiries@ == q0.union_prefer_right(running_expiries(rows@.subrange(0, i as int))),
        decreases rows@.len() - i,
    {
        let row = &rows[i];
        let ghost prefix = rows@.subrange(0, i as int);
        let ghost next = rows@.subrange(0, i + 1);
        proof {
            assert(next.drop_last() =~= prefix);
            assert(next.last() == rows@[i as int]);
        }
        let ghost old_requests = requests@;
        if row.state.is_queued() {
            requests.push(DeploymentRequest {
                user_id: row.user_id.clone(),
                challenge_id: row.challenge_id.clone(),
                command: DeploymentRequestCommand::Cleanup,
            });
        }
        if row.state == ChallengeInstanceState::Running {
            match row.stop_time {
                Some(t) => {
                    expiries.push(row.user_id.clone(), row.challenge_id.clone(), t);
                    proof {
                        assert(q0.union_prefer_right(running_expiries(prefix)).insert((row.user_id@, row.challenge_id@), t.0)
                            =~= q0.union_prefer_right(running_expiries(next)));
                    }
                },
                None => {
                    proof {
                        assert(rows@[i as int].state is Running && rows@[i as int].stop_time is None);
                    }
                },
            }
        }
        proof {
            assert forall|j: int| #![trigger requests@[j]] 0 <= j < requests@.len() implies is_request(
                requests@[j],
                recovery_cleanups(next)[j].0,
                recovery_cleanups(next)[j].1,
                DeploymentRequestCommand::Cleanup,
            ) by {
                if j < old_requests.len() {
                    assert(requests@[j] == old_requests[j]);
                }
            }
        }
        i += 1;
    }
    proof {
        assert(rows@.subrange(0, i as int) =~= rows@);
        if store@.consistent() && q0 == Map::<(Seq<char>, Seq<char>), u64>::empty() {
            assert forall|u: Seq<char>, c: Seq<char>| #[trigger] store@.in_state(u, c, ChallengeInstanceState::Running) implies expiries@.contains_key((u, c))
                && store@.instance(u, c).stop_time == Some(TimeSinceEpoch(expiries@[(u, c)])) by {
                lemma_recovery_tracks_running(store@, u, c);
                let k = store@.instance_index(u, c);
                assert(crate::store::row_consistent(store@.instances[k]));
            }
        }
    }
    Ok(requests)
}

/// The store after a successful cleanup of each key of `keys`, in order
/// (a successful Cleanup deletes its key, see `complete_request`).
pub open spec fn delete_all(v: StoreView, keys: Seq<(Seq<char>, Seq<char>)>) -> StoreView
    decreases keys.len(),
{
    if keys.len() == 0 {
        v
    } else {
        delete_all(v, keys.drop_last()).deleted(keys.last().0, keys.last().1)
    }
}

proof fn lemma_delete_all(v: StoreView, keys: Seq<(Seq<char>, Seq<char>)>)
    requires
        v.wf(),
    ensures
        delete_all(v, keys).wf(),
        forall|i: int| #![trigger delete_all(v, keys).instances[i]] 0 <= i < delete_all(v, keys).instances.len() ==> {
            let r = delete_all(v, keys).instances[i];
            &&& v.instances.contains(r)
            &&& !keys.contains((r.user_id@, r.challenge_id@))
        },
    decreases keys.len(),
{
    if keys.len() > 0 {
        let init = keys.drop_last();
        let k = keys.last();
        lemma_delete_all(v, init);
        let w0 = delete_all(v, init);
        lemma_deleted_wf(w0, k.0, k.1);
        let w = w0.deleted(k.0, k.1);
        assert forall|i: int| #![trigger w.instances[i]] 0 <= i < w.instances.len() implies {
            let r = w.instances[i];
            &&& v.instances.contains(r)
            &&& !keys.contains((r.user_id@, r.challenge_id@))
        } by {
            let r = w.instances[i];
            let src = if w0.has_instance(k.0, k.1) {
                let idx = w0.instance_index(k.0, k.1);
                if i < idx { i } else { i + 1 }
            } else {
                i
            };
            assert(w.instances[i] == w0.instances[src]);
            if w0.has_instance(k.0, k.1) {
                let idx = w0.instance_index(k.0, k.1);
                assert(w0.instances[src] == w0.instances[src] && w0.instances[idx] == w0.instances[idx]);
            } else {
                assert(!is_key(w0.instances[src], k.0, k.1));
            }
            if keys.contains((r.user_id@, r.challenge_id@)) {
                let j = choose|j: int| 0 <= j < keys.len() && keys[j] == (r.user_id@, r.challenge_id@);
                if j < init.len() {
                    assert(init[j] == keys[j]);
                }
            }
        }
    }
}

proof fn lemma_queued_rows_cleaned(rows: Seq<ChallengeInstance>, i: int)
    requires
        0 <= i < rows.len(),
        rows[i].state.spec_is_queued(),
    ensures
        recovery_cleanups(rows).contains((rows[i].user_id@, rows[i].challenge_id@)),
    decreases rows.len(),
{
    let init = rows.drop_last();
    if i == rows.len() - 1 {
        assert(rows.last() == rows[i]);
        let ks = recovery_cleanups(rows);
        assert(ks[ks.len() - 1] == (rows[i].user_id@, rows[i].challenge_id@));
    } else {
        assert(init[i] == rows[i]);
        lemma_queued_rows_cleaned(init, i);
        let ks0 = recovery_cleanups(init);
        let j = choose|j: int| 0 <= j < ks0.len() && ks0[j] == (rows[i].user_id@, rows[i].challenge_id@);
        let ks = recovery_cleanups(rows);
        if rows.last().state.spec_is_queued() {
            assert(ks[j] == ks0[j]);
        }
    }
}

proof fn lemma_no_queued_rows(rows: Seq<ChallengeInstance>)
    requires
        forall|i: int| 0 <= i < rows.len() ==> !(#[trigger] rows[i]).state.spec_is_queued(),
    ensures
        recovery_cleanups(rows).len() == 0,
    decreases rows.len(),
{
    if rows.len() > 0 {
        let init = rows.drop_last();
        assert(rows.last() == rows[rows.len() - 1]);
        assert forall|i: int| 0 <= i < init.len() implies !(#[trigger] init[i]).state.spec_is_queued() by {
            assert(init[i] == rows[i]);
        }
        lemma_no_queued_rows(init);
    }
}

/// Recovery leaves the durable state settled: once the cleanups it asks
/// for have all succeeded, no row is left in a transient state, so a second
/// recovery asks for no cleanup and changes nothing more.
pub proof fn lemma_recovery_settles(v: StoreView)
    requires
        v.wf(),
    ensures
        ({
            let w = delete_all(v, recovery_cleanups(v.instances));
            &&& w.wf()
            &&& forall|i: int| 0 <= i < w.instances.len() ==> !(#[trigger] w.instances[i]).state.spec_is_queued()
            &&& recovery_cleanups(w.instances).len() == 0
            &&& delete_all(w, recovery_cleanups(w.instances)) == w
        }),
{
    let ks = recovery_cleanups(v.instances);
    let w = delete_all(v, ks);
    lemma_delete_all(v, ks);
    assert forall|i: int| 0 <= i < w.instances.len() implies !(#[trigger] w.instances[i]).state.spec_is_queued() by {
        let r = w.instances[i];
        if r.state.spec_is_queued() {
            let j = choose|j: int| 0 <= j < v.instances.len() && v.instances[j] == r;
            lemma_queued_rows_cleaned(v.instances, j);
        }
    }
    lemma_no_queued_rows(w.instances);
}

/// Recovery is idempotent: recovering twice over the same persisted rows
/// leaves the expiry queue as recovering once (and, as `prepare` reads the
/// store only, the store as it was), and asks for the same cleanups.
pub proof fn lemma_recovery_idempotent(q: Map<(Seq<char>, Seq<char>), u64>, rows: Seq<ChallengeInstance>)
    ensures
        q.union_prefer_right(running_expiries(rows)).union_prefer_right(running_expiries(rows))
            == q.union_prefer_right(running_expiries(rows)),
{
    let r = running_expiries(rows);
    assert(q.union_prefer_right(r).union_prefer_right(r) =~= q.union_prefer_right(r));
}

proof fn lemma_running_expiries(rows: Seq<ChallengeInstance>, k: (Seq<char>, Seq<char>))
    requires
        forall|i: int, j: int|
            #![trigger rows[i], rows[j]]
            0 <= i < rows.len() && 0 <= j < rows.len() && i != j
                ==> !is_key(rows[i], rows[j].user_id@, rows[j].challenge_id@),
    ensures
        running_expiries(rows).contains_key(k) <==> exists|i: int|
            0 <= i < rows.len() && is_key(#[trigger] rows[i], k.0, k.1) && rows[i].state is Running && rows[i].stop_time is Some,
        forall|i: int|
            0 <= i < rows.len() && is_key(#[trigger] rows[i], k.0, k.1) && rows[i].state is Running && rows[i].stop_time is Some
            ==> running_expiries(rows)[k] == rows[i].stop_time->Some_0.0,
    decreases rows.len(),
{
    if rows.len() > 0 {
        let init = rows.drop_last();
        let n = rows.len() - 1;
        assert forall|i: int, j: int|
            #![trigger init[i], init[j]]
            0 <= i < init.len() && 0 <= j < init.len() && i != j
                implies !is_key(init[i], init[j].user_id@, init[j].challenge_id@) by {
            assert(rows[i] == init[i] && rows[j] == init[j]);
        }
        lemma_running_expiries(init, k);
        assert(rows.last() == rows[n]);
        if running_expiries(rows).contains_key(k) {
            if !running_expiries(init).contains_key(k) {
                assert(is_key(rows[n], k.0, k.1));
            } else {
                let i = choose|i: int|
                    0 <= i < init.len() && is_key(#[trigger] init[i], k.0, k.1) && init[i].state is Running && init[i].stop_time is Some;
                assert(rows[i] == init[i]);
            }
        }
        assert forall|i: int|
            0 <= i < rows.len() && is_key(#[trigger] rows[i], k.0, k.1) && rows[i].state is Running && rows[i].stop_time is Some
            implies running_expiries(rows)[k] == rows[i].stop_time->Some_0.0 by {
            if i < n {
                assert(rows[i] == init[i]);
                assert(!is_key(rows[n], rows[i].user_id@, rows[i].challenge_id@));
            }
        }
        assert forall|i: int|
            0 <= i < rows.len() && is_key(#[trigger] rows[i], k.0, k.1) && rows[i].state is Running && rows[i].stop_time is Some
            implies running_expiries(rows).contains_key(k) by {
            if i < n {
                assert(rows[i] == init[i]);
            }
        }
    }
}

/// After recovery into an empty queue over a well-formed, consistent store,
/// the queue holds exactly one entry for each `Running` row, with its stop
/// time, and none for a row in any other state.
pub proof fn lemma_recovery_tracks_running(v: StoreView, u: Seq<char>, c: Seq<char>)
    requires
        v.wf(),
        v.consistent(),
    ensures
        ({
            let q = Map::<(Seq<char>, Seq<char>), u64>::empty().union_prefer_right(running_expiries(v.instances));
            &&& q.contains_key((u, c)) <==> v.in_state(u, c, ChallengeInstanceState::Running)
            &&& q.contains_key((u, c)) ==> q[(u, c)] == v.instance(u, c).stop_time->Some_0.0
        }),
{
    let q = Map::<(Seq<char>, Seq<char>), u64>::empty().union_prefer_right(running_expiries(v.instances));
    assert(q =~= running_expiries(v.instances));
    lemma_running_expiries(v.instances, (u, c));
    if v.has_instance(u, c) {
        let i = v.instance_index(u, c);
        lemma_instance_index(v, i);
        assert(crate::store::row_consistent(v.instances[i]));
    }
    if q.contains_key((u, c)) {
        let i = choose|i: int|
            0 <= i < v.instances.len() && is_key(#[trigger] v.instances[i], u, c) && v.instances[i].state is Running
                && v.instances[i].stop_time is Some;
        lemma_instance_index(v, i);
    }
}

/// Extending a `Running` instance to `stop_time` and pushing that time into
/// the queue, then sweeping at `stop_time`, moves the instance to
/// `QueuedStop` exactly once: the key is due and `Running`, so the sweep
/// hands back one Stop request for it (`expire_due` hands back each key at
/// most once), and the key has left the queue, so no later sweep moves it
/// again.
pub proof fn lemma_extension_expires_once(
    v: StoreView,
    q: Map<(Seq<char>, Seq<char>), u64>,
    user_id: Seq<char>,
    challenge_id: Seq<char>,
    stop_time: TimeSinceEpoch,
)
    requires
        v.wf(),
        v.in_state(user_id, challenge_id, ChallengeInstanceState::Running),
    ensures
        ({
            let v1 = v.extended(user_id, challenge_id, stop_time);
            let q1 = q.insert((user_id, challenge_id), stop_time.0);
            &&& due(q1, stop_time.0).contains_key((user_id, challenge_id))
            &&& v1.in_state(user_id, challenge_id, ChallengeInstanceState::Running)
            &&& expired(v1, q1, stop_time.0).in_state(user_id, challenge_id, ChallengeInstanceState::QueuedStop)
            &&& forall|later: u64| !(#[trigger] due(pending(q1, stop_time.0), later)).contains_key((user_id, challenge_id))
        }),
{
    let v1 = v.extended(user_id, challenge_id, stop_time);
    let q1 = q.insert((user_id, challenge_id), stop_time.0);
    let idx = v.instance_index(user_id, challenge_id);
    assert forall|j: int| 0 <= j < v1.instances.len() implies (#[trigger] v1.instances[j]).user_id@ == v.instances[j].user_id@
        && v1.instances[j].challenge_id@ == v.instances[j].challenge_id@ by {}
    lemma_position_of_key(v1, v, idx);
    let v2 = expired(v1, q1, stop_time.0);
    assert(due(q1, stop_time.0).contains_key((user_id, challenge_id)));
    assert forall|j: int| 0 <= j < v2.instances.len() implies (#[trigger] v2.instances[j]).user_id@ == v.instances[j].user_id@
        && v2.instances[j].challenge_id@ == v.instances[j].challenge_id@ by {
        assert(v1.instances[j].user_id@ == v.instances[j].user_id@);
    }
    lemma_position_of_key(v2, v, idx);
}

} // verus!
