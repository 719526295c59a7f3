//! The durable store's rules: users with their instance counters and the
//! per-user challenge instances, with the conditional, all-or-nothing
//! updates that keep `instance_count` equal to the number of rows.

use vstd::prelude::*;

use crate::models::{ChallengeInstance, ChallengeInstanceState, TimeSinceEpoch, User};

verus! {

/// Outcome of `Store::insert_challenge_instance`.
#[derive(Debug, Clone, Copy, PartialEq, Eq, Structural)]
pub enum ChallengeInstanceInsertionResult {
    Inserted,
    Exists,
    LimitReached,
}

/// A user with the same id is already registered.
#[derive(Debug, Clone, Copy, PartialEq, Eq, Structural)]
pub enum StoreError {
    Conflict,
}

pub open spec fn is_key(r: ChallengeInstance, user_id: Seq<char>, challenge_id: Seq<char>) -> bool {
    r.user_id@ == user_id && r.challenge_id@ == challenge_id
}

/// Number of rows of `rows` that belong to `user_id`.
pub open spec fn count_for(rows: Seq<ChallengeInstance>, user_id: Seq<char>) -> nat
    decreases rows.len(),
{
    if rows.len() == 0 {
        0
    } else {
        count_for(rows.drop_last(), user_id) + if rows.last().user_id@ == user_id {
            1nat
        } else {
            0nat
        }
    }
}

/// A row whose state is `Running` carries details, and details and a stop
/// time are present together.
pub open spec fn row_consistent(r: ChallengeInstance) -> bool {
    &&& r.state is Running ==> r.details is Some
    &&& (r.details is Some <==> r.stop_time is Some)
}

/// The tables of a store.
pub ghost struct StoreView {
    pub users: Seq<User>,
    pub instances: Seq<ChallengeInstance>,
}

impl StoreView {
    pub open spec fn has_user(self, id: Seq<char>) -> bool {
        exists|i: int| 0 <= i < self.users.len() && #[trigger] self.users[i].id@ == id
    }

    pub open spec fn user_index(self, id: Seq<char>) -> int {
        choose|i: int| 0 <= i < self.users.len() && #[trigger] self.users[i].id@ == id
    }

    pub open spec fn user(self, id: Seq<char>) -> User {
        self.users[self.user_index(id)]
    }

    pub open spec fn has_instance(self, user_id: Seq<char>, challenge_id: Seq<char>) -> bool {
        exists|i: int|
            0 <= i < self.instances.len() && #[trigger] is_key(self.instances[i], user_id, challenge_id)
    }

    pub open spec fn instance_index(self, user_id: Seq<char>, challenge_id: Seq<char>) -> int {
        choose|i: int|
            0 <= i < self.instances.len() && #[trigger] is_key(self.instances[i], user_id, challenge_id)
    }

    pub open spec fn instance(self, user_id: Seq<char>, challenge_id: Seq<char>) -> ChallengeInstance {
        self.instances[self.instance_index(user_id, challenge_id)]
    }

    /// Keys are unique, every row belongs to a registered user, and every
    /// user's `instance_count` is the number of that user's rows.
    pub open spec fn wf(self) -> bool {
        &&& forall|i: int, j: int|
            #![trigger self.users[i], self.users[j]]
            0 <= i < self.users.len() && 0 <= j < self.users.len() && i != j
                ==> self.users[i].id@ != self.users[j].id@
        &&& forall|i: int, j: int|
            #![trigger self.instances[i], self.instances[j]]
            0 <= i < self.instances.len() && 0 <= j < self.instances.len() && i != j
                ==> !is_key(self.instances[i], self.instances[j].user_id@, self.instances[j].challenge_id@)
        &&& forall|i: int|
            0 <= i < self.instances.len() ==> self.has_user(#[trigger] self.instances[i].user_id@)
        &&& forall|i: int|
            0 <= i < self.users.len() ==> #[trigger] self.users[i].instance_count as nat
                == count_for(self.instances, self.users[i].id@)
    }

    /// What `insert_challenge_instance` answers for the key `(user_id,
    /// challenge_id)` under the limit `max`.
    pub open spec fn insertion_outcome(self, user_id: Seq<char>, challenge_id: Seq<char>, max: u32) -> ChallengeInstanceInsertionResult {
        if !self.has_user(user_id) || self.user(user_id).instance_count >= max {
            ChallengeInstanceInsertionResult::LimitReached
        } else if self.has_instance(user_id, challenge_id) {
            ChallengeInstanceInsertionResult::Exists
        } else {
            ChallengeInstanceInsertionResult::Inserted
        }
    }

    /// The tables after adding `row` and counting it for its user.
    pub open spec fn inserted(self, row: ChallengeInstance) -> StoreView {
        let owner = self.user(row.user_id@);
        StoreView {
            users: self.users.update(
                self.user_index(row.user_id@),
                User { instance_count: (owner.instance_count + 1) as u32, ..owner },
            ),
            instances: self.instances.push(row),
        }
    }

    /// The tables with the row of the key replaced by `row`.
    pub open spec fn with_row(self, user_id: Seq<char>, challenge_id: Seq<char>, row: ChallengeInstance) -> StoreView {
        StoreView {
            users: self.users,
            instances: self.instances.update(self.instance_index(user_id, challenge_id), row),
        }
    }

    /// Whether the key has a row in state `from`.
    pub open spec fn in_state(self, user_id: Seq<char>, challenge_id: Seq<char>, from: ChallengeInstanceState) -> bool {
        self.has_instance(user_id, challenge_id) && self.instance(user_id, challenge_id).state == from
    }

    /// The tables with the key's row moved to state `to`, its other fields
    /// kept; unchanged where the key has no row.
    pub open spec fn with_state(self, user_id: Seq<char>, challenge_id: Seq<char>, to: ChallengeInstanceState) -> StoreView {
        if self.has_instance(user_id, challenge_id) {
            self.with_row(user_id, challenge_id, ChallengeInstance { state: to, ..self.instance(user_id, challenge_id) })
        } else {
            self
        }
    }

    /// The tables with the key's row made `Running` with `details` and
    /// `stop_time`; unchanged where the key has no row.
    pub open spec fn populated(self, user_id: Seq<char>, challenge_id: Seq<char>, details: String, stop_time: TimeSinceEpoch) -> StoreView {
        if self.has_instance(user_id, challenge_id) {
            self.with_row(user_id, challenge_id, ChallengeInstance {
                state: ChallengeInstanceState::Running,
                details: Some(details),
                stop_time: Some(stop_time),
                ..self.instance(user_id, challenge_id)
            })
        } else {
            self
        }
    }

    /// The tables with the stop time of the key's row set to `stop_time`.
    pub open spec fn extended(self, user_id: Seq<char>, challenge_id: Seq<char>, stop_time: TimeSinceEpoch) -> StoreView {
        self.with_row(user_id, challenge_id, ChallengeInstance { stop_time: Some(stop_time), ..self.instance(user_id, challenge_id) })
    }

    /// Whether moving the key's row to `to` keeps it consistent.
    pub open spec fn state_change_keeps_consistency(self, user_id: Seq<char>, challenge_id: Seq<char>, to: ChallengeInstanceState) -> bool {
        to is Running ==> self.instance(user_id, challenge_id).details is Some
    }

    /// The tables after removing the key's row and uncounting it for its
    /// user; unchanged where the key has no row.
    pub open spec fn deleted(self, user_id: Seq<char>, challenge_id: Seq<char>) -> StoreView {
        if self.has_instance(user_id, challenge_id) {
            let owner = self.user(user_id);
            StoreView {
                users: self.users.update(
                    self.user_index(user_id),
                    User { instance_count: (owner.instance_count - 1) as u32, ..owner },
                ),
                instances: self.instances.remove(self.instance_index(user_id, challenge_id)),
            }
        } else {
            self
        }
    }

    /// Every persisted row is consistent (see `row_consistent`).
    pub open spec fn consistent(self) -> bool {
        forall|i: int| 0 <= i < self.instances.len() ==> row_consistent(#[trigger] self.instances[i])
    }
}

pub proof fn lemma_user_index(v: StoreView, i: int)
    requires
        v.wf(),
        0 <= i < v.users.len(),
    ensures
        v.has_user(v.users[i].id@),
        v.user_index(v.users[i].id@) == i,
{
    let id = v.users[i].id@;
    assert(v.users[i].id@ == id);
    let j = v.user_index(id);
    assert(v.users[i] == v.users[i]);
    if j != i {
        assert(v.users[j] == v.users[j]);
    }
}

pub proof fn lemma_instance_index(v: StoreView, i: int)
    requires
        v.wf(),
        0 <= i < v.instances.len(),
    ensures
        v.has_instance(v.instances[i].user_id@, v.instances[i].challenge_id@),
        v.instance_index(v.instances[i].user_id@, v.instances[i].challenge_id@) == i,
{
    let u = v.instances[i].user_id@;
    let c = v.instances[i].challenge_id@;
    assert(is_key(v.instances[i], u, c));
    let j = v.instance_index(u, c);
    if j != i {
        assert(v.instances[i] == v.instances[i]);
        assert(v.instances[j] == v.instances[j]);
    }
}

/// The rows of `rows` that belong to `user_id`, in order.
pub open spec fn rows_of(rows: Seq<ChallengeInstance>, user_id: Seq<char>) -> Seq<ChallengeInstance>
    decreases rows.len(),
{
    if rows.len() == 0 {
        rows
    } else if rows.last().user_id@ == user_id {
        rows_of(rows.drop_last(), user_id).push(rows.last())
    } else {
        rows_of(rows.drop_last(), user_id)
    }
}

/// A view whose keys, position by position, are those of a well-formed
/// view finds each key at its one position.
pub proof fn lemma_position_of_key(a: StoreView, base: StoreView, i: int)
    requires
        base.wf(),
        a.instances.len() == base.instances.len(),
        forall|j: int| 0 <= j < a.instances.len() ==> (#[trigger] a.instances[j]).user_id@ == base.instances[j].user_id@
            && a.instances[j].challenge_id@ == base.instances[j].challenge_id@,
        0 <= i < a.instances.len(),
    ensures
        a.has_instance(a.instances[i].user_id@, a.instances[i].challenge_id@),
        a.instance_index(a.instances[i].user_id@, a.instances[i].challenge_id@) == i,
{
    let u = a.instances[i].user_id@;
    let c = a.instances[i].challenge_id@;
    assert(is_key(a.instances[i], u, c));
    let j = a.instance_index(u, c);
    if j != i {
        assert(a.instances[j] == a.instances[j] && a.instances[i] == a.instances[i]);
        assert(base.instances[i] == base.instances[i] && base.instances[j] == base.instances[j]);
    }
}

/// Replacing the row of `(user_id, challenge_id)` by a row with the same key
/// leaves every other key's row where and as it was.
pub proof fn lemma_with_row_lookup(
    v: StoreView,
    user_id: Seq<char>,
    challenge_id: Seq<char>,
    row: ChallengeInstance,
    u2: Seq<char>,
    c2: Seq<char>,
)
    requires
        v.wf(),
        v.has_instance(user_id, challenge_id),
        row.user_id@ == user_id,
        row.challenge_id@ == challenge_id,
    ensures
        ({
            let w = v.with_row(user_id, challenge_id, row);
            &&& w.has_instance(u2, c2) == v.has_instance(u2, c2)
            &&& v.has_instance(u2, c2) ==> w.instance(u2, c2) == if u2 == user_id && c2 == challenge_id {
                row
            } else {
                v.instance(u2, c2)
            }
        }),
{
    let i = v.instance_index(user_id, challenge_id);
    let w = v.with_row(user_id, challenge_id, row);
    assert forall|j: int| 0 <= j < w.instances.len() implies (#[trigger] w.instances[j]).user_id@ == v.instances[j].user_id@
        && w.instances[j].challenge_id@ == v.instances[j].challenge_id@ by {}
    if v.has_instance(u2, c2) {
        let j = v.instance_index(u2, c2);
        lemma_instance_index(v, j);
        lemma_position_of_key(w, v, j);
        if u2 == user_id && c2 == challenge_id {
            assert(j == i);
        }
    }
    if w.has_instance(u2, c2) {
        let j = w.instance_index(u2, c2);
        assert(is_key(v.instances[j], u2, c2));
    }
}

/// Deleting the row of `(user_id, challenge_id)` leaves every other key's
/// row as it was.
pub proof fn lemma_deleted_lookup(v: StoreView, user_id: Seq<char>, challenge_id: Seq<char>, u2: Seq<char>, c2: Seq<char>)
    requires
        v.wf(),
        !(u2 == user_id && c2 == challenge_id),
    ensures
        ({
            let w = v.deleted(user_id, challenge_id);
            &&& w.has_instance(u2, c2) == v.has_instance(u2, c2)
            &&& v.has_instance(u2, c2) ==> w.instance(u2, c2) == v.instance(u2, c2)
        }),
{
    if v.has_instance(user_id, challenge_id) {
        let i = v.instance_index(user_id, challenge_id);
        let w = v.deleted(user_id, challenge_id);
        if v.has_instance(u2, c2) {
            let j = v.instance_index(u2, c2);
            lemma_instance_index(v, j);
            assert(j != i);
            let jw = if j < i { j } else { j - 1 };
            assert(w.instances[jw] == v.instances[j]);
            assert(is_key(w.instances[jw], u2, c2));
            let k = w.instance_index(u2, c2);
            if k != jw {
                let src = if k < i { k } else { k + 1 };
                assert(w.instances[k] == v.instances[src]);
                assert(v.instances[src] == v.instances[src] && v.instances[j] == v.instances[j]);
            }
        }
        if w.has_instance(u2, c2) {
            let k = w.instance_index(u2, c2);
            let src = if k < i { k } else { k + 1 };
            assert(w.instances[k] == v.instances[src]);
            assert(is_key(v.instances[src], u2, c2));
        }
    }
}

/// Adding a row of a new key leaves every other key's row as it was.
pub proof fn lemma_inserted_lookup(v: StoreView, row: ChallengeInstance, u2: Seq<char>, c2: Seq<char>)
    requires
        v.wf(),
        !v.has_instance(row.user_id@, row.challenge_id@),
        !(u2 == row.user_id@ && c2 == row.challenge_id@),
    ensures
        ({
            let w = v.inserted(row);
            &&& w.has_instance(u2, c2) == v.has_instance(u2, c2)
            &&& v.has_instance(u2, c2) ==> w.instance(u2, c2) == v.instance(u2, c2)
        }),
{
    let w = v.inserted(row);
    if v.has_instance(u2, c2) {
        let j = v.instance_index(u2, c2);
        lemma_instance_index(v, j);
        assert(w.instances[j] == v.instances[j]);
        assert(is_key(w.instances[j], u2, c2));
        let k = w.instance_index(u2, c2);
        if k != j {
            if k < v.instances.len() {
                assert(w.instances[k] == v.instances[k]);
                assert(v.instances[k] == v.instances[k] && v.instances[j] == v.instances[j]);
            }
        }
    }
    if w.has_instance(u2, c2) {
        let k = w.instance_index(u2, c2);
        if k < v.instances.len() {
            assert(w.instances[k] == v.instances[k]);
            assert(is_key(v.instances[k], u2, c2));
        }
    }
}

proof fn lemma_count_zero(rows: Seq<ChallengeInstance>, u: Seq<char>)
    requires
        forall|i: int| 0 <= i < rows.len() ==> (#[trigger] rows[i]).user_id@ != u,
    ensures
        count_for(rows, u) == 0,
    decreases rows.len(),
{
    if rows.len() > 0 {
        assert(rows.last() == rows[rows.len() - 1]);
        lemma_count_zero(rows.drop_last(), u);
    }
}

proof fn lemma_count_push(rows: Seq<ChallengeInstance>, x: ChallengeInstance, u: Seq<char>)
    ensures
        count_for(rows.push(x), u) == count_for(rows, u) + if x.user_id@ == u {
            1nat
        } else {
            0nat
        },
{
    assert(rows.push(x).drop_last() =~= rows);
}

/// Rows with the same owners, position by position, count alike.
proof fn lemma_count_same_owners(a: Seq<ChallengeInstance>, b: Seq<ChallengeInstance>, u: Seq<char>)
    requires
        a.len() == b.len(),
        forall|i: int| 0 <= i < a.len() ==> (#[trigger] a[i]).user_id@ == b[i].user_id@,
    ensures
        count_for(a, u) == count_for(b, u),
    decreases a.len(),
{
    if a.len() > 0 {
        assert(a.last() == a[a.len() - 1]);
        assert(b.last() == b[b.len() - 1]);
        lemma_count_same_owners(a.drop_last(), b.drop_last(), u);
    }
}

proof fn lemma_count_remove(rows: Seq<ChallengeInstance>, k: int, u: Seq<char>)
    requires
        0 <= k < rows.len(),
    ensures
        count_for(rows, u) == count_for(rows.remove(k), u) + if rows[k].user_id@ == u {
            1nat
        } else {
            0nat
        },
    decreases rows.len(),
{
    if k == rows.len() - 1 {
        assert(rows.remove(k) =~= rows.drop_last());
    } else {
        lemma_count_remove(rows.drop_last(), k, u);
        assert(rows.remove(k).drop_last() =~= rows.drop_last().remove(k));
        assert(rows.remove(k).last() == rows.last());
    }
}

/// Deleting a key keeps the tables well-formed and consistent.
pub proof fn lemma_deleted_wf(v: StoreView, user_id: Seq<char>, challenge_id: Seq<char>)
    requires
        v.wf(),
    ensures
        v.deleted(user_id, challenge_id).wf(),
        v.consistent() ==> v.deleted(user_id, challenge_id).consistent(),
{
    if v.has_instance(user_id, challenge_id) {
        let i = v.instance_index(user_id, challenge_id);
        assert(v.has_user(v.instances[i].user_id@));
        let ui = v.user_index(user_id);
        lemma_user_index(v, ui);
        lemma_count_remove(v.instances, i, user_id);
        let w = v.deleted(user_id, challenge_id);
        assert forall|k: int| 0 <= k < w.users.len() implies (#[trigger] w.users[k]).id@ == v.users[k].id@ by {
            if k != ui {
                assert(w.users[k] == v.users[k]);
            }
        }
        assert forall|k: int| 0 <= k < w.instances.len() implies w.has_user(#[trigger] w.instances[k].user_id@) by {
            let src = if k < i { k } else { k + 1 };
            assert(w.instances[k] == v.instances[src]);
            assert(v.has_user(v.instances[src].user_id@));
            let j = choose|j: int| 0 <= j < v.users.len() && #[trigger] v.users[j].id@ == v.instances[src].user_id@;
            assert(w.users[j].id@ == v.users[j].id@);
        }
        assert forall|k: int| 0 <= k < w.users.len() implies #[trigger] w.users[k].instance_count as nat
            == count_for(w.instances, w.users[k].id@) by {
            lemma_count_remove(v.instances, i, w.users[k].id@);
            assert(w.users[k].id@ == v.users[k].id@);
            if k != ui {
                assert(w.users[k] == v.users[k]);
                assert(v.users[k] == v.users[k] && v.users[ui] == v.users[ui]);
            }
        }
        assert forall|a: int, b: int|
            0 <= a < w.users.len() && 0 <= b < w.users.len() && a != b
            implies #[trigger] w.users[a].id@ != #[trigger] w.users[b].id@ by {
            assert(w.users[a].id@ == v.users[a].id@);
            assert(w.users[b].id@ == v.users[b].id@);
            assert(v.users[a] == v.users[a] && v.users[b] == v.users[b]);
        }
        assert forall|a: int, b: int|
            0 <= a < w.instances.len() && 0 <= b < w.instances.len() && a != b
            implies !is_key(#[trigger] w.instances[a], (#[trigger] w.instances[b]).user_id@, w.instances[b].challenge_id@) by {
            let sa = if a < i { a } else { a + 1 };
            let sb = if b < i { b } else { b + 1 };
            assert(w.instances[a] == v.instances[sa] && w.instances[b] == v.instances[sb]);
            assert(v.instances[sa] == v.instances[sa] && v.instances[sb] == v.instances[sb]);
        }
        if v.consistent() {
            assert forall|k: int| 0 <= k < w.instances.len() implies row_consistent(#[trigger] w.instances[k]) by {
                let src = if k < i { k } else { k + 1 };
                assert(w.instances[k] == v.instances[src]);
            }
        }
    }
}

/// One compare-and-swap of the key from `from` to `to`, as
/// `transition_challenge_instance_state` applies it.
pub open spec fn cas_step(
    v: StoreView,
    user_id: Seq<char>,
    challenge_id: Seq<char>,
    from: ChallengeInstanceState,
    to: ChallengeInstanceState,
) -> StoreView {
    if v.in_state(user_id, challenge_id, from) {
        v.with_state(user_id, challenge_id, to)
    } else {
        v
    }
}

/// The answers of compare-and-swaps of one key from `from` to each state of
/// `tos`, taken in their linear order.
pub open spec fn cas_answers(
    v: StoreView,
    user_id: Seq<char>,
    challenge_id: Seq<char>,
    from: ChallengeInstanceState,
    tos: Seq<ChallengeInstanceState>,
) -> Seq<bool>
    decreases tos.len(),
{
    if tos.len() == 0 {
        Seq::empty()
    } else {
        seq![v.in_state(user_id, challenge_id, from)] + cas_answers(
            cas_step(v, user_id, challenge_id, from, tos[0]),
            user_id,
            challenge_id,
            from,
            tos.subrange(1, tos.len() as int),
        )
    }
}

/// The tables after those compare-and-swaps.
pub open spec fn cas_final(
    v: StoreView,
    user_id: Seq<char>,
    challenge_id: Seq<char>,
    from: ChallengeInstanceState,
    tos: Seq<ChallengeInstanceState>,
) -> StoreView
    decreases tos.len(),
{
    if tos.len() == 0 {
        v
    } else {
        cas_final(cas_step(v, user_id, challenge_id, from, tos[0]), user_id, challenge_id, from, tos.subrange(1, tos.len() as int))
    }
}

proof fn lemma_cas_idle(
    v: StoreView,
    user_id: Seq<char>,
    challenge_id: Seq<char>,
    from: ChallengeInstanceState,
    tos: Seq<ChallengeInstanceState>,
)
    requires
        !v.in_state(user_id, challenge_id, from),
    ensures
        cas_answers(v, user_id, challenge_id, from, tos).len() == tos.len(),
        forall|i: int| 0 <= i < tos.len() ==> !#[trigger] cas_answers(v, user_id, challenge_id, from, tos)[i],
        cas_final(v, user_id, challenge_id, from, tos) == v,
    decreases tos.len(),
{
    if tos.len() > 0 {
        let rest = tos.subrange(1, tos.len() as int);
        lemma_cas_idle(v, user_id, challenge_id, from, rest);
        let ans = cas_answers(v, user_id, challenge_id, from, tos);
        assert forall|i: int| 0 <= i < tos.len() implies !#[trigger] ans[i] by {
            if i > 0 {
                assert(ans[i] == cas_answers(v, user_id, challenge_id, from, rest)[i - 1]);
            }
        }
    }
}

/// Of any number of compare-and-swaps of one key from `from` to other
/// states, taken in their linear order, at most one succeeds: only the
/// first can, and it does exactly when the row is in `from`. The row then
/// ends in the winner's state, or stays as it was without a winner.
pub proof fn lemma_transition_exclusive(
    v: StoreView,
    user_id: Seq<char>,
    challenge_id: Seq<char>,
    from: ChallengeInstanceState,
    tos: Seq<ChallengeInstanceState>,
)
    requires
        v.wf(),
        forall|i: int| 0 <= i < tos.len() ==> #[trigger] tos[i] != from,
    ensures
        ({
            let answers = cas_answers(v, user_id, challenge_id, from, tos);
            &&& answers.len() == tos.len()
            &&& tos.len() > 0 ==> answers[0] == v.in_state(user_id, challenge_id, from)
            &&& forall|i: int| 1 <= i < tos.len() ==> !#[trigger] answers[i]
            &&& cas_final(v, user_id, challenge_id, from, tos) == if tos.len() > 0 && v.in_state(user_id, challenge_id, from) {
                v.with_state(user_id, challenge_id, tos[0])
            } else {
                v
            }
        }),
{
    if !v.in_state(user_id, challenge_id, from) {
        lemma_cas_idle(v, user_id, challenge_id, from, tos);
    } else if tos.len() > 0 {
        let rest = tos.subrange(1, tos.len() as int);
        let row = ChallengeInstance { state: tos[0], ..v.instance(user_id, challenge_id) };
        lemma_instance_index(v, v.instance_index(user_id, challenge_id));
        lemma_with_row_lookup(v, user_id, challenge_id, row, user_id, challenge_id);
        let w = v.with_state(user_id, challenge_id, tos[0]);
        assert(!w.in_state(user_id, challenge_id, from));
        lemma_cas_idle(w, user_id, challenge_id, from, rest);
        let ans = cas_answers(v, user_id, challenge_id, from, tos);
        assert forall|i: int| 1 <= i < tos.len() implies !#[trigger] ans[i] by {
            assert(ans[i] == cas_answers(w, user_id, challenge_id, from, rest)[i - 1]);
        }
    }
}

/// Deleting a key twice leaves the store as deleting it once: the second
/// deletion finds no row and decrements nothing.
pub proof fn lemma_delete_idempotent(v: StoreView, user_id: Seq<char>, challenge_id: Seq<char>)
    requires
        v.wf(),
    ensures
        v.deleted(user_id, challenge_id).deleted(user_id, challenge_id) == v.deleted(user_id, challenge_id),
        !v.deleted(user_id, challenge_id).has_instance(user_id, challenge_id),
{
    if v.has_instance(user_id, challenge_id) {
        let i = v.instance_index(user_id, challenge_id);
        let w = v.deleted(user_id, challenge_id);
        assert forall|k: int| 0 <= k < w.instances.len() implies !#[trigger] is_key(w.instances[k], user_id, challenge_id) by {
            let src = if k < i { k } else { k + 1 };
            assert(w.instances[k] == v.instances[src]);
            assert(v.instances[i] == v.instances[i] && v.instances[src] == v.instances[src]);
        }
    }
}

/// The store: users and challenge instances, with the update rules of the
/// instancer.
pub struct Store {
    users: Vec<User>,
    instances: Vec<ChallengeInstance>,
}

impl View for Store {
    type V = StoreView;

    closed spec fn view(&self) -> StoreView {
        StoreView { users: self.users@, instances: self.instances@ }
    }
}

impl Store {
    /// An empty store.
    pub fn new() -> (r: Store)
        ensures
            r@.wf(),
            r@.consistent(),
            r@.users.len() == 0,
            r@.instances.len() == 0,
    {
        Store { users: Vec::new(), instances: Vec::new() }
    }

    pub fn fetch_user(&self, id: &str) -> (r: Option<User>)
        requires
            self@.wf(),
        ensures
            r == (if self@.has_user(id@) {
                Some(self@.user(id@))
            } else {
                None
            }),
    {
        let id = String::from_str(id);
        match self.find_user(&id) {
            Some(i) => Some(self.users[i].clone()),
            None => None,
        }
    }

    /// Registers `user` with no instances; a user with the same id is a
    /// conflict.
    pub fn insert_user(&mut self, user: User) -> (r: Result<(), StoreError>)
        requires
            old(self)@.wf(),
        ensures
            final(self)@.wf(),
            old(self)@.consistent() ==> final(self)@.consistent(),
            r is Err <==> old(self)@.has_user(user.id@),
            r is Err ==> final(self)@ == old(self)@,
            r is Ok ==> final(self)@ == (StoreView {
                users: old(self)@.users.push(User { instance_count: 0, ..user }),
                instances: old(self)@.instances,
            }),
    {
        match self.find_user(&user.id) {
            Some(_) => Err(StoreError::Conflict),
            None => {
                let ghost v = self@;
                let ghost id = user.id@;
                let fresh = User { instance_count: 0, ..user };
                self.users.push(fresh);
                proof {
                    let w = self@;
                    assert forall|i: int| 0 <= i < v.instances.len() implies (#[trigger] v.instances[i]).user_id@ != id by {
                        assert(v.has_user(v.instances[i].user_id@));
                    }
                    lemma_count_zero(v.instances, id);
                    assert forall|i: int| 0 <= i < w.instances.len() implies w.has_user(#[trigger] w.instances[i].user_id@) by {
                        assert(v.has_user(v.instances[i].user_id@));
                        let j = choose|j: int| 0 <= j < v.users.len() && #[trigger] v.users[j].id@ == v.instances[i].user_id@;
                        assert(w.users[j] == v.users[j]);
                    }
                    assert forall|i: int| 0 <= i < w.users.len() implies #[trigger] w.users[i].instance_count as nat
                        == count_for(w.instances, w.users[i].id@) by {
                        if i < v.users.len() {
                            assert(w.users[i] == v.users[i]);
                        }
                    }
                    assert forall|i: int, j: int|
                        0 <= i < w.users.len() && 0 <= j < w.users.len() && i != j
                        implies #[trigger] w.users[i].id@ != #[trigger] w.users[j].id@ by {
                        if i < v.users.len() && j < v.users.len() {
                            assert(w.users[i] == v.users[i]);
                            assert(w.users[j] == v.users[j]);
                            assert(v.users[i] == v.users[i] && v.users[j] == v.users[j]);
                        } else if i < v.users.len() {
                            assert(w.users[i] == v.users[i]);
                        } else {
                            assert(w.users[j] == v.users[j]);
                        }
                    }
                }
                Ok(())
            }
        }
    }

    /// Adds `instance` for its user, all or nothing: the user must exist and
    /// hold fewer than `max_instance_count` instances, and the key must be
    /// free. On success the user's `instance_count` goes up by one.
    pub fn insert_challenge_instance(&mut self, instance: &ChallengeInstance, max_instance_count: u32) -> (r: ChallengeInstanceInsertionResult)
        requires
            old(self)@.wf(),
        ensures
            final(self)@.wf(),
            old(self)@.consistent() && row_consistent(*instance) ==> final(self)@.consistent(),
            r == old(self)@.insertion_outcome(instance.user_id@, instance.challenge_id@, max_instance_count),
            r is Inserted ==> final(self)@ == old(self)@.inserted(*instance),
            !(r is Inserted) ==> final(self)@ == old(self)@,
            final(self)@.has_user(instance.user_id@) ==> r is Inserted ==> final(self)@.user(instance.user_id@).instance_count <= max_instance_count,
    {
        let ui = match self.find_user(&instance.user_id) {
            Some(ui) => ui,
            None => return ChallengeInstanceInsertionResult::LimitReached,
        };
        if self.users[ui].instance_count >= max_instance_count {
            return ChallengeInstanceInsertionResult::LimitReached;
        }
        if self.find_instance(&instance.user_id, &instance.challenge_id).is_some() {
            return ChallengeInstanceInsertionResult::Exists;
        }
        let ghost v = self@;
        let ghost u = instance.user_id@;
        let row = instance.clone();
        self.instances.push(row);
        let owner = self.users[ui].clone();
        let count = owner.instance_count + 1;
        self.users.set(ui, User { instance_count: count, ..owner });
        proof {
            let w = self@;
            assert(w == v.inserted(*instance));
            assert forall|i: int| 0 <= i < w.users.len() implies (#[trigger] w.users[i]).id@ == v.users[i].id@ by {
                if i != ui {
                    assert(w.users[i] == v.users[i]);
                }
            }
            assert forall|i: int| 0 <= i < w.instances.len() implies w.has_user(#[trigger] w.instances[i].user_id@) by {
                if i < v.instances.len() {
                    assert(w.instances[i] == v.instances[i]);
                    assert(v.has_user(v.instances[i].user_id@));
                    let j = choose|j: int| 0 <= j < v.users.len() && #[trigger] v.users[j].id@ == v.instances[i].user_id@;
                    assert(w.users[j].id@ == v.users[j].id@);
                } else {
                    assert(w.users[ui as int].id@ == v.users[ui as int].id@);
                }
            }
            assert forall|i: int| 0 <= i < w.users.len() implies #[trigger] w.users[i].instance_count as nat
                == count_for(w.instances, w.users[i].id@) by {
                lemma_count_push(v.instances, *instance, w.users[i].id@);
                assert(w.users[i].id@ == v.users[i].id@);
                if i != ui {
                    assert(w.users[i] == v.users[i]);
                    assert(v.users[i] == v.users[i] && v.users[ui as int] == v.users[ui as int]);
                }
            }
            assert forall|i: int, j: int|
                0 <= i < w.users.len() && 0 <= j < w.users.len() && i != j
                implies #[trigger] w.users[i].id@ != #[trigger] w.users[j].id@ by {
                assert(w.users[i].id@ == v.users[i].id@);
                assert(w.users[j].id@ == v.users[j].id@);
                assert(v.users[i] == v.users[i] && v.users[j] == v.users[j]);
            }
            assert forall|i: int, j: int|
                0 <= i < w.instances.len() && 0 <= j < w.instances.len() && i != j
                implies !is_key(#[trigger] w.instances[i], (#[trigger] w.instances[j]).user_id@, w.instances[j].challenge_id@) by {
                if i < v.instances.len() && j < v.instances.len() {
                    assert(w.instances[i] == v.instances[i] && w.instances[j] == v.instances[j]);
                    assert(v.instances[i] == v.instances[i] && v.instances[j] == v.instances[j]);
                } else if i < v.instances.len() {
                    assert(w.instances[i] == v.instances[i]);
                    assert(!is_key(v.instances[i], u, instance.challenge_id@));
                } else {
                    assert(w.instances[j] == v.instances[j]);
                    assert(!is_key(v.instances[j], u, instance.challenge_id@));
                }
            }
            assert(w.wf());
            lemma_user_index(w, ui as int);
            if v.consistent() && row_consistent(*instance) {
                assert forall|i: int| 0 <= i < w.instances.len() implies row_consistent(#[trigger] w.instances[i]) by {
                    if i < v.instances.len() {
                        assert(w.instances[i] == v.instances[i]);
                    }
                }
            }
        }
        ChallengeInstanceInsertionResult::Inserted
    }

    /// Moves the key's row from `old_state` to `new_state`; true iff the row
    /// existed in `old_state`. This compare-and-swap is the race-safe way to
    /// change a state.
    pub fn transition_challenge_instance_state(
        &mut self,
        user_id: &str,
        challenge_id: &str,
        old_state: ChallengeInstanceState,
        new_state: ChallengeInstanceState,
    ) -> (r: bool)
        requires
            old(self)@.wf(),
        ensures
            final(self)@.wf(),
            r == old(self)@.in_state(user_id@, challenge_id@, old_state),
            r ==> final(self)@ == old(self)@.with_state(user_id@, challenge_id@, new_state),
            !r ==> final(self)@ == old(self)@,
            final(self)@ == cas_step(old(self)@, user_id@, challenge_id@, old_state, new_state),
            old(self)@.consistent() && old(self)@.state_change_keeps_consistency(user_id@, challenge_id@, new_state)
                ==> final(self)@.consistent(),
    {
        let u = String::from_str(user_id);
        let c = String::from_str(challenge_id);
        match self.find_instance(&u, &c) {
            Some(i) => {
                if self.instances[i].state == old_state {
                    let row = self.instances[i].clone();
                    self.replace_row(i, ChallengeInstance { state: new_state, ..row });
                    true
                } else {
                    false
                }
            },
            None => false,
        }
    }

    /// Sets the key's state unconditionally, its other fields kept; a key
    /// without a row is left alone.
    pub fn update_challenge_instance_state(&mut self, user_id: &str, challenge_id: &str, state: ChallengeInstanceState)
        requires
            old(self)@.wf(),
        ensures
            final(self)@.wf(),
            final(self)@ == old(self)@.with_state(user_id@, challenge_id@, state),
            old(self)@.consistent() && old(self)@.state_change_keeps_consistency(user_id@, challenge_id@, state)
                ==> final(self)@.consistent(),
    {
        let u = String::from_str(user_id);
        let c = String::from_str(challenge_id);
        match self.find_instance(&u, &c) {
            Some(i) => {
                let row = self.instances[i].clone();
                self.replace_row(i, ChallengeInstance { state, ..row });
            },
            None => {},
        }
    }

    /// Marks the key's row `Running` with the deployer's `details` and its
    /// `stop_time`; a key without a row is left alone.
    pub fn populate_running_challenge_instance(
        &mut self,
        user_id: &str,
        challenge_id: &str,
        details: String,
        stop_time: TimeSinceEpoch,
    )
        requires
            old(self)@.wf(),
        ensures
            final(self)@.wf(),
            final(self)@ == old(self)@.populated(user_id@, challenge_id@, details, stop_time),
            old(self)@.consistent() ==> final(self)@.consistent(),
    {
        let u = String::from_str(user_id);
        let c = String::from_str(challenge_id);
        match self.find_instance(&u, &c) {
            Some(i) => {
                let row = self.instances[i].clone();
                self.replace_row(
                    i,
                    ChallengeInstance {
                        state: ChallengeInstanceState::Running,
                        details: Some(details),
                        stop_time: Some(stop_time),
                        ..row
                    },
                );
            },
            None => {},
        }
    }

    /// Sets the stop time of the key's row while it is `Running`; true iff
    /// it was.
    pub fn extend_challenge_instance(&mut self, user_id: &str, challenge_id: &str, stop_time: TimeSinceEpoch) -> (r: bool)
        requires
            old(self)@.wf(),
        ensures
            final(self)@.wf(),
            r == old(self)@.in_state(user_id@, challenge_id@, ChallengeInstanceState::Running),
            r ==> final(self)@ == old(self)@.extended(user_id@, challenge_id@, stop_time),
            !r ==> final(self)@ == old(self)@,
            old(self)@.consistent() ==> final(self)@.consistent(),
    {
        let u = String::from_str(user_id);
        let c = String::from_str(challenge_id);
        match self.find_instance(&u, &c) {
            Some(i) => {
                if self.instances[i].state == ChallengeInstanceState::Running {
                    let row = self.instances[i].clone();
                    self.replace_row(i, ChallengeInstance { stop_time: Some(stop_time), ..row });
                    true
                } else {
                    false
                }
            },
            None => false,
        }
    }

    /// Removes the key's row and, in the same step, takes it off its user's
    /// `instance_count`; true iff a row was removed. A key without a row
    /// changes nothing.
    pub fn delete_challenge_instance(&mut self, user_id: &str, challenge_id: &str) -> (r: bool)
        requires
            old(self)@.wf(),
        ensures
            final(self)@.wf(),
            r == old(self)@.has_instance(user_id@, challenge_id@),
            final(self)@ == old(self)@.deleted(user_id@, challenge_id@),
            old(self)@.consistent() ==> final(self)@.consistent(),
    {
        let u = String::from_str(user_id);
        let c = String::from_str(challenge_id);
        let i = match self.find_instance(&u, &c) {
            Some(i) => i,
            None => return false,
        };
        let ghost v = self@;
        proof {
            assert(v.has_user(v.instances[i as int].user_id@));
        }
        let ui = match self.find_user(&u) {
            Some(ui) => ui,
            None => return false,
        };
        proof {
            lemma_count_remove(v.instances, i as int, u@);
            assert(v.users[ui as int] == v.users[ui as int]);
        }
        self.instances.remove(i);
        let owner = self.users[ui].clone();
        let count = owner.instance_count - 1;
        self.users.set(ui, User { instance_count: count, ..owner });
        proof {
            assert(self@ == v.deleted(u@, c@));
            lemma_deleted_wf(v, u@, c@);
        }
        true
    }

    /// Replaces row `i` by a row with the same key.
    fn replace_row(&mut self, i: usize, row: ChallengeInstance)
        requires
            old(self)@.wf(),
            i < old(self)@.instances.len(),
            row.user_id@ == old(self)@.instances[i as int].user_id@,
            row.challenge_id@ == old(self)@.instances[i as int].challenge_id@,
        ensures
            final(self)@.wf(),
            final(self)@ == (StoreView { users: old(self)@.users, instances: old(self)@.instances.update(i as int, row) }),
            old(self)@.consistent() && row_consistent(row) ==> final(self)@.consistent(),
    {
        let ghost v = self@;
        self.instances.set(i, row);
        proof {
            let w = self@;
            assert forall|k: int| 0 <= k < w.instances.len() implies w.has_user(#[trigger] w.instances[k].user_id@) by {
                assert(v.has_user(v.instances[k].user_id@));
            }
            assert forall|k: int| 0 <= k < w.users.len() implies #[trigger] w.users[k].instance_count as nat
                == count_for(w.instances, w.users[k].id@) by {
                lemma_count_same_owners(w.instances, v.instances, w.users[k].id@);
            }
            assert forall|a: int, b: int|
                0 <= a < w.instances.len() && 0 <= b < w.instances.len() && a != b
                implies !is_key(#[trigger] w.instances[a], (#[trigger] w.instances[b]).user_id@, w.instances[b].challenge_id@) by {
                assert(v.instances[a] == v.instances[a] && v.instances[b] == v.instances[b]);
            }
        }
    }

    /// The rows of one user, in storage order.
    pub fn get_user_challenge_instances(&self, user_id: &str) -> (r: Vec<ChallengeInstance>)
        requires
            self@.wf(),
        ensures
            r@ == rows_of(self@.instances, user_id@),
    {
        let u = String::from_str(user_id);
        let mut out: Vec<ChallengeInstance> = Vec::new();
        let mut i: usize = 0;
        while i < self.instances.len()
            invariant
                i <= self.instances.len(),
                u@ == user_id@,
                out@ == rows_of(self.instances@.subrange(0, i as int), user_id@),
            decreases self.instances.len() - i,
        {
            proof {
                let next = self.instances@.subrange(0, i + 1);
                assert(next.drop_last() =~= self.instances@.subrange(0, i as int));
                assert(next.last() == self.instances@[i as int]);
            }
            if self.instances[i].user_id == u {
                out.push(self.instances[i].clone());
            }
            i += 1;
        }
        proof {
            assert(self.instances@.subrange(0, i as int) =~= self.instances@);
        }
        out
    }

    /// All rows, in storage order.
    pub fn get_challenge_instances(&self) -> (r: Vec<ChallengeInstance>)
        ensures
            r@ == self@.instances,
    {
        let mut out: Vec<ChallengeInstance> = Vec::new();
        let mut i: usize = 0;
        while i < self.instances.len()
            invariant
                i <= self.instances.len(),
                out@ == self.instances@.subrange(0, i as int),
            decreases self.instances.len() - i,
        {
            out.push(self.instances[i].clone());
            proof {
                assert(out@ =~= self.instances@.subrange(0, i + 1));
            }
            i += 1;
        }
        proof {
            assert(self.instances@.subrange(0, i as int) =~= self.instances@);
        }
        out
    }

    fn find_user(&self, id: &String) -> (r: Option<usize>)
        requires
            self@.wf(),
        ensures
            match r {
                Some(i) => i < self@.users.len() && self@.users[i as int].id@ == id@
                    && self@.user_index(id@) == i,
                None => !self@.has_user(id@),
            },
    {
        let mut i: usize = 0;
        while i < self.users.len()
            invariant
                self@.wf(),
                i <= self.users.len(),
                forall|j: int| 0 <= j < i ==> (#[trigger] self.users@[j]).id@ != id@,
            decreases self.users.len() - i,
        {
            if self.users[i].id == *id {
                proof {
                    lemma_user_index(self@, i as int);
                }
                return Some(i);
            }
            i += 1;
        }
        proof {
            assert forall|j: int| 0 <= j < self@.users.len() implies #[trigger] self@.users[j].id@ != id@ by {
                assert(self.users@[j] == self@.users[j]);
            }
        }
        None
    }

    fn find_instance(&self, user_id: &String, challenge_id: &String) -> (r: Option<usize>)
        requires
            self@.wf(),
        ensures
            match r {
                Some(i) => i < self@.instances.len() && is_key(self@.instances[i as int], user_id@, challenge_id@)
                    && self@.instance_index(user_id@, challenge_id@) == i,
                None => !self@.has_instance(user_id@, challenge_id@),
            },
    {
        let mut i: usize = 0;
        while i < self.instances.len()
            invariant
                self@.wf(),
                i <= self.instances.len(),
                forall|j: int| 0 <= j < i ==> !is_key(#[trigger] self.instances@[j], user_id@, challenge_id@),
            decreases self.instances.len() - i,
        {
            if self.instances[i].user_id == *user_id && self.instances[i].challenge_id == *challenge_id {
                proof {
                    lemma_instance_index(self@, i as int);
                }
                return Some(i);
            }
            i += 1;
        }
        proof {
            assert forall|j: int| 0 <= j < self@.instances.len() implies !#[trigger] is_key(self@.instances[j], user_id@, challenge_id@) by {
                assert(self.instances@[j] == self@.instances[j]);
            }
        }
        None
    }
}

} // verus!
