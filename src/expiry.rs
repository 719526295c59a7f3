//! The TTL expiry queue: at most one stop time per `(user, challenge)` key,
//! taken out earliest first.

use vstd::prelude::*;

use crate::models::TimeSinceEpoch;

verus! {

/// An instance's key and the time at which it is due to be stopped.
#[derive(Debug)]
pub struct ExpiryEntry {
    pub user_id: String,
    pub challenge_id: String,
    pub stop_time: TimeSinceEpoch,
}

pub open spec fn entry_key(e: ExpiryEntry) -> (Seq<char>, Seq<char>) {
    (e.user_id@, e.challenge_id@)
}

/// The entries of `m` that are due at `now`.
pub open spec fn due(m: Map<(Seq<char>, Seq<char>), u64>, now: u64) -> Map<(Seq<char>, Seq<char>), u64> {
    Map::new(|k: (Seq<char>, Seq<char>)| m.contains_key(k) && m[k] <= now, |k: (Seq<char>, Seq<char>)| m[k])
}

/// The entries of `m` that are not yet due at `now`.
pub open spec fn pending(m: Map<(Seq<char>, Seq<char>), u64>, now: u64) -> Map<(Seq<char>, Seq<char>), u64> {
    Map::new(|k: (Seq<char>, Seq<char>)| m.contains_key(k) && m[k] > now, |k: (Seq<char>, Seq<char>)| m[k])
}

/// `e` is an entry of `m` with the earliest stop time of `m`.
pub open spec fn is_earliest(m: Map<(Seq<char>, Seq<char>), u64>, e: ExpiryEntry) -> bool {
    &&& m.contains_key(entry_key(e))
    &&& m[entry_key(e)] == e.stop_time.0
    &&& forall|k: (Seq<char>, Seq<char>)| #[trigger] m.contains_key(k) ==> e.stop_time.0 <= m[k]
}

/// The queue; its view maps each key to its stop time in milliseconds.
pub struct ExpiryQueue {
    entries: Vec<ExpiryEntry>,
    model: Ghost<Map<(Seq<char>, Seq<char>), u64>>,
}

impl View for ExpiryQueue {
    type V = Map<(Seq<char>, Seq<char>), u64>;

    closed spec fn view(&self) -> Map<(Seq<char>, Seq<char>), u64> {
        self.model@
    }
}

impl ExpiryQueue {
    pub closed spec fn wf(&self) -> bool {
        &&& forall|i: int, j: int|
            #![trigger self.entries@[i], self.entries@[j]]
            0 <= i < self.entries@.len() && 0 <= j < self.entries@.len() && i != j
                ==> entry_key(self.entries@[i]) != entry_key(self.entries@[j])
        &&& forall|i: int|
            #![trigger self.entries@[i]]
            0 <= i < self.entries@.len() ==> self.model@.contains_key(entry_key(self.entries@[i]))
                && self.model@[entry_key(self.entries@[i])] == self.entries@[i].stop_time.0
        &&& forall|k: (Seq<char>, Seq<char>)|
            #[trigger] self.model@.contains_key(k) ==> exists|i: int|
                0 <= i < self.entries@.len() && entry_key(#[trigger] self.entries@[i]) == k
    }

    pub fn new() -> (r: ExpiryQueue)
        ensures
            r.wf(),
            r@ == Map::<(Seq<char>, Seq<char>), u64>::empty(),
    {
        ExpiryQueue { entries: Vec::new(), model: Ghost(Map::empty()) }
    }

    fn find(&self, user_id: &String, challenge_id: &String) -> (r: Option<usize>)
        requires
            self.wf(),
        ensures
            match r {
                Some(i) => i < self.entries@.len() && entry_key(self.entries@[i as int]) == (user_id@, challenge_id@),
                None => !self@.contains_key((user_id@, challenge_id@)),
            },
    {
        let mut i: usize = 0;
        while i < self.entries.len()
            invariant
                self.wf(),
                i <= self.entries.len(),
                forall|j: int| 0 <= j < i ==> entry_key(#[trigger] self.entries@[j]) != (user_id@, challenge_id@),
            decreases self.entries.len() - i,
        {
            if self.entries[i].user_id == *user_id && self.entries[i].challenge_id == *challenge_id {
                return Some(i);
            }
            i += 1;
        }
        proof {
            let k = (user_id@, challenge_id@);
            if self.model@.contains_key(k) {
                let j = choose|j: int| 0 <= j < self.entries@.len() && entry_key(#[trigger] self.entries@[j]) == k;
            }
        }
        None
    }

    /// Removes the entry at position `i`.
    fn remove_at(&mut self, i: usize) -> (r: ExpiryEntry)
        requires
            old(self).wf(),
            i < old(self).entries@.len(),
        ensures
            final(self).wf(),
            r == old(self).entries@[i as int],
            final(self)@ == old(self)@.remove(entry_key(r)),
            final(self).entries@.len() == old(self).entries@.len() - 1,
    {
        let ghost k = entry_key(self.entries@[i as int]);
        let ghost v = self.entries@;
        let r = self.entries.remove(i);
        self.model = Ghost(self.model@.remove(k));
        proof {
            let w = self.entries@;
            assert forall|a: int, b: int|
                0 <= a < w.len() && 0 <= b < w.len() && a != b
                implies #[trigger] entry_key(w[a]) != #[trigger] entry_key(w[b]) by {
                let sa = if a < i { a } else { a + 1 };
                let sb = if b < i { b } else { b + 1 };
                assert(w[a] == v[sa] && w[b] == v[sb]);
                assert(v[sa] == v[sa] && v[sb] == v[sb]);
            }
            assert forall|a: int| #![trigger w[a]] 0 <= a < w.len() implies self.model@.contains_key(entry_key(w[a]))
                && self.model@[entry_key(w[a])] == w[a].stop_time.0 by {
                let sa = if a < i { a } else { a + 1 };
                assert(w[a] == v[sa]);
                assert(v[sa] == v[sa] && v[i as int] == v[i as int]);
            }
            assert forall|q: (Seq<char>, Seq<char>)| #[trigger] self.model@.contains_key(q) implies exists|a: int|
                0 <= a < w.len() && entry_key(#[trigger] w[a]) == q by {
                let j = choose|j: int| 0 <= j < v.len() && entry_key(#[trigger] v[j]) == q;
                let a = if j < i { j } else { j - 1 };
                assert(w[a] == v[j]);
            }
        }
        r
    }

    /// Removes the key's entry, if any.
    pub fn pop_key(&mut self, user_id: &str, challenge_id: &str)
        requires
            old(self).wf(),
        ensures
            final(self).wf(),
            final(self)@ == old(self)@.remove((user_id@, challenge_id@)),
    {
        let u = String::from_str(user_id);
        let c = String::from_str(challenge_id);
        match self.find(&u, &c) {
            Some(i) => {
                self.remove_at(i);
            },
            None => {
                assert(self@.remove((user_id@, challenge_id@)) =~= self@);
            },
        }
    }

    /// Sets the key's stop time, replacing any earlier entry of the key.
    pub fn push(&mut self, user_id: String, challenge_id: String, stop_time: TimeSinceEpoch)
        requires
            old(self).wf(),
        ensures
            final(self).wf(),
            final(self)@ == old(self)@.insert((user_id@, challenge_id@), stop_time.0),
    {
        let ghost k = (user_id@, challenge_id@);
        let ghost m0 = self@;
        self.pop_key(user_id.as_str(), challenge_id.as_str());
        let ghost v = self.entries@;
        self.entries.push(ExpiryEntry { user_id, challenge_id, stop_time });
        self.model = Ghost(self.model@.insert(k, stop_time.0));
        proof {
            let w = self.entries@;
            assert(m0.remove(k).insert(k, stop_time.0) =~= m0.insert(k, stop_time.0));
            assert forall|a: int, b: int|
                0 <= a < w.len() && 0 <= b < w.len() && a != b
                implies #[trigger] entry_key(w[a]) != #[trigger] entry_key(w[b]) by {
                if a < v.len() && b < v.len() {
                    assert(w[a] == v[a] && w[b] == v[b]);
                    assert(v[a] == v[a] && v[b] == v[b]);
                } else if a < v.len() {
                    assert(w[a] == v[a]);
                    assert(v[a] == v[a]);
                } else {
                    assert(w[b] == v[b]);
                    assert(v[b] == v[b]);
                }
            }
            assert forall|a: int| #![trigger w[a]] 0 <= a < w.len() implies self.model@.contains_key(entry_key(w[a]))
                && self.model@[entry_key(w[a])] == w[a].stop_time.0 by {
                if a < v.len() {
                    assert(w[a] == v[a]);
                    assert(v[a] == v[a]);
                }
            }
            assert forall|q: (Seq<char>, Seq<char>)| #[trigger] self.model@.contains_key(q) implies exists|a: int|
                0 <= a < w.len() && entry_key(#[trigger] w[a]) == q by {
                if q != k {
                    assert(m0.remove(k).contains_key(q));
                    let j = choose|j: int| 0 <= j < v.len() && entry_key(#[trigger] v[j]) == q;
                    assert(w[j] == v[j]);
                } else {
                    assert(entry_key(w[v.len() as int]) == k);
                }
            }
        }
    }

    /// Takes out every entry that is due at `now` (stop time at or before
    /// it), earliest first.
    pub fn take_due(&mut self, now: TimeSinceEpoch) -> (r: Vec<ExpiryEntry>)
        requires
            old(self).wf(),
        ensures
            final(self).wf(),
            final(self)@ == pending(old(self)@, now.0),
            forall|i: int| #![trigger r@[i]] 0 <= i < r@.len() ==> due(old(self)@, now.0).contains_key(entry_key(r@[i]))
                && old(self)@[entry_key(r@[i])] == r@[i].stop_time.0,
            forall|k: (Seq<char>, Seq<char>)| #[trigger] due(old(self)@, now.0).contains_key(k) ==> exists|i: int|
                0 <= i < r@.len() && entry_key(#[trigger] r@[i]) == k,
            forall|i: int, j: int| 0 <= i < j < r@.len() ==> entry_key(#[trigger] r@[i]) != entry_key(#[trigger] r@[j])
                && r@[i].stop_time.0 <= r@[j].stop_time.0,
    {
        let ghost m0 = self@;
        let mut out: Vec<ExpiryEntry> = Vec::new();
        loop
            invariant
                self.wf(),
                forall|k: (Seq<char>, Seq<char>)| #[trigger] self@.contains_key(k) ==> m0.contains_key(k) && self@[k] == m0[k],
                forall|k: (Seq<char>, Seq<char>)| #[trigger] m0.contains_key(k) && m0[k] > now.0 ==> self@.contains_key(k),
                forall|k: (Seq<char>, Seq<char>)| #[trigger] m0.contains_key(k) && !self@.contains_key(k) ==> exists|i: int|
                    0 <= i < out@.len() && entry_key(#[trigger] out@[i]) == k,
                forall|i: int| #![trigger out@[i]] 0 <= i < out@.len() ==> m0.contains_key(entry_key(out@[i]))
                    && m0[entry_key(out@[i])] == out@[i].stop_time.0 && out@[i].stop_time.0 <= now.0
                    && !self@.contains_key(entry_key(out@[i])),
                forall|i: int, j: int| 0 <= i < j < out@.len() ==> entry_key(#[trigger] out@[i]) != entry_key(#[trigger] out@[j])
                    && out@[i].stop_time.0 <= out@[j].stop_time.0,
                forall|i: int, k: (Seq<char>, Seq<char>)| 0 <= i < out@.len() && #[trigger] self@.contains_key(k)
                    ==> (#[trigger] out@[i]).stop_time.0 <= self@[k],
            ensures
                self.wf(),
                forall|k: (Seq<char>, Seq<char>)| #[trigger] self@.contains_key(k) ==> m0.contains_key(k) && self@[k] == m0[k],
                forall|k: (Seq<char>, Seq<char>)| #[trigger] m0.contains_key(k) && m0[k] > now.0 ==> self@.contains_key(k),
                forall|k: (Seq<char>, Seq<char>)| #[trigger] m0.contains_key(k) && !self@.contains_key(k) ==> exists|i: int|
                    0 <= i < out@.len() && entry_key(#[trigger] out@[i]) == k,
                forall|i: int| #![trigger out@[i]] 0 <= i < out@.len() ==> m0.contains_key(entry_key(out@[i]))
                    && m0[entry_key(out@[i])] == out@[i].stop_time.0 && out@[i].stop_time.0 <= now.0
                    && !self@.contains_key(entry_key(out@[i])),
                forall|i: int, j: int| 0 <= i < j < out@.len() ==> entry_key(#[trigger] out@[i]) != entry_key(#[trigger] out@[j])
                    && out@[i].stop_time.0 <= out@[j].stop_time.0,
                forall|k: (Seq<char>, Seq<char>)| #[trigger] self@.contains_key(k) ==> self@[k] > now.0,
            decreases self.entries@.len(),
        {
            let i = match self.earliest() {
                Some(i) => i,
                None => break,
            };
            if self.entries[i].stop_time.0 > now.0 {
                break;
            }
            let ghost before = self@;
            let ghost n = self.entries@.len();
            let e = self.remove_at(i);
            assert(self.entries@.len() < n);
            let ghost old_out = out@;
            out.push(e);
            proof {
                assert forall|k: (Seq<char>, Seq<char>)| #[trigger] m0.contains_key(k) && !self@.contains_key(k) implies exists|a: int|
                    0 <= a < out@.len() && entry_key(#[trigger] out@[a]) == k by {
                    if k == entry_key(e) {
                        assert(entry_key(out@[old_out.len() as int]) == k);
                    } else {
                        assert(!before.contains_key(k));
                        let a = choose|a: int| 0 <= a < old_out.len() && entry_key(#[trigger] old_out[a]) == k;
                        assert(out@[a] == old_out[a]);
                    }
                }
                assert forall|a: int| #![trigger out@[a]] 0 <= a < out@.len() implies m0.contains_key(entry_key(out@[a]))
                    && m0[entry_key(out@[a])] == out@[a].stop_time.0 && out@[a].stop_time.0 <= now.0
                    && !self@.contains_key(entry_key(out@[a])) by {
                    if a < old_out.len() {
                        assert(out@[a] == old_out[a]);
                    }
                }
                assert forall|a: int, b: int| 0 <= a < b < out@.len() implies entry_key(#[trigger] out@[a]) != entry_key(#[trigger] out@[b])
                    && out@[a].stop_time.0 <= out@[b].stop_time.0 by {
                    assert(out@[a] == old_out[a]);
                    if b < old_out.len() {
                        assert(out@[b] == old_out[b]);
                    } else {
                        assert(before.contains_key(entry_key(e)));
                    }
                }
                assert forall|a: int, k: (Seq<char>, Seq<char>)| 0 <= a < out@.len() && #[trigger] self@.contains_key(k)
                    implies (#[trigger] out@[a]).stop_time.0 <= self@[k] by {
                    assert(before.contains_key(k));
                    if a < old_out.len() {
                        assert(out@[a] == old_out[a]);
                    }
                }
            }
        }
        proof {
            assert(self@ =~= pending(m0, now.0));
        }
        out
    }

    /// Position of an entry with the earliest stop time.
    fn earliest(&self) -> (r: Option<usize>)
        requires
            self.wf(),
        ensures
            match r {
                Some(i) => i < self.entries@.len() && is_earliest(self@, self.entries@[i as int]),
                None => self@ =~= Map::<(Seq<char>, Seq<char>), u64>::empty(),
            },
    {
        if self.entries.len() == 0 {
            proof {
                assert forall|q: (Seq<char>, Seq<char>)| !self.model@.contains_key(q) by {
                    if self.model@.contains_key(q) {
                        let j = choose|j: int| 0 <= j < self.entries@.len() && entry_key(#[trigger] self.entries@[j]) == q;
                    }
                }
            }
            return None;
        }
        let mut best: usize = 0;
        let mut i: usize = 1;
        while i < self.entries.len()
            invariant
                self.wf(),
                0 < i <= self.entries.len(),
                best < i,
                forall|j: int| 0 <= j < i ==> self.entries@[best as int].stop_time.0 <= (#[trigger] self.entries@[j]).stop_time.0,
            decreases self.entries.len() - i,
        {
            if self.entries[i].stop_time.0 < self.entries[best].stop_time.0 {
                best = i;
            }
            i += 1;
        }
        proof {
            let e = self.entries@[best as int];
            assert(self.entries@[best as int] == e);
            assert forall|q: (Seq<char>, Seq<char>)| #[trigger] self.model@.contains_key(q) implies e.stop_time.0 <= self.model@[q] by {
                let j = choose|j: int| 0 <= j < self.entries@.len() && entry_key(#[trigger] self.entries@[j]) == q;
            }
        }
        Some(best)
    }

    /// An entry with the earliest stop time; `None` when the queue is empty.
    pub fn peek(&self) -> (r: Option<ExpiryEntry>)
        requires
            self.wf(),
        ensures
            match r {
                Some(e) => is_earliest(self@, e),
                None => self@ =~= Map::<(Seq<char>, Seq<char>), u64>::empty(),
            },
    {
        match self.earliest() {
            Some(i) => {
                let e = &self.entries[i];
                Some(ExpiryEntry { user_id: e.user_id.clone(), challenge_id: e.challenge_id.clone(), stop_time: e.stop_time })
            },
            None => None,
        }
    }

    /// Takes out an entry with the earliest stop time; `None` when the queue
    /// is empty.
    pub fn pop(&mut self) -> (r: Option<ExpiryEntry>)
        requires
            old(self).wf(),
        ensures
            final(self).wf(),
            match r {
                Some(e) => is_earliest(old(self)@, e) && final(self)@ == old(self)@.remove(entry_key(e)),
                None => old(self)@ =~= Map::<(Seq<char>, Seq<char>), u64>::empty() && final(self)@ == old(self)@,
            },
    {
        match self.earliest() {
            Some(i) => Some(self.remove_at(i)),
            None => None,
        }
    }
}

} // verus!
