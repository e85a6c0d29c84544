use crate::code::{is_session_code, random_code, SessionCode, MAX_ATTEMPTS};
use crate::playback::{apply_command, is_broadcast, Command, PlaybackState, PlaybackStatus};
use crate::session::{Broadcast, Lifecycle, Podcast, Snapshot};
use vstd::prelude::*;

verus! {

/// Why a registry or session operation did not go through.
#[derive(Clone, Copy, Debug, PartialEq, Eq, Structural)]
pub enum RegistryError {
    /// No live session has the given code.
    NotFound,
    /// No unused code was found within the attempt bound.
    CapacityExhausted,
    /// A client sent a payload that is not a command.
    InvalidMessage,
    /// The registry could not be reached.
    Internal,
}

/// The process-wide set of live sessions, each under its own code.
#[derive(Debug)]
pub struct Application {
    sessions: Vec<Podcast>,
    reap_when_empty: bool,
}

impl Application {
    /// The live sessions, in order of creation.
    pub closed spec fn entries(&self) -> Seq<Podcast> {
        self.sessions@
    }

    /// Whether a session is removed as soon as its last participant leaves.
    pub closed spec fn spec_reap_when_empty(&self) -> bool {
        self.reap_when_empty
    }

    /// Every session is well formed and no two live sessions share a code.
    pub open spec fn wf(&self) -> bool {
        &&& forall|i: int| 0 <= i < self.entries().len() ==> #[trigger] self.entries()[i].wf()
        &&& forall|i: int, j: int|
            0 <= i < self.entries().len() && 0 <= j < self.entries().len() && i != j
                ==> #[trigger] self.entries()[i].spec_code() != #[trigger] self.entries()[j].spec_code()
        &&& forall|i: int, j: int, h: u64|
            0 <= i < self.entries().len() && 0 <= j < self.entries().len() && i != j
                && #[trigger] self.entries()[i].members().contains(h)
                ==> !(#[trigger] self.entries()[j].members().contains(h))
    }

    /// Whether connection `h` is joined to a session other than the one at `i`.
    pub open spec fn member_elsewhere(&self, i: int, h: u64) -> bool {
        exists|j: int| 0 <= j < self.entries().len() && j != i && #[trigger] self.entries()[j].members().contains(h)
    }

    /// Whether no live session has `h` among its members.
    pub open spec fn in_no_session(&self, h: u64) -> bool {
        forall|j: int| 0 <= j < self.entries().len() ==> !(#[trigger] self.entries()[j]).members().contains(h)
    }

    /// `after` is `self` once `handle` joined the session with code `c`:
    /// that session gains `handle` and nothing else changes.
    pub open spec fn joined(&self, after: &Application, c: Seq<char>, handle: u64) -> bool {
        let i = self.index_of(c);
        let before = self.entries()[i];
        let now = after.entries()[i];
        &&& after.same_except(self, i)
        &&& after.index_of(c) == i
        &&& now.spec_code() == c
        &&& now.members() == before.members().insert(handle)
        &&& now.spec_episode() == before.spec_episode()
        &&& now.spec_state() == before.spec_state()
    }

    /// `after` is `self` once command `cmd` reached the session with code `c`
    /// at time `t`: only that session's state changes.
    pub open spec fn applied(&self, after: &Application, c: Seq<char>, cmd: Command, t: u64) -> bool {
        let i = self.index_of(c);
        let before = self.entries()[i];
        let now = after.entries()[i];
        &&& after.same_except(self, i)
        &&& after.index_of(c) == i
        &&& now.spec_code() == c
        &&& now.spec_state() == apply_command(before.spec_state(), cmd, t)
        &&& now.members() == before.members()
        &&& now.spec_episode() == before.spec_episode()
    }

    /// Whether `handle` leaving the session with code `c` is what empties it,
    /// and emptied sessions are reaped.
    pub open spec fn reaps_on_leave(&self, c: Seq<char>, handle: u64) -> bool {
        let before = self.session_of(c);
        &&& self.spec_reap_when_empty()
        &&& before.members().contains(handle)
        &&& before.members().remove(handle).is_empty()
    }

    /// `after` is `self` once `handle` left the session with code `c`: the
    /// session loses `handle` only, or is removed when that emptied it and
    /// emptied sessions are reaped; other sessions are unchanged.
    pub open spec fn left(&self, after: &Application, c: Seq<char>, handle: u64) -> bool {
        let i = self.index_of(c);
        let before = self.entries()[i];
        let now = after.entries()[i];
        &&& after.spec_reap_when_empty() == self.spec_reap_when_empty()
        &&& self.reaps_on_leave(c, handle) ==> after.entries() == self.entries().remove(i) && !after.has_code(c)
        &&& !self.reaps_on_leave(c, handle) ==> {
            &&& after.same_except(self, i)
            &&& after.index_of(c) == i
            &&& now.spec_code() == c
            &&& now.members() == before.members().remove(handle)
            &&& now.spec_episode() == before.spec_episode()
            &&& now.spec_state() == before.spec_state()
        }
    }

    pub open spec fn has_code(&self, c: Seq<char>) -> bool {
        exists|i: int| 0 <= i < self.entries().len() && #[trigger] self.entries()[i].spec_code() == c
    }

    /// Where the session with code `c` stands among the entries.
    pub open spec fn index_of(&self, c: Seq<char>) -> int {
        choose|i: int| 0 <= i < self.entries().len() && #[trigger] self.entries()[i].spec_code() == c
    }

    /// The live session with code `c`.
    pub open spec fn session_of(&self, c: Seq<char>) -> Podcast {
        self.entries()[self.index_of(c)]
    }

    /// Only the session at `i` may differ between the two registries.
    pub open spec fn same_except(&self, other: &Application, i: int) -> bool {
        &&& self.entries().len() == other.entries().len()
        &&& forall|j: int| 0 <= j < self.entries().len() && j != i ==> #[trigger] self.entries()[j] == other.entries()[j]
        &&& self.spec_reap_when_empty() == other.spec_reap_when_empty()
    }

    /// An empty registry that reaps a session as soon as it empties.
    pub fn new() -> (r: Application)
        ensures
            r.wf(),
            r.entries() == Seq::<Podcast>::empty(),
            r.spec_reap_when_empty(),
    {
        Application { sessions: Vec::new(), reap_when_empty: true }
    }

    /// Chooses whether emptied sessions are removed at once, or left for
    /// `remove` to take away later.
    pub fn set_reap_when_empty(&mut self, reap: bool)
        ensures
            final(self).entries() == old(self).entries(),
            final(self).spec_reap_when_empty() == reap,
    {
        self.reap_when_empty = reap;
    }

    /// Number of live sessions.
    pub fn len(&self) -> (r: usize)
        ensures
            r == self.entries().len(),
    {
        self.sessions.len()
    }

    /// The position of the session with `code`, if there is one.
    fn find(&self, code: &SessionCode) -> (r: Option<usize>)
        requires
            self.wf(),
        ensures
            r is None <==> !self.has_code(code@),
            r matches Some(i) ==> i < self.entries().len() && self.entries()[i as int].spec_code() == code@
                && self.index_of(code@) == i,
    {
        let mut i: usize = 0;
        while i < self.sessions.len()
            invariant
                self.wf(),
                i <= self.sessions@.len(),
                forall|j: int| 0 <= j < i ==> #[trigger] self.entries()[j].spec_code() != code@,
            decreases self.sessions@.len() - i,
        {
            proof {
                assert(self.entries()[i as int].wf());
            }
            if self.sessions[i].code().same_as(code) {
                proof {
                    assert(self.entries()[i as int].spec_code() == code@);
                    let k = self.index_of(code@);
                    assert(self.entries()[k].spec_code() == code@);
                }
                return Some(i);
            }
            i = i + 1;
        }
        None
    }

    /// Whether a live session has `code`.
    pub fn contains(&self, code: &SessionCode) -> (r: bool)
        requires
            self.wf(),
        ensures
            r == self.has_code(code@),
    {
        self.find(code).is_some()
    }

    /// The first of `candidates` that no live session holds, or
    /// `CapacityExhausted` when every one of them is taken.
    pub fn first_free(&self, candidates: &Vec<SessionCode>) -> (r: Result<SessionCode, RegistryError>)
        requires
            self.wf(),
        ensures
            r is Ok <==> exists|k: int| 0 <= k < candidates@.len() && !self.has_code(#[trigger] candidates@[k]@),
            r matches Ok(c) ==> exists|k: int| {
                &&& 0 <= k < candidates@.len()
                &&& c@ == #[trigger] candidates@[k]@
                &&& !self.has_code(c@)
                &&& forall|j: int| 0 <= j < k ==> self.has_code(#[trigger] candidates@[j]@)
            },
            r matches Err(e) ==> e == RegistryError::CapacityExhausted,
    {
        let mut k: usize = 0;
        while k < candidates.len()
            invariant
                self.wf(),
                k <= candidates@.len(),
                forall|j: int| 0 <= j < k ==> self.has_code(#[trigger] candidates@[j]@),
            decreases candidates@.len() - k,
        {
            if !self.contains(&candidates[k]) {
                let c = candidates[k].duplicate();
                assert(c@ == candidates@[k as int]@);
                return Ok(c);
            }
            k = k + 1;
        }
        Err(RegistryError::CapacityExhausted)
    }

    /// Draws `MAX_ATTEMPTS` random codes and takes the first that is not in
    /// use, or fails with `CapacityExhausted`. With no live session the
    /// first draw is always free.
    pub fn generate_id(&self) -> (r: Result<SessionCode, RegistryError>)
        requires
            self.wf(),
        ensures
            r matches Ok(c) ==> c.wf() && is_session_code(c@) && !self.has_code(c@),
            r matches Err(e) ==> e == RegistryError::CapacityExhausted,
            self.entries().len() == 0 ==> r is Ok,
    {
        let mut candidates: Vec<SessionCode> = Vec::new();
        let mut attempt: usize = 0;
        while attempt < MAX_ATTEMPTS
            invariant
                attempt <= MAX_ATTEMPTS,
                candidates@.len() == attempt,
                forall|j: int| 0 <= j < attempt ==> (#[trigger] candidates@[j]).wf(),
            decreases MAX_ATTEMPTS - attempt,
        {
            candidates.push(random_code());
            attempt = attempt + 1;
        }
        proof {
            if self.entries().len() == 0 {
                assert(!self.has_code(candidates@[0]@));
            }
        }
        let r = self.first_free(&candidates);
        proof {
            if let Ok(c) = &r {
                let k = choose|k: int| {
                    &&& 0 <= k < candidates@.len()
                    &&& c@ == #[trigger] candidates@[k]@
                    &&& !self.has_code(c@)
                    &&& forall|j: int| 0 <= j < k ==> self.has_code(#[trigger] candidates@[j]@)
                };
                assert(candidates@[k].wf());
            }
        }
        r
    }

    /// Starts a session under `code` unless that code is live already;
    /// returns whether it did.
    pub fn insert_session(&mut self, code: SessionCode, episode: String, now: u64) -> (r: bool)
        requires
            old(self).wf(),
            code.wf(),
        ensures
            final(self).wf(),
            r == !old(self).has_code(code@),
            final(self).spec_reap_when_empty() == old(self).spec_reap_when_empty(),
            !r ==> final(self).entries() == old(self).entries(),
            r ==> {
                let p = final(self).entries().last();
                &&& final(self).entries() == old(self).entries().push(p)
                &&& p.spec_code() == code@
                &&& p.spec_episode() == episode@
                &&& p.spec_state() == (PlaybackState { position: 0, status: PlaybackStatus::Paused, last_update: now })
                &&& p.members() == Set::<u64>::empty()
            },
    {
        if self.contains(&code) {
            return false;
        }
        let ghost c = code@;
        let p = Podcast::new(code, episode, now);
        self.sessions.push(p);
        proof {
            assert forall|i: int, j: int|
                0 <= i < self.entries().len() && 0 <= j < self.entries().len() && i != j
                    implies #[trigger] self.entries()[i].spec_code() != #[trigger] self.entries()[j].spec_code() by {
                let n = old(self).entries().len() as int;
                if i == n {
                    assert(old(self).entries()[j].spec_code() != c);
                } else if j == n {
                    assert(old(self).entries()[i].spec_code() != c);
                } else {
                    assert(old(self).entries()[i] == self.entries()[i]);
                    assert(old(self).entries()[j] == self.entries()[j]);
                }
            }
            assert(self.entries() =~= old(self).entries().push(self.entries().last()));
        }
        true
    }

    /// Creates a session for `episode`, paused at the start with nobody in it,
    /// under a fresh code that it returns.
    pub fn create(&mut self, episode: String, now: u64) -> (r: Result<SessionCode, RegistryError>)
        requires
            old(self).wf(),
        ensures
            final(self).wf(),
            final(self).spec_reap_when_empty() == old(self).spec_reap_when_empty(),
            r matches Err(e) ==> e == RegistryError::CapacityExhausted && final(self).entries() == old(self).entries(),
            old(self).entries().len() == 0 ==> r is Ok,
            r matches Ok(c) ==> {
                let p = final(self).entries().last();
                &&& is_session_code(c@)
                &&& !old(self).has_code(c@)
                &&& final(self).entries() == old(self).entries().push(p)
                &&& p.spec_code() == c@
                &&& p.spec_episode() == episode@
                &&& p.spec_state() == (PlaybackState { position: 0, status: PlaybackStatus::Paused, last_update: now })
                &&& p.members() == Set::<u64>::empty()
            },
    {
        match self.generate_id() {
            Ok(code) => {
                let handed_out = code.duplicate();
                let inserted = self.insert_session(code, episode, now);
                if inserted {
                    Ok(handed_out)
                } else {
                    Err(RegistryError::CapacityExhausted)
                }
            },
            Err(e) => Err(e),
        }
    }

    /// A snapshot of the session with `code`.
    pub fn get(&self, code: &SessionCode) -> (r: Result<Snapshot, RegistryError>)
        requires
            self.wf(),
        ensures
            r is Err <==> !self.has_code(code@),
            r matches Err(e) ==> e == RegistryError::NotFound,
            r matches Ok(s) ==> s.episode@ == self.session_of(code@).spec_episode()
                && s.state == self.session_of(code@).spec_state(),
    {
        match self.find(code) {
            Some(i) => Ok(self.sessions[i].snapshot()),
            None => Err(RegistryError::NotFound),
        }
    }

    /// The lifecycle of the session with `code`.
    pub fn lifecycle(&self, code: &SessionCode) -> (r: Result<Lifecycle, RegistryError>)
        requires
            self.wf(),
        ensures
            r is Err <==> !self.has_code(code@),
            r matches Err(e) ==> e == RegistryError::NotFound,
            r matches Ok(l) ==> l == self.session_of(code@).spec_lifecycle(),
    {
        match self.find(code) {
            Some(i) => Ok(self.sessions[i].lifecycle()),
            None => Err(RegistryError::NotFound),
        }
    }

    /// Whether connection `h` is joined to a session other than the one at `i`.
    fn joined_elsewhere(&self, i: usize, h: u64) -> (r: bool)
        requires
            self.wf(),
        ensures
            r == self.member_elsewhere(i as int, h),
    {
        let mut j: usize = 0;
        while j < self.sessions.len()
            invariant
                self.wf(),
                j <= self.sessions@.len(),
                forall|k: int| 0 <= k < j && k != i ==> !(#[trigger] self.entries()[k]).members().contains(h),
            decreases self.sessions@.len() - j,
        {
            if j != i && self.sessions[j].is_member(h) {
                assert(self.entries()[j as int].members().contains(h));
                return true;
            }
            j = j + 1;
        }
        false
    }

    /// Adds connection `handle` to the session with `code` and returns the
    /// snapshot that brings it up to date. A connection joined to another
    /// session is refused: it belongs to one session at a time.
    pub fn join(&mut self, code: &SessionCode, handle: u64) -> (r: Result<Snapshot, RegistryError>)
        requires
            old(self).wf(),
        ensures
            final(self).wf(),
            r is Err <==> !old(self).has_code(code@) || old(self).member_elsewhere(old(self).index_of(code@), handle),
            !old(self).has_code(code@) ==> r == Err::<Snapshot, RegistryError>(RegistryError::NotFound),
            old(self).has_code(code@) && old(self).member_elsewhere(old(self).index_of(code@), handle)
                ==> r == Err::<Snapshot, RegistryError>(RegistryError::InvalidMessage),
            r is Err ==> final(self).entries() == old(self).entries(),
            r matches Ok(s) ==> {
                &&& old(self).joined(final(self), code@, handle)
                &&& final(self).session_of(code@).spec_lifecycle() == Lifecycle::Active
                &&& s.episode@ == final(self).session_of(code@).spec_episode()
                &&& s.state == final(self).session_of(code@).spec_state()
            },
    {
        let i = match self.find(code) {
            Some(i) => i,
            None => return Err(RegistryError::NotFound),
        };
        if self.joined_elsewhere(i, handle) {
            return Err(RegistryError::InvalidMessage);
        }
        proof {
            assert(old(self).entries()[i as int].wf());
        }
        let mut p = self.sessions.remove(i);
        let snapshot = p.join(handle);
        self.sessions.insert(i, p);
        proof {
            assert(self.entries() =~= old(self).entries().update(i as int, p));
            Self::lemma_update_keeps_wf(old(self), self, i as int);
        }
        Ok(snapshot)
    }

    /// Applies command `c` to the session with `code` at server time `now`,
    /// and returns what is to be broadcast to its members.
    pub fn apply(&mut self, code: &SessionCode, c: Command, now: u64) -> (r: Result<Option<Broadcast>, RegistryError>)
        requires
            old(self).wf(),
        ensures
            final(self).wf(),
            r is Err <==> !old(self).has_code(code@),
            r matches Err(e) ==> e == RegistryError::NotFound && final(self).entries() == old(self).entries(),
            r matches Ok(b) ==> {
                &&& old(self).applied(final(self), code@, c, now)
                &&& (b is Some <==> is_broadcast(c))
                &&& (b matches Some(m) ==> {
                    &&& m.state == final(self).session_of(code@).spec_state()
                    &&& m.recipients@.no_duplicates()
                    &&& m.recipients@.to_set() == final(self).session_of(code@).members()
                })
            },
    {
        let i = match self.find(code) {
            Some(i) => i,
            None => return Err(RegistryError::NotFound),
        };
        proof {
            assert(old(self).entries()[i as int].wf());
        }
        let mut p = self.sessions.remove(i);
        let b = p.apply(c, now);
        self.sessions.insert(i, p);
        proof {
            assert(self.entries() =~= old(self).entries().update(i as int, p));
            Self::lemma_update_keeps_wf(old(self), self, i as int);
        }
        Ok(b)
    }

    /// Removes connection `handle` from the session with `code`. If its
    /// leaving empties the session and emptied sessions are reaped, the
    /// session is removed and its code is free again; returns whether that
    /// happened.
    pub fn leave(&mut self, code: &SessionCode, handle: u64) -> (r: Result<bool, RegistryError>)
        requires
            old(self).wf(),
        ensures
            final(self).wf(),
            r is Err <==> !old(self).has_code(code@),
            r matches Err(e) ==> e == RegistryError::NotFound && final(self).entries() == old(self).entries(),
            r matches Ok(reaped) ==> {
                &&& reaped == old(self).reaps_on_leave(code@, handle)
                &&& old(self).left(final(self), code@, handle)
                &&& (!reaped && final(self).session_of(code@).members().is_empty()
                    ==> final(self).session_of(code@).spec_lifecycle() == Lifecycle::Empty)
                &&& (old(self).session_of(code@).members().contains(handle)
                    ==> final(self).in_no_session(handle))
            },
    {
        let i = match self.find(code) {
            Some(i) => i,
            None => return Err(RegistryError::NotFound),
        };
        proof {
            assert(old(self).entries()[i as int].wf());
        }
        let mut p = self.sessions.remove(i);
        let ghost removed = self.entries();
        let was_member = p.leave(handle);
        if self.reap_when_empty && was_member && p.lifecycle() == Lifecycle::Empty {
            proof {
                assert(removed =~= old(self).entries().remove(i as int));
                Self::lemma_remove_keeps_wf(old(self), self, i as int);
                assert forall|j: int| 0 <= j < self.entries().len()
                    implies !(#[trigger] self.entries()[j]).members().contains(handle) by {
                    let jj = if j < i { j } else { j + 1 };
                    assert(self.entries()[j] == old(self).entries()[jj]);
                }
            }
            return Ok(true);
        }
        self.sessions.insert(i, p);
        proof {
            assert(self.entries() =~= old(self).entries().update(i as int, p));
            Self::lemma_update_keeps_wf(old(self), self, i as int);
            if old(self).entries()[i as int].members().contains(handle) {
                assert forall|j: int| 0 <= j < self.entries().len()
                    implies !(#[trigger] self.entries()[j]).members().contains(handle) by {
                    if j != i {
                        assert(self.entries()[j] == old(self).entries()[j]);
                    }
                }
            }
        }
        Ok(false)
    }

    /// Removes the session with `code`, freeing the code.
    pub fn remove(&mut self, code: &SessionCode) -> (r: Result<(), RegistryError>)
        requires
            old(self).wf(),
        ensures
            final(self).wf(),
            final(self).spec_reap_when_empty() == old(self).spec_reap_when_empty(),
            r is Err <==> !old(self).has_code(code@),
            r matches Err(e) ==> e == RegistryError::NotFound,
            r is Err ==> final(self).entries() == old(self).entries(),
            r is Ok ==> final(self).entries() == old(self).entries().remove(old(self).index_of(code@)),
            !final(self).has_code(code@),
    {
        let i = match self.find(code) {
            Some(i) => i,
            None => return Err(RegistryError::NotFound),
        };
        self.sessions.remove(i);
        proof {
            Self::lemma_remove_keeps_wf(old(self), self, i as int);
        }
        Ok(())
    }

    /// No two live sessions share a code: a code names at most one session,
    /// the one `session_of` gives.
    pub proof fn lemma_code_names_one_session(&self, c: Seq<char>, i: int)
        requires
            self.wf(),
            0 <= i < self.entries().len(),
            self.entries()[i].spec_code() == c,
        ensures
            self.has_code(c),
            self.index_of(c) == i,
            self.session_of(c) == self.entries()[i],
    {
        let k = self.index_of(c);
        assert(self.entries()[k].spec_code() == c);
    }

    /// Fewer live codes never turn success into failure: if some candidate is
    /// free in `self`, it is free in any registry whose live codes are among
    /// `self`'s, and the first free candidate there comes no later.
    pub proof fn lemma_fewer_codes_keep_success(&self, other: &Application, cands: Seq<Seq<char>>, k: int)
        requires
            forall|c: Seq<char>| other.has_code(c) ==> self.has_code(c),
            0 <= k < cands.len(),
            !self.has_code(cands[k]),
        ensures
            !other.has_code(cands[k]),
            exists|m: int| 0 <= m <= k && !other.has_code(#[trigger] cands[m])
                && forall|j: int| 0 <= j < m ==> other.has_code(#[trigger] cands[j]),
    {
        if exists|m: int| 0 <= m < k && !other.has_code(#[trigger] cands[m]) {
            let m = choose|m: int| 0 <= m < k && !other.has_code(#[trigger] cands[m]);
            other.lemma_first_free_exists(cands, m);
        } else {
            assert(forall|j: int| 0 <= j < k ==> other.has_code(#[trigger] cands[j]));
        }
    }

    /// Where some candidate is free, a first free one exists.
    proof fn lemma_first_free_exists(&self, cands: Seq<Seq<char>>, k: int)
        requires
            0 <= k < cands.len(),
            !self.has_code(cands[k]),
        ensures
            exists|m: int| 0 <= m <= k && !self.has_code(#[trigger] cands[m])
                && forall|j: int| 0 <= j < m ==> self.has_code(#[trigger] cands[j]),
        decreases k,
    {
        if exists|m: int| 0 <= m < k && !self.has_code(#[trigger] cands[m]) {
            let m = choose|m: int| 0 <= m < k && !self.has_code(#[trigger] cands[m]);
            self.lemma_first_free_exists(cands, m);
        } else {
            assert(forall|j: int| 0 <= j < k ==> self.has_code(#[trigger] cands[j]));
        }
    }

    /// Putting a session back where it was, under the same code, keeps the
    /// registry well formed and the session under the same index.
    proof fn lemma_update_keeps_wf(before: &Application, after: &Application, i: int)
        requires
            before.wf(),
            0 <= i < before.entries().len(),
            after.entries() == before.entries().update(i, after.entries()[i]),
            after.entries()[i].wf(),
            after.entries()[i].spec_code() == before.entries()[i].spec_code(),
            after.spec_reap_when_empty() == before.spec_reap_when_empty(),
            forall|h: u64| #[trigger] after.entries()[i].members().contains(h)
                ==> before.entries()[i].members().contains(h) || !before.member_elsewhere(i, h),
        ensures
            after.wf(),
            after.same_except(before, i),
            before.index_of(before.entries()[i].spec_code()) == i,
            after.index_of(before.entries()[i].spec_code()) == i,
    {
        let c = before.entries()[i].spec_code();
        assert forall|j: int| 0 <= j < after.entries().len() implies #[trigger] after.entries()[j].spec_code()
            == before.entries()[j].spec_code() by {
            if j != i {
                assert(after.entries()[j] == before.entries()[j]);
            }
        }
        assert(after.entries()[i].spec_code() == c);
        assert(before.entries()[i].spec_code() == c);
        assert forall|j: int, k: int, h: u64|
            0 <= j < after.entries().len() && 0 <= k < after.entries().len() && j != k
                && #[trigger] after.entries()[j].members().contains(h)
                implies !(#[trigger] after.entries()[k].members().contains(h)) by {
            if j == i {
                if !before.entries()[i].members().contains(h) {
                    assert(!before.member_elsewhere(i, h));
                    assert(after.entries()[k] == before.entries()[k]);
                } else {
                    assert(after.entries()[k] == before.entries()[k]);
                }
            } else if k == i {
                assert(after.entries()[j] == before.entries()[j]);
                if after.entries()[i].members().contains(h) && !before.entries()[i].members().contains(h) {
                    assert(before.entries()[j].members().contains(h));
                    assert(before.member_elsewhere(i, h));
                }
            } else {
                assert(after.entries()[j] == before.entries()[j]);
                assert(after.entries()[k] == before.entries()[k]);
            }
        }
        let k = before.index_of(c);
        let m = after.index_of(c);
        assert(after.entries()[m].spec_code() == before.entries()[m].spec_code());
    }

    /// Taking a session out keeps the registry well formed and leaves its
    /// code unused.
    proof fn lemma_remove_keeps_wf(before: &Application, after: &Application, i: int)
        requires
            before.wf(),
            0 <= i < before.entries().len(),
            after.entries() == before.entries().remove(i),
            after.spec_reap_when_empty() == before.spec_reap_when_empty(),
        ensures
            after.wf(),
            before.index_of(before.entries()[i].spec_code()) == i,
            !after.has_code(before.entries()[i].spec_code()),
    {
        let c = before.entries()[i].spec_code();
        assert forall|j: int| 0 <= j < after.entries().len() implies #[trigger] after.entries()[j]
            == before.entries()[if j < i { j } else { j + 1 }] by {}
        assert forall|j: int, k: int|
            0 <= j < after.entries().len() && 0 <= k < after.entries().len() && j != k
                implies #[trigger] after.entries()[j].spec_code() != #[trigger] after.entries()[k].spec_code() by {
            let jj = if j < i { j } else { j + 1 };
            let kk = if k < i { k } else { k + 1 };
            assert(before.entries()[jj].spec_code() != before.entries()[kk].spec_code());
        }
        assert forall|j: int| 0 <= j < after.entries().len() implies #[trigger] after.entries()[j].wf() by {
            let jj = if j < i { j } else { j + 1 };
            assert(before.entries()[jj].wf());
        }
        assert forall|j: int, k: int, h: u64|
            0 <= j < after.entries().len() && 0 <= k < after.entries().len() && j != k
                && #[trigger] after.entries()[j].members().contains(h)
                implies !(#[trigger] after.entries()[k].members().contains(h)) by {
            let jj = if j < i { j } else { j + 1 };
            let kk = if k < i { k } else { k + 1 };
            assert(before.entries()[jj].members().contains(h));
        }
        if after.has_code(c) {
            let j = choose|j: int| 0 <= j < after.entries().len() && #[trigger] after.entries()[j].spec_code() == c;
            let jj = if j < i { j } else { j + 1 };
            assert(before.entries()[jj].spec_code() == c);
        }
        let k = before.index_of(c);
        assert(before.entries()[k].spec_code() == c);
    }
}

} // verus!
