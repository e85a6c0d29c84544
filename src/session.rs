use crate::code::{is_session_code, SessionCode};
use crate::playback::{apply_command, is_broadcast, Command, PlaybackState, PlaybackStatus};
use vstd::prelude::*;

verus! {

/// Whether a session has anyone in it.
#[derive(Clone, Copy, Debug, PartialEq, Eq, Structural)]
pub enum Lifecycle {
    Empty,
    Active,
}

/// A full copy of a session's state, handed to a joining connection.
#[derive(Debug)]
pub struct Snapshot {
    pub episode: String,
    pub state: PlaybackState,
}

/// A state change to be sent to the listed connections.
#[derive(Debug)]
pub struct Broadcast {
    pub state: PlaybackState,
    pub recipients: Vec<u64>,
}

/// One listening party: the episode, its canonical playback state and the
/// connections that have joined it.
#[derive(Debug)]
pub struct Podcast {
    code: SessionCode,
    episode: String,
    state: PlaybackState,
    participants: Vec<u64>,
}

/// Appending a value adds exactly that value to what a sequence contains.
proof fn lemma_push_contains(s: Seq<u64>, x: u64)
    ensures
        forall|y: u64| #[trigger] s.push(x).contains(y) <==> (s.contains(y) || y == x),
{
    let t = s.push(x);
    assert forall|y: u64| #[trigger] t.contains(y) <==> (s.contains(y) || y == x) by {
        if s.contains(y) {
            let k = choose|k: int| 0 <= k < s.len() && s[k] == y;
            assert(t[k] == y);
        }
        if t.contains(y) {
            let k = choose|k: int| 0 <= k < t.len() && t[k] == y;
            if k < s.len() {
                assert(s[k] == y);
            }
        }
        assert(t[s.len() as int] == x);
    }
}

/// Appending a value not yet present keeps a sequence free of duplicates.
proof fn lemma_push_new(s: Seq<u64>, x: u64)
    requires
        s.no_duplicates(),
        !s.contains(x),
    ensures
        s.push(x).no_duplicates(),
        forall|y: u64| #[trigger] s.push(x).contains(y) <==> (s.contains(y) || y == x),
{
    let t = s.push(x);
    lemma_push_contains(s, x);
    assert forall|i: int, j: int| 0 <= i < t.len() && 0 <= j < t.len() && i != j implies t[i] != t[j] by {
        if i < s.len() && j == s.len() {
            assert(s.contains(s[i]));
        } else if j < s.len() && i == s.len() {
            assert(s.contains(s[j]));
        }
    }
}

impl Podcast {
    pub closed spec fn spec_code(&self) -> Seq<char> {
        self.code@
    }

    pub closed spec fn spec_episode(&self) -> Seq<char> {
        self.episode@
    }

    pub closed spec fn spec_state(&self) -> PlaybackState {
        self.state
    }

    /// The connections currently joined.
    pub closed spec fn members(&self) -> Set<u64> {
        self.participants@.to_set()
    }

    pub closed spec fn wf(&self) -> bool {
        &&& self.code.wf()
        &&& self.participants@.no_duplicates()
    }

    pub open spec fn spec_lifecycle(&self) -> Lifecycle {
        if self.members().is_empty() {
            Lifecycle::Empty
        } else {
            Lifecycle::Active
        }
    }

    pub proof fn lemma_code_valid(&self)
        requires
            self.wf(),
        ensures
            is_session_code(self.spec_code()),
    {
    }

    /// A new session for `episode`: paused at the start, nobody joined.
    pub fn new(code: SessionCode, episode: String, now: u64) -> (r: Podcast)
        requires
            code.wf(),
        ensures
            r.wf(),
            r.spec_code() == code@,
            r.spec_episode() == episode@,
            r.spec_state() == (PlaybackState { position: 0, status: PlaybackStatus::Paused, last_update: now }),
            r.members() == Set::<u64>::empty(),
    {
        let r = Podcast { code, episode, state: PlaybackState::initial(now), participants: Vec::new() };
        proof {
            assert(r.participants@.to_set() =~= Set::<u64>::empty());
        }
        r
    }

    pub fn code(&self) -> (r: &SessionCode)
        requires
            self.wf(),
        ensures
            r@ == self.spec_code(),
            r.wf(),
    {
        &self.code
    }

    pub fn state(&self) -> (r: PlaybackState)
        ensures
            r == self.spec_state(),
    {
        self.state
    }

    /// A copy of the episode reference and the canonical state.
    pub fn snapshot(&self) -> (r: Snapshot)
        ensures
            r.episode@ == self.spec_episode(),
            r.state == self.spec_state(),
    {
        Snapshot { episode: self.episode.clone(), state: self.state }
    }

    pub fn is_member(&self, handle: u64) -> (r: bool)
        ensures
            r == self.members().contains(handle),
    {
        let mut i: usize = 0;
        while i < self.participants.len()
            invariant
                i <= self.participants@.len(),
                forall|j: int| 0 <= j < i ==> self.participants@[j] != handle,
            decreases self.participants@.len() - i,
        {
            if self.participants[i] == handle {
                assert(self.participants@.contains(handle));
                return true;
            }
            i = i + 1;
        }
        false
    }

    pub fn member_count(&self) -> (r: usize)
        requires
            self.wf(),
        ensures
            r == self.members().len(),
    {
        proof {
            self.participants@.unique_seq_to_set();
        }
        self.participants.len()
    }

    /// `Empty` when nobody is joined, `Active` otherwise.
    pub fn lifecycle(&self) -> (r: Lifecycle)
        requires
            self.wf(),
        ensures
            r == self.spec_lifecycle(),
    {
        if self.participants.len() == 0 {
            proof {
                assert(self.participants@.to_set() =~= Set::<u64>::empty());
            }
            Lifecycle::Empty
        } else {
            proof {
                assert(self.participants@.to_set().contains(self.participants@[0]));
            }
            Lifecycle::Active
        }
    }

    /// Adds `handle` to the session (joining twice changes nothing) and
    /// returns the snapshot that brings the new participant up to date.
    pub fn join(&mut self, handle: u64) -> (r: Snapshot)
        requires
            old(self).wf(),
        ensures
            final(self).wf(),
            final(self).members() == old(self).members().insert(handle),
            final(self).spec_code() == old(self).spec_code(),
            final(self).spec_episode() == old(self).spec_episode(),
            final(self).spec_state() == old(self).spec_state(),
            final(self).spec_lifecycle() == Lifecycle::Active,
            r.episode@ == final(self).spec_episode(),
            r.state == final(self).spec_state(),
    {
        if !self.is_member(handle) {
            proof {
                lemma_push_new(self.participants@, handle);
            }
            self.participants.push(handle);
            proof {
                assert(self.participants@.to_set() =~= old(self).participants@.to_set().insert(handle));
            }
        } else {
            proof {
                assert(old(self).participants@.to_set().insert(handle) =~= old(self).participants@.to_set());
            }
        }
        proof {
            assert(self.members().contains(handle));
        }
        self.snapshot()
    }

    /// Removes `handle` from the session; returns whether it was joined.
    pub fn leave(&mut self, handle: u64) -> (r: bool)
        requires
            old(self).wf(),
        ensures
            final(self).wf(),
            r == old(self).members().contains(handle),
            final(self).members() == old(self).members().remove(handle),
            final(self).spec_code() == old(self).spec_code(),
            final(self).spec_episode() == old(self).spec_episode(),
            final(self).spec_state() == old(self).spec_state(),
    {
        let mut i: usize = 0;
        while i < self.participants.len()
            invariant
                self.participants@ == old(self).participants@,
                self.wf(),
                self.code@ == old(self).code@,
                self.episode@ == old(self).episode@,
                self.state == old(self).state,
                i <= self.participants@.len(),
                forall|j: int| 0 <= j < i ==> self.participants@[j] != handle,
            decreases self.participants@.len() - i,
        {
            if self.participants[i] == handle {
                let ghost before = self.participants@;
                self.participants.remove(i);
                proof {
                    assert(before.contains(handle));
                    assert forall|x: u64| #[trigger] self.participants@.contains(x) <==> (before.contains(x) && x != handle) by {
                        if before.contains(x) && x != handle {
                            let k = choose|k: int| 0 <= k < before.len() && before[k] == x;
                            if k < i {
                                assert(self.participants@[k] == x);
                            } else {
                                assert(self.participants@[k - 1] == x);
                            }
                        }
                        if self.participants@.contains(x) {
                            let k = choose|k: int| 0 <= k < self.participants@.len() && self.participants@[k] == x;
                            if k < i {
                                assert(before[k] == x);
                            } else {
                                assert(before[k + 1] == x);
                            }
                        }
                    }
                    assert(self.participants@.to_set() =~= before.to_set().remove(handle));
                    assert(self.participants@.no_duplicates());
                }
                return true;
            }
            i = i + 1;
        }
        proof {
            assert(!self.participants@.contains(handle));
            assert(old(self).members().remove(handle) =~= old(self).members());
        }
        false
    }

    /// Applies `c` at server time `now`. Every command but a heartbeat yields
    /// the new state, addressed to every participant: the sender too, since a
    /// pause freezes the position at the server's own clock.
    pub fn apply(&mut self, c: Command, now: u64) -> (r: Option<Broadcast>)
        requires
            old(self).wf(),
        ensures
            final(self).wf(),
            final(self).spec_state() == apply_command(old(self).spec_state(), c, now),
            final(self).members() == old(self).members(),
            final(self).spec_code() == old(self).spec_code(),
            final(self).spec_episode() == old(self).spec_episode(),
            r is Some <==> is_broadcast(c),
            r matches Some(b) ==> {
                &&& b.state == final(self).spec_state()
                &&& b.recipients@.no_duplicates()
                &&& b.recipients@.to_set() == final(self).members()
            },
    {
        self.state = self.state.apply(c, now);
        if let Command::Heartbeat = c {
            return None;
        }
        let recipients = self.member_list();
        Some(Broadcast { state: self.state, recipients })
    }

    /// Every participant, each once.
    pub fn member_list(&self) -> (r: Vec<u64>)
        requires
            self.wf(),
        ensures
            r@.no_duplicates(),
            r@.to_set() == self.members(),
    {
        let mut r: Vec<u64> = Vec::new();
        let mut i: usize = 0;
        while i < self.participants.len()
            invariant
                i <= self.participants@.len(),
                r@ == self.participants@.subrange(0, i as int),
            decreases self.participants@.len() - i,
        {
            r.push(self.participants[i]);
            i = i + 1;
            assert(r@ =~= self.participants@.subrange(0, i as int));
        }
        assert(r@ =~= self.participants@);
        r
    }

}

} // verus!
