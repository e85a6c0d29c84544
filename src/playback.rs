use crate::registry::RegistryError;
use vstd::prelude::*;

verus! {

/// Whether a session's position advances with time.
#[derive(Clone, Copy, Debug, PartialEq, Eq, Structural)]
pub enum PlaybackStatus {
    Playing,
    Paused,
}

/// The canonical playback state of a session. Positions and timestamps are
/// in milliseconds; `last_update` is the server time of the last change.
#[derive(Clone, Copy, Debug, PartialEq, Eq, Structural)]
pub struct PlaybackState {
    pub position: u64,
    pub status: PlaybackStatus,
    pub last_update: u64,
}

/// A control message sent by a client.
#[derive(Clone, Copy, Debug, PartialEq, Eq, Structural)]
pub enum Command {
    Play,
    Pause,
    Seek(u64),
    Heartbeat,
}

/// `a + b`, held at `u64::MAX`.
pub open spec fn saturating_sum(a: u64, b: u64) -> u64 {
    if a + b > u64::MAX {
        u64::MAX
    } else {
        (a + b) as u64
    }
}

/// Where playback stands at time `now`: a playing session moves forward
/// from its last update, a paused one stays where it was.
pub open spec fn position_at(s: PlaybackState, now: u64) -> u64 {
    if s.status == PlaybackStatus::Playing && now > s.last_update {
        saturating_sum(s.position, (now - s.last_update) as u64)
    } else {
        s.position
    }
}

/// The state after `c` arrives at server time `now`.
pub open spec fn apply_command(s: PlaybackState, c: Command, now: u64) -> PlaybackState {
    match c {
        Command::Play => PlaybackState { status: PlaybackStatus::Playing, last_update: now, ..s },
        Command::Pause => PlaybackState {
            position: position_at(s, now),
            status: PlaybackStatus::Paused,
            last_update: now,
        },
        Command::Seek(p) => PlaybackState { position: p, last_update: now, ..s },
        Command::Heartbeat => s,
    }
}

/// Whether applying `c` is followed by a broadcast to the other participants.
pub open spec fn is_broadcast(c: Command) -> bool {
    !(c is Heartbeat)
}

/// The state after a run of commands, applied in order of arrival; the
/// i-th command arrives at `times[i]`.
pub open spec fn apply_all(s: PlaybackState, cmds: Seq<Command>, times: Seq<u64>) -> PlaybackState
    decreases cmds.len(),
{
    if cmds.len() == 0 || times.len() < cmds.len() {
        s
    } else {
        let n = (cmds.len() - 1) as int;
        apply_command(apply_all(s, cmds.take(n), times), cmds[n], times[n])
    }
}

/// The states broadcast while a run of commands is applied, in order.
pub open spec fn broadcasts(s: PlaybackState, cmds: Seq<Command>, times: Seq<u64>) -> Seq<PlaybackState>
    decreases cmds.len(),
{
    if cmds.len() == 0 || times.len() < cmds.len() {
        Seq::empty()
    } else {
        let n = (cmds.len() - 1) as int;
        let before = broadcasts(s, cmds.take(n), times);
        if is_broadcast(cmds[n]) {
            before.push(apply_all(s, cmds, times))
        } else {
            before
        }
    }
}

/// The command a client message names by its `type` word (ASCII bytes) and
/// optional position; `None` for an unknown word or a seek without position.
pub open spec fn command_named(kind: Seq<u8>, position: Option<u64>) -> Option<Command> {
    if kind == seq![112u8, 108, 97, 121] {
        Some(Command::Play)
    } else if kind == seq![112u8, 97, 117, 115, 101] {
        Some(Command::Pause)
    } else if kind == seq![115u8, 101, 101, 107] {
        match position {
            Some(p) => Some(Command::Seek(p)),
            None => None,
        }
    } else if kind == seq![104u8, 101, 97, 114, 116, 98, 101, 97, 116] {
        Some(Command::Heartbeat)
    } else {
        None
    }
}

/// Whether two byte strings are equal.
fn same_bytes(a: &[u8], b: &Vec<u8>) -> (r: bool)
    ensures
        r == (a@ == b@),
{
    if a.len() != b.len() {
        return false;
    }
    let mut i: usize = 0;
    while i < a.len()
        invariant
            a@.len() == b@.len(),
            i <= a@.len(),
            forall|j: int| 0 <= j < i ==> a@[j] == b@[j],
        decreases a@.len() - i,
    {
        if a[i] != b[i] {
            return false;
        }
        i = i + 1;
    }
    assert(a@ =~= b@);
    true
}

impl Command {
    /// Reads a client message's `type` word (`play`, `pause`, `seek`,
    /// `heartbeat`) and position; anything else is `InvalidMessage`.
    pub fn decode(kind: &[u8], position: Option<u64>) -> (r: Result<Command, RegistryError>)
        ensures
            r is Ok <==> command_named(kind@, position) is Some,
            r matches Ok(c) ==> command_named(kind@, position) == Some(c),
            r matches Err(e) ==> e == RegistryError::InvalidMessage,
    {
        let play: Vec<u8> = vec![112u8, 108, 97, 121];
        let pause: Vec<u8> = vec![112u8, 97, 117, 115, 101];
        let seek: Vec<u8> = vec![115u8, 101, 101, 107];
        let heartbeat: Vec<u8> = vec![104u8, 101, 97, 114, 116, 98, 101, 97, 116];
        proof {
            assert(play@ =~= seq![112u8, 108, 97, 121]);
            assert(pause@ =~= seq![112u8, 97, 117, 115, 101]);
            assert(seek@ =~= seq![115u8, 101, 101, 107]);
            assert(heartbeat@ =~= seq![104u8, 101, 97, 114, 116, 98, 101, 97, 116]);
        }
        if same_bytes(kind, &play) {
            Ok(Command::Play)
        } else if same_bytes(kind, &pause) {
            Ok(Command::Pause)
        } else if same_bytes(kind, &seek) {
            match position {
                Some(p) => Ok(Command::Seek(p)),
                None => Err(RegistryError::InvalidMessage),
            }
        } else if same_bytes(kind, &heartbeat) {
            Ok(Command::Heartbeat)
        } else {
            Err(RegistryError::InvalidMessage)
        }
    }
}

impl PlaybackState {
    /// The state of a fresh session: paused at the start.
    pub fn initial(now: u64) -> (r: PlaybackState)
        ensures
            r.position == 0,
            r.status == PlaybackStatus::Paused,
            r.last_update == now,
    {
        PlaybackState { position: 0, status: PlaybackStatus::Paused, last_update: now }
    }

    /// The interpolated position at server time `now`.
    pub fn position_at(&self, now: u64) -> (r: u64)
        ensures
            r == position_at(*self, now),
    {
        if self.status == PlaybackStatus::Playing && now > self.last_update {
            self.position.saturating_add(now - self.last_update)
        } else {
            self.position
        }
    }

    /// The state after `c` arrives at server time `now`.
    pub fn apply(&self, c: Command, now: u64) -> (r: PlaybackState)
        ensures
            r == apply_command(*self, c, now),
    {
        match c {
            Command::Play => PlaybackState {
                position: self.position,
                status: PlaybackStatus::Playing,
                last_update: now,
            },
            Command::Pause => PlaybackState {
                position: self.position_at(now),
                status: PlaybackStatus::Paused,
                last_update: now,
            },
            Command::Seek(p) => PlaybackState {
                position: p,
                status: self.status,
                last_update: now,
            },
            Command::Heartbeat => *self,
        }
    }
}

/// A paused state does not move: its position is the same at every time.
pub proof fn lemma_paused_is_frozen(s: PlaybackState, t1: u64, t2: u64)
    requires
        s.status == PlaybackStatus::Paused,
    ensures
        position_at(s, t1) == position_at(s, t2),
        position_at(s, t1) == s.position,
{
}

/// The last state broadcast during a run of commands is the state the run
/// ends in; when nothing was broadcast, the state has not changed.
pub proof fn lemma_last_broadcast_is_final(s: PlaybackState, cmds: Seq<Command>, times: Seq<u64>)
    requires
        times.len() >= cmds.len(),
    ensures
        broadcasts(s, cmds, times).len() > 0 ==> broadcasts(s, cmds, times).last() == apply_all(s, cmds, times),
        broadcasts(s, cmds, times).len() == 0 ==> apply_all(s, cmds, times) == s,
    decreases cmds.len(),
{
    if cmds.len() > 0 {
        let n = (cmds.len() - 1) as int;
        lemma_last_broadcast_is_final(s, cmds.take(n), times);
    }
}

} // verus!
