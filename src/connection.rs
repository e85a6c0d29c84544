use crate::code::SessionCode;
use crate::playback::{apply_command, is_broadcast, Command};
use crate::registry::{Application, RegistryError};
use crate::session::{Broadcast, Snapshot};
use vstd::prelude::*;

verus! {

/// Where a connection stands in its life.
#[derive(Clone, Copy, Debug, PartialEq, Eq, Structural)]
pub enum Phase {
    /// Upgraded, waiting for a join request.
    Connecting,
    /// Bound to one session.
    Joined,
    /// Gone; nothing more happens on it.
    Closed,
}

/// What arrives on a connection.
#[derive(Debug)]
pub enum ClientEvent {
    /// A request to join the session with this code.
    Join(SessionCode),
    /// A control command.
    Message(Command),
    /// A payload that is not a command.
    Malformed,
    /// The socket closed or failed.
    Disconnected,
}

/// What the connection does in answer.
#[derive(Debug)]
pub enum Reply {
    /// Send this snapshot to the joining client.
    Welcome(Snapshot),
    /// Send this state to the listed connections.
    Relay(Broadcast),
    /// Close the socket with this reason.
    Close(RegistryError),
    /// Keep the socket open; the payload is dropped for this reason.
    Ignore(RegistryError),
    /// Nothing to send.
    Quiet,
}

/// One client's socket, bridged to at most one session.
#[derive(Debug)]
pub struct Connection {
    id: u64,
    session: Option<SessionCode>,
    closed: bool,
}

impl Connection {
    pub closed spec fn spec_id(&self) -> u64 {
        self.id
    }

    /// The code of the session this connection is bound to.
    pub closed spec fn spec_session(&self) -> Option<Seq<char>> {
        match self.session {
            Some(c) => Some(c@),
            None => None,
        }
    }

    pub closed spec fn spec_phase(&self) -> Phase {
        if self.closed {
            Phase::Closed
        } else if self.session is Some {
            Phase::Joined
        } else {
            Phase::Connecting
        }
    }

    /// Only a joined connection is bound to a session, and its code is valid.
    pub closed spec fn wf(&self) -> bool {
        &&& (self.spec_phase() == Phase::Joined) == (self.session is Some)
        &&& (self.session matches Some(c) ==> c.wf())
    }

    /// A fresh connection with identifier `id`, waiting to join.
    pub fn new(id: u64) -> (r: Connection)
        ensures
            r.wf(),
            r.spec_id() == id,
            r.spec_phase() == Phase::Connecting,
            r.spec_session() is None,
    {
        Connection { id, session: None, closed: false }
    }

    pub fn id(&self) -> (r: u64)
        ensures
            r == self.spec_id(),
    {
        self.id
    }

    pub fn phase(&self) -> (r: Phase)
        ensures
            r == self.spec_phase(),
    {
        if self.closed {
            Phase::Closed
        } else if self.session.is_some() {
            Phase::Joined
        } else {
            Phase::Connecting
        }
    }

    /// Handles one event at server time `now` against the registry `app`.
    ///
    /// A join binds the connection and answers with a snapshot, or closes it
    /// with `NotFound`; a command of a joined connection is applied to its
    /// session; malformed payloads are ignored; a disconnect leaves the
    /// session once and closes the connection for good.
    pub fn handle(&mut self, app: &mut Application, event: ClientEvent, now: u64) -> (r: Reply)
        requires
            old(self).wf(),
            old(app).wf(),
        ensures
            final(self).wf(),
            final(app).wf(),
            final(self).spec_id() == old(self).spec_id(),
            old(self).spec_phase() == Phase::Closed ==> {
                &&& r is Quiet
                &&& final(self).spec_phase() == Phase::Closed
                &&& final(app).entries() == old(app).entries()
            },
            event is Malformed && old(self).spec_phase() != Phase::Closed ==> {
                &&& r == Reply::Ignore(RegistryError::InvalidMessage)
                &&& final(self).spec_phase() == old(self).spec_phase()
                &&& final(self).spec_session() == old(self).spec_session()
                &&& final(app).entries() == old(app).entries()
            },
            event is Disconnected ==> {
                &&& r is Quiet
                &&& final(self).spec_phase() == Phase::Closed
                &&& final(self).spec_session() is None
                &&& (old(self).spec_phase() != Phase::Joined ==> final(app).entries() == old(app).entries())
            },
            event is Disconnected && old(self).spec_phase() == Phase::Joined ==> {
                let c = old(self).spec_session()->0;
                &&& old(app).has_code(c) ==> old(app).left(final(app), c, old(self).spec_id())
                &&& old(app).has_code(c) && old(app).session_of(c).members().contains(old(self).spec_id())
                    ==> final(app).in_no_session(old(self).spec_id())
                &&& !old(app).has_code(c) ==> final(app).entries() == old(app).entries()
            },
            old(self).spec_phase() == Phase::Connecting ==> (event matches ClientEvent::Join(code) ==> {
                let refused_elsewhere = old(app).member_elsewhere(old(app).index_of(code@), old(self).spec_id());
                &&& (old(app).has_code(code@) && !refused_elsewhere ==> {
                    let s = final(app).session_of(code@);
                    &&& old(app).joined(final(app), code@, old(self).spec_id())
                    &&& final(self).spec_phase() == Phase::Joined
                    &&& final(self).spec_session() == Some(code@)
                    &&& (r matches Reply::Welcome(w) && w.state == s.spec_state() && w.episode@ == s.spec_episode())
                })
                &&& (!old(app).has_code(code@) ==> r == Reply::Close(RegistryError::NotFound))
                &&& (old(app).has_code(code@) && refused_elsewhere ==> r == Reply::Close(RegistryError::InvalidMessage))
                &&& (!old(app).has_code(code@) || refused_elsewhere ==> {
                    &&& final(self).spec_phase() == Phase::Closed
                    &&& final(app).entries() == old(app).entries()
                })
            }),
            event matches ClientEvent::Join(_) && old(self).spec_phase() == Phase::Joined ==> {
                &&& r == Reply::Ignore(RegistryError::InvalidMessage)
                &&& final(self).spec_session() == old(self).spec_session()
                &&& final(self).spec_phase() == Phase::Joined
                &&& final(app).entries() == old(app).entries()
            },
            event matches ClientEvent::Message(_) && old(self).spec_phase() == Phase::Connecting ==> {
                &&& r == Reply::Ignore(RegistryError::InvalidMessage)
                &&& final(self).spec_phase() == Phase::Connecting
                &&& final(app).entries() == old(app).entries()
            },
            old(self).spec_phase() == Phase::Joined ==> (event matches ClientEvent::Message(c) ==> {
                let code = old(self).spec_session()->0;
                &&& (old(app).has_code(code) ==> {
                    let after = final(app).session_of(code);
                    &&& old(app).applied(final(app), code, c, now)
                    &&& final(self).spec_phase() == Phase::Joined
                    &&& final(self).spec_session() == old(self).spec_session()
                    &&& (is_broadcast(c) ==> (r matches Reply::Relay(b) && b.state == after.spec_state()
                        && b.recipients@.to_set() == after.members()))
                    &&& (!is_broadcast(c) ==> r is Quiet)
                })
                &&& (!old(app).has_code(code) ==> {
                    &&& r == Reply::Close(RegistryError::NotFound)
                    &&& final(self).spec_phase() == Phase::Closed
                    &&& final(app).entries() == old(app).entries()
                })
            }),
    {
        if self.closed {
            return Reply::Quiet;
        }
        match event {
            ClientEvent::Malformed => Reply::Ignore(RegistryError::InvalidMessage),
            ClientEvent::Disconnected => {
                let bound = self.session.take();
                if let Some(code) = bound {
                    let _ = app.leave(&code, self.id);
                }
                self.closed = true;
                Reply::Quiet
            },
            ClientEvent::Join(code) => {
                if self.session.is_some() {
                    return Reply::Ignore(RegistryError::InvalidMessage);
                }
                match app.join(&code, self.id) {
                    Ok(snapshot) => {
                        proof {
                            let i = app.index_of(code@);
                            assert(app.entries()[i].wf());
                            app.entries()[i].lemma_code_valid();
                        }
                        self.session = Some(code);
                        Reply::Welcome(snapshot)
                    },
                    Err(e) => {
                        self.closed = true;
                        Reply::Close(e)
                    },
                }
            },
            ClientEvent::Message(c) => {
                match &self.session {
                    None => Reply::Ignore(RegistryError::InvalidMessage),
                    Some(code) => {
                        match app.apply(code, c, now) {
                            Ok(Some(b)) => Reply::Relay(b),
                            Ok(None) => Reply::Quiet,
                            Err(e) => {
                                self.session = None;
                                self.closed = true;
                                Reply::Close(e)
                            },
                        }
                    },
                }
            },
        }
    }
}

} // verus!
