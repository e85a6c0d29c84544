//! Co-listening sessions: short session codes, a registry of live sessions,
//! the per-session playback state machine, the per-connection handler and a
//! relay of bounded, coalescing outbound queues.

pub mod code;
pub mod connection;
pub mod playback;
pub mod relay;
pub mod session;
pub mod registry;

pub use code::{random_code, SessionCode, CODE_LENGTH, MAX_ATTEMPTS};
pub use playback::{Command, PlaybackState, PlaybackStatus};
pub use registry::{Application, RegistryError};
pub use relay::{Link, Outbox, Relay};
pub use session::{Broadcast, Lifecycle, Podcast, Snapshot};
pub use connection::{ClientEvent, Connection, Phase, Reply};
