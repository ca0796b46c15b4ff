//! Discovery and control of networked key lights.
//!
//! The heart of the crate is the mDNS discovery subsystem: a decoder that
//! turns one line of the discovery tool's parsable output into a typed
//! announcement, and a registry state machine that applies announcements one
//! at a time to keep a deduplicated list of reachable devices, also behind a
//! verified reader/writer lock for concurrent use.  Around it stand the
//! status types the lights' HTTP interface speaks of, with their
//! range-checked values and stepping rules.
//!
//! Every function here carries a contract saying what it returns for every
//! input, and the contracts are machine-checked.

pub mod avahi;
pub mod avahi_browse;
pub mod cli;
pub mod escape;
pub mod ip;
pub mod keylight;
pub mod numbers;
pub mod text;
pub mod unsigned_int;
pub mod util;

pub use avahi_browse::parse_escaped_ascii;
pub use avahi_browse::try_unwrap_arg;
pub use avahi_browse::IpType;
pub use avahi_browse::MdnsPacket;
pub use avahi_browse::MdnsPacketBase;
pub use avahi_browse::PacketMode;
pub use avahi_browse::PacketParseError;
pub use avahi_browse::Service;
pub use cli::Delta;
pub use cli::SetArgs;
pub use keylight::DeviceStatus;
pub use keylight::KeyLightStatus;
pub use keylight::PowerStatus;
pub use unsigned_int::Brightness;
pub use unsigned_int::Temperature;
pub use unsigned_int::UnsignedInt;
pub use util::FindExecError;
