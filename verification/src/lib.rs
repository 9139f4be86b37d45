//! Client side of a service discovery and lease-maintenance protocol.
//!
//! A client announces itself to a discovery server, receives a
//! time-bounded lease, and keeps it alive with periodic renewal pings;
//! it can also query the server's current peer set for a protocol
//! namespace. This crate holds everything the client decides: the wire
//! codec for the exchanged messages (`codec`, with a proved round-trip
//! law), and the session lifecycle as a state machine with laws over
//! every possible run (`session`). An unverified driver supplies the
//! transport: it carries each request and hands the raw reply back.

pub mod codec;
pub mod messages;
pub mod session;

pub use codec::decode_ping_response;
pub use codec::decode_register_response;
pub use codec::decode_service_list;
pub use codec::encode_address;
pub use codec::encode_service_list;
pub use session::HeartbeatAction;
pub use session::HeartbeatEvent;
pub use session::HeartbeatState;
pub use session::PingOutcome;
pub use session::RegisterError;
pub use session::RequestFault;
pub use session::TransportError;
pub use session::discover_path;
pub use session::heartbeat_start;
pub use session::heartbeat_step;
pub use session::ping_outcome_of_reply;
pub use session::ping_path;
pub use session::registration_decision;
pub use session::registration_step;

pub use messages::Address;
pub use messages::PingResponse;
pub use messages::RegisterResponse;
pub use messages::ServiceIdentity;
pub use messages::ServiceList;
pub use messages::ServiceListModel;
pub use messages::Session;

use vstd::prelude::*;

verus! {

/// Seconds the heartbeat loop waits between two renewal pings of one session.
pub const HEARTBEAT_INTERVAL_SECS: u64 = 50;

/// The fixed renewal cadence, exposed so that a driver can honor it.
pub fn heartbeat_interval_secs() -> (r: u64)
    ensures
        r == HEARTBEAT_INTERVAL_SECS,
{
    HEARTBEAT_INTERVAL_SECS
}

} // verus!
