use vstd::prelude::*;

verus! {

/// Snapshot of the peers a discovery server knows for one protocol
/// namespace, split into the trusted and the untrusted set.
#[derive(Clone, Debug, PartialEq, Eq)]
pub struct ServiceList {
    pub trusted: Vec<String>,
    pub untrusted: Vec<String>,
}

/// Mathematical value of a `ServiceList`: the two address sequences.
pub struct ServiceListModel {
    pub trusted: Seq<Seq<char>>,
    pub untrusted: Seq<Seq<char>>,
}

impl View for ServiceList {
    type V = ServiceListModel;

    open spec fn view(&self) -> ServiceListModel {
        ServiceListModel { trusted: self.trusted.deep_view(), untrusted: self.untrusted.deep_view() }
    }
}

/// Reachable address a client announces when it registers.
#[derive(Clone, Debug, PartialEq, Eq)]
pub struct Address {
    pub address: String,
}

impl View for Address {
    type V = Seq<char>;

    open spec fn view(&self) -> Seq<char> {
        self.address@
    }
}

/// Server answer to one renewal ping: whether the lease still stands.
#[derive(Clone, Copy, Debug, PartialEq, Eq)]
pub struct PingResponse {
    pub ack: bool,
}

/// A granted lease, identified by its opaque token.
#[derive(Clone, Debug, PartialEq, Eq)]
pub struct Session {
    pub token: String,
}

impl View for Session {
    type V = Seq<char>;

    open spec fn view(&self) -> Seq<char> {
        self.token@
    }
}

/// Server answer to a registration attempt: a lease, or a refusal
/// (absence of a session is a protocol decision, not a transport fault).
#[derive(Clone, Debug, PartialEq, Eq)]
pub struct RegisterResponse {
    pub session: Option<Session>,
}

impl View for RegisterResponse {
    type V = Option<Seq<char>>;

    open spec fn view(&self) -> Option<Seq<char>> {
        match self.session {
            Some(ref s) => Some(s.token@),
            None => None,
        }
    }
}

/// Self-description sent at registration time: the discovery namespace
/// and the address under which the client can be reached.
#[derive(Clone, Debug, PartialEq, Eq)]
pub struct ServiceIdentity {
    pub protocol: String,
    pub address: String,
}

} // verus!
