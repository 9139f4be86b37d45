use vstd::prelude::*;
use crate::codec::decode_ping_response;
use crate::codec::decode_register_response;
use crate::codec::parse_ping;
use crate::codec::parse_register;
use crate::messages::PingResponse;
use crate::messages::RegisterResponse;
use crate::messages::Session;
use crate::HEARTBEAT_INTERVAL_SECS;

verus! {

// ---------------------------------------------------------------------
// Error taxonomy.
// ---------------------------------------------------------------------

/// A request that could not be sent, or whose response never arrived.
/// The detail text is supplied by whatever transport carried the call.
#[derive(Clone, Debug, PartialEq, Eq)]
pub struct TransportError {
    pub detail: String,
}

/// Why a request failed: the transport broke, or a response arrived but
/// could not be decoded into the expected message shape.
#[derive(Clone, Debug, PartialEq, Eq)]
pub enum RequestFault {
    Transport(TransportError),
    Codec,
}

/// Terminal outcome of a registration: the server refused a lease, the
/// lease was later revoked, or a request failed on the way.
#[derive(Clone, Debug, PartialEq, Eq)]
pub enum RegisterError {
    RegisterRefused,
    RegisterExpired,
    RequestError(RequestFault),
}

/// Human-readable text for a request fault.
pub open spec fn fault_text(f: RequestFault) -> Seq<char> {
    match f {
        RequestFault::Transport(t) => t.detail@,
        RequestFault::Codec => "response could not be decoded"@,
    }
}

/// Human-readable text for a registration outcome.
pub open spec fn register_error_text(e: RegisterError) -> Seq<char> {
    match e {
        RegisterError::RegisterRefused => "register refused"@,
        RegisterError::RegisterExpired => "register revoked by server"@,
        RegisterError::RequestError(f) => "request failed: "@ + fault_text(f),
    }
}

impl RegisterError {
    /// The message a caller may show for this outcome.
    pub fn message(&self) -> (r: String)
        ensures
            r@ == register_error_text(*self),
    {
        match self {
            RegisterError::RegisterRefused => String::from_str("register refused"),
            RegisterError::RegisterExpired => String::from_str("register revoked by server"),
            RegisterError::RequestError(f) => {
                let mut out = String::from_str("request failed: ");
                match f {
                    RequestFault::Transport(t) => out.append(t.detail.as_str()),
                    RequestFault::Codec => out.append("response could not be decoded"),
                }
                out
            },
        }
    }
}

// ---------------------------------------------------------------------
// The heartbeat state machine. A driver owns the session, performs each
// action the machine hands out (wait, send one ping, stop with the given
// outcome), and feeds the observed event back in. The machine itself
// never touches the network, so every decision it takes is verified.
// The protocol defines no cancellation; a driver that must stop early
// abandons the loop between two steps, which leaves no ping in flight.
// ---------------------------------------------------------------------

/// Lifecycle of a granted lease. `Active` holds between renewals,
/// `Renewing` while one ping is in flight; `Expired` and `Failed` are
/// terminal.
#[derive(Clone, Copy, Debug, PartialEq, Eq)]
pub enum HeartbeatState {
    Active,
    Renewing,
    Expired,
    Failed,
}

/// What one renewal ping came back with: the parsed acknowledgement, or
/// the fault that kept the reply from arriving or parsing.
pub type PingOutcome = Result<PingResponse, RequestFault>;

/// What the driver observed: the renewal interval passed, or the ping in
/// flight completed.
#[derive(Debug, PartialEq, Eq)]
pub enum HeartbeatEvent {
    IntervalElapsed,
    PingCompleted(PingOutcome),
}

/// What the machine asks the driver to do next: block for the given
/// number of seconds, send one renewal ping, or stop with this outcome.
#[derive(Clone, Debug, PartialEq, Eq)]
pub enum HeartbeatAction {
    Wait(u64),
    SendPing,
    Finish(RegisterError),
}

/// The events each state can observe: `Active` only the end of its wait,
/// `Renewing` only the completion of the ping in flight. Terminal states
/// observe nothing.
pub open spec fn step_defined(state: HeartbeatState, event: HeartbeatEvent) -> bool {
    ||| (state is Active && event is IntervalElapsed)
    ||| (state is Renewing && event is PingCompleted)
}

/// The transition rule. A full interval is waited on entering `Active`,
/// so the first ping is never sent earlier than one interval after
/// registration; a positive acknowledgement returns to `Active`, a
/// negative one expires the lease, and a request fault ends the loop
/// with the underlying cause.
pub open spec fn step_model(state: HeartbeatState, event: HeartbeatEvent) -> (
    HeartbeatState,
    HeartbeatAction,
) {
    match (state, event) {
        (HeartbeatState::Active, HeartbeatEvent::IntervalElapsed) => (
            HeartbeatState::Renewing,
            HeartbeatAction::SendPing,
        ),
        (HeartbeatState::Renewing, HeartbeatEvent::PingCompleted(out)) => match out {
            Ok(p) => if p.ack {
                (HeartbeatState::Active, HeartbeatAction::Wait(HEARTBEAT_INTERVAL_SECS))
            } else {
                (HeartbeatState::Expired, HeartbeatAction::Finish(RegisterError::RegisterExpired))
            },
            Err(f) => (
                HeartbeatState::Failed,
                HeartbeatAction::Finish(RegisterError::RequestError(f)),
            ),
        },
        _ => arbitrary(),
    }
}

/// Where the loop begins once a session is granted: `Active`, with one
/// full interval to wait before the first ping.
pub fn heartbeat_start() -> (r: (HeartbeatState, HeartbeatAction))
    ensures
        r.0 == HeartbeatState::Active,
        r.1 == HeartbeatAction::Wait(HEARTBEAT_INTERVAL_SECS),
{
    (HeartbeatState::Active, HeartbeatAction::Wait(HEARTBEAT_INTERVAL_SECS))
}

/// One transition of the heartbeat machine.
pub fn heartbeat_step(state: HeartbeatState, event: HeartbeatEvent) -> (r: (
    HeartbeatState,
    HeartbeatAction,
))
    requires
        step_defined(state, event),
    ensures
        r == step_model(state, event),
{
    match (state, event) {
        (HeartbeatState::Active, HeartbeatEvent::IntervalElapsed) => (
            HeartbeatState::Renewing,
            HeartbeatAction::SendPing,
        ),
        (HeartbeatState::Renewing, HeartbeatEvent::PingCompleted(out)) => match out {
            Ok(p) => if p.ack {
                (HeartbeatState::Active, HeartbeatAction::Wait(HEARTBEAT_INTERVAL_SECS))
            } else {
                (HeartbeatState::Expired, HeartbeatAction::Finish(RegisterError::RegisterExpired))
            },
            Err(f) => (
                HeartbeatState::Failed,
                HeartbeatAction::Finish(RegisterError::RequestError(f)),
            ),
        },
        // Unreachable: `step_defined` admits no other pairing.
        (s, _) => (s, HeartbeatAction::SendPing),
    }
}

// ---------------------------------------------------------------------
// The run model: what the loop does as a function of the outcomes its
// pings come back with. Each iteration waits one interval, sends one
// ping, and either continues or stops; the laws below are proved of
// every outcome sequence.
// ---------------------------------------------------------------------

/// One iteration, as the machine decides it.
pub open spec fn ping_step(o: PingOutcome) -> (HeartbeatState, HeartbeatAction) {
    step_model(HeartbeatState::Renewing, HeartbeatEvent::PingCompleted(o))
}

/// Terminal outcome after observing `outs`, or `None` while the loop is
/// still running.
pub open spec fn run_result(outs: Seq<PingOutcome>) -> Option<RegisterError>
    decreases outs.len(),
{
    if outs.len() == 0 {
        None
    } else {
        match ping_step(outs[0]).1 {
            HeartbeatAction::Finish(e) => Some(e),
            _ => run_result(outs.skip(1)),
        }
    }
}

/// How many pings the loop issues while observing `outs`.
pub open spec fn ping_count(outs: Seq<PingOutcome>) -> nat
    decreases outs.len(),
{
    if outs.len() == 0 {
        0
    } else {
        match ping_step(outs[0]).1 {
            HeartbeatAction::Finish(_) => 1,
            _ => 1 + ping_count(outs.skip(1)),
        }
    }
}

/// The actions the machine hands its driver while observing `outs`, in
/// order.
pub open spec fn run_actions(outs: Seq<PingOutcome>) -> Seq<HeartbeatAction>
    decreases outs.len(),
{
    if outs.len() == 0 {
        seq![HeartbeatAction::Wait(HEARTBEAT_INTERVAL_SECS)]
    } else {
        let first = step_model(HeartbeatState::Active, HeartbeatEvent::IntervalElapsed);
        let second = step_model(first.0, HeartbeatEvent::PingCompleted(outs[0]));
        seq![HeartbeatAction::Wait(HEARTBEAT_INTERVAL_SECS), first.1] + (match second.1 {
            HeartbeatAction::Finish(_) => seq![second.1],
            _ => run_actions(outs.skip(1)),
        })
    }
}

/// The action trace of a loop whose pings are all acknowledged: a wait
/// of one full interval before each of `n` pings, then the wait for the
/// next.
pub open spec fn steady_actions(n: nat) -> Seq<HeartbeatAction>
    decreases n,
{
    if n == 0 {
        seq![HeartbeatAction::Wait(HEARTBEAT_INTERVAL_SECS)]
    } else {
        seq![HeartbeatAction::Wait(HEARTBEAT_INTERVAL_SECS), HeartbeatAction::SendPing]
            + steady_actions((n - 1) as nat)
    }
}

/// A ping outcome that keeps the lease alive.
pub open spec fn acked(o: PingOutcome) -> bool {
    o matches Ok(p) && p.ack
}

/// While the first `n` pings are acknowledged the loop issues exactly
/// `n` pings, each after one full interval, reaches no terminal state,
/// and keeps waiting.
pub proof fn lemma_acked_run(outs: Seq<PingOutcome>)
    requires
        forall|k: int| 0 <= k < outs.len() ==> acked(#[trigger] outs[k]),
    ensures
        run_result(outs) is None,
        ping_count(outs) == outs.len(),
        run_actions(outs) == steady_actions(outs.len()),
    decreases outs.len(),
{
    if outs.len() > 0 {
        assert(acked(outs[0]));
        lemma_acked_run(outs.skip(1));
        assert(run_actions(outs) =~= steady_actions(outs.len()));
    }
}

/// Renewals never overlap and are never early: wherever a ping is
/// issued, the action just before it is the full-interval wait.
pub proof fn lemma_ping_only_after_wait(outs: Seq<PingOutcome>, i: int)
    requires
        0 <= i < run_actions(outs).len(),
        run_actions(outs)[i] is SendPing,
    ensures
        i >= 1,
        run_actions(outs)[i - 1] == HeartbeatAction::Wait(HEARTBEAT_INTERVAL_SECS),
    decreases outs.len(),
{
    if outs.len() > 0 {
        let first = step_model(HeartbeatState::Active, HeartbeatEvent::IntervalElapsed);
        let second = step_model(first.0, HeartbeatEvent::PingCompleted(outs[0]));
        if i >= 2 {
            match second.1 {
                HeartbeatAction::Finish(_) => {},
                _ => {
                    assert(run_actions(outs)[i] == run_actions(outs.skip(1))[i - 2]);
                    lemma_ping_only_after_wait(outs.skip(1), i - 2);
                    assert(run_actions(outs)[i - 1] == run_actions(outs.skip(1))[i - 3]);
                },
            }
        }
    }
}

/// The loop reaches no terminal state exactly as long as every ping is
/// acknowledged.
pub proof fn lemma_runs_on_iff_all_acked(outs: Seq<PingOutcome>)
    ensures
        run_result(outs) is None <==> forall|k: int| 0 <= k < outs.len() ==> acked(
            #[trigger] outs[k],
        ),
    decreases outs.len(),
{
    if outs.len() > 0 {
        lemma_runs_on_iff_all_acked(outs.skip(1));
        if run_result(outs) is None {
            assert forall|k: int| 0 <= k < outs.len() implies acked(#[trigger] outs[k]) by {
                if k == 0 {
                    assert(acked(outs[0]));
                } else {
                    assert(outs[k] == outs.skip(1)[k - 1]);
                    assert(acked(outs.skip(1)[k - 1]));
                }
            }
        } else {
            if forall|k: int| 0 <= k < outs.len() ==> acked(#[trigger] outs[k]) {
                assert(acked(outs[0]));
                assert forall|k: int| 0 <= k < outs.skip(1).len() implies acked(
                    #[trigger] outs.skip(1)[k],
                ) by {
                    assert(outs.skip(1)[k] == outs[k + 1]);
                    assert(acked(outs[k + 1]));
                }
                assert(run_result(outs) is None);
            }
        }
    }
}

/// A negative acknowledgement ends the loop with `RegisterExpired`, and
/// no further ping is issued for the session.
pub proof fn lemma_expired_run(outs: Seq<PingOutcome>, j: int)
    requires
        0 <= j < outs.len(),
        forall|k: int| 0 <= k < j ==> acked(#[trigger] outs[k]),
        outs[j] matches Ok(p) && !p.ack,
    ensures
        run_result(outs) == Some(RegisterError::RegisterExpired),
        ping_count(outs) == j + 1,
    decreases j,
{
    if j > 0 {
        assert(acked(outs[0]));
        lemma_expired_run(outs.skip(1), j - 1);
    }
}

/// A ping whose request fails ends the loop at once, carrying the
/// underlying cause; no retry and no further ping happens.
pub proof fn lemma_fault_run(outs: Seq<PingOutcome>, j: int, f: RequestFault)
    requires
        0 <= j < outs.len(),
        forall|k: int| 0 <= k < j ==> acked(#[trigger] outs[k]),
        outs[j] == Err::<PingResponse, RequestFault>(f),
    ensures
        run_result(outs) == Some(RegisterError::RequestError(f)),
        ping_count(outs) == j + 1,
    decreases j,
{
    if j > 0 {
        assert(acked(outs[0]));
        lemma_fault_run(outs.skip(1), j - 1, f);
    }
}

// ---------------------------------------------------------------------
// The whole registration, as a function of the server's answers.
// ---------------------------------------------------------------------

/// Outcome of a registration whose handshake came back as `reg` and
/// whose pings came back as `outs`; `None` while it still runs.
pub open spec fn register_run_result(
    reg: Result<RegisterResponse, RequestFault>,
    outs: Seq<PingOutcome>,
) -> Option<RegisterError> {
    match reg {
        Err(f) => Some(RegisterError::RequestError(f)),
        Ok(resp) => match resp.session {
            None => Some(RegisterError::RegisterRefused),
            Some(_) => run_result(outs),
        },
    }
}

/// How many pings that registration issues.
pub open spec fn register_ping_count(
    reg: Result<RegisterResponse, RequestFault>,
    outs: Seq<PingOutcome>,
) -> nat {
    match reg {
        Err(_) => 0,
        Ok(resp) => match resp.session {
            None => 0,
            Some(_) => ping_count(outs),
        },
    }
}

/// A response without a session refuses the registration outright: the
/// heartbeat loop is never entered and no ping is issued.
pub proof fn lemma_refused_run(reg: Result<RegisterResponse, RequestFault>, outs: Seq<PingOutcome>)
    requires
        reg matches Ok(resp) && resp.session is None,
    ensures
        register_run_result(reg, outs) == Some(RegisterError::RegisterRefused),
        register_ping_count(reg, outs) == 0,
{
}

/// A handshake whose request fails ends the registration with the
/// wrapped cause, before any ping is issued.
pub proof fn lemma_handshake_fault_run(f: RequestFault, outs: Seq<PingOutcome>)
    ensures
        register_run_result(Err(f), outs) == Some(RegisterError::RequestError(f)),
        register_ping_count(Err(f), outs) == 0,
{
}

// ---------------------------------------------------------------------
// Classification of raw replies, shared by the driver.
// ---------------------------------------------------------------------

/// Decides a parsed registration response: a granted session is handed
/// on, absence of one is a refusal.
pub fn registration_decision(resp: RegisterResponse) -> (r: Result<Session, RegisterError>)
    ensures
        resp.session is None ==> r == Err::<Session, RegisterError>(
            RegisterError::RegisterRefused,
        ),
        resp.session matches Some(s) ==> r == Ok::<Session, RegisterError>(s),
{
    match resp.session {
        Some(s) => Ok(s),
        None => Err(RegisterError::RegisterRefused),
    }
}

/// Turns the raw handshake reply into a session or the exact error the
/// protocol prescribes: transport faults and unreadable bodies are
/// wrapped request failures, a missing session is a refusal.
pub fn registration_step(reply: Result<String, TransportError>) -> (r: Result<
    Session,
    RegisterError,
>)
    ensures
        reply matches Err(t) ==> r == Err::<Session, RegisterError>(
            RegisterError::RequestError(RequestFault::Transport(t)),
        ),
        reply matches Ok(body) ==> match parse_register(body@) {
            None => r == Err::<Session, RegisterError>(
                RegisterError::RequestError(RequestFault::Codec),
            ),
            Some(v) => match v {
                None => r == Err::<Session, RegisterError>(RegisterError::RegisterRefused),
                Some(tok) => r matches Ok(s) && s.token@ == tok,
            },
        },
{
    match reply {
        Err(t) => Err(RegisterError::RequestError(RequestFault::Transport(t))),
        Ok(body) => match decode_register_response(body.as_str()) {
            None => Err(RegisterError::RequestError(RequestFault::Codec)),
            Some(resp) => registration_decision(resp),
        },
    }
}

/// Turns the raw reply of one ping into the outcome the machine
/// consumes: the parsed acknowledgement, or the wrapped fault.
pub fn ping_outcome_of_reply(reply: Result<String, TransportError>) -> (r: PingOutcome)
    ensures
        reply matches Err(t) ==> r == Err::<PingResponse, RequestFault>(
            RequestFault::Transport(t),
        ),
        reply matches Ok(body) ==> match parse_ping(body@) {
            None => r == Err::<PingResponse, RequestFault>(RequestFault::Codec),
            Some(b) => r == Ok::<PingResponse, RequestFault>(PingResponse { ack: b }),
        },
{
    match reply {
        Err(t) => Err(RequestFault::Transport(t)),
        Ok(body) => match decode_ping_response(body.as_str()) {
            None => Err(RequestFault::Codec),
            Some(p) => Ok(p),
        },
    }
}

// ---------------------------------------------------------------------
// Request paths.
// ---------------------------------------------------------------------

/// The discovery endpoint for a protocol namespace, used both to query
/// peers and to register.
pub fn discover_path(base: &str, protocol: &str) -> (r: String)
    ensures
        r@ == base@ + "/discover/"@ + protocol@,
{
    let mut out = base.to_owned();
    out.append("/discover/");
    out.append(protocol);
    out
}

/// The renewal endpoint for a session token.
pub fn ping_path(base: &str, token: &str) -> (r: String)
    ensures
        r@ == base@ + "/ping/"@ + token@,
{
    let mut out = base.to_owned();
    out.append("/ping/");
    out.append(token);
    out
}

} // verus!
