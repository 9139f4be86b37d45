use peer_discovery::discover_path;
use peer_discovery::heartbeat_interval_secs;
use peer_discovery::heartbeat_start;
use peer_discovery::heartbeat_step;
use peer_discovery::ping_outcome_of_reply;
use peer_discovery::ping_path;
use peer_discovery::registration_decision;
use peer_discovery::registration_step;
use peer_discovery::HeartbeatAction;
use peer_discovery::HeartbeatEvent;
use peer_discovery::HeartbeatState;
use peer_discovery::RegisterError;
use peer_discovery::RegisterResponse;
use peer_discovery::RequestFault;
use peer_discovery::Session;
use peer_discovery::TransportError;

fn transport(detail: &str) -> TransportError {
    TransportError { detail: detail.to_string() }
}

/// Runs the heartbeat machine against a script of raw ping replies and
/// returns the terminal error with the number of pings and waits seen.
fn drive(replies: Vec<Result<String, TransportError>>) -> (RegisterError, usize, usize) {
    let mut replies = replies.into_iter();
    let (mut state, mut action) = heartbeat_start();
    let mut pings = 0;
    let mut waits = 0;
    loop {
        let event = match action {
            HeartbeatAction::Wait(secs) => {
                assert_eq!(secs, 50);
                waits += 1;
                HeartbeatEvent::IntervalElapsed
            }
            HeartbeatAction::SendPing => {
                pings += 1;
                let reply = replies.next().expect("machine asked for one ping too many");
                HeartbeatEvent::PingCompleted(ping_outcome_of_reply(reply))
            }
            HeartbeatAction::Finish(e) => return (e, pings, waits),
        };
        let (next_state, next_action) = heartbeat_step(state, event);
        state = next_state;
        action = next_action;
    }
}

#[test]
fn register_refused_without_session() {
    let r = registration_step(Ok("{\"session\":null}".to_string()));
    assert_eq!(r, Err(RegisterError::RegisterRefused));
}

#[test]
fn register_handshake_transport_failure_is_wrapped() {
    let r = registration_step(Err(transport("connection refused")));
    let e = r.unwrap_err();
    assert_eq!(
        e,
        RegisterError::RequestError(RequestFault::Transport(transport("connection refused")))
    );
    assert_eq!(e.message(), "request failed: connection refused");
}

#[test]
fn register_handshake_unreadable_body_is_wrapped() {
    let r = registration_step(Ok("not a registration response".to_string()));
    let e = r.unwrap_err();
    assert_eq!(e, RegisterError::RequestError(RequestFault::Codec));
    assert_eq!(e.message(), "request failed: response could not be decoded");
}

#[test]
fn register_handshake_grants_session() {
    let r = registration_step(Ok("{\"session\":{\"token\":\"abc-123\"}}".to_string()));
    assert_eq!(r.unwrap().token, "abc-123");
}

#[test]
fn registration_decision_on_parsed_responses() {
    let granted = RegisterResponse { session: Some(Session { token: "t-1".to_string() }) };
    assert_eq!(registration_decision(granted).unwrap().token, "t-1");
    let refused = RegisterResponse { session: None };
    assert_eq!(registration_decision(refused), Err(RegisterError::RegisterRefused));
}

#[test]
fn three_acks_then_revocation_expires_the_lease() {
    let session = registration_step(Ok("{\"session\":{\"token\":\"abc-123\"}}".to_string()))
        .expect("session granted");
    assert_eq!(ping_path("http://server", &session.token), "http://server/ping/abc-123");
    let replies = vec![
        Ok("{\"ack\":true}".to_string()),
        Ok("{\"ack\":true}".to_string()),
        Ok("{\"ack\":true}".to_string()),
        Ok("{\"ack\":false}".to_string()),
    ];
    let (err, pings, waits) = drive(replies);
    assert_eq!(err, RegisterError::RegisterExpired);
    assert_eq!(pings, 4);
    assert_eq!(waits, 4);
}

#[test]
fn ping_transport_failure_stops_the_loop_with_the_cause() {
    let replies = vec![
        Ok("{\"ack\":true}".to_string()),
        Ok("{\"ack\":true}".to_string()),
        Err(transport("timeout")),
    ];
    let (err, pings, _) = drive(replies);
    assert_eq!(err, RegisterError::RequestError(RequestFault::Transport(transport("timeout"))));
    assert_eq!(err.message(), "request failed: timeout");
    assert_eq!(pings, 3);
}

#[test]
fn ping_unreadable_body_stops_the_loop() {
    let replies = vec![Ok("pong".to_string())];
    let (err, pings, waits) = drive(replies);
    assert_eq!(err, RegisterError::RequestError(RequestFault::Codec));
    assert_eq!(pings, 1);
    assert_eq!(waits, 1);
}

#[test]
fn immediate_revocation_expires_after_one_ping() {
    let replies = vec![Ok("{\"ack\":false}".to_string())];
    let (err, pings, waits) = drive(replies);
    assert_eq!(err, RegisterError::RegisterExpired);
    assert_eq!(pings, 1);
    assert_eq!(waits, 1);
}

#[test]
fn machine_waits_a_full_interval_before_the_first_ping() {
    let (state, action) = heartbeat_start();
    assert_eq!(state, HeartbeatState::Active);
    assert_eq!(action, HeartbeatAction::Wait(50));
    let (state, action) = heartbeat_step(state, HeartbeatEvent::IntervalElapsed);
    assert_eq!(state, HeartbeatState::Renewing);
    assert_eq!(action, HeartbeatAction::SendPing);
}

#[test]
fn heartbeat_interval_is_fixed() {
    assert_eq!(heartbeat_interval_secs(), 50);
}

#[test]
fn error_messages_are_exact() {
    assert_eq!(RegisterError::RegisterRefused.message(), "register refused");
    assert_eq!(RegisterError::RegisterExpired.message(), "register revoked by server");
}

#[test]
fn request_paths_are_exact() {
    assert_eq!(discover_path("http://server", "http"), "http://server/discover/http");
    assert_eq!(ping_path("http://server", "tok"), "http://server/ping/tok");
}
