//! The request surface: each request is turned into one operation on the
//! station, and what comes back into a reply with its status.

use vstd::prelude::*;
use crate::groups::position_of;
use crate::ids::{hyphenated, session_id_text};
use crate::models::{ConnectorId, Session, StationConfig, minted, session_views};
use crate::station::{
    SessionError, SessionErrorView, StationState, StationStateView, admitted, entered,
    start_refusal, station_invariant, stopped, updated,
};

verus! {

/// The status of a reply that carries what was asked for.
pub const STATUS_OK: u16 = 200;

/// The status of a reply that carries nothing.
pub const STATUS_NO_CONTENT: u16 = 204;

/// The status of a reply to a request that names what the station does not have.
pub const STATUS_NOT_FOUND: u16 = 404;

/// The status of a reply to a request that the state of the station forbids.
pub const STATUS_CONFLICT: u16 = 409;

/// A request to start a session.
#[derive(Debug)]
pub struct CreateSessionRequest {
    pub connector_id: ConnectorId,
    pub vehicle_max_power: u32,
}

/// The reply that carries a session.
#[derive(Debug)]
pub struct SessionResponse {
    pub session: Session,
}

/// A vehicle's report of what it draws.
#[derive(Debug)]
pub struct PowerUpdateRequest {
    pub consumed_power: u32,
}

/// The reply to a request that was refused.
#[derive(Debug)]
pub struct ErrorResponse {
    pub error: String,
}

/// The sessions of a station.
#[derive(Debug)]
pub struct StationStatus {
    pub sessions: Vec<Session>,
}

/// The character of a decimal digit.
pub open spec fn digit_char(digit: nat) -> char {
    if digit == 0 {
        '0'
    } else if digit == 1 {
        '1'
    } else if digit == 2 {
        '2'
    } else if digit == 3 {
        '3'
    } else if digit == 4 {
        '4'
    } else if digit == 5 {
        '5'
    } else if digit == 6 {
        '6'
    } else if digit == 7 {
        '7'
    } else if digit == 8 {
        '8'
    } else {
        '9'
    }
}

/// A number in decimal, without leading zeros.
pub open spec fn decimal(value: nat) -> Seq<char>
    decreases value,
{
    if value < 10 {
        seq![digit_char(value)]
    } else {
        decimal(value / 10).push(digit_char(value % 10))
    }
}

/// The status that an error is answered with: a connector or a session that
/// the station does not have is not found; a connector that is in use is a
/// conflict.
pub open spec fn error_status(error: SessionErrorView) -> u16 {
    match error {
        SessionErrorView::ConnectorAlreadyInUse { .. } => STATUS_CONFLICT,
        SessionErrorView::ConnectorNotFound { .. } => STATUS_NOT_FOUND,
        SessionErrorView::SessionNotFound { .. } => STATUS_NOT_FOUND,
    }
}

/// The message that an error is answered with.
pub open spec fn error_message(error: SessionErrorView) -> Seq<char> {
    match error {
        SessionErrorView::ConnectorAlreadyInUse { connector_id } => "Connector "@
            + connector_id.charger_id + ":"@ + decimal(connector_id.idx as nat)
            + " is already in use"@,
        SessionErrorView::ConnectorNotFound { connector_id } => "Connector "@
            + connector_id.charger_id + ":"@ + decimal(connector_id.idx as nat) + " not found"@,
        SessionErrorView::SessionNotFound { session_id } => "Session "@ + hyphenated(session_id)
            + " not found"@,
    }
}

/// The text of one decimal digit.
fn digit_text(digit: u8) -> (text: &'static str)
    requires
        digit < 10,
    ensures
        text@ == seq![digit_char(digit as nat)],
{
    proof {
        reveal_strlit("0");
        reveal_strlit("1");
        reveal_strlit("2");
        reveal_strlit("3");
        reveal_strlit("4");
        reveal_strlit("5");
        reveal_strlit("6");
        reveal_strlit("7");
        reveal_strlit("8");
        reveal_strlit("9");
    }
    let text = if digit == 0 {
        "0"
    } else if digit == 1 {
        "1"
    } else if digit == 2 {
        "2"
    } else if digit == 3 {
        "3"
    } else if digit == 4 {
        "4"
    } else if digit == 5 {
        "5"
    } else if digit == 6 {
        "6"
    } else if digit == 7 {
        "7"
    } else if digit == 8 {
        "8"
    } else {
        "9"
    };
    assert(text@ =~= seq![digit_char(digit as nat)]);
    text
}

/// A connector's index in decimal.
pub fn decimal_text(value: u8) -> (text: String)
    ensures
        text@ == decimal(value as nat),
{
    let mut text = String::new();
    if value >= 100 {
        text.append(digit_text(value / 100));
    }
    if value >= 10 {
        text.append(digit_text((value / 10) % 10));
    }
    text.append(digit_text(value % 10));
    proof {
        let v = value as nat;
        let ones = seq![digit_char(v % 10)];
        let tens = seq![digit_char((v / 10) % 10)];
        let hundreds = seq![digit_char(v / 100)];
        if v < 10 {
            assert(text@ =~= ones);
        } else if v < 100 {
            assert(decimal(v / 10) == tens);
            assert(decimal(v) == decimal(v / 10).push(digit_char(v % 10)));
            assert(text@ =~= tens + ones);
            assert(tens + ones =~= tens.push(digit_char(v % 10)));
        } else {
            assert((v / 10) / 10 == v / 100);
            assert(decimal(v / 100) == hundreds);
            assert(decimal(v / 10) == decimal((v / 10) / 10).push(digit_char((v / 10) % 10)));
            assert(decimal(v) == decimal(v / 10).push(digit_char(v % 10)));
            assert(text@ =~= hundreds + tens + ones);
            assert(hundreds + tens + ones =~= hundreds.push(digit_char((v / 10) % 10)).push(
                digit_char(v % 10),
            ));
        }
    }
    text
}

/// The reply to a request that the station refused: the status, and the
/// message that says what was wrong.
pub fn session_error_to_response(error: SessionError) -> (reply: (u16, ErrorResponse))
    ensures
        reply.0 == error_status(error@),
        reply.1.error@ == error_message(error@),
{
    match error {
        SessionError::ConnectorAlreadyInUse { connector_id } => {
            let mut message = String::from_str("Connector ");
            message.append(connector_id.charger_id.as_str());
            message.append(":");
            message.append(decimal_text(connector_id.idx).as_str());
            message.append(" is already in use");
            (STATUS_CONFLICT, ErrorResponse { error: message })
        },
        SessionError::ConnectorNotFound { connector_id } => {
            let mut message = String::from_str("Connector ");
            message.append(connector_id.charger_id.as_str());
            message.append(":");
            message.append(decimal_text(connector_id.idx).as_str());
            message.append(" not found");
            (STATUS_NOT_FOUND, ErrorResponse { error: message })
        },
        SessionError::SessionNotFound { session_id } => {
            let mut message = String::from_str("Session ");
            message.append(session_id_text(session_id).as_str());
            message.append(" not found");
            (STATUS_NOT_FOUND, ErrorResponse { error: message })
        },
    }
}

/// The answer to a health check.
pub fn health_check() -> (answer: &'static str)
    ensures
        answer@ == "OK"@,
{
    "OK"
}

/// The station's configuration.
pub fn get_station_config(state: &StationState) -> (config: StationConfig)
    ensures
        config@ == state@.config,
{
    state.get_config().clone()
}

/// The station's sessions.
pub fn get_station_status(state: &StationState) -> (status: StationStatus)
    ensures
        session_views(status.sessions@) == state@.sessions,
{
    let current = state.get_sessions();
    let sessions = current.clone();
    assert(sessions@ =~= current@);
    StationStatus { sessions }
}

/// Replaces the station by one with the configuration given and no session,
/// and hands the configuration back.
pub fn update_station_config(state: &mut StationState, new_config: StationConfig) -> (config:
    StationConfig)
    ensures
        config@ == new_config@,
        final(state)@ == (StationStateView { config: new_config@, sessions: Seq::empty() }),
        station_invariant(final(state)@),
{
    let new_state = StationState::new(new_config.clone());
    *state = new_state;
    new_config
}

/// Starts a session as the request asks. The reply carries a status, and
/// with it the session, or the message of the refusal.
pub fn create_session(state: &mut StationState, payload: CreateSessionRequest) -> (reply: Result<
    (u16, SessionResponse),
    (u16, ErrorResponse),
>)
    ensures
        station_invariant(final(state)@),
        match reply {
            Ok((status, response)) => {
                &&& status == STATUS_OK
                &&& start_refusal(old(state)@, payload.connector_id@) is None
                &&& response.session@ == admitted(
                    old(state)@,
                    minted(
                        response.session.session_id,
                        payload.connector_id@,
                        payload.vehicle_max_power as nat,
                    ),
                )
                &&& final(state)@ == entered(old(state)@, response.session@)
            },
            Err(refused) => {
                &&& start_refusal(old(state)@, payload.connector_id@) matches Some(error)
                &&& refused.0 == error_status(error)
                &&& refused.1.error@ == error_message(error)
                &&& final(state)@ == old(state)@
            },
        },
{
    match state.start_session(payload.connector_id, payload.vehicle_max_power) {
        Ok(session) => Ok((STATUS_OK, SessionResponse { session })),
        Err(error) => Err(session_error_to_response(error)),
    }
}

/// Ends the session `session_id`, if the station has it. The reply carries
/// nothing, whether there was such a session or not.
pub fn stop_session(state: &mut StationState, session_id: u128) -> (status: u16)
    ensures
        status == STATUS_NO_CONTENT,
        final(state)@ == stopped(old(state)@, session_id),
        station_invariant(final(state)@),
{
    state.stop_session(session_id);
    STATUS_NO_CONTENT
}

/// Takes in what the vehicle of the session `session_id` reports to draw. The
/// reply carries a status, and with it the session as it is now, or the
/// message of the refusal.
pub fn power_update(
    state: &mut StationState,
    session_id: u128,
    payload: PowerUpdateRequest,
) -> (reply: Result<(u16, SessionResponse), (u16, ErrorResponse)>)
    ensures
        station_invariant(final(state)@),
        match position_of(old(state)@.sessions, session_id) {
            None => {
                &&& reply matches Err(refused)
                &&& refused.0 == STATUS_NOT_FOUND
                &&& refused.1.error@ == error_message(
                    SessionErrorView::SessionNotFound { session_id },
                )
                &&& final(state)@ == old(state)@
            },
            Some(i) => {
                &&& reply matches Ok((status, response))
                &&& status == STATUS_OK
                &&& response.session@ == updated(old(state)@, i, payload.consumed_power as nat)
                &&& final(state)@ == (StationStateView {
                    sessions: old(state)@.sessions.update(i, response.session@),
                    ..old(state)@
                })
            },
        },
{
    match state.power_update(session_id, payload.consumed_power) {
        Ok(session) => Ok((STATUS_OK, SessionResponse { session })),
        Err(error) => Err(session_error_to_response(error)),
    }
}

} // verus!
