//! The engine: a station behind the requests that start and stop sessions.

use vstd::prelude::*;
use crate::models::{ConnectorId, Session, StationConfig, minted};
use crate::station::{
    SessionError, StationState, StationStateView, admitted, entered, start_refusal,
    station_invariant, stopped,
};

verus! {

/// A request to start a session.
#[derive(Debug)]
pub struct StartSession {
    pub connector_id: ConnectorId,
    pub vehicle_max_power: u32,
}

/// The answer to a request to start a session.
#[derive(Debug, Clone)]
pub struct StartSessionResponse {
    pub session_id: String,
    pub allocated_power: u32,
}

/// A request to stop a session.
#[derive(Debug, Clone)]
pub struct StopSession {
    pub session_id: String,
}

/// The answer to a request to stop a session.
#[derive(Debug, Clone)]
pub struct StopSessionResponse {
    pub session_id: String,
}

/// A vehicle's report of the power it draws.
#[derive(Debug, Clone)]
pub struct UpdateSessionPower {
    pub session_id: String,
    pub power: u32,
}

/// A station that takes requests.
#[derive(Debug)]
pub struct Engine {
    station_state: StationState,
}

impl View for Engine {
    type V = StationStateView;

    closed spec fn view(&self) -> StationStateView {
        self.station_state@
    }
}

impl Engine {
    /// An engine for a station with the given configuration and no session.
    pub fn new(station_config: StationConfig) -> (engine: Engine)
        ensures
            engine@ == (StationStateView { config: station_config@, sessions: Seq::empty() }),
            station_invariant(engine@),
    {
        Engine { station_state: StationState::new(station_config) }
    }

    /// Starts the session that the request asks for, as
    /// [`StationState::start_session`] does.
    pub fn start_session(&mut self, start_session: StartSession) -> (result: Result<
        Session,
        SessionError,
    >)
        ensures
            station_invariant(final(self)@),
            match result {
                Err(error) => {
                    &&& start_refusal(old(self)@, start_session.connector_id@) == Some(error@)
                    &&& final(self)@ == old(self)@
                },
                Ok(session) => {
                    &&& start_refusal(old(self)@, start_session.connector_id@) is None
                    &&& session@ == admitted(
                        old(self)@,
                        minted(
                            session.session_id,
                            start_session.connector_id@,
                            start_session.vehicle_max_power as nat,
                        ),
                    )
                    &&& final(self)@ == entered(old(self)@, session@)
                },
            },
    {
        self.station_state.start_session(
            start_session.connector_id,
            start_session.vehicle_max_power,
        )
    }

    /// Ends the session `session_id`, if the station has it.
    pub fn stop_session(&mut self, session_id: u128)
        ensures
            final(self)@ == stopped(old(self)@, session_id),
            station_invariant(final(self)@),
    {
        self.station_state.stop_session(session_id);
    }
}

} // verus!
