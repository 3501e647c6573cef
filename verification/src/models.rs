//! The station's data: configuration, connectors and sessions, each with the
//! mathematical view that the contracts of the crate speak of.

use vstd::prelude::*;
use crate::ids::fresh_session_id;

verus! {

/// One physical outlet: a charger and the 1-based index of one of its connectors.
#[derive(Debug, PartialEq, Eq, Hash)]
pub struct ConnectorId {
    pub charger_id: String,
    pub idx: u8,
}

/// What a [`ConnectorId`] stands for.
pub ghost struct ConnectorIdView {
    pub charger_id: Seq<char>,
    pub idx: u8,
}

impl View for ConnectorId {
    type V = ConnectorIdView;

    open spec fn view(&self) -> ConnectorIdView {
        ConnectorIdView { charger_id: self.charger_id@, idx: self.idx }
    }
}

impl Clone for ConnectorId {
    fn clone(&self) -> (res: Self)
        ensures
            res == *self,
    {
        ConnectorId { charger_id: self.charger_id.clone(), idx: self.idx }
    }
}

impl ConnectorId {
    /// Structural equality: same charger, same index.
    pub fn same_as(&self, other: &ConnectorId) -> (same: bool)
        ensures
            same == (self@ == other@),
    {
        self.idx == other.idx && self.charger_id == other.charger_id
    }
}

/// One vehicle's ongoing use of one connector. Powers are in kW.
#[derive(Debug)]
pub struct Session {
    pub session_id: u128,
    pub connector_id: ConnectorId,
    pub allocated_power: u32,
    pub vehicle_max_power: u32,
}

/// What a [`Session`] stands for.
pub ghost struct SessionView {
    pub session_id: u128,
    pub connector_id: ConnectorIdView,
    pub allocated_power: nat,
    pub vehicle_max_power: nat,
}

impl View for Session {
    type V = SessionView;

    open spec fn view(&self) -> SessionView {
        SessionView {
            session_id: self.session_id,
            connector_id: self.connector_id@,
            allocated_power: self.allocated_power as nat,
            vehicle_max_power: self.vehicle_max_power as nat,
        }
    }
}

impl Clone for Session {
    fn clone(&self) -> (res: Self)
        ensures
            res == *self,
    {
        Session {
            session_id: self.session_id,
            connector_id: self.connector_id.clone(),
            allocated_power: self.allocated_power,
            vehicle_max_power: self.vehicle_max_power,
        }
    }
}

impl Session {
    /// A session on `connector_id` that holds nothing yet, under an
    /// identifier drawn at random.
    pub fn new(connector_id: ConnectorId, vehicle_max_power: u32) -> (session: Session)
        ensures
            session@ == minted(session.session_id, connector_id@, vehicle_max_power as nat),
    {
        Session {
            session_id: fresh_session_id(),
            connector_id,
            allocated_power: 0,
            vehicle_max_power,
        }
    }

    /// The same session holding another allocation.
    pub fn with_allocation(&self, allocated_power: u32) -> (res: Session)
        ensures
            res@ == with_allocation(self@, allocated_power as nat),
    {
        Session {
            session_id: self.session_id,
            connector_id: self.connector_id.clone(),
            allocated_power,
            vehicle_max_power: self.vehicle_max_power,
        }
    }
}

/// The session `session_id` on `connector_id` as it is made: it holds nothing.
pub open spec fn minted(
    session_id: u128,
    connector_id: ConnectorIdView,
    vehicle_max_power: nat,
) -> SessionView {
    SessionView { session_id, connector_id, allocated_power: 0, vehicle_max_power }
}

/// `session` as it is but for its allocation.
pub open spec fn with_allocation(session: SessionView, allocated_power: nat) -> SessionView {
    SessionView { allocated_power, ..session }
}

/// The views of a run of sessions, in order.
pub open spec fn session_views(sessions: Seq<Session>) -> Seq<SessionView> {
    sessions.map_values(|s: Session| s@)
}

/// One charger: its hardware rating, shared by its connectors, and how many
/// connectors it has. Valid connector indices are `1..=connectors`.
#[derive(Debug)]
pub struct ChargerConfig {
    pub id: String,
    pub max_power: u32,
    pub connectors: u8,
}

/// What a [`ChargerConfig`] stands for.
pub ghost struct ChargerConfigView {
    pub id: Seq<char>,
    pub max_power: nat,
    pub connectors: u8,
}

impl View for ChargerConfig {
    type V = ChargerConfigView;

    open spec fn view(&self) -> ChargerConfigView {
        ChargerConfigView {
            id: self.id@,
            max_power: self.max_power as nat,
            connectors: self.connectors,
        }
    }
}

impl Clone for ChargerConfig {
    fn clone(&self) -> (res: Self)
        ensures
            res == *self,
    {
        ChargerConfig { id: self.id.clone(), max_power: self.max_power, connectors: self.connectors }
    }
}

/// The views of a run of chargers, in order.
pub open spec fn charger_views(chargers: Seq<ChargerConfig>) -> Seq<ChargerConfigView> {
    chargers.map_values(|c: ChargerConfig| c@)
}

/// The station's battery. It is carried with the configuration and plays no
/// part in the allocation.
#[derive(Debug, Clone, Copy, PartialEq, Eq, Structural)]
pub struct Bess {
    pub initial_capacity: u32,
    pub power: u32,
}

/// A station as configured: its grid import capacity and its chargers.
#[derive(Debug)]
pub struct StationConfig {
    pub station_id: String,
    pub grid_capacity: u32,
    pub chargers: Vec<ChargerConfig>,
    pub battery: Option<Bess>,
}

/// What a [`StationConfig`] stands for.
pub ghost struct StationConfigView {
    pub station_id: Seq<char>,
    pub grid_capacity: nat,
    pub chargers: Seq<ChargerConfigView>,
    pub battery: Option<Bess>,
}

impl View for StationConfig {
    type V = StationConfigView;

    open spec fn view(&self) -> StationConfigView {
        StationConfigView {
            station_id: self.station_id@,
            grid_capacity: self.grid_capacity as nat,
            chargers: charger_views(self.chargers@),
            battery: self.battery,
        }
    }
}

impl Clone for StationConfig {
    fn clone(&self) -> (res: Self)
        ensures
            res@ == self@,
    {
        let mut chargers: Vec<ChargerConfig> = Vec::new();
        let mut i: usize = 0;
        while i < self.chargers.len()
            invariant
                i <= self.chargers.len(),
                chargers.len() == i,
                forall|j: int| 0 <= j < i ==> chargers[j] == self.chargers[j],
            decreases self.chargers.len() - i,
        {
            chargers.push(self.chargers[i].clone());
            i += 1;
        }
        assert(charger_views(chargers@) =~= charger_views(self.chargers@));
        StationConfig {
            station_id: self.station_id.clone(),
            grid_capacity: self.grid_capacity,
            chargers,
            battery: self.battery,
        }
    }
}

} // verus!
