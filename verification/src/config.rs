//! A station's configuration as it is loaded at startup.

use vstd::prelude::*;

verus! {

/// A charging station as configured.
#[derive(Debug, Clone)]
pub struct StationConfig {
    pub station_id: String,
    /// Grid capacity in kW.
    pub grid_capacity: u32,
    pub chargers: Vec<Charger>,
    pub battery: Battery,
}

/// A charger of the station.
#[derive(Debug, Clone)]
pub struct Charger {
    pub id: String,
    /// Maximum power in kW, shared between the connectors.
    pub max_power: u32,
    /// Number of connectors of this charger.
    pub connectors: u32,
}

/// The battery system of the station.
#[derive(Debug, Clone, Copy, PartialEq, Eq, Structural)]
pub struct Battery {
    /// Initial capacity in kWh.
    pub initial_capacity: u32,
    /// Maximum charge and discharge power in kW.
    pub power: u32,
}

} // verus!
