//! What an application shares among its parts: the station's configuration
//! as it was loaded.

use vstd::prelude::*;
use crate::config::StationConfig;

verus! {

/// The state of the application: the station configuration loaded at startup.
#[derive(Debug, Clone)]
pub struct AppState {
    /// The station configuration loaded at startup.
    pub station_config: StationConfig,
}

impl AppState {
    /// The state that holds the given configuration.
    pub fn new(station_config: StationConfig) -> (state: AppState)
        ensures
            state.station_config == station_config,
    {
        AppState { station_config }
    }

    /// The configuration that the state holds.
    pub fn get_station_config(&self) -> (config: &StationConfig)
        ensures
            *config == self.station_config,
    {
        &self.station_config
    }
}

} // verus!
