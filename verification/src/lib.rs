//! Station energy management for an electric-vehicle charging site.
//!
//! The crate decides how much power every active charging session may draw,
//! under three ceilings that nest: what the vehicle accepts, what the charger
//! can deliver, and what the site may import from the grid.

pub mod allocator;
pub mod api;
pub mod app_state;
pub mod chargers;
pub mod config;
pub mod engine;
pub mod groups;
pub mod guarantees;
pub mod ids;
pub mod models;
pub mod station;
pub mod water;

pub use crate::chargers::ChargerTable;
pub use crate::models::{Bess, ChargerConfig, ConnectorId, Session, StationConfig};
pub use crate::station::{SessionError, StationState};
