use electra_sems::app_state::AppState;
use electra_sems::config::{Battery, Charger, StationConfig};
use electra_sems::engine::{
    Engine, StartSession, StartSessionResponse, StopSession, StopSessionResponse,
    UpdateSessionPower,
};
use electra_sems::models::{Bess, ChargerConfig, ConnectorId};
use electra_sems::station::SessionError;

fn station_config() -> electra_sems::models::StationConfig {
    electra_sems::models::StationConfig {
        station_id: "ELECTRA_PARIS_15".into(),
        grid_capacity: 400,
        chargers: vec![
            ChargerConfig { id: "CP001".into(), max_power: 200, connectors: 2 },
            ChargerConfig { id: "CP002".into(), max_power: 200, connectors: 2 },
        ],
        battery: Some(Bess { initial_capacity: 200, power: 100 }),
    }
}

#[test]
fn engine_starts_and_stops_sessions() {
    let mut engine = Engine::new(station_config());
    let first = engine
        .start_session(StartSession {
            connector_id: ConnectorId { charger_id: "CP001".into(), idx: 1 },
            vehicle_max_power: 250,
        })
        .expect("Could not create the session");
    assert_eq!(first.allocated_power, 200);
    assert_eq!(first.vehicle_max_power, 250);

    let refused = engine.start_session(StartSession {
        connector_id: ConnectorId { charger_id: "CP001".into(), idx: 1 },
        vehicle_max_power: 10,
    });
    assert!(matches!(refused, Err(SessionError::ConnectorAlreadyInUse { .. })));
    let refused = engine.start_session(StartSession {
        connector_id: ConnectorId { charger_id: "CP004".into(), idx: 1 },
        vehicle_max_power: 10,
    });
    assert!(matches!(refused, Err(SessionError::ConnectorNotFound { .. })));

    engine.stop_session(first.session_id);
    let again = engine
        .start_session(StartSession {
            connector_id: ConnectorId { charger_id: "CP001".into(), idx: 1 },
            vehicle_max_power: 10,
        })
        .expect("Could not create the session");
    assert_eq!(again.allocated_power, 10);
}

#[test]
fn battery_does_not_change_the_ceilings() {
    let mut with_battery = Engine::new(station_config());
    let mut config = station_config();
    config.battery = None;
    let mut without_battery = Engine::new(config);
    for engine in [&mut with_battery, &mut without_battery] {
        let a = engine
            .start_session(StartSession {
                connector_id: ConnectorId { charger_id: "CP001".into(), idx: 1 },
                vehicle_max_power: 500,
            })
            .expect("Could not create the session");
        let b = engine
            .start_session(StartSession {
                connector_id: ConnectorId { charger_id: "CP002".into(), idx: 1 },
                vehicle_max_power: 500,
            })
            .expect("Could not create the session");
        assert_eq!((a.allocated_power, b.allocated_power), (200, 200));
    }
}

#[test]
fn request_records_hold_what_they_are_given() {
    let started = StartSessionResponse { session_id: "a".into(), allocated_power: 3 };
    assert_eq!((started.session_id.as_str(), started.allocated_power), ("a", 3));
    let stop = StopSession { session_id: "b".into() };
    assert_eq!(stop.session_id, "b");
    let stopped = StopSessionResponse { session_id: "c".into() };
    assert_eq!(stopped.session_id, "c");
    let update = UpdateSessionPower { session_id: "d".into(), power: 9 };
    assert_eq!((update.session_id.as_str(), update.power), ("d", 9));
}

#[test]
fn app_state_holds_the_configuration() {
    let config = StationConfig {
        station_id: "ELECTRA_PARIS_15".to_string(),
        grid_capacity: 400,
        chargers: vec![
            Charger { id: "CP001".to_string(), max_power: 200, connectors: 2 },
            Charger { id: "CP002".to_string(), max_power: 200, connectors: 2 },
            Charger { id: "CP003".to_string(), max_power: 300, connectors: 2 },
        ],
        battery: Battery { initial_capacity: 200, power: 100 },
    };
    let state = AppState::new(config);
    let held = state.get_station_config();
    assert_eq!(held.station_id, "ELECTRA_PARIS_15");
    assert_eq!(held.grid_capacity, 400);
    assert_eq!(held.chargers.len(), 3);
    assert_eq!(held.chargers[2].id, "CP003");
    assert_eq!(held.chargers[2].max_power, 300);
    assert_eq!(held.chargers[2].connectors, 2);
    assert_eq!(held.battery, Battery { initial_capacity: 200, power: 100 });
    assert_eq!(state.station_config.station_id, "ELECTRA_PARIS_15");
}
