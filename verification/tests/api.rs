use electra_sems::api::{
    create_session, decimal_text, get_station_config, get_station_status, health_check,
    power_update, session_error_to_response, stop_session, update_station_config,
    CreateSessionRequest, PowerUpdateRequest, STATUS_CONFLICT, STATUS_NOT_FOUND,
    STATUS_NO_CONTENT, STATUS_OK,
};
use electra_sems::models::{ChargerConfig, ConnectorId, StationConfig};
use electra_sems::station::{SessionError, StationState};

fn test_station_config() -> StationConfig {
    StationConfig {
        station_id: "TEST_STATION".into(),
        grid_capacity: 400,
        chargers: vec![
            ChargerConfig { id: "CP001".into(), max_power: 200, connectors: 2 },
            ChargerConfig { id: "CP002".into(), max_power: 150, connectors: 1 },
        ],
        battery: None,
    }
}

fn connector(charger_id: &str, idx: u8) -> ConnectorId {
    ConnectorId { charger_id: charger_id.to_string(), idx }
}

#[test]
fn test_health_endpoint() {
    assert_eq!(health_check(), "OK");
    assert_eq!(STATUS_OK, 200);
}

#[test]
fn test_integration_create_and_stop_session() {
    let mut state = StationState::new(test_station_config());

    // Create a session
    let create_request =
        CreateSessionRequest { connector_id: connector("CP001", 1), vehicle_max_power: 150 };
    let (status, session_response) = create_session(&mut state, create_request).expect("refused");
    assert_eq!(status, STATUS_OK);
    let session_id = session_response.session.session_id;

    // Stop the session
    assert_eq!(stop_session(&mut state, session_id), STATUS_NO_CONTENT);
    assert_eq!(STATUS_NO_CONTENT, 204);
    assert!(state.get_sessions().is_empty());
}

#[test]
fn test_integration_session_with_power_update() {
    let mut state = StationState::new(test_station_config());

    // Create a session
    let create_request =
        CreateSessionRequest { connector_id: connector("CP001", 1), vehicle_max_power: 150 };
    let (status, session_response) = create_session(&mut state, create_request).expect("refused");
    assert_eq!(status, STATUS_OK);
    let session_id = session_response.session.session_id;

    // Update power consumption
    let power_update_request = PowerUpdateRequest { consumed_power: 100 };
    let (status, updated_session_response) =
        power_update(&mut state, session_id, power_update_request).expect("refused");
    assert_eq!(status, STATUS_OK);

    assert_eq!(updated_session_response.session.session_id, session_id);
    assert_eq!(updated_session_response.session.vehicle_max_power, 100);
}

#[test]
fn test_create_session() {
    let mut state = StationState::new(test_station_config());

    let create_request =
        CreateSessionRequest { connector_id: connector("CP001", 1), vehicle_max_power: 150 };
    let (status, session_response) = create_session(&mut state, create_request).expect("refused");

    assert_eq!(status, STATUS_OK);
    assert_eq!(session_response.session.connector_id.charger_id, "CP001");
    assert_eq!(session_response.session.connector_id.idx, 1);
    assert_eq!(session_response.session.vehicle_max_power, 150);
    assert!(session_response.session.allocated_power > 0);
    assert_eq!(session_response.session.allocated_power, 150);
}

#[test]
fn test_create_session_connector_not_found() {
    let mut state = StationState::new(test_station_config());

    let create_request = CreateSessionRequest {
        connector_id: connector("CP999", 1), // Non-existent charger
        vehicle_max_power: 150,
    };
    let (status, error_response) = create_session(&mut state, create_request).unwrap_err();

    assert_eq!(status, STATUS_NOT_FOUND);
    assert_eq!(status, 404);
    assert!(error_response.error.contains("Connector CP999:1 not found"));
    assert_eq!(error_response.error, "Connector CP999:1 not found");
}

#[test]
fn test_create_session_connector_already_in_use() {
    let mut state = StationState::new(test_station_config());

    // Start a session first
    let connector_id = connector("CP001", 1);
    state.start_session(connector_id.clone(), 100).unwrap();

    let create_request = CreateSessionRequest { connector_id, vehicle_max_power: 150 };
    let (status, error_response) = create_session(&mut state, create_request).unwrap_err();

    assert_eq!(status, STATUS_CONFLICT);
    assert_eq!(status, 409);
    assert!(error_response.error.contains("is already in use"));
    assert_eq!(error_response.error, "Connector CP001:1 is already in use");
}

#[test]
fn test_stop_session() {
    let mut state = StationState::new(test_station_config());

    // Start a session first
    let session = state.start_session(connector("CP001", 1), 150).unwrap();
    let session_id = session.session_id;

    assert_eq!(stop_session(&mut state, session_id), STATUS_NO_CONTENT);
    // Stopping again, or stopping a session that never was, is answered alike.
    assert_eq!(stop_session(&mut state, session_id), STATUS_NO_CONTENT);
    assert_eq!(stop_session(&mut state, 12345), STATUS_NO_CONTENT);
}

#[test]
fn session_test_power_update() {
    let mut state = StationState::new(test_station_config());

    // Start a session first
    let session = state.start_session(connector("CP001", 1), 150).unwrap();
    let session_id = session.session_id;

    let power_update_request = PowerUpdateRequest { consumed_power: 100 };
    let (status, session_response) =
        power_update(&mut state, session_id, power_update_request).expect("refused");

    assert_eq!(status, STATUS_OK);
    assert_eq!(session_response.session.session_id, session_id);
    // The vehicle_max_power should be updated to the consumed_power if it's less
    assert_eq!(session_response.session.vehicle_max_power, 100);
}

#[test]
fn session_test_power_update_session_not_found() {
    let mut state = StationState::new(test_station_config());

    let fake_session_id = uuid::Uuid::new_v4();
    let power_update_request = PowerUpdateRequest { consumed_power: 100 };
    let (status, error_response) =
        power_update(&mut state, fake_session_id.as_u128(), power_update_request).unwrap_err();

    assert_eq!(status, STATUS_NOT_FOUND);
    assert!(error_response.error.contains("Session") && error_response.error.contains("not found"));
    assert_eq!(error_response.error, format!("Session {} not found", fake_session_id));
}

#[test]
fn test_config_endpoint() {
    let config = test_station_config();
    let expected_station_id = config.station_id.clone();
    let state = StationState::new(config);

    let config_response = get_station_config(&state);
    assert_eq!(config_response.station_id, expected_station_id);
    assert_eq!(config_response.grid_capacity, 400);
    assert_eq!(config_response.chargers.len(), 2);
    assert_eq!(config_response.chargers[1].id, "CP002");
    assert_eq!(config_response.chargers[1].max_power, 150);
    assert_eq!(config_response.chargers[1].connectors, 1);
    assert!(config_response.battery.is_none());
}

#[test]
fn test_station_status_endpoint_empty() {
    let state = StationState::new(test_station_config());
    let status_response = get_station_status(&state);
    assert!(status_response.sessions.is_empty());
}

#[test]
fn test_station_status_endpoint_with_sessions() {
    let mut state = StationState::new(test_station_config());

    // Start a session
    let session_result = state.start_session(connector("CP001", 1), 150).unwrap();
    let session_id = session_result.session_id;

    let status_response = get_station_status(&state);

    // Verify we have one session
    assert_eq!(status_response.sessions.len(), 1);
    assert!(status_response.sessions.iter().any(|s| s.session_id == session_id));

    // Verify session details
    let session = &status_response.sessions[0];
    assert_eq!(session.session_id, session_id);
    assert_eq!(session.connector_id.charger_id, "CP001");
    assert_eq!(session.connector_id.idx, 1);
    assert_eq!(session.vehicle_max_power, 150);
}

#[test]
fn test_update_config_endpoint() {
    let mut state = StationState::new(test_station_config());

    // New configuration with different values
    let new_config = StationConfig {
        station_id: "NEW_STATION".into(),
        grid_capacity: 600,
        chargers: vec![
            ChargerConfig { id: "CP001".into(), max_power: 250, connectors: 2 },
            ChargerConfig { id: "CP002".into(), max_power: 300, connectors: 1 },
        ],
        battery: None,
    };

    let config_response = update_station_config(&mut state, new_config);

    assert_eq!(config_response.station_id, "NEW_STATION");
    assert_eq!(config_response.grid_capacity, 600);
    assert_eq!(config_response.chargers.len(), 2);
    assert_eq!(config_response.chargers[0].max_power, 250);
    assert_eq!(config_response.chargers[1].id, "CP002");
    assert_eq!(state.get_config().station_id, "NEW_STATION");
    assert_eq!(state.station_remaining_capacity(), 600);
}

#[test]
fn test_update_config_drops_sessions() {
    let mut state = StationState::new(test_station_config());

    // Start a session before updating config
    state.start_session(connector("CP001", 1), 150).unwrap();

    // Verify we have one session initially
    assert_eq!(get_station_status(&state).sessions.len(), 1);

    // Update configuration
    let new_config = StationConfig {
        station_id: "UPDATED_STATION".into(),
        grid_capacity: 500,
        chargers: vec![ChargerConfig { id: "CP001".into(), max_power: 300, connectors: 2 }],
        battery: None,
    };
    update_station_config(&mut state, new_config);

    // Verify sessions are dropped after config update
    assert_eq!(get_station_status(&state).sessions.len(), 0);
}

#[test]
fn error_replies_carry_status_and_message() {
    let (status, body) = session_error_to_response(SessionError::ConnectorAlreadyInUse {
        connector_id: connector("CP001", 2),
    });
    assert_eq!((status, body.error.as_str()), (409, "Connector CP001:2 is already in use"));
    let (status, body) = session_error_to_response(SessionError::ConnectorNotFound {
        connector_id: connector("CP7", 0),
    });
    assert_eq!((status, body.error.as_str()), (404, "Connector CP7:0 not found"));
    let (status, body) = session_error_to_response(SessionError::ConnectorNotFound {
        connector_id: connector("", 255),
    });
    assert_eq!((status, body.error.as_str()), (404, "Connector :255 not found"));
    let (status, body) = session_error_to_response(SessionError::SessionNotFound {
        session_id: 0xa1a2a3a4b1b2c1c2d1d2d3d4d5d6d7d8,
    });
    assert_eq!(
        (status, body.error.as_str()),
        (404, "Session a1a2a3a4-b1b2-c1c2-d1d2-d3d4d5d6d7d8 not found")
    );
    let (_, body) = session_error_to_response(SessionError::SessionNotFound { session_id: 0x1f });
    assert_eq!(body.error, "Session 00000000-0000-0000-0000-00000000001f not found");
}

#[test]
fn decimal_text_writes_every_index() {
    for value in 0..=255u8 {
        assert_eq!(decimal_text(value), format!("{}", value));
    }
}
