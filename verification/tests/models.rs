use electra_sems::chargers::ChargerTable;
use electra_sems::models::{Bess, ChargerConfig, ConnectorId, Session, StationConfig};

fn charger(id: &str, max_power: u32, connectors: u8) -> ChargerConfig {
    ChargerConfig { id: id.to_string(), max_power, connectors }
}

#[test]
fn connector_ids_compare_by_charger_and_index() {
    let a = ConnectorId { charger_id: "CP001".into(), idx: 1 };
    assert!(a.same_as(&a.clone()));
    assert!(!a.same_as(&ConnectorId { charger_id: "CP001".into(), idx: 2 }));
    assert!(!a.same_as(&ConnectorId { charger_id: "CP002".into(), idx: 1 }));
    assert_eq!(a, ConnectorId { charger_id: "CP001".into(), idx: 1 });
    assert_ne!(a, ConnectorId { charger_id: "CP001".into(), idx: 2 });
}

#[test]
fn new_session_holds_nothing() {
    let connector_id = ConnectorId { charger_id: "CP001".into(), idx: 2 };
    let session = Session::new(connector_id.clone(), 75);
    assert_eq!(session.connector_id, connector_id);
    assert_eq!(session.allocated_power, 0);
    assert_eq!(session.vehicle_max_power, 75);
    let other = Session::new(connector_id, 75);
    assert_ne!(session.session_id, other.session_id);
}

#[test]
fn with_allocation_changes_the_allocation_only() {
    let session = Session {
        session_id: 42,
        connector_id: ConnectorId { charger_id: "CP003".into(), idx: 1 },
        allocated_power: 10,
        vehicle_max_power: 90,
    };
    let changed = session.with_allocation(60);
    assert_eq!(changed.session_id, 42);
    assert_eq!(changed.connector_id, session.connector_id);
    assert_eq!(changed.allocated_power, 60);
    assert_eq!(changed.vehicle_max_power, 90);
    let copy = session.clone();
    assert_eq!(copy.session_id, 42);
    assert_eq!(copy.allocated_power, 10);
}

#[test]
fn station_config_clone_keeps_everything() {
    let config = StationConfig {
        station_id: "ELECTRA_PARIS_15".into(),
        grid_capacity: 400,
        chargers: vec![charger("CP001", 200, 2), charger("CP002", 150, 1)],
        battery: Some(Bess { initial_capacity: 200, power: 100 }),
    };
    let copy = config.clone();
    assert_eq!(copy.station_id, "ELECTRA_PARIS_15");
    assert_eq!(copy.grid_capacity, 400);
    assert_eq!(copy.chargers.len(), 2);
    assert_eq!(copy.chargers[0].id, "CP001");
    assert_eq!(copy.chargers[1].max_power, 150);
    assert_eq!(copy.chargers[1].connectors, 1);
    assert_eq!(copy.battery, Some(Bess { initial_capacity: 200, power: 100 }));
}

#[test]
fn charger_table_enters_and_replaces() {
    let mut table = ChargerTable::new();
    assert!(table.entries().is_empty());
    assert!(table.get(&"CP001".to_string()).is_none());

    table.insert(charger("CP001", 200, 2));
    table.insert(charger("CP002", 150, 1));
    assert_eq!(table.entries().len(), 2);
    assert_eq!(table.get(&"CP002".to_string()).map(|c| (c.max_power, c.connectors)), Some((150, 1)));

    table.insert(charger("CP001", 50, 4));
    assert_eq!(table.entries().len(), 2);
    assert_eq!(table.entries()[0].id, "CP001");
    assert_eq!(table.get(&"CP001".to_string()).map(|c| (c.max_power, c.connectors)), Some((50, 4)));
    assert_eq!(table.get(&"CP002".to_string()).map(|c| c.max_power), Some(150));
    assert!(table.get(&"CP003".to_string()).is_none());
}
