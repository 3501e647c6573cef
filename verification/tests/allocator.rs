use electra_sems::allocator::{allocate_connector, allocate_for_new_session, allocate_power_station};
use electra_sems::chargers::ChargerTable;
use electra_sems::models::{ChargerConfig, ConnectorId, Session};

fn session(charger_id: &str, idx: u8, vehicle_max_power: u32) -> Session {
    Session::new(ConnectorId { charger_id: charger_id.into(), idx }, vehicle_max_power)
}

fn charger(id: &str, max_power: u32, connectors: u8) -> ChargerConfig {
    ChargerConfig { id: id.to_string(), max_power, connectors }
}

fn assert_eq_allocated_power(before: &Session, after_sessions: &[Session], allocated_power: u32) {
    assert_eq!(
        after_sessions
            .iter()
            .find(|s| s.session_id == before.session_id)
            .expect("Could not find section")
            .allocated_power,
        allocated_power
    )
}

fn get_sessions() -> Vec<Session> {
    vec![session("CP001", 1, 100), session("CP001", 2, 150)]
}

fn allocations(sessions: &[Session]) -> Vec<u32> {
    sessions.iter().map(|s| s.allocated_power).collect()
}

#[test]
/// Low capacity available, no vehicle at full power
fn test_no_max_power() {
    let sessions = get_sessions();
    let out_sessions = allocate_connector(&sessions, 100);
    assert_eq_allocated_power(&sessions[0], &out_sessions, 50);
    assert_eq_allocated_power(&sessions[1], &out_sessions, 50);
}

#[test]
/// Low capacity available, one vehicle at max power
fn test_partial_max_power() {
    let sessions = get_sessions();
    let out_sessions = allocate_connector(&sessions, 200);
    assert_eq_allocated_power(&sessions[0], &out_sessions, 100);
    assert_eq_allocated_power(&sessions[1], &out_sessions, 100);
}

#[test]
/// High capacity available, all vehicle at max power
fn test_all_max_power() {
    let sessions = get_sessions();
    let out_sessions = allocate_connector(&sessions, 250);
    assert_eq_allocated_power(&sessions[0], &out_sessions, 100);
    assert_eq_allocated_power(&sessions[1], &out_sessions, 150);
}

#[test]
/// High capacity available, all vehicle at max power, remaining capacity
fn test_all_max_power_remaining() {
    let sessions = get_sessions();
    let out_sessions = allocate_connector(&sessions, 300);
    assert_eq_allocated_power(&sessions[0], &out_sessions, 100);
    assert_eq_allocated_power(&sessions[1], &out_sessions, 150);
}

#[test]
fn test_no_chargers_limit() {
    let sessions = vec![
        session("CP001", 1, 100),
        session("CP001", 2, 100),
        session("CP002", 1, 200),
    ];
    let chargers_config =
        ChargerTable::from_chargers(&[charger("CP001", 300, 2), charger("CP002", 300, 2)]);

    let out_sessions = allocate_power_station(&sessions, &chargers_config, 1000);

    // We expect every vehicle to be at max power
    assert_eq_allocated_power(&sessions[0], &out_sessions, 100);
    assert_eq_allocated_power(&sessions[1], &out_sessions, 100);
    assert_eq_allocated_power(&sessions[2], &out_sessions, 200);
}

#[test]
fn test_chargers_limit() {
    let sessions = vec![
        session("CP001", 1, 100),
        session("CP001", 2, 100),
        session("CP002", 1, 200),
    ];
    let chargers_config =
        ChargerTable::from_chargers(&[charger("CP001", 100, 2), charger("CP002", 100, 2)]);

    let out_sessions = allocate_power_station(&sessions, &chargers_config, 500);

    // We expect the first charger to be at max power, and all the remaining power
    // to go to the second charger.
    assert_eq_allocated_power(&sessions[0], &out_sessions, 50);
    assert_eq_allocated_power(&sessions[1], &out_sessions, 50);
    assert_eq_allocated_power(&sessions[2], &out_sessions, 100);
}

#[test]
fn test_station_limit() {
    let sessions = vec![
        session("CP001", 1, 100),
        session("CP001", 2, 100),
        session("CP002", 1, 200),
    ];
    let chargers_config =
        ChargerTable::from_chargers(&[charger("CP001", 300, 2), charger("CP002", 300, 2)]);

    let out_sessions = allocate_power_station(&sessions, &chargers_config, 300);

    // The 3 vehicles should take a third each, as it is below their max power
    assert_eq_allocated_power(&sessions[0], &out_sessions, 100);
    assert_eq_allocated_power(&sessions[1], &out_sessions, 100);
    assert_eq_allocated_power(&sessions[2], &out_sessions, 100);
}

#[test]
fn test_station_limit_and_vehicles() {
    let sessions = vec![
        session("CP001", 1, 50),
        session("CP001", 2, 100),
        session("CP002", 1, 200),
    ];
    let chargers_config =
        ChargerTable::from_chargers(&[charger("CP001", 300, 2), charger("CP002", 300, 2)]);

    let out_sessions = allocate_power_station(&sessions, &chargers_config, 300);

    // The first charger should be at max power, and the second one taking the rest
    assert_eq_allocated_power(&sessions[0], &out_sessions, 50);
    assert_eq_allocated_power(&sessions[1], &out_sessions, 100);
    assert_eq_allocated_power(&sessions[2], &out_sessions, 150);
}

#[test]
fn test_empty_stations() {
    let sessions = vec![
        session("CP001", 1, 100),
        session("CP001", 2, 100),
        session("CP002", 1, 100),
    ];
    let chargers_config = ChargerTable::from_chargers(&[
        charger("CP001", 300, 2),
        charger("CP002", 300, 2),
        charger("CP003", 300, 2),
    ]);

    let out_sessions = allocate_power_station(&sessions, &chargers_config, 300);

    assert_eq_allocated_power(&sessions[0], &out_sessions, 100);
    assert_eq_allocated_power(&sessions[1], &out_sessions, 100);
    assert_eq_allocated_power(&sessions[2], &out_sessions, 100);
}

#[test]
fn cross_charger_fairness() {
    let sessions = vec![
        session("CP001", 1, 80),
        session("CP001", 2, 150),
        session("CP002", 1, 150),
    ];
    let chargers = ChargerTable::from_chargers(&[charger("CP001", 200, 2), charger("CP002", 200, 2)]);
    let out = allocate_power_station(&sessions, &chargers, 330);
    assert_eq!(allocations(&out), vec![80, 120, 130]);
}

#[test]
fn station_allocation_keeps_sessions_in_order() {
    let sessions = vec![
        session("CP002", 1, 70),
        session("CP001", 2, 150),
        session("CP002", 2, 30),
    ];
    let chargers = ChargerTable::from_chargers(&[charger("CP001", 200, 2), charger("CP002", 200, 2)]);
    let out = allocate_power_station(&sessions, &chargers, 1000);
    assert_eq!(out.len(), 3);
    for (before, after) in sessions.iter().zip(out.iter()) {
        assert_eq!(before.session_id, after.session_id);
        assert_eq!(before.connector_id, after.connector_id);
        assert_eq!(before.vehicle_max_power, after.vehicle_max_power);
    }
    assert_eq!(allocations(&out), vec![70, 150, 30]);
}

#[test]
fn station_allocation_starts_from_nothing() {
    let mut sessions = vec![session("CP001", 1, 100), session("CP001", 2, 100)];
    sessions[0].allocated_power = 90;
    sessions[1].allocated_power = 5;
    let chargers = ChargerTable::from_chargers(&[charger("CP001", 100, 2)]);
    let out = allocate_power_station(&sessions, &chargers, 400);
    assert_eq!(allocations(&out), vec![50, 50]);
}

#[test]
fn station_allocation_is_idempotent() {
    let sessions = vec![
        session("CP001", 1, 80),
        session("CP001", 2, 150),
        session("CP002", 1, 150),
        session("CP003", 1, 37),
    ];
    let chargers = ChargerTable::from_chargers(&[
        charger("CP001", 200, 2),
        charger("CP002", 200, 2),
        charger("CP003", 300, 2),
    ]);
    let once = allocate_power_station(&sessions, &chargers, 331);
    let twice = allocate_power_station(&once, &chargers, 331);
    assert_eq!(allocations(&once), allocations(&twice));
    for (a, b) in once.iter().zip(twice.iter()) {
        assert_eq!(a.session_id, b.session_id);
    }
}

#[test]
fn station_allocation_respects_the_three_ceilings() {
    let sessions = vec![
        session("CP001", 1, 80),
        session("CP001", 2, 150),
        session("CP002", 1, 150),
        session("CP002", 2, 500),
        session("CP003", 1, 7),
    ];
    let chargers = ChargerTable::from_chargers(&[
        charger("CP001", 200, 2),
        charger("CP002", 120, 2),
        charger("CP003", 300, 2),
    ]);
    let out = allocate_power_station(&sessions, &chargers, 301);
    for s in out.iter() {
        assert!(s.allocated_power <= s.vehicle_max_power);
    }
    let on = |id: &str| -> u32 {
        out.iter().filter(|s| s.connector_id.charger_id == id).map(|s| s.allocated_power).sum()
    };
    assert!(on("CP001") <= 200);
    assert!(on("CP002") <= 120);
    assert!(on("CP003") <= 300);
    assert!(out.iter().map(|s| s.allocated_power).sum::<u32>() <= 301);
}

#[test]
fn station_allocation_of_no_session_is_empty() {
    let chargers = ChargerTable::from_chargers(&[charger("CP001", 200, 2)]);
    let out = allocate_power_station(&[], &chargers, 400);
    assert!(out.is_empty());
}

#[test]
fn station_allocation_under_zero_ceiling_gives_nothing() {
    let sessions = vec![session("CP001", 1, 80), session("CP002", 1, 150)];
    let chargers = ChargerTable::from_chargers(&[charger("CP001", 200, 2), charger("CP002", 200, 2)]);
    let out = allocate_power_station(&sessions, &chargers, 0);
    assert_eq!(allocations(&out), vec![0, 0]);
}

#[test]
fn vehicle_that_accepts_nothing_gets_nothing() {
    let sessions = vec![session("CP001", 1, 0), session("CP001", 2, 150)];
    let chargers = ChargerTable::from_chargers(&[charger("CP001", 200, 2)]);
    let out = allocate_power_station(&sessions, &chargers, 400);
    assert_eq!(allocations(&out), vec![0, 150]);
}

#[test]
fn session_on_unknown_charger_gets_nothing() {
    let sessions = vec![session("CP009", 1, 80), session("CP001", 1, 150)];
    let chargers = ChargerTable::from_chargers(&[charger("CP001", 200, 2)]);
    let out = allocate_power_station(&sessions, &chargers, 400);
    assert_eq!(allocations(&out), vec![0, 150]);
}

#[test]
fn remainder_below_one_kw_per_session_stays_unassigned() {
    let sessions = vec![session("CP001", 1, 10), session("CP001", 2, 10)];
    let chargers = ChargerTable::from_chargers(&[charger("CP001", 5, 2)]);
    let out = allocate_power_station(&sessions, &chargers, 100);
    assert_eq!(allocations(&out), vec![2, 2]);
    let out = allocate_connector(&sessions, 5);
    assert_eq!(allocations(&out), vec![2, 2]);
}

#[test]
fn connector_allocation_raises_the_level_past_full_vehicles() {
    let sessions = vec![
        session("CP001", 1, 1),
        session("CP001", 2, 10),
        session("CP001", 3, 10),
        session("CP001", 4, 10),
    ];
    let out = allocate_connector(&sessions, 8);
    assert_eq!(allocations(&out), vec![1, 2, 2, 2]);
    let out = allocate_connector(&sessions, 7);
    assert_eq!(allocations(&out), vec![1, 2, 2, 2]);
    let out = allocate_connector(&sessions, 0);
    assert_eq!(allocations(&out), vec![0, 0, 0, 0]);
}

#[test]
fn connector_allocation_of_no_session_is_empty() {
    assert!(allocate_connector(&[], 100).is_empty());
}

#[test]
fn later_charger_of_the_same_id_stands_for_both() {
    let sessions = vec![session("CP001", 1, 150)];
    let chargers = ChargerTable::from_chargers(&[charger("CP001", 200, 2), charger("CP001", 60, 1)]);
    assert_eq!(chargers.entries().len(), 1);
    assert_eq!(chargers.get(&"CP001".to_string()).map(|c| c.max_power), Some(60));
    assert!(chargers.get(&"CP002".to_string()).is_none());
    let out = allocate_power_station(&sessions, &chargers, 400);
    assert_eq!(allocations(&out), vec![60]);
}

#[test]
fn new_session_is_capped_by_the_hardcap() {
    let chargers = ChargerTable::from_chargers(&[charger("CP001", 200, 2), charger("CP002", 200, 2)]);
    let mut first = session("CP001", 1, 200);
    first.allocated_power = 200;
    let arriving = session("CP002", 1, 300);
    let granted = allocate_for_new_session(vec![first.clone()], &chargers, 300, 100, &arriving);
    assert_eq!(granted.session_id, arriving.session_id);
    assert_eq!(granted.connector_id, arriving.connector_id);
    assert_eq!(granted.vehicle_max_power, 300);
    // The allocation would give 150 to each; the hardcap lets 100 through.
    assert_eq!(granted.allocated_power, 100);
    let granted = allocate_for_new_session(vec![first], &chargers, 300, 190, &arriving);
    assert_eq!(granted.allocated_power, 150);
}

#[test]
fn returning_session_takes_the_place_it_had() {
    let chargers = ChargerTable::from_chargers(&[charger("CP001", 200, 2)]);
    let mut first = session("CP001", 1, 200);
    first.allocated_power = 120;
    let second = session("CP001", 2, 40);
    let mut back = first.clone();
    back.vehicle_max_power = 90;
    let granted =
        allocate_for_new_session(vec![first, second], &chargers, 400, 400, &back);
    assert_eq!(granted.vehicle_max_power, 90);
    assert_eq!(granted.allocated_power, 90);
}

#[test]
fn sessions_below_their_limit_on_one_charger_hold_the_same() {
    let sessions = vec![
        session("CP001", 1, 500),
        session("CP002", 1, 500),
        session("CP001", 2, 20),
        session("CP001", 3, 500),
        session("CP002", 2, 500),
        session("CP001", 4, 61),
    ];
    let chargers =
        ChargerTable::from_chargers(&[charger("CP001", 203, 4), charger("CP002", 131, 2)]);
    let out = allocate_power_station(&sessions, &chargers, 1000);
    for a in out.iter() {
        for b in out.iter() {
            if a.connector_id.charger_id == b.connector_id.charger_id
                && a.allocated_power < a.vehicle_max_power
                && b.allocated_power < b.vehicle_max_power
            {
                assert_eq!(a.allocated_power, b.allocated_power);
            }
        }
    }
    assert_eq!(allocations(&out), vec![61, 65, 20, 61, 65, 61]);
}
