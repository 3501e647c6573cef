//! The station's state: its configuration and the sessions that are active,
//! with the operations that start a session, end one, and take in what a
//! vehicle reports to draw.

use vstd::prelude::*;
use crate::allocator::{
    allocate_for_new_session, allocated_power_of, find_session, new_session_allocation,
    remaining_under, sessions_on,
};
use crate::chargers::{ChargerTable, limit_of, lookup, table_of};
use crate::groups::{
    group_total, lemma_group_total_le, lemma_member_within_group, lemma_position_of,
    lemma_push_totals, lemma_remove_totals, lemma_update_totals, place_of, position_of, power_on,
    total_allocated, with_session,
};
use crate::guarantees::{within_charger_limits, within_vehicle_limits};
use crate::models::{
    ChargerConfigView, ConnectorId, ConnectorIdView, Session, SessionView, StationConfig,
    StationConfigView, minted, session_views, with_allocation,
};

verus! {

/// Why a request was refused.
#[derive(Debug)]
pub enum SessionError {
    /// Another session holds the connector.
    ConnectorAlreadyInUse { connector_id: ConnectorId },
    /// The station has no such charger, or the charger no such connector.
    ConnectorNotFound { connector_id: ConnectorId },
    /// The station has no such session.
    SessionNotFound { session_id: u128 },
}

/// What a [`SessionError`] stands for.
pub ghost enum SessionErrorView {
    ConnectorAlreadyInUse { connector_id: ConnectorIdView },
    ConnectorNotFound { connector_id: ConnectorIdView },
    SessionNotFound { session_id: u128 },
}

impl View for SessionError {
    type V = SessionErrorView;

    open spec fn view(&self) -> SessionErrorView {
        match self {
            SessionError::ConnectorAlreadyInUse { connector_id } => {
                SessionErrorView::ConnectorAlreadyInUse { connector_id: connector_id@ }
            },
            SessionError::ConnectorNotFound { connector_id } => {
                SessionErrorView::ConnectorNotFound { connector_id: connector_id@ }
            },
            SessionError::SessionNotFound { session_id } => {
                SessionErrorView::SessionNotFound { session_id: *session_id }
            },
        }
    }
}

/// What a [`StationState`] stands for: the configuration and the sessions,
/// in the order in which the station holds them.
pub ghost struct StationStateView {
    pub config: StationConfigView,
    pub sessions: Seq<SessionView>,
}

/// The station's charger table.
pub open spec fn station_chargers(station: StationStateView) -> Seq<ChargerConfigView> {
    table_of(station.config.chargers)
}

/// The connector exists: the station has the charger, and the charger has a
/// connector of that index.
pub open spec fn connector_exists(
    chargers: Seq<ChargerConfigView>,
    connector_id: ConnectorIdView,
) -> bool {
    match lookup(chargers, connector_id.charger_id) {
        Some(charger) => 1 <= connector_id.idx <= charger.connectors,
        None => false,
    }
}

/// A session holds the connector.
pub open spec fn connector_in_use(sessions: Seq<SessionView>, connector_id: ConnectorIdView) -> bool {
    exists|i: int| 0 <= i < sessions.len() && (#[trigger] sessions[i]).connector_id == connector_id
}

/// No two sessions share an id.
pub open spec fn distinct_session_ids(sessions: Seq<SessionView>) -> bool {
    forall|i: int, j: int|
        0 <= i < j < sessions.len() ==> (#[trigger] sessions[i]).session_id != (
        #[trigger] sessions[j]).session_id
}

/// No two sessions hold the same connector.
pub open spec fn distinct_connectors(sessions: Seq<SessionView>) -> bool {
    forall|i: int, j: int|
        0 <= i < j < sessions.len() ==> (#[trigger] sessions[i]).connector_id != (
        #[trigger] sessions[j]).connector_id
}

/// Every session holds a connector that exists.
pub open spec fn connectors_exist(
    sessions: Seq<SessionView>,
    chargers: Seq<ChargerConfigView>,
) -> bool {
    forall|i: int|
        0 <= i < sessions.len() ==> connector_exists(chargers, (#[trigger] sessions[i]).connector_id)
}

/// What holds of a station at all times: no session holds more than its
/// vehicle accepts, no charger delivers more than its rating, the sessions
/// together hold no more than the grid gives, session ids are unique, a
/// connector is held by one session at most, and every session holds a
/// connector that exists.
pub open spec fn station_invariant(station: StationStateView) -> bool {
    &&& within_vehicle_limits(station.sessions)
    &&& within_charger_limits(station.sessions, station_chargers(station))
    &&& total_allocated(station.sessions) <= station.config.grid_capacity
    &&& distinct_session_ids(station.sessions)
    &&& distinct_connectors(station.sessions)
    &&& connectors_exist(station.sessions, station_chargers(station))
}

/// What the station could still hand out: the grid's capacity less what the
/// sessions hold.
pub open spec fn station_remaining(station: StationStateView) -> nat {
    remaining_under(station.sessions, station.config.grid_capacity)
}

/// What the charger `id` could still deliver: its rating less what its
/// sessions hold, but no more than the station could still hand out.
pub open spec fn charger_remaining(station: StationStateView, id: Seq<char>) -> nat {
    let limit = limit_of(station_chargers(station), id);
    let used = group_total(station.sessions, id);
    let free = if used < limit {
        (limit - used) as nat
    } else {
        0
    };
    if free < station_remaining(station) {
        free
    } else {
        station_remaining(station)
    }
}

/// Why the station refuses to start a session on the connector, if it does.
pub open spec fn start_refusal(
    station: StationStateView,
    connector_id: ConnectorIdView,
) -> Option<SessionErrorView> {
    if !connector_exists(station_chargers(station), connector_id) {
        Some(SessionErrorView::ConnectorNotFound { connector_id })
    } else if connector_in_use(station.sessions, connector_id) {
        Some(SessionErrorView::ConnectorAlreadyInUse { connector_id })
    } else {
        None
    }
}

/// The session `session` as the station admits it: with its part of the
/// allocation, but no more than its charger could still deliver.
pub open spec fn admitted(station: StationStateView, session: SessionView) -> SessionView {
    with_allocation(
        session,
        new_session_allocation(
            station.sessions,
            station_chargers(station),
            station.config.grid_capacity,
            charger_remaining(station, session.connector_id.charger_id),
            session,
        ),
    )
}

/// The station once `session` has been entered among its sessions.
pub open spec fn entered(station: StationStateView, session: SessionView) -> StationStateView {
    StationStateView { sessions: with_session(station.sessions, session), ..station }
}

/// What a session declares when its vehicle reports to draw `consumed`: a
/// vehicle that draws less than it holds will accept no more than it draws.
pub open spec fn reported(session: SessionView, consumed: nat) -> SessionView {
    if consumed < session.allocated_power {
        SessionView { vehicle_max_power: consumed, ..session }
    } else {
        session
    }
}

/// The session at place `i` after its vehicle reported to draw `consumed`:
/// with its part of the allocation, but no more than its charger could still
/// deliver beside what the session holds already.
pub open spec fn updated(station: StationStateView, i: int, consumed: nat) -> SessionView {
    let previous = station.sessions[i];
    let working = reported(previous, consumed);
    with_allocation(
        working,
        new_session_allocation(
            station.sessions,
            station_chargers(station),
            station.config.grid_capacity,
            charger_remaining(station, previous.connector_id.charger_id)
                + previous.allocated_power,
            working,
        ),
    )
}

/// The station without the session `session_id`.
pub open spec fn stopped(station: StationStateView, session_id: u128) -> StationStateView {
    match position_of(station.sessions, session_id) {
        Some(i) => StationStateView { sessions: station.sessions.remove(i), ..station },
        None => station,
    }
}

/// A station stays as it should be when a session takes the place of
/// another of the same id, on a connector that exists and that no other
/// session holds, with no more than its vehicle accepts and no more than its
/// charger could still deliver beside what the session it replaces held
/// there.
pub proof fn lemma_replace_keeps_invariant(station: StationStateView, i: int, session: SessionView)
    requires
        station_invariant(station),
        0 <= i < station.sessions.len(),
        session.session_id == station.sessions[i].session_id,
        connector_exists(station_chargers(station), session.connector_id),
        forall|j: int|
            0 <= j < station.sessions.len() && j != i ==> (
            #[trigger] station.sessions[j]).connector_id != session.connector_id,
        session.allocated_power <= session.vehicle_max_power,
        session.allocated_power <= charger_remaining(station, session.connector_id.charger_id)
            + power_on(station.sessions[i], session.connector_id.charger_id),
    ensures
        station_invariant(
            StationStateView { sessions: station.sessions.update(i, session), ..station },
        ),
{
    let before = station.sessions;
    let after = before.update(i, session);
    let chargers = station_chargers(station);
    let home = session.connector_id.charger_id;
    lemma_update_totals(before, i, session, home);
    lemma_member_within_group(before, i);
    lemma_group_total_le(before, before[i].connector_id.charger_id);
    assert(group_total(before, home) <= limit_of(chargers, home));
    assert forall|id: Seq<char>| #[trigger] group_total(after, id) <= limit_of(chargers, id) by {
        lemma_update_totals(before, i, session, id);
        assert(group_total(before, id) <= limit_of(chargers, id));
    }
    assert forall|a: int, b: int| 0 <= a < b < after.len() implies (
    #[trigger] after[a]).session_id != (#[trigger] after[b]).session_id by {
        assert(before[a].session_id != before[b].session_id);
    }
    assert forall|a: int, b: int| 0 <= a < b < after.len() implies (
    #[trigger] after[a]).connector_id != (#[trigger] after[b]).connector_id by {
        assert(before[a].connector_id != before[b].connector_id);
    }
    assert forall|a: int| 0 <= a < after.len() implies connector_exists(
        chargers,
        (#[trigger] after[a]).connector_id,
    ) by {
        if a != i {
            assert(connector_exists(chargers, before[a].connector_id));
        }
    }
    assert forall|a: int| 0 <= a < after.len() implies (#[trigger] after[a]).allocated_power
        <= after[a].vehicle_max_power by {
        if a != i {
            assert(before[a].allocated_power <= before[a].vehicle_max_power);
        }
    }
}

/// A station stays as it should be when a session of a new id is added on a
/// connector that exists and that no session holds, with no more than its
/// vehicle accepts and no more than its charger could still deliver.
pub proof fn lemma_add_keeps_invariant(station: StationStateView, session: SessionView)
    requires
        station_invariant(station),
        position_of(station.sessions, session.session_id) is None,
        start_refusal(station, session.connector_id) is None,
        session.allocated_power <= session.vehicle_max_power,
        session.allocated_power <= charger_remaining(station, session.connector_id.charger_id),
    ensures
        station_invariant(
            StationStateView { sessions: station.sessions.push(session), ..station },
        ),
{
    let before = station.sessions;
    let after = before.push(session);
    let chargers = station_chargers(station);
    let home = session.connector_id.charger_id;
    lemma_position_of(before, session.session_id);
    lemma_push_totals(before, session, home);
    assert(group_total(before, home) <= limit_of(chargers, home));
    assert forall|id: Seq<char>| #[trigger] group_total(after, id) <= limit_of(chargers, id) by {
        lemma_push_totals(before, session, id);
        assert(group_total(before, id) <= limit_of(chargers, id));
    }
    assert forall|a: int, b: int| 0 <= a < b < after.len() implies (
    #[trigger] after[a]).session_id != (#[trigger] after[b]).session_id by {
        if b < before.len() {
            assert(before[a].session_id != before[b].session_id);
        } else {
            assert(before[a].session_id != session.session_id);
        }
    }
    assert forall|a: int, b: int| 0 <= a < b < after.len() implies (
    #[trigger] after[a]).connector_id != (#[trigger] after[b]).connector_id by {
        if b < before.len() {
            assert(before[a].connector_id != before[b].connector_id);
        } else {
            assert(before[a].connector_id != session.connector_id);
        }
    }
    assert forall|a: int| 0 <= a < after.len() implies connector_exists(
        chargers,
        (#[trigger] after[a]).connector_id,
    ) by {
        if a < before.len() {
            assert(connector_exists(chargers, before[a].connector_id));
        }
    }
    assert forall|a: int| 0 <= a < after.len() implies (#[trigger] after[a]).allocated_power
        <= after[a].vehicle_max_power by {
        if a < before.len() {
            assert(before[a].allocated_power <= before[a].vehicle_max_power);
        }
    }
}

/// A station stays as it should be when a session leaves.
pub proof fn lemma_remove_keeps_invariant(station: StationStateView, i: int)
    requires
        station_invariant(station),
        0 <= i < station.sessions.len(),
    ensures
        station_invariant(StationStateView { sessions: station.sessions.remove(i), ..station }),
{
    let before = station.sessions;
    let after = before.remove(i);
    let chargers = station_chargers(station);
    lemma_remove_totals(before, i, before[i].connector_id.charger_id);
    assert forall|a: int| 0 <= a < after.len() implies #[trigger] after[a] == before[if a < i {
        a
    } else {
        a + 1
    }] by {}
    assert forall|id: Seq<char>| #[trigger] group_total(after, id) <= limit_of(chargers, id) by {
        lemma_remove_totals(before, i, id);
        assert(group_total(before, id) <= limit_of(chargers, id));
    }
    assert forall|a: int, b: int| 0 <= a < b < after.len() implies (
    #[trigger] after[a]).session_id != (#[trigger] after[b]).session_id by {
        let x = if a < i { a } else { a + 1 };
        let y = if b < i { b } else { b + 1 };
        assert(before[x].session_id != before[y].session_id);
    }
    assert forall|a: int, b: int| 0 <= a < b < after.len() implies (
    #[trigger] after[a]).connector_id != (#[trigger] after[b]).connector_id by {
        let x = if a < i { a } else { a + 1 };
        let y = if b < i { b } else { b + 1 };
        assert(before[x].connector_id != before[y].connector_id);
    }
    assert forall|a: int| 0 <= a < after.len() implies connector_exists(
        chargers,
        (#[trigger] after[a]).connector_id,
    ) by {
        let x = if a < i { a } else { a + 1 };
        assert(connector_exists(chargers, before[x].connector_id));
    }
    assert forall|a: int| 0 <= a < after.len() implies (#[trigger] after[a]).allocated_power
        <= after[a].vehicle_max_power by {
        let x = if a < i { a } else { a + 1 };
        assert(before[x].allocated_power <= before[x].vehicle_max_power);
    }
}

/// Once a session is stopped the station has it no more, and has every other
/// session as it was.
pub proof fn lemma_stopped_is_gone(station: StationStateView, session_id: u128)
    requires
        station_invariant(station),
    ensures
        position_of(stopped(station, session_id).sessions, session_id) is None,
        forall|j: int|
            0 <= j < station.sessions.len() && (#[trigger] station.sessions[j]).session_id
                != session_id ==> exists|k: int|
                0 <= k < stopped(station, session_id).sessions.len() && stopped(
                    station,
                    session_id,
                ).sessions[k] == station.sessions[j],
{
    let before = station.sessions;
    let after = stopped(station, session_id).sessions;
    lemma_position_of(before, session_id);
    lemma_position_of(after, session_id);
    match position_of(before, session_id) {
        Some(i) => {
            assert forall|k: int| 0 <= k < after.len() implies (#[trigger] after[k]).session_id
                != session_id by {
                if k < i {
                    assert(before[k].session_id != before[i].session_id);
                } else {
                    assert(before[i].session_id != before[k + 1].session_id);
                }
            }
            assert forall|j: int|
                0 <= j < before.len() && (#[trigger] before[j]).session_id
                    != session_id implies exists|k: int|
                0 <= k < after.len() && after[k] == before[j] by {
                let k = if j < i {
                    j
                } else {
                    j - 1
                };
                assert(after[k] == before[j]);
            }
        },
        None => {
            assert forall|j: int|
                0 <= j < before.len() && (#[trigger] before[j]).session_id
                    != session_id implies exists|k: int|
                0 <= k < after.len() && after[k] == before[j] by {
                assert(after[j] == before[j]);
            }
        },
    }
}

/// A station in operation: its configuration, the charger table derived
/// from it, and the sessions that are active. Whatever is done to it, it
/// satisfies [`station_invariant`].
#[derive(Debug)]
pub struct StationState {
    config: StationConfig,
    sessions: Vec<Session>,
    chargers: ChargerTable,
}

impl View for StationState {
    type V = StationStateView;

    closed spec fn view(&self) -> StationStateView {
        StationStateView { config: self.config@, sessions: session_views(self.sessions@) }
    }
}

impl StationState {
    /// The charger table is that of the configuration, and the station is as
    /// [`station_invariant`] says.
    #[verifier::type_invariant]
    pub closed spec fn well_formed(self) -> bool {
        &&& self.chargers@ == station_chargers(self@)
        &&& station_invariant(self@)
    }

    /// A station with the given configuration and no session.
    pub fn new(config: StationConfig) -> (state: StationState)
        ensures
            state@ == (StationStateView { config: config@, sessions: Seq::empty() }),
            station_invariant(state@),
    {
        let chargers = ChargerTable::from_chargers(config.chargers.as_slice());
        let state = StationState { config, sessions: Vec::new(), chargers };
        proof {
            assert(state@.sessions =~= Seq::<SessionView>::empty());
            assert(station_invariant(state@));
        }
        state
    }

    /// The configuration that the station was made with.
    pub fn get_config(&self) -> (config: &StationConfig)
        ensures
            config@ == self@.config,
    {
        &self.config
    }

    /// The sessions that are active.
    pub fn get_sessions(&self) -> (sessions: &Vec<Session>)
        ensures
            session_views(sessions@) == self@.sessions,
            station_invariant(self@),
    {
        proof {
            use_type_invariant(self);
        }
        &self.sessions
    }

    /// The power that the sessions hold, all together.
    pub fn station_allocated_power(&self) -> (total: u32)
        ensures
            total == total_allocated(self@.sessions),
    {
        proof {
            use_type_invariant(self);
        }
        allocated_power_of(self.sessions.as_slice())
    }

    /// What the station could still hand out.
    pub fn station_remaining_capacity(&self) -> (remaining: u32)
        ensures
            remaining == station_remaining(self@),
    {
        proof {
            use_type_invariant(self);
        }
        self.config.grid_capacity - self.station_allocated_power()
    }

    /// What the charger `charger_id` could still deliver; nothing where the
    /// station has no such charger.
    pub fn charger_remaining_capacity(&self, charger_id: &String) -> (remaining: u32)
        ensures
            remaining == charger_remaining(self@, charger_id@),
            remaining + group_total(self@.sessions, charger_id@) <= u32::MAX,
    {
        proof {
            use_type_invariant(self);
            lemma_group_total_le(self@.sessions, charger_id@);
            assert(group_total(self@.sessions, charger_id@) <= limit_of(
                station_chargers(self@),
                charger_id@,
            ));
        }
        let station_remaining = self.station_remaining_capacity();
        let free = match self.chargers.get(charger_id) {
            Some(charger) => {
                let group = sessions_on(self.sessions.as_slice(), charger_id);
                charger.max_power - allocated_power_of(group.as_slice())
            },
            None => 0,
        };
        if free < station_remaining {
            free
        } else {
            station_remaining
        }
    }

    /// Whether a session may start on the connector, and if not, why.
    fn check_connector(&self, connector_id: &ConnectorId) -> (verdict: Result<(), SessionError>)
        ensures
            match verdict {
                Ok(_) => start_refusal(self@, connector_id@) is None,
                Err(error) => start_refusal(self@, connector_id@) == Some(error@),
            },
    {
        proof {
            use_type_invariant(self);
        }
        let exists = match self.chargers.get(&connector_id.charger_id) {
            Some(charger) => 1 <= connector_id.idx && connector_id.idx <= charger.connectors,
            None => false,
        };
        if !exists {
            return Err(SessionError::ConnectorNotFound { connector_id: connector_id.clone() });
        }
        let ghost views = self@.sessions;
        let mut i: usize = 0;
        while i < self.sessions.len()
            invariant
                i <= self.sessions.len(),
                views == session_views(self.sessions@),
                views == self@.sessions,
                connector_exists(station_chargers(self@), connector_id@),
                forall|j: int| 0 <= j < i ==> (#[trigger] views[j]).connector_id != connector_id@,
            decreases self.sessions.len() - i,
        {
            if self.sessions[i].connector_id.same_as(connector_id) {
                assert(views[i as int].connector_id == connector_id@);
                assert(connector_in_use(views, connector_id@));
                return Err(
                    SessionError::ConnectorAlreadyInUse { connector_id: connector_id.clone() },
                );
            }
            i += 1;
        }
        Ok(())
    }

    /// Admits `session`: it gets its part of the allocation, but no more than
    /// its charger could still deliver, and is entered among the sessions.
    fn enter(&mut self, session: Session) -> (granted: Session)
        requires
            start_refusal(old(self)@, session@.connector_id) is None,
        ensures
            granted@ == admitted(old(self)@, session@),
            final(self)@ == entered(old(self)@, granted@),
            station_invariant(final(self)@),
    {
        proof {
            use_type_invariant(&*self);
        }
        let ghost station = self@;
        let ghost before = self@.sessions;
        let ghost chargers = station_chargers(station);
        let hardcap = self.charger_remaining_capacity(&session.connector_id.charger_id);
        let copy = self.sessions.clone();
        assert(copy@ =~= self.sessions@);
        let granted = allocate_for_new_session(
            copy,
            &self.chargers,
            self.config.grid_capacity,
            hardcap,
            &session,
        );
        let found = find_session(self.sessions.as_slice(), granted.session_id);
        proof {
            lemma_position_of(before, session.session_id);
            match position_of(before, session.session_id) {
                Some(i) => {
                    assert forall|j: int| 0 <= j < before.len() && j != i implies (
                    #[trigger] before[j]).connector_id != granted@.connector_id by {
                        if before[j].connector_id == granted@.connector_id {
                            assert(connector_in_use(before, granted@.connector_id));
                        }
                    }
                    lemma_replace_keeps_invariant(station, i, granted@);
                },
                None => {
                    lemma_add_keeps_invariant(station, granted@);
                },
            }
        }
        let mut sessions: Vec<Session> = Vec::new();
        std::mem::swap(&mut sessions, &mut self.sessions);
        match found {
            Some(i) => {
                sessions.set(i, granted.clone());
            },
            None => {
                sessions.push(granted.clone());
            },
        }
        assert(session_views(sessions@) =~= with_session(before, granted@));
        self.sessions = sessions;
        granted
    }

    /// Starts a session on the connector, under the identifier given.
    ///
    /// The station refuses a connector that does not exist, and one that a
    /// session holds. Otherwise the session is admitted with its part of the
    /// allocation, but no more than its charger could still deliver: the
    /// other sessions keep what they hold.
    pub fn start_session_with_id(
        &mut self,
        connector_id: ConnectorId,
        vehicle_max_power: u32,
        session_id: u128,
    ) -> (result: Result<Session, SessionError>)
        ensures
            station_invariant(final(self)@),
            match start_refusal(old(self)@, connector_id@) {
                Some(refusal) => {
                    &&& result matches Err(error)
                    &&& error@ == refusal
                    &&& final(self)@ == old(self)@
                },
                None => {
                    &&& result matches Ok(session)
                    &&& session@ == admitted(
                        old(self)@,
                        minted(session_id, connector_id@, vehicle_max_power as nat),
                    )
                    &&& final(self)@ == entered(old(self)@, session@)
                },
            },
    {
        proof {
            use_type_invariant(&*self);
        }
        match self.check_connector(&connector_id) {
            Err(error) => Err(error),
            Ok(_) => {
                let session = Session {
                    session_id,
                    connector_id,
                    allocated_power: 0,
                    vehicle_max_power,
                };
                Ok(self.enter(session))
            },
        }
    }

    /// Starts a session on the connector, under an identifier drawn at
    /// random.
    ///
    /// The station refuses a connector that does not exist, and one that a
    /// session holds. Otherwise the session is admitted with its part of the
    /// allocation, but no more than its charger could still deliver: the
    /// other sessions keep what they hold.
    pub fn start_session(&mut self, connector_id: ConnectorId, vehicle_max_power: u32) -> (result:
        Result<Session, SessionError>)
        ensures
            station_invariant(final(self)@),
            match result {
                Err(error) => {
                    &&& start_refusal(old(self)@, connector_id@) == Some(error@)
                    &&& final(self)@ == old(self)@
                },
                Ok(session) => {
                    &&& start_refusal(old(self)@, connector_id@) is None
                    &&& session@ == admitted(
                        old(self)@,
                        minted(session.session_id, connector_id@, vehicle_max_power as nat),
                    )
                    &&& final(self)@ == entered(old(self)@, session@)
                },
            },
    {
        proof {
            use_type_invariant(&*self);
        }
        match self.check_connector(&connector_id) {
            Err(error) => Err(error),
            Ok(_) => {
                let session = Session::new(connector_id, vehicle_max_power);
                Ok(self.enter(session))
            },
        }
    }

    /// Ends the session `session_id`, if the station has it. The other
    /// sessions keep what they hold.
    pub fn stop_session(&mut self, session_id: u128)
        ensures
            final(self)@ == stopped(old(self)@, session_id),
            station_invariant(final(self)@),
    {
        proof {
            use_type_invariant(&*self);
            lemma_position_of(self@.sessions, session_id);
        }
        let ghost station = self@;
        match find_session(self.sessions.as_slice(), session_id) {
            Some(i) => {
                proof {
                    lemma_remove_keeps_invariant(station, i as int);
                }
                let mut sessions: Vec<Session> = Vec::new();
                std::mem::swap(&mut sessions, &mut self.sessions);
                sessions.remove(i);
                assert(session_views(sessions@) =~= station.sessions.remove(i as int));
                self.sessions = sessions;
            },
            None => {},
        }
    }

    /// Takes in what the vehicle of the session `session_id` reports to draw.
    ///
    /// The station refuses a session that it does not have. A vehicle that
    /// draws less than its session holds will accept no more than it draws.
    /// The session then gets its part of the allocation, but no more than its
    /// charger could still deliver beside what the session holds already: the
    /// other sessions keep what they hold.
    pub fn power_update(&mut self, session_id: u128, consumed_power: u32) -> (result: Result<
        Session,
        SessionError,
    >)
        ensures
            station_invariant(final(self)@),
            match position_of(old(self)@.sessions, session_id) {
                None => {
                    &&& result matches Err(error)
                    &&& error@ == (SessionErrorView::SessionNotFound { session_id })
                    &&& final(self)@ == old(self)@
                },
                Some(i) => {
                    &&& result matches Ok(session)
                    &&& session@ == updated(old(self)@, i, consumed_power as nat)
                    &&& final(self)@ == (StationStateView {
                        sessions: old(self)@.sessions.update(i, session@),
                        ..old(self)@
                    })
                },
            },
    {
        proof {
            use_type_invariant(&*self);
            lemma_position_of(self@.sessions, session_id);
        }
        let ghost station = self@;
        let ghost before = self@.sessions;
        let ghost chargers = station_chargers(station);
        let i = match find_session(self.sessions.as_slice(), session_id) {
            Some(i) => i,
            None => {
                return Err(SessionError::SessionNotFound { session_id });
            },
        };
        let previous = &self.sessions[i];
        let declared = if consumed_power < previous.allocated_power {
            consumed_power
        } else {
            previous.vehicle_max_power
        };
        let working = Session {
            session_id: previous.session_id,
            connector_id: previous.connector_id.clone(),
            allocated_power: previous.allocated_power,
            vehicle_max_power: declared,
        };
        assert(working@ == reported(before[i as int], consumed_power as nat));
        proof {
            lemma_member_within_group(before, i as int);
            assert(group_total(before, before[i as int].connector_id.charger_id) <= limit_of(
                chargers,
                before[i as int].connector_id.charger_id,
            ));
        }
        let hardcap = self.charger_remaining_capacity(&previous.connector_id.charger_id)
            + previous.allocated_power;
        let copy = self.sessions.clone();
        assert(copy@ =~= self.sessions@);
        let reallocated = allocate_for_new_session(
            copy,
            &self.chargers,
            self.config.grid_capacity,
            hardcap,
            &working,
        );
        proof {
            assert(place_of(before, working@) == i);
            assert forall|j: int| 0 <= j < before.len() && j != i implies (
            #[trigger] before[j]).connector_id != reallocated@.connector_id by {
                if j < i {
                    assert(before[j].connector_id != before[i as int].connector_id);
                } else {
                    assert(before[i as int].connector_id != before[j].connector_id);
                }
            }
            assert(connector_exists(chargers, before[i as int].connector_id));
            lemma_replace_keeps_invariant(station, i as int, reallocated@);
        }
        let mut sessions: Vec<Session> = Vec::new();
        std::mem::swap(&mut sessions, &mut self.sessions);
        sessions.set(i, reallocated.clone());
        assert(session_views(sessions@) =~= before.update(i as int, reallocated@));
        self.sessions = sessions;
        Ok(reallocated)
    }
}

} // verus!
