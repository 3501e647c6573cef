//! What the allocator guarantees: ceilings, fairness, and that allocating
//! again changes nothing.

use vstd::prelude::*;
use crate::allocator::{
    charger_active, connector_allocation, demand, lemma_round_total,
    lemma_station_allocation_bindings, next_allocation, raised_target, remaining_under, settle,
    shared_out, station_allocation, station_round,
};
use crate::chargers::{distinct_ids, lemma_index_of, limit_of, lookup};
use crate::groups::{
    at_level, caps_of, cleared, group_of, group_total, lemma_at_level_totals, lemma_cleared_total,
    lemma_group_at_level, lemma_group_member, lemma_group_same, lemma_group_same_bindings,
    lemma_group_total_le, open_sessions, rank_in_group, same_bindings, total_allocated,
};
use crate::models::{ChargerConfigView, SessionView, with_allocation};
use crate::water::{capped, lemma_water_level_covers, lemma_water_level_settled, water_level};

verus! {

/// No session holds more than its vehicle accepts.
pub open spec fn within_vehicle_limits(sessions: Seq<SessionView>) -> bool {
    forall|i: int|
        0 <= i < sessions.len() ==> (#[trigger] sessions[i]).allocated_power
            <= sessions[i].vehicle_max_power
}

/// No charger delivers more than its rating; nothing is delivered on a
/// charger that `chargers` does not hold.
pub open spec fn within_charger_limits(
    sessions: Seq<SessionView>,
    chargers: Seq<ChargerConfigView>,
) -> bool {
    forall|id: Seq<char>| #[trigger] group_total(sessions, id) <= limit_of(chargers, id)
}

/// Every session on the charger `id` holds what its vehicle accepts, up to
/// `level`.
pub open spec fn charger_at_level(sessions: Seq<SessionView>, id: Seq<char>, level: nat) -> bool {
    forall|i: int|
        0 <= i < sessions.len() && (#[trigger] sessions[i]).connector_id.charger_id == id
            ==> sessions[i].allocated_power == capped(sessions[i].vehicle_max_power, level)
}

/// The sessions on the charger `id` stand at one level.
pub open spec fn charger_levelled(sessions: Seq<SessionView>, id: Seq<char>) -> bool {
    exists|level: nat| charger_at_level(sessions, id, level)
}

/// On every charger the sessions stand at one level.
pub open spec fn levelled(sessions: Seq<SessionView>) -> bool {
    forall|id: Seq<char>| #[trigger] charger_levelled(sessions, id)
}

/// What a round leaves on one charger: no more than its rating, and its
/// sessions at one level.
proof fn lemma_round_on_charger(
    sessions: Seq<SessionView>,
    chargers: Seq<ChargerConfigView>,
    share: nat,
    id: Seq<char>,
)
    requires
        within_charger_limits(sessions, chargers),
        levelled(sessions),
    ensures
        group_total(shared_out(sessions, chargers, share), id) <= limit_of(chargers, id),
        charger_levelled(shared_out(sessions, chargers, share), id),
{
    let next = shared_out(sessions, chargers, share);
    lemma_index_of(chargers, id);
    let active = match lookup(chargers, id) {
        Some(charger) => charger_active(sessions, charger),
        None => false,
    };
    if active {
        let charger = lookup(chargers, id)->0;
        let caps = caps_of(group_of(sessions, id));
        let target = raised_target(sessions, charger, share);
        let level = water_level(caps, target);
        assert(charger_at_level(next, id, level)) by {
            assert forall|i: int|
                0 <= i < next.len() && (#[trigger] next[i]).connector_id.charger_id
                    == id implies next[i].allocated_power == capped(
                next[i].vehicle_max_power,
                level,
            ) by {
                assert(next[i] == with_allocation(
                    sessions[i],
                    next_allocation(sessions, chargers, share, sessions[i]),
                ));
            }
        }
        lemma_group_at_level(next, id, level);
        lemma_at_level_totals(group_of(next, id), level);
        lemma_group_same_bindings(next, sessions, id);
        lemma_water_level_settled(caps, target);
    } else {
        assert forall|i: int|
            0 <= i < sessions.len() && (#[trigger] sessions[i]).connector_id.charger_id
                == id implies next[i] == sessions[i] by {
            assert(next[i] == with_allocation(
                sessions[i],
                next_allocation(sessions, chargers, share, sessions[i]),
            ));
        }
        assert(same_bindings(sessions, next)) by {
            assert forall|i: int| 0 <= i < sessions.len() implies with_allocation(
                #[trigger] sessions[i],
                0,
            ) == with_allocation(next[i], 0) by {
                assert(with_allocation(next[i], 0) == with_allocation(sessions[i], 0));
            }
        }
        lemma_group_same(sessions, next, id);
        assert(group_total(sessions, id) <= limit_of(chargers, id));
        assert(charger_levelled(sessions, id));
        let level = choose|level: nat| charger_at_level(sessions, id, level);
        assert(charger_at_level(next, id, level)) by {
            assert forall|i: int|
                0 <= i < next.len() && (#[trigger] next[i]).connector_id.charger_id
                    == id implies next[i].allocated_power == capped(
                next[i].vehicle_max_power,
                level,
            ) by {
                assert(with_allocation(next[i], 0) == with_allocation(sessions[i], 0));
                assert(next[i] == sessions[i]);
            }
        }
    }
}

/// A round keeps the sessions within their vehicles' limits and the chargers
/// within their ratings, and leaves the sessions of each charger at one level.
pub proof fn lemma_round_keeps_limits(
    sessions: Seq<SessionView>,
    chargers: Seq<ChargerConfigView>,
    ceiling: nat,
)
    requires
        within_vehicle_limits(sessions),
        within_charger_limits(sessions, chargers),
        levelled(sessions),
    ensures
        within_vehicle_limits(station_round(sessions, chargers, ceiling)),
        within_charger_limits(station_round(sessions, chargers, ceiling), chargers),
        levelled(station_round(sessions, chargers, ceiling)),
{
    let next = station_round(sessions, chargers, ceiling);
    if next != sessions {
        let remaining = remaining_under(sessions, ceiling);
        let wanting = demand(sessions, chargers);
        let share = remaining / wanting;
        assert(next == shared_out(sessions, chargers, share));
        assert(same_bindings(next, sessions));
        assert forall|i: int| 0 <= i < next.len() implies (#[trigger] next[i]).allocated_power
            <= next[i].vehicle_max_power by {
            assert(sessions[i].allocated_power <= sessions[i].vehicle_max_power);
        }
        assert forall|id: Seq<char>| #[trigger]
            group_total(next, id) <= limit_of(chargers, id) by {
            lemma_round_on_charger(sessions, chargers, share, id);
        }
        assert forall|id: Seq<char>| #[trigger] charger_levelled(next, id) by {
            lemma_round_on_charger(sessions, chargers, share, id);
        }
    }
}

/// Settling keeps the sessions within their vehicles' limits, the chargers
/// within their ratings and the station under its ceiling, and leaves the
/// sessions of each charger at one level.
pub proof fn lemma_settle_keeps_limits(
    sessions: Seq<SessionView>,
    chargers: Seq<ChargerConfigView>,
    ceiling: nat,
)
    requires
        within_vehicle_limits(sessions),
        within_charger_limits(sessions, chargers),
        levelled(sessions),
        total_allocated(sessions) <= ceiling,
    ensures
        within_vehicle_limits(settle(sessions, chargers, ceiling)),
        within_charger_limits(settle(sessions, chargers, ceiling), chargers),
        levelled(settle(sessions, chargers, ceiling)),
        total_allocated(settle(sessions, chargers, ceiling)) <= ceiling,
    decreases ceiling - total_allocated(sessions),
{
    let next = station_round(sessions, chargers, ceiling);
    if total_allocated(sessions) < total_allocated(next) <= ceiling {
        lemma_round_keeps_limits(sessions, chargers, ceiling);
        lemma_settle_keeps_limits(next, chargers, ceiling);
    }
}

/// The station's allocation respects the three ceilings: no session holds
/// more than its vehicle accepts, no charger delivers more than its rating,
/// and the sessions together hold no more than the station's ceiling.
pub proof fn lemma_station_allocation_within_limits(
    sessions: Seq<SessionView>,
    chargers: Seq<ChargerConfigView>,
    ceiling: nat,
)
    ensures
        within_vehicle_limits(station_allocation(sessions, chargers, ceiling)),
        within_charger_limits(station_allocation(sessions, chargers, ceiling), chargers),
        total_allocated(station_allocation(sessions, chargers, ceiling)) <= ceiling,
        levelled(station_allocation(sessions, chargers, ceiling)),
{
    let start = cleared(sessions);
    lemma_cleared_total(sessions);
    assert forall|id: Seq<char>| #[trigger]
        group_total(start, id) <= limit_of(chargers, id) by {
        lemma_group_total_le(start, id);
    }
    assert forall|id: Seq<char>| #[trigger] charger_levelled(start, id) by {
        assert(charger_at_level(start, id, 0));
    }
    lemma_settle_keeps_limits(start, chargers, ceiling);
}

/// Within a charger the station's allocation is fair: two sessions on one
/// charger that both hold less than their vehicles accept hold the same.
pub proof fn lemma_station_allocation_fair(
    sessions: Seq<SessionView>,
    chargers: Seq<ChargerConfigView>,
    ceiling: nat,
    i: int,
    j: int,
)
    requires
        0 <= i < sessions.len(),
        0 <= j < sessions.len(),
        sessions[i].connector_id.charger_id == sessions[j].connector_id.charger_id,
        station_allocation(sessions, chargers, ceiling)[i].allocated_power
            < sessions[i].vehicle_max_power,
        station_allocation(sessions, chargers, ceiling)[j].allocated_power
            < sessions[j].vehicle_max_power,
    ensures
        station_allocation(sessions, chargers, ceiling)[i].allocated_power == station_allocation(
            sessions,
            chargers,
            ceiling,
        )[j].allocated_power,
{
    let out = station_allocation(sessions, chargers, ceiling);
    let id = sessions[i].connector_id.charger_id;
    lemma_station_allocation_within_limits(sessions, chargers, ceiling);
    lemma_station_allocation_bindings(sessions, chargers, ceiling);
    assert(with_allocation(out[i], 0) == with_allocation(sessions[i], 0));
    assert(with_allocation(out[j], 0) == with_allocation(sessions[j], 0));
    assert(charger_levelled(out, id));
    let level = choose|level: nat| charger_at_level(out, id, level);
    assert(out[i].allocated_power == capped(out[i].vehicle_max_power, level));
    assert(out[j].allocated_power == capped(out[j].vehicle_max_power, level));
}

/// Allocating again changes nothing: the station's allocation of what the
/// station's allocation gave is that same allocation.
pub proof fn lemma_station_allocation_idempotent(
    sessions: Seq<SessionView>,
    chargers: Seq<ChargerConfigView>,
    ceiling: nat,
)
    ensures
        station_allocation(station_allocation(sessions, chargers, ceiling), chargers, ceiling)
            == station_allocation(sessions, chargers, ceiling),
{
    let out = station_allocation(sessions, chargers, ceiling);
    lemma_station_allocation_bindings(sessions, chargers, ceiling);
    assert(cleared(out) =~= cleared(sessions)) by {
        assert forall|i: int| 0 <= i < out.len() implies cleared(out)[i] == cleared(sessions)[i] by {
            assert(with_allocation(out[i], 0) == with_allocation(sessions[i], 0));
        }
    }
}

/// Sharing one charger's capacity keeps every session's id, connector and
/// vehicle limit, and respects the capacity and the vehicles' limits. What is
/// left unassigned is less than one kW for each session that could take
/// more. The sharing is fair: two sessions that both hold less than their
/// vehicles accept hold the same.
pub proof fn lemma_connector_allocation(sessions: Seq<SessionView>, capacity: nat)
    ensures
        same_bindings(connector_allocation(sessions, capacity), sessions),
        within_vehicle_limits(connector_allocation(sessions, capacity)),
        total_allocated(connector_allocation(sessions, capacity)) <= capacity,
        open_sessions(connector_allocation(sessions, capacity)) == 0 || capacity - total_allocated(
            connector_allocation(sessions, capacity),
        ) < open_sessions(connector_allocation(sessions, capacity)),
        forall|i: int, j: int|
            0 <= i < sessions.len() && 0 <= j < sessions.len() && (#[trigger] connector_allocation(
                sessions,
                capacity,
            )[i]).allocated_power < sessions[i].vehicle_max_power && (#[trigger] connector_allocation(
                sessions,
                capacity,
            )[j]).allocated_power < sessions[j].vehicle_max_power ==> connector_allocation(
                sessions,
                capacity,
            )[i].allocated_power == connector_allocation(sessions, capacity)[j].allocated_power,
{
    let out = connector_allocation(sessions, capacity);
    let caps = caps_of(sessions);
    let level = water_level(caps, capacity);
    lemma_water_level_settled(caps, capacity);
    assert(at_level(out, level));
    assert(caps_of(out) =~= caps);
    lemma_at_level_totals(out, level);
}

/// A round takes nothing away: every session holds at least what it held.
pub proof fn lemma_round_raises(
    sessions: Seq<SessionView>,
    chargers: Seq<ChargerConfigView>,
    ceiling: nat,
)
    requires
        levelled(sessions),
    ensures
        forall|i: int|
            0 <= i < sessions.len() ==> (#[trigger] sessions[i]).allocated_power <= station_round(
                sessions,
                chargers,
                ceiling,
            )[i].allocated_power,
{
    let next = station_round(sessions, chargers, ceiling);
    if next != sessions {
        let share = remaining_under(sessions, ceiling) / demand(sessions, chargers);
        assert(next == shared_out(sessions, chargers, share));
        assert forall|i: int| 0 <= i < sessions.len() implies (
        #[trigger] sessions[i]).allocated_power <= next[i].allocated_power by {
            let id = sessions[i].connector_id.charger_id;
            lemma_index_of(chargers, id);
            let active = match lookup(chargers, id) {
                Some(charger) => charger_active(sessions, charger),
                None => false,
            };
            if active {
                let charger = lookup(chargers, id)->0;
                let caps = caps_of(group_of(sessions, id));
                let target = raised_target(sessions, charger, share);
                assert(charger_levelled(sessions, id));
                let level = choose|level: nat| charger_at_level(sessions, id, level);
                lemma_group_at_level(sessions, id, level);
                lemma_at_level_totals(group_of(sessions, id), level);
                lemma_water_level_covers(caps, target, level);
                lemma_group_member(sessions, id, i);
                let r = rank_in_group(sessions, id, i);
                assert(caps[r] == sessions[i].vehicle_max_power);
                assert(capped(caps[r], level) <= capped(caps[r], water_level(caps, target)));
            }
        }
    }
}

/// Where each session of one run holds no more than its like in another, the
/// first run holds no more in all; and if the two hold the same in all, each
/// session holds what its like holds.
pub proof fn lemma_pointwise_totals(first: Seq<SessionView>, second: Seq<SessionView>)
    requires
        first.len() == second.len(),
        forall|i: int|
            0 <= i < first.len() ==> (#[trigger] first[i]).allocated_power
                <= second[i].allocated_power,
    ensures
        total_allocated(first) <= total_allocated(second),
        total_allocated(first) == total_allocated(second) ==> forall|i: int|
            0 <= i < first.len() ==> (#[trigger] first[i]).allocated_power
                == second[i].allocated_power,
    decreases first.len(),
{
    if first.len() > 0 {
        let a = first.drop_last();
        let b = second.drop_last();
        let n = first.len() - 1;
        assert forall|i: int| 0 <= i < a.len() implies (#[trigger] a[i]).allocated_power
            <= b[i].allocated_power by {
            assert(a[i] == first[i]);
            assert(b[i] == second[i]);
        }
        lemma_pointwise_totals(a, b);
        assert(first[n].allocated_power <= second[n].allocated_power);
        if total_allocated(first) == total_allocated(second) {
            assert forall|i: int| 0 <= i < first.len() implies (
            #[trigger] first[i]).allocated_power == second[i].allocated_power by {
                if i < n {
                    assert(a[i] == first[i]);
                    assert(b[i] == second[i]);
                    assert(a[i].allocated_power == b[i].allocated_power);
                }
            }
        }
    }
}

/// A round keeps the sessions under the station's ceiling.
pub proof fn lemma_round_within_ceiling(
    sessions: Seq<SessionView>,
    chargers: Seq<ChargerConfigView>,
    ceiling: nat,
)
    requires
        distinct_ids(chargers),
        total_allocated(sessions) <= ceiling,
    ensures
        total_allocated(station_round(sessions, chargers, ceiling)) <= ceiling,
{
    let next = station_round(sessions, chargers, ceiling);
    if next != sessions {
        let remaining = remaining_under(sessions, ceiling);
        let wanting = demand(sessions, chargers);
        let share = remaining / wanting;
        lemma_round_total(sessions, chargers, share);
        assert(share * wanting <= remaining) by (nonlinear_arith)
            requires
                share == remaining / wanting,
                wanting > 0,
        ;
    }
}

/// Settling ends on sessions that a further round leaves as they are.
pub proof fn lemma_settle_fixed_point(
    sessions: Seq<SessionView>,
    chargers: Seq<ChargerConfigView>,
    ceiling: nat,
)
    requires
        distinct_ids(chargers),
        within_vehicle_limits(sessions),
        within_charger_limits(sessions, chargers),
        levelled(sessions),
        total_allocated(sessions) <= ceiling,
    ensures
        station_round(settle(sessions, chargers, ceiling), chargers, ceiling) == settle(
            sessions,
            chargers,
            ceiling,
        ),
    decreases ceiling - total_allocated(sessions),
{
    let next = station_round(sessions, chargers, ceiling);
    if total_allocated(sessions) < total_allocated(next) <= ceiling {
        lemma_round_keeps_limits(sessions, chargers, ceiling);
        lemma_settle_fixed_point(next, chargers, ceiling);
    } else {
        lemma_round_within_ceiling(sessions, chargers, ceiling);
        lemma_round_raises(sessions, chargers, ceiling);
        lemma_pointwise_totals(sessions, next);
        assert(same_bindings(next, sessions));
        assert(next =~= sessions) by {
            assert forall|i: int| 0 <= i < sessions.len() implies next[i] == sessions[i] by {
                assert(with_allocation(next[i], 0) == with_allocation(sessions[i], 0));
                assert(sessions[i].allocated_power == next[i].allocated_power);
            }
        }
    }
}

/// The station's allocation is where the rounds come to rest: one more round
/// changes nothing.
pub proof fn lemma_station_allocation_at_rest(
    sessions: Seq<SessionView>,
    chargers: Seq<ChargerConfigView>,
    ceiling: nat,
)
    requires
        distinct_ids(chargers),
    ensures
        station_round(station_allocation(sessions, chargers, ceiling), chargers, ceiling)
            == station_allocation(sessions, chargers, ceiling),
{
    let start = cleared(sessions);
    lemma_cleared_total(sessions);
    assert forall|id: Seq<char>| #[trigger]
        group_total(start, id) <= limit_of(chargers, id) by {
        lemma_group_total_le(start, id);
    }
    assert forall|id: Seq<char>| #[trigger] charger_levelled(start, id) by {
        assert(charger_at_level(start, id, 0));
    }
    lemma_settle_fixed_point(start, chargers, ceiling);
}

} // verus!
