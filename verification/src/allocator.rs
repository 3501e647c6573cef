//! The power allocator: a fair-share split of a station's capacity over its
//! chargers, and of each charger's share over its sessions.

use vstd::prelude::*;
use crate::chargers::{
    ChargerTable, distinct_ids, index_of, lemma_index_of, lemma_index_of_found, lookup,
};
use crate::groups::{
    at_level, caps_of, cleared, group_of, group_open, group_total, lemma_at_level_totals,
    lemma_cleared_total, lemma_group_at_level, lemma_group_member, lemma_group_same,
    lemma_group_same_bindings, lemma_group_step, lemma_group_total_le, lemma_position_of,
    lemma_position_of_found, lemma_regroup, lemma_total_prefix, open_sessions, place_of,
    position_of, rank_in_group, same_bindings, total_allocated, with_session,
};
use crate::guarantees::{
    lemma_connector_allocation, lemma_station_allocation_at_rest,
    lemma_station_allocation_within_limits, within_charger_limits, within_vehicle_limits,
};
use crate::models::{
    ChargerConfig, ChargerConfigView, Session, SessionView, charger_views, session_views,
    with_allocation,
};
use crate::water::{
    capped, filled, is_water_level, lemma_filled_raise, lemma_filled_zero,
    lemma_settled_is_water_fill, lemma_water_level_settled, water_fill, water_level,
};

verus! {

/// `sessions` after one charger's capacity was shared among them by
/// water-filling: the sessions are those given, each holding its share.
pub open spec fn connector_allocation(sessions: Seq<SessionView>, capacity: nat) -> Seq<
    SessionView,
> {
    Seq::new(
        sessions.len(),
        |i: int| with_allocation(sessions[i], water_fill(caps_of(sessions), capacity)[i]),
    )
}

/// A charger can take more: it delivers less than its rating, and a session
/// on it holds less than its vehicle accepts.
pub open spec fn charger_active(sessions: Seq<SessionView>, charger: ChargerConfigView) -> bool {
    &&& group_total(sessions, charger.id) < charger.max_power
    &&& group_open(sessions, charger.id) > 0
}

/// Over the chargers that can take more, how many sessions hold less than
/// their vehicle accepts.
pub open spec fn demand(sessions: Seq<SessionView>, chargers: Seq<ChargerConfigView>) -> nat
    decreases chargers.len(),
{
    if chargers.len() == 0 {
        0
    } else {
        demand(sessions, chargers.drop_last()) + if charger_active(sessions, chargers.last()) {
            group_open(sessions, chargers.last().id)
        } else {
            0
        }
    }
}

/// What a charger may deliver after a round that awards `share` to each of
/// its sessions that can take more: no more than its rating.
pub open spec fn raised_target(
    sessions: Seq<SessionView>,
    charger: ChargerConfigView,
    share: nat,
) -> nat {
    let wanted = group_total(sessions, charger.id) + share * group_open(sessions, charger.id);
    if wanted < charger.max_power {
        wanted
    } else {
        charger.max_power
    }
}

/// What `session` holds after a round with the given share: on a charger that
/// can take more, its part of the water-fill of the charger's sessions under
/// the charger's raised target; elsewhere, what it held.
pub open spec fn next_allocation(
    sessions: Seq<SessionView>,
    chargers: Seq<ChargerConfigView>,
    share: nat,
    session: SessionView,
) -> nat {
    match lookup(chargers, session.connector_id.charger_id) {
        Some(charger) => if charger_active(sessions, charger) {
            capped(
                session.vehicle_max_power,
                water_level(
                    caps_of(group_of(sessions, charger.id)),
                    raised_target(sessions, charger, share),
                ),
            )
        } else {
            session.allocated_power
        },
        None => session.allocated_power,
    }
}

/// The sessions after a round with the given share.
pub open spec fn shared_out(
    sessions: Seq<SessionView>,
    chargers: Seq<ChargerConfigView>,
    share: nat,
) -> Seq<SessionView> {
    sessions.map_values(
        |s: SessionView| with_allocation(s, next_allocation(sessions, chargers, share, s)),
    )
}

/// What is left of `ceiling` beside what `sessions` hold; nothing where they
/// hold more.
pub open spec fn remaining_under(sessions: Seq<SessionView>, ceiling: nat) -> nat {
    if total_allocated(sessions) < ceiling {
        (ceiling - total_allocated(sessions)) as nat
    } else {
        0
    }
}

/// One round of the station's allocation. What is left of the ceiling is
/// split into equal shares, one for each session that holds less than its
/// vehicle accepts on a charger that can take more. Where nothing is left, no
/// charger can take more, or the share is less than one kW, nothing changes.
pub open spec fn station_round(
    sessions: Seq<SessionView>,
    chargers: Seq<ChargerConfigView>,
    ceiling: nat,
) -> Seq<SessionView> {
    let remaining = remaining_under(sessions, ceiling);
    let wanting = demand(sessions, chargers);
    if remaining == 0 || wanting == 0 || remaining / wanting == 0 {
        sessions
    } else {
        shared_out(sessions, chargers, remaining / wanting)
    }
}

/// Rounds repeated for as long as they raise what the sessions hold.
pub open spec fn settle(
    sessions: Seq<SessionView>,
    chargers: Seq<ChargerConfigView>,
    ceiling: nat,
) -> Seq<SessionView>
    decreases ceiling - total_allocated(sessions),
{
    let next = station_round(sessions, chargers, ceiling);
    if total_allocated(sessions) < total_allocated(next) <= ceiling {
        settle(next, chargers, ceiling)
    } else {
        sessions
    }
}

/// What each session may draw: the sessions start from nothing, and rounds
/// are repeated for as long as they raise what the sessions hold. Where they
/// end, one more round would change nothing.
pub open spec fn station_allocation(
    sessions: Seq<SessionView>,
    chargers: Seq<ChargerConfigView>,
    ceiling: nat,
) -> Seq<SessionView> {
    settle(cleared(sessions), chargers, ceiling)
}

/// What a session entering `sessions` may draw at once: its part of the
/// station's allocation over all the sessions, itself among them, but no more
/// than `hardcap`.
pub open spec fn new_session_allocation(
    sessions: Seq<SessionView>,
    chargers: Seq<ChargerConfigView>,
    grid_capacity: nat,
    hardcap: nat,
    session: SessionView,
) -> nat {
    let ideal = station_allocation(with_session(sessions, session), chargers, grid_capacity)[place_of(
        sessions,
        session,
    )].allocated_power;
    if ideal < hardcap {
        ideal
    } else {
        hardcap
    }
}

/// A round keeps every session's id, connector and vehicle limit.
pub proof fn lemma_round_bindings(
    sessions: Seq<SessionView>,
    chargers: Seq<ChargerConfigView>,
    ceiling: nat,
)
    ensures
        same_bindings(station_round(sessions, chargers, ceiling), sessions),
{
}

/// Settling keeps every session's id, connector and vehicle limit.
pub proof fn lemma_settle_bindings(
    sessions: Seq<SessionView>,
    chargers: Seq<ChargerConfigView>,
    ceiling: nat,
)
    ensures
        same_bindings(settle(sessions, chargers, ceiling), sessions),
    decreases ceiling - total_allocated(sessions),
{
    let next = station_round(sessions, chargers, ceiling);
    if total_allocated(sessions) < total_allocated(next) <= ceiling {
        lemma_round_bindings(sessions, chargers, ceiling);
        lemma_settle_bindings(next, chargers, ceiling);
        let last = settle(next, chargers, ceiling);
        assert forall|i: int| 0 <= i < last.len() implies with_allocation(#[trigger] last[i], 0)
            == with_allocation(sessions[i], 0) by {
            assert(with_allocation(last[i], 0) == with_allocation(next[i], 0));
            assert(with_allocation(next[i], 0) == with_allocation(sessions[i], 0));
        }
    }
}

/// The station's allocation keeps every session's id, connector and vehicle
/// limit, in the order given.
pub proof fn lemma_station_allocation_bindings(
    sessions: Seq<SessionView>,
    chargers: Seq<ChargerConfigView>,
    ceiling: nat,
)
    ensures
        same_bindings(station_allocation(sessions, chargers, ceiling), sessions),
{
    lemma_settle_bindings(cleared(sessions), chargers, ceiling);
    let out = station_allocation(sessions, chargers, ceiling);
    assert forall|i: int| 0 <= i < out.len() implies with_allocation(#[trigger] out[i], 0)
        == with_allocation(sessions[i], 0) by {
        assert(with_allocation(out[i], 0) == with_allocation(cleared(sessions)[i], 0));
    }
}

/// The charger `id` stands in `chargers` before the place `upto`.
pub open spec fn stands_before(chargers: Seq<ChargerConfigView>, id: Seq<char>, upto: int) -> bool {
    match index_of(chargers, id) {
        Some(k) => k < upto,
        None => false,
    }
}

/// The sessions in the middle of a round: the chargers that stand before the
/// place `upto` in the table have had their turn.
pub open spec fn shared_out_upto(
    sessions: Seq<SessionView>,
    chargers: Seq<ChargerConfigView>,
    share: nat,
    upto: int,
) -> Seq<SessionView> {
    sessions.map_values(
        |s: SessionView|
            if stands_before(chargers, s.connector_id.charger_id, upto) {
                with_allocation(s, next_allocation(sessions, chargers, share, s))
            } else {
                s
            },
    )
}

/// In a round each charger that can take more gains no more than the shares
/// of its sessions that can take more.
pub proof fn lemma_round_total_upto(
    sessions: Seq<SessionView>,
    chargers: Seq<ChargerConfigView>,
    share: nat,
    upto: int,
)
    requires
        distinct_ids(chargers),
        0 <= upto <= chargers.len(),
    ensures
        total_allocated(shared_out_upto(sessions, chargers, share, upto)) <= total_allocated(
            sessions,
        ) + share * demand(sessions, chargers.take(upto)),
    decreases upto,
{
    if upto == 0 {
        assert(shared_out_upto(sessions, chargers, share, 0) =~= sessions) by {
            assert forall|i: int| 0 <= i < sessions.len() implies !stands_before(
                chargers,
                #[trigger] sessions[i].connector_id.charger_id,
                0,
            ) by {
                lemma_index_of(chargers, sessions[i].connector_id.charger_id);
            }
        }
        assert(share * demand(sessions, chargers.take(0)) == 0) by {
            assert(share * 0 == 0) by (nonlinear_arith);
        }
    } else {
        let j = upto - 1;
        lemma_round_total_upto(sessions, chargers, share, j);
        let before = shared_out_upto(sessions, chargers, share, j);
        let after = shared_out_upto(sessions, chargers, share, upto);
        let charger = chargers[j];
        let id = charger.id;
        let wanting = demand(sessions, chargers.take(j));
        assert(chargers.take(upto).drop_last() =~= chargers.take(j));
        assert forall|k: int| j < k < chargers.len() implies (#[trigger] chargers[k]).id != id by {
            assert(chargers[j].id != chargers[k].id);
        }
        lemma_index_of_found(chargers, id, j);
        assert forall|i: int| 0 <= i < sessions.len() implies (#[trigger] after[i])
            == if sessions[i].connector_id.charger_id == id {
            with_allocation(sessions[i], next_allocation(sessions, chargers, share, sessions[i]))
        } else {
            before[i]
        } by {
            if sessions[i].connector_id.charger_id != id {
                lemma_index_of(chargers, sessions[i].connector_id.charger_id);
            }
        }
        assert forall|i: int|
            0 <= i < sessions.len() && sessions[i].connector_id.charger_id
                == id implies #[trigger] before[i] == sessions[i] by {}
        assert(same_bindings(before, sessions));
        assert(same_bindings(after, sessions));
        assert(same_bindings(before, after)) by {
            assert forall|i: int| 0 <= i < before.len() implies with_allocation(
                #[trigger] before[i],
                0,
            ) == with_allocation(after[i], 0) by {
                assert(with_allocation(before[i], 0) == with_allocation(sessions[i], 0));
                assert(with_allocation(after[i], 0) == with_allocation(sessions[i], 0));
            }
        }
        if charger_active(sessions, charger) {
            let caps = caps_of(group_of(sessions, id));
            let open = group_open(sessions, id);
            let target = raised_target(sessions, charger, share);
            let level = water_level(caps, target);
            assert forall|i: int|
                0 <= i < before.len() && (#[trigger] before[i]).connector_id.charger_id
                    == id implies sessions[i] == before[i] by {}
            lemma_group_same(before, sessions, id);
            assert forall|i: int|
                0 <= i < before.len() && (#[trigger] before[i]).connector_id.charger_id
                    != id implies after[i] == before[i] by {}
            lemma_regroup(before, after, id);
            assert forall|i: int|
                0 <= i < after.len() && (#[trigger] after[i]).connector_id.charger_id
                    == id implies after[i].allocated_power == capped(
                after[i].vehicle_max_power,
                level,
            ) by {}
            lemma_group_at_level(after, id, level);
            lemma_at_level_totals(group_of(after, id), level);
            lemma_group_same_bindings(after, sessions, id);
            lemma_water_level_settled(caps, target);
            assert(share * (wanting + open) == share * wanting + share * open)
                by (nonlinear_arith);
        } else {
            assert(after =~= before);
        }
    }
}

/// A round with the given share raises what the sessions hold by no more than
/// one share for each session that can take more on a charger that can.
pub proof fn lemma_round_total(
    sessions: Seq<SessionView>,
    chargers: Seq<ChargerConfigView>,
    share: nat,
)
    requires
        distinct_ids(chargers),
    ensures
        total_allocated(shared_out(sessions, chargers, share)) <= total_allocated(sessions)
            + share * demand(sessions, chargers),
{
    let n = chargers.len() as int;
    lemma_round_total_upto(sessions, chargers, share, n);
    assert(chargers.take(n) =~= chargers);
    assert(shared_out_upto(sessions, chargers, share, n) =~= shared_out(
        sessions,
        chargers,
        share,
    )) by {
        assert forall|i: int| 0 <= i < sessions.len() implies shared_out_upto(
            sessions,
            chargers,
            share,
            n,
        )[i] == shared_out(sessions, chargers, share)[i] by {
            lemma_index_of(chargers, sessions[i].connector_id.charger_id);
        }
    }
}

/// The power allocated to `sessions`, all together.
pub(crate) fn allocated_power_of(sessions: &[Session]) -> (total: u32)
    requires
        total_allocated(session_views(sessions@)) <= u32::MAX,
    ensures
        total == total_allocated(session_views(sessions@)),
{
    let ghost views = session_views(sessions@);
    let mut total: u32 = 0;
    let mut i: usize = 0;
    while i < sessions.len()
        invariant
            i <= sessions.len(),
            views == session_views(sessions@),
            total == total_allocated(views.take(i as int)),
            total_allocated(views) <= u32::MAX,
        decreases sessions.len() - i,
    {
        proof {
            lemma_total_prefix(views, i + 1);
            assert(views.take(i + 1).drop_last() =~= views.take(i as int));
        }
        total = total + sessions[i].allocated_power;
        i += 1;
    }
    assert(views.take(i as int) =~= views);
    total
}

/// How many of `sessions` hold less than their vehicle accepts.
fn open_sessions_of(sessions: &[Session]) -> (count: usize)
    ensures
        count == open_sessions(session_views(sessions@)),
{
    let ghost views = session_views(sessions@);
    let mut count: usize = 0;
    let mut i: usize = 0;
    while i < sessions.len()
        invariant
            i <= sessions.len(),
            views == session_views(sessions@),
            count == open_sessions(views.take(i as int)),
            count <= i,
        decreases sessions.len() - i,
    {
        proof {
            assert(views.take(i + 1).drop_last() =~= views.take(i as int));
        }
        if sessions[i].allocated_power < sessions[i].vehicle_max_power {
            count += 1;
        }
        i += 1;
    }
    assert(views.take(i as int) =~= views);
    count
}

/// The sessions of `sessions` that are on the charger `charger_id`.
pub(crate) fn sessions_on(sessions: &[Session], charger_id: &String) -> (group: Vec<Session>)
    ensures
        session_views(group@) == group_of(session_views(sessions@), charger_id@),
{
    let ghost views = session_views(sessions@);
    let mut group: Vec<Session> = Vec::new();
    let mut i: usize = 0;
    assert(session_views(group@) =~= group_of(views.take(0), charger_id@));
    while i < sessions.len()
        invariant
            i <= sessions.len(),
            views == session_views(sessions@),
            session_views(group@) == group_of(views.take(i as int), charger_id@),
        decreases sessions.len() - i,
    {
        proof {
            lemma_group_step(views, charger_id@, i as int);
        }
        if sessions[i].connector_id.charger_id == *charger_id {
            let ghost before = session_views(group@);
            group.push(sessions[i].clone());
            assert(session_views(group@) =~= before.push(views[i as int]));
        }
        i += 1;
    }
    assert(views.take(i as int) =~= views);
    group
}

/// Puts `group` back in the places of the sessions on the charger
/// `charger_id`, in order.
fn store_group(sessions: &mut Vec<Session>, charger_id: &String, group: &[Session])
    requires
        group.len() == group_of(session_views(old(sessions)@), charger_id@).len(),
    ensures
        final(sessions).len() == old(sessions).len(),
        forall|i: int|
            0 <= i < old(sessions).len() ==> #[trigger] session_views(final(sessions)@)[i] == if old(
                sessions,
            )[i]@.connector_id.charger_id == charger_id@ {
                session_views(group@)[rank_in_group(
                    session_views(old(sessions)@),
                    charger_id@,
                    i,
                )]
            } else {
                session_views(old(sessions)@)[i]
            },
{
    let ghost before = session_views(sessions@);
    let mut rank: usize = 0;
    let mut i: usize = 0;
    assert(before.take(0) =~= Seq::<SessionView>::empty());
    while i < sessions.len()
        invariant
            i <= sessions.len(),
            sessions.len() == before.len(),
            before == session_views(old(sessions)@),
            group.len() == group_of(before, charger_id@).len(),
            rank == rank_in_group(before, charger_id@, i as int),
            forall|j: int| i <= j < sessions.len() ==> sessions[j]@ == before[j],
            forall|j: int|
                0 <= j < i ==> (#[trigger] sessions[j])@ == if before[j].connector_id.charger_id
                    == charger_id@ {
                    group[rank_in_group(before, charger_id@, j)]@
                } else {
                    before[j]
                },
        decreases sessions.len() - i,
    {
        proof {
            lemma_group_step(before, charger_id@, i as int);
        }
        if sessions[i].connector_id.charger_id == *charger_id {
            proof {
                lemma_group_member(before, charger_id@, i as int);
            }
            sessions.set(i, group[rank].clone());
            rank += 1;
        }
        i += 1;
    }
    assert forall|k: int| 0 <= k < before.len() implies #[trigger] session_views(sessions@)[k]
        == if before[k].connector_id.charger_id == charger_id@ {
        session_views(group@)[rank_in_group(before, charger_id@, k)]
    } else {
        before[k]
    } by {
        assert(sessions[k]@ == session_views(sessions@)[k]);
        if before[k].connector_id.charger_id == charger_id@ {
            lemma_group_member(before, charger_id@, k);
        }
    }
}

/// Where the session `session_id` stands among `sessions`.
pub(crate) fn find_session(sessions: &[Session], session_id: u128) -> (found: Option<usize>)
    ensures
        match found {
            Some(i) => position_of(session_views(sessions@), session_id) == Some(i as int),
            None => position_of(session_views(sessions@), session_id) is None,
        },
{
    let ghost views = session_views(sessions@);
    let mut i: usize = sessions.len();
    while i > 0
        invariant
            i <= sessions.len(),
            views == session_views(sessions@),
            forall|j: int| i <= j < views.len() ==> (#[trigger] views[j]).session_id != session_id,
        decreases i,
    {
        i -= 1;
        if sessions[i].session_id == session_id {
            proof {
                lemma_position_of_found(views, session_id, i as int);
            }
            return Some(i);
        }
    }
    proof {
        lemma_position_of(views, session_id);
    }
    None
}

/// Over the chargers that can take more, how many sessions hold less than
/// their vehicle accepts.
fn demand_of(sessions: &[Session], chargers: &[ChargerConfig]) -> (wanting: u128)
    requires
        total_allocated(session_views(sessions@)) <= u32::MAX,
    ensures
        wanting == demand(session_views(sessions@), charger_views(chargers@)),
{
    let ghost views = session_views(sessions@);
    let ghost table = charger_views(chargers@);
    let mut wanting: u128 = 0;
    let mut j: usize = 0;
    while j < chargers.len()
        invariant
            j <= chargers.len(),
            views == session_views(sessions@),
            table == charger_views(chargers@),
            total_allocated(views) <= u32::MAX,
            wanting == demand(views, table.take(j as int)),
            wanting <= j * 0xFFFF_FFFF_FFFF_FFFF,
        decreases chargers.len() - j,
    {
        let charger = &chargers[j];
        proof {
            assert(table.take(j + 1).drop_last() =~= table.take(j as int));
            lemma_group_total_le(views, charger.id@);
        }
        let group = sessions_on(sessions, &charger.id);
        let allocated = allocated_power_of(group.as_slice());
        let open = open_sessions_of(group.as_slice());
        if allocated < charger.max_power && open > 0 {
            wanting = wanting + open as u128;
        }
        j += 1;
    }
    assert(table.take(j as int) =~= table);
    wanting
}

/// One round with the given share: every charger that can take more has its
/// target raised, and its sessions share the target by water-filling.
fn share_out(sessions: &[Session], chargers: &ChargerTable, share: u32) -> (next: Vec<Session>)
    requires
        total_allocated(session_views(sessions@)) <= u32::MAX,
    ensures
        session_views(next@) == shared_out(session_views(sessions@), chargers@, share as nat),
        total_allocated(session_views(next@)) <= total_allocated(session_views(sessions@)) + share
            * demand(session_views(sessions@), chargers@),
{
    let ghost start = session_views(sessions@);
    let ghost table = chargers@;
    let entries = chargers.entries();
    let mut next: Vec<Session> = Vec::new();
    let mut k: usize = 0;
    while k < sessions.len()
        invariant
            k <= sessions.len(),
            next.len() == k,
            forall|i: int| 0 <= i < k ==> next[i] == sessions[i],
        decreases sessions.len() - k,
    {
        next.push(sessions[k].clone());
        k += 1;
    }
    let mut j: usize = 0;
    proof {
        assert forall|i: int| 0 <= i < next.len() implies !stands_before(
            table,
            #[trigger] start[i].connector_id.charger_id,
            0,
        ) by {
            lemma_index_of(table, start[i].connector_id.charger_id);
        }
        assert(session_views(next@) =~= shared_out_upto(start, table, share as nat, 0));
    }
    while j < entries.len()
        invariant
            j <= entries.len(),
            table == charger_views(entries@),
            distinct_ids(table),
            start == session_views(sessions@),
            total_allocated(start) <= u32::MAX,
            next.len() == sessions.len(),
            session_views(next@) == shared_out_upto(start, table, share as nat, j as int),
        decreases entries.len() - j,
    {
        let charger = &entries[j];
        let ghost id = charger.id@;
        let ghost before = session_views(next@);
        proof {
            assert(table[j as int] == charger@);
            assert forall|k: int| j < k < table.len() implies (#[trigger] table[k]).id != id by {
                assert(table[j as int].id != table[k].id);
            }
            lemma_index_of_found(table, id, j as int);
            lemma_group_total_le(start, id);
            assert(same_bindings(before, start));
            assert forall|i: int|
                0 <= i < before.len() && (#[trigger] before[i]).connector_id.charger_id
                    == id implies start[i] == before[i] by {}
            lemma_group_same(before, start, id);
        }
        let group = sessions_on(sessions, &charger.id);
        let allocated = allocated_power_of(group.as_slice());
        let open = open_sessions_of(group.as_slice());
        if allocated < charger.max_power && open > 0 {
            assert(share * open <= 0xFFFF_FFFF * 0xFFFF_FFFF_FFFF_FFFF) by (nonlinear_arith)
                requires
                    0 <= share <= 0xFFFF_FFFF,
                    0 <= open <= 0xFFFF_FFFF_FFFF_FFFF,
            ;
            let wanted: u128 = allocated as u128 + share as u128 * open as u128;
            let target: u32 = if wanted < charger.max_power as u128 {
                wanted as u32
            } else {
                charger.max_power
            };
            let shares = allocate_connector(group.as_slice(), target);
            proof {
                assert(session_views(shares@).len() == shares.len());
                assert(session_views(group@).len() == group.len());
            }
            store_group(&mut next, &charger.id, shares.as_slice());
            proof {
                let after = session_views(next@);
                let caps = caps_of(group_of(start, id));
                assert(charger_active(start, charger@));
                assert(raised_target(start, charger@, share as nat) == target);
                assert(lookup(table, id) == Some(charger@));
                assert forall|i: int| 0 <= i < after.len() implies after[i] == shared_out_upto(
                    start,
                    table,
                    share as nat,
                    j + 1,
                )[i] by {
                    assert(before[i] == shared_out_upto(start, table, share as nat, j as int)[i]);
                    assert(with_allocation(before[i], 0) == with_allocation(start[i], 0));
                    if start[i].connector_id.charger_id == id {
                        let r = rank_in_group(before, id, i);
                        lemma_group_member(start, id, i);
                        assert(same_bindings(before.take(i), start.take(i))) by {
                            assert forall|m: int| 0 <= m < i implies with_allocation(
                                #[trigger] before.take(i)[m],
                                0,
                            ) == with_allocation(start.take(i)[m], 0) by {
                                assert(with_allocation(before[m], 0) == with_allocation(
                                    start[m],
                                    0,
                                ));
                            }
                        }
                        lemma_group_same_bindings(before.take(i), start.take(i), id);
                        assert(r == rank_in_group(start, id, i));
                        assert(caps[r] == start[i].vehicle_max_power);
                    } else {
                        lemma_index_of(table, start[i].connector_id.charger_id);
                    }
                }
                assert(after =~= shared_out_upto(start, table, share as nat, j + 1));
            }
        } else {
            proof {
                assert(!charger_active(start, charger@));
                assert(lookup(table, id) == Some(charger@));
                assert forall|i: int| 0 <= i < before.len() implies before[i] == shared_out_upto(
                    start,
                    table,
                    share as nat,
                    j + 1,
                )[i] by {
                    assert(before[i] == shared_out_upto(start, table, share as nat, j as int)[i]);
                    if start[i].connector_id.charger_id != id {
                        lemma_index_of(table, start[i].connector_id.charger_id);
                    }
                }
                assert(before =~= shared_out_upto(start, table, share as nat, j + 1));
            }
        }
        j += 1;
    }
    proof {
        assert forall|i: int| 0 <= i < start.len() implies session_views(next@)[i] == shared_out(
            start,
            table,
            share as nat,
        )[i] by {
            lemma_index_of(table, start[i].connector_id.charger_id);
        }
        assert(session_views(next@) =~= shared_out(start, table, share as nat));
        lemma_round_total(start, table, share as nat);
    }
    next
}

/// Shares one charger's capacity among the sessions on it.
///
/// Every session starts from nothing. As long as capacity is left, it is
/// split evenly over the sessions that can still take more, each of which
/// takes its part up to what its vehicle accepts. The result is the
/// water-fill of the vehicles' limits under the capacity: less than one kW
/// for each session that could take more is left unassigned.
pub fn allocate_connector(sessions: &[Session], charger_capacity: u32) -> (out: Vec<Session>)
    ensures
        session_views(out@) == connector_allocation(
            session_views(sessions@),
            charger_capacity as nat,
        ),
        same_bindings(session_views(out@), session_views(sessions@)),
        within_vehicle_limits(session_views(out@)),
        total_allocated(session_views(out@)) <= charger_capacity,
{
    let ghost views = session_views(sessions@);
    let ghost caps = caps_of(views);
    let mut out: Vec<Session> = Vec::new();
    let mut k: usize = 0;
    while k < sessions.len()
        invariant
            k <= sessions.len(),
            out.len() == k,
            forall|j: int| 0 <= j < k ==> out[j]@ == with_allocation(sessions[j]@, 0),
        decreases sessions.len() - k,
    {
        out.push(sessions[k].with_allocation(0));
        k += 1;
    }
    let ghost mut level: nat = 0;
    proof {
        lemma_filled_zero(caps);
    }
    loop
        invariant
            views == session_views(sessions@),
            caps == caps_of(views),
            out.len() == sessions.len(),
            forall|j: int|
                0 <= j < out.len() ==> out[j]@ == with_allocation(
                    sessions[j]@,
                    capped(sessions[j].vehicle_max_power as nat, level),
                ),
            filled(caps, level) <= charger_capacity,
        ensures
            is_water_level(caps, charger_capacity as nat, level),
        decreases charger_capacity - filled(caps, level),
    {
        proof {
            let current = session_views(out@);
            assert(at_level(current, level));
            assert(caps_of(current) =~= caps);
            lemma_at_level_totals(current, level);
        }
        let allocated = allocated_power_of(out.as_slice());
        let remaining = charger_capacity - allocated;
        let open = open_sessions_of(out.as_slice());
        if remaining == 0 || open == 0 {
            break ;
        }
        let fair = (remaining as u64 / open as u64) as u32;
        if fair == 0 {
            assert(remaining < open) by (nonlinear_arith)
                requires
                    remaining as int / open as int == 0,
                    open > 0,
                    remaining >= 0,
            ;
            break ;
        }
        let mut i: usize = 0;
        while i < out.len()
            invariant
                i <= out.len(),
                out.len() == sessions.len(),
                forall|j: int|
                    0 <= j < i ==> out[j]@ == with_allocation(
                        sessions[j]@,
                        capped(sessions[j].vehicle_max_power as nat, level + fair as nat),
                    ),
                forall|j: int|
                    i <= j < out.len() ==> out[j]@ == with_allocation(
                        sessions[j]@,
                        capped(sessions[j].vehicle_max_power as nat, level),
                    ),
            decreases out.len() - i,
        {
            if out[i].allocated_power < out[i].vehicle_max_power {
                let limit = out[i].vehicle_max_power;
                let wanted = out[i].allocated_power as u64 + fair as u64;
                let raised = if wanted < limit as u64 {
                    wanted as u32
                } else {
                    limit
                };
                let updated = out[i].with_allocation(raised);
                out.set(i, updated);
            }
            i += 1;
        }
        proof {
            lemma_filled_raise(caps, level, fair as nat);
            assert(fair * open <= remaining) by (nonlinear_arith)
                requires
                    fair as int == remaining as int / open as int,
                    open > 0,
                    remaining >= 0,
            ;
            level = level + fair as nat;
        }
    }
    proof {
        lemma_settled_is_water_fill(caps, charger_capacity as nat, level);
        assert(session_views(out@) =~= connector_allocation(views, charger_capacity as nat));
        lemma_connector_allocation(views, charger_capacity as nat);
    }
    out
}

/// Shares the station's capacity among its sessions.
///
/// The sessions come back as they were given, in the same order, each with
/// what it may draw. Every session starts from nothing. In each round, what
/// is left of the station's capacity is split into equal shares, one for
/// each session that could take more on a charger that could deliver more;
/// each such charger is awarded the shares of its sessions, up to its rating,
/// and its sessions share the charger's new target by water-filling. The
/// rounds end when one changes nothing. A session on a charger that the
/// table does not hold gets nothing.
pub fn allocate_power_station(
    current_sessions: &[Session],
    chargers_config: &ChargerTable,
    station_capacity: u32,
) -> (out: Vec<Session>)
    ensures
        session_views(out@) == station_allocation(
            session_views(current_sessions@),
            chargers_config@,
            station_capacity as nat,
        ),
        same_bindings(session_views(out@), session_views(current_sessions@)),
        within_vehicle_limits(session_views(out@)),
        within_charger_limits(session_views(out@), chargers_config@),
        total_allocated(session_views(out@)) <= station_capacity,
        station_round(session_views(out@), chargers_config@, station_capacity as nat)
            == session_views(out@),
{
    let ghost input = session_views(current_sessions@);
    let ghost table = chargers_config@;
    let ghost ceiling = station_capacity as nat;
    let mut current: Vec<Session> = Vec::new();
    let mut k: usize = 0;
    while k < current_sessions.len()
        invariant
            k <= current_sessions.len(),
            current.len() == k,
            forall|i: int| 0 <= i < k ==> current[i]@ == with_allocation(current_sessions[i]@, 0),
        decreases current_sessions.len() - k,
    {
        current.push(current_sessions[k].with_allocation(0));
        k += 1;
    }
    proof {
        assert(session_views(current@) =~= cleared(input));
        lemma_cleared_total(input);
    }
    loop
        invariant
            table == chargers_config@,
            ceiling == station_capacity as nat,
            settle(session_views(current@), table, ceiling) == station_allocation(
                input,
                table,
                ceiling,
            ),
            total_allocated(session_views(current@)) <= ceiling,
        ensures
            session_views(current@) == station_allocation(input, table, ceiling),
        decreases ceiling - total_allocated(session_views(current@)),
    {
        let ghost views = session_views(current@);
        let allocated = allocated_power_of(current.as_slice());
        let remaining = station_capacity - allocated;
        if remaining == 0 {
            break ;
        }
        let entries = chargers_config.entries();
        let wanting = demand_of(current.as_slice(), entries);
        if wanting == 0 {
            break ;
        }
        let share = (remaining as u128 / wanting) as u32;
        if share == 0 {
            break ;
        }
        let next = share_out(current.as_slice(), chargers_config, share);
        proof {
            assert(share * wanting <= remaining) by (nonlinear_arith)
                requires
                    share as int == remaining as int / wanting as int,
                    wanting > 0,
                    remaining >= 0,
            ;
            assert(session_views(next@) == station_round(views, table, ceiling));
        }
        let raised = allocated_power_of(next.as_slice());
        if raised <= allocated {
            break ;
        }
        current = next;
    }
    proof {
        use_type_invariant(chargers_config);
        chargers_config.lemma_distinct();
        lemma_station_allocation_bindings(input, table, ceiling);
        lemma_station_allocation_within_limits(input, table, ceiling);
        lemma_station_allocation_at_rest(input, table, ceiling);
    }
    current
}

/// Decides what a session that enters, or comes back with news of what it
/// draws, may hold at once.
///
/// The session is entered among `sessions`, in the place of the one that had
/// its id if there was one, and the station's capacity is shared among them
/// all. The session gets its part, but no more than `hardcap_capacity`: what
/// the other sessions would have to give up they still hold until they are
/// told. What the allocation found for the others is dropped.
pub fn allocate_for_new_session(
    sessions: Vec<Session>,
    chargers_config: &ChargerTable,
    grid_capacity: u32,
    hardcap_capacity: u32,
    new_session: &Session,
) -> (allocated: Session)
    ensures
        allocated@ == with_allocation(
            new_session@,
            new_session_allocation(
                session_views(sessions@),
                chargers_config@,
                grid_capacity as nat,
                hardcap_capacity as nat,
                new_session@,
            ),
        ),
        allocated.allocated_power <= hardcap_capacity,
        allocated.allocated_power <= new_session.vehicle_max_power,
{
    let ghost views = session_views(sessions@);
    let found = find_session(sessions.as_slice(), new_session.session_id);
    proof {
        lemma_position_of(views, new_session.session_id);
    }
    let mut all = sessions;
    let place = match found {
        Some(i) => {
            all.set(i, new_session.clone());
            i
        },
        None => {
            all.push(new_session.clone());
            all.len() - 1
        },
    };
    proof {
        assert(session_views(all@) =~= with_session(views, new_session@));
        lemma_station_allocation_bindings(
            session_views(all@),
            chargers_config@,
            grid_capacity as nat,
        );
    }
    let reallocated = allocate_power_station(all.as_slice(), chargers_config, grid_capacity);
    let ideal = reallocated[place].allocated_power;
    let granted = if ideal < hardcap_capacity {
        ideal
    } else {
        hardcap_capacity
    };
    proof {
        let all_views = session_views(all@);
        assert(session_views(reallocated@)[place as int] == reallocated[place as int]@);
        assert(with_allocation(session_views(reallocated@)[place as int], 0) == with_allocation(
            all_views[place as int],
            0,
        ));
        assert(all_views[place as int] == new_session@);
    }
    new_session.with_allocation(granted)
}

} // verus!
