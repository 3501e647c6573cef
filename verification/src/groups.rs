//! Runs of sessions: what they hold together, what the sessions of one
//! charger hold, and what entering, replacing or removing a session does to
//! those sums.

use vstd::prelude::*;
use crate::models::{SessionView, with_allocation};
use crate::water::{capped, filled, open_count};

verus! {

/// What each session's vehicle accepts, in order.
pub open spec fn caps_of(sessions: Seq<SessionView>) -> Seq<nat> {
    sessions.map_values(|s: SessionView| s.vehicle_max_power)
}

/// The power allocated to `sessions`, all together.
pub open spec fn total_allocated(sessions: Seq<SessionView>) -> nat
    decreases sessions.len(),
{
    if sessions.len() == 0 {
        0
    } else {
        total_allocated(sessions.drop_last()) + sessions.last().allocated_power
    }
}

/// How many of `sessions` hold less than their vehicle accepts.
pub open spec fn open_sessions(sessions: Seq<SessionView>) -> nat
    decreases sessions.len(),
{
    if sessions.len() == 0 {
        0
    } else {
        open_sessions(sessions.drop_last()) + if sessions.last().allocated_power
            < sessions.last().vehicle_max_power {
            1nat
        } else {
            0nat
        }
    }
}

/// `sessions` with nothing allocated.
pub open spec fn cleared(sessions: Seq<SessionView>) -> Seq<SessionView> {
    sessions.map_values(|s: SessionView| with_allocation(s, 0))
}

/// Every session holds what its vehicle accepts, up to `level`.
pub open spec fn at_level(sessions: Seq<SessionView>, level: nat) -> bool {
    forall|i: int|
        0 <= i < sessions.len() ==> (#[trigger] sessions[i]).allocated_power == capped(
            sessions[i].vehicle_max_power,
            level,
        )
}

/// Two runs of sessions bind the same connectors and vehicles, place by place.
pub open spec fn same_bindings(first: Seq<SessionView>, second: Seq<SessionView>) -> bool {
    &&& first.len() == second.len()
    &&& forall|i: int|
        0 <= i < first.len() ==> with_allocation(#[trigger] first[i], 0) == with_allocation(
            second[i],
            0,
        )
}

/// The sessions of `sessions` that are on the charger `id`, in order.
pub open spec fn group_of(sessions: Seq<SessionView>, id: Seq<char>) -> Seq<SessionView>
    decreases sessions.len(),
{
    if sessions.len() == 0 {
        Seq::empty()
    } else if sessions.last().connector_id.charger_id == id {
        group_of(sessions.drop_last(), id).push(sessions.last())
    } else {
        group_of(sessions.drop_last(), id)
    }
}

/// The power allocated on the charger `id`.
pub open spec fn group_total(sessions: Seq<SessionView>, id: Seq<char>) -> nat {
    total_allocated(group_of(sessions, id))
}

/// How many sessions on the charger `id` hold less than their vehicle accepts.
pub open spec fn group_open(sessions: Seq<SessionView>, id: Seq<char>) -> nat {
    open_sessions(group_of(sessions, id))
}

/// How many sessions on the charger `id` stand before the place `i`.
pub open spec fn rank_in_group(sessions: Seq<SessionView>, id: Seq<char>, i: int) -> int {
    group_of(sessions.take(i), id).len() as int
}

/// What `session` adds to what the charger `id` delivers: what it holds, if it
/// is on the charger.
pub open spec fn power_on(session: SessionView, id: Seq<char>) -> nat {
    if session.connector_id.charger_id == id {
        session.allocated_power
    } else {
        0
    }
}

/// Where the session `session_id` stands in `sessions`: the last place that
/// holds it.
pub open spec fn position_of(sessions: Seq<SessionView>, session_id: u128) -> Option<int>
    decreases sessions.len(),
{
    if sessions.len() == 0 {
        None
    } else if sessions.last().session_id == session_id {
        Some(sessions.len() - 1)
    } else {
        position_of(sessions.drop_last(), session_id)
    }
}

/// `sessions` with `session` entered: in the place of the session that had
/// its id, or else at the end.
pub open spec fn with_session(sessions: Seq<SessionView>, session: SessionView) -> Seq<
    SessionView,
> {
    match position_of(sessions, session.session_id) {
        Some(i) => sessions.update(i, session),
        None => sessions.push(session),
    }
}

/// The place that `session` takes when it is entered into `sessions`.
pub open spec fn place_of(sessions: Seq<SessionView>, session: SessionView) -> int {
    match position_of(sessions, session.session_id) {
        Some(i) => i,
        None => sessions.len() as int,
    }
}

/// Sessions that stand at a level hold what the capacities hold at it, and as
/// many of them are open.
pub proof fn lemma_at_level_totals(sessions: Seq<SessionView>, level: nat)
    requires
        at_level(sessions, level),
    ensures
        total_allocated(sessions) == filled(caps_of(sessions), level),
        open_sessions(sessions) == open_count(caps_of(sessions), level),
    decreases sessions.len(),
{
    if sessions.len() > 0 {
        let rest = sessions.drop_last();
        assert(at_level(rest, level)) by {
            assert forall|i: int| 0 <= i < rest.len() implies (#[trigger] rest[i]).allocated_power
                == capped(rest[i].vehicle_max_power, level) by {
                assert(rest[i] == sessions[i]);
            }
        }
        lemma_at_level_totals(rest, level);
        assert(caps_of(sessions).drop_last() =~= caps_of(rest));
        assert(sessions.last() == sessions[sessions.len() - 1]);
    }
}

/// A prefix of a run of sessions holds no more than the whole run.
pub proof fn lemma_total_prefix(sessions: Seq<SessionView>, n: int)
    requires
        0 <= n <= sessions.len(),
    ensures
        total_allocated(sessions.take(n)) <= total_allocated(sessions),
    decreases sessions.len(),
{
    if n == sessions.len() {
        assert(sessions.take(n) =~= sessions);
    } else {
        lemma_total_prefix(sessions.drop_last(), n);
        assert(sessions.drop_last().take(n) =~= sessions.take(n));
    }
}

/// One more session adds its allocation to the total, and itself to the open
/// sessions if it holds less than its vehicle accepts.
pub proof fn lemma_totals_push(sessions: Seq<SessionView>, session: SessionView)
    ensures
        total_allocated(sessions.push(session)) == total_allocated(sessions)
            + session.allocated_power,
        open_sessions(sessions.push(session)) == open_sessions(sessions) + if session.allocated_power
            < session.vehicle_max_power {
            1nat
        } else {
            0nat
        },
{
    assert(sessions.push(session).drop_last() =~= sessions);
}

/// Sessions with nothing allocated hold nothing.
pub proof fn lemma_cleared_total(sessions: Seq<SessionView>)
    ensures
        total_allocated(cleared(sessions)) == 0,
    decreases sessions.len(),
{
    if sessions.len() > 0 {
        lemma_cleared_total(sessions.drop_last());
        assert(cleared(sessions).drop_last() =~= cleared(sessions.drop_last()));
    }
}

/// Taking one more session extends the charger's group by it, if it is on the
/// charger.
pub proof fn lemma_group_step(sessions: Seq<SessionView>, id: Seq<char>, i: int)
    requires
        0 <= i < sessions.len(),
    ensures
        group_of(sessions.take(i + 1), id) == if sessions[i].connector_id.charger_id == id {
            group_of(sessions.take(i), id).push(sessions[i])
        } else {
            group_of(sessions.take(i), id)
        },
{
    assert(sessions.take(i + 1).drop_last() =~= sessions.take(i));
}

/// A session on the charger stands in the charger's group at its rank.
pub proof fn lemma_group_member(sessions: Seq<SessionView>, id: Seq<char>, i: int)
    requires
        0 <= i < sessions.len(),
        sessions[i].connector_id.charger_id == id,
    ensures
        0 <= rank_in_group(sessions, id, i) < group_of(sessions, id).len(),
        group_of(sessions, id)[rank_in_group(sessions, id, i)] == sessions[i],
    decreases sessions.len(),
{
    let rest = sessions.drop_last();
    if i == sessions.len() - 1 {
        assert(sessions.take(i) =~= rest);
    } else {
        assert(rest.take(i) =~= sessions.take(i));
        assert(rest[i] == sessions[i]);
        lemma_group_member(rest, id, i);
    }
}

/// A charger's group holds no more than all the sessions together.
pub proof fn lemma_group_total_le(sessions: Seq<SessionView>, id: Seq<char>)
    ensures
        group_total(sessions, id) <= total_allocated(sessions),
    decreases sessions.len(),
{
    if sessions.len() > 0 {
        lemma_group_total_le(sessions.drop_last(), id);
        lemma_totals_push(group_of(sessions.drop_last(), id), sessions.last());
    }
}

/// Runs with the same bindings have groups with the same bindings.
pub proof fn lemma_group_same_bindings(
    first: Seq<SessionView>,
    second: Seq<SessionView>,
    id: Seq<char>,
)
    requires
        same_bindings(first, second),
    ensures
        same_bindings(group_of(first, id), group_of(second, id)),
        caps_of(group_of(first, id)) == caps_of(group_of(second, id)),
    decreases first.len(),
{
    if first.len() > 0 {
        let a = first.drop_last();
        let b = second.drop_last();
        assert(same_bindings(a, b)) by {
            assert forall|i: int| 0 <= i < a.len() implies with_allocation(#[trigger] a[i], 0)
                == with_allocation(b[i], 0) by {
                assert(a[i] == first[i]);
                assert(b[i] == second[i]);
            }
        }
        lemma_group_same_bindings(a, b, id);
        assert(with_allocation(first[first.len() - 1], 0) == with_allocation(
            second[first.len() - 1],
            0,
        ));
    }
    assert(caps_of(group_of(first, id)) =~= caps_of(group_of(second, id))) by {
        let g = group_of(first, id);
        let h = group_of(second, id);
        assert forall|i: int| 0 <= i < g.len() implies g[i].vehicle_max_power
            == h[i].vehicle_max_power by {
            assert(with_allocation(g[i], 0) == with_allocation(h[i], 0));
        }
    }
}

/// Where two runs with the same bindings agree on the charger `id`, the
/// charger's groups are the same.
pub proof fn lemma_group_same(first: Seq<SessionView>, second: Seq<SessionView>, id: Seq<char>)
    requires
        same_bindings(first, second),
        forall|i: int|
            0 <= i < first.len() && (#[trigger] first[i]).connector_id.charger_id == id
                ==> second[i] == first[i],
    ensures
        group_of(first, id) == group_of(second, id),
    decreases first.len(),
{
    if first.len() > 0 {
        let a = first.drop_last();
        let b = second.drop_last();
        let n = first.len() - 1;
        assert(same_bindings(a, b)) by {
            assert forall|i: int| 0 <= i < a.len() implies with_allocation(#[trigger] a[i], 0)
                == with_allocation(b[i], 0) by {
                assert(a[i] == first[i]);
                assert(b[i] == second[i]);
            }
        }
        assert forall|i: int|
            0 <= i < a.len() && (#[trigger] a[i]).connector_id.charger_id == id implies b[i]
            == a[i] by {
            assert(a[i] == first[i]);
            assert(b[i] == second[i]);
        }
        lemma_group_same(a, b, id);
        assert(with_allocation(first[n], 0) == with_allocation(second[n], 0));
    }
}

/// Where two runs with the same bindings differ only on the charger `id`,
/// their totals differ by what the charger's groups differ.
pub proof fn lemma_regroup(first: Seq<SessionView>, second: Seq<SessionView>, id: Seq<char>)
    requires
        same_bindings(first, second),
        forall|i: int|
            0 <= i < first.len() && (#[trigger] first[i]).connector_id.charger_id != id
                ==> second[i] == first[i],
    ensures
        total_allocated(second) + group_total(first, id) == total_allocated(first) + group_total(
            second,
            id,
        ),
    decreases first.len(),
{
    if first.len() > 0 {
        let a = first.drop_last();
        let b = second.drop_last();
        let n = first.len() - 1;
        assert(same_bindings(a, b)) by {
            assert forall|i: int| 0 <= i < a.len() implies with_allocation(#[trigger] a[i], 0)
                == with_allocation(b[i], 0) by {
                assert(a[i] == first[i]);
                assert(b[i] == second[i]);
            }
        }
        assert forall|i: int|
            0 <= i < a.len() && (#[trigger] a[i]).connector_id.charger_id != id implies b[i]
            == a[i] by {
            assert(a[i] == first[i]);
            assert(b[i] == second[i]);
        }
        lemma_regroup(a, b, id);
        assert(with_allocation(first[n], 0) == with_allocation(second[n], 0));
        if first[n].connector_id.charger_id != id {
            assert(second[n] == first[n]);
        } else {
            lemma_totals_push(group_of(a, id), first[n]);
            lemma_totals_push(group_of(b, id), second[n]);
        }
    }
}

/// Where every session on the charger stands at a level, so does the
/// charger's group.
pub proof fn lemma_group_at_level(sessions: Seq<SessionView>, id: Seq<char>, level: nat)
    requires
        forall|i: int|
            0 <= i < sessions.len() && (#[trigger] sessions[i]).connector_id.charger_id == id
                ==> sessions[i].allocated_power == capped(sessions[i].vehicle_max_power, level),
    ensures
        at_level(group_of(sessions, id), level),
    decreases sessions.len(),
{
    if sessions.len() > 0 {
        let rest = sessions.drop_last();
        assert forall|i: int|
            0 <= i < rest.len() && (#[trigger] rest[i]).connector_id.charger_id
                == id implies rest[i].allocated_power == capped(
            rest[i].vehicle_max_power,
            level,
        ) by {
            assert(rest[i] == sessions[i]);
        }
        lemma_group_at_level(rest, id, level);
        assert(sessions.last() == sessions[sessions.len() - 1]);
    }
}

/// Putting a session in the place of another moves the station's total, and
/// each charger's, by what the two hold.
pub proof fn lemma_update_totals(
    sessions: Seq<SessionView>,
    i: int,
    session: SessionView,
    id: Seq<char>,
)
    requires
        0 <= i < sessions.len(),
    ensures
        total_allocated(sessions.update(i, session)) + sessions[i].allocated_power
            == total_allocated(sessions) + session.allocated_power,
        group_total(sessions.update(i, session), id) + power_on(sessions[i], id) == group_total(
            sessions,
            id,
        ) + power_on(session, id),
    decreases sessions.len(),
{
    let after = sessions.update(i, session);
    let rest = sessions.drop_last();
    if i == sessions.len() - 1 {
        assert(after.drop_last() =~= rest);
        lemma_totals_push(group_of(rest, id), session);
        lemma_totals_push(group_of(rest, id), sessions[i]);
    } else {
        assert(after.drop_last() =~= rest.update(i, session));
        assert(rest[i] == sessions[i]);
        lemma_update_totals(rest, i, session, id);
        lemma_totals_push(group_of(rest, id), sessions.last());
        lemma_totals_push(group_of(rest.update(i, session), id), sessions.last());
    }
}

/// Taking a session away lowers the station's total, and its charger's, by
/// what it held.
pub proof fn lemma_remove_totals(sessions: Seq<SessionView>, i: int, id: Seq<char>)
    requires
        0 <= i < sessions.len(),
    ensures
        total_allocated(sessions.remove(i)) + sessions[i].allocated_power == total_allocated(
            sessions,
        ),
        group_total(sessions.remove(i), id) + power_on(sessions[i], id) == group_total(
            sessions,
            id,
        ),
    decreases sessions.len(),
{
    let after = sessions.remove(i);
    let rest = sessions.drop_last();
    if i == sessions.len() - 1 {
        assert(after =~= rest);
        lemma_totals_push(group_of(rest, id), sessions[i]);
    } else {
        assert(after.drop_last() =~= rest.remove(i));
        assert(after.last() == sessions.last());
        assert(rest[i] == sessions[i]);
        lemma_remove_totals(rest, i, id);
        lemma_totals_push(group_of(rest, id), sessions.last());
        lemma_totals_push(group_of(rest.remove(i), id), sessions.last());
    }
}

/// One more session raises the station's total, and its charger's, by what it
/// holds.
pub proof fn lemma_push_totals(sessions: Seq<SessionView>, session: SessionView, id: Seq<char>)
    ensures
        total_allocated(sessions.push(session)) == total_allocated(sessions)
            + session.allocated_power,
        group_total(sessions.push(session), id) == group_total(sessions, id) + power_on(
            session,
            id,
        ),
{
    assert(sessions.push(session).drop_last() =~= sessions);
    lemma_totals_push(sessions, session);
    lemma_totals_push(group_of(sessions, id), session);
}

/// A session holds no more than its charger's sessions together.
pub proof fn lemma_member_within_group(sessions: Seq<SessionView>, i: int)
    requires
        0 <= i < sessions.len(),
    ensures
        sessions[i].allocated_power <= group_total(sessions, sessions[i].connector_id.charger_id),
{
    lemma_update_totals(
        sessions,
        i,
        with_allocation(sessions[i], 0),
        sessions[i].connector_id.charger_id,
    );
}

/// What `position_of` finds holds the id, and no later place does.
pub proof fn lemma_position_of(sessions: Seq<SessionView>, session_id: u128)
    ensures
        match position_of(sessions, session_id) {
            Some(i) => {
                &&& 0 <= i < sessions.len()
                &&& sessions[i].session_id == session_id
                &&& forall|j: int|
                    i < j < sessions.len() ==> (#[trigger] sessions[j]).session_id != session_id
            },
            None => forall|j: int|
                0 <= j < sessions.len() ==> (#[trigger] sessions[j]).session_id != session_id,
        },
    decreases sessions.len(),
{
    if sessions.len() > 0 && sessions.last().session_id != session_id {
        let rest = sessions.drop_last();
        lemma_position_of(rest, session_id);
        match position_of(rest, session_id) {
            Some(i) => {
                assert forall|j: int| i < j < sessions.len() implies (
                #[trigger] sessions[j]).session_id != session_id by {
                    if j < rest.len() {
                        assert(rest[j].session_id != session_id);
                    }
                }
            },
            None => {
                assert forall|j: int| 0 <= j < sessions.len() implies (
                #[trigger] sessions[j]).session_id != session_id by {
                    if j < rest.len() {
                        assert(rest[j].session_id != session_id);
                    }
                }
            },
        }
    }
}

/// A place that holds the id, with no later place holding it, is what
/// `position_of` finds.
pub proof fn lemma_position_of_found(sessions: Seq<SessionView>, session_id: u128, i: int)
    requires
        0 <= i < sessions.len(),
        sessions[i].session_id == session_id,
        forall|j: int| i < j < sessions.len() ==> (#[trigger] sessions[j]).session_id != session_id,
    ensures
        position_of(sessions, session_id) == Some(i),
    decreases sessions.len(),
{
    if i < sessions.len() - 1 {
        let rest = sessions.drop_last();
        assert(sessions.last() == sessions[sessions.len() - 1]);
        assert forall|j: int| i < j < rest.len() implies (#[trigger] rest[j]).session_id
            != session_id by {
            assert(rest[j] == sessions[j]);
        }
        assert(rest[i] == sessions[i]);
        lemma_position_of_found(rest, session_id, i);
    }
}

} // verus!
