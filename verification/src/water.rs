//! Water-filling over a list of capacities.
//!
//! A level `l` gives every capacity `c` the share `min(c, l)`. Filling under a
//! ceiling means raising the level as far as the ceiling allows: the shares
//! are equal but for the capacities that are already full.

use vstd::prelude::*;

verus! {

/// What a capacity holds when the water stands at `level`.
pub open spec fn capped(cap: nat, level: nat) -> nat {
    if cap < level {
        cap
    } else {
        level
    }
}

/// The total held by `caps` when the water stands at `level`.
pub open spec fn filled(caps: Seq<nat>, level: nat) -> nat
    decreases caps.len(),
{
    if caps.len() == 0 {
        0
    } else {
        filled(caps.drop_last(), level) + capped(caps.last(), level)
    }
}

/// How many of `caps` could hold more than `level`.
pub open spec fn open_count(caps: Seq<nat>, level: nat) -> nat
    decreases caps.len(),
{
    if caps.len() == 0 {
        0
    } else {
        open_count(caps.drop_last(), level) + if caps.last() > level {
            1nat
        } else {
            0nat
        }
    }
}

/// The greatest level not above `from` at which `caps` hold no more than
/// `ceiling`.
pub open spec fn highest_fitting(caps: Seq<nat>, ceiling: nat, from: nat) -> nat
    decreases from,
{
    if from == 0 {
        0
    } else if filled(caps, from) <= ceiling {
        from
    } else {
        highest_fitting(caps, ceiling, (from - 1) as nat)
    }
}

/// The level that water-filling `caps` under `ceiling` reaches.
pub open spec fn water_level(caps: Seq<nat>, ceiling: nat) -> nat {
    highest_fitting(caps, ceiling, ceiling)
}

/// The shares that water-filling `caps` under `ceiling` hands out.
pub open spec fn water_fill(caps: Seq<nat>, ceiling: nat) -> Seq<nat> {
    Seq::new(caps.len(), |i: int| capped(caps[i], water_level(caps, ceiling)))
}

/// `level` fits under `ceiling` and cannot be raised: either every capacity is
/// full, or what is left is less than one unit for each capacity that is not.
pub open spec fn is_water_level(caps: Seq<nat>, ceiling: nat, level: nat) -> bool {
    &&& filled(caps, level) <= ceiling
    &&& (open_count(caps, level) == 0 || ceiling - filled(caps, level) < open_count(caps, level))
}

/// At level 0 nothing is held.
pub proof fn lemma_filled_zero(caps: Seq<nat>)
    ensures
        filled(caps, 0) == 0,
    decreases caps.len(),
{
    if caps.len() > 0 {
        lemma_filled_zero(caps.drop_last());
    }
}

/// Raising the level by one adds one unit for each open capacity.
pub proof fn lemma_filled_step(caps: Seq<nat>, level: nat)
    ensures
        filled(caps, level + 1) == filled(caps, level) + open_count(caps, level),
    decreases caps.len(),
{
    if caps.len() > 0 {
        lemma_filled_step(caps.drop_last(), level);
    }
}

/// Raising the level by `by` adds at most `by` for each open capacity, and, if
/// `by` is positive, at least one unit for each.
pub proof fn lemma_filled_raise(caps: Seq<nat>, level: nat, by: nat)
    ensures
        filled(caps, level + by) <= filled(caps, level) + by * open_count(caps, level),
        filled(caps, level) <= filled(caps, level + by),
        by >= 1 ==> filled(caps, level + by) >= filled(caps, level) + open_count(caps, level),
    decreases caps.len(),
{
    if caps.len() > 0 {
        let rest = caps.drop_last();
        lemma_filled_raise(rest, level, by);
        let n = open_count(rest, level);
        assert(by * (n + 1) == by * n + by) by (nonlinear_arith);
    } else {
        assert(by * 0 == 0) by (nonlinear_arith);
    }
}

/// A higher level holds at least as much.
pub proof fn lemma_filled_monotone(caps: Seq<nat>, low: nat, high: nat)
    requires
        low <= high,
    ensures
        filled(caps, low) <= filled(caps, high),
{
    lemma_filled_raise(caps, low, (high - low) as nat);
}

/// Where no capacity is open, each is at or below the level.
pub proof fn lemma_none_open(caps: Seq<nat>, level: nat)
    requires
        open_count(caps, level) == 0,
    ensures
        forall|i: int| 0 <= i < caps.len() ==> caps[i] <= level,
    decreases caps.len(),
{
    if caps.len() > 0 {
        lemma_none_open(caps.drop_last(), level);
        assert forall|i: int| 0 <= i < caps.len() implies caps[i] <= level by {
            if i < caps.len() - 1 {
                assert(caps[i] == caps.drop_last()[i]);
            }
        }
    }
}

/// Where a capacity is open, the level itself is held at least once.
pub proof fn lemma_open_holds_level(caps: Seq<nat>, level: nat)
    requires
        open_count(caps, level) > 0,
    ensures
        level <= filled(caps, level),
    decreases caps.len(),
{
    if caps.len() > 0 {
        if caps.last() > level {
        } else {
            lemma_open_holds_level(caps.drop_last(), level);
        }
    }
}

/// What `highest_fitting` finds fits, and the next level up, if it is within
/// the range searched, does not.
pub proof fn lemma_highest_fitting(caps: Seq<nat>, ceiling: nat, from: nat)
    ensures
        highest_fitting(caps, ceiling, from) <= from,
        filled(caps, highest_fitting(caps, ceiling, from)) <= ceiling,
        highest_fitting(caps, ceiling, from) < from ==> filled(
            caps,
            highest_fitting(caps, ceiling, from) + 1,
        ) > ceiling,
    decreases from,
{
    if from == 0 {
        lemma_filled_zero(caps);
    } else if filled(caps, from) <= ceiling {
    } else {
        lemma_highest_fitting(caps, ceiling, (from - 1) as nat);
    }
}

/// The level that water-filling reaches fits and cannot be raised.
pub proof fn lemma_water_level_settled(caps: Seq<nat>, ceiling: nat)
    ensures
        is_water_level(caps, ceiling, water_level(caps, ceiling)),
        water_level(caps, ceiling) <= ceiling,
{
    let level = water_level(caps, ceiling);
    lemma_highest_fitting(caps, ceiling, ceiling);
    lemma_filled_step(caps, level);
    if level == ceiling && open_count(caps, level) > 0 {
        lemma_open_holds_level(caps, level);
    }
}

/// Two levels that both fit and cannot be raised hand out the same shares.
pub proof fn lemma_water_level_unique(caps: Seq<nat>, ceiling: nat, first: nat, second: nat)
    requires
        is_water_level(caps, ceiling, first),
        is_water_level(caps, ceiling, second),
    ensures
        forall|i: int| 0 <= i < caps.len() ==> capped(caps[i], first) == capped(caps[i], second),
{
    if first < second {
        lemma_filled_step(caps, first);
        lemma_filled_monotone(caps, first + 1, second);
        lemma_none_open(caps, first);
    } else if second < first {
        lemma_filled_step(caps, second);
        lemma_filled_monotone(caps, second + 1, first);
        lemma_none_open(caps, second);
    }
}

/// Water-filling under a ceiling gives each capacity at least what it holds
/// at any level that fits under the ceiling.
pub proof fn lemma_water_level_covers(caps: Seq<nat>, ceiling: nat, level: nat)
    requires
        filled(caps, level) <= ceiling,
    ensures
        forall|i: int|
            0 <= i < caps.len() ==> capped(caps[i], level) <= capped(
                caps[i],
                water_level(caps, ceiling),
            ),
{
    let reached = water_level(caps, ceiling);
    lemma_water_level_settled(caps, ceiling);
    if reached < level {
        lemma_filled_step(caps, reached);
        lemma_filled_monotone(caps, reached + 1, level);
        lemma_none_open(caps, reached);
    }
}

/// A level that fits and cannot be raised hands out the water-fill shares.
pub proof fn lemma_settled_is_water_fill(caps: Seq<nat>, ceiling: nat, level: nat)
    requires
        is_water_level(caps, ceiling, level),
    ensures
        Seq::new(caps.len(), |i: int| capped(caps[i], level)) == water_fill(caps, ceiling),
{
    lemma_water_level_settled(caps, ceiling);
    lemma_water_level_unique(caps, ceiling, level, water_level(caps, ceiling));
    assert(Seq::new(caps.len(), |i: int| capped(caps[i], level)) =~= water_fill(caps, ceiling));
}

} // verus!
