//! The economy rules: what a level produces, what it costs, how currency
//! accrues over time, and how far a balance reaches.
//!
//! Currency is counted in whole units and time in whole seconds. Both
//! multipliers are given in hundredths, so every level's figure is the exact
//! value `base * (percent / 100)^level` rounded to the nearest unit.

use crate::growth::{
    grown, lemma_grown_monotone, lemma_grown_nonnegative, lemma_pow_succ, lemma_round_at_least,
    lemma_round_bounds, lemma_round_reaches, lemma_round_unique, Growth,
};
use vstd::arithmetic::power::*;
use vstd::arithmetic::power2::*;
use vstd::prelude::*;

verus! {

/// Units produced per second at level 0.
pub const BASE_PRODUCTION: u64 = 1;

/// Growth of the per-level production, in hundredths (1.10).
pub const PRODUCTION_MULTIPLIER_PERCENT: u32 = 110;

/// Cost figure of level 0.
pub const BASE_COST: u64 = 5;

/// Growth of the per-level cost, in hundredths (1.15).
pub const COST_MULTIPLIER_PERCENT: u32 = 115;

/// From this level on, a cost figure is more than a `u64` holds.
pub const COST_LEVEL_LIMIT: u32 = 320;

/// Cost figure of a level: `BASE_COST * 1.15^level`, rounded.
pub open spec fn cost_of_level(level: nat) -> int {
    grown(BASE_COST as int, COST_MULTIPLIER_PERCENT as int, level)
}

/// What one level adds to the production: `BASE_PRODUCTION * 1.1^level`,
/// rounded.
pub open spec fn production_of_level(level: nat) -> int {
    grown(BASE_PRODUCTION as int, PRODUCTION_MULTIPLIER_PERCENT as int, level)
}

/// Units produced per second at a level: the base production plus the
/// rounded contribution of every level from 1 up to it.
pub open spec fn production(level: nat) -> int
    decreases level,
{
    if level == 0 {
        BASE_PRODUCTION as int
    } else {
        production((level - 1) as nat) + production_of_level(level)
    }
}

/// The price of rising from level `from` to level `to`: the cost figures of
/// the levels `from + 1 ..= to`, added up.
pub open spec fn cumulative_cost(from: nat, to: nat) -> int
    decreases to,
{
    if to <= from {
        0
    } else {
        cumulative_cost(from, (to - 1) as nat) + cost_of_level(to)
    }
}

/// Seconds between two instants, zero where the clock ran backwards.
pub open spec fn elapsed_seconds(last: int, now: int) -> int {
    if now > last {
        now - last
    } else {
        0
    }
}

/// The balance after settling the time from `last` to `now` at a level.
pub open spec fn accrued_balance(balance: int, level: nat, last: int, now: int) -> int {
    balance + production(level) * elapsed_seconds(last, now)
}

/// `to` is the highest level that `balance` pays for, starting at `from`.
pub open spec fn highest_affordable(balance: int, from: nat, to: nat) -> bool {
    &&& from < to
    &&& cumulative_cost(from, to) <= balance
    &&& forall|higher: nat| to < higher ==> cumulative_cost(from, higher) > balance
}

/// The highest level that `balance` pays for from `from`, where it pays for
/// one at all.
pub open spec fn reachable_level(balance: int, from: nat) -> nat {
    choose|to: nat| highest_affordable(balance, from, to)
}

/// The first cost figures, worked out.
pub proof fn lemma_first_costs()
    ensures
        cost_of_level(0) == 5,
        cost_of_level(1) == 6,
        cost_of_level(2) == 7,
        cost_of_level(3) == 8,
{
    lemma_pow0(115);
    lemma_pow0(100);
    lemma_pow_succ(115, 0);
    lemma_pow_succ(100, 0);
    lemma_pow_succ(115, 1);
    lemma_pow_succ(100, 1);
    lemma_pow_succ(115, 2);
    lemma_pow_succ(100, 2);
    assert(pow(115, 1) == 115 && pow(100, 1) == 100);
    assert(pow(115, 2) == 13225 && pow(100, 2) == 10000);
    assert(pow(115, 3) == 1520875 && pow(100, 3) == 1000000);
    lemma_round_unique(5 * pow(115, 0), pow(100, 0), 5);
    lemma_round_unique(5 * pow(115, 1), pow(100, 1), 6);
    lemma_round_unique(5 * pow(115, 2), pow(100, 2), 7);
    lemma_round_unique(5 * pow(115, 3), pow(100, 3), 8);
}

/// From level 3 on the exact cost is above 20/3.
proof fn lemma_cost_large(level: nat)
    requires
        level >= 3,
    ensures
        3 * (5 * pow(115, level)) >= 20 * pow(100, level),
    decreases level,
{
    if level == 3 {
        lemma_pow0(115);
        lemma_pow0(100);
        lemma_pow_succ(115, 0);
        lemma_pow_succ(100, 0);
        lemma_pow_succ(115, 1);
        lemma_pow_succ(100, 1);
        lemma_pow_succ(115, 2);
        lemma_pow_succ(100, 2);
        assert(pow(115, 1) == 115 && pow(100, 1) == 100);
        assert(pow(115, 2) == 13225 && pow(100, 2) == 10000);
    } else {
        let prev = (level - 1) as nat;
        lemma_cost_large(prev);
        lemma_pow_succ(115, prev);
        lemma_pow_succ(100, prev);
        lemma_pow_positive(115, prev);
    }
}

/// Every level costs more than the one before.
pub proof fn lemma_cost_strictly_increasing(level: nat)
    ensures
        cost_of_level(level) < cost_of_level(level + 1),
{
    if level < 3 {
        lemma_first_costs();
    } else {
        let n = 5 * pow(115, level);
        let d = pow(100, level);
        let r = cost_of_level(level);
        lemma_cost_large(level);
        lemma_pow_succ(115, level);
        lemma_pow_succ(100, level);
        lemma_pow_positive(100, level);
        lemma_round_bounds(n, d);
        assert(5 * (115 * pow(115, level)) == 115 * n) by (nonlinear_arith)
            requires
                n == 5 * pow(115, level),
        ;
        assert(2 * (r + 1) * (100 * d) <= 2 * (115 * n) + 100 * d) by (nonlinear_arith)
            requires
                d > 0,
                2 * r * d <= 2 * n + d,
                3 * n >= 20 * d,
        ;
        lemma_round_reaches(115 * n, 100 * d, r + 1);
    }
}

/// Costs are strictly increasing over any distance.
pub proof fn lemma_cost_increasing(low: nat, high: nat)
    requires
        low < high,
    ensures
        cost_of_level(low) < cost_of_level(high),
    decreases high - low,
{
    lemma_cost_strictly_increasing((high - 1) as nat);
    if low + 1 < high {
        lemma_cost_increasing(low, (high - 1) as nat);
    }
}

/// No level costs less than the base cost.
pub proof fn lemma_cost_at_least_base(level: nat)
    ensures
        cost_of_level(level) >= BASE_COST,
{
    lemma_first_costs();
    if level > 0 {
        lemma_cost_increasing(0, level);
    }
}

/// The production starts at the base production and never falls as the
/// level rises.
pub proof fn lemma_production_monotone(low: nat, high: nat)
    requires
        low <= high,
    ensures
        production(0) == BASE_PRODUCTION,
        production(low) <= production(high),
    decreases high - low,
{
    if low < high {
        lemma_production_monotone(low, (high - 1) as nat);
        lemma_grown_nonnegative(
            BASE_PRODUCTION as int,
            PRODUCTION_MULTIPLIER_PERCENT as int,
            high,
        );
    }
}

/// The production is at least the base production, and at least what the
/// level itself contributes.
pub proof fn lemma_production_bounds(level: nat)
    ensures
        production(level) >= BASE_PRODUCTION,
        level > 0 ==> production(level) >= production_of_level(level),
{
    lemma_production_monotone(0, level);
    if level > 0 {
        lemma_production_monotone(0, (level - 1) as nat);
    }
}

/// Settling at the instant of the last settlement, or at an earlier one,
/// leaves the balance as it is.
pub proof fn lemma_accrual_without_time(balance: int, level: nat, last: int, now: int)
    requires
        now <= last,
    ensures
        accrued_balance(balance, level, last, now) == balance,
{
}

/// Settling never takes from the balance.
pub proof fn lemma_accrual_never_loses(balance: int, level: nat, last: int, now: int)
    ensures
        accrued_balance(balance, level, last, now) >= balance,
{
    lemma_production_bounds(level);
    assert(production(level) * elapsed_seconds(last, now) >= 0) by (nonlinear_arith)
        requires
            production(level) >= 0,
            elapsed_seconds(last, now) >= 0,
    ;
}

/// The price of a rise grows with every further level.
pub proof fn lemma_cumulative_increasing(from: nat, low: nat, high: nat)
    requires
        from <= low < high,
    ensures
        cumulative_cost(from, low) < cumulative_cost(from, high),
    decreases high - low,
{
    lemma_cost_at_least_base(high);
    if low + 1 < high {
        lemma_cumulative_increasing(from, low, (high - 1) as nat);
    }
}

/// A balance has one highest affordable level at most, so that a level known
/// to be the highest is the reachable level.
pub proof fn lemma_reachable_level(balance: int, from: nat, to: nat)
    requires
        highest_affordable(balance, from, to),
    ensures
        reachable_level(balance, from) == to,
{
    let chosen = reachable_level(balance, from);
    assert(highest_affordable(balance, from, chosen));
    if chosen < to {
        assert(cumulative_cost(from, to) > balance);
    } else if to < chosen {
        assert(cumulative_cost(from, chosen) > balance);
    }
}

/// A level that is the highest affordable is paid for by the balance, and
/// no higher level is.
pub proof fn lemma_no_higher_level(balance: int, from: nat, to: nat, higher: nat)
    requires
        from < to,
        cumulative_cost(from, to) <= balance < cumulative_cost(from, to + 1),
        to < higher,
    ensures
        highest_affordable(balance, from, to),
        cumulative_cost(from, higher) > balance,
{
    assert forall|h: nat| to < h implies cumulative_cost(from, h) > balance by {
        if to + 1 < h {
            lemma_cumulative_increasing(from, to + 1, h);
        }
    }
}

/// A balance that pays for the rise to `to` has a highest affordable level,
/// at `to` or above.
pub proof fn lemma_highest_affordable_exists(balance: int, from: nat, to: nat) -> (top: nat)
    requires
        from < to,
        cumulative_cost(from, to) <= balance,
    ensures
        to <= top,
        highest_affordable(balance, from, top),
        reachable_level(balance, from) == top,
    decreases balance - cumulative_cost(from, to),
{
    lemma_cost_at_least_base(to + 1);
    if cumulative_cost(from, to + 1) > balance {
        lemma_no_higher_level(balance, from, to, to + 1);
        lemma_reachable_level(balance, from, to);
        to
    } else {
        lemma_highest_affordable_exists(balance, from, to + 1)
    }
}

/// Five levels at least double the exact cost.
proof fn lemma_cost_doubling(k: nat)
    ensures
        pow(115, 5 * k) >= pow(2, k) * pow(100, 5 * k),
        pow(2, k) > 0,
    decreases k,
{
    lemma_pow_positive(2, k);
    if k == 0 {
        lemma_pow0(115);
        lemma_pow0(100);
        lemma_pow0(2);
    } else {
        let j = (k - 1) as nat;
        lemma_cost_doubling(j);
        lemma_pow_adds(115, 5 * j, 5);
        lemma_pow_adds(100, 5 * j, 5);
        lemma_pow_succ(2, j);
        lemma_pow0(115);
        lemma_pow0(100);
        lemma_pow_succ(115, 0);
        lemma_pow_succ(100, 0);
        lemma_pow_succ(115, 1);
        lemma_pow_succ(100, 1);
        lemma_pow_succ(115, 2);
        lemma_pow_succ(100, 2);
        lemma_pow_succ(115, 3);
        lemma_pow_succ(100, 3);
        lemma_pow_succ(115, 4);
        lemma_pow_succ(100, 4);
        assert(pow(115, 1) == 115 && pow(100, 1) == 100);
        assert(pow(115, 2) == 13225 && pow(100, 2) == 10000);
        assert(pow(115, 3) == 1520875 && pow(100, 3) == 1000000);
        assert(pow(115, 4) == 174900625 && pow(100, 4) == 100000000);
        assert(pow(115, 5) == 20113571875 && pow(100, 5) == 10000000000);
        lemma_pow_positive(100, 5 * j);
        lemma_pow_positive(2, j);
        let a = pow(115, 5 * j);
        let b = pow(100, 5 * j);
        let c = pow(2, j);
        assert(a * 20113571875 >= (2 * c) * (b * 10000000000)) by (nonlinear_arith)
            requires
                a >= c * b,
                b > 0,
                c > 0,
        ;
        assert(5 * j + 5 == 5 * k);
    }
}

/// A level at or beyond the limit costs more than a `u64` holds.
pub proof fn lemma_cost_unbounded(level: nat)
    requires
        level >= COST_LEVEL_LIMIT,
    ensures
        cost_of_level(level) > u64::MAX,
{
    lemma_cost_doubling(64);
    lemma2_to64();
    lemma_pow2(64);
    lemma_pow_positive(100, 320);
    assert(pow(2, 64) == 0x1_0000_0000_0000_0000);
    assert((u64::MAX + 1) * pow(100, 320) <= 5 * pow(115, 320)) by (nonlinear_arith)
        requires
            pow(115, 320) >= 0x1_0000_0000_0000_0000 * pow(100, 320),
            pow(100, 320) > 0,
    ;
    lemma_round_at_least(5 * pow(115, 320), pow(100, 320), u64::MAX + 1);
    lemma_grown_monotone(5, 115, 320, level);
}

/// The cost figure of a level, or `None` where it is more than a `u64`
/// holds.
pub fn cost_at(level: u32) -> (cost: Option<u64>)
    ensures
        cost == (if cost_of_level(level as nat) <= u64::MAX {
            Some(cost_of_level(level as nat) as u64)
        } else {
            None
        }),
{
    if level >= COST_LEVEL_LIMIT {
        proof {
            lemma_cost_unbounded(level as nat);
        }
        return None;
    }
    let mut g = Growth::start(BASE_COST, COST_MULTIPLIER_PERCENT);
    let mut i: u32 = 0;
    while i < level
        invariant
            i <= level,
            g.wf(),
            g.base() == BASE_COST,
            g.percent() == COST_MULTIPLIER_PERCENT,
            g.steps() == i,
        decreases level - i,
    {
        g = match g.step() {
            Some(next) => next,
            None => {
                proof {
                    lemma_grown_monotone(5, 115, (i + 1) as nat, level as nat);
                }
                return None;
            },
        };
        i += 1;
    }
    g.rounded()
}

/// The production at a level, or `None` where it is more than a `u64`
/// holds.
pub fn production_at(level: u32) -> (rate: Option<u64>)
    ensures
        rate == (if production(level as nat) <= u64::MAX {
            Some(production(level as nat) as u64)
        } else {
            None
        }),
{
    let mut g = Growth::start(BASE_PRODUCTION, PRODUCTION_MULTIPLIER_PERCENT);
    let mut total: u64 = BASE_PRODUCTION;
    let mut i: u32 = 0;
    while i < level
        invariant
            i <= level,
            g.wf(),
            g.base() == BASE_PRODUCTION,
            g.percent() == PRODUCTION_MULTIPLIER_PERCENT,
            g.steps() == i,
            total == production(i as nat),
        decreases level - i,
    {
        proof {
            lemma_production_bounds((i + 1) as nat);
            lemma_production_monotone((i + 1) as nat, level as nat);
            assert(production((i + 1) as nat) == production(i as nat) + production_of_level(
                (i + 1) as nat,
            ));
        }
        let next = match g.step() {
            Some(next) => next,
            None => {
                return None;
            },
        };
        let term = match next.rounded() {
            Some(term) => term,
            None => {
                return None;
            },
        };
        total = match total.checked_add(term) {
            Some(sum) => sum,
            None => {
                return None;
            },
        };
        g = next;
        i += 1;
    }
    Some(total)
}

/// How far `balance` reaches from `level`: the highest level it pays for and
/// the price of the rise, or `None` where it does not pay for one level.
pub fn affordable_level(balance: u64, level: u32) -> (reach: Option<(u32, u64)>)
    ensures
        reach is None <==> balance < cost_of_level(level as nat + 1),
        match reach {
            Some((top, price)) => {
                &&& highest_affordable(balance as int, level as nat, top as nat)
                &&& price == cumulative_cost(level as nat, top as nat)
            },
            None => true,
        },
{
    if level >= COST_LEVEL_LIMIT {
        proof {
            lemma_cost_unbounded(level as nat + 1);
        }
        return None;
    }
    let mut g = Growth::start(BASE_COST, COST_MULTIPLIER_PERCENT);
    let mut i: u32 = 0;
    while i < level + 1
        invariant
            i <= level + 1,
            level < COST_LEVEL_LIMIT,
            g.wf(),
            g.base() == BASE_COST,
            g.percent() == COST_MULTIPLIER_PERCENT,
            g.steps() == i,
        decreases level + 1 - i,
    {
        g = match g.step() {
            Some(next) => next,
            None => {
                proof {
                    lemma_grown_monotone(5, 115, (i + 1) as nat, level as nat + 1);
                }
                return None;
            },
        };
        i += 1;
    }
    let first = match g.rounded() {
        Some(first) => first,
        None => {
            return None;
        },
    };
    if balance < first {
        return None;
    }
    let mut top: u32 = level + 1;
    let mut price: u64 = first;
    proof {
        assert(cumulative_cost(level as nat, level as nat) == 0);
        assert(cumulative_cost(level as nat, (level + 1) as nat) == cumulative_cost(
            level as nat,
            level as nat,
        ) + cost_of_level((level + 1) as nat));
    }
    loop
        invariant_except_break
            g.wf(),
            g.base() == BASE_COST,
            g.percent() == COST_MULTIPLIER_PERCENT,
            g.steps() == top,
        invariant
            level < top <= COST_LEVEL_LIMIT,
            price == cumulative_cost(level as nat, top as nat),
            price <= balance,
        ensures
            balance < cumulative_cost(level as nat, top as nat + 1),
        decreases balance - price,
    {
        proof {
            lemma_cost_at_least_base(top as nat + 1);
            if top >= COST_LEVEL_LIMIT {
                lemma_cost_unbounded(top as nat + 1);
            }
        }
        let next = match g.step() {
            Some(next) => next,
            None => {
                break ;
            },
        };
        let cost = match next.rounded() {
            Some(cost) => cost,
            None => {
                break ;
            },
        };
        if cost > balance - price {
            break ;
        }
        price += cost;
        top += 1;
        g = next;
    }
    proof {
        lemma_cost_at_least_base(level as nat + 1);
        assert forall|higher: nat| top < higher implies cumulative_cost(level as nat, higher)
            > balance by {
            if top + 1 < higher {
                lemma_cumulative_increasing(level as nat, top as nat + 1, higher);
            }
        }
    }
    Some((top, price))
}

} // verus!
