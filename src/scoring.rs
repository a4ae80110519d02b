use vstd::prelude::*;

use vstd::arithmetic::div_mod::{lemma_div_is_ordered, lemma_div_multiples_vanish};

verus! {

/// Points for any fully correct answer.
pub const BASE_POINTS: u32 = 500;

/// Greatest bonus for answering early: the first of the joined players
/// gets all of it, the last the share of one player.
pub const ORDER_BONUS: u32 = 300;

/// Greatest bonus for time left: all of it for an answer at the start.
pub const TIME_BONUS: u32 = 200;

/// The most points one answer can earn.
pub const MAX_POINTS: u32 = 1000;

/// A whole, in thousandths.
pub const PERMILLE: u32 = 1000;

/// The bonus of the `order`-th answer (1-based; 0 counts as first) among
/// `joined` players: the order bonus times the share of players who came
/// no sooner, rounded down; nothing past the last player.
pub open spec fn order_bonus(order: nat, joined: nat) -> nat {
    let p = if order == 0 {
        1
    } else {
        order
    };
    if p <= joined {
        (ORDER_BONUS * (joined + 1 - p) / (joined as int)) as nat
    } else {
        0
    }
}

/// The bonus for `remaining` thousandths of the time left (capped at a
/// whole).
pub open spec fn time_bonus(remaining: nat) -> nat {
    let t = if remaining > PERMILLE {
        PERMILLE as nat
    } else {
        remaining
    };
    (TIME_BONUS * t / (PERMILLE as int)) as nat
}

/// The points of one answer: nothing unless fully correct; else the base
/// and both bonuses.
pub open spec fn points(is_fully_correct: bool, order: nat, joined: nat, remaining: nat) -> nat {
    if !is_fully_correct {
        0
    } else {
        (BASE_POINTS + order_bonus(order, joined) + time_bonus(remaining)) as nat
    }
}

proof fn lemma_order_bonus_bound(order: nat, joined: nat)
    ensures
        order_bonus(order, joined) <= ORDER_BONUS,
{
    let p: nat = if order == 0 {
        1
    } else {
        order
    };
    if p <= joined {
        let j = joined as int;
        assert(ORDER_BONUS * (j + 1 - p) <= ORDER_BONUS * j) by (nonlinear_arith)
            requires
                p >= 1,
        ;
        lemma_div_is_ordered(ORDER_BONUS * (j + 1 - p), ORDER_BONUS * j, j);
        lemma_div_multiples_vanish(ORDER_BONUS as int, j);
    }
}

proof fn lemma_time_bonus_bound(remaining: nat)
    ensures
        time_bonus(remaining) <= TIME_BONUS,
{
    let t: int = if remaining > PERMILLE {
        PERMILLE as int
    } else {
        remaining as int
    };
    lemma_div_is_ordered(TIME_BONUS * t, TIME_BONUS * PERMILLE, PERMILLE as int);
    lemma_div_multiples_vanish(TIME_BONUS as int, PERMILLE as int);
}

/// No answer earns more than the most points.
pub proof fn lemma_points_bound(is_fully_correct: bool, order: nat, joined: nat, remaining: nat)
    ensures
        points(is_fully_correct, order, joined, remaining) <= MAX_POINTS,
{
    lemma_order_bonus_bound(order, joined);
    lemma_time_bonus_bound(remaining);
}

/// Of two answers alike but for their order, the earlier one never
/// scores less.
pub proof fn lemma_points_monotone_in_order(
    is_fully_correct: bool,
    earlier: nat,
    later: nat,
    joined: nat,
    remaining: nat,
)
    requires
        earlier <= later,
    ensures
        points(is_fully_correct, earlier, joined, remaining) >= points(
            is_fully_correct,
            later,
            joined,
            remaining,
        ),
{
    let pos_earlier: nat = if earlier == 0 {
        1
    } else {
        earlier
    };
    let pos_later: nat = if later == 0 {
        1
    } else {
        later
    };
    if pos_later <= joined {
        let j = joined as int;
        assert(ORDER_BONUS * (j + 1 - pos_later) <= ORDER_BONUS * (j + 1 - pos_earlier)) by (nonlinear_arith)
            requires
                pos_earlier <= pos_later,
        ;
        lemma_div_is_ordered(ORDER_BONUS * (j + 1 - pos_later), ORDER_BONUS * (j + 1 - pos_earlier), j);
    }
}

/// The points of an answer: `answer_order` is its 1-based rank among the
/// answers to the question, `joined_count` the number of joined players,
/// `remaining_permille` the share of the answer time still left.
pub fn score(
    is_fully_correct: bool,
    answer_order: usize,
    joined_count: usize,
    remaining_permille: u32,
) -> (r: u32)
    ensures
        r == points(is_fully_correct, answer_order as nat, joined_count as nat, remaining_permille as nat),
        r <= MAX_POINTS,
{
    proof {
        lemma_order_bonus_bound(answer_order as nat, joined_count as nat);
        lemma_time_bonus_bound(remaining_permille as nat);
    }
    if !is_fully_correct {
        return 0;
    }
    let p: usize = if answer_order == 0 {
        1
    } else {
        answer_order
    };
    let order_part: u32 = if p <= joined_count {
        let share: u128 = (ORDER_BONUS as u128) * ((joined_count - p + 1) as u128);
        (share / (joined_count as u128)) as u32
    } else {
        0
    };
    let t: u32 = if remaining_permille > PERMILLE {
        PERMILLE
    } else {
        remaining_permille
    };
    let time_part: u32 = TIME_BONUS * t / PERMILLE;
    BASE_POINTS + order_part + time_part
}

/// Thousandths of the answer time of `time_seconds` seconds still left at
/// `now`, for a question shown at `started_at` (both in milliseconds):
/// all of it up to the start, none from the end on, and none for a
/// question without time.
pub open spec fn remaining_share(started_at: int, now: int, time_seconds: nat) -> nat {
    let limit: int = (time_seconds * 1000) as int;
    let elapsed: int = now - started_at;
    if limit == 0 || elapsed >= limit {
        0
    } else if elapsed <= 0 {
        PERMILLE as nat
    } else {
        ((limit - elapsed) * PERMILLE / limit) as nat
    }
}

/// Computes `remaining_share`.
pub fn remaining_permille(started_at: i64, now: i64, time_seconds: u32) -> (r: u32)
    ensures
        r == remaining_share(started_at as int, now as int, time_seconds as nat),
        r <= PERMILLE,
{
    let limit: i128 = (time_seconds as i128) * 1000;
    let elapsed: i128 = (now as i128) - (started_at as i128);
    if limit == 0 || elapsed >= limit {
        0
    } else if elapsed <= 0 {
        PERMILLE
    } else {
        proof {
            let l = limit as int;
            let e = elapsed as int;
            assert((l - e) * PERMILLE <= l * PERMILLE) by (nonlinear_arith)
                requires
                    e > 0,
                    l > 0,
            ;
            lemma_div_is_ordered((l - e) * PERMILLE, l * PERMILLE, l);
            lemma_div_multiples_vanish(PERMILLE as int, l);
            assert((l - e) * PERMILLE >= 0) by (nonlinear_arith)
                requires
                    e < l,
            ;
        }
        (((limit - elapsed) * (PERMILLE as i128)) / limit) as u32
    }
}

} // verus!
