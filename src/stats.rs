use vstd::prelude::*;

verus! {

/// Milliseconds from `start` to `end`, zero when `end` comes first.
pub open spec fn elapsed_spec(start: u64, end: u64) -> nat {
    if end >= start {
        (end - start) as nat
    } else {
        0
    }
}

/// The time, in milliseconds, that a words-per-minute figure divides by: the elapsed time,
/// but never less than a hundredth of a minute.
pub open spec fn minutes_floor_ms(start: u64, end: u64) -> nat {
    if elapsed_spec(start, end) < 600 {
        600
    } else {
        elapsed_spec(start, end)
    }
}

/// Words per minute, `words / minutes`, rounded to the nearest integer (halves round up).
pub open spec fn wpm_spec(words: nat, start: u64, end: u64) -> nat {
    (2 * words * 60000 + minutes_floor_ms(start, end)) / (2 * minutes_floor_ms(start, end))
}

/// Accuracy in tenths of a percent, `correct / (correct + incorrect) * 1000` rounded to the
/// nearest integer (halves round up), and zero when nothing was counted.
pub open spec fn accuracy_spec(correct: nat, incorrect: nat) -> nat {
    if correct + incorrect == 0 {
        0
    } else {
        (2000 * correct + (correct + incorrect)) / (2 * (correct + incorrect))
    }
}

/// Milliseconds elapsed from `start` to `end`; a clock that went back gives zero.
pub fn elapsed_ms(start: u64, end: u64) -> (r: u64)
    ensures
        r == elapsed_spec(start, end),
{
    if end >= start {
        end - start
    } else {
        0
    }
}

/// Words per minute typed between `start` and `end` (milliseconds), rounded; the time is
/// taken as at least a hundredth of a minute, so the figure stays bounded.
pub fn get_wpm(words: usize, start: u64, end: u64) -> (r: u128)
    ensures
        r == wpm_spec(words as nat, start, end),
        r <= 100 * words + 1,
{
    let e = elapsed_ms(start, end);
    let d: u128 = if e < 600 {
        600
    } else {
        e as u128
    };
    let w = words as u128;
    assert(2 * w * 60000 + d <= 2 * d * (100 * w + 1)) by (nonlinear_arith)
        requires
            d >= 600,
    ;
    proof {
        vstd::arithmetic::div_mod::lemma_div_is_ordered(
            (2 * w * 60000 + d) as int,
            (2 * d * (100 * w + 1)) as int,
            (2 * d) as int,
        );
        vstd::arithmetic::div_mod::lemma_div_multiples_vanish((100 * w + 1) as int, (2 * d) as int);
        assert((2 * d) * (100 * w + 1) == 2 * d * (100 * w + 1)) by (nonlinear_arith);
    }
    (2 * w * 60000 + d) / (2 * d)
}

/// Accuracy of the counted characters in tenths of a percent, between 0 and 1000; zero when
/// none were counted.
pub fn accuracy(correct: usize, incorrect: usize) -> (r: u64)
    ensures
        r == accuracy_spec(correct as nat, incorrect as nat),
        r <= 1000,
{
    let t = correct as u128 + incorrect as u128;
    if t == 0 {
        return 0;
    }
    let c = correct as u128;
    assert(2000 * c + t < 2 * t * 1001) by (nonlinear_arith)
        requires
            c <= t,
            t > 0,
    ;
    proof {
        assert(2 * t * 1001 == 1001 * (2 * t)) by (nonlinear_arith);
        vstd::arithmetic::div_mod::lemma_div_by_multiple_is_strongly_ordered(
            (2000 * c + t) as int,
            (2 * t * 1001) as int,
            1001,
            (2 * t) as int,
        );
        vstd::arithmetic::div_mod::lemma_div_multiples_vanish(1001, (2 * t) as int);
    }
    ((2000 * c + t) / (2 * t)) as u64
}

/// How fast a typist is, slowest first.
#[derive(Debug, Clone, Copy, PartialEq, Eq, Structural)]
pub enum SpeedTier {
    Sloth,
    Snail,
    Turtle,
    Rabbit,
    Cheetah,
    Train,
    Lightning,
}

/// The tier of `words` typed between `start` and `end`: below 10, 25, 50, 75, 100 and 125
/// words per minute, measured exactly (before rounding), come the first six tiers, and the
/// last tier from 125 on.
pub open spec fn tier_spec(words: nat, start: u64, end: u64) -> SpeedTier {
    let num = words * 60000;
    let d = minutes_floor_ms(start, end);
    if num < 10 * d {
        SpeedTier::Sloth
    } else if num < 25 * d {
        SpeedTier::Snail
    } else if num < 50 * d {
        SpeedTier::Turtle
    } else if num < 75 * d {
        SpeedTier::Rabbit
    } else if num < 100 * d {
        SpeedTier::Cheetah
    } else if num < 125 * d {
        SpeedTier::Train
    } else {
        SpeedTier::Lightning
    }
}

/// The speed tier for `words` typed between `start` and `end` (milliseconds).
pub fn speed_tier(words: usize, start: u64, end: u64) -> (r: SpeedTier)
    ensures
        r == tier_spec(words as nat, start, end),
{
    let e = elapsed_ms(start, end);
    let d: u128 = if e < 600 {
        600
    } else {
        e as u128
    };
    let num = words as u128 * 60000;
    if num < 10 * d {
        SpeedTier::Sloth
    } else if num < 25 * d {
        SpeedTier::Snail
    } else if num < 50 * d {
        SpeedTier::Turtle
    } else if num < 75 * d {
        SpeedTier::Rabbit
    } else if num < 100 * d {
        SpeedTier::Cheetah
    } else if num < 125 * d {
        SpeedTier::Train
    } else {
        SpeedTier::Lightning
    }
}

} // verus!
