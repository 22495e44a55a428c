//! What the engine's figures say of the frames that were counted.

use vstd::prelude::*;

use crate::engine::{Stats, SECOND};
use crate::precision::SINGLE;
use crate::status::Report;

verus! {

/// Times that are added up stay below this: half a year, in nanoseconds.
pub const LONG_TIME: u64 = 16_777_216_000_000_000;

/// A number of few digits is kept.
proof fn lemma_kept(n: int)
    requires
        0 <= n < SINGLE,
    ensures
        crate::precision::nearest(n, 1, SINGLE as int) == n,
{
    assert(n < 1 * SINGLE);
    assert(n / 1 == n && n % 1 == 0);
}

/// Seconds are the nanoseconds, to within 124 of them and the rounding of the digits.
proof fn lemma_seconds(nanoseconds: int)
    requires
        0 <= nanoseconds < LONG_TIME,
    ensures
        ({
            let (s, l) = (SECOND as int, SINGLE as int);
            let time = crate::engine::seconds(nanoseconds);
            &&& 0 <= time
            &&& l * (time * 1_000_000_000 - nanoseconds * s) <= l * (124 * s) + nanoseconds * s
            &&& l * (nanoseconds * s - time * 1_000_000_000) <= l * (124 * s) + nanoseconds * s
        }),
{
    let (s, l) = (SECOND as int, SINGLE as int);
    let (w, r) = (nanoseconds / 1_000_000_000, nanoseconds % 1_000_000_000);
    lemma_kept(w);
    let rest = crate::precision::nearest(r, 1, l);
    crate::precision::lemma_nearest(r, 1, l);
    crate::precision::lemma_nearest_error(r, 1, l);
    assert(rest * 1 == rest);
    assert(r - 61 <= rest <= r + 61);
    let part = crate::precision::nearest(rest * s, 1_000_000_000, l);
    crate::precision::lemma_nearest(rest * s, 1_000_000_000, l);
    crate::precision::lemma_nearest_error(rest * s, 1_000_000_000, l);
    assert(r * s - 122 * s <= part * 1_000_000_000 <= r * s + 122 * s);
    let sum = w * s + part;
    assert(nanoseconds * s == 1_000_000_000 * (w * s) + r * s) by (nonlinear_arith)
        requires
            nanoseconds == 1_000_000_000 * w + r,
    ;
    crate::precision::lemma_nearest(sum, 1, l);
    crate::precision::lemma_nearest_error(sum, 1, l);
    let time = crate::precision::nearest(sum, 1, l);
    assert(time * 1 == time);
}

/// The milliseconds for each of a number of frames, times the frames, are the whole time.
proof fn lemma_milliseconds_each(nanoseconds: int, frames: int)
    requires
        0 <= nanoseconds < LONG_TIME,
        0 < frames < SINGLE,
    ensures
        ({
            let (s, l) = (SECOND as int, SINGLE as int);
            let each = crate::engine::milliseconds_each(nanoseconds, frames);
            let all = (each * frames) * 1_000_000;
            &&& 0 <= each
            &&& l * (all - nanoseconds * s) <= l * (127 * s) + 4 * (nanoseconds * s)
            &&& l * (nanoseconds * s - all) <= l * (127 * s) + 4 * (nanoseconds * s)
        }),
{
    let (s, l) = (SECOND as int, SINGLE as int);
    let time = crate::engine::seconds(nanoseconds);
    lemma_seconds(nanoseconds);
    lemma_kept(frames);
    let whole = crate::precision::nearest(time * 1000, 1, l);
    crate::precision::lemma_nearest(time * 1000, 1, l);
    crate::precision::lemma_nearest_error(time * 1000, 1, l);
    assert(whole * 1 == whole);
    crate::precision::lemma_nearest(whole, frames, l);
    crate::precision::lemma_nearest_error(whole, frames, l);
    let each = crate::engine::milliseconds_each(nanoseconds, frames);
    let product = each * frames;
    assert(l * frames <= l * l) by (nonlinear_arith)
        requires
            0 < frames < l,
    ;
    assert(l * product <= l * whole + whole + l * frames);
    assert(0 <= nanoseconds * s <= LONG_TIME * s);
}

/// The figures go by what was counted of their own: the time for each frame is the
/// processing time divided by the frames, in tenths of milliseconds, and the latency
/// is that of the frames whose age was known, in milliseconds; both to the nearest.
pub proof fn law_the_figures_are_means(
    report: Report,
    stats: Stats,
    now: u64,
    model: Option<Seq<char>>,
)
    requires
        0 < stats.frames < SINGLE,
        stats.latency_samples < SINGLE,
        stats.processing < LONG_TIME,
        stats.latency < LONG_TIME,
    ensures
        ({
            let shown = crate::engine::measured(report, stats, now, model);
            let all = shown.processing_tenths * stats.frames * 100_000 - stats.processing;
            let slack = stats.frames * 100_000 + 300 + stats.processing / 0x10_0000;
            &&& -slack <= 2 * all <= slack
            &&& shown.latency_ms is Some <==> stats.latency_samples > 0
            &&& shown.latency_ms matches Some(latency) ==> {
                let late = latency * stats.latency_samples * 1_000_000 - stats.latency;
                let rest = stats.latency_samples * 1_000_000 + 300 + stats.latency / 0x10_0000;
                -rest <= 2 * late <= rest
            }
        }),
{
    lemma_mean(stats.processing as int, stats.frames as int, 10, 100_000);
    if stats.latency_samples > 0 {
        lemma_mean(stats.latency as int, stats.latency_samples as int, 1, 1_000_000);
    }
}

/// A mean in parts of a millisecond.
proof fn lemma_mean(nanoseconds: int, frames: int, parts: int, unit: int)
    requires
        0 <= nanoseconds < LONG_TIME,
        0 < frames < SINGLE,
        parts == 1 && unit == 1_000_000 || parts == 10 && unit == 100_000,
    ensures
        ({
            let mean = crate::precision::to_even(
                parts * crate::engine::milliseconds_each(nanoseconds, frames),
                SECOND as int,
            );
            let away = mean * frames * unit - nanoseconds;
            let slack = frames * unit + 300 + nanoseconds / 0x10_0000;
            &&& -slack <= 2 * away <= slack
            &&& 0 <= mean <= u64::MAX
        }),
{
    let (s, l) = (SECOND as int, SINGLE as int);
    let each = crate::engine::milliseconds_each(nanoseconds, frames);
    lemma_milliseconds_each(nanoseconds, frames);
    let mean = crate::precision::to_even(parts * each, s);
    assert(0 <= parts * each) by (nonlinear_arith)
        requires
            0 <= parts,
            0 <= each,
    ;
    crate::precision::lemma_to_even(parts * each, s);
    let whole = (each * frames) * 1_000_000;
    let weight = frames * unit;
    let total = mean * frames * unit;
    assert(0 < weight) by (nonlinear_arith)
        requires
            weight == frames * unit,
            0 < frames,
            0 < unit,
    ;
    assert(weight * (parts * each) == whole) by (nonlinear_arith)
        requires
            weight == frames * unit,
            whole == (each * frames) * 1_000_000,
            unit * parts == 1_000_000,
    ;
    assert(weight * (2 * (mean * s)) == 2 * (total * s)) by (nonlinear_arith)
        requires
            weight == frames * unit,
            total == mean * frames * unit,
    ;
    assert(2 * (total * s) <= 2 * whole + weight * s && 2 * whole - weight * s <= 2 * (total * s))
        by (nonlinear_arith)
        requires
            2 * (mean * s) <= 2 * (parts * each) + s,
            2 * (parts * each) - s <= 2 * (mean * s),
            weight * (parts * each) == whole,
            weight * (2 * (mean * s)) == 2 * (total * s),
            0 < weight,
    {
        assert(weight * (2 * (mean * s)) <= weight * (2 * (parts * each) + s));
        assert(weight * (2 * (parts * each) - s) <= weight * (2 * (mean * s)));
        assert(weight * (2 * (parts * each) + s) == 2 * (weight * (parts * each)) + weight * s);
        assert(weight * (2 * (parts * each) - s) == 2 * (weight * (parts * each)) - weight * s);
    }
    // In nanoseconds.
    let away = total - nanoseconds;
    assert(l * (2 * away - weight - 254) <= 8 * nanoseconds && l * (-2 * away - weight - 254) <= 8
        * nanoseconds) by (nonlinear_arith)
        requires
            2 * (total * s) <= 2 * whole + weight * s,
            2 * whole - weight * s <= 2 * (total * s),
            l * (whole - nanoseconds * s) <= l * (127 * s) + 4 * (nanoseconds * s),
            l * (nanoseconds * s - whole) <= l * (127 * s) + 4 * (nanoseconds * s),
            away == total - nanoseconds,
            0 < s,
            0 < l,
    {
        assert(s * (2 * away - weight) <= 2 * (whole - nanoseconds * s));
        assert(s * (-2 * away - weight) <= 2 * (nanoseconds * s - whole));
        assert(l * (s * (2 * away - weight)) <= 2 * (l * (127 * s) + 4 * (nanoseconds * s)));
        assert(l * (s * (-2 * away - weight)) <= 2 * (l * (127 * s) + 4 * (nanoseconds * s)));
        assert(s * (l * (2 * away - weight - 254) - 8 * nanoseconds) <= 0);
        assert(s * (l * (-2 * away - weight - 254) - 8 * nanoseconds) <= 0);
    }
    assert(2 * away - weight - 254 <= nanoseconds / 0x10_0000 + 1);
    assert(-2 * away - weight - 254 <= nanoseconds / 0x10_0000 + 1);
    assert(mean <= total) by (nonlinear_arith)
        requires
            total == mean * frames * unit,
            0 <= mean,
            1 <= frames,
            1 <= unit,
    {
        assert(mean <= mean * frames);
        assert(mean * frames <= (mean * frames) * unit);
    }
    assert(weight <= 16_777_216 * 1_000_000) by (nonlinear_arith)
        requires
            weight == frames * unit,
            0 < frames < 16_777_216,
            0 < unit <= 1_000_000,
    ;
}

} // verus!
