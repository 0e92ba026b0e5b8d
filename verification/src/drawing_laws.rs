//! What can be activated, and how outputs are drawn, in terms of their timestamps.

use crate::accuracy_laws::size;
use crate::error::ErrorView;
use crate::geometry::OutputInfo;
use crate::ieee::{
    lemma_scaled_magnitude_monotone, scaled_magnitude, Binary64, INFINITY_64,
};
use crate::media_time::{
    lemma_known_patterns, lemma_media_time_is_finite, lemma_timeline_bounds, timeline_seconds,
    MediaTime,
};
use crate::media_time_laws::{
    law_media_times_are_accurate_seconds, law_media_times_are_nearest, law_timestamps_are_quotients,
    nanoseconds, nearest_time,
};
use crate::numbers::{lemma_nearest_exists, lemma_scaled_zero, nearest_pattern};
use crate::renderer::{AsyncVideoOutput, SharedHDRRenderer, OVERLAY_TOLERANCE};
use crate::rounding::{lemma_scaled_magnitude_of_parts, nearest};
use vstd::arithmetic::power2::{lemma2_to64, lemma2_to64_rest, lemma_pow2_adds, lemma_pow2_pos, pow2};
use vstd::prelude::*;

verus! {

/// Whether an output starts at zero or later and lasts for a while.
pub open spec fn has_timeline(info: OutputInfo) -> bool {
    info.pts_scale > 0 && info.pts_value >= 0 && info.duration_scale > 0 && info.duration_value > 0
}

/// An output that waits can be activated exactly where it has a timeline and its frame holds the
/// credit.  It comes back with that credit, under the generation of playback, starting at the nearest
/// time to its own start and lasting for the nearest time to its own duration; otherwise it is refused
/// for its timeline first, and then for the credit.  Without an output that waits, or synchronously,
/// there is nothing to activate.
pub proof fn law_waiting_output_is_offered_with_its_times(
    renderer: SharedHDRRenderer,
    info: OutputInfo,
    token: u64,
)
    ensures
        renderer.async_video && renderer.ready == Some(info) && has_timeline(info)
            && renderer.pending_token == Some((info.frame_id, token)) ==> {
            &&& renderer.async_output() matches Ok(Some(output))
            &&& output.token == token
            &&& renderer.playback_generation is Some ==> Some(output.generation)
                == renderer.playback_generation
            &&& renderer.playback_generation is None ==> output.generation == 1
            &&& nearest_time(output.pts, info.pts_value as int, info.pts_scale as int)
            &&& nearest_time(output.duration, info.duration_value as int, info.duration_scale as int)
        },
        renderer.async_video && renderer.ready == Some(info) && !has_timeline(info) ==> (
        renderer.async_output() matches Err(error) && error == ErrorView::Renderer(
            "shared HDR completion has invalid timeline"@,
        )),
        renderer.async_video && renderer.ready == Some(info) && has_timeline(info) && (
        renderer.pending_token matches Some((id, _)) ==> id != info.frame_id) ==> (
        renderer.async_output() matches Err(error) && error == ErrorView::Renderer(
            "completion has no matching asynchronous credit"@,
        )),
        !renderer.async_video || renderer.ready is None ==> renderer.async_output() == Ok::<
            Option<AsyncVideoOutput>,
            ErrorView,
        >(None),
{
    if has_timeline(info) {
        law_media_times_are_nearest(info.pts_value, info.pts_scale);
        law_media_times_are_nearest(info.duration_value, info.duration_scale);
    }
}

/// Of any two outputs that can be activated, those of one duration last equally long, whenever they
/// start, and those of one start begin together, however long they last.
pub proof fn law_start_and_duration_are_independent(
    a: SharedHDRRenderer,
    b: SharedHDRRenderer,
    first: OutputInfo,
    second: OutputInfo,
)
    requires
        a.ready == Some(first),
        b.ready == Some(second),
        a.async_output() matches Ok(Some(_)),
        b.async_output() matches Ok(Some(_)),
    ensures
        ({
            let x = a.async_output()->Ok_0->0;
            let y = b.async_output()->Ok_0->0;
            &&& first.duration_value == second.duration_value && first.duration_scale
                == second.duration_scale ==> x.duration == y.duration
            &&& first.pts_value == second.pts_value && first.pts_scale == second.pts_scale ==> x.pts
                == y.pts
        }),
{
}

/// The tolerance is the number nearest to a thousandth of a second.
pub proof fn law_tolerance_is_a_millisecond()
    ensures
        nearest(pow2(1074) as int, 1000, OVERLAY_TOLERANCE as int, 52, INFINITY_64 as int),
        OVERLAY_TOLERANCE % 2 == 0,
{
    lemma_tolerance();
    lemma2_to64_rest();
    lemma_scaled_magnitude_of_parts(0x10_624d_d2f1_a9fb, 1012, 52);
}

/// The values of the tolerance and of the number behind it.
proof fn lemma_tolerance()
    ensures
        scaled_magnitude(OVERLAY_TOLERANCE as int, 52) == 0x10_624d_d2f1_a9fc * pow2(1012),
        scaled_magnitude(OVERLAY_TOLERANCE + 1, 52) == 0x10_624d_d2f1_a9fd * pow2(1012),
        pow2(1074) == 0x4000_0000_0000_0000 * pow2(1012),
        pow2(1012) > 0,
{
    lemma2_to64();
    lemma2_to64_rest();
    lemma_pow2_pos(1012);
    lemma_pow2_adds(62, 1012);
    lemma_scaled_magnitude_of_parts(0x10_624d_d2f1_a9fc, 1012, 52);
    lemma_scaled_magnitude_of_parts(0x10_624d_d2f1_a9fd, 1012, 52);
}

/// Whether the difference of two numbers of seconds rounds to more than the tolerance.
pub open spec fn apart(a: Binary64, b: Binary64) -> bool {
    2 * size(a.scaled() - b.scaled()) > scaled_magnitude(OVERLAY_TOLERANCE as int, 52)
        + scaled_magnitude(OVERLAY_TOLERANCE + 1, 52)
}

/// Whatever renderer draws it, an output is drawn with overlays exactly where the presenter's time is
/// within the tolerance of the output's timestamp: where their distance is no further than halfway to
/// the number behind the tolerance.  An infinite timestamp is never near, and nothing is too far from a
/// timestamp that is no number.
pub proof fn law_overlays_belong_to_their_timestamp(
    renderer: SharedHDRRenderer,
    info: OutputInfo,
    media_time: MediaTime,
)
    requires
        renderer.current == Some(info),
        info.generation == renderer.engine_generation,
    ensures
        ({
            let pts = timeline_seconds(info.pts_value, info.pts_scale);
            &&& renderer.render_plan(media_time) matches Some(plan)
            &&& info.pts_scale != 0 ==> (plan.keep_overlay <==> !apart(media_time.as_seconds(), pts))
            &&& info.pts_scale == 0 ==> (plan.keep_overlay <==> info.pts_value == 0)
        }),
{
    let at = media_time.as_seconds();
    let pts = timeline_seconds(info.pts_value, info.pts_scale);
    let infinity = INFINITY_64 as int;
    let limit = OVERLAY_TOLERANCE as int;
    law_timestamps_are_quotients(info.pts_value, info.pts_scale);
    lemma_media_time_is_finite(media_time);
    lemma_tolerance();
    lemma_scaled_zero(52);
    lemma_scaled_magnitude_monotone(0, limit, 52);
    if info.pts_scale == 0 {
        lemma_scaled_magnitude_monotone(limit, infinity, 52);
        let other = pts.opposite();
        assert(other.magnitude() == pts.magnitude());
    } else {
        lemma_timeline_bounds(info.pts_value, info.pts_scale);
        let other = pts.opposite();
        assert(other.magnitude() == pts.magnitude() && other.scaled() == -pts.scaled());
        let distance = size(at.scaled() - pts.scaled());
        let offset = at.difference(pts);
        if distance == 0 {
            assert(offset.magnitude() == 0);
        } else {
            lemma_nearest_exists(distance, 1, 52, infinity);
            let m = nearest_pattern(distance, 1, 52, infinity);
            assert(offset.magnitude() == m);
            lemma_beyond_limit(distance, m, limit);
            if m < limit {
                lemma_scaled_magnitude_monotone(m, limit, 52);
            }
            if m > limit {
                lemma_scaled_magnitude_monotone(limit, m, 52);
            }
        }
    }
}

/// A value rounds beyond an even pattern exactly where it lies more than halfway to the next one.
proof fn lemma_beyond_limit(num: int, m: int, limit: int)
    requires
        nearest(num, 1, m, 52, INFINITY_64 as int),
        0 <= limit < INFINITY_64,
        limit % 2 == 0,
    ensures
        m > limit <==> 2 * num > scaled_magnitude(limit, 52) + scaled_magnitude(limit + 1, 52),
{
    let here = scaled_magnitude(limit, 52);
    let next = scaled_magnitude(limit + 1, 52);
    lemma_scaled_magnitude_monotone(limit, limit + 1, 52);
    if m > limit {
        let below = scaled_magnitude(m - 1, 52);
        let value = scaled_magnitude(m, 52);
        if limit < m - 1 {
            lemma_scaled_magnitude_monotone(limit, m - 1, 52);
        }
        if limit + 1 < m {
            lemma_scaled_magnitude_monotone(limit + 1, m, 52);
        }
    } else {
        let value = scaled_magnitude(m, 52);
        let above = scaled_magnitude(m + 1, 52);
        if m < limit {
            lemma_scaled_magnitude_monotone(m, limit, 52);
        }
        if m + 1 < limit + 1 {
            lemma_scaled_magnitude_monotone(m + 1, limit + 1, 52);
        }
    }
}

/// In exact numbers, for times of up to four years: an overlay is kept where the presenter's time is
/// within 999 microseconds of the output's start, and omitted where it is 1001 or more away.
pub proof fn law_overlays_are_within_a_millisecond(
    renderer: SharedHDRRenderer,
    info: OutputInfo,
    media_time: MediaTime,
)
    requires
        renderer.current == Some(info),
        info.generation == renderer.engine_generation,
        info.pts_scale > 0,
        0 <= info.pts_value <= 0x800_0000 * info.pts_scale,
        nanoseconds(media_time) <= 0x800_0000 * 1_000_000_000,
    ensures
        ({
            let distance = size(
                nanoseconds(media_time) * info.pts_scale - info.pts_value * 1_000_000_000,
            );
            &&& renderer.render_plan(media_time) matches Some(plan)
            &&& distance <= 999_000 * info.pts_scale ==> plan.keep_overlay
            &&& distance >= 1_001_000 * info.pts_scale ==> !plan.keep_overlay
        }),
{
    let unit = pow2(1074) as int;
    let hidden = pow2(52) as int;
    let nano = 1_000_000_000int;
    let at = media_time.as_seconds();
    let pts = timeline_seconds(info.pts_value, info.pts_scale);
    let a = at.scaled();
    let p = pts.scaled();
    let n = nanoseconds(media_time);
    let v = info.pts_value as int;
    let s = info.pts_scale as int;
    law_overlays_belong_to_their_timestamp(renderer, info, media_time);
    law_media_times_are_accurate_seconds(media_time);
    law_timestamps_are_quotients(info.pts_value, info.pts_scale);
    lemma_timeline_bounds(info.pts_value, info.pts_scale);
    lemma_tolerance();
    lemma2_to64_rest();
    lemma_pow2_pos(1074);
    lemma_known_patterns();
    assert(pts.unsigned() == pts);
    let e = a * nano - n * unit;
    let f = p * s - v * unit;
    if v == 0 {
        assert(p == 0);
        assert(p * s == 0 && v * unit == 0) by (nonlinear_arith)
            requires
                p == 0,
                v == 0,
        ;
    }
    assert(hidden * size(e) <= 5 * (n * unit));
    assert(hidden * size(f) <= 3 * (v * unit));
    let span = 0x800_0000int;
    assert(n * unit <= (span * nano) * unit && v * unit <= (span * s) * unit) by (nonlinear_arith)
        requires
            n <= span * nano,
            v <= span * s,
            unit > 0,
    ;
    // The exact distance and the distance of the numbers, both in parts of `s * nano`.
    let g = n * s - v * nano;
    assert(s * (a * nano - n * unit) == (s * nano) * a - unit * (n * s)) by (nonlinear_arith);
    assert(nano * (p * s - v * unit) == (s * nano) * p - unit * (v * nano)) by (nonlinear_arith);
    assert(unit * (n * s - v * nano) == unit * (n * s) - unit * (v * nano)) by (nonlinear_arith);
    assert((s * nano) * (a - p) == (s * nano) * a - (s * nano) * p) by (nonlinear_arith);
    assert(hidden == 0x10_0000_0000_0000);
    let off = s * e - nano * f;
    let whole = (s * nano) * unit;
    assert(whole > 0) by (nonlinear_arith)
        requires
            whole == (s * nano) * unit,
            s >= 1,
            nano == 1_000_000_000,
            unit > 0,
    ;
    assert(0x10_0000_0000_0000 * size(off) <= 8 * 0x800_0000 * whole) by (nonlinear_arith)
        requires
            0x10_0000_0000_0000 * size(e) <= 5 * ((0x800_0000 * nano) * unit),
            0x10_0000_0000_0000 * size(f) <= 3 * ((0x800_0000 * s) * unit),
            off == s * e - nano * f,
            whole == (s * nano) * unit,
            s >= 1,
            nano == 1_000_000_000,
    {
        assert(size(s * e) == s * size(e));
        assert(size(nano * f) == nano * size(f));
        assert(size(off) <= s * size(e) + nano * size(f));
        assert(s * (0x10_0000_0000_0000 * size(e)) <= s * (5 * ((0x800_0000 * nano) * unit)));
        assert(s * (5 * ((0x800_0000 * nano) * unit)) == 5 * 0x800_0000 * whole);
        assert(nano * (3 * ((0x800_0000 * s) * unit)) == 3 * 0x800_0000 * whole);
    }
    assert(0x40_0000 * size(off) <= whole) by (nonlinear_arith)
        requires
            0x10_0000_0000_0000 * size(off) <= 8 * 0x800_0000 * whole,
    ;
    let k = s * nano;
    assert(whole == k * unit) by (nonlinear_arith)
        requires
            whole == (s * nano) * unit,
            k == s * nano,
    ;
    assert(k * (a - p) == off + unit * g);
    lemma_distances(k, a - p, off, unit, g);
}

/// How the distance of two rounded times follows from that of the exact ones, where both are in parts
/// of `k` and little is off.
proof fn lemma_distances(k: int, d: int, off: int, unit: int, g: int)
    requires
        k > 0,
        unit > 0,
        k * d == off + unit * g,
        0x40_0000 * size(off) <= k * unit,
    ensures
        1_000_000 * size(g) <= 999 * k ==> 10_000_000 * size(d) <= 9_994 * unit,
        1_000_000 * size(g) >= 1_001 * k ==> 10_000_000 * size(d) >= 10_006 * unit,
{
    let whole = k * unit;
    let x = k * size(d);
    let y = unit * size(g);
    assert(size(k * d) == x) by (nonlinear_arith)
        requires
            k > 0,
            x == k * size(d),
    ;
    assert(size(unit * g) == y) by (nonlinear_arith)
        requires
            unit > 0,
            y == unit * size(g),
    ;
    assert(x <= size(off) + y && x >= y - size(off));
    if 1_000_000 * size(g) <= 999 * k {
        assert(1_000_000 * y <= 999 * whole) by (nonlinear_arith)
            requires
                1_000_000 * size(g) <= 999 * k,
                y == unit * size(g),
                whole == k * unit,
                unit > 0,
        ;
        assert(10_000_000 * x <= 9_994 * whole);
        assert(10_000_000 * size(d) <= 9_994 * unit) by (nonlinear_arith)
            requires
                10_000_000 * x <= 9_994 * whole,
                x == k * size(d),
                whole == k * unit,
                k > 0,
        ;
    }
    if 1_000_000 * size(g) >= 1_001 * k {
        assert(1_000_000 * y >= 1_001 * whole) by (nonlinear_arith)
            requires
                1_000_000 * size(g) >= 1_001 * k,
                y == unit * size(g),
                whole == k * unit,
                unit > 0,
        ;
        assert(10_000_000 * x >= 10_006 * whole);
        assert(10_000_000 * size(d) >= 10_006 * unit) by (nonlinear_arith)
            requires
                10_000_000 * x >= 10_006 * whole,
                x == k * size(d),
                whole == k * unit,
                k > 0,
        ;
    }
}

/// An output of the engine's generation is drawn at the nearest time to its own start, or at zero,
/// under the generation of playback, with the clock and the rate of playback; no clock is a NaN.
pub proof fn law_outputs_are_drawn_at_their_start(
    renderer: SharedHDRRenderer,
    info: OutputInfo,
    media_time: MediaTime,
)
    requires
        renderer.current == Some(info),
        info.generation == renderer.engine_generation,
        info.pts_scale != 0 || info.pts_value <= 0,
    ensures
        renderer.render_plan(media_time) matches Some(plan) && {
            &&& (info.pts_value < 0) == (info.pts_scale < 0) && info.pts_scale != 0 ==> nearest_time(
                plan.media_time,
                size(info.pts_value as int),
                size(info.pts_scale as int),
            )
            &&& (info.pts_value < 0) != (info.pts_scale < 0) || info.pts_scale == 0 ==> nanoseconds(
                plan.media_time,
            ) == 0
            &&& renderer.playback_generation is Some ==> Some(plan.generation)
                == renderer.playback_generation
            &&& renderer.playback_generation is None ==> plan.generation == 1
            &&& renderer.clock_seconds is Some ==> Some(plan.clock) == renderer.clock_seconds
            &&& renderer.clock_seconds is None ==> plan.clock.bits == 0x7ff8_0000_0000_0000
            &&& plan.clock_rate == renderer.clock_rate
        },
{
    law_media_times_are_nearest(info.pts_value, info.pts_scale);
}

/// Nothing is drawn without an output, nor one of another generation than the engine's.
pub proof fn law_other_generations_are_not_drawn(
    renderer: SharedHDRRenderer,
    media_time: MediaTime,
)
    ensures
        renderer.current is None ==> renderer.render_plan(media_time) is None,
        renderer.current matches Some(info) && info.generation != renderer.engine_generation
            ==> renderer.render_plan(media_time) is None,
{
}

/// What is drawn of two outputs with one timestamp, and whether overlays are, is the same at one time
/// of the presenter, whatever else differs between the outputs and their renderers.
pub proof fn law_only_times_decide_on_overlays(
    a: SharedHDRRenderer,
    b: SharedHDRRenderer,
    first: OutputInfo,
    second: OutputInfo,
    media_time: MediaTime,
)
    requires
        a.current == Some(first),
        b.current == Some(second),
        first.generation == a.engine_generation,
        second.generation == b.engine_generation,
        first.pts_value == second.pts_value,
        first.pts_scale == second.pts_scale,
    ensures
        a.render_plan(media_time) matches Some(x) && b.render_plan(media_time) matches Some(y)
            && x.keep_overlay == y.keep_overlay && x.media_time == y.media_time,
{
}

} // verus!
