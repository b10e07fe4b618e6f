//! The scrub track: pixel drags turned into time, and time into pixel
//! positions on the track.

use vstd::arithmetic::div_mod::{
    lemma_div_multiples_vanish_fancy, lemma_fundamental_div_mod, lemma_mod_bound,
};
use vstd::prelude::*;

verus! {

/// One end of the selection: `Start` moves the start, `End` the end.
#[derive(Clone, Copy, Debug, PartialEq, Eq, Structural)]
pub enum Handle {
    Start,
    End,
}

/// Hundredths of a pixel in a pixel: drags are measured in them.
pub const SUBPIXELS: u64 = 100;

/// What a tick of a drag splits into whole hundredths of a second and a
/// leftover: `duration * delta + carry`, where `delta` is in hundredths of
/// a pixel and the leftover `carry` is in units of `1 / (100 * track_px)`
/// hundredth. So the time per pixel is `duration / track_px`.
pub open spec fn drag_amount(carry: int, delta: int, duration: int) -> int {
    duration * delta + carry
}

/// Whole hundredths of a second that a tick moves, rounded down.
pub open spec fn drag_moved(carry: int, delta: int, duration: int, track_px: int) -> int {
    drag_amount(carry, delta, duration) / (100 * track_px)
}

/// What a tick leaves over for the next one.
pub open spec fn drag_carry(carry: int, delta: int, duration: int, track_px: int) -> int {
    drag_amount(carry, delta, duration) % (100 * track_px)
}

/// Where a time sits on the track, in pixels from its left end: the time
/// divided by the time per pixel, held within the track. Over no duration,
/// zero sits at the left end and any later time at the right end.
pub open spec fn pixel_of(value: int, duration: int, track_px: int) -> int {
    if duration == 0 {
        if value == 0 {
            0
        } else {
            track_px
        }
    } else if (value * track_px) / duration > track_px {
        track_px
    } else {
        (value * track_px) / duration
    }
}

/// `value` moved by one tick of a drag of `delta` hundredths of a pixel,
/// before any clamp, with the leftover `carry` of earlier ticks; also the
/// leftover for the next tick.
pub fn drag_value(value: u64, carry: u128, delta: i32, duration: u64, track_px: u64) -> (r: (
    i128,
    u128,
))
    requires
        track_px > 0,
        carry < 100 * track_px,
    ensures
        r.0 == value + drag_moved(carry as int, delta as int, duration as int, track_px as int),
        r.1 == drag_carry(carry as int, delta as int, duration as int, track_px as int),
        r.1 < 100 * track_px,
{
    let mag: u128 = if delta >= 0 {
        delta as u128
    } else {
        (-(delta as i64)) as u128
    };
    let d = duration as u128;
    let div: u128 = 100 * (track_px as u128);
    assert(d * mag <= 0xffff_ffff_ffff_ffffu128 * 0x8000_0000u128) by (nonlinear_arith)
        requires
            d <= 0xffff_ffff_ffff_ffffu128,
            mag <= 0x8000_0000u128,
    ;
    let product = d * mag;
    let ghost total = drag_amount(carry as int, delta as int, duration as int);
    assert(delta >= 0 ==> total == product + carry) by (nonlinear_arith)
        requires
            total == duration * delta + carry,
            delta >= 0 ==> mag == delta,
            d == duration,
            product == d * mag,
    ;
    assert(delta < 0 ==> total == carry - product) by (nonlinear_arith)
        requires
            total == duration * delta + carry,
            delta < 0 ==> mag == -delta,
            d == duration,
            product == d * mag,
    ;
    proof {
        lemma_fundamental_div_mod(total, div as int);
        lemma_mod_bound(total, div as int);
    }
    if delta >= 0 || product <= carry {
        let sum: u128 = if delta >= 0 {
            product + carry
        } else {
            carry - product
        };
        let moved = sum / div;
        let rest = sum % div;
        assert(moved <= sum) by (nonlinear_arith)
            requires
                moved == sum / div,
                div >= 1,
        ;
        (value as i128 + moved as i128, rest)
    } else {
        let x = product - carry;
        let q = x / div;
        let r = x % div;
        proof {
            lemma_fundamental_div_mod(x as int, div as int);
            lemma_mod_bound(x as int, div as int);
        }
        assert(q <= x) by (nonlinear_arith)
            requires
                q == x / div,
                div >= 1,
        ;
        if r == 0 {
            proof {
                assert(total == (div as int) * (-(q as int)) + 0) by (nonlinear_arith)
                    requires
                        total == -(x as int),
                        x == div * q + r,
                        r == 0,
                ;
                lemma_div_multiples_vanish_fancy(-(q as int), 0, div as int);
            }
            (value as i128 - q as i128, 0)
        } else {
            proof {
                assert(total == (div as int) * (-(q as int) - 1) + (div - r)) by (nonlinear_arith)
                    requires
                        total == -(x as int),
                        x == div * q + r,
                ;
                lemma_div_multiples_vanish_fancy(-(q as int) - 1, (div - r) as int, div as int);
            }
            (value as i128 - q as i128 - 1, div - r)
        }
    }
}

/// Where `value` sits on a track of `track_px` pixels over `duration`.
pub fn handle_pixel(value: u64, duration: u64, track_px: u64) -> (r: u64)
    ensures
        r == pixel_of(value as int, duration as int, track_px as int),
{
    if duration == 0 {
        return if value == 0 {
            0
        } else {
            track_px
        };
    }
    assert((value as u128) * (track_px as u128) <= 0xffff_ffff_ffff_ffffu128
        * 0xffff_ffff_ffff_ffffu128) by (nonlinear_arith)
        requires
            value <= 0xffff_ffff_ffff_ffffu64,
            track_px <= 0xffff_ffff_ffff_ffffu64,
    ;
    let p = (value as u128) * (track_px as u128) / (duration as u128);
    if p > track_px as u128 {
        track_px
    } else {
        p as u64
    }
}

/// Where the time per pixel is a whole number, a drag of whole pixels from
/// no leftover moves the time by exactly that number times the pixels
/// dragged, and leaves nothing over.
pub proof fn lemma_drag_whole_step(step: nat, track_px: nat, pixels: int)
    requires
        track_px > 0,
    ensures
        drag_moved(0, 100 * pixels, (step * track_px) as int, track_px as int) == step * pixels,
        drag_carry(0, 100 * pixels, (step * track_px) as int, track_px as int) == 0,
{
    let div = 100 * track_px;
    let amount = drag_amount(0, 100 * pixels, (step * track_px) as int);
    assert(amount == div * (step * pixels) + 0) by (nonlinear_arith)
        requires
            amount == (step * track_px) * (100 * pixels) + 0,
            div == 100 * track_px,
    ;
    lemma_div_multiples_vanish_fancy(step * pixels, 0, div as int);
    lemma_fundamental_div_mod(amount, div as int);
}

/// Ticks add up: two ticks, the second starting from the leftover of the
/// first, move the time as far as one tick of both deltas together and
/// leave the same leftover. So a drag moves by the time per pixel times
/// all the pixels dragged, however it is cut into ticks.
pub proof fn lemma_drag_ticks_add(carry: int, d1: int, d2: int, duration: int, track_px: int)
    requires
        track_px > 0,
        0 <= carry < 100 * track_px,
    ensures
        ({
            let c1 = drag_carry(carry, d1, duration, track_px);
            &&& drag_moved(carry, d1, duration, track_px) + drag_moved(c1, d2, duration, track_px)
                == drag_moved(carry, d1 + d2, duration, track_px)
            &&& drag_carry(c1, d2, duration, track_px) == drag_carry(
                carry,
                d1 + d2,
                duration,
                track_px,
            )
        }),
{
    let div = 100 * track_px;
    let t1 = drag_amount(carry, d1, duration);
    let m1 = t1 / div;
    let c1 = t1 % div;
    let t2 = drag_amount(c1, d2, duration);
    let m2 = t2 / div;
    let c2 = t2 % div;
    let t = drag_amount(carry, d1 + d2, duration);
    lemma_fundamental_div_mod(t1, div);
    lemma_fundamental_div_mod(t2, div);
    lemma_fundamental_div_mod(t, div);
    lemma_mod_bound(t2, div);
    assert(t == div * (m1 + m2) + c2) by (nonlinear_arith)
        requires
            t1 == duration * d1 + carry,
            t2 == duration * d2 + c1,
            t == duration * (d1 + d2) + carry,
            t1 == div * m1 + c1,
            t2 == div * m2 + c2,
    ;
    lemma_div_multiples_vanish_fancy(m1 + m2, c2, div);
}

} // verus!
