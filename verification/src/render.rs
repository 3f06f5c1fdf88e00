//! Presentation helpers: mapping frame-buffer bits and brightness values
//! to 32-bit colors for a host window to show.

use vstd::prelude::*;

verus! {

use crate::NUM_PIXELS;

/// One color channel blended `alpha/255` of the way from `b` to `f`. Both
/// channels and the alpha are at most 255.
pub open spec fn spec_blend_channel(b: int, f: int, a: int) -> int {
    if f >= b {
        b + (f - b) * a / 255
    } else {
        b - (b - f) * a / 255
    }
}

/// A whole color blended `alpha/255` of the way from `bg` to `fg`,
/// channel by channel over the low 24 bits.
pub open spec fn spec_blend(bg: u32, fg: u32, alpha: u8) -> u32 {
    let a = alpha as int;
    let br = ((bg >> 16u32) & 0xFF) as int;
    let bgr = ((bg >> 8u32) & 0xFF) as int;
    let bb = (bg & 0xFF) as int;
    let fr = ((fg >> 16u32) & 0xFF) as int;
    let fgr = ((fg >> 8u32) & 0xFF) as int;
    let fb = (fg & 0xFF) as int;
    let r = spec_blend_channel(br, fr, a) as u32;
    let g = spec_blend_channel(bgr, fgr, a) as u32;
    let b = spec_blend_channel(bb, fb, a) as u32;
    (r << 16u32) | (g << 8u32) | b
}

/// Bounds of the channels extracted from a packed color.
proof fn lemma_channel_bounds(c: u32)
    by (bit_vector)
    ensures
        (c >> 16u32) & 0xFF < 256,
        (c >> 8u32) & 0xFF < 256,
        c & 0xFF < 256,
{
}

/// A blended channel lies between its two endpoints.
proof fn lemma_blend_channel_bounds(b: int, f: int, a: int)
    by (nonlinear_arith)
    requires
        0 <= b < 256,
        0 <= f < 256,
        0 <= a < 256,
    ensures
        0 <= spec_blend_channel(b, f, a) < 256,
{
}

/// Blends one brightness value linearly between a background and a
/// foreground color: channel by channel, `bg + (fg - bg) * alpha / 255`.
pub fn blend_colors(bg: u32, fg: u32, alpha: u8) -> (r: u32)
    ensures
        r == spec_blend(bg, fg, alpha),
{
    proof {
        lemma_channel_bounds(bg);
        lemma_channel_bounds(fg);
    }
    let a = alpha as u32;
    let bg_r = (bg >> 16u32) & 0xFF;
    let bg_g = (bg >> 8u32) & 0xFF;
    let bg_b = bg & 0xFF;
    let fg_r = (fg >> 16u32) & 0xFF;
    let fg_g = (fg >> 8u32) & 0xFF;
    let fg_b = fg & 0xFF;
    let r = blend_channel(bg_r, fg_r, a);
    let g = blend_channel(bg_g, fg_g, a);
    let b = blend_channel(bg_b, fg_b, a);
    (r << 16u32) | (g << 8u32) | b
}

/// One channel of the blend, on machine integers.
fn blend_channel(b: u32, f: u32, a: u32) -> (r: u32)
    requires
        b < 256,
        f < 256,
        a < 256,
    ensures
        r == spec_blend_channel(b as int, f as int, a as int),
        r < 256,
{
    proof {
        lemma_blend_channel_bounds(b as int, f as int, a as int);
    }
    if f >= b {
        b + (f - b) * a / 255
    } else {
        proof {
            assert((b - f) * a / 255 <= b - f) by (nonlinear_arith)
                requires
                    0 <= f <= b < 256,
                    0 <= a < 256,
            ;
        }
        b - (b - f) * a / 255
    }
}

/// Fills a 32-bit color buffer from the monochrome frame buffer: lit
/// pixels take the foreground color, dark pixels the background.
pub fn update_minifb_buffer(chip8_buffer: &[u8; NUM_PIXELS], minifb_buffer: &mut Vec<u32>)
    requires
        old(minifb_buffer).len() == NUM_PIXELS,
    ensures
        final(minifb_buffer)@ == Seq::new(
            NUM_PIXELS as nat,
            |i: int|
                if chip8_buffer@[i] == 1 {
                    0xE5CC80u32
                } else {
                    0x333333u32
                },
        ),
{
    for i in 0..NUM_PIXELS
        invariant
            minifb_buffer.len() == NUM_PIXELS,
            forall|j: int|
                0 <= j < i ==> minifb_buffer@[j] == (if chip8_buffer@[j] == 1 {
                    0xE5CC80u32
                } else {
                    0x333333u32
                }),
    {
        let c: u32 = if chip8_buffer[i] == 1 {
            0xE5CC80
        } else {
            0x333333
        };
        minifb_buffer.set(i, c);
    }
    proof {
        assert(minifb_buffer@ =~= Seq::new(
            NUM_PIXELS as nat,
            |i: int|
                if chip8_buffer@[i] == 1 {
                    0xE5CC80u32
                } else {
                    0x333333u32
                },
        ));
    }
}

/// Fills a 32-bit color buffer by blending every brightness cell between a
/// background and a foreground color.
pub fn blend_buffer(brightness: &[u8; NUM_PIXELS], bg: u32, fg: u32, out: &mut Vec<u32>)
    requires
        old(out).len() == NUM_PIXELS,
    ensures
        final(out)@ == Seq::new(NUM_PIXELS as nat, |i: int| spec_blend(bg, fg, brightness@[i])),
{
    for i in 0..NUM_PIXELS
        invariant
            out.len() == NUM_PIXELS,
            forall|j: int| 0 <= j < i ==> out@[j] == spec_blend(bg, fg, brightness@[j]),
    {
        let c = blend_colors(bg, fg, brightness[i]);
        out.set(i, c);
    }
    proof {
        assert(out@ =~= Seq::new(NUM_PIXELS as nat, |i: int| spec_blend(bg, fg, brightness@[i])));
    }
}

} // verus!
