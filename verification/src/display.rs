//! The display plane: a 64x32 one-bit pixel grid stored row-major in a
//! `Vec<u32>` of length 2048, where any non-zero word means the pixel is on.
//!
//! Sprites are drawn by XOR: each sprite row is one byte, its most
//! significant bit landing on the leftmost of eight columns.  Coordinates
//! wrap toroidally (mod 64 horizontally, mod 32 vertically), so a sprite
//! never clips at an edge.  Drawing reports a collision exactly when some
//! pixel that was on is turned off, i.e. when a sprite bit lands on a lit
//! pixel.

use vstd::prelude::*;

use vstd::arithmetic::div_mod::{
    lemma_fundamental_div_mod, lemma_fundamental_div_mod_converse_div,
    lemma_fundamental_div_mod_converse_mod, lemma_mod_bound,
};

use crate::arith::{lemma_wrap_offset, lemma_wrap_unique};

verus! {

/// The boolean view of a raw pixel buffer: a pixel is on iff its word is
/// non-zero.
pub open spec fn plane_of(buf: Seq<u32>) -> Seq<bool> {
    Seq::new(2048, |i: int| buf[i] != 0)
}

/// Bit `col` of a sprite row byte, counting col 0 as the most significant
/// bit (the leftmost drawn column).
pub open spec fn sprite_bit(byte: u8, col: int) -> bool
    recommends
        0 <= col < 8,
{
    (byte >> ((7 - col) as u8)) & 1 == 1
}

/// The plane after XOR-blitting `sprite` (one byte per row) with its
/// top-left corner at `(x mod 64, y mod 32)`.  A pixel at row-major index
/// `i` is covered iff its row is within `sprite.len()` rows below `y`
/// (mod 32) and its column within 8 columns right of `x` (mod 64); covered
/// pixels are XORed with the corresponding sprite bit, all others keep
/// their value.
pub open spec fn draw_plane(p: Seq<bool>, sprite: Seq<u8>, x: int, y: int) -> Seq<bool>
    recommends
        p.len() == 2048,
        sprite.len() <= 15,
{
    Seq::new(2048, |i: int| {
        let r = (i / 64 - y) % 32;
        let c = (i % 64 - x) % 64;
        if r < sprite.len() && c < 8 {
            p[i] != sprite_bit(sprite[r], c)
        } else {
            p[i]
        }
    })
}

/// Whether sprite row `r`, column `c` lands on a pixel of `p` that is on.
pub open spec fn sprite_hits(p: Seq<bool>, sprite: Seq<u8>, x: int, y: int, r: int, c: int) -> bool
    recommends
        p.len() == 2048,
        0 <= r < sprite.len(),
        0 <= c < 8,
{
    p[((y + r) % 32) * 64 + ((x + c) % 64)] && sprite_bit(sprite[r], c)
}

/// The collision flag of a draw: some sprite bit that is set lands on a
/// pixel that was already on.
pub open spec fn draw_collision(p: Seq<bool>, sprite: Seq<u8>, x: int, y: int) -> bool {
    exists|r: int, c: int|
        0 <= r < sprite.len() && 0 <= c < 8 && #[trigger] sprite_hits(p, sprite, x, y, r, c)
}

/// Turn every pixel off.
pub fn clear_plane(buffer: &mut Vec<u32>)
    requires
        old(buffer)@.len() == 2048,
    ensures
        final(buffer)@.len() == 2048,
        forall|i: int| 0 <= i < 2048 ==> final(buffer)@[i] == 0,
{
    let mut i: usize = 0;
    while i < 2048
        invariant
            buffer@.len() == 2048,
            i <= 2048,
            forall|j: int| 0 <= j < i ==> buffer@[j] == 0,
        decreases 2048 - i,
    {
        buffer.set(i, 0);
        i = i + 1;
    }
}

/// Decompose a pixel index into its row `i / 64` and column `i % 64`.
proof fn lemma_pixel_decompose(i: int)
    requires
        0 <= i < 2048,
    ensures
        0 <= i % 64 < 64,
        0 <= i / 64 < 32,
        i == (i / 64) * 64 + (i % 64),
{
    lemma_mod_bound(i, 64);
    lemma_fundamental_div_mod(i, 64);
}

/// XOR-blit `sprite` (one byte per row, bit 7 leftmost) with its top-left
/// corner at `(x mod 64, y mod 32)`, wrapping at the plane's edges.
/// Returns the collision flag: whether some pixel went from on to off.
#[verifier::rlimit(100)]
pub fn blit_sprite(buffer: &mut Vec<u32>, sprite: &Vec<u8>, x: u8, y: u8) -> (collision:
    bool)
    requires
        old(buffer)@.len() == 2048,
        sprite@.len() <= 15,
    ensures
        final(buffer)@.len() == 2048,
        plane_of(final(buffer)@) == draw_plane(
            plane_of(old(buffer)@),
            sprite@,
            x as int,
            y as int,
        ),
        collision == draw_collision(plane_of(old(buffer)@), sprite@, x as int, y as int),
{
    let ghost p0 = plane_of(old(buffer)@);
    let n = sprite.len();
    let mut coll = false;
    let mut r: usize = 0;
    while r < n
        invariant
            old(buffer)@.len() == 2048,
            buffer@.len() == 2048,
            n == sprite@.len(),
            n <= 15,
            r <= n,
            p0 == plane_of(old(buffer)@),
            forall|i: int|
                #![trigger buffer@[i]]
                0 <= i < 2048 ==> ({
                    let rr = (i / 64 - y) % 32;
                    let cc = (i % 64 - x) % 64;
                    if rr < r && cc < 8 {
                        (buffer@[i] != 0) == (p0[i] != sprite_bit(sprite@[rr], cc))
                    } else {
                        buffer@[i] == old(buffer)@[i]
                    }
                }),
            coll ==> draw_collision(p0, sprite@, x as int, y as int),
            !coll ==> forall|r2: int, c2: int|
                0 <= r2 < r && 0 <= c2 < 8 ==> !sprite_hits(
                    p0,
                    sprite@,
                    x as int,
                    y as int,
                    r2,
                    c2,
                ),
        decreases n - r,
    {
        let mut c: usize = 0;
        while c < 8
            invariant
                old(buffer)@.len() == 2048,
                buffer@.len() == 2048,
                n == sprite@.len(),
                n <= 15,
                r < n,
                c <= 8,
                p0 == plane_of(old(buffer)@),
                forall|i: int|
                    #![trigger buffer@[i]]
                    0 <= i < 2048 ==> ({
                        let rr = (i / 64 - y) % 32;
                        let cc = (i % 64 - x) % 64;
                        if (rr < r && cc < 8) || (rr == r && cc < c) {
                            (buffer@[i] != 0) == (p0[i] != sprite_bit(sprite@[rr], cc))
                        } else {
                            buffer@[i] == old(buffer)@[i]
                        }
                    }),
                coll ==> draw_collision(p0, sprite@, x as int, y as int),
                !coll ==> forall|r2: int, c2: int|
                    (0 <= r2 < r && 0 <= c2 < 8) || (r2 == r && 0 <= c2 < c)
                        ==> !sprite_hits(p0, sprite@, x as int, y as int, r2, c2),
            decreases 8 - c,
        {
            let px = ((x as usize) + c) % 64;
            let py = ((y as usize) + r) % 32;
            let idx = py * 64 + px;
            let byte = sprite[r];
            let sh: u8 = (7 - c) as u8;
            let bit = ((byte >> sh) & 1) == 1;
            let prev = buffer[idx];
            let prev_on = prev != 0;
            proof {
                lemma_wrap_offset(y as int, r as int, 32);
                lemma_wrap_offset(x as int, c as int, 64);
                lemma_fundamental_div_mod_converse_div(idx as int, 64, py as int, px as int);
                lemma_fundamental_div_mod_converse_mod(idx as int, 64, py as int, px as int);
                assert(((idx as int) / 64 - y) % 32 == r);
                assert(((idx as int) % 64 - x) % 64 == c);
                assert(buffer@[idx as int] == old(buffer)@[idx as int]);
                assert(prev_on == p0[idx as int]);
                assert(bit == sprite_bit(sprite@[r as int], c as int));
            }
            if prev_on && bit {
                coll = true;
                proof {
                    assert(sprite_hits(p0, sprite@, x as int, y as int, r as int, c as int));
                }
            }
            let nv: u32 = if prev_on != bit {
                u32::MAX
            } else {
                0
            };
            buffer.set(idx, nv);
            proof {
                assert forall|i: int| #![trigger buffer@[i]] 0 <= i < 2048 implies ({
                    let rr = (i / 64 - y) % 32;
                    let cc = (i % 64 - x) % 64;
                    if (rr < r && cc < 8) || (rr == r && cc < c + 1) {
                        (buffer@[i] != 0) == (p0[i] != sprite_bit(sprite@[rr], cc))
                    } else {
                        buffer@[i] == old(buffer)@[i]
                    }
                }) by {
                    if i != idx {
                        lemma_pixel_decompose(i);
                        lemma_wrap_unique(y as int, r as int, i / 64, 32);
                        lemma_wrap_unique(x as int, c as int, i % 64, 64);
                    }
                }
                if !coll {
                    assert forall|r2: int, c2: int|
                        (0 <= r2 < r && 0 <= c2 < 8) || (r2 == r && 0 <= c2 < c
                            + 1) implies !sprite_hits(
                        p0,
                        sprite@,
                        x as int,
                        y as int,
                        r2,
                        c2,
                    ) by {
                        if r2 == r && c2 == c {
                            assert(!(prev_on && bit));
                        }
                    }
                }
            }
            c = c + 1;
        }
        r = r + 1;
    }
    proof {
        assert forall|i: int| 0 <= i < 2048 implies plane_of(buffer@)[i] == draw_plane(
            p0,
            sprite@,
            x as int,
            y as int,
        )[i] by {
            lemma_mod_bound(i / 64 - y, 32);
            lemma_mod_bound(i % 64 - x, 64);
        }
        assert(plane_of(buffer@) =~= draw_plane(p0, sprite@, x as int, y as int));
        if !coll {
            assert(!draw_collision(p0, sprite@, x as int, y as int));
        }
    }
    coll
}

/// Sprite cell `(r, c)` is set and lands on a pixel that `p` has off, so
/// one draw of the sprite turns that pixel on.
pub open spec fn sprite_lights(p: Seq<bool>, sprite: Seq<u8>, x: int, y: int, r: int, c: int) -> bool
    recommends
        p.len() == 2048,
        0 <= r < sprite.len(),
        0 <= c < 8,
{
    sprite_bit(sprite[r], c) && !p[((y + r) % 32) * 64 + ((x + c) % 64)]
}

/// Drawing the same sprite at the same location twice in a row restores
/// the plane: the second XOR undoes the first, pixel by pixel.
pub proof fn lemma_draw_twice(p: Seq<bool>, sprite: Seq<u8>, x: int, y: int)
    requires
        p.len() == 2048,
    ensures
        draw_plane(draw_plane(p, sprite, x, y), sprite, x, y) == p,
{
    assert(draw_plane(draw_plane(p, sprite, x, y), sprite, x, y) =~= p);
}

/// The collision flag of a repeated draw: redrawing a sprite right after
/// drawing it collides exactly when some set sprite bit had landed on an
/// off pixel the first time — those are precisely the pixels the first
/// draw turned on.
pub proof fn lemma_redraw_collision(p: Seq<bool>, sprite: Seq<u8>, x: int, y: int)
    requires
        p.len() == 2048,
        sprite.len() <= 15,
        0 <= x,
        0 <= y,
    ensures
        draw_collision(draw_plane(p, sprite, x, y), sprite, x, y) == (exists|r: int, c: int|
            0 <= r < sprite.len() && 0 <= c < 8 && #[trigger] sprite_lights(
                p,
                sprite,
                x,
                y,
                r,
                c,
            )),
{
    let p1 = draw_plane(p, sprite, x, y);
    assert forall|r: int, c: int| 0 <= r < sprite.len() && 0 <= c < 8 implies (
    #[trigger] sprite_hits(p1, sprite, x, y, r, c) == sprite_lights(
        p,
        sprite,
        x,
        y,
        r,
        c,
    )) by {
        let py = (y + r) % 32;
        let px = (x + c) % 64;
        lemma_mod_bound(y + r, 32);
        lemma_mod_bound(x + c, 64);
        let t = py * 64 + px;
        lemma_fundamental_div_mod_converse_div(t, 64, py, px);
        lemma_fundamental_div_mod_converse_mod(t, 64, py, px);
        lemma_wrap_offset(y, r, 32);
        lemma_wrap_offset(x, c, 64);
        assert(p1[t] == (p[t] != sprite_bit(sprite[r], c)));
    }
    if draw_collision(p1, sprite, x, y) {
        let (r, c) = choose|r: int, c: int|
            0 <= r < sprite.len() && 0 <= c < 8 && #[trigger] sprite_hits(
                p1,
                sprite,
                x,
                y,
                r,
                c,
            );
        assert(sprite_lights(p, sprite, x, y, r, c));
    }
    if exists|r: int, c: int|
        0 <= r < sprite.len() && 0 <= c < 8 && #[trigger] sprite_lights(p, sprite, x, y, r, c) {
        let (r, c) = choose|r: int, c: int|
            0 <= r < sprite.len() && 0 <= c < 8 && #[trigger] sprite_lights(
                p,
                sprite,
                x,
                y,
                r,
                c,
            );
        assert(sprite_hits(p1, sprite, x, y, r, c));
        assert(draw_collision(p1, sprite, x, y));
    }
}

} // verus!
