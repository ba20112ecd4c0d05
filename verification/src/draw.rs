//! The sprite-draw operation: XOR of sprite bits onto the toroidal
//! 64x32 pixel grid, with collision detection.

use vstd::prelude::*;

use crate::state::SCREEN_HEIGHT;
use crate::state::SCREEN_WIDTH;

verus! {

/// Whether bit `c` (0 = leftmost pixel) of a sprite row byte is set.
pub open spec fn row_bit(byte: u8, c: int) -> bool {
    byte & (0x80u8 >> (c as u8)) != 0
}

/// The grid index hit by column `c` of sprite row `r` anchored at
/// `(x0, y0)`: both final coordinates wrap (toroidal screen).
pub open spec fn pixel_index(x0: u8, y0: u8, r: int, c: int) -> int {
    (x0 + c) % (SCREEN_WIDTH as int) + (SCREEN_WIDTH as int) * ((y0 + r) % (SCREEN_HEIGHT as int))
}

/// Screen and collision flag after XOR-drawing columns 0..=c of one
/// sprite row. The flag records whether some toggled pixel was on at
/// the moment it was toggled.
pub open spec fn draw_row(screen: Seq<bool>, byte: u8, x0: u8, y0: u8, r: int, c: int) -> (
    Seq<bool>,
    bool,
)
    decreases c + 1,
{
    if c < 0 {
        (screen, false)
    } else {
        let prev = draw_row(screen, byte, x0, y0, r, c - 1);
        if row_bit(byte, c) {
            let idx = pixel_index(x0, y0, r, c);
            (prev.0.update(idx, !prev.0[idx]), prev.1 || prev.0[idx])
        } else {
            prev
        }
    }
}

/// Screen and collision flag after drawing sprite rows 0..=r.
pub open spec fn draw_rows(screen: Seq<bool>, rows: Seq<u8>, x0: u8, y0: u8, r: int) -> (
    Seq<bool>,
    bool,
)
    decreases r + 1,
{
    if r < 0 {
        (screen, false)
    } else {
        let prev = draw_rows(screen, rows, x0, y0, r - 1);
        let one = draw_row(prev.0, rows[r], x0, y0, r, 7);
        (one.0, prev.1 || one.1)
    }
}

/// Screen and collision flag after drawing the whole sprite `rows`
/// anchored at `(x0, y0)`.
pub open spec fn draw(screen: Seq<bool>, rows: Seq<u8>, x0: u8, y0: u8) -> (Seq<bool>, bool) {
    draw_rows(screen, rows, x0, y0, rows.len() - 1)
}

/// Whether some set sprite bit in columns 0..=c of row `r` targets pixel `p`.
pub open spec fn row_hits(byte: u8, x0: u8, y0: u8, r: int, c: int, p: int) -> bool
    decreases c + 1,
{
    if c < 0 {
        false
    } else {
        row_hits(byte, x0, y0, r, c - 1, p) || (row_bit(byte, c) && pixel_index(x0, y0, r, c) == p)
    }
}

/// Whether some set sprite bit in rows 0..=r targets pixel `p`.
pub open spec fn rows_hit(rows: Seq<u8>, x0: u8, y0: u8, r: int, p: int) -> bool
    decreases r + 1,
{
    if r < 0 {
        false
    } else {
        rows_hit(rows, x0, y0, r - 1, p) || row_hits(rows[r], x0, y0, r, 7, p)
    }
}

/// Whether some set bit of the whole sprite targets pixel `p`.
pub open spec fn sprite_hits(rows: Seq<u8>, x0: u8, y0: u8, p: int) -> bool {
    rows_hit(rows, x0, y0, rows.len() - 1, p)
}

/// Whether some set bit in columns 0..=c of row `r` targets a pixel
/// that is on in `screen`.
pub open spec fn row_collides(byte: u8, x0: u8, y0: u8, r: int, c: int, screen: Seq<bool>) -> bool
    decreases c + 1,
{
    if c < 0 {
        false
    } else {
        row_collides(byte, x0, y0, r, c - 1, screen) || (row_bit(byte, c) && screen[pixel_index(
            x0,
            y0,
            r,
            c,
        )])
    }
}

/// Whether some set bit in rows 0..=r targets a pixel that is on in `screen`.
pub open spec fn rows_collide(rows: Seq<u8>, x0: u8, y0: u8, r: int, screen: Seq<bool>) -> bool
    decreases r + 1,
{
    if r < 0 {
        false
    } else {
        rows_collide(rows, x0, y0, r - 1, screen) || row_collides(rows[r], x0, y0, r, 7, screen)
    }
}

/// Whether some set bit of the whole sprite targets a pixel that is on
/// in `screen`.
pub open spec fn sprite_collides(rows: Seq<u8>, x0: u8, y0: u8, screen: Seq<bool>) -> bool {
    rows_collide(rows, x0, y0, rows.len() - 1, screen)
}

/// A target index is always inside the pixel grid.
pub proof fn lemma_pixel_index_bounds(x0: u8, y0: u8, r: int, c: int)
    requires
        0 <= r,
        0 <= c,
    ensures
        0 <= pixel_index(x0, y0, r, c) < SCREEN_WIDTH * SCREEN_HEIGHT,
{
}

/// Shifting a value by less than the modulus moves its residue.
proof fn lemma_mod_distinct(a: int, d: int, m: int)
    requires
        0 <= a,
        0 < d < m,
    ensures
        (a + d) % m != a % m,
{
    let q1 = a / m;
    let q2 = (a + d) / m;
    vstd::arithmetic::div_mod::lemma_fundamental_div_mod(a, m);
    vstd::arithmetic::div_mod::lemma_fundamental_div_mod(a + d, m);
    if (a + d) % m == a % m {
        assert(d == m * (q2 - q1)) by (nonlinear_arith)
            requires
                a == q1 * m + a % m,
                a + d == q2 * m + (a + d) % m,
                (a + d) % m == a % m,
        ;
        assert(q2 - q1 >= 1 ==> m * (q2 - q1) >= m) by (nonlinear_arith)
            requires
                m > 0,
        ;
        assert(q2 - q1 <= 0 ==> m * (q2 - q1) <= 0) by (nonlinear_arith)
            requires
                m > 0,
        ;
    }
}

/// Two different columns of one sprite row land on different pixels.
proof fn lemma_pixel_distinct_cols(x0: u8, y0: u8, r: int, c1: int, c2: int)
    requires
        0 <= r,
        0 <= c1 < c2 < 8,
    ensures
        pixel_index(x0, y0, r, c1) != pixel_index(x0, y0, r, c2),
{
    lemma_mod_distinct(x0 + c1, c2 - c1, SCREEN_WIDTH as int);
}

/// Bits of two rows less than a screen height apart land on different pixels.
proof fn lemma_pixel_distinct_rows(x0: u8, y0: u8, r1: int, c1: int, r2: int, c2: int)
    requires
        0 <= r1 < r2,
        r2 - r1 < SCREEN_HEIGHT,
        0 <= c1 < 8,
        0 <= c2 < 8,
    ensures
        pixel_index(x0, y0, r1, c1) != pixel_index(x0, y0, r2, c2),
{
    lemma_mod_distinct(y0 + r1, r2 - r1, SCREEN_HEIGHT as int);
}

/// Columns before `c` in the same row never target `c`'s pixel.
proof fn lemma_row_hits_earlier_miss(byte: u8, x0: u8, y0: u8, r: int, c: int, cb: int)
    requires
        0 <= r,
        0 <= c < 8,
        -1 <= cb < c,
    ensures
        !row_hits(byte, x0, y0, r, cb, pixel_index(x0, y0, r, c)),
    decreases cb + 1,
{
    if cb >= 0 {
        lemma_pixel_distinct_cols(x0, y0, r, cb, c);
        lemma_row_hits_earlier_miss(byte, x0, y0, r, c, cb - 1);
    }
}

/// No column of row `r2` targets a pixel of a different row `r`.
proof fn lemma_row_hits_other_row_miss(byte: u8, x0: u8, y0: u8, r2: int, cb: int, r: int, c: int)
    requires
        0 <= r2 < r,
        r - r2 < SCREEN_HEIGHT,
        0 <= c < 8,
        -1 <= cb < 8,
    ensures
        !row_hits(byte, x0, y0, r2, cb, pixel_index(x0, y0, r, c)),
    decreases cb + 1,
{
    if cb >= 0 {
        lemma_pixel_distinct_rows(x0, y0, r2, cb, r, c);
        lemma_row_hits_other_row_miss(byte, x0, y0, r2, cb - 1, r, c);
    }
}

/// No row before `r` targets a pixel of row `r`.
proof fn lemma_rows_hit_other_row_miss(rows: Seq<u8>, x0: u8, y0: u8, rb: int, r: int, c: int)
    requires
        0 <= r < SCREEN_HEIGHT,
        -1 <= rb < r,
        0 <= c < 8,
    ensures
        !rows_hit(rows, x0, y0, rb, pixel_index(x0, y0, r, c)),
    decreases rb + 1,
{
    if rb >= 0 {
        lemma_row_hits_other_row_miss(rows[rb], x0, y0, rb, 7, r, c);
        lemma_rows_hit_other_row_miss(rows, x0, y0, rb - 1, r, c);
    }
}

/// The collision test for one row only reads the screen at the row's
/// own target pixels.
proof fn lemma_row_collides_congruent(
    byte: u8,
    x0: u8,
    y0: u8,
    r: int,
    c: int,
    s1: Seq<bool>,
    s2: Seq<bool>,
)
    requires
        forall|c2: int|
            0 <= c2 <= c && row_bit(byte, c2) ==> s1[pixel_index(x0, y0, r, c2)] == s2[pixel_index(
                x0,
                y0,
                r,
                c2,
            )],
    ensures
        row_collides(byte, x0, y0, r, c, s1) == row_collides(byte, x0, y0, r, c, s2),
    decreases c + 1,
{
    if c >= 0 {
        lemma_row_collides_congruent(byte, x0, y0, r, c - 1, s1, s2);
    }
}

/// Pointwise effect of drawing one row: a pixel targeted by a set bit
/// is toggled, every other pixel keeps its value, and the collision
/// flag is the collision test against the incoming screen.
proof fn lemma_draw_row_pointwise(
    sc: Seq<bool>,
    byte: u8,
    x0: u8,
    y0: u8,
    r: int,
    c: int,
    p: int,
)
    requires
        sc.len() == SCREEN_WIDTH * SCREEN_HEIGHT,
        0 <= r,
        -1 <= c < 8,
        0 <= p < SCREEN_WIDTH * SCREEN_HEIGHT,
    ensures
        draw_row(sc, byte, x0, y0, r, c).0.len() == sc.len(),
        draw_row(sc, byte, x0, y0, r, c).0[p] == if row_hits(byte, x0, y0, r, c, p) {
            !sc[p]
        } else {
            sc[p]
        },
        draw_row(sc, byte, x0, y0, r, c).1 == row_collides(byte, x0, y0, r, c, sc),
    decreases c + 1,
{
    if c >= 0 {
        lemma_draw_row_pointwise(sc, byte, x0, y0, r, c - 1, p);
        if row_bit(byte, c) {
            let idx = pixel_index(x0, y0, r, c);
            lemma_pixel_index_bounds(x0, y0, r, c);
            lemma_draw_row_pointwise(sc, byte, x0, y0, r, c - 1, idx);
            lemma_row_hits_earlier_miss(byte, x0, y0, r, c, c - 1);
        }
    }
}

/// Pointwise effect of drawing rows 0..=r, with the collision flag as
/// the collision test against the incoming screen.
proof fn lemma_draw_rows_pointwise(
    sc: Seq<bool>,
    rows: Seq<u8>,
    x0: u8,
    y0: u8,
    r: int,
    p: int,
)
    requires
        sc.len() == SCREEN_WIDTH * SCREEN_HEIGHT,
        rows.len() <= 15,
        -1 <= r < rows.len(),
        0 <= p < SCREEN_WIDTH * SCREEN_HEIGHT,
    ensures
        draw_rows(sc, rows, x0, y0, r).0.len() == sc.len(),
        draw_rows(sc, rows, x0, y0, r).0[p] == if rows_hit(rows, x0, y0, r, p) {
            !sc[p]
        } else {
            sc[p]
        },
        draw_rows(sc, rows, x0, y0, r).1 == rows_collide(rows, x0, y0, r, sc),
    decreases r + 1,
{
    if r >= 0 {
        let prev = draw_rows(sc, rows, x0, y0, r - 1);
        lemma_draw_rows_pointwise(sc, rows, x0, y0, r - 1, p);
        lemma_draw_row_pointwise(prev.0, rows[r], x0, y0, r, 7, p);
        // pixels of row r are untouched by rows before it
        assert forall|c2: int| 0 <= c2 <= 7 && row_bit(rows[r], c2) implies prev.0[pixel_index(
            x0,
            y0,
            r,
            c2,
        )] == sc[pixel_index(x0, y0, r, c2)] by {
            lemma_pixel_index_bounds(x0, y0, r, c2);
            lemma_rows_hit_other_row_miss(rows, x0, y0, r - 1, r, c2);
            lemma_draw_rows_pointwise(sc, rows, x0, y0, r - 1, pixel_index(x0, y0, r, c2));
        }
        lemma_row_collides_congruent(rows[r], x0, y0, r, 7, prev.0, sc);
        if rows_hit(rows, x0, y0, r - 1, p) && row_hits(rows[r], x0, y0, r, 7, p) {
            // cannot happen: p would lie in row r and in an earlier row
            lemma_rows_hit_row_of_p(rows, x0, y0, r, p);
        }
    }
}

/// If row r's bits target p, no earlier row targets p.
proof fn lemma_rows_hit_row_of_p(rows: Seq<u8>, x0: u8, y0: u8, r: int, p: int)
    requires
        rows.len() <= 15,
        0 <= r < rows.len(),
        row_hits(rows[r], x0, y0, r, 7, p),
    ensures
        !rows_hit(rows, x0, y0, r - 1, p),
{
    let c = choose|c: int| 0 <= c < 8 && row_bit(rows[r], c) && pixel_index(x0, y0, r, c) == p;
    lemma_row_hits_exists(rows[r], x0, y0, r, 7, p);
    lemma_rows_hit_other_row_miss(rows, x0, y0, r - 1, r, c);
}

/// A row-hit implies a witnessing column.
proof fn lemma_row_hits_exists(byte: u8, x0: u8, y0: u8, r: int, c: int, p: int)
    requires
        row_hits(byte, x0, y0, r, c, p),
        c < 8,
    ensures
        exists|c2: int| 0 <= c2 < 8 && row_bit(byte, c2) && pixel_index(x0, y0, r, c2) == p,
    decreases c + 1,
{
    if c >= 0 {
        if row_bit(byte, c) && pixel_index(x0, y0, r, c) == p {
            assert(0 <= c < 8 && row_bit(byte, c) && pixel_index(x0, y0, r, c) == p);
        } else {
            lemma_row_hits_exists(byte, x0, y0, r, c - 1, p);
        }
    }
}

/// Pointwise law of the sprite draw: the pixel at index p is toggled
/// exactly when some set sprite bit targets it — a bit in column c of
/// row r targets column (x0 + c) mod 64 and row (y0 + r) mod 32, so a
/// sprite anchored at the right or bottom edge wraps around — and the
/// collision flag reports exactly whether some set bit targeted a
/// pixel that was already on.
pub proof fn lemma_draw_pointwise(screen: Seq<bool>, rows: Seq<u8>, x0: u8, y0: u8, p: int)
    requires
        screen.len() == SCREEN_WIDTH * SCREEN_HEIGHT,
        rows.len() <= 15,
        0 <= p < SCREEN_WIDTH * SCREEN_HEIGHT,
    ensures
        draw(screen, rows, x0, y0).0.len() == screen.len(),
        draw(screen, rows, x0, y0).0[p] == if sprite_hits(rows, x0, y0, p) {
            !screen[p]
        } else {
            screen[p]
        },
        draw(screen, rows, x0, y0).1 == sprite_collides(rows, x0, y0, screen),
{
    lemma_draw_rows_pointwise(screen, rows, x0, y0, rows.len() - 1, p);
}

/// Drawing the same sprite twice at the same anchor restores the
/// screen: the second draw clears every pixel the first draw set.
pub proof fn lemma_draw_twice_restores(screen: Seq<bool>, rows: Seq<u8>, x0: u8, y0: u8)
    requires
        screen.len() == SCREEN_WIDTH * SCREEN_HEIGHT,
        rows.len() <= 15,
    ensures
        draw(draw(screen, rows, x0, y0).0, rows, x0, y0).0 == screen,
{
    let s1 = draw(screen, rows, x0, y0).0;
    lemma_draw_pointwise(screen, rows, x0, y0, 0);
    assert forall|p: int| 0 <= p < screen.len() implies draw(s1, rows, x0, y0).0[p] == screen[p] by {
        lemma_draw_pointwise(screen, rows, x0, y0, p);
        lemma_draw_pointwise(s1, rows, x0, y0, p);
    }
    lemma_draw_pointwise(s1, rows, x0, y0, 0);
    assert(draw(s1, rows, x0, y0).0 =~= screen);
}

/// A set bit at (r, c) makes the row hit its pixel for any bound at or
/// beyond c.
proof fn lemma_bit_row_hits(byte: u8, x0: u8, y0: u8, r: int, c: int, cb: int)
    requires
        0 <= c <= cb,
        row_bit(byte, c),
    ensures
        row_hits(byte, x0, y0, r, cb, pixel_index(x0, y0, r, c)),
    decreases cb + 1,
{
    if cb > c {
        lemma_bit_row_hits(byte, x0, y0, r, c, cb - 1);
    }
}

/// A set bit at (r, c) makes the sprite hit its pixel.
proof fn lemma_bit_rows_hit(rows: Seq<u8>, x0: u8, y0: u8, r: int, c: int, rb: int)
    requires
        0 <= r <= rb,
        0 <= c < 8,
        row_bit(rows[r], c),
    ensures
        rows_hit(rows, x0, y0, rb, pixel_index(x0, y0, r, c)),
    decreases rb + 1,
{
    if rb > r {
        lemma_bit_rows_hit(rows, x0, y0, r, c, rb - 1);
    } else {
        lemma_bit_row_hits(rows[r], x0, y0, r, c, 7);
    }
}

/// A set bit whose pixel is on in `screen` makes the row collide.
proof fn lemma_bit_row_collides(
    byte: u8,
    x0: u8,
    y0: u8,
    r: int,
    c: int,
    cb: int,
    screen: Seq<bool>,
)
    requires
        0 <= c <= cb,
        row_bit(byte, c),
        screen[pixel_index(x0, y0, r, c)],
    ensures
        row_collides(byte, x0, y0, r, cb, screen),
    decreases cb + 1,
{
    if cb > c {
        lemma_bit_row_collides(byte, x0, y0, r, c, cb - 1, screen);
    }
}

/// A set bit whose pixel is on in `screen` makes the sprite collide.
proof fn lemma_bit_rows_collide(
    rows: Seq<u8>,
    x0: u8,
    y0: u8,
    r: int,
    c: int,
    rb: int,
    screen: Seq<bool>,
)
    requires
        0 <= r <= rb,
        0 <= c < 8,
        row_bit(rows[r], c),
        screen[pixel_index(x0, y0, r, c)],
    ensures
        rows_collide(rows, x0, y0, rb, screen),
    decreases rb + 1,
{
    if rb > r {
        lemma_bit_rows_collide(rows, x0, y0, r, c, rb - 1, screen);
    } else {
        lemma_bit_row_collides(rows[r], x0, y0, r, c, 7, screen);
    }
}

/// Drawing the same sprite twice at the same anchor reports a
/// collision on the second draw, provided the sprite has a set bit
/// whose pixel was off before the first draw (the first draw then
/// turned that pixel on).
pub proof fn lemma_draw_twice_collides(
    screen: Seq<bool>,
    rows: Seq<u8>,
    x0: u8,
    y0: u8,
    r: int,
    c: int,
)
    requires
        screen.len() == SCREEN_WIDTH * SCREEN_HEIGHT,
        rows.len() <= 15,
        0 <= r < rows.len(),
        0 <= c < 8,
        row_bit(rows[r], c),
        !screen[pixel_index(x0, y0, r, c)],
    ensures
        draw(draw(screen, rows, x0, y0).0, rows, x0, y0).1,
{
    let p = pixel_index(x0, y0, r, c);
    let s1 = draw(screen, rows, x0, y0).0;
    lemma_pixel_index_bounds(x0, y0, r, c);
    lemma_bit_rows_hit(rows, x0, y0, r, c, rows.len() - 1);
    lemma_draw_pointwise(screen, rows, x0, y0, p);
    lemma_draw_pointwise(s1, rows, x0, y0, p);
    lemma_bit_rows_collide(rows, x0, y0, r, c, rows.len() - 1, s1);
}

/// XOR-draw a sprite onto the screen; returns the collision flag.
pub fn draw_sprite(screen: &mut Vec<bool>, rows: &Vec<u8>, x0: u8, y0: u8) -> (flipped: bool)
    requires
        old(screen)@.len() == SCREEN_WIDTH * SCREEN_HEIGHT,
        rows@.len() <= 15,
    ensures
        final(screen)@ == draw(old(screen)@, rows@, x0, y0).0,
        flipped == draw(old(screen)@, rows@, x0, y0).1,
        final(screen)@.len() == old(screen)@.len(),
{
    let ghost screen0 = old(screen)@;
    let mut flipped = false;
    let n = rows.len();
    let mut r: usize = 0;
    while r < n
        invariant
            n == rows@.len(),
            n <= 15,
            r <= n,
            screen@.len() == SCREEN_WIDTH * SCREEN_HEIGHT,
            screen@ == draw_rows(screen0, rows@, x0, y0, r - 1).0,
            flipped == draw_rows(screen0, rows@, x0, y0, r - 1).1,
        decreases n - r,
    {
        let ghost row_start = draw_rows(screen0, rows@, x0, y0, r - 1);
        let byte = rows[r];
        let mut c: usize = 0;
        while c < 8
            invariant
                n == rows@.len(),
                n <= 15,
                r < n,
                byte == rows@[r as int],
                c <= 8,
                screen@.len() == SCREEN_WIDTH * SCREEN_HEIGHT,
                row_start == draw_rows(screen0, rows@, x0, y0, r - 1),
                screen@ == draw_row(row_start.0, byte, x0, y0, r as int, c - 1).0,
                flipped == (row_start.1 || draw_row(row_start.0, byte, x0, y0, r as int, c - 1).1),
            decreases 8 - c,
        {
            if byte & (0x80u8 >> (c as u8)) != 0 {
                let x = ((x0 as usize) + c) % SCREEN_WIDTH;
                let y = ((y0 as usize) + r) % SCREEN_HEIGHT;
                let idx = x + SCREEN_WIDTH * y;
                proof {
                    assert(idx == pixel_index(x0, y0, r as int, c as int));
                    assert(idx < SCREEN_WIDTH * SCREEN_HEIGHT);
                }
                let cur = screen[idx];
                if cur {
                    flipped = true;
                }
                screen.set(idx, !cur);
            }
            c += 1;
        }
        proof {
            assert(screen@ == draw_rows(screen0, rows@, x0, y0, r as int).0);
            assert(flipped == draw_rows(screen0, rows@, x0, y0, r as int).1);
        }
        r += 1;
    }
    flipped
}

} // verus!
