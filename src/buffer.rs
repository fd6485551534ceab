use vstd::prelude::*;
use vstd::arithmetic::div_mod::{lemma_fundamental_div_mod, lemma_fundamental_div_mod_converse};

verus! {

/// A point of a glyph outline, in the font's design units, origin at the top left.
#[derive(Clone, Copy, Debug, PartialEq, Eq)]
pub struct DesignPoint {
    pub x: i32,
    pub y: i32,
}

/// One quadratic Bézier segment of a glyph outline.
#[derive(Clone, Copy, Debug, PartialEq, Eq)]
pub struct DesignCurve {
    pub start: DesignPoint,
    pub control: DesignPoint,
    pub end: DesignPoint,
}

/// Number of `u16` words that the header of a glyph's curve data takes.
pub const HEADER_WORDS: usize = 4;

/// Number of `u16` words that one curve takes in a glyph's curve data.
pub const CURVE_WORDS: usize = 6;

/// `v`, a coordinate along an axis of length `dim`, scaled to `0..=65535` and rounded
/// to the nearest integer, halves up; coordinates outside `0..=dim` saturate.
pub open spec fn quantized(v: int, dim: int) -> int {
    if v <= 0 {
        0
    } else if v >= dim {
        65535
    } else {
        (2 * v * 65535 + dim) / (2 * dim)
    }
}

/// Coordinate `k` of a curve in stored order: start x, start y, control x, control y,
/// end x, end y.
pub open spec fn curve_coord(c: DesignCurve, k: int) -> int {
    if k == 0 {
        c.start.x as int
    } else if k == 1 {
        c.start.y as int
    } else if k == 2 {
        c.control.x as int
    } else if k == 3 {
        c.control.y as int
    } else if k == 4 {
        c.end.x as int
    } else {
        c.end.y as int
    }
}

/// Word `k` of a curve's stored data: its x coordinates scaled by the glyph's width,
/// its y coordinates by its height.
pub open spec fn curve_word(c: DesignCurve, k: int, size: DesignPoint) -> int {
    if k % 2 == 0 {
        quantized(curve_coord(c, k), size.x as int)
    } else {
        quantized(curve_coord(c, k), size.y as int)
    }
}

/// Word `p` of `buffer` once a glyph's curve data is written at word `at`: the header
/// `grid_x, grid_y, grid_width, grid_height`, then six words per curve in order; the
/// words outside that range keep their value from `before`.
pub open spec fn glyph_data_word(
    before: Seq<u16>,
    at: int,
    curves: Seq<DesignCurve>,
    size: DesignPoint,
    header: Seq<u16>,
    p: int,
) -> int {
    if at <= p < at + HEADER_WORDS {
        header[p - at] as int
    } else if at + HEADER_WORDS <= p < at + HEADER_WORDS + CURVE_WORDS * curves.len() {
        let q = p - at - HEADER_WORDS;
        curve_word(curves[q / CURVE_WORDS as int], q % CURVE_WORDS as int, size)
    } else {
        before[p] as int
    }
}

/// Scales a design-unit coordinate along an axis of length `dim` to a 16-bit value.
pub fn quantize(v: i32, dim: i32) -> (r: u16)
    requires
        dim > 0,
    ensures
        r == quantized(v as int, dim as int),
{
    if v <= 0 {
        return 0;
    }
    if v >= dim {
        return 65535;
    }
    let num: i64 = 2 * v as i64 * 65535 + dim as i64;
    let den: i64 = 2 * dim as i64;
    let q: i64 = num / den;
    proof {
        lemma_fundamental_div_mod(num as int, den as int);
        assert(0 <= q < 65536) by (nonlinear_arith)
            requires
                num == den * q + num % den,
                0 <= num % den < den,
                0 < num,
                num < den * 65536,
                den > 0,
        ;
    }
    q as u16
}

/// Coordinate `k` of `c` in stored order, scaled to 16 bits.
fn curve_word_of(c: &DesignCurve, k: usize, size: &DesignPoint) -> (r: u16)
    requires
        k < CURVE_WORDS,
        size.x > 0,
        size.y > 0,
    ensures
        r == curve_word(*c, k as int, *size),
{
    if k == 0 {
        quantize(c.start.x, size.x)
    } else if k == 1 {
        quantize(c.start.y, size.y)
    } else if k == 2 {
        quantize(c.control.x, size.x)
    } else if k == 3 {
        quantize(c.control.y, size.y)
    } else if k == 4 {
        quantize(c.end.x, size.x)
    } else {
        quantize(c.end.y, size.y)
    }
}

/// Writes a glyph's curve data into `buffer` from word `at` on: the placement of its
/// grid in the grid atlas (`grid_x, grid_y, grid_width, grid_height`), then, for each
/// curve in order, its start, control and end points, each coordinate scaled from
/// `0..=size` to `0..=65535` and rounded. No other word changes.
pub fn write_glyph_data_to_buffer(
    buffer: &mut Vec<u16>,
    at: usize,
    curves: &Vec<DesignCurve>,
    glyph_size: &DesignPoint,
    grid_x: u16,
    grid_y: u16,
    grid_width: u16,
    grid_height: u16,
)
    requires
        glyph_size.x > 0,
        glyph_size.y > 0,
        at + HEADER_WORDS + CURVE_WORDS * curves@.len() <= old(buffer)@.len(),
    ensures
        final(buffer)@.len() == old(buffer)@.len(),
        forall|p: int|
            0 <= p < final(buffer)@.len() ==> #[trigger] final(buffer)@[p] as int
                == glyph_data_word(
                old(buffer)@,
                at as int,
                curves@,
                *glyph_size,
                seq![grid_x, grid_y, grid_width, grid_height],
                p,
            ),
{
    let ghost before = buffer@;
    let ghost header = seq![grid_x, grid_y, grid_width, grid_height];
    let len = buffer.len();
    buffer.set(at, grid_x);
    buffer.set(at + 1, grid_y);
    buffer.set(at + 2, grid_width);
    buffer.set(at + 3, grid_height);

    let mut i: usize = 0;
    let mut w: usize = at + HEADER_WORDS;
    while i < curves.len()
        invariant
            0 <= i <= curves@.len(),
            w == at + HEADER_WORDS + CURVE_WORDS * i,
            at + HEADER_WORDS + CURVE_WORDS * curves@.len() <= len,
            len == buffer@.len(),
            len == before.len(),
            glyph_size.x > 0,
            glyph_size.y > 0,
            header == seq![grid_x, grid_y, grid_width, grid_height],
            forall|p: int|
                0 <= p < len ==> #[trigger] buffer@[p] as int == if p < w {
                    glyph_data_word(before, at as int, curves@, *glyph_size, header, p)
                } else {
                    before[p] as int
                },
        decreases curves@.len() - i,
    {
        let c = &curves[i];
        let mut k: usize = 0;
        while k < CURVE_WORDS
            invariant
                0 <= k <= CURVE_WORDS,
                i < curves@.len(),
                *c == curves@[i as int],
                w == at + HEADER_WORDS + CURVE_WORDS * i,
                at + HEADER_WORDS + CURVE_WORDS * curves@.len() <= len,
                len == buffer@.len(),
                len == before.len(),
                glyph_size.x > 0,
                glyph_size.y > 0,
                header == seq![grid_x, grid_y, grid_width, grid_height],
                forall|p: int|
                    0 <= p < len ==> #[trigger] buffer@[p] as int == if p < w + k {
                        glyph_data_word(before, at as int, curves@, *glyph_size, header, p)
                    } else {
                        before[p] as int
                    },
            decreases CURVE_WORDS - k,
        {
            let word = curve_word_of(c, k, glyph_size);
            proof {
                let q = (w + k) - at - HEADER_WORDS;
                lemma_fundamental_div_mod_converse(q, CURVE_WORDS as int, i as int, k as int);
                assert(w + k < at + HEADER_WORDS + CURVE_WORDS * curves@.len()) by (nonlinear_arith)
                    requires
                        w == at + HEADER_WORDS + CURVE_WORDS * i,
                        k < CURVE_WORDS,
                        i < curves@.len(),
                ;
            }
            buffer.set(w + k, word);
            k = k + 1;
        }
        i = i + 1;
        w = w + CURVE_WORDS;
    }
    proof {
        assert forall|p: int| 0 <= p < len implies #[trigger] buffer@[p] as int == glyph_data_word(
            before,
            at as int,
            curves@,
            *glyph_size,
            header,
            p,
        ) by {
            if p >= w {
                assert(!(at + HEADER_WORDS <= p < at + HEADER_WORDS + CURVE_WORDS * curves@.len()));
            }
        }
    }
}

} // verus!
