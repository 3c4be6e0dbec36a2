//! Tile layout: glyph scale, row spacing, row offsets and the repeated
//! watermark line, all on fixed-point integers.
//!
//! Scales are given in thousandths (`1500` stands for `1.5`), and the glyph
//! scale and row spacing that come out are in thousandths of a pixel.
use vstd::prelude::*;
use vstd::arithmetic::div_mod::{lemma_fundamental_div_mod, lemma_mod_bound};

verus! {

/// Glyph scale used when the requested one is not positive: 0.05 px.
pub const MIN_GLYPH_SCALE_MILLI: i64 = 50;

/// Smallest row spacing: 1 px.
pub const MIN_ROW_SPACING_MILLI: i128 = 1000;

/// Glyph scale in thousandths of a pixel for an image of height `height`
/// and a text scale of `text_scale_milli` thousandths.
pub open spec fn glyph_scale_spec(height: int, text_scale_milli: int) -> int {
    if height * text_scale_milli <= 0 {
        MIN_GLYPH_SCALE_MILLI as int
    } else {
        height * text_scale_milli
    }
}

/// Row spacing in thousandths of a pixel: glyph scale times space scale,
/// never below one pixel.
pub open spec fn row_spacing_spec(glyph_milli: int, space_scale_milli: int) -> int {
    if glyph_milli * space_scale_milli <= 1_000_000 {
        MIN_ROW_SPACING_MILLI as int
    } else {
        glyph_milli * space_scale_milli / 1000
    }
}

/// Whole pixels between two rows, saturated at `u32::MAX`.
pub open spec fn row_step_spec(spacing_milli: int) -> int {
    if spacing_milli / 1000 > u32::MAX as int {
        u32::MAX as int
    } else {
        spacing_milli / 1000
    }
}

/// Number of rows of step `step` that start inside a canvas of height `h`.
pub open spec fn row_count_spec(h: int, step: int) -> int
    recommends
        step > 0,
{
    if h <= 0 {
        0
    } else {
        (h - 1) / step + 1
    }
}

/// `unit` written `k` times in a row.
pub open spec fn repeat_spec(unit: Seq<char>, k: nat) -> Seq<char>
    decreases k,
{
    if k == 0 {
        Seq::empty()
    } else {
        repeat_spec(unit, (k - 1) as nat) + unit
    }
}

/// One repetition of the watermark: the text and a tab.
pub open spec fn tile_unit(text: Seq<char>) -> Seq<char> {
    text.push('\t')
}

/// How many repetitions cover a canvas row of `canvas_width` pixels, counting
/// one pixel per byte of a repetition (`text_bytes` bytes of text and a tab):
/// one more than fit whole, so the row is always passed.
pub open spec fn repeat_count_spec(canvas_width: int, text_bytes: int) -> int {
    canvas_width / (text_bytes + 1) + 1
}

/// There is always at least one repetition, and together they are longer
/// than the canvas is wide.
pub proof fn lemma_repeats_cover_row(canvas_width: int, text_bytes: int)
    requires
        canvas_width >= 0,
        text_bytes >= 0,
    ensures
        repeat_count_spec(canvas_width, text_bytes) >= 1,
        repeat_count_spec(canvas_width, text_bytes) * (text_bytes + 1) > canvas_width,
{
    let u = text_bytes + 1;
    lemma_fundamental_div_mod(canvas_width, u);
    lemma_mod_bound(canvas_width, u);
    let q = canvas_width / u;
    let r = canvas_width % u;
    assert(q >= 0) by (nonlinear_arith)
        requires
            canvas_width == u * q + r,
            0 <= r < u,
            canvas_width >= 0,
    ;
    assert((q + 1) * u > canvas_width) by (nonlinear_arith)
        requires
            canvas_width == u * q + r,
            0 <= r < u,
    ;
}

/// Effective glyph scale, in thousandths of a pixel.
pub fn glyph_scale(height: u32, text_scale_milli: i32) -> (r: i64)
    ensures
        r == glyph_scale_spec(height as int, text_scale_milli as int),
        r > 0,
{
    let h: i128 = height as i128;
    let t: i128 = text_scale_milli as i128;
    proof {
        assert(-0x1_0000_0000_0000_0000i128 <= h * t <= 0x1_0000_0000_0000_0000i128)
            by (nonlinear_arith)
            requires
                0 <= h <= 0xffff_ffff,
                -0x8000_0000 <= t <= 0x7fff_ffff,
        ;
    }
    let p: i128 = h * t;
    if p <= 0 {
        MIN_GLYPH_SCALE_MILLI
    } else {
        proof {
            assert(h * t <= 0xffff_ffff * 0x7fff_ffff) by (nonlinear_arith)
                requires
                    0 <= h <= 0xffff_ffff,
                    t <= 0x7fff_ffff,
                    h * t > 0,
            ;
        }
        p as i64
    }
}

/// Effective row spacing, in thousandths of a pixel.
pub fn row_spacing(glyph_milli: i64, space_scale_milli: i32) -> (r: i128)
    ensures
        r == row_spacing_spec(glyph_milli as int, space_scale_milli as int),
        r >= MIN_ROW_SPACING_MILLI,
{
    let g: i128 = glyph_milli as i128;
    let s: i128 = space_scale_milli as i128;
    proof {
        assert(-0x1_0000_0000_0000_0000_0000_0000i128 <= g * s
            <= 0x1_0000_0000_0000_0000_0000_0000i128) by (nonlinear_arith)
            requires
                -0x8000_0000_0000_0000 <= g <= 0x7fff_ffff_ffff_ffff,
                -0x8000_0000 <= s <= 0x7fff_ffff,
        ;
    }
    let p: i128 = g * s;
    if p <= 1_000_000 {
        MIN_ROW_SPACING_MILLI
    } else {
        p / 1000
    }
}

/// Whole pixels between two rows.
pub fn row_step(spacing_milli: i128) -> (r: u32)
    requires
        spacing_milli >= MIN_ROW_SPACING_MILLI,
    ensures
        r == row_step_spec(spacing_milli as int),
        r >= 1,
{
    let q: i128 = spacing_milli / 1000;
    if q > u32::MAX as i128 {
        u32::MAX
    } else {
        q as u32
    }
}

/// Row offsets `0, step, 2*step, ...` that lie inside a canvas of height
/// `canvas_height`. Enough of them are tried to reach the bottom edge, and a
/// row is never started at or past it.
pub fn row_offsets(canvas_height: u32, step: u32) -> (r: Vec<u32>)
    requires
        step > 0,
    ensures
        r@.len() == row_count_spec(canvas_height as int, step as int),
        forall|i: int| 0 <= i < r@.len() ==> #[trigger] r@[i] == i * step,
        forall|i: int| 0 <= i < r@.len() ==> #[trigger] r@[i] < canvas_height,
        r@.len() * step >= canvas_height,
{
    let mut rows: Vec<u32> = Vec::new();
    let count: u32 = if canvas_height == 0 {
        0
    } else {
        (canvas_height - 1) / step + 1
    };
    let ghost h = canvas_height as int;
    let ghost s = step as int;
    let ghost q = (h - 1) / s;
    proof {
        if h > 0 {
            lemma_fundamental_div_mod(h - 1, s);
            lemma_mod_bound(h - 1, s);
        }
    }
    let mut i: u32 = 0;
    while i < count
        invariant
            step > 0,
            s == step,
            h == canvas_height,
            q == (h - 1) / s,
            h > 0 ==> h - 1 == s * q + (h - 1) % s && 0 <= (h - 1) % s < s,
            count == row_count_spec(h, s),
            i <= count,
            rows@.len() == i,
            forall|j: int| 0 <= j < rows@.len() ==> #[trigger] rows@[j] == j * step,
            forall|j: int| 0 <= j < rows@.len() ==> #[trigger] rows@[j] < canvas_height,
        decreases count - i,
    {
        proof {
            let ii = i as int;
            let r = (h - 1) % s;
            assert(ii * s < h) by (nonlinear_arith)
                requires
                    h - 1 == s * q + r,
                    0 <= r < s,
                    0 <= ii <= q,
                    s > 0,
            ;
        }
        rows.push(i * step);
        i = i + 1;
    }
    proof {
        if h > 0 {
            let r = (h - 1) % s;
            let len = count as int;
            assert(len * s >= h) by (nonlinear_arith)
                requires
                    h - 1 == s * q + r,
                    0 <= r < s,
                    len == q + 1,
            ;
        }
    }
    rows
}

/// The watermark line for one row: the text and a tab, repeated one more
/// time than one repetition's byte length fits whole in the canvas width.
pub fn repeated_text(text: &str, canvas_width: u32) -> (r: String)
    ensures
        r@ == repeat_spec(
            tile_unit(text@),
            repeat_count_spec(canvas_width as int, text.len() as int) as nat,
        ),
        repeat_count_spec(canvas_width as int, text.len() as int) >= 1,
        repeat_count_spec(canvas_width as int, text.len() as int) * (text.len() + 1)
            > canvas_width,
{
    let mut unit: String = text.to_owned();
    unit.append("\t");
    proof {
        reveal_strlit("\t");
        assert(unit@ =~= tile_unit(text@));
    }
    let len: usize = text.len();
    let count: u64 = if len as u64 >= canvas_width as u64 {
        1
    } else {
        (canvas_width / (len as u32 + 1)) as u64 + 1
    };
    proof {
        lemma_repeats_cover_row(canvas_width as int, len as int);
        if len as u64 >= canvas_width as u64 {
            assert((canvas_width as int) / (len as int + 1) == 0) by (nonlinear_arith)
                requires
                    len >= canvas_width,
            ;
        }
    }
    let mut out: String = String::new();
    let mut i: u64 = 0;
    while i < count
        invariant
            i <= count,
            count == repeat_count_spec(canvas_width as int, text.len() as int),
            unit@ == tile_unit(text@),
            out@ == repeat_spec(unit@, i as nat),
        decreases count - i,
    {
        out.append(unit.as_str());
        i = i + 1;
    }
    out
}


/// A text scale that makes the glyph scale zero or negative gives the floor
/// glyph scale of 0.05 px, which is positive.
pub proof fn lemma_glyph_scale_floor(height: int, text_scale_milli: int)
    requires
        height * text_scale_milli <= 0,
    ensures
        glyph_scale_spec(height, text_scale_milli) == MIN_GLYPH_SCALE_MILLI,
        glyph_scale_spec(height, text_scale_milli) > 0,
{
}

/// A glyph scale and space scale whose product is at most one pixel give a
/// row spacing of exactly one pixel.
pub proof fn lemma_row_spacing_floor(glyph_milli: int, space_scale_milli: int)
    requires
        glyph_milli * space_scale_milli <= 1_000_000,
    ensures
        row_spacing_spec(glyph_milli, space_scale_milli) == MIN_ROW_SPACING_MILLI,
        row_step_spec(row_spacing_spec(glyph_milli, space_scale_milli)) == 1,
{
}

/// Every row offset `i * step` with `i` below the row count lies inside the
/// canvas, and one more row would not.
pub proof fn lemma_rows_inside_canvas(h: int, step: int, i: int)
    requires
        step > 0,
        h >= 0,
        0 <= i < row_count_spec(h, step),
    ensures
        i * step < h,
        row_count_spec(h, step) * step >= h,
{
    let q = (h - 1) / step;
    lemma_fundamental_div_mod(h - 1, step);
    lemma_mod_bound(h - 1, step);
    let r = (h - 1) % step;
    assert(i * step < h) by (nonlinear_arith)
        requires
            h - 1 == step * q + r,
            0 <= r < step,
            0 <= i <= q,
            step > 0,
    ;
    assert((q + 1) * step >= h) by (nonlinear_arith)
        requires
            h - 1 == step * q + r,
            0 <= r < step,
    ;
}

} // verus!
