//! Everything a watermarking pass needs to know about one image before it
//! draws: canvas size, glyph scale, row offsets, the text of a row and where
//! the rotated canvas goes.
use crate::layout::{
    glyph_scale, glyph_scale_spec, repeat_count_spec, repeat_spec, repeated_text, row_count_spec,
    row_offsets, row_spacing, row_spacing_spec, row_step, row_step_spec, tile_unit,
};
use vstd::prelude::*;

verus! {

/// Why an image cannot be watermarked.
#[derive(Clone, Copy, Debug, PartialEq, Eq, Structural)]
pub enum WatermarkError {
    /// The image has zero width or zero height.
    InvalidDimensions,
    /// Twice the image's width or height does not fit in `u32`.
    CanvasTooLarge,
}

impl WatermarkError {
    /// Human-readable cause.
    pub fn message(&self) -> (r: String)
        ensures
            r@ == match self {
                WatermarkError::InvalidDimensions =>
                    "Image has invalid dimensions (width or height is 0)"@,
                WatermarkError::CanvasTooLarge => "Image is too large for a watermark canvas"@,
            },
    {
        match self {
            WatermarkError::InvalidDimensions => String::from_str(
                "Image has invalid dimensions (width or height is 0)",
            ),
            WatermarkError::CanvasTooLarge => String::from_str(
                "Image is too large for a watermark canvas",
            ),
        }
    }
}

/// Layout of the watermark for one image.
pub struct WatermarkPlan {
    /// Width of the transparent working canvas: twice the image's.
    pub canvas_width: u32,
    /// Height of the working canvas: twice the image's.
    pub canvas_height: u32,
    /// Glyph scale in thousandths of a pixel.
    pub glyph_scale_milli: i64,
    /// Row spacing in thousandths of a pixel.
    pub row_spacing_milli: i128,
    /// Whole pixels between two rows.
    pub row_step: u32,
    /// Vertical offset of each row on the canvas.
    pub rows: Vec<u32>,
    /// Text drawn on every row, starting at x = 0.
    pub line: String,
    /// Where the rotated canvas's left edge goes on the image.
    pub offset_x: i64,
    /// Where the rotated canvas's top edge goes on the image.
    pub offset_y: i64,
}

/// Whether a canvas twice the image's size in each direction fits in `u32`.
pub open spec fn canvas_fits(width: int, height: int) -> bool {
    2 * width <= u32::MAX && 2 * height <= u32::MAX
}

/// The plan's fields, as the inputs determine them.
pub open spec fn plan_matches(
    p: &WatermarkPlan,
    width: u32,
    height: u32,
    text: Seq<char>,
    text_bytes: int,
    text_scale_milli: i32,
    space_scale_milli: i32,
) -> bool {
    let glyph = glyph_scale_spec(height as int, text_scale_milli as int);
    let spacing = row_spacing_spec(glyph, space_scale_milli as int);
    let step = row_step_spec(spacing);
    &&& p.canvas_width == 2 * width
    &&& p.canvas_height == 2 * height
    &&& p.glyph_scale_milli == glyph
    &&& p.row_spacing_milli == spacing
    &&& p.row_step == step
    &&& p.rows@.len() == row_count_spec(2 * height, step)
    &&& forall|i: int| 0 <= i < p.rows@.len() ==> #[trigger] p.rows@[i] == i * step
    &&& p.line@ == repeat_spec(tile_unit(text), repeat_count_spec(2 * width, text_bytes) as nat)
    &&& repeat_count_spec(2 * width, text_bytes) >= 1
    &&& repeat_count_spec(2 * width, text_bytes) * (text_bytes + 1) > 2 * width
    &&& p.offset_x == -((width / 2) as int)
    &&& p.offset_y == -((height / 2) as int)
}

/// Lays out the watermark for an image of `width` by `height` pixels.
/// Scales are in thousandths.
pub fn plan_watermark(
    width: u32,
    height: u32,
    text: &str,
    text_scale_milli: i32,
    space_scale_milli: i32,
) -> (r: Result<WatermarkPlan, WatermarkError>)
    ensures
        (width == 0 || height == 0) <==> r == Err::<WatermarkPlan, WatermarkError>(
            WatermarkError::InvalidDimensions,
        ),
        (width > 0 && height > 0 && !canvas_fits(width as int, height as int)) <==> r == Err::<
            WatermarkPlan,
            WatermarkError,
        >(WatermarkError::CanvasTooLarge),
        r matches Ok(p) ==> plan_matches(
            &p,
            width,
            height,
            text@,
            text.len() as int,
            text_scale_milli,
            space_scale_milli,
        ),
{
    if width == 0 || height == 0 {
        return Err(WatermarkError::InvalidDimensions);
    }
    if width > u32::MAX / 2 || height > u32::MAX / 2 {
        return Err(WatermarkError::CanvasTooLarge);
    }
    let canvas_width: u32 = 2 * width;
    let canvas_height: u32 = 2 * height;
    let glyph: i64 = glyph_scale(height, text_scale_milli);
    let spacing: i128 = row_spacing(glyph, space_scale_milli);
    let step: u32 = row_step(spacing);
    let rows: Vec<u32> = row_offsets(canvas_height, step);
    let line: String = repeated_text(text, canvas_width);
    Ok(
        WatermarkPlan {
            canvas_width,
            canvas_height,
            glyph_scale_milli: glyph,
            row_spacing_milli: spacing,
            row_step: step,
            rows,
            line,
            offset_x: -((width / 2) as i64),
            offset_y: -((height / 2) as i64),
        },
    )
}

/// Two plans made for the same image size, text and scales agree in every
/// field: a watermarking pass draws the same thing each time it is run.
pub proof fn lemma_plan_deterministic(
    p1: &WatermarkPlan,
    p2: &WatermarkPlan,
    width: u32,
    height: u32,
    text: Seq<char>,
    text_bytes: int,
    text_scale_milli: i32,
    space_scale_milli: i32,
)
    requires
        plan_matches(p1, width, height, text, text_bytes, text_scale_milli, space_scale_milli),
        plan_matches(p2, width, height, text, text_bytes, text_scale_milli, space_scale_milli),
    ensures
        p1.canvas_width == p2.canvas_width,
        p1.canvas_height == p2.canvas_height,
        p1.glyph_scale_milli == p2.glyph_scale_milli,
        p1.row_spacing_milli == p2.row_spacing_milli,
        p1.row_step == p2.row_step,
        p1.rows@ == p2.rows@,
        p1.line@ == p2.line@,
        p1.offset_x == p2.offset_x,
        p1.offset_y == p2.offset_y,
{
    assert(p1.rows@ =~= p2.rows@);
}

} // verus!
