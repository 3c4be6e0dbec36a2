//! Source-over compositing of an RGBA overlay onto an RGBA image.
use vstd::prelude::*;

verus! {

/// An RGBA image, four bytes per pixel, rows top to bottom.
pub struct Raster {
    pub width: u32,
    pub height: u32,
    pub data: Vec<u8>,
}

impl Raster {
    /// The pixel buffer holds exactly four bytes for each pixel.
    pub open spec fn wf(&self) -> bool {
        self.data@.len() == 4 * (self.width as int) * (self.height as int)
    }

    /// Channel `c` of pixel (`x`, `y`).
    pub open spec fn channel(&self, x: int, y: int, c: int) -> u8 {
        self.data@[4 * (y * self.width + x) + c]
    }

    /// Wraps a pixel buffer, provided its length is four bytes per pixel.
    pub fn from_rgba(width: u32, height: u32, data: Vec<u8>) -> (r: Option<Raster>)
        ensures
            data@.len() == 4 * (width as int) * (height as int) <==> r is Some,
            r matches Some(img) ==> img.width == width && img.height == height && img.data@
                == data@ && img.wf(),
    {
        proof {
            assert((width as int) * (height as int) <= 0xffff_ffff_ffff_ffff) by (nonlinear_arith)
                requires
                    width <= 0xffff_ffff,
                    height <= 0xffff_ffff,
            ;
        }
        let need: u128 = 4 * ((width as u128) * (height as u128));
        assert(4 * ((width as int) * (height as int)) == 4 * (width as int) * (height as int))
            by (nonlinear_arith);
        if data.len() as u128 == need {
            Some(Raster { width, height, data })
        } else {
            None
        }
    }

    /// Takes the pixel buffer back.
    pub fn into_rgba(self) -> (r: Vec<u8>)
        ensures
            r@ == self.data@,
    {
        self.data
    }
}

/// Source-over blend of one colour channel: overlay value `o` with alpha `a`
/// over destination value `d`, rounded to the nearest integer.
pub open spec fn blend_spec(d: u8, o: u8, a: u8) -> int {
    (o as int * a as int + d as int * (255 - a as int) + 127) / 255
}

/// Blends one colour channel.
pub fn blend_channel(d: u8, o: u8, a: u8) -> (r: u8)
    ensures
        r == blend_spec(d, o, a),
{
    proof {
        assert((o as int) * (a as int) + (d as int) * (255 - a as int) <= 255 * 255) by (nonlinear_arith)
            requires
                o <= 255,
                d <= 255,
                a <= 255,
        ;
        assert(0 <= (o as int) * (a as int) && 0 <= (d as int) * (255 - a as int)) by (nonlinear_arith)
            requires
                a <= 255,
        ;
    }
    let s: u32 = o as u32 * a as u32 + d as u32 * (255 - a as u32) + 127;
    (s / 255) as u8
}

/// Value of byte `i` of the destination (pixels `dst_width` wide, held in
/// `dst`) after `top` is laid over it with its top-left corner at (`x`, `y`):
/// alpha stays as it was, and colour channels under the overlay are blended
/// with the overlay's alpha.
pub open spec fn overlaid_byte(dst: Seq<u8>, dst_width: int, top: &Raster, x: int, y: int, i: int) -> u8 {
    let p = i / 4;
    let c = i % 4;
    let tx = p % dst_width - x;
    let ty = p / dst_width - y;
    if c == 3 || !(0 <= tx < top.width && 0 <= ty < top.height) {
        dst[i]
    } else {
        blend_spec(dst[i], top.channel(tx, ty, c), top.channel(tx, ty, 3)) as u8
    }
}

proof fn lemma_pixel_in_bounds(tx: int, ty: int, w: int, h: int)
    requires
        0 <= tx < w,
        0 <= ty < h,
    ensures
        0 <= ty * w,
        ty * w + tx < w * h,
        4 * (w * h) == 4 * w * h,
{
    assert(ty * w + tx < w * h) by (nonlinear_arith)
        requires
            0 <= tx < w,
            0 <= ty < h,
    ;
    assert(0 <= ty * w) by (nonlinear_arith)
        requires
            0 <= ty,
            0 <= w,
    ;
    assert(4 * (w * h) == 4 * w * h) by (nonlinear_arith);
}

/// Lays `top` over `dst` with its top-left corner at (`x`, `y`), in place.
pub fn overlay(dst: &mut Raster, top: &Raster, x: i64, y: i64)
    requires
        old(dst).wf(),
        top.wf(),
    ensures
        final(dst).wf(),
        final(dst).width == old(dst).width,
        final(dst).height == old(dst).height,
        final(dst).data@.len() == old(dst).data@.len(),
        forall|i: int|
            0 <= i < old(dst).data@.len() ==> #[trigger] final(dst).data@[i] == overlaid_byte(
                old(dst).data@,
                old(dst).width as int,
                top,
                x as int,
                y as int,
                i,
            ),
{
    let w: u32 = dst.width;
    let ghost h: u32 = dst.height;
    let ghost orig: Seq<u8> = dst.data@;
    let n: usize = dst.data.len() / 4;
    proof {
        assert(4 * (w as int) * (h as int) == 4 * ((w as int) * (h as int))) by (nonlinear_arith);
    }
    let mut p: usize = 0;
    while p < n
        invariant
            dst.wf(),
            top.wf(),
            dst.width == w,
            dst.height == h,
            n == (w as int) * (h as int),
            dst.data@.len() == orig.len(),
            orig.len() == 4 * n,
            orig.len() <= usize::MAX,
            p <= n,
            forall|i: int|
                0 <= i < 4 * p ==> #[trigger] dst.data@[i] == overlaid_byte(
                    orig,
                    w as int,
                    top,
                    x as int,
                    y as int,
                    i,
                ),
            forall|i: int| 4 * p <= i < orig.len() ==> #[trigger] dst.data@[i] == orig[i],
        decreases n - p,
    {
        let base: usize = (4 * p) as usize;
        proof {
            assert(w > 0) by (nonlinear_arith)
                requires
                    p < n,
                    n == (w as int) * (h as int),
            ;
        }
        let px: usize = p % w as usize;
        let py: usize = p / w as usize;
        let tx: i128 = px as i128 - x as i128;
        let ty: i128 = py as i128 - y as i128;
        if 0 <= tx && tx < top.width as i128 && 0 <= ty && ty < top.height as i128 {
            proof {
                lemma_pixel_in_bounds(tx as int, ty as int, top.width as int, top.height as int);
            }
            let tlen: usize = top.data.len();
            let row: usize = ty as usize * top.width as usize;
            let tbase: usize = 4 * (row + tx as usize);
            let a: u8 = top.data[tbase + 3];
            let mut c: usize = 0;
            while c < 3
                invariant
                    dst.wf(),
                    top.wf(),
                    dst.width == w,
                    dst.height == h,
                    n == (w as int) * (h as int),
                    dst.data@.len() == orig.len(),
                    orig.len() == 4 * n,
                    p < n,
                    base == 4 * p,
                    c <= 3,
                    px == (p as int) % (w as int),
                    py == (p as int) / (w as int),
                    tx == px - x,
                    ty == py - y,
                    0 <= tx < top.width,
                    0 <= ty < top.height,
                    tbase == 4 * (ty * top.width + tx),
                    tbase + 3 < top.data@.len(),
                    a == top.data@[tbase + 3],
                    forall|i: int|
                        0 <= i < 4 * p ==> #[trigger] dst.data@[i] == overlaid_byte(
                            orig,
                            w as int,
                            top,
                            x as int,
                            y as int,
                            i,
                        ),
                    forall|i: int|
                        4 * p <= i < 4 * p + c ==> #[trigger] dst.data@[i] == overlaid_byte(
                            orig,
                            w as int,
                            top,
                            x as int,
                            y as int,
                            i,
                        ),
                    forall|i: int| 4 * p + c <= i < orig.len() ==> #[trigger] dst.data@[i] == orig[i],
                decreases 3 - c,
            {
                let v: u8 = blend_channel(dst.data[base + c], top.data[tbase + c], a);
                dst.data.set(base + c, v);
                proof {
                    let i = base + c;
                    assert(i / 4 == p && i % 4 == c);
                }
                c = c + 1;
            }
            proof {
                let i = 4 * p + 3;
                assert(i / 4 == p && i % 4 == 3);
            }
        } else {
            proof {
                assert forall|i: int| 4 * p <= i < 4 * p + 4 implies #[trigger] dst.data@[i]
                    == overlaid_byte(orig, w as int, top, x as int, y as int, i) by {
                    assert(i / 4 == p);
                }
            }
        }
        p = p + 1;
    }
}

/// Laying an overlay whose every pixel has alpha 0 leaves the destination
/// unchanged, byte for byte.
pub proof fn lemma_transparent_overlay_keeps_image(dst: Seq<u8>, dst_width: int, top: &Raster, x: int, y: int)
    requires
        top.wf(),
        forall|tx: int, ty: int|
            0 <= tx < top.width && 0 <= ty < top.height ==> #[trigger] top.channel(tx, ty, 3) == 0,
    ensures
        forall|i: int| 0 <= i < dst.len() ==> #[trigger] overlaid_byte(dst, dst_width, top, x, y, i) == dst[i],
{
    assert forall|i: int| 0 <= i < dst.len() implies #[trigger] overlaid_byte(dst, dst_width, top, x, y, i)
        == dst[i] by {
        let d = dst[i] as int;
        assert((d * 255 + 127) / 255 == d) by (nonlinear_arith)
            requires
                0 <= d <= 255,
        ;
    }
}

} // verus!
