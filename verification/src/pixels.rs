//! Integer pixel arithmetic of the PNG renderer: the rounding of tiny-skia's
//! low-precision pipeline and compositing a cached glyph mask over a pixel.

use vstd::prelude::*;

verus! {

/// tiny-skia's low-precision `div255`: `(v + 255) >> 8`.
pub open spec fn div255_spec(v: int) -> int {
    (v + 255) / 256
}

/// `(v + 255) >> 8`, truncated to a byte as the pipeline stores it.
pub fn div255(v: u32) -> (r: u8)
    requires
        v <= u32::MAX - 255,
    ensures
        r as int == div255_spec(v as int) % 256,
{
    let w: u32 = v + 255;
    let q: u32 = w >> 8;
    assert(q == w / 256) by (bit_vector)
        requires
            q == w >> 8,
    ;
    let r: u8 = q as u8;
    assert(r == q % 256) by (bit_vector)
        requires
            r == q as u8,
    ;
    r
}

/// A premultiplied RGBA pixel: no colour channel exceeds alpha.
pub open spec fn premultiplied(p: Seq<u8>) -> bool {
    p[0] <= p[3] && p[1] <= p[3] && p[2] <= p[3]
}

/// Opaque paint: `lerp(dst, paint, coverage)` in lowp arithmetic.
pub open spec fn lerp_channel(d: int, p: int, coverage: int) -> int {
    div255_spec(d * (255 - coverage) + p * coverage)
}

/// Translucent paint: lowp `SourceOver` of a pre-scaled source.
pub open spec fn over_channel(s: int, d: int, src_alpha: int) -> int {
    s + (d * (255 - src_alpha) + 255) / 256
}

/// The composite of mask pixel `src` over `dst` for straight paint `paint`.
pub open spec fn blend_spec(src: Seq<u8>, dst: Seq<u8>, paint: Seq<u8>) -> Seq<int> {
    if paint[3] == 255 {
        seq![
            lerp_channel(dst[0] as int, paint[0] as int, src[3] as int),
            lerp_channel(dst[1] as int, paint[1] as int, src[3] as int),
            lerp_channel(dst[2] as int, paint[2] as int, src[3] as int),
            lerp_channel(dst[3] as int, 255, src[3] as int),
        ]
    } else {
        seq![
            over_channel(src[0] as int, dst[0] as int, src[3] as int),
            over_channel(src[1] as int, dst[1] as int, src[3] as int),
            over_channel(src[2] as int, dst[2] as int, src[3] as int),
            over_channel(src[3] as int, dst[3] as int, src[3] as int),
        ]
    }
}

/// Bytes read as integers.
pub open spec fn bytes_int(s: Seq<u8>) -> Seq<int> {
    s.map_values(|b: u8| b as int)
}

proof fn lemma_lerp_bounds(d: u32, da: u32, p: u32, cov: u32)
    requires
        d <= da <= 255,
        p <= 255,
        cov <= 255,
    ensures
        d * (255 - cov) + p * cov <= da * (255 - cov) + 255 * cov <= 65025,
        div255_spec(d * (255 - cov) + p * cov) <= div255_spec(da * (255 - cov) + 255 * cov) <= 255,
{
    assert(d * (255 - cov) <= da * (255 - cov)) by (nonlinear_arith)
        requires
            d <= da,
            cov <= 255,
    ;
    assert(p * cov <= 255 * cov) by (nonlinear_arith)
        requires
            p <= 255,
    ;
    assert(da * (255 - cov) + 255 * cov <= 65025) by (nonlinear_arith)
        requires
            da <= 255,
            cov <= 255,
    ;
}

proof fn lemma_over_bounds(s: u32, sa: u32, d: u32, da: u32)
    requires
        s <= sa <= 255,
        d <= da <= 255,
    ensures
        d * (255 - sa) + 255 <= da * (255 - sa) + 255 <= 65280,
        s + (d * (255 - sa) + 255) / 256 <= sa + (da * (255 - sa) + 255) / 256 <= 255,
{
    assert(d * (255 - sa) <= da * (255 - sa)) by (nonlinear_arith)
        requires
            d <= da,
            sa <= 255,
    ;
    assert(da * (255 - sa) <= 255 * (255 - sa)) by (nonlinear_arith)
        requires
            da <= 255,
            sa <= 255,
    ;
    assert((255 * (255 - sa) + 255) / 256 <= 255 - sa) by (nonlinear_arith)
        requires
            sa <= 255,
    ;
}

/// Composite one premultiplied glyph-mask pixel over a destination pixel
/// with the arithmetic of tiny-skia's solid-colour `fill_path`: for opaque
/// paint the mask alpha is the coverage and the result is a lerp towards the
/// paint; otherwise the mask pixel is the pre-scaled source and the result is
/// lowp `SourceOver`. The result is again premultiplied.
pub fn blend_mask_over(src: [u8; 4], dst: [u8; 4], paint_rgba: [u8; 4]) -> (r: [u8; 4])
    requires
        premultiplied(src@),
        premultiplied(dst@),
    ensures
        premultiplied(r@),
        bytes_int(r@) == blend_spec(src@, dst@, paint_rgba@),
{
    if paint_rgba[3] == 255 {
        let coverage = src[3] as u32;
        let inv = 255 - coverage;
        proof {
            lemma_lerp_bounds(dst[0] as u32, dst[3] as u32, paint_rgba[0] as u32, coverage);
            lemma_lerp_bounds(dst[1] as u32, dst[3] as u32, paint_rgba[1] as u32, coverage);
            lemma_lerp_bounds(dst[2] as u32, dst[3] as u32, paint_rgba[2] as u32, coverage);
            lemma_lerp_bounds(dst[3] as u32, dst[3] as u32, 255, coverage);
        }
        let r = div255(dst[0] as u32 * inv + paint_rgba[0] as u32 * coverage);
        let g = div255(dst[1] as u32 * inv + paint_rgba[1] as u32 * coverage);
        let b = div255(dst[2] as u32 * inv + paint_rgba[2] as u32 * coverage);
        let a = div255(dst[3] as u32 * inv + 255 * coverage);
        let out = [r, g, b, a];
        assert(bytes_int(out@) =~= blend_spec(src@, dst@, paint_rgba@));
        out
    } else {
        let inv = 255 - src[3] as u32;
        proof {
            lemma_over_bounds(src[0] as u32, src[3] as u32, dst[0] as u32, dst[3] as u32);
            lemma_over_bounds(src[1] as u32, src[3] as u32, dst[1] as u32, dst[3] as u32);
            lemma_over_bounds(src[2] as u32, src[3] as u32, dst[2] as u32, dst[3] as u32);
            lemma_over_bounds(src[3] as u32, src[3] as u32, dst[3] as u32, dst[3] as u32);
        }
        let r = (src[0] as u32 + (dst[0] as u32 * inv + 255) / 256) as u8;
        let g = (src[1] as u32 + (dst[1] as u32 * inv + 255) / 256) as u8;
        let b = (src[2] as u32 + (dst[2] as u32 * inv + 255) / 256) as u8;
        let a = (src[3] as u32 + (dst[3] as u32 * inv + 255) / 256) as u8;
        let out = [r, g, b, a];
        assert(bytes_int(out@) =~= blend_spec(src@, dst@, paint_rgba@));
        out
    }
}

// ---------------------------------------------------------------------------
// Drawing a cached glyph mask
// ---------------------------------------------------------------------------

/// Pixel `p` (four bytes) of an RGBA buffer.
pub open spec fn pixel(buf: Seq<u8>, p: int) -> Seq<u8> {
    buf.subrange(4 * p, 4 * p + 4)
}

/// Every one of the first `n` pixels is premultiplied.
pub open spec fn all_premultiplied(buf: Seq<u8>, n: int) -> bool {
    forall|p: int| 0 <= p < n ==> premultiplied(#[trigger] pixel(buf, p))
}

/// Whether a `mask_w` x `mask_h` mask drawn with its top-left corner at
/// `(dst_x, dst_y)` covers destination pixel `(x, y)`.
pub open spec fn mask_covers(dst_x: int, dst_y: int, mask_w: int, mask_h: int, x: int, y: int) -> bool {
    dst_x <= x < dst_x + mask_w && dst_y <= y < dst_y + mask_h
}

/// Destination pixel `p` (row-major, rows of `dst_w`) after drawing the
/// mask: blended where the mask covers it with a non-transparent pixel,
/// unchanged elsewhere.
pub open spec fn blit_pixel(
    dst: Seq<u8>,
    dst_w: int,
    mask: Seq<u8>,
    mask_w: int,
    mask_h: int,
    dst_x: int,
    dst_y: int,
    paint: Seq<u8>,
    p: int,
) -> Seq<int> {
    let x = p % dst_w;
    let y = p / dst_w;
    let m = pixel(mask, (y - dst_y) * mask_w + (x - dst_x));
    if mask_covers(dst_x, dst_y, mask_w, mask_h, x, y) && m[3] != 0 {
        blend_spec(m, pixel(dst, p), paint)
    } else {
        bytes_int(pixel(dst, p))
    }
}

proof fn lemma_coords(p: int, w: int)
    requires
        w > 0,
        p >= 0,
    ensures
        p == (p / w) * w + p % w,
        0 <= p % w < w,
        p / w >= 0,
{
    assert(p == (p / w) * w + p % w && 0 <= p % w < w && p / w >= 0) by (nonlinear_arith)
        requires
            w > 0,
            p >= 0,
    ;
}

proof fn lemma_row_major_lt(p: int, w: int, row: int, col: int)
    requires
        w > 0,
        p >= 0,
        row >= 0,
        0 <= col <= w,
    ensures
        (p < row * w + col) == (p / w < row || (p / w == row && p % w < col)),
{
    lemma_coords(p, w);
    let q = p / w;
    let r = p % w;
    assert((p < row * w + col) == (q < row || (q == row && r < col))) by (nonlinear_arith)
        requires
            w > 0,
            p == q * w + r,
            0 <= r < w,
            q >= 0,
            row >= 0,
            0 <= col <= w,
    ;
}

proof fn lemma_index_coords(x: int, y: int, w: int)
    requires
        0 <= x < w,
        y >= 0,
    ensures
        (y * w + x) / w == y,
        (y * w + x) % w == x,
{
    vstd::arithmetic::div_mod::lemma_fundamental_div_mod_converse_div(y * w + x, w, y, x);
    vstd::arithmetic::div_mod::lemma_fundamental_div_mod_converse_mod(y * w + x, w, y, x);
}

proof fn lemma_index_bound(x: int, y: int, w: int, h: int)
    requires
        0 <= x < w,
        0 <= y < h,
    ensures
        0 <= y * w + x < w * h,
{
    assert(0 <= y * w + x < w * h) by (nonlinear_arith)
        requires
            0 <= x < w,
            0 <= y < h,
    ;
}

/// Composite a premultiplied RGBA glyph mask onto a premultiplied RGBA
/// destination with its top-left corner at `(dst_x, dst_y)`, clipped to the
/// destination; transparent mask pixels are skipped. Each touched pixel is
/// [`blend_mask_over`] of its mask pixel and its old value.
pub fn blit_glyph_mask(
    dst: &mut Vec<u8>,
    dst_w: u32,
    dst_h: u32,
    mask: &[u8],
    mask_w: u32,
    mask_h: u32,
    dst_x: i32,
    dst_y: i32,
    paint_rgba: [u8; 4],
)
    requires
        old(dst)@.len() == dst_w * dst_h * 4,
        mask@.len() == mask_w * mask_h * 4,
        all_premultiplied(old(dst)@, dst_w * dst_h),
        all_premultiplied(mask@, mask_w * mask_h),
    ensures
        final(dst)@.len() == old(dst)@.len(),
        forall|p: int| 0 <= p < dst_w * dst_h ==> #[trigger] bytes_int(pixel(final(dst)@, p))
            == blit_pixel(old(dst)@, dst_w as int, mask@, mask_w as int, mask_h as int, dst_x as int, dst_y as int, paint_rgba@, p),
{
    let ghost w = dst_w as int;
    let ghost h = dst_h as int;
    let ghost orig = dst@;
    let mlen = mask.len();
    let dlen = dst.len();
    let ghost target = |p: int| blit_pixel(orig, w, mask@, mask_w as int, mask_h as int, dst_x as int, dst_y as int, paint_rgba@, p);
    let right_raw: i64 = dst_x as i64 + mask_w as i64;
    let right: i64 = if right_raw > dst_w as i64 { dst_w as i64 } else if right_raw < 0 { 0 } else { right_raw };
    let bottom_raw: i64 = dst_y as i64 + mask_h as i64;
    let bottom: i64 = if bottom_raw > dst_h as i64 { dst_h as i64 } else if bottom_raw < 0 { 0 } else { bottom_raw };
    let left: i64 = if dst_x < 0 { 0 } else { dst_x as i64 };
    let top: i64 = if dst_y < 0 { 0 } else { dst_y as i64 };
    if left >= right || top >= bottom {
        assert forall|p: int| 0 <= p < dst_w * dst_h implies #[trigger] bytes_int(pixel(dst@, p)) == target(p) by {
            lemma_coords(p, w);
            assert(p / w < h) by (nonlinear_arith)
                requires
                    0 <= p < w * h,
                    w > 0,
            ;
        }
        return;
    }
    assert(w > 0);
    let ghost n = w * h;
    // Pixels before row `top`, column `left` are untouched and uncovered.
    assert forall|p: int| 0 <= p < n implies #[trigger] bytes_int(pixel(dst@, p))
        == if p < top * w + left { target(p) } else { bytes_int(pixel(orig, p)) } by {
        lemma_coords(p, w);
        lemma_row_major_lt(p, w, top as int, left as int);
    }
    let mut y: i64 = top;
    while y < bottom
        invariant
            w == dst_w as int,
            h == dst_h as int,
            n == w * h,
            w > 0,
            0 <= top <= y <= bottom <= h,
            0 <= left < right <= w,
            right == if dst_x + mask_w > w { w } else { dst_x + mask_w },
            bottom == if dst_y + mask_h > h { h } else { dst_y + mask_h },
            left == if dst_x < 0 { 0 } else { dst_x as int },
            top == if dst_y < 0 { 0 } else { dst_y as int },
            dst@.len() == n * 4,
            dlen == dst@.len(),
            mlen == mask@.len(),
            orig.len() == n * 4,
            mask@.len() == mask_w * mask_h * 4,
            all_premultiplied(orig, n),
            all_premultiplied(mask@, mask_w * mask_h),
            target == (|p: int| blit_pixel(orig, w, mask@, mask_w as int, mask_h as int, dst_x as int, dst_y as int, paint_rgba@, p)),
            forall|p: int| 0 <= p < n ==> #[trigger] bytes_int(pixel(dst@, p))
                == if p < y * w + left { target(p) } else { bytes_int(pixel(orig, p)) },
        decreases bottom - y,
    {
        let mut x: i64 = left;
        while x < right
            invariant
                w == dst_w as int,
                h == dst_h as int,
                n == w * h,
                w > 0,
                0 <= top <= y < bottom <= h,
                0 <= left <= x <= right <= w,
                right == if dst_x + mask_w > w { w } else { dst_x + mask_w },
                bottom == if dst_y + mask_h > h { h } else { dst_y + mask_h },
                left == if dst_x < 0 { 0 } else { dst_x as int },
                top == if dst_y < 0 { 0 } else { dst_y as int },
                dst@.len() == n * 4,
                dlen == dst@.len(),
                mlen == mask@.len(),
                orig.len() == n * 4,
                mask@.len() == mask_w * mask_h * 4,
                all_premultiplied(orig, n),
                all_premultiplied(mask@, mask_w * mask_h),
                target == (|p: int| blit_pixel(orig, w, mask@, mask_w as int, mask_h as int, dst_x as int, dst_y as int, paint_rgba@, p)),
                forall|p: int| 0 <= p < n ==> #[trigger] bytes_int(pixel(dst@, p))
                    == if p < y * w + x { target(p) } else { bytes_int(pixel(orig, p)) },
            decreases right - x,
        {
            let src_x: i64 = x - dst_x as i64;
            let src_y: i64 = y - dst_y as i64;
            let ghost di_g = y * w + x;
            let ghost si_g = src_y * (mask_w as int) + src_x;
            proof {
                lemma_index_bound(x as int, y as int, w, h);
                lemma_index_bound(src_x as int, src_y as int, mask_w as int, mask_h as int);
                lemma_index_coords(x as int, y as int, w);
                assert(0 <= src_y * (mask_w as int) <= si_g) by (nonlinear_arith)
                    requires
                        src_y >= 0,
                        src_x >= 0,
                        si_g == src_y * (mask_w as int) + src_x,
                ;
                assert(0 <= y * w <= di_g) by (nonlinear_arith)
                    requires
                        y >= 0,
                        x >= 0,
                        w >= 0,
                        di_g == y * w + x,
                ;
            }
            let si: usize = (src_y as usize) * (mask_w as usize) + (src_x as usize);
            let sb: usize = 4 * si;
            let src_px: [u8; 4] = [mask[sb], mask[sb + 1], mask[sb + 2], mask[sb + 3]];
            assert(src_px@ =~= pixel(mask@, si as int));
            let di: usize = (y as usize) * (dst_w as usize) + (x as usize);
            let ghost before = dst@;
            if src_px[3] != 0 {
                let db: usize = 4 * di;
                let dst_px: [u8; 4] = [dst[db], dst[db + 1], dst[db + 2], dst[db + 3]];
                assert(dst_px@ =~= pixel(dst@, di as int));
                assert(pixel(dst@, di as int) == pixel(orig, di as int)) by {
                    lemma_row_major_lt(di as int, w, y as int, x as int);
                    assert(bytes_int(pixel(dst@, di as int)) == bytes_int(pixel(orig, di as int)));
                    assert(pixel(dst@, di as int) =~= pixel(orig, di as int)) by {
                        assert forall|k: int| 0 <= k < 4 implies pixel(dst@, di as int)[k] == pixel(orig, di as int)[k] by {
                            assert(bytes_int(pixel(dst@, di as int))[k] == bytes_int(pixel(orig, di as int))[k]);
                        }
                    }
                }
                let out = blend_mask_over(src_px, dst_px, paint_rgba);
                dst.set(db, out[0]);
                dst.set(db + 1, out[1]);
                dst.set(db + 2, out[2]);
                dst.set(db + 3, out[3]);
                assert(pixel(dst@, di as int) =~= out@);
                assert forall|p: int| 0 <= p < n && p != di implies pixel(dst@, p) == pixel(before, p) by {
                    assert(pixel(dst@, p) =~= pixel(before, p));
                }
            }
            assert forall|p: int| 0 <= p < n implies #[trigger] bytes_int(pixel(dst@, p))
                == if p < y * w + x + 1 { target(p) } else { bytes_int(pixel(orig, p)) } by {
                lemma_coords(p, w);
                if p != di {
                    lemma_row_major_lt(p, w, y as int, x as int);
                    lemma_row_major_lt(p, w, y as int, x + 1);
                    if src_px[3] != 0 {
                        assert(pixel(dst@, p) == pixel(before, p));
                    }
                }
            }
            x = x + 1;
        }
        proof {
            assert forall|p: int| 0 <= p < n implies #[trigger] bytes_int(pixel(dst@, p))
                == if p < (y + 1) * w + left { target(p) } else { bytes_int(pixel(orig, p)) } by {
                lemma_coords(p, w);
                lemma_row_major_lt(p, w, y as int, right as int);
                lemma_row_major_lt(p, w, y + 1, left as int);
            }
        }
        y = y + 1;
    }
    proof {
        assert forall|p: int| 0 <= p < dst_w * dst_h implies #[trigger] bytes_int(pixel(dst@, p)) == target(p) by {
            lemma_coords(p, w);
            lemma_row_major_lt(p, w, bottom as int, left as int);
            assert(p / w < h) by (nonlinear_arith)
                requires
                    0 <= p < w * h,
                    w > 0,
            ;
        }
    }
}

/// Whether a `mask_w` x `mask_h` mask at `(dst_x, dst_y)` lies entirely
/// inside a `width` x `height` image (so no clipping is needed).
pub fn glyph_mask_fully_inside(width: u32, height: u32, dst_x: i32, dst_y: i32, mask_w: u32, mask_h: u32) -> (r: bool)
    ensures
        r == (dst_x >= 0 && dst_y >= 0 && dst_x + mask_w <= width && dst_y + mask_h <= height),
{
    let x = dst_x as i64;
    let y = dst_y as i64;
    x >= 0 && y >= 0 && x + mask_w as i64 <= width as i64 && y + mask_h as i64 <= height as i64
}

// ---------------------------------------------------------------------------
// Embedded bitmap strikes
// ---------------------------------------------------------------------------

/// RGBA bytes of a premultiplied BGRA32 strike: each pixel's blue and red
/// bytes swapped.
pub open spec fn bgra_to_rgba_spec(data: Seq<u8>) -> Seq<u8> {
    Seq::new(data.len(), |k: int| {
        let base = k - k % 4;
        if k % 4 == 0 {
            data[base + 2]
        } else if k % 4 == 2 {
            data[base]
        } else {
            data[k]
        }
    })
}

/// The RGBA bytes of a `width` x `height` premultiplied BGRA32 strike;
/// `None` when the data does not hold exactly that many pixels.
pub fn bgra32_to_rgba(data: &[u8], width: u16, height: u16) -> (r: Option<Vec<u8>>)
    ensures
        data@.len() == 4 * width * height ==> (r matches Some(v) && v@ == bgra_to_rgba_spec(data@)),
        data@.len() != 4 * width * height ==> r is None,
{
    assert((width as int) * (height as int) <= 65535 * 65535) by (nonlinear_arith)
        requires
            width <= 65535,
            height <= 65535,
    ;
    let wh: u64 = (width as u64) * (height as u64);
    let expected: u64 = 4 * wh;
    assert(4 * width * height == expected) by (nonlinear_arith)
        requires
            expected == 4 * wh,
            wh == width * height,
    ;
    if data.len() as u64 != expected {
        return None;
    }
    let n = data.len();
    assert(n % 4 == 0 && n == 4 * width * height) by (nonlinear_arith)
        requires
            n == 4 * wh,
            wh == width * height,
    ;
    let mut v: Vec<u8> = Vec::new();
    let mut k: usize = 0;
    while n - k >= 4
        invariant
            n == data@.len(),
            n % 4 == 0,
            k % 4 == 0,
            k <= n,
            v@ == bgra_to_rgba_spec(data@).subrange(0, k as int),
        decreases n - k,
    {
        let b = data[k];
        let g = data[k + 1];
        let r = data[k + 2];
        let a = data[k + 3];
        v.push(r);
        v.push(g);
        v.push(b);
        v.push(a);
        assert(v@ =~= bgra_to_rgba_spec(data@).subrange(0, k + 4)) by {
            assert forall|j: int| k <= j < k + 4 implies #[trigger] bgra_to_rgba_spec(data@)[j] == v@[j] by {
                assert(j - j % 4 == k) by (nonlinear_arith)
                    requires
                        k % 4 == 0,
                        k <= j < k + 4,
                ;
            }
        }
        k = k + 4;
    }
    assert(v@ =~= bgra_to_rgba_spec(data@));
    Some(v)
}

/// Opaque RGBA bytes of a grey strike: each grey byte `g` becomes `g g g 255`.
pub open spec fn gray_to_rgba_spec(data: Seq<u8>) -> Seq<u8> {
    Seq::new(4 * data.len(), |k: int| if k % 4 == 3 { 255u8 } else { data[k / 4] })
}

pub fn gray8_to_rgba(data: &[u8]) -> (r: Vec<u8>)
    requires
        4 * data@.len() <= usize::MAX,
    ensures
        r@ == gray_to_rgba_spec(data@),
{
    let mut v: Vec<u8> = Vec::new();
    let mut i: usize = 0;
    while i < data.len()
        invariant
            i <= data@.len(),
            4 * data@.len() <= usize::MAX,
            v@ == gray_to_rgba_spec(data@).subrange(0, 4 * i as int),
        decreases data@.len() - i,
    {
        let g = data[i];
        v.push(g);
        v.push(g);
        v.push(g);
        v.push(255);
        assert(v@ =~= gray_to_rgba_spec(data@).subrange(0, 4 * (i + 1) as int)) by {
            assert forall|j: int| 4 * i <= j < 4 * i + 4 implies #[trigger] gray_to_rgba_spec(data@)[j] == v@[j] by {
                assert(j / 4 == i && j % 4 == j - 4 * i) by (nonlinear_arith)
                    requires
                        4 * i <= j < 4 * i + 4,
                ;
            }
        }
        i = i + 1;
    }
    assert(v@ =~= gray_to_rgba_spec(data@));
    v
}

/// The PNG file the `png` encoder writes for straight RGBA8 pixels of a
/// `width` x `height` image with fast compression and the `Sub` filter.
pub uninterp spec fn png_rgba8(data: Seq<u8>, width: u32, height: u32) -> Seq<u8>;

/// Whether that encoder accepts the image: both sides non-zero and four
/// bytes per pixel.
pub open spec fn png_rgba8_accepts(data: Seq<u8>, width: u32, height: u32) -> bool {
    width > 0 && height > 0 && data.len() == 4 * (width as int) * (height as int)
}

/// An image size whose byte count the encoder computes without overflow.
pub open spec fn png_size_fits(width: u32, height: u32) -> bool {
    4 * (width as int) * (height as int) + 1 <= usize::MAX
}

/// `png::Encoder` writing one RGBA8 image (header, then `write_image_data`)
/// into a byte vector with fast compression and the `Sub` filter. The header
/// is refused for a zero width or height, and the image data unless it holds
/// `4 * width * height` bytes (a product the encoder computes unchecked,
/// hence the bound); writing into a vector cannot fail otherwise. Its output
/// depends on the pixels and the size alone; the text of its error is not
/// described.
#[verifier::external_body]
fn png_encode_rgba8(data: &[u8], width: u32, height: u32) -> (r: Result<Vec<u8>, String>)
    requires
        png_size_fits(width, height),
    ensures
        r is Ok <==> png_rgba8_accepts(data@, width, height),
        r matches Ok(bytes) ==> bytes@ == png_rgba8(data@, width, height),
{
    let mut out = Vec::new();
    {
        let mut encoder = png::Encoder::new(&mut out, width, height);
        encoder.set_color(png::ColorType::Rgba);
        encoder.set_depth(png::BitDepth::Eight);
        encoder.set_compression(png::Compression::Fast);
        encoder.set_filter(png::Filter::Sub);
        let mut writer = encoder.write_header().map_err(|e| e.to_string())?;
        writer.write_image_data(data).map_err(|e| e.to_string())?;
    }
    Ok(out)
}

/// Encode straight (not premultiplied) RGBA8 pixels as a PNG file; an
/// encoder error is reported as `PNG encode error: ...`.
pub fn encode_png_rgba8(straight_rgba: &[u8], width: u32, height: u32) -> (r: Result<Vec<u8>, String>)
    requires
        png_size_fits(width, height),
    ensures
        r is Ok <==> png_rgba8_accepts(straight_rgba@, width, height),
        r matches Ok(bytes) ==> bytes@ == png_rgba8(straight_rgba@, width, height),
        r matches Err(m) ==> "PNG encode error: "@.is_prefix_of(m@),
{
    match png_encode_rgba8(straight_rgba, width, height) {
        Ok(bytes) => Ok(bytes),
        Err(e) => {
            let mut m = String::new();
            m.append("PNG encode error: ");
            m.append(e.as_str());
            proof {
                reveal_strlit("PNG encode error: ");
                assert("PNG encode error: "@.is_prefix_of(m@)) by {
                    assert(m@.subrange(0, "PNG encode error: "@.len() as int) =~= "PNG encode error: "@);
                }
            }
            Err(m)
        },
    }
}

} // verus!
