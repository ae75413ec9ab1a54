//! The compositing engine and rasterizer: clipped blits (opaque and
//! source-over alpha-blended, whole-source and sub-rectangle), single-pixel
//! plotting, Bresenham lines, rectangle outlines and fills, triangle
//! outlines, and the glyph-tinting step of text rendering.
//!
//! Contracts speak of 32-bit pixel words: `pixel_word(buffer, width, x, y)`
//! is the packed word of the pixel at column `x` of row `y`. Out-of-bounds
//! draw coordinates and empty clipped regions are silent no-ops, never
//! errors.
use vstd::prelude::*;

use vstd::math::abs;

use crate::resource::{img_wf, lemma_put_word, pixel_count, word_at, ImageResource};
use crate::types::{pack_rgba, word_a, word_b, word_g, word_r, Color, Rect, Vec2};

verus! {

/// The packed word of the pixel at column `x` of row `y` in a row-major
/// buffer of row width `w`.
pub open spec fn pixel_word(s: Seq<u8>, w: int, x: int, y: int) -> u32 {
    word_at(s, y * w + x)
}

/// Row-major pixel coordinates within an extent map to indexes below the
/// pixel count, and injectively.
proof fn lemma_pix_index(w: int, h: int, x: int, y: int)
    by (nonlinear_arith)
    requires
        0 <= x < w,
        0 <= y < h,
    ensures
        0 <= y * w + x < w * h,
{
}

/// Two in-range coordinate pairs with the same row-major index are equal.
proof fn lemma_pix_unique(w: int, x1: int, y1: int, x2: int, y2: int)
    by (nonlinear_arith)
    requires
        0 <= x1 < w,
        0 <= x2 < w,
        y1 * w + x1 == y2 * w + x2,
    ensures
        x1 == x2,
        y1 == y2,
{
}

/// Whether destination coordinate `(x, y)` lies under a source footprint
/// of extent `rw` by `rh` placed with its top-left corner at `(px, py)`.
pub open spec fn in_blit_region(px: int, py: int, rw: int, rh: int, x: int, y: int) -> bool {
    px <= x < px + rw && py <= y < py + rh
}

/// What every blit in this module does to the destination: each pixel
/// under the placed source footprint takes the matching source pixel —
/// blended over the destination when `blend` is set, copied verbatim
/// otherwise — and every pixel outside it keeps its word. The footprint is
/// the `rw` by `rh` sub-rectangle of the source anchored at `(rx, ry)`,
/// placed at `(px, py)`; clipping to the destination bounds is the
/// quantifier's range.
pub open spec fn region_copied(
    sp: Seq<u8>,
    sw: int,
    rx: int,
    ry: int,
    rw: int,
    rh: int,
    old_dp: Seq<u8>,
    new_dp: Seq<u8>,
    dw: int,
    dh: int,
    px: int,
    py: int,
    blend: bool,
) -> bool {
    forall|x: int, y: int|
        0 <= x < dw && 0 <= y < dh ==> #[trigger] pixel_word(new_dp, dw, x, y) == (
        if in_blit_region(px, py, rw, rh, x, y) {
            let s = pixel_word(sp, sw, x - px + rx, y - py + ry);
            if blend {
                blend_words(s, pixel_word(old_dp, dw, x, y))
            } else {
                s
            }
        } else {
            pixel_word(old_dp, dw, x, y)
        })
}

/// Copies or blends the `rw` by `rh` sub-rectangle of the source anchored
/// at `(rx, ry)` into the destination at `position`, clipped against the
/// destination bounds. The clip bounds are computed once per axis; the
/// pixel loops then run without per-pixel range checks.
#[verifier::loop_isolation(false)]
fn copy_region<S: ImageResource, D: ImageResource>(
    src: &S,
    rx: u32,
    ry: u32,
    rw: u32,
    rh: u32,
    dst: &mut D,
    position: Vec2,
    blend: bool,
)
    requires
        img_wf(src),
        img_wf(old(dst)),
        rx + rw <= src.spec_width(),
        ry + rh <= src.spec_height(),
    ensures
        img_wf(final(dst)),
        final(dst).spec_width() == old(dst).spec_width(),
        final(dst).spec_height() == old(dst).spec_height(),
        final(dst).pixels().len() == old(dst).pixels().len(),
        region_copied(
            src.pixels(),
            src.spec_width() as int,
            rx as int,
            ry as int,
            rw as int,
            rh as int,
            old(dst).pixels(),
            final(dst).pixels(),
            old(dst).spec_width() as int,
            old(dst).spec_height() as int,
            position.x as int,
            position.y as int,
            blend,
        ),
{
    let src_width = src.width();
    let dst_width = dst.width();
    let dst_height = dst.height();
    let px = position.x;
    let py = position.y;
    let ghost swi = src.spec_width() as int;
    let ghost dwi = old(dst).spec_width() as int;
    let ghost dhi = old(dst).spec_height() as int;
    let ghost pxi = px as int;
    let ghost pyi = py as int;

    let min_x: i64 = if 0 < -(px as i64) {
        -(px as i64)
    } else {
        0
    };
    let min_y: i64 = if 0 < -(py as i64) {
        -(py as i64)
    } else {
        0
    };
    let mut max_x: i64 = (dst_width as i64) - (px as i64);
    if (rw as i64) < max_x {
        max_x = rw as i64;
    }
    let mut max_y: i64 = (dst_height as i64) - (py as i64);
    if (rh as i64) < max_y {
        max_y = rh as i64;
    }
    if min_x >= max_x || min_y >= max_y {
        return ;
    }
    let mut y: i64 = min_y;
    while y < max_y
        invariant
            min_y <= y <= max_y,
            dst.spec_width() == old(dst).spec_width(),
            dst.spec_height() == old(dst).spec_height(),
            dst.pixels().len() == old(dst).pixels().len(),
            forall|x2: int, y2: int|
                0 <= x2 < dwi && 0 <= y2 < dhi ==> #[trigger] pixel_word(dst.pixels(), dwi, x2, y2)
                    == (if in_blit_region(pxi, pyi, rw as int, rh as int, x2, y2) && y2 - pyi < y {
                    let s = pixel_word(src.pixels(), swi, x2 - pxi + rx, y2 - pyi + ry);
                    if blend {
                        blend_words(s, pixel_word(old(dst).pixels(), dwi, x2, y2))
                    } else {
                        s
                    }
                } else {
                    pixel_word(old(dst).pixels(), dwi, x2, y2)
                }),
        decreases max_y - y,
    {
        let mut x: i64 = min_x;
        while x < max_x
            invariant
                min_y <= y < max_y,
                min_x <= x <= max_x,
                dst.spec_width() == old(dst).spec_width(),
                dst.spec_height() == old(dst).spec_height(),
                dst.pixels().len() == old(dst).pixels().len(),
                forall|x2: int, y2: int|
                    0 <= x2 < dwi && 0 <= y2 < dhi ==> #[trigger] pixel_word(
                        dst.pixels(),
                        dwi,
                        x2,
                        y2,
                    ) == (if in_blit_region(pxi, pyi, rw as int, rh as int, x2, y2) && (y2 - pyi < y
                        || (y2 - pyi == y && x2 - pxi < x)) {
                        let s = pixel_word(src.pixels(), swi, x2 - pxi + rx, y2 - pyi + ry);
                        if blend {
                            blend_words(s, pixel_word(old(dst).pixels(), dwi, x2, y2))
                        } else {
                            s
                        }
                    } else {
                        pixel_word(old(dst).pixels(), dwi, x2, y2)
                    }),
            decreases max_x - x,
        {
            proof {
                lemma_pix_index(
                    swi,
                    src.spec_height() as int,
                    x + rx as int,
                    y + ry as int,
                );
                lemma_pix_index(dwi, dhi, x + pxi, y + pyi);
                assert(4 * ((y + ry as int) * swi + (x + rx as int)) < src.pixels().len());
                assert(4 * ((y + pyi) * dwi + (x + pxi)) < dst.pixels().len());
            }
            let src_index: usize = ((y + ry as i64) * (src_width as i64) + (x + rx as i64))
                as usize;
            let dst_index: usize = ((y + py as i64) * (dst_width as i64) + (x + px as i64))
                as usize;
            let ghost prev = dst.pixels();
            let s = src.get_pixel(src_index);
            let out = if blend {
                blend_alpha(s, dst.get_pixel(dst_index))
            } else {
                s
            };
            dst.set_pixel(dst_index, out);
            proof {
                assert forall|x2: int, y2: int| 0 <= x2 < dwi && 0 <= y2 < dhi implies #[trigger]
                pixel_word(dst.pixels(), dwi, x2, y2) == (if in_blit_region(
                    pxi,
                    pyi,
                    rw as int,
                    rh as int,
                    x2,
                    y2,
                ) && (y2 - pyi < y || (y2 - pyi == y && x2 - pxi < x + 1)) {
                    let sv = pixel_word(src.pixels(), swi, x2 - pxi + rx, y2 - pyi + ry);
                    if blend {
                        blend_words(sv, pixel_word(old(dst).pixels(), dwi, x2, y2))
                    } else {
                        sv
                    }
                } else {
                    pixel_word(old(dst).pixels(), dwi, x2, y2)
                }) by {
                    lemma_pix_index(dwi, dhi, x2, y2);
                    lemma_put_word(prev, dst_index as int, out, y2 * dwi + x2);
                    if y2 * dwi + x2 == dst_index {
                        lemma_pix_unique(dwi, x2, y2, x + pxi, y + pyi);
                        assert(in_blit_region(pxi, pyi, rw as int, rh as int, x2, y2));
                        assert(pixel_word(prev, dwi, x2, y2) == pixel_word(
                            old(dst).pixels(),
                            dwi,
                            x2,
                            y2,
                        ));
                        assert(s == pixel_word(src.pixels(), swi, x2 - pxi + rx, y2 - pyi + ry));
                        assert(pixel_word(dst.pixels(), dwi, x2, y2) == out);
                    } else {
                        assert(pixel_word(dst.pixels(), dwi, x2, y2) == pixel_word(
                            prev,
                            dwi,
                            x2,
                            y2,
                        ));
                    }
                }
            }
            x = x + 1;
        }
        y = y + 1;
    }
}

/// Copies the whole source into the destination at `position` as an
/// opaque block copy, clipped against the destination bounds. An empty
/// clipped region is a no-op, never an error.
pub fn blit<S: ImageResource, D: ImageResource>(src: &S, dst: &mut D, position: Vec2)
    requires
        img_wf(src),
        img_wf(old(dst)),
    ensures
        img_wf(final(dst)),
        final(dst).spec_width() == old(dst).spec_width(),
        final(dst).spec_height() == old(dst).spec_height(),
        final(dst).pixels().len() == old(dst).pixels().len(),
        region_copied(
            src.pixels(),
            src.spec_width() as int,
            0,
            0,
            src.spec_width() as int,
            src.spec_height() as int,
            old(dst).pixels(),
            final(dst).pixels(),
            old(dst).spec_width() as int,
            old(dst).spec_height() as int,
            position.x as int,
            position.y as int,
            false,
        ),
{
    let src_width = src.width();
    let src_height = src.height();
    copy_region(src, 0, 0, src_width, src_height, dst, position, false);
}

/// Composites the whole source over the destination at `position` with
/// source-over alpha blending, clipped against the destination bounds.
pub fn blit_with_alpha<S: ImageResource, D: ImageResource>(src: &S, dst: &mut D, position: Vec2)
    requires
        img_wf(src),
        img_wf(old(dst)),
    ensures
        img_wf(final(dst)),
        final(dst).spec_width() == old(dst).spec_width(),
        final(dst).spec_height() == old(dst).spec_height(),
        final(dst).pixels().len() == old(dst).pixels().len(),
        region_copied(
            src.pixels(),
            src.spec_width() as int,
            0,
            0,
            src.spec_width() as int,
            src.spec_height() as int,
            old(dst).pixels(),
            final(dst).pixels(),
            old(dst).spec_width() as int,
            old(dst).spec_height() as int,
            position.x as int,
            position.y as int,
            true,
        ),
{
    let src_width = src.width();
    let src_height = src.height();
    copy_region(src, 0, 0, src_width, src_height, dst, position, true);
}

/// Copies only the sub-rectangle `src_rect` of the source into the
/// destination at `position`. If the rectangle's right or bottom edge
/// exceeds the source's bounds the call is a silent no-op rather than a
/// read out of bounds, whatever the rectangle's anchor; a rectangle that
/// is copied must be anchored at a non-negative corner.
pub fn blit_rect<S: ImageResource, D: ImageResource>(
    src: &S,
    src_rect: Rect,
    dst: &mut D,
    position: Vec2,
)
    requires
        img_wf(src),
        img_wf(old(dst)),
        src_rect.spec_right() <= src.spec_width() && src_rect.spec_bottom() <= src.spec_height()
            ==> src_rect.top_left.x >= 0 && src_rect.top_left.y >= 0,
    ensures
        img_wf(final(dst)),
        final(dst).spec_width() == old(dst).spec_width(),
        final(dst).spec_height() == old(dst).spec_height(),
        final(dst).pixels().len() == old(dst).pixels().len(),
        src_rect.spec_right() > src.spec_width() || src_rect.spec_bottom() > src.spec_height()
            ==> final(dst).pixels() == old(dst).pixels(),
        src_rect.spec_right() <= src.spec_width() && src_rect.spec_bottom() <= src.spec_height()
            ==> region_copied(
            src.pixels(),
            src.spec_width() as int,
            src_rect.top_left.x as int,
            src_rect.top_left.y as int,
            src_rect.width as int,
            src_rect.height as int,
            old(dst).pixels(),
            final(dst).pixels(),
            old(dst).spec_width() as int,
            old(dst).spec_height() as int,
            position.x as int,
            position.y as int,
            false,
        ),
{
    let src_width = src.width();
    let src_height = src.height();
    if (src_rect.top_left.x as i64) + (src_rect.width as i64) > (src_width as i64) || (
    src_rect.top_left.y as i64) + (src_rect.height as i64) > (src_height as i64) {
        return ;
    }
    copy_region(
        src,
        src_rect.top_left.x as u32,
        src_rect.top_left.y as u32,
        src_rect.width,
        src_rect.height,
        dst,
        position,
        false,
    );
}

/// The alpha-blended variant of `blit_rect`: composites the sub-rectangle
/// over the destination, with the same silent no-op on an oversized
/// rectangle.
pub fn blit_rect_with_alpha<S: ImageResource, D: ImageResource>(
    src: &S,
    src_rect: Rect,
    dst: &mut D,
    position: Vec2,
)
    requires
        img_wf(src),
        img_wf(old(dst)),
        src_rect.spec_right() <= src.spec_width() && src_rect.spec_bottom() <= src.spec_height()
            ==> src_rect.top_left.x >= 0 && src_rect.top_left.y >= 0,
    ensures
        img_wf(final(dst)),
        final(dst).spec_width() == old(dst).spec_width(),
        final(dst).spec_height() == old(dst).spec_height(),
        final(dst).pixels().len() == old(dst).pixels().len(),
        src_rect.spec_right() > src.spec_width() || src_rect.spec_bottom() > src.spec_height()
            ==> final(dst).pixels() == old(dst).pixels(),
        src_rect.spec_right() <= src.spec_width() && src_rect.spec_bottom() <= src.spec_height()
            ==> region_copied(
            src.pixels(),
            src.spec_width() as int,
            src_rect.top_left.x as int,
            src_rect.top_left.y as int,
            src_rect.width as int,
            src_rect.height as int,
            old(dst).pixels(),
            final(dst).pixels(),
            old(dst).spec_width() as int,
            old(dst).spec_height() as int,
            position.x as int,
            position.y as int,
            true,
        ),
{
    let src_width = src.width();
    let src_height = src.height();
    if (src_rect.top_left.x as i64) + (src_rect.width as i64) > (src_width as i64) || (
    src_rect.top_left.y as i64) + (src_rect.height as i64) > (src_height as i64) {
        return ;
    }
    copy_region(
        src,
        src_rect.top_left.x as u32,
        src_rect.top_left.y as u32,
        src_rect.width,
        src_rect.height,
        dst,
        position,
        true,
    );
}

/// Writes the color's pixel word at `(x, y)` if that lies within the
/// destination's bounds; out-of-bounds coordinates are discarded silently.
pub fn plot<D: ImageResource>(x: i32, y: i32, dst: &mut D, color: Color)
    requires
        img_wf(old(dst)),
    ensures
        img_wf(final(dst)),
        final(dst).spec_width() == old(dst).spec_width(),
        final(dst).spec_height() == old(dst).spec_height(),
        final(dst).pixels().len() == old(dst).pixels().len(),
        forall|x2: int, y2: int|
            0 <= x2 < old(dst).spec_width() && 0 <= y2 < old(dst).spec_height()
                ==> #[trigger] pixel_word(final(dst).pixels(), old(dst).spec_width() as int, x2, y2)
                == (if x2 == x && y2 == y {
                pack_rgba(color.r, color.g, color.b, color.a)
            } else {
                pixel_word(old(dst).pixels(), old(dst).spec_width() as int, x2, y2)
            }),
{
    let dst_width = dst.width();
    let dst_height = dst.height();
    if x < 0 || y < 0 || (x as i64) >= (dst_width as i64) || (y as i64) >= (dst_height as i64) {
        return ;
    }
    let ghost dw = dst_width as int;
    let ghost dp0 = dst.pixels();
    proof {
        lemma_pix_index(dw, dst_height as int, x as int, y as int);
        assert((y as int) * dw + (x as int) < pixel_count(old(dst)));
        assert(old(dst).pixels().len() <= usize::MAX);
    }
    let index: usize = (y as usize) * (dst_width as usize) + (x as usize);
    let word = u32::from(color);
    dst.set_pixel(index, word);
    proof {
        assert forall|x2: int, y2: int|
            0 <= x2 < old(dst).spec_width() && 0 <= y2 < old(dst).spec_height() implies #[trigger]
        pixel_word(final(dst).pixels(), dw, x2, y2) == (if x2 == x && y2 == y {
            pack_rgba(color.r, color.g, color.b, color.a)
        } else {
            pixel_word(dp0, dw, x2, y2)
        }) by {
            lemma_pix_index(dw, old(dst).spec_height() as int, x2, y2);
            lemma_put_word(dp0, index as int, word, y2 * dw + x2);
            if y2 * dw + x2 == index {
                lemma_pix_unique(dw, x2, y2, x as int, y as int);
            }
        }
    }
}

/// Writes the color's pixel word at `(x, y)`, which the caller must have
/// established to lie within the destination's bounds.
pub fn plot_unchecked<D: ImageResource>(x: u32, y: u32, dst: &mut D, color: Color)
    requires
        img_wf(old(dst)),
        x < old(dst).spec_width(),
        y < old(dst).spec_height(),
    ensures
        img_wf(final(dst)),
        final(dst).spec_width() == old(dst).spec_width(),
        final(dst).spec_height() == old(dst).spec_height(),
        final(dst).pixels().len() == old(dst).pixels().len(),
        forall|x2: int, y2: int|
            0 <= x2 < old(dst).spec_width() && 0 <= y2 < old(dst).spec_height()
                ==> #[trigger] pixel_word(final(dst).pixels(), old(dst).spec_width() as int, x2, y2)
                == (if x2 == x && y2 == y {
                pack_rgba(color.r, color.g, color.b, color.a)
            } else {
                pixel_word(old(dst).pixels(), old(dst).spec_width() as int, x2, y2)
            }),
{
    let dst_width = dst.width();
    let ghost dw = dst_width as int;
    let ghost dp0 = dst.pixels();
    proof {
        lemma_pix_index(dw, old(dst).spec_height() as int, x as int, y as int);
        assert((y as int) * dw + (x as int) < pixel_count(old(dst)));
        assert(old(dst).pixels().len() <= usize::MAX);
    }
    let index: usize = (y as usize) * (dst_width as usize) + (x as usize);
    let word = u32::from(color);
    dst.set_pixel(index, word);
    proof {
        assert forall|x2: int, y2: int|
            0 <= x2 < old(dst).spec_width() && 0 <= y2 < old(dst).spec_height() implies #[trigger]
        pixel_word(final(dst).pixels(), dw, x2, y2) == (if x2 == x && y2 == y {
            pack_rgba(color.r, color.g, color.b, color.a)
        } else {
            pixel_word(dp0, dw, x2, y2)
        }) by {
            lemma_pix_index(dw, old(dst).spec_height() as int, x2, y2);
            lemma_put_word(dp0, index as int, word, y2 * dw + x2);
            if y2 * dw + x2 == index {
                lemma_pix_unique(dw, x2, y2, x as int, y as int);
            }
        }
    }
}

/// Whether `(x, y)` lies on the vertical stroke of `len` pixels running
/// down from `p`.
pub open spec fn on_vertical(p: Vec2, len: int, x: int, y: int) -> bool {
    x == p.x && p.y <= y < p.y + len
}

/// Whether `(x, y)` lies on the horizontal stroke of `len` pixels running
/// right from `p`.
pub open spec fn on_horizontal(p: Vec2, len: int, x: int, y: int) -> bool {
    y == p.y && p.x <= x < p.x + len
}

/// Whether `(x, y)` lies on the four-edge outline of `r`: the left and
/// right columns and the top and bottom rows. The right column sits at
/// `x == r.right` and the bottom row at `y == r.bottom`.
pub open spec fn on_rect_outline(r: Rect, x: int, y: int) -> bool {
    ||| (x == r.top_left.x && r.top_left.y <= y < r.spec_bottom())
    ||| (y == r.spec_bottom() && r.top_left.x <= x < r.spec_right())
    ||| (x == r.spec_right() && r.top_left.y <= y < r.spec_bottom())
    ||| (y == r.top_left.y && r.top_left.x <= x < r.spec_right())
}

/// Whether `(x, y)` lies in the filled block of `r`: `r.height` rows of
/// `r.width` pixels from the top-left anchor.
pub open spec fn in_rect_fill(r: Rect, x: int, y: int) -> bool {
    r.top_left.x <= x < r.spec_right() && r.top_left.y <= y < r.spec_bottom()
}

/// Draws a vertical stroke of `length` pixels down from `p1`, discarding
/// the parts that fall outside the destination.
#[verifier::loop_isolation(false)]
pub fn draw_vertical<D: ImageResource>(p1: Vec2, length: u32, dst: &mut D, color: Color)
    requires
        img_wf(old(dst)),
        p1.y + length <= i32::MAX,
    ensures
        img_wf(final(dst)),
        final(dst).spec_width() == old(dst).spec_width(),
        final(dst).spec_height() == old(dst).spec_height(),
        final(dst).pixels().len() == old(dst).pixels().len(),
        forall|x2: int, y2: int|
            0 <= x2 < old(dst).spec_width() && 0 <= y2 < old(dst).spec_height()
                ==> #[trigger] pixel_word(final(dst).pixels(), old(dst).spec_width() as int, x2, y2)
                == (if on_vertical(p1, length as int, x2, y2) {
                pack_rgba(color.r, color.g, color.b, color.a)
            } else {
                pixel_word(old(dst).pixels(), old(dst).spec_width() as int, x2, y2)
            }),
{
    let ghost dwi = old(dst).spec_width() as int;
    let ghost dhi = old(dst).spec_height() as int;
    let end: i32 = ((p1.y as i64) + (length as i64)) as i32;
    let mut y: i32 = p1.y;
    while y < end
        invariant
            p1.y <= y <= end,
            dst.spec_width() == old(dst).spec_width(),
            dst.spec_height() == old(dst).spec_height(),
            dst.pixels().len() == old(dst).pixels().len(),
            forall|x2: int, y2: int|
                0 <= x2 < dwi && 0 <= y2 < dhi ==> #[trigger] pixel_word(dst.pixels(), dwi, x2, y2)
                    == (if x2 == p1.x && p1.y <= y2 < y {
                    pack_rgba(color.r, color.g, color.b, color.a)
                } else {
                    pixel_word(old(dst).pixels(), dwi, x2, y2)
                }),
        decreases end - y,
    {
        plot(p1.x, y, dst, color);
        y = y + 1;
    }
}

/// Draws a horizontal stroke of `length` pixels right from `p1`,
/// discarding the parts that fall outside the destination.
#[verifier::loop_isolation(false)]
pub fn draw_horizontal<D: ImageResource>(p1: Vec2, length: u32, dst: &mut D, color: Color)
    requires
        img_wf(old(dst)),
        p1.x + length <= i32::MAX,
    ensures
        img_wf(final(dst)),
        final(dst).spec_width() == old(dst).spec_width(),
        final(dst).spec_height() == old(dst).spec_height(),
        final(dst).pixels().len() == old(dst).pixels().len(),
        forall|x2: int, y2: int|
            0 <= x2 < old(dst).spec_width() && 0 <= y2 < old(dst).spec_height()
                ==> #[trigger] pixel_word(final(dst).pixels(), old(dst).spec_width() as int, x2, y2)
                == (if on_horizontal(p1, length as int, x2, y2) {
                pack_rgba(color.r, color.g, color.b, color.a)
            } else {
                pixel_word(old(dst).pixels(), old(dst).spec_width() as int, x2, y2)
            }),
{
    let ghost dwi = old(dst).spec_width() as int;
    let ghost dhi = old(dst).spec_height() as int;
    let end: i32 = ((p1.x as i64) + (length as i64)) as i32;
    let mut x: i32 = p1.x;
    while x < end
        invariant
            p1.x <= x <= end,
            dst.spec_width() == old(dst).spec_width(),
            dst.spec_height() == old(dst).spec_height(),
            dst.pixels().len() == old(dst).pixels().len(),
            forall|x2: int, y2: int|
                0 <= x2 < dwi && 0 <= y2 < dhi ==> #[trigger] pixel_word(dst.pixels(), dwi, x2, y2)
                    == (if y2 == p1.y && p1.x <= x2 < x {
                    pack_rgba(color.r, color.g, color.b, color.a)
                } else {
                    pixel_word(old(dst).pixels(), dwi, x2, y2)
                }),
        decreases end - x,
    {
        plot(x, p1.y, dst, color);
        x = x + 1;
    }
}

/// Draws a vertical stroke wholly inside the destination, which the
/// caller must have established.
#[verifier::loop_isolation(false)]
pub fn draw_vertical_unchecked<D: ImageResource>(p1: Vec2, length: u32, dst: &mut D, color: Color)
    requires
        img_wf(old(dst)),
        0 <= p1.x < old(dst).spec_width(),
        0 <= p1.y,
        p1.y + length <= old(dst).spec_height(),
        p1.y + length <= i32::MAX,
    ensures
        img_wf(final(dst)),
        final(dst).spec_width() == old(dst).spec_width(),
        final(dst).spec_height() == old(dst).spec_height(),
        final(dst).pixels().len() == old(dst).pixels().len(),
        forall|x2: int, y2: int|
            0 <= x2 < old(dst).spec_width() && 0 <= y2 < old(dst).spec_height()
                ==> #[trigger] pixel_word(final(dst).pixels(), old(dst).spec_width() as int, x2, y2)
                == (if on_vertical(p1, length as int, x2, y2) {
                pack_rgba(color.r, color.g, color.b, color.a)
            } else {
                pixel_word(old(dst).pixels(), old(dst).spec_width() as int, x2, y2)
            }),
{
    let ghost dwi = old(dst).spec_width() as int;
    let ghost dhi = old(dst).spec_height() as int;
    let end: i32 = ((p1.y as i64) + (length as i64)) as i32;
    let mut y: i32 = p1.y;
    while y < end
        invariant
            p1.y <= y <= end,
            dst.spec_width() == old(dst).spec_width(),
            dst.spec_height() == old(dst).spec_height(),
            dst.pixels().len() == old(dst).pixels().len(),
            forall|x2: int, y2: int|
                0 <= x2 < dwi && 0 <= y2 < dhi ==> #[trigger] pixel_word(dst.pixels(), dwi, x2, y2)
                    == (if x2 == p1.x && p1.y <= y2 < y {
                    pack_rgba(color.r, color.g, color.b, color.a)
                } else {
                    pixel_word(old(dst).pixels(), dwi, x2, y2)
                }),
        decreases end - y,
    {
        plot_unchecked(p1.x as u32, y as u32, dst, color);
        y = y + 1;
    }
}

/// Draws a horizontal stroke wholly inside the destination, which the
/// caller must have established.
#[verifier::loop_isolation(false)]
pub fn draw_horizontal_unchecked<D: ImageResource>(
    p1: Vec2,
    length: u32,
    dst: &mut D,
    color: Color,
)
    requires
        img_wf(old(dst)),
        0 <= p1.y < old(dst).spec_height(),
        0 <= p1.x,
        p1.x + length <= old(dst).spec_width(),
        p1.x + length <= i32::MAX,
    ensures
        img_wf(final(dst)),
        final(dst).spec_width() == old(dst).spec_width(),
        final(dst).spec_height() == old(dst).spec_height(),
        final(dst).pixels().len() == old(dst).pixels().len(),
        forall|x2: int, y2: int|
            0 <= x2 < old(dst).spec_width() && 0 <= y2 < old(dst).spec_height()
                ==> #[trigger] pixel_word(final(dst).pixels(), old(dst).spec_width() as int, x2, y2)
                == (if on_horizontal(p1, length as int, x2, y2) {
                pack_rgba(color.r, color.g, color.b, color.a)
            } else {
                pixel_word(old(dst).pixels(), old(dst).spec_width() as int, x2, y2)
            }),
{
    let ghost dwi = old(dst).spec_width() as int;
    let ghost dhi = old(dst).spec_height() as int;
    let end: i32 = ((p1.x as i64) + (length as i64)) as i32;
    let mut x: i32 = p1.x;
    while x < end
        invariant
            p1.x <= x <= end,
            dst.spec_width() == old(dst).spec_width(),
            dst.spec_height() == old(dst).spec_height(),
            dst.pixels().len() == old(dst).pixels().len(),
            forall|x2: int, y2: int|
                0 <= x2 < dwi && 0 <= y2 < dhi ==> #[trigger] pixel_word(dst.pixels(), dwi, x2, y2)
                    == (if y2 == p1.y && p1.x <= x2 < x {
                    pack_rgba(color.r, color.g, color.b, color.a)
                } else {
                    pixel_word(old(dst).pixels(), dwi, x2, y2)
                }),
        decreases end - x,
    {
        plot_unchecked(x as u32, p1.y as u32, dst, color);
        x = x + 1;
    }
}

/// Draws the four-edge outline of `rect` via two vertical and two
/// horizontal strokes, each exactly the edge's length, discarding
/// out-of-bounds parts.
pub fn draw_rectangle<D: ImageResource>(rect: Rect, dst: &mut D, color: Color)
    requires
        img_wf(old(dst)),
        rect.spec_right() <= i32::MAX,
        rect.spec_bottom() <= i32::MAX,
    ensures
        img_wf(final(dst)),
        final(dst).spec_width() == old(dst).spec_width(),
        final(dst).spec_height() == old(dst).spec_height(),
        final(dst).pixels().len() == old(dst).pixels().len(),
        forall|x2: int, y2: int|
            0 <= x2 < old(dst).spec_width() && 0 <= y2 < old(dst).spec_height()
                ==> #[trigger] pixel_word(final(dst).pixels(), old(dst).spec_width() as int, x2, y2)
                == (if on_rect_outline(rect, x2, y2) {
                pack_rgba(color.r, color.g, color.b, color.a)
            } else {
                pixel_word(old(dst).pixels(), old(dst).spec_width() as int, x2, y2)
            }),
{
    let height = rect.height;
    let width = rect.width;
    draw_vertical(rect.top_left, height, dst, color);
    draw_horizontal(rect.bottom_left(), width, dst, color);
    draw_vertical(rect.top_right(), height, dst, color);
    draw_horizontal(rect.top_left, width, dst, color);
}

/// Draws the four-edge outline of a rectangle that lies wholly inside
/// the destination, which the caller must have established.
pub fn draw_rectangle_unchecked<D: ImageResource>(rect: Rect, dst: &mut D, color: Color)
    requires
        img_wf(old(dst)),
        0 <= rect.top_left.x,
        0 <= rect.top_left.y,
        rect.spec_right() < old(dst).spec_width(),
        rect.spec_bottom() < old(dst).spec_height(),
        rect.spec_right() <= i32::MAX,
        rect.spec_bottom() <= i32::MAX,
    ensures
        img_wf(final(dst)),
        final(dst).spec_width() == old(dst).spec_width(),
        final(dst).spec_height() == old(dst).spec_height(),
        final(dst).pixels().len() == old(dst).pixels().len(),
        forall|x2: int, y2: int|
            0 <= x2 < old(dst).spec_width() && 0 <= y2 < old(dst).spec_height()
                ==> #[trigger] pixel_word(final(dst).pixels(), old(dst).spec_width() as int, x2, y2)
                == (if on_rect_outline(rect, x2, y2) {
                pack_rgba(color.r, color.g, color.b, color.a)
            } else {
                pixel_word(old(dst).pixels(), old(dst).spec_width() as int, x2, y2)
            }),
{
    let height = rect.height;
    let width = rect.width;
    draw_vertical_unchecked(rect.top_left, height, dst, color);
    draw_horizontal_unchecked(rect.bottom_left(), width, dst, color);
    draw_vertical_unchecked(rect.top_right(), height, dst, color);
    draw_horizontal_unchecked(rect.top_left, width, dst, color);
}

/// Fills `rect` with one horizontal stroke per row, discarding
/// out-of-bounds parts.
#[verifier::loop_isolation(false)]
pub fn fill_rectangle<D: ImageResource>(rect: Rect, dst: &mut D, color: Color)
    requires
        img_wf(old(dst)),
        rect.spec_right() <= i32::MAX,
        rect.spec_bottom() <= i32::MAX,
    ensures
        img_wf(final(dst)),
        final(dst).spec_width() == old(dst).spec_width(),
        final(dst).spec_height() == old(dst).spec_height(),
        final(dst).pixels().len() == old(dst).pixels().len(),
        forall|x2: int, y2: int|
            0 <= x2 < old(dst).spec_width() && 0 <= y2 < old(dst).spec_height()
                ==> #[trigger] pixel_word(final(dst).pixels(), old(dst).spec_width() as int, x2, y2)
                == (if in_rect_fill(rect, x2, y2) {
                pack_rgba(color.r, color.g, color.b, color.a)
            } else {
                pixel_word(old(dst).pixels(), old(dst).spec_width() as int, x2, y2)
            }),
{
    let ghost dwi = old(dst).spec_width() as int;
    let ghost dhi = old(dst).spec_height() as int;
    let bottom: i32 = ((rect.top_left.y as i64) + (rect.height as i64)) as i32;
    let mut y: i32 = rect.top_left.y;
    while y < bottom
        invariant
            rect.top_left.y <= y <= bottom,
            dst.spec_width() == old(dst).spec_width(),
            dst.spec_height() == old(dst).spec_height(),
            dst.pixels().len() == old(dst).pixels().len(),
            forall|x2: int, y2: int|
                0 <= x2 < dwi && 0 <= y2 < dhi ==> #[trigger] pixel_word(dst.pixels(), dwi, x2, y2)
                    == (if in_rect_fill(rect, x2, y2) && y2 < y {
                    pack_rgba(color.r, color.g, color.b, color.a)
                } else {
                    pixel_word(old(dst).pixels(), dwi, x2, y2)
                }),
        decreases bottom - y,
    {
        draw_horizontal(Vec2 { x: rect.top_left.x, y }, rect.width, dst, color);
        y = y + 1;
    }
}

/// Fills a rectangle that lies wholly inside the destination, which the
/// caller must have established.
#[verifier::loop_isolation(false)]
pub fn fill_rectangle_unchecked<D: ImageResource>(rect: Rect, dst: &mut D, color: Color)
    requires
        img_wf(old(dst)),
        0 <= rect.top_left.x,
        0 <= rect.top_left.y,
        rect.spec_right() <= old(dst).spec_width(),
        rect.spec_bottom() <= old(dst).spec_height(),
        rect.spec_right() <= i32::MAX,
        rect.spec_bottom() <= i32::MAX,
    ensures
        img_wf(final(dst)),
        final(dst).spec_width() == old(dst).spec_width(),
        final(dst).spec_height() == old(dst).spec_height(),
        final(dst).pixels().len() == old(dst).pixels().len(),
        forall|x2: int, y2: int|
            0 <= x2 < old(dst).spec_width() && 0 <= y2 < old(dst).spec_height()
                ==> #[trigger] pixel_word(final(dst).pixels(), old(dst).spec_width() as int, x2, y2)
                == (if in_rect_fill(rect, x2, y2) {
                pack_rgba(color.r, color.g, color.b, color.a)
            } else {
                pixel_word(old(dst).pixels(), old(dst).spec_width() as int, x2, y2)
            }),
{
    let ghost dwi = old(dst).spec_width() as int;
    let ghost dhi = old(dst).spec_height() as int;
    let bottom: i32 = ((rect.top_left.y as i64) + (rect.height as i64)) as i32;
    let mut y: i32 = rect.top_left.y;
    while y < bottom
        invariant
            rect.top_left.y <= y <= bottom,
            dst.spec_width() == old(dst).spec_width(),
            dst.spec_height() == old(dst).spec_height(),
            dst.pixels().len() == old(dst).pixels().len(),
            forall|x2: int, y2: int|
                0 <= x2 < dwi && 0 <= y2 < dhi ==> #[trigger] pixel_word(dst.pixels(), dwi, x2, y2)
                    == (if in_rect_fill(rect, x2, y2) && y2 < y {
                    pack_rgba(color.r, color.g, color.b, color.a)
                } else {
                    pixel_word(old(dst).pixels(), dwi, x2, y2)
                }),
        decreases bottom - y,
    {
        draw_horizontal_unchecked(Vec2 { x: rect.top_left.x, y }, rect.width, dst, color);
        y = y + 1;
    }
}

/// Whether `a` comes no later than `b` in left-to-right, then
/// top-to-bottom order. The line tracer walks from the earlier endpoint,
/// so a traced line is a function of the unordered endpoint pair.
pub open spec fn lex_le(a: Vec2, b: Vec2) -> bool {
    a.x < b.x || (a.x == b.x && a.y <= b.y)
}

/// The direction sign the line tracer uses for one axis.
pub open spec fn step_sign(from: int, to: int) -> int {
    if from < to {
        1
    } else {
        -1
    }
}

/// The state the Bresenham tracer keeps valid while it runs: the
/// per-axis distances have the fixed signs, and each step sign points
/// from the current position toward the endpoint on its axis.
pub open spec fn bres_state_ok(
    cx: int,
    cy: int,
    ex: int,
    ey: int,
    dx: int,
    dy: int,
    sx: int,
    sy: int,
) -> bool {
    &&& dx >= 0
    &&& dy <= 0
    &&& (sx == 1 || sx == -1)
    &&& (sy == 1 || sy == -1)
    &&& (cx != ex ==> (sx == 1 <==> cx < ex))
    &&& (cy != ey ==> (sy == 1 <==> cy < ey))
}

/// The pixels the integer Bresenham tracer visits from `(cx, cy)` to
/// `(ex, ey)`, carrying the fixed per-axis distances `dx >= 0` and
/// `dy <= 0`, the step signs, and the running error term. Each step
/// visits the current pixel, then moves horizontally when twice the
/// error is at least `dy` and vertically when it is at most `dx`,
/// stopping at the endpoint or when an axis that must move is exhausted.
pub open spec fn bres_steps(
    cx: int,
    cy: int,
    ex: int,
    ey: int,
    dx: int,
    dy: int,
    sx: int,
    sy: int,
    err: int,
) -> Set<(int, int)>
    decreases abs(ex - cx) + abs(ey - cy),
        when bres_state_ok(cx, cy, ex, ey, dx, dy, sx, sy)
{
    if cx == ex && cy == ey {
        Set::empty().insert((cx, cy))
    } else {
        let e2 = 2 * err;
        if e2 >= dy && cx == ex {
            Set::empty().insert((cx, cy))
        } else {
            let cx1 = if e2 >= dy {
                cx + sx
            } else {
                cx
            };
            let err1 = if e2 >= dy {
                err + dy
            } else {
                err
            };
            if e2 <= dx && cy == ey {
                Set::empty().insert((cx, cy))
            } else {
                let cy1 = if e2 <= dx {
                    cy + sy
                } else {
                    cy
                };
                let err2 = if e2 <= dx {
                    err1 + dx
                } else {
                    err1
                };
                bres_steps(cx1, cy1, ex, ey, dx, dy, sx, sy, err2).insert((cx, cy))
            }
        }
    }
}

/// The pixels of the Bresenham line traced from `(x0, y0)` to
/// `(x1, y1)`, endpoints included.
pub open spec fn bres_points(x0: int, y0: int, x1: int, y1: int) -> Set<(int, int)> {
    bres_steps(
        x0,
        y0,
        x1,
        y1,
        abs(x1 - x0) as int,
        -(abs(y1 - y0) as int),
        step_sign(x0, x1),
        step_sign(y0, y1),
        abs(x1 - x0) - abs(y1 - y0),
    )
}

/// The set of pixels `draw_line` plots for the endpoints `a` and `b`:
/// the Bresenham trace from the lexicographically earlier endpoint. The
/// set depends only on the unordered endpoint pair.
pub open spec fn line_points(a: Vec2, b: Vec2) -> Set<(int, int)> {
    if lex_le(a, b) {
        bres_points(a.x as int, a.y as int, b.x as int, b.y as int)
    } else {
        bres_points(b.x as int, b.y as int, a.x as int, a.y as int)
    }
}

/// Swapping the endpoints of a line leaves the plotted pixel set
/// unchanged: `draw_line(a, b)` and `draw_line(b, a)` paint the same
/// pixels.
pub proof fn lemma_line_symmetry(a: Vec2, b: Vec2)
    ensures
        line_points(a, b) == line_points(b, a),
{
}

/// Traces the integer Bresenham line from `start` to `end`, endpoints
/// included, plotting each visited pixel that lies inside the
/// destination's bounds.
pub fn draw_line<D: ImageResource>(start: Vec2, end: Vec2, dst: &mut D, color: Color)
    requires
        img_wf(old(dst)),
    ensures
        img_wf(final(dst)),
        final(dst).spec_width() == old(dst).spec_width(),
        final(dst).spec_height() == old(dst).spec_height(),
        final(dst).pixels().len() == old(dst).pixels().len(),
        forall|x2: int, y2: int|
            0 <= x2 < old(dst).spec_width() && 0 <= y2 < old(dst).spec_height()
                ==> #[trigger] pixel_word(final(dst).pixels(), old(dst).spec_width() as int, x2, y2)
                == (if line_points(start, end).contains((x2, y2)) {
                pack_rgba(color.r, color.g, color.b, color.a)
            } else {
                pixel_word(old(dst).pixels(), old(dst).spec_width() as int, x2, y2)
            }),
{
    let ghost dwi = old(dst).spec_width() as int;
    let ghost dhi = old(dst).spec_height() as int;
    let ghost dp0 = old(dst).pixels();
    let ghost cw = pack_rgba(color.r, color.g, color.b, color.a);
    let swap = end.x < start.x || (end.x == start.x && end.y < start.y);
    let x0: i32 = if swap {
        end.x
    } else {
        start.x
    };
    let y0: i32 = if swap {
        end.y
    } else {
        start.y
    };
    let x1: i32 = if swap {
        start.x
    } else {
        end.x
    };
    let y1: i32 = if swap {
        start.y
    } else {
        end.y
    };
    let raw_dx: i64 = (x1 as i64) - (x0 as i64);
    let distance_x: i64 = if raw_dx < 0 {
        -raw_dx
    } else {
        raw_dx
    };
    let slope_x: i64 = if x0 < x1 {
        1
    } else {
        -1
    };
    let raw_dy: i64 = (y1 as i64) - (y0 as i64);
    let distance_y: i64 = if raw_dy < 0 {
        raw_dy
    } else {
        -raw_dy
    };
    let slope_y: i64 = if y0 < y1 {
        1
    } else {
        -1
    };
    let mut error: i64 = distance_x + distance_y;
    let mut cur_x: i64 = x0 as i64;
    let mut cur_y: i64 = y0 as i64;
    let ghost total = line_points(start, end);
    let ghost mut painted: Set<(int, int)> = Set::empty();
    proof {
        assert(total == bres_steps(
            x0 as int,
            y0 as int,
            x1 as int,
            y1 as int,
            distance_x as int,
            distance_y as int,
            slope_x as int,
            slope_y as int,
            error as int,
        ));
        assert(total =~= painted.union(
            bres_steps(
                cur_x as int,
                cur_y as int,
                x1 as int,
                y1 as int,
                distance_x as int,
                distance_y as int,
                slope_x as int,
                slope_y as int,
                error as int,
            ),
        ));
    }
    loop
        invariant_except_break
            img_wf(old(dst)),
            dwi == old(dst).spec_width() as int,
            dhi == old(dst).spec_height() as int,
            dp0 == old(dst).pixels(),
            cw == pack_rgba(color.r, color.g, color.b, color.a),
            x0 as int <= cur_x <= x1 as int,
            y0 <= y1 ==> y0 as int <= cur_y <= y1 as int,
            y1 <= y0 ==> y1 as int <= cur_y <= y0 as int,
            0 <= distance_x <= 0x1_0000_0000,
            -0x1_0000_0000 <= distance_y <= 0,
            2 * distance_y <= error <= 2 * distance_x,
            cur_x != x1 as i64 ==> (slope_x == 1 <==> cur_x < x1 as i64),
            cur_y != y1 as i64 ==> (slope_y == 1 <==> cur_y < y1 as i64),
            slope_x == 1 || slope_x == -1,
            slope_y == 1 || slope_y == -1,
            dst.spec_width() == old(dst).spec_width(),
            dst.spec_height() == old(dst).spec_height(),
            dst.pixels().len() == old(dst).pixels().len(),
            total == painted.union(
                bres_steps(
                    cur_x as int,
                    cur_y as int,
                    x1 as int,
                    y1 as int,
                    distance_x as int,
                    distance_y as int,
                    slope_x as int,
                    slope_y as int,
                    error as int,
                ),
            ),
            forall|x2: int, y2: int|
                0 <= x2 < dwi && 0 <= y2 < dhi ==> #[trigger] pixel_word(dst.pixels(), dwi, x2, y2)
                    == (if painted.contains((x2, y2)) {
                    cw
                } else {
                    pixel_word(dp0, dwi, x2, y2)
                }),
        ensures
            dst.spec_width() == old(dst).spec_width(),
            dst.spec_height() == old(dst).spec_height(),
            dst.pixels().len() == old(dst).pixels().len(),
            forall|x2: int, y2: int|
                0 <= x2 < dwi && 0 <= y2 < dhi ==> #[trigger] pixel_word(dst.pixels(), dwi, x2, y2)
                    == (if total.contains((x2, y2)) {
                    cw
                } else {
                    pixel_word(dp0, dwi, x2, y2)
                }),
        decreases abs(x1 as int - cur_x) + abs(y1 as int - cur_y),
    {
        let ghost state_set = bres_steps(
            cur_x as int,
            cur_y as int,
            x1 as int,
            y1 as int,
            distance_x as int,
            distance_y as int,
            slope_x as int,
            slope_y as int,
            error as int,
        );
        plot(cur_x as i32, cur_y as i32, dst, color);
        proof {
            painted = painted.insert((cur_x as int, cur_y as int));
        }
        if cur_x == (x1 as i64) && cur_y == (y1 as i64) {
            proof {
                assert(state_set == Set::empty().insert((cur_x as int, cur_y as int)));
                assert(total =~= painted.union(Set::<(int, int)>::empty()));
            }
            break ;
        }
        let error_2: i64 = 2 * error;
        let ghost mid_x = cur_x as int;
        let ghost mid_y = cur_y as int;
        if error_2 >= distance_y {
            if cur_x == (x1 as i64) {
                proof {
                    assert(state_set == Set::empty().insert((mid_x, mid_y)));
                    assert(total =~= painted.union(Set::<(int, int)>::empty()));
                }
                break ;
            }
            error = error + distance_y;
            cur_x = cur_x + slope_x;
        }
        if error_2 <= distance_x {
            if cur_y == (y1 as i64) {
                proof {
                    assert(state_set == Set::empty().insert((mid_x, mid_y)));
                    assert(total =~= painted.union(Set::<(int, int)>::empty()));
                }
                break ;
            }
            error = error + distance_x;
            cur_y = cur_y + slope_y;
        }
        proof {
            assert(state_set == bres_steps(
                cur_x as int,
                cur_y as int,
                x1 as int,
                y1 as int,
                distance_x as int,
                distance_y as int,
                slope_x as int,
                slope_y as int,
                error as int,
            ).insert((mid_x, mid_y)));
            assert(total =~= painted.union(
                bres_steps(
                    cur_x as int,
                    cur_y as int,
                    x1 as int,
                    y1 as int,
                    distance_x as int,
                    distance_y as int,
                    slope_x as int,
                    slope_y as int,
                    error as int,
                ),
            ));
        }
    }
}

/// Draws the closed triangle outline through the three points: the three
/// Bresenham lines joining them in order.
pub fn draw_triangle<D: ImageResource>(p1: Vec2, p2: Vec2, p3: Vec2, dst: &mut D, color: Color)
    requires
        img_wf(old(dst)),
    ensures
        img_wf(final(dst)),
        final(dst).spec_width() == old(dst).spec_width(),
        final(dst).spec_height() == old(dst).spec_height(),
        final(dst).pixels().len() == old(dst).pixels().len(),
        forall|x2: int, y2: int|
            0 <= x2 < old(dst).spec_width() && 0 <= y2 < old(dst).spec_height()
                ==> #[trigger] pixel_word(final(dst).pixels(), old(dst).spec_width() as int, x2, y2)
                == (if line_points(p1, p2).contains((x2, y2)) || line_points(p2, p3).contains(
                (x2, y2),
            ) || line_points(p3, p1).contains((x2, y2)) {
                pack_rgba(color.r, color.g, color.b, color.a)
            } else {
                pixel_word(old(dst).pixels(), old(dst).spec_width() as int, x2, y2)
            }),
{
    draw_line(p1, p2, dst, color);
    draw_line(p2, p3, dst, color);
    draw_line(p3, p1, dst, color);
}

/// One channel of source-over compositing in integer fixed-point math:
/// the source contribution weighted by the source alpha plus the
/// destination contribution weighted by its own alpha and the remaining
/// transparency, each division flooring.
pub open spec fn blend_channel(sc: u8, dc: u8, sa: u8, da: u8) -> u8 {
    ((sc * sa) / 255 + (dc * da * (255 - sa)) / 65025) as u8
}

/// The alpha channel of source-over compositing: the source alpha plus
/// what the destination alpha keeps of the remaining transparency.
pub open spec fn blend_alpha_channel(sa: u8, da: u8) -> u8 {
    (sa + (da * (255 - sa)) / 255) as u8
}

/// Source-over compositing of two packed pixel words, channel by channel.
pub open spec fn blend_words(s: u32, d: u32) -> u32 {
    pack_rgba(
        blend_channel(word_r(s), word_r(d), word_a(s), word_a(d)),
        blend_channel(word_g(s), word_g(d), word_a(s), word_a(d)),
        blend_channel(word_b(s), word_b(d), word_a(s), word_a(d)),
        blend_alpha_channel(word_a(s), word_a(d)),
    )
}

/// Each blended channel fits a byte: the source part is at most the
/// source alpha and the destination part at most the remaining
/// transparency.
proof fn lemma_blend_channel_bounds(sc: u8, dc: u8, sa: u8, da: u8)
    by (nonlinear_arith)
    ensures
        sc * sa <= 65025,
        dc * da <= 65025,
        dc * da * (255 - sa) <= 16581375,
        da * (255 - sa) <= 65025,
        (sc * sa) / 255 + (dc * da * (255 - sa)) / 65025 <= 255,
        sa + (da * (255 - sa)) / 255 <= 255,
{
    assert((sc * sa) / 255 <= sa);
    assert(dc * da * (255 - sa) <= 255 * 255 * (255 - sa));
    assert((dc * da * (255 - sa)) / 65025 <= (255 - sa));
    assert(da * (255 - sa) <= 255 * (255 - sa));
}

/// Composites the source pixel word over the destination pixel word.
pub fn blend_alpha(src: u32, dst: u32) -> (out: u32)
    ensures
        out == blend_words(src, dst),
{
    let src_r = src & 0xff;
    let src_g = (src >> 8) & 0xff;
    let src_b = (src >> 16) & 0xff;
    let src_a = (src >> 24) & 0xff;

    let dst_r = dst & 0xff;
    let dst_g = (dst >> 8) & 0xff;
    let dst_b = (dst >> 16) & 0xff;
    let dst_a = (dst >> 24) & 0xff;

    proof {
        assert(src & 0xff == word_r(src) && (src >> 8) & 0xff == word_g(src) && (src >> 16) & 0xff
            == word_b(src) && (src >> 24) & 0xff == word_a(src) && dst & 0xff == word_r(dst) && (dst
            >> 8) & 0xff == word_g(dst) && (dst >> 16) & 0xff == word_b(dst) && (dst >> 24) & 0xff
            == word_a(dst)) by (bit_vector);
        lemma_blend_channel_bounds(word_r(src) as u8, word_r(dst) as u8, word_a(src) as u8, word_a(dst) as u8);
        lemma_blend_channel_bounds(word_g(src) as u8, word_g(dst) as u8, word_a(src) as u8, word_a(dst) as u8);
        lemma_blend_channel_bounds(word_b(src) as u8, word_b(dst) as u8, word_a(src) as u8, word_a(dst) as u8);
    }
    let r_out = (src_r * src_a) / 255 + (dst_r * dst_a * (255 - src_a)) / (255 * 255);
    let g_out = (src_g * src_a) / 255 + (dst_g * dst_a * (255 - src_a)) / (255 * 255);
    let b_out = (src_b * src_a) / 255 + (dst_b * dst_a * (255 - src_a)) / (255 * 255);
    let a_out = src_a + (dst_a * (255 - src_a)) / 255;

    let out = r_out | (g_out << 8) | (b_out << 16) | (a_out << 24);
    proof {
        crate::types::lemma_or_shift_pack(r_out, g_out, b_out, a_out);
        assert(r_out as u8 == blend_channel(word_r(src), word_r(dst), word_a(src), word_a(dst)));
        assert(g_out as u8 == blend_channel(word_g(src), word_g(dst), word_a(src), word_a(dst)));
        assert(b_out as u8 == blend_channel(word_b(src), word_b(dst), word_a(src), word_a(dst)));
        assert(a_out as u8 == blend_alpha_channel(word_a(src), word_a(dst)));
    }
    out
}

/// The tinted pixel word text rendering makes of a glyph coverage value:
/// the requested color's r, g, b channels with the coverage as alpha.
pub fn mask_to_u32(r: u8, g: u8, b: u8, mask: u8) -> (w: u32)
    ensures
        w == pack_rgba(r, g, b, mask),
{
    (r as u32) | ((g as u32) << 8) | ((b as u32) << 16) | ((mask as u32) << 24)
}


/// Blitting a source onto a destination with placement `(0, 0)` paints
/// the source block and leaves the remainder: when an `sw` by `sh`
/// source filled with the pixel word `wb` lands on a `dw` by `dh`
/// destination filled with `wa`, the top-left `sw` by `sh` block reads
/// `wb` and every other pixel reads `wa`.
pub proof fn lemma_blit_fills_block(
    sp: Seq<u8>,
    sw: int,
    sh: int,
    dp0: Seq<u8>,
    dp1: Seq<u8>,
    dw: int,
    dh: int,
    wa: u32,
    wb: u32,
)
    requires
        region_copied(sp, sw, 0, 0, sw, sh, dp0, dp1, dw, dh, 0, 0, false),
        0 <= sw <= dw,
        0 <= sh <= dh,
        forall|x: int, y: int| 0 <= x < sw && 0 <= y < sh ==> #[trigger] pixel_word(sp, sw, x, y) == wb,
        forall|x: int, y: int| 0 <= x < dw && 0 <= y < dh ==> #[trigger] pixel_word(dp0, dw, x, y) == wa,
    ensures
        forall|x: int, y: int|
            0 <= x < dw && 0 <= y < dh ==> #[trigger] pixel_word(dp1, dw, x, y) == (if x < sw && y
                < sh {
                wb
            } else {
                wa
            }),
{
}

/// Blitting the same buffers at placement `(-1, -1)` shifts the visible
/// copy up and left by one pixel and shrinks it by exactly one row and
/// one column against the placement at `(0, 0)`.
pub proof fn lemma_blit_negative_offset(
    sp: Seq<u8>,
    sw: int,
    sh: int,
    dp0: Seq<u8>,
    dp1: Seq<u8>,
    dw: int,
    dh: int,
    wa: u32,
    wb: u32,
)
    requires
        region_copied(sp, sw, 0, 0, sw, sh, dp0, dp1, dw, dh, -1, -1, false),
        0 <= sw <= dw,
        0 <= sh <= dh,
        forall|x: int, y: int| 0 <= x < sw && 0 <= y < sh ==> #[trigger] pixel_word(sp, sw, x, y) == wb,
        forall|x: int, y: int| 0 <= x < dw && 0 <= y < dh ==> #[trigger] pixel_word(dp0, dw, x, y) == wa,
    ensures
        forall|x: int, y: int|
            0 <= x < dw && 0 <= y < dh ==> #[trigger] pixel_word(dp1, dw, x, y) == (if x < sw - 1
                && y < sh - 1 {
                wb
            } else {
                wa
            }),
{
}

/// Placing an `sw` by `sh` source at `(dw - 1, dh - 1)` leaves exactly a
/// one-by-one overlap: the destination's bottom-right pixel takes the
/// source's top-left pixel, and every other pixel keeps its word.
pub proof fn lemma_blit_corner_overlap(
    sp: Seq<u8>,
    sw: int,
    sh: int,
    dp0: Seq<u8>,
    dp1: Seq<u8>,
    dw: int,
    dh: int,
)
    requires
        region_copied(sp, sw, 0, 0, sw, sh, dp0, dp1, dw, dh, dw - 1, dh - 1, false),
        1 <= sw,
        1 <= sh,
        1 <= dw,
        1 <= dh,
    ensures
        pixel_word(dp1, dw, dw - 1, dh - 1) == pixel_word(sp, sw, 0, 0),
        forall|x: int, y: int|
            0 <= x < dw && 0 <= y < dh && !(x == dw - 1 && y == dh - 1) ==> #[trigger] pixel_word(
                dp1,
                dw,
                x,
                y,
            ) == pixel_word(dp0, dw, x, y),
{
}

/// Compositing a fully opaque source pixel over any destination pixel
/// reproduces the source pixel exactly: no destination contribution.
pub proof fn lemma_blend_opaque_source(s: u32, d: u32)
    requires
        word_a(s) == 255,
    ensures
        blend_words(s, d) == s,
{
    crate::types::lemma_unpack_pack(s);
}

/// Compositing a fully transparent source pixel over a fully opaque
/// destination pixel leaves the destination pixel unchanged.
pub proof fn lemma_blend_transparent_source(s: u32, d: u32)
    requires
        word_a(s) == 0,
        word_a(d) == 255,
    ensures
        blend_words(s, d) == d,
{
    let r = word_r(d) as int;
    let g = word_g(d) as int;
    let b = word_b(d) as int;
    assert(r * 255 * 255 == 65025 * r && g * 255 * 255 == 65025 * g && b * 255 * 255 == 65025 * b)
        by (nonlinear_arith);
    vstd::arithmetic::div_mod::lemma_div_multiples_vanish(r, 65025);
    vstd::arithmetic::div_mod::lemma_div_multiples_vanish(g, 65025);
    vstd::arithmetic::div_mod::lemma_div_multiples_vanish(b, 65025);
    crate::types::lemma_unpack_pack(d);
}

/// An alpha blit of a source whose every pixel is fully opaque acts as
/// the opaque block copy of the same source.
pub proof fn lemma_alpha_blit_opaque_source(
    sp: Seq<u8>,
    sw: int,
    sh: int,
    dp0: Seq<u8>,
    dp1: Seq<u8>,
    dw: int,
    dh: int,
    px: int,
    py: int,
)
    requires
        region_copied(sp, sw, 0, 0, sw, sh, dp0, dp1, dw, dh, px, py, true),
        forall|x: int, y: int|
            0 <= x < sw && 0 <= y < sh ==> word_a(#[trigger] pixel_word(sp, sw, x, y)) == 255,
    ensures
        region_copied(sp, sw, 0, 0, sw, sh, dp0, dp1, dw, dh, px, py, false),
{
    assert forall|x: int, y: int| 0 <= x < dw && 0 <= y < dh implies #[trigger] pixel_word(
        dp1,
        dw,
        x,
        y,
    ) == (if in_blit_region(px, py, sw, sh, x, y) {
        pixel_word(sp, sw, x - px, y - py)
    } else {
        pixel_word(dp0, dw, x, y)
    }) by {
        if in_blit_region(px, py, sw, sh, x, y) {
            lemma_blend_opaque_source(pixel_word(sp, sw, x - px, y - py), pixel_word(dp0, dw, x, y));
        }
    }
}

/// An alpha blit of a source whose every pixel is fully transparent
/// leaves a fully opaque destination byte-for-byte unchanged at the
/// pixel-word level.
pub proof fn lemma_alpha_blit_transparent_source(
    sp: Seq<u8>,
    sw: int,
    sh: int,
    dp0: Seq<u8>,
    dp1: Seq<u8>,
    dw: int,
    dh: int,
    px: int,
    py: int,
)
    requires
        region_copied(sp, sw, 0, 0, sw, sh, dp0, dp1, dw, dh, px, py, true),
        forall|x: int, y: int|
            0 <= x < sw && 0 <= y < sh ==> word_a(#[trigger] pixel_word(sp, sw, x, y)) == 0,
        forall|x: int, y: int|
            0 <= x < dw && 0 <= y < dh ==> word_a(#[trigger] pixel_word(dp0, dw, x, y)) == 255,
    ensures
        forall|x: int, y: int|
            0 <= x < dw && 0 <= y < dh ==> #[trigger] pixel_word(dp1, dw, x, y) == pixel_word(
                dp0,
                dw,
                x,
                y,
            ),
{
    assert forall|x: int, y: int| 0 <= x < dw && 0 <= y < dh implies #[trigger] pixel_word(
        dp1,
        dw,
        x,
        y,
    ) == pixel_word(dp0, dw, x, y) by {
        if in_blit_region(px, py, sw, sh, x, y) {
            lemma_blend_transparent_source(
                pixel_word(sp, sw, x - px, y - py),
                pixel_word(dp0, dw, x, y),
            );
        }
    }
}

/// Builds the tinted glyph image text rendering composites: each
/// coverage value becomes one pixel holding the color's r, g, b channels
/// with the coverage as alpha. Any alpha component of `color` is
/// ignored, a documented limitation of text rendering.
#[verifier::loop_isolation(false)]
pub fn coverage_to_image(width: u32, height: u32, coverage: &[u8], color: Color) -> (img:
    crate::resource::Image)
    requires
        coverage@.len() == (width as int) * (height as int),
        4 * ((width as int) * (height as int)) <= usize::MAX,
    ensures
        img_wf(&img),
        img.spec_width() == width,
        img.spec_height() == height,
        forall|i: int|
            0 <= i < coverage@.len() ==> #[trigger] word_at(img.pixels(), i) == pack_rgba(
                color.r,
                color.g,
                color.b,
                coverage@[i],
            ),
{
    let n: usize = coverage.len();
    let mut buf: Vec<u8> = Vec::new();
    let mut i: usize = 0;
    while i < n
        invariant
            i <= n,
            buf@.len() == 4 * i,
            forall|j: int|
                0 <= j < i ==> #[trigger] word_at(buf@, j) == pack_rgba(
                    color.r,
                    color.g,
                    color.b,
                    coverage@[j],
                ),
        decreases n - i,
    {
        let ghost prev = buf@;
        let m = coverage[i];
        buf.push(color.r);
        buf.push(color.g);
        buf.push(color.b);
        buf.push(m);
        proof {
            assert forall|j: int| 0 <= j < i + 1 implies #[trigger] word_at(buf@, j) == pack_rgba(
                color.r,
                color.g,
                color.b,
                coverage@[j],
            ) by {
                if j < i {
                    assert(word_at(buf@, j) == word_at(prev, j));
                }
            }
        }
        i = i + 1;
    }
    crate::resource::Image::new(width, height, buf)
}

} // verus!
