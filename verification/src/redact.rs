//! Redaction of a face region on the live frame: either a fixed-color
//! outline drawn on the rectangle's border band, or a destructive smoothing
//! of the clamped region that replaces every pixel by the mean of its
//! kernel window.

use crate::config::OUTLINE_THICKNESS;
use crate::frame::{Frame, Pixel};
use crate::geometry::{clamp_to_bounds, spec_clamp, Rect};
use vstd::arithmetic::div_mod::{lemma_div_is_ordered, lemma_div_multiples_vanish};
use vstd::prelude::*;

verus! {

/// The fixed annotation color: pure red in BGR order.
pub open spec fn spec_outline_color() -> Pixel {
    Pixel { b: 0, g: 0, r: 255 }
}

/// Executable form of `spec_outline_color`.
pub fn outline_color() -> (p: Pixel)
    ensures
        p == spec_outline_color(),
{
    Pixel { b: 0, g: 0, r: 255 }
}

/// True when `(px, py)` lies inside rectangle `r`.
pub open spec fn spec_in_rect(r: Rect, px: int, py: int) -> bool {
    &&& r.x <= px < r.x + r.width
    &&& r.y <= py < r.y + r.height
}

/// True when `(px, py)` lies on the outline band of `r`: inside `r` but
/// outside the interior left after insetting every side by `t`.
pub open spec fn spec_on_outline(r: Rect, t: int, px: int, py: int) -> bool {
    &&& spec_in_rect(r, px, py)
    &&& !(r.x + t <= px < r.x + r.width - t && r.y + t <= py < r.y + r.height - t)
}

/// What outline drawing leaves at `(px, py)`: the annotation color on the
/// outline band of `rect`, elsewhere the old pixel.
pub open spec fn spec_outline_result_pixel(
    s: Seq<Pixel>,
    w: int,
    rect: Rect,
    px: int,
    py: int,
) -> Pixel {
    if spec_on_outline(rect, OUTLINE_THICKNESS as int, px, py) {
        spec_outline_color()
    } else {
        s[py * w + px]
    }
}

/// Draws the fixed-color outline of `rect` onto the frame.
///
/// Every frame pixel on the outline band of `rect` becomes the annotation
/// color; no pixel strictly outside the band changes. A degenerate
/// rectangle has an empty band, so the frame is left untouched.
#[verifier::loop_isolation(false)]
pub fn draw_outline(frame: &mut Frame, rect: Rect)
    requires
        old(frame).wf(),
    ensures
        final(frame).wf(),
        final(frame).width == old(frame).width,
        final(frame).height == old(frame).height,
        forall|px: int, py: int|
            old(frame).valid_coord(px, py) ==> final(frame).pixel(px, py)
                == spec_outline_result_pixel(old(frame).data@, old(frame).width as int, rect, px,
            py),
{
    if rect.width <= 0 || rect.height <= 0 {
        return ;
    }
    let w: i32 = frame.width;
    let h: i32 = frame.height;
    let color = outline_color();
    let y_start: i32 = if rect.y > 0 {
        rect.y
    } else {
        0
    };
    let ye64: i64 = rect.y as i64 + rect.height as i64;
    let y_end: i32 = if ye64 > h as i64 {
        h
    } else {
        ye64 as i32
    };
    let x_start: i32 = if rect.x > 0 {
        rect.x
    } else {
        0
    };
    let xe64: i64 = rect.x as i64 + rect.width as i64;
    let x_end: i32 = if xe64 > w as i64 {
        w
    } else {
        xe64 as i32
    };
    let mut py: i32 = y_start;
    while py < y_end
        invariant
            y_start <= py,
            frame.wf(),
            frame.width == w,
            frame.height == h,
            forall|qx: int, qy: int|
                old(frame).valid_coord(qx, qy) ==> frame.pixel(qx, qy) == (
                if spec_on_outline(rect, OUTLINE_THICKNESS as int, qx, qy) && qy < py {
                    spec_outline_color()
                } else {
                    old(frame).pixel(qx, qy)
                }),
        decreases y_end - py,
    {
        let mut px: i32 = x_start;
        while px < x_end
            invariant
                x_start <= px,
                y_start <= py < y_end,
                frame.wf(),
                frame.width == w,
                frame.height == h,
                forall|qx: int, qy: int|
                    old(frame).valid_coord(qx, qy) ==> frame.pixel(qx, qy) == (
                    if spec_on_outline(rect, OUTLINE_THICKNESS as int, qx, qy) && (qy < py || (qy
                        == py && qx < px)) {
                        spec_outline_color()
                    } else {
                        old(frame).pixel(qx, qy)
                    }),
            decreases x_end - px,
        {
            let t: i32 = OUTLINE_THICKNESS;
            let inner_x0: i64 = rect.x as i64 + t as i64;
            let inner_x1: i64 = rect.x as i64 + rect.width as i64 - t as i64;
            let inner_y0: i64 = rect.y as i64 + t as i64;
            let inner_y1: i64 = rect.y as i64 + rect.height as i64 - t as i64;
            let interior: bool = inner_x0 <= px as i64 && (px as i64) < inner_x1 && inner_y0
                <= py as i64 && (py as i64) < inner_y1;
            if !interior {
                frame.set(px, py, color);
            }
            px = px + 1;
        }
        py = py + 1;
    }
}

/// The `ch`-th channel of a pixel, in BGR order.
pub open spec fn spec_channel(p: Pixel, ch: int) -> int {
    if ch == 0 {
        p.b as int
    } else if ch == 1 {
        p.g as int
    } else {
        p.r as int
    }
}

/// Sum of channel `ch` over row `y`, columns `x0` (inclusive) to `x1`
/// (exclusive), of a `w`-wide row-major buffer.
pub open spec fn spec_row_sum(s: Seq<Pixel>, w: int, y: int, x0: int, x1: int, ch: int) -> int
    decreases x1 - x0,
{
    if x1 <= x0 {
        0
    } else {
        spec_row_sum(s, w, y, x0, x1 - 1, ch) + spec_channel(s[y * w + (x1 - 1)], ch)
    }
}

/// Sum of channel `ch` over the box `[x0, x1) x [y0, y1)`.
pub open spec fn spec_box_sum(
    s: Seq<Pixel>,
    w: int,
    x0: int,
    x1: int,
    y0: int,
    y1: int,
    ch: int,
) -> int
    decreases y1 - y0,
{
    if y1 <= y0 {
        0
    } else {
        spec_box_sum(s, w, x0, x1, y0, y1 - 1, ch) + spec_row_sum(s, w, y1 - 1, x0, x1, ch)
    }
}

/// A row sum of 8-bit samples lies between zero and 255 per column.
pub proof fn lemma_row_sum_bounds(s: Seq<Pixel>, w: int, y: int, x0: int, x1: int, ch: int)
    requires
        x0 <= x1,
    ensures
        0 <= spec_row_sum(s, w, y, x0, x1, ch) <= 255 * (x1 - x0),
    decreases x1 - x0,
{
    if x0 < x1 {
        lemma_row_sum_bounds(s, w, y, x0, x1 - 1, ch);
    }
}

/// A box sum of 8-bit samples lies between zero and 255 per cell.
pub proof fn lemma_box_sum_bounds(
    s: Seq<Pixel>,
    w: int,
    x0: int,
    x1: int,
    y0: int,
    y1: int,
    ch: int,
)
    requires
        x0 <= x1,
        y0 <= y1,
    ensures
        0 <= spec_box_sum(s, w, x0, x1, y0, y1, ch) <= 255 * ((x1 - x0) * (y1 - y0)),
    decreases y1 - y0,
{
    if y0 < y1 {
        lemma_box_sum_bounds(s, w, x0, x1, y0, y1 - 1, ch);
        lemma_row_sum_bounds(s, w, y1 - 1, x0, x1, ch);
        assert(255 * ((x1 - x0) * (y1 - 1 - y0)) + 255 * (x1 - x0) == 255 * ((x1 - x0) * (y1
            - y0))) by (nonlinear_arith);
    }
}

/// An owned copy of a pixel buffer, the snapshot that blur reads while it
/// mutates the live frame.
fn copy_pixels(v: &Vec<Pixel>) -> (c: Vec<Pixel>)
    ensures
        c@ == v@,
{
    let n: usize = v.len();
    let mut c: Vec<Pixel> = Vec::new();
    let mut i: usize = 0;
    while i < n
        invariant
            i <= n,
            n == v@.len(),
            c@.len() == i,
            forall|j: int| 0 <= j < i ==> c@[j] == v@[j],
        decreases n - i,
    {
        c.push(v[i]);
        i = i + 1;
    }
    proof {
        assert(c@ =~= v@);
    }
    c
}

/// Mean pixel of the box `[x0, x1) x [y0, y1)` of a `w`-wide buffer: each
/// channel becomes the integer mean of that channel over the box.
#[verifier::loop_isolation(false)]
fn window_mean(data: &Vec<Pixel>, w: i32, x0: i32, x1: i32, y0: i32, y1: i32) -> (p: Pixel)
    requires
        0 < w,
        0 <= x0 < x1,
        x1 <= w,
        0 <= y0 < y1,
        y1 * w <= data@.len(),
    ensures
        p.b as int == spec_box_sum(data@, w as int, x0 as int, x1 as int, y0 as int, y1 as int, 0)
            / ((x1 - x0) * (y1 - y0)),
        p.g as int == spec_box_sum(data@, w as int, x0 as int, x1 as int, y0 as int, y1 as int, 1)
            / ((x1 - x0) * (y1 - y0)),
        p.r as int == spec_box_sum(data@, w as int, x0 as int, x1 as int, y0 as int, y1 as int, 2)
            / ((x1 - x0) * (y1 - y0)),
{
    let _len: usize = data.len();
    let mut sum_b: u128 = 0;
    let mut sum_g: u128 = 0;
    let mut sum_r: u128 = 0;
    let mut y: i32 = y0;
    while y < y1
        invariant
            y0 <= y <= y1,
            sum_b == spec_box_sum(data@, w as int, x0 as int, x1 as int, y0 as int, y as int, 0),
            sum_g == spec_box_sum(data@, w as int, x0 as int, x1 as int, y0 as int, y as int, 1),
            sum_r == spec_box_sum(data@, w as int, x0 as int, x1 as int, y0 as int, y as int, 2),
        decreases y1 - y,
    {
        let mut x: i32 = x0;
        proof {
            lemma_box_sum_bounds(data@, w as int, x0 as int, x1 as int, y0 as int, y as int, 0);
            lemma_box_sum_bounds(data@, w as int, x0 as int, x1 as int, y0 as int, y as int, 1);
            lemma_box_sum_bounds(data@, w as int, x0 as int, x1 as int, y0 as int, y as int, 2);
        }
        while x < x1
            invariant
                x0 <= x <= x1,
                y0 <= y < y1,
                sum_b == spec_box_sum(data@, w as int, x0 as int, x1 as int, y0 as int, y as int, 0)
                    + spec_row_sum(data@, w as int, y as int, x0 as int, x as int, 0),
                sum_g == spec_box_sum(data@, w as int, x0 as int, x1 as int, y0 as int, y as int, 1)
                    + spec_row_sum(data@, w as int, y as int, x0 as int, x as int, 1),
                sum_r == spec_box_sum(data@, w as int, x0 as int, x1 as int, y0 as int, y as int, 2)
                    + spec_row_sum(data@, w as int, y as int, x0 as int, x as int, 2),
            decreases x1 - x,
        {
            proof {
                assert((x1 - x0) * (y - y0) <= y1 * w) by (nonlinear_arith)
                    requires
                        0 <= x0 <= x1 <= w,
                        0 <= y0 <= y <= y1,
                ;
                lemma_box_sum_bounds(data@, w as int, x0 as int, x1 as int, y0 as int, y as int, 0);
                lemma_box_sum_bounds(data@, w as int, x0 as int, x1 as int, y0 as int, y as int, 1);
                lemma_box_sum_bounds(data@, w as int, x0 as int, x1 as int, y0 as int, y as int, 2);
                lemma_row_sum_bounds(data@, w as int, y as int, x0 as int, x as int, 0);
                lemma_row_sum_bounds(data@, w as int, y as int, x0 as int, x as int, 1);
                lemma_row_sum_bounds(data@, w as int, y as int, x0 as int, x as int, 2);
                assert(y * w + x < y1 * w) by (nonlinear_arith)
                    requires
                        0 <= y0 <= y < y1,
                        0 <= x < x1 <= w,
                ;
                assert(0 <= y * w) by (nonlinear_arith)
                    requires
                        0 <= y,
                        0 < w,
                ;
            }
            let idx: usize = (y as usize) * (w as usize) + (x as usize);
            let q = data[idx];
            sum_b = sum_b + q.b as u128;
            sum_g = sum_g + q.g as u128;
            sum_r = sum_r + q.r as u128;
            x = x + 1;
        }
        y = y + 1;
    }
    proof {
        lemma_box_sum_bounds(data@, w as int, x0 as int, x1 as int, y0 as int, y1 as int, 0);
        lemma_box_sum_bounds(data@, w as int, x0 as int, x1 as int, y0 as int, y1 as int, 1);
        lemma_box_sum_bounds(data@, w as int, x0 as int, x1 as int, y0 as int, y1 as int, 2);
        assert(0 < (x1 - x0) * (y1 - y0)) by (nonlinear_arith)
            requires
                x0 < x1,
                y0 < y1,
        ;
        assert(((x1 - x0) as int) * ((y1 - y0) as int) <= 0x4000_0000_0000_0000) by (nonlinear_arith)
            requires
                0 < x1 - x0 <= 0x8000_0000,
                0 < y1 - y0 <= 0x8000_0000,
        ;
    }
    let area: u128 = ((x1 - x0) as u128) * ((y1 - y0) as u128);
    proof {
        let a = ((x1 - x0) as int) * ((y1 - y0) as int);
        lemma_div_is_ordered(sum_b as int, 255 * a, a);
        lemma_div_is_ordered(sum_g as int, 255 * a, a);
        lemma_div_is_ordered(sum_r as int, 255 * a, a);
        lemma_div_multiples_vanish(255, a);
        vstd::arithmetic::div_mod::lemma_div_pos_is_pos(sum_b as int, a);
        vstd::arithmetic::div_mod::lemma_div_pos_is_pos(sum_g as int, a);
        vstd::arithmetic::div_mod::lemma_div_pos_is_pos(sum_r as int, a);
    }
    let qb: u128 = sum_b / area;
    let qg: u128 = sum_g / area;
    let qr: u128 = sum_r / area;
    Pixel { b: qb as u8, g: qg as u8, r: qr as u8 }
}

/// The blurred value of pixel `(px, py)`: each channel the integer mean of
/// that channel over the kernel window of radius `rad` around `(px, py)`,
/// clipped to the region `c`.
pub open spec fn spec_blur_pixel(
    s: Seq<Pixel>,
    w: int,
    c: Rect,
    rad: int,
    px: int,
    py: int,
) -> Pixel {
    let x0 = if c.x > px - rad {
        c.x as int
    } else {
        px - rad
    };
    let x1 = if c.x + c.width < px + rad + 1 {
        c.x + c.width
    } else {
        px + rad + 1
    };
    let y0 = if c.y > py - rad {
        c.y as int
    } else {
        py - rad
    };
    let y1 = if c.y + c.height < py + rad + 1 {
        c.y + c.height
    } else {
        py + rad + 1
    };
    Pixel {
        b: (spec_box_sum(s, w, x0, x1, y0, y1, 0) / ((x1 - x0) * (y1 - y0))) as u8,
        g: (spec_box_sum(s, w, x0, x1, y0, y1, 1) / ((x1 - x0) * (y1 - y0))) as u8,
        r: (spec_box_sum(s, w, x0, x1, y0, y1, 2) / ((x1 - x0) * (y1 - y0))) as u8,
    }
}

/// What blur redaction leaves at `(px, py)`: inside the clamped region the
/// kernel-window mean of the old frame, elsewhere the old pixel. A clamped
/// region with no pixels leaves the whole frame untouched.
pub open spec fn spec_blur_result_pixel(
    s: Seq<Pixel>,
    w: int,
    h: int,
    rect: Rect,
    strength: int,
    px: int,
    py: int,
) -> Pixel {
    let c = spec_clamp(rect, w, h);
    let rad = strength / 2;
    if c.spec_is_proper() && spec_in_rect(c, px, py) {
        spec_blur_pixel(s, w, c, rad, px, py)
    } else {
        s[py * w + px]
    }
}

/// Destructively blurs the face region on the live frame.
///
/// The rectangle is first clamped to the frame bounds; a degenerate clamped
/// region is a no-op. Otherwise every pixel of the clamped region is
/// replaced by the mean of its kernel window over a snapshot of the frame
/// taken before any write, so no write feeds back into a later read. No
/// pixel outside the clamped region changes.
#[verifier::loop_isolation(false)]
pub fn redact_blur(frame: &mut Frame, rect: Rect, strength: i32)
    requires
        old(frame).wf(),
        1 <= strength,
    ensures
        final(frame).wf(),
        final(frame).width == old(frame).width,
        final(frame).height == old(frame).height,
        forall|px: int, py: int|
            old(frame).valid_coord(px, py) ==> final(frame).pixel(px, py)
                == spec_blur_result_pixel(old(frame).data@, old(frame).width as int,
            old(frame).height as int, rect, strength as int, px, py),
{
    let w: i32 = frame.width;
    let h: i32 = frame.height;
    let c = clamp_to_bounds(rect, w, h);
    if c.width <= 0 || c.height <= 0 {
        return ;
    }
    let rad: i32 = strength / 2;
    let snapshot: Vec<Pixel> = copy_pixels(&frame.data);
    let cye: i32 = c.y + c.height;
    let cxe: i32 = c.x + c.width;
    let mut py: i32 = c.y;
    while py < cye
        invariant
            c.y <= py,
            frame.wf(),
            frame.width == w,
            frame.height == h,
            forall|qx: int, qy: int| #![trigger old(frame).valid_coord(qx, qy)]
                old(frame).valid_coord(qx, qy) ==> frame.pixel(qx, qy) == (
                if spec_in_rect(c, qx, qy) && qy < py {
                    spec_blur_pixel(snapshot@, w as int, c, rad as int, qx, qy)
                } else {
                    old(frame).pixel(qx, qy)
                }),
        decreases cye - py,
    {
        let mut px: i32 = c.x;
        while px < cxe
            invariant
                c.x <= px,
                c.y <= py < cye,
                frame.wf(),
                frame.width == w,
                frame.height == h,
                forall|qx: int, qy: int| #![trigger old(frame).valid_coord(qx, qy)]
                    old(frame).valid_coord(qx, qy) ==> frame.pixel(qx, qy) == (
                    if spec_in_rect(c, qx, qy) && (qy < py || (qy == py && qx < px)) {
                        spec_blur_pixel(snapshot@, w as int, c, rad as int, qx, qy)
                    } else {
                        old(frame).pixel(qx, qy)
                    }),
            decreases cxe - px,
        {
            let x0: i32 = if c.x > px - rad {
                c.x
            } else {
                px - rad
            };
            let xe64: i64 = px as i64 + rad as i64 + 1;
            let x1: i32 = if (cxe as i64) < xe64 {
                cxe
            } else {
                xe64 as i32
            };
            let y0: i32 = if c.y > py - rad {
                c.y
            } else {
                py - rad
            };
            let ye64: i64 = py as i64 + rad as i64 + 1;
            let y1: i32 = if (cye as i64) < ye64 {
                cye
            } else {
                ye64 as i32
            };
            proof {
                assert(y1 * w <= h * w) by (nonlinear_arith)
                    requires
                        y1 <= h,
                        0 <= w,
                ;
                assert(h * w == w * h) by (nonlinear_arith);
            }
            let mean = window_mean(&snapshot, w, x0, x1, y0, y1);
            proof {
                assert(mean == spec_blur_pixel(snapshot@, w as int, c, rad as int, px as int,
                    py as int));
            }
            let ghost before = *frame;
            frame.set(px, py, mean);
            proof {
                assert forall|qx: int, qy: int| old(frame).valid_coord(qx, qy) implies frame.pixel(
                    qx,
                    qy,
                ) == (if spec_in_rect(c, qx, qy) && (qy < py || (qy == py && qx < px + 1)) {
                    spec_blur_pixel(snapshot@, w as int, c, rad as int, qx, qy)
                } else {
                    old(frame).pixel(qx, qy)
                }) by {
                    if qx == px as int && qy == py as int {
                        assert(spec_in_rect(c, qx, qy));
                        assert(frame.pixel(qx, qy) == mean);
                    } else {
                        assert(frame.pixel(qx, qy) == before.pixel(qx, qy));
                        if spec_in_rect(c, qx, qy) && (qy < py || (qy == py && qx < px)) {
                            assert(before.pixel(qx, qy) == spec_blur_pixel(snapshot@, w as int, c,
                                rad as int, qx, qy));
                        } else {
                            assert(before.pixel(qx, qy) == old(frame).pixel(qx, qy));
                        }
                    }
                }
            }
            px = px + 1;
        }
        py = py + 1;
    }
}

/// The mean pixel of a whole region: each channel the integer mean of that
/// channel over the region.
pub open spec fn spec_region_mean(s: Seq<Pixel>, w: int, c: Rect) -> Pixel {
    Pixel {
        b: (spec_box_sum(s, w, c.x as int, c.x + c.width, c.y as int, c.y + c.height, 0) / (
        c.width * c.height)) as u8,
        g: (spec_box_sum(s, w, c.x as int, c.x + c.width, c.y as int, c.y + c.height, 1) / (
        c.width * c.height)) as u8,
        r: (spec_box_sum(s, w, c.x as int, c.x + c.width, c.y as int, c.y + c.height, 2) / (
        c.width * c.height)) as u8,
    }
}

/// A row whose pixels all equal `m` sums, per channel, to the channel of
/// `m` times the row length.
pub proof fn lemma_row_sum_constant(
    s: Seq<Pixel>,
    w: int,
    y: int,
    x0: int,
    x1: int,
    ch: int,
    m: Pixel,
)
    requires
        x0 <= x1,
        forall|x: int| x0 <= x < x1 ==> #[trigger] s[y * w + x] == m,
    ensures
        spec_row_sum(s, w, y, x0, x1, ch) == spec_channel(m, ch) * (x1 - x0),
    decreases x1 - x0,
{
    if x0 < x1 {
        lemma_row_sum_constant(s, w, y, x0, x1 - 1, ch, m);
        assert(s[y * w + (x1 - 1)] == m);
        assert(spec_row_sum(s, w, y, x0, x1, ch) == spec_row_sum(s, w, y, x0, x1 - 1, ch)
            + spec_channel(s[y * w + (x1 - 1)], ch));
        assert(spec_row_sum(s, w, y, x0, x1, ch) == spec_channel(m, ch) * (x1 - 1 - x0)
            + spec_channel(m, ch));
        assert(spec_channel(m, ch) * (x1 - 1 - x0) + spec_channel(m, ch) == spec_channel(m, ch) * (
        x1 - x0)) by (nonlinear_arith);
    } else {
        assert(spec_channel(m, ch) * (x1 - x0) == 0) by (nonlinear_arith)
            requires
                x1 == x0,
        ;
    }
}

/// A box whose pixels all equal `m` sums, per channel, to the channel of
/// `m` times the box area.
pub proof fn lemma_box_sum_constant(
    s: Seq<Pixel>,
    w: int,
    x0: int,
    x1: int,
    y0: int,
    y1: int,
    ch: int,
    m: Pixel,
)
    requires
        x0 <= x1,
        y0 <= y1,
        forall|x: int, y: int| x0 <= x < x1 && y0 <= y < y1 ==> #[trigger] s[y * w + x] == m,
    ensures
        spec_box_sum(s, w, x0, x1, y0, y1, ch) == spec_channel(m, ch) * ((x1 - x0) * (y1 - y0)),
    decreases y1 - y0,
{
    if y0 < y1 {
        lemma_box_sum_constant(s, w, x0, x1, y0, y1 - 1, ch, m);
        lemma_row_sum_constant(s, w, y1 - 1, x0, x1, ch, m);
        assert(spec_box_sum(s, w, x0, x1, y0, y1, ch) == spec_box_sum(s, w, x0, x1, y0, y1 - 1, ch)
            + spec_row_sum(s, w, y1 - 1, x0, x1, ch));
        assert(spec_box_sum(s, w, x0, x1, y0, y1, ch) == spec_channel(m, ch) * ((x1 - x0) * (y1 - 1
            - y0)) + spec_channel(m, ch) * (x1 - x0));
        assert(spec_channel(m, ch) * ((x1 - x0) * (y1 - 1 - y0)) + spec_channel(m, ch) * (x1 - x0)
            == spec_channel(m, ch) * ((x1 - x0) * (y1 - y0))) by (nonlinear_arith);
    } else {
        assert(spec_channel(m, ch) * ((x1 - x0) * (y1 - y0)) == 0) by (nonlinear_arith)
            requires
                y1 == y0,
        ;
    }
}

/// A row whose samples lie in `[lo, hi]` sums to between `lo` and `hi`
/// per column.
pub proof fn lemma_row_sum_range(
    s: Seq<Pixel>,
    w: int,
    y: int,
    x0: int,
    x1: int,
    ch: int,
    lo: int,
    hi: int,
)
    requires
        x0 <= x1,
        forall|x: int|
            x0 <= x < x1 ==> lo <= spec_channel(#[trigger] s[y * w + x], ch) <= hi,
    ensures
        lo * (x1 - x0) <= spec_row_sum(s, w, y, x0, x1, ch) <= hi * (x1 - x0),
    decreases x1 - x0,
{
    if x0 < x1 {
        lemma_row_sum_range(s, w, y, x0, x1 - 1, ch, lo, hi);
        assert(lo <= spec_channel(s[y * w + (x1 - 1)], ch) <= hi);
        assert(lo * (x1 - 1 - x0) + lo == lo * (x1 - x0) && hi * (x1 - 1 - x0) + hi == hi * (x1
            - x0)) by (nonlinear_arith);
    } else {
        assert(lo * (x1 - x0) == 0 && hi * (x1 - x0) == 0) by (nonlinear_arith)
            requires
                x1 == x0,
        ;
    }
}

/// A box whose samples lie in `[lo, hi]` sums to between `lo` and `hi`
/// per cell.
pub proof fn lemma_box_sum_range(
    s: Seq<Pixel>,
    w: int,
    x0: int,
    x1: int,
    y0: int,
    y1: int,
    ch: int,
    lo: int,
    hi: int,
)
    requires
        x0 <= x1,
        y0 <= y1,
        forall|x: int, y: int|
            x0 <= x < x1 && y0 <= y < y1 ==> lo <= spec_channel(#[trigger] s[y * w + x], ch) <= hi,
    ensures
        lo * ((x1 - x0) * (y1 - y0)) <= spec_box_sum(s, w, x0, x1, y0, y1, ch) <= hi * ((x1 - x0)
            * (y1 - y0)),
    decreases y1 - y0,
{
    if y0 < y1 {
        lemma_box_sum_range(s, w, x0, x1, y0, y1 - 1, ch, lo, hi);
        lemma_row_sum_range(s, w, y1 - 1, x0, x1, ch, lo, hi);
        assert(lo * ((x1 - x0) * (y1 - 1 - y0)) + lo * (x1 - x0) == lo * ((x1 - x0) * (y1 - y0))
            && hi * ((x1 - x0) * (y1 - 1 - y0)) + hi * (x1 - x0) == hi * ((x1 - x0) * (y1 - y0)))
            by (nonlinear_arith);
    } else {
        assert(lo * ((x1 - x0) * (y1 - y0)) == 0 && hi * ((x1 - x0) * (y1 - y0)) == 0)
            by (nonlinear_arith)
            requires
                y1 == y0,
        ;
    }
}

/// Smoothing creates no new extremes: a blurred channel stays within the
/// range that the channel already spans over the region, whatever the
/// kernel radius. A repeated blur can therefore only keep narrowing the
/// region's range, never widen it back.
pub proof fn lemma_blur_pixel_within_range(
    s: Seq<Pixel>,
    w: int,
    c: Rect,
    rad: int,
    px: int,
    py: int,
    ch: int,
    lo: int,
    hi: int,
)
    requires
        c.spec_is_proper(),
        spec_in_rect(c, px, py),
        rad >= 0,
        0 <= ch < 3,
        0 <= lo,
        hi <= 255,
        forall|x: int, y: int| #[trigger]
            spec_in_rect(c, x, y) ==> lo <= spec_channel(s[y * w + x], ch) <= hi,
    ensures
        lo <= spec_channel(spec_blur_pixel(s, w, c, rad, px, py), ch) <= hi,
{
    let x0 = if c.x > px - rad {
        c.x as int
    } else {
        px - rad
    };
    let x1 = if c.x + c.width < px + rad + 1 {
        c.x + c.width
    } else {
        px + rad + 1
    };
    let y0 = if c.y > py - rad {
        c.y as int
    } else {
        py - rad
    };
    let y1 = if c.y + c.height < py + rad + 1 {
        c.y + c.height
    } else {
        py + rad + 1
    };
    assert(c.x <= x0 && x1 <= c.x + c.width && c.y <= y0 && y1 <= c.y + c.height);
    assert(x0 <= px < x1 && y0 <= py < y1);
    assert forall|x: int, y: int| x0 <= x < x1 && y0 <= y < y1 implies lo <= spec_channel(
        #[trigger] s[y * w + x],
        ch,
    ) <= hi by {
        assert(spec_in_rect(c, x, y));
    }
    lemma_box_sum_range(s, w, x0, x1, y0, y1, ch, lo, hi);
    let area = (x1 - x0) * (y1 - y0);
    assert(0 < area) by (nonlinear_arith)
        requires
            x0 < x1,
            y0 < y1,
            area == (x1 - x0) * (y1 - y0),
    ;
    let total = spec_box_sum(s, w, x0, x1, y0, y1, ch);
    lemma_div_is_ordered(lo * area, total, area);
    lemma_div_is_ordered(total, hi * area, area);
    lemma_div_multiples_vanish(lo, area);
    lemma_div_multiples_vanish(hi, area);
    assert(lo * area == area * lo && hi * area == area * hi) by (nonlinear_arith);
    assert(lo <= total / area <= hi);
    assert(spec_channel(spec_blur_pixel(s, w, c, rad, px, py), ch) == total / area);
}

/// With a kernel radius that covers the whole region, every window clips to
/// the full region, so every blurred pixel is the one region mean.
pub proof fn lemma_blur_pixel_covering(s: Seq<Pixel>, w: int, c: Rect, rad: int, px: int, py: int)
    requires
        c.spec_is_proper(),
        spec_in_rect(c, px, py),
        rad >= c.width - 1,
        rad >= c.height - 1,
    ensures
        spec_blur_pixel(s, w, c, rad, px, py) == spec_region_mean(s, w, c),
{
}

/// A region holding one constant pixel has that pixel as its mean.
pub proof fn lemma_constant_region_mean(t: Seq<Pixel>, w: int, c: Rect, m: Pixel)
    requires
        c.spec_is_proper(),
        forall|px: int, py: int| #[trigger] spec_in_rect(c, px, py) ==> t[py * w + px] == m,
    ensures
        spec_region_mean(t, w, c) == m,
{
    let cxe = c.x + c.width;
    let cye = c.y + c.height;
    let area = (c.width) as int * (c.height) as int;
    assert forall|x: int, y: int| c.x <= x < cxe && c.y <= y < cye implies #[trigger] t[y * w + x]
        == m by {
        assert(spec_in_rect(c, x, y));
    }
    lemma_box_sum_constant(t, w, c.x as int, cxe, c.y as int, cye, 0, m);
    lemma_box_sum_constant(t, w, c.x as int, cxe, c.y as int, cye, 1, m);
    lemma_box_sum_constant(t, w, c.x as int, cxe, c.y as int, cye, 2, m);
    assert(0 < (c.width) as int * (c.height) as int) by (nonlinear_arith)
        requires
            0 < c.width,
            0 < c.height,
    ;
    assert((cxe - c.x) * (cye - c.y) == area);
    assert(spec_box_sum(t, w, c.x as int, cxe, c.y as int, cye, 0) == spec_channel(m, 0) * area);
    assert(spec_box_sum(t, w, c.x as int, cxe, c.y as int, cye, 1) == spec_channel(m, 1) * area);
    assert(spec_box_sum(t, w, c.x as int, cxe, c.y as int, cye, 2) == spec_channel(m, 2) * area);
    lemma_div_multiples_vanish(spec_channel(m, 0), area);
    lemma_div_multiples_vanish(spec_channel(m, 1), area);
    lemma_div_multiples_vanish(spec_channel(m, 2), area);
    assert(spec_channel(m, 0) * area == area * spec_channel(m, 0)) by (nonlinear_arith);
    assert(spec_channel(m, 1) * area == area * spec_channel(m, 1)) by (nonlinear_arith);
    assert(spec_channel(m, 2) * area == area * spec_channel(m, 2)) by (nonlinear_arith);
    assert((spec_channel(m, 0) * area) / area == spec_channel(m, 0));
    assert((spec_channel(m, 1) * area) / area == spec_channel(m, 1));
    assert((spec_channel(m, 2) * area) / area == spec_channel(m, 2));
    assert(spec_region_mean(t, w, c).b == m.b);
    assert(spec_region_mean(t, w, c).g == m.g);
    assert(spec_region_mean(t, w, c).r == m.r);
}

/// A second blur with a kernel that covers the whole clamped region changes
/// nothing: the first pass leaves every region pixel at the region mean,
/// and blurring a constant region recomputes that same constant. A repeated
/// application therefore cannot reintroduce any of the detail the first
/// pass destroyed.
pub proof fn lemma_blur_covering_idempotent(
    s: Seq<Pixel>,
    t: Seq<Pixel>,
    u: Seq<Pixel>,
    w: int,
    c: Rect,
    rad: int,
)
    requires
        0 < w,
        c.spec_is_proper(),
        rad >= c.width - 1,
        rad >= c.height - 1,
        forall|px: int, py: int| #[trigger] spec_in_rect(c, px, py) ==> t[py * w + px]
            == spec_blur_pixel(s, w, c, rad, px, py),
        forall|px: int, py: int| #[trigger] spec_in_rect(c, px, py) ==> u[py * w + px]
            == spec_blur_pixel(t, w, c, rad, px, py),
    ensures
        forall|px: int, py: int| #[trigger] spec_in_rect(c, px, py) ==> u[py * w + px] == t[py * w
            + px],
{
    let m = spec_region_mean(s, w, c);
    assert forall|px: int, py: int| #[trigger] spec_in_rect(c, px, py) implies t[py * w + px]
        == m by {
        lemma_blur_pixel_covering(s, w, c, rad, px, py);
    }
    lemma_constant_region_mean(t, w, c, m);
    assert forall|px: int, py: int| #[trigger] spec_in_rect(c, px, py) implies u[py * w + px] == t[
        py * w + px] by {
        lemma_blur_pixel_covering(t, w, c, rad, px, py);
    }
}

} // verus!
