//! Axis-aligned rectangles in detection or display space, and the two pure
//! geometric steps of the pipeline: clamping a rectangle to frame bounds and
//! scaling it by an integer inverse scale factor.

use vstd::prelude::*;

verus! {

/// An axis-aligned rectangle. Coordinates live in the space of whatever
/// image the rectangle was produced against; before clamping a detector may
/// legally return a negative origin or bounds exceeding the frame.
#[derive(Clone, Copy, Debug, PartialEq, Eq, Structural)]
pub struct Rect {
    pub x: i32,
    pub y: i32,
    pub width: i32,
    pub height: i32,
}

impl Rect {
    /// True when the rectangle covers at least one pixel.
    pub open spec fn spec_is_proper(self) -> bool {
        self.width > 0 && self.height > 0
    }

    /// True when the rectangle lies fully inside a `frame_width` by
    /// `frame_height` frame.
    pub open spec fn spec_inside(self, frame_width: int, frame_height: int) -> bool {
        &&& 0 <= self.x
        &&& 0 <= self.y
        &&& self.x + self.width <= frame_width
        &&& self.y + self.height <= frame_height
    }

    /// Executable form of `spec_is_proper`.
    pub fn is_proper(&self) -> (r: bool)
        ensures
            r == self.spec_is_proper(),
    {
        self.width > 0 && self.height > 0
    }
}

/// What clamping returns: origin raised to zero, then width and height
/// shrunk so the far edges do not pass the frame bounds.
pub open spec fn spec_clamp(r: Rect, frame_width: int, frame_height: int) -> Rect {
    let x = if r.x < 0 { 0 } else { r.x as int };
    let y = if r.y < 0 { 0 } else { r.y as int };
    let w = if x + r.width > frame_width { frame_width - x } else { r.width as int };
    let h = if y + r.height > frame_height { frame_height - y } else { r.height as int };
    Rect { x: x as i32, y: y as i32, width: w as i32, height: h as i32 }
}

/// Clamps `rect` to a `frame_width` by `frame_height` frame.
///
/// The origin is raised to zero and the extent only ever shrinks; a
/// rectangle lying entirely outside the bounds comes back with zero or
/// negative width or height, which callers treat as "nothing to redact".
pub fn clamp_to_bounds(rect: Rect, frame_width: i32, frame_height: i32) -> (c: Rect)
    requires
        0 <= frame_width,
        0 <= frame_height,
    ensures
        c == spec_clamp(rect, frame_width as int, frame_height as int),
        0 <= c.x,
        0 <= c.y,
        c.x + c.width <= frame_width,
        c.y + c.height <= frame_height,
        c.width <= rect.width,
        c.height <= rect.height,
        rect.spec_is_proper() && rect.spec_inside(frame_width as int, frame_height as int)
            ==> c == rect,
{
    let mut r = rect;
    if r.x < 0 {
        r.x = 0;
    }
    if r.y < 0 {
        r.y = 0;
    }
    if (r.x as i64) + (r.width as i64) > frame_width as i64 {
        r.width = frame_width - r.x;
    }
    if (r.y as i64) + (r.height as i64) > frame_height as i64 {
        r.height = frame_height - r.y;
    }
    r
}

/// What scaling returns: every field multiplied by the factor.
pub open spec fn spec_scale(r: Rect, factor: int) -> Rect {
    Rect {
        x: (r.x * factor) as i32,
        y: (r.y * factor) as i32,
        width: (r.width * factor) as i32,
        height: (r.height * factor) as i32,
    }
}

/// Scales a rectangle by the integer inverse scale factor, mapping a
/// detection-space rectangle back into display space. No clamping happens
/// here: scaling and clamping are separate, composable steps.
pub fn scale_rect(rect: Rect, inverse_factor: i32) -> (s: Rect)
    requires
        i32::MIN <= rect.x * inverse_factor <= i32::MAX,
        i32::MIN <= rect.y * inverse_factor <= i32::MAX,
        i32::MIN <= rect.width * inverse_factor <= i32::MAX,
        i32::MIN <= rect.height * inverse_factor <= i32::MAX,
    ensures
        s == spec_scale(rect, inverse_factor as int),
        inverse_factor == 1 ==> s == rect,
{
    Rect {
        x: rect.x * inverse_factor,
        y: rect.y * inverse_factor,
        width: rect.width * inverse_factor,
        height: rect.height * inverse_factor,
    }
}

/// Clamping always lands inside the bounds and never grows the extent, and
/// on a proper rectangle already inside the bounds it is the identity.
pub proof fn lemma_clamp_contained(r: Rect, frame_width: int, frame_height: int)
    requires
        0 <= frame_width <= i32::MAX,
        0 <= frame_height <= i32::MAX,
    ensures
        0 <= spec_clamp(r, frame_width, frame_height).x,
        0 <= spec_clamp(r, frame_width, frame_height).y,
        spec_clamp(r, frame_width, frame_height).x + spec_clamp(r, frame_width, frame_height).width
            <= frame_width,
        spec_clamp(r, frame_width, frame_height).y + spec_clamp(r, frame_width, frame_height).height
            <= frame_height,
        spec_clamp(r, frame_width, frame_height).width <= r.width,
        spec_clamp(r, frame_width, frame_height).height <= r.height,
        r.spec_is_proper() && r.spec_inside(frame_width, frame_height)
            ==> spec_clamp(r, frame_width, frame_height) == r,
{
}

/// Scaling by factor one, applied twice, gives back the original rectangle:
/// with a unit scale factor the map and its inverse are both the identity.
pub proof fn lemma_scale_unit_round_trip(r: Rect)
    ensures
        spec_scale(spec_scale(r, 1), 1) == r,
{
}

} // verus!
