//! The visible rectangle of the complex plane and the map from the screen
//! onto it.

use crate::error::ConfigError;
use crate::fixed::{floor_div, lemma_product_bounds, narrow, saturate, scaled_product, Fixed, SCALE};
use vstd::prelude::*;

verus! {

/// Raw value of the factor by which one zoom step scales lengths (0.95).
pub const ZOOM_FACTOR: i64 = 950_000_000;

/// Raw value of the real part of the centre at start-up (-0.75).
pub const INITIAL_CENTER_X: i64 = -750_000_000;

/// Raw value of the imaginary part of the centre at start-up (0).
pub const INITIAL_CENTER_Y: i64 = 0;

/// Raw value of the half-width at start-up (1.75).
pub const INITIAL_HALF_WIDTH: i64 = 1_750_000_000;

/// Raw value of the half-height at start-up (1).
pub const INITIAL_HALF_HEIGHT: i64 = 1_000_000_000;

/// A point of the complex plane.
#[derive(Clone, Copy, Debug, PartialEq, Eq, Structural)]
pub struct ComplexPoint {
    pub x: Fixed,
    pub y: Fixed,
}

impl View for ComplexPoint {
    type V = (int, int);

    open spec fn view(&self) -> (int, int) {
        (self.x@, self.y@)
    }
}

/// A length after one zoom step inwards: multiplied by the zoom factor,
/// rounded down, and never less than one raw unit.
pub open spec fn scaled_down(v: int) -> int {
    let s = scaled_product(v, ZOOM_FACTOR as int);
    if s < 1 {
        1
    } else {
        s
    }
}

/// A length after one zoom step outwards: divided by the zoom factor,
/// rounded up, and saturated. Rounding up makes every step outwards a real
/// step, however small the length.
pub open spec fn scaled_up(v: int) -> int {
    saturate(-((-(v * SCALE)) / (ZOOM_FACTOR as int)))
}

/// Mathematical content of a [`Viewport`]: centre and half-extents in raw
/// units. It stands for the rectangle
/// `[cx - hx, cx + hx] x [cy - hy, cy + hy]`.
pub struct ViewportModel {
    pub cx: int,
    pub cy: int,
    pub hx: int,
    pub hy: int,
}

impl ViewportModel {
    /// The view at start-up: centre (-0.75, 0), half-width 1.75,
    /// half-height 1.
    pub open spec fn initial() -> ViewportModel {
        ViewportModel {
            cx: INITIAL_CENTER_X as int,
            cy: INITIAL_CENTER_Y as int,
            hx: INITIAL_HALF_WIDTH as int,
            hy: INITIAL_HALF_HEIGHT as int,
        }
    }

    /// Every field is representable and both half-extents are positive.
    pub open spec fn valid(self) -> bool {
        &&& i64::MIN <= self.cx <= i64::MAX
        &&& i64::MIN <= self.cy <= i64::MAX
        &&& 0 < self.hx <= i64::MAX
        &&& 0 < self.hy <= i64::MAX
    }

    /// The four corners of the rectangle are representable.
    pub open spec fn corners_representable(self) -> bool {
        &&& i64::MIN <= self.cx - self.hx
        &&& self.cx + self.hx <= i64::MAX
        &&& i64::MIN <= self.cy - self.hy
        &&& self.cy + self.hy <= i64::MAX
    }

    /// The same extents around a centre moved by `(dx, dy)`.
    pub open spec fn panned(self, dx: int, dy: int) -> ViewportModel {
        ViewportModel { cx: saturate(self.cx + dx), cy: saturate(self.cy + dy), ..self }
    }

    /// The same centre with both half-extents one zoom step smaller.
    pub open spec fn zoomed_in(self) -> ViewportModel {
        ViewportModel { hx: scaled_down(self.hx), hy: scaled_down(self.hy), ..self }
    }

    /// The same centre with both half-extents one zoom step larger.
    pub open spec fn zoomed_out(self) -> ViewportModel {
        ViewportModel { hx: scaled_up(self.hx), hy: scaled_up(self.hy), ..self }
    }

    /// The point of the plane shown at the normalized screen position
    /// `(nx, ny)`: each axis is carried linearly from `[-1, 1]` onto
    /// `[centre - half-extent, centre + half-extent]`.
    pub open spec fn map(self, nx: int, ny: int) -> (int, int) {
        (
            saturate(self.cx + scaled_product(nx, self.hx)),
            saturate(self.cy + scaled_product(ny, self.hy)),
        )
    }
}

/// One zoom step inwards on a single length.
pub fn scale_down(v: Fixed) -> (r: Fixed)
    ensures
        r@ == scaled_down(v@),
        r@ >= 1,
{
    let s = v.times(Fixed { raw: ZOOM_FACTOR });
    proof {
        lemma_scaled_down_bounds(v@);
    }
    if s.raw < 1 {
        Fixed { raw: 1 }
    } else {
        s
    }
}

/// One zoom step outwards on a single length.
pub fn scale_up(v: Fixed) -> (r: Fixed)
    ensures
        r@ == scaled_up(v@),
        v@ > 0 ==> r@ >= v@,
{
    proof {
        lemma_product_bounds(v@, SCALE as int);
        if v@ > 0 {
            lemma_scaled_up_grows(v@);
        }
    }
    let wide: i128 = -((v.raw as i128) * (SCALE as i128));
    Fixed { raw: narrow(-floor_div(wide, ZOOM_FACTOR as i128)) }
}

/// Multiplying a length by the zoom factor brings it no further from zero.
pub proof fn lemma_scaled_down_bounds(v: int)
    ensures
        v >= 0 ==> 0 <= scaled_product(v, ZOOM_FACTOR as int) <= v,
        v < 0 ==> v <= scaled_product(v, ZOOM_FACTOR as int) < 0,
{
    assert(scaled_product(v, ZOOM_FACTOR as int) == (v * 950_000_000) / 1_000_000_000);
}

/// A step outwards makes a positive length strictly greater, unless it
/// is already the greatest representable one.
pub proof fn lemma_scaled_up_grows(v: int)
    requires
        0 < v <= i64::MAX,
    ensures
        v <= scaled_up(v) <= i64::MAX,
        scaled_up(v) > v || scaled_up(v) == i64::MAX,
{
    assert(-((-(v * 1_000_000_000)) / 950_000_000) > v);
}

/// A step inwards makes a length above one raw unit strictly smaller, and
/// leaves no length below one raw unit.
pub proof fn lemma_scaled_down_shrinks(v: int)
    requires
        0 < v <= i64::MAX,
    ensures
        1 <= scaled_down(v) <= v,
        v > 1 ==> scaled_down(v) < v,
{
    lemma_scaled_down_bounds(v);
}

/// The rectangle of the complex plane that is mapped onto the screen.
/// Its half-extents are always greater than zero.
#[derive(Clone, Copy, Debug)]
pub struct Viewport {
    center: ComplexPoint,
    half_width: Fixed,
    half_height: Fixed,
}

impl View for Viewport {
    type V = ViewportModel;

    closed spec fn view(&self) -> ViewportModel {
        ViewportModel {
            cx: self.center.x@,
            cy: self.center.y@,
            hx: self.half_width@,
            hy: self.half_height@,
        }
    }
}

impl Viewport {
    #[verifier::type_invariant]
    spec fn positive_extents(self) -> bool {
        self.half_width.raw > 0 && self.half_height.raw > 0
    }

    /// A viewport around `center`. Refused unless both half-extents are
    /// greater than zero.
    pub fn new(center: ComplexPoint, half_width: Fixed, half_height: Fixed) -> (r: Result<
        Viewport,
        ConfigError,
    >)
        ensures
            r is Ok <==> half_width@ > 0 && half_height@ > 0,
            r matches Ok(v) ==> v@.valid() && v@ == (ViewportModel {
                cx: center.x@,
                cy: center.y@,
                hx: half_width@,
                hy: half_height@,
            }),
            r matches Err(e) ==> e == ConfigError::NonPositiveExtent,
    {
        if half_width.raw > 0 && half_height.raw > 0 {
            Ok(Viewport { center, half_width, half_height })
        } else {
            Err(ConfigError::NonPositiveExtent)
        }
    }

    /// The view at start-up.
    pub fn initial() -> (v: Viewport)
        ensures
            v@ == ViewportModel::initial(),
            v@.valid(),
    {
        Viewport {
            center: ComplexPoint {
                x: Fixed { raw: INITIAL_CENTER_X },
                y: Fixed { raw: INITIAL_CENTER_Y },
            },
            half_width: Fixed { raw: INITIAL_HALF_WIDTH },
            half_height: Fixed { raw: INITIAL_HALF_HEIGHT },
        }
    }

    /// The centre of the rectangle.
    pub fn center(&self) -> (c: ComplexPoint)
        ensures
            c@ == (self@.cx, self@.cy),
            self@.valid(),
    {
        proof {
            use_type_invariant(self);
        }
        self.center
    }

    /// Half of the rectangle's width.
    pub fn half_width(&self) -> (h: Fixed)
        ensures
            h@ == self@.hx,
            self@.valid(),
    {
        proof {
            use_type_invariant(self);
        }
        self.half_width
    }

    /// Half of the rectangle's height.
    pub fn half_height(&self) -> (h: Fixed)
        ensures
            h@ == self@.hy,
            self@.valid(),
    {
        proof {
            use_type_invariant(self);
        }
        self.half_height
    }

    /// The viewport moved by `(dx, dy)`, saturating at the ends of the
    /// representable range.
    pub fn panned(self, dx: Fixed, dy: Fixed) -> (r: Viewport)
        ensures
            r@ == self@.panned(dx@, dy@),
            r@.valid(),
    {
        proof {
            use_type_invariant(self);
        }
        Viewport {
            center: ComplexPoint { x: self.center.x.plus(dx), y: self.center.y.plus(dy) },
            half_width: self.half_width,
            half_height: self.half_height,
        }
    }

    /// The viewport after one zoom step inwards.
    pub fn zoomed_in(self) -> (r: Viewport)
        ensures
            r@ == self@.zoomed_in(),
            r@.valid(),
    {
        Viewport {
            center: self.center,
            half_width: scale_down(self.half_width),
            half_height: scale_down(self.half_height),
        }
    }

    /// The viewport after one zoom step outwards.
    pub fn zoomed_out(self) -> (r: Viewport)
        ensures
            r@ == self@.zoomed_out(),
            r@.valid(),
    {
        proof {
            use_type_invariant(self);
        }
        Viewport {
            center: self.center,
            half_width: scale_up(self.half_width),
            half_height: scale_up(self.half_height),
        }
    }
}

/// The point of the complex plane that `viewport` shows at the normalized
/// screen position `(nx, ny)`, where -1 and 1 are the edges of the screen.
/// Positions beyond the edges are carried by the same linear map.
pub fn map_to_complex_plane(viewport: &Viewport, nx: Fixed, ny: Fixed) -> (p: ComplexPoint)
    ensures
        p@ == viewport@.map(nx@, ny@),
{
    let c = viewport.center();
    let x = map_axis(c.x, viewport.half_width(), nx);
    let y = map_axis(c.y, viewport.half_height(), ny);
    ComplexPoint { x, y }
}

fn map_axis(center: Fixed, half_extent: Fixed, n: Fixed) -> (r: Fixed)
    ensures
        r@ == saturate(center@ + scaled_product(n@, half_extent@)),
{
    proof {
        lemma_product_bounds(n@, half_extent@);
    }
    let offset: i128 = floor_div((n.raw as i128) * (half_extent.raw as i128), SCALE as i128);
    Fixed { raw: narrow(center.raw as i128 + offset) }
}

/// The screen's corners show the rectangle's corners, and the middle of the
/// screen shows its centre.
pub proof fn lemma_map_corners_and_center(v: ViewportModel)
    requires
        v.valid(),
        v.corners_representable(),
    ensures
        v.map(-(SCALE as int), -(SCALE as int)) == (v.cx - v.hx, v.cy - v.hy),
        v.map(SCALE as int, SCALE as int) == (v.cx + v.hx, v.cy + v.hy),
        v.map(0, 0) == (v.cx, v.cy),
{
    lemma_unit_products(v.hx);
    lemma_unit_products(v.hy);
}

/// Products with -1, 0 and 1 are exact.
pub proof fn lemma_unit_products(h: int)
    ensures
        scaled_product(-(SCALE as int), h) == -h,
        scaled_product(SCALE as int, h) == h,
        scaled_product(0, h) == 0,
{
    assert((-1_000_000_000 * h) / 1_000_000_000 == -h);
    assert((1_000_000_000 * h) / 1_000_000_000 == h);
    assert((0 * h) / 1_000_000_000 == 0);
}

} // verus!
