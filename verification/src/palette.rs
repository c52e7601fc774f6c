//! Colours and the palette that turns a position in `[0, 1]` into one.

use crate::error::ConfigError;
use crate::fixed::{Fixed, SCALE};
use vstd::prelude::*;

verus! {

/// A colour as red, green and blue, each from 0 to 255.
#[derive(Clone, Copy, Debug, PartialEq, Eq, Structural)]
pub struct Color {
    pub r: u8,
    pub g: u8,
    pub b: u8,
}

/// The raw position `p` brought into `[0, 1]`.
pub open spec fn clamp_unit(p: int) -> int {
    if p < 0 {
        0
    } else if p > SCALE {
        SCALE as int
    } else {
        p
    }
}

/// The channel value at the fraction `t` of the way from `a` to `b`,
/// rounded down; `t` is a raw value in `[0, 1]`.
pub open spec fn blend(a: int, b: int, t: int) -> int {
    (a * (SCALE - t) + b * t) / (SCALE as int)
}

/// The colour at the fraction `t` of the way from `a` to `b`, channel by
/// channel.
pub open spec fn blend_colors(a: Color, b: Color, t: int) -> Color {
    Color {
        r: blend(a.r as int, b.r as int, t) as u8,
        g: blend(a.g as int, b.g as int, t) as u8,
        b: blend(a.b as int, b.b as int, t) as u8,
    }
}

/// The index of the control point at or just before `position` when `len`
/// control points are spread evenly over `[0, 1]`.
pub open spec fn segment_index(len: nat, position: int) -> int {
    (clamp_unit(position) * (len - 1)) / (SCALE as int)
}

/// How far `position` lies beyond the control point [`segment_index`], as
/// a raw fraction of the distance to the next one.
pub open spec fn segment_offset(len: nat, position: int) -> int {
    (clamp_unit(position) * (len - 1)) % (SCALE as int)
}

/// The colour of the palette `colors` at `position`: the control points
/// are spread evenly over `[0, 1]`, the first at 0 and the last at 1, and
/// between two neighbours each channel is interpolated linearly. Positions
/// outside `[0, 1]` take the colour of the nearer end.
pub open spec fn sample_color(colors: Seq<Color>, position: int) -> Color
    recommends
        colors.len() > 0,
{
    let i = segment_index(colors.len(), position);
    if i >= colors.len() - 1 {
        colors[colors.len() - 1]
    } else {
        blend_colors(colors[i], colors[i + 1], segment_offset(colors.len(), position))
    }
}

/// An ordered, non-empty list of control-point colours.
#[derive(Debug)]
pub struct Palette {
    colors: Vec<Color>,
}

impl View for Palette {
    type V = Seq<Color>;

    closed spec fn view(&self) -> Seq<Color> {
        self.colors@
    }
}

impl Clone for Palette {
    fn clone(&self) -> (copy: Palette)
        ensures
            copy@ == self@,
    {
        proof {
            use_type_invariant(self);
        }
        Palette { colors: self.colors.clone() }
    }
}

impl Palette {
    #[verifier::type_invariant]
    spec fn non_empty(self) -> bool {
        self.colors@.len() > 0
    }

    /// A palette with the given control points, in interpolation order.
    /// Refused when there is none.
    pub fn new(colors: Vec<Color>) -> (r: Result<Palette, ConfigError>)
        ensures
            r is Ok <==> colors@.len() > 0,
            r matches Ok(p) ==> p@ == colors@,
            r matches Err(e) ==> e == ConfigError::EmptyPalette,
    {
        if colors.len() > 0 {
            Ok(Palette { colors })
        } else {
            Err(ConfigError::EmptyPalette)
        }
    }

    /// The number of control points, which is at least one.
    pub fn len(&self) -> (n: usize)
        ensures
            n == self@.len(),
            n > 0,
    {
        proof {
            use_type_invariant(self);
        }
        self.colors.len()
    }

    /// The control point with the given index, if there is one.
    pub fn control_point(&self, index: usize) -> (c: Option<Color>)
        ensures
            c == if index < self@.len() {
                Some(self@[index as int])
            } else {
                None
            },
    {
        if index < self.colors.len() {
            Some(self.colors[index])
        } else {
            None
        }
    }

    /// The colour at `position`.
    pub fn sample(&self, position: Fixed) -> (c: Color)
        ensures
            c == sample_color(self@, position@),
    {
        proof {
            use_type_invariant(self);
        }
        let unit: u128 = SCALE as u128;
        let p: u128 = if position.raw < 0 {
            0
        } else if position.raw > SCALE {
            unit
        } else {
            position.raw as u128
        };
        let last: usize = self.colors.len() - 1;
        assert(p * (last as u128) <= 1_000_000_000 * 0xffff_ffff_ffff_ffff) by (nonlinear_arith)
            requires
                p <= 1_000_000_000,
                last <= 0xffff_ffff_ffff_ffff,
        ;
        let scaled: u128 = p * (last as u128);
        let i: u128 = scaled / unit;
        let t: u128 = scaled % unit;
        if i >= last as u128 {
            self.colors[last]
        } else {
            let from = self.colors[i as usize];
            let to = self.colors[i as usize + 1];
            Color {
                r: blend_channel(from.r, to.r, t as u64),
                g: blend_channel(from.g, to.g, t as u64),
                b: blend_channel(from.b, to.b, t as u64),
            }
        }
    }
}

fn blend_channel(a: u8, b: u8, t: u64) -> (r: u8)
    requires
        t <= SCALE,
    ensures
        r == blend(a as int, b as int, t as int),
{
    let unit: u64 = SCALE as u64;
    proof {
        lemma_blend_is_between(a as int, b as int, t as int);
        assert(a * (unit - t) <= 255 * 1_000_000_000 && b * t <= 255 * 1_000_000_000)
            by (nonlinear_arith)
            requires
                a <= 255,
                b <= 255,
                0 <= t <= unit,
                unit == 1_000_000_000,
        ;
    }
    let weighted: u64 = (a as u64) * (unit - t) + (b as u64) * t;
    (weighted / unit) as u8
}

/// A blend lies between the two values that it blends.
pub proof fn lemma_blend_is_between(a: int, b: int, t: int)
    requires
        0 <= t <= SCALE,
    ensures
        a <= b ==> a <= blend(a, b, t) <= b,
        b <= a ==> b <= blend(a, b, t) <= a,
        blend(a, b, 0) == a,
        blend(a, b, SCALE as int) == b,
{
    let s: int = 1_000_000_000;
    let w = a * (s - t) + b * t;
    assert(w == a * s + (b - a) * t) by (nonlinear_arith)
        requires
            w == a * (s - t) + b * t,
    ;
    assert(w == b * s - (b - a) * (s - t)) by (nonlinear_arith)
        requires
            w == a * (s - t) + b * t,
    ;
    if a <= b {
        assert((b - a) * t >= 0 && (b - a) * (s - t) >= 0) by (nonlinear_arith)
            requires
                a <= b,
                0 <= t <= s,
        ;
    }
    if b <= a {
        assert((b - a) * t <= 0 && (b - a) * (s - t) <= 0) by (nonlinear_arith)
            requires
                b <= a,
                0 <= t <= s,
        ;
    }
    assert(a * (s - 0) + b * 0 == a * s) by (nonlinear_arith);
    assert(a * (s - s) + b * s == b * s) by (nonlinear_arith);
}

/// Moving the fraction by `u - t` moves a blend of two channel values by
/// no more than 255 times that much, plus one for rounding.
pub proof fn lemma_blend_is_lipschitz(a: int, b: int, t: int, u: int)
    requires
        0 <= a <= 255,
        0 <= b <= 255,
        0 <= t <= u <= SCALE,
    ensures
        blend(a, b, u) - blend(a, b, t) <= (255 * (u - t)) / (SCALE as int) + 1,
        blend(a, b, t) - blend(a, b, u) <= (255 * (u - t)) / (SCALE as int) + 1,
{
    let s: int = 1_000_000_000;
    let wt = a * (s - t) + b * t;
    let wu = a * (s - u) + b * u;
    assert(wu - wt == (b - a) * (u - t)) by (nonlinear_arith)
        requires
            wt == a * (s - t) + b * t,
            wu == a * (s - u) + b * u,
    ;
    assert(-255 * (u - t) <= (b - a) * (u - t) <= 255 * (u - t)) by (nonlinear_arith)
        requires
            -255 <= b - a <= 255,
            0 <= u - t,
    ;
}

/// Position 0 has exactly the first control point's colour and position 1
/// exactly the last one's.
pub proof fn lemma_sample_endpoints(colors: Seq<Color>)
    requires
        colors.len() > 0,
    ensures
        sample_color(colors, 0) == colors[0],
        sample_color(colors, SCALE as int) == colors[colors.len() - 1],
{
    let last = colors.len() - 1;
    assert(0 * last == 0);
    assert((1_000_000_000 * last) / 1_000_000_000 == last);
    if last > 0 {
        lemma_blend_is_between(colors[0].r as int, colors[1].r as int, 0);
        lemma_blend_is_between(colors[0].g as int, colors[1].g as int, 0);
        lemma_blend_is_between(colors[0].b as int, colors[1].b as int, 0);
    }
}

/// Between two neighbouring control points the colour is continuous in
/// the position: two positions that are `q - p` apart have colours whose
/// channels differ by no more than `255 * (len - 1) * (q - p)`, rounded
/// down, plus one.
pub proof fn lemma_sample_is_continuous(colors: Seq<Color>, p: int, q: int)
    requires
        colors.len() > 0,
        0 <= p <= q <= SCALE,
        segment_index(colors.len(), p) == segment_index(colors.len(), q),
    ensures
        ({
            let bound = (255 * ((colors.len() - 1) * (q - p))) / (SCALE as int) + 1;
            let at_p = sample_color(colors, p);
            let at_q = sample_color(colors, q);
            &&& -bound <= at_q.r - at_p.r <= bound
            &&& -bound <= at_q.g - at_p.g <= bound
            &&& -bound <= at_q.b - at_p.b <= bound
        }),
{
    let s: int = 1_000_000_000;
    let last = colors.len() - 1;
    let i = segment_index(colors.len(), p);
    let t = segment_offset(colors.len(), p);
    let u = segment_offset(colors.len(), q);
    assert(p * last <= q * last && 0 <= p * last) by (nonlinear_arith)
        requires
            0 <= p <= q,
            last >= 0,
    ;
    assert(q * last - p * last == last * (q - p)) by (nonlinear_arith);
    assert(i == (p * last) / s);
    assert(i == (q * last) / s);
    assert(t == (p * last) % s);
    assert(u == (q * last) % s);
    assert(u - t == last * (q - p));
    assert(0 <= 255 * (last * (q - p)));
    if i < last {
        let from = colors[i];
        let to = colors[i + 1];
        lemma_blend_is_lipschitz(from.r as int, to.r as int, t, u);
        lemma_blend_is_lipschitz(from.g as int, to.g as int, t, u);
        lemma_blend_is_lipschitz(from.b as int, to.b as int, t, u);
        lemma_blend_is_between(from.r as int, to.r as int, t);
        lemma_blend_is_between(from.g as int, to.g as int, t);
        lemma_blend_is_between(from.b as int, to.b as int, t);
        lemma_blend_is_between(from.r as int, to.r as int, u);
        lemma_blend_is_between(from.g as int, to.g as int, u);
        lemma_blend_is_between(from.b as int, to.b as int, u);
    }
}

} // verus!
