//! The escape-time rule: how many iterations of `z <- z^2 + c` it takes,
//! starting from zero, until `|z|` exceeds two.

use crate::fixed::{floor_div, SCALE};
use crate::viewport::ComplexPoint;
use vstd::prelude::*;

verus! {

/// The iteration budget that every evaluation of a run shares.
pub const DEFAULT_MAX_ITERATIONS: u32 = 10_000;

/// Raw value of the escape radius (2).
pub const ESCAPE_RADIUS: i64 = 2_000_000_000;

/// Square of the escape radius, in squared raw units.
pub const ESCAPE_RADIUS_SQUARED: i128 = 4_000_000_000_000_000_000;

/// Outcome of evaluating one point.
#[derive(Clone, Copy, Debug, PartialEq, Eq, Structural)]
pub enum IterationResult {
    /// The iterate first left the disc of radius two in the iteration with
    /// this index, counting from zero.
    Escaped(u32),
    /// The iterate stayed inside the disc through every iteration of the
    /// budget.
    Bounded,
}

/// Whether `z` lies outside the closed disc of radius two.
pub open spec fn has_escaped(z: (int, int)) -> bool {
    z.0 * z.0 + z.1 * z.1 > ESCAPE_RADIUS_SQUARED
}

/// `z^2 + c`, with each product rounded towards minus infinity. Both parts
/// are computed from the old `z`.
pub open spec fn next_iterate(z: (int, int), c: (int, int)) -> (int, int) {
    ((z.0 * z.0 - z.1 * z.1) / (SCALE as int) + c.0, (2 * z.0 * z.1) / (SCALE as int) + c.1)
}

/// The iterate after `k` iterations from zero.
pub open spec fn iterate(c: (int, int), k: nat) -> (int, int)
    decreases k,
{
    if k == 0 {
        (0, 0)
    } else {
        next_iterate(iterate(c, (k - 1) as nat), c)
    }
}

/// The outcome when only the iterations with index `from` and above are
/// looked at: the first of them below `max` whose result has escaped.
pub open spec fn first_escape(c: (int, int), from: nat, max: nat) -> IterationResult
    decreases max - from,
{
    if from >= max {
        IterationResult::Bounded
    } else if has_escaped(iterate(c, from + 1)) {
        IterationResult::Escaped(from as u32)
    } else {
        first_escape(c, from + 1, max)
    }
}

/// The outcome for the point `c` with a budget of `max` iterations.
pub open spec fn escape_time(c: (int, int), max: nat) -> IterationResult {
    first_escape(c, 0, max)
}

/// Whether a raw coordinate lies beyond the escape radius on its own axis.
pub open spec fn beyond_radius(v: int) -> bool {
    v > ESCAPE_RADIUS || v < -ESCAPE_RADIUS
}

/// Evaluates the point `point` with a budget of `max_iterations`
/// iterations.
pub fn evaluate(point: ComplexPoint, max_iterations: u32) -> (r: IterationResult)
    ensures
        r == escape_time(point@, max_iterations as nat),
        max_iterations > 0 && (beyond_radius(point.x@) || beyond_radius(point.y@)) ==> r
            == IterationResult::Escaped(0),
        point@ == (0int, 0int) ==> r == IterationResult::Bounded,
{
    proof {
        if max_iterations > 0 && (beyond_radius(point.x@) || beyond_radius(point.y@)) {
            lemma_far_point_escapes_at_once(point@, max_iterations as nat);
        }
        if point@ == (0int, 0int) {
            lemma_origin_is_bounded(max_iterations as nat);
        }
    }
    if max_iterations == 0 {
        return IterationResult::Bounded;
    }
    if point.x.raw > ESCAPE_RADIUS || point.x.raw < -ESCAPE_RADIUS || point.y.raw > ESCAPE_RADIUS
        || point.y.raw < -ESCAPE_RADIUS {
        return IterationResult::Escaped(0);
    }
    let cx: i128 = point.x.raw as i128;
    let cy: i128 = point.y.raw as i128;
    let mut x: i128 = 0;
    let mut y: i128 = 0;
    let mut n: u32 = 0;
    while n < max_iterations
        invariant
            n <= max_iterations,
            cx == point.x@,
            cy == point.y@,
            -ESCAPE_RADIUS <= cx <= ESCAPE_RADIUS,
            -ESCAPE_RADIUS <= cy <= ESCAPE_RADIUS,
            -ESCAPE_RADIUS <= x <= ESCAPE_RADIUS,
            -ESCAPE_RADIUS <= y <= ESCAPE_RADIUS,
            (x as int, y as int) == iterate(point@, n as nat),
            point@ == (0int, 0int) ==> escape_time(point@, max_iterations as nat)
                == IterationResult::Bounded,
            escape_time(point@, max_iterations as nat) == first_escape(
                point@,
                n as nat,
                max_iterations as nat,
            ),
        decreases max_iterations - n,
    {
        proof {
            lemma_products_within_radius(x as int, y as int);
        }
        let next_x: i128 = floor_div(x * x - y * y, SCALE as i128) + cx;
        let next_y: i128 = floor_div(2 * x * y, SCALE as i128) + cy;
        assert((next_x as int, next_y as int) == next_iterate((x as int, y as int), point@));
        proof {
            lemma_square_bound(next_x as int);
            lemma_square_bound(next_y as int);
        }
        if next_x * next_x + next_y * next_y > ESCAPE_RADIUS_SQUARED {
            return IterationResult::Escaped(n);
        }
        x = next_x;
        y = next_y;
        n = n + 1;
    }
    IterationResult::Bounded
}

/// Products of two coordinates inside the escape radius are bounded by its
/// square.
proof fn lemma_products_within_radius(x: int, y: int)
    requires
        -ESCAPE_RADIUS <= x <= ESCAPE_RADIUS,
        -ESCAPE_RADIUS <= y <= ESCAPE_RADIUS,
    ensures
        0 <= x * x <= ESCAPE_RADIUS_SQUARED,
        0 <= y * y <= ESCAPE_RADIUS_SQUARED,
        -ESCAPE_RADIUS_SQUARED <= x * y <= ESCAPE_RADIUS_SQUARED,
        2 * x * y == 2 * (x * y),
{
    assert(0 <= x * x <= 4_000_000_000_000_000_000) by (nonlinear_arith)
        requires
            -2_000_000_000 <= x <= 2_000_000_000,
    ;
    assert(0 <= y * y <= 4_000_000_000_000_000_000) by (nonlinear_arith)
        requires
            -2_000_000_000 <= y <= 2_000_000_000,
    ;
    assert(-4_000_000_000_000_000_000 <= x * y <= 4_000_000_000_000_000_000) by (nonlinear_arith)
        requires
            -2_000_000_000 <= x <= 2_000_000_000,
            -2_000_000_000 <= y <= 2_000_000_000,
    ;
    assert(2 * x * y == 2 * (x * y)) by (nonlinear_arith);
}

/// How the square of a coordinate compares with the square of the escape
/// radius.
proof fn lemma_square_bound(v: int)
    ensures
        0 <= v * v,
        beyond_radius(v) ==> v * v > ESCAPE_RADIUS_SQUARED,
        -10 * ESCAPE_RADIUS <= v <= 10 * ESCAPE_RADIUS ==> v * v <= 100 * ESCAPE_RADIUS_SQUARED,
{
    assert(0 <= v * v) by (nonlinear_arith);
    if v > 2_000_000_000 {
        assert(v * v > 4_000_000_000_000_000_000) by (nonlinear_arith)
            requires
                v > 2_000_000_000,
        ;
    }
    if v < -2_000_000_000 {
        assert(v * v > 4_000_000_000_000_000_000) by (nonlinear_arith)
            requires
                v < -2_000_000_000,
        ;
    }
    if -20_000_000_000 <= v <= 20_000_000_000 {
        assert(v * v <= 400_000_000_000_000_000_000) by (nonlinear_arith)
            requires
                -20_000_000_000 <= v <= 20_000_000_000,
        ;
    }
}

/// A point further than two from the origin along either axis escapes in
/// the very first iteration, whatever the budget, as long as there is one.
pub proof fn lemma_far_point_escapes_at_once(c: (int, int), max: nat)
    requires
        max > 0,
        beyond_radius(c.0) || beyond_radius(c.1),
    ensures
        escape_time(c, max) == IterationResult::Escaped(0),
{
    assert(iterate(c, 1) == next_iterate(iterate(c, 0), c));
    assert(iterate(c, 1) == c);
    lemma_square_bound(c.0);
    lemma_square_bound(c.1);
}

/// Zero is a fixed point of the iteration for the origin.
pub proof fn lemma_origin_stays_put(k: nat)
    ensures
        iterate((0, 0), k) == (0int, 0int),
    decreases k,
{
    if k > 0 {
        lemma_origin_stays_put((k - 1) as nat);
    }
}

proof fn lemma_origin_is_bounded_from(from: nat, max: nat)
    ensures
        first_escape((0, 0), from, max) == IterationResult::Bounded,
    decreases max - from,
{
    if from < max {
        lemma_origin_stays_put(from + 1);
        lemma_origin_is_bounded_from(from + 1, max);
    }
}

/// The origin is bounded for every budget.
pub proof fn lemma_origin_is_bounded(max: nat)
    ensures
        escape_time((0, 0), max) == IterationResult::Bounded,
{
    lemma_origin_is_bounded_from(0, max);
}

proof fn lemma_first_escape_is_least(c: (int, int), from: nat, max: nat)
    requires
        max <= u32::MAX,
    ensures
        match first_escape(c, from, max) {
            IterationResult::Escaped(n) => {
                &&& from <= n < max
                &&& has_escaped(iterate(c, (n + 1) as nat))
                &&& forall|k: nat| from <= k < n ==> !has_escaped(#[trigger] iterate(c, k + 1))
            },
            IterationResult::Bounded => forall|k: nat|
                from <= k < max ==> !has_escaped(#[trigger] iterate(c, k + 1)),
        },
    decreases max - from,
{
    if from < max && !has_escaped(iterate(c, from + 1)) {
        lemma_first_escape_is_least(c, from + 1, max);
    }
}

/// The outcome names the least index whose iteration escapes, and is
/// `Bounded` exactly when no iteration of the budget escapes.
pub proof fn lemma_escape_time_is_first_escape(c: (int, int), max: nat)
    requires
        max <= u32::MAX,
    ensures
        match escape_time(c, max) {
            IterationResult::Escaped(n) => {
                &&& n < max
                &&& has_escaped(iterate(c, (n + 1) as nat))
                &&& forall|k: nat| k < n ==> !has_escaped(#[trigger] iterate(c, k + 1))
            },
            IterationResult::Bounded => forall|k: nat|
                k < max ==> !has_escaped(#[trigger] iterate(c, k + 1)),
        },
{
    lemma_first_escape_is_least(c, 0, max);
}

proof fn lemma_larger_budget_from(c: (int, int), from: nat, max: nat, larger: nat)
    requires
        max <= larger,
    ensures
        first_escape(c, from, max) is Escaped ==> first_escape(c, from, larger) == first_escape(
            c,
            from,
            max,
        ),
        first_escape(c, from, larger) is Bounded ==> first_escape(c, from, max) is Bounded,
    decreases larger - from,
{
    if from < larger && !has_escaped(iterate(c, from + 1)) {
        lemma_larger_budget_from(c, from + 1, max, larger);
    }
}

/// A larger budget never changes an escape that a smaller one has found,
/// and a point that is bounded under a budget is bounded under every
/// smaller one.
pub proof fn lemma_larger_budget_keeps_escapes(c: (int, int), max: nat, larger: nat)
    requires
        max <= larger,
    ensures
        escape_time(c, max) is Escaped ==> escape_time(c, larger) == escape_time(c, max),
        escape_time(c, larger) is Bounded ==> escape_time(c, max) is Bounded,
{
    lemma_larger_budget_from(c, 0, max, larger);
}

/// The outcome depends on the point and the budget alone: equal inputs
/// have equal outcomes.
pub proof fn lemma_evaluation_is_deterministic(
    c: (int, int),
    max: nat,
    other_c: (int, int),
    other_max: nat,
)
    requires
        c == other_c,
        max == other_max,
    ensures
        escape_time(c, max) == escape_time(other_c, other_max),
{
}

} // verus!
