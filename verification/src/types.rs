//! Points, rectangles and factors of the parameter plane.
//!
//! Every coordinate and every distance is an integer number of resolution
//! units, chosen by the caller. A factor is a number of billionths.

use vstd::prelude::*;

verus! {

/// A parameter point `(p1, p2)`.
pub type Par = (i64, i64);

/// Largest absolute value of a coordinate that the engines work on.
pub const MAX_COORDINATE: i64 = 0x4000_0000_0000_0000;

/// Largest distance that the engines work on; it stands for "no bound".
pub const MAX_DISTANCE: u64 = 0x0100_0000_0000_0000;

/// The factor `1`, in billionths.
pub const UNIT_FACTOR: u64 = 1_000_000_000;

/// Both coordinates of `p` are within `MAX_COORDINATE` of zero.
pub open spec fn par_in_range(p: Par) -> bool {
    &&& -MAX_COORDINATE <= p.0 <= MAX_COORDINATE
    &&& -MAX_COORDINATE <= p.1 <= MAX_COORDINATE
}

/// Axis-aligned rectangle `[p1_min, p1_max] x [p2_min, p2_max]`: the search domain.
#[derive(Clone, Copy, Debug, PartialEq, Eq, Structural)]
pub struct Limits {
    pub p1_min: i64,
    pub p1_max: i64,
    pub p2_min: i64,
    pub p2_max: i64,
}

impl Limits {
    /// The rectangle is not empty and lies within the coordinate range.
    pub open spec fn wf(&self) -> bool {
        &&& -MAX_COORDINATE <= self.p1_min <= self.p1_max <= MAX_COORDINATE
        &&& -MAX_COORDINATE <= self.p2_min <= self.p2_max <= MAX_COORDINATE
    }

    /// Whether the rectangle is not empty and lies within the coordinate range.
    pub fn is_valid(&self) -> (valid: bool)
        ensures
            valid == self.wf(),
    {
        -MAX_COORDINATE <= self.p1_min && self.p1_min <= self.p1_max && self.p1_max
            <= MAX_COORDINATE && -MAX_COORDINATE <= self.p2_min && self.p2_min <= self.p2_max
            && self.p2_max <= MAX_COORDINATE
    }

    /// Extent of the rectangle along the first axis.
    pub open spec fn p1_span(&self) -> int {
        self.p1_max - self.p1_min
    }

    /// Extent of the rectangle along the second axis.
    pub open spec fn p2_span(&self) -> int {
        self.p2_max - self.p2_min
    }
}

/// `value * factor`, rounded down, for a factor in billionths.
pub open spec fn scaled(value: int, factor: int) -> int {
    (value * factor) / (UNIT_FACTOR as int)
}

/// Multiplies a distance by a factor of at most one.
pub fn scale(value: u64, factor: u64) -> (r: u64)
    requires
        factor <= UNIT_FACTOR,
    ensures
        r == scaled(value as int, factor as int),
        r <= value,
{
    proof {
        assert(value * factor <= 0xffff_ffff_ffff_ffff * 0xffff_ffff_ffff_ffff) by (nonlinear_arith)
            requires
                0 <= value <= 0xffff_ffff_ffff_ffff,
                0 <= factor <= 0xffff_ffff_ffff_ffff,
        ;
        assert(value * factor <= value * UNIT_FACTOR) by (nonlinear_arith)
            requires
                factor <= UNIT_FACTOR,
        ;
        assert((value * UNIT_FACTOR) / (UNIT_FACTOR as int) == value) by (nonlinear_arith);
        assert((value * factor) / (UNIT_FACTOR as int) <= (value * UNIT_FACTOR) / (
        UNIT_FACTOR as int)) by (nonlinear_arith)
            requires
                value * factor <= value * UNIT_FACTOR,
        ;
    }
    let product: u128 = (value as u128) * (factor as u128);
    (product / (UNIT_FACTOR as u128)) as u64
}

/// A direction in the plane: cosine and sine of its angle, in billionths.
pub type Direction = (i64, i64);

/// Neither component of `d` exceeds one in absolute value.
pub open spec fn direction_in_range(d: Direction) -> bool {
    &&& -(UNIT_FACTOR as int) <= d.0 <= UNIT_FACTOR as int
    &&& -(UNIT_FACTOR as int) <= d.1 <= UNIT_FACTOR as int
}

/// One family of systems, as the hooks that evaluate its characteristic function.
///
/// The frequency type `W` and the numerator sample type `N` belong to the
/// hooks: the engines carry such values and never read them.
///
/// * `f_norm(w, p)` is the modulus of the characteristic function at the
///   frequency `w` for the parameter point `p`;
/// * `line_fraction(n, w, p, direction, th_min, th_max)` divides the sample
///   `n` by the bound on the derivative along the ray from `p`, between the
///   distances `th_min` and `th_max`;
/// * `region_fraction_precalculated_numerator(numerator, w_logspace, p, eps)`
///   divides each sample by the bound on the gradient over the disk of radius
///   `eps` around `p`;
/// * `region_fraction(w_linspace, p, eps)` is the same ratio, evaluated anew on
///   each frequency of a grid;
/// * `linear_grid(a, b, n)` is the grid of `n` evenly spaced frequencies from
///   `a` to `b`.
pub struct System<FN, LF, RP, RF, LG> {
    pub name: String,
    pub parameters: (String, String),
    pub f_norm: FN,
    pub line_fraction: Option<LF>,
    pub region_fraction_precalculated_numerator: Option<RP>,
    pub region_fraction: Option<RF>,
    pub linear_grid: LG,
}

/// `value * factor` for a signed factor in billionths, rounded towards zero.
pub open spec fn scaled_signed(value: u64, factor: i64) -> int {
    if factor >= 0 {
        scaled(value as int, factor as int)
    } else {
        -scaled(value as int, -factor)
    }
}

/// Multiplies a distance by a signed factor of at most one in absolute value.
pub fn scale_signed(value: u64, factor: i64) -> (r: i64)
    requires
        value <= MAX_DISTANCE,
        -(UNIT_FACTOR as int) <= factor <= UNIT_FACTOR as int,
    ensures
        r == scaled_signed(value, factor),
        -(value as int) <= r <= value as int,
{
    if factor >= 0 {
        scale(value, factor as u64) as i64
    } else {
        -(scale(value, (-factor) as u64) as i64)
    }
}

/// The point at distance `theta` from `origin` in the direction `direction`.
pub open spec fn point_on_ray(origin: Par, direction: Direction, theta: u64) -> (int, int) {
    (
        origin.0 + scaled_signed(theta, direction.0),
        origin.1 + scaled_signed(theta, direction.1),
    )
}

/// The point at distance `theta` from `origin` in the direction `direction`.
pub fn get_point_on_ray(origin: Par, direction: Direction, theta: u64) -> (p: Par)
    requires
        par_in_range(origin),
        direction_in_range(direction),
        theta <= MAX_DISTANCE,
    ensures
        (p.0 as int, p.1 as int) == point_on_ray(origin, direction, theta),
{
    let p1_offset = scale_signed(theta, direction.0);
    let p2_offset = scale_signed(theta, direction.1);
    (origin.0 + p1_offset, origin.1 + p2_offset)
}

/// A longer distance has no shorter share: `scaled` grows with the value.
pub proof fn lemma_scaled_is_monotone(a: int, b: int, factor: int)
    requires
        0 <= a <= b,
        0 <= factor,
    ensures
        0 <= scaled(a, factor) <= scaled(b, factor),
{
    assert(0 <= a * factor <= b * factor) by (nonlinear_arith)
        requires
            0 <= a <= b,
            0 <= factor,
    ;
    vstd::arithmetic::div_mod::lemma_div_is_ordered(a * factor, b * factor, UNIT_FACTOR as int);
    vstd::arithmetic::div_mod::lemma_div_is_ordered(0, a * factor, UNIT_FACTOR as int);
}

/// In a rectangle that holds both ends of a ray, every point of the ray lies.
pub proof fn lemma_ray_stays_in_rectangle(
    limits: Limits,
    origin: Par,
    direction: Direction,
    theta: u64,
    far: u64,
)
    requires
        limits.wf(),
        theta <= far <= MAX_DISTANCE,
        limits.p1_min <= origin.0 <= limits.p1_max,
        limits.p2_min <= origin.1 <= limits.p2_max,
        direction_in_range(direction),
        limits.p1_min <= point_on_ray(origin, direction, far).0 <= limits.p1_max,
        limits.p2_min <= point_on_ray(origin, direction, far).1 <= limits.p2_max,
    ensures
        limits.p1_min <= point_on_ray(origin, direction, theta).0 <= limits.p1_max,
        limits.p2_min <= point_on_ray(origin, direction, theta).1 <= limits.p2_max,
{
    if direction.0 >= 0 {
        lemma_scaled_is_monotone(theta as int, far as int, direction.0 as int);
    } else {
        lemma_scaled_is_monotone(theta as int, far as int, -direction.0);
    }
    if direction.1 >= 0 {
        lemma_scaled_is_monotone(theta as int, far as int, direction.1 as int);
    } else {
        lemma_scaled_is_monotone(theta as int, far as int, -direction.1);
    }
}

/// A share is no longer than the whole: `scaled` by at most one does not grow.
pub proof fn lemma_scaled_shrinks(value: int, factor: int)
    requires
        0 <= value,
        0 <= factor <= UNIT_FACTOR,
    ensures
        0 <= scaled(value, factor) <= value,
        scaled(0, factor) == 0,
{
    assert(0 <= value * factor <= value * UNIT_FACTOR) by (nonlinear_arith)
        requires
            0 <= value,
            0 <= factor <= UNIT_FACTOR,
    ;
    vstd::arithmetic::div_mod::lemma_div_is_ordered(
        value * factor,
        value * UNIT_FACTOR,
        UNIT_FACTOR as int,
    );
    vstd::arithmetic::div_mod::lemma_div_is_ordered(0, value * factor, UNIT_FACTOR as int);
    assert((value * UNIT_FACTOR) / (UNIT_FACTOR as int) == value) by (nonlinear_arith);
    assert(0 * factor == 0) by (nonlinear_arith);
}

/// Whether neither component of `d` exceeds one in absolute value.
pub fn is_direction_in_range(d: Direction) -> (valid: bool)
    ensures
        valid == direction_in_range(d),
{
    -(UNIT_FACTOR as i64) <= d.0 && d.0 <= UNIT_FACTOR as i64 && -(UNIT_FACTOR as i64) <= d.1
        && d.1 <= UNIT_FACTOR as i64
}

/// Whether all of `directions` are in range.
pub fn are_directions_in_range(directions: &[Direction]) -> (valid: bool)
    ensures
        valid == (forall|i: int|
            0 <= i < directions@.len() ==> direction_in_range(#[trigger] directions@[i])),
{
    let mut i: usize = 0;
    while i < directions.len()
        invariant
            i <= directions@.len(),
            forall|k: int| 0 <= k < i ==> direction_in_range(#[trigger] directions@[k]),
        decreases directions@.len() - i,
    {
        if !is_direction_in_range(directions[i]) {
            return false;
        }
        i += 1;
    }
    true
}

} // verus!
