use crate::distance::UNITS_PER_TILE;
use crate::fraction::Fraction;
use vstd::prelude::*;

verus! {

/// The darkest shade is `MAX_SHADE_NUM / MAX_SHADE_DEN`.
pub const MAX_SHADE_NUM: u64 = 4;

pub const MAX_SHADE_DEN: u64 = 5;

/// The darkest shade a tile can have, four fifths.
pub open spec fn spec_max_shade() -> Fraction {
    Fraction { num: 4, den: 5 }
}

/// The darkest shade a tile can have, four fifths.
#[verifier::when_used_as_spec(spec_max_shade)]
pub fn max_shade() -> (shade: Fraction)
    ensures
        shade == spec_max_shade(),
{
    Fraction { num: MAX_SHADE_NUM, den: MAX_SHADE_DEN }
}

/// A light: a torch, a fire, a lamp. Its distances are in units of
/// `UNITS_PER_TILE` to the tile.
///
/// Up to `fall_off_distance` from the light nothing is shaded. Beyond it the
/// shade grows with the distance, by one for every `intensity` units.
#[derive(Clone, Copy, Debug)]
pub struct LightSource {
    /// Brightness: the distance over which the shade grows by one.
    pub intensity: u32,
    /// How far the light reaches before it starts to fade.
    pub fall_off_distance: u32,
    /// The angle that the light covers, in degrees.
    pub angle: i32,
    /// The distance from which on the light shows nothing.
    pub max_dist: u64,
}

impl LightSource {
    /// The reach of a light: the distance at which the shade arrives at
    /// the darkest shade, `4/5 * intensity + fall_off_distance`, rounded up
    /// to a whole number of tiles.
    pub open spec fn spec_max_dist(fall_off_distance: u32, intensity: u32) -> int {
        (4 * intensity + 5 * fall_off_distance + 4999) / 5000 * 1000
    }

    /// The light has some intensity, and its reach is the one that follows
    /// from its intensity and fall-off distance.
    pub open spec fn wf(&self) -> bool {
        &&& self.intensity > 0
        &&& self.max_dist == Self::spec_max_dist(self.fall_off_distance, self.intensity)
    }

    /// The shade at `distance` from the light, before any cap: zero up to
    /// the fall-off distance, then `(distance - fall_off_distance) / intensity`.
    pub open spec fn spec_shade_percent(&self, distance: int) -> Fraction {
        if distance <= self.fall_off_distance {
            Fraction { num: 0, den: 1 }
        } else {
            Fraction {
                num: (distance - self.fall_off_distance) as u64,
                den: self.intensity as u64,
            }
        }
    }

    /// A light in all directions.
    pub fn new(fall_off_distance: u32, intensity: u32) -> (light: Self)
        requires
            intensity > 0,
        ensures
            light.angle == 360,
            light.fall_off_distance == fall_off_distance,
            light.intensity == intensity,
            light.max_dist == Self::spec_max_dist(fall_off_distance, intensity),
            light.wf(),
    {
        let reach: u64 = MAX_SHADE_NUM * (intensity as u64) + MAX_SHADE_DEN * (
        fall_off_distance as u64);
        let tiles: u64 = (reach + (MAX_SHADE_DEN * UNITS_PER_TILE - 1)) / (MAX_SHADE_DEN
            * UNITS_PER_TILE);
        LightSource { angle: 360, fall_off_distance, intensity, max_dist: tiles * UNITS_PER_TILE }
    }

    /// The part of full shade that lies on a tile at `distance` from the
    /// light. The result is not capped at the darkest shade.
    pub fn calc_shade_percent(&self, distance: u64) -> (shade: Fraction)
        requires
            self.intensity > 0,
        ensures
            shade == self.spec_shade_percent(distance as int),
            shade.wf(),
    {
        if distance <= self.fall_off_distance as u64 {
            Fraction { num: 0, den: 1 }
        } else {
            Fraction { num: distance - self.fall_off_distance as u64, den: self.intensity as u64 }
        }
    }
}

/// The reach of a light is a whole number of tiles, the least one that is
/// not below `MAX_SHADE * intensity + fall_off_distance`.
pub proof fn lemma_max_dist_is_ceiling(fall_off_distance: u32, intensity: u32)
    ensures
        ({
            let reach = LightSource::spec_max_dist(fall_off_distance, intensity);
            let exact = MAX_SHADE_NUM * intensity + MAX_SHADE_DEN * fall_off_distance;
            &&& reach % (UNITS_PER_TILE as int) == 0
            &&& MAX_SHADE_DEN * reach >= exact
            &&& MAX_SHADE_DEN * (reach - UNITS_PER_TILE) < exact
        }),
{
}

/// Up to the fall-off distance the shade is zero.
pub proof fn lemma_no_shade_within_fall_off(light: LightSource, distance: int)
    requires
        distance <= light.fall_off_distance,
    ensures
        light.spec_shade_percent(distance).spec_is_zero(),
{
}

/// From the fall-off distance on the shade grows strictly with the
/// distance, at the rate of one for every `intensity` units: the shades at
/// `near` and `far` differ by `(far - near) / intensity`.
pub proof fn lemma_shade_grows(light: LightSource, near: int, far: int)
    requires
        light.intensity > 0,
        light.fall_off_distance <= near < far <= u64::MAX,
    ensures
        light.spec_shade_percent(near).spec_lt(&light.spec_shade_percent(far)),
        ({
            let low = light.spec_shade_percent(near);
            let high = light.spec_shade_percent(far);
            (high.num * low.den - low.num * high.den) * light.intensity == (far - near) * (low.den
                * high.den)
        }),
{
    let low = light.spec_shade_percent(near);
    let high = light.spec_shade_percent(far);
    let i = light.intensity as int;
    let f = light.fall_off_distance as int;
    assert(high.num == far - f && high.den == i);
    if near == f {
        assert(low.num == 0 && low.den == 1);
        assert(0 * i < (far - f) * 1) by (nonlinear_arith)
            requires
                far > f,
        ;
        assert(((far - f) * 1 - 0 * i) * i == (far - near) * (1 * i)) by (nonlinear_arith)
            requires
                near == f,
        ;
    } else {
        assert(low.num == near - f && low.den == i);
        assert((near - f) * i < (far - f) * i) by (nonlinear_arith)
            requires
                near < far,
                i > 0,
        ;
        assert(((far - f) * i - (near - f) * i) * i == (far - near) * (i * i))
            by (nonlinear_arith);
    }
}

} // verus!
