//! The parameters that a graphics device is given, and the measures of the
//! uniform grid among them.

use crate::config::{within_limit, ConfigError, SimConfig};
use crate::fixed::{
    in_range, isqrt, lemma_isqrt_exists, saturated, scale, scaled, sqrt_floor, LIMIT, ONE,
};
use crate::vector::Vec2;
use vstd::prelude::*;

verus! {

/// Number of cells along a side of a grid over `extent` whose cells are at
/// most twice `reach` wide: `extent / (2 * reach)`, rounded up.
pub open spec fn spec_grid_width(extent: int, reach: int) -> int {
    (extent + 2 * reach - 1) / (2 * reach)
}

/// Side of the cells of a grid over `extent`.
pub open spec fn spec_bin_size(extent: int, reach: int) -> int {
    extent / spec_grid_width(extent, reach)
}

/// The radius that belongs to a squared radius: both are raw fixed-point
/// values, and the radius is rounded down.
pub open spec fn spec_reach(aoe2: int) -> int {
    isqrt(aoe2 * ONE)
}

/// A grid has at least one cell; its cells are at least one raw unit and at
/// most twice `reach` wide; and unless the grid is a single cell, they are at
/// least `reach` wide.
pub proof fn lemma_grid_measures(extent: int, reach: int)
    requires
        extent >= 1,
        reach >= 1,
    ensures
        1 <= spec_grid_width(extent, reach) <= extent,
        1 <= spec_bin_size(extent, reach) <= 2 * reach,
        spec_grid_width(extent, reach) == 1 || reach <= spec_bin_size(extent, reach),
{
    let d = 2 * reach;
    let n = extent + d - 1;
    let gw = n / d;
    assert(gw * d <= n < gw * d + d) by (nonlinear_arith)
        requires
            d > 0,
            gw == n / d,
    ;
    assert(1 <= gw <= extent) by (nonlinear_arith)
        requires
            gw * d <= extent + d - 1 < gw * d + d,
            d >= 2,
            extent >= 1,
    ;
    let bin = extent / gw;
    assert(bin * gw <= extent < bin * gw + gw) by (nonlinear_arith)
        requires
            gw > 0,
            bin == extent / gw,
    ;
    assert(1 <= bin <= d) by (nonlinear_arith)
        requires
            bin * gw <= extent < bin * gw + gw,
            gw * d <= extent + d - 1 < gw * d + d,
            1 <= gw <= extent,
            d >= 2,
    ;
    if gw >= 2 {
        assert(reach <= bin) by (nonlinear_arith)
            requires
                bin * gw <= extent < bin * gw + gw,
                gw * d <= extent + d - 1,
                gw >= 2,
                d == 2 * reach,
                reach >= 1,
        ;
    }
}

/// Number of cells along a side of a grid over `extent`, and the side of a
/// cell.
pub fn grid_measures(extent: i64, reach: i64) -> (r: (u64, i64))
    requires
        1 <= extent <= LIMIT,
        1 <= reach <= LIMIT,
    ensures
        r.0 == spec_grid_width(extent as int, reach as int),
        r.1 == spec_bin_size(extent as int, reach as int),
        1 <= r.0 <= extent,
        1 <= r.1,
        r.0 == 1 || reach <= r.1,
{
    proof {
        lemma_grid_measures(extent as int, reach as int);
    }
    let d: i64 = 2 * reach;
    let gw: i64 = (extent + d - 1) / d;
    (gw as u64, extent / gw)
}

/// The radius that belongs to a squared radius.
pub fn reach_of(aoe2: i64) -> (r: i64)
    requires
        aoe2 > 0,
    ensures
        r == spec_reach(aoe2 as int),
        1 <= r <= LIMIT,
        r * r <= aoe2 * ONE < (r + 1) * (r + 1),
{
    assert(0 < aoe2 * ONE <= 0x7fff_ffff_ffff_ffff * 65536) by (nonlinear_arith)
        requires
            0 < aoe2 <= 0x7fff_ffff_ffff_ffff,
            ONE == 65536,
    ;
    let wide: u128 = (aoe2 as u128) * (ONE as u128);
    let r: u64 = sqrt_floor(wide);
    proof {
        lemma_isqrt_exists(wide as int);
        if r > LIMIT {
            assert(r * r >= (LIMIT + 1) * (LIMIT + 1)) by (nonlinear_arith)
                requires
                    r >= LIMIT + 1,
                    LIMIT >= 0,
            ;
        }
    }
    r as i64
}

/// What a graphics device is told of a simulation.
#[derive(Clone, Copy, Debug, PartialEq, Eq, Structural)]
pub struct GpuParams {
    /// Extent of the world along each axis.
    pub bound: Vec2,
    pub num_cultures: u32,
    pub culture_size: u32,
    pub num_particles: u32,
    /// Radius of the area of effect.
    pub aoe: i64,
    /// Squared radius of the area of effect.
    pub aoe2: i64,
    /// Squared opening threshold.
    pub theta2: i64,
    pub damping: i64,
    /// Side of a cell of the uniform grid.
    pub bin_size: i64,
    /// Number of cells along a side of the uniform grid.
    pub grid_w: u32,
}

/// The reason, if any, for which there are no parameters for these numbers.
pub open spec fn params_defect(num_cultures: u32, culture_size: u32, aoe: i64, damping: i64) -> Option<
    ConfigError,
> {
    if num_cultures == 0 {
        Some(ConfigError::NoCultures)
    } else if culture_size == 0 {
        Some(ConfigError::NoParticles)
    } else if num_cultures * culture_size > u32::MAX {
        Some(ConfigError::TooManyParticles)
    } else if aoe <= 0 {
        Some(ConfigError::NoReach)
    } else if !(in_range(aoe as int) && in_range(damping as int)) {
        Some(ConfigError::Unrepresentable)
    } else {
        None
    }
}

/// Extent, along each axis, of the world of a simulation on a graphics
/// device: 1000 units.
pub const DEVICE_EXTENT: i64 = 65_536_000;

impl GpuParams {
    /// The parameters of a simulation of `num_cultures` cultures of
    /// `culture_size` particles in a world of 1000 by 1000 units, with an area
    /// of effect of radius `aoe`, without an opening threshold.
    pub fn new(num_cultures: u32, culture_size: u32, aoe: i64, damping: i64) -> (r: Result<
        GpuParams,
        ConfigError,
    >)
        ensures
            r is Ok <==> params_defect(num_cultures, culture_size, aoe, damping) is None,
            r matches Err(e) ==> params_defect(num_cultures, culture_size, aoe, damping) == Some(e),
            r matches Ok(p) ==> p == (GpuParams {
                bound: Vec2 { x: DEVICE_EXTENT, y: DEVICE_EXTENT },
                num_cultures,
                culture_size,
                num_particles: (num_cultures * culture_size) as u32,
                aoe,
                aoe2: saturated(scaled(aoe as int, aoe as int)) as i64,
                theta2: 0,
                damping,
                bin_size: spec_bin_size(DEVICE_EXTENT as int, aoe as int) as i64,
                grid_w: spec_grid_width(DEVICE_EXTENT as int, aoe as int) as u32,
            }),
    {
        if num_cultures == 0 {
            return Err(ConfigError::NoCultures);
        }
        if culture_size == 0 {
            return Err(ConfigError::NoParticles);
        }
        let num_particles: u32 = match num_cultures.checked_mul(culture_size) {
            Some(n) => n,
            None => {
                return Err(ConfigError::TooManyParticles);
            },
        };
        if aoe <= 0 {
            return Err(ConfigError::NoReach);
        }
        if !(within_limit(aoe) && within_limit(damping)) {
            return Err(ConfigError::Unrepresentable);
        }
        let (grid_w, bin_size) = grid_measures(DEVICE_EXTENT, aoe);
        Ok(
            GpuParams {
                bound: Vec2 { x: DEVICE_EXTENT, y: DEVICE_EXTENT },
                num_cultures,
                culture_size,
                num_particles,
                aoe,
                aoe2: scale(aoe, aoe),
                theta2: 0,
                damping,
                bin_size,
                grid_w: grid_w as u32,
            },
        )
    }
}

impl SimConfig {
    /// What a graphics device is told of a simulation with this
    /// configuration.
    pub fn gpu_params(&self) -> (p: GpuParams)
        requires
            self.valid(),
        ensures
            p == (GpuParams {
                bound: self.bound.end,
                num_cultures: self.num_cultures as u32,
                culture_size: self.culture_size as u32,
                num_particles: (self.num_cultures * self.culture_size) as u32,
                aoe: spec_reach(self.aoe2 as int) as i64,
                aoe2: self.aoe2,
                theta2: saturated(scaled(self.theta as int, self.theta as int)) as i64,
                damping: self.damping,
                bin_size: spec_bin_size(self.bound.end.x as int, spec_reach(self.aoe2 as int)) as i64,
                grid_w: spec_grid_width(self.bound.end.x as int, spec_reach(self.aoe2 as int)) as u32,
            }),
    {
        let aoe: i64 = reach_of(self.aoe2);
        let (grid_w, bin_size) = grid_measures(self.bound.end.x, aoe);
        proof {
            let (c, s) = (self.num_cultures as int, self.culture_size as int);
            assert(c <= c * s && s <= c * s) by (nonlinear_arith)
                requires
                    c >= 1,
                    s >= 1,
            ;
        }
        GpuParams {
            bound: self.bound.end,
            num_cultures: self.num_cultures as u32,
            culture_size: self.culture_size as u32,
            num_particles: (self.num_cultures * self.culture_size) as u32,
            aoe,
            aoe2: self.aoe2,
            theta2: scale(self.theta, self.theta),
            damping: self.damping,
            bin_size,
            grid_w: grid_w as u32,
        }
    }
}

/// A particle as a graphics device holds it.
#[derive(Clone, Copy, Debug, PartialEq, Eq, Structural)]
pub struct GpuParticle {
    pub pos: Vec2,
    pub vel: Vec2,
}

impl GpuParticle {
    /// A particle at a random position of the world from the origin to
    /// `bound`, with a random velocity of less than one unit along each axis.
    pub fn new(bound: Vec2) -> (p: GpuParticle)
        requires
            bound.x >= 1,
            bound.y >= 1,
        ensures
            0 <= p.pos.x < bound.x,
            0 <= p.pos.y < bound.y,
            -ONE <= p.vel.x < ONE,
            -ONE <= p.vel.y < ONE,
    {
        GpuParticle::moving(
            Vec2 {
                x: crate::util::random_between(0, bound.x - 1),
                y: crate::util::random_between(0, bound.y - 1),
            },
            Vec2 {
                x: crate::util::random_between(-ONE, ONE - 1),
                y: crate::util::random_between(-ONE, ONE - 1),
            },
        )
    }
}

/// Number of particles that one workgroup of a graphics device handles.
pub const WORKGROUP_SIZE: u32 = 64;

impl GpuParams {
    /// Number of workgroups that together handle every particle: the number
    /// of particles over the size of a workgroup, rounded up.
    pub fn workgroup_count(&self) -> (n: u32)
        ensures
            n == (self.num_particles + WORKGROUP_SIZE - 1) / (WORKGROUP_SIZE as int),
            n * WORKGROUP_SIZE >= self.num_particles,
            self.num_particles > 0 ==> (n - 1) * WORKGROUP_SIZE < self.num_particles,
    {
        let n: u64 = (self.num_particles as u64 + 63) / 64;
        n as u32
    }
}

impl GpuParticle {
    /// The particle at `pos` that moves with the velocity `vel`.
    pub fn moving(pos: Vec2, vel: Vec2) -> (p: GpuParticle)
        ensures
            p == (GpuParticle { pos, vel }),
    {
        GpuParticle { pos, vel }
    }
}

} // verus!
