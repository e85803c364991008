//! The frozen configuration of a world, and the reasons for which one is
//! turned down.

use crate::fixed::{in_range, scale, saturated, scaled, LIMIT, ONE};
use crate::qt::Rect;
use crate::vector::Vec2;
use vstd::prelude::*;

verus! {

/// Why a world is not created.
#[derive(Clone, Copy, Debug, PartialEq, Eq, Structural)]
pub enum ConfigError {
    /// There is no culture.
    NoCultures,
    /// A culture would have no particle.
    NoParticles,
    /// There would be more than `u32::MAX` particles in all.
    TooManyParticles,
    /// The area of effect has no extent.
    NoReach,
    /// The world does not start at the origin, is less than one unit wide or
    /// high, or does not fit the storable range.
    BadBound,
    /// The opening threshold, the damping factor or the cursor force does not
    /// fit the storable range.
    Unrepresentable,
    /// The gravity mesh is not square.
    MeshShape,
    /// The text of the gravity mesh is not a JSON array of arrays of integers.
    MeshJson,
    /// The particles handed in are not as many as cultures times culture size,
    /// or one of them does not fit the storable range.
    BadParticles,
}

/// Everything that is fixed when a world is made.
#[derive(Clone, Debug)]
pub struct SimConfig {
    /// Whether forces are computed over the uniform grid, as on a graphics
    /// device, rather than by the Barnes-Hut approximation.
    pub gpu: bool,
    /// The gravity mesh as JSON text; a random mesh is drawn without it.
    pub mesh_json: Option<String>,
    /// The world rectangle, from the origin.
    pub bound: Rect,
    pub num_cultures: usize,
    pub culture_size: usize,
    /// Squared radius of the area of effect.
    pub aoe2: i64,
    /// Opening threshold of the Barnes-Hut approximation.
    pub theta: i64,
    pub damping: i64,
    /// Squared radius within which the pointer acts.
    pub cursor_aoe2: i64,
    pub cursor_force: i64,
    /// Whether the pointer acts at all.
    pub is_interactive: bool,
}

/// The world rectangle that is used where none is chosen: 1000 by 800 units.
pub open spec fn default_bound() -> Rect {
    Rect::spec_new(Vec2 { x: 0, y: 0 }, Vec2 { x: 65_536_000, y: 52_428_800 })
}

impl SimConfig {
    /// The reason, if any, for which no world is made from this configuration.
    /// Of several reasons the first in this order is given.
    pub open spec fn defect(self) -> Option<ConfigError> {
        if self.num_cultures == 0 {
            Some(ConfigError::NoCultures)
        } else if self.culture_size == 0 {
            Some(ConfigError::NoParticles)
        } else if self.num_cultures * self.culture_size > u32::MAX {
            Some(ConfigError::TooManyParticles)
        } else if self.aoe2 <= 0 {
            Some(ConfigError::NoReach)
        } else if !(self.bound.wf() && self.bound.start == (Vec2 { x: 0, y: 0 }) && self.bound.end.x
            >= ONE && self.bound.end.y >= ONE) {
            Some(ConfigError::BadBound)
        } else if !(in_range(self.theta as int) && in_range(self.damping as int) && in_range(
            self.cursor_force as int,
        )) {
            Some(ConfigError::Unrepresentable)
        } else {
            None
        }
    }

    /// A world can be made from this configuration.
    pub open spec fn valid(self) -> bool {
        self.defect() is None
    }

    /// Finds the reason, if any, for which no world is made from this
    /// configuration.
    pub fn check(&self) -> (r: Result<(), ConfigError>)
        ensures
            r is Ok <==> self.valid(),
            r matches Err(e) ==> self.defect() == Some(e),
    {
        if self.num_cultures == 0 {
            return Err(ConfigError::NoCultures);
        }
        if self.culture_size == 0 {
            return Err(ConfigError::NoParticles);
        }
        let many: bool = match self.num_cultures.checked_mul(self.culture_size) {
            Some(n) => n > u32::MAX as usize,
            None => true,
        };
        if many {
            return Err(ConfigError::TooManyParticles);
        }
        if self.aoe2 <= 0 {
            return Err(ConfigError::NoReach);
        }
        let b: &Rect = &self.bound;
        let storable: bool = -LIMIT <= b.start.x && b.start.x <= LIMIT && -LIMIT <= b.start.y
            && b.start.y <= LIMIT && -LIMIT <= b.end.x && b.end.x <= LIMIT && -LIMIT <= b.end.y
            && b.end.y <= LIMIT;
        if !storable || b.start.x != 0 || b.start.y != 0 || b.end.x < ONE || b.end.y < ONE {
            return Err(ConfigError::BadBound);
        }
        let again: Rect = Rect::new(b.start, b.end);
        if again.center.x != b.center.x || again.center.y != b.center.y {
            return Err(ConfigError::BadBound);
        }
        if !(within_limit(self.theta) && within_limit(self.damping) && within_limit(
            self.cursor_force,
        )) {
            return Err(ConfigError::Unrepresentable);
        }
        Ok(())
    }

    /// The configuration for a world of 1000 by 800 units with the given
    /// numbers, radii and factors, a random mesh, forces by the Barnes-Hut
    /// approximation, and an acting pointer.
    pub fn new(
        num_cultures: usize,
        culture_size: usize,
        aoe: i64,
        theta: i64,
        damping: i64,
        cursor_aoe: i64,
        cursor_force: i64,
    ) -> (c: SimConfig)
        ensures
            c.gpu == false,
            c.mesh_json is None,
            c.bound == default_bound(),
            c.num_cultures == num_cultures,
            c.culture_size == culture_size,
            c.aoe2 == saturated(scaled(aoe as int, aoe as int)),
            c.theta == theta,
            c.damping == damping,
            c.cursor_aoe2 == saturated(scaled(cursor_aoe as int, cursor_aoe as int)),
            c.cursor_force == cursor_force,
            c.is_interactive == true,
    {
        SimConfig {
            gpu: false,
            mesh_json: None,
            bound: Rect::new(Vec2 { x: 0, y: 0 }, Vec2 { x: 65_536_000, y: 52_428_800 }),
            num_cultures,
            culture_size,
            aoe2: scale(aoe, aoe),
            theta,
            damping,
            cursor_aoe2: scale(cursor_aoe, cursor_aoe),
            cursor_force,
            is_interactive: true,
        }
    }
}

/// Whether `x` fits the storable range.
pub fn within_limit(x: i64) -> (b: bool)
    ensures
        b == in_range(x as int),
{
    -LIMIT <= x && x <= LIMIT
}

impl Default for SimConfig {
    /// Five cultures of 5000 particles in a world of 1000 by 800 units, an
    /// area of effect of radius 100, an opening threshold of 0.9, a damping
    /// factor of one half, and a pointer that acts within a radius of 200 with
    /// a force of 400.
    fn default() -> (c: SimConfig)
        ensures
            c.gpu == false,
            c.mesh_json is None,
            c.bound == default_bound(),
            c.num_cultures == 5,
            c.culture_size == 5000,
            c.aoe2 == 10000 * ONE,
            c.theta == 58982,
            c.damping == 32768,
            c.cursor_aoe2 == 40000 * ONE,
            c.cursor_force == 400 * ONE,
            c.is_interactive == true,
            c.valid(),
    {
        proof {
            crate::qt::lemma_midpoint_between(0, 1000 * ONE);
            crate::qt::lemma_midpoint_between(0, 800 * ONE);
        }
        SimConfig {
            gpu: false,
            mesh_json: None,
            bound: Rect::new(Vec2 { x: 0, y: 0 }, Vec2 { x: 65_536_000, y: 52_428_800 }),
            num_cultures: 5,
            culture_size: 5000,
            aoe2: 10000 * ONE,
            theta: 58982,
            damping: 32768,
            cursor_aoe2: 40000 * ONE,
            cursor_force: 400 * ONE,
            is_interactive: true,
        }
    }
}

/// The settings that a user edits before they are frozen into a
/// configuration: radii rather than squared radii.
#[derive(Clone, Copy, Debug, PartialEq, Eq, Structural)]
pub struct Config {
    pub bound: Rect,
    pub num_cultures: usize,
    pub culture_size: usize,
    pub aoe: i64,
    pub theta: i64,
    pub damping: i64,
    pub cursor_aoe: i64,
    pub cursor_force: i64,
}

impl Config {
    /// The configuration of these settings: the same numbers and factors, the
    /// radii squared, a random mesh, forces by the Barnes-Hut approximation,
    /// and an acting pointer.
    pub fn freeze(&self) -> (c: SimConfig)
        ensures
            c.gpu == false,
            c.mesh_json is None,
            c.bound == self.bound,
            c.num_cultures == self.num_cultures,
            c.culture_size == self.culture_size,
            c.aoe2 == saturated(scaled(self.aoe as int, self.aoe as int)),
            c.theta == self.theta,
            c.damping == self.damping,
            c.cursor_aoe2 == saturated(scaled(self.cursor_aoe as int, self.cursor_aoe as int)),
            c.cursor_force == self.cursor_force,
            c.is_interactive == true,
    {
        SimConfig {
            gpu: false,
            mesh_json: None,
            bound: self.bound,
            num_cultures: self.num_cultures,
            culture_size: self.culture_size,
            aoe2: scale(self.aoe, self.aoe),
            theta: self.theta,
            damping: self.damping,
            cursor_aoe2: scale(self.cursor_aoe, self.cursor_aoe),
            cursor_force: self.cursor_force,
            is_interactive: true,
        }
    }
}

impl Default for Config {
    /// Five cultures of 5000 particles in a world of 1000 by 800 units, an
    /// area of effect of radius 100, an opening threshold of 0.9, a damping
    /// factor of one half, and a pointer that acts within a radius of 200 with
    /// a force of 400.
    fn default() -> (c: Config)
        ensures
            c == (Config {
                bound: default_bound(),
                num_cultures: 5,
                culture_size: 5000,
                aoe: 6_553_600,
                theta: 58982,
                damping: 32768,
                cursor_aoe: 13_107_200,
                cursor_force: 26_214_400,
            }),
    {
        Config {
            bound: Rect::new(Vec2 { x: 0, y: 0 }, Vec2 { x: 65_536_000, y: 52_428_800 }),
            num_cultures: 5,
            culture_size: 5000,
            aoe: 6_553_600,
            theta: 58982,
            damping: 32768,
            cursor_aoe: 13_107_200,
            cursor_force: 26_214_400,
        }
    }
}

/// The size and the title of the window in which a world is shown.
#[derive(Clone, Debug)]
pub struct WindowConf {
    pub window_title: String,
    pub window_width: i32,
    pub window_height: i32,
}

/// The window for a world of the given rectangle: one and a half pixels to
/// the unit, as far as a window can be that large.
pub fn window_conf(bound: &Rect) -> (conf: WindowConf)
    requires
        bound.wf(),
    ensures
        conf.window_title@ == "Particle Life"@,
        conf.window_width == window_pixels(bound.end.x as int),
        conf.window_height == window_pixels(bound.end.y as int),
{
    WindowConf {
        window_title: "Particle Life".to_string(),
        window_width: pixels_of(bound.end.x),
        window_height: pixels_of(bound.end.y),
    }
}

/// One and a half times the whole units of a raw extent, cut to what a
/// window size can hold.
pub open spec fn window_pixels(extent: int) -> int {
    let wide = crate::fixed::trunc_div(extent * 3, 2 * ONE);
    if wide < 0 {
        0
    } else if wide > i32::MAX {
        i32::MAX as int
    } else {
        wide
    }
}

fn pixels_of(extent: i64) -> (p: i32)
    requires
        in_range(extent as int),
    ensures
        p == window_pixels(extent as int),
{
    let wide: i128 = crate::fixed::div_trunc((extent as i128) * 3, 2 * (ONE as i128));
    if wide < 0 {
        0
    } else if wide > i32::MAX as i128 {
        i32::MAX
    } else {
        wide as i32
    }
}

} // verus!
