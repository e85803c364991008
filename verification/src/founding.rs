//! Making a world: from given parts, from random parts, and from a
//! configuration alone.

use crate::config::{ConfigError, SimConfig};
use crate::culture::{all_storable, Culture};
use crate::fixed::ONE;
use crate::mesh::{
    check_mesh, is_square, is_storable, mesh_defect, mesh_from_json, mesh_of_json, rows,
};
use crate::particle::Particle;
use crate::qt::QuadTree;
use crate::sim::{mesh_wf, tensor_wf, World};
use crate::util::{is_unit_mesh, random_color, random_gravity_mesh, Color};
use crate::vector::Vec2;
use vstd::prelude::*;

verus! {

/// There are `c` rows of `s` storable particles.
pub open spec fn particles_fit(particles: Seq<Vec<Particle>>, c: nat, s: nat) -> bool {
    &&& particles.len() == c
    &&& forall|i: int| 0 <= i < c ==> (#[trigger] particles[i])@.len() == s
    &&& forall|i: int| 0 <= i < c ==> all_storable((#[trigger] particles[i])@)
}

/// The reason, if any, for which no world is made of these parts. Of several
/// reasons the first in this order is given: a defect of the configuration, a
/// defect of the mesh, then colours or particles that are not as many as the
/// configuration says or are not storable.
pub open spec fn parts_defect(
    conf: SimConfig,
    mesh: Seq<Vec<i64>>,
    colors: Seq<Color>,
    particles: Seq<Vec<Particle>>,
) -> Option<ConfigError> {
    if conf.defect() is Some {
        conf.defect()
    } else if mesh_defect(rows(mesh), conf.num_cultures as nat) is Some {
        mesh_defect(rows(mesh), conf.num_cultures as nat)
    } else if !(colors.len() == conf.num_cultures && particles_fit(
        particles,
        conf.num_cultures as nat,
        conf.culture_size as nat,
    )) {
        Some(ConfigError::BadParticles)
    } else {
        None
    }
}

/// The configuration with the number of cultures that a given mesh has.
pub open spec fn adjusted(conf: SimConfig, mesh: Option<Seq<Seq<i64>>>) -> SimConfig {
    match mesh {
        Some(m) => SimConfig { num_cultures: m.len() as usize, ..conf },
        None => conf,
    }
}

/// The reason, if any, for which no world is founded on a configuration and,
/// possibly, a mesh: a defect of the configuration, once it has the number of
/// cultures of the mesh, or else a defect of the mesh.
pub open spec fn founding_defect(conf: SimConfig, mesh: Option<Seq<Seq<i64>>>) -> Option<
    ConfigError,
> {
    if adjusted(conf, mesh).defect() is Some {
        adjusted(conf, mesh).defect()
    } else {
        match mesh {
            Some(m) => mesh_defect(m, m.len()),
            None => None,
        }
    }
}

/// A world as it is founded: every particle at rest inside the world
/// rectangle, no forces stored, no tick made.
pub open spec fn is_fresh(w: World) -> bool {
    &&& w.wf()
    &&& w.i == 0
    &&& forall|c: int, k: int|
        0 <= c < w.conf.num_cultures && 0 <= k < w.conf.culture_size ==> {
            &&& w.conf.bound.has((#[trigger] w.particle(c, k)).pos)
            &&& w.particle(c, k).vel == (Vec2 { x: 0, y: 0 })
            &&& w.force_tensor@[c]@[k] == (Vec2 { x: 0, y: 0 })
            &&& w.cursor_force_tensor@[c]@[k] == (Vec2 { x: 0, y: 0 })
        }
}

/// Whether every particle of the row is storable.
fn row_storable(row: &Vec<Particle>) -> (b: bool)
    ensures
        b == all_storable(row@),
{
    let n: usize = row.len();
    let mut k: usize = 0;
    while k < n
        invariant
            k <= n,
            n == row@.len(),
            forall|a: int| 0 <= a < k ==> (#[trigger] row@[a]).wf(),
        decreases n - k,
    {
        let p: Particle = row[k];
        if !(crate::config::within_limit(p.pos.x) && crate::config::within_limit(p.pos.y)
            && crate::config::within_limit(p.vel.x) && crate::config::within_limit(p.vel.y)) {
            assert(!row@[k as int].wf());
            return false;
        }
        k += 1;
    }
    true
}

/// Whether there are `c` rows of `s` storable particles.
fn check_particles(particles: &Vec<Vec<Particle>>, c: usize, s: usize) -> (b: bool)
    ensures
        b == particles_fit(particles@, c as nat, s as nat),
{
    if particles.len() != c {
        return false;
    }
    let mut i: usize = 0;
    while i < c
        invariant
            i <= c,
            c == particles@.len(),
            forall|a: int| 0 <= a < i ==> (#[trigger] particles@[a])@.len() == s,
            forall|a: int| 0 <= a < i ==> all_storable((#[trigger] particles@[a])@),
        decreases c - i,
    {
        if particles[i].len() != s {
            assert(particles@[i as int]@.len() != s);
            return false;
        }
        if !row_storable(&particles[i]) {
            assert(!all_storable(particles@[i as int]@));
            return false;
        }
        i += 1;
    }
    true
}

/// A table of `c` rows of `s` zero forces.
fn zero_tensor(c: usize, s: usize) -> (t: Vec<Vec<Vec2>>)
    ensures
        tensor_wf(t@, c as nat, s as nat),
        forall|i: int, k: int|
            0 <= i < c && 0 <= k < s ==> #[trigger] t@[i]@[k] == (Vec2 { x: 0, y: 0 }),
{
    let mut t: Vec<Vec<Vec2>> = Vec::new();
    let mut i: usize = 0;
    while i < c
        invariant
            i <= c,
            tensor_wf(t@, i as nat, s as nat),
            forall|a: int, k: int|
                0 <= a < i && 0 <= k < s ==> #[trigger] t@[a]@[k] == (Vec2 { x: 0, y: 0 }),
        decreases c - i,
    {
        let mut row: Vec<Vec2> = Vec::new();
        let mut k: usize = 0;
        while k < s
            invariant
                k <= s,
                row@.len() == k,
                forall|b: int| 0 <= b < k ==> #[trigger] row@[b] == (Vec2 { x: 0, y: 0 }),
            decreases s - k,
        {
            row.push(Vec2 { x: 0, y: 0 });
            k += 1;
        }
        t.push(row);
        i += 1;
    }
    t
}

impl World {
    /// The world of the given parts: culture `c` has the colour `colors[c]`
    /// and the particles `particles[c]`, and an empty quadtree; no force is
    /// stored and no tick is made.
    pub fn with_particles(
        conf: SimConfig,
        mesh: Vec<Vec<i64>>,
        colors: Vec<Color>,
        particles: Vec<Vec<Particle>>,
    ) -> (r: Result<World, ConfigError>)
        ensures
            r is Ok <==> parts_defect(conf, mesh@, colors@, particles@) is None,
            r matches Err(e) ==> parts_defect(conf, mesh@, colors@, particles@) == Some(e),
            r matches Ok(w) ==> {
                &&& w.wf()
                &&& w.conf == conf
                &&& w.gravity_mesh == mesh
                &&& w.i == 0
                &&& forall|c: int|
                    0 <= c < conf.num_cultures ==> (#[trigger] w.cultures@[c]).color == colors@[c]
                        && w.cultures@[c].particles@ == particles@[c]@ && w.cultures@[c].qt == (
                    QuadTree::Empty { boundary: conf.bound })
                &&& forall|c: int, k: int|
                    0 <= c < conf.num_cultures && 0 <= k < conf.culture_size
                        ==> #[trigger] w.force_tensor@[c]@[k] == (Vec2 { x: 0, y: 0 })
                        && w.cursor_force_tensor@[c]@[k] == (Vec2 { x: 0, y: 0 })
            },
    {
        match conf.check() {
            Err(e) => {
                return Err(e);
            },
            Ok(_) => {},
        }
        match check_mesh(&mesh, conf.num_cultures) {
            Err(e) => {
                return Err(e);
            },
            Ok(_) => {},
        }
        if colors.len() != conf.num_cultures || !check_particles(
            &particles,
            conf.num_cultures,
            conf.culture_size,
        ) {
            return Err(ConfigError::BadParticles);
        }
        let n: usize = conf.num_cultures;
        let mut cultures: Vec<Culture> = Vec::new();
        let mut c: usize = 0;
        while c < n
            invariant
                c <= n,
                n == conf.num_cultures,
                colors@.len() == n,
                particles_fit(particles@, n as nat, conf.culture_size as nat),
                cultures@.len() == c,
                forall|a: int|
                    0 <= a < c ==> (#[trigger] cultures@[a]).color == colors@[a]
                        && cultures@[a].particles@ == particles@[a]@ && cultures@[a].qt == (
                    QuadTree::Empty { boundary: conf.bound }),
            decreases n - c,
        {
            let row: Vec<Particle> = copy_row(&particles[c]);
            cultures.push(
                Culture {
                    color: colors[c],
                    particles: row,
                    qt: QuadTree::Empty { boundary: conf.bound },
                },
            );
            c += 1;
        }
        let force_tensor = zero_tensor(n, conf.culture_size);
        let cursor_force_tensor = zero_tensor(n, conf.culture_size);
        proof {
            assert(mesh_wf(mesh@, n as nat)) by {
                let r = rows(mesh@);
                assert forall|i: int| 0 <= i < n implies (#[trigger] mesh@[i])@.len() == n by {
                    assert(r[i].len() == n);
                }
                assert forall|i: int, j: int|
                    0 <= i < n && 0 <= j < n implies crate::fixed::in_range(
                    #[trigger] mesh@[i]@[j] as int,
                ) by {
                    assert(r[i].len() == n);
                    assert(crate::fixed::in_range(r[i][j] as int));
                }
            }
        }
        let w = World { conf, cultures, gravity_mesh: mesh, force_tensor, cursor_force_tensor, i: 0 };
        proof {
            assert forall|a: int| 0 <= a < w.cultures@.len() implies (#[trigger] w.cultures@[a]).particles@.len()
                == w.conf.culture_size by {
                assert(particles@[a]@.len() == conf.culture_size);
            }
            assert forall|a: int| 0 <= a < w.cultures@.len() implies all_storable(
                (#[trigger] w.cultures@[a]).particles@,
            ) by {
                assert(all_storable(particles@[a]@));
            }
        }
        Ok(w)
    }

    /// A world founded on a configuration and, possibly, a mesh, with
    /// random colours and with particles at rest at random whole-unit
    /// positions. A given mesh decides the number of cultures; without one, a
    /// random mesh is drawn with coefficients between minus one and one.
    pub fn populate(conf: SimConfig, mesh: Option<Vec<Vec<i64>>>) -> (r: Result<
        World,
        ConfigError,
    >)
        ensures
            r is Ok <==> founding_defect(conf, spec_rows(mesh)) is None,
            r matches Err(e) ==> founding_defect(conf, spec_rows(mesh)) == Some(e),
            r matches Ok(w) ==> {
                &&& is_fresh(w)
                &&& w.conf == adjusted(conf, spec_rows(mesh))
                &&& mesh matches Some(m) ==> w.gravity_mesh == m
                &&& mesh is None ==> is_unit_mesh(w.gravity_mesh@, w.conf.num_cultures as nat)
            },
    {
        let mut conf = conf;
        let ghost given = conf;
        if let Some(m) = &mesh {
            conf.num_cultures = m.len();
        }
        match conf.check() {
            Err(e) => {
                return Err(e);
            },
            Ok(_) => {},
        }
        let n: usize = conf.num_cultures;
        let size: usize = conf.culture_size;
        let mesh: Vec<Vec<i64>> = match mesh {
            Some(m) => {
                match check_mesh(&m, n) {
                    Err(e) => {
                        return Err(e);
                    },
                    Ok(_) => {},
                }
                m
            },
            None => {
                let m = random_gravity_mesh(n);
                proof {
                    let r = rows(m@);
                    assert(is_square(r, n as nat)) by {
                        assert forall|i: int| 0 <= i < n implies (#[trigger] r[i]).len() == n by {
                            assert(m@[i].len() == n);
                        }
                    }
                    assert(is_storable(r)) by {
                        assert forall|i: int, j: int|
                            0 <= i < r.len() && 0 <= j < r[i].len() implies crate::fixed::in_range(
                            #[trigger] r[i][j] as int,
                        ) by {
                            assert(m@[i].len() == n);
                            assert(-ONE <= m@[i][j] <= ONE);
                        }
                    }
                }
                m
            },
        };
        let mut colors: Vec<Color> = Vec::new();
        let mut particles: Vec<Vec<Particle>> = Vec::new();
        let mut c: usize = 0;
        while c < n
            invariant
                c <= n,
                conf.valid(),
                colors@.len() == c,
                particles_fit(particles@, c as nat, size as nat),
                forall|a: int, k: int|
                    0 <= a < c && 0 <= k < size ==> conf.bound.has(
                        (#[trigger] particles@[a]@[k]).pos,
                    ) && particles@[a]@[k].vel == (Vec2 { x: 0, y: 0 }),
            decreases n - c,
        {
            let color: Color = random_color();
            let culture: Culture = Culture::new(color, size, conf.bound);
            colors.push(color);
            particles.push(culture.particles);
            c += 1;
        }
        let ghost placed = particles@;
        let r = World::with_particles(conf, mesh, colors, particles);
        proof {
            if r is Ok {
                let w = r->Ok_0;
                assert forall|c: int, k: int|
                    0 <= c < w.conf.num_cultures && 0 <= k < w.conf.culture_size implies {
                    &&& w.conf.bound.has((#[trigger] w.particle(c, k)).pos)
                    &&& w.particle(c, k).vel == (Vec2 { x: 0, y: 0 })
                    &&& w.force_tensor@[c]@[k] == (Vec2 { x: 0, y: 0 })
                    &&& w.cursor_force_tensor@[c]@[k] == (Vec2 { x: 0, y: 0 })
                } by {
                    assert(w.conf == conf);
                    assert(w.cultures@[c].particles@ == placed[c]@);
                    assert(w.particle(c, k) == placed[c]@[k]);
                    assert(conf.bound.has(placed[c]@[k].pos));
                    assert(placed[c]@[k].vel == (Vec2 { x: 0, y: 0 }));
                    assert(w.force_tensor@[c]@[k] == (Vec2 { x: 0, y: 0 }));
                    assert(w.cursor_force_tensor@[c]@[k] == (Vec2 { x: 0, y: 0 }));
                }
            }
        }
        r
    }

    /// A world founded on a configuration alone. Where the configuration
    /// holds the text of a mesh, the mesh is read from it and decides the
    /// number of cultures; otherwise a random mesh is drawn.
    pub fn new(conf: SimConfig) -> (r: Result<World, ConfigError>)
        ensures
            conf.mesh_json matches Some(text) && mesh_of_json(text@) is None ==> r == Err::<
                World,
                ConfigError,
            >(ConfigError::MeshJson),
            !(conf.mesh_json matches Some(text) && mesh_of_json(text@) is None) ==> {
                let mesh = match conf.mesh_json {
                    Some(text) => mesh_of_json(text@),
                    None => None,
                };
                &&& r is Ok <==> founding_defect(conf, mesh) is None
                &&& r matches Err(e) ==> founding_defect(conf, mesh) == Some(e)
                &&& r matches Ok(w) ==> {
                    &&& is_fresh(w)
                    &&& w.conf == adjusted(conf, mesh)
                    &&& mesh matches Some(m) ==> rows(w.gravity_mesh@) == m
                    &&& mesh is None ==> is_unit_mesh(w.gravity_mesh@, w.conf.num_cultures as nat)
                }
            },
    {
        let parsed: Option<Result<Vec<Vec<i64>>, serde_json::Error>> = match &conf.mesh_json {
            Some(text) => Some(mesh_from_json(text.as_str())),
            None => None,
        };
        match parsed {
            Some(Err(_)) => Err(ConfigError::MeshJson),
            Some(Ok(m)) => World::populate(conf, Some(m)),
            None => World::populate(conf, None),
        }
    }
}

/// The rows of a mesh, if there is one.
pub open spec fn spec_rows(mesh: Option<Vec<Vec<i64>>>) -> Option<Seq<Seq<i64>>> {
    match mesh {
        Some(m) => Some(rows(m@)),
        None => None,
    }
}

/// A copy of a row of particles.
fn copy_row(row: &Vec<Particle>) -> (out: Vec<Particle>)
    ensures
        out@ == row@,
{
    let mut out: Vec<Particle> = Vec::new();
    let n: usize = row.len();
    let mut k: usize = 0;
    while k < n
        invariant
            k <= n,
            n == row@.len(),
            out@ == row@.take(k as int),
        decreases n - k,
    {
        out.push(row[k]);
        assert(row@.take(k + 1) =~= row@.take(k as int).push(row@[k as int]));
        k += 1;
    }
    assert(row@.take(n as int) =~= row@);
    out
}

/// Whether a table of forces has `c` rows of `s` storable entries.
fn check_tensor(t: &Vec<Vec<Vec2>>, c: usize, s: usize) -> (b: bool)
    ensures
        b == tensor_wf(t@, c as nat, s as nat),
{
    if t.len() != c {
        return false;
    }
    let mut i: usize = 0;
    while i < c
        invariant
            i <= c,
            c == t@.len(),
            forall|a: int| 0 <= a < i ==> (#[trigger] t@[a])@.len() == s,
            forall|a: int, k: int| 0 <= a < i && 0 <= k < s ==> (#[trigger] t@[a]@[k]).in_range(),
        decreases c - i,
    {
        if t[i].len() != s {
            assert(t@[i as int]@.len() != s);
            return false;
        }
        let mut k: usize = 0;
        while k < s
            invariant
                i < c,
                k <= s,
                c == t@.len(),
                t@[i as int]@.len() == s,
                forall|b: int| 0 <= b < k ==> (#[trigger] t@[i as int]@[b]).in_range(),
            decreases s - k,
        {
            let v: Vec2 = t[i][k];
            if !(crate::config::within_limit(v.x) && crate::config::within_limit(v.y)) {
                assert(!t@[i as int]@[k as int].in_range());
                return false;
            }
            k += 1;
        }
        i += 1;
    }
    true
}

impl World {
    /// Whether the world is well-formed. A world that was made by this
    /// library and changed by it alone is.
    pub fn is_well_formed(&self) -> (b: bool)
        ensures
            b == self.wf(),
    {
        if self.conf.check().is_err() {
            return false;
        }
        let n: usize = self.conf.num_cultures;
        let s: usize = self.conf.culture_size;
        if self.cultures.len() != n {
            return false;
        }
        let mut c: usize = 0;
        while c < n
            invariant
                c <= n,
                n == self.cultures@.len(),
                n == self.conf.num_cultures,
                s == self.conf.culture_size,
                self.conf.valid(),
                forall|a: int| 0 <= a < c ==> (#[trigger] self.cultures@[a]).particles@.len() == s,
                forall|a: int| 0 <= a < c ==> all_storable((#[trigger] self.cultures@[a]).particles@),
            decreases n - c,
        {
            if self.cultures[c].particles.len() != s {
                assert(self.cultures@[c as int].particles@.len() != s);
                return false;
            }
            if !row_storable(&self.cultures[c].particles) {
                assert(!all_storable(self.cultures@[c as int].particles@));
                return false;
            }
            c += 1;
        }
        let mesh_fine: bool = check_mesh(&self.gravity_mesh, n).is_ok();
        proof {
            let r = rows(self.gravity_mesh@);
            if mesh_fine {
                assert(mesh_wf(self.gravity_mesh@, n as nat)) by {
                    assert forall|i: int| 0 <= i < n implies (#[trigger] self.gravity_mesh@[i])@.len()
                        == n by {
                        assert(r[i].len() == n);
                    }
                    assert forall|i: int, j: int|
                        0 <= i < n && 0 <= j < n implies crate::fixed::in_range(
                        #[trigger] self.gravity_mesh@[i]@[j] as int,
                    ) by {
                        assert(r[i].len() == n);
                        assert(crate::fixed::in_range(r[i][j] as int));
                    }
                }
            } else if mesh_wf(self.gravity_mesh@, n as nat) {
                assert(is_square(r, n as nat)) by {
                    assert forall|i: int| 0 <= i < n implies (#[trigger] r[i]).len() == n by {
                        assert(self.gravity_mesh@[i]@.len() == n);
                    }
                }
                assert(is_storable(r)) by {
                    assert forall|i: int, j: int|
                        0 <= i < r.len() && 0 <= j < r[i].len() implies crate::fixed::in_range(
                        #[trigger] r[i][j] as int,
                    ) by {
                        assert(self.gravity_mesh@[i]@.len() == n);
                        assert(crate::fixed::in_range(self.gravity_mesh@[i]@[j] as int));
                    }
                }
            }
        }
        if !mesh_fine {
            return false;
        }
        check_tensor(&self.force_tensor, n, s) && check_tensor(&self.cursor_force_tensor, n, s)
    }
}

} // verus!
