//! Random colours and random gravity meshes.

use crate::fixed::ONE;
use rand::Rng;
use rand_distr::{Distribution, Uniform};
use random_color::RandomColor;
use vstd::prelude::*;

verus! {

/// A colour with eight bits for each of red, green, blue and opacity.
#[derive(Clone, Copy, Debug, PartialEq, Eq, Structural)]
pub struct Color {
    pub r: u8,
    pub g: u8,
    pub b: u8,
    pub a: u8,
}

/// Calls `RandomColor::new().into_rgba_array()` of the crate `random_color`.
/// The generator is made with an opacity of one, which the crate turns into
/// the byte 255; nothing is claimed of the three colour bytes.
#[verifier::external_body]
fn random_rgba() -> (c: [u8; 4])
    ensures
        c[3] == 255,
{
    RandomColor::new().into_rgba_array()
}

/// Calls `random_range` of the crate `rand` on the thread's generator, with
/// the range from zero up to and excluding `n`. The crate panics on an empty
/// range and otherwise returns a member of the range.
#[verifier::external_body]
pub(crate) fn random_below(n: u32) -> (r: u32)
    requires
        n > 0,
    ensures
        r < n,
{
    rand::rng().random_range(0..n)
}

/// Samples `Uniform::new_inclusive(lo, hi)` of the crate `rand_distr` with the
/// thread's generator. The distribution exists exactly if `lo <= hi`, and a
/// sample is a member of the closed range.
#[verifier::external_body]
pub(crate) fn random_between(lo: i64, hi: i64) -> (r: i64)
    requires
        lo <= hi,
    ensures
        lo <= r <= hi,
{
    Uniform::new_inclusive(lo, hi).unwrap().sample(&mut rand::rng())
}

/// `mesh` has `n` rows of `n` coefficients, each between minus one and one.
pub open spec fn is_unit_mesh(mesh: Seq<Vec<i64>>, n: nat) -> bool {
    &&& mesh.len() == n
    &&& forall|i: int| 0 <= i < n ==> (#[trigger] mesh[i]).len() == n
    &&& forall|i: int, j: int| 0 <= i < n && 0 <= j < n ==> -ONE <= #[trigger] mesh[i][j] <= ONE
}

/// A random opaque colour.
pub fn random_color() -> (c: Color)
    ensures
        c.a == 255,
{
    let v: [u8; 4] = random_rgba();
    Color { r: v[0], g: v[1], b: v[2], a: v[3] }
}

/// A random gravity mesh for `num_cultures` cultures: as many rows of as many
/// coefficients, each drawn from the closed range from minus one to one.
pub fn random_gravity_mesh(num_cultures: usize) -> (mesh: Vec<Vec<i64>>)
    ensures
        is_unit_mesh(mesh@, num_cultures as nat),
{
    let mut mesh: Vec<Vec<i64>> = Vec::new();
    let mut i: usize = 0;
    while i < num_cultures
        invariant
            i <= num_cultures,
            mesh@.len() == i,
            forall|a: int| 0 <= a < i ==> (#[trigger] mesh@[a]).len() == num_cultures,
            forall|a: int, b: int|
                0 <= a < i && 0 <= b < num_cultures ==> -ONE <= #[trigger] mesh@[a][b] <= ONE,
        decreases num_cultures - i,
    {
        let row: Vec<i64> = random_row(num_cultures);
        mesh.push(row);
        i += 1;
    }
    mesh
}

/// A row of `n` coefficients, each drawn from the closed range from minus one
/// to one.
fn random_row(n: usize) -> (row: Vec<i64>)
    ensures
        row@.len() == n,
        forall|j: int| 0 <= j < n ==> -ONE <= #[trigger] row@[j] <= ONE,
{
    let mut row: Vec<i64> = Vec::new();
    let mut j: usize = 0;
    while j < n
        invariant
            j <= n,
            row@.len() == j,
            forall|b: int| 0 <= b < j ==> -ONE <= #[trigger] row@[b] <= ONE,
        decreases n - j,
    {
        row.push(random_between(-ONE, ONE));
        j += 1;
    }
    row
}

/// A random gravity mesh for `num_cultures` cultures, row after row in one
/// vector.
pub fn random_gravity_mesh_flat(num_cultures: usize) -> (mesh: Vec<i64>)
    requires
        num_cultures * num_cultures <= usize::MAX,
    ensures
        mesh@.len() == num_cultures * num_cultures,
        forall|j: int| 0 <= j < mesh@.len() ==> -ONE <= #[trigger] mesh@[j] <= ONE,
{
    random_row(num_cultures * num_cultures)
}

} // verus!
