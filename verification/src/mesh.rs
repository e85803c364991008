//! Gravity meshes: their shape, and their JSON text.
//!
//! A mesh travels as a JSON array of arrays of integers, the raw fixed-point
//! values of its coefficients.

use crate::config::{within_limit, ConfigError};
use crate::fixed::in_range;
use vstd::prelude::*;

verus! {

/// The error type of the crate `serde_json`.
#[verifier::external_type_specification]
#[verifier::external_body]
pub struct ExJsonError(serde_json::Error);

/// The text that `serde_json::to_string` gives for a vector of vectors of
/// `i64` with the given rows.
pub uninterp spec fn json_of_mesh(mesh: Seq<Seq<i64>>) -> Seq<char>;

/// The rows that `serde_json::from_str` reads from a text as a vector of
/// vectors of `i64`; `None` where it reports an error.
pub uninterp spec fn mesh_of_json(text: Seq<char>) -> Option<Seq<Seq<i64>>>;

/// The rows of a mesh.
pub open spec fn rows(mesh: Seq<Vec<i64>>) -> Seq<Seq<i64>> {
    Seq::new(mesh.len(), |i: int| mesh[i]@)
}

/// The mesh has `n` rows of `n` coefficients.
pub open spec fn is_square(mesh: Seq<Seq<i64>>, n: nat) -> bool {
    &&& mesh.len() == n
    &&& forall|i: int| 0 <= i < n ==> (#[trigger] mesh[i]).len() == n
}

/// Every coefficient of the mesh is storable.
pub open spec fn is_storable(mesh: Seq<Seq<i64>>) -> bool {
    forall|i: int, j: int|
        0 <= i < mesh.len() && 0 <= j < mesh[i].len() ==> in_range(#[trigger] mesh[i][j] as int)
}

/// The reason, if any, for which a mesh does not serve `n` cultures.
pub open spec fn mesh_defect(mesh: Seq<Seq<i64>>, n: nat) -> Option<ConfigError> {
    if !is_square(mesh, n) {
        Some(ConfigError::MeshShape)
    } else if !is_storable(mesh) {
        Some(ConfigError::Unrepresentable)
    } else {
        None
    }
}

/// Calls `serde_json::to_string` on the mesh. For vectors of integers the
/// crate writes into a byte vector and cannot fail; the text is a function of
/// the rows alone.
#[verifier::external_body]
pub(crate) fn mesh_to_json(mesh: &Vec<Vec<i64>>) -> (text: String)
    ensures
        text@ == json_of_mesh(rows(mesh@)),
{
    serde_json::to_string(mesh).unwrap()
}

/// Calls `serde_json::from_str` to read the text as a vector of vectors of
/// `i64`. What is read, and whether anything is, is a function of the text
/// alone.
#[verifier::external_body]
pub(crate) fn mesh_from_json(text: &str) -> (r: Result<Vec<Vec<i64>>, serde_json::Error>)
    ensures
        r matches Ok(m) ==> mesh_of_json(text@) == Some(rows(m@)),
        r is Err ==> mesh_of_json(text@) is None,
{
    serde_json::from_str::<Vec<Vec<i64>>>(text)
}

/// Finds the reason, if any, for which a mesh does not serve `n` cultures.
pub fn check_mesh(mesh: &Vec<Vec<i64>>, n: usize) -> (r: Result<(), ConfigError>)
    ensures
        r is Ok <==> mesh_defect(rows(mesh@), n as nat) is None,
        r matches Err(e) ==> mesh_defect(rows(mesh@), n as nat) == Some(e),
{
    if mesh.len() != n {
        return Err(ConfigError::MeshShape);
    }
    let mut i: usize = 0;
    while i < n
        invariant
            i <= n,
            n == mesh@.len(),
            forall|a: int| 0 <= a < i ==> (#[trigger] rows(mesh@)[a]).len() == n,
        decreases n - i,
    {
        if mesh[i].len() != n {
            assert(rows(mesh@)[i as int].len() != n);
            return Err(ConfigError::MeshShape);
        }
        i += 1;
    }
    let mut i: usize = 0;
    while i < n
        invariant
            i <= n,
            n == mesh@.len(),
            is_square(rows(mesh@), n as nat),
            forall|a: int, b: int|
                0 <= a < i && 0 <= b < n ==> in_range(#[trigger] rows(mesh@)[a][b] as int),
        decreases n - i,
    {
        let mut j: usize = 0;
        while j < n
            invariant
                i < n,
                j <= n,
                n == mesh@.len(),
                is_square(rows(mesh@), n as nat),
                forall|a: int, b: int|
                    0 <= a < i && 0 <= b < n ==> in_range(#[trigger] rows(mesh@)[a][b] as int),
                forall|b: int| 0 <= b < j ==> in_range(#[trigger] rows(mesh@)[i as int][b] as int),
            decreases n - j,
        {
            assert(rows(mesh@)[i as int].len() == n);
            if !within_limit(mesh[i][j]) {
                assert(!in_range(rows(mesh@)[i as int][j as int] as int));
                return Err(ConfigError::Unrepresentable);
            }
            j += 1;
        }
        i += 1;
    }
    Ok(())
}

} // verus!
