use vstd::prelude::*;

verus! {

/// What makes the indices of a triangle mesh unfit for loading.
#[derive(Clone, Copy, Debug, PartialEq, Eq, Structural)]
pub enum MeshError {
    /// A corner of face `face` names vertex `vertex`, of which the mesh has
    /// no position.
    MissingPosition { face: usize, vertex: u32 },
    /// The mesh has texture coordinates, but none for vertex `vertex`, which
    /// a corner of face `face` names.
    MissingTexcoord { face: usize, vertex: u32 },
    /// Face `face` is of material `material`, which was not loaded.
    MissingMaterial { face: usize, material: usize },
}

/// What a corner of a face needs of the positions: three numbers for its
/// vertex.
pub open spec fn position_fault(face: int, vertex: u32, positions: nat) -> Option<MeshError> {
    if 3 * vertex + 2 >= positions {
        Some(MeshError::MissingPosition { face: face as usize, vertex })
    } else {
        None
    }
}

/// What a corner of a face needs of the texture coordinates, where the mesh
/// has any: the number at place `offset` of the two of its vertex.
pub open spec fn texcoord_fault(face: int, vertex: u32, offset: int, texcoords: nat) -> Option<
    MeshError,
> {
    if texcoords != 0 && 2 * vertex + offset >= texcoords {
        Some(MeshError::MissingTexcoord { face: face as usize, vertex })
    } else {
        None
    }
}

/// What a face needs of the materials: that its material, if it has one,
/// was loaded.
pub open spec fn material_fault(face: int, material_id: Option<usize>, materials: nat) -> Option<
    MeshError,
> {
    match material_id {
        Some(material) => if material >= materials {
            Some(MeshError::MissingMaterial { face: face as usize, material })
        } else {
            None
        },
        None => None,
    }
}

/// The first of two faults.
pub open spec fn or_else(first: Option<MeshError>, second: Option<MeshError>) -> Option<MeshError> {
    match first {
        Some(e) => first,
        None => second,
    }
}

/// The first thing that is wrong with face `face`, in the order in which a
/// triangle is made of it: the positions of its three corners, then the
/// first and then the second texture coordinate of each, then its material.
pub open spec fn face_fault(
    indices: Seq<u32>,
    face: int,
    positions: nat,
    texcoords: nat,
    material_id: Option<usize>,
    materials: nat,
) -> Option<MeshError> {
    let a = indices[3 * face];
    let b = indices[3 * face + 1];
    let c = indices[3 * face + 2];
    or_else(
        position_fault(face, a, positions),
        or_else(
            position_fault(face, b, positions),
            or_else(
                position_fault(face, c, positions),
                or_else(
                    texcoord_fault(face, a, 0, texcoords),
                    or_else(
                        texcoord_fault(face, b, 0, texcoords),
                        or_else(
                            texcoord_fault(face, c, 0, texcoords),
                            or_else(
                                texcoord_fault(face, a, 1, texcoords),
                                or_else(
                                    texcoord_fault(face, b, 1, texcoords),
                                    or_else(
                                        texcoord_fault(face, c, 1, texcoords),
                                        material_fault(face, material_id, materials),
                                    ),
                                ),
                            ),
                        ),
                    ),
                ),
            ),
        ),
    )
}

/// The first thing that is wrong with the first `faces` faces of a mesh, or
/// `None` where they are all sound.
pub open spec fn first_fault(
    indices: Seq<u32>,
    faces: nat,
    positions: nat,
    texcoords: nat,
    material_id: Option<usize>,
    materials: nat,
) -> Option<MeshError>
    decreases faces,
{
    if faces == 0 {
        None
    } else {
        or_else(
            first_fault(
                indices,
                (faces - 1) as nat,
                positions,
                texcoords,
                material_id,
                materials,
            ),
            face_fault(indices, faces - 1, positions, texcoords, material_id, materials),
        )
    }
}

/// The corners of face `face`: three indices of vertices.
pub open spec fn corners(indices: Seq<u32>, face: int) -> (usize, usize, usize) {
    (indices[3 * face] as usize, indices[3 * face + 1] as usize, indices[3 * face + 2] as usize)
}

fn check_position(face: usize, vertex: u32, positions: usize) -> (r: Option<MeshError>)
    ensures
        r == position_fault(face as int, vertex, positions as nat),
{
    if 3 * (vertex as u64) + 2 >= positions as u64 {
        Some(MeshError::MissingPosition { face, vertex })
    } else {
        None
    }
}

fn check_texcoord(face: usize, vertex: u32, offset: u64, texcoords: usize) -> (r: Option<MeshError>)
    requires
        offset <= 1,
    ensures
        r == texcoord_fault(face as int, vertex, offset as int, texcoords as nat),
{
    if texcoords != 0 && 2 * (vertex as u64) + offset >= texcoords as u64 {
        Some(MeshError::MissingTexcoord { face, vertex })
    } else {
        None
    }
}

fn check_face(
    indices: &Vec<u32>,
    face: usize,
    positions: usize,
    texcoords: usize,
    material_id: Option<usize>,
    materials: usize,
) -> (r: Option<MeshError>)
    requires
        3 * face + 2 < indices@.len(),
        indices@.len() <= usize::MAX,
    ensures
        r == face_fault(
            indices@,
            face as int,
            positions as nat,
            texcoords as nat,
            material_id,
            materials as nat,
        ),
{
    let a = indices[3 * face];
    let b = indices[3 * face + 1];
    let c = indices[3 * face + 2];
    if let Some(e) = check_position(face, a, positions) {
        return Some(e);
    }
    if let Some(e) = check_position(face, b, positions) {
        return Some(e);
    }
    if let Some(e) = check_position(face, c, positions) {
        return Some(e);
    }
    if let Some(e) = check_texcoord(face, a, 0, texcoords) {
        return Some(e);
    }
    if let Some(e) = check_texcoord(face, b, 0, texcoords) {
        return Some(e);
    }
    if let Some(e) = check_texcoord(face, c, 0, texcoords) {
        return Some(e);
    }
    if let Some(e) = check_texcoord(face, a, 1, texcoords) {
        return Some(e);
    }
    if let Some(e) = check_texcoord(face, b, 1, texcoords) {
        return Some(e);
    }
    if let Some(e) = check_texcoord(face, c, 1, texcoords) {
        return Some(e);
    }
    match material_id {
        Some(material) => if material >= materials {
            Some(MeshError::MissingMaterial { face, material })
        } else {
            None
        },
        None => None,
    }
}

/// The faces of a triangle mesh: for each three indices, in their order, the
/// three vertices that they name. Indices that are left over when all threes
/// are taken are passed over. `positions` and `texcoords` are the lengths of
/// the lists of coordinates of the mesh, with three positions and two
/// texture coordinates to the vertex, and `materials` is the number of
/// materials that were loaded. A mesh with a fault has no faces: the result
/// is the first fault, as `first_fault` tells.
pub fn load_model(
    indices: &Vec<u32>,
    positions: usize,
    texcoords: usize,
    material_id: Option<usize>,
    materials: usize,
) -> (r: Result<Vec<(usize, usize, usize)>, MeshError>)
    ensures
        match r {
            Ok(faces) => {
                &&& first_fault(
                    indices@,
                    indices@.len() / 3,
                    positions as nat,
                    texcoords as nat,
                    material_id,
                    materials as nat,
                ) is None
                &&& faces@.len() == indices@.len() / 3
                &&& forall|f: int| 0 <= f < faces@.len() ==> #[trigger] faces@[f] == corners(indices@, f)
            },
            Err(e) => first_fault(
                indices@,
                indices@.len() / 3,
                positions as nat,
                texcoords as nat,
                material_id,
                materials as nat,
            ) == Some(e),
        },
{
    let count = indices.len() / 3;
    let mut faces: Vec<(usize, usize, usize)> = Vec::new();
    let mut f: usize = 0;
    while f < count
        invariant
            f <= count,
            count == indices@.len() / 3,
            indices@.len() <= usize::MAX,
            faces@.len() == f,
            first_fault(
                indices@,
                f as nat,
                positions as nat,
                texcoords as nat,
                material_id,
                materials as nat,
            ) is None,
            forall|g: int| 0 <= g < f ==> #[trigger] faces@[g] == corners(indices@, g),
        decreases count - f,
    {
        match check_face(indices, f, positions, texcoords, material_id, materials) {
            Some(e) => {
                proof {
                    lemma_fault_stays(
                        indices@,
                        (f + 1) as nat,
                        count as nat,
                        positions as nat,
                        texcoords as nat,
                        material_id,
                        materials as nat,
                    );
                }
                return Err(e);
            },
            None => {},
        }
        faces.push(
            (indices[3 * f] as usize, indices[3 * f + 1] as usize, indices[3 * f + 2] as usize),
        );
        f += 1;
    }
    Ok(faces)
}

/// A fault among the first faces is the first fault of the whole mesh.
proof fn lemma_fault_stays(
    indices: Seq<u32>,
    some: nat,
    all: nat,
    positions: nat,
    texcoords: nat,
    material_id: Option<usize>,
    materials: nat,
)
    requires
        some <= all,
        first_fault(indices, some, positions, texcoords, material_id, materials) is Some,
    ensures
        first_fault(indices, all, positions, texcoords, material_id, materials) == first_fault(
            indices,
            some,
            positions,
            texcoords,
            material_id,
            materials,
        ),
    decreases all - some,
{
    if some < all {
        lemma_fault_stays(
            indices,
            some,
            (all - 1) as nat,
            positions,
            texcoords,
            material_id,
            materials,
        );
    }
}

} // verus!
