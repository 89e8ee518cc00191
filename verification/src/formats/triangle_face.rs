//! Triangle faces over the vertices of a point list.

use vstd::prelude::*;

verus! {

/// A triangle given by the indices of its three vertices.
#[derive(Debug, Clone, Copy, PartialEq, Eq, Structural)]
pub struct TriangleFace {
    pub v1: i32,
    pub v2: i32,
    pub v3: i32,
}

impl TriangleFace {
    /// The mesh in which consecutive points, three by three, form the faces:
    /// face `i` joins points `3i`, `3i + 1` and `3i + 2`.
    pub fn get_default_mesh(num_points: i32) -> (mesh: Vec<TriangleFace>)
        requires
            num_points >= 0,
            num_points % 3 == 0,
        ensures
            mesh@.len() == num_points / 3,
            forall|i: int|
                0 <= i < mesh@.len() ==> (#[trigger] mesh@[i]).v1 == 3 * i && mesh@[i].v2 == 3 * i + 1
                    && mesh@[i].v3 == 3 * i + 2,
    {
        let mut mesh: Vec<TriangleFace> = Vec::with_capacity(num_points as usize / 3);
        let mut i: i32 = 0;
        while i < num_points
            invariant
                0 <= i <= num_points,
                i % 3 == 0,
                num_points % 3 == 0,
                mesh@.len() == i / 3,
                forall|k: int|
                    0 <= k < mesh@.len() ==> (#[trigger] mesh@[k]).v1 == 3 * k && mesh@[k].v2 == 3 * k
                        + 1 && mesh@[k].v3 == 3 * k + 2,
            decreases num_points - i,
        {
            let face = TriangleFace { v1: i, v2: i + 1, v3: i + 2 };
            mesh.push(face);
            i = i + 3;
        }
        mesh
    }
}

} // verus!
