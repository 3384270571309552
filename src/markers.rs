use crate::grid::{cell_x, cell_y, cell_z, VoxelGrid};
use crate::mesh::{upper, vtx, Vertex};
use vstd::prelude::*;

verus! {

/// A decorative marker for one cell: placed at the cell's position (half units, the same
/// centring as extraction) and flagged `near` when the cell's sample is below a limit.
#[derive(Clone, Copy, Debug, PartialEq, Eq, Structural)]
pub struct Marker {
    pub position: Vertex,
    pub near: bool,
}

/// The marker of the cell at storage position `i` with sample `v`.
pub open spec fn marker_of(s: int, i: int, v: i64, limit: i64) -> Marker {
    Marker {
        position: vtx(upper(s, cell_x(s, i)), upper(s, cell_y(s, i)), upper(s, cell_z(s, i))),
        near: v < limit,
    }
}

/// One marker per cell, in storage order.
pub fn markers(vox: &VoxelGrid, limit: i64) -> (r: Vec<Marker>)
    requires
        vox.wf(),
    ensures
        r@.len() == vox.data@.len(),
        forall|i: int|
            0 <= i < r@.len() ==> #[trigger] r@[i] == marker_of(
                vox.size as int,
                i,
                vox.data@[i],
                limit,
            ),
{
    let size = vox.size;
    let n = vox.data.len();
    let mut out: Vec<Marker> = Vec::new();
    for i in 0..n
        invariant
            vox.wf(),
            vox.size == size,
            n == vox.data@.len(),
            out@.len() == i,
            forall|j: int|
                0 <= j < i ==> #[trigger] out@[j] == marker_of(size as int, j, vox.data@[j], limit),
    {
        let (x, y, z) = VoxelGrid::coords_of(size, i);
        let s = size as i64;
        let position = Vertex { x: 2 * (x as i64) - s, y: 2 * (y as i64) - s, z: 2 * (z as i64) - s };
        out.push(Marker { position, near: vox.data[i] < limit });
    }
    out
}

} // verus!
