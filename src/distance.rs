use crate::grid::{cube, in_grid, VoxelGrid};
use vstd::prelude::*;

verus! {

/// Twice the offset of cell coordinate `c` from the midpoint `s / 2` of an axis of `s` cells.
pub open spec fn doubled_offset(s: int, c: int) -> int {
    2 * c - s
}

/// Squared distance of cell `(x, y, z)` from the grid's midpoint, in quarter units (four
/// times the squared distance). It orders cells exactly as the distance itself does.
pub open spec fn radial_sq(s: int, x: int, y: int, z: int) -> int {
    let dx = doubled_offset(s, x);
    let dy = doubled_offset(s, y);
    let dz = doubled_offset(s, z);
    dx * dx + dy * dy + dz * dz
}

/// A distance-from-centre generator for filling a grid of edge `size`.
pub fn radial_distance_sq(size: u32, x: u32, y: u32, z: u32) -> (r: i64)
    requires
        cube(size as int) <= u32::MAX,
        in_grid(size as int, x as int, y as int, z as int),
    ensures
        r == radial_sq(size as int, x as int, y as int, z as int),
{
    assert(size < 2048) by (nonlinear_arith)
        requires
            size * size * size <= u32::MAX,
            size >= 0,
    ;
    let s = size as i64;
    let dx: i64 = 2 * (x as i64) - s;
    let dy: i64 = 2 * (y as i64) - s;
    let dz: i64 = 2 * (z as i64) - s;
    assert(0 <= dx * dx <= 4096 * 4096 && 0 <= dy * dy <= 4096 * 4096 && 0 <= dz * dz <= 4096
        * 4096)
        by (nonlinear_arith)
        requires
            -4096 <= dx <= 4096,
            -4096 <= dy <= 4096,
            -4096 <= dz <= 4096,
    ;
    dx * dx + dy * dy + dz * dz
}

/// On one axis, the midpoint cell `s / 2` is nearest to the midpoint and cell `0` farthest.
proof fn lemma_axis_extremes(s: int, c: int)
    requires
        0 <= c < s,
    ensures
        doubled_offset(s, s / 2) * doubled_offset(s, s / 2) <= doubled_offset(s, c)
            * doubled_offset(s, c),
        doubled_offset(s, c) * doubled_offset(s, c) <= doubled_offset(s, 0) * doubled_offset(
            s,
            0,
        ),
{
    let m = s / 2;
    let d = doubled_offset(s, c);
    let k = c - m;
    if s % 2 == 0 {
        assert(doubled_offset(s, m) == 0);
        assert(0 <= d * d) by (nonlinear_arith);
    } else {
        assert(doubled_offset(s, m) == -1);
        assert(d == 2 * k - 1);
        if k >= 1 {
            assert(1 <= d * d) by (nonlinear_arith)
                requires
                    d == 2 * k - 1,
                    k >= 1,
            ;
        } else {
            assert(1 <= d * d) by (nonlinear_arith)
                requires
                    d == 2 * k - 1,
                    k <= 0,
            ;
        }
    }
    assert(d * d <= s * s) by (nonlinear_arith)
        requires
            d == 2 * c - s,
            0 <= c < s,
    ;
    assert(doubled_offset(s, 0) * doubled_offset(s, 0) == s * s) by (nonlinear_arith);
}

/// The cell at the midpoint `(s / 2, s / 2, s / 2)` is nearest to the grid's midpoint, and
/// the corner cell `(0, 0, 0)` is farthest from it.
pub proof fn lemma_radial_extremes(s: int, x: int, y: int, z: int)
    requires
        in_grid(s, x, y, z),
    ensures
        radial_sq(s, s / 2, s / 2, s / 2) <= radial_sq(s, x, y, z),
        radial_sq(s, x, y, z) <= radial_sq(s, 0, 0, 0),
{
    lemma_axis_extremes(s, x);
    lemma_axis_extremes(s, y);
    lemma_axis_extremes(s, z);
}

/// In a grid filled with the radial generator, the sample of the midpoint cell is the
/// least of all samples and that of the corner cell `(0, 0, 0)` the greatest.
pub proof fn lemma_radial_field_extremes(vox: VoxelGrid, x: u32, y: u32, z: u32)
    requires
        vox.wf(),
        vox.size >= 1,
        vox.contains(x, y, z),
        forall|a: u32, b: u32, c: u32|
            #![trigger vox.at(a, b, c)]
            vox.contains(a, b, c) ==> vox.at(a, b, c) == radial_sq(
                vox.size as int,
                a as int,
                b as int,
                c as int,
            ),
    ensures
        vox.at(vox.size / 2, vox.size / 2, vox.size / 2) <= vox.at(x, y, z),
        vox.at(x, y, z) <= vox.at(0, 0, 0),
{
    let s = vox.size;
    assert(vox.contains(s / 2, s / 2, s / 2));
    assert(vox.contains(0, 0, 0));
    assert(vox.at(s / 2, s / 2, s / 2) == radial_sq(s as int, (s / 2) as int, (s / 2) as int, (s / 2) as int));
    assert(vox.at(0, 0, 0) == radial_sq(s as int, 0, 0, 0));
    assert(vox.at(x, y, z) == radial_sq(s as int, x as int, y as int, z as int));
    lemma_radial_extremes(s as int, x as int, y as int, z as int);
}

} // verus!
