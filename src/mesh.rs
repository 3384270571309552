use crate::grid::{cell_x, cell_y, cell_z, cube, in_grid, lemma_cell_of_index, VoxelGrid};
use vstd::prelude::*;

verus! {

/// A mesh vertex in half units: the world coordinate on each axis is the stored value
/// divided by two. The grid is centred on the origin, so cell corners of an odd-sized
/// grid fall on half-integer world coordinates.
#[derive(Clone, Copy, Debug, PartialEq, Eq, Structural)]
pub struct Vertex {
    pub x: i64,
    pub y: i64,
    pub z: i64,
}

/// The triangle list extracted from a grid, with its optional sequential index buffer.
pub struct SurfaceMesh {
    pub positions: Vec<Vertex>,
    pub indices: Option<Vec<u32>>,
}

pub open spec fn vtx(x: int, y: int, z: int) -> Vertex {
    Vertex { x: x as i64, y: y as i64, z: z as i64 }
}

/// Upper corner of cell `c` on one axis, in half units, for a grid of edge `s`
/// centred on the origin.
pub open spec fn upper(s: int, c: int) -> int {
    2 * c - s
}

/// The 36 vertices of the unit cube of cell `(cx, cy, cz)`: six faces (front, back, top,
/// bottom, left, right), each as two triangles wound counter-clockwise seen from outside.
pub open spec fn cube_vertices(s: int, cx: int, cy: int, cz: int) -> Seq<Vertex> {
    let hx = upper(s, cx);
    let hy = upper(s, cy);
    let hz = upper(s, cz);
    let lx = hx - 2;
    let ly = hy - 2;
    let lz = hz - 2;
    seq![
        vtx(lx, hy, hz), vtx(lx, ly, hz), vtx(hx, ly, hz),
        vtx(lx, hy, hz), vtx(hx, ly, hz), vtx(hx, hy, hz),
        vtx(hx, hy, lz), vtx(hx, ly, lz), vtx(lx, ly, lz),
        vtx(hx, hy, lz), vtx(lx, ly, lz), vtx(lx, hy, lz),
        vtx(lx, hy, hz), vtx(hx, hy, hz), vtx(hx, hy, lz),
        vtx(lx, hy, hz), vtx(hx, hy, lz), vtx(lx, hy, lz),
        vtx(hx, ly, lz), vtx(hx, ly, hz), vtx(lx, ly, hz),
        vtx(hx, ly, lz), vtx(lx, ly, hz), vtx(lx, ly, lz),
        vtx(lx, hy, lz), vtx(lx, ly, lz), vtx(lx, ly, hz),
        vtx(lx, hy, lz), vtx(lx, ly, hz), vtx(lx, hy, hz),
        vtx(hx, hy, hz), vtx(hx, ly, lz), vtx(hx, hy, lz),
        vtx(hx, hy, hz), vtx(hx, ly, hz), vtx(hx, ly, lz),
    ]
}

/// A cell qualifies when its sample is at or below the threshold.
pub open spec fn qualifies(v: i64, limit: i64) -> bool {
    v <= limit
}

/// The vertices emitted for the first `n` cells in storage order.
pub open spec fn surface(s: int, data: Seq<i64>, limit: i64, n: int) -> Seq<Vertex>
    decreases n,
{
    if n <= 0 {
        seq![]
    } else {
        let prev = surface(s, data, limit, n - 1);
        if qualifies(data[n - 1], limit) {
            prev + cube_vertices(s, cell_x(s, n - 1), cell_y(s, n - 1), cell_z(s, n - 1))
        } else {
            prev
        }
    }
}

/// How many of the first `n` cells qualify.
pub open spec fn qualifying_count(data: Seq<i64>, limit: i64, n: int) -> int
    decreases n,
{
    if n <= 0 {
        0
    } else {
        qualifying_count(data, limit, n - 1) + if qualifies(data[n - 1], limit) {
            1int
        } else {
            0int
        }
    }
}

/// Storage positions of the cells that qualify.
pub open spec fn qualifying_cells(data: Seq<i64>, limit: i64) -> Set<int> {
    Set::new(|i: int| 0 <= i < data.len() && qualifies(data[i], limit))
}

/// The sequential index list `0, 1, ..., n`, one longer than the vertex count `n`.
pub open spec fn sequential_indices(n: int) -> Seq<u32> {
    Seq::new((n + 1) as nat, |i: int| i as u32)
}

/// The vertices that extraction gives for a grid and a threshold.
pub open spec fn extracted(vox: VoxelGrid, limit: i64) -> Seq<Vertex> {
    surface(vox.size as int, vox.data@, limit, cube(vox.size as int))
}

/// The number of vertices emitted is 36 for each qualifying cell.
pub proof fn lemma_surface_len(s: int, data: Seq<i64>, limit: i64, n: int)
    requires
        0 <= n <= data.len(),
    ensures
        surface(s, data, limit, n).len() == 36 * qualifying_count(data, limit, n),
    decreases n,
{
    if n > 0 {
        lemma_surface_len(s, data, limit, n - 1);
    }
}

/// The qualifying cells among the first `n` storage positions.
spec fn qualifying_prefix(data: Seq<i64>, limit: i64, n: int) -> Set<int> {
    Set::new(|i: int| 0 <= i < n && qualifies(data[i], limit))
}

proof fn lemma_prefix_count(data: Seq<i64>, limit: i64, n: int)
    requires
        0 <= n <= data.len(),
    ensures
        qualifying_prefix(data, limit, n).finite(),
        qualifying_prefix(data, limit, n).len() == qualifying_count(data, limit, n),
    decreases n,
{
    if n == 0 {
        assert(qualifying_prefix(data, limit, n) =~= Set::empty());
    } else {
        lemma_prefix_count(data, limit, n - 1);
        let prev = qualifying_prefix(data, limit, n - 1);
        if qualifies(data[n - 1], limit) {
            assert(qualifying_prefix(data, limit, n) =~= prev.insert(n - 1));
        } else {
            assert(qualifying_prefix(data, limit, n) =~= prev);
        }
    }
}

/// The set of qualifying cells is finite and has `qualifying_count` members.
pub proof fn lemma_qualifying_cells_count(data: Seq<i64>, limit: i64)
    ensures
        qualifying_cells(data, limit).finite(),
        qualifying_cells(data, limit).len() == qualifying_count(data, limit, data.len() as int),
{
    lemma_prefix_count(data, limit, data.len() as int);
    assert(qualifying_cells(data, limit) =~= qualifying_prefix(data, limit, data.len() as int));
}

/// Triangle `t` of a triangle list: its vertices `3t`, `3t + 1` and `3t + 2`.
pub open spec fn triangle(tris: Seq<Vertex>, t: int) -> (Vertex, Vertex, Vertex) {
    (tris[3 * t], tris[3 * t + 1], tris[3 * t + 2])
}

/// The (unnormalised) normal of triangle `(a, b, c)`: the cross product of `b - a` and
/// `c - a`, which points to the side from which the triangle is wound counter-clockwise.
pub open spec fn triangle_normal(tri: (Vertex, Vertex, Vertex)) -> (int, int, int) {
    let (a, b, c) = tri;
    let ux = b.x - a.x;
    let uy = b.y - a.y;
    let uz = b.z - a.z;
    let wx = c.x - a.x;
    let wy = c.y - a.y;
    let wz = c.z - a.z;
    (uy * wz - uz * wy, uz * wx - ux * wz, ux * wy - uy * wx)
}

/// The normal of `tri` has a positive dot product with the vector from the point
/// `(px, py, pz)` to the triangle's centroid (taken three times, to stay in integers).
pub open spec fn faces_away(tri: (Vertex, Vertex, Vertex), px: int, py: int, pz: int) -> bool {
    let (a, b, c) = tri;
    let n = triangle_normal(tri);
    let dx = a.x + b.x + c.x - 3 * px;
    let dy = a.y + b.y + c.y - 3 * py;
    let dz = a.z + b.z + c.z - 3 * pz;
    n.0 * dx + n.1 * dy + n.2 * dz > 0
}

/// Centre of cell `c` on one axis, in half units.
pub open spec fn center(s: int, c: int) -> int {
    upper(s, c) - 1
}

/// `faces_away` for a triangle given by corner offsets from the point it is judged against.
spec fn offsets_face_away(a: (int, int, int), b: (int, int, int), c: (int, int, int)) -> bool {
    let (ux, uy, uz) = (b.0 - a.0, b.1 - a.1, b.2 - a.2);
    let (wx, wy, wz) = (c.0 - a.0, c.1 - a.1, c.2 - a.2);
    (uy * wz - uz * wy) * (a.0 + b.0 + c.0) + (uz * wx - ux * wz) * (a.1 + b.1 + c.1) + (ux * wy
        - uy * wx) * (a.2 + b.2 + c.2) > 0
}

/// A triangle whose corners sit at offsets `a`, `b` and `c` from the point `p` faces away
/// from `p` when those offsets do.
proof fn lemma_unit_triangle(
    tri: (Vertex, Vertex, Vertex),
    px: int,
    py: int,
    pz: int,
    a: (int, int, int),
    b: (int, int, int),
    c: (int, int, int),
)
    requires
        tri.0.x == px + a.0 && tri.0.y == py + a.1 && tri.0.z == pz + a.2,
        tri.1.x == px + b.0 && tri.1.y == py + b.1 && tri.1.z == pz + b.2,
        tri.2.x == px + c.0 && tri.2.y == py + c.1 && tri.2.z == pz + c.2,
        offsets_face_away(a, b, c),
    ensures
        faces_away(tri, px, py, pz),
{
    assert(faces_away(tri, px, py, pz)) by (nonlinear_arith)
        requires
            tri.0.x == px + a.0 && tri.0.y == py + a.1 && tri.0.z == pz + a.2,
            tri.1.x == px + b.0 && tri.1.y == py + b.1 && tri.1.z == pz + b.2,
            tri.2.x == px + c.0 && tri.2.y == py + c.1 && tri.2.z == pz + c.2,
            offsets_face_away(a, b, c),
    ;
}

/// Each of the twelve triangles of a cell's cube faces away from the cube's centre.
pub proof fn lemma_cube_faces_outward(s: int, cx: int, cy: int, cz: int)
    requires
        0 <= s <= u32::MAX,
        in_grid(s, cx, cy, cz),
    ensures
        forall|t: int|
            0 <= t < 12 ==> #[trigger] faces_away(
                triangle(cube_vertices(s, cx, cy, cz), t),
                center(s, cx),
                center(s, cy),
                center(s, cz),
            ),
{
    let cv = cube_vertices(s, cx, cy, cz);
    let px = center(s, cx);
    let py = center(s, cy);
    let pz = center(s, cz);
    assert(offsets_face_away((-1, 1, 1), (-1, -1, 1), (1, -1, 1))) by (nonlinear_arith);
    lemma_unit_triangle(triangle(cv, 0), px, py, pz, (-1, 1, 1), (-1, -1, 1), (1, -1, 1));
    assert(offsets_face_away((-1, 1, 1), (1, -1, 1), (1, 1, 1))) by (nonlinear_arith);
    lemma_unit_triangle(triangle(cv, 1), px, py, pz, (-1, 1, 1), (1, -1, 1), (1, 1, 1));
    assert(offsets_face_away((1, 1, -1), (1, -1, -1), (-1, -1, -1))) by (nonlinear_arith);
    lemma_unit_triangle(triangle(cv, 2), px, py, pz, (1, 1, -1), (1, -1, -1), (-1, -1, -1));
    assert(offsets_face_away((1, 1, -1), (-1, -1, -1), (-1, 1, -1))) by (nonlinear_arith);
    lemma_unit_triangle(triangle(cv, 3), px, py, pz, (1, 1, -1), (-1, -1, -1), (-1, 1, -1));
    assert(offsets_face_away((-1, 1, 1), (1, 1, 1), (1, 1, -1))) by (nonlinear_arith);
    lemma_unit_triangle(triangle(cv, 4), px, py, pz, (-1, 1, 1), (1, 1, 1), (1, 1, -1));
    assert(offsets_face_away((-1, 1, 1), (1, 1, -1), (-1, 1, -1))) by (nonlinear_arith);
    lemma_unit_triangle(triangle(cv, 5), px, py, pz, (-1, 1, 1), (1, 1, -1), (-1, 1, -1));
    assert(offsets_face_away((1, -1, -1), (1, -1, 1), (-1, -1, 1))) by (nonlinear_arith);
    lemma_unit_triangle(triangle(cv, 6), px, py, pz, (1, -1, -1), (1, -1, 1), (-1, -1, 1));
    assert(offsets_face_away((1, -1, -1), (-1, -1, 1), (-1, -1, -1))) by (nonlinear_arith);
    lemma_unit_triangle(triangle(cv, 7), px, py, pz, (1, -1, -1), (-1, -1, 1), (-1, -1, -1));
    assert(offsets_face_away((-1, 1, -1), (-1, -1, -1), (-1, -1, 1))) by (nonlinear_arith);
    lemma_unit_triangle(triangle(cv, 8), px, py, pz, (-1, 1, -1), (-1, -1, -1), (-1, -1, 1));
    assert(offsets_face_away((-1, 1, -1), (-1, -1, 1), (-1, 1, 1))) by (nonlinear_arith);
    lemma_unit_triangle(triangle(cv, 9), px, py, pz, (-1, 1, -1), (-1, -1, 1), (-1, 1, 1));
    assert(offsets_face_away((1, 1, 1), (1, -1, -1), (1, 1, -1))) by (nonlinear_arith);
    lemma_unit_triangle(triangle(cv, 10), px, py, pz, (1, 1, 1), (1, -1, -1), (1, 1, -1));
    assert(offsets_face_away((1, 1, 1), (1, -1, 1), (1, -1, -1))) by (nonlinear_arith);
    lemma_unit_triangle(triangle(cv, 11), px, py, pz, (1, 1, 1), (1, -1, 1), (1, -1, -1));
}

/// Each triangle of the first `n` cells' surface is a triangle of the cube of one of
/// those cells that qualifies.
proof fn lemma_surface_triangles(s: int, data: Seq<i64>, limit: i64, n: int, t: int)
    requires
        0 <= n <= data.len(),
        0 <= t,
        3 * t + 2 < surface(s, data, limit, n).len(),
    ensures
        exists|i: int, j: int|
            0 <= i < n && qualifies(data[i], limit) && 0 <= j < 12 && triangle(
                surface(s, data, limit, n),
                t,
            ) == triangle(cube_vertices(s, cell_x(s, i), cell_y(s, i), cell_z(s, i)), j),
    decreases n,
{
    let cur = surface(s, data, limit, n);
    let prev = surface(s, data, limit, n - 1);
    lemma_surface_len(s, data, limit, n - 1);
    if qualifies(data[n - 1], limit) && 3 * t + 2 >= prev.len() {
        let i = n - 1;
        let cv = cube_vertices(s, cell_x(s, i), cell_y(s, i), cell_z(s, i));
        let j = t - prev.len() / 3;
        assert(cur == prev + cv);
        assert(3 * j == 3 * t - prev.len());
        assert(triangle(cur, t) == triangle(cv, j));
    } else {
        assert(3 * t + 2 < prev.len()) by {
            if qualifies(data[n - 1], limit) {
                assert(prev.len() % 3 == 0);
            }
        }
        lemma_surface_triangles(s, data, limit, n - 1, t);
        let (i, j) = choose|i: int, j: int|
            0 <= i < n - 1 && qualifies(data[i], limit) && 0 <= j < 12 && triangle(prev, t)
                == triangle(cube_vertices(s, cell_x(s, i), cell_y(s, i), cell_z(s, i)), j);
        assert(triangle(cur, t) == triangle(prev, t));
    }
}

/// Extraction emits geometry only for qualifying cells: every triangle of the output is a
/// triangle of the cube of a cell whose sample is at or below the threshold, and it faces
/// away from that cube's centre.
pub proof fn lemma_extracted_triangles(vox: VoxelGrid, limit: i64, t: int)
    requires
        vox.wf(),
        0 <= t,
        3 * t + 2 < extracted(vox, limit).len(),
    ensures
        exists|x: u32, y: u32, z: u32, j: int|
            vox.contains(x, y, z) && qualifies(vox.at(x, y, z), limit) && 0 <= j < 12 && triangle(
                extracted(vox, limit),
                t,
            ) == triangle(cube_vertices(vox.size as int, x as int, y as int, z as int), j)
                && faces_away(
                triangle(extracted(vox, limit), t),
                center(vox.size as int, x as int),
                center(vox.size as int, y as int),
                center(vox.size as int, z as int),
            ),
{
    let s = vox.size as int;
    lemma_surface_triangles(s, vox.data@, limit, cube(s), t);
    let (i, j) = choose|i: int, j: int|
        0 <= i < cube(s) && qualifies(vox.data@[i], limit) && 0 <= j < 12 && triangle(
            extracted(vox, limit),
            t,
        ) == triangle(cube_vertices(s, cell_x(s, i), cell_y(s, i), cell_z(s, i)), j);
    lemma_cell_of_index(s, i);
    let x = cell_x(s, i) as u32;
    let y = cell_y(s, i) as u32;
    let z = cell_z(s, i) as u32;
    assert(vox.at(x, y, z) == vox.data@[i]);
    lemma_cube_faces_outward(s, x as int, y as int, z as int);
    assert(faces_away(
        triangle(cube_vertices(s, x as int, y as int, z as int), j),
        center(s, x as int),
        center(s, y as int),
        center(s, z as int),
    ));
}

/// Raising the threshold never removes a qualifying cell, and never shortens the output.
pub proof fn lemma_threshold_monotonic(vox: VoxelGrid, t1: i64, t2: i64)
    requires
        vox.wf(),
        t1 <= t2,
    ensures
        qualifying_cells(vox.data@, t1).subset_of(qualifying_cells(vox.data@, t2)),
        extracted(vox, t1).len() <= extracted(vox, t2).len(),
{
    let s = vox.size as int;
    lemma_count_monotonic(vox.data@, t1, t2, cube(s));
    lemma_surface_len(s, vox.data@, t1, cube(s));
    lemma_surface_len(s, vox.data@, t2, cube(s));
}

proof fn lemma_count_monotonic(data: Seq<i64>, t1: i64, t2: i64, n: int)
    requires
        t1 <= t2,
    ensures
        qualifying_count(data, t1, n) <= qualifying_count(data, t2, n),
    decreases n,
{
    if n > 0 {
        lemma_count_monotonic(data, t1, t2, n - 1);
    }
}

/// Storage positions of the qualifying cells among the first `n`, in storage order.
pub open spec fn qualifying_list(data: Seq<i64>, limit: i64, n: int) -> Seq<int>
    decreases n,
{
    if n <= 0 {
        seq![]
    } else if qualifies(data[n - 1], limit) {
        qualifying_list(data, limit, n - 1).push(n - 1)
    } else {
        qualifying_list(data, limit, n - 1)
    }
}

/// The cubes of the given cells, one 36-vertex block per cell, in the order given.
pub open spec fn cubes(s: int, cells: Seq<int>) -> Seq<Vertex>
    decreases cells.len(),
{
    if cells.len() == 0 {
        seq![]
    } else {
        let i = cells.last();
        cubes(s, cells.drop_last()) + cube_vertices(s, cell_x(s, i), cell_y(s, i), cell_z(s, i))
    }
}

proof fn lemma_surface_is_cubes(s: int, data: Seq<i64>, limit: i64, n: int)
    requires
        0 <= n <= data.len(),
    ensures
        surface(s, data, limit, n) == cubes(s, qualifying_list(data, limit, n)),
    decreases n,
{
    if n > 0 {
        lemma_surface_is_cubes(s, data, limit, n - 1);
        let prev = qualifying_list(data, limit, n - 1);
        if qualifies(data[n - 1], limit) {
            assert(prev.push(n - 1).drop_last() =~= prev);
        }
    }
}

proof fn lemma_list_filtered(data: Seq<i64>, t1: i64, t2: i64, n: int)
    requires
        t1 <= t2,
        0 <= n <= data.len(),
    ensures
        qualifying_list(data, t1, n) == qualifying_list(data, t2, n).filter(
            |i: int| qualifies(data[i], t1),
        ),
    decreases n,
{
    if n > 0 {
        lemma_list_filtered(data, t1, t2, n - 1);
        let prev = qualifying_list(data, t2, n - 1);
        let pred = |i: int| qualifies(data[i], t1);
        reveal(Seq::filter);
        if qualifies(data[n - 1], t2) {
            let cur = prev.push(n - 1);
            assert(cur.drop_last() =~= prev);
            assert(cur.last() == n - 1);
            assert(cur.filter(pred) == if pred(n - 1) {
                prev.filter(pred).push(n - 1)
            } else {
                prev.filter(pred)
            });
        }
    }
}

/// Extraction emits the cubes of the qualifying cells in storage order, and the cells that
/// qualify under a lower threshold are those that qualify under a higher one, filtered in
/// order: the lower threshold's output is the higher one's with some cells' blocks removed.
pub proof fn lemma_threshold_blocks(vox: VoxelGrid, t1: i64, t2: i64)
    requires
        vox.wf(),
        t1 <= t2,
    ensures
        extracted(vox, t1) == cubes(
            vox.size as int,
            qualifying_list(vox.data@, t1, cube(vox.size as int)),
        ),
        extracted(vox, t2) == cubes(
            vox.size as int,
            qualifying_list(vox.data@, t2, cube(vox.size as int)),
        ),
        qualifying_list(vox.data@, t1, cube(vox.size as int)) == qualifying_list(
            vox.data@,
            t2,
            cube(vox.size as int),
        ).filter(|i: int| qualifies(vox.data@[i], t1)),
{
    let s = vox.size as int;
    lemma_surface_is_cubes(s, vox.data@, t1, cube(s));
    lemma_surface_is_cubes(s, vox.data@, t2, cube(s));
    lemma_list_filtered(vox.data@, t1, t2, cube(s));
}

fn push_cube(verts: &mut Vec<Vertex>, s: u32, cx: u32, cy: u32, cz: u32)
    requires
        in_grid(s as int, cx as int, cy as int, cz as int),
    ensures
        final(verts)@ == old(verts)@ + cube_vertices(s as int, cx as int, cy as int, cz as int),
{
    let hx: i64 = 2 * (cx as i64) - s as i64;
    let hy: i64 = 2 * (cy as i64) - s as i64;
    let hz: i64 = 2 * (cz as i64) - s as i64;
    let lx: i64 = hx - 2;
    let ly: i64 = hy - 2;
    let lz: i64 = hz - 2;
    // Front
    verts.push(Vertex { x: lx, y: hy, z: hz });
    verts.push(Vertex { x: lx, y: ly, z: hz });
    verts.push(Vertex { x: hx, y: ly, z: hz });
    verts.push(Vertex { x: lx, y: hy, z: hz });
    verts.push(Vertex { x: hx, y: ly, z: hz });
    verts.push(Vertex { x: hx, y: hy, z: hz });
    // Back
    verts.push(Vertex { x: hx, y: hy, z: lz });
    verts.push(Vertex { x: hx, y: ly, z: lz });
    verts.push(Vertex { x: lx, y: ly, z: lz });
    verts.push(Vertex { x: hx, y: hy, z: lz });
    verts.push(Vertex { x: lx, y: ly, z: lz });
    verts.push(Vertex { x: lx, y: hy, z: lz });
    // Top
    verts.push(Vertex { x: lx, y: hy, z: hz });
    verts.push(Vertex { x: hx, y: hy, z: hz });
    verts.push(Vertex { x: hx, y: hy, z: lz });
    verts.push(Vertex { x: lx, y: hy, z: hz });
    verts.push(Vertex { x: hx, y: hy, z: lz });
    verts.push(Vertex { x: lx, y: hy, z: lz });
    // Bottom
    verts.push(Vertex { x: hx, y: ly, z: lz });
    verts.push(Vertex { x: hx, y: ly, z: hz });
    verts.push(Vertex { x: lx, y: ly, z: hz });
    verts.push(Vertex { x: hx, y: ly, z: lz });
    verts.push(Vertex { x: lx, y: ly, z: hz });
    verts.push(Vertex { x: lx, y: ly, z: lz });
    // Left
    verts.push(Vertex { x: lx, y: hy, z: lz });
    verts.push(Vertex { x: lx, y: ly, z: lz });
    verts.push(Vertex { x: lx, y: ly, z: hz });
    verts.push(Vertex { x: lx, y: hy, z: lz });
    verts.push(Vertex { x: lx, y: ly, z: hz });
    verts.push(Vertex { x: lx, y: hy, z: hz });
    // Right
    verts.push(Vertex { x: hx, y: hy, z: hz });
    verts.push(Vertex { x: hx, y: ly, z: lz });
    verts.push(Vertex { x: hx, y: hy, z: lz });
    verts.push(Vertex { x: hx, y: hy, z: hz });
    verts.push(Vertex { x: hx, y: ly, z: hz });
    verts.push(Vertex { x: hx, y: ly, z: lz });
    assert(final(verts)@ =~= old(verts)@ + cube_vertices(s as int, cx as int, cy as int, cz as int));
}

/// The index list `0, 1, ..., n`, or `None` where `n` does not fit in `u32`.
pub fn index_buffer(n: usize) -> (r: Option<Vec<u32>>)
    ensures
        r.is_some() <==> n <= u32::MAX,
        r matches Some(v) ==> v@ == sequential_indices(n as int),
{
    if n > u32::MAX as usize {
        return None;
    }
    let mut v: Vec<u32> = Vec::new();
    let mut i: u64 = 0;
    while i <= n as u64
        invariant
            n <= u32::MAX,
            i <= n + 1,
            v@ == Seq::new(i as nat, |k: int| k as u32),
        decreases n + 1 - i,
    {
        v.push(i as u32);
        i = i + 1;
        assert(v@ =~= Seq::new(i as nat, |k: int| k as u32));
    }
    assert(v@ =~= sequential_indices(n as int));
    Some(v)
}

/// The vertices of one cube for every cell whose sample is at or below `limit`, in
/// storage order, with the sequential index list where the vertex count fits in `u32`.
/// Faces shared by neighbouring cells are emitted for each of them.
pub fn create_mesh(vox: &VoxelGrid, limit: i64) -> (m: SurfaceMesh)
    requires
        vox.wf(),
    ensures
        m.positions@ == extracted(*vox, limit),
        m.positions@.len() == 36 * qualifying_count(vox.data@, limit, cube(vox.size as int)),
        m.positions@.len() == 36 * qualifying_cells(vox.data@, limit).len(),
        m.indices.is_some() <==> m.positions@.len() <= u32::MAX,
        m.indices matches Some(ix) ==> ix@ == sequential_indices(m.positions@.len() as int),
{
    let size = vox.size;
    let n = vox.data.len();
    let mut verts: Vec<Vertex> = Vec::new();
    for i in 0..n
        invariant
            vox.wf(),
            vox.size == size,
            n == vox.data@.len(),
            verts@ == surface(size as int, vox.data@, limit, i as int),
    {
        let val = vox.data[i];
        if val <= limit {
            let (x, y, z) = VoxelGrid::coords_of(size, i);
            push_cube(&mut verts, size, x, y, z);
        }
    }
    proof {
        lemma_surface_len(size as int, vox.data@, limit, n as int);
        lemma_qualifying_cells_count(vox.data@, limit);
    }
    let len = verts.len();
    let indices = index_buffer(len);
    SurfaceMesh { positions: verts, indices }
}

} // verus!
