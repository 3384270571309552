use voxel_field::distance::radial_distance_sq;
use voxel_field::grid::VoxelGrid;
use voxel_field::markers::markers;
use voxel_field::mesh::{create_mesh, index_buffer, Vertex};

fn filled(size: u32, f: fn(u32, u32, u32) -> i64) -> VoxelGrid {
    let mut g = VoxelGrid::new(size);
    g.map(|x, y, z, _| f(x, y, z));
    g
}

fn radial_grid(size: u32) -> VoxelGrid {
    let mut g = VoxelGrid::new(size);
    g.map(|x, y, z, _| radial_distance_sq(size, x, y, z));
    g
}

fn qualifying(g: &VoxelGrid, limit: i64) -> usize {
    g.data.iter().filter(|v| **v <= limit).count()
}

fn sub(a: Vertex, b: Vertex) -> (i64, i64, i64) {
    (a.x - b.x, a.y - b.y, a.z - b.z)
}

#[test]
fn new_grid_has_cube_of_zero_samples() {
    for size in [1u32, 2, 3, 5, 10] {
        let g = VoxelGrid::new(size);
        assert_eq!(g.size, size);
        assert_eq!(g.data.len(), (size * size * size) as usize);
        assert!(g.data.iter().all(|v| *v == 0));
    }
}

#[test]
fn read_addresses_x_fastest_then_y_then_z() {
    let g = filled(3, |x, y, z| (x + 10 * y + 100 * z) as i64);
    assert_eq!(g.data[0], 0);
    assert_eq!(g.data[1], 1);
    assert_eq!(g.data[3], 10);
    assert_eq!(g.data[9], 100);
    assert_eq!(g.read(2, 1, 0), 12);
    assert_eq!(g.read(0, 2, 1), 120);
    assert_eq!(g.read(2, 2, 2), 222);
}

#[test]
fn fill_then_read_gives_generator_value_for_every_cell() {
    let size = 4u32;
    let g = filled(size, |x, y, z| (x * x) as i64 - (y as i64) * 7 + (z as i64) * 3);
    for z in 0..size {
        for y in 0..size {
            for x in 0..size {
                assert_eq!(g.read(x, y, z), (x * x) as i64 - (y as i64) * 7 + (z as i64) * 3);
            }
        }
    }
}

#[test]
fn fill_hands_the_previous_sample_to_the_generator() {
    let mut g = VoxelGrid::new(2);
    g.map(|x, _, _, prev| prev + x as i64 + 1);
    g.map(|_, _, z, prev| prev * 10 + z as i64);
    assert_eq!(g.read(0, 0, 0), 10);
    assert_eq!(g.read(1, 0, 0), 20);
    assert_eq!(g.read(0, 1, 1), 11);
    assert_eq!(g.read(1, 1, 1), 21);
}

#[test]
fn each_visits_every_cell_in_storage_order_and_keeps_the_grid() {
    let mut g = filled(2, |x, y, z| (x + 2 * y + 4 * z) as i64 * 3);
    let before = g.data.clone();
    let mut seen: Vec<(u32, u32, u32, i64)> = Vec::new();
    g.each(|x, y, z, v| seen.push((x, y, z, v)));
    assert_eq!(seen.len(), 8);
    assert_eq!(seen[0], (0, 0, 0, 0));
    assert_eq!(seen[1], (1, 0, 0, 3));
    assert_eq!(seen[2], (0, 1, 0, 6));
    assert_eq!(seen[5], (1, 0, 1, 15));
    assert_eq!(seen[7], (1, 1, 1, 21));
    assert_eq!(g.data, before);
}

#[test]
fn radial_generator_values() {
    assert_eq!(radial_distance_sq(10, 5, 5, 5), 0);
    assert_eq!(radial_distance_sq(10, 0, 0, 0), 300);
    assert_eq!(radial_distance_sq(10, 9, 9, 9), 192);
    assert_eq!(radial_distance_sq(10, 5, 0, 8), 136);
    assert_eq!(radial_distance_sq(3, 1, 1, 1), 3);
    assert_eq!(radial_distance_sq(1, 0, 0, 0), 3);
}

#[test]
fn radial_field_is_least_at_centre_and_greatest_at_origin_corner() {
    for size in [1u32, 2, 3, 4, 7, 10] {
        let g = radial_grid(size);
        let c = size / 2;
        let least = g.read(c, c, c);
        let greatest = g.read(0, 0, 0);
        assert_eq!(least, *g.data.iter().min().unwrap());
        assert_eq!(greatest, *g.data.iter().max().unwrap());
    }
}

#[test]
fn all_cells_qualify_on_constant_zero_field() {
    let g = VoxelGrid::new(2);
    let m = create_mesh(&g, 1);
    assert_eq!(m.positions.len(), 288);
}

#[test]
fn only_the_origin_cell_qualifies_on_coordinate_sum_field() {
    let g = filled(2, |x, y, z| (x + y + z) as i64);
    let m = create_mesh(&g, 0);
    assert_eq!(m.positions.len(), 36);
    // Cell (0, 0, 0) of a grid of edge 2 spans world [-2, -1] on every axis.
    for v in &m.positions {
        assert!(v.x == -4 || v.x == -2);
        assert!(v.y == -4 || v.y == -2);
        assert!(v.z == -4 || v.z == -2);
    }
}

#[test]
fn vertex_count_is_36_per_qualifying_cell() {
    let g = radial_grid(6);
    for limit in [-1i64, 0, 3, 11, 20, 40, 75, 200] {
        let m = create_mesh(&g, limit);
        assert_eq!(m.positions.len(), 36 * qualifying(&g, limit));
    }
}

#[test]
fn a_sample_equal_to_the_threshold_qualifies() {
    let g = filled(1, |_, _, _| 7);
    assert_eq!(create_mesh(&g, 7).positions.len(), 36);
    assert_eq!(create_mesh(&g, 6).positions.len(), 0);
}

#[test]
fn raising_the_threshold_keeps_every_qualifying_cell() {
    let g = radial_grid(5);
    let limits = [0i64, 2, 8, 19, 30, 48, 75];
    for w in limits.windows(2) {
        let (lo, hi) = (w[0], w[1]);
        for v in &g.data {
            if *v <= lo {
                assert!(*v <= hi);
            }
        }
        let a = create_mesh(&g, lo).positions.len();
        let b = create_mesh(&g, hi).positions.len();
        assert!(a <= b);
    }
    assert_eq!(create_mesh(&g, 2).positions.len(), 0);
    assert_eq!(create_mesh(&g, 3).positions.len(), 36 * 8);
    assert_eq!(create_mesh(&g, 11).positions.len(), 36 * (8 + 24));
}

#[test]
fn interior_faces_between_neighbours_are_kept() {
    let g = filled(2, |x, _, _| x as i64);
    let m = create_mesh(&g, 1);
    assert_eq!(m.positions.len(), 288);
    let on_shared_plane = m
        .positions
        .chunks(6)
        .filter(|face| face.iter().all(|v| v.x == -2))
        .count();
    assert_eq!(on_shared_plane, 4 * 2);
}

#[test]
fn isolated_cell_faces_point_outward() {
    let g = filled(3, |x, y, z| if (x, y, z) == (1, 1, 1) { 0 } else { 9 });
    let m = create_mesh(&g, 0);
    assert_eq!(m.positions.len(), 36);
    // Cell (1, 1, 1) of a grid of edge 3 spans [-3, -1] half units; its centre is -2.
    let c = (-2i64, -2i64, -2i64);
    for tri in m.positions.chunks(3) {
        let u = sub(tri[1], tri[0]);
        let w = sub(tri[2], tri[0]);
        let n = (u.1 * w.2 - u.2 * w.1, u.2 * w.0 - u.0 * w.2, u.0 * w.1 - u.1 * w.0);
        let d = (
            tri[0].x + tri[1].x + tri[2].x - 3 * c.0,
            tri[0].y + tri[1].y + tri[2].y - 3 * c.1,
            tri[0].z + tri[1].z + tri[2].z - 3 * c.2,
        );
        assert!(n.0 * d.0 + n.1 * d.1 + n.2 * d.2 > 0);
    }
}

#[test]
fn cube_geometry_of_a_cell() {
    let g = filled(3, |x, y, z| if (x, y, z) == (2, 0, 1) { 0 } else { 1 });
    let m = create_mesh(&g, 0);
    let p = &m.positions;
    // Upper corner in half units: x = 1, y = -3, z = -1; lower corner two less.
    assert_eq!(p[0], Vertex { x: -1, y: -3, z: -1 });
    assert_eq!(p[1], Vertex { x: -1, y: -5, z: -1 });
    assert_eq!(p[2], Vertex { x: 1, y: -5, z: -1 });
    assert_eq!(p[5], Vertex { x: 1, y: -3, z: -1 });
    assert_eq!(p[8], Vertex { x: -1, y: -5, z: -3 });
    assert_eq!(p[18], Vertex { x: 1, y: -5, z: -3 });
    assert_eq!(p[19], Vertex { x: 1, y: -5, z: -1 });
    assert_eq!(p[35], Vertex { x: 1, y: -5, z: -3 });
    for face in p.chunks(6) {
        let xs: Vec<i64> = face.iter().map(|v| v.x).collect();
        let ys: Vec<i64> = face.iter().map(|v| v.y).collect();
        let zs: Vec<i64> = face.iter().map(|v| v.z).collect();
        let flat = |c: &Vec<i64>| c.iter().all(|a| *a == c[0]);
        assert!(flat(&xs) || flat(&ys) || flat(&zs));
    }
}

#[test]
fn index_buffer_runs_to_the_vertex_count_inclusive() {
    let g = filled(2, |x, y, z| (x + y + z) as i64);
    let m = create_mesh(&g, 1);
    assert_eq!(m.positions.len(), 36 * 4);
    let ix = m.indices.unwrap();
    assert_eq!(ix.len(), 36 * 4 + 1);
    let expected: Vec<u32> = (0..=(36 * 4) as u32).collect();
    assert_eq!(ix, expected);
}

#[test]
fn index_buffer_values() {
    assert_eq!(index_buffer(0), Some(vec![0]));
    assert_eq!(index_buffer(3), Some(vec![0, 1, 2, 3]));
    assert_eq!(index_buffer(u32::MAX as usize + 1), None);
}

#[test]
fn nothing_qualifies_below_every_sample() {
    let g = radial_grid(4);
    let m = create_mesh(&g, -1);
    assert!(m.positions.is_empty());
    assert_eq!(m.indices, Some(vec![0]));
}

#[test]
fn empty_grid_extracts_nothing() {
    let g = VoxelGrid::new(0);
    assert!(g.data.is_empty());
    let m = create_mesh(&g, 100);
    assert!(m.positions.is_empty());
    assert_eq!(m.indices, Some(vec![0]));
}

#[test]
fn extraction_leaves_the_grid_unchanged() {
    let g = radial_grid(3);
    let before = g.data.clone();
    let _ = create_mesh(&g, 5);
    assert_eq!(g.data, before);
}

#[test]
fn markers_sit_at_cell_positions_and_flag_samples_below_the_limit() {
    let g = filled(2, |x, y, z| (x + y + z) as i64);
    let ms = markers(&g, 2);
    assert_eq!(ms.len(), 8);
    assert_eq!(ms[0].position, Vertex { x: -2, y: -2, z: -2 });
    assert!(ms[0].near);
    assert_eq!(ms[3].position, Vertex { x: 0, y: 0, z: -2 });
    assert!(!ms[3].near);
    assert_eq!(ms[4].position, Vertex { x: -2, y: -2, z: 0 });
    assert!(ms[4].near);
    assert_eq!(ms[7].position, Vertex { x: 0, y: 0, z: 0 });
    assert!(!ms[7].near);
}

#[test]
fn fill_result_does_not_depend_on_previous_contents() {
    let mut a = filled(3, |x, y, z| (x * 7 + y * 3 + z) as i64 - 40);
    let mut b = VoxelGrid::new(3);
    a.map(|x, y, z, _| radial_distance_sq(3, x, y, z));
    b.map(|x, y, z, _| radial_distance_sq(3, x, y, z));
    assert_eq!(a.data, b.data);
    assert_eq!(a.read(0, 2, 1), 9 + 1 + 1);
}
