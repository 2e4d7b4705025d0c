use land_mesh::grid::{build, triangle_indices, AxisNormal, GridError, GridMesh, GridPoint, PlaneRatio, UvRatio};

fn mesh(resolution: u32) -> GridMesh {
    match build(resolution) {
        Ok(m) => m,
        Err(e) => panic!("resolution {} refused: {:?}", resolution, e),
    }
}

fn point(row: u32, col: u32) -> GridPoint {
    GridPoint { row, col }
}

#[test]
fn single_cell_grid() {
    let m = mesh(1);
    assert_eq!(m.resolution, 1);
    assert_eq!(m.points, vec![point(0, 0), point(0, 1), point(1, 0), point(1, 1)]);
    assert_eq!(m.indices, vec![0, 3, 1, 0, 2, 3]);
    assert_eq!(m.indices.len() / 3, 2);
    let uvs: Vec<(u32, u32, u32)> = m.uvs.iter().map(|uv| (uv.u_num, uv.v_num, uv.den)).collect();
    assert_eq!(uvs, vec![(0, 0, 1), (1, 0, 1), (0, 1, 1), (1, 1, 1)]);

    assert_eq!(
        m.positions,
        vec![
            PlaneRatio { x_num: -1, z_num: -1, den: 4 },
            PlaneRatio { x_num: 1, z_num: -1, den: 4 },
            PlaneRatio { x_num: -1, z_num: 1, den: 4 },
            PlaneRatio { x_num: 1, z_num: 1, den: 4 },
        ]
    );
    let size = 2.0f64;
    let positions: Vec<(f64, f64, f64)> = m
        .positions
        .iter()
        .map(|p| (size * p.x_num as f64 / p.den as f64, 0.0, size * p.z_num as f64 / p.den as f64))
        .collect();
    assert_eq!(
        positions,
        vec![(-0.5, 0.0, -0.5), (0.5, 0.0, -0.5), (-0.5, 0.0, 0.5), (0.5, 0.0, 0.5)]
    );
}

#[test]
fn buffer_sizes_follow_resolution() {
    for r in 1u32..=12 {
        let m = mesh(r);
        let n = ((r + 1) * (r + 1)) as usize;
        assert_eq!(m.points.len(), n);
        assert_eq!(m.positions.len(), n);
        assert_eq!(m.normals.len(), n);
        assert_eq!(m.uvs.len(), n);
        assert_eq!(m.indices.len(), (6 * r * r) as usize);
    }
}

#[test]
fn triangles_reference_distinct_valid_vertices() {
    for r in 1u32..=9 {
        let m = mesh(r);
        let n = m.points.len() as u32;
        for tri in m.indices.chunks(3) {
            assert_eq!(tri.len(), 3);
            assert!(tri[0] < n && tri[1] < n && tri[2] < n);
            assert!(tri[0] != tri[1] && tri[1] != tri[2] && tri[0] != tri[2]);
        }
    }
}

#[test]
fn uv_corners_span_unit_square() {
    let m = mesh(5);
    assert_eq!(m.uvs[0], UvRatio { u_num: 0, v_num: 0, den: 5 });
    assert_eq!(m.uvs[m.uvs.len() - 1], UvRatio { u_num: 5, v_num: 5, den: 5 });
    assert_eq!(m.uvs[2], UvRatio { u_num: 2, v_num: 0, den: 5 });
    assert_eq!(m.uvs[6], UvRatio { u_num: 0, v_num: 1, den: 5 });
}

#[test]
fn normals_point_up() {
    for r in [0u32, 1, 3, 10] {
        let m = mesh(r);
        assert!(m.normals.iter().all(|n| *n == AxisNormal { x: 0, y: 1, z: 0 }));
    }
}

#[test]
fn build_is_deterministic() {
    let a = mesh(7);
    let b = mesh(7);
    assert_eq!(a.resolution, b.resolution);
    assert_eq!(a.points, b.points);
    assert_eq!(a.positions, b.positions);
    assert_eq!(a.normals, b.normals);
    assert_eq!(a.uvs, b.uvs);
    assert_eq!(a.indices, b.indices);
}

#[test]
fn zero_resolution_is_one_vertex() {
    let m = mesh(0);
    assert_eq!(m.points, vec![point(0, 0)]);
    assert_eq!(m.normals.len(), 1);
    assert_eq!(m.uvs, vec![UvRatio { u_num: 0, v_num: 0, den: 0 }]);
    assert!(m.indices.is_empty());
}

#[test]
fn oversized_resolution_is_rejected() {
    assert!(matches!(build(65536), Err(GridError::InvalidGridSpec)));
    assert!(matches!(build(u32::MAX), Err(GridError::InvalidGridSpec)));
}

#[test]
fn vertices_are_row_major() {
    let m = mesh(2);
    assert_eq!(
        m.points,
        vec![
            point(0, 0),
            point(0, 1),
            point(0, 2),
            point(1, 0),
            point(1, 1),
            point(1, 2),
            point(2, 0),
            point(2, 1),
            point(2, 2),
        ]
    );
}

#[test]
fn two_by_two_triangle_list() {
    assert_eq!(
        triangle_indices(2),
        vec![0, 4, 1, 0, 3, 4, 1, 5, 2, 1, 4, 5, 3, 7, 4, 3, 6, 7, 4, 8, 5, 4, 7, 8]
    );
}

#[test]
fn positions_span_half_the_size() {
    // size 100 with 4 cells: extent 50, step 12.5, x from -25 to 25.
    let m = mesh(4);
    let size = 100.0f64;
    let xs: Vec<f64> = m.positions[0..5]
        .iter()
        .map(|p| size * p.x_num as f64 / p.den as f64)
        .collect();
    assert_eq!(xs, vec![-25.0, -12.5, 0.0, 12.5, 25.0]);
    assert_eq!(m.positions[24], PlaneRatio { x_num: 4, z_num: 4, den: 16 });
    assert_eq!(m.positions[5], PlaneRatio { x_num: -4, z_num: -2, den: 16 });
}

#[test]
fn zero_resolution_has_no_triangles() {
    assert!(triangle_indices(0).is_empty());
}
