use itertools::Itertools;
use vstd::arithmetic::div_mod::{lemma_fundamental_div_mod, lemma_fundamental_div_mod_converse};
use vstd::prelude::*;

verus! {

/// A vertex of the grid, by its row (along Z) and column (along X).
#[derive(Clone, Copy, Debug, PartialEq, Eq, Structural)]
pub struct GridPoint {
    pub row: u32,
    pub col: u32,
}

/// A vertex position as exact fractions of the grid's size: the vertex lies
/// at `(size * x_num / den, 0, size * z_num / den)`.
#[derive(Clone, Copy, Debug, PartialEq, Eq, Structural)]
pub struct PlaneRatio {
    pub x_num: i64,
    pub z_num: i64,
    pub den: u64,
}

/// A unit normal along a coordinate axis, given by its exact components.
#[derive(Clone, Copy, Debug, PartialEq, Eq, Structural)]
pub struct AxisNormal {
    pub x: i8,
    pub y: i8,
    pub z: i8,
}

/// Texture coordinates as exact fractions: `u = u_num / den`, `v = v_num / den`.
#[derive(Clone, Copy, Debug, PartialEq, Eq, Structural)]
pub struct UvRatio {
    pub u_num: u32,
    pub v_num: u32,
    pub den: u32,
}

/// Why a grid could not be built.
#[derive(Clone, Copy, Debug, PartialEq, Eq, Structural)]
pub enum GridError {
    /// The resolution is so large that vertex offsets overflow `u32` or the
    /// buffers cannot be addressed.
    InvalidGridSpec,
}

/// The buffers of a tessellated square grid. Vertex attributes share one
/// row-major order; `indices` holds three vertex offsets per triangle.
pub struct GridMesh {
    pub resolution: u32,
    pub points: Vec<GridPoint>,
    pub positions: Vec<PlaneRatio>,
    pub normals: Vec<AxisNormal>,
    pub uvs: Vec<UvRatio>,
    pub indices: Vec<u32>,
}

/// What a `GridMesh` holds, as sequences.
pub struct MeshModel {
    pub resolution: nat,
    pub points: Seq<GridPoint>,
    pub positions: Seq<PlaneRatio>,
    pub normals: Seq<AxisNormal>,
    pub uvs: Seq<UvRatio>,
    pub indices: Seq<u32>,
}

impl View for GridMesh {
    type V = MeshModel;

    open spec fn view(&self) -> MeshModel {
        MeshModel {
            resolution: self.resolution as nat,
            points: self.points@,
            positions: self.positions@,
            normals: self.normals@,
            uvs: self.uvs@,
            indices: self.indices@,
        }
    }
}

/// Number of vertices along one axis of a grid with `resolution` cells per axis.
pub open spec fn side_len(resolution: nat) -> nat {
    resolution + 1
}

/// Number of vertices of a grid with `resolution` cells per axis.
pub open spec fn vertex_count_of(resolution: nat) -> nat {
    side_len(resolution) * side_len(resolution)
}

/// Row of the `k`-th vertex in row-major order.
pub open spec fn row_of(resolution: nat, k: nat) -> nat {
    k / side_len(resolution)
}

/// Column of the `k`-th vertex in row-major order.
pub open spec fn col_of(resolution: nat, k: nat) -> nat {
    k % side_len(resolution)
}

/// The `k`-th vertex in row-major order.
pub open spec fn point_of(resolution: nat, k: nat) -> GridPoint {
    GridPoint { row: row_of(resolution, k) as u32, col: col_of(resolution, k) as u32 }
}

/// The normal of every vertex of the flat grid: straight up, `(0, 1, 0)`.
pub open spec fn up() -> AxisNormal {
    AxisNormal { x: 0, y: 1, z: 0 }
}

/// Position of a vertex. With `extent = size / 2` and `step = extent / R`,
/// the vertex sits at `x = col * step - extent / 2` and `z = row * step - extent / 2`,
/// that is at `size * (2 * col - R) / (4 * R)` and `size * (2 * row - R) / (4 * R)`.
pub open spec fn position_of(resolution: nat, p: GridPoint) -> PlaneRatio {
    PlaneRatio {
        x_num: (2 * p.col - resolution) as i64,
        z_num: (2 * p.row - resolution) as i64,
        den: (4 * resolution) as u64,
    }
}

/// Texture coordinates of a vertex: `(col / resolution, row / resolution)`.
pub open spec fn uv_of(resolution: nat, p: GridPoint) -> UvRatio {
    UvRatio { u_num: p.col, v_num: p.row, den: resolution as u32 }
}

/// Relies on itertools' `Itertools::cartesian_product`: for two ranges it
/// yields every pair, the first component varying slowest.
#[verifier::external_body]
fn row_major_pairs(n: u32) -> (r: Vec<(u32, u32)>)
    requires
        vertex_count_of(n as nat) <= usize::MAX,
    ensures
        r@.len() == vertex_count_of(n as nat),
        forall|k: int|
            0 <= k < r@.len() ==> r@[k].0 as nat == row_of(n as nat, k as nat) && r@[k].1 as nat
                == col_of(n as nat, k as nat),
{
    (0..=n).cartesian_product(0..=n).collect()
}

/// Linear offset of the vertex at `(row, col)` in the row-major vertex buffer.
pub open spec fn vertex_index(resolution: nat, row: nat, col: nat) -> nat {
    row * side_len(resolution) + col
}

/// Number of triangles of a grid with `resolution` cells per axis: two per cell.
pub open spec fn triangle_count(resolution: nat) -> nat {
    2 * (resolution * resolution)
}

/// The `t`-th triangle of the grid. Cells are taken in row-major order, and
/// each cell with lower-left corner `i` gives first `(i, i+R+2, i+1)`, then
/// `(i, i+R+1, i+R+2)`, where `R` is the resolution.
pub open spec fn triangle_of(resolution: nat, t: nat) -> (nat, nat, nat) {
    let cell = t / 2;
    let i = vertex_index(resolution, cell / resolution, cell % resolution);
    if t % 2 == 0 {
        (i, i + resolution + 2, i + 1)
    } else {
        (i, i + resolution + 1, i + resolution + 2)
    }
}

/// The `t`-th index triple of a flat index list.
pub open spec fn triple_at(indices: Seq<u32>, t: int) -> (nat, nat, nat) {
    (indices[3 * t] as nat, indices[3 * t + 1] as nat, indices[3 * t + 2] as nat)
}

/// A resolution whose vertex offsets fit in `u32` and whose buffers fit in memory.
pub open spec fn valid_resolution(resolution: nat) -> bool {
    &&& vertex_count_of(resolution) <= u32::MAX + 1
    &&& vertex_count_of(resolution) <= usize::MAX
    &&& 6 * (resolution * resolution) <= usize::MAX
}

proof fn lemma_valid_bounds(r: nat)
    requires
        valid_resolution(r),
    ensures
        r + 1 <= 0x10000,
        r * r <= 0x1_0000_0000,
{
    assert(r + 1 <= 0x10000) by (nonlinear_arith)
        requires
            (r + 1) * (r + 1) <= 0x1_0000_0000,
    ;
    assert(r * r <= 0x1_0000_0000) by (nonlinear_arith)
        requires
            (r + 1) * (r + 1) <= 0x1_0000_0000,
    ;
}

/// Splits cell number `row * r + col` back into its row and column.
proof fn lemma_cell_split(r: nat, row: nat, col: nat)
    requires
        col < r,
    ensures
        (row * r + col) / r == row,
        (row * r + col) % r == col,
        (2 * (row * r + col)) / 2 == row * r + col,
        (2 * (row * r + col)) % 2 == 0,
        (2 * (row * r + col) + 1) / 2 == row * r + col,
        (2 * (row * r + col) + 1) % 2 == 1,
{
    lemma_fundamental_div_mod_converse((row * r + col) as int, r as int, row as int, col as int);
}

/// Every triangle of the grid names three distinct vertices, each of them
/// inside the vertex buffer.
pub proof fn lemma_triangle_well_formed(resolution: nat, t: nat)
    requires
        t < triangle_count(resolution),
    ensures
        triangle_of(resolution, t).0 < vertex_count_of(resolution),
        triangle_of(resolution, t).1 < vertex_count_of(resolution),
        triangle_of(resolution, t).2 < vertex_count_of(resolution),
        triangle_of(resolution, t).0 != triangle_of(resolution, t).1,
        triangle_of(resolution, t).1 != triangle_of(resolution, t).2,
        triangle_of(resolution, t).0 != triangle_of(resolution, t).2,
{
    let r = resolution;
    let cell = t / 2;
    assert(r > 0) by (nonlinear_arith)
        requires
            t < 2 * (r * r),
    ;
    assert(cell < r * r);
    let row = cell / r;
    let col = cell % r;
    lemma_fundamental_div_mod(cell as int, r as int);
    assert(row < r) by (nonlinear_arith)
        requires
            cell == r * row + col,
            cell < r * r,
            col >= 0,
    ;
    assert(row * (r + 1) + col + r + 2 < (r + 1) * (r + 1)) by (nonlinear_arith)
        requires
            row < r,
            col < r,
    ;
}

/// The `p`-th entry of the flat index list: a corner of triangle `p / 3`.
pub open spec fn index_entry(resolution: nat, p: nat) -> nat {
    let tri = triangle_of(resolution, p / 3);
    if p % 3 == 0 {
        tri.0
    } else if p % 3 == 1 {
        tri.1
    } else {
        tri.2
    }
}

/// The complete mesh of a grid with `resolution` cells per axis.
pub open spec fn grid_mesh(resolution: nat) -> MeshModel {
    let n = vertex_count_of(resolution);
    MeshModel {
        resolution,
        points: Seq::new(n, |k: int| point_of(resolution, k as nat)),
        positions: Seq::new(n, |k: int| position_of(resolution, point_of(resolution, k as nat))),
        normals: Seq::new(n, |k: int| up()),
        uvs: Seq::new(n, |k: int| uv_of(resolution, point_of(resolution, k as nat))),
        indices: Seq::new(
            3 * triangle_count(resolution),
            |p: int| index_entry(resolution, p as nat) as u32,
        ),
    }
}

/// The texture coordinates run from `(0, 0)` at the first vertex to `(1, 1)`
/// at the last one.
pub proof fn lemma_uv_corners(resolution: nat)
    requires
        1 <= resolution <= u32::MAX,
    ensures
        grid_mesh(resolution).uvs[0] == (UvRatio { u_num: 0, v_num: 0, den: resolution as u32 }),
        grid_mesh(resolution).uvs[vertex_count_of(resolution) - 1] == (UvRatio {
            u_num: resolution as u32,
            v_num: resolution as u32,
            den: resolution as u32,
        }),
{
    let r = resolution;
    let last = vertex_count_of(r) - 1;
    assert(last == r * (r + 1) + r) by (nonlinear_arith)
        requires
            last == (r + 1) * (r + 1) - 1,
    ;
    lemma_fundamental_div_mod_converse(last as int, (r + 1) as int, r as int, r as int);
    assert(0nat / (r + 1) == 0 && 0nat % (r + 1) == 0);
}

/// Whether a grid of this resolution can be built.
fn resolution_fits(resolution: u32) -> (ok: bool)
    ensures
        ok == valid_resolution(resolution as nat),
{
    if resolution >= 0x10000 {
        proof {
            assert((resolution as nat + 1) * (resolution as nat + 1) > 0x1_0000_0000)
                by (nonlinear_arith)
                requires
                    resolution >= 0x10000,
            ;
        }
        return false;
    }
    let n: u64 = resolution as u64 + 1;
    assert(n * n <= 0x1_0000_0000) by (nonlinear_arith)
        requires
            n <= 0x10000,
    ;
    assert(resolution as u64 * resolution as u64 <= n * n) by (nonlinear_arith)
        requires
            n == resolution + 1,
    ;
    let count: u64 = n * n;
    let cells: u64 = resolution as u64 * resolution as u64;
    let limit: u64 = usize::MAX as u64;
    count <= 0x1_0000_0000 && count <= limit && 6 * cells <= limit
}

/// The triangle list of a grid with `resolution` cells per axis: two triangles
/// per cell, cells in row-major order.
pub fn triangle_indices(resolution: u32) -> (out: Vec<u32>)
    requires
        valid_resolution(resolution as nat),
    ensures
        out@.len() == 3 * triangle_count(resolution as nat),
        forall|t: int|
            0 <= t < triangle_count(resolution as nat) ==> #[trigger] triple_at(out@, t)
                == triangle_of(resolution as nat, t as nat),
        forall|t: int|
            0 <= t < triangle_count(resolution as nat) ==> {
                &&& #[trigger] triple_at(out@, t).0 < vertex_count_of(resolution as nat)
                &&& triple_at(out@, t).1 < vertex_count_of(resolution as nat)
                &&& triple_at(out@, t).2 < vertex_count_of(resolution as nat)
                &&& triple_at(out@, t).0 != triple_at(out@, t).1
                &&& triple_at(out@, t).1 != triple_at(out@, t).2
                &&& triple_at(out@, t).0 != triple_at(out@, t).2
            },
{
    let ghost r = resolution as nat;
    proof {
        lemma_valid_bounds(r);
    }
    let side: u32 = resolution + 1;
    let mut out: Vec<u32> = Vec::new();
    let mut row: u32 = 0;
    while row < resolution
        invariant
            valid_resolution(r),
            r == resolution,
            side == r + 1,
            row <= r,
            out@.len() == 6 * (row * r),
            forall|t: int|
                0 <= t < 2 * (row * r) ==> #[trigger] triple_at(out@, t) == triangle_of(r, t as nat),
        decreases resolution - row,
    {
        let mut col: u32 = 0;
        while col < resolution
            invariant
                valid_resolution(r),
                r == resolution,
                side == r + 1,
                row < r,
                col <= r,
                out@.len() == 6 * (row * r + col),
                forall|t: int|
                    0 <= t < 2 * (row * r + col) ==> #[trigger] triple_at(out@, t) == triangle_of(
                        r,
                        t as nat,
                    ),
            decreases resolution - col,
        {
            let ghost cell = row * r + col;
            assert(row * side + col + side + 1 <= 0xffff_ffff) by (nonlinear_arith)
                requires
                    row < r,
                    col < r,
                    side == r + 1,
                    (r + 1) * (r + 1) <= 0x1_0000_0000,
            ;
            let i: u32 = row * side + col;
            let ghost before = out@;
            out.push(i);
            out.push(i + side + 1);
            out.push(i + 1);
            out.push(i);
            out.push(i + side);
            out.push(i + side + 1);
            proof {
                lemma_cell_split(r, row as nat, col as nat);
                assert(6 * cell + 6 == 6 * (row * r + col + 1));
                assert forall|t: int| 0 <= t < 2 * (cell + 1) implies #[trigger] triple_at(out@, t)
                    == triangle_of(r, t as nat) by {
                    if t < 2 * cell {
                        assert(triple_at(before, t) == triangle_of(r, t as nat));
                    } else if t == 2 * cell {
                        assert(3 * t == 6 * cell);
                    } else {
                        assert(t == 2 * cell + 1);
                        assert(3 * t == 6 * cell + 3);
                    }
                }
            }
            col = col + 1;
        }
        assert(row * r + r == (row + 1) * r) by (nonlinear_arith);
        row = row + 1;
    }
    assert forall|t: int| 0 <= t < triangle_count(r) implies {
        &&& #[trigger] triple_at(out@, t).0 < vertex_count_of(r)
        &&& triple_at(out@, t).1 < vertex_count_of(r)
        &&& triple_at(out@, t).2 < vertex_count_of(r)
        &&& triple_at(out@, t).0 != triple_at(out@, t).1
        &&& triple_at(out@, t).1 != triple_at(out@, t).2
        &&& triple_at(out@, t).0 != triple_at(out@, t).2
    } by {
        lemma_triangle_well_formed(r, t as nat);
    }
    out
}

/// Builds the mesh of a square grid with `resolution` cells per axis, or
/// reports a resolution too large for `u32` vertex offsets.
pub fn build(resolution: u32) -> (res: Result<GridMesh, GridError>)
    ensures
        res is Err <==> !valid_resolution(resolution as nat),
        res matches Err(e) ==> e == GridError::InvalidGridSpec,
        res matches Ok(m) ==> m@ == grid_mesh(resolution as nat),
        res matches Ok(m) ==> {
            &&& m.points@.len() == vertex_count_of(resolution as nat)
            &&& m.positions@.len() == vertex_count_of(resolution as nat)
            &&& m.normals@.len() == vertex_count_of(resolution as nat)
            &&& m.uvs@.len() == vertex_count_of(resolution as nat)
            &&& m.indices@.len() == 6 * (resolution * resolution)
        },
        res matches Ok(m) ==> forall|k: int|
            0 <= k < m.normals@.len() ==> #[trigger] m.normals@[k] == up(),
        res matches Ok(m) ==> forall|t: int|
            0 <= t < triangle_count(resolution as nat) ==> {
                &&& #[trigger] triple_at(m.indices@, t).0 < m.points@.len()
                &&& triple_at(m.indices@, t).1 < m.points@.len()
                &&& triple_at(m.indices@, t).2 < m.points@.len()
                &&& triple_at(m.indices@, t).0 != triple_at(m.indices@, t).1
                &&& triple_at(m.indices@, t).1 != triple_at(m.indices@, t).2
                &&& triple_at(m.indices@, t).0 != triple_at(m.indices@, t).2
            },
        resolution >= 1 ==> (res matches Ok(m) ==> {
            &&& m.uvs@[0] == (UvRatio { u_num: 0, v_num: 0, den: resolution })
            &&& m.uvs@.last() == (UvRatio {
                u_num: resolution,
                v_num: resolution,
                den: resolution,
            })
        }),
{
    if !resolution_fits(resolution) {
        return Err(GridError::InvalidGridSpec);
    }
    let ghost r = resolution as nat;
    let pairs = row_major_pairs(resolution);
    let mut points: Vec<GridPoint> = Vec::new();
    let mut positions: Vec<PlaneRatio> = Vec::new();
    let mut normals: Vec<AxisNormal> = Vec::new();
    let mut uvs: Vec<UvRatio> = Vec::new();
    let mut k: usize = 0;
    while k < pairs.len()
        invariant
            r == resolution,
            pairs@.len() == vertex_count_of(r),
            forall|j: int|
                0 <= j < pairs@.len() ==> pairs@[j].0 as nat == row_of(r, j as nat)
                    && pairs@[j].1 as nat == col_of(r, j as nat),
            k <= pairs@.len(),
            points@.len() == k,
            positions@.len() == k,
            normals@.len() == k,
            uvs@.len() == k,
            forall|j: int| 0 <= j < k ==> #[trigger] points@[j] == point_of(r, j as nat),
            forall|j: int| 0 <= j < k ==> #[trigger] normals@[j] == up(),
            forall|j: int|
                0 <= j < k ==> #[trigger] positions@[j] == position_of(r, point_of(r, j as nat)),
            forall|j: int|
                0 <= j < k ==> #[trigger] uvs@[j] == uv_of(r, point_of(r, j as nat)),
        decreases pairs@.len() - k,
    {
        let (row, col) = pairs[k];
        let p = GridPoint { row, col };
        points.push(p);
        positions.push(
            PlaneRatio {
                x_num: 2 * col as i64 - resolution as i64,
                z_num: 2 * row as i64 - resolution as i64,
                den: 4 * resolution as u64,
            },
        );
        normals.push(AxisNormal { x: 0, y: 1, z: 0 });
        uvs.push(UvRatio { u_num: col, v_num: row, den: resolution });
        k = k + 1;
    }
    let indices = triangle_indices(resolution);
    let mesh = GridMesh { resolution, points, positions, normals, uvs, indices };
    proof {
        let model = grid_mesh(r);
        assert(mesh.points@ =~= model.points);
        assert(mesh.positions@ =~= model.positions);
        assert(mesh.normals@ =~= model.normals);
        assert(mesh.uvs@ =~= model.uvs);
        assert forall|p: int| 0 <= p < mesh.indices@.len() implies mesh.indices@[p]
            == model.indices[p] by {
            let t = p / 3;
            assert(0 <= t < triangle_count(r));
            assert(p == 3 * t + p % 3);
            assert(triple_at(mesh.indices@, t) == triangle_of(r, t as nat));
        }
        assert(mesh.indices@ =~= model.indices);
        if resolution >= 1 {
            lemma_uv_corners(r);
        }
    }
    Ok(mesh)
}

/// Building twice from the same resolution gives the same outcome: the same
/// error, or meshes with identical buffers.
pub proof fn lemma_build_deterministic(
    resolution: u32,
    first: Result<GridMesh, GridError>,
    second: Result<GridMesh, GridError>,
)
    requires
        first is Err <==> !valid_resolution(resolution as nat),
        first matches Err(e) ==> e == GridError::InvalidGridSpec,
        first matches Ok(m) ==> m@ == grid_mesh(resolution as nat),
        second is Err <==> !valid_resolution(resolution as nat),
        second matches Err(e) ==> e == GridError::InvalidGridSpec,
        second matches Ok(m) ==> m@ == grid_mesh(resolution as nat),
    ensures
        first is Ok <==> second is Ok,
        first matches Err(e1) ==> second matches Err(e2) && e1 == e2,
        first matches Ok(m1) ==> second matches Ok(m2) && m1@ == m2@,
{
}

} // verus!
