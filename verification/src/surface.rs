//! Triangulation of parametric surfaces. The surface is sampled on a grid
//! of `(u_resolution + 1) x (v_resolution + 1)` points (the sampling itself
//! is floating point and happens outside); every grid cell then becomes two
//! triangles, six vertices, each coloured from a fixed palette.

use vstd::prelude::*;
use vstd::string::StringExecFns;

use crate::attribute::{flat, AttributeData};
use crate::buffer_geometry::{insert_all, insert_entry, has_name, Geometry};
use crate::gl;

verus! {

/// Position of corner `j` of the cell `(x, y)` in the vertex list of a grid
/// whose rows have `v_cells` cells.
pub open spec fn cell_index(v_cells: int, x: int, y: int, j: int) -> int {
    6 * (x * v_cells + y) + j
}

/// Grid offsets (along u, along v) of the six corners emitted for a cell:
/// the triangles a-b-c and a-c-d, where a is the cell's own grid point, b
/// one step along u, c one step along both and d one step along v.
pub open spec fn corner_offset(j: int) -> (int, int) {
    if j == 0 {
        (0, 0)
    } else if j == 1 {
        (1, 0)
    } else if j == 2 {
        (1, 1)
    } else if j == 3 {
        (0, 0)
    } else if j == 4 {
        (1, 1)
    } else {
        (0, 1)
    }
}

/// The grid point that corner `j` of cell `(x, y)` stands on.
pub open spec fn corner_point<T>(grid: Seq<Vec<T>>, x: int, y: int, j: int) -> T {
    grid[x + corner_offset(j).0]@[y + corner_offset(j).1]
}

/// A grid of `u_cells + 1` rows of `v_cells + 1` points each.
pub open spec fn is_grid<T>(grid: Seq<Vec<T>>, u_cells: int, v_cells: int) -> bool {
    &&& grid.len() == u_cells + 1
    &&& forall|i: int| 0 <= i < grid.len() ==> (#[trigger] grid[i])@.len() == v_cells + 1
}

/// The vertex list of a triangulated grid with `v_cells` cells per row:
/// vertex `k` is corner `k % 6` of cell `k / 6`, cells counted row by row.
pub open spec fn triangulation<T>(grid: Seq<Vec<T>>, v_cells: int, count: int) -> Seq<T> {
    Seq::new(count as nat, |k: int| corner_point(grid, (k / 6) / v_cells, (k / 6) % v_cells, k % 6))
}

/// `count` colours cycling through the six palette entries.
pub open spec fn color_pattern<C>(palette: Seq<C>, count: int) -> Seq<C> {
    Seq::new(count as nat, |k: int| palette[k % 6])
}

/// Vertex `k` of a list of `6 * u * v` vertices is corner `k % 6` of the
/// cell `((k / 6) / v, (k / 6) % v)`, which lies inside the grid.
proof fn lemma_vertex_cell(u: int, v: int, k: int)
    requires
        0 <= k < 6 * u * v,
        0 <= u,
        0 <= v,
    ensures
        v > 0,
        0 <= (k / 6) / v < u,
        0 <= (k / 6) % v < v,
        k == cell_index(v, (k / 6) / v, (k / 6) % v, k % 6),
        0 <= k % 6 < 6,
{
    assert(v > 0) by (nonlinear_arith)
        requires
            0 <= k < 6 * u * v,
            0 <= u,
            0 <= v,
    ;
    let c = k / 6;
    vstd::arithmetic::div_mod::lemma_fundamental_div_mod(c, v);
    vstd::arithmetic::div_mod::lemma_mod_pos_bound(c, v);
    vstd::arithmetic::div_mod::lemma_div_pos_is_pos(c, v);
    let x = c / v;
    let y = c % v;
    assert(c == x * v + y) by (nonlinear_arith)
        requires
            c == v * x + y,
    ;
    assert(c < u * v) by (nonlinear_arith)
        requires
            0 <= k < 6 * u * v,
            c == k / 6,
    ;
    assert(x < u) by (nonlinear_arith)
        requires
            c == x * v + y,
            0 <= y,
            c < u * v,
            v > 0,
    ;
}

proof fn lemma_cell_before(v: int, x1: int, y1: int, x2: int, y2: int)
    requires
        0 <= x1,
        0 <= y1 < v,
        0 <= y2,
        x1 < x2 || (x1 == x2 && y1 < y2),
    ensures
        x1 * v + y1 < x2 * v + y2,
{
    if x1 < x2 {
        assert(x1 * v + v <= x2 * v) by (nonlinear_arith)
            requires
                x1 < x2,
                0 < v,
        ;
    }
}

/// The vertex list of a sampled surface: for each cell, row by row, the six
/// corners of its two triangles.
pub fn triangulate_grid<T: Copy>(grid: &Vec<Vec<T>>, u_resolution: u16, v_resolution: u16) -> (r: Vec<T>)
    requires
        is_grid(grid@, u_resolution as int, v_resolution as int),
    ensures
        r@.len() == 6 * u_resolution * v_resolution,
        forall|x: int, y: int, j: int|
            0 <= x < u_resolution && 0 <= y < v_resolution && 0 <= j < 6 ==> #[trigger] r@[cell_index(
                v_resolution as int,
                x,
                y,
                j,
            )] == corner_point(grid@, x, y, j),
        r@ == triangulation(grid@, v_resolution as int, 6 * u_resolution * v_resolution),
{
    let u: usize = u_resolution as usize;
    let v: usize = v_resolution as usize;
    let ghost vv: int = v as int;
    let mut out: Vec<T> = Vec::new();
    let mut x: usize = 0;
    while x < u
        invariant
            u == u_resolution,
            v == vv,
            vv == v_resolution,
            is_grid(grid@, u as int, vv),
            x <= u,
            out@.len() == 6 * (x * vv),
            forall|x1: int, y1: int, j: int|
                0 <= x1 < x && 0 <= y1 < vv && 0 <= j < 6 ==> #[trigger] out@[cell_index(vv, x1, y1, j)]
                    == corner_point(grid@, x1, y1, j),
        decreases u - x,
    {
        let mut y: usize = 0;
        while y < v
            invariant
                u == u_resolution,
                v == vv,
                vv == v_resolution,
                is_grid(grid@, u as int, vv),
                x < u,
                y <= v,
                out@.len() == 6 * (x * vv + y),
                forall|x1: int, y1: int, j: int|
                    0 <= x1 && 0 <= y1 < vv && 0 <= j < 6 && (x1 < x || (x1 == x && y1 < y))
                        ==> #[trigger] out@[cell_index(vv, x1, y1, j)] == corner_point(grid@, x1, y1, j),
            decreases v - y,
        {
            let row: &Vec<T> = &grid[x];
            let next: &Vec<T> = &grid[x + 1];
            assert(row@.len() == vv + 1 && next@.len() == vv + 1) by {
                assert(grid@[x as int] == *row);
                assert(grid@[x + 1] == *next);
            }
            let p_a: T = row[y];
            let p_b: T = next[y];
            let p_d: T = row[y + 1];
            let p_c: T = next[y + 1];
            let ghost before = out@;
            out.push(p_a);
            out.push(p_b);
            out.push(p_c);
            out.push(p_a);
            out.push(p_c);
            out.push(p_d);
            proof {
                assert(out@ == before + seq![p_a, p_b, p_c, p_a, p_c, p_d]);
                assert forall|x1: int, y1: int, j: int|
                    0 <= x1 && 0 <= y1 < vv && 0 <= j < 6 && (x1 < x || (x1 == x && y1 < y + 1))
                        implies #[trigger] out@[cell_index(vv, x1, y1, j)] == corner_point(
                        grid@,
                        x1,
                        y1,
                        j,
                    ) by {
                    if x1 < x || (x1 == x && y1 < y) {
                        lemma_cell_before(vv, x1, y1, x as int, y as int);
                        assert(out@[cell_index(vv, x1, y1, j)] == before[cell_index(vv, x1, y1, j)]);
                    } else {
                        assert(cell_index(vv, x1, y1, j) == before.len() + j);
                        assert(grid@[x as int] == *row);
                        assert(grid@[x + 1] == *next);
                    }
                }
            }
            y += 1;
        }
        proof {
            assert(6 * (x * vv + vv) == 6 * ((x + 1) * vv)) by (nonlinear_arith);
        }
        x += 1;
    }
    assert(6 * (u * vv) == 6 * u_resolution * v_resolution) by (nonlinear_arith)
        requires
            u == u_resolution,
            vv == v_resolution,
    ;
    assert(out@ =~= triangulation(grid@, vv, 6 * u_resolution * v_resolution)) by {
        assert forall|k: int| 0 <= k < out@.len() implies out@[k] == triangulation(
            grid@,
            vv,
            6 * u_resolution * v_resolution,
        )[k] by {
            lemma_vertex_cell(u as int, vv, k);
            assert(out@[cell_index(vv, (k / 6) / vv, (k / 6) % vv, k % 6)] == corner_point(
                grid@,
                (k / 6) / vv,
                (k / 6) % vv,
                k % 6,
            ));
        }
    }
    out
}

/// The colours of a triangulated surface: the six corners of every cell
/// take the six palette entries in order.
pub fn cell_colors<C: Copy>(palette: &[C; 6], u_resolution: u16, v_resolution: u16) -> (r: Vec<C>)
    ensures
        r@.len() == 6 * u_resolution * v_resolution,
        forall|x: int, y: int, j: int|
            0 <= x < u_resolution && 0 <= y < v_resolution && 0 <= j < 6 ==> #[trigger] r@[cell_index(
                v_resolution as int,
                x,
                y,
                j,
            )] == palette@[j],
        r@ == color_pattern(palette@, 6 * u_resolution * v_resolution),
{
    let u: usize = u_resolution as usize;
    let v: usize = v_resolution as usize;
    let ghost vv: int = v as int;
    let mut out: Vec<C> = Vec::new();
    let mut x: usize = 0;
    while x < u
        invariant
            u == u_resolution,
            v == vv,
            vv == v_resolution,
            x <= u,
            palette@.len() == 6,
            out@.len() == 6 * (x * vv),
            forall|x1: int, y1: int, j: int|
                0 <= x1 < x && 0 <= y1 < vv && 0 <= j < 6 ==> #[trigger] out@[cell_index(vv, x1, y1, j)]
                    == palette@[j],
        decreases u - x,
    {
        let mut y: usize = 0;
        while y < v
            invariant
                u == u_resolution,
                v == vv,
                vv == v_resolution,
                x < u,
                y <= v,
                palette@.len() == 6,
                out@.len() == 6 * (x * vv + y),
                forall|x1: int, y1: int, j: int|
                    0 <= x1 && 0 <= y1 < vv && 0 <= j < 6 && (x1 < x || (x1 == x && y1 < y))
                        ==> #[trigger] out@[cell_index(vv, x1, y1, j)] == palette@[j],
            decreases v - y,
        {
            let ghost before = out@;
            let mut j: usize = 0;
            while j < 6
                invariant
                    j <= 6,
                    palette@.len() == 6,
                    out@.len() == before.len() + j,
                    forall|k: int| 0 <= k < before.len() ==> out@[k] == before[k],
                    forall|k: int| 0 <= k < j ==> out@[before.len() + k] == palette@[k],
                decreases 6 - j,
            {
                out.push(palette[j]);
                j += 1;
            }
            proof {
                assert forall|x1: int, y1: int, j1: int|
                    0 <= x1 && 0 <= y1 < vv && 0 <= j1 < 6 && (x1 < x || (x1 == x && y1 < y + 1))
                        implies #[trigger] out@[cell_index(vv, x1, y1, j1)] == palette@[j1] by {
                    if x1 < x || (x1 == x && y1 < y) {
                        lemma_cell_before(vv, x1, y1, x as int, y as int);
                        assert(out@[cell_index(vv, x1, y1, j1)] == before[cell_index(vv, x1, y1, j1)]);
                    } else {
                        assert(cell_index(vv, x1, y1, j1) == before.len() + j1);
                    }
                }
            }
            y += 1;
        }
        proof {
            assert(6 * (x * vv + vv) == 6 * ((x + 1) * vv)) by (nonlinear_arith);
        }
        x += 1;
    }
    assert(6 * (u * vv) == 6 * u_resolution * v_resolution) by (nonlinear_arith)
        requires
            u == u_resolution,
            vv == v_resolution,
    ;
    assert(out@ =~= color_pattern(palette@, 6 * u_resolution * v_resolution)) by {
        assert forall|k: int| 0 <= k < out@.len() implies out@[k] == color_pattern(
            palette@,
            6 * u_resolution * v_resolution,
        )[k] by {
            lemma_vertex_cell(u as int, vv, k);
            assert(out@[cell_index(vv, (k / 6) / vv, (k / 6) % vv, k % 6)] == palette@[k % 6]);
        }
    }
    out
}

/// The two triangles of every cell share the cell's diagonal: corners 0
/// and 3 are its grid point, corners 2 and 4 the point diagonally opposite.
pub proof fn law_cells_share_diagonal<T>(grid: Seq<Vec<T>>, u_cells: int, v_cells: int, x: int, y: int)
    requires
        0 <= x < u_cells,
        0 <= y < v_cells,
    ensures
        triangulation(grid, v_cells, 6 * u_cells * v_cells)[cell_index(v_cells, x, y, 0)]
            == triangulation(grid, v_cells, 6 * u_cells * v_cells)[cell_index(v_cells, x, y, 3)],
        triangulation(grid, v_cells, 6 * u_cells * v_cells)[cell_index(v_cells, x, y, 2)]
            == triangulation(grid, v_cells, 6 * u_cells * v_cells)[cell_index(v_cells, x, y, 4)],
        triangulation(grid, v_cells, 6 * u_cells * v_cells)[cell_index(v_cells, x, y, 0)] == grid[x]@[y],
        triangulation(grid, v_cells, 6 * u_cells * v_cells)[cell_index(v_cells, x, y, 2)] == grid[x + 1]@[y + 1],
{
    let count = 6 * u_cells * v_cells;
    assert forall|j: int| 0 <= j < 6 implies triangulation(grid, v_cells, count)[#[trigger] cell_index(
        v_cells,
        x,
        y,
        j,
    )] == corner_point(grid, x, y, j) by {
        let k = cell_index(v_cells, x, y, j);
        assert(x * v_cells + y < u_cells * v_cells) by (nonlinear_arith)
            requires
                0 <= x < u_cells,
                0 <= y < v_cells,
        ;
        assert(0 <= k < count) by (nonlinear_arith)
            requires
                k == 6 * (x * v_cells + y) + j,
                0 <= j < 6,
                0 <= x * v_cells + y < u_cells * v_cells,
                count == 6 * u_cells * v_cells,
        ;
        lemma_vertex_cell(u_cells, v_cells, k);
        lemma_cell_unique(v_cells, x, y, j, (k / 6) / v_cells, (k / 6) % v_cells, k % 6);
    }
    assert(triangulation(grid, v_cells, count)[cell_index(v_cells, x, y, 0)] == corner_point(grid, x, y, 0));
    assert(triangulation(grid, v_cells, count)[cell_index(v_cells, x, y, 2)] == corner_point(grid, x, y, 2));
    assert(triangulation(grid, v_cells, count)[cell_index(v_cells, x, y, 3)] == corner_point(grid, x, y, 3));
    assert(triangulation(grid, v_cells, count)[cell_index(v_cells, x, y, 4)] == corner_point(grid, x, y, 4));
}

/// A vertex position determines its cell and corner.
proof fn lemma_cell_unique(v: int, x1: int, y1: int, j1: int, x2: int, y2: int, j2: int)
    requires
        0 <= x1,
        0 <= x2,
        0 <= y1 < v,
        0 <= y2 < v,
        0 <= j1 < 6,
        0 <= j2 < 6,
        cell_index(v, x1, y1, j1) == cell_index(v, x2, y2, j2),
    ensures
        x1 == x2,
        y1 == y2,
        j1 == j2,
{
    assert(x1 * v + y1 == x2 * v + y2);
    if x1 < x2 || (x1 == x2 && y1 < y2) {
        lemma_cell_before(v, x1, y1, x2, y2);
    } else if x2 < x1 || (x1 == x2 && y2 < y1) {
        lemma_cell_before(v, x2, y2, x1, y1);
    }
}

/// Name of the position attribute of a surface geometry.
pub const POSITION_NAME: &'static str = "vertexPosition";
/// Name of the color attribute of a surface geometry.
pub const COLOR_NAME: &'static str = "vertexColor";

/// The geometry of a sampled surface: its triangulated grid points under
/// [`POSITION_NAME`] and the cell colours under [`COLOR_NAME`].
pub fn surface_geometry<T: Copy, const N: usize, const M: usize>(
    grid: &Vec<Vec<[T; N]>>,
    u_resolution: u16,
    v_resolution: u16,
    palette: &[[T; M]; 6],
) -> (r: Geometry<T>)
    requires
        is_grid(grid@, u_resolution as int, v_resolution as int),
        N <= i32::MAX,
        M <= i32::MAX,
        6 * u_resolution * v_resolution <= i32::MAX,
    ensures
        r.wf(),
        r.entries().len() == 2,
        r.entries()[0].0 == POSITION_NAME@,
        r.entries()[0].1.elements() == flat(
            triangulation(grid@, v_resolution as int, 6 * u_resolution * v_resolution),
        ),
        r.entries()[0].1.layout().spec_size() == N,
        r.entries()[0].1.layout().spec_gl_type() == gl::FLOAT,
        r.entries()[0].1.vertex_count() == 6 * u_resolution * v_resolution,
        r.entries()[1].0 == COLOR_NAME@,
        r.entries()[1].1.elements() == flat(color_pattern(palette@, 6 * u_resolution * v_resolution)),
        r.entries()[1].1.layout().spec_size() == M,
        r.entries()[1].1.layout().spec_gl_type() == gl::FLOAT,
        r.entries()[1].1.vertex_count() == 6 * u_resolution * v_resolution,
{
    let positions = triangulate_grid(grid, u_resolution, v_resolution);
    let colors = cell_colors(palette, u_resolution, v_resolution);
    let position_data = AttributeData::from_arrays(positions.as_slice());
    let color_data = AttributeData::from_arrays(colors.as_slice());
    let ghost p = position_data;
    let ghost c = color_data;
    let mut attributes: Vec<(String, AttributeData<T>)> = Vec::new();
    attributes.push((String::from_str(POSITION_NAME), position_data));
    attributes.push((String::from_str(COLOR_NAME), color_data));
    let r = Geometry::new(attributes);
    proof {
        reveal_strlit("vertexPosition");
        reveal_strlit("vertexColor");
        let list = attributes@.map_values(|e: (String, AttributeData<T>)| (e.0@, e.1));
        let empty = Seq::<(Seq<char>, AttributeData<T>)>::empty();
        assert(list.drop_last().drop_last() =~= empty);
        assert(list.len() == 2);
        assert(list[0] == (POSITION_NAME@, p));
        assert(list[1] == (COLOR_NAME@, c));
        assert(list.drop_last().last() == list[0]);
        assert(insert_all(empty, list.drop_last().drop_last()) == empty);
        assert(insert_all(empty, list.drop_last()) == insert_entry(empty, POSITION_NAME@, p));
        assert(!has_name(empty, POSITION_NAME@));
        assert(insert_entry(empty, POSITION_NAME@, p) =~= seq![(POSITION_NAME@, p)]);
        let one = seq![(POSITION_NAME@, p)];
        assert(POSITION_NAME@ != COLOR_NAME@) by {
            assert(POSITION_NAME@[0] != COLOR_NAME@[0] || POSITION_NAME@.len() != COLOR_NAME@.len()
                || POSITION_NAME@[6] != COLOR_NAME@[6]);
        }
        assert(!has_name(one, COLOR_NAME@));
        assert(r.entries() =~= seq![(POSITION_NAME@, p), (COLOR_NAME@, c)]);
    }
    r
}

} // verus!
