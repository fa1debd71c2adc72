//! Triangulation of the surf collider strip.
//!
//! The strip is a grid of points laid out seam by seam, `columns` points per
//! seam, running from the ridge of the ramp to its outer edge. Each cell
//! between two seams and two columns becomes two triangles, split along the
//! diagonal that keeps the pair flatter; which diagonal that is comes from the
//! geometry and is given by the caller, one flag per cell in seam-major order.

use vstd::prelude::*;

verus! {

/// Points per seam of the surf collider strip.
pub const SURF_COLLIDER_COLUMNS: usize = 5;

/// A point count and a column count describe a strip of at least two seams.
pub open spec fn strip_shape_valid(point_count: int, columns: int) -> bool {
    &&& columns >= 2
    &&& point_count >= columns * 2
    &&& point_count % columns == 0
}

/// Cells of a strip: one per pair of neighbouring seams and columns.
pub open spec fn strip_cell_count(point_count: int, columns: int) -> int {
    (point_count / columns - 1) * (columns - 1)
}

/// The two triangles of the cell at `seam` and `column`, split along `a-d` or
/// along `b-c`, where `a`, `b` are the cell's points on its seam and `c`, `d`
/// those on the next seam.
pub open spec fn cell_triangles(columns: int, seam: int, column: int, split_across: bool) -> Seq<u32> {
    let a = seam * columns + column;
    let b = a + 1;
    let c = (seam + 1) * columns + column;
    let d = c + 1;
    if split_across {
        seq![a as u32, b as u32, d as u32, a as u32, d as u32, c as u32]
    } else {
        seq![a as u32, b as u32, c as u32, b as u32, d as u32, c as u32]
    }
}

/// The triangles of the first `cells` cells of seam `seam`.
pub open spec fn seam_triangles(columns: int, split: Seq<bool>, seam: int, cells: int) -> Seq<u32>
    decreases cells,
{
    if cells <= 0 {
        Seq::empty()
    } else {
        seam_triangles(columns, split, seam, cells - 1) + cell_triangles(
            columns,
            seam,
            cells - 1,
            split[seam * (columns - 1) + cells - 1],
        )
    }
}

/// The triangles of the first `seams` seams of cells.
pub open spec fn strip_triangles(columns: int, split: Seq<bool>, seams: int) -> Seq<u32>
    decreases seams,
{
    if seams <= 0 {
        Seq::empty()
    } else {
        strip_triangles(columns, split, seams - 1) + seam_triangles(
            columns,
            split,
            seams - 1,
            columns - 1,
        )
    }
}

/// The triangle list of a strip of `point_count` points in rows of `columns`,
/// or `None` when the points do not form at least two full seams.
pub fn strip_triangle_indices(point_count: usize, columns: usize, split_across: &[bool]) -> (indices:
    Option<Vec<u32>>)
    requires
        columns >= 2 ==> columns * 2 <= usize::MAX,
        point_count <= 0x1_0000_0000,
        strip_shape_valid(point_count as int, columns as int) ==> split_across@.len()
            == strip_cell_count(point_count as int, columns as int),
    ensures
        indices is Some <==> strip_shape_valid(point_count as int, columns as int),
        indices matches Some(list) ==> list@ == strip_triangles(
            columns as int,
            split_across@,
            point_count / columns - 1,
        ),
{
    if columns < 2 || point_count < columns * 2 || point_count % columns != 0 {
        return None;
    }
    let seam_count = point_count / columns;
    let mut indices: Vec<u32> = Vec::new();
    let mut seam: usize = 0;
    proof {
        vstd::arithmetic::div_mod::lemma_fundamental_div_mod(point_count as int, columns as int);
        vstd::arithmetic::mul::lemma_mul_is_commutative(seam_count as int, columns as int);
        assert(seam_count * columns == point_count);
        assert(seam_count >= 2) by (nonlinear_arith)
            requires
                seam_count * columns == point_count,
                point_count >= columns * 2,
                columns >= 2,
        ;
    }
    while seam < seam_count - 1
        invariant
            columns >= 2,
            seam_count >= 2,
            seam_count * columns == point_count,
            point_count <= 0x1_0000_0000,
            seam <= seam_count - 1,
            split_across@.len() == (seam_count - 1) * (columns - 1),
            indices@ == strip_triangles(columns as int, split_across@, seam as int),
        decreases seam_count - 1 - seam,
    {
        let ghost before = indices@;
        let mut column: usize = 0;
        proof {
            assert((seam + 1) * columns <= (seam_count - 1) * columns) by (nonlinear_arith)
                requires
                    seam + 1 <= seam_count - 1,
                    columns >= 2,
            ;
            assert((seam + 1) * (columns - 1) <= (seam_count - 1) * (columns - 1))
                by (nonlinear_arith)
                requires
                    seam + 1 <= seam_count - 1,
                    columns >= 2,
            ;
            assert((seam + 1) * columns == seam * columns + columns) by (nonlinear_arith);
            assert((seam + 1) * (columns - 1) == seam * (columns - 1) + columns - 1)
                by (nonlinear_arith);
            assert((seam_count - 1) * columns == seam_count * columns - columns)
                by (nonlinear_arith);
            assert(before + seam_triangles(columns as int, split_across@, seam as int, 0)
                =~= before);
            assert(seam * (columns - 1) <= seam * columns) by (nonlinear_arith)
                requires
                    columns >= 2,
            ;
            assert((seam + 1) * (columns - 1) <= (seam + 1) * columns) by (nonlinear_arith)
                requires
                    columns >= 2,
            ;
        }
        let row_start = seam * columns;
        let next_row_start = row_start + columns;
        let split_start = seam * (columns - 1);
        while column < columns - 1
            invariant
                columns >= 2,
                seam + 1 <= seam_count - 1,
                column <= columns - 1,
                row_start == seam * columns,
                next_row_start == (seam + 1) * columns,
                next_row_start == row_start + columns,
                next_row_start + columns <= point_count,
                point_count <= 0x1_0000_0000,
                split_start == seam * (columns - 1),
                split_start + columns - 1 <= split_across@.len(),
                split_start + columns - 1 <= next_row_start,
                indices@ == before + seam_triangles(
                    columns as int,
                    split_across@,
                    seam as int,
                    column as int,
                ),
            decreases columns - 1 - column,
        {
            let a = (row_start + column) as u32;
            let b = a + 1;
            let c = (next_row_start + column) as u32;
            let d = c + 1;
            if split_across[split_start + column] {
                indices.push(a);
                indices.push(b);
                indices.push(d);
                indices.push(a);
                indices.push(d);
                indices.push(c);
            } else {
                indices.push(a);
                indices.push(b);
                indices.push(c);
                indices.push(b);
                indices.push(d);
                indices.push(c);
            }
            proof {
                let cell = cell_triangles(
                    columns as int,
                    seam as int,
                    column as int,
                    split_across@[split_start + column],
                );
                assert(seam_triangles(columns as int, split_across@, seam as int, column + 1)
                    == seam_triangles(columns as int, split_across@, seam as int, column as int)
                    + cell);
                assert(indices@ =~= before + seam_triangles(
                    columns as int,
                    split_across@,
                    seam as int,
                    column + 1,
                ));
            }
            column = column + 1;
        }
        proof {
            assert(indices@ =~= strip_triangles(columns as int, split_across@, seam + 1));
        }
        seam = seam + 1;
    }
    Some(indices)
}

proof fn lemma_cell_in_range(columns: int, seam: int, column: int, split_across: bool, limit: int)
    requires
        columns >= 2,
        seam >= 0,
        0 <= column < columns - 1,
        (seam + 2) * columns <= limit,
        limit <= 0x1_0000_0000,
    ensures
        cell_triangles(columns, seam, column, split_across).len() == 6,
        forall|i: int|
            0 <= i < 6 ==> (#[trigger] cell_triangles(columns, seam, column, split_across)[i]) < limit,
{
    assert(seam * columns >= 0) by (nonlinear_arith)
        requires
            seam >= 0,
            columns >= 2,
    ;
    assert((seam + 1) * columns == seam * columns + columns) by (nonlinear_arith);
    assert((seam + 2) * columns == seam * columns + 2 * columns) by (nonlinear_arith);
}

proof fn lemma_seam_in_range(columns: int, split: Seq<bool>, seam: int, cells: int, limit: int)
    requires
        columns >= 2,
        seam >= 0,
        0 <= cells <= columns - 1,
        (seam + 2) * columns <= limit,
        limit <= 0x1_0000_0000,
    ensures
        seam_triangles(columns, split, seam, cells).len() == 6 * cells,
        forall|i: int|
            0 <= i < 6 * cells ==> (#[trigger] seam_triangles(columns, split, seam, cells)[i]) < limit,
    decreases cells,
{
    if cells > 0 {
        lemma_seam_in_range(columns, split, seam, cells - 1, limit);
        let flag = split[seam * (columns - 1) + cells - 1];
        lemma_cell_in_range(columns, seam, cells - 1, flag, limit);
        let prev = seam_triangles(columns, split, seam, cells - 1);
        let cell = cell_triangles(columns, seam, cells - 1, flag);
        assert forall|i: int| 0 <= i < 6 * cells implies (#[trigger] seam_triangles(
            columns,
            split,
            seam,
            cells,
        )[i]) < limit by {
            if i >= prev.len() {
                assert(seam_triangles(columns, split, seam, cells)[i] == cell[i - prev.len()]);
            } else {
                assert(seam_triangles(columns, split, seam, cells)[i] == prev[i]);
            }
        }
    }
}

proof fn lemma_strip_in_range(columns: int, split: Seq<bool>, seams: int, limit: int)
    requires
        columns >= 2,
        seams >= 0,
        (seams + 1) * columns <= limit,
        limit <= 0x1_0000_0000,
    ensures
        strip_triangles(columns, split, seams).len() == 6 * seams * (columns - 1),
        forall|i: int|
            0 <= i < strip_triangles(columns, split, seams).len() ==> (#[trigger] strip_triangles(
                columns,
                split,
                seams,
            )[i]) < limit,
    decreases seams,
{
    if seams > 0 {
        assert(seams * columns <= (seams + 1) * columns) by (nonlinear_arith)
            requires
                columns >= 2,
        ;
        lemma_strip_in_range(columns, split, seams - 1, limit);
        lemma_seam_in_range(columns, split, seams - 1, columns - 1, limit);
        let prev = strip_triangles(columns, split, seams - 1);
        let row = seam_triangles(columns, split, seams - 1, columns - 1);
        assert(6 * (seams - 1) * (columns - 1) + 6 * (columns - 1) == 6 * seams * (columns - 1))
            by (nonlinear_arith);
        assert forall|i: int|
            0 <= i < strip_triangles(columns, split, seams).len() implies (#[trigger] strip_triangles(
            columns,
            split,
            seams,
        )[i]) < limit by {
            if i >= prev.len() {
                assert(strip_triangles(columns, split, seams)[i] == row[i - prev.len()]);
            } else {
                assert(strip_triangles(columns, split, seams)[i] == prev[i]);
            }
        }
    }
}

/// Law: a valid strip yields two triangles per cell, and every index names
/// one of the strip's points.
pub proof fn lemma_strip_triangles_in_range(point_count: int, columns: int, split: Seq<bool>)
    requires
        strip_shape_valid(point_count, columns),
        point_count <= 0x1_0000_0000,
    ensures
        strip_triangles(columns, split, point_count / columns - 1).len() == 6 * strip_cell_count(
            point_count,
            columns,
        ),
        forall|i: int|
            0 <= i < strip_triangles(columns, split, point_count / columns - 1).len() ==> (
            #[trigger] strip_triangles(columns, split, point_count / columns - 1)[i]) < point_count,
{
    let seams = point_count / columns;
    vstd::arithmetic::div_mod::lemma_fundamental_div_mod(point_count, columns);
    assert(seams * columns == point_count) by (nonlinear_arith)
        requires
            point_count == columns * seams + point_count % columns,
            point_count % columns == 0,
    ;
    assert(seams >= 2) by (nonlinear_arith)
        requires
            seams * columns == point_count,
            point_count >= columns * 2,
            columns >= 2,
    ;
    lemma_strip_in_range(columns, split, seams - 1, point_count);
    assert(6 * (seams - 1) * (columns - 1) == 6 * ((seams - 1) * (columns - 1)))
        by (nonlinear_arith);
}

/// The triangles of an earlier cell of a seam stay where they are as the
/// seam grows.
proof fn lemma_seam_cell_at(columns: int, split: Seq<bool>, seam: int, cells: int, column: int, r: int)
    requires
        columns >= 2,
        0 <= column < cells <= columns - 1,
        0 <= r < 6,
    ensures
        seam_triangles(columns, split, seam, cells).len() == 6 * cells,
        seam_triangles(columns, split, seam, cells)[6 * column + r] == cell_triangles(
            columns,
            seam,
            column,
            split[seam * (columns - 1) + column],
        )[r],
    decreases cells,
{
    lemma_seam_len(columns, split, seam, cells - 1);
    if column < cells - 1 {
        lemma_seam_cell_at(columns, split, seam, cells - 1, column, r);
    }
}

proof fn lemma_seam_len(columns: int, split: Seq<bool>, seam: int, cells: int)
    requires
        0 <= cells,
    ensures
        seam_triangles(columns, split, seam, cells).len() == 6 * cells,
    decreases cells,
{
    if cells > 0 {
        lemma_seam_len(columns, split, seam, cells - 1);
    }
}

proof fn lemma_strip_len(columns: int, split: Seq<bool>, seams: int)
    requires
        columns >= 2,
        0 <= seams,
    ensures
        strip_triangles(columns, split, seams).len() == 6 * seams * (columns - 1),
    decreases seams,
{
    if seams > 0 {
        lemma_strip_len(columns, split, seams - 1);
        lemma_seam_len(columns, split, seams - 1, columns - 1);
        assert(6 * (seams - 1) * (columns - 1) + 6 * (columns - 1) == 6 * seams * (columns - 1))
            by (nonlinear_arith);
    } else {
        assert(6 * seams * (columns - 1) == 0) by (nonlinear_arith)
            requires
                seams == 0,
        ;
    }
}

/// The triangles of an earlier seam stay where they are as the strip grows.
proof fn lemma_strip_cell_at(
    columns: int,
    split: Seq<bool>,
    seams: int,
    seam: int,
    column: int,
    r: int,
)
    requires
        columns >= 2,
        0 <= seam < seams,
        0 <= column < columns - 1,
        0 <= r < 6,
    ensures
        strip_triangles(columns, split, seams)[6 * (seam * (columns - 1) + column) + r]
            == cell_triangles(columns, seam, column, split[seam * (columns - 1) + column])[r],
    decreases seams,
{
    lemma_strip_len(columns, split, seams - 1);
    let prev = strip_triangles(columns, split, seams - 1);
    let i = 6 * (seam * (columns - 1) + column) + r;
    if seam < seams - 1 {
        lemma_strip_cell_at(columns, split, seams - 1, seam, column, r);
        assert(i < prev.len()) by (nonlinear_arith)
            requires
                prev.len() == 6 * (seams - 1) * (columns - 1),
                i == 6 * (seam * (columns - 1) + column) + r,
                seam + 1 <= seams - 1,
                column < columns - 1,
                r < 6,
                columns >= 2,
        ;
        assert(strip_triangles(columns, split, seams)[i] == prev[i]);
    } else {
        lemma_seam_cell_at(columns, split, seam, columns - 1, column, r);
        assert(i - prev.len() == 6 * column + r) by (nonlinear_arith)
            requires
                prev.len() == 6 * (seams - 1) * (columns - 1),
                i == 6 * (seam * (columns - 1) + column) + r,
                seam == seams - 1,
        ;
        assert(i >= prev.len());
        assert(strip_triangles(columns, split, seams)[i] == seam_triangles(
            columns,
            split,
            seam,
            columns - 1,
        )[i - prev.len()]);
    }
}

/// Law: in a valid strip, the cell at `seam` and `column` is the `k`-th cell,
/// `k = seam * (columns - 1) + column`, and its six indices are the `k`-th six
/// of the list: with `a` the cell's first point and `c` the point below it on
/// the next seam, they are `a, a+1, c+1, a, c+1, c` when the cell's own flag
/// `split[k]` is set and `a, a+1, c, a+1, c+1, c` when it is not.
pub proof fn lemma_strip_cell_diagonal(
    point_count: int,
    columns: int,
    split: Seq<bool>,
    seam: int,
    column: int,
)
    requires
        strip_shape_valid(point_count, columns),
        point_count <= 0x1_0000_0000,
        split.len() == strip_cell_count(point_count, columns),
        0 <= seam < point_count / columns - 1,
        0 <= column < columns - 1,
    ensures
        ({
            let tri = strip_triangles(columns, split, point_count / columns - 1);
            let k = seam * (columns - 1) + column;
            let a = seam * columns + column;
            let c = a + columns;
            &&& 6 * k + 6 <= tri.len()
            &&& tri[6 * k] == a
            &&& tri[6 * k + 1] == a + 1
            &&& split[k] ==> tri[6 * k + 2] == c + 1 && tri[6 * k + 3] == a && tri[6 * k + 4]
                == c + 1 && tri[6 * k + 5] == c
            &&& !split[k] ==> tri[6 * k + 2] == c && tri[6 * k + 3] == a + 1 && tri[6 * k + 4]
                == c + 1 && tri[6 * k + 5] == c
        }),
{
    let seams = point_count / columns;
    vstd::arithmetic::div_mod::lemma_fundamental_div_mod(point_count, columns);
    assert(seams * columns == point_count) by (nonlinear_arith)
        requires
            point_count == columns * seams + point_count % columns,
            point_count % columns == 0,
    ;
    let k = seam * (columns - 1) + column;
    let a = seam * columns + column;
    let c = a + columns;
    assert(c + 1 < point_count) by (nonlinear_arith)
        requires
            seams * columns == point_count,
            c == seam * columns + column + columns,
            seam + 2 <= seams,
            column + 1 < columns,
            columns >= 2,
    ;
    assert(a >= 0) by (nonlinear_arith)
        requires
            a == seam * columns + column,
            seam >= 0,
            column >= 0,
            columns >= 2,
    ;
    lemma_strip_len(columns, split, seams - 1);
    assert(seam * (columns - 1) + (columns - 1) == (seam + 1) * (columns - 1))
        by (nonlinear_arith);
    assert((seam + 1) * (columns - 1) <= (seams - 1) * (columns - 1)) by (nonlinear_arith)
        requires
            seam + 1 <= seams - 1,
            columns >= 2,
    ;
    assert(6 * (seams - 1) * (columns - 1) == 6 * ((seams - 1) * (columns - 1)))
        by (nonlinear_arith);
    assert(6 * k + 6 <= 6 * (seams - 1) * (columns - 1));
    assert(k < split.len());
    let tri = strip_triangles(columns, split, seams - 1);
    let cell = cell_triangles(columns, seam, column, split[k]);
    lemma_strip_cell_at(columns, split, seams - 1, seam, column, 0);
    lemma_strip_cell_at(columns, split, seams - 1, seam, column, 1);
    lemma_strip_cell_at(columns, split, seams - 1, seam, column, 2);
    lemma_strip_cell_at(columns, split, seams - 1, seam, column, 3);
    lemma_strip_cell_at(columns, split, seams - 1, seam, column, 4);
    lemma_strip_cell_at(columns, split, seams - 1, seam, column, 5);
    assert((seam + 1) * columns + column == c) by (nonlinear_arith)
        requires
            c == seam * columns + column + columns,
    ;
    assert(tri[6 * k] == cell[0]);
    assert(tri[6 * k + 1] == cell[1]);
    assert(tri[6 * k + 2] == cell[2]);
    assert(tri[6 * k + 3] == cell[3]);
    assert(tri[6 * k + 4] == cell[4]);
    assert(tri[6 * k + 5] == cell[5]);
}

} // verus!
