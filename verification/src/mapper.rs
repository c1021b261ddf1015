//! The coordinate mapper: from a pixel to its point of the complex plane.
//!
//! A pixel is named by its column and row index, counted from 0, or by its
//! offset from the centre of the image.
//! Along an axis of `extent` pixels, the pixel with index `extent / 2` sits at
//! offset 0. Indices `0..extent` therefore carry the offsets
//! `-(extent / 2) .. extent - extent / 2`: for an even extent that is the
//! half-open range `[-extent/2, extent/2)`, for an odd one the centre pixel is
//! the middle pixel and one more offset lies on the positive side.

use crate::arithmetic::{deterministic, ready, Arithmetic, NormOrder};
use crate::config::RenderConfig;
use vstd::prelude::*;

verus! {

/// The offset from the centre of the pixel with index `index`.
pub open spec fn offset(index: int, extent: int) -> int {
    index - extent / 2
}

/// The index of the pixel at offset `off` from the centre.
pub open spec fn index(off: int, extent: int) -> int {
    off + extent / 2
}

/// Whether `off` is the offset of one of the `extent` pixels of an axis.
pub open spec fn in_range(off: int, extent: int) -> bool {
    -(extent / 2) <= off < extent - extent / 2
}

/// The keys `(x, y)` of the pixels of an image of `width` columns and `height` rows.
pub open spec fn cells(width: int, height: int) -> Set<(int, int)> {
    Set::new(|p: (int, int)| 0 <= p.0 < width && 0 <= p.1 < height)
}

/// The keys of the pixels of column `x` of an image of `height` rows.
pub open spec fn column_cells(x: int, height: int) -> Set<(int, int)> {
    Set::new(|p: (int, int)| p.0 == x && 0 <= p.1 < height)
}

/// Offset from the centre of pixel `index` on an axis of `extent` pixels.
pub fn offset_of(index: u32, extent: u32) -> (off: i32)
    requires
        index < extent,
    ensures
        off == offset(index as int, extent as int),
        in_range(off as int, extent as int),
{
    let half: u32 = extent / 2;
    if index >= half {
        (index - half) as i32
    } else {
        -((half - index) as i32)
    }
}

/// Index of the pixel at offset `off` on an axis of `extent` pixels, if there is one.
pub fn index_of(off: i32, extent: u32) -> (r: Option<u32>)
    ensures
        in_range(off as int, extent as int) ==> r == Some(index(off as int, extent as int) as u32),
        !in_range(off as int, extent as int) ==> r.is_none(),
        r matches Some(i) ==> i < extent && offset(i as int, extent as int) == off,
{
    let half: i64 = (extent / 2) as i64;
    let shifted: i64 = off as i64 + half;
    if 0 <= shifted && shifted < extent as i64 {
        Some(shifted as u32)
    } else {
        None
    }
}

/// `c` may be the coordinate of the pixel at offset `(x, y)`, reached
/// through `across`, `moved` and `down`:
/// `across = x * step_x`, `moved = across + center`, `down = y * step_y` and
/// `c = moved + down`.
pub open spec fn is_placed<Z, O, M, A, Q, N>(
    ops: Arithmetic<O, M, A, Q, N>,
    config: RenderConfig<Z>,
    x: int,
    y: int,
    across: Z,
    moved: Z,
    down: Z,
    c: Z,
) -> bool where
    O: Fn(&Z) -> Z,
    M: Fn(i32, &Z) -> Z,
    A: Fn(Z, &Z) -> Z,
    Q: Fn(Z) -> Z,
    N: Fn(&Z, u32) -> NormOrder,
 {
    &&& ops.times.ensures((x as i32, &config.step_x), across)
    &&& ops.plus.ensures((across, &config.center), moved)
    &&& ops.times.ensures((y as i32, &config.step_y), down)
    &&& ops.plus.ensures((moved, &down), c)
}

/// `c` may be the coordinate of the pixel at offset `(x, y)`:
/// `center + x * step_x + y * step_y`.
pub open spec fn is_coordinate<Z, O, M, A, Q, N>(
    ops: Arithmetic<O, M, A, Q, N>,
    config: RenderConfig<Z>,
    x: int,
    y: int,
    c: Z,
) -> bool where
    O: Fn(&Z) -> Z,
    M: Fn(i32, &Z) -> Z,
    A: Fn(Z, &Z) -> Z,
    Q: Fn(Z) -> Z,
    N: Fn(&Z, u32) -> NormOrder,
 {
    exists|across: Z, moved: Z, down: Z| #[trigger]
        is_placed(ops, config, x, y, across, moved, down, c)
}

/// The coordinate of the pixel at offset `(x, y)`:
/// `center + x * step_x + y * step_y`. Where an operation has several
/// results, one of them.
pub open spec fn coordinate<Z, O, M, A, Q, N>(
    ops: Arithmetic<O, M, A, Q, N>,
    config: RenderConfig<Z>,
    x: int,
    y: int,
) -> Z where
    O: Fn(&Z) -> Z,
    M: Fn(i32, &Z) -> Z,
    A: Fn(Z, &Z) -> Z,
    Q: Fn(Z) -> Z,
    N: Fn(&Z, u32) -> NormOrder,
 {
    choose|c: Z| is_coordinate(ops, config, x, y, c)
}

/// The coordinate of the pixel at offset `(x, y)` from the centre of the
/// image: `center + x * step_x + y * step_y`.
pub fn map<Z, O, M, A, Q, N>(
    x: i32,
    y: i32,
    config: &RenderConfig<Z>,
    ops: &Arithmetic<O, M, A, Q, N>,
) -> (c: Z) where
    O: Fn(&Z) -> Z,
    M: Fn(i32, &Z) -> Z,
    A: Fn(Z, &Z) -> Z,
    Q: Fn(Z) -> Z,
    N: Fn(&Z, u32) -> NormOrder,

    requires
        ready(*ops),
    ensures
        is_coordinate(*ops, *config, x as int, y as int, c),
        deterministic(*ops) ==> c == coordinate(*ops, *config, x as int, y as int),
{
    let across = (ops.times)(x, &config.step_x);
    let down = (ops.times)(y, &config.step_y);
    let ghost across_value = across;
    let moved = (ops.plus)(across, &config.center);
    let ghost moved_value = moved;
    let c = (ops.plus)(moved, &down);
    assert(is_placed(*ops, *config, x as int, y as int, across_value, moved_value, down, c));
    proof {
        if deterministic(*ops) {
            let model = coordinate(*ops, *config, x as int, y as int);
            lemma_coordinate_unique(*ops, *config, x as int, y as int, c, model);
        }
    }
    c
}

/// The coordinate of the pixel in column `column` and row `row`.
pub fn coordinate_at<Z, O, M, A, Q, N>(
    column: u32,
    row: u32,
    config: &RenderConfig<Z>,
    ops: &Arithmetic<O, M, A, Q, N>,
) -> (c: Z) where
    O: Fn(&Z) -> Z,
    M: Fn(i32, &Z) -> Z,
    A: Fn(Z, &Z) -> Z,
    Q: Fn(Z) -> Z,
    N: Fn(&Z, u32) -> NormOrder,

    requires
        ready(*ops),
        column < config.settings.width,
        row < config.settings.height,
    ensures
        is_coordinate(
            *ops,
            *config,
            offset(column as int, config.settings.width as int),
            offset(row as int, config.settings.height as int),
            c,
        ),
        deterministic(*ops) ==> c == coordinate(
            *ops,
            *config,
            offset(column as int, config.settings.width as int),
            offset(row as int, config.settings.height as int),
        ),
{
    let x = offset_of(column, config.settings.width);
    let y = offset_of(row, config.settings.height);
    map(x, y, config, ops)
}

/// With operations that have one result for each argument, a pixel has one coordinate.
pub proof fn lemma_coordinate_unique<Z, O, M, A, Q, N>(
    ops: Arithmetic<O, M, A, Q, N>,
    config: RenderConfig<Z>,
    x: int,
    y: int,
    c1: Z,
    c2: Z,
) where
    O: Fn(&Z) -> Z,
    M: Fn(i32, &Z) -> Z,
    A: Fn(Z, &Z) -> Z,
    Q: Fn(Z) -> Z,
    N: Fn(&Z, u32) -> NormOrder,

    requires
        deterministic(ops),
        is_coordinate(ops, config, x, y, c1),
        is_coordinate(ops, config, x, y, c2),
    ensures
        c1 == c2,
{
    let (a1, m1, d1) = choose|across: Z, moved: Z, down: Z| #[trigger]
        is_placed(ops, config, x, y, across, moved, down, c1);
    let (a2, m2, d2) = choose|across: Z, moved: Z, down: Z| #[trigger]
        is_placed(ops, config, x, y, across, moved, down, c2);
    assert(a1 == a2 && d1 == d2 && m1 == m2);
}

/// Offsets and indices correspond one to one: every index has its own offset
/// in range, and every offset in range is the offset of exactly one index.
pub proof fn lemma_offsets_match_indices(extent: int)
    requires
        0 <= extent,
    ensures
        forall|i: int|
            0 <= i < extent ==> in_range(#[trigger] offset(i, extent), extent) && index(
                offset(i, extent),
                extent,
            ) == i,
        forall|o: int|
            in_range(o, extent) ==> 0 <= #[trigger] index(o, extent) < extent && offset(
                index(o, extent),
                extent,
            ) == o,
        forall|i: int, j: int|
            offset(i, extent) == offset(j, extent) ==> i == j,
        offset(extent / 2, extent) == 0,
{
}

/// An image of `width` by `height` pixels has exactly `width * height`
/// cells.
pub proof fn lemma_cell_count(width: int, height: int)
    requires
        0 <= width,
        0 <= height,
    ensures
        cells(width, height).finite(),
        cells(width, height).len() == width * height,
    decreases width,
{
    if width == 0 {
        assert(cells(width, height) =~= Set::<(int, int)>::empty());
    } else {
        lemma_cell_count(width - 1, height);
        lemma_column_count(width - 1, height);
        let rest = cells(width - 1, height);
        let last = column_cells(width - 1, height);
        assert(cells(width, height) =~= rest.union(last));
        vstd::set_lib::lemma_set_disjoint_lens(rest, last);
        assert(width * height == (width - 1) * height + height) by (nonlinear_arith);
    }
}

/// A column of an image of `height` rows has exactly `height` cells.
pub proof fn lemma_column_count(x: int, height: int)
    requires
        0 <= height,
    ensures
        column_cells(x, height).finite(),
        column_cells(x, height).len() == height,
    decreases height,
{
    if height == 0 {
        assert(column_cells(x, height) =~= Set::<(int, int)>::empty());
    } else {
        lemma_column_count(x, height - 1);
        assert(column_cells(x, height) =~= column_cells(x, height - 1).insert((x, height - 1)));
    }
}

/// The columns `0..width` split the image: every cell lies in the column
/// of its own `x` and in no other.
pub proof fn lemma_columns_partition_cells(width: int, height: int)
    ensures
        forall|p: (int, int)|
            cells(width, height).contains(p) <==> 0 <= p.0 < width && #[trigger] column_cells(
                p.0,
                height,
            ).contains(p),
        forall|x1: int, x2: int|
            x1 != x2 ==> #[trigger] column_cells(x1, height).disjoint(
                #[trigger] column_cells(x2, height),
            ),
{
}

} // verus!
