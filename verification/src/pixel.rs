//! One pixel: its escape time and its colour.

use crate::arithmetic::{deterministic, ready, Arithmetic, NormOrder};
use crate::config::RenderConfig;
use crate::escape::{
    escape_time, is_escape_run, is_escape_time, iterations, lemma_run_follows_orbit,
};
use crate::mapper::{coordinate, coordinate_at, is_coordinate, lemma_coordinate_unique, offset};
use crate::raster::{Rgb, BLACK};
use vstd::prelude::*;

verus! {

/// The escape time found for one pixel.
#[derive(Clone, Copy, Debug, PartialEq, Eq, Structural)]
pub struct PixelResult {
    /// Column of the pixel.
    pub x: u32,
    /// Row of the pixel.
    pub y: u32,
    /// Escape time of the coordinate of the pixel, at most the iteration cap.
    pub iterations: usize,
}

/// `n` may be the escape time of the pixel in column `column` and row `row`.
pub open spec fn is_pixel_count<Z, O, M, A, Q, N>(
    ops: Arithmetic<O, M, A, Q, N>,
    config: RenderConfig<Z>,
    column: int,
    row: int,
    n: int,
) -> bool where
    O: Fn(&Z) -> Z,
    M: Fn(i32, &Z) -> Z,
    A: Fn(Z, &Z) -> Z,
    Q: Fn(Z) -> Z,
    N: Fn(&Z, u32) -> NormOrder,
 {
    exists|c: Z|
        #[trigger] is_coordinate(
            ops,
            config,
            offset(column, config.settings.width as int),
            offset(row, config.settings.height as int),
            c,
        ) && is_escape_time(ops, c, config.settings.max_iter as int, n)
}

/// The escape time of the pixel in column `column` and row `row`.
pub open spec fn pixel_escape_time<Z, O, M, A, Q, N>(
    ops: Arithmetic<O, M, A, Q, N>,
    config: RenderConfig<Z>,
    column: int,
    row: int,
) -> nat where
    O: Fn(&Z) -> Z,
    M: Fn(i32, &Z) -> Z,
    A: Fn(Z, &Z) -> Z,
    Q: Fn(Z) -> Z,
    N: Fn(&Z, u32) -> NormOrder,
 {
    escape_time(
        ops,
        coordinate(
            ops,
            config,
            offset(column, config.settings.width as int),
            offset(row, config.settings.height as int),
        ),
        config.settings.max_iter as nat,
    )
}

/// `result` may be what evaluating the pixel in column `column` and row
/// `row` gives: it names that pixel, and its count is an escape time of the
/// pixel's coordinate; with operations that have one result for each
/// argument, the escape time.
pub open spec fn is_pixel_result<Z, O, M, A, Q, N>(
    ops: Arithmetic<O, M, A, Q, N>,
    config: RenderConfig<Z>,
    column: int,
    row: int,
    result: PixelResult,
) -> bool where
    O: Fn(&Z) -> Z,
    M: Fn(i32, &Z) -> Z,
    A: Fn(Z, &Z) -> Z,
    Q: Fn(Z) -> Z,
    N: Fn(&Z, u32) -> NormOrder,
 {
    &&& result.x == column
    &&& result.y == row
    &&& result.iterations <= config.settings.max_iter
    &&& is_pixel_count(ops, config, column, row, result.iterations as int)
    &&& deterministic(ops) ==> result.iterations == pixel_escape_time(ops, config, column, row)
}

/// `color_of` may be called on every count below `max_iter`.
pub open spec fn shader_ready<F>(color_of: F, max_iter: int) -> bool where F: Fn(usize) -> Rgb {
    forall|n: usize| n < max_iter ==> #[trigger] color_of.requires((n,))
}

/// `color_of` gives one colour only to each count.
pub open spec fn shader_deterministic<F>(color_of: F) -> bool where F: Fn(usize) -> Rgb {
    forall|n: usize, a: Rgb, b: Rgb|
        #[trigger] color_of.ensures((n,), a) && #[trigger] color_of.ensures((n,), b) ==> a == b
}

/// `color` may be the colour of a pixel with escape time `n`: black at the
/// cap, and what `color_of` gives below it.
pub open spec fn is_shade<F>(color_of: F, max_iter: int, n: int, color: Rgb) -> bool where
    F: Fn(usize) -> Rgb,
 {
    if n == max_iter {
        color == BLACK
    } else {
        color_of.ensures((n as usize,), color)
    }
}

/// The colour that `color_of` gives to the count `n`. Where it has several
/// results, one of them.
pub open spec fn palette_color<F>(color_of: F, n: usize) -> Rgb where F: Fn(usize) -> Rgb {
    choose|color: Rgb| color_of.ensures((n,), color)
}

/// The colour of a pixel with escape time `n`: black at the cap, and what
/// `color_of` gives below it.
pub open spec fn shade_of<F>(color_of: F, max_iter: nat, n: nat) -> Rgb where F: Fn(usize) -> Rgb {
    if n == max_iter {
        BLACK
    } else {
        palette_color(color_of, n as usize)
    }
}

/// `color` may be the colour of the pixel in column `column` and row `row`.
pub open spec fn is_pixel_color<Z, O, M, A, Q, N, F>(
    ops: Arithmetic<O, M, A, Q, N>,
    color_of: F,
    config: RenderConfig<Z>,
    column: int,
    row: int,
    color: Rgb,
) -> bool where
    O: Fn(&Z) -> Z,
    M: Fn(i32, &Z) -> Z,
    A: Fn(Z, &Z) -> Z,
    Q: Fn(Z) -> Z,
    N: Fn(&Z, u32) -> NormOrder,
    F: Fn(usize) -> Rgb,
 {
    exists|n: int|
        0 <= n <= config.settings.max_iter && #[trigger] is_pixel_count(ops, config, column, row, n)
            && is_shade(color_of, config.settings.max_iter as int, n, color)
}

/// The colour of the pixel in column `column` and row `row`.
pub open spec fn pixel_color<Z, O, M, A, Q, N, F>(
    ops: Arithmetic<O, M, A, Q, N>,
    color_of: F,
    config: RenderConfig<Z>,
    column: int,
    row: int,
) -> Rgb where
    O: Fn(&Z) -> Z,
    M: Fn(i32, &Z) -> Z,
    A: Fn(Z, &Z) -> Z,
    Q: Fn(Z) -> Z,
    N: Fn(&Z, u32) -> NormOrder,
    F: Fn(usize) -> Rgb,
 {
    shade_of(
        color_of,
        config.settings.max_iter as nat,
        pixel_escape_time(ops, config, column, row),
    )
}

/// The colour of a pixel whose escape time is `n`: black where the cap was
/// reached, else the colour that `color_of` gives to `n`.
pub fn shade<F>(n: usize, max_iter: usize, color_of: &F) -> (color: Rgb) where F: Fn(usize) -> Rgb
    requires
        n <= max_iter,
        shader_ready(*color_of, max_iter as int),
    ensures
        is_shade(*color_of, max_iter as int, n as int, color),
        shader_deterministic(*color_of) ==> color == shade_of(
            *color_of,
            max_iter as nat,
            n as nat,
        ),
{
    if n == max_iter {
        BLACK
    } else {
        color_of(n)
    }
}

/// Maps one pixel to its coordinate and evaluates it.
pub fn evaluate_pixel<Z, O, M, A, Q, N>(
    column: u32,
    row: u32,
    config: &RenderConfig<Z>,
    ops: &Arithmetic<O, M, A, Q, N>,
) -> (result: PixelResult) where
    O: Fn(&Z) -> Z,
    M: Fn(i32, &Z) -> Z,
    A: Fn(Z, &Z) -> Z,
    Q: Fn(Z) -> Z,
    N: Fn(&Z, u32) -> NormOrder,

    requires
        ready(*ops),
        column < config.settings.width,
        row < config.settings.height,
    ensures
        is_pixel_result(*ops, *config, column as int, row as int, result),
{
    let c = coordinate_at(column, row, config, ops);
    let n = iterations(&c, config.settings.max_iter, ops);
    assert(is_coordinate(
        *ops,
        *config,
        offset(column as int, config.settings.width as int),
        offset(row as int, config.settings.height as int),
        c,
    ));
    PixelResult { x: column, y: row, iterations: n }
}

/// With operations that have one result for each argument, the count of a
/// pixel is the escape time of its coordinate.
pub proof fn lemma_pixel_count_is_escape_time<Z, O, M, A, Q, N>(
    ops: Arithmetic<O, M, A, Q, N>,
    config: RenderConfig<Z>,
    column: int,
    row: int,
    n: int,
) where
    O: Fn(&Z) -> Z,
    M: Fn(i32, &Z) -> Z,
    A: Fn(Z, &Z) -> Z,
    Q: Fn(Z) -> Z,
    N: Fn(&Z, u32) -> NormOrder,

    requires
        deterministic(ops),
        is_pixel_count(ops, config, column, row, n),
    ensures
        n == pixel_escape_time(ops, config, column, row),
{
    let max_iter = config.settings.max_iter as int;
    let x = offset(column, config.settings.width as int);
    let y = offset(row, config.settings.height as int);
    let c = choose|c: Z| #[trigger]
        is_coordinate(ops, config, x, y, c) && is_escape_time(ops, c, max_iter, n);
    lemma_coordinate_unique(ops, config, x, y, c, coordinate(ops, config, x, y));
    let orbit = choose|orbit: Seq<Z>| is_escape_run(ops, c, max_iter, orbit, n);
    lemma_run_follows_orbit(ops, c, max_iter, orbit, n);
}

/// With operations that have one result for each argument, a pixel has one
/// colour: whatever colour it may have is the colour of the pixel.
pub proof fn lemma_pixel_color_determined<Z, O, M, A, Q, N, F>(
    ops: Arithmetic<O, M, A, Q, N>,
    color_of: F,
    config: RenderConfig<Z>,
    column: int,
    row: int,
    color: Rgb,
) where
    O: Fn(&Z) -> Z,
    M: Fn(i32, &Z) -> Z,
    A: Fn(Z, &Z) -> Z,
    Q: Fn(Z) -> Z,
    N: Fn(&Z, u32) -> NormOrder,
    F: Fn(usize) -> Rgb,

    requires
        deterministic(ops),
        shader_deterministic(color_of),
        is_pixel_color(ops, color_of, config, column, row, color),
    ensures
        color == pixel_color(ops, color_of, config, column, row),
{
    let max_iter = config.settings.max_iter as int;
    let n = choose|n: int|
        0 <= n <= max_iter && #[trigger] is_pixel_count(ops, config, column, row, n) && is_shade(
            color_of,
            max_iter,
            n,
            color,
        );
    lemma_pixel_count_is_escape_time(ops, config, column, row, n);
}

} // verus!
