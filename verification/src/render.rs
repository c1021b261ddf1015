//! The raster driver: every pixel is mapped to its coordinate, evaluated,
//! coloured and written to its own cell of the raster.
//!
//! The unit of work is one column. Columns share nothing, so they may be
//! rendered by any number of workers and written in any order.

use crate::arithmetic::{deterministic, ready, Arithmetic, NormOrder};
use crate::config::RenderConfig;
use crate::mapper::{cells, lemma_cell_count};
use crate::pixel::{
    evaluate_pixel, is_pixel_color, is_pixel_result, lemma_pixel_color_determined, pixel_color,
    shade, shader_deterministic, shader_ready, PixelResult,
};
use crate::raster::{blank, lemma_with_columns_cell, raster_fits, with_columns, Raster, Rgb};
use vstd::prelude::*;

verus! {

/// `colors` may be the colours of column `column`, one for each row.
pub open spec fn is_column<Z, O, M, A, Q, N, F>(
    ops: Arithmetic<O, M, A, Q, N>,
    color_of: F,
    config: RenderConfig<Z>,
    column: int,
    colors: Seq<Rgb>,
) -> bool where
    O: Fn(&Z) -> Z,
    M: Fn(i32, &Z) -> Z,
    A: Fn(Z, &Z) -> Z,
    Q: Fn(Z) -> Z,
    N: Fn(&Z, u32) -> NormOrder,
    F: Fn(usize) -> Rgb,
 {
    &&& colors.len() == config.settings.height
    &&& forall|row: int|
        0 <= row < colors.len() ==> is_pixel_color(
            ops,
            color_of,
            config,
            column,
            row,
            #[trigger] colors[row],
        )
}

/// `pixels` may be the image of `config`: it has exactly the cells of the
/// image, and each holds a colour of its own pixel.
pub open spec fn is_rendering<Z, O, M, A, Q, N, F>(
    ops: Arithmetic<O, M, A, Q, N>,
    color_of: F,
    config: RenderConfig<Z>,
    pixels: Map<(int, int), Rgb>,
) -> bool where
    O: Fn(&Z) -> Z,
    M: Fn(i32, &Z) -> Z,
    A: Fn(Z, &Z) -> Z,
    Q: Fn(Z) -> Z,
    N: Fn(&Z, u32) -> NormOrder,
    F: Fn(usize) -> Rgb,
 {
    &&& pixels.dom() == cells(config.settings.width as int, config.settings.height as int)
    &&& forall|x: int, y: int|
        0 <= x < config.settings.width && 0 <= y < config.settings.height ==> is_pixel_color(
            ops,
            color_of,
            config,
            x,
            y,
            #[trigger] pixels[(x, y)],
        )
}

/// The image of `config`: the colour of each of its pixels.
pub open spec fn image_of<Z, O, M, A, Q, N, F>(
    ops: Arithmetic<O, M, A, Q, N>,
    color_of: F,
    config: RenderConfig<Z>,
) -> Map<(int, int), Rgb> where
    O: Fn(&Z) -> Z,
    M: Fn(i32, &Z) -> Z,
    A: Fn(Z, &Z) -> Z,
    Q: Fn(Z) -> Z,
    N: Fn(&Z, u32) -> NormOrder,
    F: Fn(usize) -> Rgb,
 {
    Map::new(
        |p: (int, int)|
            cells(config.settings.width as int, config.settings.height as int).contains(p),
        |p: (int, int)| pixel_color(ops, color_of, config, p.0, p.1),
    )
}

/// Where the result of the pixel in column `x` and row `y` stands among the
/// results of the whole image: columns follow each other, each from row 0 down.
pub open spec fn result_index(x: int, y: int, height: int) -> int {
    x * height + y
}

/// The pixel whose result stands at place `k` among the results of the whole image.
pub open spec fn result_cell(k: int, height: int) -> (int, int) {
    (k / height, k % height)
}

/// Evaluates every pixel of one column, from row 0 down.
pub fn evaluate_column<Z, O, M, A, Q, N>(
    column: u32,
    config: &RenderConfig<Z>,
    ops: &Arithmetic<O, M, A, Q, N>,
) -> (results: Vec<PixelResult>) where
    O: Fn(&Z) -> Z,
    M: Fn(i32, &Z) -> Z,
    A: Fn(Z, &Z) -> Z,
    Q: Fn(Z) -> Z,
    N: Fn(&Z, u32) -> NormOrder,

    requires
        ready(*ops),
        column < config.settings.width,
    ensures
        results.len() == config.settings.height,
        forall|row: int|
            0 <= row < results.len() ==> is_pixel_result(
                *ops,
                *config,
                column as int,
                row,
                #[trigger] results[row],
            ),
{
    let height = config.settings.height;
    let mut results: Vec<PixelResult> = Vec::new();
    let mut row: u32 = 0;
    while row < height
        invariant
            ready(*ops),
            column < config.settings.width,
            height == config.settings.height,
            row <= height,
            results.len() == row,
            forall|j: int|
                0 <= j < results.len() ==> is_pixel_result(
                    *ops,
                    *config,
                    column as int,
                    j,
                    #[trigger] results[j],
                ),
        decreases height - row,
    {
        let result = evaluate_pixel(column, row, config, ops);
        results.push(result);
        row += 1;
    }
    results
}

/// Evaluates every pixel of the image: one result for each pixel, column
/// after column and each column from row 0 down.
pub fn evaluate<Z, O, M, A, Q, N>(
    config: &RenderConfig<Z>,
    ops: &Arithmetic<O, M, A, Q, N>,
) -> (results: Vec<PixelResult>) where
    O: Fn(&Z) -> Z,
    M: Fn(i32, &Z) -> Z,
    A: Fn(Z, &Z) -> Z,
    Q: Fn(Z) -> Z,
    N: Fn(&Z, u32) -> NormOrder,

    requires
        ready(*ops),
        config.settings.pixel_count() <= usize::MAX,
    ensures
        results.len() == config.settings.pixel_count(),
        forall|x: int, y: int|
            0 <= x < config.settings.width && 0 <= y < config.settings.height ==> is_pixel_result(
                *ops,
                *config,
                x,
                y,
                #[trigger] results[result_index(x, y, config.settings.height as int)],
            ),
{
    let width = config.settings.width;
    let height = config.settings.height;
    let mut results: Vec<PixelResult> = Vec::new();
    let mut column: u32 = 0;
    while column < width
        invariant
            ready(*ops),
            width == config.settings.width,
            height == config.settings.height,
            width * height <= usize::MAX,
            column <= width,
            results.len() == column * height,
            forall|x: int, y: int|
                0 <= x < column && 0 <= y < height ==> is_pixel_result(
                    *ops,
                    *config,
                    x,
                    y,
                    #[trigger] results[result_index(x, y, height as int)],
                ),
        decreases width - column,
    {
        let column_results = evaluate_column(column, config, ops);
        let ghost before = results@;
        let mut row: usize = 0;
        proof {
            assert((column + 1) * height <= width * height) by (nonlinear_arith)
                requires
                    column + 1 <= width,
                    0 <= height,
            ;
            assert((column + 1) * height == column * height + height) by (nonlinear_arith);
        }
        while row < column_results.len()
            invariant
                column_results.len() == height,
                row <= column_results.len(),
                column * height + height <= usize::MAX,
                results.len() == column * height + row,
                results@ == before + column_results@.subrange(0, row as int),
            decreases column_results.len() - row,
        {
            results.push(column_results[row]);
            row += 1;
        }
        assert forall|x: int, y: int|
            0 <= x < column + 1 && 0 <= y < height implies is_pixel_result(
            *ops,
            *config,
            x,
            y,
            #[trigger] results[result_index(x, y, height as int)],
        ) by {
            if x < column {
                lemma_result_index_in_range(x, y, column as int, height as int);
                assert(results[result_index(x, y, height as int)] == before[result_index(
                    x,
                    y,
                    height as int,
                )]);
            } else {
            }
        }
        column += 1;
    }
    results
}

/// Renders one column: evaluates its pixels and gives each its colour.
pub fn render_column<Z, O, M, A, Q, N, F>(
    column: u32,
    config: &RenderConfig<Z>,
    ops: &Arithmetic<O, M, A, Q, N>,
    color_of: &F,
) -> (colors: Vec<Rgb>) where
    O: Fn(&Z) -> Z,
    M: Fn(i32, &Z) -> Z,
    A: Fn(Z, &Z) -> Z,
    Q: Fn(Z) -> Z,
    N: Fn(&Z, u32) -> NormOrder,
    F: Fn(usize) -> Rgb,

    requires
        ready(*ops),
        shader_ready(*color_of, config.settings.max_iter as int),
        column < config.settings.width,
    ensures
        is_column(*ops, *color_of, *config, column as int, colors@),
        deterministic(*ops) && shader_deterministic(*color_of) ==> forall|row: int|
            0 <= row < colors.len() ==> #[trigger] colors[row] == pixel_color(
                *ops,
                *color_of,
                *config,
                column as int,
                row,
            ),
{
    let results = evaluate_column(column, config, ops);
    let max_iter = config.settings.max_iter;
    let mut colors: Vec<Rgb> = Vec::new();
    let mut row: usize = 0;
    while row < results.len()
        invariant
            shader_ready(*color_of, max_iter as int),
            max_iter == config.settings.max_iter,
            results.len() == config.settings.height,
            row <= results.len(),
            colors.len() == row,
            forall|j: int|
                0 <= j < results.len() ==> is_pixel_result(
                    *ops,
                    *config,
                    column as int,
                    j,
                    #[trigger] results[j],
                ),
            forall|j: int|
                0 <= j < colors.len() ==> is_pixel_color(
                    *ops,
                    *color_of,
                    *config,
                    column as int,
                    j,
                    #[trigger] colors[j],
                ),
        decreases results.len() - row,
    {
        let n = results[row].iterations;
        let color = shade(n, max_iter, color_of);
        colors.push(color);
        row += 1;
    }
    proof {
        if deterministic(*ops) && shader_deterministic(*color_of) {
            assert forall|j: int| 0 <= j < colors.len() implies #[trigger] colors[j]
                == pixel_color(*ops, *color_of, *config, column as int, j) by {
                lemma_pixel_color_determined(*ops, *color_of, *config, column as int, j, colors[j]);
            }
        }
    }
    colors
}

/// Renders the whole image, column after column.
pub fn render<Z, O, M, A, Q, N, F>(
    config: &RenderConfig<Z>,
    ops: &Arithmetic<O, M, A, Q, N>,
    color_of: &F,
) -> (raster: Raster) where
    O: Fn(&Z) -> Z,
    M: Fn(i32, &Z) -> Z,
    A: Fn(Z, &Z) -> Z,
    Q: Fn(Z) -> Z,
    N: Fn(&Z, u32) -> NormOrder,
    F: Fn(usize) -> Rgb,

    requires
        ready(*ops),
        shader_ready(*color_of, config.settings.max_iter as int),
        raster_fits(config.settings.width as int, config.settings.height as int),
    ensures
        raster.spec_width() == config.settings.width,
        raster.spec_height() == config.settings.height,
        is_rendering(*ops, *color_of, *config, raster@),
        deterministic(*ops) && shader_deterministic(*color_of) ==> raster@ == image_of(
            *ops,
            *color_of,
            *config,
        ),
{
    let width = config.settings.width;
    let height = config.settings.height;
    let mut raster = Raster::new(width, height);
    let mut column: u32 = 0;
    while column < width
        invariant
            ready(*ops),
            shader_ready(*color_of, config.settings.max_iter as int),
            width == config.settings.width,
            height == config.settings.height,
            column <= width,
            raster.spec_width() == width,
            raster.spec_height() == height,
            raster@.dom() == cells(width as int, height as int),
            forall|x: int, y: int|
                0 <= x < column && 0 <= y < height ==> is_pixel_color(
                    *ops,
                    *color_of,
                    *config,
                    x,
                    y,
                    #[trigger] raster@[(x, y)],
                ),
        decreases width - column,
    {
        let colors = render_column(column, config, ops, color_of);
        let ghost before = raster@;
        raster.place_column(column, &colors);
        assert forall|x: int, y: int| 0 <= x < column + 1 && 0 <= y < height implies is_pixel_color(
            *ops,
            *color_of,
            *config,
            x,
            y,
            #[trigger] raster@[(x, y)],
        ) by {
            if x == column {
                assert(raster@[(x, y)] == colors@[y]);
            } else {
                assert(raster@[(x, y)] == before[(x, y)]);
            }
        }
        column += 1;
    }
    proof {
        if deterministic(*ops) && shader_deterministic(*color_of) {
            lemma_rendering_is_image(*ops, *color_of, *config, raster@);
        }
    }
    raster
}

/// The result of a pixel of the image stands within the results of the image.
pub proof fn lemma_result_index_in_range(x: int, y: int, width: int, height: int)
    requires
        0 <= x < width,
        0 <= y < height,
    ensures
        0 <= result_index(x, y, height) < width * height,
{
    assert(0 <= x * height) by (nonlinear_arith)
        requires
            0 <= x,
            0 <= height,
    ;
    assert(x * height + height <= width * height) by (nonlinear_arith)
        requires
            x + 1 <= width,
            0 <= height,
    ;
}

/// Every pixel is evaluated exactly once: the results of an image of `width`
/// by `height` pixels and its cells correspond one to one. Each cell has a
/// place of its own among the `width * height` results, and each place is
/// that of a cell.
pub proof fn lemma_results_match_cells(width: int, height: int)
    requires
        0 <= width,
        0 <= height,
    ensures
        cells(width, height).len() == width * height,
        forall|x: int, y: int|
            cells(width, height).contains((x, y)) ==> 0 <= #[trigger] result_index(x, y, height)
                < width * height,
        forall|x1: int, y1: int, x2: int, y2: int|
            cells(width, height).contains((x1, y1)) && cells(width, height).contains((x2, y2))
                && #[trigger] result_index(x1, y1, height) == #[trigger] result_index(
                x2,
                y2,
                height,
            ) ==> x1 == x2 && y1 == y2,
        forall|k: int|
            0 <= k < width * height ==> cells(width, height).contains(
                #[trigger] result_cell(k, height),
            ) && result_index(result_cell(k, height).0, result_cell(k, height).1, height) == k,
{
    lemma_cell_count(width, height);
    assert forall|x: int, y: int| cells(width, height).contains((x, y)) implies 0
        <= #[trigger] result_index(x, y, height) < width * height by {
        lemma_result_index_in_range(x, y, width, height);
    }
    assert forall|x1: int, y1: int, x2: int, y2: int|
        cells(width, height).contains((x1, y1)) && cells(width, height).contains((x2, y2))
            && #[trigger] result_index(x1, y1, height) == #[trigger] result_index(
            x2,
            y2,
            height,
        ) implies x1 == x2 && y1 == y2 by {
        vstd::arithmetic::div_mod::lemma_fundamental_div_mod_converse(
            result_index(x1, y1, height),
            height,
            x1,
            y1,
        );
        vstd::arithmetic::div_mod::lemma_fundamental_div_mod_converse(
            result_index(x2, y2, height),
            height,
            x2,
            y2,
        );
    }
    assert forall|k: int| 0 <= k < width * height implies cells(width, height).contains(
        #[trigger] result_cell(k, height),
    ) && result_index(result_cell(k, height).0, result_cell(k, height).1, height) == k by {
        assert(height > 0) by (nonlinear_arith)
            requires
                0 <= k < width * height,
                0 <= height,
        ;
        vstd::arithmetic::div_mod::lemma_fundamental_div_mod(k, height);
        vstd::arithmetic::div_mod::lemma_mod_bound(k, height);
        vstd::arithmetic::div_mod::lemma_div_pos_is_pos(k, height);
        assert(k / height < width) by (nonlinear_arith)
            requires
                k == height * (k / height) + k % height,
                0 <= k % height,
                k < width * height,
                height > 0,
        ;
        assert(height * (k / height) == (k / height) * height) by (nonlinear_arith);
    }
}

/// Rendered columns make the image in whatever order they are written: a
/// run of column writes on a blank raster that names every column of the
/// image, and no other, leaves an image of the configuration.
pub proof fn lemma_columns_in_any_order_make_the_image<Z, O, M, A, Q, N, F>(
    ops: Arithmetic<O, M, A, Q, N>,
    color_of: F,
    config: RenderConfig<Z>,
    order: Seq<int>,
    columns: Seq<Seq<Rgb>>,
) where
    O: Fn(&Z) -> Z,
    M: Fn(i32, &Z) -> Z,
    A: Fn(Z, &Z) -> Z,
    Q: Fn(Z) -> Z,
    N: Fn(&Z, u32) -> NormOrder,
    F: Fn(usize) -> Rgb,

    requires
        columns.len() == config.settings.width,
        forall|x: int|
            0 <= x < columns.len() ==> is_column(ops, color_of, config, x, #[trigger] columns[x]),
        forall|x: int| order.contains(x) <==> 0 <= x < config.settings.width,
    ensures
        is_rendering(
            ops,
            color_of,
            config,
            with_columns(
                blank(config.settings.width as int, config.settings.height as int),
                order,
                columns,
            ),
        ),
{
    let width = config.settings.width as int;
    let height = config.settings.height as int;
    let start = blank(width, height);
    let end = with_columns(start, order, columns);
    assert forall|p: (int, int)| #[trigger] end.dom().contains(p) == cells(width, height).contains(
        p,
    ) by {
        lemma_with_columns_cell(start, order, columns, p);
    }
    assert(end.dom() =~= cells(width, height));
    assert forall|x: int, y: int| 0 <= x < width && 0 <= y < height implies is_pixel_color(
        ops,
        color_of,
        config,
        x,
        y,
        #[trigger] end[(x, y)],
    ) by {
        lemma_with_columns_cell(start, order, columns, (x, y));
    }
}

/// With operations that have one result for each argument, an image of a
/// configuration is the image of the configuration.
pub proof fn lemma_rendering_is_image<Z, O, M, A, Q, N, F>(
    ops: Arithmetic<O, M, A, Q, N>,
    color_of: F,
    config: RenderConfig<Z>,
    pixels: Map<(int, int), Rgb>,
) where
    O: Fn(&Z) -> Z,
    M: Fn(i32, &Z) -> Z,
    A: Fn(Z, &Z) -> Z,
    Q: Fn(Z) -> Z,
    N: Fn(&Z, u32) -> NormOrder,
    F: Fn(usize) -> Rgb,

    requires
        deterministic(ops),
        shader_deterministic(color_of),
        is_rendering(ops, color_of, config, pixels),
    ensures
        pixels == image_of(ops, color_of, config),
{
    let image = image_of(ops, color_of, config);
    assert forall|p: (int, int)| pixels.dom().contains(p) implies #[trigger] pixels[p]
        == image[p] by {
        assert(is_pixel_color(ops, color_of, config, p.0, p.1, pixels[(p.0, p.1)]));
        lemma_pixel_color_determined(ops, color_of, config, p.0, p.1, pixels[p]);
    }
    assert(pixels =~= image);
}

/// Rendering is deterministic: with operations that have one result for
/// each argument a configuration has one image, however many workers took
/// part and in whatever order they wrote.
pub proof fn lemma_rendering_unique<Z, O, M, A, Q, N, F>(
    ops: Arithmetic<O, M, A, Q, N>,
    color_of: F,
    config: RenderConfig<Z>,
    pixels1: Map<(int, int), Rgb>,
    pixels2: Map<(int, int), Rgb>,
) where
    O: Fn(&Z) -> Z,
    M: Fn(i32, &Z) -> Z,
    A: Fn(Z, &Z) -> Z,
    Q: Fn(Z) -> Z,
    N: Fn(&Z, u32) -> NormOrder,
    F: Fn(usize) -> Rgb,

    requires
        deterministic(ops),
        shader_deterministic(color_of),
        is_rendering(ops, color_of, config, pixels1),
        is_rendering(ops, color_of, config, pixels2),
    ensures
        pixels1 == pixels2,
{
    lemma_rendering_is_image(ops, color_of, config, pixels1);
    lemma_rendering_is_image(ops, color_of, config, pixels2);
}

} // verus!
