use mandelbrot::arithmetic::{Arithmetic, NormOrder};
use mandelbrot::config::RenderConfig;
use mandelbrot::raster::{Raster, Rgb, BLACK};
use mandelbrot::pixel::{evaluate_pixel, shade, PixelResult};
use mandelbrot::render::{evaluate, evaluate_column, render, render_column};
use rayon::iter::{IntoParallelIterator, ParallelIterator};
use std::cmp::Ordering;
use std::sync::Mutex;

type Plane = (f64, f64);

fn plane_zero(_c: &Plane) -> Plane {
    (0.0, 0.0)
}

fn plane_times(k: i32, z: &Plane) -> Plane {
    (k as f64 * z.0, k as f64 * z.1)
}

fn plane_plus(a: Plane, b: &Plane) -> Plane {
    (a.0 + b.0, a.1 + b.1)
}

fn plane_square(z: Plane) -> Plane {
    (z.0 * z.0 - z.1 * z.1, 2.0 * z.0 * z.1)
}

fn plane_norm_order(z: &Plane, bound: u32) -> NormOrder {
    let norm = z.0 * z.0 + z.1 * z.1;
    match norm.partial_cmp(&(bound as f64)) {
        Some(Ordering::Less) => NormOrder::Below,
        Some(Ordering::Equal) => NormOrder::Equal,
        Some(Ordering::Greater) => NormOrder::Above,
        None => NormOrder::Unordered,
    }
}

type PlaneOps = Arithmetic<
    fn(&Plane) -> Plane,
    fn(i32, &Plane) -> Plane,
    fn(Plane, &Plane) -> Plane,
    fn(Plane) -> Plane,
    fn(&Plane, u32) -> NormOrder,
>;

fn plane_ops() -> PlaneOps {
    Arithmetic {
        zero: plane_zero,
        times: plane_times,
        plus: plane_plus,
        square: plane_square,
        norm_order: plane_norm_order,
    }
}

fn plane_config(
    width: u32,
    height: u32,
    center: Plane,
    scale: f64,
    max_iter: usize,
) -> RenderConfig<Plane> {
    RenderConfig::new(
        width,
        height,
        53,
        max_iter,
        |_| Some(center),
        |_| Some((scale, 0.0)),
        |step: &Plane| (-step.1, step.0),
    )
    .unwrap()
}

fn palette(n: usize) -> Rgb {
    (n as u8, (2 * n) as u8, (255 - n) as u8)
}

/// The counts of the 4 by 4 image around 0 with one unit for each pixel and a cap of 10,
/// column by column.
fn unit_counts() -> [[usize; 4]; 4] {
    [[1, 1, 1, 1], [1, 3, 10, 3], [1, 10, 10, 10], [1, 2, 2, 2]]
}

#[test]
fn shade_is_black_at_the_cap() {
    assert_eq!(shade(10, 10, &palette), BLACK);
    assert_eq!(shade(0, 0, &palette), BLACK);
}

#[test]
fn shade_asks_the_palette_below_the_cap() {
    assert_eq!(shade(0, 10, &palette), (0, 0, 255));
    assert_eq!(shade(9, 10, &palette), (9, 18, 246));
}

#[test]
fn shade_never_asks_the_palette_at_the_cap() {
    let strict = |n: usize| -> Rgb {
        assert!(n < 10);
        (1, 1, 1)
    };
    assert_eq!(shade(10, 10, &strict), BLACK);
    assert_eq!(shade(3, 10, &strict), (1, 1, 1));
}

#[test]
fn unit_image_center_is_interior() {
    let config = plane_config(4, 4, (0.0, 0.0), 1.0, 10);
    let ops = plane_ops();
    assert_eq!(evaluate_pixel(2, 2, &config, &ops), PixelResult { x: 2, y: 2, iterations: 10 });
}

#[test]
fn unit_image_corner_escapes_quickly() {
    let config = plane_config(4, 4, (0.0, 0.0), 1.0, 10);
    let ops = plane_ops();
    assert_eq!(evaluate_pixel(0, 0, &config, &ops), PixelResult { x: 0, y: 0, iterations: 1 });
    assert_eq!(evaluate_pixel(3, 3, &config, &ops), PixelResult { x: 3, y: 3, iterations: 2 });
}

#[test]
fn unit_image_counts() {
    let config = plane_config(4, 4, (0.0, 0.0), 1.0, 10);
    let ops = plane_ops();
    let expected = unit_counts();
    for x in 0..4u32 {
        let column = evaluate_column(x, &config, &ops);
        assert_eq!(column.len(), 4);
        for y in 0..4u32 {
            assert_eq!(
                column[y as usize],
                PixelResult { x, y, iterations: expected[x as usize][y as usize] }
            );
        }
    }
}

#[test]
fn unit_image_colours() {
    let config = plane_config(4, 4, (0.0, 0.0), 1.0, 10);
    let ops = plane_ops();
    let raster = render(&config, &ops, &palette);
    assert_eq!(raster.width(), 4);
    assert_eq!(raster.height(), 4);
    let expected = unit_counts();
    for x in 0..4u32 {
        for y in 0..4u32 {
            let n = expected[x as usize][y as usize];
            let color = if n == 10 { BLACK } else { palette(n) };
            assert_eq!(raster.get(x, y), Some(color));
        }
    }
}

#[test]
fn evaluate_gives_one_result_for_each_pixel() {
    let config = plane_config(5, 3, (-0.5, 0.0), 0.5, 20);
    let ops = plane_ops();
    let results = evaluate(&config, &ops);
    assert_eq!(results.len(), 15);
    let mut seen = vec![false; 15];
    for r in &results {
        assert!(r.x < 5);
        assert!(r.y < 3);
        assert!(r.iterations <= 20);
        let k = (r.x * 3 + r.y) as usize;
        assert!(!seen[k]);
        seen[k] = true;
    }
    assert!(seen.iter().all(|s| *s));
}

#[test]
fn evaluate_lists_columns_one_after_the_other() {
    let config = plane_config(5, 3, (-0.5, 0.0), 0.5, 20);
    let ops = plane_ops();
    let results = evaluate(&config, &ops);
    for x in 0..5u32 {
        let column = evaluate_column(x, &config, &ops);
        for y in 0..3u32 {
            assert_eq!(results[(x * 3 + y) as usize], column[y as usize]);
            assert_eq!(results[(x * 3 + y) as usize], evaluate_pixel(x, y, &config, &ops));
        }
    }
}

#[test]
fn evaluate_unit_image() {
    let config = plane_config(4, 4, (0.0, 0.0), 1.0, 10);
    let ops = plane_ops();
    let counts: Vec<usize> = evaluate(&config, &ops).iter().map(|r| r.iterations).collect();
    assert_eq!(counts, vec![1, 1, 1, 1, 1, 3, 10, 3, 1, 10, 10, 10, 1, 2, 2, 2]);
}

#[test]
fn render_column_shades_the_counts() {
    let config = plane_config(4, 4, (0.0, 0.0), 1.0, 10);
    let ops = plane_ops();
    assert_eq!(
        render_column(1, &config, &ops, &palette),
        vec![palette(1), palette(3), BLACK, palette(3)]
    );
}

#[test]
fn render_covers_odd_images() {
    let config = plane_config(5, 3, (0.0, 0.0), 1.0, 10);
    let ops = plane_ops();
    let white = |_: usize| -> Rgb { (255, 255, 255) };
    let raster = render(&config, &ops, &white);
    // Offsets run from -2 to 2 and from -1 to 1: the last column and row are written too.
    assert_eq!(raster.get(4, 0), Some((255, 255, 255)));
    assert_eq!(raster.get(4, 2), Some((255, 255, 255)));
    assert_eq!(raster.get(2, 1), Some(BLACK));
    assert_eq!(raster.get(5, 0), None);
}

#[test]
fn render_single_pixel() {
    let config = plane_config(1, 1, (3.0, 0.0), 1.0, 10);
    let ops = plane_ops();
    let raster = render(&config, &ops, &palette);
    assert_eq!(raster.into_bytes(), vec![1, 2, 254]);
}

#[test]
fn render_is_repeatable() {
    let config = plane_config(16, 12, (-0.6, 0.1), 0.17, 40);
    let ops = plane_ops();
    let first = render(&config, &ops, &palette).into_bytes();
    let second = render(&config, &ops, &palette).into_bytes();
    assert_eq!(first, second);
}

#[test]
fn columns_in_reverse_order_make_the_same_image() {
    let config = plane_config(9, 7, (-0.6, 0.1), 0.3, 40);
    let ops = plane_ops();
    let mut raster = Raster::new(9, 7);
    for x in (0..9u32).rev() {
        let colors = render_column(x, &config, &ops, &palette);
        raster.place_column(x, &colors);
    }
    assert_eq!(raster.into_bytes(), render(&config, &ops, &palette).into_bytes());
}

#[test]
fn parallel_workers_make_the_same_image() {
    let config = plane_config(24, 17, (-0.6, 0.1), 0.12, 60);
    let ops = plane_ops();
    let expected = render(&config, &ops, &palette).into_bytes();
    for workers in [1usize, 2, 5] {
        let pool = rayon::ThreadPoolBuilder::new().num_threads(workers).build().unwrap();
        let shared = Mutex::new(Raster::new(24, 17));
        pool.install(|| {
            (0..24u32).into_par_iter().for_each(|x| {
                let colors = render_column(x, &config, &ops, &palette);
                shared.lock().unwrap().place_column(x, &colors);
            });
        });
        assert_eq!(shared.into_inner().unwrap().into_bytes(), expected);
    }
}

#[test]
fn image_is_symmetric_across_the_real_axis() {
    // An odd height puts the real axis on the middle row.
    let config = plane_config(12, 9, (-0.5, 0.0), 0.25, 50);
    let ops = plane_ops();
    let raster = render(&config, &ops, &palette);
    for x in 0..12u32 {
        for y in 0..9u32 {
            assert_eq!(raster.get(x, y), raster.get(x, 8 - y));
        }
    }
}
