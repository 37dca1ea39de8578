use mandelbrot::grid::{pixel_coords, ConfigError, GridConfig};
use mandelbrot::partition::partition;
use mandelbrot::range::GlobalRange;
use mandelbrot::render::{do_map_to_argb, do_mandel, do_mandel_range, join_parts};

fn kernel(i: usize) -> u64 {
    ((i as f64) * 0.5 - 3.0).to_bits()
}

fn shade(g: GlobalRange, x: u64) -> u32 {
    if g.is_degenerate() {
        0xff00_0000
    } else {
        let (lo, hi, v) = (f64::from_bits(g.min), f64::from_bits(g.max), f64::from_bits(x));
        0xff00_0000 | (((v - lo) / (hi - lo) * 255.0).round() as u32)
    }
}

#[test]
fn mandel_buffer_holds_kernel_values() {
    let buf = do_mandel(4, 1, &kernel);
    assert_eq!(buf.len(), 16);
    for (i, v) in buf.iter().enumerate() {
        assert_eq!(*v, kernel(i));
    }
}

#[test]
fn worker_count_does_not_change_results() {
    let one = do_mandel(5, 1, &kernel);
    for workers in 2..8 {
        assert_eq!(do_mandel(5, workers, &kernel), one);
        assert_eq!(do_map_to_argb(&one, workers, &shade), do_map_to_argb(&one, 1, &shade));
    }
}

#[test]
fn colors_use_global_range() {
    let buf = do_mandel(2, 2, &kernel);
    let out = do_map_to_argb(&buf, 3, &shade).unwrap();
    assert_eq!(out, vec![0xff00_0000, 0xff00_0055, 0xff00_00aa, 0xff00_00ff]);
}

#[test]
fn colors_refused_for_non_numeric_buffer() {
    let buf = vec![1.0f64.to_bits(), f64::NAN.to_bits()];
    assert_eq!(do_map_to_argb(&buf, 1, &shade), None);
}

#[test]
fn joined_parts_match_sequential_run() {
    let plan = partition(9, 4);
    let parts: Vec<Vec<u64>> = plan.iter().map(|c| do_mandel_range(c.beg, c.end, &kernel)).collect();
    assert_eq!(join_parts(9, &plan, &parts), do_mandel(3, 1, &kernel));
}

#[test]
fn pixel_index_splits_into_column_and_row() {
    assert_eq!(pixel_coords(4, 0), (0, 0));
    assert_eq!(pixel_coords(4, 6), (2, 1));
    assert_eq!(pixel_coords(1000, 999_999), (999, 999));
}

#[test]
fn config_errors() {
    assert_eq!(GridConfig::new(0, 1, 1), Err(ConfigError::EmptyGrid));
    assert_eq!(GridConfig::new(usize::MAX, 1, 1), Err(ConfigError::GridTooLarge));
    assert_eq!(GridConfig::new(4, 0, 1), Err(ConfigError::ZeroDepth));
    assert_eq!(GridConfig::new(4, 50, 0), Err(ConfigError::NoWorkers));
    let c = GridConfig::new(4, 50, 2).unwrap();
    assert_eq!(c.pixel_count(), 16);
}
