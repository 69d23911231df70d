use lunabot_core::costmap::{rasterize, CostmapGenerator, GridPoint, HeightCell};

fn gp(x: i64, z: i64, height: i32) -> GridPoint {
    GridPoint { x, z, height }
}

// Points (0, 1, 0), (0.001, 1.2, 0) and (0.5, 0, 0) at a resolution of 0.1,
// with heights in millimetres.
fn sample_points() -> Vec<GridPoint> {
    vec![gp(0, 0, 1000), gp(0, 0, 1200), gp(5, 0, 0)]
}

#[test]
fn rasterizes_sample_batch() {
    let f = rasterize(&sample_points()).unwrap();
    assert_eq!(f.cell_count(), 2);
    assert_eq!(f.cell(0, 0), Some(HeightCell { total_height: 2200, count: 2 }));
    assert_eq!(f.cell(5, 0), Some(HeightCell { total_height: 0, count: 1 }));
    assert_eq!(f.cell(1, 0), None);
    assert_eq!(f.max_density, 2);
    assert_eq!(f.min_height, 0);
    assert_eq!(f.max_height, 1200);
    assert_eq!((f.min_x, f.min_z), (0, 0));
}

#[test]
fn empty_batch_gives_no_frame() {
    assert!(rasterize(&Vec::new()).is_none());
    let mut g = CostmapGenerator::new(2, 0);
    assert!(g.process(&Vec::new()).is_none());
    assert_eq!(g.window.next, 0);
}

#[test]
fn cells_are_relative_to_smallest_indices() {
    let pts = vec![gp(-3, 7, 5), gp(-1, 9, -5), gp(-3, 7, 1)];
    let f = rasterize(&pts).unwrap();
    assert_eq!((f.min_x, f.min_z), (-3, 7));
    assert_eq!(f.cell(-3, 7), Some(HeightCell { total_height: 6, count: 2 }));
    assert_eq!(f.cell(-1, 9), Some(HeightCell { total_height: -5, count: 1 }));
    assert_eq!(f.cell(-4, 7), None);
    assert_eq!(f.min_height, -5);
    assert_eq!(f.max_height, 5);
}

#[test]
fn counts_add_up_to_points() {
    let pts = vec![gp(0, 0, 1), gp(1, 0, 2), gp(0, 0, 3), gp(4, 4, 4), gp(1, 0, 5), gp(0, 0, 6)];
    let f = rasterize(&pts).unwrap();
    let cells = [f.cell(0, 0).unwrap(), f.cell(1, 0).unwrap(), f.cell(4, 4).unwrap()];
    assert_eq!(f.cell_count(), 3);
    assert_eq!(cells.iter().map(|c| c.count).sum::<usize>(), pts.len());
    for c in cells.iter() {
        assert!(c.count as i64 * f.min_height as i64 <= c.total_height);
        assert!(c.total_height <= c.count as i64 * f.max_height as i64);
    }
    assert_eq!(f.max_density, 3);
}

#[test]
fn wide_batch_fits_in_tree() {
    let pts = vec![gp(0, 0, 1), gp(4, 0, 2), gp(0, 1000, 3), gp(1 << 20, 3, 4)];
    let f = rasterize(&pts).unwrap();
    assert_eq!(f.cell_count(), 4);
    assert_eq!(f.cell(1 << 20, 3), Some(HeightCell { total_height: 4, count: 1 }));
    assert_eq!(f.cell(4, 0), Some(HeightCell { total_height: 2, count: 1 }));
}

#[test]
fn extreme_heights_add_without_overflow() {
    let pts = vec![gp(2, 2, i32::MAX), gp(2, 2, i32::MAX), gp(2, 2, i32::MIN)];
    let f = rasterize(&pts).unwrap();
    assert_eq!(f.cell(2, 2), Some(HeightCell { total_height: i32::MAX as i64 - 1, count: 3 }));
}

fn batch(i: i64) -> Vec<GridPoint> {
    vec![gp(10 * i, 0, i as i32), gp(10 * i + 1, 0, i as i32)]
}

#[test]
fn window_fills_in_order() {
    let mut g = CostmapGenerator::new(3, 0);
    let c = g.process(&batch(1)).unwrap();
    assert_eq!(c.frames.len(), 3);
    assert_eq!(c.frames[0].min_x, 10);
    assert_eq!(c.frames[1].cell_count(), 0);
    assert_eq!(c.frames[2].cell_count(), 0);
    assert_eq!(c.point_count, 2);
    let c = g.process(&batch(2)).unwrap();
    assert_eq!(c.frames[0].min_x, 10);
    assert_eq!(c.frames[1].min_x, 20);
    assert_eq!(c.frames[2].cell_count(), 0);
    assert_eq!(c.point_count, 4);
}

#[test]
fn window_evicts_oldest() {
    let mut g = CostmapGenerator::new(3, 0);
    let mut last = None;
    for i in 1..=5 {
        last = g.process(&batch(i));
    }
    let c = last.unwrap();
    let mut held: Vec<i64> = c.frames.iter().map(|f| f.min_x).collect();
    held.sort();
    assert_eq!(held, vec![30, 40, 50]);
    assert_eq!(c.frames[0].min_x, 40);
    assert_eq!(c.frames[1].min_x, 50);
    assert_eq!(c.frames[2].min_x, 30);
    assert_eq!(c.point_count, 6);
}

#[test]
fn safety_query_finds_high_cells() {
    let mut g = CostmapGenerator::new(2, 100);
    g.process(&vec![gp(0, 0, 50), gp(10, 0, 150), gp(10, 0, 250)]).unwrap();
    let c = g.process(&vec![gp(0, 20, 90), gp(0, 20, 130)]).unwrap();
    // The cell at (10, 0) averages 200; the one at (0, 20) averages 110.
    assert!(c.is_global_point_safe(0, 0, 5));
    assert!(!c.is_global_point_safe(0, 0, 10));
    assert!(!c.is_global_point_safe(13, 4, 5));
    assert!(c.is_global_point_safe(13, 5, 5));
    assert!(!c.is_global_point_safe(0, 17, 3));
    assert!(c.is_global_point_safe(0, 16, 3));
}

#[test]
fn safety_query_ignores_low_cells() {
    let mut g = CostmapGenerator::new(1, 100);
    let c = g.process(&vec![gp(0, 0, 100), gp(0, 0, 100), gp(1, 1, -400)]).unwrap();
    assert!(c.is_global_point_safe(0, 0, 3));
}
