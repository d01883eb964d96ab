use mandelbrot::gather::{assemble, pixel_of_index, Line};
use mandelbrot::viewport::{TileError, TileSpecification};

fn spec(w: i32, h: i32) -> TileSpecification {
    TileSpecification::new(w, h, 0, 0, 0).unwrap()
}

fn line(row: i32, counts: &[u32]) -> Line {
    Line { row, counts: counts.to_vec() }
}

#[test]
fn new_rejects_non_positive_dimensions() {
    assert_eq!(TileSpecification::new(0, 3, 1, 2, 3), Err(TileError::InvalidTileSpecification));
    assert_eq!(TileSpecification::new(4, -1, 1, 2, 3), Err(TileError::InvalidTileSpecification));
    let s = TileSpecification::new(4, 3, 1, 2, 3).unwrap();
    assert_eq!(s.pixel_width, 4);
    assert_eq!(s.pixel_height, 3);
    assert_eq!((s.center_x_bits, s.center_y_bits, s.zoom_bits), (1, 2, 3));
    assert!(s.is_valid());
}

#[test]
fn assemble_in_order() {
    let lines = vec![line(0, &[1, 2, 3]), line(1, &[4, 5, 6])];
    let tile = assemble(spec(3, 2), 128, &lines).unwrap();
    assert_eq!(tile.counts(), &vec![1, 2, 3, 4, 5, 6]);
    assert_eq!(tile.specification(), spec(3, 2));
    assert_eq!(tile.max_iterations(), 128);
}

#[test]
fn assemble_ignores_arrival_order() {
    let in_order = vec![line(0, &[0, 7]), line(1, &[128, 3]), line(2, &[9, 1])];
    let shuffled = vec![line(2, &[9, 1]), line(0, &[0, 7]), line(1, &[128, 3])];
    let a = assemble(spec(2, 3), 128, &in_order).unwrap();
    let b = assemble(spec(2, 3), 128, &shuffled).unwrap();
    assert_eq!(a.counts(), b.counts());
    assert_eq!(b.counts(), &vec![0, 7, 128, 3, 9, 1]);
}

#[test]
fn assembled_tile_has_one_bounded_count_per_pixel() {
    let lines: Vec<Line> = (0..5).rev().map(|r| line(r, &[r as u32 * 30; 4])).collect();
    let tile = assemble(spec(4, 5), 128, &lines).unwrap();
    assert_eq!(tile.counts().len(), 20);
    for &c in tile.counts() {
        let g = c as f32 / tile.max_iterations() as f32;
        assert!((0.0..=1.0).contains(&g));
    }
}

#[test]
fn assemble_rejects_invalid_specification() {
    let bad = TileSpecification { pixel_width: 0, pixel_height: 1, center_x_bits: 0, center_y_bits: 0, zoom_bits: 0 };
    assert_eq!(assemble(bad, 128, &vec![]).err(), Some(TileError::InvalidTileSpecification));
}

#[test]
fn assemble_rejects_missing_row() {
    let lines = vec![line(0, &[1, 2])];
    assert_eq!(assemble(spec(2, 2), 128, &lines).err(), Some(TileError::RowComputationFault));
}

#[test]
fn assemble_rejects_duplicate_row() {
    let lines = vec![line(1, &[1, 2]), line(1, &[1, 2])];
    assert_eq!(assemble(spec(2, 2), 128, &lines).err(), Some(TileError::RowComputationFault));
}

#[test]
fn assemble_rejects_row_out_of_range() {
    let lines = vec![line(0, &[1, 2]), line(2, &[1, 2])];
    assert_eq!(assemble(spec(2, 2), 128, &lines).err(), Some(TileError::RowComputationFault));
    let lines = vec![line(-1, &[1, 2]), line(1, &[1, 2])];
    assert_eq!(assemble(spec(2, 2), 128, &lines).err(), Some(TileError::RowComputationFault));
}

#[test]
fn assemble_rejects_wrong_width() {
    let lines = vec![line(0, &[1, 2]), line(1, &[1])];
    assert_eq!(assemble(spec(2, 2), 128, &lines).err(), Some(TileError::RowComputationFault));
}

#[test]
fn assemble_rejects_count_over_budget() {
    let lines = vec![line(0, &[1, 129]), line(1, &[1, 2])];
    assert_eq!(assemble(spec(2, 2), 128, &lines).err(), Some(TileError::RowComputationFault));
    let lines = vec![line(0, &[1, 128]), line(1, &[1, 2])];
    assert!(assemble(spec(2, 2), 128, &lines).is_ok());
}

#[test]
fn pixel_of_index_is_row_major() {
    let s = spec(5, 3);
    assert_eq!(pixel_of_index(s, 0), (0, 0));
    assert_eq!(pixel_of_index(s, 4), (4, 0));
    assert_eq!(pixel_of_index(s, 5), (0, 1));
    assert_eq!(pixel_of_index(s, 14), (4, 2));
}
