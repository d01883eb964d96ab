use mandelbrot::gather::{assemble, Line};
use mandelbrot::text::{count_symbol, text_rows};
use mandelbrot::timing::{duration_unit, DurationUnit};
use mandelbrot::viewport::TileSpecification;

#[test]
fn symbols_follow_half_open_ranges() {
    assert_eq!(count_symbol(0), ' ');
    assert_eq!(count_symbol(1), '+');
    assert_eq!(count_symbol(63), '+');
    assert_eq!(count_symbol(64), '*');
    assert_eq!(count_symbol(127), '*');
    assert_eq!(count_symbol(128), '#');
    assert_eq!(count_symbol(254), '#');
    assert_eq!(count_symbol(255), 'X');
    assert_eq!(count_symbol(u32::MAX), 'X');
}

#[test]
fn text_rows_follow_tile_layout() {
    let s = TileSpecification::new(3, 2, 0, 0, 0).unwrap();
    let lines = vec![
        Line { row: 1, counts: vec![128, 64, 1] },
        Line { row: 0, counts: vec![0, 1, 64] },
    ];
    let tile = assemble(s, 128, &lines).unwrap();
    let rows = text_rows(&tile);
    assert_eq!(rows, vec![vec![' ', '+', '*'], vec!['#', '*', '+']]);
}

#[test]
fn duration_units_by_magnitude() {
    assert_eq!(duration_unit(0), DurationUnit::Nanoseconds);
    assert_eq!(duration_unit(1_000), DurationUnit::Nanoseconds);
    assert_eq!(duration_unit(1_001), DurationUnit::Microseconds);
    assert_eq!(duration_unit(1_000_000), DurationUnit::Microseconds);
    assert_eq!(duration_unit(1_000_001), DurationUnit::Milliseconds);
    assert_eq!(duration_unit(1_000_000_000), DurationUnit::Milliseconds);
    assert_eq!(duration_unit(1_000_000_001), DurationUnit::Seconds);
    assert_eq!(DurationUnit::Microseconds.nanoseconds_per_unit(), 1_000);
    assert_eq!(DurationUnit::Seconds.nanoseconds_per_unit(), 1_000_000_000);
}
