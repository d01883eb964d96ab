use mandelbrot::gather::{assemble, Line, Tile};
use mandelbrot::pipeline::{Completion, Pipeline, PipelineStatus};
use mandelbrot::viewport::TileSpecification;

fn spec(zoom_bits: u64) -> TileSpecification {
    TileSpecification::new(2, 1, 0, 0, zoom_bits).unwrap()
}

fn tile_for(s: TileSpecification) -> Tile {
    assemble(s, 128, &vec![Line { row: 0, counts: vec![3, 4] }]).unwrap()
}

#[test]
fn first_tick_requests_desired() {
    let mut p = Pipeline::new();
    assert_eq!(p.status(&spec(1)), PipelineStatus::Stale);
    assert_eq!(p.tick(spec(1), Completion::Pending), Some(spec(1)));
    assert_eq!(p.status(&spec(1)), PipelineStatus::Requesting);
    assert_eq!(p.in_flight(), Some(spec(1)));
    assert!(p.current_tile().is_none());
}

#[test]
fn matching_arrival_is_fresh() {
    let mut p = Pipeline::new();
    p.tick(spec(1), Completion::Pending);
    assert_eq!(p.tick(spec(1), Completion::Arrived(tile_for(spec(1)))), None);
    assert_eq!(p.status(&spec(1)), PipelineStatus::Fresh);
    assert_eq!(p.current_tile().unwrap().specification(), spec(1));
    assert_eq!(p.tick(spec(1), Completion::Pending), None);
}

#[test]
fn changes_while_requesting_are_coalesced() {
    let mut p = Pipeline::new();
    assert_eq!(p.tick(spec(0), Completion::Pending), Some(spec(0)));
    for z in 1..6 {
        assert_eq!(p.tick(spec(z), Completion::Pending), None);
    }
    assert_eq!(p.tick(spec(9), Completion::Arrived(tile_for(spec(0)))), None);
    assert_eq!(p.status(&spec(9)), PipelineStatus::Stale);
    assert_eq!(p.tick(spec(9), Completion::Pending), Some(spec(9)));
    assert_eq!(p.tick(spec(9), Completion::Pending), None);
    assert_eq!(p.current_tile().unwrap().specification(), spec(0));
}

#[test]
fn stale_tile_is_still_rendered() {
    let mut p = Pipeline::new();
    p.tick(spec(0), Completion::Pending);
    p.tick(spec(0), Completion::Arrived(tile_for(spec(0))));
    assert_eq!(p.tick(spec(4), Completion::Pending), Some(spec(4)));
    assert_eq!(p.current_tile().unwrap().counts(), &vec![3, 4]);
}

#[test]
fn disconnected_worker_is_reported() {
    let mut p = Pipeline::new();
    p.tick(spec(0), Completion::Pending);
    assert_eq!(p.tick(spec(0), Completion::Disconnected), None);
    assert_eq!(p.status(&spec(0)), PipelineStatus::WorkerUnavailable);
    assert_eq!(p.tick(spec(2), Completion::Pending), None);
    p.worker_restarted();
    assert_eq!(p.status(&spec(2)), PipelineStatus::Stale);
    assert_eq!(p.tick(spec(2), Completion::Pending), Some(spec(2)));
}
