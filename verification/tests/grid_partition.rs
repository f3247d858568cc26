use mandelbrot::config::GridSpec;
use mandelbrot::sample::Position;
use mandelbrot::grid::generate;
use mandelbrot::partition::{partition, PartitionError};

fn small_grid() -> GridSpec {
    // Real axis: span 4 stepped by 2 -> three columns at 2, 4, 6.
    // Imaginary axis: span 2 stepped by 2 -> two rows at 2, 4.
    GridSpec { re_min: 0, re_max: 4, im_min: 0, im_max: 2, delta: 2 }
}

#[test]
fn generate_small_grid_row_major() {
    let positions = generate(&small_grid());
    let expected = vec![
        Position { re: 2, im: 2 },
        Position { re: 2, im: 4 },
        Position { re: 4, im: 2 },
        Position { re: 4, im: 4 },
        Position { re: 6, im: 2 },
        Position { re: 6, im: 4 },
    ];
    assert_eq!(positions, expected);
}

#[test]
fn generate_counts_default_grid() {
    let g = GridSpec::default();
    assert_eq!(g.total_samples(), 13_687_401);
    assert!(g.validate());
}

#[test]
fn full_extent_axis_yields_two_samples() {
    // delta equal to the whole extent of one axis: that axis contributes
    // exactly two coordinates, one delta past each original endpoint.
    let g = GridSpec { re_min: 0, re_max: 10, im_min: 0, im_max: 10, delta: 10 };
    let positions = generate(&g);
    let expected = vec![
        Position { re: 10, im: 10 },
        Position { re: 10, im: 20 },
        Position { re: 20, im: 10 },
        Position { re: 20, im: 20 },
    ];
    assert_eq!(positions, expected);
}

#[test]
fn degenerate_axis_yields_one_sample() {
    // A zero-extent axis still contributes one coordinate.
    let g = GridSpec { re_min: 5, re_max: 5, im_min: 0, im_max: 2, delta: 1 };
    let positions = generate(&g);
    let expected = vec![
        Position { re: 6, im: 1 },
        Position { re: 6, im: 2 },
        Position { re: 6, im: 3 },
    ];
    assert_eq!(positions, expected);
}

#[test]
fn partition_even_split() {
    let positions = generate(&small_grid());
    let chunks = partition(&positions, 3).unwrap();
    assert_eq!(chunks.len(), 3);
    assert_eq!(chunks[0], positions[0..2].to_vec());
    assert_eq!(chunks[1], positions[2..4].to_vec());
    assert_eq!(chunks[2], positions[4..6].to_vec());
}

#[test]
fn partition_uneven_split_differs_by_at_most_one() {
    let g = GridSpec { re_min: 0, re_max: 6, im_min: 0, im_max: 0, delta: 1 };
    let positions = generate(&g);
    assert_eq!(positions.len(), 7);
    let chunks = partition(&positions, 3).unwrap();
    assert_eq!(chunks.len(), 3);
    let sizes: Vec<usize> = vec![chunks[0].len(), chunks[1].len(), chunks[2].len()];
    assert_eq!(sizes, vec![3, 2, 2]);
    let mut rebuilt: Vec<Position> = Vec::new();
    rebuilt.extend(chunks[0].clone());
    rebuilt.extend(chunks[1].clone());
    rebuilt.extend(chunks[2].clone());
    assert_eq!(rebuilt, positions);
}

#[test]
fn partition_single_chunk_is_whole_sequence() {
    let positions = generate(&small_grid());
    let chunks = partition(&positions, 1).unwrap();
    assert_eq!(chunks.len(), 1);
    assert_eq!(chunks[0], positions);
}

#[test]
fn partition_rejects_zero_workers() {
    let positions = generate(&small_grid());
    assert_eq!(partition(&positions, 0), Err(PartitionError::NoWorkers));
}

#[test]
fn partition_rejects_excess_workers() {
    let positions = generate(&small_grid());
    assert_eq!(partition(&positions, 7), Err(PartitionError::TooManyWorkers));
}
