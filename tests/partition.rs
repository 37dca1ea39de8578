use mandelbrot::partition::{chunk_bounds, partition, Chunk};

fn covered_once(total: usize, workers: usize) {
    let plan = partition(total, workers);
    assert_eq!(plan.len(), workers);
    let mut seen = vec![0u32; total];
    for c in &plan {
        assert!(c.beg <= c.end && c.end <= total);
        for i in c.beg..c.end {
            seen[i] += 1;
        }
    }
    assert!(seen.iter().all(|&s| s == 1));
}

#[test]
fn partition_single_worker_takes_everything() {
    assert_eq!(partition(16, 1), vec![Chunk { beg: 0, end: 16 }]);
}

#[test]
fn partition_last_chunk_takes_remainder() {
    assert_eq!(
        partition(10, 3),
        vec![Chunk { beg: 0, end: 3 }, Chunk { beg: 3, end: 6 }, Chunk { beg: 6, end: 10 }]
    );
    assert_eq!(chunk_bounds(10, 3, 2), Chunk { beg: 6, end: 10 });
}

#[test]
fn partition_more_workers_than_indices() {
    assert_eq!(
        partition(2, 4),
        vec![
            Chunk { beg: 0, end: 0 },
            Chunk { beg: 0, end: 0 },
            Chunk { beg: 0, end: 0 },
            Chunk { beg: 0, end: 2 }
        ]
    );
}

#[test]
fn partition_covers_every_index_once() {
    for total in [0usize, 1, 7, 16, 100, 1000] {
        for workers in 1..=9 {
            covered_once(total, workers);
        }
    }
}
