use marlinflow_utils::count;
use marlinflow_utils::partition::{
    chunk_bounds, chunk_size, plan_scan, record_count, resolve_threads, resolve_workers,
    ConfigError,
};

#[test]
fn chunk_size_is_the_length_divided_by_the_workers_rounded_up() {
    assert_eq!(chunk_size(10, 3), 4);
    assert_eq!(chunk_size(9, 3), 3);
    assert_eq!(chunk_size(0, 3), 0);
    assert_eq!(chunk_size(1, 8), 1);
    assert_eq!(chunk_size(7, 1), 7);
    assert_eq!(chunk_size(usize::MAX, 1), usize::MAX);
    assert_eq!(chunk_size(usize::MAX, 2), usize::MAX / 2 + 1);
    assert_eq!(chunk_size(usize::MAX, usize::MAX), 1);
}

#[test]
fn chunk_bounds_of_ten_records_on_three_workers() {
    assert_eq!(chunk_bounds(10, 3, 0), (0, 4));
    assert_eq!(chunk_bounds(10, 3, 1), (4, 8));
    assert_eq!(chunk_bounds(10, 3, 2), (8, 10));
    assert_eq!(chunk_bounds(10, 3, 3), (10, 10));
    assert_eq!(chunk_bounds(10, 3, usize::MAX), (10, 10));
}

#[test]
fn trailing_chunks_may_be_short_or_empty() {
    // 5 records on 4 workers: chunks of 2, the last one empty
    assert_eq!(chunk_bounds(5, 4, 0), (0, 2));
    assert_eq!(chunk_bounds(5, 4, 1), (2, 4));
    assert_eq!(chunk_bounds(5, 4, 2), (4, 5));
    assert_eq!(chunk_bounds(5, 4, 3), (5, 5));
    // no records at all
    assert_eq!(chunk_bounds(0, 4, 0), (0, 0));
    assert_eq!(chunk_bounds(0, 4, 3), (0, 0));
}

#[test]
fn chunks_cover_every_record_exactly_once() {
    for len in 0..60usize {
        for workers in 1..70usize {
            let mut seen = vec![0u32; len];
            let mut expected_start = 0;
            for index in 0..workers {
                let (start, end) = chunk_bounds(len, workers, index);
                assert_eq!(start, expected_start);
                assert!(start <= end && end <= len);
                assert!(end - start <= chunk_size(len, workers));
                for slot in seen.iter_mut().take(end).skip(start) {
                    *slot += 1;
                }
                expected_start = end;
            }
            assert_eq!(expected_start, len);
            assert!(seen.iter().all(|&n| n == 1));
        }
    }
}

#[test]
fn chunk_bounds_do_not_overflow_on_huge_datasets() {
    let len = usize::MAX;
    let workers = 3;
    let size = chunk_size(len, workers);
    assert_eq!(chunk_bounds(len, workers, 0), (0, size));
    assert_eq!(chunk_bounds(len, workers, 1), (size, 2 * size));
    assert_eq!(chunk_bounds(len, workers, 2), (2 * size, len));
    assert_eq!(chunk_bounds(len, workers, 3), (len, len));
}

#[test]
fn workers_are_the_minimum_of_request_and_parallelism() {
    assert_eq!(resolve_workers(Some(4), 8), Ok(4));
    assert_eq!(resolve_workers(Some(16), 8), Ok(8));
    assert_eq!(resolve_workers(Some(8), 8), Ok(8));
    assert_eq!(resolve_workers(None, 8), Ok(8));
    assert_eq!(resolve_workers(Some(1), 1), Ok(1));
}

#[test]
fn no_workers_is_a_configuration_error() {
    assert_eq!(resolve_workers(Some(0), 8), Err(ConfigError::NoWorkers));
    assert_eq!(resolve_workers(None, 0), Err(ConfigError::NoWorkers));
    assert_eq!(resolve_workers(Some(3), 0), Err(ConfigError::NoWorkers));
    assert_eq!(resolve_threads(Some(0)), Err(ConfigError::NoWorkers));
}

#[test]
fn workers_on_this_machine() {
    let all = resolve_threads(None).unwrap();
    assert!(all >= 1);
    assert_eq!(resolve_threads(Some(1)), Ok(1));
    let some = resolve_threads(Some(usize::MAX)).unwrap();
    assert_eq!(some, all);
}

#[test]
fn record_count_is_the_quotient_of_an_exact_division() {
    assert_eq!(record_count(0, 32), Ok(0));
    assert_eq!(record_count(32, 32), Ok(1));
    assert_eq!(record_count(3200, 32), Ok(100));
    assert_eq!(record_count(u64::MAX - 31, 32), Ok(u64::MAX / 32));
    assert_eq!(record_count(7, 1), Ok(7));
}

#[test]
fn record_count_refuses_a_remainder() {
    for rest in 1..32u64 {
        assert_eq!(record_count(320 + rest, 32), Err(ConfigError::TruncatedDataset));
    }
    assert_eq!(record_count(u64::MAX, 32), Err(ConfigError::TruncatedDataset));
    assert_eq!(record_count(0, 0), Err(ConfigError::TruncatedDataset));
}

#[test]
fn count_of_positions() {
    assert_eq!(count::run(96, 32), Ok(3));
    assert_eq!(count::run(95, 32), Err(ConfigError::TruncatedDataset));
    let options = count::Options { dataset: String::from("x") };
    assert_eq!(options.dataset, "x");
}

#[test]
fn a_scan_is_planned_from_size_and_workers() {
    assert_eq!(plan_scan(320, 32, Some(4), 8), Ok((10, 4)));
    assert_eq!(plan_scan(320, 32, None, 8), Ok((10, 8)));
    assert_eq!(plan_scan(0, 32, Some(2), 1), Ok((0, 1)));
    assert_eq!(plan_scan(321, 32, Some(4), 8), Err(ConfigError::TruncatedDataset));
    assert_eq!(plan_scan(320, 0, Some(4), 8), Err(ConfigError::TruncatedDataset));
    assert_eq!(plan_scan(320, 32, Some(0), 8), Err(ConfigError::NoWorkers));
    assert_eq!(plan_scan(320, 32, None, 0), Err(ConfigError::NoWorkers));
    // a truncated dataset is reported first
    assert_eq!(plan_scan(321, 32, Some(0), 8), Err(ConfigError::TruncatedDataset));
}
