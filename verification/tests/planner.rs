use s3_streamer::manifest::{manifest_is_addressable, FileInfo};
use s3_streamer::planner::{compute_file_ranges, flatten, plan, split_span, FetchRange, FilePlan};

fn file(size: usize, file_start_offset: usize, data_start_offset: usize) -> FileInfo {
    FileInfo {
        size,
        key: format!("key-{}", file_start_offset),
        bucket_name: "bucket".to_string(),
        zip_filepath: None,
        file_start_offset,
        data_start_offset,
    }
}

fn spans(ranges: &[FetchRange]) -> Vec<(usize, usize)> {
    ranges.iter().map(|r| (r.start, r.end)).collect()
}

/// The logical positions that a plan brings, in the order in which it brings them.
fn positions(p: &[FilePlan]) -> Vec<usize> {
    let mut out = Vec::new();
    for entry in p {
        for r in &entry.ranges {
            for x in r.start..=r.end {
                out.push(x - entry.file.data_start_offset + entry.file.file_start_offset);
            }
        }
    }
    out
}

#[test]
fn whole_file_is_cut_into_chunks() {
    let f = file(1000, 0, 0);
    let ranges = compute_file_ranges(&f, (None, None), 300);
    assert_eq!(ranges, Some(vec![(0, 299), (300, 599), (600, 899), (900, 999)]));
    let p = plan(&vec![f], (None, None), 300);
    assert_eq!(p.len(), 1);
    assert_eq!(spans(&p[0].ranges), vec![(0, 299), (300, 599), (600, 899), (900, 999)]);
}

#[test]
fn range_across_two_files_is_clipped_in_each() {
    let files = vec![file(500, 0, 0), file(500, 500, 0)];
    let p = plan(&files, (Some(400), Some(600)), 1000);
    assert_eq!(p.len(), 2);
    assert_eq!(p[0].file, files[0]);
    assert_eq!(spans(&p[0].ranges), vec![(400, 499)]);
    assert_eq!(p[1].file, files[1]);
    assert_eq!(spans(&p[1].ranges), vec![(0, 100)]);
}

#[test]
fn data_offset_moves_both_bounds() {
    let files = vec![file(500, 0, 100), file(500, 500, 7)];
    let p = plan(&files, (Some(400), Some(600)), 1000);
    assert_eq!(spans(&p[0].ranges), vec![(500, 599)]);
    assert_eq!(spans(&p[1].ranges), vec![(7, 107)]);
}

#[test]
fn range_beyond_the_file_gives_an_empty_plan() {
    let f = file(100, 0, 0);
    assert_eq!(compute_file_ranges(&f, (Some(200), Some(300)), 10), None);
    let p = plan(&vec![f], (Some(200), Some(300)), 10);
    assert!(p.is_empty());
    assert!(flatten(p).is_empty());
}

#[test]
fn file_before_or_after_a_bounded_range_is_rejected() {
    let before = file(100, 0, 0);
    let after = file(100, 400, 0);
    let touching_start = file(100, 101, 0);
    let touching_end = file(100, 300, 0);
    let range = (Some(200), Some(300));
    assert_eq!(compute_file_ranges(&before, range, 50), None);
    assert_eq!(compute_file_ranges(&after, range, 50), None);
    assert_eq!(compute_file_ranges(&touching_start, range, 50), Some(vec![(99, 99)]));
    assert_eq!(compute_file_ranges(&touching_end, range, 50), Some(vec![(0, 0)]));
}

#[test]
fn lower_bound_alone_skips_files_before_it() {
    let files = vec![file(100, 0, 0), file(100, 100, 0), file(100, 200, 0)];
    // Without an upper bound the overlap test does not apply; the first
    // file is left with nothing after clipping.
    assert_eq!(compute_file_ranges(&files[0], (Some(150), None), 60), Some(vec![]));
    let p = plan(&files, (Some(150), None), 60);
    assert_eq!(p.len(), 2);
    assert_eq!(p[0].file, files[1]);
    assert_eq!(spans(&p[0].ranges), vec![(50, 99)]);
    assert_eq!(p[1].file, files[2]);
    assert_eq!(spans(&p[1].ranges), vec![(0, 59), (60, 99)]);
}

#[test]
fn upper_bound_alone_clamps_to_the_first_byte() {
    let files = vec![file(100, 0, 0), file(100, 100, 0)];
    let p = plan(&files, (None, Some(49)), 1000);
    assert_eq!(p.len(), 2);
    assert_eq!(spans(&p[0].ranges), vec![(0, 49)]);
    // The subtraction saturates at zero, so the file beyond the bound
    // still gives its first byte.
    assert_eq!(spans(&p[1].ranges), vec![(0, 0)]);
    assert_eq!(compute_file_ranges(&files[1], (None, Some(49)), 1000), Some(vec![(0, 0)]));
}

#[test]
fn empty_file_has_no_ranges() {
    let empty = file(0, 100, 5);
    assert_eq!(compute_file_ranges(&empty, (None, None), 10), Some(vec![]));
    assert_eq!(compute_file_ranges(&empty, (Some(0), None), 10), Some(vec![]));
    assert_eq!(compute_file_ranges(&empty, (None, Some(500)), 10), Some(vec![]));
    assert_eq!(compute_file_ranges(&empty, (Some(0), Some(50)), 10), None);
    let files = vec![file(10, 90, 0), empty, file(10, 100, 0)];
    let p = plan(&files, (None, None), 100);
    assert_eq!(p.len(), 2);
    assert_eq!(p[0].file, files[0]);
    assert_eq!(p[1].file, files[2]);
}

#[test]
fn empty_file_at_offset_zero() {
    let empty = file(0, 0, 0);
    assert_eq!(compute_file_ranges(&empty, (None, None), 1), Some(vec![]));
    assert_eq!(compute_file_ranges(&empty, (Some(0), Some(0)), 1), None);
    assert!(plan(&vec![empty], (Some(0), Some(0)), 1).is_empty());
}

#[test]
fn reversed_range_gives_nothing() {
    let f = file(20, 0, 0);
    assert_eq!(compute_file_ranges(&f, (Some(10), Some(5)), 4), Some(vec![]));
    assert!(plan(&vec![f], (Some(10), Some(5)), 4).is_empty());
}

#[test]
fn empty_manifest_gives_an_empty_plan() {
    let p = plan(&Vec::new(), (None, None), 16);
    assert!(p.is_empty());
}

#[test]
fn chunk_of_at_least_the_span_gives_one_range() {
    let f = file(100, 1000, 40);
    for chunk in [50usize, 51, 1000, usize::MAX] {
        let ranges = compute_file_ranges(&f, (Some(1010), Some(1059)), chunk);
        assert_eq!(ranges, Some(vec![(50, 99)]));
    }
    assert_eq!(
        compute_file_ranges(&f, (Some(1010), Some(1059)), 49),
        Some(vec![(50, 98), (99, 99)])
    );
}

#[test]
fn chunk_of_one_byte() {
    let f = file(3, 0, 10);
    assert_eq!(compute_file_ranges(&f, (None, None), 1), Some(vec![(10, 10), (11, 11), (12, 12)]));
}

#[test]
fn split_span_edges() {
    assert_eq!(split_span(7, 7, 4), vec![(7, 7)]);
    assert_eq!(split_span(8, 7, 4), Vec::<(usize, usize)>::new());
    assert_eq!(split_span(0, 7, 4), vec![(0, 3), (4, 7)]);
    assert_eq!(split_span(0, 8, 4), vec![(0, 3), (4, 7), (8, 8)]);
    assert_eq!(
        split_span(usize::MAX - 5, usize::MAX, 4),
        vec![(usize::MAX - 5, usize::MAX - 2), (usize::MAX - 1, usize::MAX)]
    );
    assert_eq!(split_span(0, usize::MAX, usize::MAX), vec![(0, usize::MAX - 1), (usize::MAX, usize::MAX)]);
}

#[test]
fn offsets_near_the_top_of_the_address_space() {
    let f = FileInfo {
        size: 10,
        key: "k".to_string(),
        bucket_name: "b".to_string(),
        zip_filepath: None,
        file_start_offset: usize::MAX - 3,
        data_start_offset: usize::MAX - 9,
    };
    assert!(f.is_addressable());
    assert_eq!(
        compute_file_ranges(&f, (None, None), 6),
        Some(vec![(usize::MAX - 9, usize::MAX - 4), (usize::MAX - 3, usize::MAX)])
    );
    assert_eq!(
        compute_file_ranges(&f, (Some(usize::MAX - 1), Some(usize::MAX)), 6),
        Some(vec![(usize::MAX - 7, usize::MAX - 6)])
    );
    assert_eq!(compute_file_ranges(&f, (Some(0), Some(usize::MAX - 4)), 6), None);
}

#[test]
fn addressable_files() {
    let mut f = file(10, 0, usize::MAX - 9);
    assert!(f.is_addressable());
    f.data_start_offset = usize::MAX - 8;
    assert!(!f.is_addressable());
    f.size = 0;
    f.data_start_offset = usize::MAX;
    assert!(f.is_addressable());
    assert!(manifest_is_addressable(&vec![file(1, 0, 0), file(5, 1, usize::MAX - 4)]));
    assert!(!manifest_is_addressable(&vec![file(1, 0, 0), file(5, 1, usize::MAX - 3)]));
    assert!(manifest_is_addressable(&Vec::new()));
}

#[test]
fn plan_covers_exactly_the_window() {
    let files = vec![file(7, 0, 3), file(0, 7, 0), file(5, 7, 100), file(9, 12, 1)];
    let total = 21usize;
    let bounds = [None, Some(0), Some(3), Some(6), Some(7), Some(11), Some(12), Some(20), Some(25)];
    for chunk in [1usize, 2, 3, 7, 100] {
        for start in bounds {
            for end in bounds {
                // An upper bound alone, below the start of a file, is the
                // one case in which more than the window is planned.
                if start.is_none() && matches!(end, Some(e) if e < 12) {
                    continue;
                }
                let expected: Vec<usize> = (0..total)
                    .filter(|p| start.map_or(true, |s| s <= *p) && end.map_or(true, |e| *p <= e))
                    .collect();
                let p = plan(&files, (start, end), chunk);
                assert_eq!(positions(&p), expected);
                for entry in &p {
                    assert!(!entry.ranges.is_empty());
                    for r in &entry.ranges {
                        assert!(r.start <= r.end);
                        assert!(r.end - r.start < chunk);
                        assert_eq!(r.key, entry.file.key);
                        assert_eq!(r.bucket_name, entry.file.bucket_name);
                    }
                }
            }
        }
    }
}

#[test]
fn planning_twice_gives_the_same_plan() {
    let files = vec![file(1000, 0, 17), file(1, 1000, 0), file(4000, 1001, 9)];
    let first = plan(&files, (Some(10), Some(3000)), 256);
    let second = plan(&files, (Some(10), Some(3000)), 256);
    assert_eq!(first, second);
    assert_eq!(first.len(), 3);
}

#[test]
fn flatten_keeps_plan_order() {
    let files = vec![file(5, 0, 0), file(5, 5, 50)];
    let order = flatten(plan(&files, (None, None), 2));
    assert_eq!(spans(&order), vec![(0, 1), (2, 3), (4, 4), (50, 51), (52, 53), (54, 54)]);
    assert_eq!(order[0].key, "key-0");
    assert_eq!(order[3].key, "key-5");
    assert_eq!(order[5].bucket_name, "bucket");
}

#[test]
fn clones_are_equal() {
    let mut f = file(5, 0, 0);
    f.zip_filepath = Some("inner/path.bin".to_string());
    assert_eq!(f.clone(), f);
    let r = FetchRange { key: "k".to_string(), bucket_name: "b".to_string(), start: 1, end: 2 };
    assert_eq!(r.clone(), r);
}
