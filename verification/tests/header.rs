use s3_streamer::header::range_header;
use s3_streamer::planner::FetchRange;

#[test]
fn header_of_small_offsets() {
    assert_eq!(range_header(0, 299), "bytes=0-299");
    assert_eq!(range_header(0, 0), "bytes=0-0");
    assert_eq!(range_header(9, 10), "bytes=9-10");
    assert_eq!(range_header(100, 499), "bytes=100-499");
}

#[test]
fn header_matches_std_formatting() {
    for (start, end) in [
        (1usize, 1usize),
        (10, 19),
        (99, 100),
        (1234567890, 9876543210),
        (usize::MAX - 1, usize::MAX),
        (0, usize::MAX),
    ] {
        assert_eq!(range_header(start, end), format!("bytes={}-{}", start, end));
    }
}

#[test]
fn header_of_a_fetch_range() {
    let r = FetchRange { key: "k".to_string(), bucket_name: "b".to_string(), start: 400, end: 499 };
    assert_eq!(r.header(), "bytes=400-499");
}
