//! The range planner: from a manifest, a logical byte range and a chunk size
//! to the byte ranges that have to be fetched from each remote object.

use crate::manifest::{all_addressable, manifest_view, FileInfo, FileInfoView};
use vstd::prelude::*;

verus! {

/// `a - b`, or zero where that would be negative.
pub open spec fn saturating_gap(a: int, b: int) -> int {
    if a > b {
        a - b
    } else {
        0
    }
}

/// The smaller of two integers.
pub open spec fn lesser(a: int, b: int) -> int {
    if a <= b {
        a
    } else {
        b
    }
}

/// The overlap test: both bounds of the range are given, and the file ends
/// before the first or starts after the second.
pub open spec fn outside_window(file: FileInfoView, range: (Option<usize>, Option<usize>)) -> bool {
    match range {
        (Some(s), Some(e)) => file.file_start_offset + file.size - 1 < s || file.file_start_offset
            > e,
        _ => false,
    }
}

/// First byte to read, counted from the start of the file.
pub open spec fn local_start(file: FileInfoView, range: (Option<usize>, Option<usize>)) -> int {
    match range.0 {
        Some(s) => saturating_gap(s as int, file.file_start_offset as int),
        None => 0,
    }
}

/// Last byte to read, counted from the start of the file. Below
/// `local_start` where nothing of the file is asked for.
pub open spec fn local_end(file: FileInfoView, range: (Option<usize>, Option<usize>)) -> int {
    match range.1 {
        Some(e) => lesser(file.size - 1, saturating_gap(e as int, file.file_start_offset as int)),
        None => file.size - 1,
    }
}

/// First byte to read, as an offset into the remote object.
pub open spec fn fetch_start(file: FileInfoView, range: (Option<usize>, Option<usize>)) -> int {
    file.data_start_offset + local_start(file, range)
}

/// Last byte to read, as an offset into the remote object.
pub open spec fn fetch_end(file: FileInfoView, range: (Option<usize>, Option<usize>)) -> int {
    file.data_start_offset + local_end(file, range)
}

/// Number of pieces of at most `chunk` bytes that `start..=end` is cut into.
pub open spec fn chunk_count(start: int, end: int, chunk: int) -> nat {
    if start <= end && chunk > 0 {
        ((end - start) / chunk + 1) as nat
    } else {
        0
    }
}

/// The `i`-th piece of `start..=end`: `chunk` bytes from `start + i * chunk`
/// on, cut off at `end`.
pub open spec fn chunk_span(start: int, end: int, chunk: int, i: int) -> (int, int) {
    (start + i * chunk, lesser(start + i * chunk + chunk - 1, end))
}

/// The pieces of `start..=end`, in increasing order.
pub open spec fn chunk_spans(start: int, end: int, chunk: int) -> Seq<(int, int)> {
    Seq::new(chunk_count(start, end, chunk), |i: int| chunk_span(start, end, chunk, i))
}

/// What one file contributes: `None` where the overlap test rejects it,
/// else the pieces of its clipped and translated span.
pub open spec fn file_spans(
    file: FileInfoView,
    range: (Option<usize>, Option<usize>),
    chunk: int,
) -> Option<Seq<(int, int)>> {
    if outside_window(file, range) {
        None
    } else {
        Some(chunk_spans(fetch_start(file, range), fetch_end(file, range), chunk))
    }
}

/// A list of inclusive `(start, end)` pairs as pairs of mathematical integers.
pub open spec fn span_values(ranges: Seq<(usize, usize)>) -> Seq<(int, int)> {
    ranges.map_values(|r: (usize, usize)| (r.0 as int, r.1 as int))
}

/// Cuts the inclusive span `start..=end` into consecutive pieces of
/// `range_size` bytes, the last one possibly shorter.
pub fn split_span(start: usize, end: usize, range_size: usize) -> (ranges: Vec<(usize, usize)>)
    requires
        range_size > 0,
    ensures
        span_values(ranges@) == chunk_spans(start as int, end as int, range_size as int),
{
    let mut ranges: Vec<(usize, usize)> = Vec::new();
    if start > end {
        assert(span_values(ranges@) =~= chunk_spans(start as int, end as int, range_size as int));
        return ranges;
    }
    let ghost count = chunk_count(start as int, end as int, range_size as int);
    let mut chunk_start: usize = start;
    assert(chunk_start == start + ranges.len() * range_size) by (nonlinear_arith)
        requires
            chunk_start == start,
            ranges.len() == 0,
    ;
    loop
        invariant_except_break
            range_size > 0,
            start <= chunk_start <= end,
            chunk_start == start + ranges.len() * range_size,
            ranges.len() < count,
            forall|i: int|
                0 <= i < ranges.len() ==> span_values(ranges@)[i] == chunk_span(
                    start as int,
                    end as int,
                    range_size as int,
                    i,
                ),
        invariant
            count == chunk_count(start as int, end as int, range_size as int),
        ensures
            ranges.len() == count,
            forall|i: int|
                0 <= i < ranges.len() ==> span_values(ranges@)[i] == chunk_span(
                    start as int,
                    end as int,
                    range_size as int,
                    i,
                ),
        decreases end - chunk_start,
    {
        let ghost done = ranges.len() as int;
        let ghost before = span_values(ranges@);
        if end - chunk_start < range_size {
            // What is left fits in one piece.
            proof {
                lemma_last_chunk(start as int, end as int, range_size as int, done);
            }
            ranges.push((chunk_start, end));
            assert forall|i: int| 0 <= i < ranges.len() implies span_values(ranges@)[i]
                == chunk_span(start as int, end as int, range_size as int, i) by {
                if i < done {
                    assert(span_values(ranges@)[i] == before[i]);
                }
            }
            break ;
        }
        let chunk_end: usize = chunk_start + (range_size - 1);
        proof {
            lemma_inner_chunk(start as int, end as int, range_size as int, done);
        }
        ranges.push((chunk_start, chunk_end));
        assert forall|i: int| 0 <= i < ranges.len() implies span_values(ranges@)[i] == chunk_span(
            start as int,
            end as int,
            range_size as int,
            i,
        ) by {
            if i < done {
                assert(span_values(ranges@)[i] == before[i]);
            }
        }
        chunk_start = chunk_end + 1;
    }
    assert(span_values(ranges@) =~= chunk_spans(start as int, end as int, range_size as int));
    ranges
}

/// Where fewer than `chunk` bytes lie beyond the start of piece `n`, piece
/// `n` is the last one and stops at `end`.
proof fn lemma_last_chunk(start: int, end: int, chunk: int, n: int)
    requires
        chunk > 0,
        n >= 0,
        start + n * chunk <= end,
        end - (start + n * chunk) < chunk,
    ensures
        chunk_count(start, end, chunk) == n + 1,
        chunk_span(start, end, chunk, n) == (start + n * chunk, end),
{
    vstd::arithmetic::div_mod::lemma_fundamental_div_mod_converse(
        end - start,
        chunk,
        n,
        end - start - n * chunk,
    );
}

/// Where at least `chunk` bytes lie beyond the start of piece `n`, piece `n`
/// is full and another piece follows it.
proof fn lemma_inner_chunk(start: int, end: int, chunk: int, n: int)
    requires
        chunk > 0,
        n >= 0,
        start + n * chunk <= end,
        end - (start + n * chunk) >= chunk,
    ensures
        chunk_count(start, end, chunk) > n + 1,
        chunk_span(start, end, chunk, n) == (start + n * chunk, start + n * chunk + chunk - 1),
        start + (n + 1) * chunk == start + n * chunk + chunk,
{
    assert((n + 1) * chunk == n * chunk + chunk) by (nonlinear_arith);
    vstd::arithmetic::div_mod::lemma_fundamental_div_mod(end - start, chunk);
    let q = (end - start) / chunk;
    let r = (end - start) % chunk;
    assert(0 <= r < chunk) by {
        vstd::arithmetic::div_mod::lemma_mod_bound(end - start, chunk);
    }
    assert(q >= n + 1) by (nonlinear_arith)
        requires
            chunk > 0,
            end - start == chunk * q + r,
            0 <= r < chunk,
            end - start >= n * chunk + chunk,
    ;
}

/// The byte ranges to fetch for one file, given a logical byte range over
/// the virtual concatenation and a chunk size.
///
/// `None` where both bounds of the range are given and the file lies
/// entirely before the first or after the second. Else the file's span is
/// clipped to the range, moved to offsets within the remote object, and cut
/// into pieces of `range_size` bytes; the list is empty where nothing of the
/// file is left after clipping.
pub fn compute_file_ranges(
    file_info: &FileInfo,
    byte_range: (Option<usize>, Option<usize>),
    range_size: usize,
) -> (result: Option<Vec<(usize, usize)>>)
    requires
        range_size > 0,
        file_info@.addressable(),
    ensures
        result is None <==> outside_window(file_info@, byte_range),
        result matches Some(ranges) ==> span_values(ranges@) == chunk_spans(
            fetch_start(file_info@, byte_range),
            fetch_end(file_info@, byte_range),
            range_size as int,
        ),
{
    let file_size = file_info.size;
    let file_start_offset = file_info.file_start_offset;

    if let Some(range_start) = byte_range.0 {
        if let Some(range_end) = byte_range.1 {
            // The file ends before the range starts. Written without the sum
            // of offset and size, which need not fit.
            let ends_before = range_start >= file_start_offset && range_start - file_start_offset
                >= file_size;
            if ends_before || file_start_offset > range_end {
                return None;
            }
        }
    }
    let ghost first = fetch_start(file_info@, byte_range);
    let ghost last = fetch_end(file_info@, byte_range);

    if file_size == 0 {
        let ranges: Vec<(usize, usize)> = Vec::new();
        assert(span_values(ranges@) =~= chunk_spans(first, last, range_size as int));
        return Some(ranges);
    }
    let mut start: usize = 0;
    let mut end: usize = file_size - 1;

    if let Some(range_start) = byte_range.0 {
        let from = range_start.saturating_sub(file_start_offset);
        if from > start {
            start = from;
        }
    }
    if let Some(range_end) = byte_range.1 {
        let to = range_end.saturating_sub(file_start_offset);
        if to < end {
            end = to;
        }
    }
    if start > end {
        let ranges: Vec<(usize, usize)> = Vec::new();
        assert(span_values(ranges@) =~= chunk_spans(first, last, range_size as int));
        return Some(ranges);
    }
    // Adjust for the data offset inside the object
    let start: usize = start + file_info.data_start_offset;
    let end: usize = end + file_info.data_start_offset;

    Some(split_span(start, end, range_size))
}

/// One ranged read: the inclusive byte span `start..=end` of one remote
/// object.
#[derive(Debug, PartialEq, Eq)]
pub struct FetchRange {
    /// Key of the remote object.
    pub key: String,
    /// Bucket of the remote object.
    pub bucket_name: String,
    /// Offset of the first byte to read.
    pub start: usize,
    /// Offset of the last byte to read.
    pub end: usize,
}

/// Mathematical value of a [`FetchRange`].
pub struct FetchRangeView {
    pub key: Seq<char>,
    pub bucket_name: Seq<char>,
    pub start: int,
    pub end: int,
}

impl View for FetchRange {
    type V = FetchRangeView;

    open spec fn view(&self) -> FetchRangeView {
        FetchRangeView {
            key: self.key@,
            bucket_name: self.bucket_name@,
            start: self.start as int,
            end: self.end as int,
        }
    }
}

impl Clone for FetchRange {
    fn clone(&self) -> (res: FetchRange)
        ensures
            res == *self,
    {
        FetchRange {
            key: self.key.clone(),
            bucket_name: self.bucket_name.clone(),
            start: self.start,
            end: self.end,
        }
    }
}

/// The values of a list of fetch ranges.
pub open spec fn ranges_view(ranges: Seq<FetchRange>) -> Seq<FetchRangeView> {
    ranges.map_values(|r: FetchRange| r@)
}

/// What is fetched for one file: the file, and its ranges in increasing
/// order.
#[derive(Debug, PartialEq, Eq)]
pub struct FilePlan {
    /// The file the ranges belong to.
    pub file: FileInfo,
    /// The ranges to fetch, never empty.
    pub ranges: Vec<FetchRange>,
}

/// Mathematical value of a [`FilePlan`].
pub struct FilePlanView {
    pub file: FileInfoView,
    pub ranges: Seq<FetchRangeView>,
}

impl View for FilePlan {
    type V = FilePlanView;

    open spec fn view(&self) -> FilePlanView {
        FilePlanView { file: self.file@, ranges: ranges_view(self.ranges@) }
    }
}

/// The values of a plan's entries.
pub open spec fn plan_view(plan: Seq<FilePlan>) -> Seq<FilePlanView> {
    plan.map_values(|e: FilePlan| e@)
}

/// The span `(start, end)` as a read of the object that holds `file`.
pub open spec fn range_of(file: FileInfoView, span: (int, int)) -> FetchRangeView {
    FetchRangeView { key: file.key, bucket_name: file.bucket_name, start: span.0, end: span.1 }
}

/// The reads that one file asks for: none where the overlap test rejects it
/// or nothing of it is left after clipping.
pub open spec fn planned_ranges(
    file: FileInfoView,
    range: (Option<usize>, Option<usize>),
    chunk: int,
) -> Seq<FetchRangeView> {
    match file_spans(file, range, chunk) {
        Some(spans) => spans.map_values(|s: (int, int)| range_of(file, s)),
        None => Seq::empty(),
    }
}

/// The fetch plan of a manifest: one entry for each file that asks for at
/// least one read, in manifest order.
pub open spec fn fetch_plan(
    files: Seq<FileInfoView>,
    range: (Option<usize>, Option<usize>),
    chunk: int,
) -> Seq<FilePlanView>
    decreases files.len(),
{
    if files.len() == 0 {
        Seq::empty()
    } else {
        let before = fetch_plan(files.drop_last(), range, chunk);
        let ranges = planned_ranges(files.last(), range, chunk);
        if ranges.len() == 0 {
            before
        } else {
            before.push(FilePlanView { file: files.last(), ranges })
        }
    }
}

/// Turns the spans computed for `file` into reads of its remote object.
fn fetch_ranges_for(file: &FileInfo, spans: &Vec<(usize, usize)>) -> (ranges: Vec<FetchRange>)
    ensures
        ranges_view(ranges@) == span_values(spans@).map_values(|s: (int, int)| range_of(file@, s)),
{
    let mut ranges: Vec<FetchRange> = Vec::new();
    let mut i: usize = 0;
    while i < spans.len()
        invariant
            i <= spans.len(),
            ranges.len() == i,
            forall|j: int|
                0 <= j < i ==> (#[trigger] ranges[j])@ == range_of(file@, span_values(spans@)[j]),
        decreases spans.len() - i,
    {
        let span = spans[i];
        ranges.push(
            FetchRange {
                key: file.key.clone(),
                bucket_name: file.bucket_name.clone(),
                start: span.0,
                end: span.1,
            },
        );
        i += 1;
    }
    assert(ranges_view(ranges@) =~= span_values(spans@).map_values(
        |s: (int, int)| range_of(file@, s),
    ));
    ranges
}

/// The fetch plan for a manifest, a logical byte range and a chunk size.
///
/// Each file that lies at least partly inside the range has one entry, in
/// manifest order; the entry holds the file and the reads that cover its
/// clipped span, each of at most `range_size` bytes, in increasing order.
/// Files outside the range, empty files and files of which nothing is left
/// after clipping have no entry.
pub fn plan(
    files: &Vec<FileInfo>,
    byte_range: (Option<usize>, Option<usize>),
    range_size: usize,
) -> (result: Vec<FilePlan>)
    requires
        range_size > 0,
        all_addressable(manifest_view(files@)),
    ensures
        plan_view(result@) == fetch_plan(manifest_view(files@), byte_range, range_size as int),
{
    let mut result: Vec<FilePlan> = Vec::new();
    let mut i: usize = 0;
    let ghost all = manifest_view(files@);
    assert(all.take(0) =~= Seq::empty());
    assert(plan_view(result@) =~= Seq::empty());
    while i < files.len()
        invariant
            i <= files.len(),
            range_size > 0,
            all == manifest_view(files@),
            all_addressable(all),
            plan_view(result@) == fetch_plan(all.take(i as int), byte_range, range_size as int),
        decreases files.len() - i,
    {
        let file = &files[i];
        let ghost before = plan_view(result@);
        proof {
            assert(all[i as int] == file@);
            assert(all.take(i + 1).drop_last() =~= all.take(i as int));
            assert(all.take(i + 1).last() == file@);
        }
        match compute_file_ranges(file, byte_range, range_size) {
            Some(spans) => {
                assert(planned_ranges(file@, byte_range, range_size as int).len() == span_values(
                    spans@,
                ).len());
                if spans.len() > 0 {
                    let ranges = fetch_ranges_for(file, &spans);
                    let entry = FilePlan { file: file.clone(), ranges };
                    result.push(entry);
                    assert(plan_view(result@) =~= before.push(entry@));
                }
            },
            None => {},
        }
        i += 1;
    }
    assert(all.take(i as int) =~= all);
    result
}

/// All reads of a plan in the order in which they are made: file by file,
/// and within a file in increasing order.
pub open spec fn fetch_order(plan: Seq<FilePlanView>) -> Seq<FetchRangeView>
    decreases plan.len(),
{
    if plan.len() == 0 {
        Seq::empty()
    } else {
        fetch_order(plan.drop_last()) + plan.last().ranges
    }
}

/// Lays the reads of a plan out in the order in which they are made.
pub fn flatten(plan: Vec<FilePlan>) -> (order: Vec<FetchRange>)
    ensures
        ranges_view(order@) == fetch_order(plan_view(plan@)),
{
    let mut order: Vec<FetchRange> = Vec::new();
    let mut plan = plan;
    let ghost whole = plan_view(plan@);
    let ghost mut done: Seq<FilePlanView> = Seq::empty();
    // Entries are taken off the back, so the reads are gathered back to
    // front and turned round at the end.
    let mut stack: Vec<Vec<FetchRange>> = Vec::new();
    while plan.len() > 0
        invariant
            stack.len() + plan.len() == whole.len(),
            plan_view(plan@) == whole.take(plan.len() as int),
            forall|j: int|
                0 <= j < stack.len() ==> ranges_view(#[trigger] stack[j]@) == whole[whole.len() - 1
                    - j].ranges,
        decreases plan.len(),
    {
        let ghost before = plan_view(plan@);
        let entry = plan.pop().unwrap();
        assert(entry@ == before[before.len() - 1]);
        assert(plan_view(plan@) =~= whole.take(plan.len() as int));
        stack.push(entry.ranges);
    }
    assert(fetch_order(whole.take(0)) =~= Seq::empty());
    assert(ranges_view(order@) =~= Seq::empty());
    while stack.len() > 0
        invariant
            stack.len() <= whole.len(),
            forall|j: int|
                0 <= j < stack.len() ==> ranges_view(#[trigger] stack[j]@) == whole[whole.len() - 1
                    - j].ranges,
            ranges_view(order@) == fetch_order(whole.take(whole.len() - stack.len())),
        decreases stack.len(),
    {
        let ghost k = whole.len() - stack.len();
        let ghost before = ranges_view(order@);
        let mut ranges = stack.pop().unwrap();
        assert(ranges_view(ranges@) == whole[k].ranges);
        let ghost added = ranges_view(ranges@);
        order.append(&mut ranges);
        assert(ranges_view(order@) =~= before + added);
        assert(whole.take(k + 1).drop_last() =~= whole.take(k));
        assert(whole.take(k + 1).last() == whole[k]);
    }
    assert(whole.take(whole.len() as int) =~= whole);
    order
}

} // verus!
