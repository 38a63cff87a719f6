//! What a fetch plan covers: the laws that tie the planner's output to the
//! requested window of the virtual concatenation.

use crate::manifest::{contiguous, FileInfoView};
use crate::planner::{
    chunk_count, chunk_span, fetch_end, fetch_plan, fetch_start, file_spans, local_end,
    local_start, outside_window, planned_ranges, range_of, FetchRangeView, FilePlanView,
};
use vstd::prelude::*;

verus! {

/// The logical position `p` lies within the requested range.
pub open spec fn in_window(range: (Option<usize>, Option<usize>), p: int) -> bool {
    &&& range.0 matches Some(s) ==> s <= p
    &&& range.1 matches Some(e) ==> p <= e
}

/// The read `r` of the object that holds `file` brings the byte at logical
/// position `p`.
pub open spec fn reads_position(file: FileInfoView, r: FetchRangeView, p: int) -> bool {
    r.start <= p - file.file_start_offset + file.data_start_offset <= r.end
}

/// One of the reads `ranges` of the object that holds `file` brings the
/// byte at logical position `p`.
pub open spec fn covers(file: FileInfoView, ranges: Seq<FetchRangeView>, p: int) -> bool {
    exists|i: int| 0 <= i < ranges.len() && reads_position(file, #[trigger] ranges[i], p)
}

/// Some entry of the plan brings the byte at logical position `p`.
pub open spec fn plan_covers(plan: Seq<FilePlanView>, p: int) -> bool {
    exists|k: int| 0 <= k < plan.len() && covers((#[trigger] plan[k]).file, plan[k].ranges, p)
}

/// Some file of the manifest holds the logical position `p`.
pub open spec fn manifest_holds(files: Seq<FileInfoView>, p: int) -> bool {
    exists|i: int| 0 <= i < files.len() && (#[trigger] files[i]).holds(p)
}

/// The range has an upper bound only and the file, which is not empty,
/// starts beyond it. The clamped subtraction then yields local offset zero,
/// and the file's first byte is planned although it lies outside the range.
pub open spec fn clamped_into(file: FileInfoView, range: (Option<usize>, Option<usize>)) -> bool {
    &&& range.0 is None
    &&& range.1 matches Some(e)
    &&& file.size > 0
    &&& file.file_start_offset > e
}

/// The pieces of a span are in order: each one is non-empty and ends before
/// the next one starts.
pub proof fn lemma_chunks_increase(start: int, end: int, chunk: int, i: int, j: int)
    requires
        chunk > 0,
        0 <= i < j < chunk_count(start, end, chunk),
    ensures
        chunk_span(start, end, chunk, i).0 <= chunk_span(start, end, chunk, i).1,
        chunk_span(start, end, chunk, i).1 < chunk_span(start, end, chunk, j).0,
        chunk_span(start, end, chunk, j).0 <= chunk_span(start, end, chunk, j).1,
{
    lemma_chunk_within(start, end, chunk, i);
    lemma_chunk_within(start, end, chunk, j);
    assert(j * chunk >= i * chunk + chunk) by (nonlinear_arith)
        requires
            chunk > 0,
            j >= i + 1,
    ;
}

/// Each piece of a span is non-empty and lies within the span.
pub proof fn lemma_chunk_within(start: int, end: int, chunk: int, i: int)
    requires
        chunk > 0,
        0 <= i < chunk_count(start, end, chunk),
    ensures
        start <= chunk_span(start, end, chunk, i).0 <= chunk_span(start, end, chunk, i).1 <= end,
{
    let q = (end - start) / chunk;
    vstd::arithmetic::div_mod::lemma_fundamental_div_mod(end - start, chunk);
    vstd::arithmetic::div_mod::lemma_mod_bound(end - start, chunk);
    assert(i * chunk <= q * chunk) by (nonlinear_arith)
        requires
            chunk > 0,
            0 <= i <= q,
    ;
    assert(chunk * q == q * chunk) by (nonlinear_arith);
    assert(0 <= i * chunk) by (nonlinear_arith)
        requires
            chunk > 0,
            0 <= i,
    ;
}

/// The pieces of a span cover the span: an offset lies in one of them if
/// and only if it lies in the span.
pub proof fn lemma_chunks_tile(start: int, end: int, chunk: int, x: int)
    requires
        chunk > 0,
    ensures
        (exists|i: int|
            0 <= i < chunk_count(start, end, chunk) && (#[trigger] chunk_span(
                start,
                end,
                chunk,
                i,
            )).0 <= x <= chunk_span(start, end, chunk, i).1) <==> start <= x <= end,
{
    if start <= x <= end {
        let i = (x - start) / chunk;
        let q = (end - start) / chunk;
        vstd::arithmetic::div_mod::lemma_fundamental_div_mod(x - start, chunk);
        vstd::arithmetic::div_mod::lemma_mod_bound(x - start, chunk);
        vstd::arithmetic::div_mod::lemma_div_is_ordered(x - start, end - start, chunk);
        vstd::arithmetic::div_mod::lemma_div_pos_is_pos(x - start, chunk);
        assert(chunk * i == i * chunk) by (nonlinear_arith);
        assert(0 <= i <= q);
        assert(chunk_span(start, end, chunk, i).0 <= x <= chunk_span(start, end, chunk, i).1);
    }
    if exists|i: int|
        0 <= i < chunk_count(start, end, chunk) && (#[trigger] chunk_span(start, end, chunk, i)).0
            <= x <= chunk_span(start, end, chunk, i).1 {
        let i = choose|i: int|
            0 <= i < chunk_count(start, end, chunk) && (#[trigger] chunk_span(
                start,
                end,
                chunk,
                i,
            )).0 <= x <= chunk_span(start, end, chunk, i).1;
        lemma_chunk_within(start, end, chunk, i);
    }
}

/// A file that ends before the range starts, or starts after the range
/// ends, asks for no read.
///
/// Left out is the case of [`clamped_into`]: a range with an upper bound
/// only and a non-empty file beyond it. There the first byte of the file is
/// planned.
pub proof fn lemma_file_outside_range_is_skipped(
    file: FileInfoView,
    range: (Option<usize>, Option<usize>),
    chunk: int,
)
    requires
        chunk > 0,
        (range.0 matches Some(s) && file.file_start_offset + file.size - 1 < s) || (
        range.1 matches Some(e) && file.file_start_offset > e),
        !clamped_into(file, range),
    ensures
        planned_ranges(file, range, chunk).len() == 0,
{
    if !outside_window(file, range) {
        assert(local_end(file, range) < local_start(file, range));
    }
}

/// A chunk size of at least the length of a file's clipped span gives that
/// file exactly one read, which spans the whole clipped span.
pub proof fn lemma_large_chunk_gives_one_range(
    file: FileInfoView,
    range: (Option<usize>, Option<usize>),
    chunk: int,
)
    requires
        !outside_window(file, range),
        local_start(file, range) <= local_end(file, range),
        chunk >= local_end(file, range) - local_start(file, range) + 1,
    ensures
        planned_ranges(file, range, chunk) == seq![
            range_of(file, (fetch_start(file, range), fetch_end(file, range))),
        ],
{
    let first = fetch_start(file, range);
    let last = fetch_end(file, range);
    vstd::arithmetic::div_mod::lemma_basic_div(last - first, chunk);
    assert(chunk_count(first, last, chunk) == 1);
    assert(chunk_span(first, last, chunk, 0) == (first, last)) by {
        assert(0 * chunk == 0) by (nonlinear_arith);
    }
    assert(planned_ranges(file, range, chunk) =~= seq![range_of(file, (first, last))]);
}

/// The reads planned for a file are in order and do not overlap: each one
/// is non-empty and ends before the next one starts.
pub proof fn lemma_file_ranges_increase(
    file: FileInfoView,
    range: (Option<usize>, Option<usize>),
    chunk: int,
    i: int,
    j: int,
)
    requires
        chunk > 0,
        0 <= i < j < planned_ranges(file, range, chunk).len(),
    ensures
        planned_ranges(file, range, chunk)[i].start <= planned_ranges(file, range, chunk)[i].end,
        planned_ranges(file, range, chunk)[i].end < planned_ranges(file, range, chunk)[j].start,
        planned_ranges(file, range, chunk)[j].start <= planned_ranges(file, range, chunk)[j].end,
{
    lemma_chunks_increase(fetch_start(file, range), fetch_end(file, range), chunk, i, j);
}

/// Every byte that the reads planned for a file bring belongs to the file.
pub proof fn lemma_file_ranges_stay_in_file(
    file: FileInfoView,
    range: (Option<usize>, Option<usize>),
    chunk: int,
    p: int,
)
    requires
        chunk > 0,
        covers(file, planned_ranges(file, range, chunk), p),
    ensures
        file.holds(p),
{
    let ranges = planned_ranges(file, range, chunk);
    let i = choose|i: int| 0 <= i < ranges.len() && reads_position(file, #[trigger] ranges[i], p);
    lemma_chunk_within(fetch_start(file, range), fetch_end(file, range), chunk, i);
}

/// The reads planned for a file bring exactly the bytes of the file that
/// lie within the requested range.
///
/// Left out is the case of [`clamped_into`], where the first byte of a file
/// beyond the range is planned.
pub proof fn lemma_file_ranges_cover_window(
    file: FileInfoView,
    range: (Option<usize>, Option<usize>),
    chunk: int,
    p: int,
)
    requires
        chunk > 0,
        !clamped_into(file, range),
    ensures
        covers(file, planned_ranges(file, range, chunk), p) <==> file.holds(p) && in_window(
            range,
            p,
        ),
{
    let ranges = planned_ranges(file, range, chunk);
    let first = fetch_start(file, range);
    let last = fetch_end(file, range);
    let x = p - file.file_start_offset + file.data_start_offset;
    if file_spans(file, range, chunk) is Some {
        lemma_chunks_tile(first, last, chunk, x);
        if covers(file, ranges, p) {
            let i = choose|i: int|
                0 <= i < ranges.len() && reads_position(file, #[trigger] ranges[i], p);
            assert(chunk_span(first, last, chunk, i).0 <= x <= chunk_span(first, last, chunk, i).1);
            assert(first <= x <= last);
        }
        if file.holds(p) && in_window(range, p) {
            assert(first <= x <= last);
            let i = choose|i: int|
                0 <= i < chunk_count(first, last, chunk) && (#[trigger] chunk_span(
                    first,
                    last,
                    chunk,
                    i,
                )).0 <= x <= chunk_span(first, last, chunk, i).1;
            assert(reads_position(file, ranges[i], p));
        }
    }
}

/// In a contiguous manifest an earlier file ends where a later one starts,
/// or before.
pub proof fn lemma_contiguous_files_in_order(files: Seq<FileInfoView>, i: int, j: int)
    requires
        contiguous(files),
        0 <= i < j < files.len(),
    ensures
        files[i].file_start_offset + files[i].size <= files[j].file_start_offset,
    decreases j - i,
{
    if i + 1 < j {
        lemma_contiguous_files_in_order(files, i, j - 1);
        assert(files[(j - 1) + 1].file_start_offset == files[j - 1].file_start_offset + files[j
            - 1].size);
    } else {
        assert(files[i + 1].file_start_offset == files[i].file_start_offset + files[i].size);
    }
}

/// Every entry of a plan stands for a file of the manifest and holds the
/// reads planned for that file, of which there is at least one.
pub proof fn lemma_plan_entry_source(
    files: Seq<FileInfoView>,
    range: (Option<usize>, Option<usize>),
    chunk: int,
    k: int,
) -> (i: int)
    requires
        0 <= k < fetch_plan(files, range, chunk).len(),
    ensures
        0 <= i < files.len(),
        fetch_plan(files, range, chunk)[k].file == files[i],
        fetch_plan(files, range, chunk)[k].ranges == planned_ranges(files[i], range, chunk),
        planned_ranges(files[i], range, chunk).len() > 0,
        fetch_plan(files.take(i), range, chunk).len() == k,
    decreases files.len(),
{
    let before = fetch_plan(files.drop_last(), range, chunk);
    assert(files.drop_last() =~= files.take(files.len() - 1));
    if k < before.len() {
        let i = lemma_plan_entry_source(files.drop_last(), range, chunk, k);
        assert(files.drop_last().take(i) =~= files.take(i));
        i
    } else {
        files.len() - 1
    }
}

/// Every file that asks for a read has an entry in the plan.
pub proof fn lemma_plan_holds_file(
    files: Seq<FileInfoView>,
    range: (Option<usize>, Option<usize>),
    chunk: int,
    i: int,
) -> (k: int)
    requires
        0 <= i < files.len(),
        planned_ranges(files[i], range, chunk).len() > 0,
    ensures
        0 <= k < fetch_plan(files, range, chunk).len(),
        fetch_plan(files, range, chunk)[k].file == files[i],
        fetch_plan(files, range, chunk)[k].ranges == planned_ranges(files[i], range, chunk),
    decreases files.len(),
{
    let before = fetch_plan(files.drop_last(), range, chunk);
    if i < files.len() - 1 {
        lemma_plan_holds_file(files.drop_last(), range, chunk, i)
    } else {
        before.len() as int
    }
}

/// The plan brings exactly the bytes of the manifest that lie within the
/// requested range.
///
/// Left out are manifests with a file in the case of [`clamped_into`].
pub proof fn lemma_plan_covers_window(
    files: Seq<FileInfoView>,
    range: (Option<usize>, Option<usize>),
    chunk: int,
    p: int,
)
    requires
        chunk > 0,
        forall|i: int| 0 <= i < files.len() ==> !clamped_into(#[trigger] files[i], range),
    ensures
        plan_covers(fetch_plan(files, range, chunk), p) <==> manifest_holds(files, p) && in_window(
            range,
            p,
        ),
{
    let plan = fetch_plan(files, range, chunk);
    if plan_covers(plan, p) {
        let k = choose|k: int|
            0 <= k < plan.len() && covers((#[trigger] plan[k]).file, plan[k].ranges, p);
        let i = lemma_plan_entry_source(files, range, chunk, k);
        lemma_file_ranges_cover_window(files[i], range, chunk, p);
        assert(files[i].holds(p));
    }
    if manifest_holds(files, p) && in_window(range, p) {
        let i = choose|i: int| 0 <= i < files.len() && (#[trigger] files[i]).holds(p);
        lemma_file_ranges_cover_window(files[i], range, chunk, p);
        let k = lemma_plan_holds_file(files, range, chunk, i);
        assert(covers(plan[k].file, plan[k].ranges, p));
    }
}

/// The entries of a plan follow the manifest: in a contiguous manifest,
/// every byte that an earlier entry brings lies before every byte that a
/// later entry brings.
pub proof fn lemma_plan_entries_increase(
    files: Seq<FileInfoView>,
    range: (Option<usize>, Option<usize>),
    chunk: int,
    a: int,
    b: int,
    p: int,
    q: int,
)
    requires
        chunk > 0,
        contiguous(files),
        0 <= a < b < fetch_plan(files, range, chunk).len(),
        covers(
            fetch_plan(files, range, chunk)[a].file,
            fetch_plan(files, range, chunk)[a].ranges,
            p,
        ),
        covers(
            fetch_plan(files, range, chunk)[b].file,
            fetch_plan(files, range, chunk)[b].ranges,
            q,
        ),
    ensures
        p < q,
{
    let i = lemma_plan_entry_source(files, range, chunk, a);
    let j = lemma_plan_entry_source(files, range, chunk, b);
    lemma_file_ranges_stay_in_file(files[i], range, chunk, p);
    lemma_file_ranges_stay_in_file(files[j], range, chunk, q);
    if i >= j {
        lemma_plan_grows(files.take(i), range, chunk, j);
        assert(files.take(i).take(j) =~= files.take(j));
    }
    lemma_contiguous_files_in_order(files, i, j);
}

/// The plan of the first `n` files is no longer than the plan of them all.
pub proof fn lemma_plan_grows(
    files: Seq<FileInfoView>,
    range: (Option<usize>, Option<usize>),
    chunk: int,
    n: int,
)
    requires
        0 <= n <= files.len(),
    ensures
        fetch_plan(files.take(n), range, chunk).len() <= fetch_plan(files, range, chunk).len(),
    decreases files.len(),
{
    if n < files.len() {
        lemma_plan_grows(files.drop_last(), range, chunk, n);
        assert(files.drop_last().take(n) =~= files.take(n));
    } else {
        assert(files.take(n) =~= files);
    }
}

/// Planning is a function of its inputs: two plans made for the same
/// manifest, range and chunk size are the same plan.
pub proof fn lemma_plan_is_deterministic(
    files: Seq<FileInfoView>,
    range: (Option<usize>, Option<usize>),
    chunk: int,
    first: Seq<FilePlanView>,
    second: Seq<FilePlanView>,
)
    requires
        first == fetch_plan(files, range, chunk),
        second == fetch_plan(files, range, chunk),
    ensures
        first == second,
{
}

} // verus!
