//! The requested window: the bytes of the virtual concatenation that a
//! logical range selects, and the proof that a finished run of the
//! assembler yields exactly them.

use crate::assembler::Phase;
use crate::coverage::clamped_into;
use crate::delivery::{fresh_run, joined, lemma_run_consistent, Run};
use crate::manifest::{contiguous, FileInfoView};
use crate::planner::{
    chunk_count, chunk_span, fetch_end, fetch_order, fetch_plan, fetch_start, file_spans,
    planned_ranges, FetchRangeView,
};
use crate::reader::EventView;
use vstd::prelude::*;

verus! {

/// The bytes of the object store that the read `r` asks for. `objects` maps
/// a bucket and a key to what the object holds.
pub open spec fn object_span(
    objects: Map<(Seq<char>, Seq<char>), Seq<u8>>,
    r: FetchRangeView,
) -> Seq<u8> {
    objects[(r.bucket_name, r.key)].subrange(r.start, r.end + 1)
}

/// What the object store answers to each of the reads `order`.
pub open spec fn answers(
    objects: Map<(Seq<char>, Seq<char>), Seq<u8>>,
    order: Seq<FetchRangeView>,
) -> Seq<Seq<u8>> {
    order.map_values(|r: FetchRangeView| object_span(objects, r))
}

/// The object store holds the whole of `file`.
pub open spec fn stored(objects: Map<(Seq<char>, Seq<char>), Seq<u8>>, file: FileInfoView) -> bool {
    &&& objects.dom().contains((file.bucket_name, file.key))
    &&& objects[(file.bucket_name, file.key)].len() >= file.data_start_offset + file.size
}

/// The bytes of `file` that lie within the requested range, in order.
pub open spec fn file_window(
    objects: Map<(Seq<char>, Seq<char>), Seq<u8>>,
    file: FileInfoView,
    range: (Option<usize>, Option<usize>),
) -> Seq<u8> {
    let first = match range.0 {
        Some(s) => if s > file.file_start_offset {
            s as int
        } else {
            file.file_start_offset as int
        },
        None => file.file_start_offset as int,
    };
    let last = match range.1 {
        Some(e) => if e < file.file_start_offset + file.size - 1 {
            e as int
        } else {
            file.file_start_offset + file.size - 1
        },
        None => file.file_start_offset + file.size - 1,
    };
    if first <= last {
        objects[(file.bucket_name, file.key)].subrange(
            first - file.file_start_offset + file.data_start_offset,
            last - file.file_start_offset + file.data_start_offset + 1,
        )
    } else {
        Seq::empty()
    }
}

/// The requested window: the bytes of the manifest's files that lie within
/// the requested range, file after file.
pub open spec fn requested_window(
    objects: Map<(Seq<char>, Seq<char>), Seq<u8>>,
    files: Seq<FileInfoView>,
    range: (Option<usize>, Option<usize>),
) -> Seq<u8>
    decreases files.len(),
{
    if files.len() == 0 {
        Seq::empty()
    } else {
        requested_window(objects, files.drop_last(), range) + file_window(
            objects,
            files.last(),
            range,
        )
    }
}

/// Joining two lists of parts one after the other joins what each of them
/// joins to.
pub proof fn lemma_joined_concat(a: Seq<Seq<u8>>, b: Seq<Seq<u8>>)
    ensures
        joined(a + b) == joined(a) + joined(b),
    decreases b.len(),
{
    if b.len() == 0 {
        assert(a + b =~= a);
        assert(joined(a) + joined(b) =~= joined(a));
    } else {
        lemma_joined_concat(a, b.drop_last());
        assert((a + b).drop_last() =~= a + b.drop_last());
        assert((a + b).last() == b.last());
        assert(joined(a + b) =~= joined(a) + joined(b));
    }
}

/// The parts of `obj` that the first `n` pieces of a span select, none of
/// them the last piece, join to the `n * chunk` bytes from `first` on.
proof fn lemma_full_pieces_join(
    parts: Seq<Seq<u8>>,
    obj: Seq<u8>,
    first: int,
    last: int,
    chunk: int,
    n: int,
)
    requires
        chunk > 0,
        0 <= first <= last < obj.len(),
        parts.len() == chunk_count(first, last, chunk),
        forall|i: int|
            0 <= i < parts.len() ==> #[trigger] parts[i] == obj.subrange(
                chunk_span(first, last, chunk, i).0,
                chunk_span(first, last, chunk, i).1 + 1,
            ),
        0 <= n < parts.len(),
    ensures
        first + n * chunk <= last,
        joined(parts.take(n)) == obj.subrange(first, first + n * chunk),
    decreases n,
{
    let q = (last - first) / chunk;
    vstd::arithmetic::div_mod::lemma_fundamental_div_mod(last - first, chunk);
    vstd::arithmetic::div_mod::lemma_mod_bound(last - first, chunk);
    assert(chunk * q == q * chunk) by (nonlinear_arith);
    assert(n * chunk <= q * chunk) by (nonlinear_arith)
        requires
            chunk > 0,
            0 <= n <= q,
    ;
    if n == 0 {
        assert(0 * chunk == 0) by (nonlinear_arith);
        assert(parts.take(0) =~= Seq::<Seq<u8>>::empty());
        assert(joined(parts.take(0)) =~= obj.subrange(first, first));
    } else {
        lemma_full_pieces_join(parts, obj, first, last, chunk, n - 1);
        assert((n - 1) * chunk + chunk == n * chunk) by (nonlinear_arith);
        assert(parts.take(n).drop_last() =~= parts.take(n - 1));
        assert(parts.take(n).last() == parts[n - 1]);
        assert(chunk_span(first, last, chunk, n - 1) == (
            first + (n - 1) * chunk,
            first + n * chunk - 1,
        ));
        assert(obj.subrange(first, first + (n - 1) * chunk) + obj.subrange(
            first + (n - 1) * chunk,
            first + n * chunk,
        ) =~= obj.subrange(first, first + n * chunk));
    }
}

/// The parts of `obj` that the pieces of a span select join to the part
/// that the span selects.
pub proof fn lemma_pieces_join(
    parts: Seq<Seq<u8>>,
    obj: Seq<u8>,
    first: int,
    last: int,
    chunk: int,
)
    requires
        chunk > 0,
        0 <= first <= last < obj.len(),
        parts.len() == chunk_count(first, last, chunk),
        forall|i: int|
            0 <= i < parts.len() ==> #[trigger] parts[i] == obj.subrange(
                chunk_span(first, last, chunk, i).0,
                chunk_span(first, last, chunk, i).1 + 1,
            ),
    ensures
        joined(parts) == obj.subrange(first, last + 1),
{
    let q = (last - first) / chunk;
    vstd::arithmetic::div_mod::lemma_fundamental_div_mod(last - first, chunk);
    vstd::arithmetic::div_mod::lemma_mod_bound(last - first, chunk);
    vstd::arithmetic::div_mod::lemma_div_pos_is_pos(last - first, chunk);
    assert(chunk * q == q * chunk) by (nonlinear_arith);
    lemma_full_pieces_join(parts, obj, first, last, chunk, q);
    assert(parts.drop_last() =~= parts.take(q));
    assert(parts.last() == parts[q]);
    assert(chunk_span(first, last, chunk, q) == (first + q * chunk, last));
    assert(obj.subrange(first, first + q * chunk) + obj.subrange(first + q * chunk, last + 1)
        =~= obj.subrange(first, last + 1));
}

/// What the store answers to the reads planned for a file joins to the
/// bytes of the file that lie within the requested range.
///
/// Left out is the case of [`clamped_into`], where the first byte of a file
/// beyond the range is read.
pub proof fn lemma_file_reads_window(
    objects: Map<(Seq<char>, Seq<char>), Seq<u8>>,
    file: FileInfoView,
    range: (Option<usize>, Option<usize>),
    chunk: int,
)
    requires
        chunk > 0,
        stored(objects, file),
        !clamped_into(file, range),
    ensures
        joined(answers(objects, planned_ranges(file, range, chunk))) == file_window(
            objects,
            file,
            range,
        ),
{
    let parts = answers(objects, planned_ranges(file, range, chunk));
    let first = fetch_start(file, range);
    let last = fetch_end(file, range);
    if file_spans(file, range, chunk) is Some && first <= last {
        lemma_pieces_join(parts, objects[(file.bucket_name, file.key)], first, last, chunk);
    } else {
        assert(parts =~= Seq::<Seq<u8>>::empty());
    }
}

/// The reads of a plan are those of the plan without the last file,
/// followed by those planned for the last file.
pub proof fn lemma_fetch_order_unfolds(
    files: Seq<FileInfoView>,
    range: (Option<usize>, Option<usize>),
    chunk: int,
)
    requires
        files.len() > 0,
    ensures
        fetch_order(fetch_plan(files, range, chunk)) == fetch_order(
            fetch_plan(files.drop_last(), range, chunk),
        ) + planned_ranges(files.last(), range, chunk),
{
    let before = fetch_plan(files.drop_last(), range, chunk);
    let ranges = planned_ranges(files.last(), range, chunk);
    if ranges.len() == 0 {
        assert(fetch_order(before) + ranges =~= fetch_order(before));
    } else {
        let plan = fetch_plan(files, range, chunk);
        assert(plan.drop_last() =~= before);
    }
}

/// What the store answers to the reads of a plan, joined in plan order, is
/// the requested window.
///
/// Left out are manifests with a file in the case of [`clamped_into`].
pub proof fn lemma_plan_reads_window(
    objects: Map<(Seq<char>, Seq<char>), Seq<u8>>,
    files: Seq<FileInfoView>,
    range: (Option<usize>, Option<usize>),
    chunk: int,
)
    requires
        chunk > 0,
        forall|i: int| 0 <= i < files.len() ==> stored(objects, #[trigger] files[i]),
        forall|i: int| 0 <= i < files.len() ==> !clamped_into(#[trigger] files[i], range),
    ensures
        joined(answers(objects, fetch_order(fetch_plan(files, range, chunk)))) == requested_window(
            objects,
            files,
            range,
        ),
    decreases files.len(),
{
    if files.len() == 0 {
        assert(answers(objects, fetch_order(fetch_plan(files, range, chunk))) =~= Seq::<
            Seq<u8>,
        >::empty());
    } else {
        let head = fetch_order(fetch_plan(files.drop_last(), range, chunk));
        let tail = planned_ranges(files.last(), range, chunk);
        lemma_plan_reads_window(objects, files.drop_last(), range, chunk);
        lemma_fetch_order_unfolds(files, range, chunk);
        lemma_file_reads_window(objects, files.last(), range, chunk);
        assert(answers(objects, head + tail) =~= answers(objects, head) + answers(objects, tail));
        lemma_joined_concat(answers(objects, head), answers(objects, tail));
    }
}

/// The run of a fresh assembler for a manifest, a logical byte range, a
/// chunk size and a sub-chunk size over a list of events.
pub open spec fn stream_run(
    files: Seq<FileInfoView>,
    range: (Option<usize>, Option<usize>),
    chunk: int,
    sub_chunk_size: nat,
    events: Seq<EventView>,
) -> Run {
    fresh_run(fetch_order(fetch_plan(files, range, chunk)), sub_chunk_size, events)
}

/// A run that has finished, and in which every response brought the bytes
/// that its read asked for, has yielded the requested window: the
/// sub-chunks, joined in the order in which they were yielded, are the
/// bytes of the manifest's files that lie within the requested range. This
/// holds for every chunk size and every sub-chunk size of at least one,
/// and however the responses were cut into frames.
///
/// Left out are manifests with a file in the case of [`clamped_into`].
pub proof fn lemma_finished_run_yields_window(
    objects: Map<(Seq<char>, Seq<char>), Seq<u8>>,
    files: Seq<FileInfoView>,
    range: (Option<usize>, Option<usize>),
    chunk: int,
    sub_chunk_size: nat,
    events: Seq<EventView>,
)
    requires
        chunk > 0,
        sub_chunk_size >= 1,
        forall|i: int| 0 <= i < files.len() ==> stored(objects, #[trigger] files[i]),
        forall|i: int| 0 <= i < files.len() ==> !clamped_into(#[trigger] files[i], range),
        stream_run(files, range, chunk, sub_chunk_size, events).state.phase == Phase::Finished,
        stream_run(files, range, chunk, sub_chunk_size, events).responses == answers(
            objects,
            fetch_order(fetch_plan(files, range, chunk)),
        ),
    ensures
        joined(stream_run(files, range, chunk, sub_chunk_size, events).chunks) == requested_window(
            objects,
            files,
            range,
        ),
{
    let order = fetch_order(fetch_plan(files, range, chunk));
    let r = fresh_run(order, sub_chunk_size, events);
    lemma_run_consistent(order, sub_chunk_size, events);
    lemma_plan_reads_window(objects, files, range, chunk);
    assert(joined(r.chunks) =~= joined(r.chunks) + r.state.reader.pending);
    assert(joined(r.responses) =~= joined(r.responses) + r.current);
}

/// The content of a file: the part of its object that holds it.
pub open spec fn file_content(
    objects: Map<(Seq<char>, Seq<char>), Seq<u8>>,
    file: FileInfoView,
) -> Seq<u8> {
    objects[(file.bucket_name, file.key)].subrange(
        file.data_start_offset as int,
        (file.data_start_offset + file.size) as int,
    )
}

/// The virtual concatenation: the contents of the manifest's files laid end
/// to end in manifest order.
pub open spec fn concatenation(
    objects: Map<(Seq<char>, Seq<char>), Seq<u8>>,
    files: Seq<FileInfoView>,
) -> Seq<u8>
    decreases files.len(),
{
    if files.len() == 0 {
        Seq::empty()
    } else {
        concatenation(objects, files.drop_last()) + file_content(objects, files.last())
    }
}

/// The part of `whole`, whose first byte has logical position `base`, that
/// lies within the requested range.
pub open spec fn slice_within(
    whole: Seq<u8>,
    base: int,
    range: (Option<usize>, Option<usize>),
) -> Seq<u8> {
    let first = match range.0 {
        Some(s) => if s > base {
            s as int
        } else {
            base
        },
        None => base,
    };
    let last = match range.1 {
        Some(e) => if e < base + whole.len() - 1 {
            e as int
        } else {
            base + whole.len() - 1
        },
        None => base + whole.len() - 1,
    };
    if first <= last {
        whole.subrange(first - base, last - base + 1)
    } else {
        Seq::empty()
    }
}

/// For a contiguous manifest the requested window is one slice of the
/// virtual concatenation: the bytes from the lower bound of the range, or
/// the start of the concatenation, to the upper bound, or its end.
pub proof fn lemma_window_is_slice_of_concatenation(
    objects: Map<(Seq<char>, Seq<char>), Seq<u8>>,
    files: Seq<FileInfoView>,
    range: (Option<usize>, Option<usize>),
)
    requires
        files.len() > 0,
        contiguous(files),
        forall|i: int| 0 <= i < files.len() ==> stored(objects, #[trigger] files[i]),
    ensures
        concatenation(objects, files).len() == files.last().file_start_offset + files.last().size
            - files[0].file_start_offset,
        requested_window(objects, files, range) == slice_within(
            concatenation(objects, files),
            files[0].file_start_offset as int,
            range,
        ),
    decreases files.len(),
{
    let base = files[0].file_start_offset as int;
    let init = files.drop_last();
    let last = files.last();
    let content = file_content(objects, last);
    let whole = concatenation(objects, files);
    assert(stored(objects, last));
    if files.len() == 1 {
        assert(concatenation(objects, init) =~= Seq::<u8>::empty());
        assert(requested_window(objects, init, range) =~= Seq::<u8>::empty());
        assert(whole =~= content);
        assert(requested_window(objects, files, range) =~= file_window(objects, last, range));
        assert(file_window(objects, last, range) =~= slice_within(content, base, range));
    } else {
        assert(contiguous(init)) by {
            assert forall|i: int| 0 <= i < init.len() - 1 implies (#[trigger] init[i
                + 1]).file_start_offset == init[i].file_start_offset + init[i].size by {
                assert(files[i + 1].file_start_offset == files[i].file_start_offset
                    + files[i].size);
            }
        }
        assert forall|i: int| 0 <= i < init.len() implies stored(objects, #[trigger] init[i]) by {
            assert(stored(objects, files[i]));
        }
        lemma_window_is_slice_of_concatenation(objects, init, range);
        let head = concatenation(objects, init);
        assert(init[0] == files[0]);
        assert(init.last() == files[files.len() - 2]);
        assert(files[(files.len() - 2) + 1].file_start_offset == files[files.len()
            - 2].file_start_offset + files[files.len() - 2].size);
        assert(head.len() == last.file_start_offset - base);
        assert(whole == head + content);
        assert(file_window(objects, last, range) =~= slice_within(
            content,
            last.file_start_offset as int,
            range,
        ));
        assert(slice_within(head, base, range) + slice_within(
            content,
            last.file_start_offset as int,
            range,
        ) =~= slice_within(head + content, base, range));
    }
}

} // verus!
