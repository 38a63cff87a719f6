//! What a run of the assembler delivers: the laws that tie the sub-chunks
//! it yields to the reads it asks for and to the bytes that come back.

use crate::assembler::{ActionView, AssemblerView, Phase};
use crate::planner::FetchRangeView;
use crate::reader::{EventView, ReadPhase};
use vstd::prelude::*;

verus! {

/// Byte strings joined end to end.
pub open spec fn joined(parts: Seq<Seq<u8>>) -> Seq<u8>
    decreases parts.len(),
{
    if parts.len() == 0 {
        Seq::empty()
    } else {
        joined(parts.drop_last()) + parts.last()
    }
}

/// An assembler together with what has passed between it and its driver.
pub struct Run {
    /// The assembler as it stands.
    pub state: AssemblerView,
    /// The reads that the driver was asked to open, in order.
    pub fetches: Seq<FetchRangeView>,
    /// The sub-chunks that were yielded, in order.
    pub chunks: Seq<Seq<u8>>,
    /// For each response that was read to its end, the bytes of its frames.
    pub responses: Seq<Seq<u8>>,
    /// The bytes of the frames of the response that is being read.
    pub current: Seq<u8>,
}

impl Run {
    /// The run of an assembler to which nothing has been reported yet.
    pub open spec fn begin(start: AssemblerView) -> Run {
        Run {
            state: start,
            fetches: Seq::empty(),
            chunks: Seq::empty(),
            responses: Seq::empty(),
            current: Seq::empty(),
        }
    }

    /// The assembler waits for a frame of the open response.
    pub open spec fn awaits_frame(self) -> bool {
        self.state.phase == Phase::Fetching && self.state.reader.phase == ReadPhase::Reading
    }

    /// The run after one more event: the assembler takes its step, and the
    /// record grows by what the event brought and what the action asks for.
    pub open spec fn after(self, event: EventView) -> Run {
        let (state, action) = self.state.step(event);
        Run {
            state,
            fetches: match action {
                ActionView::Fetch(r) => self.fetches.push(r),
                _ => self.fetches,
            },
            chunks: match action {
                ActionView::Yield(c) => self.chunks.push(c),
                _ => self.chunks,
            },
            responses: if self.awaits_frame() && event is EndOfData {
                self.responses.push(self.current)
            } else {
                self.responses
            },
            current: if self.awaits_frame() {
                match event {
                    EventView::Frame(bytes) => self.current + bytes,
                    _ => Seq::empty(),
                }
            } else {
                self.current
            },
        }
    }

    /// Number of responses that were read to their end, as the state of the
    /// assembler tells it.
    pub open spec fn closed_responses(self) -> int {
        if self.state.phase == Phase::Fetching {
            self.state.opened - 1
        } else {
            self.state.opened as int
        }
    }

    /// What holds of every run that began with a fresh assembler for
    /// `order` and `sub_chunk_size`: the reads asked for are the first
    /// reads of the plan, every sub-chunk has between one byte and
    /// `sub_chunk_size`, and, until a read fails, the bytes yielded and
    /// still held are the bytes that the responses brought.
    pub open spec fn consistent(self, order: Seq<FetchRangeView>, sub_chunk_size: nat) -> bool {
        &&& self.state.wf()
        &&& self.state.order == order
        &&& self.state.reader.sub_chunk_size == sub_chunk_size
        &&& self.fetches == order.take(self.state.opened as int)
        &&& forall|i: int|
            0 <= i < self.chunks.len() ==> 1 <= (#[trigger] self.chunks[i]).len() <= sub_chunk_size
        &&& self.state.phase != Phase::Failed ==> {
            &&& self.responses.len() == self.closed_responses()
            &&& joined(self.chunks) + self.state.reader.pending == joined(self.responses)
                + self.current
            &&& self.state.phase != Phase::Fetching ==> self.current.len() == 0
            &&& self.state.phase == Phase::Finished ==> self.state.opened == order.len()
        }
    }
}

/// The run of the assembler `start` over a list of events.
pub open spec fn run(start: AssemblerView, events: Seq<EventView>) -> Run
    decreases events.len(),
{
    if events.len() == 0 {
        Run::begin(start)
    } else {
        run(start, events.drop_last()).after(events.last())
    }
}

/// The run of a fresh assembler for the reads `order` over a list of events.
pub open spec fn fresh_run(
    order: Seq<FetchRangeView>,
    sub_chunk_size: nat,
    events: Seq<EventView>,
) -> Run {
    run(AssemblerView::initial(order, sub_chunk_size), events)
}

/// Joining one more part appends it.
pub proof fn lemma_joined_push(parts: Seq<Seq<u8>>, part: Seq<u8>)
    ensures
        joined(parts.push(part)) == joined(parts) + part,
{
    assert(parts.push(part).drop_last() =~= parts);
}

/// One step keeps a run consistent.
pub proof fn lemma_step_keeps_consistent(
    r: Run,
    order: Seq<FetchRangeView>,
    sub_chunk_size: nat,
    event: EventView,
)
    requires
        r.consistent(order, sub_chunk_size),
    ensures
        r.after(event).consistent(order, sub_chunk_size),
{
    let next = r.after(event);
    let (state, action) = r.state.step(event);
    lemma_joined_push(r.chunks, r.state.reader.pending);
    lemma_joined_push(r.responses, r.current);
    match action {
        ActionView::Fetch(range) => {
            assert(order.take(r.state.opened as int).push(range) =~= order.take(
                (r.state.opened + 1) as int,
            ));
        },
        ActionView::Yield(chunk) => {
            lemma_joined_push(r.chunks, chunk);
            assert(next.chunks[next.chunks.len() - 1] == chunk);
            assert forall|i: int| 0 <= i < next.chunks.len() implies 1 <= (
            #[trigger] next.chunks[i]).len() <= sub_chunk_size by {
                if i < r.chunks.len() {
                    assert(next.chunks[i] == r.chunks[i]);
                }
            }
        },
        _ => {},
    }
    if next.state.phase != Phase::Failed {
        if r.state.phase == Phase::Fetching {
            let before = r.state.reader.pending;
            match event {
                EventView::Frame(bytes) => {
                    if r.awaits_frame() {
                        let all = before + bytes;
                        assert(joined(r.chunks) + (before + bytes) =~= (joined(r.chunks)
                            + before) + bytes);
                        assert(joined(r.responses) + (r.current + bytes) =~= (joined(r.responses)
                            + r.current) + bytes);
                        if all.len() >= sub_chunk_size {
                            assert(all.take(sub_chunk_size as int) + all.skip(
                                sub_chunk_size as int,
                            ) =~= all);
                            assert((joined(r.chunks) + all.take(sub_chunk_size as int)) + all.skip(
                                sub_chunk_size as int,
                            ) =~= joined(r.chunks) + all);
                        }
                    }
                },
                EventView::Proceed => {
                    if r.state.reader.phase == ReadPhase::Draining {
                        if before.len() >= sub_chunk_size {
                            assert(before.take(sub_chunk_size as int) + before.skip(
                                sub_chunk_size as int,
                            ) =~= before);
                            assert((joined(r.chunks) + before.take(sub_chunk_size as int))
                                + before.skip(sub_chunk_size as int) =~= joined(r.chunks)
                                + before);
                        }
                    }
                },
                EventView::EndOfData => {
                    if r.awaits_frame() {
                        assert(joined(next.chunks) + next.state.reader.pending =~= joined(
                            r.chunks,
                        ) + before);
                        assert(joined(next.responses) + next.current =~= joined(r.responses)
                            + r.current);
                    }
                },
                _ => {},
            }
        }
    }
}

/// Every run that begins with a fresh assembler is consistent.
pub proof fn lemma_run_consistent(
    order: Seq<FetchRangeView>,
    sub_chunk_size: nat,
    events: Seq<EventView>,
)
    requires
        sub_chunk_size >= 1,
    ensures
        fresh_run(order, sub_chunk_size, events).consistent(order, sub_chunk_size),
    decreases events.len(),
{
    let start = AssemblerView::initial(order, sub_chunk_size);
    if events.len() == 0 {
        assert(order.take(0) =~= Seq::empty());
        assert(joined(Seq::<Seq<u8>>::empty()) + start.reader.pending =~= joined(
            Seq::<Seq<u8>>::empty(),
        ) + Seq::<u8>::empty());
    } else {
        lemma_run_consistent(order, sub_chunk_size, events.drop_last());
        lemma_step_keeps_consistent(
            run(start, events.drop_last()),
            order,
            sub_chunk_size,
            events.last(),
        );
    }
}

/// A finished run has asked for every planned read, each once and in plan
/// order, has read every response to its end, and has yielded the bytes of
/// the responses, in the order in which they came and none of them twice,
/// in sub-chunks of one to `sub_chunk_size` bytes.
pub proof fn lemma_finished_run_is_complete(
    order: Seq<FetchRangeView>,
    sub_chunk_size: nat,
    events: Seq<EventView>,
)
    requires
        sub_chunk_size >= 1,
        fresh_run(order, sub_chunk_size, events).state.phase == Phase::Finished,
    ensures
        fresh_run(order, sub_chunk_size, events).fetches == order,
        fresh_run(order, sub_chunk_size, events).responses.len() == order.len(),
        joined(fresh_run(order, sub_chunk_size, events).chunks) == joined(
            fresh_run(order, sub_chunk_size, events).responses,
        ),
        forall|i: int|
            0 <= i < fresh_run(order, sub_chunk_size, events).chunks.len() ==> 1 <= (
            #[trigger] fresh_run(order, sub_chunk_size, events).chunks[i]).len()
                <= sub_chunk_size,
{
    let r = fresh_run(order, sub_chunk_size, events);
    lemma_run_consistent(order, sub_chunk_size, events);
    assert(order.take(order.len() as int) =~= order);
    assert(joined(r.chunks) =~= joined(r.chunks) + r.state.reader.pending);
    assert(joined(r.responses) =~= joined(r.responses) + r.current);
}

/// At every point of a run the reads asked for so far are the first reads
/// of the plan, in plan order.
pub proof fn lemma_reads_follow_plan(
    order: Seq<FetchRangeView>,
    sub_chunk_size: nat,
    events: Seq<EventView>,
)
    requires
        sub_chunk_size >= 1,
    ensures
        fresh_run(order, sub_chunk_size, events).state.opened <= order.len(),
        fresh_run(order, sub_chunk_size, events).fetches == order.take(
            fresh_run(order, sub_chunk_size, events).state.opened as int,
        ),
{
    lemma_run_consistent(order, sub_chunk_size, events);
}

/// A transport failure makes every assembler abort that has not finished.
pub proof fn lemma_failure_aborts(state: AssemblerView)
    requires
        state.wf(),
        state.phase != Phase::Finished,
    ensures
        state.step(EventView::TransportFailure).0.phase == Phase::Failed,
        state.step(EventView::TransportFailure).1 == ActionView::Abort,
{
}

/// After a failure nothing more happens: whatever is reported, the
/// assembler stays as it is and answers `Abort`, no read is asked for and
/// no sub-chunk is yielded.
pub proof fn lemma_failed_run_is_over(r: Run, event: EventView)
    requires
        r.state.phase == Phase::Failed,
    ensures
        r.after(event).state == r.state,
        r.state.step(event).1 == ActionView::Abort,
        r.after(event).fetches == r.fetches,
        r.after(event).chunks == r.chunks,
{
}

} // verus!
