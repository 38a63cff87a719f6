//! The multi-file stream assembler: plans once, then walks the plan read by
//! read and hands on every sub-chunk in plan order.
//!
//! Like the reader it does no I/O. Its driver opens the reads, pulls the
//! frames and passes the sub-chunks on; the assembler decides what comes
//! next.

use crate::chunk::bytes_contents;
use crate::manifest::{all_addressable, manifest_view, FileInfo};
use crate::planner::{
    fetch_order, fetch_plan, flatten, plan, plan_view, ranges_view, FetchRange, FetchRangeView,
    FilePlan,
};
use crate::reader::{
    Event, EventView, RangedObjectReader, ReadAction, ReadActionView, ReadPhase, ReaderView,
};
use bytes::Bytes;
use vstd::prelude::*;

verus! {

/// What an assembler asks its driver to do next.
#[derive(Debug)]
pub enum Action {
    /// Open this ranged read, read its first frame and report it.
    Fetch(FetchRange),
    /// Read the next frame of the open response and report it.
    Pull,
    /// Hand this sub-chunk to the consumer, then report `Proceed`.
    Yield(Bytes),
    /// Everything asked for has been yielded.
    Finish,
    /// A read failed; what was yielded so far is all there will be.
    Abort,
}

/// Mathematical value of an [`Action`].
pub enum ActionView {
    Fetch(FetchRangeView),
    Pull,
    Yield(Seq<u8>),
    Finish,
    Abort,
}

impl View for Action {
    type V = ActionView;

    open spec fn view(&self) -> ActionView {
        match *self {
            Action::Fetch(r) => ActionView::Fetch(r@),
            Action::Pull => ActionView::Pull,
            Action::Yield(b) => ActionView::Yield(bytes_contents(b)),
            Action::Finish => ActionView::Finish,
            Action::Abort => ActionView::Abort,
        }
    }
}

/// Where an assembler stands.
#[derive(Clone, Copy, Debug, PartialEq, Eq, Structural)]
pub enum Phase {
    /// No response is open.
    Idle,
    /// A response is open and its reader is at work.
    Fetching,
    /// Every planned read has been made and yielded in full.
    Finished,
    /// A read failed.
    Failed,
}

/// Mathematical value of a [`StreamAssembler`].
pub struct AssemblerView {
    /// The planned reads, in the order in which they are made.
    pub order: Seq<FetchRangeView>,
    /// Number of reads opened so far.
    pub opened: nat,
    /// Where the assembler stands.
    pub phase: Phase,
    /// The reader of the response that was opened last.
    pub reader: ReaderView,
}

impl AssemblerView {
    /// An assembler that has not begun.
    pub open spec fn initial(order: Seq<FetchRangeView>, sub_chunk_size: nat) -> AssemblerView {
        AssemblerView {
            order,
            opened: 0,
            phase: Phase::Idle,
            reader: ReaderView::fresh(sub_chunk_size),
        }
    }

    /// What holds of every assembler.
    pub open spec fn wf(self) -> bool {
        &&& self.reader.wf()
        &&& self.opened <= self.order.len()
        &&& self.phase == Phase::Fetching ==> {
            &&& self.opened >= 1
            &&& self.reader.phase == ReadPhase::Reading || self.reader.phase
                == ReadPhase::Draining
        }
        &&& self.phase != Phase::Fetching ==> self.reader.pending.len() == 0
    }

    /// Opens the next planned read with a fresh reader, or finishes where
    /// none is left.
    pub open spec fn advance(self) -> (AssemblerView, ActionView) {
        if self.opened < self.order.len() {
            (
                AssemblerView {
                    opened: self.opened + 1,
                    phase: Phase::Fetching,
                    reader: ReaderView::fresh(self.reader.sub_chunk_size),
                    ..self
                },
                ActionView::Fetch(self.order[self.opened as int]),
            )
        } else {
            (AssemblerView { phase: Phase::Finished, ..self }, ActionView::Finish)
        }
    }

    /// The transition function of the assembler: the state after `event`,
    /// and the action that answers it.
    ///
    /// A finished or failed assembler stays as it is. While no response is
    /// open, `Proceed` opens the next planned read and any other event is a
    /// failure. While a response is open the event goes to its reader; what
    /// the reader asks for is passed on, its end opens the next planned
    /// read, and its failure ends the run. The response counts as closed
    /// as soon as its reader is done, also where a last sub-chunk is still
    /// on its way to the consumer.
    pub open spec fn step(self, event: EventView) -> (AssemblerView, ActionView) {
        match self.phase {
            Phase::Finished => (self, ActionView::Finish),
            Phase::Failed => (self, ActionView::Abort),
            Phase::Idle => match event {
                EventView::Proceed => self.advance(),
                _ => (AssemblerView { phase: Phase::Failed, ..self }, ActionView::Abort),
            },
            Phase::Fetching => {
                let (reader, action) = self.reader.step(event);
                let next = AssemblerView { reader, ..self };
                match action {
                    ReadActionView::Pull => (next, ActionView::Pull),
                    ReadActionView::Yield(chunk) => (
                        if reader.phase == ReadPhase::Done {
                            AssemblerView { phase: Phase::Idle, ..next }
                        } else {
                            next
                        },
                        ActionView::Yield(chunk),
                    ),
                    ReadActionView::End => next.advance(),
                    ReadActionView::Fail => (
                        AssemblerView { phase: Phase::Failed, ..next },
                        ActionView::Abort,
                    ),
                }
            },
        }
    }
}

impl AssemblerView {
    /// A step leaves a well-formed assembler well-formed.
    pub proof fn lemma_step_keeps_wf(self, event: EventView)
        requires
            self.wf(),
        ensures
            self.step(event).0.wf(),
    {
    }
}

/// Walks a fetch plan and turns the responses of its reads into one ordered
/// sequence of sub-chunks.
pub struct StreamAssembler {
    order: Vec<FetchRange>,
    opened: usize,
    phase: Phase,
    reader: RangedObjectReader,
}

impl View for StreamAssembler {
    type V = AssemblerView;

    closed spec fn view(&self) -> AssemblerView {
        AssemblerView {
            order: ranges_view(self.order@),
            opened: self.opened as nat,
            phase: self.phase,
            reader: self.reader@,
        }
    }
}

impl StreamAssembler {
    /// The invariant of the representation.
    pub closed spec fn wf(&self) -> bool {
        &&& self.reader.wf()
        &&& self@.wf()
    }

    /// An assembler for a manifest, a logical byte range, a chunk size for
    /// the reads and a sub-chunk size for what is yielded. The plan is made
    /// here, once.
    pub fn new(
        files: &Vec<FileInfo>,
        byte_range: (Option<usize>, Option<usize>),
        range_size: usize,
        sub_chunk_size: usize,
    ) -> (assembler: StreamAssembler)
        requires
            range_size > 0,
            sub_chunk_size >= 1,
            all_addressable(manifest_view(files@)),
        ensures
            assembler.wf(),
            assembler@ == AssemblerView::initial(
                fetch_order(fetch_plan(manifest_view(files@), byte_range, range_size as int)),
                sub_chunk_size as nat,
            ),
    {
        StreamAssembler::from_plan(plan(files, byte_range, range_size), sub_chunk_size)
    }

    /// An assembler for a plan made before.
    pub fn from_plan(plan: Vec<FilePlan>, sub_chunk_size: usize) -> (assembler: StreamAssembler)
        requires
            sub_chunk_size >= 1,
        ensures
            assembler.wf(),
            assembler@ == AssemblerView::initial(
                fetch_order(plan_view(plan@)),
                sub_chunk_size as nat,
            ),
    {
        let order = flatten(plan);
        let reader = RangedObjectReader::new(sub_chunk_size);
        StreamAssembler { order, opened: 0, phase: Phase::Idle, reader }
    }

    /// Where the assembler stands.
    pub fn phase(&self) -> (phase: Phase)
        ensures
            phase == self@.phase,
    {
        self.phase
    }

    /// Number of reads opened so far.
    pub fn opened(&self) -> (n: usize)
        ensures
            n == self@.opened,
    {
        self.opened
    }

    /// Number of reads in the plan.
    pub fn planned(&self) -> (n: usize)
        ensures
            n == self@.order.len(),
    {
        self.order.len()
    }

    /// Takes the driver's report and says what to do next.
    pub fn step(&mut self, event: Event) -> (action: Action)
        requires
            old(self).wf(),
        ensures
            final(self).wf(),
            final(self)@.wf(),
            (final(self)@, action@) == old(self)@.step(event@),
    {
        match self.phase {
            Phase::Finished => Action::Finish,
            Phase::Failed => Action::Abort,
            Phase::Idle => match event {
                Event::Proceed => self.advance(),
                _ => {
                    self.phase = Phase::Failed;
                    Action::Abort
                },
            },
            Phase::Fetching => {
                let action = self.reader.step(event);
                match action {
                    ReadAction::Pull => Action::Pull,
                    ReadAction::Yield(chunk) => {
                        match self.reader.phase() {
                            ReadPhase::Done => {
                                self.phase = Phase::Idle;
                            },
                            _ => {},
                        }
                        Action::Yield(chunk)
                    },
                    ReadAction::End => self.advance(),
                    ReadAction::Fail => {
                        self.phase = Phase::Failed;
                        Action::Abort
                    },
                }
            },
        }
    }

    /// Opens the next planned read, or finishes where none is left.
    fn advance(&mut self) -> (action: Action)
        requires
            old(self).reader.wf(),
            old(self).reader@.wf(),
            old(self).reader@.pending.len() == 0,
            old(self).opened <= old(self).order.len(),
        ensures
            final(self).wf(),
            (final(self)@, action@) == old(self)@.advance(),
    {
        if self.opened < self.order.len() {
            let range = self.order[self.opened].clone();
            self.reader = RangedObjectReader::new(self.reader.sub_chunk_size());
            self.opened = self.opened + 1;
            self.phase = Phase::Fetching;
            Action::Fetch(range)
        } else {
            self.phase = Phase::Finished;
            Action::Finish
        }
    }
}

} // verus!
