//! The ranged object reader: cuts the body of one ranged read, which
//! arrives in frames of any size, into sub-chunks of a fixed size.
//!
//! The reader does no I/O. Its driver reads the response and reports what
//! happened as an [`Event`]; the reader answers with the [`ReadAction`] to
//! take next.

use crate::chunk::{bytes_as_slice, bytes_contents};
use bytes::Bytes;
use vstd::prelude::*;
use vstd::slice::slice_subrange;

verus! {

/// What the driver reports to a reader or an assembler.
#[derive(Debug)]
pub enum Event {
    /// The last action was carried out and nothing came of it that needs
    /// reporting: a chunk was handed on, or the run begins.
    Proceed,
    /// The open response produced these bytes.
    Frame(Bytes),
    /// The open response is exhausted.
    EndOfData,
    /// The request failed, or the response broke off.
    TransportFailure,
}

/// Mathematical value of an [`Event`].
pub enum EventView {
    Proceed,
    Frame(Seq<u8>),
    EndOfData,
    TransportFailure,
}

impl View for Event {
    type V = EventView;

    open spec fn view(&self) -> EventView {
        match *self {
            Event::Proceed => EventView::Proceed,
            Event::Frame(b) => EventView::Frame(bytes_contents(b)),
            Event::EndOfData => EventView::EndOfData,
            Event::TransportFailure => EventView::TransportFailure,
        }
    }
}

/// What a reader asks its driver to do next.
#[derive(Debug)]
pub enum ReadAction {
    /// Read the next frame of the open response and report it.
    Pull,
    /// Hand this sub-chunk to the consumer, then report `Proceed`.
    Yield(Bytes),
    /// The response is exhausted and everything it held has been yielded.
    End,
    /// The read failed; what was yielded so far is all there will be.
    Fail,
}

/// Mathematical value of a [`ReadAction`].
pub enum ReadActionView {
    Pull,
    Yield(Seq<u8>),
    End,
    Fail,
}

impl View for ReadAction {
    type V = ReadActionView;

    open spec fn view(&self) -> ReadActionView {
        match *self {
            ReadAction::Pull => ReadActionView::Pull,
            ReadAction::Yield(b) => ReadActionView::Yield(bytes_contents(b)),
            ReadAction::End => ReadActionView::End,
            ReadAction::Fail => ReadActionView::Fail,
        }
    }
}

/// Where a reader stands.
#[derive(Clone, Copy, Debug, PartialEq, Eq, Structural)]
pub enum ReadPhase {
    /// Waiting for the next frame; fewer bytes than a sub-chunk are held.
    Reading,
    /// A frame is being cut up; the driver is handing on a sub-chunk.
    Draining,
    /// The response ended and all of it has been yielded.
    Done,
    /// The read failed.
    Failed,
}

/// Mathematical value of a [`RangedObjectReader`].
pub struct ReaderView {
    /// Size of the sub-chunks, at least one.
    pub sub_chunk_size: nat,
    /// Where the reader stands.
    pub phase: ReadPhase,
    /// Bytes received and not yet yielded, oldest first.
    pub pending: Seq<u8>,
}

impl ReaderView {
    /// A fresh reader: waiting for the first frame, holding nothing.
    pub open spec fn fresh(sub_chunk_size: nat) -> ReaderView {
        ReaderView { sub_chunk_size, phase: ReadPhase::Reading, pending: Seq::empty() }
    }

    /// What holds of every reader: while it waits for a frame it holds less
    /// than a sub-chunk, and once it is done or has failed it holds nothing.
    pub open spec fn wf(self) -> bool {
        &&& self.sub_chunk_size >= 1
        &&& self.phase == ReadPhase::Reading ==> self.pending.len() < self.sub_chunk_size
        &&& self.phase == ReadPhase::Done || self.phase == ReadPhase::Failed
            ==> self.pending.len() == 0
    }

    /// The reader after a failure: nothing is held any more.
    pub open spec fn failed(self) -> ReaderView {
        ReaderView { phase: ReadPhase::Failed, pending: Seq::empty(), ..self }
    }

    /// Cuts the next sub-chunk off the pending bytes if there are enough of
    /// them, and asks for more if not.
    pub open spec fn drain(self) -> (ReaderView, ReadActionView) {
        if self.pending.len() >= self.sub_chunk_size {
            (
                ReaderView {
                    phase: ReadPhase::Draining,
                    pending: self.pending.skip(self.sub_chunk_size as int),
                    ..self
                },
                ReadActionView::Yield(self.pending.take(self.sub_chunk_size as int)),
            )
        } else {
            (ReaderView { phase: ReadPhase::Reading, ..self }, ReadActionView::Pull)
        }
    }

    /// The transition function of the reader: the state after `event`, and
    /// the action that answers it.
    ///
    /// A finished or failed reader stays as it is. A transport failure, or
    /// an event that does not answer the action before it, makes the reader
    /// fail. A frame is added to the pending bytes, which are then cut up
    /// one sub-chunk per step. At the end of the data the bytes still held
    /// are yielded as a last, shorter sub-chunk.
    pub open spec fn step(self, event: EventView) -> (ReaderView, ReadActionView) {
        match (self.phase, event) {
            (ReadPhase::Done, _) => (self, ReadActionView::End),
            (ReadPhase::Failed, _) => (self, ReadActionView::Fail),
            (ReadPhase::Reading, EventView::Frame(bytes)) => ReaderView {
                pending: self.pending + bytes,
                ..self
            }.drain(),
            (ReadPhase::Reading, EventView::EndOfData) => if self.pending.len() > 0 {
                (
                    ReaderView { phase: ReadPhase::Done, pending: Seq::empty(), ..self },
                    ReadActionView::Yield(self.pending),
                )
            } else {
                (ReaderView { phase: ReadPhase::Done, ..self }, ReadActionView::End)
            },
            (ReadPhase::Draining, EventView::Proceed) => self.drain(),
            _ => (self.failed(), ReadActionView::Fail),
        }
    }
}

impl ReaderView {
    /// A step leaves a well-formed reader well-formed.
    pub proof fn lemma_step_keeps_wf(self, event: EventView)
        requires
            self.wf(),
        ensures
            self.step(event).0.wf(),
    {
    }

    /// A step loses no byte and makes none up: unless the reader fails, what
    /// it yields and what it holds afterwards are, together, what it held
    /// before followed by the bytes of the frame it took, if it took one.
    pub proof fn lemma_step_conserves_bytes(self, event: EventView)
        requires
            self.wf(),
            self.step(event).0.phase != ReadPhase::Failed,
        ensures
            (match self.step(event).1 {
                ReadActionView::Yield(chunk) => chunk,
                _ => Seq::empty(),
            }) + self.step(event).0.pending == self.pending + (match event {
                EventView::Frame(bytes) if self.phase == ReadPhase::Reading => bytes,
                _ => Seq::empty(),
            }),
    {
        let taken = match event {
            EventView::Frame(bytes) if self.phase == ReadPhase::Reading => bytes,
            _ => Seq::empty(),
        };
        let all = self.pending + taken;
        let yielded = match self.step(event).1 {
            ReadActionView::Yield(chunk) => chunk,
            _ => Seq::empty(),
        };
        if all.len() >= self.sub_chunk_size {
            assert(all.take(self.sub_chunk_size as int) + all.skip(self.sub_chunk_size as int)
                =~= all);
        }
        assert(self.pending + Seq::<u8>::empty() =~= self.pending);
        assert(yielded + self.step(event).0.pending =~= all);
    }

    /// A sub-chunk that a step yields has at least one byte and at most
    /// `sub_chunk_size`; it is shorter than that only where it is the last
    /// of its response.
    pub proof fn lemma_yield_fits(self, event: EventView)
        requires
            self.wf(),
        ensures
            self.step(event).1 matches ReadActionView::Yield(chunk) ==> {
                &&& 1 <= chunk.len() <= self.sub_chunk_size
                &&& chunk.len() < self.sub_chunk_size ==> self.step(event).0.phase
                    == ReadPhase::Done
            },
    {
    }
}

/// Reads one response body and re-chunks it: whatever the sizes of the
/// frames that arrive, the sub-chunks that leave have `sub_chunk_size`
/// bytes each, but for the last, which may be shorter.
pub struct RangedObjectReader {
    sub_chunk_size: usize,
    phase: ReadPhase,
    /// A sub-chunk in the making.
    buf: Vec<u8>,
    /// The frame that is being cut up.
    frame: Bytes,
    /// Number of bytes of `frame` that have been used.
    pos: usize,
}

impl View for RangedObjectReader {
    type V = ReaderView;

    closed spec fn view(&self) -> ReaderView {
        ReaderView {
            sub_chunk_size: self.sub_chunk_size as nat,
            phase: self.phase,
            pending: self.buf@ + bytes_contents(self.frame).skip(self.pos as int),
        }
    }
}

impl RangedObjectReader {
    /// The invariant of the representation.
    pub closed spec fn wf(&self) -> bool {
        &&& self.sub_chunk_size >= 1
        &&& self.buf.len() < self.sub_chunk_size
        &&& self.pos <= bytes_contents(self.frame).len()
        &&& self.phase == ReadPhase::Draining ==> self.buf.len() == 0
        &&& self.phase != ReadPhase::Draining ==> self.pos == bytes_contents(self.frame).len()
        &&& self.phase == ReadPhase::Done || self.phase == ReadPhase::Failed ==> self.buf.len()
            == 0
    }

    /// A reader for one response, waiting for its first frame.
    pub fn new(sub_chunk_size: usize) -> (reader: RangedObjectReader)
        requires
            sub_chunk_size >= 1,
        ensures
            reader.wf(),
            reader@ == ReaderView::fresh(sub_chunk_size as nat),
    {
        let reader = RangedObjectReader {
            sub_chunk_size,
            phase: ReadPhase::Reading,
            buf: Vec::new(),
            frame: Bytes::new(),
            pos: 0,
        };
        assert(reader@.pending =~= Seq::empty());
        reader
    }

    /// Size of the sub-chunks that this reader yields.
    pub fn sub_chunk_size(&self) -> (n: usize)
        ensures
            n == self@.sub_chunk_size,
    {
        self.sub_chunk_size
    }

    /// Where the reader stands.
    pub fn phase(&self) -> (phase: ReadPhase)
        ensures
            phase == self@.phase,
    {
        self.phase
    }

    /// Takes the driver's report and says what to do next.
    pub fn step(&mut self, event: Event) -> (action: ReadAction)
        requires
            old(self).wf(),
        ensures
            final(self).wf(),
            final(self)@.wf(),
            (final(self)@, action@) == old(self)@.step(event@),
    {
        match self.phase {
            ReadPhase::Done => {
                return ReadAction::End;
            },
            ReadPhase::Failed => {
                return ReadAction::Fail;
            },
            ReadPhase::Reading => match event {
                Event::Frame(frame) => {
                    self.frame = frame;
                    self.pos = 0;
                    assert(bytes_contents(self.frame).skip(0) =~= bytes_contents(self.frame));
                    assert(old(self)@.pending =~= self.buf@);
                    self.drain()
                },
                Event::EndOfData => {
                    assert(old(self)@.pending =~= self.buf@);
                    self.phase = ReadPhase::Done;
                    if self.buf.len() > 0 {
                        let chunk = Bytes::copy_from_slice(self.buf.as_slice());
                        self.buf.clear();
                        assert(self@.pending =~= Seq::empty());
                        ReadAction::Yield(chunk)
                    } else {
                        ReadAction::End
                    }
                },
                _ => self.fail(),
            },
            ReadPhase::Draining => match event {
                Event::Proceed => self.drain(),
                _ => self.fail(),
            },
        }
    }

    /// Gives up: drops what is held and fails.
    fn fail(&mut self) -> (action: ReadAction)
        requires
            old(self).wf(),
        ensures
            final(self).wf(),
            final(self)@.wf(),
            final(self)@ == old(self)@.failed(),
            action@ == ReadActionView::Fail,
    {
        self.phase = ReadPhase::Failed;
        self.buf.clear();
        self.pos = bytes_as_slice(&self.frame).len();
        assert(self@.pending =~= Seq::empty());
        ReadAction::Fail
    }

    /// Fills the sub-chunk in the making from the frame and yields it once
    /// it is full; asks for the next frame once this one is used up.
    fn drain(&mut self) -> (action: ReadAction)
        requires
            old(self).sub_chunk_size >= 1,
            old(self).buf.len() < old(self).sub_chunk_size,
            old(self).pos <= bytes_contents(old(self).frame).len(),
        ensures
            final(self).wf(),
            final(self)@.wf(),
            (final(self)@, action@) == old(self)@.drain(),
    {
        let ghost pending = self@.pending;
        let data = bytes_as_slice(&self.frame);
        let rest: usize = data.len() - self.pos;
        let need: usize = self.sub_chunk_size - self.buf.len();
        if rest >= need {
            let upto: usize = self.pos + need;
            let piece = slice_subrange(data, self.pos, upto);
            let chunk = if self.buf.len() == 0 {
                Bytes::copy_from_slice(piece)
            } else {
                self.buf.extend_from_slice(piece);
                let whole = Bytes::copy_from_slice(self.buf.as_slice());
                self.buf.clear();
                whole
            };
            self.pos = upto;
            self.phase = ReadPhase::Draining;
            assert(bytes_contents(chunk) =~= pending.take(self.sub_chunk_size as int));
            assert(self@.pending =~= pending.skip(self.sub_chunk_size as int));
            ReadAction::Yield(chunk)
        } else {
            let piece = slice_subrange(data, self.pos, data.len());
            self.buf.extend_from_slice(piece);
            self.pos = data.len();
            self.phase = ReadPhase::Reading;
            assert(self@.pending =~= pending);
            ReadAction::Pull
        }
    }
}

} // verus!
