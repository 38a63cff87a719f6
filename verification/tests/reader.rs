use bytes::Bytes;
use s3_streamer::chunk::{chunk_len, chunk_to_vec};
use s3_streamer::reader::{Event, RangedObjectReader, ReadAction, ReadPhase};

/// Feeds the frames to a fresh reader, as a driver would, and gathers what it yields.
fn rechunk(frames: &[&[u8]], sub_chunk_size: usize) -> Vec<Vec<u8>> {
    let mut reader = RangedObjectReader::new(sub_chunk_size);
    let mut out = Vec::new();
    let mut next = 0;
    let mut event = if frames.is_empty() {
        Event::EndOfData
    } else {
        next = 1;
        Event::Frame(Bytes::copy_from_slice(frames[0]))
    };
    loop {
        match reader.step(event) {
            ReadAction::Pull => {
                event = if next < frames.len() {
                    next += 1;
                    Event::Frame(Bytes::copy_from_slice(frames[next - 1]))
                } else {
                    Event::EndOfData
                };
            }
            ReadAction::Yield(chunk) => {
                out.push(chunk_to_vec(&chunk));
                event = Event::Proceed;
            }
            ReadAction::End => break,
            ReadAction::Fail => panic!("the reader failed"),
        }
    }
    assert_eq!(reader.phase(), ReadPhase::Done);
    out
}

#[test]
fn chunk_accessors() {
    let b = Bytes::from(vec![1u8, 2, 3]);
    assert_eq!(chunk_to_vec(&b), vec![1u8, 2, 3]);
    assert_eq!(chunk_len(&b), 3);
    assert_eq!(chunk_to_vec(&Bytes::new()), Vec::<u8>::new());
    assert_eq!(chunk_len(&Bytes::new()), 0);
}

#[test]
fn one_large_frame_is_cut_into_sub_chunks() {
    let data: Vec<u8> = (0..10).collect();
    let out = rechunk(&[&data], 4);
    assert_eq!(out, vec![vec![0, 1, 2, 3], vec![4, 5, 6, 7], vec![8, 9]]);
}

#[test]
fn small_frames_are_gathered() {
    let out = rechunk(&[&[1], &[2, 3], &[], &[4, 5, 6, 7], &[8]], 3);
    assert_eq!(out, vec![vec![1, 2, 3], vec![4, 5, 6], vec![7, 8]]);
}

#[test]
fn frames_that_fit_exactly_leave_no_short_chunk() {
    let out = rechunk(&[&[1, 2], &[3, 4], &[5, 6]], 2);
    assert_eq!(out, vec![vec![1, 2], vec![3, 4], vec![5, 6]]);
    let out = rechunk(&[&[1, 2, 3, 4, 5, 6]], 3);
    assert_eq!(out, vec![vec![1, 2, 3], vec![4, 5, 6]]);
}

#[test]
fn empty_response_yields_nothing() {
    assert!(rechunk(&[], 8).is_empty());
    assert!(rechunk(&[&[], &[]], 8).is_empty());
}

#[test]
fn sub_chunk_of_one_byte() {
    let out = rechunk(&[&[7, 8], &[9]], 1);
    assert_eq!(out, vec![vec![7], vec![8], vec![9]]);
}

#[test]
fn rechunking_keeps_the_bytes_whatever_the_framing() {
    let data: Vec<u8> = (0..=96).collect();
    for sub in [1usize, 2, 5, 16, 97, 98, 1000] {
        for frame in [1usize, 3, 16, 97, 200] {
            let frames: Vec<&[u8]> = data.chunks(frame).collect();
            let out = rechunk(&frames, sub);
            let expected: Vec<Vec<u8>> = data.chunks(sub).map(|c| c.to_vec()).collect();
            assert_eq!(out, expected);
        }
    }
}

#[test]
fn fresh_reader_waits_for_a_frame() {
    let reader = RangedObjectReader::new(5);
    assert_eq!(reader.phase(), ReadPhase::Reading);
    assert_eq!(reader.sub_chunk_size(), 5);
}

#[test]
fn transport_failure_fails_the_reader_for_good() {
    let mut reader = RangedObjectReader::new(2);
    assert!(matches!(
        reader.step(Event::Frame(Bytes::from(vec![1u8, 2, 3]))),
        ReadAction::Yield(b) if b == vec![1u8, 2]
    ));
    assert_eq!(reader.phase(), ReadPhase::Draining);
    assert!(matches!(reader.step(Event::TransportFailure), ReadAction::Fail));
    assert_eq!(reader.phase(), ReadPhase::Failed);
    assert!(matches!(reader.step(Event::Proceed), ReadAction::Fail));
    assert!(matches!(reader.step(Event::Frame(Bytes::from(vec![9u8]))), ReadAction::Fail));
    assert!(matches!(reader.step(Event::EndOfData), ReadAction::Fail));
    assert_eq!(reader.phase(), ReadPhase::Failed);
}

#[test]
fn event_out_of_turn_fails_the_reader() {
    let mut reader = RangedObjectReader::new(2);
    assert!(matches!(reader.step(Event::Proceed), ReadAction::Fail));
    assert_eq!(reader.phase(), ReadPhase::Failed);

    let mut reader = RangedObjectReader::new(2);
    assert!(matches!(reader.step(Event::Frame(Bytes::from(vec![1u8, 2, 3, 4]))), ReadAction::Yield(_)));
    assert!(matches!(reader.step(Event::Frame(Bytes::from(vec![5u8]))), ReadAction::Fail));

    let mut reader = RangedObjectReader::new(2);
    assert!(matches!(reader.step(Event::Frame(Bytes::from(vec![1u8, 2, 3, 4]))), ReadAction::Yield(_)));
    assert!(matches!(reader.step(Event::EndOfData), ReadAction::Fail));
}

#[test]
fn finished_reader_stays_finished() {
    let mut reader = RangedObjectReader::new(4);
    assert!(matches!(reader.step(Event::Frame(Bytes::from(vec![1u8]))), ReadAction::Pull));
    assert!(matches!(reader.step(Event::EndOfData), ReadAction::Yield(b) if b == vec![1u8]));
    assert_eq!(reader.phase(), ReadPhase::Done);
    assert!(matches!(reader.step(Event::Proceed), ReadAction::End));
    assert!(matches!(reader.step(Event::TransportFailure), ReadAction::End));
    assert!(matches!(reader.step(Event::Frame(Bytes::from(vec![1u8]))), ReadAction::End));
    assert_eq!(reader.phase(), ReadPhase::Done);
}
