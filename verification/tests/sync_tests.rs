use bmframe::frame::{FRAME_LEN, HEAD_1, HEAD_2};
use bmframe::{FrameSynchronizer, RawFrame};

fn valid_frame_bytes() -> Vec<u8> {
    let mut v = vec![HEAD_1, HEAD_2];
    for i in 2..FRAME_LEN {
        v.push((i * 7 + 3) as u8);
    }
    v
}

#[test]
fn no_header_emits_nothing() {
    // A stream with no 0x42 0x4D anywhere: plenty of bytes, zero frames.
    let mut sync = FrameSynchronizer::new();
    let mut noise = Vec::new();
    for i in 0..200u32 {
        let b = (i % 251) as u8;
        // keep the pair 0x42 0x4D out of the stream
        noise.push(if b == 0x4D { 0x4E } else { b });
    }
    let frames = sync.feed_chunk(&noise);
    assert_eq!(frames.len(), 0);
}

#[test]
fn no_header_emits_nothing_chunked() {
    // The same header-free stream, fed one byte at a time.
    let mut sync = FrameSynchronizer::new();
    let mut count = 0;
    for i in 0..200u32 {
        let b = (i % 251) as u8;
        let b = if b == 0x4D { 0x4E } else { b };
        if sync.feed(b).is_some() {
            count += 1;
        }
    }
    assert_eq!(count, 0);
}

#[test]
fn lone_head_bytes_emit_nothing() {
    let mut sync = FrameSynchronizer::new();
    // 0x42s never followed by 0x4D, and 0x4Ds never preceded by 0x42.
    let noise = vec![0x4D, 0x4D, 0x42, 0x00, 0x42, 0x42, 0x41, 0x4D, 0x42];
    let frames = sync.feed_chunk(&noise);
    assert_eq!(frames.len(), 0);
}

#[test]
fn whole_frame_extracted() {
    let bytes = valid_frame_bytes();
    let mut sync = FrameSynchronizer::new();
    let frames = sync.feed_chunk(&bytes);
    assert_eq!(frames.len(), 1);
    assert_eq!(frames[0].as_bytes(), &bytes);
    // Back in its initial state: a second frame is found just as well.
    let frames2 = sync.feed_chunk(&bytes);
    assert_eq!(frames2.len(), 1);
    assert_eq!(frames2[0].as_bytes(), &bytes);
}

#[test]
fn frame_split_at_every_position() {
    // Chunk-boundary independence: any split of one frame into two batches
    // emits the same single frame as feeding it whole.
    let bytes = valid_frame_bytes();
    for k in 1..FRAME_LEN {
        let mut sync = FrameSynchronizer::new();
        let mut frames = sync.feed_chunk(&bytes[..k]);
        frames.extend(sync.feed_chunk(&bytes[k..]));
        assert_eq!(frames.len(), 1, "split at {}", k);
        assert_eq!(frames[0].as_bytes(), &bytes, "split at {}", k);
    }
}

#[test]
fn non_overlapping_header_resync() {
    // 0x42 0x42 0x4D ...: the first 0x42 is discarded, the header is found
    // at index 1, and the frame is the 24 bytes from there on.
    let mut stream = vec![HEAD_1];
    let frame = valid_frame_bytes();
    stream.extend_from_slice(&frame);
    assert_eq!(stream[0], 0x42);
    assert_eq!(stream[1], 0x42);
    assert_eq!(stream[2], 0x4D);
    let mut sync = FrameSynchronizer::new();
    let frames = sync.feed_chunk(&stream);
    assert_eq!(frames.len(), 1);
    assert_eq!(frames[0].as_bytes(), &frame);
}

#[test]
fn frames_amid_garbage() {
    // Noise, a frame, more noise, a second frame, a trailing fragment.
    let f1 = valid_frame_bytes();
    let mut f2 = valid_frame_bytes();
    f2[10] = 0xEE;
    let mut stream = vec![0x00, 0x42, 0x00, 0x4D];
    stream.extend_from_slice(&f1);
    stream.extend_from_slice(&[0x4D, 0x42, 0x17]);
    stream.extend_from_slice(&f2);
    stream.extend_from_slice(&f1[..9]);
    let mut sync = FrameSynchronizer::new();
    let frames = sync.feed_chunk(&stream);
    assert_eq!(frames.len(), 2);
    assert_eq!(frames[0].as_bytes(), &f1);
    assert_eq!(frames[1].as_bytes(), &f2);
    // The trailing fragment completes once the rest arrives.
    let frames = sync.feed_chunk(&f1[9..]);
    assert_eq!(frames.len(), 1);
    assert_eq!(frames[0].as_bytes(), &f1);
}

#[test]
fn header_bytes_inside_body_are_data() {
    // 0x42 0x4D inside an accumulating frame must be stored, not treated as
    // a new header.
    let mut bytes = valid_frame_bytes();
    bytes[5] = HEAD_1;
    bytes[6] = HEAD_2;
    let mut sync = FrameSynchronizer::new();
    let frames = sync.feed_chunk(&bytes);
    assert_eq!(frames.len(), 1);
    assert_eq!(frames[0].as_bytes(), &bytes);
}

#[test]
fn from_bytes_accepts_only_frames() {
    let good = valid_frame_bytes();
    let f = RawFrame::from_bytes(good.clone()).expect("a well-formed frame");
    assert_eq!(f.as_bytes(), &good);
    assert_eq!(f.byte_at(0), HEAD_1);
    assert_eq!(f.byte_at(1), HEAD_2);

    let mut short = good.clone();
    short.pop();
    assert!(RawFrame::from_bytes(short).is_none());

    let mut long = good.clone();
    long.push(0);
    assert!(RawFrame::from_bytes(long).is_none());

    let mut bad_head = good.clone();
    bad_head[0] = 0x41;
    assert!(RawFrame::from_bytes(bad_head).is_none());

    let mut bad_head2 = good;
    bad_head2[1] = 0x4E;
    assert!(RawFrame::from_bytes(bad_head2).is_none());
}
