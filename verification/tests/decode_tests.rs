use bmframe::decode::{decode_at, decode_now};
use bmframe::frame::FRAME_LEN;
use bmframe::poll::{command_frame, poll_step, process_chunk, ReadOutcome};
use bmframe::{FrameSynchronizer, RawFrame};

fn frame_with(fill: impl Fn(&mut Vec<u8>)) -> RawFrame {
    let mut v = vec![0u8; FRAME_LEN];
    v[0] = 0x42;
    v[1] = 0x4D;
    fill(&mut v);
    RawFrame::from_bytes(v).expect("a well-formed frame")
}

#[test]
fn pm25_uses_multiplier_255() {
    // pm25 bytes 0x01 0x2C decode to 1*255 + 44 = 299 (not 1*256 + 44).
    let f = frame_with(|v| {
        v[4] = 0x01;
        v[5] = 0x2C;
    });
    let r = decode_at(&f, 0);
    assert_eq!(r.pm25, 299);
}

#[test]
fn temperature_uses_multiplier_256_and_tenths() {
    // temperature bytes 0x00 0x96 are 150 tenths, i.e. 15.0 °C.
    let f = frame_with(|v| {
        v[14] = 0x00;
        v[15] = 0x96;
    });
    let r = decode_at(&f, 0);
    assert_eq!(r.temperature_tenths, 150);
    assert_eq!(r.temperature_tenths as f64 / 10.0, 15.0);
}

#[test]
fn all_fields_from_their_offsets() {
    let f = frame_with(|v| {
        v[4] = 1;
        v[5] = 2; // pm25 = 255 + 2
        v[6] = 2;
        v[7] = 3; // tvoc = 510 + 3
        v[8] = 0xAA; // ignored
        v[9] = 3;
        v[10] = 4; // hcho = 765 + 4
        v[11] = 0xBB; // ignored
        v[12] = 4;
        v[13] = 5; // co2 = 1020 + 5
        v[14] = 1;
        v[15] = 6; // temperature = 256 + 6 tenths
        v[16] = 2;
        v[17] = 7; // humidity = 512 + 7 tenths
        v[18] = 0xCC; // ignored tail
    });
    let r = decode_at(&f, 1234);
    assert_eq!(r.timestamp, 1234);
    assert_eq!(r.pm25, 257);
    assert_eq!(r.tvoc, 513);
    assert_eq!(r.hcho, 769);
    assert_eq!(r.co2, 1025);
    assert_eq!(r.temperature_tenths, 262);
    assert_eq!(r.humidity_tenths, 519);
}

#[test]
fn extreme_bytes_decode_without_overflow() {
    let f = frame_with(|v| {
        for i in 2..FRAME_LEN {
            v[i] = 0xFF;
        }
    });
    let r = decode_at(&f, 0);
    assert_eq!(r.pm25, 255 * 255 + 255);
    assert_eq!(r.temperature_tenths, 255 * 256 + 255);
}

#[test]
fn decode_twice_identical_but_for_timestamp() {
    let f = frame_with(|v| {
        v[4] = 9;
        v[5] = 9;
        v[16] = 1;
        v[17] = 1;
    });
    let r1 = decode_at(&f, 100);
    let r2 = decode_at(&f, 200);
    assert_eq!(r1.pm25, r2.pm25);
    assert_eq!(r1.tvoc, r2.tvoc);
    assert_eq!(r1.hcho, r2.hcho);
    assert_eq!(r1.co2, r2.co2);
    assert_eq!(r1.temperature_tenths, r2.temperature_tenths);
    assert_eq!(r1.humidity_tenths, r2.humidity_tenths);
    assert_eq!(r1.timestamp, 100);
    assert_eq!(r2.timestamp, 200);
}

#[test]
fn decode_now_matches_decode_at_fields() {
    // The clock only fills the timestamp; every measured field must agree
    // with an explicit-time decode of the same frame.
    let f = frame_with(|v| {
        v[4] = 0x01;
        v[5] = 0x2C;
        v[14] = 0x00;
        v[15] = 0x96;
    });
    let now = decode_now(&f);
    let fixed = decode_at(&f, now.timestamp);
    assert_eq!(now, fixed);
}

#[test]
fn command_frame_bytes() {
    assert_eq!(command_frame(), vec![0x42, 0x4D, 0xAB, 0x00, 0x00, 0x01, 0x3A]);
}

#[test]
fn chunk_split_same_record() {
    // Splitting one frame across two reads decodes to the identical record.
    let mut bytes = vec![0u8; FRAME_LEN];
    bytes[0] = 0x42;
    bytes[1] = 0x4D;
    bytes[4] = 0x01;
    bytes[5] = 0x2C;
    bytes[14] = 0x00;
    bytes[15] = 0x96;

    let mut whole_sync = FrameSynchronizer::new();
    let whole = process_chunk(&mut whole_sync, &bytes, 42);
    assert_eq!(whole.len(), 1);
    assert_eq!(whole[0].pm25, 299);
    assert_eq!(whole[0].temperature_tenths, 150);

    for k in 1..FRAME_LEN {
        let mut sync = FrameSynchronizer::new();
        let mut records = process_chunk(&mut sync, &bytes[..k], 42);
        records.extend(process_chunk(&mut sync, &bytes[k..], 42));
        assert_eq!(records, whole, "split at {}", k);
    }
}

#[test]
fn poll_step_handles_each_outcome() {
    let mut bytes = vec![0u8; FRAME_LEN];
    bytes[0] = 0x42;
    bytes[1] = 0x4D;
    bytes[12] = 2;
    bytes[13] = 10; // co2 = 520

    let mut sync = FrameSynchronizer::new();
    // A timeout or failure decodes nothing and disturbs nothing...
    let first_half = ReadOutcome::Data(bytes[..7].to_vec());
    assert_eq!(poll_step(&mut sync, &first_half, 5).len(), 0);
    assert_eq!(poll_step(&mut sync, &ReadOutcome::TimedOut, 6).len(), 0);
    assert_eq!(poll_step(&mut sync, &ReadOutcome::Failed, 7).len(), 0);
    // ...so the half-accumulated frame still completes afterwards.
    let second_half = ReadOutcome::Data(bytes[7..].to_vec());
    let records = poll_step(&mut sync, &second_half, 8);
    assert_eq!(records.len(), 1);
    assert_eq!(records[0].co2, 520);
    assert_eq!(records[0].timestamp, 8);
}
