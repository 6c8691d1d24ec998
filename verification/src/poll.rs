//! One poll cycle's decision logic.
//!
//! The surrounding program owns the serial port and the persistence target:
//! it writes the command frame, performs the bounded read, and stores the
//! records. Everything in between — what a read outcome does to the
//! synchronizer and which records come out — is decided here and verified.

use vstd::prelude::*;

use crate::decode::{decode_at, spec_decode, Record};
use crate::sync::{run_frames, run_state, FrameSynchronizer};

verus! {

/// The fixed 7-byte command that requests one measurement from the sensor.
pub open spec fn spec_command() -> Seq<u8> {
    seq![0x42u8, 0x4Du8, 0xABu8, 0x00u8, 0x00u8, 0x01u8, 0x3Au8]
}

/// The command frame to write once per poll cycle.
pub fn command_frame() -> (c: Vec<u8>)
    ensures
        c@ == spec_command(),
{
    let mut c: Vec<u8> = Vec::new();
    c.push(0x42u8);
    c.push(0x4Du8);
    c.push(0xABu8);
    c.push(0x00u8);
    c.push(0x00u8);
    c.push(0x01u8);
    c.push(0x3Au8);
    proof {
        assert(c@ =~= spec_command());
    }
    c
}

/// What one bounded read of the serial port came back with.
pub enum ReadOutcome {
    /// The port returned these bytes (possibly none, possibly several
    /// frames' worth, possibly a fragment).
    Data(Vec<u8>),
    /// The read window elapsed with no data: expected and harmless.
    TimedOut,
    /// Some other I/O failure: the cycle decodes nothing and the caller
    /// retries on the next tick.
    Failed,
}

/// Feed a chunk of stream bytes through the synchronizer and decode every
/// frame completed by it, all with the given capture time. The records are
/// exactly the decodes of the frames the spec machine emits on this chunk.
pub fn process_chunk(sync: &mut FrameSynchronizer, chunk: &[u8], timestamp: i64) -> (records: Vec<
    Record,
>)
    requires
        old(sync)@.wf(),
    ensures
        final(sync)@.wf(),
        final(sync)@ == run_state(old(sync)@, chunk@),
        records@.len() == run_frames(old(sync)@, chunk@).len(),
        forall|i: int|
            0 <= i < records@.len() ==> #[trigger] records@[i] == spec_decode(
                run_frames(old(sync)@, chunk@)[i],
                timestamp,
            ),
{
    let frames = sync.feed_chunk(chunk);
    let ghost emitted = run_frames(old(sync)@, chunk@);
    let mut records: Vec<Record> = Vec::new();
    let mut j: usize = 0;
    while j < frames.len()
        invariant
            j <= frames@.len(),
            frames@.len() == emitted.len(),
            forall|i: int|
                0 <= i < frames@.len() ==> (#[trigger] frames@[i])@ == emitted[i]
                    && frames@[i].wf(),
            records@.len() == j,
            forall|i: int|
                0 <= i < j ==> #[trigger] records@[i] == spec_decode(emitted[i], timestamp),
        decreases frames@.len() - j,
    {
        let r = decode_at(&frames[j], timestamp);
        records.push(r);
        j += 1;
    }
    records
}

/// One poll cycle's response handling, after the command was written and the
/// read came back: data is fed to the synchronizer and decoded with the
/// given capture time; a timeout or a failed read decodes nothing and leaves
/// the synchronizer exactly as it was.
pub fn poll_step(sync: &mut FrameSynchronizer, outcome: &ReadOutcome, timestamp: i64) -> (records:
    Vec<Record>)
    requires
        old(sync)@.wf(),
    ensures
        final(sync)@.wf(),
        match outcome {
            ReadOutcome::Data(bytes) => {
                &&& final(sync)@ == run_state(old(sync)@, bytes@)
                &&& records@.len() == run_frames(old(sync)@, bytes@).len()
                &&& forall|i: int|
                    0 <= i < records@.len() ==> #[trigger] records@[i] == spec_decode(
                        run_frames(old(sync)@, bytes@)[i],
                        timestamp,
                    )
            },
            _ => final(sync)@ == old(sync)@ && records@.len() == 0,
        },
{
    match outcome {
        ReadOutcome::Data(bytes) => process_chunk(sync, bytes.as_slice(), timestamp),
        ReadOutcome::TimedOut => Vec::new(),
        ReadOutcome::Failed => Vec::new(),
    }
}

} // verus!
