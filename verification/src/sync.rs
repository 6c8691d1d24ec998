//! Byte-at-a-time frame synchronizer.
//!
//! The synchronizer consumes an unbounded stream of raw bytes, arriving in
//! arbitrarily sized chunks, and emits complete header-aligned frames. Its
//! whole behaviour is captured by the spec-level state machine below
//! (`step_state` / `step_frame`, folded over byte sequences by `run_state` /
//! `run_frames`); the executable `FrameSynchronizer` is proved to follow it
//! byte for byte.

use vstd::prelude::*;

use crate::frame::{frame_wf, RawFrame, FRAME_LEN, HEAD_1, HEAD_2};

verus! {

/// The mathematical state of the synchronizer: a cursor in `[0, FRAME_LEN)`
/// and the accumulation buffer.
pub struct SyncState {
    pub cur: nat,
    pub buf: Seq<u8>,
}

impl SyncState {
    /// Positions below the cursor hold what was accumulated so far; in
    /// particular the header bytes are confirmed once the cursor is past
    /// them.
    pub open spec fn wf(self) -> bool {
        &&& self.cur < FRAME_LEN
        &&& self.buf.len() == FRAME_LEN
        &&& self.cur >= 1 ==> self.buf[0] == HEAD_1
        &&& self.cur >= 2 ==> self.buf[1] == HEAD_2
    }
}

/// The state a fresh synchronizer starts in: cursor at the header search,
/// buffer cleared.
pub open spec fn initial_state() -> SyncState {
    SyncState { cur: 0, buf: Seq::new(FRAME_LEN as nat, |i: int| 0u8) }
}

/// One transition of the state machine.
///
/// - Cursor 0: anything but `HEAD_1` is discarded; `HEAD_1` starts a header.
/// - Cursor 1: `HEAD_2` confirms the header. Any other byte abandons the
///   `HEAD_1` that led here, which is never re-tested (non-overlapping
///   resync); the incoming byte itself is then re-examined as a possible
///   header start, so a second `HEAD_1` keeps the machine at cursor 1.
/// - Cursor 2..: the byte is stored; storing the last byte completes a frame
///   and resets the cursor.
pub open spec fn step_state(s: SyncState, b: u8) -> SyncState {
    if s.cur == 0 {
        if b == HEAD_1 {
            SyncState { cur: 1, buf: s.buf.update(0, b) }
        } else {
            s
        }
    } else if s.cur == 1 {
        if b == HEAD_2 {
            SyncState { cur: 2, buf: s.buf.update(1, b) }
        } else if b == HEAD_1 {
            SyncState { cur: 1, buf: s.buf.update(0, b) }
        } else {
            SyncState { cur: 0, buf: s.buf }
        }
    } else if s.cur < (FRAME_LEN - 1) as nat {
        SyncState { cur: s.cur + 1, buf: s.buf.update(s.cur as int, b) }
    } else {
        SyncState { cur: 0, buf: s.buf.update((FRAME_LEN - 1) as int, b) }
    }
}

/// The frame, if any, completed by one transition: only the byte that lands
/// in the last slot emits one.
pub open spec fn step_frame(s: SyncState, b: u8) -> Option<Seq<u8>> {
    if s.cur == (FRAME_LEN - 1) as nat {
        Some(s.buf.update((FRAME_LEN - 1) as int, b))
    } else {
        None
    }
}

/// The state after feeding a whole byte sequence.
pub open spec fn run_state(s: SyncState, bytes: Seq<u8>) -> SyncState
    decreases bytes.len(),
{
    if bytes.len() == 0 {
        s
    } else {
        run_state(step_state(s, bytes[0]), bytes.drop_first())
    }
}

/// All frames emitted while feeding a byte sequence, in emission order.
pub open spec fn run_frames(s: SyncState, bytes: Seq<u8>) -> Seq<Seq<u8>>
    decreases bytes.len(),
{
    if bytes.len() == 0 {
        Seq::empty()
    } else {
        let rest = run_frames(step_state(s, bytes[0]), bytes.drop_first());
        match step_frame(s, bytes[0]) {
            Some(f) => seq![f] + rest,
            None => rest,
        }
    }
}

/// One transition keeps the state well formed, and any frame it emits is a
/// well-formed frame.
pub proof fn lemma_step_wf(s: SyncState, b: u8)
    requires
        s.wf(),
    ensures
        step_state(s, b).wf(),
        step_frame(s, b) is Some ==> frame_wf(step_frame(s, b).unwrap()),
{
}

/// Running a sequence keeps the state well formed, and every frame emitted
/// along the way is a well-formed frame.
pub proof fn lemma_run_wf(s: SyncState, bytes: Seq<u8>)
    requires
        s.wf(),
    ensures
        run_state(s, bytes).wf(),
        forall|i: int| 0 <= i < run_frames(s, bytes).len() ==> frame_wf(#[trigger] run_frames(s, bytes)[i]),
    decreases bytes.len(),
{
    if bytes.len() > 0 {
        lemma_step_wf(s, bytes[0]);
        lemma_run_wf(step_state(s, bytes[0]), bytes.drop_first());
        let rest = run_frames(step_state(s, bytes[0]), bytes.drop_first());
        match step_frame(s, bytes[0]) {
            Some(f) => {
                assert forall|i: int| 0 <= i < run_frames(s, bytes).len() implies frame_wf(
                    #[trigger] run_frames(s, bytes)[i],
                ) by {
                    if i > 0 {
                        assert(run_frames(s, bytes)[i] == rest[i - 1]);
                    }
                }
            },
            None => (),
        }
    }
}

/// Appending one byte to a sequence runs the machine one transition further.
pub proof fn lemma_run_snoc(s: SyncState, bytes: Seq<u8>, b: u8)
    ensures
        run_state(s, bytes.push(b)) == step_state(run_state(s, bytes), b),
        run_frames(s, bytes.push(b)) =~= run_frames(s, bytes) + match step_frame(
            run_state(s, bytes),
            b,
        ) {
            Some(f) => seq![f],
            None => Seq::<Seq<u8>>::empty(),
        },
    decreases bytes.len(),
{
    let p = bytes.push(b);
    if bytes.len() == 0 {
        assert(p[0] == b);
        assert(p.drop_first() =~= Seq::<u8>::empty());
        assert(run_state(s, p) == run_state(step_state(s, b), p.drop_first()));
        assert(run_state(step_state(s, b), p.drop_first()) == step_state(s, b));
        assert(run_state(s, bytes) == s);
        assert(run_frames(s, bytes) =~= Seq::<Seq<u8>>::empty());
        assert(run_frames(step_state(s, b), p.drop_first()) =~= Seq::<Seq<u8>>::empty());
    } else {
        let s1 = step_state(s, bytes[0]);
        assert(p[0] == bytes[0]);
        assert(p.drop_first() == bytes.drop_first().push(b)) by {
            assert(p.drop_first() =~= bytes.drop_first().push(b));
        }
        lemma_run_snoc(s1, bytes.drop_first(), b);
        assert(run_state(s, p) == run_state(s1, p.drop_first()));
        assert(run_state(s, bytes) == run_state(s1, bytes.drop_first()));
        assert(run_frames(s, p) =~= run_frames(s, bytes) + match step_frame(
            run_state(s, bytes),
            b,
        ) {
            Some(f) => seq![f],
            None => Seq::<Seq<u8>>::empty(),
        }) by {
            assert(run_frames(s, p) == match step_frame(s, p[0]) {
                Some(f) => seq![f] + run_frames(s1, p.drop_first()),
                None => run_frames(s1, p.drop_first()),
            });
            assert(run_frames(s, bytes) == match step_frame(s, bytes[0]) {
                Some(f) => seq![f] + run_frames(s1, bytes.drop_first()),
                None => run_frames(s1, bytes.drop_first()),
            });
        }
    }
}

/// Chunk-boundary independence, the general law: feeding `a + b` in one call
/// is the same as feeding `a` and then `b` — the state agrees and the frames
/// emitted are those of `a` followed by those of `b`. How a stream is split
/// into chunks therefore never changes what comes out.
pub proof fn lemma_chunk_split(s: SyncState, a: Seq<u8>, b: Seq<u8>)
    ensures
        run_state(s, a + b) == run_state(run_state(s, a), b),
        run_frames(s, a + b) =~= run_frames(s, a) + run_frames(run_state(s, a), b),
    decreases a.len(),
{
    if a.len() == 0 {
        assert(a + b =~= b);
        assert(run_frames(s, a) + run_frames(run_state(s, a), b) =~= run_frames(s, b));
    } else {
        assert((a + b)[0] == a[0]);
        assert((a + b).drop_first() =~= a.drop_first() + b);
        lemma_chunk_split(step_state(s, a[0]), a.drop_first(), b);
    }
}

/// The state after feeding a series of chunks, one feed call per chunk.
pub open spec fn run_state_chunks(s: SyncState, chunks: Seq<Seq<u8>>) -> SyncState
    decreases chunks.len(),
{
    if chunks.len() == 0 {
        s
    } else {
        run_state_chunks(run_state(s, chunks[0]), chunks.drop_first())
    }
}

/// All frames emitted while feeding a series of chunks, in emission order.
pub open spec fn run_frames_chunks(s: SyncState, chunks: Seq<Seq<u8>>) -> Seq<Seq<u8>>
    decreases chunks.len(),
{
    if chunks.len() == 0 {
        Seq::empty()
    } else {
        run_frames(s, chunks[0]) + run_frames_chunks(run_state(s, chunks[0]), chunks.drop_first())
    }
}

/// Chunking is irrelevant: feeding a stream as any series of chunks leaves
/// the same state and emits the same frames as feeding it whole.
pub proof fn lemma_chunking_irrelevant(s: SyncState, chunks: Seq<Seq<u8>>)
    ensures
        run_state_chunks(s, chunks) == run_state(s, chunks.flatten()),
        run_frames_chunks(s, chunks) =~= run_frames(s, chunks.flatten()),
    decreases chunks.len(),
{
    if chunks.len() == 0 {
        assert(chunks.flatten() =~= Seq::<u8>::empty());
    } else {
        lemma_chunking_irrelevant(run_state(s, chunks[0]), chunks.drop_first());
        lemma_chunk_split(s, chunks[0], chunks.drop_first().flatten());
        assert(chunks.first() == chunks[0]);
        assert(chunks.flatten() == chunks[0] + chunks.drop_first().flatten());
    }
}

/// No two adjacent bytes of the sequence form the magic header.
pub open spec fn no_header(bytes: Seq<u8>) -> bool {
    forall|i: int|
        0 <= i && i + 1 < bytes.len() ==> !(#[trigger] bytes[i] == HEAD_1 && bytes[i + 1]
            == HEAD_2)
}

proof fn lemma_no_header_helper(s: SyncState, bytes: Seq<u8>)
    requires
        s.wf(),
        s.cur <= 1,
        no_header(bytes),
        s.cur == 1 && bytes.len() > 0 ==> bytes[0] != HEAD_2,
    ensures
        run_frames(s, bytes).len() == 0,
        run_state(s, bytes).cur <= 1,
    decreases bytes.len(),
{
    if bytes.len() > 0 {
        let s1 = step_state(s, bytes[0]);
        let rest = bytes.drop_first();
        assert(no_header(rest)) by {
            assert forall|i: int|
                0 <= i && i + 1 < rest.len() implies !(#[trigger] rest[i] == HEAD_1 && rest[i + 1]
                == HEAD_2) by {
                assert(rest[i] == bytes[i + 1] && rest[i + 1] == bytes[i + 2]);
            }
        }
        if s1.cur == 1 && rest.len() > 0 {
            assert(bytes[0] == HEAD_1);
            assert(rest[0] == bytes[1]);
        }
        lemma_step_wf(s, bytes[0]);
        lemma_no_header_helper(s1, rest);
    }
}

/// Resync correctness: a byte stream in which the magic header never occurs
/// makes a header-hunting synchronizer emit no frame at all, and leaves it
/// still hunting. Together with `lemma_chunk_split` this holds however the
/// stream is chunked across feed calls.
pub proof fn lemma_no_header_no_frames(s: SyncState, bytes: Seq<u8>)
    requires
        s.wf(),
        s.cur == 0,
        no_header(bytes),
    ensures
        run_frames(s, bytes).len() == 0,
        run_state(s, bytes).cur <= 1,
{
    lemma_no_header_helper(s, bytes);
}

/// Resync correctness in full: however a header-free stream is chunked
/// across feed calls, a header-hunting synchronizer emits no frame.
pub proof fn lemma_no_header_no_frames_chunked(s: SyncState, chunks: Seq<Seq<u8>>)
    requires
        s.wf(),
        s.cur == 0,
        no_header(chunks.flatten()),
    ensures
        run_frames_chunks(s, chunks).len() == 0,
{
    lemma_chunking_irrelevant(s, chunks);
    lemma_no_header_no_frames(s, chunks.flatten());
}

/// From a state already past the header, feeding exactly the bytes that are
/// missing completes exactly one frame: what was accumulated so far followed
/// by the bytes fed. The machine then starts over.
proof fn lemma_fill(s: SyncState, t: Seq<u8>)
    requires
        s.wf(),
        2 <= s.cur,
        t.len() == FRAME_LEN - s.cur,
    ensures
        run_state(s, t).cur == 0,
        run_frames(s, t).len() == 1,
        run_frames(s, t)[0].len() == FRAME_LEN,
        forall|i: int| 0 <= i < s.cur ==> #[trigger] run_frames(s, t)[0][i] == s.buf[i],
        forall|i: int| s.cur <= i < FRAME_LEN ==> #[trigger] run_frames(s, t)[0][i] == t[i - s.cur],
    decreases t.len(),
{
    let s1 = step_state(s, t[0]);
    let rest = t.drop_first();
    if s.cur == (FRAME_LEN - 1) as nat {
        assert(rest.len() == 0);
        assert(run_state(s1, rest) == s1);
        assert(run_frames(s1, rest) =~= Seq::<Seq<u8>>::empty());
        assert(run_state(s, t) == run_state(s1, rest));
        assert(run_frames(s, t) =~= seq![s.buf.update((FRAME_LEN - 1) as int, t[0])] + run_frames(
            s1,
            rest,
        ));
        assert(run_frames(s, t) =~= seq![s.buf.update((FRAME_LEN - 1) as int, t[0])]);
    } else {
        lemma_step_wf(s, t[0]);
        lemma_fill(s1, rest);
        let f = run_frames(s1, rest)[0];
        assert(run_frames(s, t) =~= run_frames(s1, rest));
        assert forall|i: int| 0 <= i < s.cur implies #[trigger] run_frames(s, t)[0][i]
            == s.buf[i] by {
            assert(f[i] == s1.buf[i]);
        }
        assert forall|i: int| s.cur <= i < FRAME_LEN implies #[trigger] run_frames(s, t)[0][i]
            == t[i - s.cur] by {
            if i == s.cur {
                assert(f[i] == s1.buf[i]);
            } else {
                assert(f[i] == rest[i - s1.cur]);
                assert(rest[i - s1.cur] == t[i - s.cur]);
            }
        }
    }
}

/// Frame extraction: a header-hunting synchronizer fed one well-formed
/// 24-byte frame emits exactly that frame and is back hunting for the next
/// header afterwards.
pub proof fn lemma_frame_extraction(s: SyncState, bytes: Seq<u8>)
    requires
        s.wf(),
        s.cur == 0,
        frame_wf(bytes),
    ensures
        run_frames(s, bytes) =~= seq![bytes],
        run_state(s, bytes).cur == 0,
{
    let s1 = step_state(s, bytes[0]);
    let r1 = bytes.drop_first();
    let s2 = step_state(s1, bytes[1]);
    let t = r1.drop_first();
    assert(r1[0] == bytes[1]);
    assert(run_frames(s, bytes) =~= run_frames(s1, r1));
    assert(run_state(s, bytes) == run_state(s1, r1));
    assert(run_frames(s1, r1) =~= run_frames(s2, t));
    assert(run_state(s1, r1) == run_state(s2, t));
    lemma_fill(s2, t);
    assert(run_frames(s2, t)[0] =~= bytes) by {
        assert forall|i: int| 0 <= i < FRAME_LEN implies #[trigger] run_frames(s2, t)[0][i]
            == bytes[i] by {
            if i >= 2 {
                assert(run_frames(s2, t)[0][i] == t[i - 2]);
                assert(t[i - 2] == bytes[i]);
            }
        }
    }
    assert(run_frames(s, bytes) =~= seq![bytes]);
}

/// Non-overlapping header policy: on `HEAD_1 HEAD_1 HEAD_2 ...` the machine
/// does not keep the first `HEAD_1` as a header candidate once the second
/// byte fails to confirm it; the header is instead found one position later,
/// and the one frame emitted starts there.
pub proof fn lemma_non_overlapping_resync(s: SyncState, bytes: Seq<u8>)
    requires
        s.wf(),
        s.cur == 0,
        bytes.len() == FRAME_LEN + 1,
        bytes[0] == HEAD_1,
        bytes[1] == HEAD_1,
        bytes[2] == HEAD_2,
    ensures
        run_frames(s, bytes) =~= seq![bytes.drop_first()],
        run_state(s, bytes).cur == 0,
{
    let s1 = step_state(s, bytes[0]);
    let rest = bytes.drop_first();
    assert(run_frames(s, bytes) =~= run_frames(s1, rest));
    assert(run_state(s, bytes) == run_state(s1, rest));
    let s2 = step_state(s1, rest[0]);
    let r2 = rest.drop_first();
    let s3 = step_state(s2, rest[1]);
    let t = r2.drop_first();
    assert(r2[0] == rest[1]);
    assert(run_frames(s1, rest) =~= run_frames(s2, r2));
    assert(run_state(s1, rest) == run_state(s2, r2));
    assert(run_frames(s2, r2) =~= run_frames(s3, t));
    assert(run_state(s2, r2) == run_state(s3, t));
    lemma_fill(s3, t);
    assert(run_frames(s3, t)[0] =~= rest) by {
        assert forall|i: int| 0 <= i < FRAME_LEN implies #[trigger] run_frames(s3, t)[0][i]
            == rest[i] by {
            if i >= 2 {
                assert(run_frames(s3, t)[0][i] == t[i - 2]);
                assert(t[i - 2] == rest[i]);
            }
        }
    }
    assert(run_frames(s1, rest) =~= seq![rest]);
}

/// Chunk-boundary independence for one frame: splitting a well-formed frame
/// at any position into two feed batches yields the same single emitted
/// frame as feeding it whole.
pub proof fn lemma_split_frame_extraction(s: SyncState, bytes: Seq<u8>, k: int)
    requires
        s.wf(),
        s.cur == 0,
        frame_wf(bytes),
        0 <= k <= bytes.len(),
    ensures
        run_frames(s, bytes.take(k)) + run_frames(run_state(s, bytes.take(k)), bytes.skip(k))
            =~= seq![bytes],
{
    assert(bytes.take(k) + bytes.skip(k) =~= bytes);
    lemma_chunk_split(s, bytes.take(k), bytes.skip(k));
    lemma_frame_extraction(s, bytes);
}

/// The stateful synchronizer. Its view is the spec state it is at; `feed`
/// advances it by exactly one `step_state` transition.
pub struct FrameSynchronizer {
    cur: usize,
    buf: Vec<u8>,
}

impl View for FrameSynchronizer {
    type V = SyncState;

    closed spec fn view(&self) -> SyncState {
        SyncState { cur: self.cur as nat, buf: self.buf@ }
    }
}

impl FrameSynchronizer {
    /// A synchronizer ready to hunt for the first header.
    pub fn new() -> (s: FrameSynchronizer)
        ensures
            s@ == initial_state(),
            s@.wf(),
    {
        let mut buf: Vec<u8> = Vec::new();
        let mut i: usize = 0;
        while i < FRAME_LEN
            invariant
                i <= FRAME_LEN,
                buf@ =~= Seq::new(i as nat, |j: int| 0u8),
            decreases FRAME_LEN - i,
        {
            buf.push(0u8);
            i += 1;
        }
        let s = FrameSynchronizer { cur: 0, buf };
        proof {
            assert(s@.buf =~= initial_state().buf);
        }
        s
    }

    /// Consume one byte of the raw stream; return the completed frame when
    /// the accumulation finishes. The state advances by exactly one
    /// transition of the spec machine.
    pub fn feed(&mut self, b: u8) -> (r: Option<RawFrame>)
        requires
            old(self)@.wf(),
        ensures
            final(self)@.wf(),
            final(self)@ == step_state(old(self)@, b),
            r is Some <==> step_frame(old(self)@, b) is Some,
            r is Some ==> r.unwrap()@ == step_frame(old(self)@, b).unwrap() && r.unwrap().wf(),
    {
        proof {
            lemma_step_wf(old(self)@, b);
        }
        if self.cur == 0 {
            if b == HEAD_1 {
                self.buf[0] = b;
                self.cur = 1;
            }
            None
        } else if self.cur == 1 {
            if b == HEAD_2 {
                self.buf[1] = b;
                self.cur = 2;
            } else if b == HEAD_1 {
                self.buf[0] = b;
                self.cur = 1;
            } else {
                self.cur = 0;
            }
            None
        } else if self.cur < FRAME_LEN - 1 {
            self.buf[self.cur] = b;
            self.cur += 1;
            None
        } else {
            self.buf[FRAME_LEN - 1] = b;
            self.cur = 0;
            let frame = RawFrame::from_checked(self.buf.clone());
            Some(frame)
        }
    }

    /// Feed every byte of a chunk in order, collecting the frames completed
    /// along the way. A read may return anything from no bytes to several
    /// frames' worth; no alignment of chunk and frame boundaries is assumed.
    pub fn feed_chunk(&mut self, chunk: &[u8]) -> (frames: Vec<RawFrame>)
        requires
            old(self)@.wf(),
        ensures
            final(self)@.wf(),
            final(self)@ == run_state(old(self)@, chunk@),
            frames@.len() == run_frames(old(self)@, chunk@).len(),
            forall|i: int|
                0 <= i < frames@.len() ==> (#[trigger] frames@[i])@ == run_frames(
                    old(self)@,
                    chunk@,
                )[i] && frames@[i].wf(),
    {
        let ghost s0 = self@;
        let mut frames: Vec<RawFrame> = Vec::new();
        let mut k: usize = 0;
        proof {
            assert(chunk@.take(0) =~= Seq::<u8>::empty());
        }
        while k < chunk.len()
            invariant
                old(self)@ == s0,
                s0.wf(),
                k <= chunk@.len(),
                self@.wf(),
                self@ == run_state(s0, chunk@.take(k as int)),
                frames@.len() == run_frames(s0, chunk@.take(k as int)).len(),
                forall|i: int|
                    0 <= i < frames@.len() ==> (#[trigger] frames@[i])@ == run_frames(
                        s0,
                        chunk@.take(k as int),
                    )[i] && frames@[i].wf(),
            decreases chunk@.len() - k,
        {
            let b = chunk[k];
            proof {
                assert(chunk@.take(k as int + 1) =~= chunk@.take(k as int).push(b));
                lemma_run_snoc(s0, chunk@.take(k as int), b);
            }
            let r = self.feed(b);
            match r {
                Some(f) => frames.push(f),
                None => (),
            }
            k += 1;
        }
        proof {
            assert(chunk@.take(chunk@.len() as int) =~= chunk@);
        }
        frames
    }
}

} // verus!
