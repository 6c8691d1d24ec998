//! The fixed-size sensor frame: 24 bytes beginning with the vendor magic
//! header `0x42 0x4D`.

use vstd::prelude::*;

verus! {

/// Number of bytes in a complete sensor frame, header included.
pub const FRAME_LEN: usize = 24;

/// First byte of the magic header (ASCII 'B').
pub const HEAD_1: u8 = 0x42;

/// Second byte of the magic header (ASCII 'M').
pub const HEAD_2: u8 = 0x4D;

/// A complete, header-aligned sensor frame. A value of this type is only
/// constructed once the two header bytes are confirmed at its start, and it
/// is immutable from then on.
#[derive(Debug, Clone)]
pub struct RawFrame {
    bytes: Vec<u8>,
}

impl View for RawFrame {
    type V = Seq<u8>;

    closed spec fn view(&self) -> Seq<u8> {
        self.bytes@
    }
}

/// What every frame satisfies: exactly `FRAME_LEN` bytes, the first two
/// being the magic header.
pub open spec fn frame_wf(bytes: Seq<u8>) -> bool {
    &&& bytes.len() == FRAME_LEN
    &&& bytes[0] == HEAD_1
    &&& bytes[1] == HEAD_2
}

impl RawFrame {
    pub open spec fn wf(self) -> bool {
        frame_wf(self@)
    }

    /// Accepts exactly the byte vectors that form a frame: 24 bytes whose
    /// first two are the magic header. Everything else is rejected.
    pub fn from_bytes(bytes: Vec<u8>) -> (r: Option<RawFrame>)
        ensures
            r is Some <==> frame_wf(bytes@),
            r is Some ==> r.unwrap()@ == bytes@ && r.unwrap().wf(),
    {
        if bytes.len() == FRAME_LEN && bytes[0] == HEAD_1 && bytes[1] == HEAD_2 {
            Some(RawFrame { bytes })
        } else {
            None
        }
    }

    /// Used by the synchronizer, which guarantees the frame shape by its own
    /// invariant before it hands the buffer over.
    pub(crate) fn from_checked(bytes: Vec<u8>) -> (r: RawFrame)
        requires
            frame_wf(bytes@),
        ensures
            r@ == bytes@,
            r.wf(),
    {
        RawFrame { bytes }
    }

    /// The byte at offset `i` of the frame.
    pub fn byte_at(&self, i: usize) -> (b: u8)
        requires
            self.wf(),
            i < FRAME_LEN,
        ensures
            b == self@[i as int],
    {
        self.bytes[i]
    }

    /// The whole frame, header included.
    pub fn as_bytes(&self) -> (r: &Vec<u8>)
        ensures
            r@ == self@,
    {
        &self.bytes
    }
}

} // verus!
