//! Vehicle models and the coded-video parameter-set headers recorded for
//! each: streams captured from these platforms open with a fixed sequence
//! and picture parameter set, chosen by the camera fitted to the model.

use vstd::prelude::*;

verus! {

/// The recorded parameter-set header for the 720-line camera.
pub const H264_HEADER_720: [u8; 35] = [
    0x00, 0x00, 0x00, 0x01, 0x67, 0x64, 0x00, 0x33, 0x4b, 0x0a, 0xd0, 0x0c, 0x80, 0xe7, 0xf3,
    0xc2, 0x00, 0x00, 0x03, 0x00, 0x02, 0x00, 0x00, 0x03, 0x00, 0x79, 0x08, 0x00, 0x00, 0x00,
    0x01, 0x68, 0x4a, 0xe3, 0xcb,
];

/// The recorded parameter-set header for the 960-line camera.
pub const H264_HEADER_960: [u8; 32] = [
    0x00, 0x00, 0x00, 0x01, 0x67, 0x64, 0x00, 0x33, 0x4b, 0x0a, 0xd0, 0x0c, 0x80, 0x4b, 0xd0,
    0x80, 0x00, 0x40, 0x00, 0x00, 0x0f, 0x00, 0x00, 0x42, 0x00, 0x00, 0x00, 0x01, 0x68, 0x4a,
    0xe3, 0xcb,
];

/// A supported vehicle platform.
#[derive(Debug, Clone, Copy, PartialEq, Eq, Structural)]
pub enum Model {
    DR1,
    DR2,
    PT1,
}

impl Model {
    /// The coded-video header bytes recorded by this model's camera.
    pub fn h264_header(&self) -> (r: Vec<u8>)
        ensures
            *self == Model::PT1 ==> r@ == H264_HEADER_960@,
            *self != Model::PT1 ==> r@ == H264_HEADER_720@,
    {
        match self {
            Model::DR1 | Model::DR2 => slice_to_vec(&H264_HEADER_720),
            Model::PT1 => slice_to_vec(&H264_HEADER_960),
        }
    }
}

/// Copies a byte slice into a fresh vector.
fn slice_to_vec(s: &[u8]) -> (r: Vec<u8>)
    ensures
        r@ == s@,
{
    let mut r: Vec<u8> = Vec::new();
    let n = s.len();
    let mut i: usize = 0;
    while i < n
        invariant
            i <= n == s@.len(),
            r@ == s@.subrange(0, i as int),
        decreases n - i,
    {
        let b = *vstd::slice::slice_index_get(s, i);
        r.push(b);
        i = i + 1;
    }
    proof {
        assert(s@.subrange(0, n as int) =~= s@);
    }
    r
}

} // verus!
