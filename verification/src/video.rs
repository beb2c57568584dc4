//! The accumulate-then-decode video path. Messages only append coded bytes
//! and publish times; after the last message the accumulated stream is split
//! into access units on `00 00 01` start codes, each unit is offered to the
//! external picture decoder, and every picture that comes out is named by the
//! timestamp aligned with its emission index. Units that yield no picture
//! (codec warm-up, non-picture units) are skipped, never failed on.

use vstd::prelude::*;

use crate::cancel::CancelToken;
use crate::errors::Error;
use openh264::formats::YUVSource;

verus! {

/// A start code `00 00 01` begins at `j`.
pub open spec fn nal_start(s: Seq<u8>, j: int) -> bool {
    0 <= j && j + 2 < s.len() && s[j] == 0u8 && s[j + 1] == 0u8 && s[j + 2] == 1u8
}

/// The indices listed are exactly the start codes of `s`, in order.
pub open spec fn lists_starts(s: Seq<u8>, starts: Seq<int>) -> bool {
    &&& forall|k: int| 0 <= k < starts.len() ==> nal_start(s, #[trigger] starts[k])
    &&& forall|k: int, l: int| 0 <= k < l < starts.len() ==> starts[k] < starts[l]
    &&& forall|j: int| nal_start(s, j) ==> exists|k: int|
        0 <= k < starts.len() && #[trigger] starts[k] == j
}

/// The units cut from `s` at its start codes: unit `k` runs from start `k` to
/// the next start (the last one to the end). Bytes before the first start
/// code are dropped.
pub open spec fn units_of(s: Seq<u8>, starts: Seq<int>, units: Seq<Seq<u8>>) -> bool {
    &&& units.len() == starts.len()
    &&& forall|k: int|
        0 <= k < starts.len() ==> #[trigger] units[k] == s.subrange(
            starts[k],
            if k + 1 < starts.len() {
                starts[k + 1]
            } else {
                s.len() as int
            },
        )
}

/// Finds every start-code index of `s`, in order.
fn find_starts(s: &Vec<u8>) -> (r: Vec<usize>)
    ensures
        lists_starts(s@, Seq::new(r@.len(), |k: int| r@[k] as int)),
{
    let mut r: Vec<usize> = Vec::new();
    let n = s.len();
    if n < 3 {
        proof {
            assert forall|j: int| !nal_start(s@, j) by {}
        }
        return r;
    }
    let mut j: usize = 0;
    while j < n - 2
        invariant
            n == s@.len(),
            3 <= n,
            j <= n - 2,
            forall|k: int| 0 <= k < r@.len() ==> nal_start(s@, #[trigger] r@[k] as int),
            forall|k: int, l: int| 0 <= k < l < r@.len() ==> r@[k] < r@[l],
            forall|k: int| 0 <= k < r@.len() ==> r@[k] < j,
            forall|q: int| 0 <= q < j && nal_start(s@, q) ==> exists|k: int|
                0 <= k < r@.len() && #[trigger] r@[k] as int == q,
        decreases n - j,
    {
        if s[j] == 0 && s[j + 1] == 0 && s[j + 2] == 1 {
            let ghost old_r = r@;
            r.push(j);
            proof {
                assert forall|q: int| 0 <= q < j + 1 && nal_start(s@, q) implies exists|k: int|
                    0 <= k < r@.len() && #[trigger] r@[k] as int == q by {
                    if q < j {
                        let k = choose|k: int|
                            0 <= k < old_r.len() && #[trigger] old_r[k] as int == q;
                        assert(r@[k] as int == q);
                    } else {
                        assert(r@[r@.len() - 1] as int == q);
                    }
                }
            }
        } else {
            proof {
                assert(!nal_start(s@, j as int));
            }
        }
        j = j + 1;
    }
    proof {
        assert forall|q: int| nal_start(s@, q) implies 0 <= q < n - 2 by {}
        let starts = Seq::new(r@.len(), |k: int| r@[k] as int);
        assert forall|k: int| 0 <= k < starts.len() implies nal_start(s@, #[trigger] starts[k]) by {
            assert(starts[k] == r@[k] as int);
        }
        assert forall|q: int| nal_start(s@, q) implies exists|k: int|
            0 <= k < starts.len() && #[trigger] starts[k] == q by {
            let k = choose|k: int| 0 <= k < r@.len() && #[trigger] r@[k] as int == q;
            assert(starts[k] == q);
        }
    }
    r
}

/// Copies `s[start .. end]` into a fresh vector.
fn slice_out(s: &Vec<u8>, start: usize, end: usize) -> (r: Vec<u8>)
    requires
        start <= end <= s.len(),
    ensures
        r@ == s@.subrange(start as int, end as int),
{
    let mut r: Vec<u8> = Vec::new();
    let mut i: usize = start;
    while i < end
        invariant
            start <= i <= end <= s.len(),
            r@ == s@.subrange(start as int, i as int),
        decreases end - i,
    {
        r.push(s[i]);
        i = i + 1;
    }
    proof {
        assert(r@ =~= s@.subrange(start as int, end as int));
    }
    r
}

/// Splits an accumulated coded stream into access units at its start codes.
pub fn split_units(s: &Vec<u8>) -> (r: Vec<Vec<u8>>)
    ensures
        exists|starts: Seq<int>|
            #[trigger] lists_starts(s@, starts) && units_of(
                s@,
                starts,
                Seq::new(r@.len(), |k: int| r@[k]@),
            ),
{
    let starts = find_starts(s);
    let ghost gstarts = Seq::new(starts@.len(), |k: int| starts@[k] as int);
    let mut r: Vec<Vec<u8>> = Vec::new();
    let m = starts.len();
    let mut k: usize = 0;
    while k < m
        invariant
            m == starts@.len(),
            k <= m,
            gstarts == Seq::new(starts@.len(), |q: int| starts@[q] as int),
            lists_starts(s@, gstarts),
            r@.len() == k,
            forall|q: int|
                0 <= q < k ==> #[trigger] r@[q]@ == s@.subrange(
                    gstarts[q],
                    if q + 1 < gstarts.len() {
                        gstarts[q + 1]
                    } else {
                        s@.len() as int
                    },
                ),
        decreases m - k,
    {
        let start = starts[k];
        let end = if k + 1 < m {
            starts[k + 1]
        } else {
            s.len()
        };
        proof {
            assert(nal_start(s@, gstarts[k as int]));
            if k + 1 < m {
                assert(nal_start(s@, gstarts[k + 1]));
                assert(gstarts[k as int] < gstarts[k + 1]);
            }
        }
        let u = slice_out(s, start, end);
        r.push(u);
        k = k + 1;
    }
    proof {
        assert(units_of(s@, gstarts, Seq::new(r@.len(), |q: int| r@[q]@)));
    }
    r
}

/// The per-topic video accumulator: coded bytes and the publish times that
/// will name the emitted frames, in emission order.
#[derive(Debug, Clone)]
pub struct VideoState {
    pub cache: Vec<u8>,
    pub stamps: Vec<u64>,
}

impl VideoState {
    pub fn new() -> (r: VideoState)
        ensures
            r.cache@ == Seq::<u8>::empty(),
            r.stamps@ == Seq::<u64>::empty(),
    {
        VideoState { cache: Vec::new(), stamps: Vec::new() }
    }
}

/// One decoded frame: the timestamp that names it, its width and height in
/// pixels, and its interleaved 3-byte-per-pixel buffer.
#[derive(Debug, Clone)]
pub struct Frame {
    pub stamp: u64,
    pub width: usize,
    pub height: usize,
    pub rgb: Vec<u8>,
}

/// The external picture decoder's type, carried opaquely.
#[verifier::external_type_specification]
#[verifier::external_body]
pub struct ExH264Decoder(openh264::decoder::Decoder);

/// Relies on openh264's Decoder::new: a fresh decoder, or the library's
/// report of why none could be made.
#[verifier::external_body]
fn new_h264_decoder() -> (r: Result<openh264::decoder::Decoder, String>)
{
    openh264::decoder::Decoder::new().map_err(|e| e.to_string())
}

/// Relies on openh264's Decoder::decode and DecodedYUV's RGB conversion: one
/// access unit in, at most one picture out, as an interleaved buffer of
/// exactly `width * height * 3` bytes. The decoder is stateful, so nothing
/// more is promised of which units yield pictures.
#[verifier::external_body]
fn decode_unit(dec: &mut openh264::decoder::Decoder, unit: &Vec<u8>) -> (r: Result<
    Option<(usize, usize, Vec<u8>)>,
    String,
>)
    ensures
        r matches Ok(f) ==> (f matches Some(p) ==> p.2@.len() == 3 * p.0 * p.1),
{
    let yuv = match dec.decode(unit.as_slice()) {
        Ok(Some(y)) => y,
        Ok(None) => return Ok(None),
        Err(e) => return Err(e.to_string()),
    };
    let (w, h) = yuv.dimensions();
    let mut buf = vec![0u8; yuv.rgb8_len()];
    yuv.write_rgb8(buf.as_mut_slice());
    Ok(Some((w, h, buf)))
}

impl VideoState {
    /// Drains the accumulated stream: brings up a fresh picture decoder,
    /// splits the stream into access units, offers each unit to it, and
    /// names the `k`-th emitted picture by the `k`-th accumulated timestamp.
    /// A unit that yields no picture is skipped; a picture beyond the
    /// accumulated timestamps fails with `Timestamp`; cancellation is polled
    /// once per unit and aborts with `Interrupted`, keeping the frames
    /// already produced out of the result.
    pub fn drain(&self, token: &CancelToken) -> (r: Result<Vec<Frame>, Error>)
        ensures
            r matches Ok(fs) ==> {
                &&& fs@.len() <= self.stamps@.len()
                &&& forall|k: int|
                    0 <= k < fs@.len() ==> (#[trigger] fs@[k]).stamp == self.stamps@[k]
                &&& forall|k: int|
                    0 <= k < fs@.len() ==> (#[trigger] fs@[k]).rgb@.len() == 3 * fs@[k].width
                        * fs@[k].height
            },
            r matches Err(e) ==> (e == Error::Timestamp || e == Error::Interrupted || e matches
                Error::H264(_)),
    {
        let mut dec = match new_h264_decoder() {
            Ok(d) => d,
            Err(s) => {
                return Err(Error::H264(s));
            },
        };
        let units = split_units(&self.cache);
        let mut frames: Vec<Frame> = Vec::new();
        let n = units.len();
        let mut k: usize = 0;
        while k < n
            invariant
                n == units@.len(),
                k <= n,
                frames@.len() <= self.stamps@.len(),
                forall|q: int|
                    0 <= q < frames@.len() ==> (#[trigger] frames@[q]).stamp
                        == self.stamps@[q],
                forall|q: int|
                    0 <= q < frames@.len() ==> (#[trigger] frames@[q]).rgb@.len() == 3
                        * frames@[q].width * frames@[q].height,
            decreases n - k,
        {
            if token.is_cancelled() {
                return Err(Error::Interrupted);
            }
            match decode_unit(&mut dec, &units[k]) {
                Ok(Some((w, h, rgb))) => {
                    if frames.len() >= self.stamps.len() {
                        return Err(Error::Timestamp);
                    }
                    let stamp = self.stamps[frames.len()];
                    frames.push(Frame { stamp, width: w, height: h, rgb });
                },
                Ok(None) => {},
                Err(_) => {},
            }
            k = k + 1;
        }
        Ok(frames)
    }
}

} // verus!
