//! The codec layer: payload decompression and deserialization of the fixed,
//! field-sequential binary record encoding used for message payloads.
//!
//! A payload opens with a four-byte encapsulation header, which is skipped.
//! After it, fields follow in declaration order with no tags: fixed-width
//! integers are aligned to their size (relative to the end of the header) and
//! read in the platform's native little-endian order — no byte-order
//! negotiation is performed at run time; strings are a 32-bit length, the
//! text bytes, and one terminating NUL, all counted by the length; byte blobs
//! are a 32-bit length followed by raw bytes; a sequence is a 32-bit element
//! count followed by its elements.

use vstd::prelude::*;

use crate::errors::Error;
use crate::msg::{CompressedImage, CompressedImageView, Header, HeaderView, Image, ImageView, Time};
use crate::points::{PointCloud2, PointCloud2View, PointField, PointFieldView};
use crate::wire::{as_signed32, le32, read_u32_le, signed32_of};
use vstd::utf8::{decode_utf8, valid_utf8};

verus! {

/// The magic number that opens a zstd-compressed payload.
pub open spec fn has_zstd_magic(p: Seq<u8>) -> bool {
    p.len() >= 4 && p[0] == 0x28u8 && p[1] == 0xb5u8 && p[2] == 0x2fu8 && p[3] == 0xfdu8
}

/// Whether streaming decompression of `c` runs to completion.
pub uninterp spec fn zstd_ok(c: Seq<u8>) -> bool;

/// The bytes that streaming decompression of `c` yields when it succeeds.
pub uninterp spec fn zstd_inflate(c: Seq<u8>) -> Seq<u8>;

/// Relies on zstd::stream::decode_all: decompresses a complete compressed
/// stream from the input bytes; the outcome is a function of the bytes alone.
#[verifier::external_body]
fn zstd_decode(data: &Vec<u8>) -> (r: Result<Vec<u8>, String>)
    ensures
        r is Ok <==> zstd_ok(data@),
        r matches Ok(v) ==> v@ == zstd_inflate(data@),
{
    match zstd::stream::decode_all(data.as_slice()) {
        Ok(v) => Ok(v),
        Err(e) => Err(e.to_string()),
    }
}

/// The outcome of [`decompress`]: payloads that do not open with the magic
/// number pass through unchanged; those that do are inflated, and `None`
/// stands for a decompression failure.
pub open spec fn decompressed(p: Seq<u8>) -> Option<Seq<u8>> {
    if !has_zstd_magic(p) {
        Some(p)
    } else if zstd_ok(p) {
        Some(zstd_inflate(p))
    } else {
        None
    }
}

/// Inspects the payload's first bytes for the compression magic number: if
/// present, runs streaming decompression to completion; if absent, returns
/// the payload unchanged.
pub fn decompress(payload: &Vec<u8>) -> (r: Result<Vec<u8>, Error>)
    ensures
        r matches Ok(v) ==> decompressed(payload@) == Some(v@),
        r matches Err(e) ==> decompressed(payload@) is None && e matches Error::Decompress(_),
{
    let magic = payload.len() >= 4 && payload[0] == 0x28 && payload[1] == 0xb5
        && payload[2] == 0x2f && payload[3] == 0xfd;
    if !magic {
        Ok(payload.clone())
    } else {
        match zstd_decode(payload) {
            Ok(v) => Ok(v),
            Err(e) => Err(Error::Decompress(e)),
        }
    }
}

/// Relies on String::from_utf8: succeeds exactly on valid UTF-8 and yields
/// the decoded text.
#[verifier::external_body]
fn string_from_utf8(bytes: Vec<u8>) -> (r: Option<String>)
    ensures
        r is Some <==> valid_utf8(bytes@),
        r matches Some(s) ==> s@ == decode_utf8(bytes@),
{
    String::from_utf8(bytes).ok()
}

/// Copies `s[start .. end]` into a fresh vector.
fn copy_range(s: &Vec<u8>, start: usize, end: usize) -> (r: Vec<u8>)
    requires
        start <= end <= s.len(),
    ensures
        r@ == s@.subrange(start as int, end as int),
{
    let mut r: Vec<u8> = Vec::new();
    let mut i: usize = start;
    while i < end
        invariant
            start <= i <= end <= s.len(),
            r@ == s@.subrange(start as int, i as int),
        decreases end - i,
    {
        r.push(s[i]);
        i = i + 1;
    }
    proof {
        assert(r@ =~= s@.subrange(start as int, end as int));
    }
    r
}

/// The read position advanced to the next 4-byte boundary, counted from the
/// end of the encapsulation header.
pub open spec fn align4(pos: int) -> int
    recommends
        pos >= 4,
{
    let off = (pos - 4) % 4;
    if off == 0 {
        pos
    } else {
        pos + (4 - off)
    }
}

/// A 32-bit unsigned field read at the next aligned position.
pub open spec fn parse_u32(s: Seq<u8>, pos: int) -> Option<(u32, int)>
    recommends
        pos >= 4,
{
    let p = align4(pos);
    if p + 4 <= s.len() {
        Some((le32(s, p) as u32, p + 4))
    } else {
        None
    }
}

/// A 32-bit signed field read at the next aligned position.
pub open spec fn parse_i32(s: Seq<u8>, pos: int) -> Option<(i32, int)>
    recommends
        pos >= 4,
{
    let p = align4(pos);
    if p + 4 <= s.len() {
        Some((as_signed32(le32(s, p)) as i32, p + 4))
    } else {
        None
    }
}

/// An 8-bit field, never padded.
pub open spec fn parse_u8(s: Seq<u8>, pos: int) -> Option<(u8, int)> {
    if pos + 1 <= s.len() {
        Some((s[pos], pos + 1))
    } else {
        None
    }
}

/// A string field: a 32-bit length counting the text and one trailing NUL,
/// then the bytes. Fails on a length past the end or on invalid text bytes.
pub open spec fn parse_string(s: Seq<u8>, pos: int) -> Option<(Seq<char>, int)>
    recommends
        pos >= 4,
{
    match parse_u32(s, pos) {
        None => None,
        Some((n, p)) => if p + n <= s.len() {
            let content = if n == 0 {
                Seq::<u8>::empty()
            } else {
                s.subrange(p, p + n - 1)
            };
            if valid_utf8(content) {
                Some((decode_utf8(content), p + n))
            } else {
                None
            }
        } else {
            None
        },
    }
}

/// A byte-blob field: a 32-bit length, then that many raw bytes.
pub open spec fn parse_bytes(s: Seq<u8>, pos: int) -> Option<(Seq<u8>, int)>
    recommends
        pos >= 4,
{
    match parse_u32(s, pos) {
        None => None,
        Some((n, p)) => if p + n <= s.len() {
            Some((s.subrange(p, p + n), p + n))
        } else {
            None
        },
    }
}

/// Advances `pos` to the next 4-byte boundary, failing if that leaves the
/// buffer (in which case any following aligned read fails as well).
fn take_align4(s: &Vec<u8>, pos: usize) -> (r: Result<usize, Error>)
    requires
        4 <= pos <= s.len(),
    ensures
        r matches Ok(p) ==> p == align4(pos as int) && pos <= p <= s.len(),
        r is Err ==> align4(pos as int) > s@.len(),
        r matches Err(e) ==> e == Error::Codec,
{
    let off = (pos - 4) % 4;
    if off == 0 {
        Ok(pos)
    } else {
        let pad = 4 - off;
        if pad <= s.len() - pos {
            Ok(pos + pad)
        } else {
            Err(Error::Codec)
        }
    }
}

/// Reads an aligned 32-bit unsigned field, advancing the position.
fn take_u32(s: &Vec<u8>, pos: usize) -> (r: Result<(u32, usize), Error>)
    requires
        4 <= pos <= s.len(),
    ensures
        r matches Ok(v) ==> parse_u32(s@, pos as int) == Some((v.0, v.1 as int)) && pos <= v.1
            <= s.len(),
        r is Err ==> parse_u32(s@, pos as int) is None,
        r matches Err(e) ==> e == Error::Codec,
{
    let p = match take_align4(s, pos) {
        Ok(p) => p,
        Err(e) => {
            return Err(e);
        },
    };
    if s.len() - p >= 4 {
        Ok((read_u32_le(s, p), p + 4))
    } else {
        Err(Error::Codec)
    }
}

/// Reads an aligned 32-bit signed field, advancing the position.
fn take_i32(s: &Vec<u8>, pos: usize) -> (r: Result<(i32, usize), Error>)
    requires
        4 <= pos <= s.len(),
    ensures
        r matches Ok(v) ==> parse_i32(s@, pos as int) == Some((v.0, v.1 as int)) && pos <= v.1
            <= s.len(),
        r is Err ==> parse_i32(s@, pos as int) is None,
        r matches Err(e) ==> e == Error::Codec,
{
    match take_u32(s, pos) {
        Ok((v, p)) => Ok((signed32_of(v), p)),
        Err(e) => Err(e),
    }
}

/// Reads an 8-bit field, advancing the position.
fn take_u8(s: &Vec<u8>, pos: usize) -> (r: Result<(u8, usize), Error>)
    requires
        pos <= s.len(),
    ensures
        r matches Ok(v) ==> parse_u8(s@, pos as int) == Some((v.0, v.1 as int)) && pos <= v.1
            <= s.len(),
        r is Err ==> parse_u8(s@, pos as int) is None,
        r matches Err(e) ==> e == Error::Codec,
{
    if pos < s.len() {
        Ok((s[pos], pos + 1))
    } else {
        Err(Error::Codec)
    }
}

/// Reads a string field, advancing the position.
fn take_string(s: &Vec<u8>, pos: usize) -> (r: Result<(String, usize), Error>)
    requires
        4 <= pos <= s.len(),
    ensures
        r matches Ok(v) ==> parse_string(s@, pos as int) matches Some(w) && v.0@ == w.0 && v.1
            == w.1 && pos <= v.1 <= s.len(),
        r is Err ==> parse_string(s@, pos as int) is None,
        r matches Err(e) ==> e == Error::Codec,
{
    let (n, p) = match take_u32(s, pos) {
        Ok(v) => v,
        Err(e) => {
            return Err(e);
        },
    };
    if n as usize > s.len() - p {
        return Err(Error::Codec);
    }
    let end = p + n as usize;
    let content = if n == 0 {
        Vec::new()
    } else {
        copy_range(s, p, end - 1)
    };
    proof {
        if n == 0 {
            assert(content@ =~= Seq::<u8>::empty());
        }
    }
    match string_from_utf8(content) {
        Some(text) => Ok((text, end)),
        None => Err(Error::Codec),
    }
}

/// Reads a byte-blob field, advancing the position.
fn take_bytes(s: &Vec<u8>, pos: usize) -> (r: Result<(Vec<u8>, usize), Error>)
    requires
        4 <= pos <= s.len(),
    ensures
        r matches Ok(v) ==> parse_bytes(s@, pos as int) matches Some(w) && v.0@ == w.0 && v.1
            == w.1 && pos <= v.1 <= s.len(),
        r is Err ==> parse_bytes(s@, pos as int) is None,
        r matches Err(e) ==> e == Error::Codec,
{
    let (n, p) = match take_u32(s, pos) {
        Ok(v) => v,
        Err(e) => {
            return Err(e);
        },
    };
    if n as usize > s.len() - p {
        return Err(Error::Codec);
    }
    let end = p + n as usize;
    let content = copy_range(s, p, end);
    Ok((content, end))
}

/// A two-part timestamp: signed seconds, then unsigned nanoseconds.
pub open spec fn parse_time(s: Seq<u8>, pos: int) -> Option<(Time, int)>
    recommends
        pos >= 4,
{
    match parse_i32(s, pos) {
        None => None,
        Some((sec, p)) => match parse_u32(s, p) {
            None => None,
            Some((nanosec, p2)) => Some((Time { sec, nanosec }, p2)),
        },
    }
}

/// A record header: a timestamp, then the frame-id string.
pub open spec fn parse_header(s: Seq<u8>, pos: int) -> Option<(HeaderView, int)>
    recommends
        pos >= 4,
{
    match parse_time(s, pos) {
        None => None,
        Some((stamp, p)) => match parse_string(s, p) {
            None => None,
            Some((frame_id, p2)) => Some((HeaderView { stamp, frame_id }, p2)),
        },
    }
}

/// A whole compressed-image payload: encapsulation header, record header,
/// format string, data blob. Trailing bytes are ignored.
pub open spec fn parse_compressed_image(s: Seq<u8>) -> Option<CompressedImageView> {
    if s.len() < 4 {
        None
    } else {
        match parse_header(s, 4) {
            None => None,
            Some((header, p)) => match parse_string(s, p) {
                None => None,
                Some((format, p2)) => match parse_bytes(s, p2) {
                    None => None,
                    Some((data, _)) => Some(CompressedImageView { header, format, data }),
                },
            },
        }
    }
}

/// A whole raw-image payload: encapsulation header, record header, height,
/// width, encoding string, endianness flag, row stride, data blob.
pub open spec fn parse_image(s: Seq<u8>) -> Option<ImageView> {
    if s.len() < 4 {
        None
    } else {
        match parse_header(s, 4) {
            None => None,
            Some((header, p)) => match parse_u32(s, p) {
                None => None,
                Some((height, p2)) => match parse_u32(s, p2) {
                    None => None,
                    Some((width, p3)) => match parse_string(s, p3) {
                        None => None,
                        Some((encoding, p4)) => match parse_u8(s, p4) {
                            None => None,
                            Some((is_bigendian, p5)) => match parse_u32(s, p5) {
                                None => None,
                                Some((step, p6)) => match parse_bytes(s, p6) {
                                    None => None,
                                    Some((data, _)) => Some(
                                        ImageView {
                                            header,
                                            height,
                                            width,
                                            encoding,
                                            is_bigendian,
                                            step,
                                            data,
                                        },
                                    ),
                                },
                            },
                        },
                    },
                },
            },
        }
    }
}

/// One point-field descriptor: name, offset, datatype code, element count.
pub open spec fn parse_pointfield(s: Seq<u8>, pos: int) -> Option<(PointFieldView, int)>
    recommends
        pos >= 4,
{
    match parse_string(s, pos) {
        None => None,
        Some((name, p)) => match parse_u32(s, p) {
            None => None,
            Some((offset, p2)) => match parse_u8(s, p2) {
                None => None,
                Some((datatype, p3)) => match parse_u32(s, p3) {
                    None => None,
                    Some((count, p4)) => Some(
                        (PointFieldView { name, offset, datatype, count }, p4),
                    ),
                },
            },
        },
    }
}

/// `n` consecutive point-field descriptors.
pub open spec fn parse_fields(s: Seq<u8>, pos: int, n: nat) -> Option<(Seq<PointFieldView>, int)>
    recommends
        pos >= 4,
    decreases n,
{
    if n == 0 {
        Some((Seq::empty(), pos))
    } else {
        match parse_pointfield(s, pos) {
            None => None,
            Some((f, p)) => match parse_fields(s, p, (n - 1) as nat) {
                None => None,
                Some((fs, e)) => Some((seq![f] + fs, e)),
            },
        }
    }
}

/// A whole point-cloud payload: encapsulation header, record header, height,
/// width, the field-descriptor sequence, endianness flag, point stride, row
/// stride, data blob, density flag.
pub open spec fn parse_pointcloud(s: Seq<u8>) -> Option<PointCloud2View> {
    if s.len() < 4 {
        None
    } else {
        match parse_header(s, 4) {
            None => None,
            Some((header, p)) => match parse_u32(s, p) {
                None => None,
                Some((height, p2)) => match parse_u32(s, p2) {
                    None => None,
                    Some((width, p3)) => match parse_u32(s, p3) {
                        None => None,
                        Some((nfields, p4)) => match parse_fields(s, p4, nfields as nat) {
                            None => None,
                            Some((fields, p5)) => match parse_u8(s, p5) {
                                None => None,
                                Some((is_bigendian, p6)) => match parse_u32(s, p6) {
                                    None => None,
                                    Some((point_step, p7)) => match parse_u32(s, p7) {
                                        None => None,
                                        Some((row_step, p8)) => match parse_bytes(s, p8) {
                                            None => None,
                                            Some((data, p9)) => match parse_u8(s, p9) {
                                                None => None,
                                                Some((is_dense, _)) => Some(
                                                    PointCloud2View {
                                                        header,
                                                        height,
                                                        width,
                                                        fields,
                                                        is_bigendian,
                                                        point_step,
                                                        row_step,
                                                        data,
                                                        is_dense,
                                                    },
                                                ),
                                            },
                                        },
                                    },
                                },
                            },
                        },
                    },
                },
            },
        }
    }
}

/// A whole timestamp payload: encapsulation header, then one timestamp.
pub open spec fn parse_time_record(s: Seq<u8>) -> Option<Time> {
    if s.len() < 4 {
        None
    } else {
        match parse_time(s, 4) {
            None => None,
            Some((t, _)) => Some(t),
        }
    }
}

/// Reads a timestamp, advancing the position.
fn take_time(s: &Vec<u8>, pos: usize) -> (r: Result<(Time, usize), Error>)
    requires
        4 <= pos <= s.len(),
    ensures
        r matches Ok(v) ==> parse_time(s@, pos as int) == Some((v.0, v.1 as int)) && pos <= v.1
            <= s.len(),
        r is Err ==> parse_time(s@, pos as int) is None,
        r matches Err(e) ==> e == Error::Codec,
{
    let (sec, p) = match take_i32(s, pos) {
        Ok(v) => v,
        Err(e) => {
            return Err(e);
        },
    };
    let (nanosec, p2) = match take_u32(s, p) {
        Ok(v) => v,
        Err(e) => {
            return Err(e);
        },
    };
    Ok((Time { sec, nanosec }, p2))
}

/// Reads a record header, advancing the position.
fn take_header(s: &Vec<u8>, pos: usize) -> (r: Result<(Header, usize), Error>)
    requires
        4 <= pos <= s.len(),
    ensures
        r matches Ok(v) ==> parse_header(s@, pos as int) matches Some(w) && v.0@ == w.0 && v.1
            == w.1 && pos <= v.1 <= s.len(),
        r is Err ==> parse_header(s@, pos as int) is None,
        r matches Err(e) ==> e == Error::Codec,
{
    let (stamp, p) = match take_time(s, pos) {
        Ok(v) => v,
        Err(e) => {
            return Err(e);
        },
    };
    let (frame_id, p2) = match take_string(s, p) {
        Ok(v) => v,
        Err(e) => {
            return Err(e);
        },
    };
    Ok((Header { stamp, frame_id }, p2))
}

/// Deserializes a timestamp record from a decompressed payload.
pub fn deserialize_time(buf: &Vec<u8>) -> (r: Result<Time, Error>)
    ensures
        r matches Ok(t) ==> parse_time_record(buf@) == Some(t),
        r is Err ==> parse_time_record(buf@) is None,
        r matches Err(e) ==> e == Error::Codec,
{
    if buf.len() < 4 {
        return Err(Error::Codec);
    }
    match take_time(buf, 4) {
        Ok((t, _)) => Ok(t),
        Err(e) => Err(e),
    }
}

/// Deserializes a compressed-image record from a decompressed payload.
pub fn deserialize_compressed_image(buf: &Vec<u8>) -> (r: Result<CompressedImage, Error>)
    ensures
        r matches Ok(m) ==> parse_compressed_image(buf@) == Some(m@),
        r is Err ==> parse_compressed_image(buf@) is None,
        r matches Err(e) ==> e == Error::Codec,
{
    if buf.len() < 4 {
        return Err(Error::Codec);
    }
    let (header, p) = match take_header(buf, 4) {
        Ok(v) => v,
        Err(e) => {
            return Err(e);
        },
    };
    let (format, p2) = match take_string(buf, p) {
        Ok(v) => v,
        Err(e) => {
            return Err(e);
        },
    };
    let (data, _) = match take_bytes(buf, p2) {
        Ok(v) => v,
        Err(e) => {
            return Err(e);
        },
    };
    Ok(CompressedImage { header, format, data })
}

/// Deserializes a raw-image record from a decompressed payload.
pub fn deserialize_image(buf: &Vec<u8>) -> (r: Result<Image, Error>)
    ensures
        r matches Ok(m) ==> parse_image(buf@) == Some(m@),
        r is Err ==> parse_image(buf@) is None,
        r matches Err(e) ==> e == Error::Codec,
{
    if buf.len() < 4 {
        return Err(Error::Codec);
    }
    let (header, p) = match take_header(buf, 4) {
        Ok(v) => v,
        Err(e) => {
            return Err(e);
        },
    };
    let (height, p2) = match take_u32(buf, p) {
        Ok(v) => v,
        Err(e) => {
            return Err(e);
        },
    };
    let (width, p3) = match take_u32(buf, p2) {
        Ok(v) => v,
        Err(e) => {
            return Err(e);
        },
    };
    let (encoding, p4) = match take_string(buf, p3) {
        Ok(v) => v,
        Err(e) => {
            return Err(e);
        },
    };
    let (is_bigendian, p5) = match take_u8(buf, p4) {
        Ok(v) => v,
        Err(e) => {
            return Err(e);
        },
    };
    let (step, p6) = match take_u32(buf, p5) {
        Ok(v) => v,
        Err(e) => {
            return Err(e);
        },
    };
    let (data, _) = match take_bytes(buf, p6) {
        Ok(v) => v,
        Err(e) => {
            return Err(e);
        },
    };
    Ok(Image { header, height, width, encoding, is_bigendian, step, data })
}

/// Reads one point-field descriptor, advancing the position.
fn take_pointfield(s: &Vec<u8>, pos: usize) -> (r: Result<(PointField, usize), Error>)
    requires
        4 <= pos <= s.len(),
    ensures
        r matches Ok(v) ==> parse_pointfield(s@, pos as int) matches Some(w) && v.0@ == w.0
            && v.1 == w.1 && pos <= v.1 <= s.len(),
        r is Err ==> parse_pointfield(s@, pos as int) is None,
        r matches Err(e) ==> e == Error::Codec,
{
    let (name, p) = match take_string(s, pos) {
        Ok(v) => v,
        Err(e) => {
            return Err(e);
        },
    };
    let (offset, p2) = match take_u32(s, p) {
        Ok(v) => v,
        Err(e) => {
            return Err(e);
        },
    };
    let (datatype, p3) = match take_u8(s, p2) {
        Ok(v) => v,
        Err(e) => {
            return Err(e);
        },
    };
    let (count, p4) = match take_u32(s, p3) {
        Ok(v) => v,
        Err(e) => {
            return Err(e);
        },
    };
    Ok((PointField { name, offset, datatype, count }, p4))
}

/// Reads `n` point-field descriptors, advancing the position.
fn take_fields(s: &Vec<u8>, pos: usize, n: u32) -> (r: Result<(Vec<PointField>, usize), Error>)
    requires
        4 <= pos <= s.len(),
    ensures
        r matches Ok(v) ==> parse_fields(s@, pos as int, n as nat) matches Some(w) && Seq::new(
            v.0@.len(),
            |i: int| v.0@[i]@,
        ) == w.0 && v.1 == w.1 && pos <= v.1 <= s.len(),
        r is Err ==> parse_fields(s@, pos as int, n as nat) is None,
        r matches Err(e) ==> e == Error::Codec,
{
    let mut out: Vec<PointField> = Vec::new();
    let mut p: usize = pos;
    let mut i: u32 = 0;
    while i < n
        invariant
            4 <= pos <= p <= s.len(),
            i <= n,
            out@.len() == i,
            parse_fields(s@, pos as int, n as nat) == match parse_fields(
                s@,
                p as int,
                (n - i) as nat,
            ) {
                Some((fs, e)) => Some((Seq::new(out@.len(), |j: int| out@[j]@) + fs, e)),
                None => None::<(Seq<PointFieldView>, int)>,
            },
        decreases n - i,
    {
        let ghost prev = Seq::new(out@.len(), |j: int| out@[j]@);
        let (f, p2) = match take_pointfield(s, p) {
            Ok(v) => v,
            Err(e) => {
                return Err(e);
            },
        };
        out.push(f);
        proof {
            let cur = Seq::new(out@.len(), |j: int| out@[j]@);
            assert(cur =~= prev + seq![f@]);
            assert(forall|fs: Seq<PointFieldView>| (prev + (seq![f@] + fs)) =~= (cur + fs));
        }
        p = p2;
        i = i + 1;
    }
    proof {
        let cur = Seq::new(out@.len(), |j: int| out@[j]@);
        assert(parse_fields(s@, p as int, 0) == Some((Seq::<PointFieldView>::empty(), p as int)));
        assert(cur + Seq::<PointFieldView>::empty() =~= cur);
    }
    Ok((out, p))
}

/// Deserializes a point-cloud record from a decompressed payload.
pub fn deserialize_pointcloud(buf: &Vec<u8>) -> (r: Result<PointCloud2, Error>)
    ensures
        r matches Ok(m) ==> parse_pointcloud(buf@) == Some(m@),
        r is Err ==> parse_pointcloud(buf@) is None,
        r matches Err(e) ==> e == Error::Codec,
{
    if buf.len() < 4 {
        return Err(Error::Codec);
    }
    let (header, p) = match take_header(buf, 4) {
        Ok(v) => v,
        Err(e) => {
            return Err(e);
        },
    };
    let (height, p2) = match take_u32(buf, p) {
        Ok(v) => v,
        Err(e) => {
            return Err(e);
        },
    };
    let (width, p3) = match take_u32(buf, p2) {
        Ok(v) => v,
        Err(e) => {
            return Err(e);
        },
    };
    let (nfields, p4) = match take_u32(buf, p3) {
        Ok(v) => v,
        Err(e) => {
            return Err(e);
        },
    };
    let (fields, p5) = match take_fields(buf, p4, nfields) {
        Ok(v) => v,
        Err(e) => {
            return Err(e);
        },
    };
    let (is_bigendian, p6) = match take_u8(buf, p5) {
        Ok(v) => v,
        Err(e) => {
            return Err(e);
        },
    };
    let (point_step, p7) = match take_u32(buf, p6) {
        Ok(v) => v,
        Err(e) => {
            return Err(e);
        },
    };
    let (row_step, p8) = match take_u32(buf, p7) {
        Ok(v) => v,
        Err(e) => {
            return Err(e);
        },
    };
    let (data, p9) = match take_bytes(buf, p8) {
        Ok(v) => v,
        Err(e) => {
            return Err(e);
        },
    };
    let (is_dense, _) = match take_u8(buf, p9) {
        Ok(v) => v,
        Err(e) => {
            return Err(e);
        },
    };
    Ok(PointCloud2 {
        header,
        height,
        width,
        fields,
        is_bigendian,
        point_step,
        row_step,
        data,
        is_dense,
    })
}

} // verus!
