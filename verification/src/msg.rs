//! Typed message records carried by the pipeline, mirroring the small, fixed
//! set of sensor schemas the extractor understands.
//!
//! Floating-point sample values never appear here: where the wire format
//! carries IEEE-754 data, the records hold the raw bit patterns as unsigned
//! integers, and presentation layers reinterpret them.

use vstd::prelude::*;

verus! {

/// A point in time: seconds since the epoch plus a nanosecond part.
/// `nanosec` is only meaningful in `[0, 1_000_000_000)`.
#[derive(Debug, Clone, Copy, PartialEq, Eq, Structural)]
pub struct Time {
    pub sec: i32,
    pub nanosec: u32,
}

/// A span between two points in time, in the same two-part encoding.
#[derive(Debug, Clone, Copy, PartialEq, Eq, Structural)]
pub struct Duration {
    pub sec: i32,
    pub nanosec: u32,
}

/// Abstract value of a [`Header`].
pub struct HeaderView {
    pub stamp: Time,
    pub frame_id: Seq<char>,
}

/// Standard metadata carried by every sensor record: acquisition time and the
/// coordinate frame the data is expressed in.
#[derive(Debug, Clone)]
pub struct Header {
    pub stamp: Time,
    pub frame_id: String,
}

impl View for Header {
    type V = HeaderView;

    open spec fn view(&self) -> HeaderView {
        HeaderView { stamp: self.stamp, frame_id: self.frame_id@ }
    }
}

/// Abstract value of a [`CompressedImage`].
pub struct CompressedImageView {
    pub header: HeaderView,
    pub format: Seq<char>,
    pub data: Seq<u8>,
}

/// One coded picture (for example one H.264 access unit) or a still-image
/// codec payload, together with its header and a format tag.
#[derive(Debug, Clone)]
pub struct CompressedImage {
    pub header: Header,
    pub format: String,
    pub data: Vec<u8>,
}

impl View for CompressedImage {
    type V = CompressedImageView;

    open spec fn view(&self) -> CompressedImageView {
        CompressedImageView { header: self.header@, format: self.format@, data: self.data@ }
    }
}

impl CompressedImage {
    pub fn new(header: Header, format: String, data: Vec<u8>) -> (r: Self)
        ensures
            r@.header == header@,
            r@.format == format@,
            r@.data == data@,
    {
        CompressedImage { header, format, data }
    }

    pub fn name() -> (r: &'static str)
        ensures
            r@ == "CompressedImage"@,
    {
        "CompressedImage"
    }
}

/// Abstract value of an [`Image`].
pub struct ImageView {
    pub header: HeaderView,
    pub height: u32,
    pub width: u32,
    pub encoding: Seq<char>,
    pub is_bigendian: u8,
    pub step: u32,
    pub data: Seq<u8>,
}

/// An uncompressed image. `(0, 0)` is the top-left corner; `step` is the full
/// row stride in bytes, so a well-formed image holds at least `step * height`
/// bytes of pixel data.
#[derive(Debug, Clone)]
pub struct Image {
    pub header: Header,
    pub height: u32,
    pub width: u32,
    pub encoding: String,
    pub is_bigendian: u8,
    pub step: u32,
    pub data: Vec<u8>,
}

impl View for Image {
    type V = ImageView;

    open spec fn view(&self) -> ImageView {
        ImageView {
            header: self.header@,
            height: self.height,
            width: self.width,
            encoding: self.encoding@,
            is_bigendian: self.is_bigendian,
            step: self.step,
            data: self.data@,
        }
    }
}

/// The row stride covers every pixel row of the data blob.
pub open spec fn image_wf(v: ImageView) -> bool {
    v.data.len() >= v.step * v.height
}

impl Image {
    /// The structural invariant, read off the abstract value.
    pub open spec fn wf(self) -> bool {
        image_wf(self@)
    }

    pub fn new(
        header: Header,
        height: u32,
        width: u32,
        encoding: String,
        is_bigendian: u8,
        step: u32,
        data: Vec<u8>,
    ) -> (r: Self)
        requires
            data@.len() >= step * height,
        ensures
            r.wf(),
            r@.header == header@,
            r@.height == height,
            r@.width == width,
            r@.encoding == encoding@,
            r@.is_bigendian == is_bigendian,
            r@.step == step,
            r@.data == data@,
    {
        Image { header, height, width, encoding, is_bigendian, step, data }
    }

    pub fn name() -> (r: &'static str)
        ensures
            r@ == "sensor_msgs/Image"@,
    {
        "sensor_msgs/Image"
    }

    /// The pixel-row count of the luma plane when the chroma planes are
    /// subsampled 2:1 in both axes and packed below it: two thirds of the
    /// blob's row count, rounded down.
    pub fn chroma_packed_rgb_height(&self) -> (r: u32)
        ensures
            r == (2 * self.height as int) / 3,
    {
        ((self.height as u64 * 2) / 3) as u32
    }
}

} // verus!
