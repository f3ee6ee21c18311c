//! The RGBA frame that a field is painted into: an image of the `image`
//! crate, four bytes to a pixel, row after row.

use vstd::prelude::*;

verus! {

/// A frame of the `image` crate, `image::RgbaImage`. What it holds is known
/// to the verifier only through `frame_bytes`, `frame_width` and
/// `frame_height`.
#[verifier::external_body]
pub struct Frame {
    image: image::RgbaImage,
}

/// The bytes of the slice that the frame's image dereferences to, which is
/// the whole of its buffer in the order in which the image stores it.
pub uninterp spec fn frame_bytes(frame: Frame) -> Seq<u8>;

/// What `ImageBuffer::width` returns for the frame: its width in pixels.
pub uninterp spec fn frame_width(frame: Frame) -> u32;

/// What `ImageBuffer::height` returns for the frame: its height in pixels.
pub uninterp spec fn frame_height(frame: Frame) -> u32;

/// The byte at place `k` of a buffer in which every pixel is `(r, g, b, a)`.
pub open spec fn channel_of(r: u8, g: u8, b: u8, a: u8, k: int) -> u8 {
    if k % 4 == 0 {
        r
    } else if k % 4 == 1 {
        g
    } else if k % 4 == 2 {
        b
    } else {
        a
    }
}

/// `ImageBuffer::from_pixel` with the pixel `Rgba([r, g, b, a])`. It takes
/// the length of the buffer as four times the width, times the height, each
/// product checked in `usize`, and panics when one of them overflows or the
/// buffer would be larger than a vector can be, which `requires` leaves out.
/// The image it makes has the width and height asked for and a buffer of
/// exactly four bytes for each pixel, every pixel being the one given.
#[verifier::external_body]
fn image_from_pixel(width: u32, height: u32, r: u8, g: u8, b: u8, a: u8) -> (frame: Frame)
    requires
        4 * width <= usize::MAX,
        4 * width * height <= isize::MAX,
    ensures
        frame_width(frame) == width,
        frame_height(frame) == height,
        frame_bytes(frame).len() == 4 * width * height,
        forall|k: int|
            0 <= k < 4 * width * height ==> #[trigger] frame_bytes(frame)[k] == channel_of(
                r,
                g,
                b,
                a,
                k,
            ),
{
    Frame { image: image::RgbaImage::from_pixel(width, height, image::Rgba([r, g, b, a])) }
}

/// `ImageBuffer::width`: the width that the image was made with.
#[verifier::external_body]
fn image_width(frame: &Frame) -> (width: u32)
    ensures
        width == frame_width(*frame),
{
    frame.image.width()
}

/// `ImageBuffer::height`: the height that the image was made with.
#[verifier::external_body]
fn image_height(frame: &Frame) -> (height: u32)
    ensures
        height == frame_height(*frame),
{
    frame.image.height()
}

/// `Deref::deref` of `ImageBuffer`, which gives its whole buffer as a slice.
#[verifier::external_body]
fn image_bytes(frame: &Frame) -> (bytes: &[u8])
    ensures
        bytes@ == frame_bytes(*frame),
{
    &frame.image
}

/// `DerefMut::deref_mut` of `ImageBuffer`, which gives its whole buffer as a
/// mutable slice, and a write of one byte at place `k` of that slice.
/// Indexing panics beyond the end of the slice, which `requires` leaves out.
/// No other byte changes, and neither does the width or the height.
#[verifier::external_body]
fn image_set_byte(frame: &mut Frame, k: usize, byte: u8)
    requires
        k < frame_bytes(*old(frame)).len(),
    ensures
        frame_bytes(*final(frame)) == frame_bytes(*old(frame)).update(k as int, byte),
        frame_width(*final(frame)) == frame_width(*old(frame)),
        frame_height(*final(frame)) == frame_height(*old(frame)),
{
    let bytes: &mut [u8] = &mut frame.image;
    bytes[k] = byte;
}

impl Frame {
    /// A frame of `width` by `height` opaque black pixels, or `None` when
    /// the bytes of one row do not fit in `usize` or its buffer would be
    /// larger than a vector can be.
    pub fn black(width: u32, height: u32) -> (made: Option<Frame>)
        ensures
            made is Some <==> 4 * width <= usize::MAX && 4 * width * height <= isize::MAX,
            made matches Some(frame) ==> {
                &&& frame_width(frame) == width
                &&& frame_height(frame) == height
                &&& frame_bytes(frame).len() == 4 * width * height
                &&& forall|k: int|
                    0 <= k < 4 * width * height ==> #[trigger] frame_bytes(frame)[k] == (if k % 4
                        == 3 {
                        255u8
                    } else {
                        0u8
                    })
            },
    {
        assert(0 <= width * height <= 0xffff_ffff * 0xffff_ffff) by (nonlinear_arith);
        assert(4 * width * height == 4 * (width * height)) by (nonlinear_arith);
        let pixels: u64 = (width as u64) * (height as u64);
        if width as u64 <= (usize::MAX as u64) / 4 && pixels <= (isize::MAX as u64) / 4 {
            Some(image_from_pixel(width, height, 0, 0, 0, 255))
        } else {
            None
        }
    }

    /// The width of the frame in pixels.
    pub fn width(&self) -> (width: u32)
        ensures
            width == frame_width(*self),
    {
        image_width(self)
    }

    /// The height of the frame in pixels.
    pub fn height(&self) -> (height: u32)
        ensures
            height == frame_height(*self),
    {
        image_height(self)
    }

    /// The number of bytes in the frame's buffer.
    pub fn len(&self) -> (len: usize)
        ensures
            len == frame_bytes(*self).len(),
    {
        image_bytes(self).len()
    }

    /// The frame's buffer.
    pub fn as_bytes(&self) -> (bytes: &[u8])
        ensures
            bytes@ == frame_bytes(*self),
    {
        image_bytes(self)
    }

    /// The byte at place `k` of the frame's buffer, or `None` when the
    /// buffer is no longer than `k`.
    pub fn byte(&self, k: usize) -> (byte: Option<u8>)
        ensures
            byte is Some <==> k < frame_bytes(*self).len(),
            byte matches Some(b) ==> b == frame_bytes(*self)[k as int],
    {
        let bytes = image_bytes(self);
        if k < bytes.len() {
            Some(bytes[k])
        } else {
            None
        }
    }

    /// A copy of the frame's buffer.
    pub fn to_vec(&self) -> (bytes: Vec<u8>)
        ensures
            bytes@ == frame_bytes(*self),
    {
        let held = image_bytes(self);
        let len = held.len();
        let mut bytes: Vec<u8> = Vec::new();
        while bytes.len() < len
            invariant
                held@ == frame_bytes(*self),
                len == held@.len(),
                bytes@.len() <= len,
                forall|k: int| 0 <= k < bytes@.len() ==> bytes@[k] == held@[k],
            decreases len - bytes@.len(),
        {
            let byte = held[bytes.len()];
            bytes.push(byte);
        }
        assert(bytes@ =~= frame_bytes(*self));
        bytes
    }

    /// Writes `byte` at place `k` of the frame's buffer. Returns whether the
    /// buffer has such a place; when it has none, nothing changes.
    pub fn set_byte(&mut self, k: usize, byte: u8) -> (done: bool)
        ensures
            done <==> k < frame_bytes(*old(self)).len(),
            done ==> frame_bytes(*final(self)) == frame_bytes(*old(self)).update(k as int, byte),
            !done ==> frame_bytes(*final(self)) == frame_bytes(*old(self)),
            frame_width(*final(self)) == frame_width(*old(self)),
            frame_height(*final(self)) == frame_height(*old(self)),
    {
        if k < image_bytes(self).len() {
            image_set_byte(self, k, byte);
            true
        } else {
            false
        }
    }
}

} // verus!
