use vstd::prelude::*;

verus! {

/// An in-memory GIF stream being written. Verus cannot declare
/// `gif::Encoder<W>` itself (its `W: std::io::Write` bound is refused), so
/// the encoder is held here, opaque, and reached only through the functions
/// below.
#[verifier::external_body]
pub struct GifStream {
    encoder: gif::Encoder<Vec<u8>>,
}

#[verifier::external_type_specification]
#[verifier::external_body]
pub struct ExGifEncodingError(gif::EncodingError);

/// The bytes written to a stream so far.
pub uninterp spec fn gif_written(stream: GifStream) -> Seq<u8>;

/// The bytes `gif::Encoder::write_frame` appends for the frame that
/// `gif::Frame::from_rgba` builds from `width × height` RGBA bytes, shown
/// for `delay` hundredths of a second.
pub uninterp spec fn gif_frame_block(width: nat, height: nat, delay: nat, pixels: Seq<u8>) -> Seq<u8>;

/// A 16-bit value, least significant byte first.
pub open spec fn le16(v: nat) -> Seq<u8> {
    seq![(v % 256) as u8, (v / 256 % 256) as u8]
}

/// The start of a GIF file without a global palette: the signature
/// `GIF89a`, the logical screen descriptor (size, flags `0x80`, background
/// index and aspect ratio zero) and the two empty entries of the smallest
/// color table.
pub open spec fn gif_screen(width: nat, height: nat) -> Seq<u8> {
    seq![0x47u8, 0x49, 0x46, 0x38, 0x39, 0x61] + le16(width) + le16(height) + seq![
        0x80u8,
        0,
        0,
        0,
        0,
        0,
        0,
        0,
        0,
    ]
}

/// The application extension `NETSCAPE2.0` with a repetition count of
/// zero, which makes the animation loop forever.
pub open spec fn gif_loop_forever_block() -> Seq<u8> {
    seq![0x21u8, 0xff, 0x0b, 0x4e, 0x45, 0x54, 0x53, 0x43, 0x41, 0x50, 0x45, 0x32, 0x2e, 0x30, 0x03, 0x01, 0x00, 0x00, 0x00]
}

/// The byte that ends a GIF file.
pub open spec fn gif_trailer() -> Seq<u8> {
    seq![0x3bu8]
}

/// Relies on `gif::Encoder::new`: with an empty global palette and a
/// `Vec` as writer it cannot fail, and it writes the signature, the screen
/// descriptor and the padding of the empty color table.
#[verifier::external_body]
pub(crate) fn gif_start(width: u16, height: u16) -> (r: Result<GifStream, gif::EncodingError>)
    ensures
        r is Ok,
        r is Ok ==> gif_written(r->Ok_0) == gif_screen(width as nat, height as nat),
{
    gif::Encoder::new(Vec::new(), width, height, &[]).map(|encoder| GifStream { encoder })
}

/// Relies on `gif::Encoder::set_repeat` with `Repeat::Infinite`: writing
/// into a `Vec` cannot fail, and it appends the looping extension.
#[verifier::external_body]
pub(crate) fn gif_loop_forever(stream: &mut GifStream) -> (r: Result<(), gif::EncodingError>)
    ensures
        r is Ok,
        gif_written(*final(stream)) == gif_written(*old(stream)) + gif_loop_forever_block(),
{
    stream.encoder.set_repeat(gif::Repeat::Infinite)
}

/// Relies on `gif::Frame::from_rgba` (which panics unless there are four
/// bytes per pixel), the public `gif::Frame::delay` field and
/// `gif::Encoder::write_frame`. The frame is appended when the call
/// succeeds; it fails only when the buffer for the compressed image cannot
/// be reserved.
#[verifier::external_body]
pub(crate) fn gif_write_rgba_frame(
    stream: &mut GifStream,
    width: u16,
    height: u16,
    delay: u16,
    pixels: Vec<u8>,
) -> (r: Result<(), gif::EncodingError>)
    requires
        pixels@.len() == width * height * 4,
    ensures
        r is Ok ==> gif_written(*final(stream)) == gif_written(*old(stream)) + gif_frame_block(
            width as nat,
            height as nat,
            delay as nat,
            pixels@,
        ),
{
    let mut pixels = pixels;
    let mut frame = gif::Frame::from_rgba(width, height, &mut pixels);
    frame.delay = delay;
    stream.encoder.write_frame(&frame)
}

/// Relies on `gif::Encoder::into_inner`: writing the trailer into a `Vec`
/// cannot fail, and the bytes written come back.
#[verifier::external_body]
pub(crate) fn gif_finish(stream: GifStream) -> (r: Result<Vec<u8>, gif::EncodingError>)
    ensures
        r is Ok,
        r is Ok ==> r->Ok_0@ == gif_written(stream) + gif_trailer(),
{
    stream.encoder.into_inner().map_err(gif::EncodingError::from)
}

} // verus!
