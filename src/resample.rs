use vstd::prelude::*;

verus! {

/// The RGBA bytes that `image::imageops::resize` with the triangle filter
/// produces from a `width × height` RGBA image resampled to
/// `new_width × new_height`.
pub uninterp spec fn triangle_resized(
    pixels: Seq<u8>,
    width: nat,
    height: nat,
    new_width: nat,
    new_height: nat,
) -> Seq<u8>;

/// Relies on `image::imageops::resize` with `FilterType::Triangle`: its
/// result is an image of exactly the requested size, computed from the
/// source pixels and the sizes alone. `ImageBuffer::from_raw` accepts the
/// buffer since it holds four bytes per pixel, and `into_raw` hands the
/// result's bytes back. The resampler reads source rows and columns, so the
/// source must not be empty, and it allocates a `width × new_height`
/// intermediate image and the `new_width × new_height` result.
#[verifier::external_body]
pub(crate) fn resize_triangle(
    pixels: Vec<u8>,
    width: u32,
    height: u32,
    new_width: u32,
    new_height: u32,
) -> (r: Vec<u8>)
    requires
        pixels@.len() == width * height * 4,
        width > 0,
        height > 0,
        width * new_height * 4 <= usize::MAX,
        new_width * new_height * 4 <= usize::MAX,
    ensures
        r@ == triangle_resized(pixels@, width as nat, height as nat, new_width as nat, new_height as nat),
        r@.len() == new_width * new_height * 4,
{
    let source = image::RgbaImage::from_raw(width, height, pixels).unwrap();
    image::imageops::resize(&source, new_width, new_height, image::imageops::FilterType::Triangle).into_raw()
}

} // verus!
