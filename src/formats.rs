use image::ImageFormat as F;
use vstd::prelude::*;

verus! {

/// The error the image crate reports when it cannot read or decode an image.
#[verifier::external_type_specification]
#[verifier::external_body]
pub struct ExImageError(image::ImageError);

/// An error from the operating system while reading a file.
#[verifier::external_type_specification]
#[verifier::external_body]
pub struct ExIoError(std::io::Error);

/// The image formats the decoder knows. `Unlisted` stands for a format
/// that a later version of the decoder may add.
#[derive(Copy, Clone, Debug, PartialEq, Eq, Structural)]
pub enum Format {
    Png,
    Jpeg,
    Gif,
    WebP,
    Pnm,
    Tiff,
    Tga,
    Dds,
    Bmp,
    Ico,
    Hdr,
    Farbfeld,
    Avif,
    Unlisted,
}

/// The format that the extension of a path names (compared without regard
/// to case), if the decoder knows it.
pub uninterp spec fn path_format_of(path: Seq<char>) -> Option<Format>;

/// The format whose signature the leading bytes of an encoded image match,
/// if any.
pub uninterp spec fn sniffed_format_of(bytes: Seq<u8>) -> Option<Format>;

/// The bytes start with one of the two GIF signatures, `GIF87a` or `GIF89a`.
pub open spec fn has_gif_signature(b: Seq<u8>) -> bool {
    &&& b.len() >= 6
    &&& b[0] == 0x47u8 && b[1] == 0x49u8 && b[2] == 0x46u8 && b[3] == 0x38u8
    &&& (b[4] == 0x37u8 || b[4] == 0x39u8)
    &&& b[5] == 0x61u8
}

/// Relies on `image::ImageFormat::from_path`, which looks the path's
/// extension up in the crate's table of formats; each format maps to the
/// variant of the same name.
#[verifier::external_body]
pub(crate) fn path_format(path: &str) -> (r: Result<Format, image::ImageError>)
    ensures
        r matches Ok(f) ==> path_format_of(path@) == Some(f),
        r is Err ==> path_format_of(path@) is None,
{
    Ok(match F::from_path(path)? {
        F::Png => Format::Png, F::Jpeg => Format::Jpeg, F::Gif => Format::Gif,
        F::WebP => Format::WebP, F::Pnm => Format::Pnm, F::Tiff => Format::Tiff,
        F::Tga => Format::Tga, F::Dds => Format::Dds, F::Bmp => Format::Bmp,
        F::Ico => Format::Ico, F::Hdr => Format::Hdr, F::Farbfeld => Format::Farbfeld,
        F::Avif => Format::Avif, _ => Format::Unlisted,
    })
}

/// Relies on `image::guess_format`, which matches the leading bytes against
/// the crate's table of signatures, first match first, and fails where none
/// matches; `GIF87a` and `GIF89a` are the signatures of GIF, and no
/// earlier signature is a prefix of them. Each format maps to the variant of
/// the same name.
#[verifier::external_body]
pub(crate) fn sniff_format(bytes: &[u8]) -> (r: Result<Format, image::ImageError>)
    ensures
        r matches Ok(f) ==> sniffed_format_of(bytes@) == Some(f),
        r is Err ==> sniffed_format_of(bytes@) is None,
        has_gif_signature(bytes@) ==> (r matches Ok(Format::Gif)),
{
    Ok(match image::guess_format(bytes)? {
        F::Png => Format::Png, F::Jpeg => Format::Jpeg, F::Gif => Format::Gif,
        F::WebP => Format::WebP, F::Pnm => Format::Pnm, F::Tiff => Format::Tiff,
        F::Tga => Format::Tga, F::Dds => Format::Dds, F::Bmp => Format::Bmp,
        F::Ico => Format::Ico, F::Hdr => Format::Hdr, F::Farbfeld => Format::Farbfeld,
        F::Avif => Format::Avif, _ => Format::Unlisted,
    })
}

} // verus!
