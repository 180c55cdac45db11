//! Reading the frames of an image from its bytes: which decoder runs for
//! which format, and what becomes of the frames read before.
use std::io::Cursor;
use vstd::prelude::*;

use crate::kitty_cmd::Frame;
use image::codecs::gif::GifDecoder;
use image::codecs::png::PngDecoder;
use image::codecs::webp::WebPDecoder;
use image::AnimationDecoder;
use image::ImageFormat as F;
use image::ImageReader;

verus! {

/// The image formats that the image crate knows.
#[derive(Debug, Clone, Copy, PartialEq, Eq, Structural)]
pub enum ImageKind {
    Png,
    Jpeg,
    Gif,
    WebP,
    Pnm,
    Tiff,
    Tga,
    Dds,
    Bmp,
    Ico,
    Hdr,
    OpenExr,
    Farbfeld,
    Avif,
    Qoi,
}

/// A frame as plain values: width, height, delay and RGBA pixels.
pub type FrameView = (u32, u32, i32, Seq<u8>);

/// The frames as plain values.
pub open spec fn frames_view(v: Seq<Frame>) -> Seq<FrameView> {
    v.map_values(|f: Frame| (f.width, f.height, f.delay, f.rgba@))
}

/// The format that the image crate's `guess_format` reads in the first
/// bytes of an image, if it knows them.
pub uninterp spec fn guessed_format(bytes: Seq<u8>) -> Option<ImageKind>;

/// The format that the image crate's `ImageFormat::from_extension` gives a
/// file extension, if any.
pub uninterp spec fn extension_format(ext: Seq<char>) -> Option<ImageKind>;

/// Whether the image crate's PNG decoder finds an animated PNG in the
/// bytes; `None` when it fails.
pub uninterp spec fn png_animated(bytes: Seq<u8>) -> Option<bool>;

/// The frames the image crate's APNG decoder reads; `None` when it fails.
pub uninterp spec fn apng_decoded(bytes: Seq<u8>) -> Option<Seq<FrameView>>;

/// The frames the image crate's GIF decoder reads; `None` when it fails.
pub uninterp spec fn gif_decoded(bytes: Seq<u8>) -> Option<Seq<FrameView>>;

/// The frames the image crate's WebP decoder reads; `None` when it fails.
pub uninterp spec fn webp_decoded(bytes: Seq<u8>) -> Option<Seq<FrameView>>;

/// The one image that the image crate's `ImageReader::decode` reads as
/// RGBA in the bytes taken as format `kind`, as a frame without delay;
/// `None` when it fails.
pub uninterp spec fn still_decoded(bytes: Seq<u8>, kind: ImageKind) -> Option<FrameView>;

/// The image crate's `guess_format`, on the first bytes of an image; its
/// result is named `guessed_format`. (No decoding hooks are registered in
/// this program, so the reader's own guess is this one.)
#[verifier::external_body]
fn guess_format(bytes: &[u8]) -> (r: Option<ImageKind>)
    ensures
        r == guessed_format(bytes@),
{
    let f = image::guess_format(bytes).ok()?;
    Some(match f {
        F::Png => ImageKind::Png, F::Jpeg => ImageKind::Jpeg, F::Gif => ImageKind::Gif, F::WebP => ImageKind::WebP,
        F::Pnm => ImageKind::Pnm, F::Tiff => ImageKind::Tiff, F::Tga => ImageKind::Tga, F::Dds => ImageKind::Dds,
        F::Bmp => ImageKind::Bmp, F::Ico => ImageKind::Ico, F::Hdr => ImageKind::Hdr, F::OpenExr => ImageKind::OpenExr,
        F::Farbfeld => ImageKind::Farbfeld, F::Avif => ImageKind::Avif, F::Qoi => ImageKind::Qoi, _ => return None,
    })
}

/// The image crate's `ImageFormat::from_extension`; its result is named
/// `extension_format`. (The only format it does not give, the deprecated
/// PCX, comes out as none.)
#[verifier::external_body]
fn format_of_extension(ext: &str) -> (r: Option<ImageKind>)
    ensures
        r == extension_format(ext@),
{
    let f = F::from_extension(ext)?;
    Some(match f {
        F::Png => ImageKind::Png, F::Jpeg => ImageKind::Jpeg, F::Gif => ImageKind::Gif, F::WebP => ImageKind::WebP,
        F::Pnm => ImageKind::Pnm, F::Tiff => ImageKind::Tiff, F::Tga => ImageKind::Tga, F::Dds => ImageKind::Dds,
        F::Bmp => ImageKind::Bmp, F::Ico => ImageKind::Ico, F::Hdr => ImageKind::Hdr, F::OpenExr => ImageKind::OpenExr,
        F::Farbfeld => ImageKind::Farbfeld, F::Avif => ImageKind::Avif, F::Qoi => ImageKind::Qoi, _ => return None,
    })
}

/// The image crate's `PngDecoder::is_apng`, after `PngDecoder::new`; named
/// `png_animated`, with the error's message.
#[verifier::external_body]
fn png_is_animated(bytes: &[u8]) -> (r: Result<bool, String>)
    ensures
        match r {
            Ok(b) => png_animated(bytes@) == Some(b),
            Err(_) => png_animated(bytes@) is None,
        },
{
    PngDecoder::new(Cursor::new(bytes)).and_then(|d| d.is_apng()).map_err(|e| e.to_string())
}

/// The frames of the image crate's APNG decoder (`PngDecoder::apng`, then
/// `into_frames`): each frame's size, the numerator of its delay in
/// milliseconds and its pixels; named `apng_decoded`, with the error's
/// message.
#[verifier::external_body]
fn apng_frames(bytes: &[u8]) -> (r: Result<Vec<Frame>, String>)
    ensures
        match r {
            Ok(v) => apng_decoded(bytes@) == Some(frames_view(v@)),
            Err(_) => apng_decoded(bytes@) is None,
        },
{
    let d = PngDecoder::new(Cursor::new(bytes)).and_then(|d| d.apng()).map_err(|e| e.to_string())?;
    d.into_frames().map(|f| f.map(|f| {
        let (width, height) = f.buffer().dimensions();
        Frame { width, height, delay: f.delay().numer_denom_ms().0 as i32, rgba: f.into_buffer().into_raw() }
    })).collect::<Result<Vec<Frame>, _>>().map_err(|e| e.to_string())
}

/// The frames of the image crate's `GifDecoder`, as `apng_frames` gives
/// them; named `gif_decoded`.
#[verifier::external_body]
fn gif_frames(bytes: &[u8]) -> (r: Result<Vec<Frame>, String>)
    ensures
        match r {
            Ok(v) => gif_decoded(bytes@) == Some(frames_view(v@)),
            Err(_) => gif_decoded(bytes@) is None,
        },
{
    let d = GifDecoder::new(Cursor::new(bytes)).map_err(|e| e.to_string())?;
    d.into_frames().map(|f| f.map(|f| {
        let (width, height) = f.buffer().dimensions();
        Frame { width, height, delay: f.delay().numer_denom_ms().0 as i32, rgba: f.into_buffer().into_raw() }
    })).collect::<Result<Vec<Frame>, _>>().map_err(|e| e.to_string())
}

/// The frames of the image crate's `WebPDecoder`, as `apng_frames` gives
/// them; named `webp_decoded`.
#[verifier::external_body]
fn webp_frames(bytes: &[u8]) -> (r: Result<Vec<Frame>, String>)
    ensures
        match r {
            Ok(v) => webp_decoded(bytes@) == Some(frames_view(v@)),
            Err(_) => webp_decoded(bytes@) is None,
        },
{
    let d = WebPDecoder::new(Cursor::new(bytes)).map_err(|e| e.to_string())?;
    d.into_frames().map(|f| f.map(|f| {
        let (width, height) = f.buffer().dimensions();
        Frame { width, height, delay: f.delay().numer_denom_ms().0 as i32, rgba: f.into_buffer().into_raw() }
    })).collect::<Result<Vec<Frame>, _>>().map_err(|e| e.to_string())
}

/// The image crate's `ImageReader::decode` with the format set to `kind`,
/// turned to RGBA as a frame without delay (what `Frame::new` gives);
/// named `still_decoded`, with the error's message.
#[verifier::external_body]
fn decode_still(bytes: &[u8], kind: ImageKind) -> (r: Result<Frame, String>)
    ensures
        match r {
            Ok(f) => still_decoded(bytes@, kind) == Some((f.width, f.height, f.delay, f.rgba@)),
            Err(_) => still_decoded(bytes@, kind) is None,
        },
{
    let f = match kind {
        ImageKind::Png => F::Png, ImageKind::Jpeg => F::Jpeg, ImageKind::Gif => F::Gif, ImageKind::WebP => F::WebP,
        ImageKind::Pnm => F::Pnm, ImageKind::Tiff => F::Tiff, ImageKind::Tga => F::Tga, ImageKind::Dds => F::Dds,
        ImageKind::Bmp => F::Bmp, ImageKind::Ico => F::Ico, ImageKind::Hdr => F::Hdr, ImageKind::OpenExr => F::OpenExr,
        ImageKind::Farbfeld => F::Farbfeld, ImageKind::Avif => F::Avif, ImageKind::Qoi => F::Qoi,
    };
    let b = ImageReader::with_format(Cursor::new(bytes), f).decode().map_err(|e| e.to_string())?.to_rgba8();
    Ok(Frame { width: b.width(), height: b.height(), delay: 0, rgba: b.into_raw() })
}

/// The image crate's `ImageReader::decode` with no format known. Its source
/// refuses to decode without a format (`require_format`), so it always
/// fails; the error's message is what comes back.
#[verifier::external_body]
fn decode_unformatted(bytes: &[u8]) -> (r: Result<Frame, String>)
    ensures
        r is Err,
{
    let b = ImageReader::new(Cursor::new(bytes)).decode().map_err(|e| e.to_string())?.to_rgba8();
    Ok(Frame { width: b.width(), height: b.height(), delay: 0, rgba: b.into_raw() })
}

/// The format an image is read as: the one its first bytes show, else the
/// one its file extension names.
pub open spec fn image_kind(bytes: Seq<u8>, ext: Option<Seq<char>>) -> Option<ImageKind> {
    match guessed_format(bytes) {
        Some(k) => Some(k),
        None => match ext {
            Some(e) => extension_format(e),
            None => None,
        },
    }
}

/// The frames that an image of format `kind` is read as: every frame of an
/// animated PNG, a GIF or a WebP, and the one image of a still PNG or of
/// any other format; `None` when decoding fails.
pub open spec fn kind_frames(bytes: Seq<u8>, kind: ImageKind) -> Option<Seq<FrameView>> {
    match kind {
        ImageKind::Png => match png_animated(bytes) {
            None => None,
            Some(true) => apng_decoded(bytes),
            Some(false) => match still_decoded(bytes, ImageKind::Png) {
                Some(f) => Some(seq![f]),
                None => None,
            },
        },
        ImageKind::Gif => gif_decoded(bytes),
        ImageKind::WebP => webp_decoded(bytes),
        _ => match still_decoded(bytes, kind) {
            Some(f) => Some(seq![f]),
            None => None,
        },
    }
}

/// Reads the frames of an image from its bytes, `ext` being its file's
/// extension if it has one. An image of a known format replaces the frames:
/// by all of its frames when they decode, by none when decoding fails. An
/// image of no known format cannot be decoded: the frames stay as they were
/// and an error comes back.
pub fn load_frames(frames: &mut Vec<Frame>, bytes: &[u8], ext: Option<&str>) -> (r: Result<(), String>)
    ensures
        match image_kind(
            bytes@,
            match ext {
                Some(e) => Some(e@),
                None => None,
            },
        ) {
            None => r is Err && final(frames)@ == old(frames)@,
            Some(k) => match kind_frames(bytes@, k) {
                Some(fs) => r is Ok && frames_view(final(frames)@) == fs,
                None => r is Err && final(frames)@.len() == 0,
            },
        },
{
    let kind = match guess_format(bytes) {
        Some(k) => Some(k),
        None => match ext {
            Some(e) => format_of_extension(e),
            None => None,
        },
    };
    let Some(kind) = kind else {
        return match decode_unformatted(bytes) {
            Ok(f) => {
                frames.push(f);
                Ok(())
            },
            Err(e) => Err(e),
        };
    };
    frames.clear();
    let read = match kind {
        ImageKind::Png => match png_is_animated(bytes) {
            Err(e) => Err(e),
            Ok(true) => apng_frames(bytes),
            Ok(false) => match decode_still(bytes, ImageKind::Png) {
                Ok(f) => Ok(vec![f]),
                Err(e) => Err(e),
            },
        },
        ImageKind::Gif => gif_frames(bytes),
        ImageKind::WebP => webp_frames(bytes),
        _ => match decode_still(bytes, kind) {
            Ok(f) => Ok(vec![f]),
            Err(e) => Err(e),
        },
    };
    match read {
        Ok(v) => {
            *frames = v;
            Ok(())
        },
        Err(e) => Err(e),
    }
}

} // verus!
