//! Decoding raw bytes into a grid, encoding a grid as JPEG, and the
//! best-effort orientation lookup.
//!
//! The byte-level work is done by outside code behind trusted wrappers:
//! what a buffer decodes to, what a grid encodes to, and what
//! orientation tag a buffer carries are each given a name, and every
//! contract of this module speaks of those names exactly.

use vstd::prelude::*;

use crate::grid::Grid;
use crate::pixel::Pixel;

verus! {

/// A fatal pipeline failure: the input bytes are not a recognized
/// image, or the encoder failed internally. Either aborts the job with
/// no partial output.
#[derive(Clone, Copy, Debug, PartialEq, Eq, Structural)]
pub enum PixelSortError {
    DecodeError,
    EncodeError,
}

/// What a byte buffer decodes to: the image's width, height and
/// row-major RGBA8 pixel buffer, or nothing when the bytes are not a
/// valid, supported image.
pub uninterp spec fn decoded_rgba(data: Seq<u8>) -> Option<(u32, u32, Seq<u8>)>;

/// What a row-major RGBA8 pixel buffer of the given dimensions encodes
/// to as JPEG, or nothing on an internal encoder failure.
pub uninterp spec fn jpeg_bytes(width: u32, height: u32, raw: Seq<u8>) -> Option<Seq<u8>>;

/// The orientation tag embedded in a byte buffer's metadata, or nothing
/// when the buffer carries none that can be read.
pub uninterp spec fn exif_orientation(data: Seq<u8>) -> Option<u32>;

/// Relies on `image::load_from_memory`, `DynamicImage::to_rgba8`,
/// `ImageBuffer::dimensions` and `ImageBuffer::into_raw`: decoding is a
/// pure function of the bytes, and the RGBA8 buffer of a decoded image
/// holds exactly `4 * width * height` bytes.
#[verifier::external_body]
fn decode_rgba(data: &Vec<u8>) -> (r: Option<(u32, u32, Vec<u8>)>)
    ensures
        match r {
            Some((w, h, raw)) => decoded_rgba(data@) == Some((w, h, raw@)) && raw@.len() == 4 * (
            w * h),
            None => decoded_rgba(data@) is None,
        },
{
    match image::load_from_memory(data.as_slice()) {
        Ok(img) => {
            let rgba = img.to_rgba8();
            let (w, h) = rgba.dimensions();
            Some((w, h, rgba.into_raw()))
        },
        Err(_) => None,
    }
}

/// Relies on `ImageBuffer::from_raw` and `DynamicImage::write_to` with
/// the JPEG format: encoding is a pure function of the dimensions and
/// the RGBA8 buffer (the alpha channel is discarded, as the JPEG
/// delivery format has none), and fails only on an internal encoder
/// error.
#[verifier::external_body]
fn encode_jpeg_rgba(width: u32, height: u32, raw: Vec<u8>) -> (r: Option<Vec<u8>>)
    requires
        raw@.len() == 4 * (width * height),
    ensures
        match r {
            Some(bytes) => jpeg_bytes(width, height, raw@) == Some(bytes@),
            None => jpeg_bytes(width, height, raw@) is None,
        },
{
    let buf: Option<image::RgbaImage> = image::ImageBuffer::from_raw(width, height, raw);
    match buf {
        Some(img) => {
            let mut cursor = std::io::Cursor::new(Vec::new());
            match image::DynamicImage::ImageRgba8(img).write_to(
                &mut cursor,
                image::ImageFormat::Jpeg,
            ) {
                Ok(()) => Some(cursor.into_inner()),
                Err(_) => None,
            }
        },
        None => None,
    }
}

/// Relies on `exif::Reader::read_from_container`, `Exif::get_field`
/// with the orientation tag of the primary image, and
/// `Value::get_uint`: the lookup is a pure function of the bytes and
/// yields the tag's first integer value, or nothing when the buffer
/// carries no readable orientation field.
#[verifier::external_body]
fn read_exif_orientation(data: &Vec<u8>) -> (r: Option<u32>)
    ensures
        r == exif_orientation(data@),
{
    let mut reader = std::io::BufReader::new(std::io::Cursor::new(data.as_slice()));
    match exif::Reader::new().read_from_container(&mut reader) {
        Ok(meta) => match meta.get_field(exif::Tag::Orientation, exif::In::PRIMARY) {
            Some(field) => field.value.get_uint(0),
            None => None,
        },
        Err(_) => None,
    }
}

/// Keep an orientation value only when it lies in the valid range
/// `1..=8`; out-of-range values, like parse failures, degrade to
/// "no orientation".
pub open spec fn orientation_filter(v: Option<u32>) -> Option<u32> {
    match v {
        Some(x) => if 1 <= x <= 8 {
            Some(x)
        } else {
            None
        },
        None => None,
    }
}

/// Look up the orientation code embedded in an image's metadata. The
/// lookup is best-effort and non-fatal: a missing tag, a parse failure
/// or an out-of-range value all yield no orientation.
pub fn get_orientation(img_data: &Vec<u8>) -> (r: Option<u32>)
    ensures
        r == orientation_filter(exif_orientation(img_data@)),
        r matches Some(v) ==> 1 <= v <= 8,
{
    match read_exif_orientation(img_data) {
        Some(v) => if 1 <= v && v <= 8 {
            Some(v)
        } else {
            None
        },
        None => None,
    }
}

/// The pixel sequence held by a row-major RGBA8 byte buffer: four
/// consecutive bytes per pixel, in channel order.
pub open spec fn pixels_of_rgba(raw: Seq<u8>) -> Seq<Pixel> {
    Seq::new(
        (raw.len() / 4) as nat,
        |i: int|
            Pixel { r: raw[4 * i], g: raw[4 * i + 1], b: raw[4 * i + 2], a: raw[4 * i + 3] },
    )
}

/// The row-major RGBA8 byte buffer of a pixel sequence: the inverse of
/// [`pixels_of_rgba`] on well-formed buffers.
pub open spec fn rgba_of_pixels(ps: Seq<Pixel>) -> Seq<u8> {
    Seq::new(
        (ps.len() * 4) as nat,
        |i: int|
            {
                let p = ps[i / 4];
                if i % 4 == 0 {
                    p.r
                } else if i % 4 == 1 {
                    p.g
                } else if i % 4 == 2 {
                    p.b
                } else {
                    p.a
                }
            },
    )
}

/// Build a grid from decoded dimensions and an RGBA8 byte buffer.
fn grid_from_rgba(width: u32, height: u32, raw: Vec<u8>) -> (g: Grid)
    requires
        raw@.len() == 4 * (width * height),
    ensures
        g.wf(),
        g.width == width,
        g.height == height,
        g.pixels@ == pixels_of_rgba(raw@),
{
    let n = raw.len();
    proof {
        vstd::arithmetic::div_mod::lemma_fundamental_div_mod_converse(
            n as int,
            4,
            (width * height) as int,
            0,
        );
    }
    let count = n / 4;
    let mut pixels: Vec<Pixel> = Vec::new();
    let mut i: usize = 0;
    while i < count
        invariant
            i <= count,
            n == raw@.len(),
            count == n / 4,
            4 * count == n,
            pixels@.len() == i,
            forall|k: int| 0 <= k < i ==> #[trigger] pixels@[k] == pixels_of_rgba(raw@)[k],
        decreases count - i,
    {
        let p = Pixel { r: raw[4 * i], g: raw[4 * i + 1], b: raw[4 * i + 2], a: raw[4 * i + 3] };
        pixels.push(p);
        i = i + 1;
    }
    assert(pixels@ =~= pixels_of_rgba(raw@));
    Grid { width: width as usize, height: height as usize, pixels }
}

/// Flatten a pixel store into its RGBA8 byte buffer.
fn rgba_from_pixels(ps: &Vec<Pixel>) -> (raw: Vec<u8>)
    ensures
        raw@ == rgba_of_pixels(ps@),
{
    let mut raw: Vec<u8> = Vec::new();
    let mut i: usize = 0;
    while i < ps.len()
        invariant
            i <= ps@.len(),
            raw@.len() == 4 * i,
            forall|k: int| 0 <= k < 4 * i ==> #[trigger] raw@[k] == rgba_of_pixels(ps@)[k],
        decreases ps@.len() - i,
    {
        let p = ps[i];
        raw.push(p.r);
        raw.push(p.g);
        raw.push(p.b);
        raw.push(p.a);
        proof {
            assert forall|k: int| 4 * i <= k < 4 * i + 4 implies raw@[k] == rgba_of_pixels(
                ps@,
            )[k] by {
                vstd::arithmetic::div_mod::lemma_fundamental_div_mod_converse(
                    k,
                    4,
                    i as int,
                    k - 4 * i,
                );
            }
        }
        i = i + 1;
    }
    assert(raw@ =~= rgba_of_pixels(ps@));
    raw
}

/// Decode a byte buffer into a pixel grid. Fails with `DecodeError`
/// exactly when the bytes are not a valid, supported image; there is no
/// partial decode.
pub fn decode_image(data: &Vec<u8>) -> (r: Result<Grid, PixelSortError>)
    ensures
        r is Ok <==> decoded_rgba(data@) is Some,
        r matches Ok(g) ==> {
            let (w, h, raw) = decoded_rgba(data@).unwrap();
            &&& g.wf()
            &&& g.width == w
            &&& g.height == h
            &&& g.pixels@ == pixels_of_rgba(raw)
        },
        r matches Err(e) ==> e == PixelSortError::DecodeError,
{
    match decode_rgba(data) {
        Some((w, h, raw)) => Ok(grid_from_rgba(w, h, raw)),
        None => Err(PixelSortError::DecodeError),
    }
}

/// Encode a pixel grid as JPEG. Fails with `EncodeError` exactly when
/// the encoder fails internally on this grid's dimensions and bytes.
pub fn encode_image(img: &Grid) -> (r: Result<Vec<u8>, PixelSortError>)
    requires
        img.wf(),
        img.width <= u32::MAX,
        img.height <= u32::MAX,
    ensures
        r is Ok <==> jpeg_bytes(
            img.width as u32,
            img.height as u32,
            rgba_of_pixels(img.pixels@),
        ) is Some,
        r matches Ok(bytes) ==> Some(bytes@) == jpeg_bytes(
            img.width as u32,
            img.height as u32,
            rgba_of_pixels(img.pixels@),
        ),
        r matches Err(e) ==> e == PixelSortError::EncodeError,
{
    let raw = rgba_from_pixels(&img.pixels);
    proof {
        lemma_mul_four_commute(img.pixels@.len() as int);
        assert(img.pixels@.len() == (img.width as u32) * (img.height as u32));
    }
    match encode_jpeg_rgba(img.width as u32, img.height as u32, raw) {
        Some(bytes) => Ok(bytes),
        None => Err(PixelSortError::EncodeError),
    }
}

/// Four times a count equals the count times four.
proof fn lemma_mul_four_commute(n: int)
    ensures
        n * 4 == 4 * n,
{
}

} // verus!
