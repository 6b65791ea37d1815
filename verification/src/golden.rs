//! Golden-image comparison for the headless render harness.
//!
//! Rendered RGBA8 pixels are compared byte by byte against a recorded golden
//! PNG with a per-channel tolerance; the first byte that differs by more
//! than the tolerance is reported. When no golden exists yet, the rendering
//! is encoded as the PNG to record (the Weston first-run pattern). The PNG
//! codec is the `png` crate's; reading and writing the file is the caller's.

use vstd::prelude::*;

verus! {

/// Why rendered pixels do not match their golden image.
#[derive(Debug, Clone, Copy, PartialEq, Eq, Structural)]
pub enum GoldenMismatch {
    /// The golden image and the rendering differ in byte length.
    Size { golden_len: usize, rendered_len: usize, width: u32, height: u32 },
    /// Byte `index` differs by more than `tolerance`.
    Pixel { index: usize, golden: u8, rendered: u8, tolerance: u8 },
}

/// The absolute difference of two bytes.
pub open spec fn byte_diff(a: u8, b: u8) -> int {
    if a >= b {
        a - b
    } else {
        b - a
    }
}

/// Byte `i` of the rendering is outside the tolerance of the golden byte.
pub open spec fn differs_at(golden: Seq<u8>, pixels: Seq<u8>, tolerance: u8, i: int) -> bool {
    byte_diff(golden[i], pixels[i]) > tolerance
}

/// The outcome of comparing `pixels` against `golden`: a length mismatch
/// first; otherwise the first byte outside the tolerance; otherwise a match.
pub open spec fn golden_outcome(
    golden: Seq<u8>,
    pixels: Seq<u8>,
    width: u32,
    height: u32,
    tolerance: u8,
    r: Result<(), GoldenMismatch>,
) -> bool {
    if golden.len() != pixels.len() {
        r == Err::<(), GoldenMismatch>(
            GoldenMismatch::Size {
                golden_len: golden.len() as usize,
                rendered_len: pixels.len() as usize,
                width,
                height,
            },
        )
    } else {
        match r {
            Ok(()) => forall|i: int| 0 <= i < golden.len() ==> !differs_at(golden, pixels, tolerance, i),
            Err(GoldenMismatch::Pixel { index, golden: g, rendered: p, tolerance: t }) => {
                &&& 0 <= index < golden.len()
                &&& differs_at(golden, pixels, tolerance, index as int)
                &&& forall|i: int| 0 <= i < index ==> !differs_at(golden, pixels, tolerance, i)
                &&& g == golden[index as int]
                &&& p == pixels[index as int]
                &&& t == tolerance
            },
            Err(GoldenMismatch::Size { .. }) => false,
        }
    }
}

/// Compare RGBA8 `pixels` (a `width` x `height` rendering) against the
/// `golden` bytes, allowing each byte to differ by at most `tolerance`
/// (0 = exact). Reports the size mismatch or the first differing byte.
pub fn compare_to_golden(golden: &[u8], pixels: &[u8], width: u32, height: u32, tolerance: u8) -> (r:
    Result<(), GoldenMismatch>)
    ensures
        golden_outcome(golden@, pixels@, width, height, tolerance, r),
{
    if golden.len() != pixels.len() {
        return Err(
            GoldenMismatch::Size {
                golden_len: golden.len(),
                rendered_len: pixels.len(),
                width,
                height,
            },
        );
    }
    let mut i: usize = 0;
    while i < golden.len()
        invariant
            golden@.len() == pixels@.len(),
            0 <= i <= golden.len(),
            forall|j: int| 0 <= j < i ==> !differs_at(golden@, pixels@, tolerance, j),
        decreases golden.len() - i,
    {
        let g = golden[i];
        let p = pixels[i];
        let diff = if g >= p {
            g - p
        } else {
            p - g
        };
        if diff > tolerance {
            return Err(GoldenMismatch::Pixel { index: i, golden: g, rendered: p, tolerance });
        }
        i = i + 1;
    }
    Ok(())
}

/// The bytes of the first frame that the `png` crate's decoder yields for
/// the PNG file `png`, or `None` when it does not decode.
pub uninterp spec fn png_frame_bytes(png: Seq<u8>) -> Option<Seq<u8>>;

/// The PNG file the `png` crate's encoder writes for `pixels` as a
/// `width` x `height` RGBA, eight bits per channel image, or `None` when it
/// refuses them.
pub uninterp spec fn png_rgba8_encoding(pixels: Seq<u8>, width: u32, height: u32) -> Option<Seq<u8>>;

/// The most bytes the `png` crate's decoder allocates by default (64 MiB).
pub open spec fn decoder_byte_limit() -> int {
    0x400_0000
}

/// Decodes a PNG file in memory with the `png` crate: `png::Decoder::new`
/// over the bytes, `Decoder::read_info`, `Reader::output_buffer_size`, a
/// zeroed buffer of that size, `Reader::next_frame` into it, and the buffer
/// cut to the frame's `OutputInfo::buffer_size`. The contract claims only
/// that the result is a function of the bytes (named [`png_frame_bytes`]):
/// the same file always decodes to the same frame, or always fails. What
/// the frame holds is left unsaid. A header that asks for a frame too large
/// to allocate ends the process, as any failed allocation does.
#[verifier::external_body]
fn decode_png_frame(png_bytes: &[u8]) -> (frame: Option<Vec<u8>>)
    ensures
        match frame {
            Some(v) => png_frame_bytes(png_bytes@) == Some(v@),
            None => png_frame_bytes(png_bytes@) is None,
        },
{
    let mut reader = png::Decoder::new(std::io::Cursor::new(png_bytes)).read_info().ok()?;
    let size = reader.output_buffer_size()?;
    let mut frame = vec![0u8; size];
    let info = reader.next_frame(&mut frame).ok()?;
    frame.truncate(info.buffer_size());
    Some(frame)
}

/// Encodes RGBA8 pixels as a PNG file in memory with the `png` crate:
/// `png::Encoder::new` over a `Vec`, `set_color(Rgba)`, `set_depth(Eight)`,
/// `write_header`, `Writer::write_image_data` and `Writer::finish`. The
/// contract claims only that the result is a function of the pixels and the
/// size (named [`png_rgba8_encoding`]), and that the file decodes back to
/// exactly those pixels (PNG is lossless: the crate's own encoder tests
/// decode what they encode and compare) when the image is at most 64 MiB,
/// the decoder's default allocation limit; for a larger image the decoder
/// may refuse it, and nothing is claimed. The encoder multiplies the row
/// length by the height in `usize`; the `requires` keeps that from
/// overflowing.
#[verifier::external_body]
fn encode_png_rgba8(pixels: &[u8], width: u32, height: u32) -> (png_bytes: Option<Vec<u8>>)
    requires
        4 * width + 1 <= usize::MAX,
        4 * width * height <= usize::MAX,
    ensures
        match png_bytes {
            Some(v) => png_rgba8_encoding(pixels@, width, height) == Some(v@),
            None => png_rgba8_encoding(pixels@, width, height) is None,
        },
        png_bytes matches Some(v) ==> (4 * width * height <= decoder_byte_limit()
            ==> png_frame_bytes(v@) == Some(pixels@)),
{
    let mut out: Vec<u8> = Vec::new();
    let mut encoder = png::Encoder::new(&mut out, width, height);
    encoder.set_color(png::ColorType::Rgba);
    encoder.set_depth(png::BitDepth::Eight);
    let mut writer = encoder.write_header().ok()?;
    writer.write_image_data(pixels).ok()?;
    writer.finish().ok()?;
    Some(out)
}

/// Why a golden check failed.
#[derive(Debug, Clone, Copy, PartialEq, Eq, Structural)]
pub enum GoldenError {
    /// The rendering could not be encoded as a PNG.
    Encode,
    /// The golden file is not a PNG the decoder can read.
    Decode,
    /// The rendering does not match the golden image.
    Mismatch(GoldenMismatch),
}

/// The outcome of a golden check of `pixels` against the golden file
/// `existing` (`None` when there is none yet): with no golden, the PNG
/// encoding of the rendering is to be recorded, or encoding failed; with
/// one, a file that does not decode fails, and a decoded frame is compared
/// as [`golden_outcome`] says (`Ok(None)` for a match).
pub open spec fn golden_check_outcome(
    existing: Option<Seq<u8>>,
    pixels: Seq<u8>,
    width: u32,
    height: u32,
    tolerance: u8,
    r: Result<Option<Vec<u8>>, GoldenError>,
) -> bool {
    match existing {
        None => match png_rgba8_encoding(pixels, width, height) {
            Some(bytes) => r matches Ok(Some(v)) && v@ == bytes,
            None => r == Err::<Option<Vec<u8>>, GoldenError>(GoldenError::Encode),
        },
        Some(file) => match png_frame_bytes(file) {
            None => r == Err::<Option<Vec<u8>>, GoldenError>(GoldenError::Decode),
            Some(frame) => match r {
                Ok(None) => golden_outcome(frame, pixels, width, height, tolerance, Ok(())),
                Err(GoldenError::Mismatch(m)) => golden_outcome(
                    frame,
                    pixels,
                    width,
                    height,
                    tolerance,
                    Err(m),
                ),
                _ => false,
            },
        },
    }
}

/// Check RGBA8 `pixels` (a `width` x `height` rendering) against the golden
/// PNG file `existing`, or, when there is none yet, hand back the PNG bytes
/// to record as the golden. `tolerance` is the largest difference allowed in
/// each byte (0 = exact). `Ok(None)` is a match, `Ok(Some(png))` a new
/// golden to write; an error says what failed, a mismatch with its first
/// differing byte.
pub fn assert_or_write_golden(
    existing: Option<&[u8]>,
    pixels: &[u8],
    width: u32,
    height: u32,
    tolerance: u8,
) -> (r: Result<Option<Vec<u8>>, GoldenError>)
    requires
        existing is None ==> 4 * width + 1 <= usize::MAX && 4 * width * height <= usize::MAX,
    ensures
        golden_check_outcome(
            match existing {
                Some(file) => Some(file@),
                None => None,
            },
            pixels@,
            width,
            height,
            tolerance,
            r,
        ),
        existing is None && 4 * width * height <= decoder_byte_limit() ==> (r matches Ok(Some(v))
            ==> png_frame_bytes(v@) == Some(pixels@) && forall|t: u8|
            golden_check_outcome(
                Some(v@),
                pixels@,
                width,
                height,
                t,
                Ok::<Option<Vec<u8>>, GoldenError>(None),
            )),
{
    match existing {
        None => match encode_png_rgba8(pixels, width, height) {
            Some(png_bytes) => Ok(Some(png_bytes)),
            None => Err(GoldenError::Encode),
        },
        Some(file) => match decode_png_frame(file) {
            None => Err(GoldenError::Decode),
            Some(frame) => match compare_to_golden(frame.as_slice(), pixels, width, height, tolerance) {
                Ok(()) => Ok(None),
                Err(m) => Err(GoldenError::Mismatch(m)),
            },
        },
    }
}

/// Law: the tolerance is per byte and symmetric. A rendered byte is outside
/// the tolerance of its golden byte exactly when either exceeds the other
/// by more than the tolerance; a tolerance of 0 accepts only equal bytes,
/// and no tolerance ever rejects equal bytes.
pub proof fn law_tolerance_per_byte(golden: Seq<u8>, pixels: Seq<u8>, tolerance: u8, i: int)
    ensures
        differs_at(golden, pixels, tolerance, i) <==> (golden[i] > pixels[i] + tolerance
            || pixels[i] > golden[i] + tolerance),
        differs_at(golden, pixels, tolerance, i) == differs_at(pixels, golden, tolerance, i),
        tolerance == 0 ==> (differs_at(golden, pixels, tolerance, i) <==> golden[i] != pixels[i]),
        golden[i] == pixels[i] ==> !differs_at(golden, pixels, tolerance, i),
{
}

/// Law: what a comparison answers. Bytes of different lengths are a size
/// mismatch carrying both lengths and the size; otherwise a rendering
/// identical to its golden matches at every tolerance, and a mismatch names
/// the first byte outside the tolerance with both its values.
pub proof fn law_comparison_outcomes(
    golden: Seq<u8>,
    pixels: Seq<u8>,
    width: u32,
    height: u32,
    tolerance: u8,
    r: Result<(), GoldenMismatch>,
)
    requires
        golden_outcome(golden, pixels, width, height, tolerance, r),
    ensures
        golden.len() != pixels.len() ==> r == Err::<(), GoldenMismatch>(
            GoldenMismatch::Size {
                golden_len: golden.len() as usize,
                rendered_len: pixels.len() as usize,
                width,
                height,
            },
        ),
        golden == pixels ==> r is Ok,
        r matches Err(GoldenMismatch::Pixel { index, golden: g, rendered: p, tolerance: t }) ==> {
            &&& golden.len() == pixels.len()
            &&& index < golden.len()
            &&& g == golden[index as int] && p == pixels[index as int] && t == tolerance
            &&& (g > p + t || p > g + t)
            &&& forall|j: int|
                0 <= j < index ==> !(golden[j] > pixels[j] + tolerance || pixels[j] > golden[j]
                    + tolerance)
        },
{
    if golden.len() == pixels.len() {
        match r {
            Ok(()) => {},
            Err(GoldenMismatch::Pixel { index, golden: g, rendered: p, tolerance: t }) => {
                assert(differs_at(golden, pixels, tolerance, index as int));
                assert forall|j: int| 0 <= j < index implies !(golden[j] > pixels[j] + tolerance
                    || pixels[j] > golden[j] + tolerance) by {
                    assert(!differs_at(golden, pixels, tolerance, j));
                }
                if golden =~= pixels {
                    assert(golden[index as int] == pixels[index as int]);
                }
            },
            Err(GoldenMismatch::Size { .. }) => {},
        }
    }
}

} // verus!
