//! Captures of a window: what the compositor says of one, its pixels, and the
//! picture that is made of them.

use crate::binary64::Real;
use crate::fault::{agrees, general, under, Fault, FaultView};
use crate::kwin::{
    double_property, lemma_report_is_found, lemma_reported, properties, reports, required_f64, required_string, required_u32, text_property,
    u32_property, MetaValue, Metadata, MetadataView, WindowInfo, WindowView,
};
use crate::text::{contains, decimal, occurs, quote, quoted, same, show_u64};
use vstd::arithmetic::div_mod::lemma_fundamental_div_mod_converse;
use vstd::prelude::*;

verus! {

/// The greatest number of bytes that a capture may have.
pub const MAX_RAW_BYTES: usize = 0x1000_0000;

/// How often a blank capture is taken again.
pub const BLANK_CAPTURE_RETRIES: usize = 2;

/// How long to wait, in milliseconds, before a blank capture is taken again.
pub const BLANK_CAPTURE_RETRY_DELAY_MS: u64 = 120;

/// The pixel format whose colours are multiplied by their opacity.
pub const FORMAT_PREMULTIPLIED: u32 = 6;

/// The pixel format whose colours are not.
pub const FORMAT_STRAIGHT: u32 = 5;

/// What the compositor says of a capture.
#[derive(Clone, Copy, Debug, PartialEq, Eq)]
pub struct CaptureMetadata {
    pub format: u32,
    pub width: u32,
    pub height: u32,
    pub stride: u32,
    pub scale: Real,
}

impl View for CaptureMetadata {
    type V = CaptureMetadata;

    open spec fn view(&self) -> CaptureMetadata {
        *self
    }
}

/// The numbers that describe a capture, as they are reported; the failure is
/// that of the first that is missing.
pub open spec fn reported_sizes(m: MetadataView) -> Result<(u32, u32, u32, Real), FaultView> {
    match (
        u32_property(m, "width"@),
        u32_property(m, "height"@),
        u32_property(m, "stride"@),
        double_property(m, "scale"@),
    ) {
        (Err(e), _, _, _) => Err(e),
        (_, Err(e), _, _) => Err(e),
        (_, _, Err(e), _) => Err(e),
        (_, _, _, Err(e)) => Err(e),
        (Ok(width), Ok(height), Ok(stride), Ok(scale)) => Ok((width, height, stride, scale)),
    }
}

/// Whether the sizes of a capture can be worked with.
pub open spec fn sizes_check(width: u32, height: u32, stride: u32, scale: Real) -> Result<
    (),
    FaultView,
> {
    if width == 0 || height == 0 || stride == 0 || !scale.finite() || scale.at_most(
        Real { bits: 0 },
    ) {
        Err(general("KWin returned invalid screenshot dimensions or scale"@))
    } else if width * 4 > u32::MAX {
        Err(general("KWin screenshot row size overflow"@))
    } else if stride < width * 4 {
        Err(
            general(
                "KWin screenshot stride "@ + decimal(stride as int) + " is smaller than row size "@
                    + decimal(width * 4),
            ),
        )
    } else if stride * height > usize::MAX {
        Err(general("KWin screenshot allocation overflow"@))
    } else if stride * height > MAX_RAW_BYTES {
        Err(general("KWin screenshot exceeds the 268435456-byte safety limit"@))
    } else {
        Ok(())
    }
}

/// What a capture of the window with the given UUID is, as it is reported.
pub open spec fn reported_capture(m: MetadataView, uuid: Seq<char>) -> Result<
    CaptureMetadata,
    FaultView,
> {
    match text_property(m, "type"@) {
        Err(e) => Err(e),
        Ok(kind) => if kind != "raw"@ {
            Err(general("KWin returned unsupported screenshot type "@ + quoted(kind)))
        } else {
            match text_property(m, "windowId"@) {
                Err(e) => Err(e),
                Ok(id) => if id != uuid {
                    Err(
                        general(
                            "KWin screenshot UUID mismatch: expected "@ + uuid + ", received "@ + id,
                        ),
                    )
                } else {
                    match u32_property(m, "format"@) {
                        Err(e) => Err(e),
                        Ok(format) => if format != FORMAT_STRAIGHT && format
                            != FORMAT_PREMULTIPLIED {
                            Err(
                                general(
                                    "unsupported KWin QImage format "@ + decimal(format as int)
                                        + "; expected ARGB32 or ARGB32_Premultiplied"@,
                                ),
                            )
                        } else {
                            match reported_sizes(m) {
                                Err(e) => Err(e),
                                Ok((width, height, stride, scale)) => match sizes_check(
                                    width,
                                    height,
                                    stride,
                                    scale,
                                ) {
                                    Err(e) => Err(e),
                                    Ok(()) => Ok(
                                        CaptureMetadata { format, width, height, stride, scale },
                                    ),
                                },
                            }
                        },
                    }
                },
            }
        },
    }
}

fn check_sizes(width: u32, height: u32, stride: u32, scale: Real) -> (r: Result<(), Fault>)
    ensures
        agrees(r, sizes_check(width, height, stride, scale)),
{
    if width == 0 || height == 0 || stride == 0 || !scale.is_finite() || scale.le(
        Real { bits: 0 },
    ) {
        return Err(Fault::of("KWin returned invalid screenshot dimensions or scale"));
    }
    let row_bytes = match width.checked_mul(4) {
        Some(n) => n,
        None => return Err(Fault::of("KWin screenshot row size overflow")),
    };
    if stride < row_bytes {
        let mut message = "KWin screenshot stride ".to_owned();
        message.append(show_u64(stride as u64).as_str());
        message.append(" is smaller than row size ");
        message.append(show_u64(row_bytes as u64).as_str());
        return Err(Fault::new(message));
    }
    match (stride as usize).checked_mul(height as usize) {
        None => Err(Fault::of("KWin screenshot allocation overflow")),
        Some(count) => if count > MAX_RAW_BYTES {
            Err(Fault::of("KWin screenshot exceeds the 268435456-byte safety limit"))
        } else {
            Ok(())
        },
    }
}

/// Reads what the compositor says of a capture of the window with the given
/// UUID.
pub fn parse_capture_metadata(metadata: &Metadata, expected_uuid: &str) -> (r: Result<
    CaptureMetadata,
    Fault,
>)
    ensures
        agrees(r, reported_capture(properties(metadata@), expected_uuid@)),
{
    let kind = match required_string(metadata, "type") {
        Ok(v) => v,
        Err(fault) => return Err(fault),
    };
    if !same(kind.as_str(), "raw") {
        let mut message = "KWin returned unsupported screenshot type ".to_owned();
        message.append(quote(kind.as_str()).as_str());
        return Err(Fault::new(message));
    }
    let id = match required_string(metadata, "windowId") {
        Ok(v) => v,
        Err(fault) => return Err(fault),
    };
    if !same(id.as_str(), expected_uuid) {
        let mut message = "KWin screenshot UUID mismatch: expected ".to_owned();
        message.append(expected_uuid);
        message.append(", received ");
        message.append(id.as_str());
        return Err(Fault::new(message));
    }
    let format = match required_u32(metadata, "format") {
        Ok(v) => v,
        Err(fault) => return Err(fault),
    };
    if format != FORMAT_STRAIGHT && format != FORMAT_PREMULTIPLIED {
        let mut message = "unsupported KWin QImage format ".to_owned();
        message.append(show_u64(format as u64).as_str());
        message.append("; expected ARGB32 or ARGB32_Premultiplied");
        return Err(Fault::new(message));
    }
    let width = match required_u32(metadata, "width") {
        Ok(v) => v,
        Err(fault) => return Err(fault),
    };
    let height = match required_u32(metadata, "height") {
        Ok(v) => v,
        Err(fault) => return Err(fault),
    };
    let stride = match required_u32(metadata, "stride") {
        Ok(v) => v,
        Err(fault) => return Err(fault),
    };
    let scale = match required_f64(metadata, "scale") {
        Ok(v) => v,
        Err(fault) => return Err(fault),
    };
    match check_sizes(width, height, stride, scale) {
        Ok(()) => Ok(CaptureMetadata { format, width, height, stride, scale }),
        Err(fault) => Err(fault),
    }
}

/// A colour as it was before it was multiplied by its opacity, rounded to the
/// nearest and at most 255.
pub open spec fn unmultiplied(channel: int, alpha: int) -> int {
    let value = (channel * 255 + alpha / 2) / alpha;
    if value < 255 {
        value
    } else {
        255
    }
}

/// A channel with an opacity applied to it, rounded to the nearest.
pub open spec fn multiplied(channel: int, alpha: int) -> int {
    (channel * alpha + 127) / 255
}

/// Undoing an opacity loses nothing: where it is applied again, the same comes
/// out, of every channel that is not greater than the opacity.
pub proof fn law_opacity_is_undone(channel: int, alpha: int)
    requires
        0 <= channel <= alpha <= 255,
        alpha > 0,
    ensures
        0 <= unmultiplied(channel, alpha) <= 255,
        multiplied(unmultiplied(channel, alpha), alpha) == channel,
{
    let n = channel * 255 + alpha / 2;
    let u = n / alpha;
    assert(n - alpha < u * alpha <= n && 0 <= u) by (nonlinear_arith)
        requires
            u == n / alpha,
            alpha > 0,
            n >= 0,
    ;
    assert(u <= 255) by (nonlinear_arith)
        requires
            u * alpha <= n,
            n == channel * 255 + alpha / 2,
            0 <= channel <= alpha,
            alpha > 0,
    ;
}

/// Undoes the multiplication of a colour by its opacity.
pub fn unpremultiply(channel: u8, alpha: u8) -> (r: u8)
    requires
        alpha > 0,
    ensures
        r == unmultiplied(channel as int, alpha as int),
{
    let value: u32 = (channel as u32 * 255 + alpha as u32 / 2) / (alpha as u32);
    if value < 255 {
        value as u8
    } else {
        255
    }
}

/// One of the four channels (red, green, blue, opacity) of a pixel that is
/// stored, from byte `at`, as blue, green, red and opacity.
pub open spec fn channel_of(raw: Seq<u8>, at: int, format: u32, channel: int) -> u8 {
    let alpha = raw[at + 3];
    if channel == 3 {
        alpha
    } else if format == FORMAT_PREMULTIPLIED && 1 <= alpha <= 254 {
        unmultiplied(raw[at + 2 - channel] as int, alpha as int) as u8
    } else {
        raw[at + 2 - channel]
    }
}

/// The pixels of a capture, row by row without gaps, each as red, green, blue
/// and opacity.
pub open spec fn rgba_of(raw: Seq<u8>, width: int, height: int, stride: int, format: u32) -> Seq<
    u8,
> {
    Seq::new(
        (width * height * 4) as nat,
        |i: int|
            channel_of(raw, ((i / 4) / width) * stride + ((i / 4) % width) * 4, format, i % 4),
    )
}

/// The pixels of a capture, or why they are not what was announced.
pub open spec fn converted(raw: Seq<u8>, width: u32, height: u32, stride: u32, format: u32) -> Result<
    Seq<u8>,
    FaultView,
> {
    if stride * height > usize::MAX {
        Err(general("raw screenshot length overflow"@))
    } else if raw.len() != stride * height {
        Err(
            general(
                "KWin screenshot byte count mismatch: expected "@ + decimal(stride * height)
                    + ", received "@ + decimal(raw.len() as int),
            ),
        )
    } else {
        Ok(rgba_of(raw, width as int, height as int, stride as int, format))
    }
}

proof fn lemma_pixel(
    raw: Seq<u8>,
    width: int,
    height: int,
    stride: int,
    format: u32,
    row: int,
    column: int,
)
    requires
        0 <= row < height,
        0 <= column < width,
    ensures
        ({
            let p = row * width + column;
            let all = rgba_of(raw, width, height, stride, format);
            let at = row * stride + column * 4;
            &&& 0 <= p < width * height
            &&& all[4 * p] == channel_of(raw, at, format, 0)
            &&& all[4 * p + 1] == channel_of(raw, at, format, 1)
            &&& all[4 * p + 2] == channel_of(raw, at, format, 2)
            &&& all[4 * p + 3] == channel_of(raw, at, format, 3)
        }),
{
    let p = row * width + column;
    assert(0 <= p < width * height) by (nonlinear_arith)
        requires
            p == row * width + column,
            0 <= row < height,
            0 <= column < width,
    ;
    lemma_fundamental_div_mod_converse(p, width, row, column);
}

proof fn lemma_row_in_bounds(width: int, height: int, stride: int, row: int, column: int)
    requires
        0 <= row < height,
        0 <= column < width,
        width * 4 <= stride,
    ensures
        0 <= row * stride,
        row * stride + column * 4 + 4 <= stride * height,
        0 <= row * width + column < width * height,
        row * stride <= stride * height,
{
    assert(0 <= row * stride && row * stride + column * 4 + 4 <= stride * height && 0 <= row * width
        + column < width * height && row * stride <= stride * height) by (nonlinear_arith)
        requires
            0 <= row < height,
            0 <= column < width,
            width * 4 <= stride,
    ;
}

/// Turns the pixels of a capture, rows of `stride` bytes of which the first
/// `width * 4` count, into red, green, blue and opacity without gaps.
pub fn bgra_to_rgba(raw: &[u8], width: u32, height: u32, stride: u32, format: u32) -> (r: Result<
    Vec<u8>,
    Fault,
>)
    requires
        raw@.len() == stride * height ==> stride > 0 && (height > 0 ==> width * 4 <= stride),
    ensures
        agrees(r, converted(raw@, width, height, stride, format)),
{
    let expected = match (stride as usize).checked_mul(height as usize) {
        Some(n) => n,
        None => return Err(Fault::of("raw screenshot length overflow")),
    };
    if raw.len() != expected {
        let mut message = "KWin screenshot byte count mismatch: expected ".to_owned();
        message.append(show_u64(expected as u64).as_str());
        message.append(", received ");
        message.append(show_u64(raw.len() as u64).as_str());
        return Err(Fault::new(message));
    }
    let ghost all = rgba_of(raw@, width as int, height as int, stride as int, format);
    let mut rgba: Vec<u8> = Vec::new();
    let mut row: u32 = 0;
    let mut start: usize = 0;
    assert(0 * width == 0 && 0 * stride == 0) by (nonlinear_arith);
    while row < height
        invariant
            row <= height,
            raw@.len() == stride * height,
            raw@.len() <= usize::MAX,
            width * 4 <= stride || height == 0,
            start == row * stride,
            all == rgba_of(raw@, width as int, height as int, stride as int, format),
            rgba@ =~= all.take(row * width * 4),
            0 <= row * width * 4 <= all.len(),
        decreases height - row,
    {
        let mut column: u32 = 0;
        let mut at: usize = start;
        while column < width
            invariant
                column <= width,
                row < height,
                raw@.len() == stride * height,
                raw@.len() <= usize::MAX,
                width * 4 <= stride,
                at == row * stride + column * 4,
                all == rgba_of(raw@, width as int, height as int, stride as int, format),
                rgba@ =~= all.take((row * width + column) * 4),
                0 <= (row * width + column) * 4 <= all.len(),
            decreases width - column,
        {
            proof {
                lemma_row_in_bounds(
                    width as int,
                    height as int,
                    stride as int,
                    row as int,
                    column as int,
                );
                lemma_pixel(
                    raw@,
                    width as int,
                    height as int,
                    stride as int,
                    format,
                    row as int,
                    column as int,
                );
            }
            let mut red = raw[at + 2];
            let mut green = raw[at + 1];
            let mut blue = raw[at];
            let alpha = raw[at + 3];
            if format == FORMAT_PREMULTIPLIED && alpha >= 1 && alpha <= 254 {
                red = unpremultiply(red, alpha);
                green = unpremultiply(green, alpha);
                blue = unpremultiply(blue, alpha);
            }
            rgba.push(red);
            rgba.push(green);
            rgba.push(blue);
            rgba.push(alpha);
            column += 1;
            at += 4;
        }
        proof {
            assert((row * width + width) * 4 == (row + 1) * width * 4) by (nonlinear_arith);
            assert((row + 1) * stride == row * stride + stride) by (nonlinear_arith);
            assert((row + 1) * stride <= stride * height) by (nonlinear_arith)
                requires
                    row + 1 <= height,
                    0 <= stride,
            ;
        }
        row += 1;
        start += stride as usize;
    }
    proof {
        assert(height * width * 4 == width * height * 4) by (nonlinear_arith);
        assert(all.take(all.len() as int) =~= all);
    }
    Ok(rgba)
}

/// A capture is as wide and as high as its picture, and each pixel of the
/// picture is the pixel of the capture at the same place. What a row holds
/// beyond its pixels is left out.
///
/// A capture stores blue, green, red and opacity, and the picture holds red,
/// green, blue and opacity. In the straight format, and of a pixel that is
/// opaque or that does not show at all, these are the same bytes in that order.
/// Of any other pixel of the premultiplied format, each colour, multiplied by
/// the opacity, comes nearest to what is stored.
pub proof fn law_pixels_keep_place_and_colour(
    raw: Seq<u8>,
    width: u32,
    height: u32,
    stride: u32,
    format: u32,
    row: int,
    column: int,
)
    requires
        converted(raw, width, height, stride, format) is Ok,
        0 <= row < height,
        0 <= column < width,
    ensures
        ({
            let rgba = converted(raw, width, height, stride, format)->Ok_0;
            let to = 4 * (row * width + column);
            let at = row * stride + 4 * column;
            let (blue, green, red, alpha) = (raw[at], raw[at + 1], raw[at + 2], raw[at + 3]);
            &&& rgba.len() == 4 * (width * height)
            &&& 0 <= to && to + 4 <= rgba.len()
            &&& rgba[to + 3] == alpha
            &&& format != 6 || alpha == 255 || alpha == 0 ==> {
                &&& rgba[to] == red
                &&& rgba[to + 1] == green
                &&& rgba[to + 2] == blue
            }
            &&& format == 6 && 0 < alpha < 255 ==> {
                &&& is_nearest_colour(rgba[to] as int, red as int, alpha as int)
                &&& is_nearest_colour(rgba[to + 1] as int, green as int, alpha as int)
                &&& is_nearest_colour(rgba[to + 2] as int, blue as int, alpha as int)
            }
        }),
{
    let (w, h, d) = (width as int, height as int, stride as int);
    let at = row * d + column * 4;
    lemma_pixel(raw, w, h, d, format, row, column);
    assert(w * h * 4 >= 0) by (nonlinear_arith)
        requires
            w >= 0,
            h >= 0,
    ;
    assert(w * h * 4 == 4 * (w * h)) by (nonlinear_arith);
    let alpha = raw[at + 3];
    if 0 < alpha < 255 {
        lemma_nearest_colour(raw[at] as int, alpha as int);
        lemma_nearest_colour(raw[at + 1] as int, alpha as int);
        lemma_nearest_colour(raw[at + 2] as int, alpha as int);
    }
}

/// Whether no colour from 0 to 255, multiplied by an opacity, comes nearer to
/// what is stored than this one; of two that come equally near it is the
/// greater.
pub open spec fn is_nearest_colour(colour: int, stored: int, alpha: int) -> bool {
    &&& 0 <= colour <= 255
    &&& 2 * (stored * 255) < (2 * colour + 1) * alpha || colour == 255
    &&& (2 * colour - 1) * alpha <= 2 * (stored * 255)
}

proof fn lemma_nearest_colour(stored: int, alpha: int)
    requires
        0 <= stored <= 255,
        0 < alpha < 255,
    ensures
        is_nearest_colour(unmultiplied(stored, alpha), stored, alpha),
        0 <= unmultiplied(stored, alpha) <= 255,
{
    let n = stored * 255 + alpha / 2;
    let u = n / alpha;
    let c = unmultiplied(stored, alpha);
    assert(n - alpha < u * alpha <= n && 0 <= u) by (nonlinear_arith)
        requires
            u == n / alpha,
            alpha > 0,
            n >= 0,
    ;
    assert((2 * u + 1) * alpha == 2 * (u * alpha) + alpha) by (nonlinear_arith);
    assert((2 * u - 1) * alpha == 2 * (u * alpha) - alpha) by (nonlinear_arith);
    if c != u {
        assert((2 * c - 1) * alpha <= (2 * u - 1) * alpha) by (nonlinear_arith)
            requires
                c <= u,
                alpha > 0,
        ;
    }
}

/// Whether a pixel shows nothing or next to nothing.
pub open spec fn is_dark(rgba: Seq<u8>, pixel: int) -> bool {
    rgba[4 * pixel + 3] == 0 || (rgba[4 * pixel] <= 8 && rgba[4 * pixel + 1] <= 8 && rgba[4 * pixel
        + 2] <= 8)
}

/// How many of the first `pixels` pixels are dark.
pub open spec fn dark_among(rgba: Seq<u8>, pixels: nat) -> nat
    decreases pixels,
{
    if pixels == 0 {
        0
    } else {
        dark_among(rgba, (pixels - 1) as nat) + if is_dark(rgba, pixels - 1) {
            1nat
        } else {
            0nat
        }
    }
}

/// Whether a picture is blank: it has pixels, and at least 995 in 1000 of them
/// are dark.
pub open spec fn is_blank(rgba: Seq<u8>) -> bool {
    let pixels = rgba.len() / 4;
    pixels > 0 && dark_among(rgba, pixels) * 1000 >= pixels * 995
}

/// Tells whether a picture is blank.
pub fn frame_is_blank(rgba: &[u8]) -> (r: bool)
    ensures
        r == is_blank(rgba@),
{
    let pixels: usize = rgba.len() / 4;
    let mut dark: usize = 0;
    let mut i: usize = 0;
    while i < pixels
        invariant
            i <= pixels,
            pixels == rgba@.len() / 4,
            rgba@.len() <= usize::MAX,
            dark <= i,
            dark == dark_among(rgba@, i as nat),
        decreases pixels - i,
    {
        if rgba[4 * i + 3] == 0 || (rgba[4 * i] <= 8 && rgba[4 * i + 1] <= 8 && rgba[4 * i + 2]
            <= 8) {
            dark += 1;
        }
        i += 1;
    }
    pixels > 0 && dark as u128 * 1000 >= pixels as u128 * 995
}

/// Whether the encoder can count the bytes of a picture of this size.
pub open spec fn countable(width: u32, height: u32) -> bool {
    width * 4 + 1 <= usize::MAX && (width * 4 + 1) * height <= usize::MAX
}

/// Where making a picture file failed, and why.
#[derive(Debug)]
pub enum PngFailure<S> {
    Header(S),
    Data(S),
}

/// What becomes of making a PNG file of pixels, as the encoder has it: the
/// bytes of the file, or where and why it failed.
pub uninterp spec fn png_outcome(width: u32, height: u32, rgba: Seq<u8>) -> Result<
    Seq<u8>,
    PngFailure<Seq<char>>,
>;

/// `png::Encoder` with eight bits each of red, green, blue and opacity,
/// `write_header` and `write_image_data`: a PNG file of the given pixels in
/// memory. Which bytes it has, and which sizes are refused, is not stated
/// beyond its name.
#[verifier::external_body]
fn png_encode(width: u32, height: u32, rgba: &[u8]) -> (r: Result<Vec<u8>, PngFailure<String>>)
    requires
        countable(width, height),
    ensures
        match (r, png_outcome(width, height, rgba@)) {
            (Ok(bytes), Ok(e)) => bytes@ == e,
            (Err(PngFailure::Header(why)), Err(PngFailure::Header(e))) => why@ == e,
            (Err(PngFailure::Data(why)), Err(PngFailure::Data(e))) => why@ == e,
            _ => false,
        },
{
    let mut output = Vec::new();
    let mut encoder = png::Encoder::new(&mut output, width, height);
    encoder.set_color(png::ColorType::Rgba);
    encoder.set_depth(png::BitDepth::Eight);
    let mut writer = match encoder.write_header() {
        Ok(writer) => writer,
        Err(error) => return Err(PngFailure::Header(error.to_string())),
    };
    match writer.write_image_data(rgba) {
        Ok(()) => {},
        Err(error) => return Err(PngFailure::Data(error.to_string())),
    }
    drop(writer);
    Ok(output)
}

/// The file that an outcome of the encoder gives, or the failure to report.
pub open spec fn png_result(outcome: Result<Seq<u8>, PngFailure<Seq<char>>>) -> Result<
    Seq<u8>,
    FaultView,
> {
    match outcome {
        Ok(bytes) => Ok(bytes),
        Err(PngFailure::Header(why)) => Err(
            under("failed to create PNG header"@, general(why)),
        ),
        Err(PngFailure::Data(why)) => Err(
            under("failed to encode screenshot PNG"@, general(why)),
        ),
    }
}

/// The view of an outcome of the encoder.
pub open spec fn png_view(outcome: Result<Vec<u8>, PngFailure<String>>) -> Result<
    Seq<u8>,
    PngFailure<Seq<char>>,
> {
    match outcome {
        Ok(bytes) => Ok(bytes@),
        Err(PngFailure::Header(why)) => Err(PngFailure::Header(why@)),
        Err(PngFailure::Data(why)) => Err(PngFailure::Data(why@)),
    }
}

/// Reports an outcome of the encoder.
pub fn report_png(outcome: Result<Vec<u8>, PngFailure<String>>) -> (r: Result<Vec<u8>, Fault>)
    ensures
        agrees(r, png_result(png_view(outcome))),
{
    match outcome {
        Ok(bytes) => Ok(bytes),
        Err(PngFailure::Header(why)) => Err(
            Fault::new(why).context("failed to create PNG header"),
        ),
        Err(PngFailure::Data(why)) => Err(
            Fault::new(why).context("failed to encode screenshot PNG"),
        ),
    }
}

/// Makes a PNG file of pixels.
pub fn encode_png(width: u32, height: u32, rgba: &[u8]) -> (r: Result<Vec<u8>, Fault>)
    requires
        countable(width, height),
    ensures
        agrees(r, png_result(png_outcome(width, height, rgba@))),
{
    report_png(png_encode(width, height, rgba))
}

/// What a capture of a window comes to: its description and its pixels.
pub open spec fn captured(m: MetadataView, raw: Seq<u8>, uuid: Seq<char>) -> Result<
    (CaptureMetadata, Seq<u8>),
    FaultView,
> {
    match reported_capture(m, uuid) {
        Err(e) => Err(e),
        Ok(c) => match converted(raw, c.width, c.height, c.stride, c.format) {
            Err(e) => Err(e),
            Ok(rgba) => Ok((c, rgba)),
        },
    }
}

proof fn lemma_captures_are_countable(width: u32, height: u32, stride: u32)
    requires
        width > 0,
        width * 4 <= stride,
        stride * height <= MAX_RAW_BYTES,
        height > 0,
    ensures
        countable(width, height),
{
    assert((width * 4 + 1) * height <= 2 * (stride * height) && width * 4 <= stride * height)
        by (nonlinear_arith)
        requires
            width > 0,
            height > 0,
            width * 4 <= stride,
    ;
}

/// Reads a capture of the window with the given UUID.
pub fn read_frame(metadata: &Metadata, raw: &[u8], uuid: &str) -> (r: Result<
    (CaptureMetadata, Vec<u8>),
    Fault,
>)
    ensures
        match (r, captured(properties(metadata@), raw@, uuid@)) {
            (Ok((c, rgba)), Ok((e, pixels))) => c == e && rgba@ == pixels && countable(
                c.width,
                c.height,
            ),
            (Err(f), Err(e)) => f@ == e,
            _ => false,
        },
{
    let capture = match parse_capture_metadata(metadata, uuid) {
        Ok(capture) => capture,
        Err(fault) => return Err(fault),
    };
    proof {
        lemma_captures_are_countable(capture.width, capture.height, capture.stride);
    }
    match bgra_to_rgba(raw, capture.width, capture.height, capture.stride, capture.format) {
        Ok(rgba) => Ok((capture, rgba)),
        Err(fault) => Err(fault),
    }
}

/// A capture that was accepted holds as many bytes as were announced, at most
/// the limit, and gives four bytes for each pixel of the picture.
pub proof fn law_captures_are_whole(m: MetadataView, raw: Seq<u8>, uuid: Seq<char>)
    requires
        captured(m, raw, uuid) is Ok,
    ensures
        ({
            let (c, rgba) = captured(m, raw, uuid)->Ok_0;
            &&& raw.len() == c.stride * c.height
            &&& raw.len() <= MAX_RAW_BYTES
            &&& c.width > 0 && c.height > 0
            &&& rgba.len() == c.width * c.height * 4
        }),
{
    let (c, rgba) = captured(m, raw, uuid)->Ok_0;
    assert(c.width * c.height * 4 >= 0) by (nonlinear_arith)
        requires
            c.width >= 0,
            c.height >= 0,
    ;
}

/// A capture may hold more bytes only as long as it stays within the limit.
pub fn within_limit(held: usize, more: usize) -> (r: Result<(), Fault>)
    ensures
        agrees(
            r,
            if held + more > MAX_RAW_BYTES {
                Err(general("KWin screenshot exceeds the 268435456-byte safety limit"@))
            } else {
                Ok(())
            },
        ),
{
    if more > MAX_RAW_BYTES || held > MAX_RAW_BYTES - more {
        Err(Fault::of("KWin screenshot exceeds the 268435456-byte safety limit"))
    } else {
        Ok(())
    }
}

/// The failure of a capture that the compositor refused.
pub open spec fn refused(uuid: Seq<char>, why: Seq<char>) -> FaultView {
    if occurs(why, "NoAuthorized"@) || occurs(why, "NotAuthorized"@) {
        general(
            "KWin denied ScreenShot2 authorization; the desktop entry must declare X-KDE-DBUS-Restricted-Interfaces=org.kde.KWin.ScreenShot2"@,
        )
    } else {
        under("failed to capture KWin window "@ + uuid, general(why))
    }
}

/// Reports that the compositor refused a capture.
pub fn capture_refusal(uuid: &str, why: String) -> (r: Fault)
    ensures
        r@ == refused(uuid@, why@),
{
    if contains(why.as_str(), "NoAuthorized") || contains(why.as_str(), "NotAuthorized") {
        return Fault::of(
            "KWin denied ScreenShot2 authorization; the desktop entry must declare X-KDE-DBUS-Restricted-Interfaces=org.kde.KWin.ScreenShot2",
        );
    }
    let mut heading = "failed to capture KWin window ".to_owned();
    heading.append(uuid);
    Fault::new(why).context(heading.as_str())
}

/// A picture of a window. The scale is that of its pixels to compositor
/// coordinates.
#[derive(Debug)]
pub struct WindowScreenshot {
    pub png: Vec<u8>,
    pub width: u32,
    pub height: u32,
    pub scale: Real,
}

/// What a picture of a window is.
pub struct ScreenshotView {
    pub png: Seq<u8>,
    pub width: u32,
    pub height: u32,
    pub scale: Real,
}

impl View for WindowScreenshot {
    type V = ScreenshotView;

    open spec fn view(&self) -> ScreenshotView {
        ScreenshotView {
            png: self.png@,
            width: self.width,
            height: self.height,
            scale: self.scale,
        }
    }
}

/// What follows from one capture of a window.
#[derive(Debug)]
pub enum Verdict<P, F> {
    Accepted(P),
    /// Take another capture, after `BLANK_CAPTURE_RETRY_DELAY_MS`.
    Retry,
    Failed(F),
}

/// The captures of one window: how many were taken and found blank.
#[derive(Debug)]
pub struct Captures {
    pub uuid: String,
    pub blank: usize,
}

/// Whether a window can be captured.
pub open spec fn capturable(w: WindowView) -> Result<(), FaultView> {
    if w.minimized {
        Err(general("cannot capture minimized KWin window UUID "@ + w.uuid))
    } else {
        Ok(())
    }
}

/// The failure after too many blank captures.
pub open spec fn always_blank(uuid: Seq<char>) -> FaultView {
    general(
        "KWin returned 3 consecutive blank captures for window "@ + uuid
            + "; the compositor did not render a usable frame"@,
    )
}

/// What follows from a capture, when `blank` were blank before it.
pub open spec fn verdict(uuid: Seq<char>, blank: int, c: CaptureMetadata, rgba: Seq<u8>) -> Verdict<
    ScreenshotView,
    FaultView,
> {
    if !is_blank(rgba) {
        match png_result(png_outcome(c.width, c.height, rgba)) {
            Ok(png) => Verdict::Accepted(
                ScreenshotView { png, width: c.width, height: c.height, scale: c.scale },
            ),
            Err(e) => Verdict::Failed(e),
        }
    } else if blank < BLANK_CAPTURE_RETRIES {
        Verdict::Retry
    } else {
        Verdict::Failed(always_blank(uuid))
    }
}

impl Captures {
    /// Begins with a window, which must not be minimized.
    pub fn start(window: &WindowInfo) -> (r: Result<Captures, Fault>)
        ensures
            match (r, capturable(window@)) {
                (Ok(c), Ok(())) => c.uuid@ == window@.uuid && c.blank == 0,
                (Err(f), Err(e)) => f@ == e,
                _ => false,
            },
    {
        if window.minimized {
            let mut message = "cannot capture minimized KWin window UUID ".to_owned();
            message.append(window.uuid.as_str());
            return Err(Fault::new(message));
        }
        Ok(Captures { uuid: window.uuid.clone(), blank: 0 })
    }

    /// Decides what follows from a capture. Only a blank one is taken again,
    /// and only so often.
    pub fn judge(&mut self, c: CaptureMetadata, rgba: &[u8]) -> (r: Verdict<WindowScreenshot, Fault>)
        requires
            countable(c.width, c.height),
        ensures
            final(self).uuid@ == old(self).uuid@,
            final(self).blank == old(self).blank + if r is Retry {
                1int
            } else {
                0int
            },
            match (r, verdict(old(self).uuid@, old(self).blank as int, c, rgba@)) {
                (Verdict::Accepted(s), Verdict::Accepted(e)) => s@ == e,
                (Verdict::Retry, Verdict::Retry) => true,
                (Verdict::Failed(f), Verdict::Failed(e)) => f@ == e,
                _ => false,
            },
    {
        if !frame_is_blank(rgba) {
            return match encode_png(c.width, c.height, rgba) {
                Ok(png) => Verdict::Accepted(
                    WindowScreenshot { png, width: c.width, height: c.height, scale: c.scale },
                ),
                Err(fault) => Verdict::Failed(fault),
            };
        }
        if self.blank < BLANK_CAPTURE_RETRIES {
            self.blank = self.blank + 1;
            return Verdict::Retry;
        }
        let mut message = "KWin returned 3 consecutive blank captures for window ".to_owned();
        message.append(self.uuid.as_str());
        message.append("; the compositor did not render a usable frame");
        Verdict::Failed(Fault::new(message))
    }
}

/// A blank picture is never handed out, and no more than three captures are
/// taken for one picture.
pub proof fn law_blank_captures_are_refused(
    uuid: Seq<char>,
    blank: int,
    c: CaptureMetadata,
    rgba: Seq<u8>,
)
    ensures
        verdict(uuid, blank, c, rgba) is Accepted ==> !is_blank(rgba),
        verdict(uuid, blank, c, rgba) is Retry ==> is_blank(rgba) && blank + 1
            <= BLANK_CAPTURE_RETRIES,
{
}

/// The pixels of a picture that show nothing or next to nothing.
pub open spec fn dark_pixels(rgba: Seq<u8>) -> Set<int> {
    Set::new(
        |p: int|
            0 <= p < rgba.len() / 4 && (rgba[4 * p + 3] == 0 || (rgba[4 * p] <= 8 && rgba[4 * p + 1]
                <= 8 && rgba[4 * p + 2] <= 8)),
    )
}

proof fn lemma_dark_among(rgba: Seq<u8>, n: nat)
    requires
        n <= rgba.len() / 4,
    ensures
        Set::new(|p: int| 0 <= p < n && dark_pixels(rgba).contains(p)).finite(),
        Set::new(|p: int| 0 <= p < n && dark_pixels(rgba).contains(p)).len() == dark_among(rgba, n),
    decreases n,
{
    let now = Set::new(|p: int| 0 <= p < n && dark_pixels(rgba).contains(p));
    if n == 0 {
        assert(now =~= Set::empty());
    } else {
        let before = Set::new(|p: int| 0 <= p < n - 1 && dark_pixels(rgba).contains(p));
        lemma_dark_among(rgba, (n - 1) as nat);
        if is_dark(rgba, n - 1) {
            assert(now =~= before.insert(n - 1));
        } else {
            assert(now =~= before);
        }
    }
}

/// A picture is blank just where it has pixels and no more than one in two
/// hundred of them shows something.
pub proof fn law_blank_pictures_show_next_to_nothing(rgba: Seq<u8>)
    ensures
        dark_pixels(rgba).finite(),
        is_blank(rgba) <==> rgba.len() >= 4 && 200 * (rgba.len() / 4 - dark_pixels(rgba).len())
            <= rgba.len() / 4,
{
    let n = rgba.len() / 4;
    lemma_dark_among(rgba, n);
    assert(Set::new(|p: int| 0 <= p < n && dark_pixels(rgba).contains(p)) =~= dark_pixels(rgba));
}

/// What is handed out is the picture of what was captured, in the size and at
/// the scale of the capture; a blank capture is taken again until it was taken
/// three times.
pub proof fn law_pictures_are_those_captured(
    uuid: Seq<char>,
    blank: int,
    c: CaptureMetadata,
    rgba: Seq<u8>,
)
    ensures
        match verdict(uuid, blank, c, rgba) {
            Verdict::Accepted(s) => {
                &&& s.width == c.width && s.height == c.height && s.scale == c.scale
                &&& png_outcome(c.width, c.height, rgba) == Ok::<Seq<u8>, PngFailure<Seq<char>>>(
                    s.png,
                )
                &&& !is_blank(rgba)
            },
            Verdict::Retry => is_blank(rgba) && blank < 2,
            Verdict::Failed(_) => is_blank(rgba) && blank >= 2 || png_outcome(
                c.width,
                c.height,
                rgba,
            ) is Err,
        },
{
}

/// A capture is taken only for what the compositor says of it: raw pixels of
/// the very window that was asked for, in one of the two formats, with sizes
/// that are each reported under their own name and that its rows can hold.
pub proof fn law_captures_are_as_reported(m: MetadataView, uuid: Seq<char>)
    requires
        reported_capture(m, uuid) is Ok,
    ensures
        ({
            let c = reported_capture(m, uuid)->Ok_0;
            &&& reports(m, "type"@, MetaValue::Text("raw"@))
            &&& reports(m, "windowId"@, MetaValue::Text(uuid))
            &&& reports(m, "format"@, MetaValue::Uint32(c.format))
            &&& reports(m, "width"@, MetaValue::Uint32(c.width))
            &&& reports(m, "height"@, MetaValue::Uint32(c.height))
            &&& reports(m, "stride"@, MetaValue::Uint32(c.stride))
            &&& reports(m, "scale"@, MetaValue::Double(c.scale))
            &&& c.format == 5 || c.format == 6
            &&& c.width > 0 && c.height > 0
            &&& 4 * c.width <= c.stride
            &&& c.stride * c.height <= 268435456
            &&& c.scale.finite() && c.scale.units() > 0
        }),
{
    assert(Real { bits: 0 }.units() == 0);
    lemma_reported(m, "type"@);
    lemma_reported(m, "windowId"@);
    lemma_reported(m, "format"@);
    lemma_reported(m, "width"@);
    lemma_reported(m, "height"@);
    lemma_reported(m, "stride"@);
    lemma_reported(m, "scale"@);
}

/// Pixels are taken just where there are as many bytes as were announced.
pub proof fn law_pixels_are_taken_where_they_are_whole(
    raw: Seq<u8>,
    width: u32,
    height: u32,
    stride: u32,
    format: u32,
)
    requires
        raw.len() <= usize::MAX,
    ensures
        converted(raw, width, height, stride, format) is Ok <==> raw.len() == stride * height,
{
}

/// A capture that is reported as it has to be is taken.
pub proof fn law_good_captures_are_taken(m: MetadataView, uuid: Seq<char>, c: CaptureMetadata)
    requires
        reports(m, "type"@, MetaValue::Text("raw"@)),
        reports(m, "windowId"@, MetaValue::Text(uuid)),
        reports(m, "format"@, MetaValue::Uint32(c.format)),
        reports(m, "width"@, MetaValue::Uint32(c.width)),
        reports(m, "height"@, MetaValue::Uint32(c.height)),
        reports(m, "stride"@, MetaValue::Uint32(c.stride)),
        reports(m, "scale"@, MetaValue::Double(c.scale)),
        c.format == 5 || c.format == 6,
        c.width > 0,
        c.height > 0,
        4 * c.width <= c.stride,
        c.stride * c.height <= 268435456,
        c.scale.finite(),
        c.scale.units() > 0,
    ensures
        reported_capture(m, uuid) == Ok::<CaptureMetadata, FaultView>(c),
{
    assert(Real { bits: 0 }.units() == 0);
    lemma_report_is_found(m, "type"@, MetaValue::Text("raw"@));
    lemma_report_is_found(m, "windowId"@, MetaValue::Text(uuid));
    lemma_report_is_found(m, "format"@, MetaValue::Uint32(c.format));
    lemma_report_is_found(m, "width"@, MetaValue::Uint32(c.width));
    lemma_report_is_found(m, "height"@, MetaValue::Uint32(c.height));
    lemma_report_is_found(m, "stride"@, MetaValue::Uint32(c.stride));
    lemma_report_is_found(m, "scale"@, MetaValue::Double(c.scale));
}

/// A window can be captured just where it is not minimized.
pub proof fn law_minimized_windows_are_not_captured(w: WindowView)
    ensures
        capturable(w) is Err <==> w.minimized,
{
}

} // verus!
