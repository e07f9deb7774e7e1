//! Inline images: container inspection, sealing, and bounded sets.

use crate::digest;
use crate::models::image_text;
use crate::outcome;
use crate::text;
use vstd::prelude::*;

verus! {

/// Maximum number of image artifacts accepted on one user turn.
pub const MAX_INPUT_IMAGES: usize = 4;

/// Maximum decoded bytes accepted for one image artifact.
pub const MAX_INPUT_IMAGE_BYTES: usize = 4194304;

/// Maximum aggregate decoded image bytes accepted on one user turn.
pub const MAX_TOTAL_INPUT_IMAGE_BYTES: usize = 12582912;

/// Maximum width or height accepted for an image artifact.
pub const MAX_INPUT_IMAGE_DIMENSION: u32 = 8000;

/// Maximum number of pixels accepted for an image artifact.
pub const MAX_INPUT_IMAGE_PIXELS: u64 = 64000000;

/// Longest image name, in bytes.
pub const MAX_INPUT_IMAGE_NAME_BYTES: usize = 255;

/// Longest base64 text of an image that is decoded.
pub const MAX_ENCODED_IMAGE_BYTES: usize = 5592408;

/// Provider-neutral image type supported by every first-party vision adapter.
#[derive(Clone, Copy, Debug, PartialEq, Eq, Structural)]
pub enum ImageMediaType {
    Png,
    Jpeg,
    WebP,
}

impl ImageMediaType {
    /// The fixed IANA media type sent to providers.
    pub open spec fn as_str_spec(self) -> Seq<char> {
        match self {
            ImageMediaType::Png => "image/png"@,
            ImageMediaType::Jpeg => "image/jpeg"@,
            ImageMediaType::WebP => "image/webp"@,
        }
    }

    /// Returns the fixed IANA media type sent to providers.
    pub fn as_str(self) -> (r: &'static str)
        ensures
            r@ == self.as_str_spec(),
    {
        match self {
            ImageMediaType::Png => "image/png",
            ImageMediaType::Jpeg => "image/jpeg",
            ImageMediaType::WebP => "image/webp",
        }
    }
}

/// Image sealing or set-validation failure.
#[derive(Debug)]
#[allow(inconsistent_fields)]
pub enum ImageArtifactError {
    EmptyUserContent,
    InvalidName,
    InvalidSize { actual: usize, limit: usize },
    InvalidContainer(&'static str),
    InvalidDimensions { width: u32, height: u32 },
    TooManyImages { actual: usize, limit: usize },
    TotalSize { actual: u64, limit: u64 },
    Duplicate(String),
}

/// What an [`ImageArtifactError`] says.
#[allow(inconsistent_fields)]
pub enum ImageFault {
    EmptyUserContent,
    InvalidName,
    InvalidSize { actual: usize, limit: usize },
    InvalidContainer(Seq<char>),
    InvalidDimensions { width: u32, height: u32 },
    TooManyImages { actual: usize, limit: usize },
    TotalSize { actual: u64, limit: u64 },
    Duplicate(Seq<char>),
}

impl DeepView for ImageArtifactError {
    type V = ImageFault;

    open spec fn deep_view(&self) -> ImageFault {
        match self {
            ImageArtifactError::EmptyUserContent => ImageFault::EmptyUserContent,
            ImageArtifactError::InvalidName => ImageFault::InvalidName,
            ImageArtifactError::InvalidSize { actual, limit } => ImageFault::InvalidSize {
                actual: *actual,
                limit: *limit,
            },
            ImageArtifactError::InvalidContainer(m) => ImageFault::InvalidContainer(m@),
            ImageArtifactError::InvalidDimensions {
                width,
                height,
            } => ImageFault::InvalidDimensions { width: *width, height: *height },
            ImageArtifactError::TooManyImages { actual, limit } => ImageFault::TooManyImages {
                actual: *actual,
                limit: *limit,
            },
            ImageArtifactError::TotalSize { actual, limit } => ImageFault::TotalSize {
                actual: *actual,
                limit: *limit,
            },
            ImageArtifactError::Duplicate(d) => ImageFault::Duplicate(d@),
        }
    }
}

/// The fault in words.
pub open spec fn image_message(f: ImageFault) -> Seq<char> {
    match f {
        ImageFault::EmptyUserContent =>
            "multimodal user content must contain text or at least one image"@,
        ImageFault::InvalidName => "image name must be a bounded filename, never a host path"@,
        ImageFault::InvalidSize { actual, limit } => "image has "@ + text::decimal(actual as nat)
            + " bytes; expected 1..="@ + text::decimal(limit as nat),
        ImageFault::InvalidContainer(m) =>
            "image container is unsupported or structurally malformed: "@ + m,
        ImageFault::InvalidDimensions { width, height } => "image dimensions "@ + text::decimal(
            width as nat,
        ) + "x"@ + text::decimal(height as nat) + " exceed the safety envelope"@,
        ImageFault::TooManyImages { actual, limit } => text::decimal(actual as nat)
            + " images were provided; at most "@ + text::decimal(limit as nat) + " are allowed"@,
        ImageFault::TotalSize { actual, limit } => "image set has "@ + text::decimal(actual as nat)
            + " decoded bytes; at most "@ + text::decimal(limit as nat) + " are allowed"@,
        ImageFault::Duplicate(d) => "image digest "@ + d + " was attached more than once"@,
    }
}

impl ImageArtifactError {
    /// The error in words.
    pub fn message(&self) -> (r: String)
        ensures
            r@ == image_message(self.deep_view()),
    {
        match self {
            ImageArtifactError::EmptyUserContent =>
                "multimodal user content must contain text or at least one image".to_owned(),
            ImageArtifactError::InvalidName =>
                "image name must be a bounded filename, never a host path".to_owned(),
            ImageArtifactError::InvalidSize { actual, limit } => text::concat4(
                "image has ",
                text::decimal_of(*actual).as_str(),
                " bytes; expected 1..=",
                text::decimal_of(*limit).as_str(),
            ),
            ImageArtifactError::InvalidContainer(m) => text::concat2(
                "image container is unsupported or structurally malformed: ",
                m,
            ),
            ImageArtifactError::InvalidDimensions { width, height } => text::concat5(
                "image dimensions ",
                text::decimal_text(*width as u64).as_str(),
                "x",
                text::decimal_text(*height as u64).as_str(),
                " exceed the safety envelope",
            ),
            ImageArtifactError::TooManyImages { actual, limit } => text::concat4(
                text::decimal_of(*actual).as_str(),
                " images were provided; at most ",
                text::decimal_of(*limit).as_str(),
                " are allowed",
            ),
            ImageArtifactError::TotalSize { actual, limit } => text::concat5(
                "image set has ",
                text::decimal_text(*actual).as_str(),
                " decoded bytes; at most ",
                text::decimal_text(*limit).as_str(),
                " are allowed",
            ),
            ImageArtifactError::Duplicate(d) => text::concat3(
                "image digest ",
                d.as_str(),
                " was attached more than once",
            ),
        }
    }
}

/// Two bytes as a big-endian number.
pub open spec fn be_u16(data: Seq<u8>, at: int) -> u16 {
    (data[at] * 256 + data[at + 1]) as u16
}

/// Four bytes as a big-endian number.
pub open spec fn be_u32(data: Seq<u8>, at: int) -> u32 {
    (data[at] * 16777216 + data[at + 1] * 65536 + data[at + 2] * 256 + data[at + 3]) as u32
}

/// Two bytes as a little-endian number.
pub open spec fn le_u16(data: Seq<u8>, at: int) -> u16 {
    (data[at + 1] * 256 + data[at]) as u16
}

/// Three bytes as a little-endian number.
pub open spec fn le_u24(data: Seq<u8>, at: int) -> u32 {
    (data[at + 2] * 65536 + data[at + 1] * 256 + data[at]) as u32
}

/// Four bytes as a little-endian number.
pub open spec fn le_u32(data: Seq<u8>, at: int) -> u32 {
    (data[at + 3] * 16777216 + data[at + 2] * 65536 + data[at + 1] * 256 + data[at]) as u32
}

/// Reads two bytes as a big-endian number.
pub fn read_be_u16(data: &[u8], offset: usize) -> (r: Option<u16>)
    ensures
        r == (if offset + 2 <= data@.len() {
            Some(be_u16(data@, offset as int))
        } else {
            None::<u16>
        }),
{
    if data.len() < 2 || offset > data.len() - 2 {
        return None;
    }
    Some(data[offset] as u16 * 256 + data[offset + 1] as u16)
}

/// Reads four bytes as a big-endian number.
pub fn read_be_u32(data: &[u8], offset: usize) -> (r: Option<u32>)
    ensures
        r == (if offset + 4 <= data@.len() {
            Some(be_u32(data@, offset as int))
        } else {
            None::<u32>
        }),
{
    if data.len() < 4 || offset > data.len() - 4 {
        return None;
    }
    Some(
        data[offset] as u32 * 16777216 + data[offset + 1] as u32 * 65536 + data[offset + 2] as u32
            * 256 + data[offset + 3] as u32,
    )
}

/// Reads two bytes as a little-endian number.
pub fn read_le_u16(data: &[u8], offset: usize) -> (r: Option<u16>)
    ensures
        r == (if offset + 2 <= data@.len() {
            Some(le_u16(data@, offset as int))
        } else {
            None::<u16>
        }),
{
    if data.len() < 2 || offset > data.len() - 2 {
        return None;
    }
    Some(data[offset + 1] as u16 * 256 + data[offset] as u16)
}

/// Reads three bytes as a little-endian number.
pub fn read_le_u24(data: &[u8], offset: usize) -> (r: Option<u32>)
    ensures
        r == (if offset + 3 <= data@.len() {
            Some(le_u24(data@, offset as int))
        } else {
            None::<u32>
        }),
{
    if data.len() < 3 || offset > data.len() - 3 {
        return None;
    }
    Some(
        data[offset + 2] as u32 * 65536 + data[offset + 1] as u32 * 256 + data[offset] as u32,
    )
}

/// Reads four bytes as a little-endian number.
pub fn read_le_u32(data: &[u8], offset: usize) -> (r: Option<u32>)
    ensures
        r == (if offset + 4 <= data@.len() {
            Some(le_u32(data@, offset as int))
        } else {
            None::<u32>
        }),
{
    if data.len() < 4 || offset > data.len() - 4 {
        return None;
    }
    Some(
        data[offset + 3] as u32 * 16777216 + data[offset + 2] as u32 * 65536 + data[offset
            + 1] as u32 * 256 + data[offset] as u32,
    )
}

/// Whether `data` holds `pattern` at `at`.
pub open spec fn holds_at(data: Seq<u8>, at: int, pattern: Seq<u8>) -> bool {
    0 <= at && at + pattern.len() <= data.len() && data.subrange(at, at + pattern.len()) == pattern
}

fn has_four(data: &[u8], at: usize, a: u8, b: u8, c: u8, d: u8) -> (r: bool)
    requires
        at + 4 <= data@.len(),
    ensures
        r == holds_at(data@, at as int, seq![a, b, c, d]),
{
    let r = data[at] == a && data[at + 1] == b && data[at + 2] == c && data[at + 3] == d;
    proof {
        let found = data@.subrange(at as int, at + 4);
        if r {
            assert(found =~= seq![a, b, c, d]);
        } else {
            assert(found[0] != a || found[1] != b || found[2] != c || found[3] != d);
            assert(seq![a, b, c, d][0] == a && seq![a, b, c, d][1] == b && seq![a, b, c, d][2] == c
                && seq![a, b, c, d][3] == d);
        }
    }
    r
}

/// The size that a PNG's chunks from `cursor` on tell, or that they told before.
pub open spec fn png_walk(data: Seq<u8>, cursor: int, dimensions: Option<(u32, u32)>) -> Option<
    (u32, u32),
>
    decreases data.len() - cursor,
{
    if cursor < 0 || cursor + 12 > data.len() {
        None
    } else {
        let length = be_u32(data, cursor) as int;
        let end = cursor + 12 + length;
        let header = holds_at(data, cursor + 4, seq![0x49, 0x48, 0x44, 0x52]);
        if end > data.len() || dimensions is None && (!header || length != 13) {
            None
        } else {
            let known = match dimensions {
                Some(d) => d,
                None => (be_u32(data, cursor + 8), be_u32(data, cursor + 12)),
            };
            if holds_at(data, cursor + 4, seq![0x49, 0x45, 0x4e, 0x44]) {
                if length == 0 && end == data.len() {
                    Some(known)
                } else {
                    None
                }
            } else {
                png_walk(data, end, Some(known))
            }
        }
    }
}

/// The size of a PNG image: an `IHDR` chunk first, an empty `IEND` chunk last, and
/// whole chunks between.
pub open spec fn png_spec(data: Seq<u8>) -> Result<(u32, u32), ImageFault> {
    match (if data.len() < 45 {
        None
    } else {
        png_walk(data, 8, None)
    }) {
        Some(d) => Ok(d),
        None => Err(ImageFault::InvalidContainer("invalid PNG chunk structure"@)),
    }
}

/// Reads the size of a PNG image.
pub fn inspect_png(data: &[u8]) -> (r: Result<(u32, u32), ImageArtifactError>)
    ensures
        outcome::of(r) == png_spec(data@),
{
    if data.len() < 45 {
        return Err(ImageArtifactError::InvalidContainer("invalid PNG chunk structure"));
    }
    let mut cursor: usize = 8;
    let mut dimensions: Option<(u32, u32)> = None;
    while cursor <= data.len() - 12
        invariant
            45 <= data@.len() == data.len(),
            cursor <= data@.len(),
            png_walk(data@, 8, None) == png_walk(data@, cursor as int, dimensions),
        decreases data@.len() - cursor,
    {
        let length: u32 = match read_be_u32(data, cursor) {
            Some(n) => n,
            None => {
                return Err(ImageArtifactError::InvalidContainer("invalid PNG chunk structure"));
            },
        };
        if length as u64 > (data.len() - 12 - cursor) as u64 {
            return Err(ImageArtifactError::InvalidContainer("invalid PNG chunk structure"));
        }
        let end: usize = cursor + 12 + length as usize;
        let known: (u32, u32) = match dimensions {
            Some(d) => d,
            None => {
                if !has_four(data, cursor + 4, 0x49, 0x48, 0x44, 0x52) || length != 13 {
                    return Err(ImageArtifactError::InvalidContainer("invalid PNG chunk structure"));
                }
                match (read_be_u32(data, cursor + 8), read_be_u32(data, cursor + 12)) {
                    (Some(w), Some(h)) => (w, h),
                    _ => {
                        return Err(
                            ImageArtifactError::InvalidContainer("invalid PNG chunk structure"),
                        );
                    },
                }
            },
        };
        if has_four(data, cursor + 4, 0x49, 0x45, 0x4e, 0x44) {
            if length == 0 && end == data.len() {
                return Ok(known);
            }
            return Err(ImageArtifactError::InvalidContainer("invalid PNG chunk structure"));
        }
        dimensions = Some(known);
        cursor = end;
    }
    Err(ImageArtifactError::InvalidContainer("invalid PNG chunk structure"))
}

/// Whether a JPEG marker starts a frame, whose header tells the image's size.
pub open spec fn start_of_frame(marker: u8) -> bool {
    ||| 0xc0 <= marker <= 0xc3
    ||| 0xc5 <= marker <= 0xc7
    ||| 0xc9 <= marker <= 0xcb
    ||| 0xcd <= marker <= 0xcf
}

/// Whether a JPEG marker starts a frame.
pub fn is_jpeg_start_of_frame(marker: u8) -> (r: bool)
    ensures
        r == start_of_frame(marker),
{
    (0xc0 <= marker && marker <= 0xc3) || (0xc5 <= marker && marker <= 0xc7) || (0xc9 <= marker
        && marker <= 0xcb) || (0xcd <= marker && marker <= 0xcf)
}

/// The first position from `i` on whose byte is no fill byte.
pub open spec fn skip_fill(data: Seq<u8>, i: int) -> int
    decreases data.len() - i,
{
    if 0 <= i < data.len() && data[i] == 0xff {
        skip_fill(data, i + 1)
    } else {
        i
    }
}

/// Skipping fill bytes goes forward and stays inside.
pub proof fn lemma_skip_fill(data: Seq<u8>, i: int)
    requires
        0 <= i <= data.len(),
    ensures
        i <= skip_fill(data, i) <= data.len(),
    decreases data.len() - i,
{
    if i < data.len() && data[i] == 0xff {
        lemma_skip_fill(data, i + 1);
    }
}

/// The size that a JPEG's segments from `cursor` on tell.
pub open spec fn jpeg_walk(data: Seq<u8>, cursor: int) -> Option<(u32, u32)>
    decreases data.len() - cursor,
{
    if cursor < 0 || cursor >= data.len() {
        None
    } else {
        proof {
            lemma_skip_fill(data, cursor);
        }
        let at = skip_fill(data, cursor);
        if at >= data.len() {
            None
        } else {
            let marker = data[at];
            let body = at + 1;
            if marker == 0x00 || 0xd0 <= marker <= 0xd9 {
                jpeg_walk(data, body)
            } else if body + 2 > data.len() {
                None
            } else {
                let length = be_u16(data, body) as int;
                if length < 2 || body + length > data.len() {
                    None
                } else if start_of_frame(marker) {
                    if length < 8 {
                        None
                    } else {
                        Some((be_u16(data, body + 5) as u32, be_u16(data, body + 3) as u32))
                    }
                } else if marker == 0xda {
                    None
                } else {
                    jpeg_walk(data, body + length)
                }
            }
        }
    }
}

/// The size of a JPEG image: segments up to the start of a frame, and an end marker
/// at the end.
pub open spec fn jpeg_spec(data: Seq<u8>) -> Result<(u32, u32), ImageFault> {
    match (if data.len() < 12 || !holds_at(data, data.len() - 2, seq![0xff, 0xd9]) {
        None
    } else {
        jpeg_walk(data, 2)
    }) {
        Some(d) => Ok(d),
        None => Err(ImageFault::InvalidContainer("invalid JPEG marker structure"@)),
    }
}

/// Reads the size of a JPEG image.
pub fn inspect_jpeg(data: &[u8]) -> (r: Result<(u32, u32), ImageArtifactError>)
    ensures
        outcome::of(r) == jpeg_spec(data@),
{
    if data.len() < 12 {
        return Err(ImageArtifactError::InvalidContainer("invalid JPEG marker structure"));
    }
    let size: usize = data.len();
    proof {
        let tail = data@.subrange(size - 2, size as int);
        assert(tail[0] == data@[size - 2] && tail[1] == data@[size - 1]);
        assert(seq![0xffu8, 0xd9u8][0] == 0xff && seq![0xffu8, 0xd9u8][1] == 0xd9);
        if data@[size - 2] == 0xff && data@[size - 1] == 0xd9 {
            assert(tail =~= seq![0xffu8, 0xd9u8]);
        }
    }
    if data[size - 2] != 0xff || data[size - 1] != 0xd9 {
        return Err(ImageArtifactError::InvalidContainer("invalid JPEG marker structure"));
    }
    let mut cursor: usize = 2;
    while cursor < size
        invariant
            12 <= size == data@.len(),
            cursor <= size,
            jpeg_walk(data@, 2) == jpeg_walk(data@, cursor as int),
            jpeg_spec(data@) == (match jpeg_walk(data@, 2) {
                Some(d) => Ok::<(u32, u32), ImageFault>(d),
                None => Err(ImageFault::InvalidContainer("invalid JPEG marker structure"@)),
            }),
        decreases size - cursor,
    {
        let mut at: usize = cursor;
        while at < size && data[at] == 0xff
            invariant
                size == data@.len(),
                cursor <= at <= size,
                skip_fill(data@, cursor as int) == skip_fill(data@, at as int),
            decreases size - at,
        {
            at += 1;
        }
        if at >= size {
            return Err(ImageArtifactError::InvalidContainer("invalid JPEG marker structure"));
        }
        let marker = data[at];
        let body: usize = at + 1;
        if marker == 0x00 || (0xd0 <= marker && marker <= 0xd9) {
            cursor = body;
        } else {
            let length: u16 = match read_be_u16(data, body) {
                Some(n) => n,
                None => {
                    return Err(
                        ImageArtifactError::InvalidContainer("invalid JPEG marker structure"),
                    );
                },
            };
            if length < 2 || length as usize > size - body {
                return Err(ImageArtifactError::InvalidContainer("invalid JPEG marker structure"));
            }
            if is_jpeg_start_of_frame(marker) {
                if length < 8 {
                    return Err(
                        ImageArtifactError::InvalidContainer("invalid JPEG marker structure"),
                    );
                }
                match (read_be_u16(data, body + 5), read_be_u16(data, body + 3)) {
                    (Some(width), Some(height)) => {
                        return Ok((width as u32, height as u32));
                    },
                    _ => {
                        return Err(
                            ImageArtifactError::InvalidContainer("invalid JPEG marker structure"),
                        );
                    },
                }
            }
            if marker == 0xda {
                return Err(ImageArtifactError::InvalidContainer("invalid JPEG marker structure"));
            }
            cursor = body + length as usize;
        }
    }
    Err(ImageArtifactError::InvalidContainer("invalid JPEG marker structure"))
}

/// The size that a WebP chunk tells, if it is one of those that tell it: `VP8X`,
/// `VP8L` or `VP8 `.
pub open spec fn webp_chunk(data: Seq<u8>, cursor: int, length: int) -> Option<(u32, u32)> {
    let payload = cursor + 8;
    if holds_at(data, cursor, seq![0x56, 0x50, 0x38, 0x58]) && length >= 10 {
        Some(
            ((1 + le_u24(data, payload + 4)) as u32, (1 + le_u24(data, payload + 7)) as u32),
        )
    } else if holds_at(data, cursor, seq![0x56, 0x50, 0x38, 0x4c]) && length >= 5 && data[payload]
        == 0x2f {
        let b1 = data[payload + 1];
        let b2 = data[payload + 2];
        let b3 = data[payload + 3];
        let b4 = data[payload + 4];
        Some(
            (
                (1 + b1 + (b2 % 64) * 256) as u32,
                (1 + b2 / 64 + b3 * 4 + (b4 % 16) * 1024) as u32,
            ),
        )
    } else if holds_at(data, cursor, seq![0x56, 0x50, 0x38, 0x20]) && length >= 10 && data[payload
        + 3] == 0x9d && data[payload + 4] == 0x01 && data[payload + 5] == 0x2a {
        Some(
            (
                (le_u16(data, payload + 6) % 16384) as u32,
                (le_u16(data, payload + 8) % 16384) as u32,
            ),
        )
    } else {
        None
    }
}

/// The size that a WebP's chunks from `cursor` on tell.
pub open spec fn webp_walk(data: Seq<u8>, cursor: int) -> Option<(u32, u32)>
    decreases data.len() + 1 - cursor,
{
    if cursor < 0 || cursor + 8 > data.len() {
        None
    } else {
        let length = le_u32(data, cursor + 4) as int;
        let end = cursor + 8 + length;
        if end > data.len() {
            None
        } else {
            match webp_chunk(data, cursor, length) {
                Some(d) => Some(d),
                None => webp_walk(data, end + length % 2),
            }
        }
    }
}

/// The size of a WebP image: a RIFF file of the declared length with a chunk that
/// tells the size.
pub open spec fn webp_spec(data: Seq<u8>) -> Result<(u32, u32), ImageFault> {
    match (if data.len() < 30 || !holds_at(data, 8, seq![0x57, 0x45, 0x42, 0x50]) || le_u32(data, 4)
        + 8 != data.len() {
        None
    } else {
        webp_walk(data, 12)
    }) {
        Some(d) => Ok(d),
        None => Err(ImageFault::InvalidContainer("invalid WebP RIFF structure"@)),
    }
}

/// Reads the size that one WebP chunk tells.
fn inspect_webp_chunk(data: &[u8], cursor: usize, length: usize) -> (r: Option<(u32, u32)>)
    requires
        cursor + 8 + length <= data@.len(),
    ensures
        r == webp_chunk(data@, cursor as int, length as int),
{
    assert(data@.len() == data.len());
    let payload: usize = cursor + 8;
    if has_four(data, cursor, 0x56, 0x50, 0x38, 0x58) && length >= 10 {
        return match (read_le_u24(data, payload + 4), read_le_u24(data, payload + 7)) {
            (Some(w), Some(h)) => Some((1 + w, 1 + h)),
            _ => None,
        };
    }
    if has_four(data, cursor, 0x56, 0x50, 0x38, 0x4c) && length >= 5 && data[payload] == 0x2f {
        let b1: u32 = data[payload + 1] as u32;
        let b2: u32 = data[payload + 2] as u32;
        let b3: u32 = data[payload + 3] as u32;
        let b4: u32 = data[payload + 4] as u32;
        return Some((1 + b1 + (b2 % 64) * 256, 1 + b2 / 64 + b3 * 4 + (b4 % 16) * 1024));
    }
    if has_four(data, cursor, 0x56, 0x50, 0x38, 0x20) && length >= 10 && data[payload + 3] == 0x9d
        && data[payload + 4] == 0x01 && data[payload + 5] == 0x2a {
        return match (read_le_u16(data, payload + 6), read_le_u16(data, payload + 8)) {
            (Some(w), Some(h)) => Some(((w % 16384) as u32, (h % 16384) as u32)),
            _ => None,
        };
    }
    None
}

/// Reads the size of a WebP image.
pub fn inspect_webp(data: &[u8]) -> (r: Result<(u32, u32), ImageArtifactError>)
    ensures
        outcome::of(r) == webp_spec(data@),
{
    if data.len() < 30 || !has_four(data, 8, 0x57, 0x45, 0x42, 0x50) {
        return Err(ImageArtifactError::InvalidContainer("invalid WebP RIFF structure"));
    }
    let declared: u32 = match read_le_u32(data, 4) {
        Some(n) => n,
        None => {
            return Err(ImageArtifactError::InvalidContainer("invalid WebP RIFF structure"));
        },
    };
    if declared as u64 != (data.len() - 8) as u64 {
        return Err(ImageArtifactError::InvalidContainer("invalid WebP RIFF structure"));
    }
    let mut cursor: usize = 12;
    while cursor <= data.len() - 8
        invariant
            30 <= data@.len() == data.len(),
            webp_walk(data@, 12) == webp_walk(data@, cursor as int),
            webp_spec(data@) == (match webp_walk(data@, 12) {
                Some(d) => Ok::<(u32, u32), ImageFault>(d),
                None => Err(ImageFault::InvalidContainer("invalid WebP RIFF structure"@)),
            }),
        decreases data@.len() + 2 - cursor,
    {
        let length: u32 = match read_le_u32(data, cursor + 4) {
            Some(n) => n,
            None => {
                return Err(ImageArtifactError::InvalidContainer("invalid WebP RIFF structure"));
            },
        };
        if length as u64 > (data.len() - 8 - cursor) as u64 {
            return Err(ImageArtifactError::InvalidContainer("invalid WebP RIFF structure"));
        }
        match inspect_webp_chunk(data, cursor, length as usize) {
            Some(d) => {
                return Ok(d);
            },
            None => {},
        }
        let end: usize = cursor + 8 + length as usize;
        if end == data.len() {
            assert(webp_walk(data@, end + length as int % 2) is None);
            return Err(ImageArtifactError::InvalidContainer("invalid WebP RIFF structure"));
        }
        cursor = end + (length % 2) as usize;
    }
    Err(ImageArtifactError::InvalidContainer("invalid WebP RIFF structure"))
}


/// Whether `data` starts with `pattern`.
pub open spec fn has_signature(data: Seq<u8>, pattern: Seq<u8>) -> bool {
    holds_at(data, 0, pattern)
}

/// The type and the size of an image, by the signature of its container.
pub open spec fn inspect_spec(data: Seq<u8>) -> Result<(ImageMediaType, u32, u32), ImageFault> {
    if has_signature(data, seq![0x89, 0x50, 0x4e, 0x47, 0x0d, 0x0a, 0x1a, 0x0a]) {
        match png_spec(data) {
            Ok((w, h)) => Ok((ImageMediaType::Png, w, h)),
            Err(e) => Err(e),
        }
    } else if has_signature(data, seq![0xff, 0xd8]) {
        match jpeg_spec(data) {
            Ok((w, h)) => Ok((ImageMediaType::Jpeg, w, h)),
            Err(e) => Err(e),
        }
    } else if has_signature(data, seq![0x52, 0x49, 0x46, 0x46]) {
        match webp_spec(data) {
            Ok((w, h)) => Ok((ImageMediaType::WebP, w, h)),
            Err(e) => Err(e),
        }
    } else {
        Err(ImageFault::InvalidContainer("expected PNG, JPEG, or WebP signature"@))
    }
}

fn signed_with(data: &[u8], pattern: &Vec<u8>) -> (r: bool)
    ensures
        r == has_signature(data@, pattern@),
{
    if data.len() < pattern.len() {
        return false;
    }
    let mut i: usize = 0;
    while i < pattern.len()
        invariant
            i <= pattern@.len() <= data@.len(),
            forall|k: int| 0 <= k < i ==> data@[k] == pattern@[k],
        decreases pattern@.len() - i,
    {
        if data[i] != pattern[i] {
            assert(data@.subrange(0, pattern@.len() as int)[i as int] != pattern@[i as int]);
            return false;
        }
        i += 1;
    }
    assert(data@.subrange(0, pattern@.len() as int) =~= pattern@);
    true
}

impl DeepView for ImageMediaType {
    type V = ImageMediaType;

    open spec fn deep_view(&self) -> ImageMediaType {
        *self
    }
}

/// Recognizes an image's container and reads its size.
pub fn inspect_image(data: &[u8]) -> (r: Result<(ImageMediaType, u32, u32), ImageArtifactError>)
    ensures
        outcome::of(r) == inspect_spec(data@),
{
    let png: Vec<u8> = vec![0x89, 0x50, 0x4e, 0x47, 0x0d, 0x0a, 0x1a, 0x0a];
    let jpeg: Vec<u8> = vec![0xff, 0xd8];
    let riff: Vec<u8> = vec![0x52, 0x49, 0x46, 0x46];
    assert(png@ =~= seq![0x89u8, 0x50, 0x4e, 0x47, 0x0d, 0x0a, 0x1a, 0x0a]);
    assert(jpeg@ =~= seq![0xffu8, 0xd8]);
    assert(riff@ =~= seq![0x52u8, 0x49, 0x46, 0x46]);
    if signed_with(data, &png) {
        let (w, h) = inspect_png(data)?;
        Ok((ImageMediaType::Png, w, h))
    } else if signed_with(data, &jpeg) {
        let (w, h) = inspect_jpeg(data)?;
        Ok((ImageMediaType::Jpeg, w, h))
    } else if signed_with(data, &riff) {
        let (w, h) = inspect_webp(data)?;
        Ok((ImageMediaType::WebP, w, h))
    } else {
        Err(ImageArtifactError::InvalidContainer("expected PNG, JPEG, or WebP signature"))
    }
}

/// Whether an image may bear this name: a bounded file name without path
/// separators and control characters.
pub open spec fn name_allowed(name: Seq<char>) -> bool {
    &&& name.len() > 0
    &&& text::utf8_len(name) <= MAX_INPUT_IMAGE_NAME_BYTES
    &&& !name.contains('/')
    &&& !name.contains('\\')
    &&& !text::has_control(name)
    &&& name != "."@
    &&& name != ".."@
}

/// Checks an image's name.
pub fn validate_image_name(name: &str) -> (r: Result<(), ImageArtifactError>)
    ensures
        outcome::of(r) == (if name_allowed(name@) {
            Ok::<(), ImageFault>(())
        } else {
            Err(ImageFault::InvalidName)
        }),
{
    if name.is_empty() || text::byte_len(name) > MAX_INPUT_IMAGE_NAME_BYTES || text::contains_char(
        name,
        '/',
    ) || text::contains_char(name, '\\') || text::any_control(name) || text::same(name, ".")
        || text::same(name, "..") {
        Err(ImageArtifactError::InvalidName)
    } else {
        Ok(())
    }
}

/// Whether an image of this size is within the safety envelope.
pub open spec fn size_allowed(width: u32, height: u32) -> bool {
    &&& 0 < width <= MAX_INPUT_IMAGE_DIMENSION
    &&& 0 < height <= MAX_INPUT_IMAGE_DIMENSION
    &&& width * height <= MAX_INPUT_IMAGE_PIXELS
}

/// Checks an image's size.
pub fn validate_dimensions(width: u32, height: u32) -> (r: Result<(), ImageArtifactError>)
    ensures
        outcome::of(r) == (if size_allowed(width, height) {
            Ok::<(), ImageFault>(())
        } else {
            Err(ImageFault::InvalidDimensions { width, height })
        }),
{
    assert(width * height <= 4294967295 * 4294967295) by (nonlinear_arith)
        requires
            width <= 4294967295,
            height <= 4294967295,
    ;
    assert(0 <= width * height) by (nonlinear_arith);
    if width == 0 || height == 0 || width > MAX_INPUT_IMAGE_DIMENSION || height
        > MAX_INPUT_IMAGE_DIMENSION || width as u64 * height as u64 > MAX_INPUT_IMAGE_PIXELS {
        Err(ImageArtifactError::InvalidDimensions { width, height })
    } else {
        Ok(())
    }
}

/// Integrity-bound inline image whose host path has been deliberately erased.
#[derive(PartialEq, Eq)]
pub struct ImageArtifact {
    name: String,
    media_type: ImageMediaType,
    data_base64: String,
    digest: String,
    bytes: u64,
    width: u32,
    height: u32,
}

/// What an [`ImageArtifact`] records.
pub struct ImageView {
    pub name: Seq<char>,
    pub media_type: ImageMediaType,
    pub data_base64: Seq<char>,
    pub digest: Seq<char>,
    pub bytes: u64,
    pub width: u32,
    pub height: u32,
}

impl DeepView for ImageArtifact {
    type V = ImageView;

    closed spec fn deep_view(&self) -> ImageView {
        ImageView {
            name: self.name@,
            media_type: self.media_type,
            data_base64: self.data_base64@,
            digest: self.digest@,
            bytes: self.bytes,
            width: self.width,
            height: self.height,
        }
    }
}

impl Clone for ImageArtifact {
    fn clone(&self) -> (r: Self)
        ensures
            r.deep_view() == self.deep_view(),
    {
        ImageArtifact {
            name: self.name.clone(),
            media_type: self.media_type,
            data_base64: self.data_base64.clone(),
            digest: self.digest.clone(),
            bytes: self.bytes,
            width: self.width,
            height: self.height,
        }
    }
}

/// The sealed image that a name and a complete image file make.
pub open spec fn seal_spec(name: Seq<char>, data: Seq<u8>) -> Result<ImageView, ImageFault> {
    if !name_allowed(name) {
        Err(ImageFault::InvalidName)
    } else if data.len() == 0 || data.len() > MAX_INPUT_IMAGE_BYTES {
        Err(
            ImageFault::InvalidSize { actual: data.len() as usize, limit: MAX_INPUT_IMAGE_BYTES },
        )
    } else {
        match inspect_spec(data) {
            Err(e) => Err(e),
            Ok((media_type, width, height)) => if !size_allowed(width, height) {
                Err(ImageFault::InvalidDimensions { width, height })
            } else {
                Ok(
                    ImageView {
                        name,
                        media_type,
                        data_base64: digest::base64_text(data),
                        digest: digest::blake3_hex(data),
                        bytes: data.len() as u64,
                        width,
                        height,
                    },
                )
            },
        }
    }
}

/// What an image looks like on the wire, before it is trusted.
pub struct WireImage {
    pub name: String,
    pub media_type: ImageMediaType,
    pub data_base64: String,
    pub digest: String,
    pub bytes: u64,
    pub width: u32,
    pub height: u32,
}

impl DeepView for WireImage {
    type V = ImageView;

    open spec fn deep_view(&self) -> ImageView {
        ImageView {
            name: self.name@,
            media_type: self.media_type,
            data_base64: self.data_base64@,
            digest: self.digest@,
            bytes: self.bytes,
            width: self.width,
            height: self.height,
        }
    }
}

/// Whether the recorded facts of a wire image are those of the image rebuilt from
/// its bytes.
pub open spec fn same_facts(a: ImageView, b: ImageView) -> bool {
    a.media_type == b.media_type && a.digest == b.digest && a.bytes == b.bytes && a.width == b.width
        && a.height == b.height
}

/// What a wire image is accepted as, or why not, once its bytes have been decoded.
pub open spec fn reseal_spec(
    wire: ImageView,
    data: Result<Seq<u8>, Seq<char>>,
) -> Result<ImageView, Seq<char>> {
    if text::utf8_len(wire.data_base64) > MAX_ENCODED_IMAGE_BYTES {
        Err("encoded image exceeds its safety bound"@)
    } else {
        match data {
            Err(m) => Err(m),
            Ok(bytes) => match seal_spec(wire.name, bytes) {
                Err(e) => Err(image_message(e)),
                Ok(rebuilt) => if same_facts(rebuilt, wire) {
                    Ok(rebuilt)
                } else {
                    Err("image metadata or digest does not match the sealed bytes"@)
                },
            },
        }
    }
}

/// Number of tiles of 768 pixels that cover a side.
pub open spec fn tiles(side: u32) -> nat {
    ((side + 767) / 768) as nat
}

/// Input tokens reserved for an image: 258 for each tile.
pub open spec fn image_tokens(width: u32, height: u32) -> nat {
    tiles(width) * tiles(height) * 258
}

impl ImageArtifact {
    /// Validates and seals one complete local image byte string.
    ///
    /// The file extension is ignored: the container's signature, structure and
    /// size decide. The text of a sealed image decodes to its bytes, the image is
    /// accepted from the wire again as the image that it was, and its description does
    /// not hold its text, unless its quoted name or its quoted digest does.
    pub fn from_bytes(name: &str, data: &[u8]) -> (r: Result<ImageArtifact, ImageArtifactError>)
        ensures
            outcome::of(r) == seal_spec(name@, data@),
            match r {
                Ok(image) => {
                    let v = image.deep_view();
                    &&& digest::base64_bytes(v.data_base64) == digest::decoded(data@)
                    &&& v.data_base64.len() == digest::base64_len(data@.len())
                    &&& reseal_spec(v, digest::base64_bytes(v.data_base64)) == Ok::<
                        ImageView,
                        Seq<char>,
                    >(v)
                    &&& !text::contains_text(text::debug_view(v.name), v.data_base64)
                        && !text::contains_text(text::debug_view(v.digest), v.data_base64)
                        ==> !text::contains_text(debug_spec(v), v.data_base64)
                },
                Err(_) => true,
            },
    {
        validate_image_name(name)?;
        if data.len() == 0 || data.len() > MAX_INPUT_IMAGE_BYTES {
            return Err(
                ImageArtifactError::InvalidSize {
                    actual: data.len(),
                    limit: MAX_INPUT_IMAGE_BYTES,
                },
            );
        }
        let (media_type, width, height) = inspect_image(data)?;
        validate_dimensions(width, height)?;
        let image = ImageArtifact {
            name: name.to_owned(),
            media_type,
            data_base64: digest::encode_base64(data),
            digest: digest::content_digest(data),
            bytes: data.len() as u64,
            width,
            height,
        };
        proof {
            let v = image.deep_view();
            image_text::lemma_ascii_len(v.data_base64);
            if !text::contains_text(text::debug_view(v.name), v.data_base64)
                && !text::contains_text(text::debug_view(v.digest), v.data_base64) {
                image_text::lemma_description_holds_no_bytes(v);
            }
        }
        Ok(image)
    }

    /// Accepts a wire image if its recorded facts are those of its bytes.
    pub fn from_wire(wire: WireImage) -> (r: Result<ImageArtifact, String>)
        ensures
            outcome::of(r) == reseal_spec(
                wire.deep_view(),
                digest::base64_bytes(wire.data_base64@),
            ),
    {
        if text::byte_len(wire.data_base64.as_str()) > MAX_ENCODED_IMAGE_BYTES {
            return Err("encoded image exceeds its safety bound".to_owned());
        }
        let data = digest::decode_base64(wire.data_base64.as_str());
        ImageArtifact::from_decoded(wire, data)
    }

    /// Accepts a wire image, whose text has been decoded, if its recorded facts are
    /// those of its bytes.
    pub fn from_decoded(wire: WireImage, data: Result<Vec<u8>, String>) -> (r: Result<
        ImageArtifact,
        String,
    >)
        ensures
            outcome::of(r) == reseal_spec(
                wire.deep_view(),
                match data {
                    Ok(b) => Ok::<Seq<u8>, Seq<char>>(b@),
                    Err(m) => Err(m@),
                },
            ),
    {
        if text::byte_len(wire.data_base64.as_str()) > MAX_ENCODED_IMAGE_BYTES {
            return Err("encoded image exceeds its safety bound".to_owned());
        }
        let bytes = match data {
            Ok(b) => b,
            Err(m) => {
                return Err(m);
            },
        };
        let rebuilt = match ImageArtifact::from_bytes(wire.name.as_str(), bytes.as_slice()) {
            Ok(image) => image,
            Err(e) => {
                return Err(e.message());
            },
        };
        if rebuilt.media_type != wire.media_type || !text::same(
            rebuilt.digest.as_str(),
            wire.digest.as_str(),
        ) || rebuilt.bytes != wire.bytes || rebuilt.width != wire.width || rebuilt.height
            != wire.height {
            return Err("image metadata or digest does not match the sealed bytes".to_owned());
        }
        Ok(rebuilt)
    }

    /// The image's file name.
    pub fn name(&self) -> (r: &str)
        ensures
            r@ == self.deep_view().name,
    {
        self.name.as_str()
    }

    /// The image's type.
    pub fn media_type(&self) -> (r: ImageMediaType)
        ensures
            r == self.deep_view().media_type,
    {
        self.media_type
    }

    /// The image's bytes in base64.
    pub fn data_base64(&self) -> (r: &str)
        ensures
            r@ == self.deep_view().data_base64,
    {
        self.data_base64.as_str()
    }

    /// The digest of the image's bytes.
    pub fn digest(&self) -> (r: &str)
        ensures
            r@ == self.deep_view().digest,
    {
        self.digest.as_str()
    }

    /// The number of the image's bytes.
    pub fn bytes(&self) -> (r: u64)
        ensures
            r == self.deep_view().bytes,
    {
        self.bytes
    }

    /// The image's width in pixels.
    pub fn width(&self) -> (r: u32)
        ensures
            r == self.deep_view().width,
    {
        self.width
    }

    /// The image's height in pixels.
    pub fn height(&self) -> (r: u32)
        ensures
            r == self.deep_view().height,
    {
        self.height
    }

    /// Conservative provider-neutral input-token reservation.
    pub fn estimated_input_tokens(&self) -> (r: u64)
        ensures
            r == image_tokens(self.deep_view().width, self.deep_view().height),
    {
        let horizontal: u64 = (self.width as u64 + 767) / 768;
        let vertical: u64 = (self.height as u64 + 767) / 768;
        assert(horizontal * vertical <= 5592406 * 5592406) by (nonlinear_arith)
            requires
                horizontal <= 5592406,
                vertical <= 5592406,
        ;
        horizontal * vertical * 258
    }

    /// A description for logs, which leaves the image's bytes out.
    pub fn debug_string(&self) -> (r: String)
        ensures
            r@ == debug_spec(self.deep_view()),
    {
        let mut out = text::concat4(
            "ImageArtifact { name: ",
            text::debug_text(self.name.as_str()).as_str(),
            ", media_type: ",
            self.media_type.label(),
        );
        out.push_str(", digest: ");
        out.push_str(text::debug_text(self.digest.as_str()).as_str());
        out.push_str(", bytes: ");
        out.push_str(text::decimal_text(self.bytes).as_str());
        out.push_str(", width: ");
        out.push_str(text::decimal_text(self.width as u64).as_str());
        out.push_str(", height: ");
        out.push_str(text::decimal_text(self.height as u64).as_str());
        out.push_str(", .. }");
        out
    }
}

impl ImageMediaType {
    /// The type's name in descriptions.
    pub open spec fn label_spec(self) -> Seq<char> {
        match self {
            ImageMediaType::Png => "Png"@,
            ImageMediaType::Jpeg => "Jpeg"@,
            ImageMediaType::WebP => "WebP"@,
        }
    }

    /// The type's name in descriptions.
    pub fn label(self) -> (r: &'static str)
        ensures
            r@ == self.label_spec(),
    {
        match self {
            ImageMediaType::Png => "Png",
            ImageMediaType::Jpeg => "Jpeg",
            ImageMediaType::WebP => "WebP",
        }
    }
}

/// The description of an image for logs: everything but its bytes.
pub open spec fn debug_spec(v: ImageView) -> Seq<char> {
    "ImageArtifact { name: "@ + text::debug_view(v.name) + ", media_type: "@
        + v.media_type.label_spec() + ", digest: "@ + text::debug_view(v.digest) + ", bytes: "@
        + text::decimal(v.bytes as nat) + ", width: "@ + text::decimal(v.width as nat)
        + ", height: "@ + text::decimal(v.height as nat) + ", .. }"@
}

/// The description for logs does not depend on an image's bytes: images that differ in
/// their base64 text alone are described alike.
pub proof fn law_descriptions_leave_the_bytes_out(a: ImageView, b: ImageView)
    requires
        a == (ImageView { data_base64: a.data_base64, ..b }),
    ensures
        debug_spec(a) == debug_spec(b),
{
}

/// A wire image is accepted only with the type, digest and size that its own bytes
/// have, and only if those bytes could have been sealed.
pub proof fn law_acceptance_revalidates(wire: ImageView, data: Result<Seq<u8>, Seq<char>>)
    requires
        reseal_spec(wire, data) is Ok,
    ensures
        data is Ok,
        seal_spec(wire.name, data->Ok_0) == Ok::<ImageView, ImageFault>(
            reseal_spec(wire, data)->Ok_0,
        ),
        same_facts(reseal_spec(wire, data)->Ok_0, wire),
        wire.digest == digest::blake3_hex(data->Ok_0),
        wire.bytes == data->Ok_0.len(),
        size_allowed(wire.width, wire.height),
{
}

/// One user instruction with explicitly attached, integrity-bound images.
pub struct UserContent {
    pub text: String,
    pub images: Vec<ImageArtifact>,
}

/// A [`UserContent`] by its text and its images' facts.
pub struct UserContentView {
    pub text: Seq<char>,
    pub images: Seq<ImageView>,
}

impl DeepView for UserContent {
    type V = UserContentView;

    open spec fn deep_view(&self) -> UserContentView {
        UserContentView { text: self.text@, images: self.images.deep_view() }
    }
}

impl Clone for UserContent {
    fn clone(&self) -> (r: Self)
        ensures
            r.deep_view() == self.deep_view(),
    {
        let images = self.images.clone();
        assert(images.deep_view() =~= self.images.deep_view());
        UserContent { text: self.text.clone(), images }
    }
}

/// Aggregate facts used to reserve transport and context capacity.
#[derive(Clone, Debug, PartialEq, Eq, Structural)]
pub struct ImageSetSummary {
    pub count: usize,
    pub total_bytes: u64,
    pub estimated_input_tokens: u64,
}

impl DeepView for ImageSetSummary {
    type V = ImageSetSummary;

    open spec fn deep_view(&self) -> ImageSetSummary {
        *self
    }
}

/// Whether image `i` has the digest of an earlier one.
pub open spec fn repeats(images: Seq<ImageView>, i: int) -> bool {
    exists|j: int| 0 <= j < i && (#[trigger] images[j]).digest == images[i].digest
}

/// The first image from `i` on that has the digest of an earlier one.
pub open spec fn first_repeat(images: Seq<ImageView>, i: int) -> Option<int>
    decreases images.len() - i,
{
    if i < 0 || i >= images.len() {
        None
    } else if repeats(images, i) {
        Some(i)
    } else {
        first_repeat(images, i + 1)
    }
}

/// The bytes of all images.
pub open spec fn total_bytes(images: Seq<ImageView>) -> nat
    decreases images.len(),
{
    if images.len() == 0 {
        0
    } else {
        total_bytes(images.drop_last()) + images.last().bytes as nat
    }
}

/// The tokens reserved for all images.
pub open spec fn total_tokens(images: Seq<ImageView>) -> nat
    decreases images.len(),
{
    if images.len() == 0 {
        0
    } else {
        total_tokens(images.drop_last()) + image_tokens(
            images.last().width,
            images.last().height,
        )
    }
}

/// `n`, or the largest number of 64 bits if `n` is larger.
pub open spec fn saturated(n: nat) -> u64 {
    if n <= u64::MAX {
        n as u64
    } else {
        u64::MAX
    }
}

/// The totals of an image set, or why it is refused.
pub open spec fn image_set_spec(images: Seq<ImageView>) -> Result<ImageSetSummary, ImageFault> {
    if images.len() > MAX_INPUT_IMAGES {
        Err(
            ImageFault::TooManyImages { actual: images.len() as usize, limit: MAX_INPUT_IMAGES },
        )
    } else {
        match first_repeat(images, 0) {
            Some(i) => Err(ImageFault::Duplicate(images[i].digest)),
            None => if saturated(total_bytes(images)) > MAX_TOTAL_INPUT_IMAGE_BYTES {
                Err(
                    ImageFault::TotalSize {
                        actual: saturated(total_bytes(images)),
                        limit: MAX_TOTAL_INPUT_IMAGE_BYTES as u64,
                    },
                )
            } else {
                Ok(
                    ImageSetSummary {
                        count: images.len() as usize,
                        total_bytes: saturated(total_bytes(images)),
                        estimated_input_tokens: saturated(total_tokens(images)),
                    },
                )
            },
        }
    }
}

fn repeats_earlier(images: &Vec<ImageArtifact>, i: usize) -> (r: bool)
    requires
        i < images@.len(),
    ensures
        r == repeats(images.deep_view(), i as int),
{
    let ghost all = images.deep_view();
    assert(all[i as int] == images@[i as int].deep_view());
    let mut j: usize = 0;
    while j < i
        invariant
            j <= i < images@.len(),
            all == images.deep_view(),
            all[i as int] == images@[i as int].deep_view(),
            forall|k: int| 0 <= k < j ==> (#[trigger] all[k]).digest != all[i as int].digest,
        decreases i - j,
    {
        assert(all[j as int] == images@[j as int].deep_view());
        if text::same(images[j].digest(), images[i].digest()) {
            assert(all[j as int].digest == all[i as int].digest);
            return true;
        }
        j += 1;
    }
    false
}

/// Validates one complete image set and returns its bounded resource totals.
pub fn validate_image_set(images: &Vec<ImageArtifact>) -> (r: Result<
    ImageSetSummary,
    ImageArtifactError,
>)
    ensures
        outcome::of(r) == image_set_spec(images.deep_view()),
{
    let ghost all = images.deep_view();
    assert(all.len() == images@.len());
    if images.len() > MAX_INPUT_IMAGES {
        return Err(
            ImageArtifactError::TooManyImages { actual: images.len(), limit: MAX_INPUT_IMAGES },
        );
    }
    let mut bytes: u64 = 0;
    let mut tokens: u64 = 0;
    let mut i: usize = 0;
    assert(all.take(0) =~= Seq::<ImageView>::empty());
    while i < images.len()
        invariant
            i <= images@.len() == all.len(),
            images@.len() <= MAX_INPUT_IMAGES,
            all == images.deep_view(),
            first_repeat(all, 0) == first_repeat(all, i as int),
            bytes == saturated(total_bytes(all.take(i as int))),
            tokens == saturated(total_tokens(all.take(i as int))),
        decreases images@.len() - i,
    {
        assert(all[i as int] == images@[i as int].deep_view());
        if repeats_earlier(images, i) {
            return Err(ImageArtifactError::Duplicate(images[i].digest().to_owned()));
        }
        assert(all.take(i as int + 1).drop_last() =~= all.take(i as int));
        assert(all.take(i as int + 1).last() == all[i as int]);
        bytes = bytes.saturating_add(images[i].bytes());
        tokens = tokens.saturating_add(images[i].estimated_input_tokens());
        i += 1;
    }
    assert(all.take(all.len() as int) =~= all);
    if bytes > MAX_TOTAL_INPUT_IMAGE_BYTES as u64 {
        return Err(
            ImageArtifactError::TotalSize {
                actual: bytes,
                limit: MAX_TOTAL_INPUT_IMAGE_BYTES as u64,
            },
        );
    }
    Ok(
        ImageSetSummary {
            count: images.len(),
            total_bytes: bytes,
            estimated_input_tokens: tokens,
        },
    )
}

/// The user content that a text and images make, or why they make none.
pub open spec fn user_content_spec(t: Seq<char>, images: Seq<ImageView>) -> Result<
    UserContentView,
    ImageFault,
> {
    if t.len() == 0 && images.len() == 0 {
        Err(ImageFault::EmptyUserContent)
    } else {
        match image_set_spec(images) {
            Err(e) => Err(e),
            Ok(_) => Ok(UserContentView { text: t, images }),
        }
    }
}

impl UserContent {
    /// Creates validated multimodal user content.
    pub fn new(content: &str, images: Vec<ImageArtifact>) -> (r: Result<
        UserContent,
        ImageArtifactError,
    >)
        ensures
            outcome::of(r) == user_content_spec(content@, images.deep_view()),
    {
        assert(images.deep_view().len() == images@.len());
        if content.is_empty() && images.len() == 0 {
            return Err(ImageArtifactError::EmptyUserContent);
        }
        validate_image_set(&images)?;
        Ok(UserContent { text: content.to_owned(), images })
    }
}

/// An accepted image set has at most four images, all with different digests, and
/// at most the total number of bytes.
pub proof fn law_accepted_image_sets_are_bounded(images: Seq<ImageView>)
    requires
        image_set_spec(images) is Ok,
    ensures
        images.len() <= MAX_INPUT_IMAGES,
        forall|i: int, j: int|
            0 <= i < j < images.len() ==> (#[trigger] images[i]).digest != (
            #[trigger] images[j]).digest,
        total_bytes(images) <= MAX_TOTAL_INPUT_IMAGE_BYTES,
{
    lemma_no_repeat(images, 0);
    assert forall|i: int, j: int| 0 <= i < j < images.len() implies (#[trigger] images[i]).digest
        != (#[trigger] images[j]).digest by {
        assert(!repeats(images, j));
    }
}

proof fn lemma_no_repeat(images: Seq<ImageView>, i: int)
    requires
        0 <= i,
        first_repeat(images, i) is None,
    ensures
        forall|j: int| i <= j < images.len() ==> !#[trigger] repeats(images, j),
    decreases images.len() - i,
{
    if i < images.len() {
        lemma_no_repeat(images, i + 1);
    }
}

} // verus!
