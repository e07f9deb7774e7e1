//! Laws of images: what is read of a container is what its bytes say.

use crate::digest;
use crate::models::image;
use crate::models::image::{ImageFault, ImageMediaType, ImageView};
use vstd::prelude::*;

verus! {

/// Two bytes as a number, the higher one first.
pub open spec fn high_first_2(a: u8, b: u8) -> int {
    a * 256 + b
}

/// Four bytes as a number, the highest one first.
pub open spec fn high_first_4(a: u8, b: u8, c: u8, d: u8) -> int {
    ((a * 256 + b) * 256 + c) * 256 + d
}

/// Two bytes as a number, the lower one first.
pub open spec fn low_first_2(a: u8, b: u8) -> int {
    a + b * 256
}

/// Three bytes as a number, the lowest one first.
pub open spec fn low_first_3(a: u8, b: u8, c: u8) -> int {
    a + (b + c * 256) * 256
}

/// Whether bytes stand in others at a place.
pub open spec fn stands(data: Seq<u8>, at: int, bytes: Seq<u8>) -> bool {
    0 <= at && at + bytes.len() <= data.len() && forall|k: int|
        0 <= k < bytes.len() ==> #[trigger] data[at + k] == bytes[k]
}

proof fn lemma_stands(data: Seq<u8>, at: int, bytes: Seq<u8>)
    ensures
        image::holds_at(data, at, bytes) == stands(data, at, bytes),
{
    if image::holds_at(data, at, bytes) {
        assert forall|k: int| 0 <= k < bytes.len() implies #[trigger] data[at + k] == bytes[k] by {
            assert(data.subrange(at, at + bytes.len())[k] == bytes[k]);
        }
    }
    if stands(data, at, bytes) {
        assert forall|k: int| 0 <= k < bytes.len() implies #[trigger] data.subrange(
            at,
            at + bytes.len(),
        )[k] == bytes[k] by {
            assert(data[at + k] == bytes[k]);
        }
        assert(data.subrange(at, at + bytes.len()) =~= bytes);
    }
}

proof fn lemma_png_end(data: Seq<u8>, cursor: int, d: (u32, u32))
    requires
        0 <= cursor,
    ensures
        match image::png_walk(data, cursor, Some(d)) {
            Some(found) => found == d && data.len() >= 12 && stands(
                data,
                data.len() - 8,
                seq![0x49u8, 0x45, 0x4e, 0x44],
            ),
            None => true,
        },
    decreases data.len() - cursor,
{
    if cursor + 12 <= data.len() {
        let length = image::be_u32(data, cursor) as int;
        let end = cursor + 12 + length;
        lemma_stands(data, cursor + 4, seq![0x49u8, 0x45, 0x4e, 0x44]);
        if end <= data.len() && !image::holds_at(
            data,
            cursor + 4,
            seq![0x49u8, 0x45, 0x4e, 0x44],
        ) {
            lemma_png_end(data, end, d);
        }
    }
}

/// A PNG image has the width and the height that its header tells, which stands right
/// behind its signature, and it ends with its end chunk.
pub proof fn law_png_sizes_are_those_of_the_header(data: Seq<u8>)
    ensures
        image::inspect_spec(data) matches Ok((kind, width, height)) ==> kind == ImageMediaType::Png
            ==> {
            &&& data.len() >= 45
            &&& stands(data, 0, seq![0x89u8, 0x50, 0x4e, 0x47, 0x0d, 0x0a, 0x1a, 0x0a])
            &&& stands(data, 12, seq![0x49u8, 0x48, 0x44, 0x52])
            &&& width == high_first_4(data[16], data[17], data[18], data[19])
            &&& height == high_first_4(data[20], data[21], data[22], data[23])
            &&& stands(data, data.len() - 8, seq![0x49u8, 0x45, 0x4e, 0x44])
        },
{
    lemma_stands(data, 0, seq![0x89u8, 0x50, 0x4e, 0x47, 0x0d, 0x0a, 0x1a, 0x0a]);
    lemma_stands(data, 12, seq![0x49u8, 0x48, 0x44, 0x52]);
    lemma_stands(data, 12, seq![0x49u8, 0x45, 0x4e, 0x44]);
    if data.len() >= 45 {
        let known = (image::be_u32(data, 16), image::be_u32(data, 20));
        let end = 20 + image::be_u32(data, 8) as int;
        lemma_png_end(data, end, known);
        if stands(data, 12, seq![0x49u8, 0x48, 0x44, 0x52]) {
            let tag = seq![0x49u8, 0x48, 0x44, 0x52];
            assert(data[12int + 1] == tag[1]);
            assert(!stands(data, 12, seq![0x49u8, 0x45, 0x4e, 0x44])) by {
                let other = seq![0x49u8, 0x45, 0x4e, 0x44];
                assert(other[1] == 0x45u8);
                if stands(data, 12, other) {
                    assert(data[12int + 1] == other[1]);
                }
            }
        }
    }
}

/// A chunk of a PNG image: its length, its tag, what it holds, and its checksum.
pub open spec fn png_chunk(tag: Seq<u8>, payload: Seq<u8>, check: Seq<u8>) -> Seq<u8> {
    let n = payload.len() as int;
    seq![
        (n / 16777216) as u8,
        (n / 65536 % 256) as u8,
        (n / 256 % 256) as u8,
        (n % 256) as u8,
    ] + tag + payload + check
}

/// Chunks of a PNG image, each given by its tag, what it holds and its checksum.
pub open spec fn png_chunks(chunks: Seq<(Seq<u8>, Seq<u8>, Seq<u8>)>) -> Seq<u8>
    decreases chunks.len(),
{
    if chunks.len() == 0 {
        Seq::empty()
    } else {
        png_chunk(chunks[0].0, chunks[0].1, chunks[0].2) + png_chunks(chunks.drop_first())
    }
}

/// Whether a chunk is whole and is not the last one.
pub open spec fn is_inner_chunk(c: (Seq<u8>, Seq<u8>, Seq<u8>)) -> bool {
    &&& c.0.len() == 4
    &&& c.0 != seq![0x49u8, 0x45, 0x4e, 0x44]
    &&& c.1.len() < 0x1_0000_0000
    &&& c.2.len() == 4
}

proof fn lemma_chunk(before: Seq<u8>, c: (Seq<u8>, Seq<u8>, Seq<u8>), after: Seq<u8>)
    requires
        c.0.len() == 4,
        c.1.len() < 0x1_0000_0000,
        c.2.len() == 4,
    ensures
        ({
            let data = before + (png_chunk(c.0, c.1, c.2) + after);
            let at = before.len() as int;
            &&& png_chunk(c.0, c.1, c.2).len() == 12 + c.1.len()
            &&& image::be_u32(data, at) == c.1.len()
            &&& data.subrange(at + 4, at + 8) == c.0
            &&& forall|k: int| 0 <= k < c.1.len() ==> #[trigger] data[at + 8 + k] == c.1[k]
        }),
{
    let data = before + (png_chunk(c.0, c.1, c.2) + after);
    let at = before.len() as int;
    let n = c.1.len() as int;
    let chunk = png_chunk(c.0, c.1, c.2);
    assert(data[at] == chunk[0] && data[at + 1] == chunk[1] && data[at + 2] == chunk[2] && data[at
        + 3] == chunk[3]);
    assert(chunk[0] == (n / 16777216) as u8);
    assert(chunk[1] == (n / 65536 % 256) as u8);
    assert(chunk[2] == (n / 256 % 256) as u8);
    assert(chunk[3] == (n % 256) as u8);
    assert(0 <= n / 16777216 < 256);
    assert((n / 16777216) * 16777216 + (n / 65536 % 256) * 65536 + (n / 256 % 256) * 256 + n % 256
        == n);
    assert(data.subrange(at + 4, at + 8) =~= c.0);
    assert forall|k: int| 0 <= k < c.1.len() implies #[trigger] data[at + 8 + k] == c.1[k] by {
        assert(data[at + 8 + k] == chunk[8 + k]);
    }
}

proof fn lemma_png_chunks(
    before: Seq<u8>,
    chunks: Seq<(Seq<u8>, Seq<u8>, Seq<u8>)>,
    check: Seq<u8>,
    d: (u32, u32),
)
    requires
        forall|i: int| 0 <= i < chunks.len() ==> is_inner_chunk(#[trigger] chunks[i]),
        check.len() == 4,
    ensures
        image::png_walk(
            before + (png_chunks(chunks) + png_chunk(
                seq![0x49u8, 0x45, 0x4e, 0x44],
                Seq::empty(),
                check,
            )),
            before.len() as int,
            Some(d),
        ) == Some(d),
    decreases chunks.len(),
{
    let tail = png_chunk(seq![0x49u8, 0x45, 0x4e, 0x44], Seq::empty(), check);
    let data = before + (png_chunks(chunks) + tail);
    let at = before.len() as int;
    if chunks.len() == 0 {
        assert(data =~= before + (tail + Seq::<u8>::empty()));
        lemma_chunk(
            before,
            (seq![0x49u8, 0x45, 0x4e, 0x44], Seq::<u8>::empty(), check),
            Seq::empty(),
        );
    } else {
        let c = chunks[0];
        let rest = chunks.drop_first();
        assert forall|i: int| 0 <= i < rest.len() implies is_inner_chunk(#[trigger] rest[i]) by {
            assert(rest[i] == chunks[i + 1]);
        }
        let chunk = png_chunk(c.0, c.1, c.2);
        assert(data =~= before + (chunk + (png_chunks(rest) + tail)));
        lemma_chunk(before, c, png_chunks(rest) + tail);
        assert(data =~= (before + chunk) + (png_chunks(rest) + tail));
        lemma_png_chunks(before + chunk, rest, check, d);
    }
}

/// A PNG image that is written with a width and a height is read with that width and that
/// height, whatever other chunks it holds.
pub proof fn law_written_pngs_are_read(
    head: Seq<u8>,
    head_check: Seq<u8>,
    chunks: Seq<(Seq<u8>, Seq<u8>, Seq<u8>)>,
    end_check: Seq<u8>,
)
    requires
        head.len() == 13,
        head_check.len() == 4,
        forall|i: int| 0 <= i < chunks.len() ==> is_inner_chunk(#[trigger] chunks[i]),
        end_check.len() == 4,
    ensures
        image::inspect_spec(
            seq![0x89u8, 0x50, 0x4e, 0x47, 0x0d, 0x0a, 0x1a, 0x0a] + (png_chunk(
                seq![0x49u8, 0x48, 0x44, 0x52],
                head,
                head_check,
            ) + (png_chunks(chunks) + png_chunk(
                seq![0x49u8, 0x45, 0x4e, 0x44],
                Seq::empty(),
                end_check,
            ))),
        ) == Ok::<(ImageMediaType, u32, u32), ImageFault>(
            (
                ImageMediaType::Png,
                high_first_4(head[0], head[1], head[2], head[3]) as u32,
                high_first_4(head[4], head[5], head[6], head[7]) as u32,
            ),
        ),
{
    let signature = seq![0x89u8, 0x50, 0x4e, 0x47, 0x0d, 0x0a, 0x1a, 0x0a];
    let tag = seq![0x49u8, 0x48, 0x44, 0x52];
    let first = png_chunk(tag, head, head_check);
    let tail = png_chunk(seq![0x49u8, 0x45, 0x4e, 0x44], Seq::empty(), end_check);
    let data = signature + (first + (png_chunks(chunks) + tail));
    lemma_chunk(signature, (tag, head, head_check), png_chunks(chunks) + tail);
    assert(data.subrange(0, 8) =~= signature);
    assert(data =~= (signature + first) + (png_chunks(chunks) + tail));
    let d = (image::be_u32(data, 16), image::be_u32(data, 20));
    lemma_png_chunks(signature + first, chunks, end_check, d);
    assert forall|k: int| 0 <= k < 13 implies #[trigger] data[8 + 8 + k] == head[k] by {}
    assert(data[8int + 8 + 0] == head[0]);
    assert(data[8int + 8 + 1] == head[1]);
    assert(data[8int + 8 + 2] == head[2]);
    assert(data[8int + 8 + 3] == head[3]);
    assert(data[8int + 8 + 4] == head[4]);
    assert(data[8int + 8 + 5] == head[5]);
    assert(data[8int + 8 + 6] == head[6]);
    assert(data[8int + 8 + 7] == head[7]);
    assert(tail.len() == 12);
    assert(data.len() >= 45);
    assert(tag[1] == 0x48u8);
    assert(seq![0x49u8, 0x45, 0x4e, 0x44][1] == 0x45u8);
    assert(tag != seq![0x49u8, 0x45, 0x4e, 0x44]);
}

/// Whether a JPEG segment that starts a frame stands at a place and tells a size.
pub open spec fn is_frame(data: Seq<u8>, at: int, width: u32, height: u32) -> bool {
    &&& 2 <= at
    &&& at + 9 <= data.len()
    &&& 0xc0 <= data[at] <= 0xcf
    &&& data[at] != 0xc4 && data[at] != 0xc8 && data[at] != 0xcc
    &&& height == high_first_2(data[at + 4], data[at + 5])
    &&& width == high_first_2(data[at + 6], data[at + 7])
}

/// Whether a JPEG image has a segment that starts a frame of a size.
pub open spec fn has_frame(data: Seq<u8>, width: u32, height: u32) -> bool {
    exists|at: int| is_frame(data, at, width, height)
}

proof fn lemma_jpeg(data: Seq<u8>, cursor: int)
    requires
        2 <= cursor,
    ensures
        match image::jpeg_walk(data, cursor) {
            Some((width, height)) => has_frame(data, width, height),
            None => true,
        },
    decreases data.len() - cursor,
{
    if cursor < data.len() {
        image::lemma_skip_fill(data, cursor);
        let at = image::skip_fill(data, cursor);
        if at < data.len() {
            let marker = data[at];
            let body = at + 1;
            if marker == 0x00 || 0xd0 <= marker <= 0xd9 {
                lemma_jpeg(data, body);
            } else if body + 2 <= data.len() {
                let length = image::be_u16(data, body) as int;
                if length >= 2 && body + length <= data.len() {
                    if image::start_of_frame(marker) {
                        if length >= 8 {
                            assert(is_frame(
                                data,
                                at,
                                image::be_u16(data, body + 5) as u32,
                                image::be_u16(data, body + 3) as u32,
                            ));
                        }
                    } else if marker != 0xda {
                        lemma_jpeg(data, body + length);
                    }
                }
            }
        }
    }
}

/// A JPEG image has the size that the segment which starts its frame tells: first the
/// height, then the width.
pub proof fn law_jpeg_sizes_are_those_of_the_frame(data: Seq<u8>)
    ensures
        image::inspect_spec(data) matches Ok((kind, width, height)) ==> kind == ImageMediaType::Jpeg
            ==> {
            &&& stands(data, 0, seq![0xffu8, 0xd8])
            &&& stands(data, data.len() - 2, seq![0xffu8, 0xd9])
            &&& has_frame(data, width, height)
        },
{
    lemma_stands(data, 0, seq![0xffu8, 0xd8]);
    lemma_stands(data, data.len() - 2, seq![0xffu8, 0xd9]);
    lemma_jpeg(data, 2);
}

/// Whether a WebP chunk that tells a size stands at a place and tells that size: an
/// extended one, a lossless one or a lossy one.
pub open spec fn is_size_chunk(data: Seq<u8>, at: int, width: u32, height: u32) -> bool {
    &&& 12 <= at
    &&& {
        ||| {
            &&& at + 18 <= data.len()
            &&& stands(data, at, seq![0x56u8, 0x50, 0x38, 0x58])
            &&& width == 1 + low_first_3(data[at + 12], data[at + 13], data[at + 14])
            &&& height == 1 + low_first_3(data[at + 15], data[at + 16], data[at + 17])
        }
        ||| {
            &&& at + 13 <= data.len()
            &&& stands(data, at, seq![0x56u8, 0x50, 0x38, 0x4c])
            &&& data[at + 8] == 0x2f
            &&& (height - 1) * 16384 + (width - 1) == low_first_2(data[at + 9], data[at + 10])
                + low_first_2(data[at + 11], (data[at + 12] % 16) as u8) * 65536
            &&& 1 <= width <= 16384
        }
        ||| {
            &&& at + 18 <= data.len()
            &&& stands(data, at, seq![0x56u8, 0x50, 0x38, 0x20])
            &&& stands(data, at + 11, seq![0x9du8, 0x01, 0x2a])
            &&& width == low_first_2(data[at + 14], data[at + 15]) % 16384
            &&& height == low_first_2(data[at + 16], data[at + 17]) % 16384
        }
    }
}

/// Whether a WebP image has a chunk that tells a size.
pub open spec fn has_size_chunk(data: Seq<u8>, width: u32, height: u32) -> bool {
    exists|at: int| is_size_chunk(data, at, width, height)
}

proof fn lemma_webp(data: Seq<u8>, cursor: int)
    requires
        12 <= cursor,
    ensures
        match image::webp_walk(data, cursor) {
            Some((width, height)) => has_size_chunk(data, width, height),
            None => true,
        },
    decreases data.len() + 1 - cursor,
{
    if cursor + 8 <= data.len() {
        let length = image::le_u32(data, cursor + 4) as int;
        let end = cursor + 8 + length;
        if end <= data.len() {
            match image::webp_chunk(data, cursor, length) {
                Some((width, height)) => {
                    lemma_stands(data, cursor, seq![0x56u8, 0x50, 0x38, 0x58]);
                    lemma_stands(data, cursor, seq![0x56u8, 0x50, 0x38, 0x4c]);
                    lemma_stands(data, cursor, seq![0x56u8, 0x50, 0x38, 0x20]);
                    let mark = seq![0x9du8, 0x01, 0x2a];
                    if length >= 10 && data[cursor + 11] == 0x9d && data[cursor + 12] == 0x01
                        && data[cursor + 13] == 0x2a {
                        assert forall|k: int| 0 <= k < 3 implies #[trigger] data[cursor + 11 + k]
                            == mark[k] by {
                            assert(k == 0 || k == 1 || k == 2);
                        }
                        assert(stands(data, cursor + 11, mark));
                    }
                    assert(is_size_chunk(data, cursor, width, height));
                },
                None => {
                    lemma_webp(data, end + length % 2);
                },
            }
        }
    }
}

/// A WebP image has the size that one of its chunks tells.
pub proof fn law_webp_sizes_are_those_of_a_chunk(data: Seq<u8>)
    ensures
        image::inspect_spec(data) matches Ok((kind, width, height)) ==> kind == ImageMediaType::WebP
            ==> {
            &&& stands(data, 0, seq![0x52u8, 0x49, 0x46, 0x46])
            &&& stands(data, 8, seq![0x57u8, 0x45, 0x42, 0x50])
            &&& has_size_chunk(data, width, height)
        },
{
    lemma_stands(data, 0, seq![0x52u8, 0x49, 0x46, 0x46]);
    lemma_stands(data, 8, seq![0x57u8, 0x45, 0x42, 0x50]);
    lemma_webp(data, 12);
}

/// A sealed image has the name that it was given, and the size, the type, the digest and
/// the encoded text of its bytes. Its sides and its area are bounded.
pub proof fn law_sealed_images_are_their_bytes(name: Seq<char>, data: Seq<u8>)
    ensures
        image::seal_spec(name, data) matches Ok(v) ==> {
            &&& v.name == name
            &&& v.bytes == data.len()
            &&& 0 < data.len() <= 4 * 1024 * 1024
            &&& v.digest == digest::blake3_hex(data)
            &&& v.data_base64 == digest::base64_text(data)
            &&& image::inspect_spec(data) == Ok::<(ImageMediaType, u32, u32), ImageFault>(
                (v.media_type, v.width, v.height),
            )
            &&& v.width > 0 && v.height > 0
            &&& forall|i: int| 0 <= i < name.len() ==> #[trigger] name[i] != '/' && name[i] != '\\'
        },
{
    if image::seal_spec(name, data) is Ok {
        assert forall|i: int| 0 <= i < name.len() implies #[trigger] name[i] != '/' && name[i]
            != '\\' by {
            assert(name.contains(name[i]));
        }
    }
}

/// The tiles that are reserved for a side are as many as it takes to cover it, and no
/// more.
pub proof fn law_tiles_cover_a_side(side: u32)
    requires
        side > 0,
    ensures
        (image::tiles(side) - 1) * 768 < side <= image::tiles(side) * 768,
{
}

/// How many bytes images take together.
pub open spec fn bytes_together(images: Seq<ImageView>) -> nat
    decreases images.len(),
{
    if images.len() == 0 {
        0
    } else {
        bytes_together(images.drop_last()) + images.last().bytes as nat
    }
}

proof fn lemma_bytes_together(images: Seq<ImageView>)
    ensures
        bytes_together(images) == image::total_bytes(images),
    decreases images.len(),
{
    if images.len() > 0 {
        lemma_bytes_together(images.drop_last());
    }
}

proof fn lemma_first_repeat(images: Seq<ImageView>, i: int)
    requires
        0 <= i,
    ensures
        image::first_repeat(images, i) is Some <==> exists|j: int|
            i <= j < images.len() && #[trigger] image::repeats(images, j),
    decreases images.len() - i,
{
    if i < images.len() && !image::repeats(images, i) {
        lemma_first_repeat(images, i + 1);
    }
}

/// A set of images is accepted if and only if it holds at most four, none twice, and at
/// most twelve mebibytes together. What is told of it are their number and their bytes.
pub proof fn law_image_sets_are_small_and_distinct(images: Seq<ImageView>)
    ensures
        image::image_set_spec(images) is Ok <==> images.len() <= 4 && bytes_together(images)
            <= 12 * 1024 * 1024 && forall|i: int, j: int|
            0 <= i < j < images.len() ==> (#[trigger] images[i]).digest != (
            #[trigger] images[j]).digest,
        image::image_set_spec(images) matches Ok(s) ==> s.count == images.len() && s.total_bytes
            == bytes_together(images),
{
    lemma_bytes_together(images);
    lemma_first_repeat(images, 0);
    if image::first_repeat(images, 0) is Some {
        let j = choose|j: int| 0 <= j < images.len() && #[trigger] image::repeats(images, j);
        let i = choose|i: int| 0 <= i < j && (#[trigger] images[i]).digest == images[j].digest;
        assert(images[i].digest == images[j].digest);
    } else {
        assert forall|i: int, j: int| 0 <= i < j < images.len() implies (
        #[trigger] images[i]).digest != (#[trigger] images[j]).digest by {
            assert(!image::repeats(images, j));
        }
    }
}

} // verus!
