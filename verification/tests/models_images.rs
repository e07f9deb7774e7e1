//! Images, their sets, and the size of requests.

use pactrail::json::Json;
use pactrail::models::attachments::{parts_json, ImageWire};
use pactrail::models::image::{
    validate_image_set, ImageArtifact, ImageArtifactError, ImageMediaType, UserContent, WireImage,
    MAX_INPUT_IMAGES,
};
use pactrail::models::requests::{validate_request_body_size, MAX_INLINE_MODEL_REQUEST_BYTES};

fn tiny_png(width: u32, height: u32) -> Vec<u8> {
    let mut bytes = b"\x89PNG\r\n\x1a\n".to_vec();
    bytes.extend_from_slice(&13_u32.to_be_bytes());
    bytes.extend_from_slice(b"IHDR");
    bytes.extend_from_slice(&width.to_be_bytes());
    bytes.extend_from_slice(&height.to_be_bytes());
    bytes.extend_from_slice(&[8, 2, 0, 0, 0]);
    bytes.extend_from_slice(&[0; 4]);
    bytes.extend_from_slice(&0_u32.to_be_bytes());
    bytes.extend_from_slice(b"IEND");
    bytes.extend_from_slice(&[0; 4]);
    bytes
}

fn tiny_jpeg(width: u16, height: u16) -> Vec<u8> {
    let mut bytes = vec![0xff, 0xd8, 0xff, 0xc0, 0x00, 0x0b, 8];
    bytes.extend_from_slice(&height.to_be_bytes());
    bytes.extend_from_slice(&width.to_be_bytes());
    bytes.extend_from_slice(&[1, 1, 0x11, 0]);
    bytes.extend_from_slice(&[0xff, 0xd9]);
    bytes
}

fn tiny_webp(width: u32, height: u32) -> Vec<u8> {
    let mut bytes = b"RIFF".to_vec();
    bytes.extend_from_slice(&22_u32.to_le_bytes());
    bytes.extend_from_slice(b"WEBPVP8X");
    bytes.extend_from_slice(&10_u32.to_le_bytes());
    bytes.extend_from_slice(&[0; 4]);
    let width = width.saturating_sub(1).to_le_bytes();
    let height = height.saturating_sub(1).to_le_bytes();
    bytes.extend_from_slice(&width[..3]);
    bytes.extend_from_slice(&height[..3]);
    bytes
}

fn sealed(name: &str, bytes: &[u8]) -> ImageArtifact {
    ImageArtifact::from_bytes(name, bytes)
        .unwrap_or_else(|error| unreachable!("seal image: {}", error.message()))
}

fn wire(artifact: &ImageArtifact) -> WireImage {
    WireImage {
        name: artifact.name().to_owned(),
        media_type: artifact.media_type(),
        data_base64: artifact.data_base64().to_owned(),
        digest: artifact.digest().to_owned(),
        bytes: artifact.bytes(),
        width: artifact.width(),
        height: artifact.height(),
    }
}

#[test]
fn seals_the_cross_provider_image_formats() {
    for (name, bytes, media_type, dimensions) in [
        ("screen.png", tiny_png(640, 480), ImageMediaType::Png, (640, 480)),
        ("photo.bin", tiny_jpeg(320, 200), ImageMediaType::Jpeg, (320, 200)),
        ("capture.webp", tiny_webp(1_024, 768), ImageMediaType::WebP, (1_024, 768)),
    ] {
        let artifact = sealed(name, &bytes);
        assert_eq!(artifact.media_type(), media_type);
        assert_eq!((artifact.width(), artifact.height()), dimensions);
        assert_eq!(artifact.bytes(), bytes.len() as u64);
        assert_eq!(artifact.digest().len(), 64);
        assert!(!artifact.debug_string().contains(artifact.data_base64()));
    }
}

#[test]
fn rejects_paths_malformed_containers_and_dangerous_dimensions() {
    assert!(matches!(
        ImageArtifact::from_bytes("C:\\secret.png", &tiny_png(1, 1)),
        Err(ImageArtifactError::InvalidName)
    ));
    let mut trailing = tiny_png(1, 1);
    trailing.push(0);
    assert!(matches!(
        ImageArtifact::from_bytes("bad.png", &trailing),
        Err(ImageArtifactError::InvalidContainer(_))
    ));
    assert!(matches!(
        ImageArtifact::from_bytes("huge.png", &tiny_png(8_001, 1)),
        Err(ImageArtifactError::InvalidDimensions { .. })
    ));
}

#[test]
fn deserialization_revalidates_the_digest_and_metadata() {
    let artifact = sealed("screen.png", &tiny_png(10, 20));
    let mut value = wire(&artifact);
    value.width = 99;
    let Err(error) = ImageArtifact::from_wire(value) else {
        unreachable!("tampered metadata must fail")
    };
    assert!(error.contains("does not match"));
}

#[test]
fn sealed_images_are_accepted_again() {
    for bytes in [tiny_png(3, 5), tiny_jpeg(3, 5), tiny_webp(3, 5)] {
        let artifact = sealed("image", &bytes);
        let again = ImageArtifact::from_wire(wire(&artifact))
            .unwrap_or_else(|error| unreachable!("wire image: {error}"));
        assert_eq!(again.data_base64(), artifact.data_base64());
        assert_eq!(again.digest(), artifact.digest());
    }
}

#[test]
fn image_sets_reject_duplicates_and_excess_count() {
    let artifact = sealed("screen.png", &tiny_png(10, 20));
    assert!(matches!(
        validate_image_set(&vec![artifact.clone(), artifact.clone()]),
        Err(ImageArtifactError::Duplicate(_))
    ));
    let images = (0..=MAX_INPUT_IMAGES)
        .map(|index| {
            let width = u32::try_from(index).unwrap_or_else(|error| unreachable!("width: {error}")) + 1;
            sealed(&format!("{index}.png"), &tiny_png(width, 1))
        })
        .collect::<Vec<_>>();
    assert!(matches!(
        validate_image_set(&images),
        Err(ImageArtifactError::TooManyImages { .. })
    ));
}

#[test]
fn accepted_image_sets_are_summed_up() {
    let images = vec![sealed("a.png", &tiny_png(1, 1)), sealed("b.png", &tiny_png(2, 1))];
    let summary = validate_image_set(&images)
        .unwrap_or_else(|error| unreachable!("set: {}", error.message()));
    assert_eq!(summary.count, 2);
    assert_eq!(summary.total_bytes, images[0].bytes() + images[1].bytes());
    assert_eq!(
        summary.estimated_input_tokens,
        images[0].estimated_input_tokens() + images[1].estimated_input_tokens()
    );
}

#[test]
fn user_content_needs_text_or_an_image() {
    assert!(matches!(
        UserContent::new("", Vec::new()),
        Err(ImageArtifactError::EmptyUserContent)
    ));
    assert!(UserContent::new("", vec![sealed("a.png", &tiny_png(1, 1))]).is_ok());
    assert!(UserContent::new("look", Vec::new()).is_ok());
}

#[test]
fn images_follow_their_names_on_every_wire() {
    let content = UserContent::new("look", vec![sealed("a.png", &tiny_png(1, 1))])
        .unwrap_or_else(|error| unreachable!("content: {}", error.message()));
    for wire in [ImageWire::Responses, ImageWire::Chat, ImageWire::Messages, ImageWire::Contents] {
        let parts = parts_json(wire, &content);
        assert_eq!(parts.len(), 3);
        let named = parts[1].to_text();
        assert!(named.contains("Attached image: a.png"));
        assert!(parts[2].to_text().contains(content.images[0].data_base64()));
    }
}

#[test]
fn serialized_provider_request_has_a_portable_hard_limit() {
    assert!(validate_request_body_size(&Json::object1("text", Json::text("small"))).is_ok());
    let oversized = Json::object1("text", Json::string("x".repeat(MAX_INLINE_MODEL_REQUEST_BYTES)));
    assert!(validate_request_body_size(&oversized).is_err());
}

#[test]
fn image_text_has_the_length_of_padded_base64() {
    for bytes in [tiny_png(1, 1), tiny_jpeg(1, 1), tiny_webp(1, 1)] {
        let image = sealed("image", &bytes);
        assert_eq!(image.data_base64().len(), 4 * bytes.len().div_ceil(3));
        assert!(ImageArtifact::from_wire(wire(&image)).is_ok());
    }
}
