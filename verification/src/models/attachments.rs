//! How a user turn with images looks on each wire.

use crate::json;
use crate::json::{Json, JsonView};
use crate::models::image::{ImageArtifact, ImageView, UserContent, UserContentView};
use crate::text;
use vstd::prelude::*;

verus! {

/// A wire format that carries images.
#[derive(Clone, Copy, Debug, PartialEq, Eq, Structural)]
pub enum ImageWire {
    /// The OpenAI Responses API.
    Responses,
    /// The OpenAI-compatible Chat Completions API.
    Chat,
    /// The Anthropic Messages API.
    Messages,
    /// The Gemini `GenerateContent` API.
    Contents,
}

/// A text as a part of a user turn.
pub open spec fn text_part(wire: ImageWire, t: Seq<char>) -> JsonView {
    match wire {
        ImageWire::Responses => json::obj2(
            "type"@,
            JsonView::Text("input_text"@),
            "text"@,
            JsonView::Text(t),
        ),
        ImageWire::Chat | ImageWire::Messages => json::obj2(
            "type"@,
            JsonView::Text("text"@),
            "text"@,
            JsonView::Text(t),
        ),
        ImageWire::Contents => json::obj1("text"@, JsonView::Text(t)),
    }
}

/// The URL that carries an image's type and bytes.
pub open spec fn data_url(image: ImageView) -> Seq<char> {
    "data:"@ + image.media_type.as_str_spec() + ";base64,"@ + image.data_base64
}

/// An image as a part of a user turn.
pub open spec fn image_part(wire: ImageWire, image: ImageView) -> JsonView {
    match wire {
        ImageWire::Responses => json::obj2(
            "type"@,
            JsonView::Text("input_image"@),
            "image_url"@,
            JsonView::Text(data_url(image)),
        ),
        ImageWire::Chat => json::obj2(
            "type"@,
            JsonView::Text("image_url"@),
            "image_url"@,
            json::obj1("url"@, JsonView::Text(data_url(image))),
        ),
        ImageWire::Messages => json::obj2(
            "type"@,
            JsonView::Text("image"@),
            "source"@,
            json::obj3(
                "type"@,
                JsonView::Text("base64"@),
                "media_type"@,
                JsonView::Text(image.media_type.as_str_spec()),
                "data"@,
                JsonView::Text(image.data_base64),
            ),
        ),
        ImageWire::Contents => json::obj1(
            "inlineData"@,
            json::obj2(
                "mimeType"@,
                JsonView::Text(image.media_type.as_str_spec()),
                "data"@,
                JsonView::Text(image.data_base64),
            ),
        ),
    }
}

/// The parts that images make, in order: each its name and its bytes.
pub open spec fn images_parts(wire: ImageWire, images: Seq<ImageView>) -> Seq<JsonView>
    decreases images.len(),
{
    if images.len() == 0 {
        Seq::empty()
    } else {
        images_parts(wire, images.drop_last()).push(
            text_part(wire, "Attached image: "@ + images.last().name),
        ).push(image_part(wire, images.last()))
    }
}

/// The parts of a user turn: its text, and then its images.
pub open spec fn content_parts(wire: ImageWire, c: UserContentView) -> Seq<JsonView> {
    seq![text_part(wire, c.text)] + images_parts(wire, c.images)
}

fn text_json(wire: ImageWire, t: &str) -> (r: Json)
    ensures
        r.deep_view() == text_part(wire, t@),
{
    match wire {
        ImageWire::Responses => Json::object2(
            "type",
            Json::text("input_text"),
            "text",
            Json::text(t),
        ),
        ImageWire::Chat | ImageWire::Messages => Json::object2(
            "type",
            Json::text("text"),
            "text",
            Json::text(t),
        ),
        ImageWire::Contents => Json::object1("text", Json::text(t)),
    }
}

fn url_of(image: &ImageArtifact) -> (r: String)
    ensures
        r@ == data_url(image.deep_view()),
{
    text::concat4("data:", image.media_type().as_str(), ";base64,", image.data_base64())
}

fn image_json(wire: ImageWire, image: &ImageArtifact) -> (r: Json)
    ensures
        r.deep_view() == image_part(wire, image.deep_view()),
{
    match wire {
        ImageWire::Responses => Json::object2(
            "type",
            Json::text("input_image"),
            "image_url",
            Json::string(url_of(image)),
        ),
        ImageWire::Chat => Json::object2(
            "type",
            Json::text("image_url"),
            "image_url",
            Json::object1("url", Json::string(url_of(image))),
        ),
        ImageWire::Messages => Json::object2(
            "type",
            Json::text("image"),
            "source",
            Json::object3(
                "type",
                Json::text("base64"),
                "media_type",
                Json::text(image.media_type().as_str()),
                "data",
                Json::text(image.data_base64()),
            ),
        ),
        ImageWire::Contents => Json::object1(
            "inlineData",
            Json::object2(
                "mimeType",
                Json::text(image.media_type().as_str()),
                "data",
                Json::text(image.data_base64()),
            ),
        ),
    }
}

/// The parts of a user turn.
pub fn parts_json(wire: ImageWire, content: &UserContent) -> (r: Vec<Json>)
    ensures
        r.deep_view() == content_parts(wire, content.deep_view()),
        r@.len() > 0,
{
    let ghost images = content.images.deep_view();
    let ghost head = text_part(wire, content.text@);
    let mut parts: Vec<Json> = Vec::new();
    parts.push(text_json(wire, content.text.as_str()));
    let mut i: usize = 0;
    assert(images.take(0) =~= Seq::<ImageView>::empty());
    assert(parts.deep_view() =~= seq![head] + images_parts(wire, images.take(0)));
    while i < content.images.len()
        invariant
            i <= content.images@.len(),
            images == content.images.deep_view(),
            images.len() == content.images@.len(),
            parts@.len() > 0,
            parts.deep_view() == seq![head] + images_parts(wire, images.take(i as int)),
        decreases content.images@.len() - i,
    {
        let image = &content.images[i];
        let ghost before = parts.deep_view();
        let ghost view = image.deep_view();
        assert(images[i as int] == view);
        parts.push(text_json(wire, text::concat2("Attached image: ", image.name()).as_str()));
        parts.push(image_json(wire, image));
        i += 1;
        assert(images.take(i as int).drop_last() =~= images.take(i as int - 1));
        assert(images.take(i as int).last() == view);
        assert(parts.deep_view() =~= before.push(
            text_part(wire, "Attached image: "@ + view.name),
        ).push(image_part(wire, view)));
        assert(parts.deep_view() =~= seq![head] + images_parts(wire, images.take(i as int)));
    }
    assert(images.take(images.len() as int) =~= images);
    parts
}

} // verus!
