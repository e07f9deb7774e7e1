//! Laws of conversations on the wire: every provider is told each item of a conversation
//! once, in order, with each thing that the item holds in the place that the provider
//! reads it from.

use crate::json;
use crate::json::JsonView;
use crate::models::anthropic;
use crate::models::attachments;
use crate::models::attachments::ImageWire;
use crate::models::fields;
use crate::models::gemini;
use crate::models::image::{ImageMediaType, ImageView, UserContentView};
use crate::models::openai_compatible;
use crate::models::openai_responses;
use crate::models::turns;
use crate::models::turns::TurnView;
use crate::models::types::{ItemView, Role, ToolCallView, ToolResultView};
use crate::text;
use vstd::prelude::*;

verus! {

/// Whether the member `key` of an object is the text `t`.
pub open spec fn has_text(j: JsonView, key: Seq<char>, t: Seq<char>) -> bool {
    json::member(j, key) == Some(JsonView::Text(t))
}

/// Whether a block tells a text.
pub open spec fn tells_text(wire: ImageWire, block: JsonView, t: Seq<char>) -> bool {
    &&& has_text(block, "text"@, t)
    &&& match wire {
        ImageWire::Responses => has_text(block, "type"@, "input_text"@),
        ImageWire::Chat | ImageWire::Messages => has_text(block, "type"@, "text"@),
        ImageWire::Contents => true,
    }
}

/// The media type of an image as it is written.
pub open spec fn media_name(media_type: ImageMediaType) -> Seq<char> {
    match media_type {
        ImageMediaType::Png => "image/png"@,
        ImageMediaType::Jpeg => "image/jpeg"@,
        ImageMediaType::WebP => "image/webp"@,
    }
}

/// Whether a block tells an image: its type and its bytes.
pub open spec fn tells_image(wire: ImageWire, block: JsonView, image: ImageView) -> bool {
    let url = "data:"@ + media_name(image.media_type) + ";base64,"@ + image.data_base64;
    match wire {
        ImageWire::Responses => {
            &&& has_text(block, "type"@, "input_image"@)
            &&& has_text(block, "image_url"@, url)
        },
        ImageWire::Chat => {
            &&& has_text(block, "type"@, "image_url"@)
            &&& json::member(block, "image_url"@) matches Some(holder)
            &&& has_text(holder, "url"@, url)
        },
        ImageWire::Messages => {
            &&& has_text(block, "type"@, "image"@)
            &&& json::member(block, "source"@) matches Some(source)
            &&& has_text(source, "type"@, "base64"@)
            &&& has_text(source, "media_type"@, media_name(image.media_type))
            &&& has_text(source, "data"@, image.data_base64)
        },
        ImageWire::Contents => {
            &&& json::member(block, "inlineData"@) matches Some(data)
            &&& has_text(data, "mimeType"@, media_name(image.media_type))
            &&& has_text(data, "data"@, image.data_base64)
        },
    }
}

/// Whether a block tells a call: its id, its name and its arguments.
pub open spec fn tells_call(wire: ImageWire, block: JsonView, c: ToolCallView) -> bool {
    match wire {
        ImageWire::Responses => {
            &&& has_text(block, "type"@, "function_call"@)
            &&& has_text(block, "call_id"@, c.id)
            &&& has_text(block, "name"@, c.name)
            &&& has_text(block, "arguments"@, json::json_text(c.arguments))
        },
        ImageWire::Chat => {
            &&& has_text(block, "type"@, "function"@)
            &&& has_text(block, "id"@, c.id)
            &&& json::member(block, "function"@) matches Some(function)
            &&& has_text(function, "name"@, c.name)
            &&& has_text(function, "arguments"@, json::json_text(c.arguments))
        },
        ImageWire::Messages => {
            &&& has_text(block, "type"@, "tool_use"@)
            &&& has_text(block, "id"@, c.id)
            &&& has_text(block, "name"@, c.name)
            &&& json::member(block, "input"@) == Some(c.arguments)
        },
        ImageWire::Contents => {
            &&& json::member(block, "functionCall"@) matches Some(call)
            &&& has_text(call, "id"@, c.id)
            &&& has_text(call, "name"@, c.name)
            &&& json::member(call, "args"@) == Some(c.arguments)
            &&& json::member(block, "thoughtSignature"@) == (if c.extensions.contains_key(
                "thought_signature"@,
            ) {
                Some(c.extensions["thought_signature"@])
            } else {
                None
            })
        },
    }
}

/// Whether a block tells the result of a call: the id of the call that it answers, and
/// what came out.
pub open spec fn tells_result(wire: ImageWire, block: JsonView, r: ToolResultView) -> bool {
    match wire {
        ImageWire::Responses => {
            &&& has_text(block, "type"@, "function_call_output"@)
            &&& has_text(block, "call_id"@, r.call_id)
            &&& has_text(block, "output"@, json::json_text(r.content))
        },
        ImageWire::Chat => {
            &&& has_text(block, "tool_call_id"@, r.call_id)
            &&& has_text(block, "name"@, r.name)
            &&& has_text(block, "content"@, json::json_text(r.content))
        },
        ImageWire::Messages => {
            &&& has_text(block, "type"@, "tool_result"@)
            &&& has_text(block, "tool_use_id"@, r.call_id)
            &&& has_text(block, "content"@, json::json_text(r.content))
            &&& json::member(block, "is_error"@) == Some(JsonView::Bool(r.is_error))
        },
        ImageWire::Contents => {
            &&& json::member(block, "functionResponse"@) matches Some(answer)
            &&& has_text(answer, "id"@, r.call_id)
            &&& has_text(answer, "name"@, r.name)
            &&& json::member(answer, "response"@) matches Some(value)
            &&& if r.content is Object {
                value == r.content
            } else {
                json::member(value, "result"@) == Some(r.content)
            }
        },
    }
}

/// How many parts a user turn with images has: its text, and of each image its name and
/// its bytes.
pub open spec fn parts_count(c: UserContentView) -> nat {
    1 + 2 * c.images.len()
}

/// Whether part `n` of a user turn with images is told.
pub open spec fn tells_part(wire: ImageWire, block: JsonView, c: UserContentView, n: int) -> bool {
    if n == 0 {
        tells_text(wire, block, c.text)
    } else if n % 2 == 1 {
        tells_text(wire, block, "Attached image: "@ + c.images[(n - 1) / 2].name)
    } else {
        tells_image(wire, block, c.images[(n - 2) / 2])
    }
}

/// Whether parts tell a user turn with images.
pub open spec fn tells_content(wire: ImageWire, parts: Seq<JsonView>, c: UserContentView) -> bool {
    &&& parts.len() == parts_count(c)
    &&& forall|n: int| 0 <= n < parts.len() ==> tells_part(wire, #[trigger] parts[n], c, n)
}

/// One if a text is told as a block of its own, which an empty one is not.
pub open spec fn text_count(t: Seq<char>) -> nat {
    if t.len() > 0 {
        1
    } else {
        0
    }
}

/// Whether an item is a system message.
pub open spec fn is_instruction(item: ItemView) -> bool {
    item matches ItemView::Message(m) && m.role == Role::System
}

/// The recorded output items that a turn with calls carries.
pub open spec fn recorded(calls: Seq<ToolCallView>) -> Option<JsonView> {
    if calls.len() > 0 && calls[0].extensions.contains_key("openai_responses_output_items"@) {
        Some(calls[0].extensions["openai_responses_output_items"@])
    } else {
        None
    }
}

/// How many blocks an item makes on a wire. System messages make none of their own.
pub open spec fn count(wire: ImageWire, item: ItemView) -> nat {
    match item {
        ItemView::Message(m) => if m.role == Role::System {
            0
        } else {
            1
        },
        ItemView::UserContent(c) => match wire {
            ImageWire::Messages | ImageWire::Contents => parts_count(c),
            ImageWire::Chat | ImageWire::Responses => 1,
        },
        ItemView::AssistantToolCalls { text, calls } => match wire {
            ImageWire::Messages | ImageWire::Contents => text_count(text) + calls.len(),
            ImageWire::Chat => 1,
            ImageWire::Responses => match recorded(calls) {
                Some(JsonView::Array(items)) => items.len(),
                _ => text_count(text) + calls.len(),
            },
        },
        ItemView::ToolResult(_) => 1,
    }
}

/// The name of the model's role.
pub open spec fn model_role(wire: ImageWire) -> Seq<char> {
    match wire {
        ImageWire::Contents => "model"@,
        _ => "assistant"@,
    }
}

/// Whether block `n` that an item makes, under the given role, tells what the item holds.
pub open spec fn tells(
    wire: ImageWire,
    item: ItemView,
    n: int,
    role: Option<Seq<char>>,
    block: JsonView,
) -> bool {
    match item {
        ItemView::Message(m) => {
            &&& role == Some(
                if m.role == Role::User {
                    "user"@
                } else {
                    model_role(wire)
                },
            )
            &&& match wire {
                ImageWire::Messages | ImageWire::Contents => tells_text(wire, block, m.content),
                ImageWire::Chat | ImageWire::Responses => has_text(block, "content"@, m.content),
            }
        },
        ItemView::UserContent(c) => {
            &&& role == Some("user"@)
            &&& match wire {
                ImageWire::Messages | ImageWire::Contents => tells_part(wire, block, c, n),
                ImageWire::Chat | ImageWire::Responses => json::array_member(
                    block,
                    "content"@,
                ) matches Some(parts) && tells_content(wire, parts, c),
            }
        },
        ItemView::AssistantToolCalls { text, calls } => match wire {
            ImageWire::Messages | ImageWire::Contents => {
                &&& role == Some(model_role(wire))
                &&& if n < text_count(text) {
                    tells_text(wire, block, text)
                } else {
                    tells_call(wire, block, calls[n - text_count(text)])
                }
            },
            ImageWire::Chat => {
                &&& role == Some("assistant"@)
                &&& has_text(block, "content"@, text)
                &&& json::array_member(block, "tool_calls"@) matches Some(told)
                &&& told.len() == calls.len()
                &&& forall|k: int|
                    0 <= k < calls.len() ==> tells_call(wire, #[trigger] told[k], calls[k])
            },
            ImageWire::Responses => match recorded(calls) {
                Some(JsonView::Array(items)) => block == items[n],
                _ => if n < text_count(text) {
                    role == Some("assistant"@) && has_text(block, "content"@, text)
                } else {
                    tells_call(wire, block, calls[n - text_count(text)])
                },
            },
        },
        ItemView::ToolResult(r) => {
            &&& match wire {
                ImageWire::Messages | ImageWire::Contents => role == Some("user"@),
                ImageWire::Chat => role == Some("tool"@),
                ImageWire::Responses => true,
            }
            &&& tells_result(wire, block, r)
        },
    }
}

/// A block and the role under which it is sent.
pub type Sent = (Option<Seq<char>>, JsonView);

/// The blocks of one message, each with the role of the message.
pub open spec fn blocks_of(message: JsonView, key: Seq<char>) -> Seq<Sent> {
    match json::array_member(message, key) {
        Some(blocks) => Seq::new(
            blocks.len(),
            |i: int| (json::text_member(message, "role"@), blocks[i]),
        ),
        None => Seq::empty(),
    }
}

/// The blocks of all messages, one behind the other.
pub open spec fn all_blocks(messages: Seq<JsonView>, key: Seq<char>) -> Seq<Sent>
    decreases messages.len(),
{
    if messages.len() == 0 {
        Seq::empty()
    } else {
        all_blocks(messages.drop_last(), key) + blocks_of(messages.last(), key)
    }
}

/// Whether a conversation holds system messages.
pub open spec fn has_instructions(conversation: Seq<ItemView>) -> bool {
    exists|i: int| 0 <= i < conversation.len() && is_instruction(#[trigger] conversation[i])
}

/// Messages, each with its role, behind the leading one if that tells the instructions.
pub open spec fn whole_messages(messages: Seq<JsonView>, led: bool) -> Seq<Sent> {
    let rest = if led {
        messages.skip(1)
    } else {
        messages
    };
    Seq::new(rest.len(), |i: int| (json::text_member(rest[i], "role"@), rest[i]))
}

/// Whether a conversation can be sent.
pub open spec fn accepted(wire: ImageWire, conversation: Seq<ItemView>) -> bool {
    match wire {
        ImageWire::Messages => anthropic::messages_spec(conversation) is Ok,
        ImageWire::Contents => gemini::contents_spec(conversation) is Ok,
        ImageWire::Chat => openai_compatible::canonical_spec(conversation) is Ok,
        ImageWire::Responses => openai_responses::inputs_spec(conversation) is Ok,
    }
}

/// The blocks that a conversation makes on a wire, beside its instructions.
pub open spec fn sent(wire: ImageWire, conversation: Seq<ItemView>) -> Seq<Sent> {
    match wire {
        ImageWire::Messages => match anthropic::messages_spec(conversation) {
            Ok((_, messages)) => all_blocks(messages, "content"@),
            Err(_) => Seq::empty(),
        },
        ImageWire::Contents => match gemini::contents_spec(conversation) {
            Ok((_, messages)) => all_blocks(messages, "parts"@),
            Err(_) => Seq::empty(),
        },
        ImageWire::Chat => match openai_compatible::canonical_spec(conversation) {
            Ok(messages) => whole_messages(messages, has_instructions(conversation)),
            Err(_) => Seq::empty(),
        },
        ImageWire::Responses => match openai_responses::inputs_spec(conversation) {
            Ok(messages) => whole_messages(messages, has_instructions(conversation)),
            Err(_) => Seq::empty(),
        },
    }
}

proof fn lemma_names()
    ensures
        "id"@.len() == 2,
        "type"@.len() == 4,
        "text"@.len() == 4,
        "name"@.len() == 4,
        "role"@.len() == 4,
        "args"@.len() == 4,
        "data"@.len() == 4,
        "input"@.len() == 5,
        "parts"@.len() == 5,
        "source"@.len() == 6,
        "output"@.len() == 6,
        "content"@.len() == 7,
        "call_id"@.len() == 7,
        "is_error"@.len() == 8,
        "response"@.len() == 8,
        "function"@.len() == 8,
        "mimeType"@.len() == 8,
        "arguments"@.len() == 9,
        "image_url"@.len() == 9,
        "url"@.len() == 3,
        "tool_calls"@.len() == 10,
        "media_type"@.len() == 10,
        "inlineData"@.len() == 10,
        "tool_use_id"@.len() == 11,
        "tool_call_id"@.len() == 12,
        "functionCall"@.len() == 12,
        "functionResponse"@.len() == 16,
        "thoughtSignature"@.len() == 16,
        "result"@.len() == 6,
        "type"@ != "text"@,
        "type"@ != "name"@,
        "type"@ != "role"@,
        "type"@ != "args"@,
        "type"@ != "data"@,
        "text"@ != "name"@,
        "text"@ != "role"@,
        "text"@ != "args"@,
        "text"@ != "data"@,
        "name"@ != "role"@,
        "name"@ != "args"@,
        "name"@ != "data"@,
        "role"@ != "args"@,
        "role"@ != "data"@,
        "args"@ != "data"@,
        "input"@ != "parts"@,
        "source"@ != "output"@,
        "source"@ != "result"@,
        "output"@ != "result"@,
        "content"@ != "call_id"@,
        "is_error"@ != "response"@,
        "is_error"@ != "function"@,
        "is_error"@ != "mimeType"@,
        "response"@ != "function"@,
        "response"@ != "mimeType"@,
        "function"@ != "mimeType"@,
        "arguments"@ != "image_url"@,
        "tool_calls"@ != "media_type"@,
        "tool_calls"@ != "inlineData"@,
        "media_type"@ != "inlineData"@,
        "tool_call_id"@ != "functionCall"@,
        "functionResponse"@ != "thoughtSignature"@,
{
    reveal_strlit("id");
    reveal_strlit("type");
    reveal_strlit("text");
    reveal_strlit("name");
    reveal_strlit("role");
    reveal_strlit("args");
    reveal_strlit("data");
    reveal_strlit("input");
    reveal_strlit("parts");
    reveal_strlit("source");
    reveal_strlit("output");
    reveal_strlit("content");
    reveal_strlit("call_id");
    reveal_strlit("is_error");
    reveal_strlit("response");
    reveal_strlit("function");
    reveal_strlit("mimeType");
    reveal_strlit("arguments");
    reveal_strlit("image_url");
    reveal_strlit("url");
    reveal_strlit("tool_calls");
    reveal_strlit("media_type");
    reveal_strlit("inlineData");
    reveal_strlit("tool_use_id");
    reveal_strlit("tool_call_id");
    reveal_strlit("functionCall");
    reveal_strlit("functionResponse");
    reveal_strlit("thoughtSignature");
    reveal_strlit("result");
    assert("type"@[1] != "text"@[1]);
    assert("type"@[0] != "name"@[0]);
    assert("type"@[0] != "role"@[0]);
    assert("type"@[0] != "args"@[0]);
    assert("type"@[0] != "data"@[0]);
    assert("text"@[0] != "name"@[0]);
    assert("text"@[0] != "role"@[0]);
    assert("text"@[0] != "args"@[0]);
    assert("text"@[0] != "data"@[0]);
    assert("name"@[0] != "role"@[0]);
    assert("name"@[0] != "args"@[0]);
    assert("name"@[0] != "data"@[0]);
    assert("role"@[0] != "args"@[0]);
    assert("role"@[0] != "data"@[0]);
    assert("args"@[0] != "data"@[0]);
    assert("input"@[0] != "parts"@[0]);
    assert("source"@[0] != "output"@[0]);
    assert("source"@[0] != "result"@[0]);
    assert("output"@[0] != "result"@[0]);
    assert("content"@[1] != "call_id"@[1]);
    assert("is_error"@[0] != "response"@[0]);
    assert("is_error"@[0] != "function"@[0]);
    assert("is_error"@[0] != "mimeType"@[0]);
    assert("response"@[0] != "function"@[0]);
    assert("response"@[0] != "mimeType"@[0]);
    assert("function"@[0] != "mimeType"@[0]);
    assert("arguments"@[0] != "image_url"@[0]);
    assert("tool_calls"@[0] != "media_type"@[0]);
    assert("tool_calls"@[0] != "inlineData"@[0]);
    assert("media_type"@[0] != "inlineData"@[0]);
    assert("tool_call_id"@[0] != "functionCall"@[0]);
    assert("functionResponse"@[0] != "thoughtSignature"@[0]);
}

proof fn lemma_text_told(wire: ImageWire, t: Seq<char>)
    ensures
        tells_text(wire, attachments::text_part(wire, t), t),
{
    lemma_names();
}

proof fn lemma_image_told(wire: ImageWire, image: ImageView)
    ensures
        tells_image(wire, attachments::image_part(wire, image), image),
{
    lemma_names();
}

proof fn lemma_images_told(wire: ImageWire, images: Seq<ImageView>)
    ensures
        ({
            let parts = attachments::images_parts(wire, images);
            &&& parts.len() == 2 * images.len()
            &&& forall|k: int|
                0 <= k < images.len() ==> {
                    &&& tells_text(
                        wire,
                        parts[2 * k],
                        "Attached image: "@ + (#[trigger] images[k]).name,
                    )
                    &&& tells_image(wire, parts[2 * k + 1], images[k])
                }
        }),
    decreases images.len(),
{
    if images.len() > 0 {
        let before = images.drop_last();
        let parts = attachments::images_parts(wire, images);
        lemma_images_told(wire, before);
        lemma_text_told(wire, "Attached image: "@ + images.last().name);
        lemma_image_told(wire, images.last());
        assert forall|k: int| 0 <= k < images.len() implies {
            &&& tells_text(wire, parts[2 * k], "Attached image: "@ + (#[trigger] images[k]).name)
            &&& tells_image(wire, parts[2 * k + 1], images[k])
        } by {
            if k < before.len() {
                assert(images[k] == before[k]);
            }
        }
    }
}

proof fn lemma_content_told(wire: ImageWire, c: UserContentView)
    ensures
        tells_content(wire, attachments::content_parts(wire, c), c),
{
    let parts = attachments::content_parts(wire, c);
    let images = attachments::images_parts(wire, c.images);
    lemma_text_told(wire, c.text);
    lemma_images_told(wire, c.images);
    assert forall|n: int| 0 <= n < parts.len() implies tells_part(
        wire,
        #[trigger] parts[n],
        c,
        n,
    ) by {
        if n > 0 {
            assert(parts[n] == images[n - 1]);
            if n % 2 == 1 {
                let k = (n - 1) / 2;
                assert(n - 1 == 2 * k);
                assert(c.images[k] == c.images[k]);
            } else {
                let k = (n - 2) / 2;
                assert(n - 1 == 2 * k + 1);
                assert(c.images[k] == c.images[k]);
            }
        }
    }
}

proof fn lemma_messages_item(item: ItemView)
    requires
        anthropic::item_blocks(item) is Ok,
    ensures
        match anthropic::item_blocks(item)->Ok_0 {
            None => count(ImageWire::Messages, item) == 0,
            Some((role, blocks)) => {
                &&& blocks.len() == count(ImageWire::Messages, item)
                &&& forall|n: int|
                    0 <= n < blocks.len() ==> tells(
                        ImageWire::Messages,
                        item,
                        n,
                        Some(role),
                        #[trigger] blocks[n],
                    )
            },
        },
{
    let wire = ImageWire::Messages;
    lemma_names();
    match item {
        ItemView::Message(m) => {
            lemma_text_told(wire, m.content);
        },
        ItemView::UserContent(c) => {
            lemma_content_told(wire, c);
        },
        ItemView::AssistantToolCalls { text, calls } => {
            lemma_text_told(wire, text);
            assert forall|k: int| 0 <= k < calls.len() implies tells_call(
                wire,
                anthropic::call_block(#[trigger] calls[k]),
                calls[k],
            ) by {}
        },
        ItemView::ToolResult(r) => {},
    }
}

proof fn lemma_contents_item(item: ItemView)
    requires
        gemini::item_parts(item) is Ok,
    ensures
        match gemini::item_parts(item)->Ok_0 {
            None => count(ImageWire::Contents, item) == 0,
            Some((role, blocks)) => {
                &&& blocks.len() == count(ImageWire::Contents, item)
                &&& forall|n: int|
                    0 <= n < blocks.len() ==> tells(
                        ImageWire::Contents,
                        item,
                        n,
                        Some(role),
                        #[trigger] blocks[n],
                    )
            },
        },
{
    let wire = ImageWire::Contents;
    lemma_names();
    match item {
        ItemView::Message(m) => {
            lemma_text_told(wire, m.content);
        },
        ItemView::UserContent(c) => {
            lemma_content_told(wire, c);
        },
        ItemView::AssistantToolCalls { text, calls } => {
            lemma_text_told(wire, text);
            assert forall|k: int| 0 <= k < calls.len() implies tells_call(
                wire,
                gemini::call_part(#[trigger] calls[k]),
                calls[k],
            ) by {}
        },
        ItemView::ToolResult(r) => {},
    }
}

proof fn lemma_chat_item(item: ItemView)
    requires
        openai_compatible::item_json_spec(item) is Ok,
        !is_instruction(item),
    ensures
        ({
            let v = openai_compatible::item_json_spec(item)->Ok_0;
            tells(ImageWire::Chat, item, 0, json::text_member(v, "role"@), v)
        }),
{
    let wire = ImageWire::Chat;
    lemma_names();
    match item {
        ItemView::UserContent(c) => {
            lemma_content_told(wire, c);
        },
        ItemView::AssistantToolCalls { text, calls } => {
            assert forall|k: int| 0 <= k < calls.len() implies tells_call(
                wire,
                openai_compatible::call_json_spec(#[trigger] calls[k]),
                calls[k],
            ) by {}
        },
        _ => {},
    }
}

proof fn lemma_responses_item(item: ItemView)
    requires
        openai_responses::item_inputs(item) is Ok,
    ensures
        ({
            let blocks = openai_responses::item_inputs(item)->Ok_0;
            &&& blocks.len() == count(ImageWire::Responses, item)
            &&& forall|n: int|
                0 <= n < blocks.len() ==> tells(
                    ImageWire::Responses,
                    item,
                    n,
                    json::text_member(#[trigger] blocks[n], "role"@),
                    blocks[n],
                )
        }),
{
    let wire = ImageWire::Responses;
    lemma_names();
    match item {
        ItemView::UserContent(c) => {
            lemma_content_told(wire, c);
        },
        ItemView::AssistantToolCalls { text, calls } => {
            assert forall|k: int| 0 <= k < calls.len() implies tells_call(
                wire,
                openai_responses::call_input(#[trigger] calls[k]),
                calls[k],
            ) by {}
        },
        _ => {},
    }
}

/// Blocks, each with the same role.
spec fn under(role: Seq<char>, blocks: Seq<JsonView>) -> Seq<Sent> {
    Seq::new(blocks.len(), |i: int| (Some(role), blocks[i]))
}

proof fn lemma_rendered(all: Seq<TurnView>, key: Seq<char>)
    requires
        all.len() > 0,
        key != "role"@,
    ensures
        ({
            let messages = turns::render_spec(all, key);
            &&& messages.drop_last() == turns::render_spec(all.drop_last(), key)
            &&& blocks_of(messages.last(), key) == under(all.last().role, all.last().blocks)
        }),
{
    let messages = turns::render_spec(all, key);
    assert(messages.drop_last() =~= turns::render_spec(all.drop_last(), key));
    assert(blocks_of(messages.last(), key) =~= under(all.last().role, all.last().blocks));
}

proof fn lemma_pushed(all: Seq<TurnView>, role: Seq<char>, blocks: Seq<JsonView>, key: Seq<char>)
    requires
        key != "role"@,
    ensures
        all_blocks(turns::render_spec(turns::push_spec(all, role, blocks), key), key)
            == all_blocks(turns::render_spec(all, key), key) + under(role, blocks),
{
    let next = turns::push_spec(all, role, blocks);
    lemma_rendered(next, key);
    if all.len() > 0 && all.last().role == role {
        lemma_rendered(all, key);
        assert(next.drop_last() =~= all.drop_last());
        assert(under(role, all.last().blocks + blocks) =~= under(role, all.last().blocks) + under(
            role,
            blocks,
        ));
        let before = all_blocks(turns::render_spec(all.drop_last(), key), key);
        assert(before + (under(role, all.last().blocks) + under(role, blocks)) =~= before + under(
            role,
            all.last().blocks,
        ) + under(role, blocks));
    } else {
        assert(next.drop_last() =~= all);
    }
}

proof fn lemma_instructions(conversation: Seq<ItemView>)
    ensures
        fields::system_texts(conversation).len() > 0 <==> has_instructions(conversation),
    decreases conversation.len(),
{
    if conversation.len() > 0 {
        let before = conversation.drop_last();
        lemma_instructions(before);
        if has_instructions(before) {
            let i = choose|i: int| 0 <= i < before.len() && is_instruction(#[trigger] before[i]);
            assert(conversation[i] == before[i]);
        }
        if has_instructions(conversation) {
            let i = choose|i: int|
                0 <= i < conversation.len() && is_instruction(#[trigger] conversation[i]);
            if i < before.len() {
                assert(before[i] == conversation[i]);
            }
        }
        assert(conversation[conversation.len() - 1] == conversation.last());
    }
}

/// Whether `b` is `a` with the blocks of an item behind.
pub open spec fn adds(wire: ImageWire, a: Seq<Sent>, b: Seq<Sent>, item: ItemView) -> bool {
    &&& b.len() == a.len() + count(wire, item)
    &&& forall|p: int| 0 <= p < a.len() ==> #[trigger] b[p] == a[p]
    &&& forall|n: int|
        0 <= n < count(wire, item) ==> tells(
            wire,
            item,
            n,
            (#[trigger] b[a.len() + n]).0,
            b[a.len() + n].1,
        )
}

proof fn lemma_turns_rendered_empty(key: Seq<char>)
    ensures
        all_blocks(turns::render_spec(Seq::empty(), key), key) == Seq::<Sent>::empty(),
{
    assert(turns::render_spec(Seq::empty(), key) =~= Seq::<JsonView>::empty());
}

/// Whether every item of a conversation can be sent, though there may be none to send.
spec fn sendable(wire: ImageWire, conversation: Seq<ItemView>) -> bool {
    match wire {
        ImageWire::Messages => anthropic::turns_spec(conversation) is Ok,
        ImageWire::Contents => gemini::turns_spec(conversation) is Ok,
        ImageWire::Chat => openai_compatible::other_messages(conversation) is Ok,
        ImageWire::Responses => openai_responses::other_inputs(conversation) is Ok,
    }
}

proof fn lemma_sent_behind(wire: ImageWire, conversation: Seq<ItemView>, item: ItemView)
    requires
        sendable(wire, conversation.push(item)),
    ensures
        sendable(wire, conversation),
        adds(wire, sent(wire, conversation), sent(wire, conversation.push(item)), item),
{
    let all = conversation.push(item);
    assert(all.drop_last() =~= conversation);
    assert(all.last() == item);
    lemma_names();
    lemma_instructions(conversation);
    lemma_instructions(all);
    let a = sent(wire, conversation);
    let b = sent(wire, all);
    match wire {
        ImageWire::Messages => {
            let before = anthropic::turns_spec(conversation)->Ok_0;
            lemma_messages_item(item);
            lemma_turns_rendered_empty("content"@);
            let after = anthropic::turns_spec(all)->Ok_0;
            if before.len() == 0 {
                assert(before =~= Seq::empty());
            }
            assert(a == all_blocks(turns::render_spec(before, "content"@), "content"@));
            if after.len() == 0 {
                assert(after =~= Seq::empty());
            }
            assert(b == all_blocks(turns::render_spec(after, "content"@), "content"@));
            match anthropic::item_blocks(item)->Ok_0 {
                None => {},
                Some((role, blocks)) => {
                    lemma_pushed(before, role, blocks, "content"@);
                    assert(b == a + under(role, blocks));
                },
            }
        },
        ImageWire::Contents => {
            let before = gemini::turns_spec(conversation)->Ok_0;
            lemma_contents_item(item);
            lemma_turns_rendered_empty("parts"@);
            let after = gemini::turns_spec(all)->Ok_0;
            if before.len() == 0 {
                assert(before =~= Seq::empty());
            }
            assert(a == all_blocks(turns::render_spec(before, "parts"@), "parts"@));
            if after.len() == 0 {
                assert(after =~= Seq::empty());
            }
            assert(b == all_blocks(turns::render_spec(after, "parts"@), "parts"@));
            match gemini::item_parts(item)->Ok_0 {
                None => {},
                Some((role, blocks)) => {
                    lemma_pushed(before, role, blocks, "parts"@);
                    assert(b == a + under(role, blocks));
                },
            }
        },
        ImageWire::Chat => {
            let before = openai_compatible::other_messages(conversation)->Ok_0;
            assert(a =~= whole_messages(before, false)) by {
                lemma_led(
                    openai_compatible::canonical_spec(conversation)->Ok_0,
                    before,
                    has_instructions(conversation),
                );
            }
            let after = openai_compatible::other_messages(all)->Ok_0;
            assert(b =~= whole_messages(after, false)) by {
                lemma_led(
                    openai_compatible::canonical_spec(all)->Ok_0,
                    after,
                    has_instructions(all),
                );
            }
            if is_instruction(item) {
                assert(after == before);
            } else {
                lemma_chat_item(item);
                let v = openai_compatible::item_json_spec(item)->Ok_0;
                assert(after =~= before + seq![v]);
                assert(b[a.len() as int] == (json::text_member(v, "role"@), v));
            }
        },
        ImageWire::Responses => {
            let before = openai_responses::other_inputs(conversation)->Ok_0;
            assert(a =~= whole_messages(before, false)) by {
                lemma_led(
                    openai_responses::inputs_spec(conversation)->Ok_0,
                    before,
                    has_instructions(conversation),
                );
            }
            let after = openai_responses::other_inputs(all)->Ok_0;
            assert(b =~= whole_messages(after, false)) by {
                lemma_led(
                    openai_responses::inputs_spec(all)->Ok_0,
                    after,
                    has_instructions(all),
                );
            }
            lemma_responses_item(item);
            let items = openai_responses::item_inputs(item)->Ok_0;
            assert(after == before + items);
            assert forall|n: int| 0 <= n < items.len() implies #[trigger] b[a.len() + n] == (
                json::text_member(items[n], "role"@),
                items[n],
            ) by {
                assert(after[before.len() + n] == items[n]);
            }
            assert forall|n: int| 0 <= n < count(wire, item) implies tells(
                wire,
                item,
                n,
                (#[trigger] b[a.len() + n]).0,
                b[a.len() + n].1,
            ) by {
                assert(items[n] == items[n]);
            }
        },
    }
}

proof fn lemma_led(messages: Seq<JsonView>, others: Seq<JsonView>, led: bool)
    requires
        led ==> messages =~= seq![messages[0]] + others,
        !led ==> messages == others,
    ensures
        whole_messages(messages, led) == whole_messages(others, false),
{
    if led {
        assert(messages.skip(1) =~= others);
    }
}

/// One more item at the end of a conversation is sent behind what is sent already, which
/// stays as it is: its blocks tell what the item holds. On every wire.
pub proof fn law_items_are_sent_behind(
    wire: ImageWire,
    conversation: Seq<ItemView>,
    item: ItemView,
)
    requires
        accepted(wire, conversation.push(item)),
    ensures
        adds(wire, sent(wire, conversation), sent(wire, conversation.push(item)), item),
{
    lemma_sent_behind(wire, conversation, item);
}

proof fn lemma_item_sent(wire: ImageWire, conversation: Seq<ItemView>, i: int, n: int)
    requires
        sendable(wire, conversation),
        0 <= i < conversation.len(),
        0 <= n < count(wire, conversation[i]),
    ensures
        ({
            let all = sent(wire, conversation);
            let p = sent(wire, conversation.take(i)).len() + n;
            p < all.len() && tells(wire, conversation[i], n, all[p].0, all[p].1)
        }),
    decreases conversation.len(),
{
    let before = conversation.drop_last();
    let item = conversation.last();
    assert(before.push(item) =~= conversation);
    lemma_sent_behind(wire, before, item);
    if i == conversation.len() - 1 {
        assert(conversation.take(i) =~= before);
        let a = sent(wire, before);
        let b = sent(wire, conversation);
        assert(tells(wire, item, n, b[a.len() + n].0, b[a.len() + n].1));
    } else {
        assert(before.take(i) =~= conversation.take(i));
        assert(before[i] == conversation[i]);
        lemma_item_sent(wire, before, i, n);
        let p = sent(wire, conversation.take(i)).len() + n;
        assert(sent(wire, conversation)[p] == sent(wire, before)[p]);
    }
}

/// Every item of a conversation is sent: behind the blocks of the items before it stand
/// its own, and each tells what the item holds.
pub proof fn law_every_item_is_sent(
    wire: ImageWire,
    conversation: Seq<ItemView>,
    i: int,
    n: int,
)
    requires
        accepted(wire, conversation),
        0 <= i < conversation.len(),
        0 <= n < count(wire, conversation[i]),
    ensures
        ({
            let all = sent(wire, conversation);
            let p = sent(wire, conversation.take(i)).len() + n;
            p < all.len() && tells(wire, conversation[i], n, all[p].0, all[p].1)
        }),
{
    lemma_item_sent(wire, conversation, i, n);
}

proof fn lemma_place_comes_of_an_item(wire: ImageWire, conversation: Seq<ItemView>, p: int)
    requires
        sendable(wire, conversation),
        0 <= p < sent(wire, conversation).len(),
    ensures
        exists|i: int|
            #![trigger conversation[i]]
            0 <= i < conversation.len() && 0 <= p - sent(wire, conversation.take(i)).len() < count(
                wire,
                conversation[i],
            ),
    decreases conversation.len(),
{
    if conversation.len() == 0 {
        lemma_instructions(conversation);
        lemma_turns_rendered_empty("content"@);
        lemma_turns_rendered_empty("parts"@);
    } else {
        let before = conversation.drop_last();
        let item = conversation.last();
        assert(before.push(item) =~= conversation);
        lemma_sent_behind(wire, before, item);
        if p < sent(wire, before).len() {
            lemma_place_comes_of_an_item(wire, before, p);
            let i = choose|i: int|
                #![trigger before[i]]
                0 <= i < before.len() && 0 <= p - sent(wire, before.take(i)).len() < count(
                    wire,
                    before[i],
                );
            assert(before.take(i) =~= conversation.take(i));
            assert(conversation[i] == before[i]);
        } else {
            let i = conversation.len() - 1;
            assert(conversation.take(i) =~= before);
            assert(conversation[i] == item);
        }
    }
}

/// Nothing is sent beside the blocks of the items.
pub proof fn law_nothing_else_is_sent(wire: ImageWire, conversation: Seq<ItemView>, p: int)
    requires
        accepted(wire, conversation),
        0 <= p < sent(wire, conversation).len(),
    ensures
        exists|i: int|
            #![trigger conversation[i]]
            0 <= i < conversation.len() && 0 <= p - sent(wire, conversation.take(i)).len() < count(
                wire,
                conversation[i],
            ),
{
    lemma_place_comes_of_an_item(wire, conversation, p);
}

proof fn lemma_sent_grows(wire: ImageWire, conversation: Seq<ItemView>, i: int, j: int)
    requires
        sendable(wire, conversation),
        0 <= i < j <= conversation.len(),
    ensures
        sent(wire, conversation.take(i)).len() + count(wire, conversation[i]) <= sent(
            wire,
            conversation.take(j),
        ).len(),
    decreases conversation.len() + j,
{
    if j < conversation.len() {
        let before = conversation.drop_last();
        assert(before.push(conversation.last()) =~= conversation);
        lemma_sent_behind(wire, before, conversation.last());
        assert(before.take(i) =~= conversation.take(i));
        assert(before.take(j) =~= conversation.take(j));
        assert(before[i] == conversation[i]);
        lemma_sent_grows(wire, before, i, j);
    } else {
        let before = conversation.drop_last();
        assert(before.push(conversation.last()) =~= conversation);
        assert(conversation.take(j) =~= conversation);
        lemma_sent_behind(wire, before, conversation.last());
        assert(before =~= conversation.take(j - 1));
        if i < j - 1 {
            lemma_sent_grows(wire, conversation, i, j - 1);
        }
    }
}

/// The id of the call that a block tells, as the provider reads it.
pub open spec fn call_id_in(wire: ImageWire, block: JsonView) -> Option<Seq<char>> {
    match wire {
        ImageWire::Messages => json::text_member(block, "id"@),
        ImageWire::Contents => match json::member(block, "functionCall"@) {
            Some(call) => json::text_member(call, "id"@),
            None => None,
        },
        _ => json::text_member(block, "call_id"@),
    }
}

/// The id of the call that a block answers, as the provider reads it.
pub open spec fn answered_id_in(wire: ImageWire, block: JsonView) -> Option<Seq<char>> {
    match wire {
        ImageWire::Messages => json::text_member(block, "tool_use_id"@),
        ImageWire::Contents => match json::member(block, "functionResponse"@) {
            Some(answer) => json::text_member(answer, "id"@),
            None => None,
        },
        _ => json::text_member(block, "call_id"@),
    }
}

/// The result of a call answers it on the wire: the block of the result names the id that
/// an earlier block told for the call.
pub proof fn law_results_answer_their_calls(
    wire: ImageWire,
    conversation: Seq<ItemView>,
    i: int,
    k: int,
    j: int,
)
    requires
        accepted(wire, conversation),
        wire != ImageWire::Chat,
        0 <= i < j < conversation.len(),
        conversation[i] is AssistantToolCalls,
        0 <= k < conversation[i]->calls.len(),
        wire == ImageWire::Responses ==> recorded(conversation[i]->calls) is None,
        conversation[j] is ToolResult,
        conversation[j]->ToolResult_0.call_id == conversation[i]->calls[k].id,
    ensures
        exists|p: int, q: int|
            0 <= p < q < sent(wire, conversation).len() && #[trigger] call_id_in(
                wire,
                sent(wire, conversation)[p].1,
            ) == Some(conversation[j]->ToolResult_0.call_id) && #[trigger] answered_id_in(
                wire,
                sent(wire, conversation)[q].1,
            ) == Some(conversation[j]->ToolResult_0.call_id),
{
    let n = text_count(conversation[i]->text) + k;
    law_every_item_is_sent(wire, conversation, i, n as int);
    law_every_item_is_sent(wire, conversation, j, 0);
    lemma_sent_grows(wire, conversation, i, j);
    let p = sent(wire, conversation.take(i)).len() + n;
    let q = sent(wire, conversation.take(j)).len() as int;
    assert(call_id_in(wire, sent(wire, conversation)[p].1) == Some(
        conversation[j]->ToolResult_0.call_id,
    ));
    assert(answered_id_in(wire, sent(wire, conversation)[q].1) == Some(
        conversation[j]->ToolResult_0.call_id,
    ));
}

/// What the provider is told to go by, before the conversation itself.
pub open spec fn instructions(wire: ImageWire, conversation: Seq<ItemView>) -> Option<Seq<char>> {
    match wire {
        ImageWire::Messages => match anthropic::messages_spec(conversation) {
            Ok((system, _)) => Some(system),
            Err(_) => None,
        },
        ImageWire::Contents => match gemini::contents_spec(conversation) {
            Ok((system, _)) => Some(system),
            Err(_) => None,
        },
        ImageWire::Chat => match openai_compatible::canonical_spec(conversation) {
            Ok(messages) => if has_instructions(conversation) {
                json::text_member(messages[0], "content"@)
            } else {
                Some(Seq::empty())
            },
            Err(_) => None,
        },
        ImageWire::Responses => match openai_responses::inputs_spec(conversation) {
            Ok(messages) => if has_instructions(conversation) {
                json::text_member(messages[0], "content"@)
            } else {
                Some(Seq::empty())
            },
            Err(_) => None,
        },
    }
}

/// The instructions of a conversation are the texts of its system messages in order, with
/// an empty line between: a system message at the end of a conversation adds its text, and
/// any other item adds nothing.
pub proof fn law_instructions_are_the_system_messages(
    wire: ImageWire,
    conversation: Seq<ItemView>,
    item: ItemView,
)
    requires
        accepted(wire, conversation),
        accepted(wire, conversation.push(item)),
    ensures
        instructions(wire, conversation) matches Some(before) && instructions(
            wire,
            conversation.push(item),
        ) == Some(
            match item {
                ItemView::Message(m) => if m.role != Role::System {
                    before
                } else if has_instructions(conversation) {
                    before + "\n\n"@ + m.content
                } else {
                    m.content
                },
                _ => before,
            },
        ),
        !has_instructions(conversation) ==> instructions(wire, conversation) == Some(
            Seq::<char>::empty(),
        ),
{
    let all = conversation.push(item);
    assert(all.drop_last() =~= conversation);
    lemma_names();
    lemma_instructions(conversation);
    lemma_instructions(all);
    let texts = fields::system_texts(conversation);
    let more = fields::system_texts(all);
    if is_instruction(item) {
        assert(more.drop_last() =~= texts);
    }
}

/// Whether no two turns that follow each other have one role, and none is empty.
spec fn alternate(all: Seq<TurnView>) -> bool {
    &&& forall|i: int, j: int|
        0 <= i && j == i + 1 && j < all.len() ==> (#[trigger] all[i]).role != (
        #[trigger] all[j]).role
    &&& forall|i: int| 0 <= i < all.len() ==> (#[trigger] all[i]).blocks.len() > 0
}

proof fn lemma_alternate(all: Seq<TurnView>, role: Seq<char>, blocks: Seq<JsonView>)
    requires
        alternate(all),
        blocks.len() > 0,
    ensures
        alternate(turns::push_spec(all, role, blocks)),
{
    let next = turns::push_spec(all, role, blocks);
    assert forall|i: int, j: int| 0 <= i && j == i + 1 && j < next.len() implies (
    #[trigger] next[i]).role != (#[trigger] next[j]).role by {
        if j < all.len() {
            assert(all[i].role != all[j].role);
        }
    }
}

proof fn lemma_turns_alternate(conversation: Seq<ItemView>)
    ensures
        anthropic::turns_spec(conversation) matches Ok(all) ==> alternate(all),
        gemini::turns_spec(conversation) matches Ok(all) ==> alternate(all),
    decreases conversation.len(),
{
    if conversation.len() > 0 {
        lemma_turns_alternate(conversation.drop_last());
        match anthropic::turns_spec(conversation.drop_last()) {
            Ok(before) => match anthropic::item_blocks(conversation.last()) {
                Ok(Some((role, blocks))) => {
                    lemma_alternate(before, role, blocks);
                },
                _ => {},
            },
            Err(_) => {},
        }
        match gemini::turns_spec(conversation.drop_last()) {
            Ok(before) => match gemini::item_parts(conversation.last()) {
                Ok(Some((role, parts))) => {
                    lemma_alternate(before, role, parts);
                },
                _ => {},
            },
            Err(_) => {},
        }
    }
}

/// Whether messages take turns: the blocks of one role that follow each other stand in one
/// message, and no message is empty.
pub open spec fn take_turns(messages: Seq<JsonView>, key: Seq<char>) -> bool {
    &&& forall|i: int, j: int|
        0 <= i && j == i + 1 && j < messages.len() ==> json::text_member(
            #[trigger] messages[i],
            "role"@,
        ) != json::text_member(#[trigger] messages[j], "role"@)
    &&& forall|i: int|
        0 <= i < messages.len() ==> {
            &&& json::text_member(#[trigger] messages[i], "role"@) is Some
            &&& json::array_member(messages[i], key) matches Some(blocks) && blocks.len() > 0
        }
}

/// On the wires of Anthropic and Gemini the messages of a conversation take turns.
pub proof fn law_messages_take_turns(conversation: Seq<ItemView>)
    ensures
        anthropic::messages_spec(conversation) matches Ok((_, messages)) ==> messages.len() > 0
            && take_turns(messages, "content"@),
        gemini::contents_spec(conversation) matches Ok((_, messages)) ==> messages.len() > 0
            && take_turns(messages, "parts"@),
{
    lemma_names();
    lemma_turns_alternate(conversation);
}

} // verus!
