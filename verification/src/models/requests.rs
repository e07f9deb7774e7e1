//! Limits that hold for the requests of every provider.

use crate::json;
use crate::json::{Json, JsonView};
use crate::models::driver::{ModelError, ModelFault};
use crate::models::image;
use crate::models::types::{ConversationItem, ItemView};
use crate::outcome;
use crate::text;
use vstd::prelude::*;

verus! {

/// Common inline request envelope enforced by all first-party adapters.
pub const MAX_INLINE_MODEL_REQUEST_BYTES: usize = 20971520;

/// Whether a conversation attaches an image.
pub open spec fn attaches_image(conversation: Seq<ItemView>) -> bool {
    exists|i: int|
        0 <= i < conversation.len() && (#[trigger] conversation[i] matches ItemView::UserContent(
            c,
        ) && c.images.len() > 0)
}

/// The first fault of the image sets of a conversation, in words.
pub open spec fn image_fault(conversation: Seq<ItemView>) -> Option<Seq<char>>
    decreases conversation.len(),
{
    if conversation.len() == 0 {
        None
    } else {
        match image_fault(conversation.drop_last()) {
            Some(m) => Some(m),
            None => match conversation.last() {
                ItemView::UserContent(c) => match image::image_set_spec(c.images) {
                    Err(e) => Some(image::image_message(e)),
                    Ok(_) => None,
                },
                _ => None,
            },
        }
    }
}

/// Whether the images of a conversation are refused.
pub open spec fn images_spec(conversation: Seq<ItemView>, vision: bool) -> Result<(), Seq<char>> {
    match image_fault(conversation) {
        Some(m) => Err(m),
        None => if attaches_image(conversation) && !vision {
            Err("the configured model profile does not declare vision support"@)
        } else {
            Ok(())
        },
    }
}

proof fn lemma_image_fault(conversation: Seq<ItemView>, i: int)
    requires
        0 <= i <= conversation.len(),
        image_fault(conversation.take(i)) is Some,
    ensures
        image_fault(conversation) == image_fault(conversation.take(i)),
    decreases conversation.len() - i,
{
    if i == conversation.len() {
        assert(conversation.take(i) =~= conversation);
    } else {
        assert(conversation.take(i + 1).drop_last() =~= conversation.take(i));
        lemma_image_fault(conversation, i + 1);
    }
}

/// Checks the images of a conversation.
pub fn validate_request_images(conversation: &Vec<ConversationItem>, vision: bool) -> (r: Result<
    (),
    String,
>)
    ensures
        outcome::of(r) == images_spec(conversation.deep_view(), vision),
{
    let ghost all = conversation.deep_view();
    let mut found = false;
    let mut i: usize = 0;
    assert(all.take(0) =~= Seq::<ItemView>::empty());
    while i < conversation.len()
        invariant
            i <= conversation@.len(),
            all == conversation.deep_view(),
            all.len() == conversation@.len(),
            image_fault(all.take(i as int)) is None,
            found == exists|k: int|
                0 <= k < i && (#[trigger] all[k] matches ItemView::UserContent(c) && c.images.len()
                    > 0),
        decreases conversation@.len() - i,
    {
        assert(all[i as int] == conversation@[i as int].deep_view());
        assert(all.take(i as int + 1).drop_last() =~= all.take(i as int));
        assert(all.take(i as int + 1).last() == all[i as int]);
        match &conversation[i] {
            ConversationItem::UserContent(content) => {
                assert(content.images.deep_view().len() == content.images@.len());
                match image::validate_image_set(&content.images) {
                    Ok(_) => {},
                    Err(e) => {
                        proof {
                            lemma_image_fault(all, i as int + 1);
                        }
                        return Err(e.message());
                    },
                }
                if content.images.len() > 0 {
                    assert(all[i as int] matches ItemView::UserContent(c) && c.images.len() > 0);
                    found = true;
                }
            },
            _ => {},
        }
        i += 1;
    }
    assert(all.take(all.len() as int) =~= all);
    if found && !vision {
        Err("the configured model profile does not declare vision support".to_owned())
    } else {
        Ok(())
    }
}

/// Whether a request's body of the given number of bytes is refused.
pub open spec fn body_size_spec(bytes: nat) -> Result<(), Seq<char>> {
    if bytes > MAX_INLINE_MODEL_REQUEST_BYTES {
        Err(
            "provider request has "@ + text::decimal(bytes)
                + " bytes; Pactrail's portable inline limit is "@ + text::decimal(
                MAX_INLINE_MODEL_REQUEST_BYTES as nat,
            ),
        )
    } else {
        Ok(())
    }
}

/// Checks the number of bytes of a request's body.
pub fn validate_body_bytes(bytes: usize) -> (r: Result<(), String>)
    ensures
        outcome::of(r) == body_size_spec(bytes as nat),
{
    if bytes > MAX_INLINE_MODEL_REQUEST_BYTES {
        Err(
            text::concat4(
                "provider request has ",
                text::decimal_of(bytes).as_str(),
                " bytes; Pactrail's portable inline limit is ",
                text::decimal_of(MAX_INLINE_MODEL_REQUEST_BYTES).as_str(),
            ),
        )
    } else {
        Ok(())
    }
}

/// Checks the size of a request's body as it is sent.
pub fn validate_request_body_size(body: &Json) -> (r: Result<(), String>)
    ensures
        outcome::of(r) == body_size_spec(text::utf8_len(json::json_text(body.deep_view()))),
{
    validate_body_bytes(text::byte_len(body.to_text().as_str()))
}

/// A request's body, unless it is too large.
pub open spec fn measured(body: Result<JsonView, ModelFault>) -> Result<JsonView, ModelFault> {
    match body {
        Err(e) => Err(e),
        Ok(b) => match body_size_spec(text::utf8_len(json::json_text(b))) {
            Err(m) => Err(ModelFault::InvalidRequest(m)),
            Ok(_) => Ok(b),
        },
    }
}

/// Hands a request's body on, unless it is too large.
pub fn measure(body: Json) -> (r: Result<Json, ModelError>)
    ensures
        outcome::of(r) == measured(Ok::<JsonView, ModelFault>(body.deep_view())),
{
    match validate_request_body_size(&body) {
        Ok(_) => Ok(body),
        Err(m) => Err(ModelError::InvalidRequest(m)),
    }
}

} // verus!
