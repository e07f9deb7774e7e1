//! Checks that the providers' wire formats share.

use crate::json;
use crate::json::{Json, JsonView};
use crate::models::driver::{ModelError, ModelFault};
use crate::models::types::{ConversationItem, ItemView, Role};
use crate::outcome;
use crate::text;
use vstd::prelude::*;

verus! {

/// Longest identifier, in bytes.
pub const MAX_IDENTIFIER_BYTES: usize = 512;

/// Whether a provider's text may serve as an identifier.
pub open spec fn is_identifier(s: Seq<char>) -> bool {
    s.len() > 0 && text::utf8_len(s) <= MAX_IDENTIFIER_BYTES && !text::has_control(s)
}

/// Whether a provider's text may serve as an identifier.
pub fn may_identify(s: &str) -> (r: bool)
    ensures
        r == is_identifier(s@),
{
    !s.is_empty() && text::byte_len(s) <= MAX_IDENTIFIER_BYTES && !text::any_control(s)
}

/// The identifier that a member holds.
pub open spec fn identifier_spec(value: Option<JsonView>, field: Seq<char>) -> Result<
    Seq<char>,
    ModelFault,
> {
    match value {
        Some(JsonView::Text(t)) => if is_identifier(t) {
            Ok(t)
        } else {
            Err(
                ModelFault::MalformedResponse(
                    field + " is empty, oversized, or contains control characters"@,
                ),
            )
        },
        _ => Err(ModelFault::MalformedResponse(field + " is missing or is not a string"@)),
    }
}

/// Reads the identifier that a member holds.
pub fn bounded_identifier(value: Option<&Json>, field: &str) -> (r: Result<String, ModelError>)
    ensures
        outcome::of(r) == identifier_spec(value.deep_view(), field@),
{
    let found = match value {
        Some(v) => v.as_str(),
        None => None,
    };
    match found {
        None => Err(
            ModelError::MalformedResponse(text::concat2(field, " is missing or is not a string")),
        ),
        Some(t) => if may_identify(t) {
            Ok(t.to_owned())
        } else {
            Err(
                ModelError::MalformedResponse(
                    text::concat2(
                        field,
                        " is empty, oversized, or contains control characters",
                    ),
                ),
            )
        },
    }
}

/// What an identifier that a stream repeats does: it must be valid and stay the
/// same.
pub open spec fn merge_spec(
    target: Option<Seq<char>>,
    value: Seq<char>,
    field: Seq<char>,
    during: Seq<char>,
) -> (Option<Seq<char>>, Result<(), ModelFault>) {
    if !is_identifier(value) {
        (
            target,
            Err(
                ModelFault::MalformedResponse(
                    field + " is empty, oversized, or contains control characters"@,
                ),
            ),
        )
    } else {
        match target {
            Some(existing) => if existing == value {
                (target, Ok(()))
            } else {
                (target, Err(ModelFault::MalformedResponse(field + during)))
            },
            None => (Some(value), Ok(())),
        }
    }
}

/// Takes an identifier that a stream repeats.
pub fn merge_identifier(
    target: &mut Option<String>,
    value: &str,
    field: &str,
    during: &str,
) -> (r: Result<(), ModelError>)
    ensures
        (final(target).deep_view(), outcome::of(r)) == merge_spec(
            old(target).deep_view(),
            value@,
            field@,
            during@,
        ),
{
    if !may_identify(value) {
        return Err(
            ModelError::MalformedResponse(
                text::concat2(field, " is empty, oversized, or contains control characters"),
            ),
        );
    }
    let known = match target.as_ref() {
        Some(existing) => {
            if !text::same(existing.as_str(), value) {
                return Err(ModelError::MalformedResponse(text::concat2(field, during)));
            }
            true
        },
        None => false,
    };
    if !known {
        *target = Some(value.to_owned());
    }
    Ok(())
}

/// Appends a fragment to a text, within the limit.
pub fn append_text(target: &mut String, delta: &str, limit: usize) -> (r: Result<(), ModelError>)
    ensures
        text::utf8_len(old(target)@) + text::utf8_len(delta@) <= limit ==> r is Ok,
        text::utf8_len(old(target)@) + text::utf8_len(delta@) <= limit ==> final(target)@ == old(target)@ + delta@,
        text::utf8_len(old(target)@) + text::utf8_len(delta@) > limit ==> final(target)@ == old(target)@,
        text::utf8_len(old(target)@) + text::utf8_len(delta@) > limit ==> outcome::of(r) == Err::<(), ModelFault>(ModelFault::ResponseTooLarge { limit }),
{
    let have: usize = text::byte_len(target.as_str());
    let more: usize = text::byte_len(delta);
    if have > limit || more > limit - have {
        return Err(ModelError::ResponseTooLarge { limit });
    }
    target.push_str(delta);
    Ok(())
}

/// The number that a member is, or zero.
pub open spec fn number_spec(value: JsonView, key: Seq<char>) -> u64 {
    match json::u64_member(value, key) {
        Some(n) => n,
        None => 0,
    }
}

/// The number that a member is, or zero.
pub fn number(value: &Json, key: &str) -> (r: u64)
    ensures
        r == number_spec(value.deep_view(), key@),
{
    match value.u64_member(key) {
        Some(n) => n,
        None => 0,
    }
}

/// The texts of the system messages of a conversation, in order.
pub open spec fn system_texts(conversation: Seq<ItemView>) -> Seq<Seq<char>>
    decreases conversation.len(),
{
    if conversation.len() == 0 {
        Seq::empty()
    } else {
        let before = system_texts(conversation.drop_last());
        match conversation.last() {
            ItemView::Message(m) => if m.role == Role::System {
                before.push(m.content)
            } else {
                before
            },
            _ => before,
        }
    }
}

/// Whether an item is a system message.
pub open spec fn is_system(item: ItemView) -> bool {
    match item {
        ItemView::Message(m) => m.role == Role::System,
        _ => false,
    }
}

/// The texts of the system messages of a conversation, joined by blank lines.
pub fn system_text(conversation: &Vec<ConversationItem>) -> (r: Vec<String>)
    ensures
        r.deep_view() == system_texts(conversation.deep_view()),
{
    let ghost all = conversation.deep_view();
    let mut out: Vec<String> = Vec::new();
    let mut i: usize = 0;
    assert(all.take(0) =~= Seq::<ItemView>::empty());
    assert(out.deep_view() =~= Seq::<Seq<char>>::empty());
    while i < conversation.len()
        invariant
            i <= conversation@.len(),
            all == conversation.deep_view(),
            all.len() == conversation@.len(),
            out.deep_view() == system_texts(all.take(i as int)),
        decreases conversation@.len() - i,
    {
        let ghost before = out.deep_view();
        assert(all[i as int] == conversation@[i as int].deep_view());
        assert(all.take(i as int + 1).drop_last() =~= all.take(i as int));
        assert(all.take(i as int + 1).last() == all[i as int]);
        match &conversation[i] {
            ConversationItem::Message(m) => {
                if m.role == Role::System {
                    out.push(m.content.clone());
                    assert(out.deep_view() =~= before.push(m.content@));
                }
            },
            _ => {},
        }
        i += 1;
    }
    assert(all.take(all.len() as int) =~= all);
    out
}

} // verus!
