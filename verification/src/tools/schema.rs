//! JSON schemas of tool inputs.

use crate::json;
use crate::json::{Json, JsonMap, JsonView};
use crate::text;
use vstd::prelude::*;

verus! {

/// A schema of one type.
pub open spec fn typed(name: Seq<char>) -> JsonView {
    json::obj1("type"@, JsonView::Text(name))
}

/// A schema of one type or null.
pub open spec fn nullable(name: Seq<char>) -> JsonView {
    json::obj1(
        "type"@,
        JsonView::Array(seq![JsonView::Text(name), JsonView::Text("null"@)]),
    )
}

/// A schema of numbers from zero on.
pub open spec fn unsigned(of: JsonView, format: Seq<char>) -> JsonView {
    json::with_member(
        json::with_member(of, "format"@, JsonView::Text(format)),
        "minimum"@,
        json::num(0),
    )
}

/// A schema of counts.
pub open spec fn count_spec() -> JsonView {
    unsigned(typed("integer"@), "uint"@)
}

/// A schema of 64-bit numbers.
pub open spec fn number_spec() -> JsonView {
    unsigned(typed("integer"@), "uint64"@)
}

/// A schema of counts or null.
pub open spec fn optional_count_spec() -> JsonView {
    unsigned(nullable("integer"@), "uint"@)
}

/// A schema of arrays.
pub open spec fn list_of(items: JsonView) -> JsonView {
    json::obj2("type"@, JsonView::Text("array"@), "items"@, items)
}

/// A schema of maps from names to values.
pub open spec fn map_of(values: JsonView) -> JsonView {
    json::obj2("type"@, JsonView::Text("object"@), "additionalProperties"@, values)
}

/// A schema with a description.
pub open spec fn described(of: JsonView, description: Seq<char>) -> JsonView {
    json::with_member(of, "description"@, JsonView::Text(description))
}

/// A schema with a default.
pub open spec fn defaulted(of: JsonView, value: JsonView) -> JsonView {
    json::with_member(of, "default"@, value)
}

/// Names as JSON.
pub open spec fn names(of: Seq<Seq<char>>) -> JsonView {
    JsonView::Array(of.map_values(|n: Seq<char>| JsonView::Text(n)))
}

/// A schema of objects with these properties and no others.
pub open spec fn closed_object(
    properties: Map<Seq<char>, JsonView>,
    required: Seq<Seq<char>>,
) -> JsonView {
    let base = json::obj3(
        "type"@,
        JsonView::Text("object"@),
        "properties"@,
        JsonView::Object(properties),
        "additionalProperties"@,
        JsonView::Bool(false),
    );
    if required.len() == 0 {
        base
    } else {
        json::with_member(base, "required"@, names(required))
    }
}

/// A schema as a document of its own.
pub open spec fn document(of: JsonView, title: Seq<char>) -> JsonView {
    json::with_member(
        json::with_member(
            of,
            "$schema"@,
            JsonView::Text("https://json-schema.org/draft/2020-12/schema"@),
        ),
        "title"@,
        JsonView::Text(title),
    )
}

/// A schema of one type.
pub fn typed_json(name: &str) -> (r: Json)
    ensures
        r.deep_view() == typed(name@),
{
    Json::object1("type", Json::text(name))
}

/// A schema of one type or null.
pub fn nullable_json(name: &str) -> (r: Json)
    ensures
        r.deep_view() == nullable(name@),
{
    let mut types: Vec<Json> = Vec::new();
    types.push(Json::text(name));
    types.push(Json::text("null"));
    assert(types.deep_view() =~= seq![JsonView::Text(name@), JsonView::Text("null"@)]);
    Json::object1("type", Json::array(types))
}

fn unsigned_json(of: Json, format: &str) -> (r: Json)
    ensures
        r.deep_view() == unsigned(of.deep_view(), format@),
{
    let mut out = of;
    out.set_member("format", Json::text(format));
    out.set_member("minimum", Json::number(0));
    out
}

/// A schema of counts.
pub fn count_json() -> (r: Json)
    ensures
        r.deep_view() == count_spec(),
{
    unsigned_json(typed_json("integer"), "uint")
}

/// A schema of 64-bit numbers.
pub fn number_json() -> (r: Json)
    ensures
        r.deep_view() == number_spec(),
{
    unsigned_json(typed_json("integer"), "uint64")
}

/// A schema of counts or null.
pub fn optional_count_json() -> (r: Json)
    ensures
        r.deep_view() == optional_count_spec(),
{
    unsigned_json(nullable_json("integer"), "uint")
}

/// A schema of arrays.
pub fn list_json(items: Json) -> (r: Json)
    ensures
        r.deep_view() == list_of(items.deep_view()),
{
    Json::object2("type", Json::text("array"), "items", items)
}

/// A schema of maps from names to values.
pub fn map_json(values: Json) -> (r: Json)
    ensures
        r.deep_view() == map_of(values.deep_view()),
{
    Json::object2("type", Json::text("object"), "additionalProperties", values)
}

/// A schema with a description.
pub fn described_json(of: Json, description: &str) -> (r: Json)
    ensures
        r.deep_view() == described(of.deep_view(), description@),
{
    let mut out = of;
    out.set_member("description", Json::text(description));
    out
}

/// A schema with a default.
pub fn defaulted_json(of: Json, value: Json) -> (r: Json)
    ensures
        r.deep_view() == defaulted(of.deep_view(), value.deep_view()),
{
    let mut out = of;
    out.set_member("default", value);
    out
}

/// Texts as JSON.
pub fn texts_json(of: &Vec<String>) -> (r: Json)
    ensures
        r.deep_view() == names(text::views(of@)),
{
    let mut items: Vec<Json> = Vec::new();
    let mut i: usize = 0;
    while i < of.len()
        invariant
            i <= of@.len(),
            items@.len() == i,
            forall|k: int|
                0 <= k < i ==> (#[trigger] items@[k]).deep_view() == JsonView::Text(of@[k]@),
        decreases of@.len() - i,
    {
        items.push(Json::text(of[i].as_str()));
        i += 1;
    }
    assert(items.deep_view() =~= text::views(of@).map_values(
        |n: Seq<char>| JsonView::Text(n),
    ));
    Json::array(items)
}

/// A schema of objects with these properties and no others.
pub fn closed_object_json(properties: JsonMap, required: &Vec<String>) -> (r: Json)
    ensures
        r.deep_view() == closed_object(properties.deep_view(), text::views(required@)),
{
    let mut out = Json::object3(
        "type",
        Json::text("object"),
        "properties",
        Json::object(properties),
        "additionalProperties",
        Json::boolean(false),
    );
    if required.len() > 0 {
        out.set_member("required", texts_json(required));
    }
    out
}

/// A schema as a document of its own.
pub fn document_json(of: Json, title: &str) -> (r: Json)
    ensures
        r.deep_view() == document(of.deep_view(), title@),
{
    let mut out = of;
    out.set_member("$schema", Json::text("https://json-schema.org/draft/2020-12/schema"));
    out.set_member("title", Json::text(title));
    out
}

/// No names.
pub fn no_names() -> (r: Vec<String>)
    ensures
        text::views(r@) == Seq::<Seq<char>>::empty(),
{
    let r: Vec<String> = Vec::new();
    assert(text::views(r@) =~= Seq::<Seq<char>>::empty());
    r
}

/// `to` with one more name.
pub fn and_name(to: Vec<String>, name: &str) -> (r: Vec<String>)
    ensures
        text::views(r@) == text::views(to@).push(name@),
{
    let mut out = to;
    let ghost before = out@;
    out.push(name.to_owned());
    assert(text::views(out@) =~= text::views(before).push(name@));
    out
}

} // verus!
