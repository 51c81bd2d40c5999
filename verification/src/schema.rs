//! JSON schemas, by which the parameters of tools are described to the model.
use crate::json::{ArrayBuilder, Json, JsonView, NumberView, ObjectBuilder};
use crate::text::texts;
use vstd::prelude::*;

verus! {

/// A number as JSON.
pub open spec fn number_json(n: nat) -> JsonView {
    JsonView::Number(NumberView::Unsigned(n))
}

/// Texts as JSON.
pub open spec fn texts_json(t: Seq<Seq<char>>) -> JsonView {
    JsonView::Array(t.map_values(|s: Seq<char>| JsonView::Text(s)))
}

/// Texts as JSON.
pub fn json_of_texts(v: &Vec<String>) -> (r: Json)
    ensures
        r@ == texts_json(texts(v@)),
{
    let ghost t = texts(v@);
    let mut a = ArrayBuilder::new();
    let mut i: usize = 0;
    assert(a.array() =~= t.take(0).map_values(|s: Seq<char>| JsonView::Text(s)));
    while i < v.len()
        invariant
            i <= v@.len(),
            t == texts(v@),
            a.array() == t.take(i as int).map_values(|s: Seq<char>| JsonView::Text(s)),
        decreases v.len() - i,
    {
        a.push_text(v[i].as_str());
        assert(a.array() =~= t.take(i + 1).map_values(|s: Seq<char>| JsonView::Text(s)));
        i += 1;
    }
    assert(t.take(i as int) =~= t);
    a.finish()
}

/// A schema of a type.
pub open spec fn typed(kind: Seq<char>) -> Map<Seq<char>, JsonView> {
    Map::empty().insert("type"@, JsonView::Text(kind))
}

/// A schema of a type.
pub fn begin_schema(kind: &str) -> (r: ObjectBuilder)
    ensures
        r.object() == typed(kind@),
{
    let mut o = ObjectBuilder::new();
    o.put_text("type", kind);
    o
}

/// The schema of any text.
pub open spec fn any_text() -> JsonView {
    JsonView::Object(typed("string"@))
}

/// The schema of any text.
pub fn any_text_schema() -> (r: Json)
    ensures
        r@ == any_text(),
{
    begin_schema("string").finish()
}

/// The schema of a text that is another where it is not given.
pub open spec fn text_with_default(other: Seq<char>) -> JsonView {
    JsonView::Object(typed("string"@).insert("default"@, JsonView::Text(other)))
}

/// The schema of a text that is another where it is not given.
pub fn text_with_default_schema(other: &str) -> (r: Json)
    ensures
        r@ == text_with_default(other@),
{
    let mut o = begin_schema("string");
    o.put_text("default", other);
    o.finish()
}

/// The schema of a text that is not empty and has at most a number of characters.
pub open spec fn bounded_text(max: nat) -> JsonView {
    JsonView::Object(
        typed("string"@).insert("minLength"@, number_json(1)).insert(
            "maxLength"@,
            number_json(max),
        ),
    )
}

/// The schema of a text that is not empty and has at most a number of characters.
pub fn bounded_text_schema(max: u64) -> (r: Json)
    ensures
        r@ == bounded_text(max as nat),
{
    let mut o = begin_schema("string");
    o.put_number("minLength", 1);
    o.put_number("maxLength", max);
    o.finish()
}

/// The schema of a switch that is off where it is not given.
pub open spec fn switch() -> JsonView {
    JsonView::Object(typed("boolean"@).insert("default"@, JsonView::Bool(false)))
}

/// The schema of a switch that is off where it is not given.
pub fn switch_schema() -> (r: Json)
    ensures
        r@ == switch(),
{
    let mut o = begin_schema("boolean");
    o.put("default", Json::Bool(false));
    o.finish()
}

/// The schema of a positive integer, which may have an upper bound.
pub open spec fn positive(max: Option<nat>, default: nat) -> JsonView {
    let base = typed("integer"@).insert("minimum"@, number_json(1));
    let bounded = match max {
        Some(n) => base.insert("maximum"@, number_json(n)),
        None => base,
    };
    JsonView::Object(bounded.insert("default"@, number_json(default)))
}

/// The schema of a positive integer, which may have an upper bound.
pub fn positive_schema(max: Option<u64>, default: u64) -> (r: Json)
    ensures
        r@ == positive(
            match max {
                Some(n) => Some(n as nat),
                None => None,
            },
            default as nat,
        ),
{
    let mut o = begin_schema("integer");
    o.put_number("minimum", 1);
    if let Some(n) = max {
        o.put_number("maximum", n);
    }
    o.put_number("default", default);
    o.finish()
}

/// The schema of a list of a number of items.
pub open spec fn list_of(min: nat, max: nat, items: JsonView) -> JsonView {
    JsonView::Object(
        typed("array"@).insert("minItems"@, number_json(min)).insert(
            "maxItems"@,
            number_json(max),
        ).insert("items"@, items),
    )
}

/// The schema of a list of a number of items.
pub fn list_schema(min: u64, max: u64, items: Json) -> (r: Json)
    ensures
        r@ == list_of(min as nat, max as nat, items@),
{
    let mut o = begin_schema("array");
    o.put_number("minItems", min);
    o.put_number("maxItems", max);
    o.put("items", items);
    o.finish()
}

/// The schema of an object with some properties.
pub open spec fn object_with(properties: Map<Seq<char>, JsonView>) -> Map<Seq<char>, JsonView> {
    typed("object"@).insert("properties"@, JsonView::Object(properties))
}

/// The schema of an object with some properties and no others, some of which must be there.
pub open spec fn only(properties: Map<Seq<char>, JsonView>, required: Seq<Seq<char>>) -> JsonView {
    let base = object_with(properties);
    let named = if required.len() == 0 {
        base
    } else {
        base.insert("required"@, texts_json(required))
    };
    JsonView::Object(named.insert("additionalProperties"@, JsonView::Bool(false)))
}

/// The schema of an object with some properties.
pub fn open_schema(properties: ObjectBuilder) -> (r: Json)
    ensures
        r@ == JsonView::Object(object_with(properties.object())),
{
    let mut o = begin_schema("object");
    o.put("properties", properties.finish());
    o.finish()
}

/// The schema of an object with some properties and no others, some of which must be there.
pub fn only_schema(properties: ObjectBuilder, required: &Vec<String>) -> (r: Json)
    ensures
        r@ == only(properties.object(), texts(required@)),
{
    let mut o = begin_schema("object");
    o.put("properties", properties.finish());
    assert(texts(required@).len() == required@.len());
    if required.len() > 0 {
        o.put("required", json_of_texts(required));
    }
    o.put("additionalProperties", Json::Bool(false));
    o.finish()
}

/// One name.
pub fn one_name(a: &str) -> (r: Vec<String>)
    ensures
        texts(r@) == seq![a@],
{
    let mut r: Vec<String> = Vec::new();
    r.push(a.to_owned());
    assert(texts(r@) =~= seq![a@]);
    r
}

/// Two names.
pub fn two_names(a: &str, b: &str) -> (r: Vec<String>)
    ensures
        texts(r@) == seq![a@, b@],
{
    let mut r: Vec<String> = Vec::new();
    r.push(a.to_owned());
    r.push(b.to_owned());
    assert(texts(r@) =~= seq![a@, b@]);
    r
}

} // verus!
