//! JSON values, and their text form as `serde_json` reads and writes it.
use crate::text::{outcome, same};
use vstd::prelude::*;

verus! {

/// A JSON number, told apart as `serde_json` does.
#[derive(Debug, PartialEq, Eq)]
pub enum JsonNumber {
    /// An integer that is not negative.
    Unsigned(u64),
    /// A negative integer.
    Negative(i64),
    /// Any other number, in the text that `serde_json` writes for it.
    Decimal(String),
}

/// A JSON value. An object is its entries; where a key occurs twice the last entry counts.
#[derive(Debug, PartialEq, Eq)]
pub enum Json {
    Null,
    Bool(bool),
    Number(JsonNumber),
    Text(String),
    Array(Vec<Json>),
    Object(Vec<(String, Json)>),
}

/// The mathematical value of a [`JsonNumber`].
pub enum NumberView {
    Unsigned(nat),
    Negative(int),
    Decimal(Seq<char>),
}

/// The mathematical value of a [`Json`].
pub enum JsonView {
    Null,
    Bool(bool),
    Number(NumberView),
    Text(Seq<char>),
    Array(Seq<JsonView>),
    Object(Map<Seq<char>, JsonView>),
}

/// The object that a list of entries stands for: the last entry of a key counts.
pub open spec fn object_of(entries: Seq<(Seq<char>, JsonView)>) -> Map<Seq<char>, JsonView>
    decreases entries.len(),
{
    if entries.len() == 0 {
        Map::empty()
    } else {
        object_of(entries.drop_last()).insert(entries.last().0, entries.last().1)
    }
}

impl View for JsonNumber {
    type V = NumberView;

    open spec fn view(&self) -> NumberView {
        match self {
            JsonNumber::Unsigned(n) => NumberView::Unsigned(*n as nat),
            JsonNumber::Negative(n) => NumberView::Negative(*n as int),
            JsonNumber::Decimal(s) => NumberView::Decimal(s@),
        }
    }
}

/// The value that a [`Json`] stands for.
pub open spec fn json_view(j: Json) -> JsonView
    decreases j,
{
    match j {
        Json::Null => JsonView::Null,
        Json::Bool(b) => JsonView::Bool(b),
        Json::Number(n) => JsonView::Number(n@),
        Json::Text(s) => JsonView::Text(s@),
        Json::Array(items) => JsonView::Array(json_views(items@)),
        Json::Object(entries) => JsonView::Object(object_of(entry_views(entries@))),
    }
}

/// The values of the items of an array.
pub open spec fn json_views(items: Seq<Json>) -> Seq<JsonView>
    decreases items,
{
    Seq::new(
        items.len(),
        |i: int|
            if 0 <= i < items.len() {
                json_view(items[i])
            } else {
                JsonView::Null
            },
    )
}

/// The keys and values of the entries of an object.
pub open spec fn entry_views(entries: Seq<(String, Json)>) -> Seq<(Seq<char>, JsonView)>
    decreases entries,
{
    Seq::new(
        entries.len(),
        |i: int|
            if 0 <= i < entries.len() {
                (entries[i].0@, json_view(entries[i].1))
            } else {
                (Seq::empty(), JsonView::Null)
            },
    )
}

impl View for Json {
    type V = JsonView;

    open spec fn view(&self) -> JsonView {
        json_view(*self)
    }
}

impl DeepView for Json {
    type V = JsonView;

    open spec fn deep_view(&self) -> JsonView {
        json_view(*self)
    }
}

#[verifier::external_type_specification]
#[verifier::external_body]
pub struct ExValue(serde_json::Value);

/// What a `serde_json::Value` holds.
pub uninterp spec fn value_contents(value: serde_json::Value) -> JsonView;

/// One level of a `serde_json::Value`.
enum Level<'a> {
    Null,
    Bool(bool),
    Number(Option<u64>, Option<i64>, String),
    Text(&'a String),
    Array(&'a Vec<serde_json::Value>),
    Object(Vec<(&'a String, &'a serde_json::Value)>),
}

spec fn contents_of(items: Seq<serde_json::Value>) -> Seq<JsonView> {
    Seq::new(items.len(), |i: int| value_contents(items[i]))
}

spec fn entries_of(entries: Seq<(&String, &serde_json::Value)>) -> Seq<(Seq<char>, JsonView)> {
    Seq::new(entries.len(), |i: int| (entries[i].0@, value_contents(*entries[i].1)))
}

spec fn level_contents(level: Level) -> JsonView {
    match level {
        Level::Null => JsonView::Null,
        Level::Bool(b) => JsonView::Bool(b),
        Level::Number(Some(n), _, _) => JsonView::Number(NumberView::Unsigned(n as nat)),
        Level::Number(None, Some(n), _) => JsonView::Number(NumberView::Negative(n as int)),
        Level::Number(None, None, s) => JsonView::Number(NumberView::Decimal(s@)),
        Level::Text(s) => JsonView::Text(s@),
        Level::Array(items) => JsonView::Array(contents_of(items@)),
        Level::Object(entries) => JsonView::Object(object_of(entries_of(entries@))),
    }
}

/// No key occurs twice.
pub open spec fn distinct_keys(entries: Seq<(Seq<char>, JsonView)>) -> bool {
    forall|a: int, b: int| 0 <= a < b < entries.len() ==> entries[a].0 != entries[b].0
}

/// Matches on a `serde_json::Value`: what it returns is the outermost level of what the value
/// holds. A number is told by `Number::as_u64`, `Number::as_i64` and its text; an object is listed
/// by `Map::iter`, which gives each key once.
#[verifier::external_body]
fn open_value(value: &serde_json::Value) -> (r: Level)
    ensures
        level_contents(r) == value_contents(*value),
        r matches Level::Object(entries) ==> distinct_keys(entries_of(entries@)),
{
    match value {
        serde_json::Value::Null => Level::Null,
        serde_json::Value::Bool(b) => Level::Bool(*b),
        serde_json::Value::Number(n) => Level::Number(n.as_u64(), n.as_i64(), n.to_string()),
        serde_json::Value::String(s) => Level::Text(s),
        serde_json::Value::Array(items) => Level::Array(items),
        serde_json::Value::Object(map) => Level::Object(map.iter().collect()),
    }
}

/// Where no key occurs twice, each entry is what the object holds at its key.
pub proof fn distinct_entries_are_kept(entries: Seq<(Seq<char>, JsonView)>, i: int)
    requires
        0 <= i < entries.len(),
        distinct_keys(entries),
    ensures
        object_of(entries).contains_key(entries[i].0),
        object_of(entries)[entries[i].0] == entries[i].1,
    decreases entries.len(),
{
    if i < entries.len() - 1 {
        distinct_entries_are_kept(entries.drop_last(), i);
        assert(entries.drop_last()[i] == entries[i]);
    }
}

/// Converts a `serde_json::Value`.
fn json_of_value(value: &serde_json::Value) -> (r: Json)
    ensures
        r@ == value_contents(*value),
    decreases value_contents(*value),
{
    match open_value(value) {
        Level::Null => Json::Null,
        Level::Bool(b) => Json::Bool(b),
        Level::Number(Some(n), _, _) => Json::Number(JsonNumber::Unsigned(n)),
        Level::Number(None, Some(n), _) => Json::Number(JsonNumber::Negative(n)),
        Level::Number(None, None, s) => Json::Number(JsonNumber::Decimal(s)),
        Level::Text(s) => Json::Text(s.clone()),
        Level::Array(items) => {
            let mut r: Vec<Json> = Vec::new();
            let mut i: usize = 0;
            while i < items.len()
                invariant
                    value_contents(*value) == JsonView::Array(contents_of(items@)),
                    i <= items@.len(),
                    r@.len() == i,
                    forall|k: int| 0 <= k < i ==> json_view(#[trigger] r@[k]) == value_contents(items@[k]),
                decreases items.len() - i,
            {
                proof {
                    assert(contents_of(items@)[i as int] == value_contents(items@[i as int]));
                    assert(decreases_to!(value_contents(*value) => value_contents(*value)->Array_0));
                }
                r.push(json_of_value(&items[i]));
                i += 1;
            }
            assert(json_views(r@) =~= contents_of(items@));
            Json::Array(r)
        },
        Level::Object(entries) => {
            let mut r: Vec<(String, Json)> = Vec::new();
            let mut i: usize = 0;
            while i < entries.len()
                invariant
                    value_contents(*value) == JsonView::Object(object_of(entries_of(entries@))),
                    i <= entries@.len(),
                    r@.len() == i,
                    forall|k: int| 0 <= k < i ==> (#[trigger] r@[k]).0@ == entries@[k].0@ && json_view(r@[k].1) == value_contents(*entries@[k].1),
                    distinct_keys(entries_of(entries@)),
                decreases entries.len() - i,
            {
                proof {
                    let all = entries_of(entries@);
                    distinct_entries_are_kept(all, i as int);
                    assert(value_contents(*value)->Object_0[all[i as int].0] == all[i as int].1);
                    assert(decreases_to!(value_contents(*value) => value_contents(*value)->Object_0));
                }
                r.push((entries[i].0.clone(), json_of_value(entries[i].1)));
                i += 1;
            }
            assert(entry_views(r@) =~= entries_of(entries@));
            Json::Object(r)
        },
    }
}

/// What `serde_json::from_str` reads as a `serde_json::Value` in a text, or the text of its error.
pub uninterp spec fn json_of_text(text: Seq<char>) -> Result<JsonView, Seq<char>>;

/// What `serde_json::from_slice` reads as a `serde_json::Value` in bytes, or nothing where it gives
/// an error.
pub uninterp spec fn json_of_bytes(bytes: Seq<u8>) -> Option<JsonView>;

/// The value that a text holds, or nothing where it is not JSON.
pub open spec fn json_in(text: Seq<char>) -> Option<JsonView> {
    match json_of_text(text) {
        Ok(value) => Some(value),
        Err(_) => None,
    }
}

/// What `serde_json::Value::to_string` writes for a value.
pub uninterp spec fn json_text(value: JsonView) -> Seq<char>;

/// `serde_json::from_str`: the value that a text holds, or the text of the error.
#[verifier::external_body]
fn parse_value(text: &str) -> (r: Result<serde_json::Value, String>)
    ensures
        json_of_text(text@) == match r {
            Ok(value) => Ok::<JsonView, Seq<char>>(value_contents(value)),
            Err(message) => Err(message@),
        },
{
    serde_json::from_str(text).map_err(|error| error.to_string())
}

/// `serde_json::from_slice`: the value that bytes hold, or nothing where they are not JSON.
#[verifier::external_body]
fn parse_value_bytes(bytes: &[u8]) -> (r: Option<serde_json::Value>)
    ensures
        json_of_bytes(bytes@) == match r {
            Some(value) => Some(value_contents(value)),
            None => None,
        },
{
    serde_json::from_slice(bytes).ok()
}

/// The value that a text holds, or what is wrong with it.
pub fn read_json(text: &str) -> (r: Result<Json, String>)
    ensures
        outcome(r) == json_of_text(text@),
{
    match parse_value(text) {
        Ok(value) => Ok(json_of_value(&value)),
        Err(message) => Err(message),
    }
}

/// The value that a text holds, or nothing where it is not JSON.
pub fn parse_json(text: &str) -> (r: Option<Json>)
    ensures
        r.deep_view() == json_in(text@),
{
    match parse_value(text) {
        Ok(value) => Some(json_of_value(&value)),
        Err(_) => None,
    }
}

/// The value that bytes hold, or nothing where they are not JSON.
pub fn parse_json_bytes(bytes: &[u8]) -> (r: Option<Json>)
    ensures
        r.deep_view() == json_of_bytes(bytes@),
{
    match parse_value_bytes(bytes) {
        Some(value) => Some(json_of_value(&value)),
        None => None,
    }
}

/// One level of a value to build.
enum Part {
    Null,
    Bool(bool),
    Unsigned(u64),
    Negative(i64),
    Text(String),
    Array(Vec<serde_json::Value>),
    Object(Vec<(String, serde_json::Value)>),
}

spec fn built_entries(entries: Seq<(String, serde_json::Value)>) -> Seq<(Seq<char>, JsonView)> {
    Seq::new(entries.len(), |i: int| (entries[i].0@, value_contents(entries[i].1)))
}

spec fn part_contents(part: Part) -> JsonView {
    match part {
        Part::Null => JsonView::Null,
        Part::Bool(b) => JsonView::Bool(b),
        Part::Unsigned(n) => JsonView::Number(NumberView::Unsigned(n as nat)),
        Part::Negative(n) => JsonView::Number(NumberView::Negative(n as int)),
        Part::Text(s) => JsonView::Text(s@),
        Part::Array(items) => JsonView::Array(contents_of(items@)),
        Part::Object(entries) => JsonView::Object(object_of(built_entries(entries@))),
    }
}

/// The constructors of `serde_json::Value`: the value built holds what it was built from. Entries
/// are collected into a `serde_json::Map`, which keeps the last value of a key.
#[verifier::external_body]
fn build_value(part: Part) -> (r: serde_json::Value)
    requires
        part matches Part::Negative(n) ==> n < 0,
    ensures
        value_contents(r) == part_contents(part),
{
    match part {
        Part::Null => serde_json::Value::Null,
        Part::Bool(b) => serde_json::Value::Bool(b),
        Part::Unsigned(n) => serde_json::Value::Number(n.into()),
        Part::Negative(n) => serde_json::Value::Number(n.into()),
        Part::Text(s) => serde_json::Value::String(s),
        Part::Array(items) => serde_json::Value::Array(items),
        Part::Object(entries) => serde_json::Value::Object(entries.into_iter().collect()),
    }
}

/// `serde_json::Value::to_string`: the compact text of a value.
#[verifier::external_body]
fn value_text(value: &serde_json::Value) -> (r: String)
    ensures
        r@ == json_text(value_contents(*value)),
{
    value.to_string()
}

/// A value as it is shown: a text as it is, any other value in its compact text.
pub open spec fn shown_json(value: JsonView) -> Seq<char> {
    match value {
        JsonView::Text(s) => s,
        other => json_text(other),
    }
}

/// A value as it is shown.
pub fn show_value(value: &serde_json::Value) -> (r: String)
    ensures
        r@ == shown_json(value_contents(*value)),
{
    match open_value(value) {
        Level::Text(s) => s.clone(),
        _ => value_text(value),
    }
}

/// A value whose numbers are integers, the negative ones kept apart from the others.
pub open spec fn integral(j: Json) -> bool
    decreases j,
{
    match j {
        Json::Number(JsonNumber::Decimal(_)) => false,
        Json::Number(JsonNumber::Negative(n)) => n < 0,
        Json::Array(items) => forall|i: int|
            0 <= i < items@.len() ==> integral(#[trigger] items@[i]),
        Json::Object(entries) => forall|i: int|
            0 <= i < entries@.len() ==> integral((#[trigger] entries@[i]).1),
        _ => true,
    }
}

fn value_of_json(j: &Json) -> (r: serde_json::Value)
    requires
        integral(*j),
    ensures
        value_contents(r) == j@,
    decreases j,
{
    match j {
        Json::Null => build_value(Part::Null),
        Json::Bool(b) => build_value(Part::Bool(*b)),
        Json::Number(JsonNumber::Unsigned(n)) => build_value(Part::Unsigned(*n)),
        Json::Number(JsonNumber::Negative(n)) => build_value(Part::Negative(*n)),
        Json::Number(JsonNumber::Decimal(s)) => build_value(Part::Text(s.clone())),
        Json::Text(s) => build_value(Part::Text(s.clone())),
        Json::Array(items) => {
            let mut r: Vec<serde_json::Value> = Vec::new();
            let mut i: usize = 0;
            while i < items.len()
                invariant
                    *j == Json::Array(*items),
                    integral(*j),
                    i <= items@.len(),
                    r@.len() == i,
                    forall|k: int| 0 <= k < i ==> value_contents(#[trigger] r@[k]) == json_view(items@[k]),
                decreases items.len() - i,
            {
                proof {
                    assert(j->Array_0@[i as int] == items@[i as int]);
                    assert(integral(items@[i as int]));
                    assert(decreases_to!(*j => j->Array_0));
                    assert(decreases_to!(j->Array_0 => j->Array_0[i as int]));
                }
                r.push(value_of_json(&items[i]));
                i += 1;
            }
            assert(contents_of(r@) =~= json_views(items@));
            build_value(Part::Array(r))
        },
        Json::Object(entries) => {
            let mut r: Vec<(String, serde_json::Value)> = Vec::new();
            let mut i: usize = 0;
            while i < entries.len()
                invariant
                    *j == Json::Object(*entries),
                    integral(*j),
                    i <= entries@.len(),
                    r@.len() == i,
                    forall|k: int|
                        0 <= k < i ==> (#[trigger] r@[k]).0@ == entries@[k].0@ && value_contents(r@[k].1)
                            == json_view(entries@[k].1),
                decreases entries.len() - i,
            {
                proof {
                    assert(j->Object_0@[i as int] == entries@[i as int]);
                    assert(integral(entries@[i as int].1));
                    assert(decreases_to!(*j => j->Object_0));
                    assert(decreases_to!(j->Object_0 => j->Object_0[i as int]));
                }
                r.push((entries[i].0.clone(), value_of_json(&entries[i].1)));
                i += 1;
            }
            assert(built_entries(r@) =~= entry_views(entries@));
            build_value(Part::Object(r))
        },
    }
}

/// An object while it is built.
pub struct ObjectBuilder {
    entries: Vec<(String, Json)>,
}

impl ObjectBuilder {
    /// The object built so far.
    pub closed spec fn object(self) -> Map<Seq<char>, JsonView> {
        object_of(entry_views(self.entries@))
    }

    /// Whether all numbers put in are integers.
    pub closed spec fn integral(self) -> bool {
        forall|i: int| 0 <= i < self.entries@.len() ==> integral((#[trigger] self.entries@[i]).1)
    }

    /// An empty object.
    pub fn new() -> (r: Self)
        ensures
            r.object() == Map::<Seq<char>, JsonView>::empty(),
            r.integral(),
    {
        let r = ObjectBuilder { entries: Vec::new() };
        assert(entry_views(r.entries@).len() == 0);
        r
    }

    /// Puts a value at a key.
    pub fn put(&mut self, key: &str, value: Json)
        ensures
            final(self).object() == old(self).object().insert(key@, value@),
            old(self).integral() && integral(value) ==> final(self).integral(),
    {
        let ghost before = entry_views(self.entries@);
        self.entries.push((key.to_owned(), value));
        proof {
            let after = entry_views(self.entries@);
            assert(after.last() == (key@, value@));
            assert(after.drop_last() =~= before);
        }
    }

    /// Puts a text at a key.
    pub fn put_text(&mut self, key: &str, value: &str)
        ensures
            final(self).object() == old(self).object().insert(key@, JsonView::Text(value@)),
            old(self).integral() ==> final(self).integral(),
    {
        self.put(key, Json::Text(value.to_owned()));
    }

    /// Puts a number at a key.
    pub fn put_number(&mut self, key: &str, value: u64)
        ensures
            final(self).object() == old(self).object().insert(
                key@,
                JsonView::Number(NumberView::Unsigned(value as nat)),
            ),
            old(self).integral() ==> final(self).integral(),
    {
        self.put(key, Json::Number(JsonNumber::Unsigned(value)));
    }

    /// The object.
    pub fn finish(self) -> (r: Json)
        ensures
            r@ == JsonView::Object(self.object()),
            self.integral() ==> integral(r),
    {
        Json::Object(self.entries)
    }
}

/// An array while it is built.
pub struct ArrayBuilder {
    items: Vec<Json>,
}

impl ArrayBuilder {
    /// The items put in so far.
    pub closed spec fn array(self) -> Seq<JsonView> {
        json_views(self.items@)
    }

    /// Whether all numbers put in are integers.
    pub closed spec fn integral(self) -> bool {
        forall|i: int| 0 <= i < self.items@.len() ==> integral(#[trigger] self.items@[i])
    }

    /// An empty array.
    pub fn new() -> (r: Self)
        ensures
            r.array() == Seq::<JsonView>::empty(),
            r.integral(),
    {
        ArrayBuilder { items: Vec::new() }
    }

    /// Puts a value at the end.
    pub fn push(&mut self, value: Json)
        ensures
            final(self).array() == old(self).array().push(value@),
            old(self).integral() && integral(value) ==> final(self).integral(),
    {
        self.items.push(value);
    }

    /// Puts a text at the end.
    pub fn push_text(&mut self, value: &str)
        ensures
            final(self).array() == old(self).array().push(JsonView::Text(value@)),
            old(self).integral() ==> final(self).integral(),
    {
        self.push(Json::Text(value.to_owned()));
    }

    /// The array.
    pub fn finish(self) -> (r: Json)
        ensures
            r@ == JsonView::Array(self.array()),
            self.integral() ==> integral(r),
    {
        Json::Array(self.items)
    }
}

/// The value at a key of an object.
pub open spec fn member(value: JsonView, key: Seq<char>) -> Option<JsonView> {
    match value {
        JsonView::Object(entries) => if entries.contains_key(key) {
            Some(entries[key])
        } else {
            None
        },
        _ => None,
    }
}

/// The text of a value that is a text.
pub open spec fn text_in(value: Option<JsonView>) -> Option<Seq<char>> {
    match value {
        Some(JsonView::Text(s)) => Some(s),
        _ => None,
    }
}

/// The number of a value that is an integer from 0 up.
pub open spec fn unsigned_in(value: Option<JsonView>) -> Option<nat> {
    match value {
        Some(JsonView::Number(NumberView::Unsigned(n))) => Some(n),
        _ => None,
    }
}

/// The number of a value that is an integer of at most 63 bits.
pub open spec fn integer_in(value: Option<JsonView>) -> Option<int> {
    match value {
        Some(JsonView::Number(NumberView::Unsigned(n))) => if n <= i64::MAX {
            Some(n as int)
        } else {
            None
        },
        Some(JsonView::Number(NumberView::Negative(n))) => Some(n),
        _ => None,
    }
}

/// The truth value of a value that is one.
pub open spec fn bool_in(value: Option<JsonView>) -> Option<bool> {
    match value {
        Some(JsonView::Bool(b)) => Some(b),
        _ => None,
    }
}

proof fn last_entry_counts(entries: Seq<(Seq<char>, JsonView)>, i: int)
    requires
        0 <= i < entries.len(),
        forall|k: int| i < k < entries.len() ==> entries[k].0 != entries[i].0,
    ensures
        object_of(entries).contains_key(entries[i].0),
        object_of(entries)[entries[i].0] == entries[i].1,
    decreases entries.len(),
{
    if i < entries.len() - 1 {
        last_entry_counts(entries.drop_last(), i);
        assert(entries.drop_last()[i] == entries[i]);
        assert(entries.last() == entries[entries.len() - 1]);
    }
}

proof fn absent_key(entries: Seq<(Seq<char>, JsonView)>, key: Seq<char>)
    requires
        forall|k: int| 0 <= k < entries.len() ==> entries[k].0 != key,
    ensures
        !object_of(entries).contains_key(key),
    decreases entries.len(),
{
    if entries.len() > 0 {
        absent_key(entries.drop_last(), key);
        assert(entries.last() == entries[entries.len() - 1]);
    }
}

impl Clone for JsonNumber {
    fn clone(&self) -> (r: Self)
        ensures
            r@ == self@,
    {
        match self {
            JsonNumber::Unsigned(n) => JsonNumber::Unsigned(*n),
            JsonNumber::Negative(n) => JsonNumber::Negative(*n),
            JsonNumber::Decimal(s) => JsonNumber::Decimal(s.clone()),
        }
    }
}

impl Clone for Json {
    fn clone(&self) -> (r: Self)
        ensures
            r@ == self@,
        decreases *self,
    {
        match self {
            Json::Null => Json::Null,
            Json::Bool(b) => Json::Bool(*b),
            Json::Number(n) => Json::Number(n.clone()),
            Json::Text(s) => Json::Text(s.clone()),
            Json::Array(items) => {
                let mut r: Vec<Json> = Vec::new();
                let mut i: usize = 0;
                while i < items.len()
                    invariant
                        *self == Json::Array(*items),
                        i <= items@.len(),
                        r@.len() == i,
                        forall|k: int| 0 <= k < i ==> json_view(#[trigger] r@[k]) == json_view(items@[k]),
                    decreases items.len() - i,
                {
                    proof {
                        assert(decreases_to!(*self => self->Array_0));
                        assert(decreases_to!(self->Array_0 => self->Array_0[i as int]));
                    }
                    r.push(items[i].clone());
                    i += 1;
                }
                assert(json_views(r@) =~= json_views(items@));
                Json::Array(r)
            },
            Json::Object(entries) => {
                let mut r: Vec<(String, Json)> = Vec::new();
                let mut i: usize = 0;
                while i < entries.len()
                    invariant
                        *self == Json::Object(*entries),
                        i <= entries@.len(),
                        r@.len() == i,
                        forall|k: int|
                            0 <= k < i ==> (#[trigger] r@[k]).0@ == entries@[k].0@ && json_view(r@[k].1)
                                == json_view(entries@[k].1),
                    decreases entries.len() - i,
                {
                    proof {
                        assert(decreases_to!(*self => self->Object_0));
                        assert(decreases_to!(self->Object_0 => self->Object_0[i as int]));
                    }
                    r.push((entries[i].0.clone(), entries[i].1.clone()));
                    i += 1;
                }
                assert(entry_views(r@) =~= entry_views(entries@));
                Json::Object(r)
            },
        }
    }
}

impl Json {
    /// The compact text of a value.
    pub fn to_text(&self) -> (r: String)
        requires
            integral(*self),
        ensures
            r@ == json_text(self@),
    {
        let value = value_of_json(self);
        value_text(&value)
    }

    /// The value at a key; nothing for a value that is no object.
    pub fn get(&self, key: &str) -> (r: Option<&Json>)
        ensures
            r.deep_view() == member(self@, key@),
    {
        if let Json::Object(entries) = self {
            let ghost all = entry_views(entries@);
            let mut i: usize = entries.len();
            while i > 0
                invariant
                    *self == Json::Object(*entries),
                    all == entry_views(entries@),
                    i <= entries@.len(),
                    forall|k: int| i <= k < all.len() ==> all[k].0 != key@,
                decreases i,
            {
                i -= 1;
                assert(all[i as int] == (entries@[i as int].0@, json_view(entries@[i as int].1)));
                if same(entries[i].0.as_str(), key) {
                    proof {
                        last_entry_counts(all, i as int);
                    }
                    return Some(&entries[i].1);
                }
            }
            proof {
                absent_key(all, key@);
            }
        }
        None
    }

    /// The text of a value that is a text.
    pub fn as_str(&self) -> (r: Option<&str>)
        ensures
            r.deep_view() == text_in(Some(self@)),
    {
        match self {
            Json::Text(s) => Some(s.as_str()),
            _ => None,
        }
    }

    /// The number of a value that is an integer from 0 up.
    pub fn as_u64(&self) -> (r: Option<u64>)
        ensures
            match r {
                Some(n) => unsigned_in(Some(self@)) == Some(n as nat),
                None => unsigned_in(Some(self@)) is None,
            },
    {
        match self {
            Json::Number(JsonNumber::Unsigned(n)) => Some(*n),
            _ => None,
        }
    }

    /// The number of a value that is an integer of at most 63 bits.
    pub fn as_i64(&self) -> (r: Option<i64>)
        ensures
            match r {
                Some(n) => integer_in(Some(self@)) == Some(n as int),
                None => integer_in(Some(self@)) is None,
            },
    {
        match self {
            Json::Number(JsonNumber::Unsigned(n)) => if *n <= 0x7fff_ffff_ffff_ffff {
                Some(*n as i64)
            } else {
                None
            },
            Json::Number(JsonNumber::Negative(n)) => Some(*n),
            _ => None,
        }
    }

    /// The truth value of a value that is one.
    pub fn as_bool(&self) -> (r: Option<bool>)
        ensures
            r == bool_in(Some(self@)),
    {
        match self {
            Json::Bool(b) => Some(*b),
            _ => None,
        }
    }

    /// The items of a value that is an array.
    pub fn as_array(&self) -> (r: Option<&Vec<Json>>)
        ensures
            match r {
                Some(items) => self@ == JsonView::Array(json_views(items@)),
                None => !(self@ is Array),
            },
    {
        match self {
            Json::Array(items) => Some(items),
            _ => None,
        }
    }
}

/// The value at a key is the one that was put there last, and a key at which nothing was put has
/// none.
pub proof fn the_last_value_put_counts(entries: Seq<(Seq<char>, JsonView)>, key: Seq<char>, i: int)
    ensures
        0 <= i < entries.len() && entries[i].0 == key && (forall|k: int|
            i < k < entries.len() ==> (#[trigger] entries[k]).0 != key) ==> member(
            JsonView::Object(object_of(entries)),
            key,
        ) == Some(entries[i].1),
        (forall|k: int| 0 <= k < entries.len() ==> (#[trigger] entries[k]).0 != key) ==> member(
            JsonView::Object(object_of(entries)),
            key,
        ) is None,
{
    if 0 <= i < entries.len() && entries[i].0 == key && (forall|k: int|
        i < k < entries.len() ==> (#[trigger] entries[k]).0 != key) {
        last_entry_counts(entries, i);
    }
    if forall|k: int| 0 <= k < entries.len() ==> (#[trigger] entries[k]).0 != key {
        absent_key(entries, key);
    }
}

} // verus!
