//! JSON values as the rest of the library reads them.
//!
//! Transcript lines are parsed, and replies are printed, by `serde_json`. In between, the library
//! works on [`Json`], a tree of plain values whose model is [`JsonView`].

use vstd::prelude::*;

use crate::text::{opt_str, opt_text, str_eq};
use serde_json::{Number, Value};

verus! {

/// `serde_json::Value`, carried between the calls below.
#[verifier::external_type_specification]
#[verifier::external_body]
pub struct ExValue(serde_json::Value);

/// `serde_json::Number`, the leaf of a JSON tree that holds a number.
#[verifier::external_type_specification]
#[verifier::external_body]
pub struct ExNumber(serde_json::Number);

/// `serde_json::Map`, the key/value collection inside a JSON object.
#[verifier::external_type_specification]
#[verifier::external_body]
#[verifier::reject_recursive_types(K)]
#[verifier::reject_recursive_types(V)]
pub struct ExMap<K, V>(serde_json::Map<K, V>);

/// The model of a JSON value.
pub enum JsonView {
    Null,
    Bool(bool),
    Number(Number),
    Str(Seq<char>),
    Array(Seq<JsonView>),
    Object(Map<Seq<char>, JsonView>),
}

/// The integer that a `serde_json::Number` is, if it is one.
pub uninterp spec fn number_int(n: Number) -> Option<int>;

/// `serde_json::Number::as_i64` gives the integer where the number is one in the range of `i64`,
/// and nothing otherwise.
pub assume_specification[ serde_json::Number::as_i64 ](n: &serde_json::Number) -> (r: Option<i64>)
    ensures
        r == as_i64_of(number_int(*n)),
;

/// The integer, where it is in the range of `i64`.
pub open spec fn as_i64_of(i: Option<int>) -> Option<i64> {
    match i {
        Some(i) => if i64::MIN <= i <= i64::MAX {
            Some(i as i64)
        } else {
            None
        },
        None => None,
    }
}

impl JsonView {
    /// The value at a key of an object; nothing where there is none or this is not an object.
    pub open spec fn get(self, key: Seq<char>) -> Option<JsonView> {
        match self {
            JsonView::Object(m) => if m.contains_key(key) {
                Some(m[key])
            } else {
                None
            },
            _ => None,
        }
    }

    /// The text, where this is a string.
    pub open spec fn as_str(self) -> Option<Seq<char>> {
        match self {
            JsonView::Str(s) => Some(s),
            _ => None,
        }
    }

    /// The flag, where this is a boolean.
    pub open spec fn as_bool(self) -> Option<bool> {
        match self {
            JsonView::Bool(b) => Some(b),
            _ => None,
        }
    }

    /// The integer, where this is an integer in the range of `i64`.
    pub open spec fn as_i64(self) -> Option<i64> {
        match self {
            JsonView::Number(n) => as_i64_of(number_int(n)),
            _ => None,
        }
    }

    /// The text at a key.
    pub open spec fn str_at(self, key: Seq<char>) -> Option<Seq<char>> {
        match self.get(key) {
            Some(v) => v.as_str(),
            None => None,
        }
    }

    /// The flag at a key.
    pub open spec fn bool_at(self, key: Seq<char>) -> Option<bool> {
        match self.get(key) {
            Some(v) => v.as_bool(),
            None => None,
        }
    }

    /// The integer at a key.
    pub open spec fn i64_at(self, key: Seq<char>) -> Option<i64> {
        match self.get(key) {
            Some(v) => v.as_i64(),
            None => None,
        }
    }
}

/// The model of an optional value.
pub open spec fn opt_json(o: Option<&Json>) -> Option<JsonView> {
    match o {
        Some(j) => Some(j@),
        None => None,
    }
}

/// A JSON value. In an object the last entry with a given key is the one that counts.
pub enum Json {
    Null,
    Bool(bool),
    Number(Number),
    Str(String),
    Array(Vec<Json>),
    Object(Vec<(String, Json)>),
}

impl Json {
    /// The model of this value.
    pub open spec fn model(self) -> JsonView
        decreases self,
    {
        match self {
            Json::Null => JsonView::Null,
            Json::Bool(b) => JsonView::Bool(b),
            Json::Number(n) => JsonView::Number(n),
            Json::Str(s) => JsonView::Str(s@),
            Json::Array(items) => JsonView::Array(array_model(items@)),
            Json::Object(entries) => JsonView::Object(object_model(entries@)),
        }
    }
}

/// The models of the elements of an array.
pub open spec fn array_model(items: Seq<Json>) -> Seq<JsonView>
    decreases items,
{
    if items.len() == 0 {
        Seq::empty()
    } else {
        array_model(items.drop_last()).push(items.last().model())
    }
}

/// The entries of an object by key; a later entry replaces an earlier one.
pub open spec fn object_model(entries: Seq<(String, Json)>) -> Map<Seq<char>, JsonView>
    decreases entries,
{
    if entries.len() == 0 {
        Map::empty()
    } else {
        object_model(entries.drop_last()).insert(entries.last().0@, entries.last().1.model())
    }
}

impl View for Json {
    type V = JsonView;

    open spec fn view(&self) -> JsonView {
        self.model()
    }
}

/// What a `serde_json::Value` holds.
pub uninterp spec fn value_view(v: Value) -> JsonView;

/// What a `serde_json::Map` holds.
pub uninterp spec fn map_view(m: serde_json::Map<String, Value>) -> Map<Seq<char>, JsonView>;

/// The variants of `serde_json::Value`, with their fields.
pub enum Parts {
    Null,
    Bool(bool),
    Number(Number),
    Str(String),
    Array(Vec<Value>),
    Object(serde_json::Map<String, Value>),
}

impl View for Parts {
    type V = JsonView;

    open spec fn view(&self) -> JsonView {
        match self {
            Parts::Null => JsonView::Null,
            Parts::Bool(b) => JsonView::Bool(*b),
            Parts::Number(n) => JsonView::Number(*n),
            Parts::Str(s) => JsonView::Str(s@),
            Parts::Array(items) => JsonView::Array(values_view(items@)),
            Parts::Object(m) => JsonView::Object(map_view(*m)),
        }
    }
}

/// What each of a sequence of values holds.
pub open spec fn values_view(items: Seq<Value>) -> Seq<JsonView> {
    items.map_values(|v: Value| value_view(v))
}

/// Takes a `serde_json::Value` apart by its variant.
///
/// Claimed of `serde_json::Value`: a value holds exactly the fields of its variant.
#[verifier::external_body]
fn into_parts(v: Value) -> (p: Parts)
    ensures
        p@ == value_view(v),
{
    match v {
        Value::Null => Parts::Null,
        Value::Bool(b) => Parts::Bool(b),
        Value::Number(n) => Parts::Number(n),
        Value::String(s) => Parts::Str(s),
        Value::Array(items) => Parts::Array(items),
        Value::Object(m) => Parts::Object(m),
    }
}

/// Puts a `serde_json::Value` together from the fields of a variant.
///
/// Claimed of `serde_json::Value`: the value built holds exactly those fields.
#[verifier::external_body]
fn from_parts(p: Parts) -> (v: Value)
    ensures
        value_view(v) == p@,
{
    match p {
        Parts::Null => Value::Null,
        Parts::Bool(b) => Value::Bool(b),
        Parts::Number(n) => Value::Number(n),
        Parts::Str(s) => Value::String(s),
        Parts::Array(items) => Value::Array(items),
        Parts::Object(m) => Value::Object(m),
    }
}

/// Calls `serde_json::Map::new`, which makes a map without entries.
#[verifier::external_body]
fn map_new() -> (m: serde_json::Map<String, Value>)
    ensures
        map_view(m) == (Map::<Seq<char>, JsonView>::empty()),
{
    serde_json::Map::new()
}

/// Calls `serde_json::Map::insert`, which adds an entry or replaces the one with the same key.
#[verifier::external_body]
fn map_insert(m: &mut serde_json::Map<String, Value>, key: String, v: Value)
    ensures
        map_view(*final(m)) == map_view(*old(m)).insert(key@, value_view(v)),
{
    m.insert(key, v);
}

/// Calls `serde_json::Number::clone`, which makes an equal number.
#[verifier::external_body]
fn number_clone(n: &Number) -> (r: Number)
    ensures
        r == *n,
{
    n.clone()
}

/// The entries are those of the map: every key of it once, with its value.
pub open spec fn lists(entries: Seq<(String, Value)>, m: Map<Seq<char>, JsonView>) -> bool {
    &&& forall|i: int, j: int|
        0 <= i < j < entries.len() ==> (#[trigger] entries[i]).0@ != (#[trigger] entries[j]).0@
    &&& forall|i: int|
        0 <= i < entries.len() ==> m.contains_key((#[trigger] entries[i]).0@)
            && m[entries[i].0@] == value_view(entries[i].1)
    &&& forall|k: Seq<char>| #[trigger]
        m.contains_key(k) ==> exists|i: int|
            0 <= i < entries.len() && (#[trigger] entries[i]).0@ == k
}

/// Calls `serde_json::Map::into_iter`, which hands out every entry once.
///
/// Claimed of it: the keys handed out are those of the map, none of them twice, each with the
/// value that the map has for it. Nothing is claimed of their order.
#[verifier::external_body]
fn map_entries(m: serde_json::Map<String, Value>) -> (entries: Vec<(String, Value)>)
    ensures
        lists(entries@, map_view(m)),
{
    m.into_iter().collect()
}

/// A map that a list of entries lists is finite.
proof fn lemma_lists_finite(entries: Seq<(String, Value)>, m: Map<Seq<char>, JsonView>)
    requires
        lists(entries, m),
    ensures
        m.dom().finite(),
{
    let keys = entries.map_values(|e: (String, Value)| e.0@);
    vstd::seq_lib::seq_to_set_is_finite(keys);
    assert forall|k: Seq<char>| #[trigger] m.dom().contains(k) implies keys.to_set().contains(
        k,
    ) by {
        assert(m.contains_key(k));
        let i = choose|i: int| 0 <= i < entries.len() && (#[trigger] entries[i]).0@ == k;
        assert(keys[i] == k);
    }
    vstd::set_lib::lemma_set_subset_finite(keys.to_set(), m.dom());
}

/// Element `i` of the model of an array is the model of element `i`.
pub broadcast proof fn lemma_array_model(items: Seq<Json>)
    ensures
        #![trigger array_model(items)]
        array_model(items).len() == items.len(),
        forall|i: int| 0 <= i < items.len() ==> array_model(items)[i] == (#[trigger] items[i])@,
    decreases items.len(),
{
    if items.len() > 0 {
        lemma_array_model(items.drop_last());
        assert forall|i: int| 0 <= i < items.len() implies array_model(items)[i]
            == (#[trigger] items[i])@ by {
            if i < items.len() - 1 {
                assert(items.drop_last()[i] == items[i]);
            }
        }
    }
}

/// The model of an array is known from those of its elements.
pub proof fn lemma_array_is(items: Seq<Json>, expected: Seq<JsonView>)
    requires
        items.len() == expected.len(),
        forall|i: int| 0 <= i < items.len() ==> (#[trigger] items[i])@ == expected[i],
    ensures
        array_model(items) == expected,
{
    lemma_array_model(items);
    assert forall|i: int| 0 <= i < items.len() implies array_model(items)[i] == expected[i] by {
        assert(items[i]@ == expected[i]);
    }
    assert(array_model(items) =~= expected);
}

/// The entry at the end of a list is not among the ones before it.
proof fn lemma_object_model_lookup(entries: Seq<(String, Json)>, i: int)
    requires
        0 <= i < entries.len(),
        forall|j: int| i < j < entries.len() ==> (#[trigger] entries[j]).0@ != entries[i].0@,
    ensures
        object_model(entries).contains_key(entries[i].0@),
        object_model(entries)[entries[i].0@] == entries[i].1@,
    decreases entries.len(),
{
    if i < entries.len() - 1 {
        let front = entries.drop_last();
        assert(front[i] == entries[i]);
        assert forall|j: int| i < j < front.len() implies (#[trigger] front[j]).0@
            != front[i].0@ by {
            assert(front[j] == entries[j]);
        }
        lemma_object_model_lookup(front, i);
        assert(entries[entries.len() - 1].0@ != entries[i].0@);
    }
}

/// A key of the model of an object is the key of one of its entries.
proof fn lemma_object_model_keys(entries: Seq<(String, Json)>, k: Seq<char>)
    requires
        object_model(entries).contains_key(k),
    ensures
        exists|i: int| 0 <= i < entries.len() && (#[trigger] entries[i]).0@ == k,
    decreases entries.len(),
{
    if entries.len() > 0 {
        let last = entries.len() - 1;
        if entries[last].0@ != k {
            let front = entries.drop_last();
            lemma_object_model_keys(front, k);
            let i = choose|i: int| 0 <= i < front.len() && (#[trigger] front[i]).0@ == k;
            assert(entries[i].0@ == k);
        }
    }
}

impl Json {
    /// The tree that a `serde_json::Value` holds.
    pub fn from_value(v: Value) -> (j: Json)
        ensures
            j@ == value_view(v),
        decreases value_view(v),
    {
        let ghost whole = value_view(v);
        match into_parts(v) {
            Parts::Null => Json::Null,
            Parts::Bool(b) => Json::Bool(b),
            Parts::Number(n) => Json::Number(n),
            Parts::Str(s) => Json::Str(s),
            Parts::Array(values) => {
                let mut items: Vec<Json> = Vec::new();
                let ghost all = values@;
                for value in it: values
                    invariant
                        whole == value_view(v),
                        whole == JsonView::Array(values_view(all)),
                        it.seq() == all,
                        items@.len() == it.index(),
                        forall|k: int|
                            0 <= k < items@.len() ==> (#[trigger] items@[k])@ == value_view(all[k]),
                {
                    proof {
                        let held = whole->Array_0;
                        assert(held[it.index()] == value_view(value));
                        assert(decreases_to!(whole => whole->Array_0));
                        assert(decreases_to!(held => held[it.index()]));
                    }
                    items.push(Json::from_value(value));
                }
                proof {
                    lemma_array_model(items@);
                    assert(items@.len() == all.len());
                    assert forall|i: int| 0 <= i < all.len() implies #[trigger] array_model(items@)[i]
                        == values_view(all)[i] by {
                        assert(items@[i]@ == value_view(all[i]));
                    }
                    assert(array_model(items@) =~= values_view(all));
                }
                Json::Array(items)
            },
            Parts::Object(m) => {
                let ghost held = map_view(m);
                let values = map_entries(m);
                let mut entries: Vec<(String, Json)> = Vec::new();
                let ghost all = values@;
                for (key, value) in it: values
                    invariant
                        whole == value_view(v),
                        whole == JsonView::Object(held),
                        lists(all, held),
                        it.seq() == all,
                        entries@.len() == it.index(),
                        forall|k: int|
                            0 <= k < entries@.len() ==> (#[trigger] entries@[k]).0@ == all[k].0@
                                && entries@[k].1@ == value_view(all[k].1),
                {
                    assert(all[it.index()] == (key, value));
                    assert(held[key@] == value_view(value));
                    assert(held.dom().finite()) by {
                        lemma_lists_finite(all, held);
                    }
                    assert(decreases_to!(whole => whole->Object_0));
                    assert(decreases_to!(held => held[key@]));
                    entries.push((key, Json::from_value(value)));
                }
                proof {
                    assert forall|k: Seq<char>| held.contains_key(k) implies #[trigger] object_model(
                        entries@,
                    ).contains_key(k) && object_model(entries@)[k] == held[k] by {
                        let i = choose|i: int| 0 <= i < all.len() && (#[trigger] all[i]).0@ == k;
                        assert(entries@[i].0@ == k);
                        lemma_object_model_lookup(entries@, i);
                    }
                    assert forall|k: Seq<char>| #[trigger]
                        object_model(entries@).contains_key(k) implies held.contains_key(k) by {
                        lemma_object_model_keys(entries@, k);
                        let i = choose|i: int|
                            0 <= i < entries@.len() && (#[trigger] entries@[i]).0@ == k;
                        assert(all[i].0@ == k);
                    }
                    assert(object_model(entries@) =~= held);
                }
                Json::Object(entries)
            },
        }
    }

    /// A `serde_json::Value` that holds this tree.
    pub fn to_value(&self) -> (v: Value)
        ensures
            value_view(v) == self@,
        decreases self,
    {
        match self {
            Json::Null => from_parts(Parts::Null),
            Json::Bool(b) => from_parts(Parts::Bool(*b)),
            Json::Number(n) => from_parts(Parts::Number(number_clone(n))),
            Json::Str(s) => from_parts(Parts::Str(s.clone())),
            Json::Array(items) => {
                let mut values: Vec<Value> = Vec::new();
                for k in 0..items.len()
                    invariant
                        *self == Json::Array(*items),
                        values@.len() == k,
                        forall|j: int|
                            0 <= j < k ==> value_view(#[trigger] values@[j]) == items@[j]@,
                {
                    assert(decreases_to!(*self => self->Array_0));
                    assert(decreases_to!(*items => items@));
                    assert(decreases_to!(items@ => items@[k as int]));
                    values.push(items[k].to_value());
                }
                proof {
                    lemma_array_model(items@);
                    assert(values_view(values@) =~= array_model(items@));
                }
                from_parts(Parts::Array(values))
            },
            Json::Object(entries) => {
                let mut m = map_new();
                for k in 0..entries.len()
                    invariant
                        *self == Json::Object(*entries),
                        map_view(m) == object_model(entries@.take(k as int)),
                {
                    assert(decreases_to!(*self => self->Object_0));
                    assert(decreases_to!(*entries => entries@));
                    assert(decreases_to!(entries@ => entries@[k as int]));
                    assert(decreases_to!(entries@[k as int] => entries@[k as int].1));
                    assert(entries@.take(k + 1).drop_last() =~= entries@.take(k as int));
                    map_insert(&mut m, entries[k].0.clone(), entries[k].1.to_value());
                }
                assert(entries@.take(entries@.len() as int) =~= entries@);
                from_parts(Parts::Object(m))
            },
        }
    }
}

/// What `serde_json::from_str` reads out of a text, where it is the text of a JSON value.
pub uninterp spec fn json_parse(text: Seq<char>) -> Option<JsonView>;

/// What `serde_json::to_string` prints for a value.
pub uninterp spec fn json_text(v: JsonView) -> Seq<char>;

/// What `serde_json::Value` displays itself as.
pub uninterp spec fn json_display(v: JsonView) -> Seq<char>;

/// What an optional value holds.
pub open spec fn opt_value(o: Option<Value>) -> Option<JsonView> {
    match o {
        Some(v) => Some(value_view(v)),
        None => None,
    }
}

/// Calls `serde_json::from_str` for a `Value`. Its result is named [`json_parse`]; which texts it
/// takes, and what it reads out of them, is not said.
#[verifier::external_body]
fn from_str(text: &str) -> (r: Option<Value>)
    ensures
        opt_value(r) == json_parse(text@),
{
    serde_json::from_str(text).ok()
}

/// Calls `serde_json::to_string` on a `Value`, which never fails: the keys of its objects are
/// strings, a number that is not finite is printed as null, and the text is written to memory. The
/// text is named [`json_text`]; it is not spelled out, nor is it said which texts are read back as
/// the same value.
#[verifier::external_body]
fn to_string(v: &Value) -> (r: Option<String>)
    ensures
        opt_text(r) == Some(json_text(value_view(*v))),
{
    serde_json::to_string(v).ok()
}

/// Calls `serde_json::Value::to_string`. Its result is named [`json_display`]; the text is not
/// spelled out.
#[verifier::external_body]
fn display(v: &Value) -> (r: String)
    ensures
        r@ == json_display(value_view(*v)),
{
    v.to_string()
}

/// What `serde_json::Number::from` makes of an `i64`.
pub uninterp spec fn number_of(i: i64) -> Number;

/// Calls `serde_json::Number::from` on an `i64`, which makes that integer a number. The number is
/// named [`number_of`].
#[verifier::external_body]
fn number_from(i: i64) -> (n: Number)
    ensures
        n == number_of(i),
        number_int(n) == Some(i as int),
{
    Number::from(i)
}

/// The value that the text of a line holds.
pub fn parse(text: &str) -> (r: Option<Json>)
    ensures
        match r {
            Some(j) => json_parse(text@) == Some(j@),
            None => json_parse(text@) is None,
        },
{
    match from_str(text) {
        Some(v) => Some(Json::from_value(v)),
        None => None,
    }
}

/// The compact text of a value. There always is one.
pub fn try_text(v: &Json) -> (r: Option<String>)
    ensures
        opt_text(r) == Some(json_text(v@)),
{
    to_string(&v.to_value())
}

/// The compact text of a value.
pub fn compact_json(v: &Json) -> (r: String)
    ensures
        r@ == json_text(v@),
{
    match try_text(v) {
        Some(s) => s,
        None => String::new(),
    }
}

/// A value as it displays itself.
pub fn display_json(v: &Json) -> (r: String)
    ensures
        r@ == json_display(v@),
{
    display(&v.to_value())
}

impl Json {
    /// An integer.
    pub fn from_i64(i: i64) -> (j: Json)
        ensures
            j@ == int_json(i),
            j@.as_i64() == Some(i),
    {
        Json::Number(number_from(i))
    }

    /// A text, or null.
    pub fn from_opt(o: &Option<String>) -> (j: Json)
        ensures
            j@ == text_json(opt_text(*o)),
    {
        match o {
            Some(s) => Json::Str(s.clone()),
            None => Json::Null,
        }
    }

    /// A flag, or null.
    pub fn from_flag(o: Option<bool>) -> (j: Json)
        ensures
            j@ == flag_json(o),
    {
        match o {
            Some(b) => Json::Bool(b),
            None => Json::Null,
        }
    }

    /// The value at a key of an object; nothing where there is none or this is not an object.
    pub fn get(&self, key: &str) -> (r: Option<&Json>)
        ensures
            opt_json(r) == self@.get(key@),
    {
        match self {
            Json::Object(entries) => {
                let mut i = entries.len();
                assert(entries@.take(i as int) == entries@);
                while i > 0
                    invariant
                        i <= entries@.len(),
                        self@ == JsonView::Object(object_model(entries@)),
                        object_model(entries@).contains_key(key@) == object_model(
                            entries@.take(i as int),
                        ).contains_key(key@),
                        object_model(entries@)[key@] == object_model(entries@.take(i as int))[key@],
                    decreases i,
                {
                    let ghost front = entries@.take(i as int);
                    assert(front.drop_last() == entries@.take(i - 1));
                    assert(front.last() == entries@[i - 1]);
                    i = i - 1;
                    if str_eq(entries[i].0.as_str(), key) {
                        return Some(&entries[i].1);
                    }
                }
                None
            },
            _ => None,
        }
    }

    /// The text, where this is a string.
    pub fn as_str(&self) -> (r: Option<&str>)
        ensures
            opt_str(r) == self@.as_str(),
    {
        match self {
            Json::Str(s) => Some(s.as_str()),
            _ => None,
        }
    }

    /// The flag, where this is a boolean.
    pub fn as_bool(&self) -> (r: Option<bool>)
        ensures
            r == self@.as_bool(),
    {
        match self {
            Json::Bool(b) => Some(*b),
            _ => None,
        }
    }

    /// The integer, where this is an integer in the range of `i64`.
    pub fn as_i64(&self) -> (r: Option<i64>)
        ensures
            r == self@.as_i64(),
    {
        match self {
            Json::Number(n) => n.as_i64(),
            _ => None,
        }
    }
}

/// The text at a key.
pub fn str_field(v: &Json, key: &str) -> (r: Option<String>)
    ensures
        opt_text(r) == v@.str_at(key@),
{
    match v.get(key) {
        Some(x) => match x.as_str() {
            Some(s) => Some(s.to_owned()),
            None => None,
        },
        None => None,
    }
}

/// The flag at a key.
pub fn bool_field(v: &Json, key: &str) -> (r: Option<bool>)
    ensures
        r == v@.bool_at(key@),
{
    match v.get(key) {
        Some(x) => x.as_bool(),
        None => None,
    }
}

/// The integer at a key.
pub fn i64_field(v: &Json, key: &str) -> (r: Option<i64>)
    ensures
        r == v@.i64_at(key@),
{
    match v.get(key) {
        Some(x) => x.as_i64(),
        None => None,
    }
}

/// An integer as JSON.
pub open spec fn int_json(i: i64) -> JsonView {
    JsonView::Number(number_of(i))
}

/// A text as JSON, or null.
pub open spec fn text_json(o: Option<Seq<char>>) -> JsonView {
    match o {
        Some(s) => JsonView::Str(s),
        None => JsonView::Null,
    }
}

/// A flag as JSON, or null.
pub open spec fn flag_json(o: Option<bool>) -> JsonView {
    match o {
        Some(b) => JsonView::Bool(b),
        None => JsonView::Null,
    }
}

/// An object without entries.
pub open spec fn no_fields() -> Map<Seq<char>, JsonView> {
    Map::empty()
}

/// An object that is being put together.
pub struct Fields {
    entries: Vec<(String, Json)>,
}

impl View for Fields {
    type V = Map<Seq<char>, JsonView>;

    closed spec fn view(&self) -> Map<Seq<char>, JsonView> {
        object_model(self.entries@)
    }
}

impl Fields {
    /// No entries yet.
    pub fn new() -> (r: Fields)
        ensures
            r@ == no_fields(),
    {
        Fields { entries: Vec::new() }
    }

    /// One more entry, in place of any with the same key.
    pub fn with(self, key: &str, v: Json) -> (r: Fields)
        ensures
            r@ == self@.insert(key@, v@),
    {
        let mut entries = self.entries;
        let ghost before = entries@;
        entries.push((key.to_owned(), v));
        assert(entries@.drop_last() == before);
        Fields { entries }
    }

    /// The object with these entries.
    pub fn object(self) -> (j: Json)
        ensures
            j@ == JsonView::Object(self@),
    {
        Json::Object(self.entries)
    }
}

/// An object gives back at a key what was put there last, and leaves the other keys alone.
pub proof fn law_objects_give_back(m: Map<Seq<char>, JsonView>, k: Seq<char>, v: JsonView, other: Seq<char>)
    ensures
        JsonView::Object(m.insert(k, v)).get(k) == Some(v),
        other != k ==> JsonView::Object(m.insert(k, v)).get(other) == JsonView::Object(m).get(
            other,
        ),
        JsonView::Object(no_fields()).get(k) is None,
        JsonView::Array(Seq::empty()).get(k) is None,
{
}

/// A text, a flag or an integer at a key is read as what it is, and as nothing else.
pub proof fn law_fields_are_read(m: Map<Seq<char>, JsonView>, k: Seq<char>, s: Seq<char>, b: bool)
    ensures
        JsonView::Object(m.insert(k, JsonView::Str(s))).str_at(k) == Some(s),
        JsonView::Object(m.insert(k, JsonView::Str(s))).bool_at(k) is None,
        JsonView::Object(m.insert(k, JsonView::Str(s))).i64_at(k) is None,
        JsonView::Object(m.insert(k, JsonView::Bool(b))).bool_at(k) == Some(b),
        JsonView::Object(m.insert(k, JsonView::Bool(b))).str_at(k) is None,
        JsonView::Object(m.insert(k, JsonView::Null)).str_at(k) is None,
        !m.contains_key(k) ==> JsonView::Object(m).str_at(k) is None && JsonView::Object(m).bool_at(
            k,
        ) is None && JsonView::Object(m).i64_at(k) is None,
{
}

/// An integer at a key is read where it is in range.
pub proof fn law_integers_are_read(m: Map<Seq<char>, JsonView>, k: Seq<char>, n: Number, i: int)
    requires
        number_int(n) == Some(i),
    ensures
        i64::MIN <= i <= i64::MAX ==> JsonView::Object(m.insert(k, JsonView::Number(n))).i64_at(k)
            == Some(i as i64),
        !(i64::MIN <= i <= i64::MAX) ==> JsonView::Object(
            m.insert(k, JsonView::Number(n)),
        ).i64_at(k) is None,
{
}

/// Arrays and objects grow by their last element.
pub proof fn law_trees_grow(items: Seq<Json>, item: Json, entries: Seq<(String, Json)>, key: String)
    ensures
        array_model(items.push(item)) == array_model(items).push(item@),
        object_model(entries.push((key, item))) == object_model(entries).insert(key@, item@),
        array_model(Seq::empty()).len() == 0,
        object_model(Seq::empty()) == no_fields(),
{
    assert(items.push(item).drop_last() =~= items);
    assert(entries.push((key, item)).drop_last() =~= entries);
}

} // verus!
