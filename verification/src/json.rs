//! JSON documents, and their text through `serde_json`.

use vstd::prelude::*;

verus! {

/// A JSON document.
#[derive(Debug, PartialEq, Eq)]
pub enum Json {
    Null,
    Bool(bool),
    Number(u64),
    Text(String),
    List(Vec<Json>),
    /// Fields in the order in which they were given; no key occurs twice.
    Object(Vec<(String, Json)>),
}

/// What a JSON document holds.
pub enum JsonModel {
    Null,
    Bool(bool),
    Number(int),
    Text(Seq<char>),
    List(Seq<JsonModel>),
    Object(Seq<(Seq<char>, JsonModel)>),
}

impl Json {
    /// What the document holds.
    pub open spec fn model(self) -> JsonModel
        decreases self,
    {
        match self {
            Json::Null => JsonModel::Null,
            Json::Bool(b) => JsonModel::Bool(b),
            Json::Number(n) => JsonModel::Number(n as int),
            Json::Text(s) => JsonModel::Text(s@),
            Json::List(items) => JsonModel::List(
                Seq::new(
                    items@.len(),
                    |i: int|
                        if 0 <= i < items@.len() {
                            items@[i].model()
                        } else {
                            JsonModel::Null
                        },
                ),
            ),
            Json::Object(fields) => JsonModel::Object(
                Seq::new(
                    fields@.len(),
                    |i: int|
                        if 0 <= i < fields@.len() {
                            (fields@[i].0@, fields@[i].1.model())
                        } else {
                            (Seq::empty(), JsonModel::Null)
                        },
                ),
            ),
        }
    }
}

/// What a list of documents holds.
pub open spec fn models(items: Seq<Json>) -> Seq<JsonModel> {
    items.map_values(|j: Json| j.model())
}

/// What a list of fields holds.
pub open spec fn field_models(fields: Seq<(String, Json)>) -> Seq<(Seq<char>, JsonModel)> {
    fields.map_values(|f: (String, Json)| (f.0@, f.1.model()))
}

/// A text.
pub fn text_of(s: &str) -> (r: Json)
    ensures
        r.model() == JsonModel::Text(s@),
{
    Json::Text(s.to_owned())
}

/// A text, or null.
pub open spec fn text_or_null(s: Option<Seq<char>>) -> JsonModel {
    match s {
        Some(s) => JsonModel::Text(s),
        None => JsonModel::Null,
    }
}

/// A number, or null.
pub open spec fn number_or_null(n: Option<u64>) -> JsonModel {
    match n {
        Some(n) => JsonModel::Number(n as int),
        None => JsonModel::Null,
    }
}

/// A number, or null.
pub fn number_or_null_of(n: Option<u64>) -> (r: Json)
    ensures
        r.model() == number_or_null(n),
{
    match n {
        Some(n) => Json::Number(n),
        None => Json::Null,
    }
}

/// A list.
pub fn list_of(items: Vec<Json>) -> (r: Json)
    ensures
        r.model() == JsonModel::List(models(items@)),
{
    let r = Json::List(items);
    assert(r.model()->List_0 =~= models(items@));
    r
}

/// An object.
pub fn object_of(fields: Vec<(String, Json)>) -> (r: Json)
    ensures
        r.model() == JsonModel::Object(field_models(fields@)),
{
    let r = Json::Object(fields);
    assert(r.model()->Object_0 =~= field_models(fields@));
    r
}

/// Add a field to an object under construction.
pub fn field(fields: &mut Vec<(String, Json)>, key: &str, value: Json)
    ensures
        field_models(final(fields)@) == field_models(old(fields)@).push((key@, value.model())),
{
    let ghost before = fields@;
    fields.push((key.to_owned(), value));
    assert(field_models(fields@) =~= field_models(before).push((key@, value.model())));
}

/// One more document at the end of a list.
pub proof fn lemma_models_push(items: Seq<Json>, item: Json)
    ensures
        models(items.push(item)) == models(items).push(item.model()),
{
    assert(models(items.push(item)) =~= models(items).push(item.model()));
}

/// The value of a field, where the object has it.
pub open spec fn field_of(doc: JsonModel, key: Seq<char>) -> Option<JsonModel> {
    match doc {
        JsonModel::Object(fields) => value_in(fields, key),
        _ => None,
    }
}

/// The value of the first field with a key.
pub open spec fn value_in(fields: Seq<(Seq<char>, JsonModel)>, key: Seq<char>) -> Option<JsonModel>
    decreases fields.len(),
{
    if fields.len() == 0 {
        None
    } else if fields[0].0 == key {
        Some(fields[0].1)
    } else {
        value_in(fields.drop_first(), key)
    }
}

// ---------------------------------------------------------------------------
// Values
// ---------------------------------------------------------------------------

/// What a value of `serde_json` holds. Its objects have no order of their own.
#[verifier::ext_equal]
pub enum ValueModel {
    Null,
    Bool(bool),
    Number(int),
    Text(Seq<char>),
    List(Seq<ValueModel>),
    Object(Map<Seq<char>, ValueModel>),
}

/// The document type of `serde_json`; opaque here.
#[verifier::external_type_specification]
#[verifier::external_body]
pub struct ExValue(serde_json::Value);

/// The object type of `serde_json`; opaque here.
#[verifier::external_type_specification]
#[verifier::external_body]
#[verifier::reject_recursive_types(K)]
#[verifier::reject_recursive_types(V)]
pub struct ExMap<K, V>(serde_json::Map<K, V>);

/// The error type of `serde_json`; opaque here.
#[verifier::external_type_specification]
#[verifier::external_body]
pub struct ExError(serde_json::Error);

/// What a value of `serde_json` holds.
pub uninterp spec fn value_model(value: serde_json::Value) -> ValueModel;

/// What an object of `serde_json` holds.
pub uninterp spec fn map_model(
    map: serde_json::Map<String, serde_json::Value>,
) -> Map<Seq<char>, ValueModel>;

/// The text that `serde_json::to_string_pretty` writes for a value, where it can.
pub uninterp spec fn pretty_text(value: ValueModel) -> Option<Seq<char>>;

/// What a list of values holds.
pub open spec fn value_models(values: Seq<serde_json::Value>) -> Seq<ValueModel> {
    values.map_values(|v: serde_json::Value| value_model(v))
}

/// `serde_json::Value::Null`: the value null.
#[verifier::external_body]
fn null_value() -> (r: serde_json::Value)
    ensures
        value_model(r) == ValueModel::Null,
{
    serde_json::Value::Null
}

/// `serde_json::Value::Bool`: a truth value.
#[verifier::external_body]
fn bool_value(b: bool) -> (r: serde_json::Value)
    ensures
        value_model(r) == ValueModel::Bool(b),
{
    serde_json::Value::Bool(b)
}

/// `From<u64>` of `serde_json::Value`: the number as it is.
#[verifier::external_body]
fn number_value(n: u64) -> (r: serde_json::Value)
    ensures
        value_model(r) == ValueModel::Number(n as int),
{
    serde_json::Value::from(n)
}

/// `serde_json::Value::String`: a text.
#[verifier::external_body]
fn text_value(s: String) -> (r: serde_json::Value)
    ensures
        value_model(r) == ValueModel::Text(s@),
{
    serde_json::Value::String(s)
}

/// `serde_json::Value::Array`: the values in their order.
#[verifier::external_body]
fn list_value(items: Vec<serde_json::Value>) -> (r: serde_json::Value)
    ensures
        value_model(r) == ValueModel::List(value_models(items@)),
{
    serde_json::Value::Array(items)
}

/// `serde_json::Map::new`: an object without fields.
#[verifier::external_body]
fn empty_map() -> (r: serde_json::Map<String, serde_json::Value>)
    ensures
        (map_model(r) == Map::<Seq<char>, ValueModel>::empty()),
{
    serde_json::Map::new()
}

/// `serde_json::Map::insert`: the key has the value from now on, the other keys
/// keep theirs, and the value that the key had before comes back.
#[verifier::external_body]
fn put(
    map: &mut serde_json::Map<String, serde_json::Value>,
    key: String,
    value: serde_json::Value,
) -> (r: Option<serde_json::Value>)
    ensures
        map_model(*final(map)) == map_model(*old(map)).insert(key@, value_model(value)),
        match r {
            Some(before) => map_model(*old(map)).contains_key(key@) && map_model(*old(map))[key@]
                == value_model(before),
            None => !map_model(*old(map)).contains_key(key@),
        },
{
    map.insert(key, value)
}

/// `serde_json::Value::Object`: the fields of an object.
#[verifier::external_body]
fn object_value(map: serde_json::Map<String, serde_json::Value>) -> (r: serde_json::Value)
    ensures
        value_model(r) == ValueModel::Object(map_model(map)),
{
    serde_json::Value::Object(map)
}

/// The value of a document.
pub open spec fn value_for(doc: JsonModel) -> ValueModel
    decreases doc,
{
    match doc {
        JsonModel::Null => ValueModel::Null,
        JsonModel::Bool(b) => ValueModel::Bool(b),
        JsonModel::Number(n) => ValueModel::Number(n),
        JsonModel::Text(s) => ValueModel::Text(s),
        JsonModel::List(items) => ValueModel::List(
            Seq::new(
                items.len(),
                |i: int|
                    if 0 <= i < items.len() {
                        value_for(items[i])
                    } else {
                        ValueModel::Null
                    },
            ),
        ),
        JsonModel::Object(fields) => ValueModel::Object(by_key(field_values(fields))),
    }
}

/// The values of the fields of a document.
pub open spec fn field_values(fields: Seq<(Seq<char>, JsonModel)>) -> Seq<(Seq<char>, ValueModel)>
    decreases fields,
{
    Seq::new(
        fields.len(),
        |i: int|
            if 0 <= i < fields.len() {
                (fields[i].0, value_for(fields[i].1))
            } else {
                (Seq::empty(), ValueModel::Null)
            },
    )
}

/// Keys with their values; of a key that occurs twice, the last value.
pub open spec fn by_key(fields: Seq<(Seq<char>, ValueModel)>) -> Map<Seq<char>, ValueModel>
    decreases fields.len(),
{
    if fields.len() == 0 {
        Map::empty()
    } else {
        by_key(fields.drop_last()).insert(fields.last().0, fields.last().1)
    }
}

/// The value of a document, node by node.
fn to_value(doc: &Json) -> (r: serde_json::Value)
    ensures
        value_model(r) == value_for(doc.model()),
    decreases doc,
{
    match doc {
        Json::Null => null_value(),
        Json::Bool(b) => bool_value(*b),
        Json::Number(n) => number_value(*n),
        Json::Text(s) => text_value(s.clone()),
        Json::List(items) => {
            let mut out: Vec<serde_json::Value> = Vec::new();
            let mut i: usize = 0;
            while i < items.len()
                invariant
                    i <= items@.len(),
                    *doc == Json::List(*items),
                    out@.len() == i,
                    forall|k: int|
                        0 <= k < i ==> value_model(#[trigger] out@[k]) == value_for(
                            items@[k].model(),
                        ),
                decreases items@.len() - i,
            {
                assert(decreases_to!(*doc => doc->List_0));
                assert(decreases_to!(doc->List_0 => items@));
                assert(decreases_to!(items@ => items@[i as int]));
                out.push(to_value(&items[i]));
                i = i + 1;
            }
            proof {
                assert(value_models(out@) =~= value_for(doc.model())->List_0);
            }
            list_value(out)
        },
        Json::Object(fields) => {
            let ghost values = field_values(field_models(fields@));
            let mut map = empty_map();
            let mut i: usize = 0;
            while i < fields.len()
                invariant
                    i <= fields@.len(),
                    *doc == Json::Object(*fields),
                    values == field_values(field_models(fields@)),
                    map_model(map) == by_key(values.take(i as int)),
                decreases fields@.len() - i,
            {
                assert(decreases_to!(*doc => doc->Object_0));
                assert(decreases_to!(doc->Object_0 => fields@));
                assert(decreases_to!(fields@ => fields@[i as int]));
                assert(decreases_to!(fields@[i as int] => fields@[i as int].1));
                assert(values.take(i + 1).drop_last() =~= values.take(i as int));
                let _ = put(&mut map, fields[i].0.clone(), to_value(&fields[i].1));
                i = i + 1;
            }
            assert(doc.model()->Object_0 =~= field_models(fields@));
            assert(values.take(values.len() as int) =~= values);
            object_value(map)
        },
    }
}

/// Whether a field with some key is among the fields.
pub open spec fn has_key(fields: Seq<(Seq<char>, ValueModel)>, key: Seq<char>) -> bool {
    exists|i: int| 0 <= i < fields.len() && (#[trigger] fields[i]).0 == key
}

/// Whether no key occurs twice.
pub open spec fn distinct_keys(fields: Seq<(Seq<char>, ValueModel)>) -> bool {
    forall|i: int, j: int|
        0 <= i < j < fields.len() ==> (#[trigger] fields[i]).0 != (#[trigger] fields[j]).0
}

/// What `by_key` is where no key occurs twice.
proof fn lemma_by_key(fields: Seq<(Seq<char>, ValueModel)>)
    requires
        distinct_keys(fields),
    ensures
        forall|key: Seq<char>| #[trigger] by_key(fields).contains_key(key) <==> has_key(fields, key),
        forall|i: int|
            0 <= i < fields.len() ==> by_key(fields)[(#[trigger] fields[i]).0] == fields[i].1,
    decreases fields.len(),
{
    if fields.len() > 0 {
        let front = fields.drop_last();
        let last = fields.last();
        assert forall|i: int, j: int| 0 <= i < j < front.len() implies (#[trigger] front[i]).0 != (
        #[trigger] front[j]).0 by {
            assert(front[i] == fields[i] && front[j] == fields[j]);
        }
        lemma_by_key(front);
        assert(last == fields[fields.len() - 1]);
        assert forall|key: Seq<char>| #[trigger] by_key(fields).contains_key(key) <==> has_key(
            fields,
            key,
        ) by {
            assert(by_key(front).contains_key(key) <==> has_key(front, key));
            if has_key(front, key) {
                let i = choose|i: int| 0 <= i < front.len() && (#[trigger] front[i]).0 == key;
                assert(fields[i].0 == key);
            }
            if has_key(fields, key) && key != last.0 {
                let i = choose|i: int| 0 <= i < fields.len() && (#[trigger] fields[i]).0 == key;
                assert(front[i].0 == key);
            }
        }
        assert forall|i: int| 0 <= i < fields.len() implies by_key(fields)[(
        #[trigger] fields[i]).0] == fields[i].1 by {
            if i < front.len() {
                assert(front[i] == fields[i]);
                assert(fields[i].0 != fields[fields.len() - 1].0);
            }
        }
    }
}

/// The order in which the fields of an object were given does not show: two lists
/// of the same fields, no key twice, have one value and so one text.
pub proof fn law_field_order_does_not_show(
    a: Seq<(Seq<char>, JsonModel)>,
    b: Seq<(Seq<char>, JsonModel)>,
)
    requires
        distinct_keys(field_values(a)),
        distinct_keys(field_values(b)),
        forall|f: (Seq<char>, JsonModel)| a.contains(f) <==> b.contains(f),
    ensures
        value_for(JsonModel::Object(a)) == value_for(JsonModel::Object(b)),
{
    let u = field_values(a);
    let v = field_values(b);
    lemma_by_key(u);
    lemma_by_key(v);
    assert forall|key: Seq<char>| #[trigger] by_key(u).contains_key(key) implies by_key(
        v,
    ).contains_key(key) && by_key(u)[key] == by_key(v)[key] by {
        let i = choose|i: int| 0 <= i < u.len() && (#[trigger] u[i]).0 == key;
        assert(a.contains(a[i]));
        assert(b.contains(a[i]));
        let j = choose|j: int| 0 <= j < b.len() && b[j] == a[i];
        assert(v[j] == u[i]);
    }
    assert forall|key: Seq<char>| #[trigger] by_key(v).contains_key(key) implies by_key(
        u,
    ).contains_key(key) by {
        let j = choose|j: int| 0 <= j < v.len() && (#[trigger] v[j]).0 == key;
        assert(b.contains(b[j]));
        assert(a.contains(b[j]));
        let i = choose|i: int| 0 <= i < a.len() && a[i] == b[j];
        assert(u[i].0 == key);
    }
    assert(by_key(u) =~= by_key(v));
}

// ---------------------------------------------------------------------------
// Text
// ---------------------------------------------------------------------------

/// A document could not be written down.
#[derive(Debug, Clone, Copy, PartialEq, Eq, Structural)]
pub struct RenderError;

/// `serde_json::to_string_pretty`: the text of a value, with two spaces of
/// indentation and the keys in the order of the map. What it writes, or that it
/// fails, depends on the value alone.
#[verifier::external_body]
fn pretty(value: &serde_json::Value) -> (r: Result<String, serde_json::Error>)
    ensures
        match r {
            Ok(s) => pretty_text(value_model(*value)) == Some(s@),
            Err(_) => pretty_text(value_model(*value)) is None,
        },
{
    serde_json::to_string_pretty(value)
}

/// What a rendering gives: the text, or an error where there is none.
pub fn rendered(text: Result<String, serde_json::Error>) -> (r: Result<String, RenderError>)
    ensures
        match r {
            Ok(s) => text matches Ok(t) && s@ == t@,
            Err(_) => text is Err,
        },
{
    match text {
        Ok(s) => Ok(s),
        Err(_) => Err(RenderError),
    }
}

/// Pretty-print a document; keys come in a stable order.
pub fn to_pretty(document: &Json) -> (r: Result<String, RenderError>)
    ensures
        match r {
            Ok(s) => pretty_text(value_for(document.model())) == Some(s@),
            Err(_) => pretty_text(value_for(document.model())) is None,
        },
{
    let value = to_value(document);
    rendered(pretty(&value))
}

} // verus!
