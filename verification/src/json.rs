//! JSON documents as plain values.

use crate::text::same_text;
use vstd::prelude::*;
use vstd::string::*;

verus! {

broadcast use vstd::string::group_string_axioms;

/// A JSON value. A number is kept as it is written.
#[derive(Debug)]
pub enum Json {
    Null,
    Bool(bool),
    Number(String),
    Text(String),
    List(Vec<Json>),
    Object(Vec<(String, Json)>),
}

/// The mathematical value of a `Json`.
pub enum JsonModel {
    Null,
    Bool(bool),
    Number(Seq<char>),
    Text(Seq<char>),
    List(Seq<JsonModel>),
    Object(Seq<(Seq<char>, JsonModel)>),
}

pub open spec fn json_model(j: Json) -> JsonModel
    decreases j,
{
    match j {
        Json::Null => JsonModel::Null,
        Json::Bool(b) => JsonModel::Bool(b),
        Json::Number(n) => JsonModel::Number(n@),
        Json::Text(t) => JsonModel::Text(t@),
        Json::List(items) => JsonModel::List(
            Seq::new(
                items@.len(),
                |i: int|
                    if 0 <= i < items@.len() {
                        json_model(items@[i])
                    } else {
                        JsonModel::Null
                    },
            ),
        ),
        Json::Object(fields) => JsonModel::Object(
            Seq::new(
                fields@.len(),
                |i: int|
                    if 0 <= i < fields@.len() {
                        (fields@[i].0@, json_model(fields@[i].1))
                    } else {
                        (Seq::<char>::empty(), JsonModel::Null)
                    },
            ),
        ),
    }
}

impl View for Json {
    type V = JsonModel;

    open spec fn view(&self) -> JsonModel {
        json_model(*self)
    }
}

pub open spec fn field_models(fields: Seq<(String, Json)>) -> Seq<(Seq<char>, JsonModel)> {
    fields.map_values(|f: (String, Json)| (f.0@, f.1@))
}

pub open spec fn item_models(items: Seq<Json>) -> Seq<JsonModel> {
    items.map_values(|j: Json| j@)
}

/// An object with one field.
pub open spec fn single(name: Seq<char>, value: JsonModel) -> JsonModel {
    JsonModel::Object(seq![(name, value)])
}

/// Appends a field to those of an object.
pub fn add_field(fields: &mut Vec<(String, Json)>, name: &str, value: Json)
    ensures
        field_models(final(fields)@) == field_models(old(fields)@).push((name@, value@)),
{
    let ghost before = fields@;
    let ghost model = value@;
    fields.push((name.to_owned(), value));
    assert(field_models(fields@) =~= field_models(before).push((name@, model)));
}

/// Appends an item to those of a list.
pub fn add_item(items: &mut Vec<Json>, value: Json)
    ensures
        item_models(final(items)@) == item_models(old(items)@).push(value@),
{
    let ghost before = items@;
    let ghost model = value@;
    items.push(value);
    assert(item_models(items@) =~= item_models(before).push(model));
}

/// An object without fields yet.
pub fn no_fields() -> (r: Vec<(String, Json)>)
    ensures
        field_models(r@) == Seq::<(Seq<char>, JsonModel)>::empty(),
{
    let r: Vec<(String, Json)> = Vec::new();
    assert(field_models(r@) =~= Seq::<(Seq<char>, JsonModel)>::empty());
    r
}

/// A list without items yet.
pub fn no_items() -> (r: Vec<Json>)
    ensures
        item_models(r@) == Seq::<JsonModel>::empty(),
{
    let r: Vec<Json> = Vec::new();
    assert(item_models(r@) =~= Seq::<JsonModel>::empty());
    r
}

impl Json {
    pub fn text(value: &str) -> (r: Json)
        ensures
            r@ == JsonModel::Text(value@),
    {
        Json::Text(value.to_owned())
    }

    pub fn number(value: u64) -> (r: Json)
        ensures
            r@ == JsonModel::Number(crate::text::decimal(value as nat)),
    {
        Json::Number(crate::text::decimal_text(value))
    }

    pub fn signed(value: i64) -> (r: Json)
        ensures
            r@ == JsonModel::Number(crate::text::signed_decimal(value as int)),
    {
        Json::Number(crate::text::signed_text(value))
    }

    pub fn list(items: Vec<Json>) -> (r: Json)
        ensures
            r@ == JsonModel::List(item_models(items@)),
    {
        let r = Json::List(items);
        assert(r@->List_0 =~= item_models(items@));
        r
    }

    pub fn object(fields: Vec<(String, Json)>) -> (r: Json)
        ensures
            r@ == JsonModel::Object(field_models(fields@)),
    {
        let r = Json::Object(fields);
        assert(r@->Object_0 =~= field_models(fields@));
        r
    }

    /// An object with one field.
    pub fn wrap(name: &str, value: Json) -> (r: Json)
        ensures
            r@ == single(name@, value@),
    {
        let mut fields: Vec<(String, Json)> = Vec::new();
        let ghost v = value@;
        fields.push((name.to_owned(), value));
        assert(field_models(fields@) =~= seq![(name@, v)]);
        Json::object(fields)
    }

    /// Reads a document; none where the text is not one.
    pub fn parse(text: &str) -> (r: Option<Json>)
        ensures
            match r {
                Some(value) => json_from_text(text@) == Some(value@),
                None => json_from_text(text@) is None,
            },
    {
        read_json(text)
    }

    /// The value of the first field with a name.
    pub fn get(&self, name: &str) -> (r: Option<&Json>)
        ensures
            match r {
                Some(value) => field_of(self@, name@) == Some(value@),
                None => field_of(self@, name@) is None,
            },
    {
        match self {
            Json::Object(fields) => {
                let ghost models = self@->Object_0;
                let mut i: usize = 0;
                assert(models.skip(0) =~= models);
                while i < fields.len()
                    invariant
                        i <= fields@.len(),
                        *self == Json::Object(*fields),
                        models == self@->Object_0,
                        models.len() == fields@.len(),
                        first_field(models, name@) == first_field(models.skip(i as int), name@),
                    decreases fields.len() - i,
                {
                    assert(models[i as int] == (fields@[i as int].0@, fields@[i as int].1@));
                    assert(models.skip(i as int)[0] == models[i as int]);
                    assert(models.skip(i as int).skip(1) =~= models.skip(i + 1));
                    if same_text(fields[i].0.as_str(), name) {
                        return Some(&fields[i].1);
                    }
                    i = i + 1;
                }
                None
            },
            _ => None,
        }
    }

    /// The value of a field of a field.
    pub fn get2(&self, first: &str, second: &str) -> (r: Option<&Json>)
        ensures
            match r {
                Some(value) => field2(self@, first@, second@) == Some(value@),
                None => field2(self@, first@, second@) is None,
            },
    {
        match self.get(first) {
            Some(value) => value.get(second),
            None => None,
        }
    }

    /// The value of a field of a field of a field.
    pub fn get3(&self, first: &str, second: &str, third: &str) -> (r: Option<&Json>)
        ensures
            match r {
                Some(value) => field3(self@, first@, second@, third@) == Some(value@),
                None => field3(self@, first@, second@, third@) is None,
            },
    {
        match self.get2(first, second) {
            Some(value) => value.get(third),
            None => None,
        }
    }

    /// The text of a number, as the document writes it.
    pub fn as_number(&self) -> (r: Option<&String>)
        ensures
            match r {
                Some(t) => self@ == JsonModel::Number(t@),
                None => !(self@ is Number),
            },
    {
        match self {
            Json::Number(t) => Some(t),
            _ => None,
        }
    }

    pub fn is_null(&self) -> (r: bool)
        ensures
            r == (self@ is Null),
    {
        match self {
            Json::Null => true,
            _ => false,
        }
    }

    /// The document without white space.
    pub fn compact(&self) -> (r: String)
        ensures
            r@ == compact_text(self@),
        decreases self,
    {
        match self {
            Json::Null => "null".to_owned(),
            Json::Bool(b) => if *b {
                "true".to_owned()
            } else {
                "false".to_owned()
            },
            Json::Number(n) => n.clone(),
            Json::Text(t) => quote_json(t.as_str()),
            Json::List(items) => {
                let ghost models = self@->List_0;
                let mut text = String::new();
                let mut i: usize = 0;
                #[verifier::loop_isolation(false)]
                while i < items.len()
                    invariant
                        i <= items@.len(),
                        text@ == items_text(models, i as nat),
                    decreases items.len() - i,
                {
                    assert(decreases_to!(*items => items@[i as int]));
                    if i > 0 {
                        text.push(',');
                    }
                    let ghost before = text@;
                    text.append(items[i].compact().as_str());
                    proof {
                        assert(models[i as int] == items@[i as int]@);
                        if i == 0 {
                            assert(text@ =~= compact_text(models[0]));
                        }
                    }
                    i = i + 1;
                }
                let mut r = "[".to_owned();
                r.append(text.as_str());
                r.append("]");
                r
            },
            Json::Object(fields) => {
                let ghost models = self@->Object_0;
                let mut text = String::new();
                let mut i: usize = 0;
                #[verifier::loop_isolation(false)]
                while i < fields.len()
                    invariant
                        i <= fields@.len(),
                        text@ == fields_text(models, i as nat),
                    decreases fields.len() - i,
                {
                    assert(decreases_to!(*fields => fields@[i as int]));
                    if i > 0 {
                        text.push(',');
                    }
                    let ghost before = text@;
                    text.append(quote_json(fields[i].0.as_str()).as_str());
                    text.append(":");
                    text.append(fields[i].1.compact().as_str());
                    proof {
                        assert(models[i as int] == (fields@[i as int].0@, fields@[i as int].1@));
                        if i == 0 {
                            assert(text@ =~= field_text(models[0]));
                        } else {
                            assert(text@ =~= before + field_text(models[i as int]));
                        }
                    }
                    i = i + 1;
                }
                let mut r = "{".to_owned();
                r.append(text.as_str());
                r.append("}");
                r
            },
        }
    }

    /// A copy of a document.
    pub fn copy(&self) -> (r: Json)
        ensures
            r@ == self@,
        decreases self,
    {
        match self {
            Json::Null => Json::Null,
            Json::Bool(b) => Json::Bool(*b),
            Json::Number(n) => Json::Number(n.clone()),
            Json::Text(t) => Json::Text(t.clone()),
            Json::List(items) => {
                let ghost models = self@->List_0;
                let mut copies: Vec<Json> = Vec::new();
                let mut i: usize = 0;
                #[verifier::loop_isolation(false)]
                while i < items.len()
                    invariant
                        i <= items@.len(),
                        copies@.len() == i,
                        forall|j: int| 0 <= j < i ==> (#[trigger] copies@[j])@ == models[j],
                    decreases items.len() - i,
                {
                    assert(decreases_to!(*items => items@[i as int]));
                    copies.push(items[i].copy());
                    assert(models[i as int] == items@[i as int]@);
                    i = i + 1;
                }
                let r = Json::list(copies);
                assert(item_models(copies@) =~= models);
                r
            },
            Json::Object(fields) => {
                let ghost models = self@->Object_0;
                let mut copies: Vec<(String, Json)> = Vec::new();
                let mut i: usize = 0;
                #[verifier::loop_isolation(false)]
                while i < fields.len()
                    invariant
                        i <= fields@.len(),
                        copies@.len() == i,
                        forall|j: int|
                            0 <= j < i ==> ((#[trigger] copies@[j]).0@, copies@[j].1@) == models[j],
                    decreases fields.len() - i,
                {
                    assert(decreases_to!(*fields => fields@[i as int]));
                    copies.push((fields[i].0.clone(), fields[i].1.copy()));
                    assert(models[i as int] == (fields@[i as int].0@, fields@[i as int].1@));
                    i = i + 1;
                }
                let r = Json::object(copies);
                assert(field_models(copies@) =~= models);
                r
            },
        }
    }

    pub fn as_text(&self) -> (r: Option<&String>)
        ensures
            match r {
                Some(t) => self@ == JsonModel::Text(t@),
                None => !(self@ is Text),
            },
    {
        match self {
            Json::Text(t) => Some(t),
            _ => None,
        }
    }

    pub fn as_list(&self) -> (r: Option<&Vec<Json>>)
        ensures
            match r {
                Some(items) => self@ == JsonModel::List(item_models(items@)),
                None => !(self@ is List),
            },
    {
        match self {
            Json::List(items) => {
                assert(self@->List_0 =~= item_models(items@));
                Some(items)
            },
            _ => None,
        }
    }

    /// A number that is written as digits alone.
    pub fn as_u64(&self) -> (r: Option<u64>)
        ensures
            match r {
                Some(n) => whole_number(self@) == Some(n as nat),
                None => whole_number(self@) is None,
            },
    {
        match self {
            Json::Number(text) => {
                if text.as_str().is_empty() {
                    return None;
                }
                let chars = crate::text::chars_of(text.as_str());
                if chars[0] == '+' {
                    return None;
                }
                crate::text::parse_unsigned(text.as_str(), u64::MAX)
            },
            _ => None,
        }
    }
}

/// The whole number that a JSON number stands for, where it is written as digits alone.
pub open spec fn whole_number(j: JsonModel) -> Option<nat> {
    match j {
        JsonModel::Number(text) => if text.len() > 0 && text[0] != '+' {
            crate::text::unsigned_value(text, u64::MAX as nat)
        } else {
            None
        },
        _ => None,
    }
}

pub open spec fn first_field(fields: Seq<(Seq<char>, JsonModel)>, name: Seq<char>) -> Option<
    JsonModel,
>
    decreases fields.len(),
{
    if fields.len() == 0 {
        None
    } else if fields[0].0 == name {
        Some(fields[0].1)
    } else {
        first_field(fields.skip(1), name)
    }
}

/// The value of the first field with a name, where the value is an object.
pub open spec fn field_of(j: JsonModel, name: Seq<char>) -> Option<JsonModel> {
    match j {
        JsonModel::Object(fields) => first_field(fields, name),
        _ => None,
    }
}

pub open spec fn field2(j: JsonModel, first: Seq<char>, second: Seq<char>) -> Option<JsonModel> {
    match field_of(j, first) {
        Some(value) => field_of(value, second),
        None => None,
    }
}

pub open spec fn field3(
    j: JsonModel,
    first: Seq<char>,
    second: Seq<char>,
    third: Seq<char>,
) -> Option<JsonModel> {
    match field2(j, first, second) {
        Some(value) => field_of(value, third),
        None => None,
    }
}

/// A document without white space.
pub open spec fn compact_text(j: JsonModel) -> Seq<char>
    decreases j, 0nat,
{
    match j {
        JsonModel::Null => "null"@,
        JsonModel::Bool(b) => if b {
            "true"@
        } else {
            "false"@
        },
        JsonModel::Number(n) => n,
        JsonModel::Text(t) => json_quoted(t),
        JsonModel::List(items) => "["@ + items_text(items, items.len()) + "]"@,
        JsonModel::Object(fields) => "{"@ + fields_text(fields, fields.len()) + "}"@,
    }
}

pub open spec fn items_text(items: Seq<JsonModel>, n: nat) -> Seq<char>
    decreases items, n,
{
    if n == 0 || n > items.len() {
        seq![]
    } else if n == 1 {
        compact_text(items[0])
    } else {
        items_text(items, (n - 1) as nat).push(',') + compact_text(items[n - 1])
    }
}

pub open spec fn field_text(field: (Seq<char>, JsonModel)) -> Seq<char>
    decreases field,
{
    json_quoted(field.0) + ":"@ + compact_text(field.1)
}

pub open spec fn fields_text(fields: Seq<(Seq<char>, JsonModel)>, n: nat) -> Seq<char>
    decreases fields, n,
{
    if n == 0 || n > fields.len() {
        seq![]
    } else if n == 1 {
        field_text(fields[0])
    } else {
        fields_text(fields, (n - 1) as nat).push(',') + field_text(fields[n - 1])
    }
}

/// What a text reads as, where it is a JSON document.
pub uninterp spec fn json_from_text(text: Seq<char>) -> Option<JsonModel>;

/// Reads a JSON document with `serde_json::from_str` into a `serde_json::Value`. The value is a
/// function of the text. Numbers keep the text that `serde_json::Number` displays.
#[verifier::external_body]
pub(crate) fn read_json(text: &str) -> (r: Option<Json>)
    ensures
        match r {
            Some(value) => json_from_text(text@) == Some(value@),
            None => json_from_text(text@) is None,
        },
{
    serde_json::from_str::<serde_json::Value>(text).ok().map(plain_json)
}

/// What bytes read as, where they are a JSON document.
pub uninterp spec fn json_from_bytes(bytes: Seq<u8>) -> Option<JsonModel>;

/// Reads a JSON document with `serde_json::from_slice` into a `serde_json::Value`. The value is a
/// function of the bytes. Numbers keep the text that `serde_json::Number` displays.
#[verifier::external_body]
pub(crate) fn read_json_bytes(bytes: &[u8]) -> (r: Option<Json>)
    ensures
        match r {
            Some(value) => json_from_bytes(bytes@) == Some(value@),
            None => json_from_bytes(bytes@) is None,
        },
{
    serde_json::from_slice::<serde_json::Value>(bytes).ok().map(plain_json)
}

/// The outside type of JSON values.
#[verifier::external_type_specification]
#[verifier::external_body]
pub struct ExValue(serde_json::Value);

/// Turns a `serde_json::Value` into a plain value, variant by variant. Nothing is said of the
/// result: it is used on what `serde_json::from_str` returned, and the reader of the text says
/// what the two give together.
#[verifier::external_body]
fn plain_json(value: serde_json::Value) -> (r: Json)
{
    match value {
        serde_json::Value::Null => Json::Null,
        serde_json::Value::Bool(b) => Json::Bool(b),
        serde_json::Value::Number(n) => Json::Number(n.to_string()),
        serde_json::Value::String(s) => Json::Text(s),
        serde_json::Value::Array(items) => Json::List(items.into_iter().map(plain_json).collect()),
        serde_json::Value::Object(fields) => Json::Object(
            fields.into_iter().map(|(name, value)| (name, plain_json(value))).collect(),
        ),
    }
}

pub open spec fn hex_char(d: nat) -> char {
    if d < 10 {
        ((48 + d) as u8) as char
    } else {
        ((87 + d) as u8) as char
    }
}

/// How a character is written in a JSON string.
pub open spec fn json_escaped(c: char) -> Seq<char> {
    if c == '"' {
        seq!['\\', '"']
    } else if c == '\\' {
        seq!['\\', '\\']
    } else if c == '\u{8}' {
        seq!['\\', 'b']
    } else if c == '\u{c}' {
        seq!['\\', 'f']
    } else if c == '\n' {
        seq!['\\', 'n']
    } else if c == '\r' {
        seq!['\\', 'r']
    } else if c == '\t' {
        seq!['\\', 't']
    } else if c <= '\u{1f}' {
        seq!['\\', 'u', '0', '0', hex_char(c as nat / 16), hex_char(c as nat % 16)]
    } else {
        seq![c]
    }
}

/// The characters of a text, each replaced.
pub open spec fn replaced(s: Seq<char>, f: spec_fn(char) -> Seq<char>) -> Seq<char>
    decreases s.len(),
{
    if s.len() == 0 {
        seq![]
    } else {
        replaced(s.drop_last(), f) + f(s.last())
    }
}

/// A text as a JSON string: in quotes, with quotes, backslashes and control characters escaped.
pub open spec fn json_quoted(s: Seq<char>) -> Seq<char> {
    seq!['"'] + replaced(s, |c: char| json_escaped(c)) + seq!['"']
}

/// Writes a text with `serde_json::to_string`: a string in quotes in which quotes, backslashes
/// and the characters before the space are escaped, and nothing else.
#[verifier::external_body]
pub(crate) fn quote_json(text: &str) -> (r: String)
    ensures
        r@ == json_quoted(text@),
{
    serde_json::to_string(text).unwrap_or_default()
}

} // verus!
