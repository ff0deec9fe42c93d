//! JSON values as the worker reads them, and the two calls into `tinyjson`.

use tinyjson::JsonValue;
use vstd::prelude::*;

use crate::text::same_text;
#[allow(unused_imports)]
use crate::text::decimal;

verus! {

/// A JSON value. A number stands for the integer that it is cut down to; an object is a
/// list of its members, of which the last of a name counts.
#[derive(Debug)]
pub enum Json {
    Number(i64),
    Boolean(bool),
    String(String),
    Null,
    Array(Vec<Json>),
    Object(Vec<(String, Json)>),
}

/// What a JSON value means.
pub enum JsonModel {
    Number(i64),
    Boolean(bool),
    String(Seq<char>),
    Null,
    Array(Seq<JsonModel>),
    Object(Map<Seq<char>, JsonModel>),
}

impl Json {
    /// What the value means.
    pub open spec fn model(self) -> JsonModel
        decreases self,
    {
        match self {
            Json::Number(n) => JsonModel::Number(n),
            Json::Boolean(b) => JsonModel::Boolean(b),
            Json::String(s) => JsonModel::String(s@),
            Json::Null => JsonModel::Null,
            Json::Array(a) => JsonModel::Array(items_model(a@)),
            Json::Object(o) => JsonModel::Object(members_model(o@)),
        }
    }
}

/// What the items of an array mean, in order.
pub open spec fn items_model(items: Seq<Json>) -> Seq<JsonModel>
    decreases items,
{
    if items.len() == 0 {
        Seq::empty()
    } else {
        items_model(items.drop_last()).push(items.last().model())
    }
}

/// What the members of an object mean, by their names.
pub open spec fn members_model(members: Seq<(String, Json)>) -> Map<Seq<char>, JsonModel>
    decreases members,
{
    if members.len() == 0 {
        Map::empty()
    } else {
        members_model(members.drop_last()).insert(members.last().0@, members.last().1.model())
    }
}

/// The JSON value of `tinyjson`, whose inside is seen through `open_value` alone.
#[verifier::external_type_specification]
#[verifier::external_body]
pub struct ExJsonValue(JsonValue);

/// What a `tinyjson` value means: a number as the integer that it is cut down to.
pub uninterp spec fn value_model(v: JsonValue) -> JsonModel;

/// What `tinyjson` reads in a text, or, where the text is not one JSON value, the line and
/// the column at which it gives up.
pub uninterp spec fn parsed(text: Seq<char>) -> Result<JsonModel, (nat, nat)>;

/// How a parse error at this line and column begins. The reason follows.
pub open spec fn error_head(place: (nat, nat)) -> Seq<char> {
    "Parse error at line:"@ + decimal(place.0 as int) + ", col:"@ + decimal(place.1 as int)
        + ": "@
}

/// A `tinyjson` value, opened by one level.
pub(crate) enum Opened {
    Number(i64),
    Boolean(bool),
    String(String),
    Null,
    Array(Vec<JsonValue>),
    Object(Vec<(String, JsonValue)>),
}

/// What the values of an opened array mean, in order.
pub(crate) open spec fn values_model(values: Seq<JsonValue>) -> Seq<JsonModel> {
    values.map_values(|v: JsonValue| value_model(v))
}

/// What the members of an opened object mean, by their names.
pub(crate) open spec fn value_members_model(members: Seq<(String, JsonValue)>) -> Map<
    Seq<char>,
    JsonModel,
>
    decreases members.len(),
{
    if members.len() == 0 {
        Map::empty()
    } else {
        value_members_model(members.drop_last()).insert(
            members.last().0@,
            value_model(members.last().1),
        )
    }
}

/// No two members have the same name.
pub(crate) open spec fn distinct_names(members: Seq<(String, JsonValue)>) -> bool {
    forall|i: int, j: int|
        0 <= i < j < members.len() ==> #[trigger] members[i].0@ != #[trigger] members[j].0@
}

impl Opened {
    /// What the opened value means.
    pub(crate) open spec fn model(self) -> JsonModel {
        match self {
            Opened::Number(n) => JsonModel::Number(n),
            Opened::Boolean(b) => JsonModel::Boolean(b),
            Opened::String(s) => JsonModel::String(s@),
            Opened::Null => JsonModel::Null,
            Opened::Array(a) => JsonModel::Array(values_model(a@)),
            Opened::Object(o) => JsonModel::Object(value_members_model(o@)),
        }
    }
}

/// `JsonValue::from_str` of `tinyjson`: the value that the whole text is, or an error in its
/// `Display` form, which gives the line, the column and the reason. The value, the line and
/// the column depend on the text alone. Of the reason nothing is stated: it may print the
/// members of an object, which come in an order of their own in every process. The parser
/// recurses once for every level of nesting in the text.
#[verifier::external_body]
pub(crate) fn parse_text(text: &str) -> (r: Result<JsonValue, String>)
    ensures
        match r {
            Ok(v) => parsed(text@) == Ok::<_, (nat, nat)>(value_model(v)),
            Err(e) => parsed(text@) is Err && error_head(parsed(text@)->Err_0).is_prefix_of(e@),
        },
{
    match text.parse::<JsonValue>() {
        Ok(v) => Ok(v),
        Err(e) => Err(e.to_string()),
    }
}

/// Tells the variants of `tinyjson`'s `JsonValue` apart and hands out what each holds. A
/// number is cast to `i64`; the members of an object come in no particular order, and no
/// name comes twice.
#[verifier::external_body]
pub(crate) fn open_value(v: JsonValue) -> (r: Opened)
    ensures
        r.model() == value_model(v),
        r matches Opened::Object(o) ==> distinct_names(o@),
{
    match v {
        JsonValue::Number(n) => Opened::Number(n as i64),
        JsonValue::Boolean(b) => Opened::Boolean(b),
        JsonValue::String(s) => Opened::String(s),
        JsonValue::Null => Opened::Null,
        JsonValue::Array(a) => Opened::Array(a),
        JsonValue::Object(o) => Opened::Object(o.into_iter().collect()),
    }
}

/// Every member of an opened object is found under its name.
proof fn lemma_value_members(members: Seq<(String, JsonValue)>, i: int)
    requires
        distinct_names(members),
        0 <= i < members.len(),
    ensures
        value_members_model(members).dom().finite(),
        value_members_model(members).dom().contains(members[i].0@),
        value_members_model(members)[members[i].0@] == value_model(members[i].1),
    decreases members.len(),
{
    let rest = members.drop_last();
    if i < rest.len() {
        assert(distinct_names(rest));
        lemma_value_members(rest, i);
        assert(rest[i] == members[i]);
    } else {
        lemma_value_members_finite(rest);
    }
}

/// An object has finitely many members.
proof fn lemma_value_members_finite(members: Seq<(String, JsonValue)>)
    ensures
        value_members_model(members).dom().finite(),
    decreases members.len(),
{
    if members.len() > 0 {
        lemma_value_members_finite(members.drop_last());
    }
}

/// The library's form of a `tinyjson` value.
pub(crate) fn json_from_value(v: JsonValue) -> (r: Json)
    ensures
        r.model() == value_model(v),
    decreases value_model(v),
{
    match open_value(v) {
        Opened::Number(n) => Json::Number(n),
        Opened::Boolean(b) => Json::Boolean(b),
        Opened::String(s) => Json::String(s),
        Opened::Null => Json::Null,
        Opened::Array(a) => {
            let ghost values = a@;
            let ghost model = values_model(values);
            let mut items: Vec<Json> = Vec::new();
            for value in it: a
                invariant
                    it.seq() == values,
                    model == values_model(values),
                    value_model(v) == JsonModel::Array(model),
                    items_model(items@) == model.take(it.index()),
            {
                let ghost before = items@;
                assert(value_model(value) == model[it.index()]);
                assert(decreases_to!(value_model(v) => value_model(v)->Array_0));
                assert(decreases_to!(model => model[it.index()]));
                items.push(json_from_value(value));
                assert(items@.drop_last() =~= before);
                assert(model.take(it.index() + 1) =~= model.take(it.index()).push(
                    model[it.index()],
                ));
            }
            assert(model.take(values.len() as int) =~= model);
            Json::Array(items)
        },
        Opened::Object(o) => {
            let ghost named = o@;
            let ghost model = value_members_model(named);
            let mut members: Vec<(String, Json)> = Vec::new();
            for pair in it: o
                invariant
                    it.seq() == named,
                    distinct_names(named),
                    model == value_members_model(named),
                    value_model(v) == JsonModel::Object(model),
                    members_model(members@) == value_members_model(named.take(it.index())),
            {
                let ghost before = members@;
                let (name, value) = pair;
                proof {
                    lemma_value_members(named, it.index());
                    assert(decreases_to!(value_model(v) => value_model(v)->Object_0));
                    assert(decreases_to!(model => model[name@]));
                }
                members.push((name, json_from_value(value)));
                assert(members@.drop_last() =~= before);
                assert(named.take(it.index() + 1).drop_last() =~= named.take(it.index()));
            }
            assert(named.take(named.len() as int) =~= named);
            Json::Object(members)
        },
    }
}

/// The JSON value that a text is, or an error that says where it is not one. The reason at
/// the end of the error is that of `tinyjson`.
pub fn parse_json(text: &str) -> (r: Result<Json, String>)
    ensures
        match r {
            Ok(json) => parsed(text@) == Ok::<_, (nat, nat)>(json.model()),
            Err(e) => parsed(text@) is Err && error_head(parsed(text@)->Err_0).is_prefix_of(e@),
        },
{
    match parse_text(text) {
        Ok(v) => Ok(json_from_value(v)),
        Err(e) => Err(e),
    }
}

/// The items of an array, one by one.
pub(crate) proof fn lemma_items(items: Seq<Json>)
    ensures
        items_model(items).len() == items.len(),
        forall|i: int| 0 <= i < items.len() ==> items_model(items)[i] == #[trigger] items[i].model(),
    decreases items.len(),
{
    if items.len() > 0 {
        let rest = items.drop_last();
        lemma_items(rest);
        assert forall|i: int| 0 <= i < items.len() implies items_model(items)[i]
            == #[trigger] items[i].model() by {
            if i < rest.len() {
                assert(rest[i] == items[i]);
            }
        }
    }
}

/// The member of an object that counts under a name.
pub fn find_member<'a>(members: &'a Vec<(String, Json)>, name: &str) -> (r: Option<&'a Json>)
    ensures
        match r {
            Some(json) => {
                &&& members_model(members@).dom().contains(name@)
                &&& members_model(members@)[name@] == json.model()
            },
            None => !members_model(members@).dom().contains(name@),
        },
{
    let mut found: Option<usize> = None;
    let mut i: usize = 0;
    while i < members.len()
        invariant
            i <= members@.len(),
            match found {
                Some(at) => {
                    &&& at < i
                    &&& members_model(members@.take(i as int)).dom().contains(name@)
                    &&& members_model(members@.take(i as int))[name@] == members@[at as int].1.model()
                },
                None => !members_model(members@.take(i as int)).dom().contains(name@),
            },
        decreases members@.len() - i,
    {
        assert(members@.take(i + 1).drop_last() =~= members@.take(i as int));
        if same_text(members[i].0.as_str(), name) {
            found = Some(i);
        }
        i = i + 1;
    }
    assert(members@.take(i as int) =~= members@);
    match found {
        Some(at) => Some(&members[at].1),
        None => None,
    }
}

/// A hexadecimal digit, in lower case.
pub open spec fn hex_digit(n: u32) -> char {
    if n < 10 {
        (0x30 + n) as char
    } else {
        (0x57 + n) as char
    }
}

/// One character as it stands in a JSON string literal.
pub open spec fn escaped(c: char) -> Seq<char> {
    let n = c as u32;
    if c == '"' || c == '\\' {
        seq!['\\', c]
    } else if n == 0x08 {
        seq!['\\', 'b']
    } else if n == 0x09 {
        seq!['\\', 't']
    } else if n == 0x0a {
        seq!['\\', 'n']
    } else if n == 0x0c {
        seq!['\\', 'f']
    } else if n == 0x0d {
        seq!['\\', 'r']
    } else if n < 0x20 {
        seq!['\\', 'u', '0', '0', hex_digit(n / 16), hex_digit(n % 16)]
    } else {
        seq![c]
    }
}

/// The inside of the JSON string literal for `s`.
pub open spec fn all_escaped(s: Seq<char>) -> Seq<char>
    decreases s.len(),
{
    if s.len() == 0 {
        Seq::empty()
    } else {
        all_escaped(s.drop_last()) + escaped(s.last())
    }
}

/// The JSON string literal for `s`.
pub open spec fn quoted(s: Seq<char>) -> Seq<char> {
    seq!['"'] + all_escaped(s) + seq!['"']
}

/// `JsonValue::stringify` of `tinyjson` on a string: its literal in JSON, in which the
/// quotation mark, the backslash and the characters below U+0020 are escaped. It fails
/// only on a number that JSON lacks, and so never on a string.
#[verifier::external_body]
pub(crate) fn quote(s: &str) -> (r: String)
    ensures
        r@ == quoted(s@),
{
    JsonValue::String(s.to_string()).stringify().expect("string stringify")
}

/// A value is seen whole: a number, a text and a truth value as they are, an array item by
/// item.
pub proof fn law_value_is_seen_whole(json: Json)
    ensures
        json matches Json::Number(n) ==> json.model() == JsonModel::Number(n),
        json matches Json::Boolean(b) ==> json.model() == JsonModel::Boolean(b),
        json matches Json::String(s) ==> json.model() == JsonModel::String(s@),
        json is Null ==> json.model() is Null,
        json matches Json::Array(a) ==> {
            &&& json.model() is Array
            &&& json.model()->Array_0.len() == a@.len()
            &&& forall|i: int|
                0 <= i < a@.len() ==> json.model()->Array_0[i] == #[trigger] a@[i].model()
        },
        json matches Json::Object(o) ==> json.model() == JsonModel::Object(members_model(o@)),
{
    if let Json::Array(a) = json {
        lemma_items(a@);
    }
}

/// Of several members with one name the last counts, and a name that no member has is not
/// there.
pub proof fn law_last_member_counts(members: Seq<(String, Json)>, i: int, name: Seq<char>)
    ensures
        (0 <= i < members.len() && members[i].0@ == name && forall|j: int|
            i < j < members.len() ==> #[trigger] members[j].0@ != name) ==> members_model(
            members,
        ).dom().contains(name) && members_model(members)[name] == members[i].1.model(),
        (forall|j: int| 0 <= j < members.len() ==> #[trigger] members[j].0@ != name)
            ==> !members_model(members).dom().contains(name),
    decreases members.len(),
{
    if members.len() > 0 {
        let rest = members.drop_last();
        let end = members.len() - 1;
        law_last_member_counts(rest, i, name);
        assert forall|j: int| 0 <= j < rest.len() implies #[trigger] rest[j] == members[j] by {}
        if i < end && members[end].0@ != name {
            assert(members.last() == members[end]);
        }
        if forall|j: int| 0 <= j < members.len() ==> #[trigger] members[j].0@ != name {
            assert(members[end].0@ != name);
            assert forall|j: int| 0 <= j < rest.len() implies #[trigger] rest[j].0@ != name by {
                assert(rest[j] == members[j]);
            }
        }
        if 0 <= i < end && members[i].0@ == name && (forall|j: int|
            i < j < members.len() ==> #[trigger] members[j].0@ != name) {
            assert(members[end].0@ != name);
            assert forall|j: int| i < j < rest.len() implies #[trigger] rest[j].0@ != name by {
                assert(rest[j] == members[j]);
            }
        }
    }
}

} // verus!
