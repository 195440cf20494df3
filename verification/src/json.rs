//! JSON values: what the proxy reads of them and how it changes them.
use crate::text;
use vstd::prelude::*;

verus! {

/// A number as serde_json holds it.
#[verifier::external_type_specification]
#[verifier::external_body]
pub struct ExNumber(serde_json::Number);

/// A JSON value as serde_json holds it.
#[verifier::external_type_specification]
#[verifier::external_body]
pub struct ExValue(serde_json::Value);

/// What a JSON number is: an integer, or a number with a fraction or an
/// exponent, known by the text that serde_json writes for it.
pub enum NumberV {
    Int(int),
    Decimal(Seq<char>),
}

/// What a JSON value is.
pub enum JsonV {
    Null,
    Bool(bool),
    Number(NumberV),
    Str(Seq<char>),
    Array(Seq<JsonV>),
    Object(Map<Seq<char>, JsonV>),
}

impl JsonV {
    /// The member of an object under a key.
    pub open spec fn get(self, key: Seq<char>) -> Option<JsonV> {
        match self {
            JsonV::Object(m) => if m.contains_key(key) {
                Some(m[key])
            } else {
                None
            },
            _ => None,
        }
    }

    /// The text of a string.
    pub open spec fn as_str(self) -> Option<Seq<char>> {
        match self {
            JsonV::Str(s) => Some(s),
            _ => None,
        }
    }

    /// The truth value of a boolean.
    pub open spec fn as_bool(self) -> Option<bool> {
        match self {
            JsonV::Bool(b) => Some(b),
            _ => None,
        }
    }

    /// The items of an array.
    pub open spec fn as_array(self) -> Option<Seq<JsonV>> {
        match self {
            JsonV::Array(items) => Some(items),
            _ => None,
        }
    }

    /// An integer that fits in 64 bits without a sign.
    pub open spec fn as_u64(self) -> Option<u64> {
        match self {
            JsonV::Number(NumberV::Int(i)) => if 0 <= i <= u64::MAX {
                Some(i as u64)
            } else {
                None
            },
            _ => None,
        }
    }

    /// An integer that fits in 64 bits with a sign.
    pub open spec fn as_i64(self) -> Option<i64> {
        match self {
            JsonV::Number(NumberV::Int(i)) => if i64::MIN <= i <= i64::MAX {
                Some(i as i64)
            } else {
                None
            },
            _ => None,
        }
    }

    /// The text of an object's member that is a string.
    pub open spec fn get_str(self, key: Seq<char>) -> Option<Seq<char>> {
        match self.get(key) {
            Some(v) => v.as_str(),
            None => None,
        }
    }

    /// The items of an object's member that is an array.
    pub open spec fn get_array(self, key: Seq<char>) -> Option<Seq<JsonV>> {
        match self.get(key) {
            Some(v) => v.as_array(),
            None => None,
        }
    }

    /// The truth value of an object's member, or false where it has none.
    pub open spec fn get_flag(self, key: Seq<char>) -> bool {
        match self.get(key) {
            Some(v) => v.as_bool() == Some(true),
            None => false,
        }
    }

    /// Whether members can be set: null counts as an object without any.
    pub open spec fn settable(self) -> bool {
        self is Object || self is Null
    }

    /// The value with one member set.
    pub open spec fn with(self, key: Seq<char>, value: JsonV) -> JsonV {
        match self {
            JsonV::Object(m) => JsonV::Object(m.insert(key, value)),
            JsonV::Null => JsonV::Object(Map::empty().insert(key, value)),
            other => other,
        }
    }

    /// The value without one member.
    pub open spec fn without(self, key: Seq<char>) -> JsonV {
        match self {
            JsonV::Object(m) => JsonV::Object(m.remove(key)),
            other => other,
        }
    }

    /// An object without members.
    pub open spec fn empty_object() -> JsonV {
        JsonV::Object(Map::empty())
    }

    /// An integer.
    pub open spec fn integer(i: int) -> JsonV {
        JsonV::Number(NumberV::Int(i))
    }
}

/// The key that serde_json keeps for itself: an object that is written with it
/// first is not read as an object.
pub open spec fn private_key() -> Seq<char> {
    "$serde_json::private::RawValue"@
}

/// Whether an object is read as one from its text: its members are written in
/// the order of their keys, so serde_json's private key comes first if and only
/// if no other key comes before it.
pub open spec fn reads_as_object(m: Map<Seq<char>, JsonV>) -> bool {
    m.contains_key(private_key()) ==> exists|k: Seq<char>| #[trigger]
        m.contains_key(k) && text::comes_before(k, private_key())
}

/// Whether a value can be read back from its text: its integers have 64 bits,
/// its decimals are read back from their own texts, no object in it has
/// serde_json's private key as its first one, and arrays and objects stand in
/// each other at most `depth` deep.
pub open spec fn exact_within(v: JsonV, depth: nat) -> bool
    decreases depth,
{
    match v {
        JsonV::Number(NumberV::Int(i)) => i64::MIN <= i <= u64::MAX,
        JsonV::Number(NumberV::Decimal(t)) => parsed_json(t) == Parsed::Value(v),
        JsonV::Array(items) => depth > 0 && forall|i: int|
            0 <= i < items.len() ==> exact_within(#[trigger] items[i], (depth - 1) as nat),
        JsonV::Object(m) => depth > 0 && reads_as_object(m) && forall|k: Seq<char>|
            m.contains_key(k) ==> exact_within(#[trigger] m[k], (depth - 1) as nat),
        _ => true,
    }
}

/// Whether every member of an object can be read back from its text.
pub open spec fn exact_members(m: Map<Seq<char>, JsonV>, depth: nat) -> bool {
    forall|k: Seq<char>| m.contains_key(k) ==> exact_within(#[trigger] m[k], depth)
}

/// A JSON value.
#[derive(Debug)]
pub enum Json {
    Null,
    Bool(bool),
    Number(serde_json::Number),
    Str(String),
    Array(Vec<Json>),
    Object(JsonMap),
}

/// The members of a JSON object.  Of two entries under one key the later one
/// counts.
#[derive(Debug)]
pub struct JsonMap {
    pub entries: Vec<(String, Json)>,
}

/// What a value stands for.
pub open spec fn json_view(j: Json) -> JsonV
    decreases j,
{
    match j {
        Json::Null => JsonV::Null,
        Json::Bool(b) => JsonV::Bool(b),
        Json::Number(n) => JsonV::Number(number_value(n)),
        Json::Str(s) => JsonV::Str(s@),
        Json::Array(items) => JsonV::Array(
            Seq::new(
                items@.len(),
                |i: int| if 0 <= i < items@.len() {
                    json_view(items@[i])
                } else {
                    JsonV::Null
                },
            ),
        ),
        Json::Object(map) => JsonV::Object(entries_view(map.entries@)),
    }
}

/// What the entries of an object stand for.
pub open spec fn entries_view(entries: Seq<(String, Json)>) -> Map<Seq<char>, JsonV>
    decreases entries,
{
    if entries.len() == 0 {
        Map::empty()
    } else {
        entries_view(entries.drop_last()).insert(entries.last().0@, json_view(entries.last().1))
    }
}

/// What a list of values stands for.
pub open spec fn list_view(items: Seq<Json>) -> Seq<JsonV> {
    items.map_values(|j: Json| json_view(j))
}

/// What a value that may be missing stands for.
pub open spec fn option_view(j: Option<Json>) -> Option<JsonV> {
    match j {
        Some(v) => Some(v@),
        None => None,
    }
}

/// The text of a string that may be missing.
pub open spec fn option_text(s: Option<String>) -> Option<Seq<char>> {
    match s {
        Some(t) => Some(t@),
        None => None,
    }
}

impl View for Json {
    type V = JsonV;

    open spec fn view(&self) -> JsonV {
        json_view(*self)
    }
}

impl View for JsonMap {
    type V = Map<Seq<char>, JsonV>;

    open spec fn view(&self) -> Map<Seq<char>, JsonV> {
        entries_view(self.entries@)
    }
}

/// What a number of serde_json's is.
pub uninterp spec fn number_value(number: serde_json::Number) -> NumberV;

/// What a value of serde_json's is.
pub uninterp spec fn value_model(value: serde_json::Value) -> JsonV;

/// `Number::clone`: the same number.
pub assume_specification[ <serde_json::Number as Clone>::clone ](
    number: &serde_json::Number,
) -> (r: serde_json::Number)
    ensures
        r == *number,
;

/// `Number::as_u64`: an integer that fits in a `u64`; none for a negative
/// integer or a decimal.
pub assume_specification[ serde_json::Number::as_u64 ](number: &serde_json::Number) -> (r: Option<
    u64,
>)
    ensures
        r == JsonV::Number(number_value(*number)).as_u64(),
;

/// `Number::as_i64`: an integer that fits in an `i64`; none for a larger
/// integer or a decimal.
pub assume_specification[ serde_json::Number::as_i64 ](number: &serde_json::Number) -> (r: Option<
    i64,
>)
    ensures
        r == JsonV::Number(number_value(*number)).as_i64(),
;

/// `Number::from` of a `u64`: that integer.
#[verifier::external_body]
fn number_from_u64(n: u64) -> (r: serde_json::Number)
    ensures
        number_value(r) == NumberV::Int(n as int),
{
    serde_json::Number::from(n)
}

/// `Number::from` of an `i64`: that integer.
#[verifier::external_body]
fn number_from_i64(n: i64) -> (r: serde_json::Number)
    ensures
        number_value(r) == NumberV::Int(n as int),
{
    serde_json::Number::from(n)
}

/// A value of serde_json's opened by one level.
pub enum ValueParts {
    Null,
    Bool(bool),
    Number(serde_json::Number),
    Str(String),
    Array(Vec<serde_json::Value>),
    Object(Vec<(String, serde_json::Value)>),
}

/// What a list of members stands for; of two under one key the later counts.
pub open spec fn members_model(members: Seq<(String, serde_json::Value)>) -> Map<Seq<char>, JsonV>
    decreases members.len(),
{
    if members.len() == 0 {
        Map::empty()
    } else {
        members_model(members.drop_last()).insert(members.last().0@, value_model(members.last().1))
    }
}

/// What an opened value is.
pub open spec fn parts_model(parts: ValueParts) -> JsonV {
    match parts {
        ValueParts::Null => JsonV::Null,
        ValueParts::Bool(b) => JsonV::Bool(b),
        ValueParts::Number(n) => JsonV::Number(number_value(n)),
        ValueParts::Str(s) => JsonV::Str(s@),
        ValueParts::Array(items) => JsonV::Array(
            items@.map_values(|v: serde_json::Value| value_model(v)),
        ),
        ValueParts::Object(members) => JsonV::Object(members_model(members@)),
    }
}

/// Whether no two members stand under one key.
pub open spec fn distinct_keys(members: Seq<(String, serde_json::Value)>) -> bool {
    forall|i: int, j: int|
        0 <= i < j < members.len() ==> (#[trigger] members[i]).0@ != (#[trigger] members[j]).0@
}

/// The variants of `serde_json::Value`: what is in the variant is what the
/// value is, an object's members as its map walks them, each key once.
#[verifier::external_body]
fn open_value(value: serde_json::Value) -> (r: ValueParts)
    ensures
        parts_model(r) == value_model(value),
        r matches ValueParts::Object(members) ==> distinct_keys(members@),
{
    match value {
        serde_json::Value::Null => ValueParts::Null,
        serde_json::Value::Bool(b) => ValueParts::Bool(b),
        serde_json::Value::Number(n) => ValueParts::Number(n),
        serde_json::Value::String(s) => ValueParts::Str(s),
        serde_json::Value::Array(items) => ValueParts::Array(items),
        serde_json::Value::Object(map) => ValueParts::Object(map.into_iter().collect()),
    }
}

/// The variants of `serde_json::Value`: the value is what is put in the
/// variant, an object's members as they are collected into its map, each key
/// once.
#[verifier::external_body]
fn close_value(parts: ValueParts) -> (r: serde_json::Value)
    requires
        parts matches ValueParts::Object(members) ==> distinct_keys(members@),
    ensures
        value_model(r) == parts_model(parts),
{
    match parts {
        ValueParts::Null => serde_json::Value::Null,
        ValueParts::Bool(b) => serde_json::Value::Bool(b),
        ValueParts::Number(n) => serde_json::Value::Number(n),
        ValueParts::Str(s) => serde_json::Value::String(s),
        ValueParts::Array(items) => serde_json::Value::Array(items),
        ValueParts::Object(members) => serde_json::Value::Object(members.into_iter().collect()),
    }
}

/// What parsing gives: a value, or the message that says why there is none.
pub enum Parsed {
    Value(JsonV),
    Failure(Seq<char>),
}

/// What `serde_json::from_str` makes of a text.
pub uninterp spec fn parsed_json(text: Seq<char>) -> Parsed;

/// What `serde_json::from_slice` makes of bytes: a value, or none.
pub uninterp spec fn parsed_json_bytes(bytes: Seq<u8>) -> Option<JsonV>;

/// The compact text that a value displays as.
pub uninterp spec fn json_display(v: JsonV) -> Seq<char>;

/// What `serde_json::from_slice` makes of bytes that it reads as the members of
/// an object: those, or none.
pub uninterp spec fn parsed_members(bytes: Seq<u8>) -> Option<Map<Seq<char>, JsonV>>;

/// The compact text that `serde_json::to_string` writes for a value.
pub uninterp spec fn json_encoding(v: JsonV) -> Seq<char>;

/// The indented text that `serde_json::to_vec_pretty` writes for a value.
pub uninterp spec fn json_pretty(v: JsonV) -> Seq<u8>;

/// How deep arrays and objects may stand in each other in a text that is
/// parsed.
pub open spec fn parse_depth() -> nat {
    127
}

/// `serde_json::from_str` into a `Value`: the result is named after the text.
#[verifier::external_body]
fn value_from_str(text: &str) -> (r: Result<serde_json::Value, String>)
    ensures
        r matches Ok(v) ==> parsed_json(text@) == Parsed::Value(value_model(v)),
        r matches Err(e) ==> parsed_json(text@) == Parsed::Failure(e@),
{
    match serde_json::from_str::<serde_json::Value>(text) {
        Ok(v) => Ok(v),
        Err(e) => Err(e.to_string()),
    }
}

/// `serde_json::from_slice` into a `Value`: the result is named after the
/// bytes.
#[verifier::external_body]
fn value_from_slice(bytes: &[u8]) -> (r: Option<serde_json::Value>)
    ensures
        r matches Some(v) ==> parsed_json_bytes(bytes@) == Some(value_model(v)),
        r is None ==> parsed_json_bytes(bytes@) is None,
{
    serde_json::from_slice::<serde_json::Value>(bytes).ok()
}

/// `Value::to_string`: the text is named after what the value is.
#[verifier::external_body]
fn value_display(value: &serde_json::Value) -> (r: String)
    ensures
        r@ == json_display(value_model(*value)),
{
    value.to_string()
}

/// `serde_json::from_slice` into a `Map`: the result is named after the bytes;
/// each key comes once.
#[verifier::external_body]
fn members_from_slice(bytes: &[u8]) -> (r: Option<Vec<(String, serde_json::Value)>>)
    ensures
        r matches Some(members) ==> distinct_keys(members@) && parsed_members(bytes@) == Some(
            members_model(members@),
        ),
        r is None ==> parsed_members(bytes@) is None,
{
    serde_json::from_slice::<serde_json::Map<String, serde_json::Value>>(bytes).ok().map(
        |map| map.into_iter().collect(),
    )
}

/// `serde_json::to_string` of a `Value`: there is a text, and it is named after
/// what the value is.  It has no line feed in it, it stands between braces where
/// the value is an object, and parsing it gives the value back, where that is not
/// nested deeper than the parser goes, no object in it has the key that the
/// parser takes for its own as its first one (a map is written in the order of
/// its keys), and parsing the text of each decimal in it gives that decimal back
/// (the parser may miss the nearest decimal).
#[verifier::external_body]
fn value_to_string(value: &serde_json::Value) -> (r: Option<String>)
    ensures
        r is Some,
        r matches Some(t) ==> {
            &&& t@ == json_encoding(value_model(*value))
            &&& !t@.contains('\n')
            &&& value_model(*value) is Object ==> t@.len() >= 2 && t@[0] == '{' && t@.last() == '}'
            &&& exact_within(value_model(*value), parse_depth()) ==> parsed_json(t@) == Parsed::Value(value_model(*value))
        },
{
    serde_json::to_string(value).ok()
}

/// `serde_json::to_vec_pretty` of a `Value`: there are bytes, and they are named
/// after what the value is.  Parsing them as the members of an object gives those
/// back, where the value is one and its members can be read back: they are not
/// nested deeper than the parser goes, no object in them has the key that the
/// parser takes for its own as its first one, and parsing the text of each
/// decimal in them gives that decimal back.
#[verifier::external_body]
fn value_to_vec_pretty(value: &serde_json::Value) -> (r: Option<Vec<u8>>)
    ensures
        r is Some,
        r matches Some(b) ==> {
            &&& b@ == json_pretty(value_model(*value))
            &&& value_model(*value) matches JsonV::Object(m) ==> exact_members(
                m,
                (parse_depth() - 1) as nat,
            ) ==> parsed_members(b@) == Some(m)
        },
{
    serde_json::to_vec_pretty(value).ok()
}

proof fn lemma_members_finite(members: Seq<(String, serde_json::Value)>)
    ensures
        members_model(members).dom().finite(),
    decreases members.len(),
{
    if members.len() > 0 {
        lemma_members_finite(members.drop_last());
    }
}

proof fn lemma_members_model(members: Seq<(String, serde_json::Value)>, i: int)
    requires
        distinct_keys(members),
        0 <= i < members.len(),
    ensures
        members_model(members).contains_key(members[i].0@),
        members_model(members)[members[i].0@] == value_model(members[i].1),
    decreases members.len(),
{
    if i < members.len() - 1 {
        let rest = members.drop_last();
        assert(distinct_keys(rest)) by {
            assert forall|a: int, b: int| 0 <= a < b < rest.len() implies (#[trigger] rest[a]).0@ != (
            #[trigger] rest[b]).0@ by {
                assert(members[a].0@ != members[b].0@);
            }
        }
        lemma_members_model(rest, i);
        assert(members[i].0@ != members[members.len() - 1].0@);
    }
}

proof fn lemma_member_update(
    members: Seq<(String, serde_json::Value)>,
    i: int,
    member: (String, serde_json::Value),
)
    requires
        distinct_keys(members),
        0 <= i < members.len(),
        member.0@ == members[i].0@,
    ensures
        distinct_keys(members.update(i, member)),
        members_model(members.update(i, member)) == members_model(members).insert(
            member.0@,
            value_model(member.1),
        ),
    decreases members.len(),
{
    let after = members.update(i, member);
    let rest = members.drop_last();
    assert forall|a: int, b: int| 0 <= a < b < after.len() implies (#[trigger] after[a]).0@ != (
    #[trigger] after[b]).0@ by {
        assert(members[a].0@ != members[b].0@);
    }
    if i == members.len() - 1 {
        assert(after.drop_last() =~= rest);
    } else {
        assert forall|a: int, b: int| 0 <= a < b < rest.len() implies (#[trigger] rest[a]).0@ != (
        #[trigger] rest[b]).0@ by {
            assert(members[a].0@ != members[b].0@);
        }
        lemma_member_update(rest, i, member);
        assert(after.drop_last() =~= rest.update(i, member));
        assert(members[i].0@ != members[members.len() - 1].0@);
    }
    assert(members_model(after) =~= members_model(members).insert(
        member.0@,
        value_model(member.1),
    ));
}

/// Sets a member among others, in place of the one under its key.
fn put_member(
    members: &mut Vec<(String, serde_json::Value)>,
    key: &str,
    value: serde_json::Value,
)
    requires
        distinct_keys(old(members)@),
    ensures
        distinct_keys(final(members)@),
        members_model(final(members)@) == members_model(old(members)@).insert(
            key@,
            value_model(value),
        ),
{
    let ghost before = members@;
    let mut i: usize = 0;
    while i < members.len()
        invariant
            i <= members@.len(),
            members@ == before,
            before == old(members)@,
            distinct_keys(before),
            forall|j: int| 0 <= j < i ==> (#[trigger] before[j]).0@ != key@,
        decreases members@.len() - i,
    {
        if text::same_text(members[i].0.as_str(), key) {
            let member = (key.to_owned(), value);
            proof {
                lemma_member_update(before, i as int, member);
            }
            members.set(i, member);
            return;
        }
        i += 1;
    }
    members.push((key.to_owned(), value));
    proof {
        let after = members@;
        assert(after.drop_last() =~= before);
        assert forall|a: int, b: int| 0 <= a < b < after.len() implies (#[trigger] after[a]).0@ != (
        #[trigger] after[b]).0@ by {
            if b < before.len() {
                assert(before[a].0@ != before[b].0@);
            } else {
                assert(before[a].0@ != key@);
            }
        }
    }
}

/// An object has a key if and only if an entry is under it.
pub proof fn lemma_entries_key(entries: Seq<(String, Json)>, key: Seq<char>)
    ensures
        entries_view(entries).contains_key(key) <==> exists|j: int|
            0 <= j < entries.len() && (#[trigger] entries[j]).0@ == key,
    decreases entries.len(),
{
    if entries.len() > 0 {
        let rest = entries.drop_last();
        lemma_entries_key(rest, key);
        if entries.last().0@ == key {
            assert(entries[entries.len() - 1].0@ == key);
        }
        if entries_view(rest).contains_key(key) {
            let j = choose|j: int| 0 <= j < rest.len() && (#[trigger] rest[j]).0@ == key;
            assert(entries[j].0@ == key);
        }
        if exists|j: int| 0 <= j < entries.len() && (#[trigger] entries[j]).0@ == key {
            let j = choose|j: int| 0 <= j < entries.len() && (#[trigger] entries[j]).0@ == key;
            if j < rest.len() {
                assert(rest[j].0@ == key);
            }
        }
    }
}

proof fn lemma_entries_drop(entries: Seq<(String, Json)>, i: int)
    requires
        0 <= i < entries.len(),
    ensures
        entries_view(entries.remove(i)).remove(entries[i].0@) == entries_view(entries).remove(
            entries[i].0@,
        ),
    decreases entries.len(),
{
    let key = entries[i].0@;
    if i == entries.len() - 1 {
        assert(entries.remove(i) =~= entries.drop_last());
        assert(entries_view(entries.remove(i)).remove(key) =~= entries_view(entries).remove(key));
    } else {
        let rest = entries.drop_last();
        lemma_entries_drop(rest, i);
        assert(rest[i] == entries[i]);
        assert(entries.remove(i).drop_last() =~= rest.remove(i));
        assert(entries.remove(i).last() == entries.last());
        let lk = entries.last().0@;
        let lv = json_view(entries.last().1);
        let a = entries_view(rest.remove(i));
        let b = entries_view(rest);
        assert(entries_view(entries.remove(i)) == a.insert(lk, lv));
        assert(a.insert(lk, lv).remove(key) =~= b.insert(lk, lv).remove(key)) by {
            assert forall|k: Seq<char>| a.remove(key).contains_key(k) == b.remove(key).contains_key(
                k,
            ) by {}
            assert forall|k: Seq<char>|
                k != key && #[trigger] a.contains_key(k) implies b.contains_key(k) && a[k]
                == b[k] by {
                assert(a.remove(key).contains_key(k));
                assert(a.remove(key)[k] == b.remove(key)[k]);
            }
            assert forall|k: Seq<char>|
                k != key && #[trigger] b.contains_key(k) implies a.contains_key(k) by {
                assert(b.remove(key).contains_key(k));
            }
        }
    }
}

impl Clone for Json {
    fn clone(&self) -> (r: Self)
        ensures
            r@ == self@,
        decreases self,
    {
        match self {
            Json::Null => Json::Null,
            Json::Bool(b) => Json::Bool(*b),
            Json::Number(n) => Json::Number(n.clone()),
            Json::Str(s) => Json::Str(s.clone()),
            Json::Array(items) => {
                let mut out: Vec<Json> = Vec::new();
                for i in 0..items.len()
                    invariant
                        out@.len() == i,
                        forall|j: int|
                            0 <= j < i ==> json_view(#[trigger] out@[j]) == json_view(items@[j]),
                        self is Array,
                        *items == self->Array_0,
                {
                    assert(decreases_to!(self => self->Array_0));
                    out.push(items[i].clone());
                }
                let r = Json::Array(out);
                assert(r@->Array_0 =~= self@->Array_0);
                r
            },
            Json::Object(map) => Json::Object(map.clone()),
        }
    }
}

impl Clone for JsonMap {
    fn clone(&self) -> (r: Self)
        ensures
            r@ == self@,
        decreases self,
    {
        let mut out: Vec<(String, Json)> = Vec::new();
        for i in 0..self.entries.len()
            invariant
                out@.len() == i,
                entries_view(out@) == entries_view(self.entries@.take(i as int)),
        {
            let ghost before = out@;
            out.push((self.entries[i].0.clone(), self.entries[i].1.clone()));
            assert(out@.drop_last() =~= before);
            assert(self.entries@.take(i + 1).drop_last() =~= self.entries@.take(i as int));
        }
        assert(self.entries@.take(self.entries.len() as int) =~= self.entries@);
        JsonMap { entries: out }
    }
}

impl JsonMap {
    /// No members.
    pub fn new() -> (r: JsonMap)
        ensures
            r@ == Map::<Seq<char>, JsonV>::empty(),
    {
        JsonMap { entries: Vec::new() }
    }

    /// The member under a key.
    pub fn get(&self, key: &str) -> (r: Option<&Json>)
        ensures
            r matches Some(v) ==> self@.contains_key(key@) && self@[key@] == v@
                && decreases_to!(*self => *v),
            r is None ==> !self@.contains_key(key@),
    {
        let mut i: usize = self.entries.len();
        assert(self.entries@.take(i as int) =~= self.entries@);
        while i > 0
            invariant
                i <= self.entries@.len(),
                self@.contains_key(key@) == entries_view(
                    self.entries@.take(i as int),
                ).contains_key(key@),
                self@[key@] == entries_view(self.entries@.take(i as int))[key@],
            decreases i,
        {
            i -= 1;
            assert(self.entries@.take(i + 1).drop_last() =~= self.entries@.take(i as int));
            if text::same_text(self.entries[i].0.as_str(), key) {
                assert(decreases_to!(*self => self.entries));
                assert(decreases_to!(self.entries@[i as int] => self.entries@[i as int].1));
                return Some(&self.entries[i].1);
            }
        }
        None
    }

    /// Takes the member under a key away.
    pub fn remove(&mut self, key: &str)
        ensures
            final(self)@ == old(self)@.remove(key@),
    {
        let mut i: usize = 0;
        while i < self.entries.len()
            invariant
                i <= self.entries@.len(),
                forall|j: int| 0 <= j < i ==> (#[trigger] self.entries@[j]).0@ != key@,
                entries_view(self.entries@).remove(key@) == old(self)@.remove(key@),
            decreases self.entries@.len() - i,
        {
            if text::same_text(self.entries[i].0.as_str(), key) {
                proof {
                    lemma_entries_drop(self.entries@, i as int);
                }
                let _ = self.entries.remove(i);
            } else {
                i += 1;
            }
        }
        proof {
            lemma_entries_key(self.entries@, key@);
        }
        assert(self@.remove(key@) =~= self@);
    }

    /// Sets the member under a key.
    pub fn insert(&mut self, key: &str, value: Json)
        ensures
            final(self)@ == old(self)@.insert(key@, value@),
    {
        self.remove(key);
        let ghost rest = self.entries@;
        self.entries.push((key.to_owned(), value));
        assert(self.entries@.drop_last() =~= rest);
        assert(self@ =~= old(self)@.insert(key@, value@));
    }
}

impl Json {
    /// A string.
    pub fn text(s: &str) -> (r: Json)
        ensures
            r@ == JsonV::Str(s@),
    {
        Json::Str(s.to_owned())
    }

    /// An integer without a sign.
    pub fn unsigned(n: u64) -> (r: Json)
        ensures
            r@ == JsonV::integer(n as int),
    {
        Json::Number(number_from_u64(n))
    }

    /// An integer with a sign.
    pub fn signed(n: i64) -> (r: Json)
        ensures
            r@ == JsonV::integer(n as int),
    {
        Json::Number(number_from_i64(n))
    }

    /// An object without members.
    pub fn object() -> (r: Json)
        ensures
            r@ == JsonV::empty_object(),
    {
        Json::Object(JsonMap::new())
    }

    /// An array.
    pub fn array(items: Vec<Json>) -> (r: Json)
        ensures
            r@ == JsonV::Array(list_view(items@)),
    {
        let r = Json::Array(items);
        assert(r@->Array_0 =~= list_view(items@));
        r
    }

    /// This value with one member set.
    pub fn with(self, key: &str, value: Json) -> (r: Json)
        requires
            self@.settable(),
        ensures
            r@ == self@.with(key@, value@),
    {
        let mut r = self;
        r.set(key, value);
        r
    }

    /// Sets a member of an object; null becomes an object.
    pub fn set(&mut self, key: &str, value: Json)
        requires
            old(self)@.settable(),
        ensures
            final(self)@ == old(self)@.with(key@, value@),
    {
        if let Json::Object(map) = self {
            map.insert(key, value);
        } else {
            let mut map = JsonMap::new();
            map.insert(key, value);
            *self = Json::Object(map);
        }
    }

    /// Takes a member of an object away.
    pub fn unset(&mut self, key: &str)
        ensures
            final(self)@ == old(self)@.without(key@),
    {
        if let Json::Object(map) = self {
            map.remove(key);
        }
    }

    /// The member of an object under a key.
    pub fn get(&self, key: &str) -> (r: Option<&Json>)
        ensures
            r matches Some(v) ==> self@.get(key@) == Some(v@) && decreases_to!(*self => *v),
            r is None ==> self@.get(key@) is None,
    {
        match self {
            Json::Object(map) => {
                assert(decreases_to!(*self => self->Object_0));
                map.get(key)
            },
            _ => None,
        }
    }

    /// The text of a string.
    pub fn as_str(&self) -> (r: Option<&str>)
        ensures
            r matches Some(s) ==> self@.as_str() == Some(s@),
            r is None ==> self@.as_str() is None,
    {
        match self {
            Json::Str(s) => Some(s.as_str()),
            _ => None,
        }
    }

    /// The items of an array.
    pub fn as_array(&self) -> (r: Option<&Vec<Json>>)
        ensures
            r matches Some(items) ==> self@.as_array() == Some(list_view(items@)),
            r is None ==> self@.as_array() is None,
    {
        match self {
            Json::Array(items) => {
                assert(self@->Array_0 =~= list_view(items@));
                Some(items)
            },
            _ => None,
        }
    }

    /// The truth value of a boolean.
    pub fn as_bool(&self) -> (r: Option<bool>)
        ensures
            r == self@.as_bool(),
    {
        match self {
            Json::Bool(b) => Some(*b),
            _ => None,
        }
    }

    /// An integer that fits in 64 bits without a sign.
    pub fn as_u64(&self) -> (r: Option<u64>)
        ensures
            r == self@.as_u64(),
    {
        match self {
            Json::Number(n) => n.as_u64(),
            _ => None,
        }
    }

    /// An integer that fits in 64 bits with a sign.
    pub fn as_i64(&self) -> (r: Option<i64>)
        ensures
            r == self@.as_i64(),
    {
        match self {
            Json::Number(n) => n.as_i64(),
            _ => None,
        }
    }

    /// The text of an object's member that is a string.
    pub fn get_str(&self, key: &str) -> (r: Option<&str>)
        ensures
            r matches Some(s) ==> self@.get_str(key@) == Some(s@),
            r is None ==> self@.get_str(key@) is None,
    {
        match self.get(key) {
            Some(v) => v.as_str(),
            None => None,
        }
    }

    /// The items of an object's member that is an array.
    pub fn get_array(&self, key: &str) -> (r: Option<&Vec<Json>>)
        ensures
            r matches Some(items) ==> self@.get_array(key@) == Some(list_view(items@)),
            r is None ==> self@.get_array(key@) is None,
    {
        match self.get(key) {
            Some(v) => v.as_array(),
            None => None,
        }
    }

    /// The truth value of an object's member, or false where it has none.
    pub fn get_flag(&self, key: &str) -> (r: bool)
        ensures
            r == self@.get_flag(key@),
    {
        match self.get(key) {
            Some(Json::Bool(b)) => *b,
            _ => false,
        }
    }

    /// Whether an object's member is a certain string.
    pub fn member_is(&self, key: &str, text: &str) -> (r: bool)
        ensures
            r == (self@.get_str(key@) == Some(text@)),
    {
        match self.get_str(key) {
            Some(s) => text::same_text(s, text),
            None => false,
        }
    }

    /// The value that serde_json holds.
    pub fn from_value(value: serde_json::Value) -> (r: Json)
        ensures
            r@ == value_model(value),
        decreases value_model(value),
    {
        let ghost model = value_model(value);
        match open_value(value) {
            ValueParts::Null => Json::Null,
            ValueParts::Bool(b) => Json::Bool(b),
            ValueParts::Number(n) => Json::Number(n),
            ValueParts::Str(s) => Json::Str(s),
            ValueParts::Array(items) => {
                let ghost all = items@;
                let mut out: Vec<Json> = Vec::new();
                for item in it: items
                    invariant
                        it.seq() == all,
                        out@.len() == it.index(),
                        model == value_model(value),
                        model is Array,
                        model->Array_0 == all.map_values(
                            |v: serde_json::Value| value_model(v),
                        ),
                        forall|j: int|
                            0 <= j < it.index() ==> json_view(#[trigger] out@[j]) == value_model(
                                all[j],
                            ),
                {
                    assert(model->Array_0[it.index() as int] == value_model(item));
                    assert(decreases_to!(model => model->Array_0));
                    out.push(Json::from_value(item));
                }
                let r = Json::Array(out);
                assert(r@->Array_0 =~= model->Array_0);
                r
            },
            ValueParts::Object(members) => {
                let ghost all = members@;
                let mut out: Vec<(String, Json)> = Vec::new();
                for member in it: members
                    invariant
                        it.seq() == all,
                        out@.len() == it.index(),
                        model == value_model(value),
                        model is Object,
                        model->Object_0 == members_model(all),
                        distinct_keys(all),
                        entries_view(out@) == members_model(all.take(it.index() as int)),
                {
                    let ghost i = it.index() as int;
                    let ghost before = out@;
                    proof {
                        lemma_members_model(all, i);
                        lemma_members_finite(all);
                        assert(decreases_to!(model => model->Object_0));
                        assert(decreases_to!(model->Object_0 => model->Object_0[member.0@]));
                    }
                    out.push((member.0, Json::from_value(member.1)));
                    assert(out@.drop_last() =~= before);
                    assert(all.take(i + 1).drop_last() =~= all.take(i));
                }
                assert(all.take(all.len() as int) =~= all);
                Json::Object(JsonMap { entries: out })
            },
        }
    }

    /// The value for serde_json to hold.
    pub fn to_value(&self) -> (r: serde_json::Value)
        ensures
            value_model(r) == self@,
        decreases self,
    {
        let parts = match self {
            Json::Null => ValueParts::Null,
            Json::Bool(b) => ValueParts::Bool(*b),
            Json::Number(n) => ValueParts::Number(n.clone()),
            Json::Str(s) => ValueParts::Str(s.clone()),
            Json::Array(items) => {
                let mut out: Vec<serde_json::Value> = Vec::new();
                for i in 0..items.len()
                    invariant
                        out@.len() == i,
                        forall|j: int|
                            0 <= j < i ==> value_model(#[trigger] out@[j]) == json_view(items@[j]),
                        self is Array,
                        *items == self->Array_0,
                {
                    assert(decreases_to!(self => self->Array_0));
                    out.push(items[i].to_value());
                }
                let parts = ValueParts::Array(out);
                assert(parts_model(parts)->Array_0 =~= self@->Array_0);
                parts
            },
            Json::Object(map) => {
                let mut out: Vec<(String, serde_json::Value)> = Vec::new();
                for i in 0..map.entries.len()
                    invariant
                        distinct_keys(out@),
                        members_model(out@) == entries_view(map.entries@.take(i as int)),
                        self is Object,
                        *map == self->Object_0,
                {
                    assert(decreases_to!(self => self->Object_0));
                    assert(decreases_to!(self->Object_0 => self->Object_0.entries));
                    put_member(&mut out, map.entries[i].0.as_str(), map.entries[i].1.to_value());
                    assert(map.entries@.take(i + 1).drop_last() =~= map.entries@.take(i as int));
                }
                assert(map.entries@.take(map.entries.len() as int) =~= map.entries@);
                ValueParts::Object(out)
            },
        };
        close_value(parts)
    }

    /// The value that a JSON text stands for, or why it stands for none.
    pub fn parse(text: &str) -> (r: Result<Json, String>)
        ensures
            r matches Ok(j) ==> parsed_json(text@) == Parsed::Value(j@),
            r matches Err(e) ==> parsed_json(text@) == Parsed::Failure(e@),
    {
        match value_from_str(text) {
            Ok(v) => Ok(Json::from_value(v)),
            Err(e) => Err(e),
        }
    }

    /// The value that the bytes of a JSON text stand for.
    pub fn parse_bytes(bytes: &[u8]) -> (r: Option<Json>)
        ensures
            option_view(r) == parsed_json_bytes(bytes@),
    {
        match value_from_slice(bytes) {
            Some(v) => Some(Json::from_value(v)),
            None => None,
        }
    }

    /// The compact text that the value displays as.
    pub fn display(&self) -> (r: String)
        ensures
            r@ == json_display(self@),
    {
        value_display(&self.to_value())
    }

    /// The compact JSON text of the value.
    pub fn encode(&self) -> (r: String)
        ensures
            r@ == json_encoding(self@),
            !r@.contains('\n'),
            self@ is Object ==> r@.len() >= 2 && r@[0] == '{' && r@.last() == '}',
            exact_within(self@, parse_depth()) ==> parsed_json(r@) == Parsed::Value(self@),
    {
        value_to_string(&self.to_value()).unwrap()
    }

    /// The indented JSON text of the value.
    pub fn encode_pretty(&self) -> (r: Vec<u8>)
        ensures
            r@ == json_pretty(self@),
            self@ matches JsonV::Object(m) ==> exact_members(m, (parse_depth() - 1) as nat)
                ==> parsed_members(r@) == Some(m),
    {
        value_to_vec_pretty(&self.to_value()).unwrap()
    }
}

impl JsonMap {
    /// The members of the object that the bytes of a JSON text stand for.
    pub fn parse(bytes: &[u8]) -> (r: Option<JsonMap>)
        ensures
            parsed_members(bytes@) == match r {
                Some(map) => Some(map@),
                None => None,
            },
    {
        let members = match members_from_slice(bytes) {
            Some(members) => members,
            None => {
                return None;
            },
        };
        let ghost all = members@;
        let mut out: Vec<(String, Json)> = Vec::new();
        for member in it: members
            invariant
                it.seq() == all,
                out@.len() == it.index(),
                entries_view(out@) == members_model(all.take(it.index() as int)),
        {
            let ghost i = it.index() as int;
            let ghost before = out@;
            out.push((member.0, Json::from_value(member.1)));
            assert(out@.drop_last() =~= before);
            assert(all.take(i + 1).drop_last() =~= all.take(i));
        }
        assert(all.take(all.len() as int) =~= all);
        Some(JsonMap { entries: out })
    }
}

/// A member that is set can be read, and one that is taken out cannot; every other
/// member stays as it is.
pub proof fn law_members_are_set_one_by_one(
    v: JsonV,
    key: Seq<char>,
    value: JsonV,
    other: Seq<char>,
)
    requires
        v is Object || v is Null,
        other != key,
    ensures
        v.with(key, value).get(key) == Some(value),
        v.with(key, value).get(other) == v.get(other),
        v.without(key).get(key) is None,
        v.without(key).get(other) == v.get(other),
        JsonV::empty_object().get(key) is None,
{
}

/// A value that is no object has no members, and an object has those of its map.
pub proof fn law_only_objects_have_members(m: Map<Seq<char>, JsonV>, v: JsonV, key: Seq<char>)
    requires
        !(v is Object),
    ensures
        JsonV::Object(m).get(key) is Some <==> m.contains_key(key),
        m.contains_key(key) ==> JsonV::Object(m).get(key) == Some(m[key]),
        v.get(key) is None,
{
}

/// A member is read as text, as a list or as a flag if and only if it is one.
pub proof fn law_members_are_read_as_they_are(
    v: JsonV,
    key: Seq<char>,
    s: Seq<char>,
    items: Seq<JsonV>,
)
    ensures
        v.get_str(key) == Some(s) <==> v.get(key) == Some(JsonV::Str(s)),
        v.get_array(key) == Some(items) <==> v.get(key) == Some(JsonV::Array(items)),
        v.get_flag(key) <==> v.get(key) == Some(JsonV::Bool(true)),
{
}

/// An integer is read as itself where it fits.
pub proof fn law_integers_are_read_as_they_are(i: int)
    ensures
        0 <= i <= u64::MAX ==> JsonV::integer(i).as_u64() == Some(i as u64),
        !(0 <= i <= u64::MAX) ==> JsonV::integer(i).as_u64() is None,
        i64::MIN <= i <= i64::MAX ==> JsonV::integer(i).as_i64() == Some(i as i64),
        !(i64::MIN <= i <= i64::MAX) ==> JsonV::integer(i).as_i64() is None,
{
}

/// A list stands for what its items stand for, each at its place.
pub proof fn law_lists_stand_for_their_items(items: Seq<Json>, i: int)
    requires
        0 <= i < items.len(),
    ensures
        list_view(items).len() == items.len(),
        list_view(items)[i] == items[i]@,
{
}

/// One entry more of an object is a member under its key, in place of any that was
/// there.
pub proof fn law_later_entries_count(
    entries: Seq<(String, Json)>,
    entry: (String, Json),
)
    ensures
        entries_view(seq![]) == Map::<Seq<char>, JsonV>::empty(),
        entries_view(entries.push(entry)) == entries_view(entries).insert(entry.0@, entry.1@),
{
    assert(entries.push(entry).drop_last() =~= entries);
}

} // verus!
