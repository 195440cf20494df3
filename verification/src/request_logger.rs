//! What is logged of requests and replies, and where.
use crate::headers;
use crate::headers::{FieldV, HeaderField};
use crate::ids;
use crate::json;
use crate::json::{Json, JsonV};
use crate::paths;
use crate::text;
use axum::http::HeaderMap;
use std::path::PathBuf;
use vstd::prelude::*;

verus! {

/// What is logged in place of a secret.
pub const REDACTED: &'static str = "***REDACTED***";

/// Whether a header of this name holds a secret.
pub open spec fn sensitive(name: Seq<char>) -> bool {
    let l = text::lowered(name);
    ||| l == "authorization"@
    ||| l == "cookie"@
    ||| l == "set-cookie"@
    ||| l == "x-api-key"@
    ||| l == "api-key"@
    ||| l == "openai-api-key"@
    ||| l == "proxy-authorization"@
}

/// Whether a header of this name holds a secret.
pub fn is_sensitive(name: &str) -> (r: bool)
    ensures
        r == sensitive(name@),
{
    let lower = text::to_ascii_lowercase(name);
    let l = lower.as_str();
    text::same_text(l, "authorization") || text::same_text(l, "cookie") || text::same_text(
        l,
        "set-cookie",
    ) || text::same_text(l, "x-api-key") || text::same_text(l, "api-key") || text::same_text(
        l,
        "openai-api-key",
    ) || text::same_text(l, "proxy-authorization")
}

/// What is logged of a header's value.
pub open spec fn logged_value(field: FieldV) -> Seq<char> {
    if sensitive(field.name) {
        REDACTED@
    } else {
        match field.value {
            Some(s) => s,
            None => "<non-utf8>"@,
        }
    }
}

/// What is logged of headers: the values of each name one after the other.
pub open spec fn logged_headers(fields: Seq<FieldV>) -> Map<Seq<char>, Seq<char>>
    decreases fields.len(),
{
    if fields.len() == 0 {
        Map::empty()
    } else {
        let before = logged_headers(fields.drop_last());
        let name = fields.last().name;
        let value = logged_value(fields.last());
        if before.contains_key(name) {
            before.insert(name, before[name] + ", "@ + value)
        } else {
            before.insert(name, value)
        }
    }
}

/// Two lists of headers that differ in nothing but secrets.
pub open spec fn same_but_for_secrets(a: Seq<FieldV>, b: Seq<FieldV>) -> bool {
    &&& a.len() == b.len()
    &&& forall|i: int|
        0 <= i < a.len() ==> (#[trigger] a[i]).name == b[i].name && (sensitive(a[i].name)
            || a[i].value == b[i].value)
}

/// Nothing of a secret is logged: what is logged is the same whatever the
/// secrets are.
pub proof fn law_secrets_are_not_logged(a: Seq<FieldV>, b: Seq<FieldV>)
    requires
        same_but_for_secrets(a, b),
    ensures
        logged_headers(a) == logged_headers(b),
    decreases a.len(),
{
    if a.len() > 0 {
        let x = a.drop_last();
        let y = b.drop_last();
        assert forall|i: int| 0 <= i < x.len() implies (#[trigger] x[i]).name == y[i].name && (
        sensitive(x[i].name) || x[i].value == y[i].value) by {
            assert(a[i].name == b[i].name);
        }
        law_secrets_are_not_logged(x, y);
        assert(a[a.len() - 1].name == b[a.len() - 1].name);
    }
}

/// Each header is logged under its name, and nothing else is.
pub proof fn law_every_header_is_logged(fields: Seq<FieldV>, name: Seq<char>)
    ensures
        logged_headers(fields).contains_key(name) <==> headers::named(fields, name),
    decreases fields.len(),
{
    if fields.len() > 0 {
        let rest = fields.drop_last();
        law_every_header_is_logged(rest, name);
        if headers::named(rest, name) {
            let i = choose|i: int| 0 <= i < rest.len() && (#[trigger] rest[i]).name == name;
            assert(fields[i].name == name);
        }
        if headers::named(fields, name) && fields.last().name != name {
            let i = choose|i: int| 0 <= i < fields.len() && (#[trigger] fields[i]).name == name;
            assert(rest[i].name == name);
        }
        assert(fields[fields.len() - 1] == fields.last());
    }
}

/// What a list of names and texts stands for.
pub open spec fn pairs_view(pairs: Seq<(String, String)>) -> Map<Seq<char>, Seq<char>>
    decreases pairs.len(),
{
    if pairs.len() == 0 {
        Map::empty()
    } else {
        pairs_view(pairs.drop_last()).insert(pairs.last().0@, pairs.last().1@)
    }
}

/// Whether no name comes twice.
pub open spec fn distinct_names(pairs: Seq<(String, String)>) -> bool {
    forall|i: int, j: int|
        0 <= i < j < pairs.len() ==> (#[trigger] pairs[i]).0@ != (#[trigger] pairs[j]).0@
}

proof fn lemma_pair(pairs: Seq<(String, String)>, name: Seq<char>)
    requires
        distinct_names(pairs),
    ensures
        pairs_view(pairs).contains_key(name) <==> exists|i: int|
            0 <= i < pairs.len() && (#[trigger] pairs[i]).0@ == name,
        forall|i: int|
            0 <= i < pairs.len() && (#[trigger] pairs[i]).0@ == name ==> pairs_view(pairs)[name]
                == pairs[i].1@,
    decreases pairs.len(),
{
    if pairs.len() > 0 {
        let rest = pairs.drop_last();
        assert forall|i: int, j: int| 0 <= i < j < rest.len() implies (#[trigger] rest[i]).0@ != (
        #[trigger] rest[j]).0@ by {
            assert(pairs[i].0@ != pairs[j].0@);
        }
        lemma_pair(rest, name);
        assert forall|i: int| 0 <= i < pairs.len() && (#[trigger] pairs[i]).0@ == name implies (
        pairs_view(pairs)[name] == pairs[i].1@ && pairs_view(pairs).contains_key(name)) by {
            if i < rest.len() {
                assert(rest[i].0@ == name);
                assert(pairs[i].0@ != pairs[pairs.len() - 1].0@);
            }
        }
        if pairs_view(pairs).contains_key(name) {
            if pairs.last().0@ == name {
                assert(pairs[pairs.len() - 1].0@ == name);
            } else {
                let i = choose|i: int| 0 <= i < rest.len() && (#[trigger] rest[i]).0@ == name;
                assert(pairs[i].0@ == name);
            }
        }
    }
}

proof fn lemma_pair_update(pairs: Seq<(String, String)>, k: int, pair: (String, String))
    requires
        distinct_names(pairs),
        0 <= k < pairs.len(),
        pair.0@ == pairs[k].0@,
    ensures
        distinct_names(pairs.update(k, pair)),
        pairs_view(pairs.update(k, pair)) == pairs_view(pairs).insert(pair.0@, pair.1@),
    decreases pairs.len(),
{
    let after = pairs.update(k, pair);
    assert forall|i: int, j: int| 0 <= i < j < after.len() implies (#[trigger] after[i]).0@ != (
    #[trigger] after[j]).0@ by {
        assert(pairs[i].0@ != pairs[j].0@);
    }
    let rest = pairs.drop_last();
    if k == pairs.len() - 1 {
        assert(after.drop_last() =~= rest);
        assert(pairs_view(after) =~= pairs_view(pairs).insert(pair.0@, pair.1@));
    } else {
        assert forall|i: int, j: int| 0 <= i < j < rest.len() implies (#[trigger] rest[i]).0@ != (
        #[trigger] rest[j]).0@ by {
            assert(pairs[i].0@ != pairs[j].0@);
        }
        lemma_pair_update(rest, k, pair);
        assert(after.drop_last() =~= rest.update(k, pair));
        assert(pairs[k].0@ != pairs[pairs.len() - 1].0@);
        assert(pairs_view(after) =~= pairs_view(pairs).insert(pair.0@, pair.1@));
    }
}

fn add_header(pairs: &mut Vec<(String, String)>, name: &str, value: &str)
    requires
        distinct_names(old(pairs)@),
    ensures
        distinct_names(final(pairs)@),
        pairs_view(final(pairs)@) == {
            let before = pairs_view(old(pairs)@);
            if before.contains_key(name@) {
                before.insert(name@, before[name@] + ", "@ + value@)
            } else {
                before.insert(name@, value@)
            }
        },
{
    let ghost before = pairs@;
    let mut i: usize = 0;
    while i < pairs.len()
        invariant
            i <= pairs@.len(),
            pairs@ == before,
            before == old(pairs)@,
            distinct_names(before),
            forall|j: int| 0 <= j < i ==> (#[trigger] before[j]).0@ != name@,
        decreases pairs@.len() - i,
    {
        if text::same_text(pairs[i].0.as_str(), name) {
            let longer = text::concat3(pairs[i].1.as_str(), ", ", value);
            let pair = (name.to_owned(), longer);
            proof {
                assert(before[i as int].0@ == name@);
                lemma_pair(before, name@);
                lemma_pair_update(before, i as int, pair);
            }
            pairs.set(i, pair);
            return;
        }
        i += 1;
    }
    pairs.push((name.to_owned(), value.to_owned()));
    proof {
        lemma_pair(before, name@);
        let after = pairs@;
        assert(after.drop_last() =~= before);
        assert forall|a: int, b: int| 0 <= a < b < after.len() implies (#[trigger] after[a]).0@ != (
        #[trigger] after[b]).0@ by {
            if b < before.len() {
                assert(before[a].0@ != before[b].0@);
            } else {
                assert(before[a].0@ != name@);
            }
        }
    }
}

/// What is logged of a list of headers: each name once.
pub fn record_headers(fields: &Vec<HeaderField>) -> (r: Vec<(String, String)>)
    ensures
        distinct_names(r@),
        pairs_view(r@) == logged_headers(headers::field_views(fields@)),
{
    let mut r: Vec<(String, String)> = Vec::new();
    let ghost all = headers::field_views(fields@);
    assert(all.take(0) =~= seq![]);
    for i in 0..fields.len()
        invariant
            all == headers::field_views(fields@),
            distinct_names(r@),
            pairs_view(r@) == logged_headers(all.take(i as int)),
    {
        let field = &fields[i];
        assert(all[i as int] == field@);
        assert(all.take(i + 1).drop_last() =~= all.take(i as int));
        let value = if is_sensitive(field.name.as_str()) {
            REDACTED
        } else {
            match &field.value {
                Some(s) => s.as_str(),
                None => "<non-utf8>",
            }
        };
        add_header(&mut r, field.name.as_str(), value);
    }
    assert(all.take(all.len() as int) =~= all);
    r
}

/// What is logged of headers: each name once.
pub fn headers_to_map(headers: &HeaderMap) -> (r: Vec<(String, String)>)
    ensures
        distinct_names(r@),
        pairs_view(r@) == logged_headers(headers::header_fields(*headers)),
{
    record_headers(&headers::list_headers(headers))
}

/// A YAML value as serde_yaml holds it.
#[verifier::external_type_specification]
#[verifier::external_body]
pub struct ExYaml(serde_yaml::Value);

/// What a YAML value without tags is, in JSON's terms.
pub uninterp spec fn yaml_model(value: serde_yaml::Value) -> JsonV;

/// `serde_yaml::to_value` of a JSON value: the same value.  Serializing a JSON
/// value cannot fail, and gives no tags: strings, keys among them, stay strings.
#[verifier::external_body]
fn yaml_from_json(value: &serde_json::Value) -> (r: Option<serde_yaml::Value>)
    ensures
        r is Some,
        r matches Some(y) ==> yaml_model(y) == json::value_model(*value),
{
    serde_yaml::to_value(value).ok()
}

/// `serde_yaml::Value::String`: that text.
#[verifier::external_body]
fn yaml_text(s: String) -> (r: serde_yaml::Value)
    ensures
        yaml_model(r) == JsonV::Str(s@),
{
    serde_yaml::Value::String(s)
}

/// `serde_yaml::Value::Null`: nothing.
#[verifier::external_body]
fn yaml_null() -> (r: serde_yaml::Value)
    ensures
        yaml_model(r) == JsonV::Null,
{
    serde_yaml::Value::Null
}

/// What is logged of a body: its JSON value, or else its text, or else how long
/// it is.
pub open spec fn logged_body(bytes: Seq<u8>) -> JsonV {
    if bytes.len() == 0 {
        JsonV::Null
    } else {
        match json::parsed_json_bytes(bytes) {
            Some(v) => v,
            None => if vstd::utf8::valid_utf8(bytes) {
                JsonV::Str(vstd::utf8::decode_utf8(bytes))
            } else {
                JsonV::Str("<"@ + text::decimal(bytes.len()) + " bytes of binary data>"@)
            },
        }
    }
}

/// What is logged of a body.
pub fn body_to_value(bytes: &[u8]) -> (r: serde_yaml::Value)
    ensures
        yaml_model(r) == logged_body(bytes@),
{
    if bytes.len() == 0 {
        return yaml_null();
    }
    if let Some(json) = Json::parse_bytes(bytes) {
        if let Some(yaml) = yaml_from_json(&json.to_value()) {
            return yaml;
        }
    }
    match core::str::from_utf8(bytes) {
        Ok(s) => yaml_text(s.to_owned()),
        Err(_) => {
            let n: u64 = bytes.len() as u64;
            yaml_text(
                text::concat3("<", text::decimal_text(n).as_str(), " bytes of binary data>"),
            )
        },
    }
}

/// A number in decimal, with zeros before it up to a width.
pub open spec fn padded(n: nat, width: nat) -> Seq<char> {
    let digits = text::decimal(n);
    if digits.len() >= width {
        digits
    } else {
        Seq::new((width - digits.len()) as nat, |i: int| '0') + digits
    }
}

/// A local date and time.
#[derive(Debug, Clone, Copy, PartialEq, Eq)]
pub struct LocalTime {
    pub year: i32,
    pub month: u32,
    pub day: u32,
    pub hour: u32,
    pub minute: u32,
    pub second: u32,
    /// At least a thousand million in a leap second.
    pub nano: u32,
}

/// Whether a year is a leap year.
pub open spec fn leap_year(year: int) -> bool {
    year % 4 == 0 && (year % 100 != 0 || year % 400 == 0)
}

/// How many days a month has.
pub open spec fn month_days(year: int, month: int) -> int {
    if month == 2 {
        if leap_year(year) {
            29
        } else {
            28
        }
    } else if month == 4 || month == 6 || month == 9 || month == 11 {
        30
    } else {
        31
    }
}

/// Whether there is such a date, in the years that chrono knows.
pub open spec fn is_date(year: i32, month: u32, day: u32) -> bool {
    -262143 <= year <= 262142 && 1 <= month <= 12 && 1 <= day <= month_days(
        year as int,
        month as int,
    )
}

/// Whether there is such a time of day.
pub open spec fn is_time(hour: u32, minute: u32, second: u32, nano: u32) -> bool {
    hour < 24 && minute < 60 && second < 60 && nano < if second == 59 {
        2_000_000_000int
    } else {
        1_000_000_000int
    }
}

/// A year as chrono writes it: with a sign where it has not four digits.
pub open spec fn year_text(year: int) -> Seq<char> {
    if 0 <= year <= 9999 {
        padded(year as nat, 4)
    } else if year > 0 {
        "+"@ + padded(year as nat, 4)
    } else {
        "-"@ + padded((-year) as nat, 4)
    }
}

/// A date as the directory of a day is named.
pub open spec fn date_text(year: int, month: nat, day: nat) -> Seq<char> {
    year_text(year) + "-"@ + padded(month, 2) + "-"@ + padded(day, 2)
}

/// A time of day as a log file is named.
pub open spec fn time_text(hour: nat, minute: nat, second: nat, nano: nat) -> Seq<char> {
    padded(hour, 2) + padded(minute, 2) + padded(second + nano / 1_000_000_000, 2) + "-"@ + padded(
        nano / 1_000_000 % 1000,
        3,
    )
}

/// `NaiveDate::from_ymd_opt` and `format`: a date in the form `%Y-%m-%d`, if
/// there is such a date.
#[verifier::external_body]
fn format_date(year: i32, month: u32, day: u32, form: &str) -> (r: Option<String>)
    requires
        form@ == "%Y-%m-%d"@,
    ensures
        r is Some <==> is_date(year, month, day),
        r matches Some(t) ==> t@ == date_text(year as int, month as nat, day as nat),
{
    chrono::NaiveDate::from_ymd_opt(year, month, day).map(|date| date.format(form).to_string())
}

/// `NaiveTime::from_hms_nano_opt` and `format`: a time of day in the form
/// `%H%M%S-%3f`, if there is such a time.
#[verifier::external_body]
fn format_time(hour: u32, minute: u32, second: u32, nano: u32, form: &str) -> (r: Option<String>)
    requires
        form@ == "%H%M%S-%3f"@,
    ensures
        r is Some <==> is_time(hour, minute, second, nano),
        r matches Some(t) ==> t@ == time_text(
            hour as nat,
            minute as nat,
            second as nat,
            nano as nat,
        ),
{
    chrono::NaiveTime::from_hms_nano_opt(hour, minute, second, nano).map(
        |time| time.format(form).to_string(),
    )
}

/// The characters that the names of logs are made of.
pub open spec fn log_char(c: char) -> bool {
    text::is_digit(c) || 'a' <= c <= 'z' || c == '-' || c == '+' || c == '.'
}

/// Whether a text is made of such characters.
pub open spec fn log_chars(s: Seq<char>) -> bool {
    forall|i: int| 0 <= i < s.len() ==> log_char(#[trigger] s[i])
}

proof fn lemma_decimal_chars(n: nat)
    ensures
        log_chars(text::decimal(n)),
        text::decimal(n).len() > 0,
    decreases n,
{
    if n >= 10 {
        lemma_decimal_chars(n / 10);
    }
}

proof fn lemma_padded_chars(n: nat, width: nat)
    ensures
        log_chars(padded(n, width)),
        padded(n, width).len() >= width,
        padded(n, width).len() > 0,
{
    lemma_decimal_chars(n);
}

proof fn lemma_log_name(name: Seq<char>)
    requires
        log_chars(name),
        name.len() > 2,
    ensures
        paths::entry_name(name),
{
    if name.contains('/') {
        let i = choose|i: int| 0 <= i < name.len() && name[i] == '/';
        assert(log_char(name[i]));
    }
    if name.contains('\\') {
        let i = choose|i: int| 0 <= i < name.len() && name[i] == '\\';
        assert(log_char(name[i]));
    }
    if name.contains(':') {
        let i = choose|i: int| 0 <= i < name.len() && name[i] == ':';
        assert(log_char(name[i]));
    }
    assert(seq!['.'].len() == 1);
    assert(seq!['.', '.'].len() == 2);
}

proof fn lemma_date_name(year: int, month: nat, day: nat)
    ensures
        paths::entry_name(date_text(year, month, day)),
{
    reveal_strlit("-");
    reveal_strlit("+");
    lemma_padded_chars(
        if year >= 0 {
            year as nat
        } else {
            (-year) as nat
        },
        4,
    );
    lemma_padded_chars(month, 2);
    lemma_padded_chars(day, 2);
    let t = date_text(year, month, day);
    assert(log_chars(year_text(year)));
    assert(log_chars(t));
    lemma_log_name(t);
}

proof fn lemma_time_chars(hour: nat, minute: nat, second: nat, nano: nat)
    ensures
        log_chars(time_text(hour, minute, second, nano)),
        time_text(hour, minute, second, nano).len() > 2,
{
    reveal_strlit("-");
    lemma_padded_chars(hour, 2);
    lemma_padded_chars(minute, 2);
    lemma_padded_chars(second + nano / 1_000_000_000, 2);
    lemma_padded_chars(nano / 1_000_000 % 1000, 3);
}

/// The time of day of a local time as a log file is named.
pub open spec fn log_stem(when: LocalTime) -> Seq<char> {
    time_text(when.hour as nat, when.minute as nat, when.second as nat, when.nano as nat)
}

/// The directory that the logs of a day are written to, if there is such a day.
pub fn log_day_dir(base: &PathBuf, when: LocalTime) -> (r: Option<PathBuf>)
    ensures
        r is Some <==> is_date(when.year, when.month, when.day),
        r matches Some(dir) ==> paths::path_components(dir) == paths::path_components(*base).push(
            date_text(when.year as int, when.month as nat, when.day as nat),
        ),
{
    match format_date(when.year, when.month, when.day, "%Y-%m-%d") {
        Some(name) => {
            proof {
                lemma_date_name(when.year as int, when.month as nat, when.day as nat);
            }
            Some(paths::join_path(base, name.as_str()))
        },
        None => None,
    }
}

/// The name of a log file: its time of day, then part of an identifier where
/// one is given.
pub open spec fn log_file_name(when: LocalTime, uuid: Option<Seq<char>>) -> Seq<char> {
    match uuid {
        Some(u) => log_stem(when) + "-"@ + u.take(8) + ".yml"@,
        None => log_stem(when) + ".yml"@,
    }
}

/// The path of a log file in the directory of its day, if there is such a time.
pub fn log_file_path(day_dir: &PathBuf, when: LocalTime, uuid: Option<&str>) -> (r: Option<PathBuf>)
    requires
        uuid matches Some(u) ==> ids::uuid_form(u@),
    ensures
        r is Some <==> is_time(when.hour, when.minute, when.second, when.nano),
        r matches Some(path) ==> paths::path_components(path) == paths::path_components(
            *day_dir,
        ).push(
            log_file_name(
                when,
                match uuid {
                    Some(u) => Some(u@),
                    None => None,
                },
            ),
        ),
{
    let stem = match format_time(when.hour, when.minute, when.second, when.nano, "%H%M%S-%3f") {
        Some(stem) => stem,
        None => {
            return None;
        },
    };
    proof {
        reveal_strlit("-");
        reveal_strlit(".yml");
        lemma_time_chars(
            when.hour as nat,
            when.minute as nat,
            when.second as nat,
            when.nano as nat,
        );
    }
    let name = match uuid {
        Some(u) => {
            let short = ids::short_form(u);
            assert(log_chars(short@)) by {
                assert forall|i: int| 0 <= i < short@.len() implies log_char(
                    #[trigger] short@[i],
                ) by {
                    assert(short@[i] == u@[i]);
                }
            }
            text::concat3(stem.as_str(), "-", short).concat(".yml")
        },
        None => stem.concat(".yml"),
    };
    proof {
        assert(log_chars(name@));
        lemma_log_name(name@);
    }
    Some(paths::join_path(day_dir, name.as_str()))
}

/// The path of a log file where the one that its time gives is taken: part of a
/// fresh identifier tells them apart.
pub fn other_log_file_path(day_dir: &PathBuf, when: LocalTime) -> (r: Option<PathBuf>)
    ensures
        r is Some <==> is_time(when.hour, when.minute, when.second, when.nano),
        r matches Some(path) ==> exists|uuid: Seq<char>|
            ids::uuid_form(uuid) && paths::path_components(path) == paths::path_components(
                *day_dir,
            ).push(#[trigger] log_file_name(when, Some(uuid))),
{
    let uuid = ids::fresh_uuid();
    let r = log_file_path(day_dir, when, Some(uuid.as_str()));
    assert(ids::uuid_form(uuid@));
    assert(r matches Some(path) ==> paths::path_components(path) == paths::path_components(
        *day_dir,
    ).push(log_file_name(when, Some(uuid@))));
    r
}

/// Whether a name is one under which credentials come, however its letters are
/// written.
pub open spec fn names_credentials(name: Seq<char>) -> bool {
    seq![
        "authorization"@,
        "cookie"@,
        "set-cookie"@,
        "x-api-key"@,
        "api-key"@,
        "openai-api-key"@,
        "proxy-authorization"@,
    ].contains(text::lowered(name))
}

/// What is logged of a header that brings credentials is that there was one; of any
/// other its value is logged as it stands.
pub proof fn law_values_are_logged_but_for_credentials(field: FieldV)
    ensures
        names_credentials(field.name) ==> logged_value(field) == "***REDACTED***"@,
        !names_credentials(field.name) ==> (field.value matches Some(s) ==> logged_value(field) == s),
        !names_credentials(field.name) && field.value is None ==> logged_value(field)
            == "<non-utf8>"@,
{
    let names = seq![
        "authorization"@,
        "cookie"@,
        "set-cookie"@,
        "x-api-key"@,
        "api-key"@,
        "openai-api-key"@,
        "proxy-authorization"@,
    ];
    assert(names.contains(names[0]) && names.contains(names[1]) && names.contains(names[2])
        && names.contains(names[3]) && names.contains(names[4]) && names.contains(names[5])
        && names.contains(names[6]));
}

/// One header more is logged behind the values that its name has already, if it has
/// any, and changes nothing under any other name.
pub proof fn law_headers_are_logged_one_by_one(
    fields: Seq<FieldV>,
    field: FieldV,
    other: Seq<char>,
)
    requires
        other != field.name,
    ensures
        logged_headers(seq![]) == Map::<Seq<char>, Seq<char>>::empty(),
        ({
            let before = logged_headers(fields);
            let after = logged_headers(fields.push(field));
            &&& after.contains_key(field.name)
            &&& before.contains_key(field.name) ==> after[field.name] == before[field.name] + ", "@
                + logged_value(field)
            &&& !before.contains_key(field.name) ==> after[field.name] == logged_value(field)
            &&& after.contains_key(other) <==> before.contains_key(other)
            &&& before.contains_key(other) ==> after[other] == before[other]
        }),
{
    assert(fields.push(field).drop_last() =~= fields);
}

/// A body is logged as the JSON value that it is, else as its text, else by its
/// length alone; an empty one as nothing.
pub proof fn law_bodies_are_logged_in_full(bytes: Seq<u8>, v: JsonV, text: Seq<char>)
    ensures
        logged_body(seq![]) == JsonV::Null,
        bytes.len() > 0 && json::parsed_json_bytes(bytes) == Some(v) ==> logged_body(bytes) == v,
        text.len() > 0 && json::parsed_json_bytes(vstd::utf8::encode_utf8(text)) is None
            ==> logged_body(vstd::utf8::encode_utf8(text)) == JsonV::Str(text),
        bytes.len() > 0 && json::parsed_json_bytes(bytes) is None && !vstd::utf8::valid_utf8(bytes)
            ==> logged_body(bytes) == JsonV::Str(
            "<"@ + text::decimal(bytes.len()) + " bytes of binary data>"@,
        ),
{
    vstd::utf8::encode_utf8_valid_utf8(text);
    vstd::utf8::encode_utf8_decode_utf8(text);
    if text.len() > 0 {
        assert(vstd::utf8::encode_scalar(text[0] as u32).len() > 0);
    }
}

/// A number is padded with nothing but zeros, at its head, and to no more than the
/// width.
pub proof fn law_numbers_are_padded_with_zeros(n: nat, width: nat)
    ensures
        ({
            let p = padded(n, width);
            let digits = text::decimal(n);
            &&& p.len() >= width
            &&& p.len() == width || p == digits
            &&& p.skip(p.len() - digits.len()) == digits
            &&& forall|i: int| 0 <= i < p.len() - digits.len() ==> p[i] == '0'
        }),
{
    let p = padded(n, width);
    let digits = text::decimal(n);
    assert(p.skip(p.len() - digits.len()) =~= digits);
}

/// The name of a log file begins with its time of day and ends with `.yml`; part of
/// an identifier, where one is given, stands between them behind a hyphen.
pub proof fn law_names_of_logs(when: LocalTime, uuid: Seq<char>)
    ensures
        log_file_name(when, None) == time_text(
            when.hour as nat,
            when.minute as nat,
            when.second as nat,
            when.nano as nat,
        ) + ".yml"@,
        log_file_name(when, Some(uuid)) == time_text(
            when.hour as nat,
            when.minute as nat,
            when.second as nat,
            when.nano as nat,
        ) + "-"@ + uuid.take(8) + ".yml"@,
{
}

} // verus!
