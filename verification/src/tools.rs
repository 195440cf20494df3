//! The tools that a client offers, as the upstream service takes them.
use crate::json::{self, Json, JsonMap, JsonV};
use crate::text;
use vstd::prelude::*;

verus! {

/// Whether a schema says that it describes an object.
pub open spec fn says_object(m: Map<Seq<char>, JsonV>) -> bool {
    m.contains_key("type"@) && m["type"@] == JsonV::Str("object"@)
}

/// A schema in which every object schema lists its properties and allows no
/// others; properties and array items are schemas in turn.
pub open spec fn strict_schema(v: JsonV) -> JsonV
    decreases v,
{
    match v {
        JsonV::Object(m) => {
            let listed = if m.contains_key("properties"@) {
                m
            } else {
                m.insert("properties"@, JsonV::empty_object())
            };
            let sealed = if says_object(m) {
                listed.insert("additionalProperties"@, JsonV::Bool(false))
            } else {
                m
            };
            let inside = if m.contains_key("properties"@) && m["properties"@] is Object {
                sealed.insert(
                    "properties"@,
                    JsonV::Object(strict_members(m["properties"@])),
                )
            } else {
                sealed
            };
            if m.contains_key("items"@) {
                JsonV::Object(inside.insert("items"@, strict_schema(m["items"@])))
            } else {
                JsonV::Object(inside)
            }
        },
        other => other,
    }
}

/// The members of an object, each a schema made strict.
pub open spec fn strict_members(v: JsonV) -> Map<Seq<char>, JsonV>
    decreases v,
{
    match v {
        JsonV::Object(p) => Map::new(
            |k: Seq<char>| p.contains_key(k),
            |k: Seq<char>|
                if p.contains_key(k) {
                    strict_schema(p[k])
                } else {
                    JsonV::Null
                },
        ),
        _ => Map::empty(),
    }
}

/// Whether every object schema in a schema lists its properties and allows no
/// others.
pub open spec fn sealed_throughout(v: JsonV) -> bool
    decreases v,
{
    match v {
        JsonV::Object(m) => {
            &&& says_object(m) ==> m.contains_key("properties"@) && m.contains_key(
                "additionalProperties"@,
            ) && m["additionalProperties"@] == JsonV::Bool(false)
            &&& m.contains_key("properties"@) ==> members_sealed(m["properties"@])
            &&& m.contains_key("items"@) ==> sealed_throughout(m["items"@])
        },
        _ => true,
    }
}

/// Whether that holds of every member of an object.
pub open spec fn members_sealed(v: JsonV) -> bool
    decreases v,
{
    match v {
        JsonV::Object(p) => forall|k: Seq<char>|
            #![trigger p[k]]
            p.contains_key(k) ==> sealed_throughout(p[k]),
        _ => true,
    }
}

proof fn lemma_keys_differ()
    ensures
        "type"@ != "properties"@,
        "type"@ != "additionalProperties"@,
        "type"@ != "items"@,
        "properties"@ != "additionalProperties"@,
        "properties"@ != "items"@,
        "additionalProperties"@ != "items"@,
{
    reveal_strlit("type");
    reveal_strlit("properties");
    reveal_strlit("additionalProperties");
    reveal_strlit("items");
    assert("type"@.len() == 4 && "properties"@.len() == 10 && "additionalProperties"@.len() == 20
        && "items"@.len() == 5);
}

/// A schema made strict is sealed throughout.
pub proof fn law_strict_schema_is_sealed(v: JsonV)
    ensures
        sealed_throughout(strict_schema(v)),
    decreases v,
{
    lemma_keys_differ();
    if let JsonV::Object(m) = v {
        if m.contains_key("properties"@) && m["properties"@] is Object {
            law_strict_members_are_sealed(m["properties"@]);
        }
        if m.contains_key("items"@) {
            law_strict_schema_is_sealed(m["items"@]);
        }
        let n = strict_schema(v)->Object_0;
        if n.contains_key("properties"@) && !(m.contains_key("properties"@) && m["properties"@] is Object) {
            assert(members_sealed(n["properties"@]));
        }
    }
}

/// So is each member of an object whose members are made strict.
pub proof fn law_strict_members_are_sealed(v: JsonV)
    ensures
        members_sealed(JsonV::Object(strict_members(v))),
    decreases v,
{
    if let JsonV::Object(p) = v {
        let q = strict_members(v);
        assert forall|k: Seq<char>| #![trigger q[k]] q.contains_key(k) implies sealed_throughout(
            q[k],
        ) by {
            law_strict_schema_is_sealed(p[k]);
        }
    }
}

/// A sealed schema is strict as it is.
pub proof fn law_strict_schema_keeps_sealed(v: JsonV)
    requires
        sealed_throughout(v),
    ensures
        strict_schema(v) == v,
    decreases v,
{
    lemma_keys_differ();
    if let JsonV::Object(m) = v {
        if m.contains_key("properties"@) && m["properties"@] is Object {
            let p = m["properties"@]->Object_0;
            let q = strict_members(m["properties"@]);
            assert(members_sealed(m["properties"@]));
            assert forall|k: Seq<char>| #[trigger] p.contains_key(k) implies q[k] == p[k] by {
                assert(sealed_throughout(p[k]));
                law_strict_schema_keeps_sealed(p[k]);
            }
            assert(q =~= p);
        }
        if m.contains_key("items"@) {
            law_strict_schema_keeps_sealed(m["items"@]);
        }
        assert(strict_schema(v)->Object_0 =~= m);
    }
}

/// Making a schema strict twice is making it strict once.
pub proof fn law_strict_schema_is_idempotent(v: JsonV)
    ensures
        strict_schema(strict_schema(v)) == strict_schema(v),
{
    law_strict_schema_is_sealed(v);
    law_strict_schema_keeps_sealed(strict_schema(v));
}

fn strict_map(members: &JsonMap) -> (r: JsonMap)
    ensures
        r@ == strict_members(JsonV::Object(members@)),
    decreases members,
{
    let mut out: Vec<(String, Json)> = Vec::new();
    assert(strict_members(JsonV::Object(json::entries_view(members.entries@.take(0))))
        =~= Map::empty());
    for i in 0..members.entries.len()
        invariant
            json::entries_view(out@) == strict_members(
                JsonV::Object(json::entries_view(members.entries@.take(i as int))),
            ),
    {
        let ghost before = out@;
        let ghost m = json::entries_view(members.entries@.take(i as int));
        assert(decreases_to!(*members => members.entries));
        let strict = strict_value(&members.entries[i].1);
        out.push((members.entries[i].0.clone(), strict));
        proof {
            let k = members.entries@[i as int].0@;
            let v = members.entries@[i as int].1@;
            assert(out@.drop_last() =~= before);
            assert(members.entries@.take(i + 1).drop_last() =~= members.entries@.take(i as int));
            assert(strict_members(JsonV::Object(m.insert(k, v))) =~= strict_members(
                JsonV::Object(m),
            ).insert(k, strict_schema(v)));
        }
    }
    assert(members.entries@.take(members.entries@.len() as int) =~= members.entries@);
    JsonMap { entries: out }
}

fn strict_value(schema: &Json) -> (r: Json)
    ensures
        r@ == strict_schema(schema@),
    decreases schema,
{
    match schema {
        Json::Object(map) => {
            assert(decreases_to!(*schema => schema->Object_0));
            let mut out = map.clone();
            if schema.member_is("type", "object") {
                if map.get("properties").is_none() {
                    out.insert("properties", Json::object());
                }
                out.insert("additionalProperties", Json::Bool(false));
            }
            if let Some(properties) = map.get("properties") {
                if let Json::Object(members) = properties {
                    assert(decreases_to!(*properties => properties->Object_0));
                    out.insert("properties", Json::Object(strict_map(members)));
                }
            }
            if let Some(items) = map.get("items") {
                out.insert("items", strict_value(items));
            }
            Json::Object(out)
        },
        other => other.clone(),
    }
}

/// Makes a schema strict.
pub fn add_strict_object_schema_flags(schema: &mut Json)
    ensures
        final(schema)@ == strict_schema(old(schema)@),
{
    let strict = strict_value(schema);
    *schema = strict;
}

/// The schema of an object without properties.
pub open spec fn no_parameters() -> JsonV {
    JsonV::empty_object().with("type"@, JsonV::Str("object"@)).with(
        "properties"@,
        JsonV::empty_object(),
    )
}

/// A value with a member, unless it has one under that key.
pub open spec fn with_default(v: JsonV, key: Seq<char>, value: JsonV) -> JsonV {
    if v.get(key) is None {
        v.with(key, value)
    } else {
        v
    }
}

/// A tool's parameters as a strict object schema.
pub open spec fn normalized_parameters(v: JsonV) -> JsonV {
    if v is Object {
        strict_schema(
            with_default(
                with_default(v, "type"@, JsonV::Str("object"@)),
                "properties"@,
                JsonV::empty_object(),
            ),
        )
    } else {
        no_parameters().with("additionalProperties"@, JsonV::Bool(false))
    }
}

/// A tool's parameters as a strict object schema.
pub fn normalize_tool_parameters(parameters: Json) -> (r: Json)
    ensures
        r@ == normalized_parameters(parameters@),
{
    let is_object = match &parameters {
        Json::Object(_) => true,
        _ => false,
    };
    if !is_object {
        return Json::object().with("type", Json::text("object")).with(
            "properties",
            Json::object(),
        ).with("additionalProperties", Json::Bool(false));
    }
    let mut schema = parameters;
    if schema.get("type").is_none() {
        schema.set("type", Json::text("object"));
    }
    if schema.get("properties").is_none() {
        schema.set("properties", Json::object());
    }
    add_strict_object_schema_flags(&mut schema);
    schema
}

/// Whether a tool is one that clients do not get to offer.
pub open spec fn sensitive_client_tool(name: Seq<char>) -> bool {
    name == "location-get-current-location"@
}

/// Whether a tool is one that clients do not get to offer.
pub fn is_sensitive_client_tool(name: &str) -> (r: bool)
    ensures
        r == sensitive_client_tool(name@),
{
    text::same_text(name, "location-get-current-location")
}

/// The function that a tool describes: under `function`, or the tool itself.
pub open spec fn tool_function(tool: JsonV) -> JsonV {
    match tool.get("function"@) {
        Some(f) => f,
        None => tool,
    }
}

/// The name of a tool, if it has one that can be offered.
pub open spec fn tool_name(tool: JsonV) -> Option<Seq<char>> {
    match tool_function(tool).get_str("name"@) {
        Some(s) => {
            let name = text::trimmed(s);
            if name.len() == 0 || name == "null"@ || sensitive_client_tool(name) {
                None
            } else {
                Some(name)
            }
        },
        None => None,
    }
}

/// The parameters that a tool describes.
pub open spec fn tool_parameters(tool: JsonV) -> JsonV {
    match tool_function(tool).get("parameters"@) {
        Some(p) => p,
        None => no_parameters(),
    }
}

/// A tool as the upstream service takes it, if it can be offered.
pub open spec fn mapped_tool(tool: JsonV) -> Option<JsonV> {
    match tool_name(tool) {
        Some(name) => Some(
            JsonV::empty_object().with("type"@, JsonV::Str("function"@)).with(
                "name"@,
                JsonV::Str(name),
            ).with("parameters"@, normalized_parameters(tool_parameters(tool))).with(
                "strict"@,
                JsonV::Bool(true),
            ),
        ),
        None => None,
    }
}

/// The tools that can be offered, as the upstream service takes them.
pub open spec fn mapped_tools(tools: Seq<JsonV>) -> Seq<JsonV>
    decreases tools.len(),
{
    if tools.len() == 0 {
        seq![]
    } else {
        let rest = mapped_tools(tools.drop_last());
        match mapped_tool(tools.last()) {
            Some(t) => rest.push(t),
            None => rest,
        }
    }
}

/// A tool as the upstream service takes it, if it can be offered.
pub fn map_tool(tool: &Json) -> (r: Option<Json>)
    ensures
        json::option_view(r) == mapped_tool(tool@),
{
    let function = match tool.get("function") {
        Some(f) => f,
        None => tool,
    };
    let name = match function.get_str("name") {
        Some(s) => text::trim(s),
        None => {
            return None;
        },
    };
    if name.is_empty() || text::same_text(name, "null") || is_sensitive_client_tool(name) {
        return None;
    }
    let parameters = match function.get("parameters") {
        Some(p) => p.clone(),
        None => Json::object().with("type", Json::text("object")).with(
            "properties",
            Json::object(),
        ),
    };
    Some(
        Json::object().with("type", Json::text("function")).with("name", Json::text(name)).with(
            "parameters",
            normalize_tool_parameters(parameters),
        ).with("strict", Json::Bool(true)),
    )
}

/// The tools that can be offered, as the upstream service takes them.
pub fn map_tools(tools: &Vec<Json>) -> (r: Vec<Json>)
    ensures
        json::list_view(r@) == mapped_tools(json::list_view(tools@)),
{
    let mut r: Vec<Json> = Vec::new();
    let ghost all = json::list_view(tools@);
    assert(json::list_view(r@) =~= mapped_tools(all.take(0)));
    for i in 0..tools.len()
        invariant
            all == json::list_view(tools@),
            json::list_view(r@) == mapped_tools(all.take(i as int)),
    {
        let ghost before = json::list_view(r@);
        assert(all.take(i + 1).drop_last() =~= all.take(i as int));
        if let Some(t) = map_tool(&tools[i]) {
            r.push(t);
            assert(json::list_view(r@) =~= before.push(t@));
        }
    }
    assert(all.take(tools@.len() as int) =~= all);
    r
}

/// Parameters are a sealed schema, whatever the client sends.
pub proof fn law_normalized_parameters_are_sealed(v: JsonV)
    ensures
        normalized_parameters(v) is Object,
        sealed_throughout(normalized_parameters(v)),
{
    lemma_keys_differ();
    if v is Object {
        law_strict_schema_is_sealed(
            with_default(
                with_default(v, "type"@, JsonV::Str("object"@)),
                "properties"@,
                JsonV::empty_object(),
            ),
        );
    } else {
        let m = normalized_parameters(v)->Object_0;
        assert(members_sealed(m["properties"@]));
    }
}

proof fn lemma_tool_keys()
    ensures
        "type"@ != "name"@,
        "type"@ != "parameters"@,
        "type"@ != "strict"@,
        "name"@ != "parameters"@,
        "name"@ != "strict"@,
        "parameters"@ != "strict"@,
{
    reveal_strlit("type");
    reveal_strlit("name");
    reveal_strlit("parameters");
    reveal_strlit("strict");
    assert("type"@[0] == 't' && "type"@.len() == 4);
    assert("name"@[0] == 'n' && "name"@.len() == 4);
    assert("parameters"@.len() == 10 && "strict"@.len() == 6);
}

/// Every tool that is offered upstream is a strict function with a sealed schema
/// and a name, and the name is not one that clients do not get to offer.
pub proof fn law_offered_tools_are_strict(tools: Seq<JsonV>, i: int)
    requires
        0 <= i < mapped_tools(tools).len(),
    ensures
        ({
            let tool = mapped_tools(tools)[i];
            &&& tool.get("type"@) == Some(JsonV::Str("function"@))
            &&& tool.get("strict"@) == Some(JsonV::Bool(true))
            &&& tool.get("parameters"@) matches Some(p) && sealed_throughout(p)
            &&& tool.get_str("name"@) matches Some(name) && name.len() > 0
                && !sensitive_client_tool(name)
        }),
    decreases tools.len(),
{
    lemma_tool_keys();
    let rest = mapped_tools(tools.drop_last());
    if i < rest.len() {
        law_offered_tools_are_strict(tools.drop_last(), i);
    } else {
        law_normalized_parameters_are_sealed(tool_parameters(tools.last()));
    }
}

/// Making a schema strict keeps every member but those that are schemas in turn,
/// whose own members are kept in the same way, and the one that forbids other
/// properties, which an object schema gets in any case.
pub proof fn law_strict_schema_keeps_members(v: JsonV, key: Seq<char>, property: Seq<char>)
    ensures
        !(v is Object) ==> strict_schema(v) == v,
        v is Object ==> strict_schema(v) is Object,
        key != "properties"@ && key != "additionalProperties"@ && key != "items"@ ==> strict_schema(
            v,
        ).get(key) == v.get(key),
        v.get("type"@) == Some(JsonV::Str("object"@)) ==> strict_schema(v).get(
            "additionalProperties"@,
        ) == Some(JsonV::Bool(false)),
        v.get("type"@) != Some(JsonV::Str("object"@)) ==> strict_schema(v).get(
            "additionalProperties"@,
        ) == v.get("additionalProperties"@),
        v.get("items"@) is None ==> strict_schema(v).get("items"@) is None,
        v.get("items"@) matches Some(items) ==> strict_schema(v).get("items"@) == Some(
            strict_schema(items),
        ),
        v.get("properties"@) is None && v.get("type"@) == Some(JsonV::Str("object"@))
            ==> strict_schema(v).get("properties"@) == Some(JsonV::Object(Map::empty())),
        v.get("properties"@) is None && v.get("type"@) != Some(JsonV::Str("object"@))
            ==> strict_schema(v).get("properties"@) is None,
        v.get("properties"@) matches Some(p) ==> {
            let q = strict_schema(v).get("properties"@);
            &&& q is Some
            &&& !(p is Object) ==> q == Some(p)
            &&& p is Object ==> q->0 is Object
            &&& p is Object ==> (p.get(property) is Some <==> q->0.get(property) is Some)
            &&& p.get(property) matches Some(schema) ==> q->0.get(property) == Some(
                strict_schema(schema),
            )
        },
{
    lemma_keys_differ();
    if let JsonV::Object(m) = v {
        if m.contains_key("properties"@) && m["properties"@] is Object {
            let p = m["properties"@]->Object_0;
            let q = strict_members(m["properties"@]);
            assert(q.contains_key(property) <==> p.contains_key(property));
            assert(p.contains_key(property) ==> q[property] == strict_schema(p[property]));
        }
    }
}

/// Parameters that are an object keep every member that the client gave, with its
/// value, but for the schemas in them, which are made strict, and the one that
/// forbids other properties; what says that they are an object and lists its
/// properties is added where it is missing.
pub proof fn law_normalized_parameters_keep_members(
    v: JsonV,
    key: Seq<char>,
    property: Seq<char>,
)
    requires
        v is Object,
    ensures
        ({
            let n = normalized_parameters(v);
            &&& key != "type"@ && key != "properties"@ && key != "additionalProperties"@ && key
                != "items"@ ==> n.get(key) == v.get(key)
            &&& v.get("type"@) is Some ==> n.get("type"@) == v.get("type"@)
            &&& v.get("type"@) is None ==> n.get("type"@) == Some(JsonV::Str("object"@))
            &&& n.get("type"@) == Some(JsonV::Str("object"@)) ==> n.get("additionalProperties"@)
                == Some(JsonV::Bool(false))
            &&& n.get("type"@) != Some(JsonV::Str("object"@)) ==> n.get("additionalProperties"@)
                == v.get("additionalProperties"@)
            &&& v.get("properties"@) is None ==> n.get("properties"@) == Some(
                JsonV::Object(Map::empty()),
            )
            &&& v.get("properties"@) matches Some(p) ==> {
                &&& !(p is Object) ==> n.get("properties"@) == Some(p)
                &&& p is Object ==> (n.get("properties"@) matches Some(q) && q is Object && (p.get(
                    property,
                ) is Some <==> q.get(property) is Some))
                &&& p.get(property) matches Some(schema) ==> n.get("properties"@)->0.get(property)
                    == Some(strict_schema(schema))
            }
            &&& v.get("items"@) matches Some(items) ==> n.get("items"@) == Some(
                strict_schema(items),
            )
            &&& v.get("items"@) is None ==> n.get("items"@) is None
        }),
{
    lemma_keys_differ();
    let a = with_default(v, "type"@, JsonV::Str("object"@));
    let b = with_default(a, "properties"@, JsonV::empty_object());
    law_strict_schema_keeps_members(b, key, property);
    if v.get("properties"@) is None {
        let empty = JsonV::empty_object();
        assert(strict_members(empty) =~= Map::<Seq<char>, JsonV>::empty());
    }
}

/// Parameters that are no object give way to those of a function without any.
pub proof fn law_other_parameters_give_way(v: JsonV, key: Seq<char>)
    requires
        !(v is Object),
    ensures
        normalized_parameters(v).get("type"@) == Some(JsonV::Str("object"@)),
        normalized_parameters(v).get("properties"@) == Some(JsonV::Object(Map::empty())),
        normalized_parameters(v).get("additionalProperties"@) == Some(JsonV::Bool(false)),
        key != "type"@ && key != "properties"@ && key != "additionalProperties"@
            ==> normalized_parameters(v).get(key) is None,
{
    lemma_keys_differ();
}

/// A tool whose function has a name that can be offered is offered under that name,
/// without the white space around it, and with the function's own parameters;
/// nothing else of it is sent.
pub proof fn law_named_tools_are_offered(
    tool: JsonV,
    function: JsonV,
    before: Seq<char>,
    name: Seq<char>,
    after: Seq<char>,
    key: Seq<char>,
)
    requires
        tool.get("function"@) == Some(function) || (tool.get("function"@) is None && function
            == tool),
        function.get("name"@) == Some(JsonV::Str(before + name + after)),
        forall|i: int| 0 <= i < before.len() ==> text::white_space(#[trigger] before[i]),
        forall|i: int| 0 <= i < after.len() ==> text::white_space(#[trigger] after[i]),
        name.len() > 0,
        !text::white_space(name[0]),
        !text::white_space(name.last()),
        name != "null"@,
        name != "location-get-current-location"@,
    ensures
        mapped_tool(tool) matches Some(offered) && {
            &&& offered.get("type"@) == Some(JsonV::Str("function"@))
            &&& offered.get("name"@) == Some(JsonV::Str(name))
            &&& offered.get("strict"@) == Some(JsonV::Bool(true))
            &&& function.get("parameters"@) matches Some(p) ==> offered.get("parameters"@) == Some(
                normalized_parameters(p),
            )
            &&& function.get("parameters"@) is None ==> (offered.get("parameters"@) matches Some(p)
                && p.get("type"@) == Some(JsonV::Str("object"@)) && p.get("properties"@) == Some(
                JsonV::Object(Map::empty()),
            ) && p.get("additionalProperties"@) == Some(JsonV::Bool(false)))
            &&& key != "type"@ && key != "name"@ && key != "parameters"@ && key != "strict"@
                ==> offered.get(key) is None
        },
{
    lemma_tool_keys();
    lemma_keys_differ();
    text::law_trimming_keeps_the_text(before, name, after);
    law_normalized_parameters_keep_members(no_parameters(), key, key);
    assert(no_parameters()->Object_0["properties"@] == JsonV::empty_object());
    assert(strict_members(JsonV::empty_object()) =~= Map::<Seq<char>, JsonV>::empty());
}

/// A tool without a name, or with one that cannot be offered, is not offered.
pub proof fn law_nameless_tools_are_not_offered(tool: JsonV, function: JsonV)
    requires
        tool.get("function"@) == Some(function) || (tool.get("function"@) is None && function
            == tool),
    ensures
        !(function.get("name"@) matches Some(JsonV::Str(_))) ==> mapped_tool(tool) is None,
        (function.get("name"@) matches Some(JsonV::Str(name)) && ((forall|i: int|
            0 <= i < name.len() ==> text::white_space(#[trigger] name[i])) || name == "null"@
            || name == "location-get-current-location"@)) ==> mapped_tool(tool) is None,
{
    if let Some(JsonV::Str(name)) = function.get("name"@) {
        text::law_blank_texts(name);
        reveal_strlit("null");
        reveal_strlit("location-get-current-location");
        let a = "null"@;
        let b = "location-get-current-location"@;
        assert(a.len() == 4 && a[0] == 'n' && a[3] == 'l');
        assert(b.len() == 29 && b[0] == 'l' && b[28] == 'n');
        text::law_trimming_keeps_the_text(seq![], a, seq![]);
        text::law_trimming_keeps_the_text(seq![], b, seq![]);
        assert(seq![] + a + seq![] =~= a);
        assert(seq![] + b + seq![] =~= b);
    }
}

/// One tool more is offered behind those before it, where it can be offered, and
/// changes nothing where it cannot.
pub proof fn law_tools_are_offered_in_order(tools: Seq<JsonV>, tool: JsonV)
    ensures
        mapped_tools(seq![]).len() == 0,
        mapped_tool(tool) matches Some(offered) ==> mapped_tools(tools.push(tool)) == mapped_tools(
            tools,
        ).push(offered),
        mapped_tool(tool) is None ==> mapped_tools(tools.push(tool)) == mapped_tools(tools),
{
    assert(tools.push(tool).drop_last() =~= tools);
}

} // verus!
