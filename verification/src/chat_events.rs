//! From the upstream service's events to pieces of a chat completion.
use crate::ids;
use crate::json::{self, Json, JsonV};
use crate::models::{ChoiceV, DeltaV, EventV, ResponseChoice, ResponseDelta, ResponseEvent};
use vstd::prelude::*;

verus! {

/// The first of two texts that is there.
pub open spec fn either(a: Option<Seq<char>>, b: Option<Seq<char>>) -> Option<Seq<char>> {
    if a is Some {
        a
    } else {
        b
    }
}

/// A text, or another where it is missing.
pub open spec fn text_or(a: Option<Seq<char>>, b: Seq<char>) -> Seq<char> {
    match a {
        Some(s) => s,
        None => b,
    }
}

/// The text of a member of a value that may be missing.
pub open spec fn text_in(v: Option<JsonV>, key: Seq<char>) -> Option<Seq<char>> {
    match v {
        Some(v) => v.get_str(key),
        None => None,
    }
}

/// The text of a value that may be missing.
pub open spec fn text_of(v: Option<JsonV>) -> Option<Seq<char>> {
    match v {
        Some(v) => v.as_str(),
        None => None,
    }
}

/// The first item of a list.
pub open spec fn first_item(items: Option<Seq<JsonV>>) -> Option<JsonV> {
    match items {
        Some(s) => if s.len() > 0 {
            Some(s[0])
        } else {
            None
        },
        None => None,
    }
}

/// The output items of the response that an event brings.
pub open spec fn response_output(event: JsonV) -> Option<Seq<JsonV>> {
    match event.get("response"@) {
        Some(response) => response.get_array("output"@),
        None => None,
    }
}

/// What a list of output items says.
pub enum OutputContent {
    /// A function is called.
    Call,
    /// A message says this.
    Text(Seq<char>),
    /// Neither.
    Nothing,
}

/// What the first of the items that calls a function or is a message with text
/// says.
pub open spec fn output_content(items: Seq<JsonV>) -> OutputContent
    decreases items.len(),
{
    if items.len() == 0 {
        OutputContent::Nothing
    } else if items[0].get_str("type"@) == Some("function_call"@) {
        OutputContent::Call
    } else if items[0].get_str("type"@) == Some("message"@) && message_text(items[0]) is Some {
        OutputContent::Text(message_text(items[0])->0)
    } else {
        output_content(items.drop_first())
    }
}

/// The text of the first part of a message.
pub open spec fn message_text(item: JsonV) -> Option<Seq<char>> {
    text_in(first_item(item.get_array("content"@)), "text"@)
}

/// The text of an event of the Chat Completions kind.
pub open spec fn choice_text(event: JsonV) -> Option<Seq<char>> {
    match first_item(event.get_array("choices"@)) {
        Some(choice) => either(
            text_in(choice.get("delta"@), "content"@),
            text_in(choice.get("message"@), "content"@),
        ),
        None => None,
    }
}

/// The text of a member that holds its text under `content` or is the text.
pub open spec fn content_or_self(event: JsonV, key: Seq<char>) -> Option<Seq<char>> {
    either(text_in(event.get(key), "content"@), text_of(event.get(key)))
}

/// The text of an event's delta.
pub open spec fn delta_text(event: JsonV) -> Option<Seq<char>> {
    either(
        text_of(event.get("delta"@)),
        either(text_in(event.get("delta"@), "content"@), text_in(event.get("delta"@), "text"@)),
    )
}

/// The text that an event outside a response's output brings: the first of the
/// places where one stands.
pub open spec fn loose_text(event: JsonV) -> Option<Seq<char>> {
    either(
        choice_text(event),
        either(
            event.get_str("content"@),
            either(
                content_or_self(event, "message"@),
                either(
                    content_or_self(event, "response"@),
                    either(event.get_str("text"@), delta_text(event)),
                ),
            ),
        ),
    )
}

/// The text that an event brings.
pub open spec fn event_text(event: JsonV) -> Option<Seq<char>> {
    match response_output(event) {
        Some(items) => match output_content(items) {
            OutputContent::Call => None,
            OutputContent::Text(s) => Some(s),
            OutputContent::Nothing => loose_text(event),
        },
        None => loose_text(event),
    }
}

fn owned(s: Option<&str>) -> (r: Option<String>)
    ensures
        r is Some <==> s is Some,
        s matches Some(t) ==> json::option_text(r) == Some(t@),
{
    match s {
        Some(t) => Some(t.to_owned()),
        None => None,
    }
}

fn member_text<'a>(v: &'a Json, outer: &str, inner: &str) -> (r: Option<&'a str>)
    ensures
        r matches Some(s) ==> text_in(v@.get(outer@), inner@) == Some(s@),
        r is None ==> text_in(v@.get(outer@), inner@) is None,
{
    match v.get(outer) {
        Some(m) => m.get_str(inner),
        None => None,
    }
}

fn message_text_of(item: &Json) -> (r: Option<&str>)
    ensures
        r matches Some(s) ==> message_text(item@) == Some(s@),
        r is None ==> message_text(item@) is None,
{
    match item.get_array("content") {
        Some(parts) => if parts.len() > 0 {
            parts[0].get_str("text")
        } else {
            None
        },
        None => None,
    }
}

fn choice_text_of(event: &Json) -> (r: Option<&str>)
    ensures
        r matches Some(s) ==> choice_text(event@) == Some(s@),
        r is None ==> choice_text(event@) is None,
{
    if let Some(choices) = event.get_array("choices") {
        if choices.len() > 0 {
            let choice = &choices[0];
            if let Some(s) = member_text(choice, "delta", "content") {
                return Some(s);
            }
            return member_text(choice, "message", "content");
        }
    }
    None
}

fn content_or_self_of<'a>(event: &'a Json, key: &str) -> (r: Option<&'a str>)
    ensures
        r matches Some(s) ==> content_or_self(event@, key@) == Some(s@),
        r is None ==> content_or_self(event@, key@) is None,
{
    match event.get(key) {
        Some(v) => match v.get_str("content") {
            Some(s) => Some(s),
            None => v.as_str(),
        },
        None => None,
    }
}

fn delta_text_of(event: &Json) -> (r: Option<&str>)
    ensures
        r matches Some(s) ==> delta_text(event@) == Some(s@),
        r is None ==> delta_text(event@) is None,
{
    match event.get("delta") {
        Some(delta) => {
            if let Some(s) = delta.as_str() {
                return Some(s);
            }
            if let Some(s) = delta.get_str("content") {
                return Some(s);
            }
            delta.get_str("text")
        },
        None => None,
    }
}

fn loose_text_of(event: &Json) -> (r: Option<&str>)
    ensures
        r matches Some(s) ==> loose_text(event@) == Some(s@),
        r is None ==> loose_text(event@) is None,
{
    if let Some(s) = choice_text_of(event) {
        return Some(s);
    }
    if let Some(s) = event.get_str("content") {
        return Some(s);
    }
    if let Some(s) = content_or_self_of(event, "message") {
        return Some(s);
    }
    if let Some(s) = content_or_self_of(event, "response") {
        return Some(s);
    }
    if let Some(s) = event.get_str("text") {
        return Some(s);
    }
    delta_text_of(event)
}

/// The text that an event brings.
pub fn extract_content_from_chatgpt_response(event: &Json) -> (r: Option<String>)
    ensures
        json::option_text(r) == event_text(event@),
{
    if let Some(response) = event.get("response") {
        if let Some(output) = response.get_array("output") {
            let ghost all = json::list_view(output@);
            assert(all.skip(0) =~= all);
            for i in 0..output.len()
                invariant
                    all == json::list_view(output@),
                    response_output(event@) == Some(all),
                    output_content(all) == output_content(all.skip(i as int)),
            {
                let item = &output[i];
                let ghost rest = all.skip(i as int);
                assert(rest[0] == item@);
                assert(rest.drop_first() =~= all.skip(i + 1));
                if item.member_is("type", "function_call") {
                    return None;
                }
                if item.member_is("type", "message") {
                    if let Some(s) = message_text_of(item) {
                        return Some(s.to_owned());
                    }
                }
            }
            assert(output_content(all.skip(output@.len() as int)) is Nothing);
        }
    }
    owned(loose_text_of(event))
}

/// The first item that calls a function.
pub open spec fn first_call(items: Seq<JsonV>) -> Option<JsonV>
    decreases items.len(),
{
    if items.len() == 0 {
        None
    } else if items[0].get_str("type"@) == Some("function_call"@) {
        Some(items[0])
    } else {
        first_call(items.drop_first())
    }
}

/// The function call that an event brings, in its response's output.
pub open spec fn response_call(event: JsonV) -> Option<JsonV> {
    match response_output(event) {
        Some(items) => first_call(items),
        None => None,
    }
}

/// The kind of object that a piece of a completion is.
pub open spec fn chunk_object() -> Seq<char> {
    "chat.completion.chunk"@
}

/// The identifier of a piece of a completion: the event's, or a fresh one.
pub open spec fn event_id(event: JsonV, uuid: Seq<char>) -> Seq<char> {
    text_or(event.get_str("id"@), "chatcmpl-"@ + uuid.take(8))
}

/// When a piece of a completion was made: as the event says, or now.
pub open spec fn event_created(event: JsonV, now: i64) -> i64 {
    match event.get("created"@) {
        Some(v) => match v.as_i64() {
            Some(t) => t,
            None => now,
        },
        None => now,
    }
}

/// A list of one function call, as chat clients take it.
pub open spec fn tool_calls(call_id: Seq<char>, index: int, item: JsonV) -> JsonV {
    JsonV::Array(
        seq![
            JsonV::empty_object().with("id"@, JsonV::Str(call_id)).with(
                "type"@,
                JsonV::Str("function"@),
            ).with("index"@, JsonV::integer(index)).with(
                "function"@,
                JsonV::empty_object().with(
                    "name"@,
                    JsonV::Str(text_or(item.get_str("name"@), ""@)),
                ).with("arguments"@, JsonV::Str(text_or(item.get_str("arguments"@), ""@))),
            ),
        ],
    )
}

/// A piece of a completion with one choice.
pub open spec fn single_choice(
    id: Seq<char>,
    created: i64,
    model: Seq<char>,
    delta: DeltaV,
    finish_reason: Option<Seq<char>>,
) -> EventV {
    EventV {
        id,
        object: chunk_object(),
        created,
        model,
        choices: seq![ChoiceV { index: 0, delta, finish_reason }],
    }
}

/// What the assistant adds to an answer.
pub open spec fn assistant_delta(content: Option<Seq<char>>, calls: Option<JsonV>) -> DeltaV {
    DeltaV { role: Some("assistant"@), content, tool_calls: calls }
}

/// The position of an output item: as the event says, or the first.
pub open spec fn output_index(event: JsonV) -> u64 {
    match event.get("output_index"@) {
        Some(v) => match v.as_u64() {
            Some(i) => i,
            None => 0,
        },
        None => 0,
    }
}

/// The piece that a completed function call becomes.
pub open spec fn completed_call(
    event: JsonV,
    item: JsonV,
    now: i64,
    event_uuid: Seq<char>,
    call_uuid: Seq<char>,
) -> EventV {
    single_choice(
        event_id(event, event_uuid),
        now,
        text_or(event.get_str("model"@), "gpt-5"@),
        assistant_delta(
            None,
            Some(
                tool_calls(
                    text_or(
                        either(item.get_str("call_id"@), item.get_str("id"@)),
                        "call_"@ + call_uuid,
                    ),
                    output_index(event) as int,
                    item,
                ),
            ),
        ),
        Some("tool_calls"@),
    )
}

/// The piece that a function call in a response's output becomes.
pub open spec fn output_call(
    event: JsonV,
    item: JsonV,
    now: i64,
    event_uuid: Seq<char>,
    call_uuid: Seq<char>,
) -> EventV {
    single_choice(
        event_id(event, event_uuid),
        event_created(event, now),
        text_or(event.get_str("model"@), "gpt-4"@),
        assistant_delta(
            None,
            Some(
                tool_calls(text_or(item.get_str("call_id"@), "call_"@ + call_uuid), 0, item),
            ),
        ),
        None,
    )
}

/// The piece that any other event becomes: its text, or that the answer is
/// finished, or nothing.
pub open spec fn plain_piece(event: JsonV, now: i64, event_uuid: Seq<char>) -> EventV {
    let reason = event.get_str("finish_reason"@);
    EventV {
        id: event_id(event, event_uuid),
        object: chunk_object(),
        created: event_created(event, now),
        model: text_or(event.get_str("model"@), "gpt-4"@),
        choices: if event_text(event) is Some {
            seq![
                ChoiceV {
                    index: 0,
                    delta: assistant_delta(event_text(event), None),
                    finish_reason: reason,
                },
            ]
        } else if event.get("finish_reason"@) is Some {
            seq![
                ChoiceV {
                    index: 0,
                    delta: DeltaV { role: None, content: None, tool_calls: None },
                    finish_reason: reason,
                },
            ]
        } else {
            seq![]
        },
    }
}

/// Whether an event is a piece of a function call's arguments.
pub open spec fn arguments_event(event: JsonV) -> bool {
    event.get_str("type"@) == Some("response.function_call_arguments.delta"@) || event.get_str(
        "type"@,
    ) == Some("response.function_call_arguments.done"@)
}

/// The completed item of an event, if it is a function call.
pub open spec fn completed_call_item(event: JsonV) -> Option<JsonV> {
    match event.get("item"@) {
        Some(item) => if event.get_str("type"@) == Some("response.output_item.done"@)
            && item.get_str("type"@) == Some("function_call"@) {
            Some(item)
        } else {
            None
        },
        None => None,
    }
}

/// The piece of a chat completion that an event becomes.  Arguments of a
/// function call become none: the call is passed on when it is complete.
pub open spec fn event_piece(
    event: JsonV,
    now: i64,
    event_uuid: Seq<char>,
    call_uuid: Seq<char>,
) -> Option<EventV> {
    if arguments_event(event) {
        None
    } else if completed_call_item(event) is Some {
        Some(completed_call(event, completed_call_item(event)->0, now, event_uuid, call_uuid))
    } else if response_call(event) is Some {
        Some(output_call(event, response_call(event)->0, now, event_uuid, call_uuid))
    } else {
        Some(plain_piece(event, now, event_uuid))
    }
}

/// A piece that may be missing.
pub open spec fn piece_view(r: Option<ResponseEvent>) -> Option<EventV> {
    match r {
        Some(e) => Some(e@),
        None => None,
    }
}

fn text_or_of(s: Option<&str>, default: &str) -> (r: String)
    ensures
        s matches Some(t) ==> r@ == t@,
        s is None ==> r@ == default@,
{
    match s {
        Some(t) => t.to_owned(),
        None => default.to_owned(),
    }
}

fn event_id_of(event: &Json, uuid: &str) -> (r: String)
    requires
        uuid@.len() >= 8,
    ensures
        r@ == event_id(event@, uuid@),
{
    match event.get_str("id") {
        Some(s) => s.to_owned(),
        None => "chatcmpl-".to_owned().concat(ids::short_form(uuid)),
    }
}

fn event_created_of(event: &Json, now: i64) -> (r: i64)
    ensures
        r == event_created(event@, now),
{
    match event.get("created") {
        Some(v) => match v.as_i64() {
            Some(t) => t,
            None => now,
        },
        None => now,
    }
}

/// The position of an output item: as the event says, or the first.
pub fn output_index_of(event: &Json) -> (r: u64)
    ensures
        r == output_index(event@),
{
    match event.get("output_index") {
        Some(v) => match v.as_u64() {
            Some(i) => i,
            None => 0,
        },
        None => 0,
    }
}

fn tool_calls_of(call_id: &str, index: u64, item: &Json) -> (r: Json)
    ensures
        r@ == tool_calls(call_id@, index as int, item@),
{
    let function = Json::object().with(
        "name",
        Json::Str(text_or_of(item.get_str("name"), "")),
    ).with("arguments", Json::Str(text_or_of(item.get_str("arguments"), "")));
    let call = Json::object().with("id", Json::text(call_id)).with(
        "type",
        Json::text("function"),
    ).with("index", Json::unsigned(index)).with("function", function);
    let mut calls: Vec<Json> = Vec::new();
    calls.push(call);
    let r = Json::array(calls);
    assert(r@->Array_0 =~= tool_calls(call_id@, index as int, item@)->Array_0);
    r
}

fn single_choice_of(
    id: String,
    created: i64,
    model: String,
    delta: ResponseDelta,
    finish_reason: Option<String>,
) -> (r: ResponseEvent)
    ensures
        r@ == single_choice(id@, created, model@, delta@, json::option_text(finish_reason)),
{
    let mut choices: Vec<ResponseChoice> = Vec::new();
    choices.push(ResponseChoice { index: 0, delta, finish_reason });
    let r = ResponseEvent {
        id,
        object: "chat.completion.chunk".to_owned(),
        created,
        model,
        choices,
    };
    assert(r@.choices =~= single_choice(
        id@,
        created,
        model@,
        delta@,
        json::option_text(finish_reason),
    ).choices);
    r
}

fn completed_call_of(
    event: &Json,
    item: &Json,
    now: i64,
    event_uuid: &str,
    call_uuid: &str,
) -> (r: ResponseEvent)
    requires
        event_uuid@.len() >= 8,
    ensures
        r@ == completed_call(event@, item@, now, event_uuid@, call_uuid@),
{
    let call_id = match item.get_str("call_id") {
        Some(s) => s.to_owned(),
        None => match item.get_str("id") {
            Some(s) => s.to_owned(),
            None => "call_".to_owned().concat(call_uuid),
        },
    };
    let calls = tool_calls_of(call_id.as_str(), output_index_of(event), item);
    single_choice_of(
        event_id_of(event, event_uuid),
        now,
        text_or_of(event.get_str("model"), "gpt-5"),
        ResponseDelta {
            role: Some("assistant".to_owned()),
            content: None,
            tool_calls: Some(calls),
        },
        Some("tool_calls".to_owned()),
    )
}

fn output_call_of(
    event: &Json,
    item: &Json,
    now: i64,
    event_uuid: &str,
    call_uuid: &str,
) -> (r: ResponseEvent)
    requires
        event_uuid@.len() >= 8,
    ensures
        r@ == output_call(event@, item@, now, event_uuid@, call_uuid@),
{
    let call_id = match item.get_str("call_id") {
        Some(s) => s.to_owned(),
        None => "call_".to_owned().concat(call_uuid),
    };
    let calls = tool_calls_of(call_id.as_str(), 0, item);
    single_choice_of(
        event_id_of(event, event_uuid),
        event_created_of(event, now),
        text_or_of(event.get_str("model"), "gpt-4"),
        ResponseDelta {
            role: Some("assistant".to_owned()),
            content: None,
            tool_calls: Some(calls),
        },
        None,
    )
}

fn plain_piece_of(event: &Json, now: i64, event_uuid: &str) -> (r: ResponseEvent)
    requires
        event_uuid@.len() >= 8,
    ensures
        r@ == plain_piece(event@, now, event_uuid@),
{
    let content = extract_content_from_chatgpt_response(event);
    let finish_reason = owned(event.get_str("finish_reason"));
    let mut choices: Vec<ResponseChoice> = Vec::new();
    match content {
        Some(s) => {
            choices.push(
                ResponseChoice {
                    index: 0,
                    delta: ResponseDelta {
                        role: Some("assistant".to_owned()),
                        content: Some(s),
                        tool_calls: None,
                    },
                    finish_reason,
                },
            );
        },
        None => {
            if event.get("finish_reason").is_some() {
                choices.push(
                    ResponseChoice {
                        index: 0,
                        delta: ResponseDelta { role: None, content: None, tool_calls: None },
                        finish_reason,
                    },
                );
            }
        },
    }
    let r = ResponseEvent {
        id: event_id_of(event, event_uuid),
        object: "chat.completion.chunk".to_owned(),
        created: event_created_of(event, now),
        model: text_or_of(event.get_str("model"), "gpt-4"),
        choices,
    };
    assert(r@.choices =~= plain_piece(event@, now, event_uuid@).choices);
    r
}

fn first_call_in(items: &Vec<Json>) -> (r: Option<&Json>)
    ensures
        r matches Some(item) ==> first_call(json::list_view(items@)) == Some(item@),
        r is None ==> first_call(json::list_view(items@)) is None,
{
    let ghost all = json::list_view(items@);
    assert(all.skip(0) =~= all);
    for i in 0..items.len()
        invariant
            all == json::list_view(items@),
            first_call(all) == first_call(all.skip(i as int)),
    {
        let ghost rest = all.skip(i as int);
        assert(rest[0] == items@[i as int]@);
        assert(rest.drop_first() =~= all.skip(i + 1));
        if items[i].member_is("type", "function_call") {
            return Some(&items[i]);
        }
    }
    None
}

/// The piece of a chat completion that an event becomes, with the identifiers
/// to give out where the event brings none.
pub fn event_to_piece(event: &Json, now: i64, event_uuid: &str, call_uuid: &str) -> (r: Option<
    ResponseEvent,
>)
    requires
        event_uuid@.len() >= 8,
    ensures
        piece_view(r) == event_piece(event@, now, event_uuid@, call_uuid@),
{
    if event.member_is("type", "response.function_call_arguments.delta") || event.member_is(
        "type",
        "response.function_call_arguments.done",
    ) {
        return None;
    }
    if event.member_is("type", "response.output_item.done") {
        if let Some(item) = event.get("item") {
            if item.member_is("type", "function_call") {
                return Some(completed_call_of(event, item, now, event_uuid, call_uuid));
            }
        }
    }
    if let Some(response) = event.get("response") {
        if let Some(output) = response.get_array("output") {
            if let Some(item) = first_call_in(output) {
                return Some(output_call_of(event, item, now, event_uuid, call_uuid));
            }
        }
    }
    Some(plain_piece_of(event, now, event_uuid))
}

/// The piece of a chat completion that an event becomes, with fresh random
/// identifiers where the event brings none.
pub fn parse_sse_event(event: &Json, now: i64) -> (r: Option<ResponseEvent>)
    ensures
        exists|event_uuid: Seq<char>, call_uuid: Seq<char>|
            ids::uuid_form(event_uuid) && ids::uuid_form(call_uuid) && piece_view(r)
                == #[trigger] event_piece(event@, now, event_uuid, call_uuid),
{
    let event_uuid = ids::fresh_uuid();
    let call_uuid = ids::fresh_uuid();
    let r = event_to_piece(event, now, event_uuid.as_str(), call_uuid.as_str());
    assert(piece_view(r) == event_piece(event@, now, event_uuid@, call_uuid@));
    r
}

/// Arguments of a function call never reach the client as text: their pieces
/// become nothing, and the complete call is passed on as a call without text.
pub proof fn law_call_arguments_are_not_said(
    event: JsonV,
    now: i64,
    event_uuid: Seq<char>,
    call_uuid: Seq<char>,
)
    ensures
        arguments_event(event) ==> event_piece(event, now, event_uuid, call_uuid) is None,
        !arguments_event(event) && (completed_call_item(event) is Some || response_call(
            event,
        ) is Some) ==> {
            let piece = event_piece(event, now, event_uuid, call_uuid)->0;
            &&& piece.choices.len() == 1
            &&& piece.choices[0].delta.content is None
            &&& piece.choices[0].delta.tool_calls is Some
        },
{
}

/// A member of a value that may be missing.
pub open spec fn member(v: Option<JsonV>, key: Seq<char>) -> Option<JsonV> {
    match v {
        Some(v) => v.get(key),
        None => None,
    }
}

/// The places at which an event may bring text, the one that counts first first.
pub open spec fn text_places(event: JsonV) -> Seq<Option<JsonV>> {
    let choice = match event.get("choices"@) {
        Some(JsonV::Array(choices)) => if choices.len() > 0 {
            Some(choices[0])
        } else {
            None
        },
        _ => None,
    };
    seq![
        member(member(choice, "delta"@), "content"@),
        member(member(choice, "message"@), "content"@),
        event.get("content"@),
        member(event.get("message"@), "content"@),
        event.get("message"@),
        member(event.get("response"@), "content"@),
        event.get("response"@),
        event.get("text"@),
        event.get("delta"@),
        member(event.get("delta"@), "content"@),
        member(event.get("delta"@), "text"@),
    ]
}

/// Whether something is a text.
pub open spec fn is_text(v: Option<JsonV>) -> bool {
    v matches Some(JsonV::Str(_))
}

/// Whether an event neither is a piece of a function call's arguments nor reports
/// a function call as done.
pub open spec fn calls_nothing(event: JsonV) -> bool {
    &&& event.get("type"@) != Some(JsonV::Str("response.function_call_arguments.delta"@))
    &&& event.get("type"@) != Some(JsonV::Str("response.function_call_arguments.done"@))
    &&& !(event.get("type"@) == Some(JsonV::Str("response.output_item.done"@)) && member(
        event.get("item"@),
        "type"@,
    ) == Some(JsonV::Str("function_call"@)))
}

/// Whether an output item is a message whose first part is this text.
pub open spec fn says_first(item: JsonV, s: Seq<char>) -> bool {
    &&& item.get("type"@) == Some(JsonV::Str("message"@))
    &&& item.get("content"@) matches Some(JsonV::Array(parts)) && parts.len() > 0 && parts[0].get(
        "text"@,
    ) == Some(JsonV::Str(s))
}

/// Whether no item of the output that an event brings, if it brings any, calls a
/// function or is a message with text.
pub open spec fn output_says_nothing(event: JsonV) -> bool {
    member(event.get("response"@), "output"@) matches Some(JsonV::Array(items)) ==> {
        &&& forall|i: int|
            0 <= i < items.len() ==> (#[trigger] items[i]).get("type"@) != Some(
                JsonV::Str("function_call"@),
            )
        &&& forall|i: int, t: Seq<char>| 0 <= i < items.len() ==> !#[trigger] says_first(items[i], t)
    }
}

proof fn lemma_output_says_nothing(event: JsonV)
    requires
        output_says_nothing(event),
    ensures
        response_call(event) is None,
        event_text(event) == loose_text(event),
{
    if let Some(JsonV::Array(items)) = member(event.get("response"@), "output"@) {
        lemma_no_call(items);
        lemma_no_message(items);
    }
}

proof fn lemma_no_message(items: Seq<JsonV>)
    requires
        forall|i: int|
            0 <= i < items.len() ==> (#[trigger] items[i]).get("type"@) != Some(
                JsonV::Str("function_call"@),
            ),
        forall|i: int, t: Seq<char>| 0 <= i < items.len() ==> !#[trigger] says_first(items[i], t),
    ensures
        output_content(items) is Nothing,
    decreases items.len(),
{
    if items.len() > 0 {
        assert(items[0].get("type"@) != Some(JsonV::Str("function_call"@)));
        if items[0].get_str("type"@) == Some("message"@) && message_text(items[0]) is Some {
            assert(says_first(items[0], message_text(items[0])->0));
        }
        let rest = items.drop_first();
        assert forall|i: int| 0 <= i < rest.len() implies (#[trigger] rest[i]).get("type"@) != Some(
            JsonV::Str("function_call"@),
        ) by {
            assert(rest[i] == items[i + 1]);
        }
        assert forall|i: int, t: Seq<char>| 0 <= i < rest.len() implies !#[trigger] says_first(
            rest[i],
            t,
        ) by {
            assert(!says_first(items[i + 1], t));
        }
        lemma_no_message(rest);
    }
}

/// An event whose output says nothing brings the text that stands at the first of
/// the places where one may stand, character for character, white space at its ends included:
/// it becomes one choice, in which the assistant says that text.
pub proof fn law_text_is_sent_as_it_stands(
    event: JsonV,
    now: i64,
    event_uuid: Seq<char>,
    call_uuid: Seq<char>,
    k: int,
    s: Seq<char>,
)
    requires
        calls_nothing(event),
        output_says_nothing(event),
        0 <= k < 11,
        text_places(event)[k] == Some(JsonV::Str(s)),
        forall|j: int| 0 <= j < k ==> !is_text(#[trigger] text_places(event)[j]),
    ensures
        event_piece(event, now, event_uuid, call_uuid) matches Some(piece) && {
            &&& piece.choices.len() == 1
            &&& piece.choices[0].delta.content == Some(s)
            &&& piece.choices[0].delta.role == Some("assistant"@)
            &&& piece.choices[0].delta.tool_calls is None
            &&& piece.choices[0].index == 0
            &&& piece.choices[0].finish_reason == event.get_str("finish_reason"@)
        },
{
    lemma_output_says_nothing(event);
    let p = text_places(event);
    assert(0 < k ==> !is_text(p[0]));
    assert(1 < k ==> !is_text(p[1]));
    assert(2 < k ==> !is_text(p[2]));
    assert(3 < k ==> !is_text(p[3]));
    assert(4 < k ==> !is_text(p[4]));
    assert(5 < k ==> !is_text(p[5]));
    assert(6 < k ==> !is_text(p[6]));
    assert(7 < k ==> !is_text(p[7]));
    assert(8 < k ==> !is_text(p[8]));
    assert(9 < k ==> !is_text(p[9]));
    assert(p[k] == Some(JsonV::Str(s)));
}

/// So it is with the pieces of an answer as the upstream service streams them: a
/// delta that is a text is what the client reads, as it stands.
pub proof fn law_deltas_are_sent_as_they_stand(
    event: JsonV,
    now: i64,
    event_uuid: Seq<char>,
    call_uuid: Seq<char>,
    s: Seq<char>,
)
    requires
        calls_nothing(event),
        event.get("response"@) is None,
        event.get("choices"@) is None,
        event.get("content"@) is None,
        event.get("message"@) is None,
        event.get("text"@) is None,
        event.get("delta"@) == Some(JsonV::Str(s)),
    ensures
        event_piece(event, now, event_uuid, call_uuid) matches Some(piece) && piece.choices.len()
            == 1 && piece.choices[0].delta.content == Some(s),
{
    law_text_is_sent_as_it_stands(event, now, event_uuid, call_uuid, 8, s);
}

/// An event whose output says nothing and that has no text becomes a piece that says nothing: it
/// has a choice only to pass on the reason for the answer's end.
pub proof fn law_events_without_text_say_nothing(
    event: JsonV,
    now: i64,
    event_uuid: Seq<char>,
    call_uuid: Seq<char>,
)
    requires
        calls_nothing(event),
        output_says_nothing(event),
        forall|j: int| 0 <= j < 11 ==> !is_text(#[trigger] text_places(event)[j]),
    ensures
        event_piece(event, now, event_uuid, call_uuid) matches Some(piece) && {
            &&& event.get("finish_reason"@) is None ==> piece.choices.len() == 0
            &&& event.get("finish_reason"@) is Some ==> piece.choices.len() == 1
                && piece.choices[0].delta.content is None && piece.choices[0].delta.tool_calls is None
                && piece.choices[0].delta.role is None && piece.choices[0].finish_reason
                == event.get_str("finish_reason"@)
        },
{
    lemma_output_says_nothing(event);
    let p = text_places(event);
    assert(!is_text(p[0]) && !is_text(p[1]) && !is_text(p[2]) && !is_text(p[3]) && !is_text(p[4])
        && !is_text(p[5]) && !is_text(p[6]) && !is_text(p[7]) && !is_text(p[8]) && !is_text(p[9])
        && !is_text(p[10]));
}

proof fn lemma_output_types()
    ensures
        "message"@ != "function_call"@,
{
    reveal_strlit("message");
    reveal_strlit("function_call");
    assert("message"@.len() == 7 && "function_call"@.len() == 13);
}

proof fn lemma_no_call(items: Seq<JsonV>)
    requires
        forall|i: int|
            0 <= i < items.len() ==> (#[trigger] items[i]).get("type"@) != Some(
                JsonV::Str("function_call"@),
            ),
    ensures
        first_call(items) is None,
    decreases items.len(),
{
    if items.len() > 0 {
        assert(items[0].get("type"@) != Some(JsonV::Str("function_call"@)));
        assert forall|i: int| 0 <= i < items.drop_first().len() implies (
        #[trigger] items.drop_first()[i]).get("type"@) != Some(JsonV::Str("function_call"@)) by {
            assert(items.drop_first()[i] == items[i + 1]);
        }
        lemma_no_call(items.drop_first());
    }
}

proof fn lemma_first_message(items: Seq<JsonV>, j: int, s: Seq<char>)
    requires
        0 <= j < items.len(),
        says_first(items[j], s),
        forall|i: int|
            0 <= i < items.len() ==> (#[trigger] items[i]).get("type"@) != Some(
                JsonV::Str("function_call"@),
            ),
        forall|i: int, t: Seq<char>| 0 <= i < j ==> !#[trigger] says_first(items[i], t),
    ensures
        output_content(items) == OutputContent::Text(s),
    decreases items.len(),
{
    lemma_output_types();
    assert(items[0].get("type"@) != Some(JsonV::Str("function_call"@)));
    if j > 0 {
        if items[0].get_str("type"@) == Some("message"@) && message_text(items[0]) is Some {
            assert(says_first(items[0], message_text(items[0])->0));
        }
        let rest = items.drop_first();
        assert(rest[j - 1] == items[j]);
        assert forall|i: int| 0 <= i < rest.len() implies (#[trigger] rest[i]).get("type"@) != Some(
            JsonV::Str("function_call"@),
        ) by {
            assert(rest[i] == items[i + 1]);
        }
        assert forall|i: int, t: Seq<char>| 0 <= i < j - 1 implies !#[trigger] says_first(
            rest[i],
            t,
        ) by {
            assert(!says_first(items[i + 1], t));
        }
        lemma_first_message(rest, j - 1, s);
    }
}

/// An event that brings a response's output, without a function call in it, brings
/// the text of the first message that has one, as it stands.
pub proof fn law_output_messages_are_sent(
    event: JsonV,
    now: i64,
    event_uuid: Seq<char>,
    call_uuid: Seq<char>,
    items: Seq<JsonV>,
    j: int,
    s: Seq<char>,
)
    requires
        calls_nothing(event),
        member(event.get("response"@), "output"@) == Some(JsonV::Array(items)),
        0 <= j < items.len(),
        says_first(items[j], s),
        forall|i: int|
            0 <= i < items.len() ==> (#[trigger] items[i]).get("type"@) != Some(
                JsonV::Str("function_call"@),
            ),
        forall|i: int, t: Seq<char>| 0 <= i < j ==> !#[trigger] says_first(items[i], t),
    ensures
        event_piece(event, now, event_uuid, call_uuid) matches Some(piece) && {
            &&& piece.choices.len() == 1
            &&& piece.choices[0].delta.content == Some(s)
            &&& piece.choices[0].delta.role == Some("assistant"@)
            &&& piece.choices[0].delta.tool_calls is None
        },
{
    lemma_no_call(items);
    lemma_first_message(items, j, s);
}

proof fn lemma_call_keys()
    ensures
        "id"@ != "type"@,
        "id"@ != "index"@,
        "id"@ != "function"@,
        "type"@ != "index"@,
        "type"@ != "function"@,
        "index"@ != "function"@,
        "name"@ != "arguments"@,
{
    reveal_strlit("id");
    reveal_strlit("type");
    reveal_strlit("index");
    reveal_strlit("function");
    reveal_strlit("name");
    reveal_strlit("arguments");
    assert("id"@.len() == 2 && "type"@.len() == 4 && "index"@.len() == 5 && "function"@.len() == 8);
    assert("name"@.len() == 4 && "arguments"@.len() == 9);
}

/// Whether a piece passes a function call on, and nothing else: the function's name
/// and its arguments as the item has them, under an identifier and at a place.
pub open spec fn passes_call(piece: EventV, item: JsonV, call_id: Seq<char>, index: int) -> bool {
    &&& piece.choices.len() == 1
    &&& piece.choices[0].index == 0
    &&& piece.choices[0].delta.role == Some("assistant"@)
    &&& piece.choices[0].delta.content is None
    &&& piece.choices[0].delta.tool_calls matches Some(JsonV::Array(calls)) && {
        &&& calls.len() == 1
        &&& calls[0].get("id"@) == Some(JsonV::Str(call_id))
        &&& calls[0].get("type"@) == Some(JsonV::Str("function"@))
        &&& calls[0].get("index"@) == Some(JsonV::integer(index))
        &&& calls[0].get("function"@) matches Some(function) && {
            &&& is_text(item.get("name"@)) ==> function.get("name"@) == item.get("name"@)
            &&& !is_text(item.get("name"@)) ==> function.get("name"@) == Some(JsonV::Str(""@))
            &&& is_text(item.get("arguments"@)) ==> function.get("arguments"@) == item.get(
                "arguments"@,
            )
            &&& !is_text(item.get("arguments"@)) ==> function.get("arguments"@) == Some(
                JsonV::Str(""@),
            )
        }
    }
}

/// A function call that is reported as done is passed on whole: its name and its
/// arguments as they stand, under its own identifier, at its place in the output,
/// and as what ends the answer.
pub proof fn law_done_calls_are_passed_on(
    event: JsonV,
    now: i64,
    event_uuid: Seq<char>,
    call_uuid: Seq<char>,
    item: JsonV,
    s: Seq<char>,
)
    requires
        event.get("type"@) == Some(JsonV::Str("response.output_item.done"@)),
        event.get("item"@) == Some(item),
        item.get("type"@) == Some(JsonV::Str("function_call"@)),
    ensures
        event_piece(event, now, event_uuid, call_uuid) matches Some(piece) && {
            let index = output_index(event) as int;
            &&& piece.choices[0].finish_reason == Some("tool_calls"@)
            &&& piece.created == now
            &&& item.get("call_id"@) == Some(JsonV::Str(s)) ==> passes_call(piece, item, s, index)
            &&& !is_text(item.get("call_id"@)) && item.get("id"@) == Some(JsonV::Str(s))
                ==> passes_call(piece, item, s, index)
            &&& !is_text(item.get("call_id"@)) && !is_text(item.get("id"@)) ==> passes_call(
                piece,
                item,
                "call_"@ + call_uuid,
                index,
            )
        },
{
    lemma_call_keys();
    reveal_strlit("response.function_call_arguments.delta");
    reveal_strlit("response.function_call_arguments.done");
    reveal_strlit("response.output_item.done");
    assert("response.function_call_arguments.delta"@.len() == 38);
    assert("response.function_call_arguments.done"@.len() == 37);
    assert("response.output_item.done"@.len() == 25);
}

/// A response's output with a function call in it passes on the first one: its name
/// and its arguments as they stand, under its own identifier.
pub proof fn law_output_calls_are_passed_on(
    event: JsonV,
    now: i64,
    event_uuid: Seq<char>,
    call_uuid: Seq<char>,
    items: Seq<JsonV>,
    j: int,
    s: Seq<char>,
)
    requires
        calls_nothing(event),
        member(event.get("response"@), "output"@) == Some(JsonV::Array(items)),
        0 <= j < items.len(),
        items[j].get("type"@) == Some(JsonV::Str("function_call"@)),
        forall|i: int|
            0 <= i < j ==> (#[trigger] items[i]).get("type"@) != Some(JsonV::Str("function_call"@)),
    ensures
        event_piece(event, now, event_uuid, call_uuid) matches Some(piece) && {
            &&& piece.choices[0].finish_reason is None
            &&& items[j].get("call_id"@) == Some(JsonV::Str(s)) ==> passes_call(piece, items[j], s, 0)
            &&& !is_text(items[j].get("call_id"@)) ==> passes_call(
                piece,
                items[j],
                "call_"@ + call_uuid,
                0,
            )
        },
{
    lemma_call_keys();
    lemma_first_call(items, j);
}

proof fn lemma_first_call(items: Seq<JsonV>, j: int)
    requires
        0 <= j < items.len(),
        items[j].get("type"@) == Some(JsonV::Str("function_call"@)),
        forall|i: int|
            0 <= i < j ==> (#[trigger] items[i]).get("type"@) != Some(JsonV::Str("function_call"@)),
    ensures
        first_call(items) == Some(items[j]),
    decreases items.len(),
{
    if j > 0 {
        assert(items[0].get("type"@) != Some(JsonV::Str("function_call"@)));
        let rest = items.drop_first();
        assert(rest[j - 1] == items[j]);
        assert forall|i: int| 0 <= i < j - 1 implies (#[trigger] rest[i]).get("type"@) != Some(
            JsonV::Str("function_call"@),
        ) by {
            assert(rest[i] == items[i + 1]);
        }
        lemma_first_call(rest, j - 1);
    }
}

/// An item stands at the place in the output that its event names, or at the first.
pub proof fn law_output_places(event: JsonV, n: u64)
    ensures
        event.get("output_index"@) == Some(JsonV::integer(n as int)) ==> output_index(event) == n,
        (forall|m: u64| event.get("output_index"@) != Some(#[trigger] JsonV::integer(m as int)))
            ==> output_index(event) == 0,
{
    if let Some(JsonV::Number(json::NumberV::Int(i))) = event.get("output_index"@) {
        if 0 <= i <= u64::MAX {
            assert(JsonV::integer((i as u64) as int) == JsonV::integer(i));
        }
    }
}

/// A piece is a chunk of a completion, under the event's identifier and model where
/// it names them, and of the time that it names where no call is reported as done.
pub proof fn law_pieces_are_labelled(
    event: JsonV,
    now: i64,
    event_uuid: Seq<char>,
    call_uuid: Seq<char>,
    s: Seq<char>,
    t: i64,
)
    requires
        event_piece(event, now, event_uuid, call_uuid) is Some,
    ensures
        ({
            let piece = event_piece(event, now, event_uuid, call_uuid)->0;
            &&& piece.object == "chat.completion.chunk"@
            &&& event.get("id"@) == Some(JsonV::Str(s)) ==> piece.id == s
            &&& !is_text(event.get("id"@)) ==> piece.id == "chatcmpl-"@ + event_uuid.take(8)
            &&& event.get("model"@) == Some(JsonV::Str(s)) ==> piece.model == s
            &&& !is_text(event.get("model"@)) ==> piece.model == "gpt-4"@ || piece.model == "gpt-5"@
            &&& calls_nothing(event) && event.get("created"@) == Some(JsonV::integer(t as int))
                ==> piece.created == t
            &&& event.get("created"@) is None ==> piece.created == now
        }),
{
}

/// Nothing but a piece of a function call's arguments becomes no piece.
pub proof fn law_only_arguments_become_nothing(
    event: JsonV,
    now: i64,
    event_uuid: Seq<char>,
    call_uuid: Seq<char>,
)
    ensures
        event_piece(event, now, event_uuid, call_uuid) is None <==> event.get("type"@) == Some(
            JsonV::Str("response.function_call_arguments.delta"@),
        ) || event.get("type"@) == Some(JsonV::Str("response.function_call_arguments.done"@)),
{
}

/// A piece without a model of its own names one by what it is, and one without a
/// time that can be read is of the present.
pub proof fn law_pieces_are_labelled_by_default(
    event: JsonV,
    now: i64,
    event_uuid: Seq<char>,
    call_uuid: Seq<char>,
)
    requires
        event_piece(event, now, event_uuid, call_uuid) is Some,
        !is_text(event.get("model"@)),
    ensures
        ({
            let piece = event_piece(event, now, event_uuid, call_uuid)->0;
            &&& calls_nothing(event) ==> piece.model == "gpt-4"@
            &&& !calls_nothing(event) ==> piece.model == "gpt-5"@
            &&& (forall|t: i64| event.get("created"@) != Some(#[trigger] JsonV::integer(t as int)))
                ==> piece.created == now
        }),
{
    if let Some(JsonV::Number(json::NumberV::Int(i))) = event.get("created"@) {
        if i64::MIN <= i <= i64::MAX {
            assert(JsonV::integer((i as i64) as int) == JsonV::integer(i));
        }
    }
}

} // verus!
