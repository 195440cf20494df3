//! From a chat completion request to the upstream service's payload.
use crate::json::{self, Json, JsonV};
use crate::models::{self, ChatMessage, ChatRequest, MessageV};
use crate::replies::{self, Reply};
use crate::text;
use crate::tools;
use vstd::prelude::*;

verus! {

/// The text of one part of a message's content.
pub open spec fn part_text(part: JsonV) -> Option<Seq<char>> {
    if part.get_str("text"@) is Some {
        part.get_str("text"@)
    } else {
        part.get_str("content"@)
    }
}

/// The texts of the parts that have one.
pub open spec fn part_texts(parts: Seq<JsonV>) -> Seq<Seq<char>>
    decreases parts.len(),
{
    if parts.len() == 0 {
        seq![]
    } else {
        let rest = part_texts(parts.drop_last());
        match part_text(parts.last()) {
            Some(s) => rest.push(s),
            None => rest,
        }
    }
}

/// A message's content as text: the string itself, or the lines of its parts,
/// or failing both its JSON text.
pub open spec fn content_text(content: JsonV) -> Seq<char> {
    match content {
        JsonV::Str(s) => s,
        JsonV::Array(parts) => if part_texts(parts).len() > 0 {
            text::joined(part_texts(parts), "\n"@)
        } else {
            json::json_display(content)
        },
        _ => json::json_display(content),
    }
}

fn part_text_of(part: &Json) -> (r: Option<&str>)
    ensures
        r matches Some(s) ==> part_text(part@) == Some(s@),
        r is None ==> part_text(part@) is None,
{
    match part.get_str("text") {
        Some(s) => Some(s),
        None => part.get_str("content"),
    }
}

/// A message's content as text.
pub fn message_content_to_text(content: &Json) -> (r: String)
    ensures
        r@ == content_text(content@),
{
    if let Some(s) = content.as_str() {
        return s.to_owned();
    }
    if let Some(parts) = content.as_array() {
        let ghost all = json::list_view(parts@);
        let mut found: Vec<String> = Vec::new();
        assert(text::texts(found@) =~= part_texts(all.take(0)));
        for i in 0..parts.len()
            invariant
                all == json::list_view(parts@),
                text::texts(found@) == part_texts(all.take(i as int)),
        {
            let ghost before = text::texts(found@);
            assert(all.take(i + 1).drop_last() =~= all.take(i as int));
            if let Some(s) = part_text_of(&parts[i]) {
                found.push(s.to_owned());
                assert(text::texts(found@) =~= before.push(s@));
            }
        }
        assert(all.take(parts@.len() as int) =~= all);
        assert(text::texts(found@).len() == found@.len());
        if found.len() > 0 {
            return text::join(&found, "\n");
        }
    }
    content.display()
}

/// A text between an opening and a closing tag, each on a line of its own.
pub open spec fn tagged(tag: Seq<char>, s: Seq<char>) -> Seq<char> {
    "<"@ + tag + ">\n"@ + s + "\n</"@ + tag + ">"@
}

/// A text between an opening and a closing tag, each on a line of its own.
pub fn tag_text(tag: &str, s: &str) -> (r: String)
    ensures
        r@ == tagged(tag@, s@),
{
    text::concat3("<", tag, ">\n").concat(s).concat("\n</").concat(tag).concat(">")
}

/// A message as the upstream service takes it.
pub open spec fn input_item(role: Seq<char>, content: Seq<char>) -> JsonV {
    JsonV::empty_object().with("role"@, JsonV::Str(role)).with("content"@, JsonV::Str(content))
}

/// A message as the upstream service takes it.
pub fn make_input_item(role: &str, content: &str) -> (r: Json)
    ensures
        r@ == input_item(role@, content@),
{
    Json::object().with("role", Json::text(role)).with("content", Json::text(content))
}

/// A message of the conversation as the upstream service takes it.  It knows
/// only some roles: what others say is said by the user, or by the assistant
/// where a tool answered, between tags that name who spoke.
pub open spec fn input_message(message: MessageV) -> JsonV {
    let s = content_text(message.content);
    let role = message.role;
    if role == "system"@ {
        input_item("user"@, tagged("system"@, s))
    } else if role == "tool"@ {
        input_item("assistant"@, tagged("tool_response"@, s))
    } else if role == "assistant"@ || role == "user"@ || role == "developer"@ {
        input_item(role, s)
    } else {
        input_item("user"@, tagged(role, s))
    }
}

/// A message of the conversation as the upstream service takes it.
pub fn map_message(message: &ChatMessage) -> (r: Json)
    ensures
        r@ == input_message(message@),
{
    let content = message_content_to_text(&message.content);
    let s = content.as_str();
    let role = message.role.as_str();
    if text::same_text(role, "system") {
        make_input_item("user", tag_text("system", s).as_str())
    } else if text::same_text(role, "tool") {
        make_input_item("assistant", tag_text("tool_response", s).as_str())
    } else if text::same_text(role, "assistant") || text::same_text(role, "user")
        || text::same_text(role, "developer") {
        make_input_item(role, s)
    } else {
        make_input_item("user", tag_text(role, s).as_str())
    }
}

/// The conversation as the upstream service takes it.
pub open spec fn input_messages(messages: Seq<MessageV>) -> Seq<JsonV> {
    messages.map_values(|m: MessageV| input_message(m))
}

/// The conversation as the upstream service takes it.
pub fn map_messages(messages: &Vec<ChatMessage>) -> (r: Vec<Json>)
    ensures
        json::list_view(r@) == input_messages(models::messages_view(messages@)),
{
    let mut r: Vec<Json> = Vec::new();
    for i in 0..messages.len()
        invariant
            r@.len() == i,
            forall|j: int|
                0 <= j < i ==> json::json_view(#[trigger] r@[j]) == input_message(messages@[j]@),
    {
        r.push(map_message(&messages[i]));
    }
    assert(json::list_view(r@) =~= input_messages(models::messages_view(messages@)));
    r
}

/// Whether a message shows that the request comes from Raycast.
pub open spec fn raycast_message(message: MessageV) -> bool {
    text::holds_text(content_text(message.content), "<user-preferences>"@)
}

/// Whether a request comes from Raycast.
pub open spec fn raycast_request(messages: Seq<MessageV>) -> bool {
    exists|i: int| 0 <= i < messages.len() && raycast_message(#[trigger] messages[i])
}

/// Whether a request comes from Raycast.
pub fn is_raycast_request(messages: &Vec<ChatMessage>) -> (r: bool)
    ensures
        r == raycast_request(models::messages_view(messages@)),
{
    let ghost all = models::messages_view(messages@);
    for i in 0..messages.len()
        invariant
            all == models::messages_view(messages@),
            forall|j: int| 0 <= j < i ==> !raycast_message(#[trigger] all[j]),
    {
        let content = message_content_to_text(&messages[i].content);
        assert(all[i as int] == messages@[i as int]@);
        if text::contains_text(content.as_str(), "<user-preferences>") {
            assert(raycast_message(all[i as int]));
            return true;
        }
    }
    false
}

/// Instructions with the user's own behind them.
pub open spec fn with_user_instructions(base: Seq<char>, user: Option<Seq<char>>) -> Seq<char> {
    match user {
        Some(s) => base + "\n\n<user_instructions>\n\n"@ + s + "\n\n</user_instructions>"@,
        None => base,
    }
}

/// Instructions with the user's own behind them.
pub fn add_user_instructions(base: &str, user: &Option<String>) -> (r: String)
    ensures
        r@ == with_user_instructions(base@, json::option_text(*user)),
{
    let mut r = base.to_owned();
    if let Some(s) = user {
        r.append("\n\n<user_instructions>\n\n");
        r.append(s.as_str());
        r.append("\n\n</user_instructions>");
    }
    r
}

/// The instructions that a request is sent with.
pub open spec fn chat_instructions(
    base: Seq<char>,
    user: Option<Seq<char>>,
    messages: Seq<MessageV>,
) -> Seq<char> {
    with_user_instructions(
        if raycast_request(messages) {
            "You are a concise, helpful assistant. Answer the user's request directly."@
        } else {
            base
        },
        user,
    )
}

/// The model that is asked for upstream: some of the `gpt-5` family by their
/// own name, the rest of it as `gpt-5`, any other as it is.
pub open spec fn upstream_model(model: Seq<char>) -> Seq<char> {
    if model == "gpt-5.5"@ || model == "gpt-5.4"@ || model == "gpt-5.4-mini"@ || model
        == "gpt-5.3-codex-spark"@ {
        model
    } else if "gpt-5"@.is_prefix_of(model) {
        "gpt-5"@
    } else {
        model
    }
}

/// The model that is asked for upstream.
pub fn map_model(model: &str) -> (r: String)
    ensures
        r@ == upstream_model(model@),
{
    if text::same_text(model, "gpt-5.5") || text::same_text(model, "gpt-5.4") || text::same_text(
        model,
        "gpt-5.4-mini",
    ) || text::same_text(model, "gpt-5.3-codex-spark") {
        model.to_owned()
    } else if text::starts_with(model, "gpt-5") {
        "gpt-5".to_owned()
    } else {
        model.to_owned()
    }
}

/// The payload of a chat completion request.
pub open spec fn chat_payload(
    base: Seq<char>,
    user: Option<Seq<char>>,
    model: Seq<char>,
    messages: Seq<MessageV>,
    offered: Seq<JsonV>,
) -> JsonV {
    let payload = JsonV::empty_object().with("model"@, JsonV::Str(upstream_model(model))).with(
        "instructions"@,
        JsonV::Str(chat_instructions(base, user, messages)),
    ).with("input"@, JsonV::Array(input_messages(messages))).with("store"@, JsonV::Bool(false)).with(
        "stream"@,
        JsonV::Bool(true),
    );
    let mapped = tools::mapped_tools(offered);
    if mapped.len() > 0 {
        payload.with("tools"@, JsonV::Array(mapped)).with("tool_choice"@, JsonV::Str("auto"@)).with(
            "parallel_tool_calls"@,
            JsonV::Bool(false),
        )
    } else {
        payload
    }
}

/// The payload of a chat completion request.
pub fn build_chat_payload(
    base_instructions: &str,
    user_instructions: &Option<String>,
    request: &ChatRequest,
) -> (r: Json)
    ensures
        r@ == chat_payload(
            base_instructions@,
            json::option_text(*user_instructions),
            request.model@,
            models::messages_view(request.messages@),
            json::list_view(request.tools@),
        ),
{
    let input = map_messages(&request.messages);
    let base = if is_raycast_request(&request.messages) {
        "You are a concise, helpful assistant. Answer the user's request directly."
    } else {
        base_instructions
    };
    let instructions = add_user_instructions(base, user_instructions);
    let mapped = tools::map_tools(&request.tools);
    assert(json::list_view(mapped@).len() == mapped@.len());
    let payload = Json::object().with("model", Json::Str(map_model(request.model.as_str()))).with(
        "instructions",
        Json::Str(instructions),
    ).with("input", Json::array(input)).with("store", Json::Bool(false)).with(
        "stream",
        Json::Bool(true),
    );
    if mapped.len() > 0 {
        payload.with("tools", Json::array(mapped)).with("tool_choice", Json::text("auto")).with(
            "parallel_tool_calls",
            Json::Bool(false),
        )
    } else {
        payload
    }
}

/// What follows the last slash of a text, or the text where it has none.
pub open spec fn last_segment(s: Seq<char>) -> Seq<char>
    decreases s.len(),
{
    if s.len() == 0 || s.last() == '/' {
        seq![]
    } else {
        last_segment(s.drop_last()).push(s.last())
    }
}

/// The model that a request names, without the prefix of a router in front of
/// the proxy.
pub open spec fn routed_model(model: Seq<char>) -> Seq<char> {
    if "custom-router-codex-proxy/"@.is_prefix_of(model) {
        last_segment(model)
    } else {
        model
    }
}

proof fn lemma_last_segment(s: Seq<char>, n: int)
    requires
        0 <= n <= s.len(),
        n > 0 ==> s[n - 1] == '/',
        forall|j: int| n <= j < s.len() ==> s[j] != '/',
    ensures
        last_segment(s) == s.skip(n),
    decreases s.len(),
{
    if n == s.len() {
        assert(s.skip(n) =~= Seq::<char>::empty());
    } else {
        lemma_last_segment(s.drop_last(), n);
        assert(s.drop_last().skip(n).push(s.last()) =~= s.skip(n));
    }
}

/// The model that a request names, without the prefix of a router in front of
/// the proxy.
pub fn route_model(model: &str) -> (r: String)
    ensures
        r@ == routed_model(model@),
{
    if !text::starts_with(model, "custom-router-codex-proxy/") {
        return model.to_owned();
    }
    let cs = text::chars_of(model);
    let mut n: usize = cs.len();
    while n > 0 && cs[n - 1] != '/'
        invariant
            n <= cs@.len(),
            cs@ == model@,
            forall|j: int| n <= j < cs@.len() ==> cs@[j] != '/',
        decreases n,
    {
        n -= 1;
    }
    proof {
        lemma_last_segment(model@, n as int);
    }
    let r = model.substring_char(n, cs.len()).to_owned();
    assert(r@ =~= model@.skip(n as int));
    r
}

/// Whether the proxy serves a model.
pub open spec fn served_model(model: Seq<char>) -> bool {
    "gpt-5"@.is_prefix_of(model)
}

/// What a client reads that asks for a model that is not served.
pub open spec fn unserved_message(model: Seq<char>) -> Seq<char> {
    "Model not found. Verify the slug starts with 'gpt-5' (e.g. 'gpt-5', 'gpt-5-mini', 'gpt-5-nano') and try again. Requested: "@
        + model
}

/// The reply to a request for a model that is not served; none for one that is.
pub fn refuse_model(model: &str) -> (r: Option<Reply>)
    ensures
        r is None <==> served_model(model@),
        r matches Some(reply) ==> reply.status == 404 && reply.body@ == replies::error_object(
            unserved_message(model@),
            "model_not_found"@,
            "model_not_found"@,
        ),
{
    if text::starts_with(model, "gpt-5") {
        None
    } else {
        let message = "Model not found. Verify the slug starts with 'gpt-5' (e.g. 'gpt-5', 'gpt-5-mini', 'gpt-5-nano') and try again. Requested: ".to_owned().concat(
        model);
        Some(
            replies::error_reply(404, message.as_str(), "model_not_found", "model_not_found"),
        )
    }
}

/// The keys of a payload.
pub open spec fn payload_keys() -> Seq<Seq<char>> {
    seq![
        "model"@,
        "instructions"@,
        "input"@,
        "store"@,
        "stream"@,
        "previous_response_id"@,
        "tools"@,
        "tool_choice"@,
        "parallel_tool_calls"@,
    ]
}

/// The keys of a payload differ from each other.
pub proof fn lemma_payload_keys()
    ensures
        payload_keys().no_duplicates(),
        payload_keys()[0] == "model"@,
        payload_keys()[1] == "instructions"@,
        payload_keys()[2] == "input"@,
        payload_keys()[3] == "store"@,
        payload_keys()[4] == "stream"@,
        payload_keys()[5] == "previous_response_id"@,
        payload_keys()[6] == "tools"@,
        payload_keys()[7] == "tool_choice"@,
        payload_keys()[8] == "parallel_tool_calls"@,
{
    reveal_strlit("model");
    reveal_strlit("instructions");
    reveal_strlit("input");
    reveal_strlit("store");
    reveal_strlit("stream");
    reveal_strlit("previous_response_id");
    reveal_strlit("tools");
    reveal_strlit("tool_choice");
    reveal_strlit("parallel_tool_calls");
    assert("model"@[0] == 'm' && "model"@.len() == 5);
    assert("input"@[0] == 'i' && "input"@.len() == 5);
    assert("store"@[0] == 's' && "store"@.len() == 5);
    assert("tools"@[0] == 't' && "tools"@.len() == 5);
    assert("instructions"@.len() == 12 && "stream"@.len() == 6);
    assert("previous_response_id"@.len() == 20 && "tool_choice"@.len() == 11);
    assert("parallel_tool_calls"@.len() == 19);
}

/// Whatever a chat client asks for, nothing is stored upstream, the answer is
/// streamed, every message is sent, in its order, and tools are named only where
/// some can be offered.
pub proof fn law_chat_payload(
    base: Seq<char>,
    user: Option<Seq<char>>,
    model: Seq<char>,
    messages: Seq<MessageV>,
    offered: Seq<JsonV>,
)
    ensures
        ({
            let payload = chat_payload(base, user, model, messages, offered);
            &&& payload.get("store"@) == Some(JsonV::Bool(false))
            &&& payload.get("stream"@) == Some(JsonV::Bool(true))
            &&& payload.get_array("input"@) == Some(input_messages(messages))
            &&& input_messages(messages).len() == messages.len()
            &&& payload.get("tools"@) is Some <==> tools::mapped_tools(offered).len() > 0
        }),
{
    lemma_payload_keys();
}

/// A model that is served is asked for upstream under a name that is served.
pub proof fn law_upstream_model_is_served(model: Seq<char>)
    requires
        served_model(model),
    ensures
        served_model(upstream_model(model)),
{
}

/// Whether a part of a message's content says this: under `text`, or else under
/// `content`.
pub open spec fn part_says(part: JsonV, s: Seq<char>) -> bool {
    ||| part.get("text"@) == Some(JsonV::Str(s))
    ||| !(part.get("text"@) matches Some(JsonV::Str(_))) && part.get("content"@) == Some(
        JsonV::Str(s),
    )
}

/// Whether some part of a message's content says something.
pub open spec fn some_part_says(parts: Seq<JsonV>) -> bool {
    exists|i: int, s: Seq<char>| 0 <= i < parts.len() && #[trigger] part_says(parts[i], s)
}

proof fn lemma_parts_with_text(parts: Seq<JsonV>)
    ensures
        part_texts(parts).len() > 0 <==> some_part_says(parts),
    decreases parts.len(),
{
    if parts.len() > 0 {
        let rest = parts.drop_last();
        lemma_parts_with_text(rest);
        if some_part_says(rest) {
            let (i, s) = choose|i: int, s: Seq<char>|
                0 <= i < rest.len() && #[trigger] part_says(rest[i], s);
            assert(part_says(parts[i], s));
        }
        if part_text(parts.last()) is Some {
            assert(part_says(parts[parts.len() - 1], part_text(parts.last())->0));
        }
        if some_part_says(parts) && part_text(parts.last()) is None {
            let (i, s) = choose|i: int, s: Seq<char>|
                0 <= i < parts.len() && #[trigger] part_says(parts[i], s);
            assert(i < rest.len());
            assert(part_says(rest[i], s));
        }
    }
}

/// A text is a message's content as it stands; of a list, each part that says
/// something adds a line behind those before it, as it stands, and every other part
/// adds nothing; anything else, and a list that says nothing, is given as JSON.
pub proof fn law_contents_are_said_in_full(
    said: Seq<char>,
    parts: Seq<JsonV>,
    part: JsonV,
    s: Seq<char>,
    other: JsonV,
)
    requires
        !(other is Str || other is Array),
    ensures
        content_text(JsonV::Str(said)) == said,
        content_text(other) == json::json_display(other),
        !some_part_says(parts) ==> content_text(JsonV::Array(parts)) == json::json_display(
            JsonV::Array(parts),
        ),
        some_part_says(parts) && part_says(part, s) ==> content_text(
            JsonV::Array(parts.push(part)),
        ) == content_text(JsonV::Array(parts)) + seq!['\n'] + s,
        !some_part_says(parts) && part_says(part, s) ==> content_text(
            JsonV::Array(parts.push(part)),
        ) == s,
        some_part_says(parts) && (forall|t: Seq<char>| !#[trigger] part_says(part, t))
            ==> content_text(JsonV::Array(parts.push(part))) == content_text(JsonV::Array(parts)),
{
    reveal_strlit("\n");
    assert("\n"@ =~= seq!['\n']);
    let longer = parts.push(part);
    assert(longer.drop_last() =~= parts);
    lemma_parts_with_text(parts);
    if part_says(part, s) {
        assert(part_text(part) == Some(s));
        text::law_joined_texts(part_texts(parts), s, "\n"@);
        assert(part_texts(longer) == part_texts(parts).push(s));
        if part_texts(parts).len() == 0 {
            assert(part_texts(longer) =~= seq![s]);
        }
    }
    if part_text(part) is Some {
        assert(part_says(part, part_text(part)->0));
    }
}

proof fn lemma_item_keys()
    ensures
        "role"@ != "content"@,
{
    reveal_strlit("role");
    reveal_strlit("content");
    assert("role"@.len() == 4 && "content"@.len() == 7);
}

proof fn lemma_roles()
    ensures
        "system"@ != "tool"@,
        "system"@ != "assistant"@,
        "system"@ != "user"@,
        "system"@ != "developer"@,
        "tool"@ != "assistant"@,
        "tool"@ != "user"@,
        "tool"@ != "developer"@,
{
    reveal_strlit("system");
    reveal_strlit("tool");
    reveal_strlit("assistant");
    reveal_strlit("user");
    reveal_strlit("developer");
    assert("system"@.len() == 6 && "assistant"@.len() == 9 && "developer"@.len() == 9);
    assert("tool"@.len() == 4 && "tool"@[0] == 't');
    assert("user"@.len() == 4 && "user"@[0] == 'u');
}

/// A message says upstream what it says here: as it stands where the upstream
/// service knows its role, else between lines that name who spoke.
pub proof fn law_messages_are_said_in_full(message: MessageV, key: Seq<char>)
    ensures
        ({
            let item = input_message(message);
            let s = content_text(message.content);
            &&& message.role == "user"@ || message.role == "assistant"@ || message.role
                == "developer"@ ==> item.get("role"@) == Some(JsonV::Str(message.role)) && item.get(
                "content"@,
            ) == Some(JsonV::Str(s))
            &&& message.role == "system"@ ==> item.get("role"@) == Some(JsonV::Str("user"@))
                && item.get("content"@) == Some(
                JsonV::Str("<system>\n"@ + s + "\n</system>"@),
            )
            &&& message.role == "tool"@ ==> item.get("role"@) == Some(JsonV::Str("assistant"@))
                && item.get("content"@) == Some(
                JsonV::Str("<tool_response>\n"@ + s + "\n</tool_response>"@),
            )
            &&& message.role != "user"@ && message.role != "assistant"@ && message.role
                != "developer"@ && message.role != "system"@ && message.role != "tool"@
                ==> item.get("role"@) == Some(JsonV::Str("user"@)) && item.get("content"@) == Some(
                JsonV::Str(
                    seq!['<'] + message.role + seq!['>', '\n'] + s + seq!['\n', '<', '/']
                        + message.role + seq!['>'],
                ),
            )
            &&& key != "role"@ && key != "content"@ ==> item.get(key) is None
        }),
{
    lemma_item_keys();
    lemma_roles();
    reveal_strlit("<");
    reveal_strlit(">\n");
    reveal_strlit("\n</");
    reveal_strlit(">");
    assert("<"@ =~= seq!['<']);
    assert(">\n"@ =~= seq!['>', '\n']);
    assert("\n</"@ =~= seq!['\n', '<', '/']);
    assert(">"@ =~= seq!['>']);
    let s = content_text(message.content);
    if message.role == "system"@ {
        reveal_strlit("system");
        reveal_strlit("<system>\n");
        reveal_strlit("\n</system>");
        assert(tagged("system"@, s) =~= "<system>\n"@ + s + "\n</system>"@);
    }
    if message.role == "tool"@ {
        reveal_strlit("tool_response");
        reveal_strlit("<tool_response>\n");
        reveal_strlit("\n</tool_response>");
        assert(tagged("tool_response"@, s) =~= "<tool_response>\n"@ + s + "\n</tool_response>"@);
    }
}

/// Every message is sent, each at its place.
pub proof fn law_messages_are_sent_in_order(messages: Seq<MessageV>, i: int)
    requires
        0 <= i < messages.len(),
    ensures
        input_messages(messages).len() == messages.len(),
        input_messages(messages)[i] == input_message(messages[i]),
{
}

/// Whether some message holds the mark of a request from Raycast.
pub open spec fn marked_by_raycast(messages: Seq<MessageV>) -> bool {
    exists|i: int|
        0 <= i < messages.len() && text::holds_text(
            content_text((#[trigger] messages[i]).content),
            "<user-preferences>"@,
        )
}

/// A request is sent with the proxy's instructions, or with short ones where it
/// comes from Raycast, and with the user's own behind them, whole, where there are
/// any.
pub proof fn law_instructions_are_sent_in_full(
    base: Seq<char>,
    user: Seq<char>,
    messages: Seq<MessageV>,
)
    ensures
        !marked_by_raycast(messages) ==> chat_instructions(base, None, messages) == base,
        marked_by_raycast(messages) ==> chat_instructions(base, None, messages)
            == "You are a concise, helpful assistant. Answer the user's request directly."@,
        chat_instructions(base, Some(user), messages) == chat_instructions(base, None, messages)
            + "\n\n<user_instructions>\n\n"@ + user + "\n\n</user_instructions>"@,
        with_user_instructions(base, None) == base,
        with_user_instructions(base, Some(user)) == base + "\n\n<user_instructions>\n\n"@ + user
            + "\n\n</user_instructions>"@,
{
    if raycast_request(messages) {
        let i = choose|i: int| 0 <= i < messages.len() && raycast_message(#[trigger] messages[i]);
        assert(text::holds_text(content_text(messages[i].content), "<user-preferences>"@));
    }
    if marked_by_raycast(messages) {
        let i = choose|i: int|
            0 <= i < messages.len() && text::holds_text(
                content_text((#[trigger] messages[i]).content),
                "<user-preferences>"@,
            );
        assert(raycast_message(messages[i]));
    }
}

/// The models that the upstream service knows by name are asked for by it, the rest
/// of the `gpt-5` family as `gpt-5`, and any other model as it is.
pub proof fn law_models_asked_for(model: Seq<char>)
    ensures
        model == "gpt-5.5"@ || model == "gpt-5.4"@ || model == "gpt-5.4-mini"@ || model
            == "gpt-5.3-codex-spark"@ ==> upstream_model(model) == model,
        !(model == "gpt-5.5"@ || model == "gpt-5.4"@ || model == "gpt-5.4-mini"@ || model
            == "gpt-5.3-codex-spark"@) && "gpt-5"@.is_prefix_of(model) ==> upstream_model(model)
            == "gpt-5"@,
        !"gpt-5"@.is_prefix_of(model) ==> upstream_model(model) == model,
{
    reveal_strlit("gpt-5");
    reveal_strlit("gpt-5.5");
    reveal_strlit("gpt-5.4");
    reveal_strlit("gpt-5.4-mini");
    reveal_strlit("gpt-5.3-codex-spark");
}

/// A payload asks for the model, with the instructions, and says what every message
/// says; the tools that can be offered are all in it, to be called one at a time as
/// the model sees fit, and nothing but these is.
pub proof fn law_chat_payload_is_complete(
    base: Seq<char>,
    user: Option<Seq<char>>,
    model: Seq<char>,
    messages: Seq<MessageV>,
    offered: Seq<JsonV>,
    i: int,
    key: Seq<char>,
)
    ensures
        ({
            let payload = chat_payload(base, user, model, messages, offered);
            let mapped = tools::mapped_tools(offered);
            &&& payload.get("model"@) == Some(JsonV::Str(upstream_model(model)))
            &&& payload.get("instructions"@) == Some(
                JsonV::Str(chat_instructions(base, user, messages)),
            )
            &&& payload.get("store"@) == Some(JsonV::Bool(false))
            &&& payload.get("stream"@) == Some(JsonV::Bool(true))
            &&& payload.get("input"@) matches Some(JsonV::Array(sent)) && sent.len()
                == messages.len() && (0 <= i < messages.len() ==> sent[i] == input_message(
                messages[i],
            ))
            &&& mapped.len() > 0 ==> payload.get("tools"@) == Some(JsonV::Array(mapped))
                && payload.get("tool_choice"@) == Some(JsonV::Str("auto"@)) && payload.get(
                "parallel_tool_calls"@,
            ) == Some(JsonV::Bool(false))
            &&& mapped.len() == 0 ==> payload.get("tools"@) is None && payload.get(
                "tool_choice"@,
            ) is None && payload.get("parallel_tool_calls"@) is None
            &&& key != "model"@ && key != "instructions"@ && key != "input"@ && key != "store"@
                && key != "stream"@ && key != "tools"@ && key != "tool_choice"@ && key
                != "parallel_tool_calls"@ ==> payload.get(key) is None
        }),
{
    lemma_payload_keys();
}

/// A model that a router in front of the proxy names is what follows the last slash;
/// any other is named as it is.
pub proof fn law_routed_models(before: Seq<char>, model: Seq<char>)
    requires
        forall|i: int| 0 <= i < model.len() ==> model[i] != '/',
    ensures
        routed_model("custom-router-codex-proxy/"@ + model) == model,
        routed_model("custom-router-codex-proxy/"@ + before.push('/') + model) == model,
        !"custom-router-codex-proxy/"@.is_prefix_of(before) ==> routed_model(before) == before,
{
    reveal_strlit("custom-router-codex-proxy/");
    let p = "custom-router-codex-proxy/"@;
    assert(p.len() == 26 && p[25] == '/');
    let a = p + model;
    assert(a.subrange(0, 26) =~= p);
    assert forall|j: int| 26 <= j < a.len() implies a[j] != '/' by {
        assert(a[j] == model[j - 26]);
    }
    lemma_last_segment(a, 26);
    assert(a.skip(26) =~= model);
    let b = p + before.push('/') + model;
    let n = 27 + before.len();
    assert(b.subrange(0, 26) =~= p);
    assert(b[n - 1] == '/');
    assert forall|j: int| n <= j < b.len() implies b[j] != '/' by {
        assert(b[j] == model[j - n]);
    }
    lemma_last_segment(b, n as int);
    assert(b.skip(n as int) =~= model);
}

/// The models that are served are those whose names begin with `gpt-5`.
pub proof fn law_served_models(rest: Seq<char>, model: Seq<char>)
    requires
        model.len() < 5 || model.take(5) != seq!['g', 'p', 't', '-', '5'],
    ensures
        served_model(seq!['g', 'p', 't', '-', '5'] + rest),
        !served_model(model),
{
    reveal_strlit("gpt-5");
    let p = seq!['g', 'p', 't', '-', '5'];
    assert("gpt-5"@ =~= p);
    assert((p + rest).subrange(0, 5) =~= p);
}

/// A client that asks for a model that is not served reads which one it asked for.
pub proof fn law_unserved_models_are_named(model: Seq<char>)
    ensures
        unserved_message(model).len() >= model.len(),
        unserved_message(model).skip(unserved_message(model).len() - model.len()) == model,
{
    let s = unserved_message(model);
    assert(s.skip(s.len() - model.len()) =~= model);
}

} // verus!
