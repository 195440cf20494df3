//! A chat completion for a client that did not ask for a stream, and the
//! replies of the chat endpoint that report errors.
use crate::ids;
use crate::json;
use crate::json::{Json, JsonV};
use crate::models::{self, ChoiceV, EventV, ResponseEvent};
use crate::replies;
use crate::replies::Reply;
use vstd::prelude::*;

verus! {

/// An answer that is put together out of its pieces.
pub struct AnswerV {
    /// All texts one after the other.
    pub content: Seq<char>,
    /// The last reason that was given for the answer's end.
    pub finish_reason: Seq<char>,
}

/// An answer of which no piece is in.
pub open spec fn empty_answer() -> AnswerV {
    AnswerV { content: seq![], finish_reason: "stop"@ }
}

/// An answer with one choice of a piece added.
pub open spec fn with_choice(a: AnswerV, choice: ChoiceV) -> AnswerV {
    AnswerV {
        content: match choice.delta.content {
            Some(s) => a.content + s,
            None => a.content,
        },
        finish_reason: match choice.finish_reason {
            Some(reason) => reason,
            None => a.finish_reason,
        },
    }
}

/// An answer with choices of a piece added.
pub open spec fn with_choices(a: AnswerV, choices: Seq<ChoiceV>) -> AnswerV
    decreases choices.len(),
{
    if choices.len() == 0 {
        a
    } else {
        with_choice(with_choices(a, choices.drop_last()), choices.last())
    }
}

/// An answer with a piece added.
pub open spec fn with_piece(a: AnswerV, piece: EventV) -> AnswerV {
    with_choices(a, piece.choices)
}

/// An answer put together out of pieces.
pub open spec fn answer_of(pieces: Seq<EventV>) -> AnswerV
    decreases pieces.len(),
{
    if pieces.len() == 0 {
        empty_answer()
    } else {
        with_piece(answer_of(pieces.drop_last()), pieces.last())
    }
}

/// The texts of choices, one after the other.
pub open spec fn choices_content(choices: Seq<ChoiceV>) -> Seq<char>
    decreases choices.len(),
{
    if choices.len() == 0 {
        seq![]
    } else {
        choices_content(choices.drop_last()) + match choices.last().delta.content {
            Some(s) => s,
            None => seq![],
        }
    }
}

/// A piece adds its own texts to an answer and takes nothing away.
pub proof fn law_piece_adds_its_texts(a: AnswerV, piece: EventV)
    ensures
        with_piece(a, piece).content == a.content + choices_content(piece.choices),
{
    lemma_choices_add(a, piece.choices);
}

proof fn lemma_choices_add(a: AnswerV, choices: Seq<ChoiceV>)
    ensures
        with_choices(a, choices).content == a.content + choices_content(choices),
    decreases choices.len(),
{
    if choices.len() == 0 {
        assert(a.content + choices_content(choices) =~= a.content);
    } else {
        lemma_choices_add(a, choices.drop_last());
        assert(with_choices(a, choices).content =~= a.content + choices_content(choices));
    }
}

/// Puts an answer together.
#[derive(Debug)]
pub struct Answer {
    pub content: String,
    pub finish_reason: String,
}

impl View for Answer {
    type V = AnswerV;

    open spec fn view(&self) -> AnswerV {
        AnswerV { content: self.content@, finish_reason: self.finish_reason@ }
    }
}

impl Answer {
    /// No piece yet.
    pub fn new() -> (r: Answer)
        ensures
            r@ == answer_of(seq![]),
    {
        let r = Answer { content: String::new(), finish_reason: "stop".to_owned() };
        assert(r@.content =~= seq![]);
        r
    }

    /// Adds a piece.
    pub fn take(&mut self, piece: &ResponseEvent)
        ensures
            final(self)@ == with_piece(old(self)@, piece@),
    {
        let ghost all = piece@.choices;
        for i in 0..piece.choices.len()
            invariant
                all == models::choices_view(piece.choices@),
                self@ == with_choices(old(self)@, all.take(i as int)),
        {
            let choice = &piece.choices[i];
            assert(all[i as int] == choice@);
            assert(all.take(i + 1).drop_last() =~= all.take(i as int));
            if let Some(s) = &choice.delta.content {
                self.content.append(s.as_str());
            }
            if let Some(reason) = &choice.finish_reason {
                self.finish_reason = reason.clone();
            }
        }
        assert(all.take(all.len() as int) =~= all);
    }
}

/// A chat completion.
pub open spec fn completion(
    uuid: Seq<char>,
    created: i64,
    model: Seq<char>,
    answer: AnswerV,
) -> JsonV {
    let message = JsonV::empty_object().with("role"@, JsonV::Str("assistant"@)).with(
        "content"@,
        JsonV::Str(answer.content),
    );
    let choice = JsonV::empty_object().with("index"@, JsonV::integer(0)).with(
        "message"@,
        message,
    ).with("finish_reason"@, JsonV::Str(answer.finish_reason));
    let usage = JsonV::empty_object().with("prompt_tokens"@, JsonV::integer(0)).with(
        "completion_tokens"@,
        JsonV::integer(0),
    ).with("total_tokens"@, JsonV::integer(0));
    JsonV::empty_object().with("id"@, JsonV::Str("chatcmpl-"@ + uuid.take(8))).with(
        "object"@,
        JsonV::Str("chat.completion"@),
    ).with("created"@, JsonV::integer(created as int)).with("model"@, JsonV::Str(model)).with(
        "choices"@,
        JsonV::Array(seq![choice]),
    ).with("usage"@, usage)
}

/// The chat completion that holds an answer.
pub fn build_completion(uuid: &str, created: i64, model: &str, answer: &Answer) -> (r: Json)
    requires
        uuid@.len() >= 8,
    ensures
        r@ == completion(uuid@, created, model@, answer@),
{
    let id = "chatcmpl-".to_owned().concat(ids::short_form(uuid));
    let message = Json::object().with("role", Json::text("assistant")).with(
        "content",
        Json::text(answer.content.as_str()),
    );
    let choice = Json::object().with("index", Json::unsigned(0)).with("message", message).with(
        "finish_reason",
        Json::text(answer.finish_reason.as_str()),
    );
    let mut choices: Vec<Json> = Vec::new();
    let ghost one = choice@;
    choices.push(choice);
    assert(json::list_view(choices@) =~= seq![one]);
    let usage = Json::object().with("prompt_tokens", Json::unsigned(0)).with(
        "completion_tokens",
        Json::unsigned(0),
    ).with("total_tokens", Json::unsigned(0));
    Json::object().with("id", Json::text(id.as_str())).with(
        "object",
        Json::text("chat.completion"),
    ).with("created", Json::signed(created)).with("model", Json::text(model)).with(
        "choices",
        Json::array(choices),
    ).with("usage", usage)
}

/// The reply that holds an answer, under a fresh identifier.
pub fn completion_reply(created: i64, model: &str, answer: &Answer) -> (r: Reply)
    ensures
        r.status == 200,
        exists|uuid: Seq<char>|
            ids::uuid_form(uuid) && r.body@ == #[trigger] completion(
                uuid,
                created,
                model@,
                answer@,
            ),
{
    let uuid = ids::fresh_uuid();
    let body = build_completion(uuid.as_str(), created, model, answer);
    assert(body@ == completion(uuid@, created, model@, answer@));
    Reply { status: 200, body }
}

/// Whether a piece is sent to a client that asked for a stream: one that adds
/// to no answer is not.
pub fn is_streamed(piece: &ResponseEvent) -> (r: bool)
    ensures
        r == (piece@.choices.len() > 0),
{
    piece.choices.len() > 0
}

/// The body that tells of an error while the answer came in.
pub open spec fn stream_error_object(e: Seq<char>) -> JsonV {
    replies::error_object("Stream error: "@ + e, "stream_error"@, "stream_error"@)
}

/// The reply that tells of an error while the answer came in.
pub fn stream_error_reply(e: &str) -> (r: Reply)
    ensures
        r.status == 500,
        r.body@ == stream_error_object(e@),
{
    let message = "Stream error: ".to_owned().concat(e);
    replies::error_reply(500, message.as_str(), "stream_error", "stream_error")
}

/// The data that tells a client that asked for a stream of an error while the
/// answer came in.
pub fn stream_error_data(e: &str) -> (r: String)
    ensures
        r@ == json::json_encoding(stream_error_object(e@)),
{
    stream_error_reply(e).body.encode()
}

/// The reply to a request for a chat completion that could not be taken up.
pub fn chat_error_reply(e: &str) -> (r: Reply)
    ensures
        r.status == 500,
        r.body@ == replies::error_object(
            "Failed to process chat completion: "@ + e@,
            "server_error"@,
            "internal_error"@,
        ),
{
    let message = "Failed to process chat completion: ".to_owned().concat(e);
    replies::error_reply(500, message.as_str(), "server_error", "internal_error")
}

proof fn lemma_completion_keys()
    ensures
        "role"@ != "content"@,
        "index"@ != "message"@,
        "index"@ != "finish_reason"@,
        "message"@ != "finish_reason"@,
        "prompt_tokens"@ != "completion_tokens"@,
        "prompt_tokens"@ != "total_tokens"@,
        "completion_tokens"@ != "total_tokens"@,
        "id"@ != "object"@,
        "id"@ != "created"@,
        "id"@ != "model"@,
        "id"@ != "choices"@,
        "id"@ != "usage"@,
        "object"@ != "created"@,
        "object"@ != "model"@,
        "object"@ != "choices"@,
        "object"@ != "usage"@,
        "created"@ != "model"@,
        "created"@ != "choices"@,
        "created"@ != "usage"@,
        "model"@ != "choices"@,
        "model"@ != "usage"@,
        "choices"@ != "usage"@,
{
    reveal_strlit("role");
    reveal_strlit("content");
    reveal_strlit("index");
    reveal_strlit("message");
    reveal_strlit("finish_reason");
    reveal_strlit("prompt_tokens");
    reveal_strlit("completion_tokens");
    reveal_strlit("total_tokens");
    reveal_strlit("id");
    reveal_strlit("object");
    reveal_strlit("created");
    reveal_strlit("model");
    reveal_strlit("choices");
    reveal_strlit("usage");
    assert("role"@.len() == 4 && "content"@.len() == 7);
    assert("index"@.len() == 5 && "message"@.len() == 7 && "finish_reason"@.len() == 13);
    assert("prompt_tokens"@.len() == 13 && "completion_tokens"@.len() == 17
        && "total_tokens"@.len() == 12);
    assert("id"@.len() == 2 && "object"@.len() == 6);
    assert("created"@.len() == 7 && "created"@[1] == 'r');
    assert("choices"@.len() == 7 && "choices"@[1] == 'h');
    assert("model"@.len() == 5 && "model"@[0] == 'm');
    assert("usage"@.len() == 5 && "usage"@[0] == 'u');
}

/// A completion has one choice, whose message is the assistant's and says the
/// answer character for character, with the reason for the answer's end; it names
/// the model and the time, and counts no tokens.
pub proof fn law_completion_says_the_answer(
    uuid: Seq<char>,
    created: i64,
    model: Seq<char>,
    answer: AnswerV,
)
    ensures
        ({
            let c = completion(uuid, created, model, answer);
            &&& c.get("object"@) == Some(JsonV::Str("chat.completion"@))
            &&& c.get("model"@) == Some(JsonV::Str(model))
            &&& c.get("created"@) == Some(JsonV::integer(created as int))
            &&& c.get("id"@) == Some(JsonV::Str("chatcmpl-"@ + uuid.take(8)))
            &&& c.get("choices"@) matches Some(JsonV::Array(choices)) && {
                &&& choices.len() == 1
                &&& choices[0].get("index"@) == Some(JsonV::integer(0))
                &&& choices[0].get("finish_reason"@) == Some(JsonV::Str(answer.finish_reason))
                &&& choices[0].get("message"@) matches Some(message) && message.get("role"@)
                    == Some(JsonV::Str("assistant"@)) && message.get("content"@) == Some(
                    JsonV::Str(answer.content),
                )
            }
            &&& c.get("usage"@) matches Some(usage) && {
                &&& usage.get("prompt_tokens"@) == Some(JsonV::integer(0))
                &&& usage.get("completion_tokens"@) == Some(JsonV::integer(0))
                &&& usage.get("total_tokens"@) == Some(JsonV::integer(0))
            }
        }),
{
    lemma_completion_keys();
}

/// What the message of a completion's choice says.
pub open spec fn completion_text(c: JsonV) -> Option<JsonV> {
    match c.get("choices"@) {
        Some(JsonV::Array(choices)) => if choices.len() == 1 {
            match choices[0].get("message"@) {
                Some(message) => message.get("content"@),
                None => None,
            }
        } else {
            None
        },
        _ => None,
    }
}

proof fn lemma_answer_content(pieces: Seq<EventV>, texts: Seq<Seq<char>>)
    requires
        pieces.len() == texts.len(),
        forall|i: int|
            0 <= i < pieces.len() ==> {
                &&& (#[trigger] pieces[i]).choices.len() == 1
                &&& pieces[i].choices[0].delta.content == Some(texts[i])
            },
    ensures
        answer_of(pieces).content == texts.flatten(),
    decreases pieces.len(),
{
    if pieces.len() > 0 {
        let n = pieces.len() - 1;
        lemma_answer_content(pieces.drop_last(), texts.drop_last());
        let a = answer_of(pieces.drop_last());
        let choices = pieces[n].choices;
        assert(choices.drop_last() =~= seq![]);
        reveal_with_fuel(with_choices, 2);
        assert(with_piece(a, pieces.last()) == with_choice(a, choices[0]));
        assert(answer_of(pieces).content =~= a.content + texts[n]);
        assert(texts =~= texts.drop_last().push(texts[n]));
        texts.drop_last().lemma_flatten_push(texts[n]);
    }
}

/// What a completion says is the texts of all pieces that were taken, one after
/// the other, character for character.
pub proof fn law_completion_says_every_text(
    uuid: Seq<char>,
    created: i64,
    model: Seq<char>,
    pieces: Seq<EventV>,
    texts: Seq<Seq<char>>,
)
    requires
        pieces.len() == texts.len(),
        forall|i: int|
            0 <= i < pieces.len() ==> {
                &&& (#[trigger] pieces[i]).choices.len() == 1
                &&& pieces[i].choices[0].delta.content == Some(texts[i])
            },
    ensures
        completion_text(completion(uuid, created, model, answer_of(pieces))) == Some(
            JsonV::Str(texts.flatten()),
        ),
{
    lemma_answer_content(pieces, texts);
    law_completion_says_the_answer(uuid, created, model, answer_of(pieces));
}

/// One choice more of a piece adds its text, if it has one, behind all that the
/// completion says, and the reason that it gives for the answer's end, if it gives
/// one, takes the place of any before; a piece without choices adds nothing.
pub proof fn law_completion_grows_by_each_choice(
    uuid: Seq<char>,
    created: i64,
    model: Seq<char>,
    pieces: Seq<EventV>,
    piece: EventV,
    choice: ChoiceV,
)
    ensures
        answer_of(seq![]).content.len() == 0,
        answer_of(seq![]).finish_reason == "stop"@,
        answer_of(pieces.push(EventV { choices: seq![], ..piece })) == answer_of(pieces),
        ({
            let longer = EventV { choices: piece.choices.push(choice), ..piece };
            let a = answer_of(pieces.push(piece));
            let b = answer_of(pieces.push(longer));
            &&& choice.delta.content matches Some(s) ==> b.content == a.content + s
            &&& choice.delta.content matches Some(s) ==> completion_text(
                completion(uuid, created, model, b),
            ) == Some(JsonV::Str(a.content + s))
            &&& choice.delta.content is None ==> b.content == a.content
            &&& choice.finish_reason matches Some(reason) ==> b.finish_reason == reason
            &&& choice.finish_reason is None ==> b.finish_reason == a.finish_reason
        }),
{
    let longer = EventV { choices: piece.choices.push(choice), ..piece };
    let empty = EventV { choices: seq![], ..piece };
    assert(pieces.push(piece).drop_last() =~= pieces);
    assert(pieces.push(longer).drop_last() =~= pieces);
    assert(pieces.push(empty).drop_last() =~= pieces);
    assert(longer.choices.drop_last() =~= piece.choices);
    law_completion_says_the_answer(uuid, created, model, answer_of(pieces.push(longer)));
}

/// A client is told in full of an error while the answer came in.
pub proof fn law_stream_errors_are_told_in_full(e: Seq<char>)
    ensures
        stream_error_object(e).get("error"@) matches Some(error) && error.get("message"@) == Some(
            JsonV::Str("Stream error: "@ + e),
        ) && error.get("type"@) == Some(JsonV::Str("stream_error"@)) && error.get("code"@) == Some(
            JsonV::Str("stream_error"@),
        ),
{
    replies::law_errors_are_reported("Stream error: "@ + e, "stream_error"@, "stream_error"@);
}

} // verus!
