//! The upstream service's answer as it comes in, turned into pieces of a chat
//! completion.
use crate::chat_events;
use crate::ids;
use crate::json::{self, Json, JsonV, Parsed};
use crate::models::{EventV, ResponseChoice, ResponseDelta, ResponseEvent};
use crate::sse::{self, LineBuffer, LineData, SseLine};
use crate::text;
use vstd::prelude::*;

verus! {

/// A piece that tells the client of an error.
pub open spec fn error_piece(
    uuid: Seq<char>,
    now: i64,
    model: Seq<char>,
    message: Seq<char>,
) -> EventV {
    chat_events::single_choice(
        "error-"@ + uuid,
        now,
        model,
        chat_events::assistant_delta(Some(message), None),
        Some("error"@),
    )
}

/// A piece that tells the client of an error.
pub fn error_event(uuid: &str, now: i64, model: &str, message: String) -> (r: ResponseEvent)
    ensures
        r@ == error_piece(uuid@, now, model@, message@),
{
    let mut choices: Vec<ResponseChoice> = Vec::new();
    choices.push(
        ResponseChoice {
            index: 0,
            delta: ResponseDelta {
                role: Some("assistant".to_owned()),
                content: Some(message),
                tool_calls: None,
            },
            finish_reason: Some("error".to_owned()),
        },
    );
    let r = ResponseEvent {
        id: "error-".to_owned().concat(uuid),
        object: "chat.completion.chunk".to_owned(),
        created: now,
        model: model.to_owned(),
        choices,
    };
    assert(r@.choices =~= error_piece(uuid@, now, model@, message@).choices);
    r
}

/// A piece that tells the client of an error, under a fresh identifier.
pub fn fresh_error_event(now: i64, model: &str, message: String) -> (r: ResponseEvent)
    ensures
        exists|uuid: Seq<char>|
            ids::uuid_form(uuid) && r@ == #[trigger] error_piece(uuid, now, model@, message@),
{
    let uuid = ids::fresh_uuid();
    let r = error_event(uuid.as_str(), now, model, message);
    assert(r@ == error_piece(uuid@, now, model@, message@));
    r
}

/// What the client reads when the upstream service refuses the request.
pub open spec fn refusal_message(status: u16, status_text: Seq<char>, body: Seq<char>) -> Seq<char> {
    if status == 429 && text::holds_text(body, "usage_limit_reached"@) {
        "You've hit your usage limit. Upgrade to Pro (https://openai.com/chatgpt/pricing), or wait for limits to reset (every 5h and every week.)."@
    } else {
        "Error: "@ + status_text + " - "@ + body
    }
}

/// What the client reads when the upstream service refuses the request.
pub fn refusal_text(status: u16, status_text: &str, body: &str) -> (r: String)
    ensures
        r@ == refusal_message(status, status_text@, body@),
{
    if status == 429 && text::contains_text(body, "usage_limit_reached") {
        "You've hit your usage limit. Upgrade to Pro (https://openai.com/chatgpt/pricing), or wait for limits to reset (every 5h and every week.).".to_owned()
    } else {
        text::concat3("Error: ", status_text, " - ").concat(body)
    }
}

/// The body of a refusal, or what stands for it where it could not be read.
pub open spec fn refusal_body(body: Option<Seq<char>>) -> Seq<char> {
    match body {
        Some(s) => s,
        None => "Failed to read response body"@,
    }
}

/// The piece that a client gets when the upstream service refuses the request,
/// under a fresh identifier.
pub fn refusal_event(
    now: i64,
    model: &str,
    status: u16,
    status_text: &str,
    body: &Option<String>,
) -> (r: ResponseEvent)
    ensures
        exists|uuid: Seq<char>|
            ids::uuid_form(uuid) && r@ == #[trigger] error_piece(
                uuid,
                now,
                model@,
                refusal_message(status, status_text@, refusal_body(json::option_text(*body))),
            ),
{
    let message = match body {
        Some(s) => refusal_text(status, status_text, s.as_str()),
        None => refusal_text(status, status_text, "Failed to read response body"),
    };
    let ghost said = message@;
    assert(said == refusal_message(
        status,
        status_text@,
        refusal_body(json::option_text(*body)),
    ));
    let r = fresh_error_event(now, model, message);
    let ghost uuid = choose|uuid: Seq<char>|
        ids::uuid_form(uuid) && r@ == #[trigger] error_piece(uuid, now, model@, said);
    assert(r@ == error_piece(uuid, now, model@, said));
    r
}

/// The piece that a client gets when the answer breaks off, under a fresh
/// identifier.
pub fn broken_stream_event(now: i64, model: &str, e: &str) -> (r: ResponseEvent)
    ensures
        exists|uuid: Seq<char>|
            ids::uuid_form(uuid) && r@ == #[trigger] error_piece(
                uuid,
                now,
                model@,
                "Stream error: "@ + e@,
            ),
{
    fresh_error_event(now, model, "Stream error: ".to_owned().concat(e))
}

/// The text that a piece adds to the answer, without blanks around it.
pub open spec fn piece_text(piece: EventV) -> Option<Seq<char>> {
    if piece.choices.len() > 0 {
        match piece.choices[0].delta.content {
            Some(s) => Some(text::trimmed(s)),
            None => None,
        }
    } else {
        None
    }
}

/// What becomes of a line.
pub enum LineOutcome {
    /// Nothing is sent.
    Nothing,
    /// The answer is over.
    Done,
    /// A piece is sent.
    Send(EventV),
}

/// What becomes of a piece, after `last` was the text sent last: a piece that
/// repeats it is not sent.
pub open spec fn after_piece(last: Option<Seq<char>>, piece: EventV) -> (
    Option<Seq<char>>,
    LineOutcome,
) {
    match piece_text(piece) {
        Some(s) => if s.len() > 0 && last == Some(s) {
            (last, LineOutcome::Nothing)
        } else if s.len() > 0 {
            (Some(s), LineOutcome::Send(piece))
        } else {
            (last, LineOutcome::Send(piece))
        },
        None => (last, LineOutcome::Send(piece)),
    }
}

/// What becomes of a line, after `last` was the text sent last, and the text
/// sent last then.
pub open spec fn after_line(
    last: Option<Seq<char>>,
    line: Seq<char>,
    model: Seq<char>,
    now: i64,
    event_uuid: Seq<char>,
    call_uuid: Seq<char>,
) -> (Option<Seq<char>>, LineOutcome) {
    match sse::sse_line(line) {
        SseLine::Nothing => (last, LineOutcome::Nothing),
        SseLine::Done => (last, LineOutcome::Done),
        SseLine::Data(data) => match json::parsed_json(data) {
            Parsed::Failure(e) => (
                last,
                LineOutcome::Send(
                    error_piece(event_uuid, now, model, "JSON parse error: "@ + e),
                ),
            ),
            Parsed::Value(v) => match chat_events::event_piece(v, now, event_uuid, call_uuid) {
                None => (last, LineOutcome::Nothing),
                Some(piece) => after_piece(last, piece),
            },
        },
    }
}

/// A text that was sent is not sent again right after.
pub proof fn law_repeated_text_is_not_sent(
    last: Option<Seq<char>>,
    first: EventV,
    second: EventV,
)
    requires
        piece_text(first) is Some,
        piece_text(first)->0.len() > 0,
        piece_text(second) == piece_text(first),
    ensures
        after_piece(after_piece(last, first).0, second).1 is Nothing,
{
}

/// A text that differs from the one sent last is sent, and so is a piece
/// without text.
pub proof fn law_other_pieces_are_sent(last: Option<Seq<char>>, piece: EventV)
    requires
        piece_text(piece) is None || piece_text(piece)->0.len() == 0 || piece_text(piece) != last,
    ensures
        after_piece(last, piece).1 == LineOutcome::Send(piece),
{
}

/// What a line is taken with: the time, and the identifiers to give out where
/// its event brings none.
pub struct TakenWith {
    pub now: i64,
    pub event_uuid: Seq<char>,
    pub call_uuid: Seq<char>,
}

/// How far an answer has come.
pub struct ProgressV {
    /// The text sent last.
    pub last: Option<Seq<char>>,
    /// The pieces that were sent.
    pub sent: Seq<EventV>,
    /// The texts of those that came from events, but for blank ones.
    pub texts: Seq<Seq<char>>,
    /// Whether the answer is over.
    pub done: bool,
}

/// Whether a line brings data that is not JSON.
pub open spec fn garbled(line: Seq<char>) -> bool {
    sse::sse_line(line) matches SseLine::Data(data) && json::parsed_json(data) is Failure
}

/// How far an answer has come once one more line is in; nothing follows once it
/// is over.
pub open spec fn progress_after(
    p: ProgressV,
    line: Seq<char>,
    model: Seq<char>,
    with: TakenWith,
) -> ProgressV {
    if p.done {
        p
    } else {
        let after = after_line(p.last, line, model, with.now, with.event_uuid, with.call_uuid);
        match after.1 {
            LineOutcome::Nothing => ProgressV { last: after.0, ..p },
            LineOutcome::Done => ProgressV { last: after.0, done: true, ..p },
            LineOutcome::Send(piece) => ProgressV {
                last: after.0,
                sent: p.sent.push(piece),
                texts: match piece_text(piece) {
                    Some(s) if s.len() > 0 && !garbled(line) => p.texts.push(s),
                    _ => p.texts,
                },
                ..p
            },
        }
    }
}

/// How far an answer has come once lines are in, each taken with what stands at
/// its place.
pub open spec fn progress(
    lines: Seq<Seq<u8>>,
    model: Seq<char>,
    with: spec_fn(int) -> TakenWith,
) -> ProgressV
    decreases lines.len(),
{
    if lines.len() == 0 {
        ProgressV { last: None, sent: seq![], texts: seq![], done: false }
    } else {
        progress_after(
            progress(lines.drop_last(), model, with),
            sse::chomped(sse::lossy_utf8(lines.last())),
            model,
            with(lines.len() - 1),
        )
    }
}

/// Where the answer is cut into chunks makes no difference to what is sent.
pub proof fn law_answer_does_not_depend_on_chunks(
    a: Seq<u8>,
    b: Seq<u8>,
    model: Seq<char>,
    with: spec_fn(int) -> TakenWith,
)
    ensures
        progress(sse::complete_lines(a + b), model, with) == progress(
            sse::complete_lines(a) + sse::complete_lines(sse::remainder(a) + b),
            model,
            with,
        ),
{
    sse::law_chunks_make_no_difference(a, b);
}

/// Nothing is sent once the answer is over.
pub proof fn law_nothing_follows_the_end(
    lines: Seq<Seq<u8>>,
    more: Seq<Seq<u8>>,
    model: Seq<char>,
    with: spec_fn(int) -> TakenWith,
)
    requires
        progress(lines, model, with).done,
    ensures
        progress(lines + more, model, with) == progress(lines, model, with),
    decreases more.len(),
{
    if more.len() == 0 {
        assert(lines + more =~= lines);
    } else {
        law_nothing_follows_the_end(lines, more.drop_last(), model, with);
        assert((lines + more).drop_last() =~= lines + more.drop_last());
    }
}

proof fn lemma_last_is_last(lines: Seq<Seq<u8>>, model: Seq<char>, with: spec_fn(int) -> TakenWith)
    ensures
        progress(lines, model, with).last == if progress(lines, model, with).texts.len() == 0 {
            None
        } else {
            Some(progress(lines, model, with).texts.last())
        },
    decreases lines.len(),
{
    if lines.len() > 0 {
        lemma_last_is_last(lines.drop_last(), model, with);
    }
}

/// No text is sent twice in a row, however long the answer is and whatever
/// comes between.
pub proof fn law_no_text_is_sent_twice_in_a_row(
    lines: Seq<Seq<u8>>,
    model: Seq<char>,
    with: spec_fn(int) -> TakenWith,
    i: int,
)
    requires
        0 < i < progress(lines, model, with).texts.len(),
    ensures
        progress(lines, model, with).texts[i - 1] != progress(lines, model, with).texts[i],
    decreases lines.len(),
{
    let before = progress(lines.drop_last(), model, with);
    lemma_last_is_last(lines.drop_last(), model, with);
    if i < before.texts.len() {
        law_no_text_is_sent_twice_in_a_row(lines.drop_last(), model, with, i);
    }
}

/// What a line leads to, as it is handed out.
#[derive(Debug)]
pub enum StreamStep {
    /// No complete line is there: more must come in first.
    NeedMore,
    /// The line led to nothing.
    Nothing,
    /// The answer is over.
    Done,
    /// A piece to send.
    Send(ResponseEvent),
}

/// Whether a step is what became of a line.
pub open spec fn step_is(step: StreamStep, outcome: LineOutcome) -> bool {
    match step {
        StreamStep::NeedMore => false,
        StreamStep::Nothing => outcome is Nothing,
        StreamStep::Done => outcome is Done,
        StreamStep::Send(e) => outcome == LineOutcome::Send(e@),
    }
}

/// An answer as it comes in.
#[derive(Debug)]
pub struct ChatStream {
    pub lines: LineBuffer,
    pub last_sent: Option<String>,
    pub model: String,
}

impl ChatStream {
    /// An answer of which nothing has come in, to a request for a model.
    pub fn new(model: &str) -> (r: ChatStream)
        ensures
            r.lines@ == Seq::<u8>::empty(),
            r.last_sent is None,
            r.model@ == model@,
    {
        ChatStream { lines: LineBuffer::new(), last_sent: None, model: model.to_owned() }
    }

    /// Takes a chunk in.
    pub fn feed(&mut self, chunk: &[u8])
        ensures
            final(self).lines@ == old(self).lines@ + chunk@,
            final(self).last_sent == old(self).last_sent,
            final(self).model == old(self).model,
    {
        self.lines.feed(chunk);
    }

    /// Takes a line, with the identifiers to give out where its event brings
    /// none.
    pub fn take_line(&mut self, line: &str, now: i64, event_uuid: &str, call_uuid: &str) -> (r:
        StreamStep)
        requires
            event_uuid@.len() >= 8,
        ensures
            final(self).lines == old(self).lines,
            final(self).model == old(self).model,
            ({
                let after = after_line(
                    json::option_text(old(self).last_sent),
                    line@,
                    old(self).model@,
                    now,
                    event_uuid@,
                    call_uuid@,
                );
                json::option_text(final(self).last_sent) == after.0 && step_is(r, after.1)
            }),
    {
        let data = match sse::line_data(line) {
            LineData::Nothing => {
                return StreamStep::Nothing;
            },
            LineData::Done => {
                return StreamStep::Done;
            },
            LineData::Data(data) => data,
        };
        let event = match Json::parse(data) {
            Ok(event) => event,
            Err(e) => {
                let message = "JSON parse error: ".to_owned().concat(e.as_str());
                return StreamStep::Send(
                    error_event(event_uuid, now, self.model.as_str(), message),
                );
            },
        };
        let piece = match chat_events::event_to_piece(&event, now, event_uuid, call_uuid) {
            Some(piece) => piece,
            None => {
                return StreamStep::Nothing;
            },
        };
        let mut said: Option<String> = None;
        if piece.choices.len() > 0 {
            if let Some(content) = &piece.choices[0].delta.content {
                said = Some(text::trim(content.as_str()).to_owned());
            }
        }
        assert(json::option_text(said) == piece_text(piece@));
        if let Some(s) = said {
            if !s.as_str().is_empty() {
                if let Some(last) = &self.last_sent {
                    if s == *last {
                        return StreamStep::Nothing;
                    }
                }
                self.last_sent = Some(s);
            }
        }
        StreamStep::Send(piece)
    }

    /// Takes the next complete line, with fresh random identifiers where its
    /// event brings none.
    pub fn step(&mut self, now: i64) -> (r: StreamStep)
        ensures
            final(self).model == old(self).model,
            r is NeedMore <==> sse::complete_lines(old(self).lines@).len() == 0,
            r is NeedMore ==> final(self).lines@ == old(self).lines@ && final(self).last_sent
                == old(self).last_sent,
            !(r is NeedMore) ==> {
                let line = sse::complete_lines(old(self).lines@)[0];
                &&& final(self).lines@ == old(self).lines@.skip(line.len() as int)
                &&& exists|event_uuid: Seq<char>, call_uuid: Seq<char>|
                    {
                        &&& ids::uuid_form(event_uuid)
                        &&& ids::uuid_form(call_uuid)
                        &&& {
                            let after = #[trigger] after_line(
                                json::option_text(old(self).last_sent),
                                sse::chomped(sse::lossy_utf8(line)),
                                old(self).model@,
                                now,
                                event_uuid,
                                call_uuid,
                            );
                            json::option_text(final(self).last_sent) == after.0 && step_is(
                                r,
                                after.1,
                            )
                        }
                    }
            },
    {
        proof {
            text::lemma_first_at(self.lines@, sse::LINE_FEED);
        }
        let line = match self.lines.next_line() {
            Some(line) => line,
            None => {
                assert(sse::complete_lines(old(self).lines@).len() == 0);
                return StreamStep::NeedMore;
            },
        };
        let shown = sse::line_text(line.as_slice());
        let event_uuid = ids::fresh_uuid();
        let call_uuid = ids::fresh_uuid();
        let r = self.take_line(shown.as_str(), now, event_uuid.as_str(), call_uuid.as_str());
        assert(sse::complete_lines(old(self).lines@)[0] == line@);
        assert(json::option_text(self.last_sent) == after_line(
            json::option_text(old(self).last_sent),
            shown@,
            old(self).model@,
            now,
            event_uuid@,
            call_uuid@,
        ).0);
        r
    }
}

/// Whether a piece repeats the text that was sent last, but for white space around
/// it.
pub open spec fn repeats(last: Option<Seq<char>>, piece: EventV) -> bool {
    piece.choices.len() > 0 && (piece.choices[0].delta.content matches Some(s) && text::trimmed(
        s,
    ).len() > 0 && last == Some(text::trimmed(s)))
}

/// The piece that an event becomes is sent as it is, with the white space around its
/// text, unless it repeats the text that was sent last; and the text that was sent
/// last is then its own, without white space around it, where it has one that is
/// not blank.
pub proof fn law_pieces_are_sent_as_they_are(
    last: Option<Seq<char>>,
    line: Seq<char>,
    model: Seq<char>,
    with: TakenWith,
    data: Seq<char>,
    event: JsonV,
    piece: EventV,
)
    requires
        sse::sse_line(line) == SseLine::Data(data),
        json::parsed_json(data) == Parsed::Value(event),
        chat_events::event_piece(event, with.now, with.event_uuid, with.call_uuid) == Some(piece),
    ensures
        ({
            let after = after_line(last, line, model, with.now, with.event_uuid, with.call_uuid);
            &&& repeats(last, piece) ==> after.1 is Nothing && after.0 == last
            &&& !repeats(last, piece) ==> after.1 == LineOutcome::Send(piece)
            &&& !repeats(last, piece) && piece.choices.len() > 0 ==> (
            piece.choices[0].delta.content matches Some(s) ==> text::trimmed(s).len() > 0
                ==> after.0 == Some(text::trimmed(s)))
            &&& piece.choices.len() == 0 || piece.choices[0].delta.content is None ==> after.0
                == last
            &&& piece.choices.len() > 0 ==> (piece.choices[0].delta.content matches Some(s)
                ==> text::trimmed(s).len() == 0 ==> after.0 == last)
        }),
{
}

/// A delta that the upstream service streams is what the client reads, character
/// for character, unless it repeats the text that was sent last.
pub proof fn law_deltas_reach_the_client(
    last: Option<Seq<char>>,
    line: Seq<char>,
    model: Seq<char>,
    with: TakenWith,
    data: Seq<char>,
    event: JsonV,
    s: Seq<char>,
)
    requires
        sse::sse_line(line) == SseLine::Data(data),
        json::parsed_json(data) == Parsed::Value(event),
        event.get("type"@) == Some(JsonV::Str("response.output_text.delta"@)),
        event.get("delta"@) == Some(JsonV::Str(s)),
        event.get("response"@) is None,
        event.get("choices"@) is None,
        event.get("content"@) is None,
        event.get("message"@) is None,
        event.get("text"@) is None,
        last != Some(text::trimmed(s)) || text::trimmed(s).len() == 0,
    ensures
        after_line(last, line, model, with.now, with.event_uuid, with.call_uuid).1 matches LineOutcome::Send(
            piece,
        ) && piece.choices.len() == 1 && piece.choices[0].delta.content == Some(s),
{
    reveal_strlit("response.output_text.delta");
    reveal_strlit("response.function_call_arguments.delta");
    reveal_strlit("response.function_call_arguments.done");
    reveal_strlit("response.output_item.done");
    assert("response.output_text.delta"@.len() == 26);
    assert("response.function_call_arguments.delta"@.len() == 38);
    assert("response.function_call_arguments.done"@.len() == 37);
    assert("response.output_item.done"@.len() == 25);
    chat_events::law_deltas_are_sent_as_they_stand(
        event,
        with.now,
        with.event_uuid,
        with.call_uuid,
        s,
    );
}

/// A line without data, or with an event that becomes no piece, leads to nothing;
/// the mark that nothing follows ends the answer; and data that is no JSON leads to
/// a piece that tells of the error.  None of them changes the text sent last.
pub proof fn law_other_lines_of_an_answer(
    last: Option<Seq<char>>,
    line: Seq<char>,
    model: Seq<char>,
    with: TakenWith,
    data: Seq<char>,
    event: JsonV,
    e: Seq<char>,
)
    ensures
        ({
            let after = after_line(last, line, model, with.now, with.event_uuid, with.call_uuid);
            &&& sse::sse_line(line) is Nothing ==> after.1 is Nothing && after.0 == last
            &&& sse::sse_line(line) is Done ==> after.1 is Done && after.0 == last
            &&& sse::sse_line(line) == SseLine::Data(data) && json::parsed_json(data)
                == Parsed::Value(event) && chat_events::event_piece(
                event,
                with.now,
                with.event_uuid,
                with.call_uuid,
            ) is None ==> after.1 is Nothing && after.0 == last
            &&& sse::sse_line(line) == SseLine::Data(data) && json::parsed_json(data)
                == Parsed::Failure(e) ==> after.0 == last && (after.1 matches LineOutcome::Send(
                piece,
            ) && piece.model == model && piece.choices.len() == 1
                && piece.choices[0].delta.content == Some("JSON parse error: "@ + e)
                && piece.choices[0].finish_reason == Some("error"@))
        }),
{
}

/// One line more adds what becomes of it behind what was sent before, until the
/// answer is over.
pub proof fn law_pieces_are_sent_in_order(
    lines: Seq<Seq<u8>>,
    line: Seq<u8>,
    model: Seq<char>,
    with: spec_fn(int) -> TakenWith,
)
    ensures
        progress(seq![], model, with).sent.len() == 0,
        !progress(seq![], model, with).done,
        ({
            let before = progress(lines, model, with);
            let now = progress(lines.push(line), model, with);
            let taken = with(lines.len() as int);
            let outcome = after_line(
                before.last,
                sse::chomped(sse::lossy_utf8(line)),
                model,
                taken.now,
                taken.event_uuid,
                taken.call_uuid,
            ).1;
            &&& before.done ==> now == before
            &&& !before.done && (outcome matches LineOutcome::Send(piece)) ==> now.sent
                == before.sent.push(outcome->Send_0) && !now.done
            &&& !before.done && outcome is Nothing ==> now.sent == before.sent && !now.done
            &&& !before.done && outcome is Done ==> now.sent == before.sent && now.done
        }),
{
    assert(lines.push(line).drop_last() =~= lines);
}

/// A piece that tells of an error says it in full, as the assistant, to the model
/// that was asked for, and ends the answer.
pub proof fn law_errors_are_told_in_full(
    uuid: Seq<char>,
    now: i64,
    model: Seq<char>,
    message: Seq<char>,
)
    ensures
        ({
            let piece = error_piece(uuid, now, model, message);
            &&& piece.id == "error-"@ + uuid
            &&& piece.object == "chat.completion.chunk"@
            &&& piece.created == now
            &&& piece.model == model
            &&& piece.choices.len() == 1
            &&& piece.choices[0].index == 0
            &&& piece.choices[0].delta.role == Some("assistant"@)
            &&& piece.choices[0].delta.content == Some(message)
            &&& piece.choices[0].delta.tool_calls is None
            &&& piece.choices[0].finish_reason == Some("error"@)
        }),
{
}

/// A refusal is told with its status and its whole body, unless it says that the
/// usage limit is reached, which is told in words of the proxy's own whatever else
/// the body holds.
pub proof fn law_refusals_are_told(
    status: u16,
    status_text: Seq<char>,
    body: Seq<char>,
    other: Seq<char>,
)
    ensures
        status != 429 ==> refusal_message(status, status_text, body) == "Error: "@ + status_text
            + " - "@ + body,
        !text::holds_text(body, "usage_limit_reached"@) ==> refusal_message(
            status,
            status_text,
            body,
        ) == "Error: "@ + status_text + " - "@ + body,
        text::holds_text(body, "usage_limit_reached"@) && text::holds_text(
            other,
            "usage_limit_reached"@,
        ) ==> refusal_message(429, status_text, body) == refusal_message(429, status_text, other),
        refusal_body(Some(body)) == body,
{
}

} // verus!
