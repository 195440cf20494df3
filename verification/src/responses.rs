//! Requests for responses: how they are completed before they are sent on, and
//! what is made of the event stream that comes back.
use crate::chat_request;
use crate::config::Config;
use crate::history;
use crate::json;
use crate::json::{Json, JsonV};
use crate::replies;
use crate::replies::Reply;
use crate::response_store;
use crate::response_store::{GatheredV, StoreError, StoreWrite, StoredResponse, StoredV};
use crate::sse;
use crate::sse::LineBuffer;
use crate::text;
use crate::tools;
use std::path::PathBuf;
use vstd::prelude::*;

verus! {

/// The input of a request as a list.
pub open spec fn listed_input(input: Option<JsonV>) -> Seq<JsonV> {
    match input {
        None => seq![],
        Some(JsonV::Null) => seq![],
        Some(JsonV::Array(items)) => items,
        Some(JsonV::Str(said)) => seq![chat_request::input_item("user"@, said)],
        Some(other) => seq![other],
    }
}

/// A request with all that the upstream service asks for: a model,
/// instructions, a list as input, and that the answer be streamed.
pub open spec fn completed_request(v: JsonV, model: Seq<char>, instructions: Seq<char>) -> JsonV {
    let a = tools::with_default(v, "model"@, JsonV::Str(model));
    let b = tools::with_default(a, "instructions"@, JsonV::Str(instructions));
    let c = if b.get_array("input"@) is Some {
        b
    } else {
        b.with("input"@, JsonV::Array(listed_input(b.get("input"@))))
    };
    c.with("stream"@, JsonV::Bool(true))
}

fn set_missing(v: &mut Json, key: &str, value: Json)
    requires
        old(v)@.settable(),
    ensures
        final(v)@ == tools::with_default(old(v)@, key@, value@),
        final(v)@.settable(),
{
    if v.get(key).is_none() {
        v.set(key, value);
    }
}

fn list_input(input: Option<&Json>) -> (r: Vec<Json>)
    ensures
        json::list_view(r@) == listed_input(
            match input {
                Some(v) => Some(v@),
                None => None,
            },
        ),
{
    match input {
        Some(v) => match v {
            Json::Null | Json::Array(_) | Json::Str(_) => history::input_items(input),
            other => {
                let mut r: Vec<Json> = Vec::new();
                r.push(other.clone());
                assert(json::list_view(r@) =~= seq![v@]);
                r
            },
        },
        None => history::input_items(input),
    }
}

/// Completes a request.
pub fn complete_request(v: &mut Json, model: &str, instructions: &str)
    requires
        old(v)@.settable(),
    ensures
        final(v)@ == completed_request(old(v)@, model@, instructions@),
{
    set_missing(v, "model", Json::text(model));
    set_missing(v, "instructions", Json::text(instructions));
    if v.get_array("input").is_none() {
        let items = list_input(v.get("input"));
        v.set("input", Json::array(items));
    }
    v.set("stream", Json::Bool(true));
}

/// A request that is ready to be sent on.
#[derive(Debug)]
pub struct ResponsesRequest {
    /// What is sent on.
    pub payload: Json,
    /// Whether the response is to be kept.
    pub should_store: bool,
    /// Whether the client asked for a stream.
    pub stream_requested: bool,
}

/// What is sent on for a client's request, where `chain` is the history that it
/// goes on from.
pub open spec fn sent_request(
    original: JsonV,
    chain: Seq<StoredV>,
    model: Seq<char>,
    instructions: Seq<char>,
) -> JsonV {
    completed_request(history::upstream_payload(original, chain), model, instructions)
}

/// Makes a client's request ready to be sent on, where `chain` is the history
/// that it goes on from.
pub fn build_responses_request(
    config: &Config,
    base_instructions: &str,
    original: &Json,
    chain: &Vec<StoredResponse>,
) -> (r: ResponsesRequest)
    requires
        original@.settable(),
    ensures
        r.payload@ == sent_request(
            original@,
            response_store::stored_views(chain@),
            config.model@,
            chat_request::with_user_instructions(
                base_instructions@,
                json::option_text(config.user_instructions),
            ),
        ),
        r.should_store == original@.get_flag("store"@),
        r.stream_requested == original@.get_flag("stream"@),
{
    let (prepared, should_store) = history::prepare_responses_payload(original, chain);
    proof {
        chat_request::lemma_payload_keys();
        history::law_other_members_are_sent_on(
            original@,
            response_store::stored_views(chain@),
            "stream"@,
        );
    }
    let instructions = chat_request::add_user_instructions(
        base_instructions,
        &config.user_instructions,
    );
    let stream_requested = prepared.get_flag("stream");
    let mut payload = prepared;
    complete_request(&mut payload, config.model.as_str(), instructions.as_str());
    ResponsesRequest { payload, should_store, stream_requested }
}

/// Whatever the client sends, the request that is sent on is not stored
/// upstream, is answered by a stream, has a model, instructions and a list as
/// input, and does not name the response that it goes on from where that is
/// known here.
pub proof fn law_sent_request_is_complete(
    original: JsonV,
    chain: Seq<StoredV>,
    model: Seq<char>,
    instructions: Seq<char>,
)
    requires
        original.settable(),
    ensures
        ({
            let sent = sent_request(original, chain, model, instructions);
            &&& sent.get("store"@) == Some(JsonV::Bool(false))
            &&& sent.get("stream"@) == Some(JsonV::Bool(true))
            &&& sent.get("model"@) == match original.get("model"@) {
                Some(m) => Some(m),
                None => Some(JsonV::Str(model)),
            }
            &&& sent.get("instructions"@) == match original.get("instructions"@) {
                Some(i) => Some(i),
                None => Some(JsonV::Str(instructions)),
            }
            &&& sent.get_array("input"@) is Some
            &&& history::previous_id(original) is Some ==> sent.get("previous_response_id"@) is None
        }),
{
    chat_request::lemma_payload_keys();
    history::law_upstream_never_stores(original, chain);
    history::law_other_members_are_sent_on(original, chain, "model"@);
    history::law_other_members_are_sent_on(original, chain, "instructions"@);
    if history::previous_id(original) is Some {
        history::law_history_takes_the_place_of_the_id(original, chain);
    }
}

/// No item of the input that is sent on is the model's own reasoning, where the
/// client sends a list or goes on from a kept response.
pub proof fn law_sent_input_has_no_reasoning(
    original: JsonV,
    chain: Seq<StoredV>,
    model: Seq<char>,
    instructions: Seq<char>,
    item: JsonV,
)
    requires
        original.settable(),
        history::previous_id(original) is Some || original.get_array("input"@) is Some,
        sent_request(original, chain, model, instructions).get_array("input"@)->0.contains(item),
    ensures
        !history::is_reasoning(item),
{
    chat_request::lemma_payload_keys();
    history::law_reasoning_is_not_sent_back(original, chain, item);
    if history::previous_id(original) is Some {
        history::law_history_takes_the_place_of_the_id(original, chain);
    }
}

/// The event that a line of an event stream brings.
pub open spec fn line_event(line: Seq<u8>) -> Option<JsonV> {
    if vstd::utf8::valid_utf8(line) {
        match sse::sse_line(vstd::utf8::decode_utf8(line)) {
            sse::SseLine::Data(data) => match json::parsed_json(data) {
                json::Parsed::Value(event) => Some(event),
                json::Parsed::Failure(_) => None,
            },
            _ => None,
        }
    } else {
        None
    }
}

/// Whether an event reports that a response is complete.
pub open spec fn reports_completion(event: JsonV) -> bool {
    event.get_str("type"@) == Some("response.completed"@)
}

/// An event with the output items filled in that were reported before.
pub open spec fn filled_event(event: JsonV, items: Seq<(u64, JsonV)>) -> JsonV {
    match event.get("response"@) {
        Some(response) => event.with(
            "response"@,
            response_store::filled_output(response, items),
        ),
        None => event,
    }
}

/// A line that brings an event.
pub open spec fn written_line(event: JsonV) -> Seq<u8> {
    vstd::utf8::encode_utf8("data: "@ + json::json_encoding(event) + "\n"@)
}

/// A line as the client gets it: one that reports completion with its output
/// filled in, any other as it came.
pub open spec fn patched_line(line: Seq<u8>, items: Seq<(u64, JsonV)>) -> Seq<u8> {
    match line_event(line) {
        Some(event) => if reports_completion(event) {
            written_line(filled_event(event, items))
        } else {
            line
        },
        None => line,
    }
}

/// The output items that were reported once one more line is in.
pub open spec fn items_after(line: Seq<u8>, items: Seq<(u64, JsonV)>) -> Seq<(u64, JsonV)> {
    match line_event(line) {
        Some(event) => match response_store::done_entry(event) {
            Some(entry) => items.push(entry),
            None => items,
        },
        None => items,
    }
}

/// A line that reports no completion reaches the client as it came.
pub proof fn law_other_lines_pass_unchanged(line: Seq<u8>, items: Seq<(u64, JsonV)>)
    requires
        !(line_event(line) matches Some(event) && reports_completion(event)),
    ensures
        patched_line(line, items) == line,
{
}

proof fn lemma_written_line(v: JsonV, t: Seq<char>)
    requires
        v is Object,
        t.len() >= 2,
        t[0] == '{',
        t.last() == '}',
        json::parsed_json(t) == json::Parsed::Value(v),
    ensures
        line_event(vstd::utf8::encode_utf8("data: "@ + t + "\n"@)) == Some(v),
{
    reveal_strlit("data: ");
    reveal_strlit("\n");
    reveal_strlit("[DONE]");
    let line = "data: "@ + t + "\n"@;
    vstd::utf8::encode_utf8_valid_utf8(line);
    vstd::utf8::encode_utf8_decode_utf8(line);
    assert(line.subrange(0, "data: "@.len() as int) =~= "data: "@);
    assert("data: "@.is_prefix_of(line));
    assert(line.skip("data: "@.len() as int) =~= t.push('\n'));
    text::lemma_trimmed_line_feed(t);
    assert("[DONE]"@[0] == '[');
}

fn bytes_of(s: &str) -> (r: Vec<u8>)
    ensures
        r@ == vstd::utf8::encode_utf8(s@),
{
    let bytes = s.as_bytes();
    let mut r: Vec<u8> = Vec::new();
    r.extend_from_slice(bytes);
    assert(r@ =~= bytes@);
    r
}

fn parse_line(line: &Vec<u8>) -> (r: Option<Json>)
    ensures
        json::option_view(r) == line_event(line@),
{
    match core::str::from_utf8(line.as_slice()) {
        Ok(text) => match sse::line_data(text) {
            sse::LineData::Data(data) => match Json::parse(data) {
                Ok(event) => Some(event),
                Err(_) => None,
            },
            _ => None,
        },
        Err(_) => None,
    }
}

/// A line as the client gets it, after the output items that were reported so
/// far; an item that the line reports is added to them.  A line that reports
/// completion still does so with the output filled in, where the event can be
/// read back from its text.
pub fn patch_responses_sse_line(line: Vec<u8>, items: &mut Vec<(u64, Json)>) -> (r: Vec<u8>)
    ensures
        r@ == patched_line(line@, response_store::entry_views(old(items)@)),
        response_store::entry_views(final(items)@) == items_after(
            line@,
            response_store::entry_views(old(items)@),
        ),
        line_event(line@) matches Some(event) ==> reports_completion(event) ==> ({
            let filled = filled_event(event, response_store::entry_views(old(items)@));
            json::exact_within(filled, json::parse_depth()) ==> line_event(r@) == Some(filled)
        }),
{
    let ghost before = response_store::entry_views(items@);
    let event = match parse_line(&line) {
        Some(event) => event,
        None => {
            return line;
        },
    };
    proof {
        reveal_strlit("response.completed");
        reveal_strlit("response.output_item.done");
        assert("response.completed"@.len() == 18);
        assert("response.output_item.done"@.len() == 25);
    }
    if let Some(entry) = response_store::output_item_done_entry(&event) {
        items.push(entry);
        assert(response_store::entry_views(items@) =~= before.push(
            response_store::entry_view(entry),
        ));
        return line;
    }
    if event.member_is("type", "response.completed") {
        let ghost came = event@;
        let mut event = event;
        let filled = match event.get("response") {
            Some(response) => {
                let mut response = response.clone();
                response_store::fill_output_from_items(&mut response, items);
                Some(response)
            },
            None => None,
        };
        if let Some(response) = filled {
            event.set("response", response);
        }
        assert(event@ == filled_event(came, before));
        let json = event.encode();
        proof {
            if json::exact_within(event@, json::parse_depth()) {
                lemma_written_line(event@, json@);
            }
        }
        return bytes_of(text::concat3("data: ", json.as_str(), "\n").as_str());
    }
    line
}

/// Lines as the client gets them, one after the other.
pub open spec fn relayed(lines: Seq<Seq<u8>>, items: Seq<(u64, JsonV)>) -> Seq<Seq<u8>>
    decreases lines.len(),
{
    if lines.len() == 0 {
        seq![]
    } else {
        seq![patched_line(lines[0], items)] + relayed(
            lines.drop_first(),
            items_after(lines[0], items),
        )
    }
}

/// The output items that were reported once lines are in.
pub open spec fn items_after_all(lines: Seq<Seq<u8>>, items: Seq<(u64, JsonV)>) -> Seq<
    (u64, JsonV),
>
    decreases lines.len(),
{
    if lines.len() == 0 {
        items
    } else {
        items_after_all(lines.drop_first(), items_after(lines[0], items))
    }
}

proof fn lemma_relayed_in_two(a: Seq<Seq<u8>>, b: Seq<Seq<u8>>, items: Seq<(u64, JsonV)>)
    ensures
        relayed(a + b, items) == relayed(a, items) + relayed(b, items_after_all(a, items)),
        items_after_all(a + b, items) == items_after_all(b, items_after_all(a, items)),
    decreases a.len(),
{
    if a.len() == 0 {
        assert(a + b =~= b);
        assert(relayed(a, items) + relayed(b, items) =~= relayed(b, items));
    } else {
        assert((a + b).drop_first() =~= a.drop_first() + b);
        let next = items_after(a[0], items);
        lemma_relayed_in_two(a.drop_first(), b, next);
        assert(relayed(a + b, items) =~= relayed(a, items) + relayed(b, items_after_all(a, items)));
    }
}

proof fn lemma_relayed_at(lines: Seq<Seq<u8>>, items: Seq<(u64, JsonV)>, k: int)
    requires
        0 <= k < lines.len(),
    ensures
        relayed(lines, items).len() == lines.len(),
        relayed(lines, items)[k] == patched_line(
            lines[k],
            items_after_all(lines.take(k), items),
        ),
    decreases lines.len(),
{
    lemma_relayed_len(lines, items);
    if k > 0 {
        lemma_relayed_at(lines.drop_first(), items_after(lines[0], items), k - 1);
        assert(lines.take(k).drop_first() =~= lines.drop_first().take(k - 1));
    }
}

proof fn lemma_relayed_len(lines: Seq<Seq<u8>>, items: Seq<(u64, JsonV)>)
    ensures
        relayed(lines, items).len() == lines.len(),
    decreases lines.len(),
{
    if lines.len() > 0 {
        lemma_relayed_len(lines.drop_first(), items_after(lines[0], items));
    }
}

/// What is gathered out of the lines of a stream.
pub open spec fn gathered_lines(lines: Seq<Seq<u8>>) -> GatheredV
    decreases lines.len(),
{
    if lines.len() == 0 {
        response_store::gathered(seq![])
    } else {
        let before = gathered_lines(lines.drop_last());
        match line_event(lines.last()) {
            Some(event) => response_store::after_event(before, event),
            None => before,
        }
    }
}

proof fn lemma_gathered_lines(lines: Seq<Seq<u8>>, texts: Seq<Seq<char>>)
    requires
        lines.len() == texts.len(),
        forall|i: int|
            #![trigger lines[i]]
            #![trigger texts[i]]
            0 <= i < lines.len() ==> vstd::utf8::valid_utf8(lines[i]) && sse::sse_line(
                vstd::utf8::decode_utf8(lines[i]),
            ) == sse::sse_line(texts[i]),
    ensures
        gathered_lines(lines) == response_store::gathered(texts),
    decreases lines.len(),
{
    if lines.len() > 0 {
        lemma_gathered_lines(lines.drop_last(), texts.drop_last());
        let n = lines.len() - 1;
        assert(lines[n] == lines.last() && texts[n] == texts.last());
    } else {
        assert(texts =~= seq![]);
    }
}

proof fn lemma_gathered_items(lines: Seq<Seq<u8>>)
    ensures
        gathered_lines(lines).items == items_after_all(lines, seq![]),
    decreases lines.len(),
{
    if lines.len() > 0 {
        let rest = lines.drop_last();
        lemma_gathered_items(rest);
        lemma_relayed_in_two(rest, seq![lines.last()], seq![]);
        assert(rest + seq![lines.last()] =~= lines);
        assert(seq![lines.last()].drop_first() =~= seq![]);
        reveal_with_fuel(items_after_all, 2);
    }
}

/// Whether a line reports that a response is complete.
pub open spec fn completes(line: Seq<u8>) -> bool {
    line_event(line) matches Some(event) && reports_completion(event)
}

/// Whether a line reports an output item as done.
pub open spec fn reports_item(line: Seq<u8>) -> bool {
    line_event(line) matches Some(event) && response_store::done_entry(event) is Some
}

proof fn lemma_gathered_at_completion(lines: Seq<Seq<u8>>, k: int, n: int)
    requires
        0 <= k < n <= lines.len(),
        completes(lines[k]),
        line_event(lines[k])->0.get("response"@) is Some,
        forall|i: int| k < i < lines.len() ==> !completes(#[trigger] lines[i]) && !reports_item(
            lines[i],
        ),
    ensures
        gathered_lines(lines.take(n)).response == line_event(lines[k])->0.get("response"@),
        gathered_lines(lines.take(n)).items == gathered_lines(lines.take(k)).items,
    decreases n,
{
    let now = lines.take(n);
    assert(now.drop_last() =~= lines.take(n - 1));
    assert(now.last() == lines[n - 1]);
    if n == k + 1 {
        reveal_strlit("response.completed");
        reveal_strlit("response.output_item.done");
        assert("response.completed"@.len() == 18);
        assert("response.output_item.done"@.len() == 25);
    } else {
        lemma_gathered_at_completion(lines, k, n - 1);
        assert(!completes(lines[n - 1]) && !reports_item(lines[n - 1]));
    }
}

/// A client that asks for a stream, one that does not and the store all get the
/// same response.  Where an event stream is UTF-8 and its line at `k`, and no
/// other, reports completion, with a response and after all output items, the
/// client gets in place of that line one that is written for an event, and the
/// response in that event is the one that the stream brings; so it is in what the
/// client reads, where the event can be read back.
pub proof fn law_client_gets_what_is_kept(bytes: Seq<u8>, k: int)
    requires
        vstd::utf8::valid_utf8(bytes),
        0 <= k < sse::all_lines(bytes).len(),
        completes(sse::all_lines(bytes)[k]),
        line_event(sse::all_lines(bytes)[k])->0.get("response"@) is Some,
        forall|i: int|
            0 <= i < sse::all_lines(bytes).len() && i != k ==> !completes(
                #[trigger] sse::all_lines(bytes)[i],
            ),
        forall|i: int|
            k < i < sse::all_lines(bytes).len() ==> !reports_item(
                #[trigger] sse::all_lines(bytes)[i],
            ),
    ensures
        ({
            let lines = sse::all_lines(bytes);
            let got = relayed(lines, seq![]);
            let event = filled_event(
                line_event(lines[k])->0,
                items_after_all(lines.take(k), seq![]),
            );
            &&& got.len() == lines.len()
            &&& got[k] == written_line(event)
            &&& event.get("response"@) is Some
            &&& event.get("response"@) == response_store::sse_response(bytes)
            &&& line_event(written_line(event)) == Some(event) ==> (line_event(got[k]) matches Some(
                read,
            ) && read.get("response"@) == response_store::sse_response(bytes))
        }),
{
    let lines = sse::all_lines(bytes);
    let s = vstd::utf8::decode_utf8(bytes);
    vstd::utf8::decode_utf8_encode_utf8(bytes);
    sse::lemma_lines_of_encoding(s);
    lemma_gathered_lines(lines, text::lines_of(s));
    lemma_relayed_at(lines, seq![], k);
    lemma_gathered_items(lines.take(k));
    assert forall|i: int| k < i < lines.len() implies !completes(#[trigger] lines[i])
        && !reports_item(lines[i]) by {}
    lemma_gathered_at_completion(lines, k, lines.len() as int);
    assert(lines.take(lines.len() as int) =~= lines);
}

/// Where the stream is cut into chunks makes no difference to what the client
/// gets.
pub proof fn law_relay_does_not_depend_on_chunks(
    a: Seq<u8>,
    b: Seq<u8>,
    items: Seq<(u64, JsonV)>,
)
    ensures
        relayed(sse::complete_lines(a + b), items) == relayed(sse::complete_lines(a), items)
            + relayed(
            sse::complete_lines(sse::remainder(a) + b),
            items_after_all(sse::complete_lines(a), items),
        ),
{
    sse::law_chunks_make_no_difference(a, b);
    lemma_relayed_in_two(
        sse::complete_lines(a),
        sse::complete_lines(sse::remainder(a) + b),
        items,
    );
}

/// Whether a status tells of success.
pub open spec fn success(status: u16) -> bool {
    200 <= status < 300
}

/// Whether a status tells of success.
pub fn is_success(status: u16) -> (r: bool)
    ensures
        r == success(status),
{
    200 <= status && status < 300
}

/// An event stream on its way to the client.
pub struct RelayV {
    /// What waits for the end of its line.
    pub pending: Seq<u8>,
    /// The output items that were reported.
    pub items: Seq<(u64, JsonV)>,
    /// Whether the stream is kept for its response.
    pub keeps: bool,
    /// The stream so far, where it is kept.
    pub kept: Seq<u8>,
}

/// An event stream on its way to the client.
#[derive(Debug)]
pub struct ResponsesRelay {
    pub lines: LineBuffer,
    pub items: Vec<(u64, Json)>,
    pub keeps: bool,
    pub kept: Vec<u8>,
}

impl View for ResponsesRelay {
    type V = RelayV;

    open spec fn view(&self) -> RelayV {
        RelayV {
            pending: self.lines@,
            items: response_store::entry_views(self.items@),
            keeps: self.keeps,
            kept: self.kept@,
        }
    }
}

/// What is to be done once a stream has ended.
#[derive(Debug)]
pub enum RelayEnd {
    /// Nothing.
    Nothing,
    /// The response should be kept, and the stream brought none.
    NoResponse,
    /// The response is kept so, or cannot be.
    Store(Result<StoreWrite, StoreError>),
}

/// Whether a stream ends as it should.
pub open spec fn ends_as(relay: RelayV, dir: PathBuf, request: JsonV, end: RelayEnd) -> bool {
    if !relay.keeps {
        end is Nothing
    } else {
        match response_store::sse_response(relay.kept) {
            None => end is NoResponse,
            Some(response) => end matches RelayEnd::Store(r) && response_store::stored_as(
                dir,
                request,
                response,
                r,
            ),
        }
    }
}

impl ResponsesRelay {
    /// A stream of which nothing has come in: it is kept if its response is to
    /// be kept and the upstream service accepted the request.
    pub fn new(should_store: bool, status: u16) -> (r: ResponsesRelay)
        ensures
            r@ == (RelayV {
                pending: seq![],
                items: seq![],
                keeps: should_store && success(status),
                kept: seq![],
            }),
    {
        let keeps = should_store && is_success(status);
        let r = ResponsesRelay {
            lines: LineBuffer::new(),
            items: Vec::new(),
            keeps,
            kept: Vec::new(),
        };
        assert(r@.pending =~= seq![]);
        assert(r@.items =~= seq![]);
        assert(r@.kept =~= seq![]);
        r
    }

    /// Takes a chunk in.
    pub fn feed(&mut self, chunk: &[u8])
        ensures
            final(self)@ == (RelayV {
                pending: old(self)@.pending + chunk@,
                kept: if old(self)@.keeps {
                    old(self)@.kept + chunk@
                } else {
                    old(self)@.kept
                },
                ..old(self)@
            }),
    {
        if self.keeps {
            self.kept.extend_from_slice(chunk);
            assert(self.kept@ =~= old(self)@.kept + chunk@);
        }
        self.lines.feed(chunk);
    }

    /// The next complete line, as the client gets it.
    pub fn next_line(&mut self) -> (r: Option<Vec<u8>>)
        ensures
            r is None <==> sse::complete_lines(old(self)@.pending).len() == 0,
            r is None ==> final(self)@ == old(self)@,
            r matches Some(out) ==> {
                let line = sse::complete_lines(old(self)@.pending)[0];
                &&& out@ == patched_line(line, old(self)@.items)
                &&& final(self)@ == (RelayV {
                    pending: old(self)@.pending.skip(line.len() as int),
                    items: items_after(line, old(self)@.items),
                    ..old(self)@
                })
            },
    {
        proof {
            text::lemma_first_at(self.lines@, sse::LINE_FEED);
        }
        match self.lines.next_line() {
            Some(line) => {
                assert(sse::complete_lines(old(self)@.pending)[0] == line@);
                Some(patch_responses_sse_line(line, &mut self.items))
            },
            None => None,
        }
    }

    /// What is left once the stream has ended, as the client gets it.
    pub fn last_line(&mut self) -> (r: Option<Vec<u8>>)
        ensures
            r is None <==> old(self)@.pending.len() == 0,
            r is None ==> final(self)@ == old(self)@,
            r matches Some(out) ==> {
                &&& out@ == patched_line(old(self)@.pending, old(self)@.items)
                &&& final(self)@ == (RelayV {
                    pending: seq![],
                    items: items_after(old(self)@.pending, old(self)@.items),
                    ..old(self)@
                })
            },
    {
        if self.lines.bytes.len() == 0 {
            return None;
        }
        let rest = self.lines.take_rest();
        let r = patch_responses_sse_line(rest, &mut self.items);
        assert(self@.pending =~= seq![]);
        Some(r)
    }

    /// What is to be done once the stream has ended.
    pub fn finish(self, config: &Config, request: Json) -> (r: RelayEnd)
        ensures
            ends_as(self@, config.response_store_dir, request@, r),
    {
        if !self.keeps {
            return RelayEnd::Nothing;
        }
        match response_store::response_from_sse_bytes(self.kept.as_slice()) {
            Some(response) => RelayEnd::Store(
                response_store::store_response(config, request, response),
            ),
            None => RelayEnd::NoResponse,
        }
    }
}

/// A reply to a client that did not ask for a stream.
#[derive(Debug)]
pub enum CollectedReply {
    /// A status and the bytes of a JSON body.
    Bytes { status: u16, body: Vec<u8> },
    /// A reply that the proxy makes itself.
    Own(Reply),
}

/// What is made of an event stream that has ended, for a client that did not
/// ask for one.
#[derive(Debug)]
pub struct Collected {
    /// What the client gets.
    pub reply: CollectedReply,
    /// How the response is kept, or why it cannot be, where it is to be kept.
    pub store: Option<Result<StoreWrite, StoreError>>,
}

/// Whether the client gets what it should: a refusal as it came, the response
/// where the stream brought one, an error where it did not.
pub open spec fn collected_reply(status: u16, body: Seq<u8>, reply: CollectedReply) -> bool {
    if !success(status) {
        reply matches CollectedReply::Bytes { status: s, body: b } && s == status && b@ == body
    } else {
        match response_store::sse_response(body) {
            None => reply matches CollectedReply::Own(own) && own.status == 502 && own.body@
                == replies::error_object(
                "Upstream stream ended without response.completed"@,
                "server_error"@,
                "missing_response_completed"@,
            ),
            Some(response) => reply matches CollectedReply::Bytes { status: s, body: b } && s
                == status && b@ == vstd::utf8::encode_utf8(json::json_encoding(response)),
        }
    }
}

/// Whether the response is kept if and only if it should be.
pub open spec fn collected_store(
    status: u16,
    body: Seq<u8>,
    should_store: bool,
    dir: PathBuf,
    request: JsonV,
    store: Option<Result<StoreWrite, StoreError>>,
) -> bool {
    match response_store::sse_response(body) {
        Some(response) => if success(status) && should_store {
            store matches Some(r) && response_store::stored_as(dir, request, response, r)
        } else {
            store is None
        },
        None => store is None,
    }
}

/// What is made of an event stream that has ended, for a client that did not
/// ask for one.
pub fn collect_response(
    config: &Config,
    status: u16,
    body: Vec<u8>,
    should_store: bool,
    request: Json,
) -> (r: Collected)
    ensures
        collected_reply(status, body@, r.reply),
        collected_store(
            status,
            body@,
            should_store,
            config.response_store_dir,
            request@,
            r.store,
        ),
{
    if !is_success(status) {
        return Collected { reply: CollectedReply::Bytes { status, body }, store: None };
    }
    let response = match response_store::response_from_sse_bytes(body.as_slice()) {
        Some(response) => response,
        None => {
            let own = replies::error_reply(
                502,
                "Upstream stream ended without response.completed",
                "server_error",
                "missing_response_completed",
            );
            return Collected { reply: CollectedReply::Own(own), store: None };
        },
    };
    let reply = CollectedReply::Bytes { status, body: bytes_of(response.encode().as_str()) };
    let store = if should_store {
        Some(response_store::store_response(config, request, response))
    } else {
        None
    };
    Collected { reply, store }
}

/// The reply to a request that goes on from a response that cannot be had.
pub fn history_error_reply(e: &StoreError) -> (r: Reply)
    ensures
        r.status == 404,
        r.body@ == replies::error_object(
            response_store::error_text(*e),
            "invalid_request_error"@,
            "previous_response_not_found"@,
        ),
{
    replies::error_reply(
        404,
        e.message().as_str(),
        "invalid_request_error",
        "previous_response_not_found",
    )
}

/// The reply to a request that could not be sent on.
pub fn proxy_error_reply(e: &str) -> (r: Reply)
    ensures
        r.status == 500,
        r.body@ == replies::error_object(
            "Failed to proxy Responses request: "@ + e@,
            "server_error"@,
            "internal_error"@,
        ),
{
    let message = "Failed to proxy Responses request: ".to_owned().concat(e);
    replies::error_reply(500, message.as_str(), "server_error", "internal_error")
}

/// The body of a reply that says that nothing is kept under an id.
pub open spec fn absent_body(id: Seq<char>) -> JsonV {
    replies::error_object(
        "Stored response not found: "@ + id,
        "invalid_request_error"@,
        "response_not_found"@,
    )
}

/// The body of a reply that says why a kept response cannot be had.
pub open spec fn refused_body(e: StoreError) -> JsonV {
    replies::error_object(
        response_store::error_text(e),
        "invalid_request_error"@,
        "invalid_response_id"@,
    )
}

fn absent_reply(id: &str) -> (r: Reply)
    ensures
        r.status == 404,
        r.body@ == absent_body(id@),
{
    let message = "Stored response not found: ".to_owned().concat(id);
    replies::error_reply(404, message.as_str(), "invalid_request_error", "response_not_found")
}

fn refused_reply(e: &StoreError) -> (r: Reply)
    ensures
        r.status == 400,
        r.body@ == refused_body(*e),
{
    replies::error_reply(
        400,
        e.message().as_str(),
        "invalid_request_error",
        "invalid_response_id",
    )
}

/// The reply to a request for a kept response.
pub fn get_response_reply(id: &str, loaded: Result<Option<Json>, StoreError>) -> (r: Reply)
    ensures
        match loaded {
            Ok(Some(response)) => r.status == 200 && r.body@ == response@,
            Ok(None) => r.status == 404 && r.body@ == absent_body(id@),
            Err(e) => r.status == 400 && r.body@ == refused_body(e),
        },
{
    match loaded {
        Ok(Some(response)) => Reply { status: 200, body: response },
        Ok(None) => absent_reply(id),
        Err(e) => refused_reply(&e),
    }
}

/// The body of a reply that says that a response was removed.
pub open spec fn deleted_body(id: Seq<char>) -> JsonV {
    JsonV::empty_object().with("id"@, JsonV::Str(id)).with(
        "object"@,
        JsonV::Str("response.deleted"@),
    ).with("deleted"@, JsonV::Bool(true))
}

/// The reply to a request to remove a kept response, by whether there was one.
pub fn delete_response_reply(id: &str, deleted: Result<bool, StoreError>) -> (r: Reply)
    ensures
        match deleted {
            Ok(true) => r.status == 200 && r.body@ == deleted_body(id@),
            Ok(false) => r.status == 404 && r.body@ == absent_body(id@),
            Err(e) => r.status == 400 && r.body@ == refused_body(e),
        },
{
    match deleted {
        Ok(true) => Reply {
            status: 200,
            body: Json::object().with("id", Json::text(id)).with(
                "object",
                Json::text("response.deleted"),
            ).with("deleted", Json::Bool(true)),
        },
        Ok(false) => absent_reply(id),
        Err(e) => refused_reply(&e),
    }
}

/// The input that is sent on is always a list: of a request that goes on from a
/// response, what was said before and what it says itself; else the request's own
/// list without the model's own reasoning, its text as said by the user, any other
/// value as one item, and no item where there is nothing.
pub proof fn law_sent_input(
    original: JsonV,
    chain: Seq<StoredV>,
    model: Seq<char>,
    instructions: Seq<char>,
    items: Seq<JsonV>,
    said: Seq<char>,
)
    requires
        original.settable(),
    ensures
        ({
            let sent = sent_request(original, chain, model, instructions).get("input"@);
            let input = original.get("input"@);
            &&& sent matches Some(JsonV::Array(_))
            &&& history::previous_id(original) is Some ==> sent == Some(
                JsonV::Array(history::sent_items(original, chain)),
            )
            &&& history::previous_id(original) is None ==> {
                &&& input == Some(JsonV::Array(items)) ==> sent == Some(
                    JsonV::Array(items.filter(|item: JsonV| history::sent_on(item))),
                )
                &&& input == Some(JsonV::Str(said)) ==> (sent matches Some(JsonV::Array(list))
                    && list.len() == 1 && list[0].get("role"@) == Some(JsonV::Str("user"@))
                    && list[0].get("content"@) == Some(JsonV::Str(said)))
                &&& input is None || input == Some(JsonV::Null) ==> (sent matches Some(
                    JsonV::Array(list),
                ) && list.len() == 0)
                &&& (input matches Some(v) && (v is Object || v is Bool || v is Number)) ==> sent
                    == Some(JsonV::Array(seq![input->0]))
            }
        }),
{
    chat_request::lemma_payload_keys();
    reveal_strlit("role");
    reveal_strlit("content");
    assert("role"@.len() == 4 && "content"@.len() == 7);
    if history::previous_id(original) is Some {
        history::law_history_takes_the_place_of_the_id(original, chain);
    } else {
        history::law_input_without_history(original, chain, items);
    }
}

/// All else that a client sends is sent on as it came.
pub proof fn law_all_else_is_sent_on(
    original: JsonV,
    chain: Seq<StoredV>,
    model: Seq<char>,
    instructions: Seq<char>,
    key: Seq<char>,
)
    requires
        original.settable(),
        key != "store"@,
        key != "input"@,
        key != "previous_response_id"@,
        key != "model"@,
        key != "instructions"@,
        key != "stream"@,
    ensures
        sent_request(original, chain, model, instructions).get(key) == original.get(key),
{
    history::law_other_members_are_sent_on(original, chain, key);
}

/// A line brings the event that its text brings.
pub proof fn law_line_events(line: Seq<char>, event: JsonV)
    ensures
        line_event(vstd::utf8::encode_utf8(line)) == Some(event) <==> response_store::brings(
            line,
            event,
        ),
{
    vstd::utf8::encode_utf8_valid_utf8(line);
    vstd::utf8::encode_utf8_decode_utf8(line);
}

/// A line that reports completion reaches the client as a line of data with the same
/// event, in which nothing is changed but the output of its response, which is
/// filled in.
pub proof fn law_completion_lines_are_filled(
    line: Seq<u8>,
    items: Seq<(u64, JsonV)>,
    event: JsonV,
    key: Seq<char>,
)
    requires
        line_event(line) == Some(event),
        event.get("type"@) == Some(JsonV::Str("response.completed"@)),
    ensures
        patched_line(line, items) == vstd::utf8::encode_utf8(
            "data: "@ + json::json_encoding(filled_event(event, items)) + "\n"@,
        ),
        key != "response"@ ==> filled_event(event, items).get(key) == event.get(key),
        event.get("response"@) is None ==> filled_event(event, items) == event,
        event.get("response"@) matches Some(response) ==> filled_event(event, items).get(
            "response"@,
        ) == Some(response_store::filled_output(response, items)),
        items_after(line, items) == items,
{
    reveal_strlit("response.completed");
    reveal_strlit("response.output_item.done");
    assert("response.completed"@.len() == 18);
    assert("response.output_item.done"@.len() == 25);
    response_store::law_done_items_are_taken(event, event);
}

/// A line that reports an item as done, of whatever kind, adds it to those that are
/// filled in later, and no other line adds any.
pub proof fn law_lines_report_items(line: Seq<u8>, items: Seq<(u64, JsonV)>, event: JsonV, item: JsonV)
    ensures
        line_event(line) is None ==> items_after(line, items) == items,
        line_event(line) == Some(event) && event.get("type"@) == Some(
            JsonV::Str("response.output_item.done"@),
        ) && event.get("item"@) == Some(item) ==> {
            let after = items_after(line, items);
            after.len() == items.len() + 1 && after.drop_last() == items && after.last().1 == item
        },
        line_event(line) == Some(event) && event.get("type"@) != Some(
            JsonV::Str("response.output_item.done"@),
        ) ==> items_after(line, items) == items,
{
    response_store::law_done_items_are_taken(event, item);
    if line_event(line) == Some(event) && event.get("type"@) == Some(
        JsonV::Str("response.output_item.done"@),
    ) && event.get("item"@) == Some(item) {
        assert(items_after(line, items).drop_last() =~= items);
    }
}

/// Lines that report no completion reach the client as they came, all of them and in
/// their order.
pub proof fn law_stream_passes_unchanged(lines: Seq<Seq<u8>>, items: Seq<(u64, JsonV)>)
    requires
        forall|i: int, event: JsonV|
            0 <= i < lines.len() && #[trigger] line_event(lines[i]) == Some(event) ==> #[trigger] event.get(
                "type"@,
            ) != Some(JsonV::Str("response.completed"@)),
    ensures
        relayed(lines, items) == lines,
    decreases lines.len(),
{
    if lines.len() > 0 {
        let rest = lines.drop_first();
        if let Some(event) = line_event(lines[0]) {
            assert(event.get("type"@) != Some(JsonV::Str("response.completed"@)));
        }
        assert forall|i: int, event: JsonV|
            0 <= i < rest.len() && #[trigger] line_event(rest[i]) == Some(event) implies #[trigger] event.get(
            "type"@,
        ) != Some(JsonV::Str("response.completed"@)) by {
            assert(line_event(lines[i + 1]) == Some(event));
        }
        law_stream_passes_unchanged(rest, items_after(lines[0], items));
        assert(seq![lines[0]] + rest =~= lines);
    }
}

/// A status tells of success from 200 to 299.
pub proof fn law_success(status: u16)
    ensures
        success(status) <==> status / 100 == 2,
{
}

/// A stream is kept for its response if and only if that was asked for and the
/// upstream service accepted the request; then the response that it brought is kept
/// with the request, or it is said that there was none.
pub proof fn law_streams_are_kept(
    relay: RelayV,
    dir: PathBuf,
    request: JsonV,
    end: RelayEnd,
)
    requires
        ends_as(relay, dir, request, end),
    ensures
        !relay.keeps <==> end is Nothing,
        relay.keeps && response_store::sse_response(relay.kept) is None ==> end is NoResponse,
        relay.keeps ==> (response_store::sse_response(relay.kept) matches Some(response) ==> (
        end matches RelayEnd::Store(r) && response_store::stored_as(dir, request, response, r))),
{
}

/// A client that did not ask for a stream gets a refusal byte for byte, and the
/// response that the stream brought under the status that came with it; where the
/// stream brought none it is told so.
pub proof fn law_collected_replies(status: u16, body: Seq<u8>, reply: CollectedReply, response: JsonV)
    requires
        collected_reply(status, body, reply),
    ensures
        status / 100 != 2 ==> (reply matches CollectedReply::Bytes { status: s, body: b } && s
            == status && b@ == body),
        status / 100 == 2 && response_store::sse_response(body) == Some(response) ==> (
        reply matches CollectedReply::Bytes { status: s, body: b } && s == status && b@
            == vstd::utf8::encode_utf8(json::json_encoding(response))),
        status / 100 == 2 && response_store::sse_response(body) is None ==> (
        reply matches CollectedReply::Own(own) && own.status == 502),
{
}

/// Its response is kept if and only if that was asked for, the upstream service
/// accepted the request and the stream brought one.
pub proof fn law_collected_responses_are_kept(
    status: u16,
    body: Seq<u8>,
    should_store: bool,
    dir: PathBuf,
    request: JsonV,
    store: Option<Result<StoreWrite, StoreError>>,
)
    requires
        collected_store(status, body, should_store, dir, request, store),
    ensures
        store is Some <==> should_store && status / 100 == 2 && response_store::sse_response(
            body,
        ) is Some,
        store matches Some(r) ==> response_store::stored_as(
            dir,
            request,
            response_store::sse_response(body)->0,
            r,
        ),
{
}

/// What is said of a response that was removed, and of one that is not there, names
/// it.
pub proof fn law_replies_name_the_response(id: Seq<char>)
    ensures
        deleted_body(id).get("id"@) == Some(JsonV::Str(id)),
        deleted_body(id).get("object"@) == Some(JsonV::Str("response.deleted"@)),
        deleted_body(id).get("deleted"@) == Some(JsonV::Bool(true)),
        absent_body(id).get("error"@) matches Some(error) && error.get("message"@) == Some(
            JsonV::Str("Stored response not found: "@ + id),
        ) && error.get("type"@) == Some(JsonV::Str("invalid_request_error"@)) && error.get("code"@)
            == Some(JsonV::Str("response_not_found"@)),
{
    reveal_strlit("id");
    reveal_strlit("object");
    reveal_strlit("deleted");
    assert("id"@.len() == 2 && "object"@.len() == 6 && "deleted"@.len() == 7);
    replies::law_errors_are_reported(
        "Stored response not found: "@ + id,
        "invalid_request_error"@,
        "response_not_found"@,
    );
}

/// A client is told why a kept response cannot be had, in the error's own words.
pub proof fn law_refusals_tell_the_error(e: StoreError)
    ensures
        refused_body(e).get("error"@) matches Some(error) && error.get("message"@) == Some(
            JsonV::Str(response_store::error_text(e)),
        ) && error.get("type"@) == Some(JsonV::Str("invalid_request_error"@)) && error.get("code"@)
            == Some(JsonV::Str("invalid_response_id"@)),
{
    replies::law_errors_are_reported(
        response_store::error_text(e),
        "invalid_request_error"@,
        "invalid_response_id"@,
    );
}

} // verus!
