//! The proxy as a program: what it says of itself, what its menu offers, and
//! what it reads out of the tools that tell of running servers.
use crate::chat_request;
use crate::json;
use crate::json::{Json, JsonV};
use crate::text;
use vstd::prelude::*;

verus! {

/// The port that the proxy listens on.
pub const PORT: u16 = 5011;

/// The last of the ports on which running servers are looked for; the first is
/// the one that the proxy listens on.
pub const LAST_PORT: u16 = 5020;

/// A model as it is listed.
pub open spec fn listed_model(id: Seq<char>, created: i64) -> JsonV {
    JsonV::empty_object().with("id"@, JsonV::Str(id)).with("object"@, JsonV::Str("model"@)).with(
        "created"@,
        JsonV::integer(created as int),
    ).with("owned_by"@, JsonV::Str("chatgpt"@))
}

/// The names of the models that are listed.
pub open spec fn listed_ids() -> Seq<Seq<char>> {
    seq![
        "gpt-5.5"@,
        "gpt-5.4"@,
        "gpt-5.4-mini"@,
        "gpt-5.3-codex-spark"@,
        "gpt-5"@,
        "gpt-5-mini"@,
        "gpt-5-nano"@,
    ]
}

/// The list of models.
pub open spec fn model_list(created: i64) -> JsonV {
    JsonV::empty_object().with("object"@, JsonV::Str("list"@)).with(
        "data"@,
        JsonV::Array(listed_ids().map_values(|id: Seq<char>| listed_model(id, created))),
    )
}

/// Every model that is listed is served.
pub proof fn law_listed_models_are_served(i: int)
    requires
        0 <= i < listed_ids().len(),
    ensures
        chat_request::served_model(listed_ids()[i]),
{
    reveal_strlit("gpt-5");
    reveal_strlit("gpt-5.5");
    reveal_strlit("gpt-5.4");
    reveal_strlit("gpt-5.4-mini");
    reveal_strlit("gpt-5.3-codex-spark");
    reveal_strlit("gpt-5-mini");
    reveal_strlit("gpt-5-nano");
    let id = listed_ids()[i];
    assert(id.subrange(0, 5) =~= "gpt-5"@);
}

fn list_model(id: &str, created: i64) -> (r: Json)
    ensures
        r@ == listed_model(id@, created),
{
    Json::object().with("id", Json::text(id)).with("object", Json::text("model")).with(
        "created",
        Json::signed(created),
    ).with("owned_by", Json::text("chatgpt"))
}

/// The list of models.
pub fn models_body(created: i64) -> (r: Json)
    ensures
        r@ == model_list(created),
{
    let mut data: Vec<Json> = Vec::new();
    data.push(list_model("gpt-5.5", created));
    data.push(list_model("gpt-5.4", created));
    data.push(list_model("gpt-5.4-mini", created));
    data.push(list_model("gpt-5.3-codex-spark", created));
    data.push(list_model("gpt-5", created));
    data.push(list_model("gpt-5-mini", created));
    data.push(list_model("gpt-5-nano", created));
    assert(json::list_view(data@) =~= listed_ids().map_values(
        |id: Seq<char>| listed_model(id, created),
    ));
    Json::object().with("object", Json::text("list")).with("data", Json::array(data))
}

/// What the proxy says of its health.
pub open spec fn health(timestamp: Seq<char>, version: Seq<char>) -> JsonV {
    JsonV::empty_object().with("status"@, JsonV::Str("healthy"@)).with(
        "timestamp"@,
        JsonV::Str(timestamp),
    ).with("service"@, JsonV::Str("codex-proxy-server"@)).with("version"@, JsonV::Str(version))
}

/// What the proxy says of its health.
pub fn health_body(timestamp: &str, version: &str) -> (r: Json)
    ensures
        r@ == health(timestamp@, version@),
{
    Json::object().with("status", Json::text("healthy")).with(
        "timestamp",
        Json::text(timestamp),
    ).with("service", Json::text("codex-proxy-server")).with("version", Json::text(version))
}

/// What the menu offers.
#[derive(Debug, Clone, Copy, PartialEq, Eq, Structural)]
pub enum MenuChoice {
    RunServer,
    CloseServers,
    Login,
    RefreshToken,
    Exit,
    ListServers,
    Invalid,
}

/// What a line that is typed at the menu stands for.
pub open spec fn menu_choice(line: Seq<char>) -> MenuChoice {
    let s = text::trimmed(line);
    if s == "1"@ {
        MenuChoice::RunServer
    } else if s == "2"@ {
        MenuChoice::CloseServers
    } else if s == "3"@ {
        MenuChoice::Login
    } else if s == "4"@ {
        MenuChoice::RefreshToken
    } else if s == "5"@ {
        MenuChoice::Exit
    } else if s == "6"@ {
        MenuChoice::ListServers
    } else {
        MenuChoice::Invalid
    }
}

/// What a line that is typed at the menu stands for.
pub fn read_menu_choice(line: &str) -> (r: MenuChoice)
    ensures
        r == menu_choice(line@),
{
    let s = text::trim(line);
    if text::same_text(s, "1") {
        MenuChoice::RunServer
    } else if text::same_text(s, "2") {
        MenuChoice::CloseServers
    } else if text::same_text(s, "3") {
        MenuChoice::Login
    } else if text::same_text(s, "4") {
        MenuChoice::RefreshToken
    } else if text::same_text(s, "5") {
        MenuChoice::Exit
    } else if text::same_text(s, "6") {
        MenuChoice::ListServers
    } else {
        MenuChoice::Invalid
    }
}

/// Whether the server is to start without the menu.
pub fn starts_directly(args: &Vec<String>) -> (r: bool)
    ensures
        r == text::texts(args@).contains("--server"@),
{
    let ghost all = text::texts(args@);
    let mut i: usize = 0;
    while i < args.len()
        invariant
            i <= args@.len(),
            all == text::texts(args@),
            forall|j: int| 0 <= j < i ==> all[j] != "--server"@,
        decreases args@.len() - i,
    {
        if text::same_text(args[i].as_str(), "--server") {
            assert(all[i as int] == "--server"@);
            return true;
        }
        i += 1;
    }
    false
}

/// A port as the tools show it.
pub open spec fn port_mark(port: u16) -> Seq<char> {
    ":"@ + text::decimal(port as nat)
}

fn mark_port(port: u16) -> (r: String)
    ensures
        r@ == port_mark(port),
{
    ":".to_owned().concat(text::decimal_text(port as u64).as_str())
}

/// Whether a tool's output shows that a port is in use.
pub fn shows_port(output: &str, port: u16) -> (r: bool)
    ensures
        r == text::holds_text(output@, port_mark(port)),
{
    text::contains_text(output, mark_port(port).as_str())
}

/// The number of a process, as a text.
pub open spec fn process_id(s: Seq<char>) -> Option<u32> {
    match text::parsed_number(s, u32::MAX as u64) {
        Some(n) => Some(n as u32),
        None => None,
    }
}

fn parse_process_id(s: &str) -> (r: Option<u32>)
    ensures
        r == process_id(s@),
{
    match text::parse_number(s, 4294967295) {
        Some(n) => Some(n as u32),
        None => None,
    }
}

/// The processes that `lsof -t` lists, one a line.
pub open spec fn listed_processes(lines: Seq<Seq<char>>) -> Seq<u32>
    decreases lines.len(),
{
    if lines.len() == 0 {
        seq![]
    } else {
        let before = listed_processes(lines.drop_last());
        match process_id(text::trimmed(lines.last())) {
            Some(pid) => before.push(pid),
            None => before,
        }
    }
}

/// The processes that `lsof -t` lists, one a line.
pub fn lsof_processes(output: &str) -> (r: Vec<u32>)
    ensures
        r@ == listed_processes(text::lines_of(output@)),
{
    let lines = text::lines(output);
    let ghost all = text::lines_of(output@);
    let mut r: Vec<u32> = Vec::new();
    assert(r@ =~= listed_processes(all.take(0)));
    for i in 0..lines.len()
        invariant
            text::texts(lines@) == all,
            r@ == listed_processes(all.take(i as int)),
    {
        assert(all[i as int] == lines@[i as int]@);
        assert(all.take(i + 1).drop_last() =~= all.take(i as int));
        if let Some(pid) = parse_process_id(text::trim(lines[i].as_str())) {
            r.push(pid);
        }
    }
    assert(all.take(lines@.len() as int) =~= all);
    r
}

/// What follows the last white space of a text.
pub open spec fn after_last_blank(s: Seq<char>) -> Seq<char>
    decreases s.len(),
{
    if s.len() == 0 || text::white_space(s.last()) {
        seq![]
    } else {
        after_last_blank(s.drop_last()).push(s.last())
    }
}

/// The last word of a text.
pub open spec fn last_word(s: Seq<char>) -> Seq<char> {
    after_last_blank(text::trimmed(s))
}

fn find_last_word<'a>(s: &'a str) -> (r: &'a str)
    ensures
        r@ == last_word(s@),
{
    let t = text::trim(s);
    let cs = text::chars_of(t);
    let n: usize = cs.len();
    let mut k: usize = n;
    assert(t@.take(n as int) =~= t@);
    assert(after_last_blank(t@.take(n as int)) + t@.skip(n as int) =~= after_last_blank(t@));
    while k > 0 && !text::is_white_space(cs[k - 1])
        invariant
            k <= n,
            n == cs@.len(),
            cs@ == t@,
            after_last_blank(t@.take(k as int)) + t@.skip(k as int) == after_last_blank(t@),
        decreases k,
    {
        let ghost longer = t@.take(k as int);
        assert(longer.drop_last() =~= t@.take(k - 1));
        assert(after_last_blank(t@.take(k - 1)) + t@.skip(k - 1) =~= after_last_blank(longer)
            + t@.skip(k as int));
        k -= 1;
    }
    assert(after_last_blank(t@.take(k as int)) =~= seq![]);
    assert(t@.skip(k as int) =~= after_last_blank(t@));
    let r = t.substring_char(k, n);
    assert(r@ =~= t@.skip(k as int));
    r
}

/// The processes that `netstat -ano` lists for a port: what stands last on each
/// line that shows the port.
pub open spec fn port_processes(lines: Seq<Seq<char>>, port: u16) -> Seq<u32>
    decreases lines.len(),
{
    if lines.len() == 0 {
        seq![]
    } else {
        let before = port_processes(lines.drop_last(), port);
        match process_id(last_word(lines.last())) {
            Some(pid) if text::holds_text(lines.last(), port_mark(port)) => before.push(pid),
            _ => before,
        }
    }
}

/// The processes that `netstat -ano` lists for a port.
pub fn netstat_processes(output: &str, port: u16) -> (r: Vec<u32>)
    ensures
        r@ == port_processes(text::lines_of(output@), port),
{
    let lines = text::lines(output);
    let ghost all = text::lines_of(output@);
    let mut r: Vec<u32> = Vec::new();
    assert(r@ =~= port_processes(all.take(0), port));
    for i in 0..lines.len()
        invariant
            text::texts(lines@) == all,
            r@ == port_processes(all.take(i as int), port),
    {
        assert(all[i as int] == lines@[i as int]@);
        assert(all.take(i + 1).drop_last() =~= all.take(i as int));
        if shows_port(lines[i].as_str(), port) {
            if let Some(pid) = parse_process_id(find_last_word(lines[i].as_str())) {
                r.push(pid);
            }
        }
    }
    assert(all.take(lines@.len() as int) =~= all);
    r
}

/// The list of models names each model that is listed, in its order, as one of
/// ChatGPT's.
pub proof fn law_models_are_listed(created: i64, i: int)
    requires
        0 <= i < 7,
    ensures
        listed_ids().len() == 7,
        model_list(created).get("object"@) == Some(JsonV::Str("list"@)),
        model_list(created).get("data"@) matches Some(JsonV::Array(data)) && {
            &&& data.len() == 7
            &&& data[i].get("id"@) == Some(JsonV::Str(listed_ids()[i]))
            &&& data[i].get("object"@) == Some(JsonV::Str("model"@))
            &&& data[i].get("created"@) == Some(JsonV::integer(created as int))
            &&& data[i].get("owned_by"@) == Some(JsonV::Str("chatgpt"@))
        },
{
    reveal_strlit("object");
    reveal_strlit("data");
    reveal_strlit("id");
    reveal_strlit("created");
    reveal_strlit("owned_by");
    assert("object"@.len() == 6 && "data"@.len() == 4 && "id"@.len() == 2 && "created"@.len() == 7
        && "owned_by"@.len() == 8);
}

/// Every model that is served and asked for upstream by its own name is listed.
pub proof fn law_models_with_names_of_their_own_are_listed(model: Seq<char>)
    requires
        chat_request::served_model(model),
        chat_request::upstream_model(model) == model,
    ensures
        listed_ids().contains(model),
{
    let ids = listed_ids();
    assert(ids.contains(ids[0]) && ids.contains(ids[1]) && ids.contains(ids[2]) && ids.contains(
        ids[3],
    ) && ids.contains(ids[4]) && ids.contains(ids[5]) && ids.contains(ids[6]));
}

/// What the proxy says of its health gives the time and its version as they are.
pub proof fn law_health_is_told(timestamp: Seq<char>, version: Seq<char>)
    ensures
        health(timestamp, version).get("status"@) == Some(JsonV::Str("healthy"@)),
        health(timestamp, version).get("timestamp"@) == Some(JsonV::Str(timestamp)),
        health(timestamp, version).get("service"@) == Some(JsonV::Str("codex-proxy-server"@)),
        health(timestamp, version).get("version"@) == Some(JsonV::Str(version)),
{
    reveal_strlit("status");
    reveal_strlit("timestamp");
    reveal_strlit("service");
    reveal_strlit("version");
    assert("status"@.len() == 6 && "timestamp"@.len() == 9);
    assert("service"@.len() == 7 && "service"@[0] == 's');
    assert("version"@.len() == 7 && "version"@[0] == 'v');
}

/// A digit from 1 to 6, with white space around it or not, is a choice of its own,
/// and nothing else is one.
pub proof fn law_menu_choices(before: Seq<char>, c: char, after: Seq<char>, line: Seq<char>)
    requires
        forall|i: int| 0 <= i < before.len() ==> text::white_space(#[trigger] before[i]),
        forall|i: int| 0 <= i < after.len() ==> text::white_space(#[trigger] after[i]),
        text::trimmed(line).len() != 1,
    ensures
        ({
            let chosen = menu_choice(before + seq![c] + after);
            &&& c == '1' ==> chosen == MenuChoice::RunServer
            &&& c == '2' ==> chosen == MenuChoice::CloseServers
            &&& c == '3' ==> chosen == MenuChoice::Login
            &&& c == '4' ==> chosen == MenuChoice::RefreshToken
            &&& c == '5' ==> chosen == MenuChoice::Exit
            &&& c == '6' ==> chosen == MenuChoice::ListServers
            &&& !('1' <= c <= '6') ==> chosen == MenuChoice::Invalid
        }),
        menu_choice(line) == MenuChoice::Invalid,
{
    reveal_strlit("1");
    reveal_strlit("2");
    reveal_strlit("3");
    reveal_strlit("4");
    reveal_strlit("5");
    reveal_strlit("6");
    assert("1"@ =~= seq!['1'] && "2"@ =~= seq!['2'] && "3"@ =~= seq!['3']);
    assert("4"@ =~= seq!['4'] && "5"@ =~= seq!['5'] && "6"@ =~= seq!['6']);
    assert(seq![c][0] == c);
    text::law_white_space(c);
    if text::white_space(c) {
        let all = before + seq![c] + after;
        assert forall|i: int| 0 <= i < all.len() implies text::white_space(#[trigger] all[i]) by {
            if i < before.len() {
                assert(all[i] == before[i]);
            } else if i > before.len() {
                assert(all[i] == after[i - before.len() - 1]);
            }
        }
        text::law_blank_texts(all);
    } else {
        text::law_trimming_keeps_the_text(before, seq![c], after);
    }
}

/// A number that fits is the number of a process as it is written.
pub proof fn law_process_numbers(n: nat)
    ensures
        n <= u32::MAX ==> process_id(text::decimal(n)) == Some(n as u32),
        n > u32::MAX ==> process_id(text::decimal(n)) is None,
{
    text::law_numbers_are_read_back(n, u32::MAX as u64);
}

/// One line more of `lsof -t` adds the process that it names, behind those before it,
/// and nothing where it names none.
pub proof fn law_listed_processes(lines: Seq<Seq<char>>, line: Seq<char>)
    ensures
        listed_processes(seq![]).len() == 0,
        process_id(text::trimmed(line)) matches Some(pid) ==> listed_processes(lines.push(line))
            == listed_processes(lines).push(pid),
        process_id(text::trimmed(line)) is None ==> listed_processes(lines.push(line))
            == listed_processes(lines),
{
    assert(lines.push(line).drop_last() =~= lines);
}

/// One line more of `netstat -ano` adds the process that its last word names, where
/// the line shows the port, and nothing where it does not.
pub proof fn law_port_processes(lines: Seq<Seq<char>>, line: Seq<char>, port: u16)
    ensures
        port_processes(seq![], port).len() == 0,
        text::holds_text(line, seq![':'] + text::decimal(port as nat)) ==> (process_id(
            last_word(line),
        ) matches Some(pid) ==> port_processes(lines.push(line), port) == port_processes(
            lines,
            port,
        ).push(pid)),
        !text::holds_text(line, seq![':'] + text::decimal(port as nat)) || process_id(
            last_word(line),
        ) is None ==> port_processes(lines.push(line), port) == port_processes(lines, port),
{
    reveal_strlit(":");
    assert(":"@ =~= seq![':']);
    assert(lines.push(line).drop_last() =~= lines);
}

proof fn lemma_after_last_blank(before: Seq<char>, word: Seq<char>)
    requires
        before.len() > 0 ==> text::white_space(before.last()),
        forall|i: int| 0 <= i < word.len() ==> !text::white_space(#[trigger] word[i]),
    ensures
        after_last_blank(before + word) == word,
    decreases word.len(),
{
    let s = before + word;
    if word.len() == 0 {
        assert(s =~= before);
    } else {
        assert(s.last() == word[word.len() - 1]);
        assert(s.drop_last() =~= before + word.drop_last());
        lemma_after_last_blank(before, word.drop_last());
        assert(word.drop_last().push(word.last()) =~= word);
    }
}

/// The last word of a text is what stands behind its last white space, but for white
/// space at its end.
pub proof fn law_last_words(before: Seq<char>, blank: char, word: Seq<char>, after: Seq<char>)
    requires
        text::white_space(blank),
        forall|i: int| 0 <= i < word.len() ==> !text::white_space(#[trigger] word[i]),
        forall|i: int| 0 <= i < after.len() ==> text::white_space(#[trigger] after[i]),
        word.len() > 0,
    ensures
        last_word(before.push(blank) + word + after) == word,
        last_word(word + after) == word,
{
    let head = before.push(blank);
    let all = head + word + after;
    let cut = text::law_trimming_cuts_white_space(all);
    let end = (head.len() + word.len()) as int;
    assert(all[end - 1] == word[word.len() - 1]);
    assert(all[head.len() as int] == word[0]);
    assert(cut.0 <= head.len() && end <= cut.1);
    if end < cut.1 {
        assert(all[cut.1 - 1] == after[cut.1 - 1 - end]);
    }
    let kept = all.subrange(cut.0, end);
    let lead = all.subrange(cut.0, head.len() as int);
    assert(kept =~= lead + word);
    if lead.len() > 0 {
        assert(lead.last() == all[head.len() - 1]);
        assert(all[head.len() - 1] == blank);
    }
    lemma_after_last_blank(lead, word);
    text::law_trimming_keeps_the_text(seq![], word, after);
    assert(seq![] + word + after =~= word + after);
    lemma_after_last_blank(seq![], word);
    assert(seq![] + word =~= word);
}

} // verus!
