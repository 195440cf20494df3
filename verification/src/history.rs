//! Conversations that go on from a kept response: the responses before it are
//! looked up, and what was said becomes part of the request that is sent on.
use crate::chat_request;
use crate::config::Config;
use crate::json;
use crate::json::{Json, JsonV};
use crate::paths;
use crate::response_store;
use crate::response_store::{FileRead, Files, FoundV, Reader, StoreError, StoredResponse, StoredV};
use crate::text;
use std::path::PathBuf;
use vstd::prelude::*;

verus! {

/// The id of the response that a request goes on from.
pub open spec fn previous_id(request: JsonV) -> Option<Seq<char>> {
    match request.get_str("previous_response_id"@) {
        Some(id) => if text::blank(id) {
            None
        } else {
            Some(id)
        },
        None => None,
    }
}

/// The id of the response that a request goes on from.
pub fn previous_response_id(request: &Json) -> (r: Option<String>)
    ensures
        json::option_text(r) == previous_id(request@),
{
    match request.get_str("previous_response_id") {
        Some(id) => if text::is_blank(id) {
            None
        } else {
            Some(id.to_owned())
        },
        None => None,
    }
}

/// Why a history cannot be had.
pub enum HistoryErrorV {
    InvalidId,
    Cycle(Seq<char>),
    NotFound(Seq<char>),
    Unreadable(Seq<char>),
    Garbled(Seq<char>),
}

/// What is kept, by ids.
pub type Store = Map<Seq<char>, FoundV>;

/// What is kept under an id.
pub open spec fn kept(store: Store, id: Seq<char>) -> FoundV {
    if store.contains_key(id) {
        store[id]
    } else {
        FoundV::Missing
    }
}

/// The responses that lead to the one with an id, the first of them first and
/// that one last, where those of `seen` come after it.
pub open spec fn history(store: Store, id: Seq<char>, seen: Set<Seq<char>>) -> Result<
    Seq<StoredV>,
    HistoryErrorV,
>
    decreases store.dom().difference(seen).len(),
    when store.dom().finite()
{
    if seen.contains(id) {
        Err(HistoryErrorV::Cycle(id))
    } else if !response_store::valid_id(id) {
        Err(HistoryErrorV::InvalidId)
    } else {
        match kept(store, id) {
            FoundV::Missing => Err(HistoryErrorV::NotFound(id)),
            FoundV::Unreadable => Err(HistoryErrorV::Unreadable(id)),
            FoundV::Garbled => Err(HistoryErrorV::Garbled(id)),
            FoundV::Stored(stored) => match previous_id(stored.request) {
                None => Ok(seq![stored]),
                Some(previous) => {
                    proof {
                        lemma_fewer_unseen(store, seen, id);
                    }
                    match history(store, previous, seen.insert(id)) {
                        Ok(chain) => Ok(chain.push(stored)),
                        Err(e) => Err(e),
                    }
                },
            },
        }
    }
}

/// One more id that was seen leaves fewer to see.
pub proof fn lemma_fewer_unseen(store: Store, seen: Set<Seq<char>>, id: Seq<char>)
    ensures
        store.dom().finite() && store.contains_key(id) && !seen.contains(id)
            ==> store.dom().difference(seen.insert(id)).len() < store.dom().difference(seen).len(),
{
    if store.dom().finite() && store.contains_key(id) && !seen.contains(id) {
        let unseen = store.dom().difference(seen);
        assert(store.dom().difference(seen.insert(id)) =~= unseen.remove(id));
        assert(unseen.contains(id));
    }
}

/// A history is linked: it ends with the response asked for, each response in
/// it goes on from the one before it, and the first goes on from none.
pub proof fn law_history_is_linked(store: Store, id: Seq<char>, seen: Set<Seq<char>>)
    requires
        store.dom().finite(),
        history(store, id, seen) is Ok,
    ensures
        ({
            let chain = history(store, id, seen)->Ok_0;
            &&& chain.len() > 0
            &&& kept(store, id) == FoundV::Stored(chain.last())
            &&& previous_id(chain[0].request) is None
            &&& forall|i: int|
                0 < i < chain.len() ==> {
                    &&& previous_id((#[trigger] chain[i]).request) is Some
                    &&& kept(store, previous_id(chain[i].request)->0) == FoundV::Stored(
                        chain[i - 1],
                    )
                }
        }),
    decreases store.dom().difference(seen).len(),
{
    let stored = kept(store, id)->Stored_0;
    if previous_id(stored.request) is Some {
        lemma_fewer_unseen(store, seen, id);
        law_history_is_linked(store, previous_id(stored.request)->0, seen.insert(id));
    }
}

/// The ids of the responses that lead to the one with an id, the first of them
/// first and that one last.
pub open spec fn history_ids(store: Store, id: Seq<char>, seen: Set<Seq<char>>) -> Seq<Seq<char>>
    decreases store.dom().difference(seen).len(),
    when store.dom().finite()
{
    match kept(store, id) {
        FoundV::Stored(stored) if !seen.contains(id) => match previous_id(stored.request) {
            None => seq![id],
            Some(previous) => {
                proof {
                    lemma_fewer_unseen(store, seen, id);
                }
                history_ids(store, previous, seen.insert(id)).push(id)
            },
        },
        _ => seq![],
    }
}

/// No response comes twice in a history: it holds what is kept under ids that
/// all differ, and so it is no longer than what is kept.
pub proof fn law_no_response_comes_twice(store: Store, id: Seq<char>, seen: Set<Seq<char>>)
    requires
        store.dom().finite(),
        history(store, id, seen) is Ok,
    ensures
        ({
            let chain = history(store, id, seen)->Ok_0;
            let ids = history_ids(store, id, seen);
            &&& ids.len() == chain.len()
            &&& ids.no_duplicates()
            &&& forall|i: int|
                0 <= i < ids.len() ==> !seen.contains(#[trigger] ids[i]) && kept(store, ids[i])
                    == FoundV::Stored(chain[i])
            &&& chain.len() <= store.dom().difference(seen).len()
        }),
    decreases store.dom().difference(seen).len(),
{
    lemma_fewer_unseen(store, seen, id);
    let stored = kept(store, id)->Stored_0;
    if previous_id(stored.request) is Some {
        law_no_response_comes_twice(store, previous_id(stored.request)->0, seen.insert(id));
    }
}

proof fn lemma_history_in_larger_store(
    store: Store,
    id: Seq<char>,
    file: FoundV,
    from: Seq<char>,
    seen: Set<Seq<char>>,
)
    requires
        store.dom().finite(),
        !store.contains_key(id),
        history(store, from, seen) is Ok,
    ensures
        history(store.insert(id, file), from, seen.insert(id)) == history(store, from, seen),
    decreases store.dom().difference(seen).len(),
{
    let larger = store.insert(id, file);
    let stored = kept(store, from)->Stored_0;
    assert(store.contains_key(from));
    assert(kept(larger, from) == kept(store, from));
    if previous_id(stored.request) is Some {
        let previous = previous_id(stored.request)->0;
        lemma_fewer_unseen(store, seen, from);
        lemma_history_in_larger_store(store, id, file, previous, seen.insert(from));
        assert(seen.insert(from).insert(id) =~= seen.insert(id).insert(from));
    }
}

/// A response that is kept under an id of its own is added to the history that
/// its request goes on from.
pub proof fn law_kept_response_extends_the_history(
    store: Store,
    id: Seq<char>,
    stored: StoredV,
    previous: Seq<char>,
)
    requires
        store.dom().finite(),
        response_store::valid_id(id),
        !store.contains_key(id),
        previous_id(stored.request) == Some(previous),
        history(store, previous, Set::empty()) is Ok,
    ensures
        history(store.insert(id, FoundV::Stored(stored)), id, Set::empty()) == Ok::<
            Seq<StoredV>,
            HistoryErrorV,
        >(history(store, previous, Set::empty())->Ok_0.push(stored)),
{
    lemma_history_in_larger_store(store, id, FoundV::Stored(stored), previous, Set::empty());
}

/// A response whose request goes on from none is a history by itself.
pub proof fn law_kept_response_starts_a_history(store: Store, id: Seq<char>, stored: StoredV)
    requires
        store.dom().finite(),
        response_store::valid_id(id),
        previous_id(stored.request) is None,
    ensures
        history(store.insert(id, FoundV::Stored(stored)), id, Set::empty()) == Ok::<
            Seq<StoredV>,
            HistoryErrorV,
        >(seq![stored]),
{
}

/// What the files of a directory keep, by ids, given serde's reader of kept
/// responses.
pub open spec fn store_of(files: Files, reader: Reader, dir: PathBuf) -> Store {
    Map::new(
        |id: Seq<char>|
            response_store::valid_id(id) && files.contains_key(
                response_store::stored_path(dir, id),
            ),
        |id: Seq<char>|
            response_store::found_at(files, reader, response_store::stored_path(dir, id)),
    )
}

/// The id that a file's path stands for.
spec fn id_at(path: Seq<Seq<char>>) -> Seq<char> {
    path.last().take(path.last().len() - 5)
}

proof fn lemma_store_is_finite(files: Files, reader: Reader, dir: PathBuf)
    requires
        files.dom().finite(),
    ensures
        store_of(files, reader, dir).dom().finite(),
{
    reveal_strlit(".json");
    let ids = store_of(files, reader, dir).dom();
    let f = |path: Seq<Seq<char>>| id_at(path);
    files.dom().lemma_map_finite(f);
    assert forall|id: Seq<char>| #[trigger] ids.contains(id) implies files.dom().map(f).contains(
        id,
    ) by {
        let path = response_store::stored_path(dir, id);
        assert(files.dom().contains(path));
        assert(path.last() == id + ".json"@);
        assert(f(path) =~= id);
    }
    vstd::set_lib::lemma_set_subset_finite(files.dom().map(f), ids);
}

/// A response that is written to its file is added to the history that its
/// request goes on from, so that the next request that goes on from it is sent
/// on with all that was said, whatever serde's reader makes of any file.
pub proof fn law_written_response_extends_the_history(
    files: Files,
    reader: Reader,
    dir: PathBuf,
    id: Seq<char>,
    bytes: Seq<u8>,
    stored: StoredV,
    previous: Seq<char>,
)
    requires
        files.dom().finite(),
        response_store::valid_id(id),
        !files.contains_key(response_store::stored_path(dir, id)),
        response_store::own_file(bytes) == Some(stored),
        previous_id(stored.request) == Some(previous),
        history(store_of(files, reader, dir), previous, Set::empty()) is Ok,
    ensures
        ({
            let written = files.insert(response_store::stored_path(dir, id), bytes);
            history(store_of(written, reader, dir), id, Set::empty()) == Ok::<
                Seq<StoredV>,
                HistoryErrorV,
            >(history(store_of(files, reader, dir), previous, Set::empty())->Ok_0.push(stored))
        }),
{
    let path = response_store::stored_path(dir, id);
    let written = files.insert(path, bytes);
    let before = store_of(files, reader, dir);
    let after = store_of(written, reader, dir);
    lemma_store_is_finite(files, reader, dir);
    assert forall|other: Seq<char>| response_store::stored_path(dir, other) == path implies other
        == id by {
        response_store::law_ids_do_not_share_a_path(dir, other, id);
    }
    assert(after =~= before.insert(id, FoundV::Stored(stored))) by {
        assert forall|other: Seq<char>| after.contains_key(other) <==> before.insert(
            id,
            FoundV::Stored(stored),
        ).contains_key(other) by {}
        assert forall|other: Seq<char>| #[trigger] after.contains_key(other) implies after[other]
            == before.insert(id, FoundV::Stored(stored))[other] by {}
    }
    law_kept_response_extends_the_history(before, id, stored, previous);
}

/// How far a history has been looked up.
pub struct WalkV {
    /// The ids that were looked up.
    pub seen: Seq<Seq<char>>,
    /// What was found, the first response first.
    pub chain: Seq<StoredV>,
    /// The id to look up next.
    pub id: Seq<char>,
}

/// What comes after a look-up.
pub enum StepV {
    /// There is another response before.
    More(WalkV),
    /// The history is complete.
    Complete(Seq<StoredV>),
    /// The history cannot be had.
    Failed(HistoryErrorV),
}

/// The start of a history that ends with an id.
pub open spec fn walk_start(id: Seq<char>) -> WalkV {
    WalkV { seen: seq![], chain: seq![], id }
}

/// What comes after the look-up of the next id.
pub open spec fn walk_step(w: WalkV, file: FoundV) -> StepV {
    if !response_store::valid_id(w.id) {
        StepV::Failed(HistoryErrorV::InvalidId)
    } else {
        match file {
            FoundV::Missing => StepV::Failed(HistoryErrorV::NotFound(w.id)),
            FoundV::Unreadable => StepV::Failed(HistoryErrorV::Unreadable(w.id)),
            FoundV::Garbled => StepV::Failed(HistoryErrorV::Garbled(w.id)),
            FoundV::Stored(stored) => {
                let seen = w.seen.push(w.id);
                let chain = seq![stored] + w.chain;
                match previous_id(stored.request) {
                    None => StepV::Complete(chain),
                    Some(previous) => if seen.contains(previous) {
                        StepV::Failed(HistoryErrorV::Cycle(previous))
                    } else {
                        StepV::More(WalkV { seen, chain, id: previous })
                    },
                }
            },
        }
    }
}

/// What looking up one id after the other comes to.
pub open spec fn walk_outcome(store: Store, w: WalkV) -> Result<Seq<StoredV>, HistoryErrorV>
    decreases store.dom().difference(w.seen.to_set()).len(),
    when store.dom().finite() && !w.seen.contains(w.id)
{
    match walk_step(w, kept(store, w.id)) {
        StepV::More(next) => {
            proof {
                lemma_fewer_unseen(store, w.seen.to_set(), w.id);
                lemma_push_to_set(w.seen, w.id);
            }
            walk_outcome(store, next)
        },
        StepV::Complete(chain) => Ok(chain),
        StepV::Failed(e) => Err(e),
    }
}

/// What is added to a list is added to what it holds.
pub proof fn lemma_push_to_set(s: Seq<Seq<char>>, x: Seq<char>)
    ensures
        s.push(x).to_set() == s.to_set().insert(x),
        forall|y: Seq<char>| s.push(x).contains(y) <==> s.contains(y) || y == x,
{
    assert forall|y: Seq<char>| s.push(x).contains(y) <==> s.contains(y) || y == x by {
        if s.contains(y) {
            let i = choose|i: int| 0 <= i < s.len() && s[i] == y;
            assert(s.push(x)[i] == y);
        }
        assert(s.push(x)[s.len() as int] == x);
        if s.push(x).contains(y) && y != x {
            let i = choose|i: int| 0 <= i < s.push(x).len() && s.push(x)[i] == y;
            assert(s[i] == y);
        }
    }
    assert forall|y: Seq<char>| s.push(x).to_set().contains(y) <==> s.to_set().insert(x).contains(
        y,
    ) by {
        assert(s.push(x).contains(y) <==> s.contains(y) || y == x);
    }
    assert(s.push(x).to_set() =~= s.to_set().insert(x));
}

proof fn lemma_walk(store: Store, w: WalkV)
    requires
        store.dom().finite(),
        !w.seen.contains(w.id),
    ensures
        walk_outcome(store, w) == match history(store, w.id, w.seen.to_set()) {
            Ok(chain) => Ok(chain + w.chain),
            Err(e) => Err(e),
        },
    decreases store.dom().difference(w.seen.to_set()).len(),
{
    lemma_push_to_set(w.seen, w.id);
    if response_store::valid_id(w.id) && kept(store, w.id) is Stored {
        let stored = kept(store, w.id)->Stored_0;
        match previous_id(stored.request) {
            Some(previous) => {
                let seen = w.seen.push(w.id);
                assert(seen.to_set() == w.seen.to_set().insert(w.id));
                let earlier = history(store, previous, seen.to_set());
                assert(history(store, w.id, w.seen.to_set()) == match earlier {
                    Ok(chain) => Ok(chain.push(stored)),
                    Err(e) => Err(e),
                });
                if !seen.contains(previous) {
                    lemma_fewer_unseen(store, w.seen.to_set(), w.id);
                    let next = walk_step(w, kept(store, w.id))->More_0;
                    lemma_walk(store, next);
                    assert(walk_outcome(store, w) == walk_outcome(store, next));
                    match earlier {
                        Ok(chain) => {
                            assert(chain + (seq![stored] + w.chain) =~= chain.push(stored)
                                + w.chain);
                        },
                        Err(_) => {},
                    }
                } else {
                    assert(seen.to_set().contains(previous));
                    assert(earlier == Err::<Seq<StoredV>, _>(HistoryErrorV::Cycle(previous)));
                }
            },
            None => {},
        }
    }
}

/// Looking up one id after the other, from the one asked for, comes to the
/// history of it.
pub proof fn law_walk_gives_the_history(store: Store, id: Seq<char>)
    requires
        store.dom().finite(),
    ensures
        walk_outcome(store, walk_start(id)) == history(store, id, Set::empty()),
{
    let w = walk_start(id);
    lemma_walk(store, w);
    assert(w.seen.to_set() =~= Set::empty());
    match history(store, id, Set::empty()) {
        Ok(chain) => {
            assert(chain + w.chain =~= chain);
        },
        Err(_) => {},
    }
}

/// Looks a history up, one response at a time.
#[derive(Debug)]
pub struct ChainWalk {
    pub seen: Vec<String>,
    pub chain: Vec<StoredResponse>,
    pub id: String,
}

impl View for ChainWalk {
    type V = WalkV;

    open spec fn view(&self) -> WalkV {
        WalkV {
            seen: text::texts(self.seen@),
            chain: response_store::stored_views(self.chain@),
            id: self.id@,
        }
    }
}

/// What comes after a look-up.
#[derive(Debug)]
pub enum ChainStep {
    /// The next response is to be looked up.
    More(ChainWalk),
    /// The history, the first response first.
    Complete(Vec<StoredResponse>),
    /// The history cannot be had.
    Failed(StoreError),
}

/// Whether an error says why a history cannot be had.
pub open spec fn tells(dir: PathBuf, e: StoreError, why: HistoryErrorV) -> bool {
    match why {
        HistoryErrorV::InvalidId => e == StoreError::InvalidId,
        HistoryErrorV::Cycle(id) => e matches StoreError::Cycle(t) && t@ == id,
        HistoryErrorV::NotFound(id) => e matches StoreError::NotFound(t) && t@ == id,
        HistoryErrorV::Unreadable(id) => e matches StoreError::Unreadable(path)
            && paths::path_components(path) == response_store::stored_path(dir, id),
        HistoryErrorV::Garbled(id) => e matches StoreError::Unparsable(path)
            && paths::path_components(path) == response_store::stored_path(dir, id),
    }
}

fn holds(list: &Vec<String>, s: &str) -> (r: bool)
    ensures
        r == text::texts(list@).contains(s@),
{
    let ghost all = text::texts(list@);
    let mut i: usize = 0;
    while i < list.len()
        invariant
            i <= list@.len(),
            all == text::texts(list@),
            forall|j: int| 0 <= j < i ==> all[j] != s@,
        decreases list@.len() - i,
    {
        if text::same_text(list[i].as_str(), s) {
            assert(all[i as int] == s@);
            return true;
        }
        i += 1;
    }
    false
}

impl ChainWalk {
    /// The start of a history that ends with an id.
    pub fn start(id: String) -> (r: ChainWalk)
        ensures
            r@ == walk_start(id@),
    {
        let r = ChainWalk { seen: Vec::new(), chain: Vec::new(), id };
        assert(r@.seen =~= seq![]);
        assert(r@.chain =~= seq![]);
        r
    }

    /// The file that is to be read next.
    pub fn path(&self, config: &Config) -> (r: Result<PathBuf, StoreError>)
        ensures
            r is Ok <==> response_store::valid_id(self@.id),
            r matches Ok(path) ==> paths::path_components(path) == response_store::stored_path(
                config.response_store_dir,
                self@.id,
            ),
            r matches Err(e) ==> e == StoreError::InvalidId,
    {
        response_store::response_path(config, self.id.as_str())
    }

    /// Goes on, given what came of reading the file.
    pub fn advance(self, config: &Config, file: &FileRead) -> (r: ChainStep)
        ensures
            match walk_step(self@, response_store::found(*file)) {
                StepV::More(next) => r matches ChainStep::More(walk) && walk@ == next,
                StepV::Complete(chain) => r matches ChainStep::Complete(c)
                    && response_store::stored_views(c@) == chain,
                StepV::Failed(why) => r matches ChainStep::Failed(e) && tells(
                    config.response_store_dir,
                    e,
                    why,
                ),
            },
    {
        let ghost start = self@;
        let ChainWalk { seen, chain, id } = self;
        let path = match response_store::response_path(config, id.as_str()) {
            Ok(path) => path,
            Err(e) => {
                return ChainStep::Failed(e);
            },
        };
        if let FileRead::Missing = file {
            return ChainStep::Failed(StoreError::NotFound(id));
        }
        let stored = match response_store::read_stored_response(&path, file) {
            Ok(stored) => stored,
            Err(e) => {
                return ChainStep::Failed(e);
            },
        };
        let previous = previous_response_id(&stored.request);
        let mut seen = seen;
        let mut chain = chain;
        let ghost one = stored@;
        seen.push(id);
        chain.insert(0, stored);
        assert(text::texts(seen@) =~= start.seen.push(start.id));
        assert(response_store::stored_views(chain@) =~= seq![one] + start.chain);
        match previous {
            None => ChainStep::Complete(chain),
            Some(next) => {
                if holds(&seen, next.as_str()) {
                    ChainStep::Failed(StoreError::Cycle(next))
                } else {
                    ChainStep::More(ChainWalk { seen, chain, id: next })
                }
            },
        }
    }
}

/// The items of a request's input.
pub open spec fn items_of_input(input: Option<JsonV>) -> Seq<JsonV> {
    match input {
        None => seq![],
        Some(JsonV::Null) => seq![],
        Some(JsonV::Array(items)) => items,
        Some(JsonV::Object(m)) => seq![JsonV::Object(m)],
        Some(JsonV::Str(said)) => seq![chat_request::input_item("user"@, said)],
        Some(other) => seq![chat_request::input_item("user"@, json::json_display(other))],
    }
}

fn clone_items(items: &Vec<Json>) -> (r: Vec<Json>)
    ensures
        json::list_view(r@) == json::list_view(items@),
{
    let mut r: Vec<Json> = Vec::new();
    for i in 0..items.len()
        invariant
            json::list_view(r@) == json::list_view(items@.take(i as int)),
    {
        let ghost before = r@;
        r.push(items[i].clone());
        assert(json::list_view(r@) =~= json::list_view(before).push(items@[i as int]@));
        assert(json::list_view(items@.take(i + 1)) =~= json::list_view(items@.take(i as int)).push(
            items@[i as int]@,
        ));
    }
    assert(items@.take(items@.len() as int) =~= items@);
    r
}

/// The items of a request's input.
pub fn input_items(input: Option<&Json>) -> (r: Vec<Json>)
    ensures
        json::list_view(r@) == items_of_input(
            match input {
                Some(v) => Some(v@),
                None => None,
            },
        ),
{
    match input {
        None => {
            let r: Vec<Json> = Vec::new();
            assert(json::list_view(r@) =~= seq![]);
            r
        },
        Some(v) => match v {
            Json::Null => {
                let r: Vec<Json> = Vec::new();
                assert(json::list_view(r@) =~= seq![]);
                r
            },
            Json::Array(items) => {
                assert(v@->Array_0 =~= json::list_view(items@));
                clone_items(items)
            },
            Json::Object(_) => {
                let mut r: Vec<Json> = Vec::new();
                r.push(v.clone());
                assert(json::list_view(r@) =~= seq![v@]);
                r
            },
            Json::Str(said) => {
                let mut r: Vec<Json> = Vec::new();
                r.push(chat_request::make_input_item("user", said.as_str()));
                assert(json::list_view(r@) =~= seq![chat_request::input_item("user"@, said@)]);
                r
            },
            other => {
                let mut r: Vec<Json> = Vec::new();
                r.push(chat_request::make_input_item("user", other.display().as_str()));
                assert(json::list_view(r@) =~= seq![chat_request::input_item("user"@, json::json_display(v@))]);
                r
            },
        },
    }
}

/// The items of a response's output.
pub open spec fn items_of_output(response: JsonV) -> Seq<JsonV> {
    match response.get_array("output"@) {
        Some(items) => items,
        None => seq![],
    }
}

/// The items of a response's output.
pub fn response_output_items(response: &Json) -> (r: Vec<Json>)
    ensures
        json::list_view(r@) == items_of_output(response@),
{
    match response.get_array("output") {
        Some(items) => clone_items(items),
        None => {
            let r: Vec<Json> = Vec::new();
            assert(json::list_view(r@) =~= seq![]);
            r
        },
    }
}

/// What was said in a history: what was asked and answered, in turn.
pub open spec fn said_before(chain: Seq<StoredV>) -> Seq<JsonV>
    decreases chain.len(),
{
    if chain.len() == 0 {
        seq![]
    } else {
        let last = chain.last();
        said_before(chain.drop_last()) + items_of_input(last.request.get("input"@))
            + items_of_output(last.response)
    }
}

/// What was said in a longer history is what was said in the shorter one, then
/// what was asked and answered last.
pub proof fn law_histories_are_told_in_order(chain: Seq<StoredV>, last: StoredV)
    ensures
        said_before(chain.push(last)) == said_before(chain) + items_of_input(
            last.request.get("input"@),
        ) + items_of_output(last.response),
{
    assert(chain.push(last).drop_last() =~= chain);
}

/// Whether an item is one of the model's own reasoning.
pub open spec fn is_reasoning(item: JsonV) -> bool {
    item.get_str("type"@) == Some("reasoning"@)
}

/// An input without the model's own reasoning.
pub open spec fn without_reasoning(input: JsonV) -> JsonV {
    match input {
        JsonV::Array(items) => JsonV::Array(items.filter(|item: JsonV| !is_reasoning(item))),
        other => other,
    }
}

/// Takes the model's own reasoning out of an input.
pub fn strip_reasoning_items(input: &mut Json)
    ensures
        final(input)@ == without_reasoning(old(input)@),
{
    if let Json::Array(items) = input {
        let mut all: Vec<Json> = Vec::new();
        std::mem::swap(&mut all, items);
        let ghost views = json::list_view(all@);
        let ghost keep = |item: JsonV| !is_reasoning(item);
        let mut kept: Vec<Json> = Vec::new();
        assert(views.take(0).filter(keep) =~= seq![]) by {
            reveal(Seq::filter);
        }
        assert(json::list_view(kept@) =~= seq![]);
        for item in it: all
            invariant
                json::list_view(it.seq()) == views,
                keep == (|item: JsonV| !is_reasoning(item)),
                json::list_view(kept@) == views.take(it.index() as int).filter(keep),
        {
            let ghost i = it.index() as int;
            let ghost before = kept@;
            let ghost v = item@;
            proof {
                assert(views[i] == v);
                assert(views.take(i + 1).drop_last() =~= views.take(i));
                reveal(Seq::filter);
            }
            if !item.member_is("type", "reasoning") {
                kept.push(item);
                assert(json::list_view(kept@) =~= json::list_view(before).push(v));
            }
        }
        assert(views.take(views.len() as int) =~= views);
        *input = Json::array(kept);
        assert(old(input)@->Array_0 =~= views);
    }
}

/// A request as it is sent on: where it goes on from a kept response, what was
/// said before comes before its input; nothing is to be stored upstream; and the
/// model's own reasoning is not sent back.
pub open spec fn upstream_payload(original: JsonV, chain: Seq<StoredV>) -> JsonV {
    let expanded = if previous_id(original) is Some {
        original.with(
            "input"@,
            JsonV::Array(said_before(chain) + items_of_input(original.get("input"@))),
        ).without("previous_response_id"@)
    } else {
        original
    };
    let unstored = expanded.with("store"@, JsonV::Bool(false));
    match unstored.get("input"@) {
        Some(input) => unstored.with("input"@, without_reasoning(input)),
        None => unstored,
    }
}

/// The request to send on, and whether its response is to be kept.  Where the
/// request goes on from a kept response, `chain` is the history of that.
pub fn prepare_responses_payload(original: &Json, chain: &Vec<StoredResponse>) -> (r: (Json, bool))
    requires
        original@.settable(),
    ensures
        r.0@ == upstream_payload(original@, response_store::stored_views(chain@)),
        r.1 == original@.get_flag("store"@),
{
    let should_store = original.get_flag("store");
    let mut upstream = original.clone();
    let ghost views = response_store::stored_views(chain@);
    if previous_response_id(original).is_some() {
        let mut input: Vec<Json> = Vec::new();
        assert(json::list_view(input@) =~= said_before(views.take(0)));
        for i in 0..chain.len()
            invariant
                views == response_store::stored_views(chain@),
                json::list_view(input@) == said_before(views.take(i as int)),
        {
            let ghost before = json::list_view(input@);
            assert(views.take(i + 1).drop_last() =~= views.take(i as int));
            let mut asked = input_items(chain[i].request.get("input"));
            let mut answered = response_output_items(&chain[i].response);
            let ghost a = json::list_view(asked@);
            let ghost b = json::list_view(answered@);
            input.append(&mut asked);
            assert(json::list_view(input@) =~= before + a);
            input.append(&mut answered);
            assert(json::list_view(input@) =~= before + a + b);
        }
        assert(views.take(views.len() as int) =~= views);
        let mut last = input_items(original.get("input"));
        let ghost a = json::list_view(last@);
        let ghost before = json::list_view(input@);
        input.append(&mut last);
        assert(json::list_view(input@) =~= before + a);
        upstream.set("input", Json::array(input));
        upstream.unset("previous_response_id");
    }
    upstream.set("store", Json::Bool(false));
    let stripped = match upstream.get("input") {
        Some(input) => {
            let mut copy = input.clone();
            strip_reasoning_items(&mut copy);
            Some(copy)
        },
        None => None,
    };
    if let Some(input) = stripped {
        upstream.set("input", input);
    }
    (upstream, should_store)
}

/// Nothing is stored upstream, whatever the request asks for.
pub proof fn law_upstream_never_stores(original: JsonV, chain: Seq<StoredV>)
    requires
        original.settable(),
    ensures
        upstream_payload(original, chain).get("store"@) == Some(JsonV::Bool(false)),
{
    chat_request::lemma_payload_keys();
}

/// A request that goes on from a kept response is sent on without its id: what
/// was said before stands in its input instead, then what it says itself, all
/// but the model's own reasoning.
pub proof fn law_history_takes_the_place_of_the_id(original: JsonV, chain: Seq<StoredV>)
    requires
        original.settable(),
        previous_id(original) is Some,
    ensures
        upstream_payload(original, chain).get("previous_response_id"@) is None,
        upstream_payload(original, chain).get("input"@) == Some(
            without_reasoning(
                JsonV::Array(said_before(chain) + items_of_input(original.get("input"@))),
            ),
        ),
{
    chat_request::lemma_payload_keys();
}

/// No item of the input that is sent on is the model's own reasoning, and every
/// other item stays.
pub proof fn law_reasoning_is_not_sent_back(original: JsonV, chain: Seq<StoredV>, item: JsonV)
    requires
        original.settable(),
    ensures
        upstream_payload(original, chain).get_array("input"@) matches Some(items)
            ==> items.contains(item) ==> !is_reasoning(item),
        previous_id(original) is None ==> (original.get_array("input"@) matches Some(items)
            ==> items.contains(item) && !is_reasoning(item) ==> upstream_payload(
            original,
            chain,
        ).get_array("input"@)->0.contains(item)),
{
    broadcast use vstd::seq_lib::group_filter_ensures;

    chat_request::lemma_payload_keys();
    let keep = |item: JsonV| !is_reasoning(item);
    let sent = if previous_id(original) is Some {
        JsonV::Array(said_before(chain) + items_of_input(original.get("input"@)))
    } else {
        match original.get("input"@) {
            Some(input) => input,
            None => JsonV::Null,
        }
    };
    match sent {
        JsonV::Array(items) => {
            let kept = items.filter(keep);
            if kept.contains(item) {
                let j = choose|j: int| 0 <= j < kept.len() && kept[j] == item;
                assert(keep(kept[j]));
            }
            if items.contains(item) && !is_reasoning(item) {
                let i = choose|i: int| 0 <= i < items.len() && items[i] == item;
                assert(keep(items[i]));
                assert(kept.contains(items[i]));
            }
        },
        _ => {},
    }
}

/// All else in a request is sent on as it came.
pub proof fn law_other_members_are_sent_on(original: JsonV, chain: Seq<StoredV>, key: Seq<char>)
    requires
        original.settable(),
        key != "store"@,
        key != "input"@,
        key != "previous_response_id"@,
    ensures
        upstream_payload(original, chain).get(key) == original.get(key),
{
}

/// A request goes on from a response if and only if it names one by a text that is
/// not blank, and the id is that text as it stands.
pub proof fn law_requests_go_on_from_what_they_name(request: JsonV, id: Seq<char>)
    ensures
        previous_id(request) == Some(id) <==> request.get("previous_response_id"@) == Some(
            JsonV::Str(id),
        ) && exists|i: int| 0 <= i < id.len() && !text::white_space(#[trigger] id[i]),
{
    text::law_blank_texts(id);
}

/// Why a history cannot be had: the id is none, nothing is kept under it, its file
/// cannot be used, or the same holds of the response that it goes on from; and a
/// response that goes on from itself has no history.
pub proof fn law_histories_fail_for_a_reason(store: Store, id: Seq<char>, stored: StoredV)
    requires
        store.dom().finite(),
    ensures
        !response_store::valid_id(id) ==> history(store, id, Set::empty()) == Err::<
            Seq<StoredV>,
            _,
        >(HistoryErrorV::InvalidId),
        response_store::valid_id(id) && !store.contains_key(id) ==> history(store, id, Set::empty())
            == Err::<Seq<StoredV>, _>(HistoryErrorV::NotFound(id)),
        response_store::valid_id(id) && store.contains_key(id) && store[id] is Unreadable
            ==> history(store, id, Set::empty()) == Err::<Seq<StoredV>, _>(
            HistoryErrorV::Unreadable(id),
        ),
        response_store::valid_id(id) && store.contains_key(id) && store[id] is Garbled ==> history(
            store,
            id,
            Set::empty(),
        ) == Err::<Seq<StoredV>, _>(HistoryErrorV::Garbled(id)),
        response_store::valid_id(id) && store.contains_key(id) && store[id] == FoundV::Stored(stored)
            && previous_id(stored.request) == Some(id) ==> history(store, id, Set::empty()) == Err::<
            Seq<StoredV>,
            _,
        >(HistoryErrorV::Cycle(id)),
{
    reveal_with_fuel(history, 2);
}

/// A list of items is an input as it is, an object is one item, a text is what the
/// user says, and where there is nothing there are no items.
pub proof fn law_inputs_become_items(
    items: Seq<JsonV>,
    m: Map<Seq<char>, JsonV>,
    said: Seq<char>,
    key: Seq<char>,
    other: JsonV,
)
    requires
        other is Bool || other is Number,
    ensures
        items_of_input(None).len() == 0,
        items_of_input(Some(JsonV::Null)).len() == 0,
        items_of_input(Some(JsonV::Array(items))) == items,
        items_of_input(Some(JsonV::Object(m))) == seq![JsonV::Object(m)],
        ({
            let item = items_of_input(Some(JsonV::Str(said)))[0];
            &&& items_of_input(Some(JsonV::Str(said))).len() == 1
            &&& item.get("role"@) == Some(JsonV::Str("user"@))
            &&& item.get("content"@) == Some(JsonV::Str(said))
            &&& key != "role"@ && key != "content"@ ==> item.get(key) is None
        }),
        ({
            let item = items_of_input(Some(other))[0];
            &&& items_of_input(Some(other)).len() == 1
            &&& item.get("role"@) == Some(JsonV::Str("user"@))
            &&& item.get("content"@) == Some(JsonV::Str(json::json_display(other)))
        }),
{
    reveal_strlit("role");
    reveal_strlit("content");
    assert("role"@.len() == 4 && "content"@.len() == 7);
}

/// The items that a response answered with are its output where that is a list,
/// all of them and in their order; else there are none.
pub proof fn law_outputs_become_items(response: JsonV, items: Seq<JsonV>)
    ensures
        response.get("output"@) == Some(JsonV::Array(items)) ==> items_of_output(response) == items,
        !(response.get("output"@) matches Some(JsonV::Array(_))) ==> items_of_output(response).len()
            == 0,
{
}

/// Whether an item is sent on: all but the model's own reasoning is.
pub open spec fn sent_on(item: JsonV) -> bool {
    item.get("type"@) != Some(JsonV::Str("reasoning"@))
}

/// The items of the input that is sent on for a request, where `chain` is the
/// history that it goes on from.
pub open spec fn sent_items(original: JsonV, chain: Seq<StoredV>) -> Seq<JsonV> {
    match upstream_payload(original, chain).get("input"@) {
        Some(JsonV::Array(items)) => items,
        _ => seq![],
    }
}

proof fn lemma_sent_items(original: JsonV, chain: Seq<StoredV>)
    requires
        original.settable(),
        previous_id(original) is Some,
    ensures
        upstream_payload(original, chain).get("input"@) == Some(
            JsonV::Array(sent_items(original, chain)),
        ),
        sent_items(original, chain) == (said_before(chain) + items_of_input(
            original.get("input"@),
        )).filter(|item: JsonV| sent_on(item)),
{
    law_history_takes_the_place_of_the_id(original, chain);
    let f = |item: JsonV| !is_reasoning(item);
    let g = |item: JsonV| sent_on(item);
    assert(f =~= g);
}

/// What is sent on for a request that goes on from a history is what was asked and
/// answered in it, response by response, then what the request says itself, each
/// list of items as it is but for the model's own reasoning.
pub proof fn law_history_is_sent_on_in_order(
    original: JsonV,
    chain: Seq<StoredV>,
    last: StoredV,
    answered: Seq<JsonV>,
)
    requires
        original.settable(),
        previous_id(original) is Some,
        last.response.get("output"@) == Some(JsonV::Array(answered)),
    ensures
        ({
            let silent = original.with("input"@, JsonV::Array(seq![]));
            let keep = |item: JsonV| sent_on(item);
            &&& sent_items(silent, seq![]) == Seq::<JsonV>::empty()
            &&& sent_items(silent, chain.push(last)) == sent_items(silent, chain) + items_of_input(
                last.request.get("input"@),
            ).filter(keep) + answered.filter(keep)
            &&& sent_items(original, chain) == sent_items(silent, chain) + items_of_input(
                original.get("input"@),
            ).filter(keep)
        }),
{
    chat_request::lemma_payload_keys();
    let silent = original.with("input"@, JsonV::Array(seq![]));
    let keep = |item: JsonV| sent_on(item);
    let none = Seq::<JsonV>::empty();
    assert(none.filter(keep) =~= none) by {
        reveal(Seq::filter);
    }
    assert(silent.get("input"@) == Some(JsonV::Array(none)));
    lemma_sent_items(silent, seq![]);
    lemma_sent_items(silent, chain);
    lemma_sent_items(silent, chain.push(last));
    lemma_sent_items(original, chain);
    law_histories_are_told_in_order(chain, last);
    let asked = items_of_input(last.request.get("input"@));
    let mine = items_of_input(original.get("input"@));
    assert(said_before(chain) + none =~= said_before(chain));
    assert(said_before(seq![]) + none =~= none);
    assert(said_before(chain.push(last)) + none =~= said_before(chain) + asked + answered);
    Seq::filter_distributes_over_add(said_before(chain) + asked, answered, keep);
    Seq::filter_distributes_over_add(said_before(chain), asked, keep);
    Seq::filter_distributes_over_add(said_before(chain), mine, keep);
}

proof fn lemma_said_before_holds(chain: Seq<StoredV>, i: int, item: JsonV)
    requires
        0 <= i < chain.len(),
        items_of_input(chain[i].request.get("input"@)).contains(item) || items_of_output(
            chain[i].response,
        ).contains(item),
    ensures
        said_before(chain).contains(item),
    decreases chain.len(),
{
    let rest = said_before(chain.drop_last());
    let asked = items_of_input(chain.last().request.get("input"@));
    let answered = items_of_output(chain.last().response);
    let all = said_before(chain);
    assert(all == rest + asked + answered);
    if i < chain.len() - 1 {
        lemma_said_before_holds(chain.drop_last(), i, item);
        let k = choose|k: int| 0 <= k < rest.len() && rest[k] == item;
        assert(all[k] == item);
    } else if asked.contains(item) {
        let k = choose|k: int| 0 <= k < asked.len() && asked[k] == item;
        assert(all[rest.len() + k] == item);
    } else {
        let k = choose|k: int| 0 <= k < answered.len() && answered[k] == item;
        assert(all[rest.len() + asked.len() + k] == item);
    }
}

proof fn lemma_is_sent(original: JsonV, chain: Seq<StoredV>, item: JsonV)
    requires
        original.settable(),
        previous_id(original) is Some,
        said_before(chain).contains(item) || items_of_input(original.get("input"@)).contains(item),
        sent_on(item),
    ensures
        sent_items(original, chain).contains(item),
{
    broadcast use vstd::seq_lib::group_filter_ensures;

    lemma_sent_items(original, chain);
    let keep = |item: JsonV| sent_on(item);
    let before = said_before(chain);
    let mine = items_of_input(original.get("input"@));
    let all = before + mine;
    let i = if before.contains(item) {
        choose|i: int| 0 <= i < before.len() && before[i] == item
    } else {
        before.len() + choose|i: int| 0 <= i < mine.len() && mine[i] == item
    };
    assert(all[i] == item);
    assert(keep(all[i]));
    assert(all.filter(keep).contains(all[i]));
}

/// Every item that a response of the history answered with, of whatever kind but
/// the model's own reasoning, is in the input that is sent on.
pub proof fn law_every_answer_is_sent_on(
    original: JsonV,
    chain: Seq<StoredV>,
    i: int,
    answered: Seq<JsonV>,
    j: int,
)
    requires
        original.settable(),
        previous_id(original) is Some,
        0 <= i < chain.len(),
        chain[i].response.get("output"@) == Some(JsonV::Array(answered)),
        0 <= j < answered.len(),
        answered[j].get("type"@) != Some(JsonV::Str("reasoning"@)),
    ensures
        upstream_payload(original, chain).get("input"@) matches Some(JsonV::Array(sent))
            && sent.contains(answered[j]),
{
    lemma_sent_items(original, chain);
    assert(items_of_output(chain[i].response)[j] == answered[j]);
    lemma_said_before_holds(chain, i, answered[j]);
    lemma_is_sent(original, chain, answered[j]);
}

/// Every item that a request of the history asked with, of whatever kind but the
/// model's own reasoning, is in the input that is sent on; and where it asked with
/// a text, that stands there as said by the user.
pub proof fn law_every_question_is_sent_on(
    original: JsonV,
    chain: Seq<StoredV>,
    i: int,
    asked: Seq<JsonV>,
    j: int,
    said: Seq<char>,
)
    requires
        original.settable(),
        previous_id(original) is Some,
        0 <= i < chain.len(),
    ensures
        chain[i].request.get("input"@) == Some(JsonV::Array(asked)) && 0 <= j < asked.len()
            && asked[j].get("type"@) != Some(JsonV::Str("reasoning"@)) ==> (upstream_payload(
            original,
            chain,
        ).get("input"@) matches Some(JsonV::Array(sent)) && sent.contains(asked[j])),
        chain[i].request.get("input"@) == Some(JsonV::Str(said)) ==> (upstream_payload(
            original,
            chain,
        ).get("input"@) matches Some(JsonV::Array(sent)) && exists|k: int|
            0 <= k < sent.len() && (#[trigger] sent[k]).get("role"@) == Some(JsonV::Str("user"@))
                && sent[k].get("content"@) == Some(JsonV::Str(said))),
{
    lemma_sent_items(original, chain);
    let items = items_of_input(chain[i].request.get("input"@));
    if chain[i].request.get("input"@) == Some(JsonV::Array(asked)) && 0 <= j < asked.len()
        && asked[j].get("type"@) != Some(JsonV::Str("reasoning"@)) {
        assert(items[j] == asked[j]);
        lemma_said_before_holds(chain, i, asked[j]);
        lemma_is_sent(original, chain, asked[j]);
    }
    if chain[i].request.get("input"@) == Some(JsonV::Str(said)) {
        lemma_text_is_sent(items, said);
        let item = items[0];
        assert(items.contains(item));
        lemma_said_before_holds(chain, i, item);
        lemma_is_sent(original, chain, item);
        let sent = sent_items(original, chain);
        let k = choose|k: int| 0 <= k < sent.len() && sent[k] == item;
        assert(sent[k].get("role"@) == Some(JsonV::Str("user"@)));
    }
}

proof fn lemma_text_is_sent(items: Seq<JsonV>, said: Seq<char>)
    requires
        items == items_of_input(Some(JsonV::Str(said))),
    ensures
        items.len() == 1,
        sent_on(items[0]),
        items[0].get("role"@) == Some(JsonV::Str("user"@)),
        items[0].get("content"@) == Some(JsonV::Str(said)),
{
    reveal_strlit("role");
    reveal_strlit("content");
    reveal_strlit("type");
    assert("role"@[0] == 'r' && "role"@.len() == 4 && "content"@.len() == 7);
    assert("type"@[0] == 't' && "type"@.len() == 4);
}

/// What a request says itself is in the input that is sent on behind its history,
/// of whatever kind but the model's own reasoning.
pub proof fn law_own_items_are_sent_on(
    original: JsonV,
    chain: Seq<StoredV>,
    items: Seq<JsonV>,
    j: int,
    said: Seq<char>,
)
    requires
        original.settable(),
        previous_id(original) is Some,
    ensures
        original.get("input"@) == Some(JsonV::Array(items)) && 0 <= j < items.len()
            && items[j].get("type"@) != Some(JsonV::Str("reasoning"@)) ==> (upstream_payload(
            original,
            chain,
        ).get("input"@) matches Some(JsonV::Array(sent)) && sent.contains(items[j])),
        original.get("input"@) == Some(JsonV::Str(said)) ==> (upstream_payload(
            original,
            chain,
        ).get("input"@) matches Some(JsonV::Array(sent)) && exists|k: int|
            0 <= k < sent.len() && (#[trigger] sent[k]).get("role"@) == Some(JsonV::Str("user"@))
                && sent[k].get("content"@) == Some(JsonV::Str(said))),
{
    lemma_sent_items(original, chain);
    let mine = items_of_input(original.get("input"@));
    if original.get("input"@) == Some(JsonV::Array(items)) && 0 <= j < items.len()
        && items[j].get("type"@) != Some(JsonV::Str("reasoning"@)) {
        assert(mine[j] == items[j]);
        lemma_is_sent(original, chain, items[j]);
    }
    if original.get("input"@) == Some(JsonV::Str(said)) {
        lemma_text_is_sent(mine, said);
        assert(mine.contains(mine[0]));
        lemma_is_sent(original, chain, mine[0]);
        let sent = sent_items(original, chain);
        let k = choose|k: int| 0 <= k < sent.len() && sent[k] == mine[0];
        assert(sent[k].get("role"@) == Some(JsonV::Str("user"@)));
    }
}

/// A request that goes on from no response is sent on with its own input: a list
/// without the model's own reasoning, anything else as it came; and what it names
/// in vain stays.
pub proof fn law_input_without_history(
    original: JsonV,
    chain: Seq<StoredV>,
    items: Seq<JsonV>,
)
    requires
        original.settable(),
        previous_id(original) is None,
    ensures
        original.get("input"@) == Some(JsonV::Array(items)) ==> upstream_payload(
            original,
            chain,
        ).get("input"@) == Some(JsonV::Array(items.filter(|item: JsonV| sent_on(item)))),
        !(original.get("input"@) matches Some(JsonV::Array(_))) ==> upstream_payload(
            original,
            chain,
        ).get("input"@) == original.get("input"@),
        upstream_payload(original, chain).get("previous_response_id"@) == original.get(
            "previous_response_id"@,
        ),
{
    chat_request::lemma_payload_keys();
    let f = |item: JsonV| !is_reasoning(item);
    let g = |item: JsonV| sent_on(item);
    assert(f =~= g);
}

/// Nothing but the model's own reasoning is held back: items that say so in their
/// type.
pub proof fn law_only_reasoning_is_held_back(item: JsonV)
    ensures
        is_reasoning(item) <==> item.get("type"@) == Some(JsonV::Str("reasoning"@)),
        sent_on(item) <==> item.get("type"@) != Some(JsonV::Str("reasoning"@)),
{
}

/// The error that a client is told of names the response because of which a history
/// cannot be had.
pub proof fn law_errors_tell_why(dir: PathBuf, e: StoreError, id: Seq<char>)
    ensures
        tells(dir, e, HistoryErrorV::InvalidId) <==> e is InvalidId,
        tells(dir, e, HistoryErrorV::Cycle(id)) <==> (e matches StoreError::Cycle(t) && t@ == id),
        tells(dir, e, HistoryErrorV::NotFound(id)) <==> (e matches StoreError::NotFound(t) && t@
            == id),
        tells(dir, e, HistoryErrorV::Unreadable(id)) <==> (e matches StoreError::Unreadable(path)
            && paths::path_components(path) == response_store::stored_path(dir, id)),
        tells(dir, e, HistoryErrorV::Garbled(id)) <==> (e matches StoreError::Unparsable(path)
            && paths::path_components(path) == response_store::stored_path(dir, id)),
{
}

} // verus!
