//! Responses that are kept, one file for each, and the histories that they make
//! up.
use crate::chat_events;
use crate::config::Config;
use crate::json;
use crate::json::{Json, JsonMap, JsonV};
use crate::order;
use crate::paths;
use crate::sse;
use crate::text;
use std::path::PathBuf;
use vstd::prelude::*;

verus! {

/// A request and the response to it, as they are kept.
#[derive(Debug)]
pub struct StoredResponse {
    pub request: Json,
    pub response: Json,
}

/// What is kept.
pub struct StoredV {
    pub request: JsonV,
    pub response: JsonV,
}

impl View for StoredResponse {
    type V = StoredV;

    open spec fn view(&self) -> StoredV {
        StoredV { request: self.request@, response: self.response@ }
    }
}

impl Clone for StoredResponse {
    fn clone(&self) -> (r: Self)
        ensures
            r@ == self@,
    {
        StoredResponse { request: self.request.clone(), response: self.response.clone() }
    }
}

/// What a list of kept responses stands for.
pub open spec fn stored_views(stored: Seq<StoredResponse>) -> Seq<StoredV> {
    stored.map_values(|s: StoredResponse| s@)
}

/// Why a response could not be kept or read.
#[derive(Debug, PartialEq)]
pub enum StoreError {
    /// The response has no id.
    NoId,
    /// The id is no name of a file.
    InvalidId,
    /// A history leads back to this id.
    Cycle(String),
    /// Nothing is kept under this id.
    NotFound(String),
    /// This file could not be read.
    Unreadable(PathBuf),
    /// This file does not hold a response.
    Unparsable(PathBuf),
    /// This file could not be removed.
    Undeletable(PathBuf),
}

/// What an error says.
pub open spec fn error_text(e: StoreError) -> Seq<char> {
    match e {
        StoreError::NoId => "response has no string id"@,
        StoreError::InvalidId => "invalid response id"@,
        StoreError::Cycle(id) => "cycle in previous_response_id chain at "@ + id@,
        StoreError::NotFound(id) => "stored response not found: "@ + id@,
        StoreError::Unreadable(path) => "failed to read "@ + paths::shown_path(path),
        StoreError::Unparsable(path) => "failed to parse stored response "@ + paths::shown_path(
            path,
        ),
        StoreError::Undeletable(path) => "failed to delete "@ + paths::shown_path(path),
    }
}

impl StoreError {
    /// What the error says.
    pub fn message(&self) -> (r: String)
        ensures
            r@ == error_text(*self),
    {
        match self {
            StoreError::NoId => "response has no string id".to_owned(),
            StoreError::InvalidId => "invalid response id".to_owned(),
            StoreError::Cycle(id) => {
                let mut r = "cycle in previous_response_id chain at ".to_owned();
                r.append(id.as_str());
                r
            },
            StoreError::NotFound(id) => {
                let mut r = "stored response not found: ".to_owned();
                r.append(id.as_str());
                r
            },
            StoreError::Unreadable(path) => {
                let mut r = "failed to read ".to_owned();
                r.append(paths::show_path(path).as_str());
                r
            },
            StoreError::Unparsable(path) => {
                let mut r = "failed to parse stored response ".to_owned();
                r.append(paths::show_path(path).as_str());
                r
            },
            StoreError::Undeletable(path) => {
                let mut r = "failed to delete ".to_owned();
                r.append(paths::show_path(path).as_str());
                r
            },
        }
    }
}

/// The characters of an id: ASCII letters, digits, `_`, `-` and `.`.
pub open spec fn id_char(c: char) -> bool {
    ||| 'a' <= c <= 'z'
    ||| 'A' <= c <= 'Z'
    ||| '0' <= c <= '9'
    ||| c == '_'
    ||| c == '-'
    ||| c == '.'
}

/// Whether a text can be the id of a response.
pub open spec fn valid_id(id: Seq<char>) -> bool {
    id.len() > 0 && forall|i: int| 0 <= i < id.len() ==> id_char(#[trigger] id[i])
}

/// Whether a text can be the id of a response.
pub fn validate_response_id(id: &str) -> (r: Result<(), StoreError>)
    ensures
        r is Ok <==> valid_id(id@),
        r matches Err(e) ==> e == StoreError::InvalidId,
{
    let cs = text::chars_of(id);
    if cs.len() == 0 {
        return Err(StoreError::InvalidId);
    }
    let mut i: usize = 0;
    while i < cs.len()
        invariant
            i <= cs@.len(),
            cs@ == id@,
            forall|j: int| 0 <= j < i ==> id_char(#[trigger] id@[j]),
        decreases cs@.len() - i,
    {
        let c = cs[i];
        let fine = ('a' <= c && c <= 'z') || ('A' <= c && c <= 'Z') || ('0' <= c && c <= '9') || c
            == '_' || c == '-' || c == '.';
        if !fine {
            assert(!id_char(id@[i as int]));
            return Err(StoreError::InvalidId);
        }
        i += 1;
    }
    Ok(())
}

/// The name of the file that a response is kept in.
pub open spec fn file_name(id: Seq<char>) -> Seq<char> {
    id + ".json"@
}

/// The path of the file that a response is kept in.
pub open spec fn stored_path(dir: PathBuf, id: Seq<char>) -> Seq<Seq<char>> {
    paths::path_components(dir).push(file_name(id))
}

/// A response's file is an entry of the directory that responses are kept in:
/// no id leads out of it or below it.
pub proof fn law_path_stays_in_directory(dir: PathBuf, id: Seq<char>)
    requires
        valid_id(id),
    ensures
        stored_path(dir, id).drop_last() == paths::path_components(dir),
        paths::entry_name(stored_path(dir, id).last()),
{
    reveal_strlit(".json");
    let name = file_name(id);
    assert(stored_path(dir, id).drop_last() =~= paths::path_components(dir));
    assert(name.len() == id.len() + 5);
    assert forall|i: int| 0 <= i < name.len() implies id_char(#[trigger] name[i]) by {
        if i < id.len() {
            assert(id_char(id[i]));
        }
    }
}

/// Responses with different ids are kept in different files.
pub proof fn law_ids_do_not_share_a_path(dir: PathBuf, a: Seq<char>, b: Seq<char>)
    requires
        stored_path(dir, a) == stored_path(dir, b),
    ensures
        a == b,
{
    let x = file_name(a);
    let y = file_name(b);
    assert(stored_path(dir, a).last() == x);
    assert(stored_path(dir, b).last() == y);
    assert(x.len() == y.len());
    assert(a =~= x.take(a.len() as int));
    assert(b =~= y.take(b.len() as int));
}

/// The path of the file that a response is kept in.
pub fn response_path(config: &Config, id: &str) -> (r: Result<PathBuf, StoreError>)
    ensures
        r is Ok <==> valid_id(id@),
        r matches Ok(path) ==> paths::path_components(path) == stored_path(
            config.response_store_dir,
            id@,
        ),
        r matches Err(e) ==> e == StoreError::InvalidId,
{
    match validate_response_id(id) {
        Ok(()) => {
            let mut name = id.to_owned();
            name.append(".json");
            proof {
                law_path_stays_in_directory(config.response_store_dir, id@);
            }
            Ok(paths::join_path(&config.response_store_dir, name.as_str()))
        },
        Err(e) => Err(e),
    }
}

/// The JSON object that is written for a request and its response.
pub open spec fn stored_object(stored: StoredV) -> JsonV {
    JsonV::empty_object().with("request"@, stored.request).with("response"@, stored.response)
}

/// The request and response that the members of an object hold.
pub open spec fn stored_in_members(m: Map<Seq<char>, JsonV>) -> Option<StoredV> {
    if m.contains_key("request"@) && m.contains_key("response"@) {
        Some(StoredV { request: m["request"@], response: m["response"@] })
    } else {
        None
    }
}

/// The request and response that a file holds that is as it was written for
/// them, byte for byte.
pub open spec fn own_file(bytes: Seq<u8>) -> Option<StoredV> {
    match json::parsed_members(bytes) {
        Some(m) => match stored_in_members(m) {
            Some(stored) => if json::json_pretty(stored_object(stored)) == bytes {
                Some(stored)
            } else {
                None
            },
            None => None,
        },
        None => None,
    }
}

/// What is written for a request and its response is read as them.
pub proof fn law_stored_object_is_read_back(stored: StoredV)
    ensures
        stored_object(stored) matches JsonV::Object(m) && stored_in_members(m) == Some(stored),
{
    reveal_strlit("request");
    reveal_strlit("response");
    assert("request"@.len() == 7);
    assert("response"@.len() == 8);
}

/// The request and response that the members of an object hold.
pub fn stored_from_members(members: &JsonMap) -> (r: Option<StoredResponse>)
    ensures
        stored_in_members(members@) == match r {
            Some(s) => Some(s@),
            None => None,
        },
{
    match (members.get("request"), members.get("response")) {
        (Some(request), Some(response)) => Some(
            StoredResponse { request: request.clone(), response: response.clone() },
        ),
        _ => None,
    }
}

/// The indented JSON text of a request and its response.
fn stored_text(request: Json, response: Json) -> (r: Vec<u8>)
    ensures
        ({
            let stored = StoredV { request: request@, response: response@ };
            let depth = (json::parse_depth() - 1) as nat;
            &&& r@ == json::json_pretty(stored_object(stored))
            &&& json::exact_within(request@, depth) && json::exact_within(response@, depth)
                ==> own_file(r@) == Some(stored)
        }),
{
    let ghost stored = StoredV { request: request@, response: response@ };
    let object = Json::object().with("request", request).with("response", response);
    assert(object@ == stored_object(stored));
    proof {
        law_stored_object_is_read_back(stored);
        let depth = (json::parse_depth() - 1) as nat;
        if json::exact_within(stored.request, depth) && json::exact_within(stored.response, depth) {
            let m = stored_object(stored)->Object_0;
            assert forall|k: Seq<char>| m.contains_key(k) implies json::exact_within(
                #[trigger] m[k],
                depth,
            ) by {}
        }
    }
    object.encode_pretty()
}

/// Reads a file that is as it was written, and no other.
pub fn read_own_file(bytes: &[u8]) -> (r: Option<StoredResponse>)
    ensures
        own_file(bytes@) == match r {
            Some(stored) => Some(stored@),
            None => None,
        },
{
    let stored = match JsonMap::parse(bytes) {
        Some(members) => match stored_from_members(&members) {
            Some(stored) => stored,
            None => {
                return None;
            },
        },
        None => {
            return None;
        },
    };
    let text = stored_text(stored.request.clone(), stored.response.clone());
    if text::same_bytes(text.as_slice(), bytes) {
        Some(stored)
    } else {
        None
    }
}

/// A file that is to be written.
#[derive(Debug, PartialEq)]
pub struct StoreWrite {
    pub path: PathBuf,
    pub bytes: Vec<u8>,
}

/// Whether a response is kept as it should be: under its id, together with its
/// request, as indented JSON that is read back as them where they can be read
/// back from their texts.
pub open spec fn stored_as(
    dir: PathBuf,
    request: JsonV,
    response: JsonV,
    r: Result<StoreWrite, StoreError>,
) -> bool {
    let stored = StoredV { request, response };
    let depth = (json::parse_depth() - 1) as nat;
    match response.get_str("id"@) {
        None => r == Err::<StoreWrite, _>(StoreError::NoId),
        Some(id) => if !valid_id(id) {
            r == Err::<StoreWrite, _>(StoreError::InvalidId)
        } else {
            r matches Ok(w) && w.bytes@ == json::json_pretty(stored_object(stored))
                && paths::path_components(w.path) == stored_path(dir, id) && (json::exact_within(
                request,
                depth,
            ) && json::exact_within(response, depth) ==> own_file(w.bytes@) == Some(stored))
        },
    }
}

/// How a response is kept.
pub fn store_response(config: &Config, request: Json, response: Json) -> (r: Result<
    StoreWrite,
    StoreError,
>)
    ensures
        stored_as(config.response_store_dir, request@, response@, r),
{
    let path = match response.get_str("id") {
        Some(id) => match response_path(config, id) {
            Ok(path) => path,
            Err(e) => {
                return Err(e);
            },
        },
        None => {
            return Err(StoreError::NoId);
        },
    };
    let bytes = stored_text(request, response);
    Ok(StoreWrite { path, bytes })
}

/// What came of reading a file.
#[derive(Debug)]
pub enum FileRead {
    /// It is not there.
    Missing,
    /// It is there and could not be read.
    Unreadable,
    /// It was read.
    Bytes {
        bytes: Vec<u8>,
        /// What serde's reader of kept responses makes of the bytes.  It decides
        /// on files that were changed by hand: it passes over members that it
        /// does not know, and takes none that is named twice.
        read: Option<StoredResponse>,
    },
}

/// What a file holds.
pub enum FoundV {
    Missing,
    Unreadable,
    Garbled,
    Stored(StoredV),
}

/// What a file that was read holds, given what serde's reader makes of it.
pub open spec fn found_in(bytes: Seq<u8>, read: Option<StoredV>) -> FoundV {
    match (own_file(bytes), read) {
        (Some(stored), _) => FoundV::Stored(stored),
        (None, Some(stored)) => FoundV::Stored(stored),
        (None, None) => FoundV::Garbled,
    }
}

/// What came of reading a file for a response.
pub open spec fn found(file: FileRead) -> FoundV {
    match file {
        FileRead::Missing => FoundV::Missing,
        FileRead::Unreadable => FoundV::Unreadable,
        FileRead::Bytes { bytes, read } => found_in(
            bytes@,
            match read {
                Some(stored) => Some(stored@),
                None => None,
            },
        ),
    }
}

/// What the file at a path holds, or why it cannot be had.
pub fn read_stored_response(path: &PathBuf, file: &FileRead) -> (r: Result<
    StoredResponse,
    StoreError,
>)
    ensures
        match found(*file) {
            FoundV::Missing => r == Err::<StoredResponse, _>(StoreError::Unreadable(*path)),
            FoundV::Unreadable => r == Err::<StoredResponse, _>(StoreError::Unreadable(*path)),
            FoundV::Garbled => r == Err::<StoredResponse, _>(StoreError::Unparsable(*path)),
            FoundV::Stored(s) => r matches Ok(stored) && stored@ == s,
        },
{
    match file {
        FileRead::Missing => Err(StoreError::Unreadable(path.clone())),
        FileRead::Unreadable => Err(StoreError::Unreadable(path.clone())),
        FileRead::Bytes { bytes, read } => match read_own_file(bytes.as_slice()) {
            Some(stored) => Ok(stored),
            None => match read {
                Some(stored) => Ok(
                    StoredResponse {
                        request: stored.request.clone(),
                        response: stored.response.clone(),
                    },
                ),
                None => Err(StoreError::Unparsable(path.clone())),
            },
        },
    }
}

/// What comes of asking for a response.
pub enum LoadV {
    InvalidId,
    Absent,
    Unreadable,
    Garbled,
    Response(JsonV),
}

/// What comes of asking for a response, by what its file holds.
pub open spec fn load_outcome(id: Seq<char>, file: FoundV) -> LoadV {
    if !valid_id(id) {
        LoadV::InvalidId
    } else {
        match file {
            FoundV::Missing => LoadV::Absent,
            FoundV::Unreadable => LoadV::Unreadable,
            FoundV::Garbled => LoadV::Garbled,
            FoundV::Stored(s) => LoadV::Response(s.response),
        }
    }
}

/// The response that is kept under an id, given what came of reading its file.
pub fn load_response(config: &Config, id: &str, file: &FileRead) -> (r: Result<
    Option<Json>,
    StoreError,
>)
    ensures
        match load_outcome(id@, found(*file)) {
            LoadV::InvalidId => r == Err::<Option<Json>, _>(StoreError::InvalidId),
            LoadV::Absent => r == Ok::<Option<Json>, StoreError>(None),
            LoadV::Unreadable => r matches Err(StoreError::Unreadable(path))
                && paths::path_components(path) == stored_path(config.response_store_dir, id@),
            LoadV::Garbled => r matches Err(StoreError::Unparsable(path))
                && paths::path_components(path) == stored_path(config.response_store_dir, id@),
            LoadV::Response(v) => r matches Ok(Some(response)) && response@ == v,
        },
{
    let path = match response_path(config, id) {
        Ok(path) => path,
        Err(e) => {
            return Err(e);
        },
    };
    if let FileRead::Missing = file {
        return Ok(None);
    }
    match read_stored_response(&path, file) {
        Ok(stored) => Ok(Some(stored.response)),
        Err(e) => Err(e),
    }
}

/// The file to remove so that nothing is kept under an id, given whether it is
/// there.
pub fn delete_response(config: &Config, id: &str, present: bool) -> (r: Result<
    Option<PathBuf>,
    StoreError,
>)
    ensures
        if !valid_id(id@) {
            r == Err::<Option<PathBuf>, _>(StoreError::InvalidId)
        } else if !present {
            r == Ok::<_, StoreError>(None::<PathBuf>)
        } else {
            r matches Ok(Some(path)) && paths::path_components(path) == stored_path(
                config.response_store_dir,
                id@,
            )
        },
{
    match response_path(config, id) {
        Ok(path) => if present {
            Ok(Some(path))
        } else {
            Ok(None)
        },
        Err(e) => Err(e),
    }
}

/// The files of a file system, by their paths.
pub type Files = Map<Seq<Seq<char>>, Seq<u8>>;

/// What a reader of files makes of their bytes.
pub type Reader = spec_fn(Seq<u8>) -> Option<StoredV>;

/// What the file of a response holds, given serde's reader of kept responses.
pub open spec fn found_at(files: Files, reader: Reader, path: Seq<Seq<char>>) -> FoundV {
    if files.contains_key(path) {
        found_in(files[path], reader(files[path]))
    } else {
        FoundV::Missing
    }
}

/// What comes of asking for a response, by what is in the file system.
pub open spec fn loaded(files: Files, reader: Reader, dir: PathBuf, id: Seq<char>) -> LoadV {
    load_outcome(id, found_at(files, reader, stored_path(dir, id)))
}

/// Once a response's file is written, asking for its id gives the response, and
/// asking for any other id gives what it gave before, whatever serde's reader
/// makes of any file.
pub proof fn law_load_gives_what_was_stored(
    files: Files,
    reader: Reader,
    dir: PathBuf,
    id: Seq<char>,
    bytes: Seq<u8>,
    stored: StoredV,
    other: Seq<char>,
)
    requires
        valid_id(id),
        own_file(bytes) == Some(stored),
        other != id,
    ensures
        ({
            let written = files.insert(stored_path(dir, id), bytes);
            &&& loaded(written, reader, dir, id) == LoadV::Response(stored.response)
            &&& loaded(written, reader, dir, other) == loaded(files, reader, dir, other)
        }),
{
    if stored_path(dir, other) == stored_path(dir, id) {
        law_ids_do_not_share_a_path(dir, other, id);
    }
}

/// Once a response's file is removed, nothing is found under its id, and asking
/// for any other id gives what it gave before.
pub proof fn law_delete_removes_one_response(
    files: Files,
    reader: Reader,
    dir: PathBuf,
    id: Seq<char>,
    other: Seq<char>,
)
    requires
        valid_id(id),
        other != id,
    ensures
        ({
            let left = files.remove(stored_path(dir, id));
            &&& loaded(left, reader, dir, id) == LoadV::Absent
            &&& loaded(left, reader, dir, other) == loaded(files, reader, dir, other)
        }),
{
    if stored_path(dir, other) == stored_path(dir, id) {
        law_ids_do_not_share_a_path(dir, other, id);
    }
}

/// A file of the directory that responses are kept in.
#[derive(Debug)]
pub struct StoreFile {
    /// What follows the last dot of its name.
    pub extension: Option<String>,
    /// When it was last written.
    pub modified: Option<i128>,
}

/// How many of the units in which times are given make up a second.
pub const NANOS_PER_SEC: i128 = 1_000_000_000;

/// Whether a kept response is to go: responses do not stay for ever, this is
/// one, and it was last written longer ago than they stay.  Times are in
/// nanoseconds.
pub open spec fn expired(max_age_secs: u64, now: i128, file: StoreFile) -> bool {
    &&& max_age_secs != 0
    &&& json::option_text(file.extension) == Some("json"@)
    &&& match file.modified {
        Some(m) => m < now - max_age_secs * NANOS_PER_SEC,
        None => false,
    }
}

/// The time before which what was written is too old, unless that is before all
/// times.
pub fn expiry_cutoff(now: i128, max_age_secs: u64) -> (r: Option<i128>)
    ensures
        r == if now - max_age_secs * NANOS_PER_SEC >= i128::MIN {
            Some((now - max_age_secs * NANOS_PER_SEC) as i128)
        } else {
            None
        },
{
    let age: i128 = max_age_secs as i128 * NANOS_PER_SEC;
    now.checked_sub(age)
}

/// The positions of the files that are to go.
pub fn prune_expired(config: &Config, now: i128, files: &Vec<StoreFile>) -> (r: Vec<usize>)
    ensures
        forall|i: int, j: int| 0 <= i < j < r@.len() ==> r@[i] < r@[j],
        forall|k: usize|
            #[trigger] r@.contains(k) <==> k < files@.len() && expired(
                config.response_store_max_age_secs,
                now,
                files@[k as int],
            ),
{
    let cutoff = expiry_cutoff(now, config.response_store_max_age_secs);
    let mut r: Vec<usize> = Vec::new();
    for i in 0..files.len()
        invariant
            cutoff == if now - config.response_store_max_age_secs * NANOS_PER_SEC >= i128::MIN {
                Some((now - config.response_store_max_age_secs * NANOS_PER_SEC) as i128)
            } else {
                None
            },
            forall|a: int, b: int| 0 <= a < b < r@.len() ==> r@[a] < r@[b],
            forall|a: int| 0 <= a < r@.len() ==> r@[a] < i,
            forall|k: usize|
                #[trigger] r@.contains(k) <==> k < i && expired(
                    config.response_store_max_age_secs,
                    now,
                    files@[k as int],
                ),
    {
        let file = &files[i];
        let is_json = match &file.extension {
            Some(e) => text::same_text(e.as_str(), "json"),
            None => false,
        };
        let old_enough = match (cutoff, file.modified) {
            (Some(c), Some(m)) => m < c,
            _ => false,
        };
        if config.response_store_max_age_secs != 0 && is_json && old_enough {
            let ghost before = r@;
            r.push(i);
            assert forall|k: usize| #[trigger] r@.contains(k) <==> k < i + 1 && expired(
                config.response_store_max_age_secs,
                now,
                files@[k as int],
            ) by {
                if before.contains(k) {
                    let j = choose|j: int| 0 <= j < before.len() && before[j] == k;
                    assert(r@[j] == k);
                }
                if r@.contains(k) && k != i {
                    let j = choose|j: int| 0 <= j < r@.len() && r@[j] == k;
                    assert(before[j] == k);
                }
                assert(r@[before.len() as int] == i);
            }
        }
    }
    r
}

/// The output item that an event reports as done, with its place in the output.
pub open spec fn done_entry(event: JsonV) -> Option<(u64, JsonV)> {
    if event.get_str("type"@) == Some("response.output_item.done"@) {
        match event.get("item"@) {
            Some(item) => Some((chat_events::output_index(event), item)),
            None => None,
        }
    } else {
        None
    }
}

/// An output item with its place.
pub open spec fn entry_view(entry: (u64, Json)) -> (u64, JsonV) {
    (entry.0, entry.1@)
}

/// Output items with their places.
pub open spec fn entry_views(entries: Seq<(u64, Json)>) -> Seq<(u64, JsonV)> {
    entries.map_values(|e: (u64, Json)| entry_view(e))
}

/// The output item that an event reports as done, with its place in the output.
pub fn output_item_done_entry(event: &Json) -> (r: Option<(u64, Json)>)
    ensures
        done_entry(event@) == match r {
            Some(entry) => Some(entry_view(entry)),
            None => None,
        },
{
    if !event.member_is("type", "response.output_item.done") {
        return None;
    }
    let item = match event.get("item") {
        Some(item) => item.clone(),
        None => {
            return None;
        },
    };
    Some((chat_events::output_index_of(event), item))
}

/// The places of output items.
pub open spec fn places(items: Seq<(u64, JsonV)>) -> Seq<i128> {
    items.map_values(|e: (u64, JsonV)| e.0 as i128)
}

/// Output items by their places, those of one place as they came.
pub open spec fn ordered_output(items: Seq<(u64, JsonV)>) -> Seq<JsonV> {
    order::sorted_positions(places(items)).map_values(|k: usize| items[k as int].1)
}

/// Whether a response has output already.
pub open spec fn has_output(response: JsonV) -> bool {
    match response.get_array("output"@) {
        Some(out) => out.len() > 0,
        None => false,
    }
}

/// A response with the output items that were reported, where it has no output
/// of its own.
pub open spec fn filled_output(response: JsonV, items: Seq<(u64, JsonV)>) -> JsonV {
    if has_output(response) || items.len() == 0 || response !is Object {
        response
    } else {
        response.with("output"@, JsonV::Array(ordered_output(items)))
    }
}

/// In the output that is filled in each reported item stands once, by its
/// place, those of one place as they came.
pub proof fn law_filled_output_is_ordered(response: JsonV, items: Seq<(u64, JsonV)>) -> (order: Seq<
    usize,
>)
    requires
        response is Object,
        !has_output(response),
        0 < items.len() <= usize::MAX,
    ensures
        order::stable_order(places(items), order),
        filled_output(response, items).get_array("output"@) == Some(
            order.map_values(|k: usize| items[k as int].1),
        ),
{
    order::law_sorted_positions(places(items));
    order::sorted_positions(places(items))
}

/// Output that a response has is kept, and so is all else in it.
pub proof fn law_filling_changes_nothing_else(
    response: JsonV,
    items: Seq<(u64, JsonV)>,
    key: Seq<char>,
)
    ensures
        has_output(response) ==> filled_output(response, items) == response,
        key != "output"@ ==> filled_output(response, items).get(key) == response.get(key),
{
}

/// Filling in again changes nothing.
pub proof fn law_filling_again_changes_nothing(response: JsonV, items: Seq<(u64, JsonV)>)
    requires
        items.len() <= usize::MAX,
    ensures
        filled_output(filled_output(response, items), items) == filled_output(response, items),
{
    if !has_output(response) && items.len() > 0 && response is Object {
        order::law_sorted_positions(places(items));
        assert(ordered_output(items).len() == items.len());
    }
}

/// Fills in the output items that were reported, where the response has no
/// output of its own.
pub fn fill_output_from_items(response: &mut Json, items: &Vec<(u64, Json)>)
    ensures
        final(response)@ == filled_output(old(response)@, entry_views(items@)),
{
    let already = match response.get_array("output") {
        Some(out) => out.len() > 0,
        None => false,
    };
    if already || items.len() == 0 {
        return;
    }
    let ghost views = entry_views(items@);
    let mut keys: Vec<i128> = Vec::new();
    for i in 0..items.len()
        invariant
            keys@.len() == i,
            views == entry_views(items@),
            forall|j: int| 0 <= j < i ==> keys@[j] == #[trigger] views[j].0 as i128,
    {
        keys.push(items[i].0 as i128);
    }
    assert(keys@ =~= places(views));
    let positions = order::sort_positions(&keys);
    let mut output: Vec<Json> = Vec::new();
    for i in 0..positions.len()
        invariant
            output@.len() == i,
            views == entry_views(items@),
            positions@ == order::sorted_positions(places(views)),
            order::stable_order(places(views), positions@),
            forall|j: int|
                0 <= j < i ==> json::json_view(#[trigger] output@[j]) == views[positions@[j] as int].1,
    {
        output.push(items[positions[i]].1.clone());
    }
    assert(json::list_view(output@) =~= ordered_output(views));
    if let Json::Object(_) = response {
        response.set("output", Json::array(output));
    }
}

/// What is gathered out of an event stream.
pub struct GatheredV {
    /// The last response that was reported complete.
    pub response: Option<JsonV>,
    /// The output items that were reported done.
    pub items: Seq<(u64, JsonV)>,
}

/// What is gathered once one more event is in.
pub open spec fn after_event(g: GatheredV, event: JsonV) -> GatheredV {
    match done_entry(event) {
        Some(entry) => GatheredV { items: g.items.push(entry), ..g },
        None => if event.get_str("type"@) == Some("response.completed"@) && event.get(
            "response"@,
        ) is Some {
            GatheredV { response: event.get("response"@), ..g }
        } else {
            g
        },
    }
}

/// What is gathered once one more line is in.
pub open spec fn after_line(g: GatheredV, line: Seq<char>) -> GatheredV {
    match sse::sse_line(line) {
        sse::SseLine::Data(data) => match json::parsed_json(data) {
            json::Parsed::Value(event) => after_event(g, event),
            json::Parsed::Failure(_) => g,
        },
        _ => g,
    }
}

/// What is gathered out of lines.
pub open spec fn gathered(lines: Seq<Seq<char>>) -> GatheredV
    decreases lines.len(),
{
    if lines.len() == 0 {
        GatheredV { response: None, items: seq![] }
    } else {
        after_line(gathered(lines.drop_last()), lines.last())
    }
}

/// The response that was gathered, with its output.
pub open spec fn gathered_response(g: GatheredV) -> Option<JsonV> {
    match g.response {
        Some(response) => Some(filled_output(response, g.items)),
        None => None,
    }
}

/// The response that an event stream brings.
pub open spec fn sse_response(bytes: Seq<u8>) -> Option<JsonV> {
    if vstd::utf8::valid_utf8(bytes) {
        gathered_response(gathered(text::lines_of(vstd::utf8::decode_utf8(bytes))))
    } else {
        None
    }
}

/// Gathers a response out of an event stream.
#[derive(Debug)]
pub struct Gathering {
    pub response: Option<Json>,
    pub items: Vec<(u64, Json)>,
}

impl View for Gathering {
    type V = GatheredV;

    open spec fn view(&self) -> GatheredV {
        GatheredV { response: json::option_view(self.response), items: entry_views(self.items@) }
    }
}

impl Gathering {
    /// Nothing yet.
    pub fn new() -> (r: Gathering)
        ensures
            r@ == gathered(seq![]),
    {
        let r = Gathering { response: None, items: Vec::new() };
        assert(r@.items =~= seq![]);
        r
    }

    /// Takes an event in.
    pub fn take_event(&mut self, event: &Json)
        ensures
            final(self)@ == after_event(old(self)@, event@),
    {
        match output_item_done_entry(event) {
            Some(entry) => {
                self.items.push(entry);
                assert(self@.items =~= old(self)@.items.push(entry_view(entry)));
            },
            None => {
                if event.member_is("type", "response.completed") {
                    if let Some(completed) = event.get("response") {
                        self.response = Some(completed.clone());
                    }
                }
            },
        }
    }

    /// Takes a line in.
    pub fn take_line(&mut self, line: &str)
        ensures
            final(self)@ == after_line(old(self)@, line@),
    {
        if let sse::LineData::Data(data) = sse::line_data(line) {
            if let Ok(event) = Json::parse(data) {
                self.take_event(&event);
            }
        }
    }

    /// The response that was gathered.
    pub fn finish(self) -> (r: Option<Json>)
        ensures
            json::option_view(r) == gathered_response(self@),
    {
        let Gathering { response, items } = self;
        match response {
            Some(v) => {
                let mut response = v;
                fill_output_from_items(&mut response, &items);
                Some(response)
            },
            None => None,
        }
    }
}

/// The response that an event stream brings.
pub fn response_from_sse_bytes(bytes: &[u8]) -> (r: Option<Json>)
    ensures
        json::option_view(r) == sse_response(bytes@),
{
    let text = match core::str::from_utf8(bytes) {
        Ok(text) => text,
        Err(_) => {
            return None;
        },
    };
    let lines = text::lines(text);
    let ghost all = text::lines_of(text@);
    let mut g = Gathering::new();
    assert(all.take(0) =~= seq![]);
    for i in 0..lines.len()
        invariant
            text::texts(lines@) == all,
            g@ == gathered(all.take(i as int)),
    {
        assert(all[i as int] == lines@[i as int]@);
        assert(all.take(i + 1).drop_last() =~= all.take(i as int));
        g.take_line(lines[i].as_str());
    }
    assert(all.take(lines@.len() as int) =~= all);
    g.finish()
}

/// An id is made of letters and digits of ASCII, low lines, hyphens and dots, at
/// least one, and every such text is an id.
pub proof fn law_ids(id: Seq<char>)
    ensures
        valid_id(id) <==> id.len() > 0 && forall|i: int|
            0 <= i < id.len() ==> ('a' <= #[trigger] id[i] <= 'z') || ('A' <= id[i] <= 'Z') || ('0'
                <= id[i] <= '9') || id[i] == '_' || id[i] == '-' || id[i] == '.',
{
    if valid_id(id) {
        assert forall|i: int| 0 <= i < id.len() implies ('a' <= #[trigger] id[i] <= 'z') || ('A'
            <= id[i] <= 'Z') || ('0' <= id[i] <= '9') || id[i] == '_' || id[i] == '-' || id[i]
            == '.' by {
            assert(id_char(id[i]));
        }
    }
}

/// A response's file is named after its id, with `.json` behind it.
pub proof fn law_files_are_named_after_ids(dir: PathBuf, id: Seq<char>)
    ensures
        stored_path(dir, id) == paths::path_components(dir).push(
            id + seq!['.', 'j', 's', 'o', 'n'],
        ),
{
    reveal_strlit(".json");
    assert(".json"@ =~= seq!['.', 'j', 's', 'o', 'n']);
}

/// What is written for a request and its response is an object that holds both as
/// they are, and nothing else.
pub proof fn law_request_and_response_are_written(stored: StoredV, key: Seq<char>)
    ensures
        stored_object(stored).get("request"@) == Some(stored.request),
        stored_object(stored).get("response"@) == Some(stored.response),
        key != "request"@ && key != "response"@ ==> stored_object(stored).get(key) is None,
{
    reveal_strlit("request");
    reveal_strlit("response");
    assert("request"@.len() == 7);
    assert("response"@.len() == 8);
}

/// What is asked for under a text that is no id is not looked for; else nothing is
/// found where no file is, the response where a file holds it with its request,
/// and an error where the file cannot be used.
pub proof fn law_loading_depends_on_the_file(id: Seq<char>, stored: StoredV)
    ensures
        valid_id(id) ==> {
            &&& load_outcome(id, FoundV::Missing) is Absent
            &&& load_outcome(id, FoundV::Unreadable) is Unreadable
            &&& load_outcome(id, FoundV::Garbled) is Garbled
            &&& load_outcome(id, FoundV::Stored(stored)) == LoadV::Response(stored.response)
        },
        !valid_id(id) ==> load_outcome(id, FoundV::Stored(stored)) is InvalidId && load_outcome(
            id,
            FoundV::Missing,
        ) is InvalidId,
{
}

/// A kept response goes if and only if responses have an age to reach, it was last
/// written longer ago than that, and its file is one of a response.
pub proof fn law_old_responses_expire(max_age_secs: u64, now: i128, file: StoreFile)
    ensures
        max_age_secs == 0 ==> !expired(max_age_secs, now, file),
        file.modified is None ==> !expired(max_age_secs, now, file),
        file.extension is None ==> !expired(max_age_secs, now, file),
        file.extension matches Some(e) ==> e@ != "json"@ ==> !expired(max_age_secs, now, file),
        file.modified matches Some(m) ==> now - m <= max_age_secs * 1_000_000_000 ==> !expired(
            max_age_secs,
            now,
            file,
        ),
        max_age_secs > 0 && (file.extension matches Some(e) && e@ == "json"@) && (
        file.modified matches Some(m) && now - m > max_age_secs * 1_000_000_000) ==> expired(
            max_age_secs,
            now,
            file,
        ),
{
}

/// An event that reports an output item as done, of whatever kind, adds exactly
/// that item, at the place that it names or else at the first; no other event adds
/// any.
pub proof fn law_done_items_are_taken(event: JsonV, item: JsonV)
    ensures
        event.get("type"@) == Some(JsonV::Str("response.output_item.done"@)) && event.get("item"@)
            == Some(item) ==> {
            &&& done_entry(event) matches Some(entry) && entry.1 == item
            &&& forall|n: u64|
                event.get("output_index"@) == Some(#[trigger] JsonV::integer(n as int))
                    ==> (done_entry(event)->0).0 == n
            &&& (forall|n: u64|
                event.get("output_index"@) != Some(#[trigger] JsonV::integer(n as int)))
                ==> (done_entry(event)->0).0 == 0
        },
        event.get("type"@) != Some(JsonV::Str("response.output_item.done"@)) || event.get(
            "item"@,
        ) is None ==> done_entry(event) is None,
{
    if let Some(JsonV::Number(json::NumberV::Int(i))) = event.get("output_index"@) {
        if 0 <= i <= u64::MAX {
            assert(JsonV::integer((i as u64) as int) == JsonV::integer(i));
        }
    }
}

/// An event that reports an item as done adds it behind those before it, one that
/// reports a response complete puts that in the place of any before it, and any
/// other changes nothing.
pub proof fn law_events_are_gathered(g: GatheredV, event: JsonV, item: JsonV, response: JsonV)
    ensures
        event.get("type"@) == Some(JsonV::Str("response.output_item.done"@)) && event.get("item"@)
            == Some(item) ==> {
            let after = after_event(g, event);
            &&& after.response == g.response
            &&& after.items.len() == g.items.len() + 1
            &&& after.items.drop_last() == g.items
            &&& after.items.last().1 == item
        },
        event.get("type"@) == Some(JsonV::Str("response.completed"@)) && event.get("response"@)
            == Some(response) ==> after_event(g, event).response == Some(response) && after_event(
            g,
            event,
        ).items == g.items,
        event.get("type"@) != Some(JsonV::Str("response.output_item.done"@)) && event.get("type"@)
            != Some(JsonV::Str("response.completed"@)) ==> after_event(g, event) == g,
        event.get("type"@) == Some(JsonV::Str("response.output_item.done"@)) && event.get(
            "item"@,
        ) is None ==> after_event(g, event) == g,
        event.get("type"@) == Some(JsonV::Str("response.completed"@)) && event.get(
            "response"@,
        ) is None ==> after_event(g, event) == g,
{
    lemma_event_types();
    law_done_items_are_taken(event, item);
    if event.get("type"@) == Some(JsonV::Str("response.output_item.done"@)) && event.get("item"@)
        == Some(item) {
        assert(after_event(g, event).items.drop_last() =~= g.items);
    }
}

proof fn lemma_event_types()
    ensures
        "response.completed"@ != "response.output_item.done"@,
{
    reveal_strlit("response.completed");
    reveal_strlit("response.output_item.done");
    assert("response.completed"@.len() == 18);
    assert("response.output_item.done"@.len() == 25);
}

/// In the output that is filled in stand exactly the items that were reported: by
/// their places, and those of one place as they came.
pub proof fn law_filled_output_holds_the_items(response: JsonV, items: Seq<(u64, JsonV)>) -> (from:
    Seq<int>)
    requires
        response is Object,
        !(response.get("output"@) matches Some(JsonV::Array(out)) && out.len() > 0),
        0 < items.len() <= usize::MAX,
    ensures
        from.len() == items.len(),
        forall|a: int| 0 <= a < from.len() ==> 0 <= #[trigger] from[a] < items.len(),
        forall|a: int, b: int|
            0 <= a < b < from.len() ==> items[#[trigger] from[a]].0 < items[#[trigger] from[b]].0 || (
            items[from[a]].0 == items[from[b]].0 && from[a] < from[b]),
        forall|k: int| 0 <= k < items.len() ==> #[trigger] from.contains(k),
        filled_output(response, items).get("output"@) == Some(
            JsonV::Array(Seq::new(items.len(), |a: int| items[from[a]].1)),
        ),
{
    let order = law_filled_output_is_ordered(response, items);
    let from = Seq::new(items.len(), |a: int| order[a] as int);
    let keys = places(items);
    assert forall|a: int, b: int| 0 <= a < b < from.len() implies items[#[trigger] from[a]].0
        < items[#[trigger] from[b]].0 || (items[from[a]].0 == items[from[b]].0 && from[a]
        < from[b]) by {
        assert(order::goes_before(keys, order[a] as int, order[b] as int));
        assert(keys[order[a] as int] == items[order[a] as int].0);
        assert(keys[order[b] as int] == items[order[b] as int].0);
    }
    assert forall|k: int| 0 <= k < items.len() implies #[trigger] from.contains(k) by {
        assert(order.contains(k as usize));
        let a = choose|a: int| 0 <= a < order.len() && order[a] == k as usize;
        assert(from[a] == k);
    }
    assert(Seq::new(items.len(), |a: int| items[from[a]].1) =~= order.map_values(
        |k: usize| items[k as int].1,
    ));
    from
}

/// Where a response has output of its own, or nothing was reported, it stays as it
/// is; and but for its output it always does.
pub proof fn law_filling_leaves_the_rest(
    response: JsonV,
    items: Seq<(u64, JsonV)>,
    key: Seq<char>,
)
    ensures
        (response.get("output"@) matches Some(JsonV::Array(out)) && out.len() > 0) ==> filled_output(
            response,
            items,
        ) == response,
        items.len() == 0 ==> filled_output(response, items) == response,
        key != "output"@ ==> filled_output(response, items).get(key) == response.get(key),
{
}

/// Whether a line of an event stream brings an event.
pub open spec fn brings(line: Seq<char>, event: JsonV) -> bool {
    sse::sse_line(line) matches sse::SseLine::Data(data) && json::parsed_json(data)
        == json::Parsed::Value(event)
}

/// Whether an event reports this response as complete.
pub open spec fn completes_with(event: JsonV, response: JsonV) -> bool {
    event.get("type"@) == Some(JsonV::Str("response.completed"@)) && event.get("response"@) == Some(
        response,
    )
}

/// Whether an event reports this output item as done.
pub open spec fn reports_done(event: JsonV, item: JsonV) -> bool {
    event.get("type"@) == Some(JsonV::Str("response.output_item.done"@)) && event.get("item"@)
        == Some(item)
}

proof fn lemma_gathered_step(lines: Seq<Seq<char>>, n: int)
    requires
        0 < n <= lines.len(),
    ensures
        gathered(lines.take(n)) == after_line(gathered(lines.take(n - 1)), lines[n - 1]),
{
    assert(lines.take(n).drop_last() =~= lines.take(n - 1));
    assert(lines.take(n).last() == lines[n - 1]);
}

proof fn lemma_reported_item(lines: Seq<Seq<char>>, n: int, i: int, event: JsonV, item: JsonV)
    requires
        0 <= i < n <= lines.len(),
        brings(lines[i], event),
        reports_done(event, item),
    ensures
        exists|k: int|
            0 <= k < gathered(lines.take(n)).items.len() && (#[trigger] gathered(
                lines.take(n),
            ).items[k]).1 == item,
    decreases n,
{
    lemma_gathered_step(lines, n);
    let before = gathered(lines.take(n - 1));
    let now = gathered(lines.take(n));
    if i == n - 1 {
        law_events_are_gathered(before, event, item, JsonV::Null);
        assert(now.items[now.items.len() - 1].1 == item);
    } else {
        lemma_reported_item(lines, n - 1, i, event, item);
        let k = choose|k: int| 0 <= k < before.items.len() && (#[trigger] before.items[k]).1 == item;
        assert(now.items[k] == before.items[k]);
    }
}

proof fn lemma_item_was_reported(lines: Seq<Seq<char>>, n: int, k: int) -> (found: (int, JsonV))
    requires
        0 <= n <= lines.len(),
        0 <= k < gathered(lines.take(n)).items.len(),
    ensures
        0 <= found.0 < n,
        brings(lines[found.0], found.1),
        reports_done(found.1, gathered(lines.take(n)).items[k].1),
        gathered(lines.take(n)).items.len() <= n,
    decreases n,
{
    assert(n > 0) by {
        if n == 0 {
            assert(lines.take(0) =~= seq![]);
        }
    }
    lemma_gathered_step(lines, n);
    lemma_items_bounded(lines, n);
    let before = gathered(lines.take(n - 1));
    if k < before.items.len() {
        lemma_item_was_reported(lines, n - 1, k)
    } else {
        let data = sse::sse_line(lines[n - 1])->Data_0;
        let event = json::parsed_json(data)->Value_0;
        (n - 1, event)
    }
}

proof fn lemma_items_bounded(lines: Seq<Seq<char>>, n: int)
    requires
        0 <= n <= lines.len(),
    ensures
        gathered(lines.take(n)).items.len() <= n,
    decreases n,
{
    if n == 0 {
        assert(lines.take(0) =~= seq![]);
    } else {
        lemma_gathered_step(lines, n);
        lemma_items_bounded(lines, n - 1);
    }
}

proof fn lemma_last_completion(
    lines: Seq<Seq<char>>,
    n: int,
    c: int,
    event: JsonV,
    response: JsonV,
)
    requires
        0 <= c < n <= lines.len(),
        brings(lines[c], event),
        completes_with(event, response),
        forall|j: int, e: JsonV, r: JsonV|
            c < j < lines.len() && #[trigger] brings(lines[j], e) ==> !#[trigger] completes_with(
                e,
                r,
            ),
    ensures
        gathered(lines.take(n)).response == Some(response),
    decreases n,
{
    lemma_event_types();
    lemma_gathered_step(lines, n);
    let before = gathered(lines.take(n - 1));
    if n - 1 == c {
        law_events_are_gathered(before, event, JsonV::Null, response);
    } else {
        lemma_last_completion(lines, n - 1, c, event, response);
        if let sse::SseLine::Data(data) = sse::sse_line(lines[n - 1]) {
            if let json::Parsed::Value(e) = json::parsed_json(data) {
                assert(brings(lines[n - 1], e));
                if let Some(r) = e.get("response"@) {
                    assert(!completes_with(e, r));
                }
            }
        }
    }
}

/// The response of an event stream is the one that was reported complete last, and
/// where that came without output, every item that the stream reported as done
/// stands in its output, and nothing else does.
pub proof fn law_reported_items_are_the_output(
    bytes: Seq<u8>,
    c: int,
    event: JsonV,
    response: JsonV,
    key: Seq<char>,
)
    requires
        vstd::utf8::valid_utf8(bytes),
        text::lines_of(vstd::utf8::decode_utf8(bytes)).len() <= usize::MAX,
        0 <= c < text::lines_of(vstd::utf8::decode_utf8(bytes)).len(),
        brings(text::lines_of(vstd::utf8::decode_utf8(bytes))[c], event),
        completes_with(event, response),
        forall|j: int, e: JsonV, r: JsonV|
            c < j < text::lines_of(vstd::utf8::decode_utf8(bytes)).len() && #[trigger] brings(
                text::lines_of(vstd::utf8::decode_utf8(bytes))[j],
                e,
            ) ==> !#[trigger] completes_with(e, r),
    ensures
        sse_response(bytes) matches Some(given) && (key != "output"@ ==> given.get(key)
            == response.get(key)),
        (response.get("output"@) matches Some(JsonV::Array(out)) && out.len() > 0) ==> sse_response(
            bytes,
        ) == Some(response),
        response is Object && !(response.get("output"@) matches Some(JsonV::Array(out)) && out.len()
            > 0) ==> forall|i: int, e: JsonV, item: JsonV|
            0 <= i < text::lines_of(vstd::utf8::decode_utf8(bytes)).len() && #[trigger] brings(
                text::lines_of(vstd::utf8::decode_utf8(bytes))[i],
                e,
            ) && #[trigger] reports_done(e, item) ==> (sse_response(bytes)->0.get("output"@)
                matches Some(JsonV::Array(out)) && out.contains(item)),
        response is Object && !(response.get("output"@) matches Some(JsonV::Array(out)) && out.len()
            > 0) ==> forall|item: JsonV| #[trigger]
            output_holds(sse_response(bytes)->0, item) ==> exists|i: int, e: JsonV|
                0 <= i < text::lines_of(vstd::utf8::decode_utf8(bytes)).len() && #[trigger] brings(
                    text::lines_of(vstd::utf8::decode_utf8(bytes))[i],
                    e,
                ) && reports_done(e, item),
{
    let lines = text::lines_of(vstd::utf8::decode_utf8(bytes));
    let n = lines.len() as int;
    assert(lines.take(n) =~= lines);
    lemma_last_completion(lines, n, c, event, response);
    let items = gathered(lines).items;
    lemma_items_bounded(lines, n);
    law_filling_leaves_the_rest(response, items, key);
    let given = sse_response(bytes)->0;
    assert(given == filled_output(response, items));
    if response is Object && !(response.get("output"@) matches Some(JsonV::Array(out)) && out.len()
        > 0) {
        assert forall|i: int, e: JsonV, item: JsonV|
            0 <= i < lines.len() && #[trigger] brings(lines[i], e) && #[trigger] reports_done(
                e,
                item,
            ) implies (given.get("output"@) matches Some(JsonV::Array(out)) && out.contains(
            item,
        )) by {
            lemma_reported_item(lines, n, i, e, item);
            let k = choose|k: int| 0 <= k < items.len() && (#[trigger] items[k]).1 == item;
            let from = law_filled_output_holds_the_items(response, items);
            assert(from.contains(k));
            let a = choose|a: int| 0 <= a < from.len() && from[a] == k;
            let out = Seq::new(items.len(), |a: int| items[from[a]].1);
            assert(out[a] == item);
        }
        assert forall|item: JsonV| #[trigger] output_holds(given, item) implies exists|
            i: int,
            e: JsonV,
        |
            0 <= i < lines.len() && #[trigger] brings(lines[i], e) && reports_done(e, item) by {
            if items.len() > 0 {
                let from = law_filled_output_holds_the_items(response, items);
                let out = Seq::new(items.len(), |a: int| items[from[a]].1);
                let a = choose|a: int| 0 <= a < out.len() && out[a] == item;
                let found = lemma_item_was_reported(lines, n, from[a]);
                assert(brings(lines[found.0], found.1) && reports_done(found.1, item));
            }
        }
    }
}

/// Whether an item stands in a response's output.
pub open spec fn output_holds(response: JsonV, item: JsonV) -> bool {
    response.get("output"@) matches Some(JsonV::Array(out)) && out.contains(item)
}

/// A stream that is not UTF-8, or that reports no response as complete, brings
/// none.
pub proof fn law_no_completion_no_response(bytes: Seq<u8>)
    ensures
        !vstd::utf8::valid_utf8(bytes) ==> sse_response(bytes) is None,
        vstd::utf8::valid_utf8(bytes) && (forall|j: int, e: JsonV, r: JsonV|
            0 <= j < text::lines_of(vstd::utf8::decode_utf8(bytes)).len() && #[trigger] brings(
                text::lines_of(vstd::utf8::decode_utf8(bytes))[j],
                e,
            ) ==> !#[trigger] completes_with(e, r)) ==> sse_response(bytes) is None,
{
    let lines = text::lines_of(vstd::utf8::decode_utf8(bytes));
    if forall|j: int, e: JsonV, r: JsonV|
        0 <= j < lines.len() && #[trigger] brings(lines[j], e) ==> !#[trigger] completes_with(
            e,
            r,
        ) {
        lemma_no_completion(lines, lines.len() as int);
        assert(lines.take(lines.len() as int) =~= lines);
    }
}

proof fn lemma_no_completion(lines: Seq<Seq<char>>, n: int)
    requires
        0 <= n <= lines.len(),
        forall|j: int, e: JsonV, r: JsonV|
            0 <= j < lines.len() && #[trigger] brings(lines[j], e) ==> !#[trigger] completes_with(
                e,
                r,
            ),
    ensures
        gathered(lines.take(n)).response is None,
    decreases n,
{
    if n == 0 {
        assert(lines.take(0) =~= seq![]);
    } else {
        lemma_gathered_step(lines, n);
        lemma_no_completion(lines, n - 1);
        if let sse::SseLine::Data(data) = sse::sse_line(lines[n - 1]) {
            if let json::Parsed::Value(e) = json::parsed_json(data) {
                assert(brings(lines[n - 1], e));
                if let Some(r) = e.get("response"@) {
                    assert(!completes_with(e, r));
                }
            }
        }
    }
}

/// A response with an id is kept in the file that is named after it, together with
/// its request as it came; one without an id, or with a text for one that is none,
/// is not kept.
pub proof fn law_responses_are_kept_under_their_ids(
    dir: PathBuf,
    request: JsonV,
    response: JsonV,
    r: Result<StoreWrite, StoreError>,
    id: Seq<char>,
)
    requires
        stored_as(dir, request, response, r),
    ensures
        response.get("id"@) == Some(JsonV::Str(id)) && valid_id(id) ==> (r matches Ok(w)
            && paths::path_components(w.path) == stored_path(dir, id) && w.bytes@
            == json::json_pretty(stored_object((StoredV { request, response })))),
        response.get("id"@) == Some(JsonV::Str(id)) && !valid_id(id) ==> r == Err::<StoreWrite, _>(
            StoreError::InvalidId,
        ),
        !(response.get("id"@) matches Some(JsonV::Str(_))) ==> r == Err::<StoreWrite, _>(
            StoreError::NoId,
        ),
{
}

/// What an error says names what it is about in full.
pub proof fn law_store_errors_name_their_subject(id: String, path: PathBuf)
    ensures
        error_text(StoreError::NoId) == "response has no string id"@,
        error_text(StoreError::InvalidId) == "invalid response id"@,
        error_text(StoreError::Cycle(id)) == "cycle in previous_response_id chain at "@ + id@,
        error_text(StoreError::NotFound(id)) == "stored response not found: "@ + id@,
        error_text(StoreError::Unreadable(path)) == "failed to read "@ + paths::shown_path(path),
        error_text(StoreError::Unparsable(path)) == "failed to parse stored response "@
            + paths::shown_path(path),
        error_text(StoreError::Undeletable(path)) == "failed to delete "@ + paths::shown_path(path),
{
}

/// A file that is as it was written for a request and its response holds them, if
/// they can be read back; what it holds is in any case what it was written for; and
/// any other file holds what serde's reader makes of it.
pub proof fn law_files_are_read(
    bytes: Seq<u8>,
    stored: StoredV,
    read: Option<StoredV>,
    file: FileRead,
)
    ensures
        bytes == json::json_pretty(stored_object(stored)) && json::parsed_members(bytes) == Some(
            Map::<Seq<char>, JsonV>::empty().insert("request"@, stored.request).insert(
                "response"@,
                stored.response,
            ),
        ) ==> found_in(bytes, read) == FoundV::Stored(stored),
        own_file(bytes) == Some(stored) ==> bytes == json::json_pretty(stored_object(stored)),
        own_file(bytes) is None ==> (read matches Some(s) ==> found_in(bytes, read)
            == FoundV::Stored(s)),
        own_file(bytes) is None && read is None ==> found_in(bytes, read) is Garbled,
        found(FileRead::Missing) is Missing,
        found(FileRead::Unreadable) is Unreadable,
        file matches FileRead::Bytes { bytes: b, read: r } ==> (r is None ==> found(file)
            == found_in(b@, None)) && (r matches Some(kept) ==> found(file) == found_in(
            b@,
            Some(kept@),
        )),
{
    law_stored_object_is_read_back(stored);
}

/// What a list of kept responses stands for, and one of output items, is what its
/// members stand for, each at its place.
pub proof fn law_lists_of_kept_responses(
    stored: Seq<StoredResponse>,
    entries: Seq<(u64, Json)>,
    i: int,
)
    ensures
        stored_views(stored).len() == stored.len(),
        0 <= i < stored.len() ==> stored_views(stored)[i].request == stored[i].request@
            && stored_views(stored)[i].response == stored[i].response@,
        entry_views(entries).len() == entries.len(),
        0 <= i < entries.len() ==> entry_views(entries)[i] == (entries[i].0, entries[i].1@),
{
}

} // verus!
