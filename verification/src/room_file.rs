//! The room file: a JSON document with a list of rooms, each with a name,
//! tiles, a description and exits.
use vstd::prelude::*;
use crate::common_components::GameError;
use crate::rooms::{ExitSpec, RoomSpec};

verus! {

/// serde_json's JSON value, which the parser hands back.
#[verifier::external_type_specification]
#[verifier::external_body]
pub struct ExValue(serde_json::Value);

/// A JSON value as far as the room file is read: numbers hold no value, as
/// nothing reads one.
#[derive(Debug, PartialEq, Eq)]
pub enum Json {
    Null,
    Bool(bool),
    Number,
    String(String),
    Array(Vec<Json>),
    Object(Vec<(String, Json)>),
}

/// The JSON value that `serde_json::from_str` reads from `text`, or `None`
/// when `text` is not JSON.
pub uninterp spec fn parsed_json(text: Seq<char>) -> Option<Json>;

/// `serde_json::from_str` into a `serde_json::Value`, converted to `Json`:
/// the value that `text` holds, or `None` when it is not JSON. That result
/// is named, not described: JSON syntax is serde_json's.
#[verifier::external_body]
pub(crate) fn parse_json(text: &str) -> (r: Option<Json>)
    ensures
        r == parsed_json(text@),
{
    match serde_json::from_str::<serde_json::Value>(text) {
        Ok(v) => Some(json_of(v)),
        Err(_) => None,
    }
}

/// Converts a `serde_json::Value` to `Json`, one arm per variant, the number
/// dropped. It is the conversion part of `parse_json`, whose contract covers
/// it; it states nothing of its own.
#[verifier::external_body]
fn json_of(v: serde_json::Value) -> Json {
    match v {
        serde_json::Value::Null => Json::Null,
        serde_json::Value::Bool(b) => Json::Bool(b),
        serde_json::Value::Number(_) => Json::Number,
        serde_json::Value::String(s) => Json::String(s),
        serde_json::Value::Array(a) => Json::Array(a.into_iter().map(json_of).collect()),
        serde_json::Value::Object(o) => Json::Object(o.into_iter().map(|(k, x)| (k, json_of(x))).collect()),
    }
}

/// The value of the first entry of `entries` whose key is `key`, or null.
pub open spec fn entry_value(entries: Seq<(String, Json)>, key: Seq<char>) -> Json
    decreases entries.len(),
{
    if entries.len() == 0 {
        Json::Null
    } else if entries[0].0@ == key {
        entries[0].1
    } else {
        entry_value(entries.drop_first(), key)
    }
}

/// The field `key` of `j`: null when `j` is no object or has no such field.
pub open spec fn get(j: Json, key: Seq<char>) -> Json {
    match j {
        Json::Object(entries) => entry_value(entries@, key),
        _ => Json::Null,
    }
}

/// `j` is a string.
pub open spec fn is_text(j: Json) -> bool {
    j matches Json::String(_)
}

/// The characters of the string `j` (empty when it is no string).
pub open spec fn text_of(j: Json) -> Seq<char> {
    match j {
        Json::String(s) => s@,
        _ => Seq::empty(),
    }
}

/// The elements of the array `j` (empty when it is no array).
pub open spec fn elements(j: Json) -> Seq<Json> {
    match j {
        Json::Array(a) => a@,
        _ => Seq::empty(),
    }
}

/// An exit of the room file is well formed: its edge is null, missing or a
/// string, and it names the next room by a string.
pub open spec fn exit_ok(e: Json) -> bool {
    (get(e, "edge"@) == Json::Null || is_text(get(e, "edge"@))) && is_text(get(e, "next_room"@))
}

/// A room of the room file is well formed: its name, tiles and description
/// are strings, and its exits an array of well-formed exits.
pub open spec fn room_ok(r: Json) -> bool {
    &&& is_text(get(r, "room_name"@))
    &&& is_text(get(r, "room_data"@))
    &&& is_text(get(r, "room_desc"@))
    &&& get(r, "exits"@) matches Json::Array(_)
    &&& forall|j: int| 0 <= j < elements(get(r, "exits"@)).len() ==> exit_ok(
        #[trigger] elements(get(r, "exits"@))[j],
    )
}

/// The room file is well formed: its rooms are an array of well-formed rooms.
pub open spec fn room_file_ok(doc: Json) -> bool {
    &&& get(doc, "rooms"@) matches Json::Array(_)
    &&& forall|i: int| 0 <= i < elements(get(doc, "rooms"@)).len() ==> room_ok(
        #[trigger] elements(get(doc, "rooms"@))[i],
    )
}

/// `s` describes the exit `e` of the room file: a null or missing edge is
/// none, a string edge is that string.
pub open spec fn exit_matches(s: ExitSpec, e: Json) -> bool {
    &&& s.next_room@ == text_of(get(e, "next_room"@))
    &&& if get(e, "edge"@) == Json::Null {
        s.edge is None
    } else {
        s.edge matches Some(t) && t@ == text_of(get(e, "edge"@))
    }
}

/// `s` describes the room `r` of the room file.
pub open spec fn room_matches(s: RoomSpec, r: Json) -> bool {
    let exits = elements(get(r, "exits"@));
    &&& s.room_name@ == text_of(get(r, "room_name"@))
    &&& s.room_data@ == text_of(get(r, "room_data"@))
    &&& s.room_desc@ == text_of(get(r, "room_desc"@))
    &&& s.exits@.len() == exits.len()
    &&& forall|j: int| 0 <= j < exits.len() ==> exit_matches(#[trigger] s.exits@[j], exits[j])
}

/// The field `key` of `j`, or `None` when it is null or missing.
pub fn field<'a>(j: &'a Json, key: &String) -> (r: Option<&'a Json>)
    ensures
        r matches Some(v) ==> *v == get(*j, key@),
        r is None ==> get(*j, key@) == Json::Null,
{
    match j {
        Json::Object(entries) => {
            let n = entries.len();
            let mut i: usize = 0;
            assert(entries@.skip(0) =~= entries@);
            while i < n
                invariant
                    n == entries@.len(),
                    i <= n,
                    *j == Json::Object(*entries),
                    entry_value(entries@, key@) == entry_value(entries@.skip(i as int), key@),
                decreases n - i,
            {
                assert(entries@.skip(i as int)[0] == entries@[i as int]);
                if entries[i].0 == *key {
                    return Some(&entries[i].1);
                }
                assert(entries@.skip(i as int).drop_first() =~= entries@.skip(i + 1));
                i = i + 1;
            }
            None
        },
        _ => None,
    }
}

/// The string field `key` of `j`, when it is a string.
pub fn text_field(j: &Json, key: &String) -> (r: Option<String>)
    ensures
        r is Some <==> is_text(get(*j, key@)),
        r matches Some(s) ==> s@ == text_of(get(*j, key@)),
{
    match field(j, key) {
        Some(Json::String(s)) => Some(s.clone()),
        _ => None,
    }
}

/// The exit that the room file's exit `e` describes.
pub fn exit_from_json(e: &Json) -> (r: Result<ExitSpec, GameError>)
    ensures
        r is Ok <==> exit_ok(*e),
        r is Err ==> r == Err::<ExitSpec, GameError>(GameError::MalformedRoomFile),
        r matches Ok(s) ==> exit_matches(s, *e),
{
    let edge = match field(e, &"edge".to_owned()) {
        None => None,
        Some(Json::Null) => None,
        Some(Json::String(s)) => Some(s.clone()),
        Some(_) => {
            return Err(GameError::MalformedRoomFile);
        },
    };
    match text_field(e, &"next_room".to_owned()) {
        Some(next_room) => Ok(ExitSpec { edge, next_room }),
        None => Err(GameError::MalformedRoomFile),
    }
}

/// The room that the room file's room `r` describes.
pub fn room_from_json(r: &Json) -> (res: Result<RoomSpec, GameError>)
    ensures
        res is Ok <==> room_ok(*r),
        res is Err ==> res == Err::<RoomSpec, GameError>(GameError::MalformedRoomFile),
        res matches Ok(s) ==> room_matches(s, *r),
{
    let room_name = match text_field(r, &"room_name".to_owned()) {
        Some(s) => s,
        None => {
            return Err(GameError::MalformedRoomFile);
        },
    };
    let room_data = match text_field(r, &"room_data".to_owned()) {
        Some(s) => s,
        None => {
            return Err(GameError::MalformedRoomFile);
        },
    };
    let room_desc = match text_field(r, &"room_desc".to_owned()) {
        Some(s) => s,
        None => {
            return Err(GameError::MalformedRoomFile);
        },
    };
    let list = match field(r, &"exits".to_owned()) {
        Some(Json::Array(a)) => a,
        _ => {
            return Err(GameError::MalformedRoomFile);
        },
    };
    let ghost ej = elements(get(*r, "exits"@));
    assert(ej == list@);
    let mut exits: Vec<ExitSpec> = Vec::new();
    let m = list.len();
    for j in 0..m
        invariant
            m == list@.len(),
            ej == list@,
            ej == elements(get(*r, "exits"@)),
            exits@.len() == j,
            forall|k: int| 0 <= k < j ==> exit_ok(#[trigger] ej[k]),
            forall|k: int| 0 <= k < j ==> exit_matches(#[trigger] exits@[k], ej[k]),
    {
        match exit_from_json(&list[j]) {
            Ok(s) => {
                exits.push(s);
            },
            Err(e) => {
                assert(!exit_ok(ej[j as int]));
                return Err(e);
            },
        }
    }
    Ok(RoomSpec { room_name, room_data, room_desc, exits })
}

/// The rooms that the room file `doc` describes, in order.
pub fn room_specs_from_json(doc: &Json) -> (r: Result<Vec<RoomSpec>, GameError>)
    ensures
        r is Ok <==> room_file_ok(*doc),
        r is Err ==> r == Err::<Vec<RoomSpec>, GameError>(GameError::MalformedRoomFile),
        r matches Ok(specs) ==> {
            let rooms = elements(get(*doc, "rooms"@));
            &&& specs@.len() == rooms.len()
            &&& forall|i: int| 0 <= i < rooms.len() ==> room_matches(#[trigger] specs@[i], rooms[i])
        },
{
    let list = match field(doc, &"rooms".to_owned()) {
        Some(Json::Array(a)) => a,
        _ => {
            return Err(GameError::MalformedRoomFile);
        },
    };
    let ghost rj = elements(get(*doc, "rooms"@));
    assert(rj == list@);
    let mut specs: Vec<RoomSpec> = Vec::new();
    let n = list.len();
    for i in 0..n
        invariant
            n == list@.len(),
            rj == list@,
            rj == elements(get(*doc, "rooms"@)),
            specs@.len() == i,
            forall|k: int| 0 <= k < i ==> room_ok(#[trigger] rj[k]),
            forall|k: int| 0 <= k < i ==> room_matches(#[trigger] specs@[k], rj[k]),
    {
        match room_from_json(&list[i]) {
            Ok(s) => {
                specs.push(s);
            },
            Err(e) => {
                assert(!room_ok(rj[i as int]));
                return Err(e);
            },
        }
    }
    Ok(specs)
}

/// The rooms that the text of a room file describes, in order: an error when
/// the text is not JSON or the document is not a well-formed room file.
pub fn room_specs_from_text(text: &str) -> (r: Result<Vec<RoomSpec>, GameError>)
    ensures
        parsed_json(text@) is None ==> r == Err::<Vec<RoomSpec>, GameError>(GameError::MalformedRoomFile),
        parsed_json(text@) matches Some(doc) ==> {
            &&& (r is Ok <==> room_file_ok(doc))
            &&& (r is Err ==> r == Err::<Vec<RoomSpec>, GameError>(GameError::MalformedRoomFile))
            &&& (r matches Ok(specs) ==> {
                let rooms = elements(get(doc, "rooms"@));
                &&& specs@.len() == rooms.len()
                &&& forall|i: int| 0 <= i < rooms.len() ==> room_matches(#[trigger] specs@[i], rooms[i])
            })
        },
{
    match parse_json(text) {
        None => Err(GameError::MalformedRoomFile),
        Some(doc) => room_specs_from_json(&doc),
    }
}

/// Entry `i` is the first entry of `entries` with key `key`.
pub open spec fn is_first_entry(entries: Seq<(String, Json)>, key: Seq<char>, i: int) -> bool {
    &&& 0 <= i < entries.len()
    &&& entries[i].0@ == key
    &&& forall|k: int| 0 <= k < i ==> #[trigger] entries[k].0@ != key
}

/// A field of an object is the value of the first entry with its key; a key
/// that no entry has, or a value that is no object, gives null.
pub proof fn lemma_field_is_first_entry(entries: Seq<(String, Json)>, key: Seq<char>)
    ensures
        forall|i: int| is_first_entry(entries, key, i) ==> entry_value(entries, key) == entries[i].1,
        (forall|k: int| 0 <= k < entries.len() ==> #[trigger] entries[k].0@ != key) ==> entry_value(
            entries,
            key,
        ) == Json::Null,
    decreases entries.len(),
{
    if entries.len() > 0 {
        let q = entries.drop_first();
        lemma_field_is_first_entry(q, key);
        assert forall|i: int| is_first_entry(entries, key, i) implies entry_value(entries, key) == entries[i].1 by {
            if i > 0 {
                assert(is_first_entry(q, key, i - 1)) by {
                    assert forall|k: int| 0 <= k < i - 1 implies #[trigger] q[k].0@ != key by {
                        assert(q[k] == entries[k + 1]);
                    }
                }
            }
        }
        if forall|k: int| 0 <= k < entries.len() ==> #[trigger] entries[k].0@ != key {
            assert(forall|k: int| 0 <= k < q.len() ==> #[trigger] q[k].0@ != key) by {
                assert forall|k: int| 0 <= k < q.len() implies #[trigger] q[k].0@ != key by {
                    assert(q[k] == entries[k + 1]);
                }
            }
        }
    }
}

/// A room is read field by field, by name: a room object whose first
/// "room_name", "room_data" and "room_desc" entries are the strings `n`, `d`
/// and `c`, and whose first "exits" entry is an array, gives a room called
/// `n` with data `d`, description `c`, and one exit per element.
pub proof fn lemma_room_read_by_field_names(
    entries: Vec<(String, Json)>,
    n: String,
    d: String,
    c: String,
    exits: Vec<Json>,
    i_n: int,
    i_d: int,
    i_c: int,
    i_e: int,
    s: RoomSpec,
)
    requires
        is_first_entry(entries@, "room_name"@, i_n) && entries@[i_n].1 == Json::String(n),
        is_first_entry(entries@, "room_data"@, i_d) && entries@[i_d].1 == Json::String(d),
        is_first_entry(entries@, "room_desc"@, i_c) && entries@[i_c].1 == Json::String(c),
        is_first_entry(entries@, "exits"@, i_e) && entries@[i_e].1 == Json::Array(exits),
        room_matches(s, Json::Object(entries)),
    ensures
        s.room_name@ == n@,
        s.room_data@ == d@,
        s.room_desc@ == c@,
        s.exits@.len() == exits@.len(),
{
    lemma_field_is_first_entry(entries@, "room_name"@);
    lemma_field_is_first_entry(entries@, "room_data"@);
    lemma_field_is_first_entry(entries@, "room_desc"@);
    lemma_field_is_first_entry(entries@, "exits"@);
}

/// An exit is read by name too: its first "next_room" entry names the next
/// room, and its first "edge" entry, when it is a string, is its edge; an
/// exit without an "edge" entry has none.
pub proof fn lemma_exit_read_by_field_names(
    entries: Vec<(String, Json)>,
    next: String,
    i_n: int,
    s: ExitSpec,
)
    requires
        is_first_entry(entries@, "next_room"@, i_n) && entries@[i_n].1 == Json::String(next),
        exit_matches(s, Json::Object(entries)),
    ensures
        s.next_room@ == next@,
        forall|i: int| #[trigger] is_first_entry(entries@, "edge"@, i) ==> (entries@[i].1 matches Json::String(e) ==> (
            s.edge matches Some(t) && t@ == e@)),
        (forall|k: int| 0 <= k < entries@.len() ==> #[trigger] entries@[k].0@ != "edge"@) ==> s.edge is None,
{
    lemma_field_is_first_entry(entries@, "next_room"@);
    lemma_field_is_first_entry(entries@, "edge"@);
}

} // verus!
