//! What a sync makes of the events that the server sends, and what the client asks for.
use crate::harmostes::{
    cadence, hex_text, law_hex_round_trip, number_field, one_more, room_index, timeline_message,
    token_is_safe, ClientModel, ErrorModel, IncomingModel, MessageModel, PendingModel, RoomModel,
    SyncModel, SyncState,
};
use crate::http_client::{HttpMethod, ResponseModel};
use crate::json_laws::{law_parse_reads_what_was_rendered, readable, render};
use crate::json_mini::{document, entry_index, JsonModel};
use crate::matrix_crypto::CryptoModel;
use crate::matrix_ids::id_fault;
use crate::security_mode::SecurityMode;
use crate::text::{ascii, decimal};
use vstd::prelude::*;
use vstd::utf8::*;

verus! {

broadcast use vstd::string::group_string_axioms;

// ---------------------------------------------------------------------------
// Events
// ---------------------------------------------------------------------------

/// Whether a value is an object whose first entry with a key has a value.
pub open spec fn has(v: JsonModel, key: Seq<char>, value: JsonModel) -> bool {
    v matches JsonModel::Object(o) && exists|i: int|
        0 <= i < o.len() && #[trigger] o[i] == (key, value) && forall|j: int|
            0 <= j < i ==> (#[trigger] o[j]).0 != key
}

/// Whether a value has no entry with a key.
pub open spec fn lacks(v: JsonModel, key: Seq<char>) -> bool {
    v matches JsonModel::Object(o) ==> forall|j: int|
        0 <= j < o.len() ==> (#[trigger] o[j]).0 != key
}

proof fn lemma_entry_found(o: Seq<(Seq<char>, JsonModel)>, key: Seq<char>, from: int, i: int)
    requires
        0 <= from <= i < o.len(),
        o[i].0 == key,
        forall|j: int| from <= j < i ==> (#[trigger] o[j]).0 != key,
    ensures
        entry_index(o, key, from) == Some(i),
    decreases i - from,
{
    if from < i {
        lemma_entry_found(o, key, from + 1, i);
    }
}

proof fn lemma_entry_index(o: Seq<(Seq<char>, JsonModel)>, key: Seq<char>, from: int)
    requires
        0 <= from,
    ensures
        match entry_index(o, key, from) {
            Some(i) => from <= i < o.len() && o[i].0 == key && forall|j: int|
                from <= j < i ==> (#[trigger] o[j]).0 != key,
            None => forall|j: int| from <= j < o.len() ==> (#[trigger] o[j]).0 != key,
        },
    decreases o.len() - from,
{
    if from < o.len() && o[from].0 != key {
        lemma_entry_index(o, key, from + 1);
    }
}

/// Law: a field of an object is the value of its first entry with the key.
pub proof fn law_fields_are_first_entries(v: JsonModel, key: Seq<char>, value: JsonModel)
    ensures
        v.field(key) == Some(value) <==> has(v, key, value),
        v.field(key) is None <==> lacks(v, key),
{
    if let JsonModel::Object(o) = v {
        lemma_entry_index(o, key, 0);
        if has(v, key, value) {
            let i = choose|i: int|
                0 <= i < o.len() && #[trigger] o[i] == (key, value) && forall|j: int|
                    0 <= j < i ==> (#[trigger] o[j]).0 != key;
            lemma_entry_found(o, key, 0, i);
        }
        if v.field(key) == Some(value) {
            let i = entry_index(o, key, 0)->0;
            assert(o[i] == (key, value));
        }
    }
}

/// Law: an event of type `m.room.message` with an identifier, a sender, a time and a body is
/// the message with just these: the time is the server's where it is not negative.
pub proof fn law_plain_events_are_their_messages(
    event: JsonModel,
    room: Seq<char>,
    crypto: CryptoModel,
    id: Seq<char>,
    sender: Seq<char>,
    ts: int,
    content: JsonModel,
    body: Seq<char>,
)
    requires
        has(event, "type"@, JsonModel::Text("m.room.message"@)),
        has(event, "event_id"@, JsonModel::Text(id)),
        has(event, "sender"@, JsonModel::Text(sender)),
        has(event, "origin_server_ts"@, JsonModel::Number(ts)),
        has(event, "content"@, content),
        has(content, "body"@, JsonModel::Text(body)),
        id_fault('$', id) is None,
    ensures
        timeline_message(event, room, crypto) matches Some(m) && m.event_id == id && m.sender
            == sender && m.body == body && !m.encrypted && (ts >= 0 ==> m.timestamp == ts) && (ts
            < 0 ==> m.timestamp == 0),
{
    law_fields_are_first_entries(event, "type"@, JsonModel::Text("m.room.message"@));
    law_fields_are_first_entries(event, "event_id"@, JsonModel::Text(id));
    law_fields_are_first_entries(event, "sender"@, JsonModel::Text(sender));
    law_fields_are_first_entries(event, "origin_server_ts"@, JsonModel::Number(ts));
    law_fields_are_first_entries(event, "content"@, content);
    law_fields_are_first_entries(content, "body"@, JsonModel::Text(body));
    reveal_strlit("m.room.message");
    reveal_strlit("m.room.encrypted");
    assert("m.room.message"@.len() != "m.room.encrypted"@.len());
}

/// Law: an encrypted event with a ciphertext and a session that the cipher opened is the
/// message with the opened text, marked as encrypted; one that it could not open, or had no
/// session for, is a message that says so.
pub proof fn law_encrypted_events_are_opened(
    event: JsonModel,
    room: Seq<char>,
    crypto: CryptoModel,
    id: Seq<char>,
    sender: Seq<char>,
    ts: int,
    content: JsonModel,
    ciphertext: Seq<u8>,
    session: Seq<u8>,
)
    requires
        has(event, "type"@, JsonModel::Text("m.room.encrypted"@)),
        has(event, "event_id"@, JsonModel::Text(id)),
        has(event, "sender"@, JsonModel::Text(sender)),
        has(event, "origin_server_ts"@, JsonModel::Number(ts)),
        has(event, "content"@, content),
        has(content, "ciphertext"@, JsonModel::Text(hex_text(ciphertext))),
        has(content, "session_id"@, JsonModel::Text(hex_text(session))),
        session.len() == 32,
        id_fault('$', id) is None,
    ensures
        timeline_message(event, room, crypto) matches Some(m) && m.event_id == id && m.sender
            == sender && m.encrypted && (ts >= 0 ==> m.timestamp == ts) && (ts < 0 ==> m.timestamp
            == 0) && (match crypto.opened_event(session, ciphertext, room) {
            Some(Some(plaintext)) => valid_utf8(plaintext) ==> encode_utf8(m.body) == plaintext,
            Some(None) => m.body == "[encrypted: decryption failed]"@,
            None => m.body == "[encrypted: no session]"@,
        }),
{
    law_fields_are_first_entries(event, "type"@, JsonModel::Text("m.room.encrypted"@));
    law_fields_are_first_entries(event, "event_id"@, JsonModel::Text(id));
    law_fields_are_first_entries(event, "sender"@, JsonModel::Text(sender));
    law_fields_are_first_entries(event, "origin_server_ts"@, JsonModel::Number(ts));
    law_fields_are_first_entries(event, "content"@, content);
    law_fields_are_first_entries(
        content,
        "ciphertext"@,
        JsonModel::Text(hex_text(ciphertext)),
    );
    law_fields_are_first_entries(content, "session_id"@, JsonModel::Text(hex_text(session)));
    law_hex_round_trip(ciphertext);
    law_hex_round_trip(session);
    let t = hex_text(session);
    assert forall|i: int| 0 <= i < t.len() implies ('\0' <= #[trigger] t[i] <= '\u{7f}') by {
        assert(session[i / 2] / 16 < 16 && session[i / 2] % 16 < 16);
    }
    assert(is_ascii_chars(t));
    is_ascii_chars_encode_utf8(t);
    if let Some(Some(plaintext)) = crypto.opened_event(session, ciphertext, room) {
        if valid_utf8(plaintext) {
            decode_utf8_encode_utf8(plaintext);
        }
    }
}

/// Law: nothing else is a message: the event must say that it is one, and tell identifier,
/// sender, time and content; and what a message tells, the event told.
pub proof fn law_only_messages_are_read(event: JsonModel, room: Seq<char>, crypto: CryptoModel)
    requires
        timeline_message(event, room, crypto) is Some,
    ensures
        ({
            let m = timeline_message(event, room, crypto)->0;
            &&& has(event, "event_id"@, JsonModel::Text(m.event_id))
            &&& has(event, "sender"@, JsonModel::Text(m.sender))
            &&& exists|ts: int|
                #[trigger] has(event, "origin_server_ts"@, JsonModel::Number(ts)) && (m.timestamp
                    == if ts >= 0 {
                    ts
                } else {
                    0
                })
            &&& m.encrypted ==> has(event, "type"@, JsonModel::Text("m.room.encrypted"@))
            &&& !m.encrypted ==> has(event, "type"@, JsonModel::Text("m.room.message"@))
            &&& !lacks(event, "content"@)
            &&& id_fault('$', m.event_id) is None
        }),
{
    let m = timeline_message(event, room, crypto)->0;
    law_fields_are_first_entries(event, "event_id"@, JsonModel::Text(m.event_id));
    law_fields_are_first_entries(event, "sender"@, JsonModel::Text(m.sender));
    let ts = number_field(event, "origin_server_ts"@)->0;
    law_fields_are_first_entries(event, "origin_server_ts"@, JsonModel::Number(ts));
    assert(has(event, "origin_server_ts"@, JsonModel::Number(ts)));
    law_fields_are_first_entries(event, "type"@, JsonModel::Text("m.room.encrypted"@));
    law_fields_are_first_entries(event, "type"@, JsonModel::Text("m.room.message"@));
    law_fields_are_first_entries(event, "content"@, JsonModel::Null);
}

/// Law: messages of different times are told apart by their timestamps.
pub proof fn law_times_are_told_apart(
    a: JsonModel,
    b: JsonModel,
    room: Seq<char>,
    crypto: CryptoModel,
    at: int,
    bt: int,
)
    requires
        timeline_message(a, room, crypto) is Some,
        timeline_message(b, room, crypto) is Some,
        has(a, "origin_server_ts"@, JsonModel::Number(at)),
        has(b, "origin_server_ts"@, JsonModel::Number(bt)),
        at >= 0,
        bt >= 0,
    ensures
        timeline_message(a, room, crypto)->0.timestamp - timeline_message(
            b,
            room,
            crypto,
        )->0.timestamp == at - bt,
{
    law_fields_are_first_entries(a, "origin_server_ts"@, JsonModel::Number(at));
    law_fields_are_first_entries(b, "origin_server_ts"@, JsonModel::Number(bt));
}

// ---------------------------------------------------------------------------
// Rooms
// ---------------------------------------------------------------------------

/// The messages among events, in their order.
pub open spec fn messages_of(
    events: Seq<JsonModel>,
    room: Seq<char>,
    crypto: CryptoModel,
) -> Seq<MessageModel>
    decreases events.len(),
{
    if events.len() == 0 {
        Seq::empty()
    } else {
        let before = messages_of(events.drop_last(), room, crypto);
        match timeline_message(events.last(), room, crypto) {
            Some(m) => before.push(m),
            None => before,
        }
    }
}

/// The newest hundred messages.
pub open spec fn newest(messages: Seq<MessageModel>) -> Seq<MessageModel> {
    if messages.len() > 100 {
        messages.skip(messages.len() - 100)
    } else {
        messages
    }
}

/// A number within 32 bits: what lies above counts as the largest.
pub open spec fn at_most_u32(n: int) -> int {
    if n > 0xFFFF_FFFF {
        0xFFFF_FFFF
    } else {
        n
    }
}

/// Law: a message goes behind those that a room has; beyond a hundred the oldest goes. It
/// counts as unread.
pub proof fn law_rooms_keep_the_newest_messages(r: RoomModel, m: MessageModel)
    requires
        r.messages.len() <= 100,
        0 <= r.unread_count <= 0xFFFF_FFFF,
    ensures
        r.with_message(m).messages == newest(r.messages.push(m)),
        r.with_message(m).unread_count == at_most_u32(r.unread_count + 1),
        r.with_message(m).room_id == r.room_id,
        r.with_message(m).display_name == r.display_name,
        r.with_message(m).is_dm == r.is_dm,
{
    if r.messages.len() == 100 {
        assert(r.messages.drop_first().push(m) =~= r.messages.push(m).skip(1));
    }
}

/// The messages of a room, as they are reported.
pub open spec fn reported(room: Seq<char>, messages: Seq<MessageModel>) -> Seq<IncomingModel> {
    Seq::new(messages.len(), |i: int| IncomingModel { room_id: room, message: messages[i] })
}

proof fn lemma_events(
    st: SyncState,
    i: int,
    events: Seq<JsonModel>,
    room: Seq<char>,
    crypto: CryptoModel,
    n: nat,
)
    requires
        0 <= i < st.rooms.len(),
        st.rooms[i].room_id == room,
        st.rooms[i].messages.len() <= 100,
        0 <= st.rooms[i].unread_count <= 0xFFFF_FFFF,
        n <= events.len(),
    ensures
        ({
            let after = st.after_events(i, events, room, crypto, n);
            let new = messages_of(events.take(n as int), room, crypto);
            &&& after.result.new_messages == st.result.new_messages + reported(room, new)
            &&& after.result.rooms_updated == st.result.rooms_updated
            &&& after.result.rooms_over_capacity == st.result.rooms_over_capacity
            &&& after.result.rooms_malformed == st.result.rooms_malformed
            &&& after.result.next_batch == st.result.next_batch
            &&& after.rooms.len() == st.rooms.len()
            &&& forall|j: int|
                0 <= j < st.rooms.len() && j != i ==> #[trigger] after.rooms[j] == st.rooms[j]
            &&& after.rooms[i].room_id == room
            &&& after.rooms[i].display_name == st.rooms[i].display_name
            &&& after.rooms[i].is_dm == st.rooms[i].is_dm
            &&& after.rooms[i].messages == newest(st.rooms[i].messages + new)
            &&& after.rooms[i].messages.len() <= 100
            &&& after.rooms[i].unread_count == at_most_u32(st.rooms[i].unread_count + new.len())
        }),
    decreases n,
{
    let new = messages_of(events.take(n as int), room, crypto);
    if n == 0 {
        assert(events.take(0) =~= Seq::empty());
        assert(new =~= Seq::empty());
        assert(st.result.new_messages + reported(room, new) =~= st.result.new_messages);
        assert(st.rooms[i].messages + new =~= st.rooms[i].messages);
    } else {
        let k = (n - 1) as nat;
        lemma_events(st, i, events, room, crypto, k);
        let before = st.after_events(i, events, room, crypto, k);
        let old_new = messages_of(events.take(k as int), room, crypto);
        assert(events.take(n as int).drop_last() =~= events.take(k as int));
        assert(events.take(n as int).last() == events[k as int]);
        if let Some(m) = timeline_message(events[k as int], room, crypto) {
            assert(new == old_new.push(m));
            law_rooms_keep_the_newest_messages(before.rooms[i], m);
            let base = st.rooms[i].messages;
            assert((base + old_new).push(m) =~= base + new);
            assert(newest(newest(base + old_new).push(m)) =~= newest(base + new));
            assert(reported(room, new) =~= reported(room, old_new).push(
                IncomingModel { room_id: room, message: m },
            ));
            let after = st.after_events(i, events, room, crypto, n);
            assert(after.result.new_messages =~= st.result.new_messages + reported(room, new));
        } else {
            assert(new == old_new);
        }
    }
}

proof fn lemma_room_found(rooms: Seq<RoomModel>, id: Seq<char>, from: int, i: int)
    requires
        0 <= from <= i < rooms.len(),
        rooms[i].room_id == id,
        forall|j: int| from <= j < i ==> (#[trigger] rooms[j]).room_id != id,
    ensures
        room_index(rooms, id, from) == Some(i),
    decreases i - from,
{
    if from < i {
        lemma_room_found(rooms, id, from + 1, i);
    }
}

proof fn lemma_room_missing(rooms: Seq<RoomModel>, id: Seq<char>, from: int)
    requires
        0 <= from,
        forall|j: int| from <= j < rooms.len() ==> (#[trigger] rooms[j]).room_id != id,
    ensures
        room_index(rooms, id, from) is None,
    decreases rooms.len() - from,
{
    if from < rooms.len() {
        lemma_room_missing(rooms, id, from + 1);
    }
}

/// Law: the events of a known room add their messages to it, in order, and to the report
/// under its name. The room counts as updated and no other room changes.
pub proof fn law_known_rooms_get_their_messages(
    st: SyncState,
    i: int,
    data: JsonModel,
    timeline: JsonModel,
    events: Seq<JsonModel>,
    crypto: CryptoModel,
)
    requires
        0 <= i < st.rooms.len(),
        forall|j: int| 0 <= j < i ==> (#[trigger] st.rooms[j]).room_id != st.rooms[i].room_id,
        st.rooms[i].messages.len() <= 100,
        0 <= st.rooms[i].unread_count <= 0xFFFF_FFFF,
        0 <= st.result.rooms_updated <= 0xFFFF_FFFF,
        has(data, "timeline"@, timeline),
        has(timeline, "events"@, JsonModel::Array(events)),
        events.len() > 0,
    ensures
        ({
            let room = st.rooms[i].room_id;
            let after = st.after_room(room, data, crypto);
            let new = messages_of(events, room, crypto);
            &&& after.result.new_messages == st.result.new_messages + reported(room, new)
            &&& after.result.rooms_updated == at_most_u32(st.result.rooms_updated + 1)
            &&& after.result.rooms_over_capacity == st.result.rooms_over_capacity
            &&& after.result.rooms_malformed == st.result.rooms_malformed
            &&& after.rooms.len() == st.rooms.len()
            &&& forall|j: int|
                0 <= j < st.rooms.len() && j != i ==> #[trigger] after.rooms[j] == st.rooms[j]
            &&& after.rooms[i].room_id == room
            &&& after.rooms[i].messages == newest(st.rooms[i].messages + new)
            &&& after.rooms[i].unread_count == at_most_u32(st.rooms[i].unread_count + new.len())
        }),
{
    let room = st.rooms[i].room_id;
    law_fields_are_first_entries(data, "timeline"@, timeline);
    law_fields_are_first_entries(timeline, "events"@, JsonModel::Array(events));
    lemma_room_found(st.rooms, room, 0, i);
    let base = SyncState {
        rooms: st.rooms,
        result: SyncModel { rooms_updated: one_more(st.result.rooms_updated), ..st.result },
    };
    lemma_events(base, i, events, room, crypto, events.len());
    assert(events.take(events.len() as int) =~= events);
}

/// Law: a room that is not known is added at the end with its messages, where its identifier
/// is well-formed and there is a place for it. Without a place, or with a malformed
/// identifier, it is counted as such and nothing else happens.
pub proof fn law_new_rooms_are_added(
    st: SyncState,
    room: Seq<char>,
    data: JsonModel,
    timeline: JsonModel,
    events: Seq<JsonModel>,
    crypto: CryptoModel,
)
    requires
        forall|j: int| 0 <= j < st.rooms.len() ==> (#[trigger] st.rooms[j]).room_id != room,
        0 <= st.result.rooms_updated <= 0xFFFF_FFFF,
        0 <= st.result.rooms_over_capacity <= 0xFFFF_FFFF,
        0 <= st.result.rooms_malformed <= 0xFFFF_FFFF,
        has(data, "timeline"@, timeline),
        has(timeline, "events"@, JsonModel::Array(events)),
        events.len() > 0,
    ensures
        ({
            let after = st.after_room(room, data, crypto);
            let new = messages_of(events, room, crypto);
            &&& st.rooms.len() < 150 && id_fault('!', room) is None ==> {
                &&& after.rooms.len() == st.rooms.len() + 1
                &&& forall|j: int|
                    0 <= j < st.rooms.len() ==> #[trigger] after.rooms[j] == st.rooms[j]
                &&& after.rooms.last().room_id == room
                &&& after.rooms.last().display_name == room
                &&& !after.rooms.last().is_dm
                &&& after.rooms.last().messages == newest(new)
                &&& after.rooms.last().unread_count == at_most_u32(new.len() as int)
                &&& after.result.new_messages == st.result.new_messages + reported(room, new)
                &&& after.result.rooms_updated == at_most_u32(st.result.rooms_updated + 1)
            }
            &&& st.rooms.len() >= 150 ==> after.rooms == st.rooms && after.result == (SyncModel {
                rooms_over_capacity: at_most_u32(st.result.rooms_over_capacity + 1),
                ..st.result
            })
            &&& st.rooms.len() < 150 && id_fault('!', room) is Some ==> after.rooms == st.rooms
                && after.result == (SyncModel {
                rooms_malformed: at_most_u32(st.result.rooms_malformed + 1),
                ..st.result
            })
        }),
{
    law_fields_are_first_entries(data, "timeline"@, timeline);
    law_fields_are_first_entries(timeline, "events"@, JsonModel::Array(events));
    lemma_room_missing(st.rooms, room, 0);
    if st.rooms.len() < 150 && id_fault('!', room) is None {
        let fresh = RoomModel::fresh(room, room, false);
        let base = SyncState {
            rooms: st.rooms.push(fresh),
            result: SyncModel { rooms_updated: one_more(st.result.rooms_updated), ..st.result },
        };
        let i = st.rooms.len() as int;
        lemma_events(base, i, events, room, crypto, events.len());
        assert(events.take(events.len() as int) =~= events);
        let new = messages_of(events, room, crypto);
        assert(fresh.messages + new =~= new);
        let after = st.after_room(room, data, crypto);
        assert forall|j: int| 0 <= j < st.rooms.len() implies #[trigger] after.rooms[j]
            == st.rooms[j] by {
            assert(base.rooms[j] == st.rooms[j]);
        }
    }
}

/// Law: a successful sync takes in the joined rooms one after the other, in the order of the
/// response, starting from the rooms that the client has and an empty report with the
/// response's batch; it remembers the batch and the tick. The rest of the client stays.
pub proof fn law_a_sync_takes_in_the_joined_rooms(
    m: ClientModel,
    response: ResponseModel,
    tick: int,
    root: JsonModel,
    batch: Seq<char>,
    rooms: JsonModel,
    joined: Seq<(Seq<char>, JsonModel)>,
)
    requires
        200 <= response.status <= 299,
        response.body == encode_utf8(render(root)),
        readable(root, 0),
        has(root, "next_batch"@, JsonModel::Text(batch)),
        has(root, "rooms"@, rooms),
        has(rooms, "join"@, JsonModel::Object(joined)),
    ensures
        ({
            let start = SyncState {
                rooms: m.rooms,
                result: SyncModel {
                    new_messages: Seq::empty(),
                    rooms_updated: 0,
                    rooms_over_capacity: 0,
                    rooms_malformed: 0,
                    next_batch: batch,
                },
            };
            let end = start.after_rooms(joined, m.crypto, joined.len());
            let (after, outcome) = m.after_sync(response, tick);
            &&& outcome == Ok::<SyncModel, ErrorModel>(end.result)
            &&& after.rooms == end.rooms
            &&& after.sync_token == Some(batch)
            &&& after.last_sync_tick == tick
            &&& after.outbox == m.outbox
            &&& after.crypto == m.crypto
            &&& after.next_txn_id == m.next_txn_id
            &&& after.sync_interval_ms == m.sync_interval_ms
            &&& after.homeserver == m.homeserver
            &&& after.access_token == m.access_token
            &&& joined.len() == 0 ==> after.rooms == m.rooms
            &&& joined.len() == 1 ==> end == start.after_room(joined[0].0, joined[0].1, m.crypto)
        }),
{
    law_parse_reads_what_was_rendered(root);
    encode_utf8_valid_utf8(render(root));
    law_fields_are_first_entries(root, "next_batch"@, JsonModel::Text(batch));
    law_fields_are_first_entries(root, "rooms"@, rooms);
    law_fields_are_first_entries(rooms, "join"@, JsonModel::Object(joined));
    reveal_with_fuel(SyncState::after_rooms, 2);
}

/// Law: each further room is taken in behind those before it.
pub proof fn law_rooms_are_taken_in_one_by_one(
    st: SyncState,
    joined: Seq<(Seq<char>, JsonModel)>,
    crypto: CryptoModel,
    room: Seq<char>,
    data: JsonModel,
)
    ensures
        st.after_rooms(joined.push((room, data)), crypto, joined.len() + 1) == st.after_rooms(
            joined,
            crypto,
            joined.len(),
        ).after_room(room, data, crypto),
{
    lemma_rooms_prefix(st, joined, joined.push((room, data)), crypto, joined.len());
}

proof fn lemma_rooms_prefix(
    st: SyncState,
    a: Seq<(Seq<char>, JsonModel)>,
    b: Seq<(Seq<char>, JsonModel)>,
    crypto: CryptoModel,
    n: nat,
)
    requires
        n <= a.len() <= b.len(),
        forall|i: int| 0 <= i < a.len() ==> a[i] == b[i],
    ensures
        st.after_rooms(a, crypto, n) == st.after_rooms(b, crypto, n),
    decreases n,
{
    if n > 0 {
        lemma_rooms_prefix(st, a, b, crypto, (n - 1) as nat);
    }
}

/// Law: an answer that is no success, no JSON or has no batch is an error and changes nothing
/// but the tick.
pub proof fn law_a_failed_sync_changes_nothing(m: ClientModel, response: ResponseModel, tick: int)
    requires
        !(200 <= response.status <= 299) || !valid_utf8(response.body) || document(response.body)
            is Err || lacks(document(response.body)->Ok_0, "next_batch"@),
    ensures
        m.after_sync(response, tick).1 is Err,
        m.after_sync(response, tick).0 == (ClientModel { last_sync_tick: tick, ..m }),
        200 <= response.status <= 299 && !valid_utf8(response.body) ==> m.after_sync(
            response,
            tick,
        ).1->Err_0 == ErrorModel::MalformedSync,
        200 <= response.status <= 299 && valid_utf8(response.body) && document(response.body) is Err
            ==> m.after_sync(response, tick).1->Err_0 == ErrorModel::Json(
            document(response.body)->Err_0,
        ),
        !(200 <= response.status <= 299) ==> (m.after_sync(response, tick).1->Err_0 matches
            ErrorModel::ServerError { status, .. } && status == response.status),
{
    if let Ok(root) = document(response.body) {
        law_fields_are_first_entries(root, "next_batch"@, JsonModel::Null);
    }
}

// ---------------------------------------------------------------------------
// Requests and timing
// ---------------------------------------------------------------------------

/// Law: a phone in daily use syncs all the time with its screen on, and with its screen off
/// six thousand ticks after the last sync and no earlier; in any other mode never.
pub proof fn law_syncs_are_due_when_the_mode_says(
    m: ClientModel,
    mode: SecurityMode,
    screen_on: bool,
    tick: int,
)
    requires
        m.sync_interval_ms == cadence(mode, screen_on),
        0 <= m.last_sync_tick,
        m.last_sync_tick + 6_000 <= u64::MAX,
    ensures
        mode == SecurityMode::Daily && screen_on ==> m.sync_due(tick),
        mode == SecurityMode::Daily && !screen_on ==> (m.sync_due(tick) <==> tick
            >= m.last_sync_tick + 6_000),
        mode != SecurityMode::Daily ==> !m.sync_due(tick),
{
}

/// Law: a sync request is a GET to the homeserver with the access token. It asks for what came
/// since the last batch, and for everything without one; the server may wait thirty seconds.
pub proof fn law_sync_requests_ask_since_the_last_batch(m: ClientModel)
    requires
        m.sync_interval_ms != u64::MAX,
        m.sync_token matches Some(t) ==> token_is_safe(t),
    ensures
        m.sync_request() matches Ok(q) && q.method == HttpMethod::Get && q.host == m.homeserver
            && q.body is None && q.headers == seq![("Authorization"@, "Bearer "@ + m.access_token)]
            && (m.sync_token is None ==> q.path == "/_matrix/client/v3/sync?timeout=30000"@) && (
        m.sync_token matches Some(t) ==> q.path
            == "/_matrix/client/v3/sync?timeout=30000&since="@ + t),
{
    reveal_with_fuel(decimal, 6);
    reveal_strlit("/_matrix/client/v3");
    reveal_strlit("/sync?timeout=");
    reveal_strlit("/_matrix/client/v3/sync?timeout=30000");
    reveal_strlit("/_matrix/client/v3/sync?timeout=30000&since=");
    reveal_strlit("&since=");
    let n = ascii(decimal(30_000));
    assert(decimal(30_000) =~= seq![0x33u8, 0x30, 0x30, 0x30, 0x30]);
    assert(n =~= seq!['3', '0', '0', '0', '0']);
    let base = "/_matrix/client/v3"@ + "/sync?timeout="@ + n;
    assert(base =~= "/_matrix/client/v3/sync?timeout=30000"@);
    assert(base + "&since="@ =~= "/_matrix/client/v3/sync?timeout=30000&since="@);
    let q = m.sync_request()->Ok_0;
    assert(q.headers =~= seq![("Authorization"@, "Bearer "@ + m.access_token)]);
    if let Some(t) = m.sync_token {
        assert(base + "&since="@ + t =~= "/_matrix/client/v3/sync?timeout=30000&since="@ + t);
    }
}

/// Law: an event is sent by a PUT to its room under its transaction number, as JSON with the
/// access token.
pub proof fn law_events_are_put_into_their_room(
    m: ClientModel,
    room: Seq<char>,
    txn_id: int,
    body: Seq<char>,
)
    ensures
        ({
            let q = m.event_request(room, "/send/m.room.message/"@, txn_id, body);
            &&& q.method == HttpMethod::Put
            &&& q.host == m.homeserver
            &&& q.path == "/_matrix/client/v3/rooms/"@ + room + "/send/m.room.message/"@ + ascii(
                decimal(txn_id as nat),
            )
            &&& q.headers == seq![
                ("Content-Type"@, "application/json"@),
                ("Authorization"@, "Bearer "@ + m.access_token),
            ]
            &&& q.body == Some(encode_utf8(body))
        }),
        ({
            let q = m.event_request(room, "/send/m.room.encrypted/"@, txn_id, body);
            &&& q.method == HttpMethod::Put
            &&& q.host == m.homeserver
            &&& q.path == "/_matrix/client/v3/rooms/"@ + room + "/send/m.room.encrypted/"@ + ascii(
                decimal(txn_id as nat),
            )
            &&& q.body == Some(encode_utf8(body))
        }),
{
    reveal_strlit("/_matrix/client/v3");
    reveal_strlit("/rooms/");
    reveal_strlit("/_matrix/client/v3/rooms/");
    assert("/_matrix/client/v3"@ + "/rooms/"@ =~= "/_matrix/client/v3/rooms/"@);
    let q = m.event_request(room, "/send/m.room.message/"@, txn_id, body);
    assert(q.headers =~= seq![
        ("Content-Type"@, "application/json"@),
        ("Authorization"@, "Bearer "@ + m.access_token),
    ]);
}

/// Law: a queued message waits behind all others under the next transaction number, and
/// nothing else changes.
pub proof fn law_queued_messages_wait_their_turn(m: ClientModel, room: Seq<char>, body: Seq<char>)
    requires
        0 <= m.next_txn_id <= 0xFFFF_FFFF,
    ensures
        ({
            let after = m.with_pending(room, body);
            &&& after.outbox == m.outbox.push(
                PendingModel { room_id: room, body, txn_id: m.next_txn_id },
            )
            &&& after.next_txn_id == at_most_u32(m.next_txn_id + 1)
            &&& after.rooms == m.rooms
            &&& after.crypto == m.crypto
            &&& after.sync_token == m.sync_token
        }),
        m.outbox_fault(room) is None <==> m.outbox.len() < 256 && id_fault('!', room) is None,
        m.outbox.len() >= 256 ==> m.outbox_fault(room) == Some(ErrorModel::OutboxFull),
{
}

/// Law: joining a room that the server let the client into adds it once; where there is no
/// place for it or the server refused, nothing is added.
pub proof fn law_joined_rooms_are_added_once(
    m: ClientModel,
    room: Seq<char>,
    response: ResponseModel,
)
    ensures
        ({
            let (after, outcome) = m.after_join(room, response);
            let known = exists|j: int|
                0 <= j < m.rooms.len() && (#[trigger] m.rooms[j]).room_id == room;
            let ok = 200 <= response.status <= 299;
            &&& outcome is Ok <==> ok && (known || (m.rooms.len() < 150 && id_fault('!', room)
                is None))
            &&& outcome is Ok && !known ==> after.rooms.len() == m.rooms.len() + 1
                && after.rooms.drop_last() == m.rooms && after.rooms.last().room_id == room
                && after.rooms.last().messages.len() == 0 && after.rooms.last().unread_count == 0
            &&& outcome is Err || known ==> after == m
            &&& ok && !known && m.rooms.len() >= 150 ==> outcome == Err::<(), ErrorModel>(
                ErrorModel::RoomCapacityReached,
            )
        }),
{
    let known = exists|j: int| 0 <= j < m.rooms.len() && (#[trigger] m.rooms[j]).room_id == room;
    if known {
        lemma_room_is_known(m.rooms, room, 0);
    } else {
        lemma_room_missing(m.rooms, room, 0);
        let (after, outcome) = m.after_join(room, response);
        if outcome is Ok {
            assert(after.rooms.drop_last() =~= m.rooms);
        }
    }
}

proof fn lemma_room_is_known(rooms: Seq<RoomModel>, id: Seq<char>, from: int)
    requires
        0 <= from,
        exists|j: int| from <= j < rooms.len() && (#[trigger] rooms[j]).room_id == id,
    ensures
        room_index(rooms, id, from) is Some,
    decreases rooms.len() - from,
{
    if from < rooms.len() && rooms[from].room_id != id {
        lemma_room_is_known(rooms, id, from + 1);
    }
}

/// Law: bytes are written as two small hexadecimal digits each, the high half first.
pub proof fn law_hex_digits_stand_in_order(bytes: Seq<u8>, i: int)
    requires
        0 <= i < bytes.len(),
    ensures
        hex_text(bytes).len() == 2 * bytes.len(),
        hex_text(bytes)[2 * i] as int == (if bytes[i] / 16 < 10 {
            0x30 + bytes[i] / 16
        } else {
            0x57 + bytes[i] / 16
        }),
        hex_text(bytes)[2 * i + 1] as int == (if bytes[i] % 16 < 10 {
            0x30 + bytes[i] % 16
        } else {
            0x57 + bytes[i] % 16
        }),
{
}

} // verus!
