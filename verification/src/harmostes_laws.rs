//! What the Matrix client promises.
use crate::harmostes::{
    body_document, cadence, crypto_fault, empty_result, encrypted_body, encrypted_value, hex_bytes, hex_text,
    joined_rooms, law_hex_round_trip, message_body, message_value, one_more, room_index,
    session_bytes, text_field, timeline_events, timeline_message, without_txn, ClientModel,
    ErrorModel, PendingModel, RoomModel, SyncModel, SyncState, MAX_MESSAGES_PER_ROOM,
    MAX_OUTBOX_MESSAGES, MAX_ROOMS,
};
use crate::http_client::{RequestModel, ResponseModel};
use crate::json_laws::{law_parse_reads_what_was_rendered, readable};
use crate::json_mini::{document, entry_index, JsonError, JsonModel};
use crate::matrix_crypto::{outbound_index, CryptoModel, SealedModel};
use crate::matrix_ids::id_fault;
use crate::security_mode::SecurityMode;
use vstd::prelude::*;
use vstd::utf8::*;

verus! {

broadcast use vstd::string::group_string_axioms;

// ---------------------------------------------------------------------------
// What every operation keeps
// ---------------------------------------------------------------------------

/// Rooms within their limits: not too many, none twice, each with a well-formed
/// identifier and a bounded message cache.
pub open spec fn rooms_ok(rooms: Seq<RoomModel>) -> bool {
    &&& rooms.len() <= MAX_ROOMS
    &&& forall|i: int, j: int|
        0 <= i < j < rooms.len() ==> (#[trigger] rooms[i]).room_id != (#[trigger] rooms[j]).room_id
    &&& forall|i: int|
        0 <= i < rooms.len() ==> id_fault('!', (#[trigger] rooms[i]).room_id) is None
    &&& forall|i: int|
        0 <= i < rooms.len() ==> (#[trigger] rooms[i]).messages.len() <= MAX_MESSAGES_PER_ROOM
}

/// A client within its limits.
pub open spec fn client_ok(m: ClientModel) -> bool {
    rooms_ok(m.rooms) && m.outbox.len() <= MAX_OUTBOX_MESSAGES
}

proof fn lemma_room_index(rooms: Seq<RoomModel>, id: Seq<char>, from: int)
    requires
        0 <= from,
    ensures
        match room_index(rooms, id, from) {
            Some(i) => from <= i < rooms.len() && rooms[i].room_id == id,
            None => forall|i: int|
                from <= i < rooms.len() ==> (#[trigger] rooms[i]).room_id != id,
        },
    decreases rooms.len() - from,
{
    if from < rooms.len() && rooms[from].room_id != id {
        lemma_room_index(rooms, id, from + 1);
    }
}

proof fn lemma_new_room(rooms: Seq<RoomModel>, id: Seq<char>)
    requires
        rooms_ok(rooms),
        rooms.len() < MAX_ROOMS,
        room_index(rooms, id, 0) is None,
        id_fault('!', id) is None,
    ensures
        rooms_ok(rooms.push(RoomModel::fresh(id, id, false))),
{
    lemma_room_index(rooms, id, 0);
}

proof fn lemma_events_keep_rooms(
    st: SyncState,
    i: int,
    events: Seq<JsonModel>,
    room: Seq<char>,
    crypto: CryptoModel,
    n: nat,
)
    requires
        rooms_ok(st.rooms),
        0 <= i < st.rooms.len(),
    ensures
        rooms_ok(st.after_events(i, events, room, crypto, n).rooms),
        st.after_events(i, events, room, crypto, n).rooms.len() == st.rooms.len(),
    decreases n,
{
    if n > 0 && n <= events.len() {
        lemma_events_keep_rooms(st, i, events, room, crypto, (n - 1) as nat);
        let before = st.after_events(i, events, room, crypto, (n - 1) as nat);
        if let Some(msg) = timeline_message(events[n - 1], room, crypto) {
            let after = before.rooms.update(i, before.rooms[i].with_message(msg));
            assert forall|a: int, b: int| 0 <= a < b < after.len() implies (
            #[trigger] after[a]).room_id != (#[trigger] after[b]).room_id by {
                assert(before.rooms[a].room_id != before.rooms[b].room_id);
            }
        }
    }
}

proof fn lemma_rooms_keep_rooms(
    st: SyncState,
    joined: Seq<(Seq<char>, JsonModel)>,
    crypto: CryptoModel,
    n: nat,
)
    requires
        rooms_ok(st.rooms),
    ensures
        rooms_ok(st.after_rooms(joined, crypto, n).rooms),
    decreases n,
{
    if n > 0 && n <= joined.len() {
        lemma_rooms_keep_rooms(st, joined, crypto, (n - 1) as nat);
        let before = st.after_rooms(joined, crypto, (n - 1) as nat);
        let (room, data) = joined[n - 1];
        let events = timeline_events(data);
        if events.len() > 0 {
            lemma_room_index(before.rooms, room, 0);
            match room_index(before.rooms, room, 0) {
                Some(i) => {
                    let base = SyncState {
                        rooms: before.rooms,
                        result: SyncModel {
                            rooms_updated: one_more(
                                before.result.rooms_updated,
                            ),
                            ..before.result
                        },
                    };
                    lemma_events_keep_rooms(base, i, events, room, crypto, events.len());
                },
                None => {
                    if before.rooms.len() < MAX_ROOMS && id_fault('!', room) is None {
                        lemma_new_room(before.rooms, room);
                        let base = SyncState {
                            rooms: before.rooms.push(RoomModel::fresh(room, room, false)),
                            result: SyncModel {
                                rooms_updated: one_more(
                                    before.result.rooms_updated,
                                ),
                                ..before.result
                            },
                        };
                        lemma_events_keep_rooms(
                            base,
                            before.rooms.len() as int,
                            events,
                            room,
                            crypto,
                            events.len(),
                        );
                    }
                },
            }
        }
    }
}

/// Law: a fresh client is within its limits.
pub proof fn law_fresh_client_is_within_limits(
    homeserver: Seq<char>,
    user_id: Seq<char>,
    device_id: Seq<char>,
    access_token: Seq<char>,
    crypto: CryptoModel,
)
    ensures
        client_ok(ClientModel::fresh(homeserver, user_id, device_id, access_token, crypto)),
{
}

/// Law: no sync response, whatever the server sends, takes the client beyond its
/// limits.
pub proof fn law_sync_keeps_limits(m: ClientModel, response: ResponseModel, tick: int)
    requires
        client_ok(m),
    ensures
        client_ok(m.after_sync(response, tick).0),
{
    if let Some(Ok(root)) = body_document(response) {
        if let Some(token) = text_field(root, "next_batch"@) {
            let st = SyncState { rooms: m.rooms, result: empty_result(token) };
            lemma_rooms_keep_rooms(st, joined_rooms(root), m.crypto, joined_rooms(root).len());
        }
    }
}

/// Law: joining keeps the client within its limits.
pub proof fn law_join_keeps_limits(m: ClientModel, room: Seq<char>, response: ResponseModel)
    requires
        client_ok(m),
    ensures
        client_ok(m.after_join(room, response).0),
{
    if room_index(m.rooms, room, 0) is None && m.rooms.len() < MAX_ROOMS && id_fault('!', room)
        is None {
        lemma_new_room(m.rooms, room);
    }
}

/// Law: queueing what the outbox accepts keeps the client within its limits.
pub proof fn law_queue_keeps_limits(m: ClientModel, room: Seq<char>, body: Seq<char>)
    requires
        client_ok(m),
        m.outbox_fault(room) is None,
    ensures
        client_ok(m.with_pending(room, body)),
{
}

// ---------------------------------------------------------------------------
// Sync
// ---------------------------------------------------------------------------

/// Law: the sync token advances exactly when the sync succeeds, and then to the
/// reported batch; a failed sync leaves token and rooms as they were.
pub proof fn law_token_advances_exactly_on_success(m: ClientModel, response: ResponseModel, tick: int)
    ensures
        match m.after_sync(response, tick).1 {
            Ok(result) => m.after_sync(response, tick).0.sync_token == Some(result.next_batch),
            Err(_) => m.after_sync(response, tick).0.sync_token == m.sync_token && m.after_sync(
                response,
                tick,
            ).0.rooms == m.rooms,
        },
{
    if let Some(Ok(root)) = body_document(response) {
        if let Some(token) = text_field(root, "next_batch"@) {
            let st = SyncState { rooms: m.rooms, result: empty_result(token) };
            lemma_batch_is_kept(st, joined_rooms(root), m.crypto, joined_rooms(root).len());
        }
    }
}

proof fn lemma_batch_is_kept(
    st: SyncState,
    joined: Seq<(Seq<char>, JsonModel)>,
    crypto: CryptoModel,
    n: nat,
)
    ensures
        st.after_rooms(joined, crypto, n).result.next_batch == st.result.next_batch,
    decreases n,
{
    if n > 0 && n <= joined.len() {
        lemma_batch_is_kept(st, joined, crypto, (n - 1) as nat);
        let before = st.after_rooms(joined, crypto, (n - 1) as nat);
        let (room, data) = joined[n - 1];
        let events = timeline_events(data);
        let result = SyncModel {
            rooms_updated: one_more(before.result.rooms_updated),
            ..before.result
        };
        match room_index(before.rooms, room, 0) {
            Some(i) => {
                let base = SyncState { rooms: before.rooms, result };
                lemma_batch_is_kept_by_events(base, i, events, room, crypto, events.len());
            },
            None => {
                let base = SyncState {
                    rooms: before.rooms.push(RoomModel::fresh(room, room, false)),
                    result,
                };
                lemma_batch_is_kept_by_events(
                    base,
                    before.rooms.len() as int,
                    events,
                    room,
                    crypto,
                    events.len(),
                );
            },
        }
    }
}

proof fn lemma_batch_is_kept_by_events(
    st: SyncState,
    i: int,
    events: Seq<JsonModel>,
    room: Seq<char>,
    crypto: CryptoModel,
    n: nat,
)
    ensures
        st.after_events(i, events, room, crypto, n).result.next_batch == st.result.next_batch,
    decreases n,
{
    if n > 0 && n <= events.len() {
        lemma_batch_is_kept_by_events(st, i, events, room, crypto, (n - 1) as nat);
    }
}

/// Law: outside Daily mode nothing is ever synced: no sync is due and no request
/// is built.
pub proof fn law_guarded_modes_never_sync(m: ClientModel, mode: SecurityMode, screen_on: bool, tick: int)
    requires
        mode != SecurityMode::Daily,
        m.sync_interval_ms == cadence(mode, screen_on),
    ensures
        !m.sync_due(tick),
        m.sync_request() == Err::<RequestModel, ErrorModel>(ErrorModel::SyncDisabled),
{
}

// ---------------------------------------------------------------------------
// Sending
// ---------------------------------------------------------------------------

/// Transaction numbers grow along the outbox and lie below the next one.
pub open spec fn transactions_grow(m: ClientModel) -> bool {
    &&& forall|i: int, j: int|
        0 <= i < j < m.outbox.len() ==> (#[trigger] m.outbox[i]).txn_id < (
        #[trigger] m.outbox[j]).txn_id
    &&& forall|i: int| 0 <= i < m.outbox.len() ==> (#[trigger] m.outbox[i]).txn_id < m.next_txn_id
}

/// Law: each queued message gets a transaction number above all before it, as
/// long as the counter has room.
pub proof fn law_transactions_grow(m: ClientModel, room: Seq<char>, body: Seq<char>)
    requires
        transactions_grow(m),
        m.next_txn_id < u32::MAX,
    ensures
        transactions_grow(m.with_pending(room, body)),
{
}

/// Law: confirming a transaction removes exactly its messages and keeps the
/// order of the others.
pub proof fn law_confirm_removes_exactly(outbox: Seq<PendingModel>, txn_id: int)
    ensures
        without_txn(outbox, txn_id) == outbox.filter(|p: PendingModel| p.txn_id != txn_id),
    decreases outbox.len(),
{
    reveal(Seq::filter);
    if outbox.len() > 0 {
        law_confirm_removes_exactly(outbox.drop_last(), txn_id);
    }
}

/// Law: a plain message reads back as the text that was sent.
pub proof fn law_message_reads_back(body: Seq<char>)
    ensures
        document(encode_utf8(message_body(body))) == Ok::<JsonModel, JsonError>(
            message_value(body),
        ),
        text_field(message_value(body), "body"@) == Some(body),
{
    let v = message_value(body);
    reveal_with_fuel(readable, 2);
    assert(readable(v, 0));
    law_parse_reads_what_was_rendered(v);
    reveal_strlit("msgtype");
    reveal_strlit("body");
    assert("msgtype"@.len() != "body"@.len());
    assert(v->Object_0[0].0 != "body"@);
    reveal_with_fuel(entry_index, 3);
}

/// Law: an encrypted message reads back with the ciphertext and the session that
/// it was built with.
pub proof fn law_encrypted_message_reads_back(ciphertext: Seq<u8>, session: Seq<u8>)
    requires
        session.len() == 32,
    ensures
        document(encode_utf8(encrypted_body(ciphertext, session))) == Ok::<JsonModel, JsonError>(
            encrypted_value(ciphertext, session),
        ),
        text_field(encrypted_value(ciphertext, session), "ciphertext"@) matches Some(t)
            && hex_bytes(encode_utf8(t)) == Some(ciphertext),
        text_field(encrypted_value(ciphertext, session), "session_id"@) matches Some(t)
            && session_bytes(t) == Some(session),
{
    let v = encrypted_value(ciphertext, session);
    reveal_with_fuel(readable, 2);
    assert(readable(v, 0));
    law_parse_reads_what_was_rendered(v);
    reveal_strlit("algorithm");
    reveal_strlit("ciphertext");
    reveal_strlit("session_id");
    assert("algorithm"@.len() == 9 && "ciphertext"@.len() == 10 && "session_id"@.len() == 10);
    assert("ciphertext"@[0] == 'c' && "session_id"@[0] == 's');
    assert(v->Object_0[0].0 != "ciphertext"@ && v->Object_0[0].0 != "session_id"@);
    assert(v->Object_0[1].0 != "session_id"@);
    reveal_with_fuel(entry_index, 4);
    law_hex_round_trip(ciphertext);
    law_hex_round_trip(session);
    let t = hex_text(session);
    assert forall|i: int| 0 <= i < t.len() implies ('\0' <= #[trigger] t[i] <= '\u{7f}') by {
        assert(session[i / 2] / 16 < 16 && session[i / 2] % 16 < 16);
    }
    assert(is_ascii_chars(t));
    is_ascii_chars_encode_utf8(t);
}

/// Law: the outbox is sent encrypted or not at all: every request of a flush is
/// an `m.room.encrypted` event with the ciphertext of its own message, and a
/// message whose encryption failed has no request.
pub proof fn law_outbox_is_sent_encrypted(m: ClientModel, sealed: Seq<SealedModel>, n: nat, i: int)
    requires
        n <= m.outbox.len(),
        sealed.len() == m.outbox.len(),
        0 <= i < n,
    ensures
        m.after_flush(sealed, n).1.len() == n,
        m.after_flush(sealed, n).1[i] matches Ok((request, txn_id)) ==> {
            &&& txn_id == m.outbox[i].txn_id
            &&& sealed[i].ciphertext is Ok
            &&& exists|session: Seq<u8>|
                request == #[trigger] m.event_request(
                    m.outbox[i].room_id,
                    "/send/m.room.encrypted/"@,
                    txn_id,
                    encrypted_body(sealed[i].ciphertext->Ok_0, session),
                )
        },
    decreases n,
{
    lemma_flush_keeps(m, sealed, (n - 1) as nat);
    let (before, results) = m.after_flush(sealed, (n - 1) as nat);
    if i < n - 1 {
        law_outbox_is_sent_encrypted(m, sealed, (n - 1) as nat, i);
    } else {
        let message = m.outbox[i];
        let (after, built) = before.after_megolm(message.room_id, message.txn_id, sealed[i]);
        if let Ok(request) = built {
            let session = match before.crypto.session_of(message.room_id) {
                Some(id) => id,
                None => sealed[i].fresh_session->Ok_0,
            };
            assert(request == m.event_request(
                message.room_id,
                "/send/m.room.encrypted/"@,
                message.txn_id,
                encrypted_body(sealed[i].ciphertext->Ok_0, session),
            ));
        }
    }
}

/// Law: what is queued is what the cipher is given: the last request holds the
/// UTF-8 bytes of the message queued last, for its room, and the earlier ones are
/// unchanged.
pub proof fn law_queued_message_is_given_to_the_cipher(
    m: ClientModel,
    room: Seq<char>,
    body: Seq<char>,
)
    ensures
        m.with_pending(room, body).to_seal() == m.to_seal().push(m.seal_of(room, body)),
        m.seal_of(room, body).plaintext == encode_utf8(body),
{
    let after = m.with_pending(room, body);
    assert(after.to_seal() =~= m.to_seal().push(m.seal_of(room, body)));
}

/// Law: a message is sent under the session that the cipher was given for it, with
/// the ciphertext that the cipher gave; the messages flushed before it change
/// neither.
pub proof fn law_message_is_sent_under_its_session(
    m: ClientModel,
    sealed: Seq<SealedModel>,
    n: nat,
    i: int,
)
    requires
        n <= m.outbox.len(),
        sealed.len() == m.outbox.len(),
        0 <= i < n,
        m.to_seal()[i].session is Some,
    ensures
        m.after_flush(sealed, n).1.len() == n,
        m.after_flush(sealed, n).1[i] == match sealed[i].ciphertext {
            Ok(c) => Ok(
                (
                    m.event_request(
                        m.outbox[i].room_id,
                        "/send/m.room.encrypted/"@,
                        m.outbox[i].txn_id,
                        encrypted_body(c, m.to_seal()[i].session->0),
                    ),
                    m.outbox[i].txn_id,
                ),
            ),
            Err(e) => Err(crypto_fault(e)),
        },
    decreases n,
{
    lemma_flush_keeps(m, sealed, (n - 1) as nat);
    if i < n - 1 {
        law_message_is_sent_under_its_session(m, sealed, (n - 1) as nat, i);
    } else {
        lemma_flush_keeps_sessions(m, sealed, (n - 1) as nat, m.outbox[i].room_id);
    }
}

proof fn lemma_flush_keeps_sessions(
    m: ClientModel,
    sealed: Seq<SealedModel>,
    n: nat,
    room: Seq<char>,
)
    requires
        n <= m.outbox.len(),
        m.crypto.session_of(room) is Some,
    ensures
        m.after_flush(sealed, n).0.crypto.session_of(room) == m.crypto.session_of(room),
    decreases n,
{
    if n > 0 {
        lemma_flush_keeps_sessions(m, sealed, (n - 1) as nat, room);
        let before = m.after_flush(sealed, (n - 1) as nat).0;
        let message = m.outbox[n - 1];
        if let Ok(id) = sealed[n - 1].fresh_session {
            lemma_first_session_stays(before.crypto.outbound, room, 0, (message.room_id, id));
        }
    }
}

proof fn lemma_first_session_stays(
    sessions: Seq<(Seq<char>, Seq<u8>)>,
    room: Seq<char>,
    from: int,
    added: (Seq<char>, Seq<u8>),
)
    requires
        0 <= from,
        outbound_index(sessions, room, from) is Some,
    ensures
        outbound_index(sessions.push(added), room, from) == outbound_index(sessions, room, from),
        0 <= outbound_index(sessions, room, from)->0 < sessions.len(),
    decreases sessions.len() - from,
{
    if sessions[from].0 != room {
        lemma_first_session_stays(sessions, room, from + 1, added);
    }
}

proof fn lemma_flush_keeps(m: ClientModel, sealed: Seq<SealedModel>, n: nat)
    requires
        n <= m.outbox.len(),
    ensures
        m.after_flush(sealed, n).1.len() == n,
        m.after_flush(sealed, n).0.homeserver == m.homeserver,
        m.after_flush(sealed, n).0.access_token == m.access_token,
        m.after_flush(sealed, n).0.outbox == m.outbox,
    decreases n,
{
    if n > 0 {
        lemma_flush_keeps(m, sealed, (n - 1) as nat);
    }
}

} // verus!
