//! What the Matrix client makes of messages that it sends, and of the answers of the server.
use crate::harmostes::{
    crypto_fault, encrypted_body, hex_bytes, hex_text, message_body, sent_event, server_error,
    token_is_safe, ClientModel, ErrorModel, RoomModel,
};
use crate::harmostes_laws::{law_encrypted_message_reads_back, law_message_reads_back};
use crate::harmostes_sync::{
    has, lacks, law_events_are_put_into_their_room, law_fields_are_first_entries,
};
use crate::heorte::{clean_prefix_len, cuts_cleanly, law_clean_cut_is_the_largest};
use crate::http_client::{HttpMethod, RequestModel, ResponseModel};
use crate::json_mini::{document, hex_value, JsonError, JsonModel};
use crate::json_text_laws::is_hex;
use crate::matrix_crypto::{CryptoError, CryptoModel, SealedModel};
use crate::matrix_laws::law_a_new_session_is_the_rooms;
use crate::text::{ascii, decimal, lemma_encode_ascii, lemma_encode_concat};
use vstd::prelude::*;
use vstd::utf8::*;

verus! {

broadcast use vstd::string::group_string_axioms;

// ---------------------------------------------------------------------------
// Messages
// ---------------------------------------------------------------------------

/// Law: a plain message is a JSON object that says it is a text, and the text.
pub proof fn law_a_text_message_says_so(body: Seq<char>)
    ensures
        document(encode_utf8(message_body(body))) == Ok::<JsonModel, JsonError>(
            JsonModel::Object(
                seq![("msgtype"@, JsonModel::Text("m.text"@)), ("body"@, JsonModel::Text(body))],
            ),
        ),
{
    law_message_reads_back(body);
}

/// Law: an encrypted message is a JSON object with its algorithm, its ciphertext and its
/// session, both in hexadecimal digits.
pub proof fn law_an_encrypted_message_names_its_session(ciphertext: Seq<u8>, session: Seq<u8>)
    requires
        session.len() == 32,
    ensures
        document(encode_utf8(encrypted_body(ciphertext, session))) == Ok::<JsonModel, JsonError>(
            JsonModel::Object(
                seq![
                    ("algorithm"@, JsonModel::Text("m.megolm.v1.aes-sha2"@)),
                    ("ciphertext"@, JsonModel::Text(hex_text(ciphertext))),
                    ("session_id"@, JsonModel::Text(hex_text(session))),
                ],
            ),
        ),
{
    law_encrypted_message_reads_back(ciphertext, session);
}

/// Law: a plain message is put into its room under the next transaction number, which is then
/// used up.
pub proof fn law_a_plain_message_uses_up_a_number(m: ClientModel, room: Seq<char>, body: Seq<char>)
    requires
        0 <= m.next_txn_id <= 0xFFFF_FFFF,
    ensures
        ({
            let q = m.plain_send(room, body);
            let after = m.next_transaction();
            &&& q.method == HttpMethod::Put
            &&& q.host == m.homeserver
            &&& q.path == "/_matrix/client/v3/rooms/"@ + room + "/send/m.room.message/"@ + ascii(
                decimal(m.next_txn_id as nat),
            )
            &&& q.body == Some(encode_utf8(message_body(body)))
            &&& after.next_txn_id == if m.next_txn_id < 0xFFFF_FFFF {
                m.next_txn_id + 1
            } else {
                0xFFFF_FFFF
            }
            &&& after == (ClientModel { next_txn_id: after.next_txn_id, ..m })
        }),
{
    law_events_are_put_into_their_room(m, room, m.next_txn_id, message_body(body));
}

/// Whether a request puts a ciphertext into a room under a transaction number and a session.
pub open spec fn carries(
    q: RequestModel,
    m: ClientModel,
    room: Seq<char>,
    txn_id: int,
    ciphertext: Seq<u8>,
    session: Seq<u8>,
) -> bool {
    &&& q.method == HttpMethod::Put
    &&& q.host == m.homeserver
    &&& q.path == "/_matrix/client/v3/rooms/"@ + room + "/send/m.room.encrypted/"@ + ascii(
        decimal(txn_id as nat),
    )
    &&& q.body == Some(encode_utf8(encrypted_body(ciphertext, session)))
}

/// Law: a sealed message goes out under the session of its room, or under a new one that is
/// the room's from then on. What the cipher refused goes out in no form, and without a new
/// session nothing changes.
pub proof fn law_a_sealed_message_goes_out_under_its_session(
    m: ClientModel,
    room: Seq<char>,
    txn_id: int,
    sealed: SealedModel,
    other: Seq<char>,
)
    requires
        other != room,
    ensures
        ({
            let (after, built) = m.after_megolm(room, txn_id, sealed);
            &&& after == (ClientModel { crypto: after.crypto, ..m })
            &&& after.crypto.session_of(other) == m.crypto.session_of(other)
            &&& m.crypto.session_of(room) matches Some(session) ==> {
                &&& after == m
                &&& sealed.ciphertext matches Ok(c) ==> (built matches Ok(q) && carries(
                    q,
                    m,
                    room,
                    txn_id,
                    c,
                    session,
                ))
            }
            &&& m.crypto.session_of(room) is None ==> match sealed.fresh_session {
                Err(e) => after == m && built == Err::<RequestModel, ErrorModel>(crypto_fault(e)),
                Ok(session) => {
                    &&& after.crypto.session_of(room) == Some(session)
                    &&& sealed.ciphertext matches Ok(c) ==> (built matches Ok(q) && carries(
                        q,
                        m,
                        room,
                        txn_id,
                        c,
                        session,
                    ))
                },
            }
            &&& sealed.ciphertext is Err ==> built is Err
        }),
{
    if let Ok(session) = sealed.fresh_session {
        law_a_new_session_is_the_rooms(m.crypto, room, session, other);
        if let Ok(c) = sealed.ciphertext {
            law_events_are_put_into_their_room(m, room, txn_id, encrypted_body(c, session));
        }
    }
    if let Some(session) = m.crypto.session_of(room) {
        if let Ok(c) = sealed.ciphertext {
            law_events_are_put_into_their_room(m, room, txn_id, encrypted_body(c, session));
        }
    }
}

/// Law: a failure of the cipher is told as such, with what failed.
pub proof fn law_cipher_failures_are_named()
    ensures
        crypto_fault(CryptoError::EntropyUnavailable) == (ErrorModel::ServerError {
            status: 0,
            errcode: "M_CRYPTO_ERROR"@,
            message: "entropy unavailable"@,
        }),
        crypto_fault(CryptoError::EmptyPlaintext) == (ErrorModel::ServerError {
            status: 0,
            errcode: "M_CRYPTO_ERROR"@,
            message: "empty plaintext"@,
        }),
        crypto_fault(CryptoError::EncryptionFailed) == (ErrorModel::ServerError {
            status: 0,
            errcode: "M_CRYPTO_ERROR"@,
            message: "encryption failed"@,
        }),
{
}

/// Law: a flush builds a request for each message of the outbox, in order, with what the cipher
/// gave for it.
pub proof fn law_the_outbox_is_flushed_in_order(m: ClientModel, sealed: Seq<SealedModel>, n: nat)
    requires
        n < m.outbox.len(),
    ensures
        ({
            let (before, results) = m.after_flush(sealed, n);
            let (after, more) = m.after_flush(sealed, n + 1);
            let p = m.outbox[n as int];
            let step = before.after_megolm(p.room_id, p.txn_id, sealed[n as int]);
            &&& after == step.0
            &&& more.drop_last() == results
            &&& more.last() == match step.1 {
                Ok(q) => Ok::<(RequestModel, int), ErrorModel>((q, p.txn_id)),
                Err(e) => Err(e),
            }
        }),
        m.after_flush(sealed, 0) == (m, Seq::<Result<(RequestModel, int), ErrorModel>>::empty()),
{
    let more = m.after_flush(sealed, n + 1).1;
    assert(more.drop_last() =~= m.after_flush(sealed, n).1);
}

// ---------------------------------------------------------------------------
// Answers
// ---------------------------------------------------------------------------

/// Law: the answer to a message is its event ID, wherever the server took it and named one.
pub proof fn law_a_taken_message_has_its_event_id(
    response: ResponseModel,
    root: JsonModel,
    id: Seq<char>,
)
    requires
        200 <= response.status <= 299,
        valid_utf8(response.body),
        document(response.body) == Ok::<JsonModel, JsonError>(root),
    ensures
        has(root, "event_id"@, JsonModel::Text(id)) ==> sent_event(response) == Ok::<
            Seq<char>,
            ErrorModel,
        >(id),
        lacks(root, "event_id"@) ==> sent_event(response) == Err::<Seq<char>, ErrorModel>(
            ErrorModel::MissingSendResponse,
        ),
{
    law_fields_are_first_entries(root, "event_id"@, JsonModel::Text(id));
}

/// Law: an answer to a message that is no JSON is an error, and so is a status that is no
/// success, whatever the body says.
pub proof fn law_other_answers_are_errors(response: ResponseModel)
    ensures
        !(200 <= response.status <= 299) ==> sent_event(response) == Err::<Seq<char>, ErrorModel>(
            server_error(response),
        ),
        200 <= response.status <= 299 && !valid_utf8(response.body) ==> sent_event(response)
            == Err::<Seq<char>, ErrorModel>(ErrorModel::MissingSendResponse),
        200 <= response.status <= 299 && valid_utf8(response.body) ==> (document(
            response.body,
        ) matches Err(e) ==> sent_event(response) == Err::<Seq<char>, ErrorModel>(
            ErrorModel::Json(e),
        )),
{
}

/// Law: a refusal is told with its status and with the code and the words of the server; a code
/// or words that it left out are unknown.
pub proof fn law_refusals_are_told_as_the_server_said(
    response: ResponseModel,
    root: JsonModel,
    code: Seq<char>,
    words: Seq<char>,
)
    requires
        valid_utf8(response.body),
        document(response.body) == Ok::<JsonModel, JsonError>(root),
    ensures
        ({
            let coded = has(root, "errcode"@, JsonModel::Text(code));
            let uncoded = lacks(root, "errcode"@);
            let worded = has(root, "error"@, JsonModel::Text(words));
            let unworded = lacks(root, "error"@);
            &&& coded && worded ==> server_error(response) == (ErrorModel::ServerError {
                status: response.status,
                errcode: code,
                message: words,
            })
            &&& coded && unworded ==> server_error(response) == (ErrorModel::ServerError {
                status: response.status,
                errcode: code,
                message: "unknown error"@,
            })
            &&& uncoded && worded ==> server_error(response) == (ErrorModel::ServerError {
                status: response.status,
                errcode: "M_UNKNOWN"@,
                message: words,
            })
            &&& uncoded && unworded ==> server_error(response) == (ErrorModel::ServerError {
                status: response.status,
                errcode: "M_UNKNOWN"@,
                message: "unknown error"@,
            })
        }),
{
    law_fields_are_first_entries(root, "errcode"@, JsonModel::Text(code));
    law_fields_are_first_entries(root, "error"@, JsonModel::Text(words));
}

/// Law: a refusal that is no JSON is told by its text, cut between two characters to at most
/// 512 bytes; one that is empty or no text has no words of its own.
pub proof fn law_refusals_without_json_are_told_by_their_text(response: ResponseModel, text: Seq<char>)
    requires
        !valid_utf8(response.body) || document(response.body) is Err,
    ensures
        ({
            let e = server_error(response);
            &&& e is ServerError && e->status == response.status && e->errcode == "M_UNKNOWN"@
            &&& !valid_utf8(response.body) || response.body.len() == 0 ==> e->ServerError_message
                == "non-JSON error response"@
            &&& response.body == encode_utf8(text) && 0 < response.body.len() <= 512
                ==> e->ServerError_message == text
            &&& valid_utf8(response.body) && response.body.len() > 512 ==> exists|n: int|
                0 <= n <= 512 && #[trigger] cuts_cleanly(response.body, n) && (forall|k: int|
                    n < k <= 512 ==> !#[trigger] cuts_cleanly(response.body, k))
                    && e->ServerError_message == decode_utf8(response.body.take(n))
        }),
{
    let b = response.body;
    if b == encode_utf8(text) && 0 < b.len() <= 512 {
        encode_utf8_valid_utf8(text);
        encode_utf8_decode_utf8(text);
        law_clean_cut_is_the_largest(b, b.len() as int);
        assert(cuts_cleanly(b, b.len() as int));
        assert(b.take(b.len() as int) =~= b);
    }
    if valid_utf8(b) && b.len() > 512 {
        law_clean_cut_is_the_largest(b, 512);
        assert(cuts_cleanly(b, clean_prefix_len(b, 512)));
    }
}

/// Law: every error says what went wrong.
pub proof fn law_errors_say_what_went_wrong(
    status: int,
    code: Seq<char>,
    words: Seq<char>,
    e: JsonError,
)
    ensures
        (ErrorModel::ServerError { status, errcode: code, message: words }).message()
            == "server error "@ + ascii(decimal(status as nat)) + ": "@ + code + " — "@ + words,
        ErrorModel::MalformedSync.message() == "malformed sync response"@,
        ErrorModel::RoomNotFound.message() == "room not found"@,
        ErrorModel::MissingSendResponse.message() == "send response missing event_id"@,
        ErrorModel::SyncDisabled.message() == "sync disabled in current security mode"@,
        ErrorModel::RoomCapacityReached.message() == "room capacity reached"@,
        ErrorModel::OutboxFull.message() == "outbox capacity reached"@,
        ErrorModel::Json(e).message() == "JSON error: "@ + e.message(),
{
}

// ---------------------------------------------------------------------------
// The client
// ---------------------------------------------------------------------------

/// Law: a new client has its identity, no rooms, no messages, no batch, and starts with the
/// first transaction number.
pub proof fn law_a_new_client_starts_from_nothing(
    homeserver: Seq<char>,
    user: Seq<char>,
    device: Seq<char>,
    token: Seq<char>,
    crypto: CryptoModel,
)
    ensures
        ({
            let m = ClientModel::fresh(homeserver, user, device, token, crypto);
            &&& m.homeserver == homeserver && m.user_id == user && m.device_id == device
            &&& m.access_token == token && m.crypto == crypto
            &&& m.sync_token is None && m.rooms.len() == 0 && m.outbox.len() == 0
            &&& m.next_txn_id == 1 && m.last_sync_tick == 0
        }),
{
}

/// Law: a new room has its identity and its name, and nothing to read.
pub proof fn law_a_new_room_has_nothing_to_read(id: Seq<char>, name: Seq<char>, is_dm: bool)
    ensures
        ({
            let r = RoomModel::fresh(id, name, is_dm);
            r.room_id == id && r.display_name == name && r.is_dm == is_dm && r.messages.len() == 0
                && r.unread_count == 0
        }),
{
}

/// Law: a batch token of visible ASCII characters can stand in a request, and one with a space,
/// a control character or a delete anywhere cannot.
pub proof fn law_tokens_have_no_space(a: Seq<char>, c: char, b: Seq<char>, visible: Seq<u8>)
    ensures
        c as u32 <= 0x20 || c as u32 == 0x7F ==> !token_is_safe(a + seq![c] + b),
        (forall|i: int| 0 <= i < visible.len() ==> 0x20 < #[trigger] visible[i] < 0x7F)
            ==> token_is_safe(ascii(visible)),
{
    if c as u32 <= 0x20 || c as u32 == 0x7F {
        lemma_encode_concat(a + seq![c], b);
        lemma_encode_concat(a, seq![c]);
        let one = seq![c as u8];
        assert(ascii(one) =~= seq![c]);
        lemma_encode_ascii(one);
        let e = encode_utf8(a + seq![c] + b);
        assert(e =~= encode_utf8(a) + one + encode_utf8(b));
        assert(e[encode_utf8(a).len() as int] == c as u8);
    }
    if forall|i: int| 0 <= i < visible.len() ==> 0x20 < #[trigger] visible[i] < 0x7F {
        lemma_encode_ascii(visible);
    }
}

/// Law: hexadecimal digits in pairs are bytes, the high half first; an odd number of them and
/// any other byte among them are refused.
pub proof fn law_only_hexadecimal_pairs_are_bytes(s: Seq<u8>, i: int, high: int, low: int)
    ensures
        s.len() % 2 == 1 ==> hex_bytes(s) is None,
        0 <= i < s.len() && (forall|v: int| !is_hex(s[i], v)) ==> hex_bytes(s) is None,
        hex_bytes(s) matches Some(b) ==> {
            &&& s.len() == 2 * b.len()
            &&& 0 <= i < b.len() && is_hex(s[2 * i], high) && is_hex(s[2 * i + 1], low) ==> b[i]
                == 16 * high + low
        },
        s.len() % 2 == 0 && (forall|k: int|
            0 <= k < s.len() ==> is_hex_digit(#[trigger] s[k])) ==> hex_bytes(s) is Some,
{
    if 0 <= i < s.len() && (forall|v: int| !is_hex(s[i], v)) {
        let b = s[i];
        assert(!is_hex(b, b - 0x30) && !is_hex(b, b - 0x41 + 10) && !is_hex(b, b - 0x61 + 10));
        assert(hex_value(s[i]) is None);
    }
}

/// Whether a byte is a hexadecimal digit in either case.
pub open spec fn is_hex_digit(b: u8) -> bool {
    let c = b as char;
    '0' <= c <= '9' || 'a' <= c <= 'f' || 'A' <= c <= 'F'
}

} // verus!
