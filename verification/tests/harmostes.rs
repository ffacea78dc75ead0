//! Matrix client.
use thumos::harmostes::{
    hex_decode_32_bytes, hex_decode_bytes, hex_encode_bytes, parse_error_response, push_u32,
    push_u64, MatrixClient, MatrixError, MatrixMessage, Room, MAX_ERROR_BODY_LEN,
    MAX_MESSAGES_PER_ROOM, MAX_OUTBOX_MESSAGES, MAX_ROOMS, SYNC_INTERVAL_ACTIVE_MS,
    SYNC_INTERVAL_IDLE_MS, TXN_ID_START,
};
use thumos::http_client::{HttpError, HttpMethod, HttpRequest, HttpResponse};
use thumos::json_mini::{JsonError, JsonWriter};
use thumos::matrix_crypto::{CryptoError, MatrixCrypto, OpenedEvent, SealRequest, SealedMessage};
use thumos::matrix_ids::{MatrixEventId, MatrixIdError, MatrixRoomId};
use thumos::security_mode::SecurityMode;

fn build_sync_response(
    next_batch: &str,
    room_id: &str,
    events: &[(&str, &str, &str, i64)],
) -> String {
    let mut w = JsonWriter::new();
    w.object_start();

    w.key("next_batch");
    w.string_value(next_batch);

    w.key("rooms");
    w.object_start();

    w.key("join");
    w.object_start();

    w.key(room_id);
    w.object_start();

    w.key("timeline");
    w.object_start();

    w.key("events");
    w.array_start();

    for (event_id, sender, body, ts) in events {
        w.object_start();
        w.key("type");
        w.string_value("m.room.message");
        w.key("event_id");
        w.string_value(event_id);
        w.key("sender");
        w.string_value(sender);
        w.key("origin_server_ts");
        w.number_value(*ts);
        w.key("content");
        w.object_start();
        w.key("msgtype");
        w.string_value("m.text");
        w.key("body");
        w.string_value(body);
        w.end();
        w.end();
    }

    w.end();
    w.end();
    w.end();
    w.end();
    w.end();
    w.end();

    w.finish()
}

fn mock_response(status: u16, body: &str) -> HttpResponse {
    HttpResponse {
        status,
        headers: Vec::new(),
        body: body.as_bytes().to_vec(),
        consumed: 0,
    }
}

fn matrix_client_with_test_credentials() -> MatrixClient {
    MatrixClient::new(
        "matrix.example.com",
        "@cody:matrix.example.com",
        "TESTDEVICE",
        "syt_test_token",
        Ok(MatrixCrypto::new()),
    )
    .expect("encryption state is there")
}

/// A stand-in for the cipher: what is sealed is not the plaintext.
fn seal(request: &SealRequest) -> SealedMessage {
    SealedMessage {
        fresh_session: Ok([0x42; 32]),
        ciphertext: if request.plaintext.is_empty() {
            Err(CryptoError::EmptyPlaintext)
        } else {
            Ok(request.plaintext.iter().map(|b| b ^ 0x5A).collect())
        },
    }
}

/// One message, sealed.
fn seal_one(client: &MatrixClient, room_id: &str, body: &str) -> SealedMessage {
    seal(&client.seal_request(room_id, body))
}

/// Everything in the outbox, sealed.
fn seal_outbox(client: &MatrixClient) -> Vec<SealedMessage> {
    client.to_seal().iter().map(seal).collect()
}

#[test]
fn new_client_has_empty_rooms() {
    let client = matrix_client_with_test_credentials();
    assert!(client.rooms().is_empty());
    assert!(client.outbox().is_empty());
    assert!(client.sync_token().is_none());
    assert_eq!(client.homeserver(), "matrix.example.com");
    assert_eq!(client.user_id(), "@cody:matrix.example.com");
    assert_eq!(client.device_id(), "TESTDEVICE");
}

#[test]
fn sync_response_adds_messages() {
    let mut client = matrix_client_with_test_credentials();
    let room_id = "!test:matrix.example.com";

    let sync_json = build_sync_response(
        "batch_2",
        room_id,
        &[
            (
                "$evt1",
                "@alice:matrix.example.com",
                "hello",
                1_700_000_001_000,
            ),
            (
                "$evt2",
                "@bob:matrix.example.com",
                "world",
                1_700_000_002_000,
            ),
        ],
    );

    let response = mock_response(200, &sync_json);
    let result = client.sync(&response, 100);
    assert!(result.is_ok());

    assert_eq!(client.sync_token(), Some("batch_2"));
    assert_eq!(client.rooms().len(), 1);

    let room = &client.rooms()[0];
    assert_eq!(room.room_id.as_str(), room_id);
    assert_eq!(room.messages.len(), 2);
    assert_eq!(room.messages[0].body, "hello");
    assert_eq!(room.messages[0].sender, "@alice:matrix.example.com");
    assert_eq!(room.messages[1].body, "world");
    assert_eq!(room.unread_count, 2);
}

#[test]
fn mark_room_read_resets_unread_count() {
    let mut client = matrix_client_with_test_credentials();
    let room_id = "!test:matrix.example.com";

    let sync_json = build_sync_response(
        "batch_2",
        room_id,
        &[(
            "$evt1",
            "@alice:matrix.example.com",
            "hello",
            1_700_000_001_000,
        )],
    );
    let response = mock_response(200, &sync_json);
    let _ = client.sync(&response, 100);

    assert_eq!(client.rooms()[0].unread_count, 1);
    assert!(
        client.mark_room_read(room_id),
        "must find and reset a tracked room"
    );
    assert_eq!(client.rooms()[0].unread_count, 0);

    assert!(
        !client.mark_room_read("!nonexistent:example.com"),
        "marking an untracked room read must return false"
    );
}

#[test]
fn sync_over_capacity_room_advances_token_and_signals_drop() {
    let mut client = matrix_client_with_test_credentials();
    for i in 0..MAX_ROOMS {
        let rid = format!("!room{i}:matrix.example.com");
        assert!(
            client.find_or_create_room(&rid).is_ok(),
            "filling below MAX_ROOMS must succeed"
        );
    }
    assert_eq!(client.rooms().len(), MAX_ROOMS);

    let sync_json = build_sync_response(
        "batch_over",
        "!overflow:matrix.example.com",
        &[(
            "$e1",
            "@a:matrix.example.com",
            "would this be lost?",
            1_700_000_001_000,
        )],
    );
    let response = mock_response(200, &sync_json);
    let result = client.sync(&response, 100);

    assert!(
        result.is_ok(),
        "an over-capacity room must not fail the whole sync"
    );
    assert_eq!(
        client.sync_token(),
        Some("batch_over"),
        "the sync token must advance safely after a capacity skip"
    );
    let dropped = result.map(|r| r.rooms_over_capacity).unwrap_or(0);
    assert_eq!(
        dropped, 1,
        "the dropped over-capacity room must be signaled"
    );
    assert_eq!(
        client.rooms().len(),
        MAX_ROOMS,
        "no room may be added beyond MAX_ROOMS"
    );
}

#[test]
fn send_message_builds_correct_request() {
    let mut client = matrix_client_with_test_credentials();
    let room_id = "!room:matrix.example.com";

    let result = client.build_send_request(room_id, "test message");
    assert!(result.is_ok());

    let (req, txn_id) = result.ok().unwrap_or_else(|| {
        let r = HttpRequest::new(HttpMethod::Get, String::new(), String::new());
        (r, 0)
    });

    assert_eq!(txn_id, TXN_ID_START);

    assert!(req.path.contains(room_id));
    assert!(req.path.contains("/send/m.room.message/"));

    let has_auth = req
        .headers
        .iter()
        .any(|(k, v)| k == "Authorization" && v.contains("Bearer"));
    assert!(has_auth);

    let body_bytes = req.body.as_ref().map(|b| b.as_slice()).unwrap_or(&[]);
    let body_str = core::str::from_utf8(body_bytes).unwrap_or("");
    assert!(body_str.contains("m.text"));
    assert!(body_str.contains("test message"));
}

#[test]
fn outbox_queues_when_offline() {
    let mut client = matrix_client_with_test_credentials();

    let _ = client.queue_message("!room1:example.com", "msg1");
    let _ = client.queue_message("!room2:example.com", "msg2");

    assert_eq!(client.outbox().len(), 2);
    assert_eq!(client.outbox()[0].room_id.as_str(), "!room1:example.com");
    assert_eq!(client.outbox()[0].body, "msg1");
    assert_eq!(client.outbox()[1].room_id.as_str(), "!room2:example.com");
    assert_eq!(client.outbox()[1].body, "msg2");

    assert!(client.outbox()[0].txn_id < client.outbox()[1].txn_id);
}

#[test]
fn queue_message_rejects_beyond_outbox_cap() {
    let mut client = matrix_client_with_test_credentials();

    for _ in 0..MAX_OUTBOX_MESSAGES {
        assert!(
            client.queue_message("!room:example.com", "msg").is_ok(),
            "queueing up to the cap must succeed"
        );
    }
    assert_eq!(client.outbox().len(), MAX_OUTBOX_MESSAGES);

    let result = client.queue_message("!overflow:example.com", "msg");
    assert_eq!(result, Err(MatrixError::OutboxFull));
    assert_eq!(
        client.outbox().len(),
        MAX_OUTBOX_MESSAGES,
        "outbox must not grow past the cap"
    );
}

#[test]
fn send_message_rejects_when_outbox_full() {
    let mut client = matrix_client_with_test_credentials();
    for _ in 0..MAX_OUTBOX_MESSAGES {
        assert!(client.queue_message("!room:example.com", "msg").is_ok());
    }

    let result = client.send_message("!room:example.com", "one more");
    assert!(
        matches!(result, Err(MatrixError::OutboxFull)),
        "send_message must reject when the outbox is already full"
    );
}

#[test]
fn flush_outbox_attempts_all() {
    let mut client = matrix_client_with_test_credentials();

    let _ = client.queue_message("!room1:example.com", "msg1");
    let _ = client.queue_message("!room2:example.com", "msg2");
    let _ = client.queue_message("!room3:example.com", "msg3");

    let sealed = seal_outbox(&client);
    let results = client.flush_outbox(&sealed);

    assert_eq!(results.len(), 3);
    for result in &results {
        assert!(result.is_ok());
    }

    assert_eq!(client.outbox().len(), 3);

    let first_txn = client.outbox()[0].txn_id;
    client.confirm_sent(first_txn);
    assert_eq!(client.outbox().len(), 2);
}

#[test]
fn flush_outbox_preserves_message_identity_per_iteration() {
    let mut client = matrix_client_with_test_credentials();

    let _ = client.queue_message("!room1:example.com", "alpha");
    let _ = client.queue_message("!room2:example.com", "beta");
    let _ = client.queue_message("!room3:example.com", "gamma");

    let sealed = seal_outbox(&client);
    let results = client.flush_outbox(&sealed);
    let txn_ids: Vec<u32> = results
        .iter()
        .filter_map(|r| r.as_ref().ok().map(|(_, txn_id)| *txn_id))
        .collect();
    let outbox_txn_ids: Vec<u32> = client.outbox().iter().map(|m| m.txn_id).collect();

    assert_eq!(
        txn_ids, outbox_txn_ids,
        "each flush_outbox result must correspond to the outbox message at the same index, not a stale/cloned snapshot"
    );
}

#[test]
fn build_encrypted_send_request_produces_megolm_encrypted_request() {
    let mut client = matrix_client_with_test_credentials();
    let room_id = "!enc-room:matrix.example.com";

    let sealed = seal_one(&client, room_id, "secret message");
    let result = client.build_encrypted_send_request(room_id, &sealed);
    assert!(result.is_ok(), "encrypted send request build must succeed");

    let (req, txn_id) = result.ok().unwrap_or_else(|| {
        let r = HttpRequest::new(HttpMethod::Get, String::new(), String::new());
        (r, 0)
    });

    assert_eq!(txn_id, TXN_ID_START);
    assert!(req.path.contains(room_id));
    assert!(
        req.path.contains("/send/m.room.encrypted/"),
        "encrypted send must PUT to the m.room.encrypted path, got {}",
        req.path
    );

    let body_bytes = req.body.as_ref().map(|b| b.as_slice()).unwrap_or(&[]);
    let body_str = core::str::from_utf8(body_bytes).unwrap_or("");
    assert!(
        body_str.contains("\"ciphertext\""),
        "encrypted body must carry a ciphertext field, got {body_str}"
    );
    assert!(
        body_str.contains("m.megolm.v1.aes-sha2"),
        "encrypted body must declare the Megolm algorithm"
    );
    assert!(
        !body_str.contains("secret message"),
        "the plaintext body must never appear verbatim in the encrypted request"
    );
}

#[test]
fn build_encrypted_send_request_creates_outbound_session_when_none_exists() {
    let mut client = matrix_client_with_test_credentials();
    let room_id = "!fresh-room:matrix.example.com";

    assert!(
        client.crypto().find_outbound_megolm(room_id).is_none(),
        "no outbound session should exist before the first encrypted send"
    );

    let first = seal_one(&client, room_id, "first");
    assert!(
        client
            .build_encrypted_send_request(room_id, &first)
            .is_ok()
    );
    let session_id_after_first = client
        .crypto()
        .find_outbound_megolm(room_id)
        .map(|s| s.session_id);
    assert!(
        session_id_after_first.is_some(),
        "an outbound session must exist after the first encrypted send"
    );

    let second = seal_one(&client, room_id, "second");
    assert!(
        client
            .build_encrypted_send_request(room_id, &second)
            .is_ok()
    );
    let session_id_after_second = client
        .crypto()
        .find_outbound_megolm(room_id)
        .map(|s| s.session_id);
    assert_eq!(
        session_id_after_first, session_id_after_second,
        "a second encrypted send for the same room must reuse the existing session"
    );
}

#[test]
fn build_encrypted_send_request_propagates_crypto_failure_without_panicking() {
    let mut client = matrix_client_with_test_credentials();
    let room_id = "!empty-body-room:matrix.example.com";

    let sealed = seal_one(&client, room_id, "");
    let result = client.build_encrypted_send_request(room_id, &sealed);
    assert!(
        matches!(result, Err(MatrixError::ServerError { .. })),
        "empty-plaintext crypto failure must surface as MatrixError::ServerError, got {result:?}"
    );
}

#[test]
fn should_sync_respects_interval() {
    let mut client = matrix_client_with_test_credentials();

    assert!(client.should_sync(0));
    assert!(client.should_sync(100));

    client.update_sync_cadence(SecurityMode::Daily, false);
    client.last_sync_tick = 1000;

    assert!(!client.should_sync(2000));

    assert!(client.should_sync(7000));

    assert!(client.should_sync(10_000));

    client.update_sync_cadence(SecurityMode::Sentinel, true);
    assert!(!client.should_sync(u64::MAX - 1));

    client.update_sync_cadence(SecurityMode::Panic, false);
    assert!(!client.should_sync(u64::MAX - 1));

    client.update_sync_cadence(SecurityMode::Daily, true);
    assert!(client.should_sync(0));
}

#[test]
fn room_messages_returns_correct_room() {
    let mut client = matrix_client_with_test_credentials();

    let room1 = "!room1:example.com";
    let room2 = "!room2:example.com";

    let mut w = JsonWriter::new();
    w.object_start();
    w.key("next_batch");
    w.string_value("batch_1");
    w.key("rooms");
    w.object_start();
    w.key("join");
    w.object_start();

    w.key(room1);
    w.object_start();
    w.key("timeline");
    w.object_start();
    w.key("events");
    w.array_start();
    w.object_start();
    w.key("type");
    w.string_value("m.room.message");
    w.key("event_id");
    w.string_value("$r1e1");
    w.key("sender");
    w.string_value("@alice:example.com");
    w.key("origin_server_ts");
    w.number_value(1000);
    w.key("content");
    w.object_start();
    w.key("msgtype");
    w.string_value("m.text");
    w.key("body");
    w.string_value("room1 msg");
    w.end();
    w.end();
    w.end();
    w.end();
    w.end();

    w.key(room2);
    w.object_start();
    w.key("timeline");
    w.object_start();
    w.key("events");
    w.array_start();
    w.object_start();
    w.key("type");
    w.string_value("m.room.message");
    w.key("event_id");
    w.string_value("$r2e1");
    w.key("sender");
    w.string_value("@bob:example.com");
    w.key("origin_server_ts");
    w.number_value(2000);
    w.key("content");
    w.object_start();
    w.key("msgtype");
    w.string_value("m.text");
    w.key("body");
    w.string_value("room2 msg");
    w.end();
    w.end();
    w.end();
    w.end();
    w.end();

    w.end();
    w.end();
    w.end();

    let response = mock_response(200, &w.finish());
    let sync_result = client.sync(&response, 0);
    assert!(sync_result.is_ok());

    let r1_msgs = client.room_messages(room1);
    assert!(r1_msgs.is_some());
    let r1_msgs = r1_msgs.unwrap_or(&[]);
    assert_eq!(r1_msgs.len(), 1);
    assert_eq!(r1_msgs[0].body, "room1 msg");

    let r2_msgs = client.room_messages(room2);
    assert!(r2_msgs.is_some());
    let r2_msgs = r2_msgs.unwrap_or(&[]);
    assert_eq!(r2_msgs.len(), 1);
    assert_eq!(r2_msgs[0].body, "room2 msg");

    assert!(client.room_messages("!nope:example.com").is_none());
}

#[test]
fn join_room_builds_correct_request() {
    let client = matrix_client_with_test_credentials();
    let room_id = "!target:matrix.example.com";

    let result = client.build_join_request(room_id);
    assert!(result.is_ok());
    let req = result.ok().unwrap_or_else(|| {
        HttpRequest::new(HttpMethod::Get, String::new(), String::new())
    });

    assert!(req.path.contains("/join/"));
    assert!(req.path.contains(room_id));

    let has_auth = req
        .headers
        .iter()
        .any(|(k, v)| k == "Authorization" && v.contains("Bearer"));
    assert!(has_auth);
}

#[test]
fn join_room_rejects_crlf_injected_room_id() {
    let client = matrix_client_with_test_credentials();
    let malicious = "!room:example.com\r\nX-Injected: evil";

    let result = client.build_join_request(malicious);
    assert!(result.is_err());
}

#[test]
fn join_room_adds_to_room_list() {
    let mut client = matrix_client_with_test_credentials();
    let room_id = "!newroom:example.com";

    assert!(client.rooms().is_empty());

    let response = mock_response(200, "{\"room_id\":\"!newroom:example.com\"}");
    let result = client.process_join_response(room_id, &response);
    assert!(result.is_ok());

    assert_eq!(client.rooms().len(), 1);
    assert_eq!(client.rooms()[0].room_id.as_str(), room_id);

    let result = client.process_join_response(room_id, &response);
    assert!(result.is_ok());
    assert_eq!(client.rooms().len(), 1);
}

#[test]
fn process_join_response_rejects_beyond_max_rooms() {
    let mut client = matrix_client_with_test_credentials();
    let response = mock_response(200, "{}");

    for i in 0..MAX_ROOMS {
        let mut room_id = String::from("!room");
        push_u32(&mut room_id, i as u32);
        room_id.push_str(":example.com");
        let result = client.process_join_response(&room_id, &response);
        assert!(result.is_ok());
    }
    assert_eq!(client.rooms().len(), MAX_ROOMS);

    let result = client.process_join_response("!overflow:example.com", &response);
    assert_eq!(result.err(), Some(MatrixError::RoomCapacityReached));
    assert_eq!(client.rooms().len(), MAX_ROOMS);
}

#[test]
fn server_error_parsed_correctly() {
    let mut client = matrix_client_with_test_credentials();

    let error_body = r#"{"errcode":"M_FORBIDDEN","error":"You are not allowed"}"#;
    let response = mock_response(403, error_body);

    let result = client.sync(&response, 0);
    assert!(result.is_err());

    match result {
        Err(MatrixError::ServerError {
            status,
            errcode,
            message,
        }) => {
            assert_eq!(status, 403);
            assert_eq!(errcode, "M_FORBIDDEN");
            assert_eq!(message, "You are not allowed");
        }
        other => {
            assert!(false, "expected ServerError, got {other:?}");
        }
    }
}

#[test]
fn parse_error_response_preserves_non_json_body_text() {
    let response = mock_response(502, "upstream timeout: gateway unavailable");
    let err = parse_error_response(&response);
    match err {
        MatrixError::ServerError { message, .. } => {
            assert!(
                message.contains("upstream timeout"),
                "raw non-JSON body text must be preserved, got: {message}"
            );
        }
        other => assert!(false, "expected ServerError, got {other:?}"),
    }
}

#[test]
fn parse_error_response_truncates_oversized_non_json_body() {
    let huge_body = "x".repeat(MAX_ERROR_BODY_LEN * 2);
    let response = mock_response(500, &huge_body);
    let err = parse_error_response(&response);
    match err {
        MatrixError::ServerError { message, .. } => {
            assert!(
                message.len() <= MAX_ERROR_BODY_LEN,
                "surfaced error body must be bounded, got {} bytes",
                message.len()
            );
        }
        other => assert!(false, "expected ServerError, got {other:?}"),
    }
}

#[test]
fn sync_disabled_in_sentinel_mode() {
    let mut client = matrix_client_with_test_credentials();
    client.update_sync_cadence(SecurityMode::Sentinel, false);

    let result = client.build_sync_request();
    assert!(result.is_err());
    assert_eq!(result.err(), Some(MatrixError::SyncDisabled));
}

#[test]
fn build_sync_request_rejects_crlf_in_sync_token() {
    let mut client = matrix_client_with_test_credentials();
    let body = build_sync_response("evil\r\nX-Injected: 1", "!room:example.com", &[]);
    let response = mock_response(200, &body);

    let result = client.sync(&response, 0);
    assert!(result.is_ok());

    let result = client.build_sync_request();
    assert_eq!(result.err(), Some(MatrixError::MalformedSync));
}

#[test]
fn process_send_response_extracts_event_id() {
    let client = matrix_client_with_test_credentials();

    let response = mock_response(200, r#"{"event_id":"$sent123"}"#);
    let result = client.process_send_response(&response);
    assert!(result.is_ok());
    assert_eq!(result.ok(), Some(String::from("$sent123")));
}

#[test]
fn build_sync_request_includes_since_param_when_token_set() {
    let mut client = matrix_client_with_test_credentials();
    assert!(client.sync_token().is_none());

    let body = build_sync_response("tok_abc123", "!room:example.com", &[]);
    let response = mock_response(200, &body);
    let result = client.sync(&response, 0);
    assert!(result.is_ok());
    assert_eq!(client.sync_token(), Some("tok_abc123"));

    let result = client.build_sync_request();
    assert!(result.is_ok());
    let req = result.ok().unwrap_or_else(|| {
        HttpRequest::new(HttpMethod::Get, String::new(), String::new())
    });
    assert!(req.path.contains("&since=tok_abc123"));
}

#[test]
fn push_u64_formatting() {
    let mut s = String::new();
    push_u64(&mut s, 0);
    assert_eq!(s, "0");

    let mut s = String::new();
    push_u64(&mut s, 30000);
    assert_eq!(s, "30000");

    let mut s = String::new();
    push_u64(&mut s, 1);
    assert_eq!(s, "1");

    let mut s = String::new();
    push_u64(&mut s, 999_999_999);
    assert_eq!(s, "999999999");
}

#[test]
fn update_sync_cadence_modes() {
    let mut client = matrix_client_with_test_credentials();

    client.update_sync_cadence(SecurityMode::Daily, true);
    assert_eq!(client.sync_interval_ms, SYNC_INTERVAL_ACTIVE_MS);

    client.update_sync_cadence(SecurityMode::Daily, false);
    assert_eq!(client.sync_interval_ms, SYNC_INTERVAL_IDLE_MS);

    client.update_sync_cadence(SecurityMode::Sentinel, true);
    assert_eq!(client.sync_interval_ms, u64::MAX);

    client.update_sync_cadence(SecurityMode::Panic, false);
    assert_eq!(client.sync_interval_ms, u64::MAX);
}

#[test]
fn encrypted_event_shows_placeholder() {
    let mut client = matrix_client_with_test_credentials();
    let room_id = "!enc:example.com";

    let mut w = JsonWriter::new();
    w.object_start();
    w.key("next_batch");
    w.string_value("batch_enc");
    w.key("rooms");
    w.object_start();
    w.key("join");
    w.object_start();
    w.key(room_id);
    w.object_start();
    w.key("timeline");
    w.object_start();
    w.key("events");
    w.array_start();
    w.object_start();
    w.key("type");
    w.string_value("m.room.encrypted");
    w.key("event_id");
    w.string_value("$enc1");
    w.key("sender");
    w.string_value("@secret:example.com");
    w.key("origin_server_ts");
    w.number_value(5000);
    w.key("content");
    w.object_start();
    w.key("algorithm");
    w.string_value("m.megolm.v1.aes-sha2");
    w.key("ciphertext");
    w.string_value("base64data");
    w.end();
    w.end();
    w.end();
    w.end();
    w.end();
    w.end();
    w.end();
    w.end();

    let response = mock_response(200, &w.finish());
    let result = client.sync(&response, 0);
    assert!(result.is_ok());

    let msgs = client.room_messages(room_id).unwrap_or(&[]);
    assert_eq!(msgs.len(), 1);
    assert_eq!(msgs[0].body, "[encrypted]");
    assert!(msgs[0].encrypted);
}

#[test]
fn message_cache_evicts_oldest() {
    let mut room = Room::new("!evict:example.com", String::from("Test Room"), false)
        .expect("valid test room id");

    for i in 0..MAX_MESSAGES_PER_ROOM {
        room.add_message(MatrixMessage {
            event_id: {
                let mut id = String::from("$msg");
                push_u32(&mut id, i as u32);
                MatrixEventId::new(&id).expect("valid test event id")
            },
            sender: String::from("@test:example.com"),
            body: String::from("msg"),
            timestamp: i as u64,
            encrypted: false,
        });
    }
    assert_eq!(room.messages.len(), MAX_MESSAGES_PER_ROOM);

    room.add_message(MatrixMessage {
        event_id: MatrixEventId::new("$new").expect("valid test event id"),
        sender: String::from("@test:example.com"),
        body: String::from("newest"),
        timestamp: MAX_MESSAGES_PER_ROOM as u64,
        encrypted: false,
    });

    assert_eq!(room.messages.len(), MAX_MESSAGES_PER_ROOM);
    assert_eq!(room.messages[0].event_id.as_str(), "$msg1");
    assert_eq!(room.messages[MAX_MESSAGES_PER_ROOM - 1].event_id.as_str(), "$new");
}

#[test]
fn hex_decode_bytes_decodes_valid_input() {
    assert_eq!(
        hex_decode_bytes("00ff10").as_deref(),
        Some(&[0x00u8, 0xff, 0x10][..])
    );
    assert_eq!(hex_decode_bytes("").as_deref(), Some(&[][..]));
}

#[test]
fn hex_decode_bytes_rejects_odd_length() {
    assert_eq!(hex_decode_bytes("abc"), None);
}

#[test]
fn hex_decode_bytes_rejects_non_hex_char() {
    assert_eq!(hex_decode_bytes("zz"), None);
}

#[test]
fn hex_decode_32_bytes_decodes_valid_input() {
    let hex = "ab".repeat(32);
    assert_eq!(hex_decode_32_bytes(&hex), Some([0xabu8; 32]));
}

#[test]
fn hex_decode_32_bytes_rejects_wrong_length() {
    assert_eq!(hex_decode_32_bytes("aabb"), None);
    assert_eq!(hex_decode_32_bytes(&"ab".repeat(33)), None);
}

#[test]
fn hex_decode_32_bytes_rejects_non_hex_char() {
    let bad = format!("zz{}", "aa".repeat(31));
    assert_eq!(hex_decode_32_bytes(&bad), None);
}

/// A sync response with one encrypted event.
fn encrypted_sync(room_id: &str, session: &str, ciphertext: &str) -> String {
    format!(
        "{{\"next_batch\":\"b\",\"rooms\":{{\"join\":{{\"{room_id}\":{{\"timeline\":{{\"events\":[\
         {{\"type\":\"m.room.encrypted\",\"event_id\":\"$e\",\"sender\":\"@a:b\",\
         \"origin_server_ts\":5,\"content\":{{\"algorithm\":\"m.megolm.v1.aes-sha2\",\
         \"session_id\":\"{session}\",\"ciphertext\":\"{ciphertext}\"}}}}]}}}}}}}}}}"
    )
}

#[test]
fn a_client_without_entropy_is_not_made() {
    let made = MatrixClient::new("h", "u", "d", "t", Err(CryptoError::EntropyUnavailable));
    assert!(matches!(made, Err(CryptoError::EntropyUnavailable)));
}

#[test]
fn an_opened_event_shows_its_text() {
    let room_id = "!enc:example.com";
    let session = "42".repeat(32);
    let mut client = matrix_client_with_test_credentials();
    client.crypto_mut().record_opened(OpenedEvent {
        session_id: [0x42; 32],
        ciphertext: vec![0xAB, 0xCD],
        room_id: String::from(room_id),
        plaintext: Some(b"{\"body\":\"hi there\"}".to_vec()),
    });
    let body = encrypted_sync(room_id, &session, "abcd");
    client
        .sync(&mock_response(200, &body), 7)
        .expect("a valid response");
    let messages = client.room_messages(room_id).expect("the room");
    assert_eq!(messages.len(), 1);
    assert!(messages[0].encrypted);
    assert_eq!(client.last_sync_tick, 7);
}

#[test]
fn unreadable_sync_responses_leave_the_token_alone() {
    let mut client = matrix_client_with_test_credentials();
    let good = build_sync_response("first", "!room:example.com", &[]);
    client.sync(&mock_response(200, &good), 1).expect("sync");
    assert_eq!(
        client.sync(&mock_response(200, "not json"), 2).err(),
        Some(MatrixError::Json(JsonError::InvalidLiteral))
    );
    assert_eq!(
        client.sync(&mock_response(200, "{}"), 3).err(),
        Some(MatrixError::MalformedSync)
    );
    assert_eq!(client.sync_token(), Some("first"));
}

#[test]
fn malformed_room_ids_in_a_response_are_counted() {
    let mut client = matrix_client_with_test_credentials();
    let body = build_sync_response("t", "no-sigil", &[("$e", "@a:b", "x", 1)]);
    let result = client.sync(&mock_response(200, &body), 0).expect("sync");
    assert_eq!(result.rooms_malformed, 1);
    assert_eq!(result.rooms_updated, 0);
    assert!(client.rooms().is_empty());
}

#[test]
fn a_send_response_without_an_event_id_is_an_error() {
    let client = matrix_client_with_test_credentials();
    assert_eq!(
        client.process_send_response(&mock_response(200, "{}")).err(),
        Some(MatrixError::MissingSendResponse)
    );
}

#[test]
fn transactions_are_confirmed_one_by_one() {
    let mut client = matrix_client_with_test_credentials();
    let (_, first) = client.send_message("!r:e", "one").expect("first");
    let (_, second) = client.send_message("!r:e", "two").expect("second");
    assert!(first < second);
    client.confirm_sent(first);
    assert_eq!(client.outbox().len(), 1);
    assert_eq!(client.outbox()[0].txn_id, second);
    client.confirm_sent(first);
    assert_eq!(client.outbox().len(), 1);
    assert_eq!(
        client.queue_message("bad", "x").err(),
        Some(MatrixError::InvalidId(MatrixIdError::MissingSigil))
    );
}

#[test]
fn a_failed_cipher_is_reported_per_message() {
    let mut client = matrix_client_with_test_credentials();
    client.queue_message("!r:e", "one").expect("queue");
    client.queue_message("!r:e", "two").expect("queue");
    let sealed = vec![
        SealedMessage {
            fresh_session: Err(CryptoError::EntropyUnavailable),
            ciphertext: Ok(vec![1]),
        },
        seal_one(&client, "!r:e", "two"),
    ];
    let results = client.flush_outbox(&sealed);
    assert!(matches!(
        &results[0],
        Err(MatrixError::ServerError { status: 0, errcode, .. }) if errcode == "M_CRYPTO_ERROR"
    ));
    assert!(results[1].is_ok());
    assert_eq!(client.outbox().len(), 2);
}

#[test]
fn identifiers_are_checked() {
    assert!(MatrixRoomId::new("!a:b").is_ok());
    assert_eq!(
        MatrixRoomId::new("a:b").err(),
        Some(MatrixIdError::MissingSigil)
    );
    assert_eq!(MatrixRoomId::new("!").err(), Some(MatrixIdError::Empty));
    assert_eq!(
        MatrixEventId::new("$a\nb").err(),
        Some(MatrixIdError::IllegalCharacter)
    );
}

#[test]
fn hex_round_trips() {
    let bytes: Vec<u8> = (0..=255).collect();
    let text = hex_encode_bytes(&bytes);
    assert!(text.starts_with("000102"));
    assert_eq!(hex_decode_bytes(&text), Some(bytes));
}

#[test]
fn matrix_errors_have_texts() {
    assert_eq!(
        MatrixError::Http(HttpError::Incomplete).to_string(),
        format!("HTTP error: {}", HttpError::Incomplete.to_string())
    );
    assert_eq!(MatrixError::RoomNotFound.to_string(), "room not found");
    assert_eq!(
        MatrixError::OutboxFull.to_string(),
        "outbox capacity reached"
    );
}

#[test]
fn the_cipher_is_given_what_was_queued() {
    let mut client = matrix_client_with_test_credentials();
    assert!(client.to_seal().is_empty());
    client.queue_message("!a:e", "h\u{e9}").expect("queue");
    client.queue_message("!b:e", "two").expect("queue");
    let requests = client.to_seal();
    assert_eq!(requests.len(), 2);
    assert_eq!(requests[0].room_id, "!a:e");
    assert_eq!(requests[0].plaintext, vec![0x68, 0xC3, 0xA9]);
    assert_eq!(requests[0].session, None);
    assert_eq!(requests[1].room_id, "!b:e");
    assert_eq!(requests[1].plaintext, b"two");

    let sealed = seal_outbox(&client);
    client.flush_outbox(&sealed);
    let again = client.to_seal();
    assert_eq!(again[0].session, Some([0x42; 32]), "the session of the first flush");

    let sealed: Vec<SealedMessage> = again
        .iter()
        .map(|q| SealedMessage { fresh_session: Ok([7; 32]), ..seal(q) })
        .collect();
    let results = client.flush_outbox(&sealed);
    let (request, _) = results[0].as_ref().expect("built");
    let body = String::from_utf8(request.body.clone().expect("body")).expect("text");
    assert!(body.contains(&"42".repeat(32)), "sent under the session that was given");
    assert!(body.contains("3299f3"), "with the ciphertext of its own bytes");
}
