//! Matrix client-server API client (harmostes).
//!
//! [`MatrixClient`] tracks rooms, the sync token and an outbound message queue.
//! Its methods build [`HttpRequest`]s and read [`HttpResponse`]s; the caller
//! owns the connection. How often it syncs follows the [`SecurityMode`]: in
//! Daily mode continuously with the screen on and every 60 s otherwise, in the
//! other modes never.
use crate::heorte::{clean_prefix_len, law_clean_cut_is_the_largest, utf8_truncate_len};
use crate::http_client::{
    auth_header, get, json_request, plain_request, post_json, put_json, with_auth, HttpError,
    HttpMethod, HttpRequest, HttpResponse, RequestModel, ResponseModel,
};
use crate::json_mini::{
    document, entries_model, hex_digit, hex_value, items_model, nibble_char, JsonError, JsonModel,
    JsonParser, JsonValue, JsonWriter, WriterContext, WriterModel,
};
use crate::json_laws::{law_writer_renders, render, written, written_entries};
use crate::matrix_crypto::{
    CryptoError, CryptoModel, MatrixCrypto, SealRequest, SealRequestModel, SealedMessage,
    SealedModel,
};
use crate::matrix_ids::{id_fault, MatrixEventId, MatrixIdError, MatrixRoomId};
use crate::security_mode::SecurityMode;
use crate::text::{ascii, copy_bytes, decimal, push_decimal, same_text, utf8_text};
use vstd::prelude::*;
use vstd::utf8::*;

verus! {

broadcast use vstd::string::group_string_axioms;

/// Long-poll timeout for sync requests (milliseconds).
pub const SYNC_LONG_POLL_MS: u64 = 30_000;

/// Sync interval for idle mode (milliseconds).
pub const SYNC_INTERVAL_IDLE_MS: u64 = 60_000;

/// Sync interval for active mode (continuous long-poll).
pub const SYNC_INTERVAL_ACTIVE_MS: u64 = 0;

/// Maximum number of rooms tracked in memory.
pub const MAX_ROOMS: usize = 150;

/// Maximum messages cached per room.
pub const MAX_MESSAGES_PER_ROOM: usize = 100;

/// Maximum number of pending messages held in the outbox.
pub const MAX_OUTBOX_MESSAGES: usize = 256;

/// Maximum bytes of a non-JSON server error body that are passed on.
pub const MAX_ERROR_BODY_LEN: usize = 512;

/// Transaction ID counter starting value.
pub const TXN_ID_START: u32 = 1;

// ---------------------------------------------------------------------------
// Errors
// ---------------------------------------------------------------------------

/// Errors from Matrix client operations.
#[derive(Debug, Clone, PartialEq, Eq)]
pub enum MatrixError {
    /// HTTP-level error from request building or response parsing.
    Http(HttpError),
    /// JSON parsing error from a response body.
    Json(JsonError),
    /// The homeserver returned a non-2xx status code.
    ServerError {
        /// HTTP status code.
        status: u16,
        /// Error code from the Matrix error response (e.g. `M_UNKNOWN`).
        errcode: String,
        /// Human-readable error message.
        message: String,
    },
    /// The sync response is missing expected fields.
    MalformedSync,
    /// The room was not found in the client's room list.
    RoomNotFound,
    /// The send response did not contain an event ID.
    MissingSendResponse,
    /// Sync is disabled in the current security mode.
    SyncDisabled,
    /// The room list has reached capacity.
    RoomCapacityReached,
    /// The outbox holds [`MAX_OUTBOX_MESSAGES`] pending messages.
    OutboxFull,
    /// A Matrix identifier (room/event) failed format validation.
    InvalidId(MatrixIdError),
}

/// What a [`MatrixError`] stands for.
pub enum ErrorModel {
    Http(HttpError),
    Json(JsonError),
    ServerError { status: int, errcode: Seq<char>, message: Seq<char> },
    MalformedSync,
    RoomNotFound,
    MissingSendResponse,
    SyncDisabled,
    RoomCapacityReached,
    OutboxFull,
    InvalidId(MatrixIdError),
}

impl View for MatrixError {
    type V = ErrorModel;

    open spec fn view(&self) -> ErrorModel {
        match self {
            MatrixError::Http(e) => ErrorModel::Http(*e),
            MatrixError::Json(e) => ErrorModel::Json(*e),
            MatrixError::ServerError { status, errcode, message } => ErrorModel::ServerError {
                status: *status as int,
                errcode: errcode@,
                message: message@,
            },
            MatrixError::MalformedSync => ErrorModel::MalformedSync,
            MatrixError::RoomNotFound => ErrorModel::RoomNotFound,
            MatrixError::MissingSendResponse => ErrorModel::MissingSendResponse,
            MatrixError::SyncDisabled => ErrorModel::SyncDisabled,
            MatrixError::RoomCapacityReached => ErrorModel::RoomCapacityReached,
            MatrixError::OutboxFull => ErrorModel::OutboxFull,
            MatrixError::InvalidId(e) => ErrorModel::InvalidId(*e),
        }
    }
}

impl ErrorModel {
    /// What the error is called in diagnostics.
    pub open spec fn message(self) -> Seq<char> {
        match self {
            ErrorModel::Http(e) => "HTTP error: "@ + e.message(),
            ErrorModel::Json(e) => "JSON error: "@ + e.message(),
            ErrorModel::ServerError { status, errcode, message } => "server error "@ + ascii(
                decimal(status as nat),
            ) + ": "@ + errcode + " — "@ + message,
            ErrorModel::MalformedSync => "malformed sync response"@,
            ErrorModel::RoomNotFound => "room not found"@,
            ErrorModel::MissingSendResponse => "send response missing event_id"@,
            ErrorModel::SyncDisabled => "sync disabled in current security mode"@,
            ErrorModel::RoomCapacityReached => "room capacity reached"@,
            ErrorModel::OutboxFull => "outbox capacity reached"@,
            ErrorModel::InvalidId(e) => "invalid Matrix identifier: "@ + e.message(),
        }
    }
}

impl MatrixError {
    /// The diagnostic text of the error.
    pub fn to_string(&self) -> (r: String)
        ensures
            r@ == self@.message(),
    {
        match self {
            MatrixError::Http(e) => joined("HTTP error: ", e.to_string().as_str()),
            MatrixError::Json(e) => joined("JSON error: ", e.to_string().as_str()),
            MatrixError::ServerError { status, errcode, message } => {
                let mut out = "server error ".to_owned();
                push_decimal(&mut out, *status as u64);
                out.append(": ");
                out.append(errcode.as_str());
                out.append(" — ");
                out.append(message.as_str());
                out
            },
            MatrixError::MalformedSync => "malformed sync response".to_owned(),
            MatrixError::RoomNotFound => "room not found".to_owned(),
            MatrixError::MissingSendResponse => "send response missing event_id".to_owned(),
            MatrixError::SyncDisabled => "sync disabled in current security mode".to_owned(),
            MatrixError::RoomCapacityReached => "room capacity reached".to_owned(),
            MatrixError::OutboxFull => "outbox capacity reached".to_owned(),
            MatrixError::InvalidId(e) => joined(
                "invalid Matrix identifier: ",
                e.to_string().as_str(),
            ),
        }
    }
}

/// Two texts after each other.
fn joined(a: &str, b: &str) -> (r: String)
    ensures
        r@ == a@ + b@,
{
    let mut out = a.to_owned();
    out.append(b);
    out
}

impl From<MatrixIdError> for MatrixError {
    fn from(e: MatrixIdError) -> Self {
        MatrixError::InvalidId(e)
    }
}

impl vstd::std_specs::convert::FromSpecImpl<MatrixIdError> for MatrixError {
    open spec fn obeys_from_spec() -> bool {
        true
    }

    open spec fn from_spec(e: MatrixIdError) -> Self {
        MatrixError::InvalidId(e)
    }
}

impl From<HttpError> for MatrixError {
    fn from(e: HttpError) -> Self {
        MatrixError::Http(e)
    }
}

impl vstd::std_specs::convert::FromSpecImpl<HttpError> for MatrixError {
    open spec fn obeys_from_spec() -> bool {
        true
    }

    open spec fn from_spec(e: HttpError) -> Self {
        MatrixError::Http(e)
    }
}

impl From<JsonError> for MatrixError {
    fn from(e: JsonError) -> Self {
        MatrixError::Json(e)
    }
}

impl vstd::std_specs::convert::FromSpecImpl<JsonError> for MatrixError {
    open spec fn obeys_from_spec() -> bool {
        true
    }

    open spec fn from_spec(e: JsonError) -> Self {
        MatrixError::Json(e)
    }
}

// ---------------------------------------------------------------------------
// Messages and rooms
// ---------------------------------------------------------------------------

/// A message received during sync.
#[derive(Debug, Clone, PartialEq, Eq)]
pub struct IncomingMessage {
    /// The room this message belongs to.
    pub room_id: MatrixRoomId,
    /// The Matrix event ID.
    pub event_id: MatrixEventId,
    /// The sender's Matrix user ID.
    pub sender: String,
    /// The message body (plaintext).
    pub body: String,
    /// Server timestamp (milliseconds since epoch).
    pub timestamp: u64,
    /// Whether the event was encrypted.
    pub encrypted: bool,
}

/// A single message event in a room's timeline.
#[derive(Debug, Clone, PartialEq, Eq)]
pub struct MatrixMessage {
    /// The Matrix event ID (e.g. `$event123`).
    pub event_id: MatrixEventId,
    /// The sender's Matrix user ID (e.g. `@user:server`).
    pub sender: String,
    /// The message body (plaintext).
    pub body: String,
    /// Server timestamp in milliseconds since epoch.
    pub timestamp: u64,
    /// Whether this message was end-to-end encrypted.
    pub encrypted: bool,
}

/// A Matrix room tracked by the client.
#[derive(Debug, Clone, PartialEq, Eq)]
pub struct Room {
    /// The Matrix room ID (e.g. `!abc123:matrix.example.com`).
    pub room_id: MatrixRoomId,
    /// Human-readable display name for the room.
    pub display_name: String,
    /// Whether this room is a direct message (1:1).
    pub is_dm: bool,
    /// Cached timeline messages, most recent last.
    pub messages: Vec<MatrixMessage>,
    /// Number of unread messages since the last read marker.
    pub unread_count: u32,
}

/// A message queued for sending.
#[derive(Debug, Clone, PartialEq, Eq)]
pub struct PendingMessage {
    /// Target room ID.
    pub room_id: MatrixRoomId,
    /// Message body to send.
    pub body: String,
    /// Client-generated transaction ID for idempotent retries.
    pub txn_id: u32,
}

/// Result of a successful `/sync` call.
#[derive(Debug, Clone, PartialEq, Eq)]
pub struct SyncResult {
    /// New messages received across all rooms, in arrival order.
    pub new_messages: Vec<IncomingMessage>,
    /// Number of rooms that had new timeline events.
    pub rooms_updated: u32,
    /// Number of rooms whose events were dropped because the room list was full.
    pub rooms_over_capacity: u32,
    /// Number of rooms whose events were dropped because the room ID was
    /// malformed.
    pub rooms_malformed: u32,
    /// The next batch token (opaque, stored for incremental sync).
    pub next_batch: String,
}

/// What a [`MatrixMessage`] stands for.
pub struct MessageModel {
    pub event_id: Seq<char>,
    pub sender: Seq<char>,
    pub body: Seq<char>,
    pub timestamp: int,
    pub encrypted: bool,
}

impl View for MatrixMessage {
    type V = MessageModel;

    open spec fn view(&self) -> MessageModel {
        MessageModel {
            event_id: self.event_id@,
            sender: self.sender@,
            body: self.body@,
            timestamp: self.timestamp as int,
            encrypted: self.encrypted,
        }
    }
}

/// What an [`IncomingMessage`] stands for: a message and its room.
pub struct IncomingModel {
    pub room_id: Seq<char>,
    pub message: MessageModel,
}

impl View for IncomingMessage {
    type V = IncomingModel;

    open spec fn view(&self) -> IncomingModel {
        IncomingModel {
            room_id: self.room_id@,
            message: MessageModel {
                event_id: self.event_id@,
                sender: self.sender@,
                body: self.body@,
                timestamp: self.timestamp as int,
                encrypted: self.encrypted,
            },
        }
    }
}

/// What a [`Room`] stands for.
#[verifier::ext_equal]
pub struct RoomModel {
    pub room_id: Seq<char>,
    pub display_name: Seq<char>,
    pub is_dm: bool,
    pub messages: Seq<MessageModel>,
    pub unread_count: int,
}

/// What messages stand for.
pub open spec fn messages_model(ms: Seq<MatrixMessage>) -> Seq<MessageModel> {
    Seq::new(ms.len(), |i: int| ms[i]@)
}

impl View for Room {
    type V = RoomModel;

    open spec fn view(&self) -> RoomModel {
        RoomModel {
            room_id: self.room_id@,
            display_name: self.display_name@,
            is_dm: self.is_dm,
            messages: messages_model(self.messages@),
            unread_count: self.unread_count as int,
        }
    }
}

/// What a [`PendingMessage`] stands for.
pub struct PendingModel {
    pub room_id: Seq<char>,
    pub body: Seq<char>,
    pub txn_id: int,
}

impl View for PendingMessage {
    type V = PendingModel;

    open spec fn view(&self) -> PendingModel {
        PendingModel {
            room_id: self.room_id@,
            body: self.body@,
            txn_id: self.txn_id as int,
        }
    }
}

/// What a [`SyncResult`] stands for.
#[verifier::ext_equal]
pub struct SyncModel {
    pub new_messages: Seq<IncomingModel>,
    pub rooms_updated: int,
    pub rooms_over_capacity: int,
    pub rooms_malformed: int,
    pub next_batch: Seq<char>,
}

impl View for SyncResult {
    type V = SyncModel;

    open spec fn view(&self) -> SyncModel {
        SyncModel {
            new_messages: Seq::new(self.new_messages@.len(), |i: int| self.new_messages@[i]@),
            rooms_updated: self.rooms_updated as int,
            rooms_over_capacity: self.rooms_over_capacity as int,
            rooms_malformed: self.rooms_malformed as int,
            next_batch: self.next_batch@,
        }
    }
}

/// One more, up to the limit of 32 bits.
pub open spec fn one_more(n: int) -> int {
    if n >= u32::MAX {
        n
    } else {
        n + 1
    }
}

impl RoomModel {
    /// A room without messages.
    pub open spec fn fresh(room_id: Seq<char>, display_name: Seq<char>, is_dm: bool) -> RoomModel {
        RoomModel { room_id, display_name, is_dm, messages: Seq::empty(), unread_count: 0 }
    }

    /// The room with one more unread message; a full cache loses its oldest.
    pub open spec fn with_message(self, msg: MessageModel) -> RoomModel {
        RoomModel {
            messages: if self.messages.len() >= MAX_MESSAGES_PER_ROOM {
                self.messages.drop_first().push(msg)
            } else {
                self.messages.push(msg)
            },
            unread_count: one_more(self.unread_count),
            ..self
        }
    }
}

impl Room {
    /// Create a new room with the given ID and display name.
    pub fn new(room_id: &str, display_name: String, is_dm: bool) -> (r: Result<Self, MatrixError>)
        ensures
            match id_fault('!', room_id@) {
                Some(e) => r is Err && r->Err_0@ == ErrorModel::InvalidId(e),
                None => r is Ok && r->Ok_0@ == RoomModel::fresh(
                    room_id@,
                    display_name@,
                    is_dm,
                ),
            },
    {
        match MatrixRoomId::new(room_id) {
            Ok(id) => {
                let room = Room {
                    room_id: id,
                    display_name,
                    is_dm,
                    messages: Vec::new(),
                    unread_count: 0,
                };
                assert(room@ =~= RoomModel::fresh(room_id@, display_name@, is_dm));
                Ok(room)
            },
            Err(e) => Err(MatrixError::from(e)),
        }
    }

    /// Add a message to this room's cache, evicting the oldest if at capacity.
    pub fn add_message(&mut self, msg: MatrixMessage)
        ensures
            final(self)@ == old(self)@.with_message(msg@),
    {
        if self.messages.len() >= MAX_MESSAGES_PER_ROOM {
            let _evicted = self.messages.remove(0);
        }
        self.messages.push(msg);
        self.unread_count = self.unread_count.saturating_add(1);
        assert(self@ =~= old(self)@.with_message(msg@));
    }

    /// The room in a word, for diagnostics.
    pub fn to_string(&self) -> (r: String)
        ensures
            r@ == "Room("@ + self@.room_id + ", \""@ + self@.display_name + "\", "@ + ascii(
                decimal(self@.messages.len()),
            ) + " messages, "@ + ascii(decimal(self@.unread_count as nat)) + " unread)"@,
    {
        let mut out = "Room(".to_owned();
        out.append(self.room_id.as_str());
        out.append(", \"");
        out.append(self.display_name.as_str());
        out.append("\", ");
        push_decimal(&mut out, self.messages.len() as u64);
        out.append(" messages, ");
        push_decimal(&mut out, self.unread_count as u64);
        out.append(" unread)");
        out
    }
}

impl MatrixMessage {
    /// The message in a word, for diagnostics.
    pub fn to_string(&self) -> (r: String)
        ensures
            r@ == "MatrixMessage("@ + self@.event_id + " from "@ + self@.sender + " at "@ + ascii(
                decimal(self@.timestamp as nat),
            ) + ")"@,
    {
        let mut out = "MatrixMessage(".to_owned();
        out.append(self.event_id.as_str());
        out.append(" from ");
        out.append(self.sender.as_str());
        out.append(" at ");
        push_decimal(&mut out, self.timestamp);
        out.append(")");
        out
    }
}

impl IncomingMessage {
    /// The message in a word, for diagnostics.
    pub fn to_string(&self) -> (r: String)
        ensures
            r@ == "IncomingMessage("@ + self@.message.event_id + " from "@ + self@.message.sender
                + " in "@ + self@.room_id + ")"@,
    {
        let mut out = "IncomingMessage(".to_owned();
        out.append(self.event_id.as_str());
        out.append(" from ");
        out.append(self.sender.as_str());
        out.append(" in ");
        out.append(self.room_id.as_str());
        out.append(")");
        out
    }
}

impl PendingMessage {
    /// The message in a word, for diagnostics.
    pub fn to_string(&self) -> (r: String)
        ensures
            r@ == "PendingMessage(txn="@ + ascii(decimal(self@.txn_id as nat)) + ", room="@
                + self@.room_id + ", "@ + ascii(decimal(encode_utf8(self@.body).len()))
                + " bytes)"@,
    {
        let mut out = "PendingMessage(txn=".to_owned();
        push_decimal(&mut out, self.txn_id as u64);
        out.append(", room=");
        out.append(self.room_id.as_str());
        out.append(", ");
        push_decimal(&mut out, self.body.as_str().as_bytes().len() as u64);
        out.append(" bytes)");
        out
    }
}

impl SyncResult {
    /// The result in a word, for diagnostics.
    pub fn to_string(&self) -> (r: String)
        ensures
            r@ == "SyncResult("@ + ascii(decimal(self@.new_messages.len())) + " messages, "@
                + ascii(decimal(self@.rooms_updated as nat)) + " rooms updated, "@ + ascii(
                decimal(self@.rooms_over_capacity as nat),
            ) + " over capacity, "@ + ascii(decimal(self@.rooms_malformed as nat)) + " malformed)"@,
    {
        let mut out = "SyncResult(".to_owned();
        push_decimal(&mut out, self.new_messages.len() as u64);
        out.append(" messages, ");
        push_decimal(&mut out, self.rooms_updated as u64);
        out.append(" rooms updated, ");
        push_decimal(&mut out, self.rooms_over_capacity as u64);
        out.append(" over capacity, ");
        push_decimal(&mut out, self.rooms_malformed as u64);
        out.append(" malformed)");
        out
    }
}

// ---------------------------------------------------------------------------
// Hexadecimal
// ---------------------------------------------------------------------------

/// Bytes in lowercase hexadecimal.
pub open spec fn hex_text(bytes: Seq<u8>) -> Seq<char> {
    Seq::new(
        2 * bytes.len(),
        |i: int|
            if i % 2 == 0 {
                nibble_char(bytes[i / 2] / 16)
            } else {
                nibble_char(bytes[i / 2] % 16)
            },
    )
}

/// The bytes that hexadecimal digits stand for, two digits a byte.
pub open spec fn hex_bytes(s: Seq<u8>) -> Option<Seq<u8>> {
    if s.len() % 2 != 0 || exists|i: int| 0 <= i < s.len() && hex_value(#[trigger] s[i]) is None {
        None
    } else {
        Some(
            Seq::new(
                s.len() / 2,
                |i: int| (hex_value(s[2 * i])->0 * 16 + hex_value(s[2 * i + 1])->0) as u8,
            ),
        )
    }
}

/// Encode a byte slice as a lowercase hex string.
pub fn hex_encode_bytes(bytes: &[u8]) -> (s: String)
    ensures
        s@ == hex_text(bytes@),
{
    let mut s = String::new();
    let mut i: usize = 0;
    while i < bytes.len()
        invariant
            i <= bytes@.len(),
            s@ == hex_text(bytes@).take(2 * i),
        decreases bytes@.len() - i,
    {
        s.push(crate::json_mini::hex_char(bytes[i] / 16));
        s.push(crate::json_mini::hex_char(bytes[i] % 16));
        i += 1;
        assert(s@ =~= hex_text(bytes@).take(2 * i));
    }
    assert(hex_text(bytes@).take(2 * bytes@.len() as int) =~= hex_text(bytes@));
    s
}

/// Decode a hex string into a byte vector.
pub fn hex_decode_bytes(s: &str) -> (r: Option<Vec<u8>>)
    ensures
        match hex_bytes(encode_utf8(s@)) {
            Some(b) => r is Some && r->0@ == b,
            None => r is None,
        },
{
    let bytes = s.as_bytes();
    let ghost b = encode_utf8(s@);
    if bytes.len() % 2 != 0 {
        return None;
    }
    let mut result: Vec<u8> = Vec::new();
    let mut i: usize = 0;
    while i < bytes.len()
        invariant
            i <= b.len(),
            bytes@ == b,
            b == encode_utf8(s@),
            b.len() % 2 == 0,
            i % 2 == 0,
            result@.len() == i / 2,
            forall|j: int| 0 <= j < i ==> hex_value(#[trigger] b[j]) is Some,
            forall|j: int|
                0 <= j < i / 2 ==> #[trigger] result@[j] == (hex_value(b[2 * j])->0 * 16
                    + hex_value(b[2 * j + 1])->0) as u8,
        decreases b.len() - i,
    {
        let hi = match hex_nibble_val(bytes[i]) {
            Some(v) => v,
            None => {
                assert(hex_value(b[i as int]) is None);
                return None;
            },
        };
        let lo = match hex_nibble_val(bytes[i + 1]) {
            Some(v) => v,
            None => {
                assert(hex_value(b[i + 1]) is None);
                return None;
            },
        };
        result.push(hi * 16 + lo);
        i += 2;
    }
    assert(result@ =~= hex_bytes(b)->0);
    Some(result)
}

/// Decode a 64-character hex string into a 32-byte array.
pub fn hex_decode_32_bytes(s: &str) -> (r: Option<[u8; 32]>)
    ensures
        match session_bytes(s@) {
            Some(b) => r is Some && r->0@ == b,
            None => r is None,
        },
{
    if s.as_bytes().len() != 64 {
        return None;
    }
    match hex_decode_bytes(s) {
        None => None,
        Some(v) => {
            let mut result: [u8; 32] = [0;32];
            let mut i: usize = 0;
            while i < 32
                invariant
                    i <= 32,
                    v@.len() == 32,
                    forall|j: int| 0 <= j < i ==> #[trigger] result@[j] == v@[j],
                decreases 32 - i,
            {
                result[i] = v[i];
                i += 1;
            }
            assert(result@ =~= v@);
            Some(result)
        },
    }
}

/// The session identifier that a text stands for: 32 bytes in hexadecimal.
pub open spec fn session_bytes(s: Seq<char>) -> Option<Seq<u8>> {
    if encode_utf8(s).len() == 64 {
        hex_bytes(encode_utf8(s))
    } else {
        None
    }
}

/// Convert a hex ASCII byte to its 4-bit value.
pub fn hex_nibble_val(b: u8) -> (r: Option<u8>)
    ensures
        match hex_value(b) {
            Some(v) => r is Some && r->0 == v && v < 16,
            None => r is None,
        },
{
    hex_digit(b)
}

/// Law: bytes written in hexadecimal are read back as they were.
pub proof fn law_hex_round_trip(bytes: Seq<u8>)
    ensures
        hex_bytes(encode_utf8(hex_text(bytes))) == Some(bytes),
{
    let t = hex_text(bytes);
    assert forall|i: int| 0 <= i < t.len() implies ('\0' <= #[trigger] t[i] <= '\u{7f}') by {
        assert(bytes[i / 2] / 16 < 16 && bytes[i / 2] % 16 < 16);
    }
    assert(is_ascii_chars(t));
    is_ascii_chars_encode_utf8(t);
    let s = encode_utf8(t);
    assert forall|i: int| 0 <= i < s.len() implies hex_value(#[trigger] s[i]) == Some(
        (if i % 2 == 0 {
            bytes[i / 2] / 16
        } else {
            bytes[i / 2] % 16
        }) as u32,
    ) by {
        assert(t[i] as u8 == s[i]);
    }
    assert(s.len() % 2 == 0);
    assert(hex_bytes(s) is Some);
    assert(hex_bytes(s)->0 =~= bytes) by {
        assert forall|i: int| 0 <= i < bytes.len() implies #[trigger] hex_bytes(s)->0[i]
            == bytes[i] by {
            assert(hex_value(s[2 * i]) == Some((bytes[(2 * i) / 2] / 16) as u32));
            assert(hex_value(s[2 * i + 1]) == Some((bytes[(2 * i + 1) / 2] % 16) as u32));
        }
    }
}

// ---------------------------------------------------------------------------
// Reading JSON
// ---------------------------------------------------------------------------

/// The text of a field.
pub open spec fn text_field(v: JsonModel, key: Seq<char>) -> Option<Seq<char>> {
    match v.field(key) {
        Some(f) => f.text(),
        None => None,
    }
}

/// The text of a field.
fn text_at<'a>(v: &'a JsonValue, key: &str) -> (r: Option<&'a str>)
    ensures
        match text_field(v@, key@) {
            Some(t) => r is Some && r->0@ == t,
            None => r is None,
        },
{
    match v.get(key) {
        Some(f) => f.as_str(),
        None => None,
    }
}

/// The number in a field.
pub open spec fn number_field(v: JsonModel, key: Seq<char>) -> Option<int> {
    match v.field(key) {
        Some(JsonModel::Number(n)) => Some(n),
        _ => None,
    }
}

/// The body of a response as JSON, where it is UTF-8.
pub open spec fn body_document(r: ResponseModel) -> Option<Result<JsonModel, JsonError>> {
    if valid_utf8(r.body) {
        Some(document(r.body))
    } else {
        None
    }
}

/// A default in place of a missing text.
pub open spec fn text_or(t: Option<Seq<char>>, default: Seq<char>) -> Seq<char> {
    match t {
        Some(s) => s,
        None => default,
    }
}

/// The error that a response of the server stands for: code and message of its
/// JSON body, or the start of a body that is no JSON.
pub open spec fn server_error(r: ResponseModel) -> ErrorModel {
    match body_document(r) {
        Some(Ok(root)) => ErrorModel::ServerError {
            status: r.status,
            errcode: text_or(text_field(root, "errcode"@), "M_UNKNOWN"@),
            message: text_or(text_field(root, "error"@), "unknown error"@),
        },
        Some(Err(_)) => ErrorModel::ServerError {
            status: r.status,
            errcode: "M_UNKNOWN"@,
            message: if r.body.len() > 0 {
                decode_utf8(r.body.take(clean_prefix_len(r.body, MAX_ERROR_BODY_LEN as int)))
            } else {
                "non-JSON error response"@
            },
        },
        None => ErrorModel::ServerError {
            status: r.status,
            errcode: "M_UNKNOWN"@,
            message: "non-JSON error response"@,
        },
    }
}

/// The start of a text, cut cleanly within a number of bytes.
fn text_start(s: &str, max_len: usize) -> (r: String)
    ensures
        r@ == decode_utf8(
            encode_utf8(s@).take(clean_prefix_len(encode_utf8(s@), max_len as int)),
        ),
{
    let ghost b = encode_utf8(s@);
    let len: usize = utf8_truncate_len(s.as_bytes(), max_len);
    proof {
        let n = if b.len() <= max_len {
            b.len() as int
        } else {
            max_len as int
        };
        law_clean_cut_is_the_largest(b, n);
        encode_utf8_valid_utf8(s@);
        is_char_boundary_start_end_of_seq(b);
        if 0 < len < b.len() {
            is_char_boundary_iff_not_is_continuation_byte(b, len as int);
        }
    }
    let (start, _rest) = s.split_at(len);
    proof {
        assert(b.subrange(0, len as int) =~= b.take(len as int));
        encode_utf8_decode_utf8(start@);
    }
    start.to_owned()
}

/// Parse a Matrix error response body into a [`MatrixError::ServerError`].
pub fn parse_error_response(response: &HttpResponse) -> (r: MatrixError)
    ensures
        r@ == server_error(response@),
{
    match response.body_as_str() {
        None => MatrixError::ServerError {
            status: response.status,
            errcode: "M_UNKNOWN".to_owned(),
            message: "non-JSON error response".to_owned(),
        },
        Some(s) => match JsonParser::parse(s.as_bytes()) {
            Ok(root) => {
                let errcode = match text_at(&root, "errcode") {
                    Some(t) => t,
                    None => "M_UNKNOWN",
                };
                let message = match text_at(&root, "error") {
                    Some(t) => t,
                    None => "unknown error",
                };
                MatrixError::ServerError {
                    status: response.status,
                    errcode: errcode.to_owned(),
                    message: message.to_owned(),
                }
            },
            Err(_) => {
                let message = if response.body.len() > 0 {
                    text_start(s, MAX_ERROR_BODY_LEN)
                } else {
                    "non-JSON error response".to_owned()
                };
                MatrixError::ServerError {
                    status: response.status,
                    errcode: "M_UNKNOWN".to_owned(),
                    message,
                }
            },
        },
    }
}

/// Map a [`CryptoError`] into a client-side error, so that encryption failures
/// never fall back to plaintext.
pub fn crypto_error(e: CryptoError) -> (r: MatrixError)
    ensures
        r@ == crypto_fault(e),
{
    MatrixError::ServerError {
        status: 0,
        errcode: "M_CRYPTO_ERROR".to_owned(),
        message: e.to_string(),
    }
}

/// The error that a failure of the cipher stands for.
pub open spec fn crypto_fault(e: CryptoError) -> ErrorModel {
    ErrorModel::ServerError { status: 0, errcode: "M_CRYPTO_ERROR"@, message: e.message() }
}

/// The timeline events of a room's sync data: `timeline.events`.
pub open spec fn timeline_events(data: JsonModel) -> Seq<JsonModel> {
    match data.field("timeline"@) {
        Some(t) => match t.field("events"@) {
            Some(JsonModel::Array(a)) => a,
            _ => Seq::empty(),
        },
        None => Seq::empty(),
    }
}

/// What referenced values stand for.
pub open spec fn refs_model(a: Seq<&JsonValue>) -> Seq<JsonModel> {
    Seq::new(a.len(), |i: int| a[i]@)
}

/// Extract timeline events from a room's sync data.
pub fn extract_timeline_events(room_data: &JsonValue) -> (r: Vec<&JsonValue>)
    ensures
        refs_model(r@) == timeline_events(room_data@),
{
    let mut out: Vec<&JsonValue> = Vec::new();
    assert(refs_model(out@) =~= Seq::empty());
    let timeline = match room_data.get("timeline") {
        Some(t) => t,
        None => {
            return out;
        },
    };
    let events = match timeline.get("events") {
        Some(e) => e,
        None => {
            return out;
        },
    };
    match events.as_array() {
        Some(arr) => {
            let mut i: usize = 0;
            while i < arr.len()
                invariant
                    i <= arr@.len(),
                    refs_model(out@) == items_model(arr@).take(i as int),
                decreases arr@.len() - i,
            {
                let ghost before = out@;
                out.push(&arr[i]);
                proof {
                    assert(refs_model(out@) =~= refs_model(before).push(arr@[i as int]@));
                    assert(items_model(arr@).take(i + 1) =~= items_model(arr@).take(i as int).push(
                        arr@[i as int]@,
                    ));
                }
                i += 1;
            }
            assert(items_model(arr@).take(arr@.len() as int) =~= items_model(arr@));
            out
        },
        None => out,
    }
}

/// The text of an encrypted event: what the cipher made of it, or a note on why
/// it cannot be shown.
pub open spec fn encrypted_text(content: JsonModel, room: Seq<char>, crypto: CryptoModel) -> Seq<
    char,
> {
    match (text_field(content, "ciphertext"@), text_field(content, "session_id"@)) {
        (Some(ct), Some(sid)) => match (hex_bytes(encode_utf8(ct)), session_bytes(sid)) {
            (Some(ct), Some(sid)) => match crypto.opened_event(sid, ct, room) {
                Some(Some(plaintext)) => if valid_utf8(plaintext) {
                    decode_utf8(plaintext)
                } else {
                    "[decryption: invalid UTF-8]"@
                },
                Some(None) => "[encrypted: decryption failed]"@,
                None => "[encrypted: no session]"@,
            },
            _ => "[encrypted: invalid format]"@,
        },
        _ => "[encrypted]"@,
    }
}

/// The message that a timeline event stands for: an event of type
/// `m.room.message` or `m.room.encrypted` with all its fields and a well-formed
/// identifier.
pub open spec fn timeline_message(event: JsonModel, room: Seq<char>, crypto: CryptoModel) -> Option<
    MessageModel,
> {
    let encrypted = text_field(event, "type"@) == Some("m.room.encrypted"@);
    let plain = text_field(event, "type"@) == Some("m.room.message"@);
    let body = match event.field("content"@) {
        None => None,
        Some(content) => if encrypted {
            Some(encrypted_text(content, room, crypto))
        } else {
            text_field(content, "body"@)
        },
    };
    match (
        text_field(event, "event_id"@),
        text_field(event, "sender"@),
        number_field(event, "origin_server_ts"@),
        body,
    ) {
        (Some(id), Some(sender), Some(ts), Some(body)) => if (encrypted || plain) && id_fault(
            '$',
            id,
        ) is None {
            Some(
                MessageModel {
                    event_id: id,
                    sender,
                    body,
                    timestamp: if ts >= 0 {
                        ts
                    } else {
                        0
                    },
                    encrypted,
                },
            )
        } else {
            None
        },
        _ => None,
    }
}

/// The text of an encrypted event's content.
fn open_content(content: &JsonValue, room_id: &str, crypto: &MatrixCrypto) -> (r: String)
    ensures
        r@ == encrypted_text(content@, room_id@, crypto@),
{
    match (text_at(content, "ciphertext"), text_at(content, "session_id")) {
        (Some(ct_hex), Some(sid_hex)) => {
            match (hex_decode_bytes(ct_hex), hex_decode_32_bytes(sid_hex)) {
                (Some(ct), Some(sid)) => match crypto.find_opened(&sid, ct.as_slice(), room_id) {
                    Some(event) => match &event.plaintext {
                        Some(plaintext) => match utf8_text(plaintext.as_slice()) {
                            Some(s) => {
                                proof {
                                    encode_utf8_decode_utf8(s@);
                                }
                                s.to_owned()
                            },
                            None => "[decryption: invalid UTF-8]".to_owned(),
                        },
                        None => "[encrypted: decryption failed]".to_owned(),
                    },
                    None => "[encrypted: no session]".to_owned(),
                },
                _ => "[encrypted: invalid format]".to_owned(),
            }
        },
        _ => "[encrypted]".to_owned(),
    }
}

/// Parse a single timeline event into a [`MatrixMessage`].
pub fn parse_timeline_event(event: &JsonValue, room_id: &str, crypto: &MatrixCrypto) -> (r: Option<
    MatrixMessage,
>)
    ensures
        match timeline_message(event@, room_id@, crypto@) {
            Some(m) => r is Some && r->0@ == m,
            None => r is None,
        },
{
    let event_type = match text_at(event, "type") {
        Some(t) => t,
        None => {
            return None;
        },
    };
    let encrypted = same_text(event_type, "m.room.encrypted");
    if !same_text(event_type, "m.room.message") && !encrypted {
        return None;
    }
    let event_id = match text_at(event, "event_id") {
        Some(t) => t,
        None => {
            return None;
        },
    };
    let sender = match text_at(event, "sender") {
        Some(t) => t,
        None => {
            return None;
        },
    };
    let timestamp: i64 = match event.get("origin_server_ts") {
        Some(v) => match v.as_i64() {
            Some(n) => n,
            None => {
                return None;
            },
        },
        None => {
            return None;
        },
    };
    let content = match event.get("content") {
        Some(c) => c,
        None => {
            return None;
        },
    };
    let body = if encrypted {
        open_content(content, room_id, crypto)
    } else {
        match text_at(content, "body") {
            Some(t) => t.to_owned(),
            None => {
                return None;
            },
        }
    };
    match MatrixEventId::new(event_id) {
        Ok(id) => Some(
            MatrixMessage {
                event_id: id,
                sender: sender.to_owned(),
                body,
                timestamp: if timestamp >= 0 {
                    timestamp as u64
                } else {
                    0
                },
                encrypted,
            },
        ),
        Err(_) => None,
    }
}

// ---------------------------------------------------------------------------
// The client
// ---------------------------------------------------------------------------

/// Minimal Matrix client: device identity, room list, sync token and outbound
/// message queue.
pub struct MatrixClient {
    /// Homeserver hostname.
    homeserver: String,
    /// Authenticated user ID.
    user_id: String,
    /// Device ID assigned during provisioning.
    device_id: String,
    /// Access token for Bearer auth.
    access_token: String,
    /// Opaque sync token for incremental `/sync`.
    sync_token: Option<String>,
    /// Tracked rooms.
    rooms: Vec<Room>,
    /// Outbound messages waiting to be sent.
    outbox: Vec<PendingMessage>,
    /// Sync poll interval in milliseconds (0 = continuous long-poll).
    pub sync_interval_ms: u64,
    /// Tick at which the last sync was initiated.
    pub last_sync_tick: u64,
    /// Monotonically increasing transaction ID counter.
    next_txn_id: u32,
    /// End-to-end encryption state.
    crypto: MatrixCrypto,
}

/// What a [`MatrixClient`] stands for.
#[verifier::ext_equal]
pub struct ClientModel {
    pub homeserver: Seq<char>,
    pub user_id: Seq<char>,
    pub device_id: Seq<char>,
    pub access_token: Seq<char>,
    pub sync_token: Option<Seq<char>>,
    pub rooms: Seq<RoomModel>,
    pub outbox: Seq<PendingModel>,
    pub sync_interval_ms: int,
    pub last_sync_tick: int,
    pub next_txn_id: int,
    pub crypto: CryptoModel,
}

/// What rooms stand for.
pub open spec fn rooms_model(rooms: Seq<Room>) -> Seq<RoomModel> {
    Seq::new(rooms.len(), |i: int| rooms[i]@)
}

/// What pending messages stand for.
pub open spec fn outbox_model(outbox: Seq<PendingMessage>) -> Seq<PendingModel> {
    Seq::new(outbox.len(), |i: int| outbox[i]@)
}

impl View for MatrixClient {
    type V = ClientModel;

    closed spec fn view(&self) -> ClientModel {
        ClientModel {
            homeserver: self.homeserver@,
            user_id: self.user_id@,
            device_id: self.device_id@,
            access_token: self.access_token@,
            sync_token: match self.sync_token {
                Some(t) => Some(t@),
                None => None,
            },
            rooms: rooms_model(self.rooms@),
            outbox: outbox_model(self.outbox@),
            sync_interval_ms: self.sync_interval_ms as int,
            last_sync_tick: self.last_sync_tick as int,
            next_txn_id: self.next_txn_id as int,
            crypto: self.crypto@,
        }
    }
}

/// The position of a room, from a position on.
pub open spec fn room_index(rooms: Seq<RoomModel>, id: Seq<char>, from: int) -> Option<int>
    decreases rooms.len() - from,
{
    if !(0 <= from < rooms.len()) {
        None
    } else if rooms[from].room_id == id {
        Some(from)
    } else {
        room_index(rooms, id, from + 1)
    }
}

/// Rooms and result of a sync in progress.
#[verifier::ext_equal]
pub struct SyncState {
    pub rooms: Seq<RoomModel>,
    pub result: SyncModel,
}

impl SyncState {
    /// After an event of the room at a position.
    pub open spec fn after_event(
        self,
        i: int,
        event: JsonModel,
        room: Seq<char>,
        crypto: CryptoModel,
    ) -> SyncState {
        match timeline_message(event, room, crypto) {
            Some(msg) => SyncState {
                rooms: self.rooms.update(i, self.rooms[i].with_message(msg)),
                result: SyncModel {
                    new_messages: self.result.new_messages.push(
                        IncomingModel { room_id: self.rooms[i].room_id, message: msg },
                    ),
                    ..self.result
                },
            },
            None => self,
        }
    }

    /// After the first `n` events of the room at a position.
    pub open spec fn after_events(
        self,
        i: int,
        events: Seq<JsonModel>,
        room: Seq<char>,
        crypto: CryptoModel,
        n: nat,
    ) -> SyncState
        decreases n,
    {
        if n == 0 || n > events.len() {
            self
        } else {
            self.after_events(i, events, room, crypto, (n - 1) as nat).after_event(
                i,
                events[n - 1],
                room,
                crypto,
            )
        }
    }

    /// After the data of a joined room. A room without events changes nothing;
    /// one that the full list has no place for, or whose identifier is
    /// malformed, is counted and left out.
    pub open spec fn after_room(
        self,
        room: Seq<char>,
        data: JsonModel,
        crypto: CryptoModel,
    ) -> SyncState {
        let events = timeline_events(data);
        let updated = SyncModel {
            rooms_updated: one_more(self.result.rooms_updated),
            ..self.result
        };
        if events.len() == 0 {
            self
        } else {
            match room_index(self.rooms, room, 0) {
                Some(i) => SyncState { rooms: self.rooms, result: updated }.after_events(
                    i,
                    events,
                    room,
                    crypto,
                    events.len(),
                ),
                None => if self.rooms.len() >= MAX_ROOMS {
                    SyncState {
                        rooms: self.rooms,
                        result: SyncModel {
                            rooms_over_capacity: one_more(self.result.rooms_over_capacity),
                            ..self.result
                        },
                    }
                } else if id_fault('!', room) is Some {
                    SyncState {
                        rooms: self.rooms,
                        result: SyncModel {
                            rooms_malformed: one_more(self.result.rooms_malformed),
                            ..self.result
                        },
                    }
                } else {
                    SyncState {
                        rooms: self.rooms.push(RoomModel::fresh(room, room, false)),
                        result: updated,
                    }.after_events(
                        self.rooms.len() as int,
                        events,
                        room,
                        crypto,
                        events.len(),
                    )
                },
            }
        }
    }

    /// After the data of the first `n` joined rooms.
    pub open spec fn after_rooms(
        self,
        joined: Seq<(Seq<char>, JsonModel)>,
        crypto: CryptoModel,
        n: nat,
    ) -> SyncState
        decreases n,
    {
        if n == 0 || n > joined.len() {
            self
        } else {
            self.after_rooms(joined, crypto, (n - 1) as nat).after_room(
                joined[n - 1].0,
                joined[n - 1].1,
                crypto,
            )
        }
    }
}

/// The joined rooms of a sync response: `rooms.join`.
pub open spec fn joined_rooms(root: JsonModel) -> Seq<(Seq<char>, JsonModel)> {
    match root.field("rooms"@) {
        Some(rooms) => match rooms.field("join"@) {
            Some(JsonModel::Object(o)) => o,
            _ => Seq::empty(),
        },
        None => Seq::empty(),
    }
}

/// The result of a sync before any room was looked at.
pub open spec fn empty_result(next_batch: Seq<char>) -> SyncModel {
    SyncModel {
        new_messages: Seq::empty(),
        rooms_updated: 0,
        rooms_over_capacity: 0,
        rooms_malformed: 0,
        next_batch,
    }
}

impl ClientModel {
    /// A client without history.
    pub open spec fn fresh(
        homeserver: Seq<char>,
        user_id: Seq<char>,
        device_id: Seq<char>,
        access_token: Seq<char>,
        crypto: CryptoModel,
    ) -> ClientModel {
        ClientModel {
            homeserver,
            user_id,
            device_id,
            access_token,
            sync_token: None,
            rooms: Seq::empty(),
            outbox: Seq::empty(),
            sync_interval_ms: SYNC_INTERVAL_ACTIVE_MS as int,
            last_sync_tick: 0,
            next_txn_id: TXN_ID_START as int,
            crypto,
        }
    }

    /// What a sync response does to the client, and what is reported.
    pub open spec fn after_sync(self, response: ResponseModel, tick: int) -> (
        ClientModel,
        Result<SyncModel, ErrorModel>,
    ) {
        let ticked = ClientModel { last_sync_tick: tick, ..self };
        if !(200 <= response.status < 300) {
            (ticked, Err(server_error(response)))
        } else {
            match body_document(response) {
                None => (ticked, Err(ErrorModel::MalformedSync)),
                Some(Err(e)) => (ticked, Err(ErrorModel::Json(e))),
                Some(Ok(root)) => match text_field(root, "next_batch"@) {
                    None => (ticked, Err(ErrorModel::MalformedSync)),
                    Some(token) => {
                        let joined = joined_rooms(root);
                        let end = SyncState {
                            rooms: self.rooms,
                            result: empty_result(token),
                        }.after_rooms(joined, self.crypto, joined.len());
                        (
                            ClientModel {
                                sync_token: Some(token),
                                rooms: end.rooms,
                                ..ticked
                            },
                            Ok(end.result),
                        )
                    },
                },
            }
        }
    }

    /// The request with the access token.
    pub open spec fn authorized(self, request: RequestModel) -> RequestModel {
        RequestModel {
            headers: request.headers.push(auth_header(self.access_token)),
            ..request
        }
    }

    /// The transaction counter after one more transaction.
    pub open spec fn next_transaction(self) -> ClientModel {
        ClientModel { next_txn_id: one_more(self.next_txn_id), ..self }
    }

    /// The request that sends an event of a type to a room.
    pub open spec fn event_request(
        self,
        room: Seq<char>,
        kind: Seq<char>,
        txn_id: int,
        body: Seq<char>,
    ) -> RequestModel {
        self.authorized(
            json_request(
                HttpMethod::Put,
                self.homeserver,
                "/_matrix/client/v3"@ + "/rooms/"@ + room + kind + ascii(decimal(txn_id as nat)),
                encode_utf8(body),
            ),
        )
    }

    /// What the cipher is given for a message to a room: its UTF-8 bytes, and the
    /// room's session.
    pub open spec fn seal_of(self, room: Seq<char>, body: Seq<char>) -> SealRequestModel {
        SealRequestModel {
            room_id: room,
            plaintext: encode_utf8(body),
            session: self.crypto.session_of(room),
        }
    }

    /// What the cipher is given for each message of the outbox, in order.
    pub open spec fn to_seal(self) -> Seq<SealRequestModel> {
        Seq::new(
            self.outbox.len(),
            |i: int| self.seal_of(self.outbox[i].room_id, self.outbox[i].body),
        )
    }

    /// The client and the outcome of an encrypted send with what the cipher gave.
    pub open spec fn after_megolm(self, room: Seq<char>, txn_id: int, sealed: SealedModel) -> (
        ClientModel,
        Result<RequestModel, ErrorModel>,
    ) {
        let known = self.crypto.session_of(room);
        match known {
            None => match sealed.fresh_session {
                Err(e) => (self, Err(crypto_fault(e))),
                Ok(id) => {
                    let after = ClientModel {
                        crypto: CryptoModel {
                            outbound: self.crypto.outbound.push((room, id)),
                            ..self.crypto
                        },
                        ..self
                    };
                    (after, after.sealed_request(room, txn_id, id, sealed))
                },
            },
            Some(id) => (self, self.sealed_request(room, txn_id, id, sealed)),
        }
    }

    /// The request that carries an encrypted message.
    pub open spec fn sealed_request(
        self,
        room: Seq<char>,
        txn_id: int,
        session: Seq<u8>,
        sealed: SealedModel,
    ) -> Result<RequestModel, ErrorModel> {
        match sealed.ciphertext {
            Err(e) => Err(crypto_fault(e)),
            Ok(c) => Ok(
                self.event_request(
                    room,
                    "/send/m.room.encrypted/"@,
                    txn_id,
                    encrypted_body(c, session),
                ),
            ),
        }
    }

    /// The client and the outcomes after the first `n` messages of the outbox
    /// were built with what the cipher gave for each.
    pub open spec fn after_flush(self, sealed: Seq<SealedModel>, n: nat) -> (
        ClientModel,
        Seq<Result<(RequestModel, int), ErrorModel>>,
    )
        decreases n,
    {
        if n == 0 || n > self.outbox.len() {
            (self, Seq::empty())
        } else {
            let (before, results) = self.after_flush(sealed, (n - 1) as nat);
            let message = self.outbox[n - 1];
            let (after, built) = before.after_megolm(message.room_id, message.txn_id, sealed[n - 1]);
            (
                after,
                results.push(
                    match built {
                        Ok(request) => Ok((request, message.txn_id)),
                        Err(e) => Err(e),
                    },
                ),
            )
        }
    }
}

/// The content of a plain message.
pub open spec fn message_value(body: Seq<char>) -> JsonModel {
    JsonModel::Object(
        seq![("msgtype"@, JsonModel::Text("m.text"@)), ("body"@, JsonModel::Text(body))],
    )
}

/// The JSON text of a plain message.
pub open spec fn message_body(body: Seq<char>) -> Seq<char> {
    render(message_value(body))
}

/// The content of an encrypted message.
pub open spec fn encrypted_value(ciphertext: Seq<u8>, session: Seq<u8>) -> JsonModel {
    JsonModel::Object(
        seq![
            ("algorithm"@, JsonModel::Text("m.megolm.v1.aes-sha2"@)),
            ("ciphertext"@, JsonModel::Text(hex_text(ciphertext))),
            ("session_id"@, JsonModel::Text(hex_text(session))),
        ],
    )
}

/// The JSON text of an encrypted message.
pub open spec fn encrypted_body(ciphertext: Seq<u8>, session: Seq<u8>) -> Seq<char> {
    render(encrypted_value(ciphertext, session))
}

/// Build the JSON body for an `m.room.message` event.
pub fn build_message_body(body: &str) -> (r: String)
    ensures
        r@ == message_body(body@),
{
    let mut w = JsonWriter::new();
    w.object_start();
    w.key("msgtype");
    w.string_value("m.text");
    w.key("body");
    w.string_value(body);
    w.end();
    proof {
        let v = message_value(body@);
        let o = WriterModel::empty().open(WriterContext::Object);
        let e1 = written(o.key("msgtype"@), JsonModel::Text("m.text"@));
        let e2 = written(e1.key("body"@), JsonModel::Text(body@));
        assert(written_entries(o, v, 0) == o);
        assert(written_entries(o, v, 1) == e1);
        assert(written_entries(o, v, 2) == e2);
        assert(w@ == written(WriterModel::empty(), v));
        law_writer_renders(WriterModel::empty(), v);
        assert(w@.text =~= render(v));
    }
    w.finish()
}

/// Build the JSON body for an `m.room.encrypted` event: ciphertext and session
/// identifier in hexadecimal beside the algorithm's name.
pub fn build_encrypted_body(ciphertext: &[u8], session_id: &[u8; 32]) -> (r: String)
    ensures
        r@ == encrypted_body(ciphertext@, session_id@),
{
    let ciphertext_hex = hex_encode_bytes(ciphertext);
    let session_hex = hex_encode_bytes(session_id.as_slice());
    let mut w = JsonWriter::new();
    w.object_start();
    w.key("algorithm");
    w.string_value("m.megolm.v1.aes-sha2");
    w.key("ciphertext");
    w.string_value(ciphertext_hex.as_str());
    w.key("session_id");
    w.string_value(session_hex.as_str());
    w.end();
    proof {
        let v = encrypted_value(ciphertext@, session_id@);
        let o = WriterModel::empty().open(WriterContext::Object);
        let e1 = written(o.key("algorithm"@), JsonModel::Text("m.megolm.v1.aes-sha2"@));
        let e2 = written(e1.key("ciphertext"@), JsonModel::Text(hex_text(ciphertext@)));
        let e3 = written(e2.key("session_id"@), JsonModel::Text(hex_text(session_id@)));
        assert(written_entries(o, v, 0) == o);
        assert(written_entries(o, v, 1) == e1);
        assert(written_entries(o, v, 2) == e2);
        assert(written_entries(o, v, 3) == e3);
        assert(w@ == written(WriterModel::empty(), v));
        law_writer_renders(WriterModel::empty(), v);
        assert(w@.text =~= render(v));
    }
    w.finish()
}

/// Append a u64 value as decimal digits to a string.
pub fn push_u64(s: &mut String, val: u64)
    ensures
        final(s)@ == old(s)@ + ascii(decimal(val as nat)),
{
    push_decimal(s, val);
}

/// Append a u32 value as decimal digits to a string.
pub fn push_u32(s: &mut String, val: u32)
    ensures
        final(s)@ == old(s)@ + ascii(decimal(val as nat)),
{
    push_decimal(s, val as u64);
}

/// Whether a sync token can stand in a request line: it holds no space and no
/// control byte.
pub open spec fn token_is_safe(token: Seq<char>) -> bool {
    forall|i: int|
        0 <= i < encode_utf8(token).len() ==> 0x20 < #[trigger] encode_utf8(token)[i]
            && encode_utf8(token)[i] != 0x7F
}

/// Whether a sync token can stand in a request line.
fn safe_token(token: &str) -> (r: bool)
    ensures
        r == token_is_safe(token@),
{
    let b = token.as_bytes();
    let mut i: usize = 0;
    while i < b.len()
        invariant
            i <= b@.len(),
            b@ == encode_utf8(token@),
            forall|j: int| 0 <= j < i ==> 0x20 < #[trigger] b@[j] && b@[j] != 0x7F,
        decreases b@.len() - i,
    {
        if b[i] <= 0x20 || b[i] == 0x7F {
            return false;
        }
        i += 1;
    }
    true
}

impl MatrixClient {
    /// Create a new client with the given identity. `crypto` is what the
    /// generation of the device keys gave; without keys there is no client.
    pub fn new(
        homeserver: &str,
        user_id: &str,
        device_id: &str,
        access_token: &str,
        crypto: Result<MatrixCrypto, CryptoError>,
    ) -> (r: Result<Self, CryptoError>)
        ensures
            match crypto {
                Ok(c) => r is Ok && r->Ok_0@ == ClientModel::fresh(
                    homeserver@,
                    user_id@,
                    device_id@,
                    access_token@,
                    c@,
                ),
                Err(e) => r == Err::<MatrixClient, CryptoError>(e),
            },
    {
        match crypto {
            Err(e) => Err(e),
            Ok(crypto) => {
                let client = MatrixClient {
                    homeserver: homeserver.to_owned(),
                    user_id: user_id.to_owned(),
                    device_id: device_id.to_owned(),
                    access_token: access_token.to_owned(),
                    sync_token: None,
                    rooms: Vec::new(),
                    outbox: Vec::new(),
                    sync_interval_ms: SYNC_INTERVAL_ACTIVE_MS,
                    last_sync_tick: 0,
                    next_txn_id: TXN_ID_START,
                    crypto,
                };
                assert(client@.rooms =~= Seq::empty());
                assert(client@.outbox =~= Seq::empty());
                Ok(client)
            },
        }
    }

    /// Return the list of tracked rooms.
    pub fn rooms(&self) -> (r: &[Room])
        ensures
            rooms_model(r@) == self@.rooms,
    {
        self.rooms.as_slice()
    }

    /// The position of a room in the list.
    fn position_of(&self, room_id: &str) -> (r: Option<usize>)
        ensures
            match room_index(self@.rooms, room_id@, 0) {
                Some(i) => r is Some && r->0 == i,
                None => r is None,
            },
            r matches Some(i) ==> i < self.rooms@.len(),
    {
        let ghost rooms = rooms_model(self.rooms@);
        let mut i: usize = 0;
        while i < self.rooms.len()
            invariant
                i <= self.rooms@.len(),
                rooms == rooms_model(self.rooms@),
                room_index(rooms, room_id@, 0) == room_index(rooms, room_id@, i as int),
            decreases self.rooms@.len() - i,
        {
            if same_text(self.rooms[i].room_id.as_str(), room_id) {
                return Some(i);
            }
            i += 1;
        }
        None
    }

    /// Find a room by ID in the tracked rooms list.
    pub fn find_room(&self, room_id: &str) -> (r: Option<&Room>)
        ensures
            match room_index(self@.rooms, room_id@, 0) {
                Some(i) => r is Some && r->0@ == self@.rooms[i],
                None => r is None,
            },
    {
        match self.position_of(room_id) {
            Some(i) => Some(&self.rooms[i]),
            None => None,
        }
    }

    /// Return messages for a specific room, if it exists.
    pub fn room_messages(&self, room_id: &str) -> (r: Option<&[MatrixMessage]>)
        ensures
            match room_index(self@.rooms, room_id@, 0) {
                Some(i) => r is Some && messages_model(r->0@) == self@.rooms[i].messages,
                None => r is None,
            },
    {
        match self.find_room(room_id) {
            Some(room) => Some(room.messages.as_slice()),
            None => None,
        }
    }

    /// Mark all of a room's messages as read. Returns whether the room is
    /// tracked.
    pub fn mark_room_read(&mut self, room_id: &str) -> (r: bool)
        ensures
            match room_index(old(self)@.rooms, room_id@, 0) {
                Some(i) => r && final(self)@ == (ClientModel {
                    rooms: old(self)@.rooms.update(
                        i,
                        RoomModel { unread_count: 0, ..old(self)@.rooms[i] },
                    ),
                    ..old(self)@
                }),
                None => !r && final(self)@ == old(self)@,
            },
    {
        match self.position_of(room_id) {
            Some(i) => {
                let room = &mut self.rooms[i];
                room.unread_count = 0;
                proof {
                    assert(self@.rooms =~= old(self)@.rooms.update(
                        i as int,
                        RoomModel { unread_count: 0, ..old(self)@.rooms[i as int] },
                    ));
                }
                true
            },
            None => false,
        }
    }

    /// Return the homeserver hostname.
    pub fn homeserver(&self) -> (r: &str)
        ensures
            r@ == self@.homeserver,
    {
        self.homeserver.as_str()
    }

    /// Return the authenticated user ID.
    pub fn user_id(&self) -> (r: &str)
        ensures
            r@ == self@.user_id,
    {
        self.user_id.as_str()
    }

    /// Return the device ID.
    pub fn device_id(&self) -> (r: &str)
        ensures
            r@ == self@.device_id,
    {
        self.device_id.as_str()
    }

    /// Return a reference to the encryption state.
    pub fn crypto(&self) -> (r: &MatrixCrypto)
        ensures
            r@ == self@.crypto,
    {
        &self.crypto
    }

    /// Return a mutable reference to the encryption state.
    pub fn crypto_mut(&mut self) -> (r: &mut MatrixCrypto)
        ensures
            r@ == old(self)@.crypto,
            final(self)@ == (ClientModel { crypto: final(r)@, ..old(self)@ }),
    {
        &mut self.crypto
    }

    /// Return the current outbox contents.
    pub fn outbox(&self) -> (r: &[PendingMessage])
        ensures
            outbox_model(r@) == self@.outbox,
    {
        self.outbox.as_slice()
    }

    /// Return the current sync token, if set.
    pub fn sync_token(&self) -> (r: Option<&str>)
        ensures
            match self@.sync_token {
                Some(t) => r is Some && r->0@ == t,
                None => r is None,
            },
    {
        match &self.sync_token {
            Some(t) => Some(t.as_str()),
            None => None,
        }
    }

    /// Check whether another sync is due: always without an interval, never
    /// while sync is disabled, and otherwise once the interval (in ticks of
    /// 10 ms) has passed since the last one.
    pub fn should_sync(&self, current_tick: u64) -> (r: bool)
        ensures
            r == self@.sync_due(current_tick as int),
    {
        if self.sync_interval_ms == 0 {
            return true;
        }
        if self.sync_interval_ms == u64::MAX {
            return false;
        }
        let interval_ticks: u64 = self.sync_interval_ms / 10;
        current_tick >= self.last_sync_tick.saturating_add(interval_ticks)
    }

    /// Update the sync interval based on the current security mode and whether
    /// the screen is active.
    pub fn update_sync_cadence(&mut self, mode: SecurityMode, screen_on: bool)
        ensures
            final(self)@ == (ClientModel {
                sync_interval_ms: cadence(mode, screen_on),
                ..old(self)@
            }),
    {
        self.sync_interval_ms = match mode {
            SecurityMode::Daily => {
                if screen_on {
                    SYNC_INTERVAL_ACTIVE_MS
                } else {
                    SYNC_INTERVAL_IDLE_MS
                }
            },
            SecurityMode::Sentinel | SecurityMode::Panic => u64::MAX,
        };
    }

    /// Build a `/sync` HTTP request.
    pub fn build_sync_request(&self) -> (r: Result<HttpRequest, MatrixError>)
        ensures
            match self@.sync_request() {
                Ok(q) => r is Ok && r->Ok_0@ == q,
                Err(e) => r is Err && r->Err_0@ == e,
            },
    {
        if self.sync_interval_ms == u64::MAX {
            return Err(MatrixError::SyncDisabled);
        }
        let mut path = "/_matrix/client/v3".to_owned();
        path.append("/sync?timeout=");
        push_u64(&mut path, SYNC_LONG_POLL_MS);
        match &self.sync_token {
            Some(token) => {
                if !safe_token(token.as_str()) {
                    return Err(MatrixError::MalformedSync);
                }
                path.append("&since=");
                path.append(token.as_str());
            },
            None => {},
        }
        let mut req = get(self.homeserver.as_str(), path.as_str());
        with_auth(&mut req, self.access_token.as_str());
        Ok(req)
    }

    /// Find the index of a room by ID, or create it if it does not exist.
    pub fn find_or_create_room(&mut self, room_id: &str) -> (r: Result<usize, MatrixError>)
        ensures
            match room_index(old(self)@.rooms, room_id@, 0) {
                Some(i) => r is Ok && r->Ok_0 == i && final(self)@ == old(self)@,
                None => if old(self)@.rooms.len() >= MAX_ROOMS {
                    r is Err && r->Err_0@ == ErrorModel::RoomCapacityReached && final(self)@ == old(
                        self,
                    )@
                } else {
                    match id_fault('!', room_id@) {
                        Some(e) => r is Err && r->Err_0@ == ErrorModel::InvalidId(e) && final(self)@
                            == old(self)@,
                        None => r is Ok && r->Ok_0 == old(self)@.rooms.len() && final(self)@ == (
                        ClientModel {
                            rooms: old(self)@.rooms.push(
                                RoomModel::fresh(room_id@, room_id@, false),
                            ),
                            ..old(self)@
                        }),
                    }
                },
            },
            r matches Ok(i) ==> i < final(self)@.rooms.len(),
    {
        match self.position_of(room_id) {
            Some(i) => {
                return Ok(i);
            },
            None => {},
        }
        if self.rooms.len() >= MAX_ROOMS {
            return Err(MatrixError::RoomCapacityReached);
        }
        match Room::new(room_id, room_id.to_owned(), false) {
            Ok(room) => {
                self.rooms.push(room);
                proof {
                    assert(self@.rooms =~= old(self)@.rooms.push(
                        RoomModel::fresh(room_id@, room_id@, false),
                    ));
                }
                Ok(self.rooms.len() - 1)
            },
            Err(e) => Err(e),
        }
    }
}

/// The sync interval of a mode.
pub open spec fn cadence(mode: SecurityMode, screen_on: bool) -> int {
    match mode {
        SecurityMode::Daily => if screen_on {
            SYNC_INTERVAL_ACTIVE_MS as int
        } else {
            SYNC_INTERVAL_IDLE_MS as int
        },
        _ => u64::MAX as int,
    }
}

impl ClientModel {
    /// Whether a sync is due at a tick.
    pub open spec fn sync_due(self, tick: int) -> bool {
        if self.sync_interval_ms == 0 {
            true
        } else if self.sync_interval_ms == u64::MAX {
            false
        } else {
            let due = self.last_sync_tick + self.sync_interval_ms / 10;
            tick >= due || (due > u64::MAX && tick == u64::MAX)
        }
    }

    /// The request for the next sync.
    pub open spec fn sync_request(self) -> Result<RequestModel, ErrorModel> {
        let base = "/_matrix/client/v3"@ + "/sync?timeout="@ + ascii(
            decimal(SYNC_LONG_POLL_MS as nat),
        );
        if self.sync_interval_ms == u64::MAX {
            Err(ErrorModel::SyncDisabled)
        } else {
            match self.sync_token {
                None => Ok(
                    self.authorized(plain_request(HttpMethod::Get, self.homeserver, base)),
                ),
                Some(token) => if token_is_safe(token) {
                    Ok(
                        self.authorized(
                            plain_request(
                                HttpMethod::Get,
                                self.homeserver,
                                base + "&since="@ + token,
                            ),
                        ),
                    )
                } else {
                    Err(ErrorModel::MalformedSync)
                },
            }
        }
    }
}

/// The outbox without the messages of a transaction.
pub open spec fn without_txn(outbox: Seq<PendingModel>, txn_id: int) -> Seq<PendingModel>
    decreases outbox.len(),
{
    if outbox.len() == 0 {
        Seq::empty()
    } else {
        let rest = without_txn(outbox.drop_last(), txn_id);
        if outbox.last().txn_id != txn_id {
            rest.push(outbox.last())
        } else {
            rest
        }
    }
}

impl ClientModel {
    /// The client with one more pending message.
    pub open spec fn with_pending(self, room: Seq<char>, body: Seq<char>) -> ClientModel {
        ClientModel {
            outbox: self.outbox.push(
                PendingModel { room_id: room, body, txn_id: self.next_txn_id },
            ),
            ..self.next_transaction()
        }
    }

    /// Why a message cannot be put into the outbox, where it cannot.
    pub open spec fn outbox_fault(self, room: Seq<char>) -> Option<ErrorModel> {
        if self.outbox.len() >= MAX_OUTBOX_MESSAGES {
            Some(ErrorModel::OutboxFull)
        } else {
            match id_fault('!', room) {
                Some(e) => Some(ErrorModel::InvalidId(e)),
                None => None,
            }
        }
    }

    /// The request that sends a plain message.
    pub open spec fn plain_send(self, room: Seq<char>, body: Seq<char>) -> RequestModel {
        self.event_request(room, "/send/m.room.message/"@, self.next_txn_id, message_body(body))
    }

    /// What a join response does to the client, and what is reported.
    pub open spec fn after_join(self, room: Seq<char>, response: ResponseModel) -> (
        ClientModel,
        Result<(), ErrorModel>,
    ) {
        if !(200 <= response.status < 300) {
            (self, Err(server_error(response)))
        } else if room_index(self.rooms, room, 0) is Some {
            (self, Ok(()))
        } else if self.rooms.len() >= MAX_ROOMS {
            (self, Err(ErrorModel::RoomCapacityReached))
        } else {
            match id_fault('!', room) {
                Some(e) => (self, Err(ErrorModel::InvalidId(e))),
                None => (
                    ClientModel {
                        rooms: self.rooms.push(RoomModel::fresh(room, room, false)),
                        ..self
                    },
                    Ok(()),
                ),
            }
        }
    }
}

/// The event identifier that a send response gives.
pub open spec fn sent_event(response: ResponseModel) -> Result<Seq<char>, ErrorModel> {
    if !(200 <= response.status < 300) {
        Err(server_error(response))
    } else {
        match body_document(response) {
            None => Err(ErrorModel::MissingSendResponse),
            Some(Err(e)) => Err(ErrorModel::Json(e)),
            Some(Ok(root)) => match text_field(root, "event_id"@) {
                Some(id) => Ok(id),
                None => Err(ErrorModel::MissingSendResponse),
            },
        }
    }
}

/// What sealed messages stand for.
pub open spec fn sealed_model(sealed: Seq<SealedMessage>) -> Seq<SealedModel> {
    Seq::new(sealed.len(), |i: int| sealed[i]@)
}

/// What seal requests stand for.
pub open spec fn seal_requests_model(requests: Seq<SealRequest>) -> Seq<SealRequestModel> {
    Seq::new(requests.len(), |i: int| requests[i]@)
}

/// What the outcomes of a flush stand for.
pub open spec fn flush_model(results: Seq<Result<(HttpRequest, u32), MatrixError>>) -> Seq<
    Result<(RequestModel, int), ErrorModel>,
> {
    Seq::new(
        results.len(),
        |i: int|
            match results[i] {
                Ok((request, txn_id)) => Ok((request@, txn_id as int)),
                Err(e) => Err(e@),
            },
    )
}

impl MatrixClient {
    /// Process a `/sync` HTTP response: timeline events of joined rooms are
    /// added to the rooms, and the sync token advances.
    pub fn process_sync_response(&mut self, response: &HttpResponse, current_tick: u64) -> (r:
        Result<SyncResult, MatrixError>)
        ensures
            final(self)@ == old(self)@.after_sync(response@, current_tick as int).0,
            match old(self)@.after_sync(response@, current_tick as int).1 {
                Ok(m) => r is Ok && r->Ok_0@ == m,
                Err(e) => r is Err && r->Err_0@ == e,
            },
    {
        let ghost before = self@;
        self.last_sync_tick = current_tick;
        if !response.is_success() {
            return Err(parse_error_response(response));
        }
        let body_str = match response.body_as_str() {
            Some(s) => s,
            None => {
                return Err(MatrixError::MalformedSync);
            },
        };
        let root = match JsonParser::parse(body_str.as_bytes()) {
            Ok(v) => v,
            Err(e) => {
                return Err(MatrixError::from(e));
            },
        };
        let next_batch = match text_at(&root, "next_batch") {
            Some(t) => t,
            None => {
                return Err(MatrixError::MalformedSync);
            },
        };
        self.sync_token = Some(next_batch.to_owned());
        let mut result = SyncResult {
            new_messages: Vec::new(),
            rooms_updated: 0,
            rooms_over_capacity: 0,
            rooms_malformed: 0,
            next_batch: next_batch.to_owned(),
        };
        let ghost token = next_batch@;
        let ghost start = SyncState { rooms: before.rooms, result: empty_result(token) };
        assert(result@ =~= empty_result(token));
        let rooms_obj = match root.get("rooms") {
            Some(r) => r,
            None => {
                return Ok(result);
            },
        };
        let join_obj = match rooms_obj.get("join") {
            Some(j) => j,
            None => {
                return Ok(result);
            },
        };
        let join_entries = match join_obj.as_object() {
            Some(entries) => entries,
            None => {
                return Ok(result);
            },
        };
        let ghost joined = entries_model(join_entries@);
        let mut k: usize = 0;
        while k < join_entries.len()
            invariant
                k <= join_entries@.len(),
                joined == entries_model(join_entries@),
                self@ == (ClientModel {
                    last_sync_tick: current_tick as int,
                    sync_token: Some(token),
                    rooms: start.after_rooms(joined, before.crypto, k as nat).rooms,
                    ..before
                }),
                result@ == start.after_rooms(joined, before.crypto, k as nat).result,
            decreases join_entries@.len() - k,
        {
            let ghost st = start.after_rooms(joined, before.crypto, k as nat);
            let room_id = join_entries[k].0.as_str();
            let events = extract_timeline_events(&join_entries[k].1);
            assert(joined[k as int] == (room_id@, join_entries@[k as int].1@));
            let ghost evs = refs_model(events@);
            k += 1;
            if events.len() == 0 {
                continue;
            }
            let room_idx: usize = match self.find_or_create_room(room_id) {
                Ok(idx) => idx,
                Err(MatrixError::RoomCapacityReached) => {
                    result.rooms_over_capacity = result.rooms_over_capacity.saturating_add(1);
                    assert(result@ =~= start.after_rooms(joined, before.crypto, k as nat).result);
                    continue;
                },
                Err(_) => {
                    result.rooms_malformed = result.rooms_malformed.saturating_add(1);
                    assert(result@ =~= start.after_rooms(joined, before.crypto, k as nat).result);
                    continue;
                },
            };
            result.rooms_updated = result.rooms_updated.saturating_add(1);
            let ghost base = SyncState { rooms: self@.rooms, result: result@ };
            assert(base.result =~= SyncModel {
                rooms_updated: one_more(st.result.rooms_updated),
                ..st.result
            });
            let mut j: usize = 0;
            while j < events.len()
                invariant
                    j <= events@.len(),
                    evs == refs_model(events@),
                    evs.len() == events@.len(),
                    room_idx < self@.rooms.len(),
                    self@ == (ClientModel {
                        last_sync_tick: current_tick as int,
                        sync_token: Some(token),
                        rooms: base.after_events(
                            room_idx as int,
                            evs,
                            room_id@,
                            before.crypto,
                            j as nat,
                        ).rooms,
                        ..before
                    }),
                    result@ == base.after_events(
                        room_idx as int,
                        evs,
                        room_id@,
                        before.crypto,
                        j as nat,
                    ).result,
                decreases events@.len() - j,
            {
                let ghost now = base.after_events(
                    room_idx as int,
                    evs,
                    room_id@,
                    before.crypto,
                    j as nat,
                );
                assert(evs[j as int] == events@[j as int]@);
                match parse_timeline_event(events[j], room_id, &self.crypto) {
                    Some(msg) => {
                        let incoming = IncomingMessage {
                            room_id: self.rooms[room_idx].room_id.clone(),
                            event_id: msg.event_id.clone(),
                            sender: msg.sender.clone(),
                            body: msg.body.clone(),
                            timestamp: msg.timestamp,
                            encrypted: msg.encrypted,
                        };
                        let ghost arrived = incoming@;
                        let ghost m = msg@;
                        let ghost rooms_before = self@.rooms;
                        let room = &mut self.rooms[room_idx];
                        room.add_message(msg);
                        result.new_messages.push(incoming);
                        proof {
                            assert(self@.rooms =~= rooms_before.update(
                                room_idx as int,
                                rooms_before[room_idx as int].with_message(m),
                            ));
                            assert(result@.new_messages =~= now.result.new_messages.push(arrived));
                        }
                    },
                    None => {},
                }
                j += 1;
            }
        }
        Ok(result)
    }

    /// Process the response of a sync cycle.
    pub fn sync(&mut self, response: &HttpResponse, current_tick: u64) -> (r: Result<
        SyncResult,
        MatrixError,
    >)
        ensures
            final(self)@ == old(self)@.after_sync(response@, current_tick as int).0,
            match old(self)@.after_sync(response@, current_tick as int).1 {
                Ok(m) => r is Ok && r->Ok_0@ == m,
                Err(e) => r is Err && r->Err_0@ == e,
            },
    {
        self.process_sync_response(response, current_tick)
    }

    /// The path of an event request.
    fn event_path(room_id: &str, kind: &str, txn_id: u32) -> (path: String)
        ensures
            path@ == "/_matrix/client/v3"@ + "/rooms/"@ + room_id@ + kind@ + ascii(
                decimal(txn_id as nat),
            ),
    {
        let mut path = "/_matrix/client/v3".to_owned();
        path.append("/rooms/");
        path.append(room_id);
        path.append(kind);
        push_u32(&mut path, txn_id);
        path
    }

    /// Build a send-message HTTP request for the given room, with the next
    /// transaction ID.
    pub fn build_send_request(&mut self, room_id: &str, body: &str) -> (r: Result<
        (HttpRequest, u32),
        MatrixError,
    >)
        ensures
            final(self)@ == old(self)@.next_transaction(),
            r is Ok,
            r->Ok_0.0@ == old(self)@.plain_send(room_id@, body@),
            r->Ok_0.1 == old(self)@.next_txn_id,
    {
        let txn_id: u32 = self.next_txn_id;
        self.next_txn_id = self.next_txn_id.saturating_add(1);
        let path = Self::event_path(room_id, "/send/m.room.message/", txn_id);
        let json_body = build_message_body(body);
        let mut req = put_json(
            self.homeserver.as_str(),
            path.as_str(),
            json_body.as_str().as_bytes(),
        );
        with_auth(&mut req, self.access_token.as_str());
        Ok((req, txn_id))
    }

    /// Build an encrypted send-message HTTP request for the given room, with the
    /// next transaction ID. `sealed` is what the cipher gave for the message.
    pub fn build_encrypted_send_request(&mut self, room_id: &str, sealed: &SealedMessage) -> (r:
        Result<(HttpRequest, u32), MatrixError>)
        ensures
            ({
                let (after, built) = old(self)@.next_transaction().after_megolm(
                    room_id@,
                    old(self)@.next_txn_id,
                    sealed@,
                );
                &&& final(self)@ == after
                &&& match built {
                    Ok(q) => r is Ok && r->Ok_0.0@ == q && r->Ok_0.1 == old(self)@.next_txn_id,
                    Err(e) => r is Err && r->Err_0@ == e,
                }
            }),
    {
        let txn_id: u32 = self.next_txn_id;
        self.next_txn_id = self.next_txn_id.saturating_add(1);
        match self.build_megolm_request(room_id, txn_id, sealed) {
            Ok(req) => Ok((req, txn_id)),
            Err(e) => Err(e),
        }
    }

    /// Build the `m.room.encrypted` PUT request of a transaction. A room without
    /// an outbound session gets the fresh one. This is the single encrypted send
    /// path.
    pub fn build_megolm_request(&mut self, room_id: &str, txn_id: u32, sealed: &SealedMessage) -> (r:
        Result<HttpRequest, MatrixError>)
        ensures
            final(self)@ == old(self)@.after_megolm(room_id@, txn_id as int, sealed@).0,
            match old(self)@.after_megolm(room_id@, txn_id as int, sealed@).1 {
                Ok(q) => r is Ok && r->Ok_0@ == q,
                Err(e) => r is Err && r->Err_0@ == e,
            },
    {
        let session_id: [u8; 32] = match self.crypto.find_outbound_megolm(room_id) {
            Some(session) => session.session_id,
            None => match sealed.fresh_session {
                Ok(id) => {
                    self.crypto.create_outbound_megolm(room_id, id);
                    id
                },
                Err(e) => {
                    return Err(crypto_error(e));
                },
            },
        };
        let ciphertext = match &sealed.ciphertext {
            Ok(c) => c,
            Err(e) => {
                return Err(crypto_error(*e));
            },
        };
        let path = Self::event_path(room_id, "/send/m.room.encrypted/", txn_id);
        let json_body = build_encrypted_body(ciphertext.as_slice(), &session_id);
        let mut req = put_json(
            self.homeserver.as_str(),
            path.as_str(),
            json_body.as_str().as_bytes(),
        );
        with_auth(&mut req, self.access_token.as_str());
        Ok(req)
    }

    /// What the cipher needs to encrypt a message for a room; what it gives goes
    /// to [`Self::build_encrypted_send_request`].
    pub fn seal_request(&self, room_id: &str, body: &str) -> (r: SealRequest)
        ensures
            r@ == self@.seal_of(room_id@, body@),
    {
        let session = match self.crypto.find_outbound_megolm(room_id) {
            Some(session) => Some(session.session_id),
            None => None,
        };
        SealRequest {
            room_id: room_id.to_owned(),
            plaintext: copy_bytes(body.as_bytes()),
            session,
        }
    }

    /// What the cipher needs to encrypt each message of the outbox, in order; what
    /// it gives goes to [`Self::flush_outbox`].
    pub fn to_seal(&self) -> (r: Vec<SealRequest>)
        ensures
            seal_requests_model(r@) == self@.to_seal(),
    {
        let mut requests: Vec<SealRequest> = Vec::new();
        let mut i: usize = 0;
        while i < self.outbox.len()
            invariant
                i <= self.outbox@.len(),
                requests@.len() == i,
                forall|j: int| 0 <= j < i ==> (#[trigger] requests@[j])@ == self@.to_seal()[j],
            decreases self.outbox@.len() - i,
        {
            let message = &self.outbox[i];
            assert(self@.outbox[i as int] == message@);
            requests.push(self.seal_request(message.room_id.as_str(), message.body.as_str()));
            i += 1;
        }
        assert(seal_requests_model(requests@) =~= self@.to_seal());
        requests
    }

    /// Process a send-message HTTP response: the event ID assigned by the server.
    pub fn process_send_response(&self, response: &HttpResponse) -> (r: Result<String, MatrixError>)
        ensures
            match sent_event(response@) {
                Ok(id) => r is Ok && r->Ok_0@ == id,
                Err(e) => r is Err && r->Err_0@ == e,
            },
    {
        if !response.is_success() {
            return Err(parse_error_response(response));
        }
        let body_str = match response.body_as_str() {
            Some(s) => s,
            None => {
                return Err(MatrixError::MissingSendResponse);
            },
        };
        let root = match JsonParser::parse(body_str.as_bytes()) {
            Ok(v) => v,
            Err(e) => {
                return Err(MatrixError::from(e));
            },
        };
        match text_at(&root, "event_id") {
            Some(id) => Ok(id.to_owned()),
            None => Err(MatrixError::MissingSendResponse),
        }
    }

    /// Build a message's request and queue the message in the outbox for retry.
    pub fn send_message(&mut self, room_id: &str, body: &str) -> (r: Result<
        (HttpRequest, u32),
        MatrixError,
    >)
        ensures
            match old(self)@.outbox_fault(room_id@) {
                Some(e) => r is Err && r->Err_0@ == e && final(self)@ == old(self)@,
                None => {
                    &&& r is Ok
                    &&& r->Ok_0.0@ == old(self)@.plain_send(room_id@, body@)
                    &&& r->Ok_0.1 == old(self)@.next_txn_id
                    &&& final(self)@ == old(self)@.with_pending(room_id@, body@)
                },
            },
    {
        if self.outbox.len() >= MAX_OUTBOX_MESSAGES {
            return Err(MatrixError::OutboxFull);
        }
        let validated_room = match MatrixRoomId::new(room_id) {
            Ok(id) => id,
            Err(e) => {
                return Err(MatrixError::from(e));
            },
        };
        let (req, txn_id) = match self.build_send_request(room_id, body) {
            Ok(built) => built,
            Err(e) => {
                return Err(e);
            },
        };
        let ghost before = self@.outbox;
        self.outbox.push(PendingMessage { room_id: validated_room, body: body.to_owned(), txn_id });
        assert(self@.outbox =~= before.push(
            PendingModel { room_id: room_id@, body: body@, txn_id: txn_id as int },
        ));
        Ok((req, txn_id))
    }

    /// Remove a successfully sent message from the outbox by transaction ID.
    pub fn confirm_sent(&mut self, txn_id: u32)
        ensures
            final(self)@ == (ClientModel {
                outbox: without_txn(old(self)@.outbox, txn_id as int),
                ..old(self)@
            }),
    {
        let ghost all = self@.outbox;
        let ghost mut seen: int = 0;
        let mut i: usize = 0;
        assert(all.take(0) =~= Seq::empty());
        assert(Seq::<PendingModel>::empty() + all.skip(0) =~= all);
        while i < self.outbox.len()
            invariant
                0 <= seen <= all.len(),
                i <= self.outbox@.len(),
                i == without_txn(all.take(seen), txn_id as int).len(),
                outbox_model(self.outbox@) == without_txn(all.take(seen), txn_id as int)
                    + all.skip(seen),
                self@ == (ClientModel { outbox: self@.outbox, ..old(self)@ }),
                all == old(self)@.outbox,
            decreases all.len() - seen,
        {
            let ghost kept = without_txn(all.take(seen), txn_id as int);
            proof {
                assert(all.take(seen + 1).drop_last() =~= all.take(seen));
                assert(outbox_model(self.outbox@)[i as int] == all.skip(seen)[0]);
                assert(all.take(seen + 1).last() == all[seen]);
            }
            if self.outbox[i].txn_id == txn_id {
                let ghost now = self.outbox@;
                let _sent = self.outbox.remove(i);
                proof {
                    assert(outbox_model(self.outbox@) =~= outbox_model(now).remove(i as int));
                    assert((kept + all.skip(seen)).remove(i as int) =~= kept + all.skip(seen + 1));
                }
            } else {
                i += 1;
                proof {
                    assert(kept + all.skip(seen) =~= kept.push(all[seen]) + all.skip(seen + 1));
                }
            }
            proof {
                seen = seen + 1;
            }
        }
        proof {
            assert(all.skip(seen).len() == 0);
            assert(all.take(seen) =~= all);
            assert(self@.outbox =~= without_txn(all, txn_id as int));
        }
    }

    /// Queue a message for later sending (when offline).
    pub fn queue_message(&mut self, room_id: &str, body: &str) -> (r: Result<(), MatrixError>)
        ensures
            match old(self)@.outbox_fault(room_id@) {
                Some(e) => r is Err && r->Err_0@ == e && final(self)@ == old(self)@,
                None => r is Ok && final(self)@ == old(self)@.with_pending(room_id@, body@),
            },
    {
        if self.outbox.len() >= MAX_OUTBOX_MESSAGES {
            return Err(MatrixError::OutboxFull);
        }
        let validated_room = match MatrixRoomId::new(room_id) {
            Ok(id) => id,
            Err(e) => {
                return Err(MatrixError::from(e));
            },
        };
        let txn_id: u32 = self.next_txn_id;
        self.next_txn_id = self.next_txn_id.saturating_add(1);
        self.outbox.push(PendingMessage { room_id: validated_room, body: body.to_owned(), txn_id });
        assert(self@.outbox =~= old(self)@.outbox.push(
            PendingModel { room_id: room_id@, body: body@, txn_id: txn_id as int },
        ));
        Ok(())
    }

    /// Build encrypted HTTP requests for all pending outbox messages, with what
    /// the cipher gave for each. Messages stay in the outbox until they are
    /// confirmed; a failed encryption affects its own message only.
    pub fn flush_outbox(&mut self, sealed: &[SealedMessage]) -> (r: Vec<
        Result<(HttpRequest, u32), MatrixError>,
    >)
        requires
            sealed@.len() == old(self)@.outbox.len(),
        ensures
            (final(self)@, flush_model(r@)) == old(self)@.after_flush(
                sealed_model(sealed@),
                old(self)@.outbox.len(),
            ),
            final(self)@.outbox == old(self)@.outbox,
    {
        let ghost start = self@;
        let ghost seals = sealed_model(sealed@);
        let mut results: Vec<Result<(HttpRequest, u32), MatrixError>> = Vec::new();
        assert(flush_model(results@) =~= Seq::empty());
        let mut i: usize = 0;
        while i < self.outbox.len()
            invariant
                i <= self.outbox@.len(),
                seals == sealed_model(sealed@),
                sealed@.len() == start.outbox.len(),
                self@.outbox == start.outbox,
                (self@, flush_model(results@)) == start.after_flush(seals, i as nat),
            decreases self.outbox@.len() - i,
        {
            let ghost so_far = flush_model(results@);
            let room_id = self.outbox[i].room_id.clone();
            let txn_id: u32 = self.outbox[i].txn_id;
            assert(start.outbox[i as int] == self.outbox@[i as int]@);
            assert(seals[i as int] == sealed@[i as int]@);
            let result = match self.build_megolm_request(room_id.as_str(), txn_id, &sealed[i]) {
                Ok(req) => Ok((req, txn_id)),
                Err(e) => Err(e),
            };
            results.push(result);
            i += 1;
            assert(flush_model(results@) =~= start.after_flush(seals, i as nat).1);
        }
        results
    }

    /// Build a join-room HTTP request.
    pub fn build_join_request(&self, room_id: &str) -> (r: Result<HttpRequest, MatrixError>)
        ensures
            match id_fault('!', room_id@) {
                Some(e) => r is Err && r->Err_0@ == ErrorModel::InvalidId(e),
                None => r is Ok && r->Ok_0@ == self@.authorized(
                    json_request(
                        HttpMethod::Post,
                        self@.homeserver,
                        "/_matrix/client/v3"@ + "/join/"@ + room_id@,
                        encode_utf8("{}"@),
                    ),
                ),
            },
    {
        let validated_room = match MatrixRoomId::new(room_id) {
            Ok(id) => id,
            Err(e) => {
                return Err(MatrixError::from(e));
            },
        };
        let mut path = "/_matrix/client/v3".to_owned();
        path.append("/join/");
        path.append(validated_room.as_str());
        let mut req = post_json(self.homeserver.as_str(), path.as_str(), "{}".as_bytes());
        with_auth(&mut req, self.access_token.as_str());
        Ok(req)
    }

    /// Process a join-room HTTP response: the room is added to the tracked rooms
    /// unless it is one already.
    pub fn process_join_response(&mut self, room_id: &str, response: &HttpResponse) -> (r: Result<
        (),
        MatrixError,
    >)
        ensures
            final(self)@ == old(self)@.after_join(room_id@, response@).0,
            match old(self)@.after_join(room_id@, response@).1 {
                Ok(()) => r is Ok,
                Err(e) => r is Err && r->Err_0@ == e,
            },
    {
        if !response.is_success() {
            return Err(parse_error_response(response));
        }
        match self.find_or_create_room(room_id) {
            Ok(_) => Ok(()),
            Err(e) => Err(e),
        }
    }

    /// Join a room: build the request. The caller handles transport.
    pub fn join_room(&self, room_id: &str) -> (r: Result<HttpRequest, MatrixError>)
        ensures
            match id_fault('!', room_id@) {
                Some(e) => r is Err && r->Err_0@ == ErrorModel::InvalidId(e),
                None => r is Ok && r->Ok_0@ == self@.authorized(
                    json_request(
                        HttpMethod::Post,
                        self@.homeserver,
                        "/_matrix/client/v3"@ + "/join/"@ + room_id@,
                        encode_utf8("{}"@),
                    ),
                ),
            },
    {
        self.build_join_request(room_id)
    }

    /// The client in a word, for diagnostics.
    pub fn to_string(&self) -> (r: String)
        ensures
            r@ == "MatrixClient("@ + self@.user_id + " on "@ + self@.homeserver + ", "@ + ascii(
                decimal(self@.rooms.len()),
            ) + " rooms, "@ + ascii(decimal(self@.outbox.len())) + " pending)"@,
    {
        let mut out = "MatrixClient(".to_owned();
        out.append(self.user_id.as_str());
        out.append(" on ");
        out.append(self.homeserver.as_str());
        out.append(", ");
        push_decimal(&mut out, self.rooms.len() as u64);
        out.append(" rooms, ");
        push_decimal(&mut out, self.outbox.len() as u64);
        out.append(" pending)");
        out
    }
}

} // verus!
