//! What the Matrix client knows of its end-to-end encryption.
//!
//! The cipher itself runs elsewhere. Here stand the outbound sessions by room,
//! and the encrypted events that were handed to the cipher with what it made of
//! them.
use crate::text::{same_bytes, same_text};
use vstd::prelude::*;

verus! {

broadcast use vstd::string::group_string_axioms;

/// Errors of the cipher.
#[derive(Debug, Clone, Copy, PartialEq, Eq, Structural)]
pub enum CryptoError {
    /// The random number generator is not seeded.
    EntropyUnavailable,
    /// There is nothing to encrypt.
    EmptyPlaintext,
    /// The message could not be encrypted.
    EncryptionFailed,
}

impl CryptoError {
    /// What the error is called in diagnostics.
    pub open spec fn message(self) -> Seq<char> {
        match self {
            CryptoError::EntropyUnavailable => "entropy unavailable"@,
            CryptoError::EmptyPlaintext => "empty plaintext"@,
            CryptoError::EncryptionFailed => "encryption failed"@,
        }
    }

    /// The diagnostic text of the error.
    pub fn to_string(&self) -> (r: String)
        ensures
            r@ == self.message(),
    {
        match self {
            CryptoError::EntropyUnavailable => "entropy unavailable".to_owned(),
            CryptoError::EmptyPlaintext => "empty plaintext".to_owned(),
            CryptoError::EncryptionFailed => "encryption failed".to_owned(),
        }
    }
}

/// The session that encrypts what is sent to a room.
#[derive(Debug)]
pub struct OutboundSession {
    /// The room.
    pub room_id: String,
    /// The session's identifier.
    pub session_id: [u8; 32],
}

/// What the cipher is given for a message to be sent.
#[derive(Debug)]
pub struct SealRequest {
    /// The room that the message goes to.
    pub room_id: String,
    /// The bytes to encrypt.
    pub plaintext: Vec<u8>,
    /// The session to encrypt with: `None` for a room that has none yet.
    pub session: Option<[u8; 32]>,
}

/// What the cipher gave for a message to be sent.
#[derive(Debug)]
pub struct SealedMessage {
    /// The identifier of a fresh session, for a room that has none yet.
    pub fresh_session: Result<[u8; 32], CryptoError>,
    /// The encrypted message.
    pub ciphertext: Result<Vec<u8>, CryptoError>,
}

/// An encrypted event that the cipher had an inbound session for.
#[derive(Debug)]
pub struct OpenedEvent {
    /// The session's identifier.
    pub session_id: [u8; 32],
    /// The encrypted text.
    pub ciphertext: Vec<u8>,
    /// The room that the event arrived in.
    pub room_id: String,
    /// The plaintext, unless decryption failed.
    pub plaintext: Option<Vec<u8>>,
}

/// What a [`SealRequest`] stands for.
#[verifier::ext_equal]
pub struct SealRequestModel {
    pub room_id: Seq<char>,
    pub plaintext: Seq<u8>,
    pub session: Option<Seq<u8>>,
}

impl View for SealRequest {
    type V = SealRequestModel;

    open spec fn view(&self) -> SealRequestModel {
        SealRequestModel {
            room_id: self.room_id@,
            plaintext: self.plaintext@,
            session: match self.session {
                Some(id) => Some(id@),
                None => None,
            },
        }
    }
}

/// What a [`SealedMessage`] stands for.
pub struct SealedModel {
    pub fresh_session: Result<Seq<u8>, CryptoError>,
    pub ciphertext: Result<Seq<u8>, CryptoError>,
}

impl View for SealedMessage {
    type V = SealedModel;

    open spec fn view(&self) -> SealedModel {
        SealedModel {
            fresh_session: match self.fresh_session {
                Ok(id) => Ok(id@),
                Err(e) => Err(e),
            },
            ciphertext: match self.ciphertext {
                Ok(c) => Ok(c@),
                Err(e) => Err(e),
            },
        }
    }
}

/// What an [`OpenedEvent`] stands for.
pub struct OpenedModel {
    pub session_id: Seq<u8>,
    pub ciphertext: Seq<u8>,
    pub room_id: Seq<char>,
    pub plaintext: Option<Seq<u8>>,
}

impl View for OpenedEvent {
    type V = OpenedModel;

    open spec fn view(&self) -> OpenedModel {
        OpenedModel {
            session_id: self.session_id@,
            ciphertext: self.ciphertext@,
            room_id: self.room_id@,
            plaintext: match self.plaintext {
                Some(p) => Some(p@),
                None => None,
            },
        }
    }
}

/// What a [`MatrixCrypto`] stands for.
#[verifier::ext_equal]
pub struct CryptoModel {
    /// Rooms and session identifiers, the oldest session first.
    pub outbound: Seq<(Seq<char>, Seq<u8>)>,
    /// The events that were opened, in the order in which they were recorded.
    pub opened: Seq<OpenedModel>,
}

/// The first session of a room, from a position on.
pub open spec fn outbound_index(
    sessions: Seq<(Seq<char>, Seq<u8>)>,
    room: Seq<char>,
    from: int,
) -> Option<int>
    decreases sessions.len() - from,
{
    if !(0 <= from < sessions.len()) {
        None
    } else if sessions[from].0 == room {
        Some(from)
    } else {
        outbound_index(sessions, room, from + 1)
    }
}

/// The first record of an opened event, from a position on.
pub open spec fn opened_index(
    events: Seq<OpenedModel>,
    session: Seq<u8>,
    ciphertext: Seq<u8>,
    room: Seq<char>,
    from: int,
) -> Option<int>
    decreases events.len() - from,
{
    if !(0 <= from < events.len()) {
        None
    } else if events[from].session_id == session && events[from].ciphertext == ciphertext
        && events[from].room_id == room {
        Some(from)
    } else {
        opened_index(events, session, ciphertext, room, from + 1)
    }
}

impl CryptoModel {
    /// The identifier of a room's outbound session.
    pub open spec fn session_of(self, room: Seq<char>) -> Option<Seq<u8>> {
        match outbound_index(self.outbound, room, 0) {
            Some(i) => Some(self.outbound[i].1),
            None => None,
        }
    }

    /// What the cipher made of an event.
    pub open spec fn opened_event(
        self,
        session: Seq<u8>,
        ciphertext: Seq<u8>,
        room: Seq<char>,
    ) -> Option<Option<Seq<u8>>> {
        match opened_index(self.opened, session, ciphertext, room, 0) {
            Some(i) => Some(self.opened[i].plaintext),
            None => None,
        }
    }
}

/// The encryption state of the client.
#[derive(Debug)]
pub struct MatrixCrypto {
    /// Outbound sessions, the oldest first.
    pub megolm_outbound: Vec<OutboundSession>,
    /// Encrypted events that were opened.
    pub opened: Vec<OpenedEvent>,
}

impl View for MatrixCrypto {
    type V = CryptoModel;

    open spec fn view(&self) -> CryptoModel {
        CryptoModel {
            outbound: Seq::new(
                self.megolm_outbound@.len(),
                |i: int| (self.megolm_outbound@[i].room_id@, self.megolm_outbound@[i].session_id@),
            ),
            opened: Seq::new(self.opened@.len(), |i: int| self.opened@[i]@),
        }
    }
}

impl MatrixCrypto {
    /// No sessions, nothing opened.
    pub fn new() -> (c: Self)
        ensures
            c@ == (CryptoModel { outbound: Seq::empty(), opened: Seq::empty() }),
    {
        let c = MatrixCrypto { megolm_outbound: Vec::new(), opened: Vec::new() };
        assert(c@ =~= CryptoModel { outbound: Seq::empty(), opened: Seq::empty() });
        c
    }

    /// The outbound session of a room.
    pub fn find_outbound_megolm(&self, room_id: &str) -> (r: Option<&OutboundSession>)
        ensures
            match self@.session_of(room_id@) {
                Some(id) => r is Some && r->0.session_id@ == id && r->0.room_id@ == room_id@,
                None => r is None,
            },
    {
        let mut i: usize = 0;
        while i < self.megolm_outbound.len()
            invariant
                i <= self.megolm_outbound@.len(),
                outbound_index(self@.outbound, room_id@, 0) == outbound_index(
                    self@.outbound,
                    room_id@,
                    i as int,
                ),
            decreases self.megolm_outbound@.len() - i,
        {
            if same_text(self.megolm_outbound[i].room_id.as_str(), room_id) {
                return Some(&self.megolm_outbound[i]);
            }
            i += 1;
        }
        None
    }

    /// Adds an outbound session for a room.
    pub fn create_outbound_megolm(&mut self, room_id: &str, session_id: [u8; 32])
        ensures
            final(self)@ == (CryptoModel {
                outbound: old(self)@.outbound.push((room_id@, session_id@)),
                ..old(self)@
            }),
    {
        self.megolm_outbound.push(OutboundSession { room_id: room_id.to_owned(), session_id });
        assert(self@.outbound =~= old(self)@.outbound.push((room_id@, session_id@)));
        assert(self@.opened =~= old(self)@.opened);
    }

    /// Records what the cipher made of an event.
    pub fn record_opened(&mut self, event: OpenedEvent)
        ensures
            final(self)@ == (CryptoModel {
                opened: old(self)@.opened.push(event@),
                ..old(self)@
            }),
    {
        self.opened.push(event);
        assert(self@.opened =~= old(self)@.opened.push(event@));
        assert(self@.outbound =~= old(self)@.outbound);
    }

    /// What the cipher made of an event: `None` where it had no inbound session
    /// for it.
    pub fn find_opened(&self, session_id: &[u8; 32], ciphertext: &[u8], room_id: &str) -> (r: Option<
        &OpenedEvent,
    >)
        ensures
            match self@.opened_event(session_id@, ciphertext@, room_id@) {
                Some(p) => r is Some && r->0@.plaintext == p,
                None => r is None,
            },
    {
        let mut i: usize = 0;
        while i < self.opened.len()
            invariant
                i <= self.opened@.len(),
                opened_index(self@.opened, session_id@, ciphertext@, room_id@, 0) == opened_index(
                    self@.opened,
                    session_id@,
                    ciphertext@,
                    room_id@,
                    i as int,
                ),
            decreases self.opened@.len() - i,
        {
            let e = &self.opened[i];
            if same_bytes(e.session_id.as_slice(), session_id.as_slice()) && same_bytes(
                e.ciphertext.as_slice(),
                ciphertext,
            ) && same_text(e.room_id.as_str(), room_id) {
                return Some(e);
            }
            i += 1;
        }
        None
    }
}

} // verus!
