//! What identifiers and sessions of the Matrix client promise.
use crate::matrix_crypto::{outbound_index, opened_index, CryptoModel, OpenedModel};
use crate::matrix_ids::{id_fault, MatrixIdError};
use vstd::prelude::*;

verus! {

/// Law: an identifier is its sigil and at least one character, all of them visible or behind
/// ASCII; a control character, a space or a delete makes it illegal wherever it stands.
pub proof fn law_identifiers_are_sigil_and_visible_characters(sigil: char, rest: Seq<char>, i: int)
    requires
        0x20 < sigil as u32,
        sigil as u32 != 0x7F,
    ensures
        ({
            let id = seq![sigil] + rest;
            &&& rest.len() == 0 ==> id_fault(sigil, id) == Some(MatrixIdError::Empty)
            &&& rest.len() > 0 && (forall|k: int|
                0 <= k < rest.len() ==> (#[trigger] rest[k]) as u32 > 0x20 && rest[k] as u32
                    != 0x7F) ==> id_fault(sigil, id) is None
            &&& 0 <= i < rest.len() && (rest[i] as u32 <= 0x20 || rest[i] as u32 == 0x7F)
                ==> id_fault(sigil, id) == Some(MatrixIdError::IllegalCharacter)
        }),
{
    let id = seq![sigil] + rest;
    assert(id[0] == sigil);
    assert forall|k: int| 0 <= k < rest.len() implies #[trigger] id[k + 1] == rest[k] by {}
    if 0 <= i < rest.len() {
        assert(id[i + 1] == rest[i]);
    }
    if rest.len() > 0 && (forall|k: int|
        0 <= k < rest.len() ==> (#[trigger] rest[k]) as u32 > 0x20 && rest[k] as u32 != 0x7F) {
        assert forall|k: int| 0 <= k < id.len() implies !crate::matrix_ids::is_illegal(
            #[trigger] id[k],
        ) by {
            if k > 0 {
                assert(id[k] == rest[k - 1]);
            }
        }
    }
}

/// Law: what does not begin with the sigil is no identifier, and neither is nothing.
pub proof fn law_identifiers_begin_with_their_sigil(sigil: char, other: char, rest: Seq<char>)
    requires
        other != sigil,
    ensures
        id_fault(sigil, seq![other] + rest) == Some(MatrixIdError::MissingSigil),
        id_fault(sigil, Seq::empty()) == Some(MatrixIdError::MissingSigil),
{
    assert((seq![other] + rest)[0] == other);
}

/// Law: the errors of an identifier read as what they are.
pub proof fn law_identifier_errors_are_named(e: MatrixIdError)
    ensures
        e == MatrixIdError::MissingSigil ==> e.message() == "missing sigil"@,
        e == MatrixIdError::Empty ==> e.message() == "empty identifier"@,
        e == MatrixIdError::IllegalCharacter ==> e.message() == "illegal character"@,
{
}

proof fn lemma_outbound(sessions: Seq<(Seq<char>, Seq<u8>)>, room: Seq<char>, from: int, at: int)
    requires
        0 <= from <= at <= sessions.len(),
        forall|k: int| from <= k < at ==> (#[trigger] sessions[k]).0 != room,
        at < sessions.len() ==> sessions[at].0 == room,
    ensures
        outbound_index(sessions, room, from) == if at < sessions.len() {
            Some(at)
        } else {
            None::<int>
        },
    decreases at - from,
{
    if from < at {
        assert(sessions[from].0 != room);
        lemma_outbound(sessions, room, from + 1, at);
    }
}

/// Law: a room's session is the first that was made for it; a room for which none was made has
/// none.
pub proof fn law_a_room_has_its_first_session(c: CryptoModel, room: Seq<char>, at: int)
    requires
        0 <= at <= c.outbound.len(),
        forall|k: int| 0 <= k < at ==> (#[trigger] c.outbound[k]).0 != room,
        at < c.outbound.len() ==> c.outbound[at].0 == room,
    ensures
        at < c.outbound.len() ==> c.session_of(room) == Some(c.outbound[at].1),
        at == c.outbound.len() ==> c.session_of(room) is None,
{
    lemma_outbound(c.outbound, room, 0, at);
}

/// Law: a session that is made for a room without one is the room's session from then on, and
/// those of other rooms stay.
pub proof fn law_a_new_session_is_the_rooms(
    c: CryptoModel,
    room: Seq<char>,
    session: Seq<u8>,
    other: Seq<char>,
)
    requires
        other != room,
    ensures
        ({
            let after = CryptoModel { outbound: c.outbound.push((room, session)), ..c };
            &&& c.session_of(room) is None ==> after.session_of(room) == Some(session)
            &&& c.session_of(room) is Some ==> after.session_of(room) == c.session_of(room)
            &&& after.session_of(other) == c.session_of(other)
        }),
{
    lemma_pushed(c.outbound, room, (room, session), 0);
    lemma_pushed(c.outbound, other, (room, session), 0);
}

proof fn lemma_pushed(
    sessions: Seq<(Seq<char>, Seq<u8>)>,
    room: Seq<char>,
    new: (Seq<char>, Seq<u8>),
    from: int,
)
    requires
        0 <= from <= sessions.len(),
    ensures
        outbound_index(sessions.push(new), room, from) == match outbound_index(
            sessions,
            room,
            from,
        ) {
            Some(i) => Some(i),
            None => if new.0 == room {
                Some(sessions.len() as int)
            } else {
                None
            },
        },
        outbound_index(sessions, room, from) matches Some(i) ==> from <= i < sessions.len()
            && sessions[i].0 == room,
    decreases sessions.len() - from,
{
    let all = sessions.push(new);
    if from < sessions.len() {
        assert(all[from] == sessions[from]);
        lemma_pushed(sessions, room, new, from + 1);
    } else {
        assert(outbound_index(all, room, from + 1) is None);
    }
}

/// Law: what became of an encrypted event is told by its session, its ciphertext and its room
/// together: an event that differs in one of them is another.
pub proof fn law_opened_events_are_told_apart(
    c: CryptoModel,
    e: OpenedModel,
    session: Seq<u8>,
    ciphertext: Seq<u8>,
    room: Seq<char>,
)
    requires
        c.opened == seq![e],
    ensures
        e.session_id == session && e.ciphertext == ciphertext && e.room_id == room
            ==> c.opened_event(session, ciphertext, room) == Some(e.plaintext),
        !(e.session_id == session && e.ciphertext == ciphertext && e.room_id == room)
            ==> c.opened_event(session, ciphertext, room) is None,
{
    reveal_with_fuel(opened_index, 2);
}

/// Law: of two records of the same event the first counts, and a record of another event in
/// front of it does not matter.
pub proof fn law_the_first_record_of_an_event_counts(
    c: CryptoModel,
    e: OpenedModel,
    session: Seq<u8>,
    ciphertext: Seq<u8>,
    room: Seq<char>,
)
    ensures
        ({
            let after = CryptoModel { opened: seq![e] + c.opened, ..c };
            after.opened_event(session, ciphertext, room) == if e.session_id == session
                && e.ciphertext == ciphertext && e.room_id == room {
                Some(e.plaintext)
            } else {
                c.opened_event(session, ciphertext, room)
            }
        }),
{
    lemma_shifted(c.opened, e, session, ciphertext, room, 0);
    assert((seq![e] + c.opened)[0] == e);
}

proof fn lemma_shifted(
    events: Seq<OpenedModel>,
    e: OpenedModel,
    session: Seq<u8>,
    ciphertext: Seq<u8>,
    room: Seq<char>,
    from: int,
)
    requires
        0 <= from <= events.len(),
    ensures
        opened_index(seq![e] + events, session, ciphertext, room, from + 1) == match opened_index(
            events,
            session,
            ciphertext,
            room,
            from,
        ) {
            Some(i) => Some(i + 1),
            None => None::<int>,
        },
        opened_index(events, session, ciphertext, room, from) matches Some(i) ==> from <= i
            < events.len(),
    decreases events.len() - from,
{
    if from < events.len() {
        assert((seq![e] + events)[from + 1] == events[from]);
        lemma_shifted(events, e, session, ciphertext, room, from + 1);
    }
}

} // verus!
