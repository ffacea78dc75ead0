//! Matrix identifiers, checked when they are made.
use vstd::prelude::*;

verus! {

broadcast use vstd::string::group_string_axioms;

/// Why a text is no Matrix identifier.
#[derive(Debug, Clone, Copy, PartialEq, Eq, Structural)]
pub enum MatrixIdError {
    /// The text does not start with the sigil of its kind.
    MissingSigil,
    /// Nothing follows the sigil.
    Empty,
    /// The text holds a space or a control character.
    IllegalCharacter,
}

impl MatrixIdError {
    /// What the error is called in diagnostics.
    pub open spec fn message(self) -> Seq<char> {
        match self {
            MatrixIdError::MissingSigil => "missing sigil"@,
            MatrixIdError::Empty => "empty identifier"@,
            MatrixIdError::IllegalCharacter => "illegal character"@,
        }
    }

    /// The diagnostic text of the error.
    pub fn to_string(&self) -> (r: String)
        ensures
            r@ == self.message(),
    {
        match self {
            MatrixIdError::MissingSigil => "missing sigil".to_owned(),
            MatrixIdError::Empty => "empty identifier".to_owned(),
            MatrixIdError::IllegalCharacter => "illegal character".to_owned(),
        }
    }
}

/// A character that would end or split a request line.
pub open spec fn is_illegal(c: char) -> bool {
    c as u32 <= 0x20 || c as u32 == 0x7F
}

/// What is wrong with an identifier, if anything is.
pub open spec fn id_fault(sigil: char, s: Seq<char>) -> Option<MatrixIdError> {
    if s.len() == 0 || s[0] != sigil {
        Some(MatrixIdError::MissingSigil)
    } else if s.len() == 1 {
        Some(MatrixIdError::Empty)
    } else if exists|i: int| 0 <= i < s.len() && is_illegal(#[trigger] s[i]) {
        Some(MatrixIdError::IllegalCharacter)
    } else {
        None
    }
}

/// Checks an identifier against its sigil.
fn check_id(sigil: char, s: &str) -> (r: Result<(), MatrixIdError>)
    ensures
        match id_fault(sigil, s@) {
            Some(e) => r == Err::<(), MatrixIdError>(e),
            None => r is Ok,
        },
{
    let n: usize = s.unicode_len();
    if n == 0 || s.get_char(0) != sigil {
        return Err(MatrixIdError::MissingSigil);
    }
    if n == 1 {
        return Err(MatrixIdError::Empty);
    }
    let mut illegal = false;
    for c in it: s.chars()
        invariant
            it.seq() == s@,
            illegal == exists|i: int| 0 <= i < it.index() && is_illegal(#[trigger] s@[i]),
    {
        let code: u32 = c as u32;
        if code <= 0x20 || code == 0x7F {
            assert(is_illegal(s@[it.index() as int]));
            illegal = true;
        }
    }
    if illegal {
        Err(MatrixIdError::IllegalCharacter)
    } else {
        Ok(())
    }
}

/// A room identifier, such as `!abc123:matrix.example.com`.
#[derive(Debug, PartialEq, Eq)]
pub struct MatrixRoomId {
    text: String,
}

impl View for MatrixRoomId {
    type V = Seq<char>;

    closed spec fn view(&self) -> Seq<char> {
        self.text@
    }
}

impl MatrixRoomId {
    /// A room identifier from its text.
    pub fn new(s: &str) -> (r: Result<Self, MatrixIdError>)
        ensures
            match id_fault('!', s@) {
                Some(e) => r == Err::<MatrixRoomId, MatrixIdError>(e),
                None => r is Ok && r->Ok_0@ == s@,
            },
    {
        match check_id('!', s) {
            Ok(()) => Ok(MatrixRoomId { text: s.to_owned() }),
            Err(e) => Err(e),
        }
    }

    /// The text of the identifier.
    pub fn as_str(&self) -> (r: &str)
        ensures
            r@ == self@,
    {
        self.text.as_str()
    }
}

impl Clone for MatrixRoomId {
    fn clone(&self) -> (r: Self)
        ensures
            r@ == self@,
    {
        MatrixRoomId { text: self.text.clone() }
    }
}

/// An event identifier, such as `$event123`.
#[derive(Debug, PartialEq, Eq)]
pub struct MatrixEventId {
    text: String,
}

impl View for MatrixEventId {
    type V = Seq<char>;

    closed spec fn view(&self) -> Seq<char> {
        self.text@
    }
}

impl MatrixEventId {
    /// An event identifier from its text.
    pub fn new(s: &str) -> (r: Result<Self, MatrixIdError>)
        ensures
            match id_fault('$', s@) {
                Some(e) => r == Err::<MatrixEventId, MatrixIdError>(e),
                None => r is Ok && r->Ok_0@ == s@,
            },
    {
        match check_id('$', s) {
            Ok(()) => Ok(MatrixEventId { text: s.to_owned() }),
            Err(e) => Err(e),
        }
    }

    /// The text of the identifier.
    pub fn as_str(&self) -> (r: &str)
        ensures
            r@ == self@,
    {
        self.text.as_str()
    }
}

impl Clone for MatrixEventId {
    fn clone(&self) -> (r: Self)
        ensures
            r@ == self@,
    {
        MatrixEventId { text: self.text.clone() }
    }
}

} // verus!
