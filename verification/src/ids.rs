//! Canonical identifiers for projects, tasks and tags.
//!
//! An identifier is a non-empty ASCII string whose first character is a
//! letter or underscore and whose remaining characters are letters, digits,
//! underscores or dashes. Identifiers compare case-sensitively.
use vstd::prelude::*;

verus! {

/// True for characters allowed to start an identifier.
pub open spec fn is_id_start_char(c: char) -> bool {
    ('a' <= c && c <= 'z') || ('A' <= c && c <= 'Z') || c == '_'
}

/// True for characters allowed anywhere in an identifier.
pub open spec fn is_id_char(c: char) -> bool {
    is_id_start_char(c) || ('0' <= c && c <= '9') || c == '-'
}

/// A sequence of characters forms a valid identifier.
pub open spec fn valid_id(s: Seq<char>) -> bool {
    &&& s.len() > 0
    &&& is_id_start_char(s[0])
    &&& forall|i: int| 0 <= i < s.len() ==> is_id_char(#[trigger] s[i])
}

/// A validated identifier.
pub struct Id {
    value: String,
}

impl View for Id {
    type V = Seq<char>;

    closed spec fn view(&self) -> Seq<char> {
        self.value@
    }
}

/// Raised when a string does not form a valid identifier.
#[derive(Debug)]
pub enum IdError {
    InvalidFormat,
}

/// Executable check that every character of `s` is an identifier character
/// and the first is an identifier start character.
pub fn check_id_chars(s: &str) -> (r: bool)
    ensures
        r == valid_id(s@),
{
    let n = s.unicode_len();
    if n == 0 {
        return false;
    }
    if !is_id_start(s.get_char(0)) {
        return false;
    }
    let mut i: usize = 0;
    while i < n
        invariant
            0 < n == s@.len(),
            0 <= i <= n,
            forall|j: int| 0 <= j < i ==> is_id_char(#[trigger] s@[j]),
            is_id_start_char(s@[0]),
        decreases n - i,
    {
        if !is_id_part(s.get_char(i)) {
            return false;
        }
        i += 1;
    }
    true
}

fn is_id_start(c: char) -> (r: bool)
    ensures
        r == is_id_start_char(c),
{
    ('a' <= c && c <= 'z') || ('A' <= c && c <= 'Z') || c == '_'
}

fn is_id_part(c: char) -> (r: bool)
    ensures
        r == is_id_char(c),
{
    is_id_start(c) || ('0' <= c && c <= '9') || c == '-'
}

impl Id {
    /// Validate and wrap a string as an identifier.
    pub fn new(s: &str) -> (r: Result<Id, IdError>)
        ensures
            match r {
                Ok(id) => id@ == s@ && valid_id(s@),
                Err(_) => !valid_id(s@),
            },
    {
        if check_id_chars(s) {
            Ok(Id { value: s.to_owned() })
        } else {
            Err(IdError::InvalidFormat)
        }
    }

    /// Wrap a string without validating it.
    pub fn raw(s: &str) -> (r: Id)
        ensures
            r@ == s@,
    {
        Id { value: s.to_owned() }
    }

    /// The identifier as a string slice.
    pub fn as_str(&self) -> (r: &str)
        ensures
            r@ == self@,
    {
        self.value.as_str()
    }

    /// Whether two identifiers hold the same characters.
    pub fn is(&self, other: &Id) -> (r: bool)
        ensures
            r == (self@ == other@),
    {
        self.value == other.value
    }

    /// Whether this identifier holds the same characters as a string.
    pub fn is_str(&self, other: &str) -> (r: bool)
        ensures
            r == (self@ == other@),
    {
        str_eq(self.value.as_str(), other)
    }
}

impl Clone for Id {
    fn clone(&self) -> (r: Self)
        ensures
            r@ == self@,
    {
        Id { value: self.value.clone() }
    }
}

/// Executable character-wise equality of two string slices.
pub fn str_eq(a: &str, b: &str) -> (r: bool)
    ensures
        r == (a@ == b@),
{
    let na = a.unicode_len();
    let nb = b.unicode_len();
    if na != nb {
        assert(a@ =~= b@ ==> a@.len() == b@.len());
        return false;
    }
    let mut i: usize = 0;
    while i < na
        invariant
            na == a@.len(),
            na == b@.len(),
            0 <= i <= na,
            forall|j: int| 0 <= j < i ==> a@[j] == b@[j],
        decreases na - i,
    {
        if a.get_char(i) != b.get_char(i) {
            assert(a@[i as int] != b@[i as int]);
            assert(a@ != b@);
            return false;
        }
        i += 1;
    }
    assert(a@ =~= b@);
    true
}

} // verus!
