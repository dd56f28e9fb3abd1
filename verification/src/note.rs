//! The note record: identifier, title, content and the two stamps.
//!
//! A fresh note carries a randomly drawn identifier rendered as sixteen
//! lowercase hexadecimal characters. Identifier generation performs no
//! uniqueness check against the store: collision probability over a
//! 64-bit draw is treated as negligible, not eliminated.

use core::cmp::Ordering;
use vstd::prelude::*;
use vstd::string::StrSliceExecFns;
use vstd::string::StringExecFns;

verus! {

/// Mathematical image of a note: the identifier, title and content as
/// character sequences, and the creation and last-update instants in
/// nanoseconds since the Unix epoch.
pub ghost struct NoteView {
    pub id: Seq<char>,
    pub title: Seq<char>,
    pub content: Seq<char>,
    pub created_at: u64,
    pub updated_at: u64,
}

impl NoteView {
    /// The stamp invariant: a note is never observed with an update
    /// instant before its creation instant.
    pub open spec fn time_ok(self) -> bool {
        self.created_at <= self.updated_at
    }
}

/// One note as handed to callers: an independent copy with no live
/// binding back to the store.
#[derive(Debug)]
pub struct Note {
    pub id: String,
    pub title: String,
    pub content: String,
    pub created_at: u64,
    pub updated_at: u64,
}

impl View for Note {
    type V = NoteView;

    open spec fn view(&self) -> NoteView {
        NoteView {
            id: self.id@,
            title: self.title@,
            content: self.content@,
            created_at: self.created_at,
            updated_at: self.updated_at,
        }
    }
}

impl PartialEq for Note {
    /// Full structural equality, every field compared; the ordering
    /// below deliberately looks at the update stamp alone.
    fn eq(&self, other: &Note) -> (r: bool) {
        self.id == other.id && self.title == other.title && self.content == other.content
            && self.created_at == other.created_at && self.updated_at == other.updated_at
    }
}

impl vstd::std_specs::cmp::PartialEqSpecImpl for Note {
    open spec fn obeys_eq_spec() -> bool {
        true
    }

    open spec fn eq_spec(&self, other: &Note) -> bool {
        self@ == other@
    }
}

impl Eq for Note {

}

impl PartialOrd for Note {
    /// The total order over notes: solely by update stamp. Two notes
    /// with different content but equal stamps compare equal here; that
    /// is an accepted property of the design, not an accident.
    fn partial_cmp(&self, other: &Note) -> (r: Option<Ordering>) {
        if self.updated_at < other.updated_at {
            Some(Ordering::Less)
        } else if self.updated_at == other.updated_at {
            Some(Ordering::Equal)
        } else {
            Some(Ordering::Greater)
        }
    }
}

impl vstd::std_specs::cmp::PartialOrdSpecImpl for Note {
    open spec fn obeys_partial_cmp_spec() -> bool {
        true
    }

    open spec fn partial_cmp_spec(&self, other: &Note) -> Option<Ordering> {
        if self@.updated_at < other@.updated_at {
            Some(Ordering::Less)
        } else if self@.updated_at == other@.updated_at {
            Some(Ordering::Equal)
        } else {
            Some(Ordering::Greater)
        }
    }
}

/// A lowercase hexadecimal digit.
pub open spec fn is_hex_char(c: char) -> bool {
    48 <= c as u32 <= 57 || 97 <= c as u32 <= 102
}

/// The shape of every identifier this library generates: sixteen
/// lowercase hexadecimal characters.
pub open spec fn valid_id(s: Seq<char>) -> bool {
    s.len() == 16 && forall|i: int| 0 <= i < 16 ==> is_hex_char(#[trigger] s[i])
}

/// The character for one hexadecimal digit.
pub open spec fn hex_digit(d: u64) -> char
    recommends
        d < 16,
{
    if d == 0 {
        '0'
    } else if d == 1 {
        '1'
    } else if d == 2 {
        '2'
    } else if d == 3 {
        '3'
    } else if d == 4 {
        '4'
    } else if d == 5 {
        '5'
    } else if d == 6 {
        '6'
    } else if d == 7 {
        '7'
    } else if d == 8 {
        '8'
    } else if d == 9 {
        '9'
    } else if d == 10 {
        'a'
    } else if d == 11 {
        'b'
    } else if d == 12 {
        'c'
    } else if d == 13 {
        'd'
    } else if d == 14 {
        'e'
    } else {
        'f'
    }
}

/// A 64-bit value rendered as sixteen hexadecimal characters, most
/// significant digit first.
pub open spec fn hex_chars_of(x: u64) -> Seq<char> {
    Seq::new(16, |i: int| hex_digit((x >> (((15 - i) * 4) as u64)) & 0xf))
}

proof fn lemma_mask_lt_16(y: u64)
    ensures
        y & 0xf < 16,
{
    assert(y & 0xf < 16) by (bit_vector);
}

proof fn lemma_hex_digit_is_hex(d: u64)
    requires
        d < 16,
    ensures
        is_hex_char(hex_digit(d)),
{
}

proof fn lemma_hex_chars_valid_id(x: u64)
    ensures
        valid_id(hex_chars_of(x)),
{
    assert forall|i: int| 0 <= i < 16 implies is_hex_char(#[trigger] hex_chars_of(x)[i]) by {
        let d = (x >> (((15 - i) * 4) as u64)) & 0xf;
        lemma_mask_lt_16(x >> (((15 - i) * 4) as u64));
        lemma_hex_digit_is_hex(d);
    }
}

/// Renders a 64-bit value as its fixed-width lowercase hexadecimal
/// string.
fn hex_string(x: u64) -> (s: String)
    ensures
        s@ == hex_chars_of(x),
{
    let digits = "0123456789abcdef";
    proof {
        reveal_strlit("0123456789abcdef");
    }
    let mut s = String::new();
    let mut i: usize = 0;
    while i < 16
        invariant
            i <= 16,
            digits@ == "0123456789abcdef"@,
            digits.is_ascii(),
            digits@.len() == 16,
            s@ == hex_chars_of(x).take(i as int),
        decreases 16 - i,
    {
        let shift: u64 = (15 - i as u64) * 4;
        let d: u64 = (x >> shift) & 0xf;
        proof {
            reveal_strlit("0123456789abcdef");
            lemma_mask_lt_16(x >> shift);
            assert(shift == ((15 - i) * 4) as u64);
            assert(digits@[d as int] == hex_digit(d));
        }
        let part = digits.substring_ascii(d as usize, d as usize + 1);
        s.append(part);
        i += 1;
        proof {
            assert(s@ =~= hex_chars_of(x).take(i as int));
        }
    }
    proof {
        assert(hex_chars_of(x).take(16) =~= hex_chars_of(x));
    }
    s
}

/// Relies on `rand::random`: a machine-random 64-bit value; nothing is
/// promised of it.
#[verifier::external_body]
fn random_u64() -> u64 {
    rand::random::<u64>()
}

/// Relies on `std::time::SystemTime::now`: the wall clock, read once and
/// converted to whole nanoseconds since the Unix epoch (zero if the
/// clock reads before the epoch). Nothing is promised of the value: the
/// clock may stand still or move backwards between calls.
#[verifier::external_body]
pub(crate) fn now_nanos() -> u64 {
    match std::time::SystemTime::now().duration_since(std::time::UNIX_EPOCH) {
        Ok(d) => d.as_nanos() as u64,
        Err(_) => 0,
    }
}

impl Note {
    /// Builds a fresh note: a newly drawn identifier, the given title
    /// and content, and both stamps set to the same instant.
    pub fn new(title: String, content: String) -> (n: Note)
        ensures
            n@.title == title@,
            n@.content == content@,
            n@.created_at == n@.updated_at,
            n@.time_ok(),
            valid_id(n@.id),
    {
        let now = now_nanos();
        let raw = random_u64();
        proof {
            lemma_hex_chars_valid_id(raw);
        }
        let id = hex_string(raw);
        Note { id, title, content, created_at: now, updated_at: now }
    }
}

} // verus!
