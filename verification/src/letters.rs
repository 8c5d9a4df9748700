//! Letters and words: the twenty-six letter alphabet, compared without regard
//! to case, and the five-letter words built from it.

use vstd::prelude::*;
use vstd::string::*;

verus! {

/// `c` is one of the letters `a` to `z` or `A` to `Z`.
pub open spec fn is_letter(c: char) -> bool {
    ('a' <= c && c <= 'z') || ('A' <= c && c <= 'Z')
}

/// The lowercase form of `c`: capitals move to their small letter, every
/// other character stays.
pub open spec fn fold(c: char) -> char {
    if 'A' <= c && c <= 'Z' {
        ((c as u8) + 32) as char
    } else {
        c
    }
}

/// Position of a letter in the alphabet, `0` for `a` or `A` up to `25` for
/// `z` or `Z`; `26` for every character that is no letter.
pub open spec fn slot(c: char) -> int {
    if is_letter(c) {
        fold(c) as int - 'a' as int
    } else {
        26
    }
}

/// The uppercase form of `c`: small letters move to their capital, every
/// other character stays.
pub open spec fn raise(c: char) -> char {
    if 'a' <= c && c <= 'z' {
        ((c as u8) - 32) as char
    } else {
        c
    }
}

/// The uppercase form of a character sequence.
pub open spec fn raised(s: Seq<char>) -> Seq<char> {
    Seq::new(s.len(), |i: int| raise(s[i]))
}

/// A word: exactly five letters.
pub open spec fn is_word(s: Seq<char>) -> bool {
    s.len() == 5 && forall|i: int| 0 <= i < 5 ==> is_letter(#[trigger] s[i])
}

/// The lowercase form of a character sequence.
pub open spec fn folded(s: Seq<char>) -> Seq<char> {
    Seq::new(s.len(), |i: int| fold(s[i]))
}

/// Slot of the letter held in the byte `b`.
pub fn byte_slot(b: u8) -> (r: usize)
    requires
        is_letter(b as char),
    ensures
        r == slot(b as char),
        r < 26,
{
    if b >= 97 {
        (b - 97) as usize
    } else {
        (b - 65) as usize
    }
}

/// Whether the byte `b` holds a letter.
pub fn byte_is_letter(b: u8) -> (r: bool)
    ensures
        r == is_letter(b as char),
{
    (97 <= b && b <= 122) || (65 <= b && b <= 90)
}

/// The bytes of a word, one for each of its letters.
pub fn word_bytes(s: &str) -> (b: &[u8])
    requires
        is_word(s@),
    ensures
        b@.len() == 5,
        forall|i: int| 0 <= i < 5 ==> (#[trigger] b@[i]) as char == s@[i],
{
    broadcast use is_ascii_spec_bytes;

    assert(is_ascii(s));
    let b = s.as_bytes();
    b
}

/// Tells whether `s` is a word.
pub fn is_word_str(s: &str) -> (r: bool)
    ensures
        r == is_word(s@),
{
    broadcast use is_ascii_spec_bytes;

    if !s.is_ascii() {
        assert(!is_word(s@)) by {
            if is_word(s@) {
                assert(is_ascii(s));
            }
        }
        return false;
    }
    let b = s.as_bytes();
    if b.len() != 5 {
        return false;
    }
    let mut i: usize = 0;
    while i < 5
        invariant
            0 <= i <= 5,
            b@.len() == 5,
            s@.len() == 5,
            forall|j: int| 0 <= j < 5 ==> (#[trigger] b@[j]) == s@[j] as u8,
            forall|j: int| 0 <= j < 5 ==> '\0' <= #[trigger] s@[j] <= '\u{7f}',
            forall|j: int| 0 <= j < i ==> is_letter(#[trigger] s@[j]),
        decreases 5 - i,
    {
        if !byte_is_letter(b[i]) {
            assert(!is_letter(s@[i as int]));
            return false;
        }
        i = i + 1;
    }
    true
}

/// The lowercase form of a character.
pub fn fold_char(c: char) -> (r: char)
    ensures
        r == fold(c),
{
    if 'A' <= c && c <= 'Z' {
        ((c as u8) + 32) as char
    } else {
        c
    }
}

/// Slot of a character: its place in the alphabet, or `26` if it is no
/// letter.
pub fn char_slot(c: char) -> (r: usize)
    ensures
        r == slot(c),
        r <= 26,
{
    if 'a' <= c && c <= 'z' {
        (c as u8 - 97) as usize
    } else if 'A' <= c && c <= 'Z' {
        (c as u8 - 65) as usize
    } else {
        26
    }
}

/// The slots of the five characters of `s`.
pub fn slots_of(s: &str) -> (r: [usize; 5])
    requires
        s@.len() == 5,
    ensures
        forall|j: int| 0 <= j < 5 ==> (#[trigger] r@[j]) == slot(s@[j]),
{
    let mut r: [usize; 5] = [26usize;5];
    let mut j: usize = 0;
    while j < 5
        invariant
            0 <= j <= 5,
            s@.len() == 5,
            forall|k: int| 0 <= k < j ==> (#[trigger] r@[k]) == slot(s@[k]),
        decreases 5 - j,
    {
        r[j] = char_slot(s.get_char(j));
        j = j + 1;
    }
    r
}

/// The lowercase form of a string.
///
/// Calls `str::to_ascii_lowercase` of the standard library, which is taken
/// at its word: the result holds the characters of `s` in their order, each
/// capital from `A` to `Z` replaced by its small letter and every other
/// character, the letters outside ASCII among them, left as it is.
#[verifier::external_body]
pub(crate) fn ascii_lowercase(s: &str) -> (r: String)
    ensures
        r@ == folded(s@),
{
    s.to_ascii_lowercase()
}

/// The uppercase form of a string.
///
/// Calls `str::to_ascii_uppercase` of the standard library, which is taken
/// at its word: the result holds the characters of `s` in their order, each
/// small letter from `a` to `z` replaced by its capital and every other
/// character, the letters outside ASCII among them, left as it is.
#[verifier::external_body]
pub(crate) fn ascii_uppercase(s: &str) -> (r: String)
    ensures
        r@ == raised(s@),
{
    s.to_ascii_uppercase()
}

/// A word stays a word in lowercase and in uppercase, and keeps its letters.
pub proof fn lemma_case_keeps_word(s: Seq<char>)
    ensures
        is_word(folded(s)) <==> is_word(s),
        is_word(raised(s)) <==> is_word(s),
        folded(folded(s)) == folded(s),
        forall|i: int| 0 <= i < s.len() ==> slot(#[trigger] folded(s)[i]) == slot(s[i]),
        forall|i: int| 0 <= i < s.len() ==> slot(#[trigger] raised(s)[i]) == slot(s[i]),
{
    if is_word(s) {
        assert forall|i: int| 0 <= i < 5 implies is_letter(#[trigger] folded(s)[i]) by {
            assert(is_letter(s[i]));
        }
        assert forall|i: int| 0 <= i < 5 implies is_letter(#[trigger] raised(s)[i]) by {
            assert(is_letter(s[i]));
        }
    }
    if is_word(folded(s)) {
        assert forall|i: int| 0 <= i < 5 implies is_letter(#[trigger] s[i]) by {
            assert(is_letter(folded(s)[i]));
        }
    }
    if is_word(raised(s)) {
        assert forall|i: int| 0 <= i < 5 implies is_letter(#[trigger] s[i]) by {
            assert(is_letter(raised(s)[i]));
        }
    }
    assert(folded(folded(s)) =~= folded(s));
}

} // verus!
