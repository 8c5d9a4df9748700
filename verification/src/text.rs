//! Text as it is read: blanks, the characters of a string, and the lines
//! of a file with the blanks at their ends taken off.

use vstd::prelude::*;
use vstd::string::*;
use crate::order::texts;

verus! {

/// A blank: a character with the Unicode property `White_Space`.
pub open spec fn is_space(c: char) -> bool {
    let u = c as u32;
    (0x09 <= u && u <= 0x0d) || u == 0x20 || u == 0x85 || u == 0xa0 || u == 0x1680 || (0x2000 <= u
        && u <= 0x200a) || u == 0x2028 || u == 0x2029 || u == 0x202f || u == 0x205f || u == 0x3000
}

/// The first position at or after `i` that holds no blank, or the length
/// of the line if there is none.
pub open spec fn next_solid(line: Seq<char>, i: int) -> int
    decreases line.len() - i,
{
    if i < 0 || i >= line.len() {
        line.len() as int
    } else if !is_space(line[i]) {
        i
    } else {
        next_solid(line, i + 1)
    }
}

/// The first position at or after `i` that holds a blank, or the length of
/// the line if there is none.
pub open spec fn next_space(line: Seq<char>, i: int) -> int
    decreases line.len() - i,
{
    if i < 0 || i >= line.len() {
        line.len() as int
    } else if is_space(line[i]) {
        i
    } else {
        next_space(line, i + 1)
    }
}

/// Whether a character is a blank.
pub fn char_is_space(c: char) -> (r: bool)
    ensures
        r == is_space(c),
{
    let u = c as u32;
    (0x09 <= u && u <= 0x0d) || u == 0x20 || u == 0x85 || u == 0xa0 || u == 0x1680 || (0x2000 <= u
        && u <= 0x200a) || u == 0x2028 || u == 0x2029 || u == 0x202f || u == 0x205f || u == 0x3000
}

/// The first position from `i` on and below `e` that holds no blank, or
/// `e` if there is none.
pub open spec fn first_solid(s: Seq<char>, i: int, e: int) -> int
    decreases e - i,
{
    if i >= e {
        e
    } else if !is_space(s[i]) {
        i
    } else {
        first_solid(s, i + 1, e)
    }
}

/// The position behind the last character from `a` on and below `e` that
/// is no blank, or `a` if there is none.
pub open spec fn last_solid(s: Seq<char>, a: int, e: int) -> int
    decreases e - a,
{
    if e <= a {
        a
    } else if !is_space(s[e - 1]) {
        e
    } else {
        last_solid(s, a, e - 1)
    }
}

/// The characters from `i` on and below `e` without the blanks at both
/// ends.
pub open spec fn stripped(s: Seq<char>, i: int, e: int) -> Seq<char> {
    s.subrange(first_solid(s, i, e), last_solid(s, first_solid(s, i, e), e))
}

/// The first position from `i` on that holds a line feed, or the length of
/// the text if there is none.
pub open spec fn next_break(s: Seq<char>, i: int) -> int
    decreases s.len() - i,
{
    if i < 0 || i >= s.len() {
        s.len() as int
    } else if s[i] == '\n' {
        i
    } else {
        next_break(s, i + 1)
    }
}

/// The lines of a text from position `i` on, each without the blanks at
/// its ends. A line ends at a line feed or at the end of the text; nothing
/// follows a line feed that is the last character.
pub open spec fn lines_from(s: Seq<char>, i: int) -> Seq<Seq<char>>
    decreases s.len() - i,
    via lines_from_ends
{
    if i < 0 || i >= s.len() {
        Seq::empty()
    } else {
        let e = next_break(s, i);
        if e >= s.len() {
            seq![stripped(s, i, e)]
        } else {
            seq![stripped(s, i, e)] + lines_from(s, e + 1)
        }
    }
}

/// The rest of a text behind a line is shorter than the text from the
/// start of that line.
#[via_fn]
proof fn lines_from_ends(s: Seq<char>, i: int) {
    if 0 <= i < s.len() {
        lemma_next_break_range(s, i);
    }
}

/// The lines of a text, each without the blanks at its ends.
pub open spec fn lines_of(s: Seq<char>) -> Seq<Seq<char>> {
    lines_from(s, 0)
}

/// A line ends at or behind its start and within the text.
proof fn lemma_next_break_range(s: Seq<char>, i: int)
    requires
        0 <= i <= s.len(),
    ensures
        i <= next_break(s, i) <= s.len(),
    decreases s.len() - i,
{
    if i < s.len() && s[i] != '\n' {
        lemma_next_break_range(s, i + 1);
    }
}

/// The characters of a string.
pub fn chars_of(s: &str) -> (v: Vec<char>)
    ensures
        v@ == s@,
{
    broadcast use is_ascii_spec_bytes;

    let mut v: Vec<char> = Vec::new();
    if s.is_ascii() {
        let b = s.as_bytes();
        let n = b.len();
        let mut i: usize = 0;
        while i < n
            invariant
                0 <= i <= n,
                n == s@.len(),
                n == b@.len(),
                is_ascii(s),
                forall|k: int| 0 <= k < n ==> (#[trigger] b@[k]) == s@[k] as u8,
                v@.len() == i,
                forall|k: int| 0 <= k < i ==> v@[k] == s@[k],
            decreases n - i,
        {
            assert('\0' <= s@[i as int] <= '\u{7f}');
            v.push(b[i] as char);
            i = i + 1;
        }
    } else {
        let n = s.unicode_len();
        let mut i: usize = 0;
        while i < n
            invariant
                0 <= i <= n,
                n == s@.len(),
                v@.len() == i,
                forall|k: int| 0 <= k < i ==> v@[k] == s@[k],
            decreases n - i,
        {
            v.push(s.get_char(i));
            i = i + 1;
        }
    }
    assert(v@ =~= s@);
    v
}

/// The first line feed from `i` on.
fn find_break(chars: &Vec<char>, i: usize) -> (e: usize)
    requires
        i <= chars@.len(),
    ensures
        i <= e <= chars@.len(),
        e == next_break(chars@, i as int),
{
    let mut e: usize = i;
    while e < chars.len()
        invariant
            i <= e <= chars@.len(),
            next_break(chars@, e as int) == next_break(chars@, i as int),
        decreases chars@.len() - e,
    {
        if chars[e] == '\n' {
            return e;
        }
        e = e + 1;
    }
    e
}

/// The first character from `i` on and below `e` that is no blank.
fn find_solid(chars: &Vec<char>, i: usize, e: usize) -> (a: usize)
    requires
        i <= e <= chars@.len(),
    ensures
        i <= a <= e,
        a == first_solid(chars@, i as int, e as int),
{
    let mut a: usize = i;
    while a < e
        invariant
            i <= a <= e,
            e <= chars@.len(),
            first_solid(chars@, a as int, e as int) == first_solid(chars@, i as int, e as int),
        decreases e - a,
    {
        if !char_is_space(chars[a]) {
            return a;
        }
        a = a + 1;
    }
    a
}

/// The position behind the last character from `a` on and below `e` that
/// is no blank.
fn find_end(chars: &Vec<char>, a: usize, e: usize) -> (b: usize)
    requires
        a <= e <= chars@.len(),
    ensures
        a <= b <= e,
        b == last_solid(chars@, a as int, e as int),
{
    let mut b: usize = e;
    while b > a
        invariant
            a <= b <= e,
            e <= chars@.len(),
            last_solid(chars@, a as int, b as int) == last_solid(chars@, a as int, e as int),
        decreases b - a,
    {
        if !char_is_space(chars[b - 1]) {
            return b;
        }
        b = b - 1;
    }
    b
}

/// Cuts a text into its lines and takes the blanks off both ends of each.
///
/// A line ends at a line feed or at the end of the text; a carriage return
/// before a line feed is a blank like any other. A text that ends with a
/// line feed has no line behind it, and an empty text has no line at all.
pub fn word_lines(content: &str) -> (lines: Vec<String>)
    ensures
        texts(lines@) == lines_of(content@),
{
    let plain = content.is_ascii();
    let chars = chars_of(content);
    let n = chars.len();
    let mut lines: Vec<String> = Vec::new();
    let mut i: usize = 0;
    while i < n
        invariant
            0 <= i <= n,
            n == content@.len(),
            chars@ == content@,
            plain == is_ascii(content),
            texts(lines@) + lines_from(content@, i as int) == lines_of(content@),
        decreases n - i,
    {
        let e = find_break(&chars, i);
        let a = find_solid(&chars, i, e);
        let b = find_end(&chars, a, e);
        let piece = if plain {
            content.substring_ascii(a, b)
        } else {
            content.substring_char(a, b)
        };
        let ghost before = texts(lines@);
        lines.push(piece.to_owned());
        proof {
            assert(texts(lines@) =~= before.push(stripped(content@, i as int, e as int)));
            let next = if e < n {
                e + 1
            } else {
                n as int
            };
            assert(before.push(stripped(content@, i as int, e as int)) + lines_from(
                content@,
                next,
            ) =~= before + lines_from(content@, i as int));
        }
        if e < n {
            i = e + 1;
        } else {
            i = n;
        }
    }
    assert(texts(lines@) + lines_from(content@, n as int) =~= texts(lines@));
    lines
}

} // verus!
