//! Working on the characters of a line: white space at its ends, the first
//! blank in it, and lists written with a separator.
use vstd::prelude::*;
use vstd::string::{StrSliceExecFns, StringExecFns};
use crate::lists::Text;

verus! {

/// White space: the characters that Unicode gives the property White_Space.
pub open spec fn is_space(c: char) -> bool {
    ||| ('\u{9}' <= c && c <= '\u{d}')
    ||| c == ' '
    ||| c == '\u{85}'
    ||| c == '\u{a0}'
    ||| c == '\u{1680}'
    ||| ('\u{2000}' <= c && c <= '\u{200a}')
    ||| c == '\u{2028}'
    ||| c == '\u{2029}'
    ||| c == '\u{202f}'
    ||| c == '\u{205f}'
    ||| c == '\u{3000}'
}

/// How many characters of white space `s` begins with.
pub open spec fn leading_spaces(s: Text) -> nat
    decreases s.len(),
{
    if s.len() > 0 && is_space(s[0]) {
        1 + leading_spaces(s.drop_first())
    } else {
        0
    }
}

/// How many characters of white space `s` ends with.
pub open spec fn trailing_spaces(s: Text) -> nat
    decreases s.len(),
{
    if s.len() > 0 && is_space(s.last()) {
        1 + trailing_spaces(s.drop_last())
    } else {
        0
    }
}

/// `s` without the white space at its two ends.
pub open spec fn trimmed(s: Text) -> Text {
    let rest = s.skip(leading_spaces(s) as int);
    rest.take(rest.len() - trailing_spaces(rest))
}

/// Where the first blank of `s` stands: its length if it has none.
pub open spec fn first_blank(s: Text) -> nat
    decreases s.len(),
{
    if s.len() == 0 || s[0] == ' ' {
        0
    } else {
        1 + first_blank(s.drop_first())
    }
}

/// What stands before the first blank of `s`: all of it if it has none.
pub open spec fn before_blank(s: Text) -> Text {
    s.take(first_blank(s) as int)
}

/// What stands after the first blank of `s`, if it has one.
pub open spec fn after_blank(s: Text) -> Option<Text> {
    if first_blank(s) < s.len() {
        Some(s.skip(first_blank(s) as int + 1))
    } else {
        None
    }
}

/// The texts of `parts` written one after the other with `separator`
/// between them.
pub open spec fn joined_by(parts: Seq<Text>, separator: Text) -> Text
    decreases parts.len(),
{
    if parts.len() == 0 {
        Seq::empty()
    } else if parts.len() == 1 {
        parts[0]
    } else {
        joined_by(parts.drop_last(), separator) + separator + parts.last()
    }
}

/// The text of an optional string.
pub open spec fn optional_text(s: Option<String>) -> Option<Text> {
    match s {
        Some(s) => Some(s@),
        None => None,
    }
}

/// The count of leading white space is the place of the first character
/// that is none.
pub proof fn lemma_leading_spaces(s: Text, n: int)
    requires
        0 <= n <= s.len(),
        forall|k: int| 0 <= k < n ==> is_space(s[k]),
        n < s.len() ==> !is_space(s[n]),
    ensures
        leading_spaces(s) == n,
    decreases n,
{
    if n > 0 {
        let rest = s.drop_first();
        assert forall|k: int| 0 <= k < n - 1 implies is_space(rest[k]) by {
            assert(rest[k] == s[k + 1]);
        }
        if n - 1 < rest.len() {
            assert(rest[n - 1] == s[n]);
        }
        lemma_leading_spaces(rest, n - 1);
    }
}

/// The count of trailing white space is what follows the last character that
/// is none.
pub proof fn lemma_trailing_spaces(s: Text, n: int)
    requires
        0 <= n <= s.len(),
        forall|k: int| s.len() - n <= k < s.len() ==> is_space(s[k]),
        n < s.len() ==> !is_space(s[s.len() - n - 1]),
    ensures
        trailing_spaces(s) == n,
    decreases n,
{
    if n > 0 {
        let rest = s.drop_last();
        assert forall|k: int| rest.len() - (n - 1) <= k < rest.len() implies is_space(rest[k]) by {
            assert(rest[k] == s[k]);
        }
        if n - 1 < rest.len() {
            assert(rest[rest.len() - (n - 1) - 1] == s[s.len() - n - 1]);
        }
        lemma_trailing_spaces(rest, n - 1);
    }
}

/// The first blank stands where no blank stands before.
pub proof fn lemma_first_blank(s: Text, n: int)
    requires
        0 <= n <= s.len(),
        forall|k: int| 0 <= k < n ==> s[k] != ' ',
        n < s.len() ==> s[n] == ' ',
    ensures
        first_blank(s) == n,
    decreases n,
{
    if n > 0 {
        let rest = s.drop_first();
        assert forall|k: int| 0 <= k < n - 1 implies rest[k] != ' ' by {
            assert(rest[k] == s[k + 1]);
        }
        if n - 1 < rest.len() {
            assert(rest[n - 1] == s[n]);
        }
        lemma_first_blank(rest, n - 1);
    }
}

/// Whether `c` is white space.
pub fn is_space_char(c: char) -> (space: bool)
    ensures
        space == is_space(c),
{
    ('\u{9}' <= c && c <= '\u{d}') || c == ' ' || c == '\u{85}' || c == '\u{a0}' || c == '\u{1680}'
        || ('\u{2000}' <= c && c <= '\u{200a}') || c == '\u{2028}' || c == '\u{2029}' || c
        == '\u{202f}' || c == '\u{205f}' || c == '\u{3000}'
}

/// The characters of `s`, one by one.
pub fn chars_of(s: &str) -> (chars: Vec<char>)
    ensures
        chars@ == s@,
{
    let mut chars: Vec<char> = Vec::new();
    for c in it: s.chars()
        invariant
            chars@ == it.seq().take(it.index()),
    {
        chars.push(c);
    }
    chars
}

/// `s` without the white space at its two ends.
pub fn trim(s: &str) -> (kept: String)
    ensures
        kept@ == trimmed(s@),
{
    let chars = chars_of(s);
    let mut from: usize = 0;
    while from < chars.len() && is_space_char(chars[from])
        invariant
            from <= chars.len(),
            forall|k: int| 0 <= k < from ==> is_space(chars[k]),
        decreases chars.len() - from,
    {
        from += 1;
    }
    let mut to: usize = chars.len();
    while to > from && is_space_char(chars[to - 1])
        invariant
            from <= to <= chars.len(),
            forall|k: int| to <= k < chars.len() ==> is_space(chars[k]),
        decreases to,
    {
        to -= 1;
    }
    proof {
        lemma_leading_spaces(s@, from as int);
        let rest = s@.skip(from as int);
        assert forall|k: int| rest.len() - (chars.len() - to) <= k < rest.len() implies is_space(
            rest[k],
        ) by {
            assert(rest[k] == chars[k + from]);
        }
        if to > from {
            assert(rest[to - from - 1] == chars[to - 1]);
        }
        lemma_trailing_spaces(rest, chars.len() - to);
        assert(rest.take(rest.len() - (chars.len() - to)) =~= s@.subrange(from as int, to as int));
    }
    String::from_str(s.substring_char(from, to))
}

/// `s` cut at its first blank: what stands before it, and what stands after
/// it if there is a blank.
pub fn split_at_blank(s: &str) -> (parts: (String, Option<String>))
    ensures
        parts.0@ == before_blank(s@),
        optional_text(parts.1) == after_blank(s@),
{
    let chars = chars_of(s);
    let mut at: usize = 0;
    while at < chars.len() && chars[at] != ' '
        invariant
            at <= chars.len(),
            forall|k: int| 0 <= k < at ==> chars[k] != ' ',
        decreases chars.len() - at,
    {
        at += 1;
    }
    proof {
        lemma_first_blank(s@, at as int);
    }
    let head = String::from_str(s.substring_char(0, at));
    assert(s@.subrange(0, at as int) =~= s@.take(at as int));
    if at < chars.len() {
        let tail = String::from_str(s.substring_char(at + 1, chars.len()));
        assert(s@.subrange(at + 1, chars.len() as int) =~= s@.skip(at + 1));
        (head, Some(tail))
    } else {
        (head, None)
    }
}

/// The strings of `parts` written one after the other with `separator`
/// between them.
pub fn join_strings(parts: &Vec<String>, separator: &str) -> (joined: String)
    ensures
        joined@ == joined_by(crate::lists::texts(parts@), separator@),
{
    let mut joined = String::new();
    let mut i: usize = 0;
    let ghost all = crate::lists::texts(parts@);
    while i < parts.len()
        invariant
            i <= parts.len(),
            all == crate::lists::texts(parts@),
            joined@ == joined_by(all.take(i as int), separator@),
        decreases parts.len() - i,
    {
        proof {
            let longer = all.take(i + 1);
            assert(longer.drop_last() =~= all.take(i as int));
            assert(longer.last() == parts[i as int]@);
            if i == 0 {
                assert(joined@ =~= Seq::<char>::empty());
                assert(joined@ + parts[i as int]@ =~= parts[i as int]@);
            }
        }
        if i > 0 {
            joined.append(separator);
        }
        joined.append(parts[i].as_str());
        i += 1;
    }
    assert(all.take(parts.len() as int) =~= all);
    joined
}

} // verus!
