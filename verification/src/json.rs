//! The JSON the meeting documents and the client configs are written in,
//! read and written through `serde_json`.

use vstd::prelude::*;

use crate::text::views;

verus! {

/// What `serde_json::from_str::<Vec<String>>` makes of `text`: the list of
/// strings when `text` is a JSON array of strings, nothing otherwise.
pub uninterp spec fn json_string_list(text: Seq<char>) -> Option<Seq<Seq<char>>>;

/// A lowercase hexadecimal digit.
pub open spec fn hex_digit(d: u32) -> char {
    if d < 10 {
        (48 + d) as char
    } else {
        (87 + d) as char
    }
}

/// How `serde_json` writes one character inside a string literal: a quote
/// and a backslash escaped with a backslash, the five control characters
/// with a short escape (`\b \f \n \r \t`), the other control characters
/// below U+0020 as `\u00` and two lowercase hex digits, everything else as
/// it is.
pub open spec fn json_char(c: char) -> Seq<char> {
    let u = c as u32;
    if c == '"' {
        seq!['\\', '"']
    } else if c == '\\' {
        seq!['\\', '\\']
    } else if u == 0x08 {
        seq!['\\', 'b']
    } else if u == 0x0c {
        seq!['\\', 'f']
    } else if u == 0x0a {
        seq!['\\', 'n']
    } else if u == 0x0d {
        seq!['\\', 'r']
    } else if u == 0x09 {
        seq!['\\', 't']
    } else if u < 0x20 {
        seq!['\\', 'u', '0', '0', hex_digit(u / 16), hex_digit(u % 16)]
    } else {
        seq![c]
    }
}

/// A string's characters as `serde_json` writes them inside a literal.
pub open spec fn json_escaped(s: Seq<char>) -> Seq<char>
    decreases s.len(),
{
    if s.len() == 0 {
        Seq::empty()
    } else {
        json_escaped(s.drop_last()) + json_char(s.last())
    }
}

/// A string written as a JSON string literal, as `serde_json` writes it:
/// quoted and escaped.
pub open spec fn json_quoted(s: Seq<char>) -> Seq<char> {
    seq!['"'] + json_escaped(s) + seq!['"']
}

/// String literals joined by commas, as a compact JSON array holds them.
pub open spec fn json_joined(items: Seq<Seq<char>>) -> Seq<char>
    decreases items.len(),
{
    if items.len() == 0 {
        Seq::empty()
    } else if items.len() == 1 {
        json_quoted(items[0])
    } else {
        json_joined(items.drop_last()) + seq![','] + json_quoted(items.last())
    }
}

/// What `serde_json::to_string` writes for a list of strings: a compact JSON
/// array of the quoted strings. Serializing strings never fails.
pub open spec fn json_string_list_text(items: Seq<Seq<char>>) -> Option<Seq<char>> {
    Some(seq!['['] + json_joined(items) + seq![']'])
}

/// `serde_json::from_str::<Vec<String>>`, the error discarded: the result
/// is the parse of `text` as a JSON array of strings, named
/// `json_string_list` here.
#[verifier::external_body]
pub(crate) fn parse_string_list(text: &str) -> (r: Option<Vec<String>>)
    ensures
        match r {
            Some(v) => json_string_list(text@) == Some(views(v@)),
            None => json_string_list(text@) is None,
        },
{
    serde_json::from_str::<Vec<String>>(text).ok()
}

/// `serde_json::to_string` on a slice of strings, the error discarded: the
/// compact JSON array `json_string_list_text` states.
#[verifier::external_body]
pub(crate) fn string_list_json(items: &[String]) -> (r: Option<String>)
    ensures
        match r {
            Some(s) => json_string_list_text(views(items@)) == Some(s@),
            None => json_string_list_text(views(items@)) is None,
        },
{
    serde_json::to_string(items).ok()
}


/// No escape `serde_json` writes holds a raw line feed.
proof fn lemma_json_char_has_no_line_feed(c: char)
    ensures
        !json_char(c).contains('\n'),
{
    let u = c as u32;
    if u < 0x20 && c != '"' && c != '\\' && u != 0x08 && u != 0x0c && u != 0x0a && u != 0x0d && u
        != 0x09 {
        let h = hex_digit(u / 16);
        let l = hex_digit(u % 16);
        assert(h != '\n');
        assert(l != '\n');
    }
}

proof fn lemma_json_escaped_has_no_line_feed(s: Seq<char>)
    ensures
        !json_escaped(s).contains('\n'),
    decreases s.len(),
{
    if s.len() > 0 {
        lemma_json_escaped_has_no_line_feed(s.drop_last());
        lemma_json_char_has_no_line_feed(s.last());
        let a = json_escaped(s.drop_last());
        let b = json_char(s.last());
        assert forall|i: int| 0 <= i < (a + b).len() implies (a + b)[i] != '\n' by {
            if i < a.len() {
                assert((a + b)[i] == a[i]);
            } else {
                assert((a + b)[i] == b[i - a.len()]);
            }
        }
    }
}

proof fn lemma_json_quoted_has_no_line_feed(s: Seq<char>)
    ensures
        !json_quoted(s).contains('\n'),
{
    lemma_json_escaped_has_no_line_feed(s);
    let e = json_escaped(s);
    assert forall|i: int| 0 <= i < json_quoted(s).len() implies json_quoted(s)[i] != '\n' by {
        if 1 <= i <= e.len() {
            assert(json_quoted(s)[i] == e[i - 1]);
        }
    }
}

proof fn lemma_json_joined_has_no_line_feed(items: Seq<Seq<char>>)
    ensures
        !json_joined(items).contains('\n'),
    decreases items.len(),
{
    if items.len() == 1 {
        lemma_json_quoted_has_no_line_feed(items[0]);
    } else if items.len() > 1 {
        lemma_json_joined_has_no_line_feed(items.drop_last());
        lemma_json_quoted_has_no_line_feed(items.last());
        let a = json_joined(items.drop_last());
        let q = json_quoted(items.last());
        let t = a + seq![','] + q;
        assert forall|i: int| 0 <= i < t.len() implies t[i] != '\n' by {
            if i < a.len() {
                assert(t[i] == a[i]);
            } else if i > a.len() {
                assert(t[i] == q[i - a.len() - 1]);
            }
        }
    }
}

/// A string list as `serde_json` writes it holds no raw line feed: every
/// control character inside a string is escaped.
pub proof fn lemma_json_string_list_has_no_line_feed(items: Seq<Seq<char>>)
    ensures
        json_string_list_text(items) matches Some(t) && !t.contains('\n'),
{
    lemma_json_joined_has_no_line_feed(items);
    let j = json_joined(items);
    let t = seq!['['] + j + seq![']'];
    assert forall|i: int| 0 <= i < t.len() implies t[i] != '\n' by {
        if 1 <= i <= j.len() {
            assert(t[i] == j[i - 1]);
        }
    }
}

} // verus!
