//! The OS version string telemetry reports: the distribution's display
//! name (from `os-release`) and the kernel release.

use vstd::prelude::*;

use crate::text::{
    chars_of, lines, lines_from, lemma_line_end, line_end_exec, line_text, line_text_bounds,
    push_char, push_str, starts_with, starts_with_exec, string_of, trim, trim_bounds, trim_char,
    trim_char_bounds,
};

verus! {

/// `PRETTY_NAME=`.
pub open spec fn pretty_key() -> Seq<char> {
    "PRETTY_NAME="@
}

/// The display name an `os-release` line gives: the text after
/// `PRETTY_NAME=`, trimmed and unquoted, when that is non-empty.
pub open spec fn line_pretty_name(line: Seq<char>) -> Option<Seq<char>> {
    if starts_with(line, pretty_key()) {
        let v = trim_char(trim(line.skip(12)), '"');
        if v.len() > 0 {
            Some(v)
        } else {
            None
        }
    } else {
        None
    }
}

/// The display name of the first line among `ls` that gives one.
pub open spec fn first_pretty_name(ls: Seq<Seq<char>>) -> Option<Seq<char>>
    decreases ls.len(),
{
    if ls.len() == 0 {
        None
    } else {
        match line_pretty_name(ls[0]) {
            Some(v) => Some(v),
            None => first_pretty_name(ls.drop_first()),
        }
    }
}

fn pretty_key_exec() -> (v: Vec<char>)
    ensures
        v@ == pretty_key(),
{
    chars_of("PRETTY_NAME=")
}

/// The display name an `os-release` text gives, if it gives one.
pub fn pretty_name_in(text: &str) -> (r: Option<String>)
    ensures
        match r {
            Some(s) => first_pretty_name(lines(text@)) == Some(s@),
            None => first_pretty_name(lines(text@)) is None,
        },
{
    let b = chars_of(text);
    let key = pretty_key_exec();
    let mut start: usize = 0;
    proof {
        reveal_strlit("PRETTY_NAME=");
        assert(b@.subrange(0, b@.len() as int) =~= b@);
    }
    while start < b.len()
        invariant
            b@ == text@,
            key@ == pretty_key(),
            key@.len() == 12,
            start <= b@.len(),
            first_pretty_name(lines(b@)) == first_pretty_name(lines_from(b@, start as int)),
        decreases b.len() - start,
    {
        let e = line_end_exec(b.as_slice(), start, b.len());
        proof {
            assert(b@.subrange(0, b@.len() as int) =~= b@);
            lemma_line_end(b@, start as int);
        }
        let (la, lb) = line_text_bounds(b.as_slice(), start, e, b.len());
        let ghost line = b@.subrange(la as int, lb as int);
        let line_slice: &[char] = &b.as_slice()[la..lb];
        let found = if starts_with_exec(line_slice, key.as_slice()) {
            let (x, y) = trim_bounds(b.as_slice(), la + 12, lb);
            let (p, q) = trim_char_bounds(b.as_slice(), x, y, '"');
            proof {
                assert(line.skip(12) =~= b@.subrange(la + 12, lb as int));
            }
            if p < q {
                Some(string_of(b.as_slice(), p, q))
            } else {
                None
            }
        } else {
            None
        };
        proof {
            let ls = lines_from(b@, start as int);
            assert(ls[0] == line_text(b@, start as int, e as int));
            assert(ls.drop_first() =~= lines_from(b@, e + 1));
        }
        match found {
            Some(v) => {
                return Some(v);
            },
            None => {},
        }
        if e >= b.len() {
            proof {
                let ls = lines_from(b@, start as int);
                assert(lines_from(b@, e + 1) =~= Seq::<Seq<char>>::empty());
                assert(ls.drop_first() =~= Seq::<Seq<char>>::empty());
                assert(first_pretty_name(ls) == first_pretty_name(ls.drop_first()));
            }
            return None;
        }
        start = e + 1;
    }
    None
}

/// The distribution's display name from the `os-release` files in the
/// order the spec says to read them; a fixed fallback when none gives one.
pub fn pretty_name(texts: &[String]) -> (r: String)
    ensures
        (exists|i: int| 0 <= i < texts@.len() && first_pretty_name(lines(#[trigger] texts@[i]@)) is Some)
            ==> ({
            let i = choose|i: int|
                0 <= i < texts@.len() && first_pretty_name(lines(#[trigger] texts@[i]@)) is Some
                    && forall|j: int|
                    0 <= j < i ==> first_pretty_name(lines(#[trigger] texts@[j]@)) is None;
            first_pretty_name(lines(texts@[i]@)) == Some(r@)
        }),
        !(exists|i: int| 0 <= i < texts@.len() && first_pretty_name(lines(#[trigger] texts@[i]@)) is Some)
            ==> r@ == "Linux (unknown distribution)"@,
{
    let mut i: usize = 0;
    while i < texts.len()
        invariant
            i <= texts@.len(),
            forall|j: int| 0 <= j < i ==> first_pretty_name(lines(#[trigger] texts@[j]@)) is None,
        decreases texts.len() - i,
    {
        match pretty_name_in(texts[i].as_str()) {
            Some(v) => {
                proof {
                    let w = choose|k: int|
                        0 <= k < texts@.len() && first_pretty_name(lines(#[trigger] texts@[k]@))
                            is Some && forall|j: int|
                            0 <= j < k ==> first_pretty_name(lines(#[trigger] texts@[j]@)) is None;
                    assert(0 <= w < texts@.len() && first_pretty_name(lines(texts@[w]@)) is Some && forall|j: int|
                            0 <= j < w ==> first_pretty_name(lines(#[trigger] texts@[j]@)) is None) by {
                        assert(first_pretty_name(lines(texts@[i as int]@)) is Some);
                    }
                    if w < i {
                        assert(first_pretty_name(lines(texts@[w]@)) is None);
                    } else if w > i {
                        assert(first_pretty_name(lines(texts@[i as int]@)) is None);
                    }
                }
                return v;
            },
            None => {},
        }
        i = i + 1;
    }
    "Linux (unknown distribution)".to_owned()
}

/// The OS build string: the display name and the kernel release.
pub fn os_build(pretty: &str, kernel: &str) -> (r: String)
    ensures
        r@ == pretty@ + seq![' '] + kernel@,
{
    let mut out = pretty.to_owned();
    push_char(&mut out, ' ');
    push_str(&mut out, kernel);
    out
}

} // verus!
