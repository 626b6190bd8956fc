//! Character-level text primitives shared by the parsers and the matchers:
//! whitespace trimming, prefix and substring search, line splitting. Every
//! operation works on the `Seq<char>` view of a string, so the contracts of
//! the callers can speak of characters rather than of UTF-8 bytes.

use vstd::prelude::*;

verus! {

/// Whether a character has the Unicode `White_Space` property, which is
/// what `char::is_whitespace` answers: tab through carriage return, space,
/// next line, no-break space, ogham space mark, en quad through hair space,
/// line and paragraph separators, narrow no-break space, medium
/// mathematical space and ideographic space.
pub open spec fn is_white(c: char) -> bool {
    let u = c as u32;
    ||| 0x9 <= u && u <= 0xd
    ||| u == 0x20
    ||| u == 0x85
    ||| u == 0xa0
    ||| u == 0x1680
    ||| 0x2000 <= u && u <= 0x200a
    ||| u == 0x2028
    ||| u == 0x2029
    ||| u == 0x202f
    ||| u == 0x205f
    ||| u == 0x3000
}

/// What `str::to_lowercase` returns for a string (full Unicode lowercase
/// mapping, which may change the length).
pub uninterp spec fn lowercase(s: Seq<char>) -> Seq<char>;

/// Whether a character is whitespace, as `char::is_whitespace` answers.
pub(crate) fn char_is_whitespace(c: char) -> (r: bool)
    ensures
        r == is_white(c),
{
    let u = c as u32;
    (0x9 <= u && u <= 0xd) || u == 0x20 || u == 0x85 || u == 0xa0 || u == 0x1680 || (0x2000 <= u
        && u <= 0x200a) || u == 0x2028 || u == 0x2029 || u == 0x202f || u == 0x205f || u == 0x3000
}

/// `str::to_lowercase`: the result is the lowercase mapping of `s`, named
/// `lowercase` here.
#[verifier::external_body]
pub(crate) fn str_to_lowercase(s: &str) -> (r: String)
    ensures
        r@ == lowercase(s@),
{
    s.to_lowercase()
}

/// `String::push`: appends one character.
#[verifier::external_body]
pub(crate) fn push_char(s: &mut String, c: char)
    ensures
        final(s)@ == old(s)@.push(c),
{
    s.push(c);
}

/// Whether two strings are equal.
pub fn same_text(a: &str, b: &str) -> (r: bool)
    ensures
        r == (a@ == b@),
{
    a.to_owned() == b.to_owned()
}

/// Whether `v` holds a string equal to `s`.
pub fn lists(v: &[String], s: &str) -> (r: bool)
    ensures
        r == views(v@).contains(s@),
{
    let mut i: usize = 0;
    while i < v.len()
        invariant
            i <= v@.len(),
            forall|k: int| 0 <= k < i ==> views(v@)[k] != s@,
        decreases v.len() - i,
    {
        proof {
            assert(views(v@)[i as int] == v@[i as int]@);
        }
        if same_text(v[i].as_str(), s) {
            proof {
                assert(views(v@)[i as int] == s@);
            }
            return true;
        }
        i = i + 1;
    }
    false
}

/// The characters of `s`, in order.
pub fn chars_of(s: &str) -> (v: Vec<char>)
    ensures
        v@ == s@,
{
    let mut v: Vec<char> = Vec::new();
    for c in it: s.chars()
        invariant
            v@ == it.seq().take(it.index() as int),
    {
        v.push(c);
    }
    v
}

/// A string holding exactly the characters `v[from..to]`.
pub fn string_of(v: &[char], from: usize, to: usize) -> (s: String)
    requires
        from <= to <= v@.len(),
    ensures
        s@ == v@.subrange(from as int, to as int),
{
    let mut s = String::new();
    let mut i = from;
    while i < to
        invariant
            from <= i <= to <= v@.len(),
            s@ == v@.subrange(from as int, i as int),
        decreases to - i,
    {
        push_char(&mut s, v[i]);
        i = i + 1;
        assert(s@ =~= v@.subrange(from as int, i as int));
    }
    s
}

/// `s` with its leading whitespace removed.
pub open spec fn trim_start(s: Seq<char>) -> Seq<char>
    decreases s.len(),
{
    if s.len() > 0 && is_white(s[0]) {
        trim_start(s.drop_first())
    } else {
        s
    }
}

/// `s` with its trailing whitespace removed.
pub open spec fn trim_end(s: Seq<char>) -> Seq<char>
    decreases s.len(),
{
    if s.len() > 0 && is_white(s.last()) {
        trim_end(s.drop_last())
    } else {
        s
    }
}

/// `s` with whitespace removed at both ends, as `str::trim` does.
pub open spec fn trim(s: Seq<char>) -> Seq<char> {
    trim_end(trim_start(s))
}

/// `s` with every leading `c` removed.
pub open spec fn trim_start_char(s: Seq<char>, c: char) -> Seq<char>
    decreases s.len(),
{
    if s.len() > 0 && s[0] == c {
        trim_start_char(s.drop_first(), c)
    } else {
        s
    }
}

/// `s` with every trailing `c` removed.
pub open spec fn trim_end_char(s: Seq<char>, c: char) -> Seq<char>
    decreases s.len(),
{
    if s.len() > 0 && s.last() == c {
        trim_end_char(s.drop_last(), c)
    } else {
        s
    }
}

/// `s` with `c` removed at both ends, as `str::trim_matches(c)` does.
pub open spec fn trim_char(s: Seq<char>, c: char) -> Seq<char> {
    trim_end_char(trim_start_char(s, c), c)
}

/// Whether `p` is a prefix of `s`.
pub open spec fn starts_with(s: Seq<char>, p: Seq<char>) -> bool {
    p.len() <= s.len() && s.subrange(0, p.len() as int) == p
}

/// Whether `p` is a suffix of `s`.
pub open spec fn ends_with(s: Seq<char>, p: Seq<char>) -> bool {
    p.len() <= s.len() && s.subrange(s.len() - p.len(), s.len() as int) == p
}

/// Whether `n` occurs in `h` starting at position `i`.
pub open spec fn occurs_at(h: Seq<char>, n: Seq<char>, i: int) -> bool {
    0 <= i && i + n.len() <= h.len() && h.subrange(i, i + n.len()) == n
}

/// Whether `n` occurs anywhere in `h`, as `str::contains` asks.
pub open spec fn contains(h: Seq<char>, n: Seq<char>) -> bool {
    exists|i: int| occurs_at(h, n, i)
}

/// The first position at or after `from` where `n` occurs in `h`, as
/// `str::find` reports it (counted in characters).
pub open spec fn find_from(h: Seq<char>, n: Seq<char>, from: int) -> Option<int>
    decreases h.len() + 1 - from,
{
    if from < 0 || from + n.len() > h.len() {
        None
    } else if occurs_at(h, n, from) {
        Some(from)
    } else {
        find_from(h, n, from + 1)
    }
}

/// The first position where `n` occurs in `h`.
pub open spec fn find(h: Seq<char>, n: Seq<char>) -> Option<int> {
    find_from(h, n, 0)
}

/// The first `count` characters of `s` (all of `s` when it is shorter).
pub open spec fn take_chars(s: Seq<char>, count: nat) -> Seq<char> {
    if s.len() <= count {
        s
    } else {
        s.take(count as int)
    }
}

// --- Lemmas about the recursive definitions ---

pub proof fn lemma_trim_start_is_suffix(s: Seq<char>)
    ensures
        trim_start(s).len() <= s.len(),
        trim_start(s) == s.skip(s.len() - trim_start(s).len()),
        trim_start(s).len() > 0 ==> !is_white(trim_start(s)[0]),
        forall|i: int| 0 <= i < s.len() - trim_start(s).len() ==> is_white(#[trigger] s[i]),
    decreases s.len(),
{
    if s.len() > 0 && is_white(s[0]) {
        lemma_trim_start_is_suffix(s.drop_first());
        let t = trim_start(s.drop_first());
        assert(s.drop_first().skip(s.drop_first().len() - t.len()) =~= s.skip(s.len() - t.len()));
        assert forall|i: int| 0 <= i < s.len() - t.len() implies is_white(#[trigger] s[i]) by {
            if i > 0 {
                assert(s[i] == s.drop_first()[i - 1]);
            }
        }
    } else {
        assert(s.skip(0) =~= s);
    }
}

pub proof fn lemma_trim_end_is_prefix(s: Seq<char>)
    ensures
        trim_end(s).len() <= s.len(),
        trim_end(s) == s.take(trim_end(s).len() as int),
        trim_end(s).len() > 0 ==> !is_white(trim_end(s).last()),
        forall|i: int| trim_end(s).len() <= i < s.len() ==> is_white(#[trigger] s[i]),
    decreases s.len(),
{
    if s.len() > 0 && is_white(s.last()) {
        lemma_trim_end_is_prefix(s.drop_last());
        let t = trim_end(s.drop_last());
        assert(s.drop_last().take(t.len() as int) =~= s.take(t.len() as int));
        assert forall|i: int| t.len() <= i < s.len() implies is_white(#[trigger] s[i]) by {
            if i < s.len() - 1 {
                assert(s[i] == s.drop_last()[i]);
            }
        }
    } else {
        assert(s.take(s.len() as int) =~= s);
    }
}

/// Skipping leading whitespace one position at a time reaches `trim_start`.
pub proof fn lemma_trim_start_step(s: Seq<char>, i: int)
    requires
        0 <= i < s.len(),
        is_white(s[i]),
    ensures
        trim_start(s.skip(i)) == trim_start(s.skip(i + 1)),
{
    assert(s.skip(i).drop_first() =~= s.skip(i + 1));
}

/// Dropping trailing whitespace one position at a time reaches `trim_end`.
pub proof fn lemma_trim_end_step(s: Seq<char>, j: int)
    requires
        0 < j <= s.len(),
        is_white(s[j - 1]),
    ensures
        trim_end(s.take(j)) == trim_end(s.take(j - 1)),
{
    assert(s.take(j).drop_last() =~= s.take(j - 1));
}

pub proof fn lemma_trim_start_char_step(s: Seq<char>, i: int, c: char)
    requires
        0 <= i < s.len(),
        s[i] == c,
    ensures
        trim_start_char(s.skip(i), c) == trim_start_char(s.skip(i + 1), c),
{
    assert(s.skip(i).drop_first() =~= s.skip(i + 1));
}

pub proof fn lemma_trim_end_char_step(s: Seq<char>, j: int, c: char)
    requires
        0 < j <= s.len(),
        s[j - 1] == c,
    ensures
        trim_end_char(s.take(j), c) == trim_end_char(s.take(j - 1), c),
{
    assert(s.take(j).drop_last() =~= s.take(j - 1));
}

// --- Executable operations ---

/// Where `v[from..to]` begins once its leading whitespace is trimmed.
pub fn trim_start_index(v: &[char], from: usize, to: usize) -> (i: usize)
    requires
        from <= to <= v@.len(),
    ensures
        from <= i <= to,
        v@.subrange(i as int, to as int) == trim_start(v@.subrange(from as int, to as int)),
{
    let ghost s = v@.subrange(from as int, to as int);
    let mut i = from;
    proof {
        assert(s.skip(0) =~= s);
    }
    while i < to && char_is_whitespace(v[i])
        invariant
            from <= i <= to <= v@.len(),
            s == v@.subrange(from as int, to as int),
            trim_start(s) == trim_start(s.skip(i - from)),
        decreases to - i,
    {
        proof {
            lemma_trim_start_step(s, i - from);
            assert(s[i - from] == v@[i as int]);
        }
        i = i + 1;
    }
    proof {
        if i < to {
            assert(s.skip(i - from)[0] == v@[i as int]);
        }
        assert(s.skip(i - from) =~= v@.subrange(i as int, to as int));
    }
    i
}

/// Where `v[from..to]` ends once its trailing whitespace is trimmed.
pub fn trim_end_index(v: &[char], from: usize, to: usize) -> (j: usize)
    requires
        from <= to <= v@.len(),
    ensures
        from <= j <= to,
        v@.subrange(from as int, j as int) == trim_end(v@.subrange(from as int, to as int)),
{
    let ghost t = v@.subrange(from as int, to as int);
    let mut j = to;
    proof {
        assert(t.take(t.len() as int) =~= t);
    }
    while j > from && char_is_whitespace(v[j - 1])
        invariant
            from <= j <= to <= v@.len(),
            t == v@.subrange(from as int, to as int),
            trim_end(t) == trim_end(t.take(j - from)),
        decreases j - from,
    {
        proof {
            lemma_trim_end_step(t, j - from);
            assert(t[j - from - 1] == v@[j - 1]);
        }
        j = j - 1;
    }
    proof {
        assert(t.take(j - from) =~= v@.subrange(from as int, j as int));
        if j > from {
            assert(t.take(j - from).last() == v@[j - 1]);
        }
    }
    j
}

/// Compares `v[from..to]` with `w`.
pub fn equals_range(v: &[char], from: usize, to: usize, w: &[char]) -> (r: bool)
    requires
        from <= to <= v@.len(),
    ensures
        r == (v@.subrange(from as int, to as int) == w@),
{
    if to - from != w.len() {
        return false;
    }
    let mut k: usize = 0;
    while k < w.len()
        invariant
            from <= to <= v@.len(),
            to - from == w@.len(),
            k <= w@.len(),
            forall|m: int| 0 <= m < k ==> v@[from + m] == w@[m],
        decreases w.len() - k,
    {
        if v[from + k] != w[k] {
            proof {
                assert(v@.subrange(from as int, to as int)[k as int] != w@[k as int]);
            }
            return false;
        }
        k = k + 1;
    }
    proof {
        assert(v@.subrange(from as int, to as int) =~= w@);
    }
    true
}

/// The bounds of `v[from..to]` with whitespace trimmed from both ends.
pub fn trim_bounds(v: &[char], from: usize, to: usize) -> (r: (usize, usize))
    requires
        from <= to <= v@.len(),
    ensures
        from <= r.0 <= r.1 <= to,
        v@.subrange(r.0 as int, r.1 as int) == trim(v@.subrange(from as int, to as int)),
{
    let i = trim_start_index(v, from, to);
    let j = trim_end_index(v, i, to);
    (i, j)
}

/// `str::trim` on a whole string, returning an owned copy.
pub fn trim_string(s: &str) -> (r: String)
    ensures
        r@ == trim(s@),
{
    let v = chars_of(s);
    let (a, b) = trim_bounds(v.as_slice(), 0, v.len());
    proof {
        assert(v@.subrange(0, v@.len() as int) =~= v@);
    }
    string_of(v.as_slice(), a, b)
}

/// Where `v[from..to]` begins once every leading `c` is trimmed.
pub fn trim_start_char_index(v: &[char], from: usize, to: usize, c: char) -> (i: usize)
    requires
        from <= to <= v@.len(),
    ensures
        from <= i <= to,
        v@.subrange(i as int, to as int) == trim_start_char(v@.subrange(from as int, to as int), c),
{
    let ghost s = v@.subrange(from as int, to as int);
    let mut i = from;
    proof {
        assert(s.skip(0) =~= s);
    }
    while i < to && v[i] == c
        invariant
            from <= i <= to <= v@.len(),
            s == v@.subrange(from as int, to as int),
            trim_start_char(s, c) == trim_start_char(s.skip(i - from), c),
        decreases to - i,
    {
        proof {
            assert(s[i - from] == v@[i as int]);
            lemma_trim_start_char_step(s, i - from, c);
        }
        i = i + 1;
    }
    proof {
        if i < to {
            assert(s.skip(i - from)[0] == v@[i as int]);
        }
        assert(s.skip(i - from) =~= v@.subrange(i as int, to as int));
    }
    i
}

/// Where `v[from..to]` ends once every trailing `c` is trimmed.
pub fn trim_end_char_index(v: &[char], from: usize, to: usize, c: char) -> (j: usize)
    requires
        from <= to <= v@.len(),
    ensures
        from <= j <= to,
        v@.subrange(from as int, j as int) == trim_end_char(v@.subrange(from as int, to as int), c),
{
    let ghost t = v@.subrange(from as int, to as int);
    let mut j = to;
    proof {
        assert(t.take(t.len() as int) =~= t);
    }
    while j > from && v[j - 1] == c
        invariant
            from <= j <= to <= v@.len(),
            t == v@.subrange(from as int, to as int),
            trim_end_char(t, c) == trim_end_char(t.take(j - from), c),
        decreases j - from,
    {
        proof {
            assert(t[j - from - 1] == v@[j - 1]);
            lemma_trim_end_char_step(t, j - from, c);
        }
        j = j - 1;
    }
    proof {
        assert(t.take(j - from) =~= v@.subrange(from as int, j as int));
        if j > from {
            assert(t.take(j - from).last() == v@[j - 1]);
        }
    }
    j
}

/// The bounds of `v[from..to]` with the character `c` trimmed from both ends.
pub fn trim_char_bounds(v: &[char], from: usize, to: usize, c: char) -> (r: (usize, usize))
    requires
        from <= to <= v@.len(),
    ensures
        from <= r.0 <= r.1 <= to,
        v@.subrange(r.0 as int, r.1 as int) == trim_char(v@.subrange(from as int, to as int), c),
{
    let i = trim_start_char_index(v, from, to, c);
    let j = trim_end_char_index(v, i, to, c);
    (i, j)
}

/// Whether `v[at..]` begins with `p`.
pub fn occurs_at_exec(v: &[char], p: &[char], at: usize) -> (r: bool)
    ensures
        r == occurs_at(v@, p@, at as int),
{
    if at > v.len() || p.len() > v.len() - at {
        return false;
    }
    let vl = v.len();
    let mut k: usize = 0;
    while k < p.len()
        invariant
            vl == v@.len(),
            at + p@.len() <= v@.len(),
            k <= p@.len(),
            forall|m: int| 0 <= m < k ==> v@[at + m] == p@[m],
        decreases p.len() - k,
    {
        if v[at + k] != p[k] {
            proof {
                assert(v@.subrange(at as int, at + p@.len())[k as int] != p@[k as int]);
            }
            return false;
        }
        k = k + 1;
    }
    proof {
        assert(v@.subrange(at as int, at + p@.len()) =~= p@);
    }
    true
}

/// Whether `v` begins with `p`.
pub fn starts_with_exec(v: &[char], p: &[char]) -> (r: bool)
    ensures
        r == starts_with(v@, p@),
{
    occurs_at_exec(v, p, 0)
}

/// The first occurrence of `n` in `h` at or after `from`.
pub fn find_from_exec(h: &[char], n: &[char], from: usize) -> (r: Option<usize>)
    ensures
        match r {
            Some(i) => find_from(h@, n@, from as int) == Some(i as int),
            None => find_from(h@, n@, from as int) is None,
        },
{
    if n.len() > h.len() || from > h.len() - n.len() {
        return None;
    }
    let last = h.len() - n.len();
    let mut i = from;
    loop
        invariant
            from <= i <= last,
            last == h@.len() - n@.len(),
            n@.len() <= h@.len(),
            find_from(h@, n@, from as int) == find_from(h@, n@, i as int),
        decreases last - i,
    {
        if occurs_at_exec(h, n, i) {
            return Some(i);
        }
        if i == last {
            proof {
                assert(find_from(h@, n@, i as int + 1) is None);
            }
            return None;
        }
        i = i + 1;
    }
}

/// Whether `n` occurs anywhere in `h`.
pub fn contains_exec(h: &[char], n: &[char]) -> (r: bool)
    ensures
        r == contains(h@, n@),
{
    let found = find_from_exec(h, n, 0);
    proof {
        lemma_find_from_contains(h@, n@, 0);
    }
    found.is_some()
}

/// `find_from` finds exactly when an occurrence exists at or after `from`,
/// and what it finds is the first one.
pub proof fn lemma_find_from_contains(h: Seq<char>, n: Seq<char>, from: int)
    requires
        0 <= from,
    ensures
        find_from(h, n, from) is Some <==> exists|i: int| from <= i && occurs_at(h, n, i),
        find_from(h, n, from) matches Some(i) ==> from <= i && occurs_at(h, n, i) && forall|j: int|
            from <= j < i ==> !occurs_at(h, n, j),
    decreases h.len() + 1 - from,
{
    if from + n.len() > h.len() {
        assert forall|i: int| from <= i implies !occurs_at(h, n, i) by {}
    } else if occurs_at(h, n, from) {
    } else {
        lemma_find_from_contains(h, n, from + 1);
        assert forall|i: int| from <= i && occurs_at(h, n, i) implies from + 1 <= i by {}
    }
}


// --- Lines ---

/// The position of the first line feed at or after `i`, or the length of
/// `s` when there is none.
pub open spec fn line_end(s: Seq<char>, i: int) -> int
    decreases s.len() - i,
{
    if i < 0 || i >= s.len() {
        s.len() as int
    } else if s[i] == '\n' {
        i
    } else {
        line_end(s, i + 1)
    }
}

pub proof fn lemma_line_end(s: Seq<char>, i: int)
    requires
        0 <= i <= s.len(),
    ensures
        i <= line_end(s, i) <= s.len(),
        line_end(s, i) < s.len() ==> s[line_end(s, i)] == '\n',
        forall|k: int| i <= k < line_end(s, i) ==> s[k] != '\n',
    decreases s.len() - i,
{
    if i < s.len() && s[i] != '\n' {
        lemma_line_end(s, i + 1);
    }
}

/// The text of the line spanning `[start, e)`, where `e` is its line feed
/// (or the end of `s`): a carriage return just before a line feed belongs
/// to the line ending, not the text, as `str::lines` has it.
pub open spec fn line_text(s: Seq<char>, start: int, e: int) -> Seq<char> {
    if e < s.len() && e > start && s[e - 1] == '\r' {
        s.subrange(start, e - 1)
    } else {
        s.subrange(start, e)
    }
}

/// The lines of `s` from position `start` on, as `str::lines` yields them:
/// split at line feeds, with no empty line after a final line feed.
pub open spec fn lines_from(s: Seq<char>, start: int) -> Seq<Seq<char>>
    decreases s.len() + 1 - start,
    via lines_from_decreases
{
    if start < 0 || start >= s.len() {
        Seq::empty()
    } else {
        let e = line_end(s, start);
        seq![line_text(s, start, e)] + lines_from(s, e + 1)
    }
}

#[via_fn]
proof fn lines_from_decreases(s: Seq<char>, start: int) {
    if 0 <= start < s.len() {
        lemma_line_end(s, start);
    }
}

/// The lines of `s`, as `str::lines` yields them.
pub open spec fn lines(s: Seq<char>) -> Seq<Seq<char>> {
    lines_from(s, 0)
}

/// The first line feed in `v[i..to]`, or `to`.
pub fn line_end_exec(v: &[char], i: usize, to: usize) -> (e: usize)
    requires
        i <= to <= v@.len(),
    ensures
        e == line_end(v@.subrange(0, to as int), i as int),
{
    let ghost s = v@.subrange(0, to as int);
    let mut k = i;
    while k < to && v[k] != '\n'
        invariant
            i <= k <= to <= v@.len(),
            s == v@.subrange(0, to as int),
            line_end(s, i as int) == line_end(s, k as int),
        decreases to - k,
    {
        k = k + 1;
    }
    k
}

/// The bounds of the text of the line spanning `[start, e)` within `v[..to]`.
pub fn line_text_bounds(v: &[char], start: usize, e: usize, to: usize) -> (r: (usize, usize))
    requires
        start <= e <= to <= v@.len(),
    ensures
        start <= r.0 <= r.1 <= e,
        v@.subrange(r.0 as int, r.1 as int) == line_text(v@.subrange(0, to as int), start as int, e as int),
{
    if e < to && e > start && v[e - 1] == '\r' {
        (start, e - 1)
    } else {
        (start, e)
    }
}

// --- Decimal numerals ---

/// The decimal digit for `d` (`d < 10`).
pub open spec fn digit_char(d: nat) -> char {
    if d == 0 {
        '0'
    } else if d == 1 {
        '1'
    } else if d == 2 {
        '2'
    } else if d == 3 {
        '3'
    } else if d == 4 {
        '4'
    } else if d == 5 {
        '5'
    } else if d == 6 {
        '6'
    } else if d == 7 {
        '7'
    } else if d == 8 {
        '8'
    } else {
        '9'
    }
}

/// The decimal numeral of `n`, as `format!("{}", n)` writes it.
pub open spec fn decimal(n: nat) -> Seq<char>
    decreases n,
{
    if n < 10 {
        seq![digit_char(n)]
    } else {
        decimal(n / 10).push(digit_char(n % 10))
    }
}

fn digit_exec(d: u64) -> (c: char)
    requires
        d < 10,
    ensures
        c == digit_char(d as nat),
{
    if d == 0 {
        '0'
    } else if d == 1 {
        '1'
    } else if d == 2 {
        '2'
    } else if d == 3 {
        '3'
    } else if d == 4 {
        '4'
    } else if d == 5 {
        '5'
    } else if d == 6 {
        '6'
    } else if d == 7 {
        '7'
    } else if d == 8 {
        '8'
    } else {
        '9'
    }
}

/// Appends the decimal numeral of `n` to `s`.
pub fn push_decimal(s: &mut String, n: u64)
    ensures
        final(s)@ == old(s)@ + decimal(n as nat),
    decreases n,
{
    if n >= 10 {
        push_decimal(s, n / 10);
    }
    push_char(s, digit_exec(n % 10));
    proof {
        if n >= 10 {
            assert(final(s)@ =~= old(s)@ + decimal(n as nat));
        } else {
            assert(final(s)@ =~= old(s)@ + decimal(n as nat));
        }
    }
}

/// Appends the characters of `t` to `s`.
pub fn push_str(s: &mut String, t: &str)
    ensures
        final(s)@ == old(s)@ + t@,
{
    s.append(t);
}

// --- Splitting at a separator ---

/// The position of the first `c` at or after `i`, or the length of `s`.
pub open spec fn char_end(s: Seq<char>, c: char, i: int) -> int
    decreases s.len() - i,
{
    if i < 0 || i >= s.len() {
        s.len() as int
    } else if s[i] == c {
        i
    } else {
        char_end(s, c, i + 1)
    }
}

pub proof fn lemma_char_end(s: Seq<char>, c: char, i: int)
    requires
        0 <= i <= s.len(),
    ensures
        i <= char_end(s, c, i) <= s.len(),
        char_end(s, c, i) < s.len() ==> s[char_end(s, c, i)] == c,
        forall|k: int| i <= k < char_end(s, c, i) ==> s[k] != c,
    decreases s.len() - i,
{
    if i < s.len() && s[i] != c {
        lemma_char_end(s, c, i + 1);
    }
}

/// The pieces of `s` from position `start` on, separated by `c`, as
/// `str::split(c)` yields them (an empty piece after a trailing separator
/// included).
pub open spec fn split_from(s: Seq<char>, c: char, start: int) -> Seq<Seq<char>>
    decreases s.len() + 1 - start,
    via split_from_decreases
{
    if start < 0 || start > s.len() {
        Seq::empty()
    } else {
        let e = char_end(s, c, start);
        if e >= s.len() {
            seq![s.subrange(start, s.len() as int)]
        } else {
            seq![s.subrange(start, e)] + split_from(s, c, e + 1)
        }
    }
}

#[via_fn]
proof fn split_from_decreases(s: Seq<char>, c: char, start: int) {
    if 0 <= start <= s.len() {
        lemma_char_end(s, c, start);
    }
}

/// `str::split(c)`: the pieces of `s` between separators.
pub open spec fn split_char(s: Seq<char>, c: char) -> Seq<Seq<char>> {
    split_from(s, c, 0)
}

/// The views of a sequence of owned strings.
pub open spec fn views(v: Seq<String>) -> Seq<Seq<char>> {
    v.map_values(|s: String| s@)
}

/// Splits `s` at every `c`, as `str::split(c)` does.
pub fn split_at_char(s: &str, c: char) -> (r: Vec<String>)
    ensures
        views(r@) == split_char(s@, c),
{
    let v = chars_of(s);
    let ghost sv = v@;
    let mut out: Vec<String> = Vec::new();
    let mut start: usize = 0;
    proof {
        assert(views(out@) =~= Seq::<Seq<char>>::empty());
    }
    loop
        invariant
            sv == v@,
            sv == s@,
            start <= sv.len(),
            split_char(sv, c) == views(out@) + split_from(sv, c, start as int),
        decreases sv.len() - start,
    {
        let mut e = start;
        while e < v.len() && v[e] != c
            invariant
                start <= e <= sv.len(),
                sv == v@,
                char_end(sv, c, start as int) == char_end(sv, c, e as int),
            decreases sv.len() - e,
        {
            e = e + 1;
        }
        let piece = string_of(v.as_slice(), start, e);
        let ghost before = views(out@);
        out.push(piece);
        proof {
            lemma_char_end(sv, c, start as int);
            assert(views(out@) =~= before.push(sv.subrange(start as int, e as int)));
        }
        if e >= v.len() {
            proof {
                assert(split_from(sv, c, start as int) =~= seq![sv.subrange(start as int, sv.len() as int)]);
                assert(split_char(sv, c) =~= views(out@));
            }
            return out;
        }
        proof {
            assert(split_char(sv, c) =~= views(out@) + split_from(sv, c, e + 1));
        }
        start = e + 1;
    }
}

// --- Unsigned decimal numerals ---

/// Whether `c` is an ASCII decimal digit.
pub open spec fn is_digit(c: char) -> bool {
    '0' <= c && c <= '9'
}

/// The value of a run of ASCII digits.
pub open spec fn digits_value(s: Seq<char>) -> nat
    decreases s.len(),
{
    if s.len() == 0 {
        0
    } else {
        digits_value(s.drop_last()) * 10 + ((s.last() as nat) - ('0' as nat)) as nat
    }
}

/// What `str::parse::<u32>` accepts: an optional `+`, then one or more ASCII
/// digits whose value fits in a `u32`.
pub open spec fn parse_u32_spec(s: Seq<char>) -> Option<u32> {
    let d = unsigned_digits(s);
    if d.len() > 0 && all_digits(d) && digits_value(d) <= u32::MAX {
        Some(digits_value(d) as u32)
    } else {
        None
    }
}

/// The numeral without its optional leading `+`.
pub open spec fn unsigned_digits(s: Seq<char>) -> Seq<char> {
    if s.len() > 0 && s[0] == '+' {
        s.drop_first()
    } else {
        s
    }
}

/// Whether every character of `d` is an ASCII digit.
pub open spec fn all_digits(d: Seq<char>) -> bool {
    forall|i: int| 0 <= i < d.len() ==> is_digit(#[trigger] d[i])
}

/// The numbers keep growing as digits are appended.
proof fn lemma_digits_value_grows(s: Seq<char>, i: int)
    requires
        0 <= i <= s.len(),
        forall|k: int| 0 <= k < s.len() ==> is_digit(#[trigger] s[k]),
    ensures
        digits_value(s.take(i)) <= digits_value(s),
    decreases s.len() - i,
{
    if i < s.len() {
        lemma_digits_value_grows(s, i + 1);
        assert(s.take(i + 1).drop_last() =~= s.take(i));
    } else {
        assert(s.take(i) =~= s);
    }
}

/// Parses a `u32` the way `str::parse::<u32>` does.
pub fn parse_u32(s: &str) -> (r: Option<u32>)
    ensures
        r == parse_u32_spec(s@),
{
    let v = chars_of(s);
    let ghost sv = v@;
    let start: usize = if v.len() > 0 && v[0] == '+' {
        1
    } else {
        0
    };
    let ghost d = if sv.len() > 0 && sv[0] == '+' {
        sv.drop_first()
    } else {
        sv
    };
    proof {
        assert(d =~= sv.subrange(start as int, sv.len() as int));
    }
    if start == v.len() {
        return None;
    }
    let mut acc: u64 = 0;
    let mut i = start;
    proof {
        assert(d.take(0) =~= Seq::<char>::empty());
    }
    while i < v.len()
        invariant
            sv == v@,
            sv == s@,
            d == unsigned_digits(sv),
            start <= i <= sv.len(),
            d == sv.subrange(start as int, sv.len() as int),
            forall|k: int| 0 <= k < i - start ==> is_digit(#[trigger] d[k]),
            acc == digits_value(d.take(i - start)),
            acc <= u32::MAX,
        decreases sv.len() - i,
    {
        let ch = v[i];
        if !('0' <= ch && ch <= '9') {
            proof {
                assert(d[i - start] == ch);
                assert(!is_digit(d[i - start]));
                assert(!(forall|k: int| 0 <= k < d.len() ==> is_digit(#[trigger] d[k])));
            }
            return None;
        }
        let digit = (ch as u32 - '0' as u32) as u64;
        let next = acc * 10 + digit;
        proof {
            assert(d.take(i - start + 1).drop_last() =~= d.take(i - start));
            assert(d.take(i - start + 1).last() == ch);
        }
        if next > 0xffff_ffffu64 {
            proof {
                assert(forall|k: int| 0 <= k < i - start + 1 ==> is_digit(#[trigger] d[k]));
                assert(digits_value(d.take(i - start + 1)) == next);
                if forall|k: int| 0 <= k < d.len() ==> is_digit(#[trigger] d[k]) {
                    lemma_digits_value_grows(d, i - start + 1);
                    assert(digits_value(d) > u32::MAX);
                }
            }
            return None;
        }
        acc = next;
        i = i + 1;
    }
    proof {
        assert(d.take(sv.len() - start) =~= d);
    }
    Some(acc as u32)
}

} // verus!
