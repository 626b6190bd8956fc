//! Meeting documents: the YAML-ish frontmatter block at the top of a
//! meeting's markdown (reading a value, stripping it, writing the canonical
//! one), the attendee list it carries, and the transcript document layout.

use vstd::prelude::*;

use vstd::string::StringSliceAdditionalSpecFns;
use vstd::utf8::{encode_utf8, is_char_boundary};

use crate::json::{lemma_json_string_list_has_no_line_feed, json_string_list, json_string_list_text, parse_string_list, string_list_json};
use crate::text::{
    decimal, digit_char, push_decimal, push_str, split_at_char, split_char, trim_end, trim_end_char,
    trim_end_char_index, trim_start_char, trim_start_char_index, views, parse_u32, parse_u32_spec,
    chars_of, find, find_from, find_from_exec, is_white, lemma_find_from_contains, lemma_line_end,
    equals_range, line_end_exec, push_char, trim_end_index, trim_string, line_text, line_text_bounds, lines, lines_from, occurs_at, starts_with,
    starts_with_exec, string_of, trim, trim_bounds, trim_char, trim_char_bounds, trim_start,
    trim_start_index,
};

verus! {

// --- The frontmatter delimiters ---

/// `---`, the fence that opens and closes the frontmatter.
pub open spec fn fence() -> Seq<char> {
    seq!['-', '-', '-']
}

/// A line feed followed by the fence: where the frontmatter closes.
pub open spec fn closing_fence() -> Seq<char> {
    seq!['\n', '-', '-', '-']
}

fn fence_exec() -> (v: Vec<char>)
    ensures
        v@ == fence(),
{
    let v = vec!['-', '-', '-'];
    proof {
        assert(v@ =~= fence());
    }
    v
}

fn closing_fence_exec() -> (v: Vec<char>)
    ensures
        v@ == closing_fence(),
{
    let v = vec!['\n', '-', '-', '-'];
    proof {
        assert(v@ =~= closing_fence());
    }
    v
}

/// Where the closing fence starts, when the document opens with a fence and
/// the block is closed.
pub open spec fn closing_at(m: Seq<char>) -> Option<int> {
    if !starts_with(m, fence()) {
        None
    } else {
        find(m, closing_fence())
    }
}

/// A closing fence found in a document that opens with a fence sits past
/// the opening fence.
proof fn lemma_closing_after_opening(m: Seq<char>, end: int)
    requires
        starts_with(m, fence()),
        find(m, closing_fence()) == Some(end),
    ensures
        3 <= end,
        end + 4 <= m.len(),
{
    lemma_find_from_contains(m, closing_fence(), 0);
    assert(m.subrange(end, end + 4)[0] == '\n');
    if end < 3 {
        assert(m.subrange(0, 3)[end] == '-');
    }
}

/// The document with its frontmatter removed: everything after the line
/// holding the closing fence, leading whitespace trimmed. A document with no
/// (closed) frontmatter comes back as it is.
pub open spec fn strip_frontmatter_spec(m: Seq<char>) -> Seq<char> {
    match closing_at(m) {
        None => m,
        Some(end) => match find_from(m, seq!['\n'], end + 4) {
            Some(nl) => trim_start(m.skip(nl + 1)),
            None => Seq::empty(),
        },
    }
}

/// Strips the frontmatter block from a meeting document.
pub fn strip_frontmatter(markdown: &str) -> (r: &str)
    ensures
        r@ == strip_frontmatter_spec(markdown@),
{
    let v = chars_of(markdown);
    let f = fence_exec();
    if !starts_with_exec(v.as_slice(), f.as_slice()) {
        return markdown;
    }
    let cf = closing_fence_exec();
    let end = match find_from_exec(v.as_slice(), cf.as_slice(), 0) {
        Some(end) => end,
        None => return markdown,
    };
    let vlen = v.len();
    proof {
        lemma_closing_after_opening(v@, end as int);
        assert(end + 4 <= vlen);
    }
    let nl = vec!['\n'];
    let closing_end = match find_from_exec(v.as_slice(), nl.as_slice(), end + 4) {
        Some(o) => {
            proof {
                lemma_find_from_contains(v@, nl@, end + 4);
                assert(o < vlen);
            }
            o + 1
        },
        None => v.len(),
    };
    let i = trim_start_index(v.as_slice(), closing_end, v.len());
    proof {
        assert(nl@ =~= seq!['\n']);
        assert(v@.subrange(closing_end as int, v@.len() as int) =~= v@.skip(closing_end as int));
        if closing_end == v.len() {
            assert(v@.skip(closing_end as int) =~= Seq::<char>::empty());
            assert(trim_start(Seq::<char>::empty()) == Seq::<char>::empty());
        }
    }
    markdown.substring_char(i, v.len())
}

// --- Reading one value ---

/// The frontmatter block's text: between the opening fence and the line
/// feed before the closing fence.
pub open spec fn frontmatter_block(m: Seq<char>) -> Option<Seq<char>> {
    match closing_at(m) {
        None => None,
        Some(end) => Some(m.subrange(3, end)),
    }
}

/// The value of a `key: value` line when its key, trimmed, is `key`: the
/// text after the first colon, trimmed.
pub open spec fn line_value(line: Seq<char>, key: Seq<char>) -> Option<Seq<char>> {
    match find(line, seq![':']) {
        Some(c) => if trim(line.take(c)) == key {
            Some(trim(line.skip(c + 1)))
        } else {
            None
        },
        None => None,
    }
}

/// The value of the first line among `ls` that carries `key`.
pub open spec fn first_value(ls: Seq<Seq<char>>, key: Seq<char>) -> Option<Seq<char>>
    decreases ls.len(),
{
    if ls.len() == 0 {
        None
    } else {
        match line_value(ls[0], key) {
            Some(v) => Some(v),
            None => first_value(ls.drop_first(), key),
        }
    }
}

/// The value the frontmatter gives `key`, if it gives one.
pub open spec fn frontmatter_value_spec(m: Seq<char>, key: Seq<char>) -> Option<Seq<char>> {
    match frontmatter_block(m) {
        None => None,
        Some(b) => first_value(lines(b), key),
    }
}


/// The value carried by the line `v[a..b]` for `key`, as bounds into `v`.
fn line_value_exec(v: &[char], a: usize, b: usize, key: &[char]) -> (r: Option<(usize, usize)>)
    requires
        a <= b <= v@.len(),
    ensures
        match r {
            Some((x, y)) => x <= y <= v@.len() && line_value(v@.subrange(a as int, b as int), key@)
                == Some(v@.subrange(x as int, y as int)),
            None => line_value(v@.subrange(a as int, b as int), key@) is None,
        },
{
    let ghost line = v@.subrange(a as int, b as int);
    let mut c = a;
    while c < b && v[c] != ':'
        invariant
            a <= c <= b <= v@.len(),
            line == v@.subrange(a as int, b as int),
            forall|k: int| a <= k < c ==> v@[k] != ':',
        decreases b - c,
    {
        c = c + 1;
    }
    proof {
        let colon = seq![':'];
        assert forall|k: int| 0 <= k < c - a implies !occurs_at(line, colon, k) by {
            assert(line.subrange(k, k + 1)[0] == line[k]);
        }
        lemma_find_skips(line, colon, 0, c - a);
        if c < b {
            assert(line.subrange(c - a, c - a + 1) =~= colon);
            assert(find(line, colon) == Some(c - a));
            assert(line.take(c - a) =~= v@.subrange(a as int, c as int));
            assert(line.skip(c - a + 1) =~= v@.subrange(c + 1, b as int));
        } else {
            lemma_find_from_contains(line, colon, 0);
            assert forall|i: int| 0 <= i implies !occurs_at(line, colon, i) by {
                if occurs_at(line, colon, i) {
                    assert(line.subrange(i, i + 1)[0] == line[i]);
                }
            }
        }
    }
    if c == b {
        return None;
    }
    let (ka, kb) = trim_bounds(v, a, c);
    if !equals_range(v, ka, kb, key) {
        return None;
    }
    let (va, vb) = trim_bounds(v, c + 1, b);
    Some((va, vb))
}

/// No occurrence between `k` and `j` means searching from `k` is searching
/// from `j`.
proof fn lemma_find_skips(h: Seq<char>, n: Seq<char>, k: int, j: int)
    requires
        0 <= k <= j,
        forall|i: int| k <= i < j ==> !occurs_at(h, n, i),
    ensures
        find_from(h, n, k) == find_from(h, n, j),
    decreases j - k,
{
    if k < j {
        lemma_find_skips(h, n, k + 1, j);
        if k + n.len() > h.len() {
            assert(find_from(h, n, j) is None) by {
                lemma_find_from_contains(h, n, j);
            }
        }
    }
}

/// The value the frontmatter of `markdown` gives `key`: the text after the
/// colon on the first block line whose key is `key`, trimmed.
pub fn frontmatter_value(markdown: &str, key: &str) -> (r: Option<String>)
    ensures
        match r {
            Some(s) => frontmatter_value_spec(markdown@, key@) == Some(s@),
            None => frontmatter_value_spec(markdown@, key@) is None,
        },
{
    let v = chars_of(markdown);
    let kv = chars_of(key);
    let f = fence_exec();
    if !starts_with_exec(v.as_slice(), f.as_slice()) {
        return None;
    }
    let cf = closing_fence_exec();
    let end = match find_from_exec(v.as_slice(), cf.as_slice(), 0) {
        Some(end) => end,
        None => return None,
    };
    proof {
        lemma_closing_after_opening(v@, end as int);
    }
    let block: &[char] = &v.as_slice()[3..end];
    let ghost b = block@;
    assert(b == v@.subrange(3, end as int));
    let mut start: usize = 0;
    proof {
        assert(b.subrange(0, b.len() as int) =~= b);
    }
    proof {
        assert(frontmatter_block(markdown@) == Some(b));
    }
    while start < block.len()
        invariant
            b == block@,
            frontmatter_value_spec(markdown@, key@) == first_value(lines(b), kv@),
            kv@ == key@,
            start <= b.len(),
            first_value(lines(b), kv@) == first_value(lines_from(b, start as int), kv@),
        decreases b.len() - start,
    {
        let e = line_end_exec(block, start, block.len());
        proof {
            assert(b.subrange(0, b.len() as int) =~= b);
            lemma_line_end(b, start as int);
        }
        let (la, lb) = line_text_bounds(block, start, e, block.len());
        let found = line_value_exec(block, la, lb, kv.as_slice());
        proof {
            let ls = lines_from(b, start as int);
            assert(ls[0] == line_text(b, start as int, e as int));
            assert(ls.drop_first() =~= lines_from(b, e + 1));
        }
        match found {
            Some((x, y)) => {
                return Some(string_of(block, x, y));
            },
            None => {},
        }
        if e >= block.len() {
            proof {
                let ls = lines_from(b, start as int);
                assert(lines_from(b, e + 1) =~= Seq::<Seq<char>>::empty());
                assert(ls.drop_first() =~= Seq::<Seq<char>>::empty());
                assert(first_value(ls, kv@) == first_value(ls.drop_first(), kv@));
            }
            return None;
        }
        start = e + 1;
    }
    None
}

// --- Attendees ---

/// One attendee entry as written, cleaned: whitespace, then double quotes,
/// trimmed from both ends.
pub open spec fn clean_attendee(a: Seq<char>) -> Seq<char> {
    trim_char(trim(a), '"')
}

/// The attendee list as `normalize_attendees` leaves it: entries cleaned,
/// empty ones dropped, each name kept once at its first position.
pub open spec fn normalized(names: Seq<Seq<char>>) -> Seq<Seq<char>>
    decreases names.len(),
{
    if names.len() == 0 {
        Seq::empty()
    } else {
        let prev = normalized(names.drop_last());
        let a = clean_attendee(names.last());
        if a.len() > 0 && !prev.contains(a) {
            prev.push(a)
        } else {
            prev
        }
    }
}

/// No entry of the normalized list is empty, none repeats, and each one is
/// the cleaned form of some input entry.
pub proof fn lemma_normalized_is_clean(names: Seq<Seq<char>>)
    ensures
        forall|i: int| 0 <= i < normalized(names).len() ==> #[trigger] normalized(names)[i].len() > 0,
        forall|i: int, j: int|
            0 <= i < j < normalized(names).len() ==> normalized(names)[i] != normalized(names)[j],
        forall|i: int|
            #![trigger normalized(names)[i]]
            0 <= i < normalized(names).len() ==> exists|k: int|
                #![trigger names[k]]
                0 <= k < names.len() && clean_attendee(names[k]) == normalized(names)[i],
    decreases names.len(),
{
    if names.len() > 0 {
        let prev = normalized(names.drop_last());
        lemma_normalized_is_clean(names.drop_last());
        let out = normalized(names);
        assert forall|i: int| #![trigger out[i]] 0 <= i < out.len() implies exists|k: int|
            #![trigger names[k]]
            0 <= k < names.len() && clean_attendee(names[k]) == out[i] by {
            if i < prev.len() {
                let k = choose|k: int|
                    #![trigger names.drop_last()[k]]
                    0 <= k < names.drop_last().len() && clean_attendee(names.drop_last()[k])
                        == prev[i];
                assert(names[k] == names.drop_last()[k]);
            } else {
                assert(clean_attendee(names[names.len() - 1]) == out[i]);
            }
        }
        assert forall|i: int, j: int| 0 <= i < j < out.len() implies out[i] != out[j] by {
            if j == prev.len() {
                assert(prev.contains(prev[i]));
            }
        }
    }
}

/// Cleans the attendee entries, drops empty ones and keeps each name once,
/// in first-seen order.
pub fn normalize_attendees(attendees: Vec<String>) -> (out: Vec<String>)
    ensures
        views(out@) == normalized(views(attendees@)),
{
    let ghost names = views(attendees@);
    let mut out: Vec<String> = Vec::new();
    let mut i: usize = 0;
    proof {
        assert(names.take(0) =~= Seq::<Seq<char>>::empty());
        assert(views(out@) =~= Seq::<Seq<char>>::empty());
    }
    while i < attendees.len()
        invariant
            i <= attendees@.len(),
            names == views(attendees@),
            views(out@) == normalized(names.take(i as int)),
        decreases attendees.len() - i,
    {
        let v = chars_of(attendees[i].as_str());
        let (a, b) = trim_bounds(v.as_slice(), 0, v.len());
        let (c, d) = trim_char_bounds(v.as_slice(), a, b, '"');
        let cleaned = string_of(v.as_slice(), c, d);
        proof {
            assert(v@.subrange(0, v@.len() as int) =~= v@);
            assert(names[i as int] == attendees@[i as int]@);
            assert(cleaned@ == clean_attendee(names[i as int]));
        }
        let mut seen = false;
        let mut k: usize = 0;
        while k < out.len()
            invariant
                k <= out@.len(),
                seen == exists|m: int| 0 <= m < k && out@[m]@ == cleaned@,
            decreases out.len() - k,
        {
            if out[k] == cleaned {
                seen = true;
            }
            k = k + 1;
        }
        let ghost prev = views(out@);
        proof {
            assert(names.take(i + 1).drop_last() =~= names.take(i as int));
            assert(names.take(i + 1).last() == names[i as int]);
            if seen {
                let m = choose|m: int| 0 <= m < out@.len() && out@[m]@ == cleaned@;
                assert(prev[m] == cleaned@);
                assert(prev.contains(cleaned@));
            } else {
                assert forall|m: int| 0 <= m < prev.len() implies prev[m] != cleaned@ by {
                    assert(prev[m] == out@[m]@);
                }
            }
        }
        if cleaned.as_str().unicode_len() > 0 && !seen {
            out.push(cleaned);
            proof {
                assert(views(out@) =~= prev.push(cleaned@));
            }
        }
        i = i + 1;
    }
    proof {
        assert(names.take(attendees@.len() as int) =~= names);
    }
    out
}

/// The attendee list a frontmatter `attendees:` value holds: a JSON array
/// of names, or failing that a bracketed, comma-separated list.
pub open spec fn attendees_from_value(value: Seq<char>) -> Seq<Seq<char>> {
    match json_string_list(value) {
        Some(names) => normalized(names),
        None => {
            let t = trim_end_char(trim_start_char(trim(value), '['), ']');
            if t.len() == 0 {
                Seq::empty()
            } else {
                normalized(split_char(t, ','))
            }
        },
    }
}

/// Reads an `attendees:` value: JSON when it parses as a list of names,
/// otherwise `[a, b]` or `a, b` split at commas; normalized either way.
pub fn parse_attendees_value(value: &str) -> (out: Vec<String>)
    ensures
        views(out@) == attendees_from_value(value@),
{
    match parse_string_list(value) {
        Some(names) => {
            return normalize_attendees(names);
        },
        None => {},
    }
    let v = chars_of(value);
    let (a, b) = trim_bounds(v.as_slice(), 0, v.len());
    let a2 = trim_start_char_index(v.as_slice(), a, b, '[');
    let b2 = trim_end_char_index(v.as_slice(), a2, b, ']');
    proof {
        assert(v@.subrange(0, v@.len() as int) =~= v@);
    }
    if a2 == b2 {
        proof {
            assert(v@.subrange(a2 as int, b2 as int) =~= Seq::<char>::empty());
        }
        return Vec::new();
    }
    let t = string_of(v.as_slice(), a2, b2);
    let pieces = split_at_char(t.as_str(), ',');
    normalize_attendees(pieces)
}

/// The attendees the frontmatter of `markdown` lists (none when it lists
/// none).
pub open spec fn parse_attendees_spec(markdown: Seq<char>) -> Seq<Seq<char>> {
    match frontmatter_value_spec(markdown, "attendees"@) {
        Some(v) => attendees_from_value(v),
        None => Seq::empty(),
    }
}

/// The attendee list in a meeting document's frontmatter.
pub fn parse_attendees(markdown: &str) -> (out: Vec<String>)
    ensures
        views(out@) == parse_attendees_spec(markdown@),
{
    match frontmatter_value(markdown, "attendees") {
        Some(value) => parse_attendees_value(value.as_str()),
        None => {
            let out: Vec<String> = Vec::new();
            proof {
                assert(views(out@) =~= Seq::<Seq<char>>::empty());
            }
            out
        },
    }
}

// --- Writing the frontmatter ---

/// The attendee list as the frontmatter writes it: JSON, or `[]` when it
/// cannot be serialized.
pub open spec fn attendees_json(attendees: Seq<Seq<char>>) -> Seq<char> {
    match json_string_list_text(attendees) {
        Some(t) => t,
        None => "[]"@,
    }
}

/// The canonical frontmatter block, fences and trailing line feed included.
pub open spec fn canonical_frontmatter_spec(
    start_time: Seq<char>,
    duration_minutes: nat,
    meeting_id: Seq<char>,
    attendees: Seq<Seq<char>>,
) -> Seq<char> {
    "---\nstart_time: "@ + start_time + "\nduration_minutes: "@ + decimal(duration_minutes)
        + "\nmeeting_id: "@ + meeting_id + "\nattendees: "@ + attendees_json(attendees)
        + "\n---\n"@
}

/// Writes the canonical frontmatter block for a meeting.
pub fn canonical_frontmatter(
    start_time: &str,
    duration_minutes: u32,
    meeting_id: &str,
    attendees: &[String],
) -> (r: String)
    ensures
        r@ == canonical_frontmatter_spec(
            start_time@,
            duration_minutes as nat,
            meeting_id@,
            views(attendees@),
        ),
{
    let attendees_text = match string_list_json(attendees) {
        Some(t) => t,
        None => "[]".to_owned(),
    };
    let mut out = String::new();
    push_str(&mut out, "---\nstart_time: ");
    push_str(&mut out, start_time);
    push_str(&mut out, "\nduration_minutes: ");
    push_decimal(&mut out, duration_minutes as u64);
    push_str(&mut out, "\nmeeting_id: ");
    push_str(&mut out, meeting_id);
    push_str(&mut out, "\nattendees: ");
    push_str(&mut out, attendees_text.as_str());
    push_str(&mut out, "\n---\n");
    out
}

/// `markdown` under the given frontmatter in place of its own.
pub open spec fn prepend_frontmatter_spec(markdown: Seq<char>, frontmatter: Seq<char>) -> Seq<char> {
    trim_end(frontmatter) + seq!['\n'] + strip_frontmatter_spec(markdown)
}

/// Replaces the frontmatter of `markdown` (adding one if it had none).
pub fn prepend_frontmatter(markdown: &str, frontmatter: &str) -> (r: String)
    ensures
        r@ == prepend_frontmatter_spec(markdown@, frontmatter@),
{
    let f = chars_of(frontmatter);
    let e = trim_end_index(f.as_slice(), 0, f.len());
    proof {
        assert(f@.subrange(0, f@.len() as int) =~= f@);
    }
    let mut out = string_of(f.as_slice(), 0, e);
    push_char(&mut out, '\n');
    push_str(&mut out, strip_frontmatter(markdown));
    out
}

/// One transcribed utterance, as far as the documents read it: who spoke
/// (the provider's label or a user-given name) and what was said, with the
/// utterance's span in whole milliseconds.
pub struct TranscriptionSegment {
    pub speaker: Option<String>,
    pub speaker_id: Option<String>,
    pub text: String,
    pub start_ms: u64,
    pub end_ms: u64,
}

/// The speakers of `segments` as attendees: trimmed labels, empty ones
/// dropped, each kept once in order of first appearance.
pub open spec fn speakers_of(segments: Seq<TranscriptionSegment>) -> Seq<Seq<char>>
    decreases segments.len(),
{
    if segments.len() == 0 {
        Seq::empty()
    } else {
        let prev = speakers_of(segments.drop_last());
        match segments.last().speaker {
            Some(sp) => {
                let t = trim(sp@);
                if t.len() > 0 && !prev.contains(t) {
                    prev.push(t)
                } else {
                    prev
                }
            },
            None => prev,
        }
    }
}

/// The attendees of a transcript are exactly its speakers: every segment's
/// label, trimmed, is there when it is not blank; every entry is some
/// segment's trimmed label and is not blank; no entry repeats.
pub proof fn lemma_attendees_are_the_speakers(segments: Seq<TranscriptionSegment>)
    ensures
        forall|i: int|
            0 <= i < segments.len() && (#[trigger] segments[i]).speaker is Some && trim(
                segments[i].speaker->Some_0@,
            ).len() > 0 ==> speakers_of(segments).contains(trim(segments[i].speaker->Some_0@)),
        forall|k: int|
            0 <= k < speakers_of(segments).len() ==> (#[trigger] speakers_of(segments)[k]).len() > 0
                && exists|i: int|
                0 <= i < segments.len() && segments[i].speaker is Some && trim(
                    segments[i].speaker->Some_0@,
                ) == speakers_of(segments)[k],
        forall|a: int, b: int|
            0 <= a < b < speakers_of(segments).len() ==> speakers_of(segments)[a]
                != speakers_of(segments)[b],
    decreases segments.len(),
{
    if segments.len() > 0 {
        let init = segments.drop_last();
        lemma_attendees_are_the_speakers(init);
        let prev = speakers_of(init);
        let cur = speakers_of(segments);
        assert forall|i: int|
            0 <= i < segments.len() && (#[trigger] segments[i]).speaker is Some && trim(
                segments[i].speaker->Some_0@,
            ).len() > 0 implies cur.contains(trim(segments[i].speaker->Some_0@)) by {
            if i < segments.len() - 1 {
                assert(segments[i] == init[i]);
                let t = trim(segments[i].speaker->Some_0@);
                assert(prev.contains(t));
                let m = choose|m: int| 0 <= m < prev.len() && prev[m] == t;
                if cur.len() > prev.len() {
                    assert(cur[m] == prev[m]);
                }
                assert(cur[m] == t);
            } else {
                let t = trim(segments[i].speaker->Some_0@);
                if !prev.contains(t) {
                    assert(cur[prev.len() as int] == t);
                }
            }
        }
        assert forall|k: int| 0 <= k < cur.len() implies (#[trigger] cur[k]).len() > 0 && exists|i: int|
            0 <= i < segments.len() && segments[i].speaker is Some && trim(segments[i].speaker->Some_0@)
                == cur[k] by {
            if k < prev.len() {
                assert(cur[k] == prev[k]);
                let i = choose|i: int|
                    0 <= i < init.len() && init[i].speaker is Some && trim(init[i].speaker->Some_0@)
                        == prev[k];
                assert(segments[i] == init[i]);
            } else {
                let i = segments.len() - 1;
                assert(segments[i] == segments.last());
            }
        }
        assert forall|a: int, b: int| 0 <= a < b < cur.len() implies cur[a] != cur[b] by {
            if b >= prev.len() {
                assert(cur[a] == prev[a]);
            } else {
                assert(cur[a] == prev[a]);
                assert(cur[b] == prev[b]);
            }
        }
    }
}

/// Attendees keep their order of first appearance: the attendees of the
/// first `i` segments are a prefix of the attendees of the whole
/// transcript, later segments only adding to the end.
pub proof fn lemma_attendees_of_a_prefix_are_a_prefix(segments: Seq<TranscriptionSegment>, i: int)
    requires
        0 <= i <= segments.len(),
    ensures
        speakers_of(segments.take(i)).len() <= speakers_of(segments).len(),
        speakers_of(segments).take(speakers_of(segments.take(i)).len() as int) == speakers_of(
            segments.take(i),
        ),
    decreases segments.len(),
{
    let all = speakers_of(segments);
    if i == segments.len() {
        assert(segments.take(i) =~= segments);
        assert(all.take(all.len() as int) =~= all);
    } else {
        let init = segments.drop_last();
        assert(init.take(i) =~= segments.take(i));
        lemma_attendees_of_a_prefix_are_a_prefix(init, i);
        let si = speakers_of(segments.take(i));
        let s0 = speakers_of(init);
        assert(all.take(si.len() as int) =~= s0.take(si.len() as int)) by {
            assert forall|m: int| 0 <= m < si.len() implies all[m] == s0[m] by {
                if all.len() > s0.len() {
                    assert(all == s0.push(all.last()));
                }
            }
        }
    }
}

/// The distinct speakers of a transcript, in order of first appearance.
pub fn attendees_from_segments(segments: &[TranscriptionSegment]) -> (out: Vec<String>)
    ensures
        views(out@) == speakers_of(segments@),
        forall|i: int|
            0 <= i < segments@.len() && (#[trigger] segments@[i]).speaker is Some && trim(
                segments@[i].speaker->Some_0@,
            ).len() > 0 ==> views(out@).contains(trim(segments@[i].speaker->Some_0@)),
        forall|k: int|
            0 <= k < out@.len() ==> (#[trigger] out@[k])@.len() > 0 && exists|i: int|
                0 <= i < segments@.len() && segments@[i].speaker is Some && trim(
                    segments@[i].speaker->Some_0@,
                ) == out@[k]@,
        forall|a: int, b: int| 0 <= a < b < out@.len() ==> (#[trigger] out@[a])@ != (#[trigger] out@[b])@,
{
    let mut out: Vec<String> = Vec::new();
    let mut i: usize = 0;
    proof {
        assert(segments@.take(0) =~= Seq::<TranscriptionSegment>::empty());
        assert(views(out@) =~= Seq::<Seq<char>>::empty());
    }
    while i < segments.len()
        invariant
            i <= segments@.len(),
            views(out@) == speakers_of(segments@.take(i as int)),
        decreases segments.len() - i,
    {
        proof {
            assert(segments@.take(i + 1).drop_last() =~= segments@.take(i as int));
            assert(segments@.take(i + 1).last() == segments@[i as int]);
        }
        match &segments[i].speaker {
            Some(sp) => {
                let t = trim_string(sp.as_str());
                let mut seen = false;
                let mut k: usize = 0;
                while k < out.len()
                    invariant
                        k <= out@.len(),
                        seen == exists|m: int| 0 <= m < k && out@[m]@ == t@,
                    decreases out.len() - k,
                {
                    if out[k] == t {
                        seen = true;
                    }
                    k = k + 1;
                }
                let ghost prev = views(out@);
                proof {
                    if seen {
                        let m = choose|m: int| 0 <= m < out@.len() && out@[m]@ == t@;
                        assert(prev[m] == t@);
                        assert(prev.contains(t@));
                    } else {
                        assert forall|m: int| 0 <= m < prev.len() implies prev[m] != t@ by {
                            assert(prev[m] == out@[m]@);
                        }
                    }
                }
                if t.as_str().unicode_len() > 0 && !seen {
                    out.push(t);
                    proof {
                        assert(views(out@) =~= prev.push(trim(sp@)));
                    }
                }
            },
            None => {},
        }
        i = i + 1;
    }
    proof {
        assert(segments@.take(segments@.len() as int) =~= segments@);
        lemma_attendees_are_the_speakers(segments@);
        assert forall|k: int| 0 <= k < out@.len() implies (#[trigger] out@[k])@.len() > 0 && exists|i: int|
            0 <= i < segments@.len() && segments@[i].speaker is Some && trim(
                segments@[i].speaker->Some_0@,
            ) == out@[k]@ by {
            assert(views(out@)[k] == out@[k]@);
            assert(speakers_of(segments@)[k].len() > 0);
        }
        assert forall|a: int, b: int| 0 <= a < b < out@.len() implies (#[trigger] out@[a])@ != (
        #[trigger] out@[b])@ by {
            assert(views(out@)[a] == out@[a]@);
            assert(views(out@)[b] == out@[b]@);
        }
    }
    out
}

/// The frontmatter of a transcript document.
pub fn transcript_frontmatter(
    meeting_id: &str,
    start_time: &str,
    duration_minutes: u32,
    attendees: &[String],
) -> (r: String)
    ensures
        r@ == canonical_frontmatter_spec(
            start_time@,
            duration_minutes as nat,
            meeting_id@,
            views(attendees@),
        ),
{
    canonical_frontmatter(start_time, duration_minutes, meeting_id, attendees)
}

/// The transcript document's heading for a meeting title.
pub open spec fn transcript_heading(title: Seq<char>) -> Seq<char> {
    if trim(title).len() == 0 {
        "Transcript"@
    } else {
        trim(title) + " Transcript"@
    }
}

/// The transcript document's body: the transcript, or a note that nothing
/// was captured.
pub open spec fn transcript_body(text: Seq<char>) -> Seq<char> {
    if trim(text).len() == 0 {
        "_No transcript segments were captured._"@
    } else {
        trim(text)
    }
}

/// Lays out a transcript document: frontmatter, heading, body.
pub fn format_transcript_document(
    title: &str,
    meeting_id: &str,
    start_time: &str,
    duration_minutes: u32,
    attendees: &[String],
    transcript_text: &str,
) -> (r: String)
    ensures
        r@ == canonical_frontmatter_spec(
            start_time@,
            duration_minutes as nat,
            meeting_id@,
            views(attendees@),
        ) + "\n# "@ + transcript_heading(title@) + "\n\n"@ + transcript_body(transcript_text@),
{
    let t = trim_string(title);
    let body = trim_string(transcript_text);
    let mut out = transcript_frontmatter(meeting_id, start_time, duration_minutes, attendees);
    push_str(&mut out, "\n# ");
    if t.as_str().unicode_len() == 0 {
        push_str(&mut out, "Transcript");
    } else {
        push_str(&mut out, t.as_str());
        push_str(&mut out, " Transcript");
    }
    push_str(&mut out, "\n\n");
    if body.as_str().unicode_len() == 0 {
        push_str(&mut out, "_No transcript segments were captured._");
    } else {
        push_str(&mut out, body.as_str());
    }
    out
}

/// Why a command refused.
pub enum AppError {
    /// A meeting title must not be blank.
    TitleEmpty,
    /// A recording is running.
    RecordingInProgress,
    /// A start arrived while a recording was already running.
    AlreadyRecording,
    /// The configuration cannot transcribe this recording.
    NotConfigured,
    /// A dictation holds the microphone.
    BusyDictating,
    /// A dictation cannot start while a recording runs.
    CantDictateWhileRecording,
    /// A dictation is already running.
    DictationAlreadyRunning,
    /// The on-device model dictation needs is not on disk.
    DictationModelMissing(String),
    /// Cloud dictation needs a signed-in account.
    CloudSignInRequired,
    /// No dictation is running.
    NoDictationRunning,
    /// This model is already downloading.
    AlreadyDownloading,
    /// A dictation is running.
    DictationInProgress,
    /// An import is running.
    ImportInProgress,
    /// A reset waits for the recording to stop.
    StopRecordingBeforeReset,
    /// A reset waits for the dictation to stop.
    StopDictatingBeforeReset,
    /// Any other failure, with its message.
    Internal(String),
}

/// A title as it is stored: trimmed, and never blank.
pub fn normalize_title(title: String) -> (r: Result<String, AppError>)
    ensures
        trim(title@).len() > 0 ==> (r matches Ok(t) && t@ == trim(title@)),
        trim(title@).len() == 0 ==> r matches Err(AppError::TitleEmpty),
{
    let t = trim_string(title.as_str());
    if t.as_str().unicode_len() == 0 {
        Err(AppError::TitleEmpty)
    } else {
        Ok(t)
    }
}

// --- A meeting's record, and putting its frontmatter in order ---

/// A meeting as the library lists it. `date` is the start instant written
/// as RFC 3339 in UTC to the second (`2026-07-08T12:00:00Z`).
pub struct MeetingRecord {
    pub id: String,
    pub title: String,
    pub date: String,
    pub duration_seconds: u64,
    pub chunks: u32,
    pub audio_path: String,
}

/// Whole minutes a meeting lasted, rounded up, at least one (and at most
/// what a `u32` holds).
pub open spec fn fallback_minutes(duration_seconds: nat) -> nat {
    let m = if duration_seconds % 60 == 0 {
        duration_seconds / 60
    } else {
        duration_seconds / 60 + 1
    };
    if m < 1 {
        1
    } else if m > u32::MAX {
        u32::MAX as nat
    } else {
        m
    }
}

/// The duration the frontmatter falls back to when it gives none.
pub fn fallback_duration_minutes(record: &MeetingRecord) -> (r: u32)
    ensures
        r == fallback_minutes(record.duration_seconds as nat),
{
    let secs = record.duration_seconds;
    let minutes: u64 = if secs % 60 == 0 {
        secs / 60
    } else {
        secs / 60 + 1
    };
    if minutes < 1 {
        1
    } else if minutes > 0xffff_ffffu64 {
        0xffff_ffffu32
    } else {
        minutes as u32
    }
}

/// What `chrono` makes of an RFC 3339 timestamp: the instant as whole
/// seconds since the Unix epoch and the nanoseconds past that second, or
/// the text of the parse error.
pub uninterp spec fn rfc3339_instant(value: Seq<char>) -> Result<(int, int), Seq<char>>;

/// `chrono::DateTime::parse_from_rfc3339`, the instant read back by
/// `timestamp` and `timestamp_subsec_nanos`, the error by its `Display`:
/// the result is named `rfc3339_instant` here.
#[verifier::external_body]
pub(crate) fn parse_rfc3339_instant(value: &str) -> (r: Result<(i64, u32), String>)
    ensures
        match r {
            Ok((secs, nanos)) => rfc3339_instant(value@) == Ok::<(int, int), Seq<char>>(
                (secs as int, nanos as int),
            ),
            Err(e) => rfc3339_instant(value@) == Err::<(int, int), Seq<char>>(e@),
        },
{
    chrono::DateTime::parse_from_rfc3339(value).map(
        |dt| (dt.timestamp(), dt.timestamp_subsec_nanos()),
    ).map_err(|e| e.to_string())
}

/// How many fractional-second digits an RFC 3339 timestamp is written
/// with: `chrono`'s `SecondsFormat`, one variant for each of its own.
#[derive(Clone, Copy)]
pub enum SecondsDigits {
    Secs,
    Millis,
    Micros,
    Nanos,
    AutoSi,
}

/// What `chrono` writes for the instant `secs` seconds after the Unix
/// epoch, in UTC with the given fractional digits, the offset as `Z` when
/// `use_z`; nothing when the instant is out of `chrono`'s range.
pub uninterp spec fn utc_rfc3339_text(secs: int, digits: SecondsDigits, use_z: bool) -> Option<Seq<char>>;

/// `chrono::DateTime::<Utc>::from_timestamp(secs, 0)` written by
/// `to_rfc3339_opts(digits, use_z)`, the digits converted variant for
/// variant: the result is named `utc_rfc3339_text`.
#[verifier::external_body]
fn rfc3339_of_seconds(secs: i64, digits: SecondsDigits, use_z: bool) -> (r: Option<String>)
    ensures
        match r {
            Some(t) => utc_rfc3339_text(secs as int, digits, use_z) == Some(t@),
            None => utc_rfc3339_text(secs as int, digits, use_z) is None,
        },
{
    let format = match digits {
        SecondsDigits::Secs => chrono::SecondsFormat::Secs,
        SecondsDigits::Millis => chrono::SecondsFormat::Millis,
        SecondsDigits::Micros => chrono::SecondsFormat::Micros,
        SecondsDigits::Nanos => chrono::SecondsFormat::Nanos,
        SecondsDigits::AutoSi => chrono::SecondsFormat::AutoSi,
    };
    chrono::DateTime::<chrono::Utc>::from_timestamp(secs, 0).map(|dt| dt.to_rfc3339_opts(format, use_z))
}

/// A timestamp in the canonical form: the instant it names, written in UTC
/// to the whole second with a `Z`; nothing when it is not an RFC 3339 timestamp.
pub open spec fn canonical_time(value: Seq<char>) -> Option<Seq<char>> {
    match rfc3339_instant(value) {
        Ok((secs, _)) => utc_rfc3339_text(secs, SecondsDigits::Secs, true),
        Err(_) => None,
    }
}

/// A start time in the canonical form, when it is a timestamp at all.
pub fn canonicalize_start_time(value: &str) -> (r: Option<String>)
    ensures
        match r {
            Some(t) => canonical_time(value@) == Some(t@),
            None => canonical_time(value@) is None,
        },
{
    match parse_rfc3339_instant(value) {
        Ok((secs, _)) => rfc3339_of_seconds(secs, SecondsDigits::Secs, true),
        Err(_) => None,
    }
}

/// The start time a rewritten frontmatter carries: the document's own,
/// canonicalized, else the record's.
pub open spec fn canonical_start(markdown: Seq<char>, record_date: Seq<char>) -> Seq<char> {
    match frontmatter_value_spec(markdown, "start_time"@) {
        Some(v) => match canonical_time(v) {
            Some(t) => t,
            None => record_date,
        },
        None => record_date,
    }
}

/// The duration a rewritten frontmatter carries: the document's own when it
/// is a number, else the record's.
pub open spec fn canonical_duration(markdown: Seq<char>, duration_seconds: nat) -> nat {
    match frontmatter_value_spec(markdown, "duration_minutes"@) {
        Some(v) => match parse_u32_spec(v) {
            Some(n) => n as nat,
            None => fallback_minutes(duration_seconds),
        },
        None => fallback_minutes(duration_seconds),
    }
}

/// The meeting id a rewritten frontmatter carries: the document's own, else
/// the record's.
pub open spec fn canonical_id(markdown: Seq<char>, record_id: Seq<char>) -> Seq<char> {
    match frontmatter_value_spec(markdown, "meeting_id"@) {
        Some(v) => v,
        None => record_id,
    }
}

/// Rewrites a meeting document under its canonical frontmatter: the values
/// the document already states win (start time canonicalized), the record
/// fills in what is missing, and the attendee list is the one given.
pub fn canonicalize_frontmatter(
    markdown: &str,
    record: &MeetingRecord,
    attendees: &[String],
) -> (r: String)
    ensures
        r@ == prepend_frontmatter_spec(
            markdown@,
            canonical_frontmatter_spec(
                canonical_start(markdown@, record.date@),
                canonical_duration(markdown@, record.duration_seconds as nat),
                canonical_id(markdown@, record.id@),
                views(attendees@),
            ),
        ),
{
    let start_time = match frontmatter_value(markdown, "start_time") {
        Some(v) => match canonicalize_start_time(v.as_str()) {
            Some(t) => t,
            None => record.date.clone(),
        },
        None => record.date.clone(),
    };
    let duration_minutes = match frontmatter_value(markdown, "duration_minutes") {
        Some(v) => match parse_u32(v.as_str()) {
            Some(n) => n,
            None => fallback_duration_minutes(record),
        },
        None => fallback_duration_minutes(record),
    };
    let meeting_id = match frontmatter_value(markdown, "meeting_id") {
        Some(v) => v,
        None => record.id.clone(),
    };
    let frontmatter = canonical_frontmatter(
        start_time.as_str(),
        duration_minutes,
        meeting_id.as_str(),
        attendees,
    );
    prepend_frontmatter(markdown, frontmatter.as_str())
}

/// The first 13 bytes of a meeting id (its `yymmddThhmmss` stamp), or the
/// whole id when it is shorter or byte 13 falls inside a character.
pub fn meeting_timestamp_prefix(record: &MeetingRecord) -> (r: String)
    ensures
        ({
            let bytes = encode_utf8(record.id@);
            let n = bytes.len() as usize;
            let k = if 13 < n {
                13
            } else {
                n as int
            };
            encode_utf8(r@) == if is_char_boundary(bytes, k) {
                bytes.subrange(0, k)
            } else {
                bytes
            }
        }),
{
    let id = record.id.as_str();
    let k = if 13 < id.len() {
        13
    } else {
        id.len()
    };
    proof {
        assert(id.spec_bytes() == encode_utf8(record.id@));
    }
    if id.is_char_boundary(k) {
        let (head, _tail) = id.split_at(k);
        head.to_owned()
    } else {
        id.to_owned()
    }
}

// --- When a meeting started ---

/// The stamp a meeting id starts with: everything before its first `_`, or
/// the whole id when it has none.
pub open spec fn meeting_stamp_spec(id: Seq<char>) -> Seq<char> {
    match find(id, seq!['_']) {
        Some(i) => id.subrange(0, i),
        None => id,
    }
}

/// The `chrono` pattern a meeting stamp is written in (`260314T093000`).
pub open spec fn stamp_format() -> Seq<char> {
    seq!['%', 'y', '%', 'm', '%', 'd', 'T', '%', 'H', '%', 'M', '%', 'S']
}

/// What `chrono` makes of `text` read with `format` as a date and time with
/// no zone, taken as UTC: whole seconds since the Unix epoch; nothing when
/// the text does not fit the pattern.
pub uninterp spec fn naive_utc_seconds(text: Seq<char>, format: Seq<char>) -> Option<int>;

/// `chrono::NaiveDateTime::parse_from_str(text, format)`, the parsed time
/// read as UTC and counted in seconds by `timestamp()`: the result is named
/// `naive_utc_seconds` here.
#[verifier::external_body]
fn parse_naive_utc(text: &str, format: &str) -> (r: Option<i64>)
    ensures
        match r {
            Some(t) => naive_utc_seconds(text@, format@) == Some(t as int),
            None => naive_utc_seconds(text@, format@) is None,
        },
{
    chrono::NaiveDateTime::parse_from_str(text, format).ok().map(|dt| dt.and_utc().timestamp())
}

/// `chrono::Utc::now().timestamp()`: the clock, in seconds since the Unix
/// epoch. Nothing is stated of it; it depends on when it is called.
#[verifier::external_body]
fn utc_now_seconds() -> (r: i64) {
    chrono::Utc::now().timestamp()
}

/// The stamp at the head of a meeting id.
pub fn meeting_stamp(meeting_id: &str) -> (r: String)
    ensures
        r@ == meeting_stamp_spec(meeting_id@),
{
    let v = chars_of(meeting_id);
    let sep = vec!['_'];
    proof {
        assert(sep@ =~= seq!['_']);
    }
    proof {
        lemma_find_from_contains(v@, sep@, 0);
    }
    match find_from_exec(v.as_slice(), sep.as_slice(), 0) {
        Some(i) => string_of(v.as_slice(), 0, i),
        None => meeting_id.to_owned(),
    }
}

/// When a meeting started, in seconds since the Unix epoch, read from the
/// stamp its id starts with; the present moment when the stamp does not
/// parse.
pub fn meeting_start_time(meeting_id: &str) -> (r: i64)
    ensures
        naive_utc_seconds(meeting_stamp_spec(meeting_id@), stamp_format()) matches Some(t)
            ==> r == t,
{
    let stamp = meeting_stamp(meeting_id);
    let format = "%y%m%dT%H%M%S";
    proof {
        reveal_strlit("%y%m%dT%H%M%S");
        assert(format@ =~= stamp_format());
    }
    let parsed = parse_naive_utc(stamp.as_str(), format);
    match parsed {
        Some(t) => t,
        None => utc_now_seconds(),
    }
}

// --- Paths inside the storage directory ---

/// Whether a stored path names something outside the storage directory:
/// an absolute path, or one with a `..` component.
pub open spec fn escapes_base(path: Seq<char>) -> bool {
    starts_with(path, seq!['/']) || split_char(path, '/').contains(seq!['.', '.'])
}

/// `base` joined with a relative `path`, as `Path::join` writes it.
pub open spec fn joined(base: Seq<char>, path: Seq<char>) -> Seq<char> {
    if base.len() > 0 && base.last() != '/' {
        base + seq!['/'] + path
    } else {
        base + path
    }
}

/// Resolves a path stored relative to the storage directory, refusing any
/// that would reach outside it.
pub fn resolve_indexed_path(base: &str, indexed_path: &str) -> (r: Result<String, AppError>)
    ensures
        starts_with(indexed_path@, seq!['/']) ==> (r matches Err(AppError::Internal(m)) && m@
            == "Indexed meeting path must be relative"@),
        !starts_with(indexed_path@, seq!['/']) && escapes_base(indexed_path@) ==> (r matches Err(
            AppError::Internal(m),
        ) && m@ == "Indexed meeting path escapes the storage directory"@),
        !escapes_base(indexed_path@) ==> (r matches Ok(p) && p@ == joined(base@, indexed_path@)),
{
    let v = chars_of(indexed_path);
    let slash = vec!['/'];
    if starts_with_exec(v.as_slice(), slash.as_slice()) {
        proof {
            assert(slash@ =~= seq!['/']);
        }
        return Err(AppError::Internal("Indexed meeting path must be relative".to_owned()));
    }
    proof {
        assert(slash@ =~= seq!['/']);
    }
    let pieces = split_at_char(indexed_path, '/');
    let mut k: usize = 0;
    while k < pieces.len()
        invariant
            k <= pieces@.len(),
            !starts_with(indexed_path@, seq!['/']),
            views(pieces@) == split_char(indexed_path@, '/'),
            forall|m: int| 0 <= m < k ==> pieces@[m]@ != seq!['.', '.'],
        decreases pieces.len() - k,
    {
        let pv = chars_of(pieces[k].as_str());
        if pv.len() == 2 && pv[0] == '.' && pv[1] == '.' {
            proof {
                assert(pv@ =~= seq!['.', '.']);
                assert(views(pieces@)[k as int] == seq!['.', '.']);
            }
            return Err(
                AppError::Internal("Indexed meeting path escapes the storage directory".to_owned()),
            );
        }
        proof {
            if pieces@[k as int]@ == seq!['.', '.'] {
                assert(pv@[0] == '.' && pv@[1] == '.');
            }
        }
        k = k + 1;
    }
    proof {
        assert forall|m: int| 0 <= m < views(pieces@).len() implies views(pieces@)[m] != seq![
            '.',
            '.',
        ] by {
            assert(views(pieces@)[m] == pieces@[m]@);
        }
    }
    let bv = chars_of(base);
    let mut out = base.to_owned();
    if bv.len() > 0 && bv[bv.len() - 1] != '/' {
        push_char(&mut out, '/');
    }
    push_str(&mut out, indexed_path);
    Ok(out)
}


/// Where a meeting's audio file is, from the path its row stores: none
/// when the row stores none (blank counts as none), else the stored path
/// resolved inside the storage directory, which refuses a path reaching
/// outside it. Whether the file is still on disk is the caller's check.
pub fn meeting_audio_file(base: &str, audio_path: &str) -> (r: Result<Option<String>, AppError>)
    ensures
        trim(audio_path@).len() == 0 ==> r matches Ok(None),
        trim(audio_path@).len() > 0 && starts_with(trim(audio_path@), seq!['/']) ==> (r matches Err(
            AppError::Internal(m),
        ) && m@ == "Indexed meeting path must be relative"@),
        trim(audio_path@).len() > 0 && !starts_with(trim(audio_path@), seq!['/']) && escapes_base(
            trim(audio_path@),
        ) ==> (r matches Err(AppError::Internal(m)) && m@
            == "Indexed meeting path escapes the storage directory"@),
        trim(audio_path@).len() > 0 && !escapes_base(trim(audio_path@)) ==> (r matches Ok(Some(p))
            && p@ == joined(base@, trim(audio_path@))),
{
    let value = trim_string(audio_path);
    if value.as_str().unicode_len() == 0 {
        return Ok(None);
    }
    match resolve_indexed_path(base, value.as_str()) {
        Ok(p) => Ok(Some(p)),
        Err(e) => Err(e),
    }
}


// --- Re-prepending replaces the frontmatter ---

/// A text none of whose line feeds is its last character or followed by a
/// `-`: no closing fence can start inside it.
pub open spec fn no_fence_start(s: Seq<char>) -> bool {
    forall|j: int| 0 <= j < s.len() && #[trigger] s[j] == '\n' ==> j + 1 < s.len() && s[j + 1] != '-'
}

proof fn lemma_no_fence_start_concat(a: Seq<char>, b: Seq<char>)
    requires
        no_fence_start(a),
        no_fence_start(b),
    ensures
        no_fence_start(a + b),
{
    assert forall|j: int| 0 <= j < (a + b).len() && #[trigger] (a + b)[j] == '\n' implies j + 1 < (a + b).len()
        && (a + b)[j + 1] != '-' by {
        if j < a.len() {
            assert((a + b)[j] == a[j]);
            assert((a + b)[j + 1] == a[j + 1]);
        } else {
            assert((a + b)[j] == b[j - a.len()]);
            assert((a + b)[j + 1] == b[j + 1 - a.len()]);
        }
    }
}

proof fn lemma_decimal_has_no_line_feed(n: nat)
    ensures
        !decimal(n).contains('\n'),
    decreases n,
{
    if n >= 10 {
        lemma_decimal_has_no_line_feed(n / 10);
        let d = decimal(n / 10);
        assert forall|i: int| 0 <= i < decimal(n).len() implies decimal(n)[i] != '\n' by {
            if i < d.len() {
                assert(decimal(n)[i] == d[i]);
            }
        }
    }
}

proof fn lemma_find_first(h: Seq<char>, n: Seq<char>, from: int, k: int)
    requires
        0 <= from <= k,
        occurs_at(h, n, k),
        forall|j: int| from <= j < k ==> !occurs_at(h, n, j),
    ensures
        find_from(h, n, from) == Some(k),
    decreases k - from,
{
    if from < k {
        assert(!occurs_at(h, n, from));
        lemma_find_first(h, n, from + 1, k);
    }
}

/// The body under a canonical frontmatter: everything before the closing
/// fence's line feed.
pub open spec fn frontmatter_body(
    start_time: Seq<char>,
    duration_minutes: nat,
    meeting_id: Seq<char>,
    attendees: Seq<Seq<char>>,
) -> Seq<char> {
    "---\nstart_time: "@ + start_time + "\nduration_minutes: "@ + decimal(duration_minutes)
        + "\nmeeting_id: "@ + meeting_id + "\nattendees: "@ + attendees_json(attendees)
}

/// Re-prepending a canonical frontmatter replaces it, never stacks it:
/// stripping a document written with one gives back the body it was
/// written over, and prepending the same block twice is prepending it
/// once. Holds when the start time and the meeting id hold no line feed
/// and the body starts with no whitespace (as every stripped body does);
/// the attendee JSON never holds one.
pub proof fn lemma_prepend_replaces_frontmatter(
    markdown: Seq<char>,
    start_time: Seq<char>,
    duration_minutes: nat,
    meeting_id: Seq<char>,
    attendees: Seq<Seq<char>>,
)
    requires
        !start_time.contains('\n'),
        !meeting_id.contains('\n'),
        trim_start(strip_frontmatter_spec(markdown)) == strip_frontmatter_spec(markdown),
    ensures
        strip_frontmatter_spec(
            prepend_frontmatter_spec(
                markdown,
                canonical_frontmatter_spec(start_time, duration_minutes, meeting_id, attendees),
            ),
        ) == strip_frontmatter_spec(markdown),
        prepend_frontmatter_spec(
            prepend_frontmatter_spec(
                markdown,
                canonical_frontmatter_spec(start_time, duration_minutes, meeting_id, attendees),
            ),
            canonical_frontmatter_spec(start_time, duration_minutes, meeting_id, attendees),
        ) == prepend_frontmatter_spec(
            markdown,
            canonical_frontmatter_spec(start_time, duration_minutes, meeting_id, attendees),
        ),
{
    reveal_strlit("---\nstart_time: ");
    reveal_strlit("\nduration_minutes: ");
    reveal_strlit("\nmeeting_id: ");
    reveal_strlit("\nattendees: ");
    reveal_strlit("\n---\n");
    lemma_json_string_list_has_no_line_feed(attendees);
    let fm = canonical_frontmatter_spec(start_time, duration_minutes, meeting_id, attendees);
    let q = frontmatter_body(start_time, duration_minutes, meeting_id, attendees);
    let s = strip_frontmatter_spec(markdown);
    let tail = seq!['\n', '-', '-', '-'];
    assert(fm =~= q + "\n---\n"@);
    // The trailing line feed is the only whitespace at the end.
    assert(fm.drop_last() =~= q + tail);
    assert(is_white(fm.last()));
    assert(!is_white((q + tail).last()));
    assert(trim_end(fm) == trim_end(fm.drop_last()));
    assert(trim_end(q + tail) == q + tail);
    let t = q + tail;
    let p = t + seq!['\n'] + s;
    assert(prepend_frontmatter_spec(markdown, fm) == p);
    // No closing fence starts inside the body.
    lemma_decimal_has_no_line_feed(duration_minutes);
    lemma_no_fence_start_concat("---\nstart_time: "@, start_time);
    lemma_no_fence_start_concat("---\nstart_time: "@ + start_time, "\nduration_minutes: "@);
    lemma_no_fence_start_concat(
        "---\nstart_time: "@ + start_time + "\nduration_minutes: "@,
        decimal(duration_minutes),
    );
    lemma_no_fence_start_concat(
        "---\nstart_time: "@ + start_time + "\nduration_minutes: "@ + decimal(duration_minutes),
        "\nmeeting_id: "@,
    );
    lemma_no_fence_start_concat(
        "---\nstart_time: "@ + start_time + "\nduration_minutes: "@ + decimal(duration_minutes)
            + "\nmeeting_id: "@,
        meeting_id,
    );
    lemma_no_fence_start_concat(
        "---\nstart_time: "@ + start_time + "\nduration_minutes: "@ + decimal(duration_minutes)
            + "\nmeeting_id: "@ + meeting_id,
        "\nattendees: "@,
    );
    lemma_no_fence_start_concat(
        "---\nstart_time: "@ + start_time + "\nduration_minutes: "@ + decimal(duration_minutes)
            + "\nmeeting_id: "@ + meeting_id + "\nattendees: "@,
        attendees_json(attendees),
    );
    assert(no_fence_start(q));
    let k = q.len() as int;
    assert forall|j: int| 0 <= j < k implies !occurs_at(p, closing_fence(), j) by {
        if occurs_at(p, closing_fence(), j) {
            assert(p.subrange(j, j + 4)[0] == '\n');
            assert(p.subrange(j, j + 4)[1] == '-');
            assert(p[j] == q[j]);
            if j + 1 < k {
                assert(p[j + 1] == q[j + 1]);
            }
        }
    }
    assert(p.subrange(k, k + 4) =~= closing_fence());
    lemma_find_first(p, closing_fence(), 0, k);
    assert(q.subrange(0, 3) =~= fence());
    assert(p.subrange(0, 3) =~= fence());
    assert(closing_at(p) == Some(k));
    assert(p.subrange(k + 4, k + 5) =~= seq!['\n']);
    assert(find_from(p, seq!['\n'], k + 4) == Some(k + 4));
    assert(p.skip(k + 5) =~= s);
    assert(strip_frontmatter_spec(p) == s);
}

} // verus!
