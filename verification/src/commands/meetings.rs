//! The meeting list's paging cursor and the library search's result rows:
//! which passage leads a hit, what its snippet says, and how passage hits
//! collapse to one row per meeting.

use vstd::prelude::*;

use crate::support::{parse_rfc3339_instant, rfc3339_instant, AppError, TranscriptionSegment};
use crate::text::{
    lists, views, chars_of, lemma_line_end, line_end_exec, line_text, line_text_bounds, lines, lines_from,
    push_char, string_of, take_chars, trim, trim_bounds,
};

verus! {

/// The last row of the page the list already has, so the next call can
/// continue from it: a meeting record's own `date` and `id`, handed back.
pub struct MeetingPageCursor {
    pub date: String,
    pub id: String,
}

/// A dictation the library search matched.
pub struct LibraryDictationHit {
    pub id: i64,
    pub snippet: String,
    pub created_at: String,
}

/// How many characters of a passage's opening line lead its hit.
pub const LEAD_CHARS: usize = 160;

/// How many characters of a passage stand in for a missing excerpt.
pub const SNIPPET_CHARS: usize = 140;

/// The first line of `ls` that is not blank, trimmed (empty when there is
/// none).
pub open spec fn first_nonblank(ls: Seq<Seq<char>>) -> Seq<char>
    decreases ls.len(),
{
    if ls.len() == 0 {
        Seq::empty()
    } else if trim(ls[0]).len() > 0 {
        trim(ls[0])
    } else {
        first_nonblank(ls.drop_first())
    }
}

/// A passage's lead: its first non-blank line, trimmed, cut to
/// `LEAD_CHARS` characters.
pub open spec fn lead_spec(text: Seq<char>) -> Seq<char> {
    take_chars(first_nonblank(lines(text)), LEAD_CHARS as nat)
}

/// The passage's opening line, trimmed: what the frontend looks for in the
/// document to scroll to.
pub fn hit_lead(text: &str) -> (r: String)
    ensures
        r@ == lead_spec(text@),
{
    let v = chars_of(text);
    let ghost b = v@;
    let mut start: usize = 0;
    proof {
        assert(b.subrange(0, b.len() as int) =~= b);
    }
    while start < v.len()
        invariant
            b == v@,
            b == text@,
            start <= b.len(),
            first_nonblank(lines(b)) == first_nonblank(lines_from(b, start as int)),
        decreases b.len() - start,
    {
        let e = line_end_exec(v.as_slice(), start, v.len());
        proof {
            assert(b.subrange(0, b.len() as int) =~= b);
            lemma_line_end(b, start as int);
        }
        let (la, lb) = line_text_bounds(v.as_slice(), start, e, v.len());
        let (ta, tb) = trim_bounds(v.as_slice(), la, lb);
        proof {
            let ls = lines_from(b, start as int);
            assert(ls[0] == line_text(b, start as int, e as int));
            assert(ls.drop_first() =~= lines_from(b, e + 1));
        }
        if ta < tb {
            let end = if tb - ta > LEAD_CHARS {
                ta + LEAD_CHARS
            } else {
                tb
            };
            proof {
                let t = v@.subrange(ta as int, tb as int);
                assert(v@.subrange(ta as int, end as int) =~= take_chars(t, LEAD_CHARS as nat));
            }
            return string_of(v.as_slice(), ta, end);
        }
        if e >= v.len() {
            proof {
                let ls = lines_from(b, start as int);
                assert(v@.subrange(ta as int, tb as int).len() == 0);
                assert(trim(ls[0]).len() == 0);
                assert(lines_from(b, e + 1) =~= Seq::<Seq<char>>::empty());
                assert(first_nonblank(ls) == first_nonblank(ls.drop_first()));
                assert(first_nonblank(ls.drop_first()) =~= Seq::<char>::empty());
            }
            return String::new();
        }
        start = e + 1;
    }
    proof {
        assert(lines_from(b, start as int) =~= Seq::<Seq<char>>::empty());
    }
    String::new()
}

/// A hit's snippet: the search's own excerpt when it has one, else the
/// passage's first `SNIPPET_CHARS` characters, with an ellipsis when that
/// cut anything.
pub open spec fn snippet_spec(excerpt: Option<Seq<char>>, text: Seq<char>) -> Seq<char> {
    match excerpt {
        Some(e) => e,
        None => if text.len() > SNIPPET_CHARS {
            text.take(SNIPPET_CHARS as int).push('…')
        } else {
            text
        },
    }
}

/// A semantic-only hit carries no excerpt; lead with the passage.
pub fn hit_snippet(excerpt: Option<String>, text: &str) -> (r: String)
    ensures
        r@ == snippet_spec(
            match excerpt {
                Some(e) => Some(e@),
                None => None,
            },
            text@,
        ),
{
    match excerpt {
        Some(e) => e,
        None => {
            let v = chars_of(text);
            if v.len() > SNIPPET_CHARS {
                let mut s = string_of(v.as_slice(), 0, SNIPPET_CHARS);
                push_char(&mut s, '…');
                proof {
                    assert(v@.subrange(0, SNIPPET_CHARS as int) =~= v@.take(SNIPPET_CHARS as int));
                }
                s
            } else {
                proof {
                    assert(v@.subrange(0, v@.len() as int) =~= v@);
                }
                string_of(v.as_slice(), 0, v.len())
            }
        },
    }
}

/// How many meeting rows a search returns at most: the limit asked for,
/// though a first row is always kept.
pub open spec fn row_cap(limit: nat) -> nat {
    if limit == 0 {
        1
    } else {
        limit
    }
}

/// The passage hits (by the meeting each belongs to, when any) that become
/// meeting rows, among the first `n`: the first hit of each meeting, in
/// order, until `row_cap(limit)` rows are taken.
pub open spec fn picked_hits(ids: Seq<Option<Seq<char>>>, n: int, limit: nat) -> Seq<int>
    decreases n,
{
    if n <= 0 {
        Seq::empty()
    } else {
        let prev = picked_hits(ids, n - 1, limit);
        if prev.len() >= row_cap(limit) {
            prev
        } else {
            match ids[n - 1] {
                None => prev,
                Some(id) => if exists|k: int| 0 <= k < prev.len() && ids[#[trigger] prev[k]] == Some(id) {
                    prev
                } else {
                    prev.push(n - 1)
                },
            }
        }
    }
}

proof fn lemma_picked_bounds(ids: Seq<Option<Seq<char>>>, n: int, limit: nat)
    requires
        0 <= n <= ids.len(),
    ensures
        picked_hits(ids, n, limit).len() <= row_cap(limit),
        forall|k: int| 0 <= k < picked_hits(ids, n, limit).len() ==> 0 <= #[trigger] picked_hits(ids, n, limit)[k] < n,
        forall|k: int| 0 <= k < picked_hits(ids, n, limit).len() ==> ids[#[trigger] picked_hits(ids, n, limit)[k]] is Some,
    decreases n,
{
    if n > 0 {
        lemma_picked_bounds(ids, n - 1, limit);
    }
}

fn picked_rows(meeting_ids: &[Option<String>], limit: usize) -> (r: Vec<usize>)
    ensures
        r@.map_values(|i: usize| i as int) == picked_hits(
            meeting_ids@.map_values(|o: Option<String>| match o {
                Some(s) => Some(s@),
                None => None,
            }),
            meeting_ids@.len() as int,
            limit as nat,
        ),
{
    let ghost ids = meeting_ids@.map_values(|o: Option<String>| match o {
        Some(s) => Some(s@),
        None => None,
    });
    let cap: usize = if limit == 0 {
        1
    } else {
        limit
    };
    let mut out: Vec<usize> = Vec::new();
    let mut i: usize = 0;
    while i < meeting_ids.len()
        invariant
            i <= meeting_ids@.len(),
            ids.len() == meeting_ids@.len(),
            ids == meeting_ids@.map_values(|o: Option<String>| match o {
                Some(s) => Some(s@),
                None => None,
            }),
            cap == row_cap(limit as nat),
            out@.map_values(|j: usize| j as int) == picked_hits(ids, i as int, limit as nat),
        decreases meeting_ids.len() - i,
    {
        proof {
            lemma_picked_bounds(ids, i as int, limit as nat);
        }
        let ghost prev = picked_hits(ids, i as int, limit as nat);
        if out.len() >= cap {
            proof {
                assert forall|n: int| i <= n <= ids.len() implies picked_hits(ids, n, limit as nat) == prev by {
                    lemma_picked_stays(ids, i as int, n, limit as nat);
                }
            }
            return out;
        }
        match &meeting_ids[i] {
            None => {},
            Some(id) => {
                let mut seen = false;
                let mut k: usize = 0;
                while k < out.len()
                    invariant
                        k <= out@.len(),
                        out@.len() == prev.len(),
                        out@.map_values(|j: usize| j as int) == prev,
                        forall|m: int| 0 <= m < prev.len() ==> 0 <= #[trigger] prev[m] < i,
                        i < meeting_ids@.len(),
                        ids == meeting_ids@.map_values(|o: Option<String>| match o {
                            Some(s) => Some(s@),
                            None => None,
                        }),
                        meeting_ids@[i as int] == Some(*id),
                        seen == exists|m: int| 0 <= m < k && ids[#[trigger] prev[m]] == Some(id@),
                    decreases out.len() - k,
                {
                    let j = out[k];
                    proof {
                        assert(prev[k as int] == j as int);
                    }
                    match &meeting_ids[j] {
                        Some(other) => {
                            if other.as_str().to_owned() == id.as_str().to_owned() {
                                seen = true;
                            }
                            proof {
                                assert(ids[j as int] == Some(other@));
                            }
                        },
                        None => {
                            proof {
                                assert(ids[j as int] is None);
                            }
                        },
                    }
                    k = k + 1;
                }
                proof {
                    assert(ids[i as int] == Some(id@));
                }
                if !seen {
                    out.push(i);
                    proof {
                        assert(out@.map_values(|j: usize| j as int) =~= prev.push(i as int));
                    }
                }
            },
        }
        i = i + 1;
    }
    out
}

/// The hits that become meeting rows: the first hit of each meeting, in
/// order, hits without a meeting skipped, until the row cap is reached.
pub fn pick_meeting_hits(meeting_ids: &[Option<String>], limit: usize) -> (r: Vec<usize>)
    ensures
        r@.map_values(|i: usize| i as int) == picked_hits(
            meeting_ids@.map_values(|o: Option<String>| match o {
                Some(s) => Some(s@),
                None => None,
            }),
            meeting_ids@.len() as int,
            limit as nat,
        ),
        r@.len() <= (if limit == 0 {
            1
        } else {
            limit as int
        }),
        r@.len() < (if limit == 0 {
            1
        } else {
            limit as int
        }) ==> forall|j: int|
            0 <= j < meeting_ids@.len() && #[trigger] meeting_ids@[j] is Some ==> exists|k: int|
                0 <= k < r@.len() && 0 <= r@[k] < meeting_ids@.len() && meeting_ids@[r@[k] as int]
                    is Some && meeting_ids@[r@[k] as int]->Some_0@ == meeting_ids@[j]->Some_0@,
        forall|i: int, j: int|
            0 <= i < j < r@.len() ==> meeting_ids@[#[trigger] r@[i] as int]->Some_0@
                != meeting_ids@[#[trigger] r@[j] as int]->Some_0@,
        forall|a: int, b: int| 0 <= a < b < r@.len() ==> #[trigger] r@[a] < #[trigger] r@[b],
        forall|k: int, j: int|
            0 <= k < r@.len() && 0 <= j < r@[k] ==> (#[trigger] meeting_ids@[j]) is None
                || meeting_ids@[j]->Some_0@ != meeting_ids@[#[trigger] r@[k] as int]->Some_0@,
{
    let r = picked_rows(meeting_ids, limit);
    let ghost ids = meeting_ids@.map_values(|o: Option<String>| match o {
        Some(s) => Some(s@),
        None => None,
    });
    proof {
        let n = meeting_ids@.len() as int;
        let p = picked_hits(ids, n, limit as nat);
        lemma_rows_reach_the_limit(ids, n, limit as nat);
        lemma_one_row_per_meeting(ids, n, limit as nat);
        lemma_picked_bounds(ids, n, limit as nat);
        lemma_rows_are_first_hits(ids, n, limit as nat);
        assert forall|k: int| 0 <= k < r@.len() implies p[k] == r@[k] as int by {
            assert(r@.map_values(|i: usize| i as int)[k] == r@[k] as int);
        }
        assert(r@.len() == p.len());
        assert forall|j: int| 0 <= j < n implies #[trigger] ids[j] == match meeting_ids@[j] {
            Some(s) => Some(s@),
            None => None,
        } by {}
        if r@.len() < (if limit == 0 {
            1
        } else {
            limit as int
        }) {
            assert forall|j: int| 0 <= j < meeting_ids@.len() && #[trigger] meeting_ids@[j] is Some implies exists|k: int|
                0 <= k < r@.len() && 0 <= r@[k] < meeting_ids@.len() && meeting_ids@[r@[k] as int]
                    is Some && meeting_ids@[r@[k] as int]->Some_0@ == meeting_ids@[j]->Some_0@ by {
                assert(ids[j] is Some);
                let k = choose|k: int| 0 <= k < p.len() && ids[p[k]] == ids[j];
                assert(ids[p[k]] is Some);
                assert(p[k] == r@[k] as int);
            }
        }
        assert forall|i: int, j: int| 0 <= i < j < r@.len() implies meeting_ids@[#[trigger] r@[i] as int]->Some_0@
            != meeting_ids@[#[trigger] r@[j] as int]->Some_0@ by {
            assert(p[i] == r@[i] as int);
            assert(p[j] == r@[j] as int);
            assert(ids[p[i]] != ids[p[j]]);
            assert(ids[p[i]] is Some);
            assert(ids[p[j]] is Some);
        }
        assert forall|a: int, b: int| 0 <= a < b < r@.len() implies #[trigger] r@[a] < #[trigger] r@[b] by {
            assert(p[a] == r@[a] as int);
            assert(p[b] == r@[b] as int);
        }
        assert forall|k: int, j: int| 0 <= k < r@.len() && 0 <= j < r@[k] implies (#[trigger] meeting_ids@[j]) is None
            || meeting_ids@[j]->Some_0@ != meeting_ids@[#[trigger] r@[k] as int]->Some_0@ by {
            assert(p[k] == r@[k] as int);
            assert(ids[j] != ids[p[k]]);
            assert(ids[p[k]] is Some);
        }
    }
    r
}

proof fn lemma_picked_stays(ids: Seq<Option<Seq<char>>>, i: int, n: int, limit: nat)
    requires
        0 <= i <= n,
        picked_hits(ids, i, limit).len() >= row_cap(limit),
    ensures
        picked_hits(ids, n, limit) == picked_hits(ids, i, limit),
    decreases n - i,
{
    if n > i {
        lemma_picked_stays(ids, i, n - 1, limit);
    }
}

/// Rows stop only at the limit: the picked hits never outnumber the limit
/// (one row when the limit is zero), and while they number fewer, every
/// hit that names a meeting has that meeting among the rows. So a search
/// that matches at least `limit` meetings returns exactly `limit` rows, and
/// one that matches fewer returns one row for each.
pub proof fn lemma_rows_reach_the_limit(ids: Seq<Option<Seq<char>>>, n: int, limit: nat)
    requires
        0 <= n <= ids.len(),
    ensures
        picked_hits(ids, n, limit).len() <= (if limit == 0 {
            1
        } else {
            limit
        }),
        picked_hits(ids, n, limit).len() < (if limit == 0 {
            1
        } else {
            limit
        }) ==> forall|j: int|
            0 <= j < n && #[trigger] ids[j] is Some ==> exists|k: int|
                0 <= k < picked_hits(ids, n, limit).len() && ids[picked_hits(ids, n, limit)[k]]
                    == ids[j],
    decreases n,
{
    if n > 0 {
        lemma_rows_reach_the_limit(ids, n - 1, limit);
        lemma_picked_bounds(ids, n - 1, limit);
        let prev = picked_hits(ids, n - 1, limit);
        let cur = picked_hits(ids, n, limit);
        let cap: nat = if limit == 0 {
            1
        } else {
            limit
        };
        if cur.len() < cap {
            assert(prev.len() < cap);
            assert forall|j: int| 0 <= j < n && #[trigger] ids[j] is Some implies exists|k: int|
                0 <= k < cur.len() && ids[cur[k]] == ids[j] by {
                if j < n - 1 {
                    let k = choose|k: int| 0 <= k < prev.len() && ids[prev[k]] == ids[j];
                    if cur.len() > prev.len() {
                        assert(cur == prev.push(n - 1));
                        assert(cur[k] == prev[k]);
                    }
                    assert(ids[cur[k]] == ids[j]);
                } else {
                    let id = ids[n - 1]->Some_0;
                    if exists|k: int| 0 <= k < prev.len() && ids[#[trigger] prev[k]] == Some(id) {
                        let k = choose|k: int| 0 <= k < prev.len() && ids[#[trigger] prev[k]] == Some(id);
                        assert(ids[cur[k]] == ids[j]);
                    } else {
                        assert(cur == prev.push(n - 1));
                        assert(ids[cur[prev.len() as int]] == ids[j]);
                    }
                }
            }
        }
    }
}

/// Each row is its meeting's first hit, and rows keep the hits' order: no
/// earlier hit names a row's meeting, and row positions increase.
pub proof fn lemma_rows_are_first_hits(ids: Seq<Option<Seq<char>>>, n: int, limit: nat)
    requires
        0 <= n <= ids.len(),
    ensures
        forall|k: int, j: int|
            0 <= k < picked_hits(ids, n, limit).len() && 0 <= j < picked_hits(ids, n, limit)[k] ==> #[trigger] ids[j]
                != #[trigger] ids[picked_hits(ids, n, limit)[k]],
        forall|a: int, b: int|
            0 <= a < b < picked_hits(ids, n, limit).len() ==> #[trigger] picked_hits(ids, n, limit)[a]
                < #[trigger] picked_hits(ids, n, limit)[b],
    decreases n,
{
    if n > 0 {
        lemma_rows_are_first_hits(ids, n - 1, limit);
        lemma_rows_reach_the_limit(ids, n - 1, limit);
        lemma_picked_bounds(ids, n - 1, limit);
        let prev = picked_hits(ids, n - 1, limit);
        let cur = picked_hits(ids, n, limit);
        if cur.len() > prev.len() {
            assert(cur == prev.push(n - 1));
            let id = ids[n - 1]->Some_0;
            assert(!exists|k: int| 0 <= k < prev.len() && ids[#[trigger] prev[k]] == Some(id));
            assert(prev.len() < row_cap(limit));
            assert forall|k: int, j: int| 0 <= k < cur.len() && 0 <= j < cur[k] implies #[trigger] ids[j]
                != #[trigger] ids[cur[k]] by {
                if k < prev.len() {
                    assert(cur[k] == prev[k]);
                } else {
                    assert(cur[k] == n - 1);
                    if ids[j] == ids[n - 1] {
                        assert(ids[j] is Some);
                        let m = choose|m: int| 0 <= m < prev.len() && ids[prev[m]] == ids[j];
                        assert(ids[#[trigger] prev[m]] == Some(id));
                    }
                }
            }
            assert forall|a: int, b: int| 0 <= a < b < cur.len() implies #[trigger] cur[a] < #[trigger] cur[b] by {
                assert(cur[a] == prev[a]);
                if b < prev.len() {
                    assert(cur[b] == prev[b]);
                }
            }
        }
    }
}

/// One row per meeting: the picked hits name distinct meetings, and there
/// are never more than the row cap.
pub proof fn lemma_one_row_per_meeting(ids: Seq<Option<Seq<char>>>, n: int, limit: nat)
    requires
        0 <= n <= ids.len(),
    ensures
        picked_hits(ids, n, limit).len() <= row_cap(limit),
        forall|i: int, j: int|
            0 <= i < j < picked_hits(ids, n, limit).len() ==> ids[#[trigger] picked_hits(ids, n, limit)[i]]
                != ids[#[trigger] picked_hits(ids, n, limit)[j]],
    decreases n,
{
    if n > 0 {
        lemma_one_row_per_meeting(ids, n - 1, limit);
        lemma_picked_bounds(ids, n - 1, limit);
        let prev = picked_hits(ids, n - 1, limit);
        let cur = picked_hits(ids, n, limit);
        if cur.len() > prev.len() {
            assert(cur == prev.push(n - 1));
            assert forall|i: int, j: int| 0 <= i < j < cur.len() implies ids[#[trigger] cur[i]]
                != ids[#[trigger] cur[j]] by {
                if j == cur.len() - 1 {
                    assert(cur[j] == n - 1);
                    assert(cur[i] == prev[i]);
                    if ids[prev[i]] == ids[n - 1] {
                        let id = ids[n - 1]->Some_0;
                        assert(ids[#[trigger] prev[i]] == Some(id));
                    }
                } else {
                    assert(cur[i] == prev[i]);
                    assert(cur[j] == prev[j]);
                }
            }
        }
    }
}


// --- The speakers a meeting links to ---

/// `into` after the registry ids of `segments` are added: each id not
/// already there joins the end, in segment order.
pub open spec fn linked_after(into: Seq<Seq<char>>, segments: Seq<TranscriptionSegment>) -> Seq<
    Seq<char>,
>
    decreases segments.len(),
{
    if segments.len() == 0 {
        into
    } else {
        let prev = linked_after(into, segments.drop_last());
        match segments.last().speaker_id {
            Some(id) => if prev.contains(id@) {
                prev
            } else {
                prev.push(id@)
            },
            None => prev,
        }
    }
}

/// Remember the speaker-registry ids a meeting's segments link to, before
/// the meeting is deleted, so that profiles it was the last home of can be
/// pruned after. Each id is kept once.
pub fn collect_linked_speakers(segments: &[TranscriptionSegment], into: &mut Vec<String>)
    ensures
        views(final(into)@) == linked_after(views(old(into)@), segments@),
{
    let ghost start = views(into@);
    let mut i: usize = 0;
    while i < segments.len()
        invariant
            i <= segments@.len(),
            views(into@) == linked_after(start, segments@.take(i as int)),
        decreases segments.len() - i,
    {
        proof {
            assert(segments@.take(i as int + 1).drop_last() =~= segments@.take(i as int));
            assert(segments@.take(i as int + 1).last() == segments@[i as int]);
        }
        match &segments[i].speaker_id {
            Some(id) => {
                if !lists(into.as_slice(), id.as_str()) {
                    let ghost before = views(into@);
                    into.push(id.clone());
                    proof {
                        assert(views(into@) =~= before.push(id@));
                    }
                }
            },
            None => {},
        }
        i = i + 1;
    }
    proof {
        assert(segments@.take(segments@.len() as int) =~= segments@);
    }
}


// --- Timestamps the list is filtered and paged by ---

/// A timestamp from the frontend, as an instant (seconds since the Unix
/// epoch, nanoseconds past the second); a timestamp that does not parse is
/// refused with the parser's own words.
pub fn parse_rfc3339(value: &str) -> (r: Result<(i64, u32), AppError>)
    ensures
        match rfc3339_instant(value@) {
            Ok((secs, nanos)) => r matches Ok(t) && t.0 as int == secs && t.1 as int == nanos,
            Err(m) => r matches Err(AppError::Internal(t)) && t@ == m,
        },
{
    match parse_rfc3339_instant(value) {
        Ok(t) => Ok(t),
        Err(e) => Err(AppError::Internal(e)),
    }
}

/// The optional lower bound of a meeting list: none when none is given,
/// else the given timestamp, which must parse.
pub fn parse_since(since: Option<String>) -> (r: Result<Option<(i64, u32)>, AppError>)
    ensures
        since is None ==> r matches Ok(None),
        since matches Some(v) ==> match rfc3339_instant(v@) {
            Ok((secs, nanos)) => r matches Ok(Some(t)) && t.0 as int == secs && t.1 as int == nanos,
            Err(m) => r matches Err(AppError::Internal(t)) && t@ == m,
        },
{
    match since {
        None => Ok(None),
        Some(v) => match parse_rfc3339(v.as_str()) {
            Ok(t) => Ok(Some(t)),
            Err(e) => Err(e),
        },
    }
}

} // verus!
