//! Reading the text out of a meeting's pasted images: which files still
//! need reading, and what a run of readings hands back. The engine call and
//! the database are the caller's part.

use vstd::prelude::*;

use crate::text::views;
use crate::types::Recognized;

verus! {

/// Images read per sweep pass: small, so the database lock is never held
/// long and a first-run backfill stays in the background.
pub const SWEEP_BATCH: usize = 8;

/// The readings a run keeps, image by image: an image's text, empty text
/// for an image the engine could not read (an answer, so it is not
/// retried), and nothing from the first `Unavailable` on, since nothing
/// after it would fare any better.
pub open spec fn readings_spec(filenames: Seq<Seq<char>>, results: Seq<Recognized>) -> Seq<
    (Seq<char>, Seq<char>),
>
    decreases results.len(),
{
    if results.len() == 0 || filenames.len() == 0 {
        Seq::empty()
    } else {
        match results[0] {
            Recognized::Unavailable => Seq::empty(),
            Recognized::Text(t) => seq![(filenames[0], t@)] + readings_spec(
                filenames.drop_first(),
                results.drop_first(),
            ),
            Recognized::Failed(_) => seq![(filenames[0], Seq::<char>::empty())] + readings_spec(
                filenames.drop_first(),
                results.drop_first(),
            ),
        }
    }
}

/// Whether a reading ends the run: there is no engine on this machine.
pub fn ends_the_run(r: &Recognized) -> (stop: bool)
    ensures
        stop == (r is Unavailable),
{
    match r {
        Recognized::Unavailable => true,
        _ => false,
    }
}

proof fn lemma_readings_step(filenames: Seq<Seq<char>>, results: Seq<Recognized>, i: int)
    requires
        0 <= i < results.len(),
        i < filenames.len(),
        forall|k: int| 0 <= k < i ==> !(#[trigger] results[k] is Unavailable),
    ensures
        readings_spec(filenames, results) == readings_spec(filenames.take(i), results.take(i))
            + readings_spec(filenames.skip(i), results.skip(i)),
    decreases i,
{
    if i > 0 {
        lemma_readings_step(filenames.drop_first(), results.drop_first(), i - 1);
        assert(filenames.drop_first().take(i - 1) =~= filenames.take(i).drop_first());
        assert(results.drop_first().take(i - 1) =~= results.take(i).drop_first());
        assert(filenames.drop_first().skip(i - 1) =~= filenames.skip(i));
        assert(results.drop_first().skip(i - 1) =~= results.skip(i));
        assert(results.take(i)[0] == results[0]);
        assert(filenames.take(i)[0] == filenames[0]);
        let r = results[0];
        match r {
            Recognized::Text(t) => {
                assert(readings_spec(filenames.take(i), results.take(i)) == seq![(filenames[0], t@)]
                    + readings_spec(filenames.take(i).drop_first(), results.take(i).drop_first()));
            },
            Recognized::Failed(_) => {
                assert(readings_spec(filenames.take(i), results.take(i)) == seq![
                    (filenames[0], Seq::<char>::empty()),
                ] + readings_spec(filenames.take(i).drop_first(), results.take(i).drop_first()));
            },
            Recognized::Unavailable => {
                assert(results[0] is Unavailable);
            },
        }
    } else {
        assert(filenames.skip(0) =~= filenames);
        assert(results.skip(0) =~= results);
    }
}

/// What a run of readings hands back, in the order given: `results[i]` is
/// what the engine made of `filenames[i]`, for as many images as were read.
pub fn read_images(filenames: &[String], results: &[Recognized]) -> (r: Vec<(String, String)>)
    ensures
        r@.map_values(|p: (String, String)| (p.0@, p.1@)) == readings_spec(
            views(filenames@),
            results@,
        ),
{
    let ghost fv = views(filenames@);
    let mut out: Vec<(String, String)> = Vec::new();
    let mut i: usize = 0;
    while i < results.len() && i < filenames.len()
        invariant
            i <= results@.len(),
            i <= filenames@.len(),
            fv == views(filenames@),
            forall|k: int| 0 <= k < i ==> !(#[trigger] results@[k] is Unavailable),
            out@.map_values(|p: (String, String)| (p.0@, p.1@)) == readings_spec(
                fv.take(i as int),
                results@.take(i as int),
            ),
        decreases results.len() - i,
    {
        proof {
            lemma_readings_step(fv, results@, i as int);
            lemma_readings_step(fv.take(i + 1), results@.take(i + 1), i as int);
            assert(fv.take(i + 1).take(i as int) =~= fv.take(i as int));
            assert(results@.take(i + 1).take(i as int) =~= results@.take(i as int));
            assert(fv.take(i + 1).skip(i as int) =~= seq![fv[i as int]]);
            assert(results@.take(i + 1).skip(i as int) =~= seq![results@[i as int]]);
        }
        match &results[i] {
            Recognized::Unavailable => {
                proof {
                    assert(readings_spec(fv.skip(i as int), results@.skip(i as int)) =~= Seq::<
                        (Seq<char>, Seq<char>),
                    >::empty()) by {
                        assert(results@.skip(i as int)[0] == results@[i as int]);
                    }
                    assert(readings_spec(fv, results@) =~= readings_spec(
                        fv.take(i as int),
                        results@.take(i as int),
                    ));
                }
                return out;
            },
            Recognized::Text(t) => {
                let ghost before = out@;
                out.push((filenames[i].as_str().to_owned(), t.as_str().to_owned()));
                proof {
                    let one = seq![fv[i as int]];
                    let rone = seq![results@[i as int]];
                    assert(readings_spec(one, rone) =~= seq![(fv[i as int], t@)] + readings_spec(
                        one.drop_first(),
                        rone.drop_first(),
                    ));
                    assert(readings_spec(one.drop_first(), rone.drop_first()) =~= Seq::<
                        (Seq<char>, Seq<char>),
                    >::empty());
                    assert(out@.map_values(|p: (String, String)| (p.0@, p.1@)) =~= readings_spec(
                        fv.take(i + 1),
                        results@.take(i + 1),
                    ));
                }
            },
            Recognized::Failed(_) => {
                out.push((filenames[i].as_str().to_owned(), String::new()));
                proof {
                    let one = seq![fv[i as int]];
                    let rone = seq![results@[i as int]];
                    assert(readings_spec(one.drop_first(), rone.drop_first()) =~= Seq::<
                        (Seq<char>, Seq<char>),
                    >::empty());
                    assert(out@.map_values(|p: (String, String)| (p.0@, p.1@)) =~= readings_spec(
                        fv.take(i + 1),
                        results@.take(i + 1),
                    ));
                }
            },
        }
        i = i + 1;
    }
    proof {
        if i == results@.len() {
            assert(results@.take(i as int) =~= results@);
            assert(readings_spec(fv, results@) == readings_spec(fv.take(i as int), results@)) by {
                lemma_readings_prefix_names(fv, results@, i as int);
            }
        } else {
            assert(fv.take(i as int) =~= fv);
            lemma_readings_prefix_results(fv, results@, i as int);
        }
    }
    out
}

/// Names past the last result change nothing.
proof fn lemma_readings_prefix_names(filenames: Seq<Seq<char>>, results: Seq<Recognized>, n: int)
    requires
        results.len() <= n <= filenames.len(),
    ensures
        readings_spec(filenames, results) == readings_spec(filenames.take(n), results),
    decreases results.len(),
{
    if results.len() > 0 && filenames.len() > 0 {
        lemma_readings_prefix_names(filenames.drop_first(), results.drop_first(), n - 1);
        assert(filenames.drop_first().take(n - 1) =~= filenames.take(n).drop_first());
    }
}

/// Results past the last name change nothing.
proof fn lemma_readings_prefix_results(filenames: Seq<Seq<char>>, results: Seq<Recognized>, n: int)
    requires
        filenames.len() <= n <= results.len(),
    ensures
        readings_spec(filenames, results) == readings_spec(filenames, results.take(n)),
    decreases filenames.len(),
{
    if results.len() > 0 && filenames.len() > 0 {
        lemma_readings_prefix_results(filenames.drop_first(), results.drop_first(), n - 1);
        assert(results.drop_first().take(n - 1) =~= results.take(n).drop_first());
        assert(results.take(n)[0] == results[0]);
    } else if filenames.len() == 0 {
    } else {
        assert(results.take(n).len() == 0);
    }
}

/// The images of a meeting nothing has read yet: the stored ones with no
/// reading on record, in order.
pub open spec fn unread(stored: Seq<Seq<char>>, known: Seq<Seq<char>>) -> Seq<Seq<char>>
    decreases stored.len(),
{
    if stored.len() == 0 {
        Seq::empty()
    } else {
        let prev = unread(stored.drop_last(), known);
        if known.contains(stored.last()) {
            prev
        } else {
            prev.push(stored.last())
        }
    }
}

/// The images a sweep reads next in a meeting: its unread images, at most
/// `limit` of them.
pub fn pending_images(stored: &[String], known: &[String], limit: usize) -> (r: Vec<String>)
    ensures
        views(r@) == ({
            let u = unread(views(stored@), views(known@));
            if u.len() <= limit {
                u
            } else {
                u.take(limit as int)
            }
        }),
{
    let ghost sv = views(stored@);
    let ghost kv = views(known@);
    let mut out: Vec<String> = Vec::new();
    let mut i: usize = 0;
    while i < stored.len()
        invariant
            i <= stored@.len(),
            sv == views(stored@),
            kv == views(known@),
            views(out@) == ({
                let u = unread(sv.take(i as int), kv);
                if u.len() <= limit {
                    u
                } else {
                    u.take(limit as int)
                }
            }),
        decreases stored.len() - i,
    {
        let mut seen = false;
        let mut k: usize = 0;
        while k < known.len()
            invariant
                k <= known@.len(),
                kv == views(known@),
                i < stored@.len(),
                seen == exists|m: int| 0 <= m < k && kv[m] == stored@[i as int]@,
            decreases known.len() - k,
        {
            proof {
                assert(kv[k as int] == known@[k as int]@);
            }
            if known[k].as_str().to_owned() == stored[i].as_str().to_owned() {
                seen = true;
            }
            k = k + 1;
        }
        proof {
            assert(sv.take(i + 1).drop_last() =~= sv.take(i as int));
            assert(sv.take(i + 1).last() == stored@[i as int]@);
            if kv.contains(stored@[i as int]@) {
                let m = choose|m: int| 0 <= m < kv.len() && kv[m] == stored@[i as int]@;
                assert(seen);
            }
            if seen {
                let m = choose|m: int| 0 <= m < k && kv[m] == stored@[i as int]@;
                assert(kv.contains(stored@[i as int]@));
            }
        }
        if !seen && out.len() < limit {
            let ghost before = out@;
            proof {
                let u = unread(sv.take(i as int), kv);
                assert(views(before).len() == before.len());
                if u.len() > limit {
                    assert(views(before).len() == limit);
                }
                assert(u.len() <= limit);
            }
            out.push(stored[i].as_str().to_owned());
            proof {
                let u = unread(sv.take(i as int), kv);
                let u2 = unread(sv.take(i + 1), kv);
                assert(u2 == u.push(stored@[i as int]@));
                assert(views(out@) =~= u.push(stored@[i as int]@));
            }
        } else {
            proof {
                let u = unread(sv.take(i as int), kv);
                let u2 = unread(sv.take(i + 1), kv);
                if !seen {
                    assert(u2 == u.push(stored@[i as int]@));
                    assert(u2.take(limit as int) =~= u.take(limit as int));
                }
            }
        }
        i = i + 1;
    }
    proof {
        assert(sv.take(i as int) =~= sv);
    }
    out
}

/// A sweep never reads an image twice: everything it picks is stored, and
/// nothing it picks has a reading on record.
pub proof fn lemma_unread_is_stored_and_unknown(stored: Seq<Seq<char>>, known: Seq<Seq<char>>)
    ensures
        forall|i: int|
            0 <= i < unread(stored, known).len() ==> !known.contains(#[trigger] unread(stored, known)[i])
                && stored.contains(unread(stored, known)[i]),
    decreases stored.len(),
{
    if stored.len() > 0 {
        let init = stored.drop_last();
        lemma_unread_is_stored_and_unknown(init, known);
        let prev = unread(init, known);
        assert forall|i: int| 0 <= i < unread(stored, known).len() implies !known.contains(
            #[trigger] unread(stored, known)[i],
        ) && stored.contains(unread(stored, known)[i]) by {
            if i < prev.len() {
                assert(unread(stored, known)[i] == prev[i]);
                let k = choose|k: int| 0 <= k < init.len() && init[k] == prev[i];
                assert(stored[k] == init[k]);
            } else {
                assert(unread(stored, known)[i] == stored.last());
                assert(stored[stored.len() - 1] == stored.last());
            }
        }
    }
}


// --- One sweep pass ---

/// What a sweep pass does with the next meeting folder.
pub enum SweepStep {
    /// The pass's budget is spent: stop.
    Stop,
    /// Not a folder, or no meeting row (a live recording, or an orphan the
    /// janitor removes): go on to the next one.
    Skip,
    /// Read at most `limit` of this meeting's unread images.
    Read { limit: usize },
}

/// The step for the next folder, `read` images into a pass of `budget`.
pub fn sweep_next(read: usize, budget: usize, is_dir: bool, has_row: bool) -> (r: SweepStep)
    ensures
        read >= budget ==> r is Stop,
        read < budget && !(is_dir && has_row) ==> r is Skip,
        read < budget && is_dir && has_row ==> r == (SweepStep::Read { limit: (budget - read) as usize }),
{
    if read >= budget {
        SweepStep::Stop
    } else if !(is_dir && has_row) {
        SweepStep::Skip
    } else {
        SweepStep::Read { limit: budget - read }
    }
}

/// The pass after a folder whose `pending` unread images (at most the
/// step's limit) gave `readings` texts: `None` stops the pass when there
/// was something to read and nothing came back (the engine is unavailable,
/// and the rest of the library would fare no better); otherwise the new
/// count, which never passes the budget.
pub fn sweep_after(read: usize, budget: usize, pending: usize, readings: usize) -> (r: Option<usize>)
    requires
        read < budget,
        pending <= budget - read,
        readings <= pending,
    ensures
        pending > 0 && readings == 0 ==> r is None,
        !(pending > 0 && readings == 0) ==> r == Some((read + readings) as usize),
        r matches Some(n) ==> n <= budget,
{
    if pending > 0 && readings == 0 {
        None
    } else {
        Some(read + readings)
    }
}

} // verus!
