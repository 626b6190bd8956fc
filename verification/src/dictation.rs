//! Dictation's pure rules: what the hotkey does on a press or a release,
//! and the text delivered when a session's own answer never comes.

use vstd::prelude::*;

use crate::config::{needs_local_model, AppConfig, CloudOutOfHours, TranscriptionProvider};
use crate::support::AppError;
use crate::text::{
    chars_of, push_char, push_str, string_of, trim, trim_bounds, trim_end, trim_end_index,
    trim_string, views,
};

verus! {

/// A tap shorter than this many milliseconds is toggle mode; holding
/// longer means push-to-talk (stop on release).
pub const HOLD_THRESHOLD_MS: u64 = 700;

/// What the dictation hotkey does.
#[derive(Debug, PartialEq, Eq, Clone, Copy, Structural)]
pub enum HotkeyAction {
    Start,
    Stop,
    Nothing,
}

/// A press starts a session, or stops the one running (toggle mode's
/// second tap).
pub fn on_press(active: bool) -> (r: HotkeyAction)
    ensures
        r == if active {
            HotkeyAction::Stop
        } else {
            HotkeyAction::Start
        },
{
    if active {
        HotkeyAction::Stop
    } else {
        HotkeyAction::Start
    }
}

/// A release stops the session only after a hold (push-to-talk); a short
/// tap leaves it running. `held_ms` is how long the key was held, in
/// milliseconds.
pub fn on_release(active: bool, held_ms: u64) -> (r: HotkeyAction)
    ensures
        r == if active && held_ms >= HOLD_THRESHOLD_MS {
            HotkeyAction::Stop
        } else {
            HotkeyAction::Nothing
        },
{
    if active && held_ms >= HOLD_THRESHOLD_MS {
        HotkeyAction::Stop
    } else {
        HotkeyAction::Nothing
    }
}

/// A release never starts anything, and a press never does nothing.
pub proof fn lemma_release_never_starts(active: bool, held_ms: u64)
    ensures
        (if active && held_ms >= HOLD_THRESHOLD_MS {
            HotkeyAction::Stop
        } else {
            HotkeyAction::Nothing
        }) != HotkeyAction::Start,
        (if active {
            HotkeyAction::Stop
        } else {
            HotkeyAction::Start
        }) != HotkeyAction::Nothing,
{
}

/// The non-empty pieces, trimmed, in order.
pub open spec fn kept_pieces(texts: Seq<Seq<char>>) -> Seq<Seq<char>>
    decreases texts.len(),
{
    if texts.len() == 0 {
        Seq::empty()
    } else {
        let prev = kept_pieces(texts.drop_last());
        let t = trim(texts.last());
        if t.len() > 0 {
            prev.push(t)
        } else {
            prev
        }
    }
}

/// Pieces joined with single spaces.
pub open spec fn join_spaced(pieces: Seq<Seq<char>>) -> Seq<char>
    decreases pieces.len(),
{
    if pieces.len() == 0 {
        Seq::empty()
    } else if pieces.len() == 1 {
        pieces[0]
    } else {
        join_spaced(pieces.drop_last()) + seq![' '] + pieces.last()
    }
}

/// The total length of the texts once trimmed (a blank text counts zero).
pub open spec fn trimmed_total(texts: Seq<Seq<char>>) -> nat
    decreases texts.len(),
{
    if texts.len() == 0 {
        0
    } else {
        trimmed_total(texts.drop_last()) + trim(texts.last()).len()
    }
}

/// How many of the texts are not blank once trimmed.
pub open spec fn nonblank_count(texts: Seq<Seq<char>>) -> nat
    decreases texts.len(),
{
    if texts.len() == 0 {
        0
    } else {
        nonblank_count(texts.drop_last()) + if trim(texts.last()).len() > 0 {
            1nat
        } else {
            0nat
        }
    }
}

/// Whether `piece` occurs in `text` at some position.
pub open spec fn occurs_in(text: Seq<char>, piece: Seq<char>) -> bool {
    exists|o: int| 0 <= o && o + piece.len() <= text.len() && #[trigger] text.subrange(o, o + piece.len()) == piece
}

/// Nothing dictated is lost: the joined text holds every non-blank segment
/// text, trimmed, and is exactly as long as those pieces together with one
/// space between each two.
pub proof fn lemma_join_keeps_every_segment(texts: Seq<Seq<char>>)
    ensures
        join_spaced(kept_pieces(texts)).len() == trimmed_total(texts) + if nonblank_count(texts) > 0 {
            nonblank_count(texts) - 1
        } else {
            0
        },
        forall|i: int|
            0 <= i < texts.len() && trim(#[trigger] texts[i]).len() > 0 ==> occurs_in(
                join_spaced(kept_pieces(texts)),
                trim(texts[i]),
            ),
        kept_pieces(texts).len() == nonblank_count(texts),
    decreases texts.len(),
{
    if texts.len() > 0 {
        let init = texts.drop_last();
        lemma_join_keeps_every_segment(init);
        let prev = kept_pieces(init);
        let j0 = join_spaced(prev);
        let t = trim(texts.last());
        let j = join_spaced(kept_pieces(texts));
        if t.len() > 0 {
            let next = prev.push(t);
            assert(next.drop_last() =~= prev);
            if prev.len() == 0 {
                assert(j == t);
            } else {
                assert(j == j0 + seq![' '] + t);
            }
        }
        assert forall|i: int| 0 <= i < texts.len() && trim(#[trigger] texts[i]).len() > 0 implies occurs_in(
            j,
            trim(texts[i]),
        ) by {
            let p = trim(texts[i]);
            if i < texts.len() - 1 {
                assert(init[i] == texts[i]);
                assert(occurs_in(j0, p));
                let o = choose|o: int|
                    0 <= o && o + p.len() <= j0.len() && #[trigger] j0.subrange(o, o + p.len()) == p;
                if t.len() > 0 && prev.len() > 0 {
                    assert(j.subrange(o, o + p.len()) =~= j0.subrange(o, o + p.len()));
                }
                assert(j.subrange(o, o + p.len()) == p);
            } else {
                if prev.len() == 0 {
                    let z: int = 0;
                    assert(j.subrange(z, z + p.len()) =~= p);
                } else {
                    let o: int = j0.len() as int + 1;
                    assert(j.subrange(o, o + p.len()) =~= p);
                }
            }
        }
    }
}

proof fn lemma_join_extends(texts: Seq<Seq<char>>)
    requires
        texts.len() > 0,
    ensures
        ({
            let j0 = join_spaced(kept_pieces(texts.drop_last()));
            let j = join_spaced(kept_pieces(texts));
            j0.len() <= j.len() && j.subrange(0, j0.len() as int) == j0
        }),
{
    let prev = kept_pieces(texts.drop_last());
    let j0 = join_spaced(prev);
    let t = trim(texts.last());
    let j = join_spaced(kept_pieces(texts));
    if t.len() > 0 {
        let next = prev.push(t);
        assert(next.drop_last() =~= prev);
        if prev.len() == 0 {
            assert(j0 =~= Seq::<char>::empty());
            assert(j.subrange(0, 0) =~= j0);
        } else {
            assert(j == j0 + seq![' '] + t);
            assert(j.subrange(0, j0.len() as int) =~= j0);
        }
    } else {
        assert(j.subrange(0, j0.len() as int) =~= j0);
    }
}

/// Dictation only grows at the end: the text joined from the first `i`
/// segments is a prefix of the text joined from all of them, so every piece
/// keeps its place and the order in which it was spoken.
pub proof fn lemma_join_of_a_prefix_is_a_prefix(texts: Seq<Seq<char>>, i: int)
    requires
        0 <= i <= texts.len(),
    ensures
        join_spaced(kept_pieces(texts.take(i))).len() <= join_spaced(kept_pieces(texts)).len(),
        join_spaced(kept_pieces(texts)).subrange(0, join_spaced(kept_pieces(texts.take(i))).len() as int)
            == join_spaced(kept_pieces(texts.take(i))),
    decreases texts.len(),
{
    let j = join_spaced(kept_pieces(texts));
    if i == texts.len() {
        assert(texts.take(i) =~= texts);
        assert(j.subrange(0, j.len() as int) =~= j);
    } else {
        let init = texts.drop_last();
        assert(init.take(i) =~= texts.take(i));
        lemma_join_of_a_prefix_is_a_prefix(init, i);
        lemma_join_extends(texts);
        let ji = join_spaced(kept_pieces(texts.take(i)));
        let j0 = join_spaced(kept_pieces(init));
        assert(j.subrange(0, ji.len() as int) =~= j0.subrange(0, ji.len() as int)) by {
            assert forall|m: int| 0 <= m < ji.len() implies j.subrange(0, ji.len() as int)[m]
                == j0.subrange(0, ji.len() as int)[m] by {
                assert(j.subrange(0, j0.len() as int)[m] == j[m]);
            }
        }
    }
}

/// Non-empty segment texts, trimmed, joined into one line of dictated
/// speech.
pub fn join_segments(texts: &[String]) -> (r: String)
    ensures
        r@ == join_spaced(kept_pieces(views(texts@))),
        r@.len() == trimmed_total(views(texts@)) + if nonblank_count(views(texts@)) > 0 {
            nonblank_count(views(texts@)) - 1
        } else {
            0
        },
        forall|i: int|
            0 <= i < texts@.len() && trim(#[trigger] texts@[i]@).len() > 0 ==> occurs_in(
                r@,
                trim(texts@[i]@),
            ),
{
    let ghost ts = views(texts@);
    let mut out = String::new();
    let mut count: usize = 0;
    let mut i: usize = 0;
    proof {
        assert(ts.take(0) =~= Seq::<Seq<char>>::empty());
    }
    while i < texts.len()
        invariant
            i <= texts@.len(),
            ts == views(texts@),
            out@ == join_spaced(kept_pieces(ts.take(i as int))),
            count == kept_pieces(ts.take(i as int)).len(),
            count <= i,
        decreases texts.len() - i,
    {
        let v = chars_of(texts[i].as_str());
        let (a, b) = trim_bounds(v.as_slice(), 0, v.len());
        let ghost prev = kept_pieces(ts.take(i as int));
        proof {
            assert(v@.subrange(0, v@.len() as int) =~= v@);
            assert(ts[i as int] == texts@[i as int]@);
            assert(ts.take(i + 1).drop_last() =~= ts.take(i as int));
            assert(ts.take(i + 1).last() == ts[i as int]);
        }
        if a < b {
            let piece = string_of(v.as_slice(), a, b);
            if count > 0 {
                push_char(&mut out, ' ');
            }
            push_str(&mut out, piece.as_str());
            count = count + 1;
            proof {
                let next = prev.push(trim(ts[i as int]));
                assert(next.drop_last() =~= prev);
                if prev.len() == 0 {
                    assert(out@ =~= join_spaced(next));
                } else {
                    assert(out@ =~= join_spaced(next));
                }
            }
        }
        i = i + 1;
    }
    proof {
        assert(ts.take(texts@.len() as int) =~= ts);
        lemma_join_keeps_every_segment(ts);
        assert forall|i: int| 0 <= i < texts@.len() && trim(#[trigger] texts@[i]@).len() > 0 implies occurs_in(
            out@,
            trim(texts@[i]@),
        ) by {
            assert(ts[i] == texts@[i]@);
        }
    }
    out
}

/// What the fallback delivers: the finalized segments with the last
/// interim joined on the end, exactly the text that was on the overlay.
pub fn fallback_text(heard: &[String], interim: &str) -> (r: String)
    ensures
        r@ == join_spaced(kept_pieces(views(heard@).push(interim@))),
        r@.len() == trimmed_total(views(heard@).push(interim@)) + if nonblank_count(
            views(heard@).push(interim@),
        ) > 0 {
            nonblank_count(views(heard@).push(interim@)) - 1
        } else {
            0
        },
        forall|i: int|
            0 <= i < heard@.len() && trim(#[trigger] heard@[i]@).len() > 0 ==> occurs_in(
                r@,
                trim(heard@[i]@),
            ),
        trim(interim@).len() > 0 ==> occurs_in(r@, trim(interim@)),
{
    let mut all: Vec<String> = Vec::new();
    let mut i: usize = 0;
    while i < heard.len()
        invariant
            i <= heard@.len(),
            views(all@) == views(heard@).take(i as int),
        decreases heard.len() - i,
    {
        let copy = string_of_str(heard[i].as_str());
        let ghost before = all@;
        all.push(copy);
        proof {
            assert(all@ == before.push(copy));
            assert(views(all@) =~= views(before).push(heard@[i as int]@));
            assert(views(heard@)[i as int] == heard@[i as int]@);
            assert(views(all@) =~= views(heard@).take(i + 1));
        }
        i = i + 1;
    }
    let last = string_of_str(interim);
    let ghost before = all@;
    all.push(last);
    proof {
        assert(views(all@) =~= views(before).push(interim@));
        assert(views(heard@).take(heard@.len() as int) =~= views(heard@));
        assert(views(all@) =~= views(heard@).push(interim@));
    }
    let r = join_segments(all.as_slice());
    proof {
        let ts = views(heard@).push(interim@);
        lemma_join_keeps_every_segment(ts);
        assert forall|i: int| 0 <= i < heard@.len() && trim(#[trigger] heard@[i]@).len() > 0 implies occurs_in(
            r@,
            trim(heard@[i]@),
        ) by {
            assert(ts[i] == heard@[i]@);
        }
        assert(ts[heard@.len() as int] == interim@);
    }
    r
}

/// An owned copy of a string slice.
fn string_of_str(s: &str) -> (r: String)
    ensures
        r@ == s@,
{
    s.to_owned()
}

/// The dictation start gate, in order: not while a recording runs, not
/// twice, not without the on-device model where the device transcribes,
/// and not on the cloud while signed out.
pub fn start_gate(
    recording: bool,
    running: bool,
    config: &AppConfig,
    model_id: &str,
    model_present: bool,
) -> (r: Result<(), AppError>)
    ensures
        ({
            let needs = match config.dictation_provider {
                TranscriptionProvider::Local => true,
                TranscriptionProvider::Cloud => config.dictation_out_of_hours == CloudOutOfHours::Local,
            };
            if recording {
                r matches Err(AppError::CantDictateWhileRecording)
            } else if running {
                r matches Err(AppError::DictationAlreadyRunning)
            } else if needs && !model_present {
                r matches Err(AppError::DictationModelMissing(m)) && m@ == model_id@
            } else if config.dictation_provider == TranscriptionProvider::Cloud
                && config.cloud_session_token@.len() == 0 {
                r matches Err(AppError::CloudSignInRequired)
            } else {
                r is Ok
            }
        }),
{
    if recording {
        return Err(AppError::CantDictateWhileRecording);
    }
    if running {
        return Err(AppError::DictationAlreadyRunning);
    }
    if needs_local_model(config) && !model_present {
        return Err(AppError::DictationModelMissing(model_id.to_owned()));
    }
    if config.dictation_provider == TranscriptionProvider::Cloud
        && config.cloud_session_token.as_str().unicode_len() == 0 {
        return Err(AppError::CloudSignInRequired);
    }
    Ok(())
}

/// The microphone dictation opens: the configured one, trimmed, or the
/// system default when that is blank.
pub fn mic_device(configured: &str) -> (r: Option<String>)
    ensures
        trim(configured@).len() == 0 ==> r is None,
        trim(configured@).len() > 0 ==> (r matches Some(m) && m@ == trim(configured@)),
{
    let t = trim_string(configured);
    if t.as_str().unicode_len() == 0 {
        None
    } else {
        Some(t)
    }
}

/// What a finalized segment adds to the heard text: its words, trimmed,
/// unless there are none.
pub fn heard_text(segment_text: &str) -> (r: Option<String>)
    ensures
        trim(segment_text@).len() == 0 ==> r is None,
        trim(segment_text@).len() > 0 ==> (r matches Some(t) && t@ == trim(segment_text@)),
{
    let t = trim_string(segment_text);
    if t.as_str().unicode_len() == 0 {
        None
    } else {
        Some(t)
    }
}

/// The interim's unstable tail as shown: trailing whitespace dropped, its
/// leading space (the word boundary) kept.
pub fn tentative_tail(tentative: Option<&str>) -> (r: String)
    ensures
        r@ == match tentative {
            Some(t) => trim_end(t@),
            None => Seq::<char>::empty(),
        },
{
    match tentative {
        Some(t) => {
            let v = chars_of(t);
            let j = trim_end_index(v.as_slice(), 0, v.len());
            proof {
                assert(v@.subrange(0, v@.len() as int) =~= v@);
            }
            string_of(v.as_slice(), 0, j)
        },
        None => String::new(),
    }
}

/// The interim mirror an interim leaves: its committed words and its tail,
/// concatenated verbatim and trimmed, unless that is empty (the mirror
/// then keeps what it had).
pub fn interim_mirror(committed: &str, tentative: Option<&str>) -> (r: Option<String>)
    ensures
        ({
            let tail = match tentative {
                Some(t) => trim_end(t@),
                None => Seq::<char>::empty(),
            };
            let text = trim(trim(committed@) + tail);
            if text.len() == 0 {
                r is None
            } else {
                r matches Some(m) && m@ == text
            }
        }),
{
    let mut joined = trim_string(committed);
    let tail = tentative_tail(tentative);
    push_str(&mut joined, tail.as_str());
    let text = trim_string(joined.as_str());
    if text.as_str().unicode_len() == 0 {
        None
    } else {
        Some(text)
    }
}

/// The overlay's live text: everything finalized, joined with spaces, then
/// the interim's committed words.
pub open spec fn overlay_text_spec(heard: Seq<Seq<char>>, interim: Seq<char>) -> Seq<char> {
    let text = join_spaced(heard);
    if interim.len() == 0 {
        text
    } else if text.len() == 0 {
        interim
    } else {
        text + seq![' '] + interim
    }
}

/// The overlay's live text for what has been heard and the interim.
pub fn overlay_text(heard: &[String], interim: &str) -> (r: String)
    ensures
        r@ == overlay_text_spec(views(heard@), interim@),
{
    let ghost hv = views(heard@);
    let mut text = String::new();
    let mut i: usize = 0;
    while i < heard.len()
        invariant
            i <= heard@.len(),
            hv == views(heard@),
            text@ == join_spaced(hv.take(i as int)),
        decreases heard.len() - i,
    {
        proof {
            assert(hv.take(i + 1).drop_last() =~= hv.take(i as int));
            assert(hv.take(i + 1).last() == heard@[i as int]@);
        }
        if i > 0 {
            push_char(&mut text, ' ');
        }
        push_str(&mut text, heard[i].as_str());
        proof {
            if i == 0 {
                assert(text@ =~= join_spaced(hv.take(i + 1)));
            } else {
                assert(text@ =~= join_spaced(hv.take(i + 1)));
            }
        }
        i = i + 1;
    }
    proof {
        assert(hv.take(heard@.len() as int) =~= hv);
    }
    if interim.unicode_len() > 0 {
        if text.as_str().unicode_len() > 0 {
            push_char(&mut text, ' ');
        }
        push_str(&mut text, interim);
    }
    text
}

/// What happens to finished text, per the two output switches.
pub struct DeliveryPlan {
    /// The text goes onto the clipboard (pasting needs it there too).
    pub set_clipboard: bool,
    /// The paste chord is sent to the focused app.
    pub paste: bool,
    /// The clipboard's previous contents come back once the target has
    /// read it, because the user did not ask to keep the text there.
    pub restore_previous: bool,
}

/// The delivery for the copy and paste switches: neither keeps the text in
/// history only.
pub fn delivery_plan(copy: bool, paste: bool) -> (r: DeliveryPlan)
    ensures
        r.set_clipboard == (copy || paste),
        r.paste == paste,
        r.restore_previous == (paste && !copy),
{
    DeliveryPlan { set_clipboard: copy || paste, paste, restore_previous: paste && !copy }
}

/// The delivery's name in the usage event.
pub open spec fn delivery_kind_spec(auto_paste: bool, copy: bool) -> Seq<char> {
    if auto_paste {
        "paste"@
    } else if copy {
        "clipboard"@
    } else {
        "history"@
    }
}

/// The delivery's name in the usage event.
pub fn delivery_kind(auto_paste: bool, copy: bool) -> (r: &'static str)
    ensures
        r@ == delivery_kind_spec(auto_paste, copy),
{
    if auto_paste {
        "paste"
    } else if copy {
        "clipboard"
    } else {
        "history"
    }
}

} // verus!
