//! The notice window's precedence rule: which incoming notice may replace
//! the one showing.

use vstd::prelude::*;

use crate::text::same_text;

verus! {

/// One answer button on a notice.
pub struct NoticeAction {
    pub id: String,
    pub label: String,
}

/// Whether an incoming notice of `kind` may replace what is showing
/// (`current`: the showing notice's kind and stickiness).
pub open spec fn replaces(current: Option<(Seq<char>, bool)>, kind: Seq<char>, sticky: bool) -> bool {
    match current {
        None => true,
        Some((current_kind, current_sticky)) => current_kind == kind || sticky || !current_sticky,
    }
}

/// Whether an incoming notice may replace the one showing. A transient
/// notice never clobbers a live sticky one; same-kind updates always
/// apply; a sticky notice replaces anything; an empty window takes all.
pub fn should_replace(current: Option<(&str, bool)>, kind: &str, sticky: bool) -> (r: bool)
    ensures
        r == replaces(
            match current {
                Some((k, s)) => Some((k@, s)),
                None => None,
            },
            kind@,
            sticky,
        ),
{
    match current {
        None => true,
        Some((current_kind, current_sticky)) => {
            if same_text(current_kind, kind) {
                true
            } else {
                sticky || !current_sticky
            }
        },
    }
}

/// The precedence laws: a transient notice never replaces a live sticky
/// notice of another kind; a notice of the showing kind always replaces
/// it; a sticky notice replaces anything.
pub proof fn lemma_notice_precedence(showing: Seq<char>, showing_sticky: bool, kind: Seq<char>)
    ensures
        showing_sticky && showing != kind ==> !replaces(Some((showing, true)), kind, false),
        replaces(Some((showing, showing_sticky)), showing, false),
        replaces(Some((showing, showing_sticky)), kind, true),
{
}


/// A notice as the window shows it. Its strings arrive rendered; `target`,
/// where a click on the text leads, is carried as JSON text.
pub struct NoticePayload {
    /// The notice's family; payloads of one kind always replace each other.
    pub kind: String,
    /// The one line of text.
    pub title: String,
    pub actions: Vec<NoticeAction>,
    /// Sticky notices never auto-dismiss and outrank transient ones.
    pub sticky: bool,
    /// A deadline the page counts down to, in epoch milliseconds.
    pub countdown_until_ms: Option<u64>,
    pub target: Option<String>,
}

/// What the notice window holds: the payload it shows, if any. Hiding the
/// window clears it, so precedence never blocks a fresh notice.
pub struct NoticeBoard {
    current: Option<NoticePayload>,
}

impl NoticeBoard {
    /// The payload held.
    pub closed spec fn payload(self) -> Option<NoticePayload> {
        self.current
    }

    /// The held notice's kind and stickiness.
    pub open spec fn showing(self) -> Option<(Seq<char>, bool)> {
        match self.payload() {
            Some(p) => Some((p.kind@, p.sticky)),
            None => None,
        }
    }

    /// An empty board.
    pub fn new() -> (b: NoticeBoard)
        ensures
            b.payload() is None,
    {
        NoticeBoard { current: None }
    }

    /// Offer a payload to the window. `visible` is whether the window is
    /// on screen: what a hidden window last held blocks nothing. An
    /// admitted payload becomes the one held and the caller shows it; a
    /// refused one (a transient notice behind a live sticky one) leaves the
    /// board as it was.
    pub fn offer(&mut self, payload: NoticePayload, visible: bool) -> (shown: bool)
        ensures
            shown == replaces(
                if visible {
                    old(self).showing()
                } else {
                    None
                },
                payload.kind@,
                payload.sticky,
            ),
            shown ==> final(self).payload() == Some(payload),
            !shown ==> *final(self) == *old(self),
    {
        let admitted = match &self.current {
            Some(p) => {
                if visible {
                    should_replace(Some((p.kind.as_str(), p.sticky)), payload.kind.as_str(), payload.sticky)
                } else {
                    true
                }
            },
            None => true,
        };
        if admitted {
            self.current = Some(payload);
        }
        admitted
    }

    /// The window was hidden or its notice answered: nothing is held.
    pub fn clear(&mut self)
        ensures
            final(self).payload() is None,
    {
        self.current = None;
    }

    /// The payload showing, which the notice page reads when it loads.
    pub fn current(&self) -> (r: &Option<NoticePayload>)
        ensures
            *r == self.payload(),
    {
        &self.current
    }
}

/// Once the board is cleared, the next notice is always shown, whatever
/// was showing before.
pub proof fn lemma_cleared_board_takes_anything(b: NoticeBoard, payload: NoticePayload, visible: bool)
    requires
        b.payload() is None,
    ensures
        replaces(
            if visible {
                b.showing()
            } else {
                None
            },
            payload.kind@,
            payload.sticky,
        ),
{
}

} // verus!
