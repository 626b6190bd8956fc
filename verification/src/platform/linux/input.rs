//! Input on X11: which app has focus (the paste target), and the paste
//! chord synthesized into it. The display-server round trips are the
//! caller's; what is made of their replies is here.

use vstd::prelude::*;

use crate::types::{opt_view, AppId};

verus! {

/// The keysym of a lowercase `v`.
pub const KEYSYM_LOWER_V: u32 = 0x0076;

/// The keysym of the left Control key.
pub const KEYSYM_CONTROL_L: u32 = 0xffe3;

/// The index of the first `per`-wide chunk of `keysyms` that holds
/// `keysym`.
pub open spec fn first_chunk_with(keysyms: Seq<u32>, per: nat, keysym: u32) -> Option<nat>
    decreases keysyms.len(),
{
    if keysyms.len() == 0 || per == 0 {
        None
    } else {
        let n = if keysyms.len() < per {
            keysyms.len()
        } else {
            per
        };
        if keysyms.take(n as int).contains(keysym) {
            Some(0)
        } else {
            match first_chunk_with(keysyms.skip(n as int), per, keysym) {
                Some(i) => Some(i + 1),
                None => None,
            }
        }
    }
}

/// The first keycode whose keysym row holds `keysym`, from the server's
/// keyboard mapping: `min` is its first keycode and each keycode owns
/// `per` consecutive keysyms.
pub fn keycode_in(min: u8, per: usize, keysyms: &[u32], keysym: u32) -> (r: Option<u8>)
    requires
        per > 0,
        min as int + (keysyms@.len() as int + per as int - 1) / (per as int) - 1 <= 255,
    ensures
        match first_chunk_with(keysyms@, per as nat, keysym) {
            Some(i) => r == Some((min as int + i) as u8),
            None => r is None,
        },
{
    let mut start: usize = 0;
    let mut chunk: usize = 0;
    proof {
        assert(keysyms@.skip(0) =~= keysyms@);
    }
    while start < keysyms.len()
        invariant
            per > 0,
            start <= keysyms@.len(),
            start == chunk * per,
            min as int + (keysyms@.len() as int + per as int - 1) / (per as int) - 1 <= 255,
            first_chunk_with(keysyms@, per as nat, keysym) == match first_chunk_with(
                keysyms@.skip(start as int),
                per as nat,
                keysym,
            ) {
                Some(i) => Some((i + chunk) as nat),
                None => None,
            },
        decreases keysyms.len() - start,
    {
        let rest = keysyms.len() - start;
        let n = if rest < per {
            rest
        } else {
            per
        };
        let ghost tail = keysyms@.skip(start as int);
        assert(start + n <= keysyms@.len());
        let total = keysyms.len();
        let mut k: usize = 0;
        let mut hit = false;
        while k < n
            invariant
                k <= n,
                total == keysyms@.len(),
                start + n <= keysyms@.len(),
                tail == keysyms@.skip(start as int),
                hit == exists|m: int| 0 <= m < k && #[trigger] tail[m] == keysym,
            decreases n - k,
        {
            proof {
                assert(tail[k as int] == keysyms@[start + k]);
            }
            if keysyms[start + k] == keysym {
                hit = true;
            }
            k = k + 1;
        }
        proof {
            assert(tail.len() == rest);
            if hit {
                let m = choose|m: int| 0 <= m < n && #[trigger] tail[m] == keysym;
                assert(tail.take(n as int)[m] == keysym);
            }
            if tail.take(n as int).contains(keysym) {
                let m = choose|m: int| 0 <= m < n && tail.take(n as int)[m] == keysym;
                assert(tail[m] == keysym);
            }
            assert(tail.skip(n as int) =~= keysyms@.skip(start + n));
            assert(chunk * per + n <= keysyms@.len());
            assert(chunk + 1 <= (keysyms@.len() as int + per as int - 1) / (per as int)) by (
                nonlinear_arith)
                requires
                    chunk * per < keysyms@.len() + 0,
                    per > 0,
            {
                assert((chunk + 1) * per <= keysyms@.len() as int + per as int - 1);
            }
        }
        if hit {
            return Some(min + chunk as u8);
        }
        start = start + n;
        if n < per {
            proof {
                assert(keysyms@.skip(start as int) =~= Seq::<u32>::empty());
            }
            return None;
        }
        chunk = chunk + 1;
        proof {
            assert(start == chunk * per) by (nonlinear_arith)
                requires
                    start == (chunk - 1) * per + per,
            {
            }
        }
    }
    proof {
        assert(keysyms@.skip(start as int) =~= Seq::<u32>::empty());
    }
    None
}

/// The class half of a `WM_CLASS` property (`instance\0class\0`): the
/// second non-empty part, else the first; nothing when that is empty.
pub open spec fn wm_class_part(value: Seq<u8>) -> Option<Seq<u8>> {
    let parts = nonempty_parts(value);
    if parts.len() >= 2 {
        Some(parts[1])
    } else if parts.len() == 1 {
        Some(parts[0])
    } else {
        None
    }
}

/// The parts of `value` between zero bytes, empty ones dropped.
pub open spec fn nonempty_parts(value: Seq<u8>) -> Seq<Seq<u8>>
    decreases value.len(),
    via nonempty_parts_decreases
{
    if value.len() == 0 {
        Seq::empty()
    } else {
        let e = zero_at_or_end(value, 0);
        let head = value.take(e);
        let rest = if e < value.len() {
            nonempty_parts(value.skip(e + 1))
        } else {
            Seq::empty()
        };
        if head.len() > 0 {
            seq![head] + rest
        } else {
            rest
        }
    }
}

#[via_fn]
proof fn nonempty_parts_decreases(value: Seq<u8>) {
    if value.len() > 0 {
        lemma_zero_at_or_end(value, 0);
    }
}

/// The first zero byte at or after `i`, or the end.
pub open spec fn zero_at_or_end(value: Seq<u8>, i: int) -> int
    decreases value.len() - i,
{
    if i < 0 || i >= value.len() {
        value.len() as int
    } else if value[i] == 0 {
        i
    } else {
        zero_at_or_end(value, i + 1)
    }
}

proof fn lemma_zero_at_or_end(value: Seq<u8>, i: int)
    requires
        0 <= i <= value.len(),
    ensures
        i <= zero_at_or_end(value, i) <= value.len(),
        zero_at_or_end(value, i) < value.len() ==> value[zero_at_or_end(value, i)] == 0,
        forall|k: int| i <= k < zero_at_or_end(value, i) ==> value[k] != 0,
    decreases value.len() - i,
{
    if i < value.len() && value[i] != 0 {
        lemma_zero_at_or_end(value, i + 1);
    }
}

proof fn lemma_zero_at_or_end_skip(value: Seq<u8>, s: int, i: int)
    requires
        0 <= s <= i <= value.len(),
    ensures
        zero_at_or_end(value.skip(s), i - s) == zero_at_or_end(value, i) - s,
    decreases value.len() - i,
{
    if i < value.len() && value[i] != 0 {
        lemma_zero_at_or_end_skip(value, s, i + 1);
    }
}

/// The class name a `WM_CLASS` property gives, as bytes.
pub fn wm_class_bytes(value: &[u8]) -> (r: Option<Vec<u8>>)
    ensures
        match r {
            Some(v) => wm_class_part(value@) == Some(v@),
            None => wm_class_part(value@) is None,
        },
{
    let mut first: Option<Vec<u8>> = None;
    let mut second: Option<Vec<u8>> = None;
    let mut start: usize = 0;
    let ghost v = value@;
    proof {
        assert(v.skip(0) =~= v);
    }
    while start < value.len() && second.is_none()
        invariant
            v == value@,
            start <= v.len(),
            ({
                let found = match first {
                    Some(a) => match second {
                        Some(b) => seq![a@, b@],
                        None => seq![a@],
                    },
                    None => Seq::<Seq<u8>>::empty(),
                };
                &&& first is None ==> second is None
                &&& (second is None ==> found + nonempty_parts(v.skip(start as int)) == nonempty_parts(v))
                &&& (second is Some ==> nonempty_parts(v).len() >= 2 && nonempty_parts(v)[0] == found[0]
                    && nonempty_parts(v)[1] == found[1])
            }),
        decreases v.len() - start + (if second is None { 1int } else { 0int }),
    {
        let ghost t = v.skip(start as int);
        let mut e = start;
        while e < value.len() && value[e] != 0
            invariant
                start <= e <= v.len(),
                v == value@,
                forall|k: int| start <= k < e ==> v[k] != 0,
            decreases v.len() - e,
        {
            e = e + 1;
        }
        proof {
            lemma_zero_at_or_end(v, start as int);
            assert(zero_at_or_end(v, start as int) == e) by {
                lemma_zero_at_or_end(v, e as int);
                if e < v.len() {
                    assert(v[e as int] == 0);
                }
                assert forall|k: int| start <= k < e implies v[k] != 0 by {}
                lemma_zero_prefix(v, start as int, e as int);
            }
            lemma_zero_at_or_end_skip(v, start as int, start as int);
            assert(t.take(e - start) =~= v.subrange(start as int, e as int));
            if e < v.len() {
                assert(t.skip(e - start + 1) =~= v.skip(e + 1));
            }
        }
        let part = bytes_between(value, start, e);
        proof {
            assert(part@ =~= v.subrange(start as int, e as int));
        }
        let ghost before_first = first;
        if e > start {
            if first.is_none() {
                first = Some(part);
            } else {
                second = Some(part);
            }
        }
        if e < value.len() {
            start = e + 1;
        } else {
            start = e;
            proof {
                assert(v.skip(start as int) =~= Seq::<u8>::empty());
            }
        }
    }
    proof {
        if second is None {
            assert(start == v.len());
            assert(v.skip(start as int) =~= Seq::<u8>::empty());
        }
    }
    match second {
        Some(b) => Some(b),
        None => first,
    }
}

/// The bytes `value[from..to]`.
fn bytes_between(value: &[u8], from: usize, to: usize) -> (r: Vec<u8>)
    requires
        from <= to <= value@.len(),
    ensures
        r@ == value@.subrange(from as int, to as int),
{
    let mut r: Vec<u8> = Vec::new();
    let mut i = from;
    while i < to
        invariant
            from <= i <= to <= value@.len(),
            r@ == value@.subrange(from as int, i as int),
        decreases to - i,
    {
        r.push(value[i]);
        i = i + 1;
        proof {
            assert(r@ =~= value@.subrange(from as int, i as int));
        }
    }
    r
}

proof fn lemma_zero_prefix(v: Seq<u8>, start: int, e: int)
    requires
        0 <= start <= e <= v.len(),
        forall|k: int| start <= k < e ==> v[k] != 0,
        e < v.len() ==> v[e] == 0,
    ensures
        zero_at_or_end(v, start) == e,
    decreases e - start,
{
    if start < e {
        lemma_zero_prefix(v, start + 1, e);
    }
}

/// Whether the window manager named a focused app other than us.
pub open spec fn focus_known(
    active_window: Option<u32>,
    window_pid: Option<u32>,
    own_pid: u32,
    has_identity: bool,
) -> bool {
    &&& active_window is Some
    &&& active_window.unwrap() != 0
    &&& window_pid is Some
    &&& window_pid.unwrap() != 0
    &&& window_pid.unwrap() != own_pid
    &&& has_identity
}

/// The app with focus, from what the window manager answered: the active
/// window (0 is none), its pid (0 is unset), its executable's name and its
/// `WM_CLASS` class. Not an app when any step came up empty, when it is
/// us, or when it has no identity at all.
pub fn focused_app_from(
    active_window: Option<u32>,
    window_pid: Option<u32>,
    own_pid: u32,
    exe: Option<String>,
    wm_class: Option<String>,
) -> (r: Option<AppId>)
    ensures
        focus_known(active_window, window_pid, own_pid, exe is Some || wm_class is Some) ==> (r matches Some(
            app,
        ) && app.pid == window_pid.unwrap() && opt_view(app.exe) == opt_view(exe) && app.bundle_id is None
            && opt_view(app.display_name) == opt_view(wm_class)),
        !focus_known(active_window, window_pid, own_pid, exe is Some || wm_class is Some) ==> r is None,
{
    match active_window {
        Some(w) => {
            if w == 0 {
                return None;
            }
        },
        None => return None,
    }
    let pid = match window_pid {
        Some(p) => {
            if p == 0 {
                return None;
            }
            p
        },
        None => return None,
    };
    if pid == own_pid {
        return None;
    }
    if exe.is_none() && wm_class.is_none() {
        return None;
    }
    Some(AppId { pid, exe, bundle_id: None, display_name: wm_class })
}

/// The paste chord, event by event: Control down, V down, V up, Control
/// up (`true` is a press).
pub fn paste_events(control: u8, v: u8) -> (r: Vec<(bool, u8)>)
    ensures
        r@ == seq![(true, control), (true, v), (false, v), (false, control)],
{
    let mut r: Vec<(bool, u8)> = Vec::new();
    r.push((true, control));
    r.push((true, v));
    r.push((false, v));
    r.push((false, control));
    proof {
        assert(r@ =~= seq![(true, control), (true, v), (false, v), (false, control)]);
    }
    r
}

} // verus!
