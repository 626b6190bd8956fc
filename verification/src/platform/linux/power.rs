//! Where this machine's power comes from, decided from the kernel's
//! power-supply class: an online mains-like supply means wall power; a
//! battery and no live adapter means battery; no battery at all is a
//! desktop.

use vstd::prelude::*;

use crate::types::PowerSource;

verus! {

/// One supply in `/sys/class/power_supply`: its `type` and `online` files,
/// trimmed (`None` when a file could not be read).
pub struct SupplyReading {
    pub kind: Option<String>,
    pub online: Option<String>,
}

/// Whether a supply type is an adapter that can power the machine.
pub open spec fn is_adapter_kind(kind: Seq<char>) -> bool {
    kind == "Mains"@ || kind == "USB"@ || kind == "USB_PD"@ || kind == "USB_PD_DRP"@ || kind
        == "Wireless"@
}

/// The text of an optional reading (empty when absent).
pub open spec fn reading_text(o: Option<String>) -> Seq<char> {
    match o {
        Some(s) => s@,
        None => Seq::empty(),
    }
}

/// Whether a supply is an adapter with its cable live.
pub open spec fn is_live_adapter(r: SupplyReading) -> bool {
    is_adapter_kind(reading_text(r.kind)) && r.online is Some && reading_text(r.online) == "1"@
}

/// Whether a supply is a battery.
pub open spec fn is_battery(r: SupplyReading) -> bool {
    reading_text(r.kind) == "Battery"@
}

/// Whether some supply is an adapter with its cable live.
pub open spec fn has_live_adapter(s: Seq<SupplyReading>) -> bool {
    exists|i: int| 0 <= i < s.len() && is_live_adapter(#[trigger] s[i])
}

/// Whether some supply is a battery.
pub open spec fn has_battery(s: Seq<SupplyReading>) -> bool {
    exists|i: int| 0 <= i < s.len() && is_battery(#[trigger] s[i])
}

/// The power source the supplies describe; `None` is a machine with no
/// power-supply class at all, which cannot answer.
pub open spec fn power_from(supplies: Option<Seq<SupplyReading>>) -> PowerSource {
    match supplies {
        None => PowerSource::Unknown,
        Some(s) => if has_live_adapter(s) {
            PowerSource::Plugged
        } else if has_battery(s) {
            PowerSource::Battery
        } else {
            PowerSource::Plugged
        },
    }
}

fn text_is(o: &Option<String>, lit: &str) -> (r: bool)
    ensures
        r == (o is Some && reading_text(*o) == lit@),
{
    match o {
        Some(s) => s.as_str().to_owned() == lit.to_owned(),
        None => false,
    }
}

fn kind_text_is(o: &Option<String>, lit: &str) -> (r: bool)
    ensures
        r == (reading_text(*o) == lit@),
{
    match o {
        Some(s) => s.as_str().to_owned() == lit.to_owned(),
        None => {
            let empty = lit.unicode_len() == 0;
            proof {
                if empty {
                    assert(lit@ =~= Seq::<char>::empty());
                }
            }
            empty
        },
    }
}

/// Decides the power source from the supplies read (`None`: the class
/// directory could not be read).
pub fn power_source_from(supplies: Option<&[SupplyReading]>) -> (r: PowerSource)
    ensures
        r == power_from(
            match supplies {
                Some(s) => Some(s@),
                None => None,
            },
        ),
{
    let s = match supplies {
        Some(s) => s,
        None => return PowerSource::Unknown,
    };
    let mut saw_battery = false;
    let mut i: usize = 0;
    while i < s.len()
        invariant
            i <= s@.len(),
            supplies == Some(s),
            forall|k: int| 0 <= k < i ==> !is_live_adapter(#[trigger] s@[k]),
            saw_battery == exists|k: int| 0 <= k < i && is_battery(#[trigger] s@[k]),
        decreases s.len() - i,
    {
        let kind = &s[i].kind;
        let adapter = kind_text_is(kind, "Mains") || kind_text_is(kind, "USB") || kind_text_is(
            kind,
            "USB_PD",
        ) || kind_text_is(kind, "USB_PD_DRP") || kind_text_is(kind, "Wireless");
        if adapter && text_is(&s[i].online, "1") {
            proof {
                assert(is_live_adapter(s@[i as int]));
            }
            return PowerSource::Plugged;
        }
        if kind_text_is(kind, "Battery") {
            saw_battery = true;
        }
        i = i + 1;
    }
    proof {
        assert(s@.len() == i);
        assert(!has_live_adapter(s@));
    }
    if saw_battery {
        proof {
            let w = choose|k: int| 0 <= k < i && is_battery(#[trigger] s@[k]);
            assert(0 <= w < s@.len() && is_battery(s@[w]));
            assert(has_battery(s@));
            assert(power_from(Some(s@)) == PowerSource::Battery);
        }
        PowerSource::Battery
    } else {
        proof {
            assert(!has_battery(s@));
            assert(power_from(Some(s@)) == PowerSource::Plugged);
        }
        PowerSource::Plugged
    }
}

} // verus!
