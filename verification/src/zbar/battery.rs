//! The battery pill.

use vstd::prelude::*;
use vstd::string::*;

use crate::numeral;
use crate::text;
use crate::zbar::theme;
use crate::zbar::theme::Tone;

verus! {

/// What the battery is doing.
#[derive(Clone, Copy, Debug, PartialEq, Eq, Structural)]
pub enum BatteryStatus {
    Charging,
    Discharging,
    Full,
    Unknown,
}

/// The state that the kernel's `status` file names.
pub open spec fn status_of(content: Option<Seq<char>>) -> BatteryStatus {
    match content {
        Some(c) => {
            let word = text::trim(c);
            if word == "Charging"@ {
                BatteryStatus::Charging
            } else if word == "Full"@ {
                BatteryStatus::Full
            } else if word == "Discharging"@ || word == "Not charging"@ {
                BatteryStatus::Discharging
            } else {
                BatteryStatus::Unknown
            }
        },
        None => BatteryStatus::Unknown,
    }
}

/// The percentage that the kernel's `capacity` file holds.
pub open spec fn capacity_of(content: Option<Seq<char>>) -> Option<nat> {
    match content {
        Some(c) => numeral::parse_unsigned(text::trim(c), 255),
        None => None,
    }
}

/// A capacity as a number.
pub open spec fn capacity_value(c: Option<u8>) -> Option<nat> {
    match c {
        Some(v) => Some(v as nat),
        None => None,
    }
}

/// Which of the power supplies is the battery: the first whose name begins
/// with `BAT`.
pub fn find_battery(names: &Vec<String>) -> (r: Option<usize>)
    ensures
        match r {
            Some(i) => {
                &&& i < names@.len()
                &&& text::starts_with(names@[i as int]@, "BAT"@)
                &&& forall|k: int|
                    0 <= k < i ==> !text::starts_with((#[trigger] names@[k])@, "BAT"@)
            },
            None => forall|k: int|
                0 <= k < names@.len() ==> !text::starts_with((#[trigger] names@[k])@, "BAT"@),
        },
{
    let mut i: usize = 0;
    while i < names.len()
        invariant
            i <= names@.len(),
            forall|k: int| 0 <= k < i ==> !text::starts_with((#[trigger] names@[k])@, "BAT"@),
        decreases names.len() - i,
    {
        if text::str_starts_with(names[i].as_str(), "BAT") {
            return Some(i);
        }
        i = i + 1;
    }
    None
}

/// What the pill shows.
#[derive(Debug, PartialEq, Eq)]
pub struct BatteryPill {
    pub icon: char,
    pub tone: Tone,
    pub label: String,
}

/// The glyph for a state.
pub open spec fn icon_of(status: BatteryStatus, cap: u8) -> char {
    if status == BatteryStatus::Charging {
        '\u{f0084}'
    } else if cap <= 10 {
        '\u{f007a}'
    } else if cap <= 30 {
        '\u{f007c}'
    } else if cap <= 60 {
        '\u{f007e}'
    } else if cap <= 90 {
        '\u{f0080}'
    } else {
        '\u{f0079}'
    }
}

/// The colour for a state: a low battery warns even while it charges.
pub open spec fn tone_of(status: BatteryStatus, cap: u8) -> Tone {
    if cap <= 10 {
        Tone::Urgent
    } else if cap <= 25 {
        Tone::Warning
    } else if status == BatteryStatus::Charging {
        Tone::Success
    } else {
        Tone::FgDim
    }
}

/// The battery's last reading.
#[derive(Debug)]
pub struct BatteryModule {
    pub capacity: Option<u8>,
    pub status: BatteryStatus,
    pub device: Option<String>,
}

/// Reads the battery from what its two files hold; without a device there is
/// nothing to read.
pub fn read_battery(device: bool, capacity: Option<&str>, status: Option<&str>) -> (r: (
    Option<u8>,
    BatteryStatus,
))
    ensures
        capacity_value(r.0) == (if device {
            capacity_of(text::opt_str(capacity))
        } else {
            None
        }),
        r.1 == (if device {
            status_of(text::opt_str(status))
        } else {
            BatteryStatus::Unknown
        }),
{
    if !device {
        return (None, BatteryStatus::Unknown);
    }
    let cap: Option<u8> = match capacity {
        Some(c) => {
            let v = text::chars_of(c);
            match numeral::parse_up_to(text::trimmed(v.as_slice()), 255) {
                Some(n) => Some(n as u8),
                None => None,
            }
        },
        None => None,
    };
    let st = match status {
        Some(c) => {
            let word = text::trim_string(c);
            if text::str_eq(word.as_str(), "Charging") {
                BatteryStatus::Charging
            } else if text::str_eq(word.as_str(), "Full") {
                BatteryStatus::Full
            } else if text::str_eq(word.as_str(), "Discharging") || text::str_eq(
                word.as_str(),
                "Not charging",
            ) {
                BatteryStatus::Discharging
            } else {
                BatteryStatus::Unknown
            }
        },
        None => BatteryStatus::Unknown,
    };
    (cap, st)
}

impl BatteryModule {
    /// The module with its first reading.
    pub fn new(device: Option<String>, capacity: Option<&str>, status: Option<&str>) -> (r: Self)
        ensures
            r.device == device,
            capacity_value(r.capacity) == (if device is Some {
                capacity_of(text::opt_str(capacity))
            } else {
                None
            }),
            r.status == (if device is Some {
                status_of(text::opt_str(status))
            } else {
                BatteryStatus::Unknown
            }),
    {
        let (cap, st) = read_battery(device.is_some(), capacity, status);
        BatteryModule { capacity: cap, status: st, device }
    }

    /// Takes a reading and returns whether the pill has to be drawn again.
    pub fn update(&mut self, capacity: Option<u8>, status: BatteryStatus) -> (changed: bool)
        ensures
            final(self).capacity == capacity,
            final(self).status == status,
            final(self).device == old(self).device,
            changed == (old(self).capacity != capacity || old(self).status != status),
    {
        let same = match (self.capacity, capacity) {
            (Some(a), Some(b)) => a == b,
            (None, None) => true,
            _ => false,
        };
        if !same || self.status != status {
            self.capacity = capacity;
            self.status = status;
            true
        } else {
            false
        }
    }

    /// The pill; nothing is drawn without a capacity.
    pub fn pill(&self) -> (r: Option<BatteryPill>)
        ensures
            match (r, self.capacity) {
                (Some(p), Some(cap)) => {
                    &&& p.icon == icon_of(self.status, cap)
                    &&& p.tone == tone_of(self.status, cap)
                    &&& p.label@ == theme::pct_text(cap as nat)
                },
                (None, None) => true,
                _ => false,
            },
    {
        match self.capacity {
            Some(cap) => {
                let icon = if self.status == BatteryStatus::Charging {
                    '\u{f0084}'
                } else if cap <= 10 {
                    '\u{f007a}'
                } else if cap <= 30 {
                    '\u{f007c}'
                } else if cap <= 60 {
                    '\u{f007e}'
                } else if cap <= 90 {
                    '\u{f0080}'
                } else {
                    '\u{f0079}'
                };
                let tone = if cap <= 10 {
                    Tone::Urgent
                } else if cap <= 25 {
                    Tone::Warning
                } else if self.status == BatteryStatus::Charging {
                    Tone::Success
                } else {
                    Tone::FgDim
                };
                Some(BatteryPill { icon, tone, label: theme::pct_label(cap as u32) })
            },
            None => None,
        }
    }
}

/// A fuller battery never looks emptier: the icon changes only from step to
/// step, at 10, 30, 60 and 90 per cent, and while it charges it says so.
pub proof fn law_battery_icon(status: BatteryStatus, a: u8, b: u8)
    ensures
        status == BatteryStatus::Charging ==> icon_of(status, a) == icon_of(status, b),
        status != BatteryStatus::Charging ==> (icon_of(status, a) == icon_of(status, b) <==> (a
            <= 10 <==> b <= 10) && (a <= 30 <==> b <= 30) && (a <= 60 <==> b <= 60) && (a <= 90
            <==> b <= 90)),
        status != BatteryStatus::Charging ==> icon_of(status, a) != icon_of(
            BatteryStatus::Charging,
            a,
        ),
{
}

/// Up to 10 per cent is urgent and up to 25 a warning, whatever the state; above
/// that a charging battery looks well and any other plain.
pub proof fn law_battery_tone(status: BatteryStatus, cap: u8)
    ensures
        tone_of(status, cap) == Tone::Urgent <==> cap <= 10,
        tone_of(status, cap) == Tone::Warning <==> 10 < cap <= 25,
        cap > 25 ==> (tone_of(status, cap) == Tone::Success <==> status == BatteryStatus::Charging),
        cap > 25 && status != BatteryStatus::Charging ==> tone_of(status, cap) == Tone::FgDim,
{
}

/// The words that name the states, with white space round them or not.
pub proof fn law_battery_words(content: Seq<char>)
    ensures
        status_of(Some(content)) == BatteryStatus::Charging <==> text::trim(content) == "Charging"@,
        status_of(Some(content)) == BatteryStatus::Full <==> text::trim(content) == "Full"@,
        status_of(Some(content)) == BatteryStatus::Discharging <==> text::trim(content)
            == "Discharging"@ || text::trim(content) == "Not charging"@,
        status_of(None) == BatteryStatus::Unknown,
{
    reveal_strlit("Charging");
    reveal_strlit("Full");
    reveal_strlit("Discharging");
    reveal_strlit("Not charging");
    assert("Charging"@.len() == 8);
    assert("Full"@.len() == 4);
    assert("Discharging"@.len() == 11);
    assert("Not charging"@.len() == 12);
}

} // verus!
