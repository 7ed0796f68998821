//! The backlight pill.

use vstd::prelude::*;
use vstd::string::*;

use crate::numeral;
use crate::text;
use crate::zbar::theme;

verus! {

/// The level that one of the backlight's files holds.
pub open spec fn level_of(content: Option<Seq<char>>) -> Option<nat> {
    match content {
        Some(c) => numeral::parse_unsigned(text::trim(c), u32::MAX as nat),
        None => None,
    }
}

/// A level as a number.
pub open spec fn level_value(v: Option<u32>) -> Option<nat> {
    match v {
        Some(n) => Some(n as nat),
        None => None,
    }
}

/// Reads a level.
pub fn parse_level(content: Option<&str>) -> (r: Option<u32>)
    ensures
        level_value(r) == level_of(text::opt_str(content)),
{
    match content {
        Some(c) => {
            let v = text::chars_of(c);
            match numeral::parse_up_to(text::trimmed(v.as_slice()), 0xffff_ffff) {
                Some(n) => Some(n as u32),
                None => None,
            }
        },
        None => None,
    }
}

/// The share of `max` that `level` is, rounded down.
///
/// Without a range or a level there is no share.
pub fn read_brightness(level: Option<u32>, max: u32) -> (r: Option<u32>)
    requires
        level is Some ==> level->0 * 100 <= u32::MAX,
    ensures
        match level {
            Some(cur) => if max == 0 {
                r is None
            } else {
                r == Some(((cur * 100) / max as int) as u32)
            },
            None => r is None,
        },
{
    if max == 0 {
        return None;
    }
    match level {
        Some(cur) => Some((cur * 100) / max),
        None => None,
    }
}

/// The glyph for a share.
pub open spec fn icon_of(pct: u32) -> char {
    if pct <= 30 {
        '\u{f00de}'
    } else if pct <= 70 {
        '\u{f00df}'
    } else {
        '\u{f00e0}'
    }
}

/// The backlight's last reading.
#[derive(Debug)]
pub struct BrightnessModule {
    pub percent: Option<u32>,
    pub device: Option<String>,
    pub max_brightness: u32,
}

impl BrightnessModule {
    /// The module with its first reading: `max` holds the `max_brightness`
    /// file, `level` the reading of the `brightness` file.
    pub fn new(device: Option<String>, max: Option<&str>, level: Option<u32>) -> (r: Self)
        requires
            level is Some ==> level->0 * 100 <= u32::MAX,
        ensures
            r.device == device,
            r.max_brightness == (match level_of(text::opt_str(max)) {
                Some(m) => if device is Some {
                    m as int
                } else {
                    0
                },
                None => 0,
            }),
            r.percent == (if device is None || r.max_brightness == 0 || level is None {
                None::<u32>
            } else {
                Some(((level->0 * 100) / r.max_brightness as int) as u32)
            }),
    {
        let max_brightness: u32 = if device.is_some() {
            match parse_level(max) {
                Some(m) => m,
                None => 0,
            }
        } else {
            0
        };
        let percent = if device.is_some() {
            read_brightness(level, max_brightness)
        } else {
            None
        };
        BrightnessModule { percent, device, max_brightness }
    }

    /// Takes a reading and returns whether the pill has to be drawn again.
    pub fn update(&mut self, percent: Option<u32>) -> (changed: bool)
        ensures
            *final(self) == (BrightnessModule { percent, ..*old(self) }),
            changed == (old(self).percent != percent),
    {
        let same = match (self.percent, percent) {
            (Some(a), Some(b)) => a == b,
            (None, None) => true,
            _ => false,
        };
        if !same {
            self.percent = percent;
        }
        !same
    }

    /// The pill's glyph and label; nothing is drawn without a reading.
    pub fn pill(&self) -> (r: Option<(char, String)>)
        ensures
            match (r, self.percent) {
                (Some(p), Some(pct)) => p.0 == icon_of(pct) && p.1@ == theme::pct_text(pct as nat),
                (None, None) => true,
                _ => false,
            },
    {
        match self.percent {
            Some(pct) => {
                let icon = if pct <= 30 {
                    '\u{f00de}'
                } else if pct <= 70 {
                    '\u{f00df}'
                } else {
                    '\u{f00e0}'
                };
                Some((icon, theme::pct_label(pct)))
            },
            None => None,
        }
    }
}

/// The icon changes at 30 and at 70 per cent.
pub proof fn law_brightness_icon(a: u32, b: u32)
    ensures
        icon_of(a) == icon_of(b) <==> (a <= 30 <==> b <= 30) && (a <= 70 <==> b <= 70),
{
}

/// A level is the number in the file, with white space round it or not.
pub proof fn law_level(n: nat, content: Seq<char>)
    ensures
        text::trim(content) == numeral::decimal(n) && n <= u32::MAX ==> level_of(Some(content))
            == Some(n),
        level_of(None) is None,
{
    numeral::law_decimal_round_trip(n, u32::MAX as nat);
}

/// The brightness is the share of the level in the highest one, in per cent,
/// rounded down; without a highest level there is none.
pub proof fn law_brightness_share(cur: u32, max: u32, r: Option<u32>)
    requires
        cur * 100 <= u32::MAX,
        call_ensures(read_brightness, (Some(cur), max), r),
    ensures
        r is None <==> max == 0,
        r is Some ==> r->0 * max <= cur * 100 < (r->0 + 1) * max,
        max > 0 && cur == max ==> r == Some(100u32),
{
    if max > 0 {
        let q = (cur * 100) / max as int;
        assert(q * max <= cur * 100 < (q + 1) * max && 0 <= q <= cur * 100) by (nonlinear_arith)
            requires
                max > 0,
                q == (cur * 100) / max as int,
                cur >= 0,
        ;
        if cur == max {
            assert(q == 100) by (nonlinear_arith)
                requires
                    max > 0,
                    q == (cur * 100) / max as int,
                    cur == max,
            ;
        }
    }
}

} // verus!
