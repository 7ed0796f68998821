//! The volume pill: what the mixer's tools print.

use vstd::prelude::*;
use vstd::string::*;

use crate::numeral;
use crate::text;
use crate::zbar::theme;
use crate::zbar::theme::Tone;

verus! {

/// The percentage in what `pactl get-sink-volume` prints: the number before
/// the percent sign in the second of the parts that slashes separate.
pub open spec fn pactl_percent(output: Seq<char>) -> Option<nat> {
    let parts = text::split(output, '/');
    if parts.len() < 2 {
        None
    } else {
        numeral::parse_unsigned(
            text::trim_end_matches(text::trim(parts[1]), seq!['%']),
            u32::MAX as nat,
        )
    }
}

/// A percentage as a number.
pub open spec fn percent_value(p: Option<u32>) -> Option<nat> {
    match p {
        Some(v) => Some(v as nat),
        None => None,
    }
}

/// Reads what `pactl get-sink-volume` and `pactl get-sink-mute` print.
pub fn read_pactl(volume: &str, mute: &str) -> (r: (Option<u32>, bool))
    ensures
        percent_value(r.0) == pactl_percent(volume@),
        r.1 == text::contains(mute@, "yes"@),
{
    let parts = text::split_at_char(text::chars_of(volume).as_slice(), '/');
    let percent: Option<u32> = if parts.len() < 2 {
        None
    } else {
        let sign: Vec<char> = vec!['%'];
        proof {
            assert(text::split(volume@, '/')[1] == parts@[1]@);
            assert(sign@ == seq!['%']);
        }
        let number = text::stripped_end(text::trimmed(parts[1].as_slice()), sign.as_slice());
        match numeral::parse_up_to(number, 0xffff_ffff) {
            Some(v) => Some(v as u32),
            None => None,
        }
    };
    (percent, text::str_contains(mute, "yes"))
}

/// What `wpctl get-volume` prints holds the volume as its second word, a
/// fraction, and a mark while the sink is muted.
pub fn wpctl_fields(output: &str) -> (r: (Option<String>, bool))
    ensures
        text::opt(r.0) == (if text::words(output@).len() >= 2 {
            Some(text::words(output@)[1])
        } else {
            None
        }),
        r.1 == text::contains(output@, "[MUTED]"@),
{
    let words = text::split_words(text::chars_of(output).as_slice());
    let volume = if words.len() >= 2 {
        proof {
            assert(text::words(output@)[1] == words@[1]@);
        }
        Some(text::string_of(words[1].as_slice()))
    } else {
        None
    };
    (volume, text::str_contains(output, "[MUTED]"))
}

/// The reading to go by: that of `wpctl` where it gave one, else that of
/// `pactl`, else none.
pub fn read_volume(wpctl: Option<(Option<u32>, bool)>, pactl: Option<(Option<u32>, bool)>) -> (r: (
    Option<u32>,
    bool,
))
    ensures
        r == (match (wpctl, pactl) {
            (Some(w), _) => w,
            (None, Some(p)) => p,
            (None, None) => (None, false),
        }),
{
    match wpctl {
        Some(w) => w,
        None => match pactl {
            Some(p) => p,
            None => (None, false),
        },
    }
}

/// Whether a line of `pactl subscribe` is about a sink.
pub fn concerns_sink(line: &str) -> (r: bool)
    ensures
        r == text::contains(line@, " on sink #"@),
{
    text::str_contains(line, " on sink #")
}

/// What the pill shows.
#[derive(Debug, PartialEq, Eq)]
pub struct VolumePill {
    pub icon: char,
    pub icon_tone: Tone,
    pub text_tone: Tone,
    pub label: String,
}

/// The glyph and its colour.
pub open spec fn icon_of(percent: u32, muted: bool) -> (char, Tone) {
    if muted {
        ('\u{f075f}', Tone::Urgent)
    } else if percent == 0 {
        ('\u{f057f}', Tone::FgDim)
    } else if percent <= 50 {
        ('\u{f0580}', Tone::Accent)
    } else {
        ('\u{f057e}', Tone::Accent)
    }
}

/// The last reading of the default sink.
#[derive(Clone, Copy, Debug)]
pub struct VolumeModule {
    pub percent: Option<u32>,
    pub muted: bool,
}

impl VolumeModule {
    /// The module with its first reading.
    pub fn new(percent: Option<u32>, muted: bool) -> (r: Self)
        ensures
            r.percent == percent,
            r.muted == muted,
    {
        VolumeModule { percent, muted }
    }

    /// Takes a reading and returns whether the pill has to be drawn again.
    pub fn update(&mut self, percent: Option<u32>, muted: bool) -> (changed: bool)
        ensures
            final(self).percent == percent,
            final(self).muted == muted,
            changed == (old(self).percent != percent || old(self).muted != muted),
    {
        let same = match (self.percent, percent) {
            (Some(a), Some(b)) => a == b,
            (None, None) => true,
            _ => false,
        };
        if !same || self.muted != muted {
            self.percent = percent;
            self.muted = muted;
            true
        } else {
            false
        }
    }

    /// The pill; nothing is drawn without a percentage.
    pub fn pill(&self) -> (r: Option<VolumePill>)
        ensures
            match (r, self.percent) {
                (Some(p), Some(v)) => {
                    &&& (p.icon, p.icon_tone) == icon_of(v, self.muted)
                    &&& p.text_tone == (if self.muted {
                        Tone::Urgent
                    } else {
                        Tone::FgDim
                    })
                    &&& p.label@ == theme::pct_text(v as nat)
                },
                (None, None) => true,
                _ => false,
            },
    {
        match self.percent {
            Some(v) => {
                let (icon, icon_tone) = if self.muted {
                    ('\u{f075f}', Tone::Urgent)
                } else if v == 0 {
                    ('\u{f057f}', Tone::FgDim)
                } else if v <= 50 {
                    ('\u{f0580}', Tone::Accent)
                } else {
                    ('\u{f057e}', Tone::Accent)
                };
                let text_tone = if self.muted {
                    Tone::Urgent
                } else {
                    Tone::FgDim
                };
                Some(VolumePill { icon, icon_tone, text_tone, label: theme::pct_label(v) })
            },
            None => None,
        }
    }
}

/// The volume is the number between the first and the second slash, without the
/// white space round it and the per cent sign at its end.
pub proof fn law_volume_between_slashes(a: Seq<char>, b: Seq<char>, c: Seq<char>)
    requires
        !a.contains('/'),
        !b.contains('/'),
    ensures
        pactl_percent(a) is None,
        pactl_percent(a.push('/') + b) == numeral::parse_unsigned(
            text::trim_end_matches(text::trim(b), seq!['%']),
            u32::MAX as nat,
        ),
        pactl_percent(a.push('/') + (b.push('/') + c)) == numeral::parse_unsigned(
            text::trim_end_matches(text::trim(b), seq!['%']),
            u32::MAX as nat,
        ),
{
    text::law_parted_at_the_first(a, '/', b);
    text::law_parted_at_the_first(b, '/', c);
    text::law_parted_at_the_first(a, '/', b.push('/') + c);
}

/// What is muted looks urgent, whatever the volume; silence, up to 50 per cent
/// and above look different.
pub proof fn law_volume_icon(a: u32, b: u32)
    ensures
        icon_of(a, true) == icon_of(b, true),
        icon_of(a, true).1 == Tone::Urgent,
        icon_of(a, false) == icon_of(b, false) <==> (a == 0 <==> b == 0) && (a <= 50 <==> b <= 50),
        icon_of(a, false).1 == Tone::FgDim <==> a == 0,
        icon_of(a, false) != icon_of(a, true),
{
}

} // verus!
