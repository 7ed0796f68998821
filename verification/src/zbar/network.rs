//! The network pills and the popup with an interface's details.

use vstd::prelude::*;
use vstd::string::*;

use crate::sorting;
use crate::text;
use crate::zbar::net_info;
use crate::zbar::net_info::OperState;
use crate::zbar::net_worker::IfaceSnapshot;
use crate::zbar::net_worker::SnapView;
use crate::zbar::net_worker::same_snapshot;
use crate::zbar::theme::Tone;

verus! {

/// The text that stands where there is nothing to show.
pub open spec fn dash() -> Seq<char> {
    seq!['\u{2014}']
}

// ---------------------------------------------------------------------------
// Pills
// ---------------------------------------------------------------------------

/// One pill.
#[derive(Debug, PartialEq, Eq)]
pub struct NetPill {
    /// The interface; the pill that says there is none has no interface.
    pub index: Option<u32>,
    pub icon: char,
    pub icon_tone: Tone,
    pub text_tone: Tone,
    pub label: String,
    /// Whether the rates are shown beside the label.
    pub shows_rates: bool,
}

#[verifier::ext_equal]
pub struct PillView {
    pub index: Option<u32>,
    pub icon: char,
    pub icon_tone: Tone,
    pub text_tone: Tone,
    pub label: Seq<char>,
    pub shows_rates: bool,
}

impl View for NetPill {
    type V = PillView;

    open spec fn view(&self) -> PillView {
        PillView {
            index: self.index,
            icon: self.icon,
            icon_tone: self.icon_tone,
            text_tone: self.text_tone,
            label: self.label@,
            shows_rates: self.shows_rates,
        }
    }
}

/// A wireless interface is called by its network where that is known and not
/// empty, any other by its name.
pub open spec fn label_of(i: SnapView) -> Seq<char> {
    match i.wifi_ssid {
        Some(ssid) => if i.is_wireless && ssid.len() > 0 {
            ssid
        } else {
            i.name
        },
        None => i.name,
    }
}

/// What an interface is called.
pub fn physical_label(iface: &IfaceSnapshot) -> (r: String)
    ensures
        r@ == label_of(iface@),
{
    if iface.is_wireless {
        if let Some(ssid) = &iface.wifi_ssid {
            if !ssid.as_str().is_empty() {
                return ssid.clone();
            }
        }
    }
    iface.name.clone()
}

/// The glyph of an interface.
pub open spec fn icon_of(i: SnapView) -> char {
    if i.is_wireless {
        '\u{f0928}'
    } else {
        '\u{f0200}'
    }
}

/// The pill of an interface.
pub open spec fn pill_of(i: SnapView) -> PillView {
    let up = i.operstate == OperState::Up;
    PillView {
        index: Some(i.index),
        icon: icon_of(i),
        icon_tone: if up {
            Tone::Success
        } else {
            Tone::Urgent
        },
        text_tone: if up {
            Tone::FgDim
        } else {
            Tone::Urgent
        },
        label: label_of(i),
        shows_rates: up,
    }
}

/// The pill that says that there is no physical interface.
pub open spec fn off_pill() -> PillView {
    PillView {
        index: None,
        icon: '\u{f092d}',
        icon_tone: Tone::Urgent,
        text_tone: Tone::Urgent,
        label: "Off"@,
        shows_rates: false,
    }
}

/// The pills of the physical interfaces.
pub open spec fn physical_pills(v: Seq<SnapView>) -> Seq<PillView>
    decreases v.len(),
{
    if v.len() == 0 {
        Seq::empty()
    } else if v.last().is_physical {
        physical_pills(v.drop_last()).push(pill_of(v.last()))
    } else {
        physical_pills(v.drop_last())
    }
}

/// The pills shown.
pub open spec fn pills_of(v: Seq<SnapView>) -> Seq<PillView> {
    if physical_pills(v).len() == 0 {
        seq![off_pill()]
    } else {
        physical_pills(v)
    }
}

/// The interfaces that the bar knows.
#[derive(Debug)]
pub struct NetworkModule {
    pub interfaces: Vec<IfaceSnapshot>,
}

impl NetworkModule {
    /// The module before the first snapshot.
    pub fn new() -> (r: Self)
        ensures
            r.interfaces@.len() == 0,
    {
        NetworkModule { interfaces: Vec::new() }
    }

    /// Takes a snapshot and returns whether the pills have to be drawn again.
    pub fn snapshot(&mut self, list: Vec<IfaceSnapshot>) -> (changed: bool)
        ensures
            sorting::views(final(self).interfaces@) == sorting::views(list@),
            changed == (sorting::views(old(self).interfaces@) != sorting::views(list@)),
    {
        if !same_snapshot(&self.interfaces, &list) {
            self.interfaces = list;
            true
        } else {
            false
        }
    }

    /// The pills, in the order of the snapshot.
    pub fn pills(&self) -> (r: Vec<NetPill>)
        ensures
            sorting::views(r@) == pills_of(sorting::views(self.interfaces@)),
    {
        let mut out: Vec<NetPill> = Vec::new();
        let ghost all = sorting::views(self.interfaces@);
        let mut i: usize = 0;
        proof {
            assert(all.take(0) == Seq::<SnapView>::empty());
            assert(sorting::views(out@) =~= Seq::<PillView>::empty());
        }
        while i < self.interfaces.len()
            invariant
                all == sorting::views(self.interfaces@),
                i <= self.interfaces@.len(),
                sorting::views(out@) == physical_pills(all.take(i as int)),
            decreases self.interfaces.len() - i,
        {
            let iface = &self.interfaces[i];
            proof {
                assert(all.take(i + 1).drop_last() == all.take(i as int));
                assert(all.take(i + 1).last() == iface@);
            }
            if iface.is_physical {
                let up = iface.operstate.is_up();
                let ghost had = sorting::views(out@);
                let pill = NetPill {
                    index: Some(iface.index),
                    icon: if iface.is_wireless {
                        '\u{f0928}'
                    } else {
                        '\u{f0200}'
                    },
                    icon_tone: if up {
                        Tone::Success
                    } else {
                        Tone::Urgent
                    },
                    text_tone: if up {
                        Tone::FgDim
                    } else {
                        Tone::Urgent
                    },
                    label: physical_label(iface),
                    shows_rates: up,
                };
                out.push(pill);
                proof {
                    assert(sorting::views(out@) =~= had.push(pill@));
                }
            }
            i = i + 1;
        }
        proof {
            assert(all.take(i as int) == all);
        }
        if out.len() == 0 {
            out.push(
                NetPill {
                    index: None,
                    icon: '\u{f092d}',
                    icon_tone: Tone::Urgent,
                    text_tone: Tone::Urgent,
                    label: "Off".to_owned(),
                    shows_rates: false,
                },
            );
            proof {
                assert(sorting::views(out@) =~= seq![off_pill()]);
            }
        }
        out
    }
}

// ---------------------------------------------------------------------------
// The popup
// ---------------------------------------------------------------------------

/// The first interface for which `p` holds.
pub open spec fn first_such(v: Seq<SnapView>, p: spec_fn(SnapView) -> bool) -> Option<SnapView>
    decreases v.len(),
{
    if v.len() == 0 {
        None
    } else if p(v[0]) {
        Some(v[0])
    } else {
        first_such(v.skip(1), p)
    }
}

pub open spec fn physical_and_up() -> spec_fn(SnapView) -> bool {
    |i: SnapView| i.is_physical && i.operstate == OperState::Up
}

pub open spec fn up() -> spec_fn(SnapView) -> bool {
    |i: SnapView| i.operstate == OperState::Up
}

pub open spec fn has_index(index: u32) -> spec_fn(SnapView) -> bool {
    |i: SnapView| i.index == index
}

/// The interface to show unasked: the first physical one that is up, else the
/// first that is up, else the first.
pub open spec fn default_pick(v: Seq<SnapView>) -> Option<u32> {
    match (first_such(v, physical_and_up()), first_such(v, up())) {
        (Some(i), _) => Some(i.index),
        (None, Some(i)) => Some(i.index),
        (None, None) => if v.len() > 0 {
            Some(v[0].index)
        } else {
            None
        },
    }
}

/// The selection after a snapshot: it stays while its interface is listed.
pub open spec fn selection_after(v: Seq<SnapView>, selected: Option<u32>) -> Option<u32> {
    match selected {
        Some(s) => if first_such(v, has_index(s)) is Some {
            Some(s)
        } else {
            default_pick(v)
        },
        None => default_pick(v),
    }
}

fn pick_default(list: &Vec<IfaceSnapshot>) -> (r: Option<u32>)
    ensures
        r == default_pick(sorting::views(list@)),
{
    let ghost all = sorting::views(list@);
    let mut first_up: Option<u32> = None;
    let mut i: usize = 0;
    proof {
        assert(all.skip(0) == all);
    }
    while i < list.len()
        invariant
            all == sorting::views(list@),
            i <= list@.len(),
            first_such(all, physical_and_up()) == first_such(all.skip(i as int), physical_and_up()),
            match first_up {
                Some(u) => first_such(all, up()) is Some && first_such(all, up())->0.index == u,
                None => first_such(all, up()) == first_such(all.skip(i as int), up()),
            },
        decreases list.len() - i,
    {
        let iface = &list[i];
        proof {
            assert(all.skip(i as int)[0] == iface@);
            assert(all.skip(i as int).skip(1) == all.skip(i + 1));
        }
        if iface.operstate.is_up() {
            if iface.is_physical {
                return Some(iface.index);
            }
            if first_up.is_none() {
                first_up = Some(iface.index);
            }
        }
        i = i + 1;
    }
    match first_up {
        Some(u) => Some(u),
        None => if list.len() > 0 {
            proof {
                assert(all[0] == list@[0]@);
            }
            Some(list[0].index)
        } else {
            None
        },
    }
}

fn position_of_index(list: &Vec<IfaceSnapshot>, index: u32) -> (r: Option<usize>)
    ensures
        match r {
            Some(i) => i < list@.len() && first_such(sorting::views(list@), has_index(index)) == Some(
                list@[i as int]@,
            ),
            None => first_such(sorting::views(list@), has_index(index)) is None,
        },
{
    let ghost all = sorting::views(list@);
    let mut i: usize = 0;
    proof {
        assert(all.skip(0) == all);
    }
    while i < list.len()
        invariant
            all == sorting::views(list@),
            i <= list@.len(),
            first_such(all, has_index(index)) == first_such(all.skip(i as int), has_index(index)),
        decreases list.len() - i,
    {
        proof {
            assert(all.skip(i as int)[0] == list@[i as int]@);
            assert(all.skip(i as int).skip(1) == all.skip(i + 1));
        }
        if list[i].index == index {
            return Some(i);
        }
        i = i + 1;
    }
    None
}

/// One line of the details.
#[derive(Debug)]
pub enum DetailRow {
    /// The glyph, the name and the state in brackets.
    Head { icon: char, icon_tone: Tone, name: String, state: String, state_tone: Tone },
    Ssid(String),
    Mac(String),
    Ipv4(u32),
    NoIpv4,
    Ipv6(u128),
    NoIpv6,
    /// The current rates.
    Rates,
    /// The bytes received and sent.
    Totals { rx: String, tx: String },
}

pub enum RowView {
    Head { icon: char, icon_tone: Tone, name: Seq<char>, state: Seq<char>, state_tone: Tone },
    Ssid(Seq<char>),
    Mac(Seq<char>),
    Ipv4(u32),
    NoIpv4,
    Ipv6(u128),
    NoIpv6,
    Rates,
    Totals { rx: Seq<char>, tx: Seq<char> },
}

impl View for DetailRow {
    type V = RowView;

    open spec fn view(&self) -> RowView {
        match *self {
            DetailRow::Head { icon, icon_tone, name, state, state_tone } => RowView::Head {
                icon,
                icon_tone,
                name: name@,
                state: state@,
                state_tone,
            },
            DetailRow::Ssid(s) => RowView::Ssid(s@),
            DetailRow::Mac(s) => RowView::Mac(s@),
            DetailRow::Ipv4(a) => RowView::Ipv4(a),
            DetailRow::NoIpv4 => RowView::NoIpv4,
            DetailRow::Ipv6(a) => RowView::Ipv6(a),
            DetailRow::NoIpv6 => RowView::NoIpv6,
            DetailRow::Rates => RowView::Rates,
            DetailRow::Totals { rx, tx } => RowView::Totals { rx: rx@, tx: tx@ },
        }
    }
}

/// The colour for a state.
pub open spec fn state_tone(s: OperState) -> Tone {
    match s {
        OperState::Up => Tone::Success,
        OperState::Down => Tone::Urgent,
        OperState::Unknown => Tone::FgDim,
    }
}

pub open spec fn head_row(i: SnapView) -> RowView {
    RowView::Head {
        icon: icon_of(i),
        icon_tone: if i.operstate == OperState::Up {
            Tone::Success
        } else {
            Tone::FgDim
        },
        name: i.name,
        state: "["@ + i.operstate.name() + "]"@,
        state_tone: state_tone(i.operstate),
    }
}

pub open spec fn mac_row(i: SnapView) -> RowView {
    match i.mac {
        Some(m) => RowView::Mac(net_info::mac_text(m)),
        None => RowView::Mac(dash()),
    }
}

pub open spec fn ipv4_rows(i: SnapView) -> Seq<RowView> {
    if i.ipv4.len() == 0 {
        seq![RowView::NoIpv4]
    } else {
        i.ipv4.map_values(|a: u32| RowView::Ipv4(a))
    }
}

pub open spec fn ipv6_rows(i: SnapView) -> Seq<RowView> {
    if i.ipv6.len() == 0 {
        seq![RowView::NoIpv6]
    } else {
        i.ipv6.map_values(|a: u128| RowView::Ipv6(a))
    }
}

/// The lines that describe an interface.
pub open spec fn detail_rows(i: SnapView) -> Seq<RowView> {
    let ssid = match i.wifi_ssid {
        Some(s) => seq![RowView::Ssid(s)],
        None => Seq::<RowView>::empty(),
    };
    seq![head_row(i)] + ssid + seq![mac_row(i)] + ipv4_rows(i) + ipv6_rows(i) + seq![
        RowView::Rates,
        RowView::Totals {
            rx: "Rx "@ + net_info::bytes_text(i.rx_bytes as nat),
            tx: "Tx "@ + net_info::bytes_text(i.tx_bytes as nat),
        },
    ]
}

/// How a row of the list is drawn.
#[derive(Clone, Copy, Debug, PartialEq, Eq, Structural)]
pub enum RowStyle {
    Selected,
    Hovered,
    Plain,
}

/// What the popup shows.
#[derive(Debug)]
pub struct NetworkPopup {
    pub interfaces: Vec<IfaceSnapshot>,
    pub selected: Option<u32>,
    pub hovered: Option<u32>,
}

/// The interface whose details are shown: the hovered one, else the selected
/// one.
pub open spec fn active_of(
    v: Seq<SnapView>,
    hovered: Option<u32>,
    selected: Option<u32>,
) -> Option<SnapView> {
    match (hovered, selected) {
        (Some(h), _) => first_such(v, has_index(h)),
        (None, Some(s)) => first_such(v, has_index(s)),
        (None, None) => None,
    }
}

fn push_row(out: &mut Vec<DetailRow>, row: DetailRow)
    ensures
        sorting::views(final(out)@) == sorting::views(old(out)@).push(row@),
{
    let ghost had = sorting::views(out@);
    out.push(row);
    proof {
        assert(sorting::views(out@) =~= had.push(row@));
    }
}

fn concat3(a: &str, b: &str, c: &str) -> (r: String)
    ensures
        r@ == a@ + b@ + c@,
{
    let mut s = a.to_owned();
    s.push_str(b);
    s.push_str(c);
    s
}

impl NetworkPopup {
    /// The popup before the first snapshot.
    pub fn new() -> (r: Self)
        ensures
            r.interfaces@.len() == 0,
            r.selected is None,
            r.hovered is None,
    {
        NetworkPopup { interfaces: Vec::new(), selected: None, hovered: None }
    }

    /// Takes a snapshot and returns whether the popup has to be drawn again.
    pub fn handle_snapshot(&mut self, list: Vec<IfaceSnapshot>) -> (changed: bool)
        ensures
            final(self).hovered == old(self).hovered,
            final(self).selected == selection_after(sorting::views(list@), old(self).selected),
            sorting::views(final(self).interfaces@) == sorting::views(list@),
            changed == (sorting::views(old(self).interfaces@) != sorting::views(list@)),
    {
        let keep = match self.selected {
            Some(s) => position_of_index(&list, s).is_some(),
            None => false,
        };
        if !keep {
            self.selected = pick_default(&list);
        }
        if !same_snapshot(&self.interfaces, &list) {
            self.interfaces = list;
            true
        } else {
            false
        }
    }

    /// The pointer is over the row of `index`; returns whether that is new.
    pub fn hover(&mut self, index: u32) -> (changed: bool)
        ensures
            *final(self) == (NetworkPopup { hovered: Some(index), ..*old(self) }),
            changed == (old(self).hovered != Some(index)),
    {
        let same = match self.hovered {
            Some(h) => h == index,
            None => false,
        };
        if !same {
            self.hovered = Some(index);
        }
        !same
    }

    /// The row of `index` was clicked.
    pub fn select(&mut self, index: u32)
        ensures
            *final(self) == (NetworkPopup { selected: Some(index), ..*old(self) }),
    {
        self.selected = Some(index);
    }

    /// How the row of `index` is drawn.
    pub fn row_style(&self, index: u32) -> (r: RowStyle)
        ensures
            r == (if self.selected == Some(index) {
                RowStyle::Selected
            } else if self.hovered == Some(index) {
                RowStyle::Hovered
            } else {
                RowStyle::Plain
            }),
    {
        if let Some(s) = self.selected {
            if s == index {
                return RowStyle::Selected;
            }
        }
        if let Some(h) = self.hovered {
            if h == index {
                return RowStyle::Hovered;
            }
        }
        RowStyle::Plain
    }

    /// The interface whose details are shown.
    pub fn active_iface(&self) -> (r: Option<&IfaceSnapshot>)
        ensures
            match r {
                Some(i) => active_of(
                    sorting::views(self.interfaces@),
                    self.hovered,
                    self.selected,
                ) == Some(i@),
                None => active_of(
                    sorting::views(self.interfaces@),
                    self.hovered,
                    self.selected,
                ) is None,
            },
    {
        let index = match self.hovered {
            Some(h) => h,
            None => match self.selected {
                Some(s) => s,
                None => {
                    return None;
                },
            },
        };
        match position_of_index(&self.interfaces, index) {
            Some(i) => Some(&self.interfaces[i]),
            None => None,
        }
    }

    /// The details of the active interface, if there is one.
    pub fn details(&self) -> (r: Option<Vec<DetailRow>>)
        ensures
            match (
                r,
                active_of(sorting::views(self.interfaces@), self.hovered, self.selected),
            ) {
                (Some(rows), Some(i)) => sorting::views(rows@) == detail_rows(i),
                (None, None) => true,
                _ => false,
            },
    {
        match self.active_iface() {
            Some(iface) => Some(describe(iface)),
            None => None,
        }
    }
}

/// The lines that describe an interface.
pub fn describe(iface: &IfaceSnapshot) -> (r: Vec<DetailRow>)
    ensures
        sorting::views(r@) == detail_rows(iface@),
{
    let mut out: Vec<DetailRow> = Vec::new();
    proof {
        assert(sorting::views(out@) =~= Seq::<RowView>::empty());
    }
    let icon_tone = if iface.operstate.is_up() {
        Tone::Success
    } else {
        Tone::FgDim
    };
    let tone = match iface.operstate {
        OperState::Up => Tone::Success,
        OperState::Down => Tone::Urgent,
        OperState::Unknown => Tone::FgDim,
    };
    push_row(
        &mut out,
        DetailRow::Head {
            icon: if iface.is_wireless {
                '\u{f0928}'
            } else {
                '\u{f0200}'
            },
            icon_tone,
            name: iface.name.clone(),
            state: concat3("[", iface.operstate.as_str(), "]"),
            state_tone: tone,
        },
    );
    let ghost ssid = match iface@.wifi_ssid {
        Some(s) => seq![RowView::Ssid(s)],
        None => Seq::<RowView>::empty(),
    };
    proof {
        assert(sorting::views(out@) =~= seq![head_row(iface@)]);
    }
    if let Some(s) = &iface.wifi_ssid {
        push_row(&mut out, DetailRow::Ssid(s.clone()));
    }
    proof {
        assert(sorting::views(out@) =~= seq![head_row(iface@)] + ssid);
    }
    let mac = match iface.mac {
        Some(m) => net_info::format_mac(m),
        None => {
            let mut s = String::new();
            s.push('\u{2014}');
            s
        },
    };
    push_row(&mut out, DetailRow::Mac(mac));
    let ghost base = seq![head_row(iface@)] + ssid + seq![mac_row(iface@)];
    proof {
        assert(sorting::views(out@) =~= base);
    }
    let ghost four = iface@.ipv4.map_values(|a: u32| RowView::Ipv4(a));
    if iface.ipv4.len() == 0 {
        push_row(&mut out, DetailRow::NoIpv4);
    }
    let mut i: usize = 0;
    while i < iface.ipv4.len()
        invariant
            i <= iface.ipv4@.len(),
            four == iface.ipv4@.map_values(|a: u32| RowView::Ipv4(a)),
            iface.ipv4@.len() > 0 ==> sorting::views(out@) =~= base + four.take(i as int),
            iface.ipv4@.len() == 0 ==> sorting::views(out@) =~= base.push(RowView::NoIpv4),
        decreases iface.ipv4.len() - i,
    {
        push_row(&mut out, DetailRow::Ipv4(iface.ipv4[i]));
        proof {
            assert(four.take(i + 1) =~= four.take(i as int).push(four[i as int]));
        }
        i = i + 1;
    }
    proof {
        assert(four.take(i as int) =~= four);
        assert(sorting::views(out@) =~= base + ipv4_rows(iface@));
    }
    let ghost base6 = base + ipv4_rows(iface@);
    let ghost six = iface@.ipv6.map_values(|a: u128| RowView::Ipv6(a));
    if iface.ipv6.len() == 0 {
        push_row(&mut out, DetailRow::NoIpv6);
    }
    let mut j: usize = 0;
    while j < iface.ipv6.len()
        invariant
            j <= iface.ipv6@.len(),
            six == iface.ipv6@.map_values(|a: u128| RowView::Ipv6(a)),
            iface.ipv6@.len() > 0 ==> sorting::views(out@) =~= base6 + six.take(j as int),
            iface.ipv6@.len() == 0 ==> sorting::views(out@) =~= base6.push(RowView::NoIpv6),
        decreases iface.ipv6.len() - j,
    {
        push_row(&mut out, DetailRow::Ipv6(iface.ipv6[j]));
        proof {
            assert(six.take(j + 1) =~= six.take(j as int).push(six[j as int]));
        }
        j = j + 1;
    }
    proof {
        assert(six.take(j as int) =~= six);
        assert(sorting::views(out@) =~= base6 + ipv6_rows(iface@));
    }
    push_row(&mut out, DetailRow::Rates);
    let rx = net_info::format_bytes(iface.rx_bytes);
    let tx = net_info::format_bytes(iface.tx_bytes);
    push_row(
        &mut out,
        DetailRow::Totals {
            rx: text::concat2("Rx ", rx.as_str()),
            tx: text::concat2("Tx ", tx.as_str()),
        },
    );
    proof {
        assert(sorting::views(out@) =~= detail_rows(iface@));
    }
    out
}

/// A snapshot that still lists the selected interface leaves the selection
/// alone.
pub proof fn law_listed_selection_stays(v: Seq<SnapView>, k: int)
    requires
        0 <= k < v.len(),
    ensures
        selection_after(v, Some(v[k].index)) == Some(v[k].index),
{
    lemma_first_such_exists(v, has_index(v[k].index), k);
}

/// After a snapshot that is not empty something listed is selected.
pub proof fn law_selection_is_listed(v: Seq<SnapView>, selected: Option<u32>)
    requires
        v.len() > 0,
    ensures
        selection_after(v, selected) is Some,
        exists|k: int| 0 <= k < v.len() && v[k].index == selection_after(v, selected)->0,
{
    lemma_first_such_listed(v, physical_and_up());
    lemma_first_such_listed(v, up());
    if let Some(s) = selected {
        lemma_first_such_listed(v, has_index(s));
    }
    assert(v[0].index == v[0].index);
}

proof fn lemma_first_such_exists(v: Seq<SnapView>, p: spec_fn(SnapView) -> bool, k: int)
    requires
        0 <= k < v.len(),
        p(v[k]),
    ensures
        first_such(v, p) is Some,
    decreases v.len(),
{
    if !p(v[0]) {
        assert(v.skip(1)[k - 1] == v[k]);
        lemma_first_such_exists(v.skip(1), p, k - 1);
    }
}

proof fn lemma_first_such_listed(v: Seq<SnapView>, p: spec_fn(SnapView) -> bool)
    ensures
        match first_such(v, p) {
            Some(i) => p(i) && exists|k: int| 0 <= k < v.len() && v[k] == i,
            None => true,
        },
    decreases v.len(),
{
    if v.len() > 0 && !p(v[0]) {
        lemma_first_such_listed(v.skip(1), p);
        if let Some(i) = first_such(v.skip(1), p) {
            let k = choose|k: int| 0 <= k < v.skip(1).len() && v.skip(1)[k] == i;
            assert(v[k + 1] == i);
        }
    } else if v.len() > 0 {
        assert(v[0] == v[0]);
    }
}

proof fn lemma_first_such_is(v: Seq<SnapView>, p: spec_fn(SnapView) -> bool, k: int)
    requires
        0 <= k < v.len(),
        p(v[k]),
        forall|j: int| 0 <= j < k ==> !p(#[trigger] v[j]),
    ensures
        first_such(v, p) == Some(v[k]),
    decreases v.len(),
{
    if k > 0 {
        let t = v.skip(1);
        assert(!p(v[0]));
        assert(t[k - 1] == v[k]);
        assert forall|j: int| 0 <= j < k - 1 implies !p(#[trigger] t[j]) by {
            assert(t[j] == v[j + 1]);
        }
        lemma_first_such_is(t, p, k - 1);
    }
}

proof fn lemma_first_such_none(v: Seq<SnapView>, p: spec_fn(SnapView) -> bool)
    requires
        forall|j: int| 0 <= j < v.len() ==> !p(#[trigger] v[j]),
    ensures
        first_such(v, p) is None,
    decreases v.len(),
{
    if v.len() > 0 {
        let t = v.skip(1);
        assert(!p(v[0]));
        assert forall|j: int| 0 <= j < t.len() implies !p(#[trigger] t[j]) by {
            assert(t[j] == v[j + 1]);
        }
        lemma_first_such_none(t, p);
    }
}

/// Where no listed interface is selected, the first physical one that is up is
/// taken; else the first that is up; else the first.
pub proof fn law_default_selection(v: Seq<SnapView>, k: int)
    requires
        0 <= k < v.len(),
    ensures
        v[k].is_physical && v[k].operstate == OperState::Up && (forall|j: int|
            0 <= j < k ==> !((#[trigger] v[j]).is_physical && v[j].operstate == OperState::Up))
            ==> selection_after(v, None) == Some(v[k].index),
        (forall|j: int|
            0 <= j < v.len() ==> !((#[trigger] v[j]).is_physical && v[j].operstate
                == OperState::Up)) && v[k].operstate == OperState::Up && (forall|j: int|
            0 <= j < k ==> (#[trigger] v[j]).operstate != OperState::Up) ==> selection_after(
            v,
            None,
        ) == Some(v[k].index),
        (forall|j: int| 0 <= j < v.len() ==> (#[trigger] v[j]).operstate != OperState::Up)
            ==> selection_after(v, None) == Some(v[0].index),
        forall|s: u32|
            (forall|j: int| 0 <= j < v.len() ==> (#[trigger] v[j]).index != s)
                ==> #[trigger] selection_after(v, Some(s)) == selection_after(v, None),
{
    let p = physical_and_up();
    let u = up();
    if v[k].is_physical && v[k].operstate == OperState::Up && (forall|j: int|
        0 <= j < k ==> !((#[trigger] v[j]).is_physical && v[j].operstate == OperState::Up)) {
        lemma_first_such_is(v, p, k);
    }
    if forall|j: int|
        0 <= j < v.len() ==> !((#[trigger] v[j]).is_physical && v[j].operstate == OperState::Up) {
        lemma_first_such_none(v, p);
    }
    if v[k].operstate == OperState::Up && (forall|j: int|
        0 <= j < k ==> (#[trigger] v[j]).operstate != OperState::Up) {
        lemma_first_such_is(v, u, k);
    }
    if forall|j: int| 0 <= j < v.len() ==> (#[trigger] v[j]).operstate != OperState::Up {
        lemma_first_such_none(v, p);
        lemma_first_such_none(v, u);
    }
    assert forall|s: u32|
        (forall|j: int| 0 <= j < v.len() ==> (#[trigger] v[j]).index
            != s) implies #[trigger] selection_after(v, Some(s)) == selection_after(v, None) by {
        lemma_first_such_none(v, has_index(s));
    }
}

/// The details are those of the interface that the pointer is on, else of the
/// selected one: the first of that index.
pub proof fn law_details_follow_the_pointer(v: Seq<SnapView>, k: int, selected: Option<u32>)
    requires
        0 <= k < v.len(),
        forall|j: int| 0 <= j < k ==> (#[trigger] v[j]).index != v[k].index,
    ensures
        active_of(v, Some(v[k].index), selected) == Some(v[k]),
        active_of(v, None, Some(v[k].index)) == Some(v[k]),
        active_of(v, None, None) is None,
{
    lemma_first_such_is(v, has_index(v[k].index), k);
}

proof fn lemma_physical_pills(v: Seq<SnapView>)
    ensures
        forall|p: PillView| #[trigger]
            physical_pills(v).contains(p) <==> exists|k: int|
                0 <= k < v.len() && (#[trigger] v[k]).is_physical && p == pill_of(v[k]),
    decreases v.len(),
{
    if v.len() > 0 {
        let t = v.drop_last();
        let n = v.len() - 1;
        lemma_physical_pills(t);
        assert(v[n] == v.last());
        sorting::lemma_push_holds(physical_pills(t), pill_of(v.last()));
        assert forall|p: PillView| #[trigger] physical_pills(v).contains(p) <==> exists|k: int|
            0 <= k < v.len() && (#[trigger] v[k]).is_physical && p == pill_of(v[k]) by {
            if physical_pills(t).contains(p) {
                let k = choose|k: int|
                    0 <= k < t.len() && (#[trigger] t[k]).is_physical && p == pill_of(t[k]);
                assert(v[k] == t[k]);
            }
            if exists|k: int|
                0 <= k < v.len() && (#[trigger] v[k]).is_physical && p == pill_of(v[k]) {
                let k = choose|k: int|
                    0 <= k < v.len() && (#[trigger] v[k]).is_physical && p == pill_of(v[k]);
                if k < n {
                    assert(t[k] == v[k]);
                }
            }
        }
    }
}

/// The bar shows one pill for each physical interface and none for another; if
/// there is none at all it says so.
pub proof fn law_pills_are_the_physical_interfaces(v: Seq<SnapView>)
    ensures
        forall|k: int|
            0 <= k < v.len() && (#[trigger] v[k]).is_physical ==> pills_of(v).contains(
                pill_of(v[k]),
            ),
        (exists|k: int| 0 <= k < v.len() && (#[trigger] v[k]).is_physical) ==> forall|p: PillView|
         #[trigger]
            pills_of(v).contains(p) ==> exists|k: int|
                0 <= k < v.len() && (#[trigger] v[k]).is_physical && p == pill_of(v[k]),
        (forall|k: int| 0 <= k < v.len() ==> !(#[trigger] v[k]).is_physical) ==> pills_of(v).len()
            == 1 && pills_of(v)[0].index is None && pills_of(v)[0].label == "Off"@
            && !pills_of(v)[0].shows_rates,
{
    lemma_physical_pills(v);
    let pills = physical_pills(v);
    if pills.len() > 0 {
        assert(pills.contains(pills[0]));
    }
    if exists|k: int| 0 <= k < v.len() && (#[trigger] v[k]).is_physical {
        let k = choose|k: int| 0 <= k < v.len() && (#[trigger] v[k]).is_physical;
        assert(pills.contains(pill_of(v[k])));
    }
}

/// A pill belongs to its interface. It is labelled with the network's name if
/// the interface is wireless and has one, else with the interface's; an
/// interface that is up looks well and shows its rates, another looks urgent.
pub proof fn law_pill_says_how_the_interface_is(i: SnapView)
    ensures
        ({
            let p = pill_of(i);
            &&& p.index == Some(i.index)
            &&& p.label == (if i.is_wireless && i.wifi_ssid is Some && i.wifi_ssid->0.len() > 0 {
                i.wifi_ssid->0
            } else {
                i.name
            })
            &&& p.icon == (if i.is_wireless {
                '\u{f0928}'
            } else {
                '\u{f0200}'
            })
            &&& p.shows_rates <==> i.operstate == OperState::Up
            &&& i.operstate == OperState::Up ==> p.icon_tone == Tone::Success && p.text_tone
                == Tone::FgDim
            &&& i.operstate != OperState::Up ==> p.icon_tone == Tone::Urgent && p.text_tone
                == Tone::Urgent
        }),
{
}

/// The details of an interface name it first and its totals last, and hold each
/// of its addresses, or say that it has none.
pub proof fn law_details_hold_every_address(i: SnapView)
    ensures
        ({
            let d = detail_rows(i);
            &&& d.len() > 0
            &&& d[0] == RowView::Head {
                icon: icon_of(i),
                icon_tone: if i.operstate == OperState::Up {
                    Tone::Success
                } else {
                    Tone::FgDim
                },
                name: i.name,
                state: "["@ + i.operstate.name() + "]"@,
                state_tone: state_tone(i.operstate),
            }
            &&& forall|a: u32| #[trigger]
                i.ipv4.contains(a) <==> d.contains(RowView::Ipv4(a))
            &&& forall|a: u128| #[trigger]
                i.ipv6.contains(a) <==> d.contains(RowView::Ipv6(a))
            &&& d.contains(RowView::NoIpv4) <==> i.ipv4.len() == 0
            &&& d.contains(RowView::NoIpv6) <==> i.ipv6.len() == 0
            &&& forall|s: Seq<char>| #[trigger]
                d.contains(RowView::Ssid(s)) <==> i.wifi_ssid == Some(s)
            &&& d.contains(RowView::Rates)
            &&& d.last() == RowView::Totals {
                rx: "Rx "@ + net_info::bytes_text(i.rx_bytes as nat),
                tx: "Tx "@ + net_info::bytes_text(i.tx_bytes as nat),
            }
        }),
{
    let d = detail_rows(i);
    let ssid = match i.wifi_ssid {
        Some(s) => seq![RowView::Ssid(s)],
        None => Seq::<RowView>::empty(),
    };
    let a = seq![head_row(i)];
    let c = seq![mac_row(i)];
    let v4 = ipv4_rows(i);
    let v6 = ipv6_rows(i);
    let e = seq![
        RowView::Rates,
        RowView::Totals {
            rx: "Rx "@ + net_info::bytes_text(i.rx_bytes as nat),
            tx: "Tx "@ + net_info::bytes_text(i.tx_bytes as nat),
        },
    ];
    assert(d == a + ssid + c + v4 + v6 + e);
    assert forall|x: RowView| #[trigger] d.contains(x) <==> x == head_row(i) || ssid.contains(x) || x
        == mac_row(i) || v4.contains(x) || v6.contains(x) || x == e[0] || x == e[1] by {
        sorting::lemma_add_holds(a + ssid + c + v4 + v6, e);
        sorting::lemma_add_holds(a + ssid + c + v4, v6);
        sorting::lemma_add_holds(a + ssid + c, v4);
        sorting::lemma_add_holds(a + ssid, c);
        sorting::lemma_add_holds(a, ssid);
        assert(a.contains(x) <==> x == a[0]);
        assert(c.contains(x) <==> x == c[0]);
        assert(e.contains(x) <==> x == e[0] || x == e[1]);
    }
    assert forall|x: u32| #[trigger] i.ipv4.contains(x) <==> v4.contains(RowView::Ipv4(x)) by {
        if i.ipv4.contains(x) {
            let k = choose|k: int| 0 <= k < i.ipv4.len() && i.ipv4[k] == x;
            assert(v4[k] == RowView::Ipv4(x));
        }
    }
    assert forall|x: u128| #[trigger] i.ipv6.contains(x) <==> v6.contains(RowView::Ipv6(x)) by {
        if i.ipv6.contains(x) {
            let k = choose|k: int| 0 <= k < i.ipv6.len() && i.ipv6[k] == x;
            assert(v6[k] == RowView::Ipv6(x));
        }
    }
    if i.ipv4.len() == 0 {
        assert(v4[0] == RowView::NoIpv4);
    }
    if i.ipv6.len() == 0 {
        assert(v6[0] == RowView::NoIpv6);
    }
    if i.wifi_ssid is Some {
        assert(ssid[0] == RowView::Ssid(i.wifi_ssid->0));
    }
}

/// When a new list arrives the popup shows it; a selected interface that is
/// still listed stays selected, and the pointer stays where it is.
pub proof fn law_popup_takes_the_list(
    p: &mut NetworkPopup,
    list: Vec<IfaceSnapshot>,
    changed: bool,
    k: int,
)
    requires
        call_ensures(NetworkPopup::handle_snapshot, (p, list), changed),
    ensures
        sorting::views(final(p).interfaces@) == sorting::views(list@),
        final(p).hovered == old(p).hovered,
        changed <==> sorting::views(old(p).interfaces@) != sorting::views(list@),
        0 <= k < list@.len() && old(p).selected == Some(list@[k].index) ==> final(p).selected
            == old(p).selected,
        final(p).selected is Some ==> exists|j: int|
            0 <= j < list@.len() && (#[trigger] list@[j]).index == final(p).selected->0,
        final(p).selected is None ==> list@.len() == 0,
{
    let v = sorting::views(list@);
    if 0 <= k < list@.len() && old(p).selected == Some(list@[k].index) {
        assert(v[k].index == list@[k].index);
        law_listed_selection_stays(v, k);
    }
    if v.len() > 0 {
        law_selection_is_listed(v, old(p).selected);
    }
    if final(p).selected is Some {
        let j = choose|j: int| 0 <= j < v.len() && (#[trigger] v[j]).index == final(p).selected->0;
        assert(list@[j].index == v[j].index);
    }
}

/// A row that is selected looks so, whether the pointer is on it or not.
pub proof fn law_selected_before_hovered(p: NetworkPopup, index: u32, r: RowStyle)
    requires
        call_ensures(NetworkPopup::row_style, (&p, index), r),
    ensures
        r == RowStyle::Selected <==> p.selected == Some(index),
        r == RowStyle::Hovered <==> p.hovered == Some(index) && p.selected != Some(index),
{
}

} // verus!
