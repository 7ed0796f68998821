//! Interface snapshots and the worker that keeps them up to date.

use std::collections::HashMap;

use vstd::prelude::*;

use crate::sorting;
use crate::sorting::Ranked;
use crate::text;
use crate::wire::ByteOrder;
use crate::zbar::net_info;
use crate::zbar::net_info::{AddrInfo, LinkInfo, LinkView, Msg, NlmsgIter, OperState};

verus! {

/// One interface as it is shown.
#[derive(Debug, PartialEq)]
pub struct IfaceSnapshot {
    pub index: u32,
    pub name: String,
    pub operstate: OperState,
    pub mac: Option<[u8; 6]>,
    /// Addresses as numbers, first byte most significant.
    pub ipv4: Vec<u32>,
    pub ipv6: Vec<u128>,
    pub rx_bytes: u64,
    pub tx_bytes: u64,
    pub is_wireless: bool,
    pub is_physical: bool,
    pub wifi_ssid: Option<String>,
}

#[verifier::ext_equal]
pub struct SnapView {
    pub index: u32,
    pub name: Seq<char>,
    pub operstate: OperState,
    pub mac: Option<[u8; 6]>,
    pub ipv4: Seq<u32>,
    pub ipv6: Seq<u128>,
    pub rx_bytes: u64,
    pub tx_bytes: u64,
    pub is_wireless: bool,
    pub is_physical: bool,
    pub wifi_ssid: Option<Seq<char>>,
}

impl View for IfaceSnapshot {
    type V = SnapView;

    open spec fn view(&self) -> SnapView {
        SnapView {
            index: self.index,
            name: self.name@,
            operstate: self.operstate,
            mac: self.mac,
            ipv4: self.ipv4@,
            ipv6: self.ipv6@,
            rx_bytes: self.rx_bytes,
            tx_bytes: self.tx_bytes,
            is_wireless: self.is_wireless,
            is_physical: self.is_physical,
            wifi_ssid: text::opt(self.wifi_ssid),
        }
    }
}

impl Clone for IfaceSnapshot {
    fn clone(&self) -> (r: Self)
        ensures
            r@ == self@,
    {
        IfaceSnapshot {
            index: self.index,
            name: self.name.clone(),
            operstate: self.operstate,
            mac: self.mac,
            ipv4: vstd::slice::slice_to_vec(self.ipv4.as_slice()),
            ipv6: vstd::slice::slice_to_vec(self.ipv6.as_slice()),
            rx_bytes: self.rx_bytes,
            tx_bytes: self.tx_bytes,
            is_wireless: self.is_wireless,
            is_physical: self.is_physical,
            wifi_ssid: text::clone_opt(&self.wifi_ssid),
        }
    }
}

impl Ranked for IfaceSnapshot {
    open spec fn ranks(a: SnapView, b: SnapView) -> bool {
        sorting::text_le(a.name, b.name)
    }

    proof fn ranks_total(a: SnapView, b: SnapView) {
        sorting::lemma_text_le_total(a.name, b.name);
    }

    proof fn ranks_transitive(a: SnapView, b: SnapView, c: SnapView) {
        sorting::lemma_text_le_transitive(a.name, b.name, c.name);
    }

    fn may_precede(&self, other: &Self) -> (r: bool) {
        sorting::str_precedes(self.name.as_str(), other.name.as_str())
    }
}

// ---------------------------------------------------------------------------
// Merging
// ---------------------------------------------------------------------------

/// The IPv4 addresses of an interface, each once, in the order of the list.
pub open spec fn v4_of(addrs: Seq<AddrInfo>, index: u32) -> Seq<u32>
    decreases addrs.len(),
{
    if addrs.len() == 0 {
        Seq::empty()
    } else {
        let rest = v4_of(addrs.drop_last(), index);
        let a = addrs.last();
        match a.ipv4 {
            Some(v) => if a.index == index && a.family == net_info::AF_INET && !rest.contains(v) {
                rest.push(v)
            } else {
                rest
            },
            None => rest,
        }
    }
}

/// The IPv6 addresses of an interface, each once, in the order of the list.
pub open spec fn v6_of(addrs: Seq<AddrInfo>, index: u32) -> Seq<u128>
    decreases addrs.len(),
{
    if addrs.len() == 0 {
        Seq::empty()
    } else {
        let rest = v6_of(addrs.drop_last(), index);
        let a = addrs.last();
        match a.ipv6 {
            Some(v) => if a.index == index && a.family == net_info::AF_INET6 && !rest.contains(v) {
                rest.push(v)
            } else {
                rest
            },
            None => rest,
        }
    }
}

/// The network name known for an interface.
pub open spec fn ssid_of(wifi: Map<u32, Option<String>>, index: u32) -> Option<Seq<char>> {
    if wifi.contains_key(index) {
        text::opt(wifi[index])
    } else {
        None
    }
}

/// Whether a name is that of a wireless interface.
pub open spec fn is_wireless_name(name: Seq<char>) -> bool {
    text::starts_with(name, "wl"@)
}

/// A link with its addresses and its network name.
pub open spec fn snap_of(
    l: LinkView,
    addrs: Seq<AddrInfo>,
    wifi: Map<u32, Option<String>>,
) -> SnapView {
    SnapView {
        index: l.index,
        name: l.name,
        operstate: l.operstate,
        mac: l.mac,
        ipv4: v4_of(addrs, l.index),
        ipv6: v6_of(addrs, l.index),
        rx_bytes: l.rx_bytes,
        tx_bytes: l.tx_bytes,
        is_wireless: is_wireless_name(l.name),
        is_physical: l.is_physical,
        wifi_ssid: ssid_of(wifi, l.index),
    }
}

/// All links but loopback, in the order of the list.
pub open spec fn snaps_of(
    links: Seq<LinkView>,
    addrs: Seq<AddrInfo>,
    wifi: Map<u32, Option<String>>,
) -> Seq<SnapView>
    decreases links.len(),
{
    if links.len() == 0 {
        Seq::empty()
    } else {
        let rest = snaps_of(links.drop_last(), addrs, wifi);
        if links.last().name == "lo"@ {
            rest
        } else {
            rest.push(snap_of(links.last(), addrs, wifi))
        }
    }
}

/// Whether `shown` lists all links but loopback by name.
pub open spec fn is_merge(
    links: Seq<LinkView>,
    addrs: Seq<AddrInfo>,
    wifi: Map<u32, Option<String>>,
    shown: Seq<SnapView>,
) -> bool {
    sorting::is_stable_sort(
        snaps_of(links, addrs, wifi),
        shown,
        |a: SnapView, b: SnapView| IfaceSnapshot::ranks(a, b),
    )
}

fn has_u32(v: &Vec<u32>, x: u32) -> (r: bool)
    ensures
        r == v@.contains(x),
{
    let mut i: usize = 0;
    while i < v.len()
        invariant
            i <= v@.len(),
            forall|k: int| 0 <= k < i ==> v@[k] != x,
        decreases v.len() - i,
    {
        if v[i] == x {
            return true;
        }
        i = i + 1;
    }
    false
}

fn has_u128(v: &Vec<u128>, x: u128) -> (r: bool)
    ensures
        r == v@.contains(x),
{
    let mut i: usize = 0;
    while i < v.len()
        invariant
            i <= v@.len(),
            forall|k: int| 0 <= k < i ==> v@[k] != x,
        decreases v.len() - i,
    {
        if v[i] == x {
            return true;
        }
        i = i + 1;
    }
    false
}

fn addresses(addrs: &Vec<AddrInfo>, index: u32) -> (r: (Vec<u32>, Vec<u128>))
    ensures
        r.0@ == v4_of(addrs@, index),
        r.1@ == v6_of(addrs@, index),
{
    let mut v4: Vec<u32> = Vec::new();
    let mut v6: Vec<u128> = Vec::new();
    let mut i: usize = 0;
    while i < addrs.len()
        invariant
            i <= addrs@.len(),
            v4@ == v4_of(addrs@.take(i as int), index),
            v6@ == v6_of(addrs@.take(i as int), index),
        decreases addrs.len() - i,
    {
        let a = addrs[i];
        proof {
            assert(addrs@.take(i + 1).drop_last() == addrs@.take(i as int));
        }
        if a.index == index {
            if a.family == net_info::AF_INET {
                if let Some(v) = a.ipv4 {
                    if !has_u32(&v4, v) {
                        v4.push(v);
                    }
                }
            } else if a.family == net_info::AF_INET6 {
                if let Some(v) = a.ipv6 {
                    if !has_u128(&v6, v) {
                        v6.push(v);
                    }
                }
            }
        }
        i = i + 1;
    }
    proof {
        assert(addrs@.take(i as int) == addrs@);
    }
    (v4, v6)
}

fn cached_ssid(wifi: &HashMap<u32, Option<String>>, index: u32) -> (r: Option<String>)
    ensures
        text::opt(r) == ssid_of(wifi@, index),
{
    broadcast use vstd::std_specs::hash::group_hash_axioms;

    match wifi.get(&index) {
        Some(o) => text::clone_opt(o),
        None => None,
    }
}

/// Joins links, addresses and network names into the list that is shown.
pub fn merge_snapshot(
    links: &Vec<LinkInfo>,
    addrs: &Vec<AddrInfo>,
    wifi_cache: &HashMap<u32, Option<String>>,
) -> (r: Vec<IfaceSnapshot>)
    ensures
        is_merge(net_info::link_views(links@), addrs@, wifi_cache@, sorting::views(r@)),
{
    let ghost all = net_info::link_views(links@);
    let mut out: Vec<IfaceSnapshot> = Vec::new();
    let mut i: usize = 0;
    while i < links.len()
        invariant
            i <= links@.len(),
            all == net_info::link_views(links@),
            sorting::views(out@) == snaps_of(all.take(i as int), addrs@, wifi_cache@),
        decreases links.len() - i,
    {
        let l = &links[i];
        let ghost had = sorting::views(out@);
        proof {
            assert(all.take(i + 1).drop_last() == all.take(i as int));
            assert(all[i as int] == l@);
        }
        if !text::str_eq(l.name.as_str(), "lo") {
            let (ipv4, ipv6) = addresses(addrs, l.index);
            let snap = IfaceSnapshot {
                index: l.index,
                name: l.name.clone(),
                operstate: l.operstate,
                mac: l.mac,
                ipv4,
                ipv6,
                rx_bytes: l.rx_bytes,
                tx_bytes: l.tx_bytes,
                is_wireless: text::str_starts_with(l.name.as_str(), "wl"),
                is_physical: l.is_physical,
                wifi_ssid: cached_ssid(wifi_cache, l.index),
            };
            proof {
                assert(snap@ == snap_of(l@, addrs@, wifi_cache@));
            }
            out.push(snap);
            proof {
                assert(sorting::views(out@) == had.push(snap@));
            }
        }
        i = i + 1;
    }
    proof {
        assert(all.take(i as int) == all);
    }
    sorting::stable_sort(out)
}

// ---------------------------------------------------------------------------
// Network names
// ---------------------------------------------------------------------------

/// The network name in the output of `iwgetid -r`: the text without the
/// whitespace around it, unless nothing is left.
pub fn ssid_from_output(stdout: &[u8]) -> (r: Option<String>)
    ensures
        text::opt(r) == ({
            let t = text::trim(text::utf8_lossy(stdout@));
            if t.len() == 0 {
                None
            } else {
                Some(t)
            }
        }),
{
    let all = text::from_utf8_lossy(stdout);
    let ssid = text::trim_string(all.as_str());
    if ssid.as_str().is_empty() {
        None
    } else {
        Some(ssid)
    }
}

/// The network names of `links` when `ssid` is the one that the machine is
/// connected to: wireless links that are up have it, other wireless links have none.
pub open spec fn wifi_of(links: Seq<LinkView>, ssid: Option<String>) -> Map<u32, Option<String>>
    decreases links.len(),
{
    if links.len() == 0 {
        Map::empty()
    } else {
        let rest = wifi_of(links.drop_last(), ssid);
        let l = links.last();
        if !is_wireless_name(l.name) {
            rest.remove(l.index)
        } else if l.operstate == OperState::Up {
            rest.insert(l.index, ssid)
        } else {
            rest.insert(l.index, None)
        }
    }
}

/// Only interfaces that are listed have a cached network name.
pub proof fn law_wifi_cache_has_no_stale_entries(
    links: Seq<LinkView>,
    ssid: Option<String>,
    index: u32,
)
    requires
        wifi_of(links, ssid).contains_key(index),
    ensures
        exists|i: int| 0 <= i < links.len() && (#[trigger] links[i]).index == index,
    decreases links.len(),
{
    if links.last().index != index {
        law_wifi_cache_has_no_stale_entries(links.drop_last(), ssid, index);
        let i = choose|i: int|
            0 <= i < links.drop_last().len() && (#[trigger] links.drop_last()[i]).index == index;
        assert(links[i].index == index);
    } else {
        assert(links[links.len() - 1].index == index);
    }
}

/// Whether the network name has to be asked for: there is a wireless link.
pub fn needs_ssid(links: &Vec<LinkInfo>) -> (r: bool)
    ensures
        r == exists|i: int| 0 <= i < links@.len() && is_wireless_name((#[trigger] links@[i]).name@),
{
    let mut i: usize = 0;
    while i < links.len()
        invariant
            i <= links@.len(),
            forall|k: int| 0 <= k < i ==> !is_wireless_name((#[trigger] links@[k]).name@),
        decreases links.len() - i,
    {
        if text::str_starts_with(links[i].name.as_str(), "wl") {
            return true;
        }
        i = i + 1;
    }
    false
}

/// Brings the cache of network names up to date with `links`. What the cache
/// held before does not matter.
pub fn refresh_wifi_cache(
    links: &Vec<LinkInfo>,
    ssid: Option<String>,
    cache: &mut HashMap<u32, Option<String>>,
)
    ensures
        final(cache)@ == wifi_of(net_info::link_views(links@), ssid),
{
    broadcast use vstd::std_specs::hash::group_hash_axioms;

    let ghost all = net_info::link_views(links@);
    cache.clear();
    let mut i: usize = 0;
    while i < links.len()
        invariant
            i <= links@.len(),
            all == net_info::link_views(links@),
            cache@ == wifi_of(all.take(i as int), ssid),
        decreases links.len() - i,
    {
        let l = &links[i];
        proof {
            assert(all.take(i + 1).drop_last() == all.take(i as int));
            assert(all[i as int] == l@);
        }
        if !text::str_starts_with(l.name.as_str(), "wl") {
            cache.remove(&l.index);
            proof {
                assert(cache@ == wifi_of(all.take(i as int), ssid).remove(l.index));
            }
        } else if l.operstate.is_up() {
            cache.insert(l.index, text::clone_opt(&ssid));
        } else {
            cache.insert(l.index, None);
        }
        i = i + 1;
    }
    proof {
        assert(all.take(i as int) == all);
    }
}


// ---------------------------------------------------------------------------
// Change notices
// ---------------------------------------------------------------------------

/// Byte counters of an interface and the time, in nanoseconds, at which they
/// were read.
pub type Counters = (u64, u64, u64);

/// What change notices are applied to.
#[verifier::ext_equal]
pub struct Caches {
    pub links: Seq<LinkView>,
    pub addrs: Seq<AddrInfo>,
    pub stats: Map<u32, Counters>,
    /// Whether a link has come, changed or gone.
    pub link_changed: bool,
}

/// The links with `l` in the place of the one that has its index, or at the end.
pub open spec fn with_link(s: Seq<LinkView>, l: LinkView) -> Seq<LinkView>
    decreases s.len(),
{
    if s.len() == 0 {
        seq![l]
    } else if s[0].index == l.index {
        seq![l] + s.drop_first()
    } else {
        seq![s[0]] + with_link(s.drop_first(), l)
    }
}

/// The links without those of an index.
pub open spec fn without_link(s: Seq<LinkView>, index: u32) -> Seq<LinkView> {
    s.filter(|l: LinkView| l.index != index)
}

/// The addresses without `a`.
pub open spec fn without_addr(s: Seq<AddrInfo>, a: AddrInfo) -> Seq<AddrInfo> {
    s.filter(|x: AddrInfo| x != a)
}

/// What a notice does. Messages of other types, and those that cannot be read,
/// do nothing.
pub open spec fn after_notice(c: Caches, m: Msg, order: ByteOrder) -> Caches {
    let (ty, flags, payload) = m;
    if ty == net_info::RTM_NEWLINK || ty == net_info::RTM_DELLINK {
        match net_info::link_of(payload, order) {
            Some(l) => if ty == net_info::RTM_NEWLINK {
                Caches { links: with_link(c.links, l), link_changed: true, ..c }
            } else {
                Caches {
                    links: without_link(c.links, l.index),
                    stats: c.stats.remove(l.index),
                    link_changed: true,
                    ..c
                }
            },
            None => c,
        }
    } else if ty == net_info::RTM_NEWADDR || ty == net_info::RTM_DELADDR {
        match net_info::addr_of(payload, order) {
            Some(a) => if ty == net_info::RTM_NEWADDR {
                Caches { addrs: without_addr(c.addrs, a).push(a), ..c }
            } else {
                Caches { addrs: without_addr(c.addrs, a), ..c }
            },
            None => c,
        }
    } else {
        c
    }
}

/// What a run of notices does.
pub open spec fn after_notices(c: Caches, m: Seq<Msg>, order: ByteOrder) -> Caches
    decreases m.len(),
{
    if m.len() == 0 {
        c
    } else {
        after_notice(after_notices(c, m.drop_last(), order), m.last(), order)
    }
}

/// No two links have the same index.
pub open spec fn one_per_index(s: Seq<LinkView>) -> bool {
    forall|i: int, j: int|
        0 <= i < j < s.len() ==> (#[trigger] s[i]).index != (#[trigger] s[j]).index
}

proof fn lemma_with_link(s: Seq<LinkView>, l: LinkView, n: int)
    requires
        0 <= n <= s.len(),
        forall|k: int| 0 <= k < n ==> (#[trigger] s[k]).index != l.index,
    ensures
        n < s.len() && s[n].index == l.index ==> with_link(s, l) == s.update(n, l),
        n == s.len() ==> with_link(s, l) == s.push(l),
    decreases n,
{
    if n > 0 {
        assert(s[0].index != l.index);
        assert forall|k: int| 0 <= k < n - 1 implies (#[trigger] s.drop_first()[k]).index
            != l.index by {
            assert(s[k + 1].index != l.index);
        }
        lemma_with_link(s.drop_first(), l, n - 1);
        if n < s.len() && s[n].index == l.index {
            assert(s.drop_first()[n - 1].index == l.index);
            assert(with_link(s, l) =~= s.update(n, l));
        }
        if n == s.len() {
            assert(with_link(s, l) =~= s.push(l));
        }
    } else if s.len() > 0 {
        assert(s[0].index == l.index ==> with_link(s, l) =~= s.update(0, l));
    } else {
        assert(with_link(s, l) =~= s.push(l));
    }
}

proof fn lemma_find_link(s: Seq<LinkView>, index: u32) -> (n: int)
    ensures
        0 <= n <= s.len(),
        forall|k: int| 0 <= k < n ==> (#[trigger] s[k]).index != index,
        n < s.len() ==> s[n].index == index,
    decreases s.len(),
{
    if s.len() == 0 {
        0
    } else if s[0].index == index {
        0
    } else {
        let m = lemma_find_link(s.drop_first(), index);
        assert forall|k: int| 0 <= k < m + 1 implies (#[trigger] s[k]).index != index by {
            if k > 0 {
                assert(s.drop_first()[k - 1].index != index);
            }
        }
        if m < s.drop_first().len() {
            assert(s.drop_first()[m].index == index);
        }
        m + 1
    }
}

/// A notice never leaves two links with the same index.
pub proof fn law_notices_keep_one_link_per_index(c: Caches, m: Msg, order: ByteOrder)
    requires
        one_per_index(c.links),
    ensures
        one_per_index(after_notice(c, m, order).links),
{
    let (ty, flags, payload) = m;
    match net_info::link_of(payload, order) {
        Some(l) => {
            let n = lemma_find_link(c.links, l.index);
            lemma_with_link(c.links, l, n);
            lemma_filter_links(c.links, l.index);
        },
        None => {},
    }
}

proof fn lemma_filter_links(s: Seq<LinkView>, index: u32)
    requires
        one_per_index(s),
    ensures
        one_per_index(without_link(s, index)),
        forall|i: int|
            0 <= i < without_link(s, index).len() ==> s.contains(
                #[trigger] without_link(s, index)[i],
            ),
    decreases s.len(),
{
    reveal(Seq::filter);
    let p = |l: LinkView| l.index != index;
    if s.len() > 0 {
        let t = s.drop_last();
        assert forall|i: int, j: int| 0 <= i < j < t.len() implies (#[trigger] t[i]).index != (
        #[trigger] t[j]).index by {
            assert(s[i].index != s[j].index);
        }
        lemma_filter_links(t, index);
        let f = without_link(t, index);
        assert forall|i: int| 0 <= i < f.len() implies (#[trigger] f[i]).index
            != s.last().index && s.contains(f[i]) by {
            assert(t.contains(f[i]));
            let k = choose|k: int| 0 <= k < t.len() && t[k] == f[i];
            assert(s[k].index != s[s.len() - 1].index);
            assert(s[k] == f[i]);
        }
        assert(s.contains(s[s.len() - 1]));
    }
}

/// What the worker remembers.
pub struct NetState {
    pub links: Vec<LinkInfo>,
    pub addrs: Vec<AddrInfo>,
    pub wifi: HashMap<u32, Option<String>>,
    pub stats: HashMap<u32, Counters>,
    /// What was shown last.
    pub snapshot: Vec<IfaceSnapshot>,
}

/// Traffic since the previous look, and how long ago that was.
#[derive(Debug, Clone, Copy, PartialEq, Eq, Structural)]
pub struct Traffic {
    pub rx: u64,
    pub tx: u64,
    pub nanos: u64,
}

/// The counters of each link, read at `now`.
pub open spec fn counters_of(links: Seq<LinkView>, now: u64) -> Map<u32, Counters>
    decreases links.len(),
{
    if links.len() == 0 {
        Map::empty()
    } else {
        let l = links.last();
        counters_of(links.drop_last(), now).insert(l.index, (l.rx_bytes, l.tx_bytes, now))
    }
}

/// The difference of two counter readings; a counter that went back counts as
/// unchanged.
pub open spec fn gained(new: u64, old: u64) -> u64 {
    if new > old {
        (new - old) as u64
    } else {
        0
    }
}

/// The counters after a new reading, and the traffic since the one before: of
/// every link but loopback that was read before, if time has passed.
pub open spec fn after_reading(
    stats: Map<u32, Counters>,
    links: Seq<LinkView>,
    now: u64,
) -> (Map<u32, Counters>, Map<u32, Traffic>)
    decreases links.len(),
{
    if links.len() == 0 {
        (stats, Map::empty())
    } else {
        let (s, t) = after_reading(stats, links.drop_last(), now);
        let l = links.last();
        if l.name == "lo"@ {
            (s, t)
        } else {
            (
                s.insert(l.index, (l.rx_bytes, l.tx_bytes, now)),
                if s.contains_key(l.index) && now > s[l.index].2 {
                    t.insert(
                        l.index,
                        Traffic {
                            rx: gained(l.rx_bytes, s[l.index].0),
                            tx: gained(l.tx_bytes, s[l.index].1),
                            nanos: gained(now, s[l.index].2),
                        },
                    )
                } else {
                    t
                },
            )
        }
    }
}

/// `x` with the counters of `l`, if `l` is the same link.
pub open spec fn with_counters(x: LinkView, l: LinkView) -> LinkView {
    if x.index == l.index {
        LinkView { rx_bytes: l.rx_bytes, tx_bytes: l.tx_bytes, ..x }
    } else {
        x
    }
}

/// The remembered links with the counters of a new reading.
pub open spec fn with_totals(known: Seq<LinkView>, links: Seq<LinkView>) -> Seq<LinkView>
    decreases links.len(),
{
    if links.len() == 0 {
        known
    } else {
        with_totals(known, links.drop_last()).map_values(
            |x: LinkView| with_counters(x, links.last()),
        )
    }
}

/// The remembered links after a dump: of two with the same index, the later.
pub open spec fn links_after_dump(links: Seq<LinkView>) -> Seq<LinkView>
    decreases links.len(),
{
    if links.len() == 0 {
        Seq::empty()
    } else {
        with_link(links_after_dump(links.drop_last()), links.last())
    }
}

/// A dump leaves one link per index.
pub proof fn law_dump_leaves_one_link_per_index(links: Seq<LinkView>)
    ensures
        one_per_index(links_after_dump(links)),
    decreases links.len(),
{
    if links.len() > 0 {
        law_dump_leaves_one_link_per_index(links.drop_last());
        let s = links_after_dump(links.drop_last());
        let l = links.last();
        let n = lemma_find_link(s, l.index);
        lemma_with_link(s, l, n);
    }
}

fn put_link(links: &mut Vec<LinkInfo>, l: LinkInfo)
    ensures
        net_info::link_views(final(links)@) == with_link(net_info::link_views(old(links)@), l@),
{
    let ghost s = net_info::link_views(links@);
    let mut i: usize = 0;
    while i < links.len()
        invariant
            i <= links@.len(),
            s == net_info::link_views(links@),
            links@ == old(links)@,
            forall|k: int| 0 <= k < i ==> (#[trigger] s[k]).index != l.index,
        decreases links.len() - i,
    {
        if links[i].index == l.index {
            proof {
                assert(s[i as int].index == l.index);
                lemma_with_link(s, l@, i as int);
            }
            links.set(i, l);
            proof {
                assert(net_info::link_views(links@) == s.update(i as int, l@));
            }
            return ;
        }
        i = i + 1;
    }
    proof {
        lemma_with_link(s, l@, i as int);
    }
    links.push(l);
    proof {
        assert(net_info::link_views(links@) == s.push(l@));
    }
}

fn drop_link(links: &mut Vec<LinkInfo>, index: u32)
    ensures
        net_info::link_views(final(links)@) == without_link(
            net_info::link_views(old(links)@),
            index,
        ),
{
    let ghost all = net_info::link_views(links@);
    let mut kept: Vec<LinkInfo> = Vec::new();
    let mut i: usize = 0;
    proof {
        reveal(Seq::filter);
    }
    while i < links.len()
        invariant
            i <= links@.len(),
            links@ == old(links)@,
            all == net_info::link_views(links@),
            net_info::link_views(kept@) == without_link(all.take(i as int), index),
        decreases links.len() - i,
    {
        let ghost had = net_info::link_views(kept@);
        proof {
            reveal(Seq::filter);
            assert(all.take(i + 1).drop_last() == all.take(i as int));
        }
        if links[i].index != index {
            kept.push(links[i].clone());
            proof {
                assert(net_info::link_views(kept@) == had.push(all[i as int]));
            }
        }
        i = i + 1;
    }
    proof {
        assert(all.take(i as int) == all);
    }
    *links = kept;
}

fn drop_addr(addrs: &mut Vec<AddrInfo>, a: AddrInfo)
    ensures
        final(addrs)@ == without_addr(old(addrs)@, a),
{
    let mut kept: Vec<AddrInfo> = Vec::new();
    let mut i: usize = 0;
    proof {
        reveal(Seq::filter);
    }
    while i < addrs.len()
        invariant
            i <= addrs@.len(),
            addrs@ == old(addrs)@,
            kept@ == without_addr(addrs@.take(i as int), a),
        decreases addrs.len() - i,
    {
        proof {
            reveal(Seq::filter);
            assert(addrs@.take(i + 1).drop_last() == addrs@.take(i as int));
        }
        let x = addrs[i];
        if x != a {
            kept.push(x);
        }
        i = i + 1;
    }
    proof {
        assert(addrs@.take(i as int) == addrs@);
    }
    *addrs = kept;
}

/// Whether two lists show the same.
pub fn same_snapshot(a: &Vec<IfaceSnapshot>, b: &Vec<IfaceSnapshot>) -> (r: bool)
    ensures
        r == (sorting::views(a@) == sorting::views(b@)),
{
    if a.len() != b.len() {
        proof {
            assert(sorting::views(a@).len() != sorting::views(b@).len());
        }
        return false;
    }
    let mut i: usize = 0;
    while i < a.len()
        invariant
            a@.len() == b@.len(),
            i <= a@.len(),
            forall|k: int| 0 <= k < i ==> (#[trigger] a@[k])@ == b@[k]@,
        decreases a.len() - i,
    {
        if !same_iface(&a[i], &b[i]) {
            proof {
                assert(sorting::views(a@)[i as int] != sorting::views(b@)[i as int]);
            }
            return false;
        }
        i = i + 1;
    }
    proof {
        assert(sorting::views(a@) =~= sorting::views(b@));
    }
    true
}

fn same_u32s(a: &Vec<u32>, b: &Vec<u32>) -> (r: bool)
    ensures
        r == (a@ == b@),
{
    if a.len() != b.len() {
        return false;
    }
    let mut i: usize = 0;
    while i < a.len()
        invariant
            a@.len() == b@.len(),
            i <= a@.len(),
            forall|k: int| 0 <= k < i ==> a@[k] == b@[k],
        decreases a.len() - i,
    {
        if a[i] != b[i] {
            return false;
        }
        i = i + 1;
    }
    proof {
        assert(a@ =~= b@);
    }
    true
}

fn same_u128s(a: &Vec<u128>, b: &Vec<u128>) -> (r: bool)
    ensures
        r == (a@ == b@),
{
    if a.len() != b.len() {
        return false;
    }
    let mut i: usize = 0;
    while i < a.len()
        invariant
            a@.len() == b@.len(),
            i <= a@.len(),
            forall|k: int| 0 <= k < i ==> a@[k] == b@[k],
        decreases a.len() - i,
    {
        if a[i] != b[i] {
            return false;
        }
        i = i + 1;
    }
    proof {
        assert(a@ =~= b@);
    }
    true
}

fn same_mac(a: &Option<[u8; 6]>, b: &Option<[u8; 6]>) -> (r: bool)
    ensures
        r == (*a == *b),
{
    match (a, b) {
        (Some(x), Some(y)) => {
            let r = x[0] == y[0] && x[1] == y[1] && x[2] == y[2] && x[3] == y[3] && x[4] == y[4]
                && x[5] == y[5];
            proof {
                if r {
                    assert(x@ =~= y@);
                    assert(*x =~= *y);
                }
            }
            r
        },
        (None, None) => true,
        _ => false,
    }
}

fn same_iface(a: &IfaceSnapshot, b: &IfaceSnapshot) -> (r: bool)
    ensures
        r == (a@ == b@),
{
    let r = a.index == b.index && text::str_eq(a.name.as_str(), b.name.as_str()) && a.operstate
        == b.operstate && same_mac(&a.mac, &b.mac) && same_u32s(&a.ipv4, &b.ipv4) && same_u128s(
        &a.ipv6,
        &b.ipv6,
    ) && a.rx_bytes == b.rx_bytes && a.tx_bytes == b.tx_bytes && a.is_wireless == b.is_wireless
        && a.is_physical == b.is_physical && text::opt_eq(&a.wifi_ssid, &b.wifi_ssid);
    r
}

fn clone_snapshot(v: &Vec<IfaceSnapshot>) -> (r: Vec<IfaceSnapshot>)
    ensures
        sorting::views(r@) == sorting::views(v@),
{
    let mut out: Vec<IfaceSnapshot> = Vec::new();
    let mut i: usize = 0;
    while i < v.len()
        invariant
            i <= v@.len(),
            out@.len() == i,
            forall|k: int| 0 <= k < i ==> (#[trigger] out@[k])@ == v@[k]@,
        decreases v.len() - i,
    {
        out.push(v[i].clone());
        i = i + 1;
    }
    proof {
        assert(sorting::views(out@) =~= sorting::views(v@));
    }
    out
}

impl NetState {
    /// What change notices are applied to.
    pub open spec fn caches(&self, link_changed: bool) -> Caches {
        Caches {
            links: net_info::link_views(self.links@),
            addrs: self.addrs@,
            stats: self.stats@,
            link_changed,
        }
    }

    /// Whether what was shown last is what is known.
    pub open spec fn shown(&self) -> bool {
        is_merge(
            net_info::link_views(self.links@),
            self.addrs@,
            self.wifi@,
            sorting::views(self.snapshot@),
        )
    }

    /// Starts from complete dumps. `ssid` is the network name, asked for if
    /// [`needs_ssid`] says so.
    pub fn start(
        links: Vec<LinkInfo>,
        addrs: Vec<AddrInfo>,
        ssid: Option<String>,
        now: u64,
    ) -> (r: NetState)
        ensures
            is_merge(
                net_info::link_views(links@),
                addrs@,
                r.wifi@,
                sorting::views(r.snapshot@),
            ),
            net_info::link_views(r.links@) == links_after_dump(net_info::link_views(links@)),
            one_per_index(net_info::link_views(r.links@)),
            r.addrs@ == addrs@,
            r.wifi@ == wifi_of(net_info::link_views(links@), ssid),
            r.stats@ == counters_of(net_info::link_views(r.links@), now),
    {
        broadcast use vstd::std_specs::hash::group_hash_axioms;

        let mut wifi: HashMap<u32, Option<String>> = HashMap::new();
        refresh_wifi_cache(&links, ssid, &mut wifi);
        let snapshot = merge_snapshot(&links, &addrs, &wifi);
        let ghost all = net_info::link_views(links@);
        let mut known: Vec<LinkInfo> = Vec::new();
        let mut i: usize = 0;
        proof {
            assert(net_info::link_views(known@) == links_after_dump(all.take(0)));
        }
        while i < links.len()
            invariant
                i <= links@.len(),
                all == net_info::link_views(links@),
                net_info::link_views(known@) == links_after_dump(all.take(i as int)),
            decreases links.len() - i,
        {
            proof {
                assert(all.take(i + 1).drop_last() == all.take(i as int));
                assert(all[i as int] == links@[i as int]@);
            }
            put_link(&mut known, links[i].clone());
            i = i + 1;
        }
        proof {
            assert(all.take(i as int) == all);
            law_dump_leaves_one_link_per_index(all);
        }
        let ghost kept = net_info::link_views(known@);
        let mut stats: HashMap<u32, Counters> = HashMap::new();
        let mut j: usize = 0;
        while j < known.len()
            invariant
                j <= known@.len(),
                kept == net_info::link_views(known@),
                stats@ == counters_of(kept.take(j as int), now),
            decreases known.len() - j,
        {
            let l = &known[j];
            proof {
                assert(kept.take(j + 1).drop_last() == kept.take(j as int));
                assert(kept[j as int] == l@);
            }
            stats.insert(l.index, (l.rx_bytes, l.tx_bytes, now));
            j = j + 1;
        }
        proof {
            assert(kept.take(j as int) == kept);
        }
        NetState { links: known, addrs, wifi, stats, snapshot }
    }

    /// Applies the change notices of one datagram; says whether a link has
    /// changed, now or before.
    pub fn on_datagram(&mut self, datagram: &[u8], order: ByteOrder, link_changed: bool) -> (r: bool)
        ensures
            final(self).caches(r) == after_notices(
                old(self).caches(link_changed),
                net_info::messages(datagram@, order),
                order,
            ),
            final(self).wifi@ == old(self).wifi@,
            final(self).snapshot@ == old(self).snapshot@,
    {
        broadcast use vstd::std_specs::hash::group_hash_axioms;

        let ghost all = net_info::messages(datagram@, order);
        let ghost start = self.caches(link_changed);
        let mut changed = link_changed;
        let mut it = NlmsgIter::new(datagram, order);
        let ghost mut n: int = 0;
        proof {
            assert(all.skip(0) == all);
        }
        loop
            invariant
                it.order == order,
                0 <= n <= all.len(),
                all.skip(n) == it.left(),
                self.caches(changed) == after_notices(start, all.take(n), order),
                self.wifi@ == old(self).wifi@,
                self.snapshot@ == old(self).snapshot@,
            ensures
                n == all.len(),
            decreases it.buf@.len(),
        {
            let ghost before = it.left();
            match it.next() {
                Some((ty, flags, payload)) => {
                    let ghost m: Msg = (ty, flags, payload@);
                    let ghost held = self.caches(changed);
                    proof {
                        assert(before[0] == m);
                        assert(before.len() > 0 && all.skip(n).len() == before.len());
                        assert(all.skip(n)[0] == m);
                        assert(all[n] == before[0]);
                        assert(all.skip(n + 1) == before.skip(1));
                        assert(before.skip(1) == it.left());
                        assert(all.take(n + 1).drop_last() == all.take(n));
                        n = n + 1;
                    }
                    if ty == net_info::RTM_NEWLINK {
                        if let Some(l) = net_info::parse_link_msg(payload, order) {
                            put_link(&mut self.links, l);
                            changed = true;
                        }
                    } else if ty == net_info::RTM_DELLINK {
                        if let Some(l) = net_info::parse_link_msg(payload, order) {
                            drop_link(&mut self.links, l.index);
                            self.stats.remove(&l.index);
                            changed = true;
                            proof {
                                assert(self.stats@ =~= held.stats.remove(l.index));
                            }
                        }
                    } else if ty == net_info::RTM_NEWADDR {
                        if let Some(a) = net_info::parse_addr_msg(payload, order) {
                            drop_addr(&mut self.addrs, a);
                            self.addrs.push(a);
                        }
                    } else if ty == net_info::RTM_DELADDR {
                        if let Some(a) = net_info::parse_addr_msg(payload, order) {
                            drop_addr(&mut self.addrs, a);
                        }
                    }
                    proof {
                        assert(self.caches(changed) =~= after_notice(held, m, order));
                    }
                },
                None => {
                    proof {
                        assert(all.skip(n).len() == 0);
                    }
                    break ;
                },
            }
        }
        proof {
            assert(all.take(n) == all);
        }
        changed
    }

    /// Shows what is known now: the list, if it differs from what was shown last.
    fn show(&mut self) -> (r: Option<Vec<IfaceSnapshot>>)
        ensures
            final(self).shown(),
            final(self).links@ == old(self).links@,
            final(self).addrs@ == old(self).addrs@,
            final(self).wifi@ == old(self).wifi@,
            final(self).stats@ == old(self).stats@,
            match r {
                Some(v) => sorting::views(v@) == sorting::views(final(self).snapshot@)
                    && sorting::views(v@) != sorting::views(old(self).snapshot@),
                None => final(self).snapshot@ == old(self).snapshot@,
            },
    {
        let refreshed = merge_snapshot(&self.links, &self.addrs, &self.wifi);
        if same_snapshot(&refreshed, &self.snapshot) {
            return None;
        }
        self.snapshot = clone_snapshot(&refreshed);
        Some(refreshed)
    }

    /// Ends a run of change notices. If a link has changed, the network names
    /// are refreshed with `ssid` first.
    pub fn after_drain(&mut self, link_changed: bool, ssid: Option<String>) -> (r: Option<
        Vec<IfaceSnapshot>,
    >)
        ensures
            final(self).shown(),
            final(self).links@ == old(self).links@,
            final(self).addrs@ == old(self).addrs@,
            final(self).stats@ == old(self).stats@,
            final(self).wifi@ == (if link_changed {
                wifi_of(net_info::link_views(old(self).links@), ssid)
            } else {
                old(self).wifi@
            }),
            match r {
                Some(v) => sorting::views(v@) == sorting::views(final(self).snapshot@)
                    && sorting::views(v@) != sorting::views(old(self).snapshot@),
                None => final(self).snapshot@ == old(self).snapshot@,
            },
    {
        if link_changed {
            refresh_wifi_cache(&self.links, ssid, &mut self.wifi);
        }
        self.show()
    }

    /// Takes in a fresh link dump for its byte counters. Gives the list, if
    /// what is shown changes, and the traffic since the previous reading.
    pub fn on_timeout(&mut self, new_links: &Vec<LinkInfo>, now: u64) -> (r: (
        Option<Vec<IfaceSnapshot>>,
        HashMap<u32, Traffic>,
    ))
        ensures
            (final(self).stats@, r.1@) == after_reading(
                old(self).stats@,
                net_info::link_views(new_links@),
                now,
            ),
            net_info::link_views(final(self).links@) == with_totals(
                net_info::link_views(old(self).links@),
                net_info::link_views(new_links@),
            ),
            final(self).addrs@ == old(self).addrs@,
            final(self).wifi@ == old(self).wifi@,
            final(self).shown(),
            match r.0 {
                Some(v) => sorting::views(v@) == sorting::views(final(self).snapshot@)
                    && sorting::views(v@) != sorting::views(old(self).snapshot@),
                None => final(self).snapshot@ == old(self).snapshot@,
            },
    {
        broadcast use vstd::std_specs::hash::group_hash_axioms;

        let ghost all = net_info::link_views(new_links@);
        let ghost known = net_info::link_views(self.links@);
        let mut rates: HashMap<u32, Traffic> = HashMap::new();
        let mut i: usize = 0;
        while i < new_links.len()
            invariant
                i <= new_links@.len(),
                all == net_info::link_views(new_links@),
                (self.stats@, rates@) == after_reading(old(self).stats@, all.take(i as int), now),
                net_info::link_views(self.links@) == with_totals(known, all.take(i as int)),
                self.addrs@ == old(self).addrs@,
                self.wifi@ == old(self).wifi@,
                self.snapshot@ == old(self).snapshot@,
            decreases new_links.len() - i,
        {
            let l = &new_links[i];
            let ghost s = self.stats@;
            let ghost t = rates@;
            proof {
                assert(all.take(i + 1).drop_last() == all.take(i as int));
                assert(all[i as int] == l@);
            }
            if !text::str_eq(l.name.as_str(), "lo") {
                if let Some(prev) = self.stats.get(&l.index) {
                    let prev: Counters = *prev;
                    if now > prev.2 {
                        rates.insert(
                            l.index,
                            Traffic {
                                rx: l.rx_bytes.saturating_sub(prev.0),
                                tx: l.tx_bytes.saturating_sub(prev.1),
                                nanos: now - prev.2,
                            },
                        );
                    }
                }
                self.stats.insert(l.index, (l.rx_bytes, l.tx_bytes, now));
            }
            let ghost before = net_info::link_views(self.links@);
            let mut j: usize = 0;
            while j < self.links.len()
                invariant
                    j <= self.links@.len(),
                    self.links@.len() == before.len(),
                    *l == new_links@[i as int],
                    i < new_links@.len(),
                    forall|k: int|
                        0 <= k < j ==> (#[trigger] self.links@[k])@ == with_counters(before[k], l@),
                    forall|k: int| j <= k < before.len() ==> (#[trigger] self.links@[k])@ == before[k],
                    self.stats@ == after_reading(old(self).stats@, all.take(i + 1), now).0,
                    rates@ == after_reading(old(self).stats@, all.take(i + 1), now).1,
                    self.addrs@ == old(self).addrs@,
                    self.wifi@ == old(self).wifi@,
                    self.snapshot@ == old(self).snapshot@,
                decreases self.links.len() - j,
            {
                if self.links[j].index == l.index {
                    let mut x = self.links[j].clone();
                    x.rx_bytes = l.rx_bytes;
                    x.tx_bytes = l.tx_bytes;
                    self.links.set(j, x);
                }
                j = j + 1;
            }
            proof {
                assert(net_info::link_views(self.links@) =~= before.map_values(
                    |x: LinkView| with_counters(x, l@),
                ));
            }
            i = i + 1;
        }
        proof {
            assert(all.take(i as int) == all);
        }
        let shown = self.show();
        (shown, rates)
    }
}

// ---------------------------------------------------------------------------
// What the worker tells
// ---------------------------------------------------------------------------

/// Something that the worker tells whoever listens.
#[derive(Debug)]
pub enum WorkerEvent {
    Snapshot(Vec<IfaceSnapshot>),
    /// The traffic since the previous reading, by interface index.
    Traffic(HashMap<u32, Traffic>),
}

/// What a [`WorkerEvent`] holds.
#[verifier::ext_equal]
pub enum EventView {
    Snapshot(Seq<SnapView>),
    Traffic(Map<u32, Traffic>),
}

impl View for WorkerEvent {
    type V = EventView;

    open spec fn view(&self) -> EventView {
        match *self {
            WorkerEvent::Snapshot(v) => EventView::Snapshot(sorting::views(v@)),
            WorkerEvent::Traffic(m) => EventView::Traffic(m@),
        }
    }
}

/// What events hold.
pub open spec fn event_views(v: Seq<WorkerEvent>) -> Seq<EventView> {
    v.map_values(|e: WorkerEvent| e@)
}

/// One round of the worker: what is shown after it, and the traffic if the
/// counters were read.
#[verifier::ext_equal]
pub struct Round {
    pub shown: Seq<SnapView>,
    pub traffic: Option<Map<u32, Traffic>>,
}

/// What the worker tells in a round that began with `before` shown: what is
/// shown now, if it differs, and then the traffic, if the counters were read.
pub open spec fn round_events(before: Seq<SnapView>, round: Round) -> Seq<EventView> {
    let list = if round.shown == before {
        Seq::<EventView>::empty()
    } else {
        seq![EventView::Snapshot(round.shown)]
    };
    match round.traffic {
        Some(t) => list.push(EventView::Traffic(t)),
        None => list,
    }
}

/// What is shown after some rounds.
pub open spec fn shown_after(first: Seq<SnapView>, rounds: Seq<Round>) -> Seq<SnapView> {
    if rounds.len() == 0 {
        first
    } else {
        rounds.last().shown
    }
}

/// All that the worker tells: first what it shows at its start, and then what
/// each round tells.
pub open spec fn worker_events(first: Seq<SnapView>, rounds: Seq<Round>) -> Seq<EventView>
    decreases rounds.len(),
{
    if rounds.len() == 0 {
        seq![EventView::Snapshot(first)]
    } else {
        worker_events(first, rounds.drop_last()) + round_events(
            shown_after(first, rounds.drop_last()),
            rounds.last(),
        )
    }
}

/// The last list among events.
pub open spec fn last_list(events: Seq<EventView>) -> Option<Seq<SnapView>>
    decreases events.len(),
{
    if events.len() == 0 {
        None
    } else {
        match events.last() {
            EventView::Snapshot(v) => Some(v),
            EventView::Traffic(_) => last_list(events.drop_last()),
        }
    }
}

/// Whether no list stands between two events.
pub open spec fn no_list_between(events: Seq<EventView>, i: int, j: int) -> bool {
    forall|k: int| i < k < j ==> (#[trigger] events[k]) is Traffic
}

proof fn lemma_last_list(events: Seq<EventView>, i: int)
    requires
        0 <= i < events.len(),
        events[i] is Snapshot,
        no_list_between(events, i, events.len() as int),
    ensures
        last_list(events) == Some(events[i]->Snapshot_0),
    decreases events.len(),
{
    if i < events.len() - 1 {
        assert(events[events.len() - 1] is Traffic);
        let rest = events.drop_last();
        assert forall|k: int| i < k < rest.len() implies (#[trigger] rest[k]) is Traffic by {
            assert(rest[k] == events[k]);
        }
        lemma_last_list(rest, i);
    }
}

proof fn lemma_last_list_is_shown(first: Seq<SnapView>, rounds: Seq<Round>)
    ensures
        last_list(worker_events(first, rounds)) == Some(shown_after(first, rounds)),
    decreases rounds.len(),
{
    reveal_with_fuel(last_list, 3);
    if rounds.len() == 0 {
        assert(worker_events(first, rounds).last() == EventView::Snapshot(first));
    } else {
        let before = shown_after(first, rounds.drop_last());
        let old_events = worker_events(first, rounds.drop_last());
        lemma_last_list_is_shown(first, rounds.drop_last());
        let all = worker_events(first, rounds);
        let round = rounds.last();
        if round.shown == before {
            if round.traffic is Some {
                assert(all.drop_last() =~= old_events);
            } else {
                assert(all =~= old_events);
            }
        } else if round.traffic is Some {
            assert(all.drop_last() =~= old_events.push(EventView::Snapshot(round.shown)));
        } else {
            assert(all =~= old_events.push(EventView::Snapshot(round.shown)));
        }
    }
}

/// Whatever happens, the worker first tells a list, and no list that it tells
/// is the one that it told before.
pub proof fn law_successive_lists_differ(first: Seq<SnapView>, rounds: Seq<Round>)
    ensures
        ({
            let all = worker_events(first, rounds);
            &&& all.len() > 0
            &&& all[0] == EventView::Snapshot(first)
            &&& forall|i: int, j: int|
                0 <= i < j < all.len() && (#[trigger] all[i]) is Snapshot && (
                #[trigger] all[j]) is Snapshot && no_list_between(all, i, j) ==> all[i] != all[j]
        }),
    decreases rounds.len(),
{
    if rounds.len() > 0 {
        let front = rounds.drop_last();
        law_successive_lists_differ(first, front);
        lemma_last_list_is_shown(first, front);
        let before = shown_after(first, front);
        let old_events = worker_events(first, front);
        let told = round_events(before, rounds.last());
        let all = worker_events(first, rounds);
        assert(all[0] == old_events[0]);
        assert forall|i: int, j: int|
            0 <= i < j < all.len() && (#[trigger] all[i]) is Snapshot && (
            #[trigger] all[j]) is Snapshot && no_list_between(all, i, j) implies all[i]
            != all[j] by {
            let n = old_events.len() as int;
            if j < n {
                assert(all[i] == old_events[i] && all[j] == old_events[j]);
                assert forall|k: int| i < k < j implies (#[trigger] old_events[k]) is Traffic by {
                    assert(all[k] == old_events[k]);
                }
            } else {
                assert(all[j] == told[j - n]);
                assert(j == n);
                assert(all[i] == old_events[i]);
                assert forall|k: int| i < k < n implies (#[trigger] old_events[k]) is Traffic by {
                    assert(all[k] == old_events[k]);
                }
                lemma_last_list(old_events, i);
            }
        }
    }
}

/// Traffic is told of links other than loopback only, each with the time that
/// passed. In a reading with one link per index it is told of exactly those
/// that were read before: what came in and went out since then, nothing where
/// a counter went back.
pub proof fn law_traffic_is_since_the_last_reading(
    stats: Map<u32, Counters>,
    links: Seq<LinkView>,
    now: u64,
)
    ensures
        ({
            let traffic = after_reading(stats, links, now).1;
            &&& forall|i: u32| #[trigger]
                traffic.contains_key(i) ==> traffic[i].nanos > 0 && exists|k: int|
                    0 <= k < links.len() && (#[trigger] links[k]).index == i && links[k].name
                        != "lo"@
            &&& one_per_index(links) ==> forall|k: int|
                0 <= k < links.len() ==> {
                    let l = #[trigger] links[k];
                    &&& traffic.contains_key(l.index) == (l.name != "lo"@ && stats.contains_key(
                        l.index,
                    ) && now > stats[l.index].2)
                    &&& traffic.contains_key(l.index) ==> traffic[l.index] == (Traffic {
                        rx: gained(l.rx_bytes, stats[l.index].0),
                        tx: gained(l.tx_bytes, stats[l.index].1),
                        nanos: (now - stats[l.index].2) as u64,
                    })
                }
        }),
    decreases links.len(),
{
    if links.len() > 0 {
        let rest = links.drop_last();
        let last = links.last();
        law_traffic_is_since_the_last_reading(stats, rest, now);
        let (s, t) = after_reading(stats, rest, now);
        let traffic = after_reading(stats, links, now).1;
        assert forall|i: u32| #[trigger] traffic.contains_key(i) implies traffic[i].nanos > 0
            && exists|k: int|
            0 <= k < links.len() && (#[trigger] links[k]).index == i && links[k].name
                != "lo"@ by {
            if i == last.index && last.name != "lo"@ {
                assert(links[links.len() - 1] == last);
            } else {
                assert(t.contains_key(i));
                let k = choose|k: int|
                    0 <= k < rest.len() && (#[trigger] rest[k]).index == i && rest[k].name
                        != "lo"@;
                assert(links[k] == rest[k]);
            }
        }
        if one_per_index(links) {
            assert(one_per_index(rest)) by {
                assert forall|a: int, b: int| 0 <= a < b < rest.len() implies (
                #[trigger] rest[a]).index != (#[trigger] rest[b]).index by {
                    assert(links[a] == rest[a] && links[b] == rest[b]);
                }
            }
            lemma_reading_leaves_others(stats, rest, now, last.index);
            assert forall|k: int| 0 <= k < rest.len() implies (#[trigger] rest[k]).index
                != last.index by {
                assert(links[k] == rest[k]);
                assert(links[links.len() - 1] == last);
            }
            assert(!t.contains_key(last.index)) by {
                if t.contains_key(last.index) {
                    let k = choose|k: int|
                        0 <= k < rest.len() && (#[trigger] rest[k]).index == last.index
                            && rest[k].name != "lo"@;
                }
            }
            assert forall|k: int| 0 <= k < links.len() implies {
                let l = #[trigger] links[k];
                &&& traffic.contains_key(l.index) == (l.name != "lo"@ && stats.contains_key(
                    l.index,
                ) && now > stats[l.index].2)
                &&& traffic.contains_key(l.index) ==> traffic[l.index] == (Traffic {
                    rx: gained(l.rx_bytes, stats[l.index].0),
                    tx: gained(l.tx_bytes, stats[l.index].1),
                    nanos: (now - stats[l.index].2) as u64,
                })
            } by {
                if k < rest.len() {
                    assert(rest[k] == links[k]);
                }
            }
        }
    }
}

proof fn lemma_reading_leaves_others(
    stats: Map<u32, Counters>,
    links: Seq<LinkView>,
    now: u64,
    index: u32,
)
    requires
        forall|k: int| 0 <= k < links.len() ==> (#[trigger] links[k]).index != index,
    ensures
        after_reading(stats, links, now).0.contains_key(index) == stats.contains_key(index),
        stats.contains_key(index) ==> after_reading(stats, links, now).0[index] == stats[index],
    decreases links.len(),
{
    if links.len() > 0 {
        assert(links[links.len() - 1] == links.last());
        assert forall|k: int| 0 <= k < links.drop_last().len() implies (
        #[trigger] links.drop_last()[k]).index != index by {
            assert(links.drop_last()[k] == links[k]);
        }
        lemma_reading_leaves_others(stats, links.drop_last(), now, index);
    }
}

impl NetState {
    /// What the worker tells at its start.
    pub fn first_event(&self) -> (r: WorkerEvent)
        ensures
            event_views(seq![r]) == worker_events(sorting::views(self.snapshot@), Seq::empty()),
    {
        let r = WorkerEvent::Snapshot(clone_snapshot(&self.snapshot));
        proof {
            assert(event_views(seq![r]) =~= seq![
                EventView::Snapshot(sorting::views(self.snapshot@)),
            ]);
        }
        r
    }

    /// Ends a run of change notices, and gives what the worker tells then.
    pub fn events_after_drain(&mut self, link_changed: bool, ssid: Option<String>) -> (r: Vec<
        WorkerEvent,
    >)
        ensures
            final(self).shown(),
            final(self).links@ == old(self).links@,
            final(self).addrs@ == old(self).addrs@,
            final(self).stats@ == old(self).stats@,
            final(self).wifi@ == (if link_changed {
                wifi_of(net_info::link_views(old(self).links@), ssid)
            } else {
                old(self).wifi@
            }),
            event_views(r@) == round_events(
                sorting::views(old(self).snapshot@),
                (Round { shown: sorting::views(final(self).snapshot@), traffic: None }),
            ),
    {
        let mut out: Vec<WorkerEvent> = Vec::new();
        if let Some(list) = self.after_drain(link_changed, ssid) {
            out.push(WorkerEvent::Snapshot(list));
        }
        proof {
            assert(event_views(out@) =~= round_events(
                sorting::views(old(self).snapshot@),
                Round { shown: sorting::views(self.snapshot@), traffic: None },
            ));
        }
        out
    }

    /// Takes in a fresh link dump for its byte counters, and gives what the
    /// worker tells then.
    pub fn events_after_timeout(&mut self, new_links: &Vec<LinkInfo>, now: u64) -> (r: Vec<
        WorkerEvent,
    >)
        ensures
            final(self).stats@ == after_reading(
                old(self).stats@,
                net_info::link_views(new_links@),
                now,
            ).0,
            net_info::link_views(final(self).links@) == with_totals(
                net_info::link_views(old(self).links@),
                net_info::link_views(new_links@),
            ),
            final(self).addrs@ == old(self).addrs@,
            final(self).wifi@ == old(self).wifi@,
            final(self).shown(),
            event_views(r@) == round_events(
                sorting::views(old(self).snapshot@),
                (Round {
                    shown: sorting::views(final(self).snapshot@),
                    traffic: Some(
                        after_reading(
                            old(self).stats@,
                            net_info::link_views(new_links@),
                            now,
                        ).1,
                    ),
                }),
            ),
    {
        let (shown, traffic) = self.on_timeout(new_links, now);
        let ghost told = traffic@;
        let mut out: Vec<WorkerEvent> = Vec::new();
        if let Some(list) = shown {
            out.push(WorkerEvent::Snapshot(list));
        }
        out.push(WorkerEvent::Traffic(traffic));
        proof {
            assert(event_views(out@) =~= round_events(
                sorting::views(old(self).snapshot@),
                Round { shown: sorting::views(self.snapshot@), traffic: Some(told) },
            ));
        }
        out
    }
}

// ---------------------------------------------------------------------------
// The worker
// ---------------------------------------------------------------------------

/// What the worker is to do next.
#[derive(Debug)]
pub enum WorkerStep {
    Send(WorkerEvent),
    /// Listen for change notices, and read the counters now and then.
    Listen,
    /// Nobody listens any more.
    Stop,
}

/// The events that the worker still has to send, and whether it has ended.
#[verifier::ext_equal]
pub struct Post {
    pub waiting: Seq<EventView>,
    pub ended: bool,
}

/// What happens to the events of the worker.
pub enum PostStep {
    /// Events are to be sent.
    Told(Seq<EventView>),
    /// The first of them is taken, to be sent.
    Taken,
    /// An event that was taken was sent, or could not be.
    Sent(bool),
}

impl Post {
    /// What is left after something happened. A worker that could not send an
    /// event ends, and does nothing more.
    pub open spec fn after(self, step: PostStep) -> Post {
        if self.ended {
            self
        } else {
            match step {
                PostStep::Told(events) => Post { waiting: self.waiting + events, ..self },
                PostStep::Taken => if self.waiting.len() > 0 {
                    Post { waiting: self.waiting.skip(1), ..self }
                } else {
                    self
                },
                PostStep::Sent(ok) => if ok {
                    self
                } else {
                    Post { waiting: Seq::empty(), ended: true }
                },
            }
        }
    }

    /// What is left after several things happened.
    pub open spec fn after_all(self, steps: Seq<PostStep>) -> Post
        decreases steps.len(),
    {
        if steps.len() == 0 {
            self
        } else {
            self.after_all(steps.drop_last()).after(steps.last())
        }
    }

    /// The events that were taken to be sent.
    pub open spec fn taken(self, steps: Seq<PostStep>) -> Seq<EventView>
        decreases steps.len(),
    {
        if steps.len() == 0 {
            Seq::empty()
        } else {
            let before = self.after_all(steps.drop_last());
            let rest = self.taken(steps.drop_last());
            if steps.last() is Taken && !before.ended && before.waiting.len() > 0 {
                rest.push(before.waiting[0])
            } else {
                rest
            }
        }
    }
}

/// The events that were to be sent.
pub open spec fn all_told(steps: Seq<PostStep>) -> Seq<EventView>
    decreases steps.len(),
{
    if steps.len() == 0 {
        Seq::empty()
    } else {
        match steps.last() {
            PostStep::Told(events) => all_told(steps.drop_last()) + events,
            _ => all_told(steps.drop_last()),
        }
    }
}

/// Once an event could not be sent the worker has ended, whatever happens
/// after that, and nothing is left to be sent.
pub proof fn law_worker_ends_when_nobody_listens(post: Post, steps: Seq<PostStep>, i: int)
    requires
        0 <= i < steps.len(),
        steps[i] == PostStep::Sent(false),
    ensures
        post.after_all(steps).ended,
        !post.after_all(steps.take(i)).ended ==> post.after_all(steps).waiting.len() == 0,
    decreases steps.len(),
{
    let front = steps.drop_last();
    if i < steps.len() - 1 {
        assert(front[i] == steps[i]);
        law_worker_ends_when_nobody_listens(post, front, i);
        assert(front.take(i) =~= steps.take(i));
    } else {
        assert(front =~= steps.take(i));
    }
}

/// Events are sent in the order in which they were told, none twice and, while
/// the worker has not ended, none left out.
pub proof fn law_events_are_sent_in_order(post: Post, steps: Seq<PostStep>)
    ensures
        !post.after_all(steps).ended ==> post.taken(steps) + post.after_all(steps).waiting
            == post.waiting + all_told(steps),
    decreases steps.len(),
{
    if steps.len() == 0 {
        assert(post.taken(steps) + post.waiting =~= post.waiting + all_told(steps));
    } else {
        let front = steps.drop_last();
        law_events_are_sent_in_order(post, front);
        let before = post.after_all(front);
        let after = post.after_all(steps);
        if !after.ended {
            let sent = post.taken(front);
            let told = all_told(front);
            match steps.last() {
                PostStep::Told(events) => {
                    assert(sent + (before.waiting + events) =~= (sent + before.waiting) + events);
                    assert(post.waiting + (told + events) =~= (post.waiting + told) + events);
                },
                PostStep::Taken => {
                    if before.waiting.len() > 0 {
                        assert(sent.push(before.waiting[0]) + before.waiting.skip(1) =~= sent
                            + before.waiting);
                    }
                },
                PostStep::Sent(_) => {},
            }
        }
    }
}

/// What is known of the interfaces, and what is still to be told of them.
pub struct Worker {
    pub state: NetState,
    pub outbox: Vec<WorkerEvent>,
    pub gone: bool,
}

impl Worker {
    /// The events still to be sent, and whether the worker has ended.
    pub open spec fn post(&self) -> Post {
        Post { waiting: event_views(self.outbox@), ended: self.gone }
    }

    /// A worker that is about to tell what it knows.
    pub fn new(state: NetState) -> (r: Worker)
        ensures
            r.state == state,
            r.post() == (Post {
                waiting: worker_events(sorting::views(state.snapshot@), Seq::empty()),
                ended: false,
            }),
    {
        let mut outbox: Vec<WorkerEvent> = Vec::new();
        let first = state.first_event();
        outbox.push(first);
        proof {
            assert(outbox@ =~= seq![first]);
        }
        Worker { state, outbox, gone: false }
    }

    /// What is to be done next.
    pub fn next(&mut self) -> (r: WorkerStep)
        ensures
            final(self).state == old(self).state,
            final(self).post() == old(self).post().after(PostStep::Taken),
            if old(self).post().ended {
                r is Stop
            } else if old(self).post().waiting.len() > 0 {
                r matches WorkerStep::Send(e) && e@ == old(self).post().waiting[0]
            } else {
                r is Listen
            },
    {
        if self.gone {
            return WorkerStep::Stop;
        }
        if self.outbox.len() == 0 {
            return WorkerStep::Listen;
        }
        let ghost had = self.outbox@;
        let e = self.outbox.remove(0);
        proof {
            assert(event_views(self.outbox@) =~= event_views(had).skip(1));
        }
        WorkerStep::Send(e)
    }

    /// An event was sent, or could not be.
    pub fn on_sent(&mut self, delivered: bool)
        ensures
            final(self).state == old(self).state,
            final(self).post() == old(self).post().after(PostStep::Sent(delivered)),
    {
        if !delivered && !self.gone {
            self.outbox = Vec::new();
            self.gone = true;
            proof {
                assert(event_views(self.outbox@) =~= Seq::<EventView>::empty());
            }
        }
    }

    fn tell(&mut self, events: Vec<WorkerEvent>)
        ensures
            final(self).state == old(self).state,
            final(self).post() == old(self).post().after(PostStep::Told(event_views(events@))),
    {
        if !self.gone {
            let ghost had = self.outbox@;
            let mut more = events;
            self.outbox.append(&mut more);
            proof {
                assert(event_views(self.outbox@) =~= event_views(had) + event_views(events@));
            }
        }
    }

    /// A run of change notices ended.
    pub fn on_drained(&mut self, link_changed: bool, ssid: Option<String>)
        ensures
            final(self).state.shown(),
            final(self).state.links@ == old(self).state.links@,
            final(self).state.addrs@ == old(self).state.addrs@,
            final(self).state.stats@ == old(self).state.stats@,
            final(self).state.wifi@ == (if link_changed {
                wifi_of(net_info::link_views(old(self).state.links@), ssid)
            } else {
                old(self).state.wifi@
            }),
            final(self).post() == old(self).post().after(
                PostStep::Told(
                    round_events(
                        sorting::views(old(self).state.snapshot@),
                        (Round {
                            shown: sorting::views(final(self).state.snapshot@),
                            traffic: None,
                        }),
                    ),
                ),
            ),
    {
        let events = self.state.events_after_drain(link_changed, ssid);
        self.tell(events);
    }

    /// The counters were read.
    pub fn on_counters(&mut self, new_links: &Vec<LinkInfo>, now: u64)
        ensures
            final(self).state.stats@ == after_reading(
                old(self).state.stats@,
                net_info::link_views(new_links@),
                now,
            ).0,
            net_info::link_views(final(self).state.links@) == with_totals(
                net_info::link_views(old(self).state.links@),
                net_info::link_views(new_links@),
            ),
            final(self).state.addrs@ == old(self).state.addrs@,
            final(self).state.wifi@ == old(self).state.wifi@,
            final(self).state.shown(),
            final(self).post() == old(self).post().after(
                PostStep::Told(
                    round_events(
                        sorting::views(old(self).state.snapshot@),
                        (Round {
                            shown: sorting::views(final(self).state.snapshot@),
                            traffic: Some(
                                after_reading(
                                    old(self).state.stats@,
                                    net_info::link_views(new_links@),
                                    now,
                                ).1,
                            ),
                        }),
                    ),
                ),
            ),
    {
        let events = self.state.events_after_timeout(new_links, now);
        self.tell(events);
    }
}

// ---------------------------------------------------------------------------
// Laws of the notices
// ---------------------------------------------------------------------------

proof fn lemma_without_addr(s: Seq<AddrInfo>, a: AddrInfo)
    ensures
        forall|x: AddrInfo| #[trigger]
            without_addr(s, a).to_multiset().count(x) == if x == a {
                0nat
            } else {
                s.to_multiset().count(x)
            },
    decreases s.len(),
{
    broadcast use vstd::seq_lib::group_to_multiset_ensures;

    reveal(Seq::filter);
    if s.len() > 0 {
        let t = s.drop_last();
        lemma_without_addr(t, a);
        let f = without_addr(t, a);
        assert(t.push(s.last()) =~= s);
        if s.last() != a {
            assert(without_addr(s, a) =~= f.push(s.last()));
        } else {
            assert(without_addr(s, a) =~= f);
        }
    }
}

/// After a readable notice of a new address it is known exactly once; after one
/// of a lost address it is not known. Every other address is known as often as
/// before, and links and counters stay.
pub proof fn law_address_notices(
    c: Caches,
    flags: u16,
    payload: Seq<u8>,
    order: ByteOrder,
    a: AddrInfo,
)
    requires
        net_info::addr_of(payload, order) == Some(a),
    ensures
        ({
            let t = after_notice(c, (20u16, flags, payload), order);
            &&& t.addrs.contains(a)
            &&& t.addrs.last() == a
            &&& t.addrs.to_multiset().count(a) == 1
            &&& forall|x: AddrInfo|
                x != a ==> (#[trigger] t.addrs.contains(x) <==> c.addrs.contains(x))
            &&& forall|x: AddrInfo|
                x != a ==> #[trigger] t.addrs.to_multiset().count(x)
                    == c.addrs.to_multiset().count(x)
            &&& t.links == c.links
            &&& t.stats == c.stats
            &&& t.link_changed == c.link_changed
        }),
        ({
            let t = after_notice(c, (21u16, flags, payload), order);
            &&& !t.addrs.contains(a)
            &&& forall|x: AddrInfo|
                x != a ==> (#[trigger] t.addrs.contains(x) <==> c.addrs.contains(x))
            &&& forall|x: AddrInfo|
                x != a ==> #[trigger] t.addrs.to_multiset().count(x)
                    == c.addrs.to_multiset().count(x)
            &&& t.links == c.links
            &&& t.stats == c.stats
            &&& t.link_changed == c.link_changed
        }),
{
    broadcast use vstd::seq_lib::group_to_multiset_ensures;

    lemma_without_addr(c.addrs, a);
    let f = without_addr(c.addrs, a);
    let t = after_notice(c, (20u16, flags, payload), order);
    let u = after_notice(c, (21u16, flags, payload), order);
    assert(t.addrs == f.push(a));
    assert(u.addrs == f);
    assert forall|x: AddrInfo| x != a implies (#[trigger] f.contains(x) <==> c.addrs.contains(
        x,
    )) by {
        assert(f.to_multiset().count(x) == c.addrs.to_multiset().count(x));
    }
    assert(!f.contains(a)) by {
        assert(f.to_multiset().count(a) == 0);
    }
    sorting::lemma_push_holds(f, a);
}

proof fn lemma_without_link(s: Seq<LinkView>, index: u32)
    ensures
        forall|x: LinkView| #[trigger]
            without_link(s, index).contains(x) <==> x.index != index && s.contains(x),
    decreases s.len(),
{
    reveal(Seq::filter);
    if s.len() > 0 {
        let t = s.drop_last();
        lemma_without_link(t, index);
        assert(t.push(s.last()) =~= s);
        sorting::lemma_push_holds(t, s.last());
        sorting::lemma_push_holds(without_link(t, index), s.last());
    }
}

/// After a readable notice of a link it is known as the notice says, and no
/// other is under its index; after one of a lost link none is, and its counters
/// are forgotten. All other links, and the addresses, stay, and either notice
/// says that the links changed.
pub proof fn law_link_notices(
    c: Caches,
    flags: u16,
    payload: Seq<u8>,
    order: ByteOrder,
    l: LinkView,
)
    requires
        net_info::link_of(payload, order) == Some(l),
        one_per_index(c.links),
    ensures
        ({
            let t = after_notice(c, (16u16, flags, payload), order);
            &&& t.links.contains(l)
            &&& forall|x: LinkView| #[trigger]
                t.links.contains(x) && x.index == l.index ==> x == l
            &&& forall|x: LinkView|
                x.index != l.index ==> (#[trigger] t.links.contains(x) <==> c.links.contains(x))
            &&& t.addrs == c.addrs
            &&& t.stats == c.stats
            &&& t.link_changed
        }),
        ({
            let t = after_notice(c, (17u16, flags, payload), order);
            &&& forall|x: LinkView| #[trigger]
                t.links.contains(x) <==> x.index != l.index && c.links.contains(x)
            &&& !t.stats.contains_key(l.index)
            &&& forall|i: u32|
                i != l.index ==> (#[trigger] t.stats.contains_key(i) <==> c.stats.contains_key(i))
            &&& forall|i: u32|
                i != l.index && #[trigger] c.stats.contains_key(i) ==> t.stats[i] == c.stats[i]
            &&& t.addrs == c.addrs
            &&& t.link_changed
        }),
{
    lemma_without_link(c.links, l.index);
    lemma_with_link_holds(c.links, l);
}

proof fn lemma_with_link_holds(s: Seq<LinkView>, l: LinkView)
    requires
        one_per_index(s),
    ensures
        forall|x: LinkView| #[trigger]
            with_link(s, l).contains(x) <==> x == l || x.index != l.index && s.contains(x),
{
    let n = lemma_find_link(s, l.index);
    lemma_with_link(s, l, n);
    let t = with_link(s, l);
    if n == s.len() {
        sorting::lemma_push_holds(s, l);
        assert forall|x: LinkView| #[trigger] t.contains(x) <==> x == l || x.index != l.index
            && s.contains(x) by {
            if s.contains(x) {
                let i = choose|i: int| 0 <= i < s.len() && s[i] == x;
                assert(s[i].index != l.index);
            }
        }
    } else {
        assert forall|x: LinkView| #[trigger] t.contains(x) <==> x == l || x.index != l.index
            && s.contains(x) by {
            assert(t[n] == l);
            if t.contains(x) {
                let i = choose|i: int| 0 <= i < t.len() && t[i] == x;
                if i < n {
                    assert(s[i] == x && s[i].index != s[n].index);
                } else if i > n {
                    assert(s[i] == x && s[n].index != s[i].index);
                }
            }
            if x.index != l.index && s.contains(x) {
                let i = choose|i: int| 0 <= i < s.len() && s[i] == x;
                assert(t[i] == x);
            }
        }
    }
}

/// Other messages do nothing, and neither do notices that cannot be read.
pub proof fn law_other_messages_do_nothing(c: Caches, m: Msg, order: ByteOrder)
    ensures
        m.0 != 16 && m.0 != 17 && m.0 != 20 && m.0 != 21 ==> after_notice(c, m, order) == c,
        (m.0 == 16 || m.0 == 17) && net_info::link_of(m.2, order) is None ==> after_notice(
            c,
            m,
            order,
        ) == c,
        (m.0 == 20 || m.0 == 21) && net_info::addr_of(m.2, order) is None ==> after_notice(
            c,
            m,
            order,
        ) == c,
{
}

/// Notices take effect one after the other, none left out.
pub proof fn law_notices_apply_in_order(c: Caches, a: Seq<Msg>, m: Msg, b: Seq<Msg>, order: ByteOrder)
    ensures
        after_notices(c, a.push(m) + b, order) == after_notices(
            after_notice(after_notices(c, a, order), m, order),
            b,
            order,
        ),
        after_notices(c, Seq::empty(), order) == c,
    decreases b.len(),
{
    let s = a.push(m) + b;
    if b.len() == 0 {
        assert(s =~= a.push(m));
        assert(a.push(m).drop_last() =~= a);
    } else {
        law_notices_apply_in_order(c, a, m, b.drop_last(), order);
        assert(s.drop_last() =~= a.push(m) + b.drop_last());
        assert(s.last() == b.last());
    }
}

// ---------------------------------------------------------------------------
// Laws of what is shown
// ---------------------------------------------------------------------------

/// An interface is shown with exactly the addresses that are known for its
/// index, each once: those of the IPv4 family as IPv4, those of the IPv6 family
/// as IPv6.
pub proof fn law_addresses_are_those_of_the_interface(addrs: Seq<AddrInfo>, index: u32)
    ensures
        forall|v: u32| #[trigger]
            v4_of(addrs, index).contains(v) <==> exists|i: int|
                0 <= i < addrs.len() && (#[trigger] addrs[i]).index == index && addrs[i].family == 2
                    && addrs[i].ipv4 == Some(v),
        v4_of(addrs, index).no_duplicates(),
        forall|v: u128| #[trigger]
            v6_of(addrs, index).contains(v) <==> exists|i: int|
                0 <= i < addrs.len() && (#[trigger] addrs[i]).index == index && addrs[i].family
                    == 10 && addrs[i].ipv6 == Some(v),
        v6_of(addrs, index).no_duplicates(),
    decreases addrs.len(),
{
    if addrs.len() > 0 {
        let t = addrs.drop_last();
        let a = addrs.last();
        law_addresses_are_those_of_the_interface(t, index);
        let n = addrs.len() - 1;
        assert(addrs[n] == a);
        if let Some(v) = a.ipv4 {
            sorting::lemma_push_holds(v4_of(t, index), v);
        }
        if let Some(v) = a.ipv6 {
            sorting::lemma_push_holds(v6_of(t, index), v);
        }
        assert forall|v: u32| #[trigger] v4_of(addrs, index).contains(v) <==> exists|i: int|
            0 <= i < addrs.len() && (#[trigger] addrs[i]).index == index && addrs[i].family == 2
                && addrs[i].ipv4 == Some(v) by {
            if v4_of(t, index).contains(v) {
                let i = choose|i: int|
                    0 <= i < t.len() && (#[trigger] t[i]).index == index && t[i].family == 2
                        && t[i].ipv4 == Some(v);
                assert(addrs[i] == t[i]);
            }
            if exists|i: int|
                0 <= i < addrs.len() && (#[trigger] addrs[i]).index == index && addrs[i].family == 2
                    && addrs[i].ipv4 == Some(v) {
                let i = choose|i: int|
                    0 <= i < addrs.len() && (#[trigger] addrs[i]).index == index && addrs[i].family
                        == 2 && addrs[i].ipv4 == Some(v);
                if i < n {
                    assert(t[i] == addrs[i]);
                }
            }
        }
        assert forall|v: u128| #[trigger] v6_of(addrs, index).contains(v) <==> exists|i: int|
            0 <= i < addrs.len() && (#[trigger] addrs[i]).index == index && addrs[i].family == 10
                && addrs[i].ipv6 == Some(v) by {
            if v6_of(t, index).contains(v) {
                let i = choose|i: int|
                    0 <= i < t.len() && (#[trigger] t[i]).index == index && t[i].family == 10
                        && t[i].ipv6 == Some(v);
                assert(addrs[i] == t[i]);
            }
            if exists|i: int|
                0 <= i < addrs.len() && (#[trigger] addrs[i]).index == index && addrs[i].family
                    == 10 && addrs[i].ipv6 == Some(v) {
                let i = choose|i: int|
                    0 <= i < addrs.len() && (#[trigger] addrs[i]).index == index && addrs[i].family
                        == 10 && addrs[i].ipv6 == Some(v);
                if i < n {
                    assert(t[i] == addrs[i]);
                }
            }
        }
    }
}

/// Whether `x` is what is shown of link `l`.
pub open spec fn shows_link(
    x: SnapView,
    l: LinkView,
    addrs: Seq<AddrInfo>,
    wifi: Map<u32, Option<String>>,
) -> bool {
    &&& x.index == l.index
    &&& x.name == l.name
    &&& x.operstate == l.operstate
    &&& x.mac == l.mac
    &&& x.rx_bytes == l.rx_bytes
    &&& x.tx_bytes == l.tx_bytes
    &&& x.is_physical == l.is_physical
    &&& (x.is_wireless <==> ("wl"@).is_prefix_of(l.name))
    &&& x.ipv4 == v4_of(addrs, l.index)
    &&& x.ipv6 == v6_of(addrs, l.index)
    &&& (wifi.contains_key(l.index) && wifi[l.index] is Some ==> x.wifi_ssid == Some(
        wifi[l.index]->0@,
    ))
    &&& (!wifi.contains_key(l.index) || wifi[l.index] is None ==> x.wifi_ssid is None)
}

proof fn lemma_snaps(links: Seq<LinkView>, addrs: Seq<AddrInfo>, wifi: Map<u32, Option<String>>)
    ensures
        forall|i: int|
            0 <= i < links.len() && (#[trigger] links[i]).name != "lo"@ ==> snaps_of(
                links,
                addrs,
                wifi,
            ).contains(snap_of(links[i], addrs, wifi)),
        forall|x: SnapView| #[trigger]
            snaps_of(links, addrs, wifi).contains(x) ==> exists|i: int|
                0 <= i < links.len() && (#[trigger] links[i]).name != "lo"@ && x == snap_of(
                    links[i],
                    addrs,
                    wifi,
                ),
    decreases links.len(),
{
    if links.len() > 0 {
        let t = links.drop_last();
        lemma_snaps(t, addrs, wifi);
        let rest = snaps_of(t, addrs, wifi);
        let n = links.len() - 1;
        let s = snap_of(links[n], addrs, wifi);
        assert(links[n] == links.last());
        sorting::lemma_push_holds(rest, s);
        assert forall|i: int| 0 <= i < links.len() && (#[trigger] links[i]).name != "lo"@ implies
            snaps_of(links, addrs, wifi).contains(snap_of(links[i], addrs, wifi)) by {
            if i < n {
                assert(t[i] == links[i]);
            }
        }
        assert forall|x: SnapView| #[trigger] snaps_of(links, addrs, wifi).contains(
            x,
        ) implies exists|i: int|
            0 <= i < links.len() && (#[trigger] links[i]).name != "lo"@ && x == snap_of(
                links[i],
                addrs,
                wifi,
            ) by {
            if rest.contains(x) {
                let i = choose|i: int|
                    0 <= i < t.len() && (#[trigger] t[i]).name != "lo"@ && x == snap_of(
                        t[i],
                        addrs,
                        wifi,
                    );
                assert(links[i] == t[i]);
            }
        }
    }
}

proof fn lemma_snap_shows(l: LinkView, addrs: Seq<AddrInfo>, wifi: Map<u32, Option<String>>)
    ensures
        shows_link(snap_of(l, addrs, wifi), l, addrs, wifi),
{
    text::law_places_of_a_text(l.name, "wl"@);
}

/// Every link but loopback is shown, each as it is known, nothing else is, and
/// the list is in the order of the names.
pub proof fn law_all_links_but_loopback_are_shown(
    links: Seq<LinkView>,
    addrs: Seq<AddrInfo>,
    wifi: Map<u32, Option<String>>,
    shown: Seq<SnapView>,
)
    requires
        is_merge(links, addrs, wifi, shown),
    ensures
        forall|i: int|
            0 <= i < links.len() && (#[trigger] links[i]).name != "lo"@ ==> exists|k: int|
                0 <= k < shown.len() && shows_link(#[trigger] shown[k], links[i], addrs, wifi),
        forall|x: SnapView| #[trigger]
            shown.contains(x) ==> exists|i: int|
                0 <= i < links.len() && (#[trigger] links[i]).name != "lo"@ && shows_link(
                    x,
                    links[i],
                    addrs,
                    wifi,
                ),
        forall|i: int, j: int|
            0 <= i < j < shown.len() ==> sorting::text_le(
                (#[trigger] shown[i]).name,
                (#[trigger] shown[j]).name,
            ),
{
    let input = snaps_of(links, addrs, wifi);
    let ranks = |a: SnapView, b: SnapView| IfaceSnapshot::ranks(a, b);
    assert forall|a: SnapView| #[trigger] ranks(a, a) by {
        IfaceSnapshot::ranks_total(a, a);
    }
    sorting::law_sorting_loses_nothing(input, shown, ranks);
    lemma_snaps(links, addrs, wifi);
    assert forall|i: int| 0 <= i < links.len() && (#[trigger] links[i]).name
        != "lo"@ implies exists|k: int|
        0 <= k < shown.len() && shows_link(#[trigger] shown[k], links[i], addrs, wifi) by {
        let x = snap_of(links[i], addrs, wifi);
        lemma_snap_shows(links[i], addrs, wifi);
        assert(shown.contains(x));
        let k = choose|k: int| 0 <= k < shown.len() && shown[k] == x;
        assert(shows_link(shown[k], links[i], addrs, wifi));
    }
    assert forall|x: SnapView| #[trigger] shown.contains(x) implies exists|i: int|
        0 <= i < links.len() && (#[trigger] links[i]).name != "lo"@ && shows_link(
            x,
            links[i],
            addrs,
            wifi,
        ) by {
        assert(input.contains(x));
        let i = choose|i: int|
            0 <= i < links.len() && (#[trigger] links[i]).name != "lo"@ && x == snap_of(
                links[i],
                addrs,
                wifi,
            );
        lemma_snap_shows(links[i], addrs, wifi);
    }
    assert forall|i: int, j: int| 0 <= i < j < shown.len() implies sorting::text_le(
        (#[trigger] shown[i]).name,
        (#[trigger] shown[j]).name,
    ) by {
        assert(ranks(shown[i], shown[j]));
    }
}

proof fn lemma_wireless_name(name: Seq<char>)
    ensures
        is_wireless_name(name) <==> ("wl"@).is_prefix_of(name),
{
    text::law_places_of_a_text(name, "wl"@);
}

/// A wireless interface that is up has the network's name, one that is not up
/// is remembered without a name, and other interfaces are not remembered.
pub proof fn law_network_names(links: Seq<LinkView>, ssid: Option<String>, k: int)
    requires
        one_per_index(links),
        0 <= k < links.len(),
    ensures
        wifi_of(links, ssid).contains_key(links[k].index) <==> ("wl"@).is_prefix_of(links[k].name),
        ("wl"@).is_prefix_of(links[k].name) && links[k].operstate == OperState::Up ==> wifi_of(
            links,
            ssid,
        )[links[k].index] == ssid,
        ("wl"@).is_prefix_of(links[k].name) && links[k].operstate != OperState::Up ==> wifi_of(
            links,
            ssid,
        )[links[k].index] is None,
    decreases links.len(),
{
    let n = links.len() - 1;
    lemma_wireless_name(links[k].name);
    if k < n {
        let t = links.drop_last();
        assert(one_per_index(t)) by {
            assert forall|i: int, j: int| 0 <= i < j < t.len() implies (#[trigger] t[i]).index != (
            #[trigger] t[j]).index by {
                assert(links[i].index != links[j].index);
            }
        }
        law_network_names(t, ssid, k);
        assert(t[k] == links[k]);
        assert(links[k].index != links[n].index);
    }
}

/// The counters that are remembered are those of each link, with the time of
/// the reading; of links under one index, those of the last.
pub proof fn law_counters_are_those_read(links: Seq<LinkView>, now: u64, k: int)
    requires
        0 <= k < links.len(),
        forall|j: int| k < j < links.len() ==> (#[trigger] links[j]).index != links[k].index,
    ensures
        counters_of(links, now).contains_key(links[k].index),
        counters_of(links, now)[links[k].index] == (links[k].rx_bytes, links[k].tx_bytes, now),
    decreases links.len(),
{
    let n = links.len() - 1;
    if k < n {
        let t = links.drop_last();
        assert(t[k] == links[k]);
        assert forall|j: int| k < j < t.len() implies (#[trigger] t[j]).index != t[k].index by {
            assert(links[j] == t[j]);
        }
        law_counters_are_those_read(t, now, k);
        assert(links[n].index != links[k].index);
    }
}

/// No counters are remembered but those of links that were read.
pub proof fn law_counters_are_of_links(links: Seq<LinkView>, now: u64, index: u32)
    requires
        counters_of(links, now).contains_key(index),
    ensures
        exists|k: int| 0 <= k < links.len() && (#[trigger] links[k]).index == index,
    decreases links.len(),
{
    let n = links.len() - 1;
    if links[n].index != index {
        let t = links.drop_last();
        law_counters_are_of_links(t, now, index);
        let k = choose|k: int| 0 <= k < t.len() && (#[trigger] t[k]).index == index;
        assert(links[k] == t[k]);
    }
}

/// A reading of the counters changes nothing of the remembered links but the
/// counters: each gets those that were read for it, and keeps its own if none
/// were.
pub proof fn law_readings_change_counters_only(known: Seq<LinkView>, links: Seq<LinkView>)
    requires
        one_per_index(links),
    ensures
        ({
            let t = with_totals(known, links);
            &&& t.len() == known.len()
            &&& forall|k: int|
                0 <= k < known.len() ==> {
                    let x = #[trigger] t[k];
                    &&& x == (LinkView {
                        rx_bytes: x.rx_bytes,
                        tx_bytes: x.tx_bytes,
                        ..known[k]
                    })
                    &&& forall|j: int|
                        0 <= j < links.len() && (#[trigger] links[j]).index == known[k].index
                            ==> x.rx_bytes == links[j].rx_bytes && x.tx_bytes == links[j].tx_bytes
                    &&& (forall|j: int|
                        0 <= j < links.len() ==> (#[trigger] links[j]).index != known[k].index)
                        ==> x == known[k]
                }
        }),
    decreases links.len(),
{
    if links.len() > 0 {
        let front = links.drop_last();
        let n = links.len() - 1;
        assert forall|i: int, j: int| 0 <= i < j < front.len() implies (
        #[trigger] front[i]).index != (#[trigger] front[j]).index by {
            assert(links[i].index != links[j].index);
        }
        law_readings_change_counters_only(known, front);
        let before = with_totals(known, front);
        let t = with_totals(known, links);
        assert(links[n] == links.last());
        assert forall|k: int| 0 <= k < known.len() implies {
            let x = #[trigger] t[k];
            &&& x == (LinkView { rx_bytes: x.rx_bytes, tx_bytes: x.tx_bytes, ..known[k] })
            &&& forall|j: int|
                0 <= j < links.len() && (#[trigger] links[j]).index == known[k].index
                    ==> x.rx_bytes == links[j].rx_bytes && x.tx_bytes == links[j].tx_bytes
            &&& (forall|j: int|
                0 <= j < links.len() ==> (#[trigger] links[j]).index != known[k].index) ==> x
                == known[k]
        } by {
            let y = before[k];
            let x = t[k];
            assert(x == with_counters(y, links[n]));
            assert forall|j: int|
                0 <= j < links.len() && (#[trigger] links[j]).index
                    == known[k].index implies x.rx_bytes == links[j].rx_bytes && x.tx_bytes
                == links[j].tx_bytes by {
                if j < n {
                    assert(front[j] == links[j]);
                    assert(links[j].index != links[n].index);
                }
            }
            if forall|j: int|
                0 <= j < links.len() ==> (#[trigger] links[j]).index != known[k].index {
                assert forall|j: int| 0 <= j < front.len() implies (#[trigger] front[j]).index
                    != known[k].index by {
                    assert(links[j] == front[j]);
                }
            }
        }
    }
}

/// After a dump the last link dumped under each index is known.
pub proof fn law_dump_keeps_the_last_of_each_index(links: Seq<LinkView>, k: int)
    requires
        0 <= k < links.len(),
        forall|j: int| k < j < links.len() ==> (#[trigger] links[j]).index != links[k].index,
    ensures
        links_after_dump(links).contains(links[k]),
    decreases links.len(),
{
    let n = links.len() - 1;
    let t = links.drop_last();
    law_dump_leaves_one_link_per_index(t);
    lemma_with_link_holds(links_after_dump(t), links.last());
    if k < n {
        assert(t[k] == links[k]);
        assert forall|j: int| k < j < t.len() implies (#[trigger] t[j]).index != t[k].index by {
            assert(links[j] == t[j]);
        }
        law_dump_keeps_the_last_of_each_index(t, k);
        assert(links[n].index != links[k].index);
    }
}

/// After a dump only links that were dumped are known.
pub proof fn law_dump_adds_nothing(links: Seq<LinkView>, x: LinkView)
    requires
        links_after_dump(links).contains(x),
    ensures
        links.contains(x),
    decreases links.len(),
{
    if links.len() > 0 {
        let t = links.drop_last();
        law_dump_leaves_one_link_per_index(t);
        lemma_with_link_holds(links_after_dump(t), links.last());
        assert(t.push(links.last()) =~= links);
        sorting::lemma_push_holds(t, links.last());
        if x != links.last() {
            law_dump_adds_nothing(t, x);
        }
    }
}

/// After a reading the remembered counters of each link but loopback are those
/// read, with the time; everything else that was remembered stays.
pub proof fn law_reading_is_remembered(stats: Map<u32, Counters>, links: Seq<LinkView>, now: u64)
    requires
        one_per_index(links),
    ensures
        ({
            let s = after_reading(stats, links, now).0;
            &&& forall|k: int|
                0 <= k < links.len() && (#[trigger] links[k]).name != "lo"@ ==> s.contains_key(
                    links[k].index,
                ) && s[links[k].index] == (links[k].rx_bytes, links[k].tx_bytes, now)
            &&& forall|i: u32|
                (forall|k: int|
                    0 <= k < links.len() && (#[trigger] links[k]).name != "lo"@ ==> links[k].index
                        != i) ==> (#[trigger] s.contains_key(i) <==> stats.contains_key(i)) && (
                stats.contains_key(i) ==> s[i] == stats[i])
        }),
    decreases links.len(),
{
    if links.len() > 0 {
        let t = links.drop_last();
        let n = links.len() - 1;
        assert forall|i: int, j: int| 0 <= i < j < t.len() implies (#[trigger] t[i]).index != (
        #[trigger] t[j]).index by {
            assert(links[i].index != links[j].index);
        }
        law_reading_is_remembered(stats, t, now);
        let s = after_reading(stats, links, now).0;
        let before = after_reading(stats, t, now).0;
        assert(links[n] == links.last());
        assert forall|k: int| 0 <= k < links.len() && (#[trigger] links[k]).name != "lo"@ implies
            s.contains_key(links[k].index) && s[links[k].index] == (
            links[k].rx_bytes,
            links[k].tx_bytes,
            now,
        ) by {
            if k < n {
                assert(t[k] == links[k]);
                assert(links[k].index != links[n].index);
            }
        }
        assert forall|i: u32|
            (forall|k: int|
                0 <= k < links.len() && (#[trigger] links[k]).name != "lo"@ ==> links[k].index
                    != i) implies (#[trigger] s.contains_key(i) <==> stats.contains_key(i)) && (
        stats.contains_key(i) ==> s[i] == stats[i]) by {
            assert forall|k: int| 0 <= k < t.len() && (#[trigger] t[k]).name
                != "lo"@ implies t[k].index != i by {
                assert(links[k] == t[k]);
            }
            assert(before.contains_key(i) <==> stats.contains_key(i));
        }
    }
}

/// In a round the list is told exactly if it changed, and the traffic exactly
/// if the counters were read; the list comes first, and nothing else is told.
pub proof fn law_rounds_tell_what_changed(before: Seq<SnapView>, round: Round)
    ensures
        ({
            let told = round_events(before, round);
            let list = if round.shown != before {
                1int
            } else {
                0int
            };
            let traffic = if round.traffic is Some {
                1int
            } else {
                0int
            };
            &&& told.len() == list + traffic
            &&& round.shown != before ==> told[0] == EventView::Snapshot(round.shown)
            &&& round.traffic is Some ==> told.last() == EventView::Traffic(round.traffic->0)
        }),
{
}

/// When the network state takes in a notice of a new address that can be read,
/// it knows that address exactly once and every other as before; after a notice
/// of a lost one it does not know it. Links and counters stay.
pub proof fn law_state_takes_address_notices(
    s: &mut NetState,
    datagram: &[u8],
    order: ByteOrder,
    link_changed: bool,
    r: bool,
    m: Msg,
    a: AddrInfo,
)
    requires
        call_ensures(NetState::on_datagram, (s, datagram, order, link_changed), r),
        net_info::messages(datagram@, order) == seq![m],
        net_info::addr_of(m.2, order) == Some(a),
        m.0 == 20 || m.0 == 21,
    ensures
        m.0 == 20 ==> final(s).addrs@.contains(a) && final(s).addrs@.to_multiset().count(a) == 1,
        m.0 == 21 ==> !final(s).addrs@.contains(a),
        forall|x: AddrInfo|
            x != a ==> (#[trigger] final(s).addrs@.contains(x) <==> old(s).addrs@.contains(x)),
        net_info::link_views(final(s).links@) == net_info::link_views(old(s).links@),
        final(s).stats@ == old(s).stats@,
        final(s).wifi@ == old(s).wifi@,
        final(s).snapshot@ == old(s).snapshot@,
        r == link_changed,
{
    let c = old(s).caches(link_changed);
    let all = seq![m];
    assert(all.drop_last() =~= Seq::empty());
    assert(after_notices(c, all.drop_last(), order) == c);
    assert(after_notices(c, all, order) == after_notice(c, m, order));
    assert(m == (m.0, m.1, m.2));
    law_address_notices(c, m.1, m.2, order, a);
    let n = final(s).caches(r);
    assert(n.addrs == final(s).addrs@);
    assert(n.links == net_info::link_views(final(s).links@));
    assert(n.stats == final(s).stats@);
    assert(n.link_changed == r);
}

/// When it takes in a notice of a link that can be read, it knows that link as
/// the notice says; after a notice of a lost one it knows none of that index. All
/// other links and the addresses stay.
pub proof fn law_state_takes_link_notices(
    s: &mut NetState,
    datagram: &[u8],
    order: ByteOrder,
    link_changed: bool,
    r: bool,
    m: Msg,
    l: LinkView,
)
    requires
        call_ensures(NetState::on_datagram, (s, datagram, order, link_changed), r),
        one_per_index(net_info::link_views(old(s).links@)),
        net_info::messages(datagram@, order) == seq![m],
        net_info::link_of(m.2, order) == Some(l),
        m.0 == 16 || m.0 == 17,
    ensures
        m.0 == 16 ==> net_info::link_views(final(s).links@).contains(l),
        forall|x: LinkView| #[trigger]
            net_info::link_views(final(s).links@).contains(x) && x.index == l.index ==> m.0 == 16 && x
                == l,
        forall|x: LinkView|
            x.index != l.index ==> (#[trigger] net_info::link_views(final(s).links@).contains(x)
                <==> net_info::link_views(old(s).links@).contains(x)),
        final(s).addrs@ == old(s).addrs@,
        r,
{
    let c = old(s).caches(link_changed);
    let all = seq![m];
    assert(all.drop_last() =~= Seq::empty());
    assert(after_notices(c, all.drop_last(), order) == c);
    assert(after_notices(c, all, order) == after_notice(c, m, order));
    assert(m == (m.0, m.1, m.2));
    law_link_notices(c, m.1, m.2, order, l);
    let n = final(s).caches(r);
    assert(n.addrs == final(s).addrs@);
    assert(n.links == net_info::link_views(final(s).links@));
    assert(n.link_changed == r);
}

} // verus!
