//! Live interface information out of rtnetlink messages.
//!
//! The kernel answers dump requests and sends change notices; both are runs of
//! messages, each a header, a fixed struct and a list of attributes.

use vstd::prelude::*;

use crate::numeral;
use crate::sorting;
use crate::text;
use crate::wire;
use crate::wire::ByteOrder;

verus! {

/// Whether an interface carries traffic.
#[derive(Debug, Clone, Copy, PartialEq, Eq, Structural)]
pub enum OperState {
    Up,
    Down,
    Unknown,
}

impl OperState {
    /// The name shown for the state.
    pub open spec fn name(self) -> Seq<char> {
        match self {
            OperState::Up => "up"@,
            OperState::Down => "down"@,
            OperState::Unknown => "unknown"@,
        }
    }

    pub fn as_str(self) -> (r: &'static str)
        ensures
            r@ == self.name(),
    {
        match self {
            OperState::Up => "up",
            OperState::Down => "down",
            OperState::Unknown => "unknown",
        }
    }

    pub fn is_up(self) -> (r: bool)
        ensures
            r == (self == OperState::Up),
    {
        matches!(self, OperState::Up)
    }
}

// ---------------------------------------------------------------------------
// Constants of the protocol
// ---------------------------------------------------------------------------

pub const NLMSG_NOOP: u16 = 1;
pub const NLMSG_ERROR: u16 = 2;
pub const NLMSG_DONE: u16 = 3;
pub const RTM_NEWLINK: u16 = 16;
pub const RTM_DELLINK: u16 = 17;
pub const RTM_GETLINK: u16 = 18;
pub const RTM_NEWADDR: u16 = 20;
pub const RTM_DELADDR: u16 = 21;
pub const RTM_GETADDR: u16 = 22;
/// Request flag together with the two dump flags.
pub const REQUEST_DUMP: u16 = 0x301;
pub const IFLA_ADDRESS: u16 = 1;
pub const IFLA_IFNAME: u16 = 3;
pub const IFLA_OPERSTATE: u16 = 16;
pub const IFLA_LINKINFO: u16 = 18;
pub const IFLA_STATS64: u16 = 23;
pub const IFLA_INFO_KIND: u16 = 1;
pub const IFA_ADDRESS: u16 = 1;
pub const IFA_LOCAL: u16 = 2;
pub const IF_OPER_DOWN: u8 = 2;
pub const IF_OPER_UP: u8 = 6;
pub const AF_UNSPEC: u8 = 0;
pub const AF_INET: u8 = 2;
pub const AF_INET6: u8 = 10;
pub const NLMSG_HDR_LEN: usize = 16;
pub const IFINFO_LEN: usize = 16;
pub const IFADDR_LEN: usize = 8;
pub const RTA_HDR_LEN: usize = 4;

/// `x` rounded up to a multiple of four.
pub open spec fn aligned4(x: int) -> int {
    (x + 3) / 4 * 4
}

/// Rounds up to a multiple of four.
pub fn align4(x: usize) -> (r: usize)
    requires
        x + 3 <= usize::MAX,
    ensures
        r == aligned4(x as int),
        x <= r < x + 4,
{
    (x + 3) / 4 * 4
}

// ---------------------------------------------------------------------------
// Requests
// ---------------------------------------------------------------------------

/// `n` zero bytes.
pub open spec fn zeros(n: nat) -> Seq<u8> {
    Seq::new(n, |i: int| 0u8)
}

/// A dump request: the header, then the fixed struct of the message type, of
/// which only the family is set.
pub open spec fn get_request(msg_type: u16, family: u8, seq: u32, order: ByteOrder) -> Seq<u8> {
    let payload: nat = if msg_type == RTM_GETLINK {
        16
    } else {
        8
    };
    wire::word_bytes(16 + payload, 4, order) + wire::word_bytes(msg_type as nat, 2, order)
        + wire::word_bytes(REQUEST_DUMP as nat, 2, order) + wire::word_bytes(seq as nat, 4, order)
        + wire::word_bytes(0, 4, order) + seq![family] + zeros((payload - 1) as nat)
}

/// Builds a dump request.
pub fn build_get_request(msg_type: u16, family: u8, seq: u32, order: ByteOrder) -> (r: Vec<u8>)
    ensures
        r@ == get_request(msg_type, family, seq, order),
        r@.len() == (if msg_type == RTM_GETLINK {
            32int
        } else {
            24int
        }),
{
    let payload_len: usize = if msg_type == RTM_GETLINK {
        IFINFO_LEN
    } else {
        IFADDR_LEN
    };
    let total: usize = NLMSG_HDR_LEN + payload_len;
    let mut buf: Vec<u8> = Vec::new();
    wire::push_u32(&mut buf, total as u32, order);
    wire::push_u16(&mut buf, msg_type, order);
    wire::push_u16(&mut buf, REQUEST_DUMP, order);
    wire::push_u32(&mut buf, seq, order);
    wire::push_u32(&mut buf, 0, order);
    buf.push(family);
    let ghost head = buf@;
    let mut i: usize = 1;
    while i < payload_len
        invariant
            1 <= i <= payload_len,
            buf@ == head + zeros((i - 1) as nat),
        decreases payload_len - i,
    {
        buf.push(0);
        i = i + 1;
        proof {
            assert(buf@ == head + zeros((i - 1) as nat));
        }
    }
    proof {
        assert(buf@ == get_request(msg_type, family, seq, order));
        reveal_with_fuel(wire::word_bytes, 5);
    }
    buf
}

// ---------------------------------------------------------------------------
// Attributes
// ---------------------------------------------------------------------------

/// An attribute: its type and its payload.
pub type Attr = (u16, Seq<u8>);

/// The bytes behind the first attribute or message, of length `len`, of `b`.
pub open spec fn behind(b: Seq<u8>, len: int) -> Seq<u8> {
    if aligned4(len) >= b.len() {
        Seq::empty()
    } else {
        b.skip(aligned4(len))
    }
}

/// The attributes in `b`, up to the first whose length is out of range.
pub open spec fn attributes(b: Seq<u8>, order: ByteOrder) -> Seq<Attr>
    decreases b.len(),
{
    let len = wire::word(b, 0, 2, order) as int;
    if b.len() < 4 || len < 4 || len > b.len() {
        Seq::empty()
    } else {
        seq![(wire::word(b, 2, 2, order) as u16, b.subrange(4, len))] + attributes(
            behind(b, len),
            order,
        )
    }
}

/// Walks through a list of attributes.
pub struct RtaIter<'a> {
    pub buf: &'a [u8],
    pub order: ByteOrder,
}

impl<'a> RtaIter<'a> {
    /// The attributes still to come.
    pub open spec fn left(&self) -> Seq<Attr> {
        attributes(self.buf@, self.order)
    }

    pub fn new(buf: &'a [u8], order: ByteOrder) -> (r: Self)
        ensures
            r.buf@ == buf@,
            r.order == order,
            r.left() == attributes(buf@, order),
    {
        RtaIter { buf, order }
    }

    /// The next attribute.
    pub fn next(&mut self) -> (r: Option<(u16, &'a [u8])>)
        ensures
            final(self).order == old(self).order,
            match r {
                Some(a) => {
                    &&& old(self).left() == seq![(a.0, a.1@)] + final(self).left()
                    &&& final(self).buf@.len() < old(self).buf@.len()
                },
                None => old(self).left() == Seq::<Attr>::empty() && final(self).buf@ == old(self).buf@,
            },
    {
        let buf: &'a [u8] = self.buf;
        if buf.len() < RTA_HDR_LEN {
            return None;
        }
        let len: usize = wire::read_u16(buf, 0, self.order) as usize;
        if len < RTA_HDR_LEN || len > buf.len() {
            return None;
        }
        let ty: u16 = wire::read_u16(buf, 2, self.order);
        let payload: &'a [u8] = vstd::slice::slice_subrange(buf, RTA_HDR_LEN, len);
        let next_off: usize = align4(len);
        self.buf = if next_off >= buf.len() {
            vstd::slice::slice_subrange(buf, 0, 0)
        } else {
            vstd::slice::slice_subrange(buf, next_off, buf.len())
        };
        proof {
            assert(self.buf@ =~= behind(buf@, len as int));
        }
        Some((ty, payload))
    }
}

// ---------------------------------------------------------------------------
// Messages
// ---------------------------------------------------------------------------

/// A message: its type, its flags and its payload.
pub type Msg = (u16, u16, Seq<u8>);

/// The messages in `b`, up to the first whose length is out of range.
pub open spec fn messages(b: Seq<u8>, order: ByteOrder) -> Seq<Msg>
    decreases b.len(),
{
    let len = wire::word(b, 0, 4, order) as int;
    if b.len() < 16 || len < 16 || len > b.len() {
        Seq::empty()
    } else {
        seq![
            (
                wire::word(b, 4, 2, order) as u16,
                wire::word(b, 6, 2, order) as u16,
                b.subrange(16, len),
            ),
        ] + messages(behind(b, len), order)
    }
}

/// Walks through the messages of a datagram.
pub struct NlmsgIter<'a> {
    pub buf: &'a [u8],
    pub order: ByteOrder,
}

impl<'a> NlmsgIter<'a> {
    /// The messages still to come.
    pub open spec fn left(&self) -> Seq<Msg> {
        messages(self.buf@, self.order)
    }

    pub fn new(buf: &'a [u8], order: ByteOrder) -> (r: Self)
        ensures
            r.buf@ == buf@,
            r.order == order,
            r.left() == messages(buf@, order),
    {
        NlmsgIter { buf, order }
    }

    /// The next message.
    pub fn next(&mut self) -> (r: Option<(u16, u16, &'a [u8])>)
        ensures
            final(self).order == old(self).order,
            match r {
                Some(m) => {
                    &&& old(self).left() == seq![(m.0, m.1, m.2@)] + final(self).left()
                    &&& final(self).buf@.len() < old(self).buf@.len()
                },
                None => old(self).left() == Seq::<Msg>::empty() && final(self).buf@ == old(self).buf@,
            },
    {
        let buf: &'a [u8] = self.buf;
        if buf.len() < NLMSG_HDR_LEN {
            return None;
        }
        let len: usize = wire::read_u32(buf, 0, self.order) as usize;
        if len < NLMSG_HDR_LEN || len > buf.len() {
            return None;
        }
        let ty: u16 = wire::read_u16(buf, 4, self.order);
        let flags: u16 = wire::read_u16(buf, 6, self.order);
        let payload: &'a [u8] = vstd::slice::slice_subrange(buf, NLMSG_HDR_LEN, len);
        let pad: usize = (4 - len % 4) % 4;
        proof {
            assert(len + pad == aligned4(len as int));
        }
        self.buf = if pad >= buf.len() - len {
            vstd::slice::slice_subrange(buf, 0, 0)
        } else {
            vstd::slice::slice_subrange(buf, len + pad, buf.len())
        };
        proof {
            assert(self.buf@ =~= behind(buf@, len as int));
        }
        Some((ty, flags, payload))
    }
}


// ---------------------------------------------------------------------------
// Links
// ---------------------------------------------------------------------------

/// What a link message says.
pub struct LinkInfo {
    pub index: u32,
    pub name: String,
    pub operstate: OperState,
    pub mac: Option<[u8; 6]>,
    pub rx_bytes: u64,
    pub tx_bytes: u64,
    pub is_physical: bool,
}

#[verifier::ext_equal]
pub struct LinkView {
    pub index: u32,
    pub name: Seq<char>,
    pub operstate: OperState,
    pub mac: Option<[u8; 6]>,
    pub rx_bytes: u64,
    pub tx_bytes: u64,
    pub is_physical: bool,
}

impl View for LinkInfo {
    type V = LinkView;

    open spec fn view(&self) -> LinkView {
        LinkView {
            index: self.index,
            name: self.name@,
            operstate: self.operstate,
            mac: self.mac,
            rx_bytes: self.rx_bytes,
            tx_bytes: self.tx_bytes,
            is_physical: self.is_physical,
        }
    }
}

impl Clone for LinkInfo {
    fn clone(&self) -> (r: Self)
        ensures
            r == *self,
    {
        LinkInfo {
            index: self.index,
            name: self.name.clone(),
            operstate: self.operstate,
            mac: self.mac,
            rx_bytes: self.rx_bytes,
            tx_bytes: self.tx_bytes,
            is_physical: self.is_physical,
        }
    }
}

/// The state that an operstate byte stands for.
pub open spec fn operstate_of(v: u8) -> OperState {
    if v == IF_OPER_UP {
        OperState::Up
    } else if v == IF_OPER_DOWN {
        OperState::Down
    } else {
        OperState::Unknown
    }
}

/// Reads an operstate byte.
pub fn parse_operstate(v: u8) -> (r: OperState)
    ensures
        r == operstate_of(v),
{
    if v == IF_OPER_UP {
        OperState::Up
    } else if v == IF_OPER_DOWN {
        OperState::Down
    } else {
        OperState::Unknown
    }
}

/// `b` up to its first zero byte.
pub open spec fn until_nul(b: Seq<u8>) -> Seq<u8>
    decreases b.len(),
{
    if b.len() == 0 || b[0] == 0 {
        Seq::empty()
    } else {
        seq![b[0]] + until_nul(b.drop_first())
    }
}

/// Whether some attribute has type `ty`.
pub open spec fn has_attr(a: Seq<Attr>, ty: u16) -> bool {
    exists|i: int| 0 <= i < a.len() && (#[trigger] a[i]).0 == ty
}

/// The first six bytes as a hardware address.
pub open spec fn mac_of(d: Seq<u8>) -> [u8; 6] {
    [d[0], d[1], d[2], d[3], d[4], d[5]]
}

/// What an attribute adds to a link. A link-info attribute with a kind in it
/// marks a virtual link.
pub open spec fn link_with(l: LinkView, a: Attr, order: ByteOrder) -> LinkView {
    let (ty, d) = a;
    if ty == IFLA_IFNAME {
        LinkView { name: text::utf8_lossy(until_nul(d)), ..l }
    } else if ty == IFLA_ADDRESS && d.len() == 6 {
        LinkView { mac: Some(mac_of(d)), ..l }
    } else if ty == IFLA_OPERSTATE && d.len() > 0 {
        LinkView { operstate: operstate_of(d[0]), ..l }
    } else if ty == IFLA_STATS64 && d.len() >= 32 {
        LinkView {
            rx_bytes: wire::word(d, 16, 8, order) as u64,
            tx_bytes: wire::word(d, 24, 8, order) as u64,
            ..l
        }
    } else if ty == IFLA_LINKINFO && has_attr(attributes(d, order), IFLA_INFO_KIND) {
        LinkView { is_physical: false, ..l }
    } else {
        l
    }
}

/// What a list of attributes makes of a link, later ones last.
pub open spec fn link_with_all(l: LinkView, a: Seq<Attr>, order: ByteOrder) -> LinkView
    decreases a.len(),
{
    if a.len() == 0 {
        l
    } else {
        link_with(link_with_all(l, a.drop_last(), order), a.last(), order)
    }
}

/// The link that a message describes; loopback is never physical.
pub open spec fn link_of(payload: Seq<u8>, order: ByteOrder) -> Option<LinkView> {
    if payload.len() < 16 {
        None
    } else {
        let l = link_with_all(
            LinkView {
                index: wire::word(payload, 4, 4, order) as u32,
                name: Seq::empty(),
                operstate: OperState::Unknown,
                mac: None,
                rx_bytes: 0,
                tx_bytes: 0,
                is_physical: true,
            },
            attributes(payload.skip(16), order),
            order,
        );
        Some(
            if l.name == "lo"@ {
                LinkView { is_physical: false, ..l }
            } else {
                l
            },
        )
    }
}

/// What an optional link says.
pub open spec fn link_view(o: Option<LinkInfo>) -> Option<LinkView> {
    match o {
        Some(l) => Some(l@),
        None => None,
    }
}

fn cut_at_nul(b: &[u8]) -> (r: &[u8])
    ensures
        r@ == until_nul(b@),
{
    let mut end: usize = 0;
    proof {
        assert(b@.skip(0) == b@);
    }
    while end < b.len() && b[end] != 0
        invariant
            end <= b@.len(),
            until_nul(b@) == b@.take(end as int) + until_nul(b@.skip(end as int)),
        decreases b.len() - end,
    {
        proof {
            assert(b@.skip(end as int).drop_first() == b@.skip(end + 1));
            assert(b@.take(end as int) + (seq![b@[end as int]] + until_nul(b@.skip(end + 1)))
                == b@.take(end + 1) + until_nul(b@.skip(end + 1)));
        }
        end = end + 1;
    }
    proof {
        assert(until_nul(b@) == b@.take(end as int));
    }
    vstd::slice::slice_subrange(b, 0, end)
}

fn any_attr(b: &[u8], order: ByteOrder, ty: u16) -> (r: bool)
    ensures
        r == has_attr(attributes(b@, order), ty),
{
    let mut it = RtaIter::new(b, order);
    let ghost all = attributes(b@, order);
    let ghost mut n: int = 0;
    loop
        invariant
            all == attributes(b@, order),
            it.order == order,
            0 <= n <= all.len(),
            all.skip(n) == it.left(),
            forall|i: int| 0 <= i < n ==> (#[trigger] all[i]).0 != ty,
        decreases it.buf@.len(),
    {
        let ghost before = it.left();
        match it.next() {
            Some(a) => {
                proof {
                    assert(before[0] == (a.0, a.1@));
                    assert(all[n] == before[0]);
                    assert(all.skip(n + 1) == before.skip(1));
                    assert(before.skip(1) == it.left());
                }
                if a.0 == ty {
                    return true;
                }
                proof {
                    n = n + 1;
                }
            },
            None => {
                proof {
                    assert(all.len() == n);
                }
                return false;
            },
        }
    }
}

/// Reads a link message.
pub fn parse_link_msg(payload: &[u8], order: ByteOrder) -> (r: Option<LinkInfo>)
    ensures
        link_view(r) == link_of(payload@, order),
{
    if payload.len() < IFINFO_LEN {
        return None;
    }
    let attrs = vstd::slice::slice_subrange(payload, IFINFO_LEN, payload.len());
    let ghost all = attributes(payload@.skip(16), order);
    let mut info = LinkInfo {
        index: wire::read_u32(payload, 4, order),
        name: String::new(),
        operstate: OperState::Unknown,
        mac: None,
        rx_bytes: 0,
        tx_bytes: 0,
        is_physical: true,
    };
    let ghost start = info@;
    let mut it = RtaIter::new(attrs, order);
    let ghost mut n: int = 0;
    proof {
        assert(attrs@ == payload@.skip(16));
        assert(all.skip(0) == all);
    }
    loop
        invariant
            it.order == order,
            0 <= n <= all.len(),
            all.skip(n) == it.left(),
            info@ == link_with_all(start, all.take(n), order),
        ensures
            n == all.len(),
        decreases it.buf@.len(),
    {
        let ghost before = it.left();
        match it.next() {
            Some((ty, data)) => {
                let ghost a: Attr = (ty, data@);
                proof {
                    assert(before[0] == a);
                    assert(before.len() > 0 && all.skip(n).len() == before.len());
                    assert(all.skip(n)[0] == a);
                    assert(all[n] == before[0]);
                    assert(all.skip(n + 1) == before.skip(1));
                    assert(before.skip(1) == it.left());
                    assert(all.take(n + 1).drop_last() == all.take(n));
                    n = n + 1;
                }
                if ty == IFLA_IFNAME {
                    info.name = text::from_utf8_lossy(cut_at_nul(data));
                } else if ty == IFLA_ADDRESS {
                    if data.len() == 6 {
                        info.mac = Some([data[0], data[1], data[2], data[3], data[4], data[5]]);
                    }
                } else if ty == IFLA_OPERSTATE {
                    if data.len() > 0 {
                        info.operstate = parse_operstate(data[0]);
                    }
                } else if ty == IFLA_STATS64 {
                    if data.len() >= 32 {
                        info.rx_bytes = wire::read_u64(data, 16, order);
                        info.tx_bytes = wire::read_u64(data, 24, order);
                    }
                } else if ty == IFLA_LINKINFO {
                    if any_attr(data, order, IFLA_INFO_KIND) {
                        info.is_physical = false;
                    }
                }
            },
            None => {
                proof {
                    assert(all.skip(n).len() == 0);
                }
                break ;
            },
        }
    }
    proof {
        assert(all.take(n) == all);
    }
    if text::str_eq(info.name.as_str(), "lo") {
        info.is_physical = false;
    }
    Some(info)
}

// ---------------------------------------------------------------------------
// Addresses
// ---------------------------------------------------------------------------

/// What an address message says. Addresses are numbers, first byte most
/// significant.
#[derive(Debug, Clone, Copy, PartialEq, Eq, Structural)]
pub struct AddrInfo {
    pub index: u32,
    pub family: u8,
    pub ipv4: Option<u32>,
    pub ipv6: Option<u128>,
}

/// The addresses that the attributes of one message name.
pub struct AddrParts {
    pub local_v4: Option<u32>,
    pub remote_v4: Option<u32>,
    pub local_v6: Option<u128>,
    pub remote_v6: Option<u128>,
}

/// What an attribute adds.
pub open spec fn parts_with(p: AddrParts, family: u8, a: Attr) -> AddrParts {
    let (ty, d) = a;
    if family == AF_INET && d.len() == 4 && ty == IFA_ADDRESS {
        AddrParts { remote_v4: Some(wire::word(d, 0, 4, ByteOrder::Big) as u32), ..p }
    } else if family == AF_INET && d.len() == 4 && ty == IFA_LOCAL {
        AddrParts { local_v4: Some(wire::word(d, 0, 4, ByteOrder::Big) as u32), ..p }
    } else if family == AF_INET6 && d.len() == 16 && ty == IFA_ADDRESS {
        AddrParts { remote_v6: Some(wire::word(d, 0, 16, ByteOrder::Big) as u128), ..p }
    } else if family == AF_INET6 && d.len() == 16 && ty == IFA_LOCAL {
        AddrParts { local_v6: Some(wire::word(d, 0, 16, ByteOrder::Big) as u128), ..p }
    } else {
        p
    }
}

/// What a list of attributes names, later ones last.
pub open spec fn parts_of(family: u8, a: Seq<Attr>) -> AddrParts
    decreases a.len(),
{
    if a.len() == 0 {
        AddrParts { local_v4: None, remote_v4: None, local_v6: None, remote_v6: None }
    } else {
        parts_with(parts_of(family, a.drop_last()), family, a.last())
    }
}

/// The address that a message describes: the local one (of a point-to-point
/// link) before the other.
pub open spec fn addr_of(payload: Seq<u8>, order: ByteOrder) -> Option<AddrInfo> {
    if payload.len() < 8 {
        None
    } else {
        let p = parts_of(payload[0], attributes(payload.skip(8), order));
        Some(
            AddrInfo {
                index: wire::word(payload, 4, 4, order) as u32,
                family: payload[0],
                ipv4: if p.local_v4 is Some {
                    p.local_v4
                } else {
                    p.remote_v4
                },
                ipv6: if p.local_v6 is Some {
                    p.local_v6
                } else {
                    p.remote_v6
                },
            },
        )
    }
}

/// Reads an address message.
pub fn parse_addr_msg(payload: &[u8], order: ByteOrder) -> (r: Option<AddrInfo>)
    ensures
        r == addr_of(payload@, order),
{
    if payload.len() < IFADDR_LEN {
        return None;
    }
    let attrs = vstd::slice::slice_subrange(payload, IFADDR_LEN, payload.len());
    let family: u8 = payload[0];
    let ghost all = attributes(payload@.skip(8), order);
    let mut p = AddrParts { local_v4: None, remote_v4: None, local_v6: None, remote_v6: None };
    let mut it = RtaIter::new(attrs, order);
    let ghost mut n: int = 0;
    proof {
        assert(attrs@ == payload@.skip(8));
        assert(all.skip(0) == all);
    }
    loop
        invariant
            it.order == order,
            0 <= n <= all.len(),
            all.skip(n) == it.left(),
            p == parts_of(family, all.take(n)),
        ensures
            n == all.len(),
        decreases it.buf@.len(),
    {
        let ghost before = it.left();
        match it.next() {
            Some((ty, data)) => {
                let ghost a: Attr = (ty, data@);
                proof {
                    assert(before[0] == a);
                    assert(before.len() > 0 && all.skip(n).len() == before.len());
                    assert(all.skip(n)[0] == a);
                    assert(all[n] == before[0]);
                    assert(all.skip(n + 1) == before.skip(1));
                    assert(before.skip(1) == it.left());
                    assert(all.take(n + 1).drop_last() == all.take(n));
                    n = n + 1;
                }
                if family == AF_INET && data.len() == 4 {
                    let v: u32 = wire::read_u32(data, 0, ByteOrder::Big);
                    if ty == IFA_ADDRESS {
                        p.remote_v4 = Some(v);
                    } else if ty == IFA_LOCAL {
                        p.local_v4 = Some(v);
                    }
                } else if family == AF_INET6 && data.len() == 16 {
                    let v: u128 = wire::read_u128(data, 0, ByteOrder::Big);
                    if ty == IFA_ADDRESS {
                        p.remote_v6 = Some(v);
                    } else if ty == IFA_LOCAL {
                        p.local_v6 = Some(v);
                    }
                }
            },
            None => {
                proof {
                    assert(all.skip(n).len() == 0);
                }
                break ;
            },
        }
    }
    proof {
        assert(all.take(n) == all);
    }
    Some(
        AddrInfo {
            index: wire::read_u32(payload, 4, order),
            family,
            ipv4: if p.local_v4.is_some() {
                p.local_v4
            } else {
                p.remote_v4
            },
            ipv6: if p.local_v6.is_some() {
                p.local_v6
            } else {
                p.remote_v6
            },
        },
    )
}


// ---------------------------------------------------------------------------
// Dumps
// ---------------------------------------------------------------------------

/// How far a dump has come.
#[derive(Debug, Clone, Copy, PartialEq, Eq, Structural)]
pub enum DumpStatus {
    /// More datagrams are to come.
    More,
    /// The dump is complete.
    Done,
    /// The kernel reported this error number.
    Failed(i32),
}

/// A collected message: its type and its payload.
pub type Item = (u16, Seq<u8>);

/// What a run of messages adds to a dump and how far it gets. Messages behind
/// an error do not count; messages behind the end mark of the same datagram do.
pub open spec fn dump_of(m: Seq<Msg>, order: ByteOrder) -> (Seq<Item>, DumpStatus)
    decreases m.len(),
{
    if m.len() == 0 {
        (Seq::empty(), DumpStatus::More)
    } else {
        let (items, status) = dump_of(m.drop_last(), order);
        let (ty, flags, payload) = m.last();
        if status is Failed {
            (items, status)
        } else if ty == NLMSG_DONE {
            (items, DumpStatus::Done)
        } else if ty == NLMSG_ERROR {
            let err = wire::as_signed32(wire::word(payload, 0, 4, order) as int);
            if payload.len() >= 4 && err != 0 {
                (items, DumpStatus::Failed(err as i32))
            } else {
                (items, DumpStatus::Done)
            }
        } else if ty == NLMSG_NOOP {
            (items, status)
        } else {
            (items.push((ty, payload)), status)
        }
    }
}

/// Once a dump has failed, further messages change nothing.
pub proof fn law_dump_error_is_final(m: Seq<Msg>, n: int, order: ByteOrder)
    requires
        0 <= n <= m.len(),
        dump_of(m.take(n), order).1 is Failed,
    ensures
        dump_of(m, order) == dump_of(m.take(n), order),
    decreases m.len() - n,
{
    if n < m.len() {
        assert(m.take(n + 1).drop_last() == m.take(n));
        law_dump_error_is_final(m, n + 1, order);
    } else {
        assert(m.take(n) == m);
    }
}

/// What collected messages say.
pub open spec fn items_view(v: Seq<(u16, Vec<u8>)>) -> Seq<Item> {
    v.map_values(|i: (u16, Vec<u8>)| (i.0, i.1@))
}

/// Takes in one datagram of a dump.
pub fn collect_dump(datagram: &[u8], order: ByteOrder, out: &mut Vec<(u16, Vec<u8>)>) -> (r:
    DumpStatus)
    ensures
        r == dump_of(messages(datagram@, order), order).1,
        items_view(final(out)@) == items_view(old(out)@) + dump_of(
            messages(datagram@, order),
            order,
        ).0,
{
    let ghost all = messages(datagram@, order);
    let ghost start = items_view(out@);
    let mut status = DumpStatus::More;
    let mut it = NlmsgIter::new(datagram, order);
    let ghost mut n: int = 0;
    proof {
        assert(all.skip(0) == all);
        assert(start + Seq::<Item>::empty() == start);
    }
    loop
        invariant_except_break
            it.order == order,
            0 <= n <= all.len(),
            all.skip(n) == it.left(),
            !(status is Failed),
            (items_view(out@), status) == (
                start + dump_of(all.take(n), order).0,
                dump_of(all.take(n), order).1,
            ),
        ensures
            (items_view(out@), status) == (
                start + dump_of(all, order).0,
                dump_of(all, order).1,
            ),
        decreases it.buf@.len(),
    {
        let ghost before = it.left();
        match it.next() {
            Some((ty, flags, payload)) => {
                let ghost m: Msg = (ty, flags, payload@);
                proof {
                    assert(before[0] == m);
                    assert(before.len() > 0 && all.skip(n).len() == before.len());
                    assert(all.skip(n)[0] == m);
                    assert(all[n] == before[0]);
                    assert(all.skip(n + 1) == before.skip(1));
                    assert(before.skip(1) == it.left());
                    assert(all.take(n + 1).drop_last() == all.take(n));
                    n = n + 1;
                }
                if ty == NLMSG_DONE {
                    status = DumpStatus::Done;
                } else if ty == NLMSG_ERROR {
                    if payload.len() >= 4 {
                        let err: i32 = wire::read_i32(payload, 0, order);
                        if err != 0 {
                            status = DumpStatus::Failed(err);
                            proof {
                                law_dump_error_is_final(all, n, order);
                            }
                            break ;
                        }
                    }
                    status = DumpStatus::Done;
                } else if ty != NLMSG_NOOP {
                    let ghost had = items_view(out@);
                    out.push((ty, vstd::slice::slice_to_vec(payload)));
                    proof {
                        assert(items_view(out@) == had.push((ty, payload@)));
                    }
                }
            },
            None => {
                proof {
                    assert(all.skip(n).len() == 0);
                    assert(all.take(n) == all);
                }
                break ;
            },
        }
    }
    status
}

/// The links that the link messages among the items describe.
pub open spec fn links_in(items: Seq<Item>, order: ByteOrder) -> Seq<LinkView>
    decreases items.len(),
{
    if items.len() == 0 {
        Seq::empty()
    } else {
        let rest = links_in(items.drop_last(), order);
        if items.last().0 == RTM_NEWLINK {
            match link_of(items.last().1, order) {
                Some(l) => rest.push(l),
                None => rest,
            }
        } else {
            rest
        }
    }
}

/// The addresses that the address messages among the items describe.
pub open spec fn addrs_in(items: Seq<Item>, order: ByteOrder) -> Seq<AddrInfo>
    decreases items.len(),
{
    if items.len() == 0 {
        Seq::empty()
    } else {
        let rest = addrs_in(items.drop_last(), order);
        if items.last().0 == RTM_NEWADDR {
            match addr_of(items.last().1, order) {
                Some(a) => rest.push(a),
                None => rest,
            }
        } else {
            rest
        }
    }
}

/// The views of a list of links.
pub open spec fn link_views(v: Seq<LinkInfo>) -> Seq<LinkView> {
    v.map_values(|l: LinkInfo| l@)
}

/// Reads the links out of a completed link dump.
pub fn dump_links(items: &Vec<(u16, Vec<u8>)>, order: ByteOrder) -> (r: Vec<LinkInfo>)
    ensures
        link_views(r@) == links_in(items_view(items@), order),
{
    let mut out: Vec<LinkInfo> = Vec::new();
    let ghost all = items_view(items@);
    let mut i: usize = 0;
    while i < items.len()
        invariant
            i <= items@.len(),
            all == items_view(items@),
            link_views(out@) == links_in(all.take(i as int), order),
        decreases items.len() - i,
    {
        let ghost had = link_views(out@);
        proof {
            assert(all.take(i + 1).drop_last() == all.take(i as int));
            assert(all[i as int] == (items@[i as int].0, items@[i as int].1@));
        }
        if items[i].0 == RTM_NEWLINK {
            if let Some(l) = parse_link_msg(items[i].1.as_slice(), order) {
                out.push(l);
                proof {
                    assert(link_views(out@) == had.push(l@));
                }
            }
        }
        i = i + 1;
    }
    proof {
        assert(all.take(i as int) == all);
    }
    out
}

/// Reads the addresses out of a completed address dump.
pub fn dump_addrs(items: &Vec<(u16, Vec<u8>)>, order: ByteOrder) -> (r: Vec<AddrInfo>)
    ensures
        r@ == addrs_in(items_view(items@), order),
{
    let mut out: Vec<AddrInfo> = Vec::new();
    let ghost all = items_view(items@);
    let mut i: usize = 0;
    while i < items.len()
        invariant
            i <= items@.len(),
            all == items_view(items@),
            out@ == addrs_in(all.take(i as int), order),
        decreases items.len() - i,
    {
        proof {
            assert(all.take(i + 1).drop_last() == all.take(i as int));
            assert(all[i as int] == (items@[i as int].0, items@[i as int].1@));
        }
        if items[i].0 == RTM_NEWADDR {
            if let Some(a) = parse_addr_msg(items[i].1.as_slice(), order) {
                out.push(a);
            }
        }
        i = i + 1;
    }
    proof {
        assert(all.take(i as int) == all);
    }
    out
}

/// The sequence number of the request after `seq`.
pub fn next_seq(seq: u32) -> (r: u32)
    ensures
        r == (if seq == u32::MAX {
            0
        } else {
            seq + 1
        }),
{
    if seq == u32::MAX {
        0
    } else {
        seq + 1
    }
}


// ---------------------------------------------------------------------------
// Formatting
// ---------------------------------------------------------------------------

/// A hardware address as six colon-separated hexadecimal bytes.
pub open spec fn mac_text(mac: [u8; 6]) -> Seq<char> {
    numeral::hex2(mac[0]) + ":"@ + numeral::hex2(mac[1]) + ":"@ + numeral::hex2(mac[2]) + ":"@
        + numeral::hex2(mac[3]) + ":"@ + numeral::hex2(mac[4]) + ":"@ + numeral::hex2(mac[5])
}

/// Writes a hardware address.
pub fn format_mac(mac: [u8; 6]) -> (r: String)
    ensures
        r@ == mac_text(mac),
{
    let mut s = String::new();
    numeral::push_hex2(&mut s, mac[0]);
    s.push_str(":");
    numeral::push_hex2(&mut s, mac[1]);
    s.push_str(":");
    numeral::push_hex2(&mut s, mac[2]);
    s.push_str(":");
    numeral::push_hex2(&mut s, mac[3]);
    s.push_str(":");
    numeral::push_hex2(&mut s, mac[4]);
    s.push_str(":");
    numeral::push_hex2(&mut s, mac[5]);
    proof {
        assert(s@ == mac_text(mac));
    }
    s
}

/// `a / b` rounded to the nearest integer, halves to the even one.
pub open spec fn round_half_even(a: nat, b: nat) -> nat {
    let q = a / b;
    let rest = a % b;
    if 2 * rest > b || (2 * rest == b && q % 2 == 1) {
        q + 1
    } else {
        q
    }
}

/// The distance between neighbouring double-precision numbers at `n`, at least one.
pub open spec fn double_step(n: nat) -> nat
    decreases n,
{
    if n < 0x20_0000_0000_0000 {
        1
    } else {
        2 * double_step(n / 2)
    }
}

/// The double-precision number nearest to `n`.
pub open spec fn nearest_double(n: nat) -> nat {
    round_half_even(n, double_step(n)) * double_step(n)
}

/// A number of bytes as a multiple of `unit`, with one decimal.
pub open spec fn one_decimal(b: nat, unit: nat) -> Seq<char> {
    let tenths = round_half_even(nearest_double(b) * 10, unit);
    numeral::decimal(tenths / 10) + "."@ + seq![numeral::digit_char((tenths % 10) as int)]
}

/// A number of bytes as a multiple of `unit`, with two decimals.
pub open spec fn two_decimals(b: nat, unit: nat) -> Seq<char> {
    let hundredths = round_half_even(nearest_double(b) * 100, unit);
    numeral::decimal(hundredths / 100) + "."@ + seq![
        numeral::digit_char((hundredths / 10 % 10) as int),
        numeral::digit_char((hundredths % 10) as int),
    ]
}

/// A number of bytes in the largest unit of which there is at least one.
pub open spec fn bytes_text(b: nat) -> Seq<char> {
    if b >= 0x100_0000_0000 {
        two_decimals(b, 0x100_0000_0000) + " TB"@
    } else if b >= 0x4000_0000 {
        two_decimals(b, 0x4000_0000) + " GB"@
    } else if b >= 0x10_0000 {
        two_decimals(b, 0x10_0000) + " MB"@
    } else if b >= 0x400 {
        one_decimal(b, 0x400) + " KB"@
    } else {
        numeral::decimal(b) + " B"@
    }
}

fn div_half_even(a: u128, b: u128) -> (r: u128)
    requires
        0 < b < 0x1000_0000_0000_0000,
        a < 0x1000_0000_0000_0000_0000_0000,
    ensures
        r == round_half_even(a as nat, b as nat),
        r <= a + 1,
{
    let q: u128 = a / b;
    let rest: u128 = a % b;
    proof {
        assert(q <= a) by (nonlinear_arith)
            requires
                q == a as int / b as int,
                b > 0,
                a >= 0,
        ;
    }
    if 2 * rest > b || (2 * rest == b && q % 2 == 1) {
        q + 1
    } else {
        q
    }
}

fn step_of(n: u64) -> (r: u64)
    ensures
        r == double_step(n as nat),
        1 <= r,
        r == 1 || r * 0x10_0000_0000_0000 <= n,
    decreases n,
{
    if n < 0x20_0000_0000_0000 {
        1
    } else {
        let h: u64 = step_of(n / 2);
        2 * h
    }
}

fn to_double(n: u64) -> (r: u128)
    ensures
        r == nearest_double(n as nat),
        r <= 0x2_0000_0000_0000_0000,
{
    let step: u64 = step_of(n);
    let q: u128 = div_half_even(n as u128, step as u128);
    proof {
        let rest = n as int % step as int;
        let whole = n as int / step as int;
        assert(whole * step + rest == n && 0 <= rest < step) by (nonlinear_arith)
            requires
                whole == n as int / step as int,
                rest == n as int % step as int,
                step >= 1,
        ;
        assert(q * step <= n + step) by (nonlinear_arith)
            requires
                whole * step + rest == n,
                0 <= rest < step,
                q <= whole + 1,
        ;
    }
    q * (step as u128)
}

/// Writes a number of bytes.
pub fn format_bytes(b: u64) -> (r: String)
    ensures
        r@ == bytes_text(b as nat),
{
    let mut s = String::new();
    if b >= 0x100_0000_0000 {
        push_two_decimals(&mut s, b, 0x100_0000_0000);
        s.push_str(" TB");
    } else if b >= 0x4000_0000 {
        push_two_decimals(&mut s, b, 0x4000_0000);
        s.push_str(" GB");
    } else if b >= 0x10_0000 {
        push_two_decimals(&mut s, b, 0x10_0000);
        s.push_str(" MB");
    } else if b >= 0x400 {
        let tenths: u128 = div_half_even(to_double(b) * 10, 0x400);
        proof {
            assert(tenths <= 0x1000_0000_0000_0000);
        }
        numeral::push_decimal(&mut s, (tenths / 10) as u64);
        s.push_str(".");
        s.push(numeral::digit((tenths % 10) as u8));
        proof {
            assert(s@ == one_decimal(b as nat, 0x400));
        }
        s.push_str(" KB");
    } else {
        numeral::push_decimal(&mut s, b);
        s.push_str(" B");
        proof {
            assert(s@ == numeral::decimal(b as nat) + " B"@);
        }
    }
    s
}

fn push_two_decimals(s: &mut String, b: u64, unit: u64)
    requires
        unit >= 0x10_0000,
        unit <= 0x100_0000_0000,
        old(s)@.len() == 0,
    ensures
        final(s)@ == two_decimals(b as nat, unit as nat),
{
    let double: u128 = to_double(b);
    let hundredths: u128 = div_half_even(double * 100, unit as u128);
    proof {
        let q = (double * 100) as int / unit as int;
        assert(q <= (double * 100) / 0x10_0000) by (nonlinear_arith)
            requires
                q == (double * 100) as int / unit as int,
                unit >= 0x10_0000,
                double >= 0,
        ;
        assert(hundredths <= q + 1);
    }
    numeral::push_decimal(s, (hundredths / 100) as u64);
    s.push_str(".");
    s.push(numeral::digit((hundredths / 10 % 10) as u8));
    s.push(numeral::digit((hundredths % 10) as u8));
    proof {
        assert(s@ == two_decimals(b as nat, unit as nat));
    }
}

// ---------------------------------------------------------------------------
// Laws of the messages
// ---------------------------------------------------------------------------

/// A message is read if its length covers the header and is there; its body is
/// what the length says, and the next one begins at the next multiple of four.
pub proof fn law_messages_follow_each_other(b: Seq<u8>, order: ByteOrder, pad: int)
    ensures
        ({
            let len = wire::word(b, 0, 4, order) as int;
            &&& messages(b, order).len() > 0 <==> b.len() >= 16 && 16 <= len <= b.len()
            &&& messages(b, order).len() > 0 ==> {
                &&& messages(b, order)[0].0 == wire::word(b, 4, 2, order) as u16
                &&& messages(b, order)[0].1 == wire::word(b, 6, 2, order) as u16
                &&& messages(b, order)[0].2 == b.subrange(16, len)
                &&& 0 <= pad < 4 && (len + pad) % 4 == 0 && len + pad < b.len() ==> messages(
                    b,
                    order,
                ).skip(1) == messages(b.skip(len + pad), order)
                &&& 0 <= pad < 4 && (len + pad) % 4 == 0 && len + pad >= b.len() ==> messages(
                    b,
                    order,
                ).len() == 1
            }
        }),
{
    let len = wire::word(b, 0, 4, order) as int;
    if b.len() >= 16 && 16 <= len <= b.len() {
        let rest = messages(behind(b, len), order);
        assert(messages(b, order).skip(1) =~= rest);
        if 0 <= pad < 4 && (len + pad) % 4 == 0 {
            assert(aligned4(len) == len + pad);
        }
    }
}

/// The same of attributes, with their shorter header.
pub proof fn law_attributes_follow_each_other(b: Seq<u8>, order: ByteOrder, pad: int)
    ensures
        ({
            let len = wire::word(b, 0, 2, order) as int;
            &&& attributes(b, order).len() > 0 <==> b.len() >= 4 && 4 <= len <= b.len()
            &&& attributes(b, order).len() > 0 ==> {
                &&& attributes(b, order)[0].0 == wire::word(b, 2, 2, order) as u16
                &&& attributes(b, order)[0].1 == b.subrange(4, len)
                &&& 0 <= pad < 4 && (len + pad) % 4 == 0 && len + pad < b.len() ==> attributes(
                    b,
                    order,
                ).skip(1) == attributes(b.skip(len + pad), order)
                &&& 0 <= pad < 4 && (len + pad) % 4 == 0 && len + pad >= b.len() ==> attributes(
                    b,
                    order,
                ).len() == 1
            }
        }),
{
    let len = wire::word(b, 0, 2, order) as int;
    if b.len() >= 4 && 4 <= len <= b.len() {
        let rest = attributes(behind(b, len), order);
        assert(attributes(b, order).skip(1) =~= rest);
        if 0 <= pad < 4 && (len + pad) % 4 == 0 {
            assert(aligned4(len) == len + pad);
        }
    }
}

/// A name ends at the first zero byte, or with the data.
pub proof fn law_names_end_at_zero(a: Seq<u8>, b: Seq<u8>)
    requires
        !a.contains(0),
    ensures
        until_nul(a) == a,
        until_nul(a.push(0) + b) == a,
    decreases a.len(),
{
    let s = a.push(0) + b;
    if a.len() > 0 {
        assert(a.contains(a[0]));
        let t = a.drop_first();
        assert(!t.contains(0)) by {
            if t.contains(0) {
                let i = choose|i: int| 0 <= i < t.len() && t[i] == 0;
                assert(a[i + 1] == 0);
            }
        }
        law_names_end_at_zero(t, b);
        assert(s.drop_first() =~= t.push(0) + b);
        assert(until_nul(a) =~= a);
        assert(until_nul(s) =~= a);
    } else {
        assert(until_nul(a) =~= a);
        assert(until_nul(s) =~= a);
    }
}

/// Each attribute of a link says what its type stands for, and of several of
/// one type the last counts: 3 the name, 1 a hardware address of six bytes, 16
/// the state, 23 the counters. No attribute changes the index.
pub proof fn law_link_attributes(l: LinkView, a: Seq<Attr>, order: ByteOrder, k: int)
    requires
        0 <= k < a.len(),
        forall|j: int| k < j < a.len() ==> (#[trigger] a[j]).0 != a[k].0,
    ensures
        ({
            let n = link_with_all(l, a, order);
            let d = a[k].1;
            &&& n.index == l.index
            &&& a[k].0 == 3 ==> n.name == text::utf8_lossy(until_nul(d))
            &&& a[k].0 == 1 && d.len() == 6 ==> n.mac == Some([d[0], d[1], d[2], d[3], d[4], d[5]])
            &&& a[k].0 == 16 && d.len() > 0 ==> n.operstate == (if d[0] == 6 {
                OperState::Up
            } else if d[0] == 2 {
                OperState::Down
            } else {
                OperState::Unknown
            })
            &&& a[k].0 == 23 && d.len() >= 32 ==> n.rx_bytes == wire::word(d, 16, 8, order) as u64
                && n.tx_bytes == wire::word(d, 24, 8, order) as u64
        }),
    decreases a.len(),
{
    let t = a.drop_last();
    if k < a.len() - 1 {
        assert(t[k] == a[k]);
        assert forall|j: int| k < j < t.len() implies (#[trigger] t[j]).0 != t[k].0 by {
            assert(t[j] == a[j]);
        }
        law_link_attributes(l, t, order, k);
        assert(a[a.len() - 1].0 != a[k].0);
    } else if k > 0 {
        lemma_link_index(l, t, order);
    } else {
        assert(t.len() == 0);
    }
}

proof fn lemma_link_index(l: LinkView, a: Seq<Attr>, order: ByteOrder)
    ensures
        link_with_all(l, a, order).index == l.index,
    decreases a.len(),
{
    if a.len() > 0 {
        lemma_link_index(l, a.drop_last(), order);
    }
}

/// What no attribute says stays as it was. In particular a link is virtual only
/// if an attribute of type 18 holds one of type 1.
pub proof fn law_unsaid_stays(l: LinkView, a: Seq<Attr>, order: ByteOrder)
    ensures
        ({
            let n = link_with_all(l, a, order);
            &&& (forall|j: int| 0 <= j < a.len() ==> (#[trigger] a[j]).0 != 3) ==> n.name == l.name
            &&& (forall|j: int| 0 <= j < a.len() ==> (#[trigger] a[j]).0 != 1) ==> n.mac == l.mac
            &&& (forall|j: int| 0 <= j < a.len() ==> (#[trigger] a[j]).0 != 16) ==> n.operstate
                == l.operstate
            &&& (forall|j: int| 0 <= j < a.len() ==> (#[trigger] a[j]).0 != 23) ==> n.rx_bytes
                == l.rx_bytes && n.tx_bytes == l.tx_bytes
            &&& n.is_physical <==> l.is_physical && forall|j: int|
                0 <= j < a.len() && (#[trigger] a[j]).0 == 18 ==> !has_attr(
                    attributes(a[j].1, order),
                    1,
                )
        }),
    decreases a.len(),
{
    if a.len() > 0 {
        let t = a.drop_last();
        law_unsaid_stays(l, t, order);
        assert forall|j: int| 0 <= j < t.len() implies #[trigger] t[j] == a[j] by {}
        let m = a.len() - 1;
        assert(a[m] == a.last());
        if forall|j: int| 0 <= j < a.len() ==> (#[trigger] a[j]).0 != 3 {
            assert(a[m].0 != 3);
        }
        if forall|j: int| 0 <= j < a.len() ==> (#[trigger] a[j]).0 != 1 {
            assert(a[m].0 != 1);
        }
        if forall|j: int| 0 <= j < a.len() ==> (#[trigger] a[j]).0 != 16 {
            assert(a[m].0 != 16);
        }
        if forall|j: int| 0 <= j < a.len() ==> (#[trigger] a[j]).0 != 23 {
            assert(a[m].0 != 23);
        }
        let n = link_with_all(l, t, order).is_physical;
        if n && !(a[m].0 == 18 && has_attr(attributes(a[m].1, order), 1)) {
            assert forall|j: int| 0 <= j < a.len() && (#[trigger] a[j]).0 == 18 implies !has_attr(
                attributes(a[j].1, order),
                1,
            ) by {
                if j < m {
                    assert(t[j] == a[j]);
                }
            }
        }
        if forall|j: int|
            0 <= j < a.len() && (#[trigger] a[j]).0 == 18 ==> !has_attr(
                attributes(a[j].1, order),
                1,
            ) {
            assert forall|j: int| 0 <= j < t.len() && (#[trigger] t[j]).0 == 18 implies !has_attr(
                attributes(t[j].1, order),
                1,
            ) by {
                assert(t[j] == a[j]);
            }
            assert(!(a[m].0 == 18 && has_attr(attributes(a[m].1, order), 1)));
        }
    }
}

/// A link message that holds its header is read, with the index of the header;
/// loopback is virtual.
pub proof fn law_link_header(payload: Seq<u8>, order: ByteOrder)
    ensures
        link_of(payload, order) is None <==> payload.len() < 16,
        match link_of(payload, order) {
            Some(l) => {
                let attrs = attributes(payload.skip(16), order);
                &&& l.index == wire::word(payload, 4, 4, order) as u32
                &&& l.name == "lo"@ ==> !l.is_physical
                &&& attrs.len() == 0 ==> l.name.len() == 0 && l.mac is None && l.operstate
                    == OperState::Unknown && l.rx_bytes == 0 && l.tx_bytes == 0
            },
            None => true,
        },
{
    if payload.len() >= 16 {
        lemma_link_index(
            LinkView {
                index: wire::word(payload, 4, 4, order) as u32,
                name: Seq::empty(),
                operstate: OperState::Unknown,
                mac: None,
                rx_bytes: 0,
                tx_bytes: 0,
                is_physical: true,
            },
            attributes(payload.skip(16), order),
            order,
        );
    }
}

proof fn lemma_parts(family: u8, a: Seq<Attr>, ty: u16, k: int)
    requires
        0 <= k < a.len(),
        a[k].0 == ty,
        ty == 1 || ty == 2,
        family == 2 ==> a[k].1.len() == 4,
        family == 10 ==> a[k].1.len() == 16,
        forall|j: int| k < j < a.len() ==> (#[trigger] a[j]).0 != ty,
    ensures
        family == 2 && ty == 2 ==> parts_of(family, a).local_v4 == Some(
            wire::word(a[k].1, 0, 4, ByteOrder::Big) as u32,
        ),
        family == 2 && ty == 1 ==> parts_of(family, a).remote_v4 == Some(
            wire::word(a[k].1, 0, 4, ByteOrder::Big) as u32,
        ),
        family == 10 && ty == 2 ==> parts_of(family, a).local_v6 == Some(
            wire::word(a[k].1, 0, 16, ByteOrder::Big) as u128,
        ),
        family == 10 && ty == 1 ==> parts_of(family, a).remote_v6 == Some(
            wire::word(a[k].1, 0, 16, ByteOrder::Big) as u128,
        ),
    decreases a.len(),
{
    let t = a.drop_last();
    if k < a.len() - 1 {
        assert(t[k] == a[k]);
        assert forall|j: int| k < j < t.len() implies (#[trigger] t[j]).0 != ty by {
            assert(t[j] == a[j]);
        }
        lemma_parts(family, t, ty, k);
        assert(a[a.len() - 1].0 != ty);
    }
}

proof fn lemma_no_parts(family: u8, a: Seq<Attr>)
    ensures
        (forall|j: int| 0 <= j < a.len() ==> (#[trigger] a[j]).0 != 2) ==> parts_of(
            family,
            a,
        ).local_v4 is None && parts_of(family, a).local_v6 is None,
        (forall|j: int| 0 <= j < a.len() ==> (#[trigger] a[j]).0 != 1) ==> parts_of(
            family,
            a,
        ).remote_v4 is None && parts_of(family, a).remote_v6 is None,
        family != 2 ==> parts_of(family, a).local_v4 is None && parts_of(family, a).remote_v4
            is None,
        family != 10 ==> parts_of(family, a).local_v6 is None && parts_of(family, a).remote_v6
            is None,
    decreases a.len(),
{
    if a.len() > 0 {
        let t = a.drop_last();
        lemma_no_parts(family, t);
        assert forall|j: int| 0 <= j < t.len() implies #[trigger] t[j] == a[j] by {}
        let m = a.len() - 1;
        if forall|j: int| 0 <= j < a.len() ==> (#[trigger] a[j]).0 != 2 {
            assert(a[m].0 != 2);
        }
        if forall|j: int| 0 <= j < a.len() ==> (#[trigger] a[j]).0 != 1 {
            assert(a[m].0 != 1);
        }
    }
}

/// An address message that holds its header is read, with the family and the
/// index of the header. The address is the local one, of type 2; the one of
/// type 1 counts only if there is no local one. An interface has an IPv4
/// address by a message of family 2 only, an IPv6 address by one of family 10
/// only.
pub proof fn law_local_address_counts(payload: Seq<u8>, order: ByteOrder, k: int)
    ensures
        addr_of(payload, order) is None <==> payload.len() < 8,
        match addr_of(payload, order) {
            Some(x) => {
                let a = attributes(payload.skip(8), order);
                let family = payload[0];
                &&& x.family == family
                &&& x.index == wire::word(payload, 4, 4, order) as u32
                &&& family != 2 ==> x.ipv4 is None
                &&& family != 10 ==> x.ipv6 is None
                &&& ({
                    &&& 0 <= k < a.len()
                    &&& a[k].0 == 2 || (a[k].0 == 1 && forall|j: int|
                        0 <= j < a.len() ==> (#[trigger] a[j]).0 != 2)
                    &&& forall|j: int| k < j < a.len() ==> (#[trigger] a[j]).0 != a[k].0
                }) ==> {
                    &&& family == 2 && a[k].1.len() == 4 ==> x.ipv4 == Some(
                        wire::word(a[k].1, 0, 4, ByteOrder::Big) as u32,
                    )
                    &&& family == 10 && a[k].1.len() == 16 ==> x.ipv6 == Some(
                        wire::word(a[k].1, 0, 16, ByteOrder::Big) as u128,
                    )
                }
            },
            None => true,
        },
{
    if payload.len() >= 8 {
        let a = attributes(payload.skip(8), order);
        let family = payload[0];
        lemma_no_parts(family, a);
        if 0 <= k < a.len() && (a[k].0 == 2 || a[k].0 == 1) && (forall|j: int|
            k < j < a.len() ==> (#[trigger] a[j]).0 != a[k].0) && (family == 2 && a[k].1.len() == 4
            || family == 10 && a[k].1.len() == 16) {
            lemma_parts(family, a, a[k].0, k);
        }
    }
}

/// A dump holds exactly the links and the addresses that can be read of its
/// messages of type 16 and 20.
pub proof fn law_dumped_items_are_read(items: Seq<Item>, order: ByteOrder)
    ensures
        forall|l: LinkView| #[trigger]
            links_in(items, order).contains(l) <==> exists|k: int|
                0 <= k < items.len() && (#[trigger] items[k]).0 == 16 && link_of(items[k].1, order)
                    == Some(l),
        forall|x: AddrInfo| #[trigger]
            addrs_in(items, order).contains(x) <==> exists|k: int|
                0 <= k < items.len() && (#[trigger] items[k]).0 == 20 && addr_of(items[k].1, order)
                    == Some(x),
    decreases items.len(),
{
    if items.len() > 0 {
        let t = items.drop_last();
        let m = items.len() - 1;
        law_dumped_items_are_read(t, order);
        assert(items[m] == items.last());
        if let Some(l) = link_of(items.last().1, order) {
            sorting::lemma_push_holds(links_in(t, order), l);
        }
        if let Some(x) = addr_of(items.last().1, order) {
            sorting::lemma_push_holds(addrs_in(t, order), x);
        }
        assert forall|l: LinkView| #[trigger] links_in(items, order).contains(l) <==> exists|k: int|
            0 <= k < items.len() && (#[trigger] items[k]).0 == 16 && link_of(items[k].1, order)
                == Some(l) by {
            if links_in(t, order).contains(l) {
                let k = choose|k: int|
                    0 <= k < t.len() && (#[trigger] t[k]).0 == 16 && link_of(t[k].1, order) == Some(
                        l,
                    );
                assert(items[k] == t[k]);
            }
            if exists|k: int|
                0 <= k < items.len() && (#[trigger] items[k]).0 == 16 && link_of(items[k].1, order)
                    == Some(l) {
                let k = choose|k: int|
                    0 <= k < items.len() && (#[trigger] items[k]).0 == 16 && link_of(
                        items[k].1,
                        order,
                    ) == Some(l);
                if k < m {
                    assert(t[k] == items[k]);
                }
            }
        }
        assert forall|x: AddrInfo| #[trigger] addrs_in(items, order).contains(x) <==> exists|k: int|
            0 <= k < items.len() && (#[trigger] items[k]).0 == 20 && addr_of(items[k].1, order)
                == Some(x) by {
            if addrs_in(t, order).contains(x) {
                let k = choose|k: int|
                    0 <= k < t.len() && (#[trigger] t[k]).0 == 20 && addr_of(t[k].1, order) == Some(
                        x,
                    );
                assert(items[k] == t[k]);
            }
            if exists|k: int|
                0 <= k < items.len() && (#[trigger] items[k]).0 == 20 && addr_of(items[k].1, order)
                    == Some(x) {
                let k = choose|k: int|
                    0 <= k < items.len() && (#[trigger] items[k]).0 == 20 && addr_of(
                        items[k].1,
                        order,
                    ) == Some(x);
                if k < m {
                    assert(t[k] == items[k]);
                }
            }
        }
    }
}

/// As long as no error was reported, every message of a dump that is no control
/// message is kept, and the dump is done exactly if its end was announced.
pub proof fn law_dump_keeps_every_message(m: Seq<Msg>, order: ByteOrder, k: int)
    requires
        !(dump_of(m, order).1 is Failed),
    ensures
        0 <= k < m.len() && m[k].0 != 1 && m[k].0 != 2 && m[k].0 != 3 ==> dump_of(
            m,
            order,
        ).0.contains((m[k].0, m[k].2)),
        0 <= k < m.len() && (m[k].0 == 3 || m[k].0 == 2) ==> dump_of(m, order).1 is Done,
        (forall|j: int| 0 <= j < m.len() ==> (#[trigger] m[j]).0 != 3 && m[j].0 != 2) ==> dump_of(
            m,
            order,
        ).1 is More,
    decreases m.len(),
{
    if m.len() > 0 {
        let t = m.drop_last();
        let n = m.len() - 1;
        law_dump_keeps_every_message(t, order, k);
        assert(m[n] == m.last());
        let items = dump_of(t, order).0;
        sorting::lemma_push_holds(items, (m.last().0, m.last().2));
        if 0 <= k < n {
            assert(t[k] == m[k]);
        }
        if forall|j: int| 0 <= j < m.len() ==> (#[trigger] m[j]).0 != 3 && m[j].0 != 2 {
            assert forall|j: int| 0 <= j < t.len() implies (#[trigger] t[j]).0 != 3 && t[j].0
                != 2 by {
                assert(t[j] == m[j]);
            }
            assert(m[n].0 != 3 && m[n].0 != 2);
        }
    }
}

/// Rounding gives the nearest whole number, and of two that are equally near the
/// even one.
pub proof fn law_rounds_to_the_nearest(a: nat, b: nat)
    requires
        b > 0,
    ensures
        ({
            let r = round_half_even(a, b);
            &&& 2 * (r * b - a) <= b
            &&& 2 * (a - r * b) <= b
            &&& 2 * (r * b - a) == b || 2 * (a - r * b) == b ==> r % 2 == 0
        }),
{
    let q = a / b;
    let rest = a % b;
    assert(a == q * b + rest && 0 <= rest < b) by (nonlinear_arith)
        requires
            b > 0,
            q == a / b,
            rest == a % b,
    ;
    assert((q + 1) * b == q * b + b) by (nonlinear_arith);
}

/// Up to a kilobyte a size is told in bytes; a whole number of kilobytes,
/// megabytes, gigabytes or terabytes is told as that number, with one place after
/// the point for kilobytes and two for the others.
pub proof fn law_whole_sizes(k: nat)
    requires
        0 < k < 1024,
    ensures
        bytes_text(k) == numeral::decimal(k) + " B"@,
        bytes_text(k * 0x400) == numeral::decimal(k) + "."@ + seq!['0'] + " KB"@,
        bytes_text(k * 0x10_0000) == numeral::decimal(k) + "."@ + seq!['0', '0'] + " MB"@,
        bytes_text(k * 0x4000_0000) == numeral::decimal(k) + "."@ + seq!['0', '0'] + " GB"@,
        bytes_text(k * 0x100_0000_0000) == numeral::decimal(k) + "."@ + seq!['0', '0'] + " TB"@,
{
    lemma_small_is_exact(k * 0x400);
    lemma_small_is_exact(k * 0x10_0000);
    lemma_small_is_exact(k * 0x4000_0000);
    lemma_small_is_exact(k * 0x100_0000_0000);
    assert(round_half_even(k * 0x400 * 10, 0x400) == 10 * k);
    assert(round_half_even(k * 0x10_0000 * 100, 0x10_0000) == 100 * k);
    assert(round_half_even(k * 0x4000_0000 * 100, 0x4000_0000) == 100 * k);
    assert(round_half_even(k * 0x100_0000_0000 * 100, 0x100_0000_0000) == 100 * k);
    assert(numeral::digit_char(0) == '0');
}

proof fn lemma_small_is_exact(n: nat)
    requires
        n < 0x20_0000_0000_0000,
    ensures
        nearest_double(n) == n,
{
    assert(double_step(n) == 1);
    assert(n / 1 == n && n % 1 == 0);
}

/// The unit of a size is the largest that it reaches.
pub proof fn law_units_of_sizes(b: nat)
    ensures
        b < 0x400 ==> (" B"@).is_suffix_of(bytes_text(b)),
        0x400 <= b < 0x10_0000 ==> (" KB"@).is_suffix_of(bytes_text(b)),
        0x10_0000 <= b < 0x4000_0000 ==> (" MB"@).is_suffix_of(bytes_text(b)),
        0x4000_0000 <= b < 0x100_0000_0000 ==> (" GB"@).is_suffix_of(bytes_text(b)),
        b >= 0x100_0000_0000 ==> (" TB"@).is_suffix_of(bytes_text(b)),
{
}

} // verus!
