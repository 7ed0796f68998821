use std::collections::HashMap;

use zskins::wire::native_order;
use zskins::wire::push_u16;
use zskins::wire::push_u32;
use zskins::wire::read_u32;
use zskins::wire::ByteOrder;
use zskins::zbar::net_info::align4;
use zskins::zbar::net_info::build_get_request;
use zskins::zbar::net_info::collect_dump;
use zskins::zbar::net_info::dump_addrs;
use zskins::zbar::net_info::dump_links;
use zskins::zbar::net_info::format_bytes;
use zskins::zbar::net_info::format_mac;
use zskins::zbar::net_info::next_seq;
use zskins::zbar::net_info::parse_link_msg;
use zskins::zbar::net_info::parse_operstate;
use zskins::zbar::net_info::DumpStatus;
use zskins::zbar::net_info::OperState;
use zskins::zbar::net_info::RtaIter;
use zskins::zbar::net_worker::merge_snapshot;
use zskins::zbar::net_worker::needs_ssid;
use zskins::zbar::net_worker::same_snapshot;
use zskins::zbar::net_worker::ssid_from_output;
use zskins::zbar::net_worker::IfaceSnapshot;
use zskins::zbar::net_worker::NetState;
use zskins::zbar::net_worker::Worker;
use zskins::zbar::net_worker::WorkerEvent;
use zskins::zbar::net_worker::WorkerStep;
use zskins::zbar::network::describe;
use zskins::zbar::network::physical_label;
use zskins::zbar::network::DetailRow;
use zskins::zbar::network::NetworkModule;
use zskins::zbar::network::NetworkPopup;
use zskins::zbar::network::RowStyle;

const LE: ByteOrder = ByteOrder::Little;

fn rta(out: &mut Vec<u8>, kind: u16, data: &[u8]) {
    push_u16(out, (4 + data.len()) as u16, LE);
    push_u16(out, kind, LE);
    out.extend_from_slice(data);
    while out.len() % 4 != 0 {
        out.push(0);
    }
}

fn link(index: u32, name: &str, up: bool) -> Vec<u8> {
    let mut p = vec![0u8; 16];
    p[4..8].copy_from_slice(&index.to_le_bytes());
    let mut n = name.as_bytes().to_vec();
    n.push(0);
    rta(&mut p, 3, &n);
    rta(&mut p, 16, &[if up { 6 } else { 2 }]);
    rta(&mut p, 1, &[1, 2, 3, 4, 5, 6]);
    let mut stats = vec![0u8; 32];
    stats[16..24].copy_from_slice(&1000u64.to_le_bytes());
    stats[24..32].copy_from_slice(&2000u64.to_le_bytes());
    rta(&mut p, 23, &stats);
    p
}

fn message(kind: u16, payload: &[u8]) -> Vec<u8> {
    let mut m = Vec::new();
    push_u32(&mut m, (16 + payload.len()) as u32, LE);
    push_u16(&mut m, kind, LE);
    push_u16(&mut m, 0, LE);
    push_u32(&mut m, 1, LE);
    push_u32(&mut m, 0, LE);
    m.extend_from_slice(payload);
    while m.len() % 4 != 0 {
        m.push(0);
    }
    m
}

fn address(index: u32, ip: [u8; 4]) -> Vec<u8> {
    let mut p = vec![2, 24, 0, 0];
    p.extend_from_slice(&index.to_le_bytes());
    rta(&mut p, 2, &ip);
    p
}

#[test]
fn this_machine_has_a_byte_order() {
    let order = native_order();
    assert_eq!(read_u32(&7u32.to_ne_bytes(), 0, order), 7);
}

#[test]
fn lengths_are_aligned() {
    assert_eq!(align4(0), 0);
    assert_eq!(align4(5), 8);
    assert_eq!(align4(8), 8);
}

#[test]
fn requests_are_built() {
    let r = build_get_request(18, 0, 9, LE);
    assert_eq!(read_u32(&r, 0, LE) as usize, r.len());
    assert_eq!(&r[4..8], &[18, 0, 1, 3]);
    assert_eq!(read_u32(&r, 8, LE), 9);
    assert_eq!(next_seq(u32::MAX), 0);
}

#[test]
fn attributes_are_walked() {
    let mut b = Vec::new();
    rta(&mut b, 3, b"ab");
    rta(&mut b, 4, b"xyz!");
    let mut it = RtaIter::new(&b, LE);
    assert_eq!(it.next(), Some((3, &b"ab"[..])));
    assert_eq!(it.next(), Some((4, &b"xyz!"[..])));
    assert_eq!(it.next(), None);
}

#[test]
fn links_are_read() {
    let l = parse_link_msg(&link(2, "eth0", true), LE).unwrap();
    assert_eq!((l.index, l.name.as_str()), (2, "eth0"));
    assert_eq!(l.operstate, OperState::Up);
    assert_eq!(l.mac, Some([1, 2, 3, 4, 5, 6]));
    assert_eq!((l.rx_bytes, l.tx_bytes), (1000, 2000));
    assert!(parse_link_msg(&[0; 4], LE).is_none());
    assert_eq!(parse_operstate(2), OperState::Down);
    assert_eq!(parse_operstate(0), OperState::Unknown);
}

#[test]
fn dumps_end() {
    let mut datagram = message(16, &link(2, "eth0", true));
    datagram.extend(message(20, &address(2, [10, 0, 0, 1])));
    let mut out = Vec::new();
    assert_eq!(collect_dump(&datagram, LE, &mut out), DumpStatus::More);
    assert_eq!(out.len(), 2);
    assert_eq!(dump_links(&out, LE).len(), 1);
    let addrs = dump_addrs(&out, LE);
    assert_eq!(addrs[0].ipv4, Some(u32::from_be_bytes([10, 0, 0, 1])));
    assert_eq!(
        collect_dump(&message(3, &[0; 4]), LE, &mut out),
        DumpStatus::Done
    );
    assert_eq!(
        collect_dump(&message(2, &(-13i32).to_le_bytes()), LE, &mut out),
        DumpStatus::Failed(-13)
    );
}

fn state() -> NetState {
    let links = dump_links(&vec![(16, link(2, "eth0", true))], LE);
    let addrs = dump_addrs(&vec![(20, address(2, [10, 0, 0, 1]))], LE);
    NetState::start(links, addrs, None, 1_000)
}

#[test]
fn interfaces_are_followed() {
    let mut s = state();
    assert_eq!(s.snapshot.len(), 1);
    assert_eq!(s.snapshot[0].ipv4, vec![u32::from_be_bytes([10, 0, 0, 1])]);
    let changed = s.on_datagram(&message(16, &link(2, "eth0", false)), LE, false);
    assert!(changed);
    let snap = s.after_drain(changed, None).unwrap();
    assert_eq!(snap[0].operstate, OperState::Down);
    assert!(s.after_drain(false, None).is_none());
    let gone = s.on_datagram(&message(17, &link(2, "eth0", false)), LE, false);
    assert_eq!(s.after_drain(gone, None).unwrap().len(), 0);
}

#[test]
fn traffic_is_counted() {
    let mut s = state();
    let mut links = dump_links(&vec![(16, link(2, "eth0", true))], LE);
    links[0].rx_bytes = 1500;
    let (_, traffic) = s.on_timeout(&links, 3_000);
    let t = traffic.get(&2).unwrap();
    assert_eq!((t.rx, t.tx, t.nanos), (500, 0, 2_000));
}

#[test]
fn wireless_networks_are_named() {
    assert_eq!(ssid_from_output(b"home\n").as_deref(), Some("home"));
    assert_eq!(ssid_from_output(b"\n"), None);
    let links = dump_links(&vec![(16, link(3, "wlan0", true))], LE);
    assert!(needs_ssid(&links));
    let mut cache = HashMap::new();
    cache.insert(3u32, Some("home".to_string()));
    let snap = merge_snapshot(&links, &vec![], &cache);
    assert!(snap[0].is_wireless);
    assert_eq!(snap[0].wifi_ssid.as_deref(), Some("home"));
    assert!(same_snapshot(&snap, &merge_snapshot(&links, &vec![], &cache)));
    assert_eq!(physical_label(&snap[0]), "home");
}

fn snapshot() -> Vec<IfaceSnapshot> {
    let links = dump_links(
        &vec![(16, link(2, "eth0", true)), (16, link(3, "wlan0", false))],
        LE,
    );
    merge_snapshot(&links, &vec![], &HashMap::new())
}

#[test]
fn popup_keeps_its_selection() {
    let mut p = NetworkPopup::new();
    assert!(p.handle_snapshot(snapshot()));
    assert_eq!(p.selected, Some(2));
    p.select(3);
    p.handle_snapshot(snapshot());
    assert_eq!(p.selected, Some(3));
    assert!(p.hover(2));
    assert!(!p.hover(2));
    assert_eq!(p.row_style(3), RowStyle::Selected);
    assert_eq!(p.row_style(2), RowStyle::Hovered);
    assert!(p.active_iface().is_some());
    assert!(p.details().is_some());
}

#[test]
fn interfaces_are_described() {
    let rows = describe(&snapshot()[0]);
    assert!(matches!(&rows[0], DetailRow::Head { name, state, .. } if name == "eth0" && state == "[up]"));
    assert!(rows.iter().any(|r| matches!(r, DetailRow::Mac(m) if m == "01:02:03:04:05:06")));
    assert!(rows.iter().any(|r| matches!(r, DetailRow::NoIpv4)));
}

#[test]
fn pills_show_physical_interfaces() {
    let mut m = NetworkModule::new();
    assert!(m.snapshot(snapshot()));
    assert!(!m.snapshot(snapshot()));
    assert!(!m.pills().is_empty());
    assert!(!NetworkModule::new().pills().is_empty());
}

#[test]
fn amounts_are_readable() {
    assert_eq!(format_bytes(0), "0 B");
    assert_eq!(format_bytes(1023), "1023 B");
    assert_eq!(format_bytes(1536), "1.5 KB");
    assert_eq!(format_bytes(3 * 1024 * 1024), "3.00 MB");
    assert_eq!(format_bytes(1 << 40), "1.00 TB");
    assert_eq!(format_mac([0, 1, 10, 255, 16, 2]), "00:01:0a:ff:10:02");
}

#[test]
fn the_worker_tells_lists_that_differ() {
    let mut s = state();
    let first = match s.first_event() {
        WorkerEvent::Snapshot(v) => v,
        _ => panic!("expected a list"),
    };
    assert_eq!(first, s.snapshot);
    assert!(s.events_after_drain(false, None).is_empty());
    let changed = s.on_datagram(&message(16, &link(2, "eth0", false)), LE, false);
    match s.events_after_drain(changed, None).as_slice() {
        [WorkerEvent::Snapshot(v)] => assert_ne!(*v, first),
        _ => panic!("expected one list"),
    }
    let mut links = dump_links(&vec![(16, link(2, "eth0", false)), (16, link(1, "lo", true))], LE);
    links[0].rx_bytes = 1500;
    match s.events_after_timeout(&links, 3_000).as_slice() {
        [WorkerEvent::Snapshot(v), WorkerEvent::Traffic(t)] => {
            assert_eq!(v[0].rx_bytes, 1500);
            assert_eq!(t.len(), 1);
            assert_eq!((t[&2].rx, t[&2].tx, t[&2].nanos), (500, 0, 2_000));
        }
        _ => panic!("expected a list and traffic"),
    }
    links[0].rx_bytes = 1500;
    match s.events_after_timeout(&links, 4_000).as_slice() {
        [WorkerEvent::Traffic(t)] => assert_eq!((t[&2].rx, t[&2].nanos), (0, 1_000)),
        _ => panic!("expected traffic"),
    }
    links[0].rx_bytes = 7;
    match s.events_after_timeout(&links, 5_000).as_slice() {
        [WorkerEvent::Snapshot(_), WorkerEvent::Traffic(t)] => assert_eq!(t[&2].rx, 0),
        _ => panic!("expected a list and traffic"),
    }
}

#[test]
fn the_worker_ends_when_nobody_listens() {
    let mut w = Worker::new(state());
    assert!(matches!(w.next(), WorkerStep::Send(WorkerEvent::Snapshot(_))));
    w.on_sent(true);
    assert!(matches!(w.next(), WorkerStep::Listen));
    let mut links = dump_links(&vec![(16, link(2, "eth0", true))], LE);
    links[0].rx_bytes = 1500;
    w.on_counters(&links, 3_000);
    assert!(matches!(w.next(), WorkerStep::Send(WorkerEvent::Snapshot(_))));
    w.on_sent(true);
    assert!(matches!(w.next(), WorkerStep::Send(WorkerEvent::Traffic(_))));
    w.on_sent(false);
    assert!(matches!(w.next(), WorkerStep::Stop));
    let changed = w.state.on_datagram(&message(16, &link(2, "eth0", false)), LE, false);
    w.on_drained(changed, None);
    assert!(matches!(w.next(), WorkerStep::Stop));
}
