use ra2m_sim::module::UidGen;
use ra2m_sim::port::packet::{Packet, PacketOptions};
use ra2m_sim::protocol::addr::{Addr, Data, Pattern, SubRangeAddr};
use ra2m_sim::protocol::membus::{Command, MemBus, MemBusError};
use ra2m_sim::protocol::network::{Network, NetworkError};
use ra2m_sim::protocol::dma::{DmaBus, DmaBusError};
use ra2m_sim::protocol::{Mode, Traceable};
use ra2m_sim::time::TimingMode;
use ra2m_sim::types::history::{Handler, History, PipeStatus, SwitchPath};
use ra2m_sim::types::span::Span;
use ra2m_sim::table::{column_kind, column_kinds, ColumnKind, ParserError, RetryVerdict, StreamReader, MAX_RETRY};

#[test]
fn membus_request_records_its_issuer() {
    let data = [1u8, 2, 3, 4];
    let m = MemBus::new(7, Command::Write, Addr::PhysVirt(0x100, 0x8000), Pattern::Simple(Data::Byte(4)), Some(&data), 12);
    assert_eq!(Command::Write, m.cmd());
    assert_eq!(SubRangeAddr::Phys(0x100), m.subrange_addr());
    assert_eq!(&data[..], m.data());
    let h = m.trace().as_slice();
    assert_eq!(1, h.len());
    assert_eq!(7, h[0].uid());
    assert_eq!(12, h[0].tick());
    assert!(m.rx_check().is_err());
    assert!(m.tx_check().is_ok());

    let r = MemBus::new(1, Command::Read, Addr::Virt(0x40), Pattern::Simple(Data::Byte(64)), None, 0);
    assert_eq!(SubRangeAddr::Unset(), r.subrange_addr());
    assert!(r.data().is_empty());
    assert_eq!(vec![0u8; 0], r.into_data());
}

#[test]
fn membus_checks_follow_the_mode() {
    let mut m = MemBus::new(1, Command::Read, Addr::Phys(0), Pattern::Simple(Data::Byte(1)), None, 0);
    m.set_mode(Mode::Response);
    assert!(m.rx_check().is_ok());
    assert!(matches!(m.tx_check(), Err(MemBusError::RespAsReq)));
    m.set_mode(Mode::Error(MemBusError::Ffi("boom".to_owned())));
    match m.rx_check() {
        Err(MemBusError::Ffi(s)) => assert_eq!("boom", s),
        other => panic!("unexpected {other:?}"),
    }
    m.set_mode(Mode::Request);
    assert!(matches!(m.rx_check(), Err(MemBusError::ReqAsResp)));
}

#[test]
fn membus_crossbar_stack() {
    let mut m = MemBus::new(1, Command::Read, Addr::Phys(0), Pattern::Simple(Data::Byte(1)), None, 0);
    m.push_xbar_port(3);
    m.push_xbar_port(5);
    assert_eq!(Some(5), m.pop_xbar_port());
    assert_eq!(Some(3), m.pop_xbar_port());
    assert_eq!(None, m.pop_xbar_port());
    m.wrap_up(9, 30);
    assert_eq!(2, m.trace().len());
    assert_eq!(30, m.trace().duration_tick());
}

#[test]
fn command_traceable_text() {
    for (c, t) in [(Command::Read, "read"), (Command::Write, "write"), (Command::AddrRange, "addrrange")] {
        match c.to_traceable() {
            Traceable::Text(s) => assert_eq!(t, s),
            _ => panic!("not a text"),
        }
    }
}

#[test]
fn network_wrap_keeps_options_and_unpaid_delay() {
    let mut uids = UidGen::new();
    let inner = Packet::wrap_payload(42u32, PacketOptions { timed: false, sid: Some(3), delay: 10 }, &mut uids, 100);
    assert_eq!(0, inner.uid());
    let framed = Packet::inner_wrap(5usize, 6usize, inner, &mut uids, 104);
    assert_eq!(1, framed.uid());
    assert_eq!(Some(3), *framed.sid());
    assert!(!framed.timed());
    assert_eq!(6, framed.delay(104));
    assert_eq!(5, *framed.payload().from());
    assert_eq!(6, *framed.payload().to());
    assert!(framed.payload().tx_check().is_ok());

    let back = framed.inner_unwrap(&mut uids, 120);
    assert_eq!(2, back.uid());
    assert_eq!(3, uids.count());
    assert_eq!(0, back.delay(120));
    assert_eq!(42, *back.payload());
}

#[test]
fn network_and_dma_checks() {
    let mut n = Network::new(1usize, 2usize, ());
    assert!(matches!(n.rx_check(), Err(NetworkError::ReqAsResp)));
    n.set_mode(Mode::Error(NetworkError::Unreachable));
    assert!(matches!(n.tx_check(), Err(NetworkError::Unreachable)));

    let mut d = DmaBus::new(0x10usize, 0x20usize, Pattern::Stride(Data::Byte(4), Data::Byte(16), 8));
    d.set_mode(Mode::Response);
    assert!(d.rx_check().is_ok());
    assert!(matches!(d.tx_check(), Err(DmaBusError::RespAsReq)));
    d.wrap_up(4, 8);
    assert_eq!(0x10, *d.read_from());
}

#[test]
fn packet_delay_accounting_by_timing_mode() {
    let mut p = Packet::with_uid((), PacketOptions::default(), 1, 50);
    assert_eq!(None, p.handle_delay(50));
    assert_eq!(None, p.account_delay(Some(20), TimingMode::LT, 50));
    assert_eq!(20, p.delay(50));
    assert_eq!(Some(80), p.account_delay(Some(10), TimingMode::AT, 50));
    assert_eq!(None, p.account_delay(None, TimingMode::AT, 80));
    p.set_timed(false);
    assert_eq!(None, p.handle_delay(0));
}

#[test]
fn history_spans_and_duration() {
    let mut h: History<()> = History::new();
    assert_eq!(0, h.duration_tick());
    assert!(h.spans().is_empty());
    h.push(Handler::base(1, 10));
    h.push(Handler::pipe(2, 0, PipeStatus::from_qotient(1, 4), 15));
    h.push(Handler::switch(3, SwitchPath::Forward(0, 1), 20));
    h.push(Handler::base(2, 40));
    h.push(Handler::base(1, 55));
    assert_eq!(45, h.duration_tick());
    let spans = h.spans();
    assert_eq!(3, spans.len());
    assert_eq!(Span { start: 10, end: 55 }, spans[&1]);
    assert_eq!(Span { start: 15, end: 40 }, spans[&2]);
    // Met once: ends where the next handling starts.
    assert_eq!(Span { start: 20, end: 40 }, spans[&3]);
}

#[test]
fn history_last_single_handling_ends_at_zero() {
    let mut h: History<u8> = History::new();
    h.push(Handler::custom(4, 7u8, 5));
    h.push(Handler::base(6, 9));
    let spans = h.spans();
    assert_eq!(Span { start: 5, end: 9 }, spans[&4]);
    assert_eq!(Span { start: 9, end: 0 }, spans[&6]);
}

#[test]
fn history_grows_past_its_inline_entries() {
    let mut h: History<()> = History::new();
    for t in 0..40 {
        h.push(Handler::base(t % 3, t));
    }
    assert_eq!(40, h.len());
    assert_eq!(39, h.duration_tick());
    let spans = h.spans();
    assert_eq!(Span { start: 0, end: 39 }, spans[&0]);
    assert_eq!(Span { start: 2, end: 38 }, spans[&2]);
}

#[test]
fn pipe_status_keeps_its_quotient() {
    let s = PipeStatus::from_qotient(3, 8);
    assert_eq!(3, s.stage());
    assert_eq!(8, s.stages());
}

#[test]
fn stream_reader_retries_then_stops_or_fails() {
    let mut r = StreamReader::new();
    assert!(r.clears_buffer());
    for _ in 0..MAX_RETRY {
        assert_eq!(RetryVerdict::Retry, r.decode_failed());
        assert!(!r.clears_buffer());
    }
    assert_eq!(RetryVerdict::Fail, r.decode_failed());

    let mut r = StreamReader::new();
    r.decoded();
    r.decoded();
    assert_eq!(2, r.decoded_count());
    for _ in 0..MAX_RETRY {
        assert_eq!(RetryVerdict::Retry, r.decode_failed());
    }
    assert_eq!(RetryVerdict::Stop, r.decode_failed());
}

#[test]
fn columns_of_one_kind_only() {
    assert_eq!(ColumnKind::Empty, column_kind("a", &vec![]).unwrap());
    assert_eq!(
        ColumnKind::Scalar,
        column_kind("a", &vec![Traceable::Scalar(1), Traceable::Scalar(2)]).unwrap()
    );
    let cols = vec![
        ("t".to_owned(), vec![Traceable::Text("x".to_owned())]),
        ("arr".to_owned(), vec![Traceable::Array(vec![1]), Traceable::Array(vec![])]),
        ("mix".to_owned(), vec![Traceable::Scalar(1), Traceable::Text("y".to_owned())]),
        ("mix2".to_owned(), vec![Traceable::Text("y".to_owned()), Traceable::Scalar(1)]),
    ];
    match column_kinds(&cols) {
        Err(ParserError::MixedTypes(n)) => assert_eq!("mix", n),
        other => panic!("unexpected {other:?}"),
    }
    assert_eq!(
        vec![ColumnKind::Text, ColumnKind::Array],
        column_kinds(&cols[..2].to_vec()).unwrap()
    );
}

#[test]
fn addr_range_setup_requests_end_with_an_unset_address() {
    let ranges = vec![Addr::Range(0x0, Data::Byte(0x100)), Addr::Range(0x1000, Data::Byte(0x10))];
    let reqs = MemBus::addr_range_requests(3, &ranges, 7);
    assert_eq!(3, reqs.len());
    assert_eq!(Addr::Range(0x1000, Data::Byte(0x10)), reqs[1].addr());
    assert_eq!(Addr::Unset(), reqs[2].addr());
    for r in reqs.iter() {
        assert_eq!(Command::AddrRange, r.cmd());
        assert_eq!(7, r.trace().as_slice()[0].tick());
    }
    assert!(!reqs[0].ends_addr_range_setup());
    assert!(reqs[2].ends_addr_range_setup());
}
