use rustscan::address::parse_addresses;
use rustscan::input::Opts;
use rustscan::ip::Ip;
use rustscan::scanner::{
    exclude_filter, tcp_attempt_verdict, udp_attempt_verdict, udp_payload_for,
    udp_timeout_message, PoolReply, ProbeVerdict, ScanPool, Scanner, UdpAttemptOutcome,
    UdpPayloadEntry, UdpPayloadTable, UdpVerdict,
};
use rustscan::socket_iterator::{Socket, SocketIterator};
use rustscan::port_strategy::PortStrategy;
use rustscan::input::{PortRange, ScanOrder};

#[test]
fn goes_through_every_ip_port_combination() {
    let addrs = vec![Ip::v4(127, 0, 0, 1), Ip::v4(192, 168, 0, 1)];
    let ports: Vec<u16> = vec![22, 80, 443];
    let mut it = SocketIterator::new(&addrs, &ports);

    assert_eq!(Some(Socket { ip: addrs[0], port: ports[0] }), it.next());
    assert_eq!(Some(Socket { ip: addrs[1], port: ports[0] }), it.next());
    assert_eq!(Some(Socket { ip: addrs[0], port: ports[1] }), it.next());
    assert_eq!(Some(Socket { ip: addrs[1], port: ports[1] }), it.next());
    assert_eq!(Some(Socket { ip: addrs[0], port: ports[2] }), it.next());
    assert_eq!(Some(Socket { ip: addrs[1], port: ports[2] }), it.next());
    assert_eq!(None, it.next());
}

#[test]
fn socket_iterator_emits_block_in_port_outer_order() {
    // the /30 block against two ports: every address on port 80 first,
    // then every address on port 443, eight sockets in all
    let opts = Opts {
        addresses: vec!["192.168.0.0/30".to_owned()],
        ..Default::default()
    };
    let ips = parse_addresses(&opts);
    let ports: Vec<u16> = vec![80, 443];
    let mut it = SocketIterator::new(&ips, &ports);

    let mut seen: Vec<Socket> = Vec::new();
    while let Some(s) = it.next() {
        seen.push(s);
    }
    assert_eq!(seen.len(), 8);
    for (i, s) in seen.iter().enumerate() {
        let expected_port = if i < 4 { 80 } else { 443 };
        assert_eq!(s.port, expected_port);
        assert_eq!(s.ip, Ip::v4(192, 168, 0, (i % 4) as u8));
    }
}

#[test]
fn scan_ports_is_the_manual_order_minus_exclusions() {
    let strategy = PortStrategy::pick(
        &None,
        Some(vec![443, 80, 9000, 443]),
        ScanOrder::Serial,
    );
    let scanner = Scanner::new(
        &vec![Ip::v4(127, 0, 0, 1)],
        10,
        100,
        1,
        true,
        strategy,
        true,
        vec![9000],
        false,
    );
    assert_eq!(scanner.scan_ports(), vec![443, 80, 443]);
}

#[test]
fn exclude_filter_removes_listed_ports() {
    let filtered = exclude_filter(&vec![80, 443, 9000, 80], &vec![9000]);
    assert_eq!(filtered, vec![80, 443, 80]);
}

#[test]
fn pool_never_exceeds_batch_size() {
    let ips = vec![Ip::v4(10, 0, 0, 1), Ip::v4(10, 0, 0, 2)];
    let ports: Vec<u16> = vec![1, 2, 3];
    let mut pool = ScanPool::new(&ips, &ports, 4, 1000);
    let batch = pool.seed();
    assert_eq!(batch.len(), 4);

    // every completion frees one slot and fills it while sockets remain
    let mut in_flight = batch.len();
    let mut handed_out = batch.len();
    let mut pending: Vec<Socket> = batch;
    while let Some(socket) = pending.pop() {
        match pool.on_completion(Ok(socket)) {
            PoolReply::Spawn(next) => {
                pending.push(next);
                handed_out += 1;
            }
            PoolReply::Drain => {
                in_flight -= 1;
            }
        }
        assert!(in_flight <= 4);
    }
    assert_eq!(handed_out, 6);
    let (open_sockets, errors) = pool.results();
    assert_eq!(open_sockets.len(), 6);
    assert!(errors.is_empty());
}

#[test]
fn pool_seed_is_bounded_by_product() {
    let ips = vec![Ip::v4(10, 0, 0, 1)];
    let ports: Vec<u16> = vec![80];
    let mut pool = ScanPool::new(&ips, &ports, 5000, 1000);
    let batch = pool.seed();
    assert_eq!(batch.len(), 1);
}

#[test]
fn pool_deduplicates_and_caps_errors() {
    let ips = vec![Ip::v4(10, 0, 0, 1)];
    let ports: Vec<u16> = vec![1, 2, 3, 4];
    let mut pool = ScanPool::new(&ips, &ports, 4, 2);
    let batch = pool.seed();
    assert_eq!(batch.len(), 4);
    pool.on_completion(Err("refused".to_owned()));
    pool.on_completion(Err("refused".to_owned()));
    pool.on_completion(Err("reset".to_owned()));
    pool.on_completion(Err("unreachable".to_owned()));
    let (open_sockets, errors) = pool.results();
    assert!(open_sockets.is_empty());
    assert_eq!(errors, vec!["refused".to_owned(), "reset".to_owned()]);
}

#[test]
fn tcp_verdict_open_on_success() {
    assert_eq!(tcp_attempt_verdict(&None, 1, 3, "10.0.0.1"), ProbeVerdict::Open);
}

#[test]
fn tcp_verdict_retries_until_last_attempt() {
    let err = Some("connection refused".to_owned());
    assert_eq!(tcp_attempt_verdict(&err, 1, 3, "10.0.0.1"), ProbeVerdict::Retry);
    assert_eq!(tcp_attempt_verdict(&err, 2, 3, "10.0.0.1"), ProbeVerdict::Retry);
    assert_eq!(
        tcp_attempt_verdict(&err, 3, 3, "10.0.0.1"),
        ProbeVerdict::Failed("connection refused 10.0.0.1".to_owned())
    );
}

#[test]
fn tcp_verdict_fatal_on_descriptor_exhaustion() {
    // the marker is matched on the lowercase form of the message, so a
    // mixed-case report aborts too
    let err = Some("Too Many Open Files (os error 24)".to_owned());
    assert_eq!(tcp_attempt_verdict(&err, 1, 3, "10.0.0.1"), ProbeVerdict::Fatal);
}

#[test]
fn udp_verdict_cases() {
    assert_eq!(udp_attempt_verdict(UdpAttemptOutcome::Reply, 1, 3), UdpVerdict::Open);
    assert_eq!(udp_attempt_verdict(UdpAttemptOutcome::TimedOut, 1, 3), UdpVerdict::Retry);
    assert_eq!(
        udp_attempt_verdict(UdpAttemptOutcome::TimedOut, 3, 3),
        UdpVerdict::AllTimedOut
    );
    assert_eq!(
        udp_attempt_verdict(UdpAttemptOutcome::Failed("bind failed".to_owned()), 1, 3),
        UdpVerdict::Failed("bind failed".to_owned())
    );
}

#[test]
fn udp_timeout_message_names_the_socket() {
    assert_eq!(
        udp_timeout_message("127.0.0.1:53"),
        "UDP scan timed-out for all tries on socket 127.0.0.1:53"
    );
}

#[test]
fn udp_payload_last_matching_entry_wins() {
    let table = UdpPayloadTable {
        entries: vec![
            UdpPayloadEntry { ports: vec![53, 5353], payload: vec![1] },
            UdpPayloadEntry { ports: vec![123], payload: vec![2] },
            UdpPayloadEntry { ports: vec![53], payload: vec![3] },
        ],
    };
    assert_eq!(udp_payload_for(&table, 53), vec![3]);
    assert_eq!(udp_payload_for(&table, 123), vec![2]);
    assert_eq!(udp_payload_for(&table, 5353), vec![1]);
    assert_eq!(udp_payload_for(&table, 80), Vec::<u8>::new());
}

#[test]
fn scanner_corrects_zero_tries_to_one() {
    let strategy = PortStrategy::pick(
        &Some(PortRange { start: 1, end: 10 }),
        None,
        ScanOrder::Serial,
    );
    let scanner = Scanner::new(
        &vec![Ip::v4(127, 0, 0, 1)],
        10,
        100,
        0,
        true,
        strategy,
        true,
        vec![9000],
        false,
    );
    assert_eq!(scanner.tries(), 1);
    assert_eq!(scanner.batch_size(), 10);
    assert_eq!(scanner.timeout_millis(), 100);
    assert!(scanner.greppable());
    assert!(scanner.accessible());
    assert!(!scanner.udp_mode());
}

#[test]
fn scanner_ports_never_hold_excluded_ports() {
    let strategy = PortStrategy::pick(
        &Some(PortRange { start: 8998, end: 9002 }),
        None,
        ScanOrder::Serial,
    );
    let scanner = Scanner::new(
        &vec![Ip::v4(127, 0, 0, 1)],
        10,
        100,
        1,
        true,
        strategy,
        true,
        vec![9000],
        false,
    );
    let ports = scanner.scan_ports();
    assert_eq!(ports, vec![8998, 8999, 9001, 9002]);
    let pool = scanner.start_pool(&ports);
    assert!(pool.is_some());
}
