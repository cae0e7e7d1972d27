use rustscan::input::{
    infer_batch_size, parse_range, Config, Opts, PortRange, ScanOrder, ScriptsRequired,
};

fn default_config() -> Config {
    Config {
        addresses: Some(vec!["127.0.0.1".to_owned()]),
        ports: None,
        range: None,
        greppable: Some(true),
        batch_size: Some(25_000),
        timeout: Some(1_000),
        tries: Some(1),
        ulimit: None,
        command: Some(vec!["-A".to_owned()]),
        accessible: Some(true),
        resolver: None,
        scan_order: Some(ScanOrder::Random),
        scripts: None,
        exclude_ports: None,
        exclude_addresses: None,
        udp: Some(false),
        no_banner: None,
    }
}

#[test]
fn opts_no_merge_when_config_is_ignored() {
    let mut opts = Opts::default();
    let config = default_config();

    opts.merge(&config);

    assert_eq!(opts.addresses, vec![] as Vec<String>);
    assert!(opts.greppable);
    assert!(!opts.accessible);
    assert_eq!(opts.timeout, 0);
    assert_eq!(opts.command, vec![] as Vec<String>);
    assert_eq!(opts.scan_order, ScanOrder::Serial);
}

#[test]
fn opts_merge_required_arguments() {
    let mut opts = Opts::default();
    let config = default_config();

    opts.merge_required(&config);

    assert_eq!(opts.addresses, config.addresses.unwrap());
    assert_eq!(opts.greppable, config.greppable.unwrap());
    assert_eq!(opts.timeout, config.timeout.unwrap());
    assert_eq!(opts.command, config.command.unwrap());
    assert_eq!(opts.accessible, config.accessible.unwrap());
    assert_eq!(opts.scan_order, config.scan_order.unwrap());
    assert_eq!(opts.scripts, ScriptsRequired::Default);
}

#[test]
fn opts_merge_optional_arguments() {
    let mut opts = Opts::default();
    let mut config = default_config();
    config.range = Some(PortRange {
        start: 1,
        end: 1_000,
    });
    config.ulimit = Some(1_000);
    config.resolver = Some("1.1.1.1".to_owned());

    opts.merge_optional(&config);

    assert_eq!(opts.range, config.range);
    assert_eq!(opts.ulimit, config.ulimit);
    assert_eq!(opts.resolver, config.resolver);
}

#[test]
fn parse_range_reads_a_wellformed_range() {
    let range = parse_range("1-1000").unwrap();
    assert_eq!(range, PortRange { start: 1, end: 1000 });
}

#[test]
fn parse_range_accepts_a_leading_plus() {
    let range = parse_range("+80-443").unwrap();
    assert_eq!(range, PortRange { start: 80, end: 443 });
}

#[test]
fn parse_range_refuses_malformed_ranges() {
    let message = "the range format must be 'start-end'. Example: 1-1000.";
    assert_eq!(parse_range("1000").unwrap_err(), message);
    assert_eq!(parse_range("1-2-3").unwrap_err(), message);
    assert_eq!(parse_range("-5").unwrap_err(), message);
    assert_eq!(parse_range("a-b").unwrap_err(), message);
    assert_eq!(parse_range("1-70000").unwrap_err(), message);
}

#[test]
fn default_port_range_fills_only_the_gap() {
    let mut opts = Opts::default();
    opts.apply_default_port_range();
    assert_eq!(opts.range, Some(PortRange { start: 1, end: 65535 }));

    let mut with_ports = Opts {
        ports: Some(vec![80]),
        ..Default::default()
    };
    with_ports.apply_default_port_range();
    assert_eq!(with_ports.range, None);

    let mut with_range = Opts {
        range: Some(PortRange { start: 5, end: 9 }),
        ..Default::default()
    };
    with_range.apply_default_port_range();
    assert_eq!(with_range.range, Some(PortRange { start: 5, end: 9 }));
}

#[test]
fn batch_size_lowered() {
    let opts = Opts {
        batch_size: 50_000,
        ..Default::default()
    };
    let batch_size = infer_batch_size(&opts, 120);

    assert!(batch_size < opts.batch_size);
}

#[test]
fn batch_size_lowered_average_size() {
    let opts = Opts {
        batch_size: 50_000,
        ..Default::default()
    };
    let batch_size = infer_batch_size(&opts, 9_000);

    assert!(batch_size == 3_000);
}

#[test]
fn batch_size_equals_ulimit_lowered() {
    // because ulimit and batch size are same size, batch size is lowered
    // to ULIMIT - 100
    let opts = Opts {
        batch_size: 50_000,
        ..Default::default()
    };
    let batch_size = infer_batch_size(&opts, 5_000);

    assert!(batch_size == 4_900);
}

#[test]
fn test_high_ulimit_no_greppable_mode() {
    let opts = Opts {
        batch_size: 10,
        greppable: false,
        ..Default::default()
    };

    let batch_size = infer_batch_size(&opts, 1_000_000);

    assert!(batch_size == opts.batch_size);
}
