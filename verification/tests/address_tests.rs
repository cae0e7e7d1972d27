use rustscan::address::{
    parse_address, parse_addresses, parse_excluded_networks, parse_resolver_entry,
    parse_resolver_list,
};
use rustscan::input::Opts;
use rustscan::ip::{Cidr, Ip};

#[test]
fn parse_correct_addresses() {
    let opts = Opts {
        addresses: vec!["127.0.0.1".to_owned(), "192.168.0.0/30".to_owned()],
        ..Default::default()
    };

    let ips = parse_addresses(&opts);

    assert_eq!(
        ips,
        [
            Ip::v4(127, 0, 0, 1),
            Ip::v4(192, 168, 0, 0),
            Ip::v4(192, 168, 0, 1),
            Ip::v4(192, 168, 0, 2),
            Ip::v4(192, 168, 0, 3)
        ]
    );
}

#[test]
fn parse_addresses_with_address_exclusions() {
    let opts = Opts {
        addresses: vec!["192.168.0.0/30".to_owned()],
        exclude_addresses: Some(vec!["192.168.0.1".to_owned()]),
        ..Default::default()
    };
    let ips = parse_addresses(&opts);

    assert_eq!(
        ips,
        [
            Ip::v4(192, 168, 0, 0),
            Ip::v4(192, 168, 0, 2),
            Ip::v4(192, 168, 0, 3)
        ]
    );
}

#[test]
fn parse_addresses_with_cidr_exclusions() {
    let opts = Opts {
        addresses: vec!["192.168.0.0/29".to_owned()],
        exclude_addresses: Some(vec!["192.168.0.0/30".to_owned()]),
        ..Default::default()
    };
    let ips = parse_addresses(&opts);

    assert_eq!(
        ips,
        [
            Ip::v4(192, 168, 0, 4),
            Ip::v4(192, 168, 0, 5),
            Ip::v4(192, 168, 0, 6),
            Ip::v4(192, 168, 0, 7),
        ]
    );
}

#[test]
fn parse_addresses_with_incorrect_address_exclusions() {
    let opts = Opts {
        addresses: vec!["192.168.0.0/30".to_owned()],
        exclude_addresses: Some(vec!["192.168.0.1".to_owned()]),
        ..Default::default()
    };
    let ips = parse_addresses(&opts);

    assert_eq!(
        ips,
        [
            Ip::v4(192, 168, 0, 0),
            Ip::v4(192, 168, 0, 2),
            Ip::v4(192, 168, 0, 3)
        ]
    );
}

#[test]
fn parse_correct_and_incorrect_addresses() {
    let opts = Opts {
        addresses: vec!["127.0.0.1".to_owned(), "im_wrong".to_owned()],
        ..Default::default()
    };

    let ips = parse_addresses(&opts);

    assert_eq!(ips, [Ip::v4(127, 0, 0, 1)]);
}

#[test]
fn parse_incorrect_addresses() {
    let opts = Opts {
        addresses: vec!["im_wrong".to_owned(), "300.10.1.1".to_owned()],
        ..Default::default()
    };

    let ips = parse_addresses(&opts);

    assert!(ips.is_empty());
}

#[test]
fn parse_duplicate_cidrs() {
    let opts = Opts {
        addresses: vec!["79.98.104.0/21".to_owned(), "79.98.104.0/24".to_owned()],
        ..Default::default()
    };

    let ips = parse_addresses(&opts);

    assert_eq!(ips.len(), 2_048);
}

#[test]
fn parse_overspecific_cidr() {
    // a canonical CIDR string has 0 in all host bits, but any CIDR-like
    // string is treated as its containing network
    let opts = Opts {
        addresses: vec!["192.128.1.1/24".to_owned()],
        ..Default::default()
    };

    let ips = parse_addresses(&opts);

    assert_eq!(ips.len(), 256);
}

#[test]
fn unresolvable_strings_yield_one_warning_each() {
    // the single warning of a mixed run comes from the one string that
    // parses as neither an address nor a block
    assert!(parse_address("im_wrong").is_empty());
    assert_eq!(parse_address("127.0.0.1"), vec![Ip::V4(0x7F000001)]);
}

#[test]
fn parse_ipv6_literal_address() {
    // reaches the cidr crate behind the trusted boundary: a bare
    // sixteen-byte address is a host, not nothing
    let ips = parse_address("::1");
    assert_eq!(ips, vec![Ip::V6(1)]);
}

#[test]
fn parse_ipv6_small_block() {
    let ips = parse_address("2001:db8::/126");
    assert_eq!(ips.len(), 4);
    assert_eq!(ips[0], Ip::V6(0x20010db8000000000000000000000000));
    assert_eq!(ips[3], Ip::V6(0x20010db8000000000000000000000003));
}

#[test]
fn excluded_networks_parse_hosts_and_blocks() {
    let excluded = parse_excluded_networks(&Some(vec![
        "192.168.0.0/24".to_owned(),
        "10.0.0.1".to_owned(),
    ]));
    assert_eq!(
        excluded,
        vec![
            Cidr {
                ip: Ip::v4(192, 168, 0, 0),
                prefix_len: 24
            },
            Cidr {
                ip: Ip::v4(10, 0, 0, 1),
                prefix_len: 32
            },
        ]
    );
}

#[test]
fn resolver_list_keeps_only_bare_addresses() {
    let ips = parse_resolver_list("8.8.8.8,8.8.4.4");
    assert_eq!(ips, vec![Ip::v4(8, 8, 8, 8), Ip::v4(8, 8, 4, 4)]);

    let mixed = parse_resolver_list("8.8.8.8,junk,::1,1.2.3.0/24");
    assert_eq!(mixed, vec![Ip::v4(8, 8, 8, 8), Ip::V6(1)]);
}

#[test]
fn resolver_entry_refuses_blocks_and_names() {
    assert_eq!(parse_resolver_entry("1.1.1.1"), Some(Ip::v4(1, 1, 1, 1)));
    assert_eq!(parse_resolver_entry("::1"), Some(Ip::V6(1)));
    assert_eq!(parse_resolver_entry("1.1.1.0/24"), None);
    assert_eq!(parse_resolver_entry("dns.example"), None);
}

#[test]
fn excluded_network_with_host_bits_is_dropped() {
    // a block whose address carries host bits is not a network name, and
    // no address either, so it is left to the resolver and yields nothing
    let excluded = parse_excluded_networks(&Some(vec!["192.168.0.1/24".to_owned()]));
    assert!(excluded.is_empty());
}
