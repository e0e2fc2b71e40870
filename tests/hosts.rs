use qscan::{
    address_parse, addresses_parse, expand_cidr, host_targets, merge_host_groups, unique_hosts,
    CidrBlock, HostAddr, HostTarget,
};

fn v4(a: u8, b: u8, c: u8, d: u8) -> HostAddr {
    HostAddr::v4(a, b, c, d)
}

#[test]
fn parse_empty_address() {
    let res = addresses_parse("");
    assert_eq!(res, Vec::<HostAddr>::new());
}

#[test]
fn parse_commas_address() {
    let res = addresses_parse(",,,,");
    assert_eq!(res, Vec::<HostAddr>::new());
}

#[test]
fn qscanner_parse_simple_address() {
    let res = addresses_parse("127.0.0.1");
    assert_eq!(res, vec![v4(127, 0, 0, 1)]);
}

#[test]
fn parse_repeated_address1() {
    let res = addresses_parse("127.0.0.1,127.0.0.1");
    assert_eq!(res, vec![v4(127, 0, 0, 1)]);
}

#[test]
fn parse_repeated_address2() {
    let res = addresses_parse("127.0.0.1,127.0.0.2,127.0.0.0/30");
    assert_eq!(
        res,
        vec![v4(127, 0, 0, 1), v4(127, 0, 0, 2), v4(127, 0, 0, 0), v4(127, 0, 0, 3)]
    );
}

#[test]
fn parse_repeated_address3() {
    let res = addresses_parse("127.0.0.1,192.168.1.1,127.0.0.0/30");
    assert_eq!(
        res,
        vec![
            v4(127, 0, 0, 1),
            v4(192, 168, 1, 1),
            v4(127, 0, 0, 0),
            v4(127, 0, 0, 2),
            v4(127, 0, 0, 3),
        ]
    );
}

#[test]
fn qscanner_parse_multiple_addresses() {
    let res = addresses_parse("127.0.0.1,127.0.0.2");
    assert_eq!(res, vec![v4(127, 0, 0, 1), v4(127, 0, 0, 2)]);
}

#[test]
fn qscanner_parse_cidr() {
    let res = addresses_parse("127.0.0.10/31");
    assert_eq!(res, vec![v4(127, 0, 0, 10), v4(127, 0, 0, 11)]);
}

#[test]
fn qscanner_parse_cidr_and_addresses() {
    let res = addresses_parse("127.0.0.1,127.0.0.10/31, 127.0.0.2");
    assert_eq!(
        res,
        vec![v4(127, 0, 0, 1), v4(127, 0, 0, 10), v4(127, 0, 0, 11), v4(127, 0, 0, 2)]
    );
}

#[test]
fn lib_parse_simple_address() {
    let res = addresses_parse("127.0.0.1");
    assert_eq!(res, vec![v4(127, 0, 0, 1)]);
}

#[test]
fn lib_parse_multiple_addresses() {
    let res = addresses_parse("127.0.0.1,127.0.0.2");
    assert_eq!(res, vec![v4(127, 0, 0, 1), v4(127, 0, 0, 2)]);
}

#[test]
fn lib_parse_cidr() {
    let res = addresses_parse("127.0.0.10/31");
    assert_eq!(res, vec![v4(127, 0, 0, 10), v4(127, 0, 0, 11)]);
}

#[test]
fn lib_parse_cidr_and_addresses() {
    let res = addresses_parse("127.0.0.1,127.0.0.10/31, 127.0.0.2");
    assert_eq!(
        res,
        vec![v4(127, 0, 0, 1), v4(127, 0, 0, 10), v4(127, 0, 0, 11), v4(127, 0, 0, 2)]
    );
}

#[test]
fn cidr_full_prefix_is_one_address() {
    assert_eq!(address_parse("10.1.2.3/32"), Some(vec![v4(10, 1, 2, 3)]));
    assert_eq!(address_parse("::1/128"), Some(vec![HostAddr::V6(1)]));
    assert_eq!(address_parse("::1"), Some(vec![HostAddr::V6(1)]));
}

#[test]
fn cidr_block_is_masked_and_expanded() {
    let res = address_parse("192.168.1.7/30").unwrap();
    assert_eq!(
        res,
        vec![v4(192, 168, 1, 4), v4(192, 168, 1, 5), v4(192, 168, 1, 6), v4(192, 168, 1, 7)]
    );
    assert_eq!(address_parse("10.0.0.0/24").unwrap().len(), 256);
    let v6 = address_parse("fe80::/126").unwrap();
    let base: u128 = 0xfe80 << 112;
    assert_eq!(
        v6,
        vec![HostAddr::V6(base), HostAddr::V6(base + 1), HostAddr::V6(base + 2), HostAddr::V6(base + 3)]
    );
}

#[test]
fn cidr_rejects_names() {
    assert_eq!(address_parse("localhost"), None);
    assert_eq!(address_parse("10.0.0.0/33"), None);
    assert_eq!(address_parse("/tmp/targets.txt"), None);
}

#[test]
fn expand_cidr_ends_of_space() {
    let top = CidrBlock { v6: false, first: 0xffff_fffe, bits: 31 };
    assert_eq!(expand_cidr(&top), vec![HostAddr::V4(0xffff_fffe), HostAddr::V4(0xffff_ffff)]);
    let top6 = CidrBlock { v6: true, first: u128::MAX - 1, bits: 127 };
    assert_eq!(expand_cidr(&top6), vec![HostAddr::V6(u128::MAX - 1), HostAddr::V6(u128::MAX)]);
}

#[test]
fn host_targets_keep_names_for_lookup() {
    let t = host_targets(" 127.0.0.1, example.org,,10.0.0.0/31 ");
    assert_eq!(
        t,
        vec![
            HostTarget::Addresses(vec![v4(127, 0, 0, 1)]),
            HostTarget::Lookup("example.org".to_string()),
            HostTarget::Addresses(vec![v4(10, 0, 0, 0), v4(10, 0, 0, 1)]),
        ]
    );
    assert_eq!(addresses_parse(" 127.0.0.1, example.org"), vec![v4(127, 0, 0, 1)]);
}

#[test]
fn merge_and_unique_hosts() {
    let groups = vec![
        vec![v4(1, 1, 1, 1), v4(2, 2, 2, 2)],
        vec![],
        vec![v4(2, 2, 2, 2), HostAddr::V6(1), v4(1, 1, 1, 1), v4(3, 3, 3, 3)],
    ];
    assert_eq!(
        merge_host_groups(&groups),
        vec![v4(1, 1, 1, 1), v4(2, 2, 2, 2), HostAddr::V6(1), v4(3, 3, 3, 3)]
    );
    assert_eq!(
        unique_hosts(&vec![HostAddr::V6(5), HostAddr::V4(5), HostAddr::V6(5)]),
        vec![HostAddr::V6(5), HostAddr::V4(5)]
    );
}
