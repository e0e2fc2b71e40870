use qscan::{ports_parse, ports_spec_is_valid, try_ports_parse};

#[test]
fn parse_empty_port() {
    let res = ports_parse("");
    assert_eq!(res, Vec::<u16>::new());
}

#[test]
fn parse_commas_port() {
    let res = ports_parse(",,,");
    assert_eq!(res, Vec::<u16>::new());
}

#[test]
fn qscanner_parse_single_port() {
    let res = ports_parse("80");
    assert_eq!(res, vec![80]);
}

#[test]
fn parse_repeated_port1() {
    let res = ports_parse("80,80");
    assert_eq!(res, vec![80]);
}

#[test]
fn parse_repeated_port2() {
    let res = ports_parse("80,79-81");
    assert_eq!(res, vec![80, 79, 81]);
}

#[test]
fn parse_repeated_port3() {
    let res = ports_parse("80,128,79-81");
    assert_eq!(res, vec![80, 128, 79, 81]);
}

#[test]
fn qscanner_parse_multiple_ports() {
    let res = ports_parse("80, 443,8080");
    assert_eq!(res, vec![80, 443, 8080]);
}

#[test]
fn qscanner_parse_ports_range() {
    let res = ports_parse("80-83");
    assert_eq!(res, vec![80, 81, 82, 83]);
}

#[test]
fn qscanner_parse_ports_mixed() {
    let res = ports_parse("21,80-83,443,8080-8081");
    assert_eq!(res, vec![21, 80, 81, 82, 83, 443, 8080, 8081]);
}

#[test]
fn lib_parse_single_port() {
    let res = ports_parse("80");
    assert_eq!(res, vec![80]);
}

#[test]
fn lib_parse_multiple_ports() {
    let res = ports_parse("80, 443,8080");
    assert_eq!(res, vec![80, 443, 8080]);
}

#[test]
fn lib_parse_ports_range() {
    let res = ports_parse("80-83");
    assert_eq!(res, vec![80, 81, 82, 83]);
}

#[test]
fn lib_parse_ports_mixed() {
    let res = ports_parse("21,80-83,443,8080-8081");
    assert_eq!(res, vec![21, 80, 81, 82, 83, 443, 8080, 8081]);
}

#[test]
fn ports_descending_range_is_empty() {
    assert_eq!(ports_parse("90-80"), Vec::<u16>::new());
    assert_eq!(ports_parse("90-80,22"), vec![22]);
}

#[test]
fn ports_single_range() {
    assert_eq!(ports_parse("443-443"), vec![443]);
    assert_eq!(ports_parse("0-0"), vec![0]);
}

#[test]
fn ports_extremes() {
    assert_eq!(ports_parse("65535"), vec![65535]);
    assert_eq!(ports_parse("65534-65535"), vec![65534, 65535]);
    assert_eq!(ports_parse("0"), vec![0]);
    assert_eq!(ports_parse("+80, 007"), vec![80, 7]);
    assert_eq!(ports_parse("1-65535").len(), 65535);
}

#[test]
fn ports_whitespace_everywhere() {
    assert_eq!(ports_parse(" 2 2 ,\t8 0 -\n8 1 "), vec![22, 80, 81]);
}

#[test]
fn ports_malformed_tokens() {
    assert_eq!(try_ports_parse("80-81-82"), None);
    assert_eq!(try_ports_parse("http"), None);
    assert_eq!(try_ports_parse("65536"), None);
    assert_eq!(try_ports_parse("80-"), None);
    assert_eq!(try_ports_parse("-80"), None);
    assert_eq!(try_ports_parse("+"), None);
    assert!(!ports_spec_is_valid("22,1-2-3"));
    assert!(ports_spec_is_valid(" ,22, "));
}

#[test]
fn ports_render_round_trip() {
    let first = ports_parse("8080, 22,20-23,22");
    let text: Vec<String> = first.iter().map(|p| p.to_string()).collect();
    let again = ports_parse(&text.join(","));
    assert_eq!(first, vec![8080, 22, 20, 21, 23]);
    assert_eq!(again, first);
}

#[test]
fn ports_no_duplicates_first_order() {
    let res = ports_parse("5,3-6,1-4,6");
    assert_eq!(res, vec![5, 3, 4, 6, 1, 2]);
}
