//! One failing input per error kind, and the edges of the numeric,
//! calendar and address sub-parsers.

use p0f_parser::parse_line;
use p0f_parser::Error;
use p0f_parser::P0fModule;

const HEADER: &str = "[2020/04/17 11:39:16] mod=";

fn line_with(module_and_payload: &str) -> String {
    let mut s = String::from(HEADER);
    s.push_str(module_and_payload);
    s
}

#[test]
fn missing_opening_bracket() {
    let line = "2020/04/17 11:39:16] mod=foo|cli=1.2.3.4/80|srv=5.6.7.8/443|subj=cli";
    assert!(matches!(parse_line(line), Err(Error::Timestamp { .. })));
}

#[test]
fn impossible_month_is_a_timestamp_error() {
    let line = "[2020/13/01 00:00:00] mod=foo|cli=1.2.3.4/80|srv=5.6.7.8/443|subj=cli";
    assert!(matches!(parse_line(line), Err(Error::Timestamp { .. })));
}

#[test]
fn leap_day_valid_only_in_leap_years() {
    let ok = "[2020/02/29 00:00:00] mod=foo|cli=1.2.3.4/80|srv=5.6.7.8/443|subj=cli";
    assert!(parse_line(ok).is_ok());
    let bad = "[2019/02/29 00:00:00] mod=foo|cli=1.2.3.4/80|srv=5.6.7.8/443|subj=cli";
    assert!(matches!(parse_line(bad), Err(Error::Timestamp { .. })));
}

#[test]
fn off_shape_timestamp_content() {
    let line = "[2020-04-17 11:39:16] mod=foo|cli=1.2.3.4/80|srv=5.6.7.8/443|subj=cli";
    assert!(matches!(parse_line(line), Err(Error::Timestamp { .. })));
}

#[test]
fn missing_mod_introducer() {
    let line = "[2020/04/17 11:39:16] module=foo|cli=1.2.3.4/80|srv=5.6.7.8/443|subj=cli";
    assert!(matches!(parse_line(line), Err(Error::ModuleTag { .. })));
}

#[test]
fn empty_module_tag() {
    let line = "[2020/04/17 11:39:16] mod=|cli=1.2.3.4/80|srv=5.6.7.8/443|subj=cli";
    assert!(matches!(parse_line(line), Err(Error::ModuleTag { .. })));
}

#[test]
fn endpoint_without_slash() {
    let line = line_with("foo|cli=1.2.3.4|srv=5.6.7.8/443|subj=cli");
    match parse_line(&line) {
        Err(Error::Endpoint { remain }) => assert_eq!(remain, "1.2.3.4"),
        _ => panic!("expected the endpoint error"),
    }
}

#[test]
fn endpoint_with_bad_address() {
    let line = line_with("foo|cli=1.2.3.456/80|srv=5.6.7.8/443|subj=cli");
    assert!(matches!(parse_line(&line), Err(Error::Endpoint { .. })));
}

#[test]
fn endpoint_with_leading_zero_octet() {
    let line = line_with("foo|cli=01.2.3.4/80|srv=5.6.7.8/443|subj=cli");
    assert!(matches!(parse_line(&line), Err(Error::Endpoint { .. })));
}

#[test]
fn endpoint_with_port_out_of_range() {
    let line = line_with("foo|cli=1.2.3.4/65536|srv=5.6.7.8/443|subj=cli");
    assert!(matches!(parse_line(&line), Err(Error::Endpoint { .. })));
}

#[test]
fn endpoint_with_junk_after_port() {
    let line = line_with("foo|cli=1.2.3.4/80x|srv=5.6.7.8/443|subj=cli");
    assert!(matches!(parse_line(&line), Err(Error::Endpoint { .. })));
}

#[test]
fn endpoint_port_zero_and_top() {
    let line = line_with("foo|cli=1.2.3.4/0|srv=5.6.7.8/65535|subj=cli");
    let p = parse_line(&line).unwrap();
    assert_eq!(p.client.port, 0);
    assert_eq!(p.server.port, 65535);
}

#[test]
fn bad_ipv6_double_abbreviation() {
    let line = line_with("foo|cli=1::2::3/80|srv=5.6.7.8/443|subj=cli");
    assert!(matches!(parse_line(&line), Err(Error::Endpoint { .. })));
}

#[test]
fn bad_ipv6_too_many_groups() {
    let line = line_with("foo|cli=1:2:3:4:5:6:7:8:9/80|srv=5.6.7.8/443|subj=cli");
    assert!(matches!(parse_line(&line), Err(Error::Endpoint { .. })));
}

#[test]
fn unknown_subject_token() {
    let line = line_with("foo|cli=1.2.3.4/80|srv=5.6.7.8/443|subj=both");
    assert!(matches!(parse_line(&line), Err(Error::Subject { .. })));
}

#[test]
fn missing_required_payload_tag() {
    let line = line_with("mtu|cli=1.2.3.4/80|srv=5.6.7.8/443|subj=cli|link=DSL");
    match parse_line(&line) {
        Err(Error::Tag { name, .. }) => assert_eq!(name, "raw_mtu"),
        _ => panic!("expected the tag error for raw_mtu"),
    }
}

#[test]
fn non_numeric_mtu_is_an_integer_error() {
    let line = line_with("mtu|cli=1.2.3.4/80|srv=5.6.7.8/443|subj=cli|link=DSL|raw_mtu=big");
    match parse_line(&line) {
        Err(Error::Integer { remain }) => assert_eq!(remain, "big"),
        _ => panic!("expected the integer error"),
    }
}

#[test]
fn truncated_uptime_is_a_duration_error() {
    let line = line_with("uptime|cli=1.2.3.4/80|srv=5.6.7.8/443|subj=cli|uptime=10 days|raw_freq=x");
    assert!(matches!(parse_line(&line), Err(Error::Duration { .. })));
}

#[test]
fn uptime_with_trailing_junk_is_a_duration_error() {
    let line = line_with(
        "uptime|cli=1.2.3.4/80|srv=5.6.7.8/443|subj=cli|uptime=1 days 2 hrs 3 min (modulo 7 days) x|raw_freq=x",
    );
    assert!(matches!(parse_line(&line), Err(Error::Duration { .. })));
}

#[test]
fn huge_uptime_is_an_integer_error() {
    let line = line_with(
        "uptime|cli=1.2.3.4/80|srv=5.6.7.8/443|subj=cli|uptime=99999999999999999999 days 0 hrs 0 min (modulo 30 days)|raw_freq=x",
    );
    assert!(matches!(parse_line(&line), Err(Error::Integer { .. })));
}

#[test]
fn raw_sig_may_contain_pipes() {
    let line = line_with("syn|cli=1.2.3.4/80|srv=5.6.7.8/443|subj=cli|os=a|dist=1|params=none|raw_sig=a|b|c");
    let p = parse_line(&line).unwrap();
    match p.module {
        P0fModule::Syn { raw_sig, .. } => assert_eq!(raw_sig, "a|b|c"),
        _ => panic!("wrong module variant"),
    }
}

#[test]
fn empty_tag_value_is_a_tag_error() {
    let line = line_with("syn|cli=1.2.3.4/80|srv=5.6.7.8/443|subj=cli|os=|dist=1|params=none|raw_sig=x");
    match parse_line(&line) {
        Err(Error::Tag { name, .. }) => assert_eq!(name, "os"),
        _ => panic!("expected the tag error for os"),
    }
}

#[test]
fn error_kind_names() {
    let line = "no brackets here";
    match parse_line(line) {
        Err(e) => assert_eq!(e.kind_name(), "timestamp"),
        _ => panic!("expected an error"),
    }
}
