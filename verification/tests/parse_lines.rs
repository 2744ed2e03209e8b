//! Whole-line parses of each module kind, the degrade-gracefully path for
//! unknown modules, and the endpoint round trip.

use p0f_parser::parse_line;
use p0f_parser::Error;
use p0f_parser::P0fModule;
use p0f_parser::Subject;

#[test]
fn synack_full_line() {
    let line = "[2020/04/17 11:39:16] mod=syn+ack|cli=192.168.0.34/35822|srv=173.194.76.189/443|subj=srv|os=???|dist=22|params=none|raw_sig=4:106+22:0:1430:mss*44,8:mss,sok,ts,nop,ws::0";
    let p = parse_line(line).unwrap();
    assert_eq!(p.date.year, 2020);
    assert_eq!(p.date.month, 4);
    assert_eq!(p.date.day, 17);
    assert_eq!(p.date.hour, 11);
    assert_eq!(p.date.minute, 39);
    assert_eq!(p.date.second, 16);
    assert_eq!(p.client.addr, "192.168.0.34");
    assert_eq!(p.client.port, 35822);
    assert_eq!(p.server.addr, "173.194.76.189");
    assert_eq!(p.server.port, 443);
    assert!(matches!(p.subject, Subject::Server));
    match p.module {
        P0fModule::SynAck { os, dist, params, raw_sig } => {
            assert_eq!(os, "???");
            assert_eq!(dist, "22");
            assert_eq!(params, "none");
            assert_eq!(raw_sig, "4:106+22:0:1430:mss*44,8:mss,sok,ts,nop,ws::0");
        }
        _ => panic!("wrong module variant"),
    }
}

#[test]
fn syn_full_line() {
    let line = "[2021/01/02 03:04:05] mod=syn|cli=10.0.0.1/1234|srv=10.0.0.2/80|subj=cli|os=Linux 3.11 and newer|dist=0|params=none|raw_sig=4:64+0:0:1460:mss*20,7:mss,sok,ts,nop,ws:df,id+:0";
    let p = parse_line(line).unwrap();
    assert!(matches!(p.subject, Subject::Client));
    match p.module {
        P0fModule::Syn { os, dist, params, raw_sig } => {
            assert_eq!(os, "Linux 3.11 and newer");
            assert_eq!(dist, "0");
            assert_eq!(params, "none");
            assert_eq!(raw_sig, "4:64+0:0:1460:mss*20,7:mss,sok,ts,nop,ws:df,id+:0");
        }
        _ => panic!("wrong module variant"),
    }
}

#[test]
fn http_request_full_line() {
    let line = "[2020/04/17 11:40:00] mod=http request|cli=192.168.0.34/35830|srv=1.2.3.4/80|subj=cli|app=Firefox|lang=English|params=none|raw_sig=1:Host,User-Agent:Accept-Charset:Mozilla";
    let p = parse_line(line).unwrap();
    match p.module {
        P0fModule::HttpRequest { app, lang, params, raw_sig } => {
            assert_eq!(app, "Firefox");
            assert_eq!(lang, "English");
            assert_eq!(params, "none");
            assert_eq!(raw_sig, "1:Host,User-Agent:Accept-Charset:Mozilla");
        }
        _ => panic!("wrong module variant"),
    }
}

#[test]
fn http_response_full_line() {
    let line = "[2020/04/17 11:40:01] mod=http response|cli=192.168.0.34/35830|srv=1.2.3.4/80|subj=srv|app=Apache 2.x|lang=none|params=anonymous|raw_sig=1:Date,Server:Keep-Alive:Apache";
    let p = parse_line(line).unwrap();
    match p.module {
        P0fModule::HttpResponse { app, lang, params, raw_sig } => {
            assert_eq!(app, "Apache 2.x");
            assert_eq!(lang, "none");
            assert_eq!(params, "anonymous");
            assert_eq!(raw_sig, "1:Date,Server:Keep-Alive:Apache");
        }
        _ => panic!("wrong module variant"),
    }
}

#[test]
fn uptime_full_line() {
    let line = "[2020/04/17 11:39:20] mod=uptime|cli=192.168.0.34/35822|srv=173.194.76.189/443|subj=cli|uptime=10 days 4 hrs 33 min (modulo 30 days)|raw_freq=250.00 Hz";
    let p = parse_line(line).unwrap();
    match p.module {
        P0fModule::Uptime { uptime, raw_freq } => {
            assert_eq!(uptime.duration, 10 * 86400 + 4 * 3600 + 33 * 60);
            assert_eq!(uptime.modulo, 30 * 86400);
            assert_eq!(raw_freq, "250.00 Hz");
        }
        _ => panic!("wrong module variant"),
    }
}

#[test]
fn mtu_full_line() {
    let line = "[2020/04/17 11:39:21] mod=mtu|cli=192.168.0.34/35822|srv=173.194.76.189/443|subj=cli|link=Ethernet or modem|raw_mtu=1500";
    let p = parse_line(line).unwrap();
    match p.module {
        P0fModule::Mtu { link, raw_mtu } => {
            assert_eq!(link, "Ethernet or modem");
            assert_eq!(raw_mtu, 1500);
        }
        _ => panic!("wrong module variant"),
    }
}

#[test]
fn host_change_full_line() {
    let line = "[2020/04/17 11:39:22] mod=host change|cli=192.168.0.34/35822|srv=173.194.76.189/443|subj=cli|reason=tstamp port|raw_hits=0,1,1,1";
    let p = parse_line(line).unwrap();
    match p.module {
        P0fModule::HostChange { reason, raw_hits } => {
            assert_eq!(reason, "tstamp port");
            assert_eq!(raw_hits, "0,1,1,1");
        }
        _ => panic!("wrong module variant"),
    }
}

#[test]
fn unknown_module_keeps_tag_and_remainder() {
    let line = "[2020/04/17 11:39:16] mod=foo|cli=1.2.3.4/80|srv=5.6.7.8/443|subj=cli|x=1|y=2";
    let p = parse_line(line).unwrap();
    match p.module {
        P0fModule::Unparsed { module, remain } => {
            assert_eq!(module, "foo");
            assert_eq!(remain, "|x=1|y=2");
        }
        _ => panic!("wrong module variant"),
    }
}

#[test]
fn unknown_module_empty_remainder() {
    let line = "[2020/04/17 11:39:16] mod=flow|cli=1.2.3.4/80|srv=5.6.7.8/443|subj=srv";
    let p = parse_line(line).unwrap();
    match p.module {
        P0fModule::Unparsed { module, remain } => {
            assert_eq!(module, "flow");
            assert_eq!(remain, "");
        }
        _ => panic!("wrong module variant"),
    }
}

#[test]
fn endpoint_round_trip_ipv4() {
    let line = "[2020/04/17 11:39:16] mod=foo|cli=192.168.0.34/35822|srv=173.194.76.189/443|subj=srv";
    let p = parse_line(line).unwrap();
    assert_eq!(p.client.serialize(), "192.168.0.34/35822");
    assert_eq!(p.server.serialize(), "173.194.76.189/443");
}

#[test]
fn endpoint_round_trip_ipv6() {
    let line = "[2020/04/17 11:39:16] mod=foo|cli=2001:db8::1/443|srv=::ffff:1.2.3.4/65535|subj=cli";
    let p = parse_line(line).unwrap();
    assert_eq!(p.client.addr, "2001:db8::1");
    assert_eq!(p.client.serialize(), "2001:db8::1/443");
    assert_eq!(p.server.serialize(), "::ffff:1.2.3.4/65535");
}

#[test]
fn trailing_newline_is_trimmed() {
    let line = "[2020/04/17 11:39:21] mod=mtu|cli=1.2.3.4/80|srv=5.6.7.8/443|subj=cli|link=DSL|raw_mtu=1492\n";
    let p = parse_line(line).unwrap();
    match p.module {
        P0fModule::Mtu { link, raw_mtu } => {
            assert_eq!(link, "DSL");
            assert_eq!(raw_mtu, 1492);
        }
        _ => panic!("wrong module variant"),
    }
}

#[test]
fn uptime_extra_spaces_between_tokens() {
    let line = "[2020/04/17 11:39:20] mod=uptime|cli=1.2.3.4/80|srv=5.6.7.8/443|subj=cli|uptime=1  days  2 hrs 3 min (modulo  7 days) |raw_freq=x";
    let p = parse_line(line).unwrap();
    match p.module {
        P0fModule::Uptime { uptime, .. } => {
            assert_eq!(uptime.duration, 86400 + 2 * 3600 + 3 * 60);
            assert_eq!(uptime.modulo, 7 * 86400);
        }
        _ => panic!("wrong module variant"),
    }
}

#[test]
fn missing_srv_tag_names_the_server_tag() {
    let line = "[2020/04/17 11:39:16] mod=syn|cli=1.2.3.4/80|subj=cli|os=a|dist=1|params=none|raw_sig=x";
    match parse_line(line) {
        Err(Error::Tag { name, remain }) => {
            assert_eq!(name, "srv");
            assert_eq!(remain, "|subj=cli|os=a|dist=1|params=none|raw_sig=x");
        }
        _ => panic!("expected the tag error for srv"),
    }
}

#[test]
fn missing_closing_bracket_is_a_timestamp_error() {
    let line = "[2020/04/17 11:39:16 mod=syn|cli=1.2.3.4/80|srv=5.6.7.8/443|subj=cli";
    match parse_line(line) {
        Err(Error::Timestamp { remain }) => assert_eq!(remain, line),
        _ => panic!("expected the timestamp error"),
    }
}
