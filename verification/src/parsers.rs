//! The line grammar. A line is a bracketed timestamp, whitespace-trimmed
//! remainder, a `mod=` tag, the `|cli=`, `|srv=` and `|subj=` header tags,
//! and a module payload chosen by the module tag. Spec functions state the
//! grammar over character sequences; the executable parser is proved to
//! return exactly what they describe.

use vstd::prelude::*;

use crate::addr::check_ip;
use crate::addr::is_valid_ip;
use crate::error::Error;
use crate::error::ErrorV;
use crate::structs::Endpoint;
use crate::structs::EndpointV;
use crate::structs::ModuleV;
use crate::structs::P0f;
use crate::structs::P0fModule;
use crate::structs::RecordV;
use crate::structs::Subject;
use crate::text::all_digits;
use crate::text::dec_val;
use crate::text::find0;
use crate::text::find_char;
use crate::text::lemma_find0;
use crate::text::parse_u64_digits;
use crate::text::str_eq;
use crate::text::trim;
use crate::text::trim_str;
use crate::time::decode_datetime;
use crate::time::decode_uptime;
use crate::time::spec_decode_datetime;
use crate::time::spec_decode_uptime;
use crate::structs::DateTime;

verus! {

// ---------------------------------------------------------------------------
// the timestamp primitive
// ---------------------------------------------------------------------------

/// Consumes `[`, the content up to the first `]`, and `]`, and decodes the
/// content as a timestamp.
pub open spec fn spec_parse_date(s: Seq<char>) -> Option<(DateTime, Seq<char>)> {
    if s.len() == 0 || s[0] != '[' {
        None
    } else {
        let t = s.skip(1);
        let j = find0(t, ']');
        if j < 0 {
            None
        } else {
            match spec_decode_datetime(t.take(j)) {
                Some(dt) => Some((dt, t.skip(j + 1))),
                None => None,
            }
        }
    }
}

fn parse_date(s: &str) -> (r: Option<(DateTime, &str)>)
    ensures
        match r {
            Some((dt, rest)) => spec_parse_date(s@) == Some((dt, rest@)),
            None => spec_parse_date(s@) is None,
        },
{
    let n = s.unicode_len();
    if n == 0 || s.get_char(0) != '[' {
        return None;
    }
    let t = s.substring_char(1, n);
    match find_char(t, ']') {
        None => None,
        Some(j) => {
            proof {
                lemma_find0(t@, ']');
                assert(t@.subrange(0, j as int) =~= t@.take(j as int));
                assert(t@.subrange(j + 1, t@.len() as int) =~= t@.skip(j + 1));
            }
            let m = t.unicode_len();
            match decode_datetime(t.substring_char(0, j)) {
                Some(dt) => Some((dt, t.substring_char(j + 1, m))),
                None => None,
            }
        },
    }
}

// ---------------------------------------------------------------------------
// the tag primitives
// ---------------------------------------------------------------------------

/// `s` begins with the literal `|<name>=`.
pub open spec fn tag_prefix_ok(s: Seq<char>, name: Seq<char>) -> bool {
    &&& s.len() >= name.len() + 2
    &&& s[0] == '|'
    &&& s.subrange(1, 1 + name.len() as int) == name
    &&& s[1 + name.len() as int] == '='
}

/// Consumes `|<name>=` and a non-empty value running to the next `|` or to
/// the end; what remains starts at that `|`.
pub open spec fn spec_tag(s: Seq<char>, name: Seq<char>) -> Option<(Seq<char>, Seq<char>)> {
    if !tag_prefix_ok(s, name) {
        None
    } else {
        let body = s.skip(name.len() + 2 as int);
        if body.len() == 0 {
            None
        } else {
            let i = find0(body, '|');
            if i == 0 {
                None
            } else if i < 0 {
                Some((body, Seq::empty()))
            } else {
                Some((body.take(i), body.skip(i)))
            }
        }
    }
}

/// Consumes `|<name>=` and a non-empty value running to the end of the
/// input, `|` included; nothing remains.
pub open spec fn spec_tag_last(s: Seq<char>, name: Seq<char>) -> Option<Seq<char>> {
    if tag_prefix_ok(s, name) && s.len() > name.len() + 2 {
        Some(s.skip(name.len() + 2 as int))
    } else {
        None
    }
}

fn check_tag_prefix(s: &str, name: &str) -> (r: bool)
    ensures
        r == tag_prefix_ok(s@, name@),
{
    let n = s.unicode_len();
    let m = name.unicode_len();
    if n < 2 || n - 2 < m {
        return false;
    }
    s.get_char(0) == '|' && str_eq(s.substring_char(1, 1 + m), name) && s.get_char(m + 1) == '='
}

/// The tag primitive: `|<name>=` and a value up to the next `|`.
fn parse_tag<'a>(s: &'a str, name: &str) -> (r: Option<(&'a str, &'a str)>)
    ensures
        match r {
            Some((v, rest)) => spec_tag(s@, name@) == Some((v@, rest@)),
            None => spec_tag(s@, name@) is None,
        },
{
    if !check_tag_prefix(s, name) {
        return None;
    }
    let n = s.unicode_len();
    let m = name.unicode_len();
    let body = s.substring_char(m + 2, n);
    let b = body.unicode_len();
    if b == 0 {
        return None;
    }
    match find_char(body, '|') {
        Some(0) => None,
        Some(i) => {
            proof {
                lemma_find0(body@, '|');
                assert(body@.subrange(0, i as int) =~= body@.take(i as int));
                assert(body@.subrange(i as int, b as int) =~= body@.skip(i as int));
            }
            Some((body.substring_char(0, i), body.substring_char(i, b)))
        },
        None => {
            proof {
                assert(body@.subrange(b as int, b as int) =~= Seq::<char>::empty());
            }
            Some((body, body.substring_char(b, b)))
        },
    }
}

/// The closing tag primitive: `|<name>=` and the whole remaining text.
fn parse_tag_last<'a>(s: &'a str, name: &str) -> (r: Option<&'a str>)
    ensures
        match r {
            Some(v) => spec_tag_last(s@, name@) == Some(v@),
            None => spec_tag_last(s@, name@) is None,
        },
{
    if !check_tag_prefix(s, name) {
        return None;
    }
    let n = s.unicode_len();
    let m = name.unicode_len();
    if n == m + 2 {
        return None;
    }
    Some(s.substring_char(m + 2, n))
}

// ---------------------------------------------------------------------------
// the module tag
// ---------------------------------------------------------------------------

/// Consumes the literal `mod=` and a non-empty value up to the next `|`.
pub open spec fn spec_parse_mod(s: Seq<char>) -> Option<(Seq<char>, Seq<char>)> {
    if s.len() < 4 || s.subrange(0, 4) != "mod="@ {
        None
    } else {
        let body = s.skip(4);
        if body.len() == 0 {
            None
        } else {
            let i = find0(body, '|');
            if i == 0 {
                None
            } else if i < 0 {
                Some((body, Seq::empty()))
            } else {
                Some((body.take(i), body.skip(i)))
            }
        }
    }
}

fn parse_mod(s: &str) -> (r: Option<(&str, &str)>)
    ensures
        match r {
            Some((m, rest)) => spec_parse_mod(s@) == Some((m@, rest@)),
            None => spec_parse_mod(s@) is None,
        },
{
    proof {
        reveal_strlit("mod=");
    }
    let n = s.unicode_len();
    if n < 4 || !str_eq(s.substring_char(0, 4), "mod=") {
        return None;
    }
    let body = s.substring_char(4, n);
    let b = body.unicode_len();
    if b == 0 {
        return None;
    }
    match find_char(body, '|') {
        Some(0) => None,
        Some(i) => {
            proof {
                lemma_find0(body@, '|');
                assert(body@.subrange(0, i as int) =~= body@.take(i as int));
                assert(body@.subrange(i as int, b as int) =~= body@.skip(i as int));
            }
            Some((body.substring_char(0, i), body.substring_char(i, b)))
        },
        None => {
            proof {
                assert(body@.subrange(b as int, b as int) =~= Seq::<char>::empty());
            }
            Some((body, body.substring_char(b, b)))
        },
    }
}

// ---------------------------------------------------------------------------
// the endpoint primitive
// ---------------------------------------------------------------------------

/// Splits on the first `/`; the left part must be a well-formed address,
/// the right part all digits reading to a port in `[0, 65535]`.
pub open spec fn spec_parse_endpoint(e: Seq<char>) -> Option<EndpointV> {
    let i = find0(e, '/');
    if i < 0 {
        None
    } else {
        let a = e.take(i);
        let p = e.skip(i + 1);
        if is_valid_ip(a) && p.len() > 0 && all_digits(p) && dec_val(p) <= 65535 {
            Some(EndpointV { addr: a, port: dec_val(p) as u16 })
        } else {
            None
        }
    }
}

/// The endpoint primitive: `<addr>/<port>`.
pub fn parse_endpoint(e: &str) -> (r: Option<Endpoint>)
    ensures
        match r {
            Some(ep) => spec_parse_endpoint(e@) == Some(ep@) && ep.wf(),
            None => spec_parse_endpoint(e@) is None,
        },
{
    let n = e.unicode_len();
    match find_char(e, '/') {
        None => None,
        Some(i) => {
            proof {
                lemma_find0(e@, '/');
                assert(e@.subrange(0, i as int) =~= e@.take(i as int));
                assert(e@.subrange(i + 1, n as int) =~= e@.skip(i + 1));
            }
            let a = e.substring_char(0, i);
            let p = e.substring_char(i + 1, n);
            if !check_ip(a) {
                return None;
            }
            match parse_u64_digits(p) {
                Some(v) if v <= 65535 => Some(
                    Endpoint { addr: String::from_str(a), port: v as u16 },
                ),
                _ => None,
            }
        },
    }
}

// ---------------------------------------------------------------------------
// the header tags
// ---------------------------------------------------------------------------

/// The `|cli=` tag with an endpoint value.
pub open spec fn spec_parse_cli(s: Seq<char>) -> Result<(EndpointV, Seq<char>), ErrorV> {
    match spec_tag(s, "cli"@) {
        None => Err(ErrorV::Tag { name: "cli"@, remain: s }),
        Some((v, rest)) => match spec_parse_endpoint(v) {
            None => Err(ErrorV::Endpoint { remain: v }),
            Some(ep) => Ok((ep, rest)),
        },
    }
}

fn parse_cli<'a>(s: &'a str) -> (r: Result<(Endpoint, &'a str), Error>)
    ensures
        match r {
            Ok((ep, rest)) => spec_parse_cli(s@) == Ok::<_, ErrorV>((ep@, rest@)) && ep.wf(),
            Err(e) => spec_parse_cli(s@) == Err::<(EndpointV, Seq<char>), _>(e@),
        },
{
    match parse_tag(s, "cli") {
        None => Err(
            Error::Tag { name: String::from_str("cli"), remain: String::from_str(s) },
        ),
        Some((v, rest)) => match parse_endpoint(v) {
            None => Err(Error::Endpoint { remain: String::from_str(v) }),
            Some(ep) => Ok((ep, rest)),
        },
    }
}

/// The `|srv=` tag with an endpoint value.
pub open spec fn spec_parse_srv(s: Seq<char>) -> Result<(EndpointV, Seq<char>), ErrorV> {
    match spec_tag(s, "srv"@) {
        None => Err(ErrorV::Tag { name: "srv"@, remain: s }),
        Some((v, rest)) => match spec_parse_endpoint(v) {
            None => Err(ErrorV::Endpoint { remain: v }),
            Some(ep) => Ok((ep, rest)),
        },
    }
}

fn parse_srv<'a>(s: &'a str) -> (r: Result<(Endpoint, &'a str), Error>)
    ensures
        match r {
            Ok((ep, rest)) => spec_parse_srv(s@) == Ok::<_, ErrorV>((ep@, rest@)) && ep.wf(),
            Err(e) => spec_parse_srv(s@) == Err::<(EndpointV, Seq<char>), _>(e@),
        },
{
    match parse_tag(s, "srv") {
        None => Err(
            Error::Tag { name: String::from_str("srv"), remain: String::from_str(s) },
        ),
        Some((v, rest)) => match parse_endpoint(v) {
            None => Err(Error::Endpoint { remain: String::from_str(v) }),
            Some(ep) => Ok((ep, rest)),
        },
    }
}

/// The `|subj=` tag: its value must be the literal `cli` or `srv`.
pub open spec fn spec_parse_subj(s: Seq<char>) -> Result<(Subject, Seq<char>), ErrorV> {
    match spec_tag(s, "subj"@) {
        None => Err(ErrorV::Tag { name: "subj"@, remain: s }),
        Some((v, rest)) => if v == "cli"@ {
            Ok((Subject::Client, rest))
        } else if v == "srv"@ {
            Ok((Subject::Server, rest))
        } else {
            Err(ErrorV::Subject { remain: s.skip(6) })
        },
    }
}

fn parse_subj<'a>(s: &'a str) -> (r: Result<(Subject, &'a str), Error>)
    ensures
        match r {
            Ok((sub, rest)) => spec_parse_subj(s@) == Ok::<_, ErrorV>((sub, rest@)),
            Err(e) => spec_parse_subj(s@) == Err::<(Subject, Seq<char>), _>(e@),
        },
{
    match parse_tag(s, "subj") {
        None => Err(
            Error::Tag { name: String::from_str("subj"), remain: String::from_str(s) },
        ),
        Some((v, rest)) => {
            if str_eq(v, "cli") {
                Ok((Subject::Client, rest))
            } else if str_eq(v, "srv") {
                Ok((Subject::Server, rest))
            } else {
                let n = s.unicode_len();
                proof {
                    reveal_strlit("subj");
                    assert(s@.subrange(6, n as int) =~= s@.skip(6));
                }
                Err(Error::Subject { remain: String::from_str(s.substring_char(6, n)) })
            }
        },
    }
}

// ---------------------------------------------------------------------------
// the per-module field sets
// ---------------------------------------------------------------------------

/// Two required tags, the second closing the line.
pub open spec fn spec_two_tags(r: Seq<char>, a: Seq<char>, b: Seq<char>) -> Result<
    (Seq<char>, Seq<char>),
    ErrorV,
> {
    match spec_tag(r, a) {
        None => Err(ErrorV::Tag { name: a, remain: r }),
        Some((v1, r1)) => match spec_tag_last(r1, b) {
            None => Err(ErrorV::Tag { name: b, remain: r1 }),
            Some(v2) => Ok((v1, v2)),
        },
    }
}

/// Four required tags, the fourth closing the line.
pub open spec fn spec_four_tags(
    r: Seq<char>,
    a: Seq<char>,
    b: Seq<char>,
    c: Seq<char>,
    d: Seq<char>,
) -> Result<(Seq<char>, Seq<char>, Seq<char>, Seq<char>), ErrorV> {
    match spec_tag(r, a) {
        None => Err(ErrorV::Tag { name: a, remain: r }),
        Some((v1, r1)) => match spec_tag(r1, b) {
            None => Err(ErrorV::Tag { name: b, remain: r1 }),
            Some((v2, r2)) => match spec_tag(r2, c) {
                None => Err(ErrorV::Tag { name: c, remain: r2 }),
                Some((v3, r3)) => match spec_tag_last(r3, d) {
                    None => Err(ErrorV::Tag { name: d, remain: r3 }),
                    Some(v4) => Ok((v1, v2, v3, v4)),
                },
            },
        },
    }
}

fn two_tags<'a>(r: &'a str, a: &str, b: &str) -> (res: Result<(&'a str, &'a str), Error>)
    ensures
        match res {
            Ok((v1, v2)) => spec_two_tags(r@, a@, b@) == Ok::<_, ErrorV>((v1@, v2@)),
            Err(e) => spec_two_tags(r@, a@, b@) == Err::<(Seq<char>, Seq<char>), _>(e@),
        },
{
    match parse_tag(r, a) {
        None => Err(Error::Tag { name: String::from_str(a), remain: String::from_str(r) }),
        Some((v1, r1)) => match parse_tag_last(r1, b) {
            None => Err(Error::Tag { name: String::from_str(b), remain: String::from_str(r1) }),
            Some(v2) => Ok((v1, v2)),
        },
    }
}

fn four_tags<'a>(r: &'a str, a: &str, b: &str, c: &str, d: &str) -> (res: Result<
    (&'a str, &'a str, &'a str, &'a str),
    Error,
>)
    ensures
        match res {
            Ok((v1, v2, v3, v4)) => spec_four_tags(r@, a@, b@, c@, d@) == Ok::<_, ErrorV>(
                (v1@, v2@, v3@, v4@),
            ),
            Err(e) => spec_four_tags(r@, a@, b@, c@, d@) == Err::<
                (Seq<char>, Seq<char>, Seq<char>, Seq<char>),
                _,
            >(e@),
        },
{
    match parse_tag(r, a) {
        None => {
            return Err(Error::Tag { name: String::from_str(a), remain: String::from_str(r) });
        },
        Some((v1, r1)) => match parse_tag(r1, b) {
            None => {
                return Err(
                    Error::Tag { name: String::from_str(b), remain: String::from_str(r1) },
                );
            },
            Some((v2, r2)) => match parse_tag(r2, c) {
                None => {
                    return Err(
                        Error::Tag { name: String::from_str(c), remain: String::from_str(r2) },
                    );
                },
                Some((v3, r3)) => match parse_tag_last(r3, d) {
                    None => {
                        return Err(
                            Error::Tag {
                                name: String::from_str(d),
                                remain: String::from_str(r3),
                            },
                        );
                    },
                    Some(v4) => Ok((v1, v2, v3, v4)),
                },
            },
        },
    }
}

/// `uptime` module: the `uptime` value decoded, then `raw_freq` to the end.
pub open spec fn spec_p0f_uptime(r: Seq<char>) -> Result<ModuleV, ErrorV> {
    match spec_tag(r, "uptime"@) {
        None => Err(ErrorV::Tag { name: "uptime"@, remain: r }),
        Some((u, r1)) => match spec_decode_uptime(u) {
            Err(e) => Err(e),
            Ok(up) => match spec_tag_last(r1, "raw_freq"@) {
                None => Err(ErrorV::Tag { name: "raw_freq"@, remain: r1 }),
                Some(f) => Ok(ModuleV::Uptime { uptime: up, raw_freq: f }),
            },
        },
    }
}

fn parse_p0f_uptime(r: &str) -> (res: Result<P0fModule, Error>)
    ensures
        match res {
            Ok(m) => spec_p0f_uptime(r@) == Ok::<ModuleV, ErrorV>(m@),
            Err(e) => spec_p0f_uptime(r@) == Err::<ModuleV, ErrorV>(e@),
        },
{
    match parse_tag(r, "uptime") {
        None => Err(Error::Tag { name: String::from_str("uptime"), remain: String::from_str(r) }),
        Some((u, r1)) => match decode_uptime(u) {
            Err(e) => Err(e),
            Ok(up) => match parse_tag_last(r1, "raw_freq") {
                None => Err(
                    Error::Tag {
                        name: String::from_str("raw_freq"),
                        remain: String::from_str(r1),
                    },
                ),
                Some(f) => Ok(P0fModule::Uptime { uptime: up, raw_freq: String::from_str(f) }),
            },
        },
    }
}

/// `mtu` module: `link`, then `raw_mtu` as a number to the end.
pub open spec fn spec_p0f_mtu(r: Seq<char>) -> Result<ModuleV, ErrorV> {
    match spec_two_tags(r, "link"@, "raw_mtu"@) {
        Err(e) => Err(e),
        Ok((l, v)) => if all_digits(v) && dec_val(v) <= usize::MAX {
            Ok(ModuleV::Mtu { link: l, raw_mtu: dec_val(v) as usize })
        } else {
            Err(ErrorV::Integer { remain: v })
        },
    }
}

fn parse_p0f_mtu(r: &str) -> (res: Result<P0fModule, Error>)
    ensures
        match res {
            Ok(m) => spec_p0f_mtu(r@) == Ok::<ModuleV, ErrorV>(m@),
            Err(e) => spec_p0f_mtu(r@) == Err::<ModuleV, ErrorV>(e@),
        },
{
    match two_tags(r, "link", "raw_mtu") {
        Err(e) => Err(e),
        Ok((l, v)) => match parse_u64_digits(v) {
            Some(x) if x <= usize::MAX as u64 => Ok(
                P0fModule::Mtu { link: String::from_str(l), raw_mtu: x as usize },
            ),
            _ => Err(Error::Integer { remain: String::from_str(v) }),
        },
    }
}

/// `syn` module: `os`, `dist`, `params`, `raw_sig`.
pub open spec fn spec_p0f_syn(r: Seq<char>) -> Result<ModuleV, ErrorV> {
    match spec_four_tags(r, "os"@, "dist"@, "params"@, "raw_sig"@) {
        Err(e) => Err(e),
        Ok((os, dist, params, raw_sig)) => Ok(ModuleV::Syn { os, dist, params, raw_sig }),
    }
}

fn parse_p0f_syn(r: &str) -> (res: Result<P0fModule, Error>)
    ensures
        match res {
            Ok(m) => spec_p0f_syn(r@) == Ok::<ModuleV, ErrorV>(m@),
            Err(e) => spec_p0f_syn(r@) == Err::<ModuleV, ErrorV>(e@),
        },
{
    match four_tags(r, "os", "dist", "params", "raw_sig") {
        Err(e) => Err(e),
        Ok((os, dist, params, raw_sig)) => Ok(
            P0fModule::Syn {
                os: String::from_str(os),
                dist: String::from_str(dist),
                params: String::from_str(params),
                raw_sig: String::from_str(raw_sig),
            },
        ),
    }
}

/// `syn+ack` module: the same four tags as `syn`.
pub open spec fn spec_p0f_synack(r: Seq<char>) -> Result<ModuleV, ErrorV> {
    match spec_four_tags(r, "os"@, "dist"@, "params"@, "raw_sig"@) {
        Err(e) => Err(e),
        Ok((os, dist, params, raw_sig)) => Ok(ModuleV::SynAck { os, dist, params, raw_sig }),
    }
}

fn parse_p0f_synack(r: &str) -> (res: Result<P0fModule, Error>)
    ensures
        match res {
            Ok(m) => spec_p0f_synack(r@) == Ok::<ModuleV, ErrorV>(m@),
            Err(e) => spec_p0f_synack(r@) == Err::<ModuleV, ErrorV>(e@),
        },
{
    match four_tags(r, "os", "dist", "params", "raw_sig") {
        Err(e) => Err(e),
        Ok((os, dist, params, raw_sig)) => Ok(
            P0fModule::SynAck {
                os: String::from_str(os),
                dist: String::from_str(dist),
                params: String::from_str(params),
                raw_sig: String::from_str(raw_sig),
            },
        ),
    }
}

/// `host change` module: `reason`, then `raw_hits` to the end.
pub open spec fn spec_p0f_host_change(r: Seq<char>) -> Result<ModuleV, ErrorV> {
    match spec_two_tags(r, "reason"@, "raw_hits"@) {
        Err(e) => Err(e),
        Ok((reason, raw_hits)) => Ok(ModuleV::HostChange { reason, raw_hits }),
    }
}

fn parse_p0f_host_change(r: &str) -> (res: Result<P0fModule, Error>)
    ensures
        match res {
            Ok(m) => spec_p0f_host_change(r@) == Ok::<ModuleV, ErrorV>(m@),
            Err(e) => spec_p0f_host_change(r@) == Err::<ModuleV, ErrorV>(e@),
        },
{
    match two_tags(r, "reason", "raw_hits") {
        Err(e) => Err(e),
        Ok((reason, raw_hits)) => Ok(
            P0fModule::HostChange {
                reason: String::from_str(reason),
                raw_hits: String::from_str(raw_hits),
            },
        ),
    }
}

/// `http request` module: `app`, `lang`, `params`, `raw_sig`.
pub open spec fn spec_p0f_http_request(r: Seq<char>) -> Result<ModuleV, ErrorV> {
    match spec_four_tags(r, "app"@, "lang"@, "params"@, "raw_sig"@) {
        Err(e) => Err(e),
        Ok((app, lang, params, raw_sig)) => Ok(ModuleV::HttpRequest { app, lang, params, raw_sig }),
    }
}

fn parse_p0f_http_request(r: &str) -> (res: Result<P0fModule, Error>)
    ensures
        match res {
            Ok(m) => spec_p0f_http_request(r@) == Ok::<ModuleV, ErrorV>(m@),
            Err(e) => spec_p0f_http_request(r@) == Err::<ModuleV, ErrorV>(e@),
        },
{
    match four_tags(r, "app", "lang", "params", "raw_sig") {
        Err(e) => Err(e),
        Ok((app, lang, params, raw_sig)) => Ok(
            P0fModule::HttpRequest {
                app: String::from_str(app),
                lang: String::from_str(lang),
                params: String::from_str(params),
                raw_sig: String::from_str(raw_sig),
            },
        ),
    }
}

/// `http response` module: the same four tags as `http request`.
pub open spec fn spec_p0f_http_response(r: Seq<char>) -> Result<ModuleV, ErrorV> {
    match spec_four_tags(r, "app"@, "lang"@, "params"@, "raw_sig"@) {
        Err(e) => Err(e),
        Ok((app, lang, params, raw_sig)) => Ok(
            ModuleV::HttpResponse { app, lang, params, raw_sig },
        ),
    }
}

fn parse_p0f_http_response(r: &str) -> (res: Result<P0fModule, Error>)
    ensures
        match res {
            Ok(m) => spec_p0f_http_response(r@) == Ok::<ModuleV, ErrorV>(m@),
            Err(e) => spec_p0f_http_response(r@) == Err::<ModuleV, ErrorV>(e@),
        },
{
    match four_tags(r, "app", "lang", "params", "raw_sig") {
        Err(e) => Err(e),
        Ok((app, lang, params, raw_sig)) => Ok(
            P0fModule::HttpResponse {
                app: String::from_str(app),
                lang: String::from_str(lang),
                params: String::from_str(params),
                raw_sig: String::from_str(raw_sig),
            },
        ),
    }
}

// ---------------------------------------------------------------------------
// the dispatcher
// ---------------------------------------------------------------------------

/// The module tag is one of the seven known literals.
pub open spec fn known_module(m: Seq<char>) -> bool {
    ||| m == "uptime"@
    ||| m == "mtu"@
    ||| m == "syn"@
    ||| m == "syn+ack"@
    ||| m == "host change"@
    ||| m == "http request"@
    ||| m == "http response"@
}

/// Routes the text after the header by the module tag; an unknown tag
/// keeps the tag and the untouched remainder.
pub open spec fn spec_dispatch(m: Seq<char>, r: Seq<char>) -> Result<ModuleV, ErrorV> {
    if m == "uptime"@ {
        spec_p0f_uptime(r)
    } else if m == "mtu"@ {
        spec_p0f_mtu(r)
    } else if m == "syn"@ {
        spec_p0f_syn(r)
    } else if m == "syn+ack"@ {
        spec_p0f_synack(r)
    } else if m == "host change"@ {
        spec_p0f_host_change(r)
    } else if m == "http request"@ {
        spec_p0f_http_request(r)
    } else if m == "http response"@ {
        spec_p0f_http_response(r)
    } else {
        Ok(ModuleV::Unparsed { module: m, remain: r })
    }
}

fn parse_dispatch(m: &str, r: &str) -> (res: Result<P0fModule, Error>)
    ensures
        match res {
            Ok(module) => spec_dispatch(m@, r@) == Ok::<ModuleV, ErrorV>(module@),
            Err(e) => spec_dispatch(m@, r@) == Err::<ModuleV, ErrorV>(e@),
        },
{
    if str_eq(m, "uptime") {
        parse_p0f_uptime(r)
    } else if str_eq(m, "mtu") {
        parse_p0f_mtu(r)
    } else if str_eq(m, "syn") {
        parse_p0f_syn(r)
    } else if str_eq(m, "syn+ack") {
        parse_p0f_synack(r)
    } else if str_eq(m, "host change") {
        parse_p0f_host_change(r)
    } else if str_eq(m, "http request") {
        parse_p0f_http_request(r)
    } else if str_eq(m, "http response") {
        parse_p0f_http_response(r)
    } else {
        Ok(P0fModule::Unparsed { module: String::from_str(m), remain: String::from_str(r) })
    }
}

// ---------------------------------------------------------------------------
// the line parser
// ---------------------------------------------------------------------------

/// The whole line grammar: timestamp, trim, module tag, client endpoint,
/// server endpoint, subject, module payload. Strictly sequential; the first
/// failure aborts the line.
pub open spec fn spec_parse_line(s: Seq<char>) -> Result<RecordV, ErrorV> {
    match spec_parse_date(s) {
        None => Err(ErrorV::Timestamp { remain: s }),
        Some((date, after)) => {
            let t = trim(after);
            match spec_parse_mod(t) {
                None => Err(ErrorV::ModuleTag { remain: t }),
                Some((m, r0)) => match spec_parse_cli(r0) {
                    Err(e) => Err(e),
                    Ok((client, r1)) => match spec_parse_srv(r1) {
                        Err(e) => Err(e),
                        Ok((server, r2)) => match spec_parse_subj(r2) {
                            Err(e) => Err(e),
                            Ok((subject, r3)) => match spec_dispatch(m, r3) {
                                Err(e) => Err(e),
                                Ok(module) => Ok(
                                    RecordV { date, module, client, server, subject },
                                ),
                            },
                        },
                    },
                },
            }
        },
    }
}

/// Parses one log line into a typed record, or reports the first failure.
/// The result is exactly what [`spec_parse_line`] states for the line's
/// characters; in a returned record both endpoints are well-formed.
pub fn parse_line(line: &str) -> (r: Result<P0f, Error>)
    ensures
        match r {
            Ok(p) => spec_parse_line(line@) == Ok::<RecordV, ErrorV>(p@) && p.wf(),
            Err(e) => spec_parse_line(line@) == Err::<RecordV, ErrorV>(e@),
        },
{
    let (date, after) = match parse_date(line) {
        Some(p) => p,
        None => {
            return Err(Error::Timestamp { remain: String::from_str(line) });
        },
    };
    let t = trim_str(after);
    let (m, r0) = match parse_mod(t) {
        Some(p) => p,
        None => {
            return Err(Error::ModuleTag { remain: String::from_str(t) });
        },
    };
    let (client, r1) = match parse_cli(r0) {
        Ok(p) => p,
        Err(e) => {
            return Err(e);
        },
    };
    let (server, r2) = match parse_srv(r1) {
        Ok(p) => p,
        Err(e) => {
            return Err(e);
        },
    };
    let (subject, r3) = match parse_subj(r2) {
        Ok(p) => p,
        Err(e) => {
            return Err(e);
        },
    };
    let module = match parse_dispatch(m, r3) {
        Ok(mm) => mm,
        Err(e) => {
            return Err(e);
        },
    };
    Ok(P0f { date, module, client, server, subject })
}

} // verus!
