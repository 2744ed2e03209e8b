//! The laws of the grammar, stated and proved over the spec functions that
//! the parser's contracts use: lines built from well-formed components
//! parse back to exactly those components; an unknown module tag yields the
//! Unparsed payload; a timestamp without its closing bracket fails with the
//! timestamp error; a parsed endpoint serializes back to its source text.

use vstd::prelude::*;

use crate::addr::find_dc;
use crate::addr::group_slots;
use crate::addr::ipv4_parts;
use crate::addr::is_valid_ip;
use crate::addr::is_valid_ipv4;
use crate::addr::lemma_find_dc;
use crate::addr::tail_slots;
use crate::addr::valid_h16;
use crate::error::ErrorV;
use crate::structs::DateTime;
use crate::structs::EndpointV;
use crate::structs::ModuleV;
use crate::structs::RecordV;
use crate::structs::Subject;
use crate::structs::Uptime;
use crate::text::all_digits;
use crate::text::dec_rep;
use crate::text::dec_val;
use crate::text::digit_run_end;
use crate::text::find0;
use crate::text::hspace_run_end;
use crate::text::is_digit;
use crate::text::is_hex_digit;
use crate::text::is_space;
use crate::text::lemma_dec_val_nonneg;
use crate::text::lemma_dec_val_rep;
use crate::text::lemma_find0;
use crate::text::trim;
use crate::text::trim_start;
use crate::text::trim_end;
use crate::time::spec_decode_datetime;
use crate::time::spec_decode_uptime;
use crate::time::datetime_shape;
use crate::parsers::known_module;
use crate::parsers::spec_dispatch;
use crate::parsers::spec_four_tags;
use crate::parsers::spec_parse_date;
use crate::parsers::spec_parse_endpoint;
use crate::parsers::spec_parse_line;
use crate::parsers::spec_parse_mod;
use crate::parsers::spec_parse_cli;
use crate::parsers::spec_parse_srv;
use crate::parsers::spec_parse_subj;
use crate::parsers::spec_tag;
use crate::parsers::spec_tag_last;
use crate::parsers::spec_two_tags;
use crate::parsers::tag_prefix_ok;

verus! {

// ---------------------------------------------------------------------------
// finding a delimiter in built-up text
// ---------------------------------------------------------------------------

/// In `x + y`, when `x` avoids `c`, the first `c` is the first `c` of `y`.
pub proof fn lemma_find0_append(x: Seq<char>, y: Seq<char>, c: char)
    requires
        forall|j: int| 0 <= j < x.len() ==> x[j] != c,
    ensures
        find0(x + y, c) == if find0(y, c) < 0 {
            -1
        } else {
            x.len() + find0(y, c)
        },
    decreases x.len(),
{
    if x.len() == 0 {
        assert(x + y =~= y);
    } else {
        let s = x + y;
        assert(s[0] == x[0]);
        assert(s.len() > 0 && s[0] != c);
        assert(s.skip(1) =~= x.skip(1) + y);
        assert forall|j: int| 0 <= j < x.skip(1).len() implies x.skip(1)[j] != c by {
            assert(x.skip(1)[j] == x[j + 1]);
        }
        lemma_find0_append(x.skip(1), y, c);
    }
}

/// A non-empty value before a `|`-led (or empty) remainder: the first `|`
/// of the whole is the start of the remainder.
proof fn lemma_find0_value(v: Seq<char>, rest: Seq<char>)
    requires
        forall|j: int| 0 <= j < v.len() ==> v[j] != '|',
        rest.len() == 0 || rest[0] == '|',
    ensures
        find0(v + rest, '|') == if rest.len() == 0 {
            -1
        } else {
            v.len() as int
        },
{
    lemma_find0_append(v, rest, '|');
}

// ---------------------------------------------------------------------------
// rendering one tag
// ---------------------------------------------------------------------------

/// The literal text `|<name>=` that introduces a tag.
pub open spec fn tag_pre(name: Seq<char>) -> Seq<char> {
    seq!['|'] + name + seq!['=']
}

proof fn lemma_tag_prefix(name: Seq<char>, tail: Seq<char>)
    ensures
        tag_prefix_ok(tag_pre(name) + tail, name),
        (tag_pre(name) + tail).skip(name.len() + 2 as int) =~= tail,
{
    let s = tag_pre(name) + tail;
    assert(s[0] == '|');
    assert(s.subrange(1, 1 + name.len() as int) =~= name);
    assert(s[1 + name.len() as int] == '=');
    assert(s.skip(name.len() + 2 as int) =~= tail);
}

/// A tag renders back: `|<name>=` then a non-empty `|`-free value, then a
/// remainder that is empty or starts with `|`, parses to exactly that value
/// and remainder.
pub proof fn lemma_tag_render(name: Seq<char>, v: Seq<char>, rest: Seq<char>)
    requires
        v.len() >= 1,
        forall|j: int| 0 <= j < v.len() ==> v[j] != '|',
        rest.len() == 0 || rest[0] == '|',
    ensures
        spec_tag(tag_pre(name) + (v + rest), name) == Some((v, rest)),
{
    let s = tag_pre(name) + (v + rest);
    lemma_tag_prefix(name, v + rest);
    let body = s.skip(name.len() + 2 as int);
    assert(body =~= v + rest);
    lemma_find0_value(v, rest);
    if rest.len() == 0 {
        assert(body =~= v);
        assert(find0(body, '|') < 0);
        assert(spec_tag(s, name) == Some((body, Seq::<char>::empty())));
        assert(Seq::<char>::empty() =~= rest);
    } else {
        let i = v.len() as int;
        assert(find0(body, '|') == i);
        assert(body.take(i) =~= v);
        assert(body.skip(i) =~= rest);
    }
}

/// A closing tag renders back: `|<name>=` then a non-empty value running
/// to the end parses to exactly that value.
pub proof fn lemma_tag_last_render(name: Seq<char>, v: Seq<char>)
    requires
        v.len() >= 1,
    ensures
        spec_tag_last(tag_pre(name) + v, name) == Some(v),
{
    lemma_tag_prefix(name, v);
    let s = tag_pre(name) + v;
    assert(s.skip(name.len() + 2 as int) =~= v);
}

/// The module tag renders back: `mod=` then a non-empty `|`-free value,
/// then a remainder that is empty or starts with `|`.
pub proof fn lemma_mod_render(m: Seq<char>, rest: Seq<char>)
    requires
        m.len() >= 1,
        forall|j: int| 0 <= j < m.len() ==> m[j] != '|',
        rest.len() == 0 || rest[0] == '|',
    ensures
        spec_parse_mod("mod="@ + (m + rest)) == Some((m, rest)),
{
    reveal_strlit("mod=");
    let s = "mod="@ + (m + rest);
    assert(s.subrange(0, 4) =~= "mod="@);
    let body = s.skip(4);
    assert(body =~= m + rest);
    lemma_find0_value(m, rest);
    if rest.len() == 0 {
        assert(body =~= m);
        assert(find0(body, '|') < 0);
        assert(spec_parse_mod(s) == Some((body, Seq::<char>::empty())));
        assert(Seq::<char>::empty() =~= rest);
    } else {
        let i = m.len() as int;
        assert(find0(body, '|') == i);
        assert(body.take(i) =~= m);
        assert(body.skip(i) =~= rest);
    }
}

// ---------------------------------------------------------------------------
// what characters an address can hold
// ---------------------------------------------------------------------------

proof fn lemma_ipv4_chars(s: Seq<char>, parts: int)
    requires
        ipv4_parts(s, parts),
        1 <= parts,
    ensures
        forall|j: int| 0 <= j < s.len() ==> is_digit(#[trigger] s[j]) || s[j] == '.',
    decreases parts,
{
    if parts == 1 {
    } else {
        let i = find0(s, '.');
        lemma_find0(s, '.');
        lemma_ipv4_chars(s.skip(i + 1), parts - 1);
        assert forall|j: int| 0 <= j < s.len() implies is_digit(#[trigger] s[j]) || s[j] == '.' by {
            if j < i {
                assert(s.take(i)[j] == s[j]);
                assert(is_digit(s.take(i)[j]));
            } else if j > i {
                assert(s.skip(i + 1)[j - i - 1] == s[j]);
            }
        }
    }
}

proof fn lemma_group_chars(s: Seq<char>)
    requires
        group_slots(s) is Some,
    ensures
        forall|j: int| 0 <= j < s.len() ==> is_hex_digit(#[trigger] s[j]) || s[j] == ':',
    decreases s.len(),
{
    let i = find0(s, ':');
    lemma_find0(s, ':');
    if 0 <= i < s.len() {
        lemma_group_chars(s.skip(i + 1));
        assert forall|j: int| 0 <= j < s.len() implies is_hex_digit(#[trigger] s[j]) || s[j]
            == ':' by {
            if j < i {
                assert(s.take(i)[j] == s[j]);
                assert(is_hex_digit(s.take(i)[j]));
            } else if j > i {
                assert(s.skip(i + 1)[j - i - 1] == s[j]);
            }
        }
    }
}

proof fn lemma_tail_chars(s: Seq<char>)
    requires
        tail_slots(s) is Some,
    ensures
        forall|j: int| 0 <= j < s.len() ==> is_hex_digit(#[trigger] s[j]) || s[j] == ':' || s[j]
            == '.',
    decreases s.len(),
{
    let i = find0(s, ':');
    lemma_find0(s, ':');
    if 0 <= i < s.len() {
        lemma_tail_chars(s.skip(i + 1));
        assert forall|j: int| 0 <= j < s.len() implies is_hex_digit(#[trigger] s[j]) || s[j] == ':'
            || s[j] == '.' by {
            if j < i {
                assert(s.take(i)[j] == s[j]);
                assert(is_hex_digit(s.take(i)[j]));
            } else if j > i {
                assert(s.skip(i + 1)[j - i - 1] == s[j]);
            }
        }
    } else {
        if valid_h16(s) {
        } else {
            lemma_ipv4_chars(s, 4);
        }
    }
}

/// A well-formed address holds only hexadecimal digits, `:` and `.`.
proof fn lemma_ip_chars(s: Seq<char>)
    requires
        is_valid_ip(s),
    ensures
        forall|j: int| 0 <= j < s.len() ==> is_hex_digit(#[trigger] s[j]) || s[j] == ':' || s[j]
            == '.',
{
    if is_valid_ipv4(s) {
        lemma_ipv4_chars(s, 4);
    } else {
        let d = find_dc(s);
        lemma_find_dc(s);
        if d < 0 {
            lemma_tail_chars(s);
        } else {
            let left = s.take(d);
            let right = s.skip(d + 2);
            if left.len() > 0 {
                lemma_group_chars(left);
            }
            if right.len() > 0 {
                lemma_tail_chars(right);
            }
            assert forall|j: int| 0 <= j < s.len() implies is_hex_digit(#[trigger] s[j]) || s[j]
                == ':' || s[j] == '.' by {
                if j < d {
                    assert(left[j] == s[j]);
                    assert(is_hex_digit(left[j]) || left[j] == ':');
                } else if j >= d + 2 {
                    assert(right[j - d - 2] == s[j]);
                    assert(is_hex_digit(right[j - d - 2]) || right[j - d - 2] == ':' || right[j - d
                        - 2] == '.');
                }
            }
        }
    }
}

/// An endpoint's text holds no `|`.
proof fn lemma_endpoint_no_pipe(e: Seq<char>)
    requires
        spec_parse_endpoint(e) is Some,
    ensures
        e.len() >= 1,
        forall|j: int| 0 <= j < e.len() ==> e[j] != '|',
{
    let i = find0(e, '/');
    lemma_find0(e, '/');
    let a = e.take(i);
    let p = e.skip(i + 1);
    lemma_ip_chars(a);
    assert forall|j: int| 0 <= j < e.len() implies e[j] != '|' by {
        if j < i {
            assert(a[j] == e[j]);
            assert(is_hex_digit(a[j]) || a[j] == ':' || a[j] == '.');
        } else if j > i {
            assert(p[j - i - 1] == e[j]);
            assert(is_digit(p[j - i - 1]));
        }
    }
}

// ---------------------------------------------------------------------------
// the endpoint round trip
// ---------------------------------------------------------------------------

/// A parsed endpoint, re-serialized as `<addr>/<port>` with the port in
/// canonical decimal, reproduces the source text character for
/// character, for IPv4 and IPv6 alike — provided the port digits in the
/// source carried no leading zero, since a leading zero is lost in the
/// numeric port.
pub proof fn lemma_endpoint_round_trip(e: Seq<char>, ep: EndpointV)
    requires
        spec_parse_endpoint(e) == Some(ep),
        ({
            let i = find0(e, '/');
            e.len() - i - 1 == 1 || e[i + 1] != '0'
        }),
    ensures
        ep.addr + seq!['/'] + dec_rep(ep.port as int) == e,
{
    let i = find0(e, '/');
    lemma_find0(e, '/');
    let a = e.take(i);
    let p = e.skip(i + 1);
    assert(ep.addr == a);
    lemma_dec_val_nonneg(p);
    assert(ep.port as int == dec_val(p));
    assert(p[0] == e[i + 1]);
    lemma_dec_val_rep(p);
    assert(dec_rep(ep.port as int) =~= p);
    let out = ep.addr + seq!['/'] + dec_rep(ep.port as int);
    assert(out.len() == e.len());
    assert forall|j: int| 0 <= j < e.len() implies out[j] == e[j] by {
        if j < i {
            assert(out[j] == a[j]);
            assert(a[j] == e[j]);
        } else if j == i {
            assert(out[j] == '/');
        } else {
            assert(out[j] == dec_rep(ep.port as int)[j - i - 1]);
            assert(p[j - i - 1] == e[j]);
        }
    }
    assert(out =~= e);
}

// ---------------------------------------------------------------------------
// rendering the header
// ---------------------------------------------------------------------------

/// A timestamp content in the fixed shape holds no `]`.
proof fn lemma_shape_no_bracket(ts: Seq<char>)
    requires
        datetime_shape(ts),
    ensures
        forall|j: int| 0 <= j < ts.len() ==> ts[j] != ']',
{
    assert forall|j: int| 0 <= j < ts.len() implies ts[j] != ']' by {
        if j == 4 || j == 7 {
            assert(ts[j] == '/');
        } else if j == 10 {
            assert(ts[j] == ' ');
        } else if j == 13 || j == 16 {
            assert(ts[j] == ':');
        } else {
            assert(is_digit(ts[j]));
        }
    }
}

/// A bracketed timestamp whose content decodes renders back: the brackets
/// are consumed and the rest of the line follows unchanged.
proof fn lemma_date_render(ts: Seq<char>, dt: DateTime, tail: Seq<char>)
    requires
        spec_decode_datetime(ts) == Some(dt),
    ensures
        spec_parse_date(seq!['['] + ts + seq![']'] + tail) == Some((dt, tail)),
{
    let s = seq!['['] + ts + seq![']'] + tail;
    assert(s[0] == '[');
    let t = s.skip(1);
    assert(t =~= ts + (seq![']'] + tail));
    lemma_shape_no_bracket(ts);
    assert((seq![']'] + tail)[0] == ']');
    assert(find0(seq![']'] + tail, ']') == 0);
    lemma_find0_append(ts, seq![']'] + tail, ']');
    assert(find0(t, ']') == ts.len());
    let j = ts.len() as int;
    assert(t.take(j) =~= ts);
    assert(t.skip(j + 1) =~= tail);
}

/// The token that stands for a subject in the line.
pub open spec fn subject_token(sub: Subject) -> Seq<char> {
    match sub {
        Subject::Client => "cli"@,
        Subject::Server => "srv"@,
    }
}

/// The always-present header rendered around a module tag and payload:
/// bracketed timestamp, one space, `mod=`, the tag, then the `cli`, `srv`
/// and `subj` tags.
pub open spec fn render_header(
    ts: Seq<char>,
    m: Seq<char>,
    cli: Seq<char>,
    srv: Seq<char>,
    subj: Seq<char>,
) -> Seq<char> {
    seq!['['] + ts + seq![']'] + seq![' '] + "mod="@ + m + "|cli="@ + cli + "|srv="@ + srv
        + "|subj="@ + subj
}

/// The three header tags after the module tag parse to their components.
proof fn lemma_header_tags(
    cli: Seq<char>,
    srv: Seq<char>,
    sub: Subject,
    payload: Seq<char>,
    epc: EndpointV,
    eps: EndpointV,
)
    requires
        spec_parse_endpoint(cli) == Some(epc),
        spec_parse_endpoint(srv) == Some(eps),
        payload.len() == 0 || payload[0] == '|',
    ensures
        ({
            let subj = subject_token(sub);
            let rest2 = "|subj="@ + subj + payload;
            let rest1 = "|srv="@ + srv + rest2;
            let rest0 = "|cli="@ + cli + rest1;
            &&& spec_parse_cli(rest0) == Ok::<_, ErrorV>((epc, rest1))
            &&& spec_parse_srv(rest1) == Ok::<_, ErrorV>((eps, rest2))
            &&& spec_parse_subj(rest2) == Ok::<_, ErrorV>((sub, payload))
        }),
{
    reveal_strlit("|cli=");
    reveal_strlit("|srv=");
    reveal_strlit("|subj=");
    reveal_strlit("cli");
    reveal_strlit("srv");
    reveal_strlit("subj");
    let subj = subject_token(sub);
    let rest2 = "|subj="@ + subj + payload;
    let rest1 = "|srv="@ + srv + rest2;
    let rest0 = "|cli="@ + cli + rest1;

    // the client endpoint tag
    lemma_endpoint_no_pipe(cli);
    assert(rest1[0] == '|');
    assert(tag_pre("cli"@) =~= "|cli="@);
    assert(rest0 =~= tag_pre("cli"@) + (cli + rest1));
    lemma_tag_render("cli"@, cli, rest1);
    assert(spec_tag(rest0, "cli"@) == Some((cli, rest1)));

    // the server endpoint tag
    lemma_endpoint_no_pipe(srv);
    assert(rest2[0] == '|');
    assert(tag_pre("srv"@) =~= "|srv="@);
    assert(rest1 =~= tag_pre("srv"@) + (srv + rest2));
    lemma_tag_render("srv"@, srv, rest2);
    assert(spec_tag(rest1, "srv"@) == Some((srv, rest2)));

    // the subject tag
    assert(subj.len() == 3);
    assert forall|j: int| 0 <= j < subj.len() implies subj[j] != '|' by {
        if sub is Client {
            assert(subj =~= "cli"@);
        } else {
            assert(subj =~= "srv"@);
        }
    }
    assert(tag_pre("subj"@) =~= "|subj="@);
    assert(rest2 =~= tag_pre("subj"@) + (subj + payload));
    lemma_tag_render("subj"@, subj, payload);
    assert(spec_tag(rest2, "subj"@) == Some((subj, payload)));
    if sub is Client {
        assert(subj == "cli"@);
        assert(spec_parse_subj(rest2) == Ok::<_, ErrorV>((Subject::Client, payload)));
    } else {
        assert(subj == "srv"@);
        assert(subj != "cli"@) by {
            assert(subj[0] == 's');
            assert("cli"@[0] == 'c');
        }
        assert(spec_parse_subj(rest2) == Ok::<_, ErrorV>((Subject::Server, payload)));
    }
}

/// A line built from a decodable timestamp, a `|`-free module tag, two
/// well-formed endpoints, a subject token and a payload parses through the
/// whole header to exactly those components, and then goes by the module
/// tag alone.
#[verifier::rlimit(100)]
pub proof fn lemma_parse_header(
    ts: Seq<char>,
    m: Seq<char>,
    cli: Seq<char>,
    srv: Seq<char>,
    sub: Subject,
    payload: Seq<char>,
    dt: DateTime,
    epc: EndpointV,
    eps: EndpointV,
)
    requires
        spec_decode_datetime(ts) == Some(dt),
        m.len() >= 1,
        forall|j: int| 0 <= j < m.len() ==> m[j] != '|',
        spec_parse_endpoint(cli) == Some(epc),
        spec_parse_endpoint(srv) == Some(eps),
        payload.len() == 0 || payload[0] == '|',
        payload.len() == 0 || !is_space(payload[payload.len() - 1]),
    ensures
        spec_parse_line(render_header(ts, m, cli, srv, subject_token(sub)) + payload) == (
        match spec_dispatch(m, payload) {
            Ok(module) => Ok::<RecordV, ErrorV>(
                RecordV { date: dt, module, client: epc, server: eps, subject: sub },
            ),
            Err(e) => Err::<RecordV, ErrorV>(e),
        }),
{
    reveal_strlit("mod=");
    reveal_strlit("|cli=");
    reveal_strlit("|srv=");
    reveal_strlit("|subj=");
    reveal_strlit("cli");
    reveal_strlit("srv");
    let subj = subject_token(sub);
    let s = render_header(ts, m, cli, srv, subj) + payload;
    let rest2 = "|subj="@ + subj + payload;
    let rest1 = "|srv="@ + srv + rest2;
    let rest0 = "|cli="@ + cli + rest1;
    let t2 = "mod="@ + m + rest0;
    let tail = seq![' '] + t2;

    // the timestamp stage
    assert(s =~= seq!['['] + ts + seq![']'] + tail);
    lemma_date_render(ts, dt, tail);
    assert(spec_parse_date(s) == Some((dt, tail)));

    // the trim stage: one leading space, no trailing whitespace
    assert(tail[0] == ' ');
    assert(tail[1] == 'm');
    crate::text::lemma_trim_start_at(tail, 1);
    assert(trim_start(tail) =~= t2);
    let last = tail[tail.len() - 1];
    if payload.len() == 0 {
        assert(subj.len() == 3) by {
            if sub is Client {
                assert(subj =~= "cli"@);
            } else {
                assert(subj =~= "srv"@);
            }
        }
        assert(last == subj[subj.len() - 1]);
        assert(!is_space(last)) by {
            if sub is Client {
                assert(subj =~= "cli"@);
            } else {
                assert(subj =~= "srv"@);
            }
        }
    } else {
        assert(last == payload[payload.len() - 1]);
    }
    assert(t2[t2.len() - 1] == last);
    crate::text::lemma_trim_end_at(t2, t2.len() as int);
    assert(trim_end(t2) =~= t2.take(t2.len() as int));
    assert(t2.take(t2.len() as int) =~= t2);
    assert(trim(tail) == t2);

    // the module tag stage
    assert(rest0[0] == '|');
    assert(t2 =~= "mod="@ + (m + rest0));
    lemma_mod_render(m, rest0);
    assert(spec_parse_mod(t2) == Some((m, rest0)));

    // the header tags
    lemma_header_tags(cli, srv, sub, payload, epc, eps);
}


// ---------------------------------------------------------------------------
// rendering a payload
// ---------------------------------------------------------------------------

/// Two rendered tags parse back to their values.
proof fn lemma_two_tags_render(a: Seq<char>, b: Seq<char>, v1: Seq<char>, v2: Seq<char>)
    requires
        v1.len() >= 1,
        forall|j: int| 0 <= j < v1.len() ==> v1[j] != '|',
        v2.len() >= 1,
    ensures
        spec_two_tags(tag_pre(a) + (v1 + (tag_pre(b) + v2)), a, b) == Ok::<_, ErrorV>((v1, v2)),
{
    let p2 = tag_pre(b) + v2;
    assert(p2[0] == '|');
    lemma_tag_render(a, v1, p2);
    lemma_tag_last_render(b, v2);
}

/// Four rendered tags parse back to their values.
proof fn lemma_four_tags_render(
    a: Seq<char>,
    b: Seq<char>,
    c: Seq<char>,
    d: Seq<char>,
    v1: Seq<char>,
    v2: Seq<char>,
    v3: Seq<char>,
    v4: Seq<char>,
)
    requires
        v1.len() >= 1,
        forall|j: int| 0 <= j < v1.len() ==> v1[j] != '|',
        v2.len() >= 1,
        forall|j: int| 0 <= j < v2.len() ==> v2[j] != '|',
        v3.len() >= 1,
        forall|j: int| 0 <= j < v3.len() ==> v3[j] != '|',
        v4.len() >= 1,
    ensures
        spec_four_tags(
            tag_pre(a) + (v1 + (tag_pre(b) + (v2 + (tag_pre(c) + (v3 + (tag_pre(d) + v4)))))),
            a,
            b,
            c,
            d,
        ) == Ok::<_, ErrorV>((v1, v2, v3, v4)),
{
    let p4 = tag_pre(d) + v4;
    let p3 = tag_pre(c) + (v3 + p4);
    let p2 = tag_pre(b) + (v2 + p3);
    assert(p2[0] == '|');
    assert(p3[0] == '|');
    assert(p4[0] == '|');
    lemma_tag_render(a, v1, p2);
    lemma_tag_render(b, v2, p3);
    lemma_tag_render(c, v3, p4);
    lemma_tag_last_render(d, v4);
}

// ---------------------------------------------------------------------------
// the unclosed timestamp
// ---------------------------------------------------------------------------

/// A line that opens its timestamp bracket and never closes it fails with
/// the timestamp error, and the error carries the whole line: nothing was
/// consumed.
pub proof fn lemma_timestamp_unclosed(s: Seq<char>)
    requires
        s.len() > 0,
        s[0] == '[',
        forall|j: int| 1 <= j < s.len() ==> s[j] != ']',
    ensures
        spec_parse_line(s) == Err::<RecordV, ErrorV>(ErrorV::Timestamp { remain: s }),
{
    let t = s.skip(1);
    lemma_find0(t, ']');
    if find0(t, ']') >= 0 {
        assert(t[find0(t, ']')] == ']');
        assert(s[find0(t, ']') + 1] == ']');
    }
}

// ---------------------------------------------------------------------------
// what the uptime numbers mean
// ---------------------------------------------------------------------------

/// Whenever an uptime value decodes, its duration is days x 86400 plus
/// hours x 3600 plus minutes x 60 seconds of the four numbers exactly as
/// they stand in the text, and its modulo period is the fourth number
/// x 86400 seconds.
pub proof fn lemma_uptime_formula(u: Seq<char>, up: Uptime)
    requires
        spec_decode_uptime(u) == Ok::<Uptime, ErrorV>(up),
    ensures
        ({
            let e1 = digit_run_end(u, 0);
            let p2 = hspace_run_end(u, hspace_run_end(u, e1) + 4);
            let e2 = digit_run_end(u, p2);
            let p4 = hspace_run_end(u, hspace_run_end(u, e2) + 3);
            let e3 = digit_run_end(u, p4);
            let p6 = hspace_run_end(u, hspace_run_end(u, e3) + 11);
            let e4 = digit_run_end(u, p6);
            &&& up.duration == dec_val(u.subrange(0, e1)) * 86400 + dec_val(u.subrange(p2, e2))
                * 3600 + dec_val(u.subrange(p4, e3)) * 60
            &&& up.modulo == dec_val(u.subrange(p6, e4)) * 86400
        }),
{
    let e1 = digit_run_end(u, 0);
    let p1 = hspace_run_end(u, e1);
    let p2 = hspace_run_end(u, p1 + 4);
    let e2 = digit_run_end(u, p2);
    let p3 = hspace_run_end(u, e2);
    let p4 = hspace_run_end(u, p3 + 3);
    let e3 = digit_run_end(u, p4);
    let p5 = hspace_run_end(u, e3);
    let p6 = hspace_run_end(u, p5 + 11);
    let e4 = digit_run_end(u, p6);
    crate::text::lemma_digit_run_end(u, 0);
    crate::text::lemma_hspace_run_end(u, e1);
    crate::text::lemma_hspace_run_end(u, p1 + 4);
    crate::text::lemma_digit_run_end(u, p2);
    crate::text::lemma_hspace_run_end(u, e2);
    crate::text::lemma_hspace_run_end(u, p3 + 3);
    crate::text::lemma_digit_run_end(u, p4);
    crate::text::lemma_hspace_run_end(u, e3);
    crate::text::lemma_hspace_run_end(u, p5 + 11);
    crate::text::lemma_digit_run_end(u, p6);
    assert(all_digits(u.subrange(0, e1))) by {
        assert forall|j: int| 0 <= j < e1 implies is_digit(#[trigger] u.subrange(0, e1)[j]) by {
            assert(u.subrange(0, e1)[j] == u[j]);
        }
    }
    lemma_dec_val_nonneg(u.subrange(0, e1));
    assert(all_digits(u.subrange(p2, e2))) by {
        assert forall|j: int| 0 <= j < e2 - p2 implies is_digit(
            #[trigger] u.subrange(p2, e2)[j],
        ) by {
            assert(u.subrange(p2, e2)[j] == u[p2 + j]);
        }
    }
    lemma_dec_val_nonneg(u.subrange(p2, e2));
    assert(all_digits(u.subrange(p4, e3))) by {
        assert forall|j: int| 0 <= j < e3 - p4 implies is_digit(
            #[trigger] u.subrange(p4, e3)[j],
        ) by {
            assert(u.subrange(p4, e3)[j] == u[p4 + j]);
        }
    }
    lemma_dec_val_nonneg(u.subrange(p4, e3));
    assert(all_digits(u.subrange(p6, e4))) by {
        assert forall|j: int| 0 <= j < e4 - p6 implies is_digit(
            #[trigger] u.subrange(p6, e4)[j],
        ) by {
            assert(u.subrange(p6, e4)[j] == u[p6 + j]);
        }
    }
    lemma_dec_val_nonneg(u.subrange(p6, e4));
}

// ---------------------------------------------------------------------------
// the unknown module, seen from the line
// ---------------------------------------------------------------------------

/// On any line whose header parses and whose module tag is none of the
/// seven known literals, parsing succeeds, and the record carries exactly
/// that tag and the untouched remainder after the subject tag.
pub proof fn lemma_unknown_module(
    s: Seq<char>,
    dt: DateTime,
    after: Seq<char>,
    m: Seq<char>,
    r0: Seq<char>,
    epc: EndpointV,
    r1: Seq<char>,
    eps: EndpointV,
    r2: Seq<char>,
    sub: Subject,
    r3: Seq<char>,
)
    requires
        spec_parse_date(s) == Some((dt, after)),
        spec_parse_mod(trim(after)) == Some((m, r0)),
        spec_parse_cli(r0) == Ok::<_, ErrorV>((epc, r1)),
        spec_parse_srv(r1) == Ok::<_, ErrorV>((eps, r2)),
        spec_parse_subj(r2) == Ok::<_, ErrorV>((sub, r3)),
        !known_module(m),
    ensures
        spec_parse_line(s) == Ok::<RecordV, ErrorV>(
            RecordV {
                date: dt,
                module: ModuleV::Unparsed { module: m, remain: r3 },
                client: epc,
                server: eps,
                subject: sub,
            },
        ),
{
}


// ---------------------------------------------------------------------------
// whole lines of each module kind
// ---------------------------------------------------------------------------

pub open spec fn render_syn_payload(
    os: Seq<char>,
    dist: Seq<char>,
    params: Seq<char>,
    raw_sig: Seq<char>,
) -> Seq<char> {
    "|os="@ + os + "|dist="@ + dist + "|params="@ + params + "|raw_sig="@ + raw_sig
}

pub open spec fn render_http_payload(
    app: Seq<char>,
    lang: Seq<char>,
    params: Seq<char>,
    raw_sig: Seq<char>,
) -> Seq<char> {
    "|app="@ + app + "|lang="@ + lang + "|params="@ + params + "|raw_sig="@ + raw_sig
}

pub open spec fn render_uptime_payload(uv: Seq<char>, raw_freq: Seq<char>) -> Seq<char> {
    "|uptime="@ + uv + "|raw_freq="@ + raw_freq
}

pub open spec fn render_mtu_payload(link: Seq<char>, raw_mtu: Seq<char>) -> Seq<char> {
    "|link="@ + link + "|raw_mtu="@ + raw_mtu
}

pub open spec fn render_host_change_payload(reason: Seq<char>, raw_hits: Seq<char>) -> Seq<char> {
    "|reason="@ + reason + "|raw_hits="@ + raw_hits
}

/// A value that can stand between `=` and the next `|`.
pub open spec fn tag_value_ok(v: Seq<char>) -> bool {
    v.len() >= 1 && forall|j: int| 0 <= j < v.len() ==> v[j] != '|'
}

/// A well-formed `syn` line parses to a Syn record whose every field is
/// the exact substring that stood between the line's delimiters.
#[verifier::rlimit(100)]
pub proof fn lemma_parse_line_syn(
    ts: Seq<char>,
    cli: Seq<char>,
    srv: Seq<char>,
    sub: Subject,
    os: Seq<char>,
    dist: Seq<char>,
    params: Seq<char>,
    raw_sig: Seq<char>,
    dt: DateTime,
    epc: EndpointV,
    eps: EndpointV,
)
    requires
        spec_decode_datetime(ts) == Some(dt),
        spec_parse_endpoint(cli) == Some(epc),
        spec_parse_endpoint(srv) == Some(eps),
        tag_value_ok(os),
        tag_value_ok(dist),
        tag_value_ok(params),
        raw_sig.len() >= 1,
        !is_space(raw_sig[raw_sig.len() - 1]),
    ensures
        spec_parse_line(
            render_header(ts, "syn"@, cli, srv, subject_token(sub)) + render_syn_payload(
                os,
                dist,
                params,
                raw_sig,
            ),
        ) == Ok::<RecordV, ErrorV>(
            RecordV {
                date: dt,
                module: ModuleV::Syn { os, dist, params, raw_sig },
                client: epc,
                server: eps,
                subject: sub,
            },
        ),
{
    reveal_strlit("syn");
    reveal_strlit("uptime");
    reveal_strlit("mtu");
    reveal_strlit("os");
    reveal_strlit("dist");
    reveal_strlit("params");
    reveal_strlit("raw_sig");
    reveal_strlit("|os=");
    reveal_strlit("|dist=");
    reveal_strlit("|params=");
    reveal_strlit("|raw_sig=");
    let payload = render_syn_payload(os, dist, params, raw_sig);
    let p4 = tag_pre("raw_sig"@) + raw_sig;
    let p3 = tag_pre("params"@) + (params + p4);
    let p2 = tag_pre("dist"@) + (dist + p3);
    let p1 = tag_pre("os"@) + (os + p2);
    assert(payload =~= p1);
    lemma_four_tags_render("os"@, "dist"@, "params"@, "raw_sig"@, os, dist, params, raw_sig);
    assert(spec_four_tags(payload, "os"@, "dist"@, "params"@, "raw_sig"@) == Ok::<_, ErrorV>(
        (os, dist, params, raw_sig),
    ));
    assert(payload[0] == '|');
    assert(p4[p4.len() - 1] == raw_sig[raw_sig.len() - 1]);
    assert(p3[p3.len() - 1] == p4[p4.len() - 1]);
    assert(p2[p2.len() - 1] == p3[p3.len() - 1]);
    assert(p1[p1.len() - 1] == p2[p2.len() - 1]);
    assert(payload[payload.len() - 1] == raw_sig[raw_sig.len() - 1]);
    let m = "syn"@;
    assert forall|j: int| 0 <= j < m.len() implies m[j] != '|' by {}
    assert(m != "uptime"@);
    assert(m != "mtu"@) by {
        assert(m[0] == 's');
        assert("mtu"@[0] == 'm');
    }
    assert(spec_dispatch(m, payload) == Ok::<ModuleV, ErrorV>(
        ModuleV::Syn { os, dist, params, raw_sig },
    ));
    lemma_parse_header(ts, m, cli, srv, sub, payload, dt, epc, eps);
}

/// A well-formed `syn+ack` line parses to a SynAck record of its exact
/// substrings.
#[verifier::rlimit(100)]
pub proof fn lemma_parse_line_synack(
    ts: Seq<char>,
    cli: Seq<char>,
    srv: Seq<char>,
    sub: Subject,
    os: Seq<char>,
    dist: Seq<char>,
    params: Seq<char>,
    raw_sig: Seq<char>,
    dt: DateTime,
    epc: EndpointV,
    eps: EndpointV,
)
    requires
        spec_decode_datetime(ts) == Some(dt),
        spec_parse_endpoint(cli) == Some(epc),
        spec_parse_endpoint(srv) == Some(eps),
        tag_value_ok(os),
        tag_value_ok(dist),
        tag_value_ok(params),
        raw_sig.len() >= 1,
        !is_space(raw_sig[raw_sig.len() - 1]),
    ensures
        spec_parse_line(
            render_header(ts, "syn+ack"@, cli, srv, subject_token(sub)) + render_syn_payload(
                os,
                dist,
                params,
                raw_sig,
            ),
        ) == Ok::<RecordV, ErrorV>(
            RecordV {
                date: dt,
                module: ModuleV::SynAck { os, dist, params, raw_sig },
                client: epc,
                server: eps,
                subject: sub,
            },
        ),
{
    reveal_strlit("syn+ack");
    reveal_strlit("uptime");
    reveal_strlit("mtu");
    reveal_strlit("syn");
    reveal_strlit("os");
    reveal_strlit("dist");
    reveal_strlit("params");
    reveal_strlit("raw_sig");
    reveal_strlit("|os=");
    reveal_strlit("|dist=");
    reveal_strlit("|params=");
    reveal_strlit("|raw_sig=");
    let payload = render_syn_payload(os, dist, params, raw_sig);
    let p4 = tag_pre("raw_sig"@) + raw_sig;
    let p3 = tag_pre("params"@) + (params + p4);
    let p2 = tag_pre("dist"@) + (dist + p3);
    let p1 = tag_pre("os"@) + (os + p2);
    assert(payload =~= p1);
    lemma_four_tags_render("os"@, "dist"@, "params"@, "raw_sig"@, os, dist, params, raw_sig);
    assert(spec_four_tags(payload, "os"@, "dist"@, "params"@, "raw_sig"@) == Ok::<_, ErrorV>(
        (os, dist, params, raw_sig),
    ));
    assert(payload[0] == '|');
    assert(p4[p4.len() - 1] == raw_sig[raw_sig.len() - 1]);
    assert(p3[p3.len() - 1] == p4[p4.len() - 1]);
    assert(p2[p2.len() - 1] == p3[p3.len() - 1]);
    assert(p1[p1.len() - 1] == p2[p2.len() - 1]);
    assert(payload[payload.len() - 1] == raw_sig[raw_sig.len() - 1]);
    let m = "syn+ack"@;
    assert forall|j: int| 0 <= j < m.len() implies m[j] != '|' by {}
    assert(spec_dispatch(m, payload) == Ok::<ModuleV, ErrorV>(
        ModuleV::SynAck { os, dist, params, raw_sig },
    ));
    lemma_parse_header(ts, m, cli, srv, sub, payload, dt, epc, eps);
}


/// A well-formed `http request` line parses to an HttpRequest record of
/// its exact substrings.
#[verifier::rlimit(100)]
pub proof fn lemma_parse_line_http_request(
    ts: Seq<char>,
    cli: Seq<char>,
    srv: Seq<char>,
    sub: Subject,
    app: Seq<char>,
    lang: Seq<char>,
    params: Seq<char>,
    raw_sig: Seq<char>,
    dt: DateTime,
    epc: EndpointV,
    eps: EndpointV,
)
    requires
        spec_decode_datetime(ts) == Some(dt),
        spec_parse_endpoint(cli) == Some(epc),
        spec_parse_endpoint(srv) == Some(eps),
        tag_value_ok(app),
        tag_value_ok(lang),
        tag_value_ok(params),
        raw_sig.len() >= 1,
        !is_space(raw_sig[raw_sig.len() - 1]),
    ensures
        spec_parse_line(
            render_header(ts, "http request"@, cli, srv, subject_token(sub)) + render_http_payload(
                app,
                lang,
                params,
                raw_sig,
            ),
        ) == Ok::<RecordV, ErrorV>(
            RecordV {
                date: dt,
                module: ModuleV::HttpRequest { app, lang, params, raw_sig },
                client: epc,
                server: eps,
                subject: sub,
            },
        ),
{
    reveal_strlit("http request");
    reveal_strlit("uptime");
    reveal_strlit("mtu");
    reveal_strlit("syn");
    reveal_strlit("syn+ack");
    reveal_strlit("host change");
    reveal_strlit("app");
    reveal_strlit("lang");
    reveal_strlit("params");
    reveal_strlit("raw_sig");
    reveal_strlit("|app=");
    reveal_strlit("|lang=");
    reveal_strlit("|params=");
    reveal_strlit("|raw_sig=");
    let payload = render_http_payload(app, lang, params, raw_sig);
    let p4 = tag_pre("raw_sig"@) + raw_sig;
    let p3 = tag_pre("params"@) + (params + p4);
    let p2 = tag_pre("lang"@) + (lang + p3);
    let p1 = tag_pre("app"@) + (app + p2);
    assert(payload =~= p1);
    lemma_four_tags_render("app"@, "lang"@, "params"@, "raw_sig"@, app, lang, params, raw_sig);
    assert(spec_four_tags(payload, "app"@, "lang"@, "params"@, "raw_sig"@) == Ok::<_, ErrorV>(
        (app, lang, params, raw_sig),
    ));
    assert(payload[0] == '|');
    assert(p4[p4.len() - 1] == raw_sig[raw_sig.len() - 1]);
    assert(p3[p3.len() - 1] == p4[p4.len() - 1]);
    assert(p2[p2.len() - 1] == p3[p3.len() - 1]);
    assert(p1[p1.len() - 1] == p2[p2.len() - 1]);
    assert(payload[payload.len() - 1] == raw_sig[raw_sig.len() - 1]);
    let m = "http request"@;
    assert forall|j: int| 0 <= j < m.len() implies m[j] != '|' by {}
    assert(spec_dispatch(m, payload) == Ok::<ModuleV, ErrorV>(
        ModuleV::HttpRequest { app, lang, params, raw_sig },
    ));
    lemma_parse_header(ts, m, cli, srv, sub, payload, dt, epc, eps);
}

/// A well-formed `http response` line parses to an HttpResponse record of
/// its exact substrings.
#[verifier::rlimit(100)]
pub proof fn lemma_parse_line_http_response(
    ts: Seq<char>,
    cli: Seq<char>,
    srv: Seq<char>,
    sub: Subject,
    app: Seq<char>,
    lang: Seq<char>,
    params: Seq<char>,
    raw_sig: Seq<char>,
    dt: DateTime,
    epc: EndpointV,
    eps: EndpointV,
)
    requires
        spec_decode_datetime(ts) == Some(dt),
        spec_parse_endpoint(cli) == Some(epc),
        spec_parse_endpoint(srv) == Some(eps),
        tag_value_ok(app),
        tag_value_ok(lang),
        tag_value_ok(params),
        raw_sig.len() >= 1,
        !is_space(raw_sig[raw_sig.len() - 1]),
    ensures
        spec_parse_line(
            render_header(ts, "http response"@, cli, srv, subject_token(sub)) + render_http_payload(
                app,
                lang,
                params,
                raw_sig,
            ),
        ) == Ok::<RecordV, ErrorV>(
            RecordV {
                date: dt,
                module: ModuleV::HttpResponse { app, lang, params, raw_sig },
                client: epc,
                server: eps,
                subject: sub,
            },
        ),
{
    reveal_strlit("http response");
    reveal_strlit("uptime");
    reveal_strlit("mtu");
    reveal_strlit("syn");
    reveal_strlit("syn+ack");
    reveal_strlit("host change");
    reveal_strlit("http request");
    reveal_strlit("app");
    reveal_strlit("lang");
    reveal_strlit("params");
    reveal_strlit("raw_sig");
    reveal_strlit("|app=");
    reveal_strlit("|lang=");
    reveal_strlit("|params=");
    reveal_strlit("|raw_sig=");
    let payload = render_http_payload(app, lang, params, raw_sig);
    let p4 = tag_pre("raw_sig"@) + raw_sig;
    let p3 = tag_pre("params"@) + (params + p4);
    let p2 = tag_pre("lang"@) + (lang + p3);
    let p1 = tag_pre("app"@) + (app + p2);
    assert(payload =~= p1);
    lemma_four_tags_render("app"@, "lang"@, "params"@, "raw_sig"@, app, lang, params, raw_sig);
    assert(spec_four_tags(payload, "app"@, "lang"@, "params"@, "raw_sig"@) == Ok::<_, ErrorV>(
        (app, lang, params, raw_sig),
    ));
    assert(payload[0] == '|');
    assert(p4[p4.len() - 1] == raw_sig[raw_sig.len() - 1]);
    assert(p3[p3.len() - 1] == p4[p4.len() - 1]);
    assert(p2[p2.len() - 1] == p3[p3.len() - 1]);
    assert(p1[p1.len() - 1] == p2[p2.len() - 1]);
    assert(payload[payload.len() - 1] == raw_sig[raw_sig.len() - 1]);
    let m = "http response"@;
    assert forall|j: int| 0 <= j < m.len() implies m[j] != '|' by {}
    assert(m != "http request"@);
    assert(spec_dispatch(m, payload) == Ok::<ModuleV, ErrorV>(
        ModuleV::HttpResponse { app, lang, params, raw_sig },
    ));
    lemma_parse_header(ts, m, cli, srv, sub, payload, dt, epc, eps);
}

/// A well-formed `uptime` line parses to an Uptime record: the uptime
/// value decoded by the duration formula, the raw frequency text verbatim.
#[verifier::rlimit(100)]
pub proof fn lemma_parse_line_uptime(
    ts: Seq<char>,
    cli: Seq<char>,
    srv: Seq<char>,
    sub: Subject,
    uv: Seq<char>,
    raw_freq: Seq<char>,
    up: Uptime,
    dt: DateTime,
    epc: EndpointV,
    eps: EndpointV,
)
    requires
        spec_decode_datetime(ts) == Some(dt),
        spec_parse_endpoint(cli) == Some(epc),
        spec_parse_endpoint(srv) == Some(eps),
        forall|j: int| 0 <= j < uv.len() ==> uv[j] != '|',
        spec_decode_uptime(uv) == Ok::<Uptime, ErrorV>(up),
        raw_freq.len() >= 1,
        !is_space(raw_freq[raw_freq.len() - 1]),
    ensures
        spec_parse_line(
            render_header(ts, "uptime"@, cli, srv, subject_token(sub)) + render_uptime_payload(
                uv,
                raw_freq,
            ),
        ) == Ok::<RecordV, ErrorV>(
            RecordV {
                date: dt,
                module: ModuleV::Uptime { uptime: up, raw_freq },
                client: epc,
                server: eps,
                subject: sub,
            },
        ),
{
    reveal_strlit("uptime");
    reveal_strlit("raw_freq");
    reveal_strlit("|uptime=");
    reveal_strlit("|raw_freq=");
    let payload = render_uptime_payload(uv, raw_freq);
    let p2 = tag_pre("raw_freq"@) + raw_freq;
    let p1 = tag_pre("uptime"@) + (uv + p2);
    assert(payload =~= p1);
    assert(uv.len() >= 1) by {
        crate::text::lemma_digit_run_end(uv, 0);
        assert(digit_run_end(uv, 0) != 0);
    }
    assert(p2[0] == '|');
    lemma_tag_render("uptime"@, uv, p2);
    assert(spec_tag(payload, "uptime"@) == Some((uv, p2)));
    lemma_tag_last_render("raw_freq"@, raw_freq);
    assert(spec_tag_last(p2, "raw_freq"@) == Some(raw_freq));
    assert(payload[0] == '|');
    assert(p2[p2.len() - 1] == raw_freq[raw_freq.len() - 1]);
    assert(p1[p1.len() - 1] == p2[p2.len() - 1]);
    assert(payload[payload.len() - 1] == raw_freq[raw_freq.len() - 1]);
    let m = "uptime"@;
    assert forall|j: int| 0 <= j < m.len() implies m[j] != '|' by {}
    assert(spec_dispatch(m, payload) == Ok::<ModuleV, ErrorV>(
        ModuleV::Uptime { uptime: up, raw_freq },
    ));
    lemma_parse_header(ts, m, cli, srv, sub, payload, dt, epc, eps);
}

/// A well-formed `mtu` line parses to an Mtu record: the link text
/// verbatim, the MTU read from its digits.
#[verifier::rlimit(100)]
pub proof fn lemma_parse_line_mtu(
    ts: Seq<char>,
    cli: Seq<char>,
    srv: Seq<char>,
    sub: Subject,
    link: Seq<char>,
    raw_mtu: Seq<char>,
    dt: DateTime,
    epc: EndpointV,
    eps: EndpointV,
)
    requires
        spec_decode_datetime(ts) == Some(dt),
        spec_parse_endpoint(cli) == Some(epc),
        spec_parse_endpoint(srv) == Some(eps),
        tag_value_ok(link),
        raw_mtu.len() >= 1,
        all_digits(raw_mtu),
        dec_val(raw_mtu) <= usize::MAX,
    ensures
        spec_parse_line(
            render_header(ts, "mtu"@, cli, srv, subject_token(sub)) + render_mtu_payload(
                link,
                raw_mtu,
            ),
        ) == Ok::<RecordV, ErrorV>(
            RecordV {
                date: dt,
                module: ModuleV::Mtu { link, raw_mtu: dec_val(raw_mtu) as usize },
                client: epc,
                server: eps,
                subject: sub,
            },
        ),
{
    reveal_strlit("mtu");
    reveal_strlit("uptime");
    reveal_strlit("link");
    reveal_strlit("raw_mtu");
    reveal_strlit("|link=");
    reveal_strlit("|raw_mtu=");
    let payload = render_mtu_payload(link, raw_mtu);
    let p2 = tag_pre("raw_mtu"@) + raw_mtu;
    let p1 = tag_pre("link"@) + (link + p2);
    assert(payload =~= p1);
    lemma_two_tags_render("link"@, "raw_mtu"@, link, raw_mtu);
    assert(spec_two_tags(payload, "link"@, "raw_mtu"@) == Ok::<_, ErrorV>((link, raw_mtu)));
    assert(payload[0] == '|');
    assert(is_digit(raw_mtu[raw_mtu.len() - 1]));
    assert(!is_space(raw_mtu[raw_mtu.len() - 1]));
    assert(p2[p2.len() - 1] == raw_mtu[raw_mtu.len() - 1]);
    assert(p1[p1.len() - 1] == p2[p2.len() - 1]);
    assert(payload[payload.len() - 1] == raw_mtu[raw_mtu.len() - 1]);
    let m = "mtu"@;
    assert forall|j: int| 0 <= j < m.len() implies m[j] != '|' by {}
    assert(m != "uptime"@);
    assert(spec_dispatch(m, payload) == Ok::<ModuleV, ErrorV>(
        ModuleV::Mtu { link, raw_mtu: dec_val(raw_mtu) as usize },
    ));
    lemma_parse_header(ts, m, cli, srv, sub, payload, dt, epc, eps);
}

/// A well-formed `host change` line parses to a HostChange record of its
/// exact substrings.
#[verifier::rlimit(100)]
pub proof fn lemma_parse_line_host_change(
    ts: Seq<char>,
    cli: Seq<char>,
    srv: Seq<char>,
    sub: Subject,
    reason: Seq<char>,
    raw_hits: Seq<char>,
    dt: DateTime,
    epc: EndpointV,
    eps: EndpointV,
)
    requires
        spec_decode_datetime(ts) == Some(dt),
        spec_parse_endpoint(cli) == Some(epc),
        spec_parse_endpoint(srv) == Some(eps),
        tag_value_ok(reason),
        raw_hits.len() >= 1,
        !is_space(raw_hits[raw_hits.len() - 1]),
    ensures
        spec_parse_line(
            render_header(ts, "host change"@, cli, srv, subject_token(sub))
                + render_host_change_payload(reason, raw_hits),
        ) == Ok::<RecordV, ErrorV>(
            RecordV {
                date: dt,
                module: ModuleV::HostChange { reason, raw_hits },
                client: epc,
                server: eps,
                subject: sub,
            },
        ),
{
    reveal_strlit("host change");
    reveal_strlit("uptime");
    reveal_strlit("mtu");
    reveal_strlit("syn");
    reveal_strlit("syn+ack");
    reveal_strlit("reason");
    reveal_strlit("raw_hits");
    reveal_strlit("|reason=");
    reveal_strlit("|raw_hits=");
    let payload = render_host_change_payload(reason, raw_hits);
    let p2 = tag_pre("raw_hits"@) + raw_hits;
    let p1 = tag_pre("reason"@) + (reason + p2);
    assert(payload =~= p1);
    lemma_two_tags_render("reason"@, "raw_hits"@, reason, raw_hits);
    assert(spec_two_tags(payload, "reason"@, "raw_hits"@) == Ok::<_, ErrorV>((reason, raw_hits)));
    assert(payload[0] == '|');
    assert(p2[p2.len() - 1] == raw_hits[raw_hits.len() - 1]);
    assert(p1[p1.len() - 1] == p2[p2.len() - 1]);
    assert(payload[payload.len() - 1] == raw_hits[raw_hits.len() - 1]);
    let m = "host change"@;
    assert forall|j: int| 0 <= j < m.len() implies m[j] != '|' by {}
    assert(spec_dispatch(m, payload) == Ok::<ModuleV, ErrorV>(
        ModuleV::HostChange { reason, raw_hits },
    ));
    lemma_parse_header(ts, m, cli, srv, sub, payload, dt, epc, eps);
}

/// A line with an unknown module tag and any `|`-led trailing text parses
/// to an Unparsed record holding exactly that tag and that text, with no
/// error: the deliberate degrade-gracefully policy.
#[verifier::rlimit(100)]
pub proof fn lemma_parse_line_unparsed(
    ts: Seq<char>,
    cli: Seq<char>,
    srv: Seq<char>,
    sub: Subject,
    m: Seq<char>,
    remain: Seq<char>,
    dt: DateTime,
    epc: EndpointV,
    eps: EndpointV,
)
    requires
        spec_decode_datetime(ts) == Some(dt),
        spec_parse_endpoint(cli) == Some(epc),
        spec_parse_endpoint(srv) == Some(eps),
        tag_value_ok(m),
        !known_module(m),
        remain.len() == 0 || remain[0] == '|',
        remain.len() == 0 || !is_space(remain[remain.len() - 1]),
    ensures
        spec_parse_line(render_header(ts, m, cli, srv, subject_token(sub)) + remain) == Ok::<
            RecordV,
            ErrorV,
        >(
            RecordV {
                date: dt,
                module: ModuleV::Unparsed { module: m, remain },
                client: epc,
                server: eps,
                subject: sub,
            },
        ),
{
    lemma_parse_header(ts, m, cli, srv, sub, remain, dt, epc, eps);
}

} // verus!
