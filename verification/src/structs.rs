//! The data model: one parsed record per line, with its endpoints, subject,
//! timestamp, and module payload, together with the mathematical view of
//! each type.

use vstd::prelude::*;

use crate::addr::is_valid_ip;
use crate::text::dec_rep;
use crate::text::u64_to_dec;

verus! {

/// A calendar date and time of day, second resolution.
#[derive(Clone, Copy, Debug, PartialEq, Eq, Structural)]
pub struct DateTime {
    pub year: u16,
    pub month: u8,
    pub day: u8,
    pub hour: u8,
    pub minute: u8,
    pub second: u8,
}

/// One side of the observed connection: the address text as it stood in
/// the line, and the port.
#[derive(Clone, Debug)]
pub struct Endpoint {
    pub addr: String,
    pub port: u16,
}

/// The mathematical shape of an [`Endpoint`].
pub struct EndpointV {
    pub addr: Seq<char>,
    pub port: u16,
}

impl View for Endpoint {
    type V = EndpointV;

    open spec fn view(&self) -> EndpointV {
        EndpointV { addr: self.addr@, port: self.port }
    }
}

impl Endpoint {
    /// The address part is a well-formed IPv4 or IPv6 address.
    pub open spec fn wf(self) -> bool {
        is_valid_ip(self.addr@)
    }

    /// Writes the endpoint back as `<addr>/<port>`, the port in canonical
    /// decimal.
    pub fn serialize(&self) -> (r: String)
        ensures
            r@ == self@.addr + seq!['/'] + dec_rep(self.port as int),
    {
        let mut s = self.addr.clone();
        s.append("/");
        let p = u64_to_dec(self.port as u64);
        s.append(p.as_str());
        proof {
            reveal_strlit("/");
            assert("/"@ =~= seq!['/']);
            assert(s@ =~= self@.addr + seq!['/'] + dec_rep(self.port as int));
        }
        s
    }
}

/// Which endpoint the fingerprint fields describe.
#[derive(Clone, Copy, Debug, PartialEq, Eq, Structural)]
pub enum Subject {
    Client,
    Server,
}

/// An uptime reading: total elapsed seconds, and the wraparound period of
/// the counter in seconds. The two are independent values.
#[derive(Clone, Copy, Debug, PartialEq, Eq, Structural)]
pub struct Uptime {
    pub duration: u64,
    pub modulo: u64,
}

/// The module payload: exactly one of the seven known kinds, or the raw
/// text of an unknown module.
#[derive(Clone, Debug)]
pub enum P0fModule {
    Uptime { uptime: Uptime, raw_freq: String },
    Mtu { link: String, raw_mtu: usize },
    Syn { os: String, dist: String, params: String, raw_sig: String },
    SynAck { os: String, dist: String, params: String, raw_sig: String },
    HostChange { reason: String, raw_hits: String },
    HttpRequest { app: String, lang: String, params: String, raw_sig: String },
    HttpResponse { app: String, lang: String, params: String, raw_sig: String },
    Unparsed { module: String, remain: String },
}

/// The mathematical shape of a [`P0fModule`].
pub enum ModuleV {
    Uptime { uptime: Uptime, raw_freq: Seq<char> },
    Mtu { link: Seq<char>, raw_mtu: usize },
    Syn { os: Seq<char>, dist: Seq<char>, params: Seq<char>, raw_sig: Seq<char> },
    SynAck { os: Seq<char>, dist: Seq<char>, params: Seq<char>, raw_sig: Seq<char> },
    HostChange { reason: Seq<char>, raw_hits: Seq<char> },
    HttpRequest { app: Seq<char>, lang: Seq<char>, params: Seq<char>, raw_sig: Seq<char> },
    HttpResponse { app: Seq<char>, lang: Seq<char>, params: Seq<char>, raw_sig: Seq<char> },
    Unparsed { module: Seq<char>, remain: Seq<char> },
}

impl View for P0fModule {
    type V = ModuleV;

    open spec fn view(&self) -> ModuleV {
        match self {
            P0fModule::Uptime { uptime, raw_freq } => ModuleV::Uptime {
                uptime: *uptime,
                raw_freq: raw_freq@,
            },
            P0fModule::Mtu { link, raw_mtu } => ModuleV::Mtu { link: link@, raw_mtu: *raw_mtu },
            P0fModule::Syn { os, dist, params, raw_sig } => ModuleV::Syn {
                os: os@,
                dist: dist@,
                params: params@,
                raw_sig: raw_sig@,
            },
            P0fModule::SynAck { os, dist, params, raw_sig } => ModuleV::SynAck {
                os: os@,
                dist: dist@,
                params: params@,
                raw_sig: raw_sig@,
            },
            P0fModule::HostChange { reason, raw_hits } => ModuleV::HostChange {
                reason: reason@,
                raw_hits: raw_hits@,
            },
            P0fModule::HttpRequest { app, lang, params, raw_sig } => ModuleV::HttpRequest {
                app: app@,
                lang: lang@,
                params: params@,
                raw_sig: raw_sig@,
            },
            P0fModule::HttpResponse { app, lang, params, raw_sig } => ModuleV::HttpResponse {
                app: app@,
                lang: lang@,
                params: params@,
                raw_sig: raw_sig@,
            },
            P0fModule::Unparsed { module, remain } => ModuleV::Unparsed {
                module: module@,
                remain: remain@,
            },
        }
    }
}

/// The parse result for one line: the always-present header fields and the
/// module payload. Immutable once constructed.
#[derive(Clone, Debug)]
pub struct P0f {
    pub date: DateTime,
    pub module: P0fModule,
    pub client: Endpoint,
    pub server: Endpoint,
    pub subject: Subject,
}

/// The mathematical shape of a [`P0f`] record.
pub struct RecordV {
    pub date: DateTime,
    pub module: ModuleV,
    pub client: EndpointV,
    pub server: EndpointV,
    pub subject: Subject,
}

impl View for P0f {
    type V = RecordV;

    open spec fn view(&self) -> RecordV {
        RecordV {
            date: self.date,
            module: self.module@,
            client: self.client@,
            server: self.server@,
            subject: self.subject,
        }
    }
}

impl P0f {
    /// Both endpoints hold well-formed addresses.
    pub open spec fn wf(self) -> bool {
        self.client.wf() && self.server.wf()
    }
}

} // verus!
