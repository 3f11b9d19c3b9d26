//! Values spelled out in full, for messages about a reply nobody asked for:
//! names of types and fields, numbers in decimal, texts between quotes.

use vstd::prelude::*;
use vstd::string::*;

use crate::delegation::{Delegation, DelegationModel};
use crate::endpoint::{Endpoint, EndpointModel, Host, HostModel, endpoint_models};
use crate::error::{join2, join3, join4};
use crate::ip::{ipv4_text, ipv6_text, write_ipv4, write_ipv6};
use crate::key::PubKey;
use crate::protocol::{Response, ResponseModel, StatusInfo, StatusModel, code_name, opt_boxed};
use crate::record::{
    BodyModel, Record, RecordBody, RecordModel, SignedModel, SignedRecord, signed_models,
};
use crate::text::{dec, dec_text, join_all, joined, push_dec, texts};

verus! {

// ---------------------------------------------------------------------------
// Texts and lists
// ---------------------------------------------------------------------------

/// What `format!("{:?}", text)` returns for a text.
pub uninterp spec fn quoted(text: Seq<char>) -> Seq<char>;

/// A character that stands for itself between double quotes: printable ASCII
/// but for the quote and the backslash.
pub open spec fn is_plain(c: char) -> bool {
    let n = c as u32;
    0x20 <= n < 0x7f && c != '"' && c != '\\'
}

/// `shown` is `text` between double quotes, if all of it is plain.
pub open spec fn plain_between_quotes(text: Seq<char>, shown: Seq<char>) -> bool {
    (forall|i: int| 0 <= i < text.len() ==> is_plain(#[trigger] text[i])) ==> shown == "\""@ + text
        + "\""@
}

/// `std`'s `Debug` of `str`, through `format!`: the text between double quotes.
/// How a character is shown that needs escaping is left to the name.
#[verifier::external_body]
fn quote(text: &str) -> (shown: String)
    ensures
        shown@ == quoted(text@),
        plain_between_quotes(text@, shown@),
{
    format!("{text:?}")
}

/// Texts between brackets, with commas between them.
pub open spec fn bracketed(v: Seq<Seq<char>>) -> Seq<char> {
    "["@ + joined(v, ", "@) + "]"@
}

fn bracket(v: &Vec<String>) -> (out: String)
    ensures
        out@ == bracketed(texts(v@)),
{
    join3("[", join_all(v, ", ").as_str(), "]")
}

/// Bytes in decimal.
pub open spec fn bytes_shown(b: Seq<u8>) -> Seq<char> {
    bracketed(Seq::new(b.len(), |i: int| dec(b[i] as nat)))
}

fn show_bytes(b: &[u8]) -> (out: String)
    ensures
        out@ == bytes_shown(b@),
{
    let mut v: Vec<String> = Vec::new();
    let mut i: usize = 0;
    while i < b.len()
        invariant
            i <= b@.len(),
            v@.len() == i,
            forall|j: int| 0 <= j < i ==> (#[trigger] v@[j])@ == dec(b@[j] as nat),
        decreases b@.len() - i,
    {
        v.push(dec_text(b[i] as u64));
        i += 1;
    }
    assert(texts(v@) =~= Seq::new(b@.len(), |i: int| dec(b@[i] as nat)));
    bracket(&v)
}

// ---------------------------------------------------------------------------
// Records
// ---------------------------------------------------------------------------

/// A key, by its bytes.
pub open spec fn key_shown(k: Seq<u8>) -> Seq<char> {
    "PubKey("@ + bytes_shown(k) + ")"@
}

fn show_key(k: &PubKey) -> (out: String)
    ensures
        out@ == key_shown(k@),
{
    join3("PubKey(", show_bytes(k.as_bytes()).as_str(), ")")
}

/// A host by its kind.
pub open spec fn host_shown(h: HostModel) -> Seq<char> {
    match h {
        HostModel::V4(a) => "V4("@ + ipv4_text(a) + ")"@,
        HostModel::V6(a) => "V6("@ + ipv6_text(a) + ")"@,
        HostModel::Name(n) => "Name("@ + quoted(n) + ")"@,
    }
}

fn show_host(h: &Host) -> (out: String)
    ensures
        out@ == host_shown(h@),
{
    match h {
        Host::V4(a) => join3("V4(", write_ipv4(a).as_str(), ")"),
        Host::V6(a) => join3("V6(", write_ipv6(a).as_str(), ")"),
        Host::Name(n) => join3("Name(", quote(n.as_str()).as_str(), ")"),
    }
}

/// An endpoint, field by field.
pub open spec fn endpoint_shown(e: EndpointModel) -> Seq<char> {
    "Endpoint { host: "@ + host_shown(e.host) + ", port: "@ + dec(e.port as nat) + ", priority: "@
        + dec(e.priority as nat) + ", weight: "@ + dec(e.weight as nat) + " }"@
}

fn show_endpoint(e: &Endpoint) -> (out: String)
    ensures
        out@ == endpoint_shown(e@),
{
    let mut out = join2("Endpoint { host: ", show_host(&e.host).as_str());
    out.append(", port: ");
    push_dec(&mut out, e.port as u64);
    out.append(", priority: ");
    push_dec(&mut out, e.priority as u64);
    out.append(", weight: ");
    push_dec(&mut out, e.weight as u64);
    out.append(" }");
    out
}

/// Endpoints, one after another.
pub open spec fn endpoints_shown(v: Seq<EndpointModel>) -> Seq<char> {
    bracketed(Seq::new(v.len(), |i: int| endpoint_shown(v[i])))
}

fn show_endpoints(v: &Vec<Endpoint>) -> (out: String)
    ensures
        out@ == endpoints_shown(endpoint_models(v@)),
{
    let ghost m = endpoint_models(v@);
    let mut all: Vec<String> = Vec::new();
    let mut i: usize = 0;
    while i < v.len()
        invariant
            i <= v@.len(),
            m == endpoint_models(v@),
            all@.len() == i,
            forall|j: int| 0 <= j < i ==> (#[trigger] all@[j])@ == endpoint_shown(m[j]),
        decreases v@.len() - i,
    {
        all.push(show_endpoint(&v[i]));
        i += 1;
    }
    assert(texts(all@) =~= Seq::new(m.len(), |i: int| endpoint_shown(m[i])));
    bracket(&all)
}

/// A delegation, field by field.
pub open spec fn delegation_shown(d: DelegationModel) -> Seq<char> {
    "Delegation { identity: "@ + key_shown(d.identity) + ", not_after: "@ + dec(d.not_after as nat)
        + ", signature: "@ + bytes_shown(d.signature) + " }"@
}

fn show_delegation(d: &Delegation) -> (out: String)
    ensures
        out@ == delegation_shown(d@),
{
    let mut out = join3("Delegation { identity: ", show_key(&d.identity).as_str(), ", not_after: ");
    push_dec(&mut out, d.not_after);
    out.append(", signature: ");
    out.append(show_bytes(&d.signature).as_str());
    out.append(" }");
    out
}

/// What a record says, by its kind.
pub open spec fn body_shown(b: BodyModel) -> Seq<char> {
    match b {
        BodyModel::Live { endpoints } => "Live { endpoints: "@ + endpoints_shown(endpoints) + " }"@,
        BodyModel::Superseded { successor, reason } => "Superseded { successor: "@ + key_shown(
            successor,
        ) + ", reason: "@ + quoted(reason) + " }"@,
        BodyModel::Revoked { reason } => "Revoked { reason: "@ + quoted(reason) + " }"@,
    }
}

fn show_body(b: &RecordBody) -> (out: String)
    ensures
        out@ == body_shown(b@),
{
    match b {
        RecordBody::Live { endpoints } => join3(
            "Live { endpoints: ",
            show_endpoints(endpoints).as_str(),
            " }",
        ),
        RecordBody::Superseded { successor, reason } => {
            let mut out = join4(
                "Superseded { successor: ",
                show_key(successor).as_str(),
                ", reason: ",
                quote(reason.as_str()).as_str(),
            );
            out.append(" }");
            out
        },
        RecordBody::Revoked { reason } => join3(
            "Revoked { reason: ",
            quote(reason.as_str()).as_str(),
            " }",
        ),
    }
}

/// A record, field by field.
pub open spec fn record_shown(r: RecordModel) -> Seq<char> {
    "Record { key: "@ + key_shown(r.key) + ", delegation: "@ + delegation_shown(r.delegation)
        + ", serial: "@ + dec(r.serial as nat) + ", issued_at: "@ + dec(r.issued_at as nat)
        + ", ttl: "@ + dec(r.ttl as nat) + ", body: "@ + body_shown(r.body) + " }"@
}

fn show_record(r: &Record) -> (out: String)
    ensures
        out@ == record_shown(r@),
{
    let mut out = join4(
        "Record { key: ",
        show_key(&r.key).as_str(),
        ", delegation: ",
        show_delegation(&r.delegation).as_str(),
    );
    out.append(", serial: ");
    push_dec(&mut out, r.serial);
    out.append(", issued_at: ");
    push_dec(&mut out, r.issued_at);
    out.append(", ttl: ");
    push_dec(&mut out, r.ttl as u64);
    out.append(", body: ");
    out.append(show_body(&r.body).as_str());
    out.append(" }");
    out
}

/// A signed record, field by field.
pub open spec fn signed_shown(s: SignedModel) -> Seq<char> {
    "SignedRecord { record: "@ + record_shown(s.record) + ", signature: "@ + bytes_shown(
        s.signature,
    ) + " }"@
}

fn show_signed(s: &SignedRecord) -> (out: String)
    ensures
        out@ == signed_shown(s@),
{
    let mut out = join4(
        "SignedRecord { record: ",
        show_record(&s.record).as_str(),
        ", signature: ",
        show_bytes(&s.signature).as_str(),
    );
    out.append(" }");
    out
}

/// Signed records, one after another.
pub open spec fn all_signed_shown(v: Seq<SignedModel>) -> Seq<char> {
    bracketed(Seq::new(v.len(), |i: int| signed_shown(v[i])))
}

fn show_all_signed(v: &Vec<SignedRecord>) -> (out: String)
    ensures
        out@ == all_signed_shown(signed_models(v@)),
{
    let ghost m = signed_models(v@);
    let mut all: Vec<String> = Vec::new();
    let mut i: usize = 0;
    while i < v.len()
        invariant
            i <= v@.len(),
            m == signed_models(v@),
            all@.len() == i,
            forall|j: int| 0 <= j < i ==> (#[trigger] all@[j])@ == signed_shown(m[j]),
        decreases v@.len() - i,
    {
        all.push(show_signed(&v[i]));
        i += 1;
    }
    assert(texts(all@) =~= Seq::new(m.len(), |i: int| signed_shown(m[i])));
    bracket(&all)
}

/// A signed record, if there is one.
pub open spec fn opt_signed_shown(o: Option<SignedModel>) -> Seq<char> {
    match o {
        Some(s) => "Some("@ + signed_shown(s) + ")"@,
        None => "None"@,
    }
}

fn show_opt_signed(o: &Option<Box<SignedRecord>>) -> (out: String)
    ensures
        out@ == opt_signed_shown(opt_boxed(*o)),
{
    match o {
        Some(s) => join3("Some(", show_signed(s).as_str(), ")"),
        None => String::from_str("None"),
    }
}

// ---------------------------------------------------------------------------
// Responses
// ---------------------------------------------------------------------------

/// A server's counters, field by field.
pub open spec fn status_shown(s: StatusModel) -> Seq<char> {
    "StatusInfo { records: "@ + dec(s.records as nat) + ", cached: "@ + dec(s.cached as nat)
        + ", peers: "@ + dec(s.peers as nat) + ", upstreams: "@ + dec(s.upstreams as nat)
        + ", uptime_secs: "@ + dec(s.uptime_secs as nat) + ", version: "@ + quoted(s.version)
        + " }"@
}

fn show_status(s: &StatusInfo) -> (out: String)
    ensures
        out@ == status_shown(s@),
{
    let mut out = join3("StatusInfo { records: ", dec_text(s.records).as_str(), ", cached: ");
    push_dec(&mut out, s.cached);
    out.append(", peers: ");
    push_dec(&mut out, s.peers as u64);
    out.append(", upstreams: ");
    push_dec(&mut out, s.upstreams as u64);
    out.append(", uptime_secs: ");
    push_dec(&mut out, s.uptime_secs);
    out.append(", version: ");
    out.append(quote(s.version.as_str()).as_str());
    out.append(" }");
    out
}

/// A yes or a no.
pub open spec fn bool_shown(b: bool) -> Seq<char> {
    if b {
        "true"@
    } else {
        "false"@
    }
}

/// A response, by its kind and field by field.
pub open spec fn response_shown(r: ResponseModel) -> Seq<char> {
    match r {
        ResponseModel::Answer { record, successor } => "Answer { record: "@ + opt_signed_shown(
            record,
        ) + ", successor: "@ + opt_signed_shown(successor) + " }"@,
        ResponseModel::Published { serial, expires_at } => "Published { serial: "@ + dec(
            serial as nat,
        ) + ", expires_at: "@ + dec(expires_at as nat) + " }"@,
        ResponseModel::Status(info) => "Status("@ + status_shown(info) + ")"@,
        ResponseModel::Records { records, complete } => "Records { records: "@ + all_signed_shown(
            records,
        ) + ", complete: "@ + bool_shown(complete) + " }"@,
        ResponseModel::Error { code, message } => "Error { code: "@ + code_name(code)
            + ", message: "@ + quoted(message) + " }"@,
    }
}

impl Response {
    /// This response spelled out in full.
    pub fn shown(&self) -> (out: String)
        ensures
            out@ == response_shown(self@),
    {
        match self {
            Response::Answer { record, successor } => {
                let mut out = join4(
                    "Answer { record: ",
                    show_opt_signed(record).as_str(),
                    ", successor: ",
                    show_opt_signed(successor).as_str(),
                );
                out.append(" }");
                out
            },
            Response::Published { serial, expires_at } => {
                let mut out = join4(
                    "Published { serial: ",
                    dec_text(*serial).as_str(),
                    ", expires_at: ",
                    dec_text(*expires_at).as_str(),
                );
                out.append(" }");
                out
            },
            Response::Status(info) => join3("Status(", show_status(info).as_str(), ")"),
            Response::Records { records, complete } => {
                let mut out = join4(
                    "Records { records: ",
                    show_all_signed(records).as_str(),
                    ", complete: ",
                    if *complete {
                        "true"
                    } else {
                        "false"
                    },
                );
                out.append(" }");
                out
            },
            Response::Error { code, message } => {
                let mut out = join4(
                    "Error { code: ",
                    code.name(),
                    ", message: ",
                    quote(message.as_str()).as_str(),
                );
                out.append(" }");
                out
            },
        }
    }
}

} // verus!
