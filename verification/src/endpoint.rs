//! Endpoints: where a key can be reached.

use vstd::prelude::*;
use vstd::string::*;
use vstd::utf8::*;

use crate::codec::{
    Parse, Reader, be16, bytes_read_back, bytes_were_there, join_assoc, put_bytes, put_short_string,
    put_u16, put_u8, read_bytes, read_short_string, read_u16, read_u8, short_string_bytes,
    short_string_read_back, short_string_was_there, u16_read_back, u16_was_there, u8_read_back,
    u8_was_there,
};
use crate::error::{Error, ErrorModel, Result, outcome};
use crate::text::{hex_prefixed, push_hex_prefixed};

verus! {

pub const HOST_V4: u8 = 1;

pub const HOST_V6: u8 = 2;

pub const HOST_NAME: u8 = 3;

/// Where a key can be reached: an address literal or a name to resolve.
#[derive(Debug, PartialEq, Eq, Hash)]
pub enum Host {
    V4([u8; 4]),
    V6([u8; 16]),
    Name(String),
}

/// A [`Host`] with its address or name as a sequence.
#[verifier::ext_equal]
pub enum HostModel {
    V4(Seq<u8>),
    V6(Seq<u8>),
    Name(Seq<char>),
}

impl View for Host {
    type V = HostModel;

    open spec fn view(&self) -> HostModel {
        match *self {
            Host::V4(a) => HostModel::V4(a@),
            Host::V6(a) => HostModel::V6(a@),
            Host::Name(n) => HostModel::Name(n@),
        }
    }
}

impl Clone for Host {
    fn clone(&self) -> (r: Self)
        ensures
            r@ == self@,
    {
        match self {
            Host::V4(a) => Host::V4(*a),
            Host::V6(a) => Host::V6(*a),
            Host::Name(n) => Host::Name(n.clone()),
        }
    }
}

/// One reachable address for a key.
///
/// `priority` is tried in ascending order; `weight` breaks ties within a
/// priority by weighted random choice (a zero-weight endpoint is only used if
/// every endpoint at that priority is zero-weight).
#[derive(Debug, PartialEq, Eq, Hash)]
pub struct Endpoint {
    pub host: Host,
    pub port: u16,
    pub priority: u16,
    pub weight: u16,
}

/// An [`Endpoint`] with its host taken by its view.
#[verifier::ext_equal]
pub struct EndpointModel {
    pub host: HostModel,
    pub port: u16,
    pub priority: u16,
    pub weight: u16,
}

impl View for Endpoint {
    type V = EndpointModel;

    open spec fn view(&self) -> EndpointModel {
        EndpointModel {
            host: self.host@,
            port: self.port,
            priority: self.priority,
            weight: self.weight,
        }
    }
}

impl Clone for Endpoint {
    fn clone(&self) -> (r: Self)
        ensures
            r@ == self@,
    {
        Endpoint {
            host: self.host.clone(),
            port: self.port,
            priority: self.priority,
            weight: self.weight,
        }
    }
}

/// The views of a sequence of endpoints.
pub open spec fn endpoint_models(v: Seq<Endpoint>) -> Seq<EndpointModel> {
    Seq::new(v.len(), |i: int| v[i]@)
}

/// A copy of a list of endpoints.
pub fn clone_endpoints(v: &[Endpoint]) -> (out: Vec<Endpoint>)
    ensures
        endpoint_models(out@) == endpoint_models(v@),
{
    let mut out: Vec<Endpoint> = Vec::new();
    let mut i: usize = 0;
    while i < v.len()
        invariant
            i <= v@.len(),
            out@.len() == i,
            forall|j: int| 0 <= j < i ==> (#[trigger] out@[j])@ == v@[j]@,
        decreases v@.len() - i,
    {
        out.push(v[i].clone());
        i += 1;
    }
    assert(endpoint_models(out@) =~= endpoint_models(v@));
    out
}

// ---------------------------------------------------------------------------
// Encoding
// ---------------------------------------------------------------------------

/// The bytes of a host: its kind, then the address or the name.
pub open spec fn host_bytes(h: HostModel) -> Seq<u8> {
    match h {
        HostModel::V4(a) => seq![HOST_V4] + a,
        HostModel::V6(a) => seq![HOST_V6] + a,
        HostModel::Name(n) => seq![HOST_NAME] + short_string_bytes(n),
    }
}

/// The bytes of an endpoint.
pub open spec fn endpoint_bytes(e: EndpointModel) -> Seq<u8> {
    be16(e.priority) + be16(e.weight) + be16(e.port) + host_bytes(e.host)
}

/// The bytes of a list of endpoints, one after another.
pub open spec fn endpoints_bytes(v: Seq<EndpointModel>) -> Seq<u8>
    decreases v.len(),
{
    if v.len() == 0 {
        seq![]
    } else {
        endpoints_bytes(v.drop_last()) + endpoint_bytes(v.last())
    }
}

/// A host that its encoding carries exactly: an address, or a name of 1 to 255
/// bytes.
pub open spec fn host_fits(h: HostModel) -> bool {
    match h {
        HostModel::V4(a) => a.len() == 4,
        HostModel::V6(a) => a.len() == 16,
        HostModel::Name(n) => n.len() > 0 && encode_utf8(n).len() <= 0xff,
    }
}

/// Endpoints that their encoding carries exactly.
pub open spec fn endpoints_fit(v: Seq<EndpointModel>) -> bool {
    forall|i: int| 0 <= i < v.len() ==> host_fits((#[trigger] v[i]).host)
}

// ---------------------------------------------------------------------------
// Decoding
// ---------------------------------------------------------------------------

/// Read a host of a given kind.
pub open spec fn read_host_of_kind(kind: u8, s: Seq<u8>) -> Parse<HostModel> {
    if kind == HOST_V4 {
        match read_bytes(s, 4, "IPv4 address"@) {
            (Ok(a), t) => (Ok(HostModel::V4(a)), t),
            (Err(e), t) => (Err(e), t),
        }
    } else if kind == HOST_V6 {
        match read_bytes(s, 16, "IPv6 address"@) {
            (Ok(a), t) => (Ok(HostModel::V6(a)), t),
            (Err(e), t) => (Err(e), t),
        }
    } else if kind == HOST_NAME {
        match read_short_string(s, "host name"@) {
            (Ok(n), t) => if n.len() == 0 {
                (Err(ErrorModel::Record("empty host name"@)), t)
            } else {
                (Ok(HostModel::Name(n)), t)
            },
            (Err(e), t) => (Err(e), t),
        }
    } else {
        (Err(ErrorModel::Record("unknown host type "@ + hex_prefixed(kind as nat))), s)
    }
}

/// Read a host.
pub open spec fn read_host(s: Seq<u8>) -> Parse<HostModel> {
    match read_u8(s, "endpoint host type"@) {
        (Ok(kind), t) => read_host_of_kind(kind, t),
        (Err(e), t) => (Err(e), t),
    }
}

/// Read an endpoint.
#[verifier::opaque]
pub open spec fn read_endpoint(s: Seq<u8>) -> Parse<EndpointModel> {
    match read_u16(s, "endpoint priority"@) {
        (Err(e), t) => (Err(e), t),
        (Ok(priority), t) => match read_u16(t, "endpoint weight"@) {
            (Err(e), t) => (Err(e), t),
            (Ok(weight), t) => match read_u16(t, "endpoint port"@) {
                (Err(e), t) => (Err(e), t),
                (Ok(port), t) => match read_host(t) {
                    (Err(e), t) => (Err(e), t),
                    (Ok(host), t) => (Ok(EndpointModel { host, port, priority, weight }), t),
                },
            },
        },
    }
}

/// Read `n` endpoints, one after another.
pub open spec fn read_endpoints(s: Seq<u8>, n: nat) -> Parse<Seq<EndpointModel>>
    decreases n,
{
    if n == 0 {
        (Ok(seq![]), s)
    } else {
        match read_endpoints(s, (n - 1) as nat) {
            (Err(e), t) => (Err(e), t),
            (Ok(v), t) => match read_endpoint(t) {
                (Err(e), t) => (Err(e), t),
                (Ok(ep), t) => (Ok(v.push(ep)), t),
            },
        }
    }
}

/// A read that fails early fails the same way however many were wanted.
proof fn read_endpoints_stuck(s: Seq<u8>, k: nat, n: nat)
    requires
        k <= n,
        read_endpoints(s, k).0 is Err,
    ensures
        read_endpoints(s, n) == read_endpoints(s, k),
    decreases n,
{
    if k < n {
        read_endpoints_stuck(s, k, (n - 1) as nat);
    }
}

impl Host {
    pub fn is_ipv6(&self) -> (b: bool)
        ensures
            b == (self@ is V6),
    {
        match self {
            Host::V6(_) => true,
            _ => false,
        }
    }

    fn decode_from(r: &mut Reader<'_>) -> (out: Result<Host>)
        ensures
            (outcome(out), final(r)@) == read_host(old(r)@),
    {
        let kind: u8 = r.u8("endpoint host type")?;
        if kind == HOST_V4 {
            Ok(Host::V4(r.array::<4>("IPv4 address")?))
        } else if kind == HOST_V6 {
            Ok(Host::V6(r.array::<16>("IPv6 address")?))
        } else if kind == HOST_NAME {
            let name = r.short_string("host name")?;
            if name.as_str().is_empty() {
                return Err(Error::Record(String::from_str("empty host name")));
            }
            Ok(Host::Name(name))
        } else {
            let mut m = String::from_str("unknown host type ");
            push_hex_prefixed(&mut m, kind as u64);
            Err(Error::Record(m))
        }
    }
}

impl Endpoint {
    pub fn new(host: Host, port: u16) -> (e: Self)
        ensures
            e@ == (EndpointModel { host: host@, port, priority: 0, weight: 1 }),
    {
        Endpoint { host, port, priority: 0, weight: 1 }
    }

    pub fn with_priority(self, priority: u16) -> (e: Self)
        ensures
            e@ == (EndpointModel { priority, ..self@ }),
    {
        Endpoint { host: self.host, port: self.port, priority, weight: self.weight }
    }

    pub fn with_weight(self, weight: u16) -> (e: Self)
        ensures
            e@ == (EndpointModel { weight, ..self@ }),
    {
        Endpoint { host: self.host, port: self.port, priority: self.priority, weight }
    }

    pub(crate) fn encode_into(&self, buf: &mut Vec<u8>)
        ensures
            final(buf)@ == old(buf)@ + endpoint_bytes(self@),
    {
        let ghost before = buf@;
        put_u16(buf, self.priority);
        put_u16(buf, self.weight);
        put_u16(buf, self.port);
        match &self.host {
            Host::V4(a) => {
                put_u8(buf, HOST_V4);
                put_bytes(buf, a);
            },
            Host::V6(a) => {
                put_u8(buf, HOST_V6);
                put_bytes(buf, a);
            },
            Host::Name(n) => {
                put_u8(buf, HOST_NAME);
                put_short_string(buf, n.as_str());
            },
        }
        assert(buf@ =~= before + endpoint_bytes(self@));
    }

    pub(crate) fn decode_from(r: &mut Reader<'_>) -> (out: Result<Self>)
        ensures
            (outcome(out), final(r)@) == read_endpoint(old(r)@),
    {
        proof {
            reveal(read_endpoint);
        }
        let priority: u16 = r.u16("endpoint priority")?;
        let weight: u16 = r.u16("endpoint weight")?;
        let port: u16 = r.u16("endpoint port")?;
        let host = Host::decode_from(r)?;
        Ok(Endpoint { host, port, priority, weight })
    }
}

/// Append endpoints, one after another.
pub(crate) fn encode_endpoints(v: &[Endpoint], buf: &mut Vec<u8>)
    ensures
        final(buf)@ == old(buf)@ + endpoints_bytes(endpoint_models(v@)),
{
    let ghost before = buf@;
    let mut i: usize = 0;
    proof {
        assert(before + endpoints_bytes(endpoint_models(v@).subrange(0, 0)) =~= before);
    }
    while i < v.len()
        invariant
            i <= v@.len(),
            buf@ == before + endpoints_bytes(endpoint_models(v@).subrange(0, i as int)),
        decreases v@.len() - i,
    {
        v[i].encode_into(buf);
        proof {
            let done = endpoint_models(v@).subrange(0, i + 1);
            assert(done.drop_last() =~= endpoint_models(v@).subrange(0, i as int));
            assert(done.last() == v@[i as int]@);
            assert(buf@ =~= before + endpoints_bytes(done));
        }
        i += 1;
    }
    proof {
        assert(endpoint_models(v@).subrange(0, i as int) =~= endpoint_models(v@));
    }
}

/// Read `n` endpoints, one after another.
pub(crate) fn decode_endpoints(n: usize, r: &mut Reader<'_>) -> (out: Result<Vec<Endpoint>>)
    ensures
        match out {
            Ok(v) => read_endpoints(old(r)@, n as nat) == (
                Ok::<Seq<EndpointModel>, ErrorModel>(endpoint_models(v@)),
                final(r)@,
            ),
            Err(e) => read_endpoints(old(r)@, n as nat) == (
                Err::<Seq<EndpointModel>, ErrorModel>(e@),
                final(r)@,
            ),
        },
{
    let ghost start = r@;
    let mut v: Vec<Endpoint> = Vec::new();
    let mut i: usize = 0;
    proof {
        assert(endpoint_models(v@) =~= seq![]);
    }
    while i < n
        invariant
            i <= n,
            v@.len() == i,
            start == old(r)@,
            read_endpoints(start, i as nat) == (
                Ok::<Seq<EndpointModel>, ErrorModel>(endpoint_models(v@)),
                r@,
            ),
        decreases n - i,
    {
        match Endpoint::decode_from(r) {
            Ok(ep) => {
                let ghost before = endpoint_models(v@);
                v.push(ep);
                proof {
                    assert(endpoint_models(v@) =~= before.push(ep@));
                }
            },
            Err(e) => {
                proof {
                    read_endpoints_stuck(start, (i + 1) as nat, n as nat);
                }
                return Err(e);
            },
        }
        i += 1;
    }
    Ok(v)
}

// ---------------------------------------------------------------------------
// What a read gives back of a write, and the other way round
// ---------------------------------------------------------------------------

/// A host that fits reads back as itself.
pub proof fn host_read_back(h: HostModel, tail: Seq<u8>)
    requires
        host_fits(h),
    ensures
        read_host(host_bytes(h) + tail) == (Ok::<HostModel, ErrorModel>(h), tail),
{
    match h {
        HostModel::V4(a) => {
            assert(host_bytes(h) + tail =~= seq![HOST_V4] + (a + tail));
            u8_read_back(HOST_V4, a + tail, "endpoint host type"@);
            bytes_read_back(a, tail, "IPv4 address"@);
        },
        HostModel::V6(a) => {
            assert(host_bytes(h) + tail =~= seq![HOST_V6] + (a + tail));
            u8_read_back(HOST_V6, a + tail, "endpoint host type"@);
            bytes_read_back(a, tail, "IPv6 address"@);
        },
        HostModel::Name(n) => {
            let b = short_string_bytes(n);
            assert(host_bytes(h) + tail =~= seq![HOST_NAME] + (b + tail));
            u8_read_back(HOST_NAME, b + tail, "endpoint host type"@);
            short_string_read_back(n, tail, "host name"@);
        },
    }
}

/// An endpoint that fits reads back as itself.
pub proof fn endpoint_read_back(e: EndpointModel, tail: Seq<u8>)
    requires
        host_fits(e.host),
    ensures
        read_endpoint(endpoint_bytes(e) + tail) == (Ok::<EndpointModel, ErrorModel>(e), tail),
{
    reveal(read_endpoint);
    let h = host_bytes(e.host) + tail;
    let p = be16(e.port) + h;
    let w = be16(e.weight) + p;
    join_assoc(be16(e.priority) + be16(e.weight) + be16(e.port), host_bytes(e.host), tail);
    join_assoc(be16(e.priority) + be16(e.weight), be16(e.port), h);
    join_assoc(be16(e.priority), be16(e.weight), p);
    u16_read_back(e.priority, w, "endpoint priority"@);
    u16_read_back(e.weight, p, "endpoint weight"@);
    u16_read_back(e.port, h, "endpoint port"@);
    host_read_back(e.host, tail);
}

/// Endpoints that fit read back as themselves.
pub proof fn endpoints_read_back(v: Seq<EndpointModel>, tail: Seq<u8>)
    requires
        endpoints_fit(v),
    ensures
        read_endpoints(endpoints_bytes(v) + tail, v.len()) == (
            Ok::<Seq<EndpointModel>, ErrorModel>(v),
            tail,
        ),
    decreases v.len(),
{
    if v.len() == 0 {
        assert(endpoints_bytes(v) + tail =~= tail);
        assert(v =~= seq![]);
    } else {
        let e = endpoint_bytes(v.last()) + tail;
        endpoints_read_back(v.drop_last(), e);
        assert(endpoints_bytes(v) + tail =~= endpoints_bytes(v.drop_last()) + e);
        endpoint_read_back(v.last(), tail);
        assert(v =~= v.drop_last().push(v.last()));
    }
}

/// A successful read of a host consumed exactly its encoding.
pub proof fn host_was_there(s: Seq<u8>)
    ensures
        read_host(s) matches (Ok(h), t) ==> s == host_bytes(h) + t && host_fits(h),
{
    if let (Ok(h), t) = read_host(s) {
        u8_was_there(s, "endpoint host type"@);
        let (kind, u) = (read_u8(s, "endpoint host type"@).0->Ok_0, read_u8(
            s,
            "endpoint host type"@,
        ).1);
        bytes_were_there(u, 4, "IPv4 address"@);
        bytes_were_there(u, 16, "IPv6 address"@);
        short_string_was_there(u, "host name"@);
        assert(s =~= host_bytes(h) + t);
    }
}

/// A successful read of an endpoint consumed exactly its encoding.
pub proof fn endpoint_was_there(s: Seq<u8>)
    ensures
        read_endpoint(s) matches (Ok(e), t) ==> s == endpoint_bytes(e) + t && host_fits(e.host),
{
    reveal(read_endpoint);
    if let (Ok(e), t) = read_endpoint(s) {
        u16_was_there(s, "endpoint priority"@);
        let s1 = read_u16(s, "endpoint priority"@).1;
        u16_was_there(s1, "endpoint weight"@);
        let s2 = read_u16(s1, "endpoint weight"@).1;
        u16_was_there(s2, "endpoint port"@);
        let s3 = read_u16(s2, "endpoint port"@).1;
        host_was_there(s3);
        let (p, w, q, h) = (be16(e.priority), be16(e.weight), be16(e.port), host_bytes(e.host));
        join_assoc(p + w + q, h, t);
        join_assoc(p + w, q, h + t);
        join_assoc(p, w, q + (h + t));
    }
}

/// A successful read of endpoints consumed exactly their encoding.
pub proof fn endpoints_were_there(s: Seq<u8>, n: nat)
    ensures
        read_endpoints(s, n) matches (Ok(v), t) ==> s == endpoints_bytes(v) + t && v.len() == n
            && endpoints_fit(v),
    decreases n,
{
    if n == 0 {
        assert(s =~= endpoints_bytes(seq![]) + s);
    } else {
        endpoints_were_there(s, (n - 1) as nat);
        if let (Ok(v), t) = read_endpoints(s, (n - 1) as nat) {
            endpoint_was_there(t);
            if let (Ok(e), u) = read_endpoint(t) {
                let w = v.push(e);
                assert(w.drop_last() =~= v);
                assert(s =~= endpoints_bytes(w) + u);
            }
        }
    }
}

} // verus!
