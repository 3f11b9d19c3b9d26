//! Hosts and endpoints as text.

use vstd::prelude::*;
use vstd::string::*;
use vstd::utf8::*;

use crate::addr::{authority_parsed, port_parsed, split_authority};
use crate::endpoint::{Endpoint, EndpointModel, Host, HostModel};
use crate::error::{Error, ErrorModel, Result, error_text, join2, join3, join4, outcome};
use crate::ip_laws::{
    ipv4_is_digits_and_dots, ipv4_reads_back, ipv6_reads_back, is_ipv4_char, is_ipv6_char, lacks,
    split_of_whole,
};
use crate::ip::{
    IpAddr, ipv4_text, ipv6_text, parse_ipv4, parse_ipv6, read_ipv4, read_ipv6, write_ipv4,
    write_ipv6,
};
use crate::text::{
    char_is_space, chars_of, dec, dec_reads_back, dec_value, first_is_find, is_space, parse_number,
    push_dec, read_number, same_text, split, split_all, split_at_first, split_once, text_between,
    texts, trim, trim_of_tight, trimmed,
};

verus! {

/// A host as text, IPv6 bracketed.
pub open spec fn host_text(h: HostModel) -> Seq<char> {
    match h {
        HostModel::V4(a) => ipv4_text(a),
        HostModel::V6(a) => "["@ + ipv6_text(a) + "]"@,
        HostModel::Name(n) => n,
    }
}

/// A character no host name may hold.
pub open spec fn bad_in_host(c: char) -> bool {
    is_space(c) || c == '/' || c == ':'
}

/// A host name out of trimmed text.
pub open spec fn name_parsed(t: Seq<char>) -> std::result::Result<HostModel, ErrorModel> {
    if t.len() == 0 || encode_utf8(t).len() > 255 {
        Err(
            ErrorModel::Record(
                "host name must be 1..=255 bytes, got "@ + dec(encode_utf8(t).len()),
            ),
        )
    } else if exists|i: int| 0 <= i < t.len() && bad_in_host(#[trigger] t[i]) {
        Err(ErrorModel::Record("invalid host name '"@ + t + "'"@))
    } else {
        Ok(HostModel::Name(t))
    }
}

/// A host out of its text.
pub open spec fn host_parsed(s: Seq<char>) -> std::result::Result<HostModel, ErrorModel> {
    let t = trim(s);
    if t.len() >= 2 && t[0] == '[' && t.last() == ']' {
        let inner = t.subrange(1, t.len() - 1);
        match parse_ipv6(inner) {
            Some(a) => Ok(HostModel::V6(a)),
            None => Err(
                ErrorModel::Record(
                    "bad IPv6 literal '"@ + inner + "': invalid IPv6 address syntax"@,
                ),
            ),
        }
    } else if let Some(a) = parse_ipv4(t) {
        Ok(HostModel::V4(a))
    } else if let Some(a) = parse_ipv6(t) {
        Ok(HostModel::V6(a))
    } else {
        name_parsed(t)
    }
}

fn name_is_bad(v: &Vec<char>) -> (b: bool)
    ensures
        b == (exists|i: int| 0 <= i < v@.len() && bad_in_host(#[trigger] v@[i])),
{
    let mut i: usize = 0;
    while i < v.len()
        invariant
            i <= v@.len(),
            forall|j: int| 0 <= j < i ==> !bad_in_host(#[trigger] v@[j]),
        decreases v@.len() - i,
    {
        if char_is_space(v[i]) || v[i] == '/' || v[i] == ':' {
            assert(bad_in_host(v@[i as int]));
            return true;
        }
        i += 1;
    }
    false
}

/// The address of a host that has one.
pub open spec fn ip_of(h: Host) -> Option<IpAddr> {
    match h {
        Host::V4(a) => Some(IpAddr::V4(a)),
        Host::V6(a) => Some(IpAddr::V6(a)),
        Host::Name(_) => None,
    }
}

/// A host that is an address.
pub open spec fn host_of(ip: IpAddr) -> Host {
    match ip {
        IpAddr::V4(a) => Host::V4(a),
        IpAddr::V6(a) => Host::V6(a),
    }
}

impl From<IpAddr> for Host {
    fn from(ip: IpAddr) -> (h: Self) {
        match ip {
            IpAddr::V4(a) => Host::V4(a),
            IpAddr::V6(a) => Host::V6(a),
        }
    }
}

impl vstd::std_specs::convert::FromSpecImpl<IpAddr> for Host {
    open spec fn obeys_from_spec() -> bool {
        true
    }

    open spec fn from_spec(ip: IpAddr) -> Self {
        host_of(ip)
    }
}

impl Host {
    /// The address of this host, if it has one.
    pub fn ip(&self) -> (ip: Option<IpAddr>)
        ensures
            ip == ip_of(*self),
    {
        match self {
            Host::V4(a) => Some(IpAddr::V4(*a)),
            Host::V6(a) => Some(IpAddr::V6(*a)),
            Host::Name(_) => None,
        }
    }

    /// This host as text, IPv6 bracketed.
    pub fn to_string(&self) -> (out: String)
        ensures
            out@ == host_text(self@),
    {
        match self {
            Host::V4(a) => write_ipv4(a),
            Host::V6(a) => join3("[", write_ipv6(a).as_str(), "]"),
            Host::Name(n) => n.clone(),
        }
    }

    /// Read a host: an address, a bracketed IPv6 address, or a name.
    pub fn from_str(s: &str) -> (r: Result<Self>)
        ensures
            outcome(r) == host_parsed(s@),
    {
        let t = trimmed(s);
        let v = chars_of(t.as_str());
        let n: usize = v.len();
        if n >= 2 && v[0] == '[' && v[n - 1] == ']' {
            let inner = text_between(&v, 1, n - 1);
            return match read_ipv6(inner.as_str()) {
                Some(a) => Ok(Host::V6(a)),
                None => Err(
                    Error::Record(
                        join3(
                            "bad IPv6 literal '",
                            inner.as_str(),
                            "': invalid IPv6 address syntax",
                        ),
                    ),
                ),
            };
        }
        if let Some(a) = read_ipv4(t.as_str()) {
            return Ok(Host::V4(a));
        }
        if let Some(a) = read_ipv6(t.as_str()) {
            return Ok(Host::V6(a));
        }
        let len: usize = t.as_str().as_bytes().len();
        if n == 0 || len > 255 {
            let mut m = String::from_str("host name must be 1..=255 bytes, got ");
            push_dec(&mut m, len as u64);
            return Err(Error::Record(m));
        }
        if name_is_bad(&v) {
            return Err(Error::Record(join3("invalid host name '", t.as_str(), "'")));
        }
        Ok(Host::Name(t))
    }
}

/// `host:port` with IPv6 bracketed.
pub open spec fn endpoint_authority(e: EndpointModel) -> Seq<char> {
    host_text(e.host) + ":"@ + dec(e.port as nat)
}

/// An endpoint as text.
pub open spec fn endpoint_text(e: EndpointModel) -> Seq<char> {
    endpoint_authority(e) + " priority="@ + dec(e.priority as nat) + " weight="@ + dec(
        e.weight as nat,
    )
}

/// An endpoint with one option applied to it.
pub open spec fn option_applied(e: EndpointModel, part: Seq<char>) -> std::result::Result<
    EndpointModel,
    ErrorModel,
> {
    let opt = trim(part);
    if opt.len() == 0 {
        Ok(e)
    } else {
        match split_once(opt, '=') {
            None => Err(ErrorModel::Record("expected key=value, got '"@ + opt + "'"@)),
            Some((name, value)) => match parse_number(trim(value), 65535) {
                None => Err(ErrorModel::Record("'"@ + value + "' is not a 0..=65535 value"@)),
                Some(n) => {
                    let name = trim(name);
                    if name == "priority"@ || name == "prio"@ || name == "p"@ {
                        Ok(EndpointModel { priority: n as u16, ..e })
                    } else if name == "weight"@ || name == "w"@ {
                        Ok(EndpointModel { weight: n as u16, ..e })
                    } else {
                        Err(
                            ErrorModel::Record(
                                "unknown endpoint option '"@ + name
                                    + "' (want priority= or weight=)"@,
                            ),
                        )
                    }
                },
            },
        }
    }
}

/// An endpoint with options applied to it in turn, up to the first that fails.
pub open spec fn options_applied(e: EndpointModel, parts: Seq<Seq<char>>) -> std::result::Result<
    EndpointModel,
    ErrorModel,
>
    decreases parts.len(),
{
    if parts.len() == 0 {
        Ok(e)
    } else {
        match options_applied(e, parts.drop_last()) {
            Err(x) => Err(x),
            Ok(e) => option_applied(e, parts.last()),
        }
    }
}

/// An endpoint out of its text: `host:port[,priority=N][,weight=N]`.
pub open spec fn endpoint_parsed(s: Seq<char>) -> std::result::Result<EndpointModel, ErrorModel> {
    let parts = split(s, ',');
    match authority_parsed(trim(parts[0])) {
        Err(e) => Err(ErrorModel::Record("bad endpoint '"@ + s + "': "@ + error_text(e))),
        Ok((host, port)) => match host_parsed(host) {
            Err(e) => Err(e),
            Ok(host) => options_applied(
                EndpointModel { host, port, priority: 0, weight: 1 },
                parts.subrange(1, parts.len() as int),
            ),
        },
    }
}

/// Options after one that fails do not matter.
proof fn options_stuck(e: EndpointModel, parts: Seq<Seq<char>>, k: int)
    requires
        0 <= k <= parts.len(),
        options_applied(e, parts.subrange(0, k)) is Err,
    ensures
        options_applied(e, parts) == options_applied(e, parts.subrange(0, k)),
    decreases parts.len(),
{
    if k < parts.len() {
        assert(parts.drop_last().subrange(0, k) =~= parts.subrange(0, k));
        options_stuck(e, parts.drop_last(), k);
    } else {
        assert(parts.subrange(0, k) =~= parts);
    }
}

impl Endpoint {
    /// `host:port` with IPv6 bracketed: suitable for a socket lookup.
    pub fn authority(&self) -> (out: String)
        ensures
            out@ == endpoint_authority(self@),
    {
        let mut out = join2(self.host.to_string().as_str(), ":");
        push_dec(&mut out, self.port as u64);
        out
    }

    /// This endpoint with its priority and weight.
    pub fn to_string(&self) -> (out: String)
        ensures
            out@ == endpoint_text(self@),
    {
        let mut out = self.authority();
        out.append(" priority=");
        push_dec(&mut out, self.priority as u64);
        out.append(" weight=");
        push_dec(&mut out, self.weight as u64);
        out
    }

    fn apply_option(self, part: &str) -> (r: Result<Self>)
        ensures
            outcome(r) == option_applied(self@, part@),
    {
        let opt = trimmed(part);
        if opt.as_str().is_empty() {
            return Ok(self);
        }
        match split_at_first(opt.as_str(), '=') {
            None => Err(
                Error::Record(join3("expected key=value, got '", opt.as_str(), "'")),
            ),
            Some((name, value)) => match read_number(trimmed(value.as_str()).as_str(), 65535) {
                None => Err(
                    Error::Record(join3("'", value.as_str(), "' is not a 0..=65535 value")),
                ),
                Some(n) => {
                    let name = trimmed(name.as_str());
                    if same_text(name.as_str(), "priority") || same_text(name.as_str(), "prio")
                        || same_text(name.as_str(), "p") {
                        Ok(self.with_priority(n as u16))
                    } else if same_text(name.as_str(), "weight") || same_text(name.as_str(), "w") {
                        Ok(self.with_weight(n as u16))
                    } else {
                        Err(
                            Error::Record(
                                join3(
                                    "unknown endpoint option '",
                                    name.as_str(),
                                    "' (want priority= or weight=)",
                                ),
                            ),
                        )
                    }
                },
            },
        }
    }

    /// `host:port[,priority=N][,weight=N]`, e.g.
    /// `203.0.113.7:5300,priority=10,weight=5` or `[2001:db8::1]:5300`.
    pub fn from_str(s: &str) -> (r: Result<Self>)
        ensures
            outcome(r) == endpoint_parsed(s@),
    {
        let parts = split_all(s, ',');
        let ghost all = texts(parts@);
        let ghost opts = all.subrange(1, all.len() as int);
        proof {
            assert(all[0] == parts@[0]@);
        }
        let authority = trimmed(parts[0].as_str());
        let (host, port) = match split_authority(authority.as_str()) {
            Ok(hp) => hp,
            Err(e) => {
                return Err(
                    Error::Record(join4("bad endpoint '", s, "': ", e.to_string().as_str())),
                );
            },
        };
        let mut ep = Endpoint::new(Host::from_str(host.as_str())?, port);
        let ghost start = ep@;
        let mut i: usize = 1;
        proof {
            assert(opts.subrange(0, 0) =~= seq![]);
        }
        while i < parts.len()
            invariant
                1 <= i <= parts@.len(),
                all == texts(parts@),
                all == split(s@, ','),
                opts == all.subrange(1, all.len() as int),
                options_applied(start, opts.subrange(0, i - 1)) == Ok::<EndpointModel, ErrorModel>(
                    ep@,
                ),
                endpoint_parsed(s@) == options_applied(start, opts),
            decreases parts@.len() - i,
        {
            proof {
                let done = opts.subrange(0, i as int);
                assert(done.drop_last() =~= opts.subrange(0, i - 1));
                assert(done.last() == parts@[i as int]@);
            }
            match ep.apply_option(parts[i].as_str()) {
                Ok(next) => {
                    ep = next;
                },
                Err(e) => {
                    proof {
                        options_stuck(start, opts, i as int);
                    }
                    return Err(e);
                },
            }
            i += 1;
        }
        proof {
            assert(opts.subrange(0, i - 1) =~= opts);
        }
        Ok(ep)
    }
}

// ---------------------------------------------------------------------------
// Laws
// ---------------------------------------------------------------------------

/// A host that reads back from its text: an address of the right length, or a
/// name that is read as that name.
pub open spec fn host_readable(h: HostModel) -> bool {
    match h {
        HostModel::V4(a) => a.len() == 4,
        HostModel::V6(a) => a.len() == 16,
        HostModel::Name(n) => host_parsed(n) == Ok::<HostModel, ErrorModel>(h),
    }
}

/// An IPv6 address reads as a host without its brackets too.
proof fn bare_ipv6_reads_back(a: Seq<u8>)
    requires
        a.len() == 16,
    ensures
        host_parsed(ipv6_text(a)) == Ok::<HostModel, ErrorModel>(HostModel::V6(a)),
        lacks(ipv6_text(a), ']'),
        lacks(ipv6_text(a), ','),
{
    let s = ipv6_text(a);
    ipv6_reads_back(a);
    assert forall|i: int| 0 <= i < s.len() implies !is_space(#[trigger] s[i]) && s[i] != ']'
        && s[i] != '[' && s[i] != ',' by {
        assert(is_ipv6_char(s[i]));
    }
    trim_of_tight(s);
    let i = choose|i: int| 0 <= i < s.len() && #[trigger] s[i] == ':';
    ipv4_is_digits_and_dots(s, i);
}

/// A host reads back from its text.
pub proof fn host_reads_back(h: HostModel)
    requires
        host_readable(h),
    ensures
        host_parsed(host_text(h)) == Ok::<HostModel, ErrorModel>(h),
{
    match h {
        HostModel::V4(a) => {
            let s = ipv4_text(a);
            ipv4_reads_back(a);
            assert(is_ipv4_char(s[0]) && is_ipv4_char(s.last()));
            trim_of_tight(s);
        },
        HostModel::V6(a) => {
            let s = host_text(h);
            reveal_strlit("[");
            reveal_strlit("]");
            ipv6_reads_back(a);
            assert(s[0] == '[' && s.last() == ']');
            trim_of_tight(s);
            assert(s.subrange(1, s.len() - 1) =~= ipv6_text(a));
        },
        HostModel::Name(_) => {},
    }
}

/// A port in digits, as it stands at the end of an authority.
proof fn port_digits(port: u16)
    ensures
        ({
            let d = dec(port as nat);
            &&& d.len() > 0
            &&& !d.contains(':')
            &&& lacks(d, ',')
            &&& !is_space(d.last())
            &&& port_parsed(d) == Ok::<u16, ErrorModel>(port)
        }),
{
    let d = dec(port as nat);
    dec_reads_back(port as nat);
    assert(parse_number(d, 65535) == Some(port as nat));
    assert forall|i: int| 0 <= i < d.len() implies #[trigger] d[i] != ',' && d[i] != ':'
        && !is_space(d[i]) by {
        assert(dec_value(d[i]) is Some);
    }
}

/// A bracketed address and a port are told apart.
proof fn bracketed_authority(t: Seq<char>, port: u16)
    requires
        lacks(t, ']'),
        lacks(t, ','),
    ensures
        ({
            let s = seq!['['] + t + seq![']'] + seq![':'] + dec(port as nat);
            &&& authority_parsed(s) == Ok::<(Seq<char>, u16), ErrorModel>((t, port))
            &&& lacks(s, ',')
        }),
{
    let d = dec(port as nat);
    let s = seq!['['] + t + seq![']'] + seq![':'] + d;
    port_digits(port);
    let inner = s.subrange(1, s.len() as int);
    let k = t.len() as int;
    assert(inner =~= t + seq![']'] + seq![':'] + d);
    assert forall|i: int| 0 <= i < k implies inner[i] != ']' by {
        assert(inner[i] == t[i]);
    }
    first_is_find(inner, ']', k);
    assert(inner.subrange(0, k) =~= t);
    let tail = inner.subrange(k + 1, inner.len() as int);
    assert(tail =~= seq![':'] + d);
    assert(tail.subrange(1, tail.len() as int) =~= d);
    assert forall|i: int| 0 <= i < s.len() implies #[trigger] s[i] != ',' by {
        if 1 <= i < k + 1 {
            assert(s[i] == t[i - 1]);
        } else if i >= k + 3 {
            assert(s[i] == d[i - k - 3]);
        }
    }
}

/// A host without colons and a port are told apart.
proof fn plain_authority(h: Seq<char>, port: u16)
    requires
        h.len() > 0,
        h[0] != '[',
        lacks(h, ':'),
        lacks(h, ','),
    ensures
        ({
            let s = h + seq![':'] + dec(port as nat);
            &&& authority_parsed(s) == Ok::<(Seq<char>, u16), ErrorModel>((h, port))
            &&& lacks(s, ',')
        }),
{
    let d = dec(port as nat);
    let s = h + seq![':'] + d;
    let k = h.len() as int;
    port_digits(port);
    assert forall|i: int| 0 <= i < k implies s[i] != ':' by {
        assert(s[i] == h[i]);
    }
    first_is_find(s, ':', k);
    assert(s.subrange(0, k) =~= h);
    assert(s.subrange(k + 1, s.len() as int) =~= d);
    assert(s[0] == h[0]);
    assert forall|i: int| 0 <= i < s.len() implies #[trigger] s[i] != ',' by {
        if i < k {
            assert(s[i] == h[i]);
        } else if i > k {
            assert(s[i] == d[i - k - 1]);
        }
    }
}

/// Where an endpoint is reads back from what is printed of it, as an endpoint
/// without options: a name must hold neither a comma nor a bracket in front.
pub proof fn endpoint_reads_back(e: EndpointModel)
    requires
        host_readable(e.host),
        e.host matches HostModel::Name(n) ==> lacks(n, ',') && n[0] != '[',
    ensures
        endpoint_parsed(endpoint_authority(e)) == Ok::<EndpointModel, ErrorModel>(
            EndpointModel { host: e.host, port: e.port, priority: 0, weight: 1 },
        ),
{
    let s = endpoint_authority(e);
    let h = host_text(e.host);
    let d = dec(e.port as nat);
    reveal_strlit(":");
    assert(":"@ =~= seq![':']);
    port_digits(e.port);
    match e.host {
        HostModel::V6(a) => {
            let t = ipv6_text(a);
            bare_ipv6_reads_back(a);
            reveal_strlit("[");
            reveal_strlit("]");
            assert(s =~= seq!['['] + t + seq![']'] + seq![':'] + d);
            bracketed_authority(t, e.port);
            assert(s[0] == '[');
        },
        HostModel::V4(a) => {
            host_reads_back(e.host);
            ipv4_reads_back(a);
            assert forall|i: int| 0 <= i < h.len() implies #[trigger] h[i] != ':' && h[i] != ','
                && h[i] != '[' && !is_space(h[i]) by {
                assert(is_ipv4_char(h[i]));
            }
            plain_authority(h, e.port);
            assert(s[0] == h[0]);
        },
        HostModel::Name(n) => {
            assert(trim(n) == n);
            assert forall|i: int| 0 <= i < h.len() implies !is_space(#[trigger] h[i]) && h[i]
                != ':' by {
                assert(!bad_in_host(h[i]));
            }
            plain_authority(h, e.port);
            assert(s[0] == h[0]);
        },
    }
    assert(s.last() == d.last());
    trim_of_tight(s);
    split_of_whole(s, ',');
    assert(split(s, ',').subrange(1, 1) =~= seq![]);
}

} // verus!
