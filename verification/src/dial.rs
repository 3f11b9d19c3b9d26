//! Finding the addresses of a server, and the order to try them in.
//!
//! An `sqns://` address promises its host was resolved through a validated
//! DNSSEC chain; an answer without a proof is not used. What this is not: the
//! thing that makes a connection safe. The server's key is in the address and
//! sQUIC pins it, so a forged answer leads to a host that cannot complete a
//! handshake. DNSSEC protects the pointer.

use vstd::prelude::*;
use vstd::string::*;

use crate::addr::{AddrModel, ServerAddr, addr_text, is_ip_text};
use crate::error::{Error, ErrorModel, Result, join2, join4};
use crate::ip::IpAddr;
use crate::text::{dec, join_all, joined, push_dec, texts};

verus! {

/// How long each candidate address gets before the next one is also tried, in
/// milliseconds.
///
/// The same idea as Happy Eyeballs (RFC 8305): enough of a head start that a
/// reachable address usually wins without a second connection being opened,
/// short enough that a dead one is not felt.
pub const HAPPY_EYEBALLS_DELAY: u64 = 250;

// ---------------------------------------------------------------------------
// Names
// ---------------------------------------------------------------------------

/// How the host of an address is to be resolved.
#[derive(Debug, Clone, Copy, PartialEq, Eq, Structural)]
pub enum ResolvePlan {
    /// As the operating system does it.
    System,
    /// As the operating system does it, although the address asks for more:
    /// the caller said so.
    SystemInsteadOfDnssec,
    /// Through a validated DNSSEC chain.
    Validated,
}

/// How the host of an address is to be resolved. `require_dnssec` is the
/// caller's policy; the address's scheme is what asks for validation in the
/// first place. An IP literal has no name, so there is nothing to validate.
pub open spec fn planned_resolution(a: AddrModel, require_dnssec: bool) -> ResolvePlan {
    if is_ip_text(a.host) || a.scheme is Sqc {
        ResolvePlan::System
    } else if !require_dnssec {
        ResolvePlan::SystemInsteadOfDnssec
    } else {
        ResolvePlan::Validated
    }
}

/// How the host of an address is to be resolved.
pub fn plan_resolution(addr: &ServerAddr, require_dnssec: bool) -> (p: ResolvePlan)
    ensures
        p == planned_resolution(addr@, require_dnssec),
{
    if addr.is_ip_literal() || !addr.scheme.requires_dnssec() {
        ResolvePlan::System
    } else if !require_dnssec {
        ResolvePlan::SystemInsteadOfDnssec
    } else {
        ResolvePlan::Validated
    }
}

/// One record of a DNS answer.
pub struct DnsAnswer {
    /// Whether it is an address record (A or AAAA).
    pub is_address: bool,
    /// Whether its DNSSEC proof is secure.
    pub secure: bool,
    /// The address in it.
    pub ip: Option<IpAddr>,
}

/// The addresses that come with a secure proof.
pub open spec fn proven(v: Seq<DnsAnswer>) -> Seq<IpAddr>
    decreases v.len(),
{
    if v.len() == 0 {
        seq![]
    } else {
        let a = v.last();
        if a.is_address && a.secure && a.ip is Some {
            proven(v.drop_last()).push(a.ip->0)
        } else {
            proven(v.drop_last())
        }
    }
}

/// How many address records come without a secure proof.
pub open spec fn unproven(v: Seq<DnsAnswer>) -> nat
    decreases v.len(),
{
    if v.len() == 0 {
        0
    } else {
        unproven(v.drop_last()) + if v.last().is_address && !v.last().secure {
            1nat
        } else {
            0
        }
    }
}

/// The addresses a validated answer gives: only proven ones, and at least one.
/// An unsigned zone is a perfectly valid DNSSEC outcome, so it is refused
/// explicitly.
pub open spec fn validated_addresses(host: Seq<char>, v: Seq<DnsAnswer>) -> std::result::Result<
    Seq<IpAddr>,
    ErrorModel,
> {
    if proven(v).len() > 0 {
        Ok(proven(v))
    } else if unproven(v) > 0 {
        Err(
            ErrorModel::Address(
                host + " resolved, but the answer is not signed (DNSSEC proof was not Secure for "@
                    + dec(unproven(v))
                    + " record(s)). An sqns:// address requires a signed zone: use sqc:// instead, or allow insecure DNS."@,
            ),
        )
    } else {
        Err(ErrorModel::Address(host + " resolved to no addresses"@))
    }
}

/// The addresses a validated answer gives, refusing anything that is not
/// provably signed.
pub fn take_validated(host: &str, answers: &Vec<DnsAnswer>) -> (r: Result<Vec<IpAddr>>)
    ensures
        match r {
            Ok(v) => validated_addresses(host@, answers@) == Ok::<Seq<IpAddr>, ErrorModel>(v@),
            Err(e) => validated_addresses(host@, answers@) == Err::<Seq<IpAddr>, ErrorModel>(e@),
        },
{
    let mut out: Vec<IpAddr> = Vec::new();
    let mut missing: u64 = 0;
    let mut i: usize = 0;
    proof {
        assert(answers@.subrange(0, 0) =~= seq![]);
        assert(out@ =~= seq![]);
    }
    while i < answers.len()
        invariant
            i <= answers@.len(),
            out@ == proven(answers@.subrange(0, i as int)),
            missing == unproven(answers@.subrange(0, i as int)),
            missing <= i,
        decreases answers@.len() - i,
    {
        proof {
            let done = answers@.subrange(0, i + 1);
            assert(done.drop_last() =~= answers@.subrange(0, i as int));
            assert(done.last() == answers@[i as int]);
        }
        let a = &answers[i];
        if a.is_address {
            if !a.secure {
                missing = missing + 1;
            } else if let Some(ip) = a.ip {
                out.push(ip);
            }
        }
        i += 1;
    }
    proof {
        assert(answers@.subrange(0, i as int) =~= answers@);
    }
    if out.len() > 0 {
        return Ok(out);
    }
    let mut m = String::from_str(host);
    if missing > 0 {
        m.append(" resolved, but the answer is not signed (DNSSEC proof was not Secure for ");
        push_dec(&mut m, missing);
        m.append(
            " record(s)). An sqns:// address requires a signed zone: use sqc:// instead, or allow insecure DNS.",
        );
    } else {
        m.append(" resolved to no addresses");
    }
    Err(Error::Address(m))
}

/// Nothing that lacks a proof is ever used.
pub proof fn unproven_answers_are_never_used(host: Seq<char>, v: Seq<DnsAnswer>, ip: IpAddr)
    requires
        validated_addresses(host, v) matches Ok(used) && used.contains(ip),
    ensures
        exists|i: int| 0 <= i < v.len() && (#[trigger] v[i]).is_address && v[i].secure && v[i].ip
            == Some(ip),
{
    proven_comes_from(v, ip);
}

proof fn proven_comes_from(v: Seq<DnsAnswer>, ip: IpAddr)
    requires
        proven(v).contains(ip),
    ensures
        exists|i: int| 0 <= i < v.len() && (#[trigger] v[i]).is_address && v[i].secure && v[i].ip
            == Some(ip),
    decreases v.len(),
{
    if v.len() > 0 {
        let t = v.drop_last();
        let a = v.last();
        if proven(t).contains(ip) {
            proven_comes_from(t, ip);
            let i = choose|i: int|
                0 <= i < t.len() && (#[trigger] t[i]).is_address && t[i].secure && t[i].ip == Some(
                    ip,
                );
            assert(v[i] == t[i]);
        } else {
            let p = proven(v);
            let j = choose|j: int| 0 <= j < p.len() && p[j] == ip;
            if j < proven(t).len() {
                assert(proven(t)[j] == ip);
            }
            assert(v[v.len() - 1] == a);
        }
    }
}

// ---------------------------------------------------------------------------
// Attempts
// ---------------------------------------------------------------------------

/// One attempt to connect.
#[derive(Debug, Clone, Copy, PartialEq, Eq, Structural)]
pub struct DialAttempt {
    /// Which of the addresses.
    pub index: usize,
    /// When to start, in milliseconds after the first.
    pub delay_ms: u64,
}

/// The positions that are marked, in order.
pub open spec fn marked(v: Seq<bool>) -> Seq<int>
    decreases v.len(),
{
    if v.len() == 0 {
        seq![]
    } else if v.last() {
        marked(v.drop_last()).push(v.len() - 1)
    } else {
        marked(v.drop_last())
    }
}

/// The addresses to try: those with a route, or all of them if the check rules
/// everything out.
pub open spec fn candidates(routable: Seq<bool>) -> Seq<int> {
    if marked(routable).len() > 0 {
        marked(routable)
    } else {
        Seq::new(routable.len(), |i: int| i)
    }
}

/// The head start of the `i`-th attempt's predecessors.
pub open spec fn stagger(i: int) -> u64 {
    if i * HAPPY_EYEBALLS_DELAY > u64::MAX {
        u64::MAX
    } else {
        (i * HAPPY_EYEBALLS_DELAY) as u64
    }
}

/// Which addresses to try, and when: `routable` says of each address whether
/// this host has a route to it.
///
/// Addresses without a route are left out rather than failing noisily. If the
/// check rules everything out it is more likely wrong than the network is, so
/// all of them are tried. Attempts race: each gets a small head start over the
/// next, so a working address answers in its own time and a dead one costs
/// almost nothing.
pub fn plan_dial(routable: &Vec<bool>) -> (plan: Vec<DialAttempt>)
    ensures
        plan@.len() == candidates(routable@).len(),
        forall|i: int|
            0 <= i < plan@.len() ==> (#[trigger] plan@[i]).index == candidates(routable@)[i]
                && plan@[i].delay_ms == stagger(i),
{
    let mut plan: Vec<DialAttempt> = Vec::new();
    let mut delay_ms: u64 = 0;
    let mut i: usize = 0;
    proof {
        assert(routable@.subrange(0, 0) =~= seq![]);
    }
    while i < routable.len()
        invariant
            i <= routable@.len(),
            plan@.len() == marked(routable@.subrange(0, i as int)).len(),
            forall|j: int|
                0 <= j < plan@.len() ==> (#[trigger] plan@[j]).index == marked(
                    routable@.subrange(0, i as int),
                )[j] && plan@[j].delay_ms == stagger(j),
            delay_ms == stagger(plan@.len() as int),
        decreases routable@.len() - i,
    {
        proof {
            let done = routable@.subrange(0, i + 1);
            assert(done.drop_last() =~= routable@.subrange(0, i as int));
            assert(done.last() == routable@[i as int]);
        }
        if routable[i] {
            plan.push(DialAttempt { index: i, delay_ms });
            delay_ms = delay_ms.saturating_add(HAPPY_EYEBALLS_DELAY);
        }
        i += 1;
    }
    proof {
        assert(routable@.subrange(0, i as int) =~= routable@);
    }
    if plan.len() > 0 {
        return plan;
    }
    let mut j: usize = 0;
    let mut all: Vec<DialAttempt> = Vec::new();
    let mut wait: u64 = 0;
    while j < routable.len()
        invariant
            j <= routable@.len(),
            all@.len() == j,
            forall|k: int|
                0 <= k < j ==> (#[trigger] all@[k]).index == k && all@[k].delay_ms == stagger(k),
            wait == stagger(j as int),
        decreases routable@.len() - j,
    {
        all.push(DialAttempt { index: j, delay_ms: wait });
        wait = wait.saturating_add(HAPPY_EYEBALLS_DELAY);
        j += 1;
    }
    all
}

/// Something is tried whenever there is an address at all.
pub proof fn something_is_tried(routable: Seq<bool>)
    requires
        routable.len() > 0,
    ensures
        candidates(routable).len() > 0,
{
}

/// The error when a name gives no addresses.
pub fn no_addresses(what: &str) -> (e: Error)
    ensures
        e@ == ErrorModel::Connection(what@ + " resolved to no addresses"@),
{
    Error::Connection(join2(what, " resolved to no addresses"))
}

/// The error when every attempt failed. Every address is worth reporting: "the
/// last one failed" hides the fact that the others did too, and which.
pub fn unreachable_server(addr: &ServerAddr, errors: &Vec<String>) -> (e: Error)
    ensures
        e@ == ErrorModel::Connection(
            "could not reach "@ + addr_text(addr@) + ": "@ + joined(texts(errors@), "; "@),
        ),
{
    let list = join_all(errors, "; ");
    Error::Connection(join4("could not reach ", addr.to_string().as_str(), ": ", list.as_str()))
}

} // verus!
