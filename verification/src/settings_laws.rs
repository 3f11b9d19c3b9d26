//! Laws of settings and reports: what files, flags and the environment come
//! to, and what the numbers in a report mean.

use vstd::prelude::*;
use vstd::string::*;
use vstd::utf8::*;

use crate::addr::{AddrModel, addr_parsed, addr_text, authority_parsed, scheme_parsed, written_text};
use crate::cli::{ArgName, CommandName, default_text};
use crate::client_config::{
    KeyFile, client_config, config_lines, expiry_chosen, fields, is_separator, pubkey_read,
    retirement_expiry, retirement_grant, servers_chosen, still_live, uncommented,
};
use crate::config::{
    ConfigModel, FileConfigModel, FlagsModel, ListenModel, addrs_parsed, config_resolved,
    default_listen_text, flags_applied, keys_parsed, listen_parsed, plain_number, scoped_v6,
    socket_v4, socket_v6,
};
use crate::endpoint::{EndpointModel, HostModel};
use crate::endpoint_text::{
    bad_in_host, endpoint_authority, endpoint_parsed, host_parsed, option_applied,
};
use crate::error::ErrorModel;
use crate::ip::{ipv4_text, parse_ipv4, parse_ipv6};
use crate::ip_laws::{
    ipv4_is_digits_and_dots, ipv4_reads_back, is_ipv4_char, split_of_joined,
    two_colons_stand_for_zeros, with_colons,
};
use crate::key::{
    SigningKey, base58, ed25519_public, hex_text, key_len, parse_key, public_key, secret_in_file,
    sqns_dir_of,
};
use crate::protocol::StatusModel;
use crate::record::{BodyModel, RecordModel, SignedModel};
use crate::report::{
    duration_text, endpoint_line, endpoint_lines, lifetime_lines, listing_lines, location_report,
    padded, record_report, state_text, status_report, time_left,
};
use crate::resolver::default_config;
use crate::text::{
    dec, dec_reads_back, first_is_find, is_space, joined, parse_number, split, split_once, trim,
    trim_of_tight,
};
use crate::text_laws::{
    how_numbers_are_written, pieces_join_back, what_a_split_gives, written_numbers_read_back,
};
use crate::walk::ServiceLocation;

verus! {

broadcast use key_len;

// ---------------------------------------------------------------------------
// The client's settings
// ---------------------------------------------------------------------------

/// Comments go from the first `#` to the end of the line, and are no part of
/// it.
pub proof fn what_a_comment_is(line: Seq<char>, comment: Seq<char>)
    requires
        !line.contains('#'),
    ensures
        uncommented(line) == trim(line),
        uncommented(line + seq!['#'] + comment) == trim(line),
{
    assert forall|i: int| 0 <= i < line.len() implies line[i] != '#' by {
        assert(line.contains(line[i]));
    }
    first_is_find(line, '#', line.len() as int);
    assert(line.subrange(0, line.len() as int) =~= line);
    let s = line + seq!['#'] + comment;
    first_is_find(s, '#', line.len() as int);
    assert(s.subrange(0, line.len() as int) =~= line);
}

/// The lines that say something are taken one by one, without their comments
/// and the white space around them.
pub proof fn lines_are_taken_one_by_one(a: Seq<Seq<char>>, b: Seq<Seq<char>>)
    ensures
        config_lines(a + b) == config_lines(a) + config_lines(b),
        a.len() == 1 ==> config_lines(a) == if uncommented(a[0]).len() > 0 {
            seq![uncommented(a[0])]
        } else {
            seq![]
        },
        a.len() == 0 ==> config_lines(a) == Seq::<Seq<char>>::empty(),
    decreases b.len(),
{
    if a.len() == 1 {
        assert(config_lines(a.drop_last()) =~= seq![]);
    }
    if b.len() == 0 {
        assert(a + b =~= a);
        assert(config_lines(a) + config_lines(b) =~= config_lines(a));
    } else {
        assert((a + b).drop_last() =~= a + b.drop_last());
        lines_are_taken_one_by_one(a, b.drop_last());
        assert(config_lines(a + b) =~= config_lines(a) + config_lines(b));
    }
}

/// A text without separators.
pub open spec fn unseparated(s: Seq<char>) -> bool {
    forall|i: int|
        0 <= i < s.len() ==> {
            let c = #[trigger] s[i];
            c != ',' && c != ' ' && c != '\t' && c != '\n'
        }
}

/// Commas, blanks, tabs and line ends separate the addresses in the
/// environment: what stands on either side of one is taken by itself, and what
/// holds none is one address.
pub proof fn how_the_environment_is_split(a: Seq<char>, c: char, b: Seq<char>)
    requires
        c == ',' || c == ' ' || c == '\t' || c == '\n',
    ensures
        fields(a + seq![c] + b) == fields(a) + fields(b),
        a.len() > 0 && unseparated(a) ==> fields(a) == seq![a],
        a.len() == 0 ==> fields(a) == Seq::<Seq<char>>::empty(),
    decreases a.len() + b.len(),
{
    if a.len() > 0 && unseparated(a) {
        let t = a.drop_last();
        assert(a[a.len() - 1] == a.last());
        if t.len() > 0 {
            assert(unseparated(t)) by {
                assert forall|i: int| 0 <= i < t.len() implies {
                    let c = #[trigger] t[i];
                    c != ',' && c != ' ' && c != '\t' && c != '\n'
                } by {
                    assert(t[i] == a[i]);
                }
            }
            assert(a[t.len() - 1] == t.last());
            how_the_environment_is_split(t, c, seq![]);
            assert(fields(t) == seq![t]);
            assert(fields(a) =~= seq![t.push(a.last())]);
            assert(t.push(a.last()) =~= a);
        } else {
            assert(fields(t) =~= seq![]);
            assert(fields(a) =~= seq![seq![a.last()]]);
            assert(seq![a.last()] =~= a);
        }
    }
    let s = a + seq![c] + b;
    if b.len() == 0 {
        assert(s.drop_last() =~= a);
        assert(fields(b) =~= seq![]);
        assert(fields(s) =~= fields(a) + fields(b));
    } else {
        let t = b.drop_last();
        assert(s.drop_last() =~= a + seq![c] + t);
        assert(s.last() == b.last());
        how_the_environment_is_split(a, c, t);
        if is_separator(b.last()) {
        } else if t.len() > 0 && !is_separator(t.last()) {
            assert(s.drop_last().last() == t.last());
            runs_give_fields(t);
            let f = fields(a) + fields(t);
            assert(f.last() == fields(t).last());
            assert(f.drop_last() =~= fields(a) + fields(t).drop_last());
            assert(fields(s) =~= fields(a) + fields(b));
        } else {
            if t.len() == 0 {
                assert(s.drop_last().last() == c);
            } else {
                assert(s.drop_last().last() == t.last());
            }
            assert(fields(s) =~= fields(a) + fields(b));
        }
    }
}

/// A text that does not end in a separator has a last field.
proof fn runs_give_fields(s: Seq<char>)
    requires
        s.len() > 0,
        !is_separator(s.last()),
    ensures
        fields(s).len() > 0,
    decreases s.len(),
{
    let t = s.drop_last();
    if t.len() > 0 && !is_separator(t.last()) {
        runs_give_fields(t);
    }
}

/// The command line goes before the environment, the environment before the
/// file, and the file before the public server; nothing is mixed.
pub proof fn which_servers_are_asked(
    given: Seq<Seq<char>>,
    env: Option<Seq<char>>,
    file: Option<Seq<char>>,
)
    ensures
        given.len() > 0 ==> servers_chosen(given, env, file) == given,
        given.len() == 0 && env is Some && fields(env->0).len() > 0 ==> servers_chosen(
            given,
            env,
            file,
        ) == fields(env->0),
        given.len() == 0 && (env is Some ==> fields(env->0).len() == 0) && file is Some
            && config_lines(split(file->0, '\n')).len() > 0 ==> servers_chosen(given, env, file)
            == config_lines(split(file->0, '\n')),
        given.len() == 0 && env is None && file is None ==> servers_chosen(given, env, file)
            == seq![crate::DEFAULT_SERVER@],
{
}

/// The command line client asks with four hops, or none when told not to have
/// its question passed on; it caches nothing, and requires DNSSEC unless told
/// otherwise.
pub proof fn how_the_client_is_set_up(
    servers: Seq<AddrModel>,
    client_key: Option<SigningKey>,
    timeout: u64,
    no_recurse: bool,
    insecure_dns: bool,
)
    ensures
        ({
            let c = client_config(servers, client_key, timeout, no_recurse, insecure_dns);
            &&& c.servers == servers
            &&& c.connect_timeout == timeout
            &&& !c.cache
            &&& no_recurse ==> c.recurse == 0
            &&& !no_recurse ==> c.recurse == 4
            &&& c.require_dnssec <==> !insecure_dns
            &&& client_key is None ==> c.client_key_hex is None
            &&& client_key matches Some(sk) ==> c.client_key_hex == Some(hex_text(sk@))
        }),
{
}

/// What a library user gets without saying anything: ten seconds to connect,
/// a cache, four hops and DNSSEC.
pub proof fn what_a_resolver_does_by_default()
    ensures
        default_config().servers.len() == 0,
        default_config().connect_timeout == 10,
        default_config().cache,
        default_config().recurse == 4,
        default_config().require_dnssec,
        default_config().client_key_hex is None,
{
}

/// A delegation lasts as many days as were asked for, from one to 365, or for
/// ever; nothing else is issued.
pub proof fn how_long_a_delegation_lasts(days: u64, never_expires: bool, now: u64)
    requires
        now + 365 * 86_400 <= 0xffff_ffff_ffff_ffff,
    ensures
        expiry_chosen(days, never_expires, now) is Ok <==> never_expires || 1 <= days <= 365,
        !never_expires && 1 <= days <= 365 ==> expiry_chosen(days, never_expires, now)->Ok_0 == now
            + days * 86_400,
        never_expires ==> expiry_chosen(days, never_expires, now)->Ok_0 == 0xffff_ffff_ffff_ffff,
{
}

/// The delegation in a retirement lasts ninety days.
pub proof fn how_long_a_retirement_grant_lasts(identity: SigningKey, key: Seq<u8>, now: u64)
    requires
        now + 90 * 86_400 <= 0xffff_ffff_ffff_ffff,
    ensures
        retirement_expiry(now) == now + 90 * 86_400,
        retirement_grant(identity, key, now).not_after == now + 90 * 86_400,
        retirement_grant(identity, key, now).identity == public_key(identity),
{
}

/// Of a listing, the keys of the live records are still to be revoked, in
/// their order, and no others.
pub proof fn which_keys_are_still_to_be_revoked(a: Seq<SignedModel>, b: Seq<SignedModel>)
    ensures
        still_live(a + b) == still_live(a) + still_live(b),
        a.len() == 1 ==> still_live(a) == if a[0].record.body is Live {
            seq![a[0].record.key]
        } else {
            seq![]
        },
        a.len() == 0 ==> still_live(a) == Seq::<Seq<u8>>::empty(),
    decreases b.len(),
{
    if a.len() == 1 {
        assert(still_live(a.drop_last()) =~= seq![]);
    }
    if b.len() == 0 {
        assert(a + b =~= a);
        assert(still_live(a) + still_live(b) =~= still_live(a));
    } else {
        assert((a + b).drop_last() =~= a + b.drop_last());
        which_keys_are_still_to_be_revoked(a, b.drop_last());
        assert(still_live(a + b) =~= still_live(a) + still_live(b));
    }
}

/// A public key may be given as itself or as the file of its private key; the
/// text goes first.
pub proof fn where_a_public_key_comes_from(value: Seq<char>, file: Option<KeyFile>)
    ensures
        parse_key(value) matches Ok(k) ==> pubkey_read(value, file) == Ok::<Seq<u8>, ErrorModel>(k),
        parse_key(value) is Err && file is None ==> pubkey_read(value, file) is Err,
        parse_key(value) is Err && file is Some ==> (pubkey_read(value, file) is Ok
            <==> secret_in_file(value, file->0.mode, file->0.text@) is Ok),
        parse_key(value) is Err && file is Some && pubkey_read(value, file) is Ok ==> pubkey_read(
            value,
            file,
        )->Ok_0 == ed25519_public(secret_in_file(value, file->0.mode, file->0.text@)->Ok_0),
{
}

// ---------------------------------------------------------------------------
// The server's settings
// ---------------------------------------------------------------------------

/// A bare port listens on every address.
pub proof fn a_port_listens_everywhere(port: u16)
    ensures
        listen_parsed(dec(port as nat)) matches Ok(l) && l.port == port && l.scope == 0
            && l.ip.len() == 16 && forall|i: int| 0 <= i < 16 ==> l.ip[i] == 0,
{
    let d = dec(port as nat);
    how_numbers_are_written(port as nat);
    written_numbers_read_back(port as nat, 65535);
    dec_reads_back(port as nat);
    assert(!d.contains(':')) by {
        if d.contains(':') {
            let i = choose|i: int| 0 <= i < d.len() && d[i] == ':';
            assert(48 <= d[i] as u32 <= 57);
        }
    }
    what_a_split_gives(d, ':');
    assert(d[0] != '[') by {
        assert(48 <= d[0] as u32 <= 57);
    }
}

/// An IPv4 address with a port listens there; without one, on port 5300.
pub proof fn an_ipv4_address_listens_there(a: Seq<u8>, port: u16)
    requires
        a.len() == 4,
    ensures
        listen_parsed(ipv4_text(a) + ":"@ + dec(port as nat)) matches Ok(l) && l.ip == a && l.port
            == port && l.scope == 0,
{
    let t = ipv4_text(a);
    let d = dec(port as nat);
    ipv4_reads_back(a);
    how_numbers_are_written(port as nat);
    dec_reads_back(port as nat);
    reveal_strlit(":");
    let s = t + ":"@ + d;
    assert forall|i: int| 0 <= i < t.len() implies s[i] != ':' by {
        assert(is_ipv4_char(t[i]));
        assert(s[i] == t[i]);
    }
    assert(s[t.len() as int] == ':');
    first_is_find(s, ':', t.len() as int);
    assert(s.subrange(0, t.len() as int) =~= t);
    assert(s.subrange(t.len() as int + 1, s.len() as int) =~= d);
}

/// A list of addresses is read when each of them is, and then it is each of
/// them, in order.
pub proof fn how_addresses_are_read(v: Seq<Seq<char>>)
    ensures
        addrs_parsed(v) is Ok <==> forall|i: int|
            0 <= i < v.len() ==> addr_parsed(#[trigger] v[i]) is Ok,
        addrs_parsed(v) matches Ok(out) ==> out.len() == v.len() && forall|i: int|
            0 <= i < v.len() ==> #[trigger] out[i] == addr_parsed(v[i])->Ok_0,
    decreases v.len(),
{
    if v.len() > 0 {
        let t = v.drop_last();
        how_addresses_are_read(t);
        assert(v[v.len() - 1] == v.last());
        if addrs_parsed(v) is Ok {
            assert forall|i: int| 0 <= i < v.len() implies addr_parsed(#[trigger] v[i]) is Ok by {
                if i < t.len() {
                    assert(t[i] == v[i]);
                }
            }
            let out = addrs_parsed(v)->Ok_0;
            assert forall|i: int| 0 <= i < v.len() implies #[trigger] out[i] == addr_parsed(
                v[i],
            )->Ok_0 by {
                if i < t.len() {
                    assert(t[i] == v[i]);
                    assert(out[i] == addrs_parsed(t)->Ok_0[i]);
                }
            }
        }
        if forall|i: int| 0 <= i < v.len() ==> addr_parsed(#[trigger] v[i]) is Ok {
            assert forall|i: int| 0 <= i < t.len() implies addr_parsed(#[trigger] t[i]) is Ok by {
                assert(t[i] == v[i]);
            }
        }
    }
}

/// A list of keys is read when each of them is, and then it is each of them,
/// in order.
pub proof fn how_keys_are_read(v: Seq<Seq<char>>)
    ensures
        keys_parsed(v) is Ok <==> forall|i: int|
            0 <= i < v.len() ==> parse_key(#[trigger] v[i]) is Ok,
        keys_parsed(v) matches Ok(out) ==> out.len() == v.len() && forall|i: int|
            0 <= i < v.len() ==> #[trigger] out[i] == parse_key(v[i])->Ok_0,
    decreases v.len(),
{
    if v.len() > 0 {
        let t = v.drop_last();
        how_keys_are_read(t);
        assert(v[v.len() - 1] == v.last());
        if keys_parsed(v) is Ok {
            assert forall|i: int| 0 <= i < v.len() implies parse_key(#[trigger] v[i]) is Ok by {
                if i < t.len() {
                    assert(t[i] == v[i]);
                }
            }
            let out = keys_parsed(v)->Ok_0;
            assert forall|i: int| 0 <= i < v.len() implies #[trigger] out[i] == parse_key(
                v[i],
            )->Ok_0 by {
                if i < t.len() {
                    assert(t[i] == v[i]);
                    assert(out[i] == keys_parsed(t)->Ok_0[i]);
                }
            }
        }
        if forall|i: int| 0 <= i < v.len() ==> parse_key(#[trigger] v[i]) is Ok {
            assert forall|i: int| 0 <= i < t.len() implies parse_key(#[trigger] t[i]) is Ok by {
                assert(t[i] == v[i]);
            }
        }
    }
}

/// A file is taken when its addresses and keys can be read and its envelope
/// versions are some and not 0; and then it is taken as it stands, but for
/// times that are too short: a second for an upstream and for saving, five
/// for a pull, and one question at a time at least.
pub proof fn what_a_server_makes_of_its_file(f: FileConfigModel)
    ensures
        config_resolved(f) is Ok <==> {
            &&& listen_parsed(f.listen) is Ok
            &&& addrs_parsed(f.peers) is Ok
            &&& addrs_parsed(f.upstreams) is Ok
            &&& keys_parsed(f.allowed_clients) is Ok
            &&& f.accepted_envelope_versions.len() > 0
            &&& !f.accepted_envelope_versions.contains(0)
        },
        config_resolved(f) matches Ok(c) ==> {
            &&& c.listen == listen_parsed(f.listen)->Ok_0
            &&& c.peers == addrs_parsed(f.peers)->Ok_0
            &&& c.upstreams == addrs_parsed(f.upstreams)->Ok_0
            &&& c.allowed_clients == keys_parsed(f.allowed_clients)->Ok_0
            &&& c.key_file == f.key_file
            &&& c.state_file == f.state_file
            &&& c.upstream_cache == f.upstream_cache
            &&& c.require_dnssec == f.require_dnssec
            &&& c.allow_sync == f.allow_sync
            &&& c.accepted_envelope_versions == f.accepted_envelope_versions
            &&& c.upstream_timeout >= 1 && c.upstream_timeout >= f.upstream_timeout_secs
            &&& c.sync_interval >= 5 && c.sync_interval >= f.sync_interval_secs
            &&& c.persist_interval >= 1 && c.persist_interval >= f.persist_interval_secs
            &&& c.max_upstream_inflight >= 1 && c.max_upstream_inflight >= f.max_upstream_inflight
            &&& f.upstream_timeout_secs >= 1 ==> c.upstream_timeout == f.upstream_timeout_secs
            &&& f.sync_interval_secs >= 5 ==> c.sync_interval == f.sync_interval_secs
            &&& f.persist_interval_secs >= 1 ==> c.persist_interval == f.persist_interval_secs
            &&& f.max_upstream_inflight >= 1 ==> c.max_upstream_inflight == f.max_upstream_inflight
            &&& f.upstream_timeout_secs < 1 ==> c.upstream_timeout == 1
            &&& f.sync_interval_secs < 5 ==> c.sync_interval == 5
            &&& f.persist_interval_secs < 1 ==> c.persist_interval == 1
            &&& f.max_upstream_inflight < 1 ==> c.max_upstream_inflight == 1
        },
{
}

/// Flags win over the file; what they do not mention stays; peers and
/// upstreams are added; and a flag can only take syncing and DNSSEC away.
pub proof fn what_flags_change(c: ConfigModel, f: FlagsModel)
    ensures
        flags_applied(c, f) matches Ok(d) ==> {
            &&& f.listen is None ==> d.listen == c.listen
            &&& f.listen matches Some(s) ==> listen_parsed(s) == Ok::<ListenModel, ErrorModel>(
                d.listen,
            )
            &&& f.key_file is None ==> d.key_file == c.key_file
            &&& f.key_file matches Some(p) ==> d.key_file == p
            &&& f.state_file is None ==> d.state_file == c.state_file
            &&& f.state_file is Some ==> d.state_file == f.state_file
            &&& d.peers.len() == c.peers.len() + f.peers.len()
            &&& d.peers.take(c.peers.len() as int) == c.peers
            &&& d.peers.skip(c.peers.len() as int) == addrs_parsed(f.peers)->Ok_0
            &&& d.upstreams.take(c.upstreams.len() as int) == c.upstreams
            &&& d.upstreams.skip(c.upstreams.len() as int) == addrs_parsed(f.upstreams)->Ok_0
            &&& d.allow_sync <==> c.allow_sync && !f.no_sync
            &&& d.require_dnssec <==> c.require_dnssec && !f.insecure_dns
            &&& d.upstream_timeout == c.upstream_timeout
            &&& d.upstream_cache == c.upstream_cache
            &&& d.max_upstream_inflight == c.max_upstream_inflight
            &&& d.allowed_clients == c.allowed_clients
            &&& d.sync_interval == c.sync_interval
            &&& d.persist_interval == c.persist_interval
            &&& d.accepted_envelope_versions == c.accepted_envelope_versions
        },
        flags_applied(c, f) is Ok <==> (f.listen matches Some(s) ==> listen_parsed(s) is Ok)
            && addrs_parsed(f.peers) is Ok && addrs_parsed(f.upstreams) is Ok,
{
    how_addresses_are_read(f.peers);
    if let Ok(d) = flags_applied(c, f) {
        assert(d.peers.take(c.peers.len() as int) =~= c.peers);
        assert(d.peers.skip(c.peers.len() as int) =~= addrs_parsed(f.peers)->Ok_0);
        assert(d.upstreams.take(c.upstreams.len() as int) =~= c.upstreams);
        assert(d.upstreams.skip(c.upstreams.len() as int) =~= addrs_parsed(f.upstreams)->Ok_0);
    }
}

// ---------------------------------------------------------------------------
// Endpoints in text
// ---------------------------------------------------------------------------

/// An option sets the priority or the weight to the number it gives, and
/// nothing else.
pub proof fn what_an_option_sets(e: EndpointModel, part: Seq<char>)
    ensures
        option_applied(e, part) matches Ok(f) ==> f.host == e.host && f.port == e.port && (
        f.priority == e.priority || f.weight == e.weight),
        trim(part).len() == 0 ==> option_applied(e, part) == Ok::<EndpointModel, ErrorModel>(e),
        split_once(trim(part), '=') matches Some((name, value)) ==> (parse_number(trim(value), 65535)
            matches Some(n) ==> {
            &&& trim(name) == "priority"@ || trim(name) == "prio"@ || trim(name) == "p"@ ==> (
            option_applied(e, part) matches Ok(f) && f.priority == n && f.weight == e.weight)
            &&& trim(name) == "weight"@ || trim(name) == "w"@ ==> (option_applied(
                e,
                part,
            ) matches Ok(f) && f.weight == n && f.priority == e.priority)
        }),
{
    what_a_split_gives(trim(part), '=');
    reveal_strlit("priority");
    reveal_strlit("prio");
    reveal_strlit("p");
    reveal_strlit("weight");
    reveal_strlit("w");
    if let Some((name, value)) = split_once(trim(part), '=') {
        let t = trim(name);
        if t == "weight"@ || t == "w"@ {
            assert(t[0] == 'w');
            assert("priority"@[0] == 'p');
            assert("prio"@[0] == 'p');
            assert("p"@[0] == 'p');
        }
    }
}

/// An endpoint without options has priority 0 and weight 1, and options are
/// applied one after another.
pub proof fn what_an_endpoint_is_without_options(s: Seq<char>)
    requires
        !s.contains(','),
    ensures
        endpoint_parsed(s) matches Ok(e) ==> e.priority == 0 && e.weight == 1 && {
            let (host, port) = authority_parsed(trim(s))->Ok_0;
            e.port == port && host_parsed(host) == Ok::<HostModel, ErrorModel>(e.host)
        },
        endpoint_parsed(s) is Ok <==> authority_parsed(trim(s)) is Ok && host_parsed(
            authority_parsed(trim(s))->Ok_0.0,
        ) is Ok,
{
    pieces_join_back(s, ',');
    let parts = split(s, ',');
    assert(parts.len() == 1);
    assert(joined(parts, seq![',']) == parts[0]);
    assert(parts.subrange(1, 1) =~= seq![]);
}

/// A host is an address where it can be read as one, IPv6 in brackets or not,
/// and otherwise a name: of 1 to 255 bytes, without white space, slashes and
/// colons.
pub proof fn how_a_host_is_read(s: Seq<char>)
    requires
        !(trim(s).len() >= 2 && trim(s)[0] == '[' && trim(s).last() == ']'),
    ensures
        parse_ipv4(trim(s)) matches Some(a) ==> host_parsed(s) == Ok::<HostModel, ErrorModel>(
            HostModel::V4(a),
        ),
        parse_ipv4(trim(s)) is None ==> (parse_ipv6(trim(s)) matches Some(a) ==> host_parsed(s)
            == Ok::<HostModel, ErrorModel>(HostModel::V6(a))),
        parse_ipv4(trim(s)) is None && parse_ipv6(trim(s)) is None ==> {
            let good = 1 <= trim(s).len() && encode_utf8(trim(s)).len() <= 255 && forall|i: int|
                0 <= i < trim(s).len() ==> {
                    let c = #[trigger] trim(s)[i];
                    !is_space(c) && c != '/' && c != ':'
                };
            &&& host_parsed(s) is Ok <==> good
            &&& good ==> host_parsed(s) == Ok::<HostModel, ErrorModel>(HostModel::Name(trim(s)))
        },
{
    let t = trim(s);
    if parse_ipv4(t) is None && parse_ipv6(t) is None {
        if exists|i: int| 0 <= i < t.len() && bad_in_host(#[trigger] t[i]) {
            let i = choose|i: int| 0 <= i < t.len() && bad_in_host(#[trigger] t[i]);
            assert(is_space(t[i]) || t[i] == '/' || t[i] == ':');
        } else {
            assert forall|i: int| 0 <= i < t.len() implies {
                let c = #[trigger] t[i];
                !is_space(c) && c != '/' && c != ':'
            } by {
                assert(!bad_in_host(t[i]));
            }
        }
    }
}

/// A host in brackets is an IPv6 address or nothing.
pub proof fn how_a_bracketed_host_is_read(inner: Seq<char>)
    ensures
        ({
            let s = seq!['['] + inner + seq![']'];
            &&& parse_ipv6(inner) matches Some(a) ==> host_parsed(s) == Ok::<HostModel, ErrorModel>(
                HostModel::V6(a),
            )
            &&& parse_ipv6(inner) is None ==> host_parsed(s) is Err
        }),
{
    let s = seq!['['] + inner + seq![']'];
    trim_of_tight(s);
    assert(s.subrange(1, s.len() - 1) =~= inner);
}

/// What the command line means when nothing is said: ten seconds to connect,
/// a ttl of five minutes, and ninety days for a delegation.
pub proof fn what_the_command_line_means_by_default(c: CommandName)
    ensures
        default_text(c, ArgName::Timeout) matches Some(t) && parse_number(t, 1000) == Some(10nat),
        default_text(c, ArgName::Ttl) matches Some(t) && parse_number(t, 1000) == Some(300nat),
        default_text(c, ArgName::Days) matches Some(t) && parse_number(t, 1000) == Some(90nat),
{
    written_numbers_read_back(10, 1000);
    written_numbers_read_back(300, 1000);
    written_numbers_read_back(90, 1000);
    reveal_strlit("10");
    reveal_with_fuel(dec, 3);
    assert(dec(10) =~= "10"@);
}

// ---------------------------------------------------------------------------
// Reports
// ---------------------------------------------------------------------------

/// The time left is what is missing to the end, and none once it has passed.
pub proof fn what_time_is_left(until: u64, now: u64)
    ensures
        now <= until ==> time_left(until, now) + now == until,
        now > until ==> time_left(until, now) == 0,
{
}

/// A length of time is shown in its two largest units, and these are worth no
/// more than the time and less than one of the smaller unit short of it.
pub proof fn what_a_duration_shows(secs: u64, n: nat, k: nat)
    ensures
        secs < 60 ==> duration_text(secs) == dec(secs as nat) + "s"@,
        60 <= secs < 3600 && secs == n * 60 + k && k < 60 ==> duration_text(secs) == dec(n) + "m"@
            + dec(k) + "s"@,
        3600 <= secs < 86_400 && n * 3600 + k * 60 <= secs < n * 3600 + k * 60 + 60 && k < 60
            ==> duration_text(secs) == dec(n) + "h"@ + dec(k) + "m"@,
        86_400 <= secs && n * 86_400 + k * 3600 <= secs < n * 86_400 + k * 3600 + 3600 && k < 24
            ==> duration_text(secs) == dec(n) + "d"@ + dec(k) + "h"@,
{
    if 60 <= secs < 3600 && secs == n * 60 + k && k < 60 {
        assert(secs / 60 == n && secs % 60 == k);
    }
    if 3600 <= secs < 86_400 && n * 3600 + k * 60 <= secs < n * 3600 + k * 60 + 60 && k < 60 {
        assert(secs / 3600 == n);
        assert(secs % 3600 / 60 == k);
    }
    if 86_400 <= secs && n * 86_400 + k * 3600 <= secs < n * 86_400 + k * 3600 + 3600 && k < 24 {
        assert(secs / 86_400 == n);
        assert(secs % 86_400 / 3600 == k);
    }
}

/// Filling up with blanks keeps the text in front and gives the width that was
/// asked for, or the text where it is wider.
pub proof fn what_filling_up_does(s: Seq<char>, width: nat)
    ensures
        padded(s, width).len() == if s.len() < width {
            width
        } else {
            s.len()
        },
        padded(s, width).take(s.len() as int) == s,
        forall|i: int| s.len() <= i < padded(s, width).len() ==> padded(s, width)[i] == ' ',
{
    assert(padded(s, width).take(s.len() as int) =~= s);
}

/// What a report says of a live record: in how many seconds it expires, and how
/// long the delegation will still hold.
pub proof fn what_a_report_says_of_a_lifetime(r: RecordModel, now: u64)
    requires
        r.body is Live,
        now <= r.issued_at + r.ttl <= 0xffff_ffff_ffff_ffff,
    ensures
        lifetime_lines(r, now).len() == 2,
        lifetime_lines(r, now)[0] == "expires:  in "@ + duration_text(
            (r.issued_at + r.ttl - now) as u64,
        ) + " (ttl "@ + dec(r.ttl as nat) + "s)"@,
        now <= r.delegation.not_after < 0xffff_ffff_ffff_ffff ==> lifetime_lines(r, now)[1]
            == "delegation: valid for another "@ + duration_text(
            (r.delegation.not_after - now) as u64,
        ),
        r.delegation.not_after == 0xffff_ffff_ffff_ffff ==> lifetime_lines(r, now)[1]
            == "delegation: never expires"@,
{
}

/// Where lines are listed there is one for each: for each endpoint of a record,
/// in the order given, for each record of an identity, and for each endpoint
/// of a location. A location without endpoints is an error.
pub proof fn there_is_a_line_for_each(
    v: Seq<EndpointModel>,
    records: Seq<SignedModel>,
    l: ServiceLocation,
)
    ensures
        endpoint_lines(v).len() == v.len(),
        forall|i: int|
            0 <= i < v.len() ==> #[trigger] endpoint_lines(v)[i] == endpoint_line(v[i]),
        listing_lines(records).len() == records.len(),
        location_report(l) is Err <==> l.endpoints@.len() == 0,
        location_report(l) matches Ok(lines) ==> lines.len() == l.endpoints@.len() && forall|i: int|
            0 <= i < lines.len() ==> #[trigger] lines[i] == endpoint_authority(
                l.endpoints@[i]@,
            ),
{
}

/// The state of a record in a line: superseded, revoked, withdrawn where it has
/// no endpoints, or how many it has.
pub proof fn what_a_line_says_of_a_record(r: RecordModel)
    ensures
        r.body matches BodyModel::Superseded { successor, .. } ==> state_text(r)
            == "superseded by "@ + base58(successor),
        r.body matches BodyModel::Revoked { reason } ==> state_text(r) == "revoked ("@ + reason
            + ")"@,
        r.body matches BodyModel::Live { endpoints } ==> (endpoints.len() == 0 ==> state_text(r)
            == "withdrawn"@) && (endpoints.len() > 0 ==> state_text(r) == "live, "@ + dec(
            endpoints.len(),
        ) + " endpoint(s)"@),
{
}

/// An address is written with its scheme first and its key last; port 5300 is
/// left out, and IPv6 is bracketed.
pub proof fn how_an_address_is_written(a: AddrModel)
    ensures
        addr_text(a) == (if a.scheme is Sqns {
            "sqns://"@
        } else {
            "sqc://"@
        }) + written_text(a.host, a.port) + "/"@ + base58(a.key),
        !a.host.contains(':') && a.port == 5300 ==> written_text(a.host, a.port) == a.host,
        !a.host.contains(':') && a.port != 5300 ==> written_text(a.host, a.port) == a.host + ":"@
            + dec(a.port as nat),
        a.host.contains(':') && a.port == 5300 ==> written_text(a.host, a.port) == "["@ + a.host
            + "]"@,
        a.host.contains(':') && a.port != 5300 ==> written_text(a.host, a.port) == "["@ + a.host
            + "]:"@ + dec(a.port as nat),
{
}

/// What starts with a bracket is no IPv4 socket address.
proof fn a_bracket_starts_no_ipv4(s: Seq<char>)
    requires
        s.len() > 0,
        s[0] == '[',
    ensures
        socket_v4(s) is None,
{
    what_a_split_gives(s, ':');
    if let Some((before, after)) = split_once(s, ':') {
        let w = before + seq![':'] + after;
        assert(w == s);
        if before.len() > 0 {
            assert(w[0] == before[0]);
            ipv4_is_digits_and_dots(before, 0);
        } else {
            assert(w[0] == ':');
        }
    }
}

/// What stands in and behind the brackets of a socket address.
proof fn brackets_are_taken_apart(inner: Seq<char>, d: Seq<char>)
    requires
        !inner.contains(']'),
    ensures
        ({
            let s = seq!['['] + inner + "]:"@ + d;
            &&& s.len() > 0 && s[0] == '['
            &&& split_once(s.subrange(1, s.len() as int), ']') == Some((inner, seq![':'] + d))
        }),
{
    let s = seq!['['] + inner + "]:"@ + d;
    reveal_strlit("]:");
    let rest = s.subrange(1, s.len() as int);
    assert forall|i: int| 0 <= i < inner.len() implies rest[i] != ']' by {
        assert(rest[i] == inner[i]);
        assert(inner.contains(inner[i]));
    }
    assert(rest[inner.len() as int] == ']');
    first_is_find(rest, ']', inner.len() as int);
    assert(rest.subrange(0, inner.len() as int) =~= inner);
    assert(rest.subrange(inner.len() as int + 1, rest.len() as int) =~= seq![':'] + d);
}

/// A port in digits is read as itself.
proof fn a_plain_port_reads_back(port: u16)
    ensures
        plain_number(dec(port as nat), 65535) == Some(port as nat),
{
    dec_reads_back(port as nat);
}

/// An IPv6 address in brackets with a port listens there.
pub proof fn an_ipv6_address_listens_there(inner: Seq<char>, port: u16)
    requires
        parse_ipv6(inner) is Some,
        !inner.contains('%'),
        !inner.contains(']'),
    ensures
        listen_parsed(seq!['['] + inner + "]:"@ + dec(port as nat)) matches Ok(l) && l.ip
            == parse_ipv6(inner)->0 && l.port == port && l.scope == 0,
{
    let d = dec(port as nat);
    let s = seq!['['] + inner + "]:"@ + d;
    brackets_are_taken_apart(inner, d);
    a_bracket_starts_no_ipv4(s);
    a_plain_port_reads_back(port);
    what_a_split_gives(inner, '%');
    let tail = seq![':'] + d;
    assert(tail.subrange(1, tail.len() as int) =~= d);
    assert(scoped_v6(inner) == Some((parse_ipv6(inner)->0, 0u32)));
    assert(socket_v6(s) == Some((parse_ipv6(inner)->0, port, 0u32)));
}

/// An option at the end of an endpoint is applied to what stands before it: of
/// two that set the same, the last one wins.
pub proof fn options_are_applied_in_turn(s: Seq<char>, part: Seq<char>)
    requires
        endpoint_parsed(s) is Ok,
        !part.contains(','),
    ensures
        endpoint_parsed(s + seq![','] + part) is Ok <==> option_applied(
            endpoint_parsed(s)->Ok_0,
            part,
        ) is Ok,
        endpoint_parsed(s + seq![','] + part) matches Ok(e) ==> option_applied(
            endpoint_parsed(s)->Ok_0,
            part,
        ) == Ok::<EndpointModel, ErrorModel>(e),
{
    let w = s + seq![','] + part;
    split_of_joined(s, ',', part);
    pieces_join_back(s, ',');
    pieces_join_back(part, ',');
    assert(split(part, ',').len() == 1);
    assert(joined(split(part, ','), seq![',']) == split(part, ',')[0]);
    let (p, q) = (split(s, ','), split(w, ','));
    assert(q =~= p.push(part));
    assert(q[0] == p[0]);
    let (a, b) = (p.subrange(1, p.len() as int), q.subrange(1, q.len() as int));
    assert(b.drop_last() =~= a);
    assert(b.last() == part);
}

/// What an address must have: a slash after the authority, and a key behind
/// it that can be read.
pub proof fn what_an_address_must_have(s: Seq<char>)
    ensures
        addr_parsed(s) matches Ok(a) ==> {
            let (scheme, rest) = scheme_parsed(trim(s));
            &&& rest.contains('/')
            &&& a.scheme == scheme
            &&& split_once(rest, '/') matches Some((authority, key_text)) && key_text.len() > 0
                && parse_key(key_text) == Ok::<Seq<u8>, ErrorModel>(a.key) && authority_parsed(
                authority,
            ) == Ok::<(Seq<char>, u16), ErrorModel>((a.host, a.port))
        },
{
    what_a_split_gives(scheme_parsed(trim(s)).1, '/');
}

/// What the counters of a server look like: each on its line, those of a relay
/// only where there is one.
pub proof fn what_a_status_report_says(s: StatusModel)
    ensures
        status_report(s)[0] == "version:   "@ + s.version,
        status_report(s)[1] == "records:   "@ + dec(s.records as nat),
        status_report(s)[2] == "peers:     "@ + dec(s.peers as nat),
        status_report(s).last() == "uptime:    "@ + duration_text(s.uptime_secs),
        s.upstreams == 0 ==> status_report(s).len() == 4,
        s.upstreams > 0 ==> status_report(s).len() == 6 && status_report(s)[3] == "upstreams: "@
            + dec(s.upstreams as nat) && status_report(s)[4] == "cached:    "@ + dec(
            s.cached as nat,
        ) + " (relayed, not replicated)"@,
{
}

/// What a report says of any record first: its key, its identity, its serial,
/// and how long ago it was issued; then, of one that is retired, what became
/// of it.
pub proof fn what_a_report_says_of_a_record(r: RecordModel, order: Seq<EndpointModel>, now: u64)
    requires
        r.issued_at <= now,
    ensures
        record_report(r, order, now).len() >= 6,
        record_report(r, order, now)[0] == "key:      "@ + base58(r.key),
        record_report(r, order, now)[1] == "identity: "@ + base58(r.delegation.identity),
        record_report(r, order, now)[2] == "serial:   "@ + dec(r.serial as nat),
        record_report(r, order, now)[3] == "issued:   "@ + dec((now - r.issued_at) as nat)
            + "s ago"@,
        r.body matches BodyModel::Superseded { successor, .. } ==> record_report(r, order, now)[5]
            == "now use:  "@ + base58(successor),
        r.body matches BodyModel::Revoked { reason } ==> record_report(r, order, now)[5]
            == "reason:   "@ + reason,
        r.body matches BodyModel::Live { endpoints } ==> (endpoints.len() > 0 ==> record_report(
            r,
            order,
            now,
        ).len() == 7 + order.len()) && (endpoints.len() == 0 ==> record_report(
            r,
            order,
            now,
        ).len() == 7),
{
}

/// Two colons alone are the address of zeros.
proof fn two_colons_are_all_zeros()
    ensures
        parse_ipv6("::"@) matches Some(a) && a.len() == 16 && forall|i: int|
            0 <= i < 16 ==> a[i] == 0,
{
    let none = Seq::<Seq<char>>::empty();
    two_colons_stand_for_zeros(none, none);
    assert(with_colons(none) == Seq::<char>::empty());
    assert(with_colons(none) + "::"@ + with_colons(none) =~= "::"@);
    let a = parse_ipv6("::"@)->0;
    assert forall|i: int| 0 <= i < 16 implies a[i] == 0 by {
        let k = i / 2;
        assert(0 <= k < 8 && (i == 2 * k || i == 2 * k + 1));
        assert(a[2 * k] == 0);
        assert(a[2 * k + 1] == 0);
    }
}

proof fn the_default_in_parts()
    ensures
        default_listen_text() == seq!['['] + "::"@ + "]:"@ + dec(5300),
        !"::"@.contains('%'),
        !"::"@.contains(']'),
{
    reveal_strlit("::");
    reveal_strlit("[::]:");
    reveal_strlit("]:");
    let d = dec(5300);
    assert("[::]:"@ + d =~= seq!['['] + "::"@ + "]:"@ + d);
}

/// Unless told otherwise a server listens on every address, on port 5300.
pub proof fn where_a_server_listens_by_default()
    ensures
        listen_parsed(default_listen_text()) matches Ok(l) && l.port == 5300 && l.scope == 0
            && l.ip.len() == 16 && forall|i: int| 0 <= i < 16 ==> l.ip[i] == 0,
{
    two_colons_are_all_zeros();
    the_default_in_parts();
    an_ipv6_address_listens_there("::"@, 5300);
}

/// Where keys are kept: in the directory that was named, unless that name is
/// empty, and otherwise in `.sqns` below the home directory; without either
/// there is no such place.
pub proof fn where_keys_are_kept(relocated: Option<Seq<u8>>, home: Option<Seq<u8>>)
    ensures
        relocated is Some && relocated->0.len() > 0 ==> sqns_dir_of(relocated, home) == Ok::<
            Seq<u8>,
            ErrorModel,
        >(relocated->0),
        (relocated is None || relocated->0.len() == 0) && home is Some && home->0.len() > 0
            && home->0.last() != 47 ==> sqns_dir_of(relocated, home) == Ok::<Seq<u8>, ErrorModel>(
            home->0 + seq![47u8, 46u8, 115u8, 113u8, 110u8, 115u8],
        ),
        (relocated is None || relocated->0.len() == 0) && home is None ==> sqns_dir_of(
            relocated,
            home,
        ) is Err,
{
    if home is Some {
        assert(home->0 + seq![47u8] + seq![46u8, 115u8, 113u8, 110u8, 115u8] =~= home->0 + seq![
            47u8,
            46u8,
            115u8,
            113u8,
            110u8,
            115u8,
        ]);
    }
}

} // verus!
