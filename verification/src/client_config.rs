//! What the command line client decides before it talks to anyone: which
//! servers, which keys, how long a delegation lasts, what to retire.

use vstd::prelude::*;
use vstd::string::*;

use crate::addr::AddrModel;
use crate::config::{addrs_parsed, parse_addrs};
use crate::delegation::{
    DEFAULT_DELEGATION_LIFETIME, Delegation, DelegationFile, DelegationFileModel, DelegationModel,
    MAX_DELEGATION_LIFETIME, NEVER_EXPIRES, delegation_message, delegation_verified,
};
use crate::error::{Error, ErrorModel, Result, join2, join3, join4, outcome};
use crate::key::{
    PubKey, SigningKey, ed25519_public, ed25519_signature, hex_seed, hex_text, key_len, load_secret,
    parse_key, public_key, public_of, secret_in_file,
};
use crate::protocol::DEFAULT_RECURSE;
use crate::record::{
    Record, SignedModel, SignedRecord, is_terminal, record_bytes, record_message, revoked_model,
    signed_models, signed_verified, superseded_model,
};
use crate::resolver::{ResolverConfig, ResolverConfigModel};
use crate::text::{
    chars_of, dec, find, find_from, find_is_first, push_dec, same_text, split, split_all,
    text_between, texts, trim, trimmed,
};
use crate::walk::key_seq;
use crate::DEFAULT_SERVER;

verus! {

broadcast use key_len;

/// Environment variable holding one or more server addresses.
pub const SERVER_ENV: &'static str = "SQNS_SERVER";

/// Conventional names inside the sqns directory.
pub const IDENTITY_KEY: &'static str = "identity.key";

pub const SERVICE_KEY: &'static str = "service.key";

pub const SERVICE_DELEGATION: &'static str = "service.deleg";

pub const CONFIG_FILE: &'static str = "config";

// ---------------------------------------------------------------------------
// Servers
// ---------------------------------------------------------------------------

/// A line up to the first `#`, trimmed.
pub open spec fn uncommented(line: Seq<char>) -> Seq<char> {
    trim(line.subrange(0, find(line, '#') as int))
}

/// The lines that say something.
pub open spec fn config_lines(lines: Seq<Seq<char>>) -> Seq<Seq<char>>
    decreases lines.len(),
{
    if lines.len() == 0 {
        seq![]
    } else {
        let rest = config_lines(lines.drop_last());
        let t = uncommented(lines.last());
        if t.len() == 0 {
            rest
        } else {
            rest.push(t)
        }
    }
}

fn strip_comment(line: &str) -> (out: String)
    ensures
        out@ == uncommented(line@),
{
    let v = chars_of(line);
    proof {
        assert(v@.subrange(0, v@.len() as int) =~= line@);
        find_is_first(line@, '#');
    }
    let k: usize = find_from(&v, 0, '#');
    let head = text_between(&v, 0, k);
    trimmed(head.as_str())
}

/// Server addresses from the config file: one URL per line, with `#` comments
/// and blank lines ignored.
pub fn servers_from_config(text: &str) -> (out: Vec<String>)
    ensures
        texts(out@) == config_lines(split(text@, '\n')),
{
    let lines = split_all(text, '\n');
    let ghost all = texts(lines@);
    let mut out: Vec<String> = Vec::new();
    let mut i: usize = 0;
    proof {
        assert(all.subrange(0, 0) =~= seq![]);
        assert(texts(out@) =~= seq![]);
    }
    while i < lines.len()
        invariant
            i <= lines@.len(),
            all == texts(lines@),
            texts(out@) == config_lines(all.subrange(0, i as int)),
        decreases lines@.len() - i,
    {
        proof {
            let done = all.subrange(0, i + 1);
            assert(done.drop_last() =~= all.subrange(0, i as int));
            assert(done.last() == lines@[i as int]@);
        }
        let t = strip_comment(lines[i].as_str());
        if !t.as_str().is_empty() {
            let ghost before = texts(out@);
            out.push(t);
            proof {
                assert(texts(out@) =~= before.push(t@));
            }
        }
        i += 1;
    }
    proof {
        assert(all.subrange(0, i as int) =~= all);
    }
    out
}

/// What separates addresses in the environment: a comma or white space.
pub open spec fn is_separator(c: char) -> bool {
    c == ',' || c == ' ' || c == '\t' || c == '\n'
}

/// The runs of characters between separators.
pub open spec fn fields(s: Seq<char>) -> Seq<Seq<char>>
    decreases s.len(),
{
    if s.len() == 0 {
        seq![]
    } else {
        let rest = s.drop_last();
        let before = fields(rest);
        if is_separator(s.last()) {
            before
        } else if rest.len() > 0 && !is_separator(rest.last()) {
            before.drop_last().push(before.last().push(s.last()))
        } else {
            before.push(seq![s.last()])
        }
    }
}

proof fn fields_after_run(s: Seq<char>)
    requires
        s.len() > 0,
        !is_separator(s.last()),
    ensures
        fields(s).len() > 0,
    decreases s.len(),
{
    let rest = s.drop_last();
    if rest.len() > 0 && !is_separator(rest.last()) {
        fields_after_run(rest);
    }
}

/// Server addresses from the environment, separated by commas or white space.
pub fn servers_from_env(text: &str) -> (out: Vec<String>)
    ensures
        texts(out@) == fields(text@),
{
    let v = chars_of(text);
    let mut out: Vec<String> = Vec::new();
    let mut run = String::new();
    let mut open = false;
    let mut i: usize = 0;
    proof {
        assert(v@.subrange(0, 0) =~= seq![]);
        assert(texts(out@) =~= seq![]);
    }
    while i < v.len()
        invariant
            i <= v@.len(),
            v@ == text@,
            open == (i > 0 && !is_separator(v@[i - 1])),
            open ==> fields(v@.subrange(0, i as int)) == texts(out@).push(run@),
            !open ==> fields(v@.subrange(0, i as int)) == texts(out@) && run@.len() == 0,
        decreases v@.len() - i,
    {
        let c = v[i];
        let ghost seen = v@.subrange(0, i + 1);
        proof {
            assert(seen.drop_last() =~= v@.subrange(0, i as int));
            assert(seen.last() == c);
            if i > 0 {
                assert(v@.subrange(0, i as int).last() == v@[i - 1]);
            }
        }
        if c == ',' || c == ' ' || c == '\t' || c == '\n' {
            if open {
                let ghost before = texts(out@);
                let done = run;
                out.push(done);
                run = String::new();
                proof {
                    assert(texts(out@) =~= before.push(done@));
                }
            }
            open = false;
        } else {
            let ghost before = run@;
            run.push(c);
            proof {
                if open {
                    let f = fields(v@.subrange(0, i as int));
                    assert(f.drop_last() =~= texts(out@));
                    assert(f.last() == before);
                } else {
                    assert(run@ =~= seq![c]);
                }
                assert(fields(seen) =~= texts(out@).push(run@));
            }
            open = true;
        }
        i += 1;
    }
    proof {
        assert(v@.subrange(0, i as int) =~= text@);
    }
    if open {
        let ghost before = texts(out@);
        out.push(run);
        proof {
            assert(texts(out@) =~= before.push(run@));
        }
    }
    out
}

/// The servers to talk to: those given on the command line, else those in the
/// environment, else those in the config file, else the public one.
pub open spec fn servers_chosen(
    given: Seq<Seq<char>>,
    env: Option<Seq<char>>,
    file: Option<Seq<char>>,
) -> Seq<Seq<char>> {
    let from_env = match env {
        Some(s) => fields(s),
        None => seq![],
    };
    let from_file = match file {
        Some(s) => config_lines(split(s, '\n')),
        None => seq![],
    };
    if given.len() > 0 {
        given
    } else if from_env.len() > 0 {
        from_env
    } else if from_file.len() > 0 {
        from_file
    } else {
        seq![DEFAULT_SERVER@]
    }
}

/// An optional borrowed text as an optional character sequence.
pub open spec fn opt_str(o: Option<&str>) -> Option<Seq<char>> {
    match o {
        Some(s) => Some(s@),
        None => None,
    }
}

/// The servers to talk to.
pub fn choose_servers(given: Vec<String>, env: Option<&str>, file: Option<&str>) -> (out: Vec<
    String,
>)
    ensures
        texts(out@) == servers_chosen(texts(given@), opt_str(env), opt_str(file)),
{
    if given.len() > 0 {
        return given;
    }
    if let Some(text) = env {
        let v = servers_from_env(text);
        if v.len() > 0 {
            return v;
        }
    }
    if let Some(text) = file {
        let v = servers_from_config(text);
        if v.len() > 0 {
            return v;
        }
    }
    let mut v: Vec<String> = Vec::new();
    v.push(String::from_str(DEFAULT_SERVER));
    proof {
        assert(texts(v@) =~= seq![DEFAULT_SERVER@]);
    }
    v
}

/// Nobody is left without a server to ask.
pub proof fn there_is_always_a_server(
    given: Seq<Seq<char>>,
    env: Option<Seq<char>>,
    file: Option<Seq<char>>,
)
    ensures
        servers_chosen(given, env, file).len() > 0,
{
}

/// How the command line client resolves: nothing is cached between commands,
/// and a lookup is passed on unless told otherwise.
pub open spec fn client_config(
    servers: Seq<AddrModel>,
    client_key: Option<SigningKey>,
    timeout: u64,
    no_recurse: bool,
    insecure_dns: bool,
) -> ResolverConfigModel {
    ResolverConfigModel {
        servers,
        client_key_hex: match client_key {
            Some(sk) => Some(hex_text(sk@)),
            None => None,
        },
        connect_timeout: timeout,
        cache: false,
        recurse: if no_recurse {
            0
        } else {
            DEFAULT_RECURSE
        },
        require_dnssec: !insecure_dns,
    }
}

/// A resolver configuration from server texts and flags.
pub fn build_config(
    specs: &Vec<String>,
    client_key: Option<&SigningKey>,
    timeout: u64,
    no_recurse: bool,
    insecure_dns: bool,
) -> (r: Result<ResolverConfig>)
    ensures
        outcome(r) == (match addrs_parsed(texts(specs@)) {
            Err(e) => Err(e),
            Ok(servers) => Ok(
                client_config(
                    servers,
                    match client_key {
                        Some(sk) => Some(*sk),
                        None => None,
                    },
                    timeout,
                    no_recurse,
                    insecure_dns,
                ),
            ),
        }),
{
    let servers = parse_addrs(specs)?;
    Ok(
        ResolverConfig {
            servers,
            client_key_hex: match client_key {
                Some(sk) => Some(hex_seed(sk)),
                None => None,
            },
            connect_timeout: timeout,
            cache: false,
            recurse: if no_recurse {
                0
            } else {
                DEFAULT_RECURSE
            },
            require_dnssec: !insecure_dns,
        },
    )
}

// ---------------------------------------------------------------------------
// Keys
// ---------------------------------------------------------------------------

/// The error for a key that is not there, pointing at the command that would
/// create it.
pub fn missing_key(path: &str, hint: &str) -> (e: Error)
    ensures
        e@ == ErrorModel::Key("no key at "@ + path@ + " — create one with: "@ + hint@),
{
    Error::Key(join4("no key at ", path, " — create one with: ", hint))
}

/// The error for a delegation that is not there.
pub fn missing_delegation(path: &str) -> (e: Error)
    ensures
        e@ == ErrorModel::Delegation(
            "no delegation at "@ + path@ + " — create one with: sqns delegate"@,
        ),
{
    Error::Delegation(join3("no delegation at ", path, " — create one with: sqns delegate"))
}

/// A key file is not overwritten unless that was asked for.
pub fn check_overwrite(path: &str, exists: bool, force: bool) -> (r: Result<()>)
    ensures
        outcome(r) == (if exists && !force {
            Err(ErrorModel::Key(path@ + " already exists; pass --force to overwrite it"@))
        } else {
            Ok(())
        }),
{
    if exists && !force {
        return Err(
            Error::Key(join2(path, " already exists; pass --force to overwrite it")),
        );
    }
    Ok(())
}

/// A key file's permission bits and text.
pub struct KeyFile {
    pub mode: u32,
    pub text: String,
}

/// A public key out of its text, or the public key of the private one in a
/// file of that name.
pub open spec fn pubkey_read(value: Seq<char>, file: Option<KeyFile>) -> std::result::Result<
    Seq<u8>,
    ErrorModel,
> {
    match (parse_key(value), file) {
        (Ok(k), _) => Ok(k),
        (Err(_), None) => Err(
            ErrorModel::Key(
                "'"@ + value + "' is neither a base58 public key nor an existing file"@,
            ),
        ),
        (Err(_), Some(f)) => match secret_in_file(value, f.mode, f.text@) {
            Ok(seed) => Ok(ed25519_public(seed)),
            Err(e) => Err(e),
        },
    }
}

/// Read a base58 public key, or derive one from a private seed file. `file` is
/// the file of that name, if there is one.
pub fn read_pubkey(value: &str, file: Option<KeyFile>) -> (r: Result<PubKey>)
    ensures
        outcome(r) == pubkey_read(value@, file),
{
    if let Ok(k) = PubKey::from_str(value) {
        return Ok(k);
    }
    match file {
        None => Err(
            Error::Key(
                join3("'", value, "' is neither a base58 public key nor an existing file"),
            ),
        ),
        Some(f) => {
            let sk = load_secret(value, f.mode, f.text.as_str())?;
            Ok(public_of(&sk))
        },
    }
}

/// Whether a value has to be looked up as a file: it is no public key itself.
pub fn names_a_file(value: &str) -> (b: bool)
    ensures
        b == (parse_key(value@) is Err),
{
    PubKey::from_str(value).is_err()
}

// ---------------------------------------------------------------------------
// Delegating and retiring
// ---------------------------------------------------------------------------

/// Seconds in a day.
pub const DAY: u64 = 86_400;

/// When a delegation issued at `now` lapses.
pub open spec fn expiry_chosen(days: u64, never_expires: bool, now: u64) -> std::result::Result<
    u64,
    ErrorModel,
> {
    if never_expires {
        Ok(NEVER_EXPIRES)
    } else if days == 0 || days * DAY > MAX_DELEGATION_LIFETIME {
        Err(
            ErrorModel::Delegation(
                "delegation must last 1..="@ + dec((MAX_DELEGATION_LIFETIME / DAY) as nat)
                    + " days, or pass --never-expires"@,
            ),
        )
    } else if now + days * DAY > u64::MAX {
        Ok(u64::MAX)
    } else {
        Ok((now + days * DAY) as u64)
    }
}

/// When a delegation issued at `now` lapses: after a number of days, or never.
pub fn choose_expiry(days: u64, never_expires: bool, now: u64) -> (r: Result<u64>)
    ensures
        outcome(r) == expiry_chosen(days, never_expires, now),
{
    if never_expires {
        return Ok(NEVER_EXPIRES);
    }
    if days == 0 || days > MAX_DELEGATION_LIFETIME / DAY {
        let mut m = String::from_str("delegation must last 1..=");
        push_dec(&mut m, MAX_DELEGATION_LIFETIME / DAY);
        m.append(" days, or pass --never-expires");
        return Err(Error::Delegation(m));
    }
    Ok(now.saturating_add(days * DAY))
}

/// `f` is a delegation over `service_key` that the identity issued, lapsing at
/// `not_after`.
pub open spec fn is_issued(
    f: DelegationFileModel,
    identity: SigningKey,
    service_key: Seq<u8>,
    not_after: u64,
) -> bool {
    &&& f.service_key == service_key
    &&& f.delegation.identity == public_key(identity)
    &&& f.delegation.not_after == not_after
    &&& f.delegation.signature == ed25519_signature(
        identity@,
        delegation_message(public_key(identity), service_key, not_after),
    )
    &&& delegation_verified(f.delegation, service_key) is Ok
}

/// Issue a delegation at `now`. A key cannot be its own identity.
pub fn delegate(
    identity: &SigningKey,
    service_key: &PubKey,
    days: u64,
    never_expires: bool,
    now: u64,
) -> (r: Result<DelegationFile>)
    ensures
        match r {
            Ok(f) => service_key@ != public_key(*identity) && (expiry_chosen(
                days,
                never_expires,
                now,
            ) matches Ok(not_after) && is_issued(f@, *identity, service_key@, not_after)),
            Err(e) => e@ == (if service_key@ == public_key(*identity) {
                ErrorModel::Delegation(
                    "a key cannot be its own identity: generate a separate service key"@,
                )
            } else {
                expiry_chosen(days, never_expires, now)->Err_0
            }) && (service_key@ == public_key(*identity) || expiry_chosen(
                days,
                never_expires,
                now,
            ) is Err),
        },
{
    if *service_key == public_of(identity) {
        return Err(
            Error::Delegation(
                String::from_str(
                    "a key cannot be its own identity: generate a separate service key",
                ),
            ),
        );
    }
    let not_after: u64 = choose_expiry(days, never_expires, now)?;
    let delegation = Delegation::issue(identity, service_key, not_after);
    Ok(DelegationFile::new(*service_key, delegation))
}

/// When the delegation of a retirement lapses.
pub open spec fn retirement_expiry(now: u64) -> u64 {
    if now + DEFAULT_DELEGATION_LIFETIME > u64::MAX {
        u64::MAX
    } else {
        (now + DEFAULT_DELEGATION_LIFETIME) as u64
    }
}

/// The delegation that carries an identity's authority to retire a key.
pub open spec fn retirement_grant(identity: SigningKey, service_key: Seq<u8>, now: u64) -> DelegationModel {
    DelegationModel {
        identity: public_key(identity),
        not_after: retirement_expiry(now),
        signature: ed25519_signature(
            identity@,
            delegation_message(public_key(identity), service_key, retirement_expiry(now)),
        ),
    }
}

/// The delegation that carries an identity's authority to retire `service_key`.
///
/// Minted fresh rather than reusing the node's copy: the identity is the
/// authority here, so all that matters is that this delegation names the same
/// identity the server already bound the key to.
pub fn retirement_delegation(identity: &SigningKey, service_key: &PubKey, now: u64) -> (d: Delegation)
    ensures
        d@ == retirement_grant(*identity, service_key@, now),
        delegation_verified(d@, service_key@) is Ok,
{
    Delegation::issue(identity, service_key, now.saturating_add(DEFAULT_DELEGATION_LIFETIME))
}

/// The record that retires `old` in favour of `new`, signed at `now`.
pub fn supersede_record(
    identity: &SigningKey,
    old: &PubKey,
    new: &PubKey,
    reason: &str,
    now: u64,
) -> (r: Result<SignedRecord>)
    ensures
        r matches Ok(s) && s@.record == superseded_model(
            old@,
            retirement_grant(*identity, old@, now),
            now,
            new@,
            reason@,
            now,
        ) && s@.signature == ed25519_signature(
            identity@,
            record_message(record_bytes(s@.record)),
        ) && signed_verified(s@) is Ok,
{
    let delegation = retirement_delegation(identity, old, now);
    Record::superseded_at(*old, delegation, now, *new, reason, now).sign(identity)
}

/// The record that revokes `key`, signed at `now`.
pub fn revoke_record(identity: &SigningKey, key: &PubKey, reason: &str, now: u64) -> (r: Result<
    SignedRecord,
>)
    ensures
        r matches Ok(s) && s@.record == revoked_model(
            key@,
            retirement_grant(*identity, key@, now),
            now,
            reason@,
            now,
        ) && s@.signature == ed25519_signature(
            identity@,
            record_message(record_bytes(s@.record)),
        ) && signed_verified(s@) is Ok,
{
    let delegation = retirement_delegation(identity, key, now);
    Record::revoked_at(*key, delegation, now, reason, now).sign(identity)
}

/// The keys of a listing that are not retired yet.
pub open spec fn still_live(v: Seq<SignedModel>) -> Seq<Seq<u8>>
    decreases v.len(),
{
    if v.len() == 0 {
        seq![]
    } else if is_terminal(v.last().record) {
        still_live(v.drop_last())
    } else {
        still_live(v.drop_last()).push(v.last().record.key)
    }
}

/// The keys of a listing that are not retired yet.
pub fn revoke_targets(listing: &Vec<SignedRecord>) -> (out: Vec<PubKey>)
    ensures
        key_seq(out@) == still_live(signed_models(listing@)),
{
    let ghost all = signed_models(listing@);
    let mut out: Vec<PubKey> = Vec::new();
    let mut i: usize = 0;
    proof {
        assert(all.subrange(0, 0) =~= seq![]);
        assert(key_seq(out@) =~= seq![]);
    }
    while i < listing.len()
        invariant
            i <= listing@.len(),
            all == signed_models(listing@),
            key_seq(out@) == still_live(all.subrange(0, i as int)),
        decreases listing@.len() - i,
    {
        proof {
            let done = all.subrange(0, i + 1);
            assert(done.drop_last() =~= all.subrange(0, i as int));
            assert(done.last() == listing@[i as int]@);
        }
        if !listing[i].record.is_terminal() {
            let ghost before = key_seq(out@);
            let k = listing[i].key();
            out.push(k);
            proof {
                assert(key_seq(out@) =~= before.push(k@));
            }
        }
        i += 1;
    }
    proof {
        assert(all.subrange(0, i as int) =~= all);
    }
    out
}

/// The error when nothing says what to revoke.
pub fn nothing_named() -> (e: Error)
    ensures
        e@ == ErrorModel::Key("pass --key <service key>, or --all with --identity-key"@),
{
    Error::Key(String::from_str("pass --key <service key>, or --all with --identity-key"))
}

/// Whether the answer to the confirmation prompt confirms.
pub fn check_confirmation(answer: &str) -> (r: Result<()>)
    ensures
        outcome(r) == (if trim(answer@) == "revoke"@ {
            Ok(())
        } else {
            Err(ErrorModel::Key("revocation cancelled"@))
        }),
{
    let t = trimmed(answer);
    if same_text(t.as_str(), "revoke") {
        Ok(())
    } else {
        Err(Error::Key(String::from_str("revocation cancelled")))
    }
}

} // verus!
