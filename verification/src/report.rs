//! What the command line client prints, line by line.

use vstd::prelude::*;
use vstd::string::*;

use crate::endpoint::{Endpoint, EndpointModel, endpoint_models};
use crate::endpoint_text::endpoint_authority;
use crate::error::{Error, ErrorModel, Result, join2, join3, join4};
use crate::key::{PubKey, base58, key_len};
use crate::protocol::{DEFAULT_PORT, StatusInfo, StatusModel};
use crate::record::{
    BodyModel, Record, RecordBody, RecordModel, SignedModel, SignedRecord, endpoints_of, expires_at,
    signed_models,
};
use crate::select::{may_order, order_endpoints};
use crate::text::{dec, dec_text, push_dec, texts};
use crate::walk::{ServiceLocation, key_seq};

verus! {

broadcast use key_len;

/// A length of time in its two largest units.
pub open spec fn duration_text(secs: u64) -> Seq<char> {
    if secs < 60 {
        dec(secs as nat) + "s"@
    } else if secs < 3600 {
        dec((secs / 60) as nat) + "m"@ + dec((secs % 60) as nat) + "s"@
    } else if secs < 86400 {
        dec((secs / 3600) as nat) + "h"@ + dec((secs % 3600 / 60) as nat) + "m"@
    } else {
        dec((secs / 86400) as nat) + "d"@ + dec((secs % 86400 / 3600) as nat) + "h"@
    }
}

/// A length of time in its two largest units.
pub fn format_duration(secs: u64) -> (out: String)
    ensures
        out@ == duration_text(secs),
{
    if secs < 60 {
        let mut out = dec_text(secs);
        out.append("s");
        out
    } else if secs < 3600 {
        let mut out = dec_text(secs / 60);
        out.append("m");
        push_dec(&mut out, secs % 60);
        out.append("s");
        out
    } else if secs < 86400 {
        let mut out = dec_text(secs / 3600);
        out.append("h");
        push_dec(&mut out, secs % 3600 / 60);
        out.append("m");
        out
    } else {
        let mut out = dec_text(secs / 86400);
        out.append("d");
        push_dec(&mut out, secs % 86400 / 3600);
        out.append("h");
        out
    }
}

/// One-line state of a record.
pub open spec fn state_text(r: RecordModel) -> Seq<char> {
    match r.body {
        BodyModel::Superseded { successor, .. } => "superseded by "@ + base58(successor),
        BodyModel::Revoked { reason } => "revoked ("@ + reason + ")"@,
        BodyModel::Live { endpoints } => if endpoints.len() == 0 {
            "withdrawn"@
        } else {
            "live, "@ + dec(endpoints.len()) + " endpoint(s)"@
        },
    }
}

/// One-line state of a record, for listings.
pub fn describe_state(record: &SignedRecord) -> (out: String)
    ensures
        out@ == state_text(record@.record),
{
    match &record.record.body {
        RecordBody::Superseded { successor, .. } => join2(
            "superseded by ",
            successor.to_string().as_str(),
        ),
        RecordBody::Revoked { reason } => join3("revoked (", reason.as_str(), ")"),
        RecordBody::Live { endpoints } => if endpoints.len() == 0 {
            String::from_str("withdrawn")
        } else {
            let mut out = String::from_str("live, ");
            push_dec(&mut out, endpoints.len() as u64);
            out.append(" endpoint(s)");
            out
        },
    }
}

// ---------------------------------------------------------------------------
// Records
// ---------------------------------------------------------------------------

/// Blanks.
pub open spec fn blanks(n: nat) -> Seq<char> {
    Seq::new(n, |i: int| ' ')
}

/// `s` filled up with blanks to `width` characters.
pub open spec fn padded(s: Seq<char>, width: nat) -> Seq<char> {
    if s.len() < width {
        s + blanks((width - s.len()) as nat)
    } else {
        s
    }
}

fn pad(s: &str, width: usize) -> (out: String)
    ensures
        out@ == padded(s@, width as nat),
{
    let n: usize = s.unicode_len();
    let mut out = String::from_str(s);
    let mut i: usize = n;
    proof {
        assert(s@ + blanks(0) =~= s@);
    }
    while i < width
        invariant
            n == s@.len(),
            n <= i,
            i <= width || i == n,
            out@ == s@ + blanks((i - n) as nat),
        decreases width - i,
    {
        out.push(' ');
        i += 1;
        assert(out@ =~= s@ + blanks((i - n) as nat));
    }
    out
}

/// The line of one endpoint.
pub open spec fn endpoint_line(e: EndpointModel) -> Seq<char> {
    "  "@ + padded(endpoint_authority(e), 40) + " priority="@ + padded(dec(e.priority as nat), 5)
        + " weight="@ + dec(e.weight as nat)
}

/// The lines of endpoints, in order.
pub open spec fn endpoint_lines(v: Seq<EndpointModel>) -> Seq<Seq<char>> {
    Seq::new(v.len(), |i: int| endpoint_line(v[i]))
}

/// The first lines of every record.
pub open spec fn head_lines(r: RecordModel, now: u64) -> Seq<Seq<char>> {
    seq![
        "key:      "@ + base58(r.key),
        "identity: "@ + base58(r.delegation.identity),
        "serial:   "@ + dec(r.serial as nat),
        "issued:   "@ + dec(
            if now > r.issued_at {
                (now - r.issued_at) as nat
            } else {
                0
            },
        ) + "s ago"@,
    ]
}

/// What is left of a time, at `now`.
pub open spec fn time_left(until: u64, now: u64) -> u64 {
    if until > now {
        (until - now) as u64
    } else {
        0
    }
}

/// The lines about a live record's lifetime.
pub open spec fn lifetime_lines(r: RecordModel, now: u64) -> Seq<Seq<char>> {
    seq![
        "expires:  in "@ + duration_text(time_left(expires_at(r), now)) + " (ttl "@ + dec(
            r.ttl as nat,
        ) + "s)"@,
        if r.delegation.not_after == crate::delegation::NEVER_EXPIRES {
            "delegation: never expires"@
        } else {
            "delegation: valid for another "@ + duration_text(
                time_left(r.delegation.not_after, now),
            )
        },
    ]
}

/// The lines of a record, its endpoints in the order `order`.
pub open spec fn record_report(r: RecordModel, order: Seq<EndpointModel>, now: u64) -> Seq<
    Seq<char>,
> {
    match r.body {
        BodyModel::Superseded { successor, reason } => head_lines(r, now) + seq![
            "status:   SUPERSEDED — this key is retired ("@ + reason + ")"@,
            "now use:  "@ + base58(successor),
            ""@,
            "Resolving the old key follows this forward automatically; update any"@,
            "pinned copy of it to the new key."@,
        ],
        BodyModel::Revoked { reason } => head_lines(r, now) + seq![
            "status:   REVOKED — this key is permanently dead"@,
            "reason:   "@ + reason,
        ],
        BodyModel::Live { endpoints } => if endpoints.len() == 0 {
            head_lines(r, now) + lifetime_lines(r, now)
                + seq!["endpoints: none — this key is withdrawn"@]
        } else {
            head_lines(r, now) + lifetime_lines(r, now) + seq!["endpoints:"@] + endpoint_lines(order)
        },
    }
}

fn add_line(out: &mut Vec<String>, line: String)
    ensures
        texts(final(out)@) == texts(old(out)@).push(line@),
{
    let ghost before = texts(out@);
    out.push(line);
    assert(texts(out@) =~= before.push(line@));
}

fn line_of_endpoint(e: &Endpoint) -> (out: String)
    ensures
        out@ == endpoint_line(e@),
{
    let mut out = join2("  ", pad(e.authority().as_str(), 40).as_str());
    out.append(" priority=");
    out.append(pad(dec_text(e.priority as u64).as_str(), 5).as_str());
    out.append(" weight=");
    push_dec(&mut out, e.weight as u64);
    out
}

fn add_head(out: &mut Vec<String>, rec: &Record, now: u64)
    ensures
        texts(final(out)@) == texts(old(out)@) + head_lines(rec@, now),
{
    let ghost before = texts(out@);
    add_line(out, join2("key:      ", rec.key.to_string().as_str()));
    add_line(out, join2("identity: ", rec.identity().to_string().as_str()));
    add_line(out, join2("serial:   ", dec_text(rec.serial).as_str()));
    add_line(
        out,
        join3("issued:   ", dec_text(now.saturating_sub(rec.issued_at)).as_str(), "s ago"),
    );
    assert(texts(out@) =~= before + head_lines(rec@, now));
}

fn add_lifetime(out: &mut Vec<String>, rec: &Record, now: u64)
    ensures
        texts(final(out)@) == texts(old(out)@) + lifetime_lines(rec@, now),
{
    let ghost before = texts(out@);
    let mut line = join3(
        "expires:  in ",
        format_duration(rec.remaining(now)).as_str(),
        " (ttl ",
    );
    push_dec(&mut line, rec.ttl as u64);
    line.append("s)");
    add_line(out, line);
    if rec.delegation.never_expires() {
        add_line(out, String::from_str("delegation: never expires"));
    } else {
        add_line(
            out,
            join2(
                "delegation: valid for another ",
                format_duration(rec.delegation.not_after.saturating_sub(now)).as_str(),
            ),
        );
    }
    assert(texts(out@) =~= before + lifetime_lines(rec@, now));
}

/// The lines that show a record at `now`, its endpoints in an order to try
/// them in.
pub fn record_lines(record: &SignedRecord, now: u64) -> (out: Vec<String>)
    ensures
        exists|order: Seq<EndpointModel>|
            may_order(endpoints_of(record@.record), order) && texts(out@)
                == #[trigger] record_report(record@.record, order, now),
{
    let rec = &record.record;
    let order = order_endpoints(rec);
    let ghost model = endpoint_models(order@);
    let mut out: Vec<String> = Vec::new();
    add_head(&mut out, rec, now);
    proof {
        assert(texts(out@) =~= head_lines(rec@, now));
    }
    match &rec.body {
        RecordBody::Superseded { successor, reason } => {
            add_line(
                &mut out,
                join3(
                    "status:   SUPERSEDED — this key is retired (",
                    reason.as_str(),
                    ")",
                ),
            );
            add_line(&mut out, join2("now use:  ", successor.to_string().as_str()));
            add_line(&mut out, String::from_str(""));
            add_line(
                &mut out,
                String::from_str(
                    "Resolving the old key follows this forward automatically; update any",
                ),
            );
            add_line(&mut out, String::from_str("pinned copy of it to the new key."));
            assert(texts(out@) =~= record_report(rec@, model, now));
        },
        RecordBody::Revoked { reason } => {
            add_line(
                &mut out,
                String::from_str("status:   REVOKED — this key is permanently dead"),
            );
            add_line(&mut out, join2("reason:   ", reason.as_str()));
            assert(texts(out@) =~= record_report(rec@, model, now));
        },
        RecordBody::Live { endpoints } => {
            add_lifetime(&mut out, rec, now);
            if endpoints.len() == 0 {
                add_line(
                    &mut out,
                    String::from_str("endpoints: none — this key is withdrawn"),
                );
                assert(texts(out@) =~= record_report(rec@, model, now));
            } else {
                add_line(&mut out, String::from_str("endpoints:"));
                let ghost before = texts(out@);
                let mut i: usize = 0;
                proof {
                    assert(before + endpoint_lines(model.subrange(0, 0)) =~= before);
                }
                while i < order.len()
                    invariant
                        i <= order@.len(),
                        model == endpoint_models(order@),
                        texts(out@) == before + endpoint_lines(model.subrange(0, i as int)),
                    decreases order@.len() - i,
                {
                    add_line(&mut out, line_of_endpoint(&order[i]));
                    proof {
                        assert(texts(out@) =~= before + endpoint_lines(
                            model.subrange(0, i + 1),
                        ));
                    }
                    i += 1;
                }
                proof {
                    assert(model.subrange(0, i as int) =~= model);
                    assert(texts(out@) =~= record_report(rec@, model, now));
                }
            }
        },
    }
    out
}

// ---------------------------------------------------------------------------
// Commands
// ---------------------------------------------------------------------------

/// The lines that show a server's counters.
pub open spec fn status_report(s: StatusModel) -> Seq<Seq<char>> {
    let head = seq![
        "version:   "@ + s.version,
        "records:   "@ + dec(s.records as nat),
        "peers:     "@ + dec(s.peers as nat),
    ];
    let relay = if s.upstreams > 0 {
        seq![
            "upstreams: "@ + dec(s.upstreams as nat),
            "cached:    "@ + dec(s.cached as nat) + " (relayed, not replicated)"@,
        ]
    } else {
        seq![]
    };
    head + relay + seq!["uptime:    "@ + duration_text(s.uptime_secs)]
}

/// The lines that show a server's counters.
pub fn status_lines(info: &StatusInfo) -> (out: Vec<String>)
    ensures
        texts(out@) == status_report(info@),
{
    let mut out: Vec<String> = Vec::new();
    add_line(&mut out, join2("version:   ", info.version.as_str()));
    add_line(&mut out, join2("records:   ", dec_text(info.records).as_str()));
    add_line(&mut out, join2("peers:     ", dec_text(info.peers as u64).as_str()));
    if info.upstreams > 0 {
        add_line(&mut out, join2("upstreams: ", dec_text(info.upstreams as u64).as_str()));
        add_line(
            &mut out,
            join3("cached:    ", dec_text(info.cached).as_str(), " (relayed, not replicated)"),
        );
    }
    add_line(&mut out, join2("uptime:    ", format_duration(info.uptime_secs).as_str()));
    assert(texts(out@) =~= status_report(info@));
    out
}

/// The lines of records listed under an identity.
pub open spec fn listing_lines(v: Seq<SignedModel>) -> Seq<Seq<char>> {
    Seq::new(
        v.len(),
        |i: int| "  "@ + base58(v[i].record.key) + "  "@ + state_text(v[i].record),
    )
}

/// The lines that show what an identity has issued.
pub open spec fn identity_report(identity: Seq<u8>, v: Seq<SignedModel>) -> Seq<Seq<char>> {
    if v.len() == 0 {
        seq![base58(identity) + " has no service keys on this server"@]
    } else {
        seq![base58(identity) + " has issued "@ + dec(v.len()) + " service key(s):"@]
            + listing_lines(v)
    }
}

/// The lines that show what an identity has issued.
pub fn identity_lines(identity: &PubKey, records: &Vec<SignedRecord>) -> (out: Vec<String>)
    ensures
        texts(out@) == identity_report(identity@, signed_models(records@)),
{
    let ghost all = signed_models(records@);
    let mut out: Vec<String> = Vec::new();
    if records.len() == 0 {
        add_line(
            &mut out,
            join2(identity.to_string().as_str(), " has no service keys on this server"),
        );
        assert(texts(out@) =~= identity_report(identity@, all));
        return out;
    }
    let mut head = join2(identity.to_string().as_str(), " has issued ");
    push_dec(&mut head, records.len() as u64);
    head.append(" service key(s):");
    add_line(&mut out, head);
    let ghost before = texts(out@);
    let mut i: usize = 0;
    proof {
        assert(before =~= seq![head@]);
        assert(before + listing_lines(all.subrange(0, 0)) =~= before);
    }
    while i < records.len()
        invariant
            i <= records@.len(),
            all == signed_models(records@),
            texts(out@) == before + listing_lines(all.subrange(0, i as int)),
        decreases records@.len() - i,
    {
        let rec = &records[i];
        add_line(
            &mut out,
            join4(
                "  ",
                rec.key().to_string().as_str(),
                "  ",
                describe_state(rec).as_str(),
            ),
        );
        proof {
            assert(texts(out@) =~= before + listing_lines(all.subrange(0, i + 1)));
        }
        i += 1;
    }
    proof {
        assert(all.subrange(0, i as int) =~= all);
    }
    out
}

/// The endpoints of a location, one per line; a withdrawn key has none, which
/// is an error to anything that wants to connect.
pub open spec fn location_report(l: ServiceLocation) -> std::result::Result<
    Seq<Seq<char>>,
    ErrorModel,
> {
    if l.endpoints@.len() == 0 {
        Err(ErrorModel::Unpublished(base58(l.requested@) + " (withdrawn)"@))
    } else {
        Ok(Seq::new(l.endpoints@.len(), |i: int| endpoint_authority(l.endpoints@[i]@)))
    }
}

/// The endpoints of a location, one per line.
pub fn location_lines(location: &ServiceLocation) -> (r: Result<Vec<String>>)
    ensures
        match r {
            Ok(v) => location_report(*location) == Ok::<Seq<Seq<char>>, ErrorModel>(texts(v@)),
            Err(e) => location_report(*location) == Err::<Seq<Seq<char>>, ErrorModel>(e@),
        },
{
    if location.endpoints.len() == 0 {
        return Err(
            Error::Unpublished(
                join2(location.requested.to_string().as_str(), " (withdrawn)"),
            ),
        );
    }
    let mut out: Vec<String> = Vec::new();
    let mut i: usize = 0;
    while i < location.endpoints.len()
        invariant
            i <= location.endpoints@.len(),
            out@.len() == i,
            forall|j: int|
                0 <= j < i ==> texts(out@)[j] == endpoint_authority(
                    (#[trigger] location.endpoints@[j])@,
                ),
        decreases location.endpoints@.len() - i,
    {
        let ghost before = texts(out@);
        add_line(&mut out, location.endpoints[i].authority());
        proof {
            assert forall|j: int| 0 <= j < i + 1 implies texts(out@)[j] == endpoint_authority(
                (#[trigger] location.endpoints@[j])@,
            ) by {
                if j < i {
                    assert(texts(out@)[j] == before[j]);
                }
            }
            assert(texts(out@).len() == i + 1);
        }
        i += 1;
    }
    proof {
        assert(texts(out@) =~= location_report(*location)->Ok_0);
    }
    Ok(out)
}

/// What a caller whose key has been rotated is told.
pub fn rotation_notice(location: &ServiceLocation) -> (line: Option<String>)
    ensures
        match line {
            Some(s) => location.key@ != location.requested@ && s@ == "sqns: "@ + base58(
                location.requested@,
            ) + " has been rotated; it now resolves to "@ + base58(location.key@),
            None => location.key@ == location.requested@,
        },
{
    if location.is_stale() {
        Some(
            join4(
                "sqns: ",
                location.requested.to_string().as_str(),
                " has been rotated; it now resolves to ",
                location.key.to_string().as_str(),
            ),
        )
    } else {
        None
    }
}

/// What a publish reports.
pub open spec fn published_report(key: Seq<u8>, identity: Seq<u8>, serial: u64, ttl: u32) -> Seq<
    Seq<char>,
> {
    seq![
        "published "@ + base58(key) + " serial "@ + dec(serial as nat) + ", expires in "@ + dec(
            ttl as nat,
        ) + "s"@,
        "  issued by identity "@ + base58(identity),
    ]
}

/// What a publish reports.
pub fn published_lines(key: &PubKey, identity: &PubKey, serial: u64, ttl: u32) -> (out: Vec<
    String,
>)
    ensures
        texts(out@) == published_report(key@, identity@, serial, ttl),
{
    let mut out: Vec<String> = Vec::new();
    let mut line = join3("published ", key.to_string().as_str(), " serial ");
    push_dec(&mut line, serial);
    line.append(", expires in ");
    push_dec(&mut line, ttl as u64);
    line.append("s");
    add_line(&mut out, line);
    add_line(&mut out, join2("  issued by identity ", identity.to_string().as_str()));
    assert(texts(out@) =~= published_report(key@, identity@, serial, ttl));
    out
}

/// What a withdrawal reports.
pub fn withdrew_line(key: &PubKey, serial: u64) -> (line: String)
    ensures
        line@ == "withdrew "@ + base58(key@) + " serial "@ + dec(serial as nat),
{
    let mut line = join3("withdrew ", key.to_string().as_str(), " serial ");
    push_dec(&mut line, serial);
    line
}

/// What superseding a key reports.
pub open spec fn superseded_report(old_key: Seq<u8>, new_key: Seq<u8>) -> Seq<Seq<char>> {
    seq![
        "superseded "@ + base58(old_key),
        "       now "@ + base58(new_key),
        ""@,
        "Lookups of the old key now return the new one and its endpoints."@,
        "Nothing more will be accepted for the old key."@,
    ]
}

/// What superseding a key reports.
pub fn superseded_lines(old_key: &PubKey, new_key: &PubKey) -> (out: Vec<String>)
    ensures
        texts(out@) == superseded_report(old_key@, new_key@),
{
    let mut out: Vec<String> = Vec::new();
    add_line(&mut out, join2("superseded ", old_key.to_string().as_str()));
    add_line(&mut out, join2("       now ", new_key.to_string().as_str()));
    add_line(&mut out, String::from_str(""));
    add_line(
        &mut out,
        String::from_str("Lookups of the old key now return the new one and its endpoints."),
    );
    add_line(&mut out, String::from_str("Nothing more will be accepted for the old key."));
    assert(texts(out@) =~= superseded_report(old_key@, new_key@));
    out
}

/// The keys that are about to be revoked, one per line.
pub open spec fn key_lines(v: Seq<Seq<u8>>) -> Seq<Seq<char>> {
    Seq::new(v.len(), |i: int| "  "@ + base58(v[i]))
}

/// What is asked before keys are revoked.
pub open spec fn revoke_warning(v: Seq<Seq<u8>>) -> Seq<Seq<char>> {
    seq!["This permanently revokes "@ + dec(v.len()) + " service key(s):"@] + key_lines(v) + seq![
        "No record for them will ever be accepted again, by any server that holds"@,
        "the revocation. It cannot be undone."@,
    ]
}

/// What is asked before keys are revoked.
pub fn revoke_warning_lines(targets: &Vec<PubKey>) -> (out: Vec<String>)
    ensures
        texts(out@) == revoke_warning(key_seq(targets@)),
{
    let ghost all = key_seq(targets@);
    let mut out: Vec<String> = Vec::new();
    let mut head = String::from_str("This permanently revokes ");
    push_dec(&mut head, targets.len() as u64);
    head.append(" service key(s):");
    add_line(&mut out, head);
    let ghost before = texts(out@);
    let mut i: usize = 0;
    proof {
        assert(before =~= seq![head@]);
        assert(before + key_lines(all.subrange(0, 0)) =~= before);
    }
    while i < targets.len()
        invariant
            i <= targets@.len(),
            all == key_seq(targets@),
            texts(out@) == before + key_lines(all.subrange(0, i as int)),
        decreases targets@.len() - i,
    {
        add_line(&mut out, join2("  ", targets[i].to_string().as_str()));
        proof {
            assert(texts(out@) =~= before + key_lines(all.subrange(0, i + 1)));
        }
        i += 1;
    }
    proof {
        assert(all.subrange(0, i as int) =~= all);
    }
    add_line(
        &mut out,
        String::from_str(
            "No record for them will ever be accepted again, by any server that holds",
        ),
    );
    add_line(&mut out, String::from_str("the revocation. It cannot be undone."));
    assert(texts(out@) =~= revoke_warning(all));
    out
}

/// What a new client key reports.
pub open spec fn keygen_report(path: Seq<char>, key: Seq<u8>, identity: bool) -> Seq<Seq<char>> {
    let head = seq!["private key: "@ + path, "public key:  "@ + base58(key)];
    if identity {
        head + seq![
            ""@,
            "This is your identity key: it issues service keys and is the only thing"@,
            "that can retire them. Keep it off the machines that run services."@,
        ]
    } else {
        head
    }
}

/// What a new client key reports.
pub fn keygen_lines(path: &str, key: &PubKey, identity: bool) -> (out: Vec<String>)
    ensures
        texts(out@) == keygen_report(path@, key@, identity),
{
    let mut out: Vec<String> = Vec::new();
    add_line(&mut out, join2("private key: ", path));
    add_line(&mut out, join2("public key:  ", key.to_string().as_str()));
    if identity {
        add_line(&mut out, String::from_str(""));
        add_line(
            &mut out,
            String::from_str(
                "This is your identity key: it issues service keys and is the only thing",
            ),
        );
        add_line(
            &mut out,
            String::from_str("that can retire them. Keep it off the machines that run services."),
        );
    }
    assert(texts(out@) =~= keygen_report(path@, key@, identity));
    out
}

/// What a new server key reports.
pub open spec fn server_keygen_report(path: Seq<char>, key: Seq<u8>) -> Seq<Seq<char>> {
    seq![
        "private key: "@ + path,
        "public key:  "@ + base58(key),
        "connect as:  sqc://<host>:"@ + dec(DEFAULT_PORT as nat) + "/"@ + base58(key),
    ]
}

/// What a new server key reports.
pub fn server_keygen_lines(path: &str, key: &PubKey) -> (out: Vec<String>)
    ensures
        texts(out@) == server_keygen_report(path@, key@),
{
    let mut out: Vec<String> = Vec::new();
    add_line(&mut out, join2("private key: ", path));
    add_line(&mut out, join2("public key:  ", key.to_string().as_str()));
    let mut line = String::from_str("connect as:  sqc://<host>:");
    push_dec(&mut line, DEFAULT_PORT as u64);
    line.append("/");
    line.append(key.to_string().as_str());
    add_line(&mut out, line);
    assert(texts(out@) =~= server_keygen_report(path@, key@));
    out
}

/// What issuing a delegation reports.
pub open spec fn delegated_report(
    path: Seq<char>,
    identity: Seq<u8>,
    service_key: Seq<u8>,
    days: u64,
    never_expires: bool,
) -> Seq<Seq<char>> {
    seq![
        "delegation:  "@ + path,
        "identity:    "@ + base58(identity),
        "service key: "@ + base58(service_key),
        if never_expires {
            "valid for:   forever"@
        } else {
            "valid for:   "@ + dec(days as nat) + " days"@
        },
        ""@,
        "Publish with: sqns publish --key-file <service seed> --delegation "@ + path,
    ]
}

/// What issuing a delegation reports.
pub fn delegated_lines(
    path: &str,
    identity: &PubKey,
    service_key: &PubKey,
    days: u64,
    never_expires: bool,
) -> (out: Vec<String>)
    ensures
        texts(out@) == delegated_report(path@, identity@, service_key@, days, never_expires),
{
    let mut out: Vec<String> = Vec::new();
    add_line(&mut out, join2("delegation:  ", path));
    add_line(&mut out, join2("identity:    ", identity.to_string().as_str()));
    add_line(&mut out, join2("service key: ", service_key.to_string().as_str()));
    if never_expires {
        add_line(&mut out, String::from_str("valid for:   forever"));
    } else {
        add_line(&mut out, join3("valid for:   ", dec_text(days).as_str(), " days"));
    }
    add_line(&mut out, String::from_str(""));
    add_line(
        &mut out,
        join2("Publish with: sqns publish --key-file <service seed> --delegation ", path),
    );
    assert(texts(out@) =~= delegated_report(path@, identity@, service_key@, days, never_expires));
    out
}

} // verus!
