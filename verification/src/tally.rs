//! What several servers' replies amount to.

use vstd::prelude::*;
use vstd::string::*;

use crate::addr::{AddrModel, ServerAddr, addr_text};
use crate::error::{Error, ErrorModel, Result, error_text, join2, join3, join4, outcome};
use crate::key::{PubKey, base58, key_len};
use crate::protocol::{
    ErrorCode, Request, RequestModel, Response, ResponseModel, StatusInfo, code_name, code_number,
    server_error,
};
use crate::record::{SignedModel, SignedRecord, answer_verified, signed_models};
use crate::resolver::Resolver;
use crate::text::{join_all, joined, texts};

use crate::shown::response_shown;

verus! {

broadcast use key_len;

/// What one server replied, or why it did not.
pub type Reply = Result<Response>;

/// A refusal as text.
pub open spec fn refusal_text(code: ErrorCode, message: Seq<char>) -> Seq<char> {
    "server error "@ + code_name(code) + ": "@ + message
}

/// A response that was not the one hoped for, as text.
pub open spec fn described(r: ResponseModel) -> Seq<char> {
    match r {
        ResponseModel::Error { code, message } => refusal_text(code, message),
        other => "unexpected response: "@ + response_shown(other),
    }
}

/// A response that was not the one hoped for, as text.
pub fn describe(resp: &Response) -> (out: String)
    ensures
        out@ == described(resp@),
{
    match resp {
        Response::Error { code, message } => join4(
            "server error ",
            code.name(),
            ": ",
            message.as_str(),
        ),
        other => join2("unexpected response: ", other.shown().as_str()),
    }
}

// ---------------------------------------------------------------------------
// Asking one server after another
// ---------------------------------------------------------------------------

/// A request that is sent to each server in turn until one answers.
pub struct Attempts {
    what: String,
    errors: Vec<String>,
}

/// An [`Attempts`] with its texts as character sequences.
#[verifier::ext_equal]
pub struct AttemptsModel {
    /// What is being asked, as a word.
    pub what: Seq<char>,
    /// Why each server so far gave no answer.
    pub errors: Seq<Seq<char>>,
}

impl View for Attempts {
    type V = AttemptsModel;

    closed spec fn view(&self) -> AttemptsModel {
        AttemptsModel { what: self.what@, errors: texts(self.errors@) }
    }
}

/// Why a reply is no answer; nothing if it is one.
pub open spec fn no_answer(
    server: AddrModel,
    reply: std::result::Result<ResponseModel, ErrorModel>,
) -> Option<Seq<char>> {
    match reply {
        Ok(ResponseModel::Error { code, message }) => Some(
            addr_text(server) + ": "@ + refusal_text(code, message),
        ),
        Ok(_) => None,
        Err(e) => Some(addr_text(server) + ": "@ + error_text(e)),
    }
}

impl Attempts {
    /// No server asked yet.
    pub fn new(what: &str) -> (a: Self)
        ensures
            a@ == (AttemptsModel { what: what@, errors: seq![] }),
    {
        let a = Attempts { what: String::from_str(what), errors: Vec::new() };
        assert(a@.errors =~= seq![]);
        a
    }

    /// Take one server's reply: the answer, or nothing, and then the next
    /// server is to be asked.
    pub fn take(&mut self, server: &ServerAddr, reply: Reply) -> (r: Option<Response>)
        ensures
            match no_answer(server@, outcome(reply)) {
                None => outcome(reply) matches Ok(resp) && r matches Some(x) && x@ == resp && final(self)@ == old(self)@,
                Some(why) => r is None && final(self)@ == (AttemptsModel {
                    errors: old(self)@.errors.push(why),
                    ..old(self)@
                }),
            },
    {
        let ghost before = self@;
        match reply {
            Ok(resp) => {
                if let Response::Error { .. } = &resp {
                    let why = join3(
                        server.to_string().as_str(),
                        ": ",
                        describe(&resp).as_str(),
                    );
                    self.errors.push(why);
                    proof {
                        assert(self@.errors =~= before.errors.push(why@));
                    }
                    return None;
                }
                Some(resp)
            },
            Err(e) => {
                let why = join3(server.to_string().as_str(), ": ", e.to_string().as_str());
                self.errors.push(why);
                proof {
                    assert(self@.errors =~= before.errors.push(why@));
                }
                None
            },
        }
    }

    /// The error that no server answered.
    pub fn give_up(&self) -> (e: Error)
        ensures
            e@ == ErrorModel::NoServer(
                self@.what + " failed on every server ("@ + joined(self@.errors, "; "@) + ")"@,
            ),
    {
        let list = join_all(&self.errors, "; ");
        Error::NoServer(
            join4(self.what.as_str(), " failed on every server (", list.as_str(), ")"),
        )
    }
}

// ---------------------------------------------------------------------------
// Publishing to every server
// ---------------------------------------------------------------------------

/// How a record fared with the servers it was published to.
pub struct PublishTally {
    serial: u64,
    accepted: bool,
    errors: Vec<String>,
    stale_only: bool,
}

/// A [`PublishTally`] with its texts as character sequences.
#[verifier::ext_equal]
pub struct TallyModel {
    /// The record's own serial.
    pub serial: u64,
    /// Whether any server has taken it.
    pub accepted: bool,
    /// Why each other server did not take it.
    pub errors: Seq<Seq<char>>,
    /// Whether every refusal so far was for being stale.
    pub stale_only: bool,
}

impl View for PublishTally {
    type V = TallyModel;

    closed spec fn view(&self) -> TallyModel {
        TallyModel {
            serial: self.serial,
            accepted: self.accepted,
            errors: texts(self.errors@),
            stale_only: self.stale_only,
        }
    }
}

/// The tally after one more reply.
pub open spec fn tallied(
    t: TallyModel,
    server: AddrModel,
    reply: std::result::Result<ResponseModel, ErrorModel>,
) -> TallyModel {
    match reply {
        Ok(ResponseModel::Published { .. }) => TallyModel { accepted: true, ..t },
        Ok(other) => TallyModel {
            errors: t.errors.push(addr_text(server) + ": "@ + described(other)),
            stale_only: t.stale_only && (other matches ResponseModel::Error { code, .. } && code
                == ErrorCode::Stale),
            ..t
        },
        Err(e) => TallyModel {
            errors: t.errors.push(addr_text(server) + ": "@ + error_text(e)),
            stale_only: false,
            ..t
        },
    }
}

/// What a publish comes to: the record's serial if any server took it; stale if
/// every server refused it for that; else no server took it.
pub open spec fn publish_result(t: TallyModel) -> std::result::Result<u64, ErrorModel> {
    if t.accepted {
        Ok(t.serial)
    } else if t.stale_only && t.errors.len() > 0 {
        Err(
            ErrorModel::Server {
                code: code_number(ErrorCode::Stale),
                message: joined(t.errors, "; "@),
            },
        )
    } else {
        Err(
            ErrorModel::NoServer(
                "no server accepted the record ("@ + joined(t.errors, "; "@) + ")"@,
            ),
        )
    }
}

/// A tally before any server has replied.
pub open spec fn nothing_tallied(serial: u64) -> TallyModel {
    TallyModel { serial, accepted: false, errors: seq![], stale_only: true }
}

impl PublishTally {
    /// No server has replied to the publishing of `record` yet.
    pub fn new(record: &SignedRecord) -> (t: Self)
        ensures
            t@ == nothing_tallied(record@.record.serial),
    {
        let t = PublishTally {
            serial: record.record.serial,
            accepted: false,
            errors: Vec::new(),
            stale_only: true,
        };
        assert(t@.errors =~= seq![]);
        t
    }

    /// Take one server's reply.
    pub fn take(&mut self, server: &ServerAddr, reply: Reply)
        ensures
            final(self)@ == tallied(old(self)@, server@, outcome(reply)),
    {
        let ghost before = self@;
        let why = match reply {
            Ok(Response::Published { .. }) => {
                self.accepted = true;
                return;
            },
            Ok(other) => {
                let stale = match &other {
                    Response::Error { code, .. } => *code == ErrorCode::Stale,
                    _ => false,
                };
                self.stale_only = self.stale_only && stale;
                join3(server.to_string().as_str(), ": ", describe(&other).as_str())
            },
            Err(e) => {
                self.stale_only = false;
                join3(server.to_string().as_str(), ": ", e.to_string().as_str())
            },
        };
        self.errors.push(why);
        proof {
            assert(self@.errors =~= before.errors.push(why@));
        }
    }

    /// What the publish came to: the record's own serial if at least one server
    /// took it.
    ///
    /// A record refused everywhere purely as stale is reported as such, so a
    /// publisher can bump its serial and try again instead of giving up.
    pub fn finish(self) -> (r: Result<u64>)
        ensures
            outcome(r) == publish_result(self@),
    {
        if self.accepted {
            return Ok(self.serial);
        }
        let list = join_all(&self.errors, "; ");
        if self.stale_only && self.errors.len() > 0 {
            Err(Error::Server { code: ErrorCode::Stale.to_u16(), message: list })
        } else {
            Err(Error::NoServer(join3("no server accepted the record (", list.as_str(), ")")))
        }
    }
}

/// A server with what it replied.
pub type Replied = (AddrModel, std::result::Result<ResponseModel, ErrorModel>);

/// The tally after the replies of several servers, in turn.
pub open spec fn all_tallied(t: TallyModel, replies: Seq<Replied>) -> TallyModel
    decreases replies.len(),
{
    if replies.len() == 0 {
        t
    } else {
        let (server, reply) = replies.last();
        tallied(all_tallied(t, replies.drop_last()), server, reply)
    }
}

/// A reply that takes the record.
pub open spec fn took(r: Replied) -> bool {
    r.1 matches Ok(ResponseModel::Published { .. })
}

/// A reply that refuses the record for being stale.
pub open spec fn found_stale(r: Replied) -> bool {
    r.1 matches Ok(ResponseModel::Error { code, .. }) && code == ErrorCode::Stale
}

/// Publishing succeeds exactly if at least one server takes the record, whatever
/// the others say and in whatever order, and then gives the record's own
/// serial, whatever number a server reports. Refused by every server as stale,
/// it is reported as stale; refused otherwise, no server took it.
pub proof fn one_acceptance_is_enough(serial: u64, replies: Seq<Replied>)
    requires
        replies.len() > 0,
    ensures
        ({
            let r = publish_result(all_tallied(nothing_tallied(serial), replies));
            let taken = exists|i: int| 0 <= i < replies.len() && #[trigger] took(replies[i]);
            let all_stale = forall|i: int|
                0 <= i < replies.len() ==> #[trigger] found_stale(replies[i]);
            &&& taken ==> r == Ok::<u64, ErrorModel>(serial)
            &&& !taken && all_stale ==> (r matches Err(ErrorModel::Server { code, .. }) && code
                == code_number(ErrorCode::Stale))
            &&& !taken && !all_stale ==> r matches Err(ErrorModel::NoServer(_))
        }),
{
    tally_counts(serial, replies);
}

proof fn tally_counts(serial: u64, replies: Seq<Replied>)
    ensures
        ({
            let t = all_tallied(nothing_tallied(serial), replies);
            &&& t.serial == serial
            &&& t.accepted == (exists|i: int|
                0 <= i < replies.len() && #[trigger] took(replies[i]))
            &&& t.stale_only == (forall|i: int|
                0 <= i < replies.len() && !took(replies[i]) ==> #[trigger] found_stale(replies[i]))
            &&& !t.accepted ==> t.errors.len() == replies.len()
        }),
    decreases replies.len(),
{
    if replies.len() > 0 {
        let rest = replies.drop_last();
        let n = replies.len() - 1;
        tally_counts(serial, rest);
        let t = all_tallied(nothing_tallied(serial), replies);
        let before = all_tallied(nothing_tallied(serial), rest);
        assert(replies[n] == replies.last());
        assert forall|i: int| 0 <= i < n implies rest[i] == #[trigger] replies[i] by {}
        if before.accepted {
            let i = choose|i: int| 0 <= i < rest.len() && #[trigger] took(rest[i]);
            assert(took(replies[i]));
        }
        if t.accepted {
            if took(replies.last()) {
                assert(took(replies[n]));
            }
        } else {
            assert(!took(replies[n]));
        }
        if exists|i: int| 0 <= i < replies.len() && #[trigger] took(replies[i]) {
            let i = choose|i: int| 0 <= i < replies.len() && #[trigger] took(replies[i]);
            if i < n {
                assert(took(rest[i]));
            }
        }
        if t.stale_only {
            assert forall|i: int| 0 <= i < replies.len() && !took(replies[i]) implies #[trigger]
                found_stale(replies[i]) by {
                if i < n {
                    assert(found_stale(rest[i]) || took(rest[i]));
                }
            }
        } else if !before.stale_only {
            let i = choose|i: int|
                0 <= i < rest.len() && !took(rest[i]) && !(#[trigger] found_stale(rest[i]));
            assert(!found_stale(replies[i]) && !took(replies[i]));
        } else {
            assert(!found_stale(replies[n]) && !took(replies[n]));
        }
    }
}

/// The request that publishes a record, unless it could never be accepted.
pub open spec fn publish_asked(s: SignedModel, now: u64) -> std::result::Result<
    RequestModel,
    ErrorModel,
> {
    match answer_verified(s, s.record.key, now) {
        Err(e) => Err(e),
        Ok(_) => Ok(RequestModel::Publish { record: s }),
    }
}

impl Resolver {
    /// The request that publishes a record, once it passes the checks a client
    /// applies to an answer: a record that could never be accepted fails here
    /// rather than on every server.
    pub fn publish_request(&self, record: &SignedRecord, now: u64) -> (r: Result<Request>)
        ensures
            outcome(r) == publish_asked(record@, now),
    {
        record.verify_answer(&record.key(), now)?;
        Ok(Request::Publish { record: Box::new(record.clone()) })
    }
}

// ---------------------------------------------------------------------------
// Single replies
// ---------------------------------------------------------------------------

/// A record listed under an identity that did not issue it.
pub open spec fn not_issued_by(key: Seq<u8>, identity: Seq<u8>) -> ErrorModel {
    ErrorModel::Delegation(
        base58(key) + " was listed under "@ + base58(identity) + " but is not issued by it"@,
    )
}

/// The check of one record listed under an identity.
pub open spec fn listing_checked(s: SignedModel, identity: Seq<u8>, now: u64) -> std::result::Result<
    (),
    ErrorModel,
> {
    match answer_verified(s, s.record.key, now) {
        Err(e) => Err(e),
        Ok(_) => if s.record.delegation.identity != identity {
            Err(not_issued_by(s.record.key, identity))
        } else {
            Ok(())
        },
    }
}

/// The check of records listed under an identity, up to the first that fails.
pub open spec fn listings_checked(
    v: Seq<SignedModel>,
    identity: Seq<u8>,
    now: u64,
) -> std::result::Result<(), ErrorModel>
    decreases v.len(),
{
    if v.len() == 0 {
        Ok(())
    } else {
        match listings_checked(v.drop_last(), identity, now) {
            Err(e) => Err(e),
            Ok(_) => listing_checked(v.last(), identity, now),
        }
    }
}

/// A successful check of a list is a successful check of each record in it.
pub proof fn listings_all_stand(v: Seq<SignedModel>, identity: Seq<u8>, now: u64, i: int)
    requires
        listings_checked(v, identity, now) is Ok,
        0 <= i < v.len(),
    ensures
        answer_verified(v[i], v[i].record.key, now) is Ok,
        v[i].record.delegation.identity == identity,
    decreases v.len(),
{
    if i < v.len() - 1 {
        listings_all_stand(v.drop_last(), identity, now, i);
    }
}

proof fn listings_stuck(v: Seq<SignedModel>, k: int, identity: Seq<u8>, now: u64)
    requires
        0 <= k <= v.len(),
        listings_checked(v.subrange(0, k), identity, now) is Err,
    ensures
        listings_checked(v, identity, now) == listings_checked(v.subrange(0, k), identity, now),
    decreases v.len(),
{
    if k < v.len() {
        assert(v.drop_last().subrange(0, k) =~= v.subrange(0, k));
        listings_stuck(v.drop_last(), k, identity, now);
    } else {
        assert(v.subrange(0, k) =~= v);
    }
}

/// What a reply to an identity lookup is worth.
pub open spec fn identity_listing(
    reply: ResponseModel,
    identity: Seq<u8>,
    now: u64,
) -> std::result::Result<Seq<SignedModel>, ErrorModel> {
    match reply {
        ResponseModel::Records { records, .. } => match listings_checked(records, identity, now) {
            Err(e) => Err(e),
            Ok(_) => Ok(records),
        },
        other => Err(server_error(other)),
    }
}

/// What a reply to an identity lookup is worth. Each record has to stand on
/// its own signature, and really be issued by the identity asked about.
pub fn take_identity_listing(identity: &PubKey, reply: Response, now: u64) -> (r: Result<
    Vec<SignedRecord>,
>)
    ensures
        match r {
            Ok(v) => identity_listing(reply@, identity@, now) == Ok::<
                Seq<SignedModel>,
                ErrorModel,
            >(signed_models(v@)),
            Err(e) => identity_listing(reply@, identity@, now) == Err::<
                Seq<SignedModel>,
                ErrorModel,
            >(e@),
        },
{
    match reply {
        Response::Records { records, complete: _ } => {
            let ghost all = signed_models(records@);
            let mut i: usize = 0;
            proof {
                assert(all.subrange(0, 0) =~= seq![]);
            }
            while i < records.len()
                invariant
                    i <= records@.len(),
                    all == signed_models(records@),
                    identity_listing(reply@, identity@, now) == (match listings_checked(
                        all,
                        identity@,
                        now,
                    ) {
                        Err(e) => Err(e),
                        Ok(_) => Ok(all),
                    }),
                    listings_checked(all.subrange(0, i as int), identity@, now) is Ok,
                decreases records@.len() - i,
            {
                let rec = &records[i];
                let key = rec.key();
                proof {
                    let done = all.subrange(0, i + 1);
                    assert(done.drop_last() =~= all.subrange(0, i as int));
                    assert(done.last() == rec@);
                    if listings_checked(done, identity@, now) is Err {
                        listings_stuck(all, i + 1, identity@, now);
                    }
                }
                rec.verify_answer(&key, now)?;
                if rec.identity() != *identity {
                    let mut m = key.to_string();
                    m.append(" was listed under ");
                    m.append(identity.to_string().as_str());
                    m.append(" but is not issued by it");
                    return Err(Error::Delegation(m));
                }
                i += 1;
            }
            proof {
                assert(all.subrange(0, i as int) =~= all);
            }
            Ok(records)
        },
        other => Err(other.into_server_error()),
    }
}

/// What a reply to a status request is worth.
pub fn take_status(reply: Response) -> (r: Result<StatusInfo>)
    ensures
        outcome(r) == (match reply@ {
            ResponseModel::Status(s) => Ok(s),
            other => Err(server_error(other)),
        }),
{
    match reply {
        Response::Status(info) => Ok(info),
        other => Err(other.into_server_error()),
    }
}

} // verus!
