//! Self-registration: sign your own endpoint set and keep it refreshed.
//!
//! A node holds the private key that its record speaks for, so it is the only
//! party that can publish or change that record. Records expire, so a node that
//! goes away stops being advertised without anyone having to retract it: the
//! publisher re-signs on a timer well inside the TTL.

use vstd::prelude::*;
use vstd::string::*;

use crate::delegation::{Delegation, DelegationModel, delegation_verified};
use crate::endpoint::{Endpoint, EndpointModel, clone_endpoints, endpoint_models};
use crate::error::{Error, ErrorModel, Result, outcome};
use crate::key::{PubKey, SigningKey, key_len, public_key, public_of};
use crate::protocol::{ErrorCode, code_number};
use crate::record::{
    Record, RecordModel, SignedModel, SignedRecord, is_terminal, live_model, now_unix,
    record_signed, signed_verified, supersedes, validated,
};

verus! {

broadcast use key_len;

/// Default record lifetime, in seconds.
pub const DEFAULT_TTL: u32 = 300;

/// Publishes and refreshes the record for one key.
pub struct Publisher {
    signing_key: SigningKey,
    delegation: Delegation,
    endpoints: Vec<Endpoint>,
    ttl: u32,
    serial: u64,
}

/// A [`Publisher`] taken by the views of its parts.
#[verifier::ext_equal]
pub struct PublisherModel {
    pub signing_key: SigningKey,
    pub delegation: DelegationModel,
    pub endpoints: Seq<EndpointModel>,
    pub ttl: u32,
    /// The serial of the next record.
    pub serial: u64,
}

impl View for Publisher {
    type V = PublisherModel;

    closed spec fn view(&self) -> PublisherModel {
        PublisherModel {
            signing_key: self.signing_key,
            delegation: self.delegation@,
            endpoints: endpoint_models(self.endpoints@),
            ttl: self.ttl,
            serial: self.serial,
        }
    }
}

/// A publisher as it starts: its first serial is the second it starts in.
pub open spec fn publisher_started(
    signing_key: SigningKey,
    delegation: DelegationModel,
    endpoints: Seq<EndpointModel>,
    ttl: u32,
    now: u64,
) -> PublisherModel {
    PublisherModel { signing_key, delegation, endpoints, ttl, serial: now }
}

/// The serial after one was taken. The counter wraps.
pub open spec fn next_serial(serial: u64) -> u64 {
    if serial == u64::MAX {
        0
    } else {
        (serial + 1) as u64
    }
}

/// The record a publisher signs next, for these endpoints.
pub open spec fn next_record(p: PublisherModel, endpoints: Seq<EndpointModel>, now: u64) -> RecordModel {
    live_model(public_key(p.signing_key), p.delegation, p.serial, p.ttl, endpoints, now)
}

/// A signed record of a publisher, or why there is none.
pub open spec fn publisher_signed(
    p: PublisherModel,
    endpoints: Seq<EndpointModel>,
    now: u64,
) -> std::result::Result<SignedModel, ErrorModel> {
    let r = next_record(p, endpoints, now);
    match validated(r) {
        Err(e) => Err(e),
        Ok(_) => record_signed(r, p.signing_key),
    }
}

/// The serial raised past that of a record the network holds.
pub open spec fn raised_serial(serial: u64, held: Option<SignedModel>) -> u64 {
    match held {
        Some(s) => {
            let past = if s.record.serial == u64::MAX {
                u64::MAX
            } else {
                (s.record.serial + 1) as u64
            };
            if past > serial {
                past
            } else {
                serial
            }
        },
        None => serial,
    }
}

/// How often a record of a lifetime is re-published, in seconds: a third of
/// it, but no more often than every ten.
pub open spec fn refresh_secs(ttl: u32) -> u64 {
    if ttl / 3 < 10 {
        10
    } else {
        (ttl / 3) as u64
    }
}

impl Publisher {
    /// A publisher whose first serial is `now`, so a record signed after a
    /// restart still supersedes whatever the network already holds. The
    /// delegation must cover the service key.
    pub fn new_at(
        signing_key: SigningKey,
        delegation: Delegation,
        endpoints: Vec<Endpoint>,
        ttl: u32,
        now: u64,
    ) -> (r: Result<Self>)
        ensures
            match r {
                Ok(p) => delegation_verified(delegation@, public_key(signing_key)) is Ok && p@
                    == publisher_started(
                    signing_key,
                    delegation@,
                    endpoint_models(endpoints@),
                    ttl,
                    now,
                ),
                Err(e) => delegation_verified(delegation@, public_key(signing_key)) == Err::<
                    (),
                    ErrorModel,
                >(e@),
            },
    {
        delegation.verify(&public_of(&signing_key))?;
        Ok(Publisher { signing_key, delegation, endpoints, ttl, serial: now })
    }

    /// A publisher whose first serial is the current second.
    pub fn new(
        signing_key: SigningKey,
        delegation: Delegation,
        endpoints: Vec<Endpoint>,
        ttl: u32,
    ) -> (r: Result<Self>)
        ensures
            match r {
                Ok(p) => delegation_verified(delegation@, public_key(signing_key)) is Ok && exists|
                    now: u64,
                |
                    p@ == #[trigger] publisher_started(
                        signing_key,
                        delegation@,
                        endpoint_models(endpoints@),
                        ttl,
                        now,
                    ),
                Err(e) => delegation_verified(delegation@, public_key(signing_key)) == Err::<
                    (),
                    ErrorModel,
                >(e@),
            },
    {
        let now: u64 = now_unix();
        Self::new_at(signing_key, delegation, endpoints, ttl, now)
    }

    pub fn key(&self) -> (k: PubKey)
        ensures
            k@ == public_key(self@.signing_key),
    {
        public_of(&self.signing_key)
    }

    /// The identity that issued the service key.
    pub fn identity(&self) -> (k: PubKey)
        ensures
            k@ == self@.delegation.identity,
    {
        self.delegation.identity
    }

    pub fn ttl(&self) -> (t: u32)
        ensures
            t == self@.ttl,
    {
        self.ttl
    }

    /// How often the record should be re-published, in seconds: a third of its
    /// TTL, so two refreshes can be lost before the record lapses.
    pub fn refresh_interval(&self) -> (secs: u64)
        ensures
            secs == refresh_secs(self@.ttl),
    {
        let third: u32 = self.ttl / 3;
        if third < 10 {
            10
        } else {
            third as u64
        }
    }

    /// Sign a record for `endpoints` at `now`, taking the next serial.
    pub fn sign_at(&mut self, endpoints: Vec<Endpoint>, now: u64) -> (r: Result<SignedRecord>)
        ensures
            outcome(r) == publisher_signed(old(self)@, endpoint_models(endpoints@), now),
            final(self)@ == (PublisherModel { serial: next_serial(old(self)@.serial), ..old(self)@ }),
            r matches Ok(s) ==> (delegation_verified(
                old(self)@.delegation,
                public_key(old(self)@.signing_key),
            ) is Ok ==> signed_verified(s@) is Ok),
    {
        let serial: u64 = self.serial;
        self.serial = if serial == u64::MAX {
            0
        } else {
            serial + 1
        };
        let record = Record::live_at(
            self.key(),
            self.delegation.clone(),
            serial,
            self.ttl,
            endpoints,
            now,
        );
        record.validate()?;
        record.sign(&self.signing_key)
    }

    /// Sign a fresh record at `now`, taking the next serial.
    pub fn build_at(&mut self, now: u64) -> (r: Result<SignedRecord>)
        ensures
            outcome(r) == publisher_signed(old(self)@, old(self)@.endpoints, now),
            final(self)@ == (PublisherModel { serial: next_serial(old(self)@.serial), ..old(self)@ }),
            r matches Ok(s) ==> (delegation_verified(
                old(self)@.delegation,
                public_key(old(self)@.signing_key),
            ) is Ok ==> signed_verified(s@) is Ok),
    {
        let endpoints = clone_endpoints(&self.endpoints);
        self.sign_at(endpoints, now)
    }

    /// Sign a fresh record, taking the next serial.
    pub fn build(&mut self) -> (r: Result<SignedRecord>)
        ensures
            exists|now: u64|
                outcome(r) == #[trigger] publisher_signed(old(self)@, old(self)@.endpoints, now),
            final(self)@ == (PublisherModel { serial: next_serial(old(self)@.serial), ..old(self)@ }),
            r matches Ok(s) ==> (delegation_verified(
                old(self)@.delegation,
                public_key(old(self)@.signing_key),
            ) is Ok ==> signed_verified(s@) is Ok),
    {
        let now: u64 = now_unix();
        self.build_at(now)
    }

    /// Sign a record that withdraws the key: one with no endpoints, so lookups
    /// get a definite "deliberately unreachable" rather than a stale address.
    pub fn withdrawal_at(&mut self, now: u64) -> (r: Result<SignedRecord>)
        ensures
            outcome(r) == publisher_signed(old(self)@, seq![], now),
            final(self)@ == (PublisherModel { serial: next_serial(old(self)@.serial), ..old(self)@ }),
            r matches Ok(s) ==> (delegation_verified(
                old(self)@.delegation,
                public_key(old(self)@.signing_key),
            ) is Ok ==> signed_verified(s@) is Ok),
    {
        let none: Vec<Endpoint> = Vec::new();
        assert(endpoint_models(none@) =~= seq![]);
        self.sign_at(none, now)
    }

    /// Raise the serial counter above the record the network currently holds.
    pub fn adopt_network_serial(&mut self, held: Option<&SignedRecord>)
        ensures
            final(self)@ == (PublisherModel {
                serial: raised_serial(
                    old(self)@.serial,
                    match held {
                        Some(s) => Some(s@),
                        None => None,
                    },
                ),
                ..old(self)@
            }),
    {
        if let Some(held) = held {
            let past: u64 = held.record.serial.saturating_add(1);
            if past > self.serial {
                self.serial = past;
            }
        }
    }
}

/// Whether a publish was refused for being stale, so that raising the serial
/// past the network's and publishing again is called for.
///
/// Serials start from the wall clock, so two publishes inside the same second,
/// or a restart that rewinds nothing, would otherwise tie and be refused. Only
/// the key holder can sign, so it is always right for them to win.
pub fn refused_as_stale(published: &Result<u64>) -> (b: bool)
    ensures
        b == stale_refusal(outcome(*published)),
{
    match published {
        Err(Error::Server { code, .. }) => *code == ErrorCode::Stale.to_u16(),
        _ => false,
    }
}

/// After adopting the network's serial the next record beats the one the
/// network holds, whenever that one is live and its serial is not the last.
pub proof fn an_adopted_serial_wins(
    p: Publisher,
    held: SignedRecord,
    endpoints: Seq<EndpointModel>,
    now: u64,
)
    requires
        !is_terminal(held@.record),
        held@.record.serial < u64::MAX,
    ensures
        supersedes(
            next_record(
                PublisherModel { serial: raised_serial(p@.serial, Some(held@)), ..p@ },
                endpoints,
                now,
            ),
            held@.record,
        ),
{
}

/// Every record of a publisher beats the one it signed before, until the
/// serial wraps.
pub proof fn every_refresh_wins(
    p: Publisher,
    before: Seq<EndpointModel>,
    after: Seq<EndpointModel>,
    now: u64,
    later: u64,
)
    requires
        p@.serial < u64::MAX,
    ensures
        supersedes(
            next_record(PublisherModel { serial: next_serial(p@.serial), ..p@ }, after, later),
            next_record(p@, before, now),
        ),
{
}

// ---------------------------------------------------------------------------
// Publishing
// ---------------------------------------------------------------------------

/// What publishing needs next. The network is the caller's: it performs the
/// step and hands back what came of it.
#[derive(Debug, PartialEq, Eq)]
pub enum PublishStep {
    /// Publish this record.
    Publish(SignedRecord),
    /// Look up the record that the network holds for the key.
    LookUp,
    /// Nothing more: this is what it came to.
    Done(Result<u64>),
}

/// A [`PublishStep`] taken by the views of its parts.
#[verifier::ext_equal]
pub enum PublishStepModel {
    Publish(SignedModel),
    LookUp,
    Done(std::result::Result<u64, ErrorModel>),
}

impl View for PublishStep {
    type V = PublishStepModel;

    open spec fn view(&self) -> PublishStepModel {
        match *self {
            PublishStep::Publish(s) => PublishStepModel::Publish(s@),
            PublishStep::LookUp => PublishStepModel::LookUp,
            PublishStep::Done(r) => PublishStepModel::Done(outcome(r)),
        }
    }
}

/// A publishing under way: of the publisher's endpoints, or of none.
pub struct Publication {
    withdraw: bool,
    raised: bool,
}

/// A [`Publication`]'s marks.
#[verifier::ext_equal]
pub struct PublicationModel {
    /// Whether the key is being withdrawn.
    pub withdraw: bool,
    /// Whether the serial was raised past the network's already.
    pub raised: bool,
}

impl View for Publication {
    type V = PublicationModel;

    closed spec fn view(&self) -> PublicationModel {
        PublicationModel { withdraw: self.withdraw, raised: self.raised }
    }
}

/// The endpoints that are published.
pub open spec fn published_endpoints(p: PublisherModel, withdraw: bool) -> Seq<EndpointModel> {
    if withdraw {
        seq![]
    } else {
        p.endpoints
    }
}

/// What follows from a signed record, or from there being none.
pub open spec fn step_with(
    signed: std::result::Result<SignedModel, ErrorModel>,
) -> PublishStepModel {
    match signed {
        Ok(s) => PublishStepModel::Publish(s),
        Err(e) => PublishStepModel::Done(Err(e)),
    }
}

/// A publish that was refused for being stale.
pub open spec fn stale_refusal(r: std::result::Result<u64, ErrorModel>) -> bool {
    r matches Err(ErrorModel::Server { code, .. }) && code == code_number(ErrorCode::Stale)
}

/// What follows from what publishing a record came to: the first time it is
/// refused for being stale, what the network holds is looked up; anything else
/// is the end of it.
pub open spec fn step_after_publish(
    b: PublicationModel,
    r: std::result::Result<u64, ErrorModel>,
) -> PublishStepModel {
    if !b.raised && stale_refusal(r) {
        PublishStepModel::LookUp
    } else {
        PublishStepModel::Done(r)
    }
}

/// What follows from what the network holds, and the publisher after it: the
/// serial is raised past it and a record is signed once more.
pub open spec fn step_after_lookup(
    b: PublicationModel,
    p: PublisherModel,
    held: std::result::Result<Option<SignedModel>, ErrorModel>,
    now: u64,
) -> (PublishStepModel, PublisherModel) {
    match held {
        Err(e) => (PublishStepModel::Done(Err(e)), p),
        Ok(held) => {
            let raised = PublisherModel { serial: raised_serial(p.serial, held), ..p };
            (
                step_with(publisher_signed(raised, published_endpoints(p, b.withdraw), now)),
                PublisherModel { serial: next_serial(raised.serial), ..p },
            )
        },
    }
}

/// What was looked up, taken by its view.
pub open spec fn held_outcome(r: Result<Option<SignedRecord>>) -> std::result::Result<
    Option<SignedModel>,
    ErrorModel,
> {
    match r {
        Ok(Some(s)) => Ok(Some(s@)),
        Ok(None) => Ok(None),
        Err(e) => Err(e@),
    }
}

fn step_for(signed: Result<SignedRecord>) -> (step: PublishStep)
    ensures
        step@ == step_with(outcome(signed)),
{
    match signed {
        Ok(s) => PublishStep::Publish(s),
        Err(e) => PublishStep::Done(Err(e)),
    }
}

impl Publication {
    fn sign(&self, publisher: &mut Publisher, now: u64) -> (r: Result<SignedRecord>)
        ensures
            outcome(r) == publisher_signed(
                old(publisher)@,
                published_endpoints(old(publisher)@, self@.withdraw),
                now,
            ),
            final(publisher)@ == (PublisherModel {
                serial: next_serial(old(publisher)@.serial),
                ..old(publisher)@
            }),
    {
        if self.withdraw {
            publisher.withdrawal_at(now)
        } else {
            publisher.build_at(now)
        }
    }

    /// Start publishing at `now`: the publisher's endpoints, or none at all to
    /// withdraw the key.
    pub fn start(publisher: &mut Publisher, withdraw: bool, now: u64) -> (r: (Self, PublishStep))
        ensures
            r.0@ == (PublicationModel { withdraw, raised: false }),
            r.1@ == step_with(
                publisher_signed(
                    old(publisher)@,
                    published_endpoints(old(publisher)@, withdraw),
                    now,
                ),
            ),
            final(publisher)@ == (PublisherModel {
                serial: next_serial(old(publisher)@.serial),
                ..old(publisher)@
            }),
    {
        let publication = Publication { withdraw, raised: false };
        let step = step_for(publication.sign(publisher, now));
        (publication, step)
    }

    /// What publishing the record came to.
    pub fn published(&self, result: Result<u64>) -> (step: PublishStep)
        ensures
            step@ == step_after_publish(self@, outcome(result)),
    {
        if !self.raised && refused_as_stale(&result) {
            PublishStep::LookUp
        } else {
            PublishStep::Done(result)
        }
    }

    /// What the network holds for the key.
    pub fn looked_up(
        &mut self,
        publisher: &mut Publisher,
        held: Result<Option<SignedRecord>>,
        now: u64,
    ) -> (step: PublishStep)
        ensures
            final(self)@ == (PublicationModel { raised: true, ..old(self)@ }),
            (step@, final(publisher)@) == step_after_lookup(
                old(self)@,
                old(publisher)@,
                held_outcome(held),
                now,
            ),
    {
        self.raised = true;
        match held {
            Err(e) => PublishStep::Done(Err(e)),
            Ok(held) => {
                publisher.adopt_network_serial(held.as_ref());
                step_for(self.sign(publisher, now))
            },
        }
    }
}

/// A record is signed at most twice: after the serial was raised, what comes
/// of publishing is the end of it.
pub proof fn publishing_is_retried_once(
    b: PublicationModel,
    r: std::result::Result<u64, ErrorModel>,
)
    requires
        b.raised,
    ensures
        step_after_publish(b, r) == PublishStepModel::Done(r),
{
}

/// Only being stale is worth another try: any other result is handed on as it
/// is.
pub proof fn other_results_stand(b: PublicationModel, r: std::result::Result<u64, ErrorModel>)
    requires
        !stale_refusal(r),
    ensures
        step_after_publish(b, r) == PublishStepModel::Done(r),
{
}

/// The record of the second try beats the one that made the first stale,
/// whenever that one is live and its serial is not the last.
pub proof fn the_second_try_wins(
    b: PublicationModel,
    p: Publisher,
    held: SignedRecord,
    now: u64,
)
    requires
        !is_terminal(held@.record),
        held@.record.serial < u64::MAX,
    ensures
        step_after_lookup(b, p@, Ok(Some(held@)), now).0 matches PublishStepModel::Publish(s)
            ==> supersedes(s.record, held@.record),
{
    an_adopted_serial_wins(p, held, published_endpoints(p@, b.withdraw), now);
}

} // verus!
