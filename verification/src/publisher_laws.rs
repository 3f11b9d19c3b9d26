//! Laws of publishing: what a publisher signs, when it has to sign again, and
//! that what it signs next takes the place of what it signed before.

use vstd::prelude::*;

use crate::delegation::DelegationModel;
use crate::endpoint::EndpointModel;
use crate::error::ErrorModel;
use crate::key::{SigningKey, ed25519_signature, is_curve_point, key_len, public_key};
use crate::lifetimes::{
    a_new_key_is_stored, admission_is_complete, what_is_stored, what_makes_a_record_sound,
};
use crate::protocol::ResponseModel;
use crate::publisher::{
    PublicationModel, PublishStepModel, PublisherModel, next_record, next_serial,
    published_endpoints, publisher_signed, publisher_started, raised_serial, refresh_secs,
    step_after_lookup, step_after_publish,
};
use crate::record::{
    BodyModel, RecordModel, SignedModel, is_expired, record_bytes, record_message, signed_verified,
    supersedes,
};
use crate::server::{ActionModel, publish_action};
use crate::store::{PutOutcome, StoreModel, held, put_result};

verus! {

broadcast use key_len;

/// The refresh interval is a third of the ttl, in whole seconds, for every ttl
/// a record may have.
pub proof fn a_refresh_is_a_third_of_the_ttl(ttl: u32)
    requires
        30 <= ttl <= 604_800,
    ensures
        3 * refresh_secs(ttl) <= ttl,
        ttl < 3 * (refresh_secs(ttl) + 1),
{
}

/// However short the ttl, ten seconds pass between refreshes.
pub proof fn a_refresh_never_hurries(ttl: u32)
    ensures
        refresh_secs(ttl) >= 10,
        ttl < 30 ==> refresh_secs(ttl) == 10,
        ttl >= 30 ==> 3 * refresh_secs(ttl) <= ttl < 3 * (refresh_secs(ttl) + 1),
{
}

/// A record is replaced before it lapses: one signed at `now` is still alive
/// when the next refresh is due, and still if that one is lost and only the
/// one after it comes; and once three are lost it has a second or two left at
/// most.
pub proof fn a_refresh_comes_in_time(
    p: PublisherModel,
    endpoints: Seq<EndpointModel>,
    now: u64,
    at: u64,
)
    requires
        publisher_signed(p, endpoints, now) is Ok,
        now + p.ttl <= 0xffff_ffff_ffff_ffff,
    ensures
        ({
            let r = publisher_signed(p, endpoints, now)->Ok_0.record;
            &&& now <= at <= now + 2 * refresh_secs(p.ttl) ==> !is_expired(r, at)
            &&& at >= now + 3 * refresh_secs(p.ttl) + 2 ==> is_expired(r, at)
        }),
{
    what_makes_a_record_sound(next_record(p, endpoints, now));
}

/// What a publisher signs: a live record of its own key, under its delegation,
/// with the serial and the ttl it has, the endpoints it was given, and the time
/// it was given, signed by its key.
pub proof fn what_a_publisher_signs(p: PublisherModel, endpoints: Seq<EndpointModel>, now: u64)
    ensures
        publisher_signed(p, endpoints, now) matches Ok(s) ==> {
            &&& s.record.key == public_key(p.signing_key)
            &&& s.record.delegation == p.delegation
            &&& s.record.serial == p.serial
            &&& s.record.ttl == p.ttl
            &&& s.record.issued_at == now
            &&& s.record.body matches BodyModel::Live { endpoints: inside } && inside == endpoints
            &&& s.signature == ed25519_signature(
                p.signing_key@,
                record_message(record_bytes(s.record)),
            )
        },
{
}

/// When a publisher signs: with a ttl from thirty seconds to a week and at most
/// 255 endpoints, given keys that are points and an identity other than the
/// key.
pub proof fn when_a_publisher_signs(p: PublisherModel, endpoints: Seq<EndpointModel>, now: u64)
    ensures
        publisher_signed(p, endpoints, now) is Ok <==> {
            &&& is_curve_point(public_key(p.signing_key))
            &&& is_curve_point(p.delegation.identity)
            &&& p.delegation.identity != public_key(p.signing_key)
            &&& 30 <= p.ttl <= 604_800
            &&& endpoints.len() <= 255
        },
{
}

/// Serials go up by one, and by no more.
pub proof fn serials_go_up_by_one(serial: u64)
    ensures
        serial < 0xffff_ffff_ffff_ffff ==> next_serial(serial) == serial + 1,
{
}

/// The serial is raised past the one the network holds, and never lowered; it
/// is left alone where it was past it already or the network holds nothing.
pub proof fn a_serial_is_raised_just_past_the_network(serial: u64, s: SignedModel)
    ensures
        raised_serial(serial, None) == serial,
        s.record.serial < serial ==> raised_serial(serial, Some(s)) == serial,
        serial <= s.record.serial < 0xffff_ffff_ffff_ffff ==> raised_serial(serial, Some(s))
            == s.record.serial + 1,
        raised_serial(serial, Some(s)) >= serial,
        raised_serial(serial, Some(s)) >= s.record.serial,
{
}

/// A withdrawal publishes no endpoints at all; anything else publishes those
/// of the publisher.
pub proof fn a_withdrawal_has_no_endpoints(p: PublisherModel)
    ensures
        published_endpoints(p, true).len() == 0,
        published_endpoints(p, false) == p.endpoints,
{
}

/// Only a refusal as stale, and only the first one, makes the publisher look
/// up what the network holds.
pub proof fn only_a_stale_refusal_is_looked_into(
    b: PublicationModel,
    r: std::result::Result<u64, ErrorModel>,
)
    ensures
        step_after_publish(b, r) is LookUp <==> !b.raised && (r matches Err(
            ErrorModel::Server { code, .. },
        ) && code == 4),
        !(step_after_publish(b, r) is LookUp) ==> step_after_publish(b, r)
            == PublishStepModel::Done(r),
{
}

/// After a lookup one more record is signed: with the serial raised past the
/// network's, and the serial after that left for the next. A lookup that failed
/// ends it.
pub proof fn the_second_record_has_the_raised_serial(
    b: PublicationModel,
    p: PublisherModel,
    s: SignedModel,
    now: u64,
)
    requires
        p.serial <= s.record.serial < 0xffff_ffff_ffff_fffe,
        publisher_signed(p, published_endpoints(p, b.withdraw), now) is Ok,
    ensures
        step_after_lookup(b, p, Ok(Some(s)), now) matches (PublishStepModel::Publish(t), after) && {
            &&& t.record.serial == s.record.serial + 1
            &&& t.record.key == public_key(p.signing_key)
            &&& t.record.issued_at == now
            &&& t.record.body matches BodyModel::Live { endpoints } && (b.withdraw ==> endpoints.len()
                == 0) && (!b.withdraw ==> endpoints == p.endpoints)
            &&& after.serial == s.record.serial + 2
            &&& after.signing_key == p.signing_key
            &&& after.delegation == p.delegation
            &&& after.endpoints == p.endpoints
            &&& after.ttl == p.ttl
        },
        forall|e: ErrorModel| #[trigger]
            step_after_lookup(b, p, Err(e), now) == (PublishStepModel::Done(Err(e)), p),
{
    let raised = PublisherModel { serial: raised_serial(p.serial, Some(s)), ..p };
    when_a_publisher_signs(p, published_endpoints(p, b.withdraw), now);
    when_a_publisher_signs(raised, published_endpoints(p, b.withdraw), now);
}

/// What a publisher signs is stored by a server that has no record for the key
/// and has it bound to nobody else, as long as the delegation covers the key
/// and is in force; the reply names the serial and the second in which the
/// record will expire.
pub proof fn what_is_signed_is_stored(
    p: PublisherModel,
    endpoints: Seq<EndpointModel>,
    signed: u64,
    m: StoreModel,
    now: u64,
)
    requires
        publisher_signed(p, endpoints, signed) is Ok,
        signed_verified(publisher_signed(p, endpoints, signed)->Ok_0) is Ok,
        signed <= now + 300,
        now < signed + p.ttl <= 0xffff_ffff_ffff_ffff,
        now < p.delegation.not_after || p.delegation.not_after == 0xffff_ffff_ffff_ffff,
        !m.records.dom().contains(public_key(p.signing_key)),
        m.bindings.dom().contains(public_key(p.signing_key)) ==> m.bindings[public_key(
            p.signing_key,
        )] == p.delegation.identity,
    ensures
        ({
            let s = publisher_signed(p, endpoints, signed)->Ok_0;
            let (action, after) = publish_action(m, s, now);
            &&& action matches ActionModel::ReplyAndPush { reply, record } && record == s && (
            reply matches ResponseModel::Published { serial, expires_at } && serial == p.serial
                && expires_at == signed + p.ttl)
            &&& held(after, public_key(p.signing_key), now) == Some(s)
        }),
{
    a_new_key_is_stored(m, publisher_signed(p, endpoints, signed)->Ok_0, now);
}

/// A refresh takes the place of what was published before: the next record of
/// the same publisher is stored over the last one, and is what is answered.
pub proof fn a_refresh_replaces_the_last_record(
    p: PublisherModel,
    first: SignedModel,
    endpoints: Seq<EndpointModel>,
    now: u64,
    m: StoreModel,
)
    requires
        p.serial < 0xffff_ffff_ffff_ffff,
        first.record.serial == p.serial,
        first.record.body is Live,
        first.record.delegation == p.delegation,
        m.records.dom().contains(public_key(p.signing_key)),
        m.records[public_key(p.signing_key)] == first,
        m.bindings.dom().contains(public_key(p.signing_key)),
        m.bindings[public_key(p.signing_key)] == p.delegation.identity,
        ({
            let next = PublisherModel { serial: next_serial(p.serial), ..p };
            &&& publisher_signed(next, endpoints, now) is Ok
            &&& signed_verified(publisher_signed(next, endpoints, now)->Ok_0) is Ok
        }),
        now + p.ttl <= 0xffff_ffff_ffff_ffff,
        now < p.delegation.not_after || p.delegation.not_after == 0xffff_ffff_ffff_ffff,
    ensures
        ({
            let next = PublisherModel { serial: next_serial(p.serial), ..p };
            let s = publisher_signed(next, endpoints, now)->Ok_0;
            &&& put_result(m, s, now).0 == Ok::<PutOutcome, ErrorModel>(PutOutcome::Stored)
            &&& held(put_result(m, s, now).1, public_key(p.signing_key), now) == Some(s)
        }),
{
    let next = PublisherModel { serial: next_serial(p.serial), ..p };
    let s = publisher_signed(next, endpoints, now)->Ok_0;
    when_a_publisher_signs(next, endpoints, now);
    admission_is_complete(s, now);
    what_is_stored(m, s, now);
}

/// A publisher that is started again still wins: its first record supersedes
/// every live record of the key with a serial below the second it starts in,
/// and so everything a publisher signed that started earlier and has signed
/// less than once a second since.
pub proof fn a_restarted_publisher_wins(
    signing_key: SigningKey,
    delegation: DelegationModel,
    endpoints: Seq<EndpointModel>,
    ttl: u32,
    now: u64,
    before: RecordModel,
)
    requires
        before.body is Live,
        before.serial < now,
    ensures
        ({
            let p = publisher_started(signing_key, delegation, endpoints, ttl, now);
            &&& supersedes(next_record(p, p.endpoints, now), before)
            &&& p.signing_key == signing_key
            &&& p.delegation == delegation
            &&& p.endpoints == endpoints
            &&& p.ttl == ttl
        }),
{
}

} // verus!
