//! Laws of the resolver: what no server can walk backwards.

use vstd::prelude::*;

use crate::error::ErrorModel;
use crate::key::{base58, key_len};
use crate::protocol::Response;
use crate::record::{SignedRecord, answer_verified, is_terminal};
use crate::resolver::{ResolverModel, SeenModel, answer_taken, rank_noted, ranks_below};

verus! {

broadcast use key_len;

/// A server can withhold an answer but never fabricate one: a record that
/// comes out of a reply passed every check, for the key that was asked for.
pub proof fn only_verified_answers_are_given(
    m: ResolverModel,
    key: Seq<u8>,
    reply: Response,
    now: u64,
)
    ensures
        answer_taken(m, key, reply@, now).0 matches Ok((Some(s), _)) ==> s.record.key == key
            && answer_verified(s, key, now) is Ok && rank_noted(m.marks, s).0 is Ok,
{
}

/// A reply that is refused teaches the resolver nothing.
pub proof fn refused_replies_change_nothing(
    m: ResolverModel,
    key: Seq<u8>,
    reply: Response,
    now: u64,
)
    requires
        answer_taken(m, key, reply@, now).0 is Err,
    ensures
        answer_taken(m, key, reply@, now).1 == m,
{
}

/// What is known of a key stays known: whatever is noted, the identity behind
/// a key never changes and its rank never goes down.
pub proof fn marks_only_rise(
    marks: Map<Seq<u8>, SeenModel>,
    s: SignedRecord,
    key: Seq<u8>,
)
    requires
        marks.dom().contains(key),
    ensures
        rank_noted(marks, s@).1.dom().contains(key),
        rank_noted(marks, s@).1[key].identity == marks[key].identity,
        !ranks_below(rank_noted(marks, s@).1[key].rank, marks[key].rank),
{
}

/// A key that answers to another identity than before is refused, whatever
/// else is right about the answer.
pub proof fn identities_never_change(marks: Map<Seq<u8>, SeenModel>, s: SignedRecord)
    requires
        marks.dom().contains(s@.record.key),
        marks[s@.record.key].identity != s@.record.delegation.identity,
    ensures
        rank_noted(marks, s@).0 is Err,
        rank_noted(marks, s@).1 == marks,
{
}

/// After a retirement was noted, no live record for the key is accepted,
/// whatever its serial.
pub proof fn a_retirement_is_not_followed_by_a_live_record(
    marks: Map<Seq<u8>, SeenModel>,
    retired: SignedRecord,
    live: SignedRecord,
)
    requires
        is_terminal(retired@.record),
        !is_terminal(live@.record),
        live@.record.key == retired@.record.key,
        live@.record.delegation.identity == retired@.record.delegation.identity,
        rank_noted(marks, retired@).0 is Ok,
    ensures
        rank_noted(rank_noted(marks, retired@).1, live@).0 == Err::<(), ErrorModel>(
            ErrorModel::Downgrade(base58(live@.record.key)),
        ),
{
}

/// The same record again is no downgrade, and neither is a higher serial.
pub proof fn a_refresh_is_no_downgrade(
    marks: Map<Seq<u8>, SeenModel>,
    before: SignedRecord,
    after: SignedRecord,
)
    requires
        before@.record.key == after@.record.key,
        before@.record.delegation.identity == after@.record.delegation.identity,
        is_terminal(before@.record) ==> is_terminal(after@.record),
        after@.record.serial >= before@.record.serial,
        rank_noted(marks, before@).0 is Ok,
    ensures
        rank_noted(rank_noted(marks, before@).1, after@).0 is Ok,
{
}

} // verus!
