//! Laws of the store: what no operation undoes, and what order does not matter
//! to.

use vstd::prelude::*;

use crate::error::ErrorModel;
use crate::key::{bytes_before, key_len, key_order_is_total};
use crate::record::{
    MAX_CLOCK_SKEW, SignedModel, SignedRecord, is_terminal, retirement_of, signed_verified,
    supersedes, validated,
};
use crate::snapshot::{bindings_map, records_fit, snapshot_bytes, snapshot_round_trip};
use crate::store::{
    PutOutcome, Store, StoreModel, admitted, held, held_soundly, is_snapshot_of, is_sync_list,
    listed, opened, put_all, put_result, store_inv, swept, synced_before,
};

verus! {

broadcast use key_len;

// ---------------------------------------------------------------------------
// Putting
// ---------------------------------------------------------------------------

/// Nothing enters the store without its signatures: a record that is unsound,
/// or not signed by whom it must be, is refused.
pub proof fn forged_records_are_refused(m: StoreModel, s: SignedRecord, now: u64)
    requires
        validated(s@.record) is Err || signed_verified(s@) is Err,
    ensures
        put_result(m, s@, now).0 is Err,
        put_result(m, s@, now).1 == m,
{
}

/// Only a stored record changes the store: a refused or stale one leaves it as
/// it was.
pub proof fn only_storing_changes_the_store(m: StoreModel, s: SignedRecord, now: u64)
    requires
        put_result(m, s@, now).0 != Ok::<PutOutcome, ErrorModel>(PutOutcome::Stored),
    ensures
        put_result(m, s@, now).1 == m,
{
}

/// Putting keeps what holds of every store.
pub proof fn putting_keeps_the_invariant(m: StoreModel, s: SignedRecord, now: u64)
    requires
        store_inv(m),
    ensures
        store_inv(put_result(m, s@, now).1),
{
    let after = put_result(m, s@, now).1;
    assert forall|k: Seq<u8>| #[trigger] after.records.dom().contains(k) implies held_soundly(
        after,
        k,
    ) by {
        if k != s@.record.key {
            assert(m.records.dom().contains(k));
            assert(held_soundly(m, k));
        }
    }
}

/// A key bound to an identity stays bound to it, whatever is put.
pub proof fn bindings_are_permanent(m: StoreModel, s: SignedRecord, now: u64, key: Seq<u8>)
    requires
        m.bindings.dom().contains(key),
    ensures
        put_result(m, s@, now).1.bindings.dom().contains(key),
        put_result(m, s@, now).1.bindings[key] == m.bindings[key],
{
}

/// A key is bound by its very first record, to the identity that record names.
pub proof fn the_first_record_binds(m: StoreModel, s: SignedRecord, now: u64)
    requires
        !m.bindings.dom().contains(s@.record.key),
        put_result(m, s@, now).0 == Ok::<PutOutcome, ErrorModel>(PutOutcome::Stored),
    ensures
        put_result(m, s@, now).1.bindings[s@.record.key] == s@.record.delegation.identity,
{
}

/// A record that claims another identity than its key is bound to is refused.
pub proof fn a_bound_key_answers_to_one_identity(m: StoreModel, s: SignedRecord, now: u64)
    requires
        m.bindings.dom().contains(s@.record.key),
        m.bindings[s@.record.key] != s@.record.delegation.identity,
    ensures
        put_result(m, s@, now).0 is Err,
{
}

/// Retirement is permanent: once a key is superseded or revoked, every later
/// record for it is refused and the tombstone stays.
pub proof fn retirement_is_permanent(m: StoreModel, s: SignedRecord, now: u64, key: Seq<u8>)
    requires
        m.records.dom().contains(key),
        is_terminal(m.records[key].record),
    ensures
        put_result(m, s@, now).1.records.dom().contains(key),
        put_result(m, s@, now).1.records[key] == m.records[key],
        s@.record.key == key ==> put_result(m, s@, now).0 is Err,
        s@.record.key == key && admitted(s@, now) is Ok ==> put_result(m, s@, now).0 == Err::<
            PutOutcome,
            ErrorModel,
        >(retirement_of(m.records[key].record)->0),
{
}

/// What replaces a record beats it: a key's record never goes backwards.
pub proof fn replacement_is_monotone(m: StoreModel, s: SignedRecord, now: u64, key: Seq<u8>)
    requires
        m.records.dom().contains(key),
    ensures
        put_result(m, s@, now).1.records.dom().contains(key),
        put_result(m, s@, now).1.records[key] == m.records[key] || supersedes(
            put_result(m, s@, now).1.records[key].record,
            m.records[key].record,
        ),
{
}

/// Putting a record for one key touches no other: siblings of a retired key
/// stay as they were.
pub proof fn siblings_are_untouched(m: StoreModel, s: SignedRecord, now: u64, key: Seq<u8>)
    requires
        key != s@.record.key,
    ensures
        put_result(m, s@, now).1.records.dom().contains(key) == m.records.dom().contains(key),
        m.records.dom().contains(key) ==> put_result(m, s@, now).1.records[key] == m.records[key],
        put_result(m, s@, now).1.bindings.dom().contains(key) == m.bindings.dom().contains(key),
        m.bindings.dom().contains(key) ==> put_result(m, s@, now).1.bindings[key]
            == m.bindings[key],
{
}

/// A record can arrive twice without harm: the second time changes nothing.
pub proof fn putting_twice_is_putting_once(m: StoreModel, s: SignedRecord, now: u64, later: u64)
    requires
        put_result(m, s@, now).0 is Ok,
    ensures
        put_result(put_result(m, s@, now).1, s@, later).1 == put_result(m, s@, now).1,
        put_result(put_result(m, s@, now).1, s@, later).0 != Ok::<PutOutcome, ErrorModel>(
            PutOutcome::Stored,
        ),
{
}

/// The order in which two records of one key arrive does not matter, when one
/// of them beats the other: the same record is held in the end.
pub proof fn order_of_arrival_does_not_matter(
    m: StoreModel,
    a: SignedRecord,
    b: SignedRecord,
    now: u64,
)
    requires
        a@.record.key == b@.record.key,
        a@.record.delegation.identity == b@.record.delegation.identity,
        supersedes(b@.record, a@.record),
        admitted(a@, now) is Ok,
        admitted(b@, now) is Ok,
    ensures
        put_result(put_result(m, a@, now).1, b@, now).1.records == put_result(
            put_result(m, b@, now).1,
            a@,
            now,
        ).1.records,
        put_result(put_result(m, a@, now).1, b@, now).1.bindings == put_result(
            put_result(m, b@, now).1,
            a@,
            now,
        ).1.bindings,
{
    let ab = put_result(put_result(m, a@, now).1, b@, now).1;
    let ba = put_result(put_result(m, b@, now).1, a@, now).1;
    assert(ab.records =~= ba.records);
    assert(ab.bindings =~= ba.bindings);
}

/// Records of different keys do not depend on each other's order.
pub proof fn different_keys_commute(m: StoreModel, a: SignedRecord, b: SignedRecord, now: u64)
    requires
        a@.record.key != b@.record.key,
    ensures
        put_result(put_result(m, a@, now).1, b@, now).1 == put_result(
            put_result(m, b@, now).1,
            a@,
            now,
        ).1,
{
    let ab = put_result(put_result(m, a@, now).1, b@, now).1;
    let ba = put_result(put_result(m, b@, now).1, a@, now).1;
    assert(ab.records =~= ba.records);
    assert(ab.bindings =~= ba.bindings);
}

// ---------------------------------------------------------------------------
// Sweeping and listing
// ---------------------------------------------------------------------------

/// A sweep takes no tombstone, no binding and no record that has not expired.
pub proof fn sweeping_spares_the_living_and_the_retired(m: StoreModel, now: u64, key: Seq<u8>)
    ensures
        swept(m, now).bindings == m.bindings,
        m.records.dom().contains(key) && is_terminal(m.records[key].record) ==> swept(
            m,
            now,
        ).records.dom().contains(key) && swept(m, now).records[key] == m.records[key],
        held(m, key, now) is Some ==> held(swept(m, now), key, now) == held(m, key, now),
{
}

/// What a sweep takes was no longer answered anyway.
pub proof fn sweeping_changes_no_answer(m: StoreModel, now: u64, key: Seq<u8>)
    ensures
        held(swept(m, now), key, now) == held(m, key, now),
{
}

/// A sync listing is determined by the store, the watermark and the time.
pub proof fn sync_list_is_unique(
    k: Seq<SignedModel>,
    l: Seq<SignedModel>,
    m: StoreModel,
    since: u64,
    now: u64,
)
    requires
        store_inv(m),
        forall|key: Seq<u8>| #[trigger] m.records.dom().contains(key) ==> key.len() == 32,
        is_sync_list(k, m, since, now),
        is_sync_list(l, m, since, now),
    ensures
        k == l,
{
    same_members(k, l, m, since, now);
    same_members(l, k, m, since, now);
    if k.len() <= l.len() {
        same_prefix(k, l, k.len() as int, m, since, now);
        if k.len() < l.len() {
            let x = l[k.len() as int];
            assert(k.contains(x));
            let i = choose|i: int| 0 <= i < k.len() && k[i] == x;
            assert(synced_before(l[i], l[k.len() as int]));
            key_order_is_total(x.record.key, x.record.key);
        }
    } else {
        same_prefix(l, k, l.len() as int, m, since, now);
        let x = k[l.len() as int];
        assert(l.contains(x));
        let i = choose|i: int| 0 <= i < l.len() && l[i] == x;
        assert(synced_before(k[i], k[l.len() as int]));
        key_order_is_total(x.record.key, x.record.key);
    }
    assert(k =~= l);
}

proof fn same_members(
    k: Seq<SignedModel>,
    l: Seq<SignedModel>,
    m: StoreModel,
    since: u64,
    now: u64,
)
    requires
        is_sync_list(k, m, since, now),
        is_sync_list(l, m, since, now),
    ensures
        forall|i: int| 0 <= i < k.len() ==> l.contains(#[trigger] k[i]),
{
    assert forall|i: int| 0 <= i < k.len() implies l.contains(#[trigger] k[i]) by {
        assert(listed(m, k[i], now));
        assert(m.records.dom().contains(k[i].record.key));
    }
}

proof fn same_prefix(
    k: Seq<SignedModel>,
    l: Seq<SignedModel>,
    n: int,
    m: StoreModel,
    since: u64,
    now: u64,
)
    requires
        forall|key: Seq<u8>| #[trigger] m.records.dom().contains(key) ==> key.len() == 32,
        is_sync_list(k, m, since, now),
        is_sync_list(l, m, since, now),
        0 <= n <= k.len() <= l.len(),
    ensures
        forall|i: int| 0 <= i < n ==> k[i] == l[i],
    decreases n,
{
    if n > 0 {
        same_prefix(k, l, n - 1, m, since, now);
        same_members(k, l, m, since, now);
        same_members(l, k, m, since, now);
        let (x, y) = (k[n - 1], l[n - 1]);
        assert(listed(m, x, now) && listed(m, y, now));
        assert(m.records.dom().contains(x.record.key));
        assert(m.records.dom().contains(y.record.key));
        assert(l.contains(x));
        assert(k.contains(y));
        let a = choose|a: int| 0 <= a < l.len() && l[a] == x;
        let b = choose|b: int| 0 <= b < k.len() && k[b] == y;
        key_order_is_total(x.record.key, x.record.key);
        key_order_is_total(y.record.key, y.record.key);
        key_order_is_total(x.record.key, y.record.key);
        if a < n - 1 {
            assert(synced_before(k[a], k[n - 1]));
        }
        if b < n - 1 {
            assert(synced_before(l[b], l[n - 1]));
        }
        if a > n - 1 && b > n - 1 {
            assert(synced_before(l[n - 1], l[a]));
            assert(synced_before(k[n - 1], k[b]));
        }
    }
}

// ---------------------------------------------------------------------------
// Restarting
// ---------------------------------------------------------------------------

/// Bindings written each once read back as the map they came from.
proof fn bindings_restored(bs: Seq<(Seq<u8>, Seq<u8>)>, m: Map<Seq<u8>, Seq<u8>>)
    requires
        forall|i: int|
            0 <= i < bs.len() ==> m.dom().contains((#[trigger] bs[i]).0) && m[bs[i].0] == bs[i].1,
    ensures
        forall|k: Seq<u8>| #[trigger]
            bindings_map(bs).dom().contains(k) <==> exists|i: int|
                0 <= i < bs.len() && (#[trigger] bs[i]).0 == k,
        forall|k: Seq<u8>| #[trigger]
            bindings_map(bs).dom().contains(k) ==> bindings_map(bs)[k] == m[k],
    decreases bs.len(),
{
    if bs.len() > 0 {
        let head = bs.drop_last();
        assert forall|i: int| 0 <= i < head.len() implies m.dom().contains((#[trigger] head[i]).0)
            && m[head[i].0] == head[i].1 by {
            assert(head[i] == bs[i]);
        }
        bindings_restored(head, m);
        assert(m[bs[bs.len() - 1].0] == bs.last().1);
        assert forall|k: Seq<u8>| #[trigger]
            bindings_map(bs).dom().contains(k) <==> exists|i: int|
                0 <= i < bs.len() && (#[trigger] bs[i]).0 == k by {
            if bindings_map(bs).dom().contains(k) {
                if k == bs.last().0 {
                    assert(bs[bs.len() - 1].0 == k);
                } else {
                    assert(bindings_map(head).dom().contains(k));
                    let i = choose|i: int| 0 <= i < head.len() && (#[trigger] head[i]).0 == k;
                    assert(bs[i].0 == k);
                }
            }
            if exists|i: int| 0 <= i < bs.len() && (#[trigger] bs[i]).0 == k {
                let i = choose|i: int| 0 <= i < bs.len() && (#[trigger] bs[i]).0 == k;
                if i < head.len() {
                    assert(head[i].0 == k);
                    assert(bindings_map(head).dom().contains(k));
                }
            }
        }
        assert forall|k: Seq<u8>| #[trigger]
            bindings_map(bs).dom().contains(k) implies bindings_map(bs)[k] == m[k] by {
            if k != bs.last().0 {
                assert(bindings_map(head).dom().contains(k));
            }
        }
    }
}

/// Records of different keys under their own identities all go in, unless the
/// time has run out on them.
proof fn records_restored(
    rs: Seq<SignedModel>,
    bindings: Map<Seq<u8>, Seq<u8>>,
    now: u64,
)
    requires
        forall|i: int|
            0 <= i < rs.len() ==> bindings.dom().contains((#[trigger] rs[i]).record.key)
                && bindings[rs[i].record.key] == rs[i].record.delegation.identity,
        forall|i: int, j: int|
            0 <= i < j < rs.len() ==> (#[trigger] rs[i]).record.key != (
            #[trigger] rs[j]).record.key,
    ensures
        ({
            let m = put_all(
                StoreModel { records: Map::empty(), bindings, revision: 0 },
                rs,
                now,
            );
            &&& m.bindings == bindings
            &&& forall|k: Seq<u8>| #[trigger]
                m.records.dom().contains(k) <==> exists|i: int|
                    0 <= i < rs.len() && (#[trigger] rs[i]).record.key == k && admitted(
                        rs[i],
                        now,
                    ) is Ok
            &&& forall|i: int|
                0 <= i < rs.len() && m.records.dom().contains((#[trigger] rs[i]).record.key)
                    ==> m.records[rs[i].record.key] == rs[i]
        }),
    decreases rs.len(),
{
    let start = StoreModel { records: Map::empty(), bindings, revision: 0 };
    if rs.len() > 0 {
        let head = rs.drop_last();
        let last = rs.last();
        assert forall|i: int| 0 <= i < head.len() implies bindings.dom().contains(
            (#[trigger] head[i]).record.key,
        ) && bindings[head[i].record.key] == head[i].record.delegation.identity by {
            assert(head[i] == rs[i]);
        }
        records_restored(head, bindings, now);
        let before = put_all(start, head, now);
        let m = put_all(start, rs, now);
        assert(rs[rs.len() - 1] == last);
        assert(!before.records.dom().contains(last.record.key)) by {
            if before.records.dom().contains(last.record.key) {
                let i = choose|i: int|
                    0 <= i < head.len() && (#[trigger] head[i]).record.key == last.record.key
                        && admitted(head[i], now) is Ok;
                assert(rs[i].record.key != rs[rs.len() - 1].record.key);
            }
        }
        assert(m.bindings =~= bindings);
        assert forall|k: Seq<u8>| #[trigger]
            m.records.dom().contains(k) <==> exists|i: int|
                0 <= i < rs.len() && (#[trigger] rs[i]).record.key == k && admitted(
                    rs[i],
                    now,
                ) is Ok by {
            if m.records.dom().contains(k) {
                if k != last.record.key {
                    assert(before.records.dom().contains(k));
                    let i = choose|i: int|
                        0 <= i < head.len() && (#[trigger] head[i]).record.key == k && admitted(
                            head[i],
                            now,
                        ) is Ok;
                    assert(rs[i].record.key == k);
                } else {
                    assert(rs[rs.len() - 1].record.key == k);
                }
            }
            if exists|i: int|
                0 <= i < rs.len() && (#[trigger] rs[i]).record.key == k && admitted(
                    rs[i],
                    now,
                ) is Ok {
                let i = choose|i: int|
                    0 <= i < rs.len() && (#[trigger] rs[i]).record.key == k && admitted(
                        rs[i],
                        now,
                    ) is Ok;
                if i < head.len() {
                    assert(head[i].record.key == k);
                    assert(before.records.dom().contains(k));
                }
            }
        }
        assert forall|i: int|
            0 <= i < rs.len() && m.records.dom().contains(
                (#[trigger] rs[i]).record.key,
            ) implies m.records[rs[i].record.key] == rs[i] by {
            if i < head.len() {
                assert(head[i] == rs[i]);
                assert(rs[i].record.key != rs[rs.len() - 1].record.key);
                assert(before.records.dom().contains(head[i].record.key));
            }
        }
    }
}

/// A restart from a snapshot keeps every binding, and every record that is
/// still admitted; it brings in nothing else.
pub proof fn a_restart_keeps_bindings_and_records(
    s: Store,
    rs: Seq<SignedModel>,
    bs: Seq<(Seq<u8>, Seq<u8>)>,
    now: u64,
)
    requires
        s.wf(),
        is_snapshot_of(rs, bs, s@),
        records_fit(rs),
        rs.len() < 0x1_0000_0000,
        bs.len() < 0x1_0000_0000,
    ensures
        ({
            let m = opened(Some(snapshot_bytes(rs, bs)), now);
            &&& m.bindings == s@.bindings
            &&& forall|k: Seq<u8>| #[trigger]
                m.records.dom().contains(k) <==> s@.records.dom().contains(k) && admitted(
                    s@.records[k],
                    now,
                ) is Ok
            &&& forall|k: Seq<u8>| #[trigger]
                m.records.dom().contains(k) ==> m.records[k] == s@.records[k]
        }),
{
    s.lemma_wf();
    s.lemma_key_lens();
    assert forall|i: int| 0 <= i < bs.len() implies (#[trigger] bs[i]).0.len() == 32
        && bs[i].1.len() == 32 by {
        assert(s@.bindings.dom().contains(bs[i].0));
    }
    snapshot_round_trip(rs, bs);
    bindings_restored(bs, s@.bindings);
    assert(bindings_map(bs) =~= s@.bindings) by {
        assert forall|k: Seq<u8>| #[trigger] s@.bindings.dom().contains(k) implies bindings_map(
            bs,
        ).dom().contains(k) by {
            assert(bs.contains((k, s@.bindings[k])));
            let i = choose|i: int| 0 <= i < bs.len() && bs[i] == (k, s@.bindings[k]);
            assert(bs[i].0 == k);
        }
        assert forall|k: Seq<u8>| #[trigger]
            bindings_map(bs).dom().contains(k) implies s@.bindings.dom().contains(k) by {
            let i = choose|i: int| 0 <= i < bs.len() && (#[trigger] bs[i]).0 == k;
            assert(s@.bindings.dom().contains(bs[i].0));
        }
    }
    assert forall|i: int| 0 <= i < rs.len() implies s@.bindings.dom().contains(
        (#[trigger] rs[i]).record.key,
    ) && s@.bindings[rs[i].record.key] == rs[i].record.delegation.identity by {
        assert(s@.records.dom().contains(rs[i].record.key));
        assert(held_soundly(s@, rs[i].record.key));
    }
    assert forall|i: int, j: int| 0 <= i < j < rs.len() implies (#[trigger] rs[i]).record.key != (
    #[trigger] rs[j]).record.key by {
        s.lemma_key_lens();
        assert(s@.records.dom().contains(rs[i].record.key));
        assert(held_soundly(s@, rs[i].record.key));
        assert(rs[i].record.key.len() == 32);
        assert(bytes_before(rs[i].record.key, rs[j].record.key));
        key_order_is_total(rs[i].record.key, rs[i].record.key);
    }
    records_restored(rs, s@.bindings, now);
    let m = opened(Some(snapshot_bytes(rs, bs)), now);
    assert forall|k: Seq<u8>| #[trigger]
        m.records.dom().contains(k) <==> s@.records.dom().contains(k) && admitted(
            s@.records[k],
            now,
        ) is Ok by {
        if m.records.dom().contains(k) {
            let i = choose|i: int|
                0 <= i < rs.len() && (#[trigger] rs[i]).record.key == k && admitted(
                    rs[i],
                    now,
                ) is Ok;
            assert(s@.records[rs[i].record.key] == rs[i]);
        }
        if s@.records.dom().contains(k) && admitted(s@.records[k], now) is Ok {
            assert(rs.contains(s@.records[k]));
            let i = choose|i: int| 0 <= i < rs.len() && rs[i] == s@.records[k];
            assert(held_soundly(s@, k));
            assert(rs[i].record.key == k);
        }
    }
    assert forall|k: Seq<u8>| #[trigger] m.records.dom().contains(k) implies m.records[k]
        == s@.records[k] by {
        let i = choose|i: int|
            0 <= i < rs.len() && (#[trigger] rs[i]).record.key == k && admitted(rs[i], now) is Ok;
        assert(m.records[rs[i].record.key] == rs[i]);
        assert(s@.records[rs[i].record.key] == rs[i]);
    }
}

/// Tombstones survive a restart: none of them lapses, however long it takes.
/// (One dated further into the future than clocks may differ is not admitted
/// yet.)
pub proof fn tombstones_survive_a_restart(
    s: Store,
    rs: Seq<SignedModel>,
    bs: Seq<(Seq<u8>, Seq<u8>)>,
    now: u64,
    key: Seq<u8>,
)
    requires
        s.wf(),
        is_snapshot_of(rs, bs, s@),
        records_fit(rs),
        rs.len() < 0x1_0000_0000,
        bs.len() < 0x1_0000_0000,
        s@.records.dom().contains(key),
        is_terminal(s@.records[key].record),
        s@.records[key].record.issued_at <= now + MAX_CLOCK_SKEW,
    ensures
        opened(Some(snapshot_bytes(rs, bs)), now).records.dom().contains(key),
        opened(Some(snapshot_bytes(rs, bs)), now).records[key] == s@.records[key],
{
    s.lemma_wf();
    a_restart_keeps_bindings_and_records(s, rs, bs, now);
    assert(held_soundly(s@, key));
}

} // verus!
