//! The snapshot: a store's records and identity bindings as bytes.
//!
//! ```text
//! Snapshot := "SQNSDB" version:u8 n:u32 Signed*n m:u32 (key:[32] identity:[32])*m
//! ```

use vstd::prelude::*;
use vstd::string::*;

use crate::codec::{
    Parse, Reader, be32, bytes_read_back, finished, join_assoc, put_bytes, put_u32, put_u8,
    read_bytes, read_u32, read_u8, u32_read_back, u8_read_back,
};
use crate::delegation::same_slices;
use crate::error::{Error, ErrorModel, Result, outcome};
use crate::key::{PubKey, key_len};
use crate::keymap::KeyMap;
use crate::record::{
    SignedModel, SignedRecord, read_signed, signed_bytes, signed_fits, signed_models,
};
use crate::record_laws::signed_read_back;
use crate::text::{dec, push_dec};

verus! {

broadcast use key_len;

/// Snapshot format version.
pub const SNAPSHOT_VERSION: u8 = 3;

/// The first bytes of every snapshot.
pub open spec fn snapshot_magic() -> Seq<u8> {
    seq![83u8, 81u8, 78u8, 83u8, 68u8, 66u8]
}

/// Signed records, one after another.
pub open spec fn records_bytes(v: Seq<SignedModel>) -> Seq<u8>
    decreases v.len(),
{
    if v.len() == 0 {
        seq![]
    } else {
        records_bytes(v.drop_last()) + signed_bytes(v.last())
    }
}

/// Bindings of a service key to an identity, one after another.
pub open spec fn bindings_bytes(v: Seq<(Seq<u8>, Seq<u8>)>) -> Seq<u8>
    decreases v.len(),
{
    if v.len() == 0 {
        seq![]
    } else {
        bindings_bytes(v.drop_last()) + (v.last().0 + v.last().1)
    }
}

/// A snapshot's bytes. Both counts wrap at 2^32.
pub open spec fn snapshot_bytes(
    records: Seq<SignedModel>,
    bindings: Seq<(Seq<u8>, Seq<u8>)>,
) -> Seq<u8> {
    snapshot_magic() + seq![SNAPSHOT_VERSION] + be32((records.len() % 0x1_0000_0000) as u32)
        + records_bytes(records) + be32((bindings.len() % 0x1_0000_0000) as u32) + bindings_bytes(
        bindings,
    )
}

/// Read `n` signed records, one after another.
pub open spec fn read_records(s: Seq<u8>, n: nat) -> Parse<Seq<SignedModel>>
    decreases n,
{
    if n == 0 {
        (Ok(seq![]), s)
    } else {
        match read_records(s, (n - 1) as nat) {
            (Err(e), t) => (Err(e), t),
            (Ok(v), t) => match read_signed(t) {
                (Err(e), t) => (Err(e), t),
                (Ok(r), t) => (Ok(v.push(r)), t),
            },
        }
    }
}

/// A read that fails early fails the same way however many were wanted.
pub proof fn read_records_stuck(s: Seq<u8>, k: nat, n: nat)
    requires
        k <= n,
        read_records(s, k).0 is Err,
    ensures
        read_records(s, n) == read_records(s, k),
    decreases n,
{
    if k < n {
        read_records_stuck(s, k, (n - 1) as nat);
    }
}

/// Read one binding.
pub open spec fn read_binding(s: Seq<u8>) -> Parse<(Seq<u8>, Seq<u8>)> {
    match read_bytes(s, 32, "binding service key"@) {
        (Err(e), t) => (Err(e), t),
        (Ok(k), t) => match read_bytes(t, 32, "binding identity"@) {
            (Err(e), t) => (Err(e), t),
            (Ok(i), t) => (Ok((k, i)), t),
        },
    }
}

/// Read `n` bindings, one after another.
pub open spec fn read_bindings(s: Seq<u8>, n: nat) -> Parse<Seq<(Seq<u8>, Seq<u8>)>>
    decreases n,
{
    if n == 0 {
        (Ok(seq![]), s)
    } else {
        match read_bindings(s, (n - 1) as nat) {
            (Err(e), t) => (Err(e), t),
            (Ok(v), t) => match read_binding(t) {
                (Err(e), t) => (Err(e), t),
                (Ok(b), t) => (Ok(v.push(b)), t),
            },
        }
    }
}

proof fn read_bindings_stuck(s: Seq<u8>, k: nat, n: nat)
    requires
        k <= n,
        read_bindings(s, k).0 is Err,
    ensures
        read_bindings(s, n) == read_bindings(s, k),
    decreases n,
{
    if k < n {
        read_bindings_stuck(s, k, (n - 1) as nat);
    }
}

/// Bindings as a map: the last one for a key counts.
pub open spec fn bindings_map(v: Seq<(Seq<u8>, Seq<u8>)>) -> Map<Seq<u8>, Seq<u8>>
    decreases v.len(),
{
    if v.len() == 0 {
        Map::empty()
    } else {
        bindings_map(v.drop_last()).insert(v.last().0, v.last().1)
    }
}

/// What a snapshot holds.
#[verifier::ext_equal]
pub struct SnapshotModel {
    pub records: Seq<SignedModel>,
    pub bindings: Map<Seq<u8>, Seq<u8>>,
}

/// Read what follows a snapshot's version.
#[verifier::opaque]
pub open spec fn read_snapshot_body(s: Seq<u8>) -> Parse<SnapshotModel> {
    match read_u32(s, "snapshot record count"@) {
        (Err(e), t) => (Err(e), t),
        (Ok(n), t) => match read_records(t, n as nat) {
            (Err(e), t) => (Err(e), t),
            (Ok(records), t) => match read_u32(t, "snapshot binding count"@) {
                (Err(e), t) => (Err(e), t),
                (Ok(m), t) => match read_bindings(t, m as nat) {
                    (Err(e), t) => (Err(e), t),
                    (Ok(bindings), t) => (
                        Ok(SnapshotModel { records, bindings: bindings_map(bindings) }),
                        t,
                    ),
                },
            },
        },
    }
}

/// Read a snapshot.
#[verifier::opaque]
pub open spec fn read_snapshot(s: Seq<u8>) -> Parse<SnapshotModel> {
    match read_bytes(s, 6, "snapshot magic"@) {
        (Err(e), t) => (Err(e), t),
        (Ok(magic), t) => if magic != snapshot_magic() {
            (Err(ErrorModel::Record("not an sqns snapshot file"@)), t)
        } else {
            match read_u8(t, "snapshot version"@) {
                (Err(e), t) => (Err(e), t),
                (Ok(version), t) => if version != SNAPSHOT_VERSION {
                    (
                        Err(
                            ErrorModel::Record(
                                "unsupported snapshot version "@ + dec(version as nat)
                                    + " (this build writes "@ + dec(SNAPSHOT_VERSION as nat) + ")"@,
                            ),
                        ),
                        t,
                    )
                } else {
                    read_snapshot_body(t)
                },
            }
        },
    }
}

/// A snapshot out of its bytes, with nothing left over.
pub open spec fn snapshot_decoded(s: Seq<u8>) -> std::result::Result<SnapshotModel, ErrorModel> {
    match read_snapshot(s) {
        (Err(e), _) => Err(e),
        (Ok(r), t) => match finished(t, "snapshot"@) {
            Err(e) => Err(e),
            Ok(_) => Ok(r),
        },
    }
}

/// A decoded snapshot.
pub struct Snapshot {
    pub records: Vec<SignedRecord>,
    pub bindings: KeyMap<PubKey>,
}

/// A map of keys with the values taken by their bytes.
pub open spec fn key_values(m: Map<Seq<u8>, PubKey>) -> Map<Seq<u8>, Seq<u8>> {
    Map::new(|k: Seq<u8>| m.dom().contains(k), |k: Seq<u8>| m[k]@)
}

impl View for Snapshot {
    type V = SnapshotModel;

    open spec fn view(&self) -> SnapshotModel {
        SnapshotModel {
            records: signed_models(self.records@),
            bindings: key_values(self.bindings@),
        }
    }
}

fn magic() -> (m: [u8; 6])
    ensures
        m@ == snapshot_magic(),
{
    // "SQNSDB"
    let m: [u8; 6] = [83, 81, 78, 83, 68, 66];
    assert(m@ =~= snapshot_magic());
    m
}

/// The bindings of a map, in the order of its keys.
pub open spec fn binding_pairs(ks: Seq<Seq<u8>>, vs: Seq<PubKey>) -> Seq<(Seq<u8>, Seq<u8>)> {
    Seq::new(ks.len(), |i: int| (ks[i], vs[i]@))
}

/// Write records and bindings in the order of their keys.
pub fn encode_snapshot(records: &KeyMap<SignedRecord>, bindings: &KeyMap<PubKey>) -> (buf: Vec<u8>)
    requires
        records.wf(),
        bindings.wf(),
    ensures
        buf@ == snapshot_bytes(
            signed_models(records.values()),
            binding_pairs(bindings.keys(), bindings.values()),
        ),
{
    let ghost rs = signed_models(records.values());
    let ghost bs = binding_pairs(bindings.keys(), bindings.values());
    let mut buf: Vec<u8> = Vec::new();
    put_bytes(&mut buf, &magic());
    assert(buf@ =~= snapshot_magic());
    put_u8(&mut buf, SNAPSHOT_VERSION);
    let n: usize = records.len();
    put_u32(&mut buf, (n as u64 % 0x1_0000_0000) as u32);
    let ghost head = buf@;
    let mut i: usize = 0;
    proof {
        assert(rs.subrange(0, 0) =~= seq![]);
        assert(head + records_bytes(rs.subrange(0, 0)) =~= head);
    }
    while i < n
        invariant
            i <= n == records.keys().len(),
            records.wf(),
            rs == signed_models(records.values()),
            buf@ == head + records_bytes(rs.subrange(0, i as int)),
        decreases n - i,
    {
        records.value_at(i).encode_into(&mut buf);
        proof {
            let done = rs.subrange(0, i + 1);
            assert(done.drop_last() =~= rs.subrange(0, i as int));
            join_assoc(head, records_bytes(done.drop_last()), signed_bytes(done.last()));
        }
        i += 1;
    }
    proof {
        assert(rs.subrange(0, i as int) =~= rs);
    }
    let m: usize = bindings.len();
    put_u32(&mut buf, (m as u64 % 0x1_0000_0000) as u32);
    let ghost mid = buf@;
    let mut j: usize = 0;
    proof {
        assert(bs.subrange(0, 0) =~= seq![]);
        assert(mid + bindings_bytes(bs.subrange(0, 0)) =~= mid);
    }
    while j < m
        invariant
            j <= m == bindings.keys().len(),
            bindings.wf(),
            bs == binding_pairs(bindings.keys(), bindings.values()),
            buf@ == mid + bindings_bytes(bs.subrange(0, j as int)),
        decreases m - j,
    {
        let k = bindings.key_at(j);
        let identity = *bindings.value_at(j);
        put_bytes(&mut buf, k.as_bytes());
        put_bytes(&mut buf, identity.as_bytes());
        proof {
            let done = bs.subrange(0, j + 1);
            assert(done.drop_last() =~= bs.subrange(0, j as int));
            join_assoc(mid, bindings_bytes(done.drop_last()), k@);
            join_assoc(mid, bindings_bytes(done.drop_last()) + k@, identity@);
            join_assoc(bindings_bytes(done.drop_last()), k@, identity@);
        }
        j += 1;
    }
    proof {
        assert(bs.subrange(0, j as int) =~= bs);
    }
    buf
}

/// Read `n` signed records, one after another.
pub(crate) fn decode_records(n: usize, r: &mut Reader<'_>) -> (out: Result<Vec<SignedRecord>>)
    ensures
        match out {
            Ok(v) => read_records(old(r)@, n as nat) == (
                Ok::<Seq<SignedModel>, ErrorModel>(signed_models(v@)),
                final(r)@,
            ),
            Err(e) => read_records(old(r)@, n as nat) == (
                Err::<Seq<SignedModel>, ErrorModel>(e@),
                final(r)@,
            ),
        },
{
    let ghost start = r@;
    let mut v: Vec<SignedRecord> = Vec::new();
    let mut i: usize = 0;
    proof {
        assert(signed_models(v@) =~= seq![]);
    }
    while i < n
        invariant
            i <= n,
            v@.len() == i,
            start == old(r)@,
            read_records(start, i as nat) == (
                Ok::<Seq<SignedModel>, ErrorModel>(signed_models(v@)),
                r@,
            ),
        decreases n - i,
    {
        match SignedRecord::decode_from(r) {
            Ok(rec) => {
                let ghost before = signed_models(v@);
                v.push(rec);
                proof {
                    assert(signed_models(v@) =~= before.push(rec@));
                }
            },
            Err(e) => {
                proof {
                    read_records_stuck(start, (i + 1) as nat, n as nat);
                }
                return Err(e);
            },
        }
        i += 1;
    }
    Ok(v)
}

fn decode_binding(r: &mut Reader<'_>) -> (out: Result<(PubKey, PubKey)>)
    ensures
        match out {
            Ok((k, i)) => read_binding(old(r)@) == (
                Ok::<(Seq<u8>, Seq<u8>), ErrorModel>((k@, i@)),
                final(r)@,
            ),
            Err(e) => read_binding(old(r)@) == (
                Err::<(Seq<u8>, Seq<u8>), ErrorModel>(e@),
                final(r)@,
            ),
        },
{
    let service_key = PubKey::new(r.array::<32>("binding service key")?);
    let identity = PubKey::new(r.array::<32>("binding identity")?);
    Ok((service_key, identity))
}

/// What bindings read so far amount to.
spec fn bindings_so_far(p: Parse<Seq<(Seq<u8>, Seq<u8>)>>) -> Parse<Map<Seq<u8>, Seq<u8>>> {
    match p {
        (Ok(v), t) => (Ok(bindings_map(v)), t),
        (Err(e), t) => (Err(e), t),
    }
}

fn decode_bindings(n: usize, r: &mut Reader<'_>) -> (out: Result<KeyMap<PubKey>>)
    ensures
        match out {
            Ok(m) => m.wf() && bindings_so_far(read_bindings(old(r)@, n as nat)) == (
                Ok::<Map<Seq<u8>, Seq<u8>>, ErrorModel>(key_values(m@)),
                final(r)@,
            ),
            Err(e) => bindings_so_far(read_bindings(old(r)@, n as nat)) == (
                Err::<Map<Seq<u8>, Seq<u8>>, ErrorModel>(e@),
                final(r)@,
            ),
        },
{
    let ghost start = r@;
    let mut m: KeyMap<PubKey> = KeyMap::new();
    let mut i: usize = 0;
    proof {
        assert(key_values(m@) =~= Map::empty());
    }
    while i < n
        invariant
            i <= n,
            m.wf(),
            start == old(r)@,
            bindings_so_far(read_bindings(start, i as nat)) == (
                Ok::<Map<Seq<u8>, Seq<u8>>, ErrorModel>(key_values(m@)),
                r@,
            ),
        decreases n - i,
    {
        let ghost v = read_bindings(start, i as nat).0->Ok_0;
        match decode_binding(r) {
            Ok((k, identity)) => {
                let ghost before = key_values(m@);
                m.insert(k, identity);
                proof {
                    assert(v.push((k@, identity@)).drop_last() =~= v);
                    assert(key_values(m@) =~= before.insert(k@, identity@));
                }
            },
            Err(e) => {
                proof {
                    read_bindings_stuck(start, (i + 1) as nat, n as nat);
                }
                return Err(e);
            },
        }
        i += 1;
    }
    Ok(m)
}

fn read_from(r: &mut Reader<'_>) -> (out: Result<Snapshot>)
    ensures
        (outcome(out), final(r)@) == read_snapshot(old(r)@),
        out matches Ok(s) ==> s.bindings.wf(),
{
    proof {
        reveal(read_snapshot);
        reveal(read_snapshot_body);
    }
    let found = r.bytes(6, "snapshot magic")?;
    if !same_slices(found, &magic()) {
        return Err(Error::Record(String::from_str("not an sqns snapshot file")));
    }
    let version: u8 = r.u8("snapshot version")?;
    if version != SNAPSHOT_VERSION {
        let mut m = String::from_str("unsupported snapshot version ");
        push_dec(&mut m, version as u64);
        m.append(" (this build writes ");
        push_dec(&mut m, SNAPSHOT_VERSION as u64);
        m.append(")");
        return Err(Error::Record(m));
    }
    let count: u32 = r.u32("snapshot record count")?;
    let records = decode_records(count as usize, r)?;
    let binding_count: u32 = r.u32("snapshot binding count")?;
    let bindings = decode_bindings(binding_count as usize, r)?;
    Ok(Snapshot { records, bindings })
}

/// Read a snapshot.
pub fn decode_snapshot(bytes: &[u8]) -> (out: Result<Snapshot>)
    ensures
        outcome(out) == snapshot_decoded(bytes@),
        out matches Ok(s) ==> s.bindings.wf(),
{
    let mut r = Reader::new(bytes);
    let s = read_from(&mut r)?;
    r.finish("snapshot")?;
    Ok(s)
}

// ---------------------------------------------------------------------------
// What a read gives back of a write
// ---------------------------------------------------------------------------

/// Records that their encoding carries exactly.
pub open spec fn records_fit(v: Seq<SignedModel>) -> bool {
    forall|i: int| 0 <= i < v.len() ==> signed_fits(#[trigger] v[i])
}

/// Records that fit read back as themselves.
pub proof fn records_read_back(v: Seq<SignedModel>, tail: Seq<u8>)
    requires
        records_fit(v),
    ensures
        read_records(records_bytes(v) + tail, v.len()) == (
            Ok::<Seq<SignedModel>, ErrorModel>(v),
            tail,
        ),
    decreases v.len(),
{
    if v.len() == 0 {
        assert(records_bytes(v) + tail =~= tail);
        assert(v =~= seq![]);
    } else {
        let s = signed_bytes(v.last()) + tail;
        records_read_back(v.drop_last(), s);
        join_assoc(records_bytes(v.drop_last()), signed_bytes(v.last()), tail);
        signed_read_back(v.last(), tail);
        assert(v =~= v.drop_last().push(v.last()));
    }
}

/// Bindings of 32-byte keys read back as themselves.
pub proof fn bindings_read_back(v: Seq<(Seq<u8>, Seq<u8>)>, tail: Seq<u8>)
    requires
        forall|i: int| 0 <= i < v.len() ==> (#[trigger] v[i]).0.len() == 32 && v[i].1.len() == 32,
    ensures
        read_bindings(bindings_bytes(v) + tail, v.len()) == (
            Ok::<Seq<(Seq<u8>, Seq<u8>)>, ErrorModel>(v),
            tail,
        ),
    decreases v.len(),
{
    if v.len() == 0 {
        assert(bindings_bytes(v) + tail =~= tail);
        assert(v =~= seq![]);
    } else {
        let (k, i) = v.last();
        bindings_read_back(v.drop_last(), (k + i) + tail);
        join_assoc(bindings_bytes(v.drop_last()), k + i, tail);
        join_assoc(k, i, tail);
        bytes_read_back(k, i + tail, "binding service key"@);
        bytes_read_back(i, tail, "binding identity"@);
        assert(v =~= v.drop_last().push(v.last()));
    }
}

/// A snapshot reads back as the records and bindings that were written.
pub proof fn snapshot_round_trip(records: Seq<SignedModel>, bindings: Seq<(Seq<u8>, Seq<u8>)>)
    requires
        records_fit(records),
        records.len() < 0x1_0000_0000,
        bindings.len() < 0x1_0000_0000,
        forall|i: int|
            0 <= i < bindings.len() ==> (#[trigger] bindings[i]).0.len() == 32
                && bindings[i].1.len() == 32,
    ensures
        snapshot_decoded(snapshot_bytes(records, bindings)) == Ok::<SnapshotModel, ErrorModel>(
            SnapshotModel { records, bindings: bindings_map(bindings) },
        ),
{
    reveal(read_snapshot);
    reveal(read_snapshot_body);
    let none = Seq::<u8>::empty();
    let (m, v) = (snapshot_magic(), seq![SNAPSHOT_VERSION]);
    let (n, rs) = (be32(records.len() as u32), records_bytes(records));
    let (c, bs) = (be32(bindings.len() as u32), bindings_bytes(bindings));
    let t4 = bs + none;
    let t3 = c + t4;
    let t2 = rs + t3;
    let t1 = n + t2;
    assert(t4 =~= bs);
    join_assoc(m + v + n + rs, c, bs);
    join_assoc(m + v + n, rs, t3);
    join_assoc(m + v, n, t2);
    join_assoc(m, v, t1);
    bytes_read_back(m, v + t1, "snapshot magic"@);
    u8_read_back(SNAPSHOT_VERSION, t1, "snapshot version"@);
    u32_read_back(records.len() as u32, t2, "snapshot record count"@);
    records_read_back(records, t3);
    u32_read_back(bindings.len() as u32, t4, "snapshot binding count"@);
    bindings_read_back(bindings, none);
}

} // verus!
