//! Delegations: an identity key's authority over a service key.

use vstd::prelude::*;
use vstd::string::*;

use crate::codec::{
    Parse, Reader, be64, bytes_read_back, bytes_were_there, finished, join_assoc, put_bytes,
    put_u64, put_u8, read_bytes, read_u64, read_u8, u64_read_back, u64_was_there, u8_read_back,
    u8_was_there,
};
use crate::error::{Error, ErrorModel, Result, outcome};
use crate::key::{
    PubKey, SigningKey, base58, ed25519_signature, ed25519_verifies, is_curve_point, key_len,
    not_a_point, public_key, public_of,
};
use crate::text::{dec, push_dec};

verus! {

broadcast use key_len;

/// A `not_after` of this value means the delegation never expires, for
/// operators who would rather not have a renewal cadence to forget.
pub const NEVER_EXPIRES: u64 = u64::MAX;

/// Longest a delegation may be valid for, in seconds (365 days).
pub const MAX_DELEGATION_LIFETIME: u64 = 31_536_000;

/// Default delegation lifetime, in seconds (90 days).
pub const DEFAULT_DELEGATION_LIFETIME: u64 = 7_776_000;

/// Domain separation prefix for delegation signatures.
pub const DELEGATION_CONTEXT: &'static str = "sqns-delegation-v2";

pub const DELEGATION_FILE_VERSION: u8 = 2;

/// An identity key's grant of authority over a service key.
///
/// Issued offline, wherever the identity key lives, and carried inside every
/// record the service key publishes. It binds the two keys together so that a
/// record signed by the identity can retire the service key, the one thing the
/// service key cannot do for itself.
#[derive(Debug, PartialEq, Eq)]
pub struct Delegation {
    /// The identity that issued this service key and may retire it.
    pub identity: PubKey,
    /// Absolute expiry, seconds since the Unix epoch.
    pub not_after: u64,
    /// Signature by the identity key.
    pub signature: [u8; 64],
}

/// A [`Delegation`] with its key and signature as bytes.
#[verifier::ext_equal]
pub struct DelegationModel {
    pub identity: Seq<u8>,
    pub not_after: u64,
    pub signature: Seq<u8>,
}

impl View for Delegation {
    type V = DelegationModel;

    open spec fn view(&self) -> DelegationModel {
        DelegationModel {
            identity: self.identity@,
            not_after: self.not_after,
            signature: self.signature@,
        }
    }
}

impl Clone for Delegation {
    fn clone(&self) -> (r: Self)
        ensures
            r@ == self@,
    {
        Delegation {
            identity: self.identity,
            not_after: self.not_after,
            signature: self.signature,
        }
    }
}

/// The bytes a delegation signature covers: the context, the identity, the
/// service key and the expiry.
pub open spec fn delegation_message(
    identity: Seq<u8>,
    service_key: Seq<u8>,
    not_after: u64,
) -> Seq<u8> {
    DELEGATION_CONTEXT.spec_bytes() + identity + service_key + be64(not_after)
}

/// The delegation is signed by the identity it names, over this service key.
pub open spec fn delegation_covers(d: DelegationModel, service_key: Seq<u8>) -> bool {
    ed25519_verifies(
        d.identity,
        delegation_message(d.identity, service_key, d.not_after),
        d.signature,
    )
}

/// Why a delegation over a key does not hold.
pub open spec fn not_delegated(d: DelegationModel, service_key: Seq<u8>) -> ErrorModel {
    ErrorModel::Delegation(
        "the delegation over "@ + base58(service_key) + " is not signed by "@ + base58(d.identity),
    )
}

/// The check of a delegation against a service key.
pub open spec fn delegation_verified(
    d: DelegationModel,
    service_key: Seq<u8>,
) -> std::result::Result<(), ErrorModel> {
    if !is_curve_point(d.identity) {
        Err(not_a_point())
    } else if !delegation_covers(d, service_key) {
        Err(not_delegated(d, service_key))
    } else {
        Ok(())
    }
}

/// A delegation past its expiry.
pub open spec fn delegation_expired(d: DelegationModel, now: u64) -> bool {
    d.not_after != NEVER_EXPIRES && now >= d.not_after
}

/// The bytes of a delegation.
pub open spec fn delegation_bytes(d: DelegationModel) -> Seq<u8> {
    d.identity + be64(d.not_after) + d.signature
}

/// Keys and signatures of their proper lengths.
pub open spec fn delegation_fits(d: DelegationModel) -> bool {
    d.identity.len() == 32 && d.signature.len() == 64
}

/// Read a delegation.
pub open spec fn read_delegation(s: Seq<u8>) -> Parse<DelegationModel> {
    match read_bytes(s, 32, "delegation identity"@) {
        (Err(e), t) => (Err(e), t),
        (Ok(identity), t) => match read_u64(t, "delegation not_after"@) {
            (Err(e), t) => (Err(e), t),
            (Ok(not_after), t) => match read_bytes(t, 64, "delegation signature"@) {
                (Err(e), t) => (Err(e), t),
                (Ok(signature), t) => (Ok(DelegationModel { identity, not_after, signature }), t),
            },
        },
    }
}

impl Delegation {
    /// The bytes a delegation signature covers.
    fn signed_message(identity: &PubKey, service_key: &PubKey, not_after: u64) -> (msg: Vec<u8>)
        ensures
            msg@ == delegation_message(identity@, service_key@, not_after),
    {
        let mut msg: Vec<u8> = Vec::new();
        put_bytes(&mut msg, DELEGATION_CONTEXT.as_bytes());
        put_bytes(&mut msg, identity.as_bytes());
        put_bytes(&mut msg, service_key.as_bytes());
        put_u64(&mut msg, not_after);
        assert(msg@ =~= delegation_message(identity@, service_key@, not_after));
        msg
    }

    /// Issue a delegation over `service_key`. Run this offline.
    pub fn issue(identity: &SigningKey, service_key: &PubKey, not_after: u64) -> (d: Self)
        ensures
            d.identity@ == public_key(*identity),
            d.not_after == not_after,
            d.signature@ == ed25519_signature(
                identity@,
                delegation_message(public_key(*identity), service_key@, not_after),
            ),
            delegation_verified(d@, service_key@) == Ok::<(), ErrorModel>(()),
    {
        let identity_pub = public_of(identity);
        let msg = Self::signed_message(&identity_pub, service_key, not_after);
        Delegation { identity: identity_pub, not_after, signature: identity.sign(&msg) }
    }

    /// Check that this delegation really covers `service_key`.
    pub fn verify(&self, service_key: &PubKey) -> (r: Result<()>)
        ensures
            outcome(r) == delegation_verified(self@, service_key@),
    {
        let vk = self.identity.verifying_key()?;
        let msg = Self::signed_message(&self.identity, service_key, self.not_after);
        if vk.verify(&msg, &self.signature) {
            Ok(())
        } else {
            let mut m = String::from_str("the delegation over ");
            m.append(service_key.to_string().as_str());
            m.append(" is not signed by ");
            m.append(self.identity.to_string().as_str());
            Err(Error::Delegation(m))
        }
    }

    pub fn is_expired(&self, now: u64) -> (b: bool)
        ensures
            b == delegation_expired(self@, now),
    {
        self.not_after != NEVER_EXPIRES && now >= self.not_after
    }

    pub fn never_expires(&self) -> (b: bool)
        ensures
            b == (self@.not_after == NEVER_EXPIRES),
    {
        self.not_after == NEVER_EXPIRES
    }

    pub(crate) fn encode_into(&self, buf: &mut Vec<u8>)
        ensures
            final(buf)@ == old(buf)@ + delegation_bytes(self@),
    {
        let ghost before = buf@;
        put_bytes(buf, self.identity.as_bytes());
        put_u64(buf, self.not_after);
        put_bytes(buf, &self.signature);
        assert(buf@ =~= before + delegation_bytes(self@));
    }

    pub(crate) fn decode_from(r: &mut Reader<'_>) -> (out: Result<Self>)
        ensures
            (outcome(out), final(r)@) == read_delegation(old(r)@),
    {
        let identity = PubKey::new(r.array::<32>("delegation identity")?);
        let not_after: u64 = r.u64("delegation not_after")?;
        let signature = r.array::<64>("delegation signature")?;
        Ok(Delegation { identity, not_after, signature })
    }
}

/// A delegation reads back as itself.
pub proof fn delegation_read_back(d: DelegationModel, tail: Seq<u8>)
    requires
        delegation_fits(d),
    ensures
        read_delegation(delegation_bytes(d) + tail) == (
            Ok::<DelegationModel, ErrorModel>(d),
            tail,
        ),
{
    let s = d.signature + tail;
    let n = be64(d.not_after) + s;
    join_assoc(d.identity + be64(d.not_after), d.signature, tail);
    join_assoc(d.identity, be64(d.not_after), s);
    bytes_read_back(d.identity, n, "delegation identity"@);
    u64_read_back(d.not_after, s, "delegation not_after"@);
    bytes_read_back(d.signature, tail, "delegation signature"@);
}

/// A successful read of a delegation consumed exactly its encoding.
pub proof fn delegation_was_there(s: Seq<u8>)
    ensures
        read_delegation(s) matches (Ok(d), t) ==> s == delegation_bytes(d) + t && delegation_fits(
            d,
        ),
{
    if let (Ok(d), t) = read_delegation(s) {
        bytes_were_there(s, 32, "delegation identity"@);
        let s1 = read_bytes(s, 32, "delegation identity"@).1;
        u64_was_there(s1, "delegation not_after"@);
        let s2 = read_u64(s1, "delegation not_after"@).1;
        bytes_were_there(s2, 64, "delegation signature"@);
        join_assoc(d.identity + be64(d.not_after), d.signature, t);
        join_assoc(d.identity, be64(d.not_after), d.signature + t);
    }
}

// ---------------------------------------------------------------------------
// Delegation files
// ---------------------------------------------------------------------------

/// A delegation as it is carried on disk, between the offline identity key that
/// issues it and the node that publishes under it.
///
/// A record embeds the delegation next to the service key it covers. A
/// standalone file has no such context, so it names that service key too.
#[derive(Debug, PartialEq, Eq)]
pub struct DelegationFile {
    pub service_key: PubKey,
    pub delegation: Delegation,
}

/// A [`DelegationFile`] with its key as bytes.
#[verifier::ext_equal]
pub struct DelegationFileModel {
    pub service_key: Seq<u8>,
    pub delegation: DelegationModel,
}

impl View for DelegationFile {
    type V = DelegationFileModel;

    open spec fn view(&self) -> DelegationFileModel {
        DelegationFileModel { service_key: self.service_key@, delegation: self.delegation@ }
    }
}

impl Clone for DelegationFile {
    fn clone(&self) -> (r: Self)
        ensures
            r@ == self@,
    {
        DelegationFile { service_key: self.service_key, delegation: self.delegation.clone() }
    }
}

/// The first bytes of every delegation file.
pub open spec fn delegation_file_magic() -> Seq<u8> {
    seq![83u8, 81u8, 78u8, 83u8, 68u8, 69u8, 76u8]
}

/// The bytes of a delegation file.
pub open spec fn delegation_file_bytes(f: DelegationFileModel) -> Seq<u8> {
    delegation_file_magic() + seq![DELEGATION_FILE_VERSION] + f.service_key + delegation_bytes(
        f.delegation,
    )
}

/// The service key and the delegation, past the file's magic and version.
pub open spec fn read_delegation_file_body(s: Seq<u8>) -> Parse<DelegationFileModel> {
    match read_bytes(s, 32, "delegation service key"@) {
        (Err(e), t) => (Err(e), t),
        (Ok(service_key), t) => match read_delegation(t) {
            (Err(e), t) => (Err(e), t),
            (Ok(delegation), t) => (Ok(DelegationFileModel { service_key, delegation }), t),
        },
    }
}

/// A delegation file without the check of its signature.
pub open spec fn read_delegation_file(s: Seq<u8>) -> Parse<DelegationFileModel> {
    match read_bytes(s, 7, "delegation magic"@) {
        (Err(e), t) => (Err(e), t),
        (Ok(magic), t) => if magic != delegation_file_magic() {
            (Err(ErrorModel::Delegation("not an sqns delegation file"@)), t)
        } else {
            match read_u8(t, "delegation file version"@) {
                (Err(e), t) => (Err(e), t),
                (Ok(version), t) => if version != DELEGATION_FILE_VERSION {
                    (
                        Err(
                            ErrorModel::Delegation(
                                "unsupported delegation file version "@ + dec(version as nat),
                            ),
                        ),
                        t,
                    )
                } else {
                    read_delegation_file_body(t)
                },
            }
        },
    }
}

/// What a delegation file says: its layout is right, nothing follows it, and
/// the identity really signed it.
pub open spec fn delegation_file_decoded(s: Seq<u8>) -> std::result::Result<
    DelegationFileModel,
    ErrorModel,
> {
    match read_delegation_file(s) {
        (Err(e), _) => Err(e),
        (Ok(f), t) => match finished(t, "delegation file"@) {
            Err(e) => Err(e),
            Ok(_) => match delegation_verified(f.delegation, f.service_key) {
                Err(e) => Err(e),
                Ok(_) => Ok(f),
            },
        },
    }
}

fn delegation_magic() -> (m: [u8; 7])
    ensures
        m@ == delegation_file_magic(),
{
    // "SQNSDEL"
    let m: [u8; 7] = [83, 81, 78, 83, 68, 69, 76];
    assert(m@ =~= delegation_file_magic());
    m
}

/// Whether two runs of bytes are the same.
pub(crate) fn same_slices(a: &[u8], b: &[u8]) -> (r: bool)
    ensures
        r == (a@ == b@),
{
    if a.len() != b.len() {
        return false;
    }
    let mut i: usize = 0;
    while i < a.len()
        invariant
            i <= a@.len() == b@.len(),
            forall|j: int| 0 <= j < i ==> a@[j] == b@[j],
        decreases a@.len() - i,
    {
        if a[i] != b[i] {
            return false;
        }
        i += 1;
    }
    assert(a@ =~= b@);
    true
}

impl DelegationFile {
    pub fn new(service_key: PubKey, delegation: Delegation) -> (f: Self)
        ensures
            f@ == (DelegationFileModel { service_key: service_key@, delegation: delegation@ }),
    {
        DelegationFile { service_key, delegation }
    }

    pub fn identity(&self) -> (k: PubKey)
        ensures
            k@ == self@.delegation.identity,
    {
        self.delegation.identity
    }

    pub fn encode(&self) -> (buf: Vec<u8>)
        ensures
            buf@ == delegation_file_bytes(self@),
    {
        let mut buf: Vec<u8> = Vec::new();
        put_bytes(&mut buf, &delegation_magic());
        put_u8(&mut buf, DELEGATION_FILE_VERSION);
        put_bytes(&mut buf, self.service_key.as_bytes());
        self.delegation.encode_into(&mut buf);
        assert(buf@ =~= delegation_file_bytes(self@));
        buf
    }

    fn decode_from(r: &mut Reader<'_>) -> (out: Result<Self>)
        ensures
            (outcome(out), final(r)@) == read_delegation_file(old(r)@),
    {
        let magic = r.bytes(7, "delegation magic")?;
        if !same_slices(magic, &delegation_magic()) {
            return Err(Error::Delegation(String::from_str("not an sqns delegation file")));
        }
        let version: u8 = r.u8("delegation file version")?;
        if version != DELEGATION_FILE_VERSION {
            let mut m = String::from_str("unsupported delegation file version ");
            push_dec(&mut m, version as u64);
            return Err(Error::Delegation(m));
        }
        let service_key = PubKey::new(r.array::<32>("delegation service key")?);
        let delegation = Delegation::decode_from(r)?;
        Ok(DelegationFile { service_key, delegation })
    }

    /// Decode and check the signature, so a tampered file fails here rather
    /// than at publish time.
    pub fn decode(bytes: &[u8]) -> (out: Result<Self>)
        ensures
            outcome(out) == delegation_file_decoded(bytes@),
    {
        let mut r = Reader::new(bytes);
        let file = Self::decode_from(&mut r)?;
        r.finish("delegation file")?;
        file.delegation.verify(&file.service_key)?;
        Ok(file)
    }
}

/// A delegation file reads back as what was written, whenever the delegation
/// in it holds.
pub proof fn delegation_file_round_trip(f: DelegationFile)
    requires
        delegation_verified(f@.delegation, f@.service_key) is Ok,
    ensures
        delegation_file_decoded(delegation_file_bytes(f@)) == Ok::<
            DelegationFileModel,
            ErrorModel,
        >(f@),
{
    let d = delegation_bytes(f@.delegation);
    let none = Seq::<u8>::empty();
    let m = delegation_file_magic();
    let v = seq![DELEGATION_FILE_VERSION] + (f@.service_key + (d + none));
    assert(d + none =~= d);
    join_assoc(m + seq![DELEGATION_FILE_VERSION], f@.service_key, d);
    join_assoc(m, seq![DELEGATION_FILE_VERSION], f@.service_key + d);
    assert(delegation_file_bytes(f@) == m + v);
    bytes_read_back(delegation_file_magic(), v, "delegation magic"@);
    u8_read_back(
        DELEGATION_FILE_VERSION,
        f@.service_key + (d + none),
        "delegation file version"@,
    );
    bytes_read_back(f@.service_key, d + none, "delegation service key"@);
    delegation_read_back(f@.delegation, none);
}

/// Two different delegation files never have the same bytes, and no bytes
/// other than the encoding of a file are accepted.
pub proof fn delegation_file_is_canonical(s: Seq<u8>)
    ensures
        delegation_file_decoded(s) matches Ok(f) ==> s == delegation_file_bytes(f)
            && delegation_verified(f.delegation, f.service_key) is Ok,
{
    if let Ok(f) = delegation_file_decoded(s) {
        bytes_were_there(s, 7, "delegation magic"@);
        let s1 = read_bytes(s, 7, "delegation magic"@).1;
        u8_was_there(s1, "delegation file version"@);
        let s2 = read_u8(s1, "delegation file version"@).1;
        bytes_were_there(s2, 32, "delegation service key"@);
        let s3 = read_bytes(s2, 32, "delegation service key"@).1;
        delegation_was_there(s3);
        let (m, v) = (delegation_file_magic(), seq![DELEGATION_FILE_VERSION]);
        let d = delegation_bytes(f.delegation);
        assert(read_delegation(s3).1 =~= Seq::<u8>::empty());
        assert(d + Seq::<u8>::empty() =~= d);
        join_assoc(m + v, f.service_key, d);
        join_assoc(m, v, f.service_key + d);
    }
}

} // verus!
