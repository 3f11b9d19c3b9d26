//! Keys: base58 public keys, hex seeds, Ed25519 signatures.
//!
//! An sqns identity is an Ed25519 keypair, the same identity sQUIC pins for
//! the transport. The public key is written as base58 (as in `sqc://`
//! strings); private seeds are written in hexadecimal.
//!
//! The elliptic curve itself is outside this library. What it computes appears
//! in the contracts under three names: [`ed25519_public`], [`ed25519_signature`]
//! and [`ed25519_verifies`]; which byte strings are points of the curve, under
//! [`is_curve_point`].

use ed25519_dalek::{Signer, Verifier};
use vstd::prelude::*;
use vstd::string::*;
use vstd::utf8::*;

use crate::error::{Error, ErrorModel, Result, join2, outcome};
use crate::text::{
    all_hex, char_hex_value, chars_of, dec, digit_char, hex_value, octal, push_dec, push_octal,
    trim, trim_of_tight, trimmed,
};

verus! {

// ---------------------------------------------------------------------------
// Base58
// ---------------------------------------------------------------------------

/// What `bs58::encode(bytes).into_string()` returns.
pub uninterp spec fn base58(bytes: Seq<u8>) -> Seq<char>;

/// What `bs58::decode(text).into_vec()` returns, an error taken by its text.
pub uninterp spec fn unbase58(text: Seq<char>) -> std::result::Result<Seq<u8>, Seq<char>>;

/// Successfully decoded bytes.
pub open spec fn decoded(bytes: Seq<u8>) -> std::result::Result<Seq<u8>, Seq<char>> {
    Ok(bytes)
}

/// A character of the base58 alphabet: a letter or digit other than `0`, `I`,
/// `O` and `l`.
pub open spec fn is_base58_char(c: char) -> bool {
    let n = c as u32;
    ||| 49 <= n <= 57
    ||| 65 <= n <= 90 && n != 73 && n != 79
    ||| 97 <= n <= 122 && n != 108
}

/// `bs58::encode` with its default alphabet. Its text is made of the alphabet's
/// characters, is no longer than one and a half times the bytes, is empty only
/// for no bytes, and `bs58::decode` gives the bytes back.
#[verifier::external_body]
fn base58_encode(bytes: &[u8]) -> (text: String)
    ensures
        text@ == base58(bytes@),
        forall|i: int| 0 <= i < text@.len() ==> is_base58_char(#[trigger] text@[i]),
        text@.len() <= bytes@.len() + (bytes@.len() + 1) / 2,
        bytes@.len() > 0 ==> text@.len() > 0,
        unbase58(text@) == decoded(bytes@),
{
    bs58::encode(bytes).into_string()
}

/// `bs58::decode` with its default alphabet: the bytes, or the text of its
/// error.
#[verifier::external_body]
fn base58_decode(text: &str) -> (r: std::result::Result<Vec<u8>, String>)
    ensures
        match r {
            Ok(b) => unbase58(text@) == decoded(b@),
            Err(t) => unbase58(text@) == Err::<Seq<u8>, Seq<char>>(t@),
        },
{
    bs58::decode(text).into_vec().map_err(|e| e.to_string())
}

// ---------------------------------------------------------------------------
// Hexadecimal
// ---------------------------------------------------------------------------

/// Two lower-case digits for each byte.
pub open spec fn hex_text(bytes: Seq<u8>) -> Seq<char> {
    Seq::new(
        2 * bytes.len(),
        |i: int|
            if i % 2 == 0 {
                digit_char((bytes[i / 2] / 16) as nat)
            } else {
                digit_char((bytes[i / 2] % 16) as nat)
            },
    )
}

/// An even number of hexadecimal digits.
pub open spec fn is_hex(text: Seq<char>) -> bool {
    text.len() % 2 == 0 && all_hex(text)
}

/// The bytes that pairs of hexadecimal digits stand for.
pub open spec fn unhex(text: Seq<char>) -> Seq<u8> {
    Seq::new(
        text.len() / 2,
        |i: int|
            (hex_value(text[2 * i]).unwrap_or(0) * 16 + hex_value(text[2 * i + 1]).unwrap_or(
                0,
            )) as u8,
    )
}

/// The text of the error that `hex::decode` reports for this text.
pub uninterp spec fn hex_error_text(text: Seq<char>) -> Seq<char>;

/// `hex::encode`: two lower-case digits for each byte.
#[verifier::external_body]
fn hex_encode(bytes: &[u8]) -> (text: String)
    ensures
        text@ == hex_text(bytes@),
{
    hex::encode(bytes)
}

/// `text` is hexadecimal up to `i`, where something else stands.
pub open spec fn stops_being_hex(text: Seq<char>, i: int) -> bool {
    0 <= i < text.len() && hex_value(text[i]) is None && all_hex(text.subrange(0, i))
}

/// A character that is shown as itself between quotes.
pub open spec fn shown_plainly(c: char) -> bool {
    let n = c as u32;
    0x20 <= n < 0x7f && c != '\'' && c != '\\'
}

/// `t` says why `text` is no hexadecimal: an odd number of bytes, else the
/// first character that is no digit, and where it stands.
pub open spec fn says_why_not_hex(text: Seq<char>, t: Seq<char>) -> bool {
    if encode_utf8(text).len() % 2 != 0 {
        t == "Odd number of digits"@
    } else {
        forall|i: int| #[trigger]
            stops_being_hex(text, i) && shown_plainly(text[i]) ==> t == "Invalid character '"@
                + seq![text[i]] + "' at position "@ + dec(i as nat)
    }
}

/// `hex::decode`: succeeds on an even number of hexadecimal digits in either
/// case, with a byte for each pair. Its error names the reason; how it shows a
/// character that needs escaping is left to the name.
#[verifier::external_body]
fn hex_decode(text: &str) -> (r: std::result::Result<Vec<u8>, String>)
    ensures
        r is Ok <==> is_hex(text@),
        r matches Ok(b) ==> b@ == unhex(text@),
        r matches Err(t) ==> t@ == hex_error_text(text@),
        r matches Err(t) ==> says_why_not_hex(text@, t@),
{
    hex::decode(text).map_err(|e| e.to_string())
}

/// Bytes written in hexadecimal read back as themselves.
pub proof fn hex_round_trip(b: Seq<u8>)
    ensures
        hex_text(b).len() == 2 * b.len(),
        all_hex(hex_text(b)),
        unhex(hex_text(b)) == b,
{
    let t = hex_text(b);
    assert forall|i: int| 0 <= i < t.len() implies hex_value(#[trigger] t[i]) == Some(
        if i % 2 == 0 {
            b[i / 2] / 16
        } else {
            (b[i / 2] % 16) as u8
        },
    ) by {}
    assert forall|i: int| 0 <= i < b.len() implies unhex(t)[i] == b[i] by {
        assert(hex_value(t[2 * i]) == Some((b[i] / 16) as u8));
        assert(hex_value(t[2 * i + 1]) == Some((b[i] % 16) as u8));
    }
    assert(unhex(t) =~= b);
}

// ---------------------------------------------------------------------------
// Ed25519
// ---------------------------------------------------------------------------

/// The public key that `SigningKey::from_bytes(seed).verifying_key()` has.
pub uninterp spec fn ed25519_public(seed: Seq<u8>) -> Seq<u8>;

/// The signature that `SigningKey::from_bytes(seed).sign(message)` makes.
pub uninterp spec fn ed25519_signature(seed: Seq<u8>, message: Seq<u8>) -> Seq<u8>;

/// Whether `VerifyingKey::from_bytes` accepts the bytes.
pub uninterp spec fn is_curve_point(bytes: Seq<u8>) -> bool;

/// Whether `VerifyingKey::verify` accepts the signature over the message; false
/// of bytes that are no key.
pub uninterp spec fn ed25519_verifies(
    key: Seq<u8>,
    message: Seq<u8>,
    signature: Seq<u8>,
) -> bool;

/// `ed25519_dalek::SigningKey::verifying_key`: the public key of a seed, which
/// is always a point of the curve.
#[verifier::external_body]
fn ed25519_public_of(seed: &[u8; 32]) -> (key: [u8; 32])
    ensures
        key@ == ed25519_public(seed@),
        is_curve_point(key@),
{
    ed25519_dalek::SigningKey::from_bytes(seed).verifying_key().to_bytes()
}

/// `ed25519_dalek::SigningKey::sign`: the signature is a function of seed and
/// message, and verifies under the seed's public key.
#[verifier::external_body]
fn ed25519_sign(seed: &[u8; 32], message: &[u8]) -> (signature: [u8; 64])
    ensures
        signature@ == ed25519_signature(seed@, message@),
        ed25519_verifies(ed25519_public(seed@), message@, signature@),
{
    ed25519_dalek::SigningKey::from_bytes(seed).sign(message).to_bytes()
}

/// `ed25519_dalek::VerifyingKey::from_bytes`: accepts the points of the curve,
/// and has one error for everything else.
#[verifier::external_body]
fn ed25519_check_key(key: &[u8; 32]) -> (r: std::result::Result<(), String>)
    ensures
        r is Ok <==> is_curve_point(key@),
        r matches Err(t) ==> t@ == "signature error: Cannot decompress Edwards point"@,
{
    ed25519_dalek::VerifyingKey::from_bytes(key).map(|_k| ()).map_err(|e| e.to_string())
}

/// `ed25519_dalek::VerifyingKey::verify`.
#[verifier::external_body]
fn ed25519_verify(key: &[u8; 32], message: &[u8], signature: &[u8; 64]) -> (ok: bool)
    ensures
        ok == ed25519_verifies(key@, message@, signature@),
{
    match ed25519_dalek::VerifyingKey::from_bytes(key) {
        Ok(k) => k.verify(message, &ed25519_dalek::Signature::from_bytes(signature)).is_ok(),
        Err(_) => false,
    }
}

/// `ed25519_dalek::SigningKey::generate` on the operating system's generator:
/// 32 bytes of which nothing can be foretold.
#[verifier::external_body]
fn ed25519_generate() -> (seed: [u8; 32]) {
    ed25519_dalek::SigningKey::generate(&mut rand_core::OsRng).to_bytes()
}

/// A private Ed25519 seed.
pub struct SigningKey {
    seed: [u8; 32],
}

impl View for SigningKey {
    type V = Seq<u8>;

    /// The bytes of the seed.
    closed spec fn view(&self) -> Seq<u8> {
        self.seed@
    }
}

impl Clone for SigningKey {
    fn clone(&self) -> (r: Self)
        ensures
            r@ == self@,
    {
        SigningKey { seed: self.seed }
    }
}

/// The public key of a signing key.
pub open spec fn public_key(sk: SigningKey) -> Seq<u8> {
    ed25519_public(sk@)
}

impl SigningKey {
    /// The signing key with this seed.
    pub fn from_bytes(seed: &[u8; 32]) -> (sk: Self)
        ensures
            sk@ == seed@,
    {
        SigningKey { seed: *seed }
    }

    /// The seed.
    pub fn to_bytes(&self) -> (seed: [u8; 32])
        ensures
            seed@ == self@,
    {
        self.seed
    }

    /// Sign a message.
    pub fn sign(&self, message: &[u8]) -> (signature: [u8; 64])
        ensures
            signature@ == ed25519_signature(self@, message@),
            ed25519_verifies(public_key(*self), message@, signature@),
    {
        ed25519_sign(&self.seed, message)
    }
}

/// A public key that is known to be a point of the curve.
#[derive(Debug, Clone, Copy)]
pub struct VerifyingKey {
    bytes: [u8; 32],
}

impl View for VerifyingKey {
    type V = Seq<u8>;

    /// The bytes of the key.
    closed spec fn view(&self) -> Seq<u8> {
        self.bytes@
    }
}

impl VerifyingKey {
    /// The bytes of the key.
    pub fn to_bytes(&self) -> (bytes: [u8; 32])
        ensures
            bytes@ == self@,
    {
        self.bytes
    }

    /// Whether `signature` is this key's signature over `message`.
    pub fn verify(&self, message: &[u8], signature: &[u8; 64]) -> (ok: bool)
        ensures
            ok == ed25519_verifies(self@, message@, signature@),
    {
        ed25519_verify(&self.bytes, message, signature)
    }
}

// ---------------------------------------------------------------------------
// Public keys
// ---------------------------------------------------------------------------

/// An Ed25519 public key: the thing sqns resolves to an endpoint set.
#[derive(Debug, Clone, Copy, Eq, Hash)]
pub struct PubKey {
    bytes: [u8; 32],
}

impl View for PubKey {
    type V = Seq<u8>;

    /// The bytes of the key.
    closed spec fn view(&self) -> Seq<u8> {
        self.bytes@
    }
}

/// A public key is 32 bytes.
pub broadcast proof fn key_len(k: PubKey)
    ensures
        (#[trigger] k@).len() == 32,
{
}

/// Whether two runs of 32 bytes are the same.
fn same_bytes(a: &[u8; 32], b: &[u8; 32]) -> (r: bool)
    ensures
        r == (a@ == b@),
{
    let mut i: usize = 0;
    while i < 32
        invariant
            i <= 32,
            forall|j: int| 0 <= j < i ==> a@[j] == b@[j],
        decreases 32 - i,
    {
        if a[i] != b[i] {
            return false;
        }
        i += 1;
    }
    assert(a@ =~= b@);
    true
}

impl PartialEq for PubKey {
    fn eq(&self, other: &Self) -> (r: bool) {
        same_bytes(&self.bytes, &other.bytes)
    }
}

impl vstd::std_specs::cmp::PartialEqSpecImpl for PubKey {
    open spec fn obeys_eq_spec() -> bool {
        true
    }

    open spec fn eq_spec(&self, other: &Self) -> bool {
        self@ == other@
    }
}

/// `a` comes before `b` in the order of their bytes.
pub open spec fn bytes_before(a: Seq<u8>, b: Seq<u8>) -> bool
    decreases a.len(),
{
    if b.len() == 0 {
        false
    } else if a.len() == 0 {
        true
    } else if a[0] != b[0] {
        a[0] < b[0]
    } else {
        bytes_before(a.subrange(1, a.len() as int), b.subrange(1, b.len() as int))
    }
}

/// The error for bytes that are no point of the curve.
pub open spec fn not_a_point() -> ErrorModel {
    ErrorModel::Key(
        "not a valid Ed25519 public key: "@
            + "signature error: Cannot decompress Edwards point"@,
    )
}

/// A public key out of decoded bytes.
pub open spec fn key_from_slice(raw: Seq<u8>) -> std::result::Result<Seq<u8>, ErrorModel> {
    if raw.len() == 32 {
        Ok(raw)
    } else {
        Err(ErrorModel::Key("public key must be 32 bytes, got "@ + dec(raw.len())))
    }
}

/// A public key out of base58 text.
pub open spec fn key_from_base58(text: Seq<char>) -> std::result::Result<Seq<u8>, ErrorModel> {
    match unbase58(text) {
        Ok(raw) => key_from_slice(raw),
        Err(t) => Err(ErrorModel::Base58Decode(t)),
    }
}

/// A public key out of hexadecimal text.
pub open spec fn key_from_hex(text: Seq<char>) -> std::result::Result<Seq<u8>, ErrorModel> {
    if is_hex(text) {
        key_from_slice(unhex(text))
    } else {
        Err(ErrorModel::Key("bad hex: "@ + hex_error_text(text)))
    }
}

/// A public key out of text: 64 hexadecimal digits, or base58.
pub open spec fn parse_key(text: Seq<char>) -> std::result::Result<Seq<u8>, ErrorModel> {
    let t = trim(text);
    if t.len() == 64 && all_hex(t) {
        key_from_hex(t)
    } else {
        key_from_base58(t)
    }
}

fn all_hex_digits(v: &Vec<char>) -> (r: bool)
    ensures
        r == all_hex(v@),
{
    let mut i: usize = 0;
    while i < v.len()
        invariant
            i <= v@.len(),
            forall|j: int| 0 <= j < i ==> hex_value(#[trigger] v@[j]) is Some,
        decreases v@.len() - i,
    {
        if char_hex_value(v[i]).is_none() {
            return false;
        }
        i += 1;
    }
    true
}

/// 32 bytes out of a slice of that length.
fn array32(raw: &[u8]) -> (out: [u8; 32])
    requires
        raw@.len() == 32,
    ensures
        out@ == raw@,
{
    let mut out = [0u8;32];
    let mut i: usize = 0;
    while i < 32
        invariant
            i <= 32,
            raw@.len() == 32,
            forall|j: int| 0 <= j < i ==> out@[j] == raw@[j],
        decreases 32 - i,
    {
        out[i] = raw[i];
        i += 1;
    }
    assert(out@ =~= raw@);
    out
}

impl PubKey {
    pub fn new(bytes: [u8; 32]) -> (k: Self)
        ensures
            k@ == bytes@,
    {
        PubKey { bytes }
    }

    pub fn as_bytes(&self) -> (bytes: &[u8; 32])
        ensures
            bytes@ == self@,
    {
        &self.bytes
    }

    pub fn to_bytes(self) -> (bytes: [u8; 32])
        ensures
            bytes@ == self@,
    {
        self.bytes
    }

    /// Base58 form, as used in `sqc://host:port/<key>` strings. It reads back
    /// as the key.
    pub fn to_base58(&self) -> (text: String)
        ensures
            text@ == base58(self@),
            0 < text@.len() <= 48,
            forall|i: int| 0 <= i < text@.len() ==> is_base58_char(#[trigger] text@[i]),
            key_from_base58(text@) == Ok::<Seq<u8>, ErrorModel>(self@),
            parse_key(text@) == Ok::<Seq<u8>, ErrorModel>(self@),
    {
        let text = base58_encode(&self.bytes);
        proof {
            trim_of_tight(text@);
        }
        text
    }

    /// Hexadecimal form.
    pub fn to_hex(&self) -> (text: String)
        ensures
            text@ == hex_text(self@),
    {
        hex_encode(&self.bytes)
    }

    /// The text form: base58.
    pub fn to_string(&self) -> (text: String)
        ensures
            text@ == base58(self@),
            0 < text@.len() <= 48,
            forall|i: int| 0 <= i < text@.len() ==> is_base58_char(#[trigger] text@[i]),
            parse_key(text@) == Ok::<Seq<u8>, ErrorModel>(self@),
    {
        self.to_base58()
    }

    /// First 8 base58 characters: for logs, never for identity decisions.
    pub fn short(&self) -> (text: String)
        ensures
            text@ == short_key(self@),
    {
        let full = chars_of(self.to_base58().as_str());
        let n: usize = if full.len() < 8 {
            full.len()
        } else {
            8
        };
        crate::text::text_between(&full, 0, n)
    }

    /// This key as a point of the curve.
    pub fn verifying_key(&self) -> (r: Result<VerifyingKey>)
        ensures
            outcome(r) == curve_key(self@),
    {
        match ed25519_check_key(&self.bytes) {
            Ok(()) => Ok(VerifyingKey { bytes: self.bytes }),
            Err(t) => Err(Error::Key(join2("not a valid Ed25519 public key: ", t.as_str()))),
        }
    }

    pub fn from_base58(s: &str) -> (r: Result<Self>)
        ensures
            outcome(r) == key_from_base58(s@),
    {
        match base58_decode(s) {
            Ok(raw) => Self::from_slice(&raw),
            Err(t) => Err(Error::Base58Decode(t)),
        }
    }

    pub fn from_hex(s: &str) -> (r: Result<Self>)
        ensures
            outcome(r) == key_from_hex(s@),
            !is_hex(s@) ==> says_why_not_hex(s@, hex_error_text(s@)),
    {
        match hex_decode(s) {
            Ok(raw) => Self::from_slice(&raw),
            Err(t) => Err(Error::Key(join2("bad hex: ", t.as_str()))),
        }
    }

    fn from_slice(raw: &[u8]) -> (r: Result<Self>)
        ensures
            outcome(r) == key_from_slice(raw@),
    {
        if raw.len() != 32 {
            let mut m = String::from_str("public key must be 32 bytes, got ");
            push_dec(&mut m, raw.len() as u64);
            return Err(Error::Key(m));
        }
        Ok(PubKey { bytes: array32(raw) })
    }

    /// Accepts base58 (the canonical form) or 64 hex characters.
    pub fn from_str(s: &str) -> (r: Result<Self>)
        ensures
            outcome(r) == parse_key(s@),
    {
        let t = trimmed(s);
        let v = chars_of(t.as_str());
        if v.len() == 64 && all_hex_digits(&v) {
            Self::from_hex(t.as_str())
        } else {
            Self::from_base58(t.as_str())
        }
    }

    /// Whether this key comes before `other` in the order of their bytes.
    pub fn before(&self, other: &PubKey) -> (r: bool)
        ensures
            r == bytes_before(self@, other@),
    {
        let mut i: usize = 0;
        proof {
            assert(self@ =~= self@.subrange(0, 32));
            assert(other@ =~= other@.subrange(0, 32));
        }
        while i < 32
            invariant
                i <= 32,
                bytes_before(self@, other@) == bytes_before(
                    self@.subrange(i as int, 32),
                    other@.subrange(i as int, 32),
                ),
            decreases 32 - i,
        {
            if self.bytes[i] != other.bytes[i] {
                return self.bytes[i] < other.bytes[i];
            }
            proof {
                let a = self@.subrange(i as int, 32);
                let b = other@.subrange(i as int, 32);
                assert(a.subrange(1, a.len() as int) =~= self@.subrange(i + 1, 32));
                assert(b.subrange(1, b.len() as int) =~= other@.subrange(i + 1, 32));
            }
            i += 1;
        }
        false
    }
}

/// The first 8 characters of a key's base58 form.
pub open spec fn short_key(key: Seq<u8>) -> Seq<char> {
    let full = base58(key);
    full.subrange(0, if full.len() < 8 { full.len() as int } else { 8 })
}

/// A public key as a point of the curve.
pub open spec fn curve_key(key: Seq<u8>) -> std::result::Result<Seq<u8>, ErrorModel> {
    if is_curve_point(key) {
        Ok(key)
    } else {
        Err(not_a_point())
    }
}

impl From<VerifyingKey> for PubKey {
    fn from(vk: VerifyingKey) -> (k: Self) {
        PubKey { bytes: vk.bytes }
    }
}

impl vstd::std_specs::convert::FromSpecImpl<VerifyingKey> for PubKey {
    open spec fn obeys_from_spec() -> bool {
        true
    }

    closed spec fn from_spec(vk: VerifyingKey) -> Self {
        PubKey { bytes: vk.bytes }
    }
}

/// A key written in hexadecimal reads back as the key.
pub proof fn hex_key_reads_back(k: PubKey)
    ensures
        parse_key(hex_text(k@)) == Ok::<Seq<u8>, ErrorModel>(k@),
{
    let t = hex_text(k@);
    hex_round_trip(k@);
    assert(hex_value(t[0]) is Some && hex_value(t.last()) is Some);
    trim_of_tight(t);
}

/// Byte order is total and has no ties but equality, on keys.
pub proof fn key_order_is_total(a: Seq<u8>, b: Seq<u8>)
    requires
        a.len() == b.len(),
    ensures
        a != b ==> (bytes_before(a, b) <==> !bytes_before(b, a)),
        !bytes_before(a, a),
    decreases a.len(),
{
    if a.len() > 0 {
        let x = a.subrange(1, a.len() as int);
        let y = b.subrange(1, b.len() as int);
        key_order_is_total(x, y);
        if a[0] == b[0] && x == y {
            assert(a =~= seq![a[0]] + x);
            assert(b =~= seq![b[0]] + y);
        }
    } else {
        assert(a =~= b);
    }
}

/// Byte order is transitive.
pub proof fn key_order_is_transitive(a: Seq<u8>, b: Seq<u8>, c: Seq<u8>)
    requires
        bytes_before(a, b),
        bytes_before(b, c),
    ensures
        bytes_before(a, c),
    decreases a.len(),
{
    if a.len() > 0 && b.len() > 0 && c.len() > 0 && a[0] == b[0] && b[0] == c[0] {
        key_order_is_transitive(
            a.subrange(1, a.len() as int),
            b.subrange(1, b.len() as int),
            c.subrange(1, c.len() as int),
        );
    }
}

// ---------------------------------------------------------------------------
// Private keys
// ---------------------------------------------------------------------------

/// Generate a fresh identity from the operating system's generator. Nothing
/// is promised of which one.
pub fn generate() -> (sk: SigningKey) {
    SigningKey::from_bytes(&ed25519_generate())
}

/// Derive the public key of a signing key.
pub fn public_of(sk: &SigningKey) -> (k: PubKey)
    ensures
        k@ == public_key(*sk),
        is_curve_point(k@),
{
    PubKey { bytes: ed25519_public_of(&sk.seed) }
}

/// A signing key out of hexadecimal text.
pub open spec fn parse_secret(text: Seq<char>) -> std::result::Result<Seq<u8>, ErrorModel> {
    let t = trim(text);
    if !is_hex(t) {
        Err(ErrorModel::Key("private seed is not valid hex: "@ + hex_error_text(t)))
    } else if unhex(t).len() != 32 {
        Err(
            ErrorModel::Key(
                "private seed must be 32 bytes (64 hex chars), got "@ + dec(unhex(t).len()),
            ),
        )
    } else {
        Ok(unhex(t))
    }
}

/// Parse a 64-character hex Ed25519 seed.
pub fn secret_from_hex(seed_hex: &str) -> (r: Result<SigningKey>)
    ensures
        outcome(r) == parse_secret(seed_hex@),
        !is_hex(trim(seed_hex@)) ==> says_why_not_hex(
            trim(seed_hex@),
            hex_error_text(trim(seed_hex@)),
        ),
{
    let t = trimmed(seed_hex);
    match hex_decode(t.as_str()) {
        Err(e) => Err(Error::Key(join2("private seed is not valid hex: ", e.as_str()))),
        Ok(raw) => {
            if raw.len() != 32 {
                let mut m = String::from_str("private seed must be 32 bytes (64 hex chars), got ");
                push_dec(&mut m, raw.len() as u64);
                return Err(Error::Key(m));
            }
            Ok(SigningKey { seed: array32(&raw) })
        },
    }
}

/// The seed of a signing key in hexadecimal, as a transport wants it.
pub fn hex_seed(sk: &SigningKey) -> (text: String)
    ensures
        text@ == hex_text(sk@),
{
    hex_encode(&sk.seed)
}

/// What a private key file holds: the seed in hexadecimal and a line end.
pub open spec fn secret_file_content(seed: Seq<u8>) -> Seq<char> {
    hex_text(seed) + "\n"@
}

/// What a private key file holds.
pub fn secret_file_text(sk: &SigningKey) -> (text: String)
    ensures
        text@ == secret_file_content(sk@),
{
    join2(hex_seed(sk).as_str(), "\n")
}

/// A private key file gives back the key that was written to it.
pub proof fn secret_file_reads_back(sk: SigningKey)
    ensures
        parse_secret(secret_file_content(sk@)) == Ok::<Seq<u8>, ErrorModel>(sk@),
{
    let t = hex_text(sk@);
    let s = secret_file_content(sk@);
    hex_round_trip(sk@);
    reveal_strlit("\n");
    assert(hex_value(s[0]) == hex_value(t[0]));
    assert(hex_value(t[0]) is Some && hex_value(t.last()) is Some);
    assert(crate::text::trim_start(s) == s);
    assert(s.drop_last() =~= t);
    trim_of_tight(t);
}


/// Why a private key file is not read: it is open to others.
pub open spec fn exposed_key_file(path: Seq<char>, mode: u32) -> ErrorModel {
    ErrorModel::Key(
        path + " is group/world accessible (mode "@ + octal((mode % 0o1000) as nat)
            + "); run: chmod 600 "@ + path,
    )
}

/// The private key that a file with these permissions and this text holds.
pub open spec fn secret_in_file(path: Seq<char>, mode: u32, text: Seq<char>) -> std::result::Result<
    Seq<u8>,
    ErrorModel,
> {
    if mode % 0o100 != 0 {
        Err(exposed_key_file(path, mode))
    } else {
        parse_secret(text)
    }
}

/// Refuses group/world-accessible files: the seed is the identity. `mode` is
/// the file's permission bits.
pub fn check_private(path: &str, mode: u32) -> (r: Result<()>)
    ensures
        outcome(r) == (if mode % 0o100 != 0 {
            Err(exposed_key_file(path@, mode))
        } else {
            Ok(())
        }),
{
    if mode % 0o100 != 0 {
        let mut m = String::from_str(path);
        m.append(" is group/world accessible (mode ");
        push_octal(&mut m, (mode % 0o1000) as u64);
        m.append("); run: chmod 600 ");
        m.append(path);
        return Err(Error::Key(m));
    }
    Ok(())
}

/// The private key in a file, given its permission bits and its text.
pub fn load_secret(path: &str, mode: u32, text: &str) -> (r: Result<SigningKey>)
    ensures
        outcome(r) == secret_in_file(path@, mode, text@),
{
    check_private(path, mode)?;
    secret_from_hex(text)
}

// ---------------------------------------------------------------------------
// The sqns directory
// ---------------------------------------------------------------------------

/// Environment variable that relocates the sqns directory.
pub const HOME_ENV: &'static str = "SQNS_HOME";

/// `name` below the directory `base`: an absolute name stands by itself.
pub open spec fn joined_path(base: Seq<u8>, name: Seq<u8>) -> Seq<u8> {
    if base.len() == 0 || (name.len() > 0 && name[0] == 47) {
        name
    } else if base.last() == 47 {
        base + name
    } else {
        base + seq![47u8] + name
    }
}

/// `name` below the directory `base`.
pub fn join_path(base: &[u8], name: &[u8]) -> (out: Vec<u8>)
    ensures
        out@ == joined_path(base@, name@),
{
    if base.len() == 0 || (name.len() > 0 && name[0] == 47) {
        return vstd::slice::slice_to_vec(name);
    }
    let mut out = vstd::slice::slice_to_vec(base);
    if base[base.len() - 1] != 47 {
        crate::codec::put_u8(&mut out, 47);
    }
    crate::codec::put_bytes(&mut out, name);
    out
}

/// The bytes of an optional path.
pub open spec fn opt_bytes(o: Option<&[u8]>) -> Option<Seq<u8>> {
    match o {
        Some(b) => Some(b@),
        None => None,
    }
}

/// Where sqns keeps keys and configuration: the relocated directory unless it
/// is empty, else `.sqns` below the home directory.
pub open spec fn sqns_dir_of(
    relocated: Option<Seq<u8>>,
    home: Option<Seq<u8>>,
) -> std::result::Result<Seq<u8>, ErrorModel> {
    if relocated is Some && relocated->0.len() > 0 {
        Ok(relocated->0)
    } else if home is Some {
        Ok(joined_path(home->0, seq![46u8, 115u8, 113u8, 110u8, 115u8]))
    } else {
        Err(ErrorModel::Key("could not determine your home directory"@))
    }
}

/// Where sqns keeps keys and configuration, as path bytes: `relocated` is the
/// value of [`HOME_ENV`] if it is set, `home` the home directory if it is
/// known.
pub fn sqns_dir(relocated: Option<&[u8]>, home: Option<&[u8]>) -> (r: Result<Vec<u8>>)
    ensures
        outcome(r) == sqns_dir_of(opt_bytes(relocated), opt_bytes(home)),
{
    if let Some(dir) = relocated {
        if dir.len() > 0 {
            return Ok(vstd::slice::slice_to_vec(dir));
        }
    }
    match home {
        Some(home) => {
            // ".sqns"
            let name: [u8; 5] = [46, 115, 113, 110, 115];
            proof {
                assert(name@ =~= seq![46u8, 115u8, 113u8, 110u8, 115u8]);
            }
            Ok(join_path(home, &name))
        },
        None => Err(Error::Key(String::from_str("could not determine your home directory"))),
    }
}

/// A path inside the sqns directory, such as that of `identity.key`.
pub fn default_path(relocated: Option<&[u8]>, home: Option<&[u8]>, name: &str) -> (r: Result<
    Vec<u8>,
>)
    ensures
        outcome(r) == (match sqns_dir_of(opt_bytes(relocated), opt_bytes(home)) {
            Ok(dir) => Ok(joined_path(dir, name.spec_bytes())),
            Err(e) => Err(e),
        }),
{
    let dir = sqns_dir(relocated, home)?;
    Ok(join_path(&dir, name.as_bytes()))
}

} // verus!
