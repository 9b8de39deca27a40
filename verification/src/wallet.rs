//! Keys, wallets and signatures over secp256k1.
//!
//! Keys and signatures are held as plain bytes. What only the curve
//! arithmetic of the `secp256k1` crate can say, which public key belongs to a
//! private key and what the signature of a digest is, is named here and
//! computed there. Every operation takes the signing context from its caller.

use crate::utils::hex_text::{hex_bytes, hex_decode, hex_encode, hex_text, hex_value, HexError};
use secp256k1::ecdsa::RecoveryId;
use secp256k1::hashes::sha256;
use secp256k1::{All, Message, PublicKey, Secp256k1, SecretKey};
use vstd::prelude::*;
use vstd::string::StringSliceAdditionalSpecFns;

verus! {

/// The signing context of the `secp256k1` crate, `Secp256k1<All>`. It holds
/// tables for the curve arithmetic and no key; the results of the operations
/// below do not depend on it.
#[verifier::external_body]
pub struct SigningContext {
    inner: Secp256k1<All>,
}

/// Makes a context with `Secp256k1::new`. Nothing is promised of it.
#[verifier::external_body]
fn new_context() -> SigningContext {
    SigningContext { inner: Secp256k1::new() }
}

impl SigningContext {
    /// A context for the wallet operations. One context serves any number of
    /// them.
    pub fn new() -> SigningContext {
        new_context()
    }
}

/// The uncompressed public key, 65 bytes, that belongs to the private key
/// `secret`; `None` where `secret` is no private key (zero, or not below the
/// order of the curve).
pub uninterp spec fn public_key_of(secret: Seq<u8>) -> Option<Seq<u8>>;

/// The recoverable ECDSA signature of `digest` under the private key
/// `secret`, with the nonce of RFC 6979: the 64 bytes of the compact form
/// and the recovery number.
pub uninterp spec fn recoverable_signature(secret: Seq<u8>, digest: Seq<u8>) -> (Seq<u8>, u8);

/// The digest of a message that is signed: its SHA-256 digest as the
/// `hashes` library of the `secp256k1` crate computes it.
pub uninterp spec fn message_digest(message: Seq<u8>) -> Seq<u8>;

/// Hashes a message with `sha256::Hash::hash` of `secp256k1::hashes` and
/// returns the digest's 32 bytes (`to_byte_array`). The contract only gives
/// the digest its name.
#[verifier::external_body]
fn hash_message(message: &[u8]) -> (digest: [u8; 32])
    ensures
        digest@ == message_digest(message@),
{
    let digest = <sha256::Hash as secp256k1::hashes::Hash>::hash(message);
    <sha256::Hash as secp256k1::hashes::Hash>::to_byte_array(digest)
}

/// Computes the public key of a private key: `SecretKey::from_byte_array`
/// tells whether the bytes are a private key, `PublicKey::from_secret_key`
/// multiplies, and `serialize_uncompressed` writes the point out. The result
/// depends on the bytes alone.
#[verifier::external_body]
fn derive_public_key(secp: &SigningContext, secret: &[u8; 32]) -> (public: Option<[u8; 65]>)
    ensures
        match public {
            Some(bytes) => public_key_of(secret@) == Some(bytes@),
            None => public_key_of(secret@) is None,
        },
{
    match SecretKey::from_byte_array(*secret) {
        Ok(key) => Some(PublicKey::from_secret_key(&secp.inner, &key).serialize_uncompressed()),
        Err(_) => None,
    }
}

/// Draws a key pair with `Secp256k1::generate_keypair` from the thread's
/// random generator and returns both keys as bytes. The private key is
/// random; what holds of every draw is that the public key is the one that
/// belongs to it.
#[verifier::external_body]
fn generate_keys(secp: &SigningContext) -> (keys: ([u8; 32], [u8; 65]))
    ensures
        public_key_of(keys.0@) == Some(keys.1@),
{
    let (secret_key, public_key) = secp.inner.generate_keypair(&mut rand::rng());
    (secret_key.secret_bytes(), public_key.serialize_uncompressed())
}

/// Signs a 32-byte digest with `Secp256k1::sign_ecdsa_recoverable` and
/// writes the signature out with `serialize_compact`. The nonce is that of
/// RFC 6979, so the result depends on the key and the digest alone. There is
/// a signature exactly when `secret` is a private key. The recovery number
/// is the place of the recovery id among its four variants.
#[verifier::external_body]
fn sign_digest(secp: &SigningContext, secret: &[u8; 32], digest: &[u8; 32]) -> (signed: Option<
    ([u8; 64], u8),
>)
    ensures
        signed is Some <==> public_key_of(secret@) is Some,
        signed matches Some(pair) ==> (pair.0@, pair.1) == recoverable_signature(
            secret@,
            digest@,
        ) && pair.1 < 4,
{
    let key = SecretKey::from_byte_array(*secret).ok()?;
    let signature = secp.inner.sign_ecdsa_recoverable(Message::from_digest(*digest), &key);
    let (recovery_id, data) = signature.serialize_compact();
    let number = match recovery_id {
        RecoveryId::Zero => 0,
        RecoveryId::One => 1,
        RecoveryId::Two => 2,
        RecoveryId::Three => 3,
    };
    Some((data, number))
}

/// A public key in uncompressed form: the tag byte and the two coordinates.
#[derive(Debug, Clone, Copy)]
pub struct PubKey(pub [u8; 65]);

/// A private key: a 32-byte scalar.
#[derive(Debug, Clone, Copy)]
pub struct PrivKey(pub [u8; 32]);

impl View for PubKey {
    type V = Seq<u8>;

    open spec fn view(&self) -> Seq<u8> {
        self.0@
    }
}

impl View for PrivKey {
    type V = Seq<u8>;

    open spec fn view(&self) -> Seq<u8> {
        self.0@
    }
}

/// Why text is not a public key.
#[derive(Debug, Clone, Copy, PartialEq, Eq, Structural)]
pub enum PubKeyParseError {
    /// The text is not hexadecimal.
    Hex(HexError),
    /// The text stands for this many bytes, not 65.
    InvalidLength(usize),
}

/// `result` is what reading a public key from the hexadecimal `text` gives:
/// the key, if the text is hexadecimal and stands for 65 bytes; else the
/// number of bytes it stands for, if it is hexadecimal; else what keeps it
/// from being hexadecimal, an odd length before the first byte that is no
/// digit.
pub open spec fn is_parse_of(text: Seq<u8>, result: Result<PubKey, PubKeyParseError>) -> bool {
    match result {
        Ok(key) => {
            &&& text.len() == 130
            &&& forall|j: int| 0 <= j < text.len() ==> hex_value(#[trigger] text[j]) is Some
            &&& key@ == hex_bytes(text)
        },
        Err(PubKeyParseError::InvalidLength(length)) => {
            &&& text.len() % 2 == 0
            &&& forall|j: int| 0 <= j < text.len() ==> hex_value(#[trigger] text[j]) is Some
            &&& length == text.len() / 2
            &&& length != 65
        },
        Err(PubKeyParseError::Hex(HexError::OddLength)) => text.len() % 2 == 1,
        Err(PubKeyParseError::Hex(HexError::InvalidHexCharacter { c, index })) => {
            &&& text.len() % 2 == 0
            &&& index < text.len()
            &&& hex_value(text[index as int]) is None
            &&& c == text[index as int] as char
            &&& forall|j: int| 0 <= j < index ==> hex_value(#[trigger] text[j]) is Some
        },
        Err(PubKeyParseError::Hex(HexError::InvalidStringLength)) => false,
    }
}

impl PubKey {
    /// The key as hexadecimal text.
    pub fn hex_encode(&self) -> (text: String)
        ensures
            text@ == hex_text(self@),
    {
        hex_encode(self.0.as_slice())
    }

    /// Reads a key from hexadecimal text, given as its bytes. The text must
    /// be hexadecimal and stand for 65 bytes.
    pub fn from_hex(text: &[u8]) -> (result: Result<PubKey, PubKeyParseError>)
        ensures
            is_parse_of(text@, result),
    {
        let decoded = match hex_decode(text) {
            Ok(decoded) => decoded,
            Err(error) => {
                return Err(PubKeyParseError::Hex(error));
            },
        };
        if decoded.len() != 65 {
            return Err(PubKeyParseError::InvalidLength(decoded.len()));
        }
        let mut bytes = [0u8; 65];
        let mut i: usize = 0;
        while i < 65
            invariant
                i <= 65,
                decoded@.len() == 65,
                forall|k: int| 0 <= k < i ==> bytes@[k] == decoded@[k],
            decreases 65 - i,
        {
            bytes[i] = decoded[i];
            i = i + 1;
        }
        assert(bytes@ =~= decoded@);
        Ok(PubKey(bytes))
    }
}

impl From<PubKey> for String {
    /// The key as hexadecimal text.
    fn from(value: PubKey) -> (text: String)
        ensures
            text@ == hex_text(value@),
    {
        value.hex_encode()
    }
}

impl vstd::std_specs::convert::FromSpecImpl<PubKey> for String {
    open spec fn obeys_from_spec() -> bool {
        false
    }

    open spec fn from_spec(value: PubKey) -> String {
        arbitrary()
    }
}

impl From<PrivKey> for String {
    /// The key as hexadecimal text.
    fn from(value: PrivKey) -> (text: String)
        ensures
            text@ == hex_text(value@),
    {
        value.hex_encode()
    }
}

impl vstd::std_specs::convert::FromSpecImpl<PrivKey> for String {
    open spec fn obeys_from_spec() -> bool {
        false
    }

    open spec fn from_spec(value: PrivKey) -> String {
        arbitrary()
    }
}

impl core::str::FromStr for PubKey {
    type Err = PubKeyParseError;

    /// Reads a key from hexadecimal text, as `PubKey::from_hex` does from
    /// the bytes of the text.
    fn from_str(s: &str) -> (result: Result<Self, Self::Err>)
        ensures
            is_parse_of(s.spec_bytes(), result),
    {
        PubKey::from_hex(s.as_bytes())
    }
}

impl PrivKey {
    /// The key as hexadecimal text.
    pub fn hex_encode(&self) -> (text: String)
        ensures
            text@ == hex_text(self@),
    {
        hex_encode(self.0.as_slice())
    }
}

/// A key pair.
#[derive(Debug)]
pub struct Wallet {
    pub pub_key: PubKey,
    pub priv_key: PrivKey,
}

/// A recoverable signature: the 64 bytes of the compact form and the
/// recovery number.
#[derive(Debug, Clone, Copy)]
pub struct Signature {
    pub data: [u8; 64],
    pub recid: u8,
}

impl Wallet {
    /// The public key is the one that belongs to the private key.
    pub open spec fn wf(self) -> bool {
        public_key_of(self.priv_key@) == Some(self.pub_key@)
    }

    /// A wallet with a private key drawn at random.
    pub fn generate(secp: &SigningContext) -> (wallet: Self)
        ensures
            wallet.wf(),
    {
        let (secret, public) = generate_keys(secp);
        Self { pub_key: PubKey(public), priv_key: PrivKey(secret) }
    }

    /// The wallet of a private key.
    pub fn from_priv_key(secp: &SigningContext, priv_key: PrivKey) -> (wallet: Self)
        requires
            public_key_of(priv_key@) is Some,
        ensures
            wallet.wf(),
            wallet.priv_key == priv_key,
    {
        let public = derive_public_key(secp, &priv_key.0).unwrap();
        Self { pub_key: PubKey(public), priv_key }
    }

    /// The wallet of `priv_key`, if its bytes are a private key.
    pub fn try_from_priv_key(secp: &SigningContext, priv_key: PrivKey) -> (wallet: Option<Self>)
        ensures
            match wallet {
                Some(wallet) => wallet.wf() && wallet.priv_key == priv_key,
                None => public_key_of(priv_key@) is None,
            },
    {
        match derive_public_key(secp, &priv_key.0) {
            Some(_) => Some(Wallet::from_priv_key(secp, priv_key)),
            None => None,
        }
    }

    /// Signs the SHA-256 digest of `message` with the wallet's private key.
    pub fn sign(&self, secp: &SigningContext, message: &[u8]) -> (signature: Signature)
        requires
            public_key_of(self.priv_key@) is Some,
        ensures
            (signature.data@, signature.recid) == recoverable_signature(
                self.priv_key@,
                message_digest(message@),
            ),
            signature.recid < 4,
    {
        let digest = hash_message(message);
        let (data, recid) = sign_digest(secp, &self.priv_key.0, &digest).unwrap();
        Signature { data, recid }
    }

    /// Signs the SHA-256 digest of `message`, if the wallet's private key is
    /// one.
    pub fn try_sign(&self, secp: &SigningContext, message: &[u8]) -> (signature: Option<Signature>)
        ensures
            match signature {
                Some(signature) => public_key_of(self.priv_key@) is Some && (
                    signature.data@,
                    signature.recid,
                ) == recoverable_signature(self.priv_key@, message_digest(message@))
                    && signature.recid < 4,
                None => public_key_of(self.priv_key@) is None,
            },
    {
        match derive_public_key(secp, &self.priv_key.0) {
            Some(_) => Some(self.sign(secp, message)),
            None => None,
        }
    }
}

} // verus!
