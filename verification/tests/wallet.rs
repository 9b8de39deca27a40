use powchain::utils::hex_text::HexError;
use powchain::wallet::{PrivKey, PubKey, PubKeyParseError, SigningContext, Wallet};
use secp256k1::ecdsa::{RecoverableSignature, RecoveryId};
use secp256k1::{Message, Secp256k1};
use sha2::{Digest, Sha256};

const COUNTING_KEY: &str = "000102030405060708090a0b0c0d0e0f101112131415161718191a1b1c1d1e1f202122232425262728292a2b2c2d2e2f303132333435363738393a3b3c3d3e3f40";

/// The generator of the curve, which is the public key of the private key 1.
const GENERATOR: &str = "0479be667ef9dcbbac55a06295ce870b07029bfcdb2dce28d959f2815b16f81798483ada7726a3c4655da4fbfc0e1108a8fd17b448a68554199c47d08ffb10d4b8";

fn key_one() -> PrivKey {
    let mut bytes = [0u8; 32];
    bytes[31] = 1;
    PrivKey(bytes)
}

#[test]
fn test_convert_pub_key_to_string() {
    let pub_key_bytes: [u8; 65] = std::array::from_fn(|i| i as u8);
    let pub_key = PubKey(pub_key_bytes);

    let pub_key_string: String = pub_key.into();

    assert_eq!(pub_key_string, "000102030405060708090a0b0c0d0e0f101112131415161718191a1b1c1d1e1f202122232425262728292a2b2c2d2e2f303132333435363738393a3b3c3d3e3f40");
}

#[test]
fn test_convert_string_to_pub_key() {
    let input_string: String = "000102030405060708090a0b0c0d0e0f101112131415161718191a1b1c1d1e1f202122232425262728292a2b2c2d2e2f303132333435363738393a3b3c3d3e3f40".into();

    let pub_key: PubKey = input_string.parse().unwrap();

    let pub_key_string: String = pub_key.into();

    assert_eq!(pub_key_string, input_string);
}

#[test]
fn keys_are_written_in_lower_case_hex() {
    let mut bytes = [0u8; 65];
    bytes[0] = 0xab;
    bytes[1] = 0x0f;
    bytes[64] = 0xf0;
    let text = PubKey(bytes).hex_encode();
    assert_eq!(text.len(), 130);
    assert!(text.starts_with("ab0f00"));
    assert!(text.ends_with("00f0"));
    let private: String = PrivKey([0xc3; 32]).into();
    assert_eq!(private, "c3".repeat(32));
    assert_eq!(PrivKey([0x1a; 32]).hex_encode(), "1a".repeat(32));
}

#[test]
fn public_key_is_read_in_either_case() {
    let upper = COUNTING_KEY.to_uppercase();
    let key = PubKey::from_hex(upper.as_bytes()).unwrap();
    assert_eq!(key.hex_encode(), COUNTING_KEY);
    let key = PubKey::from_hex(GENERATOR.as_bytes()).unwrap();
    assert_eq!(key.0[0], 4);
    assert_eq!(key.0[1], 0x79);
    assert_eq!(key.0[64], 0xb8);
}

#[test]
fn public_key_of_wrong_length_is_refused() {
    assert_eq!(PubKey::from_hex(b"").unwrap_err(), PubKeyParseError::InvalidLength(0));
    assert_eq!(PubKey::from_hex(b"00ff").unwrap_err(), PubKeyParseError::InvalidLength(2));
    let short = &COUNTING_KEY[..128];
    assert_eq!(short.parse::<PubKey>().unwrap_err(), PubKeyParseError::InvalidLength(64));
    let long = format!("{COUNTING_KEY}00");
    assert_eq!(long.parse::<PubKey>().unwrap_err(), PubKeyParseError::InvalidLength(66));
}

#[test]
fn public_key_that_is_not_hex_is_refused() {
    assert_eq!(
        PubKey::from_hex(b"abc").unwrap_err(),
        PubKeyParseError::Hex(HexError::OddLength)
    );
    assert_eq!(
        PubKey::from_hex(b"00g0").unwrap_err(),
        PubKeyParseError::Hex(HexError::InvalidHexCharacter { c: 'g', index: 2 })
    );
    // The odd length is found before the bad digit.
    assert_eq!(
        "zz0".parse::<PubKey>().unwrap_err(),
        PubKeyParseError::Hex(HexError::OddLength)
    );
    let mut bad = COUNTING_KEY.to_string();
    bad.replace_range(129..130, "-");
    assert_eq!(
        bad.parse::<PubKey>().unwrap_err(),
        PubKeyParseError::Hex(HexError::InvalidHexCharacter { c: '-', index: 129 })
    );
}

#[test]
fn wallet_of_private_key_one_holds_the_generator() {
    let secp = SigningContext::new();
    let wallet = Wallet::from_priv_key(&secp, key_one());
    assert_eq!(wallet.pub_key.hex_encode(), GENERATOR);
    assert_eq!(wallet.priv_key.0, key_one().0);
    let same = Wallet::try_from_priv_key(&secp, key_one()).unwrap();
    assert_eq!(same.pub_key.0, wallet.pub_key.0);
}

#[test]
fn bytes_that_are_no_private_key_give_no_wallet() {
    let secp = SigningContext::new();
    assert!(Wallet::try_from_priv_key(&secp, PrivKey([0u8; 32])).is_none());
    assert!(Wallet::try_from_priv_key(&secp, PrivKey([0xffu8; 32])).is_none());
    let broken = Wallet { pub_key: PubKey([0u8; 65]), priv_key: PrivKey([0u8; 32]) };
    assert!(broken.try_sign(&secp, b"message").is_none());
}

#[test]
fn generated_wallet_holds_a_matching_pair() {
    let secp = SigningContext::new();
    let wallet = Wallet::generate(&secp);
    let again = Wallet::from_priv_key(&secp, wallet.priv_key);
    assert_eq!(again.pub_key.0, wallet.pub_key.0);
    assert_eq!(wallet.pub_key.0[0], 4);
    let other = Wallet::generate(&secp);
    assert_ne!(other.priv_key.0, wallet.priv_key.0);
}

#[test]
fn signature_recovers_the_signer() {
    let secp = SigningContext::new();
    let wallet = Wallet::from_priv_key(&secp, key_one());
    let message = b"a block worth signing";
    let signature = wallet.sign(&secp, message);
    assert!(signature.recid < 4);

    let digest: [u8; 32] = Sha256::digest(message).into();
    let recoverable = RecoverableSignature::from_compact(
        &signature.data,
        RecoveryId::try_from(signature.recid as i32).unwrap(),
    )
    .unwrap();
    let recovered = Secp256k1::new()
        .recover_ecdsa(Message::from_digest(digest), &recoverable)
        .unwrap();
    assert_eq!(recovered.serialize_uncompressed(), wallet.pub_key.0);
}

#[test]
fn signing_is_a_function_of_key_and_message() {
    let secp = SigningContext::new();
    let wallet = Wallet::from_priv_key(&secp, PrivKey([0x11u8; 32]));
    let first = wallet.sign(&secp, b"one");
    let second = wallet.sign(&SigningContext::new(), b"one");
    assert_eq!(first.data, second.data);
    assert_eq!(first.recid, second.recid);
    let other = wallet.sign(&secp, b"two");
    assert_ne!(first.data, other.data);
    let tried = wallet.try_sign(&secp, b"one").unwrap();
    assert_eq!(tried.data, first.data);
    assert_eq!(tried.recid, first.recid);
}
