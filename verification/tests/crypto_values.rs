use ed25519_dalek::SigningKey;
use rand::rngs::OsRng;
use river_core::codec::CryptoValue;

#[test]
fn test_signing_key_roundtrip() {
    let sk = SigningKey::generate(&mut OsRng);
    let cv = CryptoValue::SigningKey(sk.to_bytes().to_vec());
    let encoded = cv.to_encoded_string();

    // The encoded string should have the format "river:v1:sk:<base58>"
    assert!(encoded.starts_with("river:v1:sk:"));

    // Parse the full encoded string
    let decoded: CryptoValue = encoded.parse().unwrap();

    match decoded {
        CryptoValue::SigningKey(decoded_sk) => {
            assert_eq!(sk.to_bytes().to_vec(), decoded_sk);
        }
        _ => panic!("Wrong variant"),
    }
}

#[test]
fn test_verifying_key_roundtrip() {
    let sk = SigningKey::generate(&mut OsRng);
    let vk = sk.verifying_key();
    let cv = CryptoValue::VerifyingKey(vk.to_bytes().to_vec());
    let encoded = cv.to_encoded_string();

    // The encoded string should have the format "river:v1:vk:<base58>"
    assert!(encoded.starts_with("river:v1:vk:"));

    // Parse the full encoded string
    let decoded: CryptoValue = encoded.parse().unwrap();

    match decoded {
        CryptoValue::VerifyingKey(decoded_vk) => {
            assert_eq!(vk.to_bytes().to_vec(), decoded_vk);
        }
        _ => panic!("Wrong variant"),
    }
}

#[test]
fn test_parse_raw_base58() {
    let sk = SigningKey::generate(&mut OsRng);
    let base58 = bs58::encode(sk.to_bytes()).into_string();
    let decoded: CryptoValue = base58.parse().unwrap();

    match decoded {
        CryptoValue::SigningKey(decoded_sk) => {
            assert_eq!(sk.to_bytes().to_vec(), decoded_sk);
        }
        _ => panic!("Wrong variant"),
    }
}

#[test]
fn test_invalid_format() {
    assert!("not:valid:format".parse::<CryptoValue>().is_err());
    assert!("invalid base58 !!!".parse::<CryptoValue>().is_err());
}

#[test]
fn test_signature_roundtrip() {
    let cv = CryptoValue::Signature(vec![7u8; 64]);
    let encoded = cv.to_encoded_string();
    assert!(encoded.starts_with("river:v1:sig:"));
    let decoded: CryptoValue = encoded.parse().unwrap();
    assert_eq!(decoded, CryptoValue::Signature(vec![7u8; 64]));
}

#[test]
fn test_encoded_payload_is_base58_of_bytes() {
    // the payload after the prefix must be real base58 of the key bytes,
    // not the bytes handed back unchanged
    let sk = SigningKey::generate(&mut OsRng);
    let cv = CryptoValue::SigningKey(sk.to_bytes().to_vec());
    let encoded = cv.to_encoded_string();
    let payload = &encoded["river:v1:sk:".len()..];
    assert_eq!(payload, bs58::encode(sk.to_bytes()).into_string());
}

#[test]
fn test_wrong_payload_length_rejected() {
    // 16 bytes cannot be a signing key
    let short = bs58::encode([3u8; 16]).into_string();
    let encoded = format!("river:v1:sk:{}", short);
    assert!(CryptoValue::from_encoded_string(&encoded).is_err());
}
