use sendable_signer::Keypair;
use sendable_signer::PipelineError;
use solana_sdk::signature::Signature;
use solana_sdk::signer::Signer;

fn fresh() -> (solana_sdk::signature::Keypair, Keypair) {
    let kp = solana_sdk::signature::Keypair::new();
    let k = Keypair::from_bytes(kp.to_bytes());
    (kp, k)
}

#[test]
fn bytes_round_trip() {
    let mut raw = [0u8; 64];
    for (i, b) in raw.iter_mut().enumerate() {
        *b = i as u8;
    }
    let k = Keypair::from_bytes(raw);
    assert_eq!(k.to_bytes(), raw);
}

#[test]
fn text_round_trip() {
    let (kp, k) = fresh();
    let text = k.to_base58_string().unwrap();
    assert_eq!(text, kp.to_base58_string());
    let back = Keypair::from_base58_string(&text).unwrap();
    assert!(back == k);
    assert_eq!(back.to_bytes(), kp.to_bytes());
}

#[test]
fn text_not_base58_is_decode_error() {
    assert_eq!(Keypair::from_base58_string("0OIl+/not base58").err(), Some(PipelineError::DecodeError));
}

#[test]
fn text_of_wrong_length_is_decode_error() {
    // "2" decodes to the single byte 1.
    assert_eq!(Keypair::from_base58_string("2").err(), Some(PipelineError::DecodeError));
    assert_eq!(Keypair::from_base58_string("").err(), Some(PipelineError::DecodeError));
}

#[test]
fn text_of_any_64_bytes_decodes_without_checking_the_pair() {
    let raw = [7u8; 64];
    let text = solana_sdk::bs58::encode(raw).into_string();
    let k = Keypair::from_base58_string(&text).unwrap();
    assert_eq!(k.to_bytes(), raw);
    assert_eq!(k.try_pubkey().err(), Some(PipelineError::KeyMaterialInvalid));
}

#[test]
fn public_identity_matches_scheme() {
    let (kp, k) = fresh();
    assert_eq!(k.try_pubkey().unwrap(), kp.pubkey().to_bytes());
    assert_eq!(&k.try_pubkey().unwrap()[..], &kp.to_bytes()[32..]);
}

#[test]
fn invalid_material_is_reported() {
    let k = Keypair::from_bytes([1u8; 64]);
    assert_eq!(k.try_pubkey().err(), Some(PipelineError::KeyMaterialInvalid));
    assert_eq!(k.to_base58_string().err(), Some(PipelineError::KeyMaterialInvalid));
    assert_eq!(k.try_sign_message(b"hello").err(), Some(PipelineError::KeyMaterialInvalid));
}

#[test]
fn signature_matches_scheme_and_verifies() {
    let (kp, k) = fresh();
    let sig = k.try_sign_message(b"hello").unwrap();
    assert_eq!(Signature::from(sig), kp.sign_message(b"hello"));
    assert!(Signature::from(sig).verify(&k.try_pubkey().unwrap(), b"hello"));
    assert!(!Signature::from(sig).verify(&k.try_pubkey().unwrap(), b"hellO"));
}

#[test]
fn signing_many_times_through_shared_references() {
    let (_kp, k) = fresh();
    let pk = k.try_pubkey().unwrap();
    let expected = k.try_sign_message(b"shared message").unwrap();
    let shared = &k;
    let workers: Vec<Box<dyn Fn() -> [u8; 64] + '_>> =
        (0..8).map(|_| Box::new(move || shared.try_sign_message(b"shared message").unwrap()) as Box<dyn Fn() -> [u8; 64]>).collect();
    let sigs: Vec<[u8; 64]> = workers.iter().map(|w| w()).collect();
    for sig in sigs {
        assert_eq!(sig, expected);
        assert!(Signature::from(sig).verify(&pk, b"shared message"));
    }
    assert_eq!(k.try_pubkey().unwrap(), pk);
}

#[test]
fn never_interactive() {
    let (_kp, k) = fresh();
    assert!(!k.is_interactive());
    assert!(!Keypair::from_bytes([0u8; 64]).is_interactive());
}

#[test]
fn text_with_non_ascii_or_excluded_letters_is_decode_error() {
    assert_eq!(Keypair::from_base58_string("I").err(), Some(PipelineError::DecodeError));
    assert_eq!(Keypair::from_base58_string("abcé").err(), Some(PipelineError::DecodeError));
}
