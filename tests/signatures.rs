use ntrumls::params::{
    xxx_20140508_401, xxx_20140508_439, xxx_20140508_593, xxx_20140508_743, xxx_20151024_401,
    xxx_20151024_443, xxx_20151024_563, xxx_20151024_743, xxx_20151024_907, ParamSet,
};
use ntrumls::{generate_keys, sign, verify, PrivateKey, PublicKey};
use rand::Rng;

const KEYS: u16 = 100;
const MESSAGES: u16 = 100;

fn test_set(params: ParamSet) {
    let mut rng = rand::thread_rng();
    let mut seed = [0u8; 32];
    rng.fill(&mut seed[..]);
    let (private_key, public_key) = generate_keys(&params, &seed).unwrap();
    for _ in 0..KEYS {
        rng.fill(&mut seed[..]);
        let (_, _) = generate_keys(&params, &seed).unwrap();
    }

    let mut message = [0u8; 256];
    for _ in 0..MESSAGES {
        for i in 0..message.len() {
            message[i] = rng.gen();
        }

        let signature = sign(&private_key, &public_key, &message).unwrap();
        assert!(verify(&signature, &public_key, &message));
    }
}

#[test]
fn test_set_xxx_20140508_401() {
    test_set(xxx_20140508_401());
}

#[test]
fn test_set_xxx_20140508_439() {
    test_set(xxx_20140508_439());
}

#[test]
fn test_set_xxx_20140508_593() {
    test_set(xxx_20140508_593());
}

#[test]
fn test_set_xxx_20140508_743() {
    test_set(xxx_20140508_743());
}

#[test]
fn test_set_xxx_20151024_401() {
    test_set(xxx_20151024_401());
}

#[test]
fn test_set_xxx_20151024_443() {
    test_set(xxx_20151024_443());
}

#[test]
fn test_set_xxx_20151024_563() {
    test_set(xxx_20151024_563());
}

#[test]
fn test_set_xxx_20151024_743() {
    test_set(xxx_20151024_743());
}

#[test]
fn test_set_xxx_20151024_907() {
    test_set(xxx_20151024_907());
}

fn fixed_pair(params: &ParamSet) -> (PrivateKey, PublicKey) {
    generate_keys(params, b"fixed entropy for a reproducible key pair").unwrap()
}

#[test]
fn same_seed_gives_same_keys() {
    let params = xxx_20151024_401();
    let (sk1, pk1) = fixed_pair(&params);
    let (sk2, pk2) = fixed_pair(&params);
    assert_eq!(sk1, sk2);
    assert_eq!(pk1, pk2);
    let (sk3, _) = generate_keys(&params, b"other entropy").unwrap();
    assert_ne!(sk1, sk3);
}

#[test]
fn blob_sizes_follow_the_parameter_set() {
    let params = xxx_20140508_401();
    let (sk, pk) = fixed_pair(&params);
    assert_eq!(sk.get_bytes().len(), 262);
    assert_eq!(pk.get_bytes().len(), 972);
    let sig = sign(&sk, &pk, b"sizes").unwrap();
    assert_eq!(sig.len(), 908);
    assert_eq!(sk.get_bytes()[0], 1);
    assert_eq!(pk.get_bytes()[0], 2);
    assert_eq!(sig[0], 3);
    assert_eq!(&sig[1..5], &[3, 0xff, 0xff, 0xff]);
}

#[test]
fn import_and_get_bytes_round_trip() {
    let params = xxx_20151024_401();
    let (sk, pk) = fixed_pair(&params);
    let sk2 = PrivateKey::import(sk.get_bytes());
    let pk2 = PublicKey::import(pk.get_bytes());
    assert_eq!(sk, sk2);
    assert_eq!(pk, pk2);
    let sig = sign(&sk2, &pk2, b"imported").unwrap();
    assert!(verify(&sig, &pk, b"imported"));
}

#[test]
fn signing_is_deterministic_and_verification_repeatable() {
    let params = xxx_20151024_401();
    let (sk, pk) = fixed_pair(&params);
    let a = sign(&sk, &pk, b"message").unwrap();
    let b = sign(&sk, &pk, b"message").unwrap();
    assert_eq!(a, b);
    assert!(verify(&a, &pk, b"message"));
    assert!(verify(&a, &pk, b"message"));
}

#[test]
fn empty_message_signs_and_verifies() {
    let params = xxx_20151024_401();
    let (sk, pk) = fixed_pair(&params);
    let sig = sign(&sk, &pk, b"").unwrap();
    assert!(verify(&sig, &pk, b""));
    assert!(!verify(&sig, &pk, b"x"));
}

#[test]
fn tampered_message_is_rejected() {
    let params = xxx_20151024_401();
    let (sk, pk) = fixed_pair(&params);
    let message = b"Hello from NTRUMLS!".to_vec();
    let sig = sign(&sk, &pk, &message).unwrap();
    for bit in [0usize, 7, 40, 151] {
        let mut m = message.clone();
        m[bit / 8] ^= 1 << (bit % 8);
        assert!(!verify(&sig, &pk, &m));
    }
}

#[test]
fn tampered_signature_is_rejected() {
    let params = xxx_20151024_401();
    let (sk, pk) = fixed_pair(&params);
    let sig = sign(&sk, &pk, b"tamper").unwrap();
    for pos in [0usize, 1, 2, 4, 5, 100, sig.len() - 1] {
        let mut s = sig.clone();
        s[pos] ^= 0x01;
        assert!(!verify(&s, &pk, b"tamper"));
    }
    assert!(!verify(&sig[..sig.len() - 1], &pk, b"tamper"));
    assert!(!verify(&[], &pk, b"tamper"));
}

#[test]
fn tampered_public_key_is_rejected() {
    let params = xxx_20151024_401();
    let (sk, pk) = fixed_pair(&params);
    let sig = sign(&sk, &pk, b"tamper").unwrap();
    for pos in [0usize, 4, 5, 300, pk.get_bytes().len() - 1] {
        let mut bytes = pk.get_bytes().to_vec();
        bytes[pos] ^= 0x04;
        assert!(!verify(&sig, &PublicKey::import(&bytes), b"tamper"));
    }
}

#[test]
fn signature_of_another_parameter_set_is_rejected() {
    let x = xxx_20151024_401();
    let y = xxx_20140508_401();
    let (skx, pkx) = fixed_pair(&x);
    let (sky, pky) = fixed_pair(&y);
    let sig = sign(&skx, &pkx, b"cross").unwrap();
    assert!(verify(&sig, &pkx, b"cross"));
    assert!(!verify(&sig, &pky, b"cross"));
    assert!(sign(&skx, &pky, b"cross").is_none());
    assert!(sign(&sky, &pkx, b"cross").is_none());
}

#[test]
fn malformed_keys_do_not_sign() {
    let params = xxx_20151024_401();
    let (sk, pk) = fixed_pair(&params);
    assert!(sign(&PrivateKey::import(&[]), &pk, b"m").is_none());
    assert!(sign(&sk, &PublicKey::import(&[2, 3, 0xff]), b"m").is_none());
    let mut bytes = sk.get_bytes().to_vec();
    bytes[7] ^= 0x02;
    assert!(sign(&PrivateKey::import(&bytes), &pk, b"m").is_none());
}

#[test]
fn unknown_parameter_set_generates_nothing() {
    let mut params = xxx_20151024_401();
    params.b_s = 139;
    assert!(generate_keys(&params, b"seed").is_none());
    let mut params = xxx_20151024_401();
    params.oid.2 = 0x01;
    assert!(generate_keys(&params, b"seed").is_none());
}

#[test]
fn signature_blob_repacks() {
    let params = xxx_20151024_401();
    let (sk, pk) = fixed_pair(&params);
    let sig = sign(&sk, &pk, b"repack").unwrap();
    let (ps, s) = ntrumls::codec::decode_signature(&sig).unwrap();
    assert_eq!(ntrumls::codec::encode_signature(&ps, &s), sig);
    let parts = ntrumls::codec::decode_private(sk.get_bytes()).unwrap();
    let again = ntrumls::codec::encode_private(&parts.params, &parts.f, &parts.g, &parts.g_inv);
    assert_eq!(again, sk.get_bytes().to_vec());
    let parts = ntrumls::codec::decode_public(pk.get_bytes()).unwrap();
    let again = ntrumls::codec::encode_public(&parts.params, &parts.h, &parts.digest);
    assert_eq!(again, pk.get_bytes().to_vec());
}
