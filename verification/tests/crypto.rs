use iroha::bytes::{append_bytes, append_framed, bytes_equal, bytes_less};
use iroha::crypto::{hash, KeyPair, PrivateKey, PublicKey, Signature};
use iroha::signatures::{signatures_from, Signatures};

fn hex(text: &str) -> Vec<u8> {
    let digits: Vec<u8> = text
        .bytes()
        .map(|c| match c {
            b'0'..=b'9' => c - b'0',
            b'a'..=b'f' => c - b'a' + 10,
            _ => panic!("not a hex digit"),
        })
        .collect();
    digits.chunks(2).map(|pair| pair[0] * 16 + pair[1]).collect()
}

fn key_pair(seed: u8) -> KeyPair {
    let signing = ed25519_dalek::SigningKey::from_bytes(&[seed; 32]);
    KeyPair {
        public_key: PublicKey(signing.verifying_key().to_bytes()),
        private_key: PrivateKey([seed; 32]),
    }
}

#[test]
fn hash_of_nothing_is_the_known_digest() {
    let expected = hex("0e5751c026e543b2e8ab2eb06099daa1d1e5df47778f7787faab45cdf12fe3a8");
    assert_eq!(hash(vec![]).0.to_vec(), expected);
}

#[test]
fn hash_of_abc_is_the_known_digest() {
    let expected = hex("bddd813c634239723171ef3fee98579b94964e3bb1cb3e427262c8c068d52319");
    assert_eq!(hash(b"abc".to_vec()).0.to_vec(), expected);
}

#[test]
fn hashes_compare_by_their_bytes() {
    assert_eq!(hash(b"abc".to_vec()), hash(b"abc".to_vec()));
    assert_ne!(hash(b"abc".to_vec()), hash(b"abd".to_vec()));
    assert_eq!(iroha::crypto::Hash::zeroed(), iroha::crypto::Hash([0; 32]));
}

#[test]
fn signature_of_the_reference_key_is_the_known_one() {
    let secret = hex("9d61b19deffd5a60ba844af492ec2cc44449c5697b326919703bac031cae7f60");
    let public = hex("d75a980182b10ab7d54bfed3c964073a0ee172f3daa62325af021a68f707511a");
    let expected = hex(
        "e5564300c360ac729086e2cc806e828a84877f1eb8e5d974d873e06522490155\
5fb8821590a33bacc61e39701cf9b46bd25bf5f0595bbe24655141438e7a100b"
            .replace('\\', "")
            .as_str(),
    );
    let mut private_key = [0u8; 32];
    private_key.copy_from_slice(&secret);
    let mut public_key = [0u8; 32];
    public_key.copy_from_slice(&public);
    let pair = KeyPair {
        public_key: PublicKey(public_key),
        private_key: PrivateKey(private_key),
    };
    let signature = Signature::new(&pair, &[]);
    assert_eq!(signature.signature.to_vec(), expected);
    assert_eq!(signature.public_key, PublicKey(public_key));
    assert!(signature.verify(&[]));
}

#[test]
fn signature_verifies_for_its_payload_only() {
    let pair = key_pair(1);
    let signature = Signature::new(&pair, b"payload");
    assert!(signature.verify(b"payload"));
    assert!(!signature.verify(b"another payload"));
}

#[test]
fn signature_does_not_verify_under_another_key() {
    let signature = Signature::new(&key_pair(1), b"payload");
    let forged = Signature {
        public_key: key_pair(2).public_key,
        signature: signature.signature,
    };
    assert!(!forged.verify(b"payload"));
}

#[test]
fn bytes_are_ordered_lexicographically() {
    assert!(bytes_less(&[1, 2], &[1, 3]));
    assert!(bytes_less(&[1, 2], &[1, 2, 0]));
    assert!(!bytes_less(&[1, 2], &[1, 2]));
    assert!(!bytes_less(&[2], &[1, 9]));
    assert!(bytes_less(&[], &[0]));
    assert!(!bytes_less(&[], &[]));
    assert!(bytes_equal(&[1, 2], &[1, 2]));
    assert!(!bytes_equal(&[1, 2], &[1, 2, 3]));
}

#[test]
fn framed_bytes_stand_behind_their_length() {
    let mut bytes = vec![9u8];
    append_framed(&mut bytes, b"ab");
    assert_eq!(bytes, vec![9, 2, 0, 0, 0, 0, 0, 0, 0, b'a', b'b']);
    append_bytes(&mut bytes, &[7]);
    assert_eq!(bytes.len(), 12);
    assert_eq!(bytes[11], 7);
}

#[test]
fn signatures_hold_one_signature_for_each_key() {
    let first = Signature::new(&key_pair(1), b"one");
    let again = Signature::new(&key_pair(1), b"two");
    let other = Signature::new(&key_pair(2), b"one");
    let mut signatures = Signatures::new();
    assert!(signatures.is_empty());
    signatures.add(first);
    signatures.add(other);
    signatures.add(again);
    assert_eq!(signatures.len(), 2);
    assert!(signatures.contains(&key_pair(1).public_key));
    assert!(signatures.contains(&key_pair(2).public_key));
    assert!(!signatures.contains(&key_pair(3).public_key));
    let values = signatures.values();
    assert_eq!(values[0].signature.to_vec(), again.signature.to_vec());
    assert_eq!(values[1].signature.to_vec(), other.signature.to_vec());
}

#[test]
fn verified_signatures_are_those_that_verify() {
    let good = Signature::new(&key_pair(1), b"payload");
    let bad = Signature::new(&key_pair(2), b"something else");
    let signatures = signatures_from(&[good, bad]);
    let verified = signatures.verified(b"payload");
    assert_eq!(verified.len(), 1);
    assert_eq!(verified[0].public_key, key_pair(1).public_key);
    let mut cleared = signatures.clone();
    cleared.clear();
    assert_eq!(cleared.len(), 0);
    assert_eq!(signatures.len(), 2);
}
