use helix::crypto::address::check_address_data;
use helix::crypto::error::{CryptoError, HexFault};
use helix::crypto::keys::same_bytes;
use helix::crypto::merkle::{merkle_leaf_hash, merkle_node_hash};
use helix::crypto::{
    merkle_proof, merkle_root, verify, verify_merkle_proof, verify_with_scheme, Address,
    CryptoScheme, Digest, KeyPair, PublicKey, Signature,
};

#[test]
fn test_address_from_pubkey() {
    let kp = KeyPair::generate();
    let addr = Address::from_public_key(&kp.public);
    assert!(addr.as_str().starts_with("hlx"));
}

#[test]
fn test_address_deterministic() {
    let kp = KeyPair::generate();
    let a1 = Address::from_public_key(&kp.public);
    let a2 = Address::from_public_key(&kp.public);
    assert_eq!(a1, a2);
}

#[test]
fn test_address_roundtrip() {
    let kp = KeyPair::generate();
    let addr = Address::from_public_key(&kp.public);
    let parsed = Address::from_str(addr.as_str()).unwrap();
    assert_eq!(addr, parsed);
}

#[test]
fn test_address_version() {
    let kp = KeyPair::generate();
    let addr = Address::from_public_key(&kp.public);
    assert_eq!(addr.version(), Some(0x01));
}

#[test]
fn test_invalid_address_rejected() {
    assert!(Address::from_str("invalid").is_err());
    assert!(Address::from_str("hlx1corrupted!!").is_err());
}

#[test]
fn address_is_the_base58_of_version_body_and_checksum() {
    let key = PublicKey::from_bytes(vec![7u8; 1952]);
    let body = blake3::hash(&[7u8; 1952]);
    let mut data = vec![1u8];
    data.extend_from_slice(&body.as_bytes()[..20]);
    let once = blake3::hash(&data);
    let twice = blake3::hash(once.as_bytes());
    data.extend_from_slice(&twice.as_bytes()[..4]);
    let expected = format!("hlx{}", bs58::encode(&data).into_string());
    let addr = Address::from_public_key(&key);
    assert_eq!(addr.as_str(), expected);
    assert_eq!(addr.to_string(), expected);
    assert!(check_address_data(&data).is_ok());
}

#[test]
fn each_address_fault_has_its_words() {
    let words = |s: &str| Address::from_str(s).unwrap_err().message();
    assert_eq!(words("btc123"), "Invalid address: missing 'hlx' prefix");
    assert_eq!(words("hlx2"), "Invalid address: too short");
    assert!(words("hlx0OIl").starts_with("Invalid address: "));
    let good = Address::from_public_key(&PublicKey::from_bytes(vec![1, 2, 3]));
    let mut data = bs58::decode(&good.as_str()[3..]).into_vec().unwrap();
    data[5] ^= 1;
    let bent = format!("hlx{}", bs58::encode(&data).into_string());
    assert_eq!(words(&bent), "Invalid address: checksum mismatch");
    // The version byte is covered by the checksum too.
    data[5] ^= 1;
    data[0] = 2;
    let bent = format!("hlx{}", bs58::encode(&data).into_string());
    assert_eq!(words(&bent), "Invalid address: checksum mismatch");
}

#[test]
fn test_keygen_sign_verify() {
    let kp = KeyPair::generate();
    let msg = b"helix blockchain test message";
    let sig = kp.sign(msg).unwrap();
    assert!(verify(&kp.public, msg, &sig).is_ok());
}

#[test]
fn test_verify_wrong_message_fails() {
    let kp = KeyPair::generate();
    let sig = kp.sign(b"correct message").unwrap();
    assert!(verify(&kp.public, b"wrong message", &sig).is_err());
}

#[test]
fn test_verify_wrong_key_fails() {
    let kp1 = KeyPair::generate();
    let kp2 = KeyPair::generate();
    let sig = kp1.sign(b"message").unwrap();
    assert!(verify(&kp2.public, b"message", &sig).is_err());
}

#[test]
fn test_public_key_hex_roundtrip() {
    let kp = KeyPair::generate();
    let hex = kp.public.to_hex();
    let pk2 = PublicKey::from_hex(&hex).unwrap();
    assert_eq!(kp.public, pk2);
}

#[test]
fn ml_dsa_key_sizes_match_fips_204_level_3() {
    let kp = KeyPair::generate();
    assert_eq!(kp.public.as_bytes().len(), 1952);
    assert_eq!(kp.secret.as_bytes().len(), 32);
    let sig = kp.sign(b"x").unwrap();
    assert_eq!(sig.as_bytes().len(), 3309);
}

#[test]
fn test_sphincsplus_keygen_sign_verify() {
    let kp = KeyPair::generate_for(CryptoScheme::SphincsPlus);
    assert_eq!(kp.scheme, CryptoScheme::SphincsPlus);
    let msg = b"helix migration test message";
    let sig = kp.sign(msg).unwrap();
    assert!(verify_with_scheme(CryptoScheme::SphincsPlus, &kp.public, msg, &sig).is_ok());
}

#[test]
fn test_verify_with_wrong_scheme_fails() {
    let ml_dsa = KeyPair::generate();
    let sphincs = KeyPair::generate_for(CryptoScheme::SphincsPlus);
    let msg = b"cross-scheme message";
    let ml_dsa_sig = ml_dsa.sign(msg).unwrap();
    assert!(
        verify_with_scheme(CryptoScheme::SphincsPlus, &sphincs.public, msg, &ml_dsa_sig).is_err()
    );
}

#[test]
fn test_keypair_from_raw_roundtrip() {
    let kp = KeyPair::generate_for(CryptoScheme::SphincsPlus);
    let restored = KeyPair::from_raw(
        CryptoScheme::SphincsPlus,
        kp.secret.as_bytes().to_vec(),
        kp.public.as_bytes().to_vec(),
    )
    .unwrap();
    let msg = b"restored keypair still signs correctly";
    let sig = restored.sign(msg).unwrap();
    assert!(verify_with_scheme(CryptoScheme::SphincsPlus, &restored.public, msg, &sig).is_ok());
}

#[test]
fn ml_dsa_from_raw_rejects_mismatched_public() {
    let a = KeyPair::generate();
    let b = KeyPair::generate();
    let res = KeyPair::from_raw(
        CryptoScheme::MlDsa,
        a.secret.as_bytes().to_vec(),
        b.public.as_bytes().to_vec(),
    );
    assert!(res.is_err());
}

#[test]
fn slh_dsa_from_raw_rejects_mismatched_public() {
    let a = KeyPair::generate_for(CryptoScheme::SphincsPlus);
    let b = KeyPair::generate_for(CryptoScheme::SphincsPlus);
    let res = KeyPair::from_raw(
        CryptoScheme::SphincsPlus,
        a.secret.as_bytes().to_vec(),
        b.public.as_bytes().to_vec(),
    );
    assert_eq!(
        res.err().unwrap().message(),
        "Invalid public key: SLH-DSA public key does not match the secret key"
    );
}

#[test]
fn from_raw_names_the_length_that_is_wrong() {
    let words = |scheme, sk: usize, pk: usize| {
        KeyPair::from_raw(scheme, vec![1; sk], vec![1; pk]).err().unwrap().message()
    };
    assert_eq!(
        words(CryptoScheme::MlDsa, 31, 1952),
        "Invalid secret key: ML-DSA seed must be 32 bytes"
    );
    assert_eq!(
        words(CryptoScheme::MlDsa, 32, 10),
        "Invalid public key: ML-DSA public key does not match the secret seed"
    );
    assert_eq!(
        words(CryptoScheme::SphincsPlus, 95, 48),
        "Invalid secret key: signature error"
    );
    assert_eq!(
        words(CryptoScheme::SphincsPlus, 96, 47),
        "Invalid public key: signature error"
    );
}

#[test]
fn the_error_texts_of_slh_dsa_are_the_crates_own() {
    let short_secret = slh_dsa::SigningKey::<slh_dsa::Sha2_192s>::try_from(&[1u8; 95][..]);
    assert_eq!(short_secret.err().unwrap().to_string(), "signature error");
    let short_public = slh_dsa::VerifyingKey::<slh_dsa::Sha2_192s>::try_from(&[1u8; 47][..]);
    assert_eq!(short_public.err().unwrap().to_string(), "signature error");
}

#[test]
fn a_seed_determines_the_ml_dsa_pair() {
    let a = KeyPair::from_mldsa_seed(&[9u8; 32]).unwrap();
    let b = KeyPair::from_mldsa_seed(&[9u8; 32]).unwrap();
    let c = KeyPair::from_mldsa_seed(&[8u8; 32]).unwrap();
    assert_eq!(a.public, b.public);
    assert_ne!(a.public, c.public);
    assert_eq!(a.sign(b"m").unwrap(), b.sign(b"m").unwrap());
    assert_eq!(
        KeyPair::from_mldsa_seed(&[9u8; 33]).err().unwrap().message(),
        "Invalid secret key: ML-DSA seed must be 32 bytes"
    );
}

#[test]
fn verification_names_what_is_malformed() {
    let kp = KeyPair::from_mldsa_seed(&[3u8; 32]).unwrap();
    let sig = kp.sign(b"m").unwrap();
    let words = |key: &PublicKey, sig: &Signature| {
        verify(key, b"m", sig).err().unwrap().message()
    };
    assert_eq!(
        words(&PublicKey::from_bytes(vec![0; 10]), &sig),
        "Invalid public key: bad ML-DSA public key length"
    );
    assert_eq!(
        words(&kp.public, &Signature::from_bytes(vec![0; 10])),
        "Invalid signature: bad ML-DSA signature length"
    );
    assert_eq!(
        words(&kp.public, &Signature::from_bytes(vec![0xFF; 3309])),
        "Invalid signature: malformed ML-DSA signature"
    );
    let mut bent = sig.as_bytes().to_vec();
    bent[0] ^= 1;
    assert_eq!(
        words(&kp.public, &Signature::from_bytes(bent)),
        "Signature verification failed"
    );
    let slh = KeyPair::generate_for(CryptoScheme::SphincsPlus);
    let under = |key: &PublicKey, sig: &Signature| {
        verify_with_scheme(CryptoScheme::SphincsPlus, key, b"m", sig)
            .err()
            .unwrap()
            .message()
    };
    assert_eq!(
        under(&kp.public, &Signature::from_bytes(vec![0; 16224])),
        "Invalid public key: signature error"
    );
    assert_eq!(under(&slh.public, &sig), "Invalid signature: signature error");
    assert_eq!(
        under(&slh.public, &Signature::from_bytes(vec![0; 16224])),
        "Signature verification failed"
    );
}

#[test]
fn scheme_tags_read_back() {
    for scheme in [CryptoScheme::MlDsa, CryptoScheme::SphincsPlus] {
        assert_eq!(CryptoScheme::from_tag(scheme.tag()).unwrap(), scheme);
    }
    assert!(CryptoScheme::from_tag(9).is_err());
    assert_eq!(CryptoScheme::default(), CryptoScheme::MlDsa);
    assert_eq!(CryptoScheme::MlDsa.secret_key_len(), 32);
    assert_eq!(CryptoScheme::MlDsa.public_key_len(), 1952);
    assert_eq!(CryptoScheme::SphincsPlus.secret_key_len(), 96);
    assert_eq!(CryptoScheme::SphincsPlus.public_key_len(), 48);
}

#[test]
fn key_shape_is_its_length() {
    let ml = PublicKey::from_bytes(vec![0; 1952]);
    let slh = PublicKey::from_bytes(vec![0; 48]);
    let other = PublicKey::from_bytes(vec![0; 49]);
    assert!(ml.is_valid() && slh.is_valid() && !other.is_valid());
    assert!(ml.is_valid_for(CryptoScheme::MlDsa));
    assert!(!ml.is_valid_for(CryptoScheme::SphincsPlus));
    let expected = hex::encode(&blake3::hash(&[0u8; 48]).as_bytes()[..8]);
    assert_eq!(slh.fingerprint(), expected);
    assert!(same_bytes(slh.as_bytes(), &[0u8; 48]));
    assert!(!same_bytes(slh.as_bytes(), &[0u8; 47]));
}

#[test]
fn hex_of_the_wrong_length_is_an_error_and_not_a_panic() {
    for s in ["abcd", "", "ab", &"00".repeat(31), &"00".repeat(33)] {
        assert!(Digest::from_hex(s).is_err(), "{s:?} must not parse as a hash");
    }
    assert!(
        Digest::from_hex("zz".repeat(32).as_str()).is_err(),
        "non-hex must still error"
    );
    assert!(
        Digest::from_hex(&"00".repeat(32)).is_ok(),
        "a real 32-byte hash still parses"
    );
}

#[test]
fn each_hex_fault_has_its_words() {
    let fault = |s: &str| Digest::from_hex(s).unwrap_err();
    assert_eq!(fault("abc"), HexFault::OddLength);
    assert_eq!(fault("abcd"), HexFault::InvalidStringLength);
    assert_eq!(
        fault("0g"),
        HexFault::InvalidHexCharacter { c: 'g', index: 1 }
    );
    assert_eq!(fault("abc").message(), "Odd number of digits");
    assert_eq!(fault("abcd").message(), "Invalid string length");
    assert_eq!(fault("0g").message(), "Invalid character 'g' at position 1");
    let e = PublicKey::from_hex("0g").unwrap_err();
    assert!(matches!(e, CryptoError::HexError(_)));
    assert_eq!(
        e.message(),
        "Invalid hex encoding: Invalid character 'g' at position 1"
    );
    assert_eq!(
        Signature::from_hex("abc").unwrap_err().message(),
        "Invalid hex encoding: Odd number of digits"
    );
    assert_eq!(Signature::from_hex("00FFab").unwrap().as_bytes(), &[0, 255, 171]);
    assert_eq!(Signature::from_bytes(vec![0, 255, 171]).to_hex(), "00ffab");
}

#[test]
fn test_hash_digest() {
    let h1 = Digest::digest(b"helix");
    let h2 = Digest::digest(b"helix");
    assert_eq!(h1, h2);
    assert_eq!(h1.as_bytes(), blake3::hash(b"helix").as_bytes());
}

#[test]
fn digest_many_hashes_the_parts_in_one_piece() {
    assert_eq!(
        Digest::digest_many(&[b"he", b"", b"lix"]),
        Digest::digest(b"helix")
    );
    assert_eq!(Digest::digest_many(&[]), Digest::digest(b""));
    assert_eq!(Digest::from([4u8; 32]), Digest::from_bytes([4u8; 32]));
    assert_eq!(Digest::zero().as_bytes(), &[0u8; 32]);
}

#[test]
fn test_hash_hex_roundtrip() {
    let h = Digest::digest(b"helix blockchain");
    let hex = h.to_hex();
    let h2 = Digest::from_hex(&hex).unwrap();
    assert_eq!(h, h2);
}

#[test]
fn test_merkle_root_empty() {
    assert_eq!(merkle_root(&[]), Digest::zero());
}

#[test]
fn test_merkle_root_single() {
    let h = Digest::digest(b"tx1");
    let root = merkle_root(&[h]);
    assert_ne!(root, Digest::zero());
    assert_ne!(root, h, "domain separation: a leaf must not equal the root verbatim");
    assert_eq!(root, merkle_root(&[h]));
}

#[test]
fn test_merkle_root_multiple() {
    let hashes: Vec<Digest> = (0..4).map(|i| Digest::digest(&[i])).collect();
    let root = merkle_root(&hashes);
    assert_ne!(root, Digest::zero());
}

#[test]
fn merkle_root_of_three_pairs_the_last_with_itself() {
    let h: Vec<Digest> = (0..3).map(|i| Digest::digest(&[i])).collect();
    let l: Vec<Digest> = h.iter().map(merkle_leaf_hash).collect();
    let left = merkle_node_hash(&l[0], &l[1]);
    let right = merkle_node_hash(&l[2], &l[2]);
    assert_eq!(merkle_root(&h), merkle_node_hash(&left, &right));
    let mut leaf = vec![0u8];
    leaf.extend_from_slice(h[0].as_bytes());
    assert_eq!(l[0], Digest::digest(&leaf));
    let mut node = vec![1u8];
    node.extend_from_slice(l[0].as_bytes());
    node.extend_from_slice(l[1].as_bytes());
    assert_eq!(left, Digest::digest(&node));
}

#[test]
fn merkle_proof_verifies_every_leaf_of_a_power_of_two_tree() {
    let hashes: Vec<Digest> = (0..4).map(|i| Digest::digest(&[i])).collect();
    let root = merkle_root(&hashes);
    for (i, leaf) in hashes.iter().enumerate() {
        let proof = merkle_proof(&hashes, i).unwrap();
        assert!(verify_merkle_proof(*leaf, &proof, root), "leaf {i} failed to verify");
    }
}

#[test]
fn merkle_proof_verifies_every_leaf_of_an_odd_sized_tree() {
    let hashes: Vec<Digest> = (0..5).map(|i| Digest::digest(&[i])).collect();
    let root = merkle_root(&hashes);
    for (i, leaf) in hashes.iter().enumerate() {
        let proof = merkle_proof(&hashes, i).unwrap();
        assert!(verify_merkle_proof(*leaf, &proof, root), "leaf {i} failed to verify");
    }
}

#[test]
fn merkle_proof_of_single_leaf_tree_is_empty_and_verifies_against_the_root() {
    let h = Digest::digest(b"only tx");
    let root = merkle_root(&[h]);
    let proof = merkle_proof(&[h], 0).unwrap();
    assert!(proof.is_empty());
    assert!(verify_merkle_proof(h, &proof, root));
}

#[test]
fn internal_node_hash_cannot_be_passed_off_as_a_leaf() {
    let a = Digest::digest(b"tx-a");
    let b = Digest::digest(b"tx-b");
    let root = merkle_root(&[a, b]);
    assert!(!verify_merkle_proof(root, &[], root));
}

#[test]
fn merkle_proof_out_of_bounds_index_returns_none() {
    let hashes: Vec<Digest> = (0..3).map(|i| Digest::digest(&[i])).collect();
    assert!(merkle_proof(&hashes, 3).is_none());
}

#[test]
fn verify_merkle_proof_rejects_tampered_leaf() {
    let hashes: Vec<Digest> = (0..4).map(|i| Digest::digest(&[i])).collect();
    let root = merkle_root(&hashes);
    let proof = merkle_proof(&hashes, 2).unwrap();
    let wrong_leaf = Digest::digest(b"not the real tx");
    assert!(!verify_merkle_proof(wrong_leaf, &proof, root));
}

#[test]
fn verify_merkle_proof_rejects_tampered_sibling() {
    let hashes: Vec<Digest> = (0..4).map(|i| Digest::digest(&[i])).collect();
    let root = merkle_root(&hashes);
    let mut proof = merkle_proof(&hashes, 0).unwrap();
    proof[0].sibling = Digest::digest(b"forged sibling");
    assert!(!verify_merkle_proof(hashes[0], &proof, root));
}
