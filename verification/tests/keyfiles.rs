use aes_gcm::aead::{Aead, AeadCore, KeyInit, OsRng};
use aes_gcm::{Aes256Gcm, Key};
use argon2::password_hash::SaltString;
use argon2::{Algorithm, Argon2, Params, PasswordHasher, Version};
use helix::crypto::keyfile::{
    algo_name, scheme_from_algo, ARGON2_M_COST_KIB, ARGON2_P_COST, ARGON2_T_COST,
};
use helix::crypto::{
    kem_encapsulate, Address, CryptoScheme, KdfParams, KemCiphertext, KemEncapsulationKey,
    KemKeyPair, KeyFile, KeyFileError, KeyPair,
};

#[test]
fn kem_roundtrip_produces_matching_shared_secrets() {
    let kp = KemKeyPair::generate();
    let (ct, ss_encap) = kem_encapsulate(&kp.encapsulation_key).unwrap();
    let ss_decap = kp.decapsulate(&ct).unwrap();
    assert_eq!(ss_encap, ss_decap);
}

#[test]
fn kem_different_sessions_produce_different_secrets() {
    let kp = KemKeyPair::generate();
    let (ct1, ss1) = kem_encapsulate(&kp.encapsulation_key).unwrap();
    let (ct2, ss2) = kem_encapsulate(&kp.encapsulation_key).unwrap();
    assert_ne!(ct1.as_bytes(), ct2.as_bytes());
    assert_ne!(ss1, ss2);
}

#[test]
fn kem_wrong_key_pair_decapsulate_gives_different_secret() {
    let kp1 = KemKeyPair::generate();
    let kp2 = KemKeyPair::generate();
    let (ct, ss1) = kem_encapsulate(&kp1.encapsulation_key).unwrap();
    let ss2 = kp2.decapsulate(&ct).unwrap();
    assert_ne!(ss1, ss2);
}

#[test]
fn kem_key_and_ciphertext_sizes_match_ml_kem_768_spec() {
    let kp = KemKeyPair::generate();
    assert_eq!(kp.encapsulation_key.as_bytes().len(), 1184);
    let (ct, ss) = kem_encapsulate(&kp.encapsulation_key).unwrap();
    assert_eq!(ct.as_bytes().len(), 1088);
    assert_eq!(ss.len(), 32);
}

#[test]
fn kem_refuses_malformed_keys_and_ciphertexts() {
    let short = KemEncapsulationKey::from_bytes(vec![0; 1183]);
    let words = kem_encapsulate(&short).err().unwrap().message();
    assert_eq!(words, "Invalid public key: bad ML-KEM encapsulation key");
    // Coefficients out of range.
    assert!(kem_encapsulate(&KemEncapsulationKey::from_bytes(vec![0xFF; 1184])).is_err());
    let kp = KemKeyPair::generate();
    let words = kp.decapsulate(&KemCiphertext::from_bytes(vec![0; 1087])).unwrap_err().message();
    assert_eq!(words, "Invalid signature: bad ML-KEM ciphertext");
    assert!(kp.decapsulate(&KemCiphertext::from_bytes(vec![0; 1088])).is_ok());
}

#[test]
fn encrypted_keyfile_round_trips_with_hardened_params() {
    let kp = KeyPair::generate();
    let addr = Address::from_public_key(&kp.public);
    let file = KeyFile::from_keypair_encrypted(&kp, "correct horse battery staple").unwrap();

    let params = file.kdf_params.expect("encrypted file must record its KDF params");
    assert_eq!(params.m_cost, ARGON2_M_COST_KIB);
    assert_eq!(params.t_cost, ARGON2_T_COST);
    assert!(
        params.m_cost > KdfParams::legacy_default().m_cost,
        "must be stronger than the old default"
    );

    let restored = file.to_keypair(Some("correct horse battery staple")).unwrap();
    assert_eq!(Address::from_public_key(&restored.public), addr);
    assert_eq!(restored.secret.as_bytes(), kp.secret.as_bytes());
}

#[test]
fn encrypted_keyfile_rejects_wrong_passphrase() {
    let kp = KeyPair::generate();
    let file = KeyFile::from_keypair_encrypted(&kp, "right").unwrap();
    assert!(file.to_keypair(Some("wrong")).is_err());
    let words = file.to_keypair(Some("wrong")).err().unwrap().message();
    assert_eq!(words, "Decryption failed — wrong passphrase?");
}

fn legacy_key(passphrase: &[u8], salt: &str) -> Vec<u8> {
    let salt = SaltString::from_b64(salt).unwrap();
    let d = KdfParams::legacy_default();
    let params = Params::new(d.m_cost, d.t_cost, d.p_cost, Some(32)).unwrap();
    let argon2 = Argon2::new(Algorithm::Argon2id, Version::V0x13, params);
    let hash = argon2.hash_password(passphrase, &salt).unwrap();
    hash.hash.unwrap().as_bytes().to_vec()
}

#[test]
fn legacy_encrypted_file_without_params_still_decrypts_via_default() {
    let kp = KeyPair::generate();
    let mut file = KeyFile::from_keypair_encrypted(&kp, "pw").unwrap();
    let key = legacy_key(b"pw", file.kdf_salt.as_deref().unwrap());
    let cipher = Aes256Gcm::new(Key::<Aes256Gcm>::from_slice(&key[..32]));
    let nonce = Aes256Gcm::generate_nonce(&mut OsRng);
    let ct = cipher.encrypt(&nonce, kp.secret.as_bytes()).unwrap();
    file.secret_key = hex::encode(&ct);
    file.nonce = Some(hex::encode(nonce));
    file.kdf_params = None;

    let restored = file.to_keypair(Some("pw")).unwrap();
    assert_eq!(restored.secret.as_bytes(), kp.secret.as_bytes());
}

#[test]
fn the_derived_key_is_argon2ids() {
    let salt = "c29tZXNhbHRzb21lc2FsdA";
    let key = KdfParams::legacy_default().derive("pw", salt).unwrap();
    assert_eq!(key, legacy_key(b"pw", salt));
}

/// Reads a file the way a program does: the fields as they stand, then the check.
fn reread(file: &KeyFile) -> KeyFile {
    KeyFile {
        address: file.address.clone(),
        public_key: file.public_key.clone(),
        algo: file.algo.clone(),
        encryption: file.encryption.clone(),
        secret_key: file.secret_key.clone(),
        kdf_salt: file.kdf_salt.clone(),
        nonce: file.nonce.clone(),
        kdf_params: file.kdf_params,
    }
}

#[test]
fn a_rewritten_address_is_refused_before_anyone_can_read_it() {
    let owner = KeyPair::generate();
    let attacker = Address::from_public_key(&KeyPair::generate().public);
    let file = KeyFile::from_keypair_encrypted(&owner, "pw").unwrap();
    let mut raw = reread(&file);
    raw.address = attacker.to_string();
    let err = raw
        .checked()
        .err()
        .expect("a file whose address is not its key's must not load");
    assert!(err.message().contains("does not belong to"), "{}", err.message());
    assert!(reread(&file).checked().is_ok());
}

#[test]
fn an_address_changed_in_memory_does_not_survive_unlocking() {
    let owner = KeyPair::generate();
    let mut file = KeyFile::from_keypair_plain(&owner);
    file.address = Address::from_public_key(&KeyPair::generate().public).to_string();
    assert!(file.to_keypair(None).is_err());
}

fn replaced_pair_is_caught_on_unlocking(scheme: CryptoScheme) {
    let owner = KeyPair::generate_for(scheme);
    let attacker = KeyPair::generate_for(scheme);
    let file = KeyFile::from_keypair_encrypted(&owner, "pw").unwrap();
    let mut raw = reread(&file);
    raw.public_key = attacker.public.to_hex();
    raw.address = Address::from_public_key(&attacker.public).to_string();
    let loaded = raw
        .checked()
        .expect("self-consistent plaintext fields cannot be told apart without the secret");
    assert!(
        loaded.to_keypair(Some("pw")).is_err(),
        "{scheme:?}: the owner's passphrase opened a wallet that shows the attacker's address"
    );
    assert!(file.to_keypair(Some("pw")).is_ok(), "{scheme:?}");
}

// Each derivation takes seconds, so the two schemes have a test each.
#[test]
fn rewriting_address_and_public_key_together_is_caught_when_the_wallet_is_unlocked() {
    replaced_pair_is_caught_on_unlocking(CryptoScheme::MlDsa);
}

#[test]
fn rewriting_both_is_caught_for_slh_dsa_too() {
    replaced_pair_is_caught_on_unlocking(CryptoScheme::SphincsPlus);
}

#[test]
fn a_file_for_an_unknown_scheme_or_a_malformed_key_does_not_load() {
    let kp = KeyPair::generate();
    let file = KeyFile::from_keypair_plain(&kp);

    let mut unknown = reread(&file);
    unknown.algo = "ML-DSA-Dilithium3".to_string();
    assert_eq!(
        unknown.checked().err().unwrap().message(),
        "Unknown key algorithm in wallet file: ML-DSA-Dilithium3"
    );

    let mut truncated = reread(&file);
    truncated.public_key = file.public_key[..file.public_key.len() - 2].to_string();
    assert_eq!(
        truncated.checked().err().unwrap().message(),
        "Wallet file's public key is not a valid ML-DSA-65 key"
    );

    let mut no_address = reread(&file);
    no_address.address = "hlx".to_string();
    assert!(matches!(
        no_address.checked(),
        Err(KeyFileError::AddressMismatch(_))
    ));
}

#[test]
fn a_plain_file_opens_to_the_pair_it_was_made_from() {
    for scheme in [CryptoScheme::MlDsa, CryptoScheme::SphincsPlus] {
        let kp = KeyPair::generate_for(scheme);
        let file = KeyFile::from_keypair_plain(&kp);
        assert!(!file.is_encrypted());
        assert_eq!(file.encryption, "plaintext");
        assert_eq!(file.secret_key, hex::encode(kp.secret.as_bytes()));
        let restored = file.to_keypair(None).unwrap();
        assert_eq!(restored.scheme, scheme);
        assert_eq!(restored.public, kp.public);
        assert_eq!(restored.secret.as_bytes(), kp.secret.as_bytes());
        assert_eq!(scheme_from_algo(algo_name(scheme)).unwrap(), scheme);
    }
}

#[test]
fn every_way_a_sealed_file_can_be_broken_is_named() {
    let kp = KeyPair::from_mldsa_seed(&[5u8; 32]).unwrap();
    let file = KeyFile::from_keypair_encrypted(&kp, "pw").unwrap();
    assert!(file.is_encrypted());
    let words = |f: &KeyFile, p: Option<&str>| f.to_keypair(p).err().unwrap().message();
    assert_eq!(words(&file, None), "Passphrase required for encrypted wallet");

    let mut f = reread(&file);
    f.kdf_salt = None;
    assert_eq!(words(&f, Some("pw")), "Missing KDF salt");
    f.kdf_salt = Some("a!".to_string());
    assert_eq!(
        words(&f, Some("pw")),
        format!("Invalid salt: {}", SaltString::from_b64("a!").err().unwrap())
    );
    f.kdf_salt = Some("abcd".to_string());
    assert!(words(&f, Some("pw")).starts_with("KDF error: "));

    let mut f = reread(&file);
    f.nonce = None;
    assert_eq!(words(&f, Some("pw")), "Missing nonce");
    f.nonce = Some("0g".to_string());
    assert_eq!(words(&f, Some("pw")), "Invalid character 'g' at position 1");
    f.nonce = Some("00".to_string());
    assert!(matches!(f.to_keypair(Some("pw")), Err(KeyFileError::InvalidNonce)));

    let mut f = reread(&file);
    f.secret_key = "abc".to_string();
    assert_eq!(words(&f, Some("pw")), "Odd number of digits");

    let mut f = reread(&file);
    f.encryption = "rot13".to_string();
    assert_eq!(words(&f, Some("pw")), "Unknown encryption format: rot13");

    let costs = |m_cost, t_cost, p_cost| {
        let mut f = reread(&file);
        f.kdf_params = Some(KdfParams { m_cost, t_cost, p_cost });
        words(&f, Some("pw"))
    };
    assert_eq!(costs(7, 1, 1), "invalid Argon2 parameters: memory cost is too small");
    assert_eq!(costs(15, 1, 2), "invalid Argon2 parameters: memory cost is too small");
    assert_eq!(costs(8, 0, 1), "invalid Argon2 parameters: time cost is too small");
    assert_eq!(costs(8, 1, 0), "invalid Argon2 parameters: not enough threads");
    assert_eq!(
        costs(u32::MAX, 1, 0x0100_0000),
        "invalid Argon2 parameters: too many threads"
    );
    assert_eq!(
        costs(u32::MAX, 1, u32::MAX),
        "invalid Argon2 parameters: too many threads"
    );
    // Too little memory is found before the lanes are looked at.
    assert_eq!(costs(0, 1, 1 << 30), "invalid Argon2 parameters: memory cost is too small");
    assert_eq!(costs(7, 0, u32::MAX), "invalid Argon2 parameters: memory cost is too small");
    // Two to the twenty-ninth lanes want no memory at all in 32 bits.
    assert_eq!(costs(8, 1, 1 << 29), "invalid Argon2 parameters: too many threads");
    assert_eq!(costs(8, 0, 1 << 29), "invalid Argon2 parameters: time cost is too small");
    assert_eq!(
        costs(15, 1, (1 << 29) + 2),
        "invalid Argon2 parameters: memory cost is too small"
    );
}

#[test]
fn a_plain_file_with_a_foreign_secret_is_refused() {
    let kp = KeyPair::from_mldsa_seed(&[5u8; 32]).unwrap();
    let mut f = KeyFile::from_keypair_plain(&kp);
    f.secret_key = hex::encode([6u8; 32]);
    assert_eq!(
        f.to_keypair(None).err().unwrap().message(),
        "Invalid public key: ML-DSA public key does not match the secret seed"
    );
    f.public_key = "0g".to_string();
    assert_eq!(
        f.to_keypair(None).err().unwrap().message(),
        "Wallet file's public key is not valid hex: Invalid hex encoding: Invalid character 'g' at position 1"
    );
}

#[test]
fn the_costs_of_new_files_are_the_documented_ones() {
    let c = KdfParams::current();
    assert_eq!((c.m_cost, c.t_cost, c.p_cost), (65_536, 3, 1));
    assert_eq!(c.p_cost, ARGON2_P_COST);
    let l = KdfParams::legacy_default();
    assert_eq!((l.m_cost, l.t_cost, l.p_cost), (19 * 1024, 2, 1));
}
