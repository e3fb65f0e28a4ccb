//! What addresses, keys, signatures, trees and key files promise.
use crate::crypto::address::{address_fault, address_of, base58_data, base58_text};
use crate::crypto::hash::{blake3_hash, zero_hash};
use crate::crypto::hex_text::{hex_chars, hex_read, hex_round_trip};
use crate::crypto::kem::{decapsulation, mlkem_opened};
use crate::crypto::keyfile::{
    aes_opened, argon2id_key, derived, pair_in, plain_file, salt_refusal, sealed_file, KdfParams,
    KeyFileFault, KeyFileModel,
};
use crate::crypto::keys::{
    keys_match, mldsa_accepts, mldsa_decodes, mldsa_public, mldsa_signature, raw_pair_fault,
    sign_outcome, slh_accepts, slh_signature, valid_key_shape, verify_outcome, CryptoScheme,
};
use crate::crypto::merkle::{leaf_level, leaf_node, root_of};
use crate::crypto::Digest;
use vstd::prelude::*;

verus! {

/// An address is `hlx` and, in base58, version one, twenty bytes of the key's hash
/// and four bytes of the double hash of those twenty-one.
pub proof fn addresses_are_versioned_hashes(key: Seq<u8>)
    ensures
        ({
            let payload = seq![1u8] + blake3_hash(key).take(20);
            address_of(key) == "hlx"@ + base58_text(
                payload + blake3_hash(blake3_hash(payload)).take(4),
            )
        }),
{
}

/// A text is an address exactly if it begins with `hlx` and the rest is base58 of at
/// least twenty-five bytes, the last four of which check the others.
pub proof fn addresses_check_themselves(text: Seq<char>)
    ensures
        address_fault(text) is None <==> {
            let d = base58_data(text.skip(3))->Ok_0;
            &&& "hlx"@.is_prefix_of(text)
            &&& base58_data(text.skip(3)) is Ok
            &&& d.len() >= 25
            &&& d.skip(d.len() - 4) == blake3_hash(blake3_hash(d.take(d.len() - 4))).take(4)
        },
{
}

/// A signature is accepted exactly if key and signature have the lengths of the
/// scheme, and the scheme accepts it for this key and this message.
pub proof fn signatures_are_checked_in_full(
    scheme: CryptoScheme,
    key: Seq<u8>,
    message: Seq<u8>,
    signature: Seq<u8>,
)
    ensures
        scheme is MlDsa ==> (verify_outcome(scheme, key, message, signature) is Ok <==> key.len()
            == 1952 && signature.len() == 3309 && mldsa_decodes(signature) && mldsa_accepts(
            key,
            message,
            signature,
        )),
        scheme is SphincsPlus ==> (verify_outcome(scheme, key, message, signature) is Ok
            <==> key.len() == 48 && signature.len() == 16224 && slh_accepts(
            key,
            message,
            signature,
        )),
{
}

/// What is signed is the message, with the whole of the secret.
pub proof fn messages_are_signed_as_they_are(
    scheme: CryptoScheme,
    secret: Seq<u8>,
    message: Seq<u8>,
)
    ensures
        scheme is MlDsa && sign_outcome(scheme, secret, message) is Ok ==> secret.len() == 32
            && mldsa_signature(secret, message) == Some(
            sign_outcome(scheme, secret, message)->Ok_0,
        ),
        scheme is MlDsa && secret.len() == 32 && mldsa_signature(secret, message) is Some
            ==> sign_outcome(scheme, secret, message) is Ok,
        scheme is SphincsPlus ==> (sign_outcome(scheme, secret, message) is Ok <==> secret.len()
            == 96),
        scheme is SphincsPlus && secret.len() == 96 ==> sign_outcome(scheme, secret, message)->Ok_0
            == slh_signature(secret, message),
{
}

/// A stored pair is taken exactly if its secret has the scheme's length and its
/// public key is the one that the secret leads to.
pub proof fn stored_pairs_belong_together(
    scheme: CryptoScheme,
    secret: Seq<u8>,
    public: Seq<u8>,
)
    ensures
        scheme is MlDsa ==> (raw_pair_fault(scheme, secret, public) is None <==> secret.len() == 32
            && public == mldsa_public(secret)),
        scheme is SphincsPlus ==> (raw_pair_fault(scheme, secret, public) is None <==> secret.len()
            == 96 && public == secret.subrange(48, 96)),
        scheme is MlDsa ==> (keys_match(scheme, secret, public) <==> secret.len() == 32 && public
            == mldsa_public(secret)),
        scheme is SphincsPlus ==> (keys_match(scheme, secret, public) <==> secret.len() == 96
            && public == secret.subrange(48, 96)),
{
}

/// A public key is one of the two lengths that there are.
pub proof fn keys_have_two_lengths(key: Seq<u8>)
    ensures
        valid_key_shape(key) <==> key.len() == 1952 || key.len() == 48,
{
}

/// The root of nothing is zero; of one leaf, the leaf hashed behind a zero byte; of
/// two or three, the level above, hashed behind a one byte, a last node without a
/// neighbour being its own. So a leaf is never taken for a node.
pub proof fn small_trees_are_these(a: Digest, b: Digest, c: Digest)
    ensures
        ({
            let la = blake3_hash(seq![0u8] + a@);
            let lb = blake3_hash(seq![0u8] + b@);
            let lc = blake3_hash(seq![0u8] + c@);
            let ab = blake3_hash(seq![1u8] + la + lb);
            let cc = blake3_hash(seq![1u8] + lc + lc);
            &&& root_of(Seq::<Digest>::empty()) == zero_hash()
            &&& root_of(seq![a]) == la
            &&& root_of(seq![a, b]) == ab
            &&& root_of(seq![a, b, c]) == blake3_hash(seq![1u8] + ab + cc)
        }),
{
    let la = leaf_node(a@);
    let lb = leaf_node(b@);
    let lc = leaf_node(c@);
    assert(leaf_level(seq![a]) =~= seq![la]);
    assert(leaf_level(seq![a, b]) =~= seq![la, lb]);
    assert(leaf_level(seq![a, b, c]) =~= seq![la, lb, lc]);
    reveal_with_fuel(crate::crypto::merkle::apex, 3);
    let two = crate::crypto::merkle::level_above(seq![la, lb]);
    assert(two =~= seq![crate::crypto::merkle::inner_node(la, lb)]);
    let three = crate::crypto::merkle::level_above(seq![la, lb, lc]);
    assert(three =~= seq![
        crate::crypto::merkle::inner_node(la, lb),
        crate::crypto::merkle::inner_node(lc, lc),
    ]);
    let top = crate::crypto::merkle::level_above(three);
    assert(top =~= seq![crate::crypto::merkle::inner_node(three[0], three[1])]);
}

/// What is wrong with the costs of a derivation, in bounds: at least eight blocks of
/// memory and eight for every lane, at least one pass, and one to so many lanes.
pub proof fn costs_keep_their_bounds(p: KdfParams)
    requires
        p.p_cost < 0x2000_0000,
    ensures
        p.fault() is None <==> p.m_cost >= 8 && p.m_cost >= 8 * p.p_cost && p.t_cost >= 1 && 1
            <= p.p_cost <= 0xFF_FFFF,
{
}

/// A key is derived from the passphrase and the salt under exactly the given costs.
pub proof fn derivation_uses_the_given_costs(p: KdfParams, phrase: Seq<u8>, salt: Seq<char>)
    ensures
        derived(p, phrase, salt) is Ok <==> salt_refusal(salt) is None && p.fault() is None
            && argon2id_key(p.m_cost, p.t_cost, p.p_cost, phrase, salt) is Ok,
        derived(p, phrase, salt) is Ok ==> derived(p, phrase, salt)->Ok_0 == argon2id_key(
            p.m_cost,
            p.t_cost,
            p.p_cost,
            phrase,
            salt,
        )->Ok_0,
{
}

/// New files are sealed at sixty-four mebibytes, three passes and one lane; files
/// that record no costs are opened at nineteen mebibytes, two passes and one lane.
pub proof fn costs_are_these()
    ensures
        KdfParams::current_spec() == (KdfParams { m_cost: 65_536, t_cost: 3, p_cost: 1 }),
        KdfParams::legacy_spec() == (KdfParams { m_cost: 19_456, t_cost: 2, p_cost: 1 }),
{
}

/// A pair that belongs together is read back from its plain file as it was put in,
/// whatever passphrase is offered.
pub proof fn plain_files_give_the_pair_back(
    scheme: CryptoScheme,
    secret: Seq<u8>,
    public: Seq<u8>,
    phrase: Option<Seq<u8>>,
)
    requires
        scheme is MlDsa ==> secret.len() == 32 && public == mldsa_public(secret) && public.len()
            == 1952,
        scheme is SphincsPlus ==> secret.len() == 96 && public == secret.subrange(48, 96),
        address_fault(address_of(public)) is None,
    ensures
        pair_in(plain_file(scheme, secret, public), phrase) == Ok::<
            (CryptoScheme, Seq<u8>, Seq<u8>),
            KeyFileFault,
        >((scheme, secret, public)),
{
    hex_round_trip(secret);
    hex_round_trip(public);
    crate::crypto::keyfile::algo_names_read_back(scheme);
}

/// Whatever file it is read from, a pair comes back only if it belongs together and
/// the file's address is that of its public key; and the public key is the file's.
pub proof fn no_file_gives_a_foreign_pair(f: KeyFileModel, phrase: Option<Seq<u8>>)
    requires
        pair_in(f, phrase) is Ok,
    ensures
        ({
            let (scheme, secret, public) = pair_in(f, phrase)->Ok_0;
            &&& f.address == address_of(public)
            &&& hex_read(f.public_key) is Ok && hex_read(f.public_key)->Ok_0 == public
            &&& scheme is MlDsa ==> f.algo == "ML-DSA-65"@ && secret.len() == 32 && public
                == mldsa_public(secret)
            &&& scheme is SphincsPlus ==> f.algo == "SLH-DSA-SHA2-192s"@ && secret.len() == 96
                && public == secret.subrange(48, 96)
            &&& f.encryption == "plaintext"@ || f.encryption == "aes256gcm-argon2id"@
            &&& f.encryption == "plaintext"@ ==> hex_read(f.secret_key) is Ok && hex_read(
                f.secret_key,
            )->Ok_0 == secret
            &&& f.encryption != "plaintext"@ ==> {
                let costs = match f.kdf_params {
                    Some(p) => p,
                    None => KdfParams { m_cost: 19_456, t_cost: 2, p_cost: 1 },
                };
                &&& phrase is Some && f.kdf_salt is Some && f.nonce is Some
                &&& hex_read(f.nonce->0) is Ok && hex_read(f.secret_key) is Ok
                &&& aes_opened(
                    argon2id_key(
                        costs.m_cost,
                        costs.t_cost,
                        costs.p_cost,
                        phrase->0,
                        f.kdf_salt->0,
                    )->Ok_0,
                    hex_read(f.nonce->0)->Ok_0,
                    hex_read(f.secret_key)->Ok_0,
                ) == Some(secret)
            }
        }),
{
}

/// A sealed file holds the address, the public key and the scheme in the clear, and
/// the secret only sealed.
pub proof fn sealed_files_hold_no_secret(
    scheme: CryptoScheme,
    secret: Seq<u8>,
    public: Seq<u8>,
    key: Seq<u8>,
    salt: Seq<char>,
    nonce: Seq<u8>,
)
    ensures
        ({
            let f = sealed_file(scheme, secret, public, key, salt, nonce);
            &&& f.address == address_of(public)
            &&& f.public_key == hex_chars(public)
            &&& f.encryption == "aes256gcm-argon2id"@
            &&& f.secret_key == hex_chars(crate::crypto::keyfile::aes_sealed(key, nonce, secret))
            &&& f.kdf_salt == Some(salt)
            &&& f.nonce == Some(hex_chars(nonce))
            &&& f.kdf_params == Some(KdfParams { m_cost: 65_536, t_cost: 3, p_cost: 1 })
        }),
{
}

/// Schemes have these tags and lengths.
pub proof fn schemes_have_these_numbers()
    ensures
        CryptoScheme::MlDsa.tag_spec() == 1,
        CryptoScheme::SphincsPlus.tag_spec() == 2,
        CryptoScheme::MlDsa.secret_len() == 32,
        CryptoScheme::MlDsa.public_len() == 1952,
        CryptoScheme::MlDsa.signature_len() == 3309,
        CryptoScheme::SphincsPlus.secret_len() == 96,
        CryptoScheme::SphincsPlus.public_len() == 48,
        CryptoScheme::SphincsPlus.signature_len() == 16224,
{
}

/// A ciphertext of the right length is always opened, with the whole seed; nothing
/// else is.
pub proof fn ciphertexts_are_opened_by_the_seed(seed: Seq<u8>, ciphertext: Seq<u8>)
    ensures
        decapsulation(seed, ciphertext) is Ok <==> seed.len() == 64 && ciphertext.len() == 1088,
        decapsulation(seed, ciphertext) is Ok ==> decapsulation(seed, ciphertext)->Ok_0
            == mlkem_opened(seed, ciphertext),
{
}

} // verus!
