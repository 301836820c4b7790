use chacha20poly1305::aead::{Aead, KeyInit};
use chacha20poly1305::{Key, XChaCha20Poly1305, XNonce};

use void_connect::crypto::encrypt::{opened_or_refused, EncryptedMessage};
use void_connect::crypto::error::CryptoError;
use void_connect::crypto::hash::{blake3, blake3_hex, digest_is, sha256, sha256_hex, verify_chunk};
use void_connect::crypto::identity::{
    AccountId, Identity, KeystoreState, StoredIdentity, StoredSecret,
};
use void_connect::crypto::keys::{EncryptionKeypair, PublicKeys, SigningKeypair};
use void_connect::crypto::keystore::{
    derive_kek, hmac_sha256, pbkdf2_hmac_sha256, secret_of, xored, Keystore,
};
use void_connect::crypto::machine::{
    machine_id, name_in_files, name_in_ioreg, name_in_ioreg_text, name_in_registry,
    name_in_registry_text, MachineFingerprint,
};
use void_connect::crypto::sign::{conclude, SignedMessage};
use void_connect::crypto::verify::{safety_digits, safety_number};
use void_connect::util::hex::HexError;

fn unhex(s: &str) -> Vec<u8> {
    hex::decode(s).unwrap()
}

#[test]
fn sha256_deterministic() {
    assert_eq!(sha256(b"hello"), sha256(b"hello"));
    assert_ne!(sha256(b"hello"), sha256(b"world"));
}

#[test]
fn sha256_of_abc() {
    assert_eq!(
        sha256_hex(b"abc"),
        "ba7816bf8f01cfea414140de5dae2223b00361a396177a9cb410ff61f20015ad"
    );
}

#[test]
fn blake3_of_nothing() {
    let want = "af1349b9f5f9a1a6a0404dea36dcc9499bcb25c9adc112b7cc9a93cae41f3262";
    assert_eq!(blake3_hex(b""), want);
    assert_eq!(blake3(b"").to_vec(), unhex(want));
}

#[test]
fn chunk_verify_works() {
    let data = b"chunk data";
    let good_hash = sha256_hex(data);
    assert!(verify_chunk(data, &good_hash));
    assert!(!verify_chunk(b"other data", &good_hash));
}

#[test]
fn digests_are_compared_in_small_letters() {
    let digest = [0xABu8; 32];
    assert!(digest_is(&digest, &"ab".repeat(32)));
    assert!(!digest_is(&digest, &"AB".repeat(32)));
    assert!(!digest_is(&digest, &"ab".repeat(31)));
}

#[test]
fn encrypt_decrypt_roundtrip() {
    let alice = EncryptionKeypair::generate();
    let bob = EncryptionKeypair::generate();
    let plaintext = b"Hello, Bob!";
    let encrypted = EncryptedMessage::encrypt(plaintext, &bob.public_bytes(), &alice).unwrap();
    let decrypted = encrypted.decrypt(&bob).unwrap();
    assert_eq!(decrypted, plaintext);
}

#[test]
fn wrong_recipient_fails() {
    let alice = EncryptionKeypair::generate();
    let bob = EncryptionKeypair::generate();
    let eve = EncryptionKeypair::generate();
    let encrypted = EncryptedMessage::encrypt(b"secret", &bob.public_bytes(), &alice).unwrap();
    assert!(encrypted.decrypt(&eve).is_err());
}

#[test]
fn same_nonce_same_ciphertext() {
    let a = EncryptionKeypair::from_seed(&[1; 32]);
    let b = EncryptionKeypair::from_seed(&[2; 32]);
    let one = EncryptedMessage::encrypt_with_nonce(b"x", &b.public_bytes(), &a, &[7; 24]).unwrap();
    let two = EncryptedMessage::encrypt_with_nonce(b"x", &b.public_bytes(), &a, &[7; 24]).unwrap();
    assert_eq!(one, two);
    assert_eq!(one.nonce, "07".repeat(24));
    assert_eq!(one.ciphertext.len(), 2 * (1 + 16));
    assert_eq!(one.sender_pubkey, hex::encode(a.public_bytes()));
    assert_ne!(one.ciphertext[..2], hex::encode(b"x"));
}

#[test]
fn both_sides_agree_on_a_secret() {
    let a = EncryptionKeypair::from_seed(&[1; 32]);
    let b = EncryptionKeypair::from_seed(&[2; 32]);
    assert_eq!(a.diffie_hellman(&b.public_bytes()), b.diffie_hellman(&a.public_bytes()));
    assert_ne!(a.public_bytes(), [1; 32]);
}

#[test]
fn broken_messages_are_refused() {
    let a = EncryptionKeypair::from_seed(&[1; 32]);
    let b = EncryptionKeypair::from_seed(&[2; 32]);
    let good = EncryptedMessage::encrypt(b"x", &b.public_bytes(), &a).unwrap();
    let mut m = good.clone();
    m.sender_pubkey = "zz".into();
    assert_eq!(
        m.decrypt(&b),
        Err(CryptoError::Hex(HexError::InvalidHexCharacter { c: 'z', index: 0 }))
    );
    let mut m = good.clone();
    m.sender_pubkey = "00".into();
    m.nonce = "00".into();
    assert!(m.has_fitting_nonce());
    assert_eq!(m.decrypt(&b), Err(CryptoError::Decryption));
    let mut m = good.clone();
    m.nonce = "0".into();
    assert!(m.has_fitting_nonce());
    assert_eq!(m.decrypt(&b), Err(CryptoError::Hex(HexError::OddLength)));
    let mut m = good.clone();
    m.nonce = "00".into();
    assert!(!m.has_fitting_nonce());
    let mut m = good.clone();
    m.ciphertext = "0g".into();
    assert_eq!(
        m.decrypt(&b),
        Err(CryptoError::Hex(HexError::InvalidHexCharacter { c: 'g', index: 1 }))
    );
    let mut m = good.clone();
    m.ciphertext = "".into();
    assert_eq!(m.decrypt(&b), Err(CryptoError::Decryption));
    assert!(good.has_fitting_nonce());
    assert_eq!(opened_or_refused(None), Err(CryptoError::Decryption));
    assert_eq!(opened_or_refused(Some(vec![1])), Ok(vec![1]));
}

#[test]
fn kdf_contexts_are_independent() {
    let master = [42u8; 32];
    let s = Identity::kdf(&master, "void-connect/signing/v1");
    let e = Identity::kdf(&master, "void-connect/encryption/v1");
    assert_ne!(s, e);
}

#[test]
fn pbkdf2_c1_equals_single_hmac() {
    let pw = b"password";
    let salt = b"saltsalt";
    let got = pbkdf2_hmac_sha256(pw, salt, 1);
    let mut block = salt.to_vec();
    block.extend_from_slice(&1u32.to_be_bytes());
    let want = hmac_sha256(pw, &block);
    assert_eq!(got, want);
    assert_eq!(pbkdf2_hmac_sha256(pw, salt, 0), want);
}

#[test]
fn pbkdf2_more_iterations_differ_and_deterministic() {
    let a = pbkdf2_hmac_sha256(b"p", b"s", 1000);
    let b = pbkdf2_hmac_sha256(b"p", b"s", 1000);
    let c = pbkdf2_hmac_sha256(b"p", b"s", 1001);
    assert_eq!(a, b, "детерминирован");
    assert_ne!(a, c, "разное число итераций → разный ключ");
}

#[test]
fn known_codes() {
    assert_eq!(
        hmac_sha256(b"key", b"The quick brown fox jumps over the lazy dog").to_vec(),
        unhex("f7bc83f430538424b13298e6aa6fb143ef4d59a14946175997479dbc2d1a3cd8")
    );
    assert_eq!(
        pbkdf2_hmac_sha256(b"password", b"salt", 1).to_vec(),
        unhex("120fb6cffcf8b32c43e7225256c4f837a86548c92ccc35480805987cb70be17b")
    );
    assert_eq!(
        pbkdf2_hmac_sha256(b"password", b"salt", 2).to_vec(),
        unhex("ae4d0c95af6b46d32d0adff928f06dd02a303f8ef3c251dfd6e2d85a95474c43")
    );
    assert_eq!(
        pbkdf2_hmac_sha256(b"password", b"salt", 4096).to_vec(),
        unhex("c5e478d59288c841aa530db6845c4c8d962893a001ce4e11a4963873aa98134a")
    );
    assert_eq!(xored(&[0xF0; 32], &[0xFF; 32]), [0x0F; 32]);
}

const MID: &str = "machine-id-AAAA";

#[test]
fn roundtrip_no_password() {
    let secret = [7u8; 32];
    let ks = Keystore::create(MID, &secret, None).unwrap();
    assert!(!ks.password_protected);
    let out = ks.unlock(MID, None).unwrap();
    assert_eq!(out, secret);
}

/// A store with a password and few rounds, which does not take long to open.
fn quick_store(secret: &[u8; 32], password: &str) -> Keystore {
    let (salt, nonce, iters) = ([2u8; 16], [3u8; 24], 2_000u32);
    let kek = derive_kek(MID, Some(password), &salt, iters);
    let sealed = XChaCha20Poly1305::new(Key::from_slice(&kek))
        .encrypt(XNonce::from_slice(&nonce), secret.as_ref())
        .unwrap();
    Keystore {
        version: 1,
        password_protected: true,
        iters,
        salt: hex::encode(salt),
        nonce: hex::encode(nonce),
        ciphertext: hex::encode(sealed),
    }
}

#[test]
fn roundtrip_with_password() {
    let secret = [9u8; 32];
    let ks = Keystore::create(MID, &secret, Some("hunter2")).unwrap();
    assert!(ks.password_protected);
    assert_eq!(ks.unlock(MID, Some("hunter2")).unwrap(), secret);
    let ks = quick_store(&secret, "hunter2");
    assert_eq!(ks.unlock(MID, Some("hunter2")).unwrap(), secret);
    assert!(matches!(ks.unlock(MID, Some("wrong")), Err(CryptoError::WrongPassword)));
    assert!(matches!(ks.unlock(MID, None), Err(CryptoError::WrongPassword)));
}

#[test]
fn other_machine_cannot_unlock() {
    let secret = [3u8; 32];
    let ks = Keystore::create("machine-A", &secret, None).unwrap();
    assert!(matches!(ks.unlock("machine-B", None), Err(CryptoError::WrongPassword)));
}

#[test]
fn a_store_that_needs_a_password_is_not_opened_without() {
    let mut ks = Keystore::create(MID, &[4; 32], None).unwrap();
    assert_eq!(ks.unlock(MID, None).unwrap(), [4; 32]);
    ks.password_protected = true;
    assert_eq!(ks.unlock(MID, None), Err(CryptoError::WrongPassword));
    let stored = StoredSecret::Encrypted(ks);
    assert!(matches!(
        Identity::set_password(&stored, MID, None, Some("new")),
        Err(CryptoError::WrongPassword)
    ));
}

#[test]
fn stores_say_how_they_were_made() {
    let open = Keystore::create_with(MID, &[1; 32], None, &[2; 16], &[3; 24]).unwrap();
    assert_eq!((open.version, open.iters), (1, 1));
    assert_eq!(open.salt, "02".repeat(16));
    assert_eq!(open.nonce, "03".repeat(24));
    assert_eq!(open.ciphertext.len(), 2 * 48);
    let locked = Keystore::create_with(MID, &[1; 32], Some(""), &[2; 16], &[3; 24]).unwrap();
    assert_eq!(locked.iters, 600_000);
    assert!(locked.password_protected);
}

#[test]
fn broken_stores_are_refused() {
    let good = Keystore::create(MID, &[1; 32], None).unwrap();
    let mut ks = good.clone();
    ks.salt = "0".into();
    assert_eq!(ks.unlock(MID, None), Err(CryptoError::Hex(HexError::OddLength)));
    let mut ks = good.clone();
    ks.nonce = "xx".into();
    assert_eq!(
        ks.unlock(MID, None),
        Err(CryptoError::Hex(HexError::InvalidHexCharacter { c: 'x', index: 0 }))
    );
    let mut ks = good.clone();
    ks.nonce = "00".into();
    assert_eq!(ks.unlock(MID, None), Err(CryptoError::Keystore("неверная длина nonce".into())));
    let mut ks = good.clone();
    ks.ciphertext = "é".into();
    assert_eq!(
        ks.unlock(MID, None),
        Err(CryptoError::Hex(HexError::InvalidHexCharacter { c: 'Ã', index: 0 }))
    );
    assert_eq!(secret_of(None), Err(CryptoError::WrongPassword));
    assert_eq!(
        secret_of(Some(vec![1; 31])),
        Err(CryptoError::Keystore("неверная длина секрета".into()))
    );
    assert_eq!(secret_of(Some(vec![1; 32])), Ok([1; 32]));
}

fn fingerprint(name: &str) -> MachineFingerprint {
    MachineFingerprint::collect(name.to_string(), Some("host".to_string()))
}

#[test]
fn fingerprint_is_deterministic() {
    let d1 = MachineFingerprint::compute_digest("abc-123-id");
    let d2 = MachineFingerprint::compute_digest("abc-123-id");
    assert_eq!(d1, d2);
}

#[test]
fn different_machines_differ() {
    let d1 = MachineFingerprint::compute_digest("machine-A");
    let d2 = MachineFingerprint::compute_digest("machine-B");
    assert_ne!(d1, d2);
}

#[test]
fn fingerprint_material_has_a_tag() {
    let fp = fingerprint("m");
    assert_eq!(fp.digest, sha256(b"m\x00void-connect-fp-v2"));
    assert_eq!(fp.to_hex(), sha256_hex(b"m\x00void-connect-fp-v2"));
}

#[test]
fn machine_summary() {
    let fp = fingerprint("0123456789abcdef");
    assert_eq!(fp.summary(), "machine-id: 0123456789ab… | hostname: host");
    assert_eq!(Identity::device_info(&fp), fp.summary());
    let fp = MachineFingerprint::collect("short".into(), None);
    assert_eq!(fp.summary(), "machine-id: short… | hostname: unknown-host");
}

#[test]
fn machine_id_is_nonempty() {
    assert!(!machine_id(None, None).is_empty());
    assert_eq!(machine_id(None, None), "unknown-machine");
    assert_eq!(machine_id(None, Some("h".into())), "h");
    assert_eq!(machine_id(Some("k".into()), Some("h".into())), "k");
}

#[test]
fn machine_name_is_the_first_filled_file() {
    let files = vec![Some(" \n".to_string()), None, Some(" abc\n".to_string())];
    assert_eq!(name_in_files(&files), Some("abc".to_string()));
    assert_eq!(name_in_files(&vec![None]), None);
}

#[test]
fn machine_name_in_listings() {
    let ioreg = "+-o Root\r\n  \"IOPlatformSerialNumber\" = \"X\"\n    \"IOPlatformUUID\" = \"A-B-C\"\n";
    assert_eq!(name_in_ioreg_text(ioreg), Some("A-B-C".to_string()));
    assert_eq!(name_in_ioreg(ioreg.as_bytes()), Some("A-B-C".to_string()));
    assert_eq!(name_in_ioreg_text("IOPlatformUUID = none"), None);
    assert_eq!(name_in_ioreg_text("\"IOPlatformUUID\" = \"\""), None);
    let reg = "HKEY\r\n    MachineGuid    REG_SZ    1234-5678  \r\n";
    assert_eq!(name_in_registry_text(reg), Some("1234-5678".to_string()));
    assert_eq!(name_in_registry(reg.as_bytes()), Some("1234-5678".to_string()));
    assert_eq!(name_in_registry_text("nothing"), None);
    assert_eq!(name_in_registry(b"\xFF MachineGuid \xFE"), Some("\u{fffd}".to_string()));
}

#[test]
fn account_id_format() {
    let id = Identity::build_from_secret(&[5; 32], &fingerprint("m")).unwrap();
    assert_eq!(id.id.0.len(), 64);
    assert!(id.id.0.chars().all(|c| c.is_ascii_hexdigit()));
    assert_eq!(id.id.0, hex::encode(id.signing_public_bytes()));
    assert_eq!(id.public_keys.signing, id.id.0);
    assert_eq!(id.public_keys.encryption, hex::encode(id.encryption_public_bytes()));
}

#[test]
fn same_dir_same_identity() {
    let first = Identity::resolve_secret(&StoredSecret::Nothing, MID, None).unwrap();
    let stored = StoredSecret::Encrypted(first.keystore.unwrap());
    let second = Identity::resolve_secret(&stored, MID, None).unwrap();
    let id1 = Identity::build_from_secret(&first.secret, &fingerprint(MID)).unwrap();
    let id2 = Identity::build_from_secret(&second.secret, &fingerprint(MID)).unwrap();
    assert_eq!(id1.id, id2.id);
}

#[test]
fn different_secrets_different_identity() {
    let first = Identity::resolve_secret(&StoredSecret::Nothing, MID, None).unwrap();
    let second = Identity::resolve_secret(&StoredSecret::Nothing, MID, None).unwrap();
    let id1 = Identity::build_from_secret(&first.secret, &fingerprint(MID)).unwrap();
    let id2 = Identity::build_from_secret(&second.secret, &fingerprint(MID)).unwrap();
    assert_ne!(id1.id, id2.id);
}

#[test]
fn account_depends_on_machine() {
    let a = Identity::build_from_secret(&[5; 32], &fingerprint("m")).unwrap();
    let d = Identity::build_from_secret(&[5; 32], &fingerprint("n")).unwrap();
    assert_ne!(a.id, d.id);
    let seed = Identity::derive_machine_seed(&fingerprint("m").digest, &[5; 32]);
    assert_eq!(seed, hmac_sha256(&[5; 32], &fingerprint("m").digest));
    let s = StoredIdentity::from_identity(&a, &fingerprint("m"));
    assert_eq!(s.account_id, a.id);
    assert_eq!(s.public_keys, a.public_keys);
    assert_eq!(s.device_fingerprint, fingerprint("m").to_hex());
}

#[test]
fn short_account_names() {
    let id = AccountId("0123456789abcdef01234".into());
    assert_eq!(id.short(), "01234567…def01234");
    assert_eq!(AccountId("01234567890123456789".into()).short(), "01234567890123456789");
    assert_eq!(id.as_str(), "0123456789abcdef01234");
    assert_eq!(id.display(), "0123456789abcdef01234");
}

#[test]
fn first_run_creates_keystore_not_plaintext() {
    let r = Identity::resolve_secret(&StoredSecret::Nothing, MID, None).unwrap();
    let ks = r.keystore.unwrap();
    assert_eq!(Identity::keystore_status(Some(&ks)), KeystoreState::NoPasswordNeeded);
    assert_eq!(ks.unlock(MID, None).unwrap(), r.secret);
    assert_eq!(Identity::keystore_status(None), KeystoreState::NoPasswordNeeded);
}

#[test]
fn legacy_plaintext_migrates_preserving_identity() {
    let plain = StoredSecret::Plain(vec![5; 32]);
    let first = Identity::resolve_secret(&plain, MID, None).unwrap();
    assert_eq!(first.secret, [5; 32]);
    let stored = StoredSecret::Encrypted(first.keystore.unwrap());
    let second = Identity::resolve_secret(&stored, MID, None).unwrap();
    assert_eq!(second.secret, first.secret);
    assert!(second.keystore.is_none());
    assert!(matches!(
        Identity::resolve_secret(&StoredSecret::Plain(vec![5; 31]), MID, None),
        Err(CryptoError::MachineFingerprint(m)) if m == "machine.secret повреждён (неверный размер)"
    ));
}

#[test]
fn setting_password_preserves_identity_and_requires_it() {
    let stored = StoredSecret::Encrypted(Keystore::create(MID, &[5; 32], None).unwrap());
    let locked = Identity::set_password(&stored, MID, None, Some("s3cret")).unwrap();
    assert!(locked.remove_plain);
    assert_eq!(
        Identity::keystore_status(Some(&locked.keystore)),
        KeystoreState::PasswordRequired
    );
    let stored = StoredSecret::Encrypted(locked.keystore);
    assert_eq!(Identity::resolve_secret(&stored, MID, Some("s3cret")).unwrap().secret, [5; 32]);
    let stored = StoredSecret::Encrypted(quick_store(&[5; 32], "s3cret"));
    assert!(matches!(
        Identity::resolve_secret(&stored, MID, None),
        Err(CryptoError::WrongPassword)
    ));
    let opened = Identity::set_password(&stored, MID, Some("s3cret"), None).unwrap();
    assert!(!opened.remove_plain);
    assert_eq!(
        Identity::keystore_status(Some(&opened.keystore)),
        KeystoreState::NoPasswordNeeded
    );
    assert_eq!(opened.keystore.unlock(MID, None).unwrap(), [5; 32]);
}

#[test]
fn wrong_current_password_cannot_change() {
    let stored = StoredSecret::Encrypted(quick_store(&[5; 32], "right"));
    assert!(matches!(
        Identity::set_password(&stored, MID, Some("wrong"), Some("new")),
        Err(CryptoError::WrongPassword)
    ));
}

#[test]
fn sign_and_verify() {
    let keypair = SigningKeypair::generate();
    let msg = SignedMessage::sign(b"hello void".to_vec(), &keypair).unwrap();
    assert!(msg.verify().is_ok());
    assert_eq!(msg.verify_and_payload().unwrap(), b"hello void");
}

#[test]
fn tampered_payload_fails() {
    let keypair = SigningKeypair::generate();
    let mut msg = SignedMessage::sign(b"hello".to_vec(), &keypair).unwrap();
    msg.payload[0] ^= 0xFF;
    assert!(msg.verify().is_err());
    assert_eq!(msg.verify_and_payload(), Err(CryptoError::InvalidSignature));
}

#[test]
fn wrong_key_fails() {
    let kp1 = SigningKeypair::generate();
    let kp2 = SigningKeypair::generate();
    let mut msg = SignedMessage::sign(b"hello".to_vec(), &kp1).unwrap();
    msg.signer = hex::encode(kp2.public_bytes());
    assert!(msg.verify().is_err());
}

#[test]
fn known_signature() {
    let seed: [u8; 32] = unhex("9d61b19deffd5a60ba844af492ec2cc44449c5697b326919703bac031cae7f60")
        .try_into()
        .unwrap();
    let keypair = SigningKeypair::from_seed(&seed).unwrap();
    assert_eq!(keypair.secret_bytes(), seed);
    assert_eq!(
        hex::encode(keypair.public_bytes()),
        "d75a980182b10ab7d54bfed3c964073a0ee172f3daa62325af021a68f707511a"
    );
    assert_eq!(
        hex::encode(keypair.sign(b"")),
        "e5564300c360ac729086e2cc806e828a84877f1eb8e5d974d873e065224901555fb8821590a33bacc61e39701cf9b46bd25bf5f0595bbe24655141438e7a100b"
    );
}

#[test]
fn broken_signatures_are_refused() {
    let keypair = SigningKeypair::from_seed(&[1; 32]).unwrap();
    let good = SignedMessage::sign(b"x".to_vec(), &keypair).unwrap();
    let mut m = good.clone();
    m.signature = "0".into();
    m.signer = "0".into();
    assert_eq!(m.verify(), Err(CryptoError::Hex(HexError::OddLength)));
    let mut m = good.clone();
    m.signature = "00".into();
    m.signer = "0".into();
    assert_eq!(m.verify(), Err(CryptoError::Signing("Неверная длина подписи".into())));
    let mut m = good.clone();
    m.signer = "0".into();
    assert_eq!(m.verify(), Err(CryptoError::Hex(HexError::OddLength)));
    let mut m = good.clone();
    m.signer = "00".into();
    assert_eq!(m.verify(), Err(CryptoError::KeyGeneration("Неверная длина ключа".into())));
    assert_eq!(conclude(true), Ok(()));
    assert_eq!(conclude(false), Err(CryptoError::InvalidSignature));
}

#[test]
fn keys_that_do_not_decode_are_refused() {
    let keypair = SigningKeypair::from_seed(&[1; 32]).unwrap();
    let mut m = SignedMessage::sign(b"x".to_vec(), &keypair).unwrap();
    let mut refused = 0;
    for b in 0..=255u8 {
        m.signer = hex::encode([b; 32]);
        match m.verify() {
            Err(CryptoError::KeyGeneration(t)) => {
                assert_eq!(t, "signature error: Cannot decompress Edwards point");
                refused += 1;
            },
            Err(CryptoError::InvalidSignature) => {},
            other => panic!("{other:?}"),
        }
    }
    assert!(refused > 0 && refused < 256);
}

#[test]
fn public_keys_read_back() {
    let keys = PublicKeys::new(&[1; 32], &[2; 32]);
    assert_eq!(keys.signing_bytes(), Ok([1; 32]));
    assert_eq!(keys.encryption_bytes(), Ok([2; 32]));
    let bad = PublicKeys { signing: "00".into(), encryption: "AB".into() };
    assert_eq!(
        bad.signing_bytes(),
        Err(CryptoError::KeyGeneration("Неверная длина signing key".into()))
    );
    assert_eq!(
        bad.encryption_bytes(),
        Err(CryptoError::KeyGeneration("Неверная длина encryption key".into()))
    );
    let upper = PublicKeys { signing: "AB".repeat(32), encryption: "q".into() };
    assert_eq!(upper.signing_bytes(), Ok([0xAB; 32]));
    assert_eq!(upper.encryption_bytes(), Err(CryptoError::Hex(HexError::OddLength)));
}

#[test]
fn symmetric_independent_of_order() {
    assert_eq!(safety_number("aa11", "bb22"), safety_number("bb22", "aa11"));
}

#[test]
fn differs_per_pair() {
    assert_ne!(safety_number("aa", "bb"), safety_number("aa", "cc"));
    assert_ne!(safety_number("me", "friend"), safety_number("me", "impostor"));
}

#[test]
fn format_is_8_groups_of_5_digits() {
    let s = safety_number("x", "y");
    let groups: Vec<&str> = s.split(' ').collect();
    assert_eq!(groups.len(), 8);
    assert!(groups.iter().all(|g| g.len() == 5 && g.chars().all(|c| c.is_ascii_digit())));
}

#[test]
fn safety_digits_of_digests() {
    assert_eq!(safety_digits(&[0; 32]), "00000 00000 00000 00000 00000 00000 00000 00000");
    assert_eq!(safety_digits(&[255; 32]), "67295 67295 67295 67295 67295 67295 67295 67295");
    let mut d = [0u8; 32];
    d[0] = 1;
    d[5] = 1;
    d[31] = 1;
    assert_eq!(safety_digits(&d), "00001 00256 00000 00000 00000 00000 00000 77216");
    let digest = blake3(b"void-connect/safety-number/v1aa\nbb");
    assert_eq!(safety_number("bb", "aa"), safety_digits(&digest));
}
