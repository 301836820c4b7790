//! The identity of a node: an account tied to a machine and its master secret.

use vstd::prelude::*;
use vstd::utf8::*;

use crate::crypto::error::{CryptoError, CryptoFailure};
use crate::crypto::keys::{EncryptionKeypair, PublicKeys, SigningKeypair};
use crate::crypto::keystore::{hmac_sha256, Keystore};
use crate::crypto::machine::MachineFingerprint;
use crate::crypto::primitives::{
    blake3_derive, blake3_derived, ed25519_public, hmac_sha256_of, random_bytes, wipe_key,
    x25519_public,
};
use crate::util::bytes::array_of;
use crate::util::hex::{encode, hex_text, lemma_hex_text_ascii, unhex};
use crate::util::text::{lemma_encode_concat, option_text};

verus! {

/// Whether a password is needed to load the identity.
#[derive(Debug, Clone, Copy, PartialEq, Eq)]
pub enum KeystoreState {
    /// There is no store yet, or it has no password.
    NoPasswordNeeded,
    /// The user has to be asked for a password.
    PasswordRequired,
}

/// The public name of an account: the Ed25519 public key in hexadecimal.
#[derive(Debug, Clone, PartialEq, Eq, Hash)]
pub struct AccountId(pub String);

/// Whether the text can be cut after its first eight bytes and before its last eight.
pub open spec fn cuts_short(s: Seq<char>) -> bool {
    let b = encode_utf8(s);
    b.len() > 20 ==> is_char_boundary(b, 8) && is_char_boundary(b, b.len() - 8)
}

impl AccountId {
    /// The name as text.
    pub fn as_str(&self) -> (r: &str)
        ensures
            r@ == self.0@,
    {
        self.0.as_str()
    }

    /// The name as it is shown in full.
    pub fn display(&self) -> (r: String)
        ensures
            r@ == self.0@,
    {
        self.0.clone()
    }

    /// The name for display: of a name of more than twenty bytes the first eight, an
    /// ellipsis and the last eight; a shorter one as it is.
    pub fn short(&self) -> (r: String)
        requires
            cuts_short(self.0@),
        ensures
            ({
                let b = encode_utf8(self.0@);
                if b.len() > 20 {
                    encode_utf8(r@) == b.take(8) + encode_utf8("…"@) + b.skip(b.len() - 8)
                } else {
                    r@ == self.0@
                }
            }),
    {
        let s: &str = self.0.as_str();
        let n: usize = s.as_bytes().len();
        if n > 20 {
            let head: &str = s.split_at(8).0;
            let tail: &str = s.split_at(n - 8).1;
            let mut out: String = head.to_owned();
            out.append("…");
            out.append(tail);
            proof {
                lemma_encode_concat(head@ + "…"@, tail@);
                lemma_encode_concat(head@, "…"@);
            }
            out
        } else {
            self.0.clone()
        }
    }
}

/// The seed of a machine's keys: it depends on the secret and on the machine.
pub open spec fn machine_seed(digest: Seq<u8>, secret: Seq<u8>) -> Seq<u8> {
    hmac_sha256_of(secret, digest)
}

/// The seed of the signing keys.
pub open spec fn signing_seed(digest: Seq<u8>, secret: Seq<u8>) -> Seq<u8> {
    blake3_derived("void-connect/signing/v1"@, machine_seed(digest, secret))
}

/// The seed of the encryption keys.
pub open spec fn encryption_seed(digest: Seq<u8>, secret: Seq<u8>) -> Seq<u8> {
    blake3_derived("void-connect/encryption/v1"@, machine_seed(digest, secret))
}

/// The account of a secret on a machine.
pub open spec fn account_of(digest: Seq<u8>, secret: Seq<u8>) -> Seq<char> {
    hex_text(ed25519_public(signing_seed(digest, secret)))
}

/// The cryptographic identity of a node. It lives in memory only, and is made anew
/// from the secret and the machine at each start.
pub struct Identity {
    pub id: AccountId,
    pub signing: SigningKeypair,
    pub encryption: EncryptionKeypair,
    pub public_keys: PublicKeys,
}

/// What was found where the master secret is kept.
pub enum StoredSecret {
    /// An encrypted store.
    Encrypted(Keystore),
    /// A file that holds the secret as it is, from before there was a store.
    Plain(Vec<u8>),
    /// Nothing: this is the first start.
    Nothing,
}

/// A secret that was found or made, with the store that has to be written, if any.
pub struct ResolvedSecret {
    pub secret: [u8; 32],
    pub keystore: Option<Keystore>,
}

/// The outcome of a change of password: the store to write, and whether the plain
/// file has to go.
pub struct PasswordChange {
    pub keystore: Keystore,
    pub remove_plain: bool,
}

/// Whether that is the outcome of a change of password. What cannot be opened with the
/// current password gives no store to write; else the new store gives out, with the new
/// password, the secret that the old one gave out.
pub open spec fn sets_password(
    r: Result<PasswordChange, CryptoError>,
    stored: StoredSecret,
    machine_id: Seq<char>,
    current: Option<Seq<char>>,
    new: Option<Seq<char>>,
) -> bool {
    match r {
        Ok(c) => {
            &&& c.remove_plain == new is Some
            &&& c.keystore.password_protected == new is Some
            &&& c.keystore.unlocking(machine_id, new) is Ok
            &&& stored matches StoredSecret::Encrypted(ks) ==> c.keystore.unlocking(machine_id, new)
                == ks.unlocking(machine_id, current)
            &&& stored matches StoredSecret::Plain(b) ==> c.keystore.unlocking(machine_id, new)
                == Ok::<Seq<u8>, CryptoFailure>(b@)
        },
        Err(e) => match stored {
            StoredSecret::Encrypted(ks) => ks.unlocking(machine_id, current) == Err::<
                Seq<u8>,
                CryptoFailure,
            >(e@),
            StoredSecret::Plain(b) => b@.len() != 32 && e@ == CryptoFailure::MachineFingerprint(
                "machine.secret повреждён (неверный размер)"@,
            ),
            StoredSecret::Nothing => false,
        },
    }
}

impl Identity {
    /// Whether the parts are those of the given secret on the given machine.
    pub open spec fn belongs_to(&self, digest: Seq<u8>, secret: Seq<u8>) -> bool {
        &&& self.id.0@ == account_of(digest, secret)
        &&& self.signing.seed() == signing_seed(digest, secret)
        &&& self.encryption.seed() == encryption_seed(digest, secret)
        &&& self.public_keys.signing@ == hex_text(ed25519_public(signing_seed(digest, secret)))
        &&& self.public_keys.encryption@ == hex_text(
            x25519_public(encryption_seed(digest, secret)),
        )
    }

    /// Whether a password has to be asked for; a store that could not be read does not
    /// ask for one.
    pub fn keystore_status(loaded: Option<&Keystore>) -> (r: KeystoreState)
        ensures
            r == (if loaded matches Some(ks) && ks.password_protected {
                KeystoreState::PasswordRequired
            } else {
                KeystoreState::NoPasswordNeeded
            }),
    {
        match loaded {
            Some(ks) => if ks.password_protected {
                KeystoreState::PasswordRequired
            } else {
                KeystoreState::NoPasswordNeeded
            },
            None => KeystoreState::NoPasswordNeeded,
        }
    }

    /// Gets the master secret from what was found. An encrypted store is opened; a
    /// plain secret, and a new random one where there is nothing, is put into a store
    /// without a password, which gives the same secret out again.
    pub fn resolve_secret(stored: &StoredSecret, machine_id: &str, password: Option<&str>) -> (r:
        Result<ResolvedSecret, CryptoError>)
        ensures
            match *stored {
                StoredSecret::Encrypted(ks) => match r {
                    Ok(s) => s.keystore is None && ks.unlocking(machine_id@, option_text(password))
                        == Ok::<Seq<u8>, CryptoFailure>(s.secret@),
                    Err(e) => ks.unlocking(machine_id@, option_text(password)) == Err::<
                        Seq<u8>,
                        CryptoFailure,
                    >(e@),
                },
                StoredSecret::Plain(b) => match r {
                    Ok(s) => s.secret@ == b@ && Self::saves_openly(s, machine_id@),
                    Err(e) => b@.len() != 32 && e@ == CryptoFailure::MachineFingerprint(
                        "machine.secret повреждён (неверный размер)"@,
                    ),
                },
                StoredSecret::Nothing => r matches Ok(s) && Self::saves_openly(s, machine_id@),
            },
    {
        match stored {
            StoredSecret::Encrypted(ks) => match ks.unlock(machine_id, password) {
                Ok(secret) => Ok(ResolvedSecret { secret, keystore: None }),
                Err(e) => Err(e),
            },
            StoredSecret::Plain(b) => {
                if b.len() != 32 {
                    return Err(
                        CryptoError::MachineFingerprint(
                            "machine.secret повреждён (неверный размер)".to_owned(),
                        ),
                    );
                }
                let secret: [u8; 32] = array_of(b.as_slice());
                assert(secret@ =~= b@);
                Identity::enclose_secret(secret, machine_id)
            },
            StoredSecret::Nothing => {
                let secret: [u8; 32] = random_bytes();
                Identity::enclose_secret(secret, machine_id)
            },
        }
    }

    /// Whether the resolved secret comes with a store that gives it out on this
    /// machine without a password.
    pub open spec fn saves_openly(s: ResolvedSecret, machine_id: Seq<char>) -> bool {
        s.keystore matches Some(ks) && {
            &&& !ks.password_protected
            &&& ks.unlocking(machine_id, None) == Ok::<Seq<u8>, CryptoFailure>(s.secret@)
        }
    }

    /// Puts a secret into a store without a password.
    fn enclose_secret(secret: [u8; 32], machine_id: &str) -> (r: Result<ResolvedSecret, CryptoError>)
        ensures
            r matches Ok(s) && s.secret@ == secret@ && Self::saves_openly(s, machine_id@),
    {
        match Keystore::create(machine_id, &secret, None) {
            Ok(ks) => Ok(ResolvedSecret { secret, keystore: Some(ks) }),
            Err(e) => Err(e),
        }
    }

    /// Sets, changes or takes away the password. What could not be opened with the
    /// current password stays as it is; else the new store gives out, with the new
    /// password, the secret that the old one gave out. With a password set the plain
    /// file has to go. The secret is overwritten afterwards.
    pub fn set_password(
        stored: &StoredSecret,
        machine_id: &str,
        current: Option<&str>,
        new: Option<&str>,
    ) -> (r: Result<PasswordChange, CryptoError>)
        ensures
            sets_password(r, *stored, machine_id@, option_text(current), option_text(new)),
    {
        match Identity::resolve_secret(stored, machine_id, current) {
            Err(e) => Err(e),
            Ok(mut resolved) => {
                let created: Result<Keystore, CryptoError> = Keystore::create(
                    machine_id,
                    &resolved.secret,
                    new,
                );
                wipe_key(&mut resolved.secret);
                match created {
                    Err(e) => Err(e),
                    Ok(keystore) => Ok(PasswordChange { keystore, remove_plain: new.is_some() }),
                }
            },
        }
    }

    /// Makes the identity of a secret on a machine: always the same one. The seed of the
    /// machine's keys is overwritten afterwards.
    pub fn build_from_secret(machine_secret: &[u8; 32], fingerprint: &MachineFingerprint) -> (r:
        Result<Identity, CryptoError>)
        ensures
            r matches Ok(i) && i.belongs_to(fingerprint.digest@, machine_secret@),
    {
        let mut seed: [u8; 32] = Identity::derive_machine_seed(&fingerprint.digest, machine_secret);
        let signing_seed: [u8; 32] = Identity::kdf(&seed, "void-connect/signing/v1");
        let encryption_seed: [u8; 32] = Identity::kdf(&seed, "void-connect/encryption/v1");
        wipe_key(&mut seed);
        let encryption: EncryptionKeypair = EncryptionKeypair::from_seed(&encryption_seed);
        match SigningKeypair::from_seed(&signing_seed) {
            Err(e) => Err(e),
            Ok(signing) => {
                let public: [u8; 32] = signing.public_bytes();
                let public_keys: PublicKeys = PublicKeys::new(&public, &encryption.public_bytes());
                let id: AccountId = AccountId(encode(&public));
                Ok(Identity { id, signing, encryption, public_keys })
            },
        }
    }

    /// The seed of a machine's keys.
    pub fn derive_machine_seed(fingerprint: &[u8; 32], secret: &[u8; 32]) -> (r: [u8; 32])
        ensures
            r@ == machine_seed(fingerprint@, secret@),
    {
        hmac_sha256(secret, fingerprint)
    }

    /// The seed that a master seed gives in a context.
    pub fn kdf(master: &[u8; 32], context: &str) -> (r: [u8; 32])
        ensures
            r@ == blake3_derived(context@, master@),
    {
        blake3_derive(context, master)
    }

    /// The public signing key.
    pub fn signing_public_bytes(&self) -> (r: [u8; 32])
        ensures
            r@ == ed25519_public(self.signing.seed()),
    {
        self.signing.public_bytes()
    }

    /// The public encryption key.
    pub fn encryption_public_bytes(&self) -> (r: [u8; 32])
        ensures
            r@ == x25519_public(self.encryption.seed()),
    {
        self.encryption.public_bytes()
    }

    /// A short description of the machine.
    pub fn device_info(fingerprint: &MachineFingerprint) -> (r: String)
        ensures
            r@ == "machine-id: "@ + (if fingerprint.machine_id@.len() > 12 {
                fingerprint.machine_id@.take(12)
            } else {
                fingerprint.machine_id@
            }) + "… | hostname: "@ + fingerprint.hostname@,
    {
        fingerprint.summary()
    }
}

/// What a node keeps of its own identity: nothing secret.
#[derive(Debug, Clone, PartialEq, Eq)]
pub struct StoredIdentity {
    pub account_id: AccountId,
    pub public_keys: PublicKeys,
    /// The fingerprint of the machine in hexadecimal, for diagnosis.
    pub device_fingerprint: String,
}

impl StoredIdentity {
    /// The public part of an identity on a machine.
    pub fn from_identity(identity: &Identity, fingerprint: &MachineFingerprint) -> (r:
        StoredIdentity)
        ensures
            r.account_id.0@ == identity.id.0@,
            r.public_keys.signing@ == identity.public_keys.signing@,
            r.public_keys.encryption@ == identity.public_keys.encryption@,
            r.device_fingerprint@ == hex_text(fingerprint.digest@),
    {
        StoredIdentity {
            account_id: AccountId(identity.id.0.clone()),
            public_keys: PublicKeys {
                signing: identity.public_keys.signing.clone(),
                encryption: identity.public_keys.encryption.clone(),
            },
            device_fingerprint: fingerprint.to_hex(),
        }
    }
}

/// The account depends on the secret and the machine alone: stores that give out the
/// same secret, each with its own password or with none, belong to one account.
pub proof fn law_password_keeps_account(
    before: Keystore,
    after: Keystore,
    machine_id: Seq<char>,
    old_password: Option<Seq<char>>,
    new_password: Option<Seq<char>>,
    digest: Seq<u8>,
    a: Identity,
    b: Identity,
)
    requires
        before.unlocking(machine_id, old_password) matches Ok(s) && a.belongs_to(digest, s),
        after.unlocking(machine_id, new_password) matches Ok(s) && b.belongs_to(digest, s),
        before.unlocking(machine_id, old_password) == after.unlocking(machine_id, new_password),
    ensures
        a.id.0@ == b.id.0@,
        a.public_keys.signing@ == b.public_keys.signing@,
        a.public_keys.encryption@ == b.public_keys.encryption@,
{
}

/// A password can be set and taken away again. While it is set it has to be asked for, and
/// the plain file has to go; afterwards the store gives out without a password the secret
/// that it gave out before, so the account is the same.
pub proof fn law_password_comes_and_goes(
    before: Keystore,
    set: PasswordChange,
    unset: PasswordChange,
    machine_id: Seq<char>,
    password: Seq<char>,
)
    requires
        sets_password(
            Ok(set),
            StoredSecret::Encrypted(before),
            machine_id,
            None,
            Some(password),
        ),
        sets_password(
            Ok(unset),
            StoredSecret::Encrypted(set.keystore),
            machine_id,
            Some(password),
            None,
        ),
    ensures
        set.keystore.password_protected,
        set.remove_plain,
        !unset.keystore.password_protected,
        set.keystore.unlocking(machine_id, Some(password)) == before.unlocking(machine_id, None),
        unset.keystore.unlocking(machine_id, None) == before.unlocking(machine_id, None),
        unset.keystore.unlocking(machine_id, None) is Ok,
{
}

/// A change of password with a current password that does not open the store is answered
/// by `WrongPassword`, whatever the new password is, and gives no store to write. None
/// given where one is set never opens it.
pub proof fn law_refused_password_changes_nothing(
    r: Result<PasswordChange, CryptoError>,
    ks: Keystore,
    machine_id: Seq<char>,
    password: Option<Seq<char>>,
    current: Option<Seq<char>>,
    new: Option<Seq<char>>,
)
    requires
        ks.unlocking(machine_id, password) is Ok,
        sets_password(r, StoredSecret::Encrypted(ks), machine_id, current, new),
    ensures
        match (unhex(ks.salt@), unhex(ks.nonce@), unhex(ks.ciphertext@)) {
            (Ok(salt), Ok(nonce), Ok(sealed)) => ks.opened(
                machine_id,
                current,
                salt,
                nonce,
                sealed,
            ) is None <==> (r matches Err(e) && e@ == CryptoFailure::WrongPassword),
            _ => false,
        },
        ks.password_protected && current is None ==> (r matches Err(e) && e@
            == CryptoFailure::WrongPassword),
{
}

/// An account's name is twice as long as the public key that it writes out, and it
/// can be cut for display.
pub proof fn law_account_can_be_shortened(key: Seq<u8>)
    ensures
        hex_text(key).len() == 2 * key.len(),
        cuts_short(hex_text(key)),
{
    let t = hex_text(key);
    let b = encode_utf8(t);
    lemma_hex_text_ascii(key);
    encode_utf8_valid_utf8(t);
    if b.len() > 20 {
        is_ascii_chars_encode_utf8(t);
        assert(t[8] as u8 == b[8]);
        assert(t[b.len() - 8] as u8 == b[b.len() - 8]);
        is_char_boundary_iff_not_is_continuation_byte(b, 8);
        is_char_boundary_iff_not_is_continuation_byte(b, b.len() - 8);
        let c8 = b[8];
        let cn = b[b.len() - 8];
        assert(c8 < 0x80 ==> !is_continuation_byte(c8)) by (bit_vector);
        assert(cn < 0x80 ==> !is_continuation_byte(cn)) by (bit_vector);
    }
}

/// The keys of an account come from the secret and the machine alone: the machine's digest is
/// coded under the secret, and the seed of each pair of keys is derived from that in a context
/// of its own. The account is the public signing key.
pub proof fn law_account_comes_from_secret_and_machine(
    i: Identity,
    digest: Seq<u8>,
    secret: Seq<u8>,
)
    requires
        i.belongs_to(digest, secret),
    ensures
        i.signing.seed() == blake3_derived(
            "void-connect/signing/v1"@,
            hmac_sha256_of(secret, digest),
        ),
        i.encryption.seed() == blake3_derived(
            "void-connect/encryption/v1"@,
            hmac_sha256_of(secret, digest),
        ),
        i.id.0@ == hex_text(ed25519_public(i.signing.seed())),
        i.public_keys.signing@ == i.id.0@,
        i.public_keys.encryption@ == hex_text(x25519_public(i.encryption.seed())),
{
}

/// A password can be set for a secret that was kept plain, and where there was nothing. A
/// plain secret of 32 bytes is the one that the new store gives out; one of another length is
/// refused. Whatever was there, the new store gives something out with the new password, asks
/// for a password just where one was set, and then only does the plain file go.
pub proof fn law_password_for_plain_and_new_secrets(
    r: Result<PasswordChange, CryptoError>,
    plain: Vec<u8>,
    machine_id: Seq<char>,
    current: Option<Seq<char>>,
    new: Option<Seq<char>>,
)
    ensures
        sets_password(r, StoredSecret::Plain(plain), machine_id, current, new) ==> {
            &&& plain@.len() == 32 <==> r is Ok
            &&& r matches Ok(c) ==> c.keystore.unlocking(machine_id, new) == Ok::<
                Seq<u8>,
                CryptoFailure,
            >(plain@)
            &&& r matches Err(e) ==> e@ == CryptoFailure::MachineFingerprint(
                "machine.secret повреждён (неверный размер)"@,
            )
        },
        sets_password(r, StoredSecret::Nothing, machine_id, current, new) ==> {
            &&& r is Ok
            &&& r matches Ok(c) ==> c.keystore.unlocking(machine_id, new) is Ok
            &&& r matches Ok(c) ==> (c.keystore.password_protected <==> new is Some)
            &&& r matches Ok(c) ==> (c.remove_plain <==> new is Some)
        },
{
}

/// A password can be changed with the current one: the store that is made gives out, with the
/// new password, what the old one gave out, and a change is refused just where the old one
/// gives nothing out.
pub proof fn law_password_change_keeps_the_secret(
    r: Result<PasswordChange, CryptoError>,
    ks: Keystore,
    machine_id: Seq<char>,
    current: Option<Seq<char>>,
    new: Option<Seq<char>>,
)
    requires
        sets_password(r, StoredSecret::Encrypted(ks), machine_id, current, new),
    ensures
        r is Ok <==> ks.unlocking(machine_id, current) is Ok,
        r matches Ok(c) ==> c.keystore.unlocking(machine_id, new) == ks.unlocking(
            machine_id,
            current,
        ),
        r matches Ok(c) ==> (c.keystore.password_protected <==> new is Some),
        r matches Ok(c) ==> (c.remove_plain <==> new is Some),
        r matches Err(e) ==> ks.unlocking(machine_id, current) == Err::<Seq<u8>, CryptoFailure>(
            e@,
        ),
{
}

/// A secret that is put into a store without a password is given out again on the same
/// machine without one.
pub proof fn law_open_store_gives_the_secret_out(s: ResolvedSecret, machine_id: Seq<char>)
    requires
        Identity::saves_openly(s, machine_id),
    ensures
        s.keystore is Some,
        !s.keystore->0.password_protected,
        s.keystore->0.unlocking(machine_id, None) == Ok::<Seq<u8>, CryptoFailure>(s.secret@),
{
}

/// A name can be cut for display wherever it has no more than twenty bytes.
pub proof fn law_short_names_need_no_cut(s: Seq<char>)
    requires
        encode_utf8(s).len() <= 20,
    ensures
        cuts_short(s),
{
}

} // verus!
