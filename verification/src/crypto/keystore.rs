//! The store of the master secret: 32 bytes, encrypted under a key that comes from
//! the machine and, if there is one, a password.
//!
//! The store keeps the bytes of the secret as they are. A password only changes the
//! key that they are encrypted under, so it can be set and taken away without a
//! change of the account.

use vstd::prelude::*;
use vstd::utf8::*;

use crate::crypto::aead::{open_bytes, opened_bytes, seal_bytes};
use crate::crypto::error::{CryptoError, CryptoFailure};
use crate::crypto::primitives::{
    hmac_sha256_code, hmac_sha256_of, random_bytes, wipe, xchacha_sealed,
};
use crate::util::bytes::{append_bytes, array_of, bytes_of};
use crate::util::hex::{decode, encode, hex_text, lemma_unhex_hex, unhex};
use crate::util::text::option_text;

verus! {

/// The name of the store's file.
pub const KEYSTORE_FILE: &'static str = "keystore.json";

/// The version of the store's format.
pub const VERSION: u32 = 1;

/// Rounds of the key derivation where there is a password.
pub const PBKDF2_ITERS_PASSWORD: u32 = 600_000;

/// Rounds where there is none: the machine's name is no secret on the machine.
pub const PBKDF2_ITERS_NO_PASSWORD: u32 = 1;

/// The encrypted master secret.
#[derive(Debug, Clone, PartialEq, Eq)]
pub struct Keystore {
    pub version: u32,
    /// Whether a password is needed.
    pub password_protected: bool,
    /// The rounds of the key derivation, as they were when the store was made.
    pub iters: u32,
    /// The salt of the key derivation, in hexadecimal.
    pub salt: String,
    /// The nonce of the cipher, 24 bytes in hexadecimal.
    pub nonce: String,
    /// The encrypted secret with its tag, in hexadecimal.
    pub ciphertext: String,
}

/// What the encryption key is derived from: a fixed context, the machine, and the
/// password if there is one, each after a zero byte.
pub open spec fn kek_material(machine_id: Seq<char>, password: Option<Seq<char>>) -> Seq<u8> {
    let base = encode_utf8("void-connect/keystore-kek/v1"@) + seq![0u8] + encode_utf8(machine_id);
    match password {
        Some(p) => base + seq![0u8] + encode_utf8(p),
        None => base,
    }
}

/// Byte by byte exclusive or.
pub open spec fn xor_bytes(a: Seq<u8>, b: Seq<u8>) -> Seq<u8> {
    Seq::new(a.len(), |i: int| a[i] ^ b[i])
}

/// The code of round `i`, counted from one: each round codes the one before it.
pub open spec fn pbkdf2_round(password: Seq<u8>, salt: Seq<u8>, i: nat) -> Seq<u8>
    decreases i,
{
    if i <= 1 {
        hmac_sha256_of(password, salt + seq![0u8, 0u8, 0u8, 1u8])
    } else {
        hmac_sha256_of(password, pbkdf2_round(password, salt, (i - 1) as nat))
    }
}

/// PBKDF2 with HMAC-SHA256 and one block: the exclusive or of all rounds, of which
/// there is at least one.
pub open spec fn pbkdf2_of(password: Seq<u8>, salt: Seq<u8>, iterations: nat) -> Seq<u8>
    decreases iterations,
{
    if iterations <= 1 {
        pbkdf2_round(password, salt, 1)
    } else {
        xor_bytes(
            pbkdf2_of(password, salt, (iterations - 1) as nat),
            pbkdf2_round(password, salt, iterations),
        )
    }
}

/// The key under which the secret is encrypted.
pub open spec fn kek_of(
    machine_id: Seq<char>,
    password: Option<Seq<char>>,
    salt: Seq<u8>,
    iters: nat,
) -> Seq<u8> {
    pbkdf2_of(kek_material(machine_id, password), salt, iters)
}

/// What is made of a secret that the cipher has opened or refused.
pub open spec fn opened_secret(opened: Option<Seq<u8>>) -> Result<Seq<u8>, CryptoFailure> {
    match opened {
        None => Err(CryptoFailure::WrongPassword),
        Some(p) => if p.len() == 32 {
            Ok(p)
        } else {
            Err(CryptoFailure::Keystore("неверная длина секрета"@))
        },
    }
}

/// The rounds that a new store gets.
pub open spec fn rounds(password: Option<Seq<char>>) -> u32 {
    if password is Some {
        PBKDF2_ITERS_PASSWORD
    } else {
        PBKDF2_ITERS_NO_PASSWORD
    }
}

impl Keystore {
    /// What is read of the sealed secret on the given machine with the given password:
    /// nothing without a password where one is needed; else what the cipher opens.
    pub open spec fn opened(
        &self,
        machine_id: Seq<char>,
        password: Option<Seq<char>>,
        salt: Seq<u8>,
        nonce: Seq<u8>,
        sealed: Seq<u8>,
    ) -> Option<Seq<u8>> {
        if self.password_protected && password is None {
            None
        } else {
            opened_bytes(kek_of(machine_id, password, salt, self.iters as nat), nonce, sealed)
        }
    }

    /// What the store gives out on the given machine with the given password.
    pub open spec fn unlocking(&self, machine_id: Seq<char>, password: Option<Seq<char>>) -> Result<
        Seq<u8>,
        CryptoFailure,
    > {
        match (unhex(self.salt@), unhex(self.nonce@)) {
            (Err(e), _) => Err(CryptoFailure::Hex(e)),
            (_, Err(e)) => Err(CryptoFailure::Hex(e)),
            (Ok(salt), Ok(nonce)) => if nonce.len() != 24 {
                Err(CryptoFailure::Keystore("неверная длина nonce"@))
            } else {
                match unhex(self.ciphertext@) {
                    Err(e) => Err(CryptoFailure::Hex(e)),
                    Ok(sealed) => opened_secret(
                        self.opened(machine_id, password, salt, nonce, sealed),
                    ),
                }
            },
        }
    }

    /// Encrypts a secret under the machine and the password, with a fresh salt and
    /// nonce. It never fails, and what it makes gives the secret out again.
    pub fn create(machine_id: &str, secret: &[u8; 32], password: Option<&str>) -> (r: Result<
        Keystore,
        CryptoError,
    >)
        ensures
            r matches Ok(ks) && {
                &&& ks.version == VERSION
                &&& ks.password_protected == password is Some
                &&& ks.iters == rounds(option_text(password))
                &&& unhex(ks.salt@) matches Ok(salt) && salt.len() == 16
                &&& unhex(ks.nonce@) matches Ok(nonce) && nonce.len() == 24
                &&& ks.unlocking(machine_id@, option_text(password)) == Ok::<
                    Seq<u8>,
                    CryptoFailure,
                >(secret@)
            },
    {
        let salt: [u8; 16] = random_bytes();
        let nonce: [u8; 24] = random_bytes();
        proof {
            lemma_unhex_hex(salt@);
            lemma_unhex_hex(nonce@);
        }
        Keystore::create_with(machine_id, secret, password, &salt, &nonce)
    }

    /// Encrypts a secret with the given salt and nonce.
    pub fn create_with(
        machine_id: &str,
        secret: &[u8; 32],
        password: Option<&str>,
        salt: &[u8; 16],
        nonce: &[u8; 24],
    ) -> (r: Result<Keystore, CryptoError>)
        ensures
            r matches Ok(ks) && {
                &&& ks.version == VERSION
                &&& ks.password_protected == password is Some
                &&& ks.iters == rounds(option_text(password))
                &&& ks.salt@ == hex_text(salt@)
                &&& ks.nonce@ == hex_text(nonce@)
                &&& ks.ciphertext@ == hex_text(
                    xchacha_sealed(
                        kek_of(
                            machine_id@,
                            option_text(password),
                            salt@,
                            rounds(option_text(password)) as nat,
                        ),
                        nonce@,
                        secret@,
                    ),
                )
                &&& ks.unlocking(machine_id@, option_text(password)) == Ok::<
                    Seq<u8>,
                    CryptoFailure,
                >(secret@)
            },
    {
        let iters: u32 = if password.is_some() {
            PBKDF2_ITERS_PASSWORD
        } else {
            PBKDF2_ITERS_NO_PASSWORD
        };
        let kek: [u8; 32] = derive_kek(machine_id, password, salt, iters);
        match seal_bytes(&kek, nonce, secret) {
            Err(m) => Err(CryptoError::Encryption(m)),
            Ok(sealed) => {
                proof {
                    lemma_unhex_hex(salt@);
                    lemma_unhex_hex(nonce@);
                    lemma_unhex_hex(sealed@);
                }
                Ok(
                    Keystore {
                        version: VERSION,
                        password_protected: password.is_some(),
                        iters,
                        salt: encode(salt),
                        nonce: encode(nonce),
                        ciphertext: encode(sealed.as_slice()),
                    },
                )
            },
        }
    }

    /// Gives the secret out. A wrong password and another machine are told by the
    /// cipher's tag; where a password is needed, none is as good as a wrong one.
    pub fn unlock(&self, machine_id: &str, password: Option<&str>) -> (r: Result<
        [u8; 32],
        CryptoError,
    >)
        ensures
            match r {
                Ok(s) => self.unlocking(machine_id@, option_text(password)) == Ok::<
                    Seq<u8>,
                    CryptoFailure,
                >(s@),
                Err(e) => self.unlocking(machine_id@, option_text(password)) == Err::<
                    Seq<u8>,
                    CryptoFailure,
                >(e@),
            },
    {
        let salt: Vec<u8> = match decode(self.salt.as_str()) {
            Ok(b) => b,
            Err(e) => {
                return Err(CryptoError::Hex(e));
            },
        };
        let nonce_bytes: Vec<u8> = match decode(self.nonce.as_str()) {
            Ok(b) => b,
            Err(e) => {
                return Err(CryptoError::Hex(e));
            },
        };
        if nonce_bytes.len() != 24 {
            return Err(CryptoError::Keystore("неверная длина nonce".to_owned()));
        }
        let nonce: [u8; 24] = array_of(nonce_bytes.as_slice());
        assert(nonce@ =~= nonce_bytes@);
        let sealed: Vec<u8> = match decode(self.ciphertext.as_str()) {
            Ok(b) => b,
            Err(e) => {
                return Err(CryptoError::Hex(e));
            },
        };
        if self.password_protected && password.is_none() {
            return Err(CryptoError::WrongPassword);
        }
        let kek: [u8; 32] = derive_kek(machine_id, password, salt.as_slice(), self.iters);
        secret_of(open_bytes(&kek, &nonce, sealed.as_slice()))
    }
}

/// What is made of a secret that the cipher has opened or refused.
pub fn secret_of(opened: Option<Vec<u8>>) -> (r: Result<[u8; 32], CryptoError>)
    ensures
        match r {
            Ok(s) => opened matches Some(p) && p@ == s@ && p@.len() == 32,
            Err(e) => match opened {
                None => e@ == CryptoFailure::WrongPassword,
                Some(p) => p@.len() != 32 && e@ == CryptoFailure::Keystore(
                    "неверная длина секрета"@,
                ),
            },
        },
{
    match opened {
        None => Err(CryptoError::WrongPassword),
        Some(p) => if p.len() == 32 {
            let s: [u8; 32] = array_of(p.as_slice());
            assert(s@ =~= p@);
            Ok(s)
        } else {
            Err(CryptoError::Keystore("неверная длина секрета".to_owned()))
        },
    }
}

/// Derives the key under which the secret is encrypted. What it is derived from is
/// overwritten afterwards.
pub fn derive_kek(machine_id: &str, password: Option<&str>, salt: &[u8], iters: u32) -> (r: [u8; 32])
    ensures
        r@ == kek_of(machine_id@, option_text(password), salt@, iters as nat),
{
    let mut ikm: Vec<u8> = bytes_of("void-connect/keystore-kek/v1".as_bytes());
    ikm.push(0);
    append_bytes(&mut ikm, machine_id.as_bytes());
    if let Some(p) = password {
        ikm.push(0);
        append_bytes(&mut ikm, p.as_bytes());
    }
    assert(ikm@ =~= kek_material(machine_id@, option_text(password)));
    let kek: [u8; 32] = pbkdf2_hmac_sha256(ikm.as_slice(), salt, iters);
    wipe(&mut ikm);
    kek
}

/// PBKDF2 with HMAC-SHA256 and one block. There is at least one round.
pub fn pbkdf2_hmac_sha256(password: &[u8], salt: &[u8], iterations: u32) -> (r: [u8; 32])
    ensures
        r@ == pbkdf2_of(password@, salt@, iterations as nat),
{
    let mut block: Vec<u8> = bytes_of(salt);
    block.push(0);
    block.push(0);
    block.push(0);
    block.push(1);
    assert(block@ =~= salt@ + seq![0u8, 0u8, 0u8, 1u8]);
    let mut u: [u8; 32] = hmac_sha256(password, block.as_slice());
    let mut t: [u8; 32] = u;
    let mut i: u32 = 1;
    while i < iterations
        invariant
            1 <= i,
            i <= iterations || i == 1,
            u@ == pbkdf2_round(password@, salt@, i as nat),
            t@ == pbkdf2_of(password@, salt@, i as nat),
        decreases iterations - i,
    {
        u = hmac_sha256(password, &u);
        i = i + 1;
        t = xored(&t, &u);
    }
    t
}

/// Byte by byte exclusive or.
pub fn xored(a: &[u8; 32], b: &[u8; 32]) -> (r: [u8; 32])
    ensures
        r@ == xor_bytes(a@, b@),
{
    let mut out: [u8; 32] = *a;
    let mut i: usize = 0;
    while i < 32
        invariant
            i <= 32,
            forall|j: int| 0 <= j < i ==> out@[j] == a@[j] ^ b@[j],
            forall|j: int| i <= j < 32 ==> out@[j] == a@[j],
        decreases 32 - i,
    {
        out[i] = a[i] ^ b[i];
        i = i + 1;
    }
    assert(out@ =~= xor_bytes(a@, b@));
    out
}

/// The HMAC-SHA256 code of `data` under `key`.
pub fn hmac_sha256(key: &[u8], data: &[u8]) -> (r: [u8; 32])
    ensures
        r@ == hmac_sha256_of(key@, data@),
{
    hmac_sha256_code(key, data)
}

/// A store with a password gives nothing out without one: on any machine the answer is
/// `WrongPassword`.
pub proof fn law_password_is_needed(
    ks: Keystore,
    machine: Seq<char>,
    password: Seq<char>,
    other_machine: Seq<char>,
)
    requires
        ks.password_protected,
        ks.unlocking(machine, Some(password)) is Ok,
    ensures
        ks.unlocking(other_machine, None) == Err::<Seq<u8>, CryptoFailure>(
            CryptoFailure::WrongPassword,
        ),
{
}

/// A store that gives its secret out on one machine with one password does with any other
/// machine and password what the cipher does with their key: where nothing can be read
/// with it, and only there, the answer is `WrongPassword`. Another machine, another
/// password, or none where there is one, feed other bytes into the derivation of that key,
/// as long as the machines' names hold no zero character.
pub proof fn law_other_machine_or_password_is_refused_by_the_cipher(
    ks: Keystore,
    machine: Seq<char>,
    password: Option<Seq<char>>,
    other_machine: Seq<char>,
    other_password: Option<Seq<char>>,
)
    requires
        ks.unlocking(machine, password) is Ok,
        !encode_utf8(machine).contains(0u8),
        !encode_utf8(other_machine).contains(0u8),
    ensures
        match (unhex(ks.salt@), unhex(ks.nonce@), unhex(ks.ciphertext@)) {
            (Ok(salt), Ok(nonce), Ok(sealed)) => {
                let opened = ks.opened(other_machine, other_password, salt, nonce, sealed);
                &&& ks.unlocking(other_machine, other_password) == opened_secret(opened)
                &&& opened is None <==> ks.unlocking(other_machine, other_password) == Err::<
                    Seq<u8>,
                    CryptoFailure,
                >(CryptoFailure::WrongPassword)
            },
            _ => false,
        },
        (other_machine, other_password) != (machine, password) ==> kek_material(
            other_machine,
            other_password,
        ) != kek_material(machine, password),
{
    if kek_material(other_machine, other_password) == kek_material(machine, password) {
        law_kek_material_tells_apart(other_machine, other_password, machine, password);
    }
}

/// One round of the key derivation is one code over the salt and the block number.
pub proof fn law_one_round_is_one_code(password: Seq<u8>, salt: Seq<u8>)
    ensures
        pbkdf2_of(password, salt, 1) == hmac_sha256_of(password, salt + seq![0u8, 0u8, 0u8, 1u8]),
        pbkdf2_of(password, salt, 0) == pbkdf2_of(password, salt, 1),
{
}

/// Two machines, or two passwords on one machine, or a password and none, never feed
/// the same bytes into the key derivation, as long as the machines' names hold no
/// zero character.
pub proof fn law_kek_material_tells_apart(
    machine_a: Seq<char>,
    password_a: Option<Seq<char>>,
    machine_b: Seq<char>,
    password_b: Option<Seq<char>>,
)
    requires
        !encode_utf8(machine_a).contains(0u8),
        !encode_utf8(machine_b).contains(0u8),
        kek_material(machine_a, password_a) == kek_material(machine_b, password_b),
    ensures
        machine_a == machine_b,
        password_a == password_b,
{
    let head = encode_utf8("void-connect/keystore-kek/v1"@) + seq![0u8];
    let a = encode_utf8(machine_a);
    let b = encode_utf8(machine_b);
    let whole_a = kek_material(machine_a, password_a);
    let whole_b = kek_material(machine_b, password_b);
    let tail_a = whole_a.skip(head.len() as int);
    let tail_b = whole_b.skip(head.len() as int);
    assert(tail_a.take(a.len() as int) =~= a);
    assert(tail_b.take(b.len() as int) =~= b);
    if a.len() < b.len() {
        if password_a is Some {
            assert(tail_a[a.len() as int] == 0u8);
            assert(b[a.len() as int] == 0u8);
        } else {
            assert(tail_a.len() == a.len());
            assert(tail_b.len() >= b.len());
        }
    } else if b.len() < a.len() {
        if password_b is Some {
            assert(tail_b[b.len() as int] == 0u8);
            assert(a[b.len() as int] == 0u8);
        } else {
            assert(tail_b.len() == b.len());
            assert(tail_a.len() >= a.len());
        }
    }
    assert(a.len() == b.len());
    assert(a =~= b);
    encode_utf8_decode_utf8(machine_a);
    encode_utf8_decode_utf8(machine_b);
    match (password_a, password_b) {
        (Some(p), Some(q)) => {
            assert(tail_a.skip(a.len() as int + 1) =~= encode_utf8(p));
            assert(tail_b.skip(b.len() as int + 1) =~= encode_utf8(q));
            encode_utf8_decode_utf8(p);
            encode_utf8_decode_utf8(q);
        },
        (Some(p), None) => {
            assert(tail_a.len() > tail_b.len());
        },
        (None, Some(q)) => {
            assert(tail_b.len() > tail_a.len());
        },
        (None, None) => {},
    }
}

/// What the key is derived from: the context, a zero byte and the machine's name; a password
/// follows after another zero byte.
pub proof fn law_kek_material_is_machine_and_password(machine: Seq<char>, password: Seq<char>)
    ensures
        kek_material(machine, None) == encode_utf8("void-connect/keystore-kek/v1"@) + seq![0u8]
            + encode_utf8(machine),
        kek_material(machine, Some(password)) == kek_material(machine, None) + seq![0u8]
            + encode_utf8(password),
{
}

/// Each further round codes the one before it, and its bytes are put into the result by
/// exclusive or, each at its place.
pub proof fn law_rounds_are_folded(password: Seq<u8>, salt: Seq<u8>, n: nat, i: int)
    requires
        n >= 1,
        0 <= i < pbkdf2_of(password, salt, n).len(),
    ensures
        pbkdf2_round(password, salt, 1) == hmac_sha256_of(
            password,
            salt + seq![0u8, 0u8, 0u8, 1u8],
        ),
        pbkdf2_round(password, salt, n + 1) == hmac_sha256_of(
            password,
            pbkdf2_round(password, salt, n),
        ),
        pbkdf2_of(password, salt, n + 1).len() == pbkdf2_of(password, salt, n).len(),
        pbkdf2_of(password, salt, n + 1)[i] == pbkdf2_of(password, salt, n)[i] ^ pbkdf2_round(
            password,
            salt,
            n + 1,
        )[i],
{
}

/// The key is derived from the machine and the password with the given salt, in as many
/// rounds as are asked for.
pub proof fn law_key_comes_from_machine_and_password(
    machine: Seq<char>,
    password: Option<Seq<char>>,
    salt: Seq<u8>,
    iters: nat,
)
    ensures
        kek_of(machine, password, salt, iters) == pbkdf2_of(
            kek_material(machine, password),
            salt,
            iters,
        ),
{
}

/// A password costs six hundred thousand rounds, whatever it is; none costs one round.
pub proof fn law_rounds_of_a_password(password: Seq<char>)
    ensures
        rounds(Some(password)) == 600_000,
        rounds(None) == 1,
{
}

/// What the store gives out. The salt, the nonce and the sealed secret have to be
/// hexadecimal, the nonce of 24 bytes; where a password is set there has to be one, and the
/// cipher has to open the secret under the key of machine and password; the secret has to
/// have 32 bytes. The first of these that fails is the error, and where none fails the secret
/// is given out.
pub proof fn law_what_the_store_gives_out(
    ks: Keystore,
    machine: Seq<char>,
    password: Option<Seq<char>>,
)
    ensures
        match (unhex(ks.salt@), unhex(ks.nonce@), unhex(ks.ciphertext@)) {
            (Err(e), _, _) => ks.unlocking(machine, password) == Err::<Seq<u8>, CryptoFailure>(
                CryptoFailure::Hex(e),
            ),
            (Ok(_), Err(e), _) => ks.unlocking(machine, password) == Err::<Seq<u8>, CryptoFailure>(
                CryptoFailure::Hex(e),
            ),
            (Ok(salt), Ok(nonce), c) => {
                &&& nonce.len() != 24 ==> ks.unlocking(machine, password) == Err::<
                    Seq<u8>,
                    CryptoFailure,
                >(CryptoFailure::Keystore("неверная длина nonce"@))
                &&& nonce.len() == 24 ==> (c matches Err(e) ==> ks.unlocking(machine, password)
                    == Err::<Seq<u8>, CryptoFailure>(CryptoFailure::Hex(e)))
                &&& nonce.len() == 24 ==> (c matches Ok(sealed) ==> {
                    let read = opened_bytes(
                        kek_of(machine, password, salt, ks.iters as nat),
                        nonce,
                        sealed,
                    );
                    &&& (ks.password_protected && password is None) || read is None
                        <==> ks.unlocking(machine, password) == Err::<Seq<u8>, CryptoFailure>(
                        CryptoFailure::WrongPassword,
                    )
                    &&& !(ks.password_protected && password is None) ==> (read matches Some(p)
                        ==> ks.unlocking(machine, password) == (if p.len() == 32 {
                        Ok::<Seq<u8>, CryptoFailure>(p)
                    } else {
                        Err(CryptoFailure::Keystore("неверная длина секрета"@))
                    }))
                })
            },
        },
{
}

/// Byte by byte exclusive or with the same bytes a second time gives back what was there.
pub proof fn law_exclusive_or_is_undone(a: Seq<u8>, b: Seq<u8>)
    requires
        a.len() == b.len(),
    ensures
        xor_bytes(a, b).len() == a.len(),
        xor_bytes(xor_bytes(a, b), b) == a,
        forall|i: int| 0 <= i < a.len() ==> #[trigger] xor_bytes(a, b)[i] == a[i] ^ b[i],
{
    let x = xor_bytes(xor_bytes(a, b), b);
    assert forall|i: int| 0 <= i < a.len() implies #[trigger] x[i] == a[i] by {
        let p: u8 = a[i];
        let q: u8 = b[i];
        assert((p ^ q) ^ q == p) by (bit_vector);
    }
    assert(x =~= a);
}

/// The store's file and the version of its format.
pub proof fn law_file_of_the_store()
    ensures
        KEYSTORE_FILE@ == "keystore.json"@,
        VERSION == 1,
{
}

} // verus!
