//! Per-voter key derivation and the authenticated cipher that seals ballots.
//!
//! Every voter's secp256k1 keypair is derived from one master secret, the
//! domain and the voter's identifier, so no key is ever stored.

use hkdf::Hkdf;
use sha2::Sha256;
use vstd::prelude::*;
use vstd::string::StringExecFns;
use vstd::utf8::{decode_utf8, encode_utf8, encode_utf8_decode_utf8, valid_utf8};

verus! {

/// What went wrong with a key or a message.
#[derive(Clone, Copy, PartialEq, Eq, Structural, Debug)]
pub enum CryptoFailure {
    /// The derived seed is not a valid secp256k1 scalar.
    InvalidSecretKey,
    /// The cipher could not seal the message under the given public key.
    EncryptionFailed,
    /// The ciphertext is malformed or its authentication tag does not verify.
    DecryptionFailed,
    /// The opened message is not UTF-8 text.
    InvalidUtf8,
}

/// Why a key could not be derived or a message not be sealed or opened.
#[derive(Clone, Debug)]
pub struct CryptoError {
    /// What went wrong.
    pub failure: CryptoFailure,
    /// What the curve, the cipher or the decoder said of it.
    pub cause: String,
}

impl View for CryptoError {
    type V = CryptoFailure;

    open spec fn view(&self) -> CryptoFailure {
        self.failure
    }
}

impl CryptoFailure {
    /// Whether the failure arose while deriving a key, before any
    /// ciphertext was read.
    pub open spec fn spec_is_key_derivation(self) -> bool {
        self == CryptoFailure::InvalidSecretKey
    }

    /// Whether the failure arose while deriving a key, before any
    /// ciphertext was read.
    #[verifier::when_used_as_spec(spec_is_key_derivation)]
    pub fn is_key_derivation(self) -> (derivation: bool)
        ensures
            derivation == self.spec_is_key_derivation(),
    {
        match self {
            CryptoFailure::InvalidSecretKey => true,
            _ => false,
        }
    }

    /// What the failure is called.
    pub open spec fn title(self) -> Seq<char> {
        match self {
            CryptoFailure::InvalidSecretKey => "Invalid secret key"@,
            CryptoFailure::EncryptionFailed => "ECIES encryption failed"@,
            CryptoFailure::DecryptionFailed => "ECIES decryption failed"@,
            CryptoFailure::InvalidUtf8 => "Invalid UTF-8"@,
        }
    }
}

impl CryptoError {
    /// What the error says to a reader: what went wrong, and its cause.
    pub open spec fn message_text(self) -> Seq<char> {
        self.failure.title() + ": "@ + self.cause@
    }

    /// What the error says to a reader.
    pub fn message(&self) -> (text: String)
        ensures
            text@ == self.message_text(),
    {
        let mut text = match self.failure {
            CryptoFailure::InvalidSecretKey => String::from_str("Invalid secret key"),
            CryptoFailure::EncryptionFailed => String::from_str("ECIES encryption failed"),
            CryptoFailure::DecryptionFailed => String::from_str("ECIES decryption failed"),
            CryptoFailure::InvalidUtf8 => String::from_str("Invalid UTF-8"),
        };
        text.append(": ");
        text.append(self.cause.as_str());
        text
    }
}

/// The errors of the curve and of the cipher.
#[verifier::external_type_specification]
#[verifier::external_body]
pub struct ExSecpError(libsecp256k1::Error);

/// The error of the UTF-8 decoder.
#[verifier::external_type_specification]
#[verifier::external_body]
pub struct ExFromUtf8Error(std::string::FromUtf8Error);

/// The 32 bytes that HKDF-SHA256 without salt expands `ikm` to under `info`:
/// the output of `Hkdf::<Sha256>::new(None, ikm)` followed by `expand`.
pub uninterp spec fn hkdf_sha256_seed(ikm: Seq<u8>, info: Seq<u8>) -> Seq<u8>;

/// The compressed public point of the secp256k1 scalar `secret`, if `secret`
/// is a valid scalar: what `SecretKey::parse_slice`, then
/// `PublicKey::from_secret_key`, then `serialize_compressed` come to.
pub uninterp spec fn secp256k1_public_key(secret: Seq<u8>) -> Option<Seq<u8>>;

/// The message that `ciphertext` opens to under `secret_key`, if it
/// authenticates.
pub uninterp spec fn ecies_opened(secret_key: Seq<u8>, ciphertext: Seq<u8>) -> Option<Seq<u8>>;

/// The longest message that the cipher seals, in bytes.
pub const MAX_MESSAGE_LEN: u64 = 0x10_0000_0000;

/// The key derivation label of `voter` within `domain`.
pub open spec fn key_label(domain: Seq<char>, voter: Seq<char>) -> Seq<char> {
    seq!['e', 'c', 'i', 'e', 's', ':'] + domain + seq![':'] + voter
}

/// The keypair of `voter` within `domain` under `secret`: the private scalar
/// and the compressed public point. Derivation fails only where the seed is
/// no valid scalar.
pub open spec fn derived_keypair(secret: Seq<u8>, domain: Seq<char>, voter: Seq<char>) -> Result<
    (Seq<u8>, Seq<u8>),
    CryptoFailure,
> {
    let seed = hkdf_sha256_seed(secret, encode_utf8(key_label(domain, voter)));
    match secp256k1_public_key(seed) {
        None => Err(CryptoFailure::InvalidSecretKey),
        Some(public) => Ok((seed, public)),
    }
}

/// Whether `public_key` is the compressed public point of some secret key.
pub open spec fn is_public_key(public_key: Seq<u8>) -> bool {
    exists|secret_key: Seq<u8>| #[trigger] secp256k1_public_key(secret_key) == Some(public_key)
}

/// Whether `ciphertext` opens to `message` under every secret key whose
/// public point is `public_key`.
pub open spec fn sealed_for(ciphertext: Seq<u8>, public_key: Seq<u8>, message: Seq<u8>) -> bool {
    forall|secret_key: Seq<u8>| #[trigger]
        secp256k1_public_key(secret_key) == Some(public_key) ==> ecies_opened(
            secret_key,
            ciphertext,
        ) == Some(message)
}

/// The text that an opened message stands for.
pub open spec fn opened_text(opened: Option<Seq<u8>>) -> Result<Seq<char>, CryptoFailure> {
    match opened {
        None => Err(CryptoFailure::DecryptionFailed),
        Some(bytes) => if valid_utf8(bytes) {
            Ok(decode_utf8(bytes))
        } else {
            Err(CryptoFailure::InvalidUtf8)
        },
    }
}

/// The text that `ciphertext` opens to under the derived key of `voter`.
pub open spec fn decrypted_vote(
    secret: Seq<u8>,
    domain: Seq<char>,
    voter: Seq<char>,
    ciphertext: Seq<u8>,
) -> Result<Seq<char>, CryptoFailure> {
    match derived_keypair(secret, domain, voter) {
        Err(e) => Err(e),
        Ok(pair) => opened_text(ecies_opened(pair.0, ciphertext)),
    }
}

/// The model of a derivation result.
pub open spec fn keypair_view(pair: Result<(Vec<u8>, Vec<u8>), CryptoError>) -> Result<
    (Seq<u8>, Seq<u8>),
    CryptoFailure,
> {
    match pair {
        Ok(p) => Ok((p.0@, p.1@)),
        Err(e) => Err(e@),
    }
}

/// The model of a result that carries bytes.
pub open spec fn bytes_view(bytes: Result<Vec<u8>, CryptoError>) -> Result<Seq<u8>, CryptoFailure> {
    match bytes {
        Ok(b) => Ok(b@),
        Err(e) => Err(e@),
    }
}

/// The model of a result that carries text.
pub open spec fn text_view(text: Result<String, CryptoError>) -> Result<Seq<char>, CryptoFailure> {
    match text {
        Ok(t) => Ok(t@),
        Err(e) => Err(e@),
    }
}

/// Calls `Hkdf::<Sha256>::new` without salt and `expand` into 32 bytes.
/// Trusted: the output is a function of the key material and the info alone,
/// and `expand` does not fail for an output of 32 bytes.
#[verifier::external_body]
fn hkdf_expand_seed(ikm: &[u8], info: &[u8]) -> (seed: Option<Vec<u8>>)
    ensures
        seed is Some,
        seed->0@ == hkdf_sha256_seed(ikm@, info@),
        seed->0@.len() == 32,
{
    let mut seed = [0u8; 32];
    match Hkdf::<Sha256>::new(None, ikm).expand(info, &mut seed) {
        Ok(()) => Some(seed.to_vec()),
        Err(_) => None,
    }
}

/// Calls `SecretKey::parse_slice`, `PublicKey::from_secret_key` and
/// `serialize_compressed` of `libsecp256k1`. Trusted: the point is a function
/// of the scalar alone, and its compressed form is 33 bytes that start with
/// 0x02 or 0x03.
#[verifier::external_body]
fn compressed_public_key(secret: &[u8]) -> (public: Result<Vec<u8>, libsecp256k1::Error>)
    ensures
        match public {
            Ok(p) => {
                &&& secp256k1_public_key(secret@) == Some(p@)
                &&& p@.len() == 33
                &&& (p@[0] == 2 || p@[0] == 3)
            },
            Err(_) => secp256k1_public_key(secret@) is None,
        },
{
    match libsecp256k1::SecretKey::parse_slice(secret) {
        Ok(key) => {
            let point = libsecp256k1::PublicKey::from_secret_key(&key);
            Ok(point.serialize_compressed().to_vec())
        },
        Err(e) => Err(e),
    }
}

/// Calls `ecies::encrypt`. Trusted: whatever ciphertext comes back, the
/// holder of the matching secret key opens it to the message that was
/// sealed; the ciphertext itself depends on fresh randomness. Sealing
/// succeeds for every public point of a secret key and every message within
/// the cipher's length bound, and fails for a key of another length than 33,
/// 64 or 65 bytes.
#[verifier::external_body]
fn ecies_encrypt(public_key: &[u8], message: &[u8]) -> (ciphertext: Result<
    Vec<u8>,
    libsecp256k1::Error,
>)
    ensures
        ciphertext matches Ok(c) ==> sealed_for(c@, public_key@, message@),
        is_public_key(public_key@) && message@.len() <= MAX_MESSAGE_LEN ==> ciphertext is Ok,
        public_key@.len() != 33 && public_key@.len() != 64 && public_key@.len() != 65
            ==> ciphertext is Err,
{
    ecies::encrypt(public_key, message)
}

/// Calls `ecies::decrypt`. Trusted: the outcome is a function of the secret
/// key and the ciphertext alone; a key of another length than 32 bytes and a
/// ciphertext too short to hold an ephemeral key, a nonce and a tag open
/// nothing.
#[verifier::external_body]
fn ecies_decrypt(secret_key: &[u8], ciphertext: &[u8]) -> (message: Result<
    Vec<u8>,
    libsecp256k1::Error,
>)
    ensures
        match message {
            Ok(m) => ecies_opened(secret_key@, ciphertext@) == Some(m@),
            Err(_) => ecies_opened(secret_key@, ciphertext@) is None,
        },
        secret_key@.len() != 32 || ciphertext@.len() < 97 ==> message is Err,
{
    ecies::decrypt(secret_key, ciphertext)
}

/// Calls the `Display` of `libsecp256k1::Error`: what the curve or the
/// cipher says of its error.
#[verifier::external_body]
fn secp_error_text(error: &libsecp256k1::Error) -> (text: String) {
    format!("{}", error)
}

/// Calls the `Debug` of `libsecp256k1::Error`: what the error is called.
#[verifier::external_body]
fn secp_error_name(error: &libsecp256k1::Error) -> (text: String) {
    format!("{:?}", error)
}

/// Calls `String::from_utf8`. Trusted: it succeeds exactly on valid UTF-8,
/// and the text then encodes to the bytes given.
#[verifier::external_body]
fn text_from_utf8(bytes: Vec<u8>) -> (text: Result<String, std::string::FromUtf8Error>)
    ensures
        match text {
            Ok(t) => valid_utf8(bytes@) && encode_utf8(t@) == bytes@,
            Err(_) => !valid_utf8(bytes@),
        },
{
    String::from_utf8(bytes)
}

/// Calls the `Display` of `FromUtf8Error`: where the decoder stopped.
#[verifier::external_body]
fn utf8_error_text(error: &std::string::FromUtf8Error) -> (text: String) {
    format!("{}", error)
}

/// Derives the keypair of `user_account` within `dao_account`: the 32-byte
/// private scalar and the 33-byte compressed public point.
pub fn derive_keypair(master_secret: &[u8], dao_account: &str, user_account: &str) -> (pair: Result<
    (Vec<u8>, Vec<u8>),
    CryptoError,
>)
    ensures
        keypair_view(pair) == derived_keypair(master_secret@, dao_account@, user_account@),
        pair matches Ok(p) ==> p.0@.len() == 32 && p.1@.len() == 33 && (p.1@[0] == 2 || p.1@[0]
            == 3) && is_public_key(p.1@),
{
    let mut label = String::from_str("ecies:");
    proof {
        reveal_strlit("ecies:");
        reveal_strlit(":");
    }
    label.append(dao_account);
    label.append(":");
    label.append(user_account);
    assert(label@ =~= key_label(dao_account@, user_account@));
    let seed = hkdf_expand_seed(master_secret, label.as_str().as_bytes()).unwrap();
    match compressed_public_key(seed.as_slice()) {
        Err(e) => Err(
            CryptoError { failure: CryptoFailure::InvalidSecretKey, cause: secp_error_name(&e) },
        ),
        Ok(public) => {
            assert(secp256k1_public_key(seed@) == Some(public@));
            Ok((seed, public))
        },
    }
}

/// Derives the public key that `user_account` encrypts ballots to.
pub fn derive_user_pubkey(master_secret: &[u8], dao_account: &str, user_account: &str) -> (key:
    Result<Vec<u8>, CryptoError>)
    ensures
        bytes_view(key) == match derived_keypair(master_secret@, dao_account@, user_account@) {
            Ok(p) => Ok(p.1),
            Err(e) => Err(e),
        },
        key matches Ok(k) ==> k@.len() == 33 && (k@[0] == 2 || k@[0] == 3) && is_public_key(k@),
{
    match derive_keypair(master_secret, dao_account, user_account) {
        Ok(pair) => Ok(pair.1),
        Err(e) => Err(e),
    }
}

/// Seals `plaintext` for the holder of `pubkey`.
///
/// Sealing succeeds for every public point of a secret key, so for every
/// derived key, and every plaintext of no more than [`MAX_MESSAGE_LEN`]
/// bytes; it fails for a key of another length than 33, 64 or 65 bytes. Each
/// call draws fresh randomness, so two ciphertexts of one message differ;
/// whichever comes back opens to `plaintext` under the matching secret key.
pub fn encrypt_vote(pubkey: &[u8], plaintext: &[u8]) -> (sealed: Result<Vec<u8>, CryptoError>)
    ensures
        match sealed {
            Ok(c) => sealed_for(c@, pubkey@, plaintext@),
            Err(e) => e@ == CryptoFailure::EncryptionFailed,
        },
        is_public_key(pubkey@) && plaintext@.len() <= MAX_MESSAGE_LEN ==> sealed is Ok,
        pubkey@.len() != 33 && pubkey@.len() != 64 && pubkey@.len() != 65 ==> sealed is Err,
{
    match ecies_encrypt(pubkey, plaintext) {
        Ok(c) => Ok(c),
        Err(e) => Err(
            CryptoError { failure: CryptoFailure::EncryptionFailed, cause: secp_error_text(&e) },
        ),
    }
}

/// The model of what the cipher opened.
pub open spec fn opened_view(opened: Result<Vec<u8>, libsecp256k1::Error>) -> Option<Seq<u8>> {
    match opened {
        Ok(bytes) => Some(bytes@),
        Err(_) => None,
    }
}

/// Reads what the cipher opened as text.
fn read_opened(opened: Result<Vec<u8>, libsecp256k1::Error>) -> (text: Result<String, CryptoError>)
    ensures
        text_view(text) == opened_text(opened_view(opened)),
{
    match opened {
        Err(e) => Err(
            CryptoError { failure: CryptoFailure::DecryptionFailed, cause: secp_error_text(&e) },
        ),
        Ok(bytes) => read_message(bytes),
    }
}

/// Reads an opened message as text.
pub fn read_message(opened: Vec<u8>) -> (text: Result<String, CryptoError>)
    ensures
        text_view(text) == opened_text(Some(opened@)),
{
    match text_from_utf8(opened) {
        Ok(t) => {
            proof {
                encode_utf8_decode_utf8(t@);
            }
            Ok(t)
        },
        Err(e) => Err(
            CryptoError { failure: CryptoFailure::InvalidUtf8, cause: utf8_error_text(&e) },
        ),
    }
}

/// Opens `ciphertext` with the derived key of `user_account` and reads it as
/// text.
pub fn decrypt_vote(
    master_secret: &[u8],
    dao_account: &str,
    user_account: &str,
    ciphertext: &[u8],
) -> (text: Result<String, CryptoError>)
    ensures
        text_view(text) == decrypted_vote(
            master_secret@,
            dao_account@,
            user_account@,
            ciphertext@,
        ),
        ciphertext@.len() < 97 ==> text is Err,
{
    match derive_keypair(master_secret, dao_account, user_account) {
        Err(e) => Err(e),
        Ok(pair) => read_opened(ecies_decrypt(pair.0.as_slice(), ciphertext)),
    }
}

/// Deriving twice from the same secret, domain and voter gives the same
/// keypair: the result is a function of the three inputs.
pub proof fn lemma_derivation_is_deterministic(
    secret: Seq<u8>,
    domain: Seq<char>,
    voter: Seq<char>,
    first: Result<(Vec<u8>, Vec<u8>), CryptoError>,
    second: Result<(Vec<u8>, Vec<u8>), CryptoError>,
)
    requires
        keypair_view(first) == derived_keypair(secret, domain, voter),
        keypair_view(second) == derived_keypair(secret, domain, voter),
    ensures
        keypair_view(first) == keypair_view(second),
{
}

/// Within one domain, two different voters are derived under two different
/// labels, so the key derivation function never sees the same input for both.
pub proof fn lemma_distinct_voters_distinct_labels(
    domain: Seq<char>,
    first: Seq<char>,
    second: Seq<char>,
)
    requires
        first != second,
    ensures
        key_label(domain, first) != key_label(domain, second),
        encode_utf8(key_label(domain, first)) != encode_utf8(key_label(domain, second)),
{
    let a = key_label(domain, first);
    let b = key_label(domain, second);
    let offset = 7 + domain.len();
    if a == b {
        assert(first.len() == second.len()) by {
            assert(a.len() == offset + first.len());
            assert(b.len() == offset + second.len());
        }
        assert forall|i: int| 0 <= i < first.len() implies first[i] == second[i] by {
            assert(a[offset + i] == first[i]);
            assert(b[offset + i] == second[i]);
        }
        assert(first =~= second);
    }
    encode_utf8_decode_utf8(a);
    encode_utf8_decode_utf8(b);
}

/// Across domains whose names hold no colon, two different pairs of
/// domain and voter are derived under two different labels. With a colon in
/// a domain's name, the pairs `a:b`, `c` and `a`, `b:c` share one label.
pub proof fn lemma_distinct_pairs_distinct_labels(
    first_domain: Seq<char>,
    first_voter: Seq<char>,
    second_domain: Seq<char>,
    second_voter: Seq<char>,
)
    requires
        !first_domain.contains(':'),
        !second_domain.contains(':'),
        first_domain != second_domain || first_voter != second_voter,
    ensures
        key_label(first_domain, first_voter) != key_label(second_domain, second_voter),
        encode_utf8(key_label(first_domain, first_voter)) != encode_utf8(
            key_label(second_domain, second_voter),
        ),
{
    let a = key_label(first_domain, first_voter);
    let b = key_label(second_domain, second_voter);
    if a == b {
        let m = first_domain.len() as int;
        let n = second_domain.len() as int;
        assert(a[6 + m] == ':');
        assert(b[6 + n] == ':');
        if m < n {
            assert(b[6 + m] == second_domain[m]);
            assert(second_domain.contains(second_domain[m]));
        } else if n < m {
            assert(a[6 + n] == first_domain[n]);
            assert(first_domain.contains(first_domain[n]));
        } else {
            assert forall|i: int| 0 <= i < m implies first_domain[i] == second_domain[i] by {
                assert(a[6 + i] == first_domain[i]);
                assert(b[6 + i] == second_domain[i]);
            }
            assert(first_domain =~= second_domain);
            lemma_distinct_voters_distinct_labels(first_domain, first_voter, second_voter);
        }
    }
    encode_utf8_decode_utf8(a);
    encode_utf8_decode_utf8(b);
}

/// Whether HKDF gives one seed for two different infos under `secret`.
pub open spec fn hkdf_collides(secret: Seq<u8>, first: Seq<u8>, second: Seq<u8>) -> bool {
    first != second && hkdf_sha256_seed(secret, first) == hkdf_sha256_seed(secret, second)
}

/// Two different voters of one domain have two different private keys,
/// unless HKDF gives one seed for their two labels.
pub proof fn lemma_private_keys_differ_unless_hkdf_collides(
    secret: Seq<u8>,
    domain: Seq<char>,
    first: Seq<char>,
    second: Seq<char>,
)
    requires
        first != second,
        derived_keypair(secret, domain, first) is Ok,
        derived_keypair(secret, domain, second) is Ok,
    ensures
        derived_keypair(secret, domain, first)->Ok_0.0 != derived_keypair(
            secret,
            domain,
            second,
        )->Ok_0.0 || hkdf_collides(
            secret,
            encode_utf8(key_label(domain, first)),
            encode_utf8(key_label(domain, second)),
        ),
{
    lemma_distinct_voters_distinct_labels(domain, first, second);
}

/// Sealing to a derived public key succeeds for every message within the
/// cipher's length bound: a derived key is the public point of its secret.
pub proof fn lemma_derived_key_is_public_key(secret: Seq<u8>, domain: Seq<char>, voter: Seq<char>)
    requires
        derived_keypair(secret, domain, voter) is Ok,
    ensures
        is_public_key(derived_keypair(secret, domain, voter)->Ok_0.1),
{
    let pair = derived_keypair(secret, domain, voter)->Ok_0;
    assert(secp256k1_public_key(pair.0) == Some(pair.1));
}

/// A message sealed to a voter's derived public key opens, under the key
/// derived for the same voter, to the message that was sealed.
pub proof fn lemma_sealed_vote_opens(
    secret: Seq<u8>,
    domain: Seq<char>,
    voter: Seq<char>,
    message: Seq<u8>,
    ciphertext: Seq<u8>,
)
    requires
        derived_keypair(secret, domain, voter) is Ok,
        sealed_for(ciphertext, derived_keypair(secret, domain, voter)->Ok_0.1, message),
    ensures
        decrypted_vote(secret, domain, voter, ciphertext) == opened_text(Some(message)),
{
    let pair = derived_keypair(secret, domain, voter)->Ok_0;
    assert(secp256k1_public_key(pair.0) == Some(pair.1));
}

} // verus!
