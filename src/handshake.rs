use vstd::prelude::*;

verus! {

/// BLAKE3 in keyed mode: the 32-byte MAC of `data` under `key`.
pub uninterp spec fn blake3_keyed(key: Seq<u8>, data: Seq<u8>) -> Seq<u8>;

/// BLAKE3 in key-derivation mode: the 32-byte key for `context` from `material`.
pub uninterp spec fn blake3_kdf(context: Seq<char>, material: Seq<u8>) -> Seq<u8>;

/// The X25519 function: scalar `k` (clamped) times the Montgomery point `u`.
pub uninterp spec fn x25519_of(k: Seq<u8>, u: Seq<u8>) -> Seq<u8>;

/// Whether Ed25519 strict verification accepts `sig` on `msg` under the key `pk`
/// (a key that does not decode is never accepted).
pub uninterp spec fn ed25519_strict_accepts(pk: Seq<u8>, msg: Seq<u8>, sig: Seq<u8>) -> bool;

/// Relies on blake3::keyed_hash: the keyed BLAKE3 hash of `data` under `key`.
#[verifier::external_body]
fn keyed_mac(key: &[u8; 32], data: &[u8]) -> (r: [u8; 32])
    ensures
        r@ == blake3_keyed(key@, data@),
{
    *blake3::keyed_hash(key, data).as_bytes()
}

/// Relies on blake3::derive_key: a key derived from `material` for `context`.
#[verifier::external_body]
fn derive_key(context: &str, material: &[u8; 32]) -> (r: [u8; 32])
    ensures
        r@ == blake3_kdf(context@, material@),
{
    blake3::derive_key(context, material)
}

/// Relies on x25519_dalek::x25519: the Diffie-Hellman function on raw bytes.
#[verifier::external_body]
fn x25519(k: [u8; 32], u: [u8; 32]) -> (r: [u8; 32])
    ensures
        r@ == x25519_of(k@, u@),
{
    x25519_dalek::x25519(k, u)
}

/// Relies on ed25519_dalek::VerifyingKey::verify_strict (after
/// VerifyingKey::from_bytes and Signature::from_bytes): strict signature check.
#[verifier::external_body]
fn verify_strict(pk: &[u8; 32], msg: &[u8], sig: &[u8; 64]) -> (r: bool)
    ensures
        r == ed25519_strict_accepts(pk@, msg@, sig@),
{
    match ed25519_dalek::VerifyingKey::from_bytes(pk) {
        Ok(key) => key.verify_strict(msg, &ed25519_dalek::Signature::from_bytes(sig)).is_ok(),
        Err(_) => false,
    }
}

/// Relies on rand::random: 32 bytes from the thread-local generator.
#[verifier::external_body]
fn random_bytes() -> (r: [u8; 32]) {
    rand::random::<[u8; 32]>()
}

/// The X25519 base point, 9 followed by zeros.
pub open spec fn basepoint() -> Seq<u8> {
    Seq::new(32, |i: int| if i == 0 { 9u8 } else { 0u8 })
}

fn basepoint_bytes() -> (r: [u8; 32])
    ensures
        r@ == basepoint(),
{
    let mut b: [u8; 32] = [0u8; 32];
    b[0] = 9u8;
    assert(b@ =~= basepoint());
    b
}

/// What the client offers in its hello.
pub enum CryptHello {
    SharedSecretChallenge([u8; 32]),
    X25519([u8; 32]),
}

/// What the exit answers, signed.
pub enum ExitInner {
    SharedSecretResponse([u8; 32]),
    X25519([u8; 32]),
    Reject(String),
}

/// Why a handshake failed.
pub enum AuthError {
    /// The exit's MAC over the shared secret did not match.
    SharedSecretMismatch,
    /// The exit answered a challenge with something else than a MAC.
    UnexpectedResponse,
    /// The exit hello's signature did not verify.
    BadSignature,
    /// The exit refused the client, with its reason.
    Rejected(String),
    /// The exit answered a key agreement with a shared-secret MAC.
    SharedSecretToFullAuth,
}

/// What the client keeps between sending its hello and reading the exit's.
pub enum Pending {
    /// A challenge was sent for the pipe's shared secret.
    Challenge { challenge: [u8; 32], shared_secret: Vec<u8> },
    /// An ephemeral X25519 public key was sent; this is its secret.
    KeyAgreement { secret: [u8; 32] },
}

/// The two directions' keys of an encrypted pipe.
pub struct SessionKeys {
    pub read: [u8; 32],
    pub write: [u8; 32],
}

/// The outcome of a handshake: the pipe as it is, or wrapped with these keys.
pub enum Authed {
    Plain,
    Encrypted(SessionKeys),
}

pub open spec fn client_read_key(shared: Seq<u8>) -> Seq<u8> {
    blake3_kdf(seq!['e', '2', 'c'], shared)
}

pub open spec fn client_write_key(shared: Seq<u8>) -> Seq<u8> {
    blake3_kdf(seq!['c', '2', 'e'], shared)
}

/// Starts a handshake: a random challenge where the pipe has a shared secret,
/// else a fresh ephemeral key pair.
pub fn begin_auth(shared_secret: Option<Vec<u8>>) -> (r: (Pending, CryptHello))
    ensures
        match (shared_secret, r.0, r.1) {
            (Some(ss), Pending::Challenge { challenge, shared_secret }, CryptHello::SharedSecretChallenge(c)) =>
                shared_secret@ == ss@ && c@ == challenge@,
            (None, Pending::KeyAgreement { secret }, CryptHello::X25519(p)) =>
                p@ == x25519_of(secret@, basepoint()),
            _ => false,
        },
{
    match shared_secret {
        Some(ss) => {
            let challenge = random_bytes();
            (Pending::Challenge { challenge, shared_secret: ss }, CryptHello::SharedSecretChallenge(challenge))
        },
        None => {
            let secret = random_bytes();
            let public = x25519(secret, basepoint_bytes());
            (Pending::KeyAgreement { secret }, CryptHello::X25519(public))
        },
    }
}

/// Whether the exit's answer to a challenge proves knowledge of the shared secret.
pub open spec fn challenge_answered(challenge: Seq<u8>, shared_secret: Seq<u8>, inner: ExitInner) -> bool {
    match inner {
        ExitInner::SharedSecretResponse(m) => m@ == blake3_keyed(challenge, shared_secret),
        _ => false,
    }
}

/// Checks the exit's answer to a shared-secret challenge.
pub fn finish_shared_secret(challenge: &[u8; 32], shared_secret: &[u8], inner: &ExitInner) -> (r: Result<(), AuthError>)
    ensures
        r.is_ok() == challenge_answered(challenge@, shared_secret@, *inner),
        match r {
            Err(AuthError::SharedSecretMismatch) => inner is SharedSecretResponse,
            Err(AuthError::UnexpectedResponse) => !(inner is SharedSecretResponse),
            Err(_) => false,
            Ok(_) => true,
        },
{
    match inner {
        ExitInner::SharedSecretResponse(m) => {
            let mac = keyed_mac(challenge, shared_secret);
            if bytes_eq(&mac, m) {
                Ok(())
            } else {
                Err(AuthError::SharedSecretMismatch)
            }
        },
        _ => Err(AuthError::UnexpectedResponse),
    }
}

fn bytes_eq(a: &[u8; 32], b: &[u8; 32]) -> (r: bool)
    ensures
        r == (a@ == b@),
{
    let mut i: usize = 0;
    while i < 32
        invariant
            i <= 32,
            forall|k: int| 0 <= k < i ==> a@[k] == b@[k],
        decreases 32 - i,
    {
        if a[i] != b[i] {
            return false;
        }
        i += 1;
    }
    assert(a@ =~= b@);
    true
}

/// The keys of the client's end from the shared Diffie-Hellman value.
pub fn session_keys(shared: &[u8; 32]) -> (r: SessionKeys)
    ensures
        r.read@ == client_read_key(shared@),
        r.write@ == client_write_key(shared@),
{
    let e2c = "e2c";
    let c2e = "c2e";
    proof {
        reveal_strlit("e2c");
        reveal_strlit("c2e");
    }
    assert(e2c@ =~= seq!['e', '2', 'c']);
    assert(c2e@ =~= seq!['c', '2', 'e']);
    SessionKeys { read: derive_key(e2c, shared), write: derive_key(c2e, shared) }
}

/// Checks the exit's signed answer to a key agreement and derives the session keys.
pub fn finish_key_agreement(
    secret: &[u8; 32],
    exit_key: &[u8; 32],
    signed_value: &[u8],
    signature: &[u8; 64],
    inner: &ExitInner,
) -> (r: Result<SessionKeys, AuthError>)
    ensures
        !ed25519_strict_accepts(exit_key@, signed_value@, signature@) ==> r is Err && r->Err_0 is BadSignature,
        ed25519_strict_accepts(exit_key@, signed_value@, signature@) ==> match (inner, r) {
            (ExitInner::X25519(p), Ok(k)) =>
                k.read@ == client_read_key(x25519_of(secret@, p@))
                && k.write@ == client_write_key(x25519_of(secret@, p@)),
            (ExitInner::Reject(why), Err(AuthError::Rejected(w))) => w@ == why@,
            (ExitInner::SharedSecretResponse(_), Err(AuthError::SharedSecretToFullAuth)) => true,
            _ => false,
        },
{
    if !verify_strict(exit_key, signed_value, signature) {
        return Err(AuthError::BadSignature);
    }
    match inner {
        ExitInner::Reject(why) => Err(AuthError::Rejected(why.clone())),
        ExitInner::SharedSecretResponse(_) => Err(AuthError::SharedSecretToFullAuth),
        ExitInner::X25519(p) => {
            let shared = x25519(*secret, *p);
            Ok(session_keys(&shared))
        },
    }
}

/// Ends a handshake with the exit's answer: under a challenge the answer must be
/// the right MAC and the pipe stays as it is; under a key agreement the answer is
/// checked against the exit's signature and the pipe is encrypted.
pub fn finish_auth(
    pending: Pending,
    exit_key: &[u8; 32],
    signed_value: &[u8],
    signature: &[u8; 64],
    inner: &ExitInner,
) -> (r: Result<Authed, AuthError>)
    ensures
        match pending {
            Pending::Challenge { challenge, shared_secret } =>
                (r is Ok <==> challenge_answered(challenge@, shared_secret@, *inner))
                && (r is Ok ==> r->Ok_0 is Plain)
                && (r is Err ==> (inner is SharedSecretResponse ==> r->Err_0 is SharedSecretMismatch)
                    && (!(inner is SharedSecretResponse) ==> r->Err_0 is UnexpectedResponse)),
            Pending::KeyAgreement { secret } => match r {
                Ok(Authed::Encrypted(k)) => ed25519_strict_accepts(exit_key@, signed_value@, signature@)
                    && inner is X25519
                    && k.read@ == client_read_key(x25519_of(secret@, inner->X25519_0@))
                    && k.write@ == client_write_key(x25519_of(secret@, inner->X25519_0@)),
                Ok(Authed::Plain) => false,
                Err(AuthError::BadSignature) => !ed25519_strict_accepts(exit_key@, signed_value@, signature@),
                Err(AuthError::Rejected(w)) => ed25519_strict_accepts(exit_key@, signed_value@, signature@)
                    && inner is Reject && w@ == inner->Reject_0@,
                Err(AuthError::SharedSecretToFullAuth) => ed25519_strict_accepts(exit_key@, signed_value@, signature@)
                    && inner is SharedSecretResponse,
                Err(_) => false,
            },
        },
{
    match pending {
        Pending::Challenge { challenge, shared_secret } => {
            match finish_shared_secret(&challenge, shared_secret.as_slice(), inner) {
                Ok(()) => Ok(Authed::Plain),
                Err(e) => Err(e),
            }
        },
        Pending::KeyAgreement { secret } => {
            match finish_key_agreement(&secret, exit_key, signed_value, signature, inner) {
                Ok(k) => Ok(Authed::Encrypted(k)),
                Err(e) => Err(e),
            }
        },
    }
}

/// The exit's reading key: what the client writes under.
pub open spec fn exit_read_key(shared: Seq<u8>) -> Seq<u8> {
    blake3_kdf(seq!['c', '2', 'e'], shared)
}

/// The exit's writing key: what the client reads under.
pub open spec fn exit_write_key(shared: Seq<u8>) -> Seq<u8> {
    blake3_kdf(seq!['e', '2', 'c'], shared)
}

/// A shared-secret challenge succeeds exactly when the exit answers with the keyed
/// BLAKE3 MAC of the shared secret under the challenge.
pub proof fn lemma_challenge_round_trip(challenge: [u8; 32], shared_secret: Seq<u8>, mac: [u8; 32])
    ensures
        challenge_answered(challenge@, shared_secret, ExitInner::SharedSecretResponse(mac))
            <==> mac@ == blake3_keyed(challenge@, shared_secret),
        forall|other: [u8; 32]| #![auto] !challenge_answered(challenge@, shared_secret, ExitInner::X25519(other)),
{
}

/// Where both ends reach the same Diffie-Hellman value (as X25519 guarantees for
/// a client secret and an exit secret), each end reads under the key that the
/// other writes under.
pub proof fn lemma_key_agreement_roles(client_secret: Seq<u8>, exit_secret: Seq<u8>)
    requires
        x25519_of(client_secret, x25519_of(exit_secret, basepoint())) == x25519_of(
            exit_secret,
            x25519_of(client_secret, basepoint()),
        ),
    ensures
        ({
            let client_shared = x25519_of(client_secret, x25519_of(exit_secret, basepoint()));
            let exit_shared = x25519_of(exit_secret, x25519_of(client_secret, basepoint()));
            &&& client_read_key(client_shared) == exit_write_key(exit_shared)
            &&& client_write_key(client_shared) == exit_read_key(exit_shared)
        }),
{
}

} // verus!
