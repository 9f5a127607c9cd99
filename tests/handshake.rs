use ed25519_dalek::Signer;
use geph5_client_core::handshake::{
    begin_auth, finish_auth, finish_key_agreement, finish_shared_secret, session_keys, AuthError,
    Authed, CryptHello, ExitInner, Pending,
};

fn signing_key(seed: u8) -> ed25519_dalek::SigningKey {
    ed25519_dalek::SigningKey::from_bytes(&[seed; 32])
}

#[test]
fn shared_secret_handshake_accepts_right_mac() {
    let ss = [1u8; 32];
    let challenge = [2u8; 32];
    let mac = *blake3::keyed_hash(&challenge, &ss).as_bytes();
    let inner = ExitInner::SharedSecretResponse(mac);
    assert!(finish_shared_secret(&challenge, &ss, &inner).is_ok());
    let pending = Pending::Challenge { challenge, shared_secret: ss.to_vec() };
    let sig = [0u8; 64];
    let r = finish_auth(pending, &[0u8; 32], b"", &sig, &inner);
    assert!(matches!(r, Ok(Authed::Plain)));
}

#[test]
fn shared_secret_handshake_rejects_wrong_mac() {
    let ss = [1u8; 32];
    let challenge = [2u8; 32];
    let mac = *blake3::keyed_hash(&challenge, &[3u8; 32]).as_bytes();
    let inner = ExitInner::SharedSecretResponse(mac);
    assert!(matches!(
        finish_shared_secret(&challenge, &ss, &inner),
        Err(AuthError::SharedSecretMismatch)
    ));
    // a MAC of the challenge alone is wrong too
    let echoed = ExitInner::SharedSecretResponse(challenge);
    assert!(finish_shared_secret(&challenge, &ss, &echoed).is_err());
}

#[test]
fn shared_secret_handshake_rejects_other_answers() {
    let ss = [1u8; 32];
    let challenge = [2u8; 32];
    assert!(matches!(
        finish_shared_secret(&challenge, &ss, &ExitInner::X25519([5u8; 32])),
        Err(AuthError::UnexpectedResponse)
    ));
    assert!(matches!(
        finish_shared_secret(&challenge, &ss, &ExitInner::Reject("no".to_string())),
        Err(AuthError::UnexpectedResponse)
    ));
}

#[test]
fn begin_picks_variant_by_shared_secret() {
    let (pending, hello) = begin_auth(Some(vec![1u8; 32]));
    match (pending, hello) {
        (Pending::Challenge { challenge, shared_secret }, CryptHello::SharedSecretChallenge(c)) => {
            assert_eq!(challenge, c);
            assert_eq!(shared_secret, vec![1u8; 32]);
        }
        _ => panic!("expected a challenge"),
    }
    let (pending, hello) = begin_auth(None);
    match (pending, hello) {
        (Pending::KeyAgreement { secret }, CryptHello::X25519(p)) => {
            assert_eq!(p, x25519_dalek::x25519(secret, x25519_dalek::X25519_BASEPOINT_BYTES));
            assert_ne!(p, secret);
        }
        _ => panic!("expected a key agreement"),
    }
}

#[test]
fn key_agreement_keys_swap_roles() {
    let (pending, hello) = begin_auth(None);
    let client_public = match hello {
        CryptHello::X25519(p) => p,
        CryptHello::SharedSecretChallenge(_) => panic!("expected a key agreement"),
    };
    let exit_secret = [7u8; 32];
    let exit_public = x25519_dalek::x25519(exit_secret, x25519_dalek::X25519_BASEPOINT_BYTES);
    let exit_shared = x25519_dalek::x25519(exit_secret, client_public);
    let exit_key = signing_key(9);
    let signed = b"client hello and exit answer";
    let sig = exit_key.sign(signed).to_bytes();
    let r = finish_auth(
        pending,
        &exit_key.verifying_key().to_bytes(),
        signed,
        &sig,
        &ExitInner::X25519(exit_public),
    );
    match r {
        Ok(Authed::Encrypted(keys)) => {
            assert_eq!(keys.read, blake3::derive_key("e2c", &exit_shared));
            assert_eq!(keys.write, blake3::derive_key("c2e", &exit_shared));
            assert_ne!(keys.read, keys.write);
        }
        _ => panic!("expected an encrypted pipe"),
    }
}

#[test]
fn key_agreement_rejects_foreign_signature() {
    let exit_key = signing_key(9);
    let other_key = signing_key(10);
    let signed = b"client hello and exit answer";
    let sig = other_key.sign(signed).to_bytes();
    let r = finish_key_agreement(
        &[4u8; 32],
        &exit_key.verifying_key().to_bytes(),
        signed,
        &sig,
        &ExitInner::X25519([8u8; 32]),
    );
    assert!(matches!(r, Err(AuthError::BadSignature)));
}

#[test]
fn key_agreement_reports_rejection_and_protocol_violation() {
    let exit_key = signing_key(9);
    let signed = b"answer";
    let sig = exit_key.sign(signed).to_bytes();
    let pk = exit_key.verifying_key().to_bytes();
    match finish_key_agreement(&[4u8; 32], &pk, signed, &sig, &ExitInner::Reject("banned".to_string())) {
        Err(AuthError::Rejected(why)) => assert_eq!(why, "banned"),
        _ => panic!("expected a rejection"),
    }
    assert!(matches!(
        finish_key_agreement(&[4u8; 32], &pk, signed, &sig, &ExitInner::SharedSecretResponse([0u8; 32])),
        Err(AuthError::SharedSecretToFullAuth)
    ));
}

#[test]
fn session_keys_use_the_two_contexts() {
    let shared = [6u8; 32];
    let k = session_keys(&shared);
    assert_eq!(k.read, blake3::derive_key("e2c", &shared));
    assert_eq!(k.write, blake3::derive_key("c2e", &shared));
}
