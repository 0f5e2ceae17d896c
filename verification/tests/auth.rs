use p256::ecdsa::signature::hazmat::PrehashSigner;
use soroban_sdk::testutils::EnvTestConfig;
use soroban_sdk::{Bytes, BytesN, Env};
use webauthn_account::auth::{
    check_context, check_scope, names_registry_entry_point, signature_digest, try_signature_digest,
};
use webauthn_account::base64_url::encode;
use webauthn_account::{Context, ContractContext, Contract, Error, Signature};

const ACCOUNT: [u8; 32] = [9u8; 32];
const SUDO: [u8; 32] = [1u8; 32];
const OTHER: [u8; 32] = [2u8; 32];
const STRANGER: [u8; 32] = [3u8; 32];

fn account() -> Contract {
    let mut c = Contract::new(ACCOUNT, 500);
    assert_eq!(c.add_sig(false, SUDO, [4u8; 65]), Ok(()));
    assert_eq!(c.add_sig(true, OTHER, [5u8; 65]), Ok(()));
    Contract::from_parts(
        ACCOUNT,
        vec![
            webauthn_account::SignerRecord { id: SUDO, public_key: [4u8; 65], ttl: 7 },
            webauthn_account::SignerRecord { id: OTHER, public_key: [5u8; 65], ttl: 8 },
        ],
        c.sudo_signer(),
        11,
        500,
    )
    .unwrap()
}

fn assertion(by: [u8; 32]) -> Signature {
    Signature {
        id: by,
        authenticator_data: vec![1, 2, 3, 4],
        client_data_json: b"abc".to_vec(),
        signature: [6u8; 64],
    }
}

fn call(contract: [u8; 32], name: &str) -> Context {
    Context::Contract(ContractContext { contract, fn_name: name.as_bytes().to_vec() })
}

fn payload() -> [u8; 32] {
    let mut p = [0u8; 32];
    for (i, b) in p.iter_mut().enumerate() {
        *b = i as u8;
    }
    p
}

#[test]
fn digest_is_the_hash_of_authenticator_data_and_client_data_hash() {
    let expected: [u8; 32] = [
        186, 200, 159, 173, 215, 36, 89, 195, 207, 46, 167, 244, 68, 143, 240, 71, 128, 190, 148,
        58, 147, 157, 89, 55, 250, 250, 43, 209, 19, 228, 255, 150,
    ];
    assert_eq!(signature_digest(&assertion(SUDO)), expected);
    assert_eq!(try_signature_digest(&assertion(SUDO)), Some(expected));
    let empty = Signature {
        id: SUDO,
        authenticator_data: vec![],
        client_data_json: vec![],
        signature: [0u8; 64],
    };
    let of_empty: [u8; 32] = [
        93, 246, 224, 226, 118, 19, 89, 211, 10, 130, 117, 5, 142, 41, 159, 204, 3, 129, 83, 69,
        69, 245, 92, 244, 62, 65, 152, 63, 93, 76, 148, 86,
    ];
    assert_eq!(signature_digest(&empty), of_empty);
}

#[test]
fn verification_request_carries_key_digest_and_signature() {
    let c = account();
    let sig = assertion(OTHER);
    let req = c.verification_request(&sig, &vec![call([8u8; 32], "transfer")]).unwrap();
    assert_eq!(req.public_key, [5u8; 65]);
    assert_eq!(req.digest, signature_digest(&sig));
    assert_eq!(req.signature, [6u8; 64]);
    assert_eq!(
        c.verification_request(&assertion(STRANGER), &vec![]).err(),
        Some(Error::NotFound)
    );
    assert_eq!(
        c.verification_request(&sig, &vec![call(ACCOUNT, "rm_sig")]).err(),
        Some(Error::NotPermitted)
    );
    assert_eq!(
        c.verification_request(&sig, &vec![Context::CreateContractHostFn]).err(),
        Some(Error::InvalidContext)
    );
}

#[test]
fn valid_assertion_is_accepted_and_extends_lifetimes() {
    let mut c = account();
    let text = encode(&payload());
    assert_eq!(text, b"AAECAwQFBgcICQoLDA0ODxAREhMUFRYXGBkaGxwdHh8".to_vec());
    assert_eq!(c.key_ttl(&OTHER), Some(8));
    assert_eq!(c.instance_ttl(), 11);
    let r = c.__check_auth(
        &payload(),
        &assertion(OTHER),
        &vec![call([8u8; 32], "transfer"), call(ACCOUNT, "list_sigs")],
        true,
        Some(&text),
    );
    assert_eq!(r, Ok(()));
    assert_eq!(c.key_ttl(&OTHER), Some(500));
    assert_eq!(c.key_ttl(&SUDO), Some(7));
    assert_eq!(c.instance_ttl(), 500);
    assert_eq!(c.list_sigs(), vec![SUDO, OTHER]);
    assert_eq!(c.public_key(&OTHER), Some([5u8; 65]));
}

#[test]
fn sudo_signer_may_change_the_registry() {
    for name in ["add_sig", "rm_sig", "resudo"] {
        let mut c = account();
        let text = encode(&payload());
        let r = c.__check_auth(&payload(), &assertion(SUDO), &vec![call(ACCOUNT, name)], true, Some(&text));
        assert_eq!(r, Ok(()));
        assert_eq!(c.key_ttl(&SUDO), Some(500));
    }
}

#[test]
fn altered_challenge_is_incorrect() {
    let text = encode(&payload());
    for k in 0..text.len() {
        let mut c = account();
        let mut altered = text.clone();
        altered[k] = if altered[k] == b'A' { b'B' } else { b'A' };
        let r = c.__check_auth(&payload(), &assertion(OTHER), &vec![], true, Some(&altered));
        assert_eq!(r, Err(Error::ClientDataJsonChallengeIncorrect));
        assert_eq!(c.key_ttl(&OTHER), Some(8));
        assert_eq!(c.instance_ttl(), 11);
    }
    let mut c = account();
    let mut padded = text.clone();
    padded.push(b'=');
    assert_eq!(
        c.__check_auth(&payload(), &assertion(OTHER), &vec![], true, Some(&padded)),
        Err(Error::ClientDataJsonChallengeIncorrect)
    );
    assert_eq!(
        c.__check_auth(&payload(), &assertion(OTHER), &vec![], true, Some(&text[..42])),
        Err(Error::ClientDataJsonChallengeIncorrect)
    );
}

#[test]
fn registry_change_by_another_signer_is_not_permitted() {
    let text = encode(&payload());
    for name in ["add_sig", "rm_sig", "resudo"] {
        let mut c = account();
        let contexts = vec![call([8u8; 32], "transfer"), call(ACCOUNT, name)];
        let r = c.__check_auth(&payload(), &assertion(OTHER), &contexts, true, Some(&text));
        assert_eq!(r, Err(Error::NotPermitted));
        assert_eq!(c.key_ttl(&OTHER), Some(8));
        assert_eq!(c.instance_ttl(), 11);
    }
    let mut c = account();
    let elsewhere = vec![call([8u8; 32], "add_sig")];
    assert_eq!(c.__check_auth(&payload(), &assertion(OTHER), &elsewhere, true, Some(&text)), Ok(()));
}

#[test]
fn registry_change_on_an_uninitialized_account_is_not_found() {
    let mut c = Contract::new(ACCOUNT, 500);
    let text = encode(&payload());
    let r = c.__check_auth(&payload(), &assertion(SUDO), &vec![call(ACCOUNT, "add_sig")], true, Some(&text));
    assert_eq!(r, Err(Error::NotFound));
}

#[test]
fn contract_creation_is_an_invalid_context() {
    let text = encode(&payload());
    for valid in [true, false] {
        let mut c = account();
        let contexts = vec![call([8u8; 32], "transfer"), Context::CreateContractHostFn];
        let r = c.__check_auth(&payload(), &assertion(SUDO), &contexts, valid, Some(&text));
        assert_eq!(r, Err(Error::InvalidContext));
        assert_eq!(c.instance_ttl(), 11);
    }
    let mut c = account();
    let contexts = vec![call(ACCOUNT, "resudo"), Context::CreateContractHostFn];
    let r = c.__check_auth(&payload(), &assertion(OTHER), &contexts, true, Some(&text));
    assert_eq!(r, Err(Error::NotPermitted));
}

#[test]
fn refusals_come_in_order() {
    let text = encode(&payload());
    let mut c = account();
    assert_eq!(
        c.__check_auth(&payload(), &assertion(STRANGER), &vec![], true, Some(&text)),
        Err(Error::NotFound)
    );
    assert_eq!(
        c.__check_auth(&payload(), &assertion(STRANGER), &vec![], false, None),
        Err(Error::NotFound)
    );
    assert_eq!(
        c.__check_auth(&payload(), &assertion(OTHER), &vec![], false, None),
        Err(Error::Secp256r1VerifyFailed)
    );
    assert_eq!(
        c.__check_auth(&payload(), &assertion(OTHER), &vec![], true, None),
        Err(Error::JsonParseError)
    );
    assert_eq!(c.key_ttl(&OTHER), Some(8));
    assert_eq!(c.instance_ttl(), 11);
}

#[test]
fn scope_is_judged_operation_by_operation() {
    assert!(names_registry_entry_point(b"add_sig"));
    assert!(names_registry_entry_point(b"rm_sig"));
    assert!(names_registry_entry_point(b"resudo"));
    assert!(!names_registry_entry_point(b"list_sigs"));
    assert!(!names_registry_entry_point(b"add_si"));
    assert!(!names_registry_entry_point(b""));
    assert_eq!(check_context(&ACCOUNT, &Some(SUDO), &SUDO, &call(ACCOUNT, "rm_sig")), None);
    assert_eq!(
        check_context(&ACCOUNT, &Some(SUDO), &OTHER, &call(ACCOUNT, "rm_sig")),
        Some(Error::NotPermitted)
    );
    assert_eq!(
        check_context(&ACCOUNT, &None, &OTHER, &call(ACCOUNT, "rm_sig")),
        Some(Error::NotFound)
    );
    assert_eq!(check_context(&ACCOUNT, &None, &OTHER, &call(ACCOUNT, "extend_ttl")), None);
    assert_eq!(
        check_context(&ACCOUNT, &Some(SUDO), &SUDO, &Context::CreateContractHostFn),
        Some(Error::InvalidContext)
    );
    assert_eq!(check_scope(&ACCOUNT, &Some(SUDO), &OTHER, &vec![]), None);
    assert_eq!(
        check_scope(
            &ACCOUNT,
            &Some(SUDO),
            &OTHER,
            &vec![Context::CreateContractHostFn, call(ACCOUNT, "rm_sig")]
        ),
        Some(Error::InvalidContext)
    );
}

#[test]
fn assertion_signed_by_a_real_key_is_verified_and_accepted() {
    let secret = p256::ecdsa::SigningKey::from_slice(&[7u8; 32]).unwrap();
    let point = secret.verifying_key().to_encoded_point(false);
    let mut public_key = [0u8; 65];
    public_key.copy_from_slice(point.as_bytes());

    let text = encode(&payload());
    let mut client_data_json = b"{\"type\":\"webauthn.get\",\"challenge\":\"".to_vec();
    client_data_json.extend_from_slice(&text);
    client_data_json.extend_from_slice(b"\",\"origin\":\"https://example.org\"}");
    let mut assertion = Signature {
        id: OTHER,
        authenticator_data: vec![0x49, 0x96, 0x0d, 0xe5, 0x01, 0, 0, 0, 1],
        client_data_json,
        signature: [0u8; 64],
    };

    let mut c = Contract::new(ACCOUNT, 500);
    assert_eq!(c.add_sig(false, SUDO, [4u8; 65]), Ok(()));
    assert_eq!(c.add_sig(true, OTHER, public_key), Ok(()));

    let digest = signature_digest(&assertion);
    let signed: p256::ecdsa::Signature = secret.sign_prehash(&digest).unwrap();
    let signed = signed.normalize_s().unwrap_or(signed);
    assertion.signature.copy_from_slice(&signed.to_bytes());

    let request = c.verification_request(&assertion, &vec![call([8u8; 32], "transfer")]).unwrap();
    assert_eq!(request.public_key, public_key);
    assert_eq!(request.digest, digest);

    let env = Env::new_with_config(EnvTestConfig { capture_snapshot_at_drop: false });
    let mut base = Bytes::new(&env);
    base.extend_from_slice(&assertion.authenticator_data);
    let inner = env.crypto().sha256(&Bytes::from_slice(&env, &assertion.client_data_json));
    base.extend_from_array(&inner.to_array());
    let hashed = env.crypto().sha256(&base);
    assert_eq!(hashed.to_array(), request.digest);
    env.crypto().secp256r1_verify(
        &BytesN::from_array(&env, &request.public_key),
        &hashed,
        &BytesN::from_array(&env, &request.signature),
    );

    let r = c.__check_auth(
        &payload(),
        &assertion,
        &vec![call([8u8; 32], "transfer")],
        true,
        Some(&text),
    );
    assert_eq!(r, Ok(()));
    assert_eq!(c.key_ttl(&OTHER), Some(500));
    assert_eq!(c.instance_ttl(), 500);

    let mut altered = text.clone();
    altered[0] = if altered[0] == b'A' { b'B' } else { b'A' };
    let r = c.__check_auth(&payload(), &assertion, &vec![], true, Some(&altered));
    assert_eq!(r, Err(Error::ClientDataJsonChallengeIncorrect));
}
