use soroban_sdk::testutils::{BytesN as _, EnvTestConfig};
use soroban_sdk::{BytesN, Env};
use webauthn_account::signer::{rank_ids, same_bytes, Rank};
use webauthn_account::{Contract, Error, SignerRecord};

fn id(first: u8, last: u8) -> [u8; 32] {
    let mut a = [0u8; 32];
    a[0] = first;
    a[31] = last;
    a
}

fn key(b: u8) -> [u8; 65] {
    let mut k = [b; 65];
    k[0] = 4;
    k
}

fn account_with(ids: &[[u8; 32]]) -> Contract {
    let mut c = Contract::new([9u8; 32], 1000);
    for (n, i) in ids.iter().enumerate() {
        assert_eq!(c.add_sig(true, *i, key(n as u8)), Ok(()));
    }
    c
}

#[test]
fn test() {
    let env = Env::new_with_config(EnvTestConfig { capture_snapshot_at_drop: false });
    let salt: BytesN<32> = BytesN::random(&env);
    let pk: BytesN<65> = BytesN::random(&env);
    let mut account = Contract::new([7u8; 32], 4095);
    assert_eq!(account.add_sig(true, salt.to_array(), pk.to_array()), Ok(()));
    assert_eq!(account.list_sigs(), vec![salt.to_array()]);
    assert_eq!(account.sudo_signer(), Some(salt.to_array()));
    assert_eq!(account.public_key(&salt.to_array()), Some(pk.to_array()));
}

#[test]
fn new_account_is_uninitialized() {
    let c = Contract::new([9u8; 32], 1000);
    assert_eq!(c.list_sigs(), Vec::<[u8; 32]>::new());
    assert_eq!(c.sudo_signer(), None);
    assert_eq!(c.address(), [9u8; 32]);
    assert_eq!(c.max_ttl(), 1000);
    assert_eq!(c.instance_ttl(), 0);
    assert_eq!(c.public_key(&id(1, 1)), None);
}

#[test]
fn first_add_installs_the_sudo_signer() {
    let mut c = Contract::new([9u8; 32], 1000);
    assert_eq!(c.add_sig(false, id(5, 0), key(1)), Ok(()));
    assert_eq!(c.sudo_signer(), Some(id(5, 0)));
    assert_eq!(c.list_sigs(), vec![id(5, 0)]);
    assert_eq!(c.public_key(&id(5, 0)), Some(key(1)));
    assert_eq!(c.key_ttl(&id(5, 0)), Some(1000));
    assert_eq!(c.instance_ttl(), 1000);
}

#[test]
fn second_add_without_authorization_is_not_permitted() {
    let mut c = Contract::new([9u8; 32], 1000);
    assert_eq!(c.add_sig(false, id(5, 0), key(1)), Ok(()));
    assert_eq!(c.add_sig(false, id(6, 0), key(2)), Err(Error::NotPermitted));
    assert_eq!(c.list_sigs(), vec![id(5, 0)]);
    assert_eq!(c.public_key(&id(6, 0)), None);
    assert_eq!(c.add_sig(true, id(6, 0), key(2)), Ok(()));
    assert_eq!(c.sudo_signer(), Some(id(5, 0)));
    assert_eq!(c.list_sigs(), vec![id(5, 0), id(6, 0)]);
}

#[test]
fn adding_a_registered_signer_is_not_permitted() {
    let mut c = account_with(&[id(5, 0), id(3, 0)]);
    assert_eq!(c.add_sig(true, id(3, 0), key(77)), Err(Error::NotPermitted));
    assert_eq!(c.list_sigs(), vec![id(3, 0), id(5, 0)]);
    assert_eq!(c.public_key(&id(3, 0)), Some(key(1)));
}

#[test]
fn registry_is_sorted_whatever_the_order_of_adding() {
    let ids = [id(9, 0), id(1, 0), id(5, 200), id(5, 3), id(0, 255), id(255, 0), id(1, 1)];
    let c = account_with(&ids);
    let mut expected = ids.to_vec();
    expected.sort();
    assert_eq!(c.list_sigs(), expected);
    assert_eq!(c.sudo_signer(), Some(id(9, 0)));
    for (n, i) in ids.iter().enumerate() {
        assert_eq!(c.find(i), Ok(expected.iter().position(|e| e == i).unwrap()));
        assert_eq!(c.public_key(i), Some(key(n as u8)));
    }
    assert_eq!(c.find(&id(0, 0)), Err(0));
    assert_eq!(c.find(&id(5, 4)), Err(4));
    assert_eq!(c.find(&id(255, 1)), Err(7));
}

#[test]
fn removing_the_sudo_signer_is_not_permitted() {
    let mut c = account_with(&[id(5, 0), id(3, 0)]);
    assert_eq!(c.rm_sig(true, id(5, 0)), Err(Error::NotPermitted));
    assert_eq!(c.rm_sig(false, id(5, 0)), Err(Error::NotPermitted));
    assert_eq!(c.list_sigs(), vec![id(3, 0), id(5, 0)]);
    assert_eq!(c.sudo_signer(), Some(id(5, 0)));
    assert_eq!(c.public_key(&id(5, 0)), Some(key(0)));
}

#[test]
fn sudo_guard_comes_before_authorization() {
    let empty = Contract::new([9u8; 32], 1000);
    assert_eq!(empty.sudo_guard(&id(1, 0)), Err(Error::NotFound));
    let c = account_with(&[id(5, 0), id(3, 0)]);
    assert_eq!(c.sudo_guard(&id(5, 0)), Err(Error::NotPermitted));
    assert_eq!(c.sudo_guard(&id(3, 0)), Ok(()));
    assert_eq!(c.sudo_guard(&id(4, 0)), Ok(()));
}

#[test]
fn remove_reports_each_refusal() {
    let mut empty = Contract::new([9u8; 32], 1000);
    assert_eq!(empty.rm_sig(true, id(1, 0)), Err(Error::NotFound));
    let mut c = account_with(&[id(5, 0), id(3, 0), id(7, 0)]);
    assert_eq!(c.rm_sig(false, id(3, 0)), Err(Error::NotPermitted));
    assert_eq!(c.rm_sig(true, id(4, 0)), Err(Error::NotFound));
    assert_eq!(c.list_sigs(), vec![id(3, 0), id(5, 0), id(7, 0)]);
    assert_eq!(c.rm_sig(true, id(3, 0)), Ok(()));
    assert_eq!(c.list_sigs(), vec![id(5, 0), id(7, 0)]);
    assert_eq!(c.public_key(&id(3, 0)), None);
    assert_eq!(c.rm_sig(true, id(3, 0)), Err(Error::NotFound));
    assert_eq!(c.rm_sig(true, id(7, 0)), Ok(()));
    assert_eq!(c.list_sigs(), vec![id(5, 0)]);
}

#[test]
fn promote_needs_a_registered_signer() {
    let mut c = account_with(&[id(5, 0), id(3, 0)]);
    assert_eq!(c.resudo(true, id(4, 0)), Err(Error::NotFound));
    assert_eq!(c.sudo_signer(), Some(id(5, 0)));
    assert_eq!(c.resudo(false, id(3, 0)), Err(Error::NotPermitted));
    assert_eq!(c.sudo_signer(), Some(id(5, 0)));
    assert_eq!(c.resudo(true, id(3, 0)), Ok(()));
    assert_eq!(c.sudo_signer(), Some(id(3, 0)));
    assert_eq!(c.list_sigs(), vec![id(3, 0), id(5, 0)]);
    assert_eq!(c.rm_sig(true, id(3, 0)), Err(Error::NotPermitted));
    assert_eq!(c.rm_sig(true, id(5, 0)), Ok(()));
    assert_eq!(c.list_sigs(), vec![id(3, 0)]);
    let mut empty = Contract::new([9u8; 32], 1000);
    assert_eq!(empty.resudo(true, id(3, 0)), Err(Error::NotFound));
}

#[test]
fn sudo_signer_stays_registered_through_a_run_of_changes() {
    let mut c = Contract::new([9u8; 32], 50);
    let mut seed: u32 = 12345;
    for _ in 0..400 {
        seed = seed.wrapping_mul(1664525).wrapping_add(1013904223);
        let who = id((seed >> 24) as u8 % 8, (seed >> 16) as u8 % 3);
        let _ = match (seed >> 8) % 3 {
            0 => c.add_sig(true, who, key(seed as u8)),
            1 => c.rm_sig(true, who),
            _ => c.resudo(true, who),
        };
        let listed = c.list_sigs();
        assert!(listed.windows(2).all(|w| w[0] < w[1]));
        match c.sudo_signer() {
            Some(s) => assert!(listed.contains(&s)),
            None => assert!(listed.is_empty()),
        }
    }
}

#[test]
fn extend_ttl_sets_the_instance_lifetime() {
    let mut c = Contract::new([9u8; 32], 777);
    assert_eq!(c.instance_ttl(), 0);
    c.extend_ttl();
    assert_eq!(c.instance_ttl(), 777);
    assert_eq!(c.list_sigs(), Vec::<[u8; 32]>::new());
}

#[test]
fn from_parts_accepts_only_valid_accounts() {
    let rec = |i: [u8; 32]| SignerRecord { id: i, public_key: key(1), ttl: 3 };
    let ok = Contract::from_parts([1u8; 32], vec![rec(id(1, 0)), rec(id(2, 0))], Some(id(2, 0)), 5, 10);
    let ok = ok.expect("a sorted registry with a registered sudo signer");
    assert_eq!(ok.list_sigs(), vec![id(1, 0), id(2, 0)]);
    assert_eq!(ok.sudo_signer(), Some(id(2, 0)));
    assert_eq!(ok.instance_ttl(), 5);
    assert_eq!(ok.key_ttl(&id(1, 0)), Some(3));
    assert!(Contract::from_parts([1u8; 32], vec![], None, 5, 10).is_some());
    assert!(Contract::from_parts([1u8; 32], vec![rec(id(2, 0)), rec(id(1, 0))], Some(id(2, 0)), 5, 10).is_none());
    assert!(Contract::from_parts([1u8; 32], vec![rec(id(1, 0)), rec(id(1, 0))], Some(id(1, 0)), 5, 10).is_none());
    assert!(Contract::from_parts([1u8; 32], vec![rec(id(1, 0))], Some(id(2, 0)), 5, 10).is_none());
    assert!(Contract::from_parts([1u8; 32], vec![rec(id(1, 0))], None, 5, 10).is_none());
    assert!(Contract::from_parts([1u8; 32], vec![], Some(id(1, 0)), 5, 10).is_none());
}

#[test]
fn identifiers_are_ordered_byte_by_byte() {
    assert_eq!(rank_ids(&id(1, 0), &id(1, 0)), Rank::Same);
    assert_eq!(rank_ids(&id(1, 255), &id(2, 0)), Rank::Below);
    assert_eq!(rank_ids(&id(2, 0), &id(1, 255)), Rank::Above);
    assert_eq!(rank_ids(&id(0, 1), &id(0, 2)), Rank::Below);
    assert!(same_bytes(b"abc", b"abc"));
    assert!(!same_bytes(b"abc", b"abd"));
    assert!(!same_bytes(b"abc", b"ab"));
}

#[test]
fn errors_keep_their_numbers() {
    assert_eq!(Error::NotFound.code(), 1);
    assert_eq!(Error::NotPermitted.code(), 2);
    assert_eq!(Error::ClientDataJsonChallengeIncorrect.code(), 3);
    assert_eq!(Error::Secp256r1PublicKeyParse.code(), 4);
    assert_eq!(Error::Secp256r1SignatureParse.code(), 5);
    assert_eq!(Error::Secp256r1VerifyFailed.code(), 6);
    assert_eq!(Error::JsonParseError.code(), 7);
    assert_eq!(Error::InvalidContext.code(), 8);
}
