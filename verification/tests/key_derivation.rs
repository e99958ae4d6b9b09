use spacemesh_sdk::derivation_path::{ChildIndex, DerivationPath};
use spacemesh_sdk::key_derivation::{
    check_strict, derive_key, derive_keypair, derive_strict, derive_strict_with_coin,
    is_fully_hardened, ExtendedKey, KeyError, PathFault, SMESH_COIN,
};

fn hex(text: &str) -> Vec<u8> {
    let digits: Vec<u32> = text.chars().map(|c| c.to_digit(16).unwrap()).collect();
    digits.chunks(2).map(|pair| (pair[0] * 16 + pair[1]) as u8).collect()
}

const SEED: &str = "fffcf9f6f3f0edeae7e4e1dedbd8d5d2cfccc9c6c3c0bdbab7b4b1aeaba8a5a29f9c999693908d8a8784817e7b7875726f6c696663605d5a5754514e4b484542";

fn fault_of(r: Result<[u8; 64], KeyError>) -> Option<PathFault> {
    match r {
        Err(KeyError::InvalidDerivationPath { fault, .. }) => Some(fault),
        _ => None,
    }
}

#[test]
fn test_master_from_seed() {
    let master = match ExtendedKey::master_from_seed(&hex(SEED)) {
        Ok(master) => master,
        Err(e) => panic!("{:?}", e),
    };
    assert_eq!(
        master.private_key.to_vec(),
        hex("171cb88b1b3c1db25add599712e36245d75bc65a1a5c9e18d76f9f2b1eab4012")
    );
    assert_eq!(
        master.chain_code.to_vec(),
        hex("ef70a74db9c3a5af931b5fe73ed8e1a53464133654fd55e7a66f8570b8e33c3b")
    );
    assert_eq!(
        master.public_key().to_vec(),
        hex("8fe9693f8fa62a4305a140b9764c5ee01e455963744fe18204b4fb948249308a")
    );
}

#[test]
fn test_short_seed() {
    assert!(matches!(
        ExtendedKey::master_from_seed(&[7u8; 31]),
        Err(KeyError::InvalidSeed)
    ));
    assert!(matches!(ExtendedKey::master_from_seed(&[]), Err(KeyError::InvalidSeed)));
    assert!(ExtendedKey::master_from_seed(&[7u8; 32]).is_ok());
    assert!(matches!(derive_key(&[7u8; 31], "m/0'"), Err(KeyError::InvalidSeed)));
    assert!(matches!(
        derive_strict(&[7u8; 31], "m/44'/540'"),
        Err(KeyError::InvalidSeed)
    ));
    // the seed is looked at before the path
    assert!(matches!(derive_strict(&[7u8; 31], "nonsense"), Err(KeyError::InvalidSeed)));
}

#[test]
fn test_derive_key_vector() {
    let keypair = derive_key(&hex(SEED), "m/0'/2147483647'/1'/2147483646'/2'").unwrap();
    assert_eq!(
        keypair[..32].to_vec(),
        hex("551d333177df541ad876a60ea71f00447931c0a9da16f227c11ea080d7391b8d")
    );
    assert_eq!(
        keypair[32..].to_vec(),
        hex("47150c75db263559a70d5778bf36abbab30fb061ad69f69ece61a72b0cfa4fc0")
    );
}

#[test]
fn test_derive_steps() {
    let path = DerivationPath::from_absolute_path_insecure_str("m/0'/2147483647'/1'").unwrap();
    let whole = match ExtendedKey::derive(&hex(SEED), path.path()) {
        Ok(key) => key,
        Err(e) => panic!("{:?}", e),
    };
    let mut key = match ExtendedKey::master_from_seed(&hex(SEED)) {
        Ok(key) => key,
        Err(e) => panic!("{:?}", e),
    };
    for index in path.path() {
        let parent = (key.private_key, key.chain_code);
        key = match key.derive_child(*index) {
            Ok(key) => key,
            Err(e) => panic!("{:?}", e),
        };
        assert_ne!(parent.0, key.private_key);
        assert_ne!(parent.1, key.chain_code);
    }
    assert_eq!(whole.private_key, key.private_key);
    assert_eq!(whole.chain_code, key.chain_code);
    assert_eq!(whole.public_key(), key.public_key());
    let bytes = whole.to_keypair_bytes();
    assert_eq!(bytes[..32], whole.private_key);
    assert_eq!(bytes[32..], whole.public_key());
    assert_ne!(whole.public_key(), whole.private_key);
}

#[test]
fn test_normal_index_has_no_child() {
    let master = match ExtendedKey::master_from_seed(&hex(SEED)) {
        Ok(master) => master,
        Err(e) => panic!("{:?}", e),
    };
    assert!(matches!(
        master.derive_child(ChildIndex::Normal(0)),
        Err(KeyError::DerivationFailed)
    ));
    assert!(master.derive_child(ChildIndex::Hardened(0)).is_ok());
    assert!(matches!(
        derive_key(&hex(SEED), "m/0'/1/2'"),
        Err(KeyError::DerivationFailed)
    ));
    assert!(matches!(
        derive_keypair(&hex(SEED), &[ChildIndex::Hardened(0), ChildIndex::Normal(1)]),
        Err(KeyError::DerivationFailed)
    ));
}

#[test]
fn test_master_keypair() {
    let keypair = derive_key(&hex(SEED), "m").unwrap();
    assert_eq!(
        keypair[..32].to_vec(),
        hex("171cb88b1b3c1db25add599712e36245d75bc65a1a5c9e18d76f9f2b1eab4012")
    );
    assert_eq!(keypair.to_vec(), derive_keypair(&hex(SEED), &[]).unwrap().to_vec());
}

#[test]
fn test_derive_key_malformed_path() {
    match derive_key(&hex(SEED), "44'/540'") {
        Err(KeyError::InvalidDerivationPath { text, fault }) => {
            assert_eq!(text, "44'/540'");
            assert_eq!(fault, PathFault::Malformed);
        }
        other => panic!("{:?}", other.map(|_| ())),
    }
}

#[test]
fn test_derivation_is_deterministic() {
    let seed = hex(SEED);
    let first = derive_strict(&seed, "m/44'/540'/0'/0'/0'").unwrap();
    let second = derive_strict(&seed, "m/44'/540'/0'/0'/0'").unwrap();
    assert_eq!(first, second);
    assert_eq!(first, derive_key(&seed, "m/44'/540'/0'/0'/0'").unwrap());
    let mut other_seed = seed.clone();
    other_seed[0] ^= 1;
    let other = derive_strict(&other_seed, "m/44'/540'/0'/0'/0'").unwrap();
    assert_ne!(first, other);
    assert_ne!(first, derive_strict(&seed, "m/44'/540'/0'/0'/1'").unwrap());
}

#[test]
fn test_strict_accepts() {
    let seed = hex(SEED);
    for path in [
        "m/44'/540'",
        "m/44'/540'/0'",
        "m/44'/540'/0'/0'",
        "m/44'/540'/0'/0'/0'",
        "m/44'/540'/2147483647'/1'/2'",
    ] {
        assert!(derive_strict(&seed, path).is_ok(), "{}", path);
    }
    assert!(derive_strict_with_coin(&seed, "m/44'/501'/0'", 501).is_ok());
}

#[test]
fn test_strict_rejects() {
    let seed = hex(SEED);
    let fault = |path: &str| fault_of(derive_strict(&seed, path));
    assert_eq!(fault("m"), Some(PathFault::TooShort));
    assert_eq!(fault("m/44'"), Some(PathFault::TooShort));
    assert_eq!(fault("m/44'/540'/0'/0'/0'/0'"), Some(PathFault::TooLong));
    assert_eq!(fault("m/44'/540'/0'/0'/0'/0'/0'"), Some(PathFault::TooLong));
    assert_eq!(fault("m/43'/540'/0'/0'/0'"), Some(PathFault::BadPurpose));
    assert_eq!(fault("m/44'/541'/0'/0'/0'"), Some(PathFault::BadCoinType));
    assert_eq!(fault("m/44'/501'/0'/0'/0'"), Some(PathFault::BadCoinType));
    assert_eq!(fault("m/44/540'/0'/0'/0'"), Some(PathFault::NotHardened));
    assert_eq!(fault("m/44'/540/0'/0'/0'"), Some(PathFault::NotHardened));
    assert_eq!(fault("m/44'/540'/0/0'/0'"), Some(PathFault::NotHardened));
    assert_eq!(fault("m/44'/540'/0'/0'/0"), Some(PathFault::NotHardened));
    assert_eq!(fault("m/44'/540'/x"), Some(PathFault::Malformed));
    assert_eq!(fault("44'/540'"), Some(PathFault::Malformed));
    assert_eq!(fault(""), Some(PathFault::Malformed));
    assert_eq!(
        fault_of(derive_strict_with_coin(&seed, "m/44'/540'/0'", 501)),
        Some(PathFault::BadCoinType)
    );
}

#[test]
fn test_check_strict() {
    let h = ChildIndex::Hardened;
    let n = ChildIndex::Normal;
    assert_eq!(check_strict(&[h(44), h(540)], SMESH_COIN), None);
    assert_eq!(check_strict(&[h(44), h(540), h(0), h(0), h(0)], SMESH_COIN), None);
    assert_eq!(check_strict(&[], SMESH_COIN), Some(PathFault::TooShort));
    assert_eq!(check_strict(&[h(44)], SMESH_COIN), Some(PathFault::TooShort));
    assert_eq!(
        check_strict(&[h(44), h(540), h(0), h(0), h(0), h(0)], SMESH_COIN),
        Some(PathFault::TooLong)
    );
    assert_eq!(check_strict(&[h(45), h(540)], SMESH_COIN), Some(PathFault::BadPurpose));
    assert_eq!(check_strict(&[h(44), h(539)], SMESH_COIN), Some(PathFault::BadCoinType));
    assert_eq!(check_strict(&[n(44), h(540)], SMESH_COIN), Some(PathFault::NotHardened));
    assert_eq!(
        check_strict(&[h(44), h(540), n(0)], SMESH_COIN),
        Some(PathFault::NotHardened)
    );
    // the rules are checked in order
    assert_eq!(check_strict(&[n(43)], SMESH_COIN), Some(PathFault::TooShort));
    assert_eq!(check_strict(&[n(43), n(1)], SMESH_COIN), Some(PathFault::BadPurpose));
    assert_eq!(check_strict(&[n(44), n(1)], SMESH_COIN), Some(PathFault::BadCoinType));
    assert!(is_fully_hardened(&[]));
    assert!(is_fully_hardened(&[h(1), h(2)]));
    assert!(!is_fully_hardened(&[h(1), n(2)]));
}

#[test]
fn test_key_error_messages() {
    assert_eq!(KeyError::InvalidSeed.message(), "seed must be at least 32 bytes");
    assert_eq!(KeyError::DerivationFailed.message(), "failed to derive derivation path");
    let message = |fault: PathFault| {
        KeyError::InvalidDerivationPath { text: "m/1".to_string(), fault }.message()
    };
    assert_eq!(message(PathFault::Malformed), "failed to parse derivation path: m/1");
    assert_eq!(message(PathFault::TooShort), "path too short: m/1");
    assert_eq!(message(PathFault::TooLong), "path too long: m/1");
    assert_eq!(message(PathFault::BadPurpose), "bad path purpose: m/1");
    assert_eq!(message(PathFault::BadCoinType), "bad path coin type: m/1");
    assert_eq!(message(PathFault::NotHardened), "path isn't fully hardened: m/1");
}
