use ed25519_dalek_bip32::{ChildIndex as OutsideIndex, ExtendedSecretKey};
use spacemesh_sdk::derivation_path::{ChildIndex, DerivationPath};
use spacemesh_sdk::key_derivation::{derive_key, ExtendedKey, KeyError};
use spacemesh_sdk::remote_wallet::parse_field_number;
use spacemesh_sdk::text::parse_decimal;
use std::str::FromStr;

/// Every text of up to `len` characters of `alphabet`.
fn texts(alphabet: &[char], len: usize) -> Vec<String> {
    let mut all = vec![String::new()];
    let mut last = vec![String::new()];
    for _ in 0..len {
        let mut next = Vec::new();
        for text in &last {
            for c in alphabet {
                let mut longer = text.clone();
                longer.push(*c);
                next.push(longer);
            }
        }
        all.extend(next.iter().cloned());
        last = next;
    }
    all
}

fn outside(index: &ChildIndex) -> OutsideIndex {
    match index {
        ChildIndex::Normal(n) => OutsideIndex::Normal(*n),
        ChildIndex::Hardened(n) => OutsideIndex::Hardened(*n),
    }
}

fn check_path(text: &str) {
    let read = DerivationPath::from_absolute_path_insecure_str(text);
    let want = ed25519_dalek_bip32::DerivationPath::from_str(text);
    match (read, want) {
        (Ok(read), Ok(want)) => {
            let indexes: Vec<OutsideIndex> = read.path().iter().map(outside).collect();
            assert_eq!(indexes.as_slice(), want.path(), "{:?}", text);
            assert_eq!(read.format(), want.to_string(), "{:?}", text);
        }
        (Err(_), Err(_)) => {}
        (read, want) => panic!("{:?}: {:?} {:?}", text, read, want),
    }
}

#[test]
fn test_paths_agree_with_outside_parser() {
    for text in texts(&['m', '/', '0', '1', '9', '\'', '+', '-', ' ', 'a'], 5) {
        check_path(&text);
    }
    for text in [
        "m/44'/501'/0'/0'",
        "m/2147483647",
        "m/2147483647'",
        "m/2147483648",
        "m/2147483648'",
        "m/4294967295",
        "m/4294967296'",
        "m/00000000000000000000000000000000000000001'",
        "m/+2147483647'/+0",
        "m/18446744073709551616",
        "m/0'/2147483647'/1'/2147483646'/2'",
        "m/1/2/3/4/5/6/7/8/9/10/11/12",
        "m/٣",
        "m/1'/é",
        "ｍ/1",
    ] {
        check_path(text);
    }
}

#[test]
fn test_numbers_agree_with_std() {
    for text in texts(&['0', '1', '5', '6', '9', '+', '-', '\'', ' '], 5) {
        let chars: Vec<char> = text.chars().collect();
        assert_eq!(parse_decimal(&chars, u32::MAX), text.parse::<u32>().ok(), "{:?}", text);
        assert_eq!(
            parse_decimal(&chars, 0xffff).map(|n| n as u16),
            text.parse::<u16>().ok(),
            "{:?}",
            text
        );
        assert_eq!(
            parse_field_number(&chars),
            text.replace('\'', "").parse::<u16>().ok(),
            "{:?}",
            text
        );
    }
    for text in ["65535", "65536", "+65535", "4294967295", "4294967296", "99999999999"] {
        let chars: Vec<char> = text.chars().collect();
        assert_eq!(parse_decimal(&chars, u32::MAX), text.parse::<u32>().ok());
        assert_eq!(parse_field_number(&chars), text.parse::<u16>().ok());
    }
}

#[test]
fn test_keys_agree_with_outside_derivation() {
    let seed: Vec<u8> = (0u8..64).collect();
    for text in [
        "m",
        "m/0'",
        "m/44'/540'/0'/0'/0'",
        "m/2147483647'/0'/1'",
        "m/1'/2'/3'/4'/5'/6'/7'/8'/9'/10'",
    ] {
        let path = ed25519_dalek_bip32::DerivationPath::from_str(text).unwrap();
        let want = ExtendedSecretKey::from_seed(&seed).unwrap().derive(&path).unwrap();
        let keypair = derive_key(&seed, text).unwrap();
        assert_eq!(keypair[..32], want.secret_key.to_bytes());
        assert_eq!(keypair[32..], want.public_key().to_bytes());
        let read = DerivationPath::from_absolute_path_insecure_str(text).unwrap();
        let key = match ExtendedKey::derive(&seed, read.path()) {
            Ok(key) => key,
            Err(e) => panic!("{:?}", e),
        };
        assert_eq!(key.private_key, want.secret_key.to_bytes());
        assert_eq!(key.chain_code, want.chain_code);
    }
    // a path that is longer than the outside crate can count its depth
    let long: Vec<ChildIndex> = (0..300).map(ChildIndex::Hardened).collect();
    assert!(ExtendedKey::derive(&seed, &long).is_ok());
    assert!(matches!(
        derive_key(&seed, "m/0'/1"),
        Err(KeyError::DerivationFailed)
    ));
}
