use spacemesh_sdk::derivation_path::{ChildIndex, DerivationPath};

const TEST_COIN: u32 = 999;

#[test]
fn test_from_key_str() {
    let s = "1/2";
    assert_eq!(
        DerivationPath::from_key_str_with_coin(s, TEST_COIN).unwrap(),
        DerivationPath::new_bip44_with_coin(TEST_COIN, Some(1), Some(2))
    );
    let s = "1'/2'";
    assert_eq!(
        DerivationPath::from_key_str_with_coin(s, TEST_COIN).unwrap(),
        DerivationPath::new_bip44_with_coin(TEST_COIN, Some(1), Some(2))
    );
    let s = "1\'/2\'";
    assert_eq!(
        DerivationPath::from_key_str_with_coin(s, TEST_COIN).unwrap(),
        DerivationPath::new_bip44_with_coin(TEST_COIN, Some(1), Some(2))
    );
    let s = "1";
    assert_eq!(
        DerivationPath::from_key_str_with_coin(s, TEST_COIN).unwrap(),
        DerivationPath::new_bip44_with_coin(TEST_COIN, Some(1), None)
    );
    let s = "1'";
    assert_eq!(
        DerivationPath::from_key_str_with_coin(s, TEST_COIN).unwrap(),
        DerivationPath::new_bip44_with_coin(TEST_COIN, Some(1), None)
    );
    let s = "1\'";
    assert_eq!(
        DerivationPath::from_key_str_with_coin(s, TEST_COIN).unwrap(),
        DerivationPath::new_bip44_with_coin(TEST_COIN, Some(1), None)
    );

    assert!(DerivationPath::from_key_str_with_coin("1/2/3", TEST_COIN).is_err());
    assert!(DerivationPath::from_key_str_with_coin("other", TEST_COIN).is_err());
    assert!(DerivationPath::from_key_str_with_coin("1o", TEST_COIN).is_err());
}

#[test]
fn test_from_absolute_path_str() {
    let s = "m/44/501";
    assert_eq!(
        DerivationPath::from_absolute_path_str(s).unwrap(),
        DerivationPath::default()
    );
    let s = "m/44'/501'";
    assert_eq!(
        DerivationPath::from_absolute_path_str(s).unwrap(),
        DerivationPath::default()
    );
    let s = "m/44'/501'/1/2";
    assert_eq!(
        DerivationPath::from_absolute_path_str(s).unwrap(),
        DerivationPath::new_bip44(Some(1), Some(2))
    );
    let s = "m/44'/501'/1'/2'";
    assert_eq!(
        DerivationPath::from_absolute_path_str(s).unwrap(),
        DerivationPath::new_bip44(Some(1), Some(2))
    );

    // Another coin of the same scheme
    let s = "m/44'/999'/1/2";
    assert_eq!(
        DerivationPath::from_absolute_path_str(s).unwrap(),
        DerivationPath::new_bip44_with_coin(TEST_COIN, Some(1), Some(2))
    );
    let s = "m/44'/999'/1'/2'";
    assert_eq!(
        DerivationPath::from_absolute_path_str(s).unwrap(),
        DerivationPath::new_bip44_with_coin(TEST_COIN, Some(1), Some(2))
    );

    // Paths outside the scheme
    let s = "m/501'/0'/0/0";
    assert_eq!(
        DerivationPath::from_absolute_path_str(s).unwrap(),
        DerivationPath::new(vec![
            ChildIndex::Hardened(501),
            ChildIndex::Hardened(0),
            ChildIndex::Hardened(0),
            ChildIndex::Hardened(0),
        ])
    );
    let s = "m/501'/0'/0'/0'";
    assert_eq!(
        DerivationPath::from_absolute_path_str(s).unwrap(),
        DerivationPath::new(vec![
            ChildIndex::Hardened(501),
            ChildIndex::Hardened(0),
            ChildIndex::Hardened(0),
            ChildIndex::Hardened(0),
        ])
    );
}

#[test]
fn test_get_query() {
    let derivation_path = DerivationPath::new_bip44_with_coin(TEST_COIN, None, None);
    assert_eq!(derivation_path.get_query(), "".to_string());
    let derivation_path = DerivationPath::new_bip44_with_coin(TEST_COIN, Some(1), None);
    assert_eq!(derivation_path.get_query(), "?key=1'".to_string());
    let derivation_path = DerivationPath::new_bip44_with_coin(TEST_COIN, Some(1), Some(2));
    assert_eq!(derivation_path.get_query(), "?key=1'/2'".to_string());
}

#[test]
fn test_derivation_path_debug() {
    let path = DerivationPath::default();
    assert_eq!(path.format(), "m/44'/501'".to_string());

    let path = DerivationPath::new_bip44(Some(1), None);
    assert_eq!(path.format(), "m/44'/501'/1'".to_string());

    let path = DerivationPath::new_bip44(Some(1), Some(2));
    assert_eq!(path.format(), "m/44'/501'/1'/2'".to_string());
}

#[test]
fn test_absolute_path_keeps_kinds() {
    let path = DerivationPath::from_absolute_path_insecure_str("m/44'/501'/1/2").unwrap();
    assert_eq!(
        path.path(),
        &[
            ChildIndex::Hardened(44),
            ChildIndex::Hardened(501),
            ChildIndex::Normal(1),
            ChildIndex::Normal(2),
        ]
    );
    assert_eq!(path.format(), "m/44'/501'/1/2".to_string());
}

#[test]
fn test_master_path() {
    let path = DerivationPath::from_absolute_path_insecure_str("m").unwrap();
    assert!(path.path().is_empty());
    assert_eq!(path.format(), "m".to_string());
    assert_eq!(path.get_query(), "".to_string());
    assert!(path.account().is_none());
    assert!(path.change().is_none());
}

#[test]
fn test_malformed_absolute_paths() {
    for text in [
        "", "m/", "/", "44'/501'", "n/44'", "M/44'", "m//1", "m/1/", "m/'", "m/+", "m/1''",
        "m/-1", "m/1 ", "m/ 1", "m/0x10", "m/1_0", "m/2147483648", "m/2147483648'",
        "m/4294967296", "m/99999999999999999999", "mm/1", "m/1/a", "m/１",
    ] {
        assert!(
            DerivationPath::from_absolute_path_insecure_str(text).is_err(),
            "{:?}",
            text
        );
        assert!(DerivationPath::from_absolute_path_str(text).is_err(), "{:?}", text);
    }
}

#[test]
fn test_error_carries_the_text() {
    let err = DerivationPath::from_absolute_path_insecure_str("m/44'/x").unwrap_err();
    assert_eq!(err.message(), "invalid derivation path: m/44'/x".to_string());
    let err = DerivationPath::from_key_str("1/2/3").unwrap_err();
    assert_eq!(err.message(), "invalid derivation path: 1/2/3".to_string());
}

#[test]
fn test_number_forms() {
    assert_eq!(
        DerivationPath::from_absolute_path_insecure_str("m/+7/007'/0/2147483647'")
            .unwrap()
            .path(),
        &[
            ChildIndex::Normal(7),
            ChildIndex::Hardened(7),
            ChildIndex::Normal(0),
            ChildIndex::Hardened(2147483647),
        ]
    );
    assert_eq!(
        DerivationPath::new(vec![ChildIndex::Normal(0), ChildIndex::Hardened(2147483647)])
            .format(),
        "m/0/2147483647'".to_string()
    );
    assert_eq!(
        DerivationPath::new(vec![ChildIndex::Normal(10), ChildIndex::Normal(1000000000)])
            .format(),
        "m/10/1000000000".to_string()
    );
}

#[test]
fn test_round_trip() {
    for account in [None, Some(0), Some(1), Some(9), Some(10), Some(0x7fff_ffff)] {
        for change in [None, Some(0), Some(2), Some(123456789), Some(0x7fff_ffff)] {
            for coin in [0, 501, 540, 999, 0x7fff_ffff] {
                let path = DerivationPath::new_bip44_with_coin(coin, account, change);
                let text = path.format();
                assert_eq!(
                    DerivationPath::from_absolute_path_insecure_str(&text).unwrap(),
                    path
                );
                assert_eq!(DerivationPath::from_absolute_path_str(&text).unwrap(), path);
            }
        }
    }
}

#[test]
fn test_bip44_shape() {
    let path = DerivationPath::new_bip44_with_coin(TEST_COIN, Some(5), None);
    assert_eq!(
        path.path(),
        &[
            ChildIndex::Hardened(44),
            ChildIndex::Hardened(999),
            ChildIndex::Hardened(5),
        ]
    );
    let path = DerivationPath::new_bip44_with_coin(TEST_COIN, Some(5), Some(6));
    assert_eq!(
        path.path(),
        &[
            ChildIndex::Hardened(44),
            ChildIndex::Hardened(999),
            ChildIndex::Hardened(5),
            ChildIndex::Hardened(6),
        ]
    );
    assert_eq!(path.account(), Some(&ChildIndex::Hardened(5)));
    assert_eq!(path.change(), Some(&ChildIndex::Hardened(6)));
    // without an account the change is left out
    let path = DerivationPath::new_bip44_with_coin(TEST_COIN, None, Some(6));
    assert_eq!(
        path.path(),
        &[ChildIndex::Hardened(44), ChildIndex::Hardened(999)]
    );
    assert_eq!(path, DerivationPath::new_bip44_with_coin(TEST_COIN, None, None));
}

#[test]
fn test_key_str_default_coin() {
    assert_eq!(
        DerivationPath::from_key_str("3/4").unwrap(),
        DerivationPath::new_bip44(Some(3), Some(4))
    );
    assert!(DerivationPath::from_key_str("").is_err());
    assert!(DerivationPath::from_key_str("m/1").is_err());
    assert!(DerivationPath::from_key_str("/1").is_err());
}

#[test]
fn test_child_index() {
    assert_eq!(ChildIndex::Hardened(7).to_u32(), 7);
    assert_eq!(ChildIndex::Normal(8).to_u32(), 8);
    assert!(ChildIndex::Hardened(0).is_hardened());
    assert!(!ChildIndex::Hardened(0).is_normal());
    assert!(ChildIndex::Normal(0).is_normal());
    assert!(!ChildIndex::Normal(0).is_hardened());
}

#[test]
fn test_clone_is_equal() {
    let path = DerivationPath::new_bip44(Some(1), Some(2));
    assert_eq!(path.clone(), path);
}

#[test]
fn test_parse_with_or_without_root() {
    let want = DerivationPath::new(vec![
        ChildIndex::Hardened(44),
        ChildIndex::Hardened(501),
        ChildIndex::Normal(1),
    ]);
    assert_eq!(DerivationPath::parse("m/44'/501'/1").unwrap(), want);
    assert_eq!(DerivationPath::parse("44'/501'/1").unwrap(), want);
    assert_eq!(DerivationPath::parse("m").unwrap(), DerivationPath::new(vec![]));
    assert_eq!(
        DerivationPath::parse("7").unwrap(),
        DerivationPath::new(vec![ChildIndex::Normal(7)])
    );
    for text in ["", "/", "m/", "/1", "1/", "m/m", "mm", "M/1", "1//2", "x"] {
        assert!(DerivationPath::parse(text).is_err(), "{:?}", text);
    }
    assert_eq!(
        DerivationPath::parse("m/x").unwrap_err().message(),
        "invalid derivation path: m/x".to_string()
    );
    let path = DerivationPath::new_bip44(Some(1), Some(2));
    assert_eq!(DerivationPath::parse(&path.format()).unwrap(), path);
}
