use score_ledger::auth::check;
use score_ledger::error::ContractError;
use score_ledger::state::{ScoreRecord, Store};

#[test]
fn proper_initialization() {
    let mut store = Store::new();
    store.initialize("creator".to_string());
    assert_eq!("creator", store.get_owner().unwrap());
}

#[test]
#[allow(non_snake_case)]
fn enterScore() {
    let mut store = Store::new();
    store.initialize("creator".to_string());

    // owner can set a score
    let res = store.set_score(
        "terra1ptd53ng2fv38gd3x5665zzr478hpq3x8g8slc5".to_string(),
        "moon".to_string(),
        5,
        &"creator".to_string(),
    );
    assert!(res.is_ok());

    let res = store.set_score(
        "creator".to_string(),
        "Mirror".to_string(),
        5,
        &"creator".to_string(),
    );
    assert!(res.is_ok());

    let score = store
        .get_score(&"creator".to_string(), &"Mirror".to_string())
        .unwrap();
    assert_eq!(5, score);

    // others cannot set a score
    let res = store.set_score(
        "creator".to_string(),
        "USDT".to_string(),
        5,
        &"anyone".to_string(),
    );
    match res {
        Err(ContractError::Unauthorized) => {}
        _ => panic!("Must return unauthorized error"),
    }
}

#[test]
#[allow(non_snake_case)]
fn onwerlookup() {
    let mut store = Store::new();
    store.initialize("creator".to_string());

    // look up owner
    assert_eq!("creator", store.get_owner().unwrap());
}

#[test]
fn scorelookup() {
    let mut store = Store::new();
    store.initialize("creator".to_string());

    // look up the score inserted by the owner
    let res = store.set_score(
        "creator".to_string(),
        "Mirror".to_string(),
        5,
        &"creator".to_string(),
    );
    assert!(res.is_ok());

    let score = store
        .get_score(&"creator".to_string(), &"Mirror".to_string())
        .unwrap();
    assert_eq!(5, score);
}

#[test]
fn initialization_sets_any_owner() {
    let mut store = Store::new();
    store.initialize("terra1ptd53ng2fv38gd3x5665zzr478hpq3x8g8slc5".to_string());
    assert_eq!(
        "terra1ptd53ng2fv38gd3x5665zzr478hpq3x8g8slc5",
        store.get_owner().unwrap()
    );
}

#[test]
fn owner_lookup_before_initialization_fails() {
    let store = Store::new();
    assert_eq!(Err(ContractError::NotFound), store.get_owner());
}

#[test]
fn set_score_before_initialization_fails() {
    let mut store = Store::new();
    let res = store.set_score(
        "addr".to_string(),
        "token".to_string(),
        1,
        &"anyone".to_string(),
    );
    assert_eq!(Err(ContractError::NotFound), res);
}

#[test]
fn authorization_barrier_keeps_present_and_absent_keys() {
    let mut store = Store::new();
    store.initialize("creator".to_string());
    store
        .set_score("addr".to_string(), "token".to_string(), 3, &"creator".to_string())
        .unwrap();

    // a rejected write changes nothing, neither the attempted key ...
    let res = store.set_score(
        "addr".to_string(),
        "token".to_string(),
        9,
        &"anyone".to_string(),
    );
    assert_eq!(Err(ContractError::Unauthorized), res);
    assert_eq!(
        Ok(3),
        store.get_score(&"addr".to_string(), &"token".to_string())
    );

    // ... nor a key that was absent before
    let res = store.set_score(
        "other".to_string(),
        "token".to_string(),
        9,
        &"anyone".to_string(),
    );
    assert_eq!(Err(ContractError::Unauthorized), res);
    assert_eq!(
        Err(ContractError::NotFound),
        store.get_score(&"other".to_string(), &"token".to_string())
    );
}

#[test]
fn last_write_wins_including_negative_values() {
    let mut store = Store::new();
    store.initialize("creator".to_string());
    let owner = "creator".to_string();
    store
        .set_score("addr".to_string(), "token".to_string(), 7, &owner)
        .unwrap();
    store
        .set_score("addr".to_string(), "token".to_string(), -4, &owner)
        .unwrap();
    assert_eq!(
        Ok(-4),
        store.get_score(&"addr".to_string(), &"token".to_string())
    );

    // writing the same value again is idempotent
    store
        .set_score("addr".to_string(), "token".to_string(), -4, &owner)
        .unwrap();
    assert_eq!(
        Ok(-4),
        store.get_score(&"addr".to_string(), &"token".to_string())
    );
}

#[test]
fn key_isolation_leaves_other_keys_alone() {
    let mut store = Store::new();
    store.initialize("creator".to_string());
    let owner = "creator".to_string();
    store
        .set_score("a1".to_string(), "t1".to_string(), 1, &owner)
        .unwrap();
    store
        .set_score("a1".to_string(), "t2".to_string(), 2, &owner)
        .unwrap();
    store
        .set_score("a2".to_string(), "t1".to_string(), 3, &owner)
        .unwrap();

    // overwrite one key; the other keys keep their values, and a key that
    // shares only the address or only the token is a different key
    store
        .set_score("a1".to_string(), "t1".to_string(), 10, &owner)
        .unwrap();
    assert_eq!(Ok(10), store.get_score(&"a1".to_string(), &"t1".to_string()));
    assert_eq!(Ok(2), store.get_score(&"a1".to_string(), &"t2".to_string()));
    assert_eq!(Ok(3), store.get_score(&"a2".to_string(), &"t1".to_string()));
    assert_eq!(
        Err(ContractError::NotFound),
        store.get_score(&"a2".to_string(), &"t2".to_string())
    );
}

#[test]
fn absence_for_keys_never_written() {
    let mut store = Store::new();
    assert_eq!(
        Err(ContractError::NotFound),
        store.get_score(&"addr".to_string(), &"token".to_string())
    );
    store.initialize("creator".to_string());
    assert_eq!(
        Err(ContractError::NotFound),
        store.get_score(&"addr".to_string(), &"token".to_string())
    );
}

#[test]
fn end_to_end_scenario() {
    let mut store = Store::new();
    store.initialize("creator".to_string());
    assert_eq!("creator", store.get_owner().unwrap());

    store
        .set_score("addrA".to_string(), "moon".to_string(), 5, &"creator".to_string())
        .unwrap();
    store
        .set_score("creator".to_string(), "Mirror".to_string(), 5, &"creator".to_string())
        .unwrap();
    assert_eq!(
        Ok(5),
        store.get_score(&"creator".to_string(), &"Mirror".to_string())
    );

    let res = store.set_score(
        "creator".to_string(),
        "USDT".to_string(),
        5,
        &"anyone".to_string(),
    );
    assert_eq!(Err(ContractError::Unauthorized), res);
    assert_eq!(
        Err(ContractError::NotFound),
        store.get_score(&"creator".to_string(), &"USDT".to_string())
    );
}

#[test]
fn gate_is_strict_equality() {
    assert!(check(&"creator".to_string(), &"creator".to_string()));
    assert!(!check(&"anyone".to_string(), &"creator".to_string()));
    assert!(!check(&"Creator".to_string(), &"creator".to_string()));
    assert!(!check(&"".to_string(), &"creator".to_string()));
}

#[test]
fn error_kinds_are_distinguishable() {
    assert_ne!(ContractError::Unauthorized, ContractError::NotFound);
    assert_ne!(ContractError::Unauthorized, ContractError::InvalidAddress);
    assert_ne!(ContractError::InvalidAddress, ContractError::NotFound);
}

#[test]
fn parts_round_trip_preserves_state() {
    let mut store = Store::new();
    store.initialize("creator".to_string());
    let owner = "creator".to_string();
    store
        .set_score("addr".to_string(), "token".to_string(), -2, &owner)
        .unwrap();
    store
        .set_score("addr".to_string(), "other".to_string(), 8, &owner)
        .unwrap();

    let (owner_part, records) = store.to_parts();
    assert_eq!(Some("creator".to_string()), owner_part);
    assert_eq!(2, records.len());

    let restored = Store::from_parts(owner_part, records);
    assert_eq!("creator", restored.get_owner().unwrap());
    assert_eq!(
        Ok(-2),
        restored.get_score(&"addr".to_string(), &"token".to_string())
    );
    assert_eq!(
        Ok(8),
        restored.get_score(&"addr".to_string(), &"other".to_string())
    );
}

#[test]
fn from_parts_with_repeated_key_keeps_first() {
    let records = vec![
        ScoreRecord {
            address: "addr".to_string(),
            token: "token".to_string(),
            score: 1,
        },
        ScoreRecord {
            address: "addr".to_string(),
            token: "token".to_string(),
            score: 2,
        },
    ];
    let store = Store::from_parts(Some("creator".to_string()), records);
    assert_eq!(
        Ok(1),
        store.get_score(&"addr".to_string(), &"token".to_string())
    );
}
