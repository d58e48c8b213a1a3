use vault_zapper::asset::{AssetList, Coin};
use vault_zapper::error::ContractError;
use vault_zapper::event::{reply, Attribute, Event, UNLOCK_REPLY_ID};
use vault_zapper::lockup::{
    execute_unlock, execute_withdraw_unlocked, BlockInfo, Expiration, LockupLedger,
};
use vault_zapper::asset::AssetInfo;
use vault_zapper::msg::{Action, ReceiveChoice, Vault};

fn s(x: &str) -> String {
    x.to_string()
}

fn store_lock_id(ledger: &mut LockupLedger, user: &str, vault_address: &str, lock_id: u64) {
    ledger.save(s(user), s(vault_address), lock_id);
}

fn collect(
    ledger: &LockupLedger,
    user: &str,
    vault: Option<&str>,
    id: Option<u64>,
    limit: Option<u32>,
) -> Vec<(String, u64)> {
    ledger
        .paginate_all_user_unlocking_positions(&s(user), vault.map(s), id, limit)
        .unwrap()
}

fn pairs(v: &[(&str, u64)]) -> Vec<(String, u64)> {
    v.iter().map(|(a, b)| (s(a), *b)).collect()
}

#[test]
fn test_paginate_all_user_unlocking_positions() {
    let mut ledger = LockupLedger::new();

    store_lock_id(&mut ledger, "addr0001", "vault0001", 0);
    store_lock_id(&mut ledger, "addr0001", "vault0001", 1);
    store_lock_id(&mut ledger, "addr0001", "vault0001", 2);
    store_lock_id(&mut ledger, "addr0002", "vault0001", 3);
    store_lock_id(&mut ledger, "addr0002", "vault0001", 4);
    store_lock_id(&mut ledger, "addr0001", "vault0002", 0);
    store_lock_id(&mut ledger, "addr0001", "vault0002", 1);
    store_lock_id(&mut ledger, "addr0002", "vault0002", 2);
    store_lock_id(&mut ledger, "addr0002", "vault0002", 3);

    let res = collect(&ledger, "addr0001", None, None, None);
    assert_eq!(res.len(), 5);
    assert_eq!(
        res,
        pairs(&[
            ("vault0001", 0),
            ("vault0001", 1),
            ("vault0001", 2),
            ("vault0002", 0),
            ("vault0002", 1),
        ])
    );

    let res = collect(&ledger, "addr0001", None, None, Some(2));
    assert_eq!(res.len(), 2);
    assert_eq!(res, pairs(&[("vault0001", 0), ("vault0001", 1)]));

    let res = collect(&ledger, "addr0001", Some("vault0001"), None, None);
    assert_eq!(res.len(), 2);
    assert_eq!(res, pairs(&[("vault0002", 0), ("vault0002", 1)]));

    let res = collect(&ledger, "addr0001", Some("vault0001"), Some(0), None);
    assert_eq!(res.len(), 4);
    assert_eq!(
        res,
        pairs(&[
            ("vault0001", 1),
            ("vault0001", 2),
            ("vault0002", 0),
            ("vault0002", 1),
        ])
    );

    let res = ledger
        .paginate_all_user_unlocking_positions(&s("addr0001"), None, Some(1), None)
        .is_err();
    assert!(res);

    let res = collect(&ledger, "addr0002", None, None, None);
    assert_eq!(res.len(), 4);
    assert_eq!(
        res,
        pairs(&[
            ("vault0001", 3),
            ("vault0001", 4),
            ("vault0002", 2),
            ("vault0002", 3),
        ])
    );

    let res = collect(&ledger, "addr0002", None, None, Some(2));
    assert_eq!(res.len(), 2);
    assert_eq!(res, pairs(&[("vault0001", 3), ("vault0001", 4)]));

    let res = collect(&ledger, "addr0002", Some("vault0001"), None, Some(2));
    assert_eq!(res.len(), 2);
    assert_eq!(res, pairs(&[("vault0002", 2), ("vault0002", 3)]));

    let res = collect(&ledger, "addr0002", Some("vault0001"), Some(3), None);
    assert_eq!(res.len(), 3);
    assert_eq!(
        res,
        pairs(&[("vault0001", 4), ("vault0002", 2), ("vault0002", 3)])
    );
}

#[test]
fn cursor_without_vault_is_invalid() {
    let ledger = LockupLedger::new();
    assert_eq!(
        ledger.paginate_all_user_unlocking_positions(&s("a"), None, Some(0), None),
        Err(ContractError::InvalidCursor {})
    );
}

#[test]
fn pages_by_cursor_cover_all_records_once() {
    let mut ledger = LockupLedger::new();
    // inserted out of order; listed in key order
    for (v, id) in [("v2", 1u64), ("v1", 5), ("v1", 2), ("v3", 0), ("v2", 0), ("v1", 9), ("v3", 7)] {
        store_lock_id(&mut ledger, "owner", v, id);
    }
    store_lock_id(&mut ledger, "other", "v1", 3);
    let k = 3u32;
    let mut cursor: Option<(String, u64)> = None;
    let mut joined = vec![];
    let mut pages = 0;
    loop {
        let page = ledger
            .paginate_all_user_unlocking_positions(
                &s("owner"),
                cursor.as_ref().map(|c| c.0.clone()),
                cursor.as_ref().map(|c| c.1),
                Some(k),
            )
            .unwrap();
        if page.is_empty() {
            break;
        }
        pages += 1;
        cursor = page.last().cloned();
        joined.extend(page);
    }
    // seven records, pages of three: ceil(7 / 3) pages
    assert_eq!(pages, 3);
    assert_eq!(
        joined,
        pairs(&[
            ("v1", 2),
            ("v1", 5),
            ("v1", 9),
            ("v2", 0),
            ("v2", 1),
            ("v3", 0),
            ("v3", 7),
        ])
    );
}

#[test]
fn page_size_defaults_and_is_capped() {
    let mut ledger = LockupLedger::new();
    for id in 0..40u64 {
        store_lock_id(&mut ledger, "owner", "vault", id);
    }
    assert_eq!(collect(&ledger, "owner", None, None, None).len(), 10);
    assert_eq!(collect(&ledger, "owner", None, None, Some(1000)).len(), 30);
    assert_eq!(collect(&ledger, "owner", None, None, Some(0)).len(), 0);
}

#[test]
fn ids_for_one_vault_after_a_start_id() {
    let mut ledger = LockupLedger::new();
    store_lock_id(&mut ledger, "owner", "va", 4);
    store_lock_id(&mut ledger, "owner", "vb", 1);
    store_lock_id(&mut ledger, "owner", "va", 1);
    store_lock_id(&mut ledger, "owner", "va", 8);
    store_lock_id(&mut ledger, "someone", "va", 2);
    assert_eq!(ledger.user_lockup_ids_for_vault(&s("owner"), &s("va"), None, None), vec![1, 4, 8]);
    assert_eq!(ledger.user_lockup_ids_for_vault(&s("owner"), &s("va"), Some(1), None), vec![4, 8]);
    assert_eq!(ledger.user_lockup_ids_for_vault(&s("owner"), &s("va"), Some(1), Some(1)), vec![4]);
    assert_eq!(ledger.user_lockup_ids_for_vault(&s("owner"), &s("vb"), None, None), vec![1]);
}

#[test]
fn save_twice_and_remove() {
    let mut ledger = LockupLedger::new();
    store_lock_id(&mut ledger, "o", "v", 1);
    store_lock_id(&mut ledger, "o", "v", 1);
    assert_eq!(ledger.len(), 1);
    assert!(ledger.has(&s("o"), &s("v"), 1));
    assert!(!ledger.has(&s("o"), &s("v"), 2));
    assert!(ledger.remove(&s("o"), &s("v"), 1));
    assert!(!ledger.remove(&s("o"), &s("v"), 1));
    assert_eq!(ledger.len(), 0);
}

fn vault() -> Vault {
    Vault {
        address: s("vault"),
        base_token: AssetInfo::Native(s("gamm/pool/1")),
        vault_token: s("factory/vault/share"),
    }
}

fn unlock_events(id: &str) -> Vec<Event> {
    vec![
        Event { ty: s("execute"), attributes: vec![] },
        Event {
            ty: s("wasm-unlocking_position_created"),
            attributes: vec![
                Attribute { key: s("_contract_address"), value: s("vault") },
                Attribute { key: s("lockup_id"), value: s(id) },
            ],
        },
    ]
}

#[test]
fn unlock_then_withdraw_once_after_maturity() {
    let mut ledger = LockupLedger::new();
    let v = vault();
    let funds = vec![Coin { denom: s("factory/vault/share"), amount: 300 }];
    let acts = execute_unlock(&mut ledger, &v, &funds, s("alice")).unwrap();
    assert_eq!(acts.len(), 1);
    assert!(matches!(&acts[0], Action::VaultUnlock { amount: 300, .. }));
    assert_eq!(reply(&mut ledger, UNLOCK_REPLY_ID, Ok(unlock_events("17"))), Ok(17));
    assert!(ledger.has(&s("alice"), &s("vault"), 17));

    let release = Expiration::AtTime(1_000);
    let early = BlockInfo { height: 10, time: 999 };
    let late = BlockInfo { height: 11, time: 1_000 };
    let go = |ledger: &mut LockupLedger, block: &BlockInfo| {
        execute_withdraw_unlocked(
            ledger,
            &s("alice"),
            &v,
            17,
            release,
            block,
            s("alice"),
            ReceiveChoice::BaseToken,
            AssetList::new(),
        )
    };
    assert_eq!(go(&mut ledger, &early).unwrap_err(), ContractError::LockupNotMatured {});
    assert!(ledger.has(&s("alice"), &s("vault"), 17));
    let acts = go(&mut ledger, &late).unwrap();
    assert!(matches!(&acts[0], Action::VaultWithdrawUnlocked { lockup_id: 17, .. }));
    assert!(!ledger.has(&s("alice"), &s("vault"), 17));
    assert_eq!(go(&mut ledger, &late).unwrap_err(), ContractError::LockupNotFound {});
}

#[test]
fn withdraw_unlocked_of_another_owner_is_not_found() {
    let mut ledger = LockupLedger::new();
    store_lock_id(&mut ledger, "alice", "vault", 3);
    let r = execute_withdraw_unlocked(
        &mut ledger,
        &s("mallory"),
        &vault(),
        3,
        Expiration::AtHeight(0),
        &BlockInfo { height: 5, time: 5 },
        s("mallory"),
        ReceiveChoice::BaseToken,
        AssetList::new(),
    );
    assert_eq!(r.unwrap_err(), ContractError::LockupNotFound {});
    assert!(ledger.has(&s("alice"), &s("vault"), 3));
}

#[test]
fn never_expiring_lock_never_matures() {
    assert!(!Expiration::Never.is_expired(&BlockInfo { height: u64::MAX, time: u64::MAX }));
    assert!(Expiration::AtHeight(7).is_expired(&BlockInfo { height: 7, time: 0 }));
    assert!(!Expiration::AtHeight(8).is_expired(&BlockInfo { height: 7, time: 0 }));
}

#[test]
fn unlock_needs_exactly_the_vault_token() {
    let mut ledger = LockupLedger::new();
    let v = vault();
    let wrong = vec![Coin { denom: s("uosmo"), amount: 1 }];
    assert_eq!(
        execute_unlock(&mut ledger, &v, &wrong, s("a")).unwrap_err(),
        ContractError::InvalidVaultToken {}
    );
    let two = vec![
        Coin { denom: s("factory/vault/share"), amount: 1 },
        Coin { denom: s("uosmo"), amount: 1 },
    ];
    assert_eq!(
        execute_unlock(&mut ledger, &v, &two, s("a")).unwrap_err(),
        ContractError::InvalidVaultToken {}
    );
}

#[test]
fn second_unlock_while_one_waits_is_refused() {
    let mut ledger = LockupLedger::new();
    let v = vault();
    let funds = vec![Coin { denom: s("factory/vault/share"), amount: 5 }];
    execute_unlock(&mut ledger, &v, &funds, s("a")).unwrap();
    assert_eq!(
        execute_unlock(&mut ledger, &v, &funds, s("b")).unwrap_err(),
        ContractError::UnlockAlreadyPending {}
    );
}

#[test]
fn reply_errors() {
    let mut ledger = LockupLedger::new();
    assert_eq!(
        reply(&mut ledger, UNLOCK_REPLY_ID, Ok(unlock_events("1"))),
        Err(ContractError::NoPendingUnlock {})
    );
    assert!(matches!(reply(&mut ledger, 1, Ok(unlock_events("1"))), Err(ContractError::Generic(_))));
    assert_eq!(
        reply(&mut ledger, UNLOCK_REPLY_ID, Err(s("out of gas"))),
        Err(ContractError::Generic(s("out of gas")))
    );
    let v = vault();
    let funds = vec![Coin { denom: s("factory/vault/share"), amount: 5 }];
    execute_unlock(&mut ledger, &v, &funds, s("a")).unwrap();
    assert_eq!(
        reply(&mut ledger, UNLOCK_REPLY_ID, Ok(vec![])),
        Err(ContractError::EventNotFound {})
    );
    assert_eq!(
        reply(&mut ledger, UNLOCK_REPLY_ID, Ok(unlock_events("x1"))),
        Err(ContractError::InvalidAttributeValue {})
    );
    assert_eq!(ledger.len(), 0);
    assert_eq!(reply(&mut ledger, UNLOCK_REPLY_ID, Ok(unlock_events("+12"))), Ok(12));
    assert!(ledger.has(&s("a"), &s("vault"), 12));
}
