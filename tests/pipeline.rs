use vault_zapper::asset::{Asset, AssetInfo, AssetList, Coin};
use vault_zapper::deposit::{callback_deposit, execute_deposit, callback_provide_liquidity};
use vault_zapper::error::ContractError;
use vault_zapper::min_out::{check_min_out, callback_enforce_min_out};
use vault_zapper::msg::{Action, CallbackMsg, PoolRef, ReceiveChoice, RedeemType, Vault};
use vault_zapper::withdraw::{
    callback_after_redeem, callback_after_withdraw_liq, execute_redeem, execute_zap_base_tokens,
    withdraw, withdrawal_assets,
};

fn s(x: &str) -> String {
    x.to_string()
}

fn native(d: &str) -> AssetInfo {
    AssetInfo::Native(s(d))
}

fn list(items: &[(AssetInfo, u128)]) -> AssetList {
    let mut l = AssetList::new();
    for (i, a) in items {
        l.add(Asset::new(i.clone(), *a)).unwrap();
    }
    l
}

fn lp_vault() -> Vault {
    Vault { address: s("vault"), base_token: native("gamm/pool/1"), vault_token: s("vshare") }
}

fn atom_osmo_pool() -> PoolRef {
    PoolRef { lp_token: native("gamm/pool/1"), assets: vec![native("uatom"), native("uosmo")] }
}

#[test]
fn add_merges_equal_assets_and_reports_overflow() {
    let mut l = list(&[(native("uatom"), 5), (native("uosmo"), 1)]);
    l.add(Asset::new(native("uatom"), 7)).unwrap();
    assert_eq!(l.len(), 2);
    assert_eq!(l.amount_of(&native("uatom")), 12);
    assert_eq!(l.amount_of(&native("uion")), 0);
    assert_eq!(l.add(Asset::new(native("uosmo"), u128::MAX)), Err(ContractError::Overflow {}));
    assert_eq!(l.amount_of(&native("uosmo")), 1);
    // same identifier, other kind: another asset
    l.add(Asset::new(AssetInfo::Cw20(s("uatom")), 1)).unwrap();
    assert_eq!(l.len(), 3);
}

#[test]
fn received_is_growth_or_zero() {
    let before = list(&[(native("a"), 10), (native("b"), 10)]);
    let after = list(&[(native("a"), 25), (native("b"), 4), (native("c"), 3)]);
    let got = after.received_since(&before);
    assert_eq!(got.amount_of(&native("a")), 15);
    assert_eq!(got.amount_of(&native("b")), 0);
    assert_eq!(got.amount_of(&native("c")), 3);
}

#[test]
fn min_out_accepts_equality_and_rejects_below() {
    let before = list(&[(native("uatom"), 0)]);
    let after = list(&[(native("uatom"), 1_000_000)]);
    assert!(callback_enforce_min_out(&before, &after, &list(&[(native("uatom"), 1_000_000)])).is_ok());
    assert!(callback_enforce_min_out(&before, &after, &list(&[(native("uatom"), 999_999)])).is_ok());
    // an asset without a floor is unconstrained
    assert!(callback_enforce_min_out(&before, &after, &AssetList::new()).is_ok());
}

#[test]
fn redeem_min_out_not_met_fails_whole_call() {
    // one more than realized
    let before = list(&[(native("uatom"), 500)]);
    let after = list(&[(native("uatom"), 1_000_500)]);
    let r = callback_enforce_min_out(&before, &after, &list(&[(native("uatom"), 1_000_001)]));
    assert_eq!(r.unwrap_err(), ContractError::MinOutNotMet { min_out: 1_000_001, actual: 1_000_000 });
}

#[test]
fn min_out_reports_first_unmet_floor() {
    let received = list(&[(native("a"), 1), (native("b"), 2)]);
    let floors = list(&[(native("a"), 1), (native("c"), 4), (native("b"), 3)]);
    assert_eq!(
        check_min_out(&received, &floors),
        Err(ContractError::MinOutNotMet { min_out: 4, actual: 0 })
    );
}

#[test]
fn deposit_of_base_token_goes_in_unconverted() {
    let v = lp_vault();
    let assets = list(&[(native("gamm/pool/1"), 1_000_000)]);
    let acts = execute_deposit(assets, &v, Some(atom_osmo_pool()), s("alice"), 0, 1).unwrap();
    assert_eq!(acts.len(), 2);
    match &acts[0] {
        Action::VaultDeposit { vault_address, asset, recipient } => {
            assert_eq!(vault_address, "vault");
            assert_eq!(asset.amount, 1_000_000);
            assert_eq!(asset.info, native("gamm/pool/1"));
            assert_eq!(recipient.as_deref(), Some("alice"));
        }
        other => panic!("unexpected {:?}", other),
    }
    assert!(acts.iter().all(|a| !matches!(
        a,
        Action::BasketLiquidate { .. } | Action::ProvideLiquidity { .. } | Action::Callback(CallbackMsg::ProvideLiquidity { .. })
    )));
    match &acts[1] {
        Action::Callback(CallbackMsg::EnforceMinOut { assets, recipient, balances_before, min_out }) => {
            assert_eq!(assets, &vec![native("vshare")]);
            assert_eq!(recipient, "alice");
            assert_eq!(balances_before.amount_of(&native("vshare")), 0);
            assert_eq!(min_out.amount_of(&native("vshare")), 1);
        }
        other => panic!("unexpected {:?}", other),
    }
}

#[test]
fn cw20_base_token_is_approved_then_deposited() {
    let v = Vault { address: s("vault"), base_token: AssetInfo::Cw20(s("token")), vault_token: s("vshare") };
    let acts = callback_deposit(&v, s("bob"), &AssetInfo::Cw20(s("token")), 42);
    assert_eq!(acts.len(), 2);
    assert!(matches!(&acts[0], Action::IncreaseAllowance { token, spender, amount: 42 } if token == "token" && spender == "vault"));
    assert!(matches!(&acts[1], Action::VaultDeposit { asset, .. } if asset.amount == 42));
}

#[test]
fn deposit_of_pool_asset_provides_liquidity_then_deposits() {
    // ten OSMO into a vault of ATOM/OSMO pool shares
    let v = lp_vault();
    let acts = execute_deposit(list(&[(native("uosmo"), 10)]), &v, Some(atom_osmo_pool()), s("alice"), 0, 1).unwrap();
    assert_eq!(acts.len(), 2);
    match &acts[0] {
        Action::Callback(CallbackMsg::ProvideLiquidity { vault_address, recipient, pool, deposit_asset_info }) => {
            assert_eq!(vault_address, "vault");
            assert_eq!(recipient, "alice");
            assert_eq!(pool.assets, vec![native("uatom"), native("uosmo")]);
            assert_eq!(deposit_asset_info, &native("gamm/pool/1"));
        }
        other => panic!("unexpected {:?}", other),
    }
    // the liquidity step provides everything held of the pool's assets
    let held = list(&[(native("uatom"), 0), (native("uosmo"), 10)]);
    let acts = callback_provide_liquidity(s("vault"), s("alice"), atom_osmo_pool(), native("gamm/pool/1"), held);
    match &acts[0] {
        Action::ProvideLiquidity { assets, min_out, .. } => {
            assert_eq!(assets.amount_of(&native("uosmo")), 10);
            assert_eq!(*min_out, 0);
        }
        other => panic!("unexpected {:?}", other),
    }
    assert!(matches!(&acts[1], Action::Callback(CallbackMsg::Deposit { .. })));
    // and the deposit step puts the whole observed share balance in
    let acts = callback_deposit(&v, s("alice"), &native("gamm/pool/1"), 31);
    assert_eq!(acts.len(), 1);
    assert!(matches!(&acts[0], Action::VaultDeposit { asset, .. } if asset.amount == 31));
}

#[test]
fn deposit_of_other_asset_is_liquidated_into_first_pool_asset() {
    let v = lp_vault();
    let assets = list(&[(native("uastro"), 1_000_000), (native("uosmo"), 3)]);
    let acts = execute_deposit(assets, &v, Some(atom_osmo_pool()), s("alice"), 7, 1).unwrap();
    assert_eq!(acts.len(), 3);
    match &acts[0] {
        Action::BasketLiquidate { offer, ask, recipient } => {
            assert_eq!(offer.len(), 1);
            assert_eq!(offer.amount_of(&native("uastro")), 1_000_000);
            assert_eq!(ask, &native("uatom"));
            assert_eq!(recipient, &None);
        }
        other => panic!("unexpected {:?}", other),
    }
    assert!(matches!(&acts[1], Action::Callback(CallbackMsg::ProvideLiquidity { .. })));
    assert!(matches!(&acts[2], Action::Callback(CallbackMsg::EnforceMinOut { .. })));
}

#[test]
fn deposit_into_plain_vault_converts_then_deposits() {
    let v = Vault { address: s("vault"), base_token: native("uatom"), vault_token: s("vshare") };
    let acts = execute_deposit(list(&[(native("uosmo"), 5)]), &v, None, s("c"), 0, 0).unwrap();
    assert_eq!(acts.len(), 3);
    assert!(matches!(&acts[0], Action::BasketLiquidate { ask, .. } if *ask == native("uatom")));
    assert!(matches!(&acts[1], Action::Callback(CallbackMsg::Deposit { .. })));
}

#[test]
fn deposit_into_pool_without_assets_is_unsupported() {
    let v = lp_vault();
    let empty = PoolRef { lp_token: native("gamm/pool/1"), assets: vec![] };
    assert_eq!(
        execute_deposit(list(&[(native("uosmo"), 5)]), &v, Some(empty), s("c"), 0, 0).unwrap_err(),
        ContractError::UnsupportedVault {}
    );
}

#[test]
fn redeem_needs_exactly_the_vault_token() {
    let v = lp_vault();
    let good = vec![Coin { denom: s("vshare"), amount: 9 }];
    let acts = execute_redeem(&v, &good, s("r"), ReceiveChoice::Underlying, AssetList::new()).unwrap();
    assert!(matches!(&acts[0], Action::VaultRedeem { amount: 9, .. }));
    assert!(matches!(&acts[1], Action::Callback(CallbackMsg::AfterRedeem { .. })));
    assert_eq!(
        execute_redeem(&v, &vec![], s("r"), ReceiveChoice::Underlying, AssetList::new()).unwrap_err(),
        ContractError::InvalidVaultToken {}
    );
    let lock = withdraw(&v, &vec![], s("r"), ReceiveChoice::BaseToken, AssetList::new(), RedeemType::Lockup(4)).unwrap();
    assert!(matches!(&lock[0], Action::VaultWithdrawUnlocked { lockup_id: 4, .. }));
}

#[test]
fn zap_base_tokens_schedules_delivery() {
    let acts = execute_zap_base_tokens(
        Asset::new(native("gamm/pool/1"), 1_000_000),
        s("r"),
        ReceiveChoice::SwapTo(native("uastro")),
        AssetList::new(),
    );
    assert_eq!(acts.len(), 1);
    assert!(matches!(&acts[0], Action::Callback(CallbackMsg::AfterRedeem { vault_base_token, .. }) if *vault_base_token == native("gamm/pool/1")));
}

#[test]
fn after_redeem_underlying_withdraws_liquidity() {
    let acts = callback_after_redeem(
        ReceiveChoice::Underlying,
        native("gamm/pool/1"),
        50,
        Some(atom_osmo_pool()),
        s("r"),
        list(&[(native("uatom"), 1)]),
        list(&[(native("uatom"), 0), (native("uosmo"), 0)]),
    )
    .unwrap();
    assert_eq!(acts.len(), 3);
    assert!(matches!(&acts[0], Action::WithdrawLiquidity { lp_token, .. } if lp_token.amount == 50));
    assert!(matches!(&acts[1], Action::Callback(CallbackMsg::AfterWithdrawLiq { assets, .. }) if assets.len() == 2));
    assert!(matches!(&acts[2], Action::Callback(CallbackMsg::EnforceMinOut { assets, .. }) if assets.len() == 2));
}

#[test]
fn after_redeem_underlying_without_pool_is_unsupported() {
    let r = callback_after_redeem(
        ReceiveChoice::Underlying,
        native("uatom"),
        50,
        None,
        s("r"),
        AssetList::new(),
        AssetList::new(),
    );
    assert_eq!(r.unwrap_err(), ContractError::UnsupportedWithdrawal {});
    assert_eq!(
        withdrawal_assets(&ReceiveChoice::Underlying, &native("uatom"), &None).unwrap_err(),
        ContractError::UnsupportedWithdrawal {}
    );
}

#[test]
fn after_redeem_swap_without_pool_liquidates_to_recipient() {
    let acts = callback_after_redeem(
        ReceiveChoice::SwapTo(native("uastro")),
        native("uatom"),
        12,
        None,
        s("r"),
        AssetList::new(),
        list(&[(native("uastro"), 0)]),
    )
    .unwrap();
    assert_eq!(acts.len(), 2);
    match &acts[0] {
        Action::BasketLiquidate { offer, ask, recipient } => {
            assert_eq!(offer.amount_of(&native("uatom")), 12);
            assert_eq!(ask, &native("uastro"));
            assert_eq!(recipient.as_deref(), Some("r"));
        }
        other => panic!("unexpected {:?}", other),
    }
}

#[test]
fn after_redeem_base_token_is_sent() {
    for choice in [ReceiveChoice::BaseToken, ReceiveChoice::SwapTo(native("uatom"))] {
        let acts = callback_after_redeem(choice, native("uatom"), 3, None, s("r"), AssetList::new(), AssetList::new()).unwrap();
        assert_eq!(acts.len(), 2);
        assert!(matches!(&acts[0], Action::Transfer { asset, recipient } if asset.amount == 3 && recipient == "r"));
    }
}

#[test]
fn after_withdraw_liq_swaps_others_and_sends_asked() {
    let held = list(&[(native("uatom"), 4), (native("uosmo"), 6)]);
    let acts = callback_after_withdraw_liq(held, ReceiveChoice::SwapTo(native("uosmo")), s("r")).unwrap();
    assert_eq!(acts.len(), 2);
    assert!(matches!(&acts[0], Action::BasketLiquidate { offer, .. } if offer.len() == 1 && offer.amount_of(&native("uatom")) == 4));
    assert!(matches!(&acts[1], Action::Transfer { asset, .. } if asset.amount == 6 && asset.info == native("uosmo")));
    // nothing of the asked asset held: no transfer
    let held = list(&[(native("uatom"), 4), (native("uosmo"), 6)]);
    let acts = callback_after_withdraw_liq(held, ReceiveChoice::SwapTo(native("uion")), s("r")).unwrap();
    assert_eq!(acts.len(), 1);
}

#[test]
fn after_withdraw_liq_underlying_sends_each_held_asset() {
    let held = list(&[(native("uatom"), 4), (native("uosmo"), 0), (native("uion"), 2)]);
    let acts = callback_after_withdraw_liq(held, ReceiveChoice::Underlying, s("r")).unwrap();
    assert_eq!(acts.len(), 2);
    assert!(matches!(&acts[1], Action::Transfer { asset, .. } if asset.amount == 2));
    let held = list(&[(native("uatom"), 4)]);
    assert_eq!(
        callback_after_withdraw_liq(held, ReceiveChoice::BaseToken, s("r")).unwrap_err(),
        ContractError::UnsupportedWithdrawal {}
    );
}
