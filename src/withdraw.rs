use vstd::prelude::*;

use crate::asset::{names, Asset, AssetInfo, AssetList, Coin};
use crate::deposit::{clone_infos, is_floor_check, is_liquidation};
use crate::error::ContractError;
use crate::msg::{Action, CallbackMsg, PoolRef, ReceiveChoice, RedeemType, Vault};

verus! {

/// `a` is the continuation that delivers the redeemed base tokens.
pub open spec fn is_after_redeem(
    a: Action,
    receive_choice: ReceiveChoice,
    vault_base_token: AssetInfo,
    recipient: String,
    min_out: Seq<Asset>,
) -> bool {
    match a {
        Action::Callback(CallbackMsg::AfterRedeem { receive_choice: c, vault_base_token: b, recipient: r, min_out: m }) =>
            c == receive_choice && b == vault_base_token && r == recipient && m@ == min_out && m.wf(),
        _ => false,
    }
}

/// Plans taking base tokens out of `vault`: by redeeming the vault tokens sent
/// in `funds` (which must be exactly one coin of the vault's share token), or
/// by withdrawing the unlocking position `lockup_id`. The continuation then
/// delivers them as `receive_choice` asks, held to `min_out`.
pub fn withdraw(
    vault: &Vault,
    funds: &Vec<Coin>,
    recipient: String,
    receive_choice: ReceiveChoice,
    min_out: AssetList,
    withdraw_type: RedeemType,
) -> (r: Result<Vec<Action>, ContractError>)
    requires
        min_out.wf(),
    ensures
        r is Err <==> withdraw_type == RedeemType::Normal && !(funds@.len() == 1 && funds@[0].denom@
            == vault.vault_token@),
        r is Err ==> r == Err::<Vec<Action>, ContractError>(ContractError::InvalidVaultToken {}),
        r matches Ok(acts) ==> {
            &&& acts@.len() == 2
            &&& acts@[0] == match withdraw_type {
                RedeemType::Normal => Action::VaultRedeem {
                    vault_address: vault.address,
                    amount: funds@[0].amount,
                },
                RedeemType::Lockup(id) => Action::VaultWithdrawUnlocked {
                    vault_address: vault.address,
                    lockup_id: id,
                },
            }
            &&& is_after_redeem(acts@[1], receive_choice, vault.base_token, recipient, min_out@)
        },
{
    let first = match withdraw_type {
        RedeemType::Normal => {
            if funds.len() != 1 || !funds[0].denom.eq(&vault.vault_token) {
                return Err(ContractError::InvalidVaultToken {});
            }
            Action::VaultRedeem { vault_address: vault.address.clone(), amount: funds[0].amount }
        },
        RedeemType::Lockup(lockup_id) => Action::VaultWithdrawUnlocked {
            vault_address: vault.address.clone(),
            lockup_id,
        },
    };
    let mut msgs: Vec<Action> = Vec::new();
    msgs.push(first);
    msgs.push(
        Action::Callback(
            CallbackMsg::AfterRedeem {
                receive_choice,
                vault_base_token: vault.base_token.clone(),
                recipient,
                min_out,
            },
        ),
    );
    Ok(msgs)
}

/// Plans an immediate redemption of the vault tokens sent in `funds`.
pub fn execute_redeem(
    vault: &Vault,
    funds: &Vec<Coin>,
    recipient: String,
    receive_choice: ReceiveChoice,
    min_out: AssetList,
) -> (r: Result<Vec<Action>, ContractError>)
    requires
        min_out.wf(),
    ensures
        r is Err <==> !(funds@.len() == 1 && funds@[0].denom@ == vault.vault_token@),
        r is Err ==> r == Err::<Vec<Action>, ContractError>(ContractError::InvalidVaultToken {}),
        r matches Ok(acts) ==> acts@.len() == 2 && acts@[0] == (Action::VaultRedeem {
            vault_address: vault.address,
            amount: funds@[0].amount,
        }) && is_after_redeem(acts@[1], receive_choice, vault.base_token, recipient, min_out@),
{
    withdraw(vault, funds, recipient, receive_choice, min_out, RedeemType::Normal)
}

/// Plans delivering base tokens sent directly by the caller, as if just
/// redeemed from a vault whose base token is `base_token.info`.
pub fn execute_zap_base_tokens(
    base_token: Asset,
    recipient: String,
    receive_choice: ReceiveChoice,
    min_out: AssetList,
) -> (r: Vec<Action>)
    requires
        min_out.wf(),
    ensures
        r@.len() == 1,
        is_after_redeem(r@[0], receive_choice, base_token.info, recipient, min_out@),
{
    let mut msgs: Vec<Action> = Vec::new();
    msgs.push(
        Action::Callback(
            CallbackMsg::AfterRedeem {
                receive_choice,
                vault_base_token: base_token.info,
                recipient,
                min_out,
            },
        ),
    );
    msgs
}

/// The assets whose delivery a redemption checks against its floors.
pub open spec fn withdrawal_assets_of(
    receive_choice: ReceiveChoice,
    base: AssetInfo,
    pool: Option<PoolRef>,
) -> Option<Seq<AssetInfo>> {
    match receive_choice {
        ReceiveChoice::SwapTo(asked) => if asked.same(&base) {
            Some(seq![base])
        } else {
            Some(seq![asked])
        },
        ReceiveChoice::BaseToken => Some(seq![base]),
        ReceiveChoice::Underlying => match pool {
            Some(p) => Some(p.assets@),
            None => None,
        },
    }
}

/// The assets whose delivery a redemption checks: the asked asset, the base
/// token, or the pool's assets. Asking for the underlying assets of a base
/// token that is no pool share is an error.
pub fn withdrawal_assets(
    receive_choice: &ReceiveChoice,
    base: &AssetInfo,
    pool: &Option<PoolRef>,
) -> (r: Result<Vec<AssetInfo>, ContractError>)
    ensures
        r is Err <==> withdrawal_assets_of(*receive_choice, *base, *pool) is None,
        r is Err ==> r == Err::<Vec<AssetInfo>, ContractError>(ContractError::UnsupportedWithdrawal {}),
        r matches Ok(v) ==> withdrawal_assets_of(*receive_choice, *base, *pool) == Some(v@),
{
    let mut out: Vec<AssetInfo> = Vec::new();
    match receive_choice {
        ReceiveChoice::SwapTo(asked) => {
            if *asked == *base {
                out.push(base.clone());
            } else {
                out.push(asked.clone());
            }
        },
        ReceiveChoice::BaseToken => {
            out.push(base.clone());
        },
        ReceiveChoice::Underlying => match pool {
            Some(p) => {
                out = clone_infos(&p.assets);
            },
            None => {
                return Err(ContractError::UnsupportedWithdrawal {});
            },
        },
    }
    proof {
        assert(Some(out@) =~= withdrawal_assets_of(*receive_choice, *base, *pool));
    }
    Ok(out)
}

/// `a` withdraws `amount` of the pool share `lp` from a pool with `assets`.
pub open spec fn is_withdraw_liquidity(a: Action, lp: AssetInfo, assets: Seq<AssetInfo>, amount: u128) -> bool {
    match a {
        Action::WithdrawLiquidity { pool, lp_token } => pool.lp_token == lp && pool.assets@ == assets
            && lp_token == (Asset { info: lp, amount }),
        _ => false,
    }
}

/// `a` is the continuation that delivers assets withdrawn from a pool.
pub open spec fn is_after_withdraw_liq(
    a: Action,
    assets: Seq<AssetInfo>,
    receive_choice: ReceiveChoice,
    recipient: String,
) -> bool {
    match a {
        Action::Callback(CallbackMsg::AfterWithdrawLiq { assets: x, receive_choice: c, recipient: r }) =>
            x@ == assets && c == receive_choice && r == recipient,
        _ => false,
    }
}

/// The delivery requests after a redemption, before the floor check.
pub open spec fn delivery_ok(
    acts: Seq<Action>,
    receive_choice: ReceiveChoice,
    base: AssetInfo,
    balance: u128,
    pool: Option<PoolRef>,
    recipient: String,
) -> bool {
    let held = Asset { info: base, amount: balance };
    let send_base = acts.len() == 1 && acts[0] == (Action::Transfer { asset: held, recipient });
    let unwrap = |p: PoolRef|
        acts.len() == 2 && is_withdraw_liquidity(acts[0], base, p.assets@, balance)
            && is_after_withdraw_liq(acts[1], p.assets@, receive_choice, recipient) && p.lp_token == base;
    match receive_choice {
        ReceiveChoice::SwapTo(asked) => if asked.same(&base) {
            send_base
        } else {
            match pool {
                Some(p) => unwrap(p),
                None => acts.len() == 1 && is_liquidation(acts[0], seq![held], asked, Some(recipient)),
            }
        },
        ReceiveChoice::BaseToken => send_base,
        ReceiveChoice::Underlying => match pool {
            Some(p) => unwrap(p),
            None => false,
        },
    }
}

/// Plans the delivery of `balance` base tokens just redeemed. `pool` is the
/// pool whose shares the base token is, if it is one, and `balances_before`
/// the recipient's balances of the withdrawal assets before. The base token
/// is sent as it is, converted by the router, or withdrawn from its pool
/// with a continuation to deliver the constituents; the floor check ends the
/// plan.
pub fn callback_after_redeem(
    receive_choice: ReceiveChoice,
    vault_base_token: AssetInfo,
    balance: u128,
    pool: Option<PoolRef>,
    recipient: String,
    min_out: AssetList,
    balances_before: AssetList,
) -> (r: Result<Vec<Action>, ContractError>)
    requires
        min_out.wf(),
        balances_before.wf(),
        pool matches Some(p) ==> p.lp_token == vault_base_token,
    ensures
        r is Err <==> withdrawal_assets_of(receive_choice, vault_base_token, pool) is None,
        r is Err ==> r == Err::<Vec<Action>, ContractError>(ContractError::UnsupportedWithdrawal {}),
        r matches Ok(acts) ==> acts@.len() >= 2 && delivery_ok(
            acts@.drop_last(),
            receive_choice,
            vault_base_token,
            balance,
            pool,
            recipient,
        ) && is_floor_check(
            acts@.last(),
            withdrawal_assets_of(receive_choice, vault_base_token, pool)->Some_0,
            recipient,
            balances_before@,
            min_out@,
        ),
{
    let assets = match withdrawal_assets(&receive_choice, &vault_base_token, &pool) {
        Ok(v) => v,
        Err(e) => {
            return Err(e);
        },
    };
    let held = Asset::new(vault_base_token.clone(), balance);
    let mut msgs: Vec<Action> = Vec::new();
    let send_base = match &receive_choice {
        ReceiveChoice::SwapTo(asked) => *asked == vault_base_token,
        ReceiveChoice::BaseToken => true,
        ReceiveChoice::Underlying => false,
    };
    if send_base {
        msgs.push(Action::Transfer { asset: held, recipient: recipient.clone() });
    } else {
        match pool {
            Some(p) => {
                let pool_assets = clone_infos(&p.assets);
                msgs.push(Action::WithdrawLiquidity { pool: p, lp_token: held });
                msgs.push(
                    Action::Callback(
                        CallbackMsg::AfterWithdrawLiq {
                            assets: pool_assets,
                            receive_choice: receive_choice.clone(),
                            recipient: recipient.clone(),
                        },
                    ),
                );
            },
            None => {
                let asked = match &receive_choice {
                    ReceiveChoice::SwapTo(asked) => asked.clone(),
                    _ => {
                        return Err(ContractError::UnsupportedWithdrawal {});
                    },
                };
                msgs.push(
                    Action::BasketLiquidate {
                        offer: AssetList::single(held),
                        ask: asked,
                        recipient: Some(recipient.clone()),
                    },
                );
            },
        }
    }
    let ghost delivery = msgs@;
    msgs.push(
        Action::Callback(
            CallbackMsg::EnforceMinOut { assets, recipient, balances_before, min_out },
        ),
    );
    proof {
        assert(msgs@.drop_last() =~= delivery);
    }
    Ok(msgs)
}

/// The entries of `held` with a non-zero amount, in order.
pub open spec fn nonzero(held: Seq<Asset>) -> Seq<Asset> {
    held.filter(|a: Asset| a.amount > 0)
}

/// The transfers of `assets` to `recipient`, one for each, in order.
pub open spec fn transfers(assets: Seq<Asset>, recipient: String) -> Seq<Action> {
    assets.map_values(|a: Asset| Action::Transfer { asset: a, recipient })
}

/// Plans the delivery of the assets just withdrawn from a pool; `balances`
/// is what the orchestrator holds of the pool's assets. For a swap, every
/// other asset is converted by the router into the asked one for the
/// recipient, and what is held of the asked asset itself is sent as it is;
/// for the underlying assets, each held asset is sent.
pub fn callback_after_withdraw_liq(
    balances: AssetList,
    receive_choice: ReceiveChoice,
    recipient: String,
) -> (r: Result<Vec<Action>, ContractError>)
    requires
        balances.wf(),
    ensures
        r is Err <==> receive_choice is BaseToken,
        r is Err ==> r == Err::<Vec<Action>, ContractError>(ContractError::UnsupportedWithdrawal {}),
        r matches Ok(acts) ==> match receive_choice {
            ReceiveChoice::SwapTo(asked) => {
                let offer = balances@.filter(|a: Asset| !names(seq![asked], a.info));
                let own = balances.spec_amount(asked);
                let k: int = if offer.len() > 0 { 1 } else { 0 };
                &&& acts@.len() == k + if own > 0 { 1int } else { 0 }
                &&& offer.len() > 0 ==> is_liquidation(acts@[0], offer, asked, Some(recipient))
                &&& own > 0 ==> acts@[k] == (Action::Transfer {
                    asset: Asset { info: asked, amount: own as u128 },
                    recipient,
                })
            },
            _ => acts@ == transfers(nonzero(balances@), recipient),
        },
{
    match receive_choice {
        ReceiveChoice::SwapTo(asked) => {
            let own = balances.amount_of(&asked);
            let mut only: Vec<AssetInfo> = Vec::new();
            only.push(asked.clone());
            let offer = balances.excluding(&only);
            proof {
                assert(only@ =~= seq![asked]);
            }
            let mut msgs: Vec<Action> = Vec::new();
            if offer.len() > 0 {
                msgs.push(
                    Action::BasketLiquidate {
                        offer,
                        ask: asked.clone(),
                        recipient: Some(recipient.clone()),
                    },
                );
            }
            if own > 0 {
                msgs.push(Action::Transfer { asset: Asset::new(asked, own), recipient });
            }
            Ok(msgs)
        },
        ReceiveChoice::Underlying => {
            let held = balances.to_vec();
            let ghost keep = |a: Asset| a.amount > 0;
            let ghost send = |a: Asset| Action::Transfer { asset: a, recipient };
            let mut msgs: Vec<Action> = Vec::new();
            let mut i: usize = 0;
            while i < held.len()
                invariant
                    i <= held@.len(),
                    held@ == balances@,
                    keep == (|a: Asset| a.amount > 0),
                    send == (|a: Asset| Action::Transfer { asset: a, recipient }),
                    msgs@ == held@.take(i as int).filter(keep).map_values(send),
                decreases held@.len() - i,
            {
                proof {
                    assert(held@.take(i + 1) =~= held@.take(i as int).push(held@[i as int]));
                    held@.take(i as int).lemma_filter_push(held@[i as int], keep);
                }
                if held[i].amount > 0 {
                    msgs.push(Action::Transfer { asset: held[i].clone(), recipient: recipient.clone() });
                    proof {
                        assert(msgs@ =~= held@.take(i + 1).filter(keep).map_values(send));
                    }
                }
                i = i + 1;
            }
            proof {
                assert(held@.take(i as int) =~= held@);
            }
            Ok(msgs)
        },
        ReceiveChoice::BaseToken => Err(ContractError::UnsupportedWithdrawal {}),
    }
}

} // verus!

