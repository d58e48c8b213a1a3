use vstd::prelude::*;

use crate::asset::{names, Asset, AssetInfo, AssetList};
use crate::error::ContractError;
use crate::msg::{Action, CallbackMsg, PoolRef, Vault};

verus! {

/// The requests that put `amount` of `info` into the vault: a CW20 token is
/// first approved for the vault to draw; a native one is sent along.
pub open spec fn deposit_actions(
    vault_address: String,
    amount: u128,
    info: AssetInfo,
    recipient: Option<String>,
) -> Seq<Action> {
    match info {
        AssetInfo::Native(_) => seq![
            Action::VaultDeposit { vault_address, asset: Asset { info, amount }, recipient },
        ],
        AssetInfo::Cw20(token) => seq![
            Action::IncreaseAllowance { token, spender: vault_address, amount },
            Action::VaultDeposit { vault_address, asset: Asset { info, amount }, recipient },
        ],
    }
}

/// `a` is the continuation that checks the recipient's gain in `assets`,
/// from the snapshot `before`, against `min_out`.
pub open spec fn is_floor_check(
    a: Action,
    assets: Seq<AssetInfo>,
    recipient: String,
    before: Seq<Asset>,
    min_out: Seq<Asset>,
) -> bool {
    match a {
        Action::Callback(CallbackMsg::EnforceMinOut { assets: x, recipient: r, balances_before: b, min_out: m }) =>
            x@ == assets && r == recipient && b@ == before && m@ == min_out && b.wf() && m.wf(),
        _ => false,
    }
}

/// `a` asks the router to convert `offer` into `ask` for `recipient`.
pub open spec fn is_liquidation(a: Action, offer: Seq<Asset>, ask: AssetInfo, recipient: Option<String>) -> bool {
    match a {
        Action::BasketLiquidate { offer: o, ask: k, recipient: r } => o@ == offer && o.wf() && k == ask && r == recipient,
        _ => false,
    }
}

impl Vault {
    /// The requests that deposit `amount` of `deposit_asset_info` into this
    /// vault for `recipient`.
    pub fn increase_allowance_and_deposit(
        &self,
        amount: u128,
        deposit_asset_info: &AssetInfo,
        recipient: Option<String>,
    ) -> (r: Vec<Action>)
        ensures
            r@ == deposit_actions(self.address, amount, *deposit_asset_info, recipient),
    {
        let mut msgs: Vec<Action> = Vec::new();
        match deposit_asset_info {
            AssetInfo::Native(_) => {},
            AssetInfo::Cw20(token) => {
                msgs.push(
                    Action::IncreaseAllowance {
                        token: token.clone(),
                        spender: self.address.clone(),
                        amount,
                    },
                );
            },
        }
        msgs.push(
            Action::VaultDeposit {
                vault_address: self.address.clone(),
                asset: Asset { info: deposit_asset_info.clone(), amount },
                recipient,
            },
        );
        proof {
            assert(msgs@ =~= deposit_actions(self.address, amount, *deposit_asset_info, recipient));
        }
        msgs
    }
}

/// The assets a deposit must be turned into before it reaches the vault: the
/// pool's assets where the base token is a pool share, else the base token.
pub open spec fn deposit_targets(vault: Vault, pool: Option<PoolRef>) -> Seq<AssetInfo> {
    match pool {
        Some(p) => p.assets@,
        None => seq![vault.base_token],
    }
}

/// The sent bundle is exactly the vault's base token: it goes in unconverted.
pub open spec fn is_direct_deposit(assets: Seq<Asset>, vault: Vault) -> bool {
    assets.len() == 1 && assets[0].info.same(&vault.base_token)
}

/// The entries of `assets` that must be converted to reach `targets`.
pub open spec fn to_convert(assets: Seq<Asset>, targets: Seq<AssetInfo>) -> Seq<Asset> {
    assets.filter(|a: Asset| !names(targets, a.info))
}

/// Plans a deposit of the bundle `assets`, already received, into `vault`.
///
/// The recipient's vault-token balance before is `balance_before`; `pool` is
/// the pool whose shares the base token is, if it is one. When the bundle is
/// the base token alone it is deposited as sent. Otherwise every sent asset
/// that is not a target is converted by the router into the first target,
/// followed by a continuation that provides liquidity (pool share) or deposits
/// (plain base token). Every plan ends with the check of `min_out` vault tokens.
pub fn execute_deposit(
    assets: AssetList,
    vault: &Vault,
    pool: Option<PoolRef>,
    recipient: String,
    balance_before: u128,
    min_out: u128,
) -> (r: Result<Vec<Action>, ContractError>)
    requires
        assets.wf(),
    ensures
        r is Err <==> !is_direct_deposit(assets@, *vault) && deposit_targets(*vault, pool).len() == 0,
        r is Err ==> r == Err::<Vec<Action>, ContractError>(ContractError::UnsupportedVault {}),
        r matches Ok(acts) ==> {
            let share = AssetInfo::Native(vault.vault_token);
            let targets = deposit_targets(*vault, pool);
            let offer = to_convert(assets@, targets);
            &&& acts@.len() >= 2
            &&& is_floor_check(
                acts@.last(),
                seq![share],
                recipient,
                seq![Asset { info: share, amount: balance_before }],
                seq![Asset { info: share, amount: min_out }],
            )
            &&& is_direct_deposit(assets@, *vault) ==> acts@.drop_last() == deposit_actions(
                vault.address,
                assets@[0].amount,
                vault.base_token,
                Some(recipient),
            )
            &&& !is_direct_deposit(assets@, *vault) ==> {
                let k: int = if offer.len() > 0 { 1 } else { 0 };
                &&& acts@.len() == k + 2
                &&& offer.len() > 0 ==> is_liquidation(acts@[0], offer, targets[0], None)
                &&& acts@[k] == match pool {
                    Some(p) => Action::Callback(
                        CallbackMsg::ProvideLiquidity {
                            vault_address: vault.address,
                            recipient,
                            pool: p,
                            deposit_asset_info: vault.base_token,
                        },
                    ),
                    None => Action::Callback(
                        CallbackMsg::Deposit {
                            vault_address: vault.address,
                            recipient,
                            deposit_asset_info: vault.base_token,
                        },
                    ),
                }
            }
        },
{
    let share = AssetInfo::Native(vault.vault_token.clone());
    let mut check_assets: Vec<AssetInfo> = Vec::new();
    check_assets.push(share.clone());
    let enforce = Action::Callback(
        CallbackMsg::EnforceMinOut {
            assets: check_assets,
            recipient: recipient.clone(),
            balances_before: AssetList::single(Asset::new(share.clone(), balance_before)),
            min_out: AssetList::single(Asset::new(share, min_out)),
        },
    );
    proof {
        assert(check_assets@ =~= seq![AssetInfo::Native(vault.vault_token)]);
    }

    if assets.len() == 1 && assets.get(0).info == vault.base_token {
        let amount = assets.get(0).amount;
        let mut msgs = vault.increase_allowance_and_deposit(
            amount,
            &vault.base_token,
            Some(recipient),
        );
        let ghost deposits = msgs@;
        msgs.push(enforce);
        proof {
            assert(msgs@.drop_last() =~= deposits);
        }
        return Ok(msgs);
    }

    let targets: Vec<AssetInfo> = match &pool {
        Some(p) => clone_infos(&p.assets),
        None => {
            let mut t: Vec<AssetInfo> = Vec::new();
            t.push(vault.base_token.clone());
            t
        },
    };
    proof {
        assert(targets@ =~= deposit_targets(*vault, pool));
    }
    if targets.len() == 0 {
        return Err(ContractError::UnsupportedVault {});
    }
    let offer = assets.excluding(&targets);
    let mut msgs: Vec<Action> = Vec::new();
    if offer.len() > 0 {
        msgs.push(
            Action::BasketLiquidate { offer, ask: targets[0].clone(), recipient: None },
        );
    }
    let next = match pool {
        Some(p) => Action::Callback(
            CallbackMsg::ProvideLiquidity {
                vault_address: vault.address.clone(),
                recipient: recipient.clone(),
                pool: p,
                deposit_asset_info: vault.base_token.clone(),
            },
        ),
        None => Action::Callback(
            CallbackMsg::Deposit {
                vault_address: vault.address.clone(),
                recipient: recipient.clone(),
                deposit_asset_info: vault.base_token.clone(),
            },
        ),
    };
    msgs.push(next);
    msgs.push(enforce);
    Ok(msgs)
}

/// A copy of `infos`, entry for entry.
pub fn clone_infos(infos: &Vec<AssetInfo>) -> (r: Vec<AssetInfo>)
    ensures
        r@ == infos@,
{
    let mut out: Vec<AssetInfo> = Vec::new();
    let mut i: usize = 0;
    while i < infos.len()
        invariant
            i <= infos@.len(),
            out@ == infos@.take(i as int),
        decreases infos@.len() - i,
    {
        out.push(infos[i].clone());
        i = i + 1;
        proof {
            assert(out@ =~= infos@.take(i as int));
        }
    }
    proof {
        assert(infos@.take(i as int) =~= infos@);
    }
    out
}

/// Plans the liquidity step of a deposit: provide everything the orchestrator
/// holds of the pool's assets, `balances`, then deposit the shares received.
pub fn callback_provide_liquidity(
    vault_address: String,
    recipient: String,
    pool: PoolRef,
    deposit_asset_info: AssetInfo,
    balances: AssetList,
) -> (r: Vec<Action>)
    ensures
        r@ == seq![
            Action::ProvideLiquidity { pool, assets: balances, min_out: 0 },
            Action::Callback(CallbackMsg::Deposit { vault_address, recipient, deposit_asset_info }),
        ],
{
    let mut msgs: Vec<Action> = Vec::new();
    msgs.push(Action::ProvideLiquidity { pool, assets: balances, min_out: 0 });
    msgs.push(Action::Callback(CallbackMsg::Deposit { vault_address, recipient, deposit_asset_info }));
    proof {
        assert(msgs@ =~= seq![
            Action::ProvideLiquidity { pool, assets: balances, min_out: 0 },
            Action::Callback(CallbackMsg::Deposit { vault_address, recipient, deposit_asset_info }),
        ]);
    }
    msgs
}

/// Plans the deposit step: the whole observed balance `balance` of the deposit
/// asset goes into the vault, for `recipient`.
pub fn callback_deposit(
    vault: &Vault,
    recipient: String,
    deposit_asset_info: &AssetInfo,
    balance: u128,
) -> (r: Vec<Action>)
    ensures
        r@ == deposit_actions(vault.address, balance, *deposit_asset_info, Some(recipient)),
{
    vault.increase_allowance_and_deposit(balance, deposit_asset_info, Some(recipient))
}

} // verus!
