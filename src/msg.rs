use vstd::prelude::*;

use crate::asset::{Asset, AssetInfo, AssetList};

verus! {

/// How redeemed value is delivered to the recipient.
#[derive(Debug)]
pub enum ReceiveChoice {
    /// The vault's base token as it is.
    BaseToken,
    /// The assets that the base token wraps, e.g. a pool share's constituents.
    Underlying,
    /// The base token converted into the given asset.
    SwapTo(AssetInfo),
}

impl Clone for ReceiveChoice {
    fn clone(&self) -> (r: Self)
        ensures
            r == *self,
    {
        match self {
            ReceiveChoice::BaseToken => ReceiveChoice::BaseToken,
            ReceiveChoice::Underlying => ReceiveChoice::Underlying,
            ReceiveChoice::SwapTo(a) => ReceiveChoice::SwapTo(a.clone()),
        }
    }
}

impl PartialEq for ReceiveChoice {
    fn eq(&self, other: &ReceiveChoice) -> (r: bool)
        ensures
            r == self.same(other),
    {
        match (self, other) {
            (ReceiveChoice::BaseToken, ReceiveChoice::BaseToken) => true,
            (ReceiveChoice::Underlying, ReceiveChoice::Underlying) => true,
            (ReceiveChoice::SwapTo(a), ReceiveChoice::SwapTo(b)) => a == b,
            _ => false,
        }
    }
}

impl ReceiveChoice {
    pub open spec fn same(&self, other: &ReceiveChoice) -> bool {
        match (self, other) {
            (ReceiveChoice::BaseToken, ReceiveChoice::BaseToken) => true,
            (ReceiveChoice::Underlying, ReceiveChoice::Underlying) => true,
            (ReceiveChoice::SwapTo(a), ReceiveChoice::SwapTo(b)) => a.same(b),
            _ => false,
        }
    }
}

impl vstd::std_specs::cmp::PartialEqSpecImpl for ReceiveChoice {
    open spec fn obeys_eq_spec() -> bool {
        true
    }

    open spec fn eq_spec(&self, other: &ReceiveChoice) -> bool {
        self.same(other)
    }
}

/// Where redeemed base tokens come from: an immediate redeem of the vault
/// tokens sent along, or a matured unlocking position.
#[derive(Debug, Clone, Copy, PartialEq, Eq, Structural)]
pub enum RedeemType {
    Normal,
    Lockup(u64),
}

/// A liquidity pool as the pipeline sees it: its share token and the assets
/// it holds, in the pool's order.
#[derive(Debug)]
pub struct PoolRef {
    pub lp_token: AssetInfo,
    pub assets: Vec<AssetInfo>,
}

/// A vault as the pipeline sees it.
#[derive(Debug)]
pub struct Vault {
    /// The vault contract's address.
    pub address: String,
    /// The asset the vault takes in deposits and pays out on redemption.
    pub base_token: AssetInfo,
    /// The native denomination of the vault's shares.
    pub vault_token: String,
}

/// A continuation: a follow-up step the orchestrator addresses to itself.
/// Each carries everything its step needs.
#[derive(Debug)]
pub enum CallbackMsg {
    /// Provide the held pool assets as liquidity, then deposit.
    ProvideLiquidity {
        vault_address: String,
        recipient: String,
        pool: PoolRef,
        deposit_asset_info: AssetInfo,
    },
    /// Deposit the whole held balance of the deposit asset into the vault.
    Deposit { vault_address: String, recipient: String, deposit_asset_info: AssetInfo },
    /// Check what the recipient received against the floors.
    EnforceMinOut {
        assets: Vec<AssetInfo>,
        recipient: String,
        balances_before: AssetList,
        min_out: AssetList,
    },
    /// Deliver the base tokens just redeemed as the receive choice asks.
    AfterRedeem {
        receive_choice: ReceiveChoice,
        vault_base_token: AssetInfo,
        recipient: String,
        min_out: AssetList,
    },
    /// Deliver the assets just withdrawn from a pool as the receive choice asks.
    AfterWithdrawLiq { assets: Vec<AssetInfo>, receive_choice: ReceiveChoice, recipient: String },
}

/// One outbound request of a pipeline step, in the order the host runs them.
#[derive(Debug)]
pub enum Action {
    /// Have the router convert every asset of `offer` into `ask`, delivered
    /// to `recipient`, or kept by the orchestrator when there is none.
    BasketLiquidate { offer: AssetList, ask: AssetInfo, recipient: Option<String> },
    /// Provide `assets` as liquidity to `pool`, for at least `min_out` shares.
    ProvideLiquidity { pool: PoolRef, assets: AssetList, min_out: u128 },
    /// Withdraw `lp_token` from `pool` into its constituents.
    WithdrawLiquidity { pool: PoolRef, lp_token: Asset },
    /// Allow `spender` to draw `amount` of the CW20 token `token`.
    IncreaseAllowance { token: String, spender: String, amount: u128 },
    /// Deposit `asset` into the vault, crediting `recipient`.
    VaultDeposit { vault_address: String, asset: Asset, recipient: Option<String> },
    /// Redeem `amount` of vault shares for base tokens held by the orchestrator.
    VaultRedeem { vault_address: String, amount: u128 },
    /// Start unlocking `amount` of the shares `vault_token`; the vault's reply
    /// carries the new lock's identifier.
    VaultUnlock { vault_address: String, vault_token: String, amount: u128 },
    /// Withdraw the matured unlocking position `lockup_id`.
    VaultWithdrawUnlocked { vault_address: String, lockup_id: u64 },
    /// Send `asset` to `recipient`.
    Transfer { asset: Asset, recipient: String },
    /// Schedule a continuation.
    Callback(CallbackMsg),
}

/// Parameters of a new orchestrator.
#[derive(Debug)]
pub struct InstantiateMsg {
    pub router: String,
    pub liquidity_helper: String,
    pub astroport_liquidity_manager: String,
}

/// The caller-facing operations.
#[derive(Debug)]
pub enum ExecuteMsg {
    /// Deposit assets into a vault, converting them as needed.
    Deposit { assets: AssetList, vault_address: String, recipient: Option<String>, min_out: u128 },
    /// Redeem the vault tokens sent along and deliver them as chosen.
    Redeem {
        vault_address: String,
        recipient: Option<String>,
        receive_choice: ReceiveChoice,
        min_out: AssetList,
    },
    /// Convert a vault's base token sent along into the chosen assets.
    ZapBaseTokens {
        base_token: Asset,
        recipient: Option<String>,
        receive_choice: ReceiveChoice,
        min_out: AssetList,
    },
    /// Start unlocking the vault tokens sent along.
    Unlock { vault_address: String },
    /// Withdraw a matured unlocking position and deliver it as chosen.
    WithdrawUnlocked {
        vault_address: String,
        lockup_id: u64,
        recipient: Option<String>,
        receive_choice: ReceiveChoice,
        min_out: AssetList,
    },
    /// A continuation; only the orchestrator itself may send it.
    Callback(CallbackMsg),
}

/// The read-only queries.
#[derive(Debug, Clone, PartialEq, Eq)]
pub enum QueryMsg {
    /// The assets a deposit into the vault may be made of.
    DepositableAssets { vault_address: String },
    /// The receive choices a redemption from the vault may use.
    ReceiveChoices { vault_address: String },
    /// The owner's unlocking positions in one vault, after a lock id.
    UserUnlockingPositionsForVault {
        owner: String,
        vault_address: String,
        start_after_id: Option<u64>,
        limit: Option<u32>,
    },
    /// The owner's unlocking positions in all vaults, after a cursor.
    UserUnlockingPositions {
        owner: String,
        start_after_vault_addr: Option<String>,
        start_after_id: Option<u64>,
        limit: Option<u32>,
    },
}

/// Parameters of a migration: none.
#[derive(Debug, Clone, PartialEq, Eq)]
pub struct MigrateMsg {}

} // verus!
