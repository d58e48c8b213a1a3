use vstd::prelude::*;

use crate::asset::{names, AssetInfo};
use crate::deposit::clone_infos;
use crate::error::ContractError;
use crate::lockup::UnlockingPosition;
use crate::msg::{PoolRef, ReceiveChoice};

verus! {

/// The asset the router is asked to produce from a deposit: the first asset
/// of the pool whose shares the vault takes, or the deposit asset itself.
pub open spec fn depositable_target(deposit_asset_info: AssetInfo, pool: Option<PoolRef>) -> Option<AssetInfo> {
    match pool {
        Some(p) => if p.assets@.len() > 0 {
            Some(p.assets@[0])
        } else {
            None
        },
        None => Some(deposit_asset_info),
    }
}

/// The target of a deposit's conversion; a pool without assets is refused.
pub fn deposit_target(deposit_asset_info: &AssetInfo, pool: &Option<PoolRef>) -> (r: Result<AssetInfo, ContractError>)
    ensures
        r is Err <==> depositable_target(*deposit_asset_info, *pool) is None,
        r is Err ==> r == Err::<AssetInfo, ContractError>(ContractError::UnsupportedVault {}),
        r matches Ok(a) ==> depositable_target(*deposit_asset_info, *pool) == Some(a),
{
    match pool {
        Some(p) => {
            if p.assets.len() == 0 {
                Err(ContractError::UnsupportedVault {})
            } else {
                Ok(p.assets[0].clone())
            }
        },
        None => Ok(deposit_asset_info.clone()),
    }
}

/// The assets a deposit may be made of: the deposit asset, the conversion
/// target, then every asset the router can convert into the target
/// (`supported_offer_assets`).
pub fn query_depositable_assets(
    deposit_asset_info: &AssetInfo,
    pool: &Option<PoolRef>,
    supported_offer_assets: Vec<AssetInfo>,
) -> (r: Result<Vec<AssetInfo>, ContractError>)
    ensures
        r is Err <==> depositable_target(*deposit_asset_info, *pool) is None,
        r is Err ==> r == Err::<Vec<AssetInfo>, ContractError>(ContractError::UnsupportedVault {}),
        r matches Ok(v) ==> v@ == seq![*deposit_asset_info, depositable_target(*deposit_asset_info, *pool)->Some_0]
            + supported_offer_assets@,
{
    let target = match deposit_target(deposit_asset_info, pool) {
        Ok(t) => t,
        Err(e) => {
            return Err(e);
        },
    };
    let mut out: Vec<AssetInfo> = Vec::new();
    out.push(deposit_asset_info.clone());
    out.push(target);
    let ghost head = out@;
    let mut rest = supported_offer_assets;
    let ghost offers = rest@;
    out.append(&mut rest);
    proof {
        assert(out@ =~= head + offers);
    }
    Ok(out)
}

/// The assets every list of `lists` names, in the order of the first list.
pub open spec fn common(lists: Seq<Vec<AssetInfo>>) -> Seq<AssetInfo> {
    if lists.len() == 0 {
        Seq::empty()
    } else {
        lists[0]@.filter(|a: AssetInfo| forall|j: int| 0 <= j < lists.len() ==> names((#[trigger] lists[j])@, a))
    }
}

/// The receive choices a redemption may use: a swap into every asset that
/// the router can produce from each of the base token's assets
/// (`supported_ask_assets`, one list per asset: the pool's assets, or the
/// base token alone), a swap into each pool asset, then the base token as it
/// is and its underlying assets.
pub fn query_receive_choices(
    pool_assets: Option<Vec<AssetInfo>>,
    supported_ask_assets: &Vec<Vec<AssetInfo>>,
) -> (r: Vec<ReceiveChoice>)
    ensures
        r@ == (common(supported_ask_assets@) + match pool_assets {
            Some(p) => p@,
            None => Seq::empty(),
        }).map_values(|a: AssetInfo| ReceiveChoice::SwapTo(a)) + seq![ReceiveChoice::BaseToken, ReceiveChoice::Underlying],
{
    let ghost lists = supported_ask_assets@;
    let ghost keep = |a: AssetInfo| forall|j: int| 0 <= j < lists.len() ==> names((#[trigger] lists[j])@, a);
    let ghost wrap = |a: AssetInfo| ReceiveChoice::SwapTo(a);
    let mut out: Vec<ReceiveChoice> = Vec::new();
    if supported_ask_assets.len() > 0 {
        let first = &supported_ask_assets[0];
        let mut i: usize = 0;
        while i < first.len()
            invariant
                i <= first@.len(),
                lists == supported_ask_assets@,
                lists.len() > 0,
                *first == lists[0],
                keep == (|a: AssetInfo| forall|j: int| 0 <= j < lists.len() ==> names((#[trigger] lists[j])@, a)),
                wrap == (|a: AssetInfo| ReceiveChoice::SwapTo(a)),
                out@ == first@.take(i as int).filter(keep).map_values(wrap),
            decreases first@.len() - i,
        {
            let a = &first[i];
            let mut everywhere = true;
            let mut j: usize = 0;
            while j < supported_ask_assets.len()
                invariant
                    j <= lists.len(),
                    lists == supported_ask_assets@,
                    everywhere == forall|m: int| 0 <= m < j ==> names((#[trigger] lists[m])@, *a),
                decreases lists.len() - j,
            {
                let listed = crate::asset::contains_info(&supported_ask_assets[j], a);
                everywhere = everywhere && listed;
                j = j + 1;
            }
            proof {
                assert(first@.take(i + 1) =~= first@.take(i as int).push(first@[i as int]));
                first@.take(i as int).lemma_filter_push(first@[i as int], keep);
                assert(everywhere == keep(*a));
            }
            if everywhere {
                let ghost before = out@;
                out.push(ReceiveChoice::SwapTo(a.clone()));
                proof {
                    assert(out@ =~= first@.take(i + 1).filter(keep).map_values(wrap));
                }
            }
            i = i + 1;
        }
        proof {
            assert(first@.take(i as int) =~= first@);
        }
    } else {
        proof {
            assert(out@ =~= common(lists).map_values(wrap));
        }
    }
    let ghost swaps = out@;
    assert(swaps == common(lists).map_values(wrap));
    let extra: Vec<AssetInfo> = match pool_assets {
        Some(p) => p,
        None => Vec::new(),
    };
    let mut k: usize = 0;
    while k < extra.len()
        invariant
            k <= extra@.len(),
            wrap == (|a: AssetInfo| ReceiveChoice::SwapTo(a)),
            out@ == swaps + extra@.take(k as int).map_values(wrap),
        decreases extra@.len() - k,
    {
        out.push(ReceiveChoice::SwapTo(extra[k].clone()));
        k = k + 1;
        proof {
            assert(out@ =~= swaps + extra@.take(k as int).map_values(wrap));
        }
    }
    out.push(ReceiveChoice::BaseToken);
    out.push(ReceiveChoice::Underlying);
    proof {
        assert(extra@.take(k as int) =~= extra@);
        let all = common(lists) + extra@;
        assert(all.map_values(wrap) =~= common(lists).map_values(wrap) + extra@.map_values(wrap));
        assert(out@ =~= all.map_values(wrap) + seq![ReceiveChoice::BaseToken, ReceiveChoice::Underlying]);
    }
    out
}

/// The positions the orchestrator itself holds, in order; the vault may
/// report others for ids that no longer belong to it.
pub fn keep_own_positions(positions: Vec<UnlockingPosition>, contract: &String) -> (r: Vec<UnlockingPosition>)
    ensures
        r@ == positions@.filter(|p: UnlockingPosition| p.owner@ == contract@),
{
    let ghost own = |p: UnlockingPosition| p.owner@ == contract@;
    let mut out: Vec<UnlockingPosition> = Vec::new();
    let mut i: usize = 0;
    while i < positions.len()
        invariant
            i <= positions@.len(),
            own == (|p: UnlockingPosition| p.owner@ == contract@),
            out@ == positions@.take(i as int).filter(own),
        decreases positions@.len() - i,
    {
        proof {
            assert(positions@.take(i + 1) =~= positions@.take(i as int).push(positions@[i as int]));
            positions@.take(i as int).lemma_filter_push(positions@[i as int], own);
        }
        if positions[i].owner.eq(contract) {
            out.push(positions[i].clone());
        }
        i = i + 1;
    }
    proof {
        assert(positions@.take(i as int) =~= positions@);
    }
    out
}

/// Continuations are privileged: only the orchestrator itself may send one.
pub fn check_callback_sender(sender: &String, contract: &String) -> (r: Result<(), ContractError>)
    ensures
        r is Ok <==> sender@ == contract@,
        r is Err ==> r == Err::<(), ContractError>(ContractError::Unauthorized {}),
{
    if sender.eq(contract) {
        Ok(())
    } else {
        Err(ContractError::Unauthorized {})
    }
}

} // verus!
