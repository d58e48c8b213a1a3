use vstd::prelude::*;

use crate::asset::{amount_in, growth, holds, Asset, AssetInfo, AssetList};
use crate::error::ContractError;

verus! {

/// The amount of `info` delivered between the snapshots `before` and `after`:
/// its growth where `after` observes it, zero otherwise.
pub open spec fn delivered(before: Seq<Asset>, after: Seq<Asset>, info: AssetInfo) -> nat {
    if holds(after, info) {
        growth(amount_in(after, info), amount_in(before, info)) as nat
    } else {
        0
    }
}

/// Every floor of `min_out` is met by the amounts in `received`.
pub open spec fn floors_met(received: Seq<Asset>, min_out: Seq<Asset>) -> bool {
    forall|i: int| 0 <= i < min_out.len() ==> amount_in(received, (#[trigger] min_out[i]).info) >= min_out[i].amount
}

/// Checks every floor of `min_out` against `received`, in order; the first
/// floor that is not met is reported with the amount actually received.
pub fn check_min_out(received: &AssetList, min_out: &AssetList) -> (r: Result<(), ContractError>)
    requires
        received.wf(),
        min_out.wf(),
    ensures
        r is Ok <==> floors_met(received@, min_out@),
        r is Err ==> exists|i: int|
            0 <= i < min_out@.len() && floors_met(received@, min_out@.take(i)) && r == Err::<
                (),
                ContractError,
            >(
                ContractError::MinOutNotMet {
                    min_out: (#[trigger] min_out@[i]).amount,
                    actual: amount_in(received@, min_out@[i].info) as u128,
                },
            ) && amount_in(received@, min_out@[i].info) < min_out@[i].amount,
{
    let mut i: usize = 0;
    while i < min_out.len()
        invariant
            i <= min_out@.len(),
            received.wf(),
            min_out.wf(),
            floors_met(received@, min_out@.take(i as int)),
        decreases min_out@.len() - i,
    {
        let floor = min_out.get(i);
        let got = received.amount_of(&floor.info);
        if got < floor.amount {
            return Err(ContractError::MinOutNotMet { min_out: floor.amount, actual: got });
        }
        i = i + 1;
        proof {
            assert forall|k: int| 0 <= k < i implies amount_in(received@, (#[trigger] min_out@.take(i as int)[k]).info)
                >= min_out@.take(i as int)[k].amount by {
                if k < i - 1 {
                    assert(min_out@.take(i as int)[k] == min_out@.take(i - 1)[k]);
                }
            }
        }
    }
    proof {
        assert(min_out@.take(i as int) =~= min_out@);
    }
    Ok(())
}

/// The terminal stage of every pipeline: from the recipient's balances before
/// the pipeline and now, computes what was delivered and rejects the whole
/// call when any floor of `min_out` is not reached. Equality meets a floor.
pub fn callback_enforce_min_out(
    balances_before: &AssetList,
    balances_after: &AssetList,
    min_out: &AssetList,
) -> (r: Result<AssetList, ContractError>)
    requires
        balances_before.wf(),
        balances_after.wf(),
        min_out.wf(),
    ensures
        r is Ok <==> forall|i: int|
            0 <= i < min_out@.len() ==> delivered(balances_before@, balances_after@, (#[trigger] min_out@[i]).info)
                >= min_out@[i].amount,
        r matches Ok(received) ==> received.wf() && forall|i: int|
            0 <= i < balances_after@.len() ==> #[trigger] received@[i] == (Asset {
                info: balances_after@[i].info,
                amount: growth(balances_after@[i].amount as nat, amount_in(balances_before@, balances_after@[i].info)),
            }) && received@.len() == balances_after@.len(),
        r matches Err(e) ==> e matches ContractError::MinOutNotMet { .. },
{
    let received = balances_after.received_since(balances_before);
    proof {
        lemma_received_amounts(balances_before@, balances_after@, received@);
    }
    match check_min_out(&received, min_out) {
        Ok(()) => Ok(received),
        Err(e) => Err(e),
    }
}

/// The amount of an asset in the diff of two snapshots is what was delivered.
proof fn lemma_received_amounts(before: Seq<Asset>, after: Seq<Asset>, received: Seq<Asset>)
    requires
        crate::asset::distinct_assets(after),
        crate::asset::distinct_assets(received),
        received.len() == after.len(),
        forall|i: int|
            0 <= i < after.len() ==> #[trigger] received[i] == (Asset {
                info: after[i].info,
                amount: growth(after[i].amount as nat, amount_in(before, after[i].info)),
            }),
    ensures
        forall|info: AssetInfo| #[trigger] amount_in(received, info) == delivered(before, after, info),
{
    assert forall|info: AssetInfo| #[trigger] amount_in(received, info) == delivered(before, after, info) by {
        if holds(after, info) {
            let i = choose|i: int| 0 <= i < after.len() && (#[trigger] after[i]).info.same(&info);
            crate::asset::lemma_amount_at(after, i);
            crate::asset::lemma_amount_at(received, i);
            crate::asset::lemma_same_amount(after, after[i].info, info);
            crate::asset::lemma_same_amount(received, received[i].info, info);
            crate::asset::lemma_same_amount(before, after[i].info, info);
        } else {
            crate::asset::lemma_amount_absent(after, info);
            assert(!holds(received, info)) by {
                if holds(received, info) {
                    let i = choose|i: int| 0 <= i < received.len() && (#[trigger] received[i]).info.same(&info);
                    assert(after[i].info.same(&info));
                }
            }
            crate::asset::lemma_amount_absent(received, info);
        }
    }
}

} // verus!
