use vault_zapper::asset::AssetInfo;
use vault_zapper::error::ContractError;
use vault_zapper::event::{find_event, parse_lockup_id, same_text, Attribute, Event};
use vault_zapper::lockup::{Expiration, UnlockingPosition};
use vault_zapper::msg::{PoolRef, ReceiveChoice};
use vault_zapper::query::{
    check_callback_sender, deposit_target, keep_own_positions, query_depositable_assets,
    query_receive_choices,
};

fn s(x: &str) -> String {
    x.to_string()
}

fn native(d: &str) -> AssetInfo {
    AssetInfo::Native(s(d))
}

#[test]
fn depositable_assets_lead_with_deposit_asset_and_target() {
    let pool = Some(PoolRef { lp_token: native("lp"), assets: vec![native("uatom"), native("uosmo")] });
    assert_eq!(deposit_target(&native("lp"), &pool), Ok(native("uatom")));
    let r = query_depositable_assets(&native("lp"), &pool, vec![native("uastro")]).unwrap();
    assert_eq!(r, vec![native("lp"), native("uatom"), native("uastro")]);
    let r = query_depositable_assets(&native("uatom"), &None, vec![]).unwrap();
    assert_eq!(r, vec![native("uatom"), native("uatom")]);
    let empty = Some(PoolRef { lp_token: native("lp"), assets: vec![] });
    assert_eq!(query_depositable_assets(&native("lp"), &empty, vec![]), Err(ContractError::UnsupportedVault {}));
}

#[test]
fn receive_choices_keep_assets_reachable_from_every_pool_asset() {
    let asks = vec![
        vec![native("uastro"), native("uion"), native("uusdc")],
        vec![native("uusdc"), native("uastro")],
    ];
    let r = query_receive_choices(Some(vec![native("uatom"), native("uosmo")]), &asks);
    assert_eq!(
        r,
        vec![
            ReceiveChoice::SwapTo(native("uastro")),
            ReceiveChoice::SwapTo(native("uusdc")),
            ReceiveChoice::SwapTo(native("uatom")),
            ReceiveChoice::SwapTo(native("uosmo")),
            ReceiveChoice::BaseToken,
            ReceiveChoice::Underlying,
        ]
    );
    let r = query_receive_choices(None, &vec![vec![native("uastro")]]);
    assert_eq!(r, vec![ReceiveChoice::SwapTo(native("uastro")), ReceiveChoice::BaseToken, ReceiveChoice::Underlying]);
}

#[test]
fn positions_of_others_are_filtered_out() {
    let pos = |id: u64, owner: &str| UnlockingPosition {
        id,
        owner: s(owner),
        release_at: Expiration::AtTime(1),
        base_token_amount: 300,
    };
    let kept = keep_own_positions(vec![pos(1, "zapper"), pos(2, "other"), pos(3, "zapper")], &s("zapper"));
    assert_eq!(kept.iter().map(|p| p.id).collect::<Vec<_>>(), vec![1, 3]);
}

#[test]
fn callbacks_only_from_self() {
    assert_eq!(check_callback_sender(&s("zapper"), &s("zapper")), Ok(()));
    assert_eq!(check_callback_sender(&s("eve"), &s("zapper")), Err(ContractError::Unauthorized {}));
}

#[test]
fn lockup_id_is_read_from_the_first_matching_event_and_attribute() {
    let ev = |ty: &str, attrs: &[(&str, &str)]| Event {
        ty: s(ty),
        attributes: attrs.iter().map(|(k, v)| Attribute { key: s(k), value: s(v) }).collect(),
    };
    let events = vec![
        ev("wasm", &[("lockup_id", "1")]),
        ev("wasm-unlocking_position_created", &[("lockup_id", "42"), ("lockup_id", "43")]),
        ev("wasm-unlocking_position_created", &[("lockup_id", "44")]),
    ];
    assert_eq!(find_event(&events, "wasm-unlocking_position_created"), Some(1));
    assert_eq!(parse_lockup_id(&events), Ok(42));
    let missing = vec![ev("wasm-unlocking_position_created", &[("id", "42")])];
    assert_eq!(parse_lockup_id(&missing), Err(ContractError::AttributeNotFound {}));
    let too_big = vec![ev("wasm-unlocking_position_created", &[("lockup_id", "18446744073709551616")])];
    assert_eq!(parse_lockup_id(&too_big), Err(ContractError::InvalidAttributeValue {}));
    let max = vec![ev("wasm-unlocking_position_created", &[("lockup_id", "18446744073709551615")])];
    assert_eq!(parse_lockup_id(&max), Ok(u64::MAX));
    let spaced = vec![ev("wasm-unlocking_position_created", &[("lockup_id", " 5")])];
    assert_eq!(parse_lockup_id(&spaced), Err(ContractError::InvalidAttributeValue {}));
    assert!(same_text("ab", "ab"));
    assert!(!same_text("ab", "abc"));
}
