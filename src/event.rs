use vstd::prelude::*;

use crate::error::ContractError;
use crate::lockup::{text, LockKey, LockupLedger};

verus! {

/// A key-value attribute of an event.
#[derive(Debug, Clone, PartialEq, Eq)]
pub struct Attribute {
    pub key: String,
    pub value: String,
}

/// An event a called contract emitted.
#[derive(Debug, Clone, PartialEq, Eq)]
pub struct Event {
    pub ty: String,
    pub attributes: Vec<Attribute>,
}

/// The type of the event a vault emits when it creates an unlocking position.
pub const UNLOCK_EVENT_TYPE: &'static str = "wasm-unlocking_position_created";

/// The attribute of that event holding the new lock identifier.
pub const LOCKUP_ID_KEY: &'static str = "lockup_id";

/// The identifier under which the vault's reply to an unlock comes back.
pub const UNLOCK_REPLY_ID: u64 = 143;

/// Whether `c` is a decimal digit.
pub open spec fn is_digit(c: char) -> bool {
    '0' <= c && c <= '9'
}

/// The number the decimal digits `s` write.
pub open spec fn digits_value(s: Seq<char>) -> int
    decreases s.len(),
{
    if s.len() == 0 {
        0
    } else {
        digits_value(s.drop_last()) * 10 + (s.last() as int - '0' as int)
    }
}

/// `s` read as a decimal `u64`: an optional `+`, then at least one digit and
/// nothing else, of a value that fits.
pub open spec fn decimal_u64(s: Seq<char>) -> Option<u64> {
    let d = if s.len() > 0 && s[0] == '+' { s.drop_first() } else { s };
    if d.len() > 0 && (forall|i: int| 0 <= i < d.len() ==> is_digit(#[trigger] d[i])) && digits_value(d)
        <= u64::MAX {
        Some(digits_value(d) as u64)
    } else {
        None
    }
}

/// The index of the first of `attrs` with key `key`, if any.
pub open spec fn first_attr(attrs: Seq<Attribute>, key: Seq<char>) -> Option<int> {
    if exists|i: int| 0 <= i < attrs.len() && (#[trigger] attrs[i]).key@ == key {
        let i = choose|i: int|
            0 <= i < attrs.len() && (#[trigger] attrs[i]).key@ == key && forall|j: int|
                0 <= j < i ==> (#[trigger] attrs[j]).key@ != key;
        Some(i)
    } else {
        None
    }
}

/// Relies on apollo_utils::submessages::parse_attribute_value: it reads the
/// value of the event's first attribute whose key is `key` with `u64`'s
/// `FromStr`, and fails when there is no such attribute or the value is no
/// decimal `u64`.
#[verifier::external_body]
fn parse_attribute_u64(event: &Event, key: &str) -> (r: Option<u64>)
    ensures
        r == match first_attr(event.attributes@, key@) {
            Some(i) => decimal_u64(event.attributes@[i].value@),
            None => None,
        },
{
    let mut e = cosmwasm_std::Event::new(event.ty.as_str());
    for a in event.attributes.iter() {
        e = e.add_attribute(a.key.as_str(), a.value.as_str());
    }
    apollo_utils::submessages::parse_attribute_value::<u64, std::num::ParseIntError>(&e, key).ok()
}

/// The index of the first of `events` of type `ty`, if any.
pub fn find_event(events: &Vec<Event>, ty: &str) -> (r: Option<usize>)
    ensures
        r matches Some(i) ==> i < events@.len() && events@[i as int].ty@ == ty@ && forall|j: int|
            0 <= j < i ==> (#[trigger] events@[j]).ty@ != ty@,
        r is None ==> forall|j: int| 0 <= j < events@.len() ==> (#[trigger] events@[j]).ty@ != ty@,
{
    let mut i: usize = 0;
    while i < events.len()
        invariant
            i <= events@.len(),
            forall|j: int| 0 <= j < i ==> (#[trigger] events@[j]).ty@ != ty@,
        decreases events@.len() - i,
    {
        if same_text(events[i].ty.as_str(), ty) {
            return Some(i);
        }
        i = i + 1;
    }
    None
}

/// Whether two strings hold the same characters.
pub fn same_text(a: &str, b: &str) -> (r: bool)
    ensures
        r == (a@ == b@),
{
    let r = crate::order::compare_bytes(a.as_bytes(), b.as_bytes()) == 0;
    proof {
        vstd::utf8::encode_utf8_decode_utf8(a@);
        vstd::utf8::encode_utf8_decode_utf8(b@);
    }
    r
}

/// Whether some attribute has the key `key`.
fn has_attribute(attrs: &Vec<Attribute>, key: &str) -> (r: bool)
    ensures
        r == exists|i: int| 0 <= i < attrs@.len() && (#[trigger] attrs@[i]).key@ == key@,
{
    let mut i: usize = 0;
    while i < attrs.len()
        invariant
            i <= attrs@.len(),
            forall|j: int| 0 <= j < i ==> (#[trigger] attrs@[j]).key@ != key@,
        decreases attrs@.len() - i,
    {
        if same_text(attrs[i].key.as_str(), key) {
            return Some(i).is_some();
        }
        i = i + 1;
    }
    false
}

/// The lock identifier an unlock reply announces: the `lockup_id` attribute
/// of its first unlocking-position event.
pub open spec fn announced_lockup_id(events: Seq<Event>) -> Result<u64, ContractError> {
    let ty = UNLOCK_EVENT_TYPE@;
    if !(exists|i: int| 0 <= i < events.len() && (#[trigger] events[i]).ty@ == ty) {
        Err(ContractError::EventNotFound {})
    } else {
        let e = choose|i: int|
            0 <= i < events.len() && (#[trigger] events[i]).ty@ == ty && forall|j: int|
                0 <= j < i ==> (#[trigger] events[j]).ty@ != ty;
        match first_attr(events[e].attributes@, LOCKUP_ID_KEY@) {
            None => Err(ContractError::AttributeNotFound {}),
            Some(a) => match decimal_u64(events[e].attributes@[a].value@) {
                None => Err(ContractError::InvalidAttributeValue {}),
                Some(v) => Ok(v),
            },
        }
    }
}

/// Reads the lock identifier from the events of a vault's reply to an unlock.
pub fn parse_lockup_id(events: &Vec<Event>) -> (r: Result<u64, ContractError>)
    ensures
        r == announced_lockup_id(events@),
{
    let idx = match find_event(events, UNLOCK_EVENT_TYPE) {
        Some(i) => i,
        None => {
            return Err(ContractError::EventNotFound {});
        },
    };
    proof {
        let ty = UNLOCK_EVENT_TYPE@;
        let e = choose|i: int|
            0 <= i < events@.len() && (#[trigger] events@[i]).ty@ == ty && forall|j: int|
                0 <= j < i ==> (#[trigger] events@[j]).ty@ != ty;
        if e < idx {
        } else if e > idx {
            assert(events@[idx as int].ty@ != ty);
        }
        assert(e == idx);
    }
    let event = &events[idx];
    if !has_attribute(&event.attributes, LOCKUP_ID_KEY) {
        proof {
            lemma_first_attr_none(event.attributes@, LOCKUP_ID_KEY@);
        }
        return Err(ContractError::AttributeNotFound {});
    }
    proof {
        lemma_first_attr_some(event.attributes@, LOCKUP_ID_KEY@);
    }
    match parse_attribute_u64(event, LOCKUP_ID_KEY) {
        Some(v) => Ok(v),
        None => Err(ContractError::InvalidAttributeValue {}),
    }
}

proof fn lemma_first_attr_none(attrs: Seq<Attribute>, key: Seq<char>)
    requires
        !(exists|i: int| 0 <= i < attrs.len() && (#[trigger] attrs[i]).key@ == key),
    ensures
        first_attr(attrs, key) is None,
{
}

proof fn lemma_first_attr_some(attrs: Seq<Attribute>, key: Seq<char>)
    requires
        exists|i: int| 0 <= i < attrs.len() && (#[trigger] attrs[i]).key@ == key,
    ensures
        first_attr(attrs, key) is Some,
{
    let i = first_index(attrs, key, 0);
    assert(0 <= i < attrs.len() && attrs[i].key@ == key && forall|j: int| 0 <= j < i ==> (#[trigger] attrs[j]).key@ != key);
}

proof fn first_index(attrs: Seq<Attribute>, key: Seq<char>, from: int) -> (i: int)
    requires
        0 <= from <= attrs.len(),
        forall|j: int| 0 <= j < from ==> (#[trigger] attrs[j]).key@ != key,
        exists|i: int| 0 <= i < attrs.len() && (#[trigger] attrs[i]).key@ == key,
    ensures
        0 <= i < attrs.len(),
        attrs[i].key@ == key,
        forall|j: int| 0 <= j < i ==> (#[trigger] attrs[j]).key@ != key,
    decreases attrs.len() - from,
{
    if from < attrs.len() && attrs[from].key@ == key {
        from
    } else {
        if from == attrs.len() {
            let w = choose|i: int| 0 <= i < attrs.len() && (#[trigger] attrs[i]).key@ == key;
            assert(attrs[w].key@ != key);
        }
        first_index(attrs, key, from + 1)
    }
}

/// Handles the vault's reply to an unlock: reads the lock identifier it
/// announces and records the waiting request under it. A reply under another
/// identifier, or a failed call, is refused.
pub fn reply(
    ledger: &mut LockupLedger,
    id: u64,
    result: Result<Vec<Event>, String>,
) -> (r: Result<u64, ContractError>)
    requires
        old(ledger).wf(),
    ensures
        final(ledger).wf(),
        id != UNLOCK_REPLY_ID || result is Err ==> (r matches Err(ContractError::Generic(_))) && *final(ledger) == *old(ledger),
        (id == UNLOCK_REPLY_ID && result is Ok) ==> {
            let events = result->Ok_0;
            let announced = announced_lockup_id(events@);
            &&& announced is Err ==> r == announced && *final(ledger) == *old(ledger)
            &&& announced is Ok && old(ledger).pending_unlock() is None ==> r == Err::<u64, ContractError>(
                ContractError::NoPendingUnlock {},
            ) && *final(ledger) == *old(ledger)
            &&& (announced is Ok && old(ledger).pending_unlock() is Some) ==> {
                let lid = announced->Ok_0;
                let p = old(ledger).pending_unlock()->Some_0;
                &&& r == Ok::<u64, ContractError>(lid)
                &&& final(ledger).pending_unlock() is None
                &&& forall|k: LockKey| #[trigger] final(ledger).holds(k) <==> (old(ledger).holds(k) || k == (
                    text(p.owner),
                    text(p.vault),
                    lid,
                ))
            }
        },
{
    if id != UNLOCK_REPLY_ID {
        return Err(ContractError::Generic("Invalid reply id".to_string()));
    }
    let events = match result {
        Ok(events) => events,
        Err(msg) => {
            return Err(ContractError::Generic(msg));
        },
    };
    let lockup_id = match parse_lockup_id(&events) {
        Ok(v) => v,
        Err(e) => {
            return Err(e);
        },
    };
    match ledger.complete_unlock(lockup_id) {
        Ok(()) => Ok(lockup_id),
        Err(e) => Err(e),
    }
}

} // verus!
