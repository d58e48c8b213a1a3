use vstd::prelude::*;

use crate::error::ContractError;

verus! {

/// Identifies an asset: a native denomination or a CW20 token contract.
#[derive(Debug)]
pub enum AssetInfo {
    Native(String),
    Cw20(String),
}

impl AssetInfo {
    /// Two asset references denote the same asset: same kind, same identifier.
    pub open spec fn same(&self, other: &AssetInfo) -> bool {
        match (self, other) {
            (AssetInfo::Native(a), AssetInfo::Native(b)) => a@ == b@,
            (AssetInfo::Cw20(a), AssetInfo::Cw20(b)) => a@ == b@,
            _ => false,
        }
    }

    pub open spec fn is_native_spec(&self) -> bool {
        self is Native
    }

    pub fn is_native(&self) -> (r: bool)
        ensures
            r == self.is_native_spec(),
    {
        match self {
            AssetInfo::Native(_) => true,
            AssetInfo::Cw20(_) => false,
        }
    }
}

impl Clone for AssetInfo {
    fn clone(&self) -> (r: Self)
        ensures
            r == *self,
    {
        match self {
            AssetInfo::Native(d) => AssetInfo::Native(d.clone()),
            AssetInfo::Cw20(a) => AssetInfo::Cw20(a.clone()),
        }
    }
}

impl PartialEq for AssetInfo {
    fn eq(&self, other: &AssetInfo) -> (r: bool)
        ensures
            r == self.same(other),
    {
        match (self, other) {
            (AssetInfo::Native(a), AssetInfo::Native(b)) => a.eq(b),
            (AssetInfo::Cw20(a), AssetInfo::Cw20(b)) => a.eq(b),
            _ => false,
        }
    }
}

impl vstd::std_specs::cmp::PartialEqSpecImpl for AssetInfo {
    open spec fn obeys_eq_spec() -> bool {
        true
    }

    open spec fn eq_spec(&self, other: &AssetInfo) -> bool {
        self.same(other)
    }
}

/// A concrete holding or flow: an asset and an amount of it.
#[derive(Debug)]
pub struct Asset {
    pub info: AssetInfo,
    pub amount: u128,
}

impl Asset {
    pub fn new(info: AssetInfo, amount: u128) -> (r: Asset)
        ensures
            r == (Asset { info, amount }),
    {
        Asset { info, amount }
    }
}

impl Clone for Asset {
    fn clone(&self) -> (r: Self)
        ensures
            r == *self,
    {
        Asset { info: self.info.clone(), amount: self.amount }
    }
}

impl PartialEq for Asset {
    fn eq(&self, other: &Asset) -> (r: bool)
        ensures
            r == (self.info.same(&other.info) && self.amount == other.amount),
    {
        self.info == other.info && self.amount == other.amount
    }
}

impl vstd::std_specs::cmp::PartialEqSpecImpl for Asset {
    open spec fn obeys_eq_spec() -> bool {
        true
    }

    open spec fn eq_spec(&self, other: &Asset) -> bool {
        self.info.same(&other.info) && self.amount == other.amount
    }
}

/// Whether some entry of `s` denotes the asset `info`.
pub open spec fn holds(s: Seq<Asset>, info: AssetInfo) -> bool {
    exists|i: int| 0 <= i < s.len() && (#[trigger] s[i]).info.same(&info)
}

/// The amount of `info` in `s`: the first entry that denotes it, or zero.
pub open spec fn amount_in(s: Seq<Asset>, info: AssetInfo) -> nat
    decreases s.len(),
{
    if s.len() == 0 {
        0
    } else if s[0].info.same(&info) {
        s[0].amount as nat
    } else {
        amount_in(s.drop_first(), info)
    }
}

/// No two entries of `s` denote the same asset.
pub open spec fn distinct_assets(s: Seq<Asset>) -> bool {
    forall|i: int, j: int|
        0 <= i < s.len() && 0 <= j < s.len() && i != j ==> !(#[trigger] s[i]).info.same(
            &(#[trigger] s[j]).info,
        )
}

/// The amount held at a position is the amount of that asset in the sequence.
pub proof fn lemma_amount_at(s: Seq<Asset>, i: int)
    requires
        distinct_assets(s),
        0 <= i < s.len(),
    ensures
        amount_in(s, s[i].info) == s[i].amount,
    decreases s.len(),
{
    if i > 0 {
        assert(!s[0].info.same(&s[i].info));
        let t = s.drop_first();
        assert(t[i - 1] == s[i]);
        assert(distinct_assets(t)) by {
            assert forall|a: int, b: int|
                0 <= a < t.len() && 0 <= b < t.len() && a != b implies !(#[trigger] t[a]).info.same(
                &(#[trigger] t[b]).info,
            ) by {
                assert(t[a] == s[a + 1] && t[b] == s[b + 1]);
            }
        }
        lemma_amount_at(t, i - 1);
    }
}

/// An asset that no entry denotes has amount zero.
pub proof fn lemma_amount_absent(s: Seq<Asset>, info: AssetInfo)
    requires
        !holds(s, info),
    ensures
        amount_in(s, info) == 0,
    decreases s.len(),
{
    if s.len() > 0 {
        assert(!s[0].info.same(&info)) by {
            assert(s[0] == s[0]);
        }
        let t = s.drop_first();
        assert(!holds(t, info)) by {
            assert forall|k: int| 0 <= k < t.len() implies !(#[trigger] t[k]).info.same(&info) by {
                assert(t[k] == s[k + 1]);
            }
        }
        lemma_amount_absent(t, info);
    }
}

/// Native funds sent along with a call.
#[derive(Debug, Clone, PartialEq, Eq)]
pub struct Coin {
    pub denom: String,
    pub amount: u128,
}

/// An unordered bundle of holdings with at most one entry per asset.
#[derive(Debug)]
pub struct AssetList {
    assets: Vec<Asset>,
}

impl View for AssetList {
    type V = Seq<Asset>;

    closed spec fn view(&self) -> Seq<Asset> {
        self.assets@
    }
}

impl AssetList {
    /// The bundle's invariant: no two entries denote the same asset.
    pub open spec fn wf(&self) -> bool {
        distinct_assets(self@)
    }

    pub open spec fn spec_amount(&self, info: AssetInfo) -> nat {
        amount_in(self@, info)
    }

    pub fn new() -> (r: AssetList)
        ensures
            r.wf(),
            r@ == Seq::<Asset>::empty(),
    {
        AssetList { assets: Vec::new() }
    }

    pub fn len(&self) -> (r: usize)
        ensures
            r == self@.len(),
    {
        self.assets.len()
    }

    pub fn get(&self, i: usize) -> (r: &Asset)
        requires
            i < self@.len(),
        ensures
            *r == self@[i as int],
    {
        &self.assets[i]
    }

    /// The position of the entry that denotes `info`, if any.
    pub fn position(&self, info: &AssetInfo) -> (r: Option<usize>)
        ensures
            r matches Some(i) ==> i < self@.len() && self@[i as int].info.same(info),
            r is None <==> !holds(self@, *info),
            r matches Some(i) ==> forall|k: int| 0 <= k < i ==> !(#[trigger] self@[k]).info.same(info),
    {
        let mut i: usize = 0;
        while i < self.assets.len()
            invariant
                i <= self@.len(),
                self@ == self.assets@,
                forall|k: int| 0 <= k < i ==> !(#[trigger] self@[k]).info.same(info),
            decreases self@.len() - i,
        {
            if self.assets[i].info == *info {
                return Some(i);
            }
            i = i + 1;
        }
        None
    }

    /// The amount held of `info`; zero where the bundle has no entry for it.
    pub fn amount_of(&self, info: &AssetInfo) -> (r: u128)
        requires
            self.wf(),
        ensures
            r == self.spec_amount(*info),
    {
        match self.position(info) {
            Some(i) => {
                proof {
                    lemma_amount_at(self@, i as int);
                    lemma_same_amount(self@, self@[i as int].info, *info);
                }
                self.assets[i].amount
            },
            None => {
                proof {
                    lemma_amount_absent(self@, *info);
                }
                0
            },
        }
    }

    /// Adds `asset` to the bundle: its amount is added to the entry of the same
    /// asset, or it is appended when there is none. Fails, and leaves the bundle
    /// as it was, when the sum leaves the range of `u128`.
    pub fn add(&mut self, asset: Asset) -> (r: Result<(), ContractError>)
        requires
            old(self).wf(),
        ensures
            final(self).wf(),
            r is Ok <==> old(self).spec_amount(asset.info) + asset.amount <= u128::MAX,
            r is Err ==> r == Err::<(), ContractError>(ContractError::Overflow {}) && final(self)@
                == old(self)@,
            r is Ok ==> (holds(old(self)@, asset.info) ==> exists|i: int|
                0 <= i < old(self)@.len() && (#[trigger] old(self)@[i]).info.same(&asset.info)
                    && final(self)@ == old(self)@.update(
                    i,
                    Asset { info: old(self)@[i].info, amount: (old(self)@[i].amount + asset.amount) as u128 },
                )),
            r is Ok ==> (!holds(old(self)@, asset.info) ==> final(self)@ == old(self)@.push(asset)),
    {
        match self.position(&asset.info) {
            Some(i) => {
                proof {
                    lemma_amount_at(self@, i as int);
                    lemma_same_amount(self@, self@[i as int].info, asset.info);
                }
                let current = self.assets[i].amount;
                match current.checked_add(asset.amount) {
                    Some(sum) => {
                        let ghost before = self@;
                        self.assets[i].amount = sum;
                        proof {
                            assert(self@ =~= before.update(
                                i as int,
                                Asset { info: before[i as int].info, amount: sum },
                            ));
                            assert forall|a: int, b: int|
                                0 <= a < self@.len() && 0 <= b < self@.len() && a != b implies !(#[trigger] self@[a]).info.same(
                                &(#[trigger] self@[b]).info,
                            ) by {
                                assert(self@[a].info == before[a].info);
                                assert(self@[b].info == before[b].info);
                            }
                        }
                        Ok(())
                    },
                    None => Err(ContractError::Overflow {}),
                }
            },
            None => {
                proof {
                    lemma_amount_absent(self@, asset.info);
                }
                let ghost before = self@;
                self.assets.push(asset);
                proof {
                    assert forall|a: int, b: int|
                        0 <= a < self@.len() && 0 <= b < self@.len() && a != b implies !(#[trigger] self@[a]).info.same(
                        &(#[trigger] self@[b]).info,
                    ) by {
                        if a == before.len() {
                            lemma_same_symmetric(self@[a].info, self@[b].info);
                            assert(self@[b] == before[b]);
                        } else if b == before.len() {
                            assert(self@[a] == before[a]);
                        }
                    }
                }
                Ok(())
            },
        }
    }

    /// What was received between two snapshots: for every entry of `self`
    /// (the later one), its amount above the amount of the same asset in
    /// `before`, or zero where it did not grow.
    pub fn received_since(&self, before: &AssetList) -> (r: AssetList)
        requires
            self.wf(),
            before.wf(),
        ensures
            r.wf(),
            r@.len() == self@.len(),
            forall|i: int|
                0 <= i < self@.len() ==> #[trigger] r@[i] == (Asset {
                    info: self@[i].info,
                    amount: growth(self@[i].amount as nat, before.spec_amount(self@[i].info)),
                }),
    {
        let mut out: Vec<Asset> = Vec::new();
        let mut i: usize = 0;
        while i < self.assets.len()
            invariant
                i <= self@.len(),
                self@ == self.assets@,
                self.wf(),
                before.wf(),
                out@.len() == i,
                forall|k: int|
                    0 <= k < i ==> #[trigger] out@[k] == (Asset {
                        info: self@[k].info,
                        amount: growth(self@[k].amount as nat, before.spec_amount(self@[k].info)),
                    }),
            decreases self@.len() - i,
        {
            let a = &self.assets[i];
            let prior = before.amount_of(&a.info);
            let gained: u128 = if a.amount > prior {
                a.amount - prior
            } else {
                0
            };
            out.push(Asset { info: a.info.clone(), amount: gained });
            i = i + 1;
        }
        let r = AssetList { assets: out };
        proof {
            assert forall|a: int, b: int|
                0 <= a < r@.len() && 0 <= b < r@.len() && a != b implies !(#[trigger] r@[a]).info.same(
                &(#[trigger] r@[b]).info,
            ) by {
                assert(r@[a].info == self@[a].info);
                assert(r@[b].info == self@[b].info);
            }
        }
        r
    }

    /// A bundle of one entry.
    pub fn single(asset: Asset) -> (r: AssetList)
        ensures
            r.wf(),
            r@ == seq![asset],
    {
        let mut v: Vec<Asset> = Vec::new();
        v.push(asset);
        AssetList { assets: v }
    }

    /// The entries whose asset `infos` does not name, in their order.
    pub fn excluding(&self, infos: &Vec<AssetInfo>) -> (r: AssetList)
        requires
            self.wf(),
        ensures
            r.wf(),
            r@ == self@.filter(|a: Asset| !names(infos@, a.info)),
    {
        let ghost keep = |a: Asset| !names(infos@, a.info);
        let mut out: Vec<Asset> = Vec::new();
        let mut i: usize = 0;
        while i < self.assets.len()
            invariant
                i <= self@.len(),
                self@ == self.assets@,
                self.wf(),
                keep == (|a: Asset| !names(infos@, a.info)),
                out@ == self@.take(i as int).filter(keep),
                distinct_assets(out@),
                forall|k: int, m: int|
                    0 <= k < out@.len() && i <= m < self@.len() ==> !(#[trigger] out@[k]).info.same(
                        &(#[trigger] self@[m]).info,
                    ),
            decreases self@.len() - i,
        {
            let a = &self.assets[i];
            let listed = contains_info(infos, &a.info);
            proof {
                assert(self@.take(i + 1) =~= self@.take(i as int).push(self@[i as int]));
                self@.take(i as int).lemma_filter_push(self@[i as int], keep);
            }
            if !listed {
                let ghost before = out@;
                out.push(a.clone());
                proof {
                    assert forall|x: int, y: int|
                        0 <= x < out@.len() && 0 <= y < out@.len() && x != y implies !(#[trigger] out@[x]).info.same(
                        &(#[trigger] out@[y]).info,
                    ) by {
                        if x == before.len() {
                            assert(!before[y].info.same(&self@[i as int].info));
                        } else if y == before.len() {
                            assert(!before[x].info.same(&self@[i as int].info));
                        } else {
                            assert(out@[x] == before[x] && out@[y] == before[y]);
                        }
                    }
                    assert forall|k: int, m: int|
                        0 <= k < out@.len() && i + 1 <= m < self@.len() implies !(#[trigger] out@[k]).info.same(
                        &(#[trigger] self@[m]).info,
                    ) by {
                        if k == before.len() {
                            assert(!self@[i as int].info.same(&self@[m].info));
                        } else {
                            assert(out@[k] == before[k]);
                        }
                    }
                }
            }
            i = i + 1;
        }
        proof {
            assert(self@.take(i as int) =~= self@);
        }
        AssetList { assets: out }
    }

    /// The entries of the bundle, in order.
    pub fn to_vec(&self) -> (r: Vec<Asset>)
        ensures
            r@ == self@,
    {
        let mut out: Vec<Asset> = Vec::new();
        let mut i: usize = 0;
        while i < self.assets.len()
            invariant
                i <= self.assets@.len(),
                self@ == self.assets@,
                out@ == self@.subrange(0, i as int),
            decreases self.assets@.len() - i,
        {
            out.push(self.assets[i].clone());
            i = i + 1;
            proof {
                assert(out@ =~= self@.subrange(0, i as int));
            }
        }
        out
    }
}

/// How much `after` exceeds `before`, or zero where it does not.
pub open spec fn growth(after: nat, before: nat) -> u128 {
    if after > before {
        (after - before) as u128
    } else {
        0
    }
}

/// Whether some entry of `infos` denotes the asset `info`.
pub open spec fn names(infos: Seq<AssetInfo>, info: AssetInfo) -> bool {
    exists|i: int| 0 <= i < infos.len() && (#[trigger] infos[i]).same(&info)
}

/// Whether `infos` names the asset `info`.
pub fn contains_info(infos: &Vec<AssetInfo>, info: &AssetInfo) -> (r: bool)
    ensures
        r == names(infos@, *info),
{
    let mut i: usize = 0;
    while i < infos.len()
        invariant
            i <= infos@.len(),
            forall|k: int| 0 <= k < i ==> !(#[trigger] infos@[k]).same(info),
        decreases infos@.len() - i,
    {
        if infos[i] == *info {
            return true;
        }
        i = i + 1;
    }
    false
}

/// `same` is symmetric.
pub proof fn lemma_same_symmetric(a: AssetInfo, b: AssetInfo)
    ensures
        a.same(&b) == b.same(&a),
{
}

/// Two references that denote the same asset have the same amount in a sequence.
pub proof fn lemma_same_amount(s: Seq<Asset>, a: AssetInfo, b: AssetInfo)
    requires
        a.same(&b),
    ensures
        amount_in(s, a) == amount_in(s, b),
        holds(s, a) == holds(s, b),
    decreases s.len(),
{
    if s.len() > 0 {
        lemma_same_amount(s.drop_first(), a, b);
        if holds(s, a) {
            let i = choose|i: int| 0 <= i < s.len() && (#[trigger] s[i]).info.same(&a);
            assert(s[i].info.same(&b));
        }
        if holds(s, b) {
            let i = choose|i: int| 0 <= i < s.len() && (#[trigger] s[i]).info.same(&b);
            assert(s[i].info.same(&a));
        }
    }
}

} // verus!
