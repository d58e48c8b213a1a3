use vstd::prelude::*;

use crate::lockup::{key_lt, sorted_keys, LockKey};
use crate::order::{bytes_lt, lemma_bytes_lt_irreflexive, lemma_bytes_lt_transitive};

verus! {

/// A position in one owner's records: vault and lock identifier.
pub type LockPos = (Seq<u8>, u64);

/// The order of an owner's records: by vault, then identifier.
pub open spec fn pos_lt(a: LockPos, b: LockPos) -> bool {
    bytes_lt(a.0, b.0) || (a.0 == b.0 && a.1 < b.1)
}

pub open spec fn sorted_pos(s: Seq<LockPos>) -> bool {
    forall|i: int, j: int| 0 <= i < j < s.len() ==> pos_lt(#[trigger] s[i], #[trigger] s[j])
}

/// The positions of `owner`'s records among `keys`, in order.
pub open spec fn owned(keys: Seq<LockKey>, owner: Seq<u8>) -> Seq<LockPos>
    decreases keys.len(),
{
    if keys.len() == 0 {
        Seq::empty()
    } else {
        let rest = owned(keys.drop_last(), owner);
        let k = keys.last();
        if k.0 == owner {
            rest.push((k.1, k.2))
        } else {
            rest
        }
    }
}

/// Whether a cursor lets `p` through: every position after it.
pub open spec fn past(cursor: Option<LockPos>, p: LockPos) -> bool {
    match cursor {
        None => true,
        Some(c) => pos_lt(c, p),
    }
}

/// Whether `p` lies in the vault `vault`, when one is given.
pub open spec fn in_vault(vault: Option<Seq<u8>>, p: LockPos) -> bool {
    match vault {
        None => true,
        Some(v) => p.0 == v,
    }
}

/// Whether a listing restricted to `vault` and starting after `cursor`
/// includes `p`.
pub open spec fn listed(vault: Option<Seq<u8>>, cursor: Option<LockPos>, p: LockPos) -> bool {
    in_vault(vault, p) && past(cursor, p)
}

/// The positions of `s` a listing restricted to `vault` and starting after
/// `cursor` includes.
pub open spec fn within(s: Seq<LockPos>, vault: Option<Seq<u8>>, cursor: Option<LockPos>) -> Seq<LockPos> {
    s.filter(|p: LockPos| listed(vault, cursor, p))
}

/// The positions of `s` after `cursor`.
pub open spec fn after(s: Seq<LockPos>, cursor: Option<LockPos>) -> Seq<LockPos> {
    within(s, None, cursor)
}

/// At most the first `n` entries of `s`.
pub open spec fn first_n<A>(s: Seq<A>, n: nat) -> Seq<A> {
    if s.len() <= n {
        s
    } else {
        s.take(n as int)
    }
}

/// One page: the first `k` positions of `s` after `cursor`.
pub open spec fn page(s: Seq<LockPos>, cursor: Option<LockPos>, k: nat) -> Seq<LockPos> {
    first_n(after(s, cursor), k)
}

/// The `n`-th page reached from `cursor` by passing the last position of
/// each page as the next cursor; empty once a page came back empty.
pub open spec fn cursor_page(s: Seq<LockPos>, cursor: Option<LockPos>, k: nat, n: nat) -> Seq<LockPos>
    decreases n,
{
    if n == 0 {
        page(s, cursor, k)
    } else {
        let p = page(s, cursor, k);
        if p.len() == 0 {
            p
        } else {
            cursor_page(s, Some(p.last()), k, (n - 1) as nat)
        }
    }
}

/// The first `n` pages reached from `cursor`, joined.
pub open spec fn joined_pages(s: Seq<LockPos>, cursor: Option<LockPos>, k: nat, n: nat) -> Seq<LockPos>
    decreases n,
{
    if n == 0 {
        Seq::empty()
    } else {
        joined_pages(s, cursor, k, (n - 1) as nat) + cursor_page(s, cursor, k, (n - 1) as nat)
    }
}

/// Run `n` of length `k` of `s`.
pub open spec fn chunk(s: Seq<LockPos>, k: nat, n: nat) -> Seq<LockPos> {
    let lo = if n * k <= s.len() { n * k } else { s.len() as nat };
    let hi = if n * k + k <= s.len() { n * k + k } else { s.len() as nat };
    s.subrange(lo as int, hi as int)
}

/// Filtering a sequence whose entries fail `pred` up to `m` and pass it from
/// `m` on leaves the part from `m` on.
proof fn lemma_filter_suffix(s: Seq<LockPos>, pred: spec_fn(LockPos) -> bool, m: int)
    requires
        0 <= m <= s.len(),
        forall|i: int| 0 <= i < m ==> !pred(#[trigger] s[i]),
        forall|i: int| m <= i < s.len() ==> pred(#[trigger] s[i]),
    ensures
        s.filter(pred) == s.skip(m),
    decreases s.len(),
{
    if s.len() == 0 {
        assert(s.filter(pred) =~= s.skip(m)) by {
            reveal(Seq::filter);
        }
    } else {
        let d = s.drop_last();
        assert(s =~= d.push(s.last()));
        d.lemma_filter_push(s.last(), pred);
        if m == s.len() {
            lemma_filter_suffix(d, pred, m - 1);
            assert(!pred(s[m - 1]));
            assert(d.skip(m - 1) =~= Seq::<LockPos>::empty());
            assert(s.skip(m) =~= Seq::<LockPos>::empty());
        } else {
            lemma_filter_suffix(d, pred, m);
            assert(pred(s[s.len() - 1]));
            assert(s.skip(m) =~= d.skip(m).push(s.last()));
        }
    }
}

/// In a sorted sequence, the positions after a cursor form a suffix.
proof fn lemma_after_suffix(s: Seq<LockPos>, cursor: Option<LockPos>) -> (m: int)
    requires
        sorted_pos(s),
    ensures
        0 <= m <= s.len(),
        after(s, cursor) == s.skip(m),
        forall|i: int| 0 <= i < m ==> !past(cursor, #[trigger] s[i]),
{
    let pred = |p: LockPos| listed(None, cursor, p);
    let m = choose_first_past(s, cursor, 0);
    assert forall|i: int| m <= i < s.len() implies pred(#[trigger] s[i]) by {
        if i > m {
            lemma_pos_lt_transitive_opt(cursor, s[m], s[i]);
        }
    }
    lemma_filter_suffix(s, pred, m);
    m
}

proof fn lemma_pos_lt_transitive_opt(cursor: Option<LockPos>, a: LockPos, b: LockPos)
    requires
        past(cursor, a),
        pos_lt(a, b),
    ensures
        past(cursor, b),
{
    if let Some(c) = cursor {
        lemma_pos_lt_transitive(c, a, b);
    }
}

pub proof fn lemma_pos_lt_transitive(a: LockPos, b: LockPos, c: LockPos)
    requires
        pos_lt(a, b),
        pos_lt(b, c),
    ensures
        pos_lt(a, c),
{
    if bytes_lt(a.0, b.0) && bytes_lt(b.0, c.0) {
        lemma_bytes_lt_transitive(a.0, b.0, c.0);
    }
}

/// The first index from `from` on whose position the cursor lets through,
/// or the length.
proof fn choose_first_past(s: Seq<LockPos>, cursor: Option<LockPos>, from: int) -> (m: int)
    requires
        0 <= from <= s.len(),
        forall|i: int| 0 <= i < from ==> !past(cursor, #[trigger] s[i]),
    ensures
        from <= m <= s.len(),
        forall|i: int| 0 <= i < m ==> !past(cursor, #[trigger] s[i]),
        m < s.len() ==> past(cursor, s[m]),
    decreases s.len() - from,
{
    if from == s.len() || past(cursor, s[from]) {
        from
    } else {
        choose_first_past(s, cursor, from + 1)
    }
}

/// In a sorted sequence, the positions after the last position of a
/// non-empty page are those after the starting cursor, less the page.
proof fn lemma_next_cursor(s: Seq<LockPos>, cursor: Option<LockPos>, k: nat)
    requires
        sorted_pos(s),
        page(s, cursor, k).len() > 0,
    ensures
        after(s, Some(page(s, cursor, k).last())) == after(s, cursor).skip(page(s, cursor, k).len() as int),
{
    let m = lemma_after_suffix(s, cursor);
    let p = page(s, cursor, k);
    let j = m + p.len() - 1;
    assert(p.last() == s[j]);
    let pred = |q: LockPos| listed(None, Some(s[j]), q);
    assert forall|i: int| 0 <= i <= j implies !pred(#[trigger] s[i]) by {
        lemma_bytes_lt_irreflexive(s[i].0);
        if i < j {
            assert(pos_lt(s[i], s[j]));
            if pos_lt(s[j], s[i]) {
                lemma_pos_lt_transitive(s[i], s[j], s[i]);
            }
        }
    }
    lemma_filter_suffix(s, pred, j + 1);
    assert(s.skip(j + 1) =~= s.skip(m).skip(p.len() as int));
}

/// The pages reached by passing each page's last position as the next
/// cursor are the consecutive runs of `k` positions after the starting
/// cursor: page `n` is run `n`, so with `N` positions after the cursor there
/// are exactly ceil(N / k) non-empty pages, none repeats or skips a position,
/// and together they are all `N` positions, in order.
pub proof fn lemma_cursor_pages(s: Seq<LockPos>, cursor: Option<LockPos>, k: nat, n: nat)
    requires
        sorted_pos(s),
        k > 0,
    ensures
        cursor_page(s, cursor, k, n) == chunk(after(s, cursor), k, n),
        cursor_page(s, cursor, k, n).len() > 0 <==> n * k < after(s, cursor).len(),
        joined_pages(s, cursor, k, n) == first_n(after(s, cursor), n * k),
    decreases n,
{
    let a = after(s, cursor);
    let p = page(s, cursor, k);
    if n == 0 {
        assert(p =~= chunk(a, k, 0));
        assert(joined_pages(s, cursor, k, 0) =~= first_n(a, 0));
    } else {
        lemma_cursor_pages(s, cursor, k, (n - 1) as nat);
        let prev = joined_pages(s, cursor, k, (n - 1) as nat);
        assert((n - 1) * k + k == n * k) by (nonlinear_arith);
        if p.len() == 0 {
            assert(a.len() == 0);
            assert(cursor_page(s, cursor, k, n) =~= chunk(a, k, n));
            assert(joined_pages(s, cursor, k, n) =~= first_n(a, n * k));
        } else {
            lemma_next_cursor(s, cursor, k);
            let c2 = Some(p.last());
            lemma_cursor_pages(s, c2, k, (n - 1) as nat);
            let a2 = after(s, c2);
            assert(a2 == a.skip(p.len() as int));
            if a.len() <= k {
                assert(p == a);
                assert(a2.len() == 0);
                assert((n - 1) * k >= 0) by (nonlinear_arith)
                    requires n >= 1;
                assert(chunk(a2, k, (n - 1) as nat) =~= chunk(a, k, n)) by {
                    assert(n * k >= k) by (nonlinear_arith)
                        requires n >= 1;
                }
            } else {
                assert(p.len() == k);
                assert(chunk(a2, k, (n - 1) as nat) =~= chunk(a, k, n));
            }
            assert(cursor_page(s, cursor, k, n) == cursor_page(s, c2, k, (n - 1) as nat));
            assert(joined_pages(s, cursor, k, n) =~= first_n(a, n * k)) by {
                let c = chunk(a, k, (n - 1) as nat);
                assert(joined_pages(s, cursor, k, n) == prev + c);
            }
        }
    }
}

/// `p` is the position of one of `owner`'s keys.
pub open spec fn is_owned_pos(keys: Seq<LockKey>, owner: Seq<u8>, p: LockPos) -> bool {
    exists|j: int| 0 <= j < keys.len() && keys[j].0 == owner && (keys[j].1, keys[j].2) == p
}

/// An owner's positions, taken from sorted keys, are sorted, and each is the
/// position of one of the owner's keys.
pub proof fn lemma_owned_sorted(keys: Seq<LockKey>, owner: Seq<u8>)
    requires
        sorted_keys(keys),
    ensures
        sorted_pos(owned(keys, owner)),
        forall|i: int| 0 <= i < owned(keys, owner).len() ==> is_owned_pos(keys, owner, #[trigger] owned(keys, owner)[i]),
    decreases keys.len(),
{
    if keys.len() == 0 {
    } else {
        let d = keys.drop_last();
        let x = keys.last();
        assert(sorted_keys(d)) by {
            assert forall|i: int, j: int| 0 <= i < j < d.len() implies key_lt(#[trigger] d[i], #[trigger] d[j]) by {
                assert(d[i] == keys[i] && d[j] == keys[j]);
            }
        }
        lemma_owned_sorted(d, owner);
        let od = owned(d, owner);
        if x.0 == owner {
            let o = owned(keys, owner);
            assert forall|i: int, j: int| 0 <= i < j < o.len() implies pos_lt(#[trigger] o[i], #[trigger] o[j]) by {
                if j == o.len() - 1 {
                    assert(is_owned_pos(d, owner, od[i]));
                    let w = choose|w: int| 0 <= w < d.len() && d[w].0 == owner && (d[w].1, d[w].2) == od[i];
                    assert(key_lt(keys[w], keys[keys.len() - 1]));
                    lemma_bytes_lt_irreflexive(owner);
                } else {
                    assert(o[i] == od[i] && o[j] == od[j]);
                }
            }
            assert forall|i: int| 0 <= i < o.len() implies is_owned_pos(keys, owner, #[trigger] o[i]) by {
                if i == o.len() - 1 {
                    assert(keys[keys.len() - 1] == x);
                    assert(o[i] == (x.1, x.2));
                    assert(keys[keys.len() - 1].0 == owner);
                    let w = keys.len() - 1;
                    assert(0 <= w < keys.len() && keys[w].0 == owner && (keys[w].1, keys[w].2) == o[i]);
                } else {
                    assert(o[i] == od[i]);
                    assert(is_owned_pos(d, owner, od[i]));
                let w = choose|w: int| 0 <= w < d.len() && d[w].0 == owner && (d[w].1, d[w].2) == od[i];
                    assert(keys[w] == d[w]);
                    assert(0 <= w < keys.len() && keys[w].0 == owner && (keys[w].1, keys[w].2) == o[i]);
                }
            }
        } else {
            let o = owned(keys, owner);
            assert(o == od);
            assert forall|i: int| 0 <= i < o.len() implies is_owned_pos(keys, owner, #[trigger] o[i]) by {
                assert(is_owned_pos(d, owner, od[i]));
                let w = choose|w: int| 0 <= w < d.len() && d[w].0 == owner && (d[w].1, d[w].2) == od[i];
                assert(keys[w] == d[w]);
                assert(0 <= w < keys.len() && keys[w].0 == owner && (keys[w].1, keys[w].2) == o[i]);
            }
        }
    }
}

} // verus!
