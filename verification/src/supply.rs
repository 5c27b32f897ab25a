//! The supply calculator: derives aggregate supply statistics from the
//! record store with exact 128-bit arithmetic, failing loudly on overflow.
//! The result is a pure function of the store's contents and serves as the
//! audit oracle.

use vstd::prelude::*;
use crate::records::{
    CoinAmount, LegacyAccountRecord, RecordStore, Role, amount_in, coins_unique, has_coin,
};

verus! {

/// Aggregate, derived, read-only supply statistics.
#[derive(Clone, Debug)]
pub struct SupplyStats {
    /// Total amount per coin kind across all non-Drop records, one entry
    /// per coin kind that appears in a non-Drop record.
    pub totals: Vec<CoinAmount>,
    /// The count of contributing accounts: non-Drop records carrying an
    /// address.
    pub contributing_accounts: usize,
}

/// Arithmetic invariant breach while summing supply; always fatal.
#[derive(Clone, Copy, Debug, PartialEq, Eq, Structural)]
pub enum SupplyError {
    /// The total for this coin kind does not fit in 128 bits.
    SupplyOverflow { coin: u64 },
}

/// Contribution of one record to the supply in `coin`: its amount in that
/// coin, unless the record is dropped.
pub open spec fn record_contribution(r: LegacyAccountRecord, coin: u64) -> int {
    if r.role is Drop {
        0
    } else {
        amount_in(r.balances@, coin)
    }
}

/// Total supply in `coin` across all non-Drop records of `s`.
pub open spec fn supply_sum(s: Seq<LegacyAccountRecord>, coin: u64) -> int
    decreases s.len(),
{
    if s.len() == 0 {
        0
    } else {
        supply_sum(s.drop_last(), coin) + record_contribution(s.last(), coin)
    }
}

/// Whether `coin` appears in some non-Drop record of `s`.
pub open spec fn coin_present(s: Seq<LegacyAccountRecord>, coin: u64) -> bool {
    exists|i: int| 0 <= i < s.len() && !(s[i].role is Drop) && has_coin(s[i].balances@, coin)
}

/// The number of contributing accounts of `s`: non-Drop records that carry
/// an address.
pub open spec fn contributing_count(s: Seq<LegacyAccountRecord>) -> int
    decreases s.len(),
{
    if s.len() == 0 {
        0
    } else {
        contributing_count(s.drop_last()) + if !(s.last().role is Drop)
            && s.last().address is Some {
            1int
        } else {
            0
        }
    }
}

pub proof fn lemma_amount_in_nonneg(bals: Seq<CoinAmount>, coin: u64)
    ensures
        amount_in(bals, coin) >= 0,
    decreases bals.len(),
{
    if bals.len() > 0 {
        lemma_amount_in_nonneg(bals.drop_last(), coin);
    }
}

pub proof fn lemma_amount_in_take_succ(bals: Seq<CoinAmount>, coin: u64, j: int)
    requires
        0 <= j < bals.len(),
    ensures
        amount_in(bals.take(j + 1), coin) == amount_in(bals.take(j), coin) + if bals[j].coin
            == coin {
            bals[j].amount as int
        } else {
            0
        },
{
    assert(bals.take(j + 1).drop_last() =~= bals.take(j));
    assert(bals.take(j + 1).last() == bals[j]);
}

pub proof fn lemma_amount_in_take_le(bals: Seq<CoinAmount>, coin: u64, j: int)
    requires
        0 <= j <= bals.len(),
    ensures
        amount_in(bals.take(j), coin) <= amount_in(bals, coin),
    decreases bals.len() - j,
{
    if j == bals.len() {
        assert(bals.take(j) =~= bals);
    } else {
        lemma_amount_in_take_succ(bals, coin, j);
        lemma_amount_in_take_le(bals, coin, j + 1);
    }
}

/// An absent coin kind contributes nothing.
pub proof fn lemma_amount_in_absent(bals: Seq<CoinAmount>, coin: u64)
    requires
        !has_coin(bals, coin),
    ensures
        amount_in(bals, coin) == 0,
    decreases bals.len(),
{
    if bals.len() > 0 {
        assert(!has_coin(bals.drop_last(), coin)) by {
            if has_coin(bals.drop_last(), coin) {
                let i = choose|i: int|
                    0 <= i < bals.drop_last().len() && bals.drop_last()[i].coin == coin;
                assert(bals[i].coin == coin);
            }
        }
        lemma_amount_in_absent(bals.drop_last(), coin);
        assert(bals.last().coin != coin) by {
            assert(bals[bals.len() - 1].coin == bals.last().coin);
        }
    }
}

/// With pairwise-distinct coin kinds, one entry's amount is the whole
/// amount in its coin.
pub proof fn lemma_amount_in_unique_at(ts: Seq<CoinAmount>, k: int)
    requires
        coins_unique(ts),
        0 <= k < ts.len(),
    ensures
        amount_in(ts, ts[k].coin) == ts[k].amount,
    decreases ts.len(),
{
    if k == ts.len() - 1 {
        assert(!has_coin(ts.drop_last(), ts[k].coin)) by {
            if has_coin(ts.drop_last(), ts[k].coin) {
                let i = choose|i: int|
                    0 <= i < ts.drop_last().len() && ts.drop_last()[i].coin == ts[k].coin;
                assert(ts[i].coin == ts[k].coin);
            }
        }
        lemma_amount_in_absent(ts.drop_last(), ts[k].coin);
    } else {
        assert(ts.drop_last()[k] == ts[k]);
        lemma_amount_in_unique_at(ts.drop_last(), k);
        assert(ts.last().coin != ts[k].coin);
    }
}

/// Updating one entry in place moves the amount in its coin by the
/// difference and leaves every other coin unchanged.
pub proof fn lemma_amount_in_update(ts: Seq<CoinAmount>, k: int, v: CoinAmount, coin: u64)
    requires
        0 <= k < ts.len(),
        v.coin == ts[k].coin,
    ensures
        amount_in(ts.update(k, v), coin) == amount_in(ts, coin) - (if ts[k].coin == coin {
            ts[k].amount as int
        } else {
            0
        }) + (if v.coin == coin {
            v.amount as int
        } else {
            0
        }),
    decreases ts.len(),
{
    if k == ts.len() - 1 {
        assert(ts.update(k, v).drop_last() =~= ts.drop_last());
        assert(ts.update(k, v).last() == v);
    } else {
        assert(ts.update(k, v).drop_last() =~= ts.drop_last().update(k, v));
        assert(ts.drop_last()[k] == ts[k]);
        lemma_amount_in_update(ts.drop_last(), k, v, coin);
        assert(ts.update(k, v).last() == ts.last());
    }
}

/// Appending an entry adds its amount to its coin and nothing else.
pub proof fn lemma_amount_in_push(ts: Seq<CoinAmount>, v: CoinAmount, coin: u64)
    ensures
        amount_in(ts.push(v), coin) == amount_in(ts, coin) + (if v.coin == coin {
            v.amount as int
        } else {
            0
        }),
{
    assert(ts.push(v).drop_last() =~= ts);
    assert(ts.push(v).last() == v);
}

pub proof fn lemma_supply_sum_nonneg(s: Seq<LegacyAccountRecord>, coin: u64)
    ensures
        supply_sum(s, coin) >= 0,
    decreases s.len(),
{
    if s.len() > 0 {
        lemma_supply_sum_nonneg(s.drop_last(), coin);
        lemma_amount_in_nonneg(s.last().balances@, coin);
    }
}

pub proof fn lemma_supply_sum_take_succ(s: Seq<LegacyAccountRecord>, coin: u64, i: int)
    requires
        0 <= i < s.len(),
    ensures
        supply_sum(s.take(i + 1), coin) == supply_sum(s.take(i), coin) + record_contribution(
            s[i],
            coin,
        ),
{
    assert(s.take(i + 1).drop_last() =~= s.take(i));
    assert(s.take(i + 1).last() == s[i]);
}

pub proof fn lemma_supply_sum_take_le(s: Seq<LegacyAccountRecord>, coin: u64, i: int)
    requires
        0 <= i <= s.len(),
    ensures
        supply_sum(s.take(i), coin) <= supply_sum(s, coin),
    decreases s.len() - i,
{
    if i == s.len() {
        assert(s.take(i) =~= s);
    } else {
        lemma_supply_sum_take_succ(s, coin, i);
        lemma_amount_in_nonneg(s[i].balances@, coin);
        lemma_supply_sum_take_le(s, coin, i + 1);
    }
}

pub proof fn lemma_contributing_take_succ(s: Seq<LegacyAccountRecord>, i: int)
    requires
        0 <= i < s.len(),
    ensures
        contributing_count(s.take(i + 1)) == contributing_count(s.take(i)) + if !(s[i].role
            is Drop) && s[i].address is Some {
            1int
        } else {
            0
        },
{
    assert(s.take(i + 1).drop_last() =~= s.take(i));
    assert(s.take(i + 1).last() == s[i]);
}

/// Finds the entry for `coin` in a totals list, if any.
fn find_coin_index(totals: &Vec<CoinAmount>, coin: u64) -> (r: Option<usize>)
    ensures
        r matches Some(i) ==> i < totals@.len() && totals@[i as int].coin == coin,
        r is None ==> !has_coin(totals@, coin),
{
    let n = totals.len();
    let mut i: usize = 0;
    while i < n
        invariant
            i <= n,
            n == totals@.len(),
            forall|k: int| 0 <= k < i ==> totals@[k].coin != coin,
        decreases n - i,
    {
        if totals[i].coin == coin {
            return Some(i);
        }
        i = i + 1;
    }
    None
}

/// Derives the supply statistics over all non-Drop records of the store,
/// summing per coin kind with exact 128-bit arithmetic. Succeeds exactly
/// when every coin kind's total fits in 128 bits; an overflow fails loudly
/// with `SupplyOverflow` instead of wrapping or saturating. The result is
/// determined by the store's contents alone.
#[verifier::loop_isolation(false)]
pub fn compute(store: &RecordStore) -> (r: Result<SupplyStats, SupplyError>)
    ensures
        r is Ok <==> (forall|coin: u64| supply_sum(store@, coin) <= u128::MAX),
        r matches Ok(stats) ==> {
            &&& coins_unique(stats.totals@)
            &&& (forall|coin: u64|
                #![trigger amount_in(stats.totals@, coin)]
                amount_in(stats.totals@, coin) == supply_sum(store@, coin))
            &&& (forall|coin: u64|
                #![trigger has_coin(stats.totals@, coin)]
                has_coin(stats.totals@, coin) <==> coin_present(store@, coin))
            &&& stats.contributing_accounts == contributing_count(store@)
        },
        r matches Err(e) ==> (e matches SupplyError::SupplyOverflow { coin } && supply_sum(
            store@,
            coin,
        ) > u128::MAX),
{
    let n = store.records.len();
    let mut totals: Vec<CoinAmount> = Vec::new();
    let mut contributing: usize = 0;
    let mut i: usize = 0;
    while i < n
        invariant
            i <= n,
            n == store@.len(),
            contributing <= i,
            coins_unique(totals@),
            forall|c: u64|
                #![trigger amount_in(totals@, c)]
                amount_in(totals@, c) == supply_sum(store@.take(i as int), c),
            forall|c: u64|
                #![trigger has_coin(totals@, c)]
                has_coin(totals@, c) <==> coin_present(store@.take(i as int), c),
            contributing == contributing_count(store@.take(i as int)),
        decreases n - i,
    {
        let rec = &store.records[i];
        if rec.role != Role::Drop {
            if rec.address.is_some() {
                contributing = contributing + 1;
            }
            let m = rec.balances.len();
            let mut j: usize = 0;
            while j < m
                invariant
                    j <= m,
                    i < n,
                    m == rec.balances@.len(),
                    rec == &store.records[i as int],
                    rec.role != Role::Drop,
                    coins_unique(totals@),
                    forall|c: u64|
                        #![trigger amount_in(totals@, c)]
                        amount_in(totals@, c) == supply_sum(store@.take(i as int), c) + amount_in(
                            rec.balances@.take(j as int),
                            c,
                        ),
                    forall|c: u64|
                        #![trigger has_coin(totals@, c)]
                        has_coin(totals@, c) <==> coin_present(store@.take(i as int), c)
                            || has_coin(rec.balances@.take(j as int), c),
                decreases m - j,
            {
                let entry = rec.balances[j];
                match find_coin_index(&totals, entry.coin) {
                    Option::Some(k) => {
                        proof {
                            lemma_amount_in_unique_at(totals@, k as int);
                        }
                        let cur = totals[k].amount;
                        if cur > u128::MAX - entry.amount {
                            proof {
                                let c = entry.coin;
                                lemma_supply_sum_nonneg(store@.take(i as int), c);
                                lemma_amount_in_nonneg(rec.balances@.take(j as int), c);
                                lemma_amount_in_take_succ(rec.balances@, c, j as int);
                                lemma_amount_in_take_le(rec.balances@, c, j + 1);
                                lemma_supply_sum_take_succ(store@, c, i as int);
                                lemma_supply_sum_take_le(store@, c, i + 1);
                                assert(supply_sum(store@, c) > u128::MAX);
                            }
                            return Err(SupplyError::SupplyOverflow { coin: entry.coin });
                        }
                        let ghost prev = totals@;
                        totals[k].amount = cur + entry.amount;
                        proof {
                            assert(totals@ == prev.update(k as int, totals@[k as int]));
                            assert forall|c: u64| #![trigger amount_in(totals@, c)]
                                amount_in(totals@, c) == supply_sum(store@.take(i as int), c)
                                    + amount_in(rec.balances@.take(j + 1), c) by {
                                lemma_amount_in_update(prev, k as int, totals@[k as int], c);
                                lemma_amount_in_take_succ(rec.balances@, c, j as int);
                            }
                            assert forall|c: u64| #![trigger has_coin(totals@, c)]
                                has_coin(totals@, c) <==> (coin_present(store@.take(i as int), c)
                                    || has_coin(rec.balances@.take(j + 1), c)) by {
                                assert(forall|l: int|
                                    0 <= l < totals@.len() ==> totals@[l].coin == prev[l].coin);
                                lemma_amount_in_take_succ(rec.balances@, c, j as int);
                                if has_coin(totals@, c) {
                                    let l = choose|l: int|
                                        0 <= l < totals@.len() && totals@[l].coin == c;
                                    assert(prev[l].coin == c);
                                    assert(has_coin(prev, c));
                                }
                                if has_coin(prev, c) {
                                    let l = choose|l: int| 0 <= l < prev.len() && prev[l].coin == c;
                                    assert(totals@[l].coin == c);
                                    assert(has_coin(totals@, c));
                                }
                                if c == entry.coin {
                                    assert(rec.balances@.take(j + 1)[j as int].coin == c);
                                    assert(has_coin(rec.balances@.take(j + 1), c));
                                } else {
                                    if has_coin(rec.balances@.take(j + 1), c) {
                                        let l = choose|l: int|
                                            0 <= l < j + 1 && (#[trigger] rec.balances@.take(j + 1)[l]).coin
                                                == c;
                                        assert(rec.balances@.take(j as int)[l].coin == c);
                                    }
                                    if has_coin(rec.balances@.take(j as int), c) {
                                        let l = choose|l: int|
                                            0 <= l < j && (#[trigger] rec.balances@.take(j as int)[l]).coin
                                                == c;
                                        assert(rec.balances@.take(j + 1)[l].coin == c);
                                    }
                                }
                            }
                        }
                    },
                    Option::None => {
                        proof {
                            lemma_amount_in_absent(totals@, entry.coin);
                        }
                        let ghost prev = totals@;
                        totals.push(entry);
                        proof {
                            assert forall|c: u64| #![trigger amount_in(totals@, c)]
                                amount_in(totals@, c) == supply_sum(store@.take(i as int), c)
                                    + amount_in(rec.balances@.take(j + 1), c) by {
                                lemma_amount_in_push(prev, entry, c);
                                lemma_amount_in_take_succ(rec.balances@, c, j as int);
                            }
                            assert forall|c: u64| #![trigger has_coin(totals@, c)]
                                has_coin(totals@, c) <==> (coin_present(store@.take(i as int), c)
                                    || has_coin(rec.balances@.take(j + 1), c)) by {
                                lemma_amount_in_take_succ(rec.balances@, c, j as int);
                                if has_coin(totals@, c) {
                                    let l = choose|l: int|
                                        0 <= l < totals@.len() && totals@[l].coin == c;
                                    if l < prev.len() {
                                        assert(has_coin(prev, c));
                                    } else {
                                        assert(c == entry.coin);
                                        assert(rec.balances@.take(j + 1)[j as int].coin == c);
                                    }
                                }
                                if has_coin(prev, c) {
                                    let l = choose|l: int| 0 <= l < prev.len() && prev[l].coin == c;
                                    assert(totals@[l].coin == c);
                                }
                                if c == entry.coin {
                                    assert(totals@[totals@.len() - 1].coin == c);
                                    assert(rec.balances@.take(j + 1)[j as int].coin == c);
                                } else {
                                    if has_coin(rec.balances@.take(j + 1), c) {
                                        let l = choose|l: int|
                                            0 <= l < j + 1 && (#[trigger] rec.balances@.take(j + 1)[l]).coin
                                                == c;
                                        assert(rec.balances@.take(j as int)[l].coin == c);
                                    }
                                    if has_coin(rec.balances@.take(j as int), c) {
                                        let l = choose|l: int|
                                            0 <= l < j && (#[trigger] rec.balances@.take(j as int)[l]).coin
                                                == c;
                                        assert(rec.balances@.take(j + 1)[l].coin == c);
                                    }
                                }
                            }
                            assert(coins_unique(totals@));
                        }
                    },
                }
                j = j + 1;
            }
            proof {
                assert(rec.balances@.take(m as int) =~= rec.balances@);
                assert forall|c: u64| #![trigger amount_in(totals@, c)]
                    amount_in(totals@, c) == supply_sum(store@.take(i + 1), c) by {
                    lemma_supply_sum_take_succ(store@, c, i as int);
                }
                assert forall|c: u64| #![trigger has_coin(totals@, c)]
                    has_coin(totals@, c) <==> coin_present(store@.take(i + 1), c) by {
                    if coin_present(store@.take(i + 1), c) {
                        let l = choose|l: int|
                            0 <= l < i + 1 && !((#[trigger] store@.take(i + 1)[l]).role is Drop)
                                && has_coin(store@.take(i + 1)[l].balances@, c);
                        if l < i {
                            assert(coin_present(store@.take(i as int), c)) by {
                                assert(store@.take(i as int)[l] == store@.take(i + 1)[l]);
                            }
                        } else {
                            assert(store@.take(i + 1)[l] == store@[i as int]);
                        }
                    }
                    if coin_present(store@.take(i as int), c) {
                        let l = choose|l: int|
                            0 <= l < i && !((#[trigger] store@.take(i as int)[l]).role is Drop)
                                && has_coin(store@.take(i as int)[l].balances@, c);
                        assert(store@.take(i + 1)[l] == store@.take(i as int)[l]);
                    }
                    if has_coin(store@[i as int].balances@, c) {
                        assert(store@.take(i + 1)[i as int] == store@[i as int]);
                    }
                }
                lemma_contributing_take_succ(store@, i as int);
            }
        } else {
            proof {
                assert forall|c: u64| #![trigger amount_in(totals@, c)]
                    amount_in(totals@, c) == supply_sum(store@.take(i + 1), c) by {
                    lemma_supply_sum_take_succ(store@, c, i as int);
                }
                assert forall|c: u64| #![trigger has_coin(totals@, c)]
                    has_coin(totals@, c) <==> coin_present(store@.take(i + 1), c) by {
                    if coin_present(store@.take(i + 1), c) {
                        let l = choose|l: int|
                            0 <= l < i + 1 && !((#[trigger] store@.take(i + 1)[l]).role is Drop)
                                && has_coin(store@.take(i + 1)[l].balances@, c);
                        assert(l != i);
                        assert(store@.take(i as int)[l] == store@.take(i + 1)[l]);
                    }
                    if coin_present(store@.take(i as int), c) {
                        let l = choose|l: int|
                            0 <= l < i && !((#[trigger] store@.take(i as int)[l]).role is Drop)
                                && has_coin(store@.take(i as int)[l].balances@, c);
                        assert(store@.take(i + 1)[l] == store@.take(i as int)[l]);
                    }
                }
                lemma_contributing_take_succ(store@, i as int);
            }
        }
        i = i + 1;
    }
    proof {
        assert(store@.take(n as int) =~= store@);
        assert forall|coin: u64| supply_sum(store@, coin) <= u128::MAX by {
            if has_coin(totals@, coin) {
                let k = choose|k: int| 0 <= k < totals@.len() && totals@[k].coin == coin;
                lemma_amount_in_unique_at(totals@, k);
            } else {
                lemma_amount_in_absent(totals@, coin);
            }
        }
    }
    Ok(SupplyStats { totals, contributing_accounts: contributing })
}

} // verus!
