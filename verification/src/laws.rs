//! The engine's cross-stage laws, proved once and for all: what a reader
//! bootstrapped from a constructed genesis reports for every record, that a
//! faithful migration audits clean, that a single perturbed balance is
//! reported exactly once, and that dropping twice changes nothing further.

use vstd::prelude::*;
use crate::audit::{
    AccountState, AuditDiscrepancy, AuditSubject, DiscrepancyKind, accounts_of_writes,
    audit_report, balance_checks, balance_entry, drop_checks, lemma_onchain_take_succ,
    onchain_sum, reader_balance, reader_has_account, record_checks, records_checks,
    supply_checks,
};
use crate::genesis::{AccountWrite, emitted, write_of_record, writes_match};
use crate::records::{
    CoinAmount, LegacyAccountRecord, amount_in, coins_unique, has_coin, record_wf, store_wf,
};
use crate::supply::{
    lemma_amount_in_absent, lemma_amount_in_unique_at, lemma_supply_sum_take_succ, supply_sum,
};
use crate::transform::drop_applied;

verus! {

/// No write carries address `a` when every record carrying `a` is dropped.
pub proof fn lemma_writes_no_address(
    s: Seq<LegacyAccountRecord>,
    ws: Seq<AccountWrite>,
    a: u128,
)
    requires
        writes_match(s, ws),
        forall|i: int|
            0 <= i < s.len() && (#[trigger] s[i]).address == Some(a) ==> s[i].role is Drop,
    ensures
        forall|k: int| 0 <= k < ws.len() ==> (#[trigger] ws[k]).address != a,
    decreases s.len(),
{
    if s.len() > 0 {
        let prefix = s.drop_last();
        assert(forall|i: int| 0 <= i < prefix.len() ==> #[trigger] prefix[i] == s[i]);
        if emitted(s.last()) {
            lemma_writes_no_address(prefix, ws.drop_last(), a);
            assert(s[s.len() - 1] == s.last());
            assert(ws.last().address != a);
            assert forall|k: int| 0 <= k < ws.len() implies (#[trigger] ws[k]).address != a by {
                if k < ws.len() - 1 {
                    assert(ws.drop_last()[k] == ws[k]);
                }
            }
        } else {
            lemma_writes_no_address(prefix, ws, a);
        }
    }
}

/// The writes of a store with unique addresses carry unique addresses.
pub proof fn lemma_writes_addr_unique(s: Seq<LegacyAccountRecord>, ws: Seq<AccountWrite>)
    requires
        writes_match(s, ws),
        crate::records::addresses_unique(s),
    ensures
        forall|k1: int, k2: int|
            0 <= k1 < k2 < ws.len() ==> ws[k1].address != ws[k2].address,
    decreases s.len(),
{
    if s.len() > 0 {
        let prefix = s.drop_last();
        assert(forall|i: int| 0 <= i < prefix.len() ==> #[trigger] prefix[i] == s[i]);
        if emitted(s.last()) {
            let a_last = s.last().address->0;
            lemma_writes_addr_unique(prefix, ws.drop_last());
            assert forall|i: int|
                0 <= i < prefix.len() && (#[trigger] prefix[i]).address == Some(a_last)
                implies prefix[i].role is Drop by {
                assert(s[i].address is Some && s[s.len() - 1].address is Some);
                assert(s[i].address->0 != s[s.len() - 1].address->0);
            }
            lemma_writes_no_address(prefix, ws.drop_last(), a_last);
            assert forall|k1: int, k2: int|
                0 <= k1 < k2 < ws.len() implies ws[k1].address != ws[k2].address by {
                if k2 < ws.len() - 1 {
                    assert(ws.drop_last()[k1] == ws[k1]);
                    assert(ws.drop_last()[k2] == ws[k2]);
                } else {
                    assert(ws.drop_last()[k1] == ws[k1]);
                    assert(ws[k2] == ws.last());
                }
            }
        } else {
            lemma_writes_addr_unique(prefix, ws);
        }
    }
}

/// Every emitted record has its write somewhere in the write-set.
pub proof fn lemma_writes_exists(s: Seq<LegacyAccountRecord>, ws: Seq<AccountWrite>, i0: int)
    requires
        writes_match(s, ws),
        0 <= i0 < s.len(),
        emitted(s[i0]),
    ensures
        exists|k: int| 0 <= k < ws.len() && write_of_record(s[i0], #[trigger] ws[k]),
    decreases s.len(),
{
    let prefix = s.drop_last();
    assert(forall|i: int| 0 <= i < prefix.len() ==> #[trigger] prefix[i] == s[i]);
    if i0 == s.len() - 1 {
        assert(write_of_record(s[i0], ws[ws.len() - 1]));
    } else {
        if emitted(s.last()) {
            lemma_writes_exists(prefix, ws.drop_last(), i0);
            let k = choose|k: int|
                0 <= k < ws.drop_last().len() && write_of_record(prefix[i0], #[trigger] ws.drop_last()[k]);
            assert(ws.drop_last()[k] == ws[k]);
            assert(write_of_record(s[i0], ws[k]));
        } else {
            lemma_writes_exists(prefix, ws, i0);
        }
    }
}

/// The reader answers from the first account carrying `a`.
pub proof fn lemma_reader_balance_at(
    accounts: Seq<AccountState>,
    a: u128,
    coin: u64,
    k: int,
)
    requires
        0 <= k < accounts.len(),
        accounts[k].address == a,
        forall|l: int| 0 <= l < k ==> (#[trigger] accounts[l]).address != a,
    ensures
        reader_balance(accounts, a, coin) == balance_entry(accounts[k].balances@, coin),
    decreases k,
{
    if k > 0 {
        let rest = accounts.skip(1);
        assert(forall|l: int| 0 <= l < rest.len() ==> #[trigger] rest[l] == accounts[l + 1]);
        lemma_reader_balance_at(rest, a, coin, k - 1);
    }
}

/// A reader holding no account for `a` reports no balance for it.
pub proof fn lemma_reader_balance_absent(accounts: Seq<AccountState>, a: u128, coin: u64)
    requires
        forall|l: int| 0 <= l < accounts.len() ==> (#[trigger] accounts[l]).address != a,
    ensures
        reader_balance(accounts, a, coin) is None,
        !reader_has_account(accounts, a),
    decreases accounts.len(),
{
    if accounts.len() > 0 {
        let rest = accounts.skip(1);
        assert(forall|l: int| 0 <= l < rest.len() ==> #[trigger] rest[l] == accounts[l + 1]);
        lemma_reader_balance_absent(rest, a, coin);
    }
}

/// With pairwise-distinct coin kinds, the reported balance of an entry's
/// coin is that entry's amount.
pub proof fn lemma_balance_entry_at(bals: Seq<CoinAmount>, j: int)
    requires
        coins_unique(bals),
        0 <= j < bals.len(),
    ensures
        balance_entry(bals, bals[j].coin) == Some(bals[j].amount),
    decreases j,
{
    if j > 0 {
        let rest = bals.skip(1);
        assert(forall|l: int| 0 <= l < rest.len() ==> #[trigger] rest[l] == bals[l + 1]);
        assert(bals[0].coin != bals[j].coin);
        lemma_balance_entry_at(rest, j - 1);
    }
}

/// An absent coin kind is reported as `None`.
pub proof fn lemma_balance_entry_absent(bals: Seq<CoinAmount>, coin: u64)
    requires
        !has_coin(bals, coin),
    ensures
        balance_entry(bals, coin) is None,
    decreases bals.len(),
{
    if bals.len() > 0 {
        let rest = bals.skip(1);
        assert(forall|l: int| 0 <= l < rest.len() ==> #[trigger] rest[l] == bals[l + 1]);
        assert(bals[0].coin != coin);
        assert(!has_coin(rest, coin)) by {
            if has_coin(rest, coin) {
                let l = choose|l: int| 0 <= l < rest.len() && rest[l].coin == coin;
                assert(bals[l + 1].coin == coin);
            }
        }
        lemma_balance_entry_absent(rest, coin);
    }
}

/// What a reader bootstrapped from the genesis of a well-formed store
/// reports for an emitted record: the account is present and every coin
/// reads back exactly the record's balance entry.
pub proof fn lemma_reader_of_genesis(
    s: Seq<LegacyAccountRecord>,
    ws: Seq<AccountWrite>,
    accounts: Seq<AccountState>,
    i0: int,
    coin: u64,
)
    requires
        store_wf(s),
        writes_match(s, ws),
        accounts_of_writes(ws, accounts),
        0 <= i0 < s.len(),
        emitted(s[i0]),
    ensures
        reader_has_account(accounts, s[i0].address->0),
        reader_balance(accounts, s[i0].address->0, coin) == balance_entry(
            s[i0].balances@,
            coin,
        ),
{
    let a = s[i0].address->0;
    lemma_writes_exists(s, ws, i0);
    lemma_writes_addr_unique(s, ws);
    let k = choose|k: int| 0 <= k < ws.len() && write_of_record(s[i0], #[trigger] ws[k]);
    assert(accounts[k].address == a);
    assert(reader_has_account(accounts, a));
    assert forall|l: int| 0 <= l < k implies (#[trigger] accounts[l]).address != a by {
        assert(ws[l].address != ws[k].address);
    }
    lemma_reader_balance_at(accounts, a, coin, k);
    assert(accounts[k].balances@ == ws[k].balances@);
}

/// What that reader reports for an address every record of which is
/// dropped: no account and no balance, for every coin kind.
pub proof fn lemma_reader_absent_of_genesis(
    s: Seq<LegacyAccountRecord>,
    ws: Seq<AccountWrite>,
    accounts: Seq<AccountState>,
    a: u128,
    coin: u64,
)
    requires
        writes_match(s, ws),
        accounts_of_writes(ws, accounts),
        forall|i: int|
            0 <= i < s.len() && (#[trigger] s[i]).address == Some(a) ==> s[i].role is Drop,
    ensures
        reader_balance(accounts, a, coin) is None,
        !reader_has_account(accounts, a),
{
    lemma_writes_no_address(s, ws, a);
    assert forall|l: int| 0 <= l < accounts.len() implies (#[trigger] accounts[l]).address != a by {
        assert(ws[l].address != a);
    }
    lemma_reader_balance_absent(accounts, a, coin);
}

/// Drop exclusion: after a drop directive is applied, every record
/// carrying one of its addresses is dropped, and a reader bootstrapped
/// from the constructed genesis reports no account and no balance for
/// that address, for every coin kind.
pub proof fn lemma_drop_exclusion(
    s0: Seq<LegacyAccountRecord>,
    s: Seq<LegacyAccountRecord>,
    addrs: Seq<u128>,
    ws: Seq<AccountWrite>,
    accounts: Seq<AccountState>,
    a: u128,
    coin: u64,
)
    requires
        drop_applied(s0, s, addrs),
        addrs.contains(a),
        writes_match(s, ws),
        accounts_of_writes(ws, accounts),
    ensures
        forall|i: int|
            0 <= i < s.len() && (#[trigger] s[i]).address == Some(a) ==> s[i].role is Drop,
        reader_balance(accounts, a, coin) is None,
        !reader_has_account(accounts, a),
{
    assert forall|i: int|
        0 <= i < s.len() && (#[trigger] s[i]).address == Some(a) implies s[i].role is Drop by {
        assert(s0[i].address == Some(a));
    }
    lemma_reader_absent_of_genesis(s, ws, accounts, a, coin);
}

/// The per-coin checks of a record whose every coin reads back exactly are
/// empty.
pub proof fn lemma_balance_checks_empty(
    a: u128,
    full: Seq<CoinAmount>,
    accounts: Seq<AccountState>,
    j: int,
)
    requires
        coins_unique(full),
        0 <= j <= full.len(),
        forall|c: u64|
            #![trigger reader_balance(accounts, a, c)]
            reader_balance(accounts, a, c) == balance_entry(full, c),
    ensures
        balance_checks(a, full.take(j), accounts) == Seq::<AuditDiscrepancy>::empty(),
    decreases j,
{
    if j == 0 {
        assert(full.take(0) =~= Seq::<CoinAmount>::empty());
    } else {
        lemma_balance_checks_empty(a, full, accounts, j - 1);
        assert(full.take(j).drop_last() =~= full.take(j - 1));
        assert(full.take(j).last() == full[j - 1]);
        lemma_balance_entry_at(full, j - 1);
        assert(balance_checks(a, full.take(j), accounts) =~= Seq::<AuditDiscrepancy>::empty());
    }
}

/// The per-coin checks of a dropped record the reader holds nothing for
/// are empty.
pub proof fn lemma_drop_checks_empty(
    a: u128,
    full: Seq<CoinAmount>,
    accounts: Seq<AccountState>,
    j: int,
)
    requires
        0 <= j <= full.len(),
        forall|c: u64|
            #![trigger reader_balance(accounts, a, c)]
            reader_balance(accounts, a, c) is None,
    ensures
        drop_checks(a, full.take(j), accounts) == Seq::<AuditDiscrepancy>::empty(),
    decreases j,
{
    if j == 0 {
        assert(full.take(0) =~= Seq::<CoinAmount>::empty());
    } else {
        lemma_drop_checks_empty(a, full, accounts, j - 1);
        assert(full.take(j).drop_last() =~= full.take(j - 1));
        assert(full.take(j).last() == full[j - 1]);
        assert(drop_checks(a, full.take(j), accounts) =~= Seq::<AuditDiscrepancy>::empty());
    }
}

/// Per-record checks concatenate to nothing when each record's checks are
/// empty.
pub proof fn lemma_records_checks_empty(
    s: Seq<LegacyAccountRecord>,
    accounts: Seq<AccountState>,
    i: int,
)
    requires
        0 <= i <= s.len(),
        forall|l: int|
            0 <= l < s.len() ==> record_checks(#[trigger] s[l], accounts) == Seq::<
                AuditDiscrepancy,
            >::empty(),
    ensures
        records_checks(s.take(i), accounts) == Seq::<AuditDiscrepancy>::empty(),
    decreases i,
{
    if i == 0 {
        assert(s.take(0) =~= Seq::<LegacyAccountRecord>::empty());
    } else {
        lemma_records_checks_empty(s, accounts, i - 1);
        assert(s.take(i).drop_last() =~= s.take(i - 1));
        assert(s.take(i).last() == s[i - 1]);
        assert(records_checks(s.take(i), accounts) =~= Seq::<AuditDiscrepancy>::empty());
    }
}

/// Over a reader bootstrapped from the genesis of a well-formed store, the
/// re-summed on-chain supply equals the store's supply, coin by coin.
pub proof fn lemma_onchain_matches(
    s: Seq<LegacyAccountRecord>,
    ws: Seq<AccountWrite>,
    accounts: Seq<AccountState>,
    coin: u64,
    i: int,
)
    requires
        store_wf(s),
        writes_match(s, ws),
        accounts_of_writes(ws, accounts),
        0 <= i <= s.len(),
    ensures
        onchain_sum(s.take(i), accounts, coin) == supply_sum(s.take(i), coin),
    decreases i,
{
    if i == 0 {
        assert(s.take(0) =~= Seq::<LegacyAccountRecord>::empty());
    } else {
        lemma_onchain_matches(s, ws, accounts, coin, i - 1);
        lemma_onchain_take_succ(s, accounts, coin, i - 1);
        lemma_supply_sum_take_succ(s, coin, i - 1);
        let r = s[i - 1];
        assert(record_wf(r));
        if r.address is Some && !(r.role is Drop) {
            lemma_reader_of_genesis(s, ws, accounts, i - 1, coin);
            if has_coin(r.balances@, coin) {
                let j = choose|j: int| 0 <= j < r.balances@.len() && r.balances@[j].coin == coin;
                lemma_balance_entry_at(r.balances@, j);
                lemma_amount_in_unique_at(r.balances@, j);
            } else {
                lemma_balance_entry_absent(r.balances@, coin);
                lemma_amount_in_absent(r.balances@, coin);
            }
        } else if r.address is None && !(r.role is Drop) {
            assert(r.balances@.len() == 0);
        }
    }
}

/// The supply re-checks are empty when every oracle total matches the
/// re-summed on-chain supply.
pub proof fn lemma_supply_checks_empty(
    totals: Seq<CoinAmount>,
    s: Seq<LegacyAccountRecord>,
    accounts: Seq<AccountState>,
    k: int,
)
    requires
        coins_unique(totals),
        0 <= k <= totals.len(),
        forall|c: u64|
            #![trigger amount_in(totals, c)]
            amount_in(totals, c) == supply_sum(s, c),
        forall|c: u64|
            #![trigger onchain_sum(s, accounts, c)]
            onchain_sum(s, accounts, c) == supply_sum(s, c),
    ensures
        supply_checks(totals.take(k), s, accounts) == Seq::<AuditDiscrepancy>::empty(),
    decreases k,
{
    if k == 0 {
        assert(totals.take(0) =~= Seq::<CoinAmount>::empty());
    } else {
        lemma_supply_checks_empty(totals, s, accounts, k - 1);
        assert(totals.take(k).drop_last() =~= totals.take(k - 1));
        assert(totals.take(k).last() == totals[k - 1]);
        lemma_amount_in_unique_at(totals, k - 1);
        assert(supply_checks(totals.take(k), s, accounts) =~= Seq::<AuditDiscrepancy>::empty());
    }
}

/// Audit soundness: a reader bootstrapped from a genesis transaction
/// constructed from store `s`, audited against `s` and supply statistics
/// computed from `s`, yields an empty discrepancy report.
pub proof fn lemma_audit_soundness(
    s: Seq<LegacyAccountRecord>,
    ws: Seq<AccountWrite>,
    accounts: Seq<AccountState>,
    totals: Seq<CoinAmount>,
)
    requires
        store_wf(s),
        writes_match(s, ws),
        accounts_of_writes(ws, accounts),
        coins_unique(totals),
        forall|c: u64|
            #![trigger amount_in(totals, c)]
            amount_in(totals, c) == supply_sum(s, c),
    ensures
        audit_report(s, totals, accounts) == Seq::<AuditDiscrepancy>::empty(),
{
    assert forall|l: int|
        0 <= l < s.len() implies record_checks(#[trigger] s[l], accounts) == Seq::<
        AuditDiscrepancy,
    >::empty() by {
        let r = s[l];
        assert(record_wf(r));
        match r.address {
            Some(a) => {
                if r.role is Drop {
                    assert forall|i: int|
                        0 <= i < s.len() && (#[trigger] s[i]).address == Some(a)
                        implies s[i].role is Drop by {
                        if i != l {
                            assert(false);
                        }
                    }
                    assert forall|c: u64|
                        #![trigger reader_balance(accounts, a, c)]
                        reader_balance(accounts, a, c) is None by {
                        lemma_reader_absent_of_genesis(s, ws, accounts, a, c);
                    }
                    lemma_drop_checks_empty(a, r.balances@, accounts, r.balances@.len() as int);
                    assert(r.balances@.take(r.balances@.len() as int) =~= r.balances@);
                } else {
                    assert forall|c: u64|
                        #![trigger reader_balance(accounts, a, c)]
                        reader_balance(accounts, a, c) == balance_entry(r.balances@, c) by {
                        lemma_reader_of_genesis(s, ws, accounts, l, c);
                    }
                    lemma_reader_of_genesis(s, ws, accounts, l, 0);
                    lemma_balance_checks_empty(a, r.balances@, accounts, r.balances@.len() as int);
                    assert(r.balances@.take(r.balances@.len() as int) =~= r.balances@);
                }
            },
            None => {},
        }
    }
    lemma_records_checks_empty(s, accounts, s.len() as int);
    assert(s.take(s.len() as int) =~= s);
    assert forall|c: u64|
        #![trigger onchain_sum(s, accounts, c)]
        onchain_sum(s, accounts, c) == supply_sum(s, c) by {
        lemma_onchain_matches(s, ws, accounts, c, s.len() as int);
    }
    lemma_supply_checks_empty(totals, s, accounts, totals.len() as int);
    assert(totals.take(totals.len() as int) =~= totals);
    assert(audit_report(s, totals, accounts) =~= Seq::<AuditDiscrepancy>::empty());
}

/// The per-coin checks of the one perturbed record: empty up to the
/// perturbed coin's entry, exactly one balance-mismatch from it on.
pub proof fn lemma_balance_checks_single(
    a: u128,
    full: Seq<CoinAmount>,
    accounts: Seq<AccountState>,
    j0: int,
    j: int,
)
    requires
        coins_unique(full),
        0 <= j0 < full.len(),
        0 <= j <= full.len(),
        forall|c: u64|
            #![trigger reader_balance(accounts, a, c)]
            c != full[j0].coin ==> reader_balance(accounts, a, c) == balance_entry(full, c),
        reader_balance(accounts, a, full[j0].coin) != Some(full[j0].amount),
    ensures
        balance_checks(a, full.take(j), accounts) == if j <= j0 {
            Seq::<AuditDiscrepancy>::empty()
        } else {
            seq![
                (AuditDiscrepancy {
                    subject: AuditSubject::Account { address: a },
                    coin: Some(full[j0].coin),
                    expected: Some(full[j0].amount),
                    actual: reader_balance(accounts, a, full[j0].coin),
                    kind: DiscrepancyKind::BalanceMismatch,
                }),
            ]
        },
    decreases j,
{
    if j == 0 {
        assert(full.take(0) =~= Seq::<CoinAmount>::empty());
    } else {
        lemma_balance_checks_single(a, full, accounts, j0, j - 1);
        assert(full.take(j).drop_last() =~= full.take(j - 1));
        assert(full.take(j).last() == full[j - 1]);
        if j - 1 == j0 {
            assert(balance_checks(a, full.take(j), accounts) =~= seq![
                (AuditDiscrepancy {
                    subject: AuditSubject::Account { address: a },
                    coin: Some(full[j0].coin),
                    expected: Some(full[j0].amount),
                    actual: reader_balance(accounts, a, full[j0].coin),
                    kind: DiscrepancyKind::BalanceMismatch,
                }),
            ]);
        } else {
            assert(full[j - 1].coin != full[j0].coin);
            lemma_balance_entry_at(full, j - 1);
            if j - 1 < j0 {
                assert(balance_checks(a, full.take(j), accounts) =~= Seq::<
                    AuditDiscrepancy,
                >::empty());
            } else {
                assert(balance_checks(a, full.take(j), accounts) =~= seq![
                    (AuditDiscrepancy {
                        subject: AuditSubject::Account { address: a },
                        coin: Some(full[j0].coin),
                        expected: Some(full[j0].amount),
                        actual: reader_balance(accounts, a, full[j0].coin),
                        kind: DiscrepancyKind::BalanceMismatch,
                    }),
                ]);
            }
        }
    }
}

/// Per-record checks concatenate to one record's singleton when every
/// other record's checks are empty.
pub proof fn lemma_records_checks_single(
    s: Seq<LegacyAccountRecord>,
    accounts: Seq<AccountState>,
    i0: int,
    i: int,
    d: AuditDiscrepancy,
)
    requires
        0 <= i0 < s.len(),
        0 <= i <= s.len(),
        record_checks(s[i0], accounts) == seq![d],
        forall|l: int|
            0 <= l < s.len() && l != i0 ==> record_checks(#[trigger] s[l], accounts) == Seq::<
                AuditDiscrepancy,
            >::empty(),
    ensures
        records_checks(s.take(i), accounts) == if i <= i0 {
            Seq::<AuditDiscrepancy>::empty()
        } else {
            seq![d]
        },
    decreases i,
{
    if i == 0 {
        assert(s.take(0) =~= Seq::<LegacyAccountRecord>::empty());
    } else {
        lemma_records_checks_single(s, accounts, i0, i - 1, d);
        assert(s.take(i).drop_last() =~= s.take(i - 1));
        assert(s.take(i).last() == s[i - 1]);
        if i - 1 == i0 {
            assert(records_checks(s.take(i), accounts) =~= seq![d]);
        } else if i - 1 < i0 {
            assert(records_checks(s.take(i), accounts) =~= Seq::<AuditDiscrepancy>::empty());
        } else {
            assert(records_checks(s.take(i), accounts) =~= seq![d]);
        }
    }
}

/// Every supply re-check entry carries the supply-mismatch kind, so the
/// per-record checks alone decide how many balance mismatches a report
/// holds.
pub proof fn lemma_supply_checks_kinds(
    totals: Seq<CoinAmount>,
    s: Seq<LegacyAccountRecord>,
    accounts: Seq<AccountState>,
)
    ensures
        forall|l: int|
            0 <= l < supply_checks(totals, s, accounts).len() ==> (#[trigger] supply_checks(
                totals,
                s,
                accounts,
            )[l]).kind is SupplyMismatch,
    decreases totals.len(),
{
    if totals.len() > 0 {
        lemma_supply_checks_kinds(totals.drop_last(), s, accounts);
    }
}

/// Audit completeness: when exactly one balance of one non-Drop record
/// differs in the bootstrapped state — every other account and coin reads
/// back exactly, and dropped addresses stay absent — the per-record checks
/// are exactly one balance-mismatch discrepancy naming that account and
/// coin. The global supply re-check can only add supply-mismatch entries.
pub proof fn lemma_audit_completeness(
    s: Seq<LegacyAccountRecord>,
    accounts: Seq<AccountState>,
    i0: int,
    c0: u64,
    e0: u128,
    x0: Option<u128>,
)
    requires
        store_wf(s),
        0 <= i0 < s.len(),
        emitted(s[i0]),
        balance_entry(s[i0].balances@, c0) == Some(e0),
        forall|i: int|
            0 <= i < s.len() && emitted(#[trigger] s[i]) ==> reader_has_account(
                accounts,
                s[i].address->0,
            ),
        forall|i: int, c: u64|
            #![trigger reader_balance(accounts, s[i].address->0, c)]
            0 <= i < s.len() && emitted(s[i]) && !(i == i0 && c == c0) ==> reader_balance(
                accounts,
                s[i].address->0,
                c,
            ) == balance_entry(s[i].balances@, c),
        forall|i: int, c: u64|
            #![trigger reader_balance(accounts, s[i].address->0, c)]
            0 <= i < s.len() && s[i].role is Drop && s[i].address is Some ==> reader_balance(
                accounts,
                s[i].address->0,
                c,
            ) is None,
        reader_balance(accounts, s[i0].address->0, c0) == x0,
        x0 != Some(e0),
    ensures
        records_checks(s, accounts) == seq![
            (AuditDiscrepancy {
                subject: AuditSubject::Account { address: s[i0].address->0 },
                coin: Some(c0),
                expected: Some(e0),
                actual: x0,
                kind: DiscrepancyKind::BalanceMismatch,
            }),
        ],
{
    let a0 = s[i0].address->0;
    let bals0 = s[i0].balances@;
    assert(record_wf(s[i0]));
    let j0 = choose|j: int| 0 <= j < bals0.len() && bals0[j].coin == c0;
    assert(has_coin(bals0, c0)) by {
        if !has_coin(bals0, c0) {
            lemma_balance_entry_absent(bals0, c0);
        }
    }
    assert(0 <= j0 < bals0.len() && bals0[j0].coin == c0);
    lemma_balance_entry_at(bals0, j0);
    assert(bals0[j0].amount == e0);
    let d = AuditDiscrepancy {
        subject: AuditSubject::Account { address: a0 },
        coin: Some(c0),
        expected: Some(e0),
        actual: x0,
        kind: DiscrepancyKind::BalanceMismatch,
    };
    assert forall|c: u64|
        #![trigger reader_balance(accounts, a0, c)]
        c != c0 implies reader_balance(accounts, a0, c) == balance_entry(bals0, c) by {
        assert(reader_balance(accounts, s[i0].address->0, c) == balance_entry(
            s[i0].balances@,
            c,
        ));
    }
    lemma_balance_checks_single(a0, bals0, accounts, j0, bals0.len() as int);
    assert(bals0.take(bals0.len() as int) =~= bals0);
    assert(record_checks(s[i0], accounts) == seq![d]);
    assert forall|l: int|
        0 <= l < s.len() && l != i0 implies record_checks(#[trigger] s[l], accounts) == Seq::<
        AuditDiscrepancy,
    >::empty() by {
        let r = s[l];
        assert(record_wf(r));
        match r.address {
            Some(a) => {
                assert(a != a0);
                if r.role is Drop {
                    assert forall|c: u64|
                        #![trigger reader_balance(accounts, a, c)]
                        reader_balance(accounts, a, c) is None by {
                        assert(reader_balance(accounts, s[l].address->0, c) is None);
                    }
                    lemma_drop_checks_empty(a, r.balances@, accounts, r.balances@.len() as int);
                    assert(r.balances@.take(r.balances@.len() as int) =~= r.balances@);
                } else {
                    assert(emitted(s[l]));
                    assert(reader_has_account(accounts, a));
                    assert forall|c: u64|
                        #![trigger reader_balance(accounts, a, c)]
                        reader_balance(accounts, a, c) == balance_entry(r.balances@, c) by {
                        assert(!(l == i0 && c == c0));
                        assert(reader_balance(accounts, s[l].address->0, c) == balance_entry(
                            s[l].balances@,
                            c,
                        ));
                    }
                    lemma_balance_checks_empty(a, r.balances@, accounts, r.balances@.len() as int);
                    assert(r.balances@.take(r.balances@.len() as int) =~= r.balances@);
                }
            },
            None => {},
        }
    }
    lemma_records_checks_single(s, accounts, i0, s.len() as int, d);
    assert(s.take(s.len() as int) =~= s);
}

/// Audit completeness over the whole report: under the same single
/// perturbation, the full report holds that balance-mismatch entry, and
/// every balance-mismatch entry it holds is that one — the perturbed
/// account is named exactly once at the balance level.
pub proof fn lemma_audit_completeness_report(
    s: Seq<LegacyAccountRecord>,
    accounts: Seq<AccountState>,
    totals: Seq<CoinAmount>,
    i0: int,
    c0: u64,
    e0: u128,
    x0: Option<u128>,
)
    requires
        store_wf(s),
        0 <= i0 < s.len(),
        emitted(s[i0]),
        balance_entry(s[i0].balances@, c0) == Some(e0),
        forall|i: int|
            0 <= i < s.len() && emitted(#[trigger] s[i]) ==> reader_has_account(
                accounts,
                s[i].address->0,
            ),
        forall|i: int, c: u64|
            #![trigger reader_balance(accounts, s[i].address->0, c)]
            0 <= i < s.len() && emitted(s[i]) && !(i == i0 && c == c0) ==> reader_balance(
                accounts,
                s[i].address->0,
                c,
            ) == balance_entry(s[i].balances@, c),
        forall|i: int, c: u64|
            #![trigger reader_balance(accounts, s[i].address->0, c)]
            0 <= i < s.len() && s[i].role is Drop && s[i].address is Some ==> reader_balance(
                accounts,
                s[i].address->0,
                c,
            ) is None,
        reader_balance(accounts, s[i0].address->0, c0) == x0,
        x0 != Some(e0),
    ensures
        ({
            let report = audit_report(s, totals, accounts);
            let d = AuditDiscrepancy {
                subject: AuditSubject::Account { address: s[i0].address->0 },
                coin: Some(c0),
                expected: Some(e0),
                actual: x0,
                kind: DiscrepancyKind::BalanceMismatch,
            };
            &&& report.len() >= 1
            &&& report[0] == d
            &&& forall|l: int|
                0 <= l < report.len() && (#[trigger] report[l]).kind is BalanceMismatch ==> report[l]
                    == d
        }),
{
    lemma_audit_completeness(s, accounts, i0, c0, e0, x0);
    lemma_supply_checks_kinds(totals, s, accounts);
    let d = AuditDiscrepancy {
        subject: AuditSubject::Account { address: s[i0].address->0 },
        coin: Some(c0),
        expected: Some(e0),
        actual: x0,
        kind: DiscrepancyKind::BalanceMismatch,
    };
    let report = audit_report(s, totals, accounts);
    assert(report[0] == d);
    assert forall|l: int|
        0 <= l < report.len() && (#[trigger] report[l]).kind is BalanceMismatch
        implies report[l] == d by {
        if l > 0 {
            assert(report[l] == supply_checks(totals, s, accounts)[l - 1]);
        }
    }
}

/// Applying the same drop directive twice has no further effect: the
/// second application leaves every record exactly as the first left it.
pub proof fn lemma_apply_drop_idempotent(
    s0: Seq<LegacyAccountRecord>,
    s1: Seq<LegacyAccountRecord>,
    s2: Seq<LegacyAccountRecord>,
    addrs: Seq<u128>,
)
    requires
        drop_applied(s0, s1, addrs),
        drop_applied(s1, s2, addrs),
    ensures
        s2.len() == s1.len(),
        forall|i: int| 0 <= i < s1.len() ==> {
            &&& (#[trigger] s2[i]).address == s1[i].address
            &&& s2[i].role == s1[i].role
            &&& s2[i].balances@ == s1[i].balances@
            &&& s2[i].metadata@ == s1[i].metadata@
        },
{
}

} // verus!
