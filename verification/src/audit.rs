//! The bootstrapped state reader and the auditor. The reader realizes the
//! bootstrapper interface in memory: applying the genesis transaction to an
//! empty state yields exactly one account per write. The auditor re-derives
//! every expected balance from the record store and the supply statistics,
//! queries the reader for the actual values, and reports every mismatch as
//! a structured discrepancy; an empty report is a successful audit.

use vstd::prelude::*;
use crate::genesis::{AccountWrite, ChainId, GenesisTransaction};
use crate::records::{CoinAmount, LegacyAccountRecord, RecordStore, Role};
use crate::supply::SupplyStats;

verus! {

/// One account's state as the new ledger holds it after bootstrap.
#[derive(Clone, Debug)]
pub struct AccountState {
    pub address: u128,
    pub role_marker: Role,
    pub balances: Vec<CoinAmount>,
}

/// A queryable view of the bootstrapped ledger state. Tests may build one
/// directly to simulate a ledger that diverged from the genesis write-set.
#[derive(Clone, Debug)]
pub struct StateReader {
    pub chain_id: ChainId,
    pub accounts: Vec<AccountState>,
}

/// The balance a balance list reports for `coin`: the first entry wins.
pub open spec fn balance_entry(bals: Seq<CoinAmount>, coin: u64) -> Option<u128>
    decreases bals.len(),
{
    if bals.len() == 0 {
        None
    } else if bals[0].coin == coin {
        Some(bals[0].amount)
    } else {
        balance_entry(bals.skip(1), coin)
    }
}

/// The balance the reader reports for `(a, coin)`: the first account with
/// address `a` wins.
pub open spec fn reader_balance(accounts: Seq<AccountState>, a: u128, coin: u64) -> Option<
    u128,
>
    decreases accounts.len(),
{
    if accounts.len() == 0 {
        None
    } else if accounts[0].address == a {
        balance_entry(accounts[0].balances@, coin)
    } else {
        reader_balance(accounts.skip(1), a, coin)
    }
}

/// The role marker the reader reports for `a`.
pub open spec fn reader_role(accounts: Seq<AccountState>, a: u128) -> Option<Role>
    decreases accounts.len(),
{
    if accounts.len() == 0 {
        None
    } else if accounts[0].address == a {
        Some(accounts[0].role_marker)
    } else {
        reader_role(accounts.skip(1), a)
    }
}

/// Some account of the reader carries address `a`.
pub open spec fn reader_has_account(accounts: Seq<AccountState>, a: u128) -> bool {
    exists|i: int| 0 <= i < accounts.len() && accounts[i].address == a
}

/// Finds the balance a balance list reports for `coin`.
fn find_balance(bals: &Vec<CoinAmount>, coin: u64) -> (r: Option<u128>)
    ensures
        r == balance_entry(bals@, coin),
{
    let n = bals.len();
    let mut i: usize = 0;
    proof {
        assert(bals@.skip(0) =~= bals@);
    }
    while i < n
        invariant
            i <= n,
            n == bals@.len(),
            balance_entry(bals@, coin) == balance_entry(bals@.skip(i as int), coin),
        decreases n - i,
    {
        proof {
            assert(bals@.skip(i as int)[0] == bals@[i as int]);
            assert(bals@.skip(i as int).skip(1) =~= bals@.skip(i + 1));
        }
        if bals[i].coin == coin {
            return Some(bals[i].amount);
        }
        i = i + 1;
    }
    proof {
        assert(bals@.skip(n as int) =~= Seq::<CoinAmount>::empty());
    }
    None
}

impl StateReader {
    /// The on-chain balance of `address` in `coin`, if the account and the
    /// balance resource exist.
    pub fn get_balance(&self, address: u128, coin: u64) -> (r: Option<u128>)
        ensures
            r == reader_balance(self.accounts@, address, coin),
    {
        let n = self.accounts.len();
        let mut i: usize = 0;
        proof {
            assert(self.accounts@.skip(0) =~= self.accounts@);
        }
        while i < n
            invariant
                i <= n,
                n == self.accounts@.len(),
                reader_balance(self.accounts@, address, coin) == reader_balance(
                    self.accounts@.skip(i as int),
                    address,
                    coin,
                ),
            decreases n - i,
        {
            proof {
                assert(self.accounts@.skip(i as int)[0] == self.accounts@[i as int]);
                assert(self.accounts@.skip(i as int).skip(1) =~= self.accounts@.skip(i + 1));
            }
            if self.accounts[i].address == address {
                return find_balance(&self.accounts[i].balances, coin);
            }
            i = i + 1;
        }
        proof {
            assert(self.accounts@.skip(n as int) =~= Seq::<AccountState>::empty());
        }
        None
    }

    /// The on-chain role marker of `address`, if the account exists.
    pub fn get_role_marker(&self, address: u128) -> (r: Option<Role>)
        ensures
            r == reader_role(self.accounts@, address),
    {
        let n = self.accounts.len();
        let mut i: usize = 0;
        proof {
            assert(self.accounts@.skip(0) =~= self.accounts@);
        }
        while i < n
            invariant
                i <= n,
                n == self.accounts@.len(),
                reader_role(self.accounts@, address) == reader_role(
                    self.accounts@.skip(i as int),
                    address,
                ),
            decreases n - i,
        {
            proof {
                assert(self.accounts@.skip(i as int)[0] == self.accounts@[i as int]);
                assert(self.accounts@.skip(i as int).skip(1) =~= self.accounts@.skip(i + 1));
            }
            if self.accounts[i].address == address {
                return Some(self.accounts[i].role_marker);
            }
            i = i + 1;
        }
        proof {
            assert(self.accounts@.skip(n as int) =~= Seq::<AccountState>::empty());
        }
        None
    }

    /// Whether any account carries `address`.
    pub fn has_account(&self, address: u128) -> (r: bool)
        ensures
            r == reader_has_account(self.accounts@, address),
    {
        let n = self.accounts.len();
        let mut i: usize = 0;
        proof {
            assert(self.accounts@.skip(0) =~= self.accounts@);
        }
        while i < n
            invariant
                i <= n,
                n == self.accounts@.len(),
                forall|k: int| 0 <= k < i ==> self.accounts@[k].address != address,
            decreases n - i,
        {
            if self.accounts[i].address == address {
                return true;
            }
            i = i + 1;
        }
        false
    }
}

/// The reader state is exactly one account per write, in write order.
pub open spec fn accounts_of_writes(ws: Seq<AccountWrite>, accounts: Seq<AccountState>) -> bool {
    &&& accounts.len() == ws.len()
    &&& forall|i: int| 0 <= i < ws.len() ==> {
        &&& (#[trigger] accounts[i]).address == ws[i].address
        &&& accounts[i].role_marker == ws[i].role_marker
        &&& accounts[i].balances@ == ws[i].balances@
    }
}

/// Realizes the bootstrapper interface in memory: executes the genesis
/// transaction against an empty ledger state, yielding a reader that holds
/// exactly the transaction's account writes, under the transaction's chain
/// identifier.
#[verifier::loop_isolation(false)]
pub fn bootstrap(tx: &GenesisTransaction) -> (r: StateReader)
    ensures
        r.chain_id == tx.chain_id,
        accounts_of_writes(tx.writes@, r.accounts@),
{
    let n = tx.writes.len();
    let mut accounts: Vec<AccountState> = Vec::new();
    let mut i: usize = 0;
    while i < n
        invariant
            i <= n,
            accounts@.len() == i,
            forall|k: int| 0 <= k < i ==> {
                &&& (#[trigger] accounts@[k]).address == tx.writes@[k].address
                &&& accounts@[k].role_marker == tx.writes@[k].role_marker
                &&& accounts@[k].balances@ == tx.writes@[k].balances@
            },
        decreases n - i,
    {
        let w = &tx.writes[i];
        accounts.push(
            AccountState {
                address: w.address,
                role_marker: w.role_marker,
                balances: w.balances.clone(),
            },
        );
        i = i + 1;
    }
    StateReader { chain_id: tx.chain_id, accounts }
}

/// What a discrepancy is about: one account, or the global supply.
#[derive(Clone, Copy, Debug, PartialEq, Eq, Structural)]
pub enum AuditSubject {
    Account { address: u128 },
    GlobalSupply,
}

/// The kind of mismatch a discrepancy reports.
#[derive(Clone, Copy, Debug, PartialEq, Eq, Structural)]
pub enum DiscrepancyKind {
    /// An expected account is absent from the ledger.
    MissingAccount,
    /// An account's on-chain balance differs from the expected balance.
    BalanceMismatch,
    /// A dropped account still carries a balance resource on chain.
    RoleViolation,
    /// The re-summed on-chain supply differs from the oracle's total.
    SupplyMismatch,
}

/// One detected mismatch between expected (legacy-derived) and actual
/// (on-chain) state; the auditor's output is the ordered sequence of these.
#[derive(Clone, Copy, Debug, PartialEq, Eq, Structural)]
pub struct AuditDiscrepancy {
    pub subject: AuditSubject,
    pub coin: Option<u64>,
    pub expected: Option<u128>,
    pub actual: Option<u128>,
    pub kind: DiscrepancyKind,
}

/// Per-coin checks of one non-Drop record: one balance-mismatch entry for
/// every coin whose on-chain balance differs from the record's.
pub open spec fn balance_checks(
    a: u128,
    bals: Seq<CoinAmount>,
    accounts: Seq<AccountState>,
) -> Seq<AuditDiscrepancy>
    decreases bals.len(),
{
    if bals.len() == 0 {
        Seq::empty()
    } else {
        balance_checks(a, bals.drop_last(), accounts) + ({
            let actual = reader_balance(accounts, a, bals.last().coin);
            if actual == Some(bals.last().amount) {
                Seq::empty()
            } else {
                seq![
                    (AuditDiscrepancy {
                        subject: AuditSubject::Account { address: a },
                        coin: Some(bals.last().coin),
                        expected: Some(bals.last().amount),
                        actual,
                        kind: DiscrepancyKind::BalanceMismatch,
                    }),
                ]
            }
        })
    }
}

/// Per-coin checks of one dropped record: one role-violation entry for
/// every balance resource still found on chain.
pub open spec fn drop_checks(
    a: u128,
    bals: Seq<CoinAmount>,
    accounts: Seq<AccountState>,
) -> Seq<AuditDiscrepancy>
    decreases bals.len(),
{
    if bals.len() == 0 {
        Seq::empty()
    } else {
        drop_checks(a, bals.drop_last(), accounts) + (match reader_balance(
            accounts,
            a,
            bals.last().coin,
        ) {
            Some(x) => seq![
                (AuditDiscrepancy {
                    subject: AuditSubject::Account { address: a },
                    coin: Some(bals.last().coin),
                    expected: None,
                    actual: Some(x),
                    kind: DiscrepancyKind::RoleViolation,
                }),
            ],
            None => Seq::empty(),
        })
    }
}

/// The checks one record contributes, by its role and presence.
pub open spec fn record_checks(
    r: LegacyAccountRecord,
    accounts: Seq<AccountState>,
) -> Seq<AuditDiscrepancy> {
    match r.address {
        Some(a) => {
            if r.role is Drop {
                drop_checks(a, r.balances@, accounts)
            } else if !reader_has_account(accounts, a) {
                seq![
                    (AuditDiscrepancy {
                        subject: AuditSubject::Account { address: a },
                        coin: None,
                        expected: None,
                        actual: None,
                        kind: DiscrepancyKind::MissingAccount,
                    }),
                ]
            } else {
                balance_checks(a, r.balances@, accounts)
            }
        },
        None => Seq::empty(),
    }
}

/// The per-record checks over the whole store, in store order.
pub open spec fn records_checks(
    s: Seq<LegacyAccountRecord>,
    accounts: Seq<AccountState>,
) -> Seq<AuditDiscrepancy>
    decreases s.len(),
{
    if s.len() == 0 {
        Seq::empty()
    } else {
        records_checks(s.drop_last(), accounts) + record_checks(s.last(), accounts)
    }
}

/// The on-chain amount in `coin` one queried record contributes to the
/// re-summed supply: what the reader reports for a non-Drop addressed
/// record, and nothing otherwise.
pub open spec fn onchain_contribution(
    r: LegacyAccountRecord,
    accounts: Seq<AccountState>,
    coin: u64,
) -> int {
    match r.address {
        Some(a) => {
            if r.role is Drop {
                0
            } else {
                match reader_balance(accounts, a, coin) {
                    Some(x) => x as int,
                    None => 0,
                }
            }
        },
        None => 0,
    }
}

/// The re-summed on-chain supply in `coin` across all queried accounts.
pub open spec fn onchain_sum(
    s: Seq<LegacyAccountRecord>,
    accounts: Seq<AccountState>,
    coin: u64,
) -> int
    decreases s.len(),
{
    if s.len() == 0 {
        0
    } else {
        onchain_sum(s.drop_last(), accounts, coin) + onchain_contribution(
            s.last(),
            accounts,
            coin,
        )
    }
}

/// The global supply re-checks: one supply-mismatch entry for every oracle
/// total the re-summed on-chain supply differs from.
pub open spec fn supply_checks(
    totals: Seq<CoinAmount>,
    s: Seq<LegacyAccountRecord>,
    accounts: Seq<AccountState>,
) -> Seq<AuditDiscrepancy>
    decreases totals.len(),
{
    if totals.len() == 0 {
        Seq::empty()
    } else {
        supply_checks(totals.drop_last(), s, accounts) + ({
            let t = totals.last();
            if onchain_sum(s, accounts, t.coin) == t.amount {
                Seq::empty()
            } else {
                seq![
                    (AuditDiscrepancy {
                        subject: AuditSubject::GlobalSupply,
                        coin: Some(t.coin),
                        expected: Some(t.amount),
                        actual: Some(onchain_sum(s, accounts, t.coin) as u128),
                        kind: DiscrepancyKind::SupplyMismatch,
                    }),
                ]
            }
        })
    }
}

/// The auditor's whole output for a given store, oracle, and reader.
pub open spec fn audit_report(
    s: Seq<LegacyAccountRecord>,
    totals: Seq<CoinAmount>,
    accounts: Seq<AccountState>,
) -> Seq<AuditDiscrepancy> {
    records_checks(s, accounts) + supply_checks(totals, s, accounts)
}

/// Fatal audit-time failures; a non-empty discrepancy list is not an error.
#[derive(Clone, Copy, Debug, PartialEq, Eq, Structural)]
pub enum AuditError {
    /// The reader was bootstrapped under another chain identifier, so the
    /// comparison would be meaningless.
    ChainMismatch { expected: ChainId, actual: ChainId },
    /// Re-summing the on-chain balances overflowed 128 bits.
    SupplyOverflow { coin: u64 },
}

pub proof fn lemma_onchain_nonneg(
    s: Seq<LegacyAccountRecord>,
    accounts: Seq<AccountState>,
    coin: u64,
)
    ensures
        onchain_sum(s, accounts, coin) >= 0,
    decreases s.len(),
{
    if s.len() > 0 {
        lemma_onchain_nonneg(s.drop_last(), accounts, coin);
    }
}

pub proof fn lemma_onchain_take_succ(
    s: Seq<LegacyAccountRecord>,
    accounts: Seq<AccountState>,
    coin: u64,
    i: int,
)
    requires
        0 <= i < s.len(),
    ensures
        onchain_sum(s.take(i + 1), accounts, coin) == onchain_sum(s.take(i), accounts, coin)
            + onchain_contribution(s[i], accounts, coin),
{
    assert(s.take(i + 1).drop_last() =~= s.take(i));
    assert(s.take(i + 1).last() == s[i]);
}

pub proof fn lemma_onchain_take_le(
    s: Seq<LegacyAccountRecord>,
    accounts: Seq<AccountState>,
    coin: u64,
    i: int,
)
    requires
        0 <= i <= s.len(),
    ensures
        onchain_sum(s.take(i), accounts, coin) <= onchain_sum(s, accounts, coin),
    decreases s.len() - i,
{
    if i == s.len() {
        assert(s.take(i) =~= s);
    } else {
        lemma_onchain_take_succ(s, accounts, coin, i);
        lemma_onchain_take_le(s, accounts, coin, i + 1);
    }
}

/// Re-sums the on-chain balances in `coin` across all queried accounts,
/// failing exactly when the exact sum does not fit in 128 bits.
#[verifier::loop_isolation(false)]
fn sum_onchain(store: &RecordStore, reader: &StateReader, coin: u64) -> (r: Option<u128>)
    ensures
        r matches Some(v) ==> v == onchain_sum(store@, reader.accounts@, coin),
        r is Some <==> onchain_sum(store@, reader.accounts@, coin) <= u128::MAX,
{
    let n = store.records.len();
    let mut acc: u128 = 0;
    let mut i: usize = 0;
    while i < n
        invariant
            i <= n,
            n == store@.len(),
            acc == onchain_sum(store@.take(i as int), reader.accounts@, coin),
        decreases n - i,
    {
        let rec = &store.records[i];
        proof {
            lemma_onchain_take_succ(store@, reader.accounts@, coin, i as int);
        }
        if rec.role != Role::Drop {
            match rec.address {
                Option::Some(a) => {
                    match reader.get_balance(a, coin) {
                        Option::Some(x) => {
                            if acc > u128::MAX - x {
                                proof {
                                    lemma_onchain_take_le(store@, reader.accounts@, coin, i + 1);
                                }
                                return None;
                            }
                            acc = acc + x;
                        },
                        Option::None => {},
                    }
                },
                Option::None => {},
            }
        }
        i = i + 1;
    }
    proof {
        assert(store@.take(n as int) =~= store@);
    }
    Some(acc)
}

/// Audits the bootstrapped state against the record store and the supply
/// oracle. For every non-Drop addressed record, the reader must hold the
/// account with exactly the record's balances (`MissingAccount`,
/// `BalanceMismatch`); for every dropped record, no balance resource may
/// remain (`RoleViolation`); finally the on-chain balances are re-summed
/// and held against every oracle total (`SupplyMismatch`). The returned
/// report is exactly `audit_report`, in order, and is empty precisely when
/// the state matches. Read-only: neither the store nor the ledger changes.
/// Fails only when the reader's chain identifier differs from the expected
/// one, or when re-summing overflows 128 bits.
#[verifier::loop_isolation(false)]
pub fn audit(
    store: &RecordStore,
    stats: &SupplyStats,
    reader: &StateReader,
    expected_chain: ChainId,
) -> (r: Result<Vec<AuditDiscrepancy>, AuditError>)
    ensures
        r is Ok <==> reader.chain_id == expected_chain && (forall|k: int|
            0 <= k < stats.totals@.len() ==> onchain_sum(
                store@,
                reader.accounts@,
                (#[trigger] stats.totals@[k]).coin,
            ) <= u128::MAX),
        r matches Ok(discs) ==> discs@ == audit_report(store@, stats.totals@, reader.accounts@),
        r matches Err(e) ==> match e {
            AuditError::ChainMismatch { expected, actual } => expected == expected_chain && actual
                == reader.chain_id && reader.chain_id != expected_chain,
            AuditError::SupplyOverflow { coin } => reader.chain_id == expected_chain && exists|
                k: int,
            |
                0 <= k < stats.totals@.len() && (#[trigger] stats.totals@[k]).coin == coin
                    && onchain_sum(store@, reader.accounts@, coin) > u128::MAX,
        },
{
    if reader.chain_id != expected_chain {
        return Err(
            AuditError::ChainMismatch { expected: expected_chain, actual: reader.chain_id },
        );
    }
    let mut discs: Vec<AuditDiscrepancy> = Vec::new();
    let n = store.records.len();
    let mut i: usize = 0;
    while i < n
        invariant
            i <= n,
            n == store@.len(),
            discs@ == records_checks(store@.take(i as int), reader.accounts@),
        decreases n - i,
    {
        let rec = &store.records[i];
        let ghost prev = discs@;
        proof {
            assert(store@.take(i + 1).drop_last() =~= store@.take(i as int));
            assert(store@.take(i + 1).last() == store@[i as int]);
        }
        match rec.address {
            Option::Some(a) => {
                if rec.role == Role::Drop {
                    let m = rec.balances.len();
                    let mut j: usize = 0;
                    while j < m
                        invariant
                            j <= m,
                            i < n,
                            m == rec.balances@.len(),
                            rec == &store.records[i as int],
                            rec.role is Drop,
                            rec.address == Some(a),
                            discs@ == prev + drop_checks(
                                a,
                                rec.balances@.take(j as int),
                                reader.accounts@,
                            ),
                        decreases m - j,
                    {
                        let entry = rec.balances[j];
                        proof {
                            assert(rec.balances@.take(j + 1).drop_last() =~= rec.balances@.take(
                                j as int,
                            ));
                            assert(rec.balances@.take(j + 1).last() == rec.balances@[j as int]);
                        }
                        match reader.get_balance(a, entry.coin) {
                            Option::Some(x) => {
                                discs.push(
                                    AuditDiscrepancy {
                                        subject: AuditSubject::Account { address: a },
                                        coin: Some(entry.coin),
                                        expected: None,
                                        actual: Some(x),
                                        kind: DiscrepancyKind::RoleViolation,
                                    },
                                );
                            },
                            Option::None => {},
                        }
                        j = j + 1;
                    }
                    proof {
                        assert(rec.balances@.take(m as int) =~= rec.balances@);
                    }
                } else {
                    if !reader.has_account(a) {
                        discs.push(
                            AuditDiscrepancy {
                                subject: AuditSubject::Account { address: a },
                                coin: None,
                                expected: None,
                                actual: None,
                                kind: DiscrepancyKind::MissingAccount,
                            },
                        );
                    } else {
                        let m = rec.balances.len();
                        let mut j: usize = 0;
                        while j < m
                            invariant
                                j <= m,
                                i < n,
                                m == rec.balances@.len(),
                                rec == &store.records[i as int],
                                !(rec.role is Drop),
                                rec.address == Some(a),
                                reader_has_account(reader.accounts@, a),
                                discs@ == prev + balance_checks(
                                    a,
                                    rec.balances@.take(j as int),
                                    reader.accounts@,
                                ),
                            decreases m - j,
                        {
                            let entry = rec.balances[j];
                            proof {
                                assert(rec.balances@.take(j + 1).drop_last() =~= rec.balances@.take(
                                    j as int,
                                ));
                                assert(rec.balances@.take(j + 1).last() == rec.balances@[
                                    j as int
                                ]);
                            }
                            let actual = reader.get_balance(a, entry.coin);
                            let matches_expected = match actual {
                                Option::Some(x) => x == entry.amount,
                                Option::None => false,
                            };
                            if !matches_expected {
                                discs.push(
                                    AuditDiscrepancy {
                                        subject: AuditSubject::Account { address: a },
                                        coin: Some(entry.coin),
                                        expected: Some(entry.amount),
                                        actual,
                                        kind: DiscrepancyKind::BalanceMismatch,
                                    },
                                );
                            }
                            j = j + 1;
                        }
                        proof {
                            assert(rec.balances@.take(m as int) =~= rec.balances@);
                        }
                    }
                }
            },
            Option::None => {},
        }
        i = i + 1;
    }
    proof {
        assert(store@.take(n as int) =~= store@);
    }
    let tn = stats.totals.len();
    let mut k: usize = 0;
    while k < tn
        invariant
            k <= tn,
            tn == stats.totals@.len(),
            discs@ == records_checks(store@, reader.accounts@) + supply_checks(
                stats.totals@.take(k as int),
                store@,
                reader.accounts@,
            ),
            forall|l: int|
                0 <= l < k ==> onchain_sum(
                    store@,
                    reader.accounts@,
                    (#[trigger] stats.totals@[l]).coin,
                ) <= u128::MAX,
        decreases tn - k,
    {
        let t = stats.totals[k];
        proof {
            assert(stats.totals@.take(k + 1).drop_last() =~= stats.totals@.take(k as int));
            assert(stats.totals@.take(k + 1).last() == stats.totals@[k as int]);
        }
        match sum_onchain(store, reader, t.coin) {
            Option::Some(actual_total) => {
                if actual_total != t.amount {
                    discs.push(
                        AuditDiscrepancy {
                            subject: AuditSubject::GlobalSupply,
                            coin: Some(t.coin),
                            expected: Some(t.amount),
                            actual: Some(actual_total),
                            kind: DiscrepancyKind::SupplyMismatch,
                        },
                    );
                }
            },
            Option::None => {
                return Err(AuditError::SupplyOverflow { coin: t.coin });
            },
        }
        k = k + 1;
    }
    proof {
        assert(stats.totals@.take(tn as int) =~= stats.totals@);
    }
    Ok(discs)
}

} // verus!
