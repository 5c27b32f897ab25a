//! End-to-end migration runs: parse, transform, compute, build, bootstrap,
//! audit.

use genesis_audit::audit::{
    audit, bootstrap, AccountState, AuditDiscrepancy, AuditSubject, DiscrepancyKind, StateReader,
};
use genesis_audit::genesis::{build, ChainId, ConstructionError, ValidatorConfiguration};
use genesis_audit::pipeline::{migrate_and_audit, MigrationError};
use genesis_audit::supply::SupplyError;
use genesis_audit::audit::AuditError;
use genesis_audit::records::{CoinAmount, LegacyAccountRecord, RecordStore, Role};
use genesis_audit::supply::compute;
use genesis_audit::transform::{apply_drop, DropDirective};

const GAS_COIN: u64 = 1;
const LOTUS_COIN: u64 = 2;

fn holder(address: u128, coin: u64, amount: u128) -> LegacyAccountRecord {
    LegacyAccountRecord {
        address: Some(address),
        role: Role::Holder,
        balances: vec![CoinAmount { coin, amount }],
        metadata: Vec::new(),
    }
}

fn validator(address: u128, coin: u64, amount: u128) -> LegacyAccountRecord {
    LegacyAccountRecord {
        address: Some(address),
        role: Role::Validator,
        balances: vec![CoinAmount { coin, amount }],
        metadata: Vec::new(),
    }
}

fn config(address: u128) -> ValidatorConfiguration {
    ValidatorConfiguration {
        address,
        host_ip: 0x0A00_0001,
        host_port: 6180,
        keep_legacy_address: false,
    }
}

#[test]
fn test_correct_supply_arithmetic_all() {
    let store = RecordStore {
        records: vec![
            validator(0x11, GAS_COIN, 100),
            validator(0x22, GAS_COIN, 200),
            validator(0x33, GAS_COIN, 300),
            validator(0x44, GAS_COIN, 400),
        ],
    };
    let genesis_vals = vec![config(0x11), config(0x22), config(0x33), config(0x44)];

    let supply_stats = compute(&store).unwrap();
    assert_eq!(supply_stats.totals.len(), 1);
    assert_eq!(supply_stats.totals[0].coin, GAS_COIN);
    assert_eq!(supply_stats.totals[0].amount, 1000);
    assert_eq!(supply_stats.contributing_accounts, 4);

    let gen_tx = build(&store, &genesis_vals, ChainId::Mainnet).unwrap();
    let reader = bootstrap(&gen_tx);

    match audit(&store, &supply_stats, &reader, ChainId::Mainnet) {
        Ok(list) => {
            let len = list.len();
            assert!(list.is_empty(), "audit list is not empty, errs: {len}");
        }
        Err(_e) => panic!("error creating comparison"),
    }
}

#[test]
fn test_drop_all() {
    let dead_addr: u128 = 0x0012DD85AA97606DD22B3C9A85585D49;
    let store0 = RecordStore {
        records: vec![
            validator(0x11, GAS_COIN, 100),
            holder(dead_addr, GAS_COIN, 250),
            holder(0x77, GAS_COIN, 50),
        ],
    };
    let mut user_accounts = store0;
    let directive = DropDirective { addresses: vec![dead_addr], keep_legacy_mapping: false };
    apply_drop(&mut user_accounts, &directive).unwrap();

    let dead = user_accounts
        .records
        .iter()
        .find(|e| e.address == Some(dead_addr))
        .expect("should have this account")
        .clone();
    assert!(dead.role == Role::Drop);

    let genesis_vals = vec![config(0x11)];
    let gen_tx = build(&user_accounts, &genesis_vals, ChainId::Mainnet).unwrap();
    let reader = bootstrap(&gen_tx);

    let on_chain_balance = reader.get_balance(dead_addr, GAS_COIN);
    assert!(on_chain_balance.is_none(), "should have move resource");
}

#[test]
fn test_lotus_to_lotus_convert() {
    let dead_addr: u128 = 0x00000000000000000000000000000003;
    let alive_addr: u128 = 0x45558bad546e6159020871f7e5d094d7;
    let alive = LegacyAccountRecord {
        address: Some(alive_addr),
        role: Role::Holder,
        balances: vec![
            CoinAmount { coin: GAS_COIN, amount: 600 },
            CoinAmount { coin: LOTUS_COIN, amount: 40 },
        ],
        metadata: Vec::new(),
    };
    let mut user_accounts = RecordStore {
        records: vec![validator(0x11, GAS_COIN, 900), holder(dead_addr, GAS_COIN, 77), alive],
    };
    let directive = DropDirective { addresses: vec![dead_addr], keep_legacy_mapping: false };
    apply_drop(&mut user_accounts, &directive).unwrap();

    let dead = user_accounts
        .records
        .iter()
        .find(|e| e.address == Some(dead_addr))
        .expect("should have this account")
        .clone();
    assert!(dead.role == Role::Drop);

    let genesis_vals = vec![config(0x11)];
    let gen_tx = build(&user_accounts, &genesis_vals, ChainId::Mainnet).unwrap();
    let reader = bootstrap(&gen_tx);

    let on_chain_balance = reader.get_balance(dead_addr, GAS_COIN);
    assert!(on_chain_balance.is_none(), "should have move resource");

    let on_chain_gas = reader.get_balance(alive_addr, GAS_COIN);
    assert_eq!(on_chain_gas, Some(600), "should have move resource");
    let on_chain_lotus = reader.get_balance(alive_addr, LOTUS_COIN);
    assert_eq!(on_chain_lotus, Some(40), "should have move resource");
}

#[test]
fn four_accounts_clean_audit() {
    let store = RecordStore {
        records: vec![
            holder(0xA, GAS_COIN, 100),
            holder(0xB, GAS_COIN, 200),
            holder(0xC, GAS_COIN, 300),
            holder(0xD, GAS_COIN, 400),
        ],
    };
    let stats = compute(&store).unwrap();
    assert_eq!(stats.totals.len(), 1);
    assert_eq!(stats.totals[0].amount, 1000);

    let tx = build(&store, &Vec::new(), ChainId::Testing).unwrap();
    assert_eq!(tx.writes.len(), 4);
    // The supply implied by the writes equals the computed supply.
    let write_total: u128 = tx
        .writes
        .iter()
        .flat_map(|w| w.balances.iter())
        .filter(|b| b.coin == GAS_COIN)
        .map(|b| b.amount)
        .sum();
    assert_eq!(write_total, 1000);
    let reader = bootstrap(&tx);
    let discrepancies = audit(&store, &stats, &reader, ChainId::Testing).unwrap();
    assert!(discrepancies.is_empty());
}

#[test]
fn four_accounts_drop_one_supply_and_exclusion() {
    let mut store = RecordStore {
        records: vec![
            holder(0xA, GAS_COIN, 100),
            holder(0xB, GAS_COIN, 200),
            holder(0xC, GAS_COIN, 300),
            holder(0xD, GAS_COIN, 400),
        ],
    };
    let directive = DropDirective { addresses: vec![0xC], keep_legacy_mapping: false };
    apply_drop(&mut store, &directive).unwrap();

    let stats = compute(&store).unwrap();
    assert_eq!(stats.totals.len(), 1);
    assert_eq!(stats.totals[0].amount, 700);
    assert_eq!(stats.contributing_accounts, 3);

    let tx = build(&store, &Vec::new(), ChainId::Testing).unwrap();
    assert_eq!(tx.writes.len(), 3);
    let reader = bootstrap(&tx);
    assert!(reader.get_balance(0xC, GAS_COIN).is_none());
    assert!(reader.get_role_marker(0xC).is_none());
    let discrepancies = audit(&store, &stats, &reader, ChainId::Testing).unwrap();
    assert!(discrepancies.is_empty());
}

#[test]
fn dropped_balance_on_chain_is_role_violation() {
    let mut store = RecordStore {
        records: vec![
            holder(0xA, GAS_COIN, 100),
            holder(0xB, GAS_COIN, 200),
            holder(0xC, GAS_COIN, 300),
            holder(0xD, GAS_COIN, 400),
        ],
    };
    let directive = DropDirective { addresses: vec![0xC], keep_legacy_mapping: false };
    apply_drop(&mut store, &directive).unwrap();
    let stats = compute(&store).unwrap();
    let tx = build(&store, &Vec::new(), ChainId::Testing).unwrap();
    let mut reader = bootstrap(&tx);
    // A leaked balance for the dropped account must surface as exactly one
    // role violation; the dropped account is not part of the supply re-sum.
    reader.accounts.push(AccountState {
        address: 0xC,
        role_marker: Role::Holder,
        balances: vec![CoinAmount { coin: GAS_COIN, amount: 300 }],
    });
    let discrepancies = audit(&store, &stats, &reader, ChainId::Testing).unwrap();
    assert_eq!(
        discrepancies,
        vec![AuditDiscrepancy {
            subject: AuditSubject::Account { address: 0xC },
            coin: Some(GAS_COIN),
            expected: None,
            actual: Some(300),
            kind: DiscrepancyKind::RoleViolation,
        }]
    );
}

#[test]
fn perturbed_balance_is_reported_once() {
    let store = RecordStore {
        records: vec![
            holder(0xA, GAS_COIN, 100),
            holder(0xB, GAS_COIN, 200),
            holder(0xD, GAS_COIN, 400),
        ],
    };
    let stats = compute(&store).unwrap();
    let tx = build(&store, &Vec::new(), ChainId::Testing).unwrap();
    let mut reader = bootstrap(&tx);
    // Perturb B's balance after construction, before audit.
    reader.accounts[1].balances[0].amount = 201;
    let discrepancies = audit(&store, &stats, &reader, ChainId::Testing).unwrap();
    assert_eq!(discrepancies.len(), 2);
    assert_eq!(
        discrepancies[0],
        AuditDiscrepancy {
            subject: AuditSubject::Account { address: 0xB },
            coin: Some(GAS_COIN),
            expected: Some(200),
            actual: Some(201),
            kind: DiscrepancyKind::BalanceMismatch,
        }
    );
    assert_eq!(
        discrepancies[1],
        AuditDiscrepancy {
            subject: AuditSubject::GlobalSupply,
            coin: Some(GAS_COIN),
            expected: Some(700),
            actual: Some(701),
            kind: DiscrepancyKind::SupplyMismatch,
        }
    );
}

#[test]
fn missing_account_is_reported() {
    let store = RecordStore { records: vec![holder(0xA, GAS_COIN, 100)] };
    let stats = compute(&store).unwrap();
    let reader = StateReader { chain_id: ChainId::Testing, accounts: Vec::new() };
    let discrepancies = audit(&store, &stats, &reader, ChainId::Testing).unwrap();
    assert_eq!(discrepancies.len(), 2);
    assert_eq!(
        discrepancies[0],
        AuditDiscrepancy {
            subject: AuditSubject::Account { address: 0xA },
            coin: None,
            expected: None,
            actual: None,
            kind: DiscrepancyKind::MissingAccount,
        }
    );
    assert_eq!(discrepancies[1].kind, DiscrepancyKind::SupplyMismatch);
    assert_eq!(discrepancies[1].subject, AuditSubject::GlobalSupply);
    assert_eq!(discrepancies[1].expected, Some(100));
    assert_eq!(discrepancies[1].actual, Some(0));
}

#[test]
fn chain_mismatch_fails_the_audit() {
    let store = RecordStore { records: vec![holder(0xA, GAS_COIN, 100)] };
    let stats = compute(&store).unwrap();
    let tx = build(&store, &Vec::new(), ChainId::Mainnet).unwrap();
    let reader = bootstrap(&tx);
    let result = audit(&store, &stats, &reader, ChainId::Testnet);
    assert!(matches!(
        result,
        Err(genesis_audit::audit::AuditError::ChainMismatch { .. })
    ));
}

#[test]
fn bootstrap_carries_chain_and_roles() {
    let store = RecordStore { records: vec![validator(0x11, GAS_COIN, 5), holder(0x22, GAS_COIN, 7)] };
    let tx = build(&store, &vec![config(0x11)], ChainId::Testnet).unwrap();
    assert_eq!(tx.chain_id, ChainId::Testnet);
    assert_eq!(tx.sequence, 0);
    assert_eq!(tx.validator_set.len(), 1);
    assert_eq!(tx.validator_set[0].address, 0x11);
    assert_eq!(tx.validator_set[0].host_port, 6180);
    let reader = bootstrap(&tx);
    assert_eq!(reader.chain_id, ChainId::Testnet);
    assert_eq!(reader.get_role_marker(0x11), Some(Role::Validator));
    assert_eq!(reader.get_role_marker(0x22), Some(Role::Holder));
    assert_eq!(reader.get_balance(0x22, GAS_COIN), Some(7));
    assert_eq!(reader.get_balance(0x22, LOTUS_COIN), None);
}

#[test]
fn migrate_and_audit_runs_clean() {
    let store = RecordStore {
        records: vec![
            validator(0x11, GAS_COIN, 100),
            holder(0xB, GAS_COIN, 200),
            holder(0xC, LOTUS_COIN, 300),
        ],
    };
    let configs = vec![config(0x11)];
    let discrepancies = migrate_and_audit(&store, &configs, ChainId::Mainnet).unwrap();
    assert!(discrepancies.is_empty());
}

#[test]
fn migrate_and_audit_surfaces_construction_errors() {
    let store = RecordStore { records: vec![validator(0x11, GAS_COIN, 100)] };
    let result = migrate_and_audit(&store, &Vec::new(), ChainId::Mainnet);
    assert_eq!(
        result.unwrap_err(),
        MigrationError::Construction(ConstructionError::UnmatchedValidator { address: 0x11 })
    );
}

#[test]
fn migrate_and_audit_surfaces_supply_overflow() {
    let store = RecordStore {
        records: vec![holder(0xA, GAS_COIN, u128::MAX), holder(0xB, GAS_COIN, u128::MAX)],
    };
    let result = migrate_and_audit(&store, &Vec::new(), ChainId::Mainnet);
    assert_eq!(
        result.unwrap_err(),
        MigrationError::Supply(SupplyError::SupplyOverflow { coin: GAS_COIN })
    );
}

#[test]
fn audit_resum_overflow_fails_loudly() {
    let store = RecordStore {
        records: vec![holder(0xA, GAS_COIN, 1), holder(0xB, GAS_COIN, 2)],
    };
    let stats = compute(&store).unwrap();
    // A corrupt ledger whose balances overflow the 128-bit re-sum.
    let reader = StateReader {
        chain_id: ChainId::Testing,
        accounts: vec![
            AccountState {
                address: 0xA,
                role_marker: Role::Holder,
                balances: vec![CoinAmount { coin: GAS_COIN, amount: u128::MAX }],
            },
            AccountState {
                address: 0xB,
                role_marker: Role::Holder,
                balances: vec![CoinAmount { coin: GAS_COIN, amount: u128::MAX }],
            },
        ],
    };
    let result = audit(&store, &stats, &reader, ChainId::Testing);
    assert_eq!(result.unwrap_err(), AuditError::SupplyOverflow { coin: GAS_COIN });
}
