//! Parsing, transformation, supply, and construction edge cases.

use genesis_audit::genesis::{
    build, derive_validator_configs, ChainId, ConfigListError, ConstructionError,
    ValidatorConfiguration,
};
use genesis_audit::records::{
    parse, role_of_tag, CoinAmount, LegacyAccountRecord, MalformedInput, RawBalance, RawRecord,
    RecordStore, Role, ROLE_TAG_DROP, ROLE_TAG_HOLDER, ROLE_TAG_OPERATOR, ROLE_TAG_VALIDATOR,
};
use genesis_audit::supply::{compute, SupplyError};
use genesis_audit::transform::{apply_drop, assign_role, DropDirective, TransformError};

const GAS_COIN: u64 = 1;

fn raw(address: Option<u128>, role_tag: u8, balances: Vec<RawBalance>) -> RawRecord {
    RawRecord { address, role_tag, balances, metadata: Vec::new() }
}

fn holder(address: u128, coin: u64, amount: u128) -> LegacyAccountRecord {
    LegacyAccountRecord {
        address: Some(address),
        role: Role::Holder,
        balances: vec![CoinAmount { coin, amount }],
        metadata: Vec::new(),
    }
}

#[test]
fn parse_accepts_a_valid_export_in_order() {
    let input = vec![
        raw(Some(0xA), ROLE_TAG_VALIDATOR, vec![RawBalance { coin: GAS_COIN, amount: 10 }]),
        raw(Some(0xB), ROLE_TAG_OPERATOR, vec![]),
        raw(None, ROLE_TAG_HOLDER, vec![]),
        raw(Some(0xC), ROLE_TAG_DROP, vec![RawBalance { coin: GAS_COIN, amount: 3 }]),
    ];
    let store = parse(&input).unwrap();
    assert_eq!(store.records.len(), 4);
    assert_eq!(store.records[0].address, Some(0xA));
    assert_eq!(store.records[0].role, Role::Validator);
    assert_eq!(store.records[0].balances, vec![CoinAmount { coin: GAS_COIN, amount: 10 }]);
    assert_eq!(store.records[1].role, Role::Operator);
    assert_eq!(store.records[2].address, None);
    assert_eq!(store.records[3].role, Role::Drop);
}

#[test]
fn parse_rejects_negative_balance() {
    let input = vec![
        raw(Some(0xA), ROLE_TAG_HOLDER, vec![RawBalance { coin: GAS_COIN, amount: 10 }]),
        raw(Some(0xB), ROLE_TAG_HOLDER, vec![RawBalance { coin: GAS_COIN, amount: -5 }]),
    ];
    let result = parse(&input);
    assert_eq!(
        result.unwrap_err(),
        MalformedInput::NegativeAmount { index: 1, coin: GAS_COIN }
    );
}

#[test]
fn parse_rejects_missing_address_with_balances() {
    let input = vec![raw(None, ROLE_TAG_HOLDER, vec![RawBalance { coin: GAS_COIN, amount: 1 }])];
    assert_eq!(parse(&input).unwrap_err(), MalformedInput::MissingAddress { index: 0 });
}

#[test]
fn parse_rejects_unknown_role_tag() {
    let input = vec![raw(Some(0xA), 9, vec![])];
    assert_eq!(parse(&input).unwrap_err(), MalformedInput::UnknownRoleTag { index: 0, tag: 9 });
}

#[test]
fn parse_rejects_duplicate_coin() {
    let input = vec![raw(
        Some(0xA),
        ROLE_TAG_HOLDER,
        vec![
            RawBalance { coin: GAS_COIN, amount: 1 },
            RawBalance { coin: GAS_COIN, amount: 2 },
        ],
    )];
    assert_eq!(
        parse(&input).unwrap_err(),
        MalformedInput::DuplicateCoin { index: 0, coin: GAS_COIN }
    );
}

#[test]
fn parse_rejects_duplicate_address() {
    let input = vec![
        raw(Some(0xA), ROLE_TAG_HOLDER, vec![]),
        raw(Some(0xA), ROLE_TAG_HOLDER, vec![]),
    ];
    assert_eq!(parse(&input).unwrap_err(), MalformedInput::DuplicateAddress { address: 0xA });
}

#[test]
fn role_tags_map_to_roles() {
    assert_eq!(role_of_tag(ROLE_TAG_VALIDATOR), Some(Role::Validator));
    assert_eq!(role_of_tag(ROLE_TAG_OPERATOR), Some(Role::Operator));
    assert_eq!(role_of_tag(ROLE_TAG_HOLDER), Some(Role::Holder));
    assert_eq!(role_of_tag(ROLE_TAG_DROP), Some(Role::Drop));
    assert_eq!(role_of_tag(200), None);
}

#[test]
fn apply_drop_unknown_address_changes_nothing() {
    let mut store = RecordStore { records: vec![holder(0xA, GAS_COIN, 10)] };
    let directive = DropDirective { addresses: vec![0xB], keep_legacy_mapping: false };
    let result = apply_drop(&mut store, &directive);
    assert_eq!(result.unwrap_err(), TransformError::UnknownAddress { address: 0xB });
    assert_eq!(store.records[0].role, Role::Holder);
}

#[test]
fn apply_drop_is_idempotent() {
    let mut store = RecordStore {
        records: vec![holder(0xA, GAS_COIN, 10), holder(0xB, GAS_COIN, 20)],
    };
    let directive = DropDirective { addresses: vec![0xB], keep_legacy_mapping: false };
    apply_drop(&mut store, &directive).unwrap();
    assert_eq!(store.records[1].role, Role::Drop);
    apply_drop(&mut store, &directive).unwrap();
    assert_eq!(store.records[0].role, Role::Holder);
    assert_eq!(store.records[1].role, Role::Drop);
    assert_eq!(store.records[1].balances, vec![CoinAmount { coin: GAS_COIN, amount: 20 }]);
}

#[test]
fn assign_role_reassigns_and_rejects_unknown() {
    let mut store = RecordStore { records: vec![holder(0xA, GAS_COIN, 10)] };
    assign_role(&mut store, 0xA, Role::Validator).unwrap();
    assert_eq!(store.records[0].role, Role::Validator);
    let result = assign_role(&mut store, 0xB, Role::Operator);
    assert_eq!(result.unwrap_err(), TransformError::UnknownAddress { address: 0xB });
}

#[test]
fn assign_role_on_dropped_record_always_fails() {
    for role in [Role::Validator, Role::Operator, Role::Holder, Role::Drop] {
        let mut store = RecordStore { records: vec![holder(0xA, GAS_COIN, 10)] };
        let directive = DropDirective { addresses: vec![0xA], keep_legacy_mapping: false };
        apply_drop(&mut store, &directive).unwrap();
        let result = assign_role(&mut store, 0xA, role);
        assert_eq!(
            result.unwrap_err(),
            TransformError::TerminalRoleViolation { address: 0xA }
        );
        assert_eq!(store.records[0].role, Role::Drop);
    }
}

#[test]
fn compute_overflow_fails_loudly() {
    let store = RecordStore {
        records: vec![
            holder(0xA, GAS_COIN, u128::MAX),
            holder(0xB, GAS_COIN, u128::MAX),
        ],
    };
    assert_eq!(compute(&store).unwrap_err(), SupplyError::SupplyOverflow { coin: GAS_COIN });
}

#[test]
fn compute_sums_per_coin_and_skips_drops() {
    let mut store = RecordStore {
        records: vec![
            LegacyAccountRecord {
                address: Some(0xA),
                role: Role::Holder,
                balances: vec![
                    CoinAmount { coin: 1, amount: 5 },
                    CoinAmount { coin: 2, amount: 11 },
                ],
                metadata: Vec::new(),
            },
            holder(0xB, 2, 9),
            holder(0xC, 1, 100),
        ],
    };
    let directive = DropDirective { addresses: vec![0xC], keep_legacy_mapping: false };
    apply_drop(&mut store, &directive).unwrap();
    let stats = compute(&store).unwrap();
    assert_eq!(stats.totals, vec![CoinAmount { coin: 1, amount: 5 }, CoinAmount { coin: 2, amount: 20 }]);
    assert_eq!(stats.contributing_accounts, 2);
}

#[test]
fn build_rejects_orphan_config() {
    let store = RecordStore { records: vec![holder(0xA, GAS_COIN, 10)] };
    let cfgs = vec![ValidatorConfiguration {
        address: 0xB,
        host_ip: 1,
        host_port: 6180,
        keep_legacy_address: false,
    }];
    let result = build(&store, &cfgs, ChainId::Testing);
    assert_eq!(
        result.unwrap_err(),
        ConstructionError::OrphanValidatorConfig { address: 0xB }
    );
}

#[test]
fn build_rejects_config_for_dropped_record() {
    let mut store = RecordStore { records: vec![holder(0xA, GAS_COIN, 10), holder(0xB, GAS_COIN, 1)] };
    let directive = DropDirective { addresses: vec![0xB], keep_legacy_mapping: false };
    apply_drop(&mut store, &directive).unwrap();
    let cfgs = vec![ValidatorConfiguration {
        address: 0xB,
        host_ip: 1,
        host_port: 6180,
        keep_legacy_address: false,
    }];
    let result = build(&store, &cfgs, ChainId::Testing);
    assert_eq!(
        result.unwrap_err(),
        ConstructionError::OrphanValidatorConfig { address: 0xB }
    );
}

#[test]
fn build_rejects_unmatched_validator() {
    let store = RecordStore {
        records: vec![LegacyAccountRecord {
            address: Some(0xA),
            role: Role::Validator,
            balances: vec![CoinAmount { coin: GAS_COIN, amount: 10 }],
            metadata: Vec::new(),
        }],
    };
    let result = build(&store, &Vec::new(), ChainId::Testing);
    assert_eq!(
        result.unwrap_err(),
        ConstructionError::UnmatchedValidator { address: 0xA }
    );
}

#[test]
fn derive_validator_configs_joins_by_index() {
    let identities = vec![0xA, 0xB, 0xC];
    let hosts = vec![(10, 6180), (11, 6180), (12, 6181)];
    let keep = vec![0xB];
    let cfgs = derive_validator_configs(&identities, &hosts, &keep).unwrap();
    assert_eq!(cfgs.len(), 3);
    assert_eq!(cfgs[0].address, 0xA);
    assert!(!cfgs[0].keep_legacy_address);
    assert_eq!(cfgs[1].address, 0xB);
    assert!(cfgs[1].keep_legacy_address);
    assert_eq!(cfgs[2].host_ip, 12);
    assert_eq!(cfgs[2].host_port, 6181);
}

#[test]
fn derive_validator_configs_rejects_length_mismatch() {
    let identities = vec![0xA, 0xB];
    let hosts = vec![(10, 6180)];
    let result = derive_validator_configs(&identities, &hosts, &Vec::new());
    assert_eq!(
        result.unwrap_err(),
        ConfigListError::HostCountMismatch { identities: 2, hosts: 1 }
    );
}
