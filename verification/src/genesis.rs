//! The genesis constructor: consumes the transformed record store plus a
//! validator set and chain identifier and emits a single genesis transaction
//! whose write-set establishes equivalent account state in the new ledger.
//! The supply implied by the emitted writes provably equals the supply
//! computed over the store, coin kind by coin kind.

use vstd::prelude::*;
use crate::records::{
    CoinAmount, LegacyAccountRecord, RecordStore, Role, amount_in, record_wf, store_wf,
};
use crate::supply::{record_contribution, supply_sum};

verus! {

/// The network tag threaded through construction and audit.
#[derive(Clone, Copy, Debug, PartialEq, Eq, Structural)]
pub enum ChainId {
    Mainnet,
    Testnet,
    Testing,
}

/// One entry per validator participating in the new network, cross-referenced
/// into the constructor by account address.
#[derive(Clone, Copy, Debug, PartialEq, Eq, Structural)]
pub struct ValidatorConfiguration {
    /// The account address this configuration is keyed by.
    pub address: u128,
    pub host_ip: u32,
    pub host_port: u16,
    /// Whether the account retains its original legacy address rather than
    /// being assigned fresh.
    pub keep_legacy_address: bool,
}

/// One account-creation/state-initialization write of the genesis
/// transaction, carrying the account's balances and role-derived marker.
#[derive(Clone, Debug)]
pub struct AccountWrite {
    pub address: u128,
    pub role_marker: Role,
    pub balances: Vec<CoinAmount>,
}

/// One validator-set membership write, keyed by the matching configuration.
#[derive(Clone, Copy, Debug, PartialEq, Eq, Structural)]
pub struct ValidatorMembership {
    pub address: u128,
    pub host_ip: u32,
    pub host_port: u16,
}

/// The constructed genesis transaction: a write-set plus chain identifier
/// and a monotonic sequence marker. Immutable once handed to the
/// bootstrapper.
#[derive(Clone, Debug)]
pub struct GenesisTransaction {
    pub chain_id: ChainId,
    /// Genesis is the first transaction of the new ledger.
    pub sequence: u64,
    pub writes: Vec<AccountWrite>,
    pub validator_set: Vec<ValidatorMembership>,
}

/// Construction failures; all are fatal, since an unproven genesis
/// transaction must never be handed to the bootstrapper.
#[derive(Clone, Copy, Debug, PartialEq, Eq, Structural)]
pub enum ConstructionError {
    /// A non-Drop validator record has no matching configuration.
    UnmatchedValidator { address: u128 },
    /// A configuration matches no non-Drop record of the store.
    OrphanValidatorConfig { address: u128 },
    /// The supply implied by the writes would differ from the supply
    /// computed over the store. `build` proves the identity statically, so
    /// it never returns this variant; it remains in the taxonomy for
    /// callers that propagate construction failures.
    SupplyInvariantBroken { coin: u64 },
}

/// A record that produces an account write: non-Drop and addressed.
pub open spec fn emitted(r: LegacyAccountRecord) -> bool {
    !(r.role is Drop) && r.address is Some
}

/// A record that additionally produces a validator-set membership write.
pub open spec fn validator_record(r: LegacyAccountRecord) -> bool {
    emitted(r) && r.role is Validator
}

/// The write an emitted record produces.
pub open spec fn write_of_record(r: LegacyAccountRecord, w: AccountWrite) -> bool {
    &&& r.address == Some(w.address)
    &&& w.role_marker == r.role
    &&& w.balances@ == r.balances@
}

/// The write-set is exactly one write per emitted record, in store order.
pub open spec fn writes_match(s: Seq<LegacyAccountRecord>, ws: Seq<AccountWrite>) -> bool
    decreases s.len(),
{
    if s.len() == 0 {
        ws.len() == 0
    } else if emitted(s.last()) {
        &&& ws.len() > 0
        &&& write_of_record(s.last(), ws.last())
        &&& writes_match(s.drop_last(), ws.drop_last())
    } else {
        writes_match(s.drop_last(), ws)
    }
}

/// Some configuration is keyed by address `a`.
pub open spec fn has_cfg(cfgs: Seq<ValidatorConfiguration>, a: u128) -> bool {
    exists|k: int| 0 <= k < cfgs.len() && cfgs[k].address == a
}

/// Configuration addresses are pairwise distinct: each validator identity
/// maps to exactly one host.
pub open spec fn configs_unique(cfgs: Seq<ValidatorConfiguration>) -> bool {
    forall|i: int, j: int| 0 <= i < j < cfgs.len() ==> cfgs[i].address != cfgs[j].address
}

/// The index of the configuration keyed by `a`; with unique addresses this
/// is the one such index.
pub open spec fn cfg_index_of(cfgs: Seq<ValidatorConfiguration>, a: u128) -> int {
    choose|k: int| 0 <= k < cfgs.len() && cfgs[k].address == a
}

pub proof fn lemma_cfg_index_unique(cfgs: Seq<ValidatorConfiguration>, a: u128, k: int)
    requires
        configs_unique(cfgs),
        0 <= k < cfgs.len(),
        cfgs[k].address == a,
    ensures
        cfg_index_of(cfgs, a) == k,
        has_cfg(cfgs, a),
{
    assert(has_cfg(cfgs, a));
}

/// The membership write a validator record produces, keyed by its matching
/// configuration.
pub open spec fn membership_of(
    r: LegacyAccountRecord,
    cfgs: Seq<ValidatorConfiguration>,
    m: ValidatorMembership,
) -> bool {
    let a = r.address->0;
    &&& m.address == a
    &&& has_cfg(cfgs, a)
    &&& m.host_ip == cfgs[cfg_index_of(cfgs, a)].host_ip
    &&& m.host_port == cfgs[cfg_index_of(cfgs, a)].host_port
}

/// The validator set is exactly one membership per non-Drop validator
/// record, in store order.
pub open spec fn memberships_match(
    s: Seq<LegacyAccountRecord>,
    cfgs: Seq<ValidatorConfiguration>,
    ms: Seq<ValidatorMembership>,
) -> bool
    decreases s.len(),
{
    if s.len() == 0 {
        ms.len() == 0
    } else if validator_record(s.last()) {
        &&& ms.len() > 0
        &&& membership_of(s.last(), cfgs, ms.last())
        &&& memberships_match(s.drop_last(), cfgs, ms.drop_last())
    } else {
        memberships_match(s.drop_last(), cfgs, ms)
    }
}

/// Some non-Drop record of `s` carries address `a`.
pub open spec fn emitted_with_address(s: Seq<LegacyAccountRecord>, a: u128) -> bool {
    exists|i: int| 0 <= i < s.len() && s[i].address == Some(a) && !(s[i].role is Drop)
}

/// Every configuration resolves to a non-Drop record of the store.
pub open spec fn all_configs_resolve(
    s: Seq<LegacyAccountRecord>,
    cfgs: Seq<ValidatorConfiguration>,
) -> bool {
    forall|k: int| 0 <= k < cfgs.len() ==> emitted_with_address(s, cfgs[k].address)
}

/// Every non-Drop validator record has a configuration.
pub open spec fn all_validators_configured(
    s: Seq<LegacyAccountRecord>,
    cfgs: Seq<ValidatorConfiguration>,
) -> bool {
    forall|i: int|
        0 <= i < s.len() && validator_record(#[trigger] s[i]) ==> has_cfg(cfgs, s[i].address->0)
}

/// The supply in `coin` implied by a write-set.
pub open spec fn write_sum(ws: Seq<AccountWrite>, coin: u64) -> int
    decreases ws.len(),
{
    if ws.len() == 0 {
        0
    } else {
        write_sum(ws.drop_last(), coin) + amount_in(ws.last().balances@, coin)
    }
}

/// Supply conservation: for any well-formed record store, the supply implied
/// by the genesis write-set equals the supply computed over the store, for
/// every coin kind. Dropped records are excluded from both sides, and a
/// synthetic record (no address) carries no balances, so nothing is created,
/// destroyed, or misattributed on the way into genesis.
pub proof fn lemma_supply_conservation(
    s: Seq<LegacyAccountRecord>,
    ws: Seq<AccountWrite>,
    coin: u64,
)
    requires
        writes_match(s, ws),
        forall|i: int| 0 <= i < s.len() ==> record_wf(#[trigger] s[i]),
    ensures
        write_sum(ws, coin) == supply_sum(s, coin),
    decreases s.len(),
{
    if s.len() == 0 {
    } else {
        assert(forall|i: int|
            0 <= i < s.drop_last().len() ==> record_wf(#[trigger] s.drop_last()[i]));
        if emitted(s.last()) {
            lemma_supply_conservation(s.drop_last(), ws.drop_last(), coin);
            assert(record_contribution(s.last(), coin) == amount_in(ws.last().balances@, coin));
        } else {
            lemma_supply_conservation(s.drop_last(), ws, coin);
            if !(s.last().role is Drop) {
                assert(record_wf(s[s.len() - 1]));
                assert(s.last().balances@.len() == 0);
                assert(record_contribution(s.last(), coin) == 0);
            }
        }
    }
}

/// Finds a non-Drop record carrying `a`, if any.
fn find_emitted_index(records: &Vec<LegacyAccountRecord>, a: u128) -> (r: Option<usize>)
    ensures
        r matches Some(i) ==> i < records@.len() && records@[i as int].address == Some(a) && !(
        records@[i as int].role is Drop),
        r is None ==> !emitted_with_address(records@, a),
{
    let n = records.len();
    let mut i: usize = 0;
    while i < n
        invariant
            i <= n,
            n == records@.len(),
            forall|k: int|
                0 <= k < i ==> !((#[trigger] records@[k]).address == Some(a) && !(records@[k].role
                    is Drop)),
        decreases n - i,
    {
        match records[i].address {
            Option::Some(addr) => {
                if addr == a && records[i].role != Role::Drop {
                    return Some(i);
                }
            },
            Option::None => {},
        }
        i = i + 1;
    }
    None
}

/// Finds the configuration keyed by `a`, if any.
fn find_config_index(cfgs: &Vec<ValidatorConfiguration>, a: u128) -> (r: Option<usize>)
    ensures
        r matches Some(k) ==> k < cfgs@.len() && cfgs@[k as int].address == a,
        r is None ==> !has_cfg(cfgs@, a),
{
    let n = cfgs.len();
    let mut k: usize = 0;
    while k < n
        invariant
            k <= n,
            n == cfgs@.len(),
            forall|l: int| 0 <= l < k ==> cfgs@[l].address != a,
        decreases n - k,
    {
        if cfgs[k].address == a {
            return Some(k);
        }
        k = k + 1;
    }
    None
}

/// Constructs the genesis transaction from the transformed store: one
/// account write per non-Drop addressed record, carrying its balances and
/// role marker, plus one validator-set membership per non-Drop validator
/// record, keyed by the matching configuration (an explicit join by
/// address). Fails when a configuration matches no non-Drop record
/// (`OrphanValidatorConfig`) or a non-Drop validator record has no
/// configuration (`UnmatchedValidator`); nothing is silently skipped. The
/// write-set's supply provably equals the store's supply for every coin
/// kind, so the emitted transaction always satisfies the construction-time
/// supply self-check.
#[verifier::loop_isolation(false)]
pub fn build(
    store: &RecordStore,
    validator_configs: &Vec<ValidatorConfiguration>,
    chain_id: ChainId,
) -> (r: Result<GenesisTransaction, ConstructionError>)
    requires
        store_wf(store@),
        configs_unique(validator_configs@),
    ensures
        r is Ok <==> all_configs_resolve(store@, validator_configs@) && all_validators_configured(
            store@,
            validator_configs@,
        ),
        r matches Ok(tx) ==> {
            &&& tx.chain_id == chain_id
            &&& tx.sequence == 0
            &&& writes_match(store@, tx.writes@)
            &&& memberships_match(store@, validator_configs@, tx.validator_set@)
            &&& forall|coin: u64|
                #![trigger write_sum(tx.writes@, coin)]
                write_sum(tx.writes@, coin) == supply_sum(store@, coin)
        },
        r matches Err(e) ==> match e {
            ConstructionError::OrphanValidatorConfig { address } => has_cfg(
                validator_configs@,
                address,
            ) && !emitted_with_address(store@, address),
            ConstructionError::UnmatchedValidator { address } => exists|i: int|
                0 <= i < store@.len() && validator_record(#[trigger] store@[i]) && store@[
                    i
                ].address == Some(address) && !has_cfg(validator_configs@, address),
            ConstructionError::SupplyInvariantBroken { .. } => false,
        },
{
    let n_cfgs = validator_configs.len();
    let mut k: usize = 0;
    while k < n_cfgs
        invariant
            k <= n_cfgs,
            forall|l: int|
                0 <= l < k ==> emitted_with_address(store@, validator_configs@[l].address),
        decreases n_cfgs - k,
    {
        let a = validator_configs[k].address;
        match find_emitted_index(&store.records, a) {
            Option::Some(_) => {},
            Option::None => {
                return Err(ConstructionError::OrphanValidatorConfig { address: a });
            },
        }
        k = k + 1;
    }
    let n = store.records.len();
    let mut writes: Vec<AccountWrite> = Vec::new();
    let mut validator_set: Vec<ValidatorMembership> = Vec::new();
    let mut i: usize = 0;
    while i < n
        invariant
            i <= n,
            n == store@.len(),
            writes_match(store@.take(i as int), writes@),
            memberships_match(store@.take(i as int), validator_configs@, validator_set@),
            forall|l: int|
                0 <= l < i && validator_record(#[trigger] store@[l]) ==> has_cfg(
                    validator_configs@,
                    store@[l].address->0,
                ),
        decreases n - i,
    {
        let rec = &store.records[i];
        let ghost prefix = store@.take(i as int);
        let ghost prev_writes = writes@;
        let ghost prev_ms = validator_set@;
        proof {
            assert(store@.take(i + 1).drop_last() =~= prefix);
            assert(store@.take(i + 1).last() == store@[i as int]);
        }
        if rec.role != Role::Drop {
            match rec.address {
                Option::Some(a) => {
                    writes.push(
                        AccountWrite {
                            address: a,
                            role_marker: rec.role,
                            balances: rec.balances.clone(),
                        },
                    );
                    if rec.role == Role::Validator {
                        match find_config_index(validator_configs, a) {
                            Option::Some(c) => {
                                proof {
                                    lemma_cfg_index_unique(validator_configs@, a, c as int);
                                }
                                validator_set.push(
                                    ValidatorMembership {
                                        address: a,
                                        host_ip: validator_configs[c].host_ip,
                                        host_port: validator_configs[c].host_port,
                                    },
                                );
                            },
                            Option::None => {
                                return Err(
                                    ConstructionError::UnmatchedValidator { address: a },
                                );
                            },
                        }
                    }
                },
                Option::None => {},
            }
        }
        proof {
            let s_i = store@[i as int];
            if emitted(s_i) {
                assert(writes@.drop_last() =~= prev_writes);
                assert(write_of_record(s_i, writes@.last()));
                if validator_record(s_i) {
                    assert(validator_set@.drop_last() =~= prev_ms);
                    assert(membership_of(s_i, validator_configs@, validator_set@.last()));
                } else {
                    assert(validator_set@ == prev_ms);
                }
            } else {
                assert(writes@ == prev_writes);
                assert(validator_set@ == prev_ms);
            }
            assert(writes_match(store@.take(i + 1), writes@));
            assert(memberships_match(store@.take(i + 1), validator_configs@, validator_set@));
        }
        i = i + 1;
    }
    proof {
        assert(store@.take(n as int) =~= store@);
        assert forall|coin: u64| #![trigger write_sum(writes@, coin)]
            write_sum(writes@, coin) == supply_sum(store@, coin) by {
            lemma_supply_conservation(store@, writes@, coin);
        }
    }
    Ok(GenesisTransaction { chain_id, sequence: 0, writes, validator_set })
}

/// Error of deriving validator configurations from the operator's lists.
#[derive(Clone, Copy, Debug, PartialEq, Eq, Structural)]
pub enum ConfigListError {
    /// The identity and host lists disagree in length, so some entry would
    /// be silently skipped; that is always an error here.
    HostCountMismatch { identities: usize, hosts: usize },
}

/// Derives one validator configuration per listed validator: identity `k`
/// is paired with host `k` and keeps its legacy address exactly when the
/// keep list names it. Fails when the identity and host lists disagree in
/// length rather than skipping anyone.
#[verifier::loop_isolation(false)]
pub fn derive_validator_configs(
    identities: &Vec<u128>,
    hosts: &Vec<(u32, u16)>,
    keep_legacy: &Vec<u128>,
) -> (r: Result<Vec<ValidatorConfiguration>, ConfigListError>)
    ensures
        r is Ok <==> identities@.len() == hosts@.len(),
        r matches Ok(cfgs) ==> {
            &&& cfgs@.len() == identities@.len()
            &&& forall|k: int| 0 <= k < cfgs@.len() ==> {
                &&& (#[trigger] cfgs@[k]).address == identities@[k]
                &&& cfgs@[k].host_ip == hosts@[k].0
                &&& cfgs@[k].host_port == hosts@[k].1
                &&& cfgs@[k].keep_legacy_address == keep_legacy@.contains(identities@[k])
            }
        },
        r matches Err(e) ==> e matches ConfigListError::HostCountMismatch {
            identities: ni,
            hosts: nh,
        } && ni == identities@.len() && nh == hosts@.len() && ni != nh,
{
    let n = identities.len();
    if n != hosts.len() {
        return Err(ConfigListError::HostCountMismatch { identities: n, hosts: hosts.len() });
    }
    let mut cfgs: Vec<ValidatorConfiguration> = Vec::new();
    let mut k: usize = 0;
    while k < n
        invariant
            k <= n,
            n == identities@.len(),
            n == hosts@.len(),
            cfgs@.len() == k,
            forall|l: int| 0 <= l < k ==> {
                &&& (#[trigger] cfgs@[l]).address == identities@[l]
                &&& cfgs@[l].host_ip == hosts@[l].0
                &&& cfgs@[l].host_port == hosts@[l].1
                &&& cfgs@[l].keep_legacy_address == keep_legacy@.contains(identities@[l])
            },
        decreases n - k,
    {
        let keep = crate::transform::addr_list_contains(keep_legacy, identities[k]);
        let host = hosts[k];
        cfgs.push(
            ValidatorConfiguration {
                address: identities[k],
                host_ip: host.0,
                host_port: host.1,
                keep_legacy_address: keep,
            },
        );
        k = k + 1;
    }
    Ok(cfgs)
}

} // verus!
