//! The whole migration run in one call: supply, construction, bootstrap,
//! audit. A faithful end-to-end run provably audits clean, so the one
//! discrepancy list this returns is empty by construction.

use vstd::prelude::*;
use crate::audit::{
    audit, bootstrap, AuditDiscrepancy, AuditError, onchain_sum,
};
use crate::genesis::{
    all_configs_resolve, all_validators_configured, build, ChainId, ConstructionError,
    emitted_with_address, has_cfg, validator_record, ValidatorConfiguration,
};
use crate::laws::{lemma_audit_soundness, lemma_onchain_matches};
use crate::records::{RecordStore, store_wf};
use crate::supply::{supply_sum, SupplyError};

verus! {

/// Why a migration run aborted; no partial genesis or partial report is
/// ever treated as valid.
#[derive(Clone, Copy, Debug, PartialEq, Eq, Structural)]
pub enum MigrationError {
    Supply(SupplyError),
    Construction(ConstructionError),
    /// The audit stage cannot fail on a faithful run: the chain identifier
    /// is threaded through, and the re-summed supply is the computed
    /// supply, which fits. The variant only carries an impossibility.
    Audit(AuditError),
}

/// Runs the migration end to end on a transformed store: computes the
/// supply oracle, constructs the genesis transaction, bootstraps a state
/// reader from it, and audits the result against the same store and
/// oracle. Succeeds exactly when every coin kind's supply fits in 128 bits
/// and the validator set joins cleanly — and then the audit report is
/// provably empty: the migration created, destroyed, and misattributed
/// nothing.
pub fn migrate_and_audit(
    store: &RecordStore,
    validator_configs: &Vec<ValidatorConfiguration>,
    chain: ChainId,
) -> (r: Result<Vec<AuditDiscrepancy>, MigrationError>)
    requires
        store_wf(store@),
        crate::genesis::configs_unique(validator_configs@),
    ensures
        r is Ok <==> (forall|coin: u64| supply_sum(store@, coin) <= u128::MAX)
            && all_configs_resolve(store@, validator_configs@) && all_validators_configured(
            store@,
            validator_configs@,
        ),
        r matches Ok(discs) ==> discs@ == Seq::<AuditDiscrepancy>::empty(),
        r matches Err(e) ==> match e {
            MigrationError::Supply(se) => se matches SupplyError::SupplyOverflow { coin }
                && supply_sum(store@, coin) > u128::MAX,
            MigrationError::Construction(ce) => match ce {
                ConstructionError::OrphanValidatorConfig { address } => has_cfg(
                    validator_configs@,
                    address,
                ) && !emitted_with_address(store@, address),
                ConstructionError::UnmatchedValidator { address } => exists|i: int|
                    0 <= i < store@.len() && validator_record(#[trigger] store@[i]) && store@[
                        i
                    ].address == Some(address) && !has_cfg(validator_configs@, address),
                ConstructionError::SupplyInvariantBroken { .. } => false,
            },
            MigrationError::Audit(..) => false,
        },
{
    let stats = match crate::supply::compute(store) {
        Result::Ok(stats) => stats,
        Result::Err(e) => {
            return Err(MigrationError::Supply(e));
        },
    };
    let tx = match build(store, validator_configs, chain) {
        Result::Ok(tx) => tx,
        Result::Err(e) => {
            return Err(MigrationError::Construction(e));
        },
    };
    let reader = bootstrap(&tx);
    match audit(store, &stats, &reader, chain) {
        Result::Ok(discs) => {
            proof {
                lemma_audit_soundness(store@, tx.writes@, reader.accounts@, stats.totals@);
            }
            Ok(discs)
        },
        Result::Err(e) => {
            proof {
                match e {
                    AuditError::ChainMismatch { .. } => {
                        assert(false);
                    },
                    AuditError::SupplyOverflow { coin } => {
                        lemma_onchain_matches(
                            store@,
                            tx.writes@,
                            reader.accounts@,
                            coin,
                            store@.len() as int,
                        );
                        assert(store@.take(store@.len() as int) =~= store@);
                        assert(onchain_sum(store@, reader.accounts@, coin) == supply_sum(
                            store@,
                            coin,
                        ));
                        assert(false);
                    },
                }
            }
            Err(MigrationError::Audit(e))
        },
    }
}

} // verus!
