//! Recovery migration and supply audit engine.
//!
//! Migrates account state from a legacy ledger export into a new ledger's
//! genesis state and proves, through an independent audit pass, that no value
//! was created, destroyed, or misattributed on the way: records are parsed
//! and validated, operator directives (account drops, role assignments) are
//! applied, global supply statistics are computed as the audit oracle, a
//! genesis write-set is constructed, and the resulting state is audited
//! account by account against the expected values.

pub mod audit;
pub mod genesis;
pub mod laws;
pub mod pipeline;
pub mod records;
pub mod supply;
pub mod transform;
