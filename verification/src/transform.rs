//! The record transformer: applies operator directives (account drops, role
//! reassignment) to the record store in place, preserving record identity.

use vstd::prelude::*;
use crate::records::{
    LegacyAccountRecord, RecordStore, Role, addresses_unique, find_record_index, has_address,
    record_wf, store_wf,
};

verus! {

/// An operator-supplied set of account addresses to exclude from migration,
/// read-only once loaded and applied exactly once per run.
#[derive(Clone, Debug)]
pub struct DropDirective {
    pub addresses: Vec<u128>,
    /// Intent marker: keep the legacy address mapping for the dropped
    /// accounts rather than dropping it entirely. The exclusion semantics
    /// are the same either way; the intent travels with the directive.
    pub keep_legacy_mapping: bool,
}

/// Transformer-time referential or logic errors; each names the offender.
#[derive(Clone, Copy, Debug, PartialEq, Eq, Structural)]
pub enum TransformError {
    /// A directive or reassignment names an address no record carries.
    UnknownAddress { address: u128 },
    /// A role reassignment targets a dropped record; `Drop` is terminal.
    TerminalRoleViolation { address: u128 },
}

/// Record-level effect of a drop directive: identity (address, balances,
/// metadata) is preserved, and the role becomes `Drop` exactly on the
/// directive's addresses.
pub open spec fn dropped_record(
    r_old: LegacyAccountRecord,
    r_new: LegacyAccountRecord,
    addrs: Seq<u128>,
) -> bool {
    &&& r_new.address == r_old.address
    &&& r_new.balances@ == r_old.balances@
    &&& r_new.metadata@ == r_old.metadata@
    &&& r_new.role == (if r_old.address matches Some(a) && addrs.contains(a) {
        Role::Drop
    } else {
        r_old.role
    })
}

/// Store-level effect of a drop directive, record by record.
pub open spec fn drop_applied(
    s_old: Seq<LegacyAccountRecord>,
    s_new: Seq<LegacyAccountRecord>,
    addrs: Seq<u128>,
) -> bool {
    &&& s_new.len() == s_old.len()
    &&& forall|i: int| 0 <= i < s_old.len() ==> dropped_record(s_old[i], s_new[i], addrs)
}

/// True when every address the directive names resolves in the store.
pub open spec fn directive_resolves(s: Seq<LegacyAccountRecord>, addrs: Seq<u128>) -> bool {
    forall|k: int| 0 <= k < addrs.len() ==> has_address(s, addrs[k])
}

/// The index of the record carrying address `a`; with unique addresses this
/// is the one such index.
pub open spec fn index_of_address(s: Seq<LegacyAccountRecord>, a: u128) -> int {
    choose|i: int| 0 <= i < s.len() && s[i].address == Some(a)
}

/// With unique addresses, any index carrying `a` is `index_of_address`.
pub proof fn lemma_index_of_address_unique(s: Seq<LegacyAccountRecord>, a: u128, i: int)
    requires
        addresses_unique(s),
        0 <= i < s.len(),
        s[i].address == Some(a),
    ensures
        index_of_address(s, a) == i,
        has_address(s, a),
{
    assert(has_address(s, a));
    let j = index_of_address(s, a);
    assert(0 <= j < s.len() && s[j].address == Some(a));
    if i < j {
        assert(s[i].address->0 != s[j].address->0);
    } else if j < i {
        assert(s[j].address->0 != s[i].address->0);
    }
}

/// Marks every record the directive names as `Drop`, leaving every other
/// record and every record's identity untouched. Fails, changing nothing,
/// when a directive address does not resolve. Applying the same directive
/// twice has no further effect.
#[verifier::loop_isolation(false)]
pub fn apply_drop(store: &mut RecordStore, directive: &DropDirective) -> (r: Result<
    (),
    TransformError,
>)
    ensures
        r is Ok <==> directive_resolves(old(store)@, directive.addresses@),
        r is Ok ==> drop_applied(old(store)@, final(store)@, directive.addresses@),
        r matches Err(e) ==> {
            &&& final(store)@ == old(store)@
            &&& e matches TransformError::UnknownAddress { address }
            &&& e matches TransformError::UnknownAddress { address } ==> directive.addresses@.contains(
                address,
            ) && !has_address(old(store)@, address)
        },
        store_wf(old(store)@) ==> store_wf(final(store)@),
{
    let n_addrs = directive.addresses.len();
    let mut k: usize = 0;
    while k < n_addrs
        invariant
            k <= n_addrs,
            store@ == old(store)@,
            forall|l: int| 0 <= l < k ==> has_address(store@, directive.addresses@[l]),
        decreases n_addrs - k,
    {
        let a = directive.addresses[k];
        match find_record_index(&store.records, a) {
            Option::Some(_) => {},
            Option::None => {
                return Err(TransformError::UnknownAddress { address: a });
            },
        }
        k = k + 1;
    }
    let n = store.records.len();
    let mut i: usize = 0;
    while i < n
        invariant
            i <= n,
            n == store@.len(),
            store@.len() == old(store)@.len(),
            forall|l: int| i <= l < n ==> store@[l] == old(store)@[l],
            forall|l: int|
                0 <= l < i ==> dropped_record(old(store)@[l], store@[l], directive.addresses@),
        decreases n - i,
    {
        match store.records[i].address {
            Option::Some(a) => {
                if addr_list_contains(&directive.addresses, a) {
                    store.records[i].role = Role::Drop;
                }
            },
            Option::None => {},
        }
        i = i + 1;
    }
    proof {
        if store_wf(old(store)@) {
            assert forall|l: int| 0 <= l < store@.len() implies record_wf(store@[l]) by {
                assert(record_wf(old(store)@[l]));
            }
        }
    }
    Ok(())
}

/// True exactly when `v` holds `a`.
pub fn addr_list_contains(v: &Vec<u128>, a: u128) -> (r: bool)
    ensures
        r == v@.contains(a),
{
    let n = v.len();
    let mut i: usize = 0;
    while i < n
        invariant
            i <= n,
            n == v@.len(),
            forall|k: int| 0 <= k < i ==> v@[k] != a,
        decreases n - i,
    {
        if v[i] == a {
            return true;
        }
        i = i + 1;
    }
    assert(!v@.contains(a));
    false
}

/// Reassigns one record's role, used when constructing validator and
/// operator roles from an external validator list. Fails with
/// `UnknownAddress` when no record carries the address, and with
/// `TerminalRoleViolation` when the record is dropped — `Drop` is terminal,
/// so a dropped account can never silently reappear. On failure the store
/// is unchanged.
pub fn assign_role(store: &mut RecordStore, address: u128, role: Role) -> (r: Result<
    (),
    TransformError,
>)
    requires
        store_wf(old(store)@),
    ensures
        store_wf(final(store)@),
        r is Ok <==> has_address(old(store)@, address) && old(store)@[index_of_address(
            old(store)@,
            address,
        )].role != Role::Drop,
        r is Ok ==> ({
            let idx = index_of_address(old(store)@, address);
            &&& final(store)@.len() == old(store)@.len()
            &&& forall|i: int|
                0 <= i < old(store)@.len() && i != idx ==> final(store)@[i] == old(store)@[i]
            &&& final(store)@[idx].address == old(store)@[idx].address
            &&& final(store)@[idx].role == role
            &&& final(store)@[idx].balances@ == old(store)@[idx].balances@
            &&& final(store)@[idx].metadata@ == old(store)@[idx].metadata@
        }),
        r matches Err(e) ==> {
            &&& final(store)@ == old(store)@
            &&& (e matches TransformError::UnknownAddress { address: a } ==> a == address
                && !has_address(old(store)@, address))
            &&& (e matches TransformError::TerminalRoleViolation { address: a } ==> a == address
                && has_address(old(store)@, address) && old(store)@[index_of_address(
                old(store)@,
                address,
            )].role == Role::Drop)
        },
{
    match find_record_index(&store.records, address) {
        Option::Some(i) => {
            proof {
                lemma_index_of_address_unique(store@, address, i as int);
            }
            if store.records[i].role == Role::Drop {
                Err(TransformError::TerminalRoleViolation { address })
            } else {
                store.records[i].role = role;
                proof {
                    assert forall|l: int|
                        0 <= l < store@.len() implies record_wf(store@[l]) by {
                        assert(record_wf(old(store)@[l]));
                    }
                }
                Ok(())
            }
        },
        Option::None => Err(TransformError::UnknownAddress { address }),
    }
}

} // verus!
