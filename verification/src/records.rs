//! The recovery record store: legacy account records, their well-formedness,
//! and the validating parser that builds the store from raw export entries.

use vstd::prelude::*;

verus! {

/// The role a legacy account carries through migration. `Drop` is terminal:
/// a dropped account is excluded from all downstream supply and genesis
/// computations but remains in the store for audit traceability.
#[derive(Clone, Copy, Debug, PartialEq, Eq, Structural)]
pub enum Role {
    Validator,
    Operator,
    Holder,
    Drop,
}

/// One balance entry: an exact non-negative amount of one coin kind.
#[derive(Clone, Copy, Debug, PartialEq, Eq, Structural)]
pub struct CoinAmount {
    pub coin: u64,
    pub amount: u128,
}

/// One legacy account record as exported from the prior ledger.
#[derive(Clone, Debug)]
pub struct LegacyAccountRecord {
    /// Absent only for synthetic placeholder entries, which carry no balances.
    pub address: Option<u128>,
    pub role: Role,
    /// Mapping from coin kind to amount, kept as an entry list with
    /// pairwise-distinct coin kinds.
    pub balances: Vec<CoinAmount>,
    /// Auxiliary legacy annotation bytes; never affect supply.
    pub metadata: Vec<u8>,
}

/// The in-memory ordered collection of legacy account records: the shared
/// substrate every later stage reads or transforms.
#[derive(Clone, Debug)]
pub struct RecordStore {
    pub records: Vec<LegacyAccountRecord>,
}

impl View for RecordStore {
    type V = Seq<LegacyAccountRecord>;

    open spec fn view(&self) -> Seq<LegacyAccountRecord> {
        self.records@
    }
}

/// True when `bals` holds an entry for `coin`.
pub open spec fn has_coin(bals: Seq<CoinAmount>, coin: u64) -> bool {
    exists|i: int| 0 <= i < bals.len() && bals[i].coin == coin
}

/// Coin kinds are pairwise distinct, so an entry list denotes a mapping.
pub open spec fn coins_unique(bals: Seq<CoinAmount>) -> bool {
    forall|i: int, j: int| 0 <= i < j < bals.len() ==> bals[i].coin != bals[j].coin
}

/// The total amount the entries of `bals` hold in `coin`.
pub open spec fn amount_in(bals: Seq<CoinAmount>, coin: u64) -> int
    decreases bals.len(),
{
    if bals.len() == 0 {
        0
    } else {
        amount_in(bals.drop_last(), coin) + if bals.last().coin == coin {
            bals.last().amount as int
        } else {
            0
        }
    }
}

/// A single record is well formed: its balances denote a mapping, and a
/// synthetic entry (no address) carries no balances.
pub open spec fn record_wf(r: LegacyAccountRecord) -> bool {
    &&& coins_unique(r.balances@)
    &&& (r.address is None ==> r.balances@.len() == 0)
}

/// Addresses, where present, are pairwise distinct.
pub open spec fn addresses_unique(s: Seq<LegacyAccountRecord>) -> bool {
    forall|i: int, j: int|
        0 <= i < j < s.len() && s[i].address is Some && s[j].address is Some
            ==> s[i].address->0 != s[j].address->0
}

/// The store invariant every stage preserves.
pub open spec fn store_wf(s: Seq<LegacyAccountRecord>) -> bool {
    &&& (forall|i: int| 0 <= i < s.len() ==> record_wf(s[i]))
    &&& addresses_unique(s)
}

/// Some record of `s` carries address `a`.
pub open spec fn has_address(s: Seq<LegacyAccountRecord>, a: u128) -> bool {
    exists|i: int| 0 <= i < s.len() && s[i].address == Some(a)
}

/// One record as it stands in the export before validation: the optional
/// address, the raw role tag, and signed raw amounts exactly as read.
#[derive(Clone, Debug)]
pub struct RawRecord {
    pub address: Option<u128>,
    pub role_tag: u8,
    pub balances: Vec<RawBalance>,
    pub metadata: Vec<u8>,
}

/// One raw balance entry; the amount is still signed, since the export may
/// hold a negative value that validation must reject.
#[derive(Clone, Copy, Debug, PartialEq, Eq, Structural)]
pub struct RawBalance {
    pub coin: u64,
    pub amount: i128,
}

pub const ROLE_TAG_VALIDATOR: u8 = 0;

pub const ROLE_TAG_OPERATOR: u8 = 1;

pub const ROLE_TAG_HOLDER: u8 = 2;

pub const ROLE_TAG_DROP: u8 = 3;

/// The tag is one of the closed set of recognized role tags.
pub open spec fn tag_known(tag: u8) -> bool {
    tag == ROLE_TAG_VALIDATOR || tag == ROLE_TAG_OPERATOR || tag == ROLE_TAG_HOLDER
        || tag == ROLE_TAG_DROP
}

/// The role a recognized tag denotes.
pub open spec fn spec_role_of_tag(tag: u8) -> Role {
    if tag == ROLE_TAG_VALIDATOR {
        Role::Validator
    } else if tag == ROLE_TAG_OPERATOR {
        Role::Operator
    } else if tag == ROLE_TAG_HOLDER {
        Role::Holder
    } else {
        Role::Drop
    }
}

/// Raw balances are valid: no negative amount and no repeated coin kind.
pub open spec fn raw_balances_valid(bals: Seq<RawBalance>) -> bool {
    &&& (forall|i: int| 0 <= i < bals.len() ==> bals[i].amount >= 0)
    &&& (forall|i: int, j: int| 0 <= i < j < bals.len() ==> bals[i].coin != bals[j].coin)
}

/// A raw record is valid: recognized role tag, valid balances, and an
/// address wherever the record carries any balance.
pub open spec fn raw_record_valid(r: RawRecord) -> bool {
    &&& tag_known(r.role_tag)
    &&& raw_balances_valid(r.balances@)
    &&& (r.address is None ==> r.balances@.len() == 0)
}

/// The whole raw export is valid: every record is, and no address repeats.
pub open spec fn raw_valid(rs: Seq<RawRecord>) -> bool {
    &&& (forall|i: int| 0 <= i < rs.len() ==> raw_record_valid(rs[i]))
    &&& (forall|i: int, j: int|
        0 <= i < j < rs.len() && rs[i].address is Some && rs[j].address is Some
            ==> rs[i].address->0 != rs[j].address->0)
}

/// The balance entry a valid raw entry parses to.
pub open spec fn parsed_balance(b: RawBalance) -> CoinAmount {
    CoinAmount { coin: b.coin, amount: b.amount as u128 }
}

/// The balance list a valid raw balance list parses to.
pub open spec fn parsed_balances(bals: Seq<RawBalance>) -> Seq<CoinAmount> {
    bals.map_values(|b: RawBalance| parsed_balance(b))
}

/// Why parsing the export failed; every variant names the offender.
#[derive(Clone, Copy, Debug, PartialEq, Eq, Structural)]
pub enum MalformedInput {
    /// A record carries balances but no address.
    MissingAddress { index: usize },
    /// A record's role tag is outside the recognized set.
    UnknownRoleTag { index: usize, tag: u8 },
    /// A balance amount is negative.
    NegativeAmount { index: usize, coin: u64 },
    /// One record lists the same coin kind twice.
    DuplicateCoin { index: usize, coin: u64 },
    /// Two records carry the same address.
    DuplicateAddress { address: u128 },
}

/// Maps a raw role tag to its role; `None` exactly on unrecognized tags.
pub fn role_of_tag(tag: u8) -> (r: Option<Role>)
    ensures
        r is Some <==> tag_known(tag),
        r is Some ==> r->0 == spec_role_of_tag(tag),
{
    if tag == ROLE_TAG_VALIDATOR {
        Some(Role::Validator)
    } else if tag == ROLE_TAG_OPERATOR {
        Some(Role::Operator)
    } else if tag == ROLE_TAG_HOLDER {
        Some(Role::Holder)
    } else if tag == ROLE_TAG_DROP {
        Some(Role::Drop)
    } else {
        None
    }
}

/// Finds the index of the record carrying `address`, if any.
pub fn find_record_index(records: &Vec<LegacyAccountRecord>, address: u128) -> (r: Option<
    usize,
>)
    ensures
        r matches Some(i) ==> i < records@.len() && records@[i as int].address == Some(address),
        r is None ==> !has_address(records@, address),
{
    let n = records.len();
    let mut i: usize = 0;
    while i < n
        invariant
            n == records@.len(),
            i <= n,
            forall|k: int| 0 <= k < i ==> records@[k].address != Some(address),
        decreases n - i,
    {
        match records[i].address {
            Option::Some(a) => {
                if a == address {
                    return Some(i);
                }
            },
            Option::None => {},
        }
        i = i + 1;
    }
    None
}

/// Validates one raw balance list and converts it, reporting the first
/// negative amount or repeated coin kind against record `index`.
#[verifier::loop_isolation(false)]
fn parse_balances(bals: &Vec<RawBalance>, index: usize) -> (r: Result<
    Vec<CoinAmount>,
    MalformedInput,
>)
    ensures
        r matches Ok(out) ==> {
            &&& raw_balances_valid(bals@)
            &&& out@ =~= parsed_balances(bals@)
        },
        r is Ok <==> raw_balances_valid(bals@),
        r matches Err(e) ==> match e {
            MalformedInput::NegativeAmount { index: idx, coin } => idx == index && exists|k: int|
                0 <= k < bals@.len() && bals@[k].coin == coin && bals@[k].amount < 0,
            MalformedInput::DuplicateCoin { index: idx, coin } => idx == index && exists|
                k: int,
                l: int,
            | 0 <= k < l < bals@.len() && bals@[k].coin == coin && bals@[l].coin == coin,
            _ => false,
        },
{
    let n = bals.len();
    let mut out: Vec<CoinAmount> = Vec::new();
    let mut j: usize = 0;
    while j < n
        invariant
            n == bals@.len(),
            j <= n,
            out@ =~= parsed_balances(bals@.take(j as int)),
            forall|k: int| 0 <= k < j ==> bals@[k].amount >= 0,
            forall|k: int, l: int| 0 <= k < l < j ==> bals@[k].coin != bals@[l].coin,
        decreases n - j,
    {
        let b = bals[j];
        if b.amount < 0 {
            return Err(MalformedInput::NegativeAmount { index, coin: b.coin });
        }
        let mut k: usize = 0;
        while k < j
            invariant
                k <= j,
                b == bals@[j as int],
                forall|l: int| 0 <= l < k ==> bals@[l].coin != bals@[j as int].coin,
            decreases j - k,
        {
            if bals[k].coin == b.coin {
                assert(bals@[k as int].coin == b.coin && bals@[j as int].coin == b.coin && k < j);
                assert(!raw_balances_valid(bals@));
                return Err(MalformedInput::DuplicateCoin { index, coin: b.coin });
            }
            k = k + 1;
        }
        out.push(CoinAmount { coin: b.coin, amount: b.amount as u128 });
        assert(out@ =~= parsed_balances(bals@.take(j + 1)));
        j = j + 1;
    }
    assert(bals@.take(n as int) =~= bals@);
    Ok(out)
}

/// Parses and validates the raw export into a well-formed record store,
/// preserving input order and every record's identity. Fails with
/// `MalformedInput` exactly when some record has balances but no address, an
/// unrecognized role tag, a negative amount, a repeated coin kind, or an
/// address that another record already carries.
#[verifier::loop_isolation(false)]
pub fn parse(raw: &Vec<RawRecord>) -> (r: Result<RecordStore, MalformedInput>)
    ensures
        r is Ok <==> raw_valid(raw@),
        r matches Ok(store) ==> {
            &&& store_wf(store@)
            &&& store@.len() == raw@.len()
            &&& forall|i: int| 0 <= i < raw@.len() ==> {
                &&& (#[trigger] store@[i]).address == raw@[i].address
                &&& store@[i].role == spec_role_of_tag(raw@[i].role_tag)
                &&& store@[i].balances@ =~= parsed_balances(raw@[i].balances@)
                &&& store@[i].metadata@ == raw@[i].metadata@
            }
        },
        r matches Err(e) ==> match e {
            MalformedInput::MissingAddress { index } => index < raw@.len()
                && raw@[index as int].address is None && raw@[index as int].balances@.len() > 0,
            MalformedInput::UnknownRoleTag { index, tag } => index < raw@.len() && tag == raw@[
                index as int
            ].role_tag && !tag_known(tag),
            MalformedInput::NegativeAmount { index, coin } => index < raw@.len() && exists|k: int|
                0 <= k < raw@[index as int].balances@.len() && raw@[index as int].balances@[k].coin
                    == coin && raw@[index as int].balances@[k].amount < 0,
            MalformedInput::DuplicateCoin { index, coin } => index < raw@.len() && exists|
                k: int,
                l: int,
            | 0 <= k < l < raw@[index as int].balances@.len() && raw@[index as int].balances@[k].coin
                == coin && raw@[index as int].balances@[l].coin == coin,
            MalformedInput::DuplicateAddress { address } => exists|i: int, j: int|
                0 <= i < j < raw@.len() && raw@[i].address == Some(address) && raw@[j].address
                    == Some(address),
        },
{
    let n = raw.len();
    let mut records: Vec<LegacyAccountRecord> = Vec::new();
    let mut i: usize = 0;
    while i < n
        invariant
            n == raw@.len(),
            i <= n,
            records@.len() == i,
            forall|k: int| 0 <= k < i ==> raw_record_valid(raw@[k]),
            forall|k: int, l: int|
                0 <= k < l < i && raw@[k].address is Some && raw@[l].address is Some ==> raw@[
                    k
                ].address->0 != raw@[l].address->0,
            forall|k: int| 0 <= k < i ==> {
                &&& (#[trigger] records@[k]).address == raw@[k].address
                &&& records@[k].role == spec_role_of_tag(raw@[k].role_tag)
                &&& records@[k].balances@ =~= parsed_balances(raw@[k].balances@)
                &&& records@[k].metadata@ == raw@[k].metadata@
            },
        decreases n - i,
    {
        let entry = &raw[i];
        if entry.address.is_none() && entry.balances.len() > 0 {
            return Err(MalformedInput::MissingAddress { index: i });
        }
        let role = match role_of_tag(entry.role_tag) {
            Option::Some(role) => role,
            Option::None => {
                return Err(
                    MalformedInput::UnknownRoleTag { index: i, tag: entry.role_tag },
                );
            },
        };
        let balances = match parse_balances(&entry.balances, i) {
            Result::Ok(balances) => balances,
            Result::Err(e) => {
                return Err(e);
            },
        };
        match entry.address {
            Option::Some(a) => {
                match find_record_index(&records, a) {
                    Option::Some(_) => {
                        return Err(MalformedInput::DuplicateAddress { address: a });
                    },
                    Option::None => {},
                }
            },
            Option::None => {},
        }
        proof {
            if raw@[i as int].address is Some {
                let a = raw@[i as int].address->0;
                assert forall|k: int|
                    0 <= k < i && raw@[k].address is Some implies raw@[k].address->0 != a by {
                    assert(records@[k].address == raw@[k].address);
                    assert(!has_address(records@, a));
                    assert(records@[k].address != Some(a));
                }
            }
        }
        let rec = LegacyAccountRecord {
            address: entry.address,
            role,
            balances,
            metadata: entry.metadata.clone(),
        };
        records.push(rec);
        i = i + 1;
    }
    Ok(RecordStore { records })
}

} // verus!
