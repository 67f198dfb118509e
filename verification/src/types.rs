//! Data model: owner identity, account identifiers and the record types held
//! in the five per-owner collections, together with their mathematical views.

use vstd::prelude::*;

verus! {

/// Maximum number of labeled accounts one owner may hold.
pub const MAX_ACCOUNTS: usize = 20;

/// Maximum number of entries in an owner's label or product list.
pub const MAX_LIST_ENTRIES: usize = 50;

/// Maximum serialized size of an owner's account, transaction-label, label or
/// product aggregate.
pub const MAX_SMALL_VALUE_BYTES: usize = 4096;

/// Maximum serialized size of an owner's custom-transaction aggregate.
pub const MAX_CUSTOM_TX_VALUE_BYTES: usize = 8192;

/// Maximum length, in characters, of a label or product name after trimming.
pub const MAX_LABEL_CHARS: usize = 100;

/// Opaque owner identity supplied by the surrounding layer (for instance a
/// principal's raw bytes). It is the sole partition key and is never
/// generated inside the library.
pub struct IdentityKey {
    pub bytes: Vec<u8>,
}

impl View for IdentityKey {
    type V = Seq<u8>;

    open spec fn view(&self) -> Seq<u8> {
        self.bytes@
    }
}

impl IdentityKey {
    pub fn new(bytes: Vec<u8>) -> (r: IdentityKey)
        ensures
            r@ == bytes@,
    {
        IdentityKey { bytes }
    }
}

/// View of an optional byte vector.
pub open spec fn opt_bytes_view(o: Option<Vec<u8>>) -> Option<Seq<u8>> {
    match o {
        Some(v) => Some(v@),
        None => None,
    }
}

/// View of an optional string.
pub open spec fn opt_str_view(o: Option<String>) -> Option<Seq<char>> {
    match o {
        Some(s) => Some(s@),
        None => None,
    }
}

/// An on-chain account descriptor: an owner blob and an optional subaccount
/// blob, as the ledger represents them.
pub struct IcrcAccount {
    pub owner: Vec<u8>,
    pub subaccount: Option<Vec<u8>>,
}

/// Mathematical value of an [`IcrcAccount`].
pub struct IcrcAccountV {
    pub owner: Seq<u8>,
    pub subaccount: Option<Seq<u8>>,
}

impl View for IcrcAccount {
    type V = IcrcAccountV;

    open spec fn view(&self) -> IcrcAccountV {
        IcrcAccountV { owner: self.owner@, subaccount: opt_bytes_view(self.subaccount) }
    }
}

/// A tracked account: either an on-chain descriptor or a free-form off-chain
/// name. Structural equality on the view is the per-owner uniqueness key.
pub enum StoredAccount {
    Icrc1(IcrcAccount),
    Offchain(String),
}

/// Mathematical value of a [`StoredAccount`].
pub enum StoredAccountV {
    Icrc1(IcrcAccountV),
    Offchain(Seq<char>),
}

impl View for StoredAccount {
    type V = StoredAccountV;

    open spec fn view(&self) -> StoredAccountV {
        match self {
            StoredAccount::Icrc1(a) => StoredAccountV::Icrc1(a@),
            StoredAccount::Offchain(s) => StoredAccountV::Offchain(s@),
        }
    }
}

/// One account an owner tracks, with its display label and optional product.
pub struct LabeledAccount {
    pub account: StoredAccount,
    pub label: String,
    pub product: Option<String>,
}

/// Mathematical value of a [`LabeledAccount`].
pub struct LabeledAccountV {
    pub account: StoredAccountV,
    pub label: Seq<char>,
    pub product: Option<Seq<char>>,
}

impl View for LabeledAccount {
    type V = LabeledAccountV;

    open spec fn view(&self) -> LabeledAccountV {
        LabeledAccountV {
            account: self.account@,
            label: self.label@,
            product: opt_str_view(self.product),
        }
    }
}

/// An owner's account aggregate, stored as one serialized value.
pub struct Accounts {
    pub accounts: Vec<LabeledAccount>,
}

impl View for Accounts {
    type V = Seq<LabeledAccountV>;

    open spec fn view(&self) -> Seq<LabeledAccountV> {
        self.accounts@.map(|i: int, la: LabeledAccount| la@)
    }
}

/// A label attached to one observed transaction id.
pub struct TransactionLabelRecord {
    pub id: u64,
    pub label: String,
}

/// Mathematical value of a [`TransactionLabelRecord`].
pub struct TxLabelV {
    pub id: u64,
    pub label: Seq<char>,
}

impl View for TransactionLabelRecord {
    type V = TxLabelV;

    open spec fn view(&self) -> TxLabelV {
        TxLabelV { id: self.id, label: self.label@ }
    }
}

/// An owner's transaction-label aggregate.
pub struct TxLabels {
    pub labels: Vec<TransactionLabelRecord>,
}

impl View for TxLabels {
    type V = Seq<TxLabelV>;

    open spec fn view(&self) -> Seq<TxLabelV> {
        self.labels@.map(|i: int, t: TransactionLabelRecord| t@)
    }
}

/// A user-authored transaction record.
pub struct CustomTransaction {
    pub id: String,
    pub timestamp_ms: u64,
    pub label: String,
    pub amount: u64,
}

/// Mathematical value of a [`CustomTransaction`].
pub struct CustomTxV {
    pub id: Seq<char>,
    pub timestamp_ms: u64,
    pub label: Seq<char>,
    pub amount: u64,
}

impl View for CustomTransaction {
    type V = CustomTxV;

    open spec fn view(&self) -> CustomTxV {
        CustomTxV {
            id: self.id@,
            timestamp_ms: self.timestamp_ms,
            label: self.label@,
            amount: self.amount,
        }
    }
}

/// An owner's custom-transaction aggregate.
pub struct CustomTransactions {
    pub transactions: Vec<CustomTransaction>,
}

impl View for CustomTransactions {
    type V = Seq<CustomTxV>;

    open spec fn view(&self) -> Seq<CustomTxV> {
        self.transactions@.map(|i: int, t: CustomTransaction| t@)
    }
}

/// Why a repository operation was refused. Every failure is returned as a
/// value; no operation leaves a partially mutated collection behind.
#[derive(Clone, Copy, Debug, PartialEq, Eq, Structural)]
pub enum RepoError {
    /// A label or product is blank after trimming or longer than
    /// [`MAX_LABEL_CHARS`] characters.
    ValidationError,
    /// The owner, account or record addressed by the call is absent.
    NotFound,
    /// An equal account, label or product is already present.
    AlreadyExists,
    /// The collection already holds its maximum number of entries.
    CapacityExceeded,
    /// A custom-transaction id is already taken.
    Conflict,
    /// The mutated aggregate would exceed its serialized size bound.
    TooLarge,
}

/// Views of the records in a labeled-account vector.
pub open spec fn las_view(v: Seq<LabeledAccount>) -> Seq<LabeledAccountV> {
    v.map(|i: int, la: LabeledAccount| la@)
}

/// Views of the records in a transaction-label vector.
pub open spec fn txls_view(v: Seq<TransactionLabelRecord>) -> Seq<TxLabelV> {
    v.map(|i: int, t: TransactionLabelRecord| t@)
}

/// Views of the records in a custom-transaction vector.
pub open spec fn ctxs_view(v: Seq<CustomTransaction>) -> Seq<CustomTxV> {
    v.map(|i: int, t: CustomTransaction| t@)
}

/// Views of the strings in a taxonomy list.
pub open spec fn strs_view(v: Seq<String>) -> Seq<Seq<char>> {
    v.map(|i: int, s: String| s@)
}

/// Byte-vector equality, exposed to contracts through the views.
pub fn eq_bytes(a: &[u8], b: &[u8]) -> (r: bool)
    ensures
        r == (a@ == b@),
{
    if a.len() != b.len() {
        return false;
    }
    let mut i: usize = 0;
    while i < a.len()
        invariant
            i <= a.len(),
            a@.len() == b@.len(),
            forall|j: int| 0 <= j < i ==> a@[j] == b@[j],
        decreases a.len() - i,
    {
        if a[i] != b[i] {
            return false;
        }
        i += 1;
    }
    assert(a@ =~= b@);
    true
}

/// Equality of optional byte vectors.
pub fn eq_opt_bytes(a: &Option<Vec<u8>>, b: &Option<Vec<u8>>) -> (r: bool)
    ensures
        r == (opt_bytes_view(*a) == opt_bytes_view(*b)),
{
    match (a, b) {
        (Some(x), Some(y)) => eq_bytes(x.as_slice(), y.as_slice()),
        (None, None) => true,
        _ => false,
    }
}

/// Structural equality of account identifiers, the per-owner uniqueness key.
pub fn eq_stored_account(a: &StoredAccount, b: &StoredAccount) -> (r: bool)
    ensures
        r == (a@ == b@),
{
    match (a, b) {
        (StoredAccount::Icrc1(x), StoredAccount::Icrc1(y)) => {
            let owners = eq_bytes(x.owner.as_slice(), y.owner.as_slice());
            let subs = eq_opt_bytes(&x.subaccount, &y.subaccount);
            owners && subs
        },
        (StoredAccount::Offchain(x), StoredAccount::Offchain(y)) => *x == *y,
        _ => false,
    }
}

} // verus!

verus! {

impl StoredAccount {
    /// A structural copy with an equal view.
    pub fn duplicate(&self) -> (r: StoredAccount)
        ensures
            r@ == self@,
    {
        match self {
            StoredAccount::Icrc1(ic) => {
                let subaccount = match &ic.subaccount {
                    Some(s) => Some(vstd::slice::slice_to_vec(s.as_slice())),
                    None => None,
                };
                StoredAccount::Icrc1(
                    IcrcAccount { owner: vstd::slice::slice_to_vec(ic.owner.as_slice()), subaccount },
                )
            },
            StoredAccount::Offchain(s) => StoredAccount::Offchain(s.clone()),
        }
    }
}

impl LabeledAccount {
    /// A structural copy with an equal view.
    pub fn duplicate(&self) -> (r: LabeledAccount)
        ensures
            r@ == self@,
    {
        let product = match &self.product {
            Some(p) => Some(p.clone()),
            None => None,
        };
        LabeledAccount { account: self.account.duplicate(), label: self.label.clone(), product }
    }
}

} // verus!
