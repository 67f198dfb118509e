//! Data model of the address book and summary services: accounts as the
//! ledger identifies them, labeled addresses, per-period summaries,
//! preference and configuration records, and the service error taxonomy.

use vstd::prelude::*;

verus! {

/// An account as the ledger identifies it: the owner's principal bytes and
/// an optional subaccount blob.
pub struct Account {
    pub owner: Vec<u8>,
    pub subaccount: Option<Vec<u8>>,
}

/// Mathematical value of an [`Account`].
pub struct AccountV {
    pub owner: Seq<u8>,
    pub subaccount: Option<Seq<u8>>,
}

impl View for Account {
    type V = AccountV;

    open spec fn view(&self) -> AccountV {
        AccountV {
            owner: self.owner@,
            subaccount: crate::types::opt_bytes_view(self.subaccount),
        }
    }
}

impl Account {
    /// A structural copy with an equal view.
    pub fn duplicate(&self) -> (r: Account)
        ensures
            r@ == self@,
    {
        let subaccount = match &self.subaccount {
            Some(s) => Some(vstd::slice::slice_to_vec(s.as_slice())),
            None => None,
        };
        Account { owner: vstd::slice::slice_to_vec(self.owner.as_slice()), subaccount }
    }
}

/// One labeled address with its bookkeeping timestamps, in nanoseconds.
pub struct LabeledAddress {
    pub address: Account,
    pub label: String,
    pub created_at: u64,
    pub updated_at: u64,
}

/// Mathematical value of a [`LabeledAddress`].
pub struct LabeledAddressV {
    pub address: AccountV,
    pub label: Seq<char>,
    pub created_at: u64,
    pub updated_at: u64,
}

impl View for LabeledAddress {
    type V = LabeledAddressV;

    open spec fn view(&self) -> LabeledAddressV {
        LabeledAddressV {
            address: self.address@,
            label: self.label@,
            created_at: self.created_at,
            updated_at: self.updated_at,
        }
    }
}

impl LabeledAddress {
    /// A structural copy with an equal view.
    pub fn duplicate(&self) -> (r: LabeledAddress)
        ensures
            r@ == self@,
    {
        LabeledAddress {
            address: self.address.duplicate(),
            label: self.label.clone(),
            created_at: self.created_at,
            updated_at: self.updated_at,
        }
    }
}

/// Aggregated transaction amounts of one account over one period.
pub struct TransactionSummary {
    pub account: Account,
    pub total_sent: u64,
    pub total_received: u64,
    pub transaction_count: u32,
    pub period_start: u64,
    pub period_end: u64,
}

/// Mathematical value of a [`TransactionSummary`].
pub struct TransactionSummaryV {
    pub account: AccountV,
    pub total_sent: u64,
    pub total_received: u64,
    pub transaction_count: u32,
    pub period_start: u64,
    pub period_end: u64,
}

impl View for TransactionSummary {
    type V = TransactionSummaryV;

    open spec fn view(&self) -> TransactionSummaryV {
        TransactionSummaryV {
            account: self.account@,
            total_sent: self.total_sent,
            total_received: self.total_received,
            transaction_count: self.transaction_count,
            period_start: self.period_start,
            period_end: self.period_end,
        }
    }
}

/// One user's display and polling preferences.
pub struct UserPreferences {
    pub default_currency: String,
    pub timezone: String,
    pub notification_enabled: bool,
    pub polling_interval_seconds: u64,
    pub theme: String,
}

/// Service-wide configuration.
pub struct AppConfig {
    pub version: String,
    pub maintenance_mode: bool,
    pub max_cached_transactions: u32,
    pub cache_retention_days: u32,
    pub supported_currencies: Vec<String>,
}

/// Request to track a new address under a label.
pub struct AddAddressRequest {
    pub address: String,
    pub label: String,
}

/// Request to relabel a tracked address.
pub struct UpdateLabelRequest {
    pub address: String,
    pub new_label: String,
}

/// The period a summary request asks for.
pub enum PeriodType {
    Daily,
    Weekly,
    Monthly,
    Custom,
}

/// Request for a transaction summary over one period.
pub struct GetTransactionSummaryRequest {
    pub account: String,
    pub period_type: PeriodType,
    pub start_date: Option<u64>,
    pub end_date: Option<u64>,
}

/// Request to replace one user's preferences.
pub struct UpdatePreferencesRequest {
    pub preferences: UserPreferences,
}

/// Error taxonomy of the tracking service.
pub enum DTrackError {
    AddressNotFound { address: String },
    LabelAlreadyExists { label: String },
    UserNotFound { principal: String },
    InvalidAddress { address: String },
    InternalError { message: String },
    Unauthorized,
}

} // verus!

verus! {

impl Default for AppConfig {
    /// The configuration a fresh deployment starts with.
    fn default() -> (r: AppConfig)
        ensures
            r.version@ == "1.0.0"@,
            !r.maintenance_mode,
            r.max_cached_transactions == 1000,
            r.cache_retention_days == 30,
            r.supported_currencies@.len() == 3,
            r.supported_currencies@[0]@ == "USD"@,
            r.supported_currencies@[1]@ == "EUR"@,
            r.supported_currencies@[2]@ == "ICP"@,
    {
        let mut supported_currencies: Vec<String> = Vec::new();
        supported_currencies.push("USD".to_owned());
        supported_currencies.push("EUR".to_owned());
        supported_currencies.push("ICP".to_owned());
        AppConfig {
            version: "1.0.0".to_owned(),
            maintenance_mode: false,
            max_cached_transactions: 1000,
            cache_retention_days: 30,
            supported_currencies,
        }
    }
}

} // verus!
