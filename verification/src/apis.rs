//! The operation layer in front of the repository: it validates and trims
//! incoming labels and products, then performs the repository operation for
//! the calling owner.

use crate::repository::{
    effective_custom_id, has_account, find_account_idx, owner_accounts, owner_custom,
    owner_labels, owner_products, owner_tx_labels, spec_add_account, spec_add_entry,
    spec_create_custom_tx, spec_remove_account, spec_remove_entry, spec_set_tx_label,
    spec_update_account, spec_update_custom_tx, has_str, spec_delete_custom_tx, with_accounts,
    with_custom, with_labels, with_products, with_tx_labels, Repository,
};
use crate::text::{spec_trim, spec_valid_text, trim_text, validate_label, validate_product};
use crate::types::{
    ctxs_view, las_view, opt_str_view, strs_view, txls_view, CustomTransaction, IdentityKey,
    LabeledAccount, LabeledAccountV, RepoError, StoredAccount, StoredAccountV,
    TransactionLabelRecord,
};
use vstd::prelude::*;

verus! {

/// Request to record an account with a label and an optional product.
pub struct CreateLabeledAccountRequest {
    pub account: StoredAccount,
    pub label: String,
    pub product: Option<String>,
}

/// Request to relabel one recorded account.
pub struct UpdateLabeledAccountRequest {
    pub account: StoredAccount,
    pub label: String,
}

/// Request to attach a label to one observed transaction.
pub struct SetTransactionLabelRequest {
    pub transaction_id: u64,
    pub label: String,
}

/// Request naming one product.
pub struct ProductRequest {
    pub product: String,
}

/// Request to record one custom transaction.
pub struct CreateCustomTransactionRequest {
    pub transaction: CustomTransaction,
}

/// Whether a supplied label and optional product pass validation.
pub open spec fn valid_create_request(label: Seq<char>, product: Option<Seq<char>>) -> bool {
    &&& spec_valid_text(label)
    &&& match product {
        Some(p) => spec_valid_text(p),
        None => true,
    }
}

/// The record stored for an accepted create request: the label and product
/// are stored trimmed.
pub open spec fn stored_account_record(
    account: StoredAccountV,
    label: Seq<char>,
    product: Option<Seq<char>>,
) -> LabeledAccountV {
    LabeledAccountV {
        account,
        label: spec_trim(label),
        product: match product {
            Some(p) => Some(spec_trim(p)),
            None => None,
        },
    }
}

/// Records an account for the owner. The label, and the product when one is
/// given, must be non-blank after trimming and within the length bound;
/// both are stored trimmed. Returns the stored record.
pub fn create_labeled_account(
    repo: &mut Repository,
    owner: &IdentityKey,
    request: CreateLabeledAccountRequest,
) -> (r: Result<LabeledAccount, RepoError>)
    requires
        old(repo).inv(),
    ensures
        final(repo).inv(),
        !valid_create_request(request.label@, opt_str_view(request.product)) ==> r == Err::<
            LabeledAccount,
            RepoError,
        >(RepoError::ValidationError) && final(repo)@ == old(repo)@,
        valid_create_request(request.label@, opt_str_view(request.product)) ==> {
            let stored = stored_account_record(
                request.account@,
                request.label@,
                opt_str_view(request.product),
            );
            match spec_add_account(owner_accounts(old(repo)@, owner@), stored) {
                Ok(ns) => {
                    &&& r is Ok
                    &&& r->Ok_0@ == stored
                    &&& final(repo)@ == with_accounts(
                        old(repo)@,
                        old(repo)@.accounts.insert(owner@, ns),
                    )
                },
                Err(e) => r == Err::<LabeledAccount, RepoError>(e) && final(repo)@ == old(repo)@,
            }
        },
{
    if !validate_label(request.label.as_str()) {
        return Err(RepoError::ValidationError);
    }
    let product: Option<String> = match &request.product {
        Some(p) => {
            if !validate_product(p.as_str()) {
                return Err(RepoError::ValidationError);
            }
            Some(trim_text(p.as_str()))
        },
        None => None,
    };
    let label = trim_text(request.label.as_str());
    let stored = LabeledAccount { account: request.account, label, product };
    let result = stored.duplicate();
    match crate::repository::add_account(repo, owner, stored) {
        Ok(()) => Ok(result),
        Err(e) => Err(e),
    }
}

/// Returns the owner's recorded accounts. Never fails.
pub fn get_labeled_accounts(repo: &Repository, owner: &IdentityKey) -> (r: Result<
    Vec<LabeledAccount>,
    RepoError,
>)
    requires
        repo.inv(),
    ensures
        r is Ok,
        las_view(r->Ok_0@) == owner_accounts(repo@, owner@),
{
    Ok(crate::repository::get_accounts(repo, owner))
}

/// Deletes one recorded account, with the cascade of `remove_account`.
pub fn delete_labeled_account(repo: &mut Repository, owner: &IdentityKey, address: StoredAccount) -> (r:
    Result<(), RepoError>)
    requires
        old(repo).inv(),
    ensures
        final(repo).inv(),
        match spec_remove_account(owner_accounts(old(repo)@, owner@), address@) {
            Ok(ns) => {
                &&& r == Ok::<(), RepoError>(())
                &&& final(repo)@.tx_labels == old(repo)@.tx_labels.remove(owner@)
                &&& final(repo)@.labels == old(repo)@.labels
                &&& final(repo)@.products == old(repo)@.products
                &&& ns.len() == 0 ==> final(repo)@.accounts == old(repo)@.accounts.remove(owner@)
                    && final(repo)@.custom == old(repo)@.custom.remove(owner@)
                &&& ns.len() > 0 ==> final(repo)@.accounts == old(repo)@.accounts.insert(
                    owner@,
                    ns,
                ) && final(repo)@.custom == old(repo)@.custom
            },
            Err(e) => r == Err::<(), RepoError>(e) && final(repo)@ == old(repo)@,
        },
{
    crate::repository::remove_account(repo, owner, &address)
}

/// Relabels one recorded account: the entry with the given identifier keeps
/// its account and product and takes the trimmed label.
pub fn update_labeled_account(
    repo: &mut Repository,
    owner: &IdentityKey,
    request: UpdateLabeledAccountRequest,
) -> (r: Result<(), RepoError>)
    requires
        old(repo).inv(),
    ensures
        final(repo).inv(),
        !spec_valid_text(request.label@) ==> r == Err::<(), RepoError>(RepoError::ValidationError)
            && final(repo)@ == old(repo)@,
        spec_valid_text(request.label@) ==> {
            let oa = owner_accounts(old(repo)@, owner@);
            if !has_account(oa, request.account@) {
                r == Err::<(), RepoError>(RepoError::NotFound) && final(repo)@ == old(repo)@
            } else {
                let prev = oa[find_account_idx(oa, request.account@)];
                let relabeled = (LabeledAccountV {
                    account: prev.account,
                    label: spec_trim(request.label@),
                    product: prev.product,
                });
                match spec_update_account(oa, relabeled) {
                    Ok(ns) => r == Ok::<(), RepoError>(()) && final(repo)@ == with_accounts(
                        old(repo)@,
                        old(repo)@.accounts.insert(owner@, ns),
                    ),
                    Err(e) => r == Err::<(), RepoError>(e) && final(repo)@ == old(repo)@,
                }
            }
        },
{
    if !validate_label(request.label.as_str()) {
        return Err(RepoError::ValidationError);
    }
    let saved = match crate::repository::get_account(repo, owner, &request.account) {
        Some(acc) => acc,
        None => {
            return Err(RepoError::NotFound);
        },
    };
    let relabeled = LabeledAccount {
        account: saved.account,
        label: trim_text(request.label.as_str()),
        product: saved.product,
    };
    crate::repository::update_account(repo, owner, relabeled)
}

/// Returns the owner's transaction labels. Never fails.
pub fn get_transaction_labels(repo: &Repository, owner: &IdentityKey) -> (r: Result<
    Vec<TransactionLabelRecord>,
    RepoError,
>)
    requires
        repo.inv(),
    ensures
        r is Ok,
        txls_view(r->Ok_0@) == owner_tx_labels(repo@, owner@),
{
    Ok(crate::repository::get_transaction_labels(repo, owner))
}

/// Attaches a validated, trimmed label to a transaction id, overwriting any
/// label the id already carries.
pub fn set_transaction_label(
    repo: &mut Repository,
    owner: &IdentityKey,
    request: SetTransactionLabelRequest,
) -> (r: Result<(), RepoError>)
    requires
        old(repo).inv(),
    ensures
        final(repo).inv(),
        !spec_valid_text(request.label@) ==> r == Err::<(), RepoError>(RepoError::ValidationError)
            && final(repo)@ == old(repo)@,
        spec_valid_text(request.label@) ==> match spec_set_tx_label(
            owner_tx_labels(old(repo)@, owner@),
            request.transaction_id,
            spec_trim(request.label@),
        ) {
            Ok(ns) => r == Ok::<(), RepoError>(()) && final(repo)@ == with_tx_labels(
                old(repo)@,
                old(repo)@.tx_labels.insert(owner@, ns),
            ),
            Err(e) => r == Err::<(), RepoError>(e) && final(repo)@ == old(repo)@,
        },
{
    if !validate_label(request.label.as_str()) {
        return Err(RepoError::ValidationError);
    }
    let label = trim_text(request.label.as_str());
    crate::repository::set_transaction_label(repo, owner, request.transaction_id, label)
}

/// Records a custom transaction with a validated label; the id rules of
/// `create_custom_transaction` in the repository apply.
pub fn create_custom_transaction(
    repo: &mut Repository,
    owner: &IdentityKey,
    request: CreateCustomTransactionRequest,
    now_ns: u64,
) -> (r: Result<String, RepoError>)
    requires
        old(repo).inv(),
    ensures
        final(repo).inv(),
        !spec_valid_text(request.transaction.label@) ==> r == Err::<String, RepoError>(
            RepoError::ValidationError,
        ) && final(repo)@ == old(repo)@,
        spec_valid_text(request.transaction.label@) ==> match spec_create_custom_tx(
            owner_custom(old(repo)@, owner@),
            request.transaction@,
            now_ns,
        ) {
            Ok(ns) => {
                &&& r is Ok
                &&& r->Ok_0@ == effective_custom_id(request.transaction@.id, now_ns)
                &&& final(repo)@ == with_custom(
                    old(repo)@,
                    old(repo)@.custom.insert(owner@, ns),
                )
            },
            Err(e) => r == Err::<String, RepoError>(e) && final(repo)@ == old(repo)@,
        },
{
    if !validate_label(request.transaction.label.as_str()) {
        return Err(RepoError::ValidationError);
    }
    crate::repository::create_custom_transaction(repo, owner, request.transaction, now_ns)
}

/// Returns the owner's custom transactions. Never fails.
pub fn get_custom_transactions(repo: &Repository, owner: &IdentityKey) -> (r: Result<
    Vec<CustomTransaction>,
    RepoError,
>)
    requires
        repo.inv(),
    ensures
        r is Ok,
        ctxs_view(r->Ok_0@) == owner_custom(repo@, owner@),
{
    Ok(crate::repository::get_custom_transactions(repo, owner))
}

/// Replaces one custom transaction after validating its label.
pub fn update_custom_transaction(
    repo: &mut Repository,
    owner: &IdentityKey,
    transaction: CustomTransaction,
) -> (r: Result<(), RepoError>)
    requires
        old(repo).inv(),
    ensures
        final(repo).inv(),
        !spec_valid_text(transaction.label@) ==> r == Err::<(), RepoError>(
            RepoError::ValidationError,
        ) && final(repo)@ == old(repo)@,
        spec_valid_text(transaction.label@) ==> match spec_update_custom_tx(
            owner_custom(old(repo)@, owner@),
            transaction@,
        ) {
            Ok(ns) => r == Ok::<(), RepoError>(()) && final(repo)@ == with_custom(
                old(repo)@,
                old(repo)@.custom.insert(owner@, ns),
            ),
            Err(e) => r == Err::<(), RepoError>(e) && final(repo)@ == old(repo)@,
        },
{
    if !validate_label(transaction.label.as_str()) {
        return Err(RepoError::ValidationError);
    }
    crate::repository::update_custom_transaction(repo, owner, transaction)
}

/// Deletes one custom transaction by id.
pub fn delete_custom_transaction(repo: &mut Repository, owner: &IdentityKey, id: String) -> (r:
    Result<(), RepoError>)
    requires
        old(repo).inv(),
    ensures
        final(repo).inv(),
        match spec_delete_custom_tx(owner_custom(old(repo)@, owner@), id@) {
            Ok(ns) => {
                &&& r == Ok::<(), RepoError>(())
                &&& final(repo)@.accounts == old(repo)@.accounts
                &&& final(repo)@.tx_labels == old(repo)@.tx_labels
                &&& final(repo)@.labels == old(repo)@.labels
                &&& final(repo)@.products == old(repo)@.products
                &&& ns.len() == 0 ==> final(repo)@.custom == old(repo)@.custom.remove(owner@)
                &&& ns.len() > 0 ==> final(repo)@.custom == old(repo)@.custom.insert(owner@, ns)
            },
            Err(e) => r == Err::<(), RepoError>(e) && final(repo)@ == old(repo)@,
        },
{
    crate::repository::delete_custom_transaction(repo, owner, id.as_str())
}

/// Adds a validated label, stored trimmed, to the owner's label list.
pub fn add_label(repo: &mut Repository, owner: &IdentityKey, label: String) -> (r: Result<
    (),
    RepoError,
>)
    requires
        old(repo).inv(),
    ensures
        final(repo).inv(),
        !spec_valid_text(label@) ==> r == Err::<(), RepoError>(RepoError::ValidationError)
            && final(repo)@ == old(repo)@,
        spec_valid_text(label@) ==> match spec_add_entry(
            owner_labels(old(repo)@, owner@),
            spec_trim(label@),
        ) {
            Ok(ns) => r == Ok::<(), RepoError>(()) && final(repo)@ == with_labels(
                old(repo)@,
                old(repo)@.labels.insert(owner@, ns),
            ),
            Err(e) => r == Err::<(), RepoError>(e) && final(repo)@ == old(repo)@,
        },
{
    if !validate_label(label.as_str()) {
        return Err(RepoError::ValidationError);
    }
    let trimmed = trim_text(label.as_str());
    crate::repository::add_label(repo, owner, trimmed)
}

/// Returns the owner's labels. Never fails.
pub fn get_labels(repo: &Repository, owner: &IdentityKey) -> (r: Vec<String>)
    requires
        repo.inv(),
    ensures
        strs_view(r@) == owner_labels(repo@, owner@),
{
    crate::repository::get_labels(repo, owner)
}

/// Adds a validated product, stored trimmed, to the owner's product list.
pub fn add_product(repo: &mut Repository, owner: &IdentityKey, request: ProductRequest) -> (r:
    Result<(), RepoError>)
    requires
        old(repo).inv(),
    ensures
        final(repo).inv(),
        !spec_valid_text(request.product@) ==> r == Err::<(), RepoError>(
            RepoError::ValidationError,
        ) && final(repo)@ == old(repo)@,
        spec_valid_text(request.product@) ==> match spec_add_entry(
            owner_products(old(repo)@, owner@),
            spec_trim(request.product@),
        ) {
            Ok(ns) => r == Ok::<(), RepoError>(()) && final(repo)@ == with_products(
                old(repo)@,
                old(repo)@.products.insert(owner@, ns),
            ),
            Err(e) => r == Err::<(), RepoError>(e) && final(repo)@ == old(repo)@,
        },
{
    if !validate_product(request.product.as_str()) {
        return Err(RepoError::ValidationError);
    }
    let trimmed = trim_text(request.product.as_str());
    crate::repository::add_product(repo, owner, trimmed)
}

/// Removes a product from the owner's list; succeeds whether or not the
/// product was present.
pub fn remove_product(repo: &mut Repository, owner: &IdentityKey, product: String) -> (r: Result<
    (),
    RepoError,
>)
    requires
        old(repo).inv(),
    ensures
        final(repo).inv(),
        r == Ok::<(), RepoError>(()),
        has_str(owner_products(old(repo)@, owner@), product@) ==> final(repo)@ == with_products(
            old(repo)@,
            old(repo)@.products.insert(
                owner@,
                spec_remove_entry(owner_products(old(repo)@, owner@), product@),
            ),
        ),
        !has_str(owner_products(old(repo)@, owner@), product@) ==> final(repo)@ == old(repo)@,
{
    crate::repository::remove_product(repo, owner, product.as_str())
}

/// Returns the owner's products. Never fails.
pub fn get_products(repo: &Repository, owner: &IdentityKey) -> (r: Result<Vec<String>, RepoError>)
    requires
        repo.inv(),
    ensures
        r is Ok,
        strs_view(r->Ok_0@) == owner_products(repo@, owner@),
{
    Ok(crate::repository::get_products(repo, owner))
}

} // verus!
