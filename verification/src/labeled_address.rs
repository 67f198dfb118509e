//! Labeled-address endpoints: validation and response shaping over the
//! labeled-address store.

use crate::labeled_address_store::{
    contains_key, get, get_all, insert, remove, se_address, LabeledAddressStore,
};
use crate::models::{Account, LabeledAddress, LabeledAddressV};
use crate::text::{spec_trim, spec_valid_text, trim_text, validate_label};
use vstd::prelude::*;

verus! {

/// Request to record a labeled address.
pub struct CreateLabeledAddressRequest {
    pub address: Account,
    pub label: String,
}

/// Request to relabel a recorded address.
pub struct UpdateLabeledAddressRequest {
    pub address: Account,
    pub label: String,
}

/// A labeled address as returned to callers.
pub struct LabeledAddressResponse {
    pub address: Account,
    pub label: String,
    pub created_at: u64,
    pub updated_at: u64,
}

impl View for LabeledAddressResponse {
    type V = LabeledAddressV;

    open spec fn view(&self) -> LabeledAddressV {
        LabeledAddressV {
            address: self.address@,
            label: self.label@,
            created_at: self.created_at,
            updated_at: self.updated_at,
        }
    }
}

/// Why a labeled-address call was refused.
#[derive(Clone, Copy, Debug, PartialEq, Eq, Structural)]
pub enum LabeledAddressError {
    AddressNotFound,
    AddressAlreadyExists,
    InvalidLabel,
    Unauthorized,
}

/// Shapes a stored labeled address into a response.
fn labeled_address_to_response(labeled_address: &LabeledAddress) -> (r: LabeledAddressResponse)
    ensures
        r@ == labeled_address@,
{
    let copy = labeled_address.duplicate();
    LabeledAddressResponse {
        address: copy.address,
        label: copy.label,
        created_at: copy.created_at,
        updated_at: copy.updated_at,
    }
}

/// Records a new labeled address under the supplied time: the label must
/// validate, the address must not be recorded yet, and both timestamps start
/// at the supplied time.
pub fn create_labeled_address(
    store: &mut LabeledAddressStore,
    request: CreateLabeledAddressRequest,
    now: u64,
) -> (r: Result<LabeledAddressResponse, LabeledAddressError>)
    requires
        old(store).inv(),
    ensures
        final(store).inv(),
        !spec_valid_text(request.label@) ==> r == Err::<LabeledAddressResponse,
            LabeledAddressError,
        >(LabeledAddressError::InvalidLabel) && final(store)@ == old(store)@,
        spec_valid_text(request.label@) && old(store)@.contains_key(se_address(request.address@))
            ==> r == Err::<LabeledAddressResponse, LabeledAddressError>(
            LabeledAddressError::AddressAlreadyExists,
        ) && final(store)@ == old(store)@,
        spec_valid_text(request.label@) && !old(store)@.contains_key(se_address(request.address@))
            ==> {
            let stored = (LabeledAddressV {
                address: request.address@,
                label: spec_trim(request.label@),
                created_at: now,
                updated_at: now,
            });
            &&& r is Ok
            &&& r->Ok_0@ == stored
            &&& final(store)@ == old(store)@.insert(se_address(request.address@), stored)
        },
{
    if !validate_label(request.label.as_str()) {
        return Err(LabeledAddressError::InvalidLabel);
    }
    if contains_key(store, &request.address) {
        return Err(LabeledAddressError::AddressAlreadyExists);
    }
    let labeled_address = LabeledAddress {
        address: request.address.duplicate(),
        label: trim_text(request.label.as_str()),
        created_at: now,
        updated_at: now,
    };
    let response = labeled_address_to_response(&labeled_address);
    let _ = insert(store, request.address, labeled_address);
    Ok(response)
}

/// Returns the labeled address recorded for the account.
pub fn get_labeled_address(store: &LabeledAddressStore, address: Account) -> (r: Result<
    LabeledAddressResponse,
    LabeledAddressError,
>)
    requires
        store.inv(),
    ensures
        match r {
            Ok(resp) => store@.contains_key(se_address(address@)) && resp@ == store@[se_address(
                address@,
            )],
            Err(e) => e == LabeledAddressError::AddressNotFound && !store@.contains_key(
                se_address(address@),
            ),
        },
{
    match get(store, &address) {
        Some(la) => Ok(labeled_address_to_response(&la)),
        None => Err(LabeledAddressError::AddressNotFound),
    }
}

/// Deletes the labeled address recorded for the account and returns it.
pub fn delete_labeled_address(store: &mut LabeledAddressStore, address: Account) -> (r: Result<
    LabeledAddressResponse,
    LabeledAddressError,
>)
    requires
        old(store).inv(),
    ensures
        final(store).inv(),
        match r {
            Ok(resp) => {
                &&& old(store)@.contains_key(se_address(address@))
                &&& resp@ == old(store)@[se_address(address@)]
                &&& final(store)@ == old(store)@.remove(se_address(address@))
            },
            Err(e) => {
                &&& e == LabeledAddressError::AddressNotFound
                &&& !old(store)@.contains_key(se_address(address@))
                &&& final(store)@ == old(store)@
            },
        },
{
    match remove(store, &address) {
        Some(la) => Ok(labeled_address_to_response(&la)),
        None => {
            proof {
                assert(final(store)@ =~= old(store)@);
            }
            Err(LabeledAddressError::AddressNotFound)
        },
    }
}

/// Returns one response for every recorded labeled address.
pub fn get_all_labeled_addresses(store: &LabeledAddressStore) -> (r: Vec<LabeledAddressResponse>)
    requires
        store.inv(),
    ensures
        forall|k: Seq<u8>|
            #![trigger store@.contains_key(k)]
            store@.contains_key(k) ==> exists|i: int| 0 <= i < r@.len() && r@[i]@ == store@[k],
{
    let pairs = get_all(store);
    let mut out: Vec<LabeledAddressResponse> = Vec::new();
    let mut j: usize = 0;
    while j < pairs.len()
        invariant
            j <= pairs@.len(),
            out@.len() == j,
            forall|t: int| #![trigger out@[t]] 0 <= t < j ==> out@[t]@ == pairs@[t].1@,
        decreases pairs@.len() - j,
    {
        let resp = labeled_address_to_response(&pairs[j].1);
        out.push(resp);
        j += 1;
    }
    proof {
        assert forall|k: Seq<u8>| #[trigger]
            store@.contains_key(k) implies exists|i: int|
            0 <= i < out@.len() && out@[i]@ == store@[k] by {
            let t = choose|t: int| 0 <= t < pairs@.len() && pairs@[t].1@ == store@[k];
            assert(out@[t]@ == store@[k]);
        }
    }
    out
}

} // verus!
