//! The owner repository: five durable per-owner collections keyed by
//! identity, with capacity, uniqueness, size and cascade rules.
//!
//! Every operation is one read-modify-write cycle against one owner's
//! aggregate: it decodes the stored value, applies the change, and either
//! persists the new aggregate or returns an error with nothing written.

use crate::codec::{
    dec_accounts, dec_custom_txs, dec_str_list, dec_tx_labels, enc_accounts, enc_custom_txs,
    enc_str_list, enc_tx_labels, se_accounts, se_custom_txs, se_str_list, se_tx_labels,
};
use crate::store::{new_partitions, partition_map, StablePartition};
use crate::types::{
    ctxs_view, eq_stored_account, las_view, strs_view, txls_view, CustomTransaction, CustomTxV,
    LabeledAccount, LabeledAccountV, IdentityKey, RepoError, StoredAccount, StoredAccountV,
    TransactionLabelRecord, TxLabelV, MAX_ACCOUNTS, MAX_CUSTOM_TX_VALUE_BYTES, MAX_LIST_ENTRIES,
    MAX_SMALL_VALUE_BYTES,
};
use vstd::prelude::*;
use vstd::slice::slice_to_vec;

verus! {

/// Mathematical state of the repository: the five per-owner collections.
pub struct RepoModel {
    pub accounts: Map<Seq<u8>, Seq<LabeledAccountV>>,
    pub tx_labels: Map<Seq<u8>, Seq<TxLabelV>>,
    pub custom: Map<Seq<u8>, Seq<CustomTxV>>,
    pub labels: Map<Seq<u8>, Seq<Seq<char>>>,
    pub products: Map<Seq<u8>, Seq<Seq<char>>>,
}

/// The state of a repository that holds nothing.
pub open spec fn empty_model() -> RepoModel {
    RepoModel {
        accounts: Map::empty(),
        tx_labels: Map::empty(),
        custom: Map::empty(),
        labels: Map::empty(),
        products: Map::empty(),
    }
}

/// The model with its account collections replaced.
pub open spec fn with_accounts(m: RepoModel, am: Map<Seq<u8>, Seq<LabeledAccountV>>) -> RepoModel {
    RepoModel { accounts: am, ..m }
}

/// The model with its transaction-label collections replaced.
pub open spec fn with_tx_labels(m: RepoModel, tm: Map<Seq<u8>, Seq<TxLabelV>>) -> RepoModel {
    RepoModel { tx_labels: tm, ..m }
}

/// The model with its custom-transaction collections replaced.
pub open spec fn with_custom(m: RepoModel, cm: Map<Seq<u8>, Seq<CustomTxV>>) -> RepoModel {
    RepoModel { custom: cm, ..m }
}

/// The model with its label lists replaced.
pub open spec fn with_labels(m: RepoModel, lm: Map<Seq<u8>, Seq<Seq<char>>>) -> RepoModel {
    RepoModel { labels: lm, ..m }
}

/// The model with its product lists replaced.
pub open spec fn with_products(m: RepoModel, pm: Map<Seq<u8>, Seq<Seq<char>>>) -> RepoModel {
    RepoModel { products: pm, ..m }
}

/// The accounts an owner holds; an unknown owner holds none.
pub open spec fn owner_accounts(m: RepoModel, k: Seq<u8>) -> Seq<LabeledAccountV> {
    if m.accounts.contains_key(k) {
        m.accounts[k]
    } else {
        Seq::empty()
    }
}

/// The transaction labels an owner holds; an unknown owner holds none.
pub open spec fn owner_tx_labels(m: RepoModel, k: Seq<u8>) -> Seq<TxLabelV> {
    if m.tx_labels.contains_key(k) {
        m.tx_labels[k]
    } else {
        Seq::empty()
    }
}

/// The custom transactions an owner holds; an unknown owner holds none.
pub open spec fn owner_custom(m: RepoModel, k: Seq<u8>) -> Seq<CustomTxV> {
    if m.custom.contains_key(k) {
        m.custom[k]
    } else {
        Seq::empty()
    }
}

/// The label list an owner holds; an unknown owner holds none.
pub open spec fn owner_labels(m: RepoModel, k: Seq<u8>) -> Seq<Seq<char>> {
    if m.labels.contains_key(k) {
        m.labels[k]
    } else {
        Seq::empty()
    }
}

/// The product list an owner holds; an unknown owner holds none.
pub open spec fn owner_products(m: RepoModel, k: Seq<u8>) -> Seq<Seq<char>> {
    if m.products.contains_key(k) {
        m.products[k]
    } else {
        Seq::empty()
    }
}

/// The durable owner repository. Each field below holds one partition of the
/// persistent store; the ghost model mirrors the decoded aggregates, which
/// the invariant [`Repository::inv`] couples to the stored bytes.
pub struct Repository {
    accounts: StablePartition,
    tx_labels: StablePartition,
    custom: StablePartition,
    labels: StablePartition,
    products: StablePartition,
    model: Ghost<RepoModel>,
}

impl View for Repository {
    type V = RepoModel;

    closed spec fn view(&self) -> RepoModel {
        self.model@
    }
}

/// The accounts partition stores exactly the encoded model collections.
pub open spec fn accounts_coupled(p: StablePartition, m: Map<Seq<u8>, Seq<LabeledAccountV>>) -> bool {
    &&& partition_map(p).dom() == m.dom()
    &&& forall|k: Seq<u8>| #[trigger]
        m.contains_key(k) ==> partition_map(p)[k] == se_accounts(m[k])
}

/// The transaction-label partition stores exactly the encoded collections.
pub open spec fn tx_labels_coupled(p: StablePartition, m: Map<Seq<u8>, Seq<TxLabelV>>) -> bool {
    &&& partition_map(p).dom() == m.dom()
    &&& forall|k: Seq<u8>| #[trigger]
        m.contains_key(k) ==> partition_map(p)[k] == se_tx_labels(m[k])
}

/// The custom-transaction partition stores exactly the encoded collections.
pub open spec fn custom_coupled(p: StablePartition, m: Map<Seq<u8>, Seq<CustomTxV>>) -> bool {
    &&& partition_map(p).dom() == m.dom()
    &&& forall|k: Seq<u8>| #[trigger]
        m.contains_key(k) ==> partition_map(p)[k] == se_custom_txs(m[k])
}

/// A string-list partition stores exactly the encoded lists.
pub open spec fn str_list_coupled(p: StablePartition, m: Map<Seq<u8>, Seq<Seq<char>>>) -> bool {
    &&& partition_map(p).dom() == m.dom()
    &&& forall|k: Seq<u8>| #[trigger]
        m.contains_key(k) ==> partition_map(p)[k] == se_str_list(m[k])
}

impl Repository {
    /// The stored bytes of every partition decode to the model collections.
    pub closed spec fn inv(&self) -> bool {
        &&& accounts_coupled(self.accounts, self@.accounts)
        &&& tx_labels_coupled(self.tx_labels, self@.tx_labels)
        &&& custom_coupled(self.custom, self@.custom)
        &&& str_list_coupled(self.labels, self@.labels)
        &&& str_list_coupled(self.products, self@.products)
    }

    /// Creates a repository over five fresh partitions; it holds nothing.
    pub fn new() -> (r: Repository)
        ensures
            r.inv(),
            r@ == empty_model(),
    {
        let (accounts, tx_labels, custom, labels, products) = new_partitions();
        let r = Repository {
            accounts,
            tx_labels,
            custom,
            labels,
            products,
            model: Ghost(empty_model()),
        };
        proof {
            assert(partition_map(r.accounts).dom() =~= empty_model().accounts.dom());
            assert(partition_map(r.tx_labels).dom() =~= empty_model().tx_labels.dom());
            assert(partition_map(r.custom).dom() =~= empty_model().custom.dom());
            assert(partition_map(r.labels).dom() =~= empty_model().labels.dom());
            assert(partition_map(r.products).dom() =~= empty_model().products.dom());
        }
        r
    }
}

/// Whether the collection already holds an equal account identifier.
pub open spec fn has_account(s: Seq<LabeledAccountV>, a: StoredAccountV) -> bool {
    exists|i: int| 0 <= i < s.len() && s[i].account == a
}

/// The index of the first entry with the given account identifier, or -1.
pub open spec fn find_account_idx(s: Seq<LabeledAccountV>, a: StoredAccountV) -> int
    decreases s.len(),
{
    if s.len() == 0 {
        -1
    } else if s[0].account == a {
        0
    } else if find_account_idx(s.drop_first(), a) < 0 {
        -1
    } else {
        1 + find_account_idx(s.drop_first(), a)
    }
}

/// `find_account_idx` finds the first matching entry, and a negative result
/// means there is none.
pub proof fn lemma_find_account_idx(s: Seq<LabeledAccountV>, a: StoredAccountV)
    ensures
        has_account(s, a) <==> find_account_idx(s, a) >= 0,
        find_account_idx(s, a) >= 0 ==> {
            &&& find_account_idx(s, a) < s.len()
            &&& s[find_account_idx(s, a)].account == a
            &&& forall|j: int| 0 <= j < find_account_idx(s, a) ==> s[j].account != a
        },
    decreases s.len(),
{
    if s.len() == 0 {
    } else if s[0].account == a {
    } else {
        let t = s.drop_first();
        lemma_find_account_idx(t, a);
        assert forall|i: int| 0 <= i < s.len() && s[i].account == a implies has_account(t, a) by {
            assert(t[i - 1] == s[i]);
        }
        if find_account_idx(s, a) >= 0 {
            let fi = find_account_idx(s, a);
            assert(s[fi] == t[fi - 1]);
            assert forall|j: int| 0 <= j < fi implies s[j].account != a by {
                if j > 0 {
                    assert(s[j] == t[j - 1]);
                }
            }
        }
    }
}

/// Finds the first entry with the given account identifier.
fn find_account(list: &Vec<LabeledAccount>, a: &StoredAccount) -> (r: Option<usize>)
    ensures
        match r {
            Some(i) => i == find_account_idx(las_view(list@), a@),
            None => find_account_idx(las_view(list@), a@) < 0,
        },
{
    proof {
        lemma_find_account_idx(las_view(list@), a@);
    }
    let ghost s = las_view(list@);
    let mut i: usize = 0;
    while i < list.len()
        invariant
            i <= list@.len(),
            s == las_view(list@),
            s.len() == list@.len(),
            forall|j: int| 0 <= j < i ==> s[j].account != a@,
        decreases list@.len() - i,
    {
        proof {
            assert(s[i as int] == list@[i as int]@);
        }
        if eq_stored_account(&list[i].account, a) {
            proof {
                lemma_find_account_idx(s, a@);
                assert(s[i as int].account == a@);
                assert(has_account(s, a@));
                let fi = find_account_idx(s, a@);
                assert(fi >= 0);
                if fi < i {
                    assert(s[fi].account != a@);
                }
                if fi > i {
                    assert(s[i as int].account != a@);
                }
            }
            return Some(i);
        }
        i += 1;
    }
    proof {
        lemma_find_account_idx(s, a@);
        if has_account(s, a@) {
            let w = choose|w: int| 0 <= w < s.len() && s[w].account == a@;
            assert(s[w].account != a@);
        }
    }
    None
}

/// The outcome of `add_account` on one owner's collection: the capacity
/// check, then the uniqueness check, then the serialized size wall.
pub open spec fn spec_add_account(s: Seq<LabeledAccountV>, la: LabeledAccountV) -> Result<
    Seq<LabeledAccountV>,
    RepoError,
> {
    if s.len() >= MAX_ACCOUNTS {
        Err(RepoError::CapacityExceeded)
    } else if has_account(s, la.account) {
        Err(RepoError::AlreadyExists)
    } else if se_accounts(s.push(la)).len() > MAX_SMALL_VALUE_BYTES {
        Err(RepoError::TooLarge)
    } else {
        Ok(s.push(la))
    }
}

/// Returns the owner's accounts, in insertion order; an unknown owner has
/// none. Never fails.
pub fn get_accounts(repo: &Repository, owner: &IdentityKey) -> (r: Vec<LabeledAccount>)
    requires
        repo.inv(),
    ensures
        las_view(r@) == owner_accounts(repo@, owner@),
{
    match repo.accounts_bytes(owner) {
        Some(bytes) => dec_accounts(bytes.as_slice(), Ghost(repo@.accounts[owner@])),
        None => {
            proof {
                assert(las_view(Seq::<LabeledAccount>::empty()) =~= Seq::<LabeledAccountV>::empty());
            }
            Vec::new()
        },
    }
}

impl Repository {
    /// Reads the stored account aggregate of one owner, with its decoding
    /// witness available from the invariant.
    fn accounts_bytes(&self, owner: &IdentityKey) -> (r: Option<Vec<u8>>)
        requires
            self.inv(),
        ensures
            match r {
                Some(bytes) => self@.accounts.contains_key(owner@) && bytes@ == se_accounts(
                    self@.accounts[owner@],
                ),
                None => !self@.accounts.contains_key(owner@),
            },
    {
        self.accounts.get(&owner.bytes)
    }
}

/// Records an account for the owner: fails when the owner already holds
/// [`MAX_ACCOUNTS`] accounts, when an equal account identifier is present,
/// or when the grown aggregate would exceed its size bound; otherwise the
/// account is appended and persisted.
pub fn add_account(repo: &mut Repository, owner: &IdentityKey, account: LabeledAccount) -> (r:
    Result<(), RepoError>)
    requires
        old(repo).inv(),
    ensures
        final(repo).inv(),
        match spec_add_account(owner_accounts(old(repo)@, owner@), account@) {
            Ok(ns) => r == Ok::<(), RepoError>(()) && final(repo)@ == with_accounts(
                old(repo)@,
                old(repo)@.accounts.insert(owner@, ns),
            ),
            Err(e) => r == Err::<(), RepoError>(e) && final(repo)@ == old(repo)@,
        },
{
    let ghost oa = owner_accounts(old(repo)@, owner@);
    let mut list: Vec<LabeledAccount> = get_accounts(repo, owner);
    if list.len() >= MAX_ACCOUNTS {
        return Err(RepoError::CapacityExceeded);
    }
    let dup = find_account(&list, &account.account);
    proof {
        lemma_find_account_idx(oa, account@.account);
    }
    if dup.is_some() {
        return Err(RepoError::AlreadyExists);
    }
    list.push(account);
    proof {
        assert(las_view(list@) =~= oa.push(account@)) by {
            assert forall|j: int| 0 <= j < list@.len() implies las_view(list@)[j] == oa.push(
                account@,
            )[j] by {
                assert(las_view(list@)[j] == list@[j]@);
            }
        }
    }
    let enc = enc_accounts(&list);
    if enc.len() > MAX_SMALL_VALUE_BYTES {
        return Err(RepoError::TooLarge);
    }
    let key = slice_to_vec(owner.bytes.as_slice());
    let _ = repo.accounts.insert(key, enc);
    let ghost ns = oa.push(account@);
    let ghost nm = with_accounts(repo@, repo@.accounts.insert(owner@, ns));
    repo.model = Ghost(nm);
    proof {
        assert(accounts_coupled(repo.accounts, repo@.accounts)) by {
            assert(partition_map(repo.accounts).dom() =~= repo@.accounts.dom());
        }
    }
    Ok(())
}

} // verus!

verus! {

/// The outcome of `remove_account` on one owner's account collection: the
/// entry with the given identifier leaves, or the call fails.
pub open spec fn spec_remove_account(s: Seq<LabeledAccountV>, a: StoredAccountV) -> Result<
    Seq<LabeledAccountV>,
    RepoError,
> {
    if !has_account(s, a) {
        Err(RepoError::NotFound)
    } else {
        Ok(s.remove(find_account_idx(s, a)))
    }
}

/// Removes one account. Fails `NotFound` when the owner has no accounts or
/// the identifier is absent. On success the owner's transaction labels are
/// always cleared; when the removed account was the last one, the owner's
/// account entry and custom transactions are deleted outright as well.
pub fn remove_account(repo: &mut Repository, owner: &IdentityKey, account: &StoredAccount) -> (r:
    Result<(), RepoError>)
    requires
        old(repo).inv(),
    ensures
        final(repo).inv(),
        match spec_remove_account(owner_accounts(old(repo)@, owner@), account@) {
            Ok(ns) => {
                &&& r == Ok::<(), RepoError>(())
                &&& final(repo)@.tx_labels == old(repo)@.tx_labels.remove(owner@)
                &&& final(repo)@.labels == old(repo)@.labels
                &&& final(repo)@.products == old(repo)@.products
                &&& ns.len() == 0 ==> final(repo)@.accounts == old(repo)@.accounts.remove(owner@)
                    && final(repo)@.custom == old(repo)@.custom.remove(owner@)
                &&& ns.len() > 0 ==> final(repo)@.accounts == old(repo)@.accounts.insert(
                    owner@,
                    ns,
                ) && final(repo)@.custom == old(repo)@.custom
            },
            Err(e) => r == Err::<(), RepoError>(e) && final(repo)@ == old(repo)@,
        },
{
    let ghost oa = owner_accounts(old(repo)@, owner@);
    let stored = repo.accounts_bytes(owner);
    let mut list: Vec<LabeledAccount> = match stored {
        Some(bytes) => dec_accounts(bytes.as_slice(), Ghost(repo@.accounts[owner@])),
        None => {
            proof {
                lemma_find_account_idx(oa, account@);
            }
            return Err(RepoError::NotFound);
        },
    };
    let pos = find_account(&list, account);
    proof {
        lemma_find_account_idx(oa, account@);
    }
    let i: usize = match pos {
        Some(i) => i,
        None => {
            return Err(RepoError::NotFound);
        },
    };
    let ghost l0 = list@;
    let _removed = list.remove(i);
    let ghost ns = oa.remove(i as int);
    proof {
        assert(las_view(list@) =~= ns) by {
            assert forall|j: int| 0 <= j < list@.len() implies las_view(list@)[j] == ns[j] by {
                assert(las_view(list@)[j] == list@[j]@);
                if j < i {
                    assert(list@[j] == l0[j]);
                    assert(oa[j] == l0[j]@);
                } else {
                    assert(list@[j] == l0[j + 1]);
                    assert(oa[j + 1] == l0[j + 1]@);
                }
            }
        }
    }
    let _ = repo.tx_labels.remove(&owner.bytes);
    if list.len() == 0 {
        let _ = repo.accounts.remove(&owner.bytes);
        let _ = repo.custom.remove(&owner.bytes);
        let ghost nm = with_accounts(
            with_tx_labels(
                with_custom(repo@, repo@.custom.remove(owner@)),
                repo@.tx_labels.remove(owner@),
            ),
            repo@.accounts.remove(owner@),
        );
        repo.model = Ghost(nm);
        proof {
            assert(accounts_coupled(repo.accounts, repo@.accounts)) by {
                assert(partition_map(repo.accounts).dom() =~= repo@.accounts.dom());
            }
            assert(tx_labels_coupled(repo.tx_labels, repo@.tx_labels)) by {
                assert(partition_map(repo.tx_labels).dom() =~= repo@.tx_labels.dom());
            }
            assert(custom_coupled(repo.custom, repo@.custom)) by {
                assert(partition_map(repo.custom).dom() =~= repo@.custom.dom());
            }
        }
    } else {
        let enc = enc_accounts(&list);
        let key = slice_to_vec(owner.bytes.as_slice());
        let _ = repo.accounts.insert(key, enc);
        let ghost nm = with_accounts(
            with_tx_labels(repo@, repo@.tx_labels.remove(owner@)),
            repo@.accounts.insert(owner@, ns),
        );
        repo.model = Ghost(nm);
        proof {
            assert(accounts_coupled(repo.accounts, repo@.accounts)) by {
                assert(partition_map(repo.accounts).dom() =~= repo@.accounts.dom());
            }
            assert(tx_labels_coupled(repo.tx_labels, repo@.tx_labels)) by {
                assert(partition_map(repo.tx_labels).dom() =~= repo@.tx_labels.dom());
            }
        }
    }
    Ok(())
}

/// The outcome of `update_account` on one owner's collection: the entry with
/// the same identifier is replaced, keeping its position.
pub open spec fn spec_update_account(s: Seq<LabeledAccountV>, la: LabeledAccountV) -> Result<
    Seq<LabeledAccountV>,
    RepoError,
> {
    if !has_account(s, la.account) {
        Err(RepoError::NotFound)
    } else if se_accounts(s.update(find_account_idx(s, la.account), la)).len()
        > MAX_SMALL_VALUE_BYTES {
        Err(RepoError::TooLarge)
    } else {
        Ok(s.update(find_account_idx(s, la.account), la))
    }
}

/// Replaces the entry whose identifier equals `account.account`. Fails
/// `NotFound` when the owner has no accounts or the identifier is absent,
/// and `TooLarge` when the grown aggregate would exceed its size bound.
pub fn update_account(repo: &mut Repository, owner: &IdentityKey, account: LabeledAccount) -> (r:
    Result<(), RepoError>)
    requires
        old(repo).inv(),
    ensures
        final(repo).inv(),
        match spec_update_account(owner_accounts(old(repo)@, owner@), account@) {
            Ok(ns) => r == Ok::<(), RepoError>(()) && final(repo)@ == with_accounts(
                old(repo)@,
                old(repo)@.accounts.insert(owner@, ns),
            ),
            Err(e) => r == Err::<(), RepoError>(e) && final(repo)@ == old(repo)@,
        },
{
    let ghost oa = owner_accounts(old(repo)@, owner@);
    let stored = repo.accounts_bytes(owner);
    let mut list: Vec<LabeledAccount> = match stored {
        Some(bytes) => dec_accounts(bytes.as_slice(), Ghost(repo@.accounts[owner@])),
        None => {
            proof {
                lemma_find_account_idx(oa, account@.account);
            }
            return Err(RepoError::NotFound);
        },
    };
    let pos = find_account(&list, &account.account);
    proof {
        lemma_find_account_idx(oa, account@.account);
    }
    let i: usize = match pos {
        Some(i) => i,
        None => {
            return Err(RepoError::NotFound);
        },
    };
    let ghost la = account@;
    let ghost l0 = list@;
    let _removed = list.remove(i);
    list.insert(i, account);
    let ghost ns = oa.update(i as int, la);
    proof {
        assert(las_view(list@) =~= ns) by {
            assert forall|j: int| 0 <= j < list@.len() implies las_view(list@)[j] == ns[j] by {
                assert(las_view(list@)[j] == list@[j]@);
                if j < i {
                    assert(list@[j] == l0[j]);
                    assert(oa[j] == l0[j]@);
                } else if j > i {
                    assert(list@[j] == l0[j]);
                    assert(oa[j] == l0[j]@);
                }
            }
        }
    }
    let enc = enc_accounts(&list);
    if enc.len() > MAX_SMALL_VALUE_BYTES {
        return Err(RepoError::TooLarge);
    }
    let key = slice_to_vec(owner.bytes.as_slice());
    let _ = repo.accounts.insert(key, enc);
    let ghost nm = with_accounts(repo@, repo@.accounts.insert(owner@, ns));
    repo.model = Ghost(nm);
    proof {
        assert(accounts_coupled(repo.accounts, repo@.accounts)) by {
            assert(partition_map(repo.accounts).dom() =~= repo@.accounts.dom());
        }
    }
    Ok(())
}

} // verus!

verus! {

/// Whether the collection holds a record for the transaction id.
pub open spec fn has_tx_id(s: Seq<TxLabelV>, id: u64) -> bool {
    exists|i: int| 0 <= i < s.len() && s[i].id == id
}

/// The index of the first record with the transaction id, or -1.
pub open spec fn find_tx_idx(s: Seq<TxLabelV>, id: u64) -> int
    decreases s.len(),
{
    if s.len() == 0 {
        -1
    } else if s[0].id == id {
        0
    } else if find_tx_idx(s.drop_first(), id) < 0 {
        -1
    } else {
        1 + find_tx_idx(s.drop_first(), id)
    }
}

/// `find_tx_idx` finds the first matching record, and a negative result
/// means there is none.
pub proof fn lemma_find_tx_idx(s: Seq<TxLabelV>, id: u64)
    ensures
        has_tx_id(s, id) <==> find_tx_idx(s, id) >= 0,
        find_tx_idx(s, id) >= 0 ==> {
            &&& find_tx_idx(s, id) < s.len()
            &&& s[find_tx_idx(s, id)].id == id
            &&& forall|j: int| 0 <= j < find_tx_idx(s, id) ==> s[j].id != id
        },
    decreases s.len(),
{
    if s.len() == 0 {
    } else if s[0].id == id {
    } else {
        let t = s.drop_first();
        lemma_find_tx_idx(t, id);
        assert forall|i: int| 0 <= i < s.len() && s[i].id == id implies has_tx_id(t, id) by {
            assert(t[i - 1] == s[i]);
        }
        if find_tx_idx(s, id) >= 0 {
            let fi = find_tx_idx(s, id);
            assert(s[fi] == t[fi - 1]);
            assert forall|j: int| 0 <= j < fi implies s[j].id != id by {
                if j > 0 {
                    assert(s[j] == t[j - 1]);
                }
            }
        }
    }
}

/// Finds the first record with the given transaction id.
fn find_tx(list: &Vec<TransactionLabelRecord>, id: u64) -> (r: Option<usize>)
    ensures
        match r {
            Some(i) => i == find_tx_idx(txls_view(list@), id),
            None => find_tx_idx(txls_view(list@), id) < 0,
        },
{
    let ghost s = txls_view(list@);
    let mut i: usize = 0;
    while i < list.len()
        invariant
            i <= list@.len(),
            s == txls_view(list@),
            s.len() == list@.len(),
            forall|j: int| 0 <= j < i ==> s[j].id != id,
        decreases list@.len() - i,
    {
        proof {
            assert(s[i as int] == list@[i as int]@);
        }
        if list[i].id == id {
            proof {
                lemma_find_tx_idx(s, id);
                assert(s[i as int].id == id);
                assert(has_tx_id(s, id));
                let fi = find_tx_idx(s, id);
                assert(fi >= 0);
                if fi < i {
                    assert(s[fi].id != id);
                }
                if fi > i {
                    assert(s[i as int].id != id);
                }
            }
            return Some(i);
        }
        i += 1;
    }
    proof {
        lemma_find_tx_idx(s, id);
        if has_tx_id(s, id) {
            let w = choose|w: int| 0 <= w < s.len() && s[w].id == id;
            assert(s[w].id != id);
        }
    }
    None
}

/// The outcome of `set_transaction_label`: an upsert by transaction id with
/// no count cap, only the serialized size wall.
pub open spec fn spec_set_tx_label(s: Seq<TxLabelV>, id: u64, label: Seq<char>) -> Result<
    Seq<TxLabelV>,
    RepoError,
> {
    let rec = TxLabelV { id, label };
    let ns = if has_tx_id(s, id) {
        s.update(find_tx_idx(s, id), rec)
    } else {
        s.push(rec)
    };
    if se_tx_labels(ns).len() > MAX_SMALL_VALUE_BYTES {
        Err(RepoError::TooLarge)
    } else {
        Ok(ns)
    }
}

/// Returns the owner's transaction labels; an unknown owner has none.
pub fn get_transaction_labels(repo: &Repository, owner: &IdentityKey) -> (r: Vec<
    TransactionLabelRecord,
>)
    requires
        repo.inv(),
    ensures
        txls_view(r@) == owner_tx_labels(repo@, owner@),
{
    match repo.tx_labels_bytes(owner) {
        Some(bytes) => dec_tx_labels(bytes.as_slice(), Ghost(repo@.tx_labels[owner@])),
        None => {
            proof {
                assert(txls_view(Seq::<TransactionLabelRecord>::empty()) =~= Seq::<
                    TxLabelV,
                >::empty());
            }
            Vec::new()
        },
    }
}

impl Repository {
    /// Reads the stored transaction-label aggregate of one owner.
    fn tx_labels_bytes(&self, owner: &IdentityKey) -> (r: Option<Vec<u8>>)
        requires
            self.inv(),
        ensures
            match r {
                Some(bytes) => self@.tx_labels.contains_key(owner@) && bytes@ == se_tx_labels(
                    self@.tx_labels[owner@],
                ),
                None => !self@.tx_labels.contains_key(owner@),
            },
    {
        self.tx_labels.get(&owner.bytes)
    }
}

/// Attaches a label to a transaction id: the record is overwritten when the
/// id is present and appended otherwise. No count cap applies; only the
/// serialized size wall can refuse the write.
pub fn set_transaction_label(
    repo: &mut Repository,
    owner: &IdentityKey,
    transaction_id: u64,
    label: String,
) -> (r: Result<(), RepoError>)
    requires
        old(repo).inv(),
    ensures
        final(repo).inv(),
        match spec_set_tx_label(owner_tx_labels(old(repo)@, owner@), transaction_id, label@) {
            Ok(ns) => r == Ok::<(), RepoError>(()) && final(repo)@ == with_tx_labels(
                old(repo)@,
                old(repo)@.tx_labels.insert(owner@, ns),
            ),
            Err(e) => r == Err::<(), RepoError>(e) && final(repo)@ == old(repo)@,
        },
{
    let ghost ol = owner_tx_labels(old(repo)@, owner@);
    let mut list: Vec<TransactionLabelRecord> = get_transaction_labels(repo, owner);
    let pos = find_tx(&list, transaction_id);
    proof {
        lemma_find_tx_idx(ol, transaction_id);
    }
    let rec = TransactionLabelRecord { id: transaction_id, label };
    let ghost rv = rec@;
    let ghost l0 = list@;
    match pos {
        Some(i) => {
            let _ = list.remove(i);
            list.insert(i, rec);
            proof {
                assert(txls_view(list@) =~= ol.update(find_tx_idx(ol, transaction_id), rv)) by {
                    assert forall|j: int| 0 <= j < list@.len() implies txls_view(list@)[j]
                        == ol.update(find_tx_idx(ol, transaction_id), rv)[j] by {
                        assert(txls_view(list@)[j] == list@[j]@);
                        if j != i {
                            assert(list@[j] == l0[j]);
                            assert(ol[j] == l0[j]@);
                        }
                    }
                }
            }
        },
        None => {
            list.push(rec);
            proof {
                assert(txls_view(list@) =~= ol.push(rv)) by {
                    assert forall|j: int| 0 <= j < list@.len() implies txls_view(list@)[j]
                        == ol.push(rv)[j] by {
                        assert(txls_view(list@)[j] == list@[j]@);
                        if j < l0.len() {
                            assert(list@[j] == l0[j]);
                            assert(ol[j] == l0[j]@);
                        }
                    }
                }
            }
        },
    }
    let enc = enc_tx_labels(&list);
    if enc.len() > MAX_SMALL_VALUE_BYTES {
        return Err(RepoError::TooLarge);
    }
    let key = slice_to_vec(owner.bytes.as_slice());
    let _ = repo.tx_labels.insert(key, enc);
    let ghost ns = txls_view(list@);
    let ghost nm = with_tx_labels(repo@, repo@.tx_labels.insert(owner@, ns));
    repo.model = Ghost(nm);
    proof {
        assert(tx_labels_coupled(repo.tx_labels, repo@.tx_labels)) by {
            assert(partition_map(repo.tx_labels).dom() =~= repo@.tx_labels.dom());
        }
    }
    Ok(())
}

} // verus!

verus! {

/// Whether the collection holds a transaction with the given id.
pub open spec fn has_custom_id(s: Seq<CustomTxV>, id: Seq<char>) -> bool {
    exists|i: int| 0 <= i < s.len() && s[i].id == id
}

/// The index of the first transaction with the given id, or -1.
pub open spec fn find_custom_idx(s: Seq<CustomTxV>, id: Seq<char>) -> int
    decreases s.len(),
{
    if s.len() == 0 {
        -1
    } else if s[0].id == id {
        0
    } else if find_custom_idx(s.drop_first(), id) < 0 {
        -1
    } else {
        1 + find_custom_idx(s.drop_first(), id)
    }
}

/// `find_custom_idx` finds the first matching transaction, and a negative
/// result means there is none.
pub proof fn lemma_find_custom_idx(s: Seq<CustomTxV>, id: Seq<char>)
    ensures
        has_custom_id(s, id) <==> find_custom_idx(s, id) >= 0,
        find_custom_idx(s, id) >= 0 ==> {
            &&& find_custom_idx(s, id) < s.len()
            &&& s[find_custom_idx(s, id)].id == id
            &&& forall|j: int| 0 <= j < find_custom_idx(s, id) ==> s[j].id != id
        },
    decreases s.len(),
{
    if s.len() == 0 {
    } else if s[0].id == id {
    } else {
        let t = s.drop_first();
        lemma_find_custom_idx(t, id);
        assert forall|i: int| 0 <= i < s.len() && s[i].id == id implies has_custom_id(t, id) by {
            assert(t[i - 1] == s[i]);
        }
        if find_custom_idx(s, id) >= 0 {
            let fi = find_custom_idx(s, id);
            assert(s[fi] == t[fi - 1]);
            assert forall|j: int| 0 <= j < fi implies s[j].id != id by {
                if j > 0 {
                    assert(s[j] == t[j - 1]);
                }
            }
        }
    }
}

/// Finds the first transaction with the given id.
fn find_custom(list: &Vec<CustomTransaction>, id: &str) -> (r: Option<usize>)
    ensures
        match r {
            Some(i) => i == find_custom_idx(ctxs_view(list@), id@),
            None => find_custom_idx(ctxs_view(list@), id@) < 0,
        },
{
    let ghost s = ctxs_view(list@);
    let mut i: usize = 0;
    while i < list.len()
        invariant
            i <= list@.len(),
            s == ctxs_view(list@),
            s.len() == list@.len(),
            forall|j: int| 0 <= j < i ==> s[j].id != id@,
        decreases list@.len() - i,
    {
        proof {
            assert(s[i as int] == list@[i as int]@);
        }
        if crate::text::eq_str(list[i].id.as_str(), id) {
            proof {
                lemma_find_custom_idx(s, id@);
                assert(s[i as int].id == id@);
                assert(has_custom_id(s, id@));
                let fi = find_custom_idx(s, id@);
                assert(fi >= 0);
                if fi < i {
                    assert(s[fi].id != id@);
                }
                if fi > i {
                    assert(s[i as int].id != id@);
                }
            }
            return Some(i);
        }
        i += 1;
    }
    proof {
        lemma_find_custom_idx(s, id@);
        if has_custom_id(s, id@) {
            let w = choose|w: int| 0 <= w < s.len() && s[w].id == id@;
            assert(s[w].id != id@);
        }
    }
    None
}

/// The id a created custom transaction is stored under: the supplied id
/// trimmed, or, when that is blank, the id derived from the supplied time.
pub open spec fn effective_custom_id(id: Seq<char>, now_ns: u64) -> Seq<char> {
    if crate::text::spec_trim(id).len() == 0 {
        crate::text::spec_derived_id(now_ns)
    } else {
        crate::text::spec_trim(id)
    }
}

/// The outcome of `create_custom_transaction`: the effective id must be new
/// — a collision is refused, never retried — and the grown aggregate must
/// fit its size bound.
pub open spec fn spec_create_custom_tx(s: Seq<CustomTxV>, tx: CustomTxV, now_ns: u64) -> Result<
    Seq<CustomTxV>,
    RepoError,
> {
    let id = effective_custom_id(tx.id, now_ns);
    let ns = s.push(CustomTxV { id, timestamp_ms: tx.timestamp_ms, label: tx.label, amount: tx.amount });
    if has_custom_id(s, id) {
        Err(RepoError::Conflict)
    } else if se_custom_txs(ns).len() > MAX_CUSTOM_TX_VALUE_BYTES {
        Err(RepoError::TooLarge)
    } else {
        Ok(ns)
    }
}

/// Returns the owner's custom transactions; an unknown owner has none.
pub fn get_custom_transactions(repo: &Repository, owner: &IdentityKey) -> (r: Vec<
    CustomTransaction,
>)
    requires
        repo.inv(),
    ensures
        ctxs_view(r@) == owner_custom(repo@, owner@),
{
    match repo.custom_bytes(owner) {
        Some(bytes) => dec_custom_txs(bytes.as_slice(), Ghost(repo@.custom[owner@])),
        None => {
            proof {
                assert(ctxs_view(Seq::<CustomTransaction>::empty()) =~= Seq::<CustomTxV>::empty());
            }
            Vec::new()
        },
    }
}

impl Repository {
    /// Reads the stored custom-transaction aggregate of one owner.
    fn custom_bytes(&self, owner: &IdentityKey) -> (r: Option<Vec<u8>>)
        requires
            self.inv(),
        ensures
            match r {
                Some(bytes) => self@.custom.contains_key(owner@) && bytes@ == se_custom_txs(
                    self@.custom[owner@],
                ),
                None => !self@.custom.contains_key(owner@),
            },
    {
        self.custom.get(&owner.bytes)
    }
}

/// Records a custom transaction and returns the id it is stored under. A
/// blank id is replaced by one derived from the supplied time; an id already
/// in use fails `Conflict` rather than being disambiguated.
pub fn create_custom_transaction(
    repo: &mut Repository,
    owner: &IdentityKey,
    transaction: CustomTransaction,
    now_ns: u64,
) -> (r: Result<String, RepoError>)
    requires
        old(repo).inv(),
    ensures
        final(repo).inv(),
        match spec_create_custom_tx(owner_custom(old(repo)@, owner@), transaction@, now_ns) {
            Ok(ns) => {
                &&& r is Ok
                &&& r->Ok_0@ == effective_custom_id(transaction@.id, now_ns)
                &&& final(repo)@ == with_custom(
                    old(repo)@,
                    old(repo)@.custom.insert(owner@, ns),
                )
            },
            Err(e) => r == Err::<String, RepoError>(e) && final(repo)@ == old(repo)@,
        },
{
    let ghost oc = owner_custom(old(repo)@, owner@);
    let mut list: Vec<CustomTransaction> = get_custom_transactions(repo, owner);
    let trimmed = crate::text::trim_text(transaction.id.as_str());
    let id: String = if trimmed.as_str().is_empty() {
        crate::text::derived_custom_id(now_ns)
    } else {
        trimmed
    };
    proof {
        assert(id@ == effective_custom_id(transaction@.id, now_ns));
    }
    let pos = find_custom(&list, id.as_str());
    proof {
        lemma_find_custom_idx(oc, id@);
    }
    if pos.is_some() {
        return Err(RepoError::Conflict);
    }
    let stored = CustomTransaction {
        id: id.clone(),
        timestamp_ms: transaction.timestamp_ms,
        label: transaction.label,
        amount: transaction.amount,
    };
    let ghost sv = stored@;
    let ghost l0 = list@;
    list.push(stored);
    proof {
        assert(ctxs_view(list@) =~= oc.push(sv)) by {
            assert forall|j: int| 0 <= j < list@.len() implies ctxs_view(list@)[j] == oc.push(
                sv,
            )[j] by {
                assert(ctxs_view(list@)[j] == list@[j]@);
                if j < l0.len() {
                    assert(list@[j] == l0[j]);
                    assert(oc[j] == l0[j]@);
                }
            }
        }
    }
    let enc = enc_custom_txs(&list);
    if enc.len() > MAX_CUSTOM_TX_VALUE_BYTES {
        return Err(RepoError::TooLarge);
    }
    let key = slice_to_vec(owner.bytes.as_slice());
    let _ = repo.custom.insert(key, enc);
    let ghost ns = ctxs_view(list@);
    let ghost nm = with_custom(repo@, repo@.custom.insert(owner@, ns));
    repo.model = Ghost(nm);
    proof {
        assert(custom_coupled(repo.custom, repo@.custom)) by {
            assert(partition_map(repo.custom).dom() =~= repo@.custom.dom());
        }
    }
    Ok(id)
}

/// The outcome of `update_custom_transaction`: the transaction with the same
/// id is replaced in place.
pub open spec fn spec_update_custom_tx(s: Seq<CustomTxV>, tx: CustomTxV) -> Result<
    Seq<CustomTxV>,
    RepoError,
> {
    if !has_custom_id(s, tx.id) {
        Err(RepoError::NotFound)
    } else if se_custom_txs(s.update(find_custom_idx(s, tx.id), tx)).len()
        > MAX_CUSTOM_TX_VALUE_BYTES {
        Err(RepoError::TooLarge)
    } else {
        Ok(s.update(find_custom_idx(s, tx.id), tx))
    }
}

/// Replaces the custom transaction whose id equals `transaction.id`. Fails
/// `NotFound` when the owner has none or the id is absent.
pub fn update_custom_transaction(
    repo: &mut Repository,
    owner: &IdentityKey,
    transaction: CustomTransaction,
) -> (r: Result<(), RepoError>)
    requires
        old(repo).inv(),
    ensures
        final(repo).inv(),
        match spec_update_custom_tx(owner_custom(old(repo)@, owner@), transaction@) {
            Ok(ns) => r == Ok::<(), RepoError>(()) && final(repo)@ == with_custom(
                old(repo)@,
                old(repo)@.custom.insert(owner@, ns),
            ),
            Err(e) => r == Err::<(), RepoError>(e) && final(repo)@ == old(repo)@,
        },
{
    let ghost oc = owner_custom(old(repo)@, owner@);
    let stored = repo.custom_bytes(owner);
    let mut list: Vec<CustomTransaction> = match stored {
        Some(bytes) => dec_custom_txs(bytes.as_slice(), Ghost(repo@.custom[owner@])),
        None => {
            proof {
                lemma_find_custom_idx(oc, transaction@.id);
            }
            return Err(RepoError::NotFound);
        },
    };
    let pos = find_custom(&list, transaction.id.as_str());
    proof {
        lemma_find_custom_idx(oc, transaction@.id);
    }
    let i: usize = match pos {
        Some(i) => i,
        None => {
            return Err(RepoError::NotFound);
        },
    };
    let ghost tv = transaction@;
    let ghost l0 = list@;
    let _ = list.remove(i);
    list.insert(i, transaction);
    let ghost ns = oc.update(i as int, tv);
    proof {
        assert(ctxs_view(list@) =~= ns) by {
            assert forall|j: int| 0 <= j < list@.len() implies ctxs_view(list@)[j] == ns[j] by {
                assert(ctxs_view(list@)[j] == list@[j]@);
                if j != i {
                    assert(list@[j] == l0[j]);
                    assert(oc[j] == l0[j]@);
                }
            }
        }
    }
    let enc = enc_custom_txs(&list);
    if enc.len() > MAX_CUSTOM_TX_VALUE_BYTES {
        return Err(RepoError::TooLarge);
    }
    let key = slice_to_vec(owner.bytes.as_slice());
    let _ = repo.custom.insert(key, enc);
    let ghost nm = with_custom(repo@, repo@.custom.insert(owner@, ns));
    repo.model = Ghost(nm);
    proof {
        assert(custom_coupled(repo.custom, repo@.custom)) by {
            assert(partition_map(repo.custom).dom() =~= repo@.custom.dom());
        }
    }
    Ok(())
}

/// The outcome of `delete_custom_transaction`: the transaction with the id
/// leaves the collection.
pub open spec fn spec_delete_custom_tx(s: Seq<CustomTxV>, id: Seq<char>) -> Result<
    Seq<CustomTxV>,
    RepoError,
> {
    if !has_custom_id(s, id) {
        Err(RepoError::NotFound)
    } else {
        Ok(s.remove(find_custom_idx(s, id)))
    }
}

/// Deletes the custom transaction with the given id. Fails `NotFound` when
/// the owner has none or the id is absent; the owner's entry is deleted
/// outright once its collection becomes empty.
pub fn delete_custom_transaction(repo: &mut Repository, owner: &IdentityKey, id: &str) -> (r:
    Result<(), RepoError>)
    requires
        old(repo).inv(),
    ensures
        final(repo).inv(),
        match spec_delete_custom_tx(owner_custom(old(repo)@, owner@), id@) {
            Ok(ns) => {
                &&& r == Ok::<(), RepoError>(())
                &&& final(repo)@.accounts == old(repo)@.accounts
                &&& final(repo)@.tx_labels == old(repo)@.tx_labels
                &&& final(repo)@.labels == old(repo)@.labels
                &&& final(repo)@.products == old(repo)@.products
                &&& ns.len() == 0 ==> final(repo)@.custom == old(repo)@.custom.remove(owner@)
                &&& ns.len() > 0 ==> final(repo)@.custom == old(repo)@.custom.insert(owner@, ns)
            },
            Err(e) => r == Err::<(), RepoError>(e) && final(repo)@ == old(repo)@,
        },
{
    let ghost oc = owner_custom(old(repo)@, owner@);
    let stored = repo.custom_bytes(owner);
    let mut list: Vec<CustomTransaction> = match stored {
        Some(bytes) => dec_custom_txs(bytes.as_slice(), Ghost(repo@.custom[owner@])),
        None => {
            proof {
                lemma_find_custom_idx(oc, id@);
            }
            return Err(RepoError::NotFound);
        },
    };
    let pos = find_custom(&list, id);
    proof {
        lemma_find_custom_idx(oc, id@);
    }
    let i: usize = match pos {
        Some(i) => i,
        None => {
            return Err(RepoError::NotFound);
        },
    };
    let ghost l0 = list@;
    let _ = list.remove(i);
    let ghost ns = oc.remove(i as int);
    proof {
        assert(ctxs_view(list@) =~= ns) by {
            assert forall|j: int| 0 <= j < list@.len() implies ctxs_view(list@)[j] == ns[j] by {
                assert(ctxs_view(list@)[j] == list@[j]@);
                if j < i {
                    assert(list@[j] == l0[j]);
                    assert(oc[j] == l0[j]@);
                } else {
                    assert(list@[j] == l0[j + 1]);
                    assert(oc[j + 1] == l0[j + 1]@);
                }
            }
        }
    }
    if list.len() == 0 {
        let _ = repo.custom.remove(&owner.bytes);
        let ghost nm = with_custom(repo@, repo@.custom.remove(owner@));
        repo.model = Ghost(nm);
        proof {
            assert(custom_coupled(repo.custom, repo@.custom)) by {
                assert(partition_map(repo.custom).dom() =~= repo@.custom.dom());
            }
        }
    } else {
        let enc = enc_custom_txs(&list);
        let key = slice_to_vec(owner.bytes.as_slice());
        let _ = repo.custom.insert(key, enc);
        let ghost nm = with_custom(repo@, repo@.custom.insert(owner@, ns));
        repo.model = Ghost(nm);
        proof {
            assert(custom_coupled(repo.custom, repo@.custom)) by {
                assert(partition_map(repo.custom).dom() =~= repo@.custom.dom());
            }
        }
    }
    Ok(())
}

} // verus!

verus! {

/// Whether the list holds an equal string.
pub open spec fn has_str(s: Seq<Seq<char>>, x: Seq<char>) -> bool {
    exists|i: int| 0 <= i < s.len() && s[i] == x
}

/// The index of the first equal string, or -1.
pub open spec fn find_str_idx(s: Seq<Seq<char>>, x: Seq<char>) -> int
    decreases s.len(),
{
    if s.len() == 0 {
        -1
    } else if s[0] == x {
        0
    } else if find_str_idx(s.drop_first(), x) < 0 {
        -1
    } else {
        1 + find_str_idx(s.drop_first(), x)
    }
}

/// `find_str_idx` finds the first equal string, and a negative result means
/// there is none.
pub proof fn lemma_find_str_idx(s: Seq<Seq<char>>, x: Seq<char>)
    ensures
        has_str(s, x) <==> find_str_idx(s, x) >= 0,
        find_str_idx(s, x) >= 0 ==> {
            &&& find_str_idx(s, x) < s.len()
            &&& s[find_str_idx(s, x)] == x
            &&& forall|j: int| 0 <= j < find_str_idx(s, x) ==> s[j] != x
        },
    decreases s.len(),
{
    if s.len() == 0 {
    } else if s[0] == x {
    } else {
        let t = s.drop_first();
        lemma_find_str_idx(t, x);
        assert forall|i: int| 0 <= i < s.len() && s[i] == x implies has_str(t, x) by {
            assert(t[i - 1] == s[i]);
        }
        if find_str_idx(s, x) >= 0 {
            let fi = find_str_idx(s, x);
            assert(s[fi] == t[fi - 1]);
            assert forall|j: int| 0 <= j < fi implies s[j] != x by {
                if j > 0 {
                    assert(s[j] == t[j - 1]);
                }
            }
        }
    }
}

/// Finds the first string equal to `x`.
fn find_str(list: &Vec<String>, x: &str) -> (r: Option<usize>)
    ensures
        match r {
            Some(i) => i == find_str_idx(strs_view(list@), x@),
            None => find_str_idx(strs_view(list@), x@) < 0,
        },
{
    let ghost s = strs_view(list@);
    let mut i: usize = 0;
    while i < list.len()
        invariant
            i <= list@.len(),
            s == strs_view(list@),
            s.len() == list@.len(),
            forall|j: int| 0 <= j < i ==> s[j] != x@,
        decreases list@.len() - i,
    {
        proof {
            assert(s[i as int] == list@[i as int]@);
        }
        if crate::text::eq_str(list[i].as_str(), x) {
            proof {
                lemma_find_str_idx(s, x@);
                assert(s[i as int] == x@);
                assert(has_str(s, x@));
                let fi = find_str_idx(s, x@);
                assert(fi >= 0);
                if fi < i {
                    assert(s[fi] != x@);
                }
                if fi > i {
                    assert(s[i as int] != x@);
                }
            }
            return Some(i);
        }
        i += 1;
    }
    proof {
        lemma_find_str_idx(s, x@);
        if has_str(s, x@) {
            let w = choose|w: int| 0 <= w < s.len() && s[w] == x@;
            assert(s[w] != x@);
        }
    }
    None
}

/// The outcome of adding to a taxonomy list: the capacity check, the exact
/// dedup check, then the serialized size wall.
pub open spec fn spec_add_entry(s: Seq<Seq<char>>, x: Seq<char>) -> Result<
    Seq<Seq<char>>,
    RepoError,
> {
    if s.len() >= MAX_LIST_ENTRIES {
        Err(RepoError::CapacityExceeded)
    } else if has_str(s, x) {
        Err(RepoError::AlreadyExists)
    } else if se_str_list(s.push(x)).len() > MAX_SMALL_VALUE_BYTES {
        Err(RepoError::TooLarge)
    } else {
        Ok(s.push(x))
    }
}

/// The outcome of removing from a taxonomy list: the first equal string
/// leaves; an absent string leaves the list as it is.
pub open spec fn spec_remove_entry(s: Seq<Seq<char>>, x: Seq<char>) -> Seq<Seq<char>> {
    if has_str(s, x) {
        s.remove(find_str_idx(s, x))
    } else {
        s
    }
}

impl Repository {
    /// Reads the stored label list of one owner.
    fn labels_bytes(&self, owner: &IdentityKey) -> (r: Option<Vec<u8>>)
        requires
            self.inv(),
        ensures
            match r {
                Some(bytes) => self@.labels.contains_key(owner@) && bytes@ == se_str_list(
                    self@.labels[owner@],
                ),
                None => !self@.labels.contains_key(owner@),
            },
    {
        self.labels.get(&owner.bytes)
    }

    /// Reads the stored product list of one owner.
    fn products_bytes(&self, owner: &IdentityKey) -> (r: Option<Vec<u8>>)
        requires
            self.inv(),
        ensures
            match r {
                Some(bytes) => self@.products.contains_key(owner@) && bytes@ == se_str_list(
                    self@.products[owner@],
                ),
                None => !self@.products.contains_key(owner@),
            },
    {
        self.products.get(&owner.bytes)
    }
}

/// Returns the owner's labels, in insertion order; an unknown owner has none.
pub fn get_labels(repo: &Repository, owner: &IdentityKey) -> (r: Vec<String>)
    requires
        repo.inv(),
    ensures
        strs_view(r@) == owner_labels(repo@, owner@),
{
    match repo.labels_bytes(owner) {
        Some(bytes) => dec_str_list(bytes.as_slice(), Ghost(repo@.labels[owner@])),
        None => {
            proof {
                assert(strs_view(Seq::<String>::empty()) =~= Seq::<Seq<char>>::empty());
            }
            Vec::new()
        },
    }
}

/// Returns the owner's products, in insertion order; an unknown owner has
/// none.
pub fn get_products(repo: &Repository, owner: &IdentityKey) -> (r: Vec<String>)
    requires
        repo.inv(),
    ensures
        strs_view(r@) == owner_products(repo@, owner@),
{
    match repo.products_bytes(owner) {
        Some(bytes) => dec_str_list(bytes.as_slice(), Ghost(repo@.products[owner@])),
        None => {
            proof {
                assert(strs_view(Seq::<String>::empty()) =~= Seq::<Seq<char>>::empty());
            }
            Vec::new()
        },
    }
}

/// Appends a label to the owner's list if it is not present: fails
/// `CapacityExceeded` at [`MAX_LIST_ENTRIES`] entries and `AlreadyExists` on
/// an exact duplicate.
pub fn add_label(repo: &mut Repository, owner: &IdentityKey, label: String) -> (r: Result<
    (),
    RepoError,
>)
    requires
        old(repo).inv(),
    ensures
        final(repo).inv(),
        match spec_add_entry(owner_labels(old(repo)@, owner@), label@) {
            Ok(ns) => r == Ok::<(), RepoError>(()) && final(repo)@ == with_labels(
                old(repo)@,
                old(repo)@.labels.insert(owner@, ns),
            ),
            Err(e) => r == Err::<(), RepoError>(e) && final(repo)@ == old(repo)@,
        },
{
    let ghost ol = owner_labels(old(repo)@, owner@);
    let mut list: Vec<String> = get_labels(repo, owner);
    if list.len() >= MAX_LIST_ENTRIES {
        return Err(RepoError::CapacityExceeded);
    }
    let pos = find_str(&list, label.as_str());
    proof {
        lemma_find_str_idx(ol, label@);
    }
    if pos.is_some() {
        return Err(RepoError::AlreadyExists);
    }
    let ghost l0 = list@;
    let ghost lv = label@;
    list.push(label);
    proof {
        assert(strs_view(list@) =~= ol.push(lv)) by {
            assert forall|j: int| 0 <= j < list@.len() implies strs_view(list@)[j] == ol.push(
                lv,
            )[j] by {
                assert(strs_view(list@)[j] == list@[j]@);
                if j < l0.len() {
                    assert(list@[j] == l0[j]);
                    assert(ol[j] == l0[j]@);
                }
            }
        }
    }
    let enc = enc_str_list(&list);
    if enc.len() > MAX_SMALL_VALUE_BYTES {
        return Err(RepoError::TooLarge);
    }
    let key = slice_to_vec(owner.bytes.as_slice());
    let _ = repo.labels.insert(key, enc);
    let ghost nm = with_labels(repo@, repo@.labels.insert(owner@, ol.push(lv)));
    repo.model = Ghost(nm);
    proof {
        assert(str_list_coupled(repo.labels, repo@.labels)) by {
            assert(partition_map(repo.labels).dom() =~= repo@.labels.dom());
        }
    }
    Ok(())
}

/// Appends a product to the owner's list under the same capacity and dedup
/// rules as labels.
pub fn add_product(repo: &mut Repository, owner: &IdentityKey, product: String) -> (r: Result<
    (),
    RepoError,
>)
    requires
        old(repo).inv(),
    ensures
        final(repo).inv(),
        match spec_add_entry(owner_products(old(repo)@, owner@), product@) {
            Ok(ns) => r == Ok::<(), RepoError>(()) && final(repo)@ == with_products(
                old(repo)@,
                old(repo)@.products.insert(owner@, ns),
            ),
            Err(e) => r == Err::<(), RepoError>(e) && final(repo)@ == old(repo)@,
        },
{
    let ghost ol = owner_products(old(repo)@, owner@);
    let mut list: Vec<String> = get_products(repo, owner);
    if list.len() >= MAX_LIST_ENTRIES {
        return Err(RepoError::CapacityExceeded);
    }
    let pos = find_str(&list, product.as_str());
    proof {
        lemma_find_str_idx(ol, product@);
    }
    if pos.is_some() {
        return Err(RepoError::AlreadyExists);
    }
    let ghost l0 = list@;
    let ghost pv = product@;
    list.push(product);
    proof {
        assert(strs_view(list@) =~= ol.push(pv)) by {
            assert forall|j: int| 0 <= j < list@.len() implies strs_view(list@)[j] == ol.push(
                pv,
            )[j] by {
                assert(strs_view(list@)[j] == list@[j]@);
                if j < l0.len() {
                    assert(list@[j] == l0[j]);
                    assert(ol[j] == l0[j]@);
                }
            }
        }
    }
    let enc = enc_str_list(&list);
    if enc.len() > MAX_SMALL_VALUE_BYTES {
        return Err(RepoError::TooLarge);
    }
    let key = slice_to_vec(owner.bytes.as_slice());
    let _ = repo.products.insert(key, enc);
    let ghost nm = with_products(repo@, repo@.products.insert(owner@, ol.push(pv)));
    repo.model = Ghost(nm);
    proof {
        assert(str_list_coupled(repo.products, repo@.products)) by {
            assert(partition_map(repo.products).dom() =~= repo@.products.dom());
        }
    }
    Ok(())
}

/// Removes a product from the owner's list. Idempotent: the call succeeds
/// whether or not the product, or the owner, is present.
pub fn remove_product(repo: &mut Repository, owner: &IdentityKey, product: &str) -> (r: Result<
    (),
    RepoError,
>)
    requires
        old(repo).inv(),
    ensures
        final(repo).inv(),
        r == Ok::<(), RepoError>(()),
        has_str(owner_products(old(repo)@, owner@), product@) ==> final(repo)@ == with_products(
            old(repo)@,
            old(repo)@.products.insert(
                owner@,
                spec_remove_entry(owner_products(old(repo)@, owner@), product@),
            ),
        ),
        !has_str(owner_products(old(repo)@, owner@), product@) ==> final(repo)@ == old(repo)@,
{
    let ghost ol = owner_products(old(repo)@, owner@);
    let stored = repo.products_bytes(owner);
    let mut list: Vec<String> = match stored {
        Some(bytes) => dec_str_list(bytes.as_slice(), Ghost(repo@.products[owner@])),
        None => {
            proof {
                lemma_find_str_idx(ol, product@);
            }
            return Ok(());
        },
    };
    let pos = find_str(&list, product);
    proof {
        lemma_find_str_idx(ol, product@);
    }
    let i: usize = match pos {
        Some(i) => i,
        None => {
            return Ok(());
        },
    };
    let ghost l0 = list@;
    let _ = list.remove(i);
    let ghost ns = ol.remove(i as int);
    proof {
        assert(strs_view(list@) =~= ns) by {
            assert forall|j: int| 0 <= j < list@.len() implies strs_view(list@)[j] == ns[j] by {
                assert(strs_view(list@)[j] == list@[j]@);
                if j < i {
                    assert(list@[j] == l0[j]);
                    assert(ol[j] == l0[j]@);
                } else {
                    assert(list@[j] == l0[j + 1]);
                    assert(ol[j + 1] == l0[j + 1]@);
                }
            }
        }
    }
    let enc = enc_str_list(&list);
    let key = slice_to_vec(owner.bytes.as_slice());
    let _ = repo.products.insert(key, enc);
    let ghost nm = with_products(repo@, repo@.products.insert(owner@, ns));
    repo.model = Ghost(nm);
    proof {
        assert(str_list_coupled(repo.products, repo@.products)) by {
            assert(partition_map(repo.products).dom() =~= repo@.products.dom());
        }
    }
    Ok(())
}

} // verus!

verus! {

/// Returns the first stored entry whose identifier equals `account`, or
/// nothing when the owner or the entry is absent.
pub fn get_account(repo: &Repository, owner: &IdentityKey, account: &StoredAccount) -> (r: Option<
    LabeledAccount,
>)
    requires
        repo.inv(),
    ensures
        match r {
            Some(la) => has_account(owner_accounts(repo@, owner@), account@) && la@
                == owner_accounts(repo@, owner@)[find_account_idx(
                owner_accounts(repo@, owner@),
                account@,
            )],
            None => !has_account(owner_accounts(repo@, owner@), account@),
        },
{
    let ghost oa = owner_accounts(repo@, owner@);
    let mut list: Vec<LabeledAccount> = get_accounts(repo, owner);
    let pos = find_account(&list, account);
    proof {
        lemma_find_account_idx(oa, account@);
    }
    match pos {
        Some(i) => {
            let la = list.remove(i);
            proof {
                assert(la@ == oa[i as int]);
            }
            Some(la)
        },
        None => None,
    }
}

} // verus!
