//! Laws of the repository operations, stated over the same spec functions
//! that the operations' contracts use.

use crate::codec::{lemma_block_list_snoc, se_accounts, se_labeled_account};
use crate::repository::{
    has_custom_id, has_tx_id, find_tx_idx, lemma_find_tx_idx, spec_add_account,
    spec_create_custom_tx, spec_set_tx_label, effective_custom_id, has_account,
};
use crate::text::spec_trim;
use crate::types::{CustomTxV, LabeledAccountV, RepoError, TxLabelV, MAX_ACCOUNTS,
    MAX_SMALL_VALUE_BYTES};
use vstd::prelude::*;

verus! {

/// The collection reached by adding the given accounts, one at a time, to an
/// owner that starts with none.
pub open spec fn apply_adds(las: Seq<LabeledAccountV>) -> Result<Seq<LabeledAccountV>, RepoError>
    decreases las.len(),
{
    if las.len() == 0 {
        Ok(Seq::empty())
    } else {
        match apply_adds(las.drop_last()) {
            Ok(s) => spec_add_account(s, las.last()),
            Err(e) => Err(e),
        }
    }
}

/// Dropping the last account never lengthens the serialized aggregate.
proof fn lemma_se_accounts_drop_last_le(s: Seq<LabeledAccountV>)
    requires
        s.len() > 0,
    ensures
        se_accounts(s.drop_last()).len() + 8 <= se_accounts(s).len(),
{
    let m = s.map(|i: int, la: LabeledAccountV| se_labeled_account(la));
    let md = s.drop_last().map(|i: int, la: LabeledAccountV| se_labeled_account(la));
    assert(m =~= md.push(se_labeled_account(s.last()))) by {
        assert forall|j: int| 0 <= j < m.len() implies m[j] == md.push(
            se_labeled_account(s.last()),
        )[j] by {
            assert(m[j] == se_labeled_account(s[j]));
            if j < md.len() {
                assert(md[j] == se_labeled_account(s.drop_last()[j]));
            }
        }
    }
    lemma_block_list_snoc(md, se_labeled_account(s.last()));
    vstd::bytes::lemma_auto_spec_u64_to_from_le_bytes();
}

/// Every run of successful `add_account` steps stores exactly the accounts
/// it was given, in insertion order.
pub proof fn law_adds_in_order(las: Seq<LabeledAccountV>)
    requires
        apply_adds(las) is Ok,
    ensures
        apply_adds(las)->Ok_0 == las,
    decreases las.len(),
{
    if las.len() == 0 {
        assert(apply_adds(las)->Ok_0 =~= las);
    } else {
        law_adds_in_order(las.drop_last());
        assert(apply_adds(las)->Ok_0 =~= las);
    }
}

/// Accounts with pairwise distinct identifiers, within the capacity, whose
/// full aggregate fits the size bound, are all accepted when added in turn
/// to an owner that starts with none.
pub proof fn law_adds_accepted(las: Seq<LabeledAccountV>)
    requires
        las.len() <= MAX_ACCOUNTS,
        forall|i: int, j: int| 0 <= i < j < las.len() ==> las[i].account != las[j].account,
        se_accounts(las).len() <= MAX_SMALL_VALUE_BYTES,
    ensures
        apply_adds(las) is Ok,
        apply_adds(las)->Ok_0 == las,
    decreases las.len(),
{
    if las.len() == 0 {
        assert(apply_adds(las)->Ok_0 =~= las);
    } else {
        let prefix = las.drop_last();
        lemma_se_accounts_drop_last_le(las);
        law_adds_accepted(prefix);
        let s = apply_adds(prefix)->Ok_0;
        assert(s == prefix);
        assert(!has_account(s, las.last().account)) by {
            if has_account(s, las.last().account) {
                let w = choose|w: int|
                    0 <= w < s.len() && s[w].account == las.last().account;
                assert(las[w].account != las[las.len() - 1].account);
            }
        }
        assert(s.push(las.last()) =~= las);
        assert(apply_adds(las)->Ok_0 =~= las);
    }
}

/// Two custom transactions created with blank ids within the same second
/// for the same owner: after the first succeeds, the second is refused as a
/// conflict rather than disambiguated.
pub proof fn law_blank_id_conflict(
    s: Seq<CustomTxV>,
    tx1: CustomTxV,
    tx2: CustomTxV,
    t1: u64,
    t2: u64,
)
    requires
        spec_trim(tx1.id).len() == 0,
        spec_trim(tx2.id).len() == 0,
        t1 / 1_000_000_000 == t2 / 1_000_000_000,
        spec_create_custom_tx(s, tx1, t1) is Ok,
    ensures
        spec_create_custom_tx(spec_create_custom_tx(s, tx1, t1)->Ok_0, tx2, t2) == Err::<
            Seq<CustomTxV>,
            RepoError,
        >(RepoError::Conflict),
{
    let id = effective_custom_id(tx1.id, t1);
    assert(effective_custom_id(tx2.id, t2) == id);
    let ns = spec_create_custom_tx(s, tx1, t1)->Ok_0;
    assert(ns.last().id == id);
    assert(has_custom_id(ns, id)) by {
        assert(ns[ns.len() - 1].id == id);
    }
}

/// In a collection whose transaction ids are pairwise distinct, setting the
/// same id twice with two labels leaves exactly one record for that id, and
/// it carries the later label; id uniqueness is preserved.
pub proof fn law_set_label_twice(s: Seq<TxLabelV>, id: u64, l1: Seq<char>, l2: Seq<char>)
    requires
        forall|i: int, j: int| 0 <= i < j < s.len() ==> s[i].id != s[j].id,
        spec_set_tx_label(s, id, l1) is Ok,
        spec_set_tx_label(spec_set_tx_label(s, id, l1)->Ok_0, id, l2) is Ok,
    ensures
        ({
            let s2 = spec_set_tx_label(spec_set_tx_label(s, id, l1)->Ok_0, id, l2)->Ok_0;
            &&& has_tx_id(s2, id)
            &&& s2[find_tx_idx(s2, id)].label == l2
            &&& forall|i: int|
                0 <= i < s2.len() && i != find_tx_idx(s2, id) ==> s2[i].id != id
            &&& forall|i: int, j: int| 0 <= i < j < s2.len() ==> s2[i].id != s2[j].id
        }),
{
    let s1 = spec_set_tx_label(s, id, l1)->Ok_0;
    lemma_find_tx_idx(s, id);
    let k: int = if has_tx_id(s, id) {
        find_tx_idx(s, id)
    } else {
        s.len() as int
    };
    // after the first set, the record with `id` sits at position k and every
    // other position keeps its old id
    assert(s1[k].id == id);
    assert(forall|i: int| 0 <= i < s1.len() && i != k ==> s1[i].id == s[i].id);
    assert forall|i: int, j: int| 0 <= i < j < s1.len() implies s1[i].id != s1[j].id by {
        if i != k && j != k {
            assert(s[i].id != s[j].id);
        } else if i == k {
            if has_tx_id(s, id) {
                assert(s[j].id != s[i].id);
            }
        } else {
            if has_tx_id(s, id) {
                assert(s[i].id != s[j].id);
            } else {
                if s1[i].id == id {
                    assert(has_tx_id(s, id)) by {
                        assert(s[i].id == id);
                    }
                }
            }
        }
    }
    lemma_find_tx_idx(s1, id);
    let f1 = find_tx_idx(s1, id);
    assert(f1 >= 0) by {
        assert(has_tx_id(s1, id));
    }
    assert(f1 == k) by {
        if f1 != k {
            assert(s1[f1].id == id);
            if f1 < k {
                assert(s1[f1].id != s1[k].id);
            } else {
                assert(s1[k].id != s1[f1].id);
            }
        }
    }
    let s2 = spec_set_tx_label(s1, id, l2)->Ok_0;
    assert(s2 == s1.update(k, TxLabelV { id, label: l2 }));
    assert(s2[k].id == id && s2[k].label == l2);
    assert(forall|i: int| 0 <= i < s2.len() && i != k ==> s2[i].id == s1[i].id);
    assert forall|i: int, j: int| 0 <= i < j < s2.len() implies s2[i].id != s2[j].id by {
        assert(s1[i].id != s1[j].id);
    }
    lemma_find_tx_idx(s2, id);
    let f2 = find_tx_idx(s2, id);
    assert(f2 >= 0) by {
        assert(has_tx_id(s2, id)) by {
            assert(s2[k].id == id);
        }
    }
    assert(f2 == k) by {
        if f2 != k {
            if f2 < k {
                assert(s2[f2].id != s2[k].id);
            } else {
                assert(s2[k].id != s2[f2].id);
            }
        }
    }
    assert forall|i: int| 0 <= i < s2.len() && i != k implies s2[i].id != id by {
        if s2[i].id == id {
            if i < k {
                assert(s2[i].id != s2[k].id);
            } else {
                assert(s2[k].id != s2[i].id);
            }
        }
    }
}

} // verus!

use crate::repository::{spec_add_entry, spec_remove_account, has_str, find_account_idx,
    lemma_find_account_idx, spec_update_custom_tx, lemma_find_custom_idx, find_custom_idx};
use crate::types::{StoredAccountV, MAX_LIST_ENTRIES};

verus! {

/// Account identifiers are pairwise distinct in a collection.
pub open spec fn accounts_distinct(s: Seq<LabeledAccountV>) -> bool {
    forall|i: int, j: int| 0 <= i < j < s.len() ==> s[i].account != s[j].account
}

/// A successful `add_account` keeps identifiers pairwise distinct and the
/// collection within its capacity.
pub proof fn law_add_account_invariant(s: Seq<LabeledAccountV>, la: LabeledAccountV)
    requires
        accounts_distinct(s),
        spec_add_account(s, la) is Ok,
    ensures
        accounts_distinct(spec_add_account(s, la)->Ok_0),
        spec_add_account(s, la)->Ok_0.len() <= MAX_ACCOUNTS,
{
    let ns = spec_add_account(s, la)->Ok_0;
    assert forall|i: int, j: int| 0 <= i < j < ns.len() implies ns[i].account != ns[j].account by {
        if j == s.len() {
            if ns[i].account == la.account {
                assert(has_account(s, la.account)) by {
                    assert(s[i].account == la.account);
                }
            }
        }
    }
}

/// A successful `remove_account` keeps the remaining identifiers pairwise
/// distinct.
pub proof fn law_remove_account_invariant(s: Seq<LabeledAccountV>, a: StoredAccountV)
    requires
        accounts_distinct(s),
        spec_remove_account(s, a) is Ok,
    ensures
        accounts_distinct(spec_remove_account(s, a)->Ok_0),
        spec_remove_account(s, a)->Ok_0.len() == s.len() - 1,
{
    lemma_find_account_idx(s, a);
    let k = find_account_idx(s, a);
    let ns = s.remove(k);
    assert forall|i: int, j: int| 0 <= i < j < ns.len() implies ns[i].account != ns[j].account by {
        let si: int = if i < k {
            i
        } else {
            i + 1
        };
        let sj: int = if j < k {
            j
        } else {
            j + 1
        };
        assert(ns[i] == s[si]);
        assert(ns[j] == s[sj]);
        assert(s[si].account != s[sj].account);
    }
}

/// A successful creation keeps custom-transaction ids pairwise distinct.
pub proof fn law_create_custom_tx_invariant(s: Seq<CustomTxV>, tx: CustomTxV, now_ns: u64)
    requires
        forall|i: int, j: int| 0 <= i < j < s.len() ==> s[i].id != s[j].id,
        spec_create_custom_tx(s, tx, now_ns) is Ok,
    ensures
        ({
            let ns = spec_create_custom_tx(s, tx, now_ns)->Ok_0;
            forall|i: int, j: int| 0 <= i < j < ns.len() ==> ns[i].id != ns[j].id
        }),
{
    let id = effective_custom_id(tx.id, now_ns);
    let ns = spec_create_custom_tx(s, tx, now_ns)->Ok_0;
    assert forall|i: int, j: int| 0 <= i < j < ns.len() implies ns[i].id != ns[j].id by {
        if j == s.len() {
            if ns[i].id == id {
                assert(has_custom_id(s, id)) by {
                    assert(s[i].id == id);
                }
            }
        }
    }
}

/// A successful `update_custom_transaction` keeps ids pairwise distinct: the
/// replaced record keeps the id it is found under.
pub proof fn law_update_custom_tx_invariant(s: Seq<CustomTxV>, tx: CustomTxV)
    requires
        forall|i: int, j: int| 0 <= i < j < s.len() ==> s[i].id != s[j].id,
        spec_update_custom_tx(s, tx) is Ok,
    ensures
        ({
            let ns = spec_update_custom_tx(s, tx)->Ok_0;
            forall|i: int, j: int| 0 <= i < j < ns.len() ==> ns[i].id != ns[j].id
        }),
{
    lemma_find_custom_idx(s, tx.id);
    let k = find_custom_idx(s, tx.id);
    let ns = spec_update_custom_tx(s, tx)->Ok_0;
    assert forall|i: int, j: int| 0 <= i < j < ns.len() implies ns[i].id != ns[j].id by {
        assert(s[k].id == tx.id);
        if i != k && j != k {
            assert(ns[i] == s[i] && ns[j] == s[j]);
        } else if i == k {
            assert(ns[j] == s[j]);
            assert(s[k].id != s[j].id);
        } else {
            assert(ns[i] == s[i]);
            assert(s[i].id != s[k].id);
        }
    }
}

/// A successful taxonomy-list addition keeps entries pairwise distinct and
/// the list within its capacity.
pub proof fn law_add_entry_invariant(s: Seq<Seq<char>>, x: Seq<char>)
    requires
        forall|i: int, j: int| 0 <= i < j < s.len() ==> s[i] != s[j],
        spec_add_entry(s, x) is Ok,
    ensures
        ({
            let ns = spec_add_entry(s, x)->Ok_0;
            &&& forall|i: int, j: int| 0 <= i < j < ns.len() ==> ns[i] != ns[j]
            &&& ns.len() <= MAX_LIST_ENTRIES
        }),
{
    let ns = spec_add_entry(s, x)->Ok_0;
    assert forall|i: int, j: int| 0 <= i < j < ns.len() implies ns[i] != ns[j] by {
        if j == s.len() {
            if ns[i] == x {
                assert(has_str(s, x)) by {
                    assert(s[i] == x);
                }
            }
        }
    }
}

} // verus!
