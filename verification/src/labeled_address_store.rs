//! The labeled-address store: a durable map from ledger account to the
//! labeled address recorded for it.

use crate::codec::{
    blocks_view, bytes_at, dec_blocks, dec_opt_bytes, dec_str_slice, dec_u64, enc_blocks,
    enc_opt_bytes, se_blocks, se_opt_bytes, se_u64,
};
use crate::models::{Account, AccountV, LabeledAddress, LabeledAddressV};
use crate::store::{new_partition, partition_map, StablePartition};
use vstd::bytes::u64_to_le_bytes;
use vstd::prelude::*;
use vstd::slice::slice_to_vec;
use vstd::string::StrSliceExecFns;
use vstd::utf8::encode_utf8;

verus! {

/// Serialized form of a ledger account; also the partition key under which
/// its labeled address is stored.
pub open spec fn se_address(a: AccountV) -> Seq<u8> {
    se_blocks(seq![a.owner, se_opt_bytes(a.subaccount)])
}

/// Serialized form of a labeled address.
pub open spec fn se_labeled_address(la: LabeledAddressV) -> Seq<u8> {
    se_blocks(
        seq![
            se_address(la.address),
            encode_utf8(la.label),
            se_u64(la.created_at),
            se_u64(la.updated_at),
        ],
    )
}

/// Serializes a ledger account.
pub(crate) fn enc_address(a: &Account) -> (r: Vec<u8>)
    ensures
        r@ == se_address(a@),
{
    let mut blocks: Vec<Vec<u8>> = Vec::new();
    blocks.push(slice_to_vec(a.owner.as_slice()));
    blocks.push(enc_opt_bytes(&a.subaccount));
    let r = enc_blocks(&blocks);
    proof {
        assert(blocks_view(blocks@) =~~= seq![
            a.owner@,
            se_opt_bytes(crate::types::opt_bytes_view(a.subaccount)),
        ]);
    }
    r
}

/// Reads back a ledger account.
pub(crate) fn dec_address(block: &Vec<u8>, Ghost(av): Ghost<AccountV>) -> (r: Account)
    requires
        block@ == se_address(av),
    ensures
        r@ == av,
{
    let ghost bs = seq![av.owner, se_opt_bytes(av.subaccount)];
    proof {
        assert(bytes_at(block@, 0, se_blocks(bs))) by {
            assert(block@.subrange(0, block@.len() as int) =~= block@);
        }
    }
    let (blocks, _n) = dec_blocks(block.as_slice(), 0, Ghost(bs));
    proof {
        assert(blocks_view(blocks@)[0] == blocks@[0]@);
        assert(blocks_view(blocks@)[1] == blocks@[1]@);
    }
    let owner = slice_to_vec(blocks[0].as_slice());
    let subaccount = dec_opt_bytes(&blocks[1], Ghost(av.subaccount));
    let r = Account { owner, subaccount };
    proof {
        assert(r@ == av);
    }
    r
}

/// Serializes a labeled address.
pub(crate) fn enc_labeled_address(la: &LabeledAddress) -> (r: Vec<u8>)
    ensures
        r@ == se_labeled_address(la@),
{
    let mut blocks: Vec<Vec<u8>> = Vec::new();
    blocks.push(enc_address(&la.address));
    blocks.push(la.label.as_str().as_bytes_vec());
    blocks.push(u64_to_le_bytes(la.created_at));
    blocks.push(u64_to_le_bytes(la.updated_at));
    let r = enc_blocks(&blocks);
    proof {
        assert(blocks_view(blocks@) =~~= seq![
            se_address(la.address@),
            encode_utf8(la.label@),
            se_u64(la.created_at),
            se_u64(la.updated_at),
        ]);
    }
    r
}

/// Reads back a labeled address.
pub(crate) fn dec_labeled_address(block: &Vec<u8>, Ghost(lv): Ghost<LabeledAddressV>) -> (r:
    LabeledAddress)
    requires
        block@ == se_labeled_address(lv),
    ensures
        r@ == lv,
{
    let ghost bs = seq![
        se_address(lv.address),
        encode_utf8(lv.label),
        se_u64(lv.created_at),
        se_u64(lv.updated_at),
    ];
    proof {
        assert(bytes_at(block@, 0, se_blocks(bs))) by {
            assert(block@.subrange(0, block@.len() as int) =~= block@);
        }
    }
    let (blocks, _n) = dec_blocks(block.as_slice(), 0, Ghost(bs));
    proof {
        assert(blocks_view(blocks@)[0] == blocks@[0]@);
        assert(blocks_view(blocks@)[1] == blocks@[1]@);
        assert(blocks_view(blocks@)[2] == blocks@[2]@);
        assert(blocks_view(blocks@)[3] == blocks@[3]@);
        assert(bytes_at(blocks@[2]@, 0, se_u64(lv.created_at))) by {
            assert(blocks@[2]@.subrange(0, blocks@[2]@.len() as int) =~= blocks@[2]@);
        }
        assert(bytes_at(blocks@[3]@, 0, se_u64(lv.updated_at))) by {
            assert(blocks@[3]@.subrange(0, blocks@[3]@.len() as int) =~= blocks@[3]@);
        }
    }
    let address = dec_address(&blocks[0], Ghost(lv.address));
    let label = dec_str_slice(blocks[1].as_slice(), Ghost(lv.label));
    let (created_at, _) = dec_u64(blocks[2].as_slice(), 0, Ghost(lv.created_at));
    let (updated_at, _) = dec_u64(blocks[3].as_slice(), 0, Ghost(lv.updated_at));
    let r = LabeledAddress { address, label, created_at, updated_at };
    proof {
        assert(r@ == lv);
    }
    r
}

/// The labeled-address store: one durable partition mapping the serialized
/// account to the serialized labeled address recorded for it.
pub struct LabeledAddressStore {
    part: StablePartition,
    model: Ghost<Map<Seq<u8>, LabeledAddressV>>,
}

impl View for LabeledAddressStore {
    type V = Map<Seq<u8>, LabeledAddressV>;

    closed spec fn view(&self) -> Map<Seq<u8>, LabeledAddressV> {
        self.model@
    }
}

impl LabeledAddressStore {
    /// The stored bytes decode to the model map.
    pub closed spec fn inv(&self) -> bool {
        &&& partition_map(self.part).dom() == self@.dom()
        &&& forall|k: Seq<u8>| #[trigger]
            self@.contains_key(k) ==> partition_map(self.part)[k] == se_labeled_address(self@[k])
    }

    /// Creates a store over a fresh partition; it holds nothing.
    pub fn new() -> (r: LabeledAddressStore)
        ensures
            r.inv(),
            r@ == Map::<Seq<u8>, LabeledAddressV>::empty(),
    {
        let r = LabeledAddressStore { part: new_partition(), model: Ghost(Map::empty()) };
        proof {
            assert(partition_map(r.part).dom() =~= r@.dom());
        }
        r
    }
}

/// Returns the labeled address recorded for the account, if any.
pub fn get(store: &LabeledAddressStore, account: &Account) -> (r: Option<LabeledAddress>)
    requires
        store.inv(),
    ensures
        match r {
            Some(la) => store@.contains_key(se_address(account@)) && la@ == store@[se_address(
                account@,
            )],
            None => !store@.contains_key(se_address(account@)),
        },
{
    let key = enc_address(account);
    match store.part.get(&key) {
        Some(bytes) => Some(
            dec_labeled_address(&bytes, Ghost(store@[se_address(account@)])),
        ),
        None => None,
    }
}

/// Records a labeled address for the account, returning what was recorded
/// before.
pub fn insert(store: &mut LabeledAddressStore, account: Account, labeled_address: LabeledAddress) -> (r:
    Option<LabeledAddress>)
    requires
        old(store).inv(),
    ensures
        final(store).inv(),
        final(store)@ == old(store)@.insert(se_address(account@), labeled_address@),
        match r {
            Some(prev) => old(store)@.contains_key(se_address(account@)) && prev@ == old(
                store,
            )@[se_address(account@)],
            None => !old(store)@.contains_key(se_address(account@)),
        },
{
    let ghost k = se_address(account@);
    let key = enc_address(&account);
    let value = enc_labeled_address(&labeled_address);
    let prev = store.part.insert(key, value);
    let ghost nm = store.model@.insert(k, labeled_address@);
    store.model = Ghost(nm);
    proof {
        assert(partition_map(store.part).dom() =~= store@.dom());
    }
    match prev {
        Some(bytes) => Some(dec_labeled_address(&bytes, Ghost(old(store)@[k]))),
        None => None,
    }
}

/// Deletes the labeled address recorded for the account, returning it.
pub fn remove(store: &mut LabeledAddressStore, account: &Account) -> (r: Option<LabeledAddress>)
    requires
        old(store).inv(),
    ensures
        final(store).inv(),
        final(store)@ == old(store)@.remove(se_address(account@)),
        match r {
            Some(prev) => old(store)@.contains_key(se_address(account@)) && prev@ == old(
                store,
            )@[se_address(account@)],
            None => !old(store)@.contains_key(se_address(account@)),
        },
{
    let ghost k = se_address(account@);
    let key = enc_address(account);
    let prev = store.part.remove(&key);
    let ghost nm = store.model@.remove(k);
    store.model = Ghost(nm);
    proof {
        assert(partition_map(store.part).dom() =~= store@.dom());
    }
    match prev {
        Some(bytes) => Some(dec_labeled_address(&bytes, Ghost(old(store)@[k]))),
        None => None,
    }
}

/// Whether a labeled address is recorded for the account.
pub fn contains_key(store: &LabeledAddressStore, account: &Account) -> (r: bool)
    requires
        store.inv(),
    ensures
        r == store@.contains_key(se_address(account@)),
{
    let key = enc_address(account);
    store.part.contains_key(&key)
}

/// The number of labeled addresses recorded.
pub fn len(store: &LabeledAddressStore) -> (r: u64)
    requires
        store.inv(),
    ensures
        r as nat == store@.dom().len(),
{
    store.part.len()
}

/// Whether no labeled address is recorded.
pub fn is_empty(store: &LabeledAddressStore) -> (r: bool)
    requires
        store.inv(),
    ensures
        r == (store@.dom().len() == 0),
{
    len(store) == 0
}

/// Returns every recorded labeled address, each under its own account, each
/// entry exactly once.
pub fn get_all(store: &LabeledAddressStore) -> (r: Vec<(Account, LabeledAddress)>)
    requires
        store.inv(),
    ensures
        forall|i: int|
            #![trigger r@[i]]
            0 <= i < r@.len() ==> (exists|k: Seq<u8>|
                #![auto]
                store@.contains_key(k) && r@[i].1@ == store@[k]) && r@[i].0@ == r@[i].1@.address,
        forall|k: Seq<u8>|
            #![trigger store@.contains_key(k)]
            store@.contains_key(k) ==> exists|i: int|
                0 <= i < r@.len() && r@[i].1@ == store@[k],
{
    let ents = store.part.entries();
    let mut out: Vec<(Account, LabeledAddress)> = Vec::new();
    let mut j: usize = 0;
    while j < ents.len()
        invariant
            j <= ents@.len(),
            store.inv(),
            forall|t: int|
                #![trigger ents@[t]]
                0 <= t < ents@.len() ==> partition_map(store.part).contains_key(ents@[t].0@)
                    && partition_map(store.part)[ents@[t].0@] == ents@[t].1@,
            out@.len() == j,
            forall|t: int|
                #![trigger out@[t]]
                0 <= t < j ==> {
                    &&& store@.contains_key(ents@[t].0@)
                    &&& out@[t].1@ == store@[ents@[t].0@]
                    &&& out@[t].0@ == out@[t].1@.address
                },
        decreases ents@.len() - j,
    {
        let ghost k = ents@[j as int].0@;
        proof {
            assert(partition_map(store.part).contains_key(k));
            assert(store@.contains_key(k));
            assert(partition_map(store.part)[k] == se_labeled_address(store@[k]));
        }
        let la = dec_labeled_address(&ents[j].1, Ghost(store@[k]));
        let address = la.address.duplicate();
        out.push((address, la));
        j += 1;
    }
    proof {
        assert forall|k: Seq<u8>| #[trigger]
            store@.contains_key(k) implies exists|i: int|
            0 <= i < out@.len() && out@[i].1@ == store@[k] by {
            assert(partition_map(store.part).contains_key(k));
            let t = choose|t: int| 0 <= t < ents@.len() && ents@[t].0@ == k;
            assert(out@[t].1@ == store@[k]);
        }
    }
    out
}

} // verus!
