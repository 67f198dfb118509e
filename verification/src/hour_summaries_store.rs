//! The hour-summaries store: a durable map from a period key to the
//! transaction summary aggregated for it.

use crate::codec::{
    blocks_view, bytes_at, dec_blocks, dec_u64, enc_blocks, se_blocks, se_u64, string_from_utf8,
};
use crate::labeled_address_store::{dec_address, enc_address, se_address};
use crate::models::{TransactionSummary, TransactionSummaryV};
use crate::store::{new_partition, partition_map, StablePartition};
use vstd::bytes::u64_to_le_bytes;
use vstd::prelude::*;
use vstd::string::{StrSliceExecFns, StringSliceAdditionalSpecFns};
use vstd::utf8::{decode_utf8, encode_utf8, encode_utf8_decode_utf8, encode_utf8_valid_utf8, valid_utf8};

verus! {

/// Serialized form of a transaction summary.
pub open spec fn se_summary(t: TransactionSummaryV) -> Seq<u8> {
    se_blocks(
        seq![
            se_address(t.account),
            se_u64(t.total_sent),
            se_u64(t.total_received),
            se_u64(t.transaction_count as u64),
            se_u64(t.period_start),
            se_u64(t.period_end),
        ],
    )
}

/// Serializes a transaction summary.
pub(crate) fn enc_summary(t: &TransactionSummary) -> (r: Vec<u8>)
    ensures
        r@ == se_summary(t@),
{
    let mut blocks: Vec<Vec<u8>> = Vec::new();
    blocks.push(enc_address(&t.account));
    blocks.push(u64_to_le_bytes(t.total_sent));
    blocks.push(u64_to_le_bytes(t.total_received));
    blocks.push(u64_to_le_bytes(t.transaction_count as u64));
    blocks.push(u64_to_le_bytes(t.period_start));
    blocks.push(u64_to_le_bytes(t.period_end));
    let r = enc_blocks(&blocks);
    proof {
        assert(blocks_view(blocks@) =~~= seq![
            se_address(t.account@),
            se_u64(t.total_sent),
            se_u64(t.total_received),
            se_u64(t.transaction_count as u64),
            se_u64(t.period_start),
            se_u64(t.period_end),
        ]);
    }
    r
}

/// Reads back a transaction summary.
pub(crate) fn dec_summary(block: &Vec<u8>, Ghost(tv): Ghost<TransactionSummaryV>) -> (r:
    TransactionSummary)
    requires
        block@ == se_summary(tv),
    ensures
        r@ == tv,
{
    let ghost bs = seq![
        se_address(tv.account),
        se_u64(tv.total_sent),
        se_u64(tv.total_received),
        se_u64(tv.transaction_count as u64),
        se_u64(tv.period_start),
        se_u64(tv.period_end),
    ];
    proof {
        assert(bytes_at(block@, 0, se_blocks(bs))) by {
            assert(block@.subrange(0, block@.len() as int) =~= block@);
        }
    }
    let (blocks, _n) = dec_blocks(block.as_slice(), 0, Ghost(bs));
    proof {
        assert(blocks_view(blocks@)[0] == blocks@[0]@);
        assert(blocks_view(blocks@)[1] == blocks@[1]@);
        assert(blocks_view(blocks@)[2] == blocks@[2]@);
        assert(blocks_view(blocks@)[3] == blocks@[3]@);
        assert(blocks_view(blocks@)[4] == blocks@[4]@);
        assert(blocks_view(blocks@)[5] == blocks@[5]@);
        assert(bytes_at(blocks@[1]@, 0, se_u64(tv.total_sent))) by {
            assert(blocks@[1]@.subrange(0, blocks@[1]@.len() as int) =~= blocks@[1]@);
        }
        assert(bytes_at(blocks@[2]@, 0, se_u64(tv.total_received))) by {
            assert(blocks@[2]@.subrange(0, blocks@[2]@.len() as int) =~= blocks@[2]@);
        }
        assert(bytes_at(blocks@[3]@, 0, se_u64(tv.transaction_count as u64))) by {
            assert(blocks@[3]@.subrange(0, blocks@[3]@.len() as int) =~= blocks@[3]@);
        }
        assert(bytes_at(blocks@[4]@, 0, se_u64(tv.period_start))) by {
            assert(blocks@[4]@.subrange(0, blocks@[4]@.len() as int) =~= blocks@[4]@);
        }
        assert(bytes_at(blocks@[5]@, 0, se_u64(tv.period_end))) by {
            assert(blocks@[5]@.subrange(0, blocks@[5]@.len() as int) =~= blocks@[5]@);
        }
    }
    let account = dec_address(&blocks[0], Ghost(tv.account));
    let (total_sent, _) = dec_u64(blocks[1].as_slice(), 0, Ghost(tv.total_sent));
    let (total_received, _) = dec_u64(blocks[2].as_slice(), 0, Ghost(tv.total_received));
    let (count64, _) = dec_u64(blocks[3].as_slice(), 0, Ghost(tv.transaction_count as u64));
    let transaction_count = count64 as u32;
    let (period_start, _) = dec_u64(blocks[4].as_slice(), 0, Ghost(tv.period_start));
    let (period_end, _) = dec_u64(blocks[5].as_slice(), 0, Ghost(tv.period_end));
    let r = TransactionSummary {
        account,
        total_sent,
        total_received,
        transaction_count,
        period_start,
        period_end,
    };
    proof {
        assert(r@ == tv);
    }
    r
}

/// The hour-summaries store: one durable partition mapping a period key's
/// UTF-8 bytes to the serialized summary stored under it.
pub struct HourSummariesStore {
    part: StablePartition,
    model: Ghost<Map<Seq<u8>, TransactionSummaryV>>,
}

impl View for HourSummariesStore {
    type V = Map<Seq<u8>, TransactionSummaryV>;

    closed spec fn view(&self) -> Map<Seq<u8>, TransactionSummaryV> {
        self.model@
    }
}

impl HourSummariesStore {
    /// The stored bytes decode to the model map, and every key is the UTF-8
    /// form of the string it was stored under.
    pub closed spec fn inv(&self) -> bool {
        &&& partition_map(self.part).dom() == self@.dom()
        &&& forall|k: Seq<u8>| #[trigger]
            self@.contains_key(k) ==> partition_map(self.part)[k] == se_summary(self@[k])
        &&& forall|k: Seq<u8>| #[trigger] self@.contains_key(k) ==> valid_utf8(k)
    }

    /// Creates a store over a fresh partition; it holds nothing.
    pub fn new() -> (r: HourSummariesStore)
        ensures
            r.inv(),
            r@ == Map::<Seq<u8>, TransactionSummaryV>::empty(),
    {
        let r = HourSummariesStore { part: new_partition(), model: Ghost(Map::empty()) };
        proof {
            assert(partition_map(r.part).dom() =~= r@.dom());
        }
        r
    }
}

/// Returns the summary stored under the key, if any.
pub fn get(store: &HourSummariesStore, key: &str) -> (r: Option<TransactionSummary>)
    requires
        store.inv(),
    ensures
        match r {
            Some(t) => store@.contains_key(encode_utf8(key@)) && t@ == store@[encode_utf8(key@)],
            None => !store@.contains_key(encode_utf8(key@)),
        },
{
    let kb = key.as_bytes_vec();
    match store.part.get(&kb) {
        Some(bytes) => Some(dec_summary(&bytes, Ghost(store@[encode_utf8(key@)]))),
        None => None,
    }
}

/// Stores a summary under the key, returning what was stored before.
pub fn insert(store: &mut HourSummariesStore, key: String, summary: TransactionSummary) -> (r:
    Option<TransactionSummary>)
    requires
        old(store).inv(),
    ensures
        final(store).inv(),
        final(store)@ == old(store)@.insert(encode_utf8(key@), summary@),
        match r {
            Some(prev) => old(store)@.contains_key(encode_utf8(key@)) && prev@ == old(
                store,
            )@[encode_utf8(key@)],
            None => !old(store)@.contains_key(encode_utf8(key@)),
        },
{
    let ghost k = encode_utf8(key@);
    proof {
        encode_utf8_valid_utf8(key@);
    }
    let kb = key.as_str().as_bytes_vec();
    let value = enc_summary(&summary);
    let prev = store.part.insert(kb, value);
    let ghost nm = store.model@.insert(k, summary@);
    store.model = Ghost(nm);
    proof {
        assert(partition_map(store.part).dom() =~= store@.dom());
    }
    match prev {
        Some(bytes) => Some(dec_summary(&bytes, Ghost(old(store)@[k]))),
        None => None,
    }
}

/// Deletes the summary stored under the key, returning it.
pub fn remove(store: &mut HourSummariesStore, key: &str) -> (r: Option<TransactionSummary>)
    requires
        old(store).inv(),
    ensures
        final(store).inv(),
        final(store)@ == old(store)@.remove(encode_utf8(key@)),
        match r {
            Some(prev) => old(store)@.contains_key(encode_utf8(key@)) && prev@ == old(
                store,
            )@[encode_utf8(key@)],
            None => !old(store)@.contains_key(encode_utf8(key@)),
        },
{
    let ghost k = encode_utf8(key@);
    let kb = key.as_bytes_vec();
    let prev = store.part.remove(&kb);
    let ghost nm = store.model@.remove(k);
    store.model = Ghost(nm);
    proof {
        assert(partition_map(store.part).dom() =~= store@.dom());
    }
    match prev {
        Some(bytes) => Some(dec_summary(&bytes, Ghost(old(store)@[k]))),
        None => None,
    }
}

/// Whether a summary is stored under the key.
pub fn contains_key(store: &HourSummariesStore, key: &str) -> (r: bool)
    requires
        store.inv(),
    ensures
        r == store@.contains_key(encode_utf8(key@)),
{
    let kb = key.as_bytes_vec();
    store.part.contains_key(&kb)
}

/// The number of summaries stored.
pub fn len(store: &HourSummariesStore) -> (r: u64)
    requires
        store.inv(),
    ensures
        r as nat == store@.dom().len(),
{
    store.part.len()
}

/// Whether no summary is stored.
pub fn is_empty(store: &HourSummariesStore) -> (r: bool)
    requires
        store.inv(),
    ensures
        r == (store@.dom().len() == 0),
{
    len(store) == 0
}

/// Returns every stored summary under its period key, each entry exactly
/// once.
pub fn get_all(store: &HourSummariesStore) -> (r: Vec<(String, TransactionSummary)>)
    requires
        store.inv(),
    ensures
        forall|i: int|
            #![trigger r@[i]]
            0 <= i < r@.len() ==> store@.contains_key(encode_utf8(r@[i].0@)) && r@[i].1@
                == store@[encode_utf8(r@[i].0@)],
        forall|k: Seq<u8>|
            #![trigger store@.contains_key(k)]
            store@.contains_key(k) ==> exists|i: int|
                0 <= i < r@.len() && encode_utf8(r@[i].0@) == k,
{
    let ents = store.part.entries();
    let mut out: Vec<(String, TransactionSummary)> = Vec::new();
    let mut j: usize = 0;
    while j < ents.len()
        invariant
            j <= ents@.len(),
            store.inv(),
            forall|t: int|
                #![trigger ents@[t]]
                0 <= t < ents@.len() ==> partition_map(store.part).contains_key(ents@[t].0@)
                    && partition_map(store.part)[ents@[t].0@] == ents@[t].1@,
            out@.len() == j,
            forall|t: int|
                #![trigger out@[t]]
                0 <= t < j ==> encode_utf8(out@[t].0@) == ents@[t].0@ && store@.contains_key(
                    ents@[t].0@,
                ) && out@[t].1@ == store@[ents@[t].0@],
        decreases ents@.len() - j,
    {
        let ghost k = ents@[j as int].0@;
        proof {
            assert(partition_map(store.part).contains_key(k));
            assert(store@.contains_key(k));
            assert(valid_utf8(k));
            vstd::utf8::decode_utf8_encode_utf8(k);
        }
        let key_bytes = vstd::slice::slice_to_vec(ents[j].0.as_slice());
        let key = string_from_utf8(key_bytes).unwrap();
        let summary = dec_summary(&ents[j].1, Ghost(store@[k]));
        out.push((key, summary));
        j += 1;
    }
    proof {
        assert forall|k: Seq<u8>| #[trigger]
            store@.contains_key(k) implies exists|i: int|
            0 <= i < out@.len() && encode_utf8(out@[i].0@) == k by {
            assert(partition_map(store.part).contains_key(k));
            let t = choose|t: int| 0 <= t < ents@.len() && ents@[t].0@ == k;
            assert(encode_utf8(out@[t].0@) == k);
        }
    }
    out
}

} // verus!
