//! Byte codec for the serialized per-owner aggregates.
//!
//! An aggregate is stored as a block list: a count followed by one
//! length-prefixed byte block per element; records nest as block lists of
//! their fields. Every decoder is proved to invert the matching encoder, so
//! a value written into a partition is read back unchanged.

use vstd::prelude::*;
use vstd::bytes::{
    lemma_auto_spec_u64_to_from_le_bytes, spec_u64_to_le_bytes, u64_from_le_bytes, u64_to_le_bytes,
};
use vstd::slice::{slice_subrange, slice_to_vec};
use vstd::utf8::{
    decode_utf8, encode_utf8, encode_utf8_decode_utf8, encode_utf8_valid_utf8, is_ascii_chars,
    is_ascii_chars_encode_utf8, valid_utf8,
};

verus! {

/// Relies on `String::from_utf8`: it succeeds exactly on valid UTF-8 input,
/// and the returned string holds the scalar values those bytes encode.
#[verifier::external_body]
pub(crate) fn string_from_utf8(v: Vec<u8>) -> (r: Option<String>)
    ensures
        match r {
            Some(s) => valid_utf8(v@) && s@ == decode_utf8(v@),
            None => !valid_utf8(v@),
        },
{
    String::from_utf8(v).ok()
}

/// True when every byte is an ASCII code.
pub open spec fn ascii_seq(b: Seq<u8>) -> bool {
    forall|i: int| 0 <= i < b.len() ==> b[i] < 0x80
}

/// A sequence of ASCII bytes is valid UTF-8 and decodes byte by byte.
pub proof fn lemma_ascii_bytes_decode(b: Seq<u8>)
    requires
        ascii_seq(b),
    ensures
        valid_utf8(b),
        decode_utf8(b) == b.map(|i: int, x: u8| x as char),
{
    let c = b.map(|i: int, x: u8| x as char);
    assert(is_ascii_chars(c)) by {
        assert forall|i: int| 0 <= i < c.len() implies '\0' <= #[trigger] c[i] <= '\u{7f}' by {
            assert(b[i] < 0x80);
        }
    }
    is_ascii_chars_encode_utf8(c);
    assert(encode_utf8(c) =~= b);
    encode_utf8_valid_utf8(c);
    encode_utf8_decode_utf8(c);
}

/// Serialized form of a 64-bit integer: eight little-endian bytes.
pub open spec fn se_u64(x: u64) -> Seq<u8> {
    spec_u64_to_le_bytes(x)
}

/// Serialized form of a byte string: its length, then its bytes.
pub open spec fn se_bytes(b: Seq<u8>) -> Seq<u8> {
    se_u64(b.len() as u64) + b
}

/// Serialized form of a list of blocks after the leading count.
pub open spec fn se_block_list(bs: Seq<Seq<u8>>) -> Seq<u8>
    decreases bs.len(),
{
    if bs.len() == 0 {
        Seq::empty()
    } else {
        se_bytes(bs[0]) + se_block_list(bs.drop_first())
    }
}

/// Serialized form of a block list: a count, then each block length-prefixed.
pub open spec fn se_blocks(bs: Seq<Seq<u8>>) -> Seq<u8> {
    se_u64(bs.len() as u64) + se_block_list(bs)
}

/// The bytes of each block in a block vector.
pub open spec fn blocks_view(bs: Seq<Vec<u8>>) -> Seq<Seq<u8>> {
    bs.map(|i: int, v: Vec<u8>| v@)
}

/// `chunk` sits in `buf` at offset `i`.
pub open spec fn bytes_at(buf: Seq<u8>, i: int, chunk: Seq<u8>) -> bool {
    &&& 0 <= i
    &&& i + chunk.len() <= buf.len()
    &&& buf.subrange(i, i + chunk.len() as int) == chunk
}

/// A chunk that is a concatenation sits in the buffer piece by piece.
pub proof fn lemma_bytes_at_concat(buf: Seq<u8>, i: int, x: Seq<u8>, y: Seq<u8>)
    requires
        bytes_at(buf, i, x + y),
    ensures
        bytes_at(buf, i, x),
        bytes_at(buf, i + x.len(), y),
{
    let xy = x + y;
    assert(buf.subrange(i, i + x.len() as int) =~= x) by {
        assert forall|j: int| 0 <= j < x.len() implies buf.subrange(i, i + x.len() as int)[j]
            == x[j] by {
            assert(buf.subrange(i, i + xy.len() as int)[j] == xy[j]);
        }
    }
    assert(buf.subrange(i + x.len(), i + x.len() + y.len() as int) =~= y) by {
        assert forall|j: int| 0 <= j < y.len() implies buf.subrange(
            i + x.len(),
            i + x.len() + y.len() as int,
        )[j] == y[j] by {
            assert(buf.subrange(i, i + xy.len() as int)[j + x.len()] == xy[j + x.len()]);
        }
    }
}

/// Appending one block extends the serialized block list at its end.
pub proof fn lemma_block_list_snoc(s: Seq<Seq<u8>>, x: Seq<u8>)
    ensures
        se_block_list(s.push(x)) == se_block_list(s) + se_bytes(x),
    decreases s.len(),
{
    if s.len() == 0 {
        assert(s.push(x)[0] == x);
        assert(s.push(x).drop_first() =~= Seq::<Seq<u8>>::empty());
        assert(se_block_list(s.push(x)) == se_bytes(x) + se_block_list(
            Seq::<Seq<u8>>::empty(),
        ));
        assert(se_block_list(s.push(x)) =~= se_block_list(s) + se_bytes(x));
    } else {
        lemma_block_list_snoc(s.drop_first(), x);
        assert(s.push(x)[0] == s[0]);
        assert(s.push(x).drop_first() =~= s.drop_first().push(x));
        assert(se_block_list(s.push(x)) =~= se_block_list(s) + se_bytes(x));
    }
}

/// A serialized block list is at least eight bytes per block.
pub proof fn lemma_block_list_len(s: Seq<Seq<u8>>)
    ensures
        se_block_list(s).len() >= 8 * s.len(),
    decreases s.len(),
{
    lemma_auto_spec_u64_to_from_le_bytes();
    if s.len() > 0 {
        lemma_block_list_len(s.drop_first());
    }
}

/// A serialized block list splits at any block boundary.
pub proof fn lemma_block_list_split(s: Seq<Seq<u8>>, k: int)
    requires
        0 <= k <= s.len(),
    ensures
        se_block_list(s) == se_block_list(s.take(k)) + se_block_list(s.skip(k)),
    decreases k,
{
    if k == 0 {
        assert(s.take(0) =~= Seq::<Seq<u8>>::empty());
        assert(s.skip(0) =~= s);
        assert(se_block_list(s) =~= se_block_list(s.take(0)) + se_block_list(s.skip(0)));
    } else {
        lemma_block_list_split(s.drop_first(), k - 1);
        assert(s.take(k).drop_first() =~= s.drop_first().take(k - 1));
        assert(s.skip(k) =~= s.drop_first().skip(k - 1));
        assert(se_block_list(s) =~= se_block_list(s.take(k)) + se_block_list(s.skip(k)));
    }
}

/// Appends the serialized form of `x` to `out`.
pub(crate) fn enc_u64(out: &mut Vec<u8>, x: u64)
    ensures
        final(out)@ == old(out)@ + se_u64(x),
{
    let mut b = u64_to_le_bytes(x);
    out.append(&mut b);
}

/// Reads back a 64-bit integer whose encoding sits at offset `i`.
pub(crate) fn dec_u64(buf: &[u8], i: usize, Ghost(x): Ghost<u64>) -> (r: (u64, usize))
    requires
        bytes_at(buf@, i as int, se_u64(x)),
    ensures
        r.0 == x,
        r.1 == i + 8,
{
    let blen = buf.len();
    proof {
        lemma_auto_spec_u64_to_from_le_bytes();
        assert(buf@.len() == blen);
    }
    let s = slice_subrange(buf, i, i + 8);
    let v = u64_from_le_bytes(s);
    (v, i + 8)
}

/// Appends the length-prefixed serialized form of `b` to `out`.
pub(crate) fn enc_bytes(out: &mut Vec<u8>, b: &[u8])
    ensures
        final(out)@ == old(out)@ + se_bytes(b@),
{
    enc_u64(out, b.len() as u64);
    let mut v = slice_to_vec(b);
    out.append(&mut v);
    proof {
        assert(final(out)@ =~= old(out)@ + se_bytes(b@));
    }
}

/// Reads back a length-prefixed byte string sitting at offset `i`.
pub(crate) fn dec_bytes(buf: &[u8], i: usize, Ghost(b): Ghost<Seq<u8>>) -> (r: (Vec<u8>, usize))
    requires
        bytes_at(buf@, i as int, se_bytes(b)),
    ensures
        r.0@ == b,
        r.1 == i + se_bytes(b).len(),
{
    let blen = buf.len();
    proof {
        lemma_auto_spec_u64_to_from_le_bytes();
        assert(b.len() <= usize::MAX) by {
            assert(se_bytes(b).len() == 8 + b.len());
            assert(buf@.len() == blen);
        }
        lemma_bytes_at_concat(buf@, i as int, se_u64(b.len() as u64), b);
    }
    let (len64, j) = dec_u64(buf, i, Ghost(b.len() as u64));
    let len = len64 as usize;
    proof {
        assert(len == b.len());
    }
    let s = slice_subrange(buf, j, j + len);
    let v = slice_to_vec(s);
    (v, j + len)
}

/// Serializes a block vector as a count followed by each block.
pub(crate) fn enc_blocks(blocks: &Vec<Vec<u8>>) -> (r: Vec<u8>)
    ensures
        r@ == se_blocks(blocks_view(blocks@)),
{
    let ghost bv = blocks_view(blocks@);
    let mut out: Vec<u8> = Vec::new();
    enc_u64(&mut out, blocks.len() as u64);
    let mut k: usize = 0;
    while k < blocks.len()
        invariant
            k <= blocks.len(),
            bv == blocks_view(blocks@),
            bv.len() == blocks@.len(),
            out@ == se_u64(bv.len() as u64) + se_block_list(bv.take(k as int)),
        decreases blocks.len() - k,
    {
        enc_bytes(&mut out, blocks[k].as_slice());
        proof {
            assert(bv.take(k + 1) =~= bv.take(k as int).push(bv[k as int]));
            lemma_block_list_snoc(bv.take(k as int), bv[k as int]);
            assert(out@ =~= se_u64(bv.len() as u64) + se_block_list(bv.take(k + 1)));
        }
        k += 1;
    }
    proof {
        assert(bv.take(blocks@.len() as int) =~= bv);
    }
    out
}

/// Reads back a block vector whose encoding sits at offset `i`.
pub(crate) fn dec_blocks(buf: &[u8], i: usize, Ghost(bs): Ghost<Seq<Seq<u8>>>) -> (r: (
    Vec<Vec<u8>>,
    usize,
))
    requires
        bytes_at(buf@, i as int, se_blocks(bs)),
    ensures
        blocks_view(r.0@) == bs,
        r.1 == i + se_blocks(bs).len(),
{
    let blen = buf.len();
    proof {
        lemma_auto_spec_u64_to_from_le_bytes();
        lemma_block_list_len(bs);
        assert(buf@.len() == blen);
        assert(8 * bs.len() <= blen);
        assert(bs.len() <= usize::MAX);
        lemma_bytes_at_concat(buf@, i as int, se_u64(bs.len() as u64), se_block_list(bs));
    }
    let (n64, first) = dec_u64(buf, i, Ghost(bs.len() as u64));
    let n = n64 as usize;
    proof {
        assert(n == bs.len());
    }
    let mut out: Vec<Vec<u8>> = Vec::new();
    let mut j: usize = first;
    let mut k: usize = 0;
    while k < n
        invariant
            k <= n,
            n == bs.len(),
            blocks_view(out@) == bs.take(k as int),
            j == i + 8 + se_block_list(bs.take(k as int)).len(),
            bytes_at(buf@, i + 8, se_block_list(bs)),
        decreases n - k,
    {
        proof {
            lemma_block_list_split(bs, k as int);
            assert(bs.skip(k as int)[0] == bs[k as int]);
            assert(bs.skip(k as int).drop_first() =~= bs.skip(k + 1));
            assert(se_block_list(bs.skip(k as int)) == se_bytes(bs[k as int]) + se_block_list(
                bs.skip(k + 1),
            ));
            lemma_bytes_at_concat(
                buf@,
                i + 8,
                se_block_list(bs.take(k as int)),
                se_block_list(bs.skip(k as int)),
            );
            lemma_bytes_at_concat(
                buf@,
                j as int,
                se_bytes(bs[k as int]),
                se_block_list(bs.skip(k + 1)),
            );
        }
        let (blk, j2) = dec_bytes(buf, j, Ghost(bs[k as int]));
        out.push(blk);
        proof {
            assert(bs.take(k + 1) =~= bs.take(k as int).push(bs[k as int]));
            lemma_block_list_snoc(bs.take(k as int), bs[k as int]);
            assert(blocks_view(out@) =~= bs.take(k + 1));
        }
        j = j2;
        k += 1;
    }
    proof {
        assert(bs.take(n as int) =~= bs);
    }
    (out, j)
}

} // verus!

use crate::types::{
    ctxs_view, las_view, opt_bytes_view, opt_str_view, strs_view, txls_view, CustomTransaction,
    CustomTxV, IcrcAccount, LabeledAccount, LabeledAccountV, StoredAccount, StoredAccountV,
    TransactionLabelRecord, TxLabelV,
};
use vstd::string::{StrSliceExecFns, StringSliceAdditionalSpecFns};

verus! {

/// Serialized form of an optional byte string: a tag byte, then the bytes.
pub open spec fn se_opt_bytes(o: Option<Seq<u8>>) -> Seq<u8> {
    match o {
        None => seq![0u8],
        Some(b) => seq![1u8] + b,
    }
}

/// Serialized form of an optional text: a tag byte, then the UTF-8 bytes.
pub open spec fn se_opt_str(o: Option<Seq<char>>) -> Seq<u8> {
    match o {
        None => seq![0u8],
        Some(s) => seq![1u8] + encode_utf8(s),
    }
}

/// Serialized form of an account identifier.
pub open spec fn se_stored_account(a: StoredAccountV) -> Seq<u8> {
    match a {
        StoredAccountV::Icrc1(ic) => se_blocks(
            seq![seq![0u8], ic.owner, se_opt_bytes(ic.subaccount)],
        ),
        StoredAccountV::Offchain(s) => se_blocks(seq![seq![1u8], encode_utf8(s)]),
    }
}

/// Serialized form of a labeled account.
pub open spec fn se_labeled_account(la: LabeledAccountV) -> Seq<u8> {
    se_blocks(
        seq![se_stored_account(la.account), encode_utf8(la.label), se_opt_str(la.product)],
    )
}

/// Serialized form of an owner's account aggregate.
pub open spec fn se_accounts(v: Seq<LabeledAccountV>) -> Seq<u8> {
    se_blocks(v.map(|i: int, la: LabeledAccountV| se_labeled_account(la)))
}

/// Serialized form of one transaction-label record.
pub open spec fn se_tx_label(t: TxLabelV) -> Seq<u8> {
    se_blocks(seq![se_u64(t.id), encode_utf8(t.label)])
}

/// Serialized form of an owner's transaction-label aggregate.
pub open spec fn se_tx_labels(v: Seq<TxLabelV>) -> Seq<u8> {
    se_blocks(v.map(|i: int, t: TxLabelV| se_tx_label(t)))
}

/// Serialized form of one custom transaction.
pub open spec fn se_custom_tx(t: CustomTxV) -> Seq<u8> {
    se_blocks(
        seq![encode_utf8(t.id), se_u64(t.timestamp_ms), encode_utf8(t.label), se_u64(t.amount)],
    )
}

/// Serialized form of an owner's custom-transaction aggregate.
pub open spec fn se_custom_txs(v: Seq<CustomTxV>) -> Seq<u8> {
    se_blocks(v.map(|i: int, t: CustomTxV| se_custom_tx(t)))
}

/// Serialized form of an owner's label or product list.
pub open spec fn se_str_list(v: Seq<Seq<char>>) -> Seq<u8> {
    se_blocks(v.map(|i: int, s: Seq<char>| encode_utf8(s)))
}

/// The UTF-8 bytes of a string, as one block.
pub(crate) fn enc_str_block(s: &str) -> (r: Vec<u8>)
    ensures
        r@ == encode_utf8(s@),
{
    s.as_bytes_vec()
}

/// Reads a string back from its UTF-8 bytes.
pub(crate) fn dec_str_slice(b: &[u8], Ghost(sv): Ghost<Seq<char>>) -> (r: String)
    requires
        b@ == encode_utf8(sv),
    ensures
        r@ == sv,
{
    proof {
        encode_utf8_valid_utf8(sv);
        encode_utf8_decode_utf8(sv);
    }
    let v = slice_to_vec(b);
    let r = string_from_utf8(v);
    r.unwrap()
}

/// Serializes an optional byte vector.
pub(crate) fn enc_opt_bytes(o: &Option<Vec<u8>>) -> (r: Vec<u8>)
    ensures
        r@ == se_opt_bytes(opt_bytes_view(*o)),
{
    let mut out: Vec<u8> = Vec::new();
    match o {
        None => {
            out.push(0u8);
            proof {
                assert(out@ =~= seq![0u8]);
            }
        },
        Some(b) => {
            out.push(1u8);
            let mut v = slice_to_vec(b.as_slice());
            out.append(&mut v);
            proof {
                assert(out@ =~= seq![1u8] + b@);
            }
        },
    }
    out
}

/// Reads back an optional byte vector.
pub(crate) fn dec_opt_bytes(block: &Vec<u8>, Ghost(o): Ghost<Option<Seq<u8>>>) -> (r: Option<
    Vec<u8>,
>)
    requires
        block@ == se_opt_bytes(o),
    ensures
        opt_bytes_view(r) == o,
{
    if block[0] == 0 {
        proof {
            assert(o is None) by {
                if o is Some {
                    assert(block@[0] == 1);
                }
            }
        }
        None
    } else {
        proof {
            assert(o is Some);
        }
        let b = slice_subrange(block.as_slice(), 1, block.len());
        proof {
            assert(b@ =~= o->0);
        }
        Some(slice_to_vec(b))
    }
}

/// Serializes an optional text.
pub(crate) fn enc_opt_str(o: &Option<String>) -> (r: Vec<u8>)
    ensures
        r@ == se_opt_str(opt_str_view(*o)),
{
    let mut out: Vec<u8> = Vec::new();
    match o {
        None => {
            out.push(0u8);
            proof {
                assert(out@ =~= seq![0u8]);
            }
        },
        Some(s) => {
            out.push(1u8);
            let mut v = s.as_str().as_bytes_vec();
            out.append(&mut v);
            proof {
                assert(out@ =~= seq![1u8] + encode_utf8(s@));
            }
        },
    }
    out
}

/// Reads back an optional text.
pub(crate) fn dec_opt_str(block: &Vec<u8>, Ghost(o): Ghost<Option<Seq<char>>>) -> (r: Option<
    String,
>)
    requires
        block@ == se_opt_str(o),
    ensures
        opt_str_view(r) == o,
{
    if block[0] == 0 {
        proof {
            assert(o is None) by {
                if o is Some {
                    assert(block@[0] == 1);
                }
            }
        }
        None
    } else {
        proof {
            assert(o is Some);
        }
        let b = slice_subrange(block.as_slice(), 1, block.len());
        proof {
            assert(b@ =~= encode_utf8(o->0));
        }
        Some(dec_str_slice(b, Ghost(o->0)))
    }
}

/// Serializes an account identifier.
pub(crate) fn enc_stored_account(a: &StoredAccount) -> (r: Vec<u8>)
    ensures
        r@ == se_stored_account(a@),
{
    let mut blocks: Vec<Vec<u8>> = Vec::new();
    match a {
        StoredAccount::Icrc1(ic) => {
            let mut tag: Vec<u8> = Vec::new();
            tag.push(0u8);
            blocks.push(tag);
            blocks.push(slice_to_vec(ic.owner.as_slice()));
            blocks.push(enc_opt_bytes(&ic.subaccount));
            let r = enc_blocks(&blocks);
            proof {
                assert(blocks_view(blocks@) =~~= seq![
                    seq![0u8],
                    ic.owner@,
                    se_opt_bytes(opt_bytes_view(ic.subaccount)),
                ]);
            }
            r
        },
        StoredAccount::Offchain(s) => {
            let mut tag: Vec<u8> = Vec::new();
            tag.push(1u8);
            blocks.push(tag);
            blocks.push(s.as_str().as_bytes_vec());
            let r = enc_blocks(&blocks);
            proof {
                assert(blocks_view(blocks@) =~~= seq![seq![1u8], encode_utf8(s@)]);
            }
            r
        },
    }
}

/// Reads back an account identifier.
pub(crate) fn dec_stored_account(block: &Vec<u8>, Ghost(av): Ghost<StoredAccountV>) -> (r:
    StoredAccount)
    requires
        block@ == se_stored_account(av),
    ensures
        r@ == av,
{
    let ghost bs = match av {
        StoredAccountV::Icrc1(ic) => seq![seq![0u8], ic.owner, se_opt_bytes(ic.subaccount)],
        StoredAccountV::Offchain(s) => seq![seq![1u8], encode_utf8(s)],
    };
    proof {
        assert(bytes_at(block@, 0, se_blocks(bs))) by {
            assert(block@.subrange(0, block@.len() as int) =~= block@);
        }
    }
    let (blocks, _n) = dec_blocks(block.as_slice(), 0, Ghost(bs));
    proof {
        assert(blocks_view(blocks@)[0] == blocks@[0]@);
        assert(blocks_view(blocks@)[1] == blocks@[1]@);
    }
    let tag = blocks[0][0];
    if tag == 0 {
        proof {
            assert(av is Icrc1) by {
                if av is Offchain {
                    assert(bs[0] == seq![1u8]);
                }
            }
            assert(blocks_view(blocks@)[2] == blocks@[2]@);
        }
        let ghost ic = av->Icrc1_0;
        let owner = slice_to_vec(blocks[1].as_slice());
        let subaccount = dec_opt_bytes(&blocks[2], Ghost(ic.subaccount));
        let r = StoredAccount::Icrc1(IcrcAccount { owner, subaccount });
        proof {
            assert(r@ == av);
        }
        r
    } else {
        proof {
            assert(av is Offchain) by {
                if av is Icrc1 {
                    assert(bs[0] == seq![0u8]);
                }
            }
        }
        let s = dec_str_slice(blocks[1].as_slice(), Ghost(av->Offchain_0));
        StoredAccount::Offchain(s)
    }
}

/// Serializes a labeled account.
pub(crate) fn enc_labeled_account(la: &LabeledAccount) -> (r: Vec<u8>)
    ensures
        r@ == se_labeled_account(la@),
{
    let mut blocks: Vec<Vec<u8>> = Vec::new();
    blocks.push(enc_stored_account(&la.account));
    blocks.push(la.label.as_str().as_bytes_vec());
    blocks.push(enc_opt_str(&la.product));
    let r = enc_blocks(&blocks);
    proof {
        assert(blocks_view(blocks@) =~~= seq![
            se_stored_account(la.account@),
            encode_utf8(la.label@),
            se_opt_str(opt_str_view(la.product)),
        ]);
    }
    r
}

/// Reads back a labeled account.
pub(crate) fn dec_labeled_account(block: &Vec<u8>, Ghost(lav): Ghost<LabeledAccountV>) -> (r:
    LabeledAccount)
    requires
        block@ == se_labeled_account(lav),
    ensures
        r@ == lav,
{
    let ghost bs = seq![
        se_stored_account(lav.account),
        encode_utf8(lav.label),
        se_opt_str(lav.product),
    ];
    proof {
        assert(bytes_at(block@, 0, se_blocks(bs))) by {
            assert(block@.subrange(0, block@.len() as int) =~= block@);
        }
    }
    let (blocks, _n) = dec_blocks(block.as_slice(), 0, Ghost(bs));
    proof {
        assert(blocks_view(blocks@)[0] == blocks@[0]@);
        assert(blocks_view(blocks@)[1] == blocks@[1]@);
        assert(blocks_view(blocks@)[2] == blocks@[2]@);
    }
    let account = dec_stored_account(&blocks[0], Ghost(lav.account));
    let label = dec_str_slice(blocks[1].as_slice(), Ghost(lav.label));
    let product = dec_opt_str(&blocks[2], Ghost(lav.product));
    let r = LabeledAccount { account, label, product };
    proof {
        assert(r@ == lav);
    }
    r
}

/// Serializes one transaction-label record.
pub(crate) fn enc_tx_label(t: &TransactionLabelRecord) -> (r: Vec<u8>)
    ensures
        r@ == se_tx_label(t@),
{
    let mut blocks: Vec<Vec<u8>> = Vec::new();
    blocks.push(u64_to_le_bytes(t.id));
    blocks.push(t.label.as_str().as_bytes_vec());
    let r = enc_blocks(&blocks);
    proof {
        assert(blocks_view(blocks@) =~~= seq![se_u64(t.id), encode_utf8(t.label@)]);
    }
    r
}

/// Reads back one transaction-label record.
pub(crate) fn dec_tx_label(block: &Vec<u8>, Ghost(tv): Ghost<TxLabelV>) -> (r:
    TransactionLabelRecord)
    requires
        block@ == se_tx_label(tv),
    ensures
        r@ == tv,
{
    let ghost bs = seq![se_u64(tv.id), encode_utf8(tv.label)];
    proof {
        assert(bytes_at(block@, 0, se_blocks(bs))) by {
            assert(block@.subrange(0, block@.len() as int) =~= block@);
        }
    }
    let (blocks, _n) = dec_blocks(block.as_slice(), 0, Ghost(bs));
    proof {
        assert(blocks_view(blocks@)[0] == blocks@[0]@);
        assert(blocks_view(blocks@)[1] == blocks@[1]@);
        assert(bytes_at(blocks@[0]@, 0, se_u64(tv.id))) by {
            assert(blocks@[0]@.subrange(0, blocks@[0]@.len() as int) =~= blocks@[0]@);
        }
    }
    let (id, _) = dec_u64(blocks[0].as_slice(), 0, Ghost(tv.id));
    let label = dec_str_slice(blocks[1].as_slice(), Ghost(tv.label));
    let r = TransactionLabelRecord { id, label };
    proof {
        assert(r@ == tv);
    }
    r
}

/// Serializes one custom transaction.
pub(crate) fn enc_custom_tx(t: &CustomTransaction) -> (r: Vec<u8>)
    ensures
        r@ == se_custom_tx(t@),
{
    let mut blocks: Vec<Vec<u8>> = Vec::new();
    blocks.push(t.id.as_str().as_bytes_vec());
    blocks.push(u64_to_le_bytes(t.timestamp_ms));
    blocks.push(t.label.as_str().as_bytes_vec());
    blocks.push(u64_to_le_bytes(t.amount));
    let r = enc_blocks(&blocks);
    proof {
        assert(blocks_view(blocks@) =~~= seq![
            encode_utf8(t.id@),
            se_u64(t.timestamp_ms),
            encode_utf8(t.label@),
            se_u64(t.amount),
        ]);
    }
    r
}

/// Reads back one custom transaction.
pub(crate) fn dec_custom_tx(block: &Vec<u8>, Ghost(tv): Ghost<CustomTxV>) -> (r: CustomTransaction)
    requires
        block@ == se_custom_tx(tv),
    ensures
        r@ == tv,
{
    let ghost bs = seq![
        encode_utf8(tv.id),
        se_u64(tv.timestamp_ms),
        encode_utf8(tv.label),
        se_u64(tv.amount),
    ];
    proof {
        assert(bytes_at(block@, 0, se_blocks(bs))) by {
            assert(block@.subrange(0, block@.len() as int) =~= block@);
        }
    }
    let (blocks, _n) = dec_blocks(block.as_slice(), 0, Ghost(bs));
    proof {
        assert(blocks_view(blocks@)[0] == blocks@[0]@);
        assert(blocks_view(blocks@)[1] == blocks@[1]@);
        assert(blocks_view(blocks@)[2] == blocks@[2]@);
        assert(blocks_view(blocks@)[3] == blocks@[3]@);
        assert(bytes_at(blocks@[1]@, 0, se_u64(tv.timestamp_ms))) by {
            assert(blocks@[1]@.subrange(0, blocks@[1]@.len() as int) =~= blocks@[1]@);
        }
        assert(bytes_at(blocks@[3]@, 0, se_u64(tv.amount))) by {
            assert(blocks@[3]@.subrange(0, blocks@[3]@.len() as int) =~= blocks@[3]@);
        }
    }
    let id = dec_str_slice(blocks[0].as_slice(), Ghost(tv.id));
    let (timestamp_ms, _) = dec_u64(blocks[1].as_slice(), 0, Ghost(tv.timestamp_ms));
    let label = dec_str_slice(blocks[2].as_slice(), Ghost(tv.label));
    let (amount, _) = dec_u64(blocks[3].as_slice(), 0, Ghost(tv.amount));
    let r = CustomTransaction { id, timestamp_ms, label, amount };
    proof {
        assert(r@ == tv);
    }
    r
}

} // verus!

verus! {

/// Serializes an owner's account aggregate.
pub(crate) fn enc_accounts(v: &Vec<LabeledAccount>) -> (r: Vec<u8>)
    ensures
        r@ == se_accounts(las_view(v@)),
{
    let ghost m = las_view(v@).map(|i: int, la: LabeledAccountV| se_labeled_account(la));
    let mut blocks: Vec<Vec<u8>> = Vec::new();
    let mut k: usize = 0;
    while k < v.len()
        invariant
            k <= v@.len(),
            m == las_view(v@).map(|i: int, la: LabeledAccountV| se_labeled_account(la)),
            m.len() == v@.len(),
            blocks_view(blocks@) == m.take(k as int),
        decreases v@.len() - k,
    {
        let ghost b0 = blocks@;
        blocks.push(enc_labeled_account(&v[k]));
        proof {
            assert(m[k as int] == se_labeled_account(las_view(v@)[k as int]));
            assert(las_view(v@)[k as int] == v@[k as int]@);
            assert(blocks_view(b0).len() == b0.len());
            assert(b0.len() == k);
            assert forall|j: int| 0 <= j <= k implies blocks_view(blocks@)[j] == m.take(k + 1)[j] by {
                assert(blocks_view(blocks@)[j] == blocks@[j]@);
                if j < k {
                    assert(blocks@[j] == b0[j]);
                    assert(blocks_view(b0)[j] == b0[j]@);
                }
            }
            assert(blocks_view(blocks@) =~= m.take(k + 1));
        }
        k += 1;
    }
    proof {
        assert(m.take(v@.len() as int) =~= m);
    }
    enc_blocks(&blocks)
}

/// Reads back an owner's account aggregate.
pub(crate) fn dec_accounts(bytes: &[u8], Ghost(vv): Ghost<Seq<LabeledAccountV>>) -> (r: Vec<
    LabeledAccount,
>)
    requires
        bytes@ == se_accounts(vv),
    ensures
        las_view(r@) == vv,
{
    let ghost bs = vv.map(|i: int, la: LabeledAccountV| se_labeled_account(la));
    proof {
        assert(bytes_at(bytes@, 0, se_blocks(bs))) by {
            assert(bytes@.subrange(0, bytes@.len() as int) =~= bytes@);
        }
    }
    let (blocks, _n) = dec_blocks(bytes, 0, Ghost(bs));
    let mut out: Vec<LabeledAccount> = Vec::new();
    let mut k: usize = 0;
    while k < blocks.len()
        invariant
            k <= blocks@.len(),
            blocks_view(blocks@) == bs,
            bs == vv.map(|i: int, la: LabeledAccountV| se_labeled_account(la)),
            bs.len() == vv.len(),
            blocks@.len() == bs.len(),
            las_view(out@) == vv.take(k as int),
        decreases blocks@.len() - k,
    {
        proof {
            assert(blocks_view(blocks@)[k as int] == blocks@[k as int]@);
            assert(bs[k as int] == se_labeled_account(vv[k as int]));
        }
        let la = dec_labeled_account(&blocks[k], Ghost(vv[k as int]));
        let ghost out0 = out@;
        out.push(la);
        proof {
            assert(las_view(out0).len() == out0.len());
            assert(out0.len() == k);
            assert forall|j: int| 0 <= j <= k implies las_view(out@)[j] == vv.take(k + 1)[j] by {
                assert(las_view(out@)[j] == out@[j]@);
                if j < k {
                    assert(out@[j] == out0[j]);
                    assert(las_view(out0)[j] == out0[j]@);
                }
            }
            assert(las_view(out@) =~= vv.take(k + 1));
        }
        k += 1;
    }
    proof {
        assert(vv.take(vv.len() as int) =~= vv);
    }
    out
}

/// Serializes an owner's transaction-label aggregate.
pub(crate) fn enc_tx_labels(v: &Vec<TransactionLabelRecord>) -> (r: Vec<u8>)
    ensures
        r@ == se_tx_labels(txls_view(v@)),
{
    let ghost m = txls_view(v@).map(|i: int, t: TxLabelV| se_tx_label(t));
    let mut blocks: Vec<Vec<u8>> = Vec::new();
    let mut k: usize = 0;
    while k < v.len()
        invariant
            k <= v@.len(),
            m == txls_view(v@).map(|i: int, t: TxLabelV| se_tx_label(t)),
            m.len() == v@.len(),
            blocks_view(blocks@) == m.take(k as int),
        decreases v@.len() - k,
    {
        let ghost b0 = blocks@;
        blocks.push(enc_tx_label(&v[k]));
        proof {
            assert(m[k as int] == se_tx_label(txls_view(v@)[k as int]));
            assert(txls_view(v@)[k as int] == v@[k as int]@);
            assert(blocks_view(b0).len() == b0.len());
            assert(b0.len() == k);
            assert forall|j: int| 0 <= j <= k implies blocks_view(blocks@)[j] == m.take(k + 1)[j] by {
                assert(blocks_view(blocks@)[j] == blocks@[j]@);
                if j < k {
                    assert(blocks@[j] == b0[j]);
                    assert(blocks_view(b0)[j] == b0[j]@);
                }
            }
            assert(blocks_view(blocks@) =~= m.take(k + 1));
        }
        k += 1;
    }
    proof {
        assert(m.take(v@.len() as int) =~= m);
    }
    enc_blocks(&blocks)
}

/// Reads back an owner's transaction-label aggregate.
pub(crate) fn dec_tx_labels(bytes: &[u8], Ghost(vv): Ghost<Seq<TxLabelV>>) -> (r: Vec<
    TransactionLabelRecord,
>)
    requires
        bytes@ == se_tx_labels(vv),
    ensures
        txls_view(r@) == vv,
{
    let ghost bs = vv.map(|i: int, t: TxLabelV| se_tx_label(t));
    proof {
        assert(bytes_at(bytes@, 0, se_blocks(bs))) by {
            assert(bytes@.subrange(0, bytes@.len() as int) =~= bytes@);
        }
    }
    let (blocks, _n) = dec_blocks(bytes, 0, Ghost(bs));
    let mut out: Vec<TransactionLabelRecord> = Vec::new();
    let mut k: usize = 0;
    while k < blocks.len()
        invariant
            k <= blocks@.len(),
            blocks_view(blocks@) == bs,
            bs == vv.map(|i: int, t: TxLabelV| se_tx_label(t)),
            bs.len() == vv.len(),
            blocks@.len() == bs.len(),
            txls_view(out@) == vv.take(k as int),
        decreases blocks@.len() - k,
    {
        proof {
            assert(blocks_view(blocks@)[k as int] == blocks@[k as int]@);
            assert(bs[k as int] == se_tx_label(vv[k as int]));
        }
        let t = dec_tx_label(&blocks[k], Ghost(vv[k as int]));
        let ghost out0 = out@;
        out.push(t);
        proof {
            assert(txls_view(out0).len() == out0.len());
            assert(out0.len() == k);
            assert forall|j: int| 0 <= j <= k implies txls_view(out@)[j] == vv.take(k + 1)[j] by {
                assert(txls_view(out@)[j] == out@[j]@);
                if j < k {
                    assert(out@[j] == out0[j]);
                    assert(txls_view(out0)[j] == out0[j]@);
                }
            }
            assert(txls_view(out@) =~= vv.take(k + 1));
        }
        k += 1;
    }
    proof {
        assert(vv.take(vv.len() as int) =~= vv);
    }
    out
}

/// Serializes an owner's custom-transaction aggregate.
pub(crate) fn enc_custom_txs(v: &Vec<CustomTransaction>) -> (r: Vec<u8>)
    ensures
        r@ == se_custom_txs(ctxs_view(v@)),
{
    let ghost m = ctxs_view(v@).map(|i: int, t: CustomTxV| se_custom_tx(t));
    let mut blocks: Vec<Vec<u8>> = Vec::new();
    let mut k: usize = 0;
    while k < v.len()
        invariant
            k <= v@.len(),
            m == ctxs_view(v@).map(|i: int, t: CustomTxV| se_custom_tx(t)),
            m.len() == v@.len(),
            blocks_view(blocks@) == m.take(k as int),
        decreases v@.len() - k,
    {
        let ghost b0 = blocks@;
        blocks.push(enc_custom_tx(&v[k]));
        proof {
            assert(m[k as int] == se_custom_tx(ctxs_view(v@)[k as int]));
            assert(ctxs_view(v@)[k as int] == v@[k as int]@);
            assert(blocks_view(b0).len() == b0.len());
            assert(b0.len() == k);
            assert forall|j: int| 0 <= j <= k implies blocks_view(blocks@)[j] == m.take(k + 1)[j] by {
                assert(blocks_view(blocks@)[j] == blocks@[j]@);
                if j < k {
                    assert(blocks@[j] == b0[j]);
                    assert(blocks_view(b0)[j] == b0[j]@);
                }
            }
            assert(blocks_view(blocks@) =~= m.take(k + 1));
        }
        k += 1;
    }
    proof {
        assert(m.take(v@.len() as int) =~= m);
    }
    enc_blocks(&blocks)
}

/// Reads back an owner's custom-transaction aggregate.
pub(crate) fn dec_custom_txs(bytes: &[u8], Ghost(vv): Ghost<Seq<CustomTxV>>) -> (r: Vec<
    CustomTransaction,
>)
    requires
        bytes@ == se_custom_txs(vv),
    ensures
        ctxs_view(r@) == vv,
{
    let ghost bs = vv.map(|i: int, t: CustomTxV| se_custom_tx(t));
    proof {
        assert(bytes_at(bytes@, 0, se_blocks(bs))) by {
            assert(bytes@.subrange(0, bytes@.len() as int) =~= bytes@);
        }
    }
    let (blocks, _n) = dec_blocks(bytes, 0, Ghost(bs));
    let mut out: Vec<CustomTransaction> = Vec::new();
    let mut k: usize = 0;
    while k < blocks.len()
        invariant
            k <= blocks@.len(),
            blocks_view(blocks@) == bs,
            bs == vv.map(|i: int, t: CustomTxV| se_custom_tx(t)),
            bs.len() == vv.len(),
            blocks@.len() == bs.len(),
            ctxs_view(out@) == vv.take(k as int),
        decreases blocks@.len() - k,
    {
        proof {
            assert(blocks_view(blocks@)[k as int] == blocks@[k as int]@);
            assert(bs[k as int] == se_custom_tx(vv[k as int]));
        }
        let t = dec_custom_tx(&blocks[k], Ghost(vv[k as int]));
        let ghost out0 = out@;
        out.push(t);
        proof {
            assert(ctxs_view(out0).len() == out0.len());
            assert(out0.len() == k);
            assert forall|j: int| 0 <= j <= k implies ctxs_view(out@)[j] == vv.take(k + 1)[j] by {
                assert(ctxs_view(out@)[j] == out@[j]@);
                if j < k {
                    assert(out@[j] == out0[j]);
                    assert(ctxs_view(out0)[j] == out0[j]@);
                }
            }
            assert(ctxs_view(out@) =~= vv.take(k + 1));
        }
        k += 1;
    }
    proof {
        assert(vv.take(vv.len() as int) =~= vv);
    }
    out
}

/// Serializes an owner's label or product list.
pub(crate) fn enc_str_list(v: &Vec<String>) -> (r: Vec<u8>)
    ensures
        r@ == se_str_list(strs_view(v@)),
{
    let ghost m = strs_view(v@).map(|i: int, s: Seq<char>| encode_utf8(s));
    let mut blocks: Vec<Vec<u8>> = Vec::new();
    let mut k: usize = 0;
    while k < v.len()
        invariant
            k <= v@.len(),
            m == strs_view(v@).map(|i: int, s: Seq<char>| encode_utf8(s)),
            m.len() == v@.len(),
            blocks_view(blocks@) == m.take(k as int),
        decreases v@.len() - k,
    {
        let ghost b0 = blocks@;
        blocks.push(v[k].as_str().as_bytes_vec());
        proof {
            assert(m[k as int] == encode_utf8(strs_view(v@)[k as int]));
            assert(strs_view(v@)[k as int] == v@[k as int]@);
            assert(blocks_view(b0).len() == b0.len());
            assert(b0.len() == k);
            assert forall|j: int| 0 <= j <= k implies blocks_view(blocks@)[j] == m.take(k + 1)[j] by {
                assert(blocks_view(blocks@)[j] == blocks@[j]@);
                if j < k {
                    assert(blocks@[j] == b0[j]);
                    assert(blocks_view(b0)[j] == b0[j]@);
                }
            }
            assert(blocks_view(blocks@) =~= m.take(k + 1));
        }
        k += 1;
    }
    proof {
        assert(m.take(v@.len() as int) =~= m);
    }
    enc_blocks(&blocks)
}

/// Reads back an owner's label or product list.
pub(crate) fn dec_str_list(bytes: &[u8], Ghost(vv): Ghost<Seq<Seq<char>>>) -> (r: Vec<String>)
    requires
        bytes@ == se_str_list(vv),
    ensures
        strs_view(r@) == vv,
{
    let ghost bs = vv.map(|i: int, s: Seq<char>| encode_utf8(s));
    proof {
        assert(bytes_at(bytes@, 0, se_blocks(bs))) by {
            assert(bytes@.subrange(0, bytes@.len() as int) =~= bytes@);
        }
    }
    let (blocks, _n) = dec_blocks(bytes, 0, Ghost(bs));
    let mut out: Vec<String> = Vec::new();
    let mut k: usize = 0;
    while k < blocks.len()
        invariant
            k <= blocks@.len(),
            blocks_view(blocks@) == bs,
            bs == vv.map(|i: int, s: Seq<char>| encode_utf8(s)),
            bs.len() == vv.len(),
            blocks@.len() == bs.len(),
            strs_view(out@) == vv.take(k as int),
        decreases blocks@.len() - k,
    {
        proof {
            assert(blocks_view(blocks@)[k as int] == blocks@[k as int]@);
            assert(bs[k as int] == encode_utf8(vv[k as int]));
        }
        let s = dec_str_slice(blocks[k].as_slice(), Ghost(vv[k as int]));
        let ghost out0 = out@;
        out.push(s);
        proof {
            assert(strs_view(out0).len() == out0.len());
            assert(out0.len() == k);
            assert forall|j: int| 0 <= j <= k implies strs_view(out@)[j] == vv.take(k + 1)[j] by {
                assert(strs_view(out@)[j] == out@[j]@);
                if j < k {
                    assert(out@[j] == out0[j]);
                    assert(strs_view(out0)[j] == out0[j]@);
                }
            }
            assert(strs_view(out@) =~= vv.take(k + 1));
        }
        k += 1;
    }
    proof {
        assert(vv.take(vv.len() as int) =~= vv);
    }
    out
}

} // verus!
