//! Text rules: whitespace trimming, label and product validation, and the
//! time-derived custom-transaction id.

use crate::codec::{ascii_seq, lemma_ascii_bytes_decode, string_from_utf8};
use crate::types::MAX_LABEL_CHARS;
use vstd::prelude::*;
use vstd::string::StrSliceExecFns;

verus! {

/// The whitespace characters this library trims: the ASCII whitespace set.
pub open spec fn is_ws_char(c: char) -> bool {
    c == ' ' || c == '\t' || c == '\n' || c == '\r' || c == '\u{b}' || c == '\u{c}'
}

/// Index of the first character that is not whitespace (the length if all
/// characters are whitespace).
pub open spec fn trim_start_idx(s: Seq<char>) -> int
    decreases s.len(),
{
    if s.len() == 0 || !is_ws_char(s[0]) {
        0
    } else {
        1 + trim_start_idx(s.drop_first())
    }
}

/// One past the last character that is not whitespace (zero if all
/// characters are whitespace).
pub open spec fn trim_end_idx(s: Seq<char>) -> int
    decreases s.len(),
{
    if s.len() == 0 || !is_ws_char(s[s.len() - 1]) {
        s.len() as int
    } else {
        trim_end_idx(s.drop_last())
    }
}

/// The characters left after trimming whitespace from both ends.
pub open spec fn spec_trim(s: Seq<char>) -> Seq<char> {
    if trim_start_idx(s) <= trim_end_idx(s) {
        s.subrange(trim_start_idx(s), trim_end_idx(s))
    } else {
        Seq::empty()
    }
}

/// A label or product is accepted when its trimmed form is non-blank and at
/// most [`MAX_LABEL_CHARS`] characters long.
pub open spec fn spec_valid_text(s: Seq<char>) -> bool {
    1 <= spec_trim(s).len() && spec_trim(s).len() <= MAX_LABEL_CHARS
}

/// The index before which everything is whitespace and which itself is not
/// is where trimming at the start stops.
proof fn lemma_trim_start_at(s: Seq<char>, i: int)
    requires
        0 <= i <= s.len(),
        forall|j: int| 0 <= j < i ==> is_ws_char(s[j]),
        i == s.len() || !is_ws_char(s[i]),
    ensures
        trim_start_idx(s) == i,
    decreases i,
{
    if i == 0 {
    } else {
        let t = s.drop_first();
        assert(is_ws_char(s[0]));
        assert forall|j: int| 0 <= j < i - 1 implies is_ws_char(t[j]) by {
            assert(t[j] == s[j + 1]);
        }
        assert(i - 1 == t.len() || !is_ws_char(t[i - 1])) by {
            if i - 1 < t.len() {
                assert(t[i - 1] == s[i]);
            }
        }
        lemma_trim_start_at(t, i - 1);
    }
}

/// The index after which everything is whitespace and whose predecessor is
/// not is where trimming at the end stops.
proof fn lemma_trim_end_at(s: Seq<char>, b: int)
    requires
        0 <= b <= s.len(),
        forall|j: int| b <= j < s.len() ==> is_ws_char(s[j]),
        b == 0 || !is_ws_char(s[b - 1]),
    ensures
        trim_end_idx(s) == b,
    decreases s.len() - b,
{
    if b == s.len() {
    } else {
        assert(is_ws_char(s[s.len() - 1]));
        let t = s.drop_last();
        assert forall|j: int| b <= j < t.len() implies is_ws_char(t[j]) by {
            assert(t[j] == s[j]);
        }
        assert(b == 0 || !is_ws_char(t[b - 1])) by {
            if b > 0 {
                assert(t[b - 1] == s[b - 1]);
            }
        }
        lemma_trim_end_at(t, b);
    }
}

/// Whether a character is trimmed as whitespace.
pub fn is_ws(c: char) -> (r: bool)
    ensures
        r == is_ws_char(c),
{
    c == ' ' || c == '\t' || c == '\n' || c == '\r' || c == '\u{b}' || c == '\u{c}'
}

/// Index of the first character of `s` that is not whitespace.
fn scan_start(s: &str) -> (a: usize)
    ensures
        a <= s@.len(),
        forall|j: int| 0 <= j < a ==> is_ws_char(s@[j]),
        a == s@.len() || !is_ws_char(s@[a as int]),
{
    let n = s.unicode_len();
    let mut a: usize = 0;
    loop
        invariant
            a <= n,
            n == s@.len(),
            forall|j: int| 0 <= j < a ==> is_ws_char(s@[j]),
        decreases n - a,
    {
        if a == n {
            return a;
        }
        if !is_ws(s.get_char(a)) {
            return a;
        }
        a += 1;
    }
}

/// One past the last character of `s` that is not whitespace.
fn scan_end(s: &str) -> (b: usize)
    ensures
        b <= s@.len(),
        forall|j: int| b <= j < s@.len() ==> is_ws_char(s@[j]),
        b == 0 || !is_ws_char(s@[b - 1]),
{
    let n = s.unicode_len();
    let mut b: usize = n;
    loop
        invariant
            b <= n,
            n == s@.len(),
            forall|j: int| b <= j < n ==> is_ws_char(s@[j]),
        decreases b,
    {
        if b == 0 {
            return b;
        }
        if !is_ws(s.get_char(b - 1)) {
            return b;
        }
        b -= 1;
    }
}

/// Removes whitespace from both ends of `s`.
pub fn trim_text(s: &str) -> (r: String)
    ensures
        r@ == spec_trim(s@),
{
    let a = scan_start(s);
    let b = scan_end(s);
    proof {
        lemma_trim_start_at(s@, a as int);
        lemma_trim_end_at(s@, b as int);
    }
    if a < b {
        let sub = s.substring_char(a, b);
        sub.to_owned()
    } else {
        proof {
            if trim_start_idx(s@) <= trim_end_idx(s@) {
                assert(s@.subrange(a as int, b as int) =~= Seq::<char>::empty());
            }
        }
        String::new()
    }
}

/// Accepts a label whose trimmed form is non-blank and at most
/// [`MAX_LABEL_CHARS`] characters long.
pub fn validate_label(label: &str) -> (r: bool)
    ensures
        r == spec_valid_text(label@),
{
    let t = trim_text(label);
    let n = t.as_str().unicode_len();
    1 <= n && n <= MAX_LABEL_CHARS
}

/// Products follow the same rule as labels.
pub fn validate_product(product: &str) -> (r: bool)
    ensures
        r == spec_valid_text(product@),
{
    validate_label(product)
}

/// Decimal digit bytes of `n`, most significant first.
pub open spec fn spec_decimal_bytes(n: nat) -> Seq<u8>
    decreases n,
{
    if n < 10 {
        seq![(48 + n) as u8]
    } else {
        spec_decimal_bytes(n / 10).push((48 + n % 10) as u8)
    }
}

/// Decimal digit characters of `n`, most significant first.
pub open spec fn spec_decimal_chars(n: nat) -> Seq<char> {
    spec_decimal_bytes(n).map(|i: int, b: u8| b as char)
}

/// The id derived for a blank custom-transaction id: `C#` followed by the
/// epoch seconds in decimal.
pub open spec fn spec_derived_id(now_ns: u64) -> Seq<char> {
    seq!['C', '#'] + spec_decimal_chars((now_ns / 1_000_000_000) as nat)
}

/// Decimal digit bytes are ASCII digit codes, and there is at least one.
proof fn lemma_decimal_bytes_ascii(n: nat)
    ensures
        spec_decimal_bytes(n).len() >= 1,
        forall|i: int|
            0 <= i < spec_decimal_bytes(n).len() ==> 48 <= #[trigger] spec_decimal_bytes(n)[i]
                <= 57,
    decreases n,
{
    if n >= 10 {
        lemma_decimal_bytes_ascii(n / 10);
    }
}

/// Appends the decimal digits of `n` to `out`.
fn push_decimal(out: &mut Vec<u8>, n: u64)
    ensures
        final(out)@ == old(out)@ + spec_decimal_bytes(n as nat),
    decreases n,
{
    if n < 10 {
        out.push(48 + (n as u8));
        proof {
            assert(final(out)@ =~= old(out)@ + spec_decimal_bytes(n as nat));
        }
    } else {
        push_decimal(out, n / 10);
        out.push(48 + ((n % 10) as u8));
        proof {
            assert(final(out)@ =~= old(out)@ + spec_decimal_bytes(n as nat));
        }
    }
}

/// Builds the id used when a custom transaction is created with a blank id:
/// `C#` followed by the epoch seconds of the supplied time.
pub fn derived_custom_id(now_ns: u64) -> (r: String)
    ensures
        r@ == spec_derived_id(now_ns),
{
    let secs = now_ns / 1_000_000_000;
    let mut bytes: Vec<u8> = Vec::new();
    bytes.push(67u8);
    bytes.push(35u8);
    push_decimal(&mut bytes, secs);
    proof {
        lemma_decimal_bytes_ascii(secs as nat);
        assert(bytes@ =~= seq![67u8, 35u8] + spec_decimal_bytes(secs as nat));
        assert(ascii_seq(bytes@)) by {
            assert forall|i: int| 0 <= i < bytes@.len() implies bytes@[i] < 0x80 by {
                if i >= 2 {
                    assert(bytes@[i] == spec_decimal_bytes(secs as nat)[i - 2]);
                }
            }
        }
        lemma_ascii_bytes_decode(bytes@);
        assert(decode_utf8_of(bytes@) =~= spec_derived_id(now_ns)) by {
            assert forall|i: int| 0 <= i < bytes@.len() implies decode_utf8_of(bytes@)[i]
                == spec_derived_id(now_ns)[i] by {
                assert(decode_utf8_of(bytes@)[i] == bytes@[i] as char);
                if i >= 2 {
                    assert(spec_decimal_chars(secs as nat)[i - 2] == spec_decimal_bytes(
                        secs as nat,
                    )[i - 2] as char);
                    assert(bytes@[i] == spec_decimal_bytes(secs as nat)[i - 2]);
                }
            }
        }
    }
    let r = string_from_utf8(bytes);
    r.unwrap()
}

/// The characters an ASCII byte sequence decodes to.
pub open spec fn decode_utf8_of(b: Seq<u8>) -> Seq<char> {
    vstd::utf8::decode_utf8(b)
}

} // verus!

verus! {

/// String equality through the views; two strings are equal exactly when
/// their UTF-8 bytes are.
pub fn eq_str(a: &str, b: &str) -> (r: bool)
    ensures
        r == (a@ == b@),
{
    let e = crate::types::eq_bytes(a.as_bytes(), b.as_bytes());
    proof {
        vstd::utf8::encode_utf8_decode_utf8(a@);
        vstd::utf8::encode_utf8_decode_utf8(b@);
    }
    e
}

} // verus!
