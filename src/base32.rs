use vstd::arithmetic::power2::*;
use vstd::prelude::*;
use crate::bytes::be_value;

verus! {

/// The `len` base-32 digits of `p`, most significant first; higher digits
/// beyond `len` are dropped.
pub open spec fn digits(p: nat, len: nat) -> Seq<nat>
    decreases len,
{
    if len == 0 {
        Seq::empty()
    } else {
        digits(p / 32, (len - 1) as nat).push(p % 32)
    }
}

/// How many symbols a base-32 encoding without padding gives for `n` bytes:
/// one for every five bits, the last group filled up with zero bits.
pub open spec fn encoded_len(n: nat) -> nat {
    (8 * n + 4) / 5
}

/// The bits of `b`, most significant first, followed by the zero bits that
/// fill the last group of five.
pub open spec fn padded_value(b: Seq<u8>) -> nat {
    be_value(b) * pow2((5 * encoded_len(b.len()) - 8 * b.len()) as nat)
}

/// The base-32 text of `b` over `symbols`, where `symbols[v]` stands for
/// the five bits of value `v`.
pub open spec fn base32_text(symbols: Seq<char>, b: Seq<u8>) -> Seq<char> {
    digits(padded_value(b), encoded_len(b.len())).map_values(|d: nat| symbols[d as int])
}

/// Thirty-two distinct ASCII symbols: what a base-32 encoding may use.
pub open spec fn valid_symbols(symbols: Seq<char>) -> bool {
    &&& symbols.len() == 32
    &&& forall|i: int| 0 <= i < 32 ==> #[trigger] symbols[i] <= '\u{7f}'
    &&& forall|i: int, j: int| 0 <= i < j < 32 ==> symbols[i] != symbols[j]
}

/// `a` comes before `b` in dictionary order: they agree up to some place
/// where `a` holds the smaller character.
pub open spec fn lex_less(a: Seq<char>, b: Seq<char>) -> bool {
    exists|k: int|
        0 <= k < a.len() && k < b.len() && #[trigger] a.subrange(0, k) == b.subrange(0, k) && a[k]
            < b[k]
}

pub proof fn lemma_digits_shape(p: nat, len: nat)
    ensures
        digits(p, len).len() == len,
        forall|i: int| 0 <= i < len ==> #[trigger] digits(p, len)[i] < 32,
    decreases len,
{
    if len > 0 {
        lemma_digits_shape(p / 32, (len - 1) as nat);
    }
}

/// Two numbers below `32^len` compare as their `len` digits do: at the
/// first place where the digits differ, the smaller number has the smaller
/// digit.
pub proof fn lemma_digits_order(p1: nat, p2: nat, len: nat) -> (k: int)
    requires
        p1 < p2,
        p2 < pow2(5 * len),
    ensures
        0 <= k < len,
        digits(p1, len).subrange(0, k) == digits(p2, len).subrange(0, k),
        digits(p1, len)[k] < digits(p2, len)[k],
    decreases len,
{
    lemma_digits_shape(p1, len);
    lemma_digits_shape(p2, len);
    if len == 0 {
        lemma2_to64();
        assert(false);
        0
    } else {
        let l1 = (len - 1) as nat;
        lemma_pow2_adds(5 * l1, 5);
        lemma2_to64();
        assert(5 * len == 5 * l1 + 5);
        let q1 = p1 / 32;
        let q2 = p2 / 32;
        assert(q2 < pow2(5 * l1));
        lemma_digits_shape(q1, l1);
        lemma_digits_shape(q2, l1);
        let d1 = digits(p1, len);
        let d2 = digits(p2, len);
        if q1 < q2 {
            let k = lemma_digits_order(q1, q2, l1);
            assert(d1.subrange(0, k) =~= digits(q1, l1).subrange(0, k));
            assert(d2.subrange(0, k) =~= digits(q2, l1).subrange(0, k));
            k
        } else {
            assert(d1.subrange(0, l1 as int) =~= digits(q1, l1));
            assert(d2.subrange(0, l1 as int) =~= digits(q2, l1));
            l1 as int
        }
    }
}

/// Relies on data_encoding's `Specification::encoding`, which accepts
/// thirty-two distinct ASCII symbols with no padding, and on
/// `Encoding::encode`, which writes every five bits of the input, most
/// significant first, as the symbol of their value, fills the last group
/// with zero bits and appends no padding. `encode` asserts that the input
/// length is at most `usize::MAX / 512`.
#[verifier::external_body]
pub(crate) fn base32_encode(symbols: &str, bytes: &[u8]) -> (r: String)
    requires
        valid_symbols(symbols@),
        bytes@.len() * 512 <= usize::MAX,
    ensures
        r@ == base32_text(symbols@, bytes@),
{
    let mut spec = data_encoding::Specification::new();
    spec.symbols.push_str(symbols);
    spec.encoding().unwrap().encode(bytes)
}

} // verus!
