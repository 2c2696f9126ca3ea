use vstd::arithmetic::mul::lemma_mul_strict_inequality;
use vstd::arithmetic::power2::*;
use vstd::prelude::*;
use crate::base32::{digits, encoded_len, lemma_digits_order, lemma_digits_shape, lex_less, padded_value};
use crate::bytes::{lemma_min_be_bytes, lemma_min_be_bytes_len_mono, min_be_bytes};
use crate::id::{alphabet, id_less, id_text, lemma_alphabet, lemma_id_text_shape, lemma_lex_asym};

verus! {

/// Identifiers of equal length hold the larger timestamp as the later
/// text in dictionary order.
proof fn lemma_same_width_order(t1: nat, t2: nat)
    requires
        t1 < t2,
        min_be_bytes(t1).len() == min_be_bytes(t2).len(),
    ensures
        lex_less(id_text(t1), id_text(t2)),
{
    let b1 = min_be_bytes(t1);
    let b2 = min_be_bytes(t2);
    let n = b1.len();
    let len = encoded_len(n);
    let e = (5 * len - 8 * n) as nat;
    lemma_min_be_bytes(t1);
    lemma_min_be_bytes(t2);
    lemma_pow2_pos(e);
    lemma_mul_strict_inequality(t1 as int, t2 as int, pow2(e) as int);
    lemma_mul_strict_inequality(t2 as int, pow2(8 * n) as int, pow2(e) as int);
    lemma_pow2_adds(8 * n, e);
    assert(8 * n + e == 5 * len);
    let p1 = padded_value(b1);
    let p2 = padded_value(b2);
    let k = lemma_digits_order(p1, p2, len);
    let d1 = digits(p1, len);
    let d2 = digits(p2, len);
    lemma_digits_shape(p1, len);
    lemma_digits_shape(p2, len);
    lemma_alphabet();
    let s1 = id_text(t1);
    let s2 = id_text(t2);
    assert forall|j: int| 0 <= j < k implies s1[j] == s2[j] by {
        assert(d1.subrange(0, k)[j] == d2.subrange(0, k)[j]);
    }
    assert(s1.subrange(0, k) =~= s2.subrange(0, k));
    assert(s1[k] < s2[k]);
}

/// A later timestamp gives a later identifier: shorter identifiers come
/// first, and among identifiers of one length the dictionary order of the
/// texts is the order of the timestamps.
pub proof fn lemma_lexicoid_increasing(t1: u64, t2: u64)
    requires
        t1 < t2,
    ensures
        id_less(id_text(t1 as nat), id_text(t2 as nat)),
        !id_less(id_text(t2 as nat), id_text(t1 as nat)),
{
    let n1 = min_be_bytes(t1 as nat).len();
    let n2 = min_be_bytes(t2 as nat).len();
    lemma_min_be_bytes_len_mono(t1 as nat, t2 as nat);
    lemma_id_text_shape(t1 as nat);
    lemma_id_text_shape(t2 as nat);
    if n1 < n2 {
        assert(encoded_len(n1) < encoded_len(n2));
    } else {
        lemma_same_width_order(t1 as nat, t2 as nat);
        lemma_lex_asym(id_text(t1 as nat), id_text(t2 as nat));
    }
}

/// Two timestamps have the same identifier exactly when they are equal:
/// generating twice from one timestamp gives the same text, and distinct
/// timestamps never share one.
pub proof fn lemma_lexicoid_injective(t1: u64, t2: u64)
    ensures
        (id_text(t1 as nat) == id_text(t2 as nat)) == (t1 == t2),
{
    if t1 < t2 {
        lemma_lexicoid_increasing(t1, t2);
        lemma_lex_asym(id_text(t1 as nat), id_text(t2 as nat));
    } else if t2 < t1 {
        lemma_lexicoid_increasing(t2, t1);
        lemma_lex_asym(id_text(t2 as nat), id_text(t1 as nat));
    }
}

/// A later timestamp never gives a shorter identifier.
pub proof fn lemma_lexicoid_len_monotonic(t1: u64, t2: u64)
    requires
        t1 <= t2,
    ensures
        id_text(t1 as nat).len() <= id_text(t2 as nat).len(),
{
    if t1 < t2 {
        lemma_lexicoid_increasing(t1, t2);
    }
}

} // verus!
