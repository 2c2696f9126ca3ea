use vstd::arithmetic::power2::*;
use vstd::prelude::*;

verus! {

/// The number that a byte string spells in big-endian order.
pub open spec fn be_value(b: Seq<u8>) -> nat
    decreases b.len(),
{
    if b.len() == 0 {
        0
    } else {
        be_value(b.drop_last()) * 256 + b.last() as nat
    }
}

/// The shortest big-endian byte string of `t`; zero is the single byte 0.
pub open spec fn min_be_bytes(t: nat) -> Seq<u8>
    decreases t,
{
    if t < 256 {
        seq![t as u8]
    } else {
        min_be_bytes(t / 256).push((t % 256) as u8)
    }
}

/// The bytes spell `t` back, never start with a zero byte unless they are
/// the single byte of zero, and number at least one.
pub proof fn lemma_min_be_bytes(t: nat)
    ensures
        be_value(min_be_bytes(t)) == t,
        min_be_bytes(t).len() >= 1,
        min_be_bytes(t).len() == 1 || min_be_bytes(t)[0] != 0,
        t < pow2(8 * min_be_bytes(t).len()),
    decreases t,
{
    let b = min_be_bytes(t);
    if t < 256 {
        assert(b.drop_last() =~= Seq::<u8>::empty());
        assert(be_value(b.drop_last()) == 0);
        lemma2_to64();
    } else {
        lemma_min_be_bytes(t / 256);
        let c = min_be_bytes(t / 256);
        assert(b.drop_last() =~= c);
        assert(b[0] == c[0]);
        assert(be_value(b) == be_value(c) * 256 + (t % 256));
        lemma_pow2_adds(8 * c.len(), 8);
        lemma2_to64();
    }
}

/// A number below `2^(8k)` takes at most `k` bytes.
pub proof fn lemma_min_be_bytes_len_bound(t: nat, k: nat)
    requires
        k >= 1,
        t < pow2(8 * k),
    ensures
        min_be_bytes(t).len() <= k,
    decreases t,
{
    if t >= 256 {
        lemma2_to64();
        if k == 1 {
            assert(false);
        }
        lemma_pow2_adds(8 * (k - 1) as nat, 8);
        assert(8 * k == 8 * (k - 1) as nat + 8);
        lemma_min_be_bytes_len_bound(t / 256, (k - 1) as nat);
    }
}

/// A larger number never has fewer bytes.
pub proof fn lemma_min_be_bytes_len_mono(t1: nat, t2: nat)
    requires
        t1 <= t2,
    ensures
        min_be_bytes(t1).len() <= min_be_bytes(t2).len(),
    decreases t2,
{
    if t2 >= 256 && t1 >= 256 {
        lemma_min_be_bytes_len_mono(t1 / 256, t2 / 256);
    } else if t2 >= 256 {
        lemma_min_be_bytes(t2);
    }
}

/// The minimal big-endian bytes of `t`: no leading zero byte, and the single
/// byte 0 for zero.
pub fn be_bytes_minimal(t: u64) -> (r: Vec<u8>)
    ensures
        r@ == min_be_bytes(t as nat),
        1 <= r@.len() <= 8,
{
    proof {
        lemma2_to64();
        lemma_min_be_bytes_len_bound(t as nat, 8);
    }
    let mut v: u64 = t;
    let mut out: Vec<u8> = Vec::new();
    while v >= 256
        invariant
            min_be_bytes(t as nat) == min_be_bytes(v as nat) + out@,
            min_be_bytes(v as nat).len() + out@.len() <= 8,
        decreases v,
    {
        let ghost old_out = out@;
        assert(min_be_bytes(v as nat) == min_be_bytes((v / 256) as nat).push((v % 256) as u8));
        out.insert(0, (v % 256) as u8);
        assert(min_be_bytes(v as nat) + old_out =~= min_be_bytes((v / 256) as nat) + out@);
        v = v / 256;
    }
    out.insert(0, v as u8);
    assert(min_be_bytes(t as nat) =~= out@);
    out
}

} // verus!
