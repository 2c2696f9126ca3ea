use vstd::prelude::*;
use vstd::string::is_ascii;
use crate::base32::{
    base32_encode, base32_text, digits, encoded_len, lemma_digits_shape, lex_less, padded_value,
    valid_symbols,
};
use crate::bytes::{be_bytes_minimal, min_be_bytes};

verus! {

/// The symbols of identifiers, in the order of the values they stand for.
pub const ALPHABET: &'static str = "234567abcdefghijklmnopqrstuvwxyz";

/// The symbol that stands for value `v`: the digits 2 to 7 for 0 to 5, then
/// the letters a to z for 6 to 31.
pub open spec fn symbol(v: int) -> char {
    if v < 6 {
        ((50 + v) as u32) as char
    } else {
        ((91 + v) as u32) as char
    }
}

/// The thirty-two symbols by value.
pub open spec fn alphabet() -> Seq<char> {
    Seq::new(32, |v: int| symbol(v))
}

/// The text of the identifier of timestamp `t`.
pub open spec fn id_text(t: nat) -> Seq<char> {
    base32_text(alphabet(), min_be_bytes(t))
}

/// The order of identifiers: the shorter first, and among texts of one
/// length the one that comes first in dictionary order.
pub open spec fn id_less(a: Seq<char>, b: Seq<char>) -> bool {
    a.len() < b.len() || (a.len() == b.len() && lex_less(a, b))
}

/// Where `a` stands from `b` in the order of identifiers.
pub open spec fn id_cmp(a: Seq<char>, b: Seq<char>) -> core::cmp::Ordering {
    if id_less(a, b) {
        core::cmp::Ordering::Less
    } else if a == b {
        core::cmp::Ordering::Equal
    } else {
        core::cmp::Ordering::Greater
    }
}

/// Dictionary order never holds both ways, nor of a text and itself.
pub proof fn lemma_lex_asym(a: Seq<char>, b: Seq<char>)
    ensures
        !(lex_less(a, b) && lex_less(b, a)),
        !lex_less(a, a),
{
    if lex_less(a, b) && lex_less(b, a) {
        let k1 = choose|k: int|
            0 <= k < a.len() && k < b.len() && #[trigger] a.subrange(0, k) == b.subrange(0, k)
                && a[k] < b[k];
        let k2 = choose|k: int|
            0 <= k < b.len() && k < a.len() && #[trigger] b.subrange(0, k) == a.subrange(0, k)
                && b[k] < a[k];
        if k1 < k2 {
            assert(b.subrange(0, k2)[k1] == a.subrange(0, k2)[k1]);
        } else if k2 < k1 {
            assert(a.subrange(0, k1)[k2] == b.subrange(0, k1)[k2]);
        }
    }
}

/// Between ASCII characters, bytes order as the characters do.
proof fn lemma_ascii_byte_order(c: char, d: char)
    requires
        c <= '\u{7f}',
        d <= '\u{7f}',
    ensures
        (c as u8) < (d as u8) ==> c < d,
        (c as u8) == (d as u8) ==> c == d,
{
    assert(c as u32 <= 127);
}

/// The string is the given alphabet, and its symbols ascend.
pub proof fn lemma_alphabet()
    ensures
        ALPHABET@ == alphabet(),
        valid_symbols(alphabet()),
        forall|i: int, j: int| 0 <= i < j < 32 ==> alphabet()[i] < alphabet()[j],
{
    reveal_strlit("234567abcdefghijklmnopqrstuvwxyz");
    assert(ALPHABET@ =~= alphabet());
}

/// The identifier of `t` has the length that base 32 gives its bytes, and
/// every symbol of it is in the alphabet.
pub proof fn lemma_id_text_shape(t: nat)
    ensures
        id_text(t).len() == encoded_len(min_be_bytes(t).len()),
        forall|i: int| 0 <= i < id_text(t).len() ==> alphabet().contains(#[trigger] id_text(t)[i]),
{
    let b = min_be_bytes(t);
    let d = digits(padded_value(b), encoded_len(b.len()));
    lemma_digits_shape(padded_value(b), encoded_len(b.len()));
    assert forall|i: int| 0 <= i < id_text(t).len() implies alphabet().contains(
        #[trigger] id_text(t)[i],
    ) by {
        assert(alphabet()[d[i] as int] == id_text(t)[i]);
    }
}

/// A sortable identifier made from a unix timestamp.
///
/// Identifiers order by length first, then lexicographically; the derived
/// order compares `len` before `text`, which is that order.
#[derive(Debug, Eq, Ord)]
#[non_exhaustive]
pub struct Id {
    len: usize,
    text: String,
}

impl View for Id {
    type V = Seq<char>;

    closed spec fn view(&self) -> Seq<char> {
        self.text@
    }
}

impl Id {
    #[verifier::type_invariant]
    spec fn well_formed(self) -> bool {
        &&& self.len == self.text@.len()
        &&& forall|i: int| 0 <= i < self.text@.len() ==> alphabet().contains(#[trigger] self.text@[i])
    }

    /// Compares by the order of identifiers: length first, then dictionary
    /// order.
    pub fn cmp(&self, other: &Id) -> (r: core::cmp::Ordering)
        ensures
            r == id_cmp(self@, other@),
    {
        proof {
            use_type_invariant(self);
            use_type_invariant(other);
            lemma_lex_asym(self@, other@);
        }
        if self.len < other.len {
            return core::cmp::Ordering::Less;
        }
        if self.len > other.len {
            return core::cmp::Ordering::Greater;
        }
        let sa = self.text.as_str();
        let sb = other.text.as_str();
        let a = sa.as_bytes();
        let b = sb.as_bytes();
        proof {
            broadcast use vstd::string::is_ascii_spec_bytes;

            assert(is_ascii(sa));
            assert(is_ascii(sb));
        }
        let mut i: usize = 0;
        while i < self.len
            invariant
                self.len == other.len == self@.len() == other@.len() == a@.len() == b@.len(),
                i <= self.len,
                forall|j: int| 0 <= j < a@.len() ==> a@[j] == self@[j] as u8,
                forall|j: int| 0 <= j < b@.len() ==> b@[j] == other@[j] as u8,
                forall|j: int| 0 <= j < self@.len() ==> self@[j] <= '\u{7f}',
                forall|j: int| 0 <= j < other@.len() ==> other@[j] <= '\u{7f}',
                self@.subrange(0, i as int) == other@.subrange(0, i as int),
            decreases self.len - i,
        {
            if a[i] != b[i] {
                if a[i] < b[i] {
                    proof {
                        lemma_ascii_byte_order(self@[i as int], other@[i as int]);
                    }
                    assert(lex_less(self@, other@));
                    return core::cmp::Ordering::Less;
                } else {
                    proof {
                        lemma_ascii_byte_order(other@[i as int], self@[i as int]);
                    }
                    assert(lex_less(other@, self@));
                    proof {
                        lemma_lex_asym(self@, other@);
                    }
                    assert(!id_less(self@, other@));
                    assert(self@ != other@);
                    return core::cmp::Ordering::Greater;
                }
            }
            proof {
                lemma_ascii_byte_order(self@[i as int], other@[i as int]);
            }
            assert(self@.subrange(0, i + 1) =~= self@.subrange(0, i as int).push(self@[i as int]));
            assert(other@.subrange(0, i + 1) =~= other@.subrange(0, i as int).push(
                other@[i as int],
            ));
            i = i + 1;
        }
        assert(self@ =~= self@.subrange(0, i as int));
        assert(other@ =~= other@.subrange(0, i as int));
        core::cmp::Ordering::Equal
    }

    /// The text of the identifier.
    pub fn to_string(&self) -> (r: String)
        ensures
            r@ == self@,
    {
        self.text.clone()
    }
}

impl core::ops::Deref for Id {
    type Target = String;

    fn deref(&self) -> (r: &String)
        ensures
            r@ == self@,
    {
        &self.text
    }
}

impl Clone for Id {
    fn clone(&self) -> (r: Id)
        ensures
            r@ == self@,
    {
        proof {
            use_type_invariant(self);
        }
        Id { len: self.len, text: self.text.clone() }
    }
}

impl PartialEq for Id {
    fn eq(&self, other: &Id) -> (r: bool) {
        self.text == other.text
    }
}

impl vstd::std_specs::cmp::PartialEqSpecImpl for Id {
    open spec fn obeys_eq_spec() -> bool {
        true
    }

    open spec fn eq_spec(&self, other: &Id) -> bool {
        self@ == other@
    }
}

impl PartialOrd for Id {
    fn partial_cmp(&self, other: &Id) -> (r: Option<core::cmp::Ordering>) {
        Some(self.cmp(other))
    }
}

impl vstd::std_specs::cmp::PartialOrdSpecImpl for Id {
    open spec fn obeys_partial_cmp_spec() -> bool {
        true
    }

    open spec fn partial_cmp_spec(&self, other: &Id) -> Option<core::cmp::Ordering> {
        Some(id_cmp(self@, other@))
    }
}

/// Generates the identifier of a unix timestamp.
pub fn lexicoid(timestamp: u64) -> (r: Id)
    ensures
        r@ == id_text(timestamp as nat),
        forall|i: int| 0 <= i < r@.len() ==> alphabet().contains(#[trigger] r@[i]),
{
    let bytes = be_bytes_minimal(timestamp);
    proof {
        lemma_alphabet();
    }
    let text = base32_encode(ALPHABET, bytes.as_slice());
    let len: usize = (8 * bytes.len() + 4) / 5;
    proof {
        lemma_id_text_shape(timestamp as nat);
    }
    Id { len, text }
}

} // verus!
