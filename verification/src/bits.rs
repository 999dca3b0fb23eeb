//! Masks over the 64-bit present field.
use vstd::prelude::*;

verus! {

/// Whether bit `i` of `field` is raised.
pub open spec fn has_bit(field: u64, i: int) -> bool {
    0 <= i < 64 && (field >> (i as u64)) & 1 == 1
}

/// Whether `field` has any of the bits of `mask`.
pub open spec fn meets(field: u64, mask: u64) -> bool {
    exists|i: int| #[trigger] has_bit(field, i) && has_bit(mask, i)
}

/// Whether no bit is raised in both masks.
pub open spec fn disjoint(a: u64, b: u64) -> bool {
    forall|i: int| !(#[trigger] has_bit(a, i) && has_bit(b, i))
}

/// Whether every bit of `a` is a bit of `b`.
pub open spec fn within(a: u64, b: u64) -> bool {
    forall|i: int| #[trigger] has_bit(a, i) ==> has_bit(b, i)
}

/// Whether `mask` holds exactly the bits from `from` up to, but not including, `until`.
pub open spec fn is_span(mask: u64, from: int, until: int) -> bool {
    forall|i: int| #[trigger] has_bit(mask, i) <==> 0 <= i < 64 && from <= i < until
}

pub broadcast proof fn lemma_zero_has_no_bit(i: int)
    ensures
        !#[trigger] has_bit(0, i),
{
    if 0 <= i < 64 {
        let b = i as u64;
        assert((0u64 >> b) & 1 == 0) by (bit_vector);
    }
}

pub broadcast proof fn lemma_or_bits(a: u64, b: u64, i: int)
    ensures
        #[trigger] has_bit(a | b, i) <==> has_bit(a, i) || has_bit(b, i),
{
    let k = i as u64;
    assert(((a | b) >> k) & 1 == 1 <==> (a >> k) & 1 == 1 || (b >> k) & 1 == 1) by (bit_vector);
}

pub broadcast proof fn lemma_and_bits(a: u64, b: u64, i: int)
    ensures
        #[trigger] has_bit(a & b, i) <==> has_bit(a, i) && has_bit(b, i),
{
    let k = i as u64;
    assert(((a & b) >> k) & 1 == 1 <==> (a >> k) & 1 == 1 && (b >> k) & 1 == 1) by (bit_vector);
}

pub broadcast proof fn lemma_one_bit(index: u64, i: int)
    requires
        index < 64,
    ensures
        #[trigger] has_bit(1u64 << index, i) <==> i == index,
{
    if 0 <= i < 64 {
        let k = i as u64;
        assert(((1u64 << index) >> k) & 1 == 1 <==> k == index) by (bit_vector)
            requires
                k < 64,
                index < 64,
        ;
    }
}

/// A field that is not zero has some bit raised.
pub proof fn lemma_nonzero_has_bit(field: u64) -> (i: int)
    requires
        field != 0,
    ensures
        has_bit(field, i),
{
    if forall|j: int| !has_bit(field, j) {
        assert forall|k: u64| k < 64 implies (#[trigger] (field >> k)) & 1 == 0 by {
            assert(!has_bit(field, k as int));
            let v = field >> k;
            assert(v & 1 == 0 || v & 1 == 1) by (bit_vector);
        }
        lemma_all_clear_is_zero(field, 64);
        assert(field >> 0u64 == field) by (bit_vector);
    }
    choose|j: int| has_bit(field, j)
}

proof fn lemma_all_clear_is_zero(field: u64, n: u64)
    requires
        n <= 64,
        forall|k: u64| k < 64 ==> (#[trigger] (field >> k)) & 1 == 0,
    ensures
        field >> ((64 - n) as u64) == 0,
    decreases n,
{
    if n == 0 {
        assert(field >> 64u64 == 0) by (bit_vector);
    } else {
        lemma_all_clear_is_zero(field, (n - 1) as u64);
        let k = (64 - n) as u64;
        let k1 = (64 - n + 1) as u64;
        assert((field >> k) & 1 == 0);
        assert(field >> k == 0) by (bit_vector)
            requires
                k < 64,
                k1 == k + 1,
                field >> k1 == 0,
                (field >> k) & 1 == 0,
        ;
    }
}

/// The machine test `field & mask != 0` is the question whether they share a bit.
pub proof fn lemma_meets(field: u64, mask: u64)
    ensures
        (field & mask) != 0 <==> meets(field, mask),
{
    if field & mask != 0 {
        let i = lemma_nonzero_has_bit(field & mask);
        lemma_and_bits(field, mask, i);
        assert(has_bit(field, i) && has_bit(mask, i));
    }
    if meets(field, mask) {
        let i = choose|i: int| #[trigger] has_bit(field, i) && has_bit(mask, i);
        lemma_and_bits(field, mask, i);
        lemma_zero_has_no_bit(i);
    }
}

pub broadcast group group_bits {
    lemma_zero_has_no_bit,
    lemma_or_bits,
    lemma_and_bits,
    lemma_one_bit,
}

/// Whether `field` has any of the bits of `mask`.
pub fn any_present(field: u64, mask: u64) -> (r: bool)
    ensures
        r == meets(field, mask),
{
    proof {
        lemma_meets(field, mask);
    }
    (field & mask) != 0x0
}

/// The mask of the bits from `from` up to, but not including, `until`.
pub fn span_mask(from: usize, until: usize) -> (mask: u64)
    requires
        until <= 64,
    ensures
        is_span(mask, from as int, until as int),
{
    broadcast use group_bits;

    let mut mask: u64 = 0;
    let mut bit: usize = from;
    while bit < until
        invariant
            until <= 64,
            from <= bit,
            forall|i: int| #[trigger] has_bit(mask, i) <==> from <= i < bit && i < 64,
            from < until ==> bit <= until,
            until <= from ==> bit == from && mask == 0,
        decreases until - bit,
    {
        broadcast use group_bits;

        let ghost before = mask;
        mask = mask | (0x1u64 << bit as u64);
        proof {
            assert forall|i: int| #[trigger] has_bit(mask, i) <==> from <= i < bit + 1 && i < 64 by {
                lemma_or_bits(before, 0x1u64 << bit as u64, i);
                lemma_one_bit(bit as u64, i);
            }
        }
        bit = bit + 1;
    }
    mask
}

/// A field is told by its bits: two fields with the same bits raised are the same, and bit `i` is raised
/// exactly in a field that shares a bit with the `i`th power of two.
pub proof fn law_field_is_its_bits(a: u64, b: u64, i: u64)
    requires
        i < 64,
    ensures
        (forall|j: int| #[trigger] has_bit(a, j) == has_bit(b, j)) ==> a == b,
        has_bit(a, i as int) <==> a & (1u64 << i) != 0,
        meets(a, b) <==> a & b != 0,
        disjoint(a, b) <==> a & b == 0,
        within(a, b) <==> a & b == a,
{
    if forall|j: int| #[trigger] has_bit(a, j) == has_bit(b, j) {
        lemma_same_bits(a, b);
    }
    assert((a >> i) & 1 == 1 <==> a & (1u64 << i) != 0) by (bit_vector)
        requires
            i < 64,
    ;
    lemma_meets(a, b);
    if within(a, b) {
        assert forall|j: int| #[trigger] has_bit(a & b, j) == has_bit(a, j) by {
            lemma_and_bits(a, b, j);
        }
        lemma_same_bits(a & b, a);
    }
    if a & b == a {
        assert forall|j: int| #[trigger] has_bit(a, j) implies has_bit(b, j) by {
            lemma_and_bits(a, b, j);
        }
    }
    if disjoint(a, b) && meets(a, b) {
        let j = choose|j: int| #[trigger] has_bit(a, j) && has_bit(b, j);
        assert(!(has_bit(a, j) && has_bit(b, j)));
    }
}

proof fn lemma_same_bits(a: u64, b: u64)
    requires
        forall|j: int| #[trigger] has_bit(a, j) == has_bit(b, j),
    ensures
        a == b,
{
    if a ^ b != 0 {
        let i = lemma_nonzero_has_bit(a ^ b);
        let k = i as u64;
        assert(has_bit(a, i) == has_bit(b, i));
        let (x, y) = (a >> k, b >> k);
        assert(((a ^ b) >> k) & 1 == 1 ==> ((a >> k) & 1 == 1) != ((b >> k) & 1 == 1))
            by (bit_vector);
    }
    assert(a ^ b == 0 ==> a == b) by (bit_vector);
}

} // verus!
