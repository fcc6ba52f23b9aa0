//! Numbers as little-endian bytes.

use vstd::prelude::*;

verus! {

/// The shortest little-endian spelling of a number. Zero is the empty string.
pub open spec fn le_bytes(n: nat) -> Seq<u8>
    decreases n,
{
    if n == 0 {
        Seq::empty()
    } else {
        seq![(n % 256) as u8] + le_bytes(n / 256)
    }
}

/// The number that a little-endian string spells.
pub open spec fn le_number(bytes: Seq<u8>) -> nat
    decreases bytes.len(),
{
    if bytes.len() == 0 {
        0
    } else {
        bytes[0] as nat + 256 * le_number(bytes.skip(1))
    }
}

/// A little-endian string without a trailing zero.
pub open spec fn is_minimal(bytes: Seq<u8>) -> bool {
    bytes.len() > 0 ==> bytes.last() != 0
}

/// Reading back a spelled number gives the number.
pub proof fn le_number_undoes_le_bytes(n: nat)
    ensures
        le_number(le_bytes(n)) == n,
    decreases n,
{
    if n > 0 {
        le_number_undoes_le_bytes(n / 256);
        assert(le_bytes(n).skip(1) =~= le_bytes(n / 256));
    }
}

/// A spelled number has no trailing zero.
pub proof fn le_bytes_is_minimal(n: nat)
    ensures
        is_minimal(le_bytes(n)),
        n > 0 ==> le_bytes(n).len() > 0,
    decreases n,
{
    if n > 0 {
        le_bytes_is_minimal(n / 256);
        if n / 256 == 0 {
            assert(le_bytes(n) =~= seq![(n % 256) as u8]);
        } else {
            assert(le_bytes(n).last() == le_bytes(n / 256).last());
        }
    }
}

/// A string without a trailing zero is the spelling of the number that it spells.
pub proof fn le_bytes_undoes_le_number(bytes: Seq<u8>)
    requires
        is_minimal(bytes),
    ensures
        le_bytes(le_number(bytes)) == bytes,
        bytes.len() > 0 ==> le_number(bytes) > 0,
    decreases bytes.len(),
{
    if bytes.len() > 0 {
        let rest = bytes.skip(1);
        if rest.len() > 0 {
            assert(rest.last() == bytes.last());
        }
        le_bytes_undoes_le_number(rest);
        let n = le_number(bytes);
        assert(n % 256 == bytes[0] as nat);
        assert(n / 256 == le_number(rest));
        assert(bytes =~= seq![bytes[0]] + rest);
    }
}

/// The number that four bytes spell.
pub proof fn lemma_le_number_of_four(bytes: Seq<u8>)
    requires
        bytes.len() == 4,
    ensures
        le_number(bytes) == bytes[0] + 256 * bytes[1] + 65536 * bytes[2] + 16777216 * bytes[3],
{
    reveal_with_fuel(le_number, 5);
    assert(bytes.skip(1).skip(1) =~= bytes.skip(2));
    assert(bytes.skip(2).skip(1) =~= bytes.skip(3));
    assert(bytes.skip(3).skip(1) =~= Seq::<u8>::empty());
}

/// Trailing zeros do not change the number.
pub proof fn lemma_le_number_of_padded(bytes: Seq<u8>, zeros: nat)
    ensures
        le_number(bytes + Seq::new(zeros, |i: int| 0u8)) == le_number(bytes),
    decreases bytes.len() + zeros,
{
    let padding = Seq::new(zeros, |i: int| 0u8);
    if bytes.len() > 0 {
        lemma_le_number_of_padded(bytes.skip(1), zeros);
        assert((bytes + padding).skip(1) =~= bytes.skip(1) + padding);
    } else if zeros > 0 {
        let less = (zeros - 1) as nat;
        lemma_le_number_of_padded(bytes, less);
        assert((bytes + padding).skip(1) =~= bytes + Seq::new(less, |i: int| 0u8));
    }
}

/// The shortest little-endian spelling of a number.
pub fn minimal_le_bytes(n: u64) -> (r: Vec<u8>)
    ensures
        r@ == le_bytes(n as nat),
        le_number(r@) == n,
        is_minimal(r@),
{
    proof {
        le_bytes_is_minimal(n as nat);
        le_number_undoes_le_bytes(n as nat);
    }
    let mut r: Vec<u8> = Vec::new();
    let mut rest: u64 = n;
    while rest > 0
        invariant
            le_bytes(n as nat) == r@ + le_bytes(rest as nat),
        decreases rest,
    {
        r.push((rest % 256) as u8);
        rest = rest / 256;
        assert(le_bytes(n as nat) =~= r@ + le_bytes(rest as nat));
    }
    assert(r@ + le_bytes(0) =~= r@);
    r
}

/// A number as the 64-bit machine word that holds it in two's complement.
pub open spec fn as_word(v: int) -> nat {
    if v >= 0 {
        v as nat
    } else {
        (v + 0x1_0000_0000_0000_0000) as nat
    }
}

/// The stack element for a number: the shortest spelling of its 64-bit word.
pub fn num_to_str(v: i32) -> (r: Vec<u8>)
    ensures
        r@ == le_bytes(as_word(v as int)),
        is_minimal(r@),
        v >= 0 ==> le_number(r@) == v,
        v < 0 ==> le_number(r@) == v + 0x1_0000_0000_0000_0000,
{
    proof {
        le_bytes_is_minimal(as_word(v as int));
        le_number_undoes_le_bytes(as_word(v as int));
    }
    let word: u64 = if v >= 0 {
        v as u64
    } else {
        u64::MAX - (-(v as i64) - 1) as u64
    };
    minimal_le_bytes(word)
}

/// Distinct numbers have distinct stack elements.
pub proof fn stack_elements_of_numbers_differ(v: i32, w: i32)
    requires
        le_bytes(as_word(v as int)) == le_bytes(as_word(w as int)),
    ensures
        v == w,
{
    le_number_undoes_le_bytes(as_word(v as int));
    le_number_undoes_le_bytes(as_word(w as int));
}

/// What a list of byte strings holds.
pub open spec fn strings(list: Seq<Vec<u8>>) -> Seq<Seq<u8>> {
    list.map_values(|s: Vec<u8>| s@)
}

/// Copies a list of byte strings.
pub fn clone_strings(list: &Vec<Vec<u8>>) -> (r: Vec<Vec<u8>>)
    ensures
        strings(r@) == strings(list@),
        r.len() == list.len(),
        forall|i: int| 0 <= i < list.len() ==> (#[trigger] r[i])@ == list[i]@,
{
    let mut r: Vec<Vec<u8>> = Vec::new();
    let mut i: usize = 0;
    while i < list.len()
        invariant
            i <= list.len(),
            r.len() == i,
            forall|j: int| 0 <= j < i ==> (#[trigger] r[j])@ == list[j]@,
        decreases list.len() - i,
    {
        r.push(list[i].clone());
        i += 1;
    }
    assert(strings(r@) =~= strings(list@));
    r
}

/// A byte in front of a string weighs one, and the string behind it 256 times as much.
pub proof fn little_end_comes_first(low: u8, rest: Seq<u8>)
    ensures
        le_number(Seq::<u8>::empty()) == 0,
        le_number(seq![low] + rest) == low + 256 * le_number(rest),
{
    assert((seq![low] + rest).skip(1) =~= rest);
}

/// A list of strings holds each string whole, in order.
pub proof fn strings_are_held_whole(list: Seq<Vec<u8>>, i: int)
    requires
        0 <= i < list.len(),
    ensures
        strings(list).len() == list.len(),
        strings(list)[i] == list[i]@,
{
}

} // verus!
