//! The Fiat-Shamir channel: a digest that field elements are drawn from.

use crate::bytes;
use crate::constraint_system;
use crate::hash;
use vstd::prelude::*;

verus! {

/// The channel's digest after a draw.
pub open spec fn next_digest(digest: Seq<u8>) -> Seq<u8> {
    hash::sha256_digest(digest)
}

/// The string that a draw takes field elements from.
pub open spec fn drawn_digest(digest: Seq<u8>) -> Seq<u8> {
    hash::sha256_digest(digest.push(0u8))
}

/// A chunk of four bytes of a drawn string.
pub open spec fn chunk_at(drawn: Seq<u8>, i: int) -> Seq<u8> {
    drawn.subrange(4 * i, 4 * i + 4)
}

/// The first chunks of a drawn string.
pub open spec fn chunks(drawn: Seq<u8>, n: nat) -> Seq<Seq<u8>> {
    Seq::new(n, |i: int| chunk_at(drawn, i))
}

/// The field elements that the first chunks of a drawn string stand for.
pub open spec fn chunk_values(drawn: Seq<u8>, n: nat) -> Seq<int> {
    Seq::new(n, |i: int| constraint_system::chunk_m31(chunk_at(drawn, i)))
}

/// The field elements that a channel with this digest draws, eight at a time.
pub open spec fn drawn_values(digest: Seq<u8>, n: nat) -> Seq<int>
    decreases n,
{
    if n <= 8 {
        chunk_values(drawn_digest(digest), n)
    } else {
        chunk_values(drawn_digest(digest), 8) + drawn_values(
            next_digest(digest),
            (n - 8) as nat,
        )
    }
}

/// The digest of a channel that has drawn so many field elements.
pub open spec fn digest_after(digest: Seq<u8>, n: nat) -> Seq<u8>
    decreases n,
{
    if n == 0 {
        digest
    } else if n <= 8 {
        next_digest(digest)
    } else {
        digest_after(next_digest(digest), (n - 8) as nat)
    }
}

/// What a prover hands over with a draw: the chunks that stand for the field elements, and the
/// rest of the drawn string.
pub struct DrawHints(pub Vec<Vec<u8>>, pub Vec<u8>);

/// The field element that a chunk of at most four bytes stands for: its low 31 bits.
pub fn chunk_to_m31(chunk: &[u8]) -> (r: u32)
    requires
        chunk@.len() <= 4,
    ensures
        r == constraint_system::chunk_m31(chunk@),
        r == bytes::le_number(chunk@) % 0x8000_0000,
        r <= 0x7fff_ffff,
{
    let mut padded: Vec<u8> = Vec::new();
    padded.extend_from_slice(chunk);
    while padded.len() < 4
        invariant
            chunk@.len() <= padded.len() <= 4,
            padded@ == chunk@ + Seq::new((padded.len() - chunk@.len()) as nat, |i: int| 0u8),
        decreases 4 - padded.len(),
    {
        padded.push(0);
        assert(padded@ =~= chunk@ + Seq::new(
            (padded.len() - chunk@.len()) as nat,
            |i: int| 0u8,
        ));
    }
    let value: u32 = padded[0] as u32 + 0x100 * (padded[1] as u32) + 0x1_0000 * (padded[2] as u32)
        + 0x100_0000 * (padded[3] as u32);
    proof {
        bytes::lemma_le_number_of_four(padded@);
        bytes::lemma_le_number_of_padded(chunk@, (4 - chunk@.len()) as nat);
        assert(value & 0x7fff_ffff == value % 0x8000_0000) by (bit_vector);
        assert(value & 0x7fff_ffff <= 0x7fff_ffff) by (bit_vector);
    }
    value & 0x7fff_ffff
}

/// A channel over plain values.
#[derive(Clone, Debug)]
pub struct Sha256Channel {
    pub digest: Vec<u8>,
}

impl Sha256Channel {
    /// A channel with a given digest.
    pub fn new(digest: Vec<u8>) -> (r: Sha256Channel)
        ensures
            r.digest@ == digest@,
    {
        Sha256Channel { digest }
    }

    /// Draws at most eight field elements, with the hints that unpack them.
    pub fn draw_m31_and_hints(&mut self, n: usize) -> (r: (Vec<u32>, DrawHints))
        requires
            n <= 8,
        ensures
            final(self).digest@ == next_digest(old(self).digest@),
            r.0@.map_values(|v: u32| v as int) == chunk_values(
                drawn_digest(old(self).digest@),
                n as nat,
            ),
            bytes::strings(r.1.0@) == chunks(drawn_digest(old(self).digest@), n as nat),
            r.1.1@ == drawn_digest(old(self).digest@).skip(4 * n),
            final(self).digest@ == hash::sha256_digest(old(self).digest@),
            r.0.len() == n,
            r.1.0.len() == n,
            r.1.1@ == hash::sha256_digest(old(self).digest@.push(0u8)).skip(4 * n),
            forall|i: int|
                0 <= i < n ==> (#[trigger] r.1.0[i])@ == hash::sha256_digest(
                    old(self).digest@.push(0u8),
                ).subrange(4 * i, 4 * i + 4),
            forall|i: int|
                0 <= i < n ==> #[trigger] r.0[i] == bytes::le_number(r.1.0[i]@) % 0x8000_0000,
    {
        let mut message: Vec<u8> = self.digest.clone();
        message.push(0);
        let drawn: Vec<u8> = hash::sha256(message.as_slice());
        self.digest = hash::sha256(self.digest.as_slice());

        let mut elements: Vec<u32> = Vec::new();
        let mut list: Vec<Vec<u8>> = Vec::new();
        let mut i: usize = 0;
        while i < n
            invariant
                i <= n,
                n <= 8,
                drawn.len() == 32,
                elements.len() == i,
                list.len() == i,
                forall|j: int|
                    0 <= j < i ==> #[trigger] elements[j] == constraint_system::chunk_m31(
                        chunk_at(drawn@, j),
                    ),
                forall|j: int| 0 <= j < i ==> (#[trigger] list[j])@ == chunk_at(drawn@, j),
            decreases n - i,
        {
            let mut chunk: Vec<u8> = Vec::new();
            chunk.push(drawn[4 * i]);
            chunk.push(drawn[4 * i + 1]);
            chunk.push(drawn[4 * i + 2]);
            chunk.push(drawn[4 * i + 3]);
            assert(chunk@ =~= chunk_at(drawn@, i as int));
            elements.push(chunk_to_m31(chunk.as_slice()));
            list.push(chunk);
            i += 1;
        }
        let mut rest: Vec<u8> = Vec::new();
        let mut k: usize = 4 * n;
        while k < drawn.len()
            invariant
                n <= 8,
                drawn.len() == 32,
                4 * n <= k <= 32,
                rest@ == drawn@.subrange(4 * n, k as int),
            decreases drawn.len() - k,
        {
            rest.push(drawn[k]);
            k += 1;
            assert(rest@ =~= drawn@.subrange(4 * n, k as int));
        }
        assert(elements@.map_values(|v: u32| v as int) =~= chunk_values(drawn@, n as nat));
        assert(bytes::strings(list@) =~= chunks(drawn@, n as nat));
        assert(rest@ =~= drawn@.skip(4 * n));
        (elements, DrawHints(list, rest))
    }
}

/// The chunks of a drawn string and what follows them are the drawn string again.
pub proof fn chunks_and_rest_are_the_drawn_string(drawn: Seq<u8>, n: nat)
    requires
        4 * n <= drawn.len(),
    ensures
        concatenation(chunks(drawn, n)) + drawn.skip(4 * n as int) == drawn,
    decreases n,
{
    if n > 0 {
        let m = (n - 1) as nat;
        chunks_and_rest_are_the_drawn_string(drawn, m);
        assert(chunks(drawn, n).drop_last() =~= chunks(drawn, m));
        assert(concatenation(chunks(drawn, n)) + drawn.skip(4 * n as int) =~= concatenation(
            chunks(drawn, m),
        ) + (chunk_at(drawn, m as int) + drawn.skip(4 * n as int)));
        assert(chunk_at(drawn, m as int) + drawn.skip(4 * n as int) =~= drawn.skip(
            4 * m as int,
        ));
    } else {
        assert(concatenation(chunks(drawn, 0)) + drawn.skip(0) =~= drawn);
    }
}

/// Strings, one after the other.
pub open spec fn concatenation(list: Seq<Seq<u8>>) -> Seq<u8>
    decreases list.len(),
{
    if list.len() == 0 {
        Seq::empty()
    } else {
        concatenation(list.drop_last()) + list.last()
    }
}

/// A digest, hashed so many times.
pub open spec fn hashed_times(digest: Seq<u8>, n: nat) -> Seq<u8>
    decreases n,
{
    if n == 0 {
        digest
    } else {
        hash::sha256_digest(hashed_times(digest, (n - 1) as nat))
    }
}

/// Hashing once before hashing so many times is hashing once more.
proof fn lemma_hashed_first(digest: Seq<u8>, n: nat)
    ensures
        hashed_times(hash::sha256_digest(digest), n) == hashed_times(digest, n + 1),
    decreases n,
{
    if n > 0 {
        lemma_hashed_first(digest, (n - 1) as nat);
    } else {
        assert(hashed_times(digest, 0) == digest);
    }
}

/// The element at a place of a draw: eight elements come from each digest, each from four bytes of
/// the hash of the digest with a zero byte behind it, as the low 31 bits of the number that the
/// four bytes spell; the digest is hashed after every eight.
pub proof fn drawn_element_comes_from_its_chunk(digest: Seq<u8>, n: nat, i: int)
    requires
        0 <= i < n,
    ensures
        drawn_values(digest, n).len() == n,
        drawn_values(digest, n)[i] == bytes::le_number(
            hash::sha256_digest(hashed_times(digest, (i / 8) as nat).push(0u8)).subrange(
                4 * (i % 8),
                4 * (i % 8) + 4,
            ),
        ) as int % 0x8000_0000,
    decreases n,
{
    let first = chunk_values(drawn_digest(digest), 8);
    if n > 8 {
        let next = next_digest(digest);
        let m = (n - 8) as nat;
        if i >= 8 {
            drawn_element_comes_from_its_chunk(next, m, i - 8);
            lemma_hashed_first(digest, ((i - 8) / 8) as nat);
            assert(((i - 8) / 8) + 1 == i / 8);
            assert((i - 8) % 8 == i % 8);
        } else {
            drawn_element_comes_from_its_chunk(next, m, 0);
            assert(hashed_times(digest, 0) == digest);
        }
    } else {
        assert(hashed_times(digest, 0) == digest);
    }
}

/// The digest after a draw is the digest, hashed once for every eight elements begun.
pub proof fn digest_is_hashed_for_every_eight(digest: Seq<u8>, n: nat)
    ensures
        digest_after(digest, n) == hashed_times(digest, (n + 7) / 8),
    decreases n,
{
    if n > 8 {
        digest_is_hashed_for_every_eight(next_digest(digest), (n - 8) as nat);
        lemma_hashed_first(digest, ((n - 8 + 7) / 8) as nat);
        assert((n - 8 + 7) / 8 + 1 == (n + 7) / 8);
    } else if n > 0 {
        assert((n + 7) / 8 == 1);
        assert(hashed_times(digest, 0) == digest);
        assert(hashed_times(digest, 1) == hash::sha256_digest(digest));
    }
}

/// A list of one string is the string, and lists are concatenated in order.
pub proof fn strings_are_concatenated_in_order(
    first: Seq<Seq<u8>>,
    second: Seq<Seq<u8>>,
    s: Seq<u8>,
)
    ensures
        concatenation(seq![s]) == s,
        concatenation(first + second) == concatenation(first) + concatenation(second),
    decreases second.len(),
{
    assert(seq![s].drop_last() =~= Seq::<Seq<u8>>::empty());
    assert(concatenation(Seq::<Seq<u8>>::empty()) =~= Seq::<u8>::empty());
    assert(concatenation(seq![s]) =~= s);
    if second.len() == 0 {
        assert(first + second =~= first);
        assert(concatenation(first) + concatenation(second) =~= concatenation(first));
    } else {
        strings_are_concatenated_in_order(first, second.drop_last(), s);
        assert((first + second).drop_last() =~= first + second.drop_last());
        assert(concatenation(first + second) =~= concatenation(first) + concatenation(second));
    }
}

} // verus!
