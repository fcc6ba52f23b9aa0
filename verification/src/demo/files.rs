//! The files that hold the demo's transactions, by their names.

use crate::text;
use vstd::prelude::*;
use vstd::string::*;

verus! {

/// A text starts with another.
pub open spec fn starts_with(s: Seq<char>, prefix: Seq<char>) -> bool {
    s.len() >= prefix.len() && s.take(prefix.len() as int) == prefix
}

/// A text ends with another.
pub open spec fn ends_with(s: Seq<char>, suffix: Seq<char>) -> bool {
    s.len() >= suffix.len() && s.skip(s.len() - suffix.len()) == suffix
}

/// The name of a file that holds a transaction.
pub open spec fn is_tx_name(s: Seq<char>) -> bool {
    starts_with(s, "tx-"@) && ends_with(s, ".txt"@)
}

/// What stands between the two ends of such a name.
pub open spec fn number_part(s: Seq<char>) -> Seq<char> {
    s.subrange(3, s.len() - 4)
}

/// The two ends of a name do not overlap.
proof fn lemma_tx_name_len(s: Seq<char>)
    requires
        is_tx_name(s),
    ensures
        s.len() >= 7,
{
    reveal_strlit("tx-");
    reveal_strlit(".txt");
    let n = s.len() as int;
    assert(s[0] == s.take(3)[0] && s[1] == s.take(3)[1] && s[2] == s.take(3)[2]);
    assert(s[n - 4] == s.skip(n - 4)[0]);
}

/// Whether the characters of a text from a place on are those of another.
fn has_at(s: &str, start: usize, part: &str) -> (r: bool)
    requires
        start + part@.len() <= s@.len(),
    ensures
        r == (s@.subrange(start as int, start + part@.len()) == part@),
{
    let len: usize = part.unicode_len();
    let s_len: usize = s.unicode_len();
    let mut i: usize = 0;
    while i < len
        invariant
            i <= len,
            len == part@.len(),
            s_len == s@.len(),
            start + len <= s_len,
            forall|j: int| 0 <= j < i ==> s@[start + j] == #[trigger] part@[j],
        decreases len - i,
    {
        if s.get_char(start + i) != part.get_char(i) {
            assert(s@.subrange(start as int, start + len)[i as int] != part@[i as int]);
            return false;
        }
        i += 1;
    }
    assert(s@.subrange(start as int, start + len) =~= part@);
    true
}

/// Whether a file holds a transaction, by its name.
pub fn is_tx_file(name: &str) -> (r: bool)
    ensures
        r == is_tx_name(name@),
{
    let len: usize = name.unicode_len();
    proof {
        reveal_strlit("tx-");
        reveal_strlit(".txt");
    }
    if len < 4 {
        return false;
    }
    assert(name@.take(3) =~= name@.subrange(0, 3));
    assert(name@.skip(len - 4) =~= name@.subrange(len - 4, len as int));
    has_at(name, 0, "tx-") && has_at(name, len - 4, ".txt")
}

/// The number in the name of a transaction's file.
pub fn tx_number(name: &str) -> (r: Option<u32>)
    requires
        is_tx_name(name@),
    ensures
        (match r {
            None => None,
            Some(n) => Some(n as nat),
        }) == text::parsed_u32(number_part(name@)),
{
    proof {
        lemma_tx_name_len(name@);
    }
    let len: usize = name.unicode_len();
    text::parse_u32(name.substring_char(3, len - 4))
}

/// The name of the file that holds a transaction.
pub open spec fn tx_name(number: nat) -> Seq<char> {
    "tx-"@ + text::decimal(number) + ".txt"@
}

/// The name of the file that holds a transaction.
pub fn tx_file_name(number: u64) -> (r: String)
    ensures
        r@ == tx_name(number as nat),
{
    let mut r = String::from_str("tx-");
    r.append(text::decimal_text(number).as_str());
    r.append(".txt");
    r
}

/// A name that was written for a transaction is recognized, and its number is read back.
pub proof fn written_name_is_recognized(number: u32)
    ensures
        is_tx_name(tx_name(number as nat)),
        text::parsed_u32(number_part(tx_name(number as nat))) == Some(number as nat),
{
    reveal_strlit("tx-");
    reveal_strlit(".txt");
    let name = tx_name(number as nat);
    assert(name.take(3) =~= "tx-"@);
    assert(name.skip(name.len() - 4) =~= ".txt"@);
    assert(number_part(name) =~= text::decimal(number as nat));
    text::written_number_is_read_back(number);
}

/// The number by which a name is ordered: a name without a readable number has zero.
pub open spec fn order_number(s: Seq<char>) -> nat {
    match text::parsed_u32(number_part(s)) {
        Some(n) => n,
        None => 0,
    }
}

/// A name holds a transaction's number that cannot be read.
pub open spec fn is_unreadable(s: Seq<char>) -> bool {
    is_tx_name(s) && text::parsed_u32(number_part(s)) is None
}

/// The places of the transactions' files, ordered by number and then by place.
pub open spec fn is_tx_order(order: Seq<usize>, names: Seq<String>) -> bool {
    &&& forall|i: int|
        0 <= i < order.len() ==> (#[trigger] order[i]) < names.len() && is_tx_name(
            names[order[i] as int]@,
        )
    &&& forall|k: int|
        0 <= k < names.len() && is_tx_name((#[trigger] names[k])@) ==> order.contains(k as usize)
    &&& forall|i: int, j: int|
        0 <= i < j < order.len() ==> order_number(names[#[trigger] order[i] as int]@)
            < order_number(names[#[trigger] order[j] as int]@) || (order_number(
            names[order[i] as int]@,
        ) == order_number(names[order[j] as int]@) && order[i] < order[j])
}

/// The places of the transactions' files among the first names, with their numbers, in order.
pub open spec fn is_order_of_first(
    order: Seq<usize>,
    numbers: Seq<u32>,
    names: Seq<String>,
    k: int,
) -> bool {
    &&& order.len() == numbers.len()
    &&& forall|i: int|
        0 <= i < order.len() ==> (#[trigger] order[i]) < k && is_tx_name(names[order[i] as int]@)
            && numbers[i] == order_number(names[order[i] as int]@)
    &&& forall|i: int|
        0 <= i < k && is_tx_name((#[trigger] names[i])@) ==> order.contains(i as usize)
    &&& forall|i: int, j: int|
        #![trigger order[i], order[j]]
        #![trigger numbers[i], numbers[j]]
        0 <= i < j < order.len() ==> numbers[i] < numbers[j] || (numbers[i] == numbers[j]
            && order[i] < order[j])
}

/// The next file goes behind the files of no larger number.
proof fn lemma_place_next(
    order: Seq<usize>,
    numbers: Seq<u32>,
    names: Seq<String>,
    k: usize,
    p: int,
    number: u32,
)
    requires
        is_order_of_first(order, numbers, names, k as int),
        k < names.len(),
        is_tx_name(names[k as int]@),
        number == order_number(names[k as int]@),
        0 <= p <= order.len(),
        forall|i: int| 0 <= i < p ==> #[trigger] numbers[i] <= number,
        p < order.len() ==> numbers[p] > number,
    ensures
        is_order_of_first(order.insert(p, k), numbers.insert(p, number), names, k + 1),
{
    let after = order.insert(p, k);
    let after_numbers = numbers.insert(p, number);
    assert forall|i: int| 0 <= i < p implies #[trigger] after[i] == order[i] && after_numbers[i]
        == numbers[i] by {}
    assert forall|i: int| p < i < after.len() implies #[trigger] after[i] == order[i - 1]
        && after_numbers[i] == numbers[i - 1] by {}
    assert(after[p] == k && after_numbers[p] == number);
    assert forall|i: int| 0 <= i < after.len() implies (#[trigger] after[i]) < k + 1 && is_tx_name(
        names[after[i] as int]@,
    ) && after_numbers[i] == order_number(names[after[i] as int]@) by {
        if i < p {
            assert(order[i] < k);
        } else if i > p {
            assert(order[i - 1] < k);
        }
    }
    assert forall|i: int| 0 <= i < k + 1 && is_tx_name((#[trigger] names[i])@) implies after.contains(
        i as usize,
    ) by {
        if i < k {
            let q = choose|q: int| 0 <= q < order.len() && order[q] == i as usize;
            if q < p {
                assert(after[q] == i as usize);
            } else {
                assert(after[q + 1] == i as usize);
            }
        } else {
            assert(after[p] == i as usize);
        }
    }
    assert forall|i: int, j: int|
        #![trigger after[i], after[j]]
        #![trigger after_numbers[i], after_numbers[j]]
        0 <= i < j < after.len() implies after_numbers[i] < after_numbers[j] || (after_numbers[i]
        == after_numbers[j] && after[i] < after[j]) by {
        if j == p {
            assert(order[i] < k);
        } else if i == p {
            if j - 1 > p {
                assert(order[p] < k && order[j - 1] < k);
            }
        } else {
            let x = if i < p {
                i
            } else {
                i - 1
            };
            let y = if j < p {
                j
            } else {
                j - 1
            };
            assert(after[i] == order[x] && after[j] == order[y]);
        }
    }
}

/// Picks the transactions' files out of a directory's names and orders them by their numbers.
///
/// A number that cannot be read is an error as soon as there are two files to compare.
pub fn order_tx_files(names: &Vec<String>) -> (r: Option<Vec<usize>>)
    ensures
        r is None == (exists|i: int, j: int|
            0 <= i < names.len() && 0 <= j < names.len() && i != j && is_unreadable(
                (#[trigger] names[i])@,
            ) && is_tx_name((#[trigger] names[j])@)),
        r matches Some(order) ==> is_tx_order(order@, names@),
{
    let mut order: Vec<usize> = Vec::new();
    let mut numbers: Vec<u32> = Vec::new();
    let mut unreadable: bool = false;
    let ghost mut bad: int = 0;
    let mut k: usize = 0;
    while k < names.len()
        invariant
            k <= names.len(),
            is_order_of_first(order@, numbers@, names@, k as int),
            unreadable ==> 0 <= bad < k && is_unreadable(names[bad]@),
            !unreadable ==> forall|i: int| 0 <= i < k ==> !is_unreadable((#[trigger] names[i])@),
        decreases names.len() - k,
    {
        if is_tx_file(names[k].as_str()) {
            let number: u32 = match tx_number(names[k].as_str()) {
                Some(n) => n,
                None => {
                    unreadable = true;
                    proof {
                        bad = k as int;
                    }
                    0
                },
            };
            let mut p: usize = 0;
            while p < numbers.len() && numbers[p] <= number
                invariant
                    p <= numbers.len(),
                    forall|i: int| 0 <= i < p ==> #[trigger] numbers[i] <= number,
                decreases numbers.len() - p,
            {
                p += 1;
            }
            proof {
                lemma_place_next(order@, numbers@, names@, k, p as int, number);
            }
            order.insert(p, k);
            numbers.insert(p, number);
        }
        k += 1;
    }
    if unreadable && order.len() >= 2 {
        proof {
            let a = order@[0] as int;
            let b = order@[1] as int;
            assert(a != b);
            let other = if a == bad {
                b
            } else {
                a
            };
            assert(is_unreadable(names[bad]@) && is_tx_name(names[other]@));
        }
        return None;
    }
    proof {
        if exists|i: int, j: int|
            0 <= i < names.len() && 0 <= j < names.len() && i != j && is_unreadable(
                (#[trigger] names[i])@,
            ) && is_tx_name((#[trigger] names[j])@) {
            let (i, j) = choose|i: int, j: int|
                0 <= i < names.len() && 0 <= j < names.len() && i != j && is_unreadable(
                    (#[trigger] names[i])@,
                ) && is_tx_name((#[trigger] names[j])@);
            assert(unreadable);
            assert(order@.contains(i as usize) && order@.contains(j as usize));
        }
    }
    Some(order)
}

/// The names of transactions' files are exactly the texts between the two ends, and what stands
/// between them is the number part.
pub proof fn names_are_what_stands_between(middle: Seq<char>, s: Seq<char>)
    ensures
        is_tx_name("tx-"@ + middle + ".txt"@),
        number_part("tx-"@ + middle + ".txt"@) == middle,
        is_tx_name(s) ==> s == "tx-"@ + number_part(s) + ".txt"@,
{
    reveal_strlit("tx-");
    reveal_strlit(".txt");
    let name = "tx-"@ + middle + ".txt"@;
    assert(name.take(3) =~= "tx-"@);
    assert(name.skip(name.len() - 4) =~= ".txt"@);
    assert(number_part(name) =~= middle);
    if is_tx_name(s) {
        lemma_tx_name_len(s);
        let n = s.len() as int;
        assert(s.take(3) == "tx-"@);
        assert(s.skip(n - 4) == ".txt"@);
        assert(s =~= s.take(3) + number_part(s) + s.skip(n - 4));
    }
}

/// The name of a transaction's file spells its number between the two ends.
pub proof fn name_spells_the_number(number: nat)
    ensures
        text::spells(number_part(tx_name(number)), number),
        tx_name(number) == "tx-"@ + number_part(tx_name(number)) + ".txt"@,
{
    names_are_what_stands_between(text::decimal(number), tx_name(number));
    text::decimal_spells_the_number(number);
}

/// Files come in the order of the numbers in their names, files of one number in the order in which
/// they were listed.
pub proof fn files_are_in_the_order_of_their_numbers(
    order: Seq<usize>,
    names: Seq<String>,
    i: int,
    j: int,
    a: nat,
    b: nat,
)
    requires
        is_tx_order(order, names),
        0 <= i < j < order.len(),
        text::parsed_u32(number_part(names[order[i] as int]@)) == Some(a),
        text::parsed_u32(number_part(names[order[j] as int]@)) == Some(b),
    ensures
        a <= b,
        a == b ==> order[i] < order[j],
{
    assert(order_number(names[order[i] as int]@) == a);
    assert(order_number(names[order[j] as int]@) == b);
}

/// The files in order are exactly those with the name of a transaction's file, each once.
pub proof fn every_tx_file_comes_once(order: Seq<usize>, names: Seq<String>, k: usize)
    requires
        is_tx_order(order, names),
        k < names.len(),
    ensures
        order.contains(k) == (starts_with(names[k as int]@, "tx-"@) && ends_with(
            names[k as int]@,
            ".txt"@,
        )),
        forall|i: int, j: int|
            0 <= i < order.len() && 0 <= j < order.len() && #[trigger] order[i]
                == #[trigger] order[j] ==> i == j,
{
    if order.contains(k) {
        let i = choose|i: int| 0 <= i < order.len() && order[i] == k;
        assert(is_tx_name(names[order[i] as int]@));
    }
    if is_tx_name(names[k as int]@) {
        assert(order.contains(k as int as usize));
    }
}

/// A text starts and ends with its parts.
pub proof fn parts_are_start_and_end(a: Seq<char>, b: Seq<char>)
    ensures
        starts_with(a + b, a),
        ends_with(a + b, b),
        starts_with(b, a) ==> b == a + b.skip(a.len() as int),
        ends_with(b, a) ==> b == b.take(b.len() - a.len()) + a,
{
    assert((a + b).take(a.len() as int) =~= a);
    assert((a + b).skip((a + b).len() - b.len()) =~= b);
    if starts_with(b, a) {
        assert(b =~= b.take(a.len() as int) + b.skip(a.len() as int));
    }
    if ends_with(b, a) {
        assert(b =~= b.take(b.len() - a.len()) + b.skip(b.len() - a.len()));
    }
}

/// A file's number is unreadable where it is the name of a transaction's file and nothing is read
/// between the two ends.
pub proof fn unreadable_names(middle: Seq<char>)
    ensures
        is_unreadable("tx-"@ + middle + ".txt"@) == (text::parsed_u32(middle) is None),
{
    names_are_what_stands_between(middle, middle);
}

} // verus!
