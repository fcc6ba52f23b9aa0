//! How often each opcode occurs in the scripts of a transaction.

use super::files;
use crate::bytes;
use crate::text;
use vstd::prelude::*;
use vstd::string::*;

verus! {

/// An instruction of a script, as far as it is counted.
#[derive(Clone, Copy, Debug, PartialEq, Eq, Structural)]
pub enum Instruction {
    /// An opcode.
    Op(u8),
    /// A push of so many bytes.
    PushBytes(usize),
    /// The end of what can be read.
    Invalid,
}

/// The instructions of a script, as the `bitcoin` crate reads them.
pub uninterp spec fn script_instructions(script: Seq<u8>) -> Seq<Instruction>;

/// Reads the instructions of a script: `bitcoin`'s `Script::instructions`.
///
/// The contract names the instructions, which depend on the script alone. It claims that there are
/// no more of them than bytes, and none only for the empty script; that reading ends with the first
/// error; and that, where the script's start can be read without one, the instructions are those of
/// the start and then those of the rest.
#[verifier::external_body]
fn read_instructions(script: &[u8]) -> (r: Vec<Instruction>)
    ensures
        r@ == script_instructions(script@),
        r@.len() <= script@.len(),
        (r@.len() == 0) == (script@.len() == 0),
        forall|i: int|
            0 <= i < r@.len() && #[trigger] r@[i] == Instruction::Invalid ==> i == r@.len() - 1,
        forall|k: int|
            0 <= k <= script@.len() && !(#[trigger] script_instructions(
                script@.take(k),
            )).contains(Instruction::Invalid) ==> r@ == script_instructions(script@.take(k))
                + script_instructions(script@.skip(k)),
{
    bitcoin::Script::from_bytes(script).instructions().map(
        |i| match i {
            Ok(bitcoin::script::Instruction::Op(op)) => Instruction::Op(op.to_u8()),
            Ok(bitcoin::script::Instruction::PushBytes(d)) => Instruction::PushBytes(d.len()),
            Err(_) => Instruction::Invalid,
        },
    ).collect()
}

/// The name of an opcode, as the `bitcoin` crate writes it.
pub uninterp spec fn opcode_name(code: u8) -> Seq<char>;

/// Writes the name of an opcode: the `Debug` form of `bitcoin`'s `Opcode`.
///
/// The contract names the text, which depends on the opcode alone, and claims that it starts with
/// `OP_`.
#[verifier::external_body]
fn opcode_text(code: u8) -> (r: String)
    ensures
        r@ == opcode_name(code),
        r@.len() >= 3 && r@.take(3) == "OP_"@,
{
    format!("{:?}", bitcoin::opcodes::Opcode::from(code))
}

/// The label under which an instruction is counted.
pub open spec fn label(instruction: Instruction) -> Seq<char> {
    match instruction {
        Instruction::Op(code) => opcode_name(code),
        Instruction::PushBytes(n) => "OP_PUSHBYTES_"@ + text::decimal(n as nat),
        Instruction::Invalid => "INVALID"@,
    }
}

/// The label under which an instruction is counted.
pub fn label_text(instruction: Instruction) -> (r: String)
    ensures
        r@ == label(instruction),
        (r@ == "INVALID"@) == (instruction is Invalid),
        instruction matches Instruction::Op(code) ==> r@ == opcode_name(code),
        instruction matches Instruction::PushBytes(n) ==> files::starts_with(
            r@,
            "OP_PUSHBYTES_"@,
        ) && text::spells(r@.skip(13), n as nat),
{
    proof {
        if let Instruction::PushBytes(n) = instruction {
            label_of_a_push_spells_its_length(n);
        }
        reveal_strlit("INVALID");
        reveal_strlit("OP_");
        reveal_strlit("OP_PUSHBYTES_");
    }
    match instruction {
        Instruction::Op(code) => {
            let r = opcode_text(code);
            assert(r@[0] == r@.take(3)[0]);
            r
        },
        Instruction::PushBytes(n) => {
            let mut r = String::from_str("OP_PUSHBYTES_");
            r.append(text::decimal_text(n as u64).as_str());
            assert(r@[0] == 'O');
            r
        },
        Instruction::Invalid => String::from_str("INVALID"),
    }
}

/// A label with its count.
#[derive(Clone, Debug)]
pub struct OpcodeCount {
    pub label: String,
    pub count: usize,
}

/// What a list of texts holds.
pub open spec fn texts(list: Seq<String>) -> Seq<Seq<char>> {
    list.map_values(|s: String| s@)
}

/// How often a label occurs in a list.
pub open spec fn tally(labels: Seq<Seq<char>>, l: Seq<char>) -> nat
    decreases labels.len(),
{
    if labels.len() == 0 {
        0
    } else if labels.last() == l {
        tally(labels.drop_last(), l) + 1
    } else {
        tally(labels.drop_last(), l)
    }
}

/// The labels are in order, each once.
pub open spec fn sorted_by_label(counts: Seq<OpcodeCount>) -> bool {
    forall|i: int, j: int|
        0 <= i < j < counts.len() ==> text::comes_before(
            #[trigger] counts[i].label@,
            #[trigger] counts[j].label@,
        )
}

/// The counts of a list of labels: every label that occurs, in order, with the number of its
/// occurrences.
pub open spec fn is_tally(counts: Seq<OpcodeCount>, labels: Seq<Seq<char>>) -> bool {
    &&& sorted_by_label(counts)
    &&& forall|i: int|
        0 <= i < counts.len() ==> (#[trigger] counts[i]).count == tally(labels, counts[i].label@)
            && counts[i].count > 0
    &&& forall|l: Seq<char>|
        #[trigger] tally(labels, l) > 0 ==> exists|i: int|
            0 <= i < counts.len() && #[trigger] counts[i].label@ == l
}

/// A label occurs at most as often as there are labels.
proof fn lemma_tally_bound(labels: Seq<Seq<char>>, l: Seq<char>)
    ensures
        tally(labels, l) <= labels.len(),
    decreases labels.len(),
{
    if labels.len() > 0 {
        lemma_tally_bound(labels.drop_last(), l);
    }
}

/// One more label counts one more.
proof fn lemma_tally_push(labels: Seq<Seq<char>>, x: Seq<char>, l: Seq<char>)
    ensures
        tally(labels.push(x), l) == tally(labels, l) + (if x == l {
            1nat
        } else {
            0
        }),
{
    assert(labels.push(x).drop_last() =~= labels);
}

/// The counts of a list are determined by the list: an entry of one tally is an entry of any
/// other.
pub proof fn tally_is_determined(
    first: Seq<OpcodeCount>,
    second: Seq<OpcodeCount>,
    labels: Seq<Seq<char>>,
    i: int,
)
    requires
        is_tally(first, labels),
        is_tally(second, labels),
        0 <= i < first.len(),
    ensures
        exists|j: int|
            0 <= j < second.len() && #[trigger] second[j].label@ == first[i].label@
                && second[j].count == first[i].count,
{
    assert(first[i].count == tally(labels, first[i].label@));
    let j = choose|j: int| 0 <= j < second.len() && #[trigger] second[j].label@
        == first[i].label@;
    assert(second[j].count == tally(labels, second[j].label@));
}

/// The number that is counted under a label: that of the label's entry, or zero without one.
pub open spec fn count_of(counts: Seq<OpcodeCount>, l: Seq<char>) -> nat {
    if exists|i: int| 0 <= i < counts.len() && #[trigger] counts[i].label@ == l {
        counts[choose|i: int| 0 <= i < counts.len() && #[trigger] counts[i].label@ == l].count as nat
    } else {
        0
    }
}

/// What is counted under a label is the number of its occurrences.
pub proof fn counts_are_occurrences(
    counts: Seq<OpcodeCount>,
    labels: Seq<Seq<char>>,
    l: Seq<char>,
)
    requires
        is_tally(counts, labels),
    ensures
        count_of(counts, l) == tally(labels, l),
{
    if exists|i: int| 0 <= i < counts.len() && #[trigger] counts[i].label@ == l {
        let i = choose|i: int| 0 <= i < counts.len() && #[trigger] counts[i].label@ == l;
        assert(counts[i].count == tally(labels, counts[i].label@));
    }
}

/// All counts together.
pub open spec fn counts_total(counts: Seq<OpcodeCount>) -> nat
    decreases counts.len(),
{
    if counts.len() == 0 {
        0
    } else {
        counts_total(counts.drop_last()) + counts.last().count as nat
    }
}

/// The occurrences of several labels together.
spec fn tally_total(keys: Seq<Seq<char>>, labels: Seq<Seq<char>>) -> nat
    decreases keys.len(),
{
    if keys.len() == 0 {
        0
    } else {
        tally_total(keys.drop_last(), labels) + tally(labels, keys.last())
    }
}

/// One more label adds to the occurrences as often as it is among the keys.
proof fn lemma_tally_total_push(keys: Seq<Seq<char>>, labels: Seq<Seq<char>>, x: Seq<char>)
    ensures
        tally_total(keys, labels.push(x)) == tally_total(keys, labels) + tally(keys, x),
    decreases keys.len(),
{
    if keys.len() > 0 {
        lemma_tally_total_push(keys.drop_last(), labels, x);
        lemma_tally_push(labels, x, keys.last());
    }
}

/// No keys occur in an empty list.
proof fn lemma_tally_total_of_none(keys: Seq<Seq<char>>)
    ensures
        tally_total(keys, Seq::empty()) == 0,
    decreases keys.len(),
{
    if keys.len() > 0 {
        lemma_tally_total_of_none(keys.drop_last());
    }
}

/// A label that is not in a list does not occur.
proof fn lemma_tally_of_absent(labels: Seq<Seq<char>>, l: Seq<char>)
    requires
        forall|i: int| 0 <= i < labels.len() ==> #[trigger] labels[i] != l,
    ensures
        tally(labels, l) == 0,
    decreases labels.len(),
{
    if labels.len() > 0 {
        let shorter = labels.drop_last();
        assert forall|i: int| 0 <= i < shorter.len() implies #[trigger] shorter[i] != l by {
            assert(shorter[i] == labels[i]);
        }
        lemma_tally_of_absent(shorter, l);
        assert(labels[labels.len() - 1] != l);
    }
}

/// A label that is in a list of distinct labels occurs once.
proof fn lemma_tally_of_distinct(keys: Seq<Seq<char>>, i: int)
    requires
        0 <= i < keys.len(),
        forall|a: int, b: int| 0 <= a < b < keys.len() ==> #[trigger] keys[a] != #[trigger] keys[b],
    ensures
        tally(keys, keys[i]) == 1,
    decreases keys.len(),
{
    let shorter = keys.drop_last();
    if i == keys.len() - 1 {
        assert forall|a: int| 0 <= a < shorter.len() implies #[trigger] shorter[a] != keys[i] by {
            assert(keys[a] != keys[i]);
        }
        lemma_tally_of_absent(shorter, keys[i]);
    } else {
        assert(shorter[i] == keys[i]);
        assert forall|a: int, b: int| 0 <= a < b < shorter.len() implies #[trigger] shorter[a]
            != #[trigger] shorter[b] by {
            assert(keys[a] != keys[b]);
        }
        lemma_tally_of_distinct(shorter, i);
        assert(keys[i] != keys[keys.len() - 1]);
    }
}

/// A label in a list occurs.
proof fn lemma_tally_of_present(labels: Seq<Seq<char>>, i: int)
    requires
        0 <= i < labels.len(),
    ensures
        tally(labels, labels[i]) > 0,
    decreases labels.len(),
{
    if i < labels.len() - 1 {
        assert(labels.drop_last()[i] == labels[i]);
        lemma_tally_of_present(labels.drop_last(), i);
    }
}

/// Distinct keys among which every label is found have as many occurrences as there are labels.
proof fn lemma_tally_total(keys: Seq<Seq<char>>, labels: Seq<Seq<char>>)
    requires
        forall|a: int, b: int| 0 <= a < b < keys.len() ==> #[trigger] keys[a] != #[trigger] keys[b],
        forall|i: int| 0 <= i < labels.len() ==> keys.contains(#[trigger] labels[i]),
    ensures
        tally_total(keys, labels) == labels.len(),
    decreases labels.len(),
{
    if labels.len() == 0 {
        assert(labels =~= Seq::empty());
        lemma_tally_total_of_none(keys);
    } else {
        let shorter = labels.drop_last();
        let x = labels.last();
        assert forall|i: int| 0 <= i < shorter.len() implies keys.contains(
            #[trigger] shorter[i],
        ) by {
            assert(shorter[i] == labels[i]);
        }
        lemma_tally_total(keys, shorter);
        assert(labels =~= shorter.push(x));
        lemma_tally_total_push(keys, shorter, x);
        assert(keys.contains(labels[labels.len() - 1]));
        let i = choose|i: int| 0 <= i < keys.len() && keys[i] == x;
        lemma_tally_of_distinct(keys, i);
    }
}

/// The keys of a list of counts.
spec fn keys_of(counts: Seq<OpcodeCount>) -> Seq<Seq<char>> {
    counts.map_values(|c: OpcodeCount| c.label@)
}

/// Counts that are occurrences add up to the occurrences of their keys.
proof fn lemma_counts_total(counts: Seq<OpcodeCount>, labels: Seq<Seq<char>>)
    requires
        forall|i: int|
            0 <= i < counts.len() ==> (#[trigger] counts[i]).count == tally(
                labels,
                counts[i].label@,
            ),
    ensures
        counts_total(counts) == tally_total(keys_of(counts), labels),
    decreases counts.len(),
{
    if counts.len() > 0 {
        let shorter = counts.drop_last();
        assert forall|i: int| 0 <= i < shorter.len() implies (#[trigger] shorter[i]).count == tally(
            labels,
            shorter[i].label@,
        ) by {
            assert(shorter[i] == counts[i]);
        }
        lemma_counts_total(shorter, labels);
        assert(keys_of(counts).drop_last() =~= keys_of(shorter));
        assert(counts[counts.len() - 1].count == tally(labels, counts.last().label@));
    }
}

/// The counts of a list add up to the length of the list.
pub proof fn counts_add_up(counts: Seq<OpcodeCount>, labels: Seq<Seq<char>>)
    requires
        is_tally(counts, labels),
    ensures
        counts_total(counts) == labels.len(),
        (counts.len() == 0) == (labels.len() == 0),
{
    let keys = keys_of(counts);
    assert forall|a: int, b: int| 0 <= a < b < keys.len() implies #[trigger] keys[a]
        != #[trigger] keys[b] by {
        assert(text::comes_before(counts[a].label@, counts[b].label@));
        text::texts_are_ordered(counts[a].label@, counts[b].label@);
    }
    assert forall|i: int| 0 <= i < labels.len() implies keys.contains(#[trigger] labels[i]) by {
        lemma_tally_of_present(labels, i);
        let j = choose|j: int| 0 <= j < counts.len() && #[trigger] counts[j].label@ == labels[i];
        assert(keys[j] == labels[i]);
    }
    lemma_tally_total(keys, labels);
    lemma_counts_total(counts, labels);
    if counts.len() > 0 {
        assert(counts[counts.len() - 1].count > 0);
    }
}

/// A label occurs in two lists put together as often as in the one and in the other.
pub proof fn occurrences_add_up(first: Seq<Seq<char>>, second: Seq<Seq<char>>, l: Seq<char>)
    ensures
        tally(first + second, l) == tally(first, l) + tally(second, l),
    decreases second.len(),
{
    if second.len() == 0 {
        assert(first + second =~= first);
    } else {
        occurrences_add_up(first, second.drop_last(), l);
        assert((first + second).drop_last() =~= first + second.drop_last());
    }
}

/// The counts of two lists put together are, label by label, the sums of the counts of the two.
pub proof fn counts_of_joined_lists_add_up(
    first: Seq<OpcodeCount>,
    second: Seq<OpcodeCount>,
    joined: Seq<OpcodeCount>,
    first_labels: Seq<Seq<char>>,
    second_labels: Seq<Seq<char>>,
    l: Seq<char>,
)
    requires
        is_tally(first, first_labels),
        is_tally(second, second_labels),
        is_tally(joined, first_labels + second_labels),
    ensures
        count_of(joined, l) == count_of(first, l) + count_of(second, l),
{
    counts_are_occurrences(first, first_labels, l);
    counts_are_occurrences(second, second_labels, l);
    counts_are_occurrences(joined, first_labels + second_labels, l);
    occurrences_add_up(first_labels, second_labels, l);
}

/// Counts one more occurrence of a label.
fn add_count(counts: &mut Vec<OpcodeCount>, label: String)
    requires
        sorted_by_label(old(counts)@),
        forall|i: int|
            0 <= i < old(counts).len() && (#[trigger] old(counts)[i]).label@ == label@
                ==> old(counts)[i].count < usize::MAX,
    ensures
        forall|labels: Seq<Seq<char>>|
            is_tally(old(counts)@, labels) ==> #[trigger] is_tally(
                final(counts)@,
                labels.push(label@),
            ),
{
    let ghost before = counts@;
    let ghost l = label@;
    let mut i: usize = 0;
    while i < counts.len() && text::is_before(&counts[i].label, &label)
        invariant
            counts@ == before,
            l == label@,
            i <= counts.len(),
            forall|j: int| 0 <= j < i ==> text::comes_before(#[trigger] counts[j].label@, l),
        decreases counts.len() - i,
    {
        i += 1;
    }
    if i < counts.len() && !text::is_before(&label, &counts[i].label) {
        let count: usize = counts[i].count;
        proof {
            text::texts_are_ordered(l, before[i as int].label@);
            assert(before[i as int].label@ == l);
        }
        counts.set(i, OpcodeCount { label, count: count + 1 });
        proof {
            assert forall|labels: Seq<Seq<char>>| is_tally(before, labels) implies #[trigger] is_tally(
                counts@,
                labels.push(l),
            ) by {
                lemma_counted_again(before, counts@, i as int, labels);
            }
        }
    } else {
        proof {
            if i < counts.len() {
                assert(text::comes_before(l, before[i as int].label@));
            }
        }
        counts.insert(i, OpcodeCount { label, count: 1 });
        proof {
            assert forall|labels: Seq<Seq<char>>| is_tally(before, labels) implies #[trigger] is_tally(
                counts@,
                labels.push(l),
            ) by {
                lemma_counted_first(before, counts@, i as int, labels);
            }
        }
    }
}

proof fn lemma_counted_again(
    before: Seq<OpcodeCount>,
    after: Seq<OpcodeCount>,
    i: int,
    labels: Seq<Seq<char>>,
)
    requires
        is_tally(before, labels),
        0 <= i < before.len(),
        after.len() == before.len(),
        forall|j: int| 0 <= j < before.len() && j != i ==> #[trigger] after[j] == before[j],
        after[i].label@ == before[i].label@,
        after[i].count == before[i].count + 1,
    ensures
        is_tally(after, labels.push(before[i].label@)),
{
    let l = before[i].label@;
    let more = labels.push(l);
    assert forall|j: int| 0 <= j < after.len() implies after[j].label@ == before[j].label@ by {}
    assert forall|a: int, b: int| 0 <= a < b < after.len() implies text::comes_before(
        #[trigger] after[a].label@,
        #[trigger] after[b].label@,
    ) by {
        assert(text::comes_before(before[a].label@, before[b].label@));
    }
    assert forall|j: int| 0 <= j < after.len() implies (#[trigger] after[j]).count == tally(
        more,
        after[j].label@,
    ) && after[j].count > 0 by {
        assert(before[j].count == tally(labels, before[j].label@));
        lemma_tally_push(labels, l, after[j].label@);
        if j != i {
            if j < i {
                text::texts_are_ordered(before[j].label@, before[i].label@);
            } else {
                text::texts_are_ordered(before[i].label@, before[j].label@);
            }
        }
    }
    assert forall|x: Seq<char>| #[trigger] tally(more, x) > 0 implies exists|j: int|
        0 <= j < after.len() && #[trigger] after[j].label@ == x by {
        lemma_tally_push(labels, l, x);
        if x == l {
            assert(after[i].label@ == x);
        } else {
            assert(tally(labels, x) > 0);
            let j = choose|j: int| 0 <= j < before.len() && #[trigger] before[j].label@ == x;
            assert(after[j].label@ == x);
        }
    }
}

proof fn lemma_counted_first(
    before: Seq<OpcodeCount>,
    after: Seq<OpcodeCount>,
    i: int,
    labels: Seq<Seq<char>>,
)
    requires
        is_tally(before, labels),
        0 <= i <= before.len(),
        after.len() == before.len() + 1,
        after == before.insert(i, after[i]),
        after[i].count == 1,
        forall|j: int|
            0 <= j < i ==> text::comes_before(#[trigger] before[j].label@, after[i].label@),
        i < before.len() ==> text::comes_before(after[i].label@, before[i].label@),
    ensures
        is_tally(after, labels.push(after[i].label@)),
{
    let l = after[i].label@;
    let more = labels.push(l);
    assert forall|j: int| 0 <= j < i implies after[j] == before[j] by {}
    assert forall|j: int| i < j < after.len() implies after[j] == before[j - 1] by {}
    assert forall|j: int| i <= j < before.len() implies text::comes_before(
        l,
        #[trigger] before[j].label@,
    ) by {
        if j > i {
            assert(text::comes_before(before[i].label@, before[j].label@));
            text::order_of_texts_is_transitive(l, before[i].label@, before[j].label@);
        }
    }
    assert forall|j: int| 0 <= j < before.len() implies #[trigger] before[j].label@ != l by {
        if j < i {
            text::texts_are_ordered(before[j].label@, l);
        } else {
            text::texts_are_ordered(l, before[j].label@);
        }
    }
    assert(tally(labels, l) == 0) by {
        if tally(labels, l) > 0 {
            let j = choose|j: int| 0 <= j < before.len() && #[trigger] before[j].label@ == l;
            assert(before[j].label@ != l);
        }
    }
    assert forall|a: int, b: int| 0 <= a < b < after.len() implies text::comes_before(
        #[trigger] after[a].label@,
        #[trigger] after[b].label@,
    ) by {
        if a == i {
            assert(after[b] == before[b - 1]);
        } else if b == i {
            assert(after[a] == before[a]);
        } else {
            let x = if a < i {
                a
            } else {
                a - 1
            };
            let y = if b < i {
                b
            } else {
                b - 1
            };
            assert(after[a] == before[x] && after[b] == before[y]);
            assert(text::comes_before(before[x].label@, before[y].label@));
        }
    }
    assert forall|j: int| 0 <= j < after.len() implies (#[trigger] after[j]).count == tally(
        more,
        after[j].label@,
    ) && after[j].count > 0 by {
        lemma_tally_push(labels, l, after[j].label@);
        if j != i {
            let x = if j < i {
                j
            } else {
                j - 1
            };
            assert(after[j] == before[x]);
            assert(before[x].count == tally(labels, before[x].label@));
            assert(before[x].label@ != l);
        }
    }
    assert forall|x: Seq<char>| #[trigger] tally(more, x) > 0 implies exists|j: int|
        0 <= j < after.len() && #[trigger] after[j].label@ == x by {
        lemma_tally_push(labels, l, x);
        if x == l {
            assert(after[i].label@ == x);
        } else {
            assert(tally(labels, x) > 0);
            let j = choose|j: int| 0 <= j < before.len() && #[trigger] before[j].label@ == x;
            let k = if j < i {
                j
            } else {
                j + 1
            };
            assert(after[k] == before[j]);
            assert(after[k].label@ == x);
        }
    }
}

/// Adds the counts of a list of labels to those of the labels before them.
fn add_labels(counts: &mut Vec<OpcodeCount>, labels: Vec<String>, Ghost(done): Ghost<Seq<Seq<char>>>)
    requires
        is_tally(old(counts)@, done),
        done.len() + labels.len() <= usize::MAX,
    ensures
        is_tally(final(counts)@, done + texts(labels@)),
{
    let mut i: usize = 0;
    assert(done + texts(labels@).take(0) =~= done);
    while i < labels.len()
        invariant
            i <= labels.len(),
            done.len() + labels.len() <= usize::MAX,
            is_tally(counts@, done + texts(labels@).take(i as int)),
        decreases labels.len() - i,
    {
        let ghost so_far = done + texts(labels@).take(i as int);
        assert forall|j: int|
            0 <= j < counts.len() && (#[trigger] counts[j]).label@ == labels[i as int]@ implies counts[j].count
            < usize::MAX by {
            lemma_tally_bound(so_far, counts[j].label@);
        }
        add_count(counts, labels[i].clone());
        i += 1;
        assert(so_far.push(labels[i - 1]@) =~= done + texts(labels@).take(i as int));
    }
    assert(texts(labels@).take(labels.len() as int) =~= texts(labels@));
}

/// No labels have no counts.
proof fn lemma_empty_tally(counts: Seq<OpcodeCount>)
    requires
        counts.len() == 0,
    ensures
        is_tally(counts, Seq::empty()),
{
}

/// Counts labels.
pub fn count_labels(labels: Vec<String>) -> (r: Vec<OpcodeCount>)
    ensures
        is_tally(r@, texts(labels@)),
{
    let mut r: Vec<OpcodeCount> = Vec::new();
    proof {
        lemma_empty_tally(r@);
        assert(Seq::<Seq<char>>::empty() + texts(labels@) =~= texts(labels@));
    }
    add_labels(&mut r, labels, Ghost(Seq::empty()));
    r
}

/// The labels of a list of instructions.
pub open spec fn labels_of(instructions: Seq<Instruction>) -> Seq<Seq<char>> {
    instructions.map_values(|i: Instruction| label(i))
}

/// The labels of a script's instructions.
pub open spec fn script_labels(script: Seq<u8>) -> Seq<Seq<char>> {
    labels_of(script_instructions(script))
}

/// A script ends inside a push.
pub open spec fn ends_inside_a_push(script: Seq<u8>) -> bool {
    script_instructions(script).contains(Instruction::Invalid)
}

/// The labels of a script's instructions.
fn read_labels(script: &[u8]) -> (r: Vec<String>)
    ensures
        texts(r@) == script_labels(script@),
        r.len() <= script@.len(),
        (r.len() == 0) == (script@.len() == 0),
        tally(script_labels(script@), "INVALID"@) == (if ends_inside_a_push(script@) {
            1nat
        } else {
            0
        }),
        forall|k: int|
            0 <= k <= script@.len() && !#[trigger] ends_inside_a_push(script@.take(k))
                ==> script_labels(script@) == script_labels(script@.take(k)) + script_labels(
                script@.skip(k),
            ),
{
    let instructions: Vec<Instruction> = read_instructions(script);
    let mut r: Vec<String> = Vec::new();
    let mut i: usize = 0;
    while i < instructions.len()
        invariant
            i <= instructions.len(),
            r.len() == i,
            forall|j: int| 0 <= j < i ==> (#[trigger] r[j])@ == label(instructions[j]),
            forall|j: int|
                0 <= j < i ==> ((#[trigger] r[j])@ == "INVALID"@) == (instructions[j] is Invalid),
        decreases instructions.len() - i,
    {
        r.push(label_text(instructions[i]));
        i += 1;
    }
    assert(texts(r@) =~= script_labels(script@));
    proof {
        lemma_invalid_comes_once(instructions@, texts(r@));
        assert forall|k: int|
            0 <= k <= script@.len() && !#[trigger] ends_inside_a_push(
                script@.take(k),
            ) implies script_labels(script@) == script_labels(script@.take(k)) + script_labels(
            script@.skip(k),
        ) by {
            assert(script_labels(script@) =~= script_labels(script@.take(k)) + script_labels(
                script@.skip(k),
            ));
        }
    }
    r
}

/// An error that only the end of a list can be occurs once where it occurs.
proof fn lemma_invalid_comes_once(instructions: Seq<Instruction>, labels: Seq<Seq<char>>)
    requires
        labels.len() == instructions.len(),
        forall|i: int|
            0 <= i < labels.len() ==> (#[trigger] labels[i] == "INVALID"@) == (
            instructions[i] is Invalid),
        forall|i: int|
            0 <= i < instructions.len() && #[trigger] instructions[i] == Instruction::Invalid
                ==> i == instructions.len() - 1,
    ensures
        tally(labels, "INVALID"@) == (if instructions.contains(Instruction::Invalid) {
            1nat
        } else {
            0
        }),
{
    let l = "INVALID"@;
    if labels.len() > 0 {
        let shorter = labels.drop_last();
        assert forall|i: int| 0 <= i < shorter.len() implies #[trigger] shorter[i] != l by {
            assert(shorter[i] == labels[i]);
        }
        lemma_tally_of_absent(shorter, l);
        let last = instructions.len() - 1;
        assert((labels[last] == l) == (instructions[last] is Invalid));
        if instructions.contains(Instruction::Invalid) {
            let i = choose|i: int|
                0 <= i < instructions.len() && instructions[i] == Instruction::Invalid;
            assert(instructions[i] == Instruction::Invalid);
            assert(i == last);
        } else if instructions[last] is Invalid {
            assert(instructions.contains(instructions[last]));
        }
    }
}

/// Counts the instructions of a script.
///
/// The counts add up to the number of instructions, and only the empty script has none. A script
/// that ends inside a push is counted up to there, with one more count for the end. The counts of a
/// script are those of its start, where that does not end inside a push, and those of its rest
/// together.
pub fn count_opcodes(script: &[u8]) -> (r: Vec<OpcodeCount>)
    ensures
        is_tally(r@, script_labels(script@)),
        counts_total(r@) == script_instructions(script@).len(),
        (r.len() == 0) == (script@.len() == 0),
        count_of(r@, "INVALID"@) == (if ends_inside_a_push(script@) {
            1nat
        } else {
            0
        }),
        forall|k: int|
            0 <= k <= script@.len() && !#[trigger] ends_inside_a_push(script@.take(k)) ==> is_tally(
                r@,
                script_labels(script@.take(k)) + script_labels(script@.skip(k)),
            ),
        forall|k: int, l: Seq<char>|
            #![trigger ends_inside_a_push(script@.take(k)), count_of(r@, l)]
            0 <= k <= script@.len() && !ends_inside_a_push(script@.take(k)) ==> count_of(r@, l)
                == tally(script_labels(script@.take(k)), l) + tally(
                script_labels(script@.skip(k)),
                l,
            ),
{
    let labels: Vec<String> = read_labels(script);
    let r: Vec<OpcodeCount> = count_labels(labels);
    proof {
        let all = script_labels(script@);
        counts_add_up(r@, all);
        counts_are_occurrences(r@, all, "INVALID"@);
        assert forall|k: int, l: Seq<char>|
            #![trigger ends_inside_a_push(script@.take(k)), count_of(r@, l)]
            0 <= k <= script@.len() && !ends_inside_a_push(script@.take(k)) implies count_of(r@, l)
            == tally(script_labels(script@.take(k)), l) + tally(
            script_labels(script@.skip(k)),
            l,
        ) by {
            counts_are_occurrences(r@, all, l);
            occurrences_add_up(script_labels(script@.take(k)), script_labels(script@.skip(k)), l);
        }
    }
    r
}

/// What a list of witnesses holds.
pub open spec fn witness_lists(witnesses: Seq<Vec<Vec<u8>>>) -> Seq<Seq<Seq<u8>>> {
    witnesses.map_values(|w: Vec<Vec<u8>>| bytes::strings(w@))
}

/// The script in a witness that spends by script: the last element but one.
pub open spec fn witness_script(witness: Seq<Seq<u8>>) -> Seq<u8> {
    if witness.len() >= 2 {
        witness[witness.len() - 2]
    } else {
        Seq::empty()
    }
}

/// The labels of the scripts in a list of witnesses.
pub open spec fn witness_labels(witnesses: Seq<Seq<Seq<u8>>>) -> Seq<Seq<char>>
    decreases witnesses.len(),
{
    if witnesses.len() == 0 {
        Seq::empty()
    } else if witnesses.last().len() >= 2 {
        witness_labels(witnesses.drop_last()) + script_labels(witness_script(witnesses.last()))
    } else {
        witness_labels(witnesses.drop_last())
    }
}

/// The size of the scripts in a list of witnesses.
pub open spec fn script_bytes(witnesses: Seq<Seq<Seq<u8>>>) -> nat
    decreases witnesses.len(),
{
    if witnesses.len() == 0 {
        0
    } else {
        script_bytes(witnesses.drop_last()) + witness_script(witnesses.last()).len()
    }
}

/// The size of the first scripts is at most the size of all.
proof fn lemma_script_bytes_grow(witnesses: Seq<Seq<Seq<u8>>>, i: int)
    requires
        0 <= i <= witnesses.len(),
    ensures
        script_bytes(witnesses.take(i)) <= script_bytes(witnesses),
    decreases witnesses.len() - i,
{
    if i == witnesses.len() {
        assert(witnesses.take(i) =~= witnesses);
    } else {
        lemma_script_bytes_grow(witnesses, i + 1);
        assert(witnesses.take(i + 1).drop_last() =~= witnesses.take(i));
    }
}

/// The size of the scripts in a list of witnesses, if it fits a machine word.
pub fn total_script_bytes(witnesses: &Vec<Vec<Vec<u8>>>) -> (r: Option<usize>)
    ensures
        r == (if script_bytes(witness_lists(witnesses@)) <= usize::MAX {
            Some(script_bytes(witness_lists(witnesses@)) as usize)
        } else {
            None
        }),
{
    let ghost lists = witness_lists(witnesses@);
    let mut total: usize = 0;
    let mut i: usize = 0;
    while i < witnesses.len()
        invariant
            i <= witnesses.len(),
            lists == witness_lists(witnesses@),
            total == script_bytes(lists.take(i as int)),
        decreases witnesses.len() - i,
    {
        let len: usize = witnesses[i].len();
        let size: usize = if len >= 2 {
            witnesses[i][len - 2].len()
        } else {
            0
        };
        proof {
            assert(lists.take(i + 1).drop_last() =~= lists.take(i as int));
            assert(lists.take(i + 1).last() == bytes::strings(witnesses[i as int]@));
            assert(size == witness_script(lists[i as int]).len());
            lemma_script_bytes_grow(lists, i + 1);
        }
        match total.checked_add(size) {
            None => {
                return None;
            },
            Some(sum) => {
                total = sum;
            },
        }
        i += 1;
    }
    assert(lists.take(lists.len() as int) =~= lists);
    Some(total)
}

/// Counts the instructions of the scripts in a list of witnesses, one witness for each input.
pub fn count_witness_opcodes(witnesses: &Vec<Vec<Vec<u8>>>) -> (r: Vec<OpcodeCount>)
    requires
        script_bytes(witness_lists(witnesses@)) <= usize::MAX,
    ensures
        is_tally(r@, witness_labels(witness_lists(witnesses@))),
{
    let ghost lists = witness_lists(witnesses@);
    let mut r: Vec<OpcodeCount> = Vec::new();
    let mut i: usize = 0;
    proof {
        lemma_empty_tally(r@);
    }
    while i < witnesses.len()
        invariant
            i <= witnesses.len(),
            lists == witness_lists(witnesses@),
            script_bytes(lists) <= usize::MAX,
            is_tally(r@, witness_labels(lists.take(i as int))),
            witness_labels(lists.take(i as int)).len() <= script_bytes(lists.take(i as int)),
        decreases witnesses.len() - i,
    {
        let len: usize = witnesses[i].len();
        proof {
            assert(lists.take(i + 1).drop_last() =~= lists.take(i as int));
            assert(lists.take(i + 1).last() == bytes::strings(witnesses[i as int]@));
            lemma_script_bytes_grow(lists, i + 1);
        }
        if len >= 2 {
            let labels: Vec<String> = read_labels(witnesses[i][len - 2].as_slice());
            assert(witness_script(lists[i as int]) == witnesses[i as int][len - 2]@);
            add_labels(&mut r, labels, Ghost(witness_labels(lists.take(i as int))));
        }
        i += 1;
    }
    assert(lists.take(lists.len() as int) =~= lists);
    r
}

/// The more frequent labels come first, those of one count in the order of the labels.
pub open spec fn sorted_by_count(counts: Seq<OpcodeCount>) -> bool {
    forall|i: int, j: int|
        0 <= i < j < counts.len() ==> (#[trigger] counts[i]).count > (#[trigger] counts[j]).count
            || (counts[i].count == counts[j].count && text::comes_before(
            counts[i].label@,
            counts[j].label@,
        ))
}

/// Puts counts in the order of a report.
pub fn sort_by_count(counts: &Vec<OpcodeCount>) -> (r: Vec<OpcodeCount>)
    requires
        sorted_by_label(counts@),
    ensures
        sorted_by_count(r@),
        r@.to_multiset() == counts@.to_multiset(),
        r.len() == counts.len(),
        forall|i: int, j: int|
            0 <= i < j < r.len() ==> (#[trigger] r[i]).count >= (#[trigger] r[j]).count,
{
    let mut r: Vec<OpcodeCount> = Vec::new();
    let mut i: usize = 0;
    assert(r@ =~= counts@.take(0));
    while i < counts.len()
        invariant
            i <= counts.len(),
            sorted_by_label(counts@),
            sorted_by_count(r@),
            r@.to_multiset() == counts@.take(i as int).to_multiset(),
            forall|j: int|
                0 <= j < r.len() ==> text::comes_before(
                    (#[trigger] r[j]).label@,
                    counts[i as int].label@,
                ) || i == counts.len(),
            forall|j: int|
                0 <= j < r.len() ==> exists|k: int|
                    0 <= k < i && #[trigger] r[j] == #[trigger] counts[k],
        decreases counts.len() - i,
    {
        let entry = OpcodeCount { label: counts[i].label.clone(), count: counts[i].count };
        assert(entry == counts[i as int]);
        let mut p: usize = 0;
        while p < r.len() && r[p].count >= entry.count
            invariant
                p <= r.len(),
                forall|j: int| 0 <= j < p ==> (#[trigger] r[j]).count >= entry.count,
            decreases r.len() - p,
        {
            p += 1;
        }
        let ghost before = r@;
        r.insert(p, entry);
        proof {
            lemma_insert_to_multiset(before, p as int, entry);
            broadcast use vstd::seq_lib::group_to_multiset_ensures;

            assert(counts@.take(i + 1) =~= counts@.take(i as int).push(counts[i as int]));
            assert forall|a: int, b: int| 0 <= a < b < r.len() implies (#[trigger] r[a]).count > (
            #[trigger] r[b]).count || (r[a].count == r[b].count && text::comes_before(
                r[a].label@,
                r[b].label@,
            )) by {
                if a < p {
                    assert(r[a] == before[a]);
                }
                if b < p {
                    assert(r[b] == before[b]);
                }
                if a > p {
                    assert(r[a] == before[a - 1]);
                }
                if b > p {
                    assert(r[b] == before[b - 1]);
                    assert(before[p as int].count < entry.count);
                    if b - 1 > p {
                        assert(before[p as int].count >= before[b - 1].count);
                    }
                }
            }
            assert forall|j: int| 0 <= j < r.len() implies exists|k: int|
                0 <= k < i + 1 && #[trigger] r[j] == #[trigger] counts[k] by {
                if j < p {
                    assert(r[j] == before[j]);
                } else if j > p {
                    assert(r[j] == before[j - 1]);
                } else {
                    assert(r[j] == counts[i as int]);
                }
            }
            if i + 1 < counts.len() {
                assert forall|j: int| 0 <= j < r.len() implies text::comes_before(
                    (#[trigger] r[j]).label@,
                    counts[i + 1].label@,
                ) by {
                    let k = choose|k: int| 0 <= k < i + 1 && r[j] == #[trigger] counts[k];
                    assert(text::comes_before(counts[k].label@, counts[i + 1].label@));
                }
            }
        }
        i += 1;
    }
    assert(counts@.take(counts.len() as int) =~= counts@);
    proof {
        broadcast use vstd::seq_lib::group_to_multiset_ensures;

        assert(r@.len() == r@.to_multiset().len());
        assert(counts@.len() == counts@.to_multiset().len());
        assert forall|i: int, j: int| 0 <= i < j < r.len() implies (#[trigger] r[i]).count >= (
        #[trigger] r[j]).count by {
            report_order(r@, i, j);
        }
    }
    r
}

/// Putting an element anywhere into a list adds it to the multiset of the list.
proof fn lemma_insert_to_multiset(s: Seq<OpcodeCount>, i: int, x: OpcodeCount)
    requires
        0 <= i <= s.len(),
    ensures
        s.insert(i, x).to_multiset() == s.to_multiset().insert(x),
{
    broadcast use vstd::seq_lib::group_to_multiset_ensures;

    let first = s.take(i);
    let rest = s.skip(i);
    vstd::seq_lib::lemma_multiset_commutative(first, rest);
    vstd::seq_lib::lemma_multiset_commutative(first.push(x), rest);
    assert(s =~= first + rest);
    assert(s.insert(i, x) =~= first.push(x) + rest);
    assert(s.insert(i, x).to_multiset() =~= s.to_multiset().insert(x));
}

/// The label of a push is a fixed start and the push's length in decimal.
pub proof fn label_of_a_push_spells_its_length(n: usize)
    ensures
        files::starts_with(label(Instruction::PushBytes(n)), "OP_PUSHBYTES_"@),
        text::spells(label(Instruction::PushBytes(n)).skip(13), n as nat),
{
    reveal_strlit("OP_PUSHBYTES_");
    let l = label(Instruction::PushBytes(n));
    text::decimal_spells_the_number(n as nat);
    assert(l.take(13) =~= "OP_PUSHBYTES_"@);
    assert(l.skip(13) =~= text::decimal(n as nat));
}

/// Pushes of different lengths have different labels.
pub proof fn labels_of_pushes_differ(n: usize, m: usize)
    requires
        label(Instruction::PushBytes(n)) == label(Instruction::PushBytes(m)),
    ensures
        n == m,
{
    label_of_a_push_spells_its_length(n);
    label_of_a_push_spells_its_length(m);
}

/// An opcode is counted under its name, and an error under a label of its own.
pub proof fn labels_of_opcodes_and_errors(code: u8)
    ensures
        label(Instruction::Op(code)) == opcode_name(code),
        label(Instruction::Invalid) == "INVALID"@,
{
}

/// Each instruction has its label, in order.
pub proof fn every_instruction_is_labelled(script: Seq<u8>, i: int)
    requires
        0 <= i < script_instructions(script).len(),
    ensures
        script_labels(script).len() == script_instructions(script).len(),
        script_labels(script)[i] == label(script_instructions(script)[i]),
{
}

/// A label alone occurs once, and no other label does.
pub proof fn one_label_occurs_once(x: Seq<char>, l: Seq<char>)
    ensures
        tally(seq![x], x) == 1,
        x != l ==> tally(seq![x], l) == 0,
        tally(Seq::empty(), l) == 0,
{
    assert(seq![x].drop_last() =~= Seq::<Seq<char>>::empty());
    assert(tally(Seq::<Seq<char>>::empty(), l) == 0);
    assert(tally(Seq::<Seq<char>>::empty(), x) == 0);
}

/// The labels of a tally are in the order of texts, each once.
pub proof fn tally_order(counts: Seq<OpcodeCount>, labels: Seq<Seq<char>>, i: int, j: int)
    requires
        is_tally(counts, labels),
        0 <= i < j < counts.len(),
    ensures
        text::comes_before(counts[i].label@, counts[j].label@),
        counts[i].label@ != counts[j].label@,
{
    text::texts_are_ordered(counts[i].label@, counts[j].label@);
}

/// In a report the more frequent label comes first, and of two labels of one count the one that
/// comes first among texts.
pub proof fn report_order(counts: Seq<OpcodeCount>, i: int, j: int)
    requires
        sorted_by_count(counts),
        0 <= i < j < counts.len(),
    ensures
        counts[i].count >= counts[j].count,
        counts[i].count == counts[j].count ==> text::comes_before(
            counts[i].label@,
            counts[j].label@,
        ),
{
}

/// The script of a witness is what stands before the control block, whatever comes before it.
pub proof fn script_stands_before_the_control_block(
    stack: Seq<Seq<u8>>,
    script: Seq<u8>,
    control_block: Seq<u8>,
)
    ensures
        witness_script(stack.push(script).push(control_block)) == script,
        witness_labels(seq![stack.push(script).push(control_block)]) == script_labels(script),
        script_bytes(seq![stack.push(script).push(control_block)]) == script.len(),
{
    let witness = stack.push(script).push(control_block);
    let none = Seq::<Seq<Seq<u8>>>::empty();
    assert(seq![witness].drop_last() =~= none);
    assert(witness_labels(none) =~= Seq::<Seq<char>>::empty());
    assert(witness_labels(seq![witness]) =~= script_labels(script));
    assert(script_bytes(none) == 0);
}

/// A witness of fewer than two elements holds no script.
pub proof fn short_witness_holds_no_script(witness: Seq<Seq<u8>>)
    requires
        witness.len() < 2,
    ensures
        witness_labels(seq![witness]) == Seq::<Seq<char>>::empty(),
        script_bytes(seq![witness]) == 0,
{
    let none = Seq::<Seq<Seq<u8>>>::empty();
    assert(seq![witness].drop_last() =~= none);
    assert(witness_labels(none) =~= Seq::<Seq<char>>::empty());
    assert(script_bytes(none) == 0);
}

/// The scripts of the inputs are counted one after the other, and their sizes add up.
pub proof fn witnesses_are_counted_in_turn(
    first: Seq<Seq<Seq<u8>>>,
    second: Seq<Seq<Seq<u8>>>,
)
    ensures
        witness_labels(first + second) == witness_labels(first) + witness_labels(second),
        script_bytes(first + second) == script_bytes(first) + script_bytes(second),
    decreases second.len(),
{
    if second.len() == 0 {
        assert(first + second =~= first);
        assert(witness_labels(first) + witness_labels(second) =~= witness_labels(first));
    } else {
        witnesses_are_counted_in_turn(first, second.drop_last());
        assert((first + second).drop_last() =~= first + second.drop_last());
        assert(witness_labels(first + second) =~= witness_labels(first) + witness_labels(second));
    }
}

/// Lists of texts and of witnesses show what they hold, item for item.
pub proof fn lists_show_their_items(list: Seq<String>, witnesses: Seq<Vec<Vec<u8>>>, i: int, j: int)
    ensures
        texts(list).len() == list.len(),
        0 <= i < list.len() ==> texts(list)[i] == list[i]@,
        witness_lists(witnesses).len() == witnesses.len(),
        0 <= i < witnesses.len() ==> witness_lists(witnesses)[i].len() == witnesses[i].len() && (0
            <= j < witnesses[i].len() ==> witness_lists(witnesses)[i][j] == witnesses[i][j]@),
{
}

} // verus!
