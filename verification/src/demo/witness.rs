//! The witness of an input that spends by script, taken apart.

use super::opcodes;
use super::transaction::DecodedTransaction;
use crate::bytes;
use crate::text;
use vstd::prelude::*;
use vstd::string::*;

verus! {

/// The parts of a witness that spends by script.
#[derive(Clone, Debug)]
pub struct SplitWitness {
    /// The elements that the script starts with.
    pub stack: Vec<Vec<u8>>,
    /// The script.
    pub script: Vec<u8>,
    /// The proof that the output commits to the script.
    pub control_block: Vec<u8>,
}

/// The elements of a witness that its script starts with.
pub open spec fn stack_part(witness: Seq<Seq<u8>>) -> Seq<Seq<u8>> {
    witness.take(witness.len() - 2)
}

/// The control block of a witness.
pub open spec fn control_part(witness: Seq<Seq<u8>>) -> Seq<u8> {
    witness[witness.len() - 1]
}

/// Takes a witness apart: the script is the last element but one and the control block is the
/// last. A witness of fewer than two elements has no script.
pub fn split_witness(witness: &Vec<Vec<u8>>) -> (r: Option<SplitWitness>)
    ensures
        r is Some == (witness.len() >= 2),
        r matches Some(parts) ==> {
            &&& bytes::strings(parts.stack@) == bytes::strings(witness@).take(witness.len() - 2)
            &&& parts.script@ == witness[witness.len() - 2]@
            &&& parts.control_block@ == witness[witness.len() - 1]@
            &&& bytes::strings(parts.stack@) == stack_part(bytes::strings(witness@))
            &&& parts.script@ == opcodes::witness_script(bytes::strings(witness@))
            &&& parts.control_block@ == control_part(bytes::strings(witness@))
        },
{
    let len: usize = witness.len();
    if len < 2 {
        return None;
    }
    let mut stack: Vec<Vec<u8>> = Vec::new();
    let mut i: usize = 0;
    while i < len - 2
        invariant
            2 <= len,
            len == witness.len(),
            i <= len - 2,
            stack.len() == i,
            forall|j: int| 0 <= j < i ==> (#[trigger] stack[j])@ == witness[j]@,
        decreases len - i,
    {
        stack.push(witness[i].clone());
        i += 1;
    }
    assert(bytes::strings(stack@) =~= bytes::strings(witness@).take(len - 2));
    Some(
        SplitWitness {
            stack,
            script: witness[len - 2].clone(),
            control_block: witness[len - 1].clone(),
        },
    )
}

/// The parts of a witness, put together, are the witness.
pub proof fn parts_are_the_witness(witness: Seq<Seq<u8>>)
    requires
        witness.len() >= 2,
    ensures
        stack_part(witness).push(opcodes::witness_script(witness)).push(control_part(witness))
            == witness,
{
    assert(stack_part(witness).push(opcodes::witness_script(witness)).push(control_part(witness))
        =~= witness);
}

/// Bytes in hexadecimal.
pub fn hex_text(data: &Vec<u8>) -> (r: String)
    ensures
        r@ == text::hex(data@),
{
    text::hex_encode(data.as_slice())
}

/// Elements in hexadecimal, each on a line of its own.
pub open spec fn hex_lines(elements: Seq<Seq<u8>>) -> Seq<char>
    decreases elements.len(),
{
    if elements.len() == 0 {
        Seq::empty()
    } else {
        hex_lines(elements.drop_last()) + text::hex(elements.last()) + "\n"@
    }
}

/// Elements in hexadecimal, each on a line of its own.
pub fn stack_text(elements: &Vec<Vec<u8>>) -> (r: String)
    ensures
        r@ == hex_lines(bytes::strings(elements@)),
{
    let ghost lists = bytes::strings(elements@);
    let mut r = String::from_str("");
    proof {
        reveal_strlit("");
        assert(r@ =~= Seq::<char>::empty());
    }
    let mut i: usize = 0;
    while i < elements.len()
        invariant
            i <= elements.len(),
            lists == bytes::strings(elements@),
            r@ == hex_lines(lists.take(i as int)),
        decreases elements.len() - i,
    {
        r.append(text::hex_encode(elements[i].as_slice()).as_str());
        r.append("\n");
        i += 1;
        assert(lists.take(i as int).drop_last() =~= lists.take(i - 1));
    }
    assert(lists.take(lists.len() as int) =~= lists);
    r
}

/// What is extracted from a transaction.
pub enum Extraction {
    /// The transaction has no input.
    NoInput,
    /// The first input's witness, of so many elements, has no script.
    NoScript(usize),
    /// The parts of the first input's witness, as the texts of three files.
    Files { script: String, stack: String, control_block: String, message: String },
}

/// The line that tells of the parts of a witness.
pub open spec fn parts_message(
    number: nat,
    witness_len: nat,
    script_len: nat,
    control_block_len: nat,
) -> Seq<char> {
    "TX "@ + text::decimal(number) + ": witness_len="@ + text::decimal(witness_len)
        + ", stack_elements="@ + text::decimal((witness_len - 2) as nat) + ", script_size="@
        + text::decimal(script_len) + ", control_block_size="@ + text::decimal(control_block_len)
}

/// Extracts the script, the stack and the control block from the first input of a transaction.
pub fn extract(number: usize, tx: &DecodedTransaction) -> (r: Extraction)
    ensures
        tx.witnesses.len() == 0 ==> r is NoInput,
        tx.witnesses.len() > 0 ==> ({
            let witness = bytes::strings(tx.witnesses[0]@);
            let n = witness.len();
            if n < 2 {
                r == Extraction::NoScript(n as usize)
            } else {
                r matches Extraction::Files { script, stack, control_block, message } && {
                    &&& script@ == text::hex(witness[n - 2])
                    &&& stack@ == hex_lines(witness.take(n - 2))
                    &&& control_block@ == text::hex(witness[n - 1])
                    &&& message@ == parts_message(
                        number as nat,
                        n,
                        witness[n - 2].len(),
                        witness[n - 1].len(),
                    )
                    &&& script@ == text::hex(opcodes::witness_script(witness))
                    &&& stack@ == hex_lines(stack_part(witness))
                    &&& control_block@ == text::hex(control_part(witness))
                }
            }
        }),
{
    if tx.witnesses.len() == 0 {
        return Extraction::NoInput;
    }
    let witness = &tx.witnesses[0];
    match split_witness(witness) {
        None => Extraction::NoScript(witness.len()),
        Some(parts) => {
            let mut message = String::from_str("TX ");
            message.append(text::decimal_text(number as u64).as_str());
            message.append(": witness_len=");
            message.append(text::decimal_text(witness.len() as u64).as_str());
            message.append(", stack_elements=");
            message.append(text::decimal_text(parts.stack.len() as u64).as_str());
            message.append(", script_size=");
            message.append(text::decimal_text(parts.script.len() as u64).as_str());
            message.append(", control_block_size=");
            message.append(text::decimal_text(parts.control_block.len() as u64).as_str());
            proof {
                assert(bytes::strings(parts.stack@).len() == witness.len() - 2);
            }
            Extraction::Files {
                script: hex_text(&parts.script),
                stack: stack_text(&parts.stack),
                control_block: hex_text(&parts.control_block),
                message,
            }
        },
    }
}

/// Each element has its line, behind the lines of the elements before it, and the line is the
/// element in hexadecimal.
pub proof fn each_element_has_its_line(elements: Seq<Seq<u8>>, element: Seq<u8>)
    ensures
        hex_lines(Seq::empty()) == Seq::<char>::empty(),
        hex_lines(elements.push(element)) == hex_lines(elements) + text::hex(element) + "\n"@,
{
    assert(elements.push(element).drop_last() =~= elements);
}

/// The line that tells of the parts of a witness spells each number in its place; two of the
/// witness's elements are not on the stack.
pub proof fn parts_message_spells_its_numbers(
    number: nat,
    witness_len: nat,
    script_len: nat,
    control_block_len: nat,
)
    requires
        witness_len >= 2,
    ensures
        exists|
            a: Seq<char>,
            b: Seq<char>,
            c: Seq<char>,
            d: Seq<char>,
            e: Seq<char>,
            stack_len: nat,
        |
            #![trigger text::spells(a, number), text::spells(b, witness_len), text::spells(
                c,
                stack_len,
            ), text::spells(d, script_len), text::spells(e, control_block_len)]
            text::spells(a, number) && text::spells(b, witness_len) && text::spells(c, stack_len)
                && text::spells(d, script_len) && text::spells(e, control_block_len) && stack_len
                + 2 == witness_len && parts_message(
                number,
                witness_len,
                script_len,
                control_block_len,
            ) == "TX "@ + a + ": witness_len="@ + b + ", stack_elements="@ + c
                + ", script_size="@ + d + ", control_block_size="@ + e,
{
    let stack_len = (witness_len - 2) as nat;
    text::decimal_spells_the_number(number);
    text::decimal_spells_the_number(witness_len);
    text::decimal_spells_the_number(stack_len);
    text::decimal_spells_the_number(script_len);
    text::decimal_spells_the_number(control_block_len);
    assert(text::spells(text::decimal(stack_len), stack_len));
}

} // verus!
