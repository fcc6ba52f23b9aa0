//! The outputs that start the demo.

use super::network::NetworkArg;
use crate::bytes;
use crate::script;
use crate::text;
use vstd::prelude::*;

verus! {

/// The four little-endian bytes of a number.
pub open spec fn four_bytes(n: u32) -> Seq<u8> {
    seq![
        (n % 0x100) as u8,
        (n / 0x100 % 0x100) as u8,
        (n / 0x1_0000 % 0x100) as u8,
        (n / 0x100_0000) as u8,
    ]
}

/// The script that carries a state hash and a randomizer and cannot be spent.
pub open spec fn caboose(state_hash: Seq<u8>, randomizer: u32) -> Seq<u8> {
    seq![script::OP_RETURN, script::OP_PUSHBYTES_36] + state_hash + four_bytes(randomizer)
}

/// The script that carries the hash of a state and a randomizer.
pub fn caboose_script(state_hash: &Vec<u8>, randomizer: u32) -> (r: Vec<u8>)
    ensures
        r@ == caboose(state_hash@, randomizer),
        r.len() == state_hash.len() + 6,
        r[0] == 0x6a,
        r[1] == 0x24,
        r@.subrange(2, 2 + state_hash.len()) == state_hash@,
        bytes::le_number(r@.subrange(2 + state_hash.len(), r.len() as int)) == randomizer,
{
    proof {
        caboose_spells_the_randomizer(state_hash@, randomizer);
    }
    let mut r: Vec<u8> = vec![script::OP_RETURN, script::OP_PUSHBYTES_36];
    r.extend_from_slice(state_hash.as_slice());
    r.push((randomizer % 0x100) as u8);
    r.push((randomizer / 0x100 % 0x100) as u8);
    r.push((randomizer / 0x1_0000 % 0x100) as u8);
    r.push((randomizer / 0x100_0000) as u8);
    assert(r@ =~= caboose(state_hash@, randomizer));
    r
}

/// A caboose of a state hash of thirty-two bytes is a well-formed push of thirty-six bytes.
pub proof fn caboose_pushes_hash_and_randomizer(state_hash: Seq<u8>, randomizer: u32)
    requires
        state_hash.len() == 32,
    ensures
        caboose(state_hash, randomizer) == script::assembled(
            seq![
                script::TokenView::Op(script::OP_RETURN),
                script::TokenView::Push(state_hash + four_bytes(randomizer)),
            ],
        ),
{
    let tokens = seq![
        script::TokenView::Op(script::OP_RETURN),
        script::TokenView::Push(state_hash + four_bytes(randomizer)),
    ];
    assert(tokens.drop_last().drop_last() =~= Seq::<script::TokenView>::empty());
    assert(script::assembled(tokens.drop_last().drop_last()) =~= Seq::<u8>::empty());
    assert(script::assembled(tokens.drop_last()) =~= seq![script::OP_RETURN]);
    assert(caboose(state_hash, randomizer) =~= script::assembled(tokens));
}

/// The hash by which an output names a witness script, as the `bitcoin` crate computes it.
pub uninterp spec fn witness_script_hash(witness_script: Seq<u8>) -> Seq<u8>;

/// The output script that pays to a witness script.
pub open spec fn witness_output(witness_script: Seq<u8>) -> Seq<u8> {
    seq![0x00u8, 0x20u8] + witness_script_hash(witness_script)
}

/// The output script that pays to a witness script: `bitcoin`'s `ScriptBuf::new_p2wsh` of
/// `WScriptHash::hash`.
///
/// The contract claims a push of the empty string and a push of the 32 bytes of the hash, which it
/// names.
#[verifier::external_body]
fn p2wsh_script(witness_script: &[u8]) -> (r: Vec<u8>)
    ensures
        r@ == seq![0x00u8, 0x20u8] + witness_script_hash(witness_script@),
        r@.len() == 34,
{
    let hash = <bitcoin::WScriptHash as bitcoin::hashes::Hash>::hash(witness_script);
    bitcoin::ScriptBuf::new_p2wsh(&hash).into_bytes()
}

/// The address of an output script on a network, as the `bitcoin` crate writes it, if the script
/// has one.
pub uninterp spec fn address_of(output_script: Seq<u8>, network: NetworkArg) -> Option<Seq<char>>;

/// The address of an output script: `bitcoin`'s `Address::from_script`, written out.
///
/// The contract names the address, which depends on the script and the network alone, and claims
/// that a script that pays to a witness script of version zero has one.
#[verifier::external_body]
fn address_text(output_script: &[u8], network: NetworkArg) -> (r: Option<String>)
    ensures
        text::optional_text(r) == address_of(output_script@, network),
        output_script@.len() == 34 && output_script@[0] == 0x00 && output_script@[1] == 0x20
            ==> r is Some,
{
    let network = match network {
        NetworkArg::Regtest => bitcoin::Network::Regtest,
        NetworkArg::Signet => bitcoin::Network::Signet,
        NetworkArg::Bitcoin => bitcoin::Network::Bitcoin,
    };
    let script = bitcoin::Script::from_bytes(output_script);
    bitcoin::Address::from_script(script, network).ok().map(|a| a.to_string())
}

/// The address of the covenant's output script, if the script has one.
pub fn program_address(output_script: &Vec<u8>, network: NetworkArg) -> (r: Option<String>)
    ensures
        text::optional_text(r) == address_of(output_script@, network),
{
    address_text(output_script.as_slice(), network)
}

/// The address of the output that carries the hash of a state and a randomizer.
pub fn caboose_address(state_hash: &Vec<u8>, randomizer: u32, network: NetworkArg) -> (r: String)
    ensures
        Some(r@) == address_of(witness_output(caboose(state_hash@, randomizer)), network),
        Some(r@) == address_of(
            seq![0x00u8, 0x20u8] + witness_script_hash(
                seq![0x6au8, 0x24u8] + state_hash@ + four_bytes(randomizer),
            ),
            network,
        ),
{
    let witness_script: Vec<u8> = caboose_script(state_hash, randomizer);
    let output_script: Vec<u8> = p2wsh_script(witness_script.as_slice());
    address_text(output_script.as_slice(), network).unwrap()
}

/// The number of a transaction that a text spells: sixty-four hexadecimal digits, the last byte
/// first.
pub open spec fn txid_bytes(txid: Seq<char>) -> Option<Seq<u8>> {
    if text::is_hex(txid) && txid.len() == 64 {
        Some(text::hex_bytes(txid).reverse())
    } else {
        None
    }
}

/// Reads a transaction's number from its text: thirty-two bytes in hexadecimal, the last byte
/// first.
pub fn parse_txid(txid: &str) -> (r: Option<Vec<u8>>)
    ensures
        r is Some == (text::is_hex(txid@) && txid@.len() == 64),
        r matches Some(bytes) ==> bytes@ == text::hex_bytes(txid@).reverse(),
        r matches Some(bytes) ==> bytes.len() == 32 && forall|i: int|
            0 <= i < 32 ==> #[trigger] bytes[i] == text::hex_bytes(txid@)[31 - i],
        (match r {
            None => None,
            Some(bytes) => Some(bytes@),
        }) == txid_bytes(txid@),
{
    match text::hex_decode(txid) {
        None => None,
        Some(data) => {
            if data.len() != 32 {
                return None;
            }
            let mut r: Vec<u8> = Vec::new();
            let mut i: usize = 32;
            while i > 0
                invariant
                    i <= 32,
                    data.len() == 32,
                    r.len() == 32 - i,
                    forall|j: int| 0 <= j < 32 - i ==> #[trigger] r[j] == data[31 - j],
                decreases i,
            {
                i -= 1;
                r.push(data[i]);
            }
            assert(r@ =~= data@.reverse());
            Some(r)
        },
    }
}

/// Four bytes that stand for a number spell it, the lowest first, and so do those of no other
/// number.
pub proof fn four_bytes_spell_the_number(n: u32)
    ensures
        four_bytes(n).len() == 4,
        bytes::le_number(four_bytes(n)) == n,
{
    bytes::lemma_le_number_of_four(four_bytes(n));
}

/// A caboose holds the state hash behind its two opcodes, and its last four bytes spell the
/// randomizer.
pub proof fn caboose_spells_the_randomizer(state_hash: Seq<u8>, randomizer: u32)
    ensures
        caboose(state_hash, randomizer).len() == state_hash.len() + 6,
        caboose(state_hash, randomizer)[0] == 0x6a,
        caboose(state_hash, randomizer)[1] == 0x24,
        caboose(state_hash, randomizer).subrange(2, 2 + state_hash.len() as int) == state_hash,
        bytes::le_number(
            caboose(state_hash, randomizer).subrange(
                2 + state_hash.len() as int,
                6 + state_hash.len() as int,
            ),
        ) == randomizer,
{
    let script = caboose(state_hash, randomizer);
    four_bytes_spell_the_number(randomizer);
    assert(script.subrange(2, 2 + state_hash.len() as int) =~= state_hash);
    assert(script.subrange(2 + state_hash.len() as int, 6 + state_hash.len() as int) =~= four_bytes(randomizer));
}

/// Different states or randomizers have different cabooses.
pub proof fn cabooses_differ(
    state_hash: Seq<u8>,
    randomizer: u32,
    other_hash: Seq<u8>,
    other_randomizer: u32,
)
    requires
        state_hash.len() == other_hash.len(),
        caboose(state_hash, randomizer) == caboose(other_hash, other_randomizer),
    ensures
        state_hash == other_hash,
        randomizer == other_randomizer,
{
    caboose_spells_the_randomizer(state_hash, randomizer);
    caboose_spells_the_randomizer(other_hash, other_randomizer);
}

/// A transaction's number that was written out, the last byte first, is read back.
pub proof fn written_txid_is_read_back(txid: Seq<u8>)
    requires
        txid.len() == 32,
    ensures
        txid_bytes(text::hex(txid.reverse())) == Some(txid),
{
    text::hex_is_read_back(txid.reverse());
    assert(txid.reverse().reverse() =~= txid);
}

/// Sixty-four hexadecimal digits, of either case, are read, each pair as a byte with the higher
/// digit first, and nothing else is.
pub proof fn txid_is_sixty_four_digits(txid: Seq<char>)
    ensures
        (txid_bytes(txid) is Some) == (txid.len() == 64 && forall|i: int|
            0 <= i < 64 ==> '0' <= #[trigger] txid[i] <= '9' || 'a' <= txid[i] <= 'f' || 'A'
                <= txid[i] <= 'F'),
        txid_bytes(txid) matches Some(bytes) ==> bytes.len() == 32 && forall|i: int|
            0 <= i < 32 ==> #[trigger] bytes[i] == 16 * (text::hex_value(txid[2 * (31 - i)])->0)
                + text::hex_value(txid[2 * (31 - i) + 1])->0,
{
    if txid.len() == 64 && forall|i: int|
        0 <= i < 64 ==> '0' <= #[trigger] txid[i] <= '9' || 'a' <= txid[i] <= 'f' || 'A'
            <= txid[i] <= 'F' {
        assert(text::is_hex(txid));
    }
    if let Some(bytes) = txid_bytes(txid) {
        assert forall|i: int| 0 <= i < 64 implies '0' <= #[trigger] txid[i] <= '9' || 'a'
            <= txid[i] <= 'f' || 'A' <= txid[i] <= 'F' by {
            assert(text::hex_value(txid[i]) is Some);
        }
        assert forall|i: int| 0 <= i < 32 implies #[trigger] bytes[i] == 16 * (text::hex_value(
            txid[2 * (31 - i)],
        )->0) + text::hex_value(txid[2 * (31 - i) + 1])->0 by {
            assert(text::hex_value(txid[2 * (31 - i)]) is Some);
            assert(text::hex_value(txid[2 * (31 - i) + 1]) is Some);
        }
    }
}

} // verus!
