//! Bitcoin scripts as bytes: opcodes, pushes of data and pushes of numbers.

use crate::bytes;
use vstd::prelude::*;

verus! {

pub const OP_0: u8 = 0x00;

pub const OP_PUSHBYTES_36: u8 = 0x24;

pub const OP_TRUE: u8 = 0x51;

pub const OP_VERIFY: u8 = 0x69;

pub const OP_RETURN: u8 = 0x6a;

pub const OP_TOALTSTACK: u8 = 0x6b;

pub const OP_FROMALTSTACK: u8 = 0x6c;

pub const OP_2DUP: u8 = 0x6e;

pub const OP_DEPTH: u8 = 0x74;

pub const OP_DUP: u8 = 0x76;

pub const OP_ROLL: u8 = 0x7a;

pub const OP_ROT: u8 = 0x7b;

pub const OP_SWAP: u8 = 0x7c;

pub const OP_CAT: u8 = 0x7e;

pub const OP_SIZE: u8 = 0x82;

pub const OP_AND: u8 = 0x84;

pub const OP_EQUALVERIFY: u8 = 0x88;

pub const OP_1ADD: u8 = 0x8b;

pub const OP_1SUB: u8 = 0x8c;

pub const OP_ADD: u8 = 0x93;

pub const OP_GREATERTHANOREQUAL: u8 = 0xa2;

pub const OP_SHA256: u8 = 0xa8;

/// A script.
#[derive(Clone, Debug)]
pub struct Script {
    pub bytes: Vec<u8>,
}

impl View for Script {
    type V = Seq<u8>;

    open spec fn view(&self) -> Seq<u8> {
        self.bytes@
    }
}

/// A piece of a script.
#[derive(Clone, Debug)]
pub enum Token {
    /// An opcode.
    Op(u8),
    /// A push of data.
    Push(Vec<u8>),
    /// A push of a number.
    Int(i64),
}

/// What a piece of a script holds.
#[verifier::ext_equal]
pub enum TokenView {
    Op(u8),
    Push(Seq<u8>),
    Int(int),
}

impl View for Token {
    type V = TokenView;

    open spec fn view(&self) -> TokenView {
        match *self {
            Token::Op(code) => TokenView::Op(code),
            Token::Push(data) => TokenView::Push(data@),
            Token::Int(n) => TokenView::Int(n as int),
        }
    }
}

impl DeepView for Token {
    type V = TokenView;

    open spec fn deep_view(&self) -> TokenView {
        self@
    }
}

/// The bytes that push data: the length, in the shortest of four forms, and the data.
pub open spec fn push_encoding(data: Seq<u8>) -> Seq<u8> {
    let n = data.len();
    if n < 0x4c {
        seq![n as u8] + data
    } else if n < 0x100 {
        seq![0x4cu8, n as u8] + data
    } else if n < 0x1_0000 {
        seq![0x4du8, (n % 0x100) as u8, (n / 0x100) as u8] + data
    } else {
        seq![
            0x4eu8,
            (n % 0x100) as u8,
            (n / 0x100 % 0x100) as u8,
            (n / 0x1_0000 % 0x100) as u8,
            (n / 0x100_0000) as u8,
        ] + data
    }
}

/// A number that is not negative as script data: little-endian, with room for the sign bit.
pub open spec fn script_number(n: nat) -> Seq<u8> {
    let magnitude = bytes::le_bytes(n);
    if magnitude.len() > 0 && magnitude.last() >= 0x80 {
        magnitude.push(0u8)
    } else {
        magnitude
    }
}

/// The bytes that push a number that is not negative. Zero to sixteen have opcodes of their own.
pub open spec fn int_encoding(n: int) -> Seq<u8> {
    if n == 0 {
        seq![OP_0]
    } else if n <= 16 {
        seq![(0x50 + n) as u8]
    } else {
        push_encoding(script_number(n as nat))
    }
}

/// The bytes of a piece of a script.
pub open spec fn encoding(token: TokenView) -> Seq<u8> {
    match token {
        TokenView::Op(code) => seq![code],
        TokenView::Push(data) => push_encoding(data),
        TokenView::Int(n) => int_encoding(n),
    }
}

/// The bytes of a script, piece after piece.
pub open spec fn assembled(tokens: Seq<TokenView>) -> Seq<u8>
    decreases tokens.len(),
{
    if tokens.len() == 0 {
        Seq::empty()
    } else {
        assembled(tokens.drop_last()) + encoding(tokens.last())
    }
}

/// A piece that a script can hold: data of less than four gibibytes, a number that is not
/// negative.
pub open spec fn encodable(token: TokenView) -> bool {
    match token {
        TokenView::Op(code) => true,
        TokenView::Push(data) => data.len() < 0x1_0000_0000,
        TokenView::Int(n) => n >= 0,
    }
}

/// A script that is put together from two parts has the bytes of the first and then those of the
/// second.
pub proof fn assembled_in_parts(first: Seq<TokenView>, second: Seq<TokenView>)
    ensures
        assembled(first + second) == assembled(first) + assembled(second),
    decreases second.len(),
{
    if second.len() == 0 {
        assert(first + second =~= first);
        assert(assembled(first) + assembled(second) =~= assembled(first));
    } else {
        assembled_in_parts(first, second.drop_last());
        assert((first + second).drop_last() =~= first + second.drop_last());
        assert(assembled(first) + (assembled(second.drop_last()) + encoding(second.last()))
            =~= (assembled(first) + assembled(second.drop_last())) + encoding(second.last()));
    }
}

/// Pushes data onto an empty script: `bitcoin`'s `ScriptBuf::push_slice`.
///
/// The contract claims that the script is then the length of the data, in the shortest of the
/// four forms of a push, followed by the data. The conversion to `PushBytes` refuses data of four
/// gibibytes and more.
#[verifier::external_body]
fn push_slice(data: &[u8]) -> (r: Vec<u8>)
    requires
        data@.len() < 0x1_0000_0000,
    ensures
        r@ == push_encoding(data@),
{
    let mut script = bitcoin::ScriptBuf::new();
    script.push_slice(<&bitcoin::script::PushBytes>::try_from(data).unwrap());
    script.into_bytes()
}

/// Pushes a number onto an empty script: `bitcoin`'s `Builder::push_int`.
///
/// The contract claims, of a number that is not negative, that zero to sixteen become one opcode
/// and that any other number becomes a push of its shortest script spelling.
#[verifier::external_body]
fn push_int(n: i64) -> (r: Vec<u8>)
    requires
        n >= 0,
    ensures
        r@ == int_encoding(n as int),
{
    bitcoin::script::Builder::new().push_int(n).into_bytes()
}

/// Puts a script together.
pub fn assemble(tokens: &Vec<Token>) -> (r: Script)
    requires
        forall|i: int| 0 <= i < tokens.len() ==> encodable(#[trigger] tokens[i]@),
    ensures
        r@ == assembled(tokens.deep_view()),
{
    let mut code: Vec<u8> = Vec::new();
    let mut i: usize = 0;
    while i < tokens.len()
        invariant
            i <= tokens.len(),
            forall|i: int| 0 <= i < tokens.len() ==> encodable(#[trigger] tokens[i]@),
            code@ == assembled(tokens.deep_view().take(i as int)),
        decreases tokens.len() - i,
    {
        let ghost done = tokens.deep_view().take(i as int);
        let ghost next = tokens.deep_view().take(i + 1);
        assert(next.drop_last() =~= done);
        assert(next.last() == tokens[i as int]@);
        assert(encodable(tokens[i as int]@));
        match &tokens[i] {
            Token::Op(op) => {
                code.push(*op);
                assert(code@ =~= assembled(done) + encoding(next.last()));
            },
            Token::Push(data) => {
                code.extend_from_slice(push_slice(data.as_slice()).as_slice());
            },
            Token::Int(n) => {
                code.extend_from_slice(push_int(*n).as_slice());
            },
        }
        i += 1;
    }
    assert(tokens.deep_view().take(tokens.len() as int) =~= tokens.deep_view());
    Script { bytes: code }
}

/// A script of one piece has the bytes of that piece: an opcode's byte, a push of data, or a push of
/// a number.
pub proof fn one_piece_is_assembled(code: u8, data: Seq<u8>, n: int)
    ensures
        assembled(Seq::empty()) == Seq::<u8>::empty(),
        assembled(seq![TokenView::Op(code)]) == seq![code],
        assembled(seq![TokenView::Push(data)]) == push_encoding(data),
        assembled(seq![TokenView::Int(n)]) == int_encoding(n),
{
    let none = Seq::<TokenView>::empty();
    assert(assembled(none) =~= Seq::<u8>::empty());
    assert(seq![TokenView::Op(code)].drop_last() =~= none);
    assert(seq![TokenView::Push(data)].drop_last() =~= none);
    assert(seq![TokenView::Int(n)].drop_last() =~= none);
    assert(assembled(seq![TokenView::Op(code)]) =~= seq![code]);
    assert(assembled(seq![TokenView::Push(data)]) =~= push_encoding(data));
    assert(assembled(seq![TokenView::Int(n)]) =~= int_encoding(n));
}

/// Script data for a number spells the number, with the sign bit clear.
pub proof fn script_number_spells_the_number(n: nat)
    ensures
        bytes::le_number(script_number(n)) == n,
        script_number(n).len() > 0 ==> script_number(n).last() < 0x80,
{
    bytes::le_number_undoes_le_bytes(n);
    let magnitude = bytes::le_bytes(n);
    bytes::lemma_le_number_of_padded(magnitude, 1);
    assert(magnitude + Seq::new(1, |i: int| 0u8) =~= magnitude.push(0u8));
}

/// Scripts and pieces of scripts show what they hold.
pub proof fn scripts_show_what_they_hold(script: Script, code: u8, data: Vec<u8>, n: i64)
    ensures
        script@ == script.bytes@,
        Token::Op(code)@ == TokenView::Op(code),
        Token::Push(data)@ == TokenView::Push(data@),
        Token::Int(n)@ == TokenView::Int(n as int),
{
}

/// A push is the data behind its length: the length is a byte below 0x4c, or is spelled by one, two
/// or four bytes behind 0x4c, 0x4d or 0x4e, with no form longer than the length needs.
pub proof fn push_spells_its_length(data: Seq<u8>)
    requires
        data.len() < 0x1_0000_0000,
    ensures
        ({
            let code = push_encoding(data);
            let width = if code[0] == 0x4c {
                1int
            } else if code[0] == 0x4d {
                2
            } else if code[0] == 0x4e {
                4
            } else {
                0
            };
            &&& code.len() == 1 + width + data.len()
            &&& code.skip(1 + width) == data
            &&& code[0] <= 0x4e
            &&& width == 0 ==> code[0] == data.len()
            &&& width > 0 ==> bytes::le_number(code.subrange(1, 1 + width)) == data.len()
            &&& width == 1 ==> data.len() >= 0x4c
            &&& width == 2 ==> data.len() >= 0x100
            &&& width == 4 ==> data.len() >= 0x1_0000
        }),
{
    let code = push_encoding(data);
    let n = data.len();
    if n < 0x4c {
        assert(code.skip(1) =~= data);
    } else if n < 0x100 {
        assert(code.skip(2) =~= data);
        let spelled = code.subrange(1, 2);
        assert(spelled.skip(1) =~= Seq::<u8>::empty());
        assert(bytes::le_number(spelled.skip(1)) == 0);
    } else if n < 0x1_0000 {
        assert(code.skip(3) =~= data);
        let spelled = code.subrange(1, 3);
        assert(spelled.skip(1).skip(1) =~= Seq::<u8>::empty());
        assert(bytes::le_number(spelled.skip(1).skip(1)) == 0);
        assert(bytes::le_number(spelled.skip(1)) == spelled[1]);
    } else {
        assert(code.skip(5) =~= data);
        bytes::lemma_le_number_of_four(code.subrange(1, 5));
    }
}

/// A number below seventeen is pushed by one opcode, and any other by a push of data that spells it
/// with the sign bit clear.
pub proof fn number_pushes(n: int)
    requires
        n >= 0,
    ensures
        n == 0 ==> int_encoding(n) == seq![0x00u8],
        1 <= n <= 16 ==> int_encoding(n).len() == 1 && int_encoding(n)[0] == 0x50 + n,
        n > 16 ==> exists|data: Seq<u8>|
            #![trigger push_encoding(data)]
            int_encoding(n) == push_encoding(data) && bytes::le_number(data) == n && data.len() > 0
                && data.last() < 0x80 && (data.last() == 0 ==> data.len() > 1 && data[data.len()
                - 2] >= 0x80),
{
    if n > 16 {
        let data = script_number(n as nat);
        script_number_spells_the_number(n as nat);
        bytes::le_number_undoes_le_bytes(n as nat);
        assert(bytes::le_number(Seq::<u8>::empty()) == 0);
        assert(int_encoding(n) == push_encoding(data));
        bytes::le_bytes_is_minimal(n as nat);
    }
}

} // verus!
