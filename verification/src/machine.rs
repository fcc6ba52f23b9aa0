//! What scripts do: a model of the script interpreter for the opcodes that this library uses.
//!
//! Strings are unbounded, and a number is read and left as an unsigned little-endian string, the
//! shortest where it is left.

use crate::bytes;
use crate::hash;
use crate::script;
use crate::script::TokenView;
use vstd::prelude::*;

verus! {

/// The two stacks, each with its top at the end.
#[verifier::ext_equal]
pub struct Machine {
    pub stack: Seq<Seq<u8>>,
    pub alt: Seq<Seq<u8>>,
}

impl Machine {
    /// The same machine with another main stack.
    pub open spec fn with(self, stack: Seq<Seq<u8>>) -> Machine {
        Machine { stack, alt: self.alt }
    }
}

/// The element under the top.
pub open spec fn second(s: Seq<Seq<u8>>) -> Seq<u8> {
    s.drop_last().last()
}

/// The stack under the two top elements.
pub open spec fn below_two(s: Seq<Seq<u8>>) -> Seq<Seq<u8>> {
    s.drop_last().drop_last()
}

/// The bitwise conjunction of two strings of one length.
pub open spec fn bitwise_and(x: Seq<u8>, y: Seq<u8>) -> Seq<u8> {
    Seq::new(x.len(), |i: int| x[i] & y[i])
}

/// The string that a comparison leaves.
pub open spec fn truth(b: bool) -> Seq<u8> {
    if b {
        seq![1u8]
    } else {
        Seq::empty()
    }
}

/// Moves the element that has `n` elements above it to the top.
pub open spec fn rolled(s: Seq<Seq<u8>>, n: int) -> Seq<Seq<u8>> {
    let i = s.len() - 1 - n;
    s.remove(i).push(s[i])
}

/// What an opcode does, or `None` where it fails.
pub open spec fn step_op(code: u8, m: Machine) -> Option<Machine> {
    let s = m.stack;
    if code == script::OP_0 {
        Some(m.with(s.push(Seq::empty())))
    } else if code == script::OP_TRUE {
        Some(m.with(s.push(truth(true))))
    } else if code == script::OP_DEPTH {
        Some(m.with(s.push(bytes::le_bytes(s.len()))))
    } else if code == script::OP_FROMALTSTACK {
        if m.alt.len() < 1 {
            None
        } else {
            Some(Machine { stack: s.push(m.alt.last()), alt: m.alt.drop_last() })
        }
    } else if s.len() < 1 {
        None
    } else if code == script::OP_TOALTSTACK {
        Some(Machine { stack: s.drop_last(), alt: m.alt.push(s.last()) })
    } else if code == script::OP_DUP {
        Some(m.with(s.push(s.last())))
    } else if code == script::OP_SIZE {
        Some(m.with(s.push(bytes::le_bytes(s.last().len()))))
    } else if code == script::OP_SHA256 {
        Some(m.with(s.drop_last().push(hash::sha256_digest(s.last()))))
    } else if code == script::OP_1ADD {
        Some(m.with(s.drop_last().push(bytes::le_bytes(bytes::le_number(s.last()) + 1))))
    } else if code == script::OP_1SUB {
        if bytes::le_number(s.last()) < 1 {
            None
        } else {
            Some(
                m.with(
                    s.drop_last().push(bytes::le_bytes((bytes::le_number(s.last()) - 1) as nat)),
                ),
            )
        }
    } else if code == script::OP_VERIFY {
        if bytes::le_number(s.last()) == 0 {
            None
        } else {
            Some(m.with(s.drop_last()))
        }
    } else if code == script::OP_ROLL {
        let n = bytes::le_number(s.last());
        if n + 1 >= s.len() {
            None
        } else {
            Some(m.with(rolled(s.drop_last(), n as int)))
        }
    } else if s.len() < 2 {
        None
    } else if code == script::OP_2DUP {
        Some(m.with(s.push(second(s)).push(s.last())))
    } else if code == script::OP_SWAP {
        Some(m.with(below_two(s).push(s.last()).push(second(s))))
    } else if code == script::OP_CAT {
        Some(m.with(below_two(s).push(second(s) + s.last())))
    } else if code == script::OP_AND {
        if second(s).len() != s.last().len() {
            None
        } else {
            Some(m.with(below_two(s).push(bitwise_and(second(s), s.last()))))
        }
    } else if code == script::OP_ADD {
        Some(
            m.with(
                below_two(s).push(
                    bytes::le_bytes(bytes::le_number(second(s)) + bytes::le_number(s.last())),
                ),
            ),
        )
    } else if code == script::OP_GREATERTHANOREQUAL {
        Some(
            m.with(
                below_two(s).push(
                    truth(bytes::le_number(second(s)) >= bytes::le_number(s.last())),
                ),
            ),
        )
    } else if code == script::OP_EQUALVERIFY {
        if second(s) != s.last() {
            None
        } else {
            Some(m.with(below_two(s)))
        }
    } else if s.len() < 3 {
        None
    } else if code == script::OP_ROT {
        Some(
            m.with(
                below_two(s).drop_last().push(second(s)).push(s.last()).push(below_two(s).last()),
            ),
        )
    } else {
        None
    }
}

/// What a piece of a script does, or `None` where it fails.
pub open spec fn step(token: TokenView, m: Machine) -> Option<Machine> {
    match token {
        TokenView::Op(code) => step_op(code, m),
        TokenView::Push(data) => Some(m.with(m.stack.push(data))),
        TokenView::Int(n) => Some(m.with(m.stack.push(script::script_number(n as nat)))),
    }
}

/// Goes on with a piece of a script where what came before it has not failed.
pub open spec fn step_after(before: Option<Machine>, token: TokenView) -> Option<Machine> {
    match before {
        None => None,
        Some(m) => step(token, m),
    }
}

/// What a script does, or `None` where it fails.
pub open spec fn run(tokens: Seq<TokenView>, m: Machine) -> Option<Machine>
    decreases tokens.len(),
{
    if tokens.len() == 0 {
        Some(m)
    } else {
        step_after(run(tokens.drop_last(), m), tokens.last())
    }
}

/// Goes on with a script where what came before it has not failed.
pub open spec fn run_after(before: Option<Machine>, tokens: Seq<TokenView>) -> Option<Machine> {
    match before {
        None => None,
        Some(m) => run(tokens, m),
    }
}

/// A script that is put together from two parts does what the first does and then what the second
/// does.
pub proof fn running_in_parts(first: Seq<TokenView>, second: Seq<TokenView>, m: Machine)
    ensures
        run(first + second, m) == run_after(run(first, m), second),
    decreases second.len(),
{
    if second.len() == 0 {
        assert(first + second =~= first);
    } else {
        running_in_parts(first, second.drop_last(), m);
        assert((first + second).drop_last() =~= first + second.drop_last());
    }
}

/// A run of pushes leaves the data on the stack, in order.
pub proof fn pushes_leave_their_data(data: Seq<Seq<u8>>, m: Machine)
    ensures
        run(data.map_values(|d: Seq<u8>| TokenView::Push(d)), m) == Some(m.with(m.stack + data)),
    decreases data.len(),
{
    let tokens = data.map_values(|d: Seq<u8>| TokenView::Push(d));
    if data.len() == 0 {
        assert(m.stack + data =~= m.stack);
    } else {
        pushes_leave_their_data(data.drop_last(), m);
        assert(tokens.drop_last() =~= data.drop_last().map_values(
            |d: Seq<u8>| TokenView::Push(d),
        ));
        assert((m.stack + data.drop_last()).push(data.last()) =~= m.stack + data);
    }
}

/// One more piece runs after the others.
pub broadcast proof fn lemma_run_push(tokens: Seq<TokenView>, token: TokenView, m: Machine)
    ensures
        #[trigger] run(tokens.push(token), m) == step_after(run(tokens, m), token),
{
    assert(tokens.push(token).drop_last() =~= tokens);
}

/// Taking off what was put on leaves what was there.
pub broadcast proof fn lemma_push_pop(s: Seq<Seq<u8>>, x: Seq<u8>)
    ensures
        #[trigger] s.push(x).drop_last() == s,
{
    assert(s.push(x).drop_last() =~= s);
}

/// The three opcodes that bring the bottom of the stack to its top.
pub open spec fn hint_tokens() -> Seq<TokenView> {
    seq![
        TokenView::Op(script::OP_DEPTH),
        TokenView::Op(script::OP_1SUB),
        TokenView::Op(script::OP_ROLL),
    ]
}

/// Taking a hint moves the bottom of the stack to its top.
pub proof fn hint_comes_from_the_bottom(hint: Seq<u8>, rest: Seq<Seq<u8>>, alt: Seq<Seq<u8>>)
    ensures
        run(hint_tokens(), Machine { stack: seq![hint] + rest, alt }) == Some(
            Machine { stack: rest.push(hint), alt },
        ),
{
    broadcast use {lemma_run_push, lemma_push_pop};

    let s = seq![hint] + rest;
    let m = Machine { stack: s, alt };
    bytes::le_number_undoes_le_bytes(s.len());
    bytes::le_number_undoes_le_bytes((s.len() - 1) as nat);
    assert(hint_tokens() =~= Seq::<TokenView>::empty().push(
        TokenView::Op(script::OP_DEPTH),
    ).push(TokenView::Op(script::OP_1SUB)).push(TokenView::Op(script::OP_ROLL)));
    assert(run(Seq::<TokenView>::empty(), m) == Some(m));
    assert(rolled(s, s.len() - 1) =~= rest.push(hint));
}

} // verus!
