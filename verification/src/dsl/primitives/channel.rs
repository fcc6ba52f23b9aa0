//! The Fiat-Shamir channel over variables.

use super::cm31::CM31Var;
use super::m31::{trim_step, M31Var, Wire};
use super::qm31::QM31Var;
use super::strings::{
    cat_step, equal_check_step, len_check_step, new_string_step, string_wires, HashVar, StrVar,
    StringWire,
};
use crate::bytes;
use crate::channel;
use crate::channel::{DrawHints, Sha256Channel};
use crate::constraint_system::{
    chunk_m31, gadget_holds, lemma_check_in_force, lemma_gadget_in_force, lemma_script_keeps_wf,
    gadget_entries_of_two, lemma_two_outputs_in_force, outputs_are_recorded, stack_element,
    values_at, AllocationMode, ConstraintSystem, ConstraintSystemView, Element, ElementView,
    Gadget, TraceEntryView,
};
use crate::hash;
use crate::machine;
use crate::machine::Machine;
use crate::script;
use crate::script::{Script, Token, TokenView};
use vstd::arithmetic::power2::pow2;
use vstd::prelude::*;

verus! {

/// What a list of field variables holds.
pub open spec fn wires(list: Seq<M31Var>) -> Seq<Wire> {
    list.map_values(|v: M31Var| v@)
}

/// The values of a list of wires.
pub open spec fn wire_values(list: Seq<Wire>) -> Seq<int> {
    list.map_values(|w: Wire| w.value)
}

/// The values of a list of string wires.
pub open spec fn string_values(list: Seq<StringWire>) -> Seq<Seq<u8>> {
    list.map_values(|w: StringWire| w.value)
}

/// Every wire is valid.
pub open spec fn all_valid_in(list: Seq<Wire>, cs: ConstraintSystemView) -> bool {
    forall|i: int| 0 <= i < list.len() ==> (#[trigger] list[i]).valid_in(cs)
}

/// Every string wire is valid.
pub open spec fn all_strings_valid_in(list: Seq<StringWire>, cs: ConstraintSystemView) -> bool {
    forall|i: int| 0 <= i < list.len() ==> (#[trigger] list[i]).valid_in(cs)
}

/// Drawing a digest: the new digest of the channel and the drawn digest.
pub open spec fn draw_digest_step(cs: ConstraintSystemView, digest: StringWire) -> (
    ConstraintSystemView,
    StringWire,
    StringWire,
) {
    let next = channel::next_digest(digest.value);
    let drawn = channel::drawn_digest(digest.value);
    let n = cs.memory.len() as int;
    (
        cs.emit_two(
            Gadget::DrawDigest,
            seq![digest.variable],
            ElementView::Str(next),
            ElementView::Str(drawn),
        ),
        StringWire { variable: n, value: next },
        StringWire { variable: n + 1, value: drawn },
    )
}

/// Reading a chunk: the field element that it stands for and the chunk again.
pub open spec fn reconstruct_step(cs: ConstraintSystemView, chunk: StringWire) -> (
    ConstraintSystemView,
    Wire,
    StringWire,
) {
    let value = chunk_m31(chunk.value);
    let n = cs.memory.len() as int;
    (
        cs.emit_two(
            Gadget::ReconstructForChannelDraw,
            seq![chunk.variable],
            ElementView::Str(chunk.value),
            ElementView::Num(value),
        ),
        Wire { variable: n + 1, value },
        StringWire { variable: n, value: chunk.value },
    )
}

/// Reading one chunk of a digest and adding it to the chunks before it, if there are any.
pub open spec fn unpack_chunk_step(
    cs: ConstraintSystemView,
    joined: Option<StringWire>,
    chunk: StringWire,
) -> (ConstraintSystemView, Wire, StringWire) {
    let cs1 = len_check_step(cs, chunk, 4);
    let (cs2, element, again) = reconstruct_step(cs1, chunk);
    match joined {
        None => (cs2, element, again),
        Some(before) => {
            let (cs3, longer) = cat_step(cs2, before, again);
            (cs3, element, longer)
        },
    }
}

/// Reading chunks of a digest, one after the other.
pub open spec fn unpack_chunks_step(cs: ConstraintSystemView, chunks: Seq<StringWire>) -> (
    ConstraintSystemView,
    Seq<Wire>,
    Option<StringWire>,
)
    decreases chunks.len(),
{
    if chunks.len() == 0 {
        (cs, Seq::empty(), None)
    } else {
        let (cs1, elements, joined) = unpack_chunks_step(cs, chunks.drop_last());
        let (cs2, element, longer) = unpack_chunk_step(cs1, joined, chunks.last());
        (cs2, elements.push(element), Some(longer))
    }
}

/// Reading `n` field elements from a digest. The hints are the chunks and, where there is more to
/// the digest, the rest of it.
pub open spec fn unpack_step(
    cs: ConstraintSystemView,
    digest: StringWire,
    n: int,
    hints: Seq<StringWire>,
) -> (ConstraintSystemView, Seq<Wire>) {
    let (cs1, elements, joined) = unpack_chunks_step(cs, hints.take(n));
    if n != 8 {
        let (cs2, whole) = cat_step(cs1, joined->0, hints.last());
        (equal_check_step(cs2, digest, whole), elements)
    } else {
        (equal_check_step(cs1, digest, joined->0), elements)
    }
}

/// Allocating strings as hints, one after the other.
pub open spec fn hints_step(cs: ConstraintSystemView, data: Seq<Seq<u8>>) -> (
    ConstraintSystemView,
    Seq<StringWire>,
)
    decreases data.len(),
{
    if data.len() == 0 {
        (cs, Seq::empty())
    } else {
        let (cs1, before) = hints_step(cs, data.drop_last());
        let (cs2, hint) = new_string_step(cs1, data.last(), AllocationMode::Hint);
        (cs2, before.push(hint))
    }
}

/// The strings that a draw hands over: the chunks and the rest, unless that is empty.
pub open spec fn hint_strings(chunks: Seq<Seq<u8>>, rest: Seq<u8>) -> Seq<Seq<u8>> {
    if rest.len() == 0 {
        chunks
    } else {
        chunks.push(rest)
    }
}

/// Drawing at most eight field elements.
pub open spec fn draw_step(cs: ConstraintSystemView, digest: StringWire, n: int) -> (
    ConstraintSystemView,
    StringWire,
    Seq<Wire>,
) {
    let (cs1, next, drawn) = draw_digest_step(cs, digest);
    let data = hint_strings(channel::chunks(drawn.value, n as nat), drawn.value.skip(4 * n));
    let (cs2, hints) = hints_step(cs1, data);
    let (cs3, elements) = unpack_step(cs2, drawn, n, hints);
    (cs3, next, elements)
}

/// Drawing field elements, eight at a time.
pub open spec fn draw_many_step(cs: ConstraintSystemView, digest: StringWire, n: nat) -> (
    ConstraintSystemView,
    StringWire,
    Seq<Wire>,
)
    decreases n,
{
    if n == 0 {
        (cs, digest, Seq::empty())
    } else if n <= 8 {
        draw_step(cs, digest, n as int)
    } else {
        let (cs1, next, first) = draw_step(cs, digest, 8);
        let (cs2, last, others) = draw_many_step(cs1, next, (n - 8) as nat);
        (cs2, last, first + others)
    }
}

/// Keeping the low bits of field elements, one after the other.
pub open spec fn trim_all_step(cs: ConstraintSystemView, elements: Seq<Wire>, logn: usize) -> (
    ConstraintSystemView,
    Seq<Wire>,
)
    decreases elements.len(),
{
    if elements.len() == 0 {
        (cs, Seq::empty())
    } else {
        let (cs1, before) = trim_all_step(cs, elements.drop_last(), logn);
        let (cs2, trimmed) = trim_step(cs1, elements.last(), logn);
        (cs2, before.push(trimmed))
    }
}

/// Drawing numbers of `logn` bits.
pub open spec fn draw_numbers_step(
    cs: ConstraintSystemView,
    digest: StringWire,
    n: nat,
    logn: usize,
) -> (ConstraintSystemView, StringWire, Seq<Wire>) {
    let (cs1, next, elements) = draw_many_step(cs, digest, n);
    let (cs2, numbers) = trim_all_step(cs1, elements, logn);
    (cs2, next, numbers)
}

/// The channel's operations on a string that holds a chunk of a digest.
pub trait StrVarWithChannel {
    /// The variable's number and value.
    spec fn chunk_wire(&self) -> StringWire;

    /// Reads a chunk of at most four bytes: the field element that it stands for, which are its
    /// low 31 bits, and the chunk again.
    fn reconstruct_for_channel_draw(&self, cs: &mut ConstraintSystem) -> (r: (M31Var, StrVar))
        requires
            old(cs)@.wf(),
            self.chunk_wire().valid_in(old(cs)@),
            self.chunk_wire().value.len() <= 4,
        ensures
            (final(cs)@, r.0@, r.1@) == reconstruct_step(old(cs)@, self.chunk_wire()),
            final(cs)@.wf(),
            final(cs)@.extends(old(cs)@),
            r.0@.valid_in(final(cs)@),
            r.1@.valid_in(final(cs)@),
    ;
}

impl StrVarWithChannel for StrVar {
    open spec fn chunk_wire(&self) -> StringWire {
        self@
    }

    fn reconstruct_for_channel_draw(&self, cs: &mut ConstraintSystem) -> (r: (M31Var, StrVar)) {
        let ghost before = cs@;
        let gadget = Gadget::ReconstructForChannelDraw;
        let value: u32 = channel::chunk_to_m31(self.value.as_slice());
        let inputs: Vec<usize> = vec![self.variable];
        let ghost ins = seq![self@.variable];
        assert(inputs@.map_values(|v: usize| v as int) =~= ins);
        cs.insert_script(gadget, inputs);
        let chunk: usize = cs.allocate(
            Element::Str(self.value.clone()),
            AllocationMode::FunctionOutput,
        );
        let element: usize = cs.allocate(
            Element::Num(value as i32),
            AllocationMode::FunctionOutput,
        );
        proof {
            let outs = seq![ElementView::Str(self.value@), ElementView::Num(value as int)];
            assert(gadget_holds(gadget, values_at(before.memory, ins), outs));
            lemma_script_keeps_wf(before, gadget, ins, outs, cs@);
        }
        (
            M31Var { variable: element, value },
            StrVar { variable: chunk, value: self.value.clone() },
        )
    }
}

/// Allocates what a draw hands over as hints.
pub fn draw_hints_to_str_vars(cs: &mut ConstraintSystem, hint: DrawHints) -> (r: Vec<StrVar>)
    requires
        old(cs)@.wf(),
    ensures
        (final(cs)@, string_wires(r@)) == hints_step(
            old(cs)@,
            hint_strings(bytes::strings(hint.0@), hint.1@),
        ),
        final(cs)@.wf(),
        final(cs)@.extends(old(cs)@),
        all_strings_valid_in(string_wires(r@), final(cs)@),
        string_values(string_wires(r@)) == hint_strings(bytes::strings(hint.0@), hint.1@),
{
    let ghost start = cs@;
    let ghost data = bytes::strings(hint.0@);
    let mut new_hints: Vec<StrVar> = Vec::new();
    let mut i: usize = 0;
    while i < hint.0.len()
        invariant
            i <= hint.0.len(),
            data == bytes::strings(hint.0@),
            new_hints.len() == i,
            (cs@, string_wires(new_hints@)) == hints_step(start, data.take(i as int)),
            cs@.wf(),
            cs@.extends(start),
            all_strings_valid_in(string_wires(new_hints@), cs@),
            string_values(string_wires(new_hints@)) == data.take(i as int),
        decreases hint.0.len() - i,
    {
        let ghost before = string_wires(new_hints@);
        let new_hint = StrVar::new_variable(cs, hint.0[i].clone(), AllocationMode::Hint);
        new_hints.push(new_hint);
        i += 1;
        assert(data.take(i as int).drop_last() =~= data.take(i - 1));
        assert(string_wires(new_hints@) =~= before.push(new_hint@));
        assert(string_values(string_wires(new_hints@)) =~= data.take(i as int));
    }
    assert(data.take(data.len() as int) =~= data);
    if hint.1.len() != 0 {
        let ghost before = string_wires(new_hints@);
        let new_hint = StrVar::new_variable(cs, hint.1, AllocationMode::Hint);
        new_hints.push(new_hint);
        assert(data.push(hint.1@).drop_last() =~= data);
        assert(string_wires(new_hints@) =~= before.push(new_hint@));
        assert(string_values(string_wires(new_hints@)) =~= data.push(hint.1@));
    }
    new_hints
}

/// A variable that a loop may not have set yet.
pub open spec fn optional_wire(joined: Option<StrVar>) -> Option<StringWire> {
    match joined {
        None => None,
        Some(s) => Some(s@),
    }
}

/// The channel's operations on its digest.
pub trait HashVarWithChannel {
    /// The variable's number and value.
    spec fn digest_wire(&self) -> StringWire;

    /// Advances the channel and returns the digest to draw from.
    fn draw_digest(&mut self, cs: &mut ConstraintSystem) -> (r: HashVar)
        requires
            old(cs)@.wf(),
            old(self).digest_wire().valid_in(old(cs)@),
        ensures
            (final(cs)@, final(self).digest_wire(), r@) == draw_digest_step(
                old(cs)@,
                old(self).digest_wire(),
            ),
            final(cs)@.wf(),
            final(cs)@.extends(old(cs)@),
            final(self).digest_wire().valid_in(final(cs)@),
            r@.valid_in(final(cs)@),
            final(self).digest_wire().value.len() == 32,
            r@.value.len() == 32,
    ;

    /// Reads `n` field elements from a digest, four bytes for each. The hints are the chunks and,
    /// for fewer than eight elements, the rest of the digest.
    fn unpack_multi_m31(&self, n: usize, hints: &Vec<StrVar>, cs: &mut ConstraintSystem) -> (r:
        Vec<M31Var>)
        requires
            old(cs)@.wf(),
            self.digest_wire().valid_in(old(cs)@),
            1 <= n <= 8,
            hints.len() == (if n == 8 {
                8
            } else {
                n + 1
            }),
            all_strings_valid_in(string_wires(hints@), old(cs)@),
            forall|i: int| 0 <= i < n ==> (#[trigger] hints[i]).value@.len() <= 4,
            channel::concatenation(string_values(string_wires(hints@)))
                == self.digest_wire().value,
        ensures
            (final(cs)@, wires(r@)) == unpack_step(
                old(cs)@,
                self.digest_wire(),
                n as int,
                string_wires(hints@),
            ),
            final(cs)@.wf(),
            final(cs)@.extends(old(cs)@),
            all_valid_in(wires(r@), final(cs)@),
            wire_values(wires(r@)) == Seq::new(n as nat, |i: int| chunk_m31(hints[i].value@)),
    ;

    /// Draws field elements, eight at a time.
    fn draw_many_m31(&mut self, n: usize, cs: &mut ConstraintSystem) -> (r: Vec<M31Var>)
        requires
            old(cs)@.wf(),
            old(self).digest_wire().valid_in(old(cs)@),
            n == 0 || old(self).digest_wire().value.len() == 32,
        ensures
            (final(cs)@, final(self).digest_wire(), wires(r@)) == draw_many_step(
                old(cs)@,
                old(self).digest_wire(),
                n as nat,
            ),
            final(cs)@.wf(),
            final(cs)@.extends(old(cs)@),
            final(self).digest_wire().valid_in(final(cs)@),
            final(self).digest_wire().value == channel::digest_after(
                old(self).digest_wire().value,
                n as nat,
            ),
            n > 0 ==> final(self).digest_wire().value.len() == 32,
            all_valid_in(wires(r@), final(cs)@),
            wire_values(wires(r@)) == channel::drawn_values(
                old(self).digest_wire().value,
                n as nat,
            ),
    ;

    /// Draws a secure field element.
    fn draw_felt(&mut self, cs: &mut ConstraintSystem) -> (r: QM31Var)
        requires
            old(cs)@.wf(),
            old(self).digest_wire().valid_in(old(cs)@),
            old(self).digest_wire().value.len() == 32,
        ensures
            (final(cs)@, final(self).digest_wire(), wires(
                seq![r.first.real, r.first.imag, r.second.real, r.second.imag],
            )) == draw_many_step(old(cs)@, old(self).digest_wire(), 4),
            final(cs)@.wf(),
            final(cs)@.extends(old(cs)@),
            final(self).digest_wire().valid_in(final(cs)@),
            final(self).digest_wire().value == channel::next_digest(
                old(self).digest_wire().value,
            ),
            final(self).digest_wire().value.len() == 32,
            r.first@.valid_in(final(cs)@),
            r.second@.valid_in(final(cs)@),
            seq![
                r.first.real.value as int,
                r.first.imag.value as int,
                r.second.real.value as int,
                r.second.imag.value as int,
            ] == channel::chunk_values(
                channel::drawn_digest(old(self).digest_wire().value),
                4,
            ),
    ;

    /// Draws numbers of `logn` bits.
    fn draw_numbers(&mut self, n: usize, logn: usize, cs: &mut ConstraintSystem) -> (r: Vec<M31Var>)
        requires
            old(cs)@.wf(),
            old(self).digest_wire().valid_in(old(cs)@),
            n == 0 || old(self).digest_wire().value.len() == 32,
            logn < 32,
        ensures
            (final(cs)@, final(self).digest_wire(), wires(r@)) == draw_numbers_step(
                old(cs)@,
                old(self).digest_wire(),
                n as nat,
                logn,
            ),
            final(cs)@.wf(),
            final(cs)@.extends(old(cs)@),
            final(self).digest_wire().valid_in(final(cs)@),
            final(self).digest_wire().value == channel::digest_after(
                old(self).digest_wire().value,
                n as nat,
            ),
            n > 0 ==> final(self).digest_wire().value.len() == 32,
            all_valid_in(wires(r@), final(cs)@),
            wire_values(wires(r@)) == channel::drawn_values(
                old(self).digest_wire().value,
                n as nat,
            ).map_values(|v: int| v % (pow2(logn as nat) as int)),
    ;
}

impl HashVarWithChannel for HashVar {
    open spec fn digest_wire(&self) -> StringWire {
        self@
    }

    fn draw_digest(&mut self, cs: &mut ConstraintSystem) -> (r: HashVar) {
        let ghost before = cs@;
        let ghost digest = self@;
        let mut message: Vec<u8> = self.value.clone();
        message.push(0);
        let drawn: Vec<u8> = hash::sha256(message.as_slice());
        let next: Vec<u8> = hash::sha256(self.value.as_slice());

        let inputs: Vec<usize> = vec![self.variable];
        let ghost ins = seq![digest.variable];
        assert(inputs@.map_values(|v: usize| v as int) =~= ins);
        cs.insert_script(Gadget::DrawDigest, inputs);
        let next_variable: usize = cs.allocate(
            Element::Str(next.clone()),
            AllocationMode::FunctionOutput,
        );
        let drawn_variable: usize = cs.allocate(
            Element::Str(drawn.clone()),
            AllocationMode::FunctionOutput,
        );
        proof {
            let outs = seq![ElementView::Str(next@), ElementView::Str(drawn@)];
            assert(gadget_holds(Gadget::DrawDigest, values_at(before.memory, ins), outs));
            lemma_script_keeps_wf(before, Gadget::DrawDigest, ins, outs, cs@);
        }
        *self = HashVar { variable: next_variable, value: next };
        HashVar { variable: drawn_variable, value: drawn }
    }

    fn unpack_multi_m31(&self, n: usize, hints: &Vec<StrVar>, cs: &mut ConstraintSystem) -> (r:
        Vec<M31Var>) {
        let ghost start = cs@;
        let ghost chunks = string_wires(hints@);
        let mut m31: Vec<M31Var> = Vec::new();
        let mut joined: Option<StrVar> = None;
        let mut i: usize = 0;
        while i < n
            invariant
                i <= n,
                1 <= n <= 8,
                n <= hints.len(),
                chunks == string_wires(hints@),
                start.wf(),
                all_strings_valid_in(chunks, start),
                forall|j: int| 0 <= j < n ==> (#[trigger] hints[j]).value@.len() <= 4,
                m31.len() == i,
                (cs@, wires(m31@), optional_wire(joined)) == unpack_chunks_step(
                    start,
                    chunks.take(i as int),
                ),
                cs@.wf(),
                cs@.extends(start),
                all_valid_in(wires(m31@), cs@),
                joined is Some == (i > 0),
                joined matches Some(s) ==> s@.valid_in(cs@) && s@.value
                    == channel::concatenation(string_values(chunks.take(i as int))),
                forall|j: int|
                    0 <= j < i ==> (#[trigger] m31[j]).value == chunk_m31(hints[j].value@),
            decreases n - i,
        {
            let ghost before = wires(m31@);
            let hint = &hints[i];
            assert(chunks[i as int] == hint@);
            assert(hint@.valid_in(cs@));
            hint.len_lessthanorequal(4, cs);
            let (element, again) = hint.reconstruct_for_channel_draw(cs);
            m31.push(element);
            let longer: StrVar = match &joined {
                Some(v) => v.cat(&again, cs),
                None => again,
            };
            proof {
                let now = chunks.take(i + 1);
                assert(now.drop_last() =~= chunks.take(i as int));
                assert(string_values(now).drop_last() =~= string_values(chunks.take(i as int)));
                assert(string_values(now).last() == hint.value@);
                assert(wires(m31@) =~= before.push(element@));
                let done = channel::concatenation(string_values(chunks.take(i as int)));
                assert(channel::concatenation(string_values(now)) == done + hint.value@);
                if i == 0 {
                    assert(done =~= Seq::<u8>::empty());
                }
                assert(longer@.value =~= done + hint.value@);
            }
            joined = Some(longer);
            i += 1;
        }
        let mut whole: StrVar = joined.unwrap();
        let ghost values = string_values(chunks);
        if n != 8 {
            assert(chunks[n as int] == hints[n as int]@);
            whole = whole.cat(&hints[n], cs);
            assert(values.drop_last() =~= string_values(chunks.take(n as int)));
        } else {
            assert(values =~= string_values(chunks.take(n as int)));
        }
        self.to_str_var().equalverify(&whole, cs);
        assert(wire_values(wires(m31@)) =~= Seq::new(
            n as nat,
            |i: int| chunk_m31(hints[i].value@),
        ));
        m31
    }

    fn draw_many_m31(&mut self, n: usize, cs: &mut ConstraintSystem) -> (r: Vec<M31Var>) {
        let ghost start = cs@;
        let ghost digest = self@;
        let mut all_m31: Vec<M31Var> = Vec::new();
        let mut left: usize = n;
        assert(wires(all_m31@) =~= Seq::<Wire>::empty());
        assert(wire_values(wires(all_m31@)) =~= Seq::<int>::empty());
        proof {
            lemma_put_before(draw_many_step(start, digest, n as nat));
            assert(Seq::<int>::empty() + channel::drawn_values(digest.value, n as nat)
                =~= channel::drawn_values(digest.value, n as nat));
        }
        while left > 0
            invariant
                left <= n,
                cs@.wf(),
                cs@.extends(start),
                self@.valid_in(cs@),
                left > 0 || n > 0 ==> self@.value.len() == 32,
                all_valid_in(wires(all_m31@), cs@),
                draw_many_step(start, digest, n as nat) == put_before(
                    wires(all_m31@),
                    draw_many_step(cs@, self@, left as nat),
                ),
                channel::drawn_values(digest.value, n as nat) == wire_values(wires(all_m31@))
                    + channel::drawn_values(self@.value, left as nat),
                channel::digest_after(digest.value, n as nat) == channel::digest_after(
                    self@.value,
                    left as nat,
                ),
            decreases left,
        {
            let ghost before = wires(all_m31@);
            let ghost earlier = cs@;
            let ghost current = self@;
            let m: usize = if left < 8 {
                left
            } else {
                8
            };
            let mut plain = Sha256Channel::new(self.value.clone());
            let (_elements, hint) = plain.draw_m31_and_hints(m);
            let to_extract = self.draw_digest(cs);
            let hints: Vec<StrVar> = draw_hints_to_str_vars(cs, hint);
            proof {
                let drawn = to_extract@.value;
                let list = channel::chunks(drawn, m as nat);
                channel::chunks_and_rest_are_the_drawn_string(drawn, m as nat);
                assert(list.push(drawn.skip(4 * m)).drop_last() =~= list);
                if m == 8 {
                    assert(channel::concatenation(list) + drawn.skip(4 * m)
                        =~= channel::concatenation(list));
                }
                assert forall|i: int| 0 <= i < m implies (#[trigger] hints[i]).value@.len() <= 4
                    && hints[i].value@ == channel::chunk_at(drawn, i) by {
                    assert(string_values(string_wires(hints@))[i] == hints[i].value@);
                }
            }
            let mut some: Vec<M31Var> = to_extract.unpack_multi_m31(m, &hints, cs);
            let ghost added = some@;
            all_m31.append(&mut some);
            left = left - m;
            proof {
                assert(wires(all_m31@) =~= before + wires(added));
                assert(wire_values(wires(added)) =~= channel::chunk_values(
                    to_extract@.value,
                    m as nat,
                ));
                assert(wire_values(wires(all_m31@)) =~= wire_values(before) + wire_values(
                    wires(added),
                ));
                lemma_draw_many_unfolds(earlier, current, (left + m) as nat, m as nat);
                lemma_put_before_twice(
                    before,
                    wires(added),
                    draw_many_step(cs@, self@, left as nat),
                );
                assert(wire_values(before) + (channel::chunk_values(to_extract@.value, m as nat)
                    + channel::drawn_values(self@.value, left as nat)) =~= wire_values(
                    wires(all_m31@),
                ) + channel::drawn_values(self@.value, left as nat));
            }
        }
        proof {
            let (c, d, rest) = draw_many_step(cs@, self@, 0);
            assert(wires(all_m31@) + rest =~= wires(all_m31@));
            assert(wire_values(wires(all_m31@)) + channel::drawn_values(self@.value, 0)
                =~= wire_values(wires(all_m31@)));
        }
        all_m31
    }

    fn draw_felt(&mut self, cs: &mut ConstraintSystem) -> (r: QM31Var) {
        let m31: Vec<M31Var> = self.draw_many_m31(4, cs);
        proof {
            assert(wire_values(wires(m31@)).len() == 4);
            assert(m31@ =~= seq![m31[0], m31[1], m31[2], m31[3]]);
            assert(wires(m31@)[0] == m31[0]@ && wires(m31@)[1] == m31[1]@);
            assert(wires(m31@)[2] == m31[2]@ && wires(m31@)[3] == m31[3]@);
            assert(wire_values(wires(m31@)) =~= seq![
                m31[0].value as int,
                m31[1].value as int,
                m31[2].value as int,
                m31[3].value as int,
            ]);
        }
        QM31Var {
            first: CM31Var { imag: m31[1], real: m31[0] },
            second: CM31Var { imag: m31[3], real: m31[2] },
        }
    }

    fn draw_numbers(&mut self, n: usize, logn: usize, cs: &mut ConstraintSystem) -> (r: Vec<
        M31Var,
    >) {
        let m31: Vec<M31Var> = self.draw_many_m31(n, cs);
        let ghost drawn = cs@;
        let ghost elements = wires(m31@);
        let mut numbers: Vec<M31Var> = Vec::new();
        let mut i: usize = 0;
        while i < m31.len()
            invariant
                i <= m31.len(),
                logn < 32,
                elements == wires(m31@),
                all_valid_in(elements, drawn),
                numbers.len() == i,
                (cs@, wires(numbers@)) == trim_all_step(drawn, elements.take(i as int), logn),
                cs@.wf(),
                cs@.extends(drawn),
                self@.valid_in(drawn),
                all_valid_in(wires(numbers@), cs@),
                forall|j: int|
                    0 <= j < i ==> (#[trigger] numbers[j]).value == m31[j].value as int % (pow2(
                        logn as nat,
                    ) as int),
            decreases m31.len() - i,
        {
            let ghost before = wires(numbers@);
            assert(elements[i as int] == m31[i as int]@);
            assert(m31[i as int]@.valid_in(cs@));
            let number = m31[i].trim(logn, cs);
            numbers.push(number);
            i += 1;
            assert(elements.take(i as int).drop_last() =~= elements.take(i - 1));
            assert(wires(numbers@) =~= before.push(number@));
        }
        proof {
            assert(elements.take(elements.len() as int) =~= elements);
            let values = wire_values(elements).map_values(|v: int| v % (pow2(logn as nat) as int));
            assert(wire_values(wires(numbers@)) =~= values);
        }
        numbers
    }
}

/// Puts field elements before those of a draw.
pub open spec fn put_before(
    first: Seq<Wire>,
    draw: (ConstraintSystemView, StringWire, Seq<Wire>),
) -> (ConstraintSystemView, StringWire, Seq<Wire>) {
    (draw.0, draw.1, first + draw.2)
}

proof fn lemma_put_before(draw: (ConstraintSystemView, StringWire, Seq<Wire>))
    ensures
        put_before(Seq::empty(), draw) == draw,
{
    assert(Seq::<Wire>::empty() + draw.2 =~= draw.2);
}

proof fn lemma_put_before_twice(
    first: Seq<Wire>,
    second: Seq<Wire>,
    draw: (ConstraintSystemView, StringWire, Seq<Wire>),
)
    ensures
        put_before(first, put_before(second, draw)) == put_before(first + second, draw),
{
    assert(first + (second + draw.2) =~= first + second + draw.2);
}

/// A draw of several elements starts with a draw of at most eight.
proof fn lemma_draw_many_unfolds(
    cs: ConstraintSystemView,
    digest: StringWire,
    n: nat,
    m: nat,
)
    requires
        0 < n,
        m == (if n < 8 {
            n
        } else {
            8
        }),
    ensures
        draw_many_step(cs, digest, n) == ({
            let (cs1, next, first) = draw_step(cs, digest, m as int);
            put_before(first, draw_many_step(cs1, next, (n - m) as nat))
        }),
        channel::drawn_values(digest.value, n) == channel::chunk_values(
            channel::drawn_digest(digest.value),
            m,
        ) + channel::drawn_values(channel::next_digest(digest.value), (n - m) as nat),
        channel::digest_after(digest.value, n) == channel::digest_after(
            channel::next_digest(digest.value),
            (n - m) as nat,
        ),
{
    let (cs1, next, first) = draw_step(cs, digest, m as int);
    if n <= 8 {
        assert(first + draw_many_step(cs1, next, 0).2 =~= first);
        assert(channel::chunk_values(channel::drawn_digest(digest.value), m)
            + channel::drawn_values(channel::next_digest(digest.value), 0)
            =~= channel::chunk_values(channel::drawn_digest(digest.value), m));
    }
}

/// The pieces of the script that draws a digest.
pub open spec fn draw_digest_tokens() -> Seq<TokenView> {
    seq![
        TokenView::Op(script::OP_DUP),
        TokenView::Op(script::OP_SHA256),
        TokenView::Op(script::OP_SWAP),
        TokenView::Push(seq![0u8]),
        TokenView::Op(script::OP_CAT),
        TokenView::Op(script::OP_SHA256),
    ]
}

/// The script that draws a digest: it leaves the hash of the digest and the hash of the digest
/// with a zero byte behind it.
pub fn draw_digest_gadget() -> (r: Script)
    ensures
        r@ == script::assembled(draw_digest_tokens()),
{
    let tokens: Vec<Token> = vec![
        Token::Op(script::OP_DUP),
        Token::Op(script::OP_SHA256),
        Token::Op(script::OP_SWAP),
        Token::Push(vec![0u8]),
        Token::Op(script::OP_CAT),
        Token::Op(script::OP_SHA256),
    ];
    assert(tokens[3]@->Push_0 =~= seq![0u8]);
    assert(tokens.deep_view() =~= draw_digest_tokens());
    script::assemble(&tokens)
}

/// The mask that keeps the low 31 bits of four bytes.
pub open spec fn chunk_mask() -> Seq<u8> {
    seq![0xffu8, 0xffu8, 0xffu8, 0x7fu8]
}

/// The pieces of the script that reads a chunk.
pub open spec fn reconstruct_tokens() -> Seq<TokenView> {
    seq![
        TokenView::Op(script::OP_DUP),
        TokenView::Push(chunk_mask()),
        TokenView::Op(script::OP_AND),
        TokenView::Op(script::OP_0),
        TokenView::Op(script::OP_ADD),
    ]
}

/// The script that reads a chunk: it leaves the chunk and the number that its low 31 bits spell,
/// in the shortest form.
pub fn reconstruct_for_channel_draw_gadget() -> (r: Script)
    ensures
        r@ == script::assembled(reconstruct_tokens()),
{
    let tokens: Vec<Token> = vec![
        Token::Op(script::OP_DUP),
        Token::Push(vec![0xffu8, 0xffu8, 0xffu8, 0x7fu8]),
        Token::Op(script::OP_AND),
        Token::Op(script::OP_0),
        Token::Op(script::OP_ADD),
    ];
    assert(tokens[1]@->Push_0 =~= chunk_mask());
    assert(tokens.deep_view() =~= reconstruct_tokens());
    script::assemble(&tokens)
}

/// The stack elements for a list of elements.
pub open spec fn stack_elements(list: Seq<ElementView>) -> Seq<Seq<u8>> {
    list.map_values(|e: ElementView| stack_element(e))
}

/// The script that draws a digest does what its gadget stands for.
pub proof fn draw_digest_script_meets_its_gadget(
    ins: Seq<ElementView>,
    outs: Seq<ElementView>,
    rest: Seq<Seq<u8>>,
    alt: Seq<Seq<u8>>,
)
    requires
        gadget_holds(Gadget::DrawDigest, ins, outs),
    ensures
        machine::run(
            draw_digest_tokens(),
            (Machine { stack: rest + stack_elements(ins), alt }),
        ) == Some(Machine { stack: rest + stack_elements(outs), alt }),
{
    broadcast use {machine::lemma_run_push, machine::lemma_push_pop};

    let digest = ins[0]->Str_0;
    let m = Machine { stack: rest.push(digest), alt };
    assert(rest + stack_elements(ins) =~= rest.push(digest));
    assert(draw_digest_tokens() =~= Seq::<TokenView>::empty().push(
        TokenView::Op(script::OP_DUP),
    ).push(TokenView::Op(script::OP_SHA256)).push(TokenView::Op(script::OP_SWAP)).push(
        TokenView::Push(seq![0u8]),
    ).push(TokenView::Op(script::OP_CAT)).push(TokenView::Op(script::OP_SHA256)));
    assert(machine::run(Seq::<TokenView>::empty(), m) == Some(m));
    assert(digest + seq![0u8] =~= digest.push(0u8));
    assert(rest + stack_elements(outs) =~= rest.push(channel::next_digest(digest)).push(
        channel::drawn_digest(digest),
    ));
}

/// The script that reads a chunk does what its gadget stands for, on chunks of four bytes.
pub proof fn reconstruct_script_meets_its_gadget(
    ins: Seq<ElementView>,
    outs: Seq<ElementView>,
    rest: Seq<Seq<u8>>,
    alt: Seq<Seq<u8>>,
)
    requires
        gadget_holds(Gadget::ReconstructForChannelDraw, ins, outs),
        ins[0]->Str_0.len() == 4,
    ensures
        machine::run(
            reconstruct_tokens(),
            (Machine { stack: rest + stack_elements(ins), alt }),
        ) == Some(Machine { stack: rest + stack_elements(outs), alt }),
{
    broadcast use {machine::lemma_run_push, machine::lemma_push_pop};

    let chunk = ins[0]->Str_0;
    let m = Machine { stack: rest.push(chunk), alt };
    assert(rest + stack_elements(ins) =~= rest.push(chunk));
    assert(reconstruct_tokens() =~= Seq::<TokenView>::empty().push(
        TokenView::Op(script::OP_DUP),
    ).push(TokenView::Push(chunk_mask())).push(TokenView::Op(script::OP_AND)).push(
        TokenView::Op(script::OP_0),
    ).push(TokenView::Op(script::OP_ADD)));
    assert(machine::run(Seq::<TokenView>::empty(), m) == Some(m));
    lemma_masked_chunk(chunk);
    assert(bytes::le_number(Seq::<u8>::empty()) == 0);
    assert(rest + stack_elements(outs) =~= rest.push(chunk).push(
        bytes::le_bytes(chunk_m31(chunk) as nat),
    ));
}

/// Masking four bytes keeps the low 31 bits of the number that they spell.
proof fn lemma_masked_chunk(chunk: Seq<u8>)
    requires
        chunk.len() == 4,
    ensures
        bytes::le_number(machine::bitwise_and(chunk, chunk_mask())) == chunk_m31(chunk),
{
    let masked = machine::bitwise_and(chunk, chunk_mask());
    bytes::lemma_le_number_of_four(chunk);
    bytes::lemma_le_number_of_four(masked);
    let (a, b, c, d) = (chunk[0], chunk[1], chunk[2], chunk[3]);
    assert(a & 0xff == a) by (bit_vector);
    assert(b & 0xff == b) by (bit_vector);
    assert(c & 0xff == c) by (bit_vector);
    assert(d & 0x7f == d % 0x80) by (bit_vector);
}

/// Every assignment that meets the system and gives the channel's digest a value gives the new
/// digest and the drawn digest the hashes of that value.
pub proof fn drawn_digest_is_forced(
    cs: ConstraintSystemView,
    digest: StringWire,
    later: ConstraintSystemView,
    assignment: Seq<ElementView>,
)
    requires
        later.extends(draw_digest_step(cs, digest).0),
        later.satisfied_by(assignment),
    ensures
        assignment[digest.variable] is Str,
        ({
            let (_, next, drawn) = draw_digest_step(cs, digest);
            let value = assignment[digest.variable]->Str_0;
            &&& assignment[next.variable] == ElementView::Str(channel::next_digest(value))
            &&& assignment[drawn.variable] == ElementView::Str(channel::drawn_digest(value))
        }),
{
    let ins = seq![digest.variable];
    let n = cs.memory.len() as int;
    lemma_two_outputs_in_force(
        cs,
        Gadget::DrawDigest,
        ins,
        ElementView::Str(channel::next_digest(digest.value)),
        ElementView::Str(channel::drawn_digest(digest.value)),
        later,
        assignment,
    );
    let outs = seq![assignment[n], assignment[n + 1]];
    assert(values_at(assignment, ins)[0] == assignment[digest.variable]);
    assert(outs[0] == assignment[n] && outs[1] == assignment[n + 1]);
}

/// The strings that an assignment gives to a list of string variables.
pub open spec fn assigned_strings(assignment: Seq<ElementView>, list: Seq<StringWire>) -> Seq<
    Seq<u8>,
> {
    list.map_values(|w: StringWire| assignment[w.variable]->Str_0)
}

/// An assignment reads chunks as the gadgets do: each is a string of at most four bytes, and each
/// field element is what its chunk stands for.
pub open spec fn chunks_are_read(
    assignment: Seq<ElementView>,
    chunks: Seq<StringWire>,
    elements: Seq<Wire>,
) -> bool {
    &&& elements.len() == chunks.len()
    &&& forall|i: int|
        0 <= i < chunks.len() ==> {
            let chunk = assignment[(#[trigger] chunks[i]).variable];
            &&& chunk is Str
            &&& chunk->Str_0.len() <= 4
            &&& assignment[elements[i].variable] == ElementView::Num(chunk_m31(chunk->Str_0))
        }
}

proof fn lemma_unpack_chunk_in_force(
    cs: ConstraintSystemView,
    joined: Option<StringWire>,
    chunk: StringWire,
    later: ConstraintSystemView,
    assignment: Seq<ElementView>,
)
    requires
        later.extends(unpack_chunk_step(cs, joined, chunk).0),
        later.satisfied_by(assignment),
    ensures
        later.extends(cs),
        ({
            let (_, element, longer) = unpack_chunk_step(cs, joined, chunk);
            let value = assignment[chunk.variable]->Str_0;
            &&& assignment[chunk.variable] is Str
            &&& value.len() <= 4
            &&& assignment[element.variable] == ElementView::Num(chunk_m31(value))
            &&& match joined {
                None => assignment[longer.variable] == ElementView::Str(value),
                Some(before) => assignment[before.variable] is Str
                    && assignment[longer.variable] == ElementView::Str(
                    assignment[before.variable]->Str_0 + value,
                ),
            }
        }),
{
    let cs1 = len_check_step(cs, chunk, 4);
    let (cs2, element, again) = reconstruct_step(cs1, chunk);
    let ins = seq![chunk.variable];
    let n = cs.memory.len() as int;
    assert(later.extends(cs2));
    assert(later.extends(cs1));
    lemma_check_in_force(cs, Gadget::StrLenLessThanOrEqual(4), ins, later, assignment);
    lemma_two_outputs_in_force(
        cs1,
        Gadget::ReconstructForChannelDraw,
        ins,
        ElementView::Str(chunk.value),
        ElementView::Num(chunk_m31(chunk.value)),
        later,
        assignment,
    );
    let outs = seq![assignment[n], assignment[n + 1]];
    assert(values_at(assignment, ins)[0] == assignment[chunk.variable]);
    assert(outs[0] == assignment[n] && outs[1] == assignment[n + 1]);
    match joined {
        None => {},
        Some(before) => {
            let both = seq![before.variable, again.variable];
            lemma_gadget_in_force(
                cs2,
                Gadget::StrCat,
                both,
                ElementView::Str(before.value + again.value),
                later,
                assignment,
            );
            let out = seq![assignment[cs2.memory.len() as int]];
            assert(values_at(assignment, both)[0] == assignment[before.variable]);
            assert(values_at(assignment, both)[1] == assignment[again.variable]);
            assert(out[0] == assignment[cs2.memory.len() as int]);
        },
    }
}

proof fn lemma_unpack_chunks_in_force(
    cs: ConstraintSystemView,
    chunks: Seq<StringWire>,
    later: ConstraintSystemView,
    assignment: Seq<ElementView>,
)
    requires
        later.extends(unpack_chunks_step(cs, chunks).0),
        later.satisfied_by(assignment),
    ensures
        ({
            let (_, elements, joined) = unpack_chunks_step(cs, chunks);
            &&& chunks_are_read(assignment, chunks, elements)
            &&& chunks.len() > 0 ==> joined is Some && assignment[joined->0.variable]
                == ElementView::Str(
                channel::concatenation(assigned_strings(assignment, chunks)),
            )
        }),
    decreases chunks.len(),
{
    if chunks.len() > 0 {
        let shorter = chunks.drop_last();
        let (cs1, elements, joined) = unpack_chunks_step(cs, shorter);
        lemma_unpack_chunk_in_force(cs1, joined, chunks.last(), later, assignment);
        lemma_unpack_chunks_in_force(cs, shorter, later, assignment);
        let strings = assigned_strings(assignment, chunks);
        assert(strings.drop_last() =~= assigned_strings(assignment, shorter));
        if shorter.len() == 0 {
            assert(channel::concatenation(strings.drop_last()) =~= Seq::<u8>::empty());
            assert(channel::concatenation(strings) =~= strings.last());
        }
        assert forall|i: int| 0 <= i < chunks.len() implies ({
            let chunk = assignment[(#[trigger] chunks[i]).variable];
            let all = unpack_chunks_step(cs, chunks).1;
            &&& chunk is Str
            &&& chunk->Str_0.len() <= 4
            &&& assignment[all[i].variable] == ElementView::Num(chunk_m31(chunk->Str_0))
        }) by {
            if i < shorter.len() {
                assert(shorter[i] == chunks[i]);
            }
        }
    }
}

/// Every assignment that meets the system splits the digest into the hints: at most four bytes
/// for each field element, each element being what its chunk stands for, and the rest.
pub proof fn unpacking_splits_the_digest(
    cs: ConstraintSystemView,
    digest: StringWire,
    n: int,
    hints: Seq<StringWire>,
    later: ConstraintSystemView,
    assignment: Seq<ElementView>,
)
    requires
        1 <= n <= 8,
        hints.len() == (if n == 8 {
            8
        } else {
            n + 1
        }),
        later.extends(unpack_step(cs, digest, n, hints).0),
        later.satisfied_by(assignment),
    ensures
        chunks_are_read(assignment, hints.take(n), unpack_step(cs, digest, n, hints).1),
        assignment[digest.variable] == ElementView::Str(
            channel::concatenation(assigned_strings(assignment, hints)),
        ),
{
    let (cs1, elements, joined) = unpack_chunks_step(cs, hints.take(n));
    let strings = assigned_strings(assignment, hints);
    let first = assigned_strings(assignment, hints.take(n));
    if n != 8 {
        let (cs2, whole) = cat_step(cs1, joined->0, hints.last());
        assert(later.extends(cs2));
        assert(later.extends(cs1));
        lemma_unpack_chunks_in_force(cs, hints.take(n), later, assignment);
        let both = seq![joined->0.variable, hints.last().variable];
        lemma_gadget_in_force(
            cs1,
            Gadget::StrCat,
            both,
            ElementView::Str(joined->0.value + hints.last().value),
            later,
            assignment,
        );
        let out = seq![assignment[cs1.memory.len() as int]];
        assert(values_at(assignment, both)[0] == assignment[both[0]]);
        assert(values_at(assignment, both)[1] == assignment[both[1]]);
        assert(out[0] == assignment[cs1.memory.len() as int]);
        let equal = seq![digest.variable, whole.variable];
        lemma_check_in_force(cs2, Gadget::StrEqualVerify, equal, later, assignment);
        assert(values_at(assignment, equal)[0] == assignment[digest.variable]);
        assert(values_at(assignment, equal)[1] == assignment[whole.variable]);
        assert(strings.drop_last() =~= first);
    } else {
        assert(later.extends(cs1));
        lemma_unpack_chunks_in_force(cs, hints.take(n), later, assignment);
        let equal = seq![digest.variable, joined->0.variable];
        lemma_check_in_force(cs1, Gadget::StrEqualVerify, equal, later, assignment);
        assert(values_at(assignment, equal)[0] == assignment[digest.variable]);
        assert(values_at(assignment, equal)[1] == assignment[joined->0.variable]);
        assert(hints.take(n) =~= hints);
    }
}

/// Strings of at most four bytes that together have four bytes for each are the chunks of their
/// concatenation.
proof fn lemma_full_chunks(list: Seq<Seq<u8>>)
    requires
        forall|i: int| 0 <= i < list.len() ==> (#[trigger] list[i]).len() <= 4,
    ensures
        channel::concatenation(list).len() <= 4 * list.len(),
        channel::concatenation(list).len() == 4 * list.len() ==> list == channel::chunks(
            channel::concatenation(list),
            list.len(),
        ),
    decreases list.len(),
{
    let whole = channel::concatenation(list);
    if list.len() == 0 {
        assert(list =~= channel::chunks(whole, 0));
    } else {
        let shorter = list.drop_last();
        assert forall|i: int| 0 <= i < shorter.len() implies (#[trigger] shorter[i]).len() <= 4 by {
            assert(shorter[i] == list[i]);
        }
        lemma_full_chunks(shorter);
        if whole.len() == 4 * list.len() {
            let before = channel::concatenation(shorter);
            assert(list.last().len() <= 4);
            assert forall|i: int| 0 <= i < list.len() implies #[trigger] list[i]
                == channel::chunk_at(whole, i) by {
                if i < shorter.len() {
                    assert(list[i] == channel::chunks(before, shorter.len())[i]);
                    assert(channel::chunk_at(whole, i) =~= channel::chunk_at(before, i));
                } else {
                    assert(channel::chunk_at(whole, i) =~= list.last());
                }
            }
            assert(list =~= channel::chunks(whole, list.len()));
        }
    }
}

/// Reading eight field elements from a digest of thirty-two bytes leaves a prover no choice: every
/// assignment that meets the system gives the elements that the digest's chunks stand for.
pub proof fn full_unpacking_is_forced(
    cs: ConstraintSystemView,
    digest: StringWire,
    hints: Seq<StringWire>,
    later: ConstraintSystemView,
    assignment: Seq<ElementView>,
)
    requires
        hints.len() == 8,
        later.extends(unpack_step(cs, digest, 8, hints).0),
        later.satisfied_by(assignment),
    ensures
        assignment[digest.variable] is Str,
        ({
            let elements = unpack_step(cs, digest, 8, hints).1;
            let value = assignment[digest.variable]->Str_0;
            value.len() == 32 ==> elements.len() == 8 && forall|i: int|
                0 <= i < 8 ==> assignment[(#[trigger] elements[i]).variable] == ElementView::Num(
                    channel::chunk_values(value, 8)[i],
                )
        }),
{
    unpacking_splits_the_digest(cs, digest, 8, hints, later, assignment);
    let elements = unpack_step(cs, digest, 8, hints).1;
    let value = assignment[digest.variable]->Str_0;
    let strings = assigned_strings(assignment, hints);
    assert(hints.take(8) =~= hints);
    assert forall|i: int| 0 <= i < strings.len() implies (#[trigger] strings[i]).len() <= 4 by {
        assert(assignment[hints[i].variable]->Str_0.len() <= 4);
    }
    lemma_full_chunks(strings);
    if value.len() == 32 {
        assert forall|i: int| 0 <= i < 8 implies assignment[(#[trigger] elements[i]).variable]
            == ElementView::Num(channel::chunk_values(value, 8)[i]) by {
            assert(strings[i] == assignment[hints[i].variable]->Str_0);
            assert(strings[i] == channel::chunk_at(value, i));
        }
    }
}

/// Reading field elements from chunks of four bytes leaves a prover no choice, however many are
/// read: every assignment that meets the system and gives each chunk four bytes gives the elements
/// that the digest's first chunks stand for.
pub proof fn unpacking_of_whole_chunks_is_forced(
    cs: ConstraintSystemView,
    digest: StringWire,
    n: int,
    hints: Seq<StringWire>,
    later: ConstraintSystemView,
    assignment: Seq<ElementView>,
)
    requires
        1 <= n <= 8,
        hints.len() == (if n == 8 {
            8
        } else {
            n + 1
        }),
        later.extends(unpack_step(cs, digest, n, hints).0),
        later.satisfied_by(assignment),
        forall|i: int|
            0 <= i < n ==> assignment[(#[trigger] hints[i]).variable]->Str_0.len() == 4,
    ensures
        assignment[digest.variable] is Str,
        ({
            let elements = unpack_step(cs, digest, n, hints).1;
            let value = assignment[digest.variable]->Str_0;
            elements.len() == n && forall|i: int|
                0 <= i < n ==> assignment[(#[trigger] elements[i]).variable] == ElementView::Num(
                    channel::chunk_values(value, n as nat)[i],
                )
        }),
{
    unpacking_splits_the_digest(cs, digest, n, hints, later, assignment);
    let elements = unpack_step(cs, digest, n, hints).1;
    let value = assignment[digest.variable]->Str_0;
    let strings = assigned_strings(assignment, hints);
    let first = strings.take(n);
    let start = channel::concatenation(first);
    assert forall|i: int| 0 <= i < first.len() implies (#[trigger] first[i]).len() == 4 by {
        assert(assignment[hints[i].variable]->Str_0.len() == 4);
    }
    lemma_whole_chunks_len(first);
    lemma_full_chunks(first);
    if n != 8 {
        assert(strings.drop_last() =~= first);
        assert(value == start + strings.last());
    } else {
        assert(strings =~= first);
    }
    assert forall|i: int| 0 <= i < n implies assignment[(#[trigger] elements[i]).variable]
        == ElementView::Num(channel::chunk_values(value, n as nat)[i]) by {
        assert(hints.take(n)[i] == hints[i]);
        assert(first[i] == assignment[hints[i].variable]->Str_0);
        assert(first[i] == channel::chunks(start, n as nat)[i]);
        assert(channel::chunk_at(value, i) =~= channel::chunk_at(start, i));
    }
}

/// Strings of four bytes have four bytes each together.
proof fn lemma_whole_chunks_len(list: Seq<Seq<u8>>)
    requires
        forall|i: int| 0 <= i < list.len() ==> (#[trigger] list[i]).len() == 4,
    ensures
        channel::concatenation(list).len() == 4 * list.len(),
    decreases list.len(),
{
    if list.len() > 0 {
        let shorter = list.drop_last();
        assert forall|i: int| 0 <= i < shorter.len() implies (#[trigger] shorter[i]).len() == 4 by {
            assert(shorter[i] == list[i]);
        }
        lemma_whole_chunks_len(shorter);
        assert(list.last() == list[list.len() - 1]);
    }
}

/// Drawing eight field elements leaves a prover no choice: every assignment that meets the system
/// gives what a channel with the assigned digest draws.
pub proof fn full_draw_is_forced(
    cs: ConstraintSystemView,
    digest: StringWire,
    later: ConstraintSystemView,
    assignment: Seq<ElementView>,
)
    requires
        later.extends(draw_many_step(cs, digest, 8).0),
        later.satisfied_by(assignment),
    ensures
        assignment[digest.variable] is Str,
        ({
            let (_, next, elements) = draw_many_step(cs, digest, 8);
            let value = assignment[digest.variable]->Str_0;
            &&& assignment[next.variable] == ElementView::Str(channel::digest_after(value, 8))
            &&& channel::drawn_digest(digest.value).len() == 32 && channel::drawn_digest(
                value,
            ).len() == 32 ==> elements.len() == 8 && forall|i: int|
                0 <= i < 8 ==> assignment[(#[trigger] elements[i]).variable] == ElementView::Num(
                    channel::drawn_values(value, 8)[i],
                )
        }),
{
    let (cs1, next, drawn) = draw_digest_step(cs, digest);
    let data = hint_strings(channel::chunks(drawn.value, 8), drawn.value.skip(32));
    let (cs2, hints) = hints_step(cs1, data);
    lemma_hints_extend(cs1, data);
    lemma_unpack_extends(cs2, drawn, 8, hints);
    drawn_digest_is_forced(cs, digest, later, assignment);
    if drawn.value.len() == 32 {
        assert(data.len() == 8);
        full_unpacking_is_forced(cs2, drawn, hints, later, assignment);
    }
}

proof fn lemma_hints_extend(cs: ConstraintSystemView, data: Seq<Seq<u8>>)
    ensures
        hints_step(cs, data).0.extends(cs),
        hints_step(cs, data).1.len() == data.len(),
    decreases data.len(),
{
    if data.len() > 0 {
        lemma_hints_extend(cs, data.drop_last());
    }
}

proof fn lemma_unpack_chunks_extends(cs: ConstraintSystemView, chunks: Seq<StringWire>)
    ensures
        unpack_chunks_step(cs, chunks).0.extends(cs),
    decreases chunks.len(),
{
    if chunks.len() > 0 {
        lemma_unpack_chunks_extends(cs, chunks.drop_last());
        let (cs1, elements, joined) = unpack_chunks_step(cs, chunks.drop_last());
        assert(unpack_chunk_step(cs1, joined, chunks.last()).0.extends(cs1));
    }
}

proof fn lemma_unpack_extends(
    cs: ConstraintSystemView,
    digest: StringWire,
    n: int,
    hints: Seq<StringWire>,
)
    ensures
        unpack_step(cs, digest, n, hints).0.extends(cs),
{
    lemma_unpack_chunks_extends(cs, hints.take(n));
}

proof fn lemma_trim_all_in_force(
    cs: ConstraintSystemView,
    elements: Seq<Wire>,
    logn: usize,
    later: ConstraintSystemView,
    assignment: Seq<ElementView>,
)
    requires
        later.extends(trim_all_step(cs, elements, logn).0),
        later.satisfied_by(assignment),
    ensures
        later.extends(cs),
        trim_all_step(cs, elements, logn).1.len() == elements.len(),
        forall|i: int|
            0 <= i < elements.len() ==> assignment[(#[trigger] trim_all_step(
                cs,
                elements,
                logn,
            ).1[i]).variable] == ElementView::Num(
                assignment[elements[i].variable]->Num_0 % (pow2(logn as nat) as int),
            ),
    decreases elements.len(),
{
    if elements.len() > 0 {
        let (cs1, before) = trim_all_step(cs, elements.drop_last(), logn);
        let last = elements.last();
        let numbers = trim_all_step(cs, elements, logn).1;
        assert(trim_step(cs1, last, logn).0.extends(cs1));
        assert(later.extends(cs1));
        lemma_trim_all_in_force(cs, elements.drop_last(), logn, later, assignment);
        let ins = seq![last.variable];
        lemma_gadget_in_force(
            cs1,
            Gadget::M31Trim(logn),
            ins,
            ElementView::Num(last.value % (pow2(logn as nat) as int)),
            later,
            assignment,
        );
        let out = seq![assignment[cs1.memory.len() as int]];
        assert(values_at(assignment, ins)[0] == assignment[last.variable]);
        assert(out[0] == assignment[cs1.memory.len() as int]);
        assert forall|i: int| 0 <= i < elements.len() implies assignment[(
        #[trigger] numbers[i]).variable] == ElementView::Num(
            assignment[elements[i].variable]->Num_0 % (pow2(logn as nat) as int),
        ) by {
            if i < before.len() {
                assert(numbers[i] == before[i]);
                assert(elements.drop_last()[i] == elements[i]);
            }
        }
    }
}

/// Drawing eight numbers leaves a prover no choice: every assignment that meets the system gives
/// the low bits of what a channel with the assigned digest draws.
pub proof fn full_number_draw_is_forced(
    cs: ConstraintSystemView,
    digest: StringWire,
    logn: usize,
    later: ConstraintSystemView,
    assignment: Seq<ElementView>,
)
    requires
        later.extends(draw_numbers_step(cs, digest, 8, logn).0),
        later.satisfied_by(assignment),
    ensures
        assignment[digest.variable] is Str,
        ({
            let (_, next, numbers) = draw_numbers_step(cs, digest, 8, logn);
            let value = assignment[digest.variable]->Str_0;
            &&& assignment[next.variable] == ElementView::Str(channel::digest_after(value, 8))
            &&& channel::drawn_digest(digest.value).len() == 32 && channel::drawn_digest(
                value,
            ).len() == 32 ==> numbers.len() == 8 && forall|i: int|
                0 <= i < 8 ==> assignment[(#[trigger] numbers[i]).variable] == ElementView::Num(
                    channel::drawn_values(value, 8)[i] % (pow2(logn as nat) as int),
                )
        }),
{
    let (cs1, next, elements) = draw_many_step(cs, digest, 8);
    let numbers = trim_all_step(cs1, elements, logn).1;
    let value = assignment[digest.variable]->Str_0;
    lemma_trim_all_in_force(cs1, elements, logn, later, assignment);
    full_draw_is_forced(cs, digest, later, assignment);
    if channel::drawn_digest(digest.value).len() == 32 && channel::drawn_digest(value).len()
        == 32 {
        assert forall|i: int| 0 <= i < 8 implies assignment[(#[trigger] numbers[i]).variable]
            == ElementView::Num(
            channel::drawn_values(value, 8)[i] % (pow2(logn as nat) as int),
        ) by {
            assert(assignment[elements[i].variable] == ElementView::Num(
                channel::drawn_values(value, 8)[i],
            ));
        }
    }
}

/// Lists of variables show each variable's number and value, in order.
pub proof fn lists_show_their_variables(
    list: Seq<M31Var>,
    elements: Seq<Wire>,
    strings: Seq<StringWire>,
    i: int,
)
    ensures
        wires(list).len() == list.len(),
        0 <= i < list.len() ==> wires(list)[i].variable == list[i].variable && wires(list)[i].value
            == list[i].value,
        wire_values(elements).len() == elements.len(),
        0 <= i < elements.len() ==> wire_values(elements)[i] == elements[i].value,
        string_values(strings).len() == strings.len(),
        0 <= i < strings.len() ==> string_values(strings)[i] == strings[i].value,
{
}

/// Drawing a digest is one gadget on the channel's digest, which leaves its hash and the hash of
/// the digest with a zero byte behind it.
pub proof fn digest_draw_is_recorded(cs: ConstraintSystemView, digest: StringWire)
    ensures
        ({
            let (after, next, drawn) = draw_digest_step(cs, digest);
            let n = cs.memory.len() as int;
            &&& after.memory == cs.memory.push(
                ElementView::Str(hash::sha256_digest(digest.value)),
            ).push(ElementView::Str(hash::sha256_digest(digest.value.push(0u8))))
            &&& after.trace == cs.trace + gadget_entries_of_two(
                Gadget::DrawDigest,
                seq![digest.variable],
                n,
            )
            &&& next.variable == n
            &&& next.value == hash::sha256_digest(digest.value)
            &&& drawn.variable == n + 1
            &&& drawn.value == hash::sha256_digest(digest.value.push(0u8))
        }),
{
    outputs_are_recorded(
        cs,
        Gadget::DrawDigest,
        seq![digest.variable],
        ElementView::Str(hash::sha256_digest(digest.value)),
        ElementView::Str(hash::sha256_digest(digest.value.push(0u8))),
    );
}

/// Reading a chunk is one gadget on the chunk, which leaves the chunk and the low 31 bits of the
/// number that it spells.
pub proof fn chunk_reading_is_recorded(cs: ConstraintSystemView, chunk: StringWire)
    ensures
        ({
            let (after, element, again) = reconstruct_step(cs, chunk);
            let n = cs.memory.len() as int;
            &&& after.memory == cs.memory.push(ElementView::Str(chunk.value)).push(
                ElementView::Num(bytes::le_number(chunk.value) as int % 0x8000_0000),
            )
            &&& after.trace == cs.trace + gadget_entries_of_two(
                Gadget::ReconstructForChannelDraw,
                seq![chunk.variable],
                n,
            )
            &&& again.variable == n
            &&& again.value == chunk.value
            &&& element.variable == n + 1
            &&& element.value == bytes::le_number(chunk.value) as int % 0x8000_0000
        }),
{
    outputs_are_recorded(
        cs,
        Gadget::ReconstructForChannelDraw,
        seq![chunk.variable],
        ElementView::Str(chunk.value),
        ElementView::Num(chunk_m31(chunk.value)),
    );
}

/// Hints are recorded one after the other, each as a hint with its string, and tied to nothing.
pub proof fn hints_are_recorded(cs: ConstraintSystemView, data: Seq<Seq<u8>>)
    ensures
        ({
            let (after, hints) = hints_step(cs, data);
            let n = cs.memory.len() as int;
            &&& after.memory == cs.memory + data.map_values(|d: Seq<u8>| ElementView::Str(d))
            &&& after.trace == cs.trace + Seq::new(
                data.len(),
                |i: int|
                    TraceEntryView::Alloc { mode: AllocationMode::Hint, variable: n + i },
            )
            &&& hints == Seq::new(
                data.len(),
                |i: int| StringWire { variable: n + i, value: data[i] },
            )
        }),
    decreases data.len(),
{
    let (after, hints) = hints_step(cs, data);
    let n = cs.memory.len() as int;
    if data.len() > 0 {
        hints_are_recorded(cs, data.drop_last());
        let (cs1, before) = hints_step(cs, data.drop_last());
        assert(cs1.memory.len() == n + data.len() - 1);
    }
    assert(after.memory =~= cs.memory + data.map_values(|d: Seq<u8>| ElementView::Str(d)));
    assert(after.trace =~= cs.trace + Seq::new(
        data.len(),
        |i: int| TraceEntryView::Alloc { mode: AllocationMode::Hint, variable: n + i },
    ));
    assert(hints =~= Seq::new(
        data.len(),
        |i: int| StringWire { variable: n + i, value: data[i] },
    ));
}

/// What a draw hands over are the chunks, in order, and then the rest, unless there is none; put
/// together they are the chunks and the rest.
pub proof fn nothing_is_left_out_of_the_hints(chunks: Seq<Seq<u8>>, rest: Seq<u8>)
    ensures
        hint_strings(chunks, rest).take(chunks.len() as int) == chunks,
        hint_strings(chunks, rest).len() == chunks.len() + (if rest.len() == 0 {
            0int
        } else {
            1
        }),
        channel::concatenation(hint_strings(chunks, rest)) == channel::concatenation(chunks)
            + rest,
{
    assert(hint_strings(chunks, rest).take(chunks.len() as int) =~= chunks);
    assert(chunks.push(rest).drop_last() =~= chunks);
    if rest.len() == 0 {
        assert(channel::concatenation(chunks) + rest =~= channel::concatenation(chunks));
    }
}

/// Reading chunks checks each for its length, reads it, and appends it to those before it.
pub proof fn each_chunk_is_checked_read_and_appended(
    cs: ConstraintSystemView,
    chunks: Seq<StringWire>,
    chunk: StringWire,
)
    ensures
        unpack_chunks_step(cs, Seq::empty()) == (
            cs,
            Seq::<Wire>::empty(),
            Option::<StringWire>::None,
        ),
        ({
            let (before, elements, joined) = unpack_chunks_step(cs, chunks);
            let checked = before.insert_script(
                Gadget::StrLenLessThanOrEqual(4),
                seq![chunk.variable],
            );
            let (read, element, again) = reconstruct_step(checked, chunk);
            let (after, longer) = match joined {
                None => (read, again),
                Some(j) => cat_step(read, j, again),
            };
            unpack_chunks_step(cs, chunks.push(chunk)) == (
                after,
                elements.push(element),
                Some(longer),
            )
        }),
{
    assert(chunks.push(chunk).drop_last() =~= chunks);
}

/// Unpacking appends the rest of the digest, where fewer than eight elements are read, and checks
/// the digest against the whole.
pub proof fn unpacking_ends_with_the_check(
    cs: ConstraintSystemView,
    digest: StringWire,
    n: int,
    chunks: Seq<StringWire>,
    rest: StringWire,
)
    requires
        1 <= n <= 8,
        chunks.len() == n,
    ensures
        ({
            let (read, elements, joined) = unpack_chunks_step(cs, chunks);
            let (after, found) = if n == 8 {
                unpack_step(cs, digest, n, chunks)
            } else {
                unpack_step(cs, digest, n, chunks.push(rest))
            };
            let (whole_cs, whole) = if n == 8 {
                (read, joined->0)
            } else {
                cat_step(read, joined->0, rest)
            };
            &&& found == elements
            &&& after == whole_cs.insert_script(
                Gadget::StrEqualVerify,
                seq![digest.variable, whole.variable],
            )
        }),
{
    assert(chunks.push(rest).take(n) =~= chunks);
    assert(chunks.take(n) =~= chunks);
}

/// Every assignment that meets a draw of at most eight elements gives the channel the hash of its
/// digest, and splits the hash of the digest with a zero byte behind it into the draw's hints, from
/// whose chunks the elements are read.
pub proof fn draw_reads_the_drawn_digest(
    cs: ConstraintSystemView,
    digest: StringWire,
    n: int,
    later: ConstraintSystemView,
    assignment: Seq<ElementView>,
)
    requires
        1 <= n <= 8,
        later.extends(draw_step(cs, digest, n).0),
        later.satisfied_by(assignment),
    ensures
        assignment[digest.variable] is Str,
        ({
            let (_, next, elements) = draw_step(cs, digest, n);
            let value = assignment[digest.variable]->Str_0;
            let recorded = channel::drawn_digest(digest.value);
            let start = cs.memory.len() as int + 2;
            let hints = Seq::new(
                (if n == 8 {
                    8
                } else {
                    n + 1
                }) as nat,
                |i: int| assignment[start + i]->Str_0,
            );
            &&& assignment[next.variable] == ElementView::Str(hash::sha256_digest(value))
            &&& recorded.len() == 32 ==> {
                &&& channel::concatenation(hints) == hash::sha256_digest(value.push(0u8))
                &&& elements.len() == n
                &&& forall|i: int|
                    0 <= i < n ==> hints[i].len() <= 4 && assignment[(
                    #[trigger] elements[i]).variable] == ElementView::Num(
                        bytes::le_number(hints[i]) as int % 0x8000_0000,
                    )
            }
        }),
{
    let (cs1, next, drawn) = draw_digest_step(cs, digest);
    let data = hint_strings(channel::chunks(drawn.value, n as nat), drawn.value.skip(4 * n));
    let (cs2, hints) = hints_step(cs1, data);
    let elements = unpack_step(cs2, drawn, n, hints).1;
    lemma_hints_extend(cs1, data);
    lemma_unpack_extends(cs2, drawn, n, hints);
    drawn_digest_is_forced(cs, digest, later, assignment);
    if drawn.value.len() == 32 {
        hints_are_recorded(cs1, data);
        let m: nat = (if n == 8 {
            8
        } else {
            n + 1
        }) as nat;
        assert(hints.len() == m);
        unpacking_splits_the_digest(cs2, drawn, n, hints, later, assignment);
        let start = cs.memory.len() as int + 2;
        let strings = Seq::new(m, |i: int| assignment[start + i]->Str_0);
        assert(assigned_strings(assignment, hints) =~= strings);
        assert forall|i: int| 0 <= i < n implies strings[i].len() <= 4 && assignment[(
        #[trigger] elements[i]).variable] == ElementView::Num(
            bytes::le_number(strings[i]) as int % 0x8000_0000,
        ) by {
            assert(hints.take(n)[i] == hints[i]);
            assert(strings[i] == assignment[hints.take(n)[i].variable]->Str_0);
        }
    }
}

/// A draw of more than eight elements is a draw of eight and then a draw of the others from the next
/// digest; a draw of none changes nothing.
pub proof fn draws_follow_each_other(cs: ConstraintSystemView, digest: StringWire, n: nat)
    ensures
        draw_many_step(cs, digest, 0) == (cs, digest, Seq::<Wire>::empty()),
        1 <= n <= 8 ==> draw_many_step(cs, digest, n) == draw_step(cs, digest, n as int),
        n > 8 ==> ({
            let (cs1, next, first) = draw_many_step(cs, digest, 8);
            let (cs2, last, others) = draw_many_step(cs1, next, (n - 8) as nat);
            draw_many_step(cs, digest, n) == (cs2, last, first + others)
        }),
{
}

proof fn lemma_draw_many_extends(cs: ConstraintSystemView, digest: StringWire, n: nat)
    ensures
        draw_many_step(cs, digest, n).0.extends(cs),
    decreases n,
{
    if n > 0 {
        let m = if n <= 8 {
            n as int
        } else {
            8
        };
        let (cs1, next, drawn) = draw_digest_step(cs, digest);
        let data = hint_strings(channel::chunks(drawn.value, m as nat), drawn.value.skip(4 * m));
        let (cs2, hints) = hints_step(cs1, data);
        lemma_hints_extend(cs1, data);
        lemma_unpack_extends(cs2, drawn, m, hints);
        let (cs3, _, _) = draw_step(cs, digest, m);
        assert(cs3.extends(cs));
        if n > 8 {
            lemma_draw_many_extends(cs3, next, (n - 8) as nat);
        }
    }
}

/// Every assignment that meets a draw of any length gives the channel's new digest the old one,
/// hashed once for every eight elements begun.
pub proof fn digest_after_a_draw_is_forced(
    cs: ConstraintSystemView,
    digest: StringWire,
    n: nat,
    later: ConstraintSystemView,
    assignment: Seq<ElementView>,
)
    requires
        n > 0,
        later.extends(draw_many_step(cs, digest, n).0),
        later.satisfied_by(assignment),
    ensures
        assignment[digest.variable] is Str,
        assignment[draw_many_step(cs, digest, n).1.variable] == ElementView::Str(
            channel::hashed_times(assignment[digest.variable]->Str_0, (n + 7) / 8),
        ),
    decreases n,
{
    let value = assignment[digest.variable]->Str_0;
    if n <= 8 {
        draw_reads_the_drawn_digest(cs, digest, n as int, later, assignment);
        channel::digest_is_hashed_for_every_eight(value, n);
    } else {
        let (cs1, next, first) = draw_step(cs, digest, 8);
        let m = (n - 8) as nat;
        lemma_draw_many_extends(cs1, next, m);
        assert(later.extends(cs1));
        draw_reads_the_drawn_digest(cs, digest, 8, later, assignment);
        digest_after_a_draw_is_forced(cs1, next, m, later, assignment);
        channel::digest_is_hashed_for_every_eight(value, n);
        channel::digest_is_hashed_for_every_eight(hash::sha256_digest(value), m);
    }
}

/// Trimming keeps the order of the elements, and each trimmed variable holds the low bits of what
/// its element holds in every assignment that meets the system.
pub proof fn trimming_of_a_list_is_forced(
    cs: ConstraintSystemView,
    elements: Seq<Wire>,
    logn: usize,
    later: ConstraintSystemView,
    assignment: Seq<ElementView>,
    i: int,
)
    requires
        later.extends(trim_all_step(cs, elements, logn).0),
        later.satisfied_by(assignment),
        0 <= i < elements.len(),
    ensures
        trim_all_step(cs, elements, logn).1.len() == elements.len(),
        assignment[trim_all_step(cs, elements, logn).1[i].variable] == ElementView::Num(
            assignment[elements[i].variable]->Num_0 % (pow2(logn as nat) as int),
        ),
{
    lemma_trim_all_in_force(cs, elements, logn, later, assignment);
}

/// Trimming adds one variable and one gadget for each element.
pub proof fn trimming_of_a_list_is_recorded(
    cs: ConstraintSystemView,
    elements: Seq<Wire>,
    last: Wire,
    logn: usize,
)
    ensures
        trim_all_step(cs, Seq::empty(), logn) == (cs, Seq::<Wire>::empty()),
        ({
            let (before, numbers) = trim_all_step(cs, elements, logn);
            let (after, number) = trim_step(before, last, logn);
            trim_all_step(cs, elements.push(last), logn) == (after, numbers.push(number))
        }),
{
    assert(elements.push(last).drop_last() =~= elements);
}

/// Drawing numbers is drawing elements and trimming them.
pub proof fn numbers_are_trimmed_elements(
    cs: ConstraintSystemView,
    digest: StringWire,
    n: nat,
    logn: usize,
)
    ensures
        ({
            let (drawn, next, elements) = draw_many_step(cs, digest, n);
            let (after, numbers) = trim_all_step(drawn, elements, logn);
            draw_numbers_step(cs, digest, n, logn) == (after, next, numbers)
        }),
{
}

} // verus!
