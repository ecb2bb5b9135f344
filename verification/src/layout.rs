//! How the pieces of an expansion lie in the code: one behind the other, each at
//! the offset that it carries.

use crate::ast::{ContractView, MacroDefinitionView};
use crate::bytecode::JumpView;
use crate::hex::{
    address_hex, is_code_text, lemma_address_hex, lemma_code_text_concat, lemma_hex_byte,
    lemma_hex_is_code_text, lemma_push_bytes, lemma_size_hex, literal_hex, max_address, push_bytes,
    size_hex,
};
use crate::model::{
    code_len, concat, fill_from, fill_piece, finish, merge, patch, place, resolution, start,
    total_chars, walk, CodeBuffer, Emission, Invocations, Pieces, Resolution, Scope,
};
use crate::bytecode::all_code_text;
use vstd::prelude::*;

verus! {

/// Whether the pieces stand one behind the other from the offset `start` to the
/// offset `end`, each a code text of even length.
pub open spec fn laid_out(pieces: Pieces, start: int, end: int) -> bool
    decreases pieces.len(),
{
    if pieces.len() == 0 {
        start == end
    } else {
        let last = pieces.last();
        &&& laid_out(pieces.drop_last(), start, last.0 as int)
        &&& last.1.len() % 2 == 0
        &&& is_code_text(last.1)
        &&& last.0 + last.1.len() / 2 == end
    }
}

/// Whether two lists of pieces have the same offsets and the same lengths, piece by
/// piece.
pub open spec fn same_shape(a: Pieces, b: Pieces) -> bool {
    &&& a.len() == b.len()
    &&& forall|i: int|
        0 <= i < a.len() ==> (#[trigger] a[i]).0 == b[i].0 && a[i].1.len() == b[i].1.len()
}

/// A piece at the end of a layout extends the layout.
pub proof fn lemma_laid_out_push(pieces: Pieces, start: int, end: int, text: Seq<char>)
    requires
        laid_out(pieces, start, end),
        0 <= end <= usize::MAX,
        text.len() % 2 == 0,
        is_code_text(text),
    ensures
        laid_out(pieces.push((end as usize, text)), start, end + text.len() / 2),
{
    assert(pieces.push((end as usize, text)).drop_last() =~= pieces);
}

/// Two layouts, the second starting where the first ends, are one layout.
pub proof fn lemma_laid_out_concat(a: Pieces, b: Pieces, start: int, mid: int, end: int)
    requires
        laid_out(a, start, mid),
        laid_out(b, mid, end),
    ensures
        laid_out(a + b, start, end),
    decreases b.len(),
{
    if b.len() == 0 {
        assert(a + b =~= a);
    } else {
        assert((a + b).drop_last() =~= a + b.drop_last());
        lemma_laid_out_concat(a, b.drop_last(), start, mid, b.last().0 as int);
    }
}

/// Pieces that are laid out from `start` to `end` stand for `end - start` bytes.
pub proof fn lemma_laid_out_total(pieces: Pieces, start: int, end: int)
    requires
        laid_out(pieces, start, end),
    ensures
        start <= end,
        total_chars(pieces) == 2 * (end - start),
        code_len(pieces) == end - start,
        concat(pieces).len() == 2 * (end - start),
        all_code_text(pieces),
        is_code_text(concat(pieces)),
    decreases pieces.len(),
{
    if pieces.len() > 0 {
        lemma_laid_out_total(pieces.drop_last(), start, pieces.last().0 as int);
        lemma_code_text_concat(concat(pieces.drop_last()), pieces.last().1);
        assert forall|i: int| 0 <= i < pieces.len() implies is_code_text(
            (#[trigger] pieces[i]).1,
        ) by {
            if i < pieces.len() - 1 {
                assert(pieces.drop_last()[i] == pieces[i]);
            }
        }
    }
}

/// Each piece of a layout starts where the pieces before it end, and is found at
/// twice its offset in the text of all pieces.
pub proof fn lemma_laid_out_piece(pieces: Pieces, start: int, end: int, i: int)
    requires
        laid_out(pieces, start, end),
        0 <= i < pieces.len(),
    ensures
        laid_out(pieces.take(i), start, pieces[i].0 as int),
        start <= pieces[i].0,
        pieces[i].0 + pieces[i].1.len() / 2 <= end,
        pieces[i].1.len() % 2 == 0,
        is_code_text(pieces[i].1),
        concat(pieces).subrange(
            2 * (pieces[i].0 - start),
            2 * (pieces[i].0 - start) + pieces[i].1.len(),
        ) == pieces[i].1,
    decreases pieces.len(),
{
    let front = pieces.drop_last();
    let last = pieces.last();
    lemma_laid_out_total(front, start, last.0 as int);
    if i == pieces.len() - 1 {
        assert(pieces.take(i) =~= front);
        assert(concat(pieces).subrange(2 * (last.0 - start), 2 * (last.0 - start) + last.1.len())
            =~= last.1);
    } else {
        lemma_laid_out_piece(front, start, last.0 as int, i);
        assert(front.take(i) =~= pieces.take(i));
        assert(front[i] == pieces[i]);
        let lo = 2 * (pieces[i].0 - start);
        let hi = lo + pieces[i].1.len();
        assert(concat(pieces).subrange(lo, hi) =~= concat(front).subrange(lo, hi));
    }
}

/// Pieces of the same shape as a layout are a layout where they are code texts.
pub proof fn lemma_same_shape_laid_out(a: Pieces, b: Pieces, start: int, end: int)
    requires
        laid_out(a, start, end),
        same_shape(a, b),
        all_code_text(b),
    ensures
        laid_out(b, start, end),
    decreases a.len(),
{
    if a.len() > 0 {
        let fa = a.drop_last();
        let fb = b.drop_last();
        assert(a[a.len() - 1].0 == b[a.len() - 1].0);
        assert(same_shape(fa, fb)) by {
            assert forall|i: int| 0 <= i < fa.len() implies (#[trigger] fa[i]).0 == fb[i].0
                && fa[i].1.len() == fb[i].1.len() by {
                assert(a[i].0 == b[i].0);
            }
        }
        assert(all_code_text(fb)) by {
            assert forall|i: int| 0 <= i < fb.len() implies is_code_text((#[trigger] fb[i]).1) by {
                assert(is_code_text(b[i].1));
            }
        }
        assert(is_code_text(b[b.len() - 1].1));
        lemma_same_shape_laid_out(fa, fb, start, a.last().0 as int);
    }
}

/// Writing an address keeps the length of a code text, and leaves a code text.
pub proof fn lemma_patch(text: Seq<char>, at: int, value: nat)
    requires
        is_code_text(text),
        value <= max_address(),
    ensures
        patch(text, at, value).len() == text.len(),
        is_code_text(patch(text, at, value)),
{
    if 0 <= at && at + 6 <= text.len() {
        lemma_address_hex(value);
        lemma_hex_is_code_text(address_hex(value));
        let a = text.subrange(0, at + 2);
        let b = text.subrange(at + 6, text.len() as int);
        assert(is_code_text(a)) by {
            assert forall|i: int| 0 <= i < a.len() implies (crate::hex::is_hex_char(
                #[trigger] a[i],
            ) || a[i] == 'x') by {
                assert(a[i] == text[i]);
            }
        }
        assert(is_code_text(b)) by {
            assert forall|i: int| 0 <= i < b.len() implies (crate::hex::is_hex_char(
                #[trigger] b[i],
            ) || b[i] == 'x') by {
                assert(b[i] == text[at + 6 + i]);
            }
        }
        lemma_code_text_concat(a, address_hex(value));
        lemma_code_text_concat(a + address_hex(value), b);
    }
}

/// Filling keeps the length of a piece and leaves a code text.
pub proof fn lemma_fill_piece_shape(
    text: Seq<char>,
    code_index: usize,
    jumps: Seq<JumpView>,
    labels: Map<Seq<char>, usize>,
    open_jumps: Seq<JumpView>,
    k: nat,
)
    requires
        is_code_text(text),
    ensures
        match fill_piece(text, code_index, jumps, labels, open_jumps, k) {
            Ok((filled, _)) => filled.len() == text.len() && is_code_text(filled),
            Err(_) => true,
        },
    decreases jumps.len() - k,
{
    if k < jumps.len() {
        let j = jumps[k as int];
        if labels.contains_key(j.label) {
            if j.bytecode_index + 6 <= text.len() {
                if labels[j.label] <= max_address() {
                    lemma_patch(text, j.bytecode_index as int, labels[j.label] as nat);
                    lemma_fill_piece_shape(
                        patch(text, j.bytecode_index as int, labels[j.label] as nat),
                        code_index,
                        jumps,
                        labels,
                        open_jumps,
                        k + 1,
                    );
                }
            } else {
                lemma_fill_piece_shape(text, code_index, jumps, labels, open_jumps, k + 1);
            }
        } else {
            lemma_fill_piece_shape(
                text,
                code_index,
                jumps,
                labels,
                open_jumps.push(JumpView { label: j.label, bytecode_index: code_index }),
                k + 1,
            );
        }
    }
}

/// Filling keeps the shape of the pieces and leaves code texts.
pub proof fn lemma_fill_from_shape(
    pieces: Pieces,
    table: Map<usize, Seq<JumpView>>,
    labels: Map<Seq<char>, usize>,
    done: Pieces,
    open_jumps: Seq<JumpView>,
    i: nat,
)
    requires
        all_code_text(pieces),
        all_code_text(done),
        i <= pieces.len(),
        same_shape(pieces.take(i as int), done),
    ensures
        match fill_from(pieces, table, labels, done, open_jumps, i) {
            Ok((out, _)) => same_shape(pieces, out) && all_code_text(out),
            Err(_) => true,
        },
    decreases pieces.len() - i,
{
    if i >= pieces.len() {
        assert(pieces.take(i as int) =~= pieces);
    } else {
        let (code_index, text) = pieces[i as int];
        assert(is_code_text(pieces[i as int].1));
        if table.contains_key(code_index) {
            lemma_fill_piece_shape(text, code_index, table[code_index], labels, open_jumps, 0);
            match fill_piece(text, code_index, table[code_index], labels, open_jumps, 0) {
                Ok((filled, still_open)) => {
                    let next = done.push((code_index, filled));
                    lemma_shape_push(pieces, done, i, filled);
                    lemma_fill_from_shape(pieces, table, labels, next, still_open, i + 1);
                },
                Err(_) => {},
            }
        } else {
            let next = done.push((code_index, text));
            lemma_shape_push(pieces, done, i, text);
            lemma_fill_from_shape(pieces, table, labels, next, open_jumps, i + 1);
        }
    }
}

/// A piece of the same length as the next one extends pieces of the same shape.
pub proof fn lemma_shape_push(pieces: Pieces, done: Pieces, i: nat, text: Seq<char>)
    requires
        i < pieces.len(),
        same_shape(pieces.take(i as int), done),
        all_code_text(done),
        is_code_text(text),
        text.len() == pieces[i as int].1.len(),
    ensures
        same_shape(pieces.take(i as int + 1), done.push((pieces[i as int].0, text))),
        all_code_text(done.push((pieces[i as int].0, text))),
{
    let a = pieces.take(i as int + 1);
    let b = done.push((pieces[i as int].0, text));
    assert forall|k: int| 0 <= k < a.len() implies (#[trigger] a[k]).0 == b[k].0 && a[k].1.len()
        == b[k].1.len() by {
        if k < i {
            assert(pieces.take(i as int)[k] == a[k]);
            assert(done[k] == b[k]);
        }
    }
    assert forall|k: int| 0 <= k < b.len() implies is_code_text((#[trigger] b[k]).1) by {
        if k < i {
            assert(done[k] == b[k]);
        }
    }
}

/// Whether the code that a name stands for is a code text of even length.
pub open spec fn even_code(r: Resolution) -> bool {
    match r {
        Resolution::Text(t) => is_code_text(t) && t.len() % 2 == 0,
        _ => true,
    }
}

/// The push of a size is a code text of even length, and the size has 1 to 8 bytes.
pub proof fn lemma_size_push(n: nat)
    requires
        n <= usize::MAX,
    ensures
        is_code_text(push_bytes(size_hex(n))),
        push_bytes(size_hex(n)).len() % 2 == 0,
        crate::hex::is_lower_hex(push_bytes(size_hex(n))),
        2 <= size_hex(n).len() <= 16,
{
    lemma_size_hex(n);
    lemma_push_bytes(size_hex(n));
    lemma_hex_is_code_text(push_bytes(size_hex(n)));
}


/// The push of lower-case hexadecimal text of even length is such a text.
pub proof fn lemma_push_text(h: Seq<char>)
    requires
        h.len() % 2 == 0,
        crate::hex::is_lower_hex(h),
    ensures
        push_bytes(h).len() % 2 == 0,
        crate::hex::is_lower_hex(push_bytes(h)),
        is_code_text(push_bytes(h)),
{
    let op = crate::hex::hex_byte((0x5f + h.len() / 2) as u8);
    lemma_hex_byte((0x5f + h.len() / 2) as u8);
    lemma_code_text_concat(op, h);
    lemma_hex_is_code_text(push_bytes(h));
}

/// The push of a literal is lower-case hexadecimal text of even length.
pub proof fn lemma_literal_text(l: Seq<u8>)
    ensures
        push_bytes(literal_hex(l)).len() % 2 == 0,
        crate::hex::is_lower_hex(push_bytes(literal_hex(l))),
        is_code_text(push_bytes(literal_hex(l))),
{
    crate::hex::lemma_hex_bytes(crate::hex::significant(l));
    lemma_push_text(literal_hex(l));
}

/// The push of a size is lower-case hexadecimal text of even length.
pub proof fn lemma_size_text(n: nat)
    ensures
        push_bytes(size_hex(n)).len() % 2 == 0,
        crate::hex::is_lower_hex(push_bytes(size_hex(n))),
        is_code_text(push_bytes(size_hex(n))),
{
    lemma_size_hex(n);
    lemma_push_text(size_hex(n));
}

/// The code that a name stands for is a code text of even length.
pub proof fn lemma_resolution_even(
    c: ContractView,
    name: Seq<char>,
    d: MacroDefinitionView,
    scope: Scope,
    mis: Invocations,
)
    ensures
        even_code(resolution(c, name, d, scope, mis)),
    decreases scope.len(),
{
    match c.find_constant(name) {
        Some(k) => {
            match k.value {
                crate::ast::ConstValView::Literal(l) => {
                    lemma_literal_text(l);
                },
                _ => {},
            }
        },
        None => match crate::opcodes::opcode_of(name) {
            Some(op) => {
                lemma_hex_byte(op);
                lemma_hex_is_code_text(crate::hex::hex_byte(op));
            },
            None => {
                if mis.len() > 0 && crate::ast::first_index(d.parameters, Some(name)) is Some {
                    let pos = crate::ast::first_index(d.parameters, Some(name))->0;
                    let invocation = mis.last().1;
                    if pos < invocation.args.len() {
                        match invocation.args[pos] {
                            crate::ast::MacroArgView::Literal(l) => {
                                lemma_literal_text(l);
                            },
                            crate::ast::MacroArgView::Ident(label) => {},
                            crate::ast::MacroArgView::ArgCall(outer) => {
                                if scope.len() >= 2 {
                                    let outer_scope = scope.drop_last();
                                    let outer_mis = if invocation.macro_name == d.name {
                                        mis.drop_last()
                                    } else {
                                        mis
                                    };
                                    lemma_resolution_even(
                                        c,
                                        outer,
                                        outer_scope.last(),
                                        outer_scope,
                                        outer_mis,
                                    );
                                }
                            },
                        }
                    }
                }
            },
        },
    }
}

/// Whether the pieces of a walk are laid out from `start` to its current offset.
pub open spec fn state_laid_out(st: Emission, start: usize) -> bool {
    laid_out(st.code.bytes, start as int, st.code.offset as int)
}

/// Whether the pieces of a result are laid out from `start` on, and end at an offset
/// that fits.
pub open spec fn result_laid_out(pieces: Pieces, start: usize) -> bool {
    &&& laid_out(pieces, start as int, start + code_len(pieces))
    &&& start + code_len(pieces) <= usize::MAX
}

/// Placing a code text of even length extends the layout.
pub proof fn lemma_place_laid_out(buf: CodeBuffer, text: Seq<char>, start: usize)
    requires
        laid_out(buf.bytes, start as int, buf.offset as int),
        is_code_text(text),
        text.len() % 2 == 0,
    ensures
        match place(buf, text) {
            Ok(b) => laid_out(b.bytes, start as int, b.offset as int),
            Err(_) => true,
        },
{
    if buf.offset + text.len() / 2 <= usize::MAX {
        lemma_laid_out_push(buf.bytes, start as int, buf.offset as int, text);
    }
}

/// The result of a walk whose pieces are laid out is laid out, and as long.
pub proof fn lemma_finish_laid_out(st: Emission, start: usize)
    requires
        state_laid_out(st, start),
    ensures
        match finish(st) {
            Ok(x) => result_laid_out(x.res.bytes, start) && start + code_len(x.res.bytes)
                == st.code.offset,
            Err(_) => true,
        },
{
    lemma_laid_out_total(st.code.bytes, start as int, st.code.offset as int);
    assert(st.code.bytes.take(0) =~= Seq::<(usize, Seq<char>)>::empty());
    lemma_fill_from_shape(
        st.code.bytes,
        st.code.jump_table,
        st.label_indices,
        Seq::empty(),
        Seq::empty(),
        0,
    );
    match finish(st) {
        Ok(x) => {
            lemma_same_shape_laid_out(
                st.code.bytes,
                x.res.bytes,
                start as int,
                st.code.offset as int,
            );
            lemma_laid_out_total(x.res.bytes, start as int, st.code.offset as int);
        },
        Err(_) => {},
    }
}

/// The pieces of an inner macro that are laid out from the current offset extend the
/// layout of the walk.
pub proof fn lemma_merge_laid_out(st: Emission, inner: crate::model::Expansion, start: usize)
    requires
        state_laid_out(st, start),
        result_laid_out(inner.res.bytes, st.code.offset),
    ensures
        state_laid_out(merge(st, inner), start),
{
    lemma_laid_out_concat(
        st.code.bytes,
        inner.res.bytes,
        start as int,
        st.code.offset as int,
        st.code.offset + code_len(inner.res.bytes),
    );
}

} // verus!
