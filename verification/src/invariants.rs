//! What holds of every expansion: each label that was defined has its `JUMPDEST` in
//! the code, and each place that awaits the offset of a table has its push
//! instruction there.

use crate::ast::{
    BuiltinFunctionKind, ConstValView, ContractView, IRByteTypeView, MacroDefinitionView,
    StatementView,
};
use crate::bytecode::JumpView;
use crate::hex::{
    is_code_text, jumpdest, lemma_hex_is_code_text, literal_hex, placeholder, push_bytes, size_hex,
};
use crate::layout::{
    laid_out, lemma_finish_laid_out, lemma_laid_out_piece, lemma_laid_out_total,
    lemma_literal_text, lemma_merge_laid_out, lemma_place_laid_out, lemma_resolution_even,
    lemma_size_text, result_laid_out, same_shape, state_laid_out,
};
use crate::model::{
    code_len, expand_traced, fill_from, fill_piece, finish, merge, place, resolution, start, step,
    walk, Emission, Expansion, Invocations, Mark, Pieces, Resolution, Scope,
};
use crate::bytecode::all_code_text;
use vstd::prelude::*;

verus! {

/// Whether the `i`-th piece is `text` at `offset`.
pub open spec fn piece_at(pieces: Pieces, i: int, offset: usize, text: Seq<char>) -> bool {
    0 <= i < pieces.len() && pieces[i] == (offset, text)
}

/// Whether each definition of a label has its `JUMPDEST` among the pieces, at the
/// offset that was recorded for it.
pub open spec fn defs_marked(pieces: Pieces, defs: Seq<Mark>) -> bool {
    forall|k: int| 0 <= k < defs.len() ==> marked(pieces, #[trigger] defs[k])
}

/// Whether the definition `d` has its `JUMPDEST` among the pieces.
pub open spec fn marked(pieces: Pieces, d: Mark) -> bool {
    exists|i: int| #[trigger] piece_at(pieces, i, d.offset, jumpdest())
}

/// Whether `defs[k]` defines `label` at `offset`.
pub open spec fn is_def(defs: Seq<Mark>, k: int, label: Seq<char>, offset: usize) -> bool {
    0 <= k < defs.len() && defs[k] == (Mark { label, offset })
}

/// Whether each label of the map was defined at the offset that the map gives.
pub open spec fn labels_defined(labels: Map<Seq<char>, usize>, defs: Seq<Mark>) -> bool {
    forall|l: Seq<char>| #[trigger] labels.contains_key(l) ==> defined(defs, l, labels[l])
}

/// Whether `label` was defined at `offset`.
pub open spec fn defined(defs: Seq<Mark>, label: Seq<char>, offset: usize) -> bool {
    exists|k: int| #[trigger] is_def(defs, k, label, offset)
}

/// Whether the `i`-th piece is an instruction of three bytes at `offset` that starts
/// with the opcode `PUSH2`.
pub open spec fn holds_push2(pieces: Pieces, i: int, offset: usize) -> bool {
    &&& 0 <= i < pieces.len()
    &&& pieces[i].0 == offset
    &&& pieces[i].1.len() == 6
    &&& pieces[i].1[0] == '6'
    &&& pieces[i].1[1] == '1'
}

/// Whether each place that awaits the offset of a table is a piece of three bytes,
/// and the places are in the order of their offsets.
pub open spec fn instances_placed(pieces: Pieces, instances: Seq<JumpView>) -> bool {
    &&& forall|k: int| 0 <= k < instances.len() ==> placed(pieces, #[trigger] instances[k])
    &&& forall|a: int, b: int|
        0 <= a < b < instances.len() ==> (#[trigger] instances[a]).bytecode_index < (
        #[trigger] instances[b]).bytecode_index
}

/// Whether the place `t` is a piece of three bytes.
pub open spec fn placed(pieces: Pieces, t: JumpView) -> bool {
    exists|i: int| #[trigger] holds_push2(pieces, i, t.bytecode_index)
}

/// What holds of a walk that started at `from`.
pub open spec fn sound(st: Emission, from: usize) -> bool {
    &&& state_laid_out(st, from)
    &&& defs_marked(st.code.bytes, st.trace.defs)
    &&& labels_defined(st.label_indices, st.trace.defs)
    &&& defs_labelled(st.label_indices, st.trace.defs)
    &&& instances_placed(st.code.bytes, st.table_instances)
}

/// What holds of the result of an expansion that started at `from`.
pub open spec fn sound_result(x: Expansion, from: usize) -> bool {
    &&& result_laid_out(x.res.bytes, from)
    &&& defs_marked(x.res.bytes, x.trace.defs)
    &&& labels_defined(x.res.label_indices, x.trace.defs)
    &&& defs_labelled(x.res.label_indices, x.trace.defs)
    &&& instances_placed(x.res.bytes, x.res.table_instances)
    &&& open_at_pieces(x.res.bytes, x.res.unmatched_jumps)
    &&& open_unknown(x.res.label_indices, x.res.unmatched_jumps)
}

/// Whether the label of each definition is a label of the map.
pub open spec fn defs_labelled(labels: Map<Seq<char>, usize>, defs: Seq<Mark>) -> bool {
    forall|k: int| 0 <= k < defs.len() ==> labels.contains_key((#[trigger] defs[k]).label)
}

/// Whether no open jump goes to a label of the map.
pub open spec fn open_unknown(labels: Map<Seq<char>, usize>, open_jumps: Seq<JumpView>) -> bool {
    forall|u: int| 0 <= u < open_jumps.len() ==> !labels.contains_key((#[trigger] open_jumps[u]).label)
}

/// A label that is defined anew, or again, is a label of the map.
pub proof fn lemma_define_labelled(
    labels: Map<Seq<char>, usize>,
    defs: Seq<Mark>,
    name: Seq<char>,
    offset: usize,
)
    requires
        defs_labelled(labels, defs),
    ensures
        defs_labelled(labels.insert(name, offset), defs.push(Mark { label: name, offset })),
{
    let defs2 = defs.push(Mark { label: name, offset });
    assert forall|k: int| 0 <= k < defs2.len() implies labels.insert(name, offset).contains_key(
        (#[trigger] defs2[k]).label,
    ) by {
        if k < defs.len() {
            assert(defs2[k] == defs[k]);
        }
    }
}

/// The definitions of an inner expansion and of the outer one have their labels in
/// the joined map.
pub proof fn lemma_join_labelled(
    labels_a: Map<Seq<char>, usize>,
    labels_b: Map<Seq<char>, usize>,
    defs_a: Seq<Mark>,
    defs_b: Seq<Mark>,
)
    requires
        defs_labelled(labels_a, defs_a),
        defs_labelled(labels_b, defs_b),
    ensures
        defs_labelled(labels_a.union_prefer_right(labels_b), defs_a + defs_b),
{
    let defs = defs_a + defs_b;
    assert forall|k: int| 0 <= k < defs.len() implies labels_a.union_prefer_right(
        labels_b,
    ).contains_key((#[trigger] defs[k]).label) by {
        if k < defs_a.len() {
            assert(defs[k] == defs_a[k]);
        } else {
            assert(defs[k] == defs_b[k - defs_a.len()]);
        }
    }
}

/// Whether a piece stands at the offset of the jump `u`.
pub open spec fn at_piece(pieces: Pieces, u: JumpView) -> bool {
    exists|i: int| 0 <= i < pieces.len() && (#[trigger] pieces[i]).0 == u.bytecode_index
}

/// Whether each open jump carries the offset of a piece.
pub open spec fn open_at_pieces(pieces: Pieces, open_jumps: Seq<JumpView>) -> bool {
    forall|u: int| 0 <= u < open_jumps.len() ==> at_piece(pieces, #[trigger] open_jumps[u])
}

/// Whether `b` is as long as `a` and starts with the same two characters.
pub open spec fn head_kept(a: Seq<char>, b: Seq<char>) -> bool {
    &&& a.len() == b.len()
    &&& a.len() >= 2 ==> a[0] == b[0] && a[1] == b[1]
}

/// Whether `done` holds the pieces of `pieces` at their offsets, each as long as it
/// was and with its first two characters.
pub open spec fn heads_kept(pieces: Pieces, done: Pieces) -> bool {
    forall|i: int|
        0 <= i < done.len() && i < pieces.len() ==> (#[trigger] done[i]).0 == pieces[i].0
            && head_kept(pieces[i].1, done[i].1)
}

/// Filling keeps the length and the first two characters of a piece, and reports
/// open jumps at the offset of the piece only.
pub proof fn lemma_fill_piece_keeps(
    text: Seq<char>,
    code_index: usize,
    jumps: Seq<JumpView>,
    labels: Map<Seq<char>, usize>,
    open_jumps: Seq<JumpView>,
    k: nat,
    pieces: Pieces,
    q: int,
)
    requires
        is_code_text(text),
        open_at_pieces(pieces, open_jumps),
        open_unknown(labels, open_jumps),
        0 <= q < pieces.len(),
        pieces[q].0 == code_index,
    ensures
        match fill_piece(text, code_index, jumps, labels, open_jumps, k) {
            Ok((filled, still_open)) => head_kept(text, filled) && open_at_pieces(
                pieces,
                still_open,
            ) && open_unknown(labels, still_open),
            Err(_) => true,
        },
    decreases jumps.len() - k,
{
    if k < jumps.len() {
        let j = jumps[k as int];
        if labels.contains_key(j.label) {
            if j.bytecode_index + 6 <= text.len() {
                if labels[j.label] <= crate::hex::max_address() {
                    let next = crate::model::patch(
                        text,
                        j.bytecode_index as int,
                        labels[j.label] as nat,
                    );
                    crate::layout::lemma_patch(
                        text,
                        j.bytecode_index as int,
                        labels[j.label] as nat,
                    );
                    assert(next[0] == text[0] && next[1] == text[1]);
                    lemma_fill_piece_keeps(
                        next,
                        code_index,
                        jumps,
                        labels,
                        open_jumps,
                        k + 1,
                        pieces,
                        q,
                    );
                }
            } else {
                lemma_fill_piece_keeps(
                    text,
                    code_index,
                    jumps,
                    labels,
                    open_jumps,
                    k + 1,
                    pieces,
                    q,
                );
            }
        } else {
            let u = JumpView { label: j.label, bytecode_index: code_index };
            let next = open_jumps.push(u);
            assert forall|x: int| 0 <= x < next.len() implies at_piece(pieces, #[trigger] next[x]) by {
                if x < open_jumps.len() {
                    assert(next[x] == open_jumps[x]);
                } else {
                    assert(pieces[q].0 == next[x].bytecode_index);
                }
            }
            assert forall|x: int| 0 <= x < next.len() implies !labels.contains_key(
                (#[trigger] next[x]).label,
            ) by {
                if x < open_jumps.len() {
                    assert(next[x] == open_jumps[x]);
                }
            }
            lemma_fill_piece_keeps(text, code_index, jumps, labels, next, k + 1, pieces, q);
        }
    }
}

/// Filling keeps the offsets, the lengths and the first two characters of the pieces,
/// and reports open jumps at the offsets of pieces only.
pub proof fn lemma_fill_from_keeps(
    pieces: Pieces,
    table: Map<usize, Seq<JumpView>>,
    labels: Map<Seq<char>, usize>,
    done: Pieces,
    open_jumps: Seq<JumpView>,
    i: nat,
)
    requires
        all_code_text(pieces),
        i <= pieces.len(),
        done.len() == i,
        heads_kept(pieces, done),
        open_at_pieces(pieces, open_jumps),
        open_unknown(labels, open_jumps),
    ensures
        match fill_from(pieces, table, labels, done, open_jumps, i) {
            Ok((out, still_open)) => out.len() == pieces.len() && heads_kept(pieces, out)
                && open_at_pieces(pieces, still_open) && open_unknown(labels, still_open),
            Err(_) => true,
        },
    decreases pieces.len() - i,
{
    if i < pieces.len() {
        let (code_index, text) = pieces[i as int];
        assert(is_code_text(pieces[i as int].1));
        if table.contains_key(code_index) {
            lemma_fill_piece_keeps(
                text,
                code_index,
                table[code_index],
                labels,
                open_jumps,
                0,
                pieces,
                i as int,
            );
            match fill_piece(text, code_index, table[code_index], labels, open_jumps, 0) {
                Ok((filled, still_open)) => {
                    let next = done.push((code_index, filled));
                    assert forall|k: int| 0 <= k < next.len() && k < pieces.len() implies (
                    #[trigger] next[k]).0 == pieces[k].0 && head_kept(pieces[k].1, next[k].1) by {
                        if k < i {
                            assert(next[k] == done[k]);
                        }
                    }
                    lemma_fill_from_keeps(pieces, table, labels, next, still_open, i + 1);
                },
                Err(_) => {},
            }
        } else {
            let next = done.push((code_index, text));
            assert forall|k: int| 0 <= k < next.len() && k < pieces.len() implies (
            #[trigger] next[k]).0 == pieces[k].0 && head_kept(pieces[k].1, next[k].1) by {
                if k < i {
                    assert(next[k] == done[k]);
                }
            }
            lemma_fill_from_keeps(pieces, table, labels, next, open_jumps, i + 1);
        }
    }
}

/// Whether each label of the map has its `JUMPDEST` among the pieces, at the offset
/// that the map gives.
pub open spec fn labels_marked(pieces: Pieces, labels: Map<Seq<char>, usize>) -> bool {
    forall|l: Seq<char>| #[trigger]
        labels.contains_key(l) ==> marked(pieces, Mark { label: l, offset: labels[l] })
}

/// In a result that is sound each label has its `JUMPDEST` at its offset.
pub proof fn lemma_labels_marked(x: Expansion, from: usize)
    requires
        sound_result(x, from),
    ensures
        labels_marked(x.res.bytes, x.res.label_indices),
{
    assert forall|l: Seq<char>| #[trigger] x.res.label_indices.contains_key(l) implies marked(
        x.res.bytes,
        Mark { label: l, offset: x.res.label_indices[l] },
    ) by {
        assert(defined(x.trace.defs, l, x.res.label_indices[l]));
        let k = choose|k: int| is_def(x.trace.defs, k, l, x.res.label_indices[l]);
        assert(marked(x.res.bytes, x.trace.defs[k]));
    }
}

/// A further piece leaves what is marked and placed as it is.
pub proof fn lemma_push_keeps(
    pieces: Pieces,
    piece: (usize, Seq<char>),
    defs: Seq<Mark>,
    instances: Seq<JumpView>,
)
    requires
        defs_marked(pieces, defs),
        instances_placed(pieces, instances),
    ensures
        defs_marked(pieces.push(piece), defs),
        instances_placed(pieces.push(piece), instances),
{
    let after = pieces.push(piece);
    assert forall|k: int| 0 <= k < defs.len() implies marked(after, #[trigger] defs[k]) by {
        let i = choose|i: int| piece_at(pieces, i, defs[k].offset, jumpdest());
        assert(piece_at(after, i, defs[k].offset, jumpdest()));
    }
    assert forall|k: int| 0 <= k < instances.len() implies placed(after, #[trigger] instances[k]) by {
        let i = choose|i: int| holds_push2(pieces, i, instances[k].bytecode_index);
        assert(holds_push2(after, i, instances[k].bytecode_index));
    }
}

/// The pieces of an inner expansion behind those of the outer one.
pub proof fn lemma_concat_keeps(
    a: Pieces,
    b: Pieces,
    defs_a: Seq<Mark>,
    defs_b: Seq<Mark>,
    inst_a: Seq<JumpView>,
    inst_b: Seq<JumpView>,
    from: int,
    mid: int,
    end: int,
)
    requires
        laid_out(a, from, mid),
        laid_out(b, mid, end),
        defs_marked(a, defs_a),
        defs_marked(b, defs_b),
        instances_placed(a, inst_a),
        instances_placed(b, inst_b),
    ensures
        defs_marked(a + b, defs_a + defs_b),
        instances_placed(a + b, inst_a + inst_b),
{
    let p = a + b;
    let defs = defs_a + defs_b;
    let inst = inst_a + inst_b;
    assert forall|k: int| 0 <= k < defs.len() implies marked(p, #[trigger] defs[k]) by {
        if k < defs_a.len() {
            assert(defs[k] == defs_a[k]);
            let i = choose|i: int| piece_at(a, i, defs_a[k].offset, jumpdest());
            assert(piece_at(p, i, defs[k].offset, jumpdest()));
        } else {
            let d = defs_b[k - defs_a.len()];
            assert(defs[k] == d);
            let i = choose|i: int| piece_at(b, i, d.offset, jumpdest());
            assert(p[a.len() + i] == b[i]);
            assert(piece_at(p, a.len() + i, defs[k].offset, jumpdest()));
        }
    }
    assert forall|k: int| 0 <= k < inst.len() implies placed(p, #[trigger] inst[k]) by {
        if k < inst_a.len() {
            assert(inst[k] == inst_a[k]);
            let i = choose|i: int| holds_push2(a, i, inst_a[k].bytecode_index);
            assert(holds_push2(p, i, inst[k].bytecode_index));
        } else {
            let t = inst_b[k - inst_a.len()];
            assert(inst[k] == t);
            let i = choose|i: int| holds_push2(b, i, t.bytecode_index);
            assert(p[a.len() + i] == b[i]);
            assert(holds_push2(p, a.len() + i, inst[k].bytecode_index));
        }
    }
    assert forall|x: int, y: int| 0 <= x < y < inst.len() implies (#[trigger] inst[x]).bytecode_index
        < (#[trigger] inst[y]).bytecode_index by {
        if y < inst_a.len() {
            assert(inst[x] == inst_a[x] && inst[y] == inst_a[y]);
        } else if x >= inst_a.len() {
            assert(inst[x] == inst_b[x - inst_a.len()] && inst[y] == inst_b[y - inst_a.len()]);
        } else {
            assert(inst[x] == inst_a[x]);
            let t = inst_b[y - inst_a.len()];
            assert(inst[y] == t);
            let i = choose|i: int| holds_push2(a, i, inst_a[x].bytecode_index);
            lemma_laid_out_piece(a, from, mid, i);
            let j = choose|j: int| holds_push2(b, j, t.bytecode_index);
            lemma_laid_out_piece(b, mid, end, j);
        }
    }
}

/// A label that is defined anew, or again.
pub proof fn lemma_define_label(
    labels: Map<Seq<char>, usize>,
    defs: Seq<Mark>,
    name: Seq<char>,
    offset: usize,
)
    requires
        labels_defined(labels, defs),
    ensures
        labels_defined(labels.insert(name, offset), defs.push(Mark { label: name, offset })),
{
    let labels2 = labels.insert(name, offset);
    let defs2 = defs.push(Mark { label: name, offset });
    assert forall|l: Seq<char>| #[trigger] labels2.contains_key(l) implies defined(defs2, l, labels2[l]) by {
        if l == name {
            assert(is_def(defs2, defs.len() as int, l, labels2[l]));
        } else {
            assert(labels.contains_key(l));
            let k = choose|k: int| is_def(defs, k, l, labels[l]);
            assert(is_def(defs2, k, l, labels2[l]));
        }
    }
}

/// The labels of an inner expansion taken into the outer one.
pub proof fn lemma_join_labels(
    labels_a: Map<Seq<char>, usize>,
    labels_b: Map<Seq<char>, usize>,
    defs_a: Seq<Mark>,
    defs_b: Seq<Mark>,
)
    requires
        labels_defined(labels_a, defs_a),
        labels_defined(labels_b, defs_b),
    ensures
        labels_defined(labels_a.union_prefer_right(labels_b), defs_a + defs_b),
{
    let labels = labels_a.union_prefer_right(labels_b);
    let defs = defs_a + defs_b;
    assert forall|l: Seq<char>| #[trigger] labels.contains_key(l) implies defined(defs, l, labels[l]) by {
        if labels_b.contains_key(l) {
            let k = choose|k: int| is_def(defs_b, k, l, labels_b[l]);
            assert(defs[defs_a.len() + k] == defs_b[k]);
            assert(is_def(defs, defs_a.len() + k, l, labels[l]));
        } else {
            assert(labels_a.contains_key(l));
            let k = choose|k: int| is_def(defs_a, k, l, labels_a[l]);
            assert(defs[k] == defs_a[k]);
            assert(is_def(defs, k, l, labels[l]));
        }
    }
}

/// Filling leaves a piece of less than three bytes as it is.
pub proof fn lemma_fill_piece_short(
    text: Seq<char>,
    code_index: usize,
    jumps: Seq<JumpView>,
    labels: Map<Seq<char>, usize>,
    open_jumps: Seq<JumpView>,
    k: nat,
)
    requires
        text.len() < 6,
    ensures
        match fill_piece(text, code_index, jumps, labels, open_jumps, k) {
            Ok((filled, _)) => filled == text,
            Err(_) => true,
        },
    decreases jumps.len() - k,
{
    if k < jumps.len() {
        let j = jumps[k as int];
        if labels.contains_key(j.label) {
            lemma_fill_piece_short(text, code_index, jumps, labels, open_jumps, k + 1);
        } else {
            lemma_fill_piece_short(
                text,
                code_index,
                jumps,
                labels,
                open_jumps.push(JumpView { label: j.label, bytecode_index: code_index }),
                k + 1,
            );
        }
    }
}

/// Whether `done` holds the short pieces of `pieces` as they are.
pub open spec fn short_kept(pieces: Pieces, done: Pieces) -> bool {
    forall|i: int|
        0 <= i < done.len() && i < pieces.len() && (#[trigger] pieces[i]).1.len() < 6 ==> done[i]
            == pieces[i]
}

/// Filling leaves every piece of less than three bytes as it is.
pub proof fn lemma_fill_from_short(
    pieces: Pieces,
    table: Map<usize, Seq<JumpView>>,
    labels: Map<Seq<char>, usize>,
    done: Pieces,
    open_jumps: Seq<JumpView>,
    i: nat,
)
    requires
        i <= pieces.len(),
        done.len() == i,
        short_kept(pieces, done),
    ensures
        match fill_from(pieces, table, labels, done, open_jumps, i) {
            Ok((out, _)) => short_kept(pieces, out) && out.len() == pieces.len(),
            Err(_) => true,
        },
    decreases pieces.len() - i,
{
    if i < pieces.len() {
        let (code_index, text) = pieces[i as int];
        if table.contains_key(code_index) {
            match fill_piece(text, code_index, table[code_index], labels, open_jumps, 0) {
                Ok((filled, still_open)) => {
                    if text.len() < 6 {
                        lemma_fill_piece_short(
                            text,
                            code_index,
                            table[code_index],
                            labels,
                            open_jumps,
                            0,
                        );
                    }
                    let next = done.push((code_index, filled));
                    assert(short_kept(pieces, next)) by {
                        assert forall|k: int|
                            0 <= k < next.len() && k < pieces.len() && (#[trigger] pieces[k]).1.len()
                                < 6 implies next[k] == pieces[k] by {
                            if k < i {
                                assert(next[k] == done[k]);
                            }
                        }
                    }
                    lemma_fill_from_short(pieces, table, labels, next, still_open, i + 1);
                },
                Err(_) => {},
            }
        } else {
            let next = done.push((code_index, text));
            assert(short_kept(pieces, next)) by {
                assert forall|k: int|
                    0 <= k < next.len() && k < pieces.len() && (#[trigger] pieces[k]).1.len() < 6 implies next[k]
                        == pieces[k] by {
                    if k < i {
                        assert(next[k] == done[k]);
                    }
                }
            }
            lemma_fill_from_short(pieces, table, labels, next, open_jumps, i + 1);
        }
    }
}

/// Pieces of the same shape that keep the short pieces keep what is marked and
/// placed.
pub proof fn lemma_shape_keeps(a: Pieces, b: Pieces, defs: Seq<Mark>, instances: Seq<JumpView>)
    requires
        same_shape(a, b),
        short_kept(a, b),
        heads_kept(a, b),
        defs_marked(a, defs),
        instances_placed(a, instances),
    ensures
        defs_marked(b, defs),
        instances_placed(b, instances),
{
    assert forall|k: int| 0 <= k < defs.len() implies marked(b, #[trigger] defs[k]) by {
        let i = choose|i: int| piece_at(a, i, defs[k].offset, jumpdest());
        assert(a[i].1.len() < 6);
        assert(b[i] == a[i]);
        assert(piece_at(b, i, defs[k].offset, jumpdest()));
    }
    assert forall|k: int| 0 <= k < instances.len() implies placed(b, #[trigger] instances[k]) by {
        let i = choose|i: int| holds_push2(a, i, instances[k].bytecode_index);
        assert(a[i].0 == b[i].0 && a[i].1.len() == b[i].1.len());
        assert(head_kept(a[i].1, b[i].1));
        assert(holds_push2(b, i, instances[k].bytecode_index));
    }
}

/// The result of a walk that is sound is sound.
pub proof fn lemma_finish_sound(st: Emission, from: usize)
    requires
        sound(st, from),
    ensures
        match finish(st) {
            Ok(x) => sound_result(x, from) && from + code_len(x.res.bytes) == st.code.offset,
            Err(_) => true,
        },
{
    lemma_finish_laid_out(st, from);
    lemma_laid_out_total(st.code.bytes, from as int, st.code.offset as int);
    assert(st.code.bytes.take(0) =~= Seq::<(usize, Seq<char>)>::empty());
    crate::layout::lemma_fill_from_shape(
        st.code.bytes,
        st.code.jump_table,
        st.label_indices,
        Seq::empty(),
        Seq::empty(),
        0,
    );
    lemma_fill_from_short(
        st.code.bytes,
        st.code.jump_table,
        st.label_indices,
        Seq::empty(),
        Seq::empty(),
        0,
    );
    lemma_fill_from_keeps(
        st.code.bytes,
        st.code.jump_table,
        st.label_indices,
        Seq::empty(),
        Seq::empty(),
        0,
    );
    match finish(st) {
        Ok(x) => {
            lemma_shape_keeps(st.code.bytes, x.res.bytes, st.trace.defs, st.table_instances);
            assert forall|u: int| 0 <= u < x.res.unmatched_jumps.len() implies at_piece(
                x.res.bytes,
                #[trigger] x.res.unmatched_jumps[u],
            ) by {
                let j = x.res.unmatched_jumps[u];
                assert(at_piece(st.code.bytes, j));
                let i = choose|i: int|
                    0 <= i < st.code.bytes.len() && (#[trigger] st.code.bytes[i]).0
                        == j.bytecode_index;
                assert(x.res.bytes[i].0 == st.code.bytes[i].0);
            }
        },
        Err(_) => {},
    }
}

/// The result of an inner macro that is sound, taken into a walk that is sound,
/// leaves the walk sound.
pub proof fn lemma_merge_sound(st: Emission, inner: Expansion, from: usize)
    requires
        sound(st, from),
        sound_result(inner, st.code.offset),
    ensures
        sound(merge(st, inner), from),
{
    lemma_merge_laid_out(st, inner, from);
    lemma_concat_keeps(
        st.code.bytes,
        inner.res.bytes,
        st.trace.defs,
        inner.trace.defs,
        st.table_instances,
        inner.res.table_instances,
        from as int,
        st.code.offset as int,
        st.code.offset + code_len(inner.res.bytes),
    );
    lemma_join_labels(
        st.label_indices,
        inner.res.label_indices,
        st.trace.defs,
        inner.trace.defs,
    );
    lemma_join_labelled(
        st.label_indices,
        inner.res.label_indices,
        st.trace.defs,
        inner.trace.defs,
    );
}

/// Placing a piece keeps a walk sound, whatever else of the walk stays.
pub proof fn lemma_place_sound(st: Emission, text: Seq<char>, from: usize)
    requires
        sound(st, from),
        is_code_text(text),
        text.len() % 2 == 0,
    ensures
        match place(st.code, text) {
            Ok(code) => {
                &&& laid_out(code.bytes, from as int, code.offset as int)
                &&& defs_marked(code.bytes, st.trace.defs)
                &&& instances_placed(code.bytes, st.table_instances)
                &&& code.bytes == st.code.bytes.push((st.code.offset, text))
                &&& code.offset == st.code.offset + text.len() / 2
            },
            Err(_) => true,
        },
{
    lemma_place_laid_out(st.code, text, from);
    lemma_push_keeps(st.code.bytes, (st.code.offset, text), st.trace.defs, st.table_instances);
}

/// An expansion is sound.
pub proof fn lemma_expand_sound(
    c: ContractView,
    m: MacroDefinitionView,
    scope: Scope,
    mis: Invocations,
    offset: usize,
    fuel: nat,
)
    requires
        c.well_formed(),
        m.well_formed(),
    ensures
        match expand_traced(c, m, scope, mis, offset, fuel) {
            Ok(x) => sound_result(x, offset),
            Err(_) => true,
        },
    decreases fuel, 1nat, 0nat,
{
    let st0 = start(offset);
    assert(sound(st0, offset));
    lemma_walk_sound(c, m, scope, mis, st0, 0, fuel, offset);
    match walk(c, m, scope, mis, st0, 0, fuel) {
        Ok(st) => {
            lemma_finish_sound(st, offset);
        },
        Err(_) => {},
    }
}

/// The walk through the items from the `i`-th on keeps a walk sound.
pub proof fn lemma_walk_sound(
    c: ContractView,
    m: MacroDefinitionView,
    scope: Scope,
    mis: Invocations,
    st: Emission,
    i: nat,
    fuel: nat,
    from: usize,
)
    requires
        c.well_formed(),
        m.well_formed(),
        sound(st, from),
    ensures
        match walk(c, m, scope, mis, st, i, fuel) {
            Ok(fin) => sound(fin, from),
            Err(_) => true,
        },
    decreases fuel, 0nat, m.ir_bytes.len() - i,
{
    if i < m.ir_bytes.len() {
        lemma_step_sound(c, m, scope, mis, st, i, fuel, from);
        match step(c, m, scope, mis, st, m.ir_bytes[i as int], fuel) {
            Ok(next) => {
                lemma_walk_sound(c, m, scope, mis, next, i + 1, fuel, from);
            },
            Err(_) => {},
        }
    }
}

/// One item keeps a walk sound.
pub proof fn lemma_step_sound(
    c: ContractView,
    m: MacroDefinitionView,
    scope: Scope,
    mis: Invocations,
    st: Emission,
    i: nat,
    fuel: nat,
    from: usize,
)
    requires
        c.well_formed(),
        m.well_formed(),
        i < m.ir_bytes.len(),
        sound(st, from),
    ensures
        match step(c, m, scope, mis, st, m.ir_bytes[i as int], fuel) {
            Ok(next) => sound(next, from),
            Err(_) => true,
        },
    decreases fuel, 0nat, 0nat,
{
    let item = m.ir_bytes[i as int];
    match item.ty {
        IRByteTypeView::Bytes(text) => {
            lemma_hex_is_code_text(text);
            lemma_place_sound(st, text, from);
        },
        IRByteTypeView::Constant(name) => match c.find_constant(name) {
            Some(k) => match k.value {
                ConstValView::Literal(l) => {
                    lemma_literal_text(l);
                    lemma_place_sound(st, push_bytes(literal_hex(l)), from);
                },
                _ => {},
            },
            None => {},
        },
        IRByteTypeView::Statement(s) => match s {
            StatementView::MacroInvocation(mi) => match c.find_macro(mi.macro_name) {
                Some(inner) => {
                    if fuel > 0 {
                        lemma_expand_sound(
                            c,
                            inner,
                            scope.push(inner),
                            mis.push((st.code.offset, mi)),
                            st.code.offset,
                            (fuel - 1) as nat,
                        );
                        match expand_traced(
                            c,
                            inner,
                            scope.push(inner),
                            mis.push((st.code.offset, mi)),
                            st.code.offset,
                            (fuel - 1) as nat,
                        ) {
                            Ok(x) => {
                                lemma_merge_sound(st, x, from);
                            },
                            Err(_) => {},
                        }
                    }
                },
                None => {},
            },
            StatementView::Label(name) => {
                lemma_place_sound(st, jumpdest(), from);
                match place(st.code, jumpdest()) {
                    Ok(code) => {
                        lemma_define_label(st.label_indices, st.trace.defs, name, st.code.offset);
                        lemma_define_labelled(
                            st.label_indices,
                            st.trace.defs,
                            name,
                            st.code.offset,
                        );
                        let defs2 = st.trace.defs.push(Mark { label: name, offset: st.code.offset });
                        assert forall|k: int| 0 <= k < defs2.len() implies marked(code.bytes, #[trigger] defs2[k]) by {
                            if k < st.trace.defs.len() {
                                assert(defs2[k] == st.trace.defs[k]);
                                let i = choose|i: int|
                                    piece_at(code.bytes, i, st.trace.defs[k].offset, jumpdest());
                                assert(piece_at(code.bytes, i, defs2[k].offset, jumpdest()));
                            } else {
                                assert(piece_at(
                                    code.bytes,
                                    st.code.bytes.len() as int,
                                    defs2[k].offset,
                                    jumpdest(),
                                ));
                            }
                        }
                    },
                    Err(_) => {},
                }
            },
            StatementView::LabelCall(name) => {
                lemma_place_sound(st, placeholder(), from);
            },
            StatementView::BuiltinFunctionCall(bf) => match bf.kind {
                BuiltinFunctionKind::Codesize => match c.find_macro(bf.arg) {
                    Some(measured) => {
                        if fuel > 0 {
                            match expand_traced(
                                c,
                                measured,
                                scope,
                                mis,
                                st.code.offset,
                                (fuel - 1) as nat,
                            ) {
                                Ok(x) => {
                                    lemma_size_text(code_len(x.res.bytes));
                                    lemma_place_sound(
                                        st,
                                        push_bytes(size_hex(code_len(x.res.bytes))),
                                        from,
                                    );
                                },
                                Err(_) => {},
                            }
                        }
                    },
                    None => {},
                },
                BuiltinFunctionKind::Tablesize => match c.find_table(bf.arg) {
                    Some(t) => {
                        lemma_size_text(t.size as nat);
                        lemma_place_sound(st, push_bytes(size_hex(t.size as nat)), from);
                    },
                    None => {},
                },
                BuiltinFunctionKind::Tablestart => {
                    lemma_place_sound(st, placeholder(), from);
                    match place(st.code, placeholder()) {
                        Ok(code) => {
                            let inst2 = st.table_instances.push(
                                JumpView { label: bf.arg, bytecode_index: st.code.offset },
                            );
                            assert forall|k: int| 0 <= k < inst2.len() implies placed(code.bytes, #[trigger] inst2[k]) by {
                                if k < st.table_instances.len() {
                                    assert(inst2[k] == st.table_instances[k]);
                                    let i = choose|i: int|
                                        holds_push2(
                                            code.bytes,
                                            i,
                                            st.table_instances[k].bytecode_index,
                                        );
                                    assert(holds_push2(code.bytes, i, inst2[k].bytecode_index));
                                } else {
                                    assert(holds_push2(
                                        code.bytes,
                                        st.code.bytes.len() as int,
                                        inst2[k].bytecode_index,
                                    ));
                                }
                            }
                            assert forall|a: int, b: int| 0 <= a < b < inst2.len() implies (
                            #[trigger] inst2[a]).bytecode_index < (
                            #[trigger] inst2[b]).bytecode_index by {
                                assert(inst2[a] == st.table_instances[a]);
                                if b < st.table_instances.len() {
                                    assert(inst2[b] == st.table_instances[b]);
                                } else {
                                    let i = choose|i: int|
                                        holds_push2(
                                            st.code.bytes,
                                            i,
                                            st.table_instances[a].bytecode_index,
                                        );
                                    lemma_laid_out_piece(
                                        st.code.bytes,
                                        from as int,
                                        st.code.offset as int,
                                        i,
                                    );
                                }
                            }
                        },
                        Err(_) => {},
                    }
                },
            },
            _ => {},
        },
        IRByteTypeView::ArgCall(name) => {
            lemma_resolution_even(c, name, m, scope, mis);
            let r = resolution(c, name, m, scope, mis);
            match r {
                Resolution::Text(text) => {
                    lemma_place_sound(st, text, from);
                },
                Resolution::Jump(_) => {
                    lemma_place_sound(st, placeholder(), from);
                },
                Resolution::Fallback(_, _) => {
                    lemma_place_sound(st, placeholder(), from);
                },
                _ => {},
            }
        },
    }
}

} // verus!
