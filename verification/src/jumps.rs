//! What holds of the jumps of an expansion in which no jump went astray: each
//! reference to a label holds the address of a definition of that label, or is
//! still waiting for it and is reported as open.

use crate::bytecode::JumpView;
use crate::hex::{address_hex, is_hex, lemma_address_hex, max_address, placeholder};
use crate::invariants::{holds_push2, instances_placed, piece_at, placed};
use crate::layout::{laid_out, lemma_laid_out_piece};
use crate::laws::lemma_laid_out_order;
use crate::ast::{
    BuiltinFunctionKind, ConstValView, ContractView, IRByteTypeView, MacroDefinitionView,
    StatementView,
};
use crate::hex::{
    jumpdest, lemma_hex_byte, lemma_hex_is_code_text, literal_hex, push_bytes, size_hex,
};
use crate::invariants::{
    defined, is_def, labels_defined, lemma_expand_sound, lemma_step_sound, sound, sound_result,
};
use crate::layout::{lemma_literal_text, lemma_size_text};
use crate::model::{
    code_len, expand_traced, finish, place, resolution, start, step, walk, Emission, Expansion,
    Invocations, Resolution, Scope,
};
use crate::model::{fill_from, fill_piece, patch, rekey, Mark, Pieces};
use vstd::prelude::*;

verus! {

/// The text of a push of the two-byte address `n`.
pub open spec fn push2(n: nat) -> Seq<char> {
    seq!['6', '1'] + address_hex(n)
}

/// Whether `text` is the push of the address of `defs[k]`, a definition of `label`.
pub open spec fn resolves(defs: Seq<Mark>, k: int, text: Seq<char>, label: Seq<char>) -> bool {
    &&& 0 <= k < defs.len()
    &&& defs[k].label == label
    &&& defs[k].offset <= max_address()
    &&& text == push2(defs[k].offset as nat)
}

/// Whether `text` is the push of the address of a definition of `label`.
pub open spec fn resolved(text: Seq<char>, label: Seq<char>, defs: Seq<Mark>) -> bool {
    exists|k: int| #[trigger] resolves(defs, k, text, label)
}

/// Whether the `i`-th piece is the push of the reference `r`: resolved, or a
/// placeholder whose jump is recorded.
pub open spec fn ref_piece(
    pieces: Pieces,
    table: Map<usize, Seq<JumpView>>,
    defs: Seq<Mark>,
    r: Mark,
    i: int,
) -> bool {
    &&& 0 <= i < pieces.len()
    &&& pieces[i].0 == r.offset
    &&& (pieces[i].1 == placeholder() && table.contains_key(r.offset)) || resolved(
        pieces[i].1,
        r.label,
        defs,
    )
}

/// Whether the reference `r` has its push among the pieces.
pub open spec fn ref_ok(
    pieces: Pieces,
    table: Map<usize, Seq<JumpView>>,
    defs: Seq<Mark>,
    r: Mark,
) -> bool {
    exists|i: int| #[trigger] ref_piece(pieces, table, defs, r, i)
}

/// Whether every jump in `jumps` is a jump to `label` at the start of its piece.
pub open spec fn all_to(jumps: Seq<JumpView>, label: Seq<char>) -> bool {
    forall|idx: int|
        0 <= idx < jumps.len() ==> #[trigger] jumps[idx] == (JumpView { label, bytecode_index: 0 })
}

/// Whether `refs[rk]` is the reference that the jumps under `key` belong to.
pub open spec fn key_ref(
    table: Map<usize, Seq<JumpView>>,
    refs: Seq<Mark>,
    key: usize,
    rk: int,
) -> bool {
    &&& 0 <= rk < refs.len()
    &&& refs[rk].offset == key
    &&& all_to(table[key], refs[rk].label)
}

/// Whether the jumps under `key` belong to a reference whose push is a placeholder.
pub open spec fn key_ok(
    pieces: Pieces,
    table: Map<usize, Seq<JumpView>>,
    refs: Seq<Mark>,
    key: usize,
) -> bool {
    &&& table[key].len() > 0
    &&& exists|rk: int| #[trigger] key_ref(table, refs, key, rk)
    &&& exists|i: int| #[trigger] piece_at(pieces, i, key, placeholder())
}

/// Whether the marks are in the order of their offsets.
pub open spec fn ascending(marks: Seq<Mark>) -> bool {
    forall|a: int, b: int|
        0 <= a < b < marks.len() ==> (#[trigger] marks[a]).offset < (#[trigger] marks[b]).offset
}

/// Whether a reference stands at `offset`.
pub open spec fn is_ref_offset(refs: Seq<Mark>, offset: usize) -> bool {
    exists|k: int| 0 <= k < refs.len() && (#[trigger] refs[k]).offset == offset
}

/// Whether a place that awaits the offset of a table stands at `offset`.
pub open spec fn is_instance_offset(instances: Seq<JumpView>, offset: usize) -> bool {
    exists|k: int| 0 <= k < instances.len() && (#[trigger] instances[k]).bytecode_index == offset
}

/// Whether a piece is hexadecimal text, or the placeholder of a reference or of a
/// place that awaits the offset of a table.
pub open spec fn classified(
    piece: (usize, Seq<char>),
    refs: Seq<Mark>,
    instances: Seq<JumpView>,
) -> bool {
    is_hex(piece.1) || (piece.1 == placeholder() && (is_ref_offset(refs, piece.0)
        || is_instance_offset(instances, piece.0)))
}

/// Whether the place `t` is a placeholder among the pieces.
pub open spec fn awaits_table(pieces: Pieces, t: JumpView) -> bool {
    exists|i: int| #[trigger] piece_at(pieces, i, t.bytecode_index, placeholder())
}

/// Whether no reference stands where a place awaits the offset of a table.
pub open spec fn apart(refs: Seq<Mark>, instances: Seq<JumpView>) -> bool {
    forall|k: int, j: int|
        0 <= k < refs.len() && 0 <= j < instances.len() ==> (#[trigger] refs[k]).offset != (
        #[trigger] instances[j]).bytecode_index
}

/// What holds of the pieces of a walk in which no jump went astray.
pub open spec fn tidy_parts(
    pieces: Pieces,
    table: Map<usize, Seq<JumpView>>,
    defs: Seq<Mark>,
    refs: Seq<Mark>,
    instances: Seq<JumpView>,
) -> bool {
    &&& ascending(refs)
    &&& forall|k: int| 0 <= k < refs.len() ==> ref_ok(pieces, table, defs, #[trigger] refs[k])
    &&& forall|key: usize| #[trigger] table.contains_key(key) ==> key_ok(pieces, table, refs, key)
    &&& forall|i: int| 0 <= i < pieces.len() ==> classified(#[trigger] pieces[i], refs, instances)
    &&& forall|j: int| 0 <= j < instances.len() ==> awaits_table(pieces, #[trigger] instances[j])
    &&& apart(refs, instances)
}

/// Whether an open jump to the label of `r` is reported at the offset of `r`.
pub open spec fn waits(open_jumps: Seq<JumpView>, r: Mark) -> bool {
    exists|u: int|
        0 <= u < open_jumps.len() && #[trigger] open_jumps[u] == (JumpView {
            label: r.label,
            bytecode_index: r.offset,
        })
}

/// Whether the `i`-th piece of a result is the push of the reference `r`: resolved,
/// or a placeholder that is reported as open.
pub open spec fn result_ref_piece(
    pieces: Pieces,
    open_jumps: Seq<JumpView>,
    defs: Seq<Mark>,
    r: Mark,
    i: int,
) -> bool {
    &&& 0 <= i < pieces.len()
    &&& pieces[i].0 == r.offset
    &&& (pieces[i].1 == placeholder() && waits(open_jumps, r)) || resolved(
        pieces[i].1,
        r.label,
        defs,
    )
}

/// Whether the reference `r` has its push among the pieces of a result.
pub open spec fn result_ref_ok(
    pieces: Pieces,
    open_jumps: Seq<JumpView>,
    defs: Seq<Mark>,
    r: Mark,
) -> bool {
    exists|i: int| #[trigger] result_ref_piece(pieces, open_jumps, defs, r, i)
}

/// Whether `refs[rk]` is the reference that the open jump `u` belongs to.
pub open spec fn is_ref(refs: Seq<Mark>, rk: int, u: JumpView) -> bool {
    0 <= rk < refs.len() && refs[rk] == (Mark { label: u.label, offset: u.bytecode_index })
}

/// Whether the open jump `u` belongs to a reference whose push is a placeholder.
pub open spec fn open_ok(pieces: Pieces, refs: Seq<Mark>, u: JumpView) -> bool {
    &&& exists|rk: int| #[trigger] is_ref(refs, rk, u)
    &&& exists|i: int| #[trigger] piece_at(pieces, i, u.bytecode_index, placeholder())
}

/// What holds of a result of an expansion in which no jump went astray.
pub open spec fn tidy_result_parts(
    pieces: Pieces,
    open_jumps: Seq<JumpView>,
    defs: Seq<Mark>,
    refs: Seq<Mark>,
    instances: Seq<JumpView>,
) -> bool {
    &&& ascending(refs)
    &&& forall|k: int|
        0 <= k < refs.len() ==> result_ref_ok(pieces, open_jumps, defs, #[trigger] refs[k])
    &&& forall|u: int|
        0 <= u < open_jumps.len() ==> open_ok(pieces, refs, #[trigger] open_jumps[u])
    &&& forall|i: int| 0 <= i < pieces.len() ==> classified(#[trigger] pieces[i], refs, instances)
    &&& forall|j: int| 0 <= j < instances.len() ==> awaits_table(pieces, #[trigger] instances[j])
    &&& apart(refs, instances)
}

/// A push of an address is hexadecimal text of six characters, and no placeholder.
pub proof fn lemma_push2(n: nat)
    requires
        n <= max_address(),
    ensures
        push2(n).len() == 6,
        is_hex(push2(n)),
        push2(n) != placeholder(),
{
    lemma_address_hex(n);
    let t = push2(n);
    assert forall|i: int| 0 <= i < t.len() implies crate::hex::is_hex_char(#[trigger] t[i]) by {
        if i >= 2 {
            assert(t[i] == address_hex(n)[i - 2]);
            assert(crate::hex::is_lower_hex_char(address_hex(n)[i - 2]));
        }
    }
    assert(t[2] == address_hex(n)[0]);
    assert(crate::hex::is_lower_hex_char(address_hex(n)[0]));
    assert(placeholder()[2] == 'x');
}

/// In a layout two pieces that hold code at the same offset are one piece.
pub proof fn lemma_one_piece_at(pieces: Pieces, from: int, end: int, i: int, j: int)
    requires
        laid_out(pieces, from, end),
        0 <= i < pieces.len(),
        0 <= j < pieces.len(),
        pieces[i].0 == pieces[j].0,
        pieces[i].1.len() > 0,
        pieces[j].1.len() > 0,
    ensures
        i == j,
{
    lemma_laid_out_piece(pieces, from, end, i);
    lemma_laid_out_piece(pieces, from, end, j);
    if i < j {
        lemma_laid_out_order(pieces, from, end, i, j);
    } else if j < i {
        lemma_laid_out_order(pieces, from, end, j, i);
    }
}

/// A reference that has its push among the pieces stands three bytes before the end
/// at least.
pub proof fn lemma_ref_in_range(
    pieces: Pieces,
    from: int,
    end: int,
    table: Map<usize, Seq<JumpView>>,
    defs: Seq<Mark>,
    r: Mark,
)
    requires
        laid_out(pieces, from, end),
        ref_ok(pieces, table, defs, r),
    ensures
        from <= r.offset,
        r.offset + 3 <= end,
{
    let i = choose|i: int| ref_piece(pieces, table, defs, r, i);
    lemma_laid_out_piece(pieces, from, end, i);
    if resolved(pieces[i].1, r.label, defs) {
        let k = choose|k: int| resolves(defs, k, pieces[i].1, r.label);
        lemma_push2(defs[k].offset as nat);
    }
}

/// A further piece that is hexadecimal text, and further definitions, leave the
/// pieces tidy.
pub proof fn lemma_tidy_push(
    pieces: Pieces,
    table: Map<usize, Seq<JumpView>>,
    defs: Seq<Mark>,
    refs: Seq<Mark>,
    instances: Seq<JumpView>,
    piece: (usize, Seq<char>),
    more_defs: Seq<Mark>,
)
    requires
        tidy_parts(pieces, table, defs, refs, instances),
        is_hex(piece.1),
    ensures
        tidy_parts(pieces.push(piece), table, defs + more_defs, refs, instances),
{
    let after = pieces.push(piece);
    let defs2 = defs + more_defs;
    assert forall|k: int| 0 <= k < refs.len() implies ref_ok(
        after,
        table,
        defs2,
        #[trigger] refs[k],
    ) by {
        let r = refs[k];
        let i = choose|i: int| ref_piece(pieces, table, defs, r, i);
        assert(after[i] == pieces[i]);
        if resolved(pieces[i].1, r.label, defs) {
            let d = choose|d: int| resolves(defs, d, pieces[i].1, r.label);
            assert(defs2[d] == defs[d]);
            assert(resolves(defs2, d, after[i].1, r.label));
        }
        assert(ref_piece(after, table, defs2, r, i));
    }
    assert forall|key: usize| #[trigger] table.contains_key(key) implies key_ok(
        after,
        table,
        refs,
        key,
    ) by {
        assert(key_ok(pieces, table, refs, key));
        let i = choose|i: int| piece_at(pieces, i, key, placeholder());
        assert(piece_at(after, i, key, placeholder()));
    }
    assert forall|i: int| 0 <= i < after.len() implies classified(
        #[trigger] after[i],
        refs,
        instances,
    ) by {
        if i < pieces.len() {
            assert(after[i] == pieces[i]);
            assert(classified(pieces[i], refs, instances));
        }
    }
    assert forall|j: int| 0 <= j < instances.len() implies awaits_table(
        after,
        #[trigger] instances[j],
    ) by {
        let t = instances[j];
        assert(awaits_table(pieces, t));
        let i = choose|i: int| piece_at(pieces, i, t.bytecode_index, placeholder());
        assert(piece_at(after, i, t.bytecode_index, placeholder()));
    }
}

/// A reference that is placed at the end of the pieces, with its jump recorded
/// under its own offset, leaves the pieces tidy.
pub proof fn lemma_tidy_new_ref(
    pieces: Pieces,
    from: int,
    end: usize,
    table: Map<usize, Seq<JumpView>>,
    defs: Seq<Mark>,
    refs: Seq<Mark>,
    instances: Seq<JumpView>,
    label: Seq<char>,
)
    requires
        laid_out(pieces, from, end as int),
        instances_placed(pieces, instances),
        tidy_parts(pieces, table, defs, refs, instances),
    ensures
        tidy_parts(
            pieces.push((end, placeholder())),
            table.insert(end, seq![JumpView { label, bytecode_index: 0 }]),
            defs,
            refs.push(Mark { label, offset: end }),
            instances,
        ),
{
    let after = pieces.push((end, placeholder()));
    let table2 = table.insert(end, seq![JumpView { label, bytecode_index: 0 }]);
    let refs2 = refs.push(Mark { label, offset: end });
    assert forall|a: int, b: int| 0 <= a < b < refs2.len() implies (#[trigger] refs2[a]).offset < (
    #[trigger] refs2[b]).offset by {
        assert(refs2[a] == refs[a]);
        if b < refs.len() {
            assert(refs2[b] == refs[b]);
        } else {
            assert(ref_ok(pieces, table, defs, refs[a]));
            lemma_ref_in_range(pieces, from, end as int, table, defs, refs[a]);
        }
    }
    assert forall|k: int| 0 <= k < refs2.len() implies ref_ok(
        after,
        table2,
        defs,
        #[trigger] refs2[k],
    ) by {
        let r = refs2[k];
        if k < refs.len() {
            assert(r == refs[k]);
            let i = choose|i: int| ref_piece(pieces, table, defs, r, i);
            assert(after[i] == pieces[i]);
            assert(ref_piece(after, table2, defs, r, i));
        } else {
            assert(ref_piece(after, table2, defs, r, pieces.len() as int));
        }
    }
    assert forall|key: usize| #[trigger] table2.contains_key(key) implies key_ok(
        after,
        table2,
        refs2,
        key,
    ) by {
        if key == end {
            assert(key_ref(table2, refs2, key, refs.len() as int));
            assert(piece_at(after, pieces.len() as int, key, placeholder()));
        } else {
            assert(table.contains_key(key));
            assert(key_ok(pieces, table, refs, key));
            let rk = choose|rk: int| key_ref(table, refs, key, rk);
            assert(refs2[rk] == refs[rk]);
            assert(key_ref(table2, refs2, key, rk));
            let i = choose|i: int| piece_at(pieces, i, key, placeholder());
            assert(piece_at(after, i, key, placeholder()));
        }
    }
    assert forall|i: int| 0 <= i < after.len() implies classified(
        #[trigger] after[i],
        refs2,
        instances,
    ) by {
        if i < pieces.len() {
            assert(after[i] == pieces[i]);
            assert(classified(pieces[i], refs, instances));
            if is_ref_offset(refs, pieces[i].0) {
                let k = choose|k: int| 0 <= k < refs.len() && (#[trigger] refs[k]).offset
                    == pieces[i].0;
                assert(refs2[k] == refs[k]);
            }
        } else {
            assert(refs2[refs.len() as int].offset == end);
        }
    }
    assert forall|j: int| 0 <= j < instances.len() implies awaits_table(
        after,
        #[trigger] instances[j],
    ) by {
        let t = instances[j];
        assert(awaits_table(pieces, t));
        let i = choose|i: int| piece_at(pieces, i, t.bytecode_index, placeholder());
        assert(piece_at(after, i, t.bytecode_index, placeholder()));
    }
    assert forall|k: int, j: int|
        0 <= k < refs2.len() && 0 <= j < instances.len() implies (#[trigger] refs2[k]).offset != (
    #[trigger] instances[j]).bytecode_index by {
        if k < refs.len() {
            assert(refs2[k] == refs[k]);
        } else {
            assert(placed(pieces, instances[j]));
            let i = choose|i: int| holds_push2(pieces, i, instances[j].bytecode_index);
            lemma_laid_out_piece(pieces, from, end as int, i);
        }
    }
}

/// A place that awaits the offset of a table, placed at the end of the pieces,
/// leaves the pieces tidy.
pub proof fn lemma_tidy_new_instance(
    pieces: Pieces,
    from: int,
    end: usize,
    table: Map<usize, Seq<JumpView>>,
    defs: Seq<Mark>,
    refs: Seq<Mark>,
    instances: Seq<JumpView>,
    name: Seq<char>,
)
    requires
        laid_out(pieces, from, end as int),
        tidy_parts(pieces, table, defs, refs, instances),
    ensures
        tidy_parts(
            pieces.push((end, placeholder())),
            table,
            defs,
            refs,
            instances.push(JumpView { label: name, bytecode_index: end }),
        ),
{
    let after = pieces.push((end, placeholder()));
    let inst2 = instances.push(JumpView { label: name, bytecode_index: end });
    assert forall|k: int| 0 <= k < refs.len() implies ref_ok(
        after,
        table,
        defs,
        #[trigger] refs[k],
    ) by {
        let r = refs[k];
        let i = choose|i: int| ref_piece(pieces, table, defs, r, i);
        assert(after[i] == pieces[i]);
        assert(ref_piece(after, table, defs, r, i));
    }
    assert forall|key: usize| #[trigger] table.contains_key(key) implies key_ok(
        after,
        table,
        refs,
        key,
    ) by {
        assert(key_ok(pieces, table, refs, key));
        let i = choose|i: int| piece_at(pieces, i, key, placeholder());
        assert(piece_at(after, i, key, placeholder()));
    }
    assert forall|i: int| 0 <= i < after.len() implies classified(
        #[trigger] after[i],
        refs,
        inst2,
    ) by {
        if i < pieces.len() {
            assert(after[i] == pieces[i]);
            assert(classified(pieces[i], refs, instances));
            if is_instance_offset(instances, pieces[i].0) {
                let k = choose|k: int|
                    0 <= k < instances.len() && (#[trigger] instances[k]).bytecode_index
                        == pieces[i].0;
                assert(inst2[k] == instances[k]);
            }
        } else {
            assert(inst2[instances.len() as int].bytecode_index == end);
        }
    }
    assert forall|j: int| 0 <= j < inst2.len() implies awaits_table(after, #[trigger] inst2[j]) by {
        let t = inst2[j];
        if j < instances.len() {
            assert(t == instances[j]);
            assert(awaits_table(pieces, t));
            let i = choose|i: int| piece_at(pieces, i, t.bytecode_index, placeholder());
            assert(piece_at(after, i, t.bytecode_index, placeholder()));
        } else {
            assert(piece_at(after, pieces.len() as int, t.bytecode_index, placeholder()));
        }
    }
    assert forall|k: int, j: int|
        0 <= k < refs.len() && 0 <= j < inst2.len() implies (#[trigger] refs[k]).offset != (
    #[trigger] inst2[j]).bytecode_index by {
        if j < instances.len() {
            assert(inst2[j] == instances[j]);
        } else {
            assert(ref_ok(pieces, table, defs, refs[k]));
            lemma_ref_in_range(pieces, from, end as int, table, defs, refs[k]);
        }
    }
}

/// Whether one of the open jumps from the `k`-th on stands at `key`.
pub open spec fn keyed_from(open_jumps: Seq<JumpView>, k: int, key: usize) -> bool {
    exists|u: int| k <= u < open_jumps.len() && (#[trigger] open_jumps[u]).bytecode_index == key
}

/// Whether all open jumps from the `k`-th on that stand at `key` are jumps to
/// `label`.
pub open spec fn labelled_from(
    open_jumps: Seq<JumpView>,
    k: int,
    key: usize,
    label: Seq<char>,
) -> bool {
    forall|u: int|
        k <= u < open_jumps.len() && (#[trigger] open_jumps[u]).bytecode_index == key
            ==> open_jumps[u].label == label
}

/// What recording the open jumps of an inner macro does to the jumps under `key`.
pub proof fn lemma_rekey_key(
    table: Map<usize, Seq<JumpView>>,
    open_jumps: Seq<JumpView>,
    k: nat,
    key: usize,
    label: Seq<char>,
)
    ensures
        rekey(table, open_jumps, k).contains_key(key) == (table.contains_key(key) || keyed_from(
            open_jumps,
            k as int,
            key,
        )),
        table.contains_key(key) && !keyed_from(open_jumps, k as int, key) ==> rekey(
            table,
            open_jumps,
            k,
        )[key] == table[key],
        (table.contains_key(key) ==> all_to(table[key], label)) && labelled_from(
            open_jumps,
            k as int,
            key,
            label,
        ) && rekey(table, open_jumps, k).contains_key(key) ==> all_to(
            rekey(table, open_jumps, k)[key],
            label,
        ),
        (table.contains_key(key) ==> table[key].len() > 0) && rekey(
            table,
            open_jumps,
            k,
        ).contains_key(key) ==> rekey(table, open_jumps, k)[key].len() > 0,
    decreases open_jumps.len() - k,
{
    if k < open_jumps.len() {
        let j = open_jumps[k as int];
        let earlier = if table.contains_key(j.bytecode_index) {
            table[j.bytecode_index]
        } else {
            Seq::empty()
        };
        let list = earlier.push(JumpView { label: j.label, bytecode_index: 0 });
        let next = table.insert(j.bytecode_index, list);
        lemma_rekey_key(next, open_jumps, k + 1, key, label);
        if keyed_from(open_jumps, k as int + 1, key) {
            let u = choose|u: int|
                k + 1 <= u < open_jumps.len() && (#[trigger] open_jumps[u]).bytecode_index == key;
            assert(k <= u < open_jumps.len() && open_jumps[u].bytecode_index == key);
        }
        if keyed_from(open_jumps, k as int, key) && j.bytecode_index != key {
            let u = choose|u: int|
                k <= u < open_jumps.len() && (#[trigger] open_jumps[u]).bytecode_index == key;
            assert(k + 1 <= u < open_jumps.len() && open_jumps[u].bytecode_index == key);
        }
        if (table.contains_key(key) ==> all_to(table[key], label)) && labelled_from(
            open_jumps,
            k as int,
            key,
            label,
        ) {
            assert(labelled_from(open_jumps, k as int + 1, key, label));
            if j.bytecode_index == key {
                assert(j.label == label);
                assert forall|idx: int| 0 <= idx < list.len() implies #[trigger] list[idx] == (
                JumpView { label, bytecode_index: 0 }) by {
                    if idx < earlier.len() {
                        assert(list[idx] == earlier[idx]);
                    }
                }
            }
        }
    }
}

/// A reference that has its push among the pieces of a result stands three bytes
/// before the end at least.
pub proof fn lemma_result_ref_in_range(
    pieces: Pieces,
    from: int,
    end: int,
    open_jumps: Seq<JumpView>,
    defs: Seq<Mark>,
    r: Mark,
)
    requires
        laid_out(pieces, from, end),
        result_ref_ok(pieces, open_jumps, defs, r),
    ensures
        from <= r.offset,
        r.offset + 3 <= end,
{
    let i = choose|i: int| result_ref_piece(pieces, open_jumps, defs, r, i);
    lemma_laid_out_piece(pieces, from, end, i);
    if resolved(pieces[i].1, r.label, defs) {
        let k = choose|k: int| resolves(defs, k, pieces[i].1, r.label);
        lemma_push2(defs[k].offset as nat);
    }
}

/// The result of an inner macro that is tidy, taken into a walk that is tidy, leaves
/// the walk tidy.
pub proof fn lemma_tidy_merge(
    a: Pieces,
    b: Pieces,
    from: int,
    mid: int,
    end: int,
    table: Map<usize, Seq<JumpView>>,
    open_jumps: Seq<JumpView>,
    defs_a: Seq<Mark>,
    defs_b: Seq<Mark>,
    refs_a: Seq<Mark>,
    refs_b: Seq<Mark>,
    inst_a: Seq<JumpView>,
    inst_b: Seq<JumpView>,
)
    requires
        laid_out(a, from, mid),
        laid_out(b, mid, end),
        instances_placed(a, inst_a),
        instances_placed(b, inst_b),
        tidy_parts(a, table, defs_a, refs_a, inst_a),
        tidy_result_parts(b, open_jumps, defs_b, refs_b, inst_b),
    ensures
        tidy_parts(
            a + b,
            rekey(table, open_jumps, 0),
            defs_a + defs_b,
            refs_a + refs_b,
            inst_a + inst_b,
        ),
{
    let p = a + b;
    let table2 = rekey(table, open_jumps, 0);
    let defs = defs_a + defs_b;
    let refs = refs_a + refs_b;
    let inst = inst_a + inst_b;
    // where the references and the places of both sides stand
    assert forall|k: int| 0 <= k < refs_a.len() implies from <= (#[trigger] refs_a[k]).offset
        && refs_a[k].offset + 3 <= mid by {
        assert(ref_ok(a, table, defs_a, refs_a[k]));
        lemma_ref_in_range(a, from, mid, table, defs_a, refs_a[k]);
    }
    assert forall|k: int| 0 <= k < refs_b.len() implies mid <= (#[trigger] refs_b[k]).offset
        && refs_b[k].offset + 3 <= end by {
        assert(result_ref_ok(b, open_jumps, defs_b, refs_b[k]));
        lemma_result_ref_in_range(b, mid, end, open_jumps, defs_b, refs_b[k]);
    }
    assert forall|j: int| 0 <= j < inst_a.len() implies (#[trigger] inst_a[j]).bytecode_index + 3
        <= mid by {
        assert(placed(a, inst_a[j]));
        let i = choose|i: int| holds_push2(a, i, inst_a[j].bytecode_index);
        lemma_laid_out_piece(a, from, mid, i);
    }
    assert forall|j: int| 0 <= j < inst_b.len() implies mid <= (
    #[trigger] inst_b[j]).bytecode_index by {
        assert(placed(b, inst_b[j]));
        let i = choose|i: int| holds_push2(b, i, inst_b[j].bytecode_index);
        lemma_laid_out_piece(b, mid, end, i);
    }
    assert forall|u: int| 0 <= u < open_jumps.len() implies mid <= (
    #[trigger] open_jumps[u]).bytecode_index by {
        assert(open_ok(b, refs_b, open_jumps[u]));
        let i = choose|i: int| piece_at(b, i, open_jumps[u].bytecode_index, placeholder());
        lemma_laid_out_piece(b, mid, end, i);
    }
    // the references are in order
    assert forall|x: int, y: int| 0 <= x < y < refs.len() implies (#[trigger] refs[x]).offset < (
    #[trigger] refs[y]).offset by {
        if y < refs_a.len() {
            assert(refs[x] == refs_a[x] && refs[y] == refs_a[y]);
        } else if x >= refs_a.len() {
            assert(refs[x] == refs_b[x - refs_a.len()] && refs[y] == refs_b[y - refs_a.len()]);
        } else {
            assert(refs[x] == refs_a[x]);
            assert(refs[y] == refs_b[y - refs_a.len()]);
        }
    }
    // each reference has its push
    assert forall|k: int| 0 <= k < refs.len() implies ref_ok(p, table2, defs, #[trigger] refs[k]) by {
        let r = refs[k];
        if k < refs_a.len() {
            assert(r == refs_a[k]);
            let i = choose|i: int| ref_piece(a, table, defs_a, r, i);
            assert(p[i] == a[i]);
            if resolved(a[i].1, r.label, defs_a) {
                let d = choose|d: int| resolves(defs_a, d, a[i].1, r.label);
                assert(defs[d] == defs_a[d]);
                assert(resolves(defs, d, p[i].1, r.label));
            } else {
                lemma_rekey_key(table, open_jumps, 0, r.offset, r.label);
            }
            assert(ref_piece(p, table2, defs, r, i));
        } else {
            assert(r == refs_b[k - refs_a.len()]);
            let i = choose|i: int| result_ref_piece(b, open_jumps, defs_b, r, i);
            assert(p[a.len() + i] == b[i]);
            if resolved(b[i].1, r.label, defs_b) {
                let d = choose|d: int| resolves(defs_b, d, b[i].1, r.label);
                assert(defs[defs_a.len() + d] == defs_b[d]);
                assert(resolves(defs, defs_a.len() + d, p[a.len() + i].1, r.label));
            } else {
                assert(waits(open_jumps, r));
                let u = choose|u: int|
                    0 <= u < open_jumps.len() && #[trigger] open_jumps[u] == (JumpView {
                        label: r.label,
                        bytecode_index: r.offset,
                    });
                assert(open_jumps[u].bytecode_index == r.offset);
                assert(keyed_from(open_jumps, 0, r.offset));
                lemma_rekey_key(table, open_jumps, 0, r.offset, r.label);
            }
            assert(ref_piece(p, table2, defs, r, a.len() + i));
        }
    }
    // each key belongs to a reference that is open
    assert forall|key: usize| #[trigger] table2.contains_key(key) implies key_ok(
        p,
        table2,
        refs,
        key,
    ) by {
        if table.contains_key(key) {
            assert(key_ok(a, table, refs_a, key));
            let rk = choose|rk: int| key_ref(table, refs_a, key, rk);
            assert(refs_a[rk].offset + 3 <= mid);
            if keyed_from(open_jumps, 0, key) {
                let u = choose|u: int|
                    0 <= u < open_jumps.len() && (#[trigger] open_jumps[u]).bytecode_index == key;
                assert(mid <= open_jumps[u].bytecode_index);
            }
            lemma_rekey_key(table, open_jumps, 0, key, refs_a[rk].label);
            assert(refs[rk] == refs_a[rk]);
            assert(key_ref(table2, refs, key, rk));
            let i = choose|i: int| piece_at(a, i, key, placeholder());
            assert(piece_at(p, i, key, placeholder()));
        } else {
            lemma_rekey_key(table, open_jumps, 0, key, Seq::empty());
            assert(keyed_from(open_jumps, 0, key));
            let u = choose|u: int|
                0 <= u < open_jumps.len() && (#[trigger] open_jumps[u]).bytecode_index == key;
            assert(open_ok(b, refs_b, open_jumps[u]));
            let rk = choose|rk: int| is_ref(refs_b, rk, open_jumps[u]);
            let label = refs_b[rk].label;
            assert forall|v: int|
                0 <= v < open_jumps.len() && (#[trigger] open_jumps[v]).bytecode_index
                    == key implies open_jumps[v].label == label by {
                assert(open_ok(b, refs_b, open_jumps[v]));
                let rv = choose|rv: int| is_ref(refs_b, rv, open_jumps[v]);
                if rv < rk {
                    assert(refs_b[rv].offset < refs_b[rk].offset);
                } else if rk < rv {
                    assert(refs_b[rk].offset < refs_b[rv].offset);
                }
            }
            assert(labelled_from(open_jumps, 0, key, label));
            lemma_rekey_key(table, open_jumps, 0, key, label);
            assert(refs[refs_a.len() + rk] == refs_b[rk]);
            assert(key_ref(table2, refs, key, refs_a.len() + rk));
            let i = choose|i: int| piece_at(b, i, key, placeholder());
            assert(p[a.len() + i] == b[i]);
            assert(piece_at(p, a.len() + i, key, placeholder()));
        }
    }
    // each piece is hexadecimal text or a placeholder that is accounted for
    assert forall|i: int| 0 <= i < p.len() implies classified(#[trigger] p[i], refs, inst) by {
        if i < a.len() {
            assert(p[i] == a[i]);
            assert(classified(a[i], refs_a, inst_a));
            if is_ref_offset(refs_a, a[i].0) {
                let k = choose|k: int| 0 <= k < refs_a.len() && (#[trigger] refs_a[k]).offset
                    == a[i].0;
                assert(refs[k] == refs_a[k]);
            }
            if is_instance_offset(inst_a, a[i].0) {
                let k = choose|k: int|
                    0 <= k < inst_a.len() && (#[trigger] inst_a[k]).bytecode_index == a[i].0;
                assert(inst[k] == inst_a[k]);
            }
        } else {
            let q = i - a.len();
            assert(p[i] == b[q]);
            assert(classified(b[q], refs_b, inst_b));
            if is_ref_offset(refs_b, b[q].0) {
                let k = choose|k: int| 0 <= k < refs_b.len() && (#[trigger] refs_b[k]).offset
                    == b[q].0;
                assert(refs[refs_a.len() + k] == refs_b[k]);
            }
            if is_instance_offset(inst_b, b[q].0) {
                let k = choose|k: int|
                    0 <= k < inst_b.len() && (#[trigger] inst_b[k]).bytecode_index == b[q].0;
                assert(inst[inst_a.len() + k] == inst_b[k]);
            }
        }
    }
    assert forall|j: int| 0 <= j < inst.len() implies awaits_table(p, #[trigger] inst[j]) by {
        let t = inst[j];
        if j < inst_a.len() {
            assert(t == inst_a[j]);
            assert(awaits_table(a, t));
            let i = choose|i: int| piece_at(a, i, t.bytecode_index, placeholder());
            assert(piece_at(p, i, t.bytecode_index, placeholder()));
        } else {
            assert(t == inst_b[j - inst_a.len()]);
            assert(awaits_table(b, t));
            let i = choose|i: int| piece_at(b, i, t.bytecode_index, placeholder());
            assert(p[a.len() + i] == b[i]);
            assert(piece_at(p, a.len() + i, t.bytecode_index, placeholder()));
        }
    }
    assert forall|k: int, j: int| 0 <= k < refs.len() && 0 <= j < inst.len() implies (
    #[trigger] refs[k]).offset != (#[trigger] inst[j]).bytecode_index by {
        if k < refs_a.len() {
            assert(refs[k] == refs_a[k]);
            if j < inst_a.len() {
                assert(inst[j] == inst_a[j]);
            } else {
                assert(inst[j] == inst_b[j - inst_a.len()]);
            }
        } else {
            assert(refs[k] == refs_b[k - refs_a.len()]);
            if j < inst_a.len() {
                assert(inst[j] == inst_a[j]);
            } else {
                assert(inst[j] == inst_b[j - inst_a.len()]);
            }
        }
    }
}

/// Whether `text` is an instruction of three bytes that starts with `PUSH2`.
pub open spec fn starts_push2(text: Seq<char>) -> bool {
    text.len() == 6 && text[0] == '6' && text[1] == '1'
}

/// An address written into a push of two bytes gives the push of that address.
pub proof fn lemma_patch_push2(text: Seq<char>, value: nat)
    requires
        starts_push2(text),
        value <= max_address(),
    ensures
        patch(text, 0, value) == push2(value),
        starts_push2(push2(value)),
{
    lemma_address_hex(value);
    assert(patch(text, 0, value) =~= push2(value));
}

/// What filling does to a piece whose jumps all go to `label`.
pub proof fn lemma_fill_piece_uniform(
    text: Seq<char>,
    code_index: usize,
    jumps: Seq<JumpView>,
    labels: Map<Seq<char>, usize>,
    open_jumps: Seq<JumpView>,
    k: nat,
    label: Seq<char>,
)
    requires
        all_to(jumps, label),
        k <= jumps.len(),
    ensures
        match fill_piece(text, code_index, jumps, labels, open_jumps, k) {
            Ok((t, u)) => {
                if labels.contains_key(label) {
                    &&& u == open_jumps
                    &&& text.len() < 6 || k == jumps.len() ==> t == text
                    &&& starts_push2(text) && k < jumps.len() ==> t == push2(labels[label] as nat)
                        && labels[label] <= max_address()
                } else {
                    &&& t == text
                    &&& u.len() == open_jumps.len() + jumps.len() - k
                    &&& forall|idx: int| 0 <= idx < open_jumps.len() ==> u[idx] == open_jumps[idx]
                    &&& forall|idx: int|
                        open_jumps.len() <= idx < u.len() ==> #[trigger] u[idx] == (JumpView {
                            label,
                            bytecode_index: code_index,
                        })
                }
            },
            Err(_) => true,
        },
    decreases jumps.len() - k,
{
    if k < jumps.len() {
        let j = jumps[k as int];
        assert(j == JumpView { label, bytecode_index: 0 });
        if labels.contains_key(label) {
            if 6 <= text.len() {
                if labels[label] <= max_address() {
                    let next = patch(text, 0, labels[label] as nat);
                    if starts_push2(text) {
                        lemma_patch_push2(text, labels[label] as nat);
                    }
                    lemma_fill_piece_uniform(
                        next,
                        code_index,
                        jumps,
                        labels,
                        open_jumps,
                        k + 1,
                        label,
                    );
                }
            } else {
                lemma_fill_piece_uniform(text, code_index, jumps, labels, open_jumps, k + 1, label);
            }
        } else {
            let next = open_jumps.push(JumpView { label, bytecode_index: code_index });
            lemma_fill_piece_uniform(text, code_index, jumps, labels, next, k + 1, label);
            match fill_piece(text, code_index, jumps, labels, next, k + 1) {
                Ok((t, u)) => {
                    assert forall|idx: int| 0 <= idx < open_jumps.len() implies u[idx]
                        == open_jumps[idx] by {
                        assert(next[idx] == open_jumps[idx]);
                    }
                    assert forall|idx: int| open_jumps.len() <= idx < u.len() implies #[trigger] u[idx]
                        == (JumpView { label, bytecode_index: code_index }) by {
                        if idx == open_jumps.len() {
                            assert(u[idx] == next[idx]);
                        }
                    }
                },
                Err(_) => {},
            }
        }
    }
}

/// The label of the jumps under `key`.
pub open spec fn key_label(table: Map<usize, Seq<JumpView>>, key: usize) -> Seq<char> {
    table[key][0].label
}

/// Whether the jumps of the `q`-th piece go to a label that is not known.
pub open spec fn stays_open(
    pieces: Pieces,
    table: Map<usize, Seq<JumpView>>,
    labels: Map<Seq<char>, usize>,
    q: int,
) -> bool {
    &&& 0 <= q < pieces.len()
    &&& table.contains_key(pieces[q].0)
    &&& !labels.contains_key(key_label(table, pieces[q].0))
}

/// The open jump that is reported for the `q`-th piece.
pub open spec fn open_jump_of(
    pieces: Pieces,
    table: Map<usize, Seq<JumpView>>,
    q: int,
) -> JumpView {
    JumpView { label: key_label(table, pieces[q].0), bytecode_index: pieces[q].0 }
}

/// Whether `u` is the open jump that is reported for the `q`-th piece.
pub open spec fn reported(
    pieces: Pieces,
    table: Map<usize, Seq<JumpView>>,
    labels: Map<Seq<char>, usize>,
    q: int,
    u: JumpView,
) -> bool {
    stays_open(pieces, table, labels, q) && u == open_jump_of(pieces, table, q)
}

/// Whether `u` is reported for one of the pieces.
pub open spec fn from_piece(
    pieces: Pieces,
    table: Map<usize, Seq<JumpView>>,
    labels: Map<Seq<char>, usize>,
    u: JumpView,
) -> bool {
    exists|q: int| #[trigger] reported(pieces, table, labels, q, u)
}

/// Whether `u` is among the open jumps.
pub open spec fn has_jump(open_jumps: Seq<JumpView>, u: JumpView) -> bool {
    exists|idx: int| 0 <= idx < open_jumps.len() && #[trigger] open_jumps[idx] == u
}

/// Whether `text` is what filling makes of the `q`-th piece: the push of the address
/// of its label where the piece is a placeholder whose label is known, and the piece
/// itself otherwise.
pub open spec fn piece_filled(
    pieces: Pieces,
    table: Map<usize, Seq<JumpView>>,
    labels: Map<Seq<char>, usize>,
    q: int,
    filled: (usize, Seq<char>),
) -> bool {
    &&& filled.0 == pieces[q].0
    &&& if table.contains_key(pieces[q].0) && pieces[q].1 == placeholder() && labels.contains_key(
        key_label(table, pieces[q].0),
    ) {
        &&& labels[key_label(table, pieces[q].0)] <= max_address()
        &&& filled.1 == push2(labels[key_label(table, pieces[q].0)] as nat)
    } else {
        filled.1 == pieces[q].1
    }
}

/// What holds of the pieces that have been filled and of the open jumps that they
/// left.
pub open spec fn filled_so_far(
    pieces: Pieces,
    table: Map<usize, Seq<JumpView>>,
    labels: Map<Seq<char>, usize>,
    done: Pieces,
    open_jumps: Seq<JumpView>,
) -> bool {
    &&& done.len() <= pieces.len()
    &&& forall|q: int| 0 <= q < done.len() ==> piece_filled(pieces, table, labels, q, #[trigger] done[q])
    &&& forall|u: int|
        0 <= u < open_jumps.len() ==> from_piece(pieces, table, labels, #[trigger] open_jumps[u])
    &&& forall|q: int|
        0 <= q < done.len() && #[trigger] stays_open(pieces, table, labels, q) ==> has_jump(
            open_jumps,
            open_jump_of(pieces, table, q),
        )
}

/// Filling the pieces from the `i`-th on keeps what holds of the pieces that have been
/// filled.
pub proof fn lemma_tidy_fill(
    pieces: Pieces,
    from: int,
    end: int,
    table: Map<usize, Seq<JumpView>>,
    labels: Map<Seq<char>, usize>,
    defs: Seq<Mark>,
    refs: Seq<Mark>,
    instances: Seq<JumpView>,
    done: Pieces,
    open_jumps: Seq<JumpView>,
    i: nat,
)
    requires
        laid_out(pieces, from, end),
        tidy_parts(pieces, table, defs, refs, instances),
        done.len() == i,
        filled_so_far(pieces, table, labels, done, open_jumps),
    ensures
        match fill_from(pieces, table, labels, done, open_jumps, i) {
            Ok((out, still_open)) => out.len() == pieces.len() && filled_so_far(
                pieces,
                table,
                labels,
                out,
                still_open,
            ),
            Err(_) => true,
        },
    decreases pieces.len() - i,
{
    if i < pieces.len() {
        let (code_index, text) = pieces[i as int];
        if table.contains_key(code_index) {
            assert(key_ok(pieces, table, refs, code_index));
            let rk = choose|rk: int| key_ref(table, refs, code_index, rk);
            let label = refs[rk].label;
            let jumps = table[code_index];
            assert(jumps[0] == JumpView { label, bytecode_index: 0 });
            assert(key_label(table, code_index) == label);
            lemma_fill_piece_uniform(text, code_index, jumps, labels, open_jumps, 0, label);
            let at = choose|at: int| piece_at(pieces, at, code_index, placeholder());
            if text.len() >= 6 {
                lemma_one_piece_at(pieces, from, end, i as int, at);
                assert(text == placeholder());
            }
            match fill_piece(text, code_index, jumps, labels, open_jumps, 0) {
                Ok((filled, still_open)) => {
                    let next = done.push((code_index, filled));
                    assert(filled_so_far(pieces, table, labels, next, still_open)) by {
                        assert forall|q: int| 0 <= q < next.len() implies piece_filled(
                            pieces,
                            table,
                            labels,
                            q,
                            #[trigger] next[q],
                        ) by {
                            if q < i {
                                assert(next[q] == done[q]);
                            } else {
                                if text == placeholder() {
                                    assert(starts_push2(text));
                                }
                            }
                        }
                        assert forall|u: int| 0 <= u < still_open.len() implies from_piece(
                            pieces,
                            table,
                            labels,
                            #[trigger] still_open[u],
                        ) by {
                            if labels.contains_key(label) {
                                assert(still_open[u] == open_jumps[u]);
                            } else if u < open_jumps.len() {
                                assert(still_open[u] == open_jumps[u]);
                            } else {
                                assert(reported(pieces, table, labels, i as int, still_open[u]));
                            }
                        }
                        assert forall|q: int|
                            0 <= q < next.len() && #[trigger] stays_open(
                                pieces,
                                table,
                                labels,
                                q,
                            ) implies has_jump(still_open, open_jump_of(pieces, table, q)) by {
                            if q < i {
                                assert(has_jump(open_jumps, open_jump_of(pieces, table, q)));
                                let idx = choose|idx: int|
                                    0 <= idx < open_jumps.len() && #[trigger] open_jumps[idx]
                                        == open_jump_of(pieces, table, q);
                                assert(still_open[idx] == open_jumps[idx]);
                            } else {
                                assert(still_open[open_jumps.len() as int] == open_jump_of(
                                    pieces,
                                    table,
                                    q,
                                ));
                            }
                        }
                    }
                    lemma_tidy_fill(
                        pieces,
                        from,
                        end,
                        table,
                        labels,
                        defs,
                        refs,
                        instances,
                        next,
                        still_open,
                        i + 1,
                    );
                },
                Err(_) => {},
            }
        } else {
            let next = done.push((code_index, text));
            assert(filled_so_far(pieces, table, labels, next, open_jumps)) by {
                assert forall|q: int| 0 <= q < next.len() implies piece_filled(
                    pieces,
                    table,
                    labels,
                    q,
                    #[trigger] next[q],
                ) by {
                    if q < i {
                        assert(next[q] == done[q]);
                    }
                }
            }
            lemma_tidy_fill(
                pieces,
                from,
                end,
                table,
                labels,
                defs,
                refs,
                instances,
                next,
                open_jumps,
                i + 1,
            );
        }
    }
}

/// Pieces that are tidy are tidy as a result once they are filled.
pub proof fn lemma_tidy_filled(
    pieces: Pieces,
    from: int,
    end: int,
    table: Map<usize, Seq<JumpView>>,
    labels: Map<Seq<char>, usize>,
    defs: Seq<Mark>,
    refs: Seq<Mark>,
    instances: Seq<JumpView>,
    out: Pieces,
    open_jumps: Seq<JumpView>,
)
    requires
        laid_out(pieces, from, end),
        tidy_parts(pieces, table, defs, refs, instances),
        labels_defined(labels, defs),
        out.len() == pieces.len(),
        filled_so_far(pieces, table, labels, out, open_jumps),
    ensures
        tidy_result_parts(out, open_jumps, defs, refs, instances),
{
    assert forall|k: int| 0 <= k < refs.len() implies result_ref_ok(
        out,
        open_jumps,
        defs,
        #[trigger] refs[k],
    ) by {
        let r = refs[k];
        let i = choose|i: int| ref_piece(pieces, table, defs, r, i);
        assert(piece_filled(pieces, table, labels, i, out[i]));
        if resolved(pieces[i].1, r.label, defs) {
            let d = choose|d: int| resolves(defs, d, pieces[i].1, r.label);
            lemma_push2(defs[d].offset as nat);
            assert(out[i].1 == pieces[i].1);
        } else {
            let key = r.offset;
            assert(key_ok(pieces, table, refs, key));
            let rk = choose|rk: int| key_ref(table, refs, key, rk);
            if rk < k {
                assert(refs[rk].offset < refs[k].offset);
            } else if k < rk {
                assert(refs[k].offset < refs[rk].offset);
            }
            assert(table[key][0] == JumpView { label: r.label, bytecode_index: 0 });
            if labels.contains_key(r.label) {
                assert(defined(defs, r.label, labels[r.label]));
                let d = choose|d: int| is_def(defs, d, r.label, labels[r.label]);
                assert(resolves(defs, d, out[i].1, r.label));
            } else {
                assert(stays_open(pieces, table, labels, i));
                assert(has_jump(open_jumps, open_jump_of(pieces, table, i)));
                let idx = choose|idx: int|
                    0 <= idx < open_jumps.len() && #[trigger] open_jumps[idx] == open_jump_of(
                        pieces,
                        table,
                        i,
                    );
                assert(open_jumps[idx] == JumpView { label: r.label, bytecode_index: r.offset });
            }
        }
        assert(result_ref_piece(out, open_jumps, defs, r, i));
    }
    assert forall|u: int| 0 <= u < open_jumps.len() implies open_ok(
        out,
        refs,
        #[trigger] open_jumps[u],
    ) by {
        let j = open_jumps[u];
        assert(from_piece(pieces, table, labels, j));
        let q = choose|q: int| reported(pieces, table, labels, q, j);
        let key = pieces[q].0;
        assert(key_ok(pieces, table, refs, key));
        let rk = choose|rk: int| key_ref(table, refs, key, rk);
        assert(table[key][0] == JumpView { label: refs[rk].label, bytecode_index: 0 });
        assert(is_ref(refs, rk, j));
        let at = choose|at: int| piece_at(pieces, at, key, placeholder());
        assert(piece_filled(pieces, table, labels, at, out[at]));
        assert(piece_at(out, at, key, placeholder()));
    }
    assert forall|i: int| 0 <= i < out.len() implies classified(
        #[trigger] out[i],
        refs,
        instances,
    ) by {
        assert(piece_filled(pieces, table, labels, i, out[i]));
        assert(classified(pieces[i], refs, instances));
        if out[i].1 != pieces[i].1 {
            lemma_push2(labels[key_label(table, pieces[i].0)] as nat);
        }
    }
    assert forall|j: int| 0 <= j < instances.len() implies awaits_table(
        out,
        #[trigger] instances[j],
    ) by {
        let t = instances[j];
        assert(awaits_table(pieces, t));
        let i = choose|i: int| piece_at(pieces, i, t.bytecode_index, placeholder());
        assert(piece_filled(pieces, table, labels, i, out[i]));
        if table.contains_key(t.bytecode_index) {
            assert(key_ok(pieces, table, refs, t.bytecode_index));
            let rk = choose|rk: int| key_ref(table, refs, t.bytecode_index, rk);
            assert(refs[rk].offset != instances[j].bytecode_index);
        }
        assert(piece_at(out, i, t.bytecode_index, placeholder()));
    }
}

/// What holds of a walk in which no jump went astray so far.
pub open spec fn tidy(st: Emission) -> bool {
    st.trace.strays == 0 ==> tidy_parts(
        st.code.bytes,
        st.code.jump_table,
        st.trace.defs,
        st.trace.refs,
        st.table_instances,
    )
}

/// What holds of the result of an expansion in which no jump went astray.
pub open spec fn tidy_result(x: Expansion) -> bool {
    x.trace.strays == 0 ==> tidy_result_parts(
        x.res.bytes,
        x.res.unmatched_jumps,
        x.trace.defs,
        x.trace.refs,
        x.res.table_instances,
    )
}

/// Whether the code that a name stands for is hexadecimal text.
pub open spec fn hex_code(r: Resolution) -> bool {
    match r {
        Resolution::Text(t) => is_hex(t),
        _ => true,
    }
}

/// The code that a name stands for is hexadecimal text.
pub proof fn lemma_resolution_hex(
    c: ContractView,
    name: Seq<char>,
    d: MacroDefinitionView,
    scope: Scope,
    mis: Invocations,
)
    ensures
        hex_code(resolution(c, name, d, scope, mis)),
    decreases scope.len(),
{
    match c.find_constant(name) {
        Some(k) => {
            match k.value {
                ConstValView::Literal(l) => {
                    lemma_literal_text(l);
                    lemma_hex_is_code_text(push_bytes(literal_hex(l)));
                },
                _ => {},
            }
        },
        None => match crate::opcodes::opcode_of(name) {
            Some(op) => {
                lemma_hex_byte(op);
                lemma_hex_is_code_text(crate::hex::hex_byte(op));
            },
            None => {
                if mis.len() > 0 && crate::ast::first_index(d.parameters, Some(name)) is Some {
                    let pos = crate::ast::first_index(d.parameters, Some(name))->0;
                    let invocation = mis.last().1;
                    if pos < invocation.args.len() {
                        match invocation.args[pos] {
                            crate::ast::MacroArgView::Literal(l) => {
                                lemma_literal_text(l);
                                lemma_hex_is_code_text(push_bytes(literal_hex(l)));
                            },
                            crate::ast::MacroArgView::Ident(label) => {},
                            crate::ast::MacroArgView::ArgCall(outer) => {
                                if scope.len() >= 2 {
                                    let outer_scope = scope.drop_last();
                                    let outer_mis = if invocation.macro_name == d.name {
                                        mis.drop_last()
                                    } else {
                                        mis
                                    };
                                    lemma_resolution_hex(
                                        c,
                                        outer,
                                        outer_scope.last(),
                                        outer_scope,
                                        outer_mis,
                                    );
                                }
                            },
                        }
                    }
                }
            },
        },
    }
}

/// Placing a piece of hexadecimal text keeps a walk tidy.
pub proof fn lemma_place_tidy(st: Emission, text: Seq<char>)
    requires
        tidy(st),
        is_hex(text),
        st.code.offset + text.len() / 2 <= usize::MAX,
    ensures
        tidy_parts(
            place(st.code, text)->Ok_0.bytes,
            st.code.jump_table,
            st.trace.defs,
            st.trace.refs,
            st.table_instances,
        ) || st.trace.strays != 0,
{
    if st.trace.strays == 0 {
        lemma_tidy_push(
            st.code.bytes,
            st.code.jump_table,
            st.trace.defs,
            st.trace.refs,
            st.table_instances,
            (st.code.offset, text),
            Seq::empty(),
        );
        assert(st.trace.defs + Seq::<Mark>::empty() =~= st.trace.defs);
    }
}

/// The result of a walk that is tidy is tidy.
pub proof fn lemma_finish_tidy(st: Emission, from: usize)
    requires
        sound(st, from),
        tidy(st),
    ensures
        match finish(st) {
            Ok(x) => tidy_result(x),
            Err(_) => true,
        },
{
    if st.trace.strays == 0 {
        lemma_tidy_fill(
            st.code.bytes,
            from as int,
            st.code.offset as int,
            st.code.jump_table,
            st.label_indices,
            st.trace.defs,
            st.trace.refs,
            st.table_instances,
            Seq::empty(),
            Seq::empty(),
            0,
        );
        match finish(st) {
            Ok(x) => {
                lemma_tidy_filled(
                    st.code.bytes,
                    from as int,
                    st.code.offset as int,
                    st.code.jump_table,
                    st.label_indices,
                    st.trace.defs,
                    st.trace.refs,
                    st.table_instances,
                    x.res.bytes,
                    x.res.unmatched_jumps,
                );
            },
            Err(_) => {},
        }
    }
}

/// An expansion in which no jump went astray is tidy.
pub proof fn lemma_expand_tidy(
    c: ContractView,
    m: MacroDefinitionView,
    scope: Scope,
    mis: Invocations,
    offset: usize,
    fuel: nat,
)
    requires
        c.well_formed(),
        m.well_formed(),
    ensures
        match expand_traced(c, m, scope, mis, offset, fuel) {
            Ok(x) => tidy_result(x) && sound_result(x, offset),
            Err(_) => true,
        },
    decreases fuel, 1nat, 0nat,
{
    let st0 = start(offset);
    assert(sound(st0, offset));
    assert(tidy(st0));
    lemma_expand_sound(c, m, scope, mis, offset, fuel);
    lemma_walk_tidy(c, m, scope, mis, st0, 0, fuel, offset);
    match walk(c, m, scope, mis, st0, 0, fuel) {
        Ok(st) => {
            lemma_finish_tidy(st, offset);
        },
        Err(_) => {},
    }
}

/// The walk through the items from the `i`-th on keeps a walk tidy.
pub proof fn lemma_walk_tidy(
    c: ContractView,
    m: MacroDefinitionView,
    scope: Scope,
    mis: Invocations,
    st: Emission,
    i: nat,
    fuel: nat,
    from: usize,
)
    requires
        c.well_formed(),
        m.well_formed(),
        sound(st, from),
        tidy(st),
    ensures
        match walk(c, m, scope, mis, st, i, fuel) {
            Ok(fin) => tidy(fin) && sound(fin, from),
            Err(_) => true,
        },
    decreases fuel, 0nat, m.ir_bytes.len() - i,
{
    if i < m.ir_bytes.len() {
        lemma_step_sound(c, m, scope, mis, st, i, fuel, from);
        lemma_step_tidy(c, m, scope, mis, st, i, fuel, from);
        match step(c, m, scope, mis, st, m.ir_bytes[i as int], fuel) {
            Ok(next) => {
                lemma_walk_tidy(c, m, scope, mis, next, i + 1, fuel, from);
            },
            Err(_) => {},
        }
    }
}

/// One item keeps a walk tidy.
pub proof fn lemma_step_tidy(
    c: ContractView,
    m: MacroDefinitionView,
    scope: Scope,
    mis: Invocations,
    st: Emission,
    i: nat,
    fuel: nat,
    from: usize,
)
    requires
        c.well_formed(),
        m.well_formed(),
        i < m.ir_bytes.len(),
        sound(st, from),
        tidy(st),
    ensures
        match step(c, m, scope, mis, st, m.ir_bytes[i as int], fuel) {
            Ok(next) => tidy(next),
            Err(_) => true,
        },
    decreases fuel, 0nat, 0nat,
{
    let item = m.ir_bytes[i as int];
    let pieces = st.code.bytes;
    let table = st.code.jump_table;
    let defs = st.trace.defs;
    let refs = st.trace.refs;
    let inst = st.table_instances;
    match item.ty {
        IRByteTypeView::Bytes(text) => {
            if st.code.offset + text.len() / 2 <= usize::MAX {
                lemma_place_tidy(st, text);
            }
        },
        IRByteTypeView::Constant(name) => match c.find_constant(name) {
            Some(k) => match k.value {
                ConstValView::Literal(l) => {
                    let text = push_bytes(literal_hex(l));
                    lemma_literal_text(l);
                    lemma_hex_is_code_text(text);
                    if st.code.offset + text.len() / 2 <= usize::MAX {
                        lemma_place_tidy(st, text);
                    }
                },
                _ => {},
            },
            None => {},
        },
        IRByteTypeView::Statement(s) => match s {
            StatementView::MacroInvocation(mi) => match c.find_macro(mi.macro_name) {
                Some(inner) => {
                    if fuel > 0 {
                        lemma_expand_tidy(
                            c,
                            inner,
                            scope.push(inner),
                            mis.push((st.code.offset, mi)),
                            st.code.offset,
                            (fuel - 1) as nat,
                        );
                        match expand_traced(
                            c,
                            inner,
                            scope.push(inner),
                            mis.push((st.code.offset, mi)),
                            st.code.offset,
                            (fuel - 1) as nat,
                        ) {
                            Ok(x) => {
                                if st.trace.strays == 0 && x.trace.strays == 0 {
                                    lemma_tidy_merge(
                                        pieces,
                                        x.res.bytes,
                                        from as int,
                                        st.code.offset as int,
                                        st.code.offset + code_len(x.res.bytes),
                                        table,
                                        x.res.unmatched_jumps,
                                        defs,
                                        x.trace.defs,
                                        refs,
                                        x.trace.refs,
                                        inst,
                                        x.res.table_instances,
                                    );
                                }
                            },
                            Err(_) => {},
                        }
                    }
                },
                None => {},
            },
            StatementView::Label(name) => {
                if st.trace.strays == 0 && st.code.offset + 1 <= usize::MAX {
                    lemma_tidy_push(
                        pieces,
                        table,
                        defs,
                        refs,
                        inst,
                        (st.code.offset, jumpdest()),
                        seq![Mark { label: name, offset: st.code.offset }],
                    );
                    assert(defs + seq![Mark { label: name, offset: st.code.offset }] =~= defs.push(
                        Mark { label: name, offset: st.code.offset },
                    ));
                }
            },
            StatementView::LabelCall(name) => {
                if st.trace.strays == 0 && st.code.offset + 3 <= usize::MAX {
                    lemma_tidy_new_ref(
                        pieces,
                        from as int,
                        st.code.offset,
                        table,
                        defs,
                        refs,
                        inst,
                        name,
                    );
                }
            },
            StatementView::BuiltinFunctionCall(bf) => match bf.kind {
                BuiltinFunctionKind::Codesize => match c.find_macro(bf.arg) {
                    Some(measured) => {
                        if fuel > 0 {
                            match expand_traced(
                                c,
                                measured,
                                scope,
                                mis,
                                st.code.offset,
                                (fuel - 1) as nat,
                            ) {
                                Ok(x) => {
                                    let text = push_bytes(size_hex(code_len(x.res.bytes)));
                                    lemma_size_text(code_len(x.res.bytes));
                                    lemma_hex_is_code_text(text);
                                    if st.code.offset + text.len() / 2 <= usize::MAX {
                                        lemma_place_tidy(st, text);
                                    }
                                },
                                Err(_) => {},
                            }
                        }
                    },
                    None => {},
                },
                BuiltinFunctionKind::Tablesize => match c.find_table(bf.arg) {
                    Some(t) => {
                        let text = push_bytes(size_hex(t.size as nat));
                        lemma_size_text(t.size as nat);
                        lemma_hex_is_code_text(text);
                        if st.code.offset + text.len() / 2 <= usize::MAX {
                            lemma_place_tidy(st, text);
                        }
                    },
                    None => {},
                },
                BuiltinFunctionKind::Tablestart => {
                    if st.trace.strays == 0 && st.code.offset + 3 <= usize::MAX {
                        lemma_tidy_new_instance(
                            pieces,
                            from as int,
                            st.code.offset,
                            table,
                            defs,
                            refs,
                            inst,
                            bf.arg,
                        );
                    }
                },
            },
            _ => {},
        },
        IRByteTypeView::ArgCall(name) => {
            lemma_resolution_hex(c, name, m, scope, mis);
            let r = resolution(c, name, m, scope, mis);
            match r {
                Resolution::Text(text) => {
                    if st.code.offset + text.len() / 2 <= usize::MAX {
                        lemma_place_tidy(st, text);
                    }
                },
                Resolution::Jump(label) => {
                    if st.trace.strays == 0 && st.code.offset + 3 <= usize::MAX {
                        lemma_tidy_new_ref(
                            pieces,
                            from as int,
                            st.code.offset,
                            table,
                            defs,
                            refs,
                            inst,
                            label,
                        );
                    }
                },
                Resolution::Fallback(label, key) => {
                    if st.trace.strays == 0 && key == st.code.offset && st.code.offset + 3
                        <= usize::MAX {
                        lemma_tidy_new_ref(
                            pieces,
                            from as int,
                            st.code.offset,
                            table,
                            defs,
                            refs,
                            inst,
                            label,
                        );
                    }
                },
                _ => {},
            }
        },
    }
}

} // verus!
