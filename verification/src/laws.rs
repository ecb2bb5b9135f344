//! Laws of code generation: what holds of the code of every well-formed contract.

use crate::ast::{
    entry_width, BuiltinFunctionCallView, BuiltinFunctionKind, Contract, ContractView,
    IRByteTypeView, IRBytesView, MacroDefinitionView, StatementView, TableDefinitionView,
    TableKind,
};
use crate::bytecode::{BytecodeRes, BytecodeResView, JumpView};
use crate::hex::{
    address_hex, hex_byte, hex_value, is_code_text, is_lower_hex, jumpdest, lemma_address_hex,
    lemma_code_text_concat, lemma_hex_is_code_text, lemma_hex_nat, lemma_hex_nat_len,
    lemma_pad_hex, lemma_pow16_values, lemma_push_bytes, lemma_size_hex, max_address, pad_hex,
    push_bytes, size_hex,
};
use crate::invariants::{
    defined, holds_push2, instances_placed, is_def, lemma_expand_sound, marked, piece_at, placed,
    sound_result,
};
use crate::layout::{
    laid_out, lemma_laid_out_piece, lemma_laid_out_total, lemma_patch, result_laid_out,
};
use crate::model::{
    code_len, concat, constructor_bytecode, expand_entry, expand_traced, fill_table_instances,
    entry_bytecode, finalize, lay_out_tables, main_bytecode, patch, step, table_text, Emission,
    Expansion, Invocations, Layout, Pieces, Scope, MAX_EXPANSION_DEPTH,
};
use vstd::prelude::*;

verus! {

/// The number of references to a label among the statements of a table, from the
/// `k`-th statement on.
pub open spec fn label_calls(t: TableDefinitionView, k: nat) -> nat
    decreases t.statements.len() - k,
{
    if k >= t.statements.len() {
        0
    } else {
        (if t.statements[k as int] is LabelCall {
            1nat
        } else {
            0nat
        }) + label_calls(t, k + 1)
    }
}

/// Whether the size of a table is that of its entries.
pub open spec fn table_sized(t: TableDefinitionView) -> bool {
    t.size == entry_width(t.kind) * label_calls(t, 0)
}

/// Whether the size of each table is that of its entries.
pub open spec fn tables_sized(tables: Seq<TableDefinitionView>) -> bool {
    forall|i: int| 0 <= i < tables.len() ==> table_sized(#[trigger] tables[i])
}

/// The sizes of the tables from the `k`-th up to the `j`-th, the `j`-th left out.
pub open spec fn sizes_between(tables: Seq<TableDefinitionView>, k: int, j: int) -> nat
    decreases j - k,
{
    if k >= j || j > tables.len() || k < 0 {
        0
    } else {
        tables[k].size as nat + sizes_between(tables, k + 1, j)
    }
}

/// The sizes of all tables together.
pub open spec fn tables_size(tables: Seq<TableDefinitionView>) -> nat {
    sizes_between(tables, 0, tables.len() as int)
}

/// Whether the `j`-th table is the last one of its name.
pub open spec fn last_of_its_name(tables: Seq<TableDefinitionView>, j: int) -> bool {
    &&& 0 <= j < tables.len()
    &&& forall|i: int| j < i < tables.len() ==> (#[trigger] tables[i]).name != tables[j].name
}

/// Whether `text` is a push instruction with an immediate of 1 to 32 bytes that
/// denotes `value`.
pub open spec fn is_push_of(text: Seq<char>, value: nat) -> bool {
    &&& 4 <= text.len() <= 66
    &&& text.len() % 2 == 0
    &&& text.subrange(0, 2) == hex_byte((0x5f + (text.len() - 2) / 2) as u8)
    &&& hex_value(text.subrange(2, text.len() as int)) == value
}

/// The push of a size is a push instruction that denotes the size.
pub proof fn lemma_size_push_denotes(n: nat)
    requires
        n <= 0xffff_ffff_ffff_ffff,
    ensures
        is_push_of(push_bytes(size_hex(n)), n),
{
    lemma_size_hex(n);
    lemma_push_bytes(size_hex(n));
}

/// The text of a size of up to two bytes has at most four digits.
pub proof fn lemma_size_hex_short(n: nat)
    requires
        n <= max_address(),
    ensures
        size_hex(n).len() <= 4,
{
    lemma_hex_nat(n);
    lemma_pow16_values();
    lemma_hex_nat_len(n, 4);
}

/// An entry of a table is as wide as the kind of the table says.
pub proof fn lemma_entry_len(offset: usize, kind: TableKind)
    requires
        kind == TableKind::JumpTablePacked ==> offset <= max_address(),
    ensures
        pad_hex(size_hex(offset as nat), entry_width(kind)).len() == 2 * entry_width(kind),
        is_lower_hex(pad_hex(size_hex(offset as nat), entry_width(kind))),
{
    lemma_size_hex(offset as nat);
    if kind == TableKind::JumpTablePacked {
        lemma_size_hex_short(offset as nat);
    }
    lemma_pad_hex(size_hex(offset as nat), entry_width(kind));
}

/// The entries of a table come behind the text, two characters for each byte of an
/// entry, in lower-case digits.
pub proof fn lemma_table_text(
    t: TableDefinitionView,
    labels: Map<Seq<char>, usize>,
    text: Seq<char>,
    k: nat,
)
    requires
        is_code_text(text),
    ensures
        match table_text(t, labels, text, k) {
            Ok(out) => {
                &&& out.len() == text.len() + 2 * entry_width(t.kind) * label_calls(t, k)
                &&& out.subrange(0, text.len() as int) == text
                &&& is_code_text(out)
                &&& is_lower_hex(out.subrange(text.len() as int, out.len() as int))
            },
            Err(_) => true,
        },
    decreases t.statements.len() - k,
{
    if k >= t.statements.len() {
        assert(text.subrange(0, text.len() as int) =~= text);
    } else {
        match t.statements[k as int] {
            StatementView::LabelCall(label) => {
                if labels.contains_key(label) && !(t.kind == TableKind::JumpTablePacked
                    && labels[label] > max_address()) {
                    let entry = pad_hex(size_hex(labels[label] as nat), entry_width(t.kind));
                    lemma_entry_len(labels[label], t.kind);
                    lemma_hex_is_code_text(entry);
                    lemma_code_text_concat(text, entry);
                    lemma_table_text(t, labels, text + entry, k + 1);
                    match table_text(t, labels, text + entry, k + 1) {
                        Ok(out) => {
                            assert(out.subrange(0, text.len() as int) =~= (text + entry).subrange(
                                0,
                                text.len() as int,
                            )) by {
                                assert(out.subrange(0, (text + entry).len() as int) == text
                                    + entry);
                                assert forall|p: int| 0 <= p < text.len() implies out[p] == (text
                                    + entry)[p] by {
                                    assert(out.subrange(0, (text + entry).len() as int)[p]
                                        == out[p]);
                                }
                            }
                            assert((text + entry).subrange(0, text.len() as int) =~= text);
                            let tail = out.subrange(text.len() as int, out.len() as int);
                            let tail2 = out.subrange((text + entry).len() as int, out.len() as int);
                            assert forall|p: int| 0 <= p < tail.len() implies crate::hex::is_lower_hex_char(
                                #[trigger] tail[p],
                            ) by {
                                if p < entry.len() {
                                    assert(out.subrange(0, (text + entry).len() as int)[text.len()
                                        + p] == out[text.len() + p]);
                                    assert(tail[p] == entry[p]);
                                } else {
                                    assert(tail[p] == tail2[p - entry.len()]);
                                }
                            }
                            assert(2 * entry_width(t.kind) * label_calls(t, k) == 2 * entry_width(
                                t.kind,
                            ) + 2 * entry_width(t.kind) * label_calls(t, k + 1))
                                by (nonlinear_arith)
                                requires
                                    label_calls(t, k) == 1 + label_calls(t, k + 1),
                            ;
                        },
                        Err(_) => {},
                    }
                }
            },
            _ => {
                lemma_table_text(t, labels, text, k + 1);
            },
        }
    }
}

/// The sum of the entries' sizes of the tables from the `k`-th on.
pub open spec fn entries_size(tables: Seq<TableDefinitionView>, k: nat) -> nat
    decreases tables.len() - k,
{
    if k >= tables.len() {
        0
    } else {
        entry_width(tables[k as int].kind) * label_calls(tables[k as int], 0) + entries_size(
            tables,
            k + 1,
        )
    }
}

/// Where each table is as large as its entries, the entries of the tables from the
/// `k`-th on are as large as the tables.
pub proof fn lemma_entries_size(tables: Seq<TableDefinitionView>, k: nat)
    requires
        tables_sized(tables),
        k <= tables.len(),
    ensures
        entries_size(tables, k) == sizes_between(tables, k as int, tables.len() as int),
    decreases tables.len() - k,
{
    if k < tables.len() {
        assert(table_sized(tables[k as int]));
        lemma_entries_size(tables, k + 1);
    }
}

/// The sizes up to and with the `j`-th table are the sizes up to it and its own.
pub proof fn lemma_sizes_between_step(tables: Seq<TableDefinitionView>, k: int, j: int)
    requires
        0 <= k <= j < tables.len(),
    ensures
        sizes_between(tables, k, j + 1) == sizes_between(tables, k, j) + tables[j].size,
    decreases j - k,
{
    if k < j {
        lemma_sizes_between_step(tables, k + 1, j);
    } else {
        assert(sizes_between(tables, k + 1, j + 1) == 0);
    }
}

/// What laying out the tables from the `k`-th on does: the text so far stays in
/// front, the entries come behind it, and each table that is the last of its name
/// is recorded at the offset at which it starts.
pub proof fn lemma_lay_out_tables(
    tables: Seq<TableDefinitionView>,
    labels: Map<Seq<char>, usize>,
    layout: Layout,
    k: nat,
)
    requires
        is_code_text(layout.text),
        k <= tables.len(),
    ensures
        match lay_out_tables(tables, labels, layout, k) {
            Ok(out) => {
                &&& out.text.len() == layout.text.len() + 2 * entries_size(tables, k)
                &&& out.text.subrange(0, layout.text.len() as int) == layout.text
                &&& is_code_text(out.text)
                &&& is_lower_hex(out.text.subrange(layout.text.len() as int, out.text.len() as int))
                &&& forall|j: int|
                    k <= j && #[trigger] last_of_its_name(tables, j) ==> out.table_offsets.contains_key(
                        tables[j].name,
                    ) && out.table_offsets[tables[j].name] == layout.next_offset + sizes_between(
                        tables,
                        k as int,
                        j,
                    )
                &&& forall|name: Seq<char>|
                    layout.table_offsets.contains_key(name) ==> #[trigger] out.table_offsets.contains_key(name)
                &&& forall|name: Seq<char>| #[trigger]
                    out.table_offsets.contains_key(name) ==> layout.table_offsets.contains_key(name)
                        || exists|j: int| k <= j < tables.len() && #[trigger] tables[j].name == name
                &&& forall|name: Seq<char>|
                    (forall|j: int| k <= j < tables.len() ==> (#[trigger] tables[j]).name != name)
                        && layout.table_offsets.contains_key(name) ==> #[trigger] out.table_offsets[name]
                        == layout.table_offsets[name]
            },
            Err(_) => true,
        },
    decreases tables.len() - k,
{
    if k >= tables.len() {
        assert(layout.text.subrange(0, layout.text.len() as int) =~= layout.text);
    } else {
        let t = tables[k as int];
        if layout.next_offset + t.size <= usize::MAX {
            lemma_table_text(t, labels, layout.text, 0);
            match table_text(t, labels, layout.text, 0) {
                Ok(text) => {
                    let next = Layout {
                        text,
                        table_offsets: layout.table_offsets.insert(t.name, layout.next_offset),
                        next_offset: (layout.next_offset + t.size) as usize,
                    };
                    lemma_lay_out_tables(tables, labels, next, k + 1);
                    match lay_out_tables(tables, labels, next, k + 1) {
                        Ok(out) => {
                            let n0 = layout.text.len() as int;
                            let n1 = text.len() as int;
                            assert(out.text.subrange(0, n0) =~= layout.text) by {
                                assert forall|p: int| 0 <= p < n0 implies out.text[p]
                                    == layout.text[p] by {
                                    assert(out.text.subrange(0, n1)[p] == out.text[p]);
                                    assert(text.subrange(0, n0)[p] == text[p]);
                                }
                            }
                            let tail = out.text.subrange(n0, out.text.len() as int);
                            assert forall|p: int| 0 <= p < tail.len() implies crate::hex::is_lower_hex_char(
                                #[trigger] tail[p],
                            ) by {
                                if p < n1 - n0 {
                                    assert(out.text.subrange(0, n1)[n0 + p] == out.text[n0 + p]);
                                    assert(text.subrange(n0, n1)[p] == text[n0 + p]);
                                } else {
                                    assert(out.text.subrange(n1, out.text.len() as int)[p - (n1
                                        - n0)] == tail[p]);
                                }
                            }
                            assert forall|j: int|
                                k <= j && #[trigger] last_of_its_name(
                                    tables,
                                    j,
                                ) implies out.table_offsets.contains_key(tables[j].name)
                                && out.table_offsets[tables[j].name] == layout.next_offset
                                + sizes_between(tables, k as int, j) by {
                                if j == k {
                                    assert(next.table_offsets.contains_key(t.name));
                                    assert(forall|i: int|
                                        k + 1 <= i < tables.len() ==> (#[trigger] tables[i]).name
                                            != t.name);
                                    assert(out.table_offsets[t.name] == next.table_offsets[t.name]);
                                }
                            }
                            assert forall|name: Seq<char>| #[trigger]
                                out.table_offsets.contains_key(
                                    name,
                                ) implies layout.table_offsets.contains_key(name) || exists|j: int|
                                k <= j < tables.len() && #[trigger] tables[j].name == name by {
                                if !next.table_offsets.contains_key(name) {
                                    let j = choose|j: int|
                                        k + 1 <= j < tables.len() && #[trigger] tables[j].name
                                            == name;
                                    assert(k <= j < tables.len() && tables[j].name == name);
                                } else if name == t.name {
                                    assert(tables[k as int].name == name);
                                }
                            }
                            assert forall|name: Seq<char>|
                                (forall|j: int|
                                    k <= j < tables.len() ==> (#[trigger] tables[j]).name != name)
                                    && layout.table_offsets.contains_key(
                                    name,
                                ) implies #[trigger] out.table_offsets[name]
                                == layout.table_offsets[name] by {
                                assert(tables[k as int].name != name);
                                assert(next.table_offsets.contains_key(name));
                                assert(forall|j: int|
                                    k + 1 <= j < tables.len() ==> (#[trigger] tables[j]).name
                                        != name);
                            }
                            assert(2 * entries_size(tables, k) == 2 * (entry_width(t.kind)
                                * label_calls(t, 0)) + 2 * entries_size(tables, k + 1));
                            assert(2 * entry_width(t.kind) * label_calls(t, 0) == 2 * (entry_width(
                                t.kind,
                            ) * label_calls(t, 0))) by (nonlinear_arith);
                        },
                        Err(_) => {},
                    }
                },
                Err(_) => {},
            }
        }
    }
}

/// In a layout an earlier piece ends before a later piece starts.
pub proof fn lemma_laid_out_order(pieces: Pieces, from: int, end: int, i: int, j: int)
    requires
        laid_out(pieces, from, end),
        0 <= i < j < pieces.len(),
    ensures
        pieces[i].0 + pieces[i].1.len() / 2 <= pieces[j].0,
{
    lemma_laid_out_piece(pieces, from, end, j);
    lemma_laid_out_piece(pieces.take(j), from, pieces[j].0 as int, i);
    assert(pieces.take(j)[i] == pieces[i]);
}

/// Whether the character at `p` belongs to the address of the push instruction at
/// the offset `at`.
pub open spec fn in_address(at: usize, p: int) -> bool {
    2 * at + 2 <= p < 2 * at + 6
}

/// Whether the character at `p` belongs to none of the places from the `k`-th on.
pub open spec fn untouched(instances: Seq<JumpView>, k: int, p: int) -> bool {
    forall|j: int| k <= j < instances.len() ==> !in_address((#[trigger] instances[j]).bytecode_index, p)
}

/// Writing an address changes the four characters of the address and no other.
pub proof fn lemma_patch_chars(text: Seq<char>, at: int, value: nat)
    requires
        0 <= at,
        at + 6 <= text.len(),
        is_code_text(text),
        value <= max_address(),
    ensures
        patch(text, at, value).len() == text.len(),
        is_code_text(patch(text, at, value)),
        forall|p: int|
            0 <= p < text.len() && !(at + 2 <= p < at + 6) ==> #[trigger] patch(text, at, value)[p]
                == text[p],
        patch(text, at, value).subrange(at + 2, at + 6) == address_hex(value),
{
    lemma_patch(text, at, value);
    lemma_address_hex(value);
    assert(patch(text, at, value).subrange(at + 2, at + 6) =~= address_hex(value));
}

/// Places that await the offset of a table lie three bytes apart at least, and
/// within the code.
pub proof fn lemma_instances_spaced(
    pieces: Pieces,
    end: int,
    instances: Seq<JumpView>,
    a: int,
    b: int,
)
    requires
        laid_out(pieces, 0, end),
        instances_placed(pieces, instances),
        0 <= a < b < instances.len(),
    ensures
        instances[a].bytecode_index + 3 <= instances[b].bytecode_index,
        instances[b].bytecode_index + 3 <= end,
{
    assert(placed(pieces, instances[a]));
    assert(placed(pieces, instances[b]));
    let i = choose|i: int| holds_push2(pieces, i, instances[a].bytecode_index);
    let j = choose|j: int| holds_push2(pieces, j, instances[b].bytecode_index);
    lemma_laid_out_piece(pieces, 0, end, j);
    if i < j {
        lemma_laid_out_order(pieces, 0, end, i, j);
    } else if j < i {
        lemma_laid_out_order(pieces, 0, end, j, i);
    }
}

/// What writing the offsets of the tables does to a text that starts with the code
/// of the pieces: its length stays, a character outside the addresses of the places
/// stays, and the address of each place whose table is known is the offset of that
/// table.
pub proof fn lemma_fill_instances(
    text: Seq<char>,
    instances: Seq<JumpView>,
    offsets: Map<Seq<char>, usize>,
    k: nat,
    pieces: Pieces,
    end: int,
)
    requires
        laid_out(pieces, 0, end),
        instances_placed(pieces, instances),
        text.len() >= 2 * end,
        is_code_text(text),
        k <= instances.len(),
    ensures
        match fill_table_instances(text, instances, offsets, k) {
            Ok(out) => {
                &&& out.len() == text.len()
                &&& is_code_text(out)
                &&& forall|p: int|
                    0 <= p < text.len() && untouched(instances, k as int, p) ==> #[trigger] out[p]
                        == text[p]
                &&& forall|j: int|
                    k <= j < instances.len() && offsets.contains_key(
                        (#[trigger] instances[j]).label,
                    ) ==> offsets[instances[j].label] <= max_address() && out.subrange(
                        2 * instances[j].bytecode_index + 2,
                        2 * instances[j].bytecode_index + 6,
                    ) == address_hex(offsets[instances[j].label] as nat)
            },
            Err(_) => true,
        },
    decreases instances.len() - k,
{
    if k < instances.len() {
        let t = instances[k as int];
        let at = t.bytecode_index;
        assert(placed(pieces, t));
        let i = choose|i: int| holds_push2(pieces, i, at);
        lemma_laid_out_piece(pieces, 0, end, i);
        assert(2 * at + 6 <= text.len());
        if offsets.contains_key(t.label) {
            let v = offsets[t.label];
            if v <= max_address() {
                let next = patch(text, 2 * at, v as nat);
                lemma_patch_chars(text, 2 * at, v as nat);
                lemma_fill_instances(next, instances, offsets, k + 1, pieces, end);
                match fill_table_instances(next, instances, offsets, k + 1) {
                    Ok(out) => {
                        assert forall|p: int|
                            0 <= p < text.len() && untouched(
                                instances,
                                k as int,
                                p,
                            ) implies #[trigger] out[p] == text[p] by {
                            assert(!in_address(instances[k as int].bytecode_index, p));
                            assert(untouched(instances, k as int + 1, p));
                            assert(next[p] == text[p]);
                        }
                        assert forall|j: int|
                            k <= j < instances.len() && offsets.contains_key(
                                (#[trigger] instances[j]).label,
                            ) implies offsets[instances[j].label] <= max_address() && out.subrange(
                            2 * instances[j].bytecode_index + 2,
                            2 * instances[j].bytecode_index + 6,
                        ) == address_hex(offsets[instances[j].label] as nat) by {
                            if j == k {
                                assert forall|p: int| 2 * at + 2 <= p < 2 * at + 6 implies out[p]
                                    == next[p] by {
                                    assert forall|q: int|
                                        k + 1 <= q < instances.len() implies !in_address(
                                        (#[trigger] instances[q]).bytecode_index,
                                        p,
                                    ) by {
                                        lemma_instances_spaced(
                                            pieces,
                                            end,
                                            instances,
                                            k as int,
                                            q,
                                        );
                                    }
                                    assert(untouched(instances, k as int + 1, p));
                                }
                                assert(out.subrange(2 * at + 2, 2 * at + 6) =~= next.subrange(
                                    2 * at + 2,
                                    2 * at + 6,
                                ));
                            }
                        }
                    },
                    Err(_) => {},
                }
            }
        } else {
            lemma_fill_instances(text, instances, offsets, k + 1, pieces, end);
            match fill_table_instances(text, instances, offsets, k + 1) {
                Ok(out) => {
                    assert forall|p: int|
                        0 <= p < text.len() && untouched(
                            instances,
                            k as int,
                            p,
                        ) implies #[trigger] out[p] == text[p] by {
                        assert(untouched(instances, k as int + 1, p));
                    }
                },
                Err(_) => {},
            }
        }
    }
}

/// A piece at whose offset no table is asked for stands in the final code as it is.
pub proof fn lemma_piece_survives(
    res: BytecodeResView,
    tables: Seq<TableDefinitionView>,
    i: int,
)
    requires
        result_laid_out(res.bytes, 0),
        instances_placed(res.bytes, res.table_instances),
        0 <= i < res.bytes.len(),
        forall|j: int|
            0 <= j < res.table_instances.len() ==> (#[trigger] res.table_instances[j]).bytecode_index
                != res.bytes[i].0 || res.bytes[i].1.len() == 0,
    ensures
        match finalize(res, tables) {
            Ok(code) => 2 * res.bytes[i].0 + res.bytes[i].1.len() <= code.len() && code.subrange(
                2 * res.bytes[i].0,
                2 * res.bytes[i].0 + res.bytes[i].1.len(),
            ) == res.bytes[i].1,
            Err(_) => true,
        },
{
    let pieces = res.bytes;
    let end = code_len(pieces) as int;
    let code0 = concat(pieces);
    lemma_laid_out_total(pieces, 0, end);
    lemma_laid_out_piece(pieces, 0, end, i);
    let lo = 2 * pieces[i].0;
    let hi = lo + pieces[i].1.len();
    if res.unmatched_jumps.len() == 0 {
        let l0 = Layout {
            text: code0,
            table_offsets: Map::empty(),
            next_offset: (code0.len() / 2) as usize,
        };
        lemma_lay_out_tables(tables, res.label_indices, l0, 0);
        match lay_out_tables(tables, res.label_indices, l0, 0) {
            Ok(layout) => {
                lemma_fill_instances(
                    layout.text,
                    res.table_instances,
                    layout.table_offsets,
                    0,
                    pieces,
                    end,
                );
                match fill_table_instances(
                    layout.text,
                    res.table_instances,
                    layout.table_offsets,
                    0,
                ) {
                    Ok(code) => {
                        assert forall|p: int| lo <= p < hi implies code[p] == code0[p] by {
                            assert forall|j: int|
                                0 <= j < res.table_instances.len() implies !in_address(
                                (#[trigger] res.table_instances[j]).bytecode_index,
                                p,
                            ) by {
                                let t = res.table_instances[j];
                                assert(placed(pieces, t));
                                let q = choose|q: int| holds_push2(pieces, q, t.bytecode_index);
                                lemma_laid_out_piece(pieces, 0, end, q);
                                if q < i {
                                    lemma_laid_out_order(pieces, 0, end, q, i);
                                } else if i < q {
                                    lemma_laid_out_order(pieces, 0, end, i, q);
                                }
                            }
                            assert(untouched(res.table_instances, 0, p));
                            assert(layout.text.subrange(0, code0.len() as int)[p]
                                == layout.text[p]);
                        }
                        assert(code.subrange(lo, hi) =~= code0.subrange(lo, hi));
                    },
                    Err(_) => {},
                }
            },
            Err(_) => {},
        }
    }
}

/// The code of a contract depends on nothing but the contract: contracts with the
/// same view have the same runtime code and the same constructor code, or fail with
/// the same error.
pub proof fn law_deterministic(a: Contract, b: Contract)
    requires
        a@ == b@,
    ensures
        main_bytecode(a@) == main_bytecode(b@),
        constructor_bytecode(a@) == constructor_bytecode(b@),
{
}

/// The code of an entry macro is as long as the pieces of its expansion and the jump
/// tables together, where each table is as large as its entries.
pub proof fn law_byte_length(contract: Contract, entry: Seq<char>)
    requires
        contract@.well_formed(),
        tables_sized(contract@.tables),
        entry_bytecode(contract@, entry) is Ok,
    ensures
        entry_bytecode(contract@, entry)->Ok_0.len() == 2 * (code_len(
            expand_entry(contract@, entry)->Ok_0.res.bytes,
        ) + tables_size(contract@.tables)),
{
    let c = contract@;
    match c.find_macro(entry) {
        Some(m) => {
            lemma_expand_sound(c, m, seq![m], Seq::empty(), 0, MAX_EXPANSION_DEPTH as nat);
            match expand_entry(c, entry) {
                Ok(x) => {
                    let pieces = x.res.bytes;
                    let end = code_len(pieces) as int;
                    lemma_laid_out_total(pieces, 0, end);
                    if x.res.unmatched_jumps.len() == 0 {
                        let l0 = Layout {
                            text: concat(pieces),
                            table_offsets: Map::empty(),
                            next_offset: (concat(pieces).len() / 2) as usize,
                        };
                        lemma_lay_out_tables(c.tables, x.res.label_indices, l0, 0);
                        lemma_entries_size(c.tables, 0);
                        match lay_out_tables(c.tables, x.res.label_indices, l0, 0) {
                            Ok(layout) => {
                                lemma_fill_instances(
                                    layout.text,
                                    x.res.table_instances,
                                    layout.table_offsets,
                                    0,
                                    pieces,
                                    end,
                                );
                            },
                            Err(_) => {},
                        }
                    }
                },
                Err(_) => {},
            }
        },
        None => {},
    }
}

/// Every label that was defined has a `JUMPDEST` in the code of an entry macro at
/// the offset that was recorded for it: for each definition that the expansion made,
/// and for each label of the result.
pub proof fn law_jumpdest(contract: Contract, entry: Seq<char>)
    requires
        contract@.well_formed(),
        entry_bytecode(contract@, entry) is Ok,
    ensures
        ({
            let x = expand_entry(contract@, entry)->Ok_0;
            let code = entry_bytecode(contract@, entry)->Ok_0;
            &&& forall|k: int|
                0 <= k < x.trace.defs.len() ==> 2 * (#[trigger] x.trace.defs[k]).offset + 2
                    <= code.len() && code.subrange(
                    2 * x.trace.defs[k].offset,
                    2 * x.trace.defs[k].offset + 2,
                ) == jumpdest()
            &&& forall|l: Seq<char>| #[trigger]
                x.res.label_indices.contains_key(l) ==> 2 * x.res.label_indices[l] + 2
                    <= code.len() && code.subrange(
                    2 * x.res.label_indices[l],
                    2 * x.res.label_indices[l] + 2,
                ) == jumpdest()
        }),
{
    let c = contract@;
    match c.find_macro(entry) {
        Some(m) => {
            lemma_expand_sound(c, m, seq![m], Seq::empty(), 0, MAX_EXPANSION_DEPTH as nat);
            match (expand_entry(c, entry), entry_bytecode(c, entry)) {
                (Ok(x), Ok(code)) => {
                    let pieces = x.res.bytes;
                    let end = code_len(pieces) as int;
                    assert forall|k: int| 0 <= k < x.trace.defs.len() implies 2 * (
                    #[trigger] x.trace.defs[k]).offset + 2 <= code.len() && code.subrange(
                        2 * x.trace.defs[k].offset,
                        2 * x.trace.defs[k].offset + 2,
                    ) == jumpdest() by {
                        let d = x.trace.defs[k];
                        lemma_def_in_code(x, c.tables, d);
                    }
                    assert forall|l: Seq<char>| #[trigger]
                        x.res.label_indices.contains_key(l) implies 2 * x.res.label_indices[l] + 2
                        <= code.len() && code.subrange(
                        2 * x.res.label_indices[l],
                        2 * x.res.label_indices[l] + 2,
                    ) == jumpdest() by {
                        assert(defined(x.trace.defs, l, x.res.label_indices[l]));
                        let k = choose|k: int| is_def(x.trace.defs, k, l, x.res.label_indices[l]);
                        lemma_def_in_code(x, c.tables, x.trace.defs[k]);
                    }
                },
                _ => {},
            }
        },
        None => {},
    }
}

/// A definition that has its `JUMPDEST` among the pieces has it in the final code.
pub proof fn lemma_def_in_code(x: Expansion, tables: Seq<TableDefinitionView>, d: crate::model::Mark)
    requires
        sound_result(x, 0),
        marked(x.res.bytes, d),
    ensures
        match finalize(x.res, tables) {
            Ok(code) => 2 * d.offset + 2 <= code.len() && code.subrange(
                2 * d.offset,
                2 * d.offset + 2,
            ) == jumpdest(),
            Err(_) => true,
        },
{
    let pieces = x.res.bytes;
    let end = code_len(pieces) as int;
    let i = choose|i: int| piece_at(pieces, i, d.offset, jumpdest());
    assert forall|j: int| 0 <= j < x.res.table_instances.len() implies (
    #[trigger] x.res.table_instances[j]).bytecode_index != pieces[i].0 || pieces[i].1.len()
        == 0 by {
        let t = x.res.table_instances[j];
        assert(placed(pieces, t));
        let q = choose|q: int| holds_push2(pieces, q, t.bytecode_index);
        if t.bytecode_index == pieces[i].0 {
            if q < i {
                lemma_laid_out_order(pieces, 0, end, q, i);
            } else if i < q {
                lemma_laid_out_order(pieces, 0, end, i, q);
            }
        }
    }
    lemma_piece_survives(x.res, tables, i);
}

/// Whether the place `t` holds, in `code`, the opcode `PUSH2` and behind it the
/// address `offset`.
pub open spec fn holds_table_offset(code: Seq<char>, t: JumpView, offset: nat) -> bool {
    &&& 2 * t.bytecode_index + 6 <= code.len()
    &&& code.subrange(2 * t.bytecode_index, 2 * t.bytecode_index + 2) == seq!['6', '1']
    &&& code.subrange(2 * t.bytecode_index + 2, 2 * t.bytecode_index + 6) == address_hex(offset)
}

/// Whether each place that names a table holds, in `code`, the offset at which the
/// table starts: the length of the code of the pieces and the sizes of the tables
/// before it. Where several tables have the name, the last one is meant.
pub open spec fn table_starts_written(
    res: BytecodeResView,
    tables: Seq<TableDefinitionView>,
    code: Seq<char>,
) -> bool {
    forall|j: int, q: int|
        0 <= j < res.table_instances.len() && #[trigger] last_of_its_name(tables, q)
            && tables[q].name == (#[trigger] res.table_instances[j]).label
            ==> holds_table_offset(
            code,
            res.table_instances[j],
            code_len(res.bytes) + sizes_between(tables, 0, q),
        )
}

/// Every place that asks for the offset of a table is, in the final code, a push of
/// two bytes that holds the offset at which the table starts. This holds of every
/// result whose pieces are laid out from offset 0 and whose places are pieces of
/// three bytes that start with `PUSH2`, as the results of an expansion are.
pub proof fn law_tablestart(res: BytecodeRes, contract: Contract)
    requires
        result_laid_out(res@.bytes, 0),
        instances_placed(res@.bytes, res@.table_instances),
        finalize(res@, contract@.tables) is Ok,
    ensures
        table_starts_written(res@, contract@.tables, finalize(res@, contract@.tables)->Ok_0),
{
    lemma_tablestart_view(res@, contract@.tables);
}

/// Every place of the code of an entry macro that asks for the offset of a table is
/// a push of two bytes that holds the offset at which the table starts.
pub proof fn law_tablestart_of_entry(contract: Contract, entry: Seq<char>)
    requires
        contract@.well_formed(),
        entry_bytecode(contract@, entry) is Ok,
    ensures
        table_starts_written(
            expand_entry(contract@, entry)->Ok_0.res,
            contract@.tables,
            entry_bytecode(contract@, entry)->Ok_0,
        ),
{
    let c = contract@;
    let m = c.find_macro(entry)->0;
    lemma_expand_sound(c, m, seq![m], Seq::empty(), 0, MAX_EXPANSION_DEPTH as nat);
    let x = expand_entry(c, entry)->Ok_0;
    lemma_tablestart_view(x.res, c.tables);
}

/// What `law_tablestart` says, of the view of a result.
pub proof fn lemma_tablestart_view(res: BytecodeResView, tables: Seq<TableDefinitionView>)
    requires
        result_laid_out(res.bytes, 0),
        instances_placed(res.bytes, res.table_instances),
        finalize(res, tables) is Ok,
    ensures
        table_starts_written(res, tables, finalize(res, tables)->Ok_0),
{
    let pieces = res.bytes;
    let inst = res.table_instances;
    let code = finalize(res, tables)->Ok_0;
    let end = code_len(pieces) as int;
    let code0 = concat(pieces);
    lemma_laid_out_total(pieces, 0, end);
    let l0 = Layout {
        text: code0,
        table_offsets: Map::empty(),
        next_offset: (code0.len() / 2) as usize,
    };
    lemma_lay_out_tables(tables, res.label_indices, l0, 0);
    let layout = lay_out_tables(tables, res.label_indices, l0, 0)->Ok_0;
    lemma_fill_instances(layout.text, inst, layout.table_offsets, 0, pieces, end);
    assert forall|j: int, q: int|
        0 <= j < inst.len() && #[trigger] last_of_its_name(tables, q) && tables[q].name == (
        #[trigger] inst[j]).label implies holds_table_offset(
        code,
        inst[j],
        code_len(pieces) + sizes_between(tables, 0, q),
    ) by {
        let t = inst[j];
        let at = t.bytecode_index;
        assert(placed(pieces, t));
        let i = choose|i: int| holds_push2(pieces, i, at);
        lemma_laid_out_piece(pieces, 0, end, i);
        assert(layout.table_offsets.contains_key(tables[q].name));
        assert forall|p: int| 2 * at <= p < 2 * at + 2 implies code[p] == pieces[i].1[p - 2 * at] by {
            assert forall|k: int| 0 <= k < inst.len() implies !in_address(
                (#[trigger] inst[k]).bytecode_index,
                p,
            ) by {
                if k < j {
                    lemma_instances_spaced(pieces, end, inst, k, j);
                } else if j < k {
                    lemma_instances_spaced(pieces, end, inst, j, k);
                }
            }
            assert(untouched(inst, 0, p));
            assert(layout.text.subrange(0, code0.len() as int)[p] == layout.text[p]);
            assert(code0.subrange(2 * at, 2 * at + 6)[p - 2 * at] == code0[p]);
        }
        assert(code.subrange(2 * at, 2 * at + 2) =~= seq!['6', '1']);
    }
}

/// Writing the offsets of the tables keeps the length of the text.
pub proof fn lemma_fill_instances_len(
    text: Seq<char>,
    instances: Seq<JumpView>,
    offsets: Map<Seq<char>, usize>,
    k: nat,
)
    requires
        is_code_text(text),
    ensures
        match fill_table_instances(text, instances, offsets, k) {
            Ok(out) => out.len() == text.len(),
            Err(_) => true,
        },
    decreases instances.len() - k,
{
    if k < instances.len() {
        let j = instances[k as int];
        if offsets.contains_key(j.label) && 2 * j.bytecode_index + 6 <= text.len() {
            if offsets[j.label] <= max_address() {
                lemma_patch(text, 2 * j.bytecode_index, offsets[j.label] as nat);
                lemma_fill_instances_len(
                    patch(text, 2 * j.bytecode_index, offsets[j.label] as nat),
                    instances,
                    offsets,
                    k + 1,
                );
            }
        } else {
            lemma_fill_instances_len(text, instances, offsets, k + 1);
        }
    }
}

/// The final code of a result whose pieces are laid out has an even length.
pub proof fn lemma_finalize_even(res: BytecodeResView, tables: Seq<TableDefinitionView>)
    requires
        result_laid_out(res.bytes, 0),
    ensures
        match finalize(res, tables) {
            Ok(code) => code.len() % 2 == 0,
            Err(_) => true,
        },
{
    let end = code_len(res.bytes) as int;
    lemma_laid_out_total(res.bytes, 0, end);
    if res.unmatched_jumps.len() == 0 {
        let l0 = Layout {
            text: concat(res.bytes),
            table_offsets: Map::empty(),
            next_offset: (concat(res.bytes).len() / 2) as usize,
        };
        lemma_lay_out_tables(tables, res.label_indices, l0, 0);
        match lay_out_tables(tables, res.label_indices, l0, 0) {
            Ok(layout) => {
                lemma_fill_instances_len(layout.text, res.table_instances, layout.table_offsets, 0);
            },
            Err(_) => {},
        }
    }
}

/// The code of an entry macro has an even length: it stands for whole bytes.
pub proof fn law_even_length(contract: Contract, entry: Seq<char>)
    requires
        contract@.well_formed(),
        entry_bytecode(contract@, entry) is Ok,
    ensures
        entry_bytecode(contract@, entry)->Ok_0.len() % 2 == 0,
{
    let c = contract@;
    let m = c.find_macro(entry)->0;
    lemma_expand_sound(c, m, seq![m], Seq::empty(), 0, MAX_EXPANSION_DEPTH as nat);
    lemma_finalize_even(expand_entry(c, entry)->Ok_0.res, c.tables);
}

/// `__tablesize` pushes the declared size of the table: the step places one piece, a
/// push instruction whose immediate denotes the size.
pub proof fn law_tablesize(
    c: ContractView,
    m: MacroDefinitionView,
    scope: Scope,
    mis: Invocations,
    st: Emission,
    item: IRBytesView,
    name: Seq<char>,
    fuel: nat,
)
    requires
        item.ty == IRByteTypeView::Statement(
            StatementView::BuiltinFunctionCall(
                BuiltinFunctionCallView { kind: BuiltinFunctionKind::Tablesize, arg: name },
            ),
        ),
        c.find_table(name) is Some,
        step(c, m, scope, mis, st, item, fuel) is Ok,
    ensures
        ({
            let next = step(c, m, scope, mis, st, item, fuel)->Ok_0;
            &&& next.code.bytes.len() == st.code.bytes.len() + 1
            &&& next.code.bytes.last().0 == st.code.offset
            &&& is_push_of(next.code.bytes.last().1, c.find_table(name)->0.size as nat)
        }),
{
    lemma_size_push_denotes(c.find_table(name)->0.size as nat);
}

/// A macro that is found in a well-formed contract is well-formed.
pub proof fn lemma_found_macro(c: ContractView, name: Seq<char>)
    requires
        c.well_formed(),
        c.find_macro(name) is Some,
    ensures
        c.find_macro(name)->0.well_formed(),
{
}

/// `__codesize` pushes the number of bytes that the macro expands to at that place:
/// the step places one piece at the current offset, a push instruction whose
/// immediate denotes the length of the macro's expansion at that offset, with the
/// same macros and invocations around it. The expansion is the one that
/// `macro_to_bytecode_within` gives for the macro, at the depth that is left or at
/// any greater one; none of its pieces is taken into the walk.
pub proof fn law_codesize(
    c: ContractView,
    m: MacroDefinitionView,
    scope: Scope,
    mis: Invocations,
    st: Emission,
    item: IRBytesView,
    name: Seq<char>,
    fuel: nat,
    depth: nat,
)
    requires
        c.well_formed(),
        item.ty == IRByteTypeView::Statement(
            StatementView::BuiltinFunctionCall(
                BuiltinFunctionCallView { kind: BuiltinFunctionKind::Codesize, arg: name },
            ),
        ),
        step(c, m, scope, mis, st, item, fuel) is Ok,
        fuel <= depth + 1,
    ensures
        ({
            let next = step(c, m, scope, mis, st, item, fuel)->Ok_0;
            let measured = crate::model::expand(
                c,
                c.find_macro(name)->0,
                scope,
                mis,
                st.code.offset,
                depth,
            );
            &&& c.find_macro(name) is Some
            &&& fuel > 0
            &&& measured is Ok
            &&& next.code.bytes.len() == st.code.bytes.len() + 1
            &&& next.code.bytes.drop_last() == st.code.bytes
            &&& next.code.bytes.last().0 == st.code.offset
            &&& is_push_of(next.code.bytes.last().1, code_len(measured->Ok_0.bytes))
            &&& next.code.offset == st.code.offset + next.code.bytes.last().1.len() / 2
        }),
{
    let measured = c.find_macro(name)->0;
    lemma_found_macro(c, name);
    lemma_expand_sound(c, measured, scope, mis, st.code.offset, (fuel - 1) as nat);
    crate::depth::lemma_expand_within(
        c,
        measured,
        scope,
        mis,
        st.code.offset,
        (fuel - 1) as nat,
        depth,
    );
    let x = expand_traced(c, measured, scope, mis, st.code.offset, (fuel - 1) as nat)->Ok_0;
    lemma_size_push_denotes(code_len(x.res.bytes));
    let next = step(c, m, scope, mis, st, item, fuel)->Ok_0;
    assert(next.code.bytes.drop_last() =~= st.code.bytes);
}

/// A macro whose body is `__tablesize` of a table and nothing else expands to one
/// piece at the offset at which it starts: the push of the declared size of the
/// table. It defines no label and leaves no jump and no place open.
pub proof fn law_tablesize_expansion(
    c: ContractView,
    m: MacroDefinitionView,
    scope: Scope,
    mis: Invocations,
    offset: usize,
    fuel: nat,
    name: Seq<char>,
)
    requires
        m.ir_bytes.len() == 1,
        m.ir_bytes[0].ty == IRByteTypeView::Statement(
            StatementView::BuiltinFunctionCall(
                BuiltinFunctionCallView { kind: BuiltinFunctionKind::Tablesize, arg: name },
            ),
        ),
        c.find_table(name) is Some,
        offset + push_bytes(size_hex(c.find_table(name)->0.size as nat)).len() / 2 <= usize::MAX,
    ensures
        crate::model::expand(c, m, scope, mis, offset, fuel) == Ok::<_, crate::error::CodegenErrorView>(
            BytecodeResView {
                bytes: seq![(offset, push_bytes(size_hex(c.find_table(name)->0.size as nat)))],
                label_indices: Map::empty(),
                unmatched_jumps: Seq::empty(),
                table_instances: Seq::empty(),
            },
        ),
{
    let text = push_bytes(size_hex(c.find_table(name)->0.size as nat));
    let st0 = crate::model::start(offset);
    let st1 = step(c, m, scope, mis, st0, m.ir_bytes[0], fuel)->Ok_0;
    assert(step(c, m, scope, mis, st0, m.ir_bytes[0], fuel) is Ok);
    assert(st1.code.bytes =~= seq![(offset, text)]);
    assert(crate::model::walk(c, m, scope, mis, st1, 1, fuel) == Ok::<
        _,
        crate::error::CodegenErrorView,
    >(st1));
    assert(crate::model::walk(c, m, scope, mis, st0, 0, fuel) == Ok::<
        _,
        crate::error::CodegenErrorView,
    >(st1));
    let done = Seq::<(usize, Seq<char>)>::empty().push((offset, text));
    assert(crate::model::fill_from(
        st1.code.bytes,
        st1.code.jump_table,
        st1.label_indices,
        done,
        Seq::empty(),
        1,
    ) == Ok::<_, crate::error::CodegenErrorView>((done, Seq::<JumpView>::empty())));
    assert(crate::model::fill_from(
        st1.code.bytes,
        st1.code.jump_table,
        st1.label_indices,
        Seq::empty(),
        Seq::empty(),
        0,
    ) == Ok::<_, crate::error::CodegenErrorView>((done, Seq::<JumpView>::empty())));
    assert(done =~= seq![(offset, text)]);
}

} // verus!
