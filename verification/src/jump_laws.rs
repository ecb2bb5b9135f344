//! Laws of the jumps: what the references to labels hold in the final code, and
//! that no placeholder is left in it.

use crate::ast::{Contract, ContractView, TableDefinitionView};
use crate::bytecode::{BytecodeResView, JumpView};
use crate::hex::{address_hex, is_code_text, is_hex, is_hex_char, lemma_address_hex, placeholder};
use crate::invariants::{holds_push2, piece_at, placed};
use crate::jumps::{
    awaits_table, classified, is_ref_offset, lemma_expand_tidy, lemma_one_piece_at, lemma_push2,
    push2, resolves, result_ref_ok, result_ref_piece, tidy_result_parts, waits,
};
use crate::laws::{
    in_address, lemma_fill_instances, lemma_instances_spaced, lemma_laid_out_order,
    lemma_lay_out_tables, lemma_piece_survives, lemma_table_text, untouched,
};
use crate::layout::{laid_out, lemma_laid_out_piece, lemma_laid_out_total};
use crate::model::{
    code_len, concat, expand_entry, fill_table_instances, finalize, lay_out_tables, entry_bytecode,
    table_text, Expansion, Layout, Mark, Pieces, MAX_EXPANSION_DEPTH,
};
use vstd::prelude::*;

verus! {

/// Every table is recorded with an offset once the tables are laid out.
pub proof fn lemma_tables_recorded(
    tables: Seq<TableDefinitionView>,
    labels: Map<Seq<char>, usize>,
    layout: Layout,
    k: nat,
    j: int,
)
    requires
        is_code_text(layout.text),
        k <= j < tables.len(),
    ensures
        match lay_out_tables(tables, labels, layout, k) {
            Ok(out) => out.table_offsets.contains_key(tables[j].name),
            Err(_) => true,
        },
    decreases tables.len() - k,
{
    let t = tables[k as int];
    if layout.next_offset + t.size <= usize::MAX {
        lemma_table_text(t, labels, layout.text, 0);
        match table_text(t, labels, layout.text, 0) {
            Ok(text) => {
                let next = Layout {
                    text,
                    table_offsets: layout.table_offsets.insert(t.name, layout.next_offset),
                    next_offset: (layout.next_offset + t.size) as usize,
                };
                if j == k {
                    lemma_lay_out_tables(tables, labels, next, k + 1);
                    assert(next.table_offsets.contains_key(t.name));
                } else {
                    lemma_tables_recorded(tables, labels, next, k + 1, j);
                }
            },
            Err(_) => {},
        }
    }
}

/// Every character of the code of a layout belongs to one of its pieces.
pub proof fn lemma_position_piece(pieces: Pieces, end: int, p: int)
    requires
        laid_out(pieces, 0, end),
        0 <= p < 2 * end,
    ensures
        exists|i: int|
            0 <= i < pieces.len() && 2 * (#[trigger] pieces[i]).0 <= p < 2 * pieces[i].0
                + pieces[i].1.len(),
    decreases pieces.len(),
{
    if pieces.len() > 0 {
        let last = pieces.last();
        if p >= 2 * last.0 {
            assert(2 * pieces[pieces.len() - 1].0 <= p < 2 * pieces[pieces.len() - 1].0
                + pieces[pieces.len() - 1].1.len());
        } else {
            let front = pieces.drop_last();
            lemma_position_piece(front, last.0 as int, p);
            let i = choose|i: int|
                0 <= i < front.len() && 2 * (#[trigger] front[i]).0 <= p < 2 * front[i].0
                    + front[i].1.len();
            assert(pieces[i] == front[i]);
        }
    }
}

/// Whether the six characters of `code` at the offset of `r` are the push of the
/// address of `defs[d]`, a definition of the label of `r` whose `JUMPDEST` stands at
/// that address.
pub open spec fn points_to(code: Seq<char>, r: Mark, defs: Seq<Mark>, d: int) -> bool {
    &&& 0 <= d < defs.len()
    &&& defs[d].label == r.label
    &&& 2 * r.offset + 6 <= code.len()
    &&& code.subrange(2 * r.offset, 2 * r.offset + 6) == push2(defs[d].offset as nat)
    &&& 2 * defs[d].offset + 2 <= code.len()
    &&& code.subrange(2 * defs[d].offset, 2 * defs[d].offset + 2) == crate::hex::jumpdest()
}

/// Whether the reference `r` holds the address of a definition of its label.
pub open spec fn points_to_definition(code: Seq<char>, r: Mark, defs: Seq<Mark>) -> bool {
    exists|d: int| #[trigger] points_to(code, r, defs, d)
}

/// In the code of an entry macro every reference to a label is a push of two bytes
/// that holds the offset of a definition of that label, and the `JUMPDEST` of the
/// definition stands at that offset. This holds where no jump went astray: no name
/// was taken for a label with its jump recorded under another offset than that of
/// its push.
pub proof fn law_label_refs(contract: Contract, entry: Seq<char>)
    requires
        contract@.well_formed(),
        entry_bytecode(contract@, entry) is Ok,
        expand_entry(contract@, entry)->Ok_0.trace.strays == 0,
    ensures
        ({
            let x = expand_entry(contract@, entry)->Ok_0;
            let code = entry_bytecode(contract@, entry)->Ok_0;
            forall|k: int|
                0 <= k < x.trace.refs.len() ==> points_to_definition(
                    code,
                    #[trigger] x.trace.refs[k],
                    x.trace.defs,
                )
        }),
{
    let c = contract@;
    match c.find_macro(entry) {
        Some(m) => {
            lemma_expand_tidy(c, m, seq![m], Seq::empty(), 0, MAX_EXPANSION_DEPTH as nat);
            match (expand_entry(c, entry), entry_bytecode(c, entry)) {
                (Ok(x), Ok(code)) => {
                    if x.trace.strays == 0 {
                        let pieces = x.res.bytes;
                        assert forall|k: int| 0 <= k < x.trace.refs.len() implies points_to_definition(
                            code,
                            #[trigger] x.trace.refs[k],
                            x.trace.defs,
                        ) by {
                            let r = x.trace.refs[k];
                            assert(result_ref_ok(pieces, x.res.unmatched_jumps, x.trace.defs, r));
                            let i = choose|i: int|
                                result_ref_piece(
                                    pieces,
                                    x.res.unmatched_jumps,
                                    x.trace.defs,
                                    r,
                                    i,
                                );
                            assert(!waits(x.res.unmatched_jumps, r));
                            let d = choose|d: int| resolves(x.trace.defs, d, pieces[i].1, r.label);
                            lemma_push2(x.trace.defs[d].offset as nat);
                            assert forall|j: int|
                                0 <= j < x.res.table_instances.len() implies (
                            #[trigger] x.res.table_instances[j]).bytecode_index != pieces[i].0
                                || pieces[i].1.len() == 0 by {
                                assert(x.trace.refs[k].offset
                                    != x.res.table_instances[j].bytecode_index);
                            }
                            lemma_piece_survives(x.res, c.tables, i);
                            assert(crate::invariants::marked(pieces, x.trace.defs[d]));
                            crate::laws::lemma_def_in_code(x, c.tables, x.trace.defs[d]);
                            assert(points_to(code, r, x.trace.defs, d));
                        }
                    }
                },
                _ => {},
            }
        },
        None => {},
    }
}

/// Whether every place that asks for the offset of a table names a table of the
/// contract.
pub open spec fn tables_known(instances: Seq<JumpView>, c: ContractView) -> bool {
    forall|j: int|
        0 <= j < instances.len() ==> c.find_table((#[trigger] instances[j]).label) is Some
}

/// No placeholder is left in the code of an entry macro: the code is hexadecimal
/// text, so it holds no `x`. This holds where no jump went astray, and every place
/// that asks for the offset of a table names a table of the contract.
pub proof fn law_no_placeholder(contract: Contract, entry: Seq<char>)
    requires
        contract@.well_formed(),
        entry_bytecode(contract@, entry) is Ok,
        expand_entry(contract@, entry)->Ok_0.trace.strays == 0,
        tables_known(expand_entry(contract@, entry)->Ok_0.res.table_instances, contract@),
    ensures
        is_hex(entry_bytecode(contract@, entry)->Ok_0),
        forall|p: int|
            0 <= p < entry_bytecode(contract@, entry)->Ok_0.len() ==> entry_bytecode(contract@, entry)->Ok_0[p]
                != 'x',
{
    let c = contract@;
    match c.find_macro(entry) {
        Some(m) => {
            lemma_expand_tidy(c, m, seq![m], Seq::empty(), 0, MAX_EXPANSION_DEPTH as nat);
            match (expand_entry(c, entry), entry_bytecode(c, entry)) {
                (Ok(x), Ok(code)) => {
                    if x.trace.strays == 0 && tables_known(x.res.table_instances, c) {
                        lemma_final_code_hex(x, c);
                        assert forall|p: int| 0 <= p < code.len() implies code[p] != 'x' by {
                            assert(is_hex_char(code[p]));
                        }
                    }
                },
                _ => {},
            }
        },
        None => {},
    }
}

/// The final code of a tidy result whose places all name a table is hexadecimal
/// text.
#[verifier::rlimit(50)]
pub proof fn lemma_final_code_hex(x: Expansion, c: ContractView)
    requires
        crate::layout::result_laid_out(x.res.bytes, 0),
        crate::invariants::instances_placed(x.res.bytes, x.res.table_instances),
        tidy_result_parts(
            x.res.bytes,
            x.res.unmatched_jumps,
            x.trace.defs,
            x.trace.refs,
            x.res.table_instances,
        ),
        tables_known(x.res.table_instances, c),
    ensures
        match finalize(x.res, c.tables) {
            Ok(code) => is_hex(code),
            Err(_) => true,
        },
{
    let pieces = x.res.bytes;
    let inst = x.res.table_instances;
    let end = code_len(pieces) as int;
    let code0 = concat(pieces);
    lemma_laid_out_total(pieces, 0, end);
    if x.res.unmatched_jumps.len() == 0 {
        let l0 = Layout {
            text: code0,
            table_offsets: Map::empty(),
            next_offset: (code0.len() / 2) as usize,
        };
        lemma_lay_out_tables(c.tables, x.res.label_indices, l0, 0);
        match lay_out_tables(c.tables, x.res.label_indices, l0, 0) {
            Ok(layout) => {
                lemma_fill_instances(layout.text, inst, layout.table_offsets, 0, pieces, end);
                match fill_table_instances(layout.text, inst, layout.table_offsets, 0) {
                    Ok(code) => {
                        // every place has its table
                        assert forall|j: int| 0 <= j < inst.len() implies layout.table_offsets.contains_key(
                            (#[trigger] inst[j]).label,
                        ) by {
                            let name = inst[j].label;
                            assert(c.find_table(name) is Some);
                            let q = crate::ast::first_index(c.table_names(), name)->0;
                            assert(crate::ast::is_first_at(c.table_names(), name, q));
                            assert(c.table_names()[q] == c.tables[q].name);
                            lemma_tables_recorded(c.tables, x.res.label_indices, l0, 0, q);
                        }
                        // the places lie within the code
                        assert forall|j: int| 0 <= j < inst.len() implies (
                        #[trigger] inst[j]).bytecode_index + 3 <= end by {
                            assert(placed(pieces, inst[j]));
                            let i = choose|i: int| holds_push2(pieces, i, inst[j].bytecode_index);
                            lemma_laid_out_piece(pieces, 0, end, i);
                        }
                        assert forall|p: int| 0 <= p < code.len() implies is_hex_char(
                            #[trigger] code[p],
                        ) by {
                            if p >= code0.len() {
                                assert(untouched(inst, 0, p));
                                let tail = layout.text.subrange(
                                    code0.len() as int,
                                    layout.text.len() as int,
                                );
                                assert(tail[p - code0.len()] == layout.text[p]);
                                assert(crate::hex::is_lower_hex_char(tail[p - code0.len()]));
                            } else {
                                lemma_position_piece(pieces, end, p);
                                let i = choose|i: int|
                                    0 <= i < pieces.len() && 2 * (#[trigger] pieces[i]).0 <= p < 2
                                        * pieces[i].0 + pieces[i].1.len();
                                lemma_laid_out_piece(pieces, 0, end, i);
                                let at = pieces[i].0;
                                let text = pieces[i].1;
                                assert(code0.subrange(2 * at, 2 * at + text.len())[p - 2 * at]
                                    == code0[p]);
                                assert(layout.text.subrange(0, code0.len() as int)[p]
                                    == layout.text[p]);
                                assert(classified(pieces[i], x.trace.refs, inst));
                                if is_hex(text) {
                                    assert forall|j: int| 0 <= j < inst.len() implies !in_address(
                                        (#[trigger] inst[j]).bytecode_index,
                                        p,
                                    ) by {
                                        assert(awaits_table(pieces, inst[j]));
                                        let q = choose|q: int|
                                            piece_at(
                                                pieces,
                                                q,
                                                inst[j].bytecode_index,
                                                placeholder(),
                                            );
                                        assert(placeholder()[2] == 'x');
                                        assert(!is_hex_char(pieces[q].1[2]));
                                        lemma_laid_out_piece(pieces, 0, end, q);
                                        if q < i {
                                            lemma_laid_out_order(pieces, 0, end, q, i);
                                        } else if i < q {
                                            lemma_laid_out_order(pieces, 0, end, i, q);
                                        }
                                    }
                                    assert(untouched(inst, 0, p));
                                    assert(is_hex_char(text[p - 2 * at]));
                                } else if is_ref_offset(x.trace.refs, at) {
                                    let k = choose|k: int|
                                        0 <= k < x.trace.refs.len() && (
                                        #[trigger] x.trace.refs[k]).offset == at;
                                    let r = x.trace.refs[k];
                                    assert(result_ref_ok(
                                        pieces,
                                        x.res.unmatched_jumps,
                                        x.trace.defs,
                                        r,
                                    ));
                                    let i2 = choose|i2: int|
                                        result_ref_piece(
                                            pieces,
                                            x.res.unmatched_jumps,
                                            x.trace.defs,
                                            r,
                                            i2,
                                        );
                                    assert(!waits(x.res.unmatched_jumps, r));
                                    let d = choose|d: int|
                                        resolves(x.trace.defs, d, pieces[i2].1, r.label);
                                    lemma_push2(x.trace.defs[d].offset as nat);
                                    lemma_one_piece_at(pieces, 0, end, i, i2);
                                    assert(false);
                                } else {
                                    let j = choose|j: int|
                                        0 <= j < inst.len() && (#[trigger] inst[j]).bytecode_index
                                            == at;
                                    assert(layout.table_offsets.contains_key(inst[j].label));
                                    if p < 2 * at + 2 {
                                        assert forall|q: int| 0 <= q < inst.len() implies !in_address(
                                            (#[trigger] inst[q]).bytecode_index,
                                            p,
                                        ) by {
                                            if q < j {
                                                lemma_instances_spaced(pieces, end, inst, q, j);
                                            } else if j < q {
                                                lemma_instances_spaced(pieces, end, inst, j, q);
                                            }
                                        }
                                        assert(untouched(inst, 0, p));
                                        assert(text[p - 2 * at] == '6' || text[p - 2 * at] == '1');
                                    } else {
                                        let v = layout.table_offsets[inst[j].label];
                                        lemma_address_hex(v as nat);
                                        assert(code.subrange(2 * at + 2, 2 * at + 6)[p - 2 * at - 2]
                                            == code[p]);
                                        assert(crate::hex::is_lower_hex_char(
                                            address_hex(v as nat)[p - 2 * at - 2],
                                        ));
                                    }
                                }
                            }
                        }
                    },
                    Err(_) => {},
                }
            },
            Err(_) => {},
        }
    }
}

/// Whether the definitions have labels that differ from one another.
pub open spec fn labels_unique(defs: Seq<Mark>) -> bool {
    forall|a: int, b: int|
        0 <= a < b < defs.len() ==> (#[trigger] defs[a]).label != (#[trigger] defs[b]).label
}

/// Whether the `i`-th piece of a result is what the reference `r` became: the push
/// of the offset of its label where the result knows the label, and a placeholder
/// with an open jump to the label at the offset of the reference where it does not.
pub open spec fn ref_written(res: BytecodeResView, r: Mark, i: int) -> bool {
    &&& 0 <= i < res.bytes.len()
    &&& res.bytes[i].0 == r.offset
    &&& if res.label_indices.contains_key(r.label) {
        &&& res.label_indices[r.label] <= crate::hex::max_address()
        &&& res.bytes[i].1 == push2(res.label_indices[r.label] as nat)
    } else {
        &&& res.bytes[i].1 == placeholder()
        &&& waits(res.unmatched_jumps, r)
    }
}

/// Whether the reference `r` has become a push of the offset of its label, or a
/// placeholder that is reported as open.
pub open spec fn ref_settled(res: BytecodeResView, r: Mark) -> bool {
    exists|i: int| #[trigger] ref_written(res, r, i)
}

/// In the result of one expansion every reference to a label is the push of the
/// offset that the result gives for the label, or, where the result does not know the
/// label, a placeholder whose jump is reported as open at the offset of the
/// reference. This holds where no jump went astray and no label is defined twice.
pub proof fn law_expansion_refs(
    c: ContractView,
    m: crate::ast::MacroDefinitionView,
    scope: crate::model::Scope,
    mis: crate::model::Invocations,
    offset: usize,
    fuel: nat,
)
    requires
        c.well_formed(),
        m.well_formed(),
        crate::model::expand_traced(c, m, scope, mis, offset, fuel) is Ok,
        crate::model::expand_traced(c, m, scope, mis, offset, fuel)->Ok_0.trace.strays == 0,
        labels_unique(crate::model::expand_traced(c, m, scope, mis, offset, fuel)->Ok_0.trace.defs),
    ensures
        ({
            let x = crate::model::expand_traced(c, m, scope, mis, offset, fuel)->Ok_0;
            forall|k: int| 0 <= k < x.trace.refs.len() ==> ref_settled(x.res, #[trigger] x.trace.refs[k])
        }),
{
    lemma_expand_tidy(c, m, scope, mis, offset, fuel);
    let x = crate::model::expand_traced(c, m, scope, mis, offset, fuel)->Ok_0;
    let labels = x.res.label_indices;
    let defs = x.trace.defs;
    assert forall|k: int| 0 <= k < x.trace.refs.len() implies ref_settled(
        x.res,
        #[trigger] x.trace.refs[k],
    ) by {
        let r = x.trace.refs[k];
        assert(result_ref_ok(x.res.bytes, x.res.unmatched_jumps, defs, r));
        let i = choose|i: int| result_ref_piece(x.res.bytes, x.res.unmatched_jumps, defs, r, i);
        if crate::jumps::resolved(x.res.bytes[i].1, r.label, defs) {
            let d = choose|d: int| resolves(defs, d, x.res.bytes[i].1, r.label);
            lemma_push2(defs[d].offset as nat);
            assert(labels.contains_key(defs[d].label));
            assert(crate::invariants::defined(defs, r.label, labels[r.label]));
            let e = choose|e: int| crate::invariants::is_def(defs, e, r.label, labels[r.label]);
            if d < e {
                assert(defs[d].label != defs[e].label);
            } else if e < d {
                assert(defs[e].label != defs[d].label);
            }
        } else {
            let u = choose|u: int|
                0 <= u < x.res.unmatched_jumps.len() && #[trigger] x.res.unmatched_jumps[u] == (
                JumpView { label: r.label, bytecode_index: r.offset });
            assert(!labels.contains_key(x.res.unmatched_jumps[u].label));
        }
        assert(ref_written(x.res, r, i));
    }
}

} // verus!
