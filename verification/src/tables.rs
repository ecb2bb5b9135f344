//! The final layout: the code, the jump tables behind it, and the offsets of the
//! tables written where the code asks for them.

use crate::ast::{entry_width, Bytes, Contract, Statement, TableDefinition, TableKind};
use crate::bytecode::{jumps_view, pieces_view, BytecodeRes, Jump, LabelIndices};
use crate::error::{CodegenError, CodegenErrorKind, CodegenErrorView};
use crate::expand::patch_text;
use crate::hex::{
    ascii_len, is_code_text, lemma_code_text_concat, lemma_code_text_is_ascii,
    lemma_hex_is_code_text, lemma_pad_hex, lemma_size_hex, pad_n_bytes, size_hex, size_to_hex,
};
use crate::bytecode::all_code_text;
use crate::model::{
    concat, fill_table_instances, finalize, lay_out_tables, table_text, Layout, Pieces,
};
use vstd::prelude::*;
use vstd::string::*;

verus! {

/// The view of a result that is a text or an error.
pub open spec fn text_result_view(r: Result<String, CodegenError>) -> Result<
    Seq<char>,
    CodegenErrorView,
> {
    match r {
        Ok(s) => Ok(s@),
        Err(e) => Err(e@),
    }
}

/// The text of pieces that are code texts is a code text.
pub proof fn lemma_concat_code_text(pieces: Pieces)
    requires
        all_code_text(pieces),
    ensures
        is_code_text(concat(pieces)),
    decreases pieces.len(),
{
    if pieces.len() > 0 {
        assert forall|i: int| 0 <= i < pieces.drop_last().len() implies is_code_text(
            (#[trigger] pieces.drop_last()[i]).1,
        ) by {
            assert(pieces.drop_last()[i] == pieces[i]);
        }
        lemma_concat_code_text(pieces.drop_last());
        assert(is_code_text(pieces[pieces.len() - 1].1));
        lemma_code_text_concat(concat(pieces.drop_last()), pieces.last().1);
    }
}

/// The text of all pieces, one after the other.
pub fn concat_pieces(bytes: &Vec<(usize, Bytes)>) -> (r: String)
    requires
        all_code_text(pieces_view(bytes@)),
    ensures
        r@ == concat(pieces_view(bytes@)),
        is_code_text(r@),
{
    let ghost pieces = pieces_view(bytes@);
    let mut r = String::new();
    let mut i: usize = 0;
    while i < bytes.len()
        invariant
            i <= bytes.len(),
            pieces == pieces_view(bytes@),
            r@ == concat(pieces.take(i as int)),
        decreases bytes.len() - i,
    {
        proof {
            assert(pieces.take(i as int + 1).drop_last() =~= pieces.take(i as int));
            assert(pieces.take(i as int + 1).last() == pieces[i as int]);
        }
        r.append(bytes[i].1.0.as_str());
        i += 1;
    }
    proof {
        assert(pieces.take(bytes.len() as int) =~= pieces);
        lemma_concat_code_text(pieces);
    }
    r
}

/// Puts the entries of the table `table` behind `text`: for each reference to a
/// label its offset, two bytes wide in a packed table and 32 bytes wide in another.
/// Fails where a label is not known, or where its offset does not fit an entry.
pub fn append_table(text: &mut String, table: &TableDefinition, labels: &LabelIndices) -> (r:
    Result<(), CodegenError>)
    requires
        is_code_text(old(text)@),
    ensures
        match table_text(table@, labels@, old(text)@, 0) {
            Ok(t) => r is Ok && final(text)@ == t && is_code_text(t),
            Err(e) => r is Err && r->Err_0@ == e,
        },
{
    let ghost whole = table_text(table@, labels@, text@, 0);
    let mut k: usize = 0;
    while k < table.statements.len()
        invariant
            k <= table.statements.len(),
            is_code_text(text@),
            whole == table_text(table@, labels@, old(text)@, 0),
            table_text(table@, labels@, text@, k as nat) == whole,
        decreases table.statements.len() - k,
    {
        proof {
            assert(table@.statements[k as int] == table.statements[k as int]@);
        }
        match &table.statements[k] {
            Statement::LabelCall(label) => {
                match labels.get(label.as_str()) {
                    Some(offset) => {
                        let packed = match table.kind {
                            TableKind::JumpTablePacked => true,
                            TableKind::JumpTable => false,
                        };
                        if packed && offset > 0xffff {
                            return Err(
                                CodegenError::without_span(CodegenErrorKind::OffsetOverflow),
                            );
                        }
                        let digits = size_to_hex(offset);
                        let entry = pad_n_bytes(
                            digits.as_str(),
                            if packed {
                                2
                            } else {
                                32
                            },
                        );
                        proof {
                            lemma_size_hex(offset as nat);
                            lemma_pad_hex(size_hex(offset as nat), entry_width(table.kind));
                            lemma_hex_is_code_text(entry@);
                            lemma_code_text_concat(text@, entry@);
                        }
                        text.append(entry.as_str());
                    },
                    None => {
                        return Err(
                            CodegenError::without_span(CodegenErrorKind::UnmatchedJumpLabel),
                        );
                    },
                }
            },
            _ => {},
        }
        k += 1;
    }
    Ok(())
}

/// Writes the offsets of the tables into the places that await them. A place that
/// names no table stays as it is.
pub fn fill_instances(text: String, instances: &Vec<Jump>, table_offsets: &LabelIndices) -> (r:
    Result<String, CodegenError>)
    requires
        is_code_text(text@),
    ensures
        text_result_view(r) == fill_table_instances(
            text@,
            jumps_view(instances@),
            table_offsets@,
            0,
        ),
        r is Ok ==> is_code_text(r->Ok_0@),
{
    let ghost whole = fill_table_instances(text@, jumps_view(instances@), table_offsets@, 0);
    let mut cur = text;
    let mut k: usize = 0;
    while k < instances.len()
        invariant
            k <= instances.len(),
            is_code_text(cur@),
            whole == fill_table_instances(text@, jumps_view(instances@), table_offsets@, 0),
            fill_table_instances(cur@, jumps_view(instances@), table_offsets@, k as nat) == whole,
        decreases instances.len() - k,
    {
        let j = &instances[k];
        proof {
            assert(jumps_view(instances@)[k as int] == j@);
            lemma_code_text_is_ascii(cur@);
        }
        match table_offsets.get(j.label.as_str()) {
            Some(table_offset) => {
                let n = ascii_len(cur.as_str());
                if n >= 6 && j.bytecode_index <= (n - 6) / 2 {
                    if table_offset > 0xffff {
                        return Err(CodegenError::without_span(CodegenErrorKind::OffsetOverflow));
                    }
                    cur = patch_text(cur.as_str(), 2 * j.bytecode_index, table_offset);
                }
            },
            None => {},
        }
        k += 1;
    }
    Ok(cur)
}

/// Puts the tables behind the code, writes their offsets into the places that await
/// them, and gives the final code.
///
/// Fails with `UnmatchedJumpLabel` where a jump is left open or a table refers to a
/// label that is not known, and with `OffsetOverflow` where an offset does not fit
/// the place it has to be written to.
pub fn lay_out(res: BytecodeRes, contract: &Contract) -> (r: Result<String, CodegenError>)
    requires
        all_code_text(res@.bytes),
    ensures
        text_result_view(r) == finalize(res@, contract@.tables),
        r is Ok ==> is_code_text(r->Ok_0@),
{
    if res.unmatched_jumps.len() > 0 {
        return Err(CodegenError::without_span(CodegenErrorKind::UnmatchedJumpLabel));
    }
    let mut text = concat_pieces(&res.bytes);
    proof {
        lemma_code_text_is_ascii(text@);
    }
    let mut next_offset: usize = ascii_len(text.as_str()) / 2;
    let mut table_offsets = LabelIndices::new();
    let ghost tables = contract@.tables;
    let ghost labels = res@.label_indices;
    let ghost code = text@;
    let ghost whole = lay_out_tables(
        tables,
        labels,
        Layout { text: code, table_offsets: Map::empty(), next_offset },
        0,
    );
    let mut k: usize = 0;
    while k < contract.tables.len()
        invariant
            k <= contract.tables.len(),
            tables == contract@.tables,
            labels == res.label_indices@,
            is_code_text(text@),
            res@.unmatched_jumps.len() == 0,
            code == concat(res@.bytes),
            whole == lay_out_tables(
                tables,
                labels,
                Layout {
                    text: code,
                    table_offsets: Map::empty(),
                    next_offset: (code.len() / 2) as usize,
                },
                0,
            ),
            lay_out_tables(
                tables,
                labels,
                Layout { text: text@, table_offsets: table_offsets@, next_offset },
                k as nat,
            ) == whole,
        decreases contract.tables.len() - k,
    {
        let table = &contract.tables[k];
        proof {
            assert(tables[k as int] == table@);
        }
        if table.size > usize::MAX - next_offset {
            return Err(CodegenError::without_span(CodegenErrorKind::OffsetOverflow));
        }
        match append_table(&mut text, table, &res.label_indices) {
            Ok(()) => {},
            Err(e) => {
                return Err(e);
            },
        }
        table_offsets.insert(table.name.clone(), next_offset);
        next_offset = next_offset + table.size;
        k += 1;
    }
    fill_instances(text, &res.table_instances, &table_offsets)
}

} // verus!
