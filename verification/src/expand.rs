//! The expansion of a macro into pieces of code.

use crate::ast::{
    BuiltinFunctionKind, Bytes, ConstVal, Contract, IRByteType, IRByteTypeView, IRBytes,
    MacroDefinition, MacroInvocation, Statement, StatementView,
};
use crate::bytecode::{
    jump_table_view, jumps_view, pieces_view, BytecodeRes, Jump, JumpTable, JumpView, Jumps,
    LabelIndices,
};
use crate::error::{CodegenError, CodegenErrorKind};
use crate::hex::{
    address_hex, ascii_len, is_code_text, lemma_address_hex, lemma_code_text_is_ascii,
    lemma_hex_is_code_text, max_address, pad_n_bytes, push_for, size_to_hex, usize_to_hex,
};
use crate::invariants::{lemma_expand_sound, lemma_walk_sound, sound_result};
use crate::bytecode::all_code_text;
use crate::layout::{lemma_laid_out_total, lemma_patch, lemma_size_push, result_laid_out};
use crate::model::{
    code_len, expand_traced, fill_from, fill_piece, join, merge, patch, rekey, start, step,
    trace_after_arg, walk, without_innermost, Emission, Expansion, Mark, Trace,
};
use crate::resolve::{
    buffer_view, invocations_view, lemma_jump_table_insert, literal_push, place_placeholder,
    place_resolved, place_text, placeholder_text, resolve, scope_view,
};
use vstd::prelude::*;
use vstd::string::*;

verus! {

/// The state of the walk through one macro body.
pub(crate) struct Walker {
    pub bytes: Vec<(usize, Bytes)>,
    pub offset: usize,
    pub jump_table: JumpTable,
    pub label_indices: LabelIndices,
    pub table_instances: Jumps,
    pub trace: Ghost<Trace>,
}

impl View for Walker {
    type V = Emission;

    closed spec fn view(&self) -> Emission {
        Emission {
            code: buffer_view(self.bytes@, self.offset, self.jump_table@),
            label_indices: self.label_indices@,
            table_instances: jumps_view(self.table_instances@),
            trace: self.trace@,
        }
    }
}

impl Walker {
    /// The walk before the first item of a macro that starts at `offset`.
    pub(crate) fn new(offset: usize) -> (w: Walker)
        ensures
            w@ == start(offset),
    {
        let w = Walker {
            bytes: Vec::new(),
            offset,
            jump_table: JumpTable::new(),
            label_indices: LabelIndices::new(),
            table_instances: Vec::new(),
            trace: Ghost(crate::model::no_trace()),
        };
        proof {
            assert(pieces_view(w.bytes@) =~= Seq::empty());
            assert(jump_table_view(w.jump_table@) =~= Map::empty());
            assert(jumps_view(w.table_instances@) =~= Seq::empty());
        }
        w
    }
}

/// The text of a two-byte address.
pub fn address_text(value: usize) -> (r: String)
    requires
        value <= max_address(),
    ensures
        r@ == address_hex(value as nat),
        r@.len() == 4,
        is_code_text(r@),
{
    proof {
        lemma_address_hex(value as nat);
        lemma_hex_is_code_text(address_hex(value as nat));
    }
    let digits = usize_to_hex(value);
    pad_n_bytes(digits.as_str(), 2)
}

/// `text` with the four characters from `at + 2` on replaced by the address `value`.
pub fn patch_text(text: &str, at: usize, value: usize) -> (r: String)
    requires
        is_code_text(text@),
        at + 6 <= text@.len(),
        value <= max_address(),
    ensures
        r@ == patch(text@, at as int, value as nat),
        is_code_text(r@),
        r@.len() == text@.len(),
{
    proof {
        lemma_code_text_is_ascii(text@);
        lemma_patch(text@, at as int, value as nat);
    }
    let n = ascii_len(text);
    let mut r = String::from_str(text.substring_ascii(0, at + 2));
    let address = address_text(value);
    r.append(address.as_str());
    r.append(text.substring_ascii(at + 6, n));
    r
}

/// Writes into `text` the addresses of the jumps of one piece whose label is known,
/// and adds the other jumps to `open_jumps` with the offset of the piece.
pub fn fill_jumps_of_piece(
    text: String,
    code_index: usize,
    jumps: &Vec<Jump>,
    labels: &LabelIndices,
    open_jumps: &mut Vec<Jump>,
) -> (r: Result<String, CodegenError>)
    requires
        is_code_text(text@),
    ensures
        match fill_piece(
            text@,
            code_index,
            jumps_view(jumps@),
            labels@,
            jumps_view(old(open_jumps)@),
            0,
        ) {
            Ok((filled, still_open)) => {
                &&& r is Ok
                &&& r->Ok_0@ == filled
                &&& jumps_view(final(open_jumps)@) == still_open
            },
            Err(e) => r is Err && r->Err_0@ == e,
        },
{
    let ghost whole = fill_piece(
        text@,
        code_index,
        jumps_view(jumps@),
        labels@,
        jumps_view(open_jumps@),
        0,
    );
    let mut cur = text;
    let mut k: usize = 0;
    while k < jumps.len()
        invariant
            k <= jumps.len(),
            is_code_text(cur@),
            whole == fill_piece(
                text@,
                code_index,
                jumps_view(jumps@),
                labels@,
                jumps_view(old(open_jumps)@),
                0,
            ),
            fill_piece(
                cur@,
                code_index,
                jumps_view(jumps@),
                labels@,
                jumps_view(open_jumps@),
                k as nat,
            ) == whole,
        decreases jumps.len() - k,
    {
        let j = &jumps[k];
        proof {
            assert(jumps_view(jumps@)[k as int] == j@);
            lemma_code_text_is_ascii(cur@);
        }
        match labels.get(j.label.as_str()) {
            Some(target) => {
                let n = ascii_len(cur.as_str());
                if n >= 6 && j.bytecode_index <= n - 6 {
                    if target > 0xffff {
                        return Err(CodegenError::without_span(CodegenErrorKind::OffsetOverflow));
                    }
                    cur = patch_text(cur.as_str(), j.bytecode_index, target);
                }
            },
            None => {
                let ghost before = jumps_view(open_jumps@);
                open_jumps.push(Jump { label: j.label.clone(), bytecode_index: code_index });
                proof {
                    assert(jumps_view(open_jumps@) =~= before.push(
                        JumpView { label: j.label@, bytecode_index: code_index },
                    ));
                }
            },
        }
        k += 1;
    }
    Ok(cur)
}

/// Writes the addresses of the labels that are known into the pieces. Gives the
/// pieces back with the jumps whose label is not known.
pub fn fill_pieces(bytes: &Vec<(usize, Bytes)>, jump_table: &JumpTable, labels: &LabelIndices) -> (r:
    Result<(Vec<(usize, Bytes)>, Vec<Jump>), CodegenError>)
    requires
        all_code_text(pieces_view(bytes@)),
    ensures
        match fill_from(
            pieces_view(bytes@),
            jump_table_view(jump_table@),
            labels@,
            Seq::empty(),
            Seq::empty(),
            0,
        ) {
            Ok((filled, open_jumps)) => {
                &&& r is Ok
                &&& pieces_view(r->Ok_0.0@) == filled
                &&& jumps_view(r->Ok_0.1@) == open_jumps
            },
            Err(e) => r is Err && r->Err_0@ == e,
        },
{
    broadcast use vstd::std_specs::btree::group_btree_axioms;

    let ghost pieces = pieces_view(bytes@);
    let ghost table = jump_table_view(jump_table@);
    let ghost whole = fill_from(pieces, table, labels@, Seq::empty(), Seq::empty(), 0);
    let mut done: Vec<(usize, Bytes)> = Vec::new();
    let mut open_jumps: Vec<Jump> = Vec::new();
    proof {
        assert(pieces_view(done@) =~= Seq::empty());
        assert(jumps_view(open_jumps@) =~= Seq::empty());
    }
    let mut i: usize = 0;
    while i < bytes.len()
        invariant
            i <= bytes.len(),
            pieces == pieces_view(bytes@),
            table == jump_table_view(jump_table@),
            all_code_text(pieces),
            whole == fill_from(pieces, table, labels@, Seq::empty(), Seq::empty(), 0),
            fill_from(
                pieces,
                table,
                labels@,
                pieces_view(done@),
                jumps_view(open_jumps@),
                i as nat,
            ) == whole,
        decreases bytes.len() - i,
    {
        let code_index = bytes[i].0;
        let text = bytes[i].1.0.clone();
        proof {
            assert(pieces[i as int] == (code_index, text@));
            assert(is_code_text(pieces[i as int].1));
        }
        let ghost before = pieces_view(done@);
        match jump_table.get(&code_index) {
            Some(jumps) => {
                proof {
                    assert(table.contains_key(code_index));
                    assert(table[code_index] == jumps_view(jumps@));
                }
                match fill_jumps_of_piece(text, code_index, jumps, labels, &mut open_jumps) {
                    Ok(filled) => {
                        done.push((code_index, Bytes(filled)));
                        proof {
                            assert(pieces_view(done@) =~= before.push((code_index, filled@)));
                        }
                    },
                    Err(e) => {
                        return Err(e);
                    },
                }
            },
            None => {
                proof {
                    assert(!table.contains_key(code_index));
                }
                done.push((code_index, Bytes(text)));
                proof {
                    assert(pieces_view(done@) =~= before.push((code_index, text@)));
                }
            },
        }
        i += 1;
    }
    Ok((done, open_jumps))
}

/// A copy of a list of jumps.
pub fn clone_jumps(jumps: &Vec<Jump>) -> (r: Vec<Jump>)
    ensures
        jumps_view(r@) == jumps_view(jumps@),
{
    let mut r: Vec<Jump> = Vec::new();
    let mut i: usize = 0;
    while i < jumps.len()
        invariant
            i <= jumps.len(),
            jumps_view(r@) == jumps_view(jumps@).take(i as int),
        decreases jumps.len() - i,
    {
        let ghost before = jumps_view(r@);
        r.push(Jump { label: jumps[i].label.clone(), bytecode_index: jumps[i].bytecode_index });
        proof {
            assert(jumps_view(r@) =~= before.push(jumps[i as int]@));
            assert(jumps_view(jumps@).take(i as int + 1) =~= jumps_view(jumps@).take(
                i as int,
            ).push(jumps[i as int]@));
        }
        i += 1;
    }
    proof {
        assert(jumps_view(jumps@).take(jumps.len() as int) =~= jumps_view(jumps@));
    }
    r
}

/// Records the jumps that an inner macro left open, each under the offset of its
/// push instruction.
pub fn rekey_jumps(jump_table: &mut JumpTable, open_jumps: &Vec<Jump>)
    ensures
        jump_table_view(final(jump_table)@) == rekey(
            jump_table_view(old(jump_table)@),
            jumps_view(open_jumps@),
            0,
        ),
{
    broadcast use vstd::std_specs::btree::group_btree_axioms;

    let ghost whole = rekey(jump_table_view(jump_table@), jumps_view(open_jumps@), 0);
    let mut k: usize = 0;
    while k < open_jumps.len()
        invariant
            k <= open_jumps.len(),
            rekey(jump_table_view(jump_table@), jumps_view(open_jumps@), k as nat) == whole,
        decreases open_jumps.len() - k,
    {
        let j = &open_jumps[k];
        let key = j.bytecode_index;
        let ghost table = jump_table_view(jump_table@);
        proof {
            assert(jumps_view(open_jumps@)[k as int] == j@);
        }
        let mut jumps = match jump_table.get(&key) {
            Some(earlier) => {
                proof {
                    assert(table.contains_key(key));
                    assert(table[key] == jumps_view(earlier@));
                }
                clone_jumps(earlier)
            },
            None => {
                proof {
                    assert(!table.contains_key(key));
                }
                Vec::new()
            },
        };
        let ghost before = jumps_view(jumps@);
        proof {
            assert(before =~= (if table.contains_key(key) {
                table[key]
            } else {
                Seq::empty()
            }));
        }
        jumps.push(Jump { label: j.label.clone(), bytecode_index: 0 });
        proof {
            assert(jumps_view(jumps@) =~= before.push(
                JumpView { label: j.label@, bytecode_index: 0 },
            ));
            lemma_jump_table_insert(jump_table@, key, jumps);
        }
        jump_table.insert(key, jumps);
        k += 1;
    }
}

/// The number of bytes that the pieces of a layout stand for.
pub fn byte_length(pieces: &Vec<(usize, Bytes)>, from: usize) -> (n: usize)
    requires
        result_laid_out(pieces_view(pieces@), from),
    ensures
        n == code_len(pieces_view(pieces@)),
        from + n <= usize::MAX,
{
    if pieces.len() == 0 {
        proof {
            lemma_laid_out_total(
                pieces_view(pieces@),
                from as int,
                from + code_len(pieces_view(pieces@)),
            );
        }
        0
    } else {
        let last = &pieces[pieces.len() - 1];
        proof {
            let v = pieces_view(pieces@);
            lemma_laid_out_total(v, from as int, from + code_len(v));
            assert(v.last() == (last.0, last.1@));
            lemma_code_text_is_ascii(last.1@);
        }
        last.0 + ascii_len(last.1.0.as_str()) / 2 - from
    }
}

/// Takes the result of an inner macro into the walk of the outer one.
pub(crate) fn merge_result(w: &mut Walker, res: BytecodeRes, trace: Ghost<Trace>)
    requires
        result_laid_out(res@.bytes, old(w).offset),
    ensures
        final(w)@ == merge(old(w)@, Expansion { res: res@, trace: trace@ }),
{
    let BytecodeRes { bytes, label_indices, unmatched_jumps, table_instances } = res;
    let mut bytes = bytes;
    let mut table_instances = table_instances;
    let n = byte_length(&bytes, w.offset);
    rekey_jumps(&mut w.jump_table, &unmatched_jumps);
    let ghost instances_before = jumps_view(w.table_instances@);
    let ghost instances_added = jumps_view(table_instances@);
    w.table_instances.append(&mut table_instances);
    w.label_indices.extend(label_indices);
    let ghost pieces_before = pieces_view(w.bytes@);
    let ghost pieces_added = pieces_view(bytes@);
    w.bytes.append(&mut bytes);
    w.offset = w.offset + n;
    w.trace = Ghost(join(w.trace@, trace@));
    proof {
        assert(jumps_view(w.table_instances@) =~= instances_before + instances_added);
        assert(pieces_view(w.bytes@) =~= pieces_before + pieces_added);
    }
}

/// Expands `macro_def` at `offset`.
///
/// `scope` holds the macros that are being expanded and `mis` their invocations;
/// `depth` says how many more levels of macros may be entered. On success the
/// innermost invocation is taken off `mis`; on failure both are as they were.
pub(crate) fn expand_macro<'a>(
    macro_def: &'a MacroDefinition,
    contract: &'a Contract,
    scope: &mut Vec<&'a MacroDefinition>,
    offset: usize,
    mis: &mut Vec<(usize, &'a MacroInvocation)>,
    depth: usize,
) -> (r: Result<(BytecodeRes, Ghost<Trace>), CodegenError>)
    requires
        contract@.well_formed(),
        macro_def@.well_formed(),
    ensures
        match expand_traced(
            contract@,
            macro_def@,
            scope_view(old(scope)@),
            invocations_view(old(mis)@),
            offset,
            depth as nat,
        ) {
            Ok(x) => {
                &&& r is Ok
                &&& r->Ok_0.0@ == x.res
                &&& r->Ok_0.1@ == x.trace
                &&& final(mis)@ == without_innermost(old(mis)@)
                &&& sound_result(x, offset)
            },
            Err(e) => r is Err && r->Err_0@ == e && final(mis)@ == old(mis)@,
        },
        final(scope)@ == old(scope)@,
    decreases depth, 2nat,
{
    let ghost c = contract@;
    let ghost m = macro_def@;
    let ghost sv = scope_view(scope@);
    let ghost mv = invocations_view(mis@);
    let ghost fuel = depth as nat;
    let mut w = Walker::new(offset);
    let mut i: usize = 0;
    while i < macro_def.ir_bytes.len()
        invariant
            i <= macro_def.ir_bytes.len(),
            c == contract@,
            m == macro_def@,
            fuel == depth as nat,
            c.well_formed(),
            m.well_formed(),
            scope@ == old(scope)@,
            mis@ == old(mis)@,
            sv == scope_view(scope@),
            mv == invocations_view(mis@),
            walk(c, m, sv, mv, w@, i as nat, fuel) == walk(c, m, sv, mv, start(offset), 0, fuel),
        decreases macro_def.ir_bytes.len() - i,
    {
        let item = &macro_def.ir_bytes[i];
        proof {
            assert(m.ir_bytes[i as int] == item@);
        }
        match take_step(item, macro_def, contract, scope, mis, &mut w, depth) {
            Ok(()) => {},
            Err(e) => {
                return Err(e);
            },
        }
        i += 1;
    }
    proof {
        lemma_walk_sound(c, m, sv, mv, start(offset), 0, fuel, offset);
        lemma_laid_out_total(w@.code.bytes, offset as int, w.offset as int);
        lemma_expand_sound(c, m, sv, mv, offset, fuel);
    }
    match fill_pieces(&w.bytes, &w.jump_table, &w.label_indices) {
        Ok((bytes, unmatched_jumps)) => {
            mis.pop();
            let Walker { bytes: _, offset: _, jump_table: _, label_indices, table_instances, trace } =
                w;
            Ok((BytecodeRes { bytes, label_indices, unmatched_jumps, table_instances }, trace))
        },
        Err(e) => Err(e),
    }
}

/// Takes one item of the body of `macro_def` into the walk.
pub(crate) fn take_step<'a>(
    item: &'a IRBytes,
    macro_def: &'a MacroDefinition,
    contract: &'a Contract,
    scope: &mut Vec<&'a MacroDefinition>,
    mis: &mut Vec<(usize, &'a MacroInvocation)>,
    w: &mut Walker,
    depth: usize,
) -> (r: Result<(), CodegenError>)
    requires
        contract@.well_formed(),
        match item@.ty {
            IRByteTypeView::Bytes(b) => crate::hex::is_hex(b) && b.len() % 2 == 0,
            _ => true,
        },
    ensures
        match step(
            contract@,
            macro_def@,
            scope_view(old(scope)@),
            invocations_view(old(mis)@),
            old(w)@,
            item@,
            depth as nat,
        ) {
            Ok(next) => r is Ok && final(w)@ == next,
            Err(e) => r is Err && r->Err_0@ == e,
        },
        final(scope)@ == old(scope)@,
        final(mis)@ == old(mis)@,
    decreases depth, 1nat,
{
    match &item.ty {
        IRByteType::Bytes(b) => {
            proof {
                lemma_hex_is_code_text(b@);
            }
            place_text(&mut w.bytes, &mut w.offset, b.0.clone())
        },
        IRByteType::Constant(name) => step_constant(item, name, contract, w),
        IRByteType::Statement(s) => match s {
            Statement::MacroInvocation(mi) => step_invocation(
                item,
                mi,
                macro_def,
                contract,
                scope,
                mis,
                w,
                depth,
            ),
            Statement::Label(name) => step_label(name, w),
            Statement::LabelCall(name) => step_label_call(name, w),
            Statement::BuiltinFunctionCall(bf) => match bf.kind {
                BuiltinFunctionKind::Codesize => step_codesize(
                    item,
                    bf,
                    macro_def,
                    contract,
                    scope,
                    mis,
                    w,
                    depth,
                ),
                BuiltinFunctionKind::Tablesize => step_tablesize(bf, contract, w),
                BuiltinFunctionKind::Tablestart => step_tablestart(bf, w),
            },
            _ => Err(CodegenError::at(CodegenErrorKind::InvalidMacroStatement, &item.span)),
        },
        IRByteType::ArgCall(name) => step_arg_call(name, macro_def, contract, scope, mis, w),
    }
}

/// Pushes the value of the constant called `name`.
fn step_constant(item: &IRBytes, name: &String, contract: &Contract, w: &mut Walker) -> (r: Result<
    (),
    CodegenError,
>)
    ensures
        match contract@.find_constant(name@) {
            Some(k) => match crate::model::constant_push(k.value, k.span) {
                Ok(text) => match crate::model::emit(old(w)@, text) {
                    Ok(next) => r is Ok && final(w)@ == next,
                    Err(e) => r is Err && r->Err_0@ == e,
                },
                Err(e) => r is Err && r->Err_0@ == e,
            },
            None => r is Err && r->Err_0@ == crate::error::error_at(
                crate::error::CodegenErrorKindView::MissingConstantDefinition(name@),
                item@.span,
            ),
        },
{
    match contract.find_constant_by_name(name.as_str()) {
        Some(constant) => match &constant.value {
            ConstVal::Literal(l) => place_text(&mut w.bytes, &mut w.offset, literal_push(l)),
            ConstVal::FreeStoragePointer => Err(
                CodegenError::at(CodegenErrorKind::StoragePointersNotDerived, &constant.span),
            ),
        },
        None => Err(
            CodegenError::at(CodegenErrorKind::MissingConstantDefinition(name.clone()), &item.span),
        ),
    }
}

/// Expands the macro that `mi` invokes and takes its result into the walk.
fn step_invocation<'a>(
    item: &'a IRBytes,
    mi: &'a MacroInvocation,
    macro_def: &'a MacroDefinition,
    contract: &'a Contract,
    scope: &mut Vec<&'a MacroDefinition>,
    mis: &mut Vec<(usize, &'a MacroInvocation)>,
    w: &mut Walker,
    depth: usize,
) -> (r: Result<(), CodegenError>)
    requires
        contract@.well_formed(),
        item@.ty == IRByteTypeView::Statement(StatementView::MacroInvocation(mi@)),
    ensures
        match step(
            contract@,
            macro_def@,
            scope_view(old(scope)@),
            invocations_view(old(mis)@),
            old(w)@,
            item@,
            depth as nat,
        ) {
            Ok(next) => r is Ok && final(w)@ == next,
            Err(e) => r is Err && r->Err_0@ == e,
        },
        final(scope)@ == old(scope)@,
        final(mis)@ == old(mis)@,
    decreases depth, 0nat,
{
    let inner = match contract.find_macro_by_name(mi.macro_name.as_str()) {
        Some(inner) => inner,
        None => {
            return Err(
                CodegenError::at_nowhere(
                    CodegenErrorKind::MissingMacroDefinition(mi.macro_name.clone()),
                ),
            );
        },
    };
    if depth == 0 {
        return Err(CodegenError::without_span(CodegenErrorKind::ExpansionDepthExceeded));
    }
    let at = w.offset;
    scope.push(inner);
    mis.push((at, mi));
    proof {
        assert(scope_view(scope@) =~= scope_view(old(scope)@).push(inner@));
        assert(invocations_view(mis@) =~= invocations_view(old(mis)@).push((at, mi@)));
    }
    match expand_macro(inner, contract, scope, at, mis, depth - 1) {
        Ok((res, trace)) => {
            scope.pop();
            proof {
                assert(scope@ =~= old(scope)@);
                assert(mis@ =~= old(mis)@);
            }
            merge_result(w, res, trace);
            Ok(())
        },
        Err(e) => {
            scope.pop();
            mis.pop();
            proof {
                assert(scope@ =~= old(scope)@);
                assert(mis@ =~= old(mis)@);
            }
            Err(e)
        },
    }
}

/// Places the `JUMPDEST` of the label `name` and records its offset.
fn step_label(name: &String, w: &mut Walker) -> (r: Result<(), CodegenError>)
    ensures
        match crate::model::emit(old(w)@, crate::hex::jumpdest()) {
            Ok(next) => r is Ok && final(w)@ == (Emission {
                code: next.code,
                label_indices: old(w)@.label_indices.insert(name@, old(w).offset),
                table_instances: old(w)@.table_instances,
                trace: Trace {
                    refs: old(w)@.trace.refs,
                    defs: old(w)@.trace.defs.push(Mark { label: name@, offset: old(w).offset }),
                    strays: old(w)@.trace.strays,
                },
            }),
            Err(e) => r is Err && r->Err_0@ == e,
        },
{
    let at = w.offset;
    match place_text(&mut w.bytes, &mut w.offset, jumpdest_text()) {
        Ok(()) => {
            w.label_indices.insert(name.clone(), at);
            w.trace = Ghost(
                Trace {
                    refs: w.trace@.refs,
                    defs: w.trace@.defs.push(Mark { label: name@, offset: at }),
                    strays: w.trace@.strays,
                },
            );
            Ok(())
        },
        Err(e) => Err(e),
    }
}

/// Places a push of the address of the label `name`, which is not known yet.
fn step_label_call(name: &String, w: &mut Walker) -> (r: Result<(), CodegenError>)
    ensures
        match crate::model::place_jump(old(w)@.code, name@, old(w).offset) {
            Ok(code) => r is Ok && final(w)@ == (Emission {
                code,
                label_indices: old(w)@.label_indices,
                table_instances: old(w)@.table_instances,
                trace: Trace {
                    refs: old(w)@.trace.refs.push(Mark { label: name@, offset: old(w).offset }),
                    defs: old(w)@.trace.defs,
                    strays: old(w)@.trace.strays,
                },
            }),
            Err(e) => r is Err && r->Err_0@ == e,
        },
{
    let at = w.offset;
    match place_placeholder(&mut w.bytes, &mut w.offset, &mut w.jump_table, name.clone(), at) {
        Ok(()) => {
            w.trace = Ghost(
                Trace {
                    refs: w.trace@.refs.push(Mark { label: name@, offset: at }),
                    defs: w.trace@.defs,
                    strays: w.trace@.strays,
                },
            );
            Ok(())
        },
        Err(e) => Err(e),
    }
}

/// Pushes the number of bytes that the macro named by `bf` expands to at the current
/// offset. The stacks of the expansion are as they were afterwards.
fn step_codesize<'a>(
    item: &'a IRBytes,
    bf: &'a crate::ast::BuiltinFunctionCall,
    macro_def: &'a MacroDefinition,
    contract: &'a Contract,
    scope: &mut Vec<&'a MacroDefinition>,
    mis: &mut Vec<(usize, &'a MacroInvocation)>,
    w: &mut Walker,
    depth: usize,
) -> (r: Result<(), CodegenError>)
    requires
        contract@.well_formed(),
        bf.kind == BuiltinFunctionKind::Codesize,
        item@.ty == IRByteTypeView::Statement(StatementView::BuiltinFunctionCall(bf@)),
    ensures
        match step(
            contract@,
            macro_def@,
            scope_view(old(scope)@),
            invocations_view(old(mis)@),
            old(w)@,
            item@,
            depth as nat,
        ) {
            Ok(next) => r is Ok && final(w)@ == next,
            Err(e) => r is Err && r->Err_0@ == e,
        },
        final(scope)@ == old(scope)@,
        final(mis)@ == old(mis)@,
    decreases depth, 0nat,
{
    let measured = match contract.find_macro_by_name(bf.arg.as_str()) {
        Some(measured) => measured,
        None => {
            return Err(
                CodegenError::at_nowhere(CodegenErrorKind::MissingMacroDefinition(bf.arg.clone())),
            );
        },
    };
    if depth == 0 {
        return Err(CodegenError::without_span(CodegenErrorKind::ExpansionDepthExceeded));
    }
    let innermost: Option<(usize, &'a MacroInvocation)> = if mis.len() > 0 {
        Some(mis[mis.len() - 1])
    } else {
        None
    };
    match expand_macro(measured, contract, scope, w.offset, mis, depth - 1) {
        Ok((res, _)) => {
            match innermost {
                Some(top) => {
                    mis.push(top);
                },
                None => {},
            }
            proof {
                assert(mis@ =~= old(mis)@);
            }
            let size = byte_length(&res.bytes, w.offset);
            proof {
                lemma_size_push(size as nat);
            }
            let digits = size_to_hex(size);
            place_text(&mut w.bytes, &mut w.offset, push_for(digits.as_str()))
        },
        Err(e) => Err(e),
    }
}

/// Pushes the declared size of the table named by `bf`.
fn step_tablesize(bf: &crate::ast::BuiltinFunctionCall, contract: &Contract, w: &mut Walker) -> (r:
    Result<(), CodegenError>)
    ensures
        match contract@.find_table(bf@.arg) {
            Some(t) => match crate::model::emit(
                old(w)@,
                crate::hex::push_bytes(crate::hex::size_hex(t.size as nat)),
            ) {
                Ok(next) => r is Ok && final(w)@ == next,
                Err(e) => r is Err && r->Err_0@ == e,
            },
            None => r is Err && r->Err_0@ == crate::model::missing_macro(bf@.arg),
        },
{
    match contract.find_table_by_name(bf.arg.as_str()) {
        Some(table) => {
            proof {
                lemma_size_push(table.size as nat);
            }
            let digits = size_to_hex(table.size);
            place_text(&mut w.bytes, &mut w.offset, push_for(digits.as_str()))
        },
        None => Err(
            CodegenError::at_nowhere(CodegenErrorKind::MissingMacroDefinition(bf.arg.clone())),
        ),
    }
}

/// Places a push of the offset of the table named by `bf`, which is not known yet.
fn step_tablestart(bf: &crate::ast::BuiltinFunctionCall, w: &mut Walker) -> (r: Result<
    (),
    CodegenError,
>)
    ensures
        match crate::model::emit(old(w)@, crate::hex::placeholder()) {
            Ok(next) => r is Ok && final(w)@ == (Emission {
                code: next.code,
                label_indices: old(w)@.label_indices,
                table_instances: old(w)@.table_instances.push(
                    JumpView { label: bf@.arg, bytecode_index: old(w).offset },
                ),
                trace: old(w)@.trace,
            }),
            Err(e) => r is Err && r->Err_0@ == e,
        },
{
    let at = w.offset;
    proof {
        crate::resolve::lemma_placeholder_is_code_text();
    }
    match place_text(&mut w.bytes, &mut w.offset, placeholder_text()) {
        Ok(()) => {
            let ghost before = jumps_view(w.table_instances@);
            w.table_instances.push(Jump { label: bf.arg.clone(), bytecode_index: at });
            proof {
                assert(jumps_view(w.table_instances@) =~= before.push(
                    JumpView { label: bf.arg@, bytecode_index: at },
                ));
            }
            Ok(())
        },
        Err(e) => Err(e),
    }
}

/// Resolves the argument `name` and places its code.
fn step_arg_call<'a>(
    name: &String,
    macro_def: &MacroDefinition,
    contract: &Contract,
    scope: &Vec<&'a MacroDefinition>,
    mis: &Vec<(usize, &'a MacroInvocation)>,
    w: &mut Walker,
) -> (r: Result<(), CodegenError>)
    ensures
        match crate::model::resolve_arg(
            contract@,
            name@,
            macro_def@,
            scope_view(scope@),
            invocations_view(mis@),
            old(w)@.code,
        ) {
            Ok(code) => r is Ok && final(w)@ == (Emission {
                code,
                label_indices: old(w)@.label_indices,
                table_instances: old(w)@.table_instances,
                trace: trace_after_arg(
                    old(w)@.trace,
                    crate::model::resolution(
                        contract@,
                        name@,
                        macro_def@,
                        scope_view(scope@),
                        invocations_view(mis@),
                    ),
                    old(w).offset,
                ),
            }),
            Err(e) => r is Err && r->Err_0@ == e,
        },
{
    proof {
        assert(scope@.take(scope.len() as int) =~= scope@);
        assert(mis@.take(mis.len() as int) =~= mis@);
    }
    match resolve(name.as_str(), macro_def, contract, scope, scope.len(), mis, mis.len()) {
        Ok(found) => {
            let ghost what = found@;
            let at = w.offset;
            match place_resolved(found, &mut w.bytes, &mut w.offset, &mut w.jump_table) {
                Ok(()) => {
                    w.trace = Ghost(trace_after_arg(w.trace@, what, at));
                    Ok(())
                },
                Err(e) => Err(e),
            }
        },
        Err(e) => Err(e),
    }
}

/// The text of the `JUMPDEST` opcode.
pub fn jumpdest_text() -> (r: String)
    ensures
        r@ == crate::hex::jumpdest(),
        is_code_text(r@),
{
    let r = String::from_str("5b");
    proof {
        reveal_strlit("5b");
        assert(r@ =~= crate::hex::jumpdest());
    }
    r
}

} // verus!
