//! What code generation computes, as mathematical functions on the views of the
//! contract and of the results.

use crate::ast::{
    entry_width, first_index, BuiltinFunctionKind, ConstValView, ContractView, IRByteTypeView,
    IRBytesView, MacroArgView, MacroDefinitionView, MacroInvocationView, StatementView, TableDefinitionView,
    TableKind,
};
use crate::bytecode::{BytecodeResView, JumpView};
use crate::error::{
    error_at, error_without_span, nowhere, CodegenErrorKindView, CodegenErrorView,
};
use crate::hex::{
    address_hex, hex_byte, jumpdest, literal_hex, max_address, pad_hex, placeholder, push_bytes,
    size_hex,
};
use crate::opcodes::opcode_of;
use vstd::prelude::*;

verus! {

/// How deep macros may be nested in one another.
pub const MAX_EXPANSION_DEPTH: usize = 200;

/// The macros that are being expanded, the outermost first.
pub type Scope = Seq<MacroDefinitionView>;

/// The invocations that are being expanded, the outermost first, each with the
/// offset at which it stands.
pub type Invocations = Seq<(usize, MacroInvocationView)>;

/// Pieces of code, each with the offset at which it starts.
pub type Pieces = Seq<(usize, Seq<char>)>;

/// The code that has been placed so far, the offset that the next piece gets, and the
/// jumps that await an address.
pub struct CodeBuffer {
    pub bytes: Pieces,
    pub offset: usize,
    pub jump_table: Map<usize, Seq<JumpView>>,
}

/// A label and the offset of an instruction that defines it or refers to it.
pub struct Mark {
    pub label: Seq<char>,
    pub offset: usize,
}

/// A record of what an expansion did, beyond the code that it produced.
pub struct Trace {
    /// The pushes that were placed for a reference to a label, each with the label
    /// that it refers to.
    pub refs: Seq<Mark>,
    /// The `JUMPDEST`s that were placed for the definition of a label.
    pub defs: Seq<Mark>,
    /// How often a name that is no constant, no opcode and no argument was taken for
    /// a label, and its jump recorded under another offset than that of its push.
    pub strays: nat,
}

/// The state of the walk through one macro body.
pub struct Emission {
    pub code: CodeBuffer,
    pub label_indices: Map<Seq<char>, usize>,
    pub table_instances: Seq<JumpView>,
    pub trace: Trace,
}

/// The result of an expansion together with the record of what it did.
pub struct Expansion {
    pub res: BytecodeResView,
    pub trace: Trace,
}

/// What a name that is referred to inside a macro stands for.
pub enum Resolution {
    /// Code that is known.
    Text(Seq<char>),
    /// A jump to the label that was handed in as an argument.
    Jump(Seq<char>),
    /// Nothing: the invocation has no argument at the position of the parameter.
    Nothing,
    /// A name that is taken for a label, with the offset under which its jump is
    /// recorded.
    Fallback(Seq<char>, usize),
    /// The lookup failed.
    Failed(CodegenErrorView),
}

/// The error for an offset that does not fit.
pub open spec fn overflow() -> CodegenErrorView {
    error_without_span(CodegenErrorKindView::OffsetOverflow)
}

/// The number of characters of all pieces together.
pub open spec fn total_chars(pieces: Pieces) -> nat
    decreases pieces.len(),
{
    if pieces.len() == 0 {
        0
    } else {
        total_chars(pieces.drop_last()) + pieces.last().1.len()
    }
}

/// The number of bytes that the pieces stand for.
pub open spec fn code_len(pieces: Pieces) -> nat {
    total_chars(pieces) / 2
}

/// The text of all pieces, one after the other.
pub open spec fn concat(pieces: Pieces) -> Seq<char>
    decreases pieces.len(),
{
    if pieces.len() == 0 {
        Seq::empty()
    } else {
        concat(pieces.drop_last()) + pieces.last().1
    }
}

/// `text` with the four characters from `at + 2` on replaced by the address `value`;
/// `text` itself where it has no four characters there.
pub open spec fn patch(text: Seq<char>, at: int, value: nat) -> Seq<char> {
    if 0 <= at && at + 6 <= text.len() {
        text.subrange(0, at + 2) + address_hex(value) + text.subrange(at + 6, text.len() as int)
    } else {
        text
    }
}

/// Places `text` at the current offset and moves the offset past it.
pub open spec fn place(buf: CodeBuffer, text: Seq<char>) -> Result<CodeBuffer, CodegenErrorView> {
    if buf.offset + text.len() / 2 > usize::MAX {
        Err(overflow())
    } else {
        Ok(
            CodeBuffer {
                bytes: buf.bytes.push((buf.offset, text)),
                offset: (buf.offset + text.len() / 2) as usize,
                jump_table: buf.jump_table,
            },
        )
    }
}

/// Places a push of an address that is not known yet, and records under `key` that
/// it awaits the offset of `label`.
pub open spec fn place_jump(buf: CodeBuffer, label: Seq<char>, key: usize) -> Result<
    CodeBuffer,
    CodegenErrorView,
> {
    match place(buf, placeholder()) {
        Ok(b) => Ok(
            CodeBuffer {
                bytes: b.bytes,
                offset: b.offset,
                jump_table: b.jump_table.insert(key, seq![JumpView { label, bytecode_index: 0 }]),
            },
        ),
        Err(e) => Err(e),
    }
}

/// The push of a constant's value.
pub open spec fn constant_push(value: ConstValView, span: Seq<crate::ast::SpanView>) -> Result<
    Seq<char>,
    CodegenErrorView,
> {
    match value {
        ConstValView::Literal(l) => Ok(push_bytes(literal_hex(l))),
        ConstValView::FreeStoragePointer => Err(
            error_at(CodegenErrorKindView::StoragePointersNotDerived, span),
        ),
    }
}

/// What the name `name` stands for where it is referred to inside the macro `d`.
///
/// The first rule that applies decides: a constant of that name is pushed; the
/// mnemonic of an opcode stands for that opcode; where `d` is being invoked and has a
/// parameter of that name, the argument at its position is taken (a literal is
/// pushed, a label becomes a jump, the name of an argument is looked up one
/// invocation further out, and a missing argument stands for nothing); anything else
/// is taken for a label, and its jump is recorded under the offset of the innermost
/// invocation.
pub open spec fn resolution(
    c: ContractView,
    name: Seq<char>,
    d: MacroDefinitionView,
    scope: Scope,
    mis: Invocations,
) -> Resolution
    decreases scope.len(),
{
    match c.find_constant(name) {
        Some(k) => match constant_push(k.value, Seq::empty()) {
            Ok(text) => Resolution::Text(text),
            Err(e) => Resolution::Failed(e),
        },
        None => match opcode_of(name) {
            Some(op) => Resolution::Text(hex_byte(op)),
            None => {
                if mis.len() > 0 && first_index(d.parameters, Some(name)) is Some {
                    let pos = first_index(d.parameters, Some(name))->0;
                    let invocation = mis.last().1;
                    if pos < invocation.args.len() {
                        match invocation.args[pos] {
                            MacroArgView::Literal(l) => Resolution::Text(
                                push_bytes(literal_hex(l)),
                            ),
                            MacroArgView::Ident(label) => Resolution::Jump(label),
                            MacroArgView::ArgCall(outer) => {
                                if scope.len() < 2 {
                                    Resolution::Failed(
                                        error_without_span(
                                            CodegenErrorKindView::MissingMacroInvocation(d.name),
                                        ),
                                    )
                                } else {
                                    let outer_scope = scope.drop_last();
                                    let outer_mis = if invocation.macro_name == d.name {
                                        mis.drop_last()
                                    } else {
                                        mis
                                    };
                                    resolution(c, outer, outer_scope.last(), outer_scope, outer_mis)
                                }
                            },
                        }
                    } else {
                        Resolution::Nothing
                    }
                } else {
                    Resolution::Fallback(
                        name,
                        if mis.len() > 0 {
                            mis.last().0
                        } else {
                            0
                        },
                    )
                }
            },
        },
    }
}

/// Places the code that a name stands for.
pub open spec fn apply_resolution(r: Resolution, buf: CodeBuffer) -> Result<
    CodeBuffer,
    CodegenErrorView,
> {
    match r {
        Resolution::Text(text) => place(buf, text),
        Resolution::Jump(label) => place_jump(buf, label, buf.offset),
        Resolution::Nothing => Ok(buf),
        Resolution::Fallback(label, key) => place_jump(buf, label, key),
        Resolution::Failed(e) => Err(e),
    }
}

/// Resolves the name `name`, referred to inside the macro `d`, and places its code.
pub open spec fn resolve_arg(
    c: ContractView,
    name: Seq<char>,
    d: MacroDefinitionView,
    scope: Scope,
    mis: Invocations,
    buf: CodeBuffer,
) -> Result<CodeBuffer, CodegenErrorView> {
    apply_resolution(resolution(c, name, d, scope, mis), buf)
}

/// The record after a name was resolved at `offset`.
pub open spec fn trace_after_arg(trace: Trace, r: Resolution, offset: usize) -> Trace {
    match r {
        Resolution::Jump(label) => Trace {
            refs: trace.refs.push(Mark { label, offset }),
            defs: trace.defs,
            strays: trace.strays,
        },
        Resolution::Fallback(label, key) => if key == offset {
            Trace {
                refs: trace.refs.push(Mark { label, offset }),
                defs: trace.defs,
                strays: trace.strays,
            }
        } else {
            Trace { refs: trace.refs, defs: trace.defs, strays: trace.strays + 1 }
        },
        _ => trace,
    }
}

/// The records of two expansions, one after the other.
pub open spec fn join(a: Trace, b: Trace) -> Trace {
    Trace { refs: a.refs + b.refs, defs: a.defs + b.defs, strays: a.strays + b.strays }
}

/// The record of an expansion that has done nothing yet.
pub open spec fn no_trace() -> Trace {
    Trace { refs: Seq::empty(), defs: Seq::empty(), strays: 0 }
}

/// Records the jumps that an inner macro left open, each under the offset of its
/// push instruction, from the `k`-th on.
pub open spec fn rekey(
    table: Map<usize, Seq<JumpView>>,
    open_jumps: Seq<JumpView>,
    k: nat,
) -> Map<usize, Seq<JumpView>>
    decreases open_jumps.len() - k,
{
    if k >= open_jumps.len() {
        table
    } else {
        let j = open_jumps[k as int];
        let earlier = if table.contains_key(j.bytecode_index) {
            table[j.bytecode_index]
        } else {
            Seq::empty()
        };
        rekey(
            table.insert(
                j.bytecode_index,
                earlier.push(JumpView { label: j.label, bytecode_index: 0 }),
            ),
            open_jumps,
            k + 1,
        )
    }
}

/// Takes the result of an inner macro into the walk of the outer one.
pub open spec fn merge(st: Emission, inner: Expansion) -> Emission {
    Emission {
        code: CodeBuffer {
            bytes: st.code.bytes + inner.res.bytes,
            offset: (st.code.offset + code_len(inner.res.bytes)) as usize,
            jump_table: rekey(st.code.jump_table, inner.res.unmatched_jumps, 0),
        },
        label_indices: st.label_indices.union_prefer_right(inner.res.label_indices),
        table_instances: st.table_instances + inner.res.table_instances,
        trace: join(st.trace, inner.trace),
    }
}

/// The walk with the code buffer replaced.
pub open spec fn with_code(st: Emission, code: CodeBuffer) -> Emission {
    Emission {
        code,
        label_indices: st.label_indices,
        table_instances: st.table_instances,
        trace: st.trace,
    }
}

/// Places `text` in the walk.
pub open spec fn emit(st: Emission, text: Seq<char>) -> Result<Emission, CodegenErrorView> {
    match place(st.code, text) {
        Ok(code) => Ok(with_code(st, code)),
        Err(e) => Err(e),
    }
}

/// The error for a macro that is not defined.
pub open spec fn missing_macro(name: Seq<char>) -> CodegenErrorView {
    error_at(CodegenErrorKindView::MissingMacroDefinition(name), nowhere())
}

/// The error for macros that are nested too deep.
pub open spec fn too_deep() -> CodegenErrorView {
    error_without_span(CodegenErrorKindView::ExpansionDepthExceeded)
}

/// The walk before the first item of a macro that starts at `offset`.
pub open spec fn start(offset: usize) -> Emission {
    Emission {
        code: CodeBuffer { bytes: Seq::empty(), offset, jump_table: Map::empty() },
        label_indices: Map::empty(),
        table_instances: Seq::empty(),
        trace: no_trace(),
    }
}

/// Writes into `text` the addresses of the jumps of one piece, from the `k`-th jump
/// on: a jump whose label is known is written into the text, another is added to
/// `open_jumps` with the offset of the piece.
pub open spec fn fill_piece(
    text: Seq<char>,
    code_index: usize,
    jumps: Seq<JumpView>,
    labels: Map<Seq<char>, usize>,
    open_jumps: Seq<JumpView>,
    k: nat,
) -> Result<(Seq<char>, Seq<JumpView>), CodegenErrorView>
    decreases jumps.len() - k,
{
    if k >= jumps.len() {
        Ok((text, open_jumps))
    } else {
        let j = jumps[k as int];
        if labels.contains_key(j.label) {
            if j.bytecode_index + 6 <= text.len() {
                if labels[j.label] > max_address() {
                    Err(overflow())
                } else {
                    fill_piece(
                        patch(text, j.bytecode_index as int, labels[j.label] as nat),
                        code_index,
                        jumps,
                        labels,
                        open_jumps,
                        k + 1,
                    )
                }
            } else {
                fill_piece(text, code_index, jumps, labels, open_jumps, k + 1)
            }
        } else {
            fill_piece(
                text,
                code_index,
                jumps,
                labels,
                open_jumps.push(JumpView { label: j.label, bytecode_index: code_index }),
                k + 1,
            )
        }
    }
}

/// Writes the addresses of the jumps into the pieces from the `i`-th on. `done` holds
/// the pieces before it, `open_jumps` the jumps that they left open.
pub open spec fn fill_from(
    pieces: Pieces,
    table: Map<usize, Seq<JumpView>>,
    labels: Map<Seq<char>, usize>,
    done: Pieces,
    open_jumps: Seq<JumpView>,
    i: nat,
) -> Result<(Pieces, Seq<JumpView>), CodegenErrorView>
    decreases pieces.len() - i,
{
    if i >= pieces.len() {
        Ok((done, open_jumps))
    } else {
        let (code_index, text) = pieces[i as int];
        if table.contains_key(code_index) {
            match fill_piece(text, code_index, table[code_index], labels, open_jumps, 0) {
                Ok((filled, still_open)) => fill_from(
                    pieces,
                    table,
                    labels,
                    done.push((code_index, filled)),
                    still_open,
                    i + 1,
                ),
                Err(e) => Err(e),
            }
        } else {
            fill_from(pieces, table, labels, done.push((code_index, text)), open_jumps, i + 1)
        }
    }
}

/// Ends the walk of a macro: the addresses of the labels that are known are written,
/// the other jumps are left open.
pub open spec fn finish(st: Emission) -> Result<Expansion, CodegenErrorView> {
    match fill_from(
        st.code.bytes,
        st.code.jump_table,
        st.label_indices,
        Seq::empty(),
        Seq::empty(),
        0,
    ) {
        Ok((bytes, open_jumps)) => Ok(
            Expansion {
                res: BytecodeResView {
                    bytes,
                    label_indices: st.label_indices,
                    unmatched_jumps: open_jumps,
                    table_instances: st.table_instances,
                },
                trace: st.trace,
            },
        ),
        Err(e) => Err(e),
    }
}

/// Expands the macro `m` at `offset`: the code of its items in order, with the
/// addresses of the labels that it knows written in.
///
/// `scope` holds the macros that are being expanded, `mis` their invocations, and
/// `fuel` says how many more levels of macros may be entered.
pub open spec fn expand(
    c: ContractView,
    m: MacroDefinitionView,
    scope: Scope,
    mis: Invocations,
    offset: usize,
    fuel: nat,
) -> Result<BytecodeResView, CodegenErrorView> {
    match expand_traced(c, m, scope, mis, offset, fuel) {
        Ok(x) => Ok(x.res),
        Err(e) => Err(e),
    }
}

/// The expansion of `m` at `offset`, with the record of what it did.
pub open spec fn expand_traced(
    c: ContractView,
    m: MacroDefinitionView,
    scope: Scope,
    mis: Invocations,
    offset: usize,
    fuel: nat,
) -> Result<Expansion, CodegenErrorView>
    decreases fuel, 1nat, 0nat,
{
    match walk(c, m, scope, mis, start(offset), 0, fuel) {
        Ok(st) => finish(st),
        Err(e) => Err(e),
    }
}

/// Walks through the items of `m` from the `i`-th on.
pub open spec fn walk(
    c: ContractView,
    m: MacroDefinitionView,
    scope: Scope,
    mis: Invocations,
    st: Emission,
    i: nat,
    fuel: nat,
) -> Result<Emission, CodegenErrorView>
    decreases fuel, 0nat, m.ir_bytes.len() - i,
{
    if i >= m.ir_bytes.len() {
        Ok(st)
    } else {
        match step(c, m, scope, mis, st, m.ir_bytes[i as int], fuel) {
            Ok(next) => walk(c, m, scope, mis, next, i + 1, fuel),
            Err(e) => Err(e),
        }
    }
}

/// Takes one item of the body of `m` into the walk.
pub open spec fn step(
    c: ContractView,
    m: MacroDefinitionView,
    scope: Scope,
    mis: Invocations,
    st: Emission,
    item: IRBytesView,
    fuel: nat,
) -> Result<Emission, CodegenErrorView>
    decreases fuel, 0nat, 0nat,
{
    match item.ty {
        IRByteTypeView::Bytes(text) => emit(st, text),
        IRByteTypeView::Constant(name) => match c.find_constant(name) {
            Some(k) => match constant_push(k.value, k.span) {
                Ok(text) => emit(st, text),
                Err(e) => Err(e),
            },
            None => Err(
                error_at(CodegenErrorKindView::MissingConstantDefinition(name), item.span),
            ),
        },
        IRByteTypeView::Statement(s) => match s {
            StatementView::MacroInvocation(mi) => match c.find_macro(mi.macro_name) {
                Some(inner) => {
                    if fuel == 0 {
                        Err(too_deep())
                    } else {
                        match expand_traced(
                            c,
                            inner,
                            scope.push(inner),
                            mis.push((st.code.offset, mi)),
                            st.code.offset,
                            (fuel - 1) as nat,
                        ) {
                            Ok(res) => Ok(merge(st, res)),
                            Err(e) => Err(e),
                        }
                    }
                },
                None => Err(missing_macro(mi.macro_name)),
            },
            StatementView::Label(name) => match emit(st, jumpdest()) {
                Ok(next) => Ok(
                    Emission {
                        code: next.code,
                        label_indices: st.label_indices.insert(name, st.code.offset),
                        table_instances: st.table_instances,
                        trace: Trace {
                            refs: st.trace.refs,
                            defs: st.trace.defs.push(Mark { label: name, offset: st.code.offset }),
                            strays: st.trace.strays,
                        },
                    },
                ),
                Err(e) => Err(e),
            },
            StatementView::LabelCall(name) => match place_jump(st.code, name, st.code.offset) {
                Ok(code) => Ok(
                    Emission {
                        code,
                        label_indices: st.label_indices,
                        table_instances: st.table_instances,
                        trace: Trace {
                            refs: st.trace.refs.push(Mark { label: name, offset: st.code.offset }),
                            defs: st.trace.defs,
                            strays: st.trace.strays,
                        },
                    },
                ),
                Err(e) => Err(e),
            },
            StatementView::BuiltinFunctionCall(bf) => match bf.kind {
                BuiltinFunctionKind::Codesize => match c.find_macro(bf.arg) {
                    Some(measured) => {
                        if fuel == 0 {
                            Err(too_deep())
                        } else {
                            match expand_traced(
                                c,
                                measured,
                                scope,
                                mis,
                                st.code.offset,
                                (fuel - 1) as nat,
                            ) {
                                Ok(x) => emit(st, push_bytes(size_hex(code_len(x.res.bytes)))),
                                Err(e) => Err(e),
                            }
                        }
                    },
                    None => Err(missing_macro(bf.arg)),
                },
                BuiltinFunctionKind::Tablesize => match c.find_table(bf.arg) {
                    Some(t) => emit(st, push_bytes(size_hex(t.size as nat))),
                    None => Err(missing_macro(bf.arg)),
                },
                BuiltinFunctionKind::Tablestart => match emit(st, placeholder()) {
                    Ok(next) => Ok(
                        Emission {
                            code: next.code,
                            label_indices: st.label_indices,
                            table_instances: st.table_instances.push(
                                JumpView { label: bf.arg, bytecode_index: st.code.offset },
                            ),
                            trace: st.trace,
                        },
                    ),
                    Err(e) => Err(e),
                },
            },
            _ => Err(error_at(CodegenErrorKindView::InvalidMacroStatement, item.span)),
        },
        IRByteTypeView::ArgCall(name) => match resolve_arg(c, name, m, scope, mis, st.code) {
            Ok(code) => Ok(
                Emission {
                    code,
                    label_indices: st.label_indices,
                    table_instances: st.table_instances,
                    trace: trace_after_arg(
                        st.trace,
                        resolution(c, name, m, scope, mis),
                        st.code.offset,
                    ),
                },
            ),
            Err(e) => Err(e),
        },
    }
}

/// The invocations after a macro has been expanded: the innermost one is gone.
pub open spec fn without_innermost<A>(mis: Seq<A>) -> Seq<A> {
    if mis.len() > 0 {
        mis.drop_last()
    } else {
        mis
    }
}

/// The error for a jump whose label is defined nowhere.
pub open spec fn unmatched() -> CodegenErrorView {
    error_without_span(CodegenErrorKindView::UnmatchedJumpLabel)
}

/// The entries of a jump table from the `k`-th statement on, behind `text`: for each
/// reference to a label its offset, as wide as the kind of the table says.
pub open spec fn table_text(
    t: TableDefinitionView,
    labels: Map<Seq<char>, usize>,
    text: Seq<char>,
    k: nat,
) -> Result<Seq<char>, CodegenErrorView>
    decreases t.statements.len() - k,
{
    if k >= t.statements.len() {
        Ok(text)
    } else {
        match t.statements[k as int] {
            StatementView::LabelCall(label) => {
                if !labels.contains_key(label) {
                    Err(unmatched())
                } else if t.kind == TableKind::JumpTablePacked && labels[label] > max_address() {
                    Err(overflow())
                } else {
                    table_text(
                        t,
                        labels,
                        text + pad_hex(size_hex(labels[label] as nat), entry_width(t.kind)),
                        k + 1,
                    )
                }
            },
            _ => table_text(t, labels, text, k + 1),
        }
    }
}

/// The code with the jump tables behind it, and where each table starts.
pub struct Layout {
    pub text: Seq<char>,
    pub table_offsets: Map<Seq<char>, usize>,
    pub next_offset: usize,
}

/// Lays out the tables from the `k`-th on.
pub open spec fn lay_out_tables(
    tables: Seq<TableDefinitionView>,
    labels: Map<Seq<char>, usize>,
    layout: Layout,
    k: nat,
) -> Result<Layout, CodegenErrorView>
    decreases tables.len() - k,
{
    if k >= tables.len() {
        Ok(layout)
    } else {
        let t = tables[k as int];
        if layout.next_offset + t.size > usize::MAX {
            Err(overflow())
        } else {
            match table_text(t, labels, layout.text, 0) {
                Ok(text) => lay_out_tables(
                    tables,
                    labels,
                    Layout {
                        text,
                        table_offsets: layout.table_offsets.insert(t.name, layout.next_offset),
                        next_offset: (layout.next_offset + t.size) as usize,
                    },
                    k + 1,
                ),
                Err(e) => Err(e),
            }
        }
    }
}

/// Writes the offsets of the tables into the places that await them, from the `k`-th
/// place on. A place that names no table stays as it is.
pub open spec fn fill_table_instances(
    text: Seq<char>,
    instances: Seq<JumpView>,
    table_offsets: Map<Seq<char>, usize>,
    k: nat,
) -> Result<Seq<char>, CodegenErrorView>
    decreases instances.len() - k,
{
    if k >= instances.len() {
        Ok(text)
    } else {
        let j = instances[k as int];
        if table_offsets.contains_key(j.label) && 2 * j.bytecode_index + 6 <= text.len() {
            if table_offsets[j.label] > max_address() {
                Err(overflow())
            } else {
                fill_table_instances(
                    patch(text, 2 * j.bytecode_index, table_offsets[j.label] as nat),
                    instances,
                    table_offsets,
                    k + 1,
                )
            }
        } else {
            fill_table_instances(text, instances, table_offsets, k + 1)
        }
    }
}

/// The final code for the result of the outermost expansion: the code, the jump
/// tables behind it, and the offsets of the tables written where they are asked for.
pub open spec fn finalize(res: BytecodeResView, tables: Seq<TableDefinitionView>) -> Result<
    Seq<char>,
    CodegenErrorView,
> {
    if res.unmatched_jumps.len() > 0 {
        Err(unmatched())
    } else {
        let code = concat(res.bytes);
        match lay_out_tables(
            tables,
            res.label_indices,
            Layout {
                text: code,
                table_offsets: Map::empty(),
                next_offset: (code.len() / 2) as usize,
            },
            0,
        ) {
            Ok(layout) => fill_table_instances(
                layout.text,
                res.table_instances,
                layout.table_offsets,
                0,
            ),
            Err(e) => Err(e),
        }
    }
}

/// The expansion of the macro called `name` as the outermost macro.
pub open spec fn expand_entry(c: ContractView, name: Seq<char>) -> Result<
    Expansion,
    CodegenErrorView,
> {
    match c.find_macro(name) {
        Some(m) => expand_traced(c, m, seq![m], Seq::empty(), 0, MAX_EXPANSION_DEPTH as nat),
        None => Err(missing_macro(name)),
    }
}

/// The code of the entry macro called `name`: the macro expanded as the outermost
/// macro, the jump tables behind it, and every address written in. Fails where a
/// jump is left open.
pub open spec fn entry_bytecode(c: ContractView, name: Seq<char>) -> Result<
    Seq<char>,
    CodegenErrorView,
> {
    match expand_entry(c, name) {
        Ok(x) => finalize(x.res, c.tables),
        Err(e) => Err(e),
    }
}

/// The runtime code of a contract: the code of its entry macro `MAIN`.
pub open spec fn main_bytecode(c: ContractView) -> Result<Seq<char>, CodegenErrorView> {
    entry_bytecode(c, "MAIN"@)
}

/// The constructor code of a contract: the code of its entry macro `CONSTRUCTOR`.
pub open spec fn constructor_bytecode(c: ContractView) -> Result<Seq<char>, CodegenErrorView> {
    entry_bytecode(c, "CONSTRUCTOR"@)
}

} // verus!
