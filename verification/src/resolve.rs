//! Placing code, and resolving the arguments that a macro body refers to.

use crate::ast::{Bytes, ConstVal, Contract, MacroArg, MacroDefinition, MacroInvocation};
use crate::bytecode::{jump_table_view, jumps_view, pieces_view, Jump, JumpTable, JumpView};
use crate::error::{CodegenError, CodegenErrorKind};
use crate::hex::{
    ascii_len, byte_to_hex, bytes32_to_string, is_code_text, lemma_code_text_is_ascii,
    lemma_hex_byte, lemma_hex_is_code_text, lemma_literal_hex, lemma_push_bytes, literal_hex,
    placeholder, push_bytes, push_for,
};
use crate::model::{
    apply_resolution, overflow, place_jump, resolution, CodeBuffer, Invocations, Resolution, Scope,
};
use crate::opcodes::opcode_from_str;
use vstd::prelude::*;
use vstd::string::*;

verus! {

/// The views of the macros that are being expanded.
pub open spec fn scope_view(scope: Seq<&MacroDefinition>) -> Scope {
    scope.map_values(|m: &MacroDefinition| m@)
}

/// The views of the invocations that are being expanded.
pub open spec fn invocations_view(mis: Seq<(usize, &MacroInvocation)>) -> Invocations {
    mis.map_values(|p: (usize, &MacroInvocation)| (p.0, p.1@))
}

/// The buffer that the three parts of an expansion's state stand for.
pub open spec fn buffer_view(
    bytes: Seq<(usize, Bytes)>,
    offset: usize,
    jump_table: Map<usize, Vec<Jump>>,
) -> CodeBuffer {
    CodeBuffer { bytes: pieces_view(bytes), offset, jump_table: jump_table_view(jump_table) }
}

/// The view of a jump table with an entry put in is the view with the view of the
/// entry put in.
pub proof fn lemma_jump_table_insert(table: Map<usize, Vec<Jump>>, key: usize, jumps: Vec<Jump>)
    ensures
        jump_table_view(table.insert(key, jumps)) == jump_table_view(table).insert(
            key,
            jumps_view(jumps@),
        ),
{
    assert(jump_table_view(table.insert(key, jumps)) =~= jump_table_view(table).insert(
        key,
        jumps_view(jumps@),
    ));
}

/// The text of a push whose address is not known yet.
pub fn placeholder_text() -> (r: String)
    ensures
        r@ == placeholder(),
{
    let r = String::from_str("61xxxx");
    proof {
        reveal_strlit("61xxxx");
        assert(r@ =~= placeholder());
    }
    r
}

/// A placeholder is a code text of six characters.
pub proof fn lemma_placeholder_is_code_text()
    ensures
        is_code_text(placeholder()),
        placeholder().len() == 6,
{
}

/// Places `text` at `*offset` and moves the offset past it. Fails, and changes
/// nothing, where the new offset does not fit.
pub fn place_text(bytes: &mut Vec<(usize, Bytes)>, offset: &mut usize, text: String) -> (r: Result<
    (),
    CodegenError,
>)
    requires
        is_code_text(text@),
    ensures
        old(offset) + text@.len() / 2 <= usize::MAX ==> {
            &&& r is Ok
            &&& pieces_view(final(bytes)@) == pieces_view(old(bytes)@).push((*old(offset), text@))
            &&& *final(offset) == *old(offset) + text@.len() / 2
        },
        old(offset) + text@.len() / 2 > usize::MAX ==> {
            &&& r is Err
            &&& r->Err_0@ == overflow()
            &&& final(bytes)@ == old(bytes)@
            &&& *final(offset) == *old(offset)
        },
{
    proof {
        lemma_code_text_is_ascii(text@);
    }
    let n = ascii_len(text.as_str()) / 2;
    if n > usize::MAX - *offset {
        return Err(CodegenError::without_span(CodegenErrorKind::OffsetOverflow));
    }
    let ghost before = pieces_view(bytes@);
    bytes.push((*offset, Bytes(text)));
    proof {
        assert(pieces_view(bytes@) =~= before.push((*offset, text@)));
    }
    *offset = *offset + n;
    Ok(())
}

/// Places a push of an address that is not known yet, and records under `key` that
/// it awaits the offset of `label`. Fails, and changes nothing, where the new offset
/// does not fit.
pub fn place_placeholder(
    bytes: &mut Vec<(usize, Bytes)>,
    offset: &mut usize,
    jump_table: &mut JumpTable,
    label: String,
    key: usize,
) -> (r: Result<(), CodegenError>)
    ensures
        match place_jump(buffer_view(old(bytes)@, *old(offset), old(jump_table)@), label@, key) {
            Ok(buf) => {
                &&& r is Ok
                &&& buffer_view(final(bytes)@, *final(offset), final(jump_table)@) == buf
            },
            Err(e) => {
                &&& r is Err
                &&& r->Err_0@ == e
                &&& final(bytes)@ == old(bytes)@
                &&& *final(offset) == *old(offset)
                &&& final(jump_table)@ == old(jump_table)@
            },
        },
{
    broadcast use vstd::std_specs::btree::group_btree_axioms;

    proof {
        lemma_placeholder_is_code_text();
    }
    match place_text(bytes, offset, placeholder_text()) {
        Ok(()) => {
            let mut jumps: Vec<Jump> = Vec::new();
            jumps.push(Jump { label, bytecode_index: 0 });
            proof {
                lemma_jump_table_insert(jump_table@, key, jumps);
                assert(jumps_view(jumps@) =~= seq![JumpView { label: label@, bytecode_index: 0 }]);
            }
            jump_table.insert(key, jumps);
            Ok(())
        },
        Err(e) => Err(e),
    }
}

/// What a name stands for.
pub enum Resolved {
    /// Code that is known.
    Text(String),
    /// A jump to the label that was handed in as an argument.
    Jump(String),
    /// Nothing.
    Nothing,
    /// A name that is taken for a label, with the offset under which its jump is
    /// recorded.
    Fallback(String, usize),
}

impl View for Resolved {
    type V = Resolution;

    open spec fn view(&self) -> Resolution {
        match self {
            Resolved::Text(t) => Resolution::Text(t@),
            Resolved::Jump(l) => Resolution::Jump(l@),
            Resolved::Nothing => Resolution::Nothing,
            Resolved::Fallback(l, k) => Resolution::Fallback(l@, *k),
        }
    }
}

/// Whether the code that a name stands for may be placed.
pub open spec fn placeable(r: Resolution) -> bool {
    match r {
        Resolution::Text(t) => is_code_text(t),
        _ => true,
    }
}

/// The push of a 32-byte literal.
pub fn literal_push(l: &[u8; 32]) -> (r: String)
    ensures
        r@ == push_bytes(literal_hex(l@)),
        is_code_text(r@),
        r@.len() % 2 == 0,
{
    let h = bytes32_to_string(l);
    proof {
        lemma_literal_hex(l@);
        lemma_push_bytes(h@);
        lemma_hex_is_code_text(push_bytes(h@));
    }
    push_for(h.as_str())
}

/// What the name `arg_name` stands for inside `macro_def`, where the first
/// `scope_len` macros of `scope` and the first `mis_len` invocations of `mis` are
/// being expanded.
pub fn resolve<'a>(
    arg_name: &str,
    macro_def: &MacroDefinition,
    contract: &Contract,
    scope: &Vec<&'a MacroDefinition>,
    scope_len: usize,
    mis: &Vec<(usize, &'a MacroInvocation)>,
    mis_len: usize,
) -> (r: Result<Resolved, CodegenError>)
    requires
        scope_len <= scope.len(),
        mis_len <= mis.len(),
    ensures
        match resolution(
            contract@,
            arg_name@,
            macro_def@,
            scope_view(scope@.take(scope_len as int)),
            invocations_view(mis@.take(mis_len as int)),
        ) {
            Resolution::Failed(e) => r is Err && r->Err_0@ == e,
            found => r is Ok && r->Ok_0@ == found && placeable(found),
        },
    decreases scope_len,
{
    let ghost scope_v = scope_view(scope@.take(scope_len as int));
    let ghost mis_v = invocations_view(mis@.take(mis_len as int));
    if let Some(constant) = contract.find_constant_by_name(arg_name) {
        return match &constant.value {
            ConstVal::Literal(l) => Ok(Resolved::Text(literal_push(l))),
            ConstVal::FreeStoragePointer => Err(
                CodegenError::without_span(CodegenErrorKind::StoragePointersNotDerived),
            ),
        };
    }
    if let Some(op) = opcode_from_str(arg_name) {
        proof {
            lemma_hex_byte(op);
            lemma_hex_is_code_text(crate::hex::hex_byte(op));
        }
        return Ok(Resolved::Text(byte_to_hex(op)));
    }
    if mis_len > 0 {
        if let Some(pos) = macro_def.parameter_position(arg_name) {
            let invocation: &MacroInvocation = mis[mis_len - 1].1;
            proof {
                assert(mis_v.last() == (mis@[mis_len - 1].0, mis@[mis_len - 1].1@));
                assert(invocation@.args.len() == invocation.args@.len());
            }
            if pos < invocation.args.len() {
                proof {
                    assert(invocation@.args[pos as int] == invocation.args@[pos as int]@);
                }
                return match &invocation.args[pos] {
                    MacroArg::Literal(l) => Ok(Resolved::Text(literal_push(l))),
                    MacroArg::Ident(label) => Ok(Resolved::Jump(label.clone())),
                    MacroArg::ArgCall(outer) => {
                        if scope_len < 2 {
                            Err(
                                CodegenError::without_span(
                                    CodegenErrorKind::MissingMacroInvocation(
                                        macro_def.name.clone(),
                                    ),
                                ),
                            )
                        } else {
                            let parent: &MacroDefinition = scope[scope_len - 2];
                            let outer_mis_len = if str_eq_string(
                                &invocation.macro_name,
                                &macro_def.name,
                            ) {
                                mis_len - 1
                            } else {
                                mis_len
                            };
                            proof {
                                assert(scope@.take(scope_len as int - 1) =~= scope@.take(
                                    scope_len as int,
                                ).drop_last());
                                assert(scope_v.drop_last() =~= scope_view(
                                    scope@.take(scope_len as int - 1),
                                ));
                                assert(scope_v.drop_last().last() == parent@);
                                assert(mis@.take(mis_len as int - 1) =~= mis@.take(
                                    mis_len as int,
                                ).drop_last());
                                assert(mis_v.drop_last() =~= invocations_view(
                                    mis@.take(mis_len as int - 1),
                                ));
                            }
                            resolve(
                                outer.as_str(),
                                parent,
                                contract,
                                scope,
                                scope_len - 1,
                                mis,
                                outer_mis_len,
                            )
                        }
                    },
                };
            } else {
                return Ok(Resolved::Nothing);
            }
        }
    }
    let key = if mis_len > 0 {
        proof {
            assert(mis_v.last() == (mis@[mis_len - 1].0, mis@[mis_len - 1].1@));
        }
        mis[mis_len - 1].0
    } else {
        0
    };
    Ok(Resolved::Fallback(String::from_str(arg_name), key))
}

/// Whether two strings hold the same characters.
pub fn str_eq_string(a: &String, b: &String) -> (r: bool)
    ensures
        r == (a@ == b@),
{
    crate::hex::str_eq(a.as_str(), b.as_str())
}

/// Places the code that a name stands for.
pub fn place_resolved(
    found: Resolved,
    bytes: &mut Vec<(usize, Bytes)>,
    offset: &mut usize,
    jump_table: &mut JumpTable,
) -> (r: Result<(), CodegenError>)
    requires
        placeable(found@),
    ensures
        match apply_resolution(
            found@,
            buffer_view(old(bytes)@, *old(offset), old(jump_table)@),
        ) {
            Ok(buf) => {
                &&& r is Ok
                &&& buffer_view(final(bytes)@, *final(offset), final(jump_table)@) == buf
            },
            Err(e) => {
                &&& r is Err
                &&& r->Err_0@ == e
                &&& final(bytes)@ == old(bytes)@
                &&& *final(offset) == *old(offset)
                &&& final(jump_table)@ == old(jump_table)@
            },
        },
{
    match found {
        Resolved::Text(text) => place_text(bytes, offset, text),
        Resolved::Jump(label) => {
            let key = *offset;
            place_placeholder(bytes, offset, jump_table, label, key)
        },
        Resolved::Nothing => Ok(()),
        Resolved::Fallback(label, key) => place_placeholder(bytes, offset, jump_table, label, key),
    }
}

} // verus!
