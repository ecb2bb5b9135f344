//! The code generator: from a parsed contract to its bytecode and its artifact.

use crate::abi::{abi_encode, abi_encoding, hex_encode};
use crate::abi_value::{encodable, AbiValue};
use crate::artifact::{
    bootstrap, bootstrap_len, churned, duplicate_optional, hex_concat, optional_artifact, Artifact,
    ArtifactView, FileSource,
};
use crate::ast::{Bytes, Contract, MacroDefinition, MacroInvocation};
use crate::bytecode::{BytecodeRes, BytecodeResView, JumpTable};
use crate::error::{CodegenError, CodegenErrorKind, CodegenErrorView};
use crate::expand::{address_text, expand_macro};
use crate::hex::{
    ascii_len, ascii_lowercase, is_code_text, is_lower_hex, lemma_address_hex,
    lemma_code_text_concat, lemma_code_text_is_ascii, lemma_hex_bytes, lemma_hex_is_code_text,
};
use crate::bytecode::all_code_text;
use crate::invariants::{instances_placed, labels_marked, lemma_labels_marked, open_at_pieces};
use crate::layout::{lemma_laid_out_total, result_laid_out};
use crate::model::{
    Expansion, constructor_bytecode, entry_bytecode, expand, expand_entry, finalize, main_bytecode,
    missing_macro, resolve_arg, without_innermost, MAX_EXPANSION_DEPTH,
};
use crate::resolve::{buffer_view, invocations_view, place_resolved, resolve, scope_view};
use crate::tables::{lay_out, text_result_view};
use vstd::prelude::*;
use vstd::string::*;

verus! {

/// The view of a result that is the result of an expansion or an error.
pub open spec fn bytecode_result_view(r: Result<BytecodeRes, CodegenError>) -> Result<
    BytecodeResView,
    CodegenErrorView,
> {
    match r {
        Ok(res) => Ok(res@),
        Err(e) => Err(e@),
    }
}

/// The view of a result that is an artifact or an error.
pub open spec fn artifact_result_view(r: Result<Artifact, CodegenError>) -> Result<
    ArtifactView,
    CodegenErrorView,
> {
    match r {
        Ok(a) => Ok(a@),
        Err(e) => Err(e@),
    }
}

/// The views of encoded arguments.
pub open spec fn encoded_view(args: Seq<Vec<u8>>) -> Seq<Seq<u8>> {
    args.map_values(|a: Vec<u8>| a@)
}

/// The ABI encodings of constructor arguments, one for each argument.
pub open spec fn encodings(args: Seq<AbiValue>) -> Seq<Seq<u8>> {
    Seq::new(args.len(), |i: int| abi_encoding(args[i]@))
}

/// The code generator. It keeps the contract, the code that was generated for it and
/// the artifact that was made last.
#[derive(Debug, Clone, PartialEq, Eq)]
pub struct Codegen {
    /// The contract.
    pub ast: Option<Contract>,
    /// The artifact that was made last.
    pub artifact: Option<Artifact>,
    /// The runtime code.
    pub main_bytecode: Option<String>,
    /// The constructor code.
    pub constructor_bytecode: Option<String>,
}

/// Whether `after` is the generator `before` with the artifact that `churn` makes
/// from the arguments `args`, and `r` the result that goes with it: on success a copy
/// of that artifact, on failure the error, with the generator as it was.
pub open spec fn churn_done(
    before: Codegen,
    after: Codegen,
    r: Result<Artifact, CodegenError>,
    file: FileSource,
    args: Seq<Seq<u8>>,
    main: Seq<char>,
    constructor: Seq<char>,
) -> bool {
    &&& after.ast == before.ast
    &&& after.main_bytecode == before.main_bytecode
    &&& after.constructor_bytecode == before.constructor_bytecode
    &&& artifact_result_view(r) == churned(
        optional_artifact(before.artifact),
        file@,
        main,
        constructor,
        hex_concat(args),
    )
    &&& match r {
        Ok(a) => optional_artifact(after.artifact) == Some(a@),
        Err(_) => after.artifact == before.artifact,
    }
}

impl Default for Codegen {
    /// A generator that holds nothing yet.
    fn default() -> (r: Codegen)
        ensures
            r.ast is None,
            r.artifact is None,
            r.main_bytecode is None,
            r.constructor_bytecode is None,
    {
        Codegen::new()
    }
}

impl Codegen {
    /// A generator that holds nothing yet.
    pub fn new() -> (r: Codegen)
        ensures
            r.ast is None,
            r.artifact is None,
            r.main_bytecode is None,
            r.constructor_bytecode is None,
    {
        Codegen { ast: None, artifact: None, main_bytecode: None, constructor_bytecode: None }
    }

    /// The first macro of the contract that is called `name`, or the error
    /// `MissingMacroDefinition` with that name.
    pub fn get_macro_by_name<'a>(name: &str, contract: &'a Contract) -> (r: Result<
        &'a MacroDefinition,
        CodegenError,
    >)
        ensures
            match contract@.find_macro(name@) {
                Some(m) => r is Ok && r->Ok_0@ == m,
                None => r is Err && r->Err_0@ == missing_macro(name@),
            },
            contract@.well_formed() && r is Ok ==> r->Ok_0@.well_formed(),
    {
        match contract.find_macro_by_name(name) {
            Some(m) => Ok(m),
            None => Err(
                CodegenError::at_nowhere(
                    CodegenErrorKind::MissingMacroDefinition(String::from_str(name)),
                ),
            ),
        }
    }

    /// Expands the macro called `name` as the outermost macro of the contract.
    fn expand_entry_macro(name: &str, contract: &Contract) -> (r: Result<BytecodeRes, CodegenError>)
        requires
            contract@.well_formed(),
        ensures
            match expand_entry(contract@, name@) {
                Ok(x) => r is Ok && r->Ok_0@ == x.res && result_laid_out(x.res.bytes, 0),
                Err(e) => r is Err && r->Err_0@ == e,
            },
    {
        let entry = match Codegen::get_macro_by_name(name, contract) {
            Ok(m) => m,
            Err(e) => {
                return Err(e);
            },
        };
        let mut scope: Vec<&MacroDefinition> = Vec::new();
        scope.push(entry);
        let mut mis: Vec<(usize, &MacroInvocation)> = Vec::new();
        proof {
            assert(scope_view(scope@) =~= seq![entry@]);
            assert(invocations_view(mis@) =~= Seq::empty());
        }
        match expand_macro(entry, contract, &mut scope, 0, &mut mis, MAX_EXPANSION_DEPTH) {
            Ok((res, _)) => Ok(res),
            Err(e) => Err(e),
        }
    }

    /// The code of the entry macro called `name`: the macro expanded, with the jump
    /// tables behind it and every address written in.
    fn generate_entry_bytecode(name: &str, contract: &Contract) -> (r: Result<String, CodegenError>)
        requires
            contract@.well_formed(),
        ensures
            text_result_view(r) == entry_bytecode(contract@, name@),
            r is Ok ==> is_code_text(r->Ok_0@) && r->Ok_0@.len() % 2 == 0,
    {
        match Codegen::expand_entry_macro(name, contract) {
            Ok(res) => {
                proof {
                    lemma_laid_out_total(res@.bytes, 0, 0int + crate::model::code_len(res@.bytes));
                    crate::laws::lemma_finalize_even(res@, contract@.tables);
                }
                Codegen::gen_table_bytecode(res, contract)
            },
            Err(e) => Err(e),
        }
    }

    /// The runtime code of the contract: its `MAIN` macro, expanded, with the jump
    /// tables behind it and every address written in. Fails with
    /// `UnmatchedJumpLabel` where a jump is left open.
    ///
    /// The code in the contract's macros has to be hexadecimal text of even length.
    pub fn generate_main_bytecode(contract: &Contract) -> (r: Result<String, CodegenError>)
        requires
            contract@.well_formed(),
        ensures
            text_result_view(r) == main_bytecode(contract@),
            r is Ok ==> is_code_text(r->Ok_0@) && r->Ok_0@.len() % 2 == 0,
    {
        Codegen::generate_entry_bytecode("MAIN", contract)
    }

    /// The constructor code of the contract: its `CONSTRUCTOR` macro, expanded, with
    /// the jump tables behind it and every address written in. Fails with
    /// `UnmatchedJumpLabel` where a jump is left open.
    ///
    /// The code in the contract's macros has to be hexadecimal text of even length.
    pub fn generate_constructor_bytecode(contract: &Contract) -> (r: Result<String, CodegenError>)
        requires
            contract@.well_formed(),
        ensures
            text_result_view(r) == constructor_bytecode(contract@),
            r is Ok ==> is_code_text(r->Ok_0@) && r->Ok_0@.len() % 2 == 0,
    {
        Codegen::generate_entry_bytecode("CONSTRUCTOR", contract)
    }

    /// Puts the jump tables of the contract behind the code of `res` and writes the
    /// offsets of the tables where the code asks for them.
    ///
    /// Fails with `UnmatchedJumpLabel` where `res` holds a jump that is left open or a
    /// table refers to a label that `res` does not know, and with `OffsetOverflow`
    /// where an offset does not fit the place it has to be written to. The final code
    /// has an even length where the pieces of `res` are laid out from offset 0.
    pub fn gen_table_bytecode(res: BytecodeRes, contract: &Contract) -> (r: Result<
        String,
        CodegenError,
    >)
        requires
            all_code_text(res@.bytes),
        ensures
            text_result_view(r) == finalize(res@, contract@.tables),
            r is Ok ==> is_code_text(r->Ok_0@),
            r is Ok && result_laid_out(res@.bytes, 0) ==> r->Ok_0@.len() % 2 == 0,
    {
        proof {
            if result_laid_out(res@.bytes, 0) {
                crate::laws::lemma_finalize_even(res@, contract@.tables);
            }
        }
        lay_out(res, contract)
    }

    /// Expands `macro_def` at `offset`.
    ///
    /// `scope` holds the macros that are being expanded, the outermost first and
    /// `macro_def` last; `mis` holds their invocations with the offsets at which they
    /// stand. On success the innermost invocation is taken off `mis`; on failure `mis`
    /// is as it was. Macros may be nested `MAX_EXPANSION_DEPTH` deep.
    ///
    /// The pieces of the result stand one behind the other from `offset` on; each
    /// label of the result has its `JUMPDEST` at its offset, each place that awaits the
    /// offset of a table is a piece of three bytes that starts with `PUSH2`, and each
    /// open jump carries the offset of a piece.
    pub fn macro_to_bytecode<'a>(
        macro_def: &'a MacroDefinition,
        contract: &'a Contract,
        scope: &mut Vec<&'a MacroDefinition>,
        offset: usize,
        mis: &mut Vec<(usize, &'a MacroInvocation)>,
    ) -> (r: Result<BytecodeRes, CodegenError>)
        requires
            contract@.well_formed(),
            macro_def@.well_formed(),
        ensures
            bytecode_result_view(r) == expand(
                contract@,
                macro_def@,
                scope_view(old(scope)@),
                invocations_view(old(mis)@),
                offset,
                MAX_EXPANSION_DEPTH as nat,
            ),
            final(scope)@ == old(scope)@,
            r is Ok ==> final(mis)@ == without_innermost(old(mis)@),
            r is Ok ==> result_laid_out(r->Ok_0@.bytes, offset),
            r is Ok ==> labels_marked(r->Ok_0@.bytes, r->Ok_0@.label_indices),
            r is Ok ==> instances_placed(r->Ok_0@.bytes, r->Ok_0@.table_instances),
            r is Ok ==> open_at_pieces(r->Ok_0@.bytes, r->Ok_0@.unmatched_jumps),
            r is Err ==> final(mis)@ == old(mis)@,
    {
        Codegen::macro_to_bytecode_within(
            macro_def,
            contract,
            scope,
            offset,
            mis,
            MAX_EXPANSION_DEPTH,
        )
    }

    /// Expands `macro_def` at `offset` as `macro_to_bytecode` does, with macros nested
    /// up to `depth` deep.
    pub fn macro_to_bytecode_within<'a>(
        macro_def: &'a MacroDefinition,
        contract: &'a Contract,
        scope: &mut Vec<&'a MacroDefinition>,
        offset: usize,
        mis: &mut Vec<(usize, &'a MacroInvocation)>,
        depth: usize,
    ) -> (r: Result<BytecodeRes, CodegenError>)
        requires
            contract@.well_formed(),
            macro_def@.well_formed(),
        ensures
            bytecode_result_view(r) == expand(
                contract@,
                macro_def@,
                scope_view(old(scope)@),
                invocations_view(old(mis)@),
                offset,
                depth as nat,
            ),
            final(scope)@ == old(scope)@,
            r is Ok ==> final(mis)@ == without_innermost(old(mis)@),
            r is Ok ==> result_laid_out(r->Ok_0@.bytes, offset),
            r is Ok ==> labels_marked(r->Ok_0@.bytes, r->Ok_0@.label_indices),
            r is Ok ==> instances_placed(r->Ok_0@.bytes, r->Ok_0@.table_instances),
            r is Ok ==> open_at_pieces(r->Ok_0@.bytes, r->Ok_0@.unmatched_jumps),
            r is Err ==> final(mis)@ == old(mis)@,
    {
        match expand_macro(macro_def, contract, scope, offset, mis, depth) {
            Ok((res, trace)) => {
                proof {
                    lemma_labels_marked(Expansion { res: res@, trace: trace@ }, offset);
                }
                Ok(res)
            },
            Err(e) => Err(e),
        }
    }

    /// Resolves the name `arg_name`, referred to inside `macro_def`, and places its
    /// code in `bytes` at `*offset`.
    ///
    /// A constant of that name is pushed; the mnemonic of an opcode stands for that
    /// opcode; where `macro_def` is being invoked and has a parameter of that name,
    /// the argument at its position is taken; anything else is taken for a label. On
    /// failure nothing is changed.
    pub fn bubble_arg_call<'a>(
        arg_name: &str,
        bytes: &mut Vec<(usize, Bytes)>,
        macro_def: &MacroDefinition,
        contract: &Contract,
        scope: &mut Vec<&'a MacroDefinition>,
        offset: &mut usize,
        mis: &mut Vec<(usize, &'a MacroInvocation)>,
        jump_table: &mut JumpTable,
    ) -> (r: Result<(), CodegenError>)
        ensures
            match resolve_arg(
                contract@,
                arg_name@,
                macro_def@,
                scope_view(old(scope)@),
                invocations_view(old(mis)@),
                buffer_view(old(bytes)@, *old(offset), old(jump_table)@),
            ) {
                Ok(buf) => {
                    &&& r is Ok
                    &&& buffer_view(final(bytes)@, *final(offset), final(jump_table)@) == buf
                },
                Err(e) => {
                    &&& r is Err
                    &&& r->Err_0@ == e
                    &&& final(bytes)@ == old(bytes)@
                    &&& *final(offset) == *old(offset)
                    &&& final(jump_table)@ == old(jump_table)@
                },
            },
            final(scope)@ == old(scope)@,
            final(mis)@ == old(mis)@,
    {
        proof {
            assert(scope@.take(scope.len() as int) =~= scope@);
            assert(mis@.take(mis.len() as int) =~= mis@);
        }
        match resolve(arg_name, macro_def, contract, scope, scope.len(), mis, mis.len()) {
            Ok(found) => place_resolved(found, bytes, offset, jump_table),
            Err(e) => Err(e),
        }
    }

    /// Keeps the ABI of the contract, as JSON text, in the artifact, and gives it
    /// back. Where no artifact was made yet, one that holds nothing else is made.
    pub fn abi_gen(&mut self, abi: String) -> (r: String)
        ensures
            r@ == abi@,
            final(self).ast == old(self).ast,
            final(self).main_bytecode == old(self).main_bytecode,
            final(self).constructor_bytecode == old(self).constructor_bytecode,
            optional_artifact(final(self).artifact) == Some(
                match optional_artifact(old(self).artifact) {
                    Some(a) => ArtifactView {
                        file: a.file,
                        bytecode: a.bytecode,
                        runtime: a.runtime,
                        abi: Some(abi@),
                    },
                    None => ArtifactView {
                        file: crate::artifact::no_file(),
                        bytecode: Seq::empty(),
                        runtime: Seq::empty(),
                        abi: Some(abi@),
                    },
                },
            ),
    {
        let copy = abi.clone();
        let artifact = match &self.artifact {
            Some(a) => Artifact {
                file: a.file.duplicate(),
                bytecode: a.bytecode.clone(),
                runtime: a.runtime.clone(),
                abi: Some(abi),
            },
            None => {
                let empty = Artifact::empty();
                Artifact {
                    file: empty.file,
                    bytecode: empty.bytecode,
                    runtime: empty.runtime,
                    abi: Some(abi),
                }
            },
        };
        self.artifact = Some(artifact);
        copy
    }

    /// The text of the encoded arguments, one after the other.
    pub fn encode_args_hex(encoded_args: &Vec<Vec<u8>>) -> (r: String)
        ensures
            r@ == hex_concat(encoded_view(encoded_args@)),
            is_lower_hex(r@),
    {
        let ghost all = encoded_view(encoded_args@);
        let mut r = String::new();
        let mut i: usize = 0;
        while i < encoded_args.len()
            invariant
                i <= encoded_args.len(),
                all == encoded_view(encoded_args@),
                r@ == hex_concat(all.take(i as int)),
                is_lower_hex(r@),
            decreases encoded_args.len() - i,
        {
            let h = hex_encode(&encoded_args[i]);
            proof {
                assert(all.take(i as int + 1).drop_last() =~= all.take(i as int));
                assert(all.take(i as int + 1).last() == encoded_args[i as int]@);
                lemma_hex_bytes(encoded_args[i as int]@);
                lemma_code_text_concat(r@, h@);
            }
            r.append(h.as_str());
            i += 1;
        }
        proof {
            assert(all.take(encoded_args.len() as int) =~= all);
        }
        r
    }

    /// Makes the artifact of a contract from its runtime code, its constructor code
    /// and its constructor arguments in ABI encoding, and keeps it.
    ///
    /// The code to deploy is the constructor code, the bootstrap code that returns the
    /// runtime code, the runtime code and the arguments, all in lower case. Fails with
    /// `OffsetOverflow`, and keeps the generator as it was, where the size of the
    /// runtime code or its offset in the code to deploy does not fit two bytes.
    pub fn churn_encoded(
        &mut self,
        file: FileSource,
        encoded_args: &Vec<Vec<u8>>,
        main_bytecode: &str,
        constructor_bytecode: &str,
    ) -> (r: Result<Artifact, CodegenError>)
        requires
            is_code_text(main_bytecode@),
            is_code_text(constructor_bytecode@),
        ensures
            churn_done(
                *old(self),
                *final(self),
                r,
                file,
                encoded_view(encoded_args@),
                main_bytecode@,
                constructor_bytecode@,
            ),
    {
        proof {
            lemma_code_text_is_ascii(main_bytecode@);
            lemma_code_text_is_ascii(constructor_bytecode@);
        }
        let contract_length = ascii_len(main_bytecode) / 2;
        let constructor_length = ascii_len(constructor_bytecode) / 2;
        if contract_length > 0xffff || constructor_length > 0xffff - 13 {
            return Err(CodegenError::without_span(CodegenErrorKind::OffsetOverflow));
        }
        let contract_size = address_text(contract_length);
        let contract_code_offset = address_text(13 + constructor_length);
        let constructor_args = Codegen::encode_args_hex(encoded_args);
        let mut code = String::from_str(constructor_bytecode);
        proof {
            reveal_strlit("61");
            reveal_strlit("8061");
            reveal_strlit("6000396000f3");
        }
        let mut boot = String::from_str("61");
        boot.append(contract_size.as_str());
        boot.append("8061");
        boot.append(contract_code_offset.as_str());
        boot.append("6000396000f3");
        proof {
            assert(boot@ =~= bootstrap(
                contract_length as nat,
                bootstrap_len() + constructor_length as nat,
            ));
            lemma_address_hex(contract_length as nat);
            lemma_address_hex((13 + constructor_length) as nat);
            assert(is_code_text(boot@)) by {
                assert forall|i: int| 0 <= i < boot@.len() implies (crate::hex::is_hex_char(
                    #[trigger] boot@[i],
                ) || boot@[i] == 'x') by {
                    if 2 <= i < 6 {
                        assert(boot@[i] == contract_size@[i - 2]);
                        assert(crate::hex::is_lower_hex_char(contract_size@[i - 2]));
                    } else if 10 <= i < 14 {
                        assert(boot@[i] == contract_code_offset@[i - 10]);
                        assert(crate::hex::is_lower_hex_char(contract_code_offset@[i - 10]));
                    }
                }
            }
            lemma_code_text_concat(code@, boot@);
            lemma_code_text_concat(code@ + boot@, main_bytecode@);
            lemma_hex_is_code_text(constructor_args@);
            lemma_code_text_concat(code@ + boot@ + main_bytecode@, constructor_args@);
        }
        code.append(boot.as_str());
        code.append(main_bytecode);
        code.append(constructor_args.as_str());
        proof {
            lemma_code_text_is_ascii(code@);
        }
        let bytecode = ascii_lowercase(code.as_str());
        let runtime = ascii_lowercase(main_bytecode);
        let abi = match &self.artifact {
            Some(a) => duplicate_optional(&a.abi),
            None => None,
        };
        let artifact = Artifact { file, bytecode, runtime, abi };
        let copy = artifact.duplicate();
        self.artifact = Some(artifact);
        Ok(copy)
    }

    /// Makes the artifact of a contract from its runtime code, its constructor code
    /// and its constructor arguments, and keeps it.
    ///
    /// Each argument is encoded by the ABI encoder; the rest is done as by
    /// `churn_encoded` on the encoded arguments. Each argument has to be small enough
    /// for the encoder; `AbiValue::is_encodable` tells.
    pub fn churn(
        &mut self,
        file: FileSource,
        args: Vec<AbiValue>,
        main_bytecode: &str,
        constructor_bytecode: &str,
    ) -> (r: Result<Artifact, CodegenError>)
        requires
            is_code_text(main_bytecode@),
            is_code_text(constructor_bytecode@),
            forall|i: int| 0 <= i < args@.len() ==> encodable((#[trigger] args@[i])@),
        ensures
            churn_done(
                *old(self),
                *final(self),
                r,
                file,
                encodings(args@),
                main_bytecode@,
                constructor_bytecode@,
            ),
    {
        let mut encoded: Vec<Vec<u8>> = Vec::new();
        let mut i: usize = 0;
        while i < args.len()
            invariant
                i <= args.len(),
                forall|k: int| 0 <= k < args@.len() ==> encodable((#[trigger] args@[k])@),
                encoded_view(encoded@) == encodings(args@.take(i as int)),
            decreases args.len() - i,
        {
            let ghost before = encoded_view(encoded@);
            encoded.push(abi_encode(&args[i]));
            proof {
                assert(encoded_view(encoded@) =~= before.push(abi_encoding(args@[i as int]@)));
                assert(encodings(args@.take(i as int + 1)) =~= encodings(
                    args@.take(i as int),
                ).push(abi_encoding(args@[i as int]@)));
            }
            i += 1;
        }
        proof {
            assert(args@.take(args.len() as int) =~= args@);
        }
        self.churn_encoded(file, &encoded, main_bytecode, constructor_bytecode)
    }
}

} // verus!
