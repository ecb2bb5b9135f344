use huff_codegen::ast::{
    Argument, AstSpan, Bytes, ConstVal, ConstantDefinition, Contract, IRByteType, IRBytes, MacroArg,
    MacroDefinition, MacroInvocation, Span, Statement,
};
use huff_codegen::bytecode::{Jump, JumpTable};
use huff_codegen::error::{CodegenError, CodegenErrorKind};
use huff_codegen::Codegen;

fn item(ty: IRByteType) -> IRBytes {
    IRBytes { ty, span: AstSpan(vec![]) }
}

fn raw(hex: &str) -> IRBytes {
    item(IRByteType::Bytes(Bytes(hex.to_string())))
}

fn arg_ref(name: &str) -> IRBytes {
    item(IRByteType::ArgCall(name.to_string()))
}

fn label(name: &str) -> IRBytes {
    item(IRByteType::Statement(Statement::Label(name.to_string())))
}

fn invoke(name: &str, args: Vec<MacroArg>) -> IRBytes {
    item(IRByteType::Statement(Statement::MacroInvocation(MacroInvocation {
        macro_name: name.to_string(),
        args,
    })))
}

fn macro_def(name: &str, params: &[&str], ir_bytes: Vec<IRBytes>) -> MacroDefinition {
    MacroDefinition {
        name: name.to_string(),
        parameters: params.iter().map(|p| Argument { name: Some(p.to_string()) }).collect(),
        ir_bytes,
    }
}

fn number(tail: &[u8]) -> [u8; 32] {
    let mut l = [0u8; 32];
    l[32 - tail.len()..].copy_from_slice(tail);
    l
}

fn constant(name: &str, value: ConstVal) -> ConstantDefinition {
    ConstantDefinition {
        name: name.to_string(),
        value,
        span: AstSpan(vec![Span { start: 7, end: 9, file: None }]),
    }
}

fn contract(macros: Vec<MacroDefinition>, constants: Vec<ConstantDefinition>) -> Contract {
    Contract { macros, constants, tables: vec![] }
}

fn main_code(c: &Contract) -> Result<String, CodegenError> {
    assert!(c.is_well_formed());
    Codegen::generate_main_bytecode(c)
}

#[test]
fn literal_argument_is_pushed() {
    let c = contract(
        vec![
            macro_def("A", &["x"], vec![arg_ref("x")]),
            macro_def("MAIN", &[], vec![invoke("A", vec![MacroArg::Literal(number(&[0x05]))])]),
        ],
        vec![],
    );
    assert_eq!(main_code(&c), Ok("6005".to_string()));
}

#[test]
fn second_parameter_takes_the_second_argument() {
    let c = contract(
        vec![
            macro_def("A", &["x", "y"], vec![arg_ref("y"), arg_ref("x")]),
            macro_def(
                "MAIN",
                &[],
                vec![invoke(
                    "A",
                    vec![
                        MacroArg::Literal(number(&[0x01])),
                        MacroArg::Literal(number(&[0x02, 0x03])),
                    ],
                )],
            ),
        ],
        vec![],
    );
    assert_eq!(main_code(&c), Ok("6102036001".to_string()));
}

#[test]
fn label_argument_becomes_a_jump() {
    let c = contract(
        vec![
            macro_def("A", &["x"], vec![arg_ref("x")]),
            macro_def(
                "MAIN",
                &[],
                vec![invoke("A", vec![MacroArg::Ident("lbl".to_string())]), label("lbl")],
            ),
        ],
        vec![],
    );
    assert_eq!(main_code(&c), Ok("6100035b".to_string()));
}

#[test]
fn opcode_mnemonic_stands_for_its_opcode() {
    let c = contract(vec![macro_def("MAIN", &[], vec![arg_ref("add"), arg_ref("jumpdest")])], vec![]);
    assert_eq!(main_code(&c), Ok("015b".to_string()));
}

#[test]
fn constant_comes_before_opcode_and_argument() {
    let c = contract(
        vec![
            macro_def("A", &["add"], vec![arg_ref("add")]),
            macro_def("MAIN", &[], vec![invoke("A", vec![MacroArg::Literal(number(&[0x09]))])]),
        ],
        vec![constant("add", ConstVal::Literal(number(&[0x42])))],
    );
    assert_eq!(main_code(&c), Ok("6042".to_string()));
}

#[test]
fn opcode_comes_before_argument() {
    let c = contract(
        vec![
            macro_def("A", &["add"], vec![arg_ref("add")]),
            macro_def("MAIN", &[], vec![invoke("A", vec![MacroArg::Literal(number(&[0x09]))])]),
        ],
        vec![],
    );
    assert_eq!(main_code(&c), Ok("01".to_string()));
}

#[test]
fn argument_is_looked_up_one_invocation_further_out() {
    let c = contract(
        vec![
            macro_def("B", &["y"], vec![arg_ref("y")]),
            macro_def("A", &["x"], vec![invoke("B", vec![MacroArg::ArgCall("x".to_string())])]),
            macro_def("MAIN", &[], vec![invoke("A", vec![MacroArg::Literal(number(&[0x07]))])]),
        ],
        vec![],
    );
    assert_eq!(main_code(&c), Ok("6007".to_string()));
}

#[test]
fn argument_is_looked_up_through_two_invocations() {
    let c = contract(
        vec![
            macro_def("C", &["z"], vec![arg_ref("z")]),
            macro_def("B", &["y"], vec![invoke("C", vec![MacroArg::ArgCall("y".to_string())])]),
            macro_def("A", &["x"], vec![invoke("B", vec![MacroArg::ArgCall("x".to_string())])]),
            macro_def(
                "MAIN",
                &[],
                vec![raw("00"), invoke("A", vec![MacroArg::Ident("end".to_string())]), label("end")],
            ),
        ],
        vec![],
    );
    assert_eq!(main_code(&c), Ok("006100045b".to_string()));
}

#[test]
fn missing_argument_places_nothing() {
    let c = contract(
        vec![
            macro_def("A", &["x"], vec![arg_ref("x"), raw("01")]),
            macro_def("MAIN", &[], vec![invoke("A", vec![]), raw("00")]),
        ],
        vec![],
    );
    assert_eq!(main_code(&c), Ok("0100".to_string()));
}

#[test]
fn storage_pointer_as_argument_fails() {
    let c = contract(
        vec![macro_def("MAIN", &[], vec![arg_ref("SLOT")])],
        vec![constant("SLOT", ConstVal::FreeStoragePointer)],
    );
    assert_eq!(
        main_code(&c),
        Err(CodegenError {
            kind: CodegenErrorKind::StoragePointersNotDerived,
            span: AstSpan(vec![]),
            token: None,
        })
    );
}

#[test]
fn unknown_name_is_taken_for_a_label_and_reported() {
    let c = contract(
        vec![
            macro_def("A", &[], vec![raw("6001"), arg_ref("foo")]),
            macro_def("MAIN", &[], vec![raw("6002"), invoke("A", vec![])]),
        ],
        vec![],
    );
    assert_eq!(
        main_code(&c),
        Err(CodegenError {
            kind: CodegenErrorKind::UnmatchedJumpLabel,
            span: AstSpan(vec![]),
            token: None,
        })
    );
}

#[test]
fn unknown_name_is_recorded_under_the_offset_of_the_invocation() {
    let a = macro_def("A", &[], vec![raw("6001"), arg_ref("foo")]);
    let main = macro_def("MAIN", &[], vec![raw("6002"), invoke("A", vec![])]);
    let c = contract(vec![a, main], vec![]);
    let invocation = MacroInvocation { macro_name: "A".to_string(), args: vec![] };
    let mut scope = vec![&c.macros[1], &c.macros[0]];
    let mut mis = vec![(2usize, &invocation)];
    let mut bytes = vec![(2usize, Bytes("6001".to_string()))];
    let mut offset = 4usize;
    let mut jump_table = JumpTable::new();
    let r = Codegen::bubble_arg_call(
        "foo",
        &mut bytes,
        &c.macros[0],
        &c,
        &mut scope,
        &mut offset,
        &mut mis,
        &mut jump_table,
    );
    assert_eq!(r, Ok(()));
    assert_eq!(
        bytes,
        vec![(2, Bytes("6001".to_string())), (4, Bytes("61xxxx".to_string()))]
    );
    assert_eq!(offset, 7);
    assert_eq!(jump_table.len(), 1);
    assert_eq!(jump_table.get(&2), Some(&vec![Jump { label: "foo".to_string(), bytecode_index: 0 }]));
    assert_eq!(mis.len(), 1);
    assert_eq!(scope.len(), 2);
}

#[test]
fn unknown_name_outside_any_invocation_is_recorded_under_zero() {
    let c = contract(vec![macro_def("MAIN", &[], vec![raw("6001"), arg_ref("foo")])], vec![]);
    let mut scope = vec![&c.macros[0]];
    let mut mis = vec![];
    let mut bytes = vec![(0usize, Bytes("6001".to_string()))];
    let mut offset = 2usize;
    let mut jump_table = JumpTable::new();
    let r = Codegen::bubble_arg_call(
        "foo",
        &mut bytes,
        &c.macros[0],
        &c,
        &mut scope,
        &mut offset,
        &mut mis,
        &mut jump_table,
    );
    assert_eq!(r, Ok(()));
    assert_eq!(offset, 5);
    assert_eq!(jump_table.get(&0), Some(&vec![Jump { label: "foo".to_string(), bytecode_index: 0 }]));
    assert_eq!(bytes[1], (2, Bytes("61xxxx".to_string())));
}

#[test]
fn label_argument_is_recorded_under_its_own_offset() {
    let a = macro_def("A", &["x"], vec![arg_ref("x")]);
    let c = contract(vec![a], vec![]);
    let invocation = MacroInvocation {
        macro_name: "A".to_string(),
        args: vec![MacroArg::Ident("there".to_string())],
    };
    let mut scope = vec![&c.macros[0]];
    let mut mis = vec![(9usize, &invocation)];
    let mut bytes = vec![];
    let mut offset = 11usize;
    let mut jump_table = JumpTable::new();
    let r = Codegen::bubble_arg_call(
        "x",
        &mut bytes,
        &c.macros[0],
        &c,
        &mut scope,
        &mut offset,
        &mut mis,
        &mut jump_table,
    );
    assert_eq!(r, Ok(()));
    assert_eq!(bytes, vec![(11, Bytes("61xxxx".to_string()))]);
    assert_eq!(offset, 14);
    assert_eq!(
        jump_table.get(&11),
        Some(&vec![Jump { label: "there".to_string(), bytecode_index: 0 }])
    );
}

#[test]
fn lookup_beyond_the_outermost_macro_fails() {
    let a = macro_def("A", &["x"], vec![arg_ref("x")]);
    let c = contract(vec![a], vec![]);
    let invocation = MacroInvocation {
        macro_name: "A".to_string(),
        args: vec![MacroArg::ArgCall("y".to_string())],
    };
    let mut scope = vec![&c.macros[0]];
    let mut mis = vec![(0usize, &invocation)];
    let mut bytes = vec![];
    let mut offset = 0usize;
    let mut jump_table = JumpTable::new();
    let r = Codegen::bubble_arg_call(
        "x",
        &mut bytes,
        &c.macros[0],
        &c,
        &mut scope,
        &mut offset,
        &mut mis,
        &mut jump_table,
    );
    assert_eq!(
        r,
        Err(CodegenError {
            kind: CodegenErrorKind::MissingMacroInvocation("A".to_string()),
            span: AstSpan(vec![]),
            token: None,
        })
    );
    assert!(bytes.is_empty());
    assert_eq!(offset, 0);
    assert!(jump_table.is_empty());
}

#[test]
fn invocation_of_another_macro_stays_on_the_stack_for_the_outer_lookup() {
    // The innermost invocation is not one of the macro that refers to the argument:
    // the outer lookup sees the same invocations.
    let b = macro_def("B", &["y"], vec![arg_ref("y")]);
    let a = macro_def("A", &["y"], vec![]);
    let c = contract(vec![a, b], vec![]);
    let invocation = MacroInvocation {
        macro_name: "A".to_string(),
        args: vec![MacroArg::ArgCall("y".to_string())],
    };
    let mut scope = vec![&c.macros[0], &c.macros[1]];
    let mut mis = vec![(0usize, &invocation)];
    let mut bytes = vec![];
    let mut offset = 0usize;
    let mut jump_table = JumpTable::new();
    // In B the name y is the first parameter; the argument there is the name y of the
    // macro further out, A, which has the parameter too, and so on until the scope ends.
    let r = Codegen::bubble_arg_call(
        "y",
        &mut bytes,
        &c.macros[1],
        &c,
        &mut scope,
        &mut offset,
        &mut mis,
        &mut jump_table,
    );
    assert_eq!(
        r,
        Err(CodegenError {
            kind: CodegenErrorKind::MissingMacroInvocation("A".to_string()),
            span: AstSpan(vec![]),
            token: None,
        })
    );
}

#[test]
fn unknown_name_at_the_start_of_an_invocation_is_a_reference() {
    // The jump is recorded under the offset of the invocation, which is the offset of
    // its own push: the address is written once the label is known.
    let c = contract(
        vec![
            macro_def("A", &[], vec![arg_ref("lbl"), raw("56")]),
            macro_def("MAIN", &[], vec![invoke("A", vec![]), label("lbl")]),
        ],
        vec![],
    );
    assert_eq!(main_code(&c), Ok("610004565b".to_string()));
}

#[test]
fn stray_jump_can_take_the_place_of_a_reference() {
    // The jump of the unknown name is recorded under the offset of the invocation,
    // where the reference to `a` stands: the reference gets the address of `foo`.
    let reference = item(IRByteType::Statement(Statement::LabelCall("a".to_string())));
    let c = contract(
        vec![
            macro_def("A", &[], vec![reference, arg_ref("foo")]),
            macro_def("MAIN", &[], vec![invoke("A", vec![]), label("a"), label("foo")]),
        ],
        vec![],
    );
    assert_eq!(main_code(&c), Ok("61000761xxxx5b5b".to_string()));
}

#[test]
fn nested_macros_with_the_same_parameter_name() {
    let c = contract(
        vec![
            macro_def("B", &["x"], vec![arg_ref("x")]),
            macro_def(
                "A",
                &["x"],
                vec![arg_ref("x"), invoke("B", vec![MacroArg::ArgCall("x".to_string())])],
            ),
            macro_def("MAIN", &[], vec![invoke("A", vec![MacroArg::Literal(number(&[0x07]))])]),
        ],
        vec![],
    );
    assert_eq!(main_code(&c), Ok("60076007".to_string()));
}

#[test]
fn name_of_a_label_that_is_a_mnemonic_stands_for_the_opcode() {
    let c = contract(vec![macro_def("MAIN", &[], vec![label("add"), arg_ref("add")])], vec![]);
    assert_eq!(main_code(&c), Ok("5b01".to_string()));
}

#[test]
fn label_argument_that_is_a_mnemonic_stays_a_label() {
    let c = contract(
        vec![
            macro_def("A", &["x"], vec![arg_ref("x")]),
            macro_def(
                "MAIN",
                &[],
                vec![invoke("A", vec![MacroArg::Ident("add".to_string())]), label("add")],
            ),
        ],
        vec![],
    );
    assert_eq!(main_code(&c), Ok("6100035b".to_string()));
}
