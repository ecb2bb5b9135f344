use huff_codegen::ast::{
    Argument, AstSpan, BuiltinFunctionCall, BuiltinFunctionKind, Bytes, ConstVal, ConstantDefinition,
    Contract, IRByteType, IRBytes, MacroArg, MacroDefinition, MacroInvocation, Span, Statement,
};
use huff_codegen::bytecode::Jump;
use huff_codegen::error::{CodegenError, CodegenErrorKind};
use huff_codegen::Codegen;

fn item(ty: IRByteType) -> IRBytes {
    IRBytes { ty, span: AstSpan(vec![]) }
}

fn raw(hex: &str) -> IRBytes {
    item(IRByteType::Bytes(Bytes(hex.to_string())))
}

fn label(name: &str) -> IRBytes {
    item(IRByteType::Statement(Statement::Label(name.to_string())))
}

fn label_call(name: &str) -> IRBytes {
    item(IRByteType::Statement(Statement::LabelCall(name.to_string())))
}

fn constant_ref(name: &str) -> IRBytes {
    item(IRByteType::Constant(name.to_string()))
}

fn builtin(kind: BuiltinFunctionKind, arg: &str) -> IRBytes {
    item(IRByteType::Statement(Statement::BuiltinFunctionCall(BuiltinFunctionCall {
        kind,
        arg: arg.to_string(),
    })))
}

fn invoke(name: &str, args: Vec<MacroArg>) -> IRBytes {
    item(IRByteType::Statement(Statement::MacroInvocation(MacroInvocation {
        macro_name: name.to_string(),
        args,
    })))
}

fn macro_def(name: &str, params: &[&str], ir_bytes: Vec<IRBytes>) -> MacroDefinition {
    MacroDefinition {
        name: name.to_string(),
        parameters: params.iter().map(|p| Argument { name: Some(p.to_string()) }).collect(),
        ir_bytes,
    }
}

fn number(tail: &[u8]) -> [u8; 32] {
    let mut l = [0u8; 32];
    l[32 - tail.len()..].copy_from_slice(tail);
    l
}

fn contract(macros: Vec<MacroDefinition>, constants: Vec<ConstantDefinition>) -> Contract {
    Contract { macros, constants, tables: vec![] }
}

fn main_code(c: &Contract) -> Result<String, CodegenError> {
    assert!(c.is_well_formed());
    Codegen::generate_main_bytecode(c)
}

fn failure(kind: CodegenErrorKind, span: Vec<Span>) -> CodegenError {
    CodegenError { kind, span: AstSpan(span), token: None }
}

#[test]
fn missing_main_macro() {
    let c = contract(vec![macro_def("OTHER", &[], vec![])], vec![]);
    assert_eq!(
        main_code(&c),
        Err(failure(
            CodegenErrorKind::MissingMacroDefinition("MAIN".to_string()),
            vec![Span { start: 0, end: 0, file: None }]
        ))
    );
}

#[test]
fn missing_constructor_macro() {
    let c = contract(vec![macro_def("MAIN", &[], vec![])], vec![]);
    assert_eq!(
        Codegen::generate_constructor_bytecode(&c),
        Err(failure(
            CodegenErrorKind::MissingMacroDefinition("CONSTRUCTOR".to_string()),
            vec![Span { start: 0, end: 0, file: None }]
        ))
    );
}

#[test]
fn macro_lookup_takes_the_first_of_a_name() {
    let c = contract(
        vec![
            macro_def("MAIN", &[], vec![raw("01")]),
            macro_def("MAIN", &[], vec![raw("02")]),
        ],
        vec![],
    );
    assert_eq!(Codegen::get_macro_by_name("MAIN", &c), Ok(&c.macros[0]));
    assert_eq!(main_code(&c), Ok("01".to_string()));
}

#[test]
fn missing_invoked_macro() {
    let c = contract(vec![macro_def("MAIN", &[], vec![invoke("NOPE", vec![])])], vec![]);
    assert_eq!(
        main_code(&c),
        Err(failure(
            CodegenErrorKind::MissingMacroDefinition("NOPE".to_string()),
            vec![Span { start: 0, end: 0, file: None }]
        ))
    );
}

#[test]
fn missing_macro_for_codesize() {
    let c = contract(
        vec![macro_def("MAIN", &[], vec![builtin(BuiltinFunctionKind::Codesize, "NOPE")])],
        vec![],
    );
    assert_eq!(
        main_code(&c),
        Err(failure(
            CodegenErrorKind::MissingMacroDefinition("NOPE".to_string()),
            vec![Span { start: 0, end: 0, file: None }]
        ))
    );
}

#[test]
fn constant_is_pushed() {
    let c = contract(
        vec![macro_def("MAIN", &[], vec![constant_ref("C"), constant_ref("ZERO")])],
        vec![
            ConstantDefinition {
                name: "C".to_string(),
                value: ConstVal::Literal(number(&[0xa5, 0x7b])),
                span: AstSpan(vec![]),
            },
            ConstantDefinition {
                name: "ZERO".to_string(),
                value: ConstVal::Literal([0u8; 32]),
                span: AstSpan(vec![]),
            },
        ],
    );
    assert_eq!(main_code(&c), Ok("61a57b6000".to_string()));
}

#[test]
fn missing_constant_carries_the_span_of_the_item() {
    let mut reference = constant_ref("C");
    reference.span = AstSpan(vec![Span { start: 3, end: 8, file: None }]);
    let c = contract(vec![macro_def("MAIN", &[], vec![reference])], vec![]);
    assert_eq!(
        main_code(&c),
        Err(failure(
            CodegenErrorKind::MissingConstantDefinition("C".to_string()),
            vec![Span { start: 3, end: 8, file: None }]
        ))
    );
}

#[test]
fn storage_pointer_carries_the_span_of_the_constant() {
    let c = contract(
        vec![macro_def("MAIN", &[], vec![constant_ref("SLOT")])],
        vec![ConstantDefinition {
            name: "SLOT".to_string(),
            value: ConstVal::FreeStoragePointer,
            span: AstSpan(vec![Span { start: 20, end: 31, file: None }]),
        }],
    );
    assert_eq!(
        main_code(&c),
        Err(failure(
            CodegenErrorKind::StoragePointersNotDerived,
            vec![Span { start: 20, end: 31, file: None }]
        ))
    );
}

#[test]
fn statement_that_cannot_stand_in_a_macro_body() {
    let mut bad = item(IRByteType::Statement(Statement::Code("6001".to_string())));
    bad.span = AstSpan(vec![Span { start: 1, end: 2, file: None }]);
    let c = contract(vec![macro_def("MAIN", &[], vec![raw("00"), bad])], vec![]);
    assert_eq!(
        main_code(&c),
        Err(failure(CodegenErrorKind::InvalidMacroStatement, vec![Span { start: 1, end: 2, file: None }]))
    );
    for s in [
        Statement::Literal(number(&[1])),
        Statement::Opcode("add".to_string()),
        Statement::Constant("C".to_string()),
        Statement::ArgCall("x".to_string()),
    ] {
        let c = contract(vec![macro_def("MAIN", &[], vec![item(IRByteType::Statement(s))])], vec![]);
        assert_eq!(main_code(&c), Err(failure(CodegenErrorKind::InvalidMacroStatement, vec![])));
    }
}

#[test]
fn reference_to_a_label_that_is_defined_nowhere() {
    let c = contract(vec![macro_def("MAIN", &[], vec![label_call("nowhere")])], vec![]);
    assert_eq!(main_code(&c), Err(failure(CodegenErrorKind::UnmatchedJumpLabel, vec![])));
}

#[test]
fn constructor_with_an_open_jump_fails() {
    let c = contract(
        vec![macro_def("CONSTRUCTOR", &[], vec![label_call("nowhere"), raw("56")])],
        vec![],
    );
    assert_eq!(
        Codegen::generate_constructor_bytecode(&c),
        Err(failure(CodegenErrorKind::UnmatchedJumpLabel, vec![]))
    );
}

#[test]
fn constructor_gets_its_addresses_written() {
    let c = contract(
        vec![macro_def("CONSTRUCTOR", &[], vec![raw("00"), label_call("here"), label("here")])],
        vec![],
    );
    assert_eq!(Codegen::generate_constructor_bytecode(&c), Ok("006100045b".to_string()));
}

#[test]
fn label_of_an_inner_macro_is_known_to_the_outer_one() {
    let c = contract(
        vec![
            macro_def("A", &[], vec![label("lbl")]),
            macro_def("MAIN", &[], vec![label_call("lbl"), invoke("A", vec![])]),
        ],
        vec![],
    );
    assert_eq!(main_code(&c), Ok("6100035b".to_string()));
}

#[test]
fn jump_of_an_inner_macro_finds_the_label_of_the_outer_one() {
    let c = contract(
        vec![
            macro_def("A", &[], vec![raw("00"), label_call("out")]),
            macro_def("MAIN", &[], vec![raw("6001"), invoke("A", vec![]), label("out")]),
        ],
        vec![],
    );
    assert_eq!(main_code(&c), Ok("6001006100065b".to_string()));
}

#[test]
fn later_definition_of_a_label_replaces_the_earlier_one() {
    let c = contract(
        vec![macro_def("MAIN", &[], vec![label("a"), label("a"), label_call("a")])],
        vec![],
    );
    assert_eq!(main_code(&c), Ok("5b5b610001".to_string()));
}

#[test]
fn macro_invoked_twice_is_laid_out_twice() {
    let c = contract(
        vec![
            macro_def("A", &[], vec![label("here"), label_call("here")]),
            macro_def("MAIN", &[], vec![invoke("A", vec![]), invoke("A", vec![])]),
        ],
        vec![],
    );
    assert_eq!(main_code(&c), Ok("5b6100005b610004".to_string()));
}

#[test]
fn expansion_reports_pieces_labels_and_open_jumps() {
    let a = macro_def(
        "A",
        &[],
        vec![
            raw("6001"),
            label("in"),
            label_call("in"),
            label_call("out"),
            builtin(BuiltinFunctionKind::Tablestart, "T"),
        ],
    );
    let c = contract(vec![a], vec![]);
    let invocation = MacroInvocation { macro_name: "A".to_string(), args: vec![] };
    let mut scope = vec![&c.macros[0]];
    let mut mis = vec![(10usize, &invocation)];
    let res = Codegen::macro_to_bytecode(&c.macros[0], &c, &mut scope, 10, &mut mis).unwrap();
    assert_eq!(
        res.bytes,
        vec![
            (10, Bytes("6001".to_string())),
            (12, Bytes("5b".to_string())),
            (13, Bytes("61000c".to_string())),
            (16, Bytes("61xxxx".to_string())),
            (19, Bytes("61xxxx".to_string())),
        ]
    );
    assert_eq!(res.label_indices.get("in"), Some(12));
    assert_eq!(res.label_indices.get("out"), None);
    assert_eq!(res.unmatched_jumps, vec![Jump { label: "out".to_string(), bytecode_index: 16 }]);
    assert_eq!(res.table_instances, vec![Jump { label: "T".to_string(), bytecode_index: 19 }]);
    assert!(mis.is_empty());
    assert_eq!(scope.len(), 1);
}

#[test]
fn expansion_without_invocation_leaves_the_empty_stack() {
    let c = contract(vec![macro_def("MAIN", &[], vec![raw("00")])], vec![]);
    let mut scope = vec![&c.macros[0]];
    let mut mis = vec![];
    let res = Codegen::macro_to_bytecode(&c.macros[0], &c, &mut scope, 0, &mut mis).unwrap();
    assert_eq!(res.bytes, vec![(0, Bytes("00".to_string()))]);
    assert!(mis.is_empty());
}

#[test]
fn failed_expansion_leaves_the_stacks_as_they_were() {
    let a = macro_def("A", &[], vec![raw("00"), invoke("NOPE", vec![])]);
    let c = contract(vec![a], vec![]);
    let invocation = MacroInvocation { macro_name: "A".to_string(), args: vec![] };
    let mut scope = vec![&c.macros[0]];
    let mut mis = vec![(0usize, &invocation)];
    let r = Codegen::macro_to_bytecode(&c.macros[0], &c, &mut scope, 0, &mut mis);
    assert_eq!(
        r,
        Err(failure(
            CodegenErrorKind::MissingMacroDefinition("NOPE".to_string()),
            vec![Span { start: 0, end: 0, file: None }]
        ))
    );
    assert_eq!(mis.len(), 1);
    assert_eq!(scope.len(), 1);
}

#[test]
fn codesize_counts_the_bytes_of_nested_macros() {
    let c = contract(
        vec![
            macro_def("B", &[], vec![raw("600160026003")]),
            macro_def("A", &[], vec![invoke("B", vec![]), label("l"), label_call("l")]),
            macro_def(
                "MAIN",
                &[],
                vec![builtin(BuiltinFunctionKind::Codesize, "A"), raw("00")],
            ),
        ],
        vec![],
    );
    assert_eq!(main_code(&c), Ok("600a00".to_string()));
}

#[test]
fn codesize_of_a_large_macro_takes_two_bytes() {
    let c = contract(
        vec![
            macro_def("A", &[], vec![raw(&"00".repeat(256))]),
            macro_def("MAIN", &[], vec![builtin(BuiltinFunctionKind::Codesize, "A")]),
        ],
        vec![],
    );
    assert_eq!(main_code(&c), Ok("610100".to_string()));
}

#[test]
fn codesize_leaves_the_invocations_as_they_were() {
    // After __codesize the argument of the invocation is still found.
    let c = contract(
        vec![
            macro_def("M", &[], vec![raw("0000")]),
            macro_def(
                "A",
                &["x"],
                vec![builtin(BuiltinFunctionKind::Codesize, "M"), item(IRByteType::ArgCall("x".to_string()))],
            ),
            macro_def("MAIN", &[], vec![invoke("A", vec![MacroArg::Literal(number(&[0x09]))])]),
        ],
        vec![],
    );
    assert_eq!(main_code(&c), Ok("60026009".to_string()));
}

#[test]
fn macro_that_invokes_itself_is_too_deep() {
    let c = contract(
        vec![
            macro_def("A", &[], vec![raw("00"), invoke("A", vec![])]),
            macro_def("MAIN", &[], vec![invoke("A", vec![])]),
        ],
        vec![],
    );
    assert_eq!(main_code(&c), Err(failure(CodegenErrorKind::ExpansionDepthExceeded, vec![])));
}

#[test]
fn macro_that_measures_itself_is_too_deep() {
    let c = contract(
        vec![macro_def("MAIN", &[], vec![builtin(BuiltinFunctionKind::Codesize, "MAIN")])],
        vec![],
    );
    assert_eq!(main_code(&c), Err(failure(CodegenErrorKind::ExpansionDepthExceeded, vec![])));
}

#[test]
fn label_beyond_two_bytes_cannot_be_written() {
    let c = contract(
        vec![macro_def(
            "MAIN",
            &[],
            vec![raw(&"00".repeat(0x10000)), label("far"), label_call("far")],
        )],
        vec![],
    );
    assert_eq!(main_code(&c), Err(failure(CodegenErrorKind::OffsetOverflow, vec![])));
}

#[test]
fn label_at_the_last_address_is_written() {
    let c = contract(
        vec![macro_def(
            "MAIN",
            &[],
            vec![raw(&"00".repeat(0xffff)), label("far"), label_call("far")],
        )],
        vec![],
    );
    let code = main_code(&c).unwrap();
    assert_eq!(code.len(), 2 * (0xffff + 1 + 3));
    assert_eq!(&code[2 * 0xffff..], "5b61ffff");
}

#[test]
fn name_taken_for_a_label_can_leave_its_placeholder() {
    // The jump of the unknown name is recorded under the offset of the invocation,
    // where another piece stands: the placeholder keeps its place.
    let c = contract(
        vec![
            macro_def("A", &[], vec![raw("6001"), item(IRByteType::ArgCall("foo".to_string()))]),
            macro_def("MAIN", &[], vec![raw("6002"), invoke("A", vec![]), label("foo")]),
        ],
        vec![],
    );
    assert_eq!(main_code(&c), Ok("6002600161xxxx5b".to_string()));
}

#[test]
fn contract_with_odd_or_foreign_code_is_not_well_formed() {
    assert!(!contract(vec![macro_def("MAIN", &[], vec![raw("600")])], vec![]).is_well_formed());
    assert!(!contract(vec![macro_def("MAIN", &[], vec![raw("61xxxx")])], vec![]).is_well_formed());
    assert!(!contract(vec![macro_def("A", &[], vec![]), macro_def("MAIN", &[], vec![raw("zz")])], vec![])
        .is_well_formed());
    assert!(contract(vec![macro_def("MAIN", &[], vec![raw("60FF"), raw("")])], vec![]).is_well_formed());
}

#[test]
fn depth_of_nesting_can_be_bounded() {
    let c = contract(
        vec![
            macro_def("C", &[], vec![raw("03")]),
            macro_def("B", &[], vec![raw("02"), invoke("C", vec![])]),
            macro_def("A", &[], vec![raw("01"), invoke("B", vec![])]),
        ],
        vec![],
    );
    let a = &c.macros[2];
    let mut scope = vec![a];
    let mut mis = vec![];
    let two = Codegen::macro_to_bytecode_within(a, &c, &mut scope, 0, &mut mis, 2).unwrap();
    assert_eq!(
        two.bytes,
        vec![
            (0, Bytes("01".to_string())),
            (1, Bytes("02".to_string())),
            (2, Bytes("03".to_string())),
        ]
    );
    let one = Codegen::macro_to_bytecode_within(a, &c, &mut scope, 0, &mut mis, 1);
    assert_eq!(one, Err(failure(CodegenErrorKind::ExpansionDepthExceeded, vec![])));
    let none = Codegen::macro_to_bytecode_within(&c.macros[0], &c, &mut scope, 0, &mut mis, 0);
    assert_eq!(none.unwrap().bytes, vec![(0, Bytes("03".to_string()))]);
}

#[test]
fn error_carries_the_file_of_the_span() {
    let file = huff_codegen::artifact::FileSource {
        id: 3,
        path: "a.huff".to_string(),
        source: None,
        access: None,
        dependencies: None,
    };
    let mut reference = constant_ref("C");
    reference.span = AstSpan(vec![Span { start: 3, end: 8, file: Some(file.clone()) }]);
    let c = contract(vec![macro_def("MAIN", &[], vec![reference])], vec![]);
    let e = main_code(&c).unwrap_err();
    assert_eq!(e.span, AstSpan(vec![Span { start: 3, end: 8, file: Some(file) }]));
    assert_eq!(e.span.duplicate(), e.span);
}
