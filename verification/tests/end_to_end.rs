use huff_codegen::artifact::FileSource;
use huff_codegen::ast::{
    Argument, AstSpan, BuiltinFunctionCall, BuiltinFunctionKind, Bytes, Contract, IRByteType, IRBytes,
    MacroDefinition, Statement, TableDefinition, TableKind,
};
use huff_codegen::Codegen;

fn item(ty: IRByteType) -> IRBytes {
    IRBytes { ty, span: AstSpan(vec![]) }
}

fn raw(hex: &str) -> IRBytes {
    item(IRByteType::Bytes(Bytes(hex.to_string())))
}

fn label(name: &str) -> IRBytes {
    item(IRByteType::Statement(Statement::Label(name.to_string())))
}

fn label_call(name: &str) -> IRBytes {
    item(IRByteType::Statement(Statement::LabelCall(name.to_string())))
}

fn builtin(kind: BuiltinFunctionKind, arg: &str) -> IRBytes {
    item(IRByteType::Statement(Statement::BuiltinFunctionCall(BuiltinFunctionCall {
        kind,
        arg: arg.to_string(),
    })))
}

fn macro_def(name: &str, params: &[&str], ir_bytes: Vec<IRBytes>) -> MacroDefinition {
    MacroDefinition {
        name: name.to_string(),
        parameters: params.iter().map(|p| Argument { name: Some(p.to_string()) }).collect(),
        ir_bytes,
    }
}

fn contract(macros: Vec<MacroDefinition>, tables: Vec<TableDefinition>) -> Contract {
    Contract { macros, constants: vec![], tables }
}

fn no_file() -> FileSource {
    FileSource { id: 0, path: String::new(), source: None, access: None, dependencies: None }
}

#[test]
fn empty_main_gives_empty_code() {
    let c = contract(vec![macro_def("MAIN", &[], vec![])], vec![]);
    assert_eq!(Codegen::generate_main_bytecode(&c), Ok(String::new()));
}

#[test]
fn opcode_and_literals() {
    let c = contract(vec![macro_def("MAIN", &[], vec![raw("6001"), raw("6002"), raw("01")])], vec![]);
    assert_eq!(Codegen::generate_main_bytecode(&c), Ok("6001600201".to_string()));
}

#[test]
fn label_and_reference() {
    let c = contract(
        vec![macro_def(
            "MAIN",
            &[],
            vec![label("start"), raw("6000"), label_call("start"), raw("56")],
        )],
        vec![],
    );
    assert_eq!(Codegen::generate_main_bytecode(&c), Ok("5b600061000056".to_string()));
}

#[test]
fn codesize_of_a_macro() {
    let c = contract(
        vec![
            macro_def("A", &[], vec![raw("6000"), raw("6000")]),
            macro_def("MAIN", &[], vec![builtin(BuiltinFunctionKind::Codesize, "A")]),
        ],
        vec![],
    );
    assert_eq!(Codegen::generate_main_bytecode(&c), Ok("6004".to_string()));
}

#[test]
fn packed_jump_table() {
    let table = TableDefinition {
        name: "T".to_string(),
        kind: TableKind::JumpTablePacked,
        statements: vec![
            Statement::LabelCall("lbl_a".to_string()),
            Statement::LabelCall("lbl_b".to_string()),
        ],
        size: 4,
    };
    let c = contract(
        vec![macro_def(
            "MAIN",
            &[],
            vec![builtin(BuiltinFunctionKind::Tablestart, "T"), label("lbl_a"), label("lbl_b")],
        )],
        vec![table],
    );
    assert_eq!(Codegen::generate_main_bytecode(&c), Ok("6100055b5b00030004".to_string()));
}

#[test]
fn constructor_wrapping() {
    let mut cg = Codegen::new();
    let artifact = cg.churn(no_file(), vec![], "ff", "").unwrap();
    assert_eq!(artifact.bytecode, "6100018061000d6000396000f3ff");
    assert_eq!(artifact.runtime, "ff");
    assert_eq!(cg.artifact, Some(artifact));
}
