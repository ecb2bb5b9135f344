use huff_codegen::ast::{
    AstSpan, BuiltinFunctionCall, BuiltinFunctionKind, Bytes, Contract, IRByteType, IRBytes,
    MacroDefinition, Statement, TableDefinition, TableKind,
};
use huff_codegen::bytecode::{BytecodeRes, Jump, LabelIndices};
use huff_codegen::error::{CodegenError, CodegenErrorKind};
use huff_codegen::Codegen;

fn item(ty: IRByteType) -> IRBytes {
    IRBytes { ty, span: AstSpan(vec![]) }
}

fn raw(hex: &str) -> IRBytes {
    item(IRByteType::Bytes(Bytes(hex.to_string())))
}

fn label(name: &str) -> IRBytes {
    item(IRByteType::Statement(Statement::Label(name.to_string())))
}

fn builtin(kind: BuiltinFunctionKind, arg: &str) -> IRBytes {
    item(IRByteType::Statement(Statement::BuiltinFunctionCall(BuiltinFunctionCall {
        kind,
        arg: arg.to_string(),
    })))
}

fn main_macro(ir_bytes: Vec<IRBytes>) -> MacroDefinition {
    MacroDefinition { name: "MAIN".to_string(), parameters: vec![], ir_bytes }
}

fn table(name: &str, kind: TableKind, labels: &[&str]) -> TableDefinition {
    let width = match kind {
        TableKind::JumpTablePacked => 2,
        TableKind::JumpTable => 32,
    };
    TableDefinition {
        name: name.to_string(),
        kind,
        statements: labels.iter().map(|l| Statement::LabelCall(l.to_string())).collect(),
        size: width * labels.len(),
    }
}

fn contract(main: Vec<IRBytes>, tables: Vec<TableDefinition>) -> Contract {
    Contract { macros: vec![main_macro(main)], constants: vec![], tables }
}

fn failure(kind: CodegenErrorKind) -> CodegenError {
    CodegenError { kind, span: AstSpan(vec![]), token: None }
}

fn pieces(parts: &[(usize, &str)]) -> Vec<(usize, Bytes)> {
    parts.iter().map(|(o, t)| (*o, Bytes(t.to_string()))).collect()
}

fn labels(defs: &[(&str, usize)]) -> LabelIndices {
    let mut l = LabelIndices::new();
    for (name, offset) in defs {
        l.insert(name.to_string(), *offset);
    }
    l
}

#[test]
fn padded_table_has_entries_of_32_bytes() {
    let c = contract(
        vec![builtin(BuiltinFunctionKind::Tablestart, "T"), label("a"), label("b")],
        vec![table("T", TableKind::JumpTable, &["a", "b"])],
    );
    let expected = format!("6100055b5b{}03{}04", "00".repeat(31), "00".repeat(31));
    assert_eq!(Codegen::generate_main_bytecode(&c), Ok(expected));
}

#[test]
fn tables_follow_one_another() {
    let c = contract(
        vec![
            builtin(BuiltinFunctionKind::Tablestart, "SECOND"),
            builtin(BuiltinFunctionKind::Tablestart, "FIRST"),
            label("a"),
        ],
        vec![
            table("FIRST", TableKind::JumpTablePacked, &["a", "a", "a"]),
            table("SECOND", TableKind::JumpTablePacked, &["a"]),
        ],
    );
    // code: 7 bytes; FIRST at 7 with 6 bytes; SECOND at 13
    assert_eq!(
        Codegen::generate_main_bytecode(&c),
        Ok("61000d6100075b0006000600060006".to_string())
    );
}

#[test]
fn table_size_is_pushed() {
    let c = contract(
        vec![builtin(BuiltinFunctionKind::Tablesize, "T"), label("a")],
        vec![table("T", TableKind::JumpTablePacked, &["a", "a"])],
    );
    assert_eq!(Codegen::generate_main_bytecode(&c), Ok("60045b00020002".to_string()));
}

#[test]
fn large_table_size_takes_two_bytes() {
    let t = TableDefinition {
        name: "T".to_string(),
        kind: TableKind::JumpTable,
        statements: vec![],
        size: 0x100,
    };
    let c = contract(vec![builtin(BuiltinFunctionKind::Tablesize, "T")], vec![t]);
    assert_eq!(Codegen::generate_main_bytecode(&c), Ok("610100".to_string()));
}

#[test]
fn size_of_a_missing_table() {
    let c = contract(vec![builtin(BuiltinFunctionKind::Tablesize, "T")], vec![]);
    assert_eq!(
        Codegen::generate_main_bytecode(&c),
        Err(CodegenError {
            kind: CodegenErrorKind::MissingMacroDefinition("T".to_string()),
            span: AstSpan(vec![huff_codegen::ast::Span { start: 0, end: 0, file: None }]),
            token: None,
        })
    );
}

#[test]
fn start_of_a_missing_table_stays_a_placeholder() {
    let c = contract(vec![builtin(BuiltinFunctionKind::Tablestart, "T"), raw("00")], vec![]);
    assert_eq!(Codegen::generate_main_bytecode(&c), Ok("61xxxx00".to_string()));
}

#[test]
fn table_with_a_label_that_is_not_defined() {
    let c = contract(vec![raw("00")], vec![table("T", TableKind::JumpTablePacked, &["nowhere"])]);
    assert_eq!(
        Codegen::generate_main_bytecode(&c),
        Err(failure(CodegenErrorKind::UnmatchedJumpLabel))
    );
}

#[test]
fn statements_of_a_table_that_are_no_label_reference_add_nothing() {
    let t = TableDefinition {
        name: "T".to_string(),
        kind: TableKind::JumpTablePacked,
        statements: vec![
            Statement::Label("x".to_string()),
            Statement::LabelCall("a".to_string()),
            Statement::Code("ffff".to_string()),
        ],
        size: 2,
    };
    let c = contract(vec![label("a")], vec![t]);
    assert_eq!(Codegen::generate_main_bytecode(&c), Ok("5b0000".to_string()));
}

#[test]
fn open_jump_fails_the_layout() {
    let res = BytecodeRes {
        bytes: pieces(&[(0, "61xxxx")]),
        label_indices: LabelIndices::new(),
        unmatched_jumps: vec![Jump { label: "l".to_string(), bytecode_index: 0 }],
        table_instances: vec![],
    };
    assert!(res.is_code());
    let c = contract(vec![], vec![]);
    assert_eq!(
        Codegen::gen_table_bytecode(res, &c),
        Err(failure(CodegenErrorKind::UnmatchedJumpLabel))
    );
}

#[test]
fn layout_writes_the_table_offset_at_the_given_index() {
    let res = BytecodeRes {
        bytes: pieces(&[(0, "00"), (1, "61xxxx"), (4, "5b")]),
        label_indices: labels(&[("a", 4)]),
        unmatched_jumps: vec![],
        table_instances: vec![Jump { label: "T".to_string(), bytecode_index: 1 }],
    };
    assert!(res.is_code());
    let c = contract(vec![], vec![table("T", TableKind::JumpTablePacked, &["a"])]);
    assert_eq!(Codegen::gen_table_bytecode(res, &c), Ok("006100055b0004".to_string()));
}

#[test]
fn place_beyond_the_code_is_left_alone() {
    let res = BytecodeRes {
        bytes: pieces(&[(0, "00")]),
        label_indices: LabelIndices::new(),
        unmatched_jumps: vec![],
        table_instances: vec![Jump { label: "T".to_string(), bytecode_index: 7 }],
    };
    let c = contract(vec![], vec![table("T", TableKind::JumpTablePacked, &[])]);
    assert_eq!(Codegen::gen_table_bytecode(res, &c), Ok("00".to_string()));
}

#[test]
fn last_table_of_a_name_gives_the_offset() {
    let res = BytecodeRes {
        bytes: pieces(&[(0, "61xxxx"), (3, "5b")]),
        label_indices: labels(&[("a", 3)]),
        unmatched_jumps: vec![],
        table_instances: vec![Jump { label: "T".to_string(), bytecode_index: 0 }],
    };
    let c = contract(
        vec![],
        vec![
            table("T", TableKind::JumpTablePacked, &["a"]),
            table("T", TableKind::JumpTablePacked, &["a"]),
        ],
    );
    assert_eq!(Codegen::gen_table_bytecode(res, &c), Ok("6100065b00030003".to_string()));
}

#[test]
fn packed_entry_beyond_two_bytes_cannot_be_written() {
    let res = BytecodeRes {
        bytes: pieces(&[(0, "5b")]),
        label_indices: labels(&[("a", 0x10000)]),
        unmatched_jumps: vec![],
        table_instances: vec![],
    };
    let c = contract(vec![], vec![table("T", TableKind::JumpTablePacked, &["a"])]);
    assert_eq!(Codegen::gen_table_bytecode(res, &c), Err(failure(CodegenErrorKind::OffsetOverflow)));
}

#[test]
fn padded_entry_holds_a_large_offset() {
    let res = BytecodeRes {
        bytes: pieces(&[(0, "5b")]),
        label_indices: labels(&[("a", 0x10000)]),
        unmatched_jumps: vec![],
        table_instances: vec![],
    };
    let c = contract(vec![], vec![table("T", TableKind::JumpTable, &["a"])]);
    assert_eq!(
        Codegen::gen_table_bytecode(res, &c),
        Ok(format!("5b{}010000", "00".repeat(29)))
    );
}

#[test]
fn table_offset_beyond_two_bytes_cannot_be_written() {
    let big = TableDefinition {
        name: "BIG".to_string(),
        kind: TableKind::JumpTablePacked,
        statements: vec![],
        size: 0x10000,
    };
    let res = BytecodeRes {
        bytes: pieces(&[(0, "61xxxx")]),
        label_indices: LabelIndices::new(),
        unmatched_jumps: vec![],
        table_instances: vec![Jump { label: "T".to_string(), bytecode_index: 0 }],
    };
    let c = contract(vec![], vec![big, table("T", TableKind::JumpTablePacked, &[])]);
    assert_eq!(Codegen::gen_table_bytecode(res, &c), Err(failure(CodegenErrorKind::OffsetOverflow)));
}

#[test]
fn label_indices_keep_the_last_offset_of_a_name() {
    let mut l = labels(&[("a", 1), ("b", 2), ("a", 3)]);
    assert_eq!(l.get("a"), Some(3));
    assert_eq!(l.get("b"), Some(2));
    assert_eq!(l.get("c"), None);
    l.extend(labels(&[("b", 9), ("c", 10)]));
    assert_eq!(l.get("a"), Some(3));
    assert_eq!(l.get("b"), Some(9));
    assert_eq!(l.get("c"), Some(10));
}
