use huff_codegen::ast::{
    Argument, AstSpan, BuiltinFunctionCall, BuiltinFunctionKind, Bytes, Contract, IRByteType, IRBytes,
    MacroArg, MacroDefinition, MacroInvocation, Statement, TableDefinition, TableKind,
};
use huff_codegen::Codegen;

fn item(ty: IRByteType) -> IRBytes {
    IRBytes { ty, span: AstSpan(vec![]) }
}

fn raw(hex: &str) -> IRBytes {
    item(IRByteType::Bytes(Bytes(hex.to_string())))
}

fn label(name: &str) -> IRBytes {
    item(IRByteType::Statement(Statement::Label(name.to_string())))
}

fn label_call(name: &str) -> IRBytes {
    item(IRByteType::Statement(Statement::LabelCall(name.to_string())))
}

fn builtin(kind: BuiltinFunctionKind, arg: &str) -> IRBytes {
    item(IRByteType::Statement(Statement::BuiltinFunctionCall(BuiltinFunctionCall {
        kind,
        arg: arg.to_string(),
    })))
}

fn invoke(name: &str, args: Vec<MacroArg>) -> IRBytes {
    item(IRByteType::Statement(Statement::MacroInvocation(MacroInvocation {
        macro_name: name.to_string(),
        args,
    })))
}

fn macro_def(name: &str, params: &[&str], ir_bytes: Vec<IRBytes>) -> MacroDefinition {
    MacroDefinition {
        name: name.to_string(),
        parameters: params.iter().map(|p| Argument { name: Some(p.to_string()) }).collect(),
        ir_bytes,
    }
}

fn packed(name: &str, labels: &[&str]) -> TableDefinition {
    TableDefinition {
        name: name.to_string(),
        kind: TableKind::JumpTablePacked,
        statements: labels.iter().map(|l| Statement::LabelCall(l.to_string())).collect(),
        size: 2 * labels.len(),
    }
}

/// A contract with nested macros, labels on every level, an argument that is a label,
/// and two jump tables.
fn sample() -> Contract {
    Contract {
        macros: vec![
            macro_def(
                "LOOP",
                &["exit"],
                vec![
                    label("top"),
                    raw("6001"),
                    item(IRByteType::ArgCall("exit".to_string())),
                    raw("57"),
                    label_call("top"),
                    raw("56"),
                ],
            ),
            macro_def(
                "MAIN",
                &[],
                vec![
                    builtin(BuiltinFunctionKind::Tablestart, "SECOND"),
                    builtin(BuiltinFunctionKind::Tablesize, "FIRST"),
                    builtin(BuiltinFunctionKind::Codesize, "LOOP"),
                    invoke("LOOP", vec![MacroArg::Ident("done".to_string())]),
                    label("done"),
                    raw("00"),
                ],
            ),
        ],
        constants: vec![],
        tables: vec![packed("FIRST", &["top", "done"]), packed("SECOND", &["done"])],
    }
}

// MAIN: 0 PUSH2 tablestart (3) | 3 PUSH1 04 (2) | 5 PUSH1 0b (2) | 7 LOOP (11) | 18 done: | 19 00
// LOOP at 7: 7 top: | 8 6001 | 10 PUSH2 done | 13 57 | 14 PUSH2 top | 17 56
// tables: FIRST at 20 (top, done), SECOND at 24 (done)
const SAMPLE_CODE: &str = "6100186004600b5b600161001257610007565b00000700120012";

#[test]
fn sample_code_is_as_laid_out_by_hand() {
    let c = sample();
    assert!(c.is_well_formed());
    assert_eq!(Codegen::generate_main_bytecode(&c), Ok(SAMPLE_CODE.to_string()));
}

#[test]
fn same_contract_gives_the_same_code() {
    let first = Codegen::generate_main_bytecode(&sample());
    let second = Codegen::generate_main_bytecode(&sample());
    assert_eq!(first, second);
    let c = sample();
    assert_eq!(Codegen::generate_main_bytecode(&c), Codegen::generate_main_bytecode(&c.clone()));
}

#[test]
fn code_is_as_long_as_the_pieces_and_the_tables() {
    let c = sample();
    let main = &c.macros[1];
    let mut scope = vec![main];
    let mut mis = vec![];
    let res = Codegen::macro_to_bytecode(main, &c, &mut scope, 0, &mut mis).unwrap();
    let pieces: usize = res.bytes.iter().map(|(_, b)| b.0.len() / 2).sum();
    let tables: usize = c.tables.iter().map(|t| t.size).sum();
    let code = Codegen::generate_main_bytecode(&c).unwrap();
    assert_eq!(pieces, 20);
    assert_eq!(tables, 6);
    assert_eq!(code.len() / 2, pieces + tables);
}

#[test]
fn every_label_has_its_jumpdest() {
    let c = sample();
    let main = &c.macros[1];
    let mut scope = vec![main];
    let mut mis = vec![];
    let res = Codegen::macro_to_bytecode(main, &c, &mut scope, 0, &mut mis).unwrap();
    let code = Codegen::generate_main_bytecode(&c).unwrap();
    let top = res.label_indices.get("top").unwrap();
    let done = res.label_indices.get("done").unwrap();
    assert_eq!((top, done), (7, 18));
    assert_eq!(&code[2 * top..2 * top + 2], "5b");
    assert_eq!(&code[2 * done..2 * done + 2], "5b");
}

#[test]
fn every_reference_holds_the_offset_of_its_label() {
    let code = Codegen::generate_main_bytecode(&sample()).unwrap();
    // the argument `exit`, a reference to `done`, stands at 10; the reference to `top` at 14
    assert_eq!(&code[2 * 10..2 * 10 + 6], "610012");
    assert_eq!(&code[2 * 14..2 * 14 + 6], "610007");
}

#[test]
fn table_start_holds_the_offset_of_the_table() {
    let code = Codegen::generate_main_bytecode(&sample()).unwrap();
    // SECOND starts behind the 20 bytes of code and the 4 bytes of FIRST
    assert_eq!(&code[0..6], "610018");
    assert_eq!(&code[2 * 0x18..], "0012");
}

#[test]
fn table_size_and_code_size_are_pushed() {
    let code = Codegen::generate_main_bytecode(&sample()).unwrap();
    assert_eq!(&code[2 * 3..2 * 3 + 4], "6004");
    assert_eq!(&code[2 * 5..2 * 5 + 4], "600b");
}

#[test]
fn no_placeholder_is_left() {
    let code = Codegen::generate_main_bytecode(&sample()).unwrap();
    assert!(!code.contains("xxxx"));
    assert!(!code.contains('x'));
    assert!(code.chars().all(|c| c.is_ascii_hexdigit()));
}

#[test]
fn constructor_code_obeys_the_same_laws() {
    let mut c = sample();
    c.macros[1].name = "CONSTRUCTOR".to_string();
    assert_eq!(Codegen::generate_constructor_bytecode(&c), Ok(SAMPLE_CODE.to_string()));
}

#[test]
fn code_has_an_even_length() {
    let code = Codegen::generate_main_bytecode(&sample()).unwrap();
    assert_eq!(code.len() % 2, 0);
}

#[test]
fn open_jumps_carry_the_offsets_of_their_pieces() {
    let c = sample();
    let inner = &c.macros[0];
    let invocation = MacroInvocation {
        macro_name: "LOOP".to_string(),
        args: vec![MacroArg::Ident("done".to_string())],
    };
    let mut scope = vec![&c.macros[1], inner];
    let mut mis = vec![(7usize, &invocation)];
    let res = Codegen::macro_to_bytecode(inner, &c, &mut scope, 7, &mut mis).unwrap();
    assert_eq!(res.unmatched_jumps.len(), 1);
    let open = &res.unmatched_jumps[0];
    assert_eq!((open.label.as_str(), open.bytecode_index), ("done", 10));
    assert!(res.bytes.iter().any(|(at, text)| *at == 10 && text.0 == "61xxxx"));
    assert_eq!(res.label_indices.get("done"), None);
}
