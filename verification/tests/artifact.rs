use huff_codegen::abi_value::{AbiValue, MAX_ENCODED_LEN};
use huff_codegen::artifact::{Artifact, FileSource};
use huff_codegen::ast::AstSpan;
use huff_codegen::error::{CodegenError, CodegenErrorKind};
use huff_codegen::Codegen;

fn number(tail: &[u8]) -> [u8; 32] {
    let mut n = [0u8; 32];
    n[32 - tail.len()..].copy_from_slice(tail);
    n
}

fn word(tail: &[u8]) -> String {
    format!("{}{}", "00".repeat(32 - tail.len()), hex::encode(tail))
}

fn deployed(args: Vec<AbiValue>) -> String {
    for a in &args {
        assert!(a.is_encodable());
    }
    let artifact = Codegen::new().churn(source("a.huff"), args, "ff", "").unwrap();
    artifact.bytecode["6100018061000d6000396000f3ff".len()..].to_string()
}

fn source(path: &str) -> FileSource {
    FileSource {
        id: 7,
        path: path.to_string(),
        source: Some("#define macro MAIN() = {}".to_string()),
        access: Some((1_660_000_000, 5)),
        dependencies: Some(vec![FileSource {
            id: 8,
            path: "lib.huff".to_string(),
            source: None,
            access: None,
            dependencies: Some(vec![]),
        }]),
    }
}

#[test]
fn new_generator_holds_nothing() {
    let cg = Codegen::new();
    assert_eq!(cg.ast, None);
    assert_eq!(cg.artifact, None);
    assert_eq!(cg.main_bytecode, None);
    assert_eq!(cg.constructor_bytecode, None);
}

#[test]
fn deployment_code_with_a_constructor() {
    let mut cg = Codegen::new();
    let artifact = cg.churn(source("a.huff"), vec![], "600160020100", "6000").unwrap();
    assert_eq!(artifact.bytecode, "60006100068061000f6000396000f3600160020100");
    assert_eq!(artifact.runtime, "600160020100");
    assert_eq!(artifact.file, source("a.huff"));
    assert_eq!(artifact.abi, None);
}

#[test]
fn arguments_are_encoded_and_appended() {
    let mut cg = Codegen::new();
    let args = vec![AbiValue::Uint(number(&[0x12, 0x34])), AbiValue::Bool(true)];
    let artifact = cg.churn(source("a.huff"), args, "ff", "").unwrap();
    let expected = format!(
        "6100018061000d6000396000f3ff{}1234{}01",
        "00".repeat(30),
        "00".repeat(31)
    );
    assert_eq!(artifact.bytecode, expected);
}

#[test]
fn address_argument_is_padded_on_the_left() {
    let mut cg = Codegen::new();
    let args = vec![AbiValue::Address([0xab; 20])];
    let artifact = cg.churn(source("a.huff"), args, "00", "").unwrap();
    assert_eq!(
        artifact.bytecode,
        format!("6100018061000d6000396000f300{}{}", "00".repeat(12), "ab".repeat(20))
    );
}

#[test]
fn encoded_arguments_are_written_in_hexadecimal() {
    let mut cg = Codegen::new();
    let encoded = vec![vec![0x00u8, 0x0f, 0xa0], vec![], vec![0xff]];
    let artifact = cg.churn_encoded(source("a.huff"), &encoded, "ff", "").unwrap();
    assert_eq!(artifact.bytecode, "6100018061000d6000396000f3ff000fa0ff");
    assert_eq!(Codegen::encode_args_hex(&encoded), "000fa0ff");
}

#[test]
fn code_is_put_in_lower_case() {
    let mut cg = Codegen::new();
    let artifact = cg.churn(source("a.huff"), vec![], "60FF", "60AB61xxxx").unwrap();
    assert_eq!(artifact.bytecode, "60ab61xxxx610002806100126000396000f360ff");
    assert_eq!(artifact.runtime, "60ff");
}

#[test]
fn artifact_is_kept_and_its_abi_stays() {
    let mut cg = Codegen::new();
    cg.artifact = Some(Artifact {
        file: source("old.huff"),
        bytecode: "00".to_string(),
        runtime: "00".to_string(),
        abi: Some("[]".to_string()),
    });
    let artifact = cg.churn(source("new.huff"), vec![], "ff", "").unwrap();
    assert_eq!(artifact.abi, Some("[]".to_string()));
    assert_eq!(artifact.file.path, "new.huff");
    assert_eq!(artifact.runtime, "ff");
    assert_eq!(cg.artifact, Some(artifact));
}

#[test]
fn runtime_code_beyond_two_bytes_of_size_fails() {
    let mut cg = Codegen::new();
    let main = "00".repeat(0x10000);
    let r = cg.churn(source("a.huff"), vec![], &main, "");
    assert_eq!(
        r,
        Err(CodegenError { kind: CodegenErrorKind::OffsetOverflow, span: AstSpan(vec![]), token: None })
    );
    assert_eq!(cg.artifact, None);
}

#[test]
fn largest_sizes_that_fit() {
    let mut cg = Codegen::new();
    let main = "00".repeat(0xffff);
    let constructor = "00".repeat(0xffff - 13);
    let artifact = cg.churn(source("a.huff"), vec![], &main, &constructor).unwrap();
    let at = 2 * (0xffff - 13);
    assert_eq!(&artifact.bytecode[at..at + 26], "61ffff8061ffff6000396000f3");
    assert_eq!(artifact.bytecode.len(), at + 26 + 2 * 0xffff);
}

#[test]
fn constructor_whose_offset_does_not_fit_fails() {
    let mut cg = Codegen::new();
    let constructor = "00".repeat(0xffff - 12);
    let r = cg.churn(source("a.huff"), vec![], "00", &constructor);
    assert_eq!(
        r,
        Err(CodegenError { kind: CodegenErrorKind::OffsetOverflow, span: AstSpan(vec![]), token: None })
    );
}

#[test]
fn copies_are_equal() {
    let a = Artifact {
        file: source("a.huff"),
        bytecode: "01".to_string(),
        runtime: "02".to_string(),
        abi: Some("{}".to_string()),
    };
    assert_eq!(a.duplicate(), a);
    assert_eq!(source("x").duplicate(), source("x"));
    assert_eq!(Artifact::empty().bytecode, "");
    assert_eq!(FileSource::empty().path, "");
}

#[test]
fn abi_is_kept_in_the_artifact() {
    let mut cg = Codegen::new();
    assert_eq!(cg.abi_gen("[1]".to_string()), "[1]");
    let made = cg.artifact.clone().unwrap();
    assert_eq!(made.abi, Some("[1]".to_string()));
    assert_eq!(made.bytecode, "");
    assert_eq!(made.file, FileSource::empty());
    let artifact = cg.churn(source("a.huff"), vec![], "ff", "").unwrap();
    assert_eq!(artifact.abi, Some("[1]".to_string()));
    assert_eq!(cg.abi_gen("[2]".to_string()), "[2]");
    let again = cg.artifact.clone().unwrap();
    assert_eq!(again.abi, Some("[2]".to_string()));
    assert_eq!(again.runtime, "ff");
    assert_eq!(again.file, source("a.huff"));
}

#[test]
fn default_generator_holds_nothing() {
    assert_eq!(Codegen::default(), Codegen::new());
}

#[test]
fn dynamic_array_is_encoded_with_offset_and_length() {
    let args = vec![AbiValue::Array(vec![
        AbiValue::Uint(number(&[1])),
        AbiValue::Uint(number(&[2])),
    ])];
    assert_eq!(deployed(args), [word(&[0x20]), word(&[2]), word(&[1]), word(&[2])].concat());
}

#[test]
fn fixed_array_and_tuple_of_static_values_are_encoded_in_place() {
    let fixed = AbiValue::FixedArray(vec![AbiValue::Bool(true), AbiValue::Bool(false)]);
    let tuple = AbiValue::Tuple(vec![AbiValue::Int([0xff; 32]), AbiValue::Address([0x11; 20])]);
    assert_eq!(deployed(vec![fixed]), [word(&[1]), word(&[0])].concat());
    assert_eq!(
        deployed(vec![tuple]),
        format!("{}{}{}", "ff".repeat(32), "00".repeat(12), "11".repeat(20))
    );
}

#[test]
fn text_and_bytes_are_encoded_with_offset_and_length() {
    let text = format!("{}{}6869{}", word(&[0x20]), word(&[2]), "00".repeat(30));
    assert_eq!(deployed(vec![AbiValue::String("hi".to_string())]), text);
    assert_eq!(deployed(vec![AbiValue::Bytes(vec![0x68, 0x69])]), text);
    assert_eq!(
        deployed(vec![AbiValue::FixedBytes(vec![0xde, 0xad])]),
        format!("dead{}", "00".repeat(30))
    );
}

#[test]
fn each_argument_is_encoded_by_itself() {
    let args = vec![AbiValue::String("a".to_string()), AbiValue::Uint(number(&[7]))];
    let expected = format!(
        "{}{}61{}{}",
        word(&[0x20]),
        word(&[1]),
        "00".repeat(31),
        word(&[7])
    );
    assert_eq!(deployed(args), expected);
}

#[test]
fn weight_counts_the_value_its_data_and_what_it_holds() {
    assert_eq!(AbiValue::Bool(true).weight_within(96), Some(96));
    assert_eq!(AbiValue::Bool(true).weight_within(95), None);
    assert_eq!(AbiValue::Bytes(vec![0; 10]).weight_within(1000), Some(106));
    assert_eq!(AbiValue::String("é".to_string()).weight_within(1000), Some(98));
    let nested = AbiValue::Array(vec![
        AbiValue::Uint(number(&[1])),
        AbiValue::Tuple(vec![AbiValue::FixedBytes(vec![1, 2, 3])]),
    ]);
    assert_eq!(nested.weight_within(1000), Some(96 + 96 + 96 + 99));
    assert_eq!(nested.weight_within(386), None);
    assert_eq!(nested.weight_within(387), Some(387));
}

#[test]
fn value_beyond_the_bound_is_not_encodable() {
    assert!(AbiValue::Bytes(vec![0; MAX_ENCODED_LEN - 96]).is_encodable());
    assert!(!AbiValue::Bytes(vec![0; MAX_ENCODED_LEN - 95]).is_encodable());
    let half = || AbiValue::Bytes(vec![0; MAX_ENCODED_LEN / 2]);
    assert!(!AbiValue::Array(vec![half(), half()]).is_encodable());
    assert!(AbiValue::Array(vec![]).is_encodable());
}
