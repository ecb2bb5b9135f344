//! The EVM instruction set by mnemonic.

use crate::hex::str_eq;
use vstd::prelude::*;

verus! {
/// The opcode of one of the arithmetic instructions, by its mnemonic.
pub open spec fn arithmetic_opcode(name: Seq<char>) -> Option<u8> {
    if name == "stop"@ {
        Some(0x00u8)
    } else if name == "add"@ {
        Some(0x01u8)
    } else if name == "mul"@ {
        Some(0x02u8)
    } else if name == "sub"@ {
        Some(0x03u8)
    } else if name == "div"@ {
        Some(0x04u8)
    } else if name == "sdiv"@ {
        Some(0x05u8)
    } else if name == "mod"@ {
        Some(0x06u8)
    } else if name == "smod"@ {
        Some(0x07u8)
    } else if name == "addmod"@ {
        Some(0x08u8)
    } else if name == "mulmod"@ {
        Some(0x09u8)
    } else if name == "exp"@ {
        Some(0x0au8)
    } else if name == "signextend"@ {
        Some(0x0bu8)
    } else {
        None
    }
}

/// The opcode of the mnemonic `name` among those of `arithmetic_opcode`.
fn arithmetic_opcode_from_str(name: &str) -> (r: Option<u8>)
    ensures
        r == arithmetic_opcode(name@),
{
    if str_eq(name, "stop") {
        Some(0x00u8)
    } else if str_eq(name, "add") {
        Some(0x01u8)
    } else if str_eq(name, "mul") {
        Some(0x02u8)
    } else if str_eq(name, "sub") {
        Some(0x03u8)
    } else if str_eq(name, "div") {
        Some(0x04u8)
    } else if str_eq(name, "sdiv") {
        Some(0x05u8)
    } else if str_eq(name, "mod") {
        Some(0x06u8)
    } else if str_eq(name, "smod") {
        Some(0x07u8)
    } else if str_eq(name, "addmod") {
        Some(0x08u8)
    } else if str_eq(name, "mulmod") {
        Some(0x09u8)
    } else if str_eq(name, "exp") {
        Some(0x0au8)
    } else if str_eq(name, "signextend") {
        Some(0x0bu8)
    } else {
        None
    }
}

/// The opcode of one of the comparisons and the bitwise instructions, by its mnemonic.
pub open spec fn comparison_opcode(name: Seq<char>) -> Option<u8> {
    if name == "lt"@ {
        Some(0x10u8)
    } else if name == "gt"@ {
        Some(0x11u8)
    } else if name == "slt"@ {
        Some(0x12u8)
    } else if name == "sgt"@ {
        Some(0x13u8)
    } else if name == "eq"@ {
        Some(0x14u8)
    } else if name == "iszero"@ {
        Some(0x15u8)
    } else if name == "and"@ {
        Some(0x16u8)
    } else if name == "or"@ {
        Some(0x17u8)
    } else if name == "xor"@ {
        Some(0x18u8)
    } else if name == "not"@ {
        Some(0x19u8)
    } else if name == "byte"@ {
        Some(0x1au8)
    } else if name == "shl"@ {
        Some(0x1bu8)
    } else if name == "shr"@ {
        Some(0x1cu8)
    } else if name == "sar"@ {
        Some(0x1du8)
    } else if name == "sha3"@ {
        Some(0x20u8)
    } else {
        None
    }
}

/// The opcode of the mnemonic `name` among those of `comparison_opcode`.
fn comparison_opcode_from_str(name: &str) -> (r: Option<u8>)
    ensures
        r == comparison_opcode(name@),
{
    if str_eq(name, "lt") {
        Some(0x10u8)
    } else if str_eq(name, "gt") {
        Some(0x11u8)
    } else if str_eq(name, "slt") {
        Some(0x12u8)
    } else if str_eq(name, "sgt") {
        Some(0x13u8)
    } else if str_eq(name, "eq") {
        Some(0x14u8)
    } else if str_eq(name, "iszero") {
        Some(0x15u8)
    } else if str_eq(name, "and") {
        Some(0x16u8)
    } else if str_eq(name, "or") {
        Some(0x17u8)
    } else if str_eq(name, "xor") {
        Some(0x18u8)
    } else if str_eq(name, "not") {
        Some(0x19u8)
    } else if str_eq(name, "byte") {
        Some(0x1au8)
    } else if str_eq(name, "shl") {
        Some(0x1bu8)
    } else if str_eq(name, "shr") {
        Some(0x1cu8)
    } else if str_eq(name, "sar") {
        Some(0x1du8)
    } else if str_eq(name, "sha3") {
        Some(0x20u8)
    } else {
        None
    }
}

/// The opcode of one of the instructions that read the call and the accounts, by its mnemonic.
pub open spec fn environment_opcode(name: Seq<char>) -> Option<u8> {
    if name == "address"@ {
        Some(0x30u8)
    } else if name == "balance"@ {
        Some(0x31u8)
    } else if name == "origin"@ {
        Some(0x32u8)
    } else if name == "caller"@ {
        Some(0x33u8)
    } else if name == "callvalue"@ {
        Some(0x34u8)
    } else if name == "calldataload"@ {
        Some(0x35u8)
    } else if name == "calldatasize"@ {
        Some(0x36u8)
    } else if name == "calldatacopy"@ {
        Some(0x37u8)
    } else if name == "codesize"@ {
        Some(0x38u8)
    } else if name == "codecopy"@ {
        Some(0x39u8)
    } else if name == "gasprice"@ {
        Some(0x3au8)
    } else if name == "extcodesize"@ {
        Some(0x3bu8)
    } else if name == "extcodecopy"@ {
        Some(0x3cu8)
    } else if name == "returndatasize"@ {
        Some(0x3du8)
    } else if name == "returndatacopy"@ {
        Some(0x3eu8)
    } else if name == "extcodehash"@ {
        Some(0x3fu8)
    } else {
        None
    }
}

/// The opcode of the mnemonic `name` among those of `environment_opcode`.
fn environment_opcode_from_str(name: &str) -> (r: Option<u8>)
    ensures
        r == environment_opcode(name@),
{
    if str_eq(name, "address") {
        Some(0x30u8)
    } else if str_eq(name, "balance") {
        Some(0x31u8)
    } else if str_eq(name, "origin") {
        Some(0x32u8)
    } else if str_eq(name, "caller") {
        Some(0x33u8)
    } else if str_eq(name, "callvalue") {
        Some(0x34u8)
    } else if str_eq(name, "calldataload") {
        Some(0x35u8)
    } else if str_eq(name, "calldatasize") {
        Some(0x36u8)
    } else if str_eq(name, "calldatacopy") {
        Some(0x37u8)
    } else if str_eq(name, "codesize") {
        Some(0x38u8)
    } else if str_eq(name, "codecopy") {
        Some(0x39u8)
    } else if str_eq(name, "gasprice") {
        Some(0x3au8)
    } else if str_eq(name, "extcodesize") {
        Some(0x3bu8)
    } else if str_eq(name, "extcodecopy") {
        Some(0x3cu8)
    } else if str_eq(name, "returndatasize") {
        Some(0x3du8)
    } else if str_eq(name, "returndatacopy") {
        Some(0x3eu8)
    } else if str_eq(name, "extcodehash") {
        Some(0x3fu8)
    } else {
        None
    }
}

/// The opcode of one of the instructions that read the block, by its mnemonic.
pub open spec fn block_opcode(name: Seq<char>) -> Option<u8> {
    if name == "blockhash"@ {
        Some(0x40u8)
    } else if name == "coinbase"@ {
        Some(0x41u8)
    } else if name == "timestamp"@ {
        Some(0x42u8)
    } else if name == "number"@ {
        Some(0x43u8)
    } else if name == "difficulty"@ {
        Some(0x44u8)
    } else if name == "gaslimit"@ {
        Some(0x45u8)
    } else if name == "chainid"@ {
        Some(0x46u8)
    } else if name == "selfbalance"@ {
        Some(0x47u8)
    } else {
        None
    }
}

/// The opcode of the mnemonic `name` among those of `block_opcode`.
fn block_opcode_from_str(name: &str) -> (r: Option<u8>)
    ensures
        r == block_opcode(name@),
{
    if str_eq(name, "blockhash") {
        Some(0x40u8)
    } else if str_eq(name, "coinbase") {
        Some(0x41u8)
    } else if str_eq(name, "timestamp") {
        Some(0x42u8)
    } else if str_eq(name, "number") {
        Some(0x43u8)
    } else if str_eq(name, "difficulty") {
        Some(0x44u8)
    } else if str_eq(name, "gaslimit") {
        Some(0x45u8)
    } else if str_eq(name, "chainid") {
        Some(0x46u8)
    } else if str_eq(name, "selfbalance") {
        Some(0x47u8)
    } else {
        None
    }
}

/// The opcode of one of the instructions on stack, memory, storage and control flow, by its mnemonic.
pub open spec fn memory_opcode(name: Seq<char>) -> Option<u8> {
    if name == "pop"@ {
        Some(0x50u8)
    } else if name == "mload"@ {
        Some(0x51u8)
    } else if name == "mstore"@ {
        Some(0x52u8)
    } else if name == "mstore8"@ {
        Some(0x53u8)
    } else if name == "sload"@ {
        Some(0x54u8)
    } else if name == "sstore"@ {
        Some(0x55u8)
    } else if name == "jump"@ {
        Some(0x56u8)
    } else if name == "jumpi"@ {
        Some(0x57u8)
    } else if name == "pc"@ {
        Some(0x58u8)
    } else if name == "msize"@ {
        Some(0x59u8)
    } else if name == "gas"@ {
        Some(0x5au8)
    } else if name == "jumpdest"@ {
        Some(0x5bu8)
    } else {
        None
    }
}

/// The opcode of the mnemonic `name` among those of `memory_opcode`.
fn memory_opcode_from_str(name: &str) -> (r: Option<u8>)
    ensures
        r == memory_opcode(name@),
{
    if str_eq(name, "pop") {
        Some(0x50u8)
    } else if str_eq(name, "mload") {
        Some(0x51u8)
    } else if str_eq(name, "mstore") {
        Some(0x52u8)
    } else if str_eq(name, "mstore8") {
        Some(0x53u8)
    } else if str_eq(name, "sload") {
        Some(0x54u8)
    } else if str_eq(name, "sstore") {
        Some(0x55u8)
    } else if str_eq(name, "jump") {
        Some(0x56u8)
    } else if str_eq(name, "jumpi") {
        Some(0x57u8)
    } else if str_eq(name, "pc") {
        Some(0x58u8)
    } else if str_eq(name, "msize") {
        Some(0x59u8)
    } else if str_eq(name, "gas") {
        Some(0x5au8)
    } else if str_eq(name, "jumpdest") {
        Some(0x5bu8)
    } else {
        None
    }
}

/// The opcode of one of the push instructions, by its mnemonic.
pub open spec fn push_opcode(name: Seq<char>) -> Option<u8> {
    if name == "push1"@ {
        Some(0x60u8)
    } else if name == "push2"@ {
        Some(0x61u8)
    } else if name == "push3"@ {
        Some(0x62u8)
    } else if name == "push4"@ {
        Some(0x63u8)
    } else if name == "push5"@ {
        Some(0x64u8)
    } else if name == "push6"@ {
        Some(0x65u8)
    } else if name == "push7"@ {
        Some(0x66u8)
    } else if name == "push8"@ {
        Some(0x67u8)
    } else if name == "push9"@ {
        Some(0x68u8)
    } else if name == "push10"@ {
        Some(0x69u8)
    } else if name == "push11"@ {
        Some(0x6au8)
    } else if name == "push12"@ {
        Some(0x6bu8)
    } else if name == "push13"@ {
        Some(0x6cu8)
    } else if name == "push14"@ {
        Some(0x6du8)
    } else if name == "push15"@ {
        Some(0x6eu8)
    } else if name == "push16"@ {
        Some(0x6fu8)
    } else if name == "push17"@ {
        Some(0x70u8)
    } else if name == "push18"@ {
        Some(0x71u8)
    } else if name == "push19"@ {
        Some(0x72u8)
    } else if name == "push20"@ {
        Some(0x73u8)
    } else if name == "push21"@ {
        Some(0x74u8)
    } else if name == "push22"@ {
        Some(0x75u8)
    } else if name == "push23"@ {
        Some(0x76u8)
    } else if name == "push24"@ {
        Some(0x77u8)
    } else if name == "push25"@ {
        Some(0x78u8)
    } else if name == "push26"@ {
        Some(0x79u8)
    } else if name == "push27"@ {
        Some(0x7au8)
    } else if name == "push28"@ {
        Some(0x7bu8)
    } else if name == "push29"@ {
        Some(0x7cu8)
    } else if name == "push30"@ {
        Some(0x7du8)
    } else if name == "push31"@ {
        Some(0x7eu8)
    } else if name == "push32"@ {
        Some(0x7fu8)
    } else {
        None
    }
}

/// The opcode of the mnemonic `name` among those of `push_opcode`.
fn push_opcode_from_str(name: &str) -> (r: Option<u8>)
    ensures
        r == push_opcode(name@),
{
    if str_eq(name, "push1") {
        Some(0x60u8)
    } else if str_eq(name, "push2") {
        Some(0x61u8)
    } else if str_eq(name, "push3") {
        Some(0x62u8)
    } else if str_eq(name, "push4") {
        Some(0x63u8)
    } else if str_eq(name, "push5") {
        Some(0x64u8)
    } else if str_eq(name, "push6") {
        Some(0x65u8)
    } else if str_eq(name, "push7") {
        Some(0x66u8)
    } else if str_eq(name, "push8") {
        Some(0x67u8)
    } else if str_eq(name, "push9") {
        Some(0x68u8)
    } else if str_eq(name, "push10") {
        Some(0x69u8)
    } else if str_eq(name, "push11") {
        Some(0x6au8)
    } else if str_eq(name, "push12") {
        Some(0x6bu8)
    } else if str_eq(name, "push13") {
        Some(0x6cu8)
    } else if str_eq(name, "push14") {
        Some(0x6du8)
    } else if str_eq(name, "push15") {
        Some(0x6eu8)
    } else if str_eq(name, "push16") {
        Some(0x6fu8)
    } else if str_eq(name, "push17") {
        Some(0x70u8)
    } else if str_eq(name, "push18") {
        Some(0x71u8)
    } else if str_eq(name, "push19") {
        Some(0x72u8)
    } else if str_eq(name, "push20") {
        Some(0x73u8)
    } else if str_eq(name, "push21") {
        Some(0x74u8)
    } else if str_eq(name, "push22") {
        Some(0x75u8)
    } else if str_eq(name, "push23") {
        Some(0x76u8)
    } else if str_eq(name, "push24") {
        Some(0x77u8)
    } else if str_eq(name, "push25") {
        Some(0x78u8)
    } else if str_eq(name, "push26") {
        Some(0x79u8)
    } else if str_eq(name, "push27") {
        Some(0x7au8)
    } else if str_eq(name, "push28") {
        Some(0x7bu8)
    } else if str_eq(name, "push29") {
        Some(0x7cu8)
    } else if str_eq(name, "push30") {
        Some(0x7du8)
    } else if str_eq(name, "push31") {
        Some(0x7eu8)
    } else if str_eq(name, "push32") {
        Some(0x7fu8)
    } else {
        None
    }
}

/// The opcode of one of the instructions that duplicate a stack item, by its mnemonic.
pub open spec fn dup_opcode(name: Seq<char>) -> Option<u8> {
    if name == "dup1"@ {
        Some(0x80u8)
    } else if name == "dup2"@ {
        Some(0x81u8)
    } else if name == "dup3"@ {
        Some(0x82u8)
    } else if name == "dup4"@ {
        Some(0x83u8)
    } else if name == "dup5"@ {
        Some(0x84u8)
    } else if name == "dup6"@ {
        Some(0x85u8)
    } else if name == "dup7"@ {
        Some(0x86u8)
    } else if name == "dup8"@ {
        Some(0x87u8)
    } else if name == "dup9"@ {
        Some(0x88u8)
    } else if name == "dup10"@ {
        Some(0x89u8)
    } else if name == "dup11"@ {
        Some(0x8au8)
    } else if name == "dup12"@ {
        Some(0x8bu8)
    } else if name == "dup13"@ {
        Some(0x8cu8)
    } else if name == "dup14"@ {
        Some(0x8du8)
    } else if name == "dup15"@ {
        Some(0x8eu8)
    } else if name == "dup16"@ {
        Some(0x8fu8)
    } else {
        None
    }
}

/// The opcode of the mnemonic `name` among those of `dup_opcode`.
fn dup_opcode_from_str(name: &str) -> (r: Option<u8>)
    ensures
        r == dup_opcode(name@),
{
    if str_eq(name, "dup1") {
        Some(0x80u8)
    } else if str_eq(name, "dup2") {
        Some(0x81u8)
    } else if str_eq(name, "dup3") {
        Some(0x82u8)
    } else if str_eq(name, "dup4") {
        Some(0x83u8)
    } else if str_eq(name, "dup5") {
        Some(0x84u8)
    } else if str_eq(name, "dup6") {
        Some(0x85u8)
    } else if str_eq(name, "dup7") {
        Some(0x86u8)
    } else if str_eq(name, "dup8") {
        Some(0x87u8)
    } else if str_eq(name, "dup9") {
        Some(0x88u8)
    } else if str_eq(name, "dup10") {
        Some(0x89u8)
    } else if str_eq(name, "dup11") {
        Some(0x8au8)
    } else if str_eq(name, "dup12") {
        Some(0x8bu8)
    } else if str_eq(name, "dup13") {
        Some(0x8cu8)
    } else if str_eq(name, "dup14") {
        Some(0x8du8)
    } else if str_eq(name, "dup15") {
        Some(0x8eu8)
    } else if str_eq(name, "dup16") {
        Some(0x8fu8)
    } else {
        None
    }
}

/// The opcode of one of the instructions that exchange stack items, by its mnemonic.
pub open spec fn swap_opcode(name: Seq<char>) -> Option<u8> {
    if name == "swap1"@ {
        Some(0x90u8)
    } else if name == "swap2"@ {
        Some(0x91u8)
    } else if name == "swap3"@ {
        Some(0x92u8)
    } else if name == "swap4"@ {
        Some(0x93u8)
    } else if name == "swap5"@ {
        Some(0x94u8)
    } else if name == "swap6"@ {
        Some(0x95u8)
    } else if name == "swap7"@ {
        Some(0x96u8)
    } else if name == "swap8"@ {
        Some(0x97u8)
    } else if name == "swap9"@ {
        Some(0x98u8)
    } else if name == "swap10"@ {
        Some(0x99u8)
    } else if name == "swap11"@ {
        Some(0x9au8)
    } else if name == "swap12"@ {
        Some(0x9bu8)
    } else if name == "swap13"@ {
        Some(0x9cu8)
    } else if name == "swap14"@ {
        Some(0x9du8)
    } else if name == "swap15"@ {
        Some(0x9eu8)
    } else if name == "swap16"@ {
        Some(0x9fu8)
    } else {
        None
    }
}

/// The opcode of the mnemonic `name` among those of `swap_opcode`.
fn swap_opcode_from_str(name: &str) -> (r: Option<u8>)
    ensures
        r == swap_opcode(name@),
{
    if str_eq(name, "swap1") {
        Some(0x90u8)
    } else if str_eq(name, "swap2") {
        Some(0x91u8)
    } else if str_eq(name, "swap3") {
        Some(0x92u8)
    } else if str_eq(name, "swap4") {
        Some(0x93u8)
    } else if str_eq(name, "swap5") {
        Some(0x94u8)
    } else if str_eq(name, "swap6") {
        Some(0x95u8)
    } else if str_eq(name, "swap7") {
        Some(0x96u8)
    } else if str_eq(name, "swap8") {
        Some(0x97u8)
    } else if str_eq(name, "swap9") {
        Some(0x98u8)
    } else if str_eq(name, "swap10") {
        Some(0x99u8)
    } else if str_eq(name, "swap11") {
        Some(0x9au8)
    } else if str_eq(name, "swap12") {
        Some(0x9bu8)
    } else if str_eq(name, "swap13") {
        Some(0x9cu8)
    } else if str_eq(name, "swap14") {
        Some(0x9du8)
    } else if str_eq(name, "swap15") {
        Some(0x9eu8)
    } else if str_eq(name, "swap16") {
        Some(0x9fu8)
    } else {
        None
    }
}

/// The opcode of one of the logging and the system instructions, by its mnemonic.
pub open spec fn system_opcode(name: Seq<char>) -> Option<u8> {
    if name == "log0"@ {
        Some(0xa0u8)
    } else if name == "log1"@ {
        Some(0xa1u8)
    } else if name == "log2"@ {
        Some(0xa2u8)
    } else if name == "log3"@ {
        Some(0xa3u8)
    } else if name == "log4"@ {
        Some(0xa4u8)
    } else if name == "create"@ {
        Some(0xf0u8)
    } else if name == "call"@ {
        Some(0xf1u8)
    } else if name == "callcode"@ {
        Some(0xf2u8)
    } else if name == "return"@ {
        Some(0xf3u8)
    } else if name == "delegatecall"@ {
        Some(0xf4u8)
    } else if name == "create2"@ {
        Some(0xf5u8)
    } else if name == "staticcall"@ {
        Some(0xfau8)
    } else if name == "revert"@ {
        Some(0xfdu8)
    } else if name == "invalid"@ {
        Some(0xfeu8)
    } else if name == "selfdestruct"@ {
        Some(0xffu8)
    } else {
        None
    }
}

/// The opcode of the mnemonic `name` among those of `system_opcode`.
fn system_opcode_from_str(name: &str) -> (r: Option<u8>)
    ensures
        r == system_opcode(name@),
{
    if str_eq(name, "log0") {
        Some(0xa0u8)
    } else if str_eq(name, "log1") {
        Some(0xa1u8)
    } else if str_eq(name, "log2") {
        Some(0xa2u8)
    } else if str_eq(name, "log3") {
        Some(0xa3u8)
    } else if str_eq(name, "log4") {
        Some(0xa4u8)
    } else if str_eq(name, "create") {
        Some(0xf0u8)
    } else if str_eq(name, "call") {
        Some(0xf1u8)
    } else if str_eq(name, "callcode") {
        Some(0xf2u8)
    } else if str_eq(name, "return") {
        Some(0xf3u8)
    } else if str_eq(name, "delegatecall") {
        Some(0xf4u8)
    } else if str_eq(name, "create2") {
        Some(0xf5u8)
    } else if str_eq(name, "staticcall") {
        Some(0xfau8)
    } else if str_eq(name, "revert") {
        Some(0xfdu8)
    } else if str_eq(name, "invalid") {
        Some(0xfeu8)
    } else if str_eq(name, "selfdestruct") {
        Some(0xffu8)
    } else {
        None
    }
}

/// The opcode that the mnemonic `name` stands for, if it is one.
pub open spec fn opcode_of(name: Seq<char>) -> Option<u8> {
    if arithmetic_opcode(name) is Some {
        arithmetic_opcode(name)
    } else if comparison_opcode(name) is Some {
        comparison_opcode(name)
    } else if environment_opcode(name) is Some {
        environment_opcode(name)
    } else if block_opcode(name) is Some {
        block_opcode(name)
    } else if memory_opcode(name) is Some {
        memory_opcode(name)
    } else if push_opcode(name) is Some {
        push_opcode(name)
    } else if dup_opcode(name) is Some {
        dup_opcode(name)
    } else if swap_opcode(name) is Some {
        swap_opcode(name)
    } else {
        system_opcode(name)
    }
}

/// The opcode that the mnemonic `name` stands for, if it is one. Mnemonics are written
/// in lower case.
pub fn opcode_from_str(name: &str) -> (r: Option<u8>)
    ensures
        r == opcode_of(name@),
{
    let found = arithmetic_opcode_from_str(name);
    if found.is_some() {
        return found;
    }
    let found = comparison_opcode_from_str(name);
    if found.is_some() {
        return found;
    }
    let found = environment_opcode_from_str(name);
    if found.is_some() {
        return found;
    }
    let found = block_opcode_from_str(name);
    if found.is_some() {
        return found;
    }
    let found = memory_opcode_from_str(name);
    if found.is_some() {
        return found;
    }
    let found = push_opcode_from_str(name);
    if found.is_some() {
        return found;
    }
    let found = dup_opcode_from_str(name);
    if found.is_some() {
        return found;
    }
    let found = swap_opcode_from_str(name);
    if found.is_some() {
        return found;
    }
    system_opcode_from_str(name)
}

} // verus!
