//! The calls into the ABI encoder and the hexadecimal encoder.

use crate::abi_value::{encodable, AbiValue, AbiValueView};
use crate::hex::hex_bytes;
use ethers::abi::token::Token;
use ethers::types::{H160, U256};
use vstd::prelude::*;

verus! {

/// A value of the contract ABI, as the ABI encoder defines it. Nothing of what it
/// holds is known here.
#[verifier::external_type_specification]
#[verifier::external_body]
pub struct ExToken(ethers::abi::token::Token);

/// The ABI encoding of a value, as `ethers::abi::encode` gives it for the token that
/// stands for the value.
pub uninterp spec fn abi_encoding(value: AbiValueView) -> Seq<u8>;

/// The token of the ABI encoder that stands for a value: the same variant with the
/// same data, integers read with their most significant byte first.
#[verifier::external_body]
pub(crate) fn to_token(value: &AbiValue) -> (r: ethers::abi::token::Token) {
    match value {
        AbiValue::Address(a) => Token::Address(H160(*a)),
        AbiValue::FixedBytes(b) => Token::FixedBytes(b.clone()),
        AbiValue::Bytes(b) => Token::Bytes(b.clone()),
        AbiValue::Int(i) => Token::Int(U256::from_big_endian(i)),
        AbiValue::Uint(u) => Token::Uint(U256::from_big_endian(u)),
        AbiValue::Bool(b) => Token::Bool(*b),
        AbiValue::String(s) => Token::String(s.clone()),
        AbiValue::FixedArray(v) => Token::FixedArray(to_tokens(v)),
        AbiValue::Array(v) => Token::Array(to_tokens(v)),
        AbiValue::Tuple(v) => Token::Tuple(to_tokens(v)),
    }
}

/// The tokens of the ABI encoder that stand for the values of a list, in order.
#[verifier::external_body]
pub(crate) fn to_tokens(values: &Vec<AbiValue>) -> (r: Vec<ethers::abi::token::Token>) {
    values.iter().map(to_token).collect()
}

/// The ABI encoding of one value, by `ethers::abi::encode` on the token that stands
/// for it.
///
/// The encoder counts the bytes of the encoding in 32 bits and reserves 32 bytes
/// for each of them; a value that is encodable weighs less than 16 MiB, which keeps
/// every count within 32 bits.
#[verifier::external_body]
pub(crate) fn abi_encode(value: &AbiValue) -> (r: Vec<u8>)
    requires
        encodable(value@),
    ensures
        r@ == abi_encoding(value@),
{
    ethers::abi::encode(&[to_token(value)])
}

/// The text of a byte string, by `hex::encode`: two lower-case hexadecimal digits
/// for each byte, in order.
#[verifier::external_body]
pub(crate) fn hex_encode(data: &Vec<u8>) -> (r: String)
    ensures
        r@ == hex_bytes(data@),
{
    ::hex::encode(data)
}

} // verus!
