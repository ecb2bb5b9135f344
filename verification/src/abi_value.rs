//! The values that are handed to a constructor, as the contract ABI knows them.

use vstd::prelude::*;

verus! {

/// A value of the contract ABI.
#[derive(Debug, PartialEq, Eq)]
pub enum AbiValue {
    /// An address of 20 bytes.
    Address([u8; 20]),
    /// Bytes whose number is part of the type.
    FixedBytes(Vec<u8>),
    /// Bytes of any number.
    Bytes(Vec<u8>),
    /// A signed integer of 256 bits, most significant byte first.
    Int([u8; 32]),
    /// An unsigned integer of 256 bits, most significant byte first.
    Uint([u8; 32]),
    /// A truth value.
    Bool(bool),
    /// A text.
    String(String),
    /// An array whose length is part of the type.
    FixedArray(Vec<AbiValue>),
    /// An array of any length.
    Array(Vec<AbiValue>),
    /// A tuple.
    Tuple(Vec<AbiValue>),
}

/// The view of a value of the contract ABI.
pub enum AbiValueView {
    Address(Seq<u8>),
    FixedBytes(Seq<u8>),
    Bytes(Seq<u8>),
    Int(Seq<u8>),
    Uint(Seq<u8>),
    Bool(bool),
    String(Seq<char>),
    FixedArray(Seq<AbiValueView>),
    Array(Seq<AbiValueView>),
    Tuple(Seq<AbiValueView>),
}

/// The views of a list of values.
pub open spec fn values_view(values: Seq<AbiValue>) -> Seq<AbiValueView>
    decreases values,
{
    if values.len() == 0 {
        Seq::empty()
    } else {
        values_view(values.drop_last()).push(values.last()@)
    }
}

impl View for AbiValue {
    type V = AbiValueView;

    open spec fn view(&self) -> AbiValueView
        decreases self,
    {
        match self {
            AbiValue::Address(a) => AbiValueView::Address(a@),
            AbiValue::FixedBytes(b) => AbiValueView::FixedBytes(b@),
            AbiValue::Bytes(b) => AbiValueView::Bytes(b@),
            AbiValue::Int(i) => AbiValueView::Int(i@),
            AbiValue::Uint(u) => AbiValueView::Uint(u@),
            AbiValue::Bool(b) => AbiValueView::Bool(*b),
            AbiValue::String(s) => AbiValueView::String(s@),
            AbiValue::FixedArray(v) => AbiValueView::FixedArray(values_view(v@)),
            AbiValue::Array(v) => AbiValueView::Array(values_view(v@)),
            AbiValue::Tuple(v) => AbiValueView::Tuple(values_view(v@)),
        }
    }
}

/// The largest weight of a value that is handed to the ABI encoder.
pub const MAX_ENCODED_LEN: usize = 0xff_ffff;

/// A bound on the number of bytes that the ABI encoding of a value takes: 96 bytes
/// for the value itself, its data, and the weights of the values that it holds.
pub open spec fn weight(value: AbiValueView) -> nat
    decreases value,
{
    match value {
        AbiValueView::Address(_) => 96,
        AbiValueView::FixedBytes(b) => 96 + b.len(),
        AbiValueView::Bytes(b) => 96 + b.len(),
        AbiValueView::Int(_) => 96,
        AbiValueView::Uint(_) => 96,
        AbiValueView::Bool(_) => 96,
        AbiValueView::String(s) => 96 + vstd::utf8::encode_utf8(s).len(),
        AbiValueView::FixedArray(values) => 96 + weights(values),
        AbiValueView::Array(values) => 96 + weights(values),
        AbiValueView::Tuple(values) => 96 + weights(values),
    }
}

/// The weights of a list of values together.
pub open spec fn weights(values: Seq<AbiValueView>) -> nat
    decreases values,
{
    if values.len() == 0 {
        0
    } else {
        weights(values.drop_last()) + weight(values.last())
    }
}

/// Whether a value is small enough for the ABI encoder, which counts the bytes of an
/// encoding in 32 bits.
pub open spec fn encodable(value: AbiValueView) -> bool {
    weight(value) <= MAX_ENCODED_LEN
}

/// The views of one value more are the views so far and the view of that value.
pub proof fn lemma_values_view_take(values: Seq<AbiValue>, i: int)
    requires
        0 <= i < values.len(),
    ensures
        values_view(values.take(i + 1)) == values_view(values.take(i)).push(values[i]@),
        weights(values_view(values.take(i + 1))) == weights(values_view(values.take(i))) + weight(
            values[i]@,
        ),
{
    assert(values.take(i + 1).drop_last() =~= values.take(i));
    assert(values_view(values.take(i)).push(values[i]@).drop_last() =~= values_view(
        values.take(i),
    ));
}

/// The values of a part of a list weigh no more than those of the whole list.
pub proof fn lemma_weights_grow(values: Seq<AbiValue>, i: int)
    requires
        0 <= i <= values.len(),
    ensures
        weights(values_view(values.take(i))) <= weights(values_view(values)),
    decreases values.len() - i,
{
    if i == values.len() {
        assert(values.take(i) =~= values);
    } else {
        lemma_values_view_take(values, i);
        lemma_weights_grow(values, i + 1);
    }
}

impl AbiValue {
    /// The weight of the values of `values` together, where it is within `budget`.
    fn weights_within(values: &Vec<AbiValue>, budget: usize) -> (r: Option<usize>)
        ensures
            match r {
                Some(w) => w == weights(values_view(values@)) && w <= budget,
                None => weights(values_view(values@)) > budget,
            },
        decreases values,
    {
        let mut total: usize = 0;
        let mut i: usize = 0;
        assert(values@.take(0) =~= Seq::<AbiValue>::empty());
        while i < values.len()
            invariant
                i <= values.len(),
                total <= budget,
                total == weights(values_view(values@.take(i as int))),
            decreases values.len() - i,
        {
            proof {
                lemma_values_view_take(values@, i as int);
                lemma_weights_grow(values@, i as int + 1);
            }
            match values[i].weight_within(budget - total) {
                Some(w) => {
                    total = total + w;
                },
                None => {
                    return None;
                },
            }
            i += 1;
        }
        assert(values@.take(values.len() as int) =~= values@);
        Some(total)
    }

    /// The weight of this value, where it is within `budget`.
    pub fn weight_within(&self, budget: usize) -> (r: Option<usize>)
        ensures
            match r {
                Some(w) => w == weight(self@) && w <= budget,
                None => weight(self@) > budget,
            },
        decreases self,
    {
        if budget < 96 {
            return None;
        }
        let rest = budget - 96;
        let inner = match self {
            AbiValue::FixedBytes(b) => if b.len() <= rest {
                Some(b.len())
            } else {
                None
            },
            AbiValue::Bytes(b) => if b.len() <= rest {
                Some(b.len())
            } else {
                None
            },
            AbiValue::String(s) => {
                let n = s.as_str().as_bytes().len();
                if n <= rest {
                    Some(n)
                } else {
                    None
                }
            },
            AbiValue::FixedArray(values) => AbiValue::weights_within(values, rest),
            AbiValue::Array(values) => AbiValue::weights_within(values, rest),
            AbiValue::Tuple(values) => AbiValue::weights_within(values, rest),
            _ => Some(0),
        };
        match inner {
            Some(w) => Some(96 + w),
            None => None,
        }
    }

    /// Whether this value is small enough for the ABI encoder.
    pub fn is_encodable(&self) -> (r: bool)
        ensures
            r == encodable(self@),
    {
        self.weight_within(MAX_ENCODED_LEN).is_some()
    }
}

} // verus!
