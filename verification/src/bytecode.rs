//! What an expansion produces: pieces of code with their offsets, the labels that
//! were defined, and the jumps that still await an address.

use crate::ast::Bytes;
use crate::hex::{is_code_str, is_code_text, str_eq};
use std::collections::BTreeMap;
use vstd::prelude::*;

verus! {

/// A jump to a label. `bytecode_index` is a byte offset: in a result, that of the
/// push instruction whose address is still to be written.
#[derive(Debug, Clone, PartialEq, Eq)]
pub struct Jump {
    pub label: String,
    pub bytecode_index: usize,
}

/// The view of a jump.
pub struct JumpView {
    pub label: Seq<char>,
    pub bytecode_index: usize,
}

impl View for Jump {
    type V = JumpView;

    open spec fn view(&self) -> JumpView {
        JumpView { label: self.label@, bytecode_index: self.bytecode_index }
    }
}

/// A list of jumps.
pub type Jumps = Vec<Jump>;

/// The jumps that await an address, by the offset of the piece of code that holds
/// their push instruction.
pub type JumpTable = BTreeMap<usize, Vec<Jump>>;

/// The view of a list of jumps.
pub open spec fn jumps_view(jumps: Seq<Jump>) -> Seq<JumpView> {
    jumps.map_values(|j: Jump| j@)
}

/// The view of a jump table.
pub open spec fn jump_table_view(table: Map<usize, Vec<Jump>>) -> Map<usize, Seq<JumpView>> {
    table.map_values(|v: Vec<Jump>| jumps_view(v@))
}

/// The view of a list of pieces of code.
pub open spec fn pieces_view(pieces: Seq<(usize, Bytes)>) -> Seq<(usize, Seq<char>)> {
    pieces.map_values(|p: (usize, Bytes)| (p.0, p.1@))
}

/// The map that a list of definitions stands for: a later definition of a name
/// replaces an earlier one.
pub open spec fn labels_map(entries: Seq<(Seq<char>, usize)>) -> Map<Seq<char>, usize>
    decreases entries.len(),
{
    if entries.len() == 0 {
        Map::empty()
    } else {
        labels_map(entries.drop_last()).insert(entries.last().0, entries.last().1)
    }
}

/// The definitions of a list, by view.
pub open spec fn label_entries_view(entries: Seq<(String, usize)>) -> Seq<(Seq<char>, usize)> {
    entries.map_values(|e: (String, usize)| (e.0@, e.1))
}

/// Definitions of other names at the end of a list do not change what the list says
/// of `name`.
pub proof fn lemma_labels_map_tail(entries: Seq<(Seq<char>, usize)>, name: Seq<char>, i: int)
    requires
        0 <= i <= entries.len(),
        forall|j: int| i <= j < entries.len() ==> entries[j].0 != name,
    ensures
        labels_map(entries).contains_key(name) == labels_map(entries.take(i)).contains_key(name),
        labels_map(entries).contains_key(name) ==> labels_map(entries)[name] == labels_map(
            entries.take(i),
        )[name],
    decreases entries.len() - i,
{
    if i == entries.len() {
        assert(entries.take(i) =~= entries);
    } else {
        let front = entries.drop_last();
        assert(front.take(i) =~= entries.take(i));
        lemma_labels_map_tail(front, name, i);
    }
}

/// The map of two lists of definitions, one after the other, is the map of the first
/// with the second laid over it.
pub proof fn lemma_labels_map_concat(a: Seq<(Seq<char>, usize)>, b: Seq<(Seq<char>, usize)>)
    ensures
        labels_map(a + b) == labels_map(a).union_prefer_right(labels_map(b)),
    decreases b.len(),
{
    if b.len() == 0 {
        assert(a + b =~= a);
        assert(labels_map(a).union_prefer_right(labels_map(b)) =~= labels_map(a));
    } else {
        assert((a + b).drop_last() =~= a + b.drop_last());
        lemma_labels_map_concat(a, b.drop_last());
        assert(labels_map(a + b) =~= labels_map(a).union_prefer_right(labels_map(b)));
    }
}

/// The offsets of the labels that were defined, by name.
#[derive(Debug, Clone, PartialEq, Eq)]
pub struct LabelIndices {
    /// The definitions in the order in which they were made.
    pub entries: Vec<(String, usize)>,
}

impl View for LabelIndices {
    type V = Map<Seq<char>, usize>;

    open spec fn view(&self) -> Map<Seq<char>, usize> {
        labels_map(label_entries_view(self.entries@))
    }
}

impl LabelIndices {
    /// No labels.
    pub fn new() -> (r: LabelIndices)
        ensures
            r@ == Map::<Seq<char>, usize>::empty(),
    {
        LabelIndices { entries: Vec::new() }
    }

    /// Records that `name` stands at `offset`. An earlier record of the name is
    /// replaced.
    pub fn insert(&mut self, name: String, offset: usize)
        ensures
            final(self)@ == old(self)@.insert(name@, offset),
    {
        self.entries.push((name, offset));
        proof {
            let now = label_entries_view(self.entries@);
            assert(now.drop_last() =~= label_entries_view(old(self).entries@));
        }
    }

    /// The offset of `name`, if it was recorded.
    pub fn get(&self, name: &str) -> (r: Option<usize>)
        ensures
            r == (if self@.contains_key(name@) {
                Some(self@[name@])
            } else {
                None
            }),
    {
        let ghost all = label_entries_view(self.entries@);
        let mut i: usize = self.entries.len();
        while i > 0
            invariant
                i <= self.entries.len(),
                all == label_entries_view(self.entries@),
                forall|j: int| i <= j < all.len() ==> all[j].0 != name@,
            decreases i,
        {
            i -= 1;
            if str_eq(self.entries[i].0.as_str(), name) {
                proof {
                    lemma_labels_map_tail(all, name@, i as int + 1);
                    assert(all.take(i as int + 1).drop_last() =~= all.take(i as int));
                }
                return Some(self.entries[i].1);
            }
        }
        proof {
            lemma_labels_map_tail(all, name@, 0);
        }
        None
    }

    /// Records all the labels of `other`. Where a name is in both, the offset of
    /// `other` stays.
    pub fn extend(&mut self, other: LabelIndices)
        ensures
            final(self)@ == old(self)@.union_prefer_right(other@),
    {
        let mut other = other;
        let ghost a = label_entries_view(self.entries@);
        let ghost b = label_entries_view(other.entries@);
        self.entries.append(&mut other.entries);
        proof {
            assert(label_entries_view(self.entries@) =~= a + b);
            lemma_labels_map_concat(a, b);
        }
    }
}

/// The result of expanding a macro.
#[derive(Debug, Clone, PartialEq, Eq)]
pub struct BytecodeRes {
    /// The pieces of code in order, each with the byte offset at which it starts.
    pub bytes: Vec<(usize, Bytes)>,
    /// The offsets of the labels that were defined.
    pub label_indices: LabelIndices,
    /// The jumps whose label has not been found.
    pub unmatched_jumps: Jumps,
    /// The places that await the offset of a jump table.
    pub table_instances: Jumps,
}

/// The view of the result of an expansion.
pub struct BytecodeResView {
    pub bytes: Seq<(usize, Seq<char>)>,
    pub label_indices: Map<Seq<char>, usize>,
    pub unmatched_jumps: Seq<JumpView>,
    pub table_instances: Seq<JumpView>,
}

impl View for BytecodeRes {
    type V = BytecodeResView;

    open spec fn view(&self) -> BytecodeResView {
        BytecodeResView {
            bytes: pieces_view(self.bytes@),
            label_indices: self.label_indices@,
            unmatched_jumps: jumps_view(self.unmatched_jumps@),
            table_instances: jumps_view(self.table_instances@),
        }
    }
}

/// Whether every piece is a code text: hexadecimal digits and the `x` of
/// placeholders.
pub open spec fn all_code_text(pieces: Seq<(usize, Seq<char>)>) -> bool {
    forall|i: int| 0 <= i < pieces.len() ==> is_code_text((#[trigger] pieces[i]).1)
}

impl BytecodeRes {
    /// Whether every piece is a code text.
    pub fn is_code(&self) -> (r: bool)
        ensures
            r == all_code_text(self@.bytes),
    {
        let mut i: usize = 0;
        while i < self.bytes.len()
            invariant
                i <= self.bytes.len(),
                forall|j: int| 0 <= j < i ==> is_code_text((#[trigger] self@.bytes[j]).1),
            decreases self.bytes.len() - i,
        {
            proof {
                assert(self@.bytes[i as int] == (self.bytes[i as int].0, self.bytes[i as int].1@));
            }
            if !is_code_str(self.bytes[i].1.0.as_str()) {
                return false;
            }
            i += 1;
        }
        true
    }
}

} // verus!
