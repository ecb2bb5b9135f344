//! The depth of nesting: an expansion that succeeds within a depth is the same within
//! every greater depth.

use crate::ast::{
    BuiltinFunctionKind, ContractView, IRByteTypeView, MacroDefinitionView, StatementView,
};
use crate::model::{expand_traced, start, step, walk, Emission, Invocations, Scope};
use vstd::prelude::*;

verus! {

/// An expansion that succeeds with `fuel` levels of nesting is the same with one
/// level more.
pub proof fn lemma_expand_deeper(
    c: ContractView,
    m: MacroDefinitionView,
    scope: Scope,
    mis: Invocations,
    offset: usize,
    fuel: nat,
)
    requires
        expand_traced(c, m, scope, mis, offset, fuel) is Ok,
    ensures
        expand_traced(c, m, scope, mis, offset, fuel + 1) == expand_traced(
            c,
            m,
            scope,
            mis,
            offset,
            fuel,
        ),
    decreases fuel, 1nat, 0nat,
{
    lemma_walk_deeper(c, m, scope, mis, start(offset), 0, fuel);
}

/// A walk that succeeds with `fuel` levels of nesting is the same with one level
/// more.
pub proof fn lemma_walk_deeper(
    c: ContractView,
    m: MacroDefinitionView,
    scope: Scope,
    mis: Invocations,
    st: Emission,
    i: nat,
    fuel: nat,
)
    requires
        walk(c, m, scope, mis, st, i, fuel) is Ok,
    ensures
        walk(c, m, scope, mis, st, i, fuel + 1) == walk(c, m, scope, mis, st, i, fuel),
    decreases fuel, 0nat, m.ir_bytes.len() - i,
{
    if i < m.ir_bytes.len() {
        lemma_step_deeper(c, m, scope, mis, st, i, fuel);
        let next = step(c, m, scope, mis, st, m.ir_bytes[i as int], fuel)->Ok_0;
        lemma_walk_deeper(c, m, scope, mis, next, i + 1, fuel);
    }
}

/// A step that succeeds with `fuel` levels of nesting is the same with one level
/// more.
pub proof fn lemma_step_deeper(
    c: ContractView,
    m: MacroDefinitionView,
    scope: Scope,
    mis: Invocations,
    st: Emission,
    i: nat,
    fuel: nat,
)
    requires
        i < m.ir_bytes.len(),
        step(c, m, scope, mis, st, m.ir_bytes[i as int], fuel) is Ok,
    ensures
        step(c, m, scope, mis, st, m.ir_bytes[i as int], fuel + 1) == step(
            c,
            m,
            scope,
            mis,
            st,
            m.ir_bytes[i as int],
            fuel,
        ),
    decreases fuel, 0nat, 0nat,
{
    match m.ir_bytes[i as int].ty {
        IRByteTypeView::Statement(s) => match s {
            StatementView::MacroInvocation(mi) => match c.find_macro(mi.macro_name) {
                Some(inner) => {
                    lemma_expand_deeper(
                        c,
                        inner,
                        scope.push(inner),
                        mis.push((st.code.offset, mi)),
                        st.code.offset,
                        (fuel - 1) as nat,
                    );
                },
                None => {},
            },
            StatementView::BuiltinFunctionCall(bf) => match bf.kind {
                BuiltinFunctionKind::Codesize => match c.find_macro(bf.arg) {
                    Some(measured) => {
                        lemma_expand_deeper(
                            c,
                            measured,
                            scope,
                            mis,
                            st.code.offset,
                            (fuel - 1) as nat,
                        );
                    },
                    None => {},
                },
                _ => {},
            },
            _ => {},
        },
        _ => {},
    }
}

/// An expansion that succeeds with `fuel` levels of nesting is the same with any
/// number of levels more.
pub proof fn lemma_expand_within(
    c: ContractView,
    m: MacroDefinitionView,
    scope: Scope,
    mis: Invocations,
    offset: usize,
    fuel: nat,
    deeper: nat,
)
    requires
        expand_traced(c, m, scope, mis, offset, fuel) is Ok,
        fuel <= deeper,
    ensures
        expand_traced(c, m, scope, mis, offset, deeper) == expand_traced(
            c,
            m,
            scope,
            mis,
            offset,
            fuel,
        ),
    decreases deeper - fuel,
{
    if fuel < deeper {
        lemma_expand_deeper(c, m, scope, mis, offset, fuel);
        lemma_expand_within(c, m, scope, mis, offset, fuel + 1, deeper);
    }
}

} // verus!
