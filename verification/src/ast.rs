//! The parsed contract that code generation starts from: macros with their
//! intermediate byte items, constants and jump tables.

use crate::hex::{ascii_len, is_hex, is_hex_str, lemma_code_text_is_ascii, lemma_hex_is_code_text, str_eq};
use crate::artifact::{FileSource, FileSourceView};
use vstd::prelude::*;

verus! {

/// A range of characters in a source file.
#[derive(Debug, Clone, PartialEq, Eq)]
pub struct Span {
    pub start: usize,
    pub end: usize,
    /// The file, where it is known.
    pub file: Option<FileSource>,
}

/// The view of a range of characters.
pub struct SpanView {
    pub start: usize,
    pub end: usize,
    pub file: Option<FileSourceView>,
}

impl View for Span {
    type V = SpanView;

    open spec fn view(&self) -> SpanView {
        SpanView {
            start: self.start,
            end: self.end,
            file: match self.file {
                Some(f) => Some(f@),
                None => None,
            },
        }
    }
}

impl Span {
    /// A copy of this span.
    pub fn duplicate(&self) -> (r: Span)
        ensures
            r@ == self@,
    {
        Span {
            start: self.start,
            end: self.end,
            file: match &self.file {
                Some(f) => Some(f.duplicate()),
                None => None,
            },
        }
    }
}

/// The places in the source that an item was read from.
#[derive(Debug, Clone, PartialEq, Eq)]
pub struct AstSpan(pub Vec<Span>);

/// The views of a list of spans.
pub open spec fn spans_view(spans: Seq<Span>) -> Seq<SpanView> {
    spans.map_values(|s: Span| s@)
}

impl View for AstSpan {
    type V = Seq<SpanView>;

    open spec fn view(&self) -> Seq<SpanView> {
        spans_view(self.0@)
    }
}

impl AstSpan {
    /// A copy of this span.
    pub fn duplicate(&self) -> (r: AstSpan)
        ensures
            r@ == self@,
    {
        let mut spans: Vec<Span> = Vec::new();
        let mut i: usize = 0;
        while i < self.0.len()
            invariant
                i <= self.0.len(),
                spans_view(spans@) == self@.take(i as int),
            decreases self.0.len() - i,
        {
            let ghost before = spans@;
            let copy = self.0[i].duplicate();
            spans.push(copy);
            proof {
                assert(self@[i as int] == self.0@[i as int]@);
                assert(spans_view(spans@) =~= spans_view(before).push(copy@));
                assert(self@.take(i as int + 1) =~= self@.take(i as int).push(self@[i as int]));
            }
            i += 1;
        }
        assert(self@.take(self.0.len() as int) =~= self@);
        AstSpan(spans)
    }
}

/// An argument handed to a macro where it is invoked.
#[derive(Debug, Clone, PartialEq, Eq)]
pub enum MacroArg {
    /// A 32-byte number, pushed as it is.
    Literal([u8; 32]),
    /// The name of an argument of the invoking macro, to be looked up there.
    ArgCall(String),
    /// The name of a jump label.
    Ident(String),
}

/// The view of an argument.
pub enum MacroArgView {
    Literal(Seq<u8>),
    ArgCall(Seq<char>),
    Ident(Seq<char>),
}

impl View for MacroArg {
    type V = MacroArgView;

    open spec fn view(&self) -> MacroArgView {
        match self {
            MacroArg::Literal(l) => MacroArgView::Literal(l@),
            MacroArg::ArgCall(s) => MacroArgView::ArgCall(s@),
            MacroArg::Ident(s) => MacroArgView::Ident(s@),
        }
    }
}

/// The invocation of a macro by name, with its arguments in order.
#[derive(Debug, Clone, PartialEq, Eq)]
pub struct MacroInvocation {
    pub macro_name: String,
    pub args: Vec<MacroArg>,
}

/// The view of an invocation.
pub struct MacroInvocationView {
    pub macro_name: Seq<char>,
    pub args: Seq<MacroArgView>,
}

impl View for MacroInvocation {
    type V = MacroInvocationView;

    open spec fn view(&self) -> MacroInvocationView {
        MacroInvocationView {
            macro_name: self.macro_name@,
            args: self.args@.map_values(|a: MacroArg| a@),
        }
    }
}

/// The functions that are evaluated while code is generated.
#[derive(Debug, Clone, Copy, PartialEq, Eq)]
pub enum BuiltinFunctionKind {
    /// The number of bytes that a macro expands to.
    Codesize,
    /// The declared size of a jump table.
    Tablesize,
    /// The offset at which a jump table starts in the final code.
    Tablestart,
}

/// A call of a builtin function on the name of a macro or of a table.
#[derive(Debug, Clone, PartialEq, Eq)]
pub struct BuiltinFunctionCall {
    pub kind: BuiltinFunctionKind,
    pub arg: String,
}

/// The view of a call of a builtin function.
pub struct BuiltinFunctionCallView {
    pub kind: BuiltinFunctionKind,
    pub arg: Seq<char>,
}

impl View for BuiltinFunctionCall {
    type V = BuiltinFunctionCallView;

    open spec fn view(&self) -> BuiltinFunctionCallView {
        BuiltinFunctionCallView { kind: self.kind, arg: self.arg@ }
    }
}

/// A statement of a macro body or of a jump table.
#[derive(Debug, Clone, PartialEq, Eq)]
pub enum Statement {
    /// A macro to expand in place.
    MacroInvocation(MacroInvocation),
    /// The definition of a jump label: a `JUMPDEST` that carries a name.
    Label(String),
    /// A reference to a jump label: a push of its offset.
    LabelCall(String),
    /// A call of a builtin function.
    BuiltinFunctionCall(BuiltinFunctionCall),
    /// A number to push. Lowered to plain bytes before code is generated.
    Literal([u8; 32]),
    /// An opcode by its mnemonic. Lowered to plain bytes before code is generated.
    Opcode(String),
    /// Raw hexadecimal code. Lowered to plain bytes before code is generated.
    Code(String),
    /// A reference to a constant. Lowered to a constant item before code is generated.
    Constant(String),
    /// A reference to an argument. Lowered to an argument item before code is generated.
    ArgCall(String),
}

/// The view of a statement.
pub enum StatementView {
    MacroInvocation(MacroInvocationView),
    Label(Seq<char>),
    LabelCall(Seq<char>),
    BuiltinFunctionCall(BuiltinFunctionCallView),
    Literal(Seq<u8>),
    Opcode(Seq<char>),
    Code(Seq<char>),
    Constant(Seq<char>),
    ArgCall(Seq<char>),
}

impl View for Statement {
    type V = StatementView;

    open spec fn view(&self) -> StatementView {
        match self {
            Statement::MacroInvocation(mi) => StatementView::MacroInvocation(mi@),
            Statement::Label(s) => StatementView::Label(s@),
            Statement::LabelCall(s) => StatementView::LabelCall(s@),
            Statement::BuiltinFunctionCall(bf) => StatementView::BuiltinFunctionCall(bf@),
            Statement::Literal(l) => StatementView::Literal(l@),
            Statement::Opcode(s) => StatementView::Opcode(s@),
            Statement::Code(s) => StatementView::Code(s@),
            Statement::Constant(s) => StatementView::Constant(s@),
            Statement::ArgCall(s) => StatementView::ArgCall(s@),
        }
    }
}

/// Hexadecimal text that stands for bytes of code.
#[derive(Debug, Clone, PartialEq, Eq)]
pub struct Bytes(pub String);

impl View for Bytes {
    type V = Seq<char>;

    open spec fn view(&self) -> Seq<char> {
        self.0@
    }
}

/// What an item of a macro's intermediate form is.
#[derive(Debug, Clone, PartialEq, Eq)]
pub enum IRByteType {
    /// Code that is known already, as hexadecimal text.
    Bytes(Bytes),
    /// A constant to push, by name.
    Constant(String),
    /// A statement that is resolved while the macro is expanded.
    Statement(Statement),
    /// An argument of the macro, by name.
    ArgCall(String),
}

/// The view of what an item is.
pub enum IRByteTypeView {
    Bytes(Seq<char>),
    Constant(Seq<char>),
    Statement(StatementView),
    ArgCall(Seq<char>),
}

impl View for IRByteType {
    type V = IRByteTypeView;

    open spec fn view(&self) -> IRByteTypeView {
        match self {
            IRByteType::Bytes(b) => IRByteTypeView::Bytes(b@),
            IRByteType::Constant(s) => IRByteTypeView::Constant(s@),
            IRByteType::Statement(s) => IRByteTypeView::Statement(s@),
            IRByteType::ArgCall(s) => IRByteTypeView::ArgCall(s@),
        }
    }
}

/// An item of a macro's intermediate form, with the place it was read from.
#[derive(Debug, Clone, PartialEq, Eq)]
pub struct IRBytes {
    pub ty: IRByteType,
    pub span: AstSpan,
}

/// The view of an item.
pub struct IRBytesView {
    pub ty: IRByteTypeView,
    pub span: Seq<SpanView>,
}

impl View for IRBytes {
    type V = IRBytesView;

    open spec fn view(&self) -> IRBytesView {
        IRBytesView { ty: self.ty@, span: self.span@ }
    }
}

/// A parameter of a macro. It may have no name.
#[derive(Debug, Clone, PartialEq, Eq)]
pub struct Argument {
    pub name: Option<String>,
}

impl View for Argument {
    type V = Option<Seq<char>>;

    open spec fn view(&self) -> Option<Seq<char>> {
        match self.name {
            Some(s) => Some(s@),
            None => None,
        }
    }
}

/// A macro: its name, its parameters in order and its body in intermediate form.
#[derive(Debug, Clone, PartialEq, Eq)]
pub struct MacroDefinition {
    pub name: String,
    pub parameters: Vec<Argument>,
    pub ir_bytes: Vec<IRBytes>,
}

/// The view of a macro.
pub struct MacroDefinitionView {
    pub name: Seq<char>,
    pub parameters: Seq<Option<Seq<char>>>,
    pub ir_bytes: Seq<IRBytesView>,
}

impl View for MacroDefinition {
    type V = MacroDefinitionView;

    open spec fn view(&self) -> MacroDefinitionView {
        MacroDefinitionView {
            name: self.name@,
            parameters: self.parameters@.map_values(|a: Argument| a@),
            ir_bytes: self.ir_bytes@.map_values(|b: IRBytes| b@),
        }
    }
}

/// The value of a constant.
#[derive(Debug, Clone, PartialEq, Eq)]
pub enum ConstVal {
    /// A 32-byte number.
    Literal([u8; 32]),
    /// A storage slot that has not been given its number yet.
    FreeStoragePointer,
}

/// The view of the value of a constant.
pub enum ConstValView {
    Literal(Seq<u8>),
    FreeStoragePointer,
}

impl View for ConstVal {
    type V = ConstValView;

    open spec fn view(&self) -> ConstValView {
        match self {
            ConstVal::Literal(l) => ConstValView::Literal(l@),
            ConstVal::FreeStoragePointer => ConstValView::FreeStoragePointer,
        }
    }
}

/// A named constant.
#[derive(Debug, Clone, PartialEq, Eq)]
pub struct ConstantDefinition {
    pub name: String,
    pub value: ConstVal,
    pub span: AstSpan,
}

/// The view of a constant.
pub struct ConstantDefinitionView {
    pub name: Seq<char>,
    pub value: ConstValView,
    pub span: Seq<SpanView>,
}

impl View for ConstantDefinition {
    type V = ConstantDefinitionView;

    open spec fn view(&self) -> ConstantDefinitionView {
        ConstantDefinitionView { name: self.name@, value: self.value@, span: self.span@ }
    }
}

/// How wide the entries of a jump table are.
#[derive(Debug, Clone, Copy, PartialEq, Eq)]
pub enum TableKind {
    /// Entries of 32 bytes.
    JumpTable,
    /// Entries of 2 bytes.
    JumpTablePacked,
}

/// A jump table: the labels whose offsets it holds, and its size in bytes.
#[derive(Debug, Clone, PartialEq, Eq)]
pub struct TableDefinition {
    pub name: String,
    pub kind: TableKind,
    pub statements: Vec<Statement>,
    pub size: usize,
}

/// The view of a jump table.
pub struct TableDefinitionView {
    pub name: Seq<char>,
    pub kind: TableKind,
    pub statements: Seq<StatementView>,
    pub size: usize,
}

impl View for TableDefinition {
    type V = TableDefinitionView;

    open spec fn view(&self) -> TableDefinitionView {
        TableDefinitionView {
            name: self.name@,
            kind: self.kind,
            statements: self.statements@.map_values(|s: Statement| s@),
            size: self.size,
        }
    }
}

/// A parsed contract.
#[derive(Debug, Clone, PartialEq, Eq)]
pub struct Contract {
    pub macros: Vec<MacroDefinition>,
    pub constants: Vec<ConstantDefinition>,
    pub tables: Vec<TableDefinition>,
}

/// The view of a contract.
pub struct ContractView {
    pub macros: Seq<MacroDefinitionView>,
    pub constants: Seq<ConstantDefinitionView>,
    pub tables: Seq<TableDefinitionView>,
}

impl View for Contract {
    type V = ContractView;

    open spec fn view(&self) -> ContractView {
        ContractView {
            macros: self.macros@.map_values(|m: MacroDefinition| m@),
            constants: self.constants@.map_values(|c: ConstantDefinition| c@),
            tables: self.tables@.map_values(|t: TableDefinition| t@),
        }
    }
}

/// The number of bytes of one entry of a table of this kind.
pub open spec fn entry_width(kind: TableKind) -> nat {
    match kind {
        TableKind::JumpTablePacked => 2,
        TableKind::JumpTable => 32,
    }
}

/// The first position at which `x` stands in `s`.
pub open spec fn is_first_at<A>(s: Seq<A>, x: A, i: int) -> bool {
    &&& 0 <= i < s.len()
    &&& s[i] == x
    &&& forall|j: int| 0 <= j < i ==> s[j] != x
}

/// The first position at which `x` stands in `s`, if it stands there at all.
pub open spec fn first_index<A>(s: Seq<A>, x: A) -> Option<int> {
    if exists|i: int| is_first_at(s, x, i) {
        Some(choose|i: int| is_first_at(s, x, i))
    } else {
        None
    }
}

/// A position at which `x` stands first is the first index of `x`.
pub proof fn lemma_first_index_found<A>(s: Seq<A>, x: A, i: int)
    requires
        is_first_at(s, x, i),
    ensures
        first_index(s, x) == Some(i),
{
    let k = choose|k: int| is_first_at(s, x, k);
    assert(is_first_at(s, x, k));
    if k < i {
        assert(s[k] != x);
    }
    if i < k {
        assert(s[i] != x);
    }
}

/// What stands nowhere has no first index.
pub proof fn lemma_first_index_absent<A>(s: Seq<A>, x: A)
    requires
        forall|j: int| 0 <= j < s.len() ==> s[j] != x,
    ensures
        first_index(s, x) is None,
{
}

impl MacroDefinitionView {
    /// Whether every item of known code is hexadecimal text of even length.
    pub open spec fn well_formed(self) -> bool {
        forall|i: int|
            0 <= i < self.ir_bytes.len() ==> match (#[trigger] self.ir_bytes[i]).ty {
                IRByteTypeView::Bytes(b) => is_hex(b) && b.len() % 2 == 0,
                _ => true,
            }
    }
}

impl ContractView {
    /// The names of the macros, in order.
    pub open spec fn macro_names(self) -> Seq<Seq<char>> {
        self.macros.map_values(|m: MacroDefinitionView| m.name)
    }

    /// The names of the constants, in order.
    pub open spec fn constant_names(self) -> Seq<Seq<char>> {
        self.constants.map_values(|c: ConstantDefinitionView| c.name)
    }

    /// The names of the tables, in order.
    pub open spec fn table_names(self) -> Seq<Seq<char>> {
        self.tables.map_values(|t: TableDefinitionView| t.name)
    }

    /// The first macro of this name.
    pub open spec fn find_macro(self, name: Seq<char>) -> Option<MacroDefinitionView> {
        match first_index(self.macro_names(), name) {
            Some(i) => Some(self.macros[i]),
            None => None,
        }
    }

    /// The first constant of this name.
    pub open spec fn find_constant(self, name: Seq<char>) -> Option<ConstantDefinitionView> {
        match first_index(self.constant_names(), name) {
            Some(i) => Some(self.constants[i]),
            None => None,
        }
    }

    /// The first table of this name.
    pub open spec fn find_table(self, name: Seq<char>) -> Option<TableDefinitionView> {
        match first_index(self.table_names(), name) {
            Some(i) => Some(self.tables[i]),
            None => None,
        }
    }

    /// Whether all known code in the macros is hexadecimal text of even length.
    pub open spec fn well_formed(self) -> bool {
        forall|i: int| 0 <= i < self.macros.len() ==> (#[trigger] self.macros[i]).well_formed()
    }
}

impl Contract {
    /// The first macro of this name.
    pub fn find_macro_by_name<'a>(&'a self, name: &str) -> (r: Option<&'a MacroDefinition>)
        ensures
            match r {
                Some(m) => self@.find_macro(name@) == Some(m@),
                None => self@.find_macro(name@) is None,
            },
            self@.well_formed() && r is Some ==> r->0@.well_formed(),
    {
        let mut i: usize = 0;
        while i < self.macros.len()
            invariant
                i <= self.macros.len(),
                forall|j: int| 0 <= j < i ==> self@.macro_names()[j] != name@,
            decreases self.macros.len() - i,
        {
            if str_eq(self.macros[i].name.as_str(), name) {
                proof {
                    assert(self@.macro_names()[i as int] == name@);
                    lemma_first_index_found(self@.macro_names(), name@, i as int);
                    assert(self@.macros[i as int] == self.macros[i as int]@);
                }
                return Some(&self.macros[i]);
            }
            i += 1;
        }
        proof {
            lemma_first_index_absent(self@.macro_names(), name@);
        }
        None
    }

    /// The first constant of this name.
    pub fn find_constant_by_name<'a>(&'a self, name: &str) -> (r: Option<&'a ConstantDefinition>)
        ensures
            match r {
                Some(c) => self@.find_constant(name@) == Some(c@),
                None => self@.find_constant(name@) is None,
            },
    {
        let mut i: usize = 0;
        while i < self.constants.len()
            invariant
                i <= self.constants.len(),
                forall|j: int| 0 <= j < i ==> self@.constant_names()[j] != name@,
            decreases self.constants.len() - i,
        {
            if str_eq(self.constants[i].name.as_str(), name) {
                proof {
                    assert(self@.constant_names()[i as int] == name@);
                    lemma_first_index_found(self@.constant_names(), name@, i as int);
                    assert(self@.constants[i as int] == self.constants[i as int]@);
                }
                return Some(&self.constants[i]);
            }
            i += 1;
        }
        proof {
            lemma_first_index_absent(self@.constant_names(), name@);
        }
        None
    }

    /// The first table of this name.
    pub fn find_table_by_name<'a>(&'a self, name: &str) -> (r: Option<&'a TableDefinition>)
        ensures
            match r {
                Some(t) => self@.find_table(name@) == Some(t@),
                None => self@.find_table(name@) is None,
            },
    {
        let mut i: usize = 0;
        while i < self.tables.len()
            invariant
                i <= self.tables.len(),
                forall|j: int| 0 <= j < i ==> self@.table_names()[j] != name@,
            decreases self.tables.len() - i,
        {
            if str_eq(self.tables[i].name.as_str(), name) {
                proof {
                    assert(self@.table_names()[i as int] == name@);
                    lemma_first_index_found(self@.table_names(), name@, i as int);
                    assert(self@.tables[i as int] == self.tables[i as int]@);
                }
                return Some(&self.tables[i]);
            }
            i += 1;
        }
        proof {
            lemma_first_index_absent(self@.table_names(), name@);
        }
        None
    }
}

impl MacroDefinition {
    /// The position of the first parameter of this name.
    pub fn parameter_position(&self, name: &str) -> (r: Option<usize>)
        ensures
            match r {
                Some(p) => first_index(self@.parameters, Some(name@)) == Some(p as int),
                None => first_index(self@.parameters, Some(name@)) is None,
            },
    {
        let mut i: usize = 0;
        while i < self.parameters.len()
            invariant
                i <= self.parameters.len(),
                forall|j: int| 0 <= j < i ==> self@.parameters[j] != Some(name@),
            decreases self.parameters.len() - i,
        {
            let found = match &self.parameters[i].name {
                Some(s) => str_eq(s.as_str(), name),
                None => false,
            };
            if found {
                proof {
                    assert(self@.parameters[i as int] == self.parameters[i as int]@);
                    lemma_first_index_found(self@.parameters, Some(name@), i as int);
                }
                return Some(i);
            }
            proof {
                assert(self@.parameters[i as int] == self.parameters[i as int]@);
            }
            i += 1;
        }
        proof {
            lemma_first_index_absent(self@.parameters, Some(name@));
        }
        None
    }
}

impl MacroDefinition {
    /// Whether every item of known code is hexadecimal text of even length.
    pub fn is_well_formed(&self) -> (r: bool)
        ensures
            r == self@.well_formed(),
    {
        let mut i: usize = 0;
        while i < self.ir_bytes.len()
            invariant
                i <= self.ir_bytes.len(),
                forall|j: int|
                    0 <= j < i ==> match (#[trigger] self@.ir_bytes[j]).ty {
                        IRByteTypeView::Bytes(b) => is_hex(b) && b.len() % 2 == 0,
                        _ => true,
                    },
            decreases self.ir_bytes.len() - i,
        {
            proof {
                assert(self@.ir_bytes[i as int] == self.ir_bytes[i as int]@);
            }
            match &self.ir_bytes[i].ty {
                IRByteType::Bytes(b) => {
                    if !is_hex_str(b.0.as_str()) {
                        return false;
                    }
                    proof {
                        lemma_hex_is_code_text(b@);
                        lemma_code_text_is_ascii(b@);
                    }
                    if ascii_len(b.0.as_str()) % 2 != 0 {
                        return false;
                    }
                },
                _ => {},
            }
            i += 1;
        }
        true
    }
}

impl Contract {
    /// Whether all known code in the macros is hexadecimal text of even length.
    pub fn is_well_formed(&self) -> (r: bool)
        ensures
            r == self@.well_formed(),
    {
        let mut i: usize = 0;
        while i < self.macros.len()
            invariant
                i <= self.macros.len(),
                forall|j: int| 0 <= j < i ==> (#[trigger] self@.macros[j]).well_formed(),
            decreases self.macros.len() - i,
        {
            proof {
                assert(self@.macros[i as int] == self.macros[i as int]@);
            }
            if !self.macros[i].is_well_formed() {
                return false;
            }
            i += 1;
        }
        true
    }
}

} // verus!
