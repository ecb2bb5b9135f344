//! The errors of code generation.

use crate::ast::{AstSpan, Span, SpanView};
use vstd::prelude::*;

verus! {

/// What went wrong.
#[derive(Debug, Clone, PartialEq, Eq)]
pub enum CodegenErrorKind {
    /// No macro of this name is defined.
    MissingMacroDefinition(String),
    /// No constant of this name is defined.
    MissingConstantDefinition(String),
    /// A constant still stands for a free storage slot.
    StoragePointersNotDerived,
    /// A jump refers to a label that is defined nowhere.
    UnmatchedJumpLabel,
    /// A statement of a kind that cannot stand in a macro body.
    InvalidMacroStatement,
    /// An argument was looked up beyond the outermost macro.
    MissingMacroInvocation(String),
    /// Reading or writing a file failed.
    IOError(String),
    /// Macros are nested deeper than the expansion allows.
    ExpansionDepthExceeded,
    /// An offset or a size does not fit where it has to be written.
    OffsetOverflow,
}

/// The view of the kind of an error.
pub enum CodegenErrorKindView {
    MissingMacroDefinition(Seq<char>),
    MissingConstantDefinition(Seq<char>),
    StoragePointersNotDerived,
    UnmatchedJumpLabel,
    InvalidMacroStatement,
    MissingMacroInvocation(Seq<char>),
    IOError(Seq<char>),
    ExpansionDepthExceeded,
    OffsetOverflow,
}

impl View for CodegenErrorKind {
    type V = CodegenErrorKindView;

    open spec fn view(&self) -> CodegenErrorKindView {
        match self {
            CodegenErrorKind::MissingMacroDefinition(s) => CodegenErrorKindView::MissingMacroDefinition(
                s@,
            ),
            CodegenErrorKind::MissingConstantDefinition(s) => CodegenErrorKindView::MissingConstantDefinition(
                s@,
            ),
            CodegenErrorKind::StoragePointersNotDerived => CodegenErrorKindView::StoragePointersNotDerived,
            CodegenErrorKind::UnmatchedJumpLabel => CodegenErrorKindView::UnmatchedJumpLabel,
            CodegenErrorKind::InvalidMacroStatement => CodegenErrorKindView::InvalidMacroStatement,
            CodegenErrorKind::MissingMacroInvocation(s) => CodegenErrorKindView::MissingMacroInvocation(
                s@,
            ),
            CodegenErrorKind::IOError(s) => CodegenErrorKindView::IOError(s@),
            CodegenErrorKind::ExpansionDepthExceeded => CodegenErrorKindView::ExpansionDepthExceeded,
            CodegenErrorKind::OffsetOverflow => CodegenErrorKindView::OffsetOverflow,
        }
    }
}

/// An error of code generation: its kind, the place in the source that it is about,
/// and the token at fault where one is known.
#[derive(Debug, Clone, PartialEq, Eq)]
pub struct CodegenError {
    pub kind: CodegenErrorKind,
    pub span: AstSpan,
    pub token: Option<String>,
}

/// The view of an error.
pub struct CodegenErrorView {
    pub kind: CodegenErrorKindView,
    pub span: Seq<SpanView>,
    pub token: Option<Seq<char>>,
}

impl View for CodegenError {
    type V = CodegenErrorView;

    open spec fn view(&self) -> CodegenErrorView {
        CodegenErrorView {
            kind: self.kind@,
            span: self.span@,
            token: match self.token {
                Some(t) => Some(t@),
                None => None,
            },
        }
    }
}

/// The span that stands for no place in particular: from 0 to 0.
pub open spec fn nowhere() -> Seq<SpanView> {
    seq![SpanView { start: 0, end: 0, file: None }]
}

/// An error that names no place.
pub open spec fn error_without_span(kind: CodegenErrorKindView) -> CodegenErrorView {
    CodegenErrorView { kind, span: Seq::empty(), token: None }
}

/// An error at the given place.
pub open spec fn error_at(kind: CodegenErrorKindView, span: Seq<SpanView>) -> CodegenErrorView {
    CodegenErrorView { kind, span, token: None }
}

impl CodegenError {
    /// An error that names no place.
    pub fn without_span(kind: CodegenErrorKind) -> (r: CodegenError)
        ensures
            r@ == error_without_span(kind@),
    {
        let spans: Vec<Span> = Vec::new();
        assert(crate::ast::spans_view(spans@) =~= Seq::<SpanView>::empty());
        CodegenError { kind, span: AstSpan(spans), token: None }
    }

    /// An error at the given place.
    pub fn at(kind: CodegenErrorKind, span: &AstSpan) -> (r: CodegenError)
        ensures
            r@ == error_at(kind@, span@),
    {
        CodegenError { kind, span: span.duplicate(), token: None }
    }

    /// An error at the span from 0 to 0.
    pub fn at_nowhere(kind: CodegenErrorKind) -> (r: CodegenError)
        ensures
            r@ == error_at(kind@, nowhere()),
    {
        let mut spans: Vec<Span> = Vec::new();
        spans.push(Span { start: 0, end: 0, file: None });
        assert(crate::ast::spans_view(spans@) =~= nowhere());
        CodegenError { kind, span: AstSpan(spans), token: None }
    }
}

} // verus!
