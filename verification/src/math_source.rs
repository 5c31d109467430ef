//! Identities, limits and error records of the closed math source grammar.
use vstd::prelude::*;
use crate::text::{decimal, push_u64};

verus! {

pub const MATH_SOURCE_LANGUAGE: &'static str = "typaxis-math";
pub const MATH_SOURCE_VERSION: &'static str = "1";
pub const MATH_SOURCE_ID: &'static str = "typaxis.math-source/1";
pub const MATH_PARSER_ID: &'static str = "typaxis.math-parser/1";
pub const MATH_FORMATTER_ID: &'static str = "typaxis.math-formatter/1";
pub const MATH_AST_FINGERPRINT_ID: &'static str = "typaxis.math-ast-fingerprint/1";
pub const MATH_COMPUTATION_ID: &'static str = "typaxis.math-layout/1";
pub const MATH_LAYOUT_WORK_ID: &'static str = "typaxis.math-layout-work/1";
pub const MATH_VECTOR_IR_ID: &'static str = "typaxis.math-vector-ir/1";

/// Inline or display placement of a formula.
#[derive(Clone, Copy, Debug, PartialEq, Eq, Structural, Hash, PartialOrd, Ord)]
pub enum MathNodeKind {
    Inline,
    Display,
}

impl MathNodeKind {
    /// The record name of the placement kind.
    pub fn as_str(self) -> (name: &'static str)
        ensures
            name@ == (match self {
                MathNodeKind::Inline => "inline_math"@,
                MathNodeKind::Display => "display_math"@,
            }),
    {
        match self {
            MathNodeKind::Inline => "inline_math",
            MathNodeKind::Display => "display_math",
        }
    }
}

/// Inclusive bounds on the number of AST nodes and on the AST depth.
#[derive(Clone, Copy, Debug, PartialEq, Eq, Structural)]
pub struct MathParseLimits {
    max_nodes: u64,
    max_depth: u32,
}

impl MathParseLimits {
    /// Both bounds must be positive.
    pub fn new(max_nodes: u64, max_depth: u32) -> (limits: Option<Self>)
        ensures
            limits is None <==> (max_nodes == 0 || max_depth == 0),
            limits matches Some(l) ==> l.spec_max_nodes() == max_nodes && l.spec_max_depth() == max_depth,
    {
        if max_nodes == 0 || max_depth == 0 {
            None
        } else {
            Some(MathParseLimits { max_nodes, max_depth })
        }
    }

    pub closed spec fn spec_max_nodes(self) -> u64 {
        self.max_nodes
    }

    pub closed spec fn spec_max_depth(self) -> u32 {
        self.max_depth
    }

    pub fn max_nodes(self) -> (value: u64)
        ensures
            value == self.spec_max_nodes(),
    {
        self.max_nodes
    }

    pub fn max_depth(self) -> (value: u32)
        ensures
            value == self.spec_max_depth(),
    {
        self.max_depth
    }
}

/// Why a math source was refused.
#[derive(Clone, Copy, Debug, PartialEq, Eq, Structural)]
pub enum MathSourceErrorKind {
    ForbiddenByte,
    UnexpectedToken,
    UnknownCommand,
    InvalidNumber,
    EmptyRow,
    DuplicateScript,
    MissingDelimiter,
    NodeLimit,
    DepthLimit,
    AllocationFailure,
    ReceiptMismatch,
}

/// A refusal with the UTF-8 byte offset at which it was detected
/// (saturated at `u32::MAX`).
#[derive(Clone, Copy, Debug, PartialEq, Eq, Structural)]
pub struct MathSourceError {
    kind: MathSourceErrorKind,
    byte_offset: u32,
}

/// A byte offset as recorded in an error: saturated to `u32::MAX`.
pub open spec fn saturated_offset(offset: int) -> u32 {
    if offset > u32::MAX as int {
        u32::MAX
    } else {
        offset as u32
    }
}

/// Text of the refusal reason.
pub open spec fn error_message(kind: MathSourceErrorKind) -> Seq<char> {
    match kind {
        MathSourceErrorKind::ForbiddenByte => "forbidden source byte"@,
        MathSourceErrorKind::UnexpectedToken => "unexpected token"@,
        MathSourceErrorKind::UnknownCommand => "unknown command"@,
        MathSourceErrorKind::InvalidNumber => "invalid number"@,
        MathSourceErrorKind::EmptyRow => "empty row"@,
        MathSourceErrorKind::DuplicateScript => "duplicate script"@,
        MathSourceErrorKind::MissingDelimiter => "missing delimiter"@,
        MathSourceErrorKind::NodeLimit => "AST node limit exceeded"@,
        MathSourceErrorKind::DepthLimit => "AST depth limit exceeded"@,
        MathSourceErrorKind::AllocationFailure => "allocation failed"@,
        MathSourceErrorKind::ReceiptMismatch => "parser/formatter receipt mismatch"@,
    }
}

/// Diagnostic code of the refusal: limits have their own codes.
pub open spec fn error_code(kind: MathSourceErrorKind) -> Seq<char> {
    match kind {
        MathSourceErrorKind::NodeLimit => "P1120"@,
        MathSourceErrorKind::DepthLimit => "P1121"@,
        _ => "P1102"@,
    }
}

/// The refusal of `kind` at byte offset `offset`, saturated.
pub closed spec fn error_at(kind: MathSourceErrorKind, offset: int) -> MathSourceError {
    MathSourceError { kind, byte_offset: saturated_offset(offset) }
}

pub proof fn lemma_error_at(kind: MathSourceErrorKind, offset: int)
    ensures
        error_at(kind, offset).spec_kind() == kind,
        error_at(kind, offset).spec_byte_offset() == saturated_offset(offset),
{
}

pub proof fn lemma_error_at_saturated(kind: MathSourceErrorKind, a: int, b: int)
    requires
        saturated_offset(a) == saturated_offset(b),
    ensures
        error_at(kind, a) == error_at(kind, b),
{
}

impl MathSourceError {
    pub(crate) fn new(kind: MathSourceErrorKind, byte_offset: usize) -> (error: Self)
        ensures
            error.spec_kind() == kind,
            error.spec_byte_offset() == saturated_offset(byte_offset as int),
            error == error_at(kind, byte_offset as int),
    {
        MathSourceError {
            kind,
            byte_offset: if byte_offset > u32::MAX as usize {
                u32::MAX
            } else {
                byte_offset as u32
            },
        }
    }

    /// A refusal at a byte offset given as `u64`, saturated.
    pub(crate) fn at_offset(kind: MathSourceErrorKind, byte_offset: u64) -> (error: Self)
        ensures
            error == error_at(kind, byte_offset as int),
    {
        MathSourceError {
            kind,
            byte_offset: if byte_offset > u32::MAX as u64 {
                u32::MAX
            } else {
                byte_offset as u32
            },
        }
    }

    pub closed spec fn spec_kind(self) -> MathSourceErrorKind {
        self.kind
    }

    pub closed spec fn spec_byte_offset(self) -> u32 {
        self.byte_offset
    }

    pub fn kind(self) -> (kind: MathSourceErrorKind)
        ensures
            kind == self.spec_kind(),
    {
        self.kind
    }

    pub fn byte_offset(self) -> (offset: u32)
        ensures
            offset == self.spec_byte_offset(),
    {
        self.byte_offset
    }

    /// The diagnostic line: `{code}: math {reason} at source byte {offset}`.
    pub fn message(&self) -> (text: String)
        ensures
            text@ == error_code(self.spec_kind()) + ": math "@ + error_message(self.spec_kind())
                + " at source byte "@ + decimal(self.spec_byte_offset() as nat),
    {
        let code = match self.kind {
            MathSourceErrorKind::NodeLimit => "P1120",
            MathSourceErrorKind::DepthLimit => "P1121",
            _ => "P1102",
        };
        let reason = match self.kind {
            MathSourceErrorKind::ForbiddenByte => "forbidden source byte",
            MathSourceErrorKind::UnexpectedToken => "unexpected token",
            MathSourceErrorKind::UnknownCommand => "unknown command",
            MathSourceErrorKind::InvalidNumber => "invalid number",
            MathSourceErrorKind::EmptyRow => "empty row",
            MathSourceErrorKind::DuplicateScript => "duplicate script",
            MathSourceErrorKind::MissingDelimiter => "missing delimiter",
            MathSourceErrorKind::NodeLimit => "AST node limit exceeded",
            MathSourceErrorKind::DepthLimit => "AST depth limit exceeded",
            MathSourceErrorKind::AllocationFailure => "allocation failed",
            MathSourceErrorKind::ReceiptMismatch => "parser/formatter receipt mismatch",
        };
        let mut text = String::new();
        text.append(code);
        text.append(": math ");
        text.append(reason);
        text.append(" at source byte ");
        push_u64(&mut text, self.byte_offset as u64);
        text
    }
}

} // verus!
