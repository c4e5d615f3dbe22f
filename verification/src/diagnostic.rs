use vstd::prelude::*;
use crate::codegen::{CodegenError, CodegenErrorKind};
use crate::span::Pos;

verus! {

/// How grave a diagnostic is.
#[derive(Clone, Copy, Debug, PartialEq, Eq, Structural)]
pub enum Level {
    Error,
}

/// A message for the user, anchored to a place in the source once `pos` has
/// been called.
#[derive(Clone, Debug, PartialEq, Eq)]
pub struct Diagnostic {
    pub level: Level,
    pub message: String,
    pub pos: Option<Pos>,
}

impl Diagnostic {
    /// An error that says `message`, not yet anchored.
    pub fn error(message: &str) -> (diag: Self)
        ensures
            diag.level == Level::Error,
            diag.message@ == message@,
            diag.pos is None,
    {
        Diagnostic { level: Level::Error, message: message.to_owned(), pos: None }
    }

    /// The same diagnostic, anchored to `pos`.
    pub fn pos(self, pos: Pos) -> (diag: Self)
        ensures
            diag.level == self.level,
            diag.message == self.message,
            diag.pos == Some(pos),
    {
        Diagnostic { level: self.level, message: self.message, pos: Some(pos) }
    }
}

/// What the user is told about a failure of each kind.
pub open spec fn message_of(kind: CodegenErrorKind) -> Seq<char> {
    match kind {
        CodegenErrorKind::InvalidElse => "`else` block withput `if` block"@,
        CodegenErrorKind::InvalidBreak => "`break` outside loop"@,
        CodegenErrorKind::InvalidSignature => "invalid type in fn signature"@,
        CodegenErrorKind::Unsupported => "unsupported construct"@,
    }
}

/// The diagnostic for a failure of code generation: an error with the
/// message of the failure's kind, anchored to the start of its span.
pub fn format_error(value: CodegenError) -> (diag: Diagnostic)
    ensures
        diag.level == Level::Error,
        diag.message@ == message_of(value.kind),
        diag.pos == Some(value.span.from),
{
    let diag = match &value.kind {
        CodegenErrorKind::InvalidElse => Diagnostic::error("`else` block withput `if` block"),
        CodegenErrorKind::InvalidBreak => Diagnostic::error("`break` outside loop"),
        CodegenErrorKind::InvalidSignature => Diagnostic::error("invalid type in fn signature"),
        CodegenErrorKind::Unsupported => Diagnostic::error("unsupported construct"),
    };
    diag.pos(value.span.to_pos())
}

} // verus!
