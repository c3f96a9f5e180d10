use vstd::prelude::*;

verus! {

/// Every failure the editor can report.
#[allow(inconsistent_fields)]
#[derive(Debug, Clone, PartialEq, Eq)]
pub enum RedError {
    FileOpen(String),
    FileRename(String),
    FileWrite(String),
    FileRemove(String),
    FileCopy(String),
    FileExist(String),
    SetLineOutOfBounds { address: usize },
    GetLineOutOfBounds { address: usize },
    OpCharIndex,
    AddressSyntax { address: String },
    ParameterSyntax { parameter: String },
    InvalidOperation { operation: char },
    Stdin,
    Stdout,
    Stderr,
    NoDestruct,
    CriticalError(String),
    Quit,
}

/// The numeric code reported for each kind of error.
pub open spec fn spec_error_code(e: RedError) -> u32 {
    match e {
        RedError::FileOpen(_) => 280,
        RedError::FileRename(_) => 281,
        RedError::FileWrite(_) => 282,
        RedError::FileRemove(_) => 283,
        RedError::FileCopy(_) => 284,
        RedError::FileExist(_) => 285,
        RedError::SetLineOutOfBounds { .. } => 290,
        RedError::GetLineOutOfBounds { .. } => 291,
        RedError::Stdin => 297,
        RedError::Stdout => 298,
        RedError::Stderr => 299,
        RedError::OpCharIndex => 301,
        RedError::AddressSyntax { .. } => 302,
        RedError::ParameterSyntax { .. } => 303,
        RedError::InvalidOperation { .. } => 304,
        RedError::NoDestruct => 305,
        RedError::CriticalError(_) => 99,
        RedError::Quit => 0,
    }
}

/// Return the error code for the given error.
pub fn error_code(error: RedError) -> (code: u32)
    ensures
        code == spec_error_code(error),
{
    match error {
        RedError::FileOpen(_) => 280,
        RedError::FileRename(_) => 281,
        RedError::FileWrite(_) => 282,
        RedError::FileRemove(_) => 283,
        RedError::FileCopy(_) => 284,
        RedError::FileExist(_) => 285,
        RedError::SetLineOutOfBounds { .. } => 290,
        RedError::GetLineOutOfBounds { .. } => 291,
        RedError::Stdin => 297,
        RedError::Stdout => 298,
        RedError::Stderr => 299,
        RedError::OpCharIndex => 301,
        RedError::AddressSyntax { .. } => 302,
        RedError::ParameterSyntax { .. } => 303,
        RedError::InvalidOperation { .. } => 304,
        RedError::NoDestruct => 305,
        RedError::CriticalError(_) => 99,
        RedError::Quit => 0,
    }
}

/// True when `[address_initial, address_final]` is a non-empty range of
/// existing lines in a buffer of `total_lines` lines.
pub open spec fn addresses_ok(address_initial: usize, address_final: usize, total_lines: usize) -> bool {
    &&& 0 < address_initial <= total_lines
    &&& 0 < address_final <= total_lines
    &&& address_initial <= address_final
}

/// Test whether a range of addresses names existing lines, in order.
/// This is a test, not an assertion: a bad range gives `false` and the
/// caller refuses it, returning an error rather than stopping.
pub fn assert_addresses(address_initial: usize, address_final: usize, total_lines: usize) -> (ok: bool)
    ensures
        ok == addresses_ok(address_initial, address_final, total_lines),
{
    0 < address_initial && address_initial <= total_lines && 0 < address_final && address_final
        <= total_lines && address_initial <= address_final
}

} // verus!
