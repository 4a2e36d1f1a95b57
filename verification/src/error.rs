//! Classification codes of failed requests.

use vstd::prelude::*;
use vstd::string::*;

use crate::text::same_text;

verus! {

/// Why a request failed, as far as its sender is told.
#[derive(Clone, Copy, Debug, PartialEq, Eq, Structural)]
pub enum ErrorCode {
    InvalidCredential,
    MfaRequired,
    SelectorNotFound,
    VaultLocked,
    RateLimited,
    TotpNotExposable,
    ApprovalDenied,
    ApprovalTimeout,
    Internal,
    NotFound,
    Unauthorized,
    AdminRequired,
    AdminSealUnavailable,
}

impl ErrorCode {
    /// The code as it stands in responses and audit records.
    pub open spec fn text(self) -> Seq<char> {
        match self {
            ErrorCode::InvalidCredential => "INVALID_CREDENTIAL"@,
            ErrorCode::MfaRequired => "MFA_REQUIRED"@,
            ErrorCode::SelectorNotFound => "SELECTOR_NOT_FOUND"@,
            ErrorCode::VaultLocked => "VAULT_LOCKED"@,
            ErrorCode::RateLimited => "RATE_LIMITED"@,
            ErrorCode::TotpNotExposable => "TOTP_NOT_EXPOSABLE"@,
            ErrorCode::ApprovalDenied => "APPROVAL_DENIED"@,
            ErrorCode::ApprovalTimeout => "APPROVAL_TIMEOUT"@,
            ErrorCode::Internal => "INTERNAL"@,
            ErrorCode::NotFound => "NOT_FOUND"@,
            ErrorCode::Unauthorized => "UNAUTHORIZED"@,
            ErrorCode::AdminRequired => "ADMIN_REQUIRED"@,
            ErrorCode::AdminSealUnavailable => "ADMIN_SEAL_UNAVAILABLE"@,
        }
    }

    /// The code as it stands in responses and audit records.
    pub fn as_str(self) -> (r: &'static str)
        ensures
            r@ == self.text(),
    {
        match self {
            ErrorCode::InvalidCredential => "INVALID_CREDENTIAL",
            ErrorCode::MfaRequired => "MFA_REQUIRED",
            ErrorCode::SelectorNotFound => "SELECTOR_NOT_FOUND",
            ErrorCode::VaultLocked => "VAULT_LOCKED",
            ErrorCode::RateLimited => "RATE_LIMITED",
            ErrorCode::TotpNotExposable => "TOTP_NOT_EXPOSABLE",
            ErrorCode::ApprovalDenied => "APPROVAL_DENIED",
            ErrorCode::ApprovalTimeout => "APPROVAL_TIMEOUT",
            ErrorCode::Internal => "INTERNAL",
            ErrorCode::NotFound => "NOT_FOUND",
            ErrorCode::Unauthorized => "UNAUTHORIZED",
            ErrorCode::AdminRequired => "ADMIN_REQUIRED",
            ErrorCode::AdminSealUnavailable => "ADMIN_SEAL_UNAVAILABLE",
        }
    }
}

/// The codes that an executor may report.
pub open spec fn is_executor_code(code: ErrorCode) -> bool {
    !(code is Unauthorized || code is AdminRequired || code is AdminSealUnavailable)
}

/// Reads a code that an executor reported; a text that is none of them counts
/// as an internal error.
pub fn parse_error_code(value: &str) -> (code: ErrorCode)
    ensures
        is_executor_code(code),
        value@ == code.text() || (code is Internal && forall|c: ErrorCode|
            is_executor_code(c) ==> value@ != #[trigger] c.text()),
{
    if same_text(value, "INVALID_CREDENTIAL") {
        ErrorCode::InvalidCredential
    } else if same_text(value, "MFA_REQUIRED") {
        ErrorCode::MfaRequired
    } else if same_text(value, "SELECTOR_NOT_FOUND") {
        ErrorCode::SelectorNotFound
    } else if same_text(value, "VAULT_LOCKED") {
        ErrorCode::VaultLocked
    } else if same_text(value, "RATE_LIMITED") {
        ErrorCode::RateLimited
    } else if same_text(value, "TOTP_NOT_EXPOSABLE") {
        ErrorCode::TotpNotExposable
    } else if same_text(value, "APPROVAL_DENIED") {
        ErrorCode::ApprovalDenied
    } else if same_text(value, "APPROVAL_TIMEOUT") {
        ErrorCode::ApprovalTimeout
    } else if same_text(value, "NOT_FOUND") {
        ErrorCode::NotFound
    } else {
        ErrorCode::Internal
    }
}

/// Different codes have different texts, so a code is known by its text.
pub proof fn law_codes_are_distinct(a: ErrorCode, b: ErrorCode)
    ensures
        a.text() == b.text() ==> a == b,
{
    reveal_strlit("INVALID_CREDENTIAL");
    reveal_strlit("MFA_REQUIRED");
    reveal_strlit("SELECTOR_NOT_FOUND");
    reveal_strlit("VAULT_LOCKED");
    reveal_strlit("RATE_LIMITED");
    reveal_strlit("TOTP_NOT_EXPOSABLE");
    reveal_strlit("APPROVAL_DENIED");
    reveal_strlit("APPROVAL_TIMEOUT");
    reveal_strlit("INTERNAL");
    reveal_strlit("NOT_FOUND");
    reveal_strlit("UNAUTHORIZED");
    reveal_strlit("ADMIN_REQUIRED");
    reveal_strlit("ADMIN_SEAL_UNAVAILABLE");
    if a.text() == b.text() {
        assert(a.text().len() == b.text().len());
        assert(a.text()[0] == b.text()[0]);
        assert(a.text()[1] == b.text()[1]);
        assert(a.text()[9] == b.text()[9]);
    }
}

/// How each code is spelled.
pub proof fn law_codes_are_spelled(code: ErrorCode, text: &'static str)
    requires
        call_ensures(ErrorCode::as_str, (code,), text),
    ensures
        code is InvalidCredential ==> text@ == "INVALID_CREDENTIAL"@,
        code is MfaRequired ==> text@ == "MFA_REQUIRED"@,
        code is SelectorNotFound ==> text@ == "SELECTOR_NOT_FOUND"@,
        code is VaultLocked ==> text@ == "VAULT_LOCKED"@,
        code is RateLimited ==> text@ == "RATE_LIMITED"@,
        code is TotpNotExposable ==> text@ == "TOTP_NOT_EXPOSABLE"@,
        code is ApprovalDenied ==> text@ == "APPROVAL_DENIED"@,
        code is ApprovalTimeout ==> text@ == "APPROVAL_TIMEOUT"@,
        code is Internal ==> text@ == "INTERNAL"@,
        code is NotFound ==> text@ == "NOT_FOUND"@,
        code is Unauthorized ==> text@ == "UNAUTHORIZED"@,
        code is AdminRequired ==> text@ == "ADMIN_REQUIRED"@,
        code is AdminSealUnavailable ==> text@ == "ADMIN_SEAL_UNAVAILABLE"@,
{
}

/// A code that an executor may report is read as it is spelled.
pub proof fn law_codes_are_read_as_spelled(code: ErrorCode, text: &'static str, read: ErrorCode)
    requires
        call_ensures(ErrorCode::as_str, (code,), text),
        call_ensures(parse_error_code, (text,), read),
    ensures
        code is Unauthorized || code is AdminRequired || code is AdminSealUnavailable ==> read
            is Internal,
        !(code is Unauthorized || code is AdminRequired || code is AdminSealUnavailable) ==> read
            == code,
{
    law_codes_are_distinct(code, read);
    assert(text@ == code.text());
}

} // verus!
