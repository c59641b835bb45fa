use vstd::prelude::*;

verus! {

/// The rejections a service operation can report. Every error is local to the
/// one operation that returned it.
///
/// `Unauthorized` covers a missing or unknown session token and any failed
/// login, without distinguishing the reason. `Forbidden` means the session is
/// authenticated but its role does not satisfy the operation's required role.
/// `SelfDeleteForbidden` is distinct from `Forbidden`: an account may never
/// delete itself. A failed write of the exported durable file is the caller's
/// input/output concern and has no variant here.
#[derive(Clone, Copy, PartialEq, Eq, Structural, Debug)]
pub enum ServiceError {
    Unauthorized,
    Forbidden,
    NotFound,
    Conflict,
    SelfDeleteForbidden,
}

impl ServiceError {
    /// The display label of the error.
    pub fn to_string(&self) -> (r: &'static str)
        ensures
            *self == ServiceError::Unauthorized ==> r@ == "unauthorized"@,
            *self == ServiceError::Forbidden ==> r@ == "forbidden"@,
            *self == ServiceError::NotFound ==> r@ == "not found"@,
            *self == ServiceError::Conflict ==> r@ == "conflict"@,
            *self == ServiceError::SelfDeleteForbidden ==> r@ == "cannot delete own account"@,
    {
        match self {
            ServiceError::Unauthorized => "unauthorized",
            ServiceError::Forbidden => "forbidden",
            ServiceError::NotFound => "not found",
            ServiceError::Conflict => "conflict",
            ServiceError::SelfDeleteForbidden => "cannot delete own account",
        }
    }
}

} // verus!
