use vstd::prelude::*;

verus! {

/// Domain error taxonomy. Every operation of the engine reports its failure
/// as one of these variants; the HTTP layer maps each variant to a status
/// code through `status_code`, the single exhaustive table.
#[derive(Debug)]
pub enum ProdError {
    /// A signed token failed validation.
    InvalidToken(String),
    /// The referenced company domain does not exist.
    NoCompany,
    /// Password hashing failed.
    HashingError(String),
    /// The request failed input validation.
    InvalidRequest(String),
    /// The request was malformed in some other way.
    ShitHappened(String),
    /// The entity to create already exists.
    AlreadyExists(String),
    /// The datastore reported an infrastructure failure.
    DatabaseError(String),
    /// The object store reported an infrastructure failure.
    S3Error(String),
    /// The user already submitted a verification request.
    VerificationError,
    /// The referenced entity is absent, or outside the caller's tenant.
    NotFound(String),
    /// A uniqueness, geometry or temporal constraint was violated.
    Conflict(String),
    /// The caller's role or ownership does not permit the operation.
    Forbidden(String),
    /// Any other, unknown error source.
    Unknown(String),
}

impl ProdError {
    /// The HTTP status this error maps to.
    pub open spec fn spec_status(&self) -> u16 {
        match self {
            ProdError::AlreadyExists(_) => 400,
            ProdError::InvalidRequest(_) => 400,
            ProdError::ShitHappened(_) => 400,
            ProdError::DatabaseError(_) => 500,
            ProdError::Unknown(_) => 500,
            ProdError::HashingError(_) => 500,
            ProdError::S3Error(_) => 500,
            ProdError::Forbidden(_) => 403,
            ProdError::InvalidToken(_) => 403,
            ProdError::Conflict(_) => 409,
            ProdError::VerificationError => 409,
            ProdError::NotFound(_) => 404,
            ProdError::NoCompany => 404,
        }
    }

    /// The exhaustive (error kind -> HTTP status) table: validation failures
    /// are 400, authorization failures 403, absent entities 404, constraint
    /// violations 409, infrastructure failures 500.
    pub fn status_code(&self) -> (s: u16)
        ensures
            s == self.spec_status(),
    {
        match self {
            ProdError::AlreadyExists(_) => 400,
            ProdError::InvalidRequest(_) => 400,
            ProdError::ShitHappened(_) => 400,
            ProdError::DatabaseError(_) => 500,
            ProdError::Unknown(_) => 500,
            ProdError::HashingError(_) => 500,
            ProdError::S3Error(_) => 500,
            ProdError::Forbidden(_) => 403,
            ProdError::InvalidToken(_) => 403,
            ProdError::Conflict(_) => 409,
            ProdError::VerificationError => 409,
            ProdError::NotFound(_) => 404,
            ProdError::NoCompany => 404,
        }
    }

    /// The single human-readable message carried by this error.
    pub fn message(&self) -> (m: &str)
        ensures
            m@ == self.spec_message(),
    {
        match self {
            ProdError::InvalidToken(m) => m.as_str(),
            ProdError::NoCompany => "No such company",
            ProdError::HashingError(m) => m.as_str(),
            ProdError::InvalidRequest(m) => m.as_str(),
            ProdError::ShitHappened(m) => m.as_str(),
            ProdError::AlreadyExists(m) => m.as_str(),
            ProdError::DatabaseError(m) => m.as_str(),
            ProdError::S3Error(m) => m.as_str(),
            ProdError::VerificationError => "User already submit verification request",
            ProdError::NotFound(m) => m.as_str(),
            ProdError::Conflict(m) => m.as_str(),
            ProdError::Forbidden(m) => m.as_str(),
            ProdError::Unknown(m) => m.as_str(),
        }
    }

    /// The message each variant carries.
    pub open spec fn spec_message(&self) -> Seq<char> {
        match self {
            ProdError::InvalidToken(m) => m@,
            ProdError::NoCompany => "No such company"@,
            ProdError::HashingError(m) => m@,
            ProdError::InvalidRequest(m) => m@,
            ProdError::ShitHappened(m) => m@,
            ProdError::AlreadyExists(m) => m@,
            ProdError::DatabaseError(m) => m@,
            ProdError::S3Error(m) => m@,
            ProdError::VerificationError => "User already submit verification request"@,
            ProdError::NotFound(m) => m@,
            ProdError::Conflict(m) => m@,
            ProdError::Forbidden(m) => m@,
            ProdError::Unknown(m) => m@,
        }
    }
}

} // verus!
