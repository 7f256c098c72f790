//! Error values of the data-access layer, and the text each one reads as.

use vstd::prelude::*;
use vstd::string::StringExecFns;

verus! {

/// `head` followed by `tail`, as a new string.
fn joined(head: &str, tail: &str) -> (res: String)
    ensures
        res@ == head@ + tail@,
{
    let mut s = String::from_str(head);
    s.append(tail);
    s
}

/// A resource that was asked for does not exist.
#[derive(Debug, Clone)]
pub struct NotFoundError(pub String);

/// Input that failed validation.
#[derive(Debug, Clone)]
pub struct ValidationError {
    pub message: String,
}

/// A failure of the backing repository.
#[derive(Debug, Clone)]
pub struct RepositoryError(pub String);

/// A failure of a cache tier.
#[derive(Debug, Clone)]
pub struct CacheError(pub String);

/// A failure of an algorithm run.
#[derive(Debug, Clone)]
pub struct AlgorithmError(pub String);

/// A refused authorization.
#[derive(Debug, Clone)]
pub struct AuthorizationError(pub String);

impl NotFoundError {
    pub fn new(msg: &str) -> (res: Self)
        ensures
            res.0@ == msg@,
    {
        NotFoundError(msg.to_owned())
    }

    /// The text this error reads as.
    pub fn message(&self) -> (res: String)
        ensures
            res@ == "resource not found: "@ + self.0@,
    {
        joined("resource not found: ", self.0.as_str())
    }
}

impl ValidationError {
    pub fn new(msg: &str) -> (res: Self)
        ensures
            res.message@ == msg@,
    {
        ValidationError { message: msg.to_owned() }
    }

    /// The text this error reads as.
    pub fn message(&self) -> (res: String)
        ensures
            res@ == "validation failed: "@ + self.message@,
    {
        joined("validation failed: ", self.message.as_str())
    }
}

impl RepositoryError {
    pub fn new(msg: &str) -> (res: Self)
        ensures
            res.0@ == msg@,
    {
        RepositoryError(msg.to_owned())
    }

    /// The text this error reads as.
    pub fn message(&self) -> (res: String)
        ensures
            res@ == "repository error: "@ + self.0@,
    {
        joined("repository error: ", self.0.as_str())
    }
}

impl CacheError {
    pub fn new(msg: &str) -> (res: Self)
        ensures
            res.0@ == msg@,
    {
        CacheError(msg.to_owned())
    }

    /// The text this error reads as.
    pub fn message(&self) -> (res: String)
        ensures
            res@ == "cache error: "@ + self.0@,
    {
        joined("cache error: ", self.0.as_str())
    }
}

impl AlgorithmError {
    pub fn new(msg: &str) -> (res: Self)
        ensures
            res.0@ == msg@,
    {
        AlgorithmError(msg.to_owned())
    }

    /// The text this error reads as.
    pub fn message(&self) -> (res: String)
        ensures
            res@ == "algorithm error: "@ + self.0@,
    {
        joined("algorithm error: ", self.0.as_str())
    }
}

impl AuthorizationError {
    pub fn new(msg: &str) -> (res: Self)
        ensures
            res.0@ == msg@,
    {
        AuthorizationError(msg.to_owned())
    }

    /// The text this error reads as.
    pub fn message(&self) -> (res: String)
        ensures
            res@ == "authorization failed: "@ + self.0@,
    {
        joined("authorization failed: ", self.0.as_str())
    }
}

/// Every failure that a data-access operation can report.
#[derive(Debug)]
pub enum DataAccessError {
    NotFound(NotFoundError),
    Validation(ValidationError),
    Repository(RepositoryError),
    Cache(CacheError),
    GenerationKeyError,
    Algorithm(AlgorithmError),
    Authorization(AuthorizationError),
}

impl DataAccessError {
    /// The text this error reads as: each wrapped error is named by its
    /// kind and followed by its own text; a validation error reads as its
    /// own text.
    pub fn message(&self) -> (res: String)
        ensures
            res@ == (match self {
                DataAccessError::NotFound(e) => "resource not found: "@ + ("resource not found: "@
                    + e.0@),
                DataAccessError::Validation(e) => "validation failed: "@ + e.message@,
                DataAccessError::Repository(e) => "repository error: "@ + ("repository error: "@
                    + e.0@),
                DataAccessError::Cache(e) => "cache error: "@ + ("cache error: "@ + e.0@),
                DataAccessError::GenerationKeyError => "generation key missing or malformed"@,
                DataAccessError::Algorithm(e) => "algorithm error: "@ + ("algorithm error: "@
                    + e.0@),
                DataAccessError::Authorization(e) => "authorization failed: "@ + (
                "authorization failed: "@ + e.0@),
            }),
    {
        match self {
            DataAccessError::NotFound(e) => joined("resource not found: ", e.message().as_str()),
            DataAccessError::Validation(e) => e.message(),
            DataAccessError::Repository(e) => joined("repository error: ", e.message().as_str()),
            DataAccessError::Cache(e) => joined("cache error: ", e.message().as_str()),
            DataAccessError::GenerationKeyError => String::from_str(
                "generation key missing or malformed",
            ),
            DataAccessError::Algorithm(e) => joined("algorithm error: ", e.message().as_str()),
            DataAccessError::Authorization(e) => joined(
                "authorization failed: ",
                e.message().as_str(),
            ),
        }
    }
}

impl From<NotFoundError> for DataAccessError {
    fn from(e: NotFoundError) -> (res: Self) {
        DataAccessError::NotFound(e)
    }
}

impl vstd::std_specs::convert::FromSpecImpl<NotFoundError> for DataAccessError {
    open spec fn obeys_from_spec() -> bool {
        true
    }

    open spec fn from_spec(e: NotFoundError) -> Self {
        DataAccessError::NotFound(e)
    }
}

impl From<ValidationError> for DataAccessError {
    fn from(e: ValidationError) -> (res: Self) {
        DataAccessError::Validation(e)
    }
}

impl vstd::std_specs::convert::FromSpecImpl<ValidationError> for DataAccessError {
    open spec fn obeys_from_spec() -> bool {
        true
    }

    open spec fn from_spec(e: ValidationError) -> Self {
        DataAccessError::Validation(e)
    }
}

impl From<RepositoryError> for DataAccessError {
    fn from(e: RepositoryError) -> (res: Self) {
        DataAccessError::Repository(e)
    }
}

impl vstd::std_specs::convert::FromSpecImpl<RepositoryError> for DataAccessError {
    open spec fn obeys_from_spec() -> bool {
        true
    }

    open spec fn from_spec(e: RepositoryError) -> Self {
        DataAccessError::Repository(e)
    }
}

impl From<CacheError> for DataAccessError {
    fn from(e: CacheError) -> (res: Self) {
        DataAccessError::Cache(e)
    }
}

impl vstd::std_specs::convert::FromSpecImpl<CacheError> for DataAccessError {
    open spec fn obeys_from_spec() -> bool {
        true
    }

    open spec fn from_spec(e: CacheError) -> Self {
        DataAccessError::Cache(e)
    }
}

impl From<AlgorithmError> for DataAccessError {
    fn from(e: AlgorithmError) -> (res: Self) {
        DataAccessError::Algorithm(e)
    }
}

impl vstd::std_specs::convert::FromSpecImpl<AlgorithmError> for DataAccessError {
    open spec fn obeys_from_spec() -> bool {
        true
    }

    open spec fn from_spec(e: AlgorithmError) -> Self {
        DataAccessError::Algorithm(e)
    }
}

impl From<AuthorizationError> for DataAccessError {
    fn from(e: AuthorizationError) -> (res: Self) {
        DataAccessError::Authorization(e)
    }
}

impl vstd::std_specs::convert::FromSpecImpl<AuthorizationError> for DataAccessError {
    open spec fn obeys_from_spec() -> bool {
        true
    }

    open spec fn from_spec(e: AuthorizationError) -> Self {
        DataAccessError::Authorization(e)
    }
}

/// Every failure that a query can report.
#[derive(Debug)]
pub enum QueryError {
    NotFound,
    AuthorizationFailed,
    ValidationFailed { message: String },
    UnknownAlgorithm { name: String },
    CacheError(CacheError),
    RepositoryError(RepositoryError),
}

impl QueryError {
    /// The text this error reads as.
    pub fn message(&self) -> (res: String)
        ensures
            res@ == (match self {
                QueryError::NotFound => "resource not found"@,
                QueryError::AuthorizationFailed => "authorization failed"@,
                QueryError::ValidationFailed { message } => "validation failed: "@ + message@,
                QueryError::UnknownAlgorithm { name } => "unknown algorithm: "@ + name@,
                QueryError::CacheError(e) => "cache error: "@ + ("cache error: "@ + e.0@),
                QueryError::RepositoryError(e) => "repository error: "@ + ("repository error: "@
                    + e.0@),
            }),
    {
        match self {
            QueryError::NotFound => String::from_str("resource not found"),
            QueryError::AuthorizationFailed => String::from_str("authorization failed"),
            QueryError::ValidationFailed { message } => joined(
                "validation failed: ",
                message.as_str(),
            ),
            QueryError::UnknownAlgorithm { name } => joined("unknown algorithm: ", name.as_str()),
            QueryError::CacheError(e) => joined("cache error: ", e.message().as_str()),
            QueryError::RepositoryError(e) => joined("repository error: ", e.message().as_str()),
        }
    }
}

impl From<CacheError> for QueryError {
    fn from(e: CacheError) -> (res: Self) {
        QueryError::CacheError(e)
    }
}

impl vstd::std_specs::convert::FromSpecImpl<CacheError> for QueryError {
    open spec fn obeys_from_spec() -> bool {
        true
    }

    open spec fn from_spec(e: CacheError) -> Self {
        QueryError::CacheError(e)
    }
}

impl From<RepositoryError> for QueryError {
    fn from(e: RepositoryError) -> (res: Self) {
        QueryError::RepositoryError(e)
    }
}

impl vstd::std_specs::convert::FromSpecImpl<RepositoryError> for QueryError {
    open spec fn obeys_from_spec() -> bool {
        true
    }

    open spec fn from_spec(e: RepositoryError) -> Self {
        QueryError::RepositoryError(e)
    }
}

} // verus!
