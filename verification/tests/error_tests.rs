use daf::error::{
    AlgorithmError, AuthorizationError, CacheError, DataAccessError, NotFoundError, QueryError,
    RepositoryError, ValidationError,
};

#[test]
fn constructors_keep_the_message() {
    assert_eq!(NotFoundError::new("x").0, "x");
    assert_eq!(ValidationError::new("bad").message, "bad");
    assert_eq!(RepositoryError::new("r").0, "r");
    assert_eq!(CacheError::new("c").0, "c");
    assert_eq!(AlgorithmError::new("a").0, "a");
    assert_eq!(AuthorizationError::new("z").0, "z");
}

#[test]
fn each_error_reads_as_its_kind_and_text() {
    assert_eq!(NotFoundError::new("user 1").message(), "resource not found: user 1");
    assert_eq!(ValidationError::new("empty name").message(), "validation failed: empty name");
    assert_eq!(RepositoryError::new("db").message(), "repository error: db");
    assert_eq!(CacheError::new("miss").message(), "cache error: miss");
    assert_eq!(AlgorithmError::new("loop").message(), "algorithm error: loop");
    assert_eq!(AuthorizationError::new("no").message(), "authorization failed: no");
}

#[test]
fn data_access_errors_wrap_their_sources() {
    let e: DataAccessError = NotFoundError::new("u").into();
    assert_eq!(e.message(), "resource not found: resource not found: u");
    let e: DataAccessError = ValidationError::new("v").into();
    assert_eq!(e.message(), "validation failed: v");
    let e: DataAccessError = RepositoryError::new("r").into();
    assert_eq!(e.message(), "repository error: repository error: r");
    let e: DataAccessError = CacheError::new("c").into();
    assert_eq!(e.message(), "cache error: cache error: c");
    let e: DataAccessError = AlgorithmError::new("a").into();
    assert_eq!(e.message(), "algorithm error: algorithm error: a");
    let e: DataAccessError = AuthorizationError::new("z").into();
    assert_eq!(e.message(), "authorization failed: authorization failed: z");
    assert_eq!(
        DataAccessError::GenerationKeyError.message(),
        "generation key missing or malformed"
    );
}

#[test]
fn query_errors_read_as_documented() {
    assert_eq!(QueryError::NotFound.message(), "resource not found");
    assert_eq!(QueryError::AuthorizationFailed.message(), "authorization failed");
    assert_eq!(
        QueryError::ValidationFailed { message: "m".to_string() }.message(),
        "validation failed: m"
    );
    assert_eq!(
        QueryError::UnknownAlgorithm { name: "bfs".to_string() }.message(),
        "unknown algorithm: bfs"
    );
    let e: QueryError = CacheError::new("c").into();
    assert_eq!(e.message(), "cache error: cache error: c");
    let e: QueryError = RepositoryError::new("r").into();
    assert_eq!(e.message(), "repository error: repository error: r");
}
