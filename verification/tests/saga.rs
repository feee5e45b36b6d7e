use nexus_store::error::StoreError;
use nexus_store::saga::SagaError;
use nexus_store::version::Version;

type TestStoreError = StoreError<std::io::Error, std::convert::Infallible, std::convert::Infallible>;
type TestSagaError = SagaError<&'static str, TestStoreError>;

#[test]
fn conflict_store_error_is_conflict() {
    let e: TestSagaError = SagaError::Store(StoreError::Conflict {
        stream_id: b"s".to_vec(),
        expected: Some(Version::initial()),
        actual: None,
    });
    assert!(e.is_conflict());
}

#[test]
fn react_error_is_not_conflict() {
    let e: TestSagaError = SagaError::React("rejected");
    assert!(!e.is_conflict());
}

#[test]
fn version_overflow_is_not_conflict() {
    let e: TestSagaError = SagaError::VersionOverflow;
    assert!(!e.is_conflict());
}

#[test]
fn non_conflict_store_errors_are_not_conflicts() {
    let e: TestSagaError = SagaError::Store(StoreError::VersionOverflow);
    assert!(!e.is_conflict());
    let e: TestSagaError = SagaError::Store(StoreError::StreamNotFound {
        stream_id: b"s".to_vec(),
    });
    assert!(!e.is_conflict());
    let e: TestSagaError = SagaError::Store(StoreError::Adapter(std::io::Error::other("boom")));
    assert!(!e.is_conflict());
}
