use std::io;

use rs_release::OsReleaseError;

#[test]
fn errors_are_equal_by_kind() {
    assert_eq!(OsReleaseError::NoFile, OsReleaseError::NoFile);
    assert_eq!(OsReleaseError::ParseError, OsReleaseError::ParseError);
    assert_eq!(
        OsReleaseError::Io(io::Error::from(io::ErrorKind::NotFound)),
        OsReleaseError::Io(io::Error::from(io::ErrorKind::PermissionDenied))
    );
    assert_ne!(OsReleaseError::NoFile, OsReleaseError::ParseError);
    assert_ne!(OsReleaseError::ParseError, OsReleaseError::NoFile);
    assert_ne!(OsReleaseError::Io(io::Error::from(io::ErrorKind::NotFound)), OsReleaseError::NoFile);
    assert_ne!(
        OsReleaseError::ParseError,
        OsReleaseError::Io(io::Error::from(io::ErrorKind::NotFound))
    );
}

#[test]
fn io_errors_convert_into_the_io_kind() {
    let error = OsReleaseError::from(io::Error::from(io::ErrorKind::NotFound));
    match error {
        OsReleaseError::Io(inner) => assert_eq!(io::ErrorKind::NotFound, inner.kind()),
        other => panic!("Expected OsReleaseError::Io, but instead got {:?}", other),
    }
}

#[test]
fn question_mark_converts_io_errors() {
    fn open() -> Result<(), OsReleaseError> {
        Err(io::Error::from(io::ErrorKind::PermissionDenied))?;
        Ok(())
    }
    match open() {
        Err(OsReleaseError::Io(inner)) => {
            assert_eq!(io::ErrorKind::PermissionDenied, inner.kind())
        }
        other => panic!("Expected OsReleaseError::Io, but instead got {:?}", other),
    }
}

#[test]
fn messages_describe_the_failure() {
    assert_eq!("Failed to find os-release file", OsReleaseError::NoFile.message());
    assert_eq!("File is malformed", OsReleaseError::ParseError.message());
    let inner = io::Error::new(io::ErrorKind::Other, "disk on fire");
    assert_eq!("disk on fire", OsReleaseError::Io(inner).message());
    let inner = io::Error::from(io::ErrorKind::NotFound);
    let expected = inner.to_string();
    assert_eq!(expected, OsReleaseError::Io(inner).message());
}

#[test]
fn cause_is_the_underlying_io_error() {
    assert!(OsReleaseError::NoFile.cause().is_none());
    assert!(OsReleaseError::ParseError.cause().is_none());
    let error = OsReleaseError::Io(io::Error::new(io::ErrorKind::InvalidData, "bad bytes"));
    let cause = error.cause().unwrap();
    assert_eq!(io::ErrorKind::InvalidData, cause.kind());
    assert_eq!("bad bytes", cause.to_string());
}
