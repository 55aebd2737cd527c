use rewind_input::ParseError;
use std::io;

#[test]
fn expected_error_carries_its_position() {
    let e = ParseError::Expected { position: 3..7, expected: String::from("digit") };
    match e {
        ParseError::Expected { position, expected } => {
            assert_eq!(position, 3..7);
            assert_eq!(expected, "digit");
        },
        ParseError::ReadError { .. } => panic!("wrong variant"),
    }
}

#[test]
fn read_error_wraps_the_source_failure() {
    let inner = io::Error::new(io::ErrorKind::UnexpectedEof, "closed");
    let e = ParseError::ReadError { inner };
    match e {
        ParseError::ReadError { inner } => {
            assert_eq!(inner.kind(), io::ErrorKind::UnexpectedEof);
        },
        ParseError::Expected { .. } => panic!("wrong variant"),
    }
}
