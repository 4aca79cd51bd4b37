use rustwav::adpcm::ima::ImaAdpcmError;
use rustwav::errors::{AudioReadError, ErrorKind, IOErrorInfo};

#[test]
fn io_error_info_keeps_its_fields() {
    let e = IOErrorInfo::new(ErrorKind::NotFound, "missing".to_string());
    assert_eq!(e.kind, ErrorKind::NotFound);
    assert_eq!(e.message, "missing");
}

#[test]
fn unexpected_eof_is_an_io_error() {
    match AudioReadError::UnexpectedEof("short".to_string()) {
        AudioReadError::IOError(info) => {
            assert_eq!(info.kind, ErrorKind::UnexpectedEof);
            assert_eq!(info.message, "short");
        },
        _ => panic!("not an I/O error"),
    }
}

#[test]
fn ima_error_converts_to_invalid_arguments() {
    let e = ImaAdpcmError::InvalidArgument("bad".to_string());
    assert_eq!(e.to_message(), "Invalid arguments: bad");
    match AudioReadError::from(e) {
        AudioReadError::InvalidArguments(info) => assert_eq!(info, "bad"),
        _ => panic!("wrong variant"),
    }
}
