use rio::{Fetch, RioStream};
use std::io::{Cursor, Error, ErrorKind, Read};

struct Broken;

impl Read for Broken {
    fn read(&mut self, _buf: &mut [u8]) -> std::io::Result<usize> {
        Err(Error::new(ErrorKind::PermissionDenied, "no"))
    }
}

#[test]
fn stream_delivers_bytes_in_order() {
    let mut stream = RioStream::new(Cursor::new(vec![b'a', 0, 255]));
    assert!(matches!(stream.getch(), Fetch::Byte(b'a')));
    assert!(matches!(stream.getch(), Fetch::Byte(0)));
    assert!(matches!(stream.getch(), Fetch::Byte(255)));
    assert!(matches!(stream.getch(), Fetch::Ended));
    assert!(matches!(stream.getch(), Fetch::Ended));
}

#[test]
fn empty_stream_has_ended() {
    let mut stream = RioStream::new(Cursor::new(Vec::new()));
    assert!(matches!(stream.getch(), Fetch::Ended));
}

#[test]
fn stream_reports_failure() {
    let mut stream = RioStream::new(Broken);
    match stream.getch() {
        Fetch::Error(error) => assert_eq!(error.kind(), ErrorKind::PermissionDenied),
        _ => panic!("the failure was not reported"),
    }
}

#[test]
fn stream_over_a_slice() {
    let bytes: &[u8] = b"xy";
    let mut stream = RioStream::new(bytes);
    assert!(matches!(stream.getch(), Fetch::Byte(b'x')));
    assert!(matches!(stream.getch(), Fetch::Byte(b'y')));
    assert!(matches!(stream.getch(), Fetch::Ended));
}

#[test]
fn items_are_told_apart() {
    assert!(matches!(Fetch::from_item(None), Fetch::Ended));
    assert!(matches!(Fetch::from_item(Some(Ok(7))), Fetch::Byte(7)));
    let failed = Fetch::from_item(Some(Err(Error::new(ErrorKind::TimedOut, "late"))));
    match failed {
        Fetch::Error(error) => assert_eq!(error.kind(), ErrorKind::TimedOut),
        _ => panic!("the failure was not kept"),
    }
}
