use outpipe::Sink;
use outpipe::SinkError;

#[test]
fn string_sink_appends_every_byte() {
    let mut s = String::new();
    assert_eq!(<String as Sink<u8>>::write(&mut s, &b"hi"[..]), Ok(2));
    assert_eq!(<String as Sink<u8>>::write(&mut s, &b" there"[..]), Ok(6));
    assert_eq!(s, "hi there");
}

#[test]
fn string_sink_put_appends_one_byte() {
    let mut s = String::from("hi");
    assert_eq!(<String as Sink<u8>>::put(&mut s, b'!'), Ok(()));
    assert_eq!(s, "hi!");
}

#[test]
fn string_sink_accepts_empty_batch() {
    let mut s = String::new();
    assert_eq!(<String as Sink<u8>>::write(&mut s, &b""[..]), Ok(0));
    assert_eq!(s, "");
}

/// A destination that refuses every batch outright.
struct RefusingSink;

impl Sink<u8> for RefusingSink {
    fn contents(&self) -> vstd::seq::Seq<u8> {
        unreachable!()
    }

    fn always_accepts(&self) -> bool {
        unreachable!()
    }

    fn write(_sink: &mut RefusingSink, _buf: &[u8]) -> Result<usize, SinkError> {
        Err(SinkError)
    }
}

/// A destination that reports acceptance of nothing.
struct NullSink;

impl Sink<u8> for NullSink {
    fn contents(&self) -> vstd::seq::Seq<u8> {
        unreachable!()
    }

    fn always_accepts(&self) -> bool {
        unreachable!()
    }

    fn write(_sink: &mut NullSink, _buf: &[u8]) -> Result<usize, SinkError> {
        Ok(0)
    }
}

#[test]
fn put_propagates_a_refusal() {
    let mut s = RefusingSink;
    assert_eq!(<RefusingSink as Sink<u8>>::put(&mut s, b'x'), Err(SinkError));
}

#[test]
fn put_fails_on_a_short_write() {
    let mut s = NullSink;
    assert_eq!(<NullSink as Sink<u8>>::put(&mut s, b'x'), Err(SinkError));
}
