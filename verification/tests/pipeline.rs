use outpipe::CharCounterFilter;
use outpipe::Sink;
use outpipe::SinkError;
use outpipe::Stream;
use std::cell::RefCell;
use std::rc::Rc;

#[test]
fn test_hoge() {
    let mut s = Stream::<u8, String, CharCounterFilter<u8>>::new(String::new());

    let c = Rc::new(RefCell::new(0));
    s.push(CharCounterFilter::new(c.clone()));
    let _ = s.write(&b"hello"[..]);

    assert_eq!(*c.borrow(), 5);
    assert_eq!(s.finish(), "hello");
}

#[test]
fn empty_chain_echoes_batch_length() {
    let mut s = Stream::<u8, String, CharCounterFilter<u8>>::new(String::new());
    assert_eq!(s.write(&b"xyz"[..]), Ok(3));
    assert_eq!(s.finish(), "");
}

#[test]
fn empty_batch_writes_nothing() {
    let mut s = Stream::<u8, String, CharCounterFilter<u8>>::new(String::new());
    let c = Rc::new(RefCell::new(0));
    s.push(CharCounterFilter::new(c.clone()));
    assert_eq!(s.write(&b""[..]), Ok(0));
    assert_eq!(*c.borrow(), 0);
    assert_eq!(s.finish(), "");
}

#[test]
fn two_counters_count_independently() {
    let mut s = Stream::<u8, String, CharCounterFilter<u8>>::new(String::new());
    let c1 = Rc::new(RefCell::new(0));
    let c2 = Rc::new(RefCell::new(0));
    s.push(CharCounterFilter::new(c1.clone()));
    s.push(CharCounterFilter::new(c2.clone()));

    assert_eq!(s.write(&b"abc"[..]), Ok(3));

    assert_eq!(*c1.borrow(), 3);
    assert_eq!(*c2.borrow(), 3);
    // Each of the two stages forwards each element exactly once, in push
    // order, so every element lands in the buffer twice in a row.
    assert_eq!(s.finish(), "aabbcc");
}

#[test]
fn writes_accumulate_in_call_order() {
    let mut s = Stream::<u8, String, CharCounterFilter<u8>>::new(String::new());
    let c = Rc::new(RefCell::new(0));
    s.push(CharCounterFilter::new(c.clone()));

    assert_eq!(s.write(&b"he"[..]), Ok(2));
    assert_eq!(s.write(&b"llo"[..]), Ok(3));

    assert_eq!(*c.borrow(), 5);
    assert_eq!(s.finish(), "hello");
}

#[test]
fn pushing_later_leaves_earlier_stages_alone() {
    let mut s = Stream::<u8, String, CharCounterFilter<u8>>::new(String::new());
    let c1 = Rc::new(RefCell::new(0));
    let c2 = Rc::new(RefCell::new(0));
    s.push(CharCounterFilter::new(c1.clone()));
    assert_eq!(s.write(&b"ab"[..]), Ok(2));

    s.push(CharCounterFilter::new(c2.clone()));
    assert_eq!(s.write(&b"c"[..]), Ok(1));

    assert_eq!(*c1.borrow(), 3);
    assert_eq!(*c2.borrow(), 1);
    assert_eq!(s.finish(), "abcc");
}

/// A destination that refuses every batch outright.
struct DownSink;

impl Sink<u8> for DownSink {
    fn contents(&self) -> vstd::seq::Seq<u8> {
        unreachable!()
    }

    fn always_accepts(&self) -> bool {
        unreachable!()
    }

    fn write(_sink: &mut DownSink, _buf: &[u8]) -> Result<usize, SinkError> {
        Err(SinkError)
    }
}

// The stated policy: a sink failure inside a stage is swallowed, the
// chain keeps going, `write` still echoes the batch length, and the
// counting stage still counts every element.
#[test]
fn stage_failures_are_swallowed_and_counted() {
    let mut s = Stream::<u8, DownSink, CharCounterFilter<u8>>::new(DownSink);
    let c = Rc::new(RefCell::new(0));
    s.push(CharCounterFilter::new(c.clone()));

    assert_eq!(s.write(&b"hello"[..]), Ok(5));
    assert_eq!(*c.borrow(), 5);
}

#[test]
fn counter_starts_where_the_caller_left_it() {
    let mut s = Stream::<u8, String, CharCounterFilter<u8>>::new(String::new());
    let c = Rc::new(RefCell::new(40));
    s.push(CharCounterFilter::new(c.clone()));
    assert_eq!(s.write(&b"ab"[..]), Ok(2));
    assert_eq!(*c.borrow(), 42);
    assert_eq!(s.finish(), "ab");
}
