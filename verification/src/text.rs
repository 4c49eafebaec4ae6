use vstd::prelude::*;

use crate::errors::SinkError;
use crate::sink::Sink;

verus! {

/// The bytes a string's characters stand for, in order. A `String` used as
/// a byte destination only ever holds characters pushed from bytes, so the
/// view truncates each character to its low byte.
pub open spec fn bytes_of(s: Seq<char>) -> Seq<u8> {
    s.map_values(|c: char| c as u8)
}

/// Relies on String::push: appends the given character to the end of the
/// string.
#[verifier::external_body]
fn push_char(s: &mut String, c: char)
    ensures
        final(s)@ == old(s)@.push(c),
{
    s.push(c);
}

/// A growable text buffer as a byte destination: every byte is appended as
/// the character it encodes, and no write ever fails.
impl Sink<u8> for String {
    open spec fn contents(&self) -> Seq<u8> {
        bytes_of(self@)
    }

    open spec fn always_accepts(&self) -> bool {
        true
    }

    fn write(sink: &mut String, buf: &[u8]) -> (r: Result<usize, SinkError>)
        ensures
            final(sink)@ == old(sink)@ + buf@.map_values(|b: u8| b as char),
    {
        let mut i: usize = 0;
        while i < buf.len()
            invariant
                i <= buf@.len(),
                sink.contents() == old(sink).contents() + buf@.take(i as int),
                sink@ == old(sink)@ + buf@.take(i as int).map_values(|b: u8| b as char),
            decreases buf@.len() - i,
        {
            let ghost prev: Seq<char> = sink@;
            push_char(sink, buf[i] as char);
            proof {
                assert(bytes_of(prev.push(buf@[i as int] as char))
                    =~= bytes_of(prev).push(buf@[i as int]));
                assert(old(sink).contents() + buf@.take(i as int + 1)
                    =~= (old(sink).contents() + buf@.take(i as int)).push(buf@[i as int]));
                assert(old(sink)@ + buf@.take(i as int + 1).map_values(|b: u8| b as char)
                    =~= prev.push(buf@[i as int] as char));
            }
            i = i + 1;
        }
        proof {
            assert(buf@.take(buf@.len() as int) =~= buf@);
        }
        Ok(buf.len())
    }
}

} // verus!
