use vstd::prelude::*;

use crate::errors::SinkError;

verus! {

/// A destination that accepts batches of elements.
///
/// The destination is modelled by `contents`: the sequence of elements it
/// has accepted so far, in acceptance order. `write` may accept only a
/// prefix of a batch (a short write); when it fails, nothing of the batch
/// is accepted. A destination that can never refuse data reports so
/// through `always_accepts`, and every write into it is then accepted in
/// full.
pub trait Sink<Ch: Copy>: Sized {
    /// The elements this destination has accepted so far, in order.
    spec fn contents(&self) -> Seq<Ch>;

    /// Whether every write into this destination is accepted in full:
    /// such a destination never fails and never performs a short write.
    spec fn always_accepts(&self) -> bool;

    /// Accept a batch of elements; report how many of them were accepted,
    /// counted from the front of the batch, or that none were.
    fn write(sink: &mut Self, buf: &[Ch]) -> (r: Result<usize, SinkError>)
        ensures
            match r {
                Ok(n) => n <= buf@.len()
                    && final(sink).contents() == old(sink).contents() + buf@.take(n as int),
                Err(_) => final(sink).contents() == old(sink).contents(),
            },
            final(sink).always_accepts() == old(sink).always_accepts(),
            old(sink).always_accepts() ==> {
                &&& r is Ok
                &&& r matches Ok(n) ==> n == buf@.len()
                &&& final(sink).contents() == old(sink).contents() + buf@
            },
    ;

    /// Accept a single element; succeed exactly when the element was
    /// accepted.
    fn put(sink: &mut Self, ch: Ch) -> (r: Result<(), SinkError>)
        ensures
            match r {
                Ok(_) => final(sink).contents() == old(sink).contents().push(ch),
                Err(_) => final(sink).contents() == old(sink).contents(),
            },
            final(sink).always_accepts() == old(sink).always_accepts(),
            old(sink).always_accepts() ==> r is Ok,
    {
        let mut one: Vec<Ch> = Vec::new();
        one.push(ch);
        match Self::write(sink, one.as_slice()) {
            Ok(n) => {
                if n == 1 {
                    proof {
                        assert(one@.take(1) =~= seq![ch]);
                        assert(old(sink).contents() + seq![ch]
                            =~= old(sink).contents().push(ch));
                    }
                    Ok(())
                } else {
                    proof {
                        assert(one@.take(n as int) =~= Seq::<Ch>::empty());
                        assert(old(sink).contents() + Seq::<Ch>::empty()
                            =~= old(sink).contents());
                    }
                    Err(SinkError)
                }
            },
            Err(e) => Err(e),
        }
    }
}

} // verus!
