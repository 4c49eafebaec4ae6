use vstd::prelude::*;

use core::cell::RefCell;
use std::rc::Rc;

use crate::errors::SinkError;
use crate::sink::Sink;

verus! {

/// A processing stage: one element at a time is offered to it together
/// with the pipeline's destination, and the stage may observe the element,
/// write into the destination, and update its own state.
///
/// The stage is modelled by `offered`, the sequence of elements it has
/// been offered so far, which every implementation extends by exactly the
/// offered element on each call. A stage that forwards each offered
/// element to the destination exactly once, unchanged, reports so through
/// `is_pass_through`. Whatever a stage does, it may only append to the
/// destination, never take anything back out of it.
pub trait OutputFilter<Ch: Copy>: Sized {
    /// The elements this stage has been offered so far, in order.
    spec fn offered(&self) -> Seq<Ch>;

    /// Whether this stage forwards each offered element to the
    /// destination exactly once, unchanged, whenever the destination
    /// accepts it.
    spec fn is_pass_through(&self) -> bool;

    /// Process one element against the given destination.
    fn put<S: Sink<Ch>>(&mut self, sink: &mut S, ch: Ch) -> (r: Result<(), SinkError>)
        ensures
            final(self).offered() == old(self).offered().push(ch),
            final(self).is_pass_through() == old(self).is_pass_through(),
            old(sink).contents().is_prefix_of(final(sink).contents()),
            final(sink).always_accepts() == old(sink).always_accepts(),
            old(self).is_pass_through() && old(sink).always_accepts() ==> {
                &&& r is Ok
                &&& final(sink).contents() == old(sink).contents().push(ch)
            },
    ;
}

/// The standard shared mutable cell, declared so that a counter handle
/// can stand in fields and signatures; its inside stays opaque here.
#[verifier::external_type_specification]
#[verifier::external_body]
#[verifier::reject_recursive_types(T)]
pub struct ExRefCell<T: ?Sized>(RefCell<T>);

/// Relies on Rc::deref and RefCell::try_borrow: reads the value currently
/// held by the shared cell, or yields nothing if the holder of another
/// handle keeps a mutable borrow live across the call. It never panics.
#[verifier::external_body]
fn counter_value(c: &Rc<RefCell<usize>>) -> (v: Option<usize>) {
    match c.try_borrow() {
        Ok(guard) => Some(*guard),
        Err(_) => None,
    }
}

/// Relies on Rc::deref and RefCell::try_borrow_mut: stores the given
/// value in the shared cell, or leaves the cell alone if the holder of
/// another handle keeps a borrow live across the call. It never panics.
#[verifier::external_body]
fn counter_store(c: &Rc<RefCell<usize>>, v: usize) {
    if let Ok(mut guard) = c.try_borrow_mut() {
        *guard = v;
    }
}

/// A pass-through counting stage: it writes each offered element into the
/// destination unchanged, then adds one to a counter it shares with code
/// outside the pipeline. A destination failure is swallowed, and the
/// counter still advances; at the counter's top value the count stays
/// put instead of overflowing, and if the holder of another handle keeps
/// a borrow of the cell live across the call, that step of the count is
/// skipped rather than panicking.
///
/// The shared cell itself is opaque here, so the count it holds is not
/// part of this type's contract; the verified model of how much the stage
/// has counted is `offered`, which grows by exactly one element per call,
/// and the cell mirrors its length at run time for outside observers.
pub struct CharCounterFilter<Ch: Copy> {
    c: Rc<RefCell<usize>>,
    log: Ghost<Seq<Ch>>,
}

impl<Ch: Copy> CharCounterFilter<Ch> {
    /// The shared counter handle this stage advances.
    pub closed spec fn counter(&self) -> Rc<RefCell<usize>> {
        self.c
    }

    /// Make a counting stage over the given shared counter; the stage has
    /// not been offered anything yet.
    pub fn new(c: Rc<RefCell<usize>>) -> (r: Self)
        ensures
            r.counter() == c,
            r.offered() == Seq::<Ch>::empty(),
    {
        CharCounterFilter { c, log: Ghost(Seq::empty()) }
    }

    /// Write the element into the destination, swallowing a failure, then
    /// advance the shared counter.
    pub fn process<S: Sink<Ch>>(&mut self, sink: &mut S, ch: Ch) -> (r: Result<(), SinkError>)
        ensures
            r is Ok,
            final(self).counter() == old(self).counter(),
            final(self).offered() == old(self).offered().push(ch),
            final(sink).contents() == old(sink).contents().push(ch)
                || final(sink).contents() == old(sink).contents(),
            final(sink).always_accepts() == old(sink).always_accepts(),
            old(sink).always_accepts() ==>
                final(sink).contents() == old(sink).contents().push(ch),
    {
        let _ = S::put(sink, ch);
        if let Some(v) = counter_value(&self.c) {
            if v < usize::MAX {
                counter_store(&self.c, v + 1);
            }
        }
        proof {
            self.log@ = self.log@.push(ch);
        }
        Ok(())
    }
}

impl<Ch: Copy> OutputFilter<Ch> for CharCounterFilter<Ch> {
    closed spec fn offered(&self) -> Seq<Ch> {
        self.log@
    }

    open spec fn is_pass_through(&self) -> bool {
        true
    }

    fn put<S: Sink<Ch>>(&mut self, sink: &mut S, ch: Ch) -> (r: Result<(), SinkError>) {
        self.process(sink, ch)
    }
}

} // verus!
