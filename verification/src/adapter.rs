use vstd::prelude::*;

use core::marker::PhantomData;

use crate::errors::SinkError;
use crate::filter::OutputFilter;
use crate::sink::Sink;

verus! {

/// The destination-specific face of a stage: the contract the pipeline's
/// chain stores and invokes, specialized to one destination type. It
/// restates the stage contract of `OutputFilter` for that destination.
pub trait FilterTrait<Ch: Copy, S: Sink<Ch>>: Sized {
    /// The elements this stage has been offered so far, in order.
    spec fn offered(&self) -> Seq<Ch>;

    /// Whether this stage forwards each offered element to the
    /// destination exactly once, unchanged, whenever the destination
    /// accepts it.
    spec fn is_pass_through(&self) -> bool;

    /// Process one element against the given destination.
    fn put_trait(&mut self, s: &mut S, ch: Ch) -> (r: Result<(), SinkError>)
        ensures
            final(self).offered() == old(self).offered().push(ch),
            final(self).is_pass_through() == old(self).is_pass_through(),
            old(s).contents().is_prefix_of(final(s).contents()),
            final(s).always_accepts() == old(s).always_accepts(),
            old(self).is_pass_through() && old(s).always_accepts() ==> {
                &&& r is Ok
                &&& final(s).contents() == old(s).contents().push(ch)
            },
    ;
}

/// Binds a concrete stage to one destination type, so that the pipeline
/// can keep its stages in one ordered collection and drive them through
/// the single `FilterTrait` contract.
pub struct FilterWrap<Ch: Copy, T: OutputFilter<Ch>> {
    t: T,
    _marker: PhantomData<Ch>,
}

impl<Ch: Copy, T: OutputFilter<Ch>> FilterWrap<Ch, T> {
    /// The stage this adapter carries.
    pub closed spec fn stage(&self) -> T {
        self.t
    }

    /// Wrap one stage for the pipeline's chain.
    pub(crate) fn wrap(t: T) -> (r: Self)
        ensures
            r.stage() == t,
    {
        FilterWrap { t, _marker: PhantomData }
    }
}

impl<Ch: Copy, S: Sink<Ch>, T: OutputFilter<Ch>> FilterTrait<Ch, S> for FilterWrap<Ch, T> {
    open spec fn offered(&self) -> Seq<Ch> {
        self.stage().offered()
    }

    open spec fn is_pass_through(&self) -> bool {
        self.stage().is_pass_through()
    }

    fn put_trait(&mut self, s: &mut S, ch: Ch) -> (r: Result<(), SinkError>) {
        self.t.put(s, ch)
    }
}

} // verus!
