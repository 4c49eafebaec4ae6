use vstd::prelude::*;

use crate::adapter::FilterTrait;
use crate::adapter::FilterWrap;
use crate::errors::SinkError;
use crate::filter::OutputFilter;
use crate::sink::Sink;

verus! {

/// Each element of `s` in order, repeated `k` times in a row: what a chain
/// of `k` pass-through stages deposits in the destination for a batch `s`.
pub open spec fn repeat_each<Ch>(s: Seq<Ch>, k: nat) -> Seq<Ch>
    decreases s.len(),
{
    if s.len() == 0 {
        Seq::empty()
    } else {
        Seq::new(k, |j: int| s[0]) + repeat_each(s.drop_first(), k)
    }
}

/// Whether every stage of the chain forwards each offered element to the
/// destination exactly once, unchanged.
pub open spec fn all_pass_through<Ch: Copy, F: OutputFilter<Ch>>(stages: Seq<F>) -> bool {
    forall|i: int| 0 <= i < stages.len() ==> (#[trigger] stages[i]).is_pass_through()
}

/// Appending one element to a batch appends one more run of `k` copies to
/// what the chain deposits.
pub proof fn lemma_repeat_each_push<Ch>(s: Seq<Ch>, x: Ch, k: nat)
    ensures
        repeat_each(s.push(x), k) == repeat_each(s, k) + Seq::new(k, |j: int| x),
    decreases s.len(),
{
    if s.len() == 0 {
        assert(s =~= Seq::<Ch>::empty());
        assert(s.push(x).drop_first() =~= Seq::<Ch>::empty());
        assert(repeat_each(s.push(x), k)
            == Seq::new(k, |j: int| s.push(x)[0]) + repeat_each(Seq::<Ch>::empty(), k));
        assert(Seq::new(k, |j: int| s.push(x)[0]) + repeat_each(Seq::<Ch>::empty(), k)
            =~= repeat_each(s, k) + Seq::new(k, |j: int| x));
    } else {
        assert(s.push(x).drop_first() =~= s.drop_first().push(x));
        lemma_repeat_each_push(s.drop_first(), x, k);
        assert(repeat_each(s.push(x), k)
            == Seq::new(k, |j: int| s.push(x)[0]) + repeat_each(s.drop_first().push(x), k));
        assert(repeat_each(s, k)
            == Seq::new(k, |j: int| s[0]) + repeat_each(s.drop_first(), k));
        assert(Seq::new(k, |j: int| s.push(x)[0])
            + (repeat_each(s.drop_first(), k) + Seq::new(k, |j: int| x))
            =~= (Seq::new(k, |j: int| s[0]) + repeat_each(s.drop_first(), k))
                + Seq::new(k, |j: int| x));
    }
}

/// A chain of `k` stages deposits `k` copies for each element of the
/// batch, and nothing else.
pub proof fn lemma_repeat_each_len<Ch>(s: Seq<Ch>, k: nat)
    ensures
        repeat_each(s, k).len() == s.len() * k,
    decreases s.len(),
{
    if s.len() == 0 {
    } else {
        lemma_repeat_each_len(s.drop_first(), k);
        assert(repeat_each(s, k).len() == k + (s.len() - 1) * k);
        assert(k + (s.len() - 1) * k == s.len() * k) by (nonlinear_arith)
            requires
                s.len() >= 1;
    }
}

/// Law: the deposit of a chain of `k` pass-through stages keeps the
/// batch's order — the `k` copies made for an element stand together,
/// one per stage in chain order, and after every copy made for the
/// elements before it.
pub proof fn lemma_repeat_each_index<Ch>(s: Seq<Ch>, k: nat, e: int, q: int)
    requires
        0 <= e < s.len(),
        0 <= q < k,
    ensures
        repeat_each(s, k).len() == s.len() * k,
        repeat_each(s, k)[e * k + q] == s[e],
    decreases e,
{
    lemma_repeat_each_len(s, k);
    if e == 0 {
        assert(e * k + q == q) by (nonlinear_arith)
            requires
                e == 0;
        assert(repeat_each(s, k)[q] == Seq::new(k, |j: int| s[0])[q]);
    } else {
        lemma_repeat_each_index(s.drop_first(), k, e - 1, q);
        lemma_repeat_each_len(s.drop_first(), k);
        assert(k <= e * k + q && e * k + q - k == (e - 1) * k + q) by (nonlinear_arith)
            requires
                e >= 1 && q >= 0 && k >= 1;
        assert(0 <= (e - 1) * k + q < s.drop_first().len() * k) by (nonlinear_arith)
            requires
                1 <= e < s.len() && 0 <= q < k && s.drop_first().len() == s.len() - 1;
        assert(repeat_each(s, k)[e * k + q]
            == repeat_each(s.drop_first(), k)[(e - 1) * k + q]);
        assert(s.drop_first()[e - 1] == s[e]);
    }
}

/// Law: a chain's deposit for two batches written one after the other is
/// its deposit for their concatenation — successive writes accumulate in
/// call order exactly as one combined write would.
pub proof fn lemma_repeat_each_concat<Ch>(a: Seq<Ch>, b: Seq<Ch>, k: nat)
    ensures
        repeat_each(a + b, k) == repeat_each(a, k) + repeat_each(b, k),
    decreases b.len(),
{
    if b.len() == 0 {
        assert(a + b =~= a);
        assert(repeat_each(a, k) + repeat_each(b, k) =~= repeat_each(a, k));
    } else {
        let front = b.drop_last();
        let x = b.last();
        lemma_repeat_each_concat(a, front, k);
        lemma_repeat_each_push(a + front, x, k);
        lemma_repeat_each_push(front, x, k);
        assert((a + front).push(x) =~= a + b);
        assert(front.push(x) =~= b);
        assert(repeat_each(a, k) + (repeat_each(front, k) + Seq::new(k, |j: int| x))
            =~= (repeat_each(a, k) + repeat_each(front, k)) + Seq::new(k, |j: int| x));
    }
}

/// Law: through a single pass-through stage the deposit is the batch
/// itself, unchanged and in order.
pub proof fn lemma_repeat_each_one<Ch>(s: Seq<Ch>)
    ensures
        repeat_each(s, 1) == s,
    decreases s.len(),
{
    if s.len() == 0 {
        assert(repeat_each(s, 1) =~= s);
    } else {
        lemma_repeat_each_one(s.drop_first());
        assert(Seq::new(1, |j: int| s[0]) =~= seq![s[0]]);
        assert(seq![s[0]] + s.drop_first() =~= s);
    }
}

/// The pipeline: one owned destination and an ordered, append-only chain
/// of stages. Every written element is driven through every stage in the
/// order the stages were pushed, and each element finishes the whole
/// chain before the next element starts.
///
/// The chain holds one stage type `F` per pipeline, stated as a type
/// parameter rather than erased behind an owning handle, so that the
/// stages' contracts stay visible to the verifier; stages of differing
/// kinds share a pipeline through a caller-defined stage type that
/// dispatches among them.
///
/// The pipeline is deliberately permissive about stage failures: a
/// failure a stage meets is swallowed, the chain continues with the
/// remaining stages and elements, and `write` reports the batch length
/// regardless. The reported count is therefore an echo of the request
/// size, not a promise that the destination stored every element; what
/// the destination did store is stated separately in `write`'s contract.
pub struct Stream<Ch: Copy, S: Sink<Ch>, F: OutputFilter<Ch>> {
    s: S,
    chain: Vec<FilterWrap<Ch, F>>,
}

impl<Ch: Copy, S: Sink<Ch>, F: OutputFilter<Ch>> Stream<Ch, S, F> {
    /// The destination this pipeline owns.
    pub closed spec fn sink(&self) -> S {
        self.s
    }

    /// The stages of the chain, in execution order.
    pub closed spec fn stages(&self) -> Seq<F> {
        self.chain@.map_values(|w: FilterWrap<Ch, F>| w.stage())
    }

    /// Make a pipeline over the given destination; the chain starts
    /// empty.
    pub fn new(s: S) -> (r: Self)
        ensures
            r.sink() == s,
            r.stages() == Seq::<F>::empty(),
    {
        let r = Stream { s, chain: Vec::new() };
        proof {
            assert(r.stages() =~= Seq::<F>::empty());
        }
        r
    }

    /// Append one stage to the end of the chain. Stages already pushed
    /// keep their place and their state.
    pub fn push(&mut self, f: F)
        ensures
            final(self).sink() == old(self).sink(),
            final(self).stages() == old(self).stages().push(f),
    {
        self.chain.push(FilterWrap::wrap(f));
        proof {
            assert(self.stages() =~= old(self).stages().push(f));
        }
    }

    /// Drive every element of the batch, in order, through every stage of
    /// the chain, in push order; each element finishes the whole chain
    /// before the next element begins. A failure a stage meets is
    /// swallowed and the chain continues, so the call always reports the
    /// batch length back; the destination is only ever appended to, and
    /// when it accepts everything and every stage is a pass-through, it
    /// receives exactly each element once per stage, in order.
    pub fn write(&mut self, buf: &[Ch]) -> (r: Result<usize, SinkError>)
        ensures
            r is Ok,
            r matches Ok(n) ==> n == buf@.len(),
            final(self).stages().len() == old(self).stages().len(),
            forall|i: int| 0 <= i < old(self).stages().len() ==>
                (#[trigger] final(self).stages()[i]).offered()
                    == old(self).stages()[i].offered() + buf@,
            forall|i: int| 0 <= i < old(self).stages().len() ==>
                (#[trigger] final(self).stages()[i]).is_pass_through()
                    == old(self).stages()[i].is_pass_through(),
            old(self).sink().contents().is_prefix_of(final(self).sink().contents()),
            final(self).sink().always_accepts() == old(self).sink().always_accepts(),
            old(self).stages().len() == 0 ==> final(self).sink() == old(self).sink(),
            old(self).sink().always_accepts() && all_pass_through(old(self).stages()) ==>
                final(self).sink().contents()
                    == old(self).sink().contents()
                        + repeat_each(buf@, old(self).stages().len()),
    {
        let mut e: usize = 0;
        while e < buf.len()
            invariant
                e <= buf@.len(),
                self.stages().len() == old(self).stages().len(),
                forall|i: int| 0 <= i < old(self).stages().len() ==>
                    (#[trigger] self.stages()[i]).offered()
                        == old(self).stages()[i].offered() + buf@.take(e as int),
                forall|i: int| 0 <= i < old(self).stages().len() ==>
                    (#[trigger] self.stages()[i]).is_pass_through()
                        == old(self).stages()[i].is_pass_through(),
                old(self).sink().contents().is_prefix_of(self.sink().contents()),
                self.sink().always_accepts() == old(self).sink().always_accepts(),
                old(self).stages().len() == 0 ==> self.sink() == old(self).sink(),
                old(self).sink().always_accepts() && all_pass_through(old(self).stages()) ==>
                    self.sink().contents()
                        == old(self).sink().contents()
                            + repeat_each(buf@.take(e as int), old(self).stages().len()),
            decreases buf@.len() - e,
        {
            let ch = buf[e];
            let ghost mid: Seq<F> = self.stages();
            let ghost mid_contents: Seq<Ch> = self.sink().contents();
            let mut j: usize = 0;
            while j < self.chain.len()
                invariant
                    j <= self.chain@.len(),
                    self.chain@.len() == mid.len(),
                    mid.len() == old(self).stages().len(),
                    self.stages().len() == self.chain@.len(),
                    e < buf@.len(),
                    ch == buf@[e as int],
                    forall|i: int| 0 <= i < j ==>
                        (#[trigger] self.stages()[i]).offered() == mid[i].offered().push(ch),
                    forall|i: int| j <= i < mid.len() ==>
                        (#[trigger] self.stages()[i]).offered() == mid[i].offered(),
                    forall|i: int| 0 <= i < mid.len() ==>
                        (#[trigger] self.stages()[i]).is_pass_through()
                            == mid[i].is_pass_through(),
                    mid_contents.is_prefix_of(self.sink().contents()),
                    self.sink().always_accepts() == old(self).sink().always_accepts(),
                    old(self).stages().len() == 0 ==> self.sink() == old(self).sink(),
                    old(self).sink().always_accepts() && all_pass_through(old(self).stages()) ==>
                        self.sink().contents()
                            == mid_contents + Seq::new(j as nat, |q: int| ch),
                    forall|i: int| 0 <= i < mid.len() ==>
                        (#[trigger] mid[i]).offered()
                            == old(self).stages()[i].offered() + buf@.take(e as int),
                    forall|i: int| 0 <= i < mid.len() ==>
                        (#[trigger] mid[i]).is_pass_through()
                            == old(self).stages()[i].is_pass_through(),
                    old(self).sink().contents().is_prefix_of(mid_contents),
                    old(self).sink().always_accepts() && all_pass_through(old(self).stages()) ==>
                        mid_contents
                            == old(self).sink().contents()
                                + repeat_each(buf@.take(e as int), old(self).stages().len()),
                decreases self.chain@.len() - j,
            {
                let ghost pre_chain: Seq<FilterWrap<Ch, F>> = self.chain@;
                let ghost pre_stages: Seq<F> = self.stages();
                let ghost pre_contents: Seq<Ch> = self.sink().contents();
                let _ = self.chain[j].put_trait(&mut self.s, ch);
                proof {
                    assert forall|i: int| 0 <= i < mid.len() && i != j implies
                        #[trigger] self.stages()[i] == pre_stages[i] by {
                        assert(self.chain@[i] == pre_chain[i]);
                        assert(self.stages()[i] == self.chain@[i].stage());
                        assert(pre_stages[i] == pre_chain[i].stage());
                    }
                    assert(pre_stages[j as int] == pre_chain[j as int].stage());
                    assert(self.stages()[j as int] == self.chain@[j as int].stage());
                    assert(self.stages()[j as int].offered()
                        == pre_stages[j as int].offered().push(ch));
                    assert(self.stages()[j as int].is_pass_through()
                        == pre_stages[j as int].is_pass_through());
                    if old(self).sink().always_accepts() && all_pass_through(old(self).stages()) {
                        assert(old(self).stages()[j as int].is_pass_through());
                        assert(mid[j as int].is_pass_through());
                        assert(pre_stages[j as int].is_pass_through());
                        assert(self.sink().contents() == pre_contents.push(ch));
                        assert((mid_contents + Seq::new(j as nat, |q: int| ch)).push(ch)
                            =~= mid_contents + Seq::new((j + 1) as nat, |q: int| ch));
                    }
                    assert(pre_contents.is_prefix_of(self.sink().contents()));
                    assert(mid_contents.is_prefix_of(self.sink().contents()));
                }
                j = j + 1;
            }
            proof {
                assert(buf@.take(e as int).push(ch) =~= buf@.take(e as int + 1));
                assert forall|i: int| 0 <= i < old(self).stages().len() implies
                    (#[trigger] self.stages()[i]).offered()
                        == old(self).stages()[i].offered() + buf@.take(e as int + 1) by {
                    assert(self.stages()[i].offered() == mid[i].offered().push(ch));
                    assert(mid[i].offered().push(ch)
                        =~= old(self).stages()[i].offered() + buf@.take(e as int + 1));
                }
                if old(self).sink().always_accepts() && all_pass_through(old(self).stages()) {
                    let k = old(self).stages().len();
                    lemma_repeat_each_push(buf@.take(e as int), ch, k);
                    assert(Seq::new(k, |q: int| ch) =~= Seq::new(k, |j: int| ch));
                    assert(mid_contents + Seq::new(k, |q: int| ch)
                        =~= old(self).sink().contents()
                            + repeat_each(buf@.take(e as int + 1), k));
                }
            }
            e = e + 1;
        }
        proof {
            assert(buf@.take(buf@.len() as int) =~= buf@);
        }
        Ok(buf.len())
    }

    /// Consume the pipeline and hand its destination back.
    pub fn finish(self) -> (r: S)
        ensures
            r == self.sink(),
    {
        self.s
    }
}

} // verus!
