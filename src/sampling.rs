use vstd::prelude::*;

use crate::orbital::QuantumNumbers;

verus! {

/// The quantum numbers and sample count of one sampling run, fixed at its start.
#[derive(Clone, Copy, Debug, PartialEq, Eq, Structural)]
pub struct SampleRequest {
    pub quantum_numbers: QuantumNumbers,
    pub sample_size: usize,
}

/// Progress, in whole percent, once `accepted` of `sample_size` samples exist.
pub open spec fn progress_after(accepted: nat, sample_size: nat) -> nat {
    if sample_size == 0 {
        100
    } else {
        (accepted * 100 / sample_size) as nat
    }
}

/// The progress notifications of a run that has accepted `accepted` of
/// `sample_size` samples: one per acceptance, in order.
pub open spec fn progress_notifications(accepted: nat, sample_size: nat) -> Seq<nat> {
    Seq::new(accepted, |i: int| progress_after((i + 1) as nat, sample_size))
}

/// Integer percentage `accepted * 100 / sample_size`.
pub fn progress_percent(accepted: usize, sample_size: usize) -> (r: usize)
    requires
        0 < sample_size,
        accepted <= sample_size,
    ensures
        r == progress_after(accepted as nat, sample_size as nat),
        r <= 100,
{
    let scaled: u128 = (accepted as u128) * 100;
    proof {
        vstd::arithmetic::div_mod::lemma_div_is_ordered(
            accepted * 100,
            sample_size * 100,
            sample_size as int,
        );
        vstd::arithmetic::div_mod::lemma_div_by_multiple(100, sample_size as int);
        assert(sample_size * 100 == 100 * sample_size);
    }
    (scaled / (sample_size as u128)) as usize
}

/// The accepted samples of one run, in order of acceptance, with the count it
/// must reach.
pub struct SamplingRun<T> {
    samples: Vec<T>,
    sample_size: usize,
}

impl<T> SamplingRun<T> {
    /// The samples accepted so far.
    pub closed spec fn accepted(&self) -> Seq<T> {
        self.samples@
    }

    /// The number of samples the run must produce.
    pub closed spec fn target(&self) -> nat {
        self.sample_size as nat
    }

    /// Never more samples than the run asks for.
    pub open spec fn wf(&self) -> bool {
        self.accepted().len() <= self.target()
    }

    /// The run has all its samples.
    pub open spec fn complete(&self) -> bool {
        self.accepted().len() == self.target()
    }

    /// The progress notifications the run has issued so far.
    pub open spec fn notifications(&self) -> Seq<nat> {
        progress_notifications(self.accepted().len(), self.target())
    }

    /// Starts a run with no samples.
    pub fn new(request: SampleRequest) -> (r: Self)
        ensures
            r.wf(),
            r.accepted() == Seq::<T>::empty(),
            r.target() == request.sample_size,
    {
        SamplingRun { samples: Vec::new(), sample_size: request.sample_size }
    }

    /// Whether the run has all its samples.
    pub fn is_complete(&self) -> (r: bool)
        requires
            self.wf(),
        ensures
            r == self.complete(),
    {
        self.samples.len() == self.sample_size
    }

    /// Number of samples accepted so far.
    pub fn len(&self) -> (r: usize)
        ensures
            r == self.accepted().len(),
    {
        self.samples.len()
    }

    /// Number of samples the run must produce.
    pub fn sample_size(&self) -> (r: usize)
        ensures
            r == self.target(),
    {
        self.sample_size
    }

    /// Records an accepted sample and returns the progress notification it issues.
    pub fn accept(&mut self, sample: T) -> (pct: usize)
        requires
            old(self).wf(),
            !old(self).complete(),
        ensures
            final(self).wf(),
            final(self).accepted() == old(self).accepted().push(sample),
            final(self).target() == old(self).target(),
            pct == progress_after(final(self).accepted().len(), final(self).target()),
            final(self).notifications() == old(self).notifications().push(pct as nat),
    {
        self.samples.push(sample);
        let pct = progress_percent(self.samples.len(), self.sample_size);
        assert(self.notifications() =~= old(self).notifications().push(pct as nat));
        pct
    }

    /// Hands out the samples of a complete run.
    pub fn finish(self) -> (r: Vec<T>)
        requires
            self.complete(),
        ensures
            r@ == self.accepted(),
            r.len() == self.target(),
    {
        self.samples
    }
}

/// Progress notifications never decrease, and the last one of a complete,
/// non-empty run is exactly 100.
pub proof fn lemma_progress_nondecreasing(sample_size: nat)
    ensures
        forall|i: int, j: int|
            0 <= i <= j < sample_size ==> #[trigger] progress_notifications(
                sample_size,
                sample_size,
            )[i] <= #[trigger] progress_notifications(sample_size, sample_size)[j],
        sample_size > 0 ==> progress_notifications(sample_size, sample_size).last() == 100,
{
    let s = progress_notifications(sample_size, sample_size);
    assert forall|i: int, j: int| 0 <= i <= j < sample_size implies #[trigger] s[i]
        <= #[trigger] s[j] by {
        vstd::arithmetic::div_mod::lemma_div_is_ordered(
            (i + 1) * 100,
            (j + 1) * 100,
            sample_size as int,
        );
    }
    if sample_size > 0 {
        vstd::arithmetic::div_mod::lemma_div_by_multiple(100, sample_size as int);
        assert(sample_size * 100 == 100 * sample_size);
    }
}

/// A run asked for no samples is complete at its start and issues no notification.
pub proof fn lemma_empty_run<T>(run: SamplingRun<T>)
    requires
        run.target() == 0,
        run.wf(),
    ensures
        run.complete(),
        run.notifications() == Seq::<nat>::empty(),
{
    assert(run.notifications() =~= Seq::<nat>::empty());
}

} // verus!
