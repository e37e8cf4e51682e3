//! Composition of preprocessing steps: a `Transformer` maps one data
//! representation into another, a `Fit` learns a transformer from data, and
//! `ComposedFit` chains two fitting steps so that the second learns from the
//! output of the first.

use vstd::prelude::*;
use core::marker::PhantomData;

verus! {

/// A learned mapping from one data representation to another.
pub trait Transformer<In, Out>: Sized {
    /// Which inputs the transformer can take.
    spec fn tf_ok(&self, x: In) -> bool;

    /// How outputs relate to inputs.
    spec fn transforms(&self, x: In, y: Out) -> bool;

    /// Apply the mapping.
    fn transform(&self, x: In) -> (y: Out)
        requires
            self.tf_ok(x),
        ensures
            self.transforms(x, y),
    ;
}

/// A fitting step: learns a transformer from features and boolean labels.
pub trait Fit<In, Out>: Sized {
    /// Which training inputs the step can take.
    spec fn fit_ok(&self, x: In, y: Seq<bool>) -> bool;

    /// How the learned transformer relates to the training input.
    spec fn fits(&self, x: In, y: Seq<bool>, t: Out) -> bool;

    /// Learn a transformer from the data.
    fn fit(&self, x: In, y: &Vec<bool>) -> (t: Out)
        requires
            self.fit_ok(x, y@),
        ensures
            self.fits(x, y@, t),
    ;
}

/// Two transformers applied one after the other.
pub struct ComposedTransform<In, F1Output, Out, F1Transformer, F2Transformer> {
    /// The first mapping.
    pub t1: F1Transformer,
    /// The second mapping, applied to the first one's output.
    pub t2: F2Transformer,
    /// Carries the input type.
    pub in_: PhantomData<In>,
    /// Carries the intermediate type.
    pub mid_: PhantomData<F1Output>,
    /// Carries the output type.
    pub out_: PhantomData<Out>,
}

impl<In, F1Output, Out, F1Transformer, F2Transformer> Transformer<In, Out> for ComposedTransform<
    In,
    F1Output,
    Out,
    F1Transformer,
    F2Transformer,
> where
    F1Transformer: Transformer<In, F1Output>,
    F2Transformer: Transformer<F1Output, Out>,
    In: Copy,
 {
    open spec fn tf_ok(&self, x: In) -> bool {
        self.t1.tf_ok(x) && forall|mid: F1Output|
            self.t1.transforms(x, mid) ==> #[trigger] self.t2.tf_ok(mid)
    }

    open spec fn transforms(&self, x: In, y: Out) -> bool {
        exists|mid: F1Output| #[trigger] self.t1.transforms(x, mid) && self.t2.transforms(mid, y)
    }

    fn transform(&self, x: In) -> (y: Out) {
        let mid = self.t1.transform(x);
        self.t2.transform(mid)
    }
}

/// Two fitting steps chained: the first learns from the raw data, the second
/// from the first one's transformed output; the result transforms through
/// both in order.
pub struct ComposedFit<F1, F2, In, Out, F1Transformer, F1Output, F2Transformer> {
    /// The first fitting step.
    pub f1: F1,
    /// The second fitting step.
    pub f2: F2,
    /// Carries the input type.
    pub in_: PhantomData<In>,
    /// Carries the output type.
    pub out_: PhantomData<Out>,
    /// Carries the first transformer type.
    pub t1_: PhantomData<F1Transformer>,
    /// Carries the intermediate type.
    pub mid_: PhantomData<F1Output>,
    /// Carries the second transformer type.
    pub t2_: PhantomData<F2Transformer>,
}

impl<F1, F2, In, Out, F1Transformer, F1Output, F2Transformer> ComposedFit<
    F1,
    F2,
    In,
    Out,
    F1Transformer,
    F1Output,
    F2Transformer,
> where
    F1: Fit<In, F1Transformer>,
    F1Transformer: Transformer<In, F1Output>,
    F2: Fit<F1Output, F2Transformer>,
    F2Transformer: Transformer<F1Output, Out>,
    In: Copy,
 {
    /// Chain two fitting steps.
    pub fn compose(f1: F1, f2: F2) -> (c: ComposedFit<
        F1,
        F2,
        In,
        Out,
        F1Transformer,
        F1Output,
        F2Transformer,
    >)
        ensures
            c.f1 == f1,
            c.f2 == f2,
    {
        ComposedFit {
            f1,
            f2,
            in_: PhantomData,
            out_: PhantomData,
            t1_: PhantomData,
            mid_: PhantomData,
            t2_: PhantomData,
        }
    }
}

impl<F1, F2, In, Out, F1Transformer, F1Output, F2Transformer> Fit<
    In,
    ComposedTransform<In, F1Output, Out, F1Transformer, F2Transformer>,
> for ComposedFit<F1, F2, In, Out, F1Transformer, F1Output, F2Transformer> where
    F1: Fit<In, F1Transformer>,
    F1Transformer: Transformer<In, F1Output>,
    F2: Fit<F1Output, F2Transformer>,
    F2Transformer: Transformer<F1Output, Out>,
    In: Copy,
 {
    open spec fn fit_ok(&self, x: In, y: Seq<bool>) -> bool {
        self.f1.fit_ok(x, y) && forall|t1: F1Transformer|
            self.f1.fits(x, y, t1) ==> #[trigger] t1.tf_ok(x) && forall|mid: F1Output|
                t1.transforms(x, mid) ==> #[trigger] self.f2.fit_ok(mid, y)
    }

    open spec fn fits(
        &self,
        x: In,
        y: Seq<bool>,
        t: ComposedTransform<In, F1Output, Out, F1Transformer, F2Transformer>,
    ) -> bool {
        exists|mid: F1Output|
            self.f1.fits(x, y, t.t1) && #[trigger] t.t1.transforms(x, mid) && self.f2.fits(
                mid,
                y,
                t.t2,
            )
    }

    fn fit(&self, x: In, y: &Vec<bool>) -> (t: ComposedTransform<
        In,
        F1Output,
        Out,
        F1Transformer,
        F2Transformer,
    >) {
        let t1 = self.f1.fit(x, y);
        proof {
            assert(t1.tf_ok(x));
        }
        let mid = t1.transform(x);
        let ghost gmid = mid;
        proof {
            assert(self.f2.fit_ok(gmid, y@));
        }
        let t2 = self.f2.fit(mid, y);
        let composed = ComposedTransform {
            t1,
            t2,
            in_: PhantomData,
            mid_: PhantomData,
            out_: PhantomData,
        };
        proof {
            assert(self.f1.fits(x, y@, composed.t1) && composed.t1.transforms(x, gmid)
                && self.f2.fits(gmid, y@, composed.t2));
        }
        composed
    }
}

} // verus!
