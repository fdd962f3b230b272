use vstd::prelude::*;

use crate::filter::{FalsyDefault, Filter, Optimizable, TruthyDefault};

verus! {

/// Negation: accepts exactly the subjects that its child rejects.
#[derive(Debug)]
pub struct Not<F>(pub F);

impl<T: ?Sized, F: Filter<T>> Filter<T> for Not<F> {
    open spec fn spec_matches(&self, obj: &T) -> bool {
        !self.0.spec_matches(obj)
    }

    fn matches(&self, obj: &T) -> (r: bool) {
        !self.0.matches(obj)
    }

    proof fn lemma_constant_sound(&self, obj: &T) {
        self.0.lemma_constant_sound(obj);
    }

    proof fn lemma_optimize_sound(&self, opt: &Self, obj: &T) {
        self.0.lemma_optimize_sound(&opt.0, obj);
    }
}

impl<F: Optimizable> Optimizable for Not<F> {
    open spec fn spec_as_bool(&self) -> Option<bool> {
        match self.0.spec_as_bool() {
            Some(b) => Some(!b),
            None => None,
        }
    }

    /// The child is optimized; the negation keeps its shape.
    open spec fn spec_optimizes_to(&self, opt: &Self) -> bool {
        self.0.spec_optimizes_to(&opt.0)
    }

    proof fn lemma_optimize_stable(&self, once: &Self, twice: &Self) {
        self.0.lemma_optimize_stable(&once.0, &twice.0);
    }

    fn as_bool(&self) -> (r: Option<bool>) {
        match self.0.as_bool() {
            Some(b) => Some(!b),
            None => None,
        }
    }

    fn optimize(&mut self) {
        self.0.optimize();
    }
}

impl<F: FalsyDefault> TruthyDefault for Not<F> {
    open spec fn spec_is_truthy(&self) -> bool {
        self.0.spec_is_falsy()
    }

    proof fn lemma_truthy_constant(&self) {
        self.0.lemma_falsy_constant();
    }

    proof fn lemma_truthy_optimizes(&self, opt: &Self) {
        self.0.lemma_falsy_optimizes(&opt.0);
    }

    fn truthy_default() -> (r: Self) {
        Not(F::falsy_default())
    }
}

impl<F: TruthyDefault> FalsyDefault for Not<F> {
    open spec fn spec_is_falsy(&self) -> bool {
        self.0.spec_is_truthy()
    }

    proof fn lemma_falsy_constant(&self) {
        self.0.lemma_truthy_constant();
    }

    proof fn lemma_falsy_optimizes(&self, opt: &Self) {
        self.0.lemma_truthy_optimizes(&opt.0);
    }

    fn falsy_default() -> (r: Self) {
        Not(F::truthy_default())
    }
}

/// A double negation accepts exactly what the filter inside it accepts.
pub proof fn lemma_double_negation<T: ?Sized, F: Filter<T>>(f: Not<Not<F>>, obj: &T)
    ensures
        f.spec_matches(obj) == f.0.0.spec_matches(obj),
{
}

} // verus!
