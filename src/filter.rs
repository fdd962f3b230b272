use vstd::prelude::*;

verus! {

/// Reports whether a filter is constant, and folds constant sub-trees.
pub trait Optimizable {
    /// `Some(b)` when the filter is known to give `b` on every subject.
    spec fn spec_as_bool(&self) -> Option<bool>;

    /// `opt` is a value that `optimize` may leave in place of `self`.
    spec fn spec_optimizes_to(&self, opt: &Self) -> bool
        where Self: Sized
    ;

    /// Optimizing an optimized filter again leaves its constancy as it is.
    proof fn lemma_optimize_stable(&self, once: &Self, twice: &Self)
        where Self: Sized
        requires
            self.spec_optimizes_to(once),
            once.spec_optimizes_to(twice),
        ensures
            twice.spec_as_bool() == once.spec_as_bool(),
    ;

    fn as_bool(&self) -> (r: Option<bool>)
        ensures
            r == self.spec_as_bool(),
    ;

    fn optimize(&mut self)
        where Self: Sized
        ensures
            old(self).spec_optimizes_to(final(self)),
    ;
}

/// A predicate over subjects of type `T`.
pub trait Filter<T: ?Sized>: Optimizable {
    /// Whether the filter accepts `obj`.
    spec fn spec_matches(&self, obj: &T) -> bool;

    fn matches(&self, obj: &T) -> (r: bool)
        ensures
            r == self.spec_matches(obj),
    ;

    /// Matches against a subject that is only needed for this call.
    fn matches_owned(&self, obj: T) -> (r: bool)
        where T: Sized
        ensures
            r == self.spec_matches(&obj),
    {
        self.matches(&obj)
    }

    /// A constant reported by `as_bool` is the result on every subject.
    proof fn lemma_constant_sound(&self, obj: &T)
        requires
            self.spec_as_bool() is Some,
        ensures
            self.spec_matches(obj) == self.spec_as_bool()->Some_0,
    ;

    /// Optimizing never changes the result on any subject.
    proof fn lemma_optimize_sound(&self, opt: &Self, obj: &T)
        where Self: Sized
        requires
            self.spec_optimizes_to(opt),
        ensures
            self.spec_matches(obj) == opt.spec_matches(obj),
    ;
}

/// A filter type with a canonical "always true" value.
pub trait TruthyDefault: Optimizable {
    /// `self` is the canonical "always true" value.
    spec fn spec_is_truthy(&self) -> bool;

    proof fn lemma_truthy_constant(&self)
        requires
            self.spec_is_truthy(),
        ensures
            self.spec_as_bool() == Some(true),
    ;

    /// The canonical "always true" value stays constantly true when optimized.
    proof fn lemma_truthy_optimizes(&self, opt: &Self)
        where Self: Sized
        requires
            self.spec_is_truthy(),
            self.spec_optimizes_to(opt),
        ensures
            opt.spec_as_bool() == Some(true),
    ;

    fn truthy_default() -> (r: Self)
        where Self: Sized
        ensures
            r.spec_is_truthy(),
    ;
}

/// A filter type with a canonical "always false" value.
pub trait FalsyDefault: Optimizable {
    /// `self` is the canonical "always false" value.
    spec fn spec_is_falsy(&self) -> bool;

    proof fn lemma_falsy_constant(&self)
        requires
            self.spec_is_falsy(),
        ensures
            self.spec_as_bool() == Some(false),
    ;

    /// The canonical "always false" value stays constantly false when optimized.
    proof fn lemma_falsy_optimizes(&self, opt: &Self)
        where Self: Sized
        requires
            self.spec_is_falsy(),
            self.spec_optimizes_to(opt),
        ensures
            opt.spec_as_bool() == Some(false),
    ;

    fn falsy_default() -> (r: Self)
        where Self: Sized
        ensures
            r.spec_is_falsy(),
    ;
}

impl<T: ?Sized> Filter<T> for bool {
    open spec fn spec_matches(&self, obj: &T) -> bool {
        *self
    }

    fn matches(&self, obj: &T) -> (r: bool) {
        *self
    }

    proof fn lemma_constant_sound(&self, obj: &T) {
    }

    proof fn lemma_optimize_sound(&self, opt: &Self, obj: &T) {
    }
}

impl Optimizable for bool {
    open spec fn spec_as_bool(&self) -> Option<bool> {
        Some(*self)
    }

    open spec fn spec_optimizes_to(&self, opt: &Self) -> bool {
        *opt == *self
    }

    proof fn lemma_optimize_stable(&self, once: &Self, twice: &Self) {
    }

    fn as_bool(&self) -> (r: Option<bool>) {
        Some(*self)
    }

    fn optimize(&mut self) {
    }
}

impl TruthyDefault for bool {
    open spec fn spec_is_truthy(&self) -> bool {
        *self
    }

    proof fn lemma_truthy_constant(&self) {
    }

    proof fn lemma_truthy_optimizes(&self, opt: &Self) {
    }

    fn truthy_default() -> (r: Self) {
        true
    }
}

impl FalsyDefault for bool {
    open spec fn spec_is_falsy(&self) -> bool {
        !*self
    }

    proof fn lemma_falsy_constant(&self) {
    }

    proof fn lemma_falsy_optimizes(&self, opt: &Self) {
    }

    fn falsy_default() -> (r: Self) {
        false
    }
}

impl<T: ?Sized, F: Filter<T>> Filter<T> for Box<F> {
    open spec fn spec_matches(&self, obj: &T) -> bool {
        (**self).spec_matches(obj)
    }

    fn matches(&self, obj: &T) -> (r: bool) {
        (**self).matches(obj)
    }

    proof fn lemma_constant_sound(&self, obj: &T) {
        (**self).lemma_constant_sound(obj);
    }

    proof fn lemma_optimize_sound(&self, opt: &Self, obj: &T) {
        (**self).lemma_optimize_sound(&**opt, obj);
    }
}

impl<F: Optimizable> Optimizable for Box<F> {
    open spec fn spec_as_bool(&self) -> Option<bool> {
        (**self).spec_as_bool()
    }

    open spec fn spec_optimizes_to(&self, opt: &Self) -> bool {
        (**self).spec_optimizes_to(&**opt)
    }

    proof fn lemma_optimize_stable(&self, once: &Self, twice: &Self) {
        (**self).lemma_optimize_stable(&**once, &**twice);
    }

    fn as_bool(&self) -> (r: Option<bool>) {
        (**self).as_bool()
    }

    fn optimize(&mut self) {
        (**self).optimize();
    }
}

impl<F: TruthyDefault> TruthyDefault for Box<F> {
    open spec fn spec_is_truthy(&self) -> bool {
        (**self).spec_is_truthy()
    }

    proof fn lemma_truthy_constant(&self) {
        (**self).lemma_truthy_constant();
    }

    proof fn lemma_truthy_optimizes(&self, opt: &Self) {
        (**self).lemma_truthy_optimizes(&**opt);
    }

    fn truthy_default() -> (r: Self) {
        Box::new(F::truthy_default())
    }
}

impl<F: FalsyDefault> FalsyDefault for Box<F> {
    open spec fn spec_is_falsy(&self) -> bool {
        (**self).spec_is_falsy()
    }

    proof fn lemma_falsy_constant(&self) {
        (**self).lemma_falsy_constant();
    }

    proof fn lemma_falsy_optimizes(&self, opt: &Self) {
        (**self).lemma_falsy_optimizes(&**opt);
    }

    fn falsy_default() -> (r: Self) {
        Box::new(F::falsy_default())
    }
}

/// Optimizing a second time changes no result of the first optimization,
/// nor its `as_bool`, and neither optimization changes any result of the
/// filter as it was built.
pub proof fn lemma_optimize_idempotent<T: ?Sized, F: Filter<T>>(f: F, once: F, twice: F, obj: &T)
    requires
        f.spec_optimizes_to(&once),
        once.spec_optimizes_to(&twice),
    ensures
        twice.spec_matches(obj) == once.spec_matches(obj),
        twice.spec_as_bool() == once.spec_as_bool(),
        once.spec_matches(obj) == f.spec_matches(obj),
{
    f.lemma_optimize_stable(&once, &twice);
    f.lemma_optimize_sound(&once, obj);
    once.lemma_optimize_sound(&twice, obj);
}

/// A filter whose `as_bool` is `Some(b)` gives `b` on every subject.
pub proof fn lemma_constant_matches<T: ?Sized, F: Filter<T>>(f: F, obj: &T)
    requires
        f.spec_as_bool() is Some,
    ensures
        f.spec_matches(obj) == f.spec_as_bool()->Some_0,
{
    f.lemma_constant_sound(obj);
}

} // verus!
