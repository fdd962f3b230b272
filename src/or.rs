use vstd::prelude::*;

use crate::and::{
    lemma_undecided_all_unknown, lemma_undecided_from, lemma_undecided_unknown, undecided,
};
use crate::filter::{FalsyDefault, Filter, Optimizable, TruthyDefault};

verus! {

/// Disjunction: accepts a subject when some child accepts it.
#[derive(Debug)]
pub struct Or<F>(pub Vec<F>);

impl<F> View for Or<F> {
    type V = Seq<F>;

    open spec fn view(&self) -> Seq<F> {
        self.0@
    }
}

/// Some filter of `s` accepts `obj`.
pub open spec fn any_match<T: ?Sized, F: Filter<T>>(s: Seq<F>, obj: &T) -> bool {
    exists|i: int| 0 <= i < s.len() && #[trigger] s[i].spec_matches(obj)
}

/// The constancy of a disjunction, found by a left-to-right scan that stops
/// at the first child that is unknown or constantly true.
pub open spec fn or_constancy<F: Optimizable>(s: Seq<F>) -> Option<bool>
    decreases s.len(),
{
    if s.len() == 0 {
        Some(false)
    } else {
        match s[0].spec_as_bool() {
            None => None,
            Some(true) => Some(true),
            Some(false) => or_constancy(s.drop_first()),
        }
    }
}

/// The optimizer turned the children `old` of a disjunction into `new`,
/// having visited, in order, the first `opt.len()` of them and optimized
/// those into `opt`. It stops at the first constantly true child and then
/// leaves the canonical true disjunction; otherwise it keeps the children
/// that are not constant.
pub open spec fn or_optimized<F: TruthyDefault>(old: Seq<F>, opt: Seq<F>, new: Seq<F>) -> bool {
    &&& opt.len() <= old.len()
    &&& forall|i: int| 0 <= i < opt.len() ==> old[i].spec_optimizes_to(&#[trigger] opt[i])
    &&& forall|i: int| 0 <= i < opt.len() - 1 ==> (#[trigger] opt[i]).spec_as_bool() != Some(true)
    &&& if opt.len() > 0 && opt.last().spec_as_bool() == Some(true) {
        new.len() == 1 && new[0].spec_is_truthy()
    } else {
        opt.len() == old.len() && new == undecided(opt)
    }
}

proof fn lemma_or_constancy_sound<T: ?Sized, F: Filter<T>>(s: Seq<F>, obj: &T)
    requires
        or_constancy(s) is Some,
    ensures
        any_match(s, obj) == or_constancy(s)->Some_0,
    decreases s.len(),
{
    if s.len() > 0 {
        s[0].lemma_constant_sound(obj);
        if s[0].spec_as_bool() == Some(false) {
            let rest = s.drop_first();
            lemma_or_constancy_sound(rest, obj);
            if any_match(rest, obj) {
                let i = choose|i: int| 0 <= i < rest.len() && #[trigger] rest[i].spec_matches(obj);
                assert(s[i + 1].spec_matches(obj));
            }
            if any_match(s, obj) {
                let i = choose|i: int| 0 <= i < s.len() && #[trigger] s[i].spec_matches(obj);
                assert(rest[i - 1].spec_matches(obj));
            }
        }
    }
}

proof fn lemma_undecided_any<T: ?Sized, F: Filter<T>>(s: Seq<F>, obj: &T)
    requires
        forall|i: int| 0 <= i < s.len() ==> (#[trigger] s[i]).spec_as_bool() != Some(true),
    ensures
        any_match(s, obj) == any_match(undecided(s), obj),
    decreases s.len(),
{
    if s.len() > 0 {
        let init = s.drop_last();
        assert forall|i: int| 0 <= i < init.len() implies (#[trigger] init[i]).spec_as_bool() != Some(true) by {
            assert(init[i] == s[i]);
        }
        lemma_undecided_any(init, obj);
        let last = s.last();
        if last.spec_as_bool() is Some {
            last.lemma_constant_sound(obj);
        }
        assert(any_match(s, obj) == (any_match(init, obj) || last.spec_matches(obj))) by {
            if any_match(init, obj) {
                let i = choose|i: int| 0 <= i < init.len() && #[trigger] init[i].spec_matches(obj);
                assert(s[i].spec_matches(obj));
            }
            if last.spec_matches(obj) {
                assert(s[s.len() - 1].spec_matches(obj));
            }
            if any_match(s, obj) {
                let i = choose|i: int| 0 <= i < s.len() && #[trigger] s[i].spec_matches(obj);
                if i < s.len() - 1 {
                    assert(init[i].spec_matches(obj));
                }
            }
        }
        let u = undecided(init);
        if last.spec_as_bool() is None {
            let u2 = u.push(last);
            assert(any_match(u2, obj) == (any_match(u, obj) || last.spec_matches(obj))) by {
                if any_match(u, obj) {
                    let i = choose|i: int| 0 <= i < u.len() && #[trigger] u[i].spec_matches(obj);
                    assert(u2[i].spec_matches(obj));
                }
                if last.spec_matches(obj) {
                    assert(u2[u.len() as int].spec_matches(obj));
                }
                if any_match(u2, obj) {
                    let i = choose|i: int| 0 <= i < u2.len() && #[trigger] u2[i].spec_matches(obj);
                    if i < u.len() {
                        assert(u[i].spec_matches(obj));
                    }
                }
            }
        }
    }
}

impl<F> std::ops::Deref for Or<F> {
    type Target = Vec<F>;

    fn deref(&self) -> (r: &Vec<F>)
        ensures
            *r == self.0,
    {
        &self.0
    }
}

impl<F> std::ops::DerefMut for Or<F> {
    fn deref_mut(&mut self) -> (r: &mut Vec<F>)
        ensures
            *r == old(self).0,
            final(self).0 == *final(r),
    {
        &mut self.0
    }
}

impl<F> From<Vec<F>> for Or<F> {
    fn from(value: Vec<F>) -> (r: Self) {
        Or(value)
    }
}

impl<F> vstd::std_specs::convert::FromSpecImpl<Vec<F>> for Or<F> {
    open spec fn obeys_from_spec() -> bool {
        true
    }

    open spec fn from_spec(v: Vec<F>) -> Self {
        Or(v)
    }
}

impl<T: ?Sized, F: Filter<T> + TruthyDefault> Filter<T> for Or<F> {
    open spec fn spec_matches(&self, obj: &T) -> bool {
        any_match(self@, obj)
    }

    fn matches(&self, obj: &T) -> (r: bool) {
        let mut i: usize = 0;
        while i < self.0.len()
            invariant
                0 <= i <= self@.len(),
                forall|j: int| 0 <= j < i ==> !(#[trigger] self@[j].spec_matches(obj)),
            decreases self@.len() - i,
        {
            if self.0[i].matches(obj) {
                return true;
            }
            i += 1;
        }
        false
    }

    proof fn lemma_constant_sound(&self, obj: &T) {
        lemma_or_constancy_sound(self@, obj);
    }

    proof fn lemma_optimize_sound(&self, opt: &Self, obj: &T) {
        let before = self@;
        let after = opt@;
        let visited = choose|s: Seq<F>| or_optimized(before, s, after);
        if visited.len() > 0 && visited.last().spec_as_bool() == Some(true) {
            let k = visited.len() - 1;
            before[k].lemma_optimize_sound(&visited[k], obj);
            visited[k].lemma_constant_sound(obj);
            after[0].lemma_truthy_constant();
            after[0].lemma_constant_sound(obj);
            assert(before[k].spec_matches(obj));
            assert(after[0].spec_matches(obj));
        } else {
            lemma_undecided_any(visited, obj);
            assert forall|i: int| 0 <= i < visited.len() implies #[trigger] before[i].spec_matches(obj)
                == visited[i].spec_matches(obj) by {
                before[i].lemma_optimize_sound(&visited[i], obj);
            }
            if any_match(before, obj) {
                let i = choose|i: int| 0 <= i < before.len() && #[trigger] before[i].spec_matches(obj);
                assert(visited[i].spec_matches(obj));
            }
            if any_match(visited, obj) {
                let i = choose|i: int| 0 <= i < visited.len() && #[trigger] visited[i].spec_matches(obj);
                assert(before[i].spec_matches(obj));
            }
        }
    }
}

impl<F: TruthyDefault> Optimizable for Or<F> {
    open spec fn spec_as_bool(&self) -> Option<bool> {
        or_constancy(self@)
    }

    open spec fn spec_optimizes_to(&self, opt: &Self) -> bool {
        exists|s: Seq<F>| or_optimized(self@, s, opt@)
    }

    proof fn lemma_optimize_stable(&self, once: &Self, twice: &Self) {
        let v1 = choose|v: Seq<F>| or_optimized(self@, v, once@);
        let v2 = choose|v: Seq<F>| or_optimized(once@, v, twice@);
        if v1.len() > 0 && v1.last().spec_as_bool() == Some(true) {
            let y = once@[0];
            y.lemma_truthy_constant();
            assert(v2.len() > 0);
            y.lemma_truthy_optimizes(&v2[0]);
            twice@[0].lemma_truthy_constant();
        } else {
            lemma_undecided_unknown(v1);
            lemma_undecided_from(v1);
            assert forall|i: int| 0 <= i < v2.len() implies (#[trigger] v2[i]).spec_as_bool() is None by {
                assert(once@[i] == undecided(v1)[i]);
                let j = choose|j: int| 0 <= j < v1.len() && undecided(v1)[i] == v1[j];
                self@[j].lemma_optimize_stable(&v1[j], &v2[i]);
            }
            if v2.len() > 0 {
                assert(v2[v2.len() - 1].spec_as_bool() is None);
            }
            lemma_undecided_all_unknown(v2);
            if once@.len() > 0 {
                assert(once@[0].spec_as_bool() is None);
                assert(twice@[0].spec_as_bool() is None);
            }
        }
    }

    fn as_bool(&self) -> (r: Option<bool>) {
        let mut i: usize = 0;
        proof {
            assert(self@.skip(0) =~= self@);
        }
        while i < self.0.len()
            invariant
                0 <= i <= self@.len(),
                or_constancy(self@) == or_constancy(self@.skip(i as int)),
            decreases self@.len() - i,
        {
            proof {
                assert(self@.skip(i as int).drop_first() =~= self@.skip(i + 1));
            }
            match self.0[i].as_bool() {
                None => return None,
                Some(true) => return Some(true),
                Some(false) => {},
            }
            i += 1;
        }
        Some(false)
    }

    fn optimize(&mut self) {
        let ghost old_s = self@;
        let mut rest: Vec<F> = Vec::new();
        std::mem::swap(&mut self.0, &mut rest);
        let mut kept: Vec<F> = Vec::new();
        let mut short_circuit = false;
        let ghost mut opt: Seq<F> = Seq::empty();
        while rest.len() > 0 && !short_circuit
            invariant
                opt.len() <= old_s.len(),
                rest@ == old_s.skip(opt.len() as int),
                forall|i: int| 0 <= i < opt.len() ==> old_s[i].spec_optimizes_to(&#[trigger] opt[i]),
                forall|i: int| 0 <= i < opt.len() - 1 ==> (#[trigger] opt[i]).spec_as_bool() != Some(true),
                short_circuit == (opt.len() > 0 && opt.last().spec_as_bool() == Some(true)),
                !short_circuit ==> kept@ == undecided(opt),
            decreases rest@.len(),
        {
            let mut f = rest.remove(0);
            f.optimize();
            let b = f.as_bool();
            proof {
                assert(opt.push(f).drop_last() =~= opt);
                assert(rest@ =~= old_s.skip(opt.len() + 1 as int));
                opt = opt.push(f);
            }
            match b {
                Some(true) => short_circuit = true,
                Some(false) => {},
                None => kept.push(f),
            }
        }
        if short_circuit {
            self.0 = vec![F::truthy_default()];
        } else {
            self.0 = kept;
        }
        proof {
            assert(or_optimized(old_s, opt, self@));
        }
    }
}

impl<F: TruthyDefault> TruthyDefault for Or<F> {
    open spec fn spec_is_truthy(&self) -> bool {
        self@.len() == 1 && self@[0].spec_is_truthy()
    }

    proof fn lemma_truthy_constant(&self) {
        self@[0].lemma_truthy_constant();
    }

    proof fn lemma_truthy_optimizes(&self, opt: &Self) {
        let v = choose|v: Seq<F>| or_optimized(self@, v, opt@);
        assert(v.len() == 1);
        self@[0].lemma_truthy_optimizes(&v[0]);
        opt@[0].lemma_truthy_constant();
    }

    fn truthy_default() -> (r: Self) {
        Or(vec![F::truthy_default()])
    }
}

impl<F: TruthyDefault> FalsyDefault for Or<F> {
    open spec fn spec_is_falsy(&self) -> bool {
        self@.len() == 0
    }

    proof fn lemma_falsy_constant(&self) {
    }

    proof fn lemma_falsy_optimizes(&self, opt: &Self) {
        let v = choose|v: Seq<F>| or_optimized(self@, v, opt@);
        assert(v.len() == 0);
        assert(opt@.len() == 0);
    }

    fn falsy_default() -> (r: Self) {
        Or(Vec::new())
    }
}

/// An empty disjunction is false on every subject.
pub proof fn lemma_empty_or<T: ?Sized, F: Filter<T> + TruthyDefault>(f: Or<F>, obj: &T)
    requires
        f@.len() == 0,
    ensures
        f.spec_matches(obj) == false,
{
}

/// Once a child is certain to be constantly true after its own
/// optimization, the optimizer visits no child after it, so none of those is
/// optimized, and the disjunction becomes its canonical true value.
pub proof fn lemma_or_short_circuit<F: TruthyDefault>(before: Or<F>, after: Or<F>, i: int)
    requires
        before.spec_optimizes_to(&after),
        0 <= i < before@.len(),
        forall|x: F| before@[i].spec_optimizes_to(&x) ==> x.spec_as_bool() == Some(true),
    ensures
        after.spec_is_truthy(),
        forall|visited: Seq<F>| or_optimized(before@, visited, after@) ==> visited.len() <= i + 1,
{
    assert forall|visited: Seq<F>| or_optimized(before@, visited, after@) implies visited.len() <= i + 1 by {
        if visited.len() > i + 1 {
            assert(before@[i].spec_optimizes_to(&visited[i]));
        }
    }
    let visited = choose|visited: Seq<F>| or_optimized(before@, visited, after@);
    if visited.len() == i + 1 {
        assert(before@[i].spec_optimizes_to(&visited[i]));
    }
}

/// After optimization a constant disjunction is one of its two canonical values.
pub proof fn lemma_or_canonical<F: TruthyDefault>(before: Or<F>, after: Or<F>)
    requires
        before.spec_optimizes_to(&after),
    ensures
        after.spec_as_bool() == Some(true) ==> after.spec_is_truthy(),
        after.spec_as_bool() == Some(false) ==> after.spec_is_falsy(),
{
    let visited = choose|visited: Seq<F>| or_optimized(before@, visited, after@);
    if visited.len() > 0 && visited.last().spec_as_bool() == Some(true) {
        after@[0].lemma_truthy_constant();
    } else {
        lemma_undecided_unknown(visited);
        if after@.len() > 0 {
            assert(after@[0].spec_as_bool() is None);
        }
    }
}

} // verus!
