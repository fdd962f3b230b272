use vstd::prelude::*;

use crate::filter::{FalsyDefault, Filter, Optimizable, TruthyDefault};

verus! {

/// Conjunction: accepts a subject when every child accepts it.
#[derive(Debug)]
pub struct And<F>(pub Vec<F>);

impl<F> View for And<F> {
    type V = Seq<F>;

    open spec fn view(&self) -> Seq<F> {
        self.0@
    }
}

/// Every filter of `s` accepts `obj`.
pub open spec fn all_match<T: ?Sized, F: Filter<T>>(s: Seq<F>, obj: &T) -> bool {
    forall|i: int| 0 <= i < s.len() ==> #[trigger] s[i].spec_matches(obj)
}

/// The constancy of a conjunction, found by a left-to-right scan that stops
/// at the first child that is unknown or constantly false.
pub open spec fn and_constancy<F: Optimizable>(s: Seq<F>) -> Option<bool>
    decreases s.len(),
{
    if s.len() == 0 {
        Some(true)
    } else {
        match s[0].spec_as_bool() {
            None => None,
            Some(false) => Some(false),
            Some(true) => and_constancy(s.drop_first()),
        }
    }
}

/// The filters of `s`, in order, that are not known to be constant.
pub open spec fn undecided<F: Optimizable>(s: Seq<F>) -> Seq<F>
    decreases s.len(),
{
    if s.len() == 0 {
        Seq::empty()
    } else {
        let rest = undecided(s.drop_last());
        if s.last().spec_as_bool() is None {
            rest.push(s.last())
        } else {
            rest
        }
    }
}

/// The optimizer turned the children `old` of a conjunction into `new`,
/// having visited, in order, the first `opt.len()` of them and optimized
/// those into `opt`. It stops at the first constantly false child and then
/// leaves the canonical false conjunction; otherwise it keeps the children
/// that are not constant.
pub open spec fn and_optimized<F: FalsyDefault>(old: Seq<F>, opt: Seq<F>, new: Seq<F>) -> bool {
    &&& opt.len() <= old.len()
    &&& forall|i: int| 0 <= i < opt.len() ==> old[i].spec_optimizes_to(&#[trigger] opt[i])
    &&& forall|i: int| 0 <= i < opt.len() - 1 ==> (#[trigger] opt[i]).spec_as_bool() != Some(false)
    &&& if opt.len() > 0 && opt.last().spec_as_bool() == Some(false) {
        new.len() == 1 && new[0].spec_is_falsy()
    } else {
        opt.len() == old.len() && new == undecided(opt)
    }
}

proof fn lemma_and_constancy_sound<T: ?Sized, F: Filter<T>>(s: Seq<F>, obj: &T)
    requires
        and_constancy(s) is Some,
    ensures
        all_match(s, obj) == and_constancy(s)->Some_0,
    decreases s.len(),
{
    if s.len() > 0 {
        s[0].lemma_constant_sound(obj);
        if s[0].spec_as_bool() == Some(true) {
            lemma_and_constancy_sound(s.drop_first(), obj);
            if !all_match(s.drop_first(), obj) {
                let i = choose|i: int| 0 <= i < s.len() - 1 && !(#[trigger] s.drop_first()[i]).spec_matches(obj);
                assert(!s[i + 1].spec_matches(obj));
            }
            assert forall|i: int| 0 < i < s.len() && all_match(s.drop_first(), obj) implies #[trigger] s[i].spec_matches(obj) by {
                assert(s[i] == s.drop_first()[i - 1]);
            }
        }
    }
}

proof fn lemma_undecided_match<T: ?Sized, F: Filter<T>>(s: Seq<F>, obj: &T)
    requires
        forall|i: int| 0 <= i < s.len() ==> (#[trigger] s[i]).spec_as_bool() != Some(false),
    ensures
        all_match(s, obj) == all_match(undecided(s), obj),
    decreases s.len(),
{
    if s.len() > 0 {
        let init = s.drop_last();
        assert forall|i: int| 0 <= i < init.len() implies (#[trigger] init[i]).spec_as_bool() != Some(false) by {
            assert(init[i] == s[i]);
        }
        lemma_undecided_match(init, obj);
        let last = s.last();
        if last.spec_as_bool() is Some {
            last.lemma_constant_sound(obj);
        }
        assert(all_match(s, obj) == (all_match(init, obj) && last.spec_matches(obj))) by {
            if all_match(init, obj) && last.spec_matches(obj) {
                assert forall|i: int| 0 <= i < s.len() implies #[trigger] s[i].spec_matches(obj) by {
                    if i < s.len() - 1 {
                        assert(s[i] == init[i]);
                    }
                }
            }
            if all_match(s, obj) {
                assert forall|i: int| 0 <= i < init.len() implies #[trigger] init[i].spec_matches(obj) by {
                    assert(s[i] == init[i]);
                }
                assert(s[s.len() - 1].spec_matches(obj));
            }
        }
        let u = undecided(init);
        if last.spec_as_bool() is None {
            let u2 = u.push(last);
            assert(all_match(u2, obj) == (all_match(u, obj) && last.spec_matches(obj))) by {
                if all_match(u, obj) && last.spec_matches(obj) {
                    assert forall|i: int| 0 <= i < u2.len() implies #[trigger] u2[i].spec_matches(obj) by {
                        if i < u.len() {
                            assert(u2[i] == u[i]);
                        }
                    }
                }
                if all_match(u2, obj) {
                    assert forall|i: int| 0 <= i < u.len() implies #[trigger] u[i].spec_matches(obj) by {
                        assert(u2[i] == u[i]);
                    }
                    assert(u2[u.len() as int] == last);
                }
            }
        }
    }
}

impl<F> std::ops::Deref for And<F> {
    type Target = Vec<F>;

    fn deref(&self) -> (r: &Vec<F>)
        ensures
            *r == self.0,
    {
        &self.0
    }
}

impl<F> std::ops::DerefMut for And<F> {
    fn deref_mut(&mut self) -> (r: &mut Vec<F>)
        ensures
            *r == old(self).0,
            final(self).0 == *final(r),
    {
        &mut self.0
    }
}

impl<F> From<Vec<F>> for And<F> {
    fn from(value: Vec<F>) -> (r: Self) {
        And(value)
    }
}

impl<F> vstd::std_specs::convert::FromSpecImpl<Vec<F>> for And<F> {
    open spec fn obeys_from_spec() -> bool {
        true
    }

    open spec fn from_spec(v: Vec<F>) -> Self {
        And(v)
    }
}

impl<T: ?Sized, F: Filter<T> + FalsyDefault> Filter<T> for And<F> {
    open spec fn spec_matches(&self, obj: &T) -> bool {
        all_match(self@, obj)
    }

    fn matches(&self, obj: &T) -> (r: bool) {
        let mut i: usize = 0;
        while i < self.0.len()
            invariant
                0 <= i <= self@.len(),
                forall|j: int| 0 <= j < i ==> #[trigger] self@[j].spec_matches(obj),
            decreases self@.len() - i,
        {
            if !self.0[i].matches(obj) {
                return false;
            }
            i += 1;
        }
        true
    }

    proof fn lemma_constant_sound(&self, obj: &T) {
        lemma_and_constancy_sound(self@, obj);
    }

    proof fn lemma_optimize_sound(&self, opt: &Self, obj: &T) {
        let before = self@;
        let after = opt@;
        let visited = choose|s: Seq<F>| and_optimized(before, s, after);
        if visited.len() > 0 && visited.last().spec_as_bool() == Some(false) {
            let k = visited.len() - 1;
            before[k].lemma_optimize_sound(&visited[k], obj);
            visited[k].lemma_constant_sound(obj);
            after[0].lemma_falsy_constant();
            after[0].lemma_constant_sound(obj);
        } else {
            lemma_undecided_match(visited, obj);
            assert forall|i: int| 0 <= i < visited.len() implies #[trigger] before[i].spec_matches(obj)
                == visited[i].spec_matches(obj) by {
                before[i].lemma_optimize_sound(&visited[i], obj);
            }
            if all_match(before, obj) {
                assert forall|i: int| 0 <= i < visited.len() implies #[trigger] visited[i].spec_matches(obj) by {
                    assert(before[i].spec_matches(obj));
                }
            }
            if all_match(visited, obj) {
                assert forall|i: int| 0 <= i < before.len() implies #[trigger] before[i].spec_matches(obj) by {
                    assert(visited[i].spec_matches(obj));
                }
            }
        }
    }
}

impl<F: FalsyDefault> Optimizable for And<F> {
    open spec fn spec_as_bool(&self) -> Option<bool> {
        and_constancy(self@)
    }

    open spec fn spec_optimizes_to(&self, opt: &Self) -> bool {
        exists|s: Seq<F>| and_optimized(self@, s, opt@)
    }

    proof fn lemma_optimize_stable(&self, once: &Self, twice: &Self) {
        let v1 = choose|v: Seq<F>| and_optimized(self@, v, once@);
        let v2 = choose|v: Seq<F>| and_optimized(once@, v, twice@);
        if v1.len() > 0 && v1.last().spec_as_bool() == Some(false) {
            let y = once@[0];
            y.lemma_falsy_constant();
            assert(v2.len() > 0);
            y.lemma_falsy_optimizes(&v2[0]);
            twice@[0].lemma_falsy_constant();
        } else {
            lemma_undecided_unknown(v1);
            lemma_undecided_from(v1);
            assert forall|i: int| 0 <= i < v2.len() implies (#[trigger] v2[i]).spec_as_bool() is None by {
                assert(once@[i] == undecided(v1)[i]);
                let j = choose|j: int| 0 <= j < v1.len() && undecided(v1)[i] == v1[j];
                self@[j].lemma_optimize_stable(&v1[j], &v2[i]);
            }
            if v2.len() > 0 {
                assert(v2[v2.len() - 1].spec_as_bool() is None);
            }
            lemma_undecided_all_unknown(v2);
            if once@.len() > 0 {
                assert(once@[0].spec_as_bool() is None);
                assert(twice@[0].spec_as_bool() is None);
            }
        }
    }

    fn as_bool(&self) -> (r: Option<bool>) {
        let mut i: usize = 0;
        proof {
            assert(self@.skip(0) =~= self@);
        }
        while i < self.0.len()
            invariant
                0 <= i <= self@.len(),
                and_constancy(self@) == and_constancy(self@.skip(i as int)),
            decreases self@.len() - i,
        {
            proof {
                assert(self@.skip(i as int).drop_first() =~= self@.skip(i + 1));
            }
            match self.0[i].as_bool() {
                None => return None,
                Some(false) => return Some(false),
                Some(true) => {},
            }
            i += 1;
        }
        Some(true)
    }

    fn optimize(&mut self) {
        let ghost old_s = self@;
        let mut rest: Vec<F> = Vec::new();
        std::mem::swap(&mut self.0, &mut rest);
        let mut kept: Vec<F> = Vec::new();
        let mut short_circuit = false;
        let ghost mut opt: Seq<F> = Seq::empty();
        while rest.len() > 0 && !short_circuit
            invariant
                opt.len() <= old_s.len(),
                rest@ == old_s.skip(opt.len() as int),
                forall|i: int| 0 <= i < opt.len() ==> old_s[i].spec_optimizes_to(&#[trigger] opt[i]),
                forall|i: int| 0 <= i < opt.len() - 1 ==> (#[trigger] opt[i]).spec_as_bool() != Some(false),
                short_circuit == (opt.len() > 0 && opt.last().spec_as_bool() == Some(false)),
                !short_circuit ==> kept@ == undecided(opt),
            decreases rest@.len(),
        {
            let mut f = rest.remove(0);
            f.optimize();
            let b = f.as_bool();
            proof {
                assert(opt.push(f).drop_last() =~= opt);
                assert(rest@ =~= old_s.skip(opt.len() + 1 as int));
                opt = opt.push(f);
            }
            match b {
                Some(false) => short_circuit = true,
                Some(true) => {},
                None => kept.push(f),
            }
        }
        if short_circuit {
            self.0 = vec![F::falsy_default()];
        } else {
            self.0 = kept;
        }
        proof {
            assert(and_optimized(old_s, opt, self@));
        }
    }
}

impl<F: FalsyDefault> TruthyDefault for And<F> {
    open spec fn spec_is_truthy(&self) -> bool {
        self@.len() == 0
    }

    proof fn lemma_truthy_constant(&self) {
    }

    proof fn lemma_truthy_optimizes(&self, opt: &Self) {
        let v = choose|v: Seq<F>| and_optimized(self@, v, opt@);
        assert(v.len() == 0);
        assert(opt@.len() == 0);
    }

    fn truthy_default() -> (r: Self) {
        And(Vec::new())
    }
}

impl<F: FalsyDefault> FalsyDefault for And<F> {
    open spec fn spec_is_falsy(&self) -> bool {
        self@.len() == 1 && self@[0].spec_is_falsy()
    }

    proof fn lemma_falsy_constant(&self) {
        self@[0].lemma_falsy_constant();
        assert(self@.drop_first().len() == 0);
    }

    proof fn lemma_falsy_optimizes(&self, opt: &Self) {
        let v = choose|v: Seq<F>| and_optimized(self@, v, opt@);
        assert(v.len() == 1);
        self@[0].lemma_falsy_optimizes(&v[0]);
        opt@[0].lemma_falsy_constant();
    }

    fn falsy_default() -> (r: Self) {
        And(vec![F::falsy_default()])
    }
}

/// An empty conjunction is true on every subject.
pub proof fn lemma_empty_and<T: ?Sized, F: Filter<T> + FalsyDefault>(f: And<F>, obj: &T)
    requires
        f@.len() == 0,
    ensures
        f.spec_matches(obj) == true,
{
}

/// Once a child is certain to be constantly false after its own
/// optimization, the optimizer visits no child after it, so none of those is
/// optimized, and the conjunction becomes its canonical false value.
pub proof fn lemma_and_short_circuit<F: FalsyDefault>(before: And<F>, after: And<F>, i: int)
    requires
        before.spec_optimizes_to(&after),
        0 <= i < before@.len(),
        forall|x: F| before@[i].spec_optimizes_to(&x) ==> x.spec_as_bool() == Some(false),
    ensures
        after.spec_is_falsy(),
        forall|visited: Seq<F>| and_optimized(before@, visited, after@) ==> visited.len() <= i + 1,
{
    assert forall|visited: Seq<F>| and_optimized(before@, visited, after@) implies visited.len() <= i + 1 by {
        if visited.len() > i + 1 {
            assert(before@[i].spec_optimizes_to(&visited[i]));
        }
    }
    let visited = choose|visited: Seq<F>| and_optimized(before@, visited, after@);
    if visited.len() == i + 1 {
        assert(before@[i].spec_optimizes_to(&visited[i]));
    }
}

/// Every filter that `undecided` keeps comes from `s`.
pub proof fn lemma_undecided_from<F: Optimizable>(s: Seq<F>)
    ensures
        forall|i: int| 0 <= i < undecided(s).len() ==> exists|j: int| 0 <= j < s.len() && #[trigger] undecided(s)[i] == s[j],
    decreases s.len(),
{
    if s.len() > 0 {
        let init = s.drop_last();
        lemma_undecided_from(init);
        let u = undecided(init);
        assert forall|i: int| 0 <= i < undecided(s).len() implies exists|j: int| 0 <= j < s.len() && #[trigger] undecided(s)[i] == s[j] by {
            if i < u.len() {
                let j = choose|j: int| 0 <= j < init.len() && u[i] == init[j];
                assert(undecided(s)[i] == s[j]);
            } else {
                assert(undecided(s)[i] == s[s.len() - 1]);
            }
        }
    }
}

/// `undecided` keeps a sequence of filters that are all of unknown
/// constancy as it is.
pub proof fn lemma_undecided_all_unknown<F: Optimizable>(s: Seq<F>)
    requires
        forall|i: int| 0 <= i < s.len() ==> (#[trigger] s[i]).spec_as_bool() is None,
    ensures
        undecided(s) == s,
    decreases s.len(),
{
    if s.len() > 0 {
        let init = s.drop_last();
        assert forall|i: int| 0 <= i < init.len() implies (#[trigger] init[i]).spec_as_bool() is None by {
            assert(init[i] == s[i]);
        }
        lemma_undecided_all_unknown(init);
        assert(init.push(s.last()) =~= s);
    }
}

/// Every filter that `undecided` keeps is of unknown constancy.
pub proof fn lemma_undecided_unknown<F: Optimizable>(s: Seq<F>)
    ensures
        forall|i: int| 0 <= i < undecided(s).len() ==> (#[trigger] undecided(s)[i]).spec_as_bool() is None,
    decreases s.len(),
{
    if s.len() > 0 {
        lemma_undecided_unknown(s.drop_last());
    }
}

/// After optimization a constant conjunction is one of its two canonical values.
pub proof fn lemma_and_canonical<F: FalsyDefault>(before: And<F>, after: And<F>)
    requires
        before.spec_optimizes_to(&after),
    ensures
        after.spec_as_bool() == Some(true) ==> after.spec_is_truthy(),
        after.spec_as_bool() == Some(false) ==> after.spec_is_falsy(),
{
    let visited = choose|visited: Seq<F>| and_optimized(before@, visited, after@);
    if visited.len() > 0 && visited.last().spec_as_bool() == Some(false) {
        after@[0].lemma_falsy_constant();
    } else {
        lemma_undecided_unknown(visited);
        if after@.len() > 0 {
            assert(after@[0].spec_as_bool() is None);
        }
    }
}

} // verus!
