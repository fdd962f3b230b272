use vstd::prelude::*;

use crate::and::And;
use crate::filter::{FalsyDefault, Filter, Optimizable, TruthyDefault};
use crate::link::{link_matches, LinkFilter};
use crate::or::Or;
use crate::subject::{Data, Id};
use crate::text::TextFilter;

verus! {

/// A filter over nodes.
#[derive(Debug)]
pub enum DataFilter {
    Any,
    Or(Or<DataFilter>),
    And(And<DataFilter>),
    Not(Box<crate::not::Not<DataFilter>>),
    Text(TextFilter),
    Unique,
    Id(Id),
    NotId(Id),
    Linked(Box<LinkFilter>),
    Nothing,
}

/// Whether `f` accepts the node `d`.
pub open spec fn data_matches(f: DataFilter, d: Data) -> bool
    decreases f,
{
    match f {
        DataFilter::Any => true,
        DataFilter::Nothing => false,
        DataFilter::And(a) => forall|i: int| #![trigger a.0@[i]] 0 <= i < a.0@.len() ==> data_matches(a.0@[i], d),
        DataFilter::Or(o) => exists|i: int| #![trigger o.0@[i]] 0 <= i < o.0@.len() && data_matches(o.0@[i], d),
        DataFilter::Not(n) => !data_matches(n.0, d),
        DataFilter::Text(t) => d.value is Some && d.value->Some_0@ == t@,
        DataFilter::Unique => d.id is Some,
        DataFilter::Id(x) => d.id == Some(x),
        DataFilter::NotId(x) => d.id != Some(x),
        DataFilter::Linked(l) => exists|i: int| #![trigger d.links@[i]] 0 <= i < d.links@.len() && link_matches(*l, d.links@[i]),
    }
}

/// The constancy of `c`'s negation.
pub open spec fn negated(c: Option<bool>) -> Option<bool> {
    match c {
        Some(b) => Some(!b),
        None => None,
    }
}

/// `Some(b)` when `f` is known to give `b` on every node.
pub open spec fn data_constancy(f: DataFilter) -> Option<bool>
    decreases f, 0int,
{
    match f {
        DataFilter::Any => Some(true),
        DataFilter::Nothing => Some(false),
        DataFilter::And(a) => data_all_constancy(a.0@, 0),
        DataFilter::Or(o) => data_any_constancy(o.0@, 0),
        DataFilter::Not(n) => negated(data_constancy(n.0)),
        _ => None,
    }
}

/// The constancy of the conjunction of `s` from index `i` on, by a scan that
/// stops at the first child that is unknown or constantly false.
pub open spec fn data_all_constancy(s: Seq<DataFilter>, i: int) -> Option<bool>
    decreases s, s.len() - i,
{
    if 0 <= i < s.len() {
        match data_constancy(s[i]) {
            Some(true) => data_all_constancy(s, i + 1),
            c => c,
        }
    } else {
        Some(true)
    }
}

/// The constancy of the disjunction of `s` from index `i` on, by a scan that
/// stops at the first child that is unknown or constantly true.
pub open spec fn data_any_constancy(s: Seq<DataFilter>, i: int) -> Option<bool>
    decreases s, s.len() - i,
{
    if 0 <= i < s.len() {
        match data_constancy(s[i]) {
            Some(false) => data_any_constancy(s, i + 1),
            c => c,
        }
    } else {
        Some(false)
    }
}

/// Every filter of `s` before index `k` accepts `d`.
pub open spec fn all_data_upto(s: Seq<DataFilter>, k: int, d: Data) -> bool {
    forall|j: int| #![trigger s[j]] 0 <= j < k ==> data_matches(s[j], d)
}

/// Some filter of `s` before index `k` accepts `d`.
pub open spec fn any_data_upto(s: Seq<DataFilter>, k: int, d: Data) -> bool {
    exists|j: int| #![trigger s[j]] 0 <= j < k && data_matches(s[j], d)
}

/// `f` and `g` accept the same nodes.
pub open spec fn data_equivalent(f: DataFilter, g: DataFilter) -> bool {
    forall|d: Data| #[trigger] data_matches(f, d) == data_matches(g, d)
}

/// A constant filter is one of the two canonical values.
pub open spec fn data_canonical(f: DataFilter) -> bool {
    &&& data_constancy(f) == Some(true) ==> f is Any
    &&& data_constancy(f) == Some(false) ==> f is Nothing
}

/// One step of a conjunction's fold: constantly false as soon as one child
/// is, constantly true while every child is.
pub open spec fn all_step(acc: Option<bool>, c: Option<bool>) -> Option<bool> {
    if acc == Some(false) || c == Some(false) {
        Some(false)
    } else if acc == Some(true) && c == Some(true) {
        Some(true)
    } else {
        None
    }
}

/// One step of a disjunction's fold: constantly true as soon as one child
/// is, constantly false while every child is.
pub open spec fn any_step(acc: Option<bool>, c: Option<bool>) -> Option<bool> {
    if acc == Some(true) || c == Some(true) {
        Some(true)
    } else if acc == Some(false) && c == Some(false) {
        Some(false)
    } else {
        None
    }
}

/// The constancy that `f` has once optimized, its children folded
/// bottom-up.
pub open spec fn data_fold_constancy(f: DataFilter) -> Option<bool>
    decreases f, 0int,
{
    match f {
        DataFilter::Any => Some(true),
        DataFilter::Nothing => Some(false),
        DataFilter::And(a) => data_fold_all(a.0@, a.0@.len() as int),
        DataFilter::Or(o) => data_fold_any(o.0@, o.0@.len() as int),
        DataFilter::Not(n) => negated(data_fold_constancy(n.0)),
        _ => None,
    }
}

/// The folded constancy of the conjunction of the first `n` filters of `s`.
pub open spec fn data_fold_all(s: Seq<DataFilter>, n: int) -> Option<bool>
    decreases s, n,
{
    if 0 < n <= s.len() {
        all_step(data_fold_all(s, n - 1), data_fold_constancy(s[n - 1]))
    } else {
        Some(true)
    }
}

/// The folded constancy of the disjunction of the first `n` filters of `s`.
pub open spec fn data_fold_any(s: Seq<DataFilter>, n: int) -> Option<bool>
    decreases s, n,
{
    if 0 < n <= s.len() {
        any_step(data_fold_any(s, n - 1), data_fold_constancy(s[n - 1]))
    } else {
        Some(false)
    }
}

/// `r` is what optimizing `f` leaves: a filter that folds to a constant
/// becomes `Any` or `Nothing`; otherwise a conjunction or disjunction keeps,
/// in order, the folded forms of its children that are not constant, a
/// negation keeps the folded form of its child, and any other filter stays
/// as it is.
pub open spec fn data_folds_to(f: DataFilter, r: DataFilter) -> bool
    decreases f, 0int,
{
    match data_fold_constancy(f) {
        Some(true) => r is Any,
        Some(false) => r is Nothing,
        None => match f {
            DataFilter::And(a) => r is And && data_kept(a.0@, a.0@.len() as int, r->And_0.0@),
            DataFilter::Or(o) => r is Or && data_kept(o.0@, o.0@.len() as int, r->Or_0.0@),
            DataFilter::Not(n) => r is Not && data_folds_to(n.0, r->Not_0.0),
            _ => r == f,
        },
    }
}

/// `k` holds, in order, the folded forms of those of the first `n` filters
/// of `s` that do not fold to a constant.
pub open spec fn data_kept(s: Seq<DataFilter>, n: int, k: Seq<DataFilter>) -> bool
    decreases s, n,
{
    if 0 < n <= s.len() {
        if data_fold_constancy(s[n - 1]) is None {
            k.len() > 0 && data_folds_to(s[n - 1], k.last()) && data_kept(s, n - 1, k.drop_last())
        } else {
            data_kept(s, n - 1, k)
        }
    } else {
        k.len() == 0
    }
}

proof fn lemma_fold_all_stays_false(s: Seq<DataFilter>, n: int, m: int)
    requires
        0 <= n <= m <= s.len(),
        data_fold_all(s, n) == Some(false),
    ensures
        data_fold_all(s, m) == Some(false),
    decreases m - n,
{
    if n < m {
        lemma_fold_all_stays_false(s, n, m - 1);
    }
}

proof fn lemma_fold_any_stays_true(s: Seq<DataFilter>, n: int, m: int)
    requires
        0 <= n <= m <= s.len(),
        data_fold_any(s, n) == Some(true),
    ensures
        data_fold_any(s, m) == Some(true),
    decreases m - n,
{
    if n < m {
        lemma_fold_any_stays_true(s, n, m - 1);
    }
}

proof fn lemma_fold_unknown(s: Seq<DataFilter>, n: int)
    requires
        0 < n <= s.len(),
        forall|j: int| 0 <= j < s.len() ==> data_fold_constancy(#[trigger] s[j]) is None,
    ensures
        data_fold_all(s, n) is None,
        data_fold_any(s, n) is None,
    decreases n,
{
    assert(data_fold_constancy(s[n - 1]) is None);
    if n > 1 {
        lemma_fold_unknown(s, n - 1);
    }
}

/// A constant reported for a filter is its result on every node.
pub proof fn lemma_data_constancy_sound(f: DataFilter, d: Data)
    requires
        data_constancy(f) is Some,
    ensures
        data_matches(f, d) == data_constancy(f)->Some_0,
    decreases f, 0int,
{
    match f {
        DataFilter::And(a) => lemma_data_all_constancy_sound(a.0@, 0, d),
        DataFilter::Or(o) => lemma_data_any_constancy_sound(o.0@, 0, d),
        DataFilter::Not(n) => lemma_data_constancy_sound(n.0, d),
        _ => {},
    }
}

proof fn lemma_data_all_constancy_sound(s: Seq<DataFilter>, i: int, d: Data)
    requires
        0 <= i <= s.len(),
        data_all_constancy(s, i) is Some,
    ensures
        (forall|j: int| #![trigger s[j]] i <= j < s.len() ==> data_matches(s[j], d))
            == data_all_constancy(s, i)->Some_0,
    decreases s, s.len() - i,
{
    if i < s.len() {
        lemma_data_constancy_sound(s[i], d);
        if data_constancy(s[i]) == Some(true) {
            lemma_data_all_constancy_sound(s, i + 1, d);
        }
    }
}

proof fn lemma_data_any_constancy_sound(s: Seq<DataFilter>, i: int, d: Data)
    requires
        0 <= i <= s.len(),
        data_any_constancy(s, i) is Some,
    ensures
        (exists|j: int| #![trigger s[j]] i <= j < s.len() && data_matches(s[j], d))
            == data_any_constancy(s, i)->Some_0,
    decreases s, s.len() - i,
{
    if i < s.len() {
        lemma_data_constancy_sound(s[i], d);
        if data_constancy(s[i]) == Some(false) {
            lemma_data_any_constancy_sound(s, i + 1, d);
            if exists|j: int| #![trigger s[j]] i <= j < s.len() && data_matches(s[j], d) {
                let j = choose|j: int| #![trigger s[j]] i <= j < s.len() && data_matches(s[j], d);
                assert(j != i);
            }
        }
    }
}

impl DataFilter {
    #[verifier::loop_isolation(false)]
    pub fn matches_data(&self, d: &Data) -> (r: bool)
        ensures
            r == data_matches(*self, *d),
        decreases self,
    {
        match self {
            DataFilter::Any => true,
            DataFilter::Nothing => false,
            DataFilter::And(a) => {
                let mut i: usize = 0;
                while i < a.0.len()
                    invariant
                        0 <= i <= a.0@.len(),
                        forall|j: int| 0 <= j < i ==> data_matches(#[trigger] a.0@[j], *d),
                    decreases a.0@.len() - i,
                {
                    proof {
                        assert(decreases_to!(a.0 => a.0[i as int]));
                    }
                    if !a.0[i].matches_data(d) {
                        assert(!data_matches(a.0@[i as int], *d));
                        return false;
                    }
                    i += 1;
                }
                true
            },
            DataFilter::Or(o) => {
                let mut i: usize = 0;
                while i < o.0.len()
                    invariant
                        0 <= i <= o.0@.len(),
                        forall|j: int| 0 <= j < i ==> !data_matches(#[trigger] o.0@[j], *d),
                    decreases o.0@.len() - i,
                {
                    proof {
                        assert(decreases_to!(o.0 => o.0[i as int]));
                    }
                    if o.0[i].matches_data(d) {
                        assert(data_matches(o.0@[i as int], *d));
                        return true;
                    }
                    i += 1;
                }
                false
            },
            DataFilter::Not(n) => !n.0.matches_data(d),
            DataFilter::Text(t) => match &d.value {
                Some(v) => t.matches(v.as_str()),
                None => false,
            },
            DataFilter::Unique => d.id.is_some(),
            DataFilter::Id(x) => match d.id {
                Some(i) => i == *x,
                None => false,
            },
            DataFilter::NotId(x) => match d.id {
                Some(i) => i != *x,
                None => true,
            },
            DataFilter::Linked(l) => {
                // The search stops at the first link that matches.
                let mut i: usize = 0;
                while i < d.links.len()
                    invariant
                        0 <= i <= d.links@.len(),
                        forall|j: int| 0 <= j < i ==> !link_matches(**l, #[trigger] d.links@[j]),
                    decreases d.links@.len() - i,
                {
                    if l.matches_link(&d.links[i]) {
                        assert(link_matches(**l, d.links@[i as int]));
                        return true;
                    }
                    i += 1;
                }
                false
            },
        }
    }
}


impl DataFilter {
    #[verifier::loop_isolation(false)]
    fn constancy(&self) -> (r: Option<bool>)
        ensures
            r == data_constancy(*self),
        decreases self,
    {
        match self {
            DataFilter::Any => Some(true),
            DataFilter::Nothing => Some(false),
            DataFilter::And(a) => {
                let mut i: usize = 0;
                while i < a.0.len()
                    invariant
                        0 <= i <= a.0@.len(),
                        data_constancy(*self) == data_all_constancy(a.0@, i as int),
                    decreases a.0@.len() - i,
                {
                    proof {
                        assert(decreases_to!(a.0 => a.0[i as int]));
                    }
                    match a.0[i].constancy() {
                        Some(true) => {},
                        c => return c,
                    }
                    i += 1;
                }
                Some(true)
            },
            DataFilter::Or(o) => {
                let mut i: usize = 0;
                while i < o.0.len()
                    invariant
                        0 <= i <= o.0@.len(),
                        data_constancy(*self) == data_any_constancy(o.0@, i as int),
                    decreases o.0@.len() - i,
                {
                    proof {
                        assert(decreases_to!(o.0 => o.0[i as int]));
                    }
                    match o.0[i].constancy() {
                        Some(false) => {},
                        c => return c,
                    }
                    i += 1;
                }
                Some(false)
            },
            DataFilter::Not(n) => match n.0.constancy() {
                Some(b) => Some(!b),
                None => None,
            },
            _ => None,
        }
    }

    // The children of a nested conjunction or disjunction are handled here
    // rather than through `And::optimize` and `Or::optimize`: Verus refuses
    // recursion that runs through a generic impl instantiated with this type.
    /// The optimized form of `self`, built bottom-up. A conjunction visits
    /// its children in order, optimizing each: it stops at the first that is
    /// constantly false, leaving the remaining ones unvisited, and drops
    /// those that are constantly true; a disjunction does the same with true
    /// and false swapped. Whatever turns out constant becomes `Any` or
    /// `Nothing`.
    #[verifier::loop_isolation(false)]
    pub(crate) fn optimized(self) -> (r: DataFilter)
        ensures
            data_equivalent(self, r),
            data_folds_to(self, r),
            data_constancy(r) == data_fold_constancy(self),
            data_fold_constancy(r) == data_constancy(r),
        decreases self,
    {
        let ghost before = self;
        match self {
            DataFilter::And(a) => {
                let ghost orig = a.0;
                let mut rest = a.0;
                let mut kept: Vec<DataFilter> = Vec::new();
                let mut short_circuit = false;
                let ghost mut k: int = 0;
                while rest.len() > 0 && !short_circuit
                    invariant
                        0 <= k <= orig@.len(),
                        rest@ == orig@.skip(k),
                        forall|j: int| 0 <= j < kept@.len() ==> data_constancy(#[trigger] kept@[j]) is None,
                        forall|j: int| 0 <= j < kept@.len() ==> data_fold_constancy(#[trigger] kept@[j]) is None,
                        !short_circuit ==> data_fold_all(orig@, k) == (if kept@.len() == 0 {
                            Some(true)
                        } else {
                            None
                        }),
                        short_circuit ==> data_fold_all(orig@, k) == Some(false),
                        !short_circuit ==> data_kept(orig@, k, kept@),
                        !short_circuit ==> forall|d: Data| #[trigger] all_data_upto(orig@, k, d)
                            == all_data_upto(kept@, kept@.len() as int, d),
                        short_circuit ==> forall|d: Data| !#[trigger] all_data_upto(orig@, k, d),
                    decreases rest@.len(),
                {
                    let f = rest.remove(0);
                    proof {
                        assert(f == orig@[k]);
                        assert(decreases_to!(orig => orig[k]));
                        assert(rest@ =~= orig@.skip(k + 1));
                    }
                    let g = f.optimized();
                    let c = g.constancy();
                    match c {
                        Some(false) => {
                            proof {
                                assert forall|d: Data| !#[trigger] all_data_upto(orig@, k + 1, d) by {
                                    lemma_data_constancy_sound(g, d);
                                    assert(data_matches(f, d) == data_matches(g, d));
                                }
                            }
                            short_circuit = true;
                        },
                        Some(true) => {
                            proof {
                                assert forall|d: Data| #[trigger] all_data_upto(orig@, k + 1, d)
                                    == all_data_upto(kept@, kept@.len() as int, d) by {
                                    lemma_data_constancy_sound(g, d);
                                    assert(data_matches(f, d) == data_matches(g, d));
                                    assert(all_data_upto(orig@, k, d) == all_data_upto(kept@, kept@.len() as int, d));
                                }
                            }
                        },
                        None => {
                            let ghost old_kept = kept@;
                            kept.push(g);
                            proof {
                                assert(kept@.drop_last() =~= old_kept);
                                assert forall|d: Data| #[trigger] all_data_upto(orig@, k + 1, d)
                                    == all_data_upto(kept@, kept@.len() as int, d) by {
                                    assert(data_matches(f, d) == data_matches(g, d));
                                    assert(all_data_upto(orig@, k, d) == all_data_upto(old_kept, old_kept.len() as int, d));
                                    assert(kept@[old_kept.len() as int] == g);
                                    if all_data_upto(old_kept, old_kept.len() as int, d) && data_matches(g, d) {
                                        assert forall|j: int| 0 <= j < kept@.len() implies data_matches(#[trigger] kept@[j], d) by {
                                            if j < old_kept.len() {
                                                assert(kept@[j] == old_kept[j]);
                                            }
                                        }
                                    }
                                    if all_data_upto(kept@, kept@.len() as int, d) {
                                        assert forall|j: int| 0 <= j < old_kept.len() implies data_matches(#[trigger] old_kept[j], d) by {
                                            assert(kept@[j] == old_kept[j]);
                                        }
                                    }
                                }
                            }
                        },
                    }
                    proof {
                        k = k + 1;
                    }
                }
                if short_circuit {
                    proof {
                        lemma_fold_all_stays_false(orig@, k, orig@.len() as int);
                        assert forall|d: Data| #[trigger] data_matches(before, d) == data_matches(DataFilter::Nothing, d) by {
                            assert(!all_data_upto(orig@, k, d));
                        }
                    }
                    DataFilter::Nothing
                } else if kept.len() == 0 {
                    proof {
                        assert forall|d: Data| #[trigger] data_matches(before, d) == data_matches(DataFilter::Any, d) by {
                            assert(all_data_upto(orig@, k, d));
                        }
                    }
                    DataFilter::Any
                } else {
                    let r = DataFilter::And(And(kept));
                    proof {
                        assert(data_constancy(kept@[0]) is None);
                        assert(data_all_constancy(kept@, 0) is None);
                        lemma_fold_unknown(kept@, kept@.len() as int);
                        assert(data_constancy(r) is None);
                        assert(k == orig@.len());
                        assert forall|d: Data| #[trigger] data_matches(before, d) == data_matches(r, d) by {
                            assert(all_data_upto(orig@, k, d) == all_data_upto(kept@, kept@.len() as int, d));
                            if data_matches(before, d) {
                                assert forall|j: int| 0 <= j < k implies data_matches(#[trigger] orig@[j], d) by {
                                    assert(data_matches(before->And_0.0@[j], d));
                                }
                            }
                            if all_data_upto(orig@, k, d) {
                                assert forall|j: int| 0 <= j < before->And_0.0@.len() implies data_matches(
                                    #[trigger] before->And_0.0@[j], d) by {
                                    assert(data_matches(orig@[j], d));
                                }
                            }
                        }
                    }
                    r
                }
            },
            DataFilter::Or(o) => {
                let ghost orig = o.0;
                let mut rest = o.0;
                let mut kept: Vec<DataFilter> = Vec::new();
                let mut short_circuit = false;
                let ghost mut k: int = 0;
                while rest.len() > 0 && !short_circuit
                    invariant
                        0 <= k <= orig@.len(),
                        rest@ == orig@.skip(k),
                        forall|j: int| 0 <= j < kept@.len() ==> data_constancy(#[trigger] kept@[j]) is None,
                        forall|j: int| 0 <= j < kept@.len() ==> data_fold_constancy(#[trigger] kept@[j]) is None,
                        !short_circuit ==> data_fold_any(orig@, k) == (if kept@.len() == 0 {
                            Some(false)
                        } else {
                            None
                        }),
                        short_circuit ==> data_fold_any(orig@, k) == Some(true),
                        !short_circuit ==> data_kept(orig@, k, kept@),
                        !short_circuit ==> forall|d: Data| #[trigger] any_data_upto(orig@, k, d)
                            == any_data_upto(kept@, kept@.len() as int, d),
                        short_circuit ==> forall|d: Data| #[trigger] any_data_upto(orig@, k, d),
                    decreases rest@.len(),
                {
                    let f = rest.remove(0);
                    proof {
                        assert(f == orig@[k]);
                        assert(decreases_to!(orig => orig[k]));
                        assert(rest@ =~= orig@.skip(k + 1));
                    }
                    let g = f.optimized();
                    let c = g.constancy();
                    match c {
                        Some(true) => {
                            proof {
                                assert forall|d: Data| #[trigger] any_data_upto(orig@, k + 1, d) by {
                                    lemma_data_constancy_sound(g, d);
                                    assert(data_matches(f, d) == data_matches(g, d));
                                    assert(data_matches(orig@[k], d));
                                }
                            }
                            short_circuit = true;
                        },
                        Some(false) => {
                            proof {
                                assert forall|d: Data| #[trigger] any_data_upto(orig@, k + 1, d)
                                    == any_data_upto(kept@, kept@.len() as int, d) by {
                                    lemma_data_constancy_sound(g, d);
                                    assert(data_matches(f, d) == data_matches(g, d));
                                    assert(any_data_upto(orig@, k, d) == any_data_upto(kept@, kept@.len() as int, d));
                                    if any_data_upto(orig@, k + 1, d) {
                                        let j = choose|j: int| #![trigger orig@[j]] 0 <= j < k + 1 && data_matches(orig@[j], d);
                                        assert(j != k);
                                    }
                                }
                            }
                        },
                        None => {
                            let ghost old_kept = kept@;
                            kept.push(g);
                            proof {
                                assert(kept@.drop_last() =~= old_kept);
                                assert forall|d: Data| #[trigger] any_data_upto(orig@, k + 1, d)
                                    == any_data_upto(kept@, kept@.len() as int, d) by {
                                    assert(data_matches(f, d) == data_matches(g, d));
                                    assert(any_data_upto(orig@, k, d) == any_data_upto(old_kept, old_kept.len() as int, d));
                                    assert(kept@[old_kept.len() as int] == g);
                                    if any_data_upto(orig@, k + 1, d) {
                                        let j = choose|j: int| #![trigger orig@[j]] 0 <= j < k + 1 && data_matches(orig@[j], d);
                                        if j == k {
                                            assert(data_matches(kept@[old_kept.len() as int], d));
                                        } else {
                                            assert(any_data_upto(orig@, k, d));
                                            let i = choose|i: int| #![trigger old_kept[i]] 0 <= i < old_kept.len() && data_matches(old_kept[i], d);
                                            assert(kept@[i] == old_kept[i]);
                                        }
                                    }
                                    if any_data_upto(kept@, kept@.len() as int, d) {
                                        let i = choose|i: int| #![trigger kept@[i]] 0 <= i < kept@.len() && data_matches(kept@[i], d);
                                        if i < old_kept.len() {
                                            assert(kept@[i] == old_kept[i]);
                                            assert(any_data_upto(old_kept, old_kept.len() as int, d));
                                        } else {
                                            assert(data_matches(orig@[k], d));
                                        }
                                    }
                                }
                            }
                        },
                    }
                    proof {
                        k = k + 1;
                    }
                }
                if short_circuit {
                    proof {
                        lemma_fold_any_stays_true(orig@, k, orig@.len() as int);
                        assert forall|d: Data| #[trigger] data_matches(before, d) == data_matches(DataFilter::Any, d) by {
                            assert(any_data_upto(orig@, k, d));
                            let j = choose|j: int| #![trigger orig@[j]] 0 <= j < k && data_matches(orig@[j], d);
                            assert(data_matches(o.0@[j], d));
                        }
                    }
                    DataFilter::Any
                } else if kept.len() == 0 {
                    proof {
                        assert forall|d: Data| #[trigger] data_matches(before, d) == data_matches(DataFilter::Nothing, d) by {
                            assert(!any_data_upto(orig@, k, d));
                        }
                    }
                    DataFilter::Nothing
                } else {
                    let r = DataFilter::Or(Or(kept));
                    proof {
                        assert(data_constancy(kept@[0]) is None);
                        assert(data_any_constancy(kept@, 0) is None);
                        lemma_fold_unknown(kept@, kept@.len() as int);
                        assert(data_constancy(r) is None);
                        assert(k == orig@.len());
                        assert forall|d: Data| #[trigger] data_matches(before, d) == data_matches(r, d) by {
                            assert(any_data_upto(orig@, k, d) == any_data_upto(kept@, kept@.len() as int, d));
                            if data_matches(before, d) {
                                let j = choose|j: int| #![trigger before->Or_0.0@[j]] 0 <= j < before->Or_0.0@.len()
                                    && data_matches(before->Or_0.0@[j], d);
                                assert(data_matches(orig@[j], d));
                                assert(any_data_upto(orig@, k, d));
                            }
                            if any_data_upto(orig@, k, d) {
                                let j = choose|j: int| #![trigger orig@[j]] 0 <= j < k && data_matches(orig@[j], d);
                                assert(data_matches(before->Or_0.0@[j], d));
                            }
                            if data_matches(r, d) {
                                assert(any_data_upto(kept@, kept@.len() as int, d));
                            }
                        }
                    }
                    r
                }
            },
            DataFilter::Not(n) => {
                let crate::not::Not(inner) = *n;
                let g = inner.optimized();
                match g.constancy() {
                    Some(false) => {
                        proof {
                            assert forall|d: Data| #[trigger] data_matches(before, d) == data_matches(DataFilter::Any, d) by {
                                lemma_data_constancy_sound(g, d);
                                assert(data_matches(inner, d) == data_matches(g, d));
                            }
                        }
                        DataFilter::Any
                    },
                    Some(true) => {
                        proof {
                            assert forall|d: Data| #[trigger] data_matches(before, d) == data_matches(DataFilter::Nothing, d) by {
                                lemma_data_constancy_sound(g, d);
                                assert(data_matches(inner, d) == data_matches(g, d));
                            }
                        }
                        DataFilter::Nothing
                    },
                    None => {
                        let r = DataFilter::Not(Box::new(crate::not::Not(g)));
                        proof {
                            assert forall|d: Data| #[trigger] data_matches(before, d) == data_matches(r, d) by {
                                assert(data_matches(inner, d) == data_matches(g, d));
                            }
                        }
                        r
                    },
                }
            },
            other => other,
        }
    }
}

impl Optimizable for DataFilter {
    open spec fn spec_as_bool(&self) -> Option<bool> {
        data_constancy(*self)
    }

    /// Optimizing folds the filter as `data_folds_to` describes, keeping
    /// the nodes accepted; the result reports the folded constancy, which a
    /// second fold leaves as it is.
    open spec fn spec_optimizes_to(&self, opt: &Self) -> bool {
        &&& data_folds_to(*self, *opt)
        &&& data_equivalent(*self, *opt)
        &&& data_constancy(*opt) == data_fold_constancy(*self)
        &&& data_fold_constancy(*opt) == data_constancy(*opt)
    }

    proof fn lemma_optimize_stable(&self, once: &Self, twice: &Self) {
        lemma_data_optimize_stable(*self, *once, *twice);
    }

    fn as_bool(&self) -> (r: Option<bool>) {
        self.constancy()
    }

    fn optimize(&mut self) {
        let mut taken = DataFilter::Any;
        std::mem::swap(self, &mut taken);
        *self = taken.optimized();
    }
}

impl Filter<Data> for DataFilter {
    open spec fn spec_matches(&self, obj: &Data) -> bool {
        data_matches(*self, *obj)
    }

    fn matches(&self, obj: &Data) -> (r: bool) {
        self.matches_data(obj)
    }

    proof fn lemma_constant_sound(&self, obj: &Data) {
        lemma_data_constancy_sound(*self, *obj);
    }

    proof fn lemma_optimize_sound(&self, opt: &Self, obj: &Data) {
        assert(data_matches(*self, *obj) == data_matches(*opt, *obj));
    }
}

impl Default for DataFilter {
    /// The default filter accepts every node.
    fn default() -> (r: Self)
        ensures
            r is Any,
    {
        DataFilter::Any
    }
}

impl TruthyDefault for DataFilter {
    open spec fn spec_is_truthy(&self) -> bool {
        *self is Any
    }

    proof fn lemma_truthy_constant(&self) {
    }

    proof fn lemma_truthy_optimizes(&self, opt: &Self) {
    }

    fn truthy_default() -> (r: Self) {
        DataFilter::Any
    }
}

impl FalsyDefault for DataFilter {
    open spec fn spec_is_falsy(&self) -> bool {
        *self is Nothing
    }

    proof fn lemma_falsy_constant(&self) {
    }

    proof fn lemma_falsy_optimizes(&self, opt: &Self) {
    }

    fn falsy_default() -> (r: Self) {
        DataFilter::Nothing
    }
}

impl DataFilter {
    /// Accepts every node.
    pub fn any() -> (r: Self)
        ensures
            r is Any,
    {
        DataFilter::Any
    }

    /// Accepts no node.
    pub fn none() -> (r: Self)
        ensures
            r is Nothing,
    {
        DataFilter::Nothing
    }

    /// Accepts the nodes whose scalar value is exactly `f`'s string.
    pub fn text(f: TextFilter) -> (r: Self)
        ensures
            r == DataFilter::Text(f),
    {
        DataFilter::Text(f)
    }

    /// Accepts the nodes that carry an identifier.
    pub fn unique() -> (r: Self)
        ensures
            r is Unique,
    {
        DataFilter::Unique
    }

    /// Accepts the nodes whose identifier is `id`.
    pub fn id(id: Id) -> (r: Self)
        ensures
            r == DataFilter::Id(id),
    {
        DataFilter::Id(id)
    }

    /// Accepts the nodes whose identifier is not `id`, or that carry none.
    pub fn not_id(id: Id) -> (r: Self)
        ensures
            r == DataFilter::NotId(id),
    {
        DataFilter::NotId(id)
    }

    /// Accepts the nodes with an outgoing link that `filter` accepts.
    pub fn linked(filter: LinkFilter) -> (r: Self)
        ensures
            r is Linked,
            *r->Linked_0 == filter,
    {
        DataFilter::Linked(Box::new(filter))
    }

    /// Accepts the node `data` by its identifier.
    pub fn eq(data: &Data) -> (r: Self)
        requires
            data.id is Some,
        ensures
            r == DataFilter::Id(data.id->Some_0),
    {
        match data.id {
            Some(id) => DataFilter::Id(id),
            None => DataFilter::Unique,
        }
    }

    /// Accepts every node but `data`, by its identifier.
    pub fn ne(data: &Data) -> (r: Self)
        requires
            data.id is Some,
        ensures
            r == DataFilter::NotId(data.id->Some_0),
    {
        match data.id {
            Some(id) => DataFilter::NotId(id),
            None => DataFilter::Unique,
        }
    }

    /// The conjunction of `self` and `f`; a conjunction is extended rather
    /// than nested.
    pub fn and(self, f: DataFilter) -> (r: Self)
        ensures
            r is And,
            self is And ==> r->And_0@ == self->And_0@.push(f),
            !(self is And) ==> r->And_0@ == seq![self, f],
    {
        match self {
            DataFilter::And(mut a) => {
                a.0.push(f);
                DataFilter::And(a)
            },
            other => DataFilter::And(And(vec![other, f])),
        }
    }

    /// The disjunction of `self` and `f`; a disjunction is extended rather
    /// than nested.
    pub fn or(self, f: DataFilter) -> (r: Self)
        ensures
            r is Or,
            self is Or ==> r->Or_0@ == self->Or_0@.push(f),
            !(self is Or) ==> r->Or_0@ == seq![self, f],
    {
        match self {
            DataFilter::Or(mut o) => {
                o.0.push(f);
                DataFilter::Or(o)
            },
            other => DataFilter::Or(Or(vec![other, f])),
        }
    }
}

impl DataFilter {
    /// Accepts the nodes that `self` rejects.
    pub fn not(self) -> (r: Self)
        ensures
            r is Not,
            r->Not_0.0 == self,
    {
        DataFilter::Not(Box::new(crate::not::Not(self)))
    }
}

impl std::ops::BitAnd for DataFilter {
    type Output = Self;

    fn bitand(self, rhs: Self) -> (r: Self) {
        self.and(rhs)
    }
}

impl std::ops::BitOr for DataFilter {
    type Output = Self;

    fn bitor(self, rhs: Self) -> (r: Self) {
        self.or(rhs)
    }
}

/// `a & b` is `a.and(b)`, whose contract describes the result; no spec
/// value is given here, as the result holds a vector.
impl vstd::std_specs::ops::BitAndSpecImpl for DataFilter {
    open spec fn obeys_bitand_spec() -> bool {
        false
    }

    open spec fn bitand_req(self, rhs: Self) -> bool {
        true
    }

    open spec fn bitand_spec(self, rhs: Self) -> Self {
        self
    }
}

/// `a | b` is `a.or(b)`, whose contract describes the result; no spec
/// value is given here, as the result holds a vector.
impl vstd::std_specs::ops::BitOrSpecImpl for DataFilter {
    open spec fn obeys_bitor_spec() -> bool {
        false
    }

    open spec fn bitor_req(self, rhs: Self) -> bool {
        true
    }

    open spec fn bitor_spec(self, rhs: Self) -> Self {
        self
    }
}

/// Negating a node filter twice accepts exactly the nodes it accepts.
pub proof fn lemma_data_double_negation(f: DataFilter, d: Data)
    ensures
        data_matches(DataFilter::Not(Box::new(crate::not::Not(DataFilter::Not(Box::new(crate::not::Not(f)))))), d)
            == data_matches(f, d),
{
    reveal_with_fuel(data_matches, 3);
}

/// After optimization a constant node filter is `Any` or `Nothing`.
pub proof fn lemma_data_canonical(f: DataFilter, r: DataFilter)
    requires
        f.spec_optimizes_to(&r),
    ensures
        data_canonical(r),
{
}

/// Optimizing a second time leaves `as_bool` as the first optimization
/// left it, and accepts the same nodes.
pub proof fn lemma_data_optimize_stable(f: DataFilter, once: DataFilter, twice: DataFilter)
    requires
        f.spec_optimizes_to(&once),
        once.spec_optimizes_to(&twice),
    ensures
        data_constancy(twice) == data_constancy(once),
        data_equivalent(once, twice),
{
}

} // verus!
