use vstd::prelude::*;

use crate::and::And;
use crate::data::{
    all_step, any_step, data_constancy, data_fold_constancy, data_folds_to, data_matches,
    lemma_data_constancy_sound, negated, DataFilter,
};
use crate::filter::{FalsyDefault, Filter, Optimizable, TruthyDefault};
use crate::or::Or;
use crate::subject::Link;

verus! {

/// A filter over links.
#[derive(Debug)]
pub enum LinkFilter {
    Any,
    Key(DataFilter),
    Target(DataFilter),
    Or(Or<LinkFilter>),
    And(And<LinkFilter>),
    Not(Box<crate::not::Not<LinkFilter>>),
    Nothing,
}

/// Whether `f` accepts the link `l`.
pub open spec fn link_matches(f: LinkFilter, l: Link) -> bool
    decreases f,
{
    match f {
        LinkFilter::Any => true,
        LinkFilter::Nothing => false,
        LinkFilter::Key(g) => l.key is Some && data_matches(g, l.key->Some_0),
        LinkFilter::Target(g) => data_matches(g, l.target),
        LinkFilter::And(a) => forall|i: int| #![trigger a.0@[i]] 0 <= i < a.0@.len() ==> link_matches(a.0@[i], l),
        LinkFilter::Or(o) => exists|i: int| #![trigger o.0@[i]] 0 <= i < o.0@.len() && link_matches(o.0@[i], l),
        LinkFilter::Not(n) => !link_matches(n.0, l),
    }
}

/// `Some(b)` when `f` is known to give `b` on every link.
pub open spec fn link_constancy(f: LinkFilter) -> Option<bool>
    decreases f, 0int,
{
    match f {
        LinkFilter::Any => Some(true),
        LinkFilter::Nothing => Some(false),
        LinkFilter::And(a) => link_all_constancy(a.0@, 0),
        LinkFilter::Or(o) => link_any_constancy(o.0@, 0),
        LinkFilter::Not(n) => negated(link_constancy(n.0)),
        LinkFilter::Key(g) => if data_constancy(g) == Some(false) {
            Some(false)
        } else {
            None
        },
        LinkFilter::Target(g) => data_constancy(g),
    }
}

/// The constancy of the conjunction of `s` from index `i` on, by a scan that
/// stops at the first child that is unknown or constantly false.
pub open spec fn link_all_constancy(s: Seq<LinkFilter>, i: int) -> Option<bool>
    decreases s, s.len() - i,
{
    if 0 <= i < s.len() {
        match link_constancy(s[i]) {
            Some(true) => link_all_constancy(s, i + 1),
            c => c,
        }
    } else {
        Some(true)
    }
}

/// The constancy of the disjunction of `s` from index `i` on, by a scan that
/// stops at the first child that is unknown or constantly true.
pub open spec fn link_any_constancy(s: Seq<LinkFilter>, i: int) -> Option<bool>
    decreases s, s.len() - i,
{
    if 0 <= i < s.len() {
        match link_constancy(s[i]) {
            Some(false) => link_any_constancy(s, i + 1),
            c => c,
        }
    } else {
        Some(false)
    }
}

/// Every filter of `s` before index `k` accepts `l`.
pub open spec fn all_link_upto(s: Seq<LinkFilter>, k: int, l: Link) -> bool {
    forall|j: int| #![trigger s[j]] 0 <= j < k ==> link_matches(s[j], l)
}

/// Some filter of `s` before index `k` accepts `l`.
pub open spec fn any_link_upto(s: Seq<LinkFilter>, k: int, l: Link) -> bool {
    exists|j: int| #![trigger s[j]] 0 <= j < k && link_matches(s[j], l)
}

/// `f` and `g` accept the same links.
pub open spec fn link_equivalent(f: LinkFilter, g: LinkFilter) -> bool {
    forall|l: Link| #[trigger] link_matches(f, l) == link_matches(g, l)
}

/// A constant filter is one of the two canonical values.
pub open spec fn link_canonical(f: LinkFilter) -> bool {
    &&& link_constancy(f) == Some(true) ==> f is Any
    &&& link_constancy(f) == Some(false) ==> f is Nothing
}

/// The constancy that `f` has once optimized, its children folded
/// bottom-up.
pub open spec fn link_fold_constancy(f: LinkFilter) -> Option<bool>
    decreases f, 0int,
{
    match f {
        LinkFilter::Any => Some(true),
        LinkFilter::Nothing => Some(false),
        LinkFilter::And(a) => link_fold_all(a.0@, a.0@.len() as int),
        LinkFilter::Or(o) => link_fold_any(o.0@, o.0@.len() as int),
        LinkFilter::Not(n) => negated(link_fold_constancy(n.0)),
        LinkFilter::Key(g) => if data_fold_constancy(g) == Some(false) {
            Some(false)
        } else {
            None
        },
        LinkFilter::Target(g) => data_fold_constancy(g),
    }
}

/// The folded constancy of the conjunction of the first `n` filters of `s`.
pub open spec fn link_fold_all(s: Seq<LinkFilter>, n: int) -> Option<bool>
    decreases s, n,
{
    if 0 < n <= s.len() {
        all_step(link_fold_all(s, n - 1), link_fold_constancy(s[n - 1]))
    } else {
        Some(true)
    }
}

/// The folded constancy of the disjunction of the first `n` filters of `s`.
pub open spec fn link_fold_any(s: Seq<LinkFilter>, n: int) -> Option<bool>
    decreases s, n,
{
    if 0 < n <= s.len() {
        any_step(link_fold_any(s, n - 1), link_fold_constancy(s[n - 1]))
    } else {
        Some(false)
    }
}

/// `r` is what optimizing `f` leaves: a filter that folds to a constant
/// becomes `Any` or `Nothing`; otherwise a conjunction or disjunction keeps,
/// in order, the folded forms of its children that are not constant, a
/// negation keeps the folded form of its child, a key or target filter
/// keeps the folded form of its node filter, and any other filter stays
/// as it is.
pub open spec fn link_folds_to(f: LinkFilter, r: LinkFilter) -> bool
    decreases f, 0int,
{
    match link_fold_constancy(f) {
        Some(true) => r is Any,
        Some(false) => r is Nothing,
        None => match f {
            LinkFilter::And(a) => r is And && link_kept(a.0@, a.0@.len() as int, r->And_0.0@),
            LinkFilter::Or(o) => r is Or && link_kept(o.0@, o.0@.len() as int, r->Or_0.0@),
            LinkFilter::Not(n) => r is Not && link_folds_to(n.0, r->Not_0.0),
            LinkFilter::Key(g) => r is Key && data_folds_to(g, r->Key_0),
            LinkFilter::Target(g) => r is Target && data_folds_to(g, r->Target_0),
            _ => r == f,
        },
    }
}

/// `k` holds, in order, the folded forms of those of the first `n` filters
/// of `s` that do not fold to a constant.
pub open spec fn link_kept(s: Seq<LinkFilter>, n: int, k: Seq<LinkFilter>) -> bool
    decreases s, n,
{
    if 0 < n <= s.len() {
        if link_fold_constancy(s[n - 1]) is None {
            k.len() > 0 && link_folds_to(s[n - 1], k.last()) && link_kept(s, n - 1, k.drop_last())
        } else {
            link_kept(s, n - 1, k)
        }
    } else {
        k.len() == 0
    }
}

proof fn lemma_link_fold_all_stays_false(s: Seq<LinkFilter>, n: int, m: int)
    requires
        0 <= n <= m <= s.len(),
        link_fold_all(s, n) == Some(false),
    ensures
        link_fold_all(s, m) == Some(false),
    decreases m - n,
{
    if n < m {
        lemma_link_fold_all_stays_false(s, n, m - 1);
    }
}

proof fn lemma_link_fold_any_stays_true(s: Seq<LinkFilter>, n: int, m: int)
    requires
        0 <= n <= m <= s.len(),
        link_fold_any(s, n) == Some(true),
    ensures
        link_fold_any(s, m) == Some(true),
    decreases m - n,
{
    if n < m {
        lemma_link_fold_any_stays_true(s, n, m - 1);
    }
}

proof fn lemma_link_fold_unknown(s: Seq<LinkFilter>, n: int)
    requires
        0 < n <= s.len(),
        forall|j: int| 0 <= j < s.len() ==> link_fold_constancy(#[trigger] s[j]) is None,
    ensures
        link_fold_all(s, n) is None,
        link_fold_any(s, n) is None,
    decreases n,
{
    assert(link_fold_constancy(s[n - 1]) is None);
    if n > 1 {
        lemma_link_fold_unknown(s, n - 1);
    }
}

/// A constant reported for a filter is its result on every link.
pub proof fn lemma_link_constancy_sound(f: LinkFilter, l: Link)
    requires
        link_constancy(f) is Some,
    ensures
        link_matches(f, l) == link_constancy(f)->Some_0,
    decreases f, 0int,
{
    match f {
        LinkFilter::And(a) => lemma_link_all_constancy_sound(a.0@, 0, l),
        LinkFilter::Or(o) => lemma_link_any_constancy_sound(o.0@, 0, l),
        LinkFilter::Not(n) => lemma_link_constancy_sound(n.0, l),
        LinkFilter::Key(g) => if l.key is Some {
            lemma_data_constancy_sound(g, l.key->Some_0);
        },
        LinkFilter::Target(g) => lemma_data_constancy_sound(g, l.target),
        _ => {},
    }
}

proof fn lemma_link_all_constancy_sound(s: Seq<LinkFilter>, i: int, l: Link)
    requires
        0 <= i <= s.len(),
        link_all_constancy(s, i) is Some,
    ensures
        (forall|j: int| #![trigger s[j]] i <= j < s.len() ==> link_matches(s[j], l))
            == link_all_constancy(s, i)->Some_0,
    decreases s, s.len() - i,
{
    if i < s.len() {
        lemma_link_constancy_sound(s[i], l);
        if link_constancy(s[i]) == Some(true) {
            lemma_link_all_constancy_sound(s, i + 1, l);
        }
    }
}

proof fn lemma_link_any_constancy_sound(s: Seq<LinkFilter>, i: int, l: Link)
    requires
        0 <= i <= s.len(),
        link_any_constancy(s, i) is Some,
    ensures
        (exists|j: int| #![trigger s[j]] i <= j < s.len() && link_matches(s[j], l))
            == link_any_constancy(s, i)->Some_0,
    decreases s, s.len() - i,
{
    if i < s.len() {
        lemma_link_constancy_sound(s[i], l);
        if link_constancy(s[i]) == Some(false) {
            lemma_link_any_constancy_sound(s, i + 1, l);
            if exists|j: int| #![trigger s[j]] i <= j < s.len() && link_matches(s[j], l) {
                let j = choose|j: int| #![trigger s[j]] i <= j < s.len() && link_matches(s[j], l);
                assert(j != i);
            }
        }
    }
}

impl LinkFilter {
    #[verifier::loop_isolation(false)]
    pub fn matches_link(&self, l: &Link) -> (r: bool)
        ensures
            r == link_matches(*self, *l),
        decreases self,
    {
        match self {
            LinkFilter::Any => true,
            LinkFilter::Nothing => false,
            LinkFilter::Key(g) => match &l.key {
                Some(k) => g.matches_data(k),
                None => false,
            },
            LinkFilter::Target(g) => g.matches_data(&l.target),
            LinkFilter::And(a) => {
                let mut i: usize = 0;
                while i < a.0.len()
                    invariant
                        0 <= i <= a.0@.len(),
                        forall|j: int| 0 <= j < i ==> link_matches(#[trigger] a.0@[j], *l),
                    decreases a.0@.len() - i,
                {
                    proof {
                        assert(decreases_to!(a.0 => a.0[i as int]));
                    }
                    if !a.0[i].matches_link(l) {
                        assert(!link_matches(a.0@[i as int], *l));
                        return false;
                    }
                    i += 1;
                }
                true
            },
            LinkFilter::Or(o) => {
                let mut i: usize = 0;
                while i < o.0.len()
                    invariant
                        0 <= i <= o.0@.len(),
                        forall|j: int| 0 <= j < i ==> !link_matches(#[trigger] o.0@[j], *l),
                    decreases o.0@.len() - i,
                {
                    proof {
                        assert(decreases_to!(o.0 => o.0[i as int]));
                    }
                    if o.0[i].matches_link(l) {
                        assert(link_matches(o.0@[i as int], *l));
                        return true;
                    }
                    i += 1;
                }
                false
            },
            LinkFilter::Not(n) => !n.0.matches_link(l),
        }
    }
}

impl LinkFilter {
    #[verifier::loop_isolation(false)]
    fn constancy(&self) -> (r: Option<bool>)
        ensures
            r == link_constancy(*self),
        decreases self,
    {
        match self {
            LinkFilter::Any => Some(true),
            LinkFilter::Nothing => Some(false),
            LinkFilter::And(a) => {
                let mut i: usize = 0;
                while i < a.0.len()
                    invariant
                        0 <= i <= a.0@.len(),
                        link_constancy(*self) == link_all_constancy(a.0@, i as int),
                    decreases a.0@.len() - i,
                {
                    proof {
                        assert(decreases_to!(a.0 => a.0[i as int]));
                    }
                    match a.0[i].constancy() {
                        Some(true) => {},
                        c => return c,
                    }
                    i += 1;
                }
                Some(true)
            },
            LinkFilter::Or(o) => {
                let mut i: usize = 0;
                while i < o.0.len()
                    invariant
                        0 <= i <= o.0@.len(),
                        link_constancy(*self) == link_any_constancy(o.0@, i as int),
                    decreases o.0@.len() - i,
                {
                    proof {
                        assert(decreases_to!(o.0 => o.0[i as int]));
                    }
                    match o.0[i].constancy() {
                        Some(false) => {},
                        c => return c,
                    }
                    i += 1;
                }
                Some(false)
            },
            LinkFilter::Not(n) => match n.0.constancy() {
                Some(b) => Some(!b),
                None => None,
            },
            LinkFilter::Key(g) => match g.as_bool() {
                Some(false) => Some(false),
                _ => None,
            },
            LinkFilter::Target(g) => g.as_bool(),
        }
    }

    // The children of a nested conjunction or disjunction are handled here
    // rather than through `And::optimize` and `Or::optimize`: Verus refuses
    // recursion that runs through a generic impl instantiated with this type.
    /// The optimized form of `self`, built bottom-up. A conjunction visits
    /// its children in order, optimizing each: it stops at the first that is
    /// constantly false, leaving the remaining ones unvisited, and drops
    /// those that are constantly true; a disjunction does the same with true
    /// and false swapped. Whatever turns out constant becomes `Any` or
    /// `Nothing`.
    #[verifier::loop_isolation(false)]
    fn optimized(self) -> (r: LinkFilter)
        ensures
            link_equivalent(self, r),
            link_folds_to(self, r),
            link_constancy(r) == link_fold_constancy(self),
            link_fold_constancy(r) == link_constancy(r),
        decreases self,
    {
        let ghost before = self;
        match self {
            LinkFilter::And(a) => {
                let ghost orig = a.0;
                let mut rest = a.0;
                let mut kept: Vec<LinkFilter> = Vec::new();
                let mut short_circuit = false;
                let ghost mut k: int = 0;
                while rest.len() > 0 && !short_circuit
                    invariant
                        0 <= k <= orig@.len(),
                        rest@ == orig@.skip(k),
                        forall|j: int| 0 <= j < kept@.len() ==> link_constancy(#[trigger] kept@[j]) is None,
                        forall|j: int| 0 <= j < kept@.len() ==> link_fold_constancy(#[trigger] kept@[j]) is None,
                        !short_circuit ==> link_fold_all(orig@, k) == (if kept@.len() == 0 {
                            Some(true)
                        } else {
                            None
                        }),
                        short_circuit ==> link_fold_all(orig@, k) == Some(false),
                        !short_circuit ==> link_kept(orig@, k, kept@),
                        !short_circuit ==> forall|l: Link| #[trigger] all_link_upto(orig@, k, l)
                            == all_link_upto(kept@, kept@.len() as int, l),
                        short_circuit ==> forall|l: Link| !#[trigger] all_link_upto(orig@, k, l),
                    decreases rest@.len(),
                {
                    let f = rest.remove(0);
                    proof {
                        assert(f == orig@[k]);
                        assert(decreases_to!(orig => orig[k]));
                        assert(rest@ =~= orig@.skip(k + 1));
                    }
                    let g = f.optimized();
                    let c = g.constancy();
                    match c {
                        Some(false) => {
                            proof {
                                assert forall|l: Link| !#[trigger] all_link_upto(orig@, k + 1, l) by {
                                    lemma_link_constancy_sound(g, l);
                                    assert(link_matches(f, l) == link_matches(g, l));
                                }
                            }
                            short_circuit = true;
                        },
                        Some(true) => {
                            proof {
                                assert forall|l: Link| #[trigger] all_link_upto(orig@, k + 1, l)
                                    == all_link_upto(kept@, kept@.len() as int, l) by {
                                    lemma_link_constancy_sound(g, l);
                                    assert(link_matches(f, l) == link_matches(g, l));
                                    assert(all_link_upto(orig@, k, l) == all_link_upto(kept@, kept@.len() as int, l));
                                }
                            }
                        },
                        None => {
                            let ghost old_kept = kept@;
                            kept.push(g);
                            proof {
                                assert(kept@.drop_last() =~= old_kept);
                                assert forall|l: Link| #[trigger] all_link_upto(orig@, k + 1, l)
                                    == all_link_upto(kept@, kept@.len() as int, l) by {
                                    assert(link_matches(f, l) == link_matches(g, l));
                                    assert(all_link_upto(orig@, k, l) == all_link_upto(old_kept, old_kept.len() as int, l));
                                    assert(kept@[old_kept.len() as int] == g);
                                    if all_link_upto(old_kept, old_kept.len() as int, l) && link_matches(g, l) {
                                        assert forall|j: int| 0 <= j < kept@.len() implies link_matches(#[trigger] kept@[j], l) by {
                                            if j < old_kept.len() {
                                                assert(kept@[j] == old_kept[j]);
                                            }
                                        }
                                    }
                                    if all_link_upto(kept@, kept@.len() as int, l) {
                                        assert forall|j: int| 0 <= j < old_kept.len() implies link_matches(#[trigger] old_kept[j], l) by {
                                            assert(kept@[j] == old_kept[j]);
                                        }
                                    }
                                }
                            }
                        },
                    }
                    proof {
                        k = k + 1;
                    }
                }
                if short_circuit {
                    proof {
                        lemma_link_fold_all_stays_false(orig@, k, orig@.len() as int);
                        assert forall|l: Link| #[trigger] link_matches(before, l) == link_matches(LinkFilter::Nothing, l) by {
                            assert(!all_link_upto(orig@, k, l));
                        }
                    }
                    LinkFilter::Nothing
                } else if kept.len() == 0 {
                    proof {
                        assert forall|l: Link| #[trigger] link_matches(before, l) == link_matches(LinkFilter::Any, l) by {
                            assert(all_link_upto(orig@, k, l));
                        }
                    }
                    LinkFilter::Any
                } else {
                    let r = LinkFilter::And(And(kept));
                    proof {
                        assert(link_constancy(kept@[0]) is None);
                        assert(link_all_constancy(kept@, 0) is None);
                        lemma_link_fold_unknown(kept@, kept@.len() as int);
                        assert(link_constancy(r) is None);
                        assert(k == orig@.len());
                        assert forall|l: Link| #[trigger] link_matches(before, l) == link_matches(r, l) by {
                            assert(all_link_upto(orig@, k, l) == all_link_upto(kept@, kept@.len() as int, l));
                            if link_matches(before, l) {
                                assert forall|j: int| 0 <= j < k implies link_matches(#[trigger] orig@[j], l) by {
                                    assert(link_matches(before->And_0.0@[j], l));
                                }
                            }
                            if all_link_upto(orig@, k, l) {
                                assert forall|j: int| 0 <= j < before->And_0.0@.len() implies link_matches(
                                    #[trigger] before->And_0.0@[j], l) by {
                                    assert(link_matches(orig@[j], l));
                                }
                            }
                        }
                    }
                    r
                }
            },
            LinkFilter::Or(o) => {
                let ghost orig = o.0;
                let mut rest = o.0;
                let mut kept: Vec<LinkFilter> = Vec::new();
                let mut short_circuit = false;
                let ghost mut k: int = 0;
                while rest.len() > 0 && !short_circuit
                    invariant
                        0 <= k <= orig@.len(),
                        rest@ == orig@.skip(k),
                        forall|j: int| 0 <= j < kept@.len() ==> link_constancy(#[trigger] kept@[j]) is None,
                        forall|j: int| 0 <= j < kept@.len() ==> link_fold_constancy(#[trigger] kept@[j]) is None,
                        !short_circuit ==> link_fold_any(orig@, k) == (if kept@.len() == 0 {
                            Some(false)
                        } else {
                            None
                        }),
                        short_circuit ==> link_fold_any(orig@, k) == Some(true),
                        !short_circuit ==> link_kept(orig@, k, kept@),
                        !short_circuit ==> forall|l: Link| #[trigger] any_link_upto(orig@, k, l)
                            == any_link_upto(kept@, kept@.len() as int, l),
                        short_circuit ==> forall|l: Link| #[trigger] any_link_upto(orig@, k, l),
                    decreases rest@.len(),
                {
                    let f = rest.remove(0);
                    proof {
                        assert(f == orig@[k]);
                        assert(decreases_to!(orig => orig[k]));
                        assert(rest@ =~= orig@.skip(k + 1));
                    }
                    let g = f.optimized();
                    let c = g.constancy();
                    match c {
                        Some(true) => {
                            proof {
                                assert forall|l: Link| #[trigger] any_link_upto(orig@, k + 1, l) by {
                                    lemma_link_constancy_sound(g, l);
                                    assert(link_matches(f, l) == link_matches(g, l));
                                    assert(link_matches(orig@[k], l));
                                }
                            }
                            short_circuit = true;
                        },
                        Some(false) => {
                            proof {
                                assert forall|l: Link| #[trigger] any_link_upto(orig@, k + 1, l)
                                    == any_link_upto(kept@, kept@.len() as int, l) by {
                                    lemma_link_constancy_sound(g, l);
                                    assert(link_matches(f, l) == link_matches(g, l));
                                    assert(any_link_upto(orig@, k, l) == any_link_upto(kept@, kept@.len() as int, l));
                                    if any_link_upto(orig@, k + 1, l) {
                                        let j = choose|j: int| #![trigger orig@[j]] 0 <= j < k + 1 && link_matches(orig@[j], l);
                                        assert(j != k);
                                    }
                                }
                            }
                        },
                        None => {
                            let ghost old_kept = kept@;
                            kept.push(g);
                            proof {
                                assert(kept@.drop_last() =~= old_kept);
                                assert forall|l: Link| #[trigger] any_link_upto(orig@, k + 1, l)
                                    == any_link_upto(kept@, kept@.len() as int, l) by {
                                    assert(link_matches(f, l) == link_matches(g, l));
                                    assert(any_link_upto(orig@, k, l) == any_link_upto(old_kept, old_kept.len() as int, l));
                                    assert(kept@[old_kept.len() as int] == g);
                                    if any_link_upto(orig@, k + 1, l) {
                                        let j = choose|j: int| #![trigger orig@[j]] 0 <= j < k + 1 && link_matches(orig@[j], l);
                                        if j == k {
                                            assert(link_matches(kept@[old_kept.len() as int], l));
                                        } else {
                                            assert(any_link_upto(orig@, k, l));
                                            let i = choose|i: int| #![trigger old_kept[i]] 0 <= i < old_kept.len() && link_matches(old_kept[i], l);
                                            assert(kept@[i] == old_kept[i]);
                                        }
                                    }
                                    if any_link_upto(kept@, kept@.len() as int, l) {
                                        let i = choose|i: int| #![trigger kept@[i]] 0 <= i < kept@.len() && link_matches(kept@[i], l);
                                        if i < old_kept.len() {
                                            assert(kept@[i] == old_kept[i]);
                                            assert(any_link_upto(old_kept, old_kept.len() as int, l));
                                        } else {
                                            assert(link_matches(orig@[k], l));
                                        }
                                    }
                                }
                            }
                        },
                    }
                    proof {
                        k = k + 1;
                    }
                }
                if short_circuit {
                    proof {
                        lemma_link_fold_any_stays_true(orig@, k, orig@.len() as int);
                        assert forall|l: Link| #[trigger] link_matches(before, l) == link_matches(LinkFilter::Any, l) by {
                            assert(any_link_upto(orig@, k, l));
                            let j = choose|j: int| #![trigger orig@[j]] 0 <= j < k && link_matches(orig@[j], l);
                            assert(link_matches(o.0@[j], l));
                        }
                    }
                    LinkFilter::Any
                } else if kept.len() == 0 {
                    proof {
                        assert forall|l: Link| #[trigger] link_matches(before, l) == link_matches(LinkFilter::Nothing, l) by {
                            assert(!any_link_upto(orig@, k, l));
                        }
                    }
                    LinkFilter::Nothing
                } else {
                    let r = LinkFilter::Or(Or(kept));
                    proof {
                        assert(link_constancy(kept@[0]) is None);
                        assert(link_any_constancy(kept@, 0) is None);
                        lemma_link_fold_unknown(kept@, kept@.len() as int);
                        assert(link_constancy(r) is None);
                        assert(k == orig@.len());
                        assert forall|l: Link| #[trigger] link_matches(before, l) == link_matches(r, l) by {
                            assert(any_link_upto(orig@, k, l) == any_link_upto(kept@, kept@.len() as int, l));
                            if link_matches(before, l) {
                                let j = choose|j: int| #![trigger before->Or_0.0@[j]] 0 <= j < before->Or_0.0@.len()
                                    && link_matches(before->Or_0.0@[j], l);
                                assert(link_matches(orig@[j], l));
                                assert(any_link_upto(orig@, k, l));
                            }
                            if any_link_upto(orig@, k, l) {
                                let j = choose|j: int| #![trigger orig@[j]] 0 <= j < k && link_matches(orig@[j], l);
                                assert(link_matches(before->Or_0.0@[j], l));
                            }
                            if link_matches(r, l) {
                                assert(any_link_upto(kept@, kept@.len() as int, l));
                            }
                        }
                    }
                    r
                }
            },
            LinkFilter::Not(n) => {
                let crate::not::Not(inner) = *n;
                let g = inner.optimized();
                match g.constancy() {
                    Some(false) => {
                        proof {
                            assert forall|l: Link| #[trigger] link_matches(before, l) == link_matches(LinkFilter::Any, l) by {
                                lemma_link_constancy_sound(g, l);
                                assert(link_matches(inner, l) == link_matches(g, l));
                            }
                        }
                        LinkFilter::Any
                    },
                    Some(true) => {
                        proof {
                            assert forall|l: Link| #[trigger] link_matches(before, l) == link_matches(LinkFilter::Nothing, l) by {
                                lemma_link_constancy_sound(g, l);
                                assert(link_matches(inner, l) == link_matches(g, l));
                            }
                        }
                        LinkFilter::Nothing
                    },
                    None => {
                        let r = LinkFilter::Not(Box::new(crate::not::Not(g)));
                        proof {
                            assert forall|l: Link| #[trigger] link_matches(before, l) == link_matches(r, l) by {
                                assert(link_matches(inner, l) == link_matches(g, l));
                            }
                        }
                        r
                    },
                }
            },
            LinkFilter::Key(g) => {
                let g2 = g.optimized();
                match g2.as_bool() {
                    Some(false) => {
                        proof {
                            assert forall|l: Link| #[trigger] link_matches(before, l) == link_matches(LinkFilter::Nothing, l) by {
                                if l.key is Some {
                                    lemma_data_constancy_sound(g2, l.key->Some_0);
                                    assert(data_matches(g, l.key->Some_0) == data_matches(g2, l.key->Some_0));
                                }
                            }
                        }
                        LinkFilter::Nothing
                    },
                    _ => {
                        let r = LinkFilter::Key(g2);
                        proof {
                            assert forall|l: Link| #[trigger] link_matches(before, l) == link_matches(r, l) by {
                                if l.key is Some {
                                    assert(data_matches(g, l.key->Some_0) == data_matches(g2, l.key->Some_0));
                                }
                            }
                        }
                        r
                    },
                }
            },
            LinkFilter::Target(g) => {
                let g2 = g.optimized();
                match g2.as_bool() {
                    Some(true) => {
                        proof {
                            assert forall|l: Link| #[trigger] link_matches(before, l) == link_matches(LinkFilter::Any, l) by {
                                lemma_data_constancy_sound(g2, l.target);
                                assert(data_matches(g, l.target) == data_matches(g2, l.target));
                            }
                        }
                        LinkFilter::Any
                    },
                    Some(false) => {
                        proof {
                            assert forall|l: Link| #[trigger] link_matches(before, l) == link_matches(LinkFilter::Nothing, l) by {
                                lemma_data_constancy_sound(g2, l.target);
                                assert(data_matches(g, l.target) == data_matches(g2, l.target));
                            }
                        }
                        LinkFilter::Nothing
                    },
                    None => {
                        let r = LinkFilter::Target(g2);
                        proof {
                            assert forall|l: Link| #[trigger] link_matches(before, l) == link_matches(r, l) by {
                                assert(data_matches(g, l.target) == data_matches(g2, l.target));
                            }
                        }
                        r
                    },
                }
            },
            other => other,
        }
    }
}


impl Optimizable for LinkFilter {
    open spec fn spec_as_bool(&self) -> Option<bool> {
        link_constancy(*self)
    }

    /// Optimizing folds the filter as `link_folds_to` describes, keeping
    /// the links accepted; the result reports the folded constancy, which a
    /// second fold leaves as it is.
    open spec fn spec_optimizes_to(&self, opt: &Self) -> bool {
        &&& link_folds_to(*self, *opt)
        &&& link_equivalent(*self, *opt)
        &&& link_constancy(*opt) == link_fold_constancy(*self)
        &&& link_fold_constancy(*opt) == link_constancy(*opt)
    }

    proof fn lemma_optimize_stable(&self, once: &Self, twice: &Self) {
        lemma_link_optimize_stable(*self, *once, *twice);
    }

    fn as_bool(&self) -> (r: Option<bool>) {
        self.constancy()
    }

    fn optimize(&mut self) {
        let mut taken = LinkFilter::Any;
        std::mem::swap(self, &mut taken);
        *self = taken.optimized();
    }
}

impl Filter<Link> for LinkFilter {
    open spec fn spec_matches(&self, obj: &Link) -> bool {
        link_matches(*self, *obj)
    }

    fn matches(&self, obj: &Link) -> (r: bool) {
        self.matches_link(obj)
    }

    proof fn lemma_constant_sound(&self, obj: &Link) {
        lemma_link_constancy_sound(*self, *obj);
    }

    proof fn lemma_optimize_sound(&self, opt: &Self, obj: &Link) {
        assert(link_matches(*self, *obj) == link_matches(*opt, *obj));
    }
}

impl Default for LinkFilter {
    /// The default filter accepts every link.
    fn default() -> (r: Self)
        ensures
            r is Any,
    {
        LinkFilter::Any
    }
}

impl TruthyDefault for LinkFilter {
    open spec fn spec_is_truthy(&self) -> bool {
        *self is Any
    }

    proof fn lemma_truthy_constant(&self) {
    }

    proof fn lemma_truthy_optimizes(&self, opt: &Self) {
    }

    fn truthy_default() -> (r: Self) {
        LinkFilter::Any
    }
}

impl FalsyDefault for LinkFilter {
    open spec fn spec_is_falsy(&self) -> bool {
        *self is Nothing
    }

    proof fn lemma_falsy_constant(&self) {
    }

    proof fn lemma_falsy_optimizes(&self, opt: &Self) {
    }

    fn falsy_default() -> (r: Self) {
        LinkFilter::Nothing
    }
}

impl LinkFilter {
    /// Accepts every link.
    pub fn any() -> (r: Self)
        ensures
            r is Any,
    {
        LinkFilter::Any
    }

    /// Accepts no link.
    pub fn none() -> (r: Self)
        ensures
            r is Nothing,
    {
        LinkFilter::Nothing
    }

    /// Accepts the links that have a key that `f` accepts.
    pub fn key(f: DataFilter) -> (r: Self)
        ensures
            r == LinkFilter::Key(f),
    {
        LinkFilter::Key(f)
    }

    /// Accepts the links whose target `f` accepts.
    pub fn target(f: DataFilter) -> (r: Self)
        ensures
            r == LinkFilter::Target(f),
    {
        LinkFilter::Target(f)
    }

    /// The conjunction of `self` and `f`; a conjunction is extended rather
    /// than nested.
    pub fn and(self, f: LinkFilter) -> (r: Self)
        ensures
            r is And,
            self is And ==> r->And_0@ == self->And_0@.push(f),
            !(self is And) ==> r->And_0@ == seq![self, f],
    {
        match self {
            LinkFilter::And(mut a) => {
                a.0.push(f);
                LinkFilter::And(a)
            },
            other => LinkFilter::And(And(vec![other, f])),
        }
    }

    /// The disjunction of `self` and `f`; a disjunction is extended rather
    /// than nested.
    pub fn or(self, f: LinkFilter) -> (r: Self)
        ensures
            r is Or,
            self is Or ==> r->Or_0@ == self->Or_0@.push(f),
            !(self is Or) ==> r->Or_0@ == seq![self, f],
    {
        match self {
            LinkFilter::Or(mut o) => {
                o.0.push(f);
                LinkFilter::Or(o)
            },
            other => LinkFilter::Or(Or(vec![other, f])),
        }
    }
}

impl LinkFilter {
    /// Accepts the links that `self` rejects.
    pub fn not(self) -> (r: Self)
        ensures
            r is Not,
            r->Not_0.0 == self,
    {
        LinkFilter::Not(Box::new(crate::not::Not(self)))
    }
}

impl std::ops::BitAnd for LinkFilter {
    type Output = Self;

    fn bitand(self, rhs: Self) -> (r: Self) {
        self.and(rhs)
    }
}

impl std::ops::BitOr for LinkFilter {
    type Output = Self;

    fn bitor(self, rhs: Self) -> (r: Self) {
        self.or(rhs)
    }
}

/// `a & b` is `a.and(b)`, whose contract describes the result; no spec
/// value is given here, as the result holds a vector.
impl vstd::std_specs::ops::BitAndSpecImpl for LinkFilter {
    open spec fn obeys_bitand_spec() -> bool {
        false
    }

    open spec fn bitand_req(self, rhs: Self) -> bool {
        true
    }

    open spec fn bitand_spec(self, rhs: Self) -> Self {
        self
    }
}

/// `a | b` is `a.or(b)`, whose contract describes the result; no spec
/// value is given here, as the result holds a vector.
impl vstd::std_specs::ops::BitOrSpecImpl for LinkFilter {
    open spec fn obeys_bitor_spec() -> bool {
        false
    }

    open spec fn bitor_req(self, rhs: Self) -> bool {
        true
    }

    open spec fn bitor_spec(self, rhs: Self) -> Self {
        self
    }
}

/// After optimization a constant link filter is `Any` or `Nothing`.
pub proof fn lemma_link_canonical(f: LinkFilter, r: LinkFilter)
    requires
        f.spec_optimizes_to(&r),
    ensures
        link_canonical(r),
{
}

/// Optimizing a second time leaves `as_bool` as the first optimization
/// left it, and accepts the same links.
pub proof fn lemma_link_optimize_stable(f: LinkFilter, once: LinkFilter, twice: LinkFilter)
    requires
        f.spec_optimizes_to(&once),
        once.spec_optimizes_to(&twice),
    ensures
        link_constancy(twice) == link_constancy(once),
        link_equivalent(once, twice),
{
}

} // verus!
