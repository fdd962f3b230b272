use vstd::prelude::*;

use crate::filter::{Filter, Optimizable};

verus! {

/// Accepts exactly one string.
#[derive(Debug)]
pub struct TextFilter {
    pub search: String,
}

impl View for TextFilter {
    type V = Seq<char>;

    open spec fn view(&self) -> Seq<char> {
        self.search@
    }
}

impl TextFilter {
    /// If the filter matches exactly one string, return that string.
    pub fn exact(&self) -> (r: Option<&str>)
        ensures
            r is Some,
            r->Some_0@ == self@,
    {
        Some(self.search.as_str())
    }
}

impl Filter<str> for TextFilter {
    open spec fn spec_matches(&self, obj: &str) -> bool {
        self.search@ == obj.view()
    }

    fn matches(&self, obj: &str) -> (r: bool) {
        let candidate: String = obj.to_owned();
        let r = candidate == self.search;
        proof {
            assert(candidate@ == obj@);
            assert(r == (candidate@ == self.search@));
            assert(r == self.spec_matches(obj));
        }
        r
    }

    proof fn lemma_constant_sound(&self, obj: &str) {
    }

    proof fn lemma_optimize_sound(&self, opt: &Self, obj: &str) {
    }
}

impl Optimizable for TextFilter {
    /// Equality with an unknown subject is never constant.
    open spec fn spec_as_bool(&self) -> Option<bool> {
        None
    }

    /// Already as simple as it gets: optimizing leaves it as it is.
    open spec fn spec_optimizes_to(&self, opt: &Self) -> bool {
        opt == self
    }

    proof fn lemma_optimize_stable(&self, once: &Self, twice: &Self) {
    }

    fn as_bool(&self) -> (r: Option<bool>) {
        None
    }

    fn optimize(&mut self) {
    }
}

impl From<String> for TextFilter {
    fn from(value: String) -> (r: Self) {
        TextFilter { search: value }
    }
}

impl vstd::std_specs::convert::FromSpecImpl<String> for TextFilter {
    open spec fn obeys_from_spec() -> bool {
        true
    }

    open spec fn from_spec(v: String) -> Self {
        TextFilter { search: v }
    }
}

impl From<&str> for TextFilter {
    fn from(value: &str) -> (r: Self) {
        TextFilter { search: value.to_owned() }
    }
}

/// No spec value is given for the conversion from `&str`: a spec function
/// cannot build the `String` it holds. `TextFilter::from(String)` is the
/// conversion with a contract.
impl vstd::std_specs::convert::FromSpecImpl<&str> for TextFilter {
    open spec fn obeys_from_spec() -> bool {
        false
    }

    open spec fn from_spec(v: &str) -> Self {
        TextFilter { search: choose|s: String| s@ == v@ }
    }
}

} // verus!
