use filter_algebra::{And, FalsyDefault, Filter, Not, Optimizable, Or, TruthyDefault};

#[derive(Debug, PartialEq)]
enum TestFilter {
    Any,
    Nothing,
    Panic,
}

impl<T> Filter<T> for TestFilter {
    fn spec_matches(&self, _: &T) -> bool {
        matches!(self, TestFilter::Any)
    }

    fn lemma_constant_sound(&self, _: &T) {}

    fn lemma_optimize_sound(&self, _: &Self, _: &T) {}

    fn matches(&self, _: &T) -> bool {
        match self {
            TestFilter::Any => true,
            TestFilter::Nothing => false,
            TestFilter::Panic => panic!(),
        }
    }
}

impl Optimizable for TestFilter {
    fn spec_as_bool(&self) -> Option<bool> {
        self.as_bool()
    }

    fn spec_optimizes_to(&self, opt: &Self) -> bool {
        self == opt
    }

    fn lemma_optimize_stable(&self, _: &Self, _: &Self) {}

    fn as_bool(&self) -> Option<bool> {
        match self {
            TestFilter::Any => Some(true),
            TestFilter::Nothing => Some(false),
            TestFilter::Panic => None,
        }
    }

    fn optimize(&mut self) {
        *self = match self {
            TestFilter::Any => TestFilter::Any,
            TestFilter::Nothing => TestFilter::Nothing,
            TestFilter::Panic => unreachable!(),
        };
    }
}

impl TruthyDefault for TestFilter {
    fn spec_is_truthy(&self) -> bool {
        *self == TestFilter::Any
    }

    fn lemma_truthy_constant(&self) {}

    fn lemma_truthy_optimizes(&self, _: &Self) {}

    fn truthy_default() -> Self {
        TestFilter::Any
    }
}

impl FalsyDefault for TestFilter {
    fn spec_is_falsy(&self) -> bool {
        *self == TestFilter::Nothing
    }

    fn lemma_falsy_constant(&self) {}

    fn lemma_falsy_optimizes(&self, _: &Self) {}

    fn falsy_default() -> Self {
        TestFilter::Nothing
    }
}

impl std::ops::BitAnd for TestFilter {
    type Output = And<Self>;
    fn bitand(self, rhs: Self) -> Self::Output {
        vec![self, rhs].into()
    }
}

impl std::ops::BitOr for TestFilter {
    type Output = Or<Self>;
    fn bitor(self, rhs: Self) -> Self::Output {
        vec![self, rhs].into()
    }
}

#[test]
fn object_safety() {
    fn _f<On>(_d: &dyn Filter<On>) {}
}

#[test]
fn and_mixed() {
    let mut f = TestFilter::truthy_default() & TestFilter::falsy_default();

    assert_eq!(f.as_bool().unwrap(), false);

    f.optimize();
    assert_eq!(f.len(), 1);

    assert_eq!(f.as_bool().unwrap(), false);
}

#[test]
fn and_truthy() {
    let mut f = TestFilter::truthy_default() & TestFilter::truthy_default();

    assert_eq!(f.as_bool().unwrap(), true);

    f.optimize();
    assert_eq!(f.len(), 0);

    assert_eq!(f.as_bool().unwrap(), true);
}

#[test]
fn and_falsy() {
    let mut f = TestFilter::falsy_default() & TestFilter::falsy_default();

    assert_eq!(f.as_bool().unwrap(), false);

    f.optimize();
    assert_eq!(f.len(), 1);

    assert_eq!(f.as_bool().unwrap(), false);
}

#[test]
fn or_mixed() {
    let mut f = TestFilter::truthy_default() | TestFilter::falsy_default();

    assert_eq!(f.as_bool().unwrap(), true);

    f.optimize();
    assert_eq!(f.len(), 1);

    assert_eq!(f.as_bool().unwrap(), true);
}

#[test]
fn or_truthy() {
    let mut f = TestFilter::truthy_default() | TestFilter::falsy_default();

    assert_eq!(f.as_bool().unwrap(), true);

    f.optimize();
    assert_eq!(f.len(), 1);

    assert_eq!(f.as_bool().unwrap(), true);
}

#[test]
fn or_falsy() {
    let mut f = TestFilter::falsy_default() | TestFilter::falsy_default();

    assert_eq!(f.as_bool().unwrap(), false);

    f.optimize();
    assert_eq!(f.len(), 0);

    assert_eq!(f.as_bool().unwrap(), false);
}

#[test]
fn testfilter_truthy() {
    let mut filter = TestFilter::truthy_default();

    assert_eq!(filter, TestFilter::Any);

    assert_eq!(filter.as_bool(), Some(true));

    filter.optimize();

    assert_eq!(filter, TestFilter::Any);
}

#[test]
fn testfilter_falsy() {
    let mut filter = TestFilter::falsy_default();

    assert_eq!(filter, TestFilter::Nothing);

    assert_eq!(filter.as_bool(), Some(false));

    filter.optimize();

    assert_eq!(filter, TestFilter::Nothing);
}

#[test]
fn and_short_circuit_skips_later_children() {
    let mut f = TestFilter::Nothing & TestFilter::Panic;
    assert_eq!(f.matches(&()), false);
    f.optimize();
    assert_eq!(f.len(), 1);
    assert_eq!(f[0], TestFilter::Nothing);
    assert_eq!(f.matches(&()), false);
}

#[test]
fn or_short_circuit_skips_later_children() {
    let mut f = TestFilter::Any | TestFilter::Panic;
    assert_eq!(f.matches(&()), true);
    f.optimize();
    assert_eq!(f.len(), 1);
    assert_eq!(f[0], TestFilter::Any);
}

#[test]
fn bool_and_sequences() {
    let mut f: And<bool> = vec![true, false].into();
    assert_eq!(f.as_bool(), Some(false));
    f.optimize();
    assert_eq!(f.len(), 1);
    assert_eq!(f[0], false);
    assert_eq!(Filter::<u8>::matches(&f, &3), false);

    let mut g: Or<bool> = vec![true, false].into();
    assert_eq!(g.as_bool(), Some(true));
    g.optimize();
    assert_eq!(g.len(), 1);
    assert_eq!(g[0], true);
    assert_eq!(Filter::<u8>::matches(&g, &3), true);
}

#[test]
fn empty_identities() {
    let a: And<bool> = Vec::new().into();
    let o: Or<bool> = Vec::new().into();
    assert!(Filter::<u8>::matches(&a, &0));
    assert!(!Filter::<u8>::matches(&o, &0));
    assert_eq!(a.as_bool(), Some(true));
    assert_eq!(o.as_bool(), Some(false));
}

#[test]
fn double_negation_matches() {
    let f = Not(Not(true));
    assert_eq!(Filter::<u8>::matches(&f, &1), true);
    assert_eq!(f.as_bool(), Some(true));
    let g = Not(Not(false));
    assert_eq!(Filter::<u8>::matches(&g, &1), false);
    let n = Not(true);
    assert_eq!(n.as_bool(), Some(false));
    assert_eq!(Filter::<u8>::matches(&n, &1), false);
}

#[test]
fn boxed_filter_forwards() {
    let mut b: Box<And<bool>> = Box::new(vec![true, false].into());
    assert_eq!(b.as_bool(), Some(false));
    b.optimize();
    assert_eq!(b.len(), 1);
    assert_eq!(Filter::<u8>::matches(&b, &0), false);
    let t: Box<bool> = TruthyDefault::truthy_default();
    assert_eq!(*t, true);
}

#[test]
fn matches_owned_uses_the_value() {
    let f: Or<bool> = vec![false, true].into();
    assert!(f.matches_owned(String::from("x")));
}

#[test]
fn and_second_optimize_keeps_as_bool() {
    let mut f: And<bool> = vec![true, false, true].into();
    f.optimize();
    let once = f.as_bool();
    f.optimize();
    assert_eq!(f.as_bool(), once);
    assert_eq!(f.len(), 1);
    assert_eq!(f[0], false);
}
