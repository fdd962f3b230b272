use filter_algebra::{
    And, Data, DataFilter, FalsyDefault, Filter, Id, Link, LinkFilter, Optimizable, TextFilter,
    TruthyDefault,
};

fn node(id: Option<u128>, value: Option<&str>, links: Vec<Link>) -> Data {
    Data {
        id: id.map(Id),
        value: value.map(String::from),
        links,
    }
}

fn unkeyed(target: Data) -> Link {
    Link { key: None, target }
}

#[test]
fn text_filter_exact_value() {
    let f = TextFilter::from(String::from("abc"));
    assert!(f.matches("abc"));
    assert!(!f.matches("abd"));
    assert_eq!(f.exact(), Some("abc"));
    assert_eq!(f.as_bool(), None);
}

#[test]
fn text_filter_on_nodes() {
    let f = DataFilter::text(TextFilter::from(String::from("abc")));
    assert!(f.matches(&node(None, Some("abc"), vec![])));
    assert!(!f.matches(&node(None, Some("abd"), vec![])));
    assert!(!f.matches(&node(None, None, vec![])));
}

#[test]
fn linked_target_identifier() {
    let x = Id(7);
    let f = DataFilter::linked(LinkFilter::target(DataFilter::id(x)));
    let with_link = node(Some(1), None, vec![unkeyed(node(Some(7), None, vec![]))]);
    assert!(f.matches(&with_link));
    let without = node(Some(1), None, vec![]);
    assert!(!f.matches(&without));
    let other = node(Some(1), None, vec![unkeyed(node(Some(8), None, vec![]))]);
    assert!(!f.matches(&other));
}

#[test]
fn linked_key_requires_key() {
    let f = DataFilter::linked(LinkFilter::key(DataFilter::any()));
    let keyless = node(None, None, vec![unkeyed(node(None, None, vec![]))]);
    assert!(!f.matches(&keyless));
    let keyed = node(
        None,
        None,
        vec![Link {
            key: Some(node(None, Some("k"), vec![])),
            target: node(None, None, vec![]),
        }],
    );
    assert!(f.matches(&keyed));
    assert_eq!(LinkFilter::key(DataFilter::any()).as_bool(), None);
    assert_eq!(LinkFilter::key(DataFilter::none()).as_bool(), Some(false));
}

#[test]
fn identifier_filters() {
    let with_id = node(Some(5), None, vec![]);
    let without_id = node(None, None, vec![]);
    assert!(DataFilter::unique().matches(&with_id));
    assert!(!DataFilter::unique().matches(&without_id));
    assert!(DataFilter::id(Id(5)).matches(&with_id));
    assert!(!DataFilter::id(Id(6)).matches(&with_id));
    assert!(!DataFilter::not_id(Id(5)).matches(&with_id));
    assert!(DataFilter::not_id(Id(5)).matches(&without_id));
    assert!(DataFilter::eq(&with_id).matches(&with_id));
    assert!(!DataFilter::ne(&with_id).matches(&with_id));
}

#[test]
fn builders_flatten() {
    let f = DataFilter::unique().and(DataFilter::any()).and(DataFilter::none());
    match &f {
        DataFilter::And(a) => assert_eq!(a.len(), 3),
        _ => panic!("expected a conjunction"),
    }
    let g = DataFilter::unique() | DataFilter::any() | DataFilter::none();
    match &g {
        DataFilter::Or(o) => assert_eq!(o.len(), 3),
        _ => panic!("expected a disjunction"),
    }
    let h = LinkFilter::any() & LinkFilter::none() & LinkFilter::any();
    match &h {
        LinkFilter::And(a) => assert_eq!(a.len(), 3),
        _ => panic!("expected a conjunction"),
    }
}

#[test]
fn data_optimize_collapses_constants() {
    let mut f = DataFilter::unique().and(DataFilter::none());
    assert_eq!(f.as_bool(), None);
    f.optimize();
    assert!(matches!(f, DataFilter::Nothing));

    let mut g = DataFilter::any().and(DataFilter::any());
    assert_eq!(g.as_bool(), Some(true));
    g.optimize();
    assert!(matches!(g, DataFilter::Any));

    let mut h = DataFilter::none().or(DataFilter::unique());
    h.optimize();
    match &h {
        DataFilter::Or(o) => assert_eq!(o.len(), 1),
        _ => panic!("expected a disjunction"),
    }
    let subject = node(Some(1), None, vec![]);
    assert!(h.matches(&subject));
    h.optimize();
    assert!(h.matches(&subject));
}

#[test]
fn data_negation_folds() {
    let mut f = DataFilter::none().not();
    assert_eq!(f.as_bool(), Some(true));
    f.optimize();
    assert!(matches!(f, DataFilter::Any));
    let g = DataFilter::unique().not().not();
    let subject = node(Some(1), None, vec![]);
    assert!(g.matches(&subject));
    assert!(!g.matches(&node(None, None, vec![])));
}

#[test]
fn link_optimize_collapses_constants() {
    let mut f = LinkFilter::target(DataFilter::any().or(DataFilter::unique()));
    assert_eq!(f.as_bool(), Some(true));
    f.optimize();
    assert!(matches!(f, LinkFilter::Any));

    let mut g = LinkFilter::key(DataFilter::none()).or(LinkFilter::none());
    assert_eq!(g.as_bool(), Some(false));
    g.optimize();
    assert!(matches!(g, LinkFilter::Nothing));

    let mut h = LinkFilter::target(DataFilter::unique()).not();
    h.optimize();
    let link = unkeyed(node(Some(3), None, vec![]));
    assert!(!h.matches(&link));
}

#[test]
fn domain_defaults() {
    assert!(matches!(DataFilter::truthy_default(), DataFilter::Any));
    assert!(matches!(DataFilter::falsy_default(), DataFilter::Nothing));
    assert!(matches!(LinkFilter::truthy_default(), LinkFilter::Any));
    assert!(matches!(LinkFilter::falsy_default(), LinkFilter::Nothing));
    let a: And<DataFilter> = FalsyDefault::falsy_default();
    assert_eq!(a.len(), 1);
}

#[test]
fn and_optimize_keeps_unknown_children() {
    let mut f: And<DataFilter> =
        vec![DataFilter::any(), DataFilter::unique(), DataFilter::any()].into();
    assert_eq!(f.as_bool(), None);
    f.optimize();
    assert_eq!(f.len(), 1);
    assert!(matches!(f[0], DataFilter::Unique));
    assert_eq!(f.as_bool(), None);
}

#[test]
fn leaves_stay_as_they_are() {
    let mut f = DataFilter::id(Id(4));
    f.optimize();
    assert!(matches!(f, DataFilter::Id(Id(4))));
    let mut g = DataFilter::text(TextFilter::from("abc"));
    g.optimize();
    match &g {
        DataFilter::Text(t) => assert_eq!(t.exact(), Some("abc")),
        _ => panic!("expected a text filter"),
    }
}

#[test]
fn constant_unions_fold_to_identities() {
    let mut f = DataFilter::none().not();
    f.optimize();
    assert!(matches!(f, DataFilter::Any));
    let mut g = DataFilter::unique().or(DataFilter::any());
    g.optimize();
    assert!(matches!(g, DataFilter::Any));
    let mut h = LinkFilter::target(DataFilter::unique()).or(LinkFilter::any());
    h.optimize();
    assert!(matches!(h, LinkFilter::Any));
}

#[test]
fn second_optimize_keeps_constancy() {
    let mut f = DataFilter::unique().and(DataFilter::any()).and(DataFilter::id(Id(2)).not());
    f.optimize();
    let once = f.as_bool();
    f.optimize();
    assert_eq!(f.as_bool(), once);
    match &f {
        DataFilter::And(a) => assert_eq!(a.len(), 2),
        _ => panic!("expected a conjunction"),
    }
}

#[test]
fn defaults_accept_everything() {
    assert!(matches!(DataFilter::default(), DataFilter::Any));
    assert!(matches!(LinkFilter::default(), LinkFilter::Any));
}
