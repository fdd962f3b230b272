//! A composable predicate algebra: boolean filter combinators that match
//! against arbitrary subjects, and a constant-folding optimizer that prunes
//! filter trees before repeated evaluation.

pub mod and;
pub mod data;
pub mod filter;
pub mod link;
pub mod not;
pub mod or;
pub mod subject;
pub mod text;

pub use and::And;
pub use data::DataFilter;
pub use filter::{FalsyDefault, Filter, Optimizable, TruthyDefault};
pub use link::LinkFilter;
pub use not::Not;
pub use or::Or;
pub use subject::{Data, Id, Link};
pub use text::TextFilter;
