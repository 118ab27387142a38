//! Queries posed to the matching engine.

use vstd::prelude::*;

verus! {

/// A product/version question: "is this product, at this version, affected?"
/// A query with no version never matches any record: every range or
/// exact-version predicate needs a version to evaluate.
#[derive(Clone, Debug, Default)]
pub struct Query {
    pub product: String,
    pub version: Option<String>,
}

} // verus!
