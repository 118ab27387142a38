//! Configuration trees: version ranges, match criteria and boolean nodes.

use vstd::prelude::*;

use crate::cpe::{
    dedup_into, dedup_keys, keys_of, lemma_dedup_into_append, lemma_dedup_into_one, product_key,
    Product,
};
use crate::version::{
    compare_versions, str_eq, version_cmp, version_le, version_lt, VersionOrder,
};

verus! {

/// A version-boundary predicate: up to four independent boundaries, each
/// optional. An absent boundary imposes no constraint, so a range with no
/// boundary at all covers every version.
#[derive(Clone, Debug, Default)]
pub struct VersionRange {
    pub start_including: Option<String>,
    pub start_excluding: Option<String>,
    pub end_including: Option<String>,
    pub end_excluding: Option<String>,
}

/// Membership of a version in a range: every boundary that is set must hold.
pub open spec fn range_satisfies(r: VersionRange, v: Seq<char>) -> bool {
    &&& match r.start_including {
        Some(s) => version_cmp(v, s@) != VersionOrder::Less,
        None => true,
    }
    &&& match r.start_excluding {
        Some(s) => version_cmp(v, s@) == VersionOrder::Greater,
        None => true,
    }
    &&& match r.end_including {
        Some(e) => version_le(v, e@),
        None => true,
    }
    &&& match r.end_excluding {
        Some(e) => version_lt(v, e@),
        None => true,
    }
}

impl VersionRange {
    /// Does `version` fall inside this range?
    pub fn satisfies(&self, version: &str) -> (r: bool)
        ensures
            r == range_satisfies(*self, version@),
    {
        if let Some(s) = &self.start_including {
            if compare_versions(version, s.as_str()) == VersionOrder::Less {
                return false;
            }
        }
        if let Some(s) = &self.start_excluding {
            if !(compare_versions(version, s.as_str()) == VersionOrder::Greater) {
                return false;
            }
        }
        if let Some(e) = &self.end_including {
            if compare_versions(version, e.as_str()) == VersionOrder::Greater {
                return false;
            }
        }
        if let Some(e) = &self.end_excluding {
            if !(compare_versions(version, e.as_str()) == VersionOrder::Less) {
                return false;
            }
        }
        true
    }
}

/// A leaf rule: a vendor/product name, a vulnerable/excluded flag, and an
/// optional version constraint (a range, or an exact version as a degenerate
/// fallback when no range is given).
#[derive(Clone, Debug, Default)]
pub struct MatchCriterion {
    pub vendor: String,
    pub product: String,
    pub vulnerable: bool,
    pub range: Option<VersionRange>,
    pub exact_version: Option<String>,
}

/// The version constraint of a criterion: its range when it has one; string
/// equality with its exact version otherwise; any version when it has neither.
pub open spec fn criterion_version_ok(c: MatchCriterion, version: Seq<char>) -> bool {
    match c.range {
        Some(r) => range_satisfies(r, version),
        None => match c.exact_version {
            Some(e) => version == e@,
            None => true,
        },
    }
}

/// Whether the criterion's scope covers the query: exact product-name match
/// and the version constraint holds. Scope is deliberately separate from the
/// `vulnerable` flag: a covered query with `vulnerable == false` is an
/// explicit exclusion, handled at the node level.
pub open spec fn criterion_in_scope(c: MatchCriterion, product: Seq<char>, version: Seq<char>) -> bool {
    c.product@ == product && criterion_version_ok(c, version)
}

impl MatchCriterion {
    /// Does this criterion's scope cover the query?
    pub fn in_scope(&self, product: &str, version: &str) -> (r: bool)
        ensures
            r == criterion_in_scope(*self, product@, version@),
    {
        if !str_eq(self.product.as_str(), product) {
            return false;
        }
        if let Some(range) = &self.range {
            range.satisfies(version)
        } else if let Some(exact) = &self.exact_version {
            str_eq(version, exact.as_str())
        } else {
            true
        }
    }

    /// Does this criterion mark the query as vulnerable?
    pub fn matches(&self, product: &str, version: &str) -> (r: bool)
        ensures
            r == (criterion_in_scope(*self, product@, version@) && self.vulnerable),
    {
        self.vulnerable && self.in_scope(product, version)
    }
}

/// Boolean operator of a configuration node.
#[derive(Clone, Copy, Debug, PartialEq, Eq, Structural)]
pub enum NodeOperator {
    And,
    Or,
}

impl Default for NodeOperator {
    fn default() -> (r: Self)
        ensures
            r == NodeOperator::Or,
    {
        NodeOperator::Or
    }
}

/// A configuration-tree node: an operator over its own criteria (the leaves
/// at this level) and its child nodes.
#[derive(Debug)]
pub struct Node {
    pub operator: NodeOperator,
    pub negate: bool,
    pub criteria: Vec<MatchCriterion>,
    pub children: Vec<Node>,
}

/// Some criterion of the node covers the query and marks it vulnerable.
pub open spec fn leaf_hit(n: Node, product: Seq<char>, version: Seq<char>) -> bool {
    exists|i: int|
        0 <= i < n.criteria@.len() && criterion_in_scope(#[trigger] n.criteria@[i], product, version)
            && n.criteria@[i].vulnerable
}

/// Some criterion of the node covers the query and excludes it.
pub open spec fn leaf_excluded(n: Node, product: Seq<char>, version: Seq<char>) -> bool {
    exists|i: int|
        0 <= i < n.criteria@.len() && criterion_in_scope(#[trigger] n.criteria@[i], product, version)
            && !n.criteria@[i].vulnerable
}

/// Tree evaluation. A node with no criteria and no children yields `false`
/// outright, whatever its operator or negate flag: malformed, vacuous data
/// must not produce a blanket match. Otherwise `AND` asks that the local
/// criteria hit (the clause is vacuous when the node has no criteria of its
/// own) and that every child matches, `OR` asks for a local hit or some
/// matching child; an exclusion among the local criteria then overrides a
/// positive result, and `negate` finally inverts.
pub open spec fn node_matches(n: Node, product: Seq<char>, version: Seq<char>) -> bool
    decreases n,
{
    if n.criteria@.len() == 0 && n.children@.len() == 0 {
        false
    } else {
        let raw = match n.operator {
            NodeOperator::And => (leaf_hit(n, product, version) || n.criteria@.len() == 0) && (
            forall|i: int|
                0 <= i < n.children@.len() ==> node_matches(
                    #[trigger] n.children@[i],
                    product,
                    version,
                )),
            NodeOperator::Or => leaf_hit(n, product, version) || (exists|i: int|
                0 <= i < n.children@.len() && node_matches(
                    #[trigger] n.children@[i],
                    product,
                    version,
                )),
        };
        let kept = raw && !leaf_excluded(n, product, version);
        if n.negate {
            !kept
        } else {
            kept
        }
    }
}

/// The vendor/product identities named by a sequence of criteria, in order.
pub open spec fn criteria_keys(cs: Seq<MatchCriterion>) -> Seq<(Seq<char>, Seq<char>)> {
    cs.map_values(|c: MatchCriterion| (c.vendor@, c.product@))
}

/// All identities named in a node's subtree: its own criteria first, then its
/// children in order, with repetitions.
pub open spec fn node_product_keys(n: Node) -> Seq<(Seq<char>, Seq<char>)>
    decreases n,
{
    criteria_keys(n.criteria@) + forest_product_keys(n.children@)
}

/// All identities named in a sequence of subtrees, in order, with
/// repetitions.
pub open spec fn forest_product_keys(ns: Seq<Node>) -> Seq<(Seq<char>, Seq<char>)>
    decreases ns,
{
    if ns.len() == 0 {
        Seq::empty()
    } else {
        node_product_keys(ns[0]) + forest_product_keys(ns.drop_first())
    }
}

/// Appending one more subtree appends its keys.
pub proof fn lemma_forest_keys_push(ns: Seq<Node>, n: Node)
    ensures
        forest_product_keys(ns.push(n)) == forest_product_keys(ns) + node_product_keys(n),
    decreases ns.len(),
{
    if ns.len() == 0 {
        assert(ns.push(n)[0] == n);
        assert(ns.push(n).drop_first() =~= Seq::<Node>::empty());
        assert(forest_product_keys(Seq::<Node>::empty()) == Seq::<(Seq<char>, Seq<char>)>::empty());
        assert(forest_product_keys(ns.push(n)) =~= node_product_keys(n));
        assert(forest_product_keys(ns) + node_product_keys(n) =~= node_product_keys(n));
    } else {
        assert(ns.push(n)[0] == ns[0]);
        assert(ns.push(n).drop_first() =~= ns.drop_first().push(n));
        lemma_forest_keys_push(ns.drop_first(), n);
        assert(node_product_keys(ns[0]) + (forest_product_keys(ns.drop_first())
            + node_product_keys(n)) =~= forest_product_keys(ns) + node_product_keys(n));
    }
}

/// An exclusion overrides an inclusion: when some criterion of a
/// (non-negated) node covers the query but marks it not vulnerable, the node
/// does not match, whatever its operator, its other criteria and its
/// children say. A negated node inverts its result by design, so it is left
/// out here.
pub proof fn lemma_exclusion_overrides(n: Node, product: Seq<char>, version: Seq<char>)
    requires
        !n.negate,
        leaf_excluded(n, product, version),
    ensures
        !node_matches(n, product, version),
{
    let i = choose|i: int|
        0 <= i < n.criteria@.len() && criterion_in_scope(#[trigger] n.criteria@[i], product, version)
            && !n.criteria@[i].vulnerable;
    assert(n.criteria@.len() > 0);
}

/// A vacuous node — no criteria and no children — never matches, under
/// either operator and whatever its flags.
pub proof fn lemma_vacuous_node_is_false(n: Node, product: Seq<char>, version: Seq<char>)
    requires
        n.criteria@.len() == 0,
        n.children@.len() == 0,
    ensures
        !node_matches(n, product, version),
{
}

/// Whether the collected products already hold this vendor/product identity.
fn contains_key(acc: &Vec<Product>, vendor: &str, product: &str) -> (r: bool)
    ensures
        r == keys_of(acc@).contains((vendor@, product@)),
{
    let mut i: usize = 0;
    while i < acc.len()
        invariant
            i <= acc@.len(),
            forall|j: int| 0 <= j < i ==> keys_of(acc@)[j] != (vendor@, product@),
        decreases acc@.len() - i,
    {
        assert(keys_of(acc@)[i as int] == product_key(acc@[i as int]));
        if str_eq(acc[i].vendor.as_str(), vendor) && str_eq(acc[i].product.as_str(), product) {
            assert(keys_of(acc@).contains((vendor@, product@)));
            return true;
        }
        i += 1;
    }
    false
}

impl Node {
    /// Evaluates this subtree for a product/version query.
    pub fn is_match(&self, product: &str, version: &str) -> (r: bool)
        ensures
            r == node_matches(*self, product@, version@),
        decreases *self,
    {
        if self.criteria.len() == 0 && self.children.len() == 0 {
            return false;
        }
        let mut hit = false;
        let mut excluded = false;
        let mut k: usize = 0;
        while k < self.criteria.len()
            invariant
                k <= self.criteria@.len(),
                hit == exists|i: int|
                    0 <= i < k && criterion_in_scope(
                        #[trigger] self.criteria@[i],
                        product@,
                        version@,
                    ) && self.criteria@[i].vulnerable,
                excluded == exists|i: int|
                    0 <= i < k && criterion_in_scope(
                        #[trigger] self.criteria@[i],
                        product@,
                        version@,
                    ) && !self.criteria@[i].vulnerable,
            decreases self.criteria@.len() - k,
        {
            let c = &self.criteria[k];
            let scope = c.in_scope(product, version);
            if scope && c.vulnerable {
                hit = true;
            }
            if scope && !c.vulnerable {
                excluded = true;
            }
            k += 1;
        }
        assert(hit == leaf_hit(*self, product@, version@));
        assert(excluded == leaf_excluded(*self, product@, version@));
        let raw = match self.operator {
            NodeOperator::And => {
                let mut all = true;
                let mut k: usize = 0;
                while k < self.children.len()
                    invariant
                        k <= self.children@.len(),
                        all == forall|i: int|
                            0 <= i < k ==> node_matches(
                                #[trigger] self.children@[i],
                                product@,
                                version@,
                            ),
                    decreases self.children@.len() - k,
                {
                    proof {
                        assert(decreases_to!(*self => self.children));
                        assert(decreases_to!(self.children => self.children@));
                        assert(decreases_to!(self.children@ => self.children@[k as int]));
                    }
                    let m = self.children[k].is_match(product, version);
                    all = all && m;
                    k += 1;
                }
                (hit || self.criteria.len() == 0) && all
            },
            NodeOperator::Or => {
                let mut any = false;
                let mut k: usize = 0;
                while k < self.children.len()
                    invariant
                        k <= self.children@.len(),
                        any == exists|i: int|
                            0 <= i < k && node_matches(
                                #[trigger] self.children@[i],
                                product@,
                                version@,
                            ),
                    decreases self.children@.len() - k,
                {
                    proof {
                        assert(decreases_to!(*self => self.children));
                        assert(decreases_to!(self.children => self.children@));
                        assert(decreases_to!(self.children@ => self.children@[k as int]));
                    }
                    let m = self.children[k].is_match(product, version);
                    any = any || m;
                    k += 1;
                }
                hit || any
            },
        };
        let kept = raw && !excluded;
        if self.negate {
            !kept
        } else {
            kept
        }
    }

    /// Collects the identities of this subtree into `acc`, skipping the ones
    /// already present, in discovery order.
    fn collect_into(&self, acc: &mut Vec<Product>)
        ensures
            keys_of(final(acc)@) == dedup_into(keys_of(old(acc)@), node_product_keys(*self)),
        decreases *self,
    {
        let ghost acc0 = keys_of(acc@);
        let mut k: usize = 0;
        assert(self.criteria@.take(0) =~= Seq::<MatchCriterion>::empty());
        assert(criteria_keys(self.criteria@.take(0)) =~= Seq::<(Seq<char>, Seq<char>)>::empty());
        while k < self.criteria.len()
            invariant
                k <= self.criteria@.len(),
                keys_of(acc@) == dedup_into(acc0, criteria_keys(self.criteria@.take(k as int))),
            decreases self.criteria@.len() - k,
        {
            let ghost before = keys_of(acc@);
            let ghost prefix = criteria_keys(self.criteria@.take(k as int));
            let ghost key = (self.criteria@[k as int].vendor@, self.criteria@[k as int].product@);
            let c = &self.criteria[k];
            if !contains_key(acc, c.vendor.as_str(), c.product.as_str()) {
                let entry = Product { vendor: c.vendor.clone(), product: c.product.clone() };
                acc.push(entry);
                assert(keys_of(acc@) =~= before.push(key));
            }
            proof {
                assert(self.criteria@.take(k + 1) =~= self.criteria@.take(k as int).push(
                    self.criteria@[k as int],
                ));
                assert(criteria_keys(self.criteria@.take(k + 1)) =~= prefix + seq![key]);
                lemma_dedup_into_append(acc0, prefix, seq![key]);
                lemma_dedup_into_one(before, key);
            }
            k += 1;
        }
        assert(self.criteria@.take(self.criteria@.len() as int) =~= self.criteria@);
        let ghost local = criteria_keys(self.criteria@);
        let mut k: usize = 0;
        assert(self.children@.take(0) =~= Seq::<Node>::empty());
        assert(local + forest_product_keys(self.children@.take(0)) =~= local);
        while k < self.children.len()
            invariant
                k <= self.children@.len(),
                keys_of(acc@) == dedup_into(
                    acc0,
                    local + forest_product_keys(self.children@.take(k as int)),
                ),
            decreases self.children@.len() - k,
        {
            let ghost prefix = local + forest_product_keys(self.children@.take(k as int));
            proof {
                assert(decreases_to!(*self => self.children));
                assert(decreases_to!(self.children => self.children@));
                assert(decreases_to!(self.children@ => self.children@[k as int]));
            }
            self.children[k].collect_into(acc);
            proof {
                lemma_dedup_into_append(acc0, prefix, node_product_keys(self.children@[k as int]));
                lemma_forest_keys_push(self.children@.take(k as int), self.children@[k as int]);
                assert(self.children@.take(k + 1) =~= self.children@.take(k as int).push(
                    self.children@[k as int],
                ));
                assert(local + forest_product_keys(self.children@.take(k + 1)) =~= prefix
                    + node_product_keys(self.children@[k as int]));
            }
            k += 1;
        }
        assert(self.children@.take(self.children@.len() as int) =~= self.children@);
    }

    /// The unique vendor/product identities this subtree names, first
    /// discovery order, repeated calls equal.
    pub fn collect_unique_products(&self) -> (r: Vec<Product>)
        ensures
            keys_of(r@) == dedup_keys(node_product_keys(*self)),
    {
        let mut acc: Vec<Product> = Vec::new();
        assert(keys_of(acc@) =~= Seq::<(Seq<char>, Seq<char>)>::empty());
        self.collect_into(&mut acc);
        acc
    }
}

/// Collects the identities of a sequence of subtrees, left to right, skipping
/// the ones already present.
pub fn collect_forest_products(nodes: &Vec<Node>) -> (r: Vec<Product>)
    ensures
        keys_of(r@) == dedup_keys(forest_product_keys(nodes@)),
{
    let mut acc: Vec<Product> = Vec::new();
    assert(keys_of(acc@) =~= Seq::<(Seq<char>, Seq<char>)>::empty());
    let ghost acc0 = keys_of(acc@);
    let mut k: usize = 0;
    assert(nodes@.take(0) =~= Seq::<Node>::empty());
    while k < nodes.len()
        invariant
            k <= nodes@.len(),
            keys_of(acc@) == dedup_into(acc0, forest_product_keys(nodes@.take(k as int))),
        decreases nodes@.len() - k,
    {
        let ghost prefix = forest_product_keys(nodes@.take(k as int));
        nodes[k].collect_into(&mut acc);
        proof {
            lemma_dedup_into_append(acc0, prefix, node_product_keys(nodes@[k as int]));
            lemma_forest_keys_push(nodes@.take(k as int), nodes@[k as int]);
            assert(nodes@.take(k + 1) =~= nodes@.take(k as int).push(nodes@[k as int]));
        }
        k += 1;
    }
    assert(nodes@.take(nodes@.len() as int) =~= nodes@);
    acc
}

} // verus!
