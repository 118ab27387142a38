//! CVE records: metadata, CVSS impact blocks, and the record facade.
//!
//! CVSS scores are carried in tenths of a point (`50` is a base score of
//! 5.0): the feed's one-decimal scores map to integers losslessly, and the
//! engine only ever reads scores, never computes with them.

use vstd::prelude::*;

use crate::cpe::{dedup_keys, keys_of, Product};
use crate::node::{collect_forest_products, forest_product_keys, node_matches, Node};
use crate::search::Query;

verus! {

/// CVE identity metadata.
#[derive(Clone, Debug, Default)]
pub struct Meta {
    pub id: String,
    pub assigner: Option<String>,
}

/// One external reference of a CVE.
#[derive(Clone, Debug, Default)]
pub struct Reference {
    pub url: String,
    pub name: String,
    pub tags: Vec<String>,
}

/// The reference list of a CVE.
#[derive(Clone, Debug, Default)]
pub struct References {
    pub reference_data: Vec<Reference>,
}

/// One description entry, in one language.
#[derive(Clone, Debug, Default)]
pub struct DescriptionData {
    pub lang: String,
    pub value: String,
}

/// The description list of a CVE.
#[derive(Clone, Debug, Default)]
pub struct Description {
    pub description_data: Vec<DescriptionData>,
}

/// The CVE's own metadata block.
#[derive(Clone, Debug, Default)]
pub struct Info {
    pub meta: Meta,
    pub references: References,
    pub description: Description,
}

/// A CVSS version 2 base-metric block. `base_score` is in tenths of a point.
#[derive(Clone, Debug, Default)]
pub struct CVSSV2 {
    pub version: String,
    pub vector_string: String,
    pub access_vector: String,
    pub access_complexity: String,
    pub authentication: String,
    pub confidentiality_impact: String,
    pub integrity_impact: String,
    pub availability_impact: String,
    pub base_score: u32,
}

/// A CVSS version 3 base-metric block. `base_score` is in tenths of a point.
#[derive(Clone, Debug, Default)]
pub struct CVSSV3 {
    pub version: String,
    pub vector_string: String,
    pub attack_vector: String,
    pub attack_complexity: String,
    pub privileges_required: String,
    pub user_interaction: String,
    pub scope: String,
    pub confidentiality_impact: String,
    pub integrity_impact: String,
    pub availability_impact: String,
    pub base_score: u32,
    pub base_severity: String,
}

/// The version 2 impact sub-record; its scores are in tenths of a point.
#[derive(Clone, Debug, Default)]
pub struct ImpactMetricV2 {
    pub cvss: CVSSV2,
    pub exploitability_score: u32,
    pub impact_score: u32,
    pub severity: String,
    pub ac_insuf_info: Option<bool>,
    pub obtain_all_privilege: bool,
    pub obtain_user_privilege: bool,
    pub obtain_other_privilege: bool,
    pub user_interaction_required: Option<bool>,
}

/// The version 3 impact sub-record; its scores are in tenths of a point.
#[derive(Clone, Debug, Default)]
pub struct ImpactMetricV3 {
    pub cvss: CVSSV3,
    pub exploitability_score: u32,
    pub impact_score: u32,
}

/// The impact data of a record: either, both or neither CVSS block.
#[derive(Clone, Debug, Default)]
pub struct Impact {
    pub metric_v2: Option<ImpactMetricV2>,
    pub metric_v3: Option<ImpactMetricV3>,
}

/// The normalized score: version 2 takes precedence over version 3 when both
/// are present; with neither, zero.
pub open spec fn impact_score(im: Impact) -> u32 {
    match im.metric_v2 {
        Some(m) => m.cvss.base_score,
        None => match im.metric_v3 {
            Some(m) => m.cvss.base_score,
            None => 0u32,
        },
    }
}

/// The normalized severity: the version 2 block's own severity field, else
/// the version 3 base severity, else empty.
pub open spec fn impact_severity(im: Impact) -> Seq<char> {
    match im.metric_v2 {
        Some(m) => m.severity@,
        None => match im.metric_v3 {
            Some(m) => m.cvss.base_severity@,
            None => Seq::empty(),
        },
    }
}

/// The normalized vector: the version 2 access vector, else the version 3
/// attack vector, else empty.
pub open spec fn impact_vector(im: Impact) -> Seq<char> {
    match im.metric_v2 {
        Some(m) => m.cvss.access_vector@,
        None => match im.metric_v3 {
            Some(m) => m.cvss.attack_vector@,
            None => Seq::empty(),
        },
    }
}

impl Impact {
    /// The normalized base score in tenths of a point, version 2 first.
    pub fn score(&self) -> (r: u32)
        ensures
            r == impact_score(*self),
    {
        if let Some(metric) = &self.metric_v2 {
            metric.cvss.base_score
        } else if let Some(metric) = &self.metric_v3 {
            metric.cvss.base_score
        } else {
            0
        }
    }

    /// The normalized severity string, version 2 first.
    pub fn severity(&self) -> (r: &str)
        ensures
            r@ == impact_severity(*self),
    {
        if let Some(metric) = &self.metric_v2 {
            metric.severity.as_str()
        } else if let Some(metric) = &self.metric_v3 {
            metric.cvss.base_severity.as_str()
        } else {
            proof {
                reveal_strlit("");
            }
            ""
        }
    }

    /// The normalized vector string, version 2 first.
    pub fn vector(&self) -> (r: &str)
        ensures
            r@ == impact_vector(*self),
    {
        if let Some(metric) = &self.metric_v2 {
            metric.cvss.access_vector.as_str()
        } else if let Some(metric) = &self.metric_v3 {
            metric.cvss.attack_vector.as_str()
        } else {
            proof {
                reveal_strlit("");
            }
            ""
        }
    }
}

/// The configuration block: the root nodes of the affected-product trees.
#[derive(Debug, Default)]
pub struct Configurations {
    pub data_version: String,
    pub nodes: Vec<Node>,
}

/// A full CVE record.
#[derive(Debug, Default)]
pub struct CVE {
    pub cve: Info,
    pub impact: Impact,
    pub configurations: Configurations,
}

/// The first description entry in English, empty when there is none.
pub open spec fn first_english(ds: Seq<DescriptionData>) -> Seq<char>
    decreases ds.len(),
{
    if ds.len() == 0 {
        Seq::empty()
    } else if ds[0].lang@ == "en"@ {
        ds[0].value@
    } else {
        first_english(ds.drop_first())
    }
}

/// Whether the record applies to the query: a version must be given, and the
/// root nodes are an implicit OR.
pub open spec fn record_matches(c: CVE, q: Query) -> bool {
    match q.version {
        None => false,
        Some(v) => exists|i: int|
            0 <= i < c.configurations.nodes@.len() && node_matches(
                #[trigger] c.configurations.nodes@[i],
                q.product@,
                v@,
            ),
    }
}

/// A query without a version matches no record at all.
pub proof fn lemma_no_version_never_matches(c: CVE, q: Query)
    requires
        q.version is None,
    ensures
        !record_matches(c, q),
{
}

/// Root nodes are an implicit OR: one matching root, wherever it stands in
/// the list, makes the whole record match.
pub proof fn lemma_any_root_matches(c: CVE, q: Query, v: Seq<char>, i: int)
    requires
        q.version matches Some(s) && s@ == v,
        0 <= i < c.configurations.nodes@.len(),
        node_matches(c.configurations.nodes@[i], q.product@, v),
    ensures
        record_matches(c, q),
{
}

/// When a version 2 block is present, it decides all three normalized
/// values, whatever a version 3 block says.
pub proof fn lemma_cvss_v2_precedence(im: Impact)
    requires
        im.metric_v2 is Some,
    ensures
        impact_score(im) == im.metric_v2->0.cvss.base_score,
        impact_severity(im) == im.metric_v2->0.severity@,
        impact_vector(im) == im.metric_v2->0.cvss.access_vector@,
{
}

impl CVE {
    /// A record with no configuration nodes is reserved/unanalyzed.
    pub fn is_complete(&self) -> (r: bool)
        ensures
            r == (self.configurations.nodes@.len() > 0),
    {
        self.configurations.nodes.len() > 0
    }

    /// The stable CVE identifier.
    pub fn id(&self) -> (r: &str)
        ensures
            r@ == self.cve.meta.id@,
    {
        self.cve.meta.id.as_str()
    }

    /// The first English description entry, empty when there is none.
    pub fn summary(&self) -> (r: &str)
        ensures
            r@ == first_english(self.cve.description.description_data@),
    {
        let ds = &self.cve.description.description_data;
        let mut i: usize = 0;
        assert(ds@.skip(0) =~= ds@);
        while i < ds.len()
            invariant
                i <= ds@.len(),
                ds@ == self.cve.description.description_data@,
                first_english(ds@) == first_english(ds@.skip(i as int)),
            decreases ds@.len() - i,
        {
            let ghost t = ds@.skip(i as int);
            proof {
                assert(t[0] == ds@[i as int]);
                assert(t.drop_first() =~= ds@.skip(i as int + 1));
            }
            if crate::version::str_eq(ds[i].lang.as_str(), "en") {
                proof {
                    assert(t.len() > 0);
                    assert(t[0].lang@ == "en"@);
                    assert(first_english(t) == t[0].value@);
                }
                return ds[i].value.as_str();
            }
            i += 1;
        }
        proof {
            reveal_strlit("");
        }
        ""
    }

    /// The normalized base score in tenths of a point.
    pub fn score(&self) -> (r: u32)
        ensures
            r == impact_score(self.impact),
    {
        self.impact.score()
    }

    /// The normalized severity string.
    pub fn severity(&self) -> (r: &str)
        ensures
            r@ == impact_severity(self.impact),
    {
        self.impact.severity()
    }

    /// The normalized vector string.
    pub fn vector(&self) -> (r: &str)
        ensures
            r@ == impact_vector(self.impact),
    {
        self.impact.vector()
    }

    /// Every unique vendor/product identity the configuration trees name, in
    /// first-discovery order. Pure: repeated calls return the same sequence.
    pub fn collect_unique_products(&self) -> (r: Vec<Product>)
        ensures
            keys_of(r@) == dedup_keys(forest_product_keys(self.configurations.nodes@)),
    {
        collect_forest_products(&self.configurations.nodes)
    }

    /// Whether this record applies to the query. Root nodes are OR'd; a query
    /// without a version never matches.
    pub fn is_match(&self, query: &Query) -> (r: bool)
        ensures
            r == record_matches(*self, *query),
    {
        if let Some(version) = &query.version {
            let nodes = &self.configurations.nodes;
            let mut i: usize = 0;
            while i < nodes.len()
                invariant
                    i <= nodes@.len(),
                    nodes@ == self.configurations.nodes@,
                    query.version == Some(*version),
                    forall|j: int|
                        0 <= j < i ==> !node_matches(
                            #[trigger] nodes@[j],
                            query.product@,
                            version@,
                        ),
                decreases nodes@.len() - i,
            {
                if nodes[i].is_match(query.product.as_str(), version.as_str()) {
                    proof {
                        assert(node_matches(
                            self.configurations.nodes@[i as int],
                            query.product@,
                            version@,
                        ));
                        assert(record_matches(*self, *query));
                    }
                    return true;
                }
                i += 1;
            }
            false
        } else {
            false
        }
    }
}

} // verus!
