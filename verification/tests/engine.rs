use nvd_match::cpe::Product;
use nvd_match::error::ApplicationError;
use nvd_match::item::{
    Configurations, CVSSV2, CVSSV3, Description, DescriptionData, Impact, ImpactMetricV2,
    ImpactMetricV3, Info, Meta, CVE,
};
use nvd_match::node::{MatchCriterion, Node, NodeOperator, VersionRange};
use nvd_match::products::group_by_vendor;
use nvd_match::search::Query;
use nvd_match::version::{compare_versions, str_eq, VersionOrder};

fn range(
    start_including: Option<&str>,
    start_excluding: Option<&str>,
    end_including: Option<&str>,
    end_excluding: Option<&str>,
) -> VersionRange {
    VersionRange {
        start_including: start_including.map(|s| s.to_string()),
        start_excluding: start_excluding.map(|s| s.to_string()),
        end_including: end_including.map(|s| s.to_string()),
        end_excluding: end_excluding.map(|s| s.to_string()),
    }
}

fn criterion(vendor: &str, product: &str, vulnerable: bool, r: Option<VersionRange>) -> MatchCriterion {
    MatchCriterion {
        vendor: vendor.to_string(),
        product: product.to_string(),
        vulnerable,
        range: r,
        exact_version: None,
    }
}

fn node(operator: NodeOperator, criteria: Vec<MatchCriterion>, children: Vec<Node>) -> Node {
    Node { operator, negate: false, criteria, children }
}

fn record_with_roots(id: &str, roots: Vec<Node>) -> CVE {
    CVE {
        cve: Info {
            meta: Meta { id: id.to_string(), assigner: None },
            references: Default::default(),
            description: Default::default(),
        },
        impact: Default::default(),
        configurations: Configurations { data_version: "4.0".to_string(), nodes: roots },
    }
}

fn query(product: &str, version: Option<&str>) -> Query {
    Query { product: product.to_string(), version: version.map(|v| v.to_string()) }
}

#[test]
fn comparator_numeric_not_lexicographic() {
    assert_eq!(compare_versions("1.9", "1.10"), VersionOrder::Less);
    assert_eq!(compare_versions("1.10", "1.9"), VersionOrder::Greater);
    assert_eq!(compare_versions("2", "10"), VersionOrder::Less);
}

#[test]
fn comparator_padding_and_equality() {
    assert_eq!(compare_versions("1.9", "1.9.0"), VersionOrder::Equal);
    assert_eq!(compare_versions("1.9.0.0", "1.9"), VersionOrder::Equal);
    assert_eq!(compare_versions("1.0", "1.0.1"), VersionOrder::Less);
    assert_eq!(compare_versions("3.2.1", "3.2.1"), VersionOrder::Equal);
}

#[test]
fn comparator_leading_zeros_and_big_numbers() {
    assert_eq!(compare_versions("1.02", "1.2"), VersionOrder::Equal);
    assert_eq!(compare_versions("1.002.0", "1.2"), VersionOrder::Equal);
    assert_eq!(
        compare_versions("99999999999999999999998", "99999999999999999999999"),
        VersionOrder::Less
    );
    assert_eq!(
        compare_versions("100000000000000000000000", "99999999999999999999999"),
        VersionOrder::Greater
    );
}

#[test]
fn comparator_alphanumeric_components() {
    assert_eq!(compare_versions("1.0a", "1.0b"), VersionOrder::Less);
    assert_eq!(compare_versions("1.0-beta", "1.0-alpha"), VersionOrder::Greater);
    assert_eq!(compare_versions("1.0.rc1", "1.0.rc1"), VersionOrder::Equal);
}

#[test]
fn str_eq_compares_characters() {
    assert!(str_eq("openssl", "openssl"));
    assert!(!str_eq("openssl", "openssL"));
    assert!(!str_eq("openssl", "openss"));
    assert!(str_eq("", ""));
}

#[test]
fn range_end_excluding_boundary() {
    let r = range(None, None, None, Some("2.0"));
    assert!(r.satisfies("1.9.9"));
    assert!(!r.satisfies("2.0"));
    assert!(!r.satisfies("2.0.1"));
}

#[test]
fn range_all_boundaries() {
    let r = range(Some("1.0"), None, Some("2.0"), None);
    assert!(r.satisfies("1.0"));
    assert!(r.satisfies("1.5"));
    assert!(r.satisfies("2.0"));
    assert!(!r.satisfies("0.9"));
    assert!(!r.satisfies("2.0.1"));

    let r = range(None, Some("1.0"), None, Some("2.0"));
    assert!(!r.satisfies("1.0"));
    assert!(r.satisfies("1.0.1"));
    assert!(r.satisfies("1.9.9"));
    assert!(!r.satisfies("2.0"));
}

#[test]
fn open_range_matches_any_version() {
    let r = range(None, None, None, None);
    assert!(r.satisfies("0.0.1"));
    assert!(r.satisfies("999.999"));
}

#[test]
fn criterion_exact_version_fallback() {
    let mut c = criterion("acme", "widget", true, None);
    c.exact_version = Some("1.2.3".to_string());
    assert!(c.in_scope("widget", "1.2.3"));
    assert!(!c.in_scope("widget", "1.2.4"));
    assert!(!c.in_scope("gadget", "1.2.3"));
}

#[test]
fn criterion_product_name_is_case_sensitive_exact() {
    let c = criterion("acme", "widget", true, None);
    assert!(c.matches("widget", "1.0"));
    assert!(!c.matches("Widget", "1.0"));
    assert!(!c.matches("widget2", "1.0"));
}

#[test]
fn criterion_matches_requires_vulnerable() {
    let c = criterion("acme", "widget", false, None);
    assert!(c.in_scope("widget", "1.0"));
    assert!(!c.matches("widget", "1.0"));
}

#[test]
fn exclusion_overrides_inclusion_under_both_operators() {
    let vulnerable = criterion("acme", "widget", true, Some(range(None, None, None, Some("3.0"))));
    let excluded = criterion("acme", "widget", false, Some(range(None, None, None, Some("3.0"))));

    let and_node = node(NodeOperator::And, vec![vulnerable.clone(), excluded.clone()], vec![]);
    assert!(!and_node.is_match("widget", "2.5"));

    let or_node = node(NodeOperator::Or, vec![vulnerable, excluded], vec![]);
    assert!(!or_node.is_match("widget", "2.5"));
}

#[test]
fn vacuous_node_is_false_under_both_operators() {
    let and_node = node(NodeOperator::And, vec![], vec![]);
    assert!(!and_node.is_match("widget", "1.0"));

    let or_node = node(NodeOperator::Or, vec![], vec![]);
    assert!(!or_node.is_match("widget", "1.0"));
}

#[test]
fn and_node_requires_all_children() {
    let child_hit = node(NodeOperator::Or, vec![criterion("acme", "widget", true, None)], vec![]);
    let child_miss = node(NodeOperator::Or, vec![criterion("acme", "other", true, None)], vec![]);

    let both = node(NodeOperator::And, vec![], vec![
        node(NodeOperator::Or, vec![criterion("acme", "widget", true, None)], vec![]),
        child_hit,
    ]);
    assert!(both.is_match("widget", "1.0"));

    let one_missing = node(NodeOperator::And, vec![], vec![
        node(NodeOperator::Or, vec![criterion("acme", "widget", true, None)], vec![]),
        child_miss,
    ]);
    assert!(!one_missing.is_match("widget", "1.0"));
}

#[test]
fn negate_inverts_a_nonempty_node() {
    let mut n = node(NodeOperator::Or, vec![criterion("acme", "widget", true, None)], vec![]);
    assert!(n.is_match("widget", "1.0"));
    n.negate = true;
    assert!(!n.is_match("widget", "1.0"));
    assert!(n.is_match("other", "1.0"));
}

#[test]
fn or_root_semantics_second_root_matches() {
    let miss = node(NodeOperator::Or, vec![criterion("acme", "other", true, None)], vec![]);
    let hit = node(NodeOperator::Or, vec![criterion("acme", "widget", true, None)], vec![]);
    let record = record_with_roots("CVE-2020-0001", vec![miss, hit]);
    assert!(record.is_match(&query("widget", Some("1.0"))));
}

#[test]
fn no_version_query_never_matches() {
    let hit = node(NodeOperator::Or, vec![criterion("acme", "openssl", true, None)], vec![]);
    let record = record_with_roots("CVE-2020-0002", vec![hit]);
    assert!(!record.is_match(&query("openssl", None)));
}

#[test]
fn product_deduplication_is_stable_and_order_preserving() {
    let inner = node(NodeOperator::Or, vec![
        criterion("acme", "widget", true, None),
        criterion("acme", "gadget", true, None),
    ], vec![]);
    let root = node(NodeOperator::Or, vec![
        criterion("acme", "widget", true, None),
        criterion("acme", "widget", false, None),
    ], vec![inner]);
    let record = record_with_roots("CVE-2020-0003", vec![root]);

    let products = record.collect_unique_products();
    assert_eq!(products.len(), 2);
    assert_eq!(products[0].vendor, "acme");
    assert_eq!(products[0].product, "widget");
    assert_eq!(products[1].product, "gadget");

    let again = record.collect_unique_products();
    assert_eq!(products, again);
}

#[test]
fn cvss_v2_takes_precedence_over_v3() {
    let impact = Impact {
        metric_v2: Some(ImpactMetricV2 {
            cvss: CVSSV2 {
                base_score: 50,
                access_vector: "NETWORK".to_string(),
                ..Default::default()
            },
            severity: "MEDIUM".to_string(),
            ..Default::default()
        }),
        metric_v3: Some(ImpactMetricV3 {
            cvss: CVSSV3 {
                base_score: 98,
                base_severity: "CRITICAL".to_string(),
                attack_vector: "NETWORK".to_string(),
                ..Default::default()
            },
            ..Default::default()
        }),
    };
    assert_eq!(impact.score(), 50);
    assert_eq!(impact.severity(), "MEDIUM");
    assert_eq!(impact.vector(), "NETWORK");
    assert_eq!(impact.score() as f64 / 10.0, 5.0);
}

#[test]
fn cvss_v3_used_when_v2_absent() {
    let impact = Impact {
        metric_v2: None,
        metric_v3: Some(ImpactMetricV3 {
            cvss: CVSSV3 {
                base_score: 98,
                base_severity: "CRITICAL".to_string(),
                attack_vector: "LOCAL".to_string(),
                ..Default::default()
            },
            ..Default::default()
        }),
    };
    assert_eq!(impact.score(), 98);
    assert_eq!(impact.severity(), "CRITICAL");
    assert_eq!(impact.vector(), "LOCAL");
}

#[test]
fn no_impact_data_degrades_to_defaults() {
    let impact = Impact { metric_v2: None, metric_v3: None };
    assert_eq!(impact.score(), 0);
    assert_eq!(impact.severity(), "");
    assert_eq!(impact.vector(), "");
}

#[test]
fn end_to_end_cve_2021_test() {
    let root = node(NodeOperator::And, vec![
        criterion("acme", "widget", true, Some(range(None, None, None, Some("3.0")))),
    ], vec![]);
    let record = record_with_roots("CVE-2021-TEST", vec![root]);

    assert_eq!(record.id(), "CVE-2021-TEST");
    assert!(record.is_complete());
    assert!(record.is_match(&query("widget", Some("2.5"))));
    assert!(!record.is_match(&query("widget", Some("3.0"))));
    assert!(!record.is_match(&query("gadget", Some("2.5"))));
}

#[test]
fn summary_picks_first_english_description() {
    let mut record = record_with_roots("CVE-2020-0004", vec![]);
    record.cve.description = Description {
        description_data: vec![
            DescriptionData { lang: "fr".to_string(), value: "non".to_string() },
            DescriptionData { lang: "en".to_string(), value: "first".to_string() },
            DescriptionData { lang: "en".to_string(), value: "second".to_string() },
        ],
    };
    assert_eq!(record.summary(), "first");

    record.cve.description.description_data.clear();
    assert_eq!(record.summary(), "");
    assert!(!record.is_complete());
}

#[test]
fn group_by_vendor_preserves_order() {
    let products = vec![
        Product { vendor: "acme".to_string(), product: "widget".to_string() },
        Product { vendor: "globex".to_string(), product: "rocket".to_string() },
        Product { vendor: "acme".to_string(), product: "gadget".to_string() },
    ];
    let groups = group_by_vendor(&products);
    assert_eq!(groups.len(), 2);
    assert_eq!(groups[0].vendor, "acme");
    assert_eq!(groups[0].products, vec!["widget".to_string(), "gadget".to_string()]);
    assert_eq!(groups[1].vendor, "globex");
    assert_eq!(groups[1].products, vec!["rocket".to_string()]);
}

#[test]
fn application_error_status_codes_and_bodies() {
    assert_eq!(ApplicationError::InternalServerError.status_code(), 500);
    assert_eq!(ApplicationError::BadRequest("bad query".to_string()).status_code(), 400);
    assert_eq!(ApplicationError::ServiceUnavailable.status_code(), 504);

    assert_eq!(ApplicationError::BadRequest("bad query".to_string()).response_body(), "bad query");
    assert_eq!(ApplicationError::InternalServerError.response_body(), "");
    assert_eq!(ApplicationError::ServiceUnavailable.response_body(), "");
}
