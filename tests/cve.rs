use trustify::cve::{Cve, CveLoader, CveState, Description, ProblemType, ProblemTypeDescription, VulnerabilityInformation};
use trustify::graph::{Digests, Graph};

const SHA256: &str = "5f2b6a0c3e1d4b7a9c8e0f1a2b3c4d5e6f708192a3b4c5d6e7f8091a2b3c4d5e";

fn digests(sha256: &str) -> Digests {
    Digests { sha256: sha256.to_string(), sha384: "a".repeat(96), sha512: "b".repeat(128) }
}

fn labels() -> Vec<(String, String)> {
    vec![("file".to_string(), "CVE-2024-28111.json".to_string())]
}

fn published() -> Cve {
    Cve {
        id: "CVE-2024-28111".to_string(),
        date_published: Some(1_710_000_000),
        date_updated: Some(1_710_100_000),
        state: CveState::Published {
            title: Some("Canarytokens vulnerable to stored XSS".to_string()),
            date_assigned: Some(1_709_000_000),
            descriptions: vec![Description {
                language: "en".to_string(),
                value: "Canarytokens helps track activity and actions on a network.".to_string(),
            }],
            problem_types: vec![
                ProblemType { descriptions: vec![ProblemTypeDescription { cwe_id: None }] },
                ProblemType {
                    descriptions: vec![
                        ProblemTypeDescription { cwe_id: Some("CWE-79".to_string()) },
                        ProblemTypeDescription { cwe_id: Some("CWE-80".to_string()) },
                    ],
                },
            ],
        },
    }
}

#[test]
fn cve_loader() {
    let loader = CveLoader::new();
    let ingest = loader.load(&published());
    assert_eq!(ingest.identifier, "CVE-2024-28111");
    assert_eq!(ingest.descriptions.len(), 1);
    assert_eq!(ingest.descriptions[0].0, "en");
    assert!(ingest.descriptions[0]
        .1
        .starts_with("Canarytokens helps track activity and actions on a network"));
    assert_eq!(ingest.vulnerability.cwe, Some("CWE-79".to_string()));
    assert_eq!(ingest.vulnerability.withdrawn, None);
    assert_eq!(ingest.advisory.issuer, Some("CVE® (MITRE Corporation".to_string()));
    assert_eq!(ingest.link.description, ingest.descriptions.first().map(|d| d.1.clone()));
    assert_eq!(ingest.link.discovery_date, Some(1_709_000_000));
    assert_eq!(ingest.link.release_date, Some(1_710_000_000));

    let mut graph = Graph::new();
    assert!(graph.vulnerabilities.is_empty());
    assert!(graph.advisories.is_empty());
    let result = graph.ingest_cve(&ingest, digests(SHA256), labels(), 11);
    assert_eq!(result.id, 11);
    assert_eq!(result.document_id, "CVE-2024-28111");
    assert_eq!(graph.vulnerabilities.len(), 1);
    assert_eq!(graph.vulnerabilities[0].identifier, "CVE-2024-28111");
    let english: Vec<_> = graph.descriptions.iter().filter(|d| d.language == "en").collect();
    assert_eq!(english.len(), 1);
    assert!(english[0].text.starts_with("Canarytokens helps track activity and actions on a network"));
    assert_eq!(graph.advisories.len(), 1);
    assert_eq!(graph.advisories[0].sha256, SHA256);
    assert_eq!(graph.advisories[0].sha512, "b".repeat(128));
    assert_eq!(graph.advisories[0].labels, labels());
    assert_eq!(graph.advisories[0].info.issuer, Some("CVE® (MITRE Corporation".to_string()));
    assert_eq!(graph.links.len(), 1);
    assert_eq!(graph.links[0].vulnerability, "CVE-2024-28111");
}

#[test]
fn cve_ingest_twice_same_rows() {
    let ingest = CveLoader::new().load(&published());
    let mut graph = Graph::new();
    let first = graph.ingest_cve(&ingest, digests(SHA256), labels(), 1);
    let second = graph.ingest_cve(&ingest, digests(SHA256), labels(), 2);
    assert_eq!(first.id, second.id);
    assert_eq!(graph.vulnerabilities.len(), 1);
    assert_eq!(graph.descriptions.len(), 1);
    assert_eq!(graph.advisories.len(), 1);
    assert_eq!(graph.links.len(), 1);
    assert_eq!(graph.vulnerabilities[0].info.cwe, Some("CWE-79".to_string()));
}

#[test]
fn cve_vulnerability_merge_keeps_present_fields() {
    let mut graph = Graph::new();
    graph.ingest_vulnerability(
        "CVE-1".to_string(),
        VulnerabilityInformation {
            title: Some("first".to_string()),
            published: Some(1),
            modified: None,
            withdrawn: None,
            cwe: Some("CWE-1".to_string()),
        },
    );
    graph.ingest_vulnerability(
        "CVE-1".to_string(),
        VulnerabilityInformation { title: None, published: Some(2), modified: Some(3), withdrawn: None, cwe: None },
    );
    assert_eq!(graph.vulnerabilities.len(), 1);
    let info = &graph.vulnerabilities[0].info;
    assert_eq!(info.title, Some("first".to_string()));
    assert_eq!(info.published, Some(2));
    assert_eq!(info.modified, Some(3));
    assert_eq!(info.cwe, Some("CWE-1".to_string()));
}

#[test]
fn cve_new_digest_new_advisory() {
    let ingest = CveLoader::new().load(&published());
    let mut graph = Graph::new();
    let a = graph.ingest_cve(&ingest, digests(SHA256), labels(), 1);
    let b = graph.ingest_cve(&ingest, digests(&"00".repeat(32)), labels(), 2);
    assert_ne!(a.id, b.id);
    assert_eq!(graph.advisories.len(), 2);
    assert_eq!(graph.links.len(), 2);
    assert_eq!(graph.vulnerabilities.len(), 1);
}

#[test]
fn cve_rejected_is_withdrawn() {
    let cve = Cve {
        id: "CVE-2024-0001".to_string(),
        date_published: None,
        date_updated: Some(5),
        state: CveState::Rejected {
            date_rejected: Some(7),
            rejected_reasons: vec![
                Description { language: "en".to_string(), value: "duplicate".to_string() },
                Description { language: "de".to_string(), value: "doppelt".to_string() },
            ],
        },
    };
    let ingest = CveLoader::new().load(&cve);
    assert_eq!(ingest.vulnerability.withdrawn, Some(7));
    assert_eq!(ingest.advisory.withdrawn, Some(7));
    assert_eq!(ingest.vulnerability.title, None);
    assert_eq!(ingest.vulnerability.cwe, None);
    assert_eq!(ingest.descriptions.len(), 2);
    assert_eq!(ingest.link.description, Some("duplicate".to_string()));
    assert_eq!(ingest.link.discovery_date, None);
}

#[test]
fn graph_products_registered_once() {
    let mut graph = Graph::new();
    let a = graph.ingest_product("app".to_string(), Some("ACME".to_string()), 1);
    let b = graph.ingest_product("app".to_string(), Some("ACME".to_string()), 2);
    let c = graph.ingest_product("app".to_string(), None, 3);
    assert_eq!(a, 1);
    assert_eq!(b, 1);
    assert_eq!(c, 3);
    assert_eq!(graph.products.len(), 2);
    graph.ingest_product_version(a, "1.0".to_string(), Some(9));
    graph.ingest_product_version(a, "1.0".to_string(), Some(10));
    graph.ingest_product_version(a, "2.0".to_string(), None);
    assert_eq!(graph.product_versions.len(), 2);
    assert_eq!(graph.product_versions[0].sbom_id, Some(9));
}
