use trustify::cpe::Cpe;
use trustify::purl::Purl;
use trustify::report::Report;
use trustify::spdx::{
    fix_license, PackageReference, SbomContext, SbomInformation, ExternalReference, FileInformation, IngestError, PackageInformation,
    Relationship, RelationshipEntry, RelationshipType, Spdx, SpdxRelationship,
};

fn package(id: &str, name: &str, version: Option<&str>, purl: Option<&str>) -> PackageInformation {
    PackageInformation {
        package_spdx_identifier: id.to_string(),
        package_name: name.to_string(),
        package_version: version.map(|v| v.to_string()),
        package_supplier: Some("Organization: ACME".to_string()),
        external_reference: purl
            .map(|p| {
                vec![ExternalReference {
                    reference_type: "purl".to_string(),
                    reference_locator: p.to_string(),
                }]
            })
            .unwrap_or_default(),
    }
}

fn relation(left: &str, kind: RelationshipType, right: &str) -> RelationshipEntry {
    RelationshipEntry {
        spdx_element_id: left.to_string(),
        relationship_type: kind,
        related_spdx_element: right.to_string(),
    }
}

fn two_packages() -> Spdx {
    Spdx {
        spdx_identifier: "SPDXRef-DOCUMENT".to_string(),
        document_name: "doc".to_string(),
        document_describes: vec![],
        package_information: vec![
            package("SPDXRef-A", "a", Some("1.0"), Some("pkg:npm/a@1.0")),
            package("SPDXRef-B", "b", Some("2.0"), None),
        ],
        file_information: vec![],
        relationships: vec![
            relation("SPDXRef-DOCUMENT", RelationshipType::Describes, "SPDXRef-A"),
            relation("SPDXRef-A", RelationshipType::Contains, "SPDXRef-B"),
        ],
        created: Some(1_700_000_000),
        creators: vec!["Tool: example".to_string()],
    }
}

fn edge(r: &SpdxRelationship) -> (String, Relationship, String) {
    (r.0.clone(), r.1, r.2.clone())
}

#[test]
fn spdx_two_package_document() {
    let ingest = SbomContext { sbom_id: 7 }.ingest_spdx(&two_packages()).unwrap();
    let edges: Vec<_> = ingest.relationships.iter().map(edge).collect();
    assert_eq!(
        edges,
        vec![
            ("SPDXRef-A".to_string(), Relationship::DescribedBy, "SPDXRef-DOCUMENT".to_string()),
            ("SPDXRef-B".to_string(), Relationship::ContainedBy, "SPDXRef-A".to_string()),
        ]
    );
    assert_eq!(ingest.products.len(), 1);
    assert_eq!(ingest.products[0].name, "a");
    assert_eq!(ingest.products[0].version, Some("1.0".to_string()));
    assert_eq!(ingest.products[0].vendor, Some("Organization: ACME".to_string()));
    assert_eq!(ingest.packages.len(), 2);
    assert_eq!(ingest.packages[0].node_id, "SPDXRef-A");
    assert_eq!(ingest.packages[0].references.len(), 1);
    assert_eq!(
        ingest.packages[0].references[0],
        PackageReference::Purl(Purl::from_str("pkg:npm/a@1.0").unwrap().qualifier_uuid())
    );
    assert_eq!(ingest.purls.len(), 1);
    assert_eq!(ingest.purls.purls[0].to_string(), "pkg://npm/a@1.0");
    assert!(ingest.packages[1].references.is_empty());
}

#[test]
fn spdx_document_describes_list() {
    let mut doc = two_packages();
    doc.relationships = vec![];
    doc.document_describes = vec!["SPDXRef-B".to_string()];
    let ingest = SbomContext { sbom_id: 7 }.ingest_spdx(&doc).unwrap();
    assert_eq!(
        edge(&ingest.relationships[0]),
        ("SPDXRef-B".to_string(), Relationship::DescribedBy, "SPDXRef-DOCUMENT".to_string())
    );
    assert_eq!(ingest.products.len(), 1);
    assert_eq!(ingest.products[0].name, "b");
}

#[test]
fn spdx_invalid_reference() {
    let mut doc = two_packages();
    doc.relationships.push(relation("SPDXRef-A", RelationshipType::DependsOn, "SPDXRef-MISSING"));
    match (SbomContext { sbom_id: 7 }).ingest_spdx(&doc) {
        Err(IngestError::InvalidReference(id)) => assert_eq!(id, "SPDXRef-MISSING"),
        Ok(_) => panic!("a dangling reference was accepted"),
    }
}

#[test]
fn spdx_files_are_nodes() {
    let mut doc = two_packages();
    doc.file_information.push(FileInformation {
        file_spdx_identifier: "SPDXRef-F".to_string(),
        file_name: "README".to_string(),
    });
    doc.relationships.push(relation("SPDXRef-F", RelationshipType::GeneratedFrom, "SPDXRef-B"));
    let ingest = SbomContext { sbom_id: 7 }.ingest_spdx(&doc).unwrap();
    assert_eq!(ingest.files.len(), 1);
    assert_eq!(ingest.files[0].name, "README");
    assert_eq!(ingest.relationships.len(), 3);
}

#[test]
fn spdx_unknown_kind_dropped() {
    let mut doc = two_packages();
    doc.relationships.push(relation("SPDXRef-A", RelationshipType::Other, "SPDXRef-NOWHERE"));
    let ingest = SbomContext { sbom_id: 7 }.ingest_spdx(&doc).unwrap();
    assert_eq!(ingest.relationships.len(), 2);
}

#[test]
fn spdx_relationship_directions() {
    let cases = [
        (RelationshipType::Contains, Relationship::ContainedBy, true),
        (RelationshipType::ContainedBy, Relationship::ContainedBy, false),
        (RelationshipType::Describes, Relationship::DescribedBy, true),
        (RelationshipType::DependsOn, Relationship::DependencyOf, true),
        (RelationshipType::DependencyOf, Relationship::DependencyOf, false),
        (RelationshipType::Generates, Relationship::GeneratedFrom, true),
        (RelationshipType::DescendantOf, Relationship::AncestorOf, true),
        (RelationshipType::AncestorOf, Relationship::AncestorOf, false),
        (RelationshipType::DevToolOf, Relationship::DevToolOf, false),
    ];
    for (kind, expected, swapped) in cases {
        let r = SpdxRelationship::try_from("l", kind, "r").unwrap();
        assert_eq!(r.1, expected);
        if swapped {
            assert_eq!((r.0.as_str(), r.2.as_str()), ("r", "l"));
        } else {
            assert_eq!((r.0.as_str(), r.2.as_str()), ("l", "r"));
        }
    }
    assert!(SpdxRelationship::try_from("l", RelationshipType::Other, "r").is_err());
}

#[test]
fn spdx_license_repair() {
    let mut report = Report::new();
    let declared = vec![
        Some("GPL-2.0+ WITH broken+".to_string()),
        Some("MIT OR Apache-2.0".to_string()),
        None,
    ];
    let (fixed, changed) = fix_license(&mut report, declared);
    assert!(changed);
    assert_eq!(
        fixed,
        vec![Some("NOASSERTION".to_string()), Some("MIT OR Apache-2.0".to_string()), None]
    );
    assert_eq!(report.warnings.len(), 1);
    assert!(report.warnings[0].contains("GPL-2.0+ WITH broken+"));
    assert!(report.errors.is_empty());
}

#[test]
fn spdx_license_all_valid() {
    let mut report = Report::new();
    let (fixed, changed) = fix_license(&mut report, vec![Some("MIT".to_string())]);
    assert!(!changed);
    assert_eq!(fixed, vec![Some("MIT".to_string())]);
    assert!(report.warnings.is_empty());
}

#[test]
fn spdx_sbom_information() {
    let info = SbomInformation::from(&two_packages());
    assert_eq!(info.node_id, "SPDXRef-DOCUMENT");
    assert_eq!(info.name, "doc");
    assert_eq!(info.published, Some(1_700_000_000));
    assert_eq!(info.authors, vec!["Tool: example".to_string()]);
}

#[test]
fn spdx_ingest_keeps_sbom_id() {
    let ingest = SbomContext { sbom_id: 42 }.ingest_spdx(&two_packages()).unwrap();
    assert_eq!(ingest.sbom_id, 42);
}

#[test]
fn spdx_shared_purl_gathered_once() {
    let mut doc = two_packages();
    doc.package_information[1] = package("SPDXRef-B", "b", Some("2.0"), Some("pkg:npm/a@1.0"));
    doc.package_information[1].external_reference.push(ExternalReference {
        reference_type: "cpe22Type".to_string(),
        reference_locator: "cpe:/a:acme:a:1.0".to_string(),
    });
    doc.package_information[1].external_reference.push(ExternalReference {
        reference_type: "purl".to_string(),
        reference_locator: "not a purl".to_string(),
    });
    let ingest = (SbomContext { sbom_id: 1 }).ingest_spdx(&doc).unwrap();
    let cpe = Cpe::from_str("cpe:/a:acme:a:1.0").unwrap();
    assert_eq!(ingest.packages[1].references[0], ingest.packages[0].references[0]);
    assert_eq!(ingest.packages[1].references[1], PackageReference::Cpe(cpe.id));
    assert_eq!(ingest.packages[1].references.len(), 2);
    assert_eq!(ingest.purls.len(), 1);
    assert_eq!(ingest.cpes.len(), 1);
    assert_eq!(ingest.cpes[0].canonical, cpe.canonical);
}

#[test]
fn spdx_license_unterminated_document_ref() {
    let mut report = Report::new();
    let declared = vec![
        Some("DocumentRef-x".to_string()),
        Some("MIT AND DocumentRef-x".to_string()),
        Some("MIT ANDDocumentRef-spdx-1.2".to_string()),
        Some("DocumentRef-x:LicenseRef-y".to_string()),
        Some("NOASSERTION".to_string()),
        Some("NONE".to_string()),
    ];
    let (fixed, changed) = fix_license(&mut report, declared);
    assert!(changed);
    assert_eq!(fixed[0], Some("NOASSERTION".to_string()));
    assert_eq!(fixed[1], Some("NOASSERTION".to_string()));
    assert_eq!(fixed[2], Some("NOASSERTION".to_string()));
    assert_eq!(fixed[3], Some("DocumentRef-x:LicenseRef-y".to_string()));
    assert_eq!(fixed[4], Some("NOASSERTION".to_string()));
    assert_eq!(fixed[5], Some("NONE".to_string()));
    assert_eq!(report.warnings.len(), 3);
    assert!(report.warnings[1].contains("MIT AND DocumentRef-x"));
}
