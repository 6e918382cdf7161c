use trustify::creator::PurlCreator;
use trustify::purl::Purl;

#[test]
fn creator_dedupes_and_builds_rows() {
    let mut c = PurlCreator::new();
    c.add(Purl::from_str("pkg:npm/a@1.0?x=1").unwrap());
    c.add(Purl::from_str("pkg:npm/a@1.0?x=1").unwrap());
    c.add(Purl::from_str("pkg:npm/a@1.0?x=2").unwrap());
    c.add(Purl::from_str("pkg:npm/a@2.0").unwrap());
    c.add(Purl::from_str("pkg:npm/b@2.0").unwrap());
    assert_eq!(c.len(), 4);
    let (packages, versions, qualified) = c.rows();
    assert_eq!(packages.len(), 2);
    assert_eq!(packages[0].name, "a");
    assert_eq!(packages[1].name, "b");
    assert_eq!(versions.len(), 3);
    assert_eq!(versions[0].version, Some("1.0".to_string()));
    assert_eq!(versions[0].package, packages[0].id);
    assert_eq!(versions[2].package, packages[1].id);
    assert_eq!(qualified.len(), 4);
    assert_eq!(qualified[0].version, versions[0].id);
    assert_eq!(qualified[1].version, versions[0].id);
    assert_ne!(qualified[0].id, qualified[1].id);
    assert_eq!(qualified[1].qualifiers, vec![("x".to_string(), "2".to_string())]);
    assert_eq!(qualified[0].id, c.purls[0].qualifier_uuid());
}
