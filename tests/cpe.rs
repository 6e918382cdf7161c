use trustify::cpe::Cpe;
use trustify::purl::NAMESPACE;

#[test]
fn cpe_parse_and_identifier() {
    let cpe = Cpe::from_str("cpe:/a:redhat:openshift:4.15").unwrap();
    assert_eq!(cpe.canonical, "cpe:/a:redhat:openshift:4.15:*:*:*");
    let expected = uuid::Uuid::new_v5(&uuid::Uuid::from_u128(NAMESPACE), cpe.canonical.as_bytes());
    assert_eq!(cpe.id, expected.as_u128());
    let same = Cpe::from_str("cpe:/a:redhat:openshift:4.15::").unwrap();
    assert_eq!(same.id, cpe.id);
    let other = Cpe::from_str("cpe:/a:redhat:openshift:4.16").unwrap();
    assert_ne!(other.id, cpe.id);
}

#[test]
fn cpe_invalid() {
    assert!(Cpe::from_str("not a cpe").is_none());
    assert!(Cpe::from_str("pkg:npm/a@1").is_none());
}
