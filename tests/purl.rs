use trustify::purl::{Purl, PurlErr, NAMESPACE};

#[test]
fn purl_serde() {
    let purl = Purl::from_str("pkg://maven/io.quarkus/quarkus-core@1.2.3?foo=bar").unwrap();
    assert_eq!("maven", purl.ty);
    assert_eq!(Some("io.quarkus".to_string()), purl.namespace);
    assert_eq!("quarkus-core", purl.name);
    assert_eq!(Some("1.2.3".to_string()), purl.version);
    assert_eq!(purl.qualifiers, vec![("foo".to_string(), "bar".to_string())]);
    assert_eq!(
        purl.to_string(),
        "pkg://maven/io.quarkus/quarkus-core@1.2.3?foo=bar"
    );
}

#[test]
fn purl_render_round_trip() {
    let s = "pkg://maven/io.quarkus/quarkus-core@1.2.3?foo=bar";
    let purl = Purl::from_str(s).unwrap();
    let again = Purl::from_str(&purl.to_string()).unwrap();
    assert_eq!(again.to_string(), s);
    assert_eq!(again.uuids(), purl.uuids());
}

#[test]
fn purl_qualifiers_sorted_when_rendered() {
    let purl = Purl::from_str("pkg:maven/g/a@1?type=jar&classifier=sources").unwrap();
    assert_eq!(
        purl.qualifiers,
        vec![
            ("classifier".to_string(), "sources".to_string()),
            ("type".to_string(), "jar".to_string())
        ]
    );
    assert_eq!(purl.to_string(), "pkg://maven/g/a@1?classifier=sources&type=jar");
}

#[test]
fn purl_qualifier_order_irrelevant() {
    let a = Purl::from_str("pkg:npm/left-pad@1.0.0?a=1&b=2&c=3").unwrap();
    let b = Purl::from_str("pkg:npm/left-pad@1.0.0?c=3&a=1&b=2").unwrap();
    assert_eq!(a.qualifier_uuid(), b.qualifier_uuid());
    assert_eq!(a.uuids(), b.uuids());
}

#[test]
fn purl_from_parts_orders_and_replaces() {
    let p = Purl::from_parts(
        "cargo".to_string(),
        None,
        "serde".to_string(),
        Some("1.0".to_string()),
        vec![
            ("z".to_string(), "1".to_string()),
            ("a".to_string(), "2".to_string()),
            ("z".to_string(), "3".to_string()),
        ],
    );
    assert_eq!(
        p.qualifiers,
        vec![("a".to_string(), "2".to_string()), ("z".to_string(), "3".to_string())]
    );
    assert_eq!(p.to_string(), "pkg://cargo/serde@1.0?a=2&z=3");
}

#[test]
fn purl_without_namespace_or_version() {
    let p = Purl::from_parts("generic".to_string(), None, "thing".to_string(), None, vec![]);
    assert_eq!(p.to_string(), "pkg://generic/thing");
}

#[test]
fn purl_invalid_is_error() {
    assert!(matches!(Purl::from_str("not a purl"), Err(PurlErr::Package(_))));
    assert!(matches!(Purl::from_str("http://maven/a/b"), Err(PurlErr::Package(_))));
}

#[test]
fn purl_uuids_follow_v5_chain() {
    let p = Purl::from_str("pkg://maven/io.quarkus/quarkus-core@1.2.3?foo=bar").unwrap();
    let ns = uuid::Uuid::from_u128(NAMESPACE);
    let ty = uuid::Uuid::new_v5(&ns, b"maven");
    let namespace = uuid::Uuid::new_v5(&ty, b"io.quarkus");
    let package = uuid::Uuid::new_v5(&namespace, b"quarkus-core");
    let version = uuid::Uuid::new_v5(&package, b"1.2.3");
    let key = uuid::Uuid::new_v5(&version, b"foo");
    let qualified = uuid::Uuid::new_v5(&key, b"bar");
    assert_eq!(p.package_uuid(), package.as_u128());
    assert_eq!(p.version_uuid(), version.as_u128());
    assert_eq!(p.qualifier_uuid(), qualified.as_u128());
    assert_eq!(
        p.uuids(),
        (package.as_u128(), version.as_u128(), qualified.as_u128())
    );
    assert_ne!(p.package_uuid(), NAMESPACE);
}

#[test]
fn purl_namespace_constant() {
    assert_eq!(
        uuid::Uuid::from_u128(NAMESPACE).as_bytes(),
        &[0x37, 0x38, 0xb4, 0x3d, 0xfd, 0x03, 0x4a, 0x9d, 0x84, 0x9c, 0x48, 0x9b, 0xec, 0x61, 0x0f, 0x06]
    );
}

#[test]
fn purl_missing_version_uses_empty_name() {
    let p = Purl::from_parts("npm".to_string(), None, "x".to_string(), None, vec![]);
    let expected = uuid::Uuid::new_v5(&uuid::Uuid::from_u128(p.package_uuid()), b"");
    assert_eq!(p.version_uuid(), expected.as_u128());
    assert_eq!(p.qualifier_uuid(), p.version_uuid());
}
