use trustify::model::{CommonImporter, ImporterConfiguration, SbomImporter, State};
use trustify::service::{ImporterService, Paginated, ServiceError};

fn config(source: &str) -> ImporterConfiguration {
    ImporterConfiguration::Sbom(SbomImporter {
        common: CommonImporter { disabled: false, period: 300 },
        source: source.to_string(),
        keys: vec![],
        v3_signatures: false,
        only_patterns: vec![],
    })
}

#[test]
fn importer_create_and_read() {
    let mut s = ImporterService::new();
    s.create("foo".to_string(), config("https://example.com"), 10, "r0".to_string()).unwrap();
    let row = s.read("foo").unwrap();
    assert_eq!(row.revision, "r0");
    assert_eq!(row.value.data.state, State::Waiting);
    assert_eq!(row.value.data.last_change, 10);
    assert_eq!(row.value.data.configuration.common().period, 300);
    assert!(s.read("bar").is_none());
    assert!(matches!(
        s.create("foo".to_string(), config("x"), 11, "r1".to_string()),
        Err(ServiceError::AlreadyExists(n)) if n == "foo"
    ));
    assert_eq!(s.list().len(), 1);
}

#[test]
fn importer_mid_air_collision() {
    let mut s = ImporterService::new();
    s.create("foo".to_string(), config("a"), 10, "r0".to_string()).unwrap();
    let first = s.update_configuration("foo", Some("r0"), config("b"), "r1".to_string());
    let second = s.update_configuration("foo", Some("r0"), config("c"), "r2".to_string());
    assert!(first.is_ok());
    assert!(matches!(second, Err(ServiceError::MidAirCollision)));
    let row = s.read("foo").unwrap();
    assert_eq!(row.revision, "r1");
    match &row.value.data.configuration {
        ImporterConfiguration::Sbom(sbom) => assert_eq!(sbom.source, "b"),
    }
}

#[test]
fn importer_not_found() {
    let mut s = ImporterService::new();
    assert!(matches!(
        s.update_start("nope", None, 1, "r".to_string()),
        Err(ServiceError::NotFound(n)) if n == "nope"
    ));
    assert!(!s.delete("nope", None));
}

#[test]
fn importer_lifecycle() {
    let mut s = ImporterService::new();
    s.create("foo".to_string(), config("a"), 10, "r0".to_string()).unwrap();
    s.update_start("foo", Some("r0"), 20, "r1".to_string()).unwrap();
    assert_eq!(s.read("foo").unwrap().value.data.state, State::Running);
    s.update_finish("foo", Some("r1"), 30, None, Some("{}".to_string()), 30, "r2".to_string(), "rep-1".to_string())
        .unwrap();
    let row = s.read("foo").unwrap();
    let data = &row.value.data;
    assert_eq!(data.state, State::Waiting);
    assert_eq!(data.last_success, Some(30));
    assert_eq!(data.last_run, Some(30));
    assert_eq!(data.last_change, 30);
    assert_eq!(data.last_error, None);
    assert_eq!(row.revision, "r2");
    let reports = s.get_reports("foo", Paginated { offset: 0, limit: 0 });
    assert_eq!(reports.total, 1);
    assert_eq!(reports.items[0].creation, 30);
    assert_eq!(reports.items[0].id, "rep-1");
}

#[test]
fn importer_failed_run_keeps_last_success() {
    let mut s = ImporterService::new();
    s.create("foo".to_string(), config("a"), 10, "r0".to_string()).unwrap();
    s.update_finish("foo", None, 15, None, None, 15, "r1".to_string(), "x".to_string()).unwrap();
    s.update_finish("foo", None, 25, Some("boom".to_string()), Some("{}".to_string()), 26, "r2".to_string(), "y".to_string())
        .unwrap();
    let data = &s.read("foo").unwrap().value.data;
    assert_eq!(data.last_success, Some(15));
    assert_eq!(data.last_run, Some(25));
    assert_eq!(data.last_error, Some("boom".to_string()));
    let reports = s.get_reports("foo", Paginated { offset: 0, limit: 10 });
    assert_eq!(reports.total, 1);
    assert_eq!(reports.items[0].error, Some("boom".to_string()));
}

#[test]
fn importer_reports_newest_first_and_paged() {
    let mut s = ImporterService::new();
    s.create("foo".to_string(), config("a"), 0, "r0".to_string()).unwrap();
    s.create("bar".to_string(), config("b"), 0, "q0".to_string()).unwrap();
    s.update_finish("foo", None, 1, None, Some("1".to_string()), 5, "r1".to_string(), "a".to_string()).unwrap();
    s.update_finish("bar", None, 1, None, Some("2".to_string()), 7, "q1".to_string(), "b".to_string()).unwrap();
    s.update_finish("foo", None, 1, None, Some("3".to_string()), 9, "r2".to_string(), "c".to_string()).unwrap();
    s.update_finish("foo", None, 1, None, Some("4".to_string()), 3, "r3".to_string(), "d".to_string()).unwrap();
    let all = s.get_reports("foo", Paginated { offset: 0, limit: 0 });
    let ids: Vec<&str> = all.items.iter().map(|r| r.id.as_str()).collect();
    assert_eq!(ids, vec!["c", "a", "d"]);
    let page = s.get_reports("foo", Paginated { offset: 1, limit: 1 });
    assert_eq!(page.total, 3);
    assert_eq!(page.items.len(), 1);
    assert_eq!(page.items[0].id, "a");
    assert!(s.get_reports("foo", Paginated { offset: 5, limit: 1 }).items.is_empty());
}

#[test]
fn importer_delete_cascades() {
    let mut s = ImporterService::new();
    s.create("foo".to_string(), config("a"), 0, "r0".to_string()).unwrap();
    s.create("bar".to_string(), config("b"), 0, "q0".to_string()).unwrap();
    s.update_finish("foo", None, 1, None, Some("1".to_string()), 5, "r1".to_string(), "a".to_string()).unwrap();
    s.update_finish("bar", None, 1, None, Some("2".to_string()), 6, "q1".to_string(), "b".to_string()).unwrap();
    assert!(!s.delete("foo", Some("r0")));
    assert!(s.delete("foo", Some("r1")));
    assert!(s.read("foo").is_none());
    assert_eq!(s.get_reports("foo", Paginated { offset: 0, limit: 0 }).total, 0);
    assert_eq!(s.get_reports("bar", Paginated { offset: 0, limit: 0 }).total, 1);
    assert_eq!(s.list().len(), 1);
}

#[test]
fn importer_error_status_codes() {
    assert_eq!(ServiceError::AlreadyExists("x".to_string()).status_code(), 409);
    assert_eq!(ServiceError::NotFound("x".to_string()).status_code(), 404);
    assert_eq!(ServiceError::MidAirCollision.status_code(), 412);
}
