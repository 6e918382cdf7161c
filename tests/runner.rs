use trustify::model::{CommonImporter, ImporterConfiguration, SbomImporter};
use trustify::runner::{due_importers, is_due, last_error, RunOutcome};
use trustify::service::ImporterService;

fn config(disabled: bool) -> ImporterConfiguration {
    ImporterConfiguration::Sbom(SbomImporter {
        common: CommonImporter { disabled, period: 60 },
        source: "https://example.com".to_string(),
        keys: vec![],
        v3_signatures: false,
        only_patterns: vec![],
    })
}

#[test]
fn runner_due_selection() {
    let mut s = ImporterService::new();
    s.create("never-ran".to_string(), config(false), 0, "a0".to_string()).unwrap();
    s.create("disabled".to_string(), config(true), 0, "b0".to_string()).unwrap();
    s.create("recent".to_string(), config(false), 0, "c0".to_string()).unwrap();
    s.create("running".to_string(), config(false), 0, "d0".to_string()).unwrap();
    s.update_finish("recent", None, 100, None, None, 100, "c1".to_string(), "r".to_string()).unwrap();
    s.update_start("running", None, 100, "d1".to_string()).unwrap();
    assert_eq!(due_importers(&s, 120), vec![0]);
    assert_eq!(due_importers(&s, 160), vec![0, 2]);
    assert!(!is_due(&s.read("disabled").unwrap().value, i64::MAX));
}

#[test]
fn runner_due_at_extreme_times() {
    let mut s = ImporterService::new();
    s.create("x".to_string(), config(false), 0, "a0".to_string()).unwrap();
    s.update_finish("x", None, i64::MAX, None, None, 0, "a1".to_string(), "r".to_string()).unwrap();
    assert!(!is_due(&s.read("x").unwrap().value, i64::MAX));
}

#[test]
fn runner_last_error() {
    assert_eq!(last_error(RunOutcome::Succeeded), None);
    assert_eq!(last_error(RunOutcome::Failed("boom".to_string())), Some("boom".to_string()));
    assert_eq!(
        last_error(RunOutcome::Panicked("index out of bounds".to_string())),
        Some("panic: index out of bounds".to_string())
    );
    assert_eq!(last_error(RunOutcome::Cancelled), Some("cancelled".to_string()));
}
