use typelude_tooling::error::AnalysisError;
use typelude_tooling::profile::{SelfProfileCollector, SelfProfileConfig};

#[test]
fn picks_self_profile_data_files() {
    let config = SelfProfileConfig { root: String::from("/tmp/prof") };
    assert_eq!(config.root, "/tmp/prof");
    let files = vec![
        String::from("/tmp/prof/sample.mm_profdata"),
        String::from("/tmp/prof/notes.txt"),
        String::from("/tmp/prof/nested/run.mm_profraw"),
        String::from("/tmp/prof/.mm_profdata"),
        String::from("/tmp/prof.mm_profdata/readme"),
    ];
    let artifacts = SelfProfileCollector::new().collect(&files);
    assert_eq!(
        artifacts,
        vec![String::from("/tmp/prof/sample.mm_profdata"), String::from("/tmp/prof/nested/run.mm_profraw")]
    );
    assert_eq!(SelfProfileCollector::new().collect(&Vec::new()), Vec::<String>::new());
}

#[test]
fn analysis_errors_show_their_message() {
    let error = AnalysisError::new(String::from("owner not found"));
    assert_eq!(error.message(), "owner not found");
    assert_eq!(error.clone(), error);
}
