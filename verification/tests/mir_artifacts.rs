use typelude_tooling::mir_artifacts::{path_extension, MirArtifactCollector};

#[test]
fn sorts_mir_and_dot_files() {
    let files = vec![
        String::from("/tmp/out/a.mir"),
        String::from("/tmp/out/nested/b.dot"),
        String::from("/tmp/out/c.txt"),
        String::from("/tmp/out/.mir"),
        String::from("/tmp/x.y/d.mir"),
    ];
    let report = MirArtifactCollector::new().collect(&files);
    assert_eq!(report.mir_files, vec![String::from("/tmp/out/a.mir"), String::from("/tmp/x.y/d.mir")]);
    assert_eq!(report.dot_files, vec![String::from("/tmp/out/nested/b.dot")]);
}

#[test]
fn extensions_follow_the_last_dot_of_the_file_name() {
    assert_eq!(path_extension("dir/archive.tar.gz"), Some(String::from("gz")));
    assert_eq!(path_extension("dir.d/README"), None);
    assert_eq!(path_extension(".hidden"), None);
    assert_eq!(path_extension("name."), Some(String::new()));
}
