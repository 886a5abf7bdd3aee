use hoplite::source_files::{
    check_source_root_kind, check_source_root_place, classify_source_entry, excluded_path, excluded_paths,
    generated_output, join, EntryAction, EntryKind,
};

fn excluded() -> Vec<String> {
    excluded_paths("/work/demo", &vec!["dist".to_string(), "/abs/out".to_string()], Some("target/runtime"))
}

#[test]
fn excluded_paths_join_the_project_root() {
    assert_eq!(
        excluded(),
        vec![
            "/work/demo/.hoplite".to_string(),
            "/work/demo/dist".to_string(),
            "/abs/out".to_string(),
            "/work/demo/target/runtime".to_string(),
        ]
    );
    assert_eq!(join("/", "src"), "/src");
    assert_eq!(excluded_paths("/p", &Vec::new(), None), vec!["/p/.hoplite".to_string()]);
}

#[test]
fn exclusion_goes_by_whole_components() {
    let paths = excluded();
    assert!(excluded_path("/work/demo/dist", &paths));
    assert!(excluded_path("/work/demo/dist/app.hal", &paths));
    assert!(!excluded_path("/work/demo/distribution/app.hal", &paths));
    assert!(excluded_path("/abs/out/x", &paths));
    assert!(!excluded_path("/work/demo/src/app.hal", &paths));
}

#[test]
fn generated_output_is_found_below_the_root() {
    assert!(generated_output("/work/demo", "/work/demo/.hoplite/nested"));
    assert!(generated_output("/work/demo", "/work/demo/src/.hoplite"));
    assert!(!generated_output("/work/demo", "/work/demo/src/.hoplite-notes"));
    assert!(!generated_output("/work/demo", "/work/demo/src"));
    assert!(generated_output("/work/demo", "/elsewhere/.hoplite/x"));
}

#[test]
fn discovery_skips_generated_output_before_descent() {
    let paths = excluded();
    assert_eq!(
        classify_source_entry("/work/demo/.hoplite", ".hoplite", EntryKind::Directory, &paths),
        Ok(EntryAction::Skip)
    );
    assert_eq!(
        classify_source_entry("/work/demo/app.hal", "app.hal", EntryKind::File, &paths),
        Ok(EntryAction::Source)
    );
    assert_eq!(
        classify_source_entry("/work/demo/src", "src", EntryKind::Directory, &paths),
        Ok(EntryAction::Descend)
    );
}

#[test]
fn discovery_ignores_editor_artifacts() {
    let paths = excluded();
    for name in [".#core.hal", "#core.hal#"] {
        let path = format!("/work/demo/src/demo/{name}");
        assert_eq!(classify_source_entry(&path, name, EntryKind::File, &paths), Ok(EntryAction::Skip));
    }
    assert_eq!(
        classify_source_entry("/work/demo/src/demo/core.hal", "core.hal", EntryKind::File, &paths),
        Ok(EntryAction::Source)
    );
}

#[test]
fn only_files_with_the_hal_extension_are_sources() {
    let paths = excluded();
    assert_eq!(classify_source_entry("/work/demo/.hal", ".hal", EntryKind::File, &paths), Ok(EntryAction::Skip));
    assert_eq!(classify_source_entry("/work/demo/a.txt", "a.txt", EntryKind::File, &paths), Ok(EntryAction::Skip));
    assert_eq!(classify_source_entry("/work/demo/a.b.hal", "a.b.hal", EntryKind::File, &paths), Ok(EntryAction::Source));
    assert_eq!(classify_source_entry("/work/demo/fifo.hal", "fifo.hal", EntryKind::Other, &paths), Ok(EntryAction::Skip));
}

#[test]
fn discovery_refuses_symlinks() {
    let paths = excluded();
    assert_eq!(
        classify_source_entry("/work/demo/src/link", "link", EntryKind::Symlink, &paths),
        Err("application source discovery does not follow symlinks: /work/demo/src/link".to_string())
    );
    assert_eq!(
        classify_source_entry("/work/demo/dist/link", "link", EntryKind::Symlink, &paths),
        Ok(EntryAction::Skip)
    );
}

#[test]
fn source_roots_must_be_plain_directories() {
    assert_eq!(check_source_root_kind("/work/demo/src", EntryKind::Directory), Ok(()));
    assert_eq!(
        check_source_root_kind("/work/demo/src", EntryKind::Symlink),
        Err("application source root cannot be a symlink: /work/demo/src".to_string())
    );
    assert_eq!(
        check_source_root_kind("/work/demo/app.hal", EntryKind::File),
        Err("application source root is not a directory: /work/demo/app.hal".to_string())
    );
}

#[test]
fn source_roots_stay_inside_the_project_and_outside_generated_output() {
    let paths = excluded();
    assert_eq!(check_source_root_place("/work/demo/src", "src", "/work/demo/src", "/work/demo", &paths), Ok(()));
    assert_eq!(
        check_source_root_place("/work/demo/up", "up", "/work/other", "/work/demo", &paths),
        Err("application source root escapes the project: /work/demo/up".to_string())
    );
    assert_eq!(
        check_source_root_place("/work/demo/.hoplite", ".hoplite", "/work/demo/.hoplite", "/work/demo", &paths),
        Err("project source path \".hoplite\" points inside generated output".to_string())
    );
    assert_eq!(
        check_source_root_place("/work/demo/dist", "dist", "/work/demo/dist", "/work/demo", &paths),
        Err("project source path \"dist\" points inside generated output".to_string())
    );
}
