use sapphillon::errors::WorkflowError;
use sapphillon::store::{ExtPluginStore, StoredFile};

fn new_store() -> ExtPluginStore {
    ExtPluginStore::new("/plugins".to_string())
}

#[test]
fn test_install_and_uninstall_ext_plugin() {
    let mut store = new_store();

    let plugin_id = store
        .install_ext_plugin(
            "test-author",
            "test-package",
            "1.0.0",
            "console.log('hello');",
            None,
        )
        .unwrap();
    assert_eq!(plugin_id, "test-author/test-package/1.0.0");

    // The bundle file exists under the three-level layout.
    assert!(store
        .files
        .iter()
        .any(|f| f.path == "/plugins/test-author/test-package/1.0.0/package.js"));
    // The row is registered.
    assert!(store
        .rows
        .iter()
        .any(|r| r.plugin_package_id == plugin_id));

    store.uninstall_ext_plugin(&plugin_id).unwrap();

    assert!(!store
        .files
        .iter()
        .any(|f| f.path == "/plugins/test-author/test-package/1.0.0/package.js"));
    assert!(!store.rows.iter().any(|r| r.plugin_package_id == plugin_id));
}

#[test]
fn test_install_already_exists() {
    let mut store = new_store();
    store
        .install_ext_plugin("author", "pkg", "1.0.0", "content", None)
        .unwrap();

    let files_before: Vec<(String, String)> = store
        .files
        .iter()
        .map(|f| (f.path.clone(), f.content.clone()))
        .collect();
    let rows_before: Vec<String> = store
        .rows
        .iter()
        .map(|r| r.plugin_package_id.clone())
        .collect();

    let result = store.install_ext_plugin("author", "pkg", "1.0.0", "new content", None);
    assert!(matches!(result, Err(WorkflowError::AlreadyInstalled(_))));

    // Filesystem and database state are unchanged from the first call.
    let files_after: Vec<(String, String)> = store
        .files
        .iter()
        .map(|f| (f.path.clone(), f.content.clone()))
        .collect();
    let rows_after: Vec<String> = store
        .rows
        .iter()
        .map(|r| r.plugin_package_id.clone())
        .collect();
    assert_eq!(files_before, files_after);
    assert_eq!(rows_before, rows_after);
}

#[test]
fn test_scan_ext_plugin_dir() {
    let mut store = new_store();
    store
        .install_ext_plugin("author1", "pkg1", "1.0.0", "content1", None)
        .unwrap();
    store
        .install_ext_plugin("author2", "pkg2", "2.0.0", "content2", None)
        .unwrap();
    // An incomplete install: a directory tree without a package.js.
    store.files.push(StoredFile {
        path: "/plugins/author3/pkg3/3.0.0/notes.txt".to_string(),
        content: "not a bundle".to_string(),
    });

    let found = store.scan_ext_plugin_dir();
    assert_eq!(found.len(), 2);
    assert!(found.iter().any(|id| id == "author1/pkg1/1.0.0"));
    assert!(found.iter().any(|id| id == "author2/pkg2/2.0.0"));
    assert!(!found.iter().any(|id| id == "author3/pkg3/3.0.0"));
}

#[test]
fn test_scan_empty_dir() {
    let store = new_store();
    assert!(store.scan_ext_plugin_dir().is_empty());
}

#[test]
fn test_scan_nonexistent_dir() {
    let store = ExtPluginStore::new("/nonexistent/path/12345".to_string());
    let found = store.scan_ext_plugin_dir();
    assert!(found.is_empty());
}

#[test]
fn scan_round_trip_through_install_and_uninstall() {
    let mut store = new_store();
    let id = store
        .install_ext_plugin("acme", "tools", "1.0.0", "functions: { ping: {} }", Some("{}"))
        .unwrap();
    assert!(store.scan_ext_plugin_dir().iter().any(|x| *x == id));

    store.uninstall_ext_plugin(&id).unwrap();
    assert!(!store.scan_ext_plugin_dir().iter().any(|x| *x == id));
}

#[test]
fn uninstall_then_reinstall_reproduces_identical_state() {
    let mut store = new_store();
    store
        .install_ext_plugin("a", "p", "1.0.0", "bundle text", Some("{\"k\":1}"))
        .unwrap();
    let files_once: Vec<(String, String)> = store
        .files
        .iter()
        .map(|f| (f.path.clone(), f.content.clone()))
        .collect();
    let rows_once: Vec<(String, String, bool)> = store
        .rows
        .iter()
        .map(|r| (r.plugin_package_id.clone(), r.install_dir.clone(), r.missing))
        .collect();

    store.uninstall_ext_plugin("a/p/1.0.0").unwrap();
    store
        .install_ext_plugin("a", "p", "1.0.0", "bundle text", Some("{\"k\":1}"))
        .unwrap();

    let files_again: Vec<(String, String)> = store
        .files
        .iter()
        .map(|f| (f.path.clone(), f.content.clone()))
        .collect();
    let rows_again: Vec<(String, String, bool)> = store
        .rows
        .iter()
        .map(|r| (r.plugin_package_id.clone(), r.install_dir.clone(), r.missing))
        .collect();
    assert_eq!(files_once, files_again);
    assert_eq!(rows_once, rows_again);
}

#[test]
fn uninstall_unknown_plugin_reports_not_found() {
    let mut store = new_store();
    let result = store.uninstall_ext_plugin("no/such/plugin");
    assert!(matches!(result, Err(WorkflowError::NotFound(_))));
}

#[test]
fn uninstall_leaves_other_plugins_in_place() {
    let mut store = new_store();
    store
        .install_ext_plugin("a", "one", "1.0.0", "first", None)
        .unwrap();
    store
        .install_ext_plugin("a", "two", "1.0.0", "second", None)
        .unwrap();
    store.uninstall_ext_plugin("a/one/1.0.0").unwrap();

    let found = store.scan_ext_plugin_dir();
    assert_eq!(found.len(), 1);
    assert!(found.iter().any(|id| id == "a/two/1.0.0"));
}
