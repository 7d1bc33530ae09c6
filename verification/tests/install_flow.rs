//! Installing plugins from package bytes: happy path, boundary errors, and
//! the identity of what ends up in the table.

use std::io::Write;

use atom_node::errors::AppError;
use atom_node::models::PluginType;
use atom_node::plugin_service::PluginService;
use atom_node::store::PluginRepository;

const ROOT: &str = "/srv/atom";

fn make_zip(files: &[(&str, &str)]) -> Vec<u8> {
    let cursor = std::io::Cursor::new(Vec::new());
    let mut writer = zip::ZipWriter::new(cursor);
    let options = zip::write::SimpleFileOptions::default();
    for (name, contents) in files {
        writer.start_file(*name, options).expect("start member");
        writer.write_all(contents.as_bytes()).expect("write member");
    }
    writer.finish().expect("finish archive").into_inner()
}

fn service() -> PluginService {
    PluginService::new(PluginRepository::new())
}

const HELLO_METADATA: &str = "{\"name\":\"hello\",\"version\":\"1.0.0\",\"plugin_type\":\"javascript\",\"description\":\"\",\"author\":\"\",\"entry_point\":\"index.js\"}";

#[test]
fn installs_a_javascript_plugin() {
    let bytes = make_zip(&[("metadata.json", HELLO_METADATA), ("index.js", "console.log('hi')")]);
    let mut svc = service();
    let (plugin, plan) = svc
        .install_plugin_from_bytes(bytes, "internal-1".to_string(), 1000, ROOT)
        .expect("installs");
    assert_eq!(plugin.plugin_id, "hello");
    assert_eq!(plugin.name, "hello");
    assert_eq!(plugin.version, "1.0.0");
    assert_eq!(plugin.plugin_type, PluginType::JavaScript);
    assert_eq!(plugin.entry_point, "index.js");
    assert!(plugin.enabled);
    assert_eq!(plugin.created_at, 1000);
    assert_eq!(plugin.plugin_path, "/srv/atom/plugins/hello");
    assert!(plugin.python_venv_path.is_none());
    assert_eq!(plan.plugin_dir, "/srv/atom/plugins/hello");
    assert_eq!(plan.extract.len(), 2);
    for step in &plan.extract {
        assert!(step.path.starts_with("/srv/atom/plugins/hello/"));
    }
    assert!(svc.get_plugin("hello").is_ok());
}

#[test]
fn install_takes_metadata_in_a_subdirectory() {
    let bytes = make_zip(&[
        ("pkg/metadata.json", HELLO_METADATA),
        ("pkg/index.js", "console.log('hi')"),
    ]);
    let mut svc = service();
    let (plugin, _) = svc
        .install_plugin_from_bytes(bytes, "internal-1".to_string(), 1000, ROOT)
        .expect("installs");
    assert_eq!(plugin.entry_point, "pkg/index.js");
}

#[test]
fn python_plugin_gets_an_environment_and_dependencies() {
    let metadata = "{\"name\":\"py\",\"version\":\"0.1.0\",\"plugin_type\":\"python\",\"description\":\"\",\"author\":\"\",\"entry_point\":\"main.py\"}";
    let bytes = make_zip(&[
        ("metadata.json", metadata),
        ("main.py", "print('x')"),
        ("requirements.txt", "left-pad==1.0"),
    ]);
    let mut svc = service();
    let (plugin, plan) = svc
        .install_plugin_from_bytes(bytes, "internal-2".to_string(), 5, ROOT)
        .expect("installs");
    assert_eq!(plugin.plugin_type, PluginType::Python);
    assert_eq!(plugin.python_venv_path.as_deref(), Some("/srv/atom/data/python_envs/py"));
    assert_eq!(plan.venv_dir.as_deref(), Some("/srv/atom/data/python_envs/py"));
    assert!(plan.dependencies.is_some());
    assert!(plugin.python_dependencies.is_some());
}

#[test]
fn duplicate_plugin_id_is_refused() {
    let bytes = make_zip(&[("metadata.json", HELLO_METADATA), ("index.js", "x")]);
    let mut svc = service();
    svc.install_plugin_from_bytes(bytes.clone(), "a".to_string(), 1, ROOT).expect("first");
    let e = svc
        .install_plugin_from_bytes(bytes, "b".to_string(), 2, ROOT)
        .expect_err("second install of the same id");
    assert!(matches!(e, AppError::PluginAlreadyExists(id) if id == "hello"));
}

#[test]
fn missing_entry_point_fails_and_leaves_no_row() {
    let metadata = "{\"name\":\"hello\",\"version\":\"1.0.0\",\"plugin_type\":\"python\",\"description\":\"\",\"author\":\"\",\"entry_point\":\"missing.py\"}";
    let bytes = make_zip(&[("metadata.json", metadata), ("other.py", "")]);
    let mut svc = service();
    let e = svc
        .install_plugin_from_bytes(bytes, "x".to_string(), 1, ROOT)
        .expect_err("entry point is absent");
    assert!(matches!(e, AppError::Execution(_)));
    assert!(svc.get_plugin("hello").is_err());
    assert!(svc.list_plugins().is_empty());
}

#[test]
fn parent_dir_entry_point_is_refused() {
    let metadata = "{\"name\":\"p\",\"version\":\"1.0.0\",\"plugin_type\":\"javascript\",\"description\":\"\",\"author\":\"\",\"entry_point\":\"../index.js\"}";
    let bytes = make_zip(&[("metadata.json", metadata), ("index.js", "")]);
    let mut svc = service();
    let e = svc.install_plugin_from_bytes(bytes, "x".to_string(), 1, ROOT).expect_err("traversal");
    assert!(matches!(e, AppError::Execution(_)));
}

#[test]
fn absolute_entry_point_is_refused() {
    let metadata = "{\"name\":\"p\",\"version\":\"1.0.0\",\"plugin_type\":\"javascript\",\"description\":\"\",\"author\":\"\",\"entry_point\":\"/etc/passwd\"}";
    let bytes = make_zip(&[("metadata.json", metadata), ("index.js", "")]);
    let mut svc = service();
    let e = svc.install_plugin_from_bytes(bytes, "x".to_string(), 1, ROOT).expect_err("absolute");
    assert!(matches!(e, AppError::Execution(_)));
}

#[test]
fn unsafe_member_name_fails_the_extraction_plan() {
    let bytes = make_zip(&[
        ("metadata.json", HELLO_METADATA),
        ("index.js", ""),
        ("../escape.txt", "zip slip"),
    ]);
    let mut svc = service();
    let e = svc.install_plugin_from_bytes(bytes, "x".to_string(), 1, ROOT).expect_err("zip slip");
    assert!(matches!(e, AppError::Execution(_)));
    assert!(svc.list_plugins().is_empty());
}

#[test]
fn zero_metadata_files_is_fatal() {
    let bytes = make_zip(&[("index.js", "")]);
    let mut svc = service();
    let e = svc.install_plugin_from_bytes(bytes, "x".to_string(), 1, ROOT).expect_err("none");
    assert!(matches!(e, AppError::Execution(m) if m.contains("not found")));
}

#[test]
fn two_metadata_files_are_fatal() {
    let bytes = make_zip(&[
        ("metadata.json", HELLO_METADATA),
        ("sub/metadata.json", HELLO_METADATA),
        ("index.js", ""),
    ]);
    let mut svc = service();
    let e = svc.install_plugin_from_bytes(bytes, "x".to_string(), 1, ROOT).expect_err("two");
    assert!(matches!(e, AppError::Execution(m) if m.contains("Multiple")));
}

#[test]
fn multi_install_list_must_hold_exactly_one_plugin() {
    let metadata = format!("{{\"install_plugins\":[{0},{0}]}}", HELLO_METADATA);
    let bytes = make_zip(&[("metadata.json", metadata.as_str()), ("index.js", "")]);
    let mut svc = service();
    let e = svc.install_plugin_from_bytes(bytes, "x".to_string(), 1, ROOT).expect_err("two in list");
    assert!(matches!(e, AppError::Execution(m) if m.contains("exactly one")));
}

#[test]
fn multi_install_list_with_one_plugin_installs() {
    let metadata = format!("{{\"install_plugins\":[{}]}}", HELLO_METADATA);
    let bytes = make_zip(&[("metadata.json", metadata.as_str()), ("index.js", "")]);
    let mut svc = service();
    let (plugin, _) = svc
        .install_plugin_from_bytes(bytes, "x".to_string(), 1, ROOT)
        .expect("single-element list installs");
    assert_eq!(plugin.plugin_id, "hello");
}

#[test]
fn malformed_archive_bytes_are_refused() {
    let mut svc = service();
    let e = svc
        .install_plugin_from_bytes(vec![1, 2, 3, 4], "x".to_string(), 1, ROOT)
        .expect_err("not a zip");
    assert!(matches!(e, AppError::Execution(_)));
}

#[test]
fn plugin_id_with_separator_is_refused() {
    let metadata = "{\"plugin_id\":\"a/b\",\"name\":\"n\",\"version\":\"1.0.0\",\"plugin_type\":\"javascript\",\"description\":\"\",\"author\":\"\",\"entry_point\":\"index.js\"}";
    let bytes = make_zip(&[("metadata.json", metadata), ("index.js", "")]);
    let mut svc = service();
    let e = svc.install_plugin_from_bytes(bytes, "x".to_string(), 1, ROOT).expect_err("separator");
    assert!(matches!(e, AppError::Execution(m) if m.contains("separators")));
}

#[test]
fn padded_plugin_id_is_refused() {
    let metadata = "{\"plugin_id\":\" hello \",\"name\":\"n\",\"version\":\"1.0.0\",\"plugin_type\":\"javascript\",\"description\":\"\",\"author\":\"\",\"entry_point\":\"index.js\"}";
    let bytes = make_zip(&[("metadata.json", metadata), ("index.js", "")]);
    let mut svc = service();
    let e = svc.install_plugin_from_bytes(bytes, "x".to_string(), 1, ROOT).expect_err("padding");
    assert!(matches!(e, AppError::Execution(m) if m.contains("whitespace")));
}

#[test]
fn uninstall_returns_the_paths_and_removes_the_row() {
    let bytes = make_zip(&[("metadata.json", HELLO_METADATA), ("index.js", "")]);
    let mut svc = service();
    svc.install_plugin_from_bytes(bytes, "x".to_string(), 1, ROOT).expect("installs");
    let (path, venv) = svc.uninstall_plugin("hello").expect("uninstalls");
    assert_eq!(path, "/srv/atom/plugins/hello");
    assert!(venv.is_none());
    let e = svc.uninstall_plugin("hello").expect_err("second uninstall");
    assert!(matches!(e, AppError::PluginNotFound(_)));
}

#[test]
fn plugin_listings_come_newest_first() {
    let mk = |name: &str| {
        let metadata = format!(
            "{{\"name\":\"{}\",\"version\":\"1.0.0\",\"plugin_type\":\"javascript\",\"description\":\"\",\"author\":\"\",\"entry_point\":\"index.js\"}}",
            name
        );
        make_zip(&[("metadata.json", metadata.as_str()), ("index.js", "")])
    };
    let mut svc = service();
    svc.install_plugin_from_bytes(mk("older"), "a".to_string(), 100, ROOT).expect("first");
    svc.install_plugin_from_bytes(mk("newer"), "b".to_string(), 200, ROOT).expect("second");
    let listed = svc.list_plugins();
    assert_eq!(listed.len(), 2);
    assert_eq!(listed[0].plugin_id, "newer");
    assert_eq!(listed[1].plugin_id, "older");
}

#[test]
fn enable_is_idempotent() {
    let bytes = make_zip(&[("metadata.json", HELLO_METADATA), ("index.js", "")]);
    let mut svc = service();
    svc.install_plugin_from_bytes(bytes, "x".to_string(), 1, ROOT).expect("installs");
    svc.disable_plugin("hello", 50).expect("disables");
    let after_first = svc.get_plugin("hello").expect("row");
    assert!(!after_first.enabled);
    assert_eq!(after_first.updated_at, 50);
    svc.disable_plugin("hello", 60).expect("repeat");
    let after_second = svc.get_plugin("hello").expect("row");
    assert!(!after_second.enabled);
    assert_eq!(after_second.updated_at, 50);
    svc.enable_plugin("hello", 70).expect("enables");
    svc.enable_plugin("hello", 80).expect("repeat");
    let enabled = svc.get_plugin("hello").expect("row");
    assert!(enabled.enabled);
    assert_eq!(enabled.updated_at, 70);
}
