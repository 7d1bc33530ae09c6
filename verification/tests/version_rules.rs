//! Semantic-version ordering and the update rules built on it.

use std::io::Write;

use atom_node::errors::AppError;
use atom_node::plugin_service::PluginService;
use atom_node::store::PluginRepository;
use atom_node::version::{SemVer, VerOrder, ensure_min_atom_node_version, ensure_newer_version, parse_version};

const ROOT: &str = "/srv/atom";

fn make_zip(files: &[(&str, &str)]) -> Vec<u8> {
    let cursor = std::io::Cursor::new(Vec::new());
    let mut writer = zip::ZipWriter::new(cursor);
    let options = zip::write::SimpleFileOptions::default();
    for (name, contents) in files {
        writer.start_file(*name, options).expect("start member");
        writer.write_all(contents.as_bytes()).expect("write member");
    }
    writer.finish().expect("finish archive").into_inner()
}

fn v(s: &str) -> SemVer {
    parse_version(s).expect("version parses")
}

#[test]
fn parse_extracts_the_fields() {
    let p = v("1.2.3-alpha.1+build.5");
    assert_eq!(p.major, 1);
    assert_eq!(p.minor, 2);
    assert_eq!(p.patch, 3);
    assert_eq!(p.pre, "alpha.1");
    assert_eq!(p.build, "build.5");
    assert!(parse_version("not-a-version").is_none());
    assert!(parse_version("1.2").is_none());
}

#[test]
fn numeric_fields_order_first() {
    assert_eq!(v("1.2.0").compare(&v("1.2.1")), VerOrder::Lt);
    assert_eq!(v("1.10.0").compare(&v("1.9.0")), VerOrder::Gt);
    assert_eq!(v("2.0.0").compare(&v("1.99.99")), VerOrder::Gt);
    assert_eq!(v("1.2.3").compare(&v("1.2.3")), VerOrder::Eq);
}

#[test]
fn prerelease_orders_before_release() {
    assert_eq!(v("1.0.0-alpha").compare(&v("1.0.0")), VerOrder::Lt);
    assert_eq!(v("1.0.0").compare(&v("1.0.0-rc.1")), VerOrder::Gt);
    assert_eq!(v("1.0.0-alpha").compare(&v("1.0.0-alpha.1")), VerOrder::Lt);
    assert_eq!(v("1.0.0-alpha.1").compare(&v("1.0.0-beta")), VerOrder::Lt);
    assert_eq!(v("1.0.0-2").compare(&v("1.0.0-11")), VerOrder::Lt);
    assert_eq!(v("1.0.0-1").compare(&v("1.0.0-alpha")), VerOrder::Lt);
}

#[test]
fn ordering_agrees_with_the_reference_crate() {
    let samples = [
        "1.0.0",
        "1.0.1",
        "0.9.9",
        "1.0.0-alpha",
        "1.0.0-alpha.1",
        "1.0.0-beta.2",
        "1.0.0-11",
        "1.0.0-2",
        "1.0.0+b.1",
        "1.0.0+a.2",
        "2.1.0-rc.1+build.3",
    ];
    for a in samples {
        for b in samples {
            let ours = v(a).compare(&v(b));
            let reference = semver::Version::parse(a)
                .expect("reference parses")
                .cmp(&semver::Version::parse(b).expect("reference parses"));
            let expected = match reference {
                std::cmp::Ordering::Less => VerOrder::Lt,
                std::cmp::Ordering::Equal => VerOrder::Eq,
                std::cmp::Ordering::Greater => VerOrder::Gt,
            };
            assert_eq!(ours, expected, "ordering of {} and {}", a, b);
        }
    }
}

#[test]
fn newer_version_rule() {
    assert!(ensure_newer_version("1.2.1", "1.2.0").is_ok());
    assert!(ensure_newer_version(" 1.2.1 ", "1.2.0").is_ok());
    assert!(ensure_newer_version("1.2.0", "1.2.0").is_err());
    assert!(ensure_newer_version("1.1.9", "1.2.0").is_err());
    assert!(ensure_newer_version("", "1.2.0").is_err());
    assert!(ensure_newer_version("garbage", "1.2.0").is_err());
}

fn plugin_zip(version: &str, entry: &str) -> Vec<u8> {
    let metadata = format!(
        "{{\"name\":\"p\",\"version\":\"{}\",\"plugin_type\":\"javascript\",\"description\":\"\",\"author\":\"\",\"entry_point\":\"{}\"}}",
        version, entry
    );
    make_zip(&[("metadata.json", metadata.as_str()), (entry, "code")])
}

#[test]
fn update_requires_strictly_newer() {
    let mut svc = PluginService::new(PluginRepository::new());
    svc.install_plugin_from_bytes(plugin_zip("1.2.0", "index.js"), "a".to_string(), 1, ROOT)
        .expect("installs");

    let same = svc
        .update_plugin("p", plugin_zip("1.2.0", "index.js"), "b".to_string(), 2, ROOT)
        .expect_err("equal version");
    assert!(matches!(same, AppError::Execution(m) if m.contains("not newer")));

    let older = svc
        .update_plugin("p", plugin_zip("1.1.9", "index.js"), "c".to_string(), 3, ROOT)
        .expect_err("older version");
    assert!(matches!(older, AppError::Execution(m) if m.contains("not newer")));

    let before = svc.get_plugin("p").expect("row");
    assert_eq!(before.version, "1.2.0");

    let (old_path, _, newer, _) = svc
        .update_plugin("p", plugin_zip("1.2.1", "main.js"), "d".to_string(), 4, ROOT)
        .expect("strictly newer");
    assert_eq!(old_path, "/srv/atom/plugins/p");
    assert_eq!(newer.version, "1.2.1");
    assert_eq!(newer.entry_point, "main.js");
    let after = svc.get_plugin("p").expect("row");
    assert_eq!(after.version, "1.2.1");
    assert_eq!(svc.list_plugins().len(), 1);
}

#[test]
fn update_with_an_unsafe_member_keeps_the_installed_plugin() {
    let mut svc = PluginService::new(PluginRepository::new());
    svc.install_plugin_from_bytes(plugin_zip("1.0.0", "index.js"), "a".to_string(), 1, ROOT)
        .expect("installs");
    let metadata = "{\"name\":\"p\",\"version\":\"2.0.0\",\"plugin_type\":\"javascript\",\"description\":\"\",\"author\":\"\",\"entry_point\":\"index.js\"}";
    let bytes = make_zip(&[
        ("metadata.json", metadata),
        ("index.js", ""),
        ("../escape.txt", "zip slip"),
    ]);
    let e = svc.update_plugin("p", bytes, "b".to_string(), 2, ROOT).expect_err("unsafe member");
    assert!(matches!(e, AppError::Execution(m) if m.contains("Invalid file path")));
    let still = svc.get_plugin("p").expect("the installed plugin survives");
    assert_eq!(still.version, "1.0.0");
}

#[test]
fn update_of_a_missing_plugin_is_not_found() {
    let mut svc = PluginService::new(PluginRepository::new());
    let e = svc
        .update_plugin("ghost", plugin_zip("1.0.0", "index.js"), "a".to_string(), 1, ROOT)
        .expect_err("nothing installed");
    assert!(matches!(e, AppError::PluginNotFound(_)));
}

#[test]
fn update_with_a_different_id_is_refused() {
    let mut svc = PluginService::new(PluginRepository::new());
    svc.install_plugin_from_bytes(plugin_zip("1.0.0", "index.js"), "a".to_string(), 1, ROOT)
        .expect("installs");
    let metadata = "{\"name\":\"other\",\"version\":\"2.0.0\",\"plugin_type\":\"javascript\",\"description\":\"\",\"author\":\"\",\"entry_point\":\"index.js\"}";
    let bytes = make_zip(&[("metadata.json", metadata), ("index.js", "")]);
    let e = svc.update_plugin("p", bytes, "b".to_string(), 2, ROOT).expect_err("wrong id");
    assert!(matches!(e, AppError::Execution(m) if m.contains("does not match")));
    assert_eq!(svc.get_plugin("p").expect("row").version, "1.0.0");
}

#[test]
fn minimum_host_version_rule() {
    assert!(ensure_min_atom_node_version(&None).is_ok());
    assert!(ensure_min_atom_node_version(&Some("0.0.1".to_string())).is_ok());
    assert!(ensure_min_atom_node_version(&Some("0.1.0".to_string())).is_ok());
    assert!(ensure_min_atom_node_version(&Some("99.0.0".to_string())).is_err());
    assert!(ensure_min_atom_node_version(&Some(" ".to_string())).is_err());
    assert!(ensure_min_atom_node_version(&Some("junk".to_string())).is_err());
}
