//! The prepare/apply state machine, driven end to end with the supervisor's
//! callbacks standing in for the operating system.

use std::io::Write;

use atom_node::errors::AppError;
use atom_node::execution_service::ExecutionService;
use atom_node::json::JsonValue;
use atom_node::models::{ExecutionPhase, ExecutionStatus};
use atom_node::plugin_service::PluginService;
use atom_node::store::{ExecutionRepository, PluginRepository};

const ROOT: &str = "/srv/atom";

fn make_zip(files: &[(&str, &str)]) -> Vec<u8> {
    let cursor = std::io::Cursor::new(Vec::new());
    let mut writer = zip::ZipWriter::new(cursor);
    let options = zip::write::SimpleFileOptions::default();
    for (name, contents) in files {
        writer.start_file(*name, options).expect("start member");
        writer.write_all(contents.as_bytes()).expect("write member");
    }
    writer.finish().expect("finish archive").into_inner()
}

const PLAN_METADATA: &str = "{\"name\":\"p\",\"version\":\"1.0.0\",\"plugin_type\":\"javascript\",\"description\":\"\",\"author\":\"\",\"entry_point\":\"index.js\"}";

fn installed_plugin() -> atom_node::models::Plugin {
    let bytes = make_zip(&[("metadata.json", PLAN_METADATA), ("index.js", "plan")]);
    let mut svc = PluginService::new(PluginRepository::new());
    let (plugin, _) = svc
        .install_plugin_from_bytes(bytes, "internal".to_string(), 1, ROOT)
        .expect("installs");
    plugin
}

fn prepared(
    svc: &mut ExecutionService,
    plugin: &atom_node::models::Plugin,
    now: i64,
) -> atom_node::models::Execution {
    let (execution, plan) = svc
        .prepare_plugin(plugin, Vec::new(), "exec-1".to_string(), now, ROOT, &None, false)
        .expect("prepare accepted");
    assert_eq!(execution.phase, ExecutionPhase::Prepare);
    assert_eq!(execution.status, ExecutionStatus::Pending);
    assert_eq!(plan.success_status, ExecutionStatus::PreviewReady);
    assert!(!plan.cleanup_on_success);
    assert_eq!(plan.work_dir, "/srv/atom/work_dir/exec-1");
    assert!(plan.command.env.iter().any(|(k, v)| k == "ATOM_PHASE" && v == "prepare"));
    svc.on_spawned("exec-1", 4242).expect("pid recorded");
    let running = svc.get_execution("exec-1").expect("row");
    assert_eq!(running.status, ExecutionStatus::Running);
    assert_eq!(running.pid, Some(4242));
    let remove = svc
        .finish_execution(
            "exec-1",
            Some(0),
            Some("PLAN\n".to_string()),
            None,
            ExecutionStatus::PreviewReady,
            false,
            "T".to_string(),
            now + 10,
        )
        .expect("preview closes");
    assert!(!remove, "a retained preview keeps its work directory");
    svc.get_execution("exec-1").expect("row")
}

#[test]
fn prepare_then_apply_happy_path() {
    let plugin = installed_plugin();
    let mut svc = ExecutionService::new(ExecutionRepository::new());
    let row = prepared(&mut svc, &plugin, 1000);
    assert_eq!(row.status, ExecutionStatus::PreviewReady);
    assert_eq!(row.phase, ExecutionPhase::Prepare);
    assert_eq!(row.confirm_token.as_deref(), Some("T"));
    assert_eq!(row.preview_payload.as_deref(), Some("PLAN\n"));
    assert_eq!(row.stdout.as_deref(), Some("PLAN\n"));
    assert_eq!(row.finished_at, Some(1010));
    assert_eq!(row.expires_at, Some(1010 + 600000));

    let (applied, plan) = svc
        .apply_execution("exec-1", "T", &plugin, Vec::new(), 2000, ROOT, &None, false)
        .expect("apply accepted");
    assert_eq!(applied.phase, ExecutionPhase::Apply);
    assert_eq!(applied.status, ExecutionStatus::Pending);
    assert_eq!(applied.started_at, 2000);
    assert!(applied.confirm_token.is_none());
    assert_eq!(applied.preview_payload.as_deref(), Some("PLAN\n"));
    assert!(plan.cleanup_on_success);
    assert!(plan.command.env.iter().any(|(k, v)| k == "ATOM_PHASE" && v == "apply"));
    assert!(plan.command.env.iter().any(|(k, v)| k == "ATOM_PREVIEW_PLAN" && v == "PLAN\n"));

    svc.on_spawned("exec-1", 4243).expect("pid recorded");
    let remove = svc
        .finish_execution(
            "exec-1",
            Some(0),
            Some("done\n".to_string()),
            None,
            ExecutionStatus::Completed,
            true,
            "unused".to_string(),
            3000,
        )
        .expect("apply closes");
    assert!(remove);
    let done = svc.get_execution("exec-1").expect("row");
    assert_eq!(done.status, ExecutionStatus::Completed);
    assert_eq!(done.exit_code, Some(0));
    assert_eq!(done.stdout.as_deref(), Some("done\n"));
}

#[test]
fn install_and_execute_to_completion() {
    let bytes = make_zip(&[
        (
            "metadata.json",
            "{\"name\":\"hello\",\"version\":\"1.0.0\",\"plugin_type\":\"javascript\",\"description\":\"\",\"author\":\"\",\"entry_point\":\"index.js\"}",
        ),
        ("index.js", "console.log('hi')"),
    ]);
    let mut plugins = PluginService::new(PluginRepository::new());
    let (plugin, _) = plugins
        .install_plugin_from_bytes(bytes, "internal".to_string(), 1, ROOT)
        .expect("installs");
    assert_eq!(plugin.plugin_id, "hello");
    let mut svc = ExecutionService::new(ExecutionRepository::new());
    let (execution, plan) = svc
        .execute_plugin(&plugin, Vec::new(), "run-1".to_string(), 100, ROOT, &None, false)
        .expect("execute accepted");
    assert_eq!(execution.phase, ExecutionPhase::Apply);
    assert_eq!(execution.status, ExecutionStatus::Pending);
    assert_eq!(plan.command.program, "node");
    assert_eq!(plan.command.script, "/srv/atom/plugins/hello/index.js");
    svc.on_spawned("run-1", 7).expect("pid recorded");
    let remove = svc
        .finish_execution(
            "run-1",
            Some(0),
            Some("hi\n".to_string()),
            None,
            ExecutionStatus::Completed,
            true,
            "unused".to_string(),
            200,
        )
        .expect("closes");
    assert!(remove);
    let row = svc.get_execution("run-1").expect("row");
    assert_eq!(row.status, ExecutionStatus::Completed);
    assert_eq!(row.exit_code, Some(0));
    assert_eq!(row.stdout.as_deref(), Some("hi\n"));
    assert_eq!(row.finished_at, Some(200));
}

#[test]
fn apply_after_expiry_is_refused_and_mutates_nothing() {
    let plugin = installed_plugin();
    let mut svc = ExecutionService::new(ExecutionRepository::new());
    let row = prepared(&mut svc, &plugin, 1000);
    let expires = row.expires_at.expect("preview has an expiry");
    let e = svc
        .apply_execution("exec-1", "T", &plugin, Vec::new(), expires + 1, ROOT, &None, false)
        .expect_err("expired preview");
    assert!(matches!(e, AppError::Execution(m) if m.contains("expired")));
    let after = svc.get_execution("exec-1").expect("row");
    assert_eq!(after.status, ExecutionStatus::PreviewReady);
    assert_eq!(after.confirm_token.as_deref(), Some("T"));
    assert_eq!(after.expires_at, Some(expires));
    assert_eq!(after.started_at, row.started_at);
}

#[test]
fn apply_at_the_expiry_instant_is_still_accepted() {
    let plugin = installed_plugin();
    let mut svc = ExecutionService::new(ExecutionRepository::new());
    let row = prepared(&mut svc, &plugin, 1000);
    let expires = row.expires_at.expect("preview has an expiry");
    svc.apply_execution("exec-1", "T", &plugin, Vec::new(), expires, ROOT, &None, false)
        .expect("boundary accepted");
}

#[test]
fn wrong_confirm_token_is_refused_and_mutates_nothing() {
    let plugin = installed_plugin();
    let mut svc = ExecutionService::new(ExecutionRepository::new());
    prepared(&mut svc, &plugin, 1000);
    let e = svc
        .apply_execution("exec-1", "WRONG", &plugin, Vec::new(), 2000, ROOT, &None, false)
        .expect_err("token mismatch");
    assert!(matches!(e, AppError::Execution(m) if m.contains("Invalid confirm token")));
    let after = svc.get_execution("exec-1").expect("row");
    assert_eq!(after.status, ExecutionStatus::PreviewReady);
    assert_eq!(after.phase, ExecutionPhase::Prepare);
}

#[test]
fn apply_requires_a_ready_preview() {
    let plugin = installed_plugin();
    let mut svc = ExecutionService::new(ExecutionRepository::new());
    svc.prepare_plugin(&plugin, Vec::new(), "exec-1".to_string(), 1000, ROOT, &None, false)
        .expect("prepare accepted");
    let e = svc
        .apply_execution("exec-1", "T", &plugin, Vec::new(), 2000, ROOT, &None, false)
        .expect_err("still pending");
    assert!(matches!(e, AppError::Execution(m) if m.contains("not ready")));
}

#[test]
fn apply_on_an_apply_record_is_refused() {
    let plugin = installed_plugin();
    let mut svc = ExecutionService::new(ExecutionRepository::new());
    svc.execute_plugin(&plugin, Vec::new(), "exec-9".to_string(), 1000, ROOT, &None, false)
        .expect("execute accepted");
    let e = svc
        .apply_execution("exec-9", "T", &plugin, Vec::new(), 2000, ROOT, &None, false)
        .expect_err("not a preview");
    assert!(matches!(e, AppError::Execution(m) if m.contains("preview executions")));
}

#[test]
fn disabled_plugin_is_refused() {
    let mut plugin = installed_plugin();
    plugin.enabled = false;
    let mut svc = ExecutionService::new(ExecutionRepository::new());
    let e = svc
        .prepare_plugin(&plugin, Vec::new(), "exec-1".to_string(), 1000, ROOT, &None, false)
        .expect_err("disabled");
    assert!(matches!(e, AppError::PluginDisabled));
}

#[test]
fn newer_host_requirement_is_refused() {
    let mut plugin = installed_plugin();
    plugin.min_atom_node_version = Some("99.0.0".to_string());
    let mut svc = ExecutionService::new(ExecutionRepository::new());
    let e = svc
        .execute_plugin(&plugin, Vec::new(), "exec-1".to_string(), 1000, ROOT, &None, false)
        .expect_err("host too old");
    assert!(matches!(e, AppError::Execution(m) if m.contains("newer")));
}

#[test]
fn failed_child_marks_the_record_failed_and_cleans_up() {
    let plugin = installed_plugin();
    let mut svc = ExecutionService::new(ExecutionRepository::new());
    svc.execute_plugin(&plugin, Vec::new(), "exec-1".to_string(), 1000, ROOT, &None, false)
        .expect("execute accepted");
    let remove = svc
        .finish_execution(
            "exec-1",
            Some(3),
            None,
            Some("boom".to_string()),
            ExecutionStatus::Completed,
            true,
            "unused".to_string(),
            1500,
        )
        .expect("closes");
    assert!(remove);
    let row = svc.get_execution("exec-1").expect("row");
    assert_eq!(row.status, ExecutionStatus::Failed);
    assert_eq!(row.exit_code, Some(3));
    assert_eq!(row.stderr.as_deref(), Some("boom"));
}

#[test]
fn wait_errors_fail_the_record() {
    let plugin = installed_plugin();
    let mut svc = ExecutionService::new(ExecutionRepository::new());
    svc.execute_plugin(&plugin, Vec::new(), "exec-1".to_string(), 1000, ROOT, &None, false)
        .expect("execute accepted");
    svc.on_wait_error("exec-1", "pipe closed", 1500).expect("recorded");
    let row = svc.get_execution("exec-1").expect("row");
    assert_eq!(row.status, ExecutionStatus::Failed);
    assert_eq!(row.stderr.as_deref(), Some("Error: pipe closed"));
}

#[test]
fn stop_sets_the_stopped_status() {
    let plugin = installed_plugin();
    let mut svc = ExecutionService::new(ExecutionRepository::new());
    svc.execute_plugin(&plugin, Vec::new(), "exec-1".to_string(), 1000, ROOT, &None, false)
        .expect("execute accepted");
    svc.stop_execution("exec-1").expect("stops");
    let row = svc.get_execution("exec-1").expect("row");
    assert_eq!(row.status, ExecutionStatus::Stopped);
    let e = svc.stop_execution("missing").expect_err("unknown id");
    assert!(matches!(e, AppError::ExecutionNotFound(_)));
}

#[test]
fn listings_filter_by_plugin_and_come_newest_first() {
    let plugin = installed_plugin();
    let mut svc = ExecutionService::new(ExecutionRepository::new());
    svc.execute_plugin(&plugin, Vec::new(), "e1".to_string(), 1, ROOT, &None, false).expect("one");
    svc.execute_plugin(&plugin, Vec::new(), "e2".to_string(), 2, ROOT, &None, false).expect("two");
    let all = svc.list_executions(&None);
    assert_eq!(all.len(), 2);
    assert_eq!(all[0].id, "e2");
    assert_eq!(all[1].id, "e1");
    assert_eq!(svc.list_executions(&Some("p".to_string())).len(), 2);
    assert_eq!(svc.list_executions(&Some("other".to_string())).len(), 0);
}

#[test]
fn uninstall_cascades_over_the_plugin_executions() {
    let plugin = installed_plugin();
    let mut svc = ExecutionService::new(ExecutionRepository::new());
    svc.execute_plugin(&plugin, Vec::new(), "e1".to_string(), 1, ROOT, &None, false).expect("one");
    svc.execute_plugin(&plugin, Vec::new(), "e2".to_string(), 2, ROOT, &None, false).expect("two");
    svc.remove_executions_for("p").expect("cascade");
    assert!(svc.list_executions(&None).is_empty());
    assert!(svc.get_execution("e1").is_err());
    svc.remove_executions_for("p").expect("repeat is harmless");
}

#[test]
fn parameters_reach_the_child_environment() {
    let metadata = "{\"name\":\"q\",\"version\":\"1.0.0\",\"plugin_type\":\"javascript\",\"description\":\"\",\"author\":\"\",\"entry_point\":\"index.js\",\"parameters\":[{\"name\":\"mode\",\"type\":\"string\"}]}";
    let bytes = make_zip(&[("metadata.json", metadata), ("index.js", "")]);
    let mut plugins = PluginService::new(PluginRepository::new());
    let (plugin, _) = plugins
        .install_plugin_from_bytes(bytes, "i".to_string(), 1, ROOT)
        .expect("installs");
    let mut svc = ExecutionService::new(ExecutionRepository::new());
    let provided = vec![("mode".to_string(), JsonValue::Str("fast".to_string()))];
    let (_, plan) = svc
        .execute_plugin(&plugin, provided, "e1".to_string(), 1, ROOT, &None, false)
        .expect("execute accepted");
    let params_env = plan
        .command
        .env
        .iter()
        .find(|(k, _)| k == "ATOM_PLUGIN_PARAMS")
        .expect("parameters are in the environment");
    assert_eq!(params_env.1, "{\"mode\":\"fast\"}");
    let e = svc
        .execute_plugin(
            &plugin,
            vec![("other".to_string(), JsonValue::Int(1))],
            "e2".to_string(),
            2,
            ROOT,
            &None,
            false,
        )
        .expect_err("unknown parameter");
    assert!(matches!(e, AppError::Execution(_)));
}
