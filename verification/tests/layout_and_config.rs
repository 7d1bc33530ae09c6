//! The directory layout, URL resolution, configuration rules, command
//! building, and the API response shapes.

use atom_node::config::{Config, FileConfig};
use atom_node::execution_service::ExecutionService;
use atom_node::models::PythonDependencies;
use atom_node::update::{current_version_string, pending_update_path, update_staging_root};
use atom_node::dto::{ExecutionResponse, PluginResponse};
use atom_node::errors::AppError;
use atom_node::executor::{PythonExecutor, build_command};
use atom_node::models::{Execution, ExecutionPhase, ExecutionStatus, Plugin, PluginType};
use atom_node::paths;
use atom_node::plugin_service::PluginService;

#[test]
fn directories_hang_off_the_install_root() {
    assert_eq!(paths::plugins_dir("/r"), "/r/plugins");
    assert_eq!(paths::work_dir("/r"), "/r/work_dir");
    assert_eq!(paths::conf_dir("/r"), "/r/conf");
    assert_eq!(paths::data_dir("/r"), "/r/data");
    assert_eq!(paths::python_envs_dir("/r"), "/r/data/python_envs");
    assert_eq!(PluginService::plugin_dir_for("/r", "x"), "/r/plugins/x");
    assert_eq!(PluginService::python_env_dir_for("/r", "x"), "/r/data/python_envs/x");
}

#[test]
fn the_install_root_steps_out_of_bin() {
    assert_eq!(paths::install_root_from_exe_dir("/opt/atom/bin"), "/opt/atom");
    assert_eq!(paths::install_root_from_exe_dir("/opt/atom"), "/opt/atom");
    assert_eq!(paths::install_root_from_exe_dir("bin"), "bin");
}

#[test]
fn file_urls_resolve_to_local_paths() {
    assert_eq!(
        PluginService::local_path_from_url("file:///tmp/p.zip").as_deref(),
        Some("/tmp/p.zip")
    );
    assert_eq!(
        PluginService::local_path_from_url("file://localhost/tmp/p.zip").as_deref(),
        Some("tmp/p.zip")
    );
    assert!(PluginService::local_path_from_url("http://x/p.zip").is_none());
    assert_eq!(
        PluginService::resolve_local_path("packages/p.zip").as_deref(),
        Some("packages/p.zip")
    );
    assert!(PluginService::resolve_local_path("http://x/p.zip").is_none());
    assert!(PluginService::resolve_local_path("https://x/p.zip").is_none());
}

#[test]
fn default_configuration() {
    let c = Config::initial("/r");
    assert_eq!(c.database_url, "sqlite:/r/data/atom_node.db");
    assert_eq!(c.host, "127.0.0.1");
    assert_eq!(c.port, 6701);
    assert!(c.uv_path.is_none());
}

#[test]
fn file_overrides_apply() {
    let mut c = Config::initial("/r");
    c.apply_file(FileConfig {
        database_url: None,
        host: Some("0.0.0.0".to_string()),
        port: Some(8000),
        uv_path: Some("tools/uv".to_string()),
    });
    assert_eq!(c.host, "0.0.0.0");
    assert_eq!(c.port, 8000);
    assert_eq!(c.uv_path.as_deref(), Some("tools/uv"));
    assert_eq!(c.database_url, "sqlite:/r/data/atom_node.db");
}

#[test]
fn database_urls_are_anchored_under_the_root() {
    let mut c = Config::initial("/r");
    c.database_url = "sqlite:data/db.sqlite".to_string();
    c.normalize_database_url("/r").expect("relative path accepted");
    assert_eq!(c.database_url, "sqlite:/r/data/db.sqlite");

    let mut c = Config::initial("/r");
    c.database_url = "postgres://elsewhere".to_string();
    c.normalize_database_url("/r").expect("other schemes pass through");
    assert_eq!(c.database_url, "postgres://elsewhere");

    let mut c = Config::initial("/r");
    c.database_url = "sqlite:/r/data/db.sqlite".to_string();
    c.normalize_database_url("/r").expect("absolute under root accepted");
    assert_eq!(c.database_url, "sqlite:/r/data/db.sqlite");

    let mut c = Config::initial("/r");
    c.database_url = "sqlite:/elsewhere/db.sqlite".to_string();
    let e = c.normalize_database_url("/r").expect_err("absolute outside root");
    assert!(matches!(e, AppError::Execution(_)));

    let mut c = Config::initial("/r");
    c.database_url = "sqlite:../up.sqlite".to_string();
    let e = c.normalize_database_url("/r").expect_err("traversal");
    assert!(matches!(e, AppError::Execution(m) if m.contains("..")));
}

#[test]
fn uv_paths_are_anchored_under_the_root() {
    let mut c = Config::initial("/r");
    c.uv_path = Some("tools/uv".to_string());
    c.normalize_uv_path("/r").expect("relative accepted");
    assert_eq!(c.uv_path.as_deref(), Some("/r/tools/uv"));

    let mut c = Config::initial("/r");
    c.uv_path = Some("/usr/bin/uv".to_string());
    assert!(c.normalize_uv_path("/r").is_err());

    let mut c = Config::initial("/r");
    c.uv_path = Some("  ".to_string());
    assert!(c.normalize_uv_path("/r").is_err());

    let mut c = Config::initial("/r");
    c.uv_path = Some("../uv".to_string());
    assert!(c.normalize_uv_path("/r").is_err());
}

fn plugin_row(t: PluginType, venv: Option<&str>) -> Plugin {
    Plugin {
        id: "i".to_string(),
        plugin_id: "p".to_string(),
        name: "p".to_string(),
        version: "1.0.0".to_string(),
        plugin_type: t,
        description: String::new(),
        author: String::new(),
        plugin_path: "/r/plugins/p".to_string(),
        entry_point: "main.py".to_string(),
        enabled: true,
        parameters: None,
        python_venv_path: venv.map(|s| s.to_string()),
        python_dependencies: None,
        min_atom_node_version: None,
        created_at: 0,
        updated_at: 0,
    }
}

#[test]
fn commands_use_the_environment_interpreter() {
    let py = PythonExecutor::new(None);
    let plugin = plugin_row(PluginType::Python, Some("/r/data/python_envs/p"));
    let plan = build_command(&py, &plugin, "/r/work_dir/e", Vec::new(), &Some("/usr/bin".to_string()), false);
    assert_eq!(plan.program, "/r/data/python_envs/p/bin/python");
    assert_eq!(plan.script, "/r/plugins/p/main.py");
    assert_eq!(plan.cwd, "/r/work_dir/e");
    assert!(plan.env.iter().any(|(k, v)| k == "VIRTUAL_ENV" && v == "/r/data/python_envs/p"));
    assert!(plan
        .env
        .iter()
        .any(|(k, v)| k == "PATH" && v == "/r/data/python_envs/p/bin:/usr/bin"));
    assert!(plan.preflight.contains(&plan.script));
    assert!(plan.preflight.contains(&plan.program));
}

#[test]
fn commands_fall_back_to_the_ambient_interpreters() {
    let py = PythonExecutor::new(Some("python3.12".to_string()));
    let plugin = plugin_row(PluginType::Python, None);
    let plan = build_command(&py, &plugin, "/w", Vec::new(), &None, false);
    assert_eq!(plan.program, "python3.12");

    let js = plugin_row(PluginType::JavaScript, None);
    let plan = build_command(&py, &js, "/w", Vec::new(), &None, false);
    assert_eq!(plan.program, "node");
}

#[test]
fn uv_invocations() {
    let env_args = PluginService::uv_env_args("/r/data/python_envs/p");
    assert_eq!(env_args, vec!["venv".to_string(), "/r/data/python_envs/p".to_string()]);
    let (args, cwd) = PluginService::uv_install_args(
        "/venv/bin/python",
        &PythonDependencies::Requirements { path: "requirements.txt".to_string() },
        "/r/plugins/p",
    );
    assert_eq!(args, vec!["pip", "install", "--python", "/venv/bin/python", "-r", "requirements.txt"]);
    assert_eq!(cwd, "/r/plugins/p");
    let (args, cwd) = PluginService::uv_install_args(
        "/venv/bin/python",
        &PythonDependencies::Pyproject { path: "sub/pyproject.toml".to_string() },
        "/r/plugins/p",
    );
    assert_eq!(args, vec!["pip", "install", "--python", "/venv/bin/python", "-e", "."]);
    assert_eq!(cwd, "/r/plugins/p/sub");
}

#[test]
fn responses_carry_names_not_numbers() {
    let e = Execution {
        id: "e".to_string(),
        plugin_id: "p".to_string(),
        phase: ExecutionPhase::Prepare,
        status: ExecutionStatus::PreviewReady,
        pid: Some(1),
        exit_code: Some(0),
        stdout: Some("out".to_string()),
        stderr: None,
        preview_payload: Some("out".to_string()),
        confirm_token: Some("T".to_string()),
        expires_at: Some(10),
        started_at: 1,
        finished_at: Some(2),
    };
    let r = ExecutionResponse::from_execution(&e);
    assert_eq!(r.phase, "Prepare");
    assert_eq!(r.status, "PreviewReady");
    assert_eq!(r.confirm_token.as_deref(), Some("T"));

    let p = plugin_row(PluginType::JavaScript, None);
    let resp = PluginResponse::try_from_plugin(&p).expect("shapes");
    assert_eq!(resp.id, "p");
    assert_eq!(resp.plugin_type, "JavaScript");
    assert!(resp.parameters.is_none());

    let mut with_schema = plugin_row(PluginType::JavaScript, None);
    with_schema.parameters = Some("[{\"name\":\"a\",\"type\":\"string\"}]".to_string());
    let resp = PluginResponse::try_from_plugin(&with_schema).expect("shapes");
    assert_eq!(resp.parameters.expect("schema").len(), 1);

    let mut broken = plugin_row(PluginType::JavaScript, None);
    broken.parameters = Some("not json".to_string());
    assert!(PluginResponse::try_from_plugin(&broken).is_err());
}

#[test]
fn error_codes_follow_the_mapping() {
    assert_eq!(AppError::PluginNotFound("x".to_string()).status_code(), 404);
    assert_eq!(AppError::ExecutionNotFound("x".to_string()).status_code(), 404);
    assert_eq!(AppError::PluginAlreadyExists("x".to_string()).status_code(), 409);
    assert_eq!(AppError::PluginDisabled.status_code(), 403);
    assert_eq!(AppError::InvalidPluginType.status_code(), 400);
    assert_eq!(AppError::Execution("m".to_string()).status_code(), 400);
    assert_eq!(AppError::PluginNotFound("x".to_string()).message(), "Plugin 'x' not found");
}

#[test]
fn status_names_and_terminality() {
    assert_eq!(ExecutionStatus::Completed.name(), "Completed");
    assert!(ExecutionStatus::Completed.is_terminal());
    assert!(ExecutionStatus::Failed.is_terminal());
    assert!(ExecutionStatus::Stopped.is_terminal());
    assert!(!ExecutionStatus::Running.is_terminal());
    assert!(!ExecutionStatus::PreviewReady.is_terminal());
    let targets = vec![ExecutionStatus::Completed, ExecutionStatus::Failed];
    assert!(ExecutionService::status_in(&targets, ExecutionStatus::Failed));
    assert!(!ExecutionService::status_in(&targets, ExecutionStatus::Running));
}

#[test]
fn packaging_cli_failures_prefer_trimmed_stderr() {
    assert_eq!(
        PluginService::uv_failure_message("  broken wheel \n", "noise"),
        "The packaging CLI failed: broken wheel"
    );
    assert_eq!(
        PluginService::uv_failure_message("  ", " fallback out "),
        "The packaging CLI failed: fallback out"
    );
    assert_eq!(PluginService::uv_failure_message(" ", ""), "The packaging CLI failed");
}

#[test]
fn update_bookkeeping_paths() {
    assert_eq!(pending_update_path("/r"), "/r/.update_pending.json");
    assert_eq!(update_staging_root("/r"), "/r/.update_staging");
    assert_eq!(current_version_string(), "0.1.0");
}
