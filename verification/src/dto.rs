//! The request and response shapes of the HTTP API, as plain values.

use vstd::prelude::*;
use vstd::string::*;
use crate::errors::{AppError, AppResult, validation_error};
use crate::execution_service::ExecutionService;
use crate::models::{Execution, Plugin, PluginParameter, PythonDependencies};
use crate::plugin_service::PluginService;
use crate::text::{spec_trim, str_to_chars, trim_chars};

verus! {

/// The body of an install request.
#[derive(Debug)]
pub struct InstallPluginRequest {
    pub package_url: String,
}

/// One execution record, shaped for API clients.
#[derive(Debug)]
pub struct ExecutionResponse {
    pub id: String,
    pub plugin_id: String,
    pub phase: String,
    pub status: String,
    pub pid: Option<i32>,
    pub exit_code: Option<i32>,
    pub stdout: Option<String>,
    pub stderr: Option<String>,
    pub preview_payload: Option<String>,
    pub confirm_token: Option<String>,
    pub expires_at: Option<i64>,
    pub started_at: i64,
    pub finished_at: Option<i64>,
}

impl ExecutionResponse {
    /// Shapes one record: the phase and status become their names.
    pub fn from_execution(e: &Execution) -> (r: ExecutionResponse)
        ensures
            r.id@ == e@.id,
            r.plugin_id@ == e@.plugin_id,
            r.status@ == e.status.spec_name(),
            r.pid == e@.pid,
            r.exit_code == e@.exit_code,
            crate::models::opt_view(r.stdout) == e@.stdout,
            crate::models::opt_view(r.stderr) == e@.stderr,
            crate::models::opt_view(r.preview_payload) == e@.preview_payload,
            crate::models::opt_view(r.confirm_token) == e@.confirm_token,
            r.expires_at == e@.expires_at,
            r.started_at == e@.started_at,
            r.finished_at == e@.finished_at,
    {
        ExecutionResponse {
            id: e.id.clone(),
            plugin_id: e.plugin_id.clone(),
            phase: e.phase.name(),
            status: e.status.name(),
            pid: e.pid,
            exit_code: e.exit_code,
            stdout: crate::models::clone_opt_string(&e.stdout),
            stderr: crate::models::clone_opt_string(&e.stderr),
            preview_payload: crate::models::clone_opt_string(&e.preview_payload),
            confirm_token: crate::models::clone_opt_string(&e.confirm_token),
            expires_at: e.expires_at,
            started_at: e.started_at,
            finished_at: e.finished_at,
        }
    }
}

/// A list of execution records.
#[derive(Debug)]
pub struct ExecutionsListResponse {
    pub data: Vec<ExecutionResponse>,
}

impl ExecutionsListResponse {
    /// Shapes every record of a listing.
    pub fn from_executions(es: &Vec<Execution>) -> (r: ExecutionsListResponse)
        ensures
            r.data@.len() == es@.len(),
            forall|i: int| 0 <= i < es@.len() ==> (#[trigger] r.data@[i]).id@ == es@[i]@.id,
    {
        let mut data: Vec<ExecutionResponse> = Vec::new();
        let mut i: usize = 0;
        while i < es.len()
            invariant
                i <= es@.len(),
                data@.len() == i,
                forall|j: int| 0 <= j < i ==> (#[trigger] data@[j]).id@ == es@[j]@.id,
            decreases es@.len() - i,
        {
            data.push(ExecutionResponse::from_execution(&es[i]));
            i = i + 1;
        }
        ExecutionsListResponse { data }
    }
}

/// One installed plugin, shaped for API clients: the stored schema and
/// dependency strings are parsed back into values.
#[derive(Debug)]
pub struct PluginResponse {
    pub id: String,
    pub name: String,
    pub version: String,
    pub plugin_type: String,
    pub description: String,
    pub author: String,
    pub entry_point: String,
    pub enabled: bool,
    pub created_at: i64,
    pub updated_at: i64,
    pub parameters: Option<Vec<PluginParameter>>,
    pub python_dependencies: Option<PythonDependencies>,
}

/// Reads a stored parameter schema back; absent or blank strings carry no
/// schema, and a present string must parse to the schema it serialised.
pub fn parse_parameters(raw: &Option<String>) -> (r: AppResult<Option<Vec<PluginParameter>>>)
    ensures
        raw is None ==> (r matches Ok(o) && o is None),
        raw matches Some(s) ==> (spec_trim(s@).len() == 0 ==> (r matches Ok(o) && o is None)),
        raw matches Some(s) ==> (spec_trim(s@).len() > 0 ==> (match r {
            Ok(o) => o matches Some(ps) && crate::params::spec_parse_params(spec_trim(s@))
                == Some(crate::params::params_view(ps@)),
            Err(e) => crate::params::spec_parse_params(spec_trim(s@)) is None && e is Execution,
        })),
        r matches Err(e) ==> e is Execution,
{
    let s = (match raw {
        Option::Some(s) => s,
        Option::None => {
            return Ok(None);
        },
    });
    let trimmed = trim_chars(&str_to_chars(s.as_str()));
    if trimmed.len() == 0 {
        return Ok(None);
    }
    let text = crate::text::chars_to_string(&trimmed);
    match crate::params::parse_parameters_str(text.as_str()) {
        Some(ps) => Ok(Some(ps)),
        None => Err(validation_error("Invalid plugin parameters")),
    }
}

/// Reads a stored dependency declaration back; absent or blank strings carry
/// none, and a present string must parse to the declaration it serialised.
pub fn parse_python_dependencies(raw: &Option<String>) -> (r: AppResult<
    Option<PythonDependencies>,
>)
    ensures
        raw is None ==> (r matches Ok(o) && o is None),
        raw matches Some(s) ==> (spec_trim(s@).len() == 0 ==> (r matches Ok(o) && o is None)),
        raw matches Some(s) ==> (spec_trim(s@).len() > 0 ==> (match r {
            Ok(o) => o matches Some(d) && crate::deps::spec_parse_deps(spec_trim(s@)) == Some(
                d@,
            ),
            Err(e) => crate::deps::spec_parse_deps(spec_trim(s@)) is None && e is Execution,
        })),
        r matches Err(e) ==> e is Execution,
{
    let s = (match raw {
        Option::Some(s) => s,
        Option::None => {
            return Ok(None);
        },
    });
    let trimmed = trim_chars(&str_to_chars(s.as_str()));
    if trimmed.len() == 0 {
        return Ok(None);
    }
    let text = crate::text::chars_to_string(&trimmed);
    match crate::deps::parse_python_dependencies(text.as_str()) {
        Some(d) => Ok(Some(d)),
        None => Err(validation_error("Invalid python dependencies")),
    }
}

impl PluginResponse {
    /// Shapes one plugin row; fails when a stored schema or dependency
    /// string does not parse.
    pub fn try_from_plugin(p: &Plugin) -> (r: AppResult<PluginResponse>)
        ensures
            r matches Ok(resp) ==> {
                &&& resp.id@ == p@.plugin_id
                &&& resp.name@ == p@.name
                &&& resp.version@ == p@.version
                &&& resp.entry_point@ == p@.entry_point
                &&& resp.enabled == p@.enabled
                &&& resp.created_at == p@.created_at
                &&& resp.updated_at == p@.updated_at
                &&& (match p.parameters {
                    Option::None => resp.parameters is None,
                    Option::Some(s) => if spec_trim(s@).len() == 0 {
                        resp.parameters is None
                    } else {
                        resp.parameters matches Some(ps) && crate::params::spec_parse_params(
                            spec_trim(s@),
                        ) == Some(crate::params::params_view(ps@))
                    },
                })
                &&& (match p.python_dependencies {
                    Option::None => resp.python_dependencies is None,
                    Option::Some(s) => if spec_trim(s@).len() == 0 {
                        resp.python_dependencies is None
                    } else {
                        resp.python_dependencies matches Some(d)
                            && crate::deps::spec_parse_deps(spec_trim(s@)) == Some(d@)
                    },
                })
            },
            r matches Err(e) ==> e is Execution,
    {
        let parameters = (match parse_parameters(&p.parameters) {
            Ok(o) => o,
            Err(e) => {
                return Err(e);
            },
        });
        let python_dependencies = (match parse_python_dependencies(&p.python_dependencies) {
            Ok(o) => o,
            Err(e) => {
                return Err(e);
            },
        });
        Ok(
            PluginResponse {
                id: p.plugin_id.clone(),
                name: p.name.clone(),
                version: p.version.clone(),
                plugin_type: p.plugin_type.name(),
                description: p.description.clone(),
                author: p.author.clone(),
                entry_point: p.entry_point.clone(),
                enabled: p.enabled,
                created_at: p.created_at,
                updated_at: p.updated_at,
                parameters,
                python_dependencies,
            },
        )
    }
}

/// A list of plugins.
#[derive(Debug)]
pub struct PluginsListResponse {
    pub data: Vec<PluginResponse>,
}

/// The state the request handlers share: the installer and the orchestrator.
pub struct AppState {
    pub plugin_service: PluginService,
    pub execution_service: ExecutionService,
}

} // verus!
