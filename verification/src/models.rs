//! The persistent data model: plugins and execution records.

use vstd::prelude::*;
use vstd::string::*;
use crate::json::{Jv, JsonValue, jview_seq};

verus! {

/// The type a plugin parameter declares. `Integer` accepts any JSON integer
/// that fits a machine word; `Json` accepts every value.
#[derive(Debug, Clone, Copy, PartialEq, Eq, Structural)]
pub enum PluginParamType {
    Str,
    Number,
    Integer,
    Boolean,
    Json,
}

impl PluginParamType {
    /// Whether a JSON value is acceptable for this parameter type.
    pub open spec fn spec_matches(&self, v: Jv) -> bool {
        match self {
            PluginParamType::Str => v is Str,
            PluginParamType::Number => v is Int || v is UInt || v is Dec,
            PluginParamType::Integer => v is Int || v is UInt,
            PluginParamType::Boolean => v is Bool,
            PluginParamType::Json => true,
        }
    }

    pub fn matches(&self, value: &JsonValue) -> (r: bool)
        ensures
            r == self.spec_matches(value@),
    {
        match self {
            PluginParamType::Str => matches!(value, JsonValue::Str(_)),
            PluginParamType::Number => matches!(value, JsonValue::Int(_) | JsonValue::UInt(_) | JsonValue::Dec(_)),
            PluginParamType::Integer => matches!(value, JsonValue::Int(_) | JsonValue::UInt(_)),
            PluginParamType::Boolean => matches!(value, JsonValue::Bool(_)),
            PluginParamType::Json => true,
        }
    }

    /// The name this type carries in serialised schemas.
    pub open spec fn spec_name(&self) -> Seq<char> {
        match self {
            PluginParamType::Str => "string"@,
            PluginParamType::Number => "number"@,
            PluginParamType::Integer => "integer"@,
            PluginParamType::Boolean => "boolean"@,
            PluginParamType::Json => "json"@,
        }
    }

    pub fn name(&self) -> (r: String)
        ensures
            r@ == self.spec_name(),
    {
        match self {
            PluginParamType::Str => String::from_str("string"),
            PluginParamType::Number => String::from_str("number"),
            PluginParamType::Integer => String::from_str("integer"),
            PluginParamType::Boolean => String::from_str("boolean"),
            PluginParamType::Json => String::from_str("json"),
        }
    }
}

/// One entry of a plugin's declared parameter schema.
#[derive(Debug)]
pub struct PluginParameter {
    pub name: String,
    pub param_type: PluginParamType,
    pub description: Option<String>,
    pub default: Option<JsonValue>,
    pub choices: Option<Vec<JsonValue>>,
}

/// The mathematical model of a schema entry.
pub struct ParamV {
    pub name: Seq<char>,
    pub param_type: PluginParamType,
    pub description: Option<Seq<char>>,
    pub default: Option<Jv>,
    pub choices: Option<Seq<Jv>>,
}

impl View for PluginParameter {
    type V = ParamV;

    open spec fn view(&self) -> ParamV {
        ParamV {
            name: self.name@,
            param_type: self.param_type,
            description: match self.description {
                Option::Some(d) => Option::Some(d@),
                Option::None => Option::None,
            },
            default: match self.default {
                Option::Some(v) => Option::Some(v@),
                Option::None => Option::None,
            },
            choices: match self.choices {
                Option::Some(cs) => Option::Some(jview_seq(cs@)),
                Option::None => Option::None,
            },
        }
    }
}

/// The runtime a plugin targets: an interpreter with a per-plugin isolated
/// environment (`Python`) or a script run by an ambient interpreter
/// (`JavaScript`).
#[derive(Debug, Clone, Copy, PartialEq, Eq, Structural)]
pub enum PluginType {
    Python,
    JavaScript,
}

/// Phase of a two-phase execution: the dry-run preview or the effecting run.
#[derive(Debug, Clone, Copy, PartialEq, Eq, Structural)]
pub enum ExecutionPhase {
    Prepare,
    Apply,
}

/// Lifecycle state of an execution record.
#[derive(Debug, Clone, Copy, PartialEq, Eq, Structural)]
pub enum ExecutionStatus {
    Pending,
    Running,
    PreviewReady,
    Applying,
    Completed,
    Failed,
    Stopped,
}

/// An installed plugin, as stored in the plugin table.
#[derive(Debug, Clone)]
pub struct Plugin {
    /// Synthetic unique internal id.
    pub id: String,
    /// External identifier; unique; used as the plugin's directory name.
    pub plugin_id: String,
    pub name: String,
    /// Semver version string.
    pub version: String,
    pub plugin_type: PluginType,
    pub description: String,
    pub author: String,
    /// Absolute directory the plugin was extracted into.
    pub plugin_path: String,
    /// Relative path of the entry-point file inside `plugin_path`.
    pub entry_point: String,
    pub enabled: bool,
    /// Serialised parameter schema, when the plugin declares one.
    pub parameters: Option<String>,
    /// Absolute path of the isolated environment; `Python` plugins only.
    pub python_venv_path: Option<String>,
    /// Serialised dependency variant; `Python` plugins only.
    pub python_dependencies: Option<String>,
    /// Minimum host version the plugin requires, when declared.
    pub min_atom_node_version: Option<String>,
    /// Epoch milliseconds.
    pub created_at: i64,
    pub updated_at: i64,
}

/// One recorded execution of a plugin.
#[derive(Debug, Clone)]
pub struct Execution {
    /// Synthetic unique id.
    pub id: String,
    /// The executed plugin's external id.
    pub plugin_id: String,
    pub phase: ExecutionPhase,
    pub status: ExecutionStatus,
    pub pid: Option<i32>,
    pub exit_code: Option<i32>,
    pub stdout: Option<String>,
    pub stderr: Option<String>,
    /// Captured stdout of a successful prepare, kept for the apply phase.
    pub preview_payload: Option<String>,
    /// Opaque nonce issued when a preview becomes ready.
    pub confirm_token: Option<String>,
    /// Epoch milliseconds after which the preview may no longer be applied.
    pub expires_at: Option<i64>,
    /// Epoch milliseconds.
    pub started_at: i64,
    pub finished_at: Option<i64>,
}

/// How a `Python` plugin declares its dependencies.
#[derive(Debug, Clone)]
pub enum PythonDependencies {
    Requirements { path: String },
    Pyproject { path: String },
}

/// The mathematical model of a dependency declaration.
pub enum DepsV {
    Requirements(Seq<char>),
    Pyproject(Seq<char>),
}

impl View for PythonDependencies {
    type V = DepsV;

    open spec fn view(&self) -> DepsV {
        match self {
            PythonDependencies::Requirements { path } => DepsV::Requirements(path@),
            PythonDependencies::Pyproject { path } => DepsV::Pyproject(path@),
        }
    }
}

impl ExecutionPhase {
    /// The phase's name, as shown to API clients.
    pub fn name(&self) -> (r: String)
        ensures
            *self == ExecutionPhase::Prepare ==> r@ == "Prepare"@,
            *self == ExecutionPhase::Apply ==> r@ == "Apply"@,
    {
        match self {
            ExecutionPhase::Prepare => String::from_str("Prepare"),
            ExecutionPhase::Apply => String::from_str("Apply"),
        }
    }
}

impl ExecutionStatus {
    /// The status's name, as shown to API clients.
    pub fn name(&self) -> (r: String)
        ensures
            r@ == self.spec_name(),
    {
        match self {
            ExecutionStatus::Pending => String::from_str("Pending"),
            ExecutionStatus::Running => String::from_str("Running"),
            ExecutionStatus::PreviewReady => String::from_str("PreviewReady"),
            ExecutionStatus::Applying => String::from_str("Applying"),
            ExecutionStatus::Completed => String::from_str("Completed"),
            ExecutionStatus::Failed => String::from_str("Failed"),
            ExecutionStatus::Stopped => String::from_str("Stopped"),
        }
    }

    pub open spec fn spec_name(&self) -> Seq<char> {
        match self {
            ExecutionStatus::Pending => "Pending"@,
            ExecutionStatus::Running => "Running"@,
            ExecutionStatus::PreviewReady => "PreviewReady"@,
            ExecutionStatus::Applying => "Applying"@,
            ExecutionStatus::Completed => "Completed"@,
            ExecutionStatus::Failed => "Failed"@,
            ExecutionStatus::Stopped => "Stopped"@,
        }
    }

    /// Whether the status is terminal: no supervisor will move it again.
    pub open spec fn spec_is_terminal(&self) -> bool {
        match self {
            ExecutionStatus::Completed => true,
            ExecutionStatus::Failed => true,
            ExecutionStatus::Stopped => true,
            _ => false,
        }
    }

    pub fn is_terminal(&self) -> (r: bool)
        ensures
            r == self.spec_is_terminal(),
    {
        match self {
            ExecutionStatus::Completed => true,
            ExecutionStatus::Failed => true,
            ExecutionStatus::Stopped => true,
            _ => false,
        }
    }
}

impl PluginType {
    /// The type's name, as shown to API clients.
    pub fn name(&self) -> (r: String)
        ensures
            *self == PluginType::Python ==> r@ == "Python"@,
            *self == PluginType::JavaScript ==> r@ == "JavaScript"@,
    {
        match self {
            PluginType::Python => String::from_str("Python"),
            PluginType::JavaScript => String::from_str("JavaScript"),
        }
    }
}

/// The mathematical model of a plugin row.
pub struct PluginV {
    pub id: Seq<char>,
    pub plugin_id: Seq<char>,
    pub name: Seq<char>,
    pub version: Seq<char>,
    pub plugin_type: PluginType,
    pub description: Seq<char>,
    pub author: Seq<char>,
    pub plugin_path: Seq<char>,
    pub entry_point: Seq<char>,
    pub enabled: bool,
    pub parameters: Option<Seq<char>>,
    pub python_venv_path: Option<Seq<char>>,
    pub python_dependencies: Option<Seq<char>>,
    pub min_atom_node_version: Option<Seq<char>>,
    pub created_at: i64,
    pub updated_at: i64,
}

pub open spec fn opt_view(o: Option<String>) -> Option<Seq<char>> {
    match o {
        Option::Some(s) => Option::Some(s@),
        Option::None => Option::None,
    }
}

impl View for Plugin {
    type V = PluginV;

    open spec fn view(&self) -> PluginV {
        PluginV {
            id: self.id@,
            plugin_id: self.plugin_id@,
            name: self.name@,
            version: self.version@,
            plugin_type: self.plugin_type,
            description: self.description@,
            author: self.author@,
            plugin_path: self.plugin_path@,
            entry_point: self.entry_point@,
            enabled: self.enabled,
            parameters: opt_view(self.parameters),
            python_venv_path: opt_view(self.python_venv_path),
            python_dependencies: opt_view(self.python_dependencies),
            min_atom_node_version: opt_view(self.min_atom_node_version),
            created_at: self.created_at,
            updated_at: self.updated_at,
        }
    }
}

/// The mathematical model of an execution row.
pub struct ExecutionV {
    pub id: Seq<char>,
    pub plugin_id: Seq<char>,
    pub phase: ExecutionPhase,
    pub status: ExecutionStatus,
    pub pid: Option<i32>,
    pub exit_code: Option<i32>,
    pub stdout: Option<Seq<char>>,
    pub stderr: Option<Seq<char>>,
    pub preview_payload: Option<Seq<char>>,
    pub confirm_token: Option<Seq<char>>,
    pub expires_at: Option<i64>,
    pub started_at: i64,
    pub finished_at: Option<i64>,
}

impl View for Execution {
    type V = ExecutionV;

    open spec fn view(&self) -> ExecutionV {
        ExecutionV {
            id: self.id@,
            plugin_id: self.plugin_id@,
            phase: self.phase,
            status: self.status,
            pid: self.pid,
            exit_code: self.exit_code,
            stdout: opt_view(self.stdout),
            stderr: opt_view(self.stderr),
            preview_payload: opt_view(self.preview_payload),
            confirm_token: opt_view(self.confirm_token),
            expires_at: self.expires_at,
            started_at: self.started_at,
            finished_at: self.finished_at,
        }
    }
}

/// Copies an optional string.
pub fn clone_opt_string(o: &Option<String>) -> (r: Option<String>)
    ensures
        opt_view(r) == opt_view(*o),
{
    match o {
        Option::Some(s) => Option::Some(s.clone()),
        Option::None => Option::None,
    }
}

impl Plugin {
    /// A copy of this row.
    pub fn duplicate(&self) -> (r: Plugin)
        ensures
            r@ == self@,
    {
        Plugin {
            id: self.id.clone(),
            plugin_id: self.plugin_id.clone(),
            name: self.name.clone(),
            version: self.version.clone(),
            plugin_type: self.plugin_type,
            description: self.description.clone(),
            author: self.author.clone(),
            plugin_path: self.plugin_path.clone(),
            entry_point: self.entry_point.clone(),
            enabled: self.enabled,
            parameters: clone_opt_string(&self.parameters),
            python_venv_path: clone_opt_string(&self.python_venv_path),
            python_dependencies: clone_opt_string(&self.python_dependencies),
            min_atom_node_version: clone_opt_string(&self.min_atom_node_version),
            created_at: self.created_at,
            updated_at: self.updated_at,
        }
    }
}

impl Execution {
    /// A copy of this row.
    pub fn duplicate(&self) -> (r: Execution)
        ensures
            r@ == self@,
    {
        Execution {
            id: self.id.clone(),
            plugin_id: self.plugin_id.clone(),
            phase: self.phase,
            status: self.status,
            pid: self.pid,
            exit_code: self.exit_code,
            stdout: clone_opt_string(&self.stdout),
            stderr: clone_opt_string(&self.stderr),
            preview_payload: clone_opt_string(&self.preview_payload),
            confirm_token: clone_opt_string(&self.confirm_token),
            expires_at: self.expires_at,
            started_at: self.started_at,
            finished_at: self.finished_at,
        }
    }
}

} // verus!
