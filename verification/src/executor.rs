//! Building the subprocess command for a plugin run.

use vstd::prelude::*;
use vstd::string::*;
use crate::errors::{AppError, AppResult, validation_error};
use crate::models::{Plugin, PluginType};

verus! {

/// Runs interpreter-runtime plugins: resolves the interpreter inside the
/// plugin's isolated environment, or falls back to a configured default.
#[derive(Debug, Clone)]
pub struct PythonExecutor {
    python_path: String,
}

impl View for PythonExecutor {
    type V = Seq<char>;

    closed spec fn view(&self) -> Seq<char> {
        self.python_path@
    }
}

impl PythonExecutor {
    /// A runner with the given interpreter path, or `python3` by default.
    pub fn new(python_path: Option<String>) -> (r: PythonExecutor)
        ensures
            r@ == (match python_path {
                Some(p) => p@,
                None => "python3"@,
            }),
    {
        PythonExecutor {
            python_path: (match python_path {
                Option::Some(p) => p,
                Option::None => String::from_str("python3"),
            }),
        }
    }

    /// The interpreter inside an environment directory.
    pub fn python_executable_path(venv_dir: &str, windows: bool) -> (r: String)
        ensures
            windows ==> r@ == venv_dir@ + "/Scripts/python.exe"@,
            !windows ==> r@ == venv_dir@ + "/bin/python"@,
    {
        if windows {
            String::from_str(venv_dir).concat("/Scripts/python.exe")
        } else {
            String::from_str(venv_dir).concat("/bin/python")
        }
    }

    /// The directory prepended to `PATH` for an environment.
    pub fn python_bin_dir(venv_dir: &str, windows: bool) -> (r: String)
        ensures
            windows ==> r@ == venv_dir@ + "/Scripts"@,
            !windows ==> r@ == venv_dir@ + "/bin"@,
    {
        if windows {
            String::from_str(venv_dir).concat("/Scripts")
        } else {
            String::from_str(venv_dir).concat("/bin")
        }
    }

    /// The configured fallback interpreter.
    pub fn default_interpreter(&self) -> (r: String)
        ensures
            r@ == self@,
    {
        self.python_path.clone()
    }
}

impl Default for PythonExecutor {
    /// The ambient `python3`.
    fn default() -> (r: PythonExecutor)
        ensures
            r@ == "python3"@,
    {
        PythonExecutor::new(None)
    }
}

/// Everything an operating-system spawn needs, computed ahead of any side
/// effect: the program, its argument, the working directory, extra
/// environment entries, and the files that must exist before spawning.
#[derive(Debug)]
pub struct CommandPlan {
    pub program: String,
    /// The absolute entry-point path handed to the interpreter.
    pub script: String,
    pub cwd: String,
    /// Environment entries applied on top of the inherited environment.
    pub env: Vec<(String, String)>,
    /// Files whose absence must fail the spawn.
    pub preflight: Vec<String>,
}

/// The absolute entry-point path of a plugin.
pub open spec fn spec_script_path(p: crate::models::PluginV) -> Seq<char> {
    p.plugin_path + seq!['/'] + p.entry_point
}

/// A plugin runs from its isolated environment when it is an
/// interpreter-runtime plugin with a non-empty environment path.
pub open spec fn spec_uses_venv(p: crate::models::PluginV) -> bool {
    p.plugin_type == PluginType::Python && (p.python_venv_path matches Some(v) && v.len() > 0)
}

/// The interpreter inside an environment directory.
pub open spec fn spec_venv_python(venv: Seq<char>, windows: bool) -> Seq<char> {
    if windows {
        venv + "/Scripts/python.exe"@
    } else {
        venv + "/bin/python"@
    }
}

/// The directory prepended to `PATH` for an environment.
pub open spec fn spec_venv_bin(venv: Seq<char>, windows: bool) -> Seq<char> {
    if windows {
        venv + "/Scripts"@
    } else {
        venv + "/bin"@
    }
}

/// The program a run uses: the ambient `node` for script-runtime plugins,
/// the environment's interpreter when one exists, the configured fallback
/// otherwise.
pub open spec fn spec_program(
    default_python: Seq<char>,
    p: crate::models::PluginV,
    windows: bool,
) -> Seq<char> {
    if p.plugin_type == PluginType::JavaScript {
        "node"@
    } else if spec_uses_venv(p) {
        spec_venv_python(p.python_venv_path->Some_0, windows)
    } else {
        default_python
    }
}

/// The environment entries added on top of the caller's: `VIRTUAL_ENV` and
/// a `PATH` with the environment's bin directory prepended, for plugins that
/// run from an isolated environment; nothing otherwise.
pub open spec fn spec_env_extras(
    p: crate::models::PluginV,
    ambient_path: Option<Seq<char>>,
    windows: bool,
) -> Seq<(Seq<char>, Seq<char>)> {
    if spec_uses_venv(p) {
        let venv = p.python_venv_path->Some_0;
        let bin = spec_venv_bin(venv, windows);
        let sep: Seq<char> = if windows {
            ";"@
        } else {
            ":"@
        };
        let path_value = (match ambient_path {
            Some(current) => if current.len() > 0 {
                bin + sep + current
            } else {
                bin
            },
            None => bin,
        });
        seq![("VIRTUAL_ENV"@, venv), ("PATH"@, path_value)]
    } else {
        Seq::empty()
    }
}

/// The files a spawn requires to exist: the entry point, and the
/// environment's interpreter when one is used.
pub open spec fn spec_preflight(
    p: crate::models::PluginV,
    windows: bool,
) -> Seq<Seq<char>> {
    if spec_uses_venv(p) {
        seq![spec_script_path(p), spec_venv_python(p.python_venv_path->Some_0, windows)]
    } else {
        seq![spec_script_path(p)]
    }
}

/// Builds the command for one plugin run. For interpreter-runtime plugins
/// with an environment, the interpreter is taken from the environment, and
/// `VIRTUAL_ENV` plus a prepended `PATH` entry are added; script-runtime
/// plugins use the ambient `node`.
pub fn build_command(
    py: &PythonExecutor,
    plugin: &Plugin,
    work_dir: &str,
    base_env: Vec<(String, String)>,
    ambient_path: &Option<String>,
    windows: bool,
) -> (r: CommandPlan)
    ensures
        r.script@ == spec_script_path(plugin@),
        r.cwd@ == work_dir@,
        r.program@ == spec_program(py@, plugin@, windows),
        r.env@.map_values(|kv: (String, String)| (kv.0@, kv.1@)) == base_env@.map_values(
            |kv: (String, String)| (kv.0@, kv.1@),
        ) + spec_env_extras(plugin@, crate::models::opt_view(*ambient_path), windows),
        r.preflight@.map_values(|s: String| s@) == spec_preflight(plugin@, windows),
{
    let mut script = plugin.plugin_path.clone();
    script = script.concat("/");
    script = script.concat(plugin.entry_point.as_str());
    proof {
        reveal_strlit("/");
        assert("/"@ =~= seq!['/']);
        assert(script@ =~= spec_script_path(plugin@));
    }
    let mut env = base_env;
    let mut preflight: Vec<String> = Vec::new();
    preflight.push(script.clone());
    let program: String = (match plugin.plugin_type {
        PluginType::JavaScript => String::from_str("node"),
        PluginType::Python => {
            match &plugin.python_venv_path {
                Option::Some(venv) => {
                    if venv.as_str().unicode_len() > 0 {
                        let interpreter = PythonExecutor::python_executable_path(
                            venv.as_str(),
                            windows,
                        );
                        preflight.push(interpreter.clone());
                        env.push((String::from_str("VIRTUAL_ENV"), venv.clone()));
                        let bin = PythonExecutor::python_bin_dir(venv.as_str(), windows);
                        let sep = (if windows {
                            ";"
                        } else {
                            ":"
                        });
                        let new_path = (match ambient_path {
                            Option::Some(current) => {
                                if current.as_str().unicode_len() > 0 {
                                    bin.concat(sep).concat(current.as_str())
                                } else {
                                    bin
                                }
                            },
                            Option::None => bin,
                        });
                        env.push((String::from_str("PATH"), new_path));
                        interpreter
                    } else {
                        py.default_interpreter()
                    }
                },
                Option::None => py.default_interpreter(),
            }
        },
    });
    proof {
        assert(env@.map_values(|kv: (String, String)| (kv.0@, kv.1@)) =~= base_env@.map_values(
            |kv: (String, String)| (kv.0@, kv.1@),
        ) + spec_env_extras(plugin@, crate::models::opt_view(*ambient_path), windows));
        assert(preflight@.map_values(|s: String| s@) =~= spec_preflight(plugin@, windows));
    }
    CommandPlan { program, script, cwd: String::from_str(work_dir), env, preflight }
}

} // verus!
