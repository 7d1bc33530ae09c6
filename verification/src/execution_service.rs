//! The two-phase execution orchestrator.
//!
//! Requests create execution records, gate them on the plugin's state, and
//! produce spawn plans; the background supervisor reports back through
//! `on_spawned`, `finish_execution` and `on_wait_error`. Everything the
//! operating system does — spawning, waiting, reading pipes, removing work
//! directories — happens outside, driven by the values returned here.

use vstd::prelude::*;
use vstd::string::*;
use crate::errors::{AppError, AppResult, validation_error};
use crate::executor::{CommandPlan, PythonExecutor, build_command, spec_script_path};
use crate::json::{JsonValue, jprint, Jv, jview_fields};
use crate::models::{Execution, ExecutionPhase, ExecutionStatus, ExecutionV, Plugin,
    PluginParameter};
use crate::params::{params_view, resolve_against_schema, spec_parse_params};
use crate::store::{ExecutionRepository, PREVIEW_TTL_MS, has_exec};
use crate::store::{execs_unique, previews_wf};
use crate::text::{spec_trim, str_to_chars, trim_chars};

verus! {

/// Everything the host process needs to run one plugin child.
#[derive(Debug)]
pub struct SpawnPlan {
    pub execution_id: String,
    pub command: CommandPlan,
    /// The per-execution scratch directory, created before the spawn.
    pub work_dir: String,
    /// The status a zero exit moves the record to.
    pub success_status: ExecutionStatus,
    /// Whether the scratch directory is removed after a successful run.
    pub cleanup_on_success: bool,
}

/// The orchestrator; owns the execution table.
pub struct ExecutionService {
    exec_repo: ExecutionRepository,
    python_executor: PythonExecutor,
}

impl View for ExecutionService {
    type V = Seq<ExecutionV>;

    closed spec fn view(&self) -> Seq<ExecutionV> {
        self.exec_repo@
    }
}

/// The environment entries a run receives: the serialised parameter map when
/// any parameter resolved, and the phase marker.
pub open spec fn spec_run_env(resolved: Seq<(Seq<char>, Jv)>, phase_name: Seq<char>) -> Seq<
    (Seq<char>, Seq<char>),
> {
    let base: Seq<(Seq<char>, Seq<char>)> = if resolved.len() == 0 {
        Seq::empty()
    } else {
        seq![("ATOM_PLUGIN_PARAMS"@, jprint(Jv::Obj(resolved)))]
    };
    base.push(("ATOM_PHASE"@, phase_name))
}

impl ExecutionService {
    pub open spec fn wf(&self) -> bool {
        crate::store::execs_unique(self@) && crate::store::previews_wf(self@)
    }

    /// Wraps an execution table.
    pub fn new(exec_repo: ExecutionRepository) -> (r: ExecutionService)
        ensures
            r@ == exec_repo@,
            exec_repo.wf() ==> r.wf(),
    {
        ExecutionService { exec_repo, python_executor: PythonExecutor::new(None) }
    }

    /// Fetches one record.
    pub fn get_execution(&self, id: &str) -> (r: AppResult<Execution>)
        ensures
            r is Ok <==> has_exec(self@, id@),
            r matches Ok(e) ==> exists|i: int|
                0 <= i < self@.len() && (#[trigger] self@[i]).id == id@ && e@ == self@[i],
            r matches Err(e) ==> e matches AppError::ExecutionNotFound(_),
    {
        let r = self.exec_repo.get(id);
        proof {
            assert(self@ == self.exec_repo@);
        }
        r
    }

    /// Lists records newest first by start stamp, optionally for one plugin.
    pub fn list_executions(&self, plugin_id: &Option<String>) -> (r: Vec<Execution>)
        ensures
            (match plugin_id {
                Some(p) => r@.map_values(|e: Execution| e@).to_multiset()
                    == crate::store::execs_for(self@, p@).to_multiset(),
                None => r@.map_values(|e: Execution| e@).to_multiset() == self@.to_multiset(),
            }),
            crate::store::execs_sorted(r@.map_values(|e: Execution| e@)),
    {
        match plugin_id {
            Option::Some(p) => self.exec_repo.list_by_plugin(p.as_str()),
            Option::None => self.exec_repo.list_all(),
        }
    }

    /// Marks a record stopped. The child process itself is not signalled.
    pub fn stop_execution(&mut self, id: &str) -> (r: AppResult<()>)
        requires
            old(self).wf(),
        ensures
            final(self).wf(),
            r is Ok <==> has_exec(old(self)@, id@),
            r is Err ==> final(self)@ == old(self)@,
            r matches Err(e) ==> e matches AppError::ExecutionNotFound(_),
            r is Ok ==> forall|i: int|
                0 <= i < old(self)@.len() && (#[trigger] old(self)@[i]).id == id@ ==> final(self)@ == old(self)@.update(
                    i,
                    ExecutionV { status: ExecutionStatus::Stopped, ..old(self)@[i] },
                ),
    {
        match self.exec_repo.get(id) {
            Ok(_) => {},
            Err(e) => {
                return Err(e);
            },
        }
        self.exec_repo.update_status(id, ExecutionStatus::Stopped)
    }

    /// Removes every record of one plugin, as uninstalling it cascades over
    /// its executions.
    pub fn remove_executions_for(&mut self, plugin_id: &str) -> (r: AppResult<()>)
        requires
            old(self).wf(),
        ensures
            final(self).wf(),
            r is Ok,
            final(self)@ == crate::store::execs_without(old(self)@, plugin_id@),
            forall|i: int|
                0 <= i < final(self)@.len() ==> (#[trigger] final(self)@[i]).plugin_id
                    != plugin_id@,
    {
        self.exec_repo.delete_by_plugin(plugin_id)
    }

    /// Records the spawned child's pid and marks the record running.
    pub fn on_spawned(&mut self, id: &str, pid: u32) -> (r: AppResult<()>)
        requires
            old(self).wf(),
            pid <= i32::MAX,
        ensures
            final(self).wf(),
            r is Ok,
            forall|i: int|
                0 <= i < old(self)@.len() && (#[trigger] old(self)@[i]).id == id@ ==> final(self)@ == old(self)@.update(
                    i,
                    ExecutionV {
                        pid: Some(pid as i32),
                        status: ExecutionStatus::Running,
                        ..old(self)@[i]
                    },
                ),
            !has_exec(old(self)@, id@) ==> final(self)@ == old(self)@,
    {
        self.exec_repo.update_pid(id, pid)
    }

    /// Closes a record when its child exits, and says whether the work
    /// directory should be removed. A zero exit in the prepare phase turns
    /// into a ready preview whose expiry is exactly one TTL after `now`; any
    /// other zero exit takes `success_status`; a non-zero exit fails the
    /// record.
    pub fn finish_execution(
        &mut self,
        id: &str,
        exit_code: Option<i32>,
        stdout: Option<String>,
        stderr: Option<String>,
        success_status: ExecutionStatus,
        cleanup_on_success: bool,
        confirm_token: String,
        now: i64,
    ) -> (r: AppResult<bool>)
        requires
            old(self).wf(),
            now + PREVIEW_TTL_MS <= i64::MAX,
            success_status == ExecutionStatus::Completed || success_status
                == ExecutionStatus::PreviewReady,
        ensures
            final(self).wf(),
            r is Ok <==> has_exec(old(self)@, id@),
            r is Err ==> final(self)@ == old(self)@,
            r is Ok ==> forall|i: int|
                0 <= i < old(self)@.len() && (#[trigger] old(self)@[i]).id == id@ ==> {
                    let row = old(self)@[i];
                    if exit_code == Some(0i32) && success_status == ExecutionStatus::PreviewReady
                        && row.phase == ExecutionPhase::Prepare {
                        final(self)@ == old(self)@.update(
                            i,
                            ExecutionV {
                                stdout: crate::models::opt_view(stdout),
                                stderr: crate::models::opt_view(stderr),
                                exit_code,
                                status: ExecutionStatus::PreviewReady,
                                finished_at: Some(now),
                                preview_payload: crate::models::opt_view(stdout),
                                confirm_token: Some(confirm_token@),
                                expires_at: Some((now + PREVIEW_TTL_MS) as i64),
                                ..row
                            },
                        ) && (r matches Ok(remove) && remove == cleanup_on_success)
                    } else {
                        final(self)@ == old(self)@.update(
                            i,
                            ExecutionV {
                                stdout: crate::models::opt_view(stdout),
                                stderr: crate::models::opt_view(stderr),
                                exit_code,
                                status: (if exit_code == Some(0i32) && success_status
                                    == ExecutionStatus::Completed {
                                    ExecutionStatus::Completed
                                } else {
                                    ExecutionStatus::Failed
                                }),
                                finished_at: Some(now),
                                ..row
                            },
                        ) && (r matches Ok(remove) && remove == (!(exit_code == Some(0i32))
                            || cleanup_on_success))
                    }
                },
    {
        let row = (match self.exec_repo.get(id) {
            Ok(e) => e,
            Err(e) => {
                return Err(e);
            },
        });
        let ghost pre = self@;
        let zero_exit = (match exit_code {
            Option::Some(c) => c == 0,
            Option::None => false,
        });
        if zero_exit && matches!(success_status, ExecutionStatus::PreviewReady) && matches!(
            row.phase,
            ExecutionPhase::Prepare,
        ) {
            proof {
                crate::store::lemma_unique_exec_match(pre, id@);
            }
            match self.exec_repo.mark_preview_ready(id, stdout, stderr, exit_code, confirm_token, now) {
                Ok(()) => {},
                Err(e) => {
                    return Err(e);
                },
            }
            Ok(cleanup_on_success)
        } else {
            let status = (if zero_exit && matches!(success_status, ExecutionStatus::Completed) {
                ExecutionStatus::Completed
            } else {
                ExecutionStatus::Failed
            });
            match self.exec_repo.update_result(id, stdout, stderr, exit_code, status, now) {
                Ok(()) => {},
                Err(e) => {
                    return Err(e);
                },
            }
            Ok(!zero_exit || cleanup_on_success)
        }
    }

    /// Fails a record whose child could not be awaited.
    pub fn on_wait_error(&mut self, id: &str, message: &str, now: i64) -> (r: AppResult<()>)
        requires
            old(self).wf(),
        ensures
            final(self).wf(),
            r is Ok,
            !has_exec(old(self)@, id@) ==> final(self)@ == old(self)@,
            forall|i: int|
                0 <= i < old(self)@.len() && (#[trigger] old(self)@[i]).id == id@ ==> final(self)@ == old(self)@.update(
                    i,
                    ExecutionV {
                        stdout: None,
                        stderr: Some("Error: "@ + message@),
                        exit_code: None,
                        status: ExecutionStatus::Failed,
                        finished_at: Some(now),
                        ..old(self)@[i]
                    },
                ),
    {
        let msg = String::from_str("Error: ").concat(message);
        self.exec_repo.update_result(id, None, Some(msg), None, ExecutionStatus::Failed, now)
    }

    /// Whether a status is among the awaited targets.
    pub fn status_in(targets: &Vec<ExecutionStatus>, current: ExecutionStatus) -> (r: bool)
        ensures
            r == targets@.contains(current),
    {
        let mut i: usize = 0;
        while i < targets.len()
            invariant
                i <= targets@.len(),
                forall|j: int| 0 <= j < i ==> targets@[j] != current,
            decreases targets@.len() - i,
        {
            if targets[i] == current {
                return true;
            }
            i = i + 1;
        }
        proof {
            if targets@.contains(current) {
                let j = choose|j: int| 0 <= j < targets@.len() && targets@[j] == current;
                assert(false);
            }
        }
        false
    }

    /// Reads a stored parameter schema; an absent or blank schema is empty.
    pub fn parse_parameters(raw: &Option<String>) -> (r: AppResult<Vec<PluginParameter>>)
        ensures
            raw is None ==> (r matches Ok(ps) && ps@.len() == 0),
            raw matches Some(s) ==> (spec_trim(s@).len() == 0 ==> (r matches Ok(ps) && ps@.len()
                == 0)),
            raw matches Some(s) ==> (spec_trim(s@).len() > 0 ==> (match r {
                Ok(ps) => spec_parse_params(spec_trim(s@)) == Some(params_view(ps@)),
                Err(e) => spec_parse_params(spec_trim(s@)) is None && e is Execution,
            })),
    {
        let s = (match raw {
            Option::Some(s) => s,
            Option::None => {
                return Ok(Vec::new());
            },
        });
        let trimmed = trim_chars(&str_to_chars(s.as_str()));
        if trimmed.len() == 0 {
            return Ok(Vec::new());
        }
        let text = crate::text::chars_to_string(&trimmed);
        match crate::params::parse_parameters_str(text.as_str()) {
            Some(ps) => Ok(ps),
            None => Err(validation_error("Invalid plugin parameters")),
        }
    }

    /// Resolves caller-provided values against a stored schema: an absent or
    /// blank schema accepts only an empty set of values; otherwise the stored
    /// text must parse, and resolution follows the schema's rules.
    pub fn resolve_parameters(raw: &Option<String>, provided: Vec<(String, JsonValue)>) -> (r:
        AppResult<Vec<(String, JsonValue)>>)
        ensures
            r matches Err(e) ==> e is Execution,
            r is Ok <==> crate::params::spec_params_ok(
                crate::models::opt_view(*raw),
                jview_fields(provided@),
            ),
            r matches Ok(res) ==> jview_fields(res@) == crate::params::spec_resolved_params(
                crate::models::opt_view(*raw),
                jview_fields(provided@),
            ),
    {
        let ghost pr = jview_fields(provided@);
        let ghost rawv = crate::models::opt_view(*raw);
        let schema = (match Self::parse_parameters(raw) {
            Ok(s) => s,
            Err(e) => {
                return Err(e);
            },
        });
        let ghost psv = params_view(schema@);
        proof {
            if schema@.len() == 0 {
                assert(psv =~= Seq::<crate::models::ParamV>::empty());
                assert(crate::params::spec_defaults_list(psv, pr) =~= Seq::<(
                    Seq<char>,
                    crate::json::Jv,
                )>::empty());
                assert(pr + crate::params::spec_defaults_list(psv, pr) =~= pr);
            }
        }
        let r = resolve_against_schema(&schema, provided);
        proof {
            crate::params::lemma_params_view_len(schema@);
            match rawv {
                Option::None => {},
                Option::Some(sv) => {
                    if spec_trim(sv).len() > 0 {
                        assert(spec_parse_params(spec_trim(sv)) == Some(psv));
                    }
                },
            }
        }
        r
    }

    /// Checks a value against one parameter's choices.
    pub fn ensure_choice(param: &PluginParameter, value: &JsonValue) -> (r: AppResult<()>)
        ensures
            r is Ok <==> (param@.choices matches Some(cs) ==> cs.contains(value@)),
            r matches Err(e) ==> e is Execution,
    {
        crate::params::ensure_choice(param, value)
    }

    /// Rejects plugins that require a newer host.
    pub fn ensure_min_atom_node_version(required: &Option<String>) -> (r: AppResult<()>)
        ensures
            r is Ok <==> (match required {
                Some(req) => spec_trim(req@).len() > 0 && (crate::version::semver_of(
                    spec_trim(req@),
                ) matches Some(q) && (crate::version::semver_of(
                    crate::version::HOST_VERSION@,
                ) matches Some(h) && crate::version::version_cmp(h, q)
                    != crate::version::VerOrder::Lt)),
                None => true,
            }),
            r matches Err(e) ==> e is Execution,
    {
        crate::version::ensure_min_atom_node_version(required)
    }

    /// The per-execution scratch directory.
    pub fn work_dir_for(install_root: &str, execution_id: &str) -> (r: String)
        ensures
            r@ == install_root@ + "/work_dir/"@ + execution_id@,
    {
        let r = crate::paths::work_dir(install_root).concat("/").concat(execution_id);
        proof {
            reveal_strlit("/work_dir");
            reveal_strlit("/");
            reveal_strlit("/work_dir/");
            assert(r@ =~= install_root@ + "/work_dir/"@ + execution_id@);
        }
        r
    }

    /// Builds the environment for a run.
    fn run_env(resolved: &Vec<(String, JsonValue)>, phase_apply: bool) -> (r: Vec<
        (String, String),
    >)
        ensures
            r@.map_values(|kv: (String, String)| (kv.0@, kv.1@)) == spec_run_env(
                jview_fields(resolved@),
                if phase_apply {
                    "apply"@
                } else {
                    "prepare"@
                },
            ),
    {
        let mut env: Vec<(String, String)> = Vec::new();
        proof {
            crate::json::lemma_jview_fields_len(resolved@);
        }
        if resolved.len() > 0 {
            let map_value = JsonValue::Obj(crate::json::dup_members(resolved, 0));
            let json = map_value.to_json();
            proof {
                assert(resolved@.subrange(0, resolved@.len() as int) =~= resolved@);
            }
            env.push((String::from_str("ATOM_PLUGIN_PARAMS"), json));
        }
        let phase = (if phase_apply {
            String::from_str("apply")
        } else {
            String::from_str("prepare")
        });
        env.push((String::from_str("ATOM_PHASE"), phase));
        proof {
            assert(env@.map_values(|kv: (String, String)| (kv.0@, kv.1@)) =~= spec_run_env(
                jview_fields(resolved@),
                if phase_apply {
                    "apply"@
                } else {
                    "prepare"@
                },
            ));
        }
        env
    }

    /// The single-phase shortcut: gates on the plugin, resolves parameters,
    /// creates an apply-phase record, and plans the spawn with success
    /// status `Completed` and scratch cleanup.
    pub fn execute_plugin(
        &mut self,
        plugin: &Plugin,
        provided: Vec<(String, JsonValue)>,
        id: String,
        now: i64,
        install_root: &str,
        ambient_path: &Option<String>,
        windows: bool,
    ) -> (r: AppResult<(Execution, SpawnPlan)>)
        requires
            old(self).wf(),
        ensures
            final(self).wf(),
            r is Err ==> final(self)@ == old(self)@,
            !plugin.enabled ==> (r matches Err(e) && e is PluginDisabled),
            r is Ok <==> (plugin.enabled && crate::version::spec_min_version_ok(
                crate::models::opt_view(plugin.min_atom_node_version),
            ) && crate::params::spec_params_ok(
                crate::models::opt_view(plugin.parameters),
                jview_fields(provided@),
            ) && !has_exec(old(self)@, id@)),
            r matches Ok((e, plan)) ==> {
                &&& plugin.enabled
                &&& e@.phase == ExecutionPhase::Apply
                &&& e@.status == ExecutionStatus::Pending
                &&& e@.plugin_id == plugin.plugin_id@
                &&& e@.id == id@
                &&& e@.started_at == now
                &&& final(self)@ == old(self)@.push(e@)
                &&& plan.success_status == ExecutionStatus::Completed
                &&& plan.cleanup_on_success == true
                &&& plan.execution_id@ == id@
                &&& plan.work_dir@ == install_root@ + "/work_dir/"@ + id@
                &&& plan.command.script@ == spec_script_path(plugin@)
                &&& plan.command.cwd@ == plan.work_dir@
                &&& plan.command.env@.map_values(|kv: (String, String)| (kv.0@, kv.1@))
                    == spec_run_env(
                    crate::params::spec_resolved_params(
                        crate::models::opt_view(plugin.parameters),
                        jview_fields(provided@),
                    ),
                    "apply"@,
                ) + crate::executor::spec_env_extras(
                    plugin@,
                    crate::models::opt_view(*ambient_path),
                    windows,
                )
            },
    {
        self.start_run(plugin, provided, id, now, install_root, ambient_path, windows, true)
    }

    /// The preview phase: like `execute_plugin`, but the record is created
    /// in the prepare phase, success leaves a ready preview, and the scratch
    /// directory is retained.
    pub fn prepare_plugin(
        &mut self,
        plugin: &Plugin,
        provided: Vec<(String, JsonValue)>,
        id: String,
        now: i64,
        install_root: &str,
        ambient_path: &Option<String>,
        windows: bool,
    ) -> (r: AppResult<(Execution, SpawnPlan)>)
        requires
            old(self).wf(),
        ensures
            final(self).wf(),
            r is Err ==> final(self)@ == old(self)@,
            !plugin.enabled ==> (r matches Err(e) && e is PluginDisabled),
            r is Ok <==> (plugin.enabled && crate::version::spec_min_version_ok(
                crate::models::opt_view(plugin.min_atom_node_version),
            ) && crate::params::spec_params_ok(
                crate::models::opt_view(plugin.parameters),
                jview_fields(provided@),
            ) && !has_exec(old(self)@, id@)),
            r matches Ok((e, plan)) ==> {
                &&& plugin.enabled
                &&& e@.phase == ExecutionPhase::Prepare
                &&& e@.status == ExecutionStatus::Pending
                &&& e@.plugin_id == plugin.plugin_id@
                &&& e@.id == id@
                &&& e@.started_at == now
                &&& final(self)@ == old(self)@.push(e@)
                &&& plan.success_status == ExecutionStatus::PreviewReady
                &&& plan.cleanup_on_success == false
                &&& plan.execution_id@ == id@
                &&& plan.work_dir@ == install_root@ + "/work_dir/"@ + id@
                &&& plan.command.script@ == spec_script_path(plugin@)
                &&& plan.command.cwd@ == plan.work_dir@
                &&& plan.command.env@.map_values(|kv: (String, String)| (kv.0@, kv.1@))
                    == spec_run_env(
                    crate::params::spec_resolved_params(
                        crate::models::opt_view(plugin.parameters),
                        jview_fields(provided@),
                    ),
                    "prepare"@,
                ) + crate::executor::spec_env_extras(
                    plugin@,
                    crate::models::opt_view(*ambient_path),
                    windows,
                )
            },
    {
        self.start_run(plugin, provided, id, now, install_root, ambient_path, windows, false)
    }

    fn start_run(
        &mut self,
        plugin: &Plugin,
        provided: Vec<(String, JsonValue)>,
        id: String,
        now: i64,
        install_root: &str,
        ambient_path: &Option<String>,
        windows: bool,
        apply_phase: bool,
    ) -> (r: AppResult<(Execution, SpawnPlan)>)
        requires
            old(self).wf(),
        ensures
            final(self).wf(),
            r is Err ==> final(self)@ == old(self)@,
            !plugin.enabled ==> (r matches Err(e) && e is PluginDisabled),
            r is Ok <==> (plugin.enabled && crate::version::spec_min_version_ok(
                crate::models::opt_view(plugin.min_atom_node_version),
            ) && crate::params::spec_params_ok(
                crate::models::opt_view(plugin.parameters),
                jview_fields(provided@),
            ) && !has_exec(old(self)@, id@)),
            r matches Ok((e, plan)) ==> {
                &&& plugin.enabled
                &&& e@.phase == (if apply_phase {
                    ExecutionPhase::Apply
                } else {
                    ExecutionPhase::Prepare
                })
                &&& e@.status == ExecutionStatus::Pending
                &&& e@.plugin_id == plugin.plugin_id@
                &&& e@.id == id@
                &&& e@.started_at == now
                &&& final(self)@ == old(self)@.push(e@)
                &&& plan.success_status == (if apply_phase {
                    ExecutionStatus::Completed
                } else {
                    ExecutionStatus::PreviewReady
                })
                &&& plan.cleanup_on_success == apply_phase
                &&& plan.execution_id@ == id@
                &&& plan.work_dir@ == install_root@ + "/work_dir/"@ + id@
                &&& plan.command.script@ == spec_script_path(plugin@)
                &&& plan.command.cwd@ == plan.work_dir@
                &&& plan.command.env@.map_values(|kv: (String, String)| (kv.0@, kv.1@))
                    == spec_run_env(
                    crate::params::spec_resolved_params(
                        crate::models::opt_view(plugin.parameters),
                        jview_fields(provided@),
                    ),
                    (if apply_phase {
                    "apply"@
                } else {
                    "prepare"@
                }),
                ) + crate::executor::spec_env_extras(
                    plugin@,
                    crate::models::opt_view(*ambient_path),
                    windows,
                )
            },
    {
        if !plugin.enabled {
            return Err(AppError::PluginDisabled);
        }
        match Self::ensure_min_atom_node_version(&plugin.min_atom_node_version) {
            Ok(()) => {},
            Err(e) => {
                return Err(e);
            },
        }
        let resolved = (match Self::resolve_parameters(&plugin.parameters, provided) {
            Ok(v) => v,
            Err(e) => {
                return Err(e);
            },
        });
        let env = Self::run_env(&resolved, apply_phase);
        let phase = (if apply_phase {
            ExecutionPhase::Apply
        } else {
            ExecutionPhase::Prepare
        });
        let execution = (match self.exec_repo.create_with_phase(
            plugin.plugin_id.as_str(),
            phase,
            id,
            now,
        ) {
            Ok(e) => e,
            Err(e) => {
                return Err(e);
            },
        });
        let work = Self::work_dir_for(install_root, execution.id.as_str());
        let command = build_command(
            &self.python_executor,
            plugin,
            work.as_str(),
            env,
            ambient_path,
            windows,
        );
        let plan = SpawnPlan {
            execution_id: execution.id.clone(),
            command,
            work_dir: work,
            success_status: (if apply_phase {
                ExecutionStatus::Completed
            } else {
                ExecutionStatus::PreviewReady
            }),
            cleanup_on_success: apply_phase,
        };
        Ok((execution, plan))
    }

    /// The apply phase. The stored record must be a ready, unexpired preview
    /// whose token equals the caller's, its plugin must match, be enabled
    /// and compatible, and the parameters must resolve; everything is
    /// re-checked atomically when the record transitions, so a failed check
    /// leaves the table untouched and reports which gate refused it. The
    /// retained preview payload is handed to the child as
    /// `ATOM_PREVIEW_PLAN`.
    pub fn apply_execution(
        &mut self,
        id: &str,
        confirm_token: &str,
        plugin: &Plugin,
        provided: Vec<(String, JsonValue)>,
        now: i64,
        install_root: &str,
        ambient_path: &Option<String>,
        windows: bool,
    ) -> (r: AppResult<(Execution, SpawnPlan)>)
        requires
            old(self).wf(),
        ensures
            final(self).wf(),
            r is Err ==> final(self)@ == old(self)@,
            !has_exec(old(self)@, id@) ==> (r matches Err(e) && e matches
                AppError::ExecutionNotFound(_)),
            forall|i: int|
                0 <= i < old(self)@.len() && (#[trigger] old(self)@[i]).id == id@ ==> {
                    let row = old(self)@[i];
                    let plugin_ok = row.plugin_id == plugin.plugin_id@ && plugin.enabled
                        && crate::version::spec_min_version_ok(
                        crate::models::opt_view(plugin.min_atom_node_version),
                    ) && crate::params::spec_params_ok(
                        crate::models::opt_view(plugin.parameters),
                        jview_fields(provided@),
                    );
                    &&& (r is Ok <==> row.phase == ExecutionPhase::Prepare && row.status
                        == ExecutionStatus::PreviewReady && plugin_ok && row.confirm_token
                        == Some(confirm_token@) && (row.expires_at matches Some(x) && now <= x))
                    &&& (row.phase != ExecutionPhase::Prepare ==> (r matches Err(e) && e matches
                        AppError::Execution(msg) && msg@
                        == "Only preview executions can be applied"@))
                    &&& ((row.phase == ExecutionPhase::Prepare && row.status
                        != ExecutionStatus::PreviewReady) ==> (r matches Err(e) && e matches
                        AppError::Execution(msg) && msg@ == "Execution is not ready to apply"@))
                    &&& ((row.phase == ExecutionPhase::Prepare && row.status
                        == ExecutionStatus::PreviewReady && plugin_ok && row.confirm_token
                        != Some(confirm_token@)) ==> (r matches Err(e) && e matches
                        AppError::Execution(msg) && msg@ == "Invalid confirm token"@))
                    &&& ((row.phase == ExecutionPhase::Prepare && row.status
                        == ExecutionStatus::PreviewReady && plugin_ok && row.confirm_token
                        == Some(confirm_token@) && !(row.expires_at matches Some(x) && now <= x))
                        ==> (r matches Err(e) && e matches AppError::Execution(msg) && msg@
                        == "Preview has expired, please run prepare again"@))
                    &&& (r matches Ok((e, plan)) ==> {
                        &&& e@ == (ExecutionV {
                            phase: ExecutionPhase::Apply,
                            status: ExecutionStatus::Pending,
                            pid: None,
                            exit_code: None,
                            stdout: None,
                            stderr: None,
                            confirm_token: None,
                            started_at: now,
                            finished_at: None,
                            ..row
                        })
                        &&& final(self)@ == old(self)@.update(i, e@)
                        &&& plan.execution_id@ == e@.id
                        &&& plan.success_status == ExecutionStatus::Completed
                        &&& plan.cleanup_on_success == true
                        &&& plan.work_dir@ == install_root@ + "/work_dir/"@ + row.id
                        &&& plan.command.script@ == spec_script_path(plugin@)
                        &&& plan.command.cwd@ == plan.work_dir@
                        &&& plan.command.env@.map_values(|kv: (String, String)| (kv.0@, kv.1@))
                            == spec_run_env(
                            crate::params::spec_resolved_params(
                                crate::models::opt_view(plugin.parameters),
                                jview_fields(provided@),
                            ),
                            "apply"@,
                        ) + (match row.preview_payload {
                            Some(pp) => seq![("ATOM_PREVIEW_PLAN"@, pp)],
                            None => Seq::empty(),
                        }) + crate::executor::spec_env_extras(
                            plugin@,
                            crate::models::opt_view(*ambient_path),
                            windows,
                        )
                    })
                },
    {
        let row = (match self.exec_repo.get(id) {
            Ok(e) => e,
            Err(e) => {
                return Err(e);
            },
        });
        proof {
            crate::store::lemma_unique_exec_match(old(self)@, id@);
        }
        if !matches!(row.phase, ExecutionPhase::Prepare) {
            return Err(validation_error("Only preview executions can be applied"));
        }
        if !matches!(row.status, ExecutionStatus::PreviewReady) {
            return Err(validation_error("Execution is not ready to apply"));
        }
        if !crate::text::str_eq(row.plugin_id.as_str(), plugin.plugin_id.as_str()) {
            return Err(validation_error("Plugin does not match the execution"));
        }
        if !plugin.enabled {
            return Err(AppError::PluginDisabled);
        }
        match Self::ensure_min_atom_node_version(&plugin.min_atom_node_version) {
            Ok(()) => {},
            Err(e) => {
                return Err(e);
            },
        }
        let resolved = (match Self::resolve_parameters(&plugin.parameters, provided) {
            Ok(v) => v,
            Err(e) => {
                return Err(e);
            },
        });
        let mut env = Self::run_env(&resolved, true);
        let ghost base_env_v = env@.map_values(|kv: (String, String)| (kv.0@, kv.1@));
        match &row.preview_payload {
            Option::Some(plan_text) => {
                env.push((String::from_str("ATOM_PREVIEW_PLAN"), plan_text.clone()));
            },
            Option::None => {},
        }
        proof {
            assert(env@.map_values(|kv: (String, String)| (kv.0@, kv.1@)) =~= base_env_v + (
            match row@.preview_payload {
                Some(pp) => seq![("ATOM_PREVIEW_PLAN"@, pp)],
                None => Seq::empty(),
            }));
        }
        let updated = (match self.exec_repo.begin_apply(id, confirm_token, now) {
            Ok(e) => e,
            Err(e) => {
                return Err(e);
            },
        });
        let work = Self::work_dir_for(install_root, updated.id.as_str());
        let command = build_command(
            &self.python_executor,
            plugin,
            work.as_str(),
            env,
            ambient_path,
            windows,
        );
        let plan = SpawnPlan {
            execution_id: updated.id.clone(),
            command,
            work_dir: work,
            success_status: ExecutionStatus::Completed,
            cleanup_on_success: true,
        };
        Ok((updated, plan))
    }
}

} // verus!
