//! Installing, updating and removing plugins.
//!
//! An install is planned entirely up front: the archive is read, the
//! metadata located and validated, the identifier normalised, the extraction
//! checked safe, the entry point resolved against the member list, and the
//! dependency declaration serialised — only then is the row inserted and the
//! plan handed out for the filesystem work. A failure before the insert
//! leaves the table untouched, so there is nothing to roll back.

use vstd::prelude::*;
use vstd::string::*;
use crate::archive::{ArchiveEntry, ExtractStep, archive_of, dir_part_of, find_metadata, has_file,
    is_metadata_entry, is_safe_rel_path, plan_extraction, read_archive, step_safe};
use crate::deps::serialize_python_dependencies;
use crate::errors::{AppError, AppResult, validation_error};
use crate::metadata::{PluginSpec, SpecV, chosen_plugin_id, normalize_plugin_id, parse_metadata,
    parse_plugin_type, resolve_entry_point, resolve_python_dependencies, spec_metadata_of,
    spec_resolved_entry, valid_plugin_id};
use crate::models::{Plugin, PluginType, PluginV, PythonDependencies};
use crate::params::validate_parameters;
use crate::store::{PluginRepository, has_plugin, plugins_unique};
use crate::text::{spec_trim, str_to_chars, trim_chars};
use crate::version::ensure_newer_version;

verus! {

/// The filesystem work an accepted install still requires.
#[derive(Debug)]
pub struct InstallPlan {
    /// The directory the package is extracted into.
    pub plugin_dir: String,
    /// The package members, holding each file's bytes.
    pub entries: Vec<ArchiveEntry>,
    /// One checked write per member; `member` indexes into `entries`.
    pub extract: Vec<ExtractStep>,
    /// The environment directory to provision; interpreter runtime only.
    pub venv_dir: Option<String>,
    /// The dependency declaration to install into the environment.
    pub dependencies: Option<PythonDependencies>,
}

/// The installer; owns the plugin table.
pub struct PluginService {
    repo: PluginRepository,
}

impl View for PluginService {
    type V = Seq<PluginV>;

    closed spec fn view(&self) -> Seq<PluginV> {
        self.repo@
    }
}

/// What a package's bytes declare: its readable member list, the index of
/// the single metadata member, and the parsed metadata. `None` when the
/// archive is malformed, some member cannot be read, the metadata file is
/// missing or duplicated, or its JSON does not parse.
pub open spec fn package_of(bytes: Seq<u8>) -> Option<
    (Seq<(Seq<char>, bool, Seq<u8>, Option<u32>)>, int, SpecV),
> {
    match crate::archive::package_members(bytes) {
        Some(es) => (match crate::archive::metadata_index_of(es) {
            Some(idx) => (match spec_metadata_of(es[idx].2) {
                Ok(m) => Some((es, idx, m)),
                Err(_) => None,
            }),
            None => None,
        }),
        None => None,
    }
}

/// The checks an install performs against a table and a parsed package.
pub open spec fn install_checks(
    table: Seq<PluginV>,
    es: Seq<(Seq<char>, bool, Seq<u8>, Option<u32>)>,
    idx: int,
    m: SpecV,
) -> bool {
    let id = chosen_plugin_id(m.plugin_id, m.name);
    &&& spec_trim(id) == id
    &&& valid_plugin_id(id)
    &&& !has_plugin(table, id)
    &&& spec_trim(m.entry_point).len() > 0
    &&& crate::metadata::known_plugin_type(m.plugin_type)
    &&& (m.parameters matches Some(ps) ==> crate::params::spec_valid_schema(ps))
    &&& (forall|i: int| 0 <= i < es.len() ==> is_safe_rel_path((#[trigger] es[i]).0))
    &&& spec_resolved_entry(es, m.entry_point, dir_part_of(es[idx].0)) is Some
}

/// When an install of these bytes into this table succeeds.
pub open spec fn install_acceptable(table: Seq<PluginV>, bytes: Seq<u8>) -> bool {
    package_of(bytes) matches Some((es, idx, m)) && install_checks(table, es, idx, m)
}

/// When an update of the installed plugin `id` from these bytes succeeds:
/// the candidate names the same plugin, validates like a fresh install, and
/// carries a strictly greater version than the installed row's.
pub open spec fn update_acceptable(table: Seq<PluginV>, id: Seq<char>, bytes: Seq<u8>) -> bool {
    &&& has_plugin(table, id)
    &&& (package_of(bytes) matches Some((es, idx, m)) && {
        &&& chosen_plugin_id(m.plugin_id, m.name) == id
        &&& spec_trim(id) == id
        &&& valid_plugin_id(id)
        &&& spec_trim(m.entry_point).len() > 0
        &&& crate::metadata::known_plugin_type(m.plugin_type)
        &&& (m.parameters matches Some(ps) ==> crate::params::spec_valid_schema(ps))
        &&& (forall|i: int| 0 <= i < es.len() ==> is_safe_rel_path((#[trigger] es[i]).0))
        &&& spec_resolved_entry(es, m.entry_point, dir_part_of(es[idx].0)) is Some
        &&& spec_trim(m.version).len() > 0
        &&& (forall|i: int|
            0 <= i < table.len() && (#[trigger] table[i]).plugin_id == id ==> (
            crate::version::semver_of(spec_trim(m.version)) matches Some(c) && (
            crate::version::semver_of(spec_trim(table[i].version)) matches Some(u)
                && crate::version::version_cmp(c, u) == crate::version::VerOrder::Gt)))
    })
}

/// What a successful install guarantees about the stored row, relative to
/// the package bytes: the stored id is the metadata's declared one (or the
/// name), already trimmed and a single safe path segment; the metadata's
/// strings are stored verbatim; and the stored entry point resolves to a
/// file of the archive.
pub open spec fn install_row_ok(bytes: Seq<u8>, root: Seq<char>, now: i64, p: PluginV) -> bool {
    package_of(bytes) matches Some((es, idx, m)) && {
        &&& p.plugin_id == chosen_plugin_id(m.plugin_id, m.name)
        &&& spec_trim(p.plugin_id) == p.plugin_id
        &&& valid_plugin_id(p.plugin_id)
        &&& p.name == m.name
        &&& p.version == m.version
        &&& p.description == m.description
        &&& p.author == m.author
        &&& spec_resolved_entry(es, m.entry_point, dir_part_of(es[idx].0)) == Some(p.entry_point)
        &&& has_file(es, p.entry_point)
        &&& p.min_atom_node_version == m.min_atom_node_version
        &&& p.enabled == true
        &&& p.created_at == now && p.updated_at == now
        &&& p.plugin_path == root + "/plugins/"@ + p.plugin_id
    }
}

impl PluginService {
    pub open spec fn wf(&self) -> bool {
        plugins_unique(self@)
    }

    /// Wraps a plugin table.
    pub fn new(repo: PluginRepository) -> (r: PluginService)
        ensures
            r@ == repo@,
            repo.wf() ==> r.wf(),
    {
        PluginService { repo }
    }

    /// Every installed plugin, newest first by creation stamp.
    pub fn list_plugins(&self) -> (r: Vec<Plugin>)
        ensures
            r@.map_values(|p: Plugin| p@).to_multiset() == self@.to_multiset(),
            crate::store::plugins_sorted(r@.map_values(|p: Plugin| p@)),
    {
        let r = self.repo.list();
        proof {
            assert(self@ == self.repo@);
        }
        r
    }

    /// Fetches one plugin by its external id.
    pub fn get_plugin(&self, id: &str) -> (r: AppResult<Plugin>)
        ensures
            r is Ok <==> has_plugin(self@, id@),
            r matches Ok(p) ==> exists|i: int|
                0 <= i < self@.len() && (#[trigger] self@[i]).plugin_id == id@ && p@ == self@[i],
            r matches Err(e) ==> e matches AppError::PluginNotFound(_),
    {
        let r = self.repo.get(id);
        proof {
            assert(self@ == self.repo@);
        }
        r
    }

    /// Fetches one plugin by display name.
    pub fn get_plugin_by_name(&self, name: &str) -> (r: AppResult<Plugin>)
        ensures
            r is Ok <==> exists|i: int|
                0 <= i < self@.len() && (#[trigger] self@[i]).name == name@,
            r matches Err(e) ==> e matches AppError::PluginNotFound(_),
    {
        let r = self.repo.get_by_name(name);
        proof {
            assert(self@ == self.repo@);
        }
        r
    }

    /// Turns the enabled bit on; repeating the call changes nothing.
    pub fn enable_plugin(&mut self, id: &str, now: i64) -> (r: AppResult<()>)
        requires
            old(self).wf(),
        ensures
            final(self).wf(),
            r is Ok,
            !has_plugin(old(self)@, id@) ==> final(self)@ == old(self)@,
            forall|i: int|
                0 <= i < old(self)@.len() && (#[trigger] old(self)@[i]).plugin_id == id@ ==> (if (
                old(self)@[i].enabled == true) {
                    final(self)@ == old(self)@
                } else {
                    final(self)@ == old(self)@.update(
                        i,
                        PluginV { enabled: true, updated_at: now, ..old(self)@[i] },
                    )
                }),
    {
        self.repo.update_enabled(id, true, now)
    }

    /// Turns the enabled bit off; repeating the call changes nothing.
    pub fn disable_plugin(&mut self, id: &str, now: i64) -> (r: AppResult<()>)
        requires
            old(self).wf(),
        ensures
            final(self).wf(),
            r is Ok,
            !has_plugin(old(self)@, id@) ==> final(self)@ == old(self)@,
            forall|i: int|
                0 <= i < old(self)@.len() && (#[trigger] old(self)@[i]).plugin_id == id@ ==> (if (
                old(self)@[i].enabled == false) {
                    final(self)@ == old(self)@
                } else {
                    final(self)@ == old(self)@.update(
                        i,
                        PluginV { enabled: false, updated_at: now, ..old(self)@[i] },
                    )
                }),
    {
        self.repo.update_enabled(id, false, now)
    }

    /// Deletes a plugin's row and reports the directories the caller must
    /// remove. `PluginNotFound` exactly when the id is absent, so removing
    /// the same plugin twice fails the second time.
    pub fn uninstall_plugin(&mut self, id: &str) -> (r: AppResult<(String, Option<String>)>)
        requires
            old(self).wf(),
        ensures
            final(self).wf(),
            r is Ok <==> has_plugin(old(self)@, id@),
            r is Err ==> final(self)@ == old(self)@,
            r matches Err(e) ==> e matches AppError::PluginNotFound(_),
            r matches Ok((path, venv)) ==> exists|i: int|
                {
                    &&& 0 <= i < old(self)@.len()
                    &&& (#[trigger] old(self)@[i]).plugin_id == id@
                    &&& final(self)@ == old(self)@.remove(i)
                    &&& path@ == old(self)@[i].plugin_path
                    &&& crate::models::opt_view(venv) == old(self)@[i].python_venv_path
                },
            r is Ok ==> !has_plugin(final(self)@, id@),
    {
        let row = (match self.repo.get(id) {
            Ok(p) => p,
            Err(e) => {
                proof {
                    assert(self@ == self.repo@);
                }
                return Err(e);
            },
        });
        match self.repo.delete(id) {
            Ok(()) => {},
            Err(e) => {
                return Err(e);
            },
        }
        proof {
            crate::store::lemma_unique_plugin_match(old(self)@, id@);
        }
        Ok((row.plugin_path, row.python_venv_path))
    }

    /// `<root>/plugins/<plugin_id>`
    pub fn plugin_dir_for(install_root: &str, plugin_id: &str) -> (r: String)
        ensures
            r@ == install_root@ + "/plugins/"@ + plugin_id@,
    {
        let r = crate::paths::plugins_dir(install_root).concat("/").concat(plugin_id);
        proof {
            reveal_strlit("/plugins");
            reveal_strlit("/");
            reveal_strlit("/plugins/");
            assert(r@ =~= install_root@ + "/plugins/"@ + plugin_id@);
        }
        r
    }

    /// `<root>/data/python_envs/<plugin_id>`
    pub fn python_env_dir_for(install_root: &str, plugin_id: &str) -> (r: String)
        ensures
            r@ == install_root@ + "/data/python_envs/"@ + plugin_id@,
    {
        let r = crate::paths::python_envs_dir(install_root).concat("/").concat(plugin_id);
        proof {
            reveal_strlit("/data/python_envs");
            reveal_strlit("/");
            reveal_strlit("/data/python_envs/");
            assert(r@ =~= install_root@ + "/data/python_envs/"@ + plugin_id@);
        }
        r
    }

    /// Strips a `file://` prefix from a URL, yielding a local path.
    pub fn local_path_from_url(url: &str) -> (r: Option<String>)
        ensures
            (match r {
                Some(p) => crate::paths::spec_local_path_from_url(url@) == Some(p@),
                None => crate::paths::spec_local_path_from_url(url@) is None,
            }),
    {
        crate::paths::local_path_from_url(url)
    }

    /// Maps a package URL to a local path when it needs no network.
    pub fn resolve_local_path(url: &str) -> (r: Option<String>)
        ensures
            (match r {
                Some(p) => crate::paths::spec_resolve_local_path(url@) == Some(p@),
                None => crate::paths::spec_resolve_local_path(url@) is None,
            }),
    {
        crate::paths::resolve_local_path(url)
    }

    /// The interpreter inside an environment directory.
    pub fn python_executable_path(venv_dir: &str, windows: bool) -> (r: String)
        ensures
            windows ==> r@ == venv_dir@ + "/Scripts/python.exe"@,
            !windows ==> r@ == venv_dir@ + "/bin/python"@,
    {
        crate::executor::PythonExecutor::python_executable_path(venv_dir, windows)
    }

    /// The arguments that create an isolated environment.
    pub fn uv_env_args(venv_dir: &str) -> (r: Vec<String>)
        ensures
            r@.map_values(|s: String| s@) == seq!["venv"@, venv_dir@],
    {
        let mut args: Vec<String> = Vec::new();
        args.push(String::from_str("venv"));
        args.push(String::from_str(venv_dir));
        proof {
            assert(args@.map_values(|s: String| s@) =~= seq!["venv"@, venv_dir@]);
        }
        args
    }

    /// The arguments and working directory that install a dependency
    /// declaration into an environment.
    pub fn uv_install_args(python_path: &str, deps: &PythonDependencies, plugin_dir: &str) -> (r:
        (Vec<String>, String))
        ensures
            (match *deps {
                PythonDependencies::Requirements { path: _ } => {
                    &&& r.0@.map_values(|s: String| s@) == seq![
                        "pip"@,
                        "install"@,
                        "--python"@,
                        python_path@,
                        "-r"@,
                        deps@->Requirements_0,
                    ]
                    &&& r.1@ == plugin_dir@
                },
                PythonDependencies::Pyproject { path: _ } => {
                    &&& r.0@.map_values(|s: String| s@) == seq![
                        "pip"@,
                        "install"@,
                        "--python"@,
                        python_path@,
                        "-e"@,
                        "."@,
                    ]
                    &&& r.1@ == spec_project_root(plugin_dir@, deps@->Pyproject_0)
                },
            }),
    {
        let mut args: Vec<String> = Vec::new();
        args.push(String::from_str("pip"));
        args.push(String::from_str("install"));
        args.push(String::from_str("--python"));
        args.push(String::from_str(python_path));
        match deps {
            PythonDependencies::Requirements { path } => {
                args.push(String::from_str("-r"));
                args.push(path.clone());
                proof {
                    assert(args@.map_values(|s: String| s@) =~= seq![
                        "pip"@,
                        "install"@,
                        "--python"@,
                        python_path@,
                        "-r"@,
                        path@,
                    ]);
                }
                (args, String::from_str(plugin_dir))
            },
            PythonDependencies::Pyproject { path } => {
                args.push(String::from_str("-e"));
                args.push(String::from_str("."));
                proof {
                    assert(args@.map_values(|s: String| s@) =~= seq![
                        "pip"@,
                        "install"@,
                        "--python"@,
                        python_path@,
                        "-e"@,
                        "."@,
                    ]);
                }
                let cwd = project_root_for(plugin_dir, path.as_str());
                (args, cwd)
            },
        }
    }

    /// The message a failed packaging-CLI run reports: the trimmed standard
    /// error when it is non-empty, else the trimmed standard output, after a
    /// fixed prefix; the bare prefix when both are blank.
    pub fn uv_failure_message(stderr: &str, stdout: &str) -> (r: String)
        ensures
            r@ == spec_uv_failure_message(stderr@, stdout@),
    {
        let err_t = trim_chars(&str_to_chars(stderr));
        let details = (if err_t.len() > 0 {
            err_t
        } else {
            trim_chars(&str_to_chars(stdout))
        });
        if details.len() == 0 {
            String::from_str("The packaging CLI failed")
        } else {
            let tail = crate::text::chars_to_string(&details);
            String::from_str("The packaging CLI failed: ").concat(tail.as_str())
        }
    }

    /// Serialises a dependency declaration.
    pub fn serialize_python_dependencies(deps: &PythonDependencies) -> (r: String)
        ensures
            r@ == crate::json::jprint(crate::deps::spec_encode_deps(deps@)),
    {
        serialize_python_dependencies(deps)
    }

    /// Validates a declared parameter schema and serialises it.
    pub fn validate_parameters(parameters: &Option<Vec<crate::models::PluginParameter>>) -> (r:
        AppResult<Option<String>>)
        ensures
            parameters is None ==> (r matches Ok(o) && o is None),
            parameters matches Some(ps) ==> ((r is Ok <==> crate::params::spec_valid_schema(
                crate::params::params_view(ps@),
            )) && (r matches Ok(o) ==> (o matches Some(s) && s@ == crate::json::jprint(
                crate::params::spec_encode_params(crate::params::params_view(ps@)),
            )))),
            r matches Err(e) ==> e is Execution,
    {
        validate_parameters(parameters)
    }

    /// Installs a plugin from package bytes: validates everything, inserts
    /// the row, and returns the remaining filesystem work. A failure leaves
    /// the table untouched.
    pub fn install_plugin_from_bytes(
        &mut self,
        bytes: Vec<u8>,
        internal_id: String,
        now: i64,
        install_root: &str,
    ) -> (r: AppResult<(Plugin, InstallPlan)>)
        requires
            old(self).wf(),
        ensures
            final(self).wf(),
            r is Ok <==> install_acceptable(old(self)@, bytes@),
            r is Err ==> final(self)@ == old(self)@,
            r matches Ok((p, plan)) ==> {
                &&& !has_plugin(old(self)@, p@.plugin_id)
                &&& final(self)@ == old(self)@.push(p@)
                &&& install_row_ok(bytes@, install_root@, now, p@)
                &&& p@.id == internal_id@
                &&& plan.plugin_dir@ == p@.plugin_path
                &&& plan.extract@.len() == plan.entries@.len()
                &&& Some(plan.entries@.map_values(|e: ArchiveEntry| e@))
                    == crate::archive::package_members(bytes@)
                &&& (forall|i: int|
                    0 <= i < plan.extract@.len() ==> step_safe(
                        p@.plugin_path,
                        plan.entries@.map_values(|e: ArchiveEntry| e@),
                        #[trigger] plan.extract@[i],
                        i,
                    ))
                &&& (p@.plugin_type == PluginType::Python <==> plan.venv_dir is Some)
                &&& (plan.venv_dir matches Some(v) ==> v@ == install_root@ + "/data/python_envs/"@
                    + p@.plugin_id)
            },
    {
        let ghost bs = bytes@;
        let entries = (match read_archive(bytes) {
            Ok(es) => es,
            Err(e) => {
                return Err(e);
            },
        });
        let ghost es = entries@.map_values(|e: ArchiveEntry| e@);
        proof {
            assert(es.len() == entries@.len());
            assert forall|i: int| 0 <= i < es.len() implies #[trigger] es[i] == entries@[i]@ by {}
            assert forall|i: int|
                0 <= i < entries@.len() implies (#[trigger] entries@[i])@ == es[i] by {}
        }
        let (meta_idx, metadata_dir) = (match find_metadata(&entries) {
            Ok(x) => x,
            Err(e) => {
                proof {
                    assert(crate::archive::metadata_index_of(es) is None);
                }
                return Err(e);
            },
        });
        proof {
            crate::archive::lemma_metadata_index_unique(es, meta_idx as int);
        }
        let meta_bytes = copy_bytes(&entries[meta_idx].data);
        let spec0 = (match parse_metadata(meta_bytes) {
            Ok(s) => s,
            Err(e) => {
                return Err(e);
            },
        });
        let ghost m = spec0@;
        proof {
            assert(es[meta_idx as int] == entries@[meta_idx as int]@);
            assert(package_of(bs) == Some((es, meta_idx as int, m)));
        }
        let plugin_id = (match normalize_plugin_id(&spec0.plugin_id, spec0.name.as_str()) {
            Ok(s) => s,
            Err(e) => {
                proof {
                    assert(!install_checks(old(self)@, es, meta_idx as int, m));
                }
                return Err(e);
            },
        });
        match self.repo.get(plugin_id.as_str()) {
            Ok(_) => {
                proof {
                    assert(self@ == self.repo@);
                    assert(!install_checks(old(self)@, es, meta_idx as int, m));
                }
                return Err(AppError::PluginAlreadyExists(plugin_id));
            },
            Err(_) => {},
        }
        let ep_trim = trim_chars(&str_to_chars(spec0.entry_point.as_str()));
        if ep_trim.len() == 0 {
            proof {
                assert(!install_checks(old(self)@, es, meta_idx as int, m));
            }
            return Err(validation_error("Entry point cannot be empty"));
        }
        let ptype = (match parse_plugin_type(spec0.plugin_type.as_str()) {
            Ok(t) => t,
            Err(e) => {
                proof {
                    assert(!install_checks(old(self)@, es, meta_idx as int, m));
                }
                return Err(e);
            },
        });
        let parameters_json = (match validate_parameters(&spec0.parameters) {
            Ok(o) => o,
            Err(e) => {
                proof {
                    assert(!install_checks(old(self)@, es, meta_idx as int, m));
                }
                return Err(e);
            },
        });
        let plugin_dir = Self::plugin_dir_for(install_root, plugin_id.as_str());
        let extract = (match plan_extraction(&entries, plugin_dir.as_str()) {
            Ok(p) => p,
            Err(e) => {
                proof {
                    assert(!install_checks(old(self)@, es, meta_idx as int, m));
                }
                return Err(e);
            },
        });
        proof {
            assert(crate::models::opt_view(metadata_dir) == dir_part_of(es[meta_idx as int].0));
        }
        let entry_point = (match resolve_entry_point(
            spec0.entry_point.as_str(),
            &entries,
            &metadata_dir,
        ) {
            Ok(p) => p,
            Err(e) => {
                proof {
                    assert(!install_checks(old(self)@, es, meta_idx as int, m));
                }
                return Err(e);
            },
        });
        let mut venv_dir: Option<String> = None;
        let mut dependencies: Option<PythonDependencies> = None;
        let mut python_dependencies_json: Option<String> = None;
        if matches!(ptype, PluginType::Python) {
            let vd = Self::python_env_dir_for(install_root, plugin_id.as_str());
            venv_dir = Some(vd);
            match resolve_python_dependencies(&entries, &metadata_dir, entry_point.as_str()) {
                Option::Some(d) => {
                    python_dependencies_json = Some(Self::serialize_python_dependencies(&d));
                    dependencies = Some(d);
                },
                Option::None => {},
            }
        }
        let plugin = Plugin {
            id: internal_id,
            plugin_id,
            name: spec0.name,
            version: spec0.version,
            plugin_type: ptype,
            description: spec0.description,
            author: spec0.author,
            plugin_path: plugin_dir.clone(),
            entry_point,
            enabled: true,
            parameters: parameters_json,
            python_venv_path: (match &venv_dir {
                Option::Some(v) => Some(v.clone()),
                Option::None => None,
            }),
            python_dependencies: python_dependencies_json,
            min_atom_node_version: spec0.min_atom_node_version,
            created_at: now,
            updated_at: now,
        };
        match self.repo.create(&plugin) {
            Ok(()) => {},
            Err(e) => {
                proof {
                    assert(false);
                }
                return Err(e);
            },
        }
        proof {
            assert(self@ == self.repo@);
            assert(install_checks(old(self)@, es, meta_idx as int, m));
            assert(install_row_ok(bs, install_root@, now, plugin@));
        }
        Ok((plugin, InstallPlan { plugin_dir, entries, extract, venv_dir, dependencies }))
    }

    /// Replaces an installed plugin with a strictly newer candidate from
    /// package bytes: the candidate must name the same plugin, validate like
    /// a fresh install — member-name safety included — and carry a greater
    /// version by the `semver` ordering. Every check runs before anything is
    /// touched; only then is the old row removed and the candidate
    /// installed, so a failure leaves the table exactly as it was. Returns
    /// the removed row's directories together with the new row and its
    /// install plan.
    pub fn update_plugin(
        &mut self,
        id: &str,
        bytes: Vec<u8>,
        internal_id: String,
        now: i64,
        install_root: &str,
    ) -> (r: AppResult<(String, Option<String>, Plugin, InstallPlan)>)
        requires
            old(self).wf(),
        ensures
            final(self).wf(),
            r is Ok <==> update_acceptable(old(self)@, id@, bytes@),
            r is Err ==> final(self)@ == old(self)@,
            !has_plugin(old(self)@, id@) ==> (r matches Err(e) && e matches
                AppError::PluginNotFound(_)),
            r matches Ok((old_path, old_venv, p, plan)) ==> {
                &&& p@.plugin_id == id@
                &&& p@.id == internal_id@
                &&& install_row_ok(bytes@, install_root@, now, p@)
                &&& exists|i: int|
                    {
                        &&& 0 <= i < old(self)@.len()
                        &&& (#[trigger] old(self)@[i]).plugin_id == id@
                        &&& old_path@ == old(self)@[i].plugin_path
                        &&& crate::models::opt_view(old_venv) == old(self)@[i].python_venv_path
                        &&& (crate::version::semver_of(spec_trim(p@.version)) matches Some(cand)
                            && (crate::version::semver_of(
                            spec_trim(old(self)@[i].version),
                        ) matches Some(cur) && crate::version::version_cmp(cand, cur)
                            == crate::version::VerOrder::Gt))
                        &&& final(self)@ == old(self)@.remove(i).push(p@)
                    }
            },
    {
        let ghost bs = bytes@;
        let existing = (match self.repo.get(id) {
            Ok(p) => p,
            Err(e) => {
                proof {
                    assert(self@ == self.repo@);
                }
                return Err(e);
            },
        });
        // validate the whole candidate before touching anything
        let entries = (match read_archive(copy_bytes(&bytes)) {
            Ok(es) => es,
            Err(e) => {
                return Err(e);
            },
        });
        let ghost es = entries@.map_values(|e: ArchiveEntry| e@);
        proof {
            assert(es.len() == entries@.len());
            assert forall|i: int| 0 <= i < es.len() implies #[trigger] es[i] == entries@[i]@ by {}
            assert forall|i: int|
                0 <= i < entries@.len() implies (#[trigger] entries@[i])@ == es[i] by {}
        }
        let (meta_idx, metadata_dir) = (match find_metadata(&entries) {
            Ok(x) => x,
            Err(e) => {
                proof {
                    assert(crate::archive::metadata_index_of(es) is None);
                }
                return Err(e);
            },
        });
        proof {
            crate::archive::lemma_metadata_index_unique(es, meta_idx as int);
        }
        let meta_bytes = copy_bytes(&entries[meta_idx].data);
        let spec0 = (match parse_metadata(meta_bytes) {
            Ok(s) => s,
            Err(e) => {
                return Err(e);
            },
        });
        let ghost m = spec0@;
        proof {
            assert(es[meta_idx as int] == entries@[meta_idx as int]@);
            assert(package_of(bs) == Some((es, meta_idx as int, m)));
        }
        let candidate_id = (match normalize_plugin_id(&spec0.plugin_id, spec0.name.as_str()) {
            Ok(s) => s,
            Err(e) => {
                return Err(e);
            },
        });
        if !crate::text::str_eq(candidate_id.as_str(), id) {
            return Err(validation_error("Plugin id does not match the update target"));
        }
        let ep_trim = trim_chars(&str_to_chars(spec0.entry_point.as_str()));
        if ep_trim.len() == 0 {
            return Err(validation_error("Entry point cannot be empty"));
        }
        match parse_plugin_type(spec0.plugin_type.as_str()) {
            Ok(_) => {},
            Err(e) => {
                return Err(e);
            },
        }
        match validate_parameters(&spec0.parameters) {
            Ok(_) => {},
            Err(e) => {
                return Err(e);
            },
        }
        let plugin_dir = Self::plugin_dir_for(install_root, id);
        match plan_extraction(&entries, plugin_dir.as_str()) {
            Ok(_) => {},
            Err(e) => {
                return Err(e);
            },
        }
        proof {
            assert(crate::models::opt_view(metadata_dir) == dir_part_of(es[meta_idx as int].0));
        }
        match resolve_entry_point(spec0.entry_point.as_str(), &entries, &metadata_dir) {
            Ok(_) => {},
            Err(e) => {
                return Err(e);
            },
        }
        match ensure_newer_version(spec0.version.as_str(), existing.version.as_str()) {
            Ok(()) => {},
            Err(e) => {
                proof {
                    crate::store::lemma_unique_plugin_match(old(self)@, id@);
                }
                return Err(e);
            },
        }
        proof {
            crate::store::lemma_unique_plugin_match(old(self)@, id@);
            assert(update_acceptable(old(self)@, id@, bs));
        }
        let (old_path, old_venv) = (match self.uninstall_plugin(id) {
            Ok(x) => x,
            Err(e) => {
                proof {
                    assert(false);
                }
                return Err(e);
            },
        });
        let ghost mid = self@;
        proof {
            assert(install_acceptable(mid, bs)) by {
                assert(!has_plugin(mid, id@));
                assert(install_checks(mid, es, meta_idx as int, m));
            }
        }
        match self.install_plugin_from_bytes(bytes, internal_id, now, install_root) {
            Ok((p, plan)) => Ok((old_path, old_venv, p, plan)),
            Err(e) => {
                proof {
                    assert(false);
                }
                Err(e)
            },
        }
    }
}

/// The failure report of a packaging-CLI run.
pub open spec fn spec_uv_failure_message(err: Seq<char>, out: Seq<char>) -> Seq<char> {
    if spec_trim(err).len() > 0 {
        "The packaging CLI failed: "@ + spec_trim(err)
    } else if spec_trim(out).len() > 0 {
        "The packaging CLI failed: "@ + spec_trim(out)
    } else {
        "The packaging CLI failed"@
    }
}

/// The directory holding a project file, relative to the plugin directory.
pub open spec fn spec_project_root(plugin_dir: Seq<char>, path: Seq<char>) -> Seq<char> {
    let joined = plugin_dir + seq!['/'] + path;
    let cut = crate::archive::after_last_slash(joined);
    if cut == 0 {
        plugin_dir
    } else {
        joined.subrange(0, cut - 1)
    }
}

/// The working directory for installing a project file.
fn project_root_for(plugin_dir: &str, path: &str) -> (r: String)
    ensures
        r@ == spec_project_root(plugin_dir@, path@),
{
    let joined = String::from_str(plugin_dir).concat("/").concat(path);
    proof {
        reveal_strlit("/");
        assert("/"@ =~= seq!['/']);
        assert(joined@ =~= plugin_dir@ + seq!['/'] + path@);
    }
    let chars = str_to_chars(joined.as_str());
    let cut = crate::archive::file_name_start(&chars);
    if cut == 0 {
        String::from_str(plugin_dir)
    } else {
        let dir = crate::json::copy_range(&chars, 0, cut - 1);
        crate::text::chars_to_string(&dir)
    }
}

/// A copy of a byte buffer.
fn copy_bytes(bytes: &Vec<u8>) -> (r: Vec<u8>)
    ensures
        r@ == bytes@,
{
    let mut r: Vec<u8> = Vec::new();
    let mut i: usize = 0;
    while i < bytes.len()
        invariant
            i <= bytes@.len(),
            r@ == bytes@.subrange(0, i as int),
        decreases bytes@.len() - i,
    {
        r.push(bytes[i]);
        i = i + 1;
        proof {
            assert(r@ =~= bytes@.subrange(0, i as int));
        }
    }
    proof {
        assert(r@ =~= bytes@);
    }
    r
}

} // verus!
