//! Package metadata: the `metadata.json` shape, identifier rules, entry-point
//! resolution and dependency lookup.

use vstd::prelude::*;
use vstd::string::*;
use crate::archive::{ArchiveEntry, dir_part_of, has_file, is_safe_rel_path, safe_rel_path};
use crate::errors::{AppError, AppResult, validation_error};
use crate::json::{Jv, JsonValue, jp_doc};
use crate::models::{ParamV, PluginParameter, PluginType, PythonDependencies};
use crate::params::{decode_params, lookup_field, obj_lookup, params_view, spec_decode_params};
use crate::text::{chars_to_string, spec_trim, str_eq, str_to_chars, trim_chars};

verus! {

/// The declared contents of a `metadata.json`.
#[derive(Debug)]
pub struct PluginSpec {
    pub plugin_id: Option<String>,
    pub name: String,
    pub version: String,
    pub plugin_type: String,
    pub description: String,
    pub author: String,
    pub entry_point: String,
    pub parameters: Option<Vec<PluginParameter>>,
    pub min_atom_node_version: Option<String>,
}

/// The mathematical model of a metadata declaration.
pub struct SpecV {
    pub plugin_id: Option<Seq<char>>,
    pub name: Seq<char>,
    pub version: Seq<char>,
    pub plugin_type: Seq<char>,
    pub description: Seq<char>,
    pub author: Seq<char>,
    pub entry_point: Seq<char>,
    pub parameters: Option<Seq<ParamV>>,
    pub min_atom_node_version: Option<Seq<char>>,
}

impl View for PluginSpec {
    type V = SpecV;

    open spec fn view(&self) -> SpecV {
        SpecV {
            plugin_id: crate::models::opt_view(self.plugin_id),
            name: self.name@,
            version: self.version@,
            plugin_type: self.plugin_type@,
            description: self.description@,
            author: self.author@,
            entry_point: self.entry_point@,
            parameters: (match self.parameters {
                Option::Some(ps) => Option::Some(params_view(ps@)),
                Option::None => Option::None,
            }),
            min_atom_node_version: crate::models::opt_view(self.min_atom_node_version),
        }
    }
}

/// What `String::from_utf8` decodes a byte sequence to, when it is valid
/// UTF-8: the result depends on the bytes alone.
pub uninterp spec fn utf8_of(bs: Seq<u8>) -> Option<Seq<char>>;

/// Relies on `String::from_utf8`: UTF-8 validation and decoding.
#[verifier::external_body]
pub fn bytes_to_string(bytes: Vec<u8>) -> (r: Option<String>)
    ensures
        (match r {
            Some(s) => utf8_of(bytes@) == Some(s@),
            None => utf8_of(bytes@) is None,
        }),
{
    match String::from_utf8(bytes) {
        Ok(s) => Some(s),
        Err(_) => None,
    }
}

/// One metadata object read from JSON: the six required string members, and
/// the optional identifier, schema, and minimum host version.
pub open spec fn spec_decode_plugin_spec(v: Jv) -> Option<SpecV> {
    match v {
        Jv::Obj(fs) => {
            let pid = obj_lookup(fs, "plugin_id"@);
            let nm = obj_lookup(fs, "name"@);
            let vs = obj_lookup(fs, "version"@);
            let pt = obj_lookup(fs, "plugin_type"@);
            let ds = obj_lookup(fs, "description"@);
            let au = obj_lookup(fs, "author"@);
            let ep = obj_lookup(fs, "entry_point"@);
            let pr = obj_lookup(fs, "parameters"@);
            let mv = obj_lookup(fs, "min_atom_node_version"@);
            if !(nm matches Some(x) && x is Str) || !(vs matches Some(x) && x is Str) || !(
            pt matches Some(x) && x is Str) || !(ds matches Some(x) && x is Str) || !(
            au matches Some(x) && x is Str) || !(ep matches Some(x) && x is Str) {
                None
            } else if pid matches Some(x) && !(x is Str) {
                None
            } else if mv matches Some(x) && !(x is Str) {
                None
            } else if pr matches Some(x) && spec_decode_params(x) is None {
                None
            } else {
                Some(
                    SpecV {
                        plugin_id: (match pid {
                            Some(Jv::Str(s)) => Some(s),
                            _ => None,
                        }),
                        name: nm->Some_0->Str_0,
                        version: vs->Some_0->Str_0,
                        plugin_type: pt->Some_0->Str_0,
                        description: ds->Some_0->Str_0,
                        author: au->Some_0->Str_0,
                        entry_point: ep->Some_0->Str_0,
                        parameters: (match pr {
                            Some(x) => spec_decode_params(x),
                            None => None,
                        }),
                        min_atom_node_version: (match mv {
                            Some(Jv::Str(s)) => Some(s),
                            _ => None,
                        }),
                    },
                )
            }
        },
        _ => None,
    }
}

/// The two accepted shapes of a metadata document: a single object, or an
/// object whose `install_plugins` array holds exactly one object.
pub open spec fn spec_decode_payload(v: Jv) -> Result<SpecV, bool> {
    let multi = (match v {
        Jv::Obj(fs) => obj_lookup(fs, "install_plugins"@),
        _ => None,
    });
    match multi {
        Some(Jv::Arr(es)) => {
            if es.len() != 1 {
                Err(true)
            } else {
                match spec_decode_plugin_spec(es[0]) {
                    Some(s) => Ok(s),
                    None => Err(false),
                }
            }
        },
        _ => (match spec_decode_plugin_spec(v) {
            Some(s) => Ok(s),
            None => Err(false),
        }),
    }
}

/// What parsing a metadata byte buffer yields: `Err(true)` marks a
/// multi-install list without exactly one element, `Err(false)` every other
/// failure.
pub open spec fn spec_metadata_of(bs: Seq<u8>) -> Result<SpecV, bool> {
    match utf8_of(bs) {
        Some(text) => (match jp_doc(text) {
            Some(v) => spec_decode_payload(v),
            None => Err(false),
        }),
        None => Err(false),
    }
}

fn get_string_field(fs: &Vec<(String, JsonValue)>, key: &str) -> (r: Option<Option<String>>)
    ensures
        (match r {
            Some(Some(s)) => obj_lookup(crate::json::jview_fields(fs@), key@) matches Some(x) && x
                == Jv::Str(s@),
            Some(None) => obj_lookup(crate::json::jview_fields(fs@), key@) is None,
            None => obj_lookup(crate::json::jview_fields(fs@), key@) matches Some(x) && !(x
                is Str),
        }),
{
    match lookup_field(fs, key) {
        Option::Some(JsonValue::Str(s)) => Some(Some(s.clone())),
        Option::Some(_) => None,
        Option::None => Some(None),
    }
}

/// Reads one metadata object.
fn decode_plugin_spec(v: &JsonValue) -> (r: Option<PluginSpec>)
    ensures
        (match r {
            Some(s) => spec_decode_plugin_spec(v@) == Some(s@),
            None => spec_decode_plugin_spec(v@) is None,
        }),
{
    let fs = (match v {
        JsonValue::Obj(fs) => fs,
        _ => {
            return None;
        },
    });
    let name = (match get_string_field(fs, "name") {
        Some(Some(s)) => s,
        _ => {
            return None;
        },
    });
    let version = (match get_string_field(fs, "version") {
        Some(Some(s)) => s,
        _ => {
            return None;
        },
    });
    let plugin_type = (match get_string_field(fs, "plugin_type") {
        Some(Some(s)) => s,
        _ => {
            return None;
        },
    });
    let description = (match get_string_field(fs, "description") {
        Some(Some(s)) => s,
        _ => {
            return None;
        },
    });
    let author = (match get_string_field(fs, "author") {
        Some(Some(s)) => s,
        _ => {
            return None;
        },
    });
    let entry_point = (match get_string_field(fs, "entry_point") {
        Some(Some(s)) => s,
        _ => {
            return None;
        },
    });
    let plugin_id = (match get_string_field(fs, "plugin_id") {
        Some(Some(s)) => Some(s),
        Some(None) => None,
        None => {
            return None;
        },
    });
    let min_atom_node_version = (match get_string_field(fs, "min_atom_node_version") {
        Some(Some(s)) => Some(s),
        Some(None) => None,
        None => {
            return None;
        },
    });
    let parameters = (match lookup_field(fs, "parameters") {
        Option::Some(pv) => {
            match decode_params(pv) {
                Some(ps) => Some(ps),
                None => {
                    return None;
                },
            }
        },
        Option::None => None,
    });
    Some(
        PluginSpec {
            plugin_id,
            name,
            version,
            plugin_type,
            description,
            author,
            entry_point,
            parameters,
            min_atom_node_version,
        },
    )
}

/// Parses a metadata byte buffer in either accepted shape.
pub fn parse_metadata(bytes: Vec<u8>) -> (r: AppResult<PluginSpec>)
    ensures
        r matches Ok(s) ==> spec_metadata_of(bytes@) == Ok::<SpecV, bool>(s@),
        r is Err <==> spec_metadata_of(bytes@) is Err,
        r matches Err(e) ==> e is Execution,
{
    let ghost bs = bytes@;
    let text = (match bytes_to_string(bytes) {
        Some(t) => t,
        None => {
            return Err(validation_error("Invalid metadata JSON"));
        },
    });
    let doc = (match JsonValue::parse_str(text.as_str()) {
        Some(v) => v,
        None => {
            return Err(validation_error("Invalid metadata JSON"));
        },
    });
    let multi = (match &doc {
        JsonValue::Obj(fs) => {
            match lookup_field(fs, "install_plugins") {
                Option::Some(JsonValue::Arr(es)) => Some(es),
                _ => None,
            }
        },
        _ => None,
    });
    match multi {
        Some(es) => {
            if es.len() != 1 {
                proof {
                    crate::json::lemma_jview_seq_len(es@);
                }
                return Err(
                    validation_error("Package metadata must describe exactly one plugin"),
                );
            }
            proof {
                crate::json::lemma_jview_seq_index(es@, 0);
            }
            match decode_plugin_spec(&es[0]) {
                Some(s) => Ok(s),
                None => Err(validation_error("Invalid metadata JSON")),
            }
        },
        None => {
            match decode_plugin_spec(&doc) {
                Some(s) => Ok(s),
                None => Err(validation_error("Invalid metadata JSON")),
            }
        },
    }
}

// ---------------------------------------------------------------------------
// identifier rules
// ---------------------------------------------------------------------------
/// An acceptable external plugin id: non-empty, free of path separators, and
/// a single normal path segment.
pub open spec fn valid_plugin_id(s: Seq<char>) -> bool {
    &&& s.len() > 0
    &&& !crate::text::contains_char(s, '/')
    &&& !crate::text::contains_char(s, '\\')
    &&& s != "."@
    &&& s != ".."@
}

/// Checks `valid_plugin_id`, with the first failing rule's message.
pub fn validate_plugin_id(plugin_id: &str) -> (r: AppResult<()>)
    ensures
        r is Ok <==> valid_plugin_id(plugin_id@),
        r matches Err(e) ==> e is Execution,
{
    let chars = str_to_chars(plugin_id);
    if chars.len() == 0 {
        return Err(validation_error("Plugin id must be a valid identifier"));
    }
    if crate::text::chars_contain(&chars, '/') || crate::text::chars_contain(&chars, '\\') {
        return Err(validation_error("Plugin id cannot contain path separators"));
    }
    if str_eq(plugin_id, ".") || str_eq(plugin_id, "..") {
        return Err(validation_error("Plugin id must be a valid identifier"));
    }
    Ok(())
}

/// The raw identifier an install uses: the declared one, or the display name.
pub open spec fn chosen_plugin_id(pid: Option<Seq<char>>, name: Seq<char>) -> Seq<char> {
    match pid {
        Some(p) => p,
        None => name,
    }
}

/// Normalises a declared plugin id: the declared id (or the name in its
/// place) must be non-empty, carry no surrounding whitespace, and pass
/// `valid_plugin_id`.
pub fn normalize_plugin_id(plugin_id: &Option<String>, name: &str) -> (r: AppResult<String>)
    ensures
        r matches Ok(s) ==> {
            &&& s@ == chosen_plugin_id(crate::models::opt_view(*plugin_id), name@)
            &&& spec_trim(s@) == s@
            &&& valid_plugin_id(s@)
        },
        r is Ok <==> {
            let raw = chosen_plugin_id(crate::models::opt_view(*plugin_id), name@);
            spec_trim(raw).len() > 0 && spec_trim(raw) == raw && valid_plugin_id(raw)
        },
        r matches Err(e) ==> e is Execution,
{
    let raw = (match plugin_id {
        Option::Some(p) => p.clone(),
        Option::None => String::from_str(name),
    });
    let raw_chars = str_to_chars(raw.as_str());
    let trimmed = trim_chars(&raw_chars);
    if trimmed.len() == 0 {
        return Err(validation_error("Plugin id cannot be empty"));
    }
    if !crate::text::chars_equal(&trimmed, &raw_chars) {
        return Err(validation_error("Plugin id has leading or trailing whitespace"));
    }
    match validate_plugin_id(raw.as_str()) {
        Ok(()) => Ok(raw),
        Err(e) => Err(e),
    }
}

/// The runtime names an install accepts.
pub open spec fn known_plugin_type(s: Seq<char>) -> bool {
    s == "python"@ || s == "javascript"@ || s == "js"@
}

/// Parses the declared runtime name.
pub fn parse_plugin_type(raw: &str) -> (r: AppResult<PluginType>)
    ensures
        r is Ok <==> known_plugin_type(raw@),
        raw@ == "python"@ ==> (r matches Ok(t) && t == PluginType::Python),
        (raw@ == "javascript"@ || raw@ == "js"@) ==> (r matches Ok(t) && t
            == PluginType::JavaScript),
        r matches Err(e) ==> e is InvalidPluginType,
{
    proof {
        reveal_strlit("python");
        reveal_strlit("javascript");
        reveal_strlit("js");
        assert("python"@.len() == 6 && "javascript"@.len() == 10 && "js"@.len() == 2);
    }
    if str_eq(raw, "python") {
        Ok(PluginType::Python)
    } else if str_eq(raw, "javascript") || str_eq(raw, "js") {
        Ok(PluginType::JavaScript)
    } else {
        Err(AppError::InvalidPluginType)
    }
}

// ---------------------------------------------------------------------------
// entry points
// ---------------------------------------------------------------------------
/// Rejects entry points that are absolute, contain a parent-dir component, or
/// carry a backslash.
pub fn validate_entry_point(entry_point: &str) -> (r: AppResult<()>)
    ensures
        r is Ok <==> is_safe_rel_path(entry_point@),
        r matches Err(e) ==> e is Execution,
{
    let chars = str_to_chars(entry_point);
    if safe_rel_path(&chars) {
        Ok(())
    } else {
        Err(validation_error("Entry point must be a safe relative path"))
    }
}

/// Joins a directory and a relative name with a separator; an empty
/// directory stands for the root.
pub open spec fn spec_join(dir: Seq<char>, name: Seq<char>) -> Seq<char> {
    if dir.len() == 0 {
        name
    } else {
        dir + seq!['/'] + name
    }
}

/// Executable join matching `spec_join`.
pub fn join_path(dir: &str, name: &str) -> (r: String)
    ensures
        r@ == spec_join(dir@, name@),
{
    if dir.unicode_len() == 0 {
        String::from_str(name)
    } else {
        let r = String::from_str(dir).concat("/").concat(name);
        proof {
            reveal_strlit("/");
            assert("/"@ =~= seq!['/']);
            assert(r@ =~= dir@ + seq!['/'] + name@);
        }
        r
    }
}

/// Where a declared entry point resolves: at the package root, or inside the
/// directory the metadata lives in.
pub open spec fn spec_resolved_entry(
    es: Seq<(Seq<char>, bool, Seq<u8>, Option<u32>)>,
    ep: Seq<char>,
    md: Option<Seq<char>>,
) -> Option<Seq<char>> {
    if !is_safe_rel_path(ep) {
        None
    } else if has_file(es, ep) {
        Some(ep)
    } else {
        match md {
            Some(d) => {
                let candidate = spec_join(d, ep);
                if is_safe_rel_path(candidate) && has_file(es, candidate) {
                    Some(candidate)
                } else {
                    None
                }
            },
            None => None,
        }
    }
}

/// Resolves a declared entry point against the package's member list: the
/// root-relative path is preferred; otherwise the metadata directory is
/// searched; a missing or unsafe entry point is a validation error.
pub fn resolve_entry_point(
    entry_point: &str,
    entries: &Vec<ArchiveEntry>,
    metadata_dir: &Option<String>,
) -> (r: AppResult<String>)
    ensures
        r is Ok <==> spec_resolved_entry(
            entries@.map_values(|e: ArchiveEntry| e@),
            entry_point@,
            crate::models::opt_view(*metadata_dir),
        ) is Some,
        r matches Ok(p) ==> spec_resolved_entry(
            entries@.map_values(|e: ArchiveEntry| e@),
            entry_point@,
            crate::models::opt_view(*metadata_dir),
        ) == Some(p@),
        r matches Err(e) ==> e is Execution,
{
    match validate_entry_point(entry_point) {
        Ok(()) => {},
        Err(e) => {
            return Err(e);
        },
    }
    if crate::archive::entries_have_file(entries, entry_point) {
        return Ok(String::from_str(entry_point));
    }
    match metadata_dir {
        Option::Some(d) => {
            let candidate = join_path(d.as_str(), entry_point);
            let cand_chars = str_to_chars(candidate.as_str());
            if !safe_rel_path(&cand_chars) {
                return Err(validation_error("Entry point must be a safe relative path"));
            }
            if crate::archive::entries_have_file(entries, candidate.as_str()) {
                Ok(candidate)
            } else {
                Err(validation_error("Entry point not found"))
            }
        },
        Option::None => Err(validation_error("Entry point not found")),
    }
}

// ---------------------------------------------------------------------------
// dependency lookup
// ---------------------------------------------------------------------------
/// Appends a directory unless an equal one is already listed.
pub fn push_unique_dir(target: &mut Vec<String>, dir: String)
    ensures
        (exists|i: int| 0 <= i < old(target)@.len() && (#[trigger] old(target)@[i])@ == dir@)
            ==> final(target)@ == old(target)@,
        !(exists|i: int| 0 <= i < old(target)@.len() && (#[trigger] old(target)@[i])@ == dir@)
            ==> final(target)@ == old(target)@.push(dir),
{
    let mut i: usize = 0;
    while i < target.len()
        invariant
            i <= target@.len(),
            target@ == old(target)@,
            forall|j: int| 0 <= j < i ==> (#[trigger] target@[j])@ != dir@,
        decreases target@.len() - i,
    {
        if target[i] == dir {
            return ;
        }
        i = i + 1;
    }
    proof {
        if exists|j: int| 0 <= j < target@.len() && (#[trigger] target@[j])@ == dir@ {
            let j = choose|j: int| 0 <= j < target@.len() && (#[trigger] target@[j])@ == dir@;
            assert(false);
        }
    }
    target.push(dir);
}

/// The first search directory in which the named file exists; the returned
/// path is relative to the package root.
pub open spec fn spec_find_dep(
    es: Seq<(Seq<char>, bool, Seq<u8>, Option<u32>)>,
    dirs: Seq<Seq<char>>,
    fname: Seq<char>,
) -> Option<Seq<char>>
    decreases dirs.len(),
{
    if dirs.len() == 0 {
        None
    } else {
        let rel = spec_join(dirs[0], fname);
        if has_file(es, rel) {
            Some(rel)
        } else {
            spec_find_dep(es, dirs.subrange(1, dirs.len() as int), fname)
        }
    }
}

/// Looks for a dependency file in each search directory in turn.
pub fn find_dependency_in_dirs(
    entries: &Vec<ArchiveEntry>,
    search_dirs: &Vec<String>,
    filename: &str,
) -> (r: Option<String>)
    ensures
        (match r {
            Some(p) => spec_find_dep(
                entries@.map_values(|e: ArchiveEntry| e@),
                strings_view(search_dirs@),
                filename@,
            ) == Some(p@),
            None => spec_find_dep(
                entries@.map_values(|e: ArchiveEntry| e@),
                strings_view(search_dirs@),
                filename@,
            ) is None,
        }),
{
    let ghost es = entries@.map_values(|e: ArchiveEntry| e@);
    let ghost dirs = strings_view(search_dirs@);
    proof {
        assert(dirs.subrange(0, dirs.len() as int) =~= dirs);
    }
    let mut i: usize = 0;
    while i < search_dirs.len()
        invariant
            i <= search_dirs@.len(),
            es == entries@.map_values(|e: ArchiveEntry| e@),
            dirs == search_dirs@.map_values(|d: String| d@),
            spec_find_dep(es, dirs, filename@) == spec_find_dep(
                es,
                dirs.subrange(i as int, dirs.len() as int),
                filename@,
            ),
        decreases search_dirs@.len() - i,
    {
        let ghost sub = dirs.subrange(i as int, dirs.len() as int);
        proof {
            assert(sub[0] == dirs[i as int]);
            assert(sub.subrange(1, sub.len() as int) =~= dirs.subrange(
                i + 1,
                dirs.len() as int,
            ));
        }
        let rel = join_path(search_dirs[i].as_str(), filename);
        if crate::archive::entries_have_file(entries, rel.as_str()) {
            return Some(rel);
        }
        i = i + 1;
    }
    proof {
        assert(dirs.subrange(i as int, dirs.len() as int).len() == 0);
    }
    None
}

/// The views of a string list.
pub open spec fn strings_view(s: Seq<String>) -> Seq<Seq<char>> {
    s.map_values(|x: String| x@)
}

/// A directory occurs in a search list.
pub open spec fn dirs_have(dirs: Seq<Seq<char>>, d: Seq<char>) -> bool {
    exists|i: int| 0 <= i < dirs.len() && #[trigger] dirs[i] == d
}

/// Appends a directory unless an equal one is already listed.
pub open spec fn push_unique_spec(dirs: Seq<Seq<char>>, d: Seq<char>) -> Seq<Seq<char>> {
    if dirs_have(dirs, d) {
        dirs
    } else {
        dirs.push(d)
    }
}

/// The declared metadata directory, as a one-element or empty list.
pub open spec fn dep_dirs_base(md: Option<Seq<char>>) -> Seq<Seq<char>> {
    match md {
        Some(d) => seq![d],
        None => Seq::empty(),
    }
}

/// The entry point's directory, when it has one.
pub open spec fn entry_dir_of(ep: Seq<char>) -> Option<Seq<char>> {
    if crate::archive::after_last_slash(ep) > 0 {
        Some(ep.subrange(0, crate::archive::after_last_slash(ep) - 1))
    } else {
        None
    }
}

/// The search order for dependency files: the metadata directory, the entry
/// point's directory, then the package root (the empty directory), without
/// repeats.
pub open spec fn spec_dep_dirs(md: Option<Seq<char>>, ep: Seq<char>) -> Seq<Seq<char>> {
    push_unique_spec(
        (match entry_dir_of(ep) {
            Some(d) => if d.len() > 0 {
                push_unique_spec(dep_dirs_base(md), d)
            } else {
                dep_dirs_base(md)
            },
            None => dep_dirs_base(md),
        }),
        Seq::empty(),
    )
}

/// Builds the dependency search order.
pub fn dependency_search_dirs(metadata_dir: &Option<String>, entry_point: &str) -> (r: Vec<
    String,
>)
    ensures
        strings_view(r@) == spec_dep_dirs(crate::models::opt_view(*metadata_dir), entry_point@),
{
    let ghost md = crate::models::opt_view(*metadata_dir);
    let mut dirs: Vec<String> = Vec::new();
    match metadata_dir {
        Option::Some(d) => {
            push_unique_dir(&mut dirs, d.clone());
        },
        Option::None => {},
    }
    proof {
        assert(strings_view(dirs@) =~= dep_dirs_base(md));
    }
    let ep_chars = str_to_chars(entry_point);
    let cut = crate::archive::file_name_start(&ep_chars);
    if cut > 0 {
        let dir = crate::json::copy_range(&ep_chars, 0, cut - 1);
        let dir_str = chars_to_string(&dir);
        if dir_str.as_str().unicode_len() > 0 {
            let ghost pre = dirs@;
            push_unique_dir(&mut dirs, dir_str);
            proof {
                lemma_push_unique_view(pre, dirs@, entry_point@.subrange(0, cut - 1));
            }
        }
    }
    proof {
        assert(strings_view(dirs@) == (match entry_dir_of(entry_point@) {
            Option::Some(d) => if d.len() > 0 {
                push_unique_spec(dep_dirs_base(md), d)
            } else {
                dep_dirs_base(md)
            },
            Option::None => dep_dirs_base(md),
        }));
    }
    let ghost pre2 = dirs@;
    push_unique_dir(&mut dirs, String::new());
    proof {
        lemma_push_unique_view(pre2, dirs@, Seq::<char>::empty());
        assert(strings_view(dirs@) == spec_dep_dirs(md, entry_point@));
    }
    dirs
}

/// `push_unique_dir`'s effect, seen through the views.
proof fn lemma_push_unique_view(pre: Seq<String>, post: Seq<String>, d: Seq<char>)
    requires
        (exists|i: int| 0 <= i < pre.len() && (#[trigger] pre[i])@ == d) ==> post == pre,
        !(exists|i: int| 0 <= i < pre.len() && (#[trigger] pre[i])@ == d) ==> exists|s: String|
            s@ == d && post == pre.push(s),
    ensures
        strings_view(post) == push_unique_spec(strings_view(pre), d),
{
    let pv = strings_view(pre);
    if exists|i: int| 0 <= i < pre.len() && (#[trigger] pre[i])@ == d {
        let i = choose|i: int| 0 <= i < pre.len() && (#[trigger] pre[i])@ == d;
        assert(pv[i] == d);
        assert(dirs_have(pv, d));
        assert(strings_view(post) == pv);
    } else {
        if dirs_have(pv, d) {
            let i = choose|i: int| 0 <= i < pv.len() && #[trigger] pv[i] == d;
            assert(pre[i]@ == d);
            assert(false);
        }
        let s = choose|s: String| s@ == d && post == pre.push(s);
        assert(strings_view(post) =~= pv.push(d));
    }
}

/// Resolves a `Python` plugin's dependency declaration from the package: the
/// first project file found in the search order wins, then the first
/// requirements file; nothing otherwise.
pub fn resolve_python_dependencies(
    entries: &Vec<ArchiveEntry>,
    metadata_dir: &Option<String>,
    entry_point: &str,
) -> (r: Option<PythonDependencies>)
    ensures
        ({
            let es = entries@.map_values(|e: ArchiveEntry| e@);
            let dirs = spec_dep_dirs(crate::models::opt_view(*metadata_dir), entry_point@);
            match r {
                Some(PythonDependencies::Pyproject { path }) => spec_find_dep(
                    es,
                    dirs,
                    "pyproject.toml"@,
                ) == Some(path@),
                Some(PythonDependencies::Requirements { path }) => spec_find_dep(
                    es,
                    dirs,
                    "pyproject.toml"@,
                ) is None && spec_find_dep(es, dirs, "requirements.txt"@) == Some(path@),
                None => spec_find_dep(es, dirs, "pyproject.toml"@) is None && spec_find_dep(
                    es,
                    dirs,
                    "requirements.txt"@,
                ) is None,
            }
        }),
{
    let dirs = dependency_search_dirs(metadata_dir, entry_point);
    match find_dependency_in_dirs(entries, &dirs, "pyproject.toml") {
        Some(path) => {
            return Some(PythonDependencies::Pyproject { path });
        },
        None => {},
    }
    match find_dependency_in_dirs(entries, &dirs, "requirements.txt") {
        Some(path) => Some(PythonDependencies::Requirements { path }),
        None => None,
    }
}

} // verus!
