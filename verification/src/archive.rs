//! Reading plugin packages.
//!
//! A package is a zip archive held in memory. The zip crate parses it behind
//! trusted wrappers; everything that decides what may be written where — the
//! member-name safety check, the extraction plan, and the location of the
//! metadata file — is verified here.

use vstd::prelude::*;
use vstd::string::*;
use crate::errors::{AppError, AppResult, validation_error};
use crate::text::{chars_to_string, str_eq, str_to_chars};
use std::io::Read;

verus! {

#[verifier::external_type_specification]
#[verifier::external_body]
#[verifier::reject_recursive_types(R)]
pub struct ExZipArchive<R>(zip::read::ZipArchive<R>);

#[verifier::external_type_specification]
#[verifier::external_body]
#[verifier::reject_recursive_types(T)]
pub struct ExCursor<T>(std::io::Cursor<T>);

/// An archive over an in-memory byte buffer.
pub type ByteArchive = zip::read::ZipArchive<std::io::Cursor<Vec<u8>>>;

/// What a member of an opened archive holds: its raw name, whether it is a
/// directory entry, its decompressed bytes — `None` when the stored data
/// cannot be read back — and its POSIX mode if recorded.
pub uninterp spec fn zip_contents(a: ByteArchive) -> Seq<
    (Seq<char>, bool, Option<Seq<u8>>, Option<u32>),
>;

/// What the zip central directory of a byte buffer describes: parsing an
/// in-memory archive depends on the bytes alone, and so does reading each
/// member back.
pub uninterp spec fn archive_of(bs: Seq<u8>) -> Option<
    Seq<(Seq<char>, bool, Option<Seq<u8>>, Option<u32>)>,
>;

/// Every member's stored data reads back.
pub open spec fn members_readable(es: Seq<(Seq<char>, bool, Option<Seq<u8>>, Option<u32>)>) -> bool {
    forall|i: int| 0 <= i < es.len() ==> (#[trigger] es[i]).2 is Some
}

/// The members with their data read back.
pub open spec fn plain_members(es: Seq<(Seq<char>, bool, Option<Seq<u8>>, Option<u32>)>) -> Seq<
    (Seq<char>, bool, Seq<u8>, Option<u32>),
> {
    Seq::new(es.len(), |i: int| (es[i].0, es[i].1, es[i].2->Some_0, es[i].3))
}

/// What a readable package holds: its members as plain values, or `None`
/// when the bytes are not a well-formed archive or some member cannot be
/// read back.
pub open spec fn package_members(bs: Seq<u8>) -> Option<
    Seq<(Seq<char>, bool, Seq<u8>, Option<u32>)>,
> {
    match archive_of(bs) {
        Some(es) => if members_readable(es) {
            Some(plain_members(es))
        } else {
            None
        },
        None => None,
    }
}

/// Relies on `zip::ZipArchive::new`: opening succeeds exactly when the bytes
/// form a well-formed archive, and the opened archive holds that archive's
/// members.
#[verifier::external_body]
fn zip_open(bytes: Vec<u8>) -> (r: Result<ByteArchive, ()>)
    ensures
        r is Ok <==> archive_of(bytes@) is Some,
        r matches Ok(a) ==> Some(zip_contents(a)) == archive_of(bytes@),
{
    match zip::ZipArchive::new(std::io::Cursor::new(bytes)) {
        Ok(a) => Ok(a),
        Err(_) => Err(()),
    }
}

/// Relies on `zip::ZipArchive::len`: the number of members.
#[verifier::external_body]
fn zip_len(a: &ByteArchive) -> (r: usize)
    ensures
        r == zip_contents(*a).len(),
{
    a.len()
}

/// Relies on `zip::ZipArchive::by_index` and the member's `name`, `is_dir`,
/// `unix_mode` and `Read` implementation: one member is read out as plain
/// values; reading from an in-memory buffer is deterministic in the archive
/// bytes, succeeds exactly when the member's data reads back, and does not
/// change the archive's contents.
#[verifier::external_body]
fn zip_entry(a: &mut ByteArchive, i: usize) -> (r: Result<
    (String, bool, Vec<u8>, Option<u32>),
    (),
>)
    requires
        i < zip_contents(*old(a)).len(),
    ensures
        zip_contents(*final(a)) == zip_contents(*old(a)),
        r is Ok <==> zip_contents(*old(a))[i as int].2 is Some,
        r matches Ok(e) ==> (e.0@, e.1, Some(e.2@), e.3) == zip_contents(*old(a))[i as int],
{
    match a.by_index(i) {
        Ok(mut f) => {
            let name = f.name().to_string();
            let is_dir = f.is_dir();
            let mode = f.unix_mode();
            let mut data = Vec::new();
            match f.read_to_end(&mut data) {
                Ok(_) => Ok((name, is_dir, data, mode)),
                Err(_) => Err(()),
            }
        },
        Err(_) => Err(()),
    }
}

/// One member of a package, as plain values.
#[derive(Debug)]
pub struct ArchiveEntry {
    /// The member's enclosed name, with `/` separators.
    pub name: String,
    pub is_dir: bool,
    pub data: Vec<u8>,
    pub unix_mode: Option<u32>,
}

impl View for ArchiveEntry {
    type V = (Seq<char>, bool, Seq<u8>, Option<u32>);

    open spec fn view(&self) -> (Seq<char>, bool, Seq<u8>, Option<u32>) {
        (self.name@, self.is_dir, self.data@, self.unix_mode)
    }
}

/// The members of an in-memory package. Succeeds exactly when the bytes form
/// a well-formed archive whose every member reads back; the result is that
/// package's member list.
pub fn read_archive(bytes: Vec<u8>) -> (r: AppResult<Vec<ArchiveEntry>>)
    ensures
        r is Ok <==> package_members(bytes@) is Some,
        r matches Ok(v) ==> Some(v@.map_values(|e: ArchiveEntry| e@)) == package_members(bytes@),
        r matches Err(e) ==> e is Execution,
{
    let ghost bs = bytes@;
    let mut archive = (match zip_open(bytes) {
        Ok(a) => a,
        Err(_) => {
            return Err(validation_error("Invalid zip archive"));
        },
    });
    let n = zip_len(&archive);
    let mut out: Vec<ArchiveEntry> = Vec::new();
    let mut i: usize = 0;
    while i < n
        invariant
            i <= n,
            n == zip_contents(archive).len(),
            Some(zip_contents(archive)) == archive_of(bs),
            out@.len() == i,
            forall|j: int| 0 <= j < i ==> (#[trigger] zip_contents(archive)[j]).2 is Some,
            forall|j: int| 0 <= j < i ==> Some((#[trigger] out@[j])@.2) == zip_contents(archive)[j].2
                && out@[j]@.0 == zip_contents(archive)[j].0 && out@[j]@.1 == zip_contents(
                archive,
            )[j].1 && out@[j]@.3 == zip_contents(archive)[j].3,
        decreases n - i,
    {
        match zip_entry(&mut archive, i) {
            Ok((name, is_dir, data, unix_mode)) => {
                out.push(ArchiveEntry { name, is_dir, data, unix_mode });
            },
            Err(_) => {
                proof {
                    assert(!members_readable(zip_contents(archive)));
                }
                return Err(validation_error("Failed to read archive"));
            },
        }
        i = i + 1;
    }
    proof {
        assert(members_readable(zip_contents(archive)));
        assert(out@.map_values(|e: ArchiveEntry| e@) =~= plain_members(zip_contents(archive)));
    }
    Ok(out)
}

// ---------------------------------------------------------------------------
// member-name safety
// ---------------------------------------------------------------------------
/// A member name that is safe to join under a target directory: non-empty,
/// not absolute, free of backslashes, and with no `..` component.
pub open spec fn is_safe_rel_path(s: Seq<char>) -> bool {
    &&& s.len() > 0
    &&& s[0] != '/'
    &&& !crate::text::contains_char(s, '\\')
    &&& !has_dotdot_component(s)
}

/// Some component of the `/`-separated path is exactly `..`.
pub open spec fn has_dotdot_component(s: Seq<char>) -> bool {
    exists|i: int|
        0 <= i && i + 2 <= s.len() && #[trigger] s.subrange(i, i + 2) == seq!['.', '.'] && (i == 0
            || s[i - 1] == '/') && (i + 2 == s.len() || s[i + 2] == '/')
}

/// Executable check matching `is_safe_rel_path`.
pub fn safe_rel_path(name: &Vec<char>) -> (r: bool)
    ensures
        r == is_safe_rel_path(name@),
{
    let n = name.len();
    if n == 0 {
        return false;
    }
    if name[0] == '/' {
        return false;
    }
    if crate::text::chars_contain(name, '\\') {
        return false;
    }
    let mut i: usize = 0;
    while i < n
        invariant
            i <= n,
            n == name@.len(),
            forall|x: int|
                0 <= x < i && x + 2 <= n ==> !(#[trigger] name@.subrange(x, x + 2) == seq![
                    '.',
                    '.',
                ] && (x == 0 || name@[x - 1] == '/') && (x + 2 == n || name@[x + 2] == '/')),
        decreases n - i,
    {
        if n - i >= 2 && name[i] == '.' && name[i + 1] == '.' && (i == 0 || name[i - 1] == '/')
            && (n - i == 2 || name[i + 2] == '/') {
            proof {
                assert(name@.subrange(i as int, i + 2) =~= seq!['.', '.']);
            }
            return false;
        }
        proof {
            if i + 2 <= n && name@.subrange(i as int, i + 2) == seq!['.', '.'] {
                assert(name@[i as int] == '.' && name@[i + 1] == '.') by {
                    assert(name@.subrange(i as int, i + 2)[0] == name@[i as int]);
                    assert(name@.subrange(i as int, i + 2)[1] == name@[i + 1]);
                }
            }
        }
        i = i + 1;
    }
    proof {
        if has_dotdot_component(name@) {
            let x = choose|x: int|
                0 <= x && x + 2 <= name@.len() && #[trigger] name@.subrange(x, x + 2) == seq![
                    '.',
                    '.',
                ] && (x == 0 || name@[x - 1] == '/') && (x + 2 == name@.len() || name@[x + 2]
                    == '/');
            assert(false);
        }
    }
    true
}

/// One planned write of an extraction: the absolute output path, whether it
/// is a directory, and the index of the member whose bytes go there.
#[derive(Debug)]
pub struct ExtractStep {
    pub path: String,
    pub is_dir: bool,
    pub member: usize,
}

/// The safety a plan guarantees for every step: the output path is the
/// target directory extended by a safe relative member name, so it can only
/// name something inside the target.
pub open spec fn step_safe(target: Seq<char>, entries: Seq<(Seq<char>, bool, Seq<u8>, Option<u32>)>, step: ExtractStep, i: int) -> bool {
    &&& 0 <= i < entries.len()
    &&& step.member == i
    &&& step.is_dir == entries[i].1
    &&& is_safe_rel_path(entries[i].0)
    &&& step.path@ == target + seq!['/'] + entries[i].0
}

/// Plans the extraction of a package into a target directory. Every member
/// name is checked safe first; any absolute name, backslash, or parent-dir
/// component fails the whole plan and nothing is written.
pub fn plan_extraction(entries: &Vec<ArchiveEntry>, target_dir: &str) -> (r: AppResult<
    Vec<ExtractStep>,
>)
    ensures
        r is Ok <==> (forall|i: int|
            0 <= i < entries@.len() ==> is_safe_rel_path((#[trigger] entries@[i])@.0)),
        r matches Ok(plan) ==> {
            &&& plan@.len() == entries@.len()
            &&& forall|i: int|
                0 <= i < plan@.len() ==> step_safe(
                    target_dir@,
                    entries@.map_values(|e: ArchiveEntry| e@),
                    #[trigger] plan@[i],
                    i,
                )
        },
        r matches Err(e) ==> e is Execution,
{
    let mut plan: Vec<ExtractStep> = Vec::new();
    let mut i: usize = 0;
    while i < entries.len()
        invariant
            i <= entries@.len(),
            plan@.len() == i,
            forall|j: int| 0 <= j < i ==> is_safe_rel_path((#[trigger] entries@[j])@.0),
            forall|j: int|
                0 <= j < i ==> step_safe(
                    target_dir@,
                    entries@.map_values(|e: ArchiveEntry| e@),
                    #[trigger] plan@[j],
                    j,
                ),
        decreases entries@.len() - i,
    {
        let name_chars = str_to_chars(entries[i].name.as_str());
        if !safe_rel_path(&name_chars) {
            proof {
                assert(!is_safe_rel_path((entries@[i as int])@.0));
            }
            return Err(validation_error("Invalid file path in archive"));
        }
        let mut path = String::from_str(target_dir);
        path = path.concat("/");
        path = path.concat(entries[i].name.as_str());
        proof {
            reveal_strlit("/");
            assert("/"@ =~= seq!['/']);
            assert(path@ =~= target_dir@ + seq!['/'] + entries@[i as int]@.0);
        }
        plan.push(ExtractStep { path, is_dir: entries[i].is_dir, member: i });
        proof {
            let es = entries@.map_values(|e: ArchiveEntry| e@);
            assert(es[i as int] == entries@[i as int]@);
            assert(step_safe(target_dir@, es, plan@[i as int], i as int));
        }
        i = i + 1;
    }
    Ok(plan)
}

/// Every step of a successful extraction plan writes strictly inside the
/// target directory: its path extends the target by a separator and a
/// relative name that has no parent-dir component.
pub proof fn lemma_plan_stays_inside(
    target: Seq<char>,
    entries: Seq<(Seq<char>, bool, Seq<u8>, Option<u32>)>,
    step: ExtractStep,
    i: int,
)
    requires
        step_safe(target, entries, step, i),
    ensures
        step.path@.len() > target.len() + 1,
        step.path@.subrange(0, target.len() as int) == target,
        step.path@[target.len() as int] == '/',
        step.path@[target.len() as int + 1] != '/',
        !has_dotdot_component(
            step.path@.subrange(target.len() as int + 1, step.path@.len() as int),
        ),
{
    let name = entries[i].0;
    let p = step.path@;
    assert(p == target + seq!['/'] + name);
    assert forall|x: int| 0 <= x < target.len() implies p[x] == target[x] by {}
    assert(p.subrange(0, target.len() as int) =~= target);
    assert(p[target.len() as int + 1] == name[0]);
    assert(p.subrange(target.len() as int + 1, p.len() as int) =~= name);
}

// ---------------------------------------------------------------------------
// locating metadata.json
// ---------------------------------------------------------------------------
/// Index just after the last `/` of a name, or 0 when it has none.
pub open spec fn after_last_slash(s: Seq<char>) -> int
    decreases s.len(),
{
    if s.len() == 0 {
        0
    } else if s[s.len() - 1] == '/' {
        s.len() as int
    } else {
        after_last_slash(s.subrange(0, s.len() - 1))
    }
}

/// The file name of a member: everything after the last `/`.
pub open spec fn file_name_of(s: Seq<char>) -> Seq<char> {
    s.subrange(after_last_slash(s), s.len() as int)
}

/// The directory part of a member name, without its trailing `/`; `None` for
/// a top-level name.
pub open spec fn dir_part_of(s: Seq<char>) -> Option<Seq<char>> {
    if after_last_slash(s) == 0 {
        None
    } else {
        Some(s.subrange(0, after_last_slash(s) - 1))
    }
}

/// Whether a member is a file named `metadata.json`.
pub open spec fn is_metadata_entry(e: (Seq<char>, bool, Seq<u8>, Option<u32>)) -> bool {
    !e.1 && file_name_of(e.0) == "metadata.json"@
}

/// The index of the single metadata member, when exactly one exists.
pub open spec fn metadata_index_of(es: Seq<(Seq<char>, bool, Seq<u8>, Option<u32>)>) -> Option<
    int,
> {
    if (exists|i: int| 0 <= i < es.len() && is_metadata_entry(#[trigger] es[i])) && (forall|
        i: int,
        j: int,
    |
        0 <= i < j < es.len() ==> !(is_metadata_entry(#[trigger] es[i]) && is_metadata_entry(
            #[trigger] es[j],
        ))) {
        Some(choose|i: int| 0 <= i < es.len() && is_metadata_entry(#[trigger] es[i]))
    } else {
        None
    }
}

/// Under exactly-one, any metadata index is the chosen one.
pub proof fn lemma_metadata_index_unique(
    es: Seq<(Seq<char>, bool, Seq<u8>, Option<u32>)>,
    idx: int,
)
    requires
        0 <= idx < es.len(),
        is_metadata_entry(es[idx]),
        forall|i: int, j: int|
            0 <= i < j < es.len() ==> !(is_metadata_entry(#[trigger] es[i]) && is_metadata_entry(
                #[trigger] es[j],
            )),
    ensures
        metadata_index_of(es) == Some(idx),
{
    let c = choose|i: int| 0 <= i < es.len() && is_metadata_entry(#[trigger] es[i]);
    if c < idx {
        assert(!(is_metadata_entry(es[c]) && is_metadata_entry(es[idx])));
    } else if idx < c {
        assert(!(is_metadata_entry(es[idx]) && is_metadata_entry(es[c])));
    }
}

pub fn file_name_start(name: &Vec<char>) -> (r: usize)
    ensures
        r as int == after_last_slash(name@),
        r <= name@.len(),
{
    let mut j: usize = name.len();
    proof {
        assert(name@.subrange(0, name@.len() as int) =~= name@);
        lemma_after_last_slash_bounds(name@);
    }
    while j > 0 && name[j - 1] != '/'
        invariant
            j <= name@.len(),
            after_last_slash(name@) == after_last_slash(name@.subrange(0, j as int)),
            after_last_slash(name@.subrange(0, j as int)) <= j,
        decreases j,
    {
        proof {
            let sub = name@.subrange(0, j as int);
            assert(sub[sub.len() - 1] == name@[j - 1]);
            assert(sub.subrange(0, sub.len() - 1) =~= name@.subrange(0, j - 1));
            lemma_after_last_slash_bounds(name@.subrange(0, j - 1));
        }
        j = j - 1;
    }
    proof {
        let sub = name@.subrange(0, j as int);
        if j > 0 {
            assert(sub[sub.len() - 1] == name@[j - 1]);
        }
    }
    j
}

proof fn lemma_after_last_slash_bounds(s: Seq<char>)
    ensures
        0 <= after_last_slash(s) <= s.len(),
    decreases s.len(),
{
    if s.len() > 0 && s[s.len() - 1] != '/' {
        lemma_after_last_slash_bounds(s.subrange(0, s.len() - 1));
    }
}

/// Finds the single `metadata.json` member: its index and the directory it
/// lives in. Zero matches and more than one match are both fatal.
pub fn find_metadata(entries: &Vec<ArchiveEntry>) -> (r: AppResult<(usize, Option<String>)>)
    ensures
        r is Ok <==> (exists|i: int|
            0 <= i < entries@.len() && is_metadata_entry((#[trigger] entries@[i])@)) && (forall|
            i: int,
            j: int,
        |
            0 <= i < j < entries@.len() ==> !(is_metadata_entry((#[trigger] entries@[i])@)
                && is_metadata_entry((#[trigger] entries@[j])@))),
        r matches Ok((idx, dir)) ==> {
            &&& 0 <= (idx as int) < entries@.len()
            &&& is_metadata_entry(entries@[idx as int]@)
            &&& (match dir {
                Some(d) => dir_part_of(entries@[idx as int]@.0) == Some(d@),
                None => dir_part_of(entries@[idx as int]@.0) is None,
            })
        },
        r matches Err(e) ==> e is Execution,
{
    let mut found: Option<usize> = None;
    let mut i: usize = 0;
    while i < entries.len()
        invariant
            i <= entries@.len(),
            (match found {
                Some(k) => (k as int) < i && is_metadata_entry(entries@[k as int]@) && forall|
                    j: int,
                |
                    0 <= j < i && j != k ==> !is_metadata_entry((#[trigger] entries@[j])@),
                None => forall|j: int|
                    0 <= j < i ==> !is_metadata_entry((#[trigger] entries@[j])@),
            }),
        decreases entries@.len() - i,
    {
        let name_chars = str_to_chars(entries[i].name.as_str());
        let start = file_name_start(&name_chars);
        let fname = crate::json::copy_range(&name_chars, start, name_chars.len());
        let fname_str = chars_to_string(&fname);
        let is_meta = !entries[i].is_dir && str_eq(fname_str.as_str(), "metadata.json");
        proof {
            assert(fname@ == file_name_of(entries@[i as int]@.0));
        }
        if is_meta {
            match found {
                Some(_) => {
                    return Err(
                        validation_error("Multiple metadata.json files found in package"),
                    );
                },
                None => {
                    found = Some(i);
                },
            }
        }
        i = i + 1;
    }
    match found {
        Some(k) => {
            let name_chars = str_to_chars(entries[k].name.as_str());
            let start = file_name_start(&name_chars);
            if start == 0 {
                Ok((k, None))
            } else {
                let dir = crate::json::copy_range(&name_chars, 0, start - 1);
                let dir_str = chars_to_string(&dir);
                Ok((k, Some(dir_str)))
            }
        },
        None => Err(validation_error("metadata.json not found in package")),
    }
}

/// Whether some member is a file with exactly this name.
pub fn entries_have_file(entries: &Vec<ArchiveEntry>, path: &str) -> (r: bool)
    ensures
        r == has_file(entries@.map_values(|e: ArchiveEntry| e@), path@),
{
    let ghost es = entries@.map_values(|e: ArchiveEntry| e@);
    let mut i: usize = 0;
    while i < entries.len()
        invariant
            i <= entries@.len(),
            es == entries@.map_values(|e: ArchiveEntry| e@),
            forall|j: int| 0 <= j < i ==> !((#[trigger] es[j]).0 == path@ && !es[j].1),
        decreases entries@.len() - i,
    {
        if !entries[i].is_dir && str_eq(entries[i].name.as_str(), path) {
            proof {
                assert(es[i as int].0 == path@ && !es[i as int].1);
            }
            return true;
        }
        i = i + 1;
    }
    proof {
        if has_file(es, path@) {
            let j = choose|j: int| 0 <= j < es.len() && (#[trigger] es[j]).0 == path@ && !es[j].1;
            assert(false);
        }
    }
    false
}

/// A file member with the given name exists.
pub open spec fn has_file(es: Seq<(Seq<char>, bool, Seq<u8>, Option<u32>)>, path: Seq<char>) -> bool {
    exists|j: int| 0 <= j < es.len() && (#[trigger] es[j]).0 == path && !es[j].1
}

} // verus!
