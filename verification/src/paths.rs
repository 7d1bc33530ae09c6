//! The directory layout under the install root.

use vstd::prelude::*;
use vstd::string::*;
use crate::archive::after_last_slash;
use crate::text::str_to_chars;

verus! {

/// `<root>/plugins`
pub fn plugins_dir(root: &str) -> (r: String)
    ensures
        r@ == root@ + "/plugins"@,
{
    String::from_str(root).concat("/plugins")
}

/// `<root>/work_dir`
pub fn work_dir(root: &str) -> (r: String)
    ensures
        r@ == root@ + "/work_dir"@,
{
    String::from_str(root).concat("/work_dir")
}

/// `<root>/conf`
pub fn conf_dir(root: &str) -> (r: String)
    ensures
        r@ == root@ + "/conf"@,
{
    String::from_str(root).concat("/conf")
}

/// `<root>/data`
pub fn data_dir(root: &str) -> (r: String)
    ensures
        r@ == root@ + "/data"@,
{
    String::from_str(root).concat("/data")
}

/// `<root>/data/python_envs`
pub fn python_envs_dir(root: &str) -> (r: String)
    ensures
        r@ == root@ + "/data/python_envs"@,
{
    let d = data_dir(root);
    let r = d.concat("/python_envs");
    proof {
        assert(r@ =~= root@ + "/data/python_envs"@) by {
            reveal_strlit("/data");
            reveal_strlit("/python_envs");
            reveal_strlit("/data/python_envs");
        }
    }
    r
}

/// Derives the install root from the executable's directory: a directory
/// named `bin` resolves to its parent, any other directory is the root
/// itself.
pub fn install_root_from_exe_dir(exe_dir: &str) -> (r: String)
    ensures
        ({
            let s = exe_dir@;
            let cut = after_last_slash(s);
            if s.subrange(cut, s.len() as int) == "bin"@ && cut > 0 {
                r@ == s.subrange(0, cut - 1)
            } else {
                r@ == s
            }
        }),
{
    let chars = str_to_chars(exe_dir);
    let cut = crate::archive::file_name_start(&chars);
    let name = crate::json::copy_range(&chars, cut, chars.len());
    let name_str = crate::text::chars_to_string(&name);
    if crate::text::str_eq(name_str.as_str(), "bin") && cut > 0 {
        let parent = crate::json::copy_range(&chars, 0, cut - 1);
        crate::text::chars_to_string(&parent)
    } else {
        String::from_str(exe_dir)
    }
}

/// Strips a `file://` prefix (and a following `localhost/`) from a URL,
/// yielding a local path.
pub fn local_path_from_url(url: &str) -> (r: Option<String>)
    ensures
        (match r {
            Some(p) => spec_local_path_from_url(url@) == Some(p@),
            None => spec_local_path_from_url(url@) is None,
        }),
{
    proof {
        reveal_strlit("file://");
        reveal_strlit("localhost/");
    }
    let chars = str_to_chars(url);
    let prefix = str_to_chars("file://");
    if !starts_with_chars(&chars, &prefix) {
        return None;
    }
    let rest = crate::json::copy_range(&chars, prefix.len(), chars.len());
    let loc = str_to_chars("localhost/");
    if starts_with_chars(&rest, &loc) {
        let tail = crate::json::copy_range(&rest, loc.len(), rest.len());
        Some(crate::text::chars_to_string(&tail))
    } else {
        Some(crate::text::chars_to_string(&rest))
    }
}

/// The prefix relation on character sequences.
pub open spec fn starts_with(s: Seq<char>, p: Seq<char>) -> bool {
    s.len() >= p.len() && s.subrange(0, p.len() as int) == p
}

/// Executable check matching `starts_with`.
pub fn starts_with_chars(s: &Vec<char>, p: &Vec<char>) -> (r: bool)
    ensures
        r == starts_with(s@, p@),
{
    if s.len() < p.len() {
        return false;
    }
    let mut i: usize = 0;
    while i < p.len()
        invariant
            i <= p@.len() <= s@.len(),
            forall|j: int| 0 <= j < i ==> s@[j] == p@[j],
        decreases p@.len() - i,
    {
        if s[i] != p[i] {
            proof {
                if s@.subrange(0, p@.len() as int) == p@ {
                    assert(s@.subrange(0, p@.len() as int)[i as int] == s@[i as int]);
                }
            }
            return false;
        }
        i = i + 1;
    }
    proof {
        assert(s@.subrange(0, p@.len() as int) =~= p@);
    }
    true
}

/// Where a `file://` URL points: after the scheme, an optional `localhost/`
/// is dropped.
pub open spec fn spec_local_path_from_url(url: Seq<char>) -> Option<Seq<char>> {
    if starts_with(url, "file://"@) {
        let rest = url.subrange("file://"@.len() as int, url.len() as int);
        if starts_with(rest, "localhost/"@) {
            Some(rest.subrange("localhost/"@.len() as int, rest.len() as int))
        } else {
            Some(rest)
        }
    } else {
        None
    }
}

/// Which package URLs are served from the local filesystem: `file://` URLs,
/// and anything that is not `http(s)`.
pub open spec fn spec_resolve_local_path(url: Seq<char>) -> Option<Seq<char>> {
    match spec_local_path_from_url(url) {
        Some(p) => Some(p),
        None => {
            if starts_with(url, "http://"@) || starts_with(url, "https://"@) {
                None
            } else {
                Some(url)
            }
        },
    }
}

/// Maps a package URL to a local path when it does not require the network.
pub fn resolve_local_path(url: &str) -> (r: Option<String>)
    ensures
        (match r {
            Some(p) => spec_resolve_local_path(url@) == Some(p@),
            None => spec_resolve_local_path(url@) is None,
        }),
{
    match local_path_from_url(url) {
        Some(p) => {
            return Some(p);
        },
        None => {},
    }
    proof {
        reveal_strlit("http://");
        reveal_strlit("https://");
    }
    let chars = str_to_chars(url);
    let h = str_to_chars("http://");
    let hs = str_to_chars("https://");
    if starts_with_chars(&chars, &h) || starts_with_chars(&chars, &hs) {
        None
    } else {
        Some(String::from_str(url))
    }
}

} // verus!
