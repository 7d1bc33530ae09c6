//! Serialisation of a plugin's dependency declaration.

use vstd::prelude::*;
use vstd::string::*;
use crate::json::{Jv, JsonValue, jp_doc, jprint, lemma_codec_roundtrip};
use crate::models::{DepsV, PythonDependencies};
use crate::text::str_eq;

verus! {

/// The name a dependency source carries in its serialised form.
pub open spec fn spec_source_name(d: DepsV) -> Seq<char> {
    match d {
        DepsV::Requirements(_) => "requirements"@,
        DepsV::Pyproject(_) => "pyproject"@,
    }
}

/// The JSON object a dependency declaration is serialised to.
pub open spec fn spec_encode_deps(d: DepsV) -> Jv {
    match d {
        DepsV::Requirements(p) => Jv::Obj(
            seq![("source"@, Jv::Str("requirements"@)), ("path"@, Jv::Str(p))],
        ),
        DepsV::Pyproject(p) => Jv::Obj(
            seq![("source"@, Jv::Str("pyproject"@)), ("path"@, Jv::Str(p))],
        ),
    }
}

/// How a dependency declaration is read back from JSON.
pub open spec fn spec_decode_deps(v: Jv) -> Option<DepsV> {
    match v {
        Jv::Obj(fs) => {
            match crate::params::obj_lookup(fs, "source"@) {
                Some(Jv::Str(src)) => {
                    match crate::params::obj_lookup(fs, "path"@) {
                        Some(Jv::Str(p)) => {
                            if src == "requirements"@ {
                                Some(DepsV::Requirements(p))
                            } else if src == "pyproject"@ {
                                Some(DepsV::Pyproject(p))
                            } else {
                                None
                            }
                        },
                        _ => None,
                    }
                },
                _ => None,
            }
        },
        _ => None,
    }
}

/// A serialised dependency declaration read back from text.
pub open spec fn spec_parse_deps(s: Seq<char>) -> Option<DepsV> {
    match jp_doc(s) {
        Some(v) => spec_decode_deps(v),
        None => None,
    }
}

/// Serialises a dependency declaration to its canonical JSON text.
pub fn serialize_python_dependencies(d: &PythonDependencies) -> (r: String)
    ensures
        r@ == jprint(spec_encode_deps(d@)),
{
    let (src, path) = (match d {
        PythonDependencies::Requirements { path } => (
            String::from_str("requirements"),
            path.clone(),
        ),
        PythonDependencies::Pyproject { path } => (String::from_str("pyproject"), path.clone()),
    });
    let mut fields: Vec<(String, JsonValue)> = Vec::new();
    fields.push((String::from_str("source"), JsonValue::Str(src)));
    fields.push((String::from_str("path"), JsonValue::Str(path)));
    let v = JsonValue::Obj(fields);
    proof {
        let expected = (match spec_encode_deps(d@) {
            Jv::Obj(fs) => fs,
            _ => Seq::empty(),
        });
        crate::json::lemma_jview_fields_len(fields@);
        assert forall|x: int| 0 <= x < expected.len() implies crate::json::jview_fields(
            fields@,
        )[x] == expected[x] by {
            crate::json::lemma_jview_fields_index(fields@, x);
        }
        assert(crate::json::jview_fields(fields@) =~= expected);
    }
    v.to_json()
}

/// Parses a serialised dependency declaration.
pub fn parse_python_dependencies(s: &str) -> (r: Option<PythonDependencies>)
    ensures
        (match r {
            Some(d) => spec_parse_deps(s@) == Some(d@),
            None => spec_parse_deps(s@) is None,
        }),
{
    let v = (match JsonValue::parse_str(s) {
        Some(v) => v,
        None => {
            return None;
        },
    });
    match &v {
        JsonValue::Obj(fs) => {
            let src = (match crate::params::lookup_field(fs, "source") {
                Some(JsonValue::Str(t)) => t.clone(),
                _ => {
                    return None;
                },
            });
            let path = (match crate::params::lookup_field(fs, "path") {
                Some(JsonValue::Str(t)) => t.clone(),
                _ => {
                    return None;
                },
            });
            if str_eq(src.as_str(), "requirements") {
                Some(PythonDependencies::Requirements { path })
            } else if str_eq(src.as_str(), "pyproject") {
                Some(PythonDependencies::Pyproject { path })
            } else {
                None
            }
        },
        _ => None,
    }
}

/// Serialising a dependency declaration and parsing the text back yields the
/// same declaration: the dependency round trip.
pub proof fn lemma_deps_roundtrip(d: DepsV)
    ensures
        spec_parse_deps(jprint(spec_encode_deps(d))) == Some(d),
{
    assert(crate::json::jv_wf(spec_encode_deps(d))) by {
        let fs = (match spec_encode_deps(d) {
            Jv::Obj(fs) => fs,
            _ => Seq::empty(),
        });
        assert(crate::json::jv_wf_fields(fs)) by {
            assert(forall|i: int| 0 <= i < fs.len() ==> crate::json::jv_wf(
                (#[trigger] fs[i]).1,
            ));
        }
    }
    lemma_codec_roundtrip(spec_encode_deps(d));
    reveal_strlit("source");
    reveal_strlit("path");
    reveal_strlit("requirements");
    reveal_strlit("pyproject");
    assert("source"@ != "path"@) by {
        assert("source"@.len() == 6 && "path"@.len() == 4);
    }
    assert("requirements"@ != "pyproject"@) by {
        assert("requirements"@.len() == 12 && "pyproject"@.len() == 9);
    }
    let fs = (match spec_encode_deps(d) {
        Jv::Obj(fs) => fs,
        _ => Seq::empty(),
    });
    let src = (match d {
        DepsV::Requirements(_) => "requirements"@,
        DepsV::Pyproject(_) => "pyproject"@,
    });
    let p = (match d {
        DepsV::Requirements(q) => q,
        DepsV::Pyproject(q) => q,
    });
    assert(fs =~= seq![("source"@, Jv::Str(src))] + (seq![("path"@, Jv::Str(p))] + Seq::<(
        Seq<char>,
        Jv,
    )>::empty()));
    crate::params::lemma_obj_lookup_cons(
        ("source"@, Jv::Str(src)),
        seq![("path"@, Jv::Str(p))] + Seq::<(Seq<char>, Jv)>::empty(),
        "source"@,
    );
    crate::params::lemma_obj_lookup_cons(
        ("source"@, Jv::Str(src)),
        seq![("path"@, Jv::Str(p))] + Seq::<(Seq<char>, Jv)>::empty(),
        "path"@,
    );
    crate::params::lemma_obj_lookup_cons(
        ("path"@, Jv::Str(p)),
        Seq::<(Seq<char>, Jv)>::empty(),
        "path"@,
    );
    assert(crate::params::obj_lookup(fs, "source"@) == Some(Jv::Str(src)));
    assert(crate::params::obj_lookup(fs, "path"@) == Some(Jv::Str(p)));
}

} // verus!
