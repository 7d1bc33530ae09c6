//! The parameter engine: schema validation, serialisation, and resolution of
//! caller-provided values against a plugin's declared schema.

use vstd::prelude::*;
use vstd::string::*;
use crate::errors::{AppError, AppResult, validation_error};
use crate::json::{Jv, JsonValue, jp_doc, jprint, jv_wf, jview_fields, jview_seq,
    lemma_codec_roundtrip, lemma_jview_fields_index, lemma_jview_fields_len,
    lemma_jview_seq_index, lemma_jview_seq_len};
use crate::models::{ParamV, PluginParamType, PluginParameter};
use crate::text::{spec_trim, str_to_chars, trim_chars};

verus! {

/// The model of a whole schema.
pub open spec fn params_view(ps: Seq<PluginParameter>) -> Seq<ParamV>
    decreases ps,
{
    if ps.len() == 0 {
        Seq::empty()
    } else {
        seq![ps[0]@] + params_view(ps.subrange(1, ps.len() as int))
    }
}

pub proof fn lemma_params_view_index(ps: Seq<PluginParameter>, i: int)
    requires
        0 <= i < ps.len(),
    ensures
        params_view(ps).len() == ps.len(),
        params_view(ps)[i] == ps[i]@,
    decreases ps.len(),
{
    lemma_params_view_len(ps);
    if i > 0 {
        lemma_params_view_index(ps.subrange(1, ps.len() as int), i - 1);
    }
}

pub proof fn lemma_params_view_len(ps: Seq<PluginParameter>)
    ensures
        params_view(ps).len() == ps.len(),
    decreases ps.len(),
{
    if ps.len() > 0 {
        lemma_params_view_len(ps.subrange(1, ps.len() as int));
    }
}

// ---------------------------------------------------------------------------
// schema encoding
// ---------------------------------------------------------------------------
/// The JSON object a schema entry is serialised to: `name` and `type` first,
/// then the optional members, each under its fixed key.
pub open spec fn spec_encode_param(p: ParamV) -> Jv {
    Jv::Obj(
        seq![("name"@, Jv::Str(p.name)), ("type"@, Jv::Str(p.param_type.spec_name()))] + (
        match p.description {
            Option::Some(d) => seq![("description"@, Jv::Str(d))],
            Option::None => Seq::empty(),
        }) + (match p.default {
            Option::Some(v) => seq![("default"@, v)],
            Option::None => Seq::empty(),
        }) + (match p.choices {
            Option::Some(cs) => seq![("choices"@, Jv::Arr(cs))],
            Option::None => Seq::empty(),
        }),
    )
}

pub open spec fn spec_encode_params_seq(ps: Seq<ParamV>) -> Seq<Jv>
    decreases ps.len(),
{
    if ps.len() == 0 {
        Seq::empty()
    } else {
        seq![spec_encode_param(ps[0])] + spec_encode_params_seq(ps.subrange(1, ps.len() as int))
    }
}

/// The JSON array a whole schema is serialised to.
pub open spec fn spec_encode_params(ps: Seq<ParamV>) -> Jv {
    Jv::Arr(spec_encode_params_seq(ps))
}

proof fn lemma_encode_params_seq_index(ps: Seq<ParamV>, i: int)
    requires
        0 <= i < ps.len(),
    ensures
        spec_encode_params_seq(ps).len() == ps.len(),
        spec_encode_params_seq(ps)[i] == spec_encode_param(ps[i]),
    decreases ps.len(),
{
    lemma_encode_params_seq_len(ps);
    if i > 0 {
        lemma_encode_params_seq_index(ps.subrange(1, ps.len() as int), i - 1);
    }
}

proof fn lemma_encode_params_seq_len(ps: Seq<ParamV>)
    ensures
        spec_encode_params_seq(ps).len() == ps.len(),
    decreases ps.len(),
{
    if ps.len() > 0 {
        lemma_encode_params_seq_len(ps.subrange(1, ps.len() as int));
    }
}

fn encode_param(p: &PluginParameter) -> (r: JsonValue)
    ensures
        r@ == spec_encode_param(p@),
{
    let mut fields: Vec<(String, JsonValue)> = Vec::new();
    fields.push((String::from_str("name"), JsonValue::Str(p.name.clone())));
    fields.push((String::from_str("type"), JsonValue::Str(p.param_type.name())));
    match &p.description {
        Option::Some(d) => fields.push(
            (String::from_str("description"), JsonValue::Str(d.clone())),
        ),
        Option::None => {},
    }
    match &p.default {
        Option::Some(v) => fields.push((String::from_str("default"), v.duplicate())),
        Option::None => {},
    }
    match &p.choices {
        Option::Some(cs) => {
            let mut copies: Vec<JsonValue> = Vec::new();
            let mut i: usize = 0;
            while i < cs.len()
                invariant
                    i <= cs@.len(),
                    jview_seq(copies@) == jview_seq(cs@.subrange(0, i as int)),
                    copies@.len() == i,
                decreases cs@.len() - i,
            {
                let ghost pre = copies@;
                copies.push(cs[i].duplicate());
                proof {
                    lemma_jview_seq_snoc(pre, copies@, cs@[i as int]@);
                    lemma_jview_seq_snoc_sub(cs@, i as int);
                }
                i = i + 1;
            }
            proof {
                assert(cs@.subrange(0, cs@.len() as int) =~= cs@);
            }
            fields.push((String::from_str("choices"), JsonValue::Arr(copies)));
        },
        Option::None => {},
    }
    let r = JsonValue::Obj(fields);
    proof {
        let expected = (match spec_encode_param(p@) {
            Jv::Obj(fs) => fs,
            _ => Seq::empty(),
        });
        lemma_jview_fields_len(fields@);
        assert(jview_fields(fields@).len() == expected.len());
        assert forall|x: int| 0 <= x < expected.len() implies jview_fields(fields@)[x]
            == expected[x] by {
            lemma_jview_fields_index(fields@, x);
        }
        assert(jview_fields(fields@) =~= expected);
    }
    r
}

proof fn lemma_jview_seq_snoc(pre: Seq<JsonValue>, post: Seq<JsonValue>, v: Jv)
    requires
        post.len() == pre.len() + 1,
        forall|x: int| 0 <= x < pre.len() ==> post[x] == pre[x],
        crate::json::jview(post[post.len() - 1]) == v,
    ensures
        jview_seq(post) == jview_seq(pre).push(v),
    decreases pre.len(),
{
    lemma_jview_seq_len(pre);
    lemma_jview_seq_len(post);
    assert forall|x: int| 0 <= x < post.len() implies jview_seq(post)[x] == jview_seq(pre).push(
        v,
    )[x] by {
        lemma_jview_seq_index(post, x);
        if x < pre.len() {
            lemma_jview_seq_index(pre, x);
        }
    }
    assert(jview_seq(post) =~= jview_seq(pre).push(v));
}

proof fn lemma_jview_seq_snoc_sub(cs: Seq<JsonValue>, i: int)
    requires
        0 <= i < cs.len(),
    ensures
        jview_seq(cs.subrange(0, i + 1)) == jview_seq(cs.subrange(0, i)).push(
            crate::json::jview(cs[i]),
        ),
{
    let pre = cs.subrange(0, i);
    let post = cs.subrange(0, i + 1);
    assert(post[post.len() - 1] == cs[i]);
    lemma_jview_seq_snoc(pre, post, crate::json::jview(cs[i]));
}

fn encode_params(ps: &Vec<PluginParameter>) -> (r: JsonValue)
    ensures
        r@ == spec_encode_params(params_view(ps@)),
{
    let mut items: Vec<JsonValue> = Vec::new();
    let mut i: usize = 0;
    while i < ps.len()
        invariant
            i <= ps@.len(),
            items@.len() == i,
            jview_seq(items@) == spec_encode_params_seq(params_view(ps@.subrange(0, i as int))),
        decreases ps@.len() - i,
    {
        let ghost pre = items@;
        items.push(encode_param(&ps[i]));
        proof {
            lemma_jview_seq_snoc(pre, items@, spec_encode_param(ps@[i as int]@));
            lemma_params_view_snoc(ps@, i as int);
            lemma_encode_seq_snoc(params_view(ps@.subrange(0, i as int)), ps@[i as int]@);
        }
        i = i + 1;
    }
    proof {
        assert(ps@.subrange(0, ps@.len() as int) =~= ps@);
    }
    JsonValue::Arr(items)
}

proof fn lemma_params_view_snoc(ps: Seq<PluginParameter>, i: int)
    requires
        0 <= i < ps.len(),
    ensures
        params_view(ps.subrange(0, i + 1)) == params_view(ps.subrange(0, i)).push(ps[i]@),
{
    let pre = ps.subrange(0, i);
    let post = ps.subrange(0, i + 1);
    lemma_params_view_len(pre);
    lemma_params_view_len(post);
    assert forall|x: int| 0 <= x < post.len() implies params_view(post)[x] == params_view(
        pre,
    ).push(ps[i]@)[x] by {
        lemma_params_view_index(post, x);
        if x < i {
            lemma_params_view_index(pre, x);
        }
    }
    assert(params_view(post) =~= params_view(pre).push(ps[i]@));
}

proof fn lemma_encode_seq_snoc(vs: Seq<ParamV>, p: ParamV)
    ensures
        spec_encode_params_seq(vs.push(p)) == spec_encode_params_seq(vs).push(
            spec_encode_param(p),
        ),
{
    let post = vs.push(p);
    lemma_encode_params_seq_len(vs);
    lemma_encode_params_seq_len(post);
    assert forall|x: int| 0 <= x < post.len() implies spec_encode_params_seq(post)[x]
        == spec_encode_params_seq(vs).push(spec_encode_param(p))[x] by {
        lemma_encode_params_seq_index(post, x);
        if x < vs.len() {
            lemma_encode_params_seq_index(vs, x);
        }
    }
    assert(spec_encode_params_seq(post) =~= spec_encode_params_seq(vs).push(
        spec_encode_param(p),
    ));
}

/// Serialises a schema to its canonical JSON text.
pub fn serialize_parameters(ps: &Vec<PluginParameter>) -> (r: String)
    ensures
        r@ == jprint(spec_encode_params(params_view(ps@))),
{
    let v = encode_params(ps);
    v.to_json()
}

// ---------------------------------------------------------------------------
// schema decoding
// ---------------------------------------------------------------------------
/// First value under the given key of a JSON object's member list.
pub open spec fn obj_lookup(fs: Seq<(Seq<char>, Jv)>, key: Seq<char>) -> Option<Jv>
    decreases fs.len(),
{
    if fs.len() == 0 {
        None
    } else if fs[0].0 == key {
        Some(fs[0].1)
    } else {
        obj_lookup(fs.subrange(1, fs.len() as int), key)
    }
}

/// The parameter type a schema names, if the name is known.
pub open spec fn spec_type_of_name(n: Seq<char>) -> Option<PluginParamType> {
    if n == "string"@ {
        Some(PluginParamType::Str)
    } else if n == "number"@ {
        Some(PluginParamType::Number)
    } else if n == "integer"@ {
        Some(PluginParamType::Integer)
    } else if n == "boolean"@ {
        Some(PluginParamType::Boolean)
    } else if n == "json"@ {
        Some(PluginParamType::Json)
    } else {
        None
    }
}

/// How one schema entry is read back from JSON: `name` and `type` are
/// required strings, `description` an optional string, `default` any value,
/// `choices` an optional array. Unknown members are ignored.
pub open spec fn spec_decode_param(v: Jv) -> Option<ParamV> {
    match v {
        Jv::Obj(fs) => {
            match obj_lookup(fs, "name"@) {
                Some(Jv::Str(nm)) => {
                    match obj_lookup(fs, "type"@) {
                        Some(Jv::Str(tn)) => {
                            match spec_type_of_name(tn) {
                                Some(t) => {
                                    let desc = obj_lookup(fs, "description"@);
                                    let dflt = obj_lookup(fs, "default"@);
                                    let ch = obj_lookup(fs, "choices"@);
                                    if (desc matches Some(d) && !(d is Str)) || (ch matches Some(
                                        c,
                                    ) && !(c is Arr)) {
                                        None
                                    } else {
                                        Some(
                                            ParamV {
                                                name: nm,
                                                param_type: t,
                                                description: match desc {
                                                    Some(Jv::Str(d)) => Some(d),
                                                    _ => None,
                                                },
                                                default: dflt,
                                                choices: match ch {
                                                    Some(Jv::Arr(c)) => Some(c),
                                                    _ => None,
                                                },
                                            },
                                        )
                                    }
                                },
                                None => None,
                            }
                        },
                        _ => None,
                    }
                },
                _ => None,
            }
        },
        _ => None,
    }
}

pub open spec fn spec_decode_params_seq(es: Seq<Jv>) -> Option<Seq<ParamV>>
    decreases es.len(),
{
    if es.len() == 0 {
        Some(Seq::empty())
    } else {
        match spec_decode_param(es[0]) {
            None => None,
            Some(p) => {
                match spec_decode_params_seq(es.subrange(1, es.len() as int)) {
                    None => None,
                    Some(rest) => Some(seq![p] + rest),
                }
            },
        }
    }
}

/// A whole schema read back from JSON: an array of entries.
pub open spec fn spec_decode_params(v: Jv) -> Option<Seq<ParamV>> {
    match v {
        Jv::Arr(es) => spec_decode_params_seq(es),
        _ => None,
    }
}

/// A serialised schema read back from text.
pub open spec fn spec_parse_params(s: Seq<char>) -> Option<Seq<ParamV>> {
    match jp_doc(s) {
        Some(v) => spec_decode_params(v),
        None => None,
    }
}

pub fn lookup_field<'a>(fs: &'a Vec<(String, JsonValue)>, key: &str) -> (r: Option<&'a JsonValue>)
    ensures
        (match r {
            Some(v) => obj_lookup(jview_fields(fs@), key@) == Some(v@),
            None => obj_lookup(jview_fields(fs@), key@) is None,
        }),
{
    proof {
        assert(fs@.subrange(0, fs@.len() as int) =~= fs@);
    }
    let mut i: usize = 0;
    while i < fs.len()
        invariant
            i <= fs@.len(),
            obj_lookup(jview_fields(fs@), key@) == obj_lookup(
                jview_fields(fs@.subrange(i as int, fs@.len() as int)),
                key@,
            ),
            forall|j: int| 0 <= j < i ==> fs@[j].0@ != key@,
        decreases fs@.len() - i,
    {
        proof {
            crate::json::lemma_jview_fields_unfold(fs@, i as int);
        }
        if crate::text::str_eq(fs[i].0.as_str(), key) {
            return Some(&fs[i].1);
        }
        proof {
            let sub = jview_fields(fs@.subrange(i as int, fs@.len() as int));
            let sub2 = jview_fields(fs@.subrange(i + 1, fs@.len() as int));
            assert(sub == seq![(fs@[i as int].0@, crate::json::jview(fs@[i as int].1))] + sub2);
            assert(sub.len() > 0);
            assert(sub[0].0 == fs@[i as int].0@);
            assert(sub.subrange(1, sub.len() as int) =~= sub2);
        }
        i = i + 1;
    }
    proof {
        assert(fs@.subrange(i as int, fs@.len() as int).len() == 0);
        assert(jview_fields(fs@.subrange(i as int, fs@.len() as int)) =~= Seq::<(
            Seq<char>,
            Jv,
        )>::empty());
    }
    None
}

fn type_of_name(n: &str) -> (r: Option<PluginParamType>)
    ensures
        r == spec_type_of_name(n@),
{
    if crate::text::str_eq(n, "string") {
        Some(PluginParamType::Str)
    } else if crate::text::str_eq(n, "number") {
        Some(PluginParamType::Number)
    } else if crate::text::str_eq(n, "integer") {
        Some(PluginParamType::Integer)
    } else if crate::text::str_eq(n, "boolean") {
        Some(PluginParamType::Boolean)
    } else if crate::text::str_eq(n, "json") {
        Some(PluginParamType::Json)
    } else {
        None
    }
}

fn decode_param(v: &JsonValue) -> (r: Option<PluginParameter>)
    ensures
        (match r {
            Some(p) => spec_decode_param(v@) == Some(p@),
            None => spec_decode_param(v@) is None,
        }),
{
    let fs = (match v {
        JsonValue::Obj(fs) => fs,
        _ => {
            return None;
        },
    });
    let name = (match lookup_field(fs, "name") {
        Some(JsonValue::Str(nm)) => nm.clone(),
        _ => {
            return None;
        },
    });
    let t = (match lookup_field(fs, "type") {
        Some(JsonValue::Str(tn)) => {
            match type_of_name(tn.as_str()) {
                Some(t) => t,
                None => {
                    return None;
                },
            }
        },
        _ => {
            return None;
        },
    });
    let description = (match lookup_field(fs, "description") {
        Some(JsonValue::Str(d)) => Some(d.clone()),
        Some(_) => {
            return None;
        },
        None => None,
    });
    let default = (match lookup_field(fs, "default") {
        Some(d) => Some(d.duplicate()),
        None => None,
    });
    let choices = (match lookup_field(fs, "choices") {
        Some(JsonValue::Arr(cs)) => {
            let mut copies: Vec<JsonValue> = Vec::new();
            let mut i: usize = 0;
            while i < cs.len()
                invariant
                    i <= cs@.len(),
                    copies@.len() == i,
                    jview_seq(copies@) == jview_seq(cs@.subrange(0, i as int)),
                decreases cs@.len() - i,
            {
                let ghost pre = copies@;
                copies.push(cs[i].duplicate());
                proof {
                    lemma_jview_seq_snoc(pre, copies@, cs@[i as int]@);
                    lemma_jview_seq_snoc_sub(cs@, i as int);
                }
                i = i + 1;
            }
            proof {
                assert(cs@.subrange(0, cs@.len() as int) =~= cs@);
            }
            Some(copies)
        },
        Some(_) => {
            return None;
        },
        None => None,
    });
    Some(
        PluginParameter {
            name,
            param_type: t,
            description,
            default,
            choices,
        },
    )
}

/// Reads a whole schema back from a JSON value.
pub fn decode_params(v: &JsonValue) -> (r: Option<Vec<PluginParameter>>)
    ensures
        (match r {
            Some(ps) => spec_decode_params(v@) == Some(params_view(ps@)),
            None => spec_decode_params(v@) is None,
        }),
{
    match v {
        JsonValue::Arr(es) => decode_params_seq(es),
        _ => None,
    }
}

fn decode_params_seq(es: &Vec<JsonValue>) -> (r: Option<Vec<PluginParameter>>)
    ensures
        (match r {
            Some(ps) => spec_decode_params_seq(jview_seq(es@)) == Some(params_view(ps@)),
            None => spec_decode_params_seq(jview_seq(es@)) is None,
        }),
{
    let mut out: Vec<PluginParameter> = Vec::new();
    proof {
        assert(es@.subrange(0, es@.len() as int) =~= es@);
        assert(out@ =~= Seq::<PluginParameter>::empty());
        assert(spec_decode_params_seq(jview_seq(es@)) matches Some(rest) ==> params_view(out@)
            + rest =~= rest);
    }
    let mut i: usize = 0;
    while i < es.len()
        invariant
            i <= es@.len(),
            out@.len() == i,
            spec_decode_params_seq(jview_seq(es@)) == (match spec_decode_params_seq(
                jview_seq(es@.subrange(i as int, es@.len() as int)),
            ) {
                Some(rest) => Some(params_view(out@) + rest),
                None => None::<Seq<ParamV>>,
            }),
        decreases es@.len() - i,
    {
        proof {
            crate::json::lemma_jview_seq_unfold(es@, i as int);
            lemma_jview_seq_len(es@.subrange(i as int, es@.len() as int));
        }
        let ghost sub = jview_seq(es@.subrange(i as int, es@.len() as int));
        let ghost sub2 = jview_seq(es@.subrange(i + 1, es@.len() as int));
        proof {
            assert(sub == seq![es@[i as int]@] + sub2);
            assert(sub.len() > 0);
            assert(sub[0] == es@[i as int]@);
            assert(sub.subrange(1, sub.len() as int) =~= sub2);
        }
        match decode_param(&es[i]) {
            None => {
                proof {
                    assert(spec_decode_param(sub[0]) is None);
                    assert(spec_decode_params_seq(sub) is None);
                }
                return None;
            },
            Some(p) => {
                let ghost preout = out@;
                out.push(p);
                proof {
                    lemma_params_view_snoc_vec(preout, out@, p@);
                    assert(spec_decode_params_seq(sub2) matches Some(rest2) ==> params_view(
                        preout,
                    ) + (seq![p@] + rest2) =~= params_view(out@) + rest2);
                }
            },
        }
        i = i + 1;
    }
    proof {
        assert(es@.subrange(i as int, es@.len() as int).len() == 0);
        assert(jview_seq(es@.subrange(i as int, es@.len() as int)) =~= Seq::<Jv>::empty());
        assert(params_view(out@) + Seq::<ParamV>::empty() =~= params_view(out@));
    }
    Some(out)
}

proof fn lemma_params_view_snoc_vec(pre: Seq<PluginParameter>, post: Seq<PluginParameter>, p: ParamV)
    requires
        post.len() == pre.len() + 1,
        forall|x: int| 0 <= x < pre.len() ==> post[x] == pre[x],
        post[post.len() - 1]@ == p,
    ensures
        params_view(post) == params_view(pre).push(p),
{
    lemma_params_view_len(pre);
    lemma_params_view_len(post);
    assert forall|x: int| 0 <= x < post.len() implies params_view(post)[x] == params_view(
        pre,
    ).push(p)[x] by {
        lemma_params_view_index(post, x);
        if x < pre.len() {
            lemma_params_view_index(pre, x);
        }
    }
    assert(params_view(post) =~= params_view(pre).push(p));
}

/// Parses a serialised schema, as written by `serialize_parameters`.
pub fn parse_parameters_str(s: &str) -> (r: Option<Vec<PluginParameter>>)
    ensures
        (match r {
            Some(ps) => spec_parse_params(s@) == Some(params_view(ps@)),
            None => spec_parse_params(s@) is None,
        }),
{
    match JsonValue::parse_str(s) {
        None => None,
        Some(v) => decode_params(&v),
    }
}

// ---------------------------------------------------------------------------
// the schema round trip
// ---------------------------------------------------------------------------
pub proof fn lemma_obj_lookup_cons(head: (Seq<char>, Jv), rest: Seq<(Seq<char>, Jv)>, key: Seq<char>)
    ensures
        obj_lookup(seq![head] + rest, key) == (if head.0 == key {
            Some(head.1)
        } else {
            obj_lookup(rest, key)
        }),
{
    let whole = seq![head] + rest;
    assert(whole.len() > 0);
    assert(whole[0] == head);
    assert(whole.subrange(1, whole.len() as int) =~= rest);
}

/// The values a schema may hold for the round trip to be stated: integers in
/// their canonical constructor and literals the parser reproduces.
pub open spec fn param_wf(p: ParamV) -> bool {
    &&& (p.default matches Some(d) ==> jv_wf(d))
    &&& (p.choices matches Some(cs) ==> forall|j: int| 0 <= j < cs.len() ==> jv_wf(
        #[trigger] cs[j],
    ))
}

pub open spec fn schema_wf(ps: Seq<ParamV>) -> bool {
    forall|i: int| 0 <= i < ps.len() ==> param_wf(#[trigger] ps[i])
}

proof fn lemma_type_name_roundtrip(t: PluginParamType)
    ensures
        spec_type_of_name(t.spec_name()) == Some(t),
{
    reveal_strlit("string");
    reveal_strlit("number");
    reveal_strlit("integer");
    reveal_strlit("boolean");
    reveal_strlit("json");
    match t {
        PluginParamType::Str => {},
        PluginParamType::Number => {
            assert("number"@ != "string"@) by {
                assert("number"@[0] == 'n' && "string"@[0] == 's');
            }
        },
        PluginParamType::Integer => {
            assert("integer"@ != "string"@) by {
                assert("integer"@[0] == 'i' && "string"@[0] == 's');
            }
            assert("integer"@ != "number"@) by {
                assert("integer"@[0] == 'i' && "number"@[0] == 'n');
            }
        },
        PluginParamType::Boolean => {
            assert("boolean"@ != "string"@) by {
                assert("boolean"@[0] == 'b' && "string"@[0] == 's');
            }
            assert("boolean"@ != "number"@) by {
                assert("boolean"@[0] == 'b' && "number"@[0] == 'n');
            }
            assert("boolean"@ != "integer"@) by {
                assert("boolean"@[0] == 'b' && "integer"@[0] == 'i');
            }
        },
        PluginParamType::Json => {
            assert("json"@ != "string"@) by {
                assert("json"@.len() == 4 && "string"@.len() == 6);
            }
            assert("json"@ != "number"@) by {
                assert("json"@.len() == 4 && "number"@.len() == 6);
            }
            assert("json"@ != "integer"@) by {
                assert("json"@.len() == 4 && "integer"@.len() == 7);
            }
            assert("json"@ != "boolean"@) by {
                assert("json"@.len() == 4 && "boolean"@.len() == 7);
            }
        },
    }
}

proof fn lemma_decode_encode_param(p: ParamV)
    ensures
        spec_decode_param(spec_encode_param(p)) == Some(p),
{
    reveal_strlit("name");
    reveal_strlit("type");
    reveal_strlit("description");
    reveal_strlit("default");
    reveal_strlit("choices");
    assert("name"@ != "type"@) by {
        assert("name"@[0] == 'n' && "type"@[0] == 't');
    }
    assert("name"@ != "description"@ && "type"@ != "description"@) by {
        assert("name"@.len() == 4 && "type"@.len() == 4 && "description"@.len() == 11);
    }
    assert("name"@ != "default"@ && "type"@ != "default"@ && "description"@ != "default"@) by {
        assert("default"@.len() == 7 && "description"@.len() == 11);
        assert("default"@[0] == 'd' && "name"@[0] == 'n' && "type"@[0] == 't');
    }
    assert("name"@ != "choices"@ && "type"@ != "choices"@ && "description"@ != "choices"@
        && "default"@ != "choices"@) by {
        assert("choices"@.len() == 7 && "description"@.len() == 11);
        assert("choices"@[0] == 'c' && "name"@[0] == 'n' && "type"@[0] == 't' && "default"@[0]
            == 'd');
    }
    lemma_type_name_roundtrip(p.param_type);
    let fs = (match spec_encode_param(p) {
        Jv::Obj(fs) => fs,
        _ => Seq::empty(),
    });
    let nm = ("name"@, Jv::Str(p.name));
    let tp = ("type"@, Jv::Str(p.param_type.spec_name()));
    let ds: Seq<(Seq<char>, Jv)> = (match p.description {
        Option::Some(d) => seq![("description"@, Jv::Str(d))],
        Option::None => Seq::empty(),
    });
    let df: Seq<(Seq<char>, Jv)> = (match p.default {
        Option::Some(v) => seq![("default"@, v)],
        Option::None => Seq::empty(),
    });
    let ch: Seq<(Seq<char>, Jv)> = (match p.choices {
        Option::Some(cs) => seq![("choices"@, Jv::Arr(cs))],
        Option::None => Seq::empty(),
    });
    let tail3 = ds + df + ch;
    assert(fs == seq![nm, tp] + ds + df + ch);
    assert(fs =~= seq![nm] + (seq![tp] + (ds + (df + ch))));
    let r1 = seq![tp] + (ds + (df + ch));
    let r2 = ds + (df + ch);
    let r3 = df + ch;
    // walk each key down the member list
    lemma_lookup_chain(p, nm, tp, ds, df, ch, "name"@);
    lemma_lookup_chain(p, nm, tp, ds, df, ch, "type"@);
    lemma_lookup_chain(p, nm, tp, ds, df, ch, "description"@);
    lemma_lookup_chain(p, nm, tp, ds, df, ch, "default"@);
    lemma_lookup_chain(p, nm, tp, ds, df, ch, "choices"@);
}

/// Computes `obj_lookup` over the encoded member list for one key.
proof fn lemma_lookup_chain(
    p: ParamV,
    nm: (Seq<char>, Jv),
    tp: (Seq<char>, Jv),
    ds: Seq<(Seq<char>, Jv)>,
    df: Seq<(Seq<char>, Jv)>,
    ch: Seq<(Seq<char>, Jv)>,
    key: Seq<char>,
)
    requires
        nm == ("name"@, Jv::Str(p.name)),
        tp == ("type"@, Jv::Str(p.param_type.spec_name())),
        ds == (match p.description {
            Option::Some(d) => seq![("description"@, Jv::Str(d))],
            Option::None => Seq::<(Seq<char>, Jv)>::empty(),
        }),
        df == (match p.default {
            Option::Some(v) => seq![("default"@, v)],
            Option::None => Seq::<(Seq<char>, Jv)>::empty(),
        }),
        ch == (match p.choices {
            Option::Some(cs) => seq![("choices"@, Jv::Arr(cs))],
            Option::None => Seq::<(Seq<char>, Jv)>::empty(),
        }),
    ensures
        obj_lookup(seq![nm] + (seq![tp] + (ds + (df + ch))), key) == (if key == "name"@ {
            Some(Jv::Str(p.name))
        } else if key == "type"@ {
            Some(Jv::Str(p.param_type.spec_name()))
        } else if key == "description"@ && p.description is Some {
            Some(Jv::Str(p.description->Some_0))
        } else if key == "default"@ && p.default is Some {
            Some(p.default->Some_0)
        } else if key == "choices"@ && p.choices is Some {
            Some(Jv::Arr(p.choices->Some_0))
        } else {
            None::<Jv>
        }),
{
    let r2 = ds + (df + ch);
    let r3 = df + ch;
    lemma_obj_lookup_cons(nm, seq![tp] + r2, key);
    lemma_obj_lookup_cons(tp, r2, key);
    if p.description is Some {
        assert(r2 =~= seq![("description"@, Jv::Str(p.description->Some_0))] + r3);
        lemma_obj_lookup_cons(("description"@, Jv::Str(p.description->Some_0)), r3, key);
    } else {
        assert(r2 =~= r3);
    }
    if p.default is Some {
        assert(r3 =~= seq![("default"@, p.default->Some_0)] + ch);
        lemma_obj_lookup_cons(("default"@, p.default->Some_0), ch, key);
    } else {
        assert(r3 =~= ch);
    }
    if p.choices is Some {
        assert(ch =~= seq![("choices"@, Jv::Arr(p.choices->Some_0))] + Seq::<(
            Seq<char>,
            Jv,
        )>::empty());
        lemma_obj_lookup_cons(
            ("choices"@, Jv::Arr(p.choices->Some_0)),
            Seq::<(Seq<char>, Jv)>::empty(),
            key,
        );
    }
    assert(obj_lookup(Seq::<(Seq<char>, Jv)>::empty(), key) is None);
}

proof fn lemma_decode_encode_params(ps: Seq<ParamV>)
    ensures
        spec_decode_params_seq(spec_encode_params_seq(ps)) == Some(ps),
    decreases ps.len(),
{
    if ps.len() == 0 {
        assert(spec_encode_params_seq(ps).len() == 0);
        assert(spec_decode_params_seq(spec_encode_params_seq(ps)) =~= Some(
            Seq::<ParamV>::empty(),
        ));
        assert(ps =~= Seq::<ParamV>::empty());
    } else {
        let rest = ps.subrange(1, ps.len() as int);
        lemma_decode_encode_params(rest);
        lemma_decode_encode_param(ps[0]);
        let es = spec_encode_params_seq(ps);
        assert(es == seq![spec_encode_param(ps[0])] + spec_encode_params_seq(rest));
        assert(es.len() == 1 + spec_encode_params_seq(rest).len()) by {
            lemma_encode_params_seq_len(rest);
        }
        assert(es[0] == spec_encode_param(ps[0]));
        assert(es.subrange(1, es.len() as int) =~= spec_encode_params_seq(rest));
        assert(seq![ps[0]] + rest =~= ps);
    }
}

proof fn lemma_encode_params_wf(ps: Seq<ParamV>)
    requires
        schema_wf(ps),
    ensures
        jv_wf(spec_encode_params(ps)),
    decreases ps.len(),
{
    let es = spec_encode_params_seq(ps);
    lemma_encode_params_seq_len(ps);
    assert forall|i: int| 0 <= i < es.len() implies jv_wf(#[trigger] es[i]) by {
        lemma_encode_params_seq_index(ps, i);
        lemma_encode_param_wf(ps[i]);
    }
    assert(crate::json::jv_wf_seq(es));
}

proof fn lemma_encode_param_wf(p: ParamV)
    requires
        param_wf(p),
    ensures
        jv_wf(spec_encode_param(p)),
{
    let fs = (match spec_encode_param(p) {
        Jv::Obj(fs) => fs,
        _ => Seq::empty(),
    });
    assert forall|i: int| 0 <= i < fs.len() implies jv_wf((#[trigger] fs[i]).1) by {
        if p.choices is Some {
            assert(crate::json::jv_wf_seq(p.choices->Some_0));
        }
    }
    assert(crate::json::jv_wf_fields(fs));
}

/// Serialising a schema and parsing the text back yields the same schema:
/// the parameter-schema round trip.
pub proof fn lemma_schema_roundtrip(ps: Seq<ParamV>)
    requires
        schema_wf(ps),
    ensures
        spec_parse_params(jprint(spec_encode_params(ps))) == Some(ps),
{
    lemma_encode_params_wf(ps);
    lemma_codec_roundtrip(spec_encode_params(ps));
    lemma_decode_encode_params(ps);
}

// ---------------------------------------------------------------------------
// schema validation
// ---------------------------------------------------------------------------
/// One schema entry is acceptable at its position: a trimmed, non-empty name
/// that no earlier entry uses, a default that matches the declared type, and
/// a default that lies among the choices when both are declared.
pub open spec fn spec_valid_entry(ps: Seq<ParamV>, i: int) -> bool {
    &&& ps[i].name.len() > 0
    &&& spec_trim(ps[i].name) == ps[i].name
    &&& (forall|j: int| 0 <= j < i ==> (#[trigger] ps[j]).name != ps[i].name)
    &&& (ps[i].default matches Some(d) ==> ps[i].param_type.spec_matches(d))
    &&& (ps[i].default matches Some(d) ==> (ps[i].choices matches Some(cs) ==> cs.contains(d)))
}

/// A whole schema is acceptable.
pub open spec fn spec_valid_schema(ps: Seq<ParamV>) -> bool {
    forall|i: int| 0 <= i < ps.len() ==> spec_valid_entry(ps, i)
}

/// Whether a value occurs in a choice list.
fn contains_value(cs: &Vec<JsonValue>, v: &JsonValue) -> (r: bool)
    ensures
        r == jview_seq(cs@).contains(v@),
{
    proof {
        lemma_jview_seq_len(cs@);
    }
    let mut i: usize = 0;
    while i < cs.len()
        invariant
            i <= cs@.len(),
            jview_seq(cs@).len() == cs@.len(),
            forall|j: int| 0 <= j < i ==> jview_seq(cs@)[j] != v@,
        decreases cs@.len() - i,
    {
        proof {
            lemma_jview_seq_index(cs@, i as int);
        }
        if cs[i].same_as(v) {
            proof {
                assert(jview_seq(cs@)[i as int] == v@);
            }
            return true;
        }
        i = i + 1;
    }
    proof {
        if jview_seq(cs@).contains(v@) {
            let j = choose|j: int| 0 <= j < jview_seq(cs@).len() && jview_seq(cs@)[j] == v@;
            assert(false);
        }
    }
    false
}

/// Checks a declared schema and returns its serialised form, or the first
/// validation failure.
pub fn validate_parameters(parameters: &Option<Vec<PluginParameter>>) -> (r: AppResult<
    Option<String>,
>)
    ensures
        parameters is None ==> (r matches Ok(o) && o is None),
        parameters matches Some(ps) ==> ((r is Ok <==> spec_valid_schema(params_view(ps@))) && (
        r matches Ok(o) ==> (o matches Some(s) && s@ == jprint(
            spec_encode_params(params_view(ps@)),
        )))),
        r matches Err(e) ==> e is Execution,
{
    match parameters {
        Option::None => Ok(None),
        Option::Some(ps) => {
            match validate_schema_entries(ps) {
                Ok(()) => Ok(Some(serialize_parameters(ps))),
                Err(e) => Err(e),
            }
        },
    }
}

/// Checks every entry of a schema against `spec_valid_schema`.
pub fn validate_schema_entries(ps: &Vec<PluginParameter>) -> (r: AppResult<()>)
    ensures
        r is Ok <==> spec_valid_schema(params_view(ps@)),
        r matches Err(e) ==> e is Execution,
{
    let ghost view = params_view(ps@);
    proof {
        lemma_params_view_len(ps@);
    }
    let mut i: usize = 0;
    while i < ps.len()
        invariant
            i <= ps@.len(),
            view == params_view(ps@),
            view.len() == ps@.len(),
            forall|x: int| 0 <= x < i ==> spec_valid_entry(view, x),
        decreases ps@.len() - i,
    {
        proof {
            lemma_params_view_index(ps@, i as int);
        }
        let name_chars = str_to_chars(ps[i].name.as_str());
        let trimmed = trim_chars(&name_chars);
        if ps[i].name.as_str().unicode_len() == 0 {
            proof {
                assert(!spec_valid_entry(view, i as int));
            }
            return Err(validation_error("Parameter name cannot be empty"));
        }
        if !crate::text::chars_equal(&trimmed, &name_chars) {
            proof {
                assert(!spec_valid_entry(view, i as int));
            }
            return Err(
                validation_error("Parameter name has leading or trailing whitespace"),
            );
        }
        let mut j: usize = 0;
        while j < i
            invariant
                j <= i < ps@.len(),
                view == params_view(ps@),
                view.len() == ps@.len(),
                forall|y: int| 0 <= y < j ==> (#[trigger] view[y]).name != view[i as int].name,
            decreases i - j,
        {
            proof {
                lemma_params_view_index(ps@, j as int);
                lemma_params_view_index(ps@, i as int);
            }
            if ps[j].name == ps[i].name {
                proof {
                    assert(!spec_valid_entry(view, i as int));
                }
                return Err(validation_error("Duplicate parameter name"));
            }
            j = j + 1;
        }
        match &ps[i].default {
            Option::Some(d) => {
                if !ps[i].param_type.matches(d) {
                    proof {
                        assert(!spec_valid_entry(view, i as int));
                    }
                    return Err(
                        validation_error("Default value does not match the parameter type"),
                    );
                }
                match &ps[i].choices {
                    Option::Some(cs) => {
                        if !contains_value(cs, d) {
                            proof {
                                assert(!spec_valid_entry(view, i as int));
                            }
                            return Err(
                                validation_error("Default value is not one of the choices"),
                            );
                        }
                    },
                    Option::None => {},
                }
            },
            Option::None => {},
        }
        proof {
            assert(spec_valid_entry(view, i as int)) by {
                let p = view[i as int];
                assert(p.name.len() > 0);
                assert(spec_trim(p.name) == p.name);
                assert(forall|y: int| 0 <= y < i ==> (#[trigger] view[y]).name != p.name);
                assert(p.default matches Some(d) ==> p.param_type.spec_matches(d));
                assert(p.default matches Some(d) ==> (p.choices matches Some(cs) ==> cs.contains(
                    d,
                )));
            }
        }
        i = i + 1;
    }
    Ok(())
}

// ---------------------------------------------------------------------------
// parameter resolution
// ---------------------------------------------------------------------------
/// The first schema entry with the given name.
pub open spec fn param_lookup(ps: Seq<ParamV>, n: Seq<char>) -> Option<ParamV>
    decreases ps.len(),
{
    if ps.len() == 0 {
        None
    } else if ps[0].name == n {
        Some(ps[0])
    } else {
        param_lookup(ps.subrange(1, ps.len() as int), n)
    }
}

/// A provided entry occurs under the given name.
pub open spec fn provided_has(pr: Seq<(Seq<char>, Jv)>, n: Seq<char>) -> bool {
    exists|j: int| 0 <= j < pr.len() && (#[trigger] pr[j]).0 == n
}

/// Every provided entry names a distinct, declared parameter, matches its
/// type, and lies among its choices when choices are declared.
pub open spec fn spec_provided_ok(ps: Seq<ParamV>, pr: Seq<(Seq<char>, Jv)>) -> bool {
    forall|i: int| 0 <= i < pr.len() ==> spec_provided_entry_ok(ps, pr, i)
}

pub open spec fn spec_provided_entry_ok(ps: Seq<ParamV>, pr: Seq<(Seq<char>, Jv)>, i: int) -> bool {
    &&& (forall|j: int| 0 <= j < i ==> (#[trigger] pr[j]).0 != pr[i].0)
    &&& (param_lookup(ps, pr[i].0) matches Some(p) && p.param_type.spec_matches(pr[i].1) && (
    p.choices matches Some(cs) ==> cs.contains(pr[i].1)))
}

/// Every schema entry not provided has a default that its choices allow.
pub open spec fn spec_defaults_ok(ps: Seq<ParamV>, pr: Seq<(Seq<char>, Jv)>) -> bool {
    forall|i: int| 0 <= i < ps.len() ==> spec_default_entry_ok(ps, pr, i)
}

pub open spec fn spec_default_entry_ok(ps: Seq<ParamV>, pr: Seq<(Seq<char>, Jv)>, i: int) -> bool {
    provided_has(pr, ps[i].name) || (ps[i].default matches Some(d) && (
    ps[i].choices matches Some(cs) ==> cs.contains(d)))
}

/// The default entries appended for schema parameters that were not provided,
/// in schema order.
pub open spec fn spec_defaults_list(ps: Seq<ParamV>, pr: Seq<(Seq<char>, Jv)>) -> Seq<
    (Seq<char>, Jv),
>
    decreases ps.len(),
{
    if ps.len() == 0 {
        Seq::empty()
    } else {
        let rest = spec_defaults_list(ps.subrange(1, ps.len() as int), pr);
        if provided_has(pr, ps[0].name) {
            rest
        } else {
            seq![(ps[0].name, ps[0].default->Some_0)] + rest
        }
    }
}

/// A stored schema string accepts the provided values: an absent or blank
/// schema accepts only an empty set, and otherwise the text must parse and
/// resolution must succeed against it.
pub open spec fn spec_params_ok(raw: Option<Seq<char>>, pr: Seq<(Seq<char>, Jv)>) -> bool {
    match raw {
        Some(s) => if crate::text::spec_trim(s).len() == 0 {
            pr.len() == 0
        } else {
            spec_parse_params(crate::text::spec_trim(s)) matches Some(ps) && spec_resolve_ok(
                ps,
                pr,
            )
        },
        None => pr.len() == 0,
    }
}

/// What resolution yields on acceptable inputs: the provided entries
/// followed by the defaults of everything not provided.
pub open spec fn spec_resolved_params(raw: Option<Seq<char>>, pr: Seq<(Seq<char>, Jv)>) -> Seq<
    (Seq<char>, Jv),
> {
    match raw {
        Some(s) => if crate::text::spec_trim(s).len() == 0 {
            pr
        } else {
            (match spec_parse_params(crate::text::spec_trim(s)) {
                Some(ps) => pr + spec_defaults_list(ps, pr),
                None => pr,
            })
        },
        None => pr,
    }
}

/// Everything `resolve_parameters` demands of its inputs to succeed.
pub open spec fn spec_resolve_ok(ps: Seq<ParamV>, pr: Seq<(Seq<char>, Jv)>) -> bool {
    if ps.len() == 0 {
        pr.len() == 0
    } else {
        spec_valid_schema(ps) && spec_provided_ok(ps, pr) && spec_defaults_ok(ps, pr)
    }
}

fn find_param<'a>(ps: &'a Vec<PluginParameter>, n: &String) -> (r: Option<&'a PluginParameter>)
    ensures
        (match r {
            Some(p) => param_lookup(params_view(ps@), n@) == Some(p@),
            None => param_lookup(params_view(ps@), n@) is None,
        }),
{
    proof {
        lemma_params_view_len(ps@);
        assert(ps@.subrange(0, ps@.len() as int) =~= ps@);
    }
    let mut i: usize = 0;
    while i < ps.len()
        invariant
            i <= ps@.len(),
            param_lookup(params_view(ps@), n@) == param_lookup(
                params_view(ps@.subrange(i as int, ps@.len() as int)),
                n@,
            ),
        decreases ps@.len() - i,
    {
        let ghost sub = ps@.subrange(i as int, ps@.len() as int);
        let ghost sub2 = ps@.subrange(i + 1, ps@.len() as int);
        proof {
            lemma_params_view_len(sub);
            lemma_params_view_index(sub, 0);
            assert(sub[0] == ps@[i as int]);
            assert(params_view(sub).subrange(1, params_view(sub).len() as int) =~= params_view(
                sub.subrange(1, sub.len() as int),
            )) by {
                lemma_params_view_len(sub.subrange(1, sub.len() as int));
                assert forall|x: int|
                    0 <= x < params_view(sub).len() - 1 implies params_view(sub).subrange(
                    1,
                    params_view(sub).len() as int,
                )[x] == params_view(sub.subrange(1, sub.len() as int))[x] by {
                    lemma_params_view_index(sub, x + 1);
                    lemma_params_view_index(sub.subrange(1, sub.len() as int), x);
                }
            }
            assert(sub.subrange(1, sub.len() as int) =~= sub2);
        }
        if ps[i].name == *n {
            return Some(&ps[i]);
        }
        i = i + 1;
    }
    proof {
        assert(ps@.subrange(i as int, ps@.len() as int).len() == 0);
        assert(params_view(ps@.subrange(i as int, ps@.len() as int)) =~= Seq::<ParamV>::empty());
    }
    None
}

/// Checks that a value lies among a parameter's choices, when it has any.
pub fn ensure_choice(param: &PluginParameter, value: &JsonValue) -> (r: AppResult<()>)
    ensures
        r is Ok <==> (param@.choices matches Some(cs) ==> cs.contains(value@)),
        r matches Err(e) ==> e is Execution,
{
    match &param.choices {
        Option::Some(cs) => {
            if contains_value(cs, value) {
                Ok(())
            } else {
                Err(validation_error("Parameter value must be one of the choices"))
            }
        },
        Option::None => Ok(()),
    }
}

/// Resolves caller-provided values against a schema: rejects unknown or
/// duplicated names, type mismatches and refused choices, then fills in the
/// defaults of everything not provided.
pub fn resolve_against_schema(
    schema: &Vec<PluginParameter>,
    provided: Vec<(String, JsonValue)>,
) -> (r: AppResult<Vec<(String, JsonValue)>>)
    ensures
        r is Ok <==> spec_resolve_ok(params_view(schema@), jview_fields(provided@)),
        r matches Ok(res) ==> jview_fields(res@) == jview_fields(provided@) + spec_defaults_list(
            params_view(schema@),
            jview_fields(provided@),
        ),
        r matches Err(e) ==> e is Execution,
{
    let ghost ps = params_view(schema@);
    let ghost pr = jview_fields(provided@);
    proof {
        lemma_params_view_len(schema@);
        lemma_jview_fields_len(provided@);
    }
    if schema.len() == 0 {
        if provided.len() == 0 {
            proof {
                assert(spec_defaults_list(ps, pr) =~= Seq::<(Seq<char>, Jv)>::empty());
                assert(jview_fields(provided@) + spec_defaults_list(ps, pr) =~= jview_fields(
                    provided@,
                ));
            }
            return Ok(provided);
        }
        return Err(validation_error("Plugin does not declare parameters"));
    }
    // check the schema itself
    match validate_schema_entries(schema) {
        Ok(()) => {},
        Err(e) => {
            return Err(e);
        },
    }
    // check every provided entry
    let mut i: usize = 0;
    while i < provided.len()
        invariant
            i <= provided@.len(),
            ps == params_view(schema@),
            pr == jview_fields(provided@),
            pr.len() == provided@.len(),
            forall|x: int| 0 <= x < i ==> spec_provided_entry_ok(ps, pr, x),
        decreases provided@.len() - i,
    {
        proof {
            lemma_jview_fields_index(provided@, i as int);
        }
        let mut j: usize = 0;
        while j < i
            invariant
                j <= i < provided@.len(),
                ps == params_view(schema@),
                pr == jview_fields(provided@),
                pr.len() == provided@.len(),
                forall|y: int| 0 <= y < j ==> (#[trigger] pr[y]).0 != pr[i as int].0,
            decreases i - j,
        {
            proof {
                lemma_jview_fields_index(provided@, j as int);
                lemma_jview_fields_index(provided@, i as int);
            }
            if provided[j].0 == provided[i].0 {
                proof {
                    assert(pr[j as int].0 == pr[i as int].0);
                    assert(!spec_provided_entry_ok(ps, pr, i as int));
                }
                return Err(validation_error("Duplicate parameter name"));
            }
            j = j + 1;
        }
        match find_param(schema, &provided[i].0) {
            Option::None => {
                proof {
                    assert(!spec_provided_entry_ok(ps, pr, i as int));
                }
                return Err(validation_error("Unknown parameter"));
            },
            Option::Some(p) => {
                if !p.param_type.matches(&provided[i].1) {
                    proof {
                        assert(!spec_provided_entry_ok(ps, pr, i as int));
                    }
                    return Err(validation_error("Parameter value does not match its type"));
                }
                match ensure_choice(p, &provided[i].1) {
                    Ok(()) => {},
                    Err(e) => {
                        proof {
                            assert(!spec_provided_entry_ok(ps, pr, i as int));
                        }
                        return Err(e);
                    },
                }
            },
        }
        proof {
            assert(spec_provided_entry_ok(ps, pr, i as int));
        }
        i = i + 1;
    }
    // fill in defaults for everything not provided
    let mut extras: Vec<(String, JsonValue)> = Vec::new();
    let mut k: usize = 0;
    proof {
        assert(jview_fields(extras@) =~= Seq::<(Seq<char>, Jv)>::empty());
    }
    while k < schema.len()
        invariant
            k <= schema@.len(),
            ps == params_view(schema@),
            ps.len() == schema@.len(),
            pr == jview_fields(provided@),
            forall|x: int| 0 <= x < k ==> spec_default_entry_ok(ps, pr, x),
            jview_fields(extras@) == spec_defaults_prefix(ps, pr, k as int),
        decreases schema@.len() - k,
    {
        proof {
            lemma_params_view_index(schema@, k as int);
        }
        let already = has_provided(&provided, &schema[k].name);
        proof {
            lemma_defaults_prefix_snoc(ps, pr, k as int);
        }
        if !already {
            match &schema[k].default {
                Option::Some(d) => {
                    match ensure_choice(&schema[k], d) {
                        Ok(()) => {},
                        Err(e) => {
                            proof {
                                assert(!spec_default_entry_ok(ps, pr, k as int));
                            }
                            return Err(e);
                        },
                    }
                    let ghost preex = extras@;
                    extras.push((schema[k].name.clone(), d.duplicate()));
                    proof {
                        lemma_jview_fields_snoc_vec(
                            preex,
                            extras@,
                            (ps[k as int].name, ps[k as int].default->Some_0),
                        );
                    }
                },
                Option::None => {
                    proof {
                        assert(!spec_default_entry_ok(ps, pr, k as int));
                    }
                    return Err(validation_error("Missing required parameter"));
                },
            }
        }
        proof {
            assert(spec_default_entry_ok(ps, pr, k as int));
        }
        k = k + 1;
    }
    let mut out = provided;
    let ghost base = out@;
    let ghost extseq = extras@;
    out.append(&mut extras);
    proof {
        lemma_defaults_prefix_full(ps, pr);
        lemma_jview_fields_concat(base, extseq);
        assert(out@ == base + extseq);
        assert(jview_fields(out@) == jview_fields(base) + jview_fields(extseq));
    }
    Ok(out)
}

proof fn lemma_jview_fields_concat(a: Seq<(String, JsonValue)>, b: Seq<(String, JsonValue)>)
    ensures
        jview_fields(a + b) == jview_fields(a) + jview_fields(b),
{
    lemma_jview_fields_len(a);
    lemma_jview_fields_len(b);
    lemma_jview_fields_len(a + b);
    assert forall|x: int| 0 <= x < a.len() + b.len() implies jview_fields(a + b)[x] == (
    jview_fields(a) + jview_fields(b))[x] by {
        lemma_jview_fields_index(a + b, x);
        if x < a.len() {
            lemma_jview_fields_index(a, x);
            assert((a + b)[x] == a[x]);
        } else {
            lemma_jview_fields_index(b, x - a.len());
            assert((a + b)[x] == b[x - a.len()]);
        }
    }
    assert(jview_fields(a + b) =~= jview_fields(a) + jview_fields(b));
}

/// The defaults contributed by schema entries before position `k`.
pub open spec fn spec_defaults_prefix(ps: Seq<ParamV>, pr: Seq<(Seq<char>, Jv)>, k: int) -> Seq<
    (Seq<char>, Jv),
>
    decreases k,
{
    if k <= 0 {
        Seq::empty()
    } else {
        let rest = spec_defaults_prefix(ps, pr, k - 1);
        if provided_has(pr, ps[k - 1].name) {
            rest
        } else {
            rest.push((ps[k - 1].name, ps[k - 1].default->Some_0))
        }
    }
}

/// The defaults contributed by schema entries from position `k` on.
pub open spec fn spec_defaults_tail(ps: Seq<ParamV>, pr: Seq<(Seq<char>, Jv)>, k: int) -> Seq<
    (Seq<char>, Jv),
>
    decreases ps.len() - k,
{
    if k < 0 || k >= ps.len() {
        Seq::empty()
    } else {
        let rest = spec_defaults_tail(ps, pr, k + 1);
        if provided_has(pr, ps[k].name) {
            rest
        } else {
            seq![(ps[k].name, ps[k].default->Some_0)] + rest
        }
    }
}

proof fn lemma_defaults_tail_full(ps: Seq<ParamV>, pr: Seq<(Seq<char>, Jv)>)
    ensures
        spec_defaults_tail(ps, pr, 0) == spec_defaults_list(ps, pr),
    decreases ps.len(),
{
    lemma_defaults_tail_is_list(ps, pr, 0);
    assert(ps.subrange(0, ps.len() as int) =~= ps);
}

proof fn lemma_defaults_tail_is_list(ps: Seq<ParamV>, pr: Seq<(Seq<char>, Jv)>, k: int)
    requires
        0 <= k <= ps.len(),
    ensures
        spec_defaults_tail(ps, pr, k) == spec_defaults_list(
            ps.subrange(k, ps.len() as int),
            pr,
        ),
    decreases ps.len() - k,
{
    let sub = ps.subrange(k, ps.len() as int);
    if k < ps.len() {
        lemma_defaults_tail_is_list(ps, pr, k + 1);
        assert(sub.len() > 0);
        assert(sub[0] == ps[k]);
        assert(sub.subrange(1, sub.len() as int) =~= ps.subrange(k + 1, ps.len() as int));
    } else {
        assert(sub.len() == 0);
    }
}

proof fn lemma_defaults_prefix_snoc(ps: Seq<ParamV>, pr: Seq<(Seq<char>, Jv)>, k: int)
    requires
        0 <= k,
    ensures
        spec_defaults_prefix(ps, pr, k + 1) == (if provided_has(pr, ps[k].name) {
            spec_defaults_prefix(ps, pr, k)
        } else {
            spec_defaults_prefix(ps, pr, k).push((ps[k].name, ps[k].default->Some_0))
        }),
{
}

proof fn lemma_defaults_prefix_full(ps: Seq<ParamV>, pr: Seq<(Seq<char>, Jv)>)
    ensures
        spec_defaults_prefix(ps, pr, ps.len() as int) == spec_defaults_list(ps, pr),
    decreases ps.len(),
{
    lemma_defaults_prefix_tail_split(ps, pr, ps.len() as int);
    lemma_defaults_tail_full(ps, pr);
    assert(spec_defaults_prefix(ps, pr, ps.len() as int) + spec_defaults_tail(
        ps,
        pr,
        ps.len() as int,
    ) =~= spec_defaults_prefix(ps, pr, ps.len() as int));
}

proof fn lemma_defaults_prefix_tail_split(ps: Seq<ParamV>, pr: Seq<(Seq<char>, Jv)>, k: int)
    requires
        0 <= k <= ps.len(),
    ensures
        spec_defaults_prefix(ps, pr, k) + spec_defaults_tail(ps, pr, k) == spec_defaults_tail(
            ps,
            pr,
            0,
        ),
    decreases k,
{
    if k == 0 {
        assert(spec_defaults_prefix(ps, pr, 0) + spec_defaults_tail(ps, pr, 0)
            =~= spec_defaults_tail(ps, pr, 0));
    } else {
        lemma_defaults_prefix_tail_split(ps, pr, k - 1);
        if provided_has(pr, ps[k - 1].name) {
        } else {
            assert(spec_defaults_prefix(ps, pr, k) + spec_defaults_tail(ps, pr, k)
                =~= spec_defaults_prefix(ps, pr, k - 1) + (seq![
                (ps[k - 1].name, ps[k - 1].default->Some_0)] + spec_defaults_tail(ps, pr, k)));
        }
    }
}

proof fn lemma_jview_fields_snoc_vec(
    pre: Seq<(String, JsonValue)>,
    post: Seq<(String, JsonValue)>,
    kv: (Seq<char>, Jv),
)
    requires
        post.len() == pre.len() + 1,
        forall|x: int| 0 <= x < pre.len() ==> post[x] == pre[x],
        post[post.len() - 1].0@ == kv.0,
        crate::json::jview(post[post.len() - 1].1) == kv.1,
    ensures
        jview_fields(post) == jview_fields(pre).push(kv),
{
    lemma_jview_fields_len(pre);
    lemma_jview_fields_len(post);
    assert forall|x: int| 0 <= x < post.len() implies jview_fields(post)[x] == jview_fields(
        pre,
    ).push(kv)[x] by {
        lemma_jview_fields_index(post, x);
        if x < pre.len() {
            lemma_jview_fields_index(pre, x);
        }
    }
    assert(jview_fields(post) =~= jview_fields(pre).push(kv));
}

fn has_provided(provided: &Vec<(String, JsonValue)>, n: &String) -> (r: bool)
    ensures
        r == provided_has(jview_fields(provided@), n@),
{
    proof {
        lemma_jview_fields_len(provided@);
    }
    let mut i: usize = 0;
    while i < provided.len()
        invariant
            i <= provided@.len(),
            forall|j: int| 0 <= j < i ==> (#[trigger] jview_fields(provided@)[j]).0 != n@,
            jview_fields(provided@).len() == provided@.len(),
        decreases provided@.len() - i,
    {
        proof {
            lemma_jview_fields_index(provided@, i as int);
        }
        if provided[i].0 == *n {
            proof {
                assert(jview_fields(provided@)[i as int].0 == n@);
            }
            return true;
        }
        i = i + 1;
    }
    proof {
        if provided_has(jview_fields(provided@), n@) {
            let j = choose|j: int|
                0 <= j < jview_fields(provided@).len() && (#[trigger] jview_fields(
                    provided@,
                )[j]).0 == n@;
            assert(false);
        }
    }
    false
}

} // verus!
