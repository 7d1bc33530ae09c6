//! Semantic-version ordering.
//!
//! Version strings are parsed by the `semver` crate behind a trusted wrapper;
//! the ordering itself is implemented and verified here, mirroring that
//! crate's comparison rules (numeric fields first, then pre-release
//! identifiers, then build metadata).

use vstd::prelude::*;
use vstd::string::*;
use crate::errors::{AppResult, validation_error};
use crate::json::is_digit;
use crate::text::{str_to_chars, trim_chars, chars_to_string, spec_trim};

verus! {

/// The host's own version, compared against `min_atom_node_version`.
pub const HOST_VERSION: &'static str = "0.1.0";

/// A parsed semantic version, held as plain values.
#[derive(Debug, Clone)]
pub struct SemVer {
    pub major: u64,
    pub minor: u64,
    pub patch: u64,
    /// The pre-release identifiers, dot-separated, possibly empty.
    pub pre: String,
    /// The build metadata identifiers, dot-separated, possibly empty.
    pub build: String,
}

impl View for SemVer {
    type V = (u64, u64, u64, Seq<char>, Seq<char>);

    open spec fn view(&self) -> (u64, u64, u64, Seq<char>, Seq<char>) {
        (self.major, self.minor, self.patch, self.pre@, self.build@)
    }
}

/// What `semver::Version::parse` returns on a given string: the result
/// depends on the characters alone.
pub uninterp spec fn semver_of(s: Seq<char>) -> Option<(u64, u64, u64, Seq<char>, Seq<char>)>;

/// Relies on `semver::Version::parse`: the parsed version's numeric fields
/// and its pre-release and build identifier strings are copied out verbatim.
#[verifier::external_body]
fn parse_semver_raw(s: &str) -> (r: Option<(u64, u64, u64, String, String)>)
    ensures
        (match r {
            Some(t) => semver_of(s@) == Some((t.0, t.1, t.2, t.3@, t.4@)),
            None => semver_of(s@) is None,
        }),
{
    match semver::Version::parse(s) {
        Ok(v) => Some(
            (v.major, v.minor, v.patch, v.pre.as_str().to_owned(), v.build.as_str().to_owned()),
        ),
        Err(_) => None,
    }
}

/// Parses a version string; `None` exactly when the `semver` grammar
/// rejects it.
pub fn parse_version(s: &str) -> (r: Option<SemVer>)
    ensures
        (match r {
            Some(v) => semver_of(s@) == Some(v@),
            None => semver_of(s@) is None,
        }),
{
    match parse_semver_raw(s) {
        Some((major, minor, patch, pre, build)) => Some(
            SemVer { major, minor, patch, pre, build },
        ),
        None => None,
    }
}

/// An ordering outcome.
#[derive(Debug, Clone, Copy, PartialEq, Eq, Structural)]
pub enum VerOrder {
    Lt,
    Eq,
    Gt,
}

pub open spec fn ord_of_ints(a: int, b: int) -> VerOrder {
    if a < b {
        VerOrder::Lt
    } else if a > b {
        VerOrder::Gt
    } else {
        VerOrder::Eq
    }
}

/// Plain lexicographic order on character sequences, by code point.
pub open spec fn lex_cmp(a: Seq<char>, b: Seq<char>) -> VerOrder
    decreases a.len(),
{
    if a.len() == 0 && b.len() == 0 {
        VerOrder::Eq
    } else if a.len() == 0 {
        VerOrder::Lt
    } else if b.len() == 0 {
        VerOrder::Gt
    } else if (a[0] as u32) < (b[0] as u32) {
        VerOrder::Lt
    } else if (a[0] as u32) > (b[0] as u32) {
        VerOrder::Gt
    } else {
        lex_cmp(a.subrange(1, a.len() as int), b.subrange(1, b.len() as int))
    }
}

pub open spec fn all_digits_seq(s: Seq<char>) -> bool {
    forall|i: int| 0 <= i < s.len() ==> is_digit(#[trigger] s[i])
}

/// Leading zeros stripped.
pub open spec fn strip_zeros(s: Seq<char>) -> Seq<char>
    decreases s.len(),
{
    if s.len() > 0 && s[0] == '0' {
        strip_zeros(s.subrange(1, s.len() as int))
    } else {
        s
    }
}

/// One pre-release identifier against another: numeric identifiers order by
/// length then text, and always before alphanumeric ones.
pub open spec fn pre_ident_cmp(a: Seq<char>, b: Seq<char>) -> VerOrder {
    if all_digits_seq(a) && all_digits_seq(b) {
        if a.len() != b.len() {
            ord_of_ints(a.len() as int, b.len() as int)
        } else {
            lex_cmp(a, b)
        }
    } else if all_digits_seq(a) {
        VerOrder::Lt
    } else if all_digits_seq(b) {
        VerOrder::Gt
    } else {
        lex_cmp(a, b)
    }
}

/// One build identifier against another: numeric identifiers order by their
/// value (leading zeros last), and before alphanumeric ones.
pub open spec fn build_ident_cmp(a: Seq<char>, b: Seq<char>) -> VerOrder {
    if all_digits_seq(a) && all_digits_seq(b) {
        let ta = strip_zeros(a);
        let tb = strip_zeros(b);
        if ta.len() != tb.len() {
            ord_of_ints(ta.len() as int, tb.len() as int)
        } else if lex_cmp(ta, tb) != VerOrder::Eq {
            lex_cmp(ta, tb)
        } else {
            ord_of_ints(a.len() as int, b.len() as int)
        }
    } else if all_digits_seq(a) {
        VerOrder::Lt
    } else if all_digits_seq(b) {
        VerOrder::Gt
    } else {
        lex_cmp(a, b)
    }
}

/// First index at or after `i` holding a dot, or the end.
pub open spec fn dot_end(s: Seq<char>, i: int) -> int
    decreases s.len() - i,
{
    if i < 0 || i >= s.len() {
        i
    } else if s[i] == '.' {
        i
    } else {
        dot_end(s, i + 1)
    }
}

/// Dot-separated identifier lists compared element-wise; a longer list wins
/// once the common prefix agrees. `kind` selects the identifier rule: `true`
/// for pre-release, `false` for build metadata.
pub open spec fn ident_list_cmp(a: Seq<char>, b: Seq<char>, pre_rule: bool) -> VerOrder
    decreases a.len() + b.len(),
{
    let da = dot_end(a, 0);
    let db = dot_end(b, 0);
    if da < 0 || da > a.len() || db < 0 || db > b.len() {
        VerOrder::Eq
    } else {
        let ha = a.subrange(0, da);
        let hb = b.subrange(0, db);
        let c = if pre_rule {
            pre_ident_cmp(ha, hb)
        } else {
            build_ident_cmp(ha, hb)
        };
        if c != VerOrder::Eq {
            c
        } else if da == a.len() && db == b.len() {
            VerOrder::Eq
        } else if da == a.len() {
            VerOrder::Lt
        } else if db == b.len() {
            VerOrder::Gt
        } else {
            ident_list_cmp(
                a.subrange(da + 1, a.len() as int),
                b.subrange(db + 1, b.len() as int),
                pre_rule,
            )
        }
    }
}

/// Pre-release strings: absence ranks above presence.
pub open spec fn pre_cmp(a: Seq<char>, b: Seq<char>) -> VerOrder {
    if a.len() == 0 && b.len() == 0 {
        VerOrder::Eq
    } else if a.len() == 0 {
        VerOrder::Gt
    } else if b.len() == 0 {
        VerOrder::Lt
    } else {
        ident_list_cmp(a, b, true)
    }
}

/// Build metadata strings.
pub open spec fn build_cmp(a: Seq<char>, b: Seq<char>) -> VerOrder {
    if a.len() == 0 && b.len() == 0 {
        VerOrder::Eq
    } else {
        ident_list_cmp(a, b, false)
    }
}

/// Whole versions: numeric fields first, then pre-release, then build.
pub open spec fn version_cmp(a: (u64, u64, u64, Seq<char>, Seq<char>), b: (
    u64,
    u64,
    u64,
    Seq<char>,
    Seq<char>,
)) -> VerOrder {
    if a.0 != b.0 {
        ord_of_ints(a.0 as int, b.0 as int)
    } else if a.1 != b.1 {
        ord_of_ints(a.1 as int, b.1 as int)
    } else if a.2 != b.2 {
        ord_of_ints(a.2 as int, b.2 as int)
    } else if pre_cmp(a.3, b.3) != VerOrder::Eq {
        pre_cmp(a.3, b.3)
    } else {
        build_cmp(a.4, b.4)
    }
}

// ---------------------------------------------------------------------------
// executable comparison
// ---------------------------------------------------------------------------
fn exec_lex_cmp(a: &Vec<char>, ai: usize, b: &Vec<char>, bi: usize) -> (r: VerOrder)
    requires
        ai <= a@.len(),
        bi <= b@.len(),
    ensures
        r == lex_cmp(
            a@.subrange(ai as int, a@.len() as int),
            b@.subrange(bi as int, b@.len() as int),
        ),
    decreases a@.len() - ai,
{
    let ghost sa = a@.subrange(ai as int, a@.len() as int);
    let ghost sb = b@.subrange(bi as int, b@.len() as int);
    if ai == a.len() && bi == b.len() {
        VerOrder::Eq
    } else if ai == a.len() {
        VerOrder::Lt
    } else if bi == b.len() {
        VerOrder::Gt
    } else {
        proof {
            assert(sa[0] == a@[ai as int]);
            assert(sb[0] == b@[bi as int]);
        }
        let ca = a[ai] as u32;
        let cb = b[bi] as u32;
        if ca < cb {
            VerOrder::Lt
        } else if ca > cb {
            VerOrder::Gt
        } else {
            let r = exec_lex_cmp(a, ai + 1, b, bi + 1);
            proof {
                assert(sa.subrange(1, sa.len() as int) =~= a@.subrange(
                    ai + 1,
                    a@.len() as int,
                ));
                assert(sb.subrange(1, sb.len() as int) =~= b@.subrange(
                    bi + 1,
                    b@.len() as int,
                ));
            }
            r
        }
    }
}

fn exec_range_lex_cmp(a: &Vec<char>, a0: usize, a1: usize, b: &Vec<char>, b0: usize, b1: usize) -> (r:
    VerOrder)
    requires
        a0 <= a1 <= a@.len(),
        b0 <= b1 <= b@.len(),
    ensures
        r == lex_cmp(a@.subrange(a0 as int, a1 as int), b@.subrange(b0 as int, b1 as int)),
{
    let va = crate::json::copy_range(a, a0, a1);
    let vb = crate::json::copy_range(b, b0, b1);
    proof {
        assert(va@.subrange(0, va@.len() as int) =~= va@);
        assert(vb@.subrange(0, vb@.len() as int) =~= vb@);
    }
    exec_lex_cmp(&va, 0, &vb, 0)
}

fn exec_all_digits(a: &Vec<char>, a0: usize, a1: usize) -> (r: bool)
    requires
        a0 <= a1 <= a@.len(),
    ensures
        r == all_digits_seq(a@.subrange(a0 as int, a1 as int)),
{
    let ghost sub = a@.subrange(a0 as int, a1 as int);
    let mut i: usize = a0;
    while i < a1
        invariant
            a0 <= i <= a1 <= a@.len(),
            forall|j: int| 0 <= j < i - a0 ==> is_digit(#[trigger] sub[j]),
        decreases a1 - i,
    {
        proof {
            assert(sub[i - a0] == a@[i as int]);
        }
        let u = a[i] as u32;
        if !(48 <= u && u <= 57) {
            return false;
        }
        i = i + 1;
    }
    true
}

fn exec_strip_zeros_start(a: &Vec<char>, a0: usize, a1: usize) -> (r: usize)
    requires
        a0 <= a1 <= a@.len(),
    ensures
        a0 <= r <= a1,
        strip_zeros(a@.subrange(a0 as int, a1 as int)) == a@.subrange(r as int, a1 as int),
{
    let mut i: usize = a0;
    while i < a1 && a[i] == '0'
        invariant
            a0 <= i <= a1 <= a@.len(),
            strip_zeros(a@.subrange(a0 as int, a1 as int)) == strip_zeros(
                a@.subrange(i as int, a1 as int),
            ),
        decreases a1 - i,
    {
        proof {
            let sub = a@.subrange(i as int, a1 as int);
            assert(sub[0] == a@[i as int]);
            assert(sub.subrange(1, sub.len() as int) =~= a@.subrange(i + 1, a1 as int));
        }
        i = i + 1;
    }
    proof {
        let sub = a@.subrange(i as int, a1 as int);
        if i < a1 {
            assert(sub[0] == a@[i as int]);
        }
    }
    i
}

fn exec_pre_ident_cmp(a: &Vec<char>, a0: usize, a1: usize, b: &Vec<char>, b0: usize, b1: usize) -> (r:
    VerOrder)
    requires
        a0 <= a1 <= a@.len(),
        b0 <= b1 <= b@.len(),
    ensures
        r == pre_ident_cmp(a@.subrange(a0 as int, a1 as int), b@.subrange(b0 as int, b1 as int)),
{
    let da = exec_all_digits(a, a0, a1);
    let db = exec_all_digits(b, b0, b1);
    if da && db {
        if a1 - a0 != b1 - b0 {
            if a1 - a0 < b1 - b0 {
                VerOrder::Lt
            } else {
                VerOrder::Gt
            }
        } else {
            exec_range_lex_cmp(a, a0, a1, b, b0, b1)
        }
    } else if da {
        VerOrder::Lt
    } else if db {
        VerOrder::Gt
    } else {
        exec_range_lex_cmp(a, a0, a1, b, b0, b1)
    }
}

fn exec_build_ident_cmp(a: &Vec<char>, a0: usize, a1: usize, b: &Vec<char>, b0: usize, b1: usize) -> (r:
    VerOrder)
    requires
        a0 <= a1 <= a@.len(),
        b0 <= b1 <= b@.len(),
    ensures
        r == build_ident_cmp(
            a@.subrange(a0 as int, a1 as int),
            b@.subrange(b0 as int, b1 as int),
        ),
{
    let da = exec_all_digits(a, a0, a1);
    let db = exec_all_digits(b, b0, b1);
    if da && db {
        let ta = exec_strip_zeros_start(a, a0, a1);
        let tb = exec_strip_zeros_start(b, b0, b1);
        if a1 - ta != b1 - tb {
            if a1 - ta < b1 - tb {
                VerOrder::Lt
            } else {
                VerOrder::Gt
            }
        } else {
            let c = exec_range_lex_cmp(a, ta, a1, b, tb, b1);
            if !matches!(c, VerOrder::Eq) {
                c
            } else {
                if a1 - a0 < b1 - b0 {
                    VerOrder::Lt
                } else if a1 - a0 > b1 - b0 {
                    VerOrder::Gt
                } else {
                    VerOrder::Eq
                }
            }
        }
    } else if da {
        VerOrder::Lt
    } else if db {
        VerOrder::Gt
    } else {
        exec_range_lex_cmp(a, a0, a1, b, b0, b1)
    }
}

fn exec_dot_end(a: &Vec<char>, i: usize, end: usize) -> (r: usize)
    requires
        i <= end,
        end == a@.len(),
    ensures
        r as int == dot_end(a@, i as int),
        i <= r <= end,
{
    let mut j: usize = i;
    while j < end && a[j] != '.'
        invariant
            i <= j <= end,
            end == a@.len(),
            dot_end(a@, i as int) == dot_end(a@, j as int),
        decreases end - j,
    {
        j = j + 1;
    }
    j
}

fn exec_ident_list_cmp(a: Vec<char>, b: Vec<char>, pre_rule: bool) -> (r: VerOrder)
    ensures
        r == ident_list_cmp(a@, b@, pre_rule),
    decreases a@.len() + b@.len(),
{
    let da = exec_dot_end(&a, 0, a.len());
    let db = exec_dot_end(&b, 0, b.len());
    let c = if pre_rule {
        exec_pre_ident_cmp(&a, 0, da, &b, 0, db)
    } else {
        exec_build_ident_cmp(&a, 0, da, &b, 0, db)
    };
    if !matches!(c, VerOrder::Eq) {
        c
    } else if da == a.len() && db == b.len() {
        VerOrder::Eq
    } else if da == a.len() {
        VerOrder::Lt
    } else if db == b.len() {
        VerOrder::Gt
    } else {
        let ra = crate::json::copy_range(&a, da + 1, a.len());
        let rb = crate::json::copy_range(&b, db + 1, b.len());
        exec_ident_list_cmp(ra, rb, pre_rule)
    }
}

impl SemVer {
    /// Compares two versions by the `semver` ordering.
    pub fn compare(&self, other: &SemVer) -> (r: VerOrder)
        ensures
            r == version_cmp(self@, other@),
    {
        if self.major != other.major {
            return if self.major < other.major {
                VerOrder::Lt
            } else {
                VerOrder::Gt
            };
        }
        if self.minor != other.minor {
            return if self.minor < other.minor {
                VerOrder::Lt
            } else {
                VerOrder::Gt
            };
        }
        if self.patch != other.patch {
            return if self.patch < other.patch {
                VerOrder::Lt
            } else {
                VerOrder::Gt
            };
        }
        let pa = str_to_chars(self.pre.as_str());
        let pb = str_to_chars(other.pre.as_str());
        let pc = (if pa.len() == 0 && pb.len() == 0 {
            VerOrder::Eq
        } else if pa.len() == 0 {
            VerOrder::Gt
        } else if pb.len() == 0 {
            VerOrder::Lt
        } else {
            exec_ident_list_cmp(pa, pb, true)
        });
        if !matches!(pc, VerOrder::Eq) {
            return pc;
        }
        let ba = str_to_chars(self.build.as_str());
        let bb = str_to_chars(other.build.as_str());
        if ba.len() == 0 && bb.len() == 0 {
            VerOrder::Eq
        } else {
            exec_ident_list_cmp(ba, bb, false)
        }
    }
}

/// Accepts a candidate version exactly when it is strictly newer than the
/// current one by the `semver` ordering; empty or unparsable versions are
/// validation errors.
pub fn ensure_newer_version(candidate: &str, current: &str) -> (r: AppResult<()>)
    ensures
        r is Ok <==> (spec_trim(candidate@).len() > 0 && (semver_of(
            spec_trim(candidate@),
        ) matches Some(c) && (semver_of(spec_trim(current@)) matches Some(u) && version_cmp(c, u)
            == VerOrder::Gt))),
        r matches Err(e) ==> e is Execution,
{
    let cand_chars = trim_chars(&str_to_chars(candidate));
    if cand_chars.len() == 0 {
        return Err(validation_error("Plugin version cannot be empty"));
    }
    let cand_str = chars_to_string(&cand_chars);
    let cur_chars = trim_chars(&str_to_chars(current));
    let cur_str = chars_to_string(&cur_chars);
    let cand = (match parse_version(cand_str.as_str()) {
        Some(v) => v,
        None => {
            return Err(validation_error("Invalid plugin version"));
        },
    });
    let cur = (match parse_version(cur_str.as_str()) {
        Some(v) => v,
        None => {
            return Err(validation_error("Invalid installed plugin version"));
        },
    });
    if matches!(cand.compare(&cur), VerOrder::Gt) {
        Ok(())
    } else {
        Err(validation_error("Plugin version is not newer than the installed version"))
    }
}

/// A declared minimum host version is satisfied: none declared, or it is a
/// non-blank version the host's own version does not fall below.
pub open spec fn spec_min_version_ok(required: Option<Seq<char>>) -> bool {
    match required {
        Some(req) => spec_trim(req).len() > 0 && (semver_of(spec_trim(req)) matches Some(q) && (
        semver_of(HOST_VERSION@) matches Some(h) && version_cmp(h, q) != VerOrder::Lt)),
        None => true,
    }
}

/// Rejects plugins that require a newer host: `Ok` exactly when no minimum is
/// declared, or the declared minimum parses and does not exceed the host's
/// version.
pub fn ensure_min_atom_node_version(required: &Option<String>) -> (r: AppResult<()>)
    ensures
        r is Ok <==> spec_min_version_ok(crate::models::opt_view(*required)),
        r matches Err(e) ==> e is Execution,
{
    let req = (match required {
        Option::Some(r) => r,
        Option::None => {
            return Ok(());
        },
    });
    let req_chars = trim_chars(&str_to_chars(req.as_str()));
    if req_chars.len() == 0 {
        return Err(validation_error("Minimum atom_node version cannot be empty"));
    }
    let req_str = chars_to_string(&req_chars);
    let wanted = (match parse_version(req_str.as_str()) {
        Some(v) => v,
        None => {
            return Err(validation_error("Invalid minimum atom_node version"));
        },
    });
    let host = (match parse_version(HOST_VERSION) {
        Some(v) => v,
        None => {
            return Err(validation_error("Invalid current atom_node version"));
        },
    });
    if matches!(host.compare(&wanted), VerOrder::Lt) {
        return Err(validation_error("Plugin requires a newer atom_node version"));
    }
    Ok(())
}

} // verus!
