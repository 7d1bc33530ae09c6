//! A verified JSON codec.
//!
//! Plugin metadata, parameter schemas and dependency descriptions are all
//! carried as JSON. The printer and the parser are both verified against
//! spec-level definitions, and printing followed by parsing is proved to be
//! the identity on well-formed values.
//!
//! Numbers are modelled exactly: integers that fit a machine word are held as
//! `Int`/`UInt`; any other numeric literal (fractions, exponents, oversized
//! integers) is held verbatim as `Dec`, so nothing is rounded.

use vstd::prelude::*;
use vstd::string::*;
use crate::text::{chars_to_string, is_space, str_to_chars};

verus! {

/// A JSON value.
#[derive(Debug)]
pub enum JsonValue {
    Null,
    Bool(bool),
    /// An integer in `i64` range.
    Int(i64),
    /// An integer above `i64::MAX`.
    UInt(u64),
    /// Any other number, kept as its literal text.
    Dec(String),
    Str(String),
    Arr(Vec<JsonValue>),
    Obj(Vec<(String, JsonValue)>),
}

/// The mathematical model of a JSON value.
pub enum Jv {
    Null,
    Bool(bool),
    Int(int),
    UInt(int),
    Dec(Seq<char>),
    Str(Seq<char>),
    Arr(Seq<Jv>),
    Obj(Seq<(Seq<char>, Jv)>),
}

pub open spec fn jview(v: JsonValue) -> Jv
    decreases v,
{
    match v {
        JsonValue::Null => Jv::Null,
        JsonValue::Bool(b) => Jv::Bool(b),
        JsonValue::Int(n) => Jv::Int(n as int),
        JsonValue::UInt(n) => Jv::UInt(n as int),
        JsonValue::Dec(s) => Jv::Dec(s@),
        JsonValue::Str(s) => Jv::Str(s@),
        JsonValue::Arr(a) => Jv::Arr(jview_seq(a@)),
        JsonValue::Obj(a) => Jv::Obj(jview_fields(a@)),
    }
}

pub open spec fn jview_seq(s: Seq<JsonValue>) -> Seq<Jv>
    decreases s,
{
    if s.len() == 0 {
        Seq::empty()
    } else {
        seq![jview(s[0])] + jview_seq(s.subrange(1, s.len() as int))
    }
}

pub open spec fn jview_fields(s: Seq<(String, JsonValue)>) -> Seq<(Seq<char>, Jv)>
    decreases s,
{
    if s.len() == 0 {
        Seq::empty()
    } else {
        seq![(s[0].0@, jview(s[0].1))] + jview_fields(s.subrange(1, s.len() as int))
    }
}

impl View for JsonValue {
    type V = Jv;

    open spec fn view(&self) -> Jv {
        jview(*self)
    }
}

pub proof fn lemma_jview_seq_index(s: Seq<JsonValue>, i: int)
    requires
        0 <= i < s.len(),
    ensures
        jview_seq(s).len() == s.len(),
        jview_seq(s)[i] == jview(s[i]),
    decreases s.len(),
{
    lemma_jview_seq_len(s);
    if i > 0 {
        lemma_jview_seq_index(s.subrange(1, s.len() as int), i - 1);
    }
}

pub proof fn lemma_jview_seq_len(s: Seq<JsonValue>)
    ensures
        jview_seq(s).len() == s.len(),
    decreases s.len(),
{
    if s.len() > 0 {
        lemma_jview_seq_len(s.subrange(1, s.len() as int));
    }
}

pub proof fn lemma_jview_fields_index(s: Seq<(String, JsonValue)>, i: int)
    requires
        0 <= i < s.len(),
    ensures
        jview_fields(s).len() == s.len(),
        jview_fields(s)[i] == (s[i].0@, jview(s[i].1)),
    decreases s.len(),
{
    lemma_jview_fields_len(s);
    if i > 0 {
        lemma_jview_fields_index(s.subrange(1, s.len() as int), i - 1);
    }
}

pub proof fn lemma_jview_fields_len(s: Seq<(String, JsonValue)>)
    ensures
        jview_fields(s).len() == s.len(),
    decreases s.len(),
{
    if s.len() > 0 {
        lemma_jview_fields_len(s.subrange(1, s.len() as int));
    }
}

// ---------------------------------------------------------------------------
// digits
// ---------------------------------------------------------------------------
pub open spec fn is_digit(c: char) -> bool {
    48 <= c as u32 <= 57
}

pub open spec fn digit_of(d: int) -> char {
    if d == 0 {
        '0'
    } else if d == 1 {
        '1'
    } else if d == 2 {
        '2'
    } else if d == 3 {
        '3'
    } else if d == 4 {
        '4'
    } else if d == 5 {
        '5'
    } else if d == 6 {
        '6'
    } else if d == 7 {
        '7'
    } else if d == 8 {
        '8'
    } else {
        '9'
    }
}

pub open spec fn digit_val(c: char) -> int {
    c as u32 - 48
}

/// The decimal digits of a non-negative integer, most significant first.
pub open spec fn nat_chars(n: int) -> Seq<char>
    decreases n,
{
    if n < 10 {
        seq![digit_of(n)]
    } else {
        nat_chars(n / 10).push(digit_of(n % 10))
    }
}

/// The decimal text of an integer, with a leading minus sign when negative.
pub open spec fn int_chars(n: int) -> Seq<char> {
    if n < 0 {
        seq!['-'] + nat_chars(-n)
    } else {
        nat_chars(n)
    }
}

/// The numeric value of a digit string.
pub open spec fn digits_val(t: Seq<char>) -> int
    decreases t.len(),
{
    if t.len() == 0 {
        0
    } else {
        digits_val(t.drop_last()) * 10 + digit_val(t.last())
    }
}

pub open spec fn all_digits(t: Seq<char>) -> bool {
    forall|i: int| 0 <= i < t.len() ==> is_digit(#[trigger] t[i])
}

// ---------------------------------------------------------------------------
// string escaping
// ---------------------------------------------------------------------------
pub open spec fn hex_digit_of(d: int) -> char {
    if d < 10 {
        digit_of(d)
    } else if d == 10 {
        'a'
    } else if d == 11 {
        'b'
    } else if d == 12 {
        'c'
    } else if d == 13 {
        'd'
    } else if d == 14 {
        'e'
    } else {
        'f'
    }
}

/// How one character is printed inside a JSON string.
pub open spec fn esc_char(c: char) -> Seq<char> {
    if c == '"' {
        seq!['\\', '"']
    } else if c == '\\' {
        seq!['\\', '\\']
    } else if c == '\n' {
        seq!['\\', 'n']
    } else if c == '\r' {
        seq!['\\', 'r']
    } else if c == '\t' {
        seq!['\\', 't']
    } else if (c as u32) < 32 {
        seq!['\\', 'u', '0', '0', hex_digit_of(c as u32 as int / 16), hex_digit_of(c as u32 as int % 16)]
    } else {
        seq![c]
    }
}

pub open spec fn esc(s: Seq<char>) -> Seq<char>
    decreases s.len(),
{
    if s.len() == 0 {
        Seq::empty()
    } else {
        esc_char(s[0]) + esc(s.subrange(1, s.len() as int))
    }
}

// ---------------------------------------------------------------------------
// printing
// ---------------------------------------------------------------------------
/// The canonical text of a JSON value: no whitespace, strings escaped as in
/// `esc_char`, numbers in decimal.
pub open spec fn jprint(v: Jv) -> Seq<char>
    decreases v,
{
    match v {
        Jv::Null => seq!['n', 'u', 'l', 'l'],
        Jv::Bool(b) => if b {
            seq!['t', 'r', 'u', 'e']
        } else {
            seq!['f', 'a', 'l', 's', 'e']
        },
        Jv::Int(n) => int_chars(n),
        Jv::UInt(n) => nat_chars(n),
        Jv::Dec(t) => t,
        Jv::Str(s) => seq!['"'] + esc(s) + seq!['"'],
        Jv::Arr(es) => seq!['['] + jprint_items(es) + seq![']'],
        Jv::Obj(fs) => seq!['{'] + jprint_fields(fs) + seq!['}'],
    }
}

pub open spec fn jprint_items(es: Seq<Jv>) -> Seq<char>
    decreases es,
{
    if es.len() == 0 {
        Seq::empty()
    } else if es.len() == 1 {
        jprint(es[0])
    } else {
        jprint(es[0]) + seq![','] + jprint_items(es.subrange(1, es.len() as int))
    }
}

pub open spec fn jprint_fields(fs: Seq<(Seq<char>, Jv)>) -> Seq<char>
    decreases fs,
{
    if fs.len() == 0 {
        Seq::empty()
    } else {
        let head = seq!['"'] + esc(fs[0].0) + seq!['"', ':'] + jprint(fs[0].1);
        if fs.len() == 1 {
            head
        } else {
            head + seq![','] + jprint_fields(fs.subrange(1, fs.len() as int))
        }
    }
}

// ---------------------------------------------------------------------------
// number grammar
// ---------------------------------------------------------------------------
/// Characters that may continue a number literal; the parser munches the
/// longest run of them.
pub open spec fn is_num_cont(c: char) -> bool {
    is_digit(c) || c == '-' || c == '+' || c == '.' || c == 'e' || c == 'E'
}

/// First index at or after `i` whose character cannot continue a number.
pub open spec fn num_end(s: Seq<char>, i: int) -> int
    decreases s.len() - i,
{
    if i < 0 || i >= s.len() {
        i
    } else if is_num_cont(s[i]) {
        num_end(s, i + 1)
    } else {
        i
    }
}

/// First index at or after `i` with a digit-run break.
pub open spec fn digits_end(s: Seq<char>, i: int) -> int
    decreases s.len() - i,
{
    if i < 0 || i >= s.len() {
        i
    } else if is_digit(s[i]) {
        digits_end(s, i + 1)
    } else {
        i
    }
}

/// The JSON number grammar: optional minus, an integer part without leading
/// zeros, then an optional fraction and an optional exponent, together
/// spanning the whole of `t`.
pub open spec fn is_valid_number(t: Seq<char>) -> bool {
    t.len() > 0 && {
        let u = if t[0] == '-' {
            t.subrange(1, t.len() as int)
        } else {
            t
        };
        u.len() > 0 && is_digit(u[0]) && {
            let ie = digits_end(u, 0);
            (u[0] != '0' || ie == 1) && valid_after_int(u, ie)
        }
    }
}

pub open spec fn valid_after_int(u: Seq<char>, k: int) -> bool {
    if k == u.len() {
        true
    } else if u[k] == '.' {
        let fe = digits_end(u, k + 1);
        fe > k + 1 && valid_exp_part(u, fe)
    } else {
        valid_exp_part(u, k)
    }
}

pub open spec fn valid_exp_part(u: Seq<char>, k: int) -> bool {
    if k == u.len() {
        true
    } else if u[k] == 'e' || u[k] == 'E' {
        let d = if k + 1 < u.len() && (u[k + 1] == '+' || u[k + 1] == '-') {
            k + 2
        } else {
            k + 1
        };
        let ee = digits_end(u, d);
        ee > d && ee == u.len()
    } else {
        false
    }
}

/// A number literal in plain integer form: no fraction, no exponent.
pub open spec fn is_int_form(t: Seq<char>) -> bool {
    forall|i: int| 0 <= i < t.len() ==> !(#[trigger] t[i] == '.' || t[i] == 'e' || t[i] == 'E')
}

/// Which value a valid number literal denotes.
pub open spec fn classify_num(t: Seq<char>) -> Jv {
    if is_int_form(t) {
        if t.len() > 0 && t[0] == '-' {
            let m = digits_val(t.subrange(1, t.len() as int));
            if m <= 0x8000_0000_0000_0000 {
                Jv::Int(-m)
            } else {
                Jv::Dec(t)
            }
        } else {
            let m = digits_val(t);
            if m <= i64::MAX {
                Jv::Int(m)
            } else if m <= u64::MAX {
                Jv::UInt(m)
            } else {
                Jv::Dec(t)
            }
        }
    } else {
        Jv::Dec(t)
    }
}

// ---------------------------------------------------------------------------
// well-formedness
// ---------------------------------------------------------------------------
/// The values the printer-parser round trip is stated for: machine integers in
/// their canonical constructor, and `Dec` literals that the parser would
/// classify back as `Dec`.
pub open spec fn jv_wf(v: Jv) -> bool
    decreases v,
{
    match v {
        Jv::Null => true,
        Jv::Bool(_) => true,
        Jv::Int(n) => i64::MIN <= n <= i64::MAX,
        Jv::UInt(n) => i64::MAX < n <= u64::MAX,
        Jv::Dec(t) => is_valid_number(t) && classify_num(t) == Jv::Dec(t),
        Jv::Str(_) => true,
        Jv::Arr(es) => jv_wf_seq(es),
        Jv::Obj(fs) => jv_wf_fields(fs),
    }
}

pub open spec fn jv_wf_seq(es: Seq<Jv>) -> bool
    decreases es,
{
    forall|i: int| 0 <= i < es.len() ==> jv_wf(#[trigger] es[i])
}

pub open spec fn jv_wf_fields(fs: Seq<(Seq<char>, Jv)>) -> bool
    decreases fs,
{
    forall|i: int| 0 <= i < fs.len() ==> jv_wf((#[trigger] fs[i]).1)
}

// ---------------------------------------------------------------------------
// parsing (specification)
// ---------------------------------------------------------------------------
/// First index at or after `i` holding a non-whitespace character.
pub open spec fn ws_end(s: Seq<char>, i: int) -> int
    decreases s.len() - i,
{
    if i < 0 || i >= s.len() {
        i
    } else if is_space(s[i]) {
        ws_end(s, i + 1)
    } else {
        i
    }
}

pub broadcast proof fn lemma_ws_end_bounds(s: Seq<char>, i: int)
    requires
        0 <= i <= s.len(),
    ensures
        i <= #[trigger] ws_end(s, i) <= s.len(),
    decreases s.len() - i,
{
    if i < s.len() && is_space(s[i]) {
        lemma_ws_end_bounds(s, i + 1);
    }
}

/// The literal `lit` occurs in `s` starting at `i`.
pub open spec fn lit_at(s: Seq<char>, i: int, lit: Seq<char>) -> bool {
    i >= 0 && i + lit.len() <= s.len() && s.subrange(i, i + lit.len() as int) == lit
}

pub open spec fn is_hex_digit(c: char) -> bool {
    is_digit(c) || (97 <= c as u32 <= 102)
}

pub open spec fn hex_val(c: char) -> int {
    if is_digit(c) {
        c as u32 - 48
    } else {
        c as u32 - 87
    }
}

/// One escape sequence, starting after the backslash. Upper-case hex digits
/// and surrogate code units are not accepted.
pub open spec fn jp_escape(s: Seq<char>, i: int) -> Option<(char, int)> {
    if i < 0 || i >= s.len() {
        None
    } else if s[i] == '"' {
        Some(('"', i + 1))
    } else if s[i] == '\\' {
        Some(('\\', i + 1))
    } else if s[i] == '/' {
        Some(('/', i + 1))
    } else if s[i] == 'b' {
        Some(('\u{8}', i + 1))
    } else if s[i] == 'f' {
        Some(('\u{c}', i + 1))
    } else if s[i] == 'n' {
        Some(('\n', i + 1))
    } else if s[i] == 'r' {
        Some(('\r', i + 1))
    } else if s[i] == 't' {
        Some(('\t', i + 1))
    } else if s[i] == 'u' && i + 5 <= s.len() && is_hex_digit(s[i + 1]) && is_hex_digit(s[i + 2])
        && is_hex_digit(s[i + 3]) && is_hex_digit(s[i + 4]) {
        let code = hex_val(s[i + 1]) * 4096 + hex_val(s[i + 2]) * 256 + hex_val(s[i + 3]) * 16
            + hex_val(s[i + 4]);
        if code < 0xD800 || code >= 0xE000 {
            Some(((code as u32) as char, i + 5))
        } else {
            None
        }
    } else {
        None
    }
}

/// The body of a string, starting after the opening quote; yields the decoded
/// characters and the index after the closing quote.
pub open spec fn jp_str_body(s: Seq<char>, i: int) -> Option<(Seq<char>, int)>
    decreases s.len() - i,
{
    if i < 0 || i >= s.len() {
        None
    } else if s[i] == '"' {
        Some((Seq::empty(), i + 1))
    } else if s[i] == '\\' {
        match jp_escape(s, i + 1) {
            Option::None => None,
            Option::Some((c, j)) => if j <= i || j > s.len() {
                None
            } else {
                match jp_str_body(s, j) {
                    Option::None => None,
                    Option::Some((t, e)) => Some((seq![c] + t, e)),
                }
            },
        }
    } else if (s[i] as u32) < 32 {
        None
    } else {
        match jp_str_body(s, i + 1) {
            Option::None => None,
            Option::Some((t, e)) => Some((seq![s[i]] + t, e)),
        }
    }
}

/// A number, starting at `i`: the longest run of number characters must form
/// a valid literal.
pub open spec fn jp_number(s: Seq<char>, i: int) -> Option<(Jv, int)> {
    if i < 0 || i > s.len() {
        None
    } else {
        let e = num_end(s, i);
        if e < i || e > s.len() {
            None
        } else {
            let lit = s.subrange(i, e);
            if is_valid_number(lit) {
                Some((classify_num(lit), e))
            } else {
                None
            }
        }
    }
}

/// A JSON value starting exactly at `i` (no leading whitespace).
pub open spec fn jp_value(s: Seq<char>, i: int) -> Option<(Jv, int)>
    decreases s.len() - i, 0int,
{
    if i < 0 || i >= s.len() {
        None
    } else {
        let c = s[i];
        if c == 'n' {
            if lit_at(s, i, seq!['n', 'u', 'l', 'l']) {
                Some((Jv::Null, i + 4))
            } else {
                None
            }
        } else if c == 't' {
            if lit_at(s, i, seq!['t', 'r', 'u', 'e']) {
                Some((Jv::Bool(true), i + 4))
            } else {
                None
            }
        } else if c == 'f' {
            if lit_at(s, i, seq!['f', 'a', 'l', 's', 'e']) {
                Some((Jv::Bool(false), i + 5))
            } else {
                None
            }
        } else if c == '"' {
            match jp_str_body(s, i + 1) {
                Option::None => None,
                Option::Some((t, e)) => Some((Jv::Str(t), e)),
            }
        } else if c == '[' {
            match jp_arr(s, i + 1) {
                Option::None => None,
                Option::Some((es, e)) => Some((Jv::Arr(es), e)),
            }
        } else if c == '{' {
            match jp_obj(s, i + 1) {
                Option::None => None,
                Option::Some((fs, e)) => Some((Jv::Obj(fs), e)),
            }
        } else if c == '-' || is_digit(c) {
            jp_number(s, i)
        } else {
            None
        }
    }
}

/// Array elements and closing bracket, starting after the opening bracket.
pub open spec fn jp_arr(s: Seq<char>, k: int) -> Option<(Seq<Jv>, int)>
    decreases s.len() - k, 2int,
{
    if k < 0 || k > s.len() {
        None
    } else {
        let m = ws_end(s, k);
        if m < k || m >= s.len() {
            None
        } else if s[m] == ']' {
            Some((Seq::empty(), m + 1))
        } else {
            jp_items(s, m)
        }
    }
}

/// One or more array elements separated by commas, then the closing bracket;
/// `k` points at the first element.
pub open spec fn jp_items(s: Seq<char>, k: int) -> Option<(Seq<Jv>, int)>
    decreases s.len() - k, 1int,
{
    if k < 0 || k >= s.len() {
        None
    } else {
        match jp_value(s, k) {
            Option::None => None,
            Option::Some((v, k2)) => {
                if k2 <= k || k2 > s.len() {
                    None
                } else {
                    let m = ws_end(s, k2);
                    if m < k2 || m >= s.len() {
                        None
                    } else if s[m] == ']' {
                        Some((seq![v], m + 1))
                    } else if s[m] == ',' {
                        let n = ws_end(s, m + 1);
                        if n < m + 1 || n > s.len() {
                            None
                        } else {
                            match jp_items(s, n) {
                                Option::None => None,
                                Option::Some((rest, e)) => Some((seq![v] + rest, e)),
                            }
                        }
                    } else {
                        None
                    }
                }
            },
        }
    }
}

/// Object members and closing brace, starting after the opening brace.
pub open spec fn jp_obj(s: Seq<char>, k: int) -> Option<(Seq<(Seq<char>, Jv)>, int)>
    decreases s.len() - k, 2int,
{
    if k < 0 || k > s.len() {
        None
    } else {
        let m = ws_end(s, k);
        if m < k || m >= s.len() {
            None
        } else if s[m] == '}' {
            Some((Seq::empty(), m + 1))
        } else {
            jp_members(s, m)
        }
    }
}

/// One or more `"key": value` members separated by commas, then the closing
/// brace; `k` points at the first key's opening quote.
pub open spec fn jp_members(s: Seq<char>, k: int) -> Option<(Seq<(Seq<char>, Jv)>, int)>
    decreases s.len() - k, 1int,
{
    if k < 0 || k >= s.len() || s[k] != '"' {
        None
    } else {
        match jp_str_body(s, k + 1) {
            Option::None => None,
            Option::Some((key, ke)) => {
                if ke <= k || ke > s.len() {
                    None
                } else {
                    let m = ws_end(s, ke);
                    if m < ke || m >= s.len() || s[m] != ':' {
                        None
                    } else {
                        let vs = ws_end(s, m + 1);
                        if vs < m + 1 || vs > s.len() {
                            None
                        } else {
                            match jp_value(s, vs) {
                                Option::None => None,
                                Option::Some((v, k2)) => {
                                    if k2 <= k || k2 > s.len() {
                                        None
                                    } else {
                                        let m2 = ws_end(s, k2);
                                        if m2 < k2 || m2 >= s.len() {
                                            None
                                        } else if s[m2] == '}' {
                                            Some((seq![(key, v)], m2 + 1))
                                        } else if s[m2] == ',' {
                                            let n = ws_end(s, m2 + 1);
                                            if n < m2 + 1 || n > s.len() {
                                                None
                                            } else {
                                                match jp_members(s, n) {
                                                    Option::None => None,
                                                    Option::Some((rest, e)) => Some(
                                                        (seq![(key, v)] + rest, e),
                                                    ),
                                                }
                                            }
                                        } else {
                                            None
                                        }
                                    }
                                },
                            }
                        }
                    }
                }
            },
        }
    }
}

// ---------------------------------------------------------------------------
// executable printer
// ---------------------------------------------------------------------------
fn digit_char(d: u64) -> (c: char)
    requires
        d < 10,
    ensures
        c == digit_of(d as int),
{
    if d == 0 {
        '0'
    } else if d == 1 {
        '1'
    } else if d == 2 {
        '2'
    } else if d == 3 {
        '3'
    } else if d == 4 {
        '4'
    } else if d == 5 {
        '5'
    } else if d == 6 {
        '6'
    } else if d == 7 {
        '7'
    } else if d == 8 {
        '8'
    } else {
        '9'
    }
}

fn hex_char(d: u32) -> (c: char)
    requires
        d < 16,
    ensures
        c == hex_digit_of(d as int),
{
    if d < 10 {
        digit_char(d as u64)
    } else if d == 10 {
        'a'
    } else if d == 11 {
        'b'
    } else if d == 12 {
        'c'
    } else if d == 13 {
        'd'
    } else if d == 14 {
        'e'
    } else {
        'f'
    }
}

fn write_nat(n: u64, out: &mut Vec<char>)
    ensures
        final(out)@ == old(out)@ + nat_chars(n as int),
    decreases n,
{
    if n < 10 {
        out.push(digit_char(n));
    } else {
        write_nat(n / 10, out);
        out.push(digit_char(n % 10));
    }
    proof {
        assert(out@ =~= old(out)@ + nat_chars(n as int));
    }
}

fn write_escaped(s: &str, out: &mut Vec<char>)
    ensures
        final(out)@ == old(out)@ + esc(s@),
{
    let n = s.unicode_len();
    let mut i: usize = 0;
    while i < n
        invariant
            i <= n,
            n == s@.len(),
            out@ == old(out)@ + esc(s@.subrange(0, i as int)),
        decreases n - i,
    {
        let c = s.get_char(i);
        let ghost pre = out@;
        if c == '"' {
            out.push('\\');
            out.push('"');
        } else if c == '\\' {
            out.push('\\');
            out.push('\\');
        } else if c == '\n' {
            out.push('\\');
            out.push('n');
        } else if c == '\r' {
            out.push('\\');
            out.push('r');
        } else if c == '\t' {
            out.push('\\');
            out.push('t');
        } else if (c as u32) < 32 {
            out.push('\\');
            out.push('u');
            out.push('0');
            out.push('0');
            out.push(hex_char(c as u32 / 16));
            out.push(hex_char(c as u32 % 16));
        } else {
            out.push(c);
        }
        proof {
            assert(out@ =~= pre + esc_char(s@[i as int]));
            lemma_esc_snoc(s@, i as int);
            assert(out@ =~= old(out)@ + esc(s@.subrange(0, i + 1)));
        }
        i = i + 1;
    }
    proof {
        assert(s@.subrange(0, n as int) =~= s@);
    }
}

proof fn lemma_esc_snoc(s: Seq<char>, i: int)
    requires
        0 <= i < s.len(),
    ensures
        esc(s.subrange(0, i + 1)) == esc(s.subrange(0, i)) + esc_char(s[i]),
    decreases i,
{
    if i == 0 {
        let sub = s.subrange(0, 1);
        assert(sub.len() == 1 && sub[0] == s[0]);
        assert(sub.subrange(1, 1) =~= Seq::<char>::empty());
        assert(esc(Seq::<char>::empty()) =~= Seq::<char>::empty());
        assert(esc(sub) =~= esc_char(s[0]) + esc(sub.subrange(1, 1)));
        assert(esc(sub) =~= esc_char(s[0]));
        assert(esc(s.subrange(0, 0)) =~= Seq::<char>::empty());
    } else {
        let t = s.subrange(1, s.len() as int);
        lemma_esc_snoc(t, i - 1);
        assert(s.subrange(0, i + 1)[0] == s[0]);
        assert(s.subrange(0, i + 1).subrange(1, i + 1) =~= t.subrange(0, i));
        assert(s.subrange(0, i).subrange(1, i) =~= t.subrange(0, i - 1));
        assert(esc(s.subrange(0, i + 1)) =~= esc_char(s[0]) + esc(t.subrange(0, i)));
        assert(esc(s.subrange(0, i)) =~= esc_char(s[0]) + esc(t.subrange(0, i - 1)));
        assert(t[i - 1] == s[i]);
        assert(esc_char(s[0]) + (esc(t.subrange(0, i - 1)) + esc_char(s[i])) =~= (esc_char(s[0])
            + esc(t.subrange(0, i - 1))) + esc_char(s[i]));
    }
}

impl JsonValue {
    /// Appends the canonical JSON text of this value to `out`.
    pub fn write(&self, out: &mut Vec<char>)
        ensures
            final(out)@ == old(out)@ + jprint(self@),
        decreases self, 0int, 0int,
    {
        match self {
            JsonValue::Null => {
                out.push('n');
                out.push('u');
                out.push('l');
                out.push('l');
                proof {
                    assert(out@ =~= old(out)@ + jprint(self@));
                }
            },
            JsonValue::Bool(b) => {
                if *b {
                    out.push('t');
                    out.push('r');
                    out.push('u');
                    out.push('e');
                } else {
                    out.push('f');
                    out.push('a');
                    out.push('l');
                    out.push('s');
                    out.push('e');
                }
                proof {
                    assert(out@ =~= old(out)@ + jprint(self@));
                }
            },
            JsonValue::Int(n) => {
                let n = *n;
                if n < 0 {
                    out.push('-');
                    let mag: u64 = if n == i64::MIN {
                        9223372036854775808u64
                    } else {
                        (-n) as u64
                    };
                    proof {
                        assert(mag as int == -(n as int));
                    }
                    write_nat(mag, out);
                    proof {
                        assert(out@ =~= old(out)@ + jprint(self@));
                    }
                } else {
                    write_nat(n as u64, out);
                }
            },
            JsonValue::UInt(n) => {
                write_nat(*n, out);
            },
            JsonValue::Dec(t) => {
                let v = str_to_chars(t.as_str());
                let mut k: usize = 0;
                while k < v.len()
                    invariant
                        k <= v@.len(),
                        v@ == t@,
                        out@ == old(out)@ + v@.subrange(0, k as int),
                    decreases v@.len() - k,
                {
                    out.push(v[k]);
                    k = k + 1;
                    proof {
                        assert(out@ =~= old(out)@ + v@.subrange(0, k as int));
                    }
                }
                proof {
                    assert(v@.subrange(0, v@.len() as int) =~= v@);
                }
            },
            JsonValue::Str(s) => {
                out.push('"');
                write_escaped(s.as_str(), out);
                out.push('"');
                proof {
                    assert(out@ =~= old(out)@ + jprint(self@));
                }
            },
            JsonValue::Arr(a) => {
                out.push('[');
                write_items(a, 0, out);
                out.push(']');
                proof {
                    assert(a@.subrange(0, a@.len() as int) =~= a@);
                    assert(out@ =~= old(out)@ + jprint(self@));
                }
            },
            JsonValue::Obj(a) => {
                out.push('{');
                write_fields(a, 0, out);
                out.push('}');
                proof {
                    assert(a@.subrange(0, a@.len() as int) =~= a@);
                    assert(out@ =~= old(out)@ + jprint(self@));
                }
            },
        }
    }

    /// The canonical JSON text of this value.
    pub fn to_json(&self) -> (r: String)
        ensures
            r@ == jprint(self@),
    {
        let mut out: Vec<char> = Vec::new();
        self.write(&mut out);
        chars_to_string(&out)
    }
}

fn write_items(a: &Vec<JsonValue>, i: usize, out: &mut Vec<char>)
    requires
        i <= a@.len(),
    ensures
        final(out)@ == old(out)@ + jprint_items(jview_seq(a@.subrange(i as int, a@.len() as int))),
    decreases a, 1int, a@.len() - i,
{
    let n = a.len();
    if i < n {
        a[i].write(out);
        proof {
            lemma_jview_seq_unfold(a@, i as int);
        }
        if i + 1 < n {
            out.push(',');
            write_items(a, i + 1, out);
            proof {
                let tail = jview_seq(a@.subrange(i + 1, a@.len() as int));
                lemma_jview_seq_len(a@.subrange(i + 1, a@.len() as int));
                let whole = jview_seq(a@.subrange(i as int, a@.len() as int));
                assert(whole == seq![jview(a@[i as int])] + tail);
                assert(whole[0] == jview(a@[i as int]));
                assert(whole.subrange(1, whole.len() as int) =~= tail);
                assert(out@ =~= old(out)@ + jprint_items(whole));
            }
        } else {
            proof {
                let whole = jview_seq(a@.subrange(i as int, a@.len() as int));
                lemma_jview_seq_len(a@.subrange(i as int, a@.len() as int));
                assert(a@.subrange(i + 1, a@.len() as int).len() == 0);
                assert(whole.len() == 1);
                assert(whole[0] == jview(a@[i as int]));
                assert(out@ =~= old(out)@ + jprint_items(whole));
            }
        }
    } else {
        proof {
            assert(a@.subrange(i as int, a@.len() as int).len() == 0);
            assert(out@ =~= old(out)@ + jprint_items(jview_seq(
                a@.subrange(i as int, a@.len() as int),
            )));
        }
    }
}

fn write_fields(a: &Vec<(String, JsonValue)>, i: usize, out: &mut Vec<char>)
    requires
        i <= a@.len(),
    ensures
        final(out)@ == old(out)@ + jprint_fields(jview_fields(a@.subrange(i as int, a@.len() as int))),
    decreases a, 1int, a@.len() - i,
{
    let n = a.len();
    if i < n {
        out.push('"');
        write_escaped(a[i].0.as_str(), out);
        out.push('"');
        out.push(':');
        a[i].1.write(out);
        proof {
            lemma_jview_fields_unfold(a@, i as int);
        }
        if i + 1 < n {
            out.push(',');
            write_fields(a, i + 1, out);
            proof {
                let tail = jview_fields(a@.subrange(i + 1, a@.len() as int));
                lemma_jview_fields_len(a@.subrange(i + 1, a@.len() as int));
                let whole = jview_fields(a@.subrange(i as int, a@.len() as int));
                assert(whole == seq![(a@[i as int].0@, jview(a@[i as int].1))] + tail);
                assert(whole[0] == (a@[i as int].0@, jview(a@[i as int].1)));
                assert(whole.subrange(1, whole.len() as int) =~= tail);
                assert(out@ =~= old(out)@ + jprint_fields(whole));
            }
        } else {
            proof {
                let whole = jview_fields(a@.subrange(i as int, a@.len() as int));
                lemma_jview_fields_len(a@.subrange(i as int, a@.len() as int));
                assert(a@.subrange(i + 1, a@.len() as int).len() == 0);
                assert(whole.len() == 1);
                assert(whole[0] == (a@[i as int].0@, jview(a@[i as int].1)));
                assert(out@ =~= old(out)@ + jprint_fields(whole));
            }
        }
    } else {
        proof {
            assert(a@.subrange(i as int, a@.len() as int).len() == 0);
            assert(out@ =~= old(out)@ + jprint_fields(jview_fields(
                a@.subrange(i as int, a@.len() as int),
            )));
        }
    }
}

pub proof fn lemma_jview_seq_unfold(s: Seq<JsonValue>, i: int)
    requires
        0 <= i < s.len(),
    ensures
        jview_seq(s.subrange(i, s.len() as int)) == seq![jview(s[i])] + jview_seq(
            s.subrange(i + 1, s.len() as int),
        ),
{
    let sub = s.subrange(i, s.len() as int);
    assert(sub.len() > 0);
    assert(sub[0] == s[i]);
    assert(sub.subrange(1, sub.len() as int) =~= s.subrange(i + 1, s.len() as int));
}

pub proof fn lemma_jview_fields_unfold(s: Seq<(String, JsonValue)>, i: int)
    requires
        0 <= i < s.len(),
    ensures
        jview_fields(s.subrange(i, s.len() as int)) == seq![(s[i].0@, jview(s[i].1))]
            + jview_fields(s.subrange(i + 1, s.len() as int)),
{
    let sub = s.subrange(i, s.len() as int);
    assert(sub.len() > 0);
    assert(sub[0] == s[i]);
    assert(sub.subrange(1, sub.len() as int) =~= s.subrange(i + 1, s.len() as int));
}

/// A whole document: one value, surrounded by optional whitespace.
pub open spec fn jp_doc(s: Seq<char>) -> Option<Jv> {
    let i = ws_end(s, 0);
    match jp_value(s, i) {
        Option::None => None,
        Option::Some((v, j)) => if 0 <= j <= s.len() && ws_end(s, j) == s.len() {
            Some(v)
        } else {
            None
        },
    }
}

// ---------------------------------------------------------------------------
// executable parser
// ---------------------------------------------------------------------------
/// Relies on `char::from_u32`: `Some` exactly for Unicode scalar values, and
/// the returned character casts back to the given code.
#[verifier::external_body]
fn char_from_code(u: u32) -> (r: Option<char>)
    ensures
        r matches Some(c) ==> c as u32 == u,
        r is Some <==> (u < 0xD800 || (0xE000 <= u && u < 0x110000)),
{
    char::from_u32(u)
}

fn scan_ws(s: &Vec<char>, i: usize) -> (j: usize)
    requires
        i <= s@.len(),
    ensures
        j as int == ws_end(s@, i as int),
        i <= j <= s@.len(),
{
    let mut j = i;
    while j < s.len() && crate::text::space_char(s[j])
        invariant
            i <= j <= s@.len(),
            ws_end(s@, i as int) == ws_end(s@, j as int),
        decreases s@.len() - j,
    {
        j = j + 1;
    }
    j
}

fn exec_is_digit(c: char) -> (r: bool)
    ensures
        r == is_digit(c),
{
    let u = c as u32;
    48 <= u && u <= 57
}

fn exec_is_hex(c: char) -> (r: bool)
    ensures
        r == is_hex_digit(c),
{
    let u = c as u32;
    (48 <= u && u <= 57) || (97 <= u && u <= 102)
}

fn exec_hex_val(c: char) -> (r: u32)
    requires
        is_hex_digit(c),
    ensures
        r as int == hex_val(c),
        r < 16,
{
    let u = c as u32;
    if u <= 57 {
        u - 48
    } else {
        u - 87
    }
}

fn parse_escape(s: &Vec<char>, i: usize) -> (r: Option<(char, usize)>)
    requires
        i <= s@.len(),
    ensures
        (match r {
            Some((c, j)) => jp_escape(s@, i as int) == Some((c, j as int)) && i < j <= s@.len(),
            None => jp_escape(s@, i as int) is None,
        }),
{
    broadcast use vstd::utf8::char_u32_cast;

    if i >= s.len() {
        return None;
    }
    let c = s[i];
    if c == '"' {
        Some(('"', i + 1))
    } else if c == '\\' {
        Some(('\\', i + 1))
    } else if c == '/' {
        Some(('/', i + 1))
    } else if c == 'b' {
        Some(('\u{8}', i + 1))
    } else if c == 'f' {
        Some(('\u{c}', i + 1))
    } else if c == 'n' {
        Some(('\n', i + 1))
    } else if c == 'r' {
        Some(('\r', i + 1))
    } else if c == 't' {
        Some(('\t', i + 1))
    } else if c == 'u' {
        if s.len() - i >= 5 && exec_is_hex(s[i + 1]) && exec_is_hex(s[i + 2]) && exec_is_hex(
            s[i + 3],
        ) && exec_is_hex(s[i + 4]) {
            let code: u32 = exec_hex_val(s[i + 1]) * 4096 + exec_hex_val(s[i + 2]) * 256
                + exec_hex_val(s[i + 3]) * 16 + exec_hex_val(s[i + 4]);
            if code < 0xD800 || code >= 0xE000 {
                match char_from_code(code) {
                    Some(ch) => {
                        proof {
                            vstd::utf8::char_u32_cast(ch, code);
                        }
                        Some((ch, i + 5))
                    },
                    None => {
                        proof {
                            assert(false);
                        }
                        None
                    },
                }
            } else {
                None
            }
        } else {
            None
        }
    } else {
        None
    }
}

fn parse_str_body(s: &Vec<char>, i: usize) -> (r: Option<(Vec<char>, usize)>)
    requires
        i <= s@.len(),
    ensures
        (match r {
            Some((t, e)) => jp_str_body(s@, i as int) == Some((t@, e as int)) && i < e
                <= s@.len(),
            None => jp_str_body(s@, i as int) is None,
        }),
    decreases s@.len() - i,
{
    if i >= s.len() {
        return None;
    }
    let c = s[i];
    if c == '"' {
        let t: Vec<char> = Vec::new();
        proof {
            assert(t@ =~= Seq::<char>::empty());
        }
        Some((t, i + 1))
    } else if c == '\\' {
        match parse_escape(s, i + 1) {
            None => None,
            Some((ch, j)) => {
                match parse_str_body(s, j) {
                    None => None,
                    Some((mut t, e)) => {
                        t.insert(0, ch);
                        proof {
                            assert(t@ =~= seq![ch] + t@.subrange(1, t@.len() as int));
                        }
                        Some((t, e))
                    },
                }
            },
        }
    } else if (c as u32) < 32 {
        None
    } else {
        match parse_str_body(s, i + 1) {
            None => None,
            Some((mut t, e)) => {
                t.insert(0, c);
                proof {
                    assert(t@ =~= seq![c] + t@.subrange(1, t@.len() as int));
                }
                Some((t, e))
            },
        }
    }
}

fn exec_is_num_cont(c: char) -> (r: bool)
    ensures
        r == is_num_cont(c),
{
    exec_is_digit(c) || c == '-' || c == '+' || c == '.' || c == 'e' || c == 'E'
}

fn scan_num_end(s: &Vec<char>, i: usize) -> (e: usize)
    requires
        i <= s@.len(),
    ensures
        e as int == num_end(s@, i as int),
        i <= e <= s@.len(),
{
    let mut j = i;
    while j < s.len() && exec_is_num_cont(s[j])
        invariant
            i <= j <= s@.len(),
            num_end(s@, i as int) == num_end(s@, j as int),
        decreases s@.len() - j,
    {
        j = j + 1;
    }
    j
}

fn scan_digits_end(s: &Vec<char>, i: usize) -> (e: usize)
    requires
        i <= s@.len(),
    ensures
        e as int == digits_end(s@, i as int),
        i <= e <= s@.len(),
{
    let mut j = i;
    while j < s.len() && exec_is_digit(s[j])
        invariant
            i <= j <= s@.len(),
            digits_end(s@, i as int) == digits_end(s@, j as int),
        decreases s@.len() - j,
    {
        j = j + 1;
    }
    j
}

pub fn copy_range(s: &Vec<char>, i: usize, e: usize) -> (t: Vec<char>)
    requires
        i <= e <= s@.len(),
    ensures
        t@ == s@.subrange(i as int, e as int),
{
    let mut t: Vec<char> = Vec::new();
    let mut j = i;
    while j < e
        invariant
            i <= j <= e <= s@.len(),
            t@ == s@.subrange(i as int, j as int),
        decreases e - j,
    {
        t.push(s[j]);
        j = j + 1;
        proof {
            assert(t@ =~= s@.subrange(i as int, j as int));
        }
    }
    proof {
        assert(t@ =~= s@.subrange(i as int, e as int));
    }
    t
}

/// Decides the JSON number grammar on a whole literal.
fn check_number(t: &Vec<char>) -> (r: bool)
    ensures
        r == is_valid_number(t@),
{
    if t.len() == 0 {
        return false;
    }
    let start: usize = if t[0] == '-' {
        1
    } else {
        0
    };
    let ghost u = if t@[0] == '-' {
        t@.subrange(1, t@.len() as int)
    } else {
        t@
    };
    proof {
        assert forall|x: int| 0 <= x < u.len() implies u[x] == t@[x + start] by {}
    }
    if start >= t.len() {
        return false;
    }
    if !exec_is_digit(t[start]) {
        return false;
    }
    let ie = scan_digits_end_off(t, start, start);
    proof {
        if start == 0 {
            assert(t@.subrange(0, t@.len() as int) =~= t@);
        }
        assert(u == t@.subrange(start as int, t@.len() as int));
        assert(u[0] == t@[start as int]);
    }
    if t[start] == '0' && ie != start + 1 {
        return false;
    }
    check_after_int(t, start, ie)
}

/// `digits_end` over the suffix `t[off..]`, reported in absolute indices.
fn scan_digits_end_off(t: &Vec<char>, off: usize, i: usize) -> (e: usize)
    requires
        off <= i <= t@.len(),
    ensures
        e as int - off == digits_end(t@.subrange(off as int, t@.len() as int), i as int - off),
        i <= e <= t@.len(),
{
    let mut j = i;
    while j < t.len() && exec_is_digit(t[j])
        invariant
            i <= j <= t@.len(),
            off <= i,
            digits_end(t@.subrange(off as int, t@.len() as int), i as int - off) == digits_end(
                t@.subrange(off as int, t@.len() as int),
                j as int - off,
            ),
        decreases t@.len() - j,
    {
        proof {
            let u = t@.subrange(off as int, t@.len() as int);
            assert(u[j - off] == t@[j as int]);
        }
        j = j + 1;
    }
    proof {
        let u = t@.subrange(off as int, t@.len() as int);
        if j < t.len() {
            assert(u[j - off] == t@[j as int]);
        }
    }
    j
}

fn check_after_int(t: &Vec<char>, start: usize, k: usize) -> (r: bool)
    requires
        start <= k <= t@.len(),
        start <= t@.len(),
    ensures
        r == valid_after_int(t@.subrange(start as int, t@.len() as int), k as int - start),
{
    let ghost u = t@.subrange(start as int, t@.len() as int);
    if k == t.len() {
        true
    } else {
        proof {
            assert(u[k - start] == t@[k as int]);
        }
        if t[k] == '.' {
            let fe = scan_digits_end_off(t, start, k + 1);
            if fe > k + 1 {
                check_exp_part(t, start, fe)
            } else {
                false
            }
        } else {
            check_exp_part(t, start, k)
        }
    }
}

fn check_exp_part(t: &Vec<char>, start: usize, k: usize) -> (r: bool)
    requires
        start <= k <= t@.len(),
    ensures
        r == valid_exp_part(t@.subrange(start as int, t@.len() as int), k as int - start),
{
    let ghost u = t@.subrange(start as int, t@.len() as int);
    if k == t.len() {
        true
    } else {
        proof {
            assert(u[k - start] == t@[k as int]);
        }
        if t[k] == 'e' || t[k] == 'E' {
            let d: usize = if k + 1 < t.len() && (t[k + 1] == '+' || t[k + 1] == '-') {
                proof {
                    assert(u[k + 1 - start] == t@[k + 1]);
                }
                k + 2
            } else {
                proof {
                    if k + 1 < t.len() {
                        assert(u[k + 1 - start] == t@[k + 1]);
                    }
                }
                k + 1
            };
            let ee = scan_digits_end_off(t, start, d);
            ee > d && ee == t.len()
        } else {
            false
        }
    }
}

proof fn lemma_digits_end_chars(s: Seq<char>, i: int)
    requires
        0 <= i <= s.len(),
    ensures
        i <= digits_end(s, i) <= s.len(),
        forall|j: int| i <= j < digits_end(s, i) ==> is_digit(#[trigger] s[j]),
        digits_end(s, i) < s.len() ==> !is_digit(s[digits_end(s, i)]),
    decreases s.len() - i,
{
    if i < s.len() && is_digit(s[i]) {
        lemma_digits_end_chars(s, i + 1);
    }
}

proof fn lemma_digits_val_snoc(t: Seq<char>, j: int)
    requires
        0 <= j < t.len(),
    ensures
        digits_val(t.subrange(0, j + 1)) == digits_val(t.subrange(0, j)) * 10 + digit_val(t[j]),
{
    let a = t.subrange(0, j + 1);
    assert(a.drop_last() =~= t.subrange(0, j));
    assert(a.last() == t[j]);
}

/// All characters of a valid integer-form literal after the sign are digits.
proof fn lemma_int_form_digits(t: Seq<char>)
    requires
        is_valid_number(t),
        is_int_form(t),
    ensures
        ({
            let s0: int = if t[0] == '-' {
                1
            } else {
                0
            };
            &&& s0 < t.len()
            &&& forall|j: int| s0 <= j < t.len() ==> is_digit(#[trigger] t[j])
        }),
{
    let s0: int = if t[0] == '-' {
        1
    } else {
        0
    };
    let u = if t[0] == '-' {
        t.subrange(1, t.len() as int)
    } else {
        t
    };
    let ie = digits_end(u, 0);
    lemma_digits_end_chars(u, 0);
    if ie < u.len() {
        // valid_after_int(u, ie) must hold; with '.', 'e', 'E' excluded it fails
        assert(u[ie] == t[ie + s0]);
        assert(!(u[ie] == '.' || u[ie] == 'e' || u[ie] == 'E'));
        assert(!valid_after_int(u, ie));
        assert(false);
    }
    assert forall|j: int| s0 <= j < t.len() implies is_digit(#[trigger] t[j]) by {
        assert(u[j - s0] == t[j]);
    }
}

fn exec_is_int_form(t: &Vec<char>) -> (r: bool)
    ensures
        r == is_int_form(t@),
{
    let mut i: usize = 0;
    while i < t.len()
        invariant
            i <= t@.len(),
            forall|j: int| 0 <= j < i ==> !(#[trigger] t@[j] == '.' || t@[j] == 'e' || t@[j]
                == 'E'),
        decreases t@.len() - i,
    {
        let c = t[i];
        if c == '.' || c == 'e' || c == 'E' {
            return false;
        }
        i = i + 1;
    }
    true
}

/// The value a valid number literal denotes.
fn classify_number(lit: Vec<char>) -> (v: JsonValue)
    requires
        is_valid_number(lit@),
    ensures
        jview(v) == classify_num(lit@),
{
    if !exec_is_int_form(&lit) {
        let s = chars_to_string(&lit);
        return JsonValue::Dec(s);
    }
    proof {
        lemma_int_form_digits(lit@);
    }
    let neg = lit[0] == '-';
    let start: usize = if neg {
        1
    } else {
        0
    };
    let n = lit.len();
    let mut acc: u128 = 0;
    let mut big = false;
    let mut j = start;
    proof {
        assert(lit@.subrange(start as int, start as int) =~= Seq::<char>::empty());
    }
    while j < n
        invariant
            start <= j <= n,
            n == lit@.len(),
            start < n,
            (start == 1) == (lit@[0] == '-'),
            forall|x: int| start <= x < n ==> is_digit(#[trigger] lit@[x]),
            !big ==> acc as int == digits_val(lit@.subrange(start as int, j as int)) && acc
                <= u64::MAX,
            big ==> digits_val(lit@.subrange(start as int, j as int)) > u64::MAX,
        decreases n - j,
    {
        let ghost pre = lit@.subrange(start as int, j as int);
        proof {
            let a = lit@.subrange(start as int, j + 1);
            assert(a.drop_last() =~= pre);
            assert(a.last() == lit@[j as int]);
            assert(digits_val(a) == digits_val(pre) * 10 + digit_val(lit@[j as int]));
        }
        let c = lit[j];
        let d: u128 = (c as u32 as u128) - 48;
        proof {
            assert(is_digit(lit@[j as int]));
            assert(d as int == digit_val(lit@[j as int]));
            assert(0 <= d < 10);
        }
        if big {
            proof {
                assert(digits_val(lit@.subrange(start as int, j + 1)) > u64::MAX);
            }
        } else {
            let next: u128 = acc * 10 + d;
            acc = next;
            if acc > 0xFFFF_FFFF_FFFF_FFFFu128 {
                big = true;
            }
        }
        j = j + 1;
    }
    let ghost digits = lit@.subrange(start as int, n as int);
    proof {
        if start == 0 {
            assert(lit@.subrange(0, n as int) =~= lit@);
        } else {
            assert(digits =~= lit@.subrange(1, lit@.len() as int));
        }
    }
    if neg {
        if !big && acc <= 0x7FFF_FFFF_FFFF_FFFFu128 {
            let m = acc as i64;
            JsonValue::Int(-m)
        } else if !big && acc == 0x8000_0000_0000_0000u128 {
            JsonValue::Int(i64::MIN)
        } else {
            let s = chars_to_string(&lit);
            JsonValue::Dec(s)
        }
    } else {
        if !big && acc <= 0x7FFF_FFFF_FFFF_FFFFu128 {
            JsonValue::Int(acc as i64)
        } else if !big {
            JsonValue::UInt(acc as u64)
        } else {
            let s = chars_to_string(&lit);
            JsonValue::Dec(s)
        }
    }
}

fn parse_number(s: &Vec<char>, i: usize) -> (r: Option<(JsonValue, usize)>)
    requires
        i <= s@.len(),
    ensures
        (match r {
            Some((v, j)) => jp_number(s@, i as int) == Some((jview(v), j as int)) && i < j
                <= s@.len(),
            None => jp_number(s@, i as int) is None,
        }),
{
    let e = scan_num_end(s, i);
    let lit = copy_range(s, i, e);
    if check_number(&lit) {
        proof {
            assert(lit@.len() > 0);
        }
        let v = classify_number(lit);
        Some((v, e))
    } else {
        None
    }
}

/// Result relation for the executable value parser.
pub open spec fn value_post(s: Seq<char>, i: int, r: Option<(JsonValue, usize)>) -> bool {
    match r {
        Some((v, j)) => jp_value(s, i) == Some((jview(v), j as int)) && i < j <= s.len(),
        None => jp_value(s, i) is None,
    }
}

fn check_lit4(s: &Vec<char>, i: usize, c0: char, c1: char, c2: char, c3: char) -> (r: bool)
    requires
        i < s@.len(),
    ensures
        r == lit_at(s@, i as int, seq![c0, c1, c2, c3]),
{
    if s.len() - i >= 4 && s[i] == c0 && s[i + 1] == c1 && s[i + 2] == c2 && s[i + 3] == c3 {
        proof {
            assert(s@.subrange(i as int, i + 4) =~= seq![c0, c1, c2, c3]);
        }
        true
    } else {
        proof {
            if i + 4 <= s@.len() {
                let sub = s@.subrange(i as int, i + 4);
                let lit = seq![c0, c1, c2, c3];
                if sub == lit {
                    assert(sub[0] == c0 && sub[1] == c1 && sub[2] == c2 && sub[3] == c3);
                }
            }
        }
        false
    }
}

fn check_lit5(s: &Vec<char>, i: usize, c0: char, c1: char, c2: char, c3: char, c4: char) -> (r:
    bool)
    requires
        i < s@.len(),
    ensures
        r == lit_at(s@, i as int, seq![c0, c1, c2, c3, c4]),
{
    if s.len() - i >= 5 && s[i] == c0 && s[i + 1] == c1 && s[i + 2] == c2 && s[i + 3] == c3 && s[i
        + 4] == c4 {
        proof {
            assert(s@.subrange(i as int, i + 5) =~= seq![c0, c1, c2, c3, c4]);
        }
        true
    } else {
        proof {
            if i + 5 <= s@.len() {
                let sub = s@.subrange(i as int, i + 5);
                let lit = seq![c0, c1, c2, c3, c4];
                if sub == lit {
                    assert(sub[0] == c0 && sub[1] == c1 && sub[2] == c2 && sub[3] == c3 && sub[4]
                        == c4);
                }
            }
        }
        false
    }
}

fn parse_value(s: &Vec<char>, i: usize) -> (r: Option<(JsonValue, usize)>)
    requires
        i <= s@.len(),
    ensures
        value_post(s@, i as int, r),
    decreases s@.len() - i, 0int,
{
    if i >= s.len() {
        return None;
    }
    let c = s[i];
    if c == 'n' {
        if check_lit4(s, i, 'n', 'u', 'l', 'l') {
            Some((JsonValue::Null, i + 4))
        } else {
            None
        }
    } else if c == 't' {
        if check_lit4(s, i, 't', 'r', 'u', 'e') {
            Some((JsonValue::Bool(true), i + 4))
        } else {
            None
        }
    } else if c == 'f' {
        if check_lit5(s, i, 'f', 'a', 'l', 's', 'e') {
            Some((JsonValue::Bool(false), i + 5))
        } else {
            None
        }
    } else if c == '"' {
        match parse_str_body(s, i + 1) {
            None => None,
            Some((t, e)) => {
                let st = chars_to_string(&t);
                Some((JsonValue::Str(st), e))
            },
        }
    } else if c == '[' {
        match parse_arr(s, i + 1) {
            None => None,
            Some((es, e)) => Some((JsonValue::Arr(es), e)),
        }
    } else if c == '{' {
        match parse_obj(s, i + 1) {
            None => None,
            Some((fs, e)) => Some((JsonValue::Obj(fs), e)),
        }
    } else if c == '-' || exec_is_digit(c) {
        parse_number(s, i)
    } else {
        None
    }
}

fn parse_arr(s: &Vec<char>, k: usize) -> (r: Option<(Vec<JsonValue>, usize)>)
    requires
        k <= s@.len(),
    ensures
        (match r {
            Some((es, e)) => jp_arr(s@, k as int) == Some((jview_seq(es@), e as int)) && k < e
                <= s@.len(),
            None => jp_arr(s@, k as int) is None,
        }),
    decreases s@.len() - k, 2int,
{
    let m = scan_ws(s, k);
    if m >= s.len() {
        return None;
    }
    if s[m] == ']' {
        let es: Vec<JsonValue> = Vec::new();
        proof {
            assert(jview_seq(es@) =~= Seq::<Jv>::empty());
        }
        Some((es, m + 1))
    } else {
        parse_items(s, m)
    }
}

fn parse_items(s: &Vec<char>, k: usize) -> (r: Option<(Vec<JsonValue>, usize)>)
    requires
        k <= s@.len(),
    ensures
        (match r {
            Some((es, e)) => jp_items(s@, k as int) == Some((jview_seq(es@), e as int)) && k < e
                <= s@.len(),
            None => jp_items(s@, k as int) is None,
        }),
    decreases s@.len() - k, 1int,
{
    if k >= s.len() {
        return None;
    }
    match parse_value(s, k) {
        None => None,
        Some((v, k2)) => {
            let m = scan_ws(s, k2);
            if m >= s.len() {
                return None;
            }
            if s[m] == ']' {
                let mut es: Vec<JsonValue> = Vec::new();
                es.push(v);
                proof {
                    assert(es@ =~= seq![v]);
                    assert(seq![v].subrange(1, 1) =~= Seq::<JsonValue>::empty());
                    assert(jview_seq(Seq::<JsonValue>::empty()) =~= Seq::<Jv>::empty());
                    assert(jview_seq(seq![v]) =~= seq![jview(v)] + Seq::<Jv>::empty());
                    assert(jview_seq(seq![v]) =~= seq![jview(v)]);
                }
                Some((es, m + 1))
            } else if s[m] == ',' {
                let n = scan_ws(s, m + 1);
                match parse_items(s, n) {
                    None => None,
                    Some((mut es, e)) => {
                        let ghost rest = es@;
                        es.insert(0, v);
                        proof {
                            assert(es@ =~= seq![v] + rest);
                            lemma_jview_seq_cons(v, rest);
                        }
                        Some((es, e))
                    },
                }
            } else {
                None
            }
        },
    }
}

proof fn lemma_jview_seq_cons(v: JsonValue, tail: Seq<JsonValue>)
    ensures
        jview_seq(seq![v] + tail) == seq![jview(v)] + jview_seq(tail),
{
    let whole = seq![v] + tail;
    assert(whole.len() > 0);
    assert(whole[0] == v);
    assert(whole.subrange(1, whole.len() as int) =~= tail);
}

proof fn lemma_jview_fields_cons(kv: (String, JsonValue), tail: Seq<(String, JsonValue)>)
    ensures
        jview_fields(seq![kv] + tail) == seq![(kv.0@, jview(kv.1))] + jview_fields(tail),
{
    let whole = seq![kv] + tail;
    assert(whole.len() > 0);
    assert(whole[0] == kv);
    assert(whole.subrange(1, whole.len() as int) =~= tail);
}

fn parse_obj(s: &Vec<char>, k: usize) -> (r: Option<(Vec<(String, JsonValue)>, usize)>)
    requires
        k <= s@.len(),
    ensures
        (match r {
            Some((fs, e)) => jp_obj(s@, k as int) == Some((jview_fields(fs@), e as int)) && k < e
                <= s@.len(),
            None => jp_obj(s@, k as int) is None,
        }),
    decreases s@.len() - k, 2int,
{
    let m = scan_ws(s, k);
    if m >= s.len() {
        return None;
    }
    if s[m] == '}' {
        let fs: Vec<(String, JsonValue)> = Vec::new();
        proof {
            assert(jview_fields(fs@) =~= Seq::<(Seq<char>, Jv)>::empty());
        }
        Some((fs, m + 1))
    } else {
        parse_members(s, m)
    }
}

fn parse_members(s: &Vec<char>, k: usize) -> (r: Option<(Vec<(String, JsonValue)>, usize)>)
    requires
        k <= s@.len(),
    ensures
        (match r {
            Some((fs, e)) => jp_members(s@, k as int) == Some((jview_fields(fs@), e as int)) && k
                < e <= s@.len(),
            None => jp_members(s@, k as int) is None,
        }),
    decreases s@.len() - k, 1int,
{
    if k >= s.len() {
        return None;
    }
    if s[k] != '"' {
        return None;
    }
    match parse_str_body(s, k + 1) {
        None => None,
        Some((key, ke)) => {
            let m = scan_ws(s, ke);
            if m >= s.len() {
                return None;
            }
            if s[m] != ':' {
                return None;
            }
            let vs = scan_ws(s, m + 1);
            match parse_value(s, vs) {
                None => None,
                Some((v, k2)) => {
                    let m2 = scan_ws(s, k2);
                    if m2 >= s.len() {
                        return None;
                    }
                    let keystr = chars_to_string(&key);
                    if s[m2] == '}' {
                        let mut fs: Vec<(String, JsonValue)> = Vec::new();
                        fs.push((keystr, v));
                        proof {
                            assert(fs@ =~= seq![(keystr, v)]);
                            assert(seq![(keystr, v)].subrange(1, 1) =~= Seq::<(
                                String,
                                JsonValue,
                            )>::empty());
                            assert(jview_fields(Seq::<(String, JsonValue)>::empty()) =~= Seq::<(
                                Seq<char>,
                                Jv,
                            )>::empty());
                            assert(jview_fields(seq![(keystr, v)]) =~= seq![(key@, jview(v))]
                                + Seq::<(Seq<char>, Jv)>::empty());
                            assert(jview_fields(seq![(keystr, v)]) =~= seq![(key@, jview(v))]);
                        }
                        Some((fs, m2 + 1))
                    } else if s[m2] == ',' {
                        let n = scan_ws(s, m2 + 1);
                        match parse_members(s, n) {
                            None => None,
                            Some((mut fs, e)) => {
                                let ghost rest = fs@;
                                fs.insert(0, (keystr, v));
                                proof {
                                    assert(fs@ =~= seq![(keystr, v)] + rest);
                                    lemma_jview_fields_cons((keystr, v), rest);
                                }
                                Some((fs, e))
                            },
                        }
                    } else {
                        None
                    }
                },
            }
        },
    }
}

impl JsonValue {
    /// Parses one JSON document held in a character vector.
    pub fn parse_chars(s: &Vec<char>) -> (r: Option<JsonValue>)
        ensures
            (match r {
                Some(v) => jp_doc(s@) == Some(jview(v)),
                None => jp_doc(s@) is None,
            }),
    {
        let i = scan_ws(s, 0);
        match parse_value(s, i) {
            None => None,
            Some((v, j)) => {
                let e = scan_ws(s, j);
                if e == s.len() {
                    Some(v)
                } else {
                    None
                }
            },
        }
    }

    /// Parses one JSON document held in a string.
    pub fn parse_str(s: &str) -> (r: Option<JsonValue>)
        ensures
            (match r {
                Some(v) => jp_doc(s@) == Some(jview(v)),
                None => jp_doc(s@) is None,
            }),
    {
        let chars = str_to_chars(s);
        Self::parse_chars(&chars)
    }
}

// ---------------------------------------------------------------------------
// the printer-parser round trip
// ---------------------------------------------------------------------------
proof fn lemma_subrange_split(s: Seq<char>, i: int, a: Seq<char>, b: Seq<char>)
    requires
        0 <= i,
        i + a.len() + b.len() <= s.len(),
        s.subrange(i, i + a.len() + b.len()) == a + b,
    ensures
        s.subrange(i, i + a.len()) == a,
        s.subrange(i + a.len(), i + a.len() + b.len()) == b,
{
    let whole = s.subrange(i, i + a.len() + b.len());
    assert forall|j: int| 0 <= j < a.len() implies s[i + j] == a[j] by {
        assert(whole[j] == s[i + j]);
        assert((a + b)[j] == a[j]);
    }
    assert forall|j: int| 0 <= j < b.len() implies s[i + a.len() + j] == b[j] by {
        assert(whole[a.len() + j] == s[i + a.len() + j]);
        assert((a + b)[a.len() + j] == b[j]);
    }
    assert(s.subrange(i, i + a.len()) =~= a);
    assert(s.subrange(i + a.len(), i + a.len() + b.len()) =~= b);
}

proof fn lemma_all_digits_end(s: Seq<char>, i: int, e: int)
    requires
        0 <= i <= e <= s.len(),
        forall|j: int| i <= j < e ==> is_digit(#[trigger] s[j]),
        e == s.len() || !is_digit(s[e]),
    ensures
        digits_end(s, i) == e,
    decreases e - i,
{
    if i < e {
        lemma_all_digits_end(s, i + 1, e);
    }
}

proof fn lemma_num_end_exact(s: Seq<char>, i: int, e: int)
    requires
        0 <= i <= e <= s.len(),
        forall|j: int| i <= j < e ==> is_num_cont(#[trigger] s[j]),
        e == s.len() || !is_num_cont(s[e]),
    ensures
        num_end(s, i) == e,
    decreases e - i,
{
    if i < e {
        lemma_num_end_exact(s, i + 1, e);
    }
}

proof fn lemma_nat_chars_digits(n: int)
    requires
        n >= 0,
    ensures
        nat_chars(n).len() >= 1,
        all_digits(nat_chars(n)),
        nat_chars(n)[0] == '0' <==> n == 0,
        digits_val(nat_chars(n)) == n,
    decreases n,
{
    if n < 10 {
        let t = nat_chars(n);
        assert(t =~= seq![digit_of(n)]);
        assert(is_digit(digit_of(n)));
        assert(t.drop_last() =~= Seq::<char>::empty());
        assert(digits_val(Seq::<char>::empty()) == 0);
        assert(t.last() == digit_of(n));
        assert(digits_val(t) == digit_val(digit_of(n)));
        assert(digit_val(digit_of(n)) == n);
    } else {
        lemma_nat_chars_digits(n / 10);
        let w = nat_chars(n / 10);
        let t = nat_chars(n);
        assert(t == w.push(digit_of(n % 10)));
        assert(t.drop_last() =~= w);
        assert(t.last() == digit_of(n % 10));
        assert(is_digit(digit_of(n % 10)));
        assert(all_digits(t));
        assert(t[0] == w[0]);
        assert(digits_val(t) == digits_val(w) * 10 + digit_val(digit_of(n % 10)));
        assert(digit_val(digit_of(n % 10)) == n % 10);
    }
}

/// A valid number literal consists solely of number-continuation characters.
proof fn lemma_valid_number_chars(t: Seq<char>)
    requires
        is_valid_number(t),
    ensures
        forall|j: int| 0 <= j < t.len() ==> is_num_cont(#[trigger] t[j]),
{
    let s0: int = if t[0] == '-' {
        1
    } else {
        0
    };
    let u = if t[0] == '-' {
        t.subrange(1, t.len() as int)
    } else {
        t
    };
    let ie = digits_end(u, 0);
    lemma_digits_end_chars(u, 0);
    assert forall|j: int| 0 <= j < t.len() implies is_num_cont(#[trigger] t[j]) by {
        if j >= s0 {
            let x = j - s0;
            assert(u[x] == t[j]);
            lemma_valid_number_chars_after(u, ie, x);
        }
    }
}

proof fn lemma_valid_number_chars_after(u: Seq<char>, ie: int, x: int)
    requires
        0 <= x < u.len(),
        ie == digits_end(u, 0),
        valid_after_int(u, ie),
        forall|j: int| 0 <= j < ie ==> is_digit(#[trigger] u[j]),
        ie <= u.len(),
    ensures
        is_num_cont(u[x]),
{
    if x < ie {
        assert(is_digit(u[x]));
    } else {
        // x lies in the fraction or exponent part
        if ie == u.len() {
        } else if u[ie] == '.' {
            let fe = digits_end(u, ie + 1);
            lemma_digits_end_chars(u, ie + 1);
            if x == ie {
            } else if x < fe {
                assert(is_digit(u[x]));
            } else {
                lemma_valid_exp_chars(u, fe, x);
            }
        } else {
            lemma_valid_exp_chars(u, ie, x);
        }
    }
}

proof fn lemma_valid_exp_chars(u: Seq<char>, k: int, x: int)
    requires
        0 <= k <= x < u.len(),
        valid_exp_part(u, k),
    ensures
        is_num_cont(u[x]),
{
    if k == u.len() {
    } else {
        let d: int = if k + 1 < u.len() && (u[k + 1] == '+' || u[k + 1] == '-') {
            k + 2
        } else {
            k + 1
        };
        lemma_digits_end_chars(u, d);
        if x == k {
        } else if x < d {
        } else {
            assert(is_digit(u[x]));
        }
    }
}

/// Every printed value is non-empty and starts with a non-space character
/// that is not a comma or a closing bracket.
proof fn lemma_jprint_first(v: Jv)
    requires
        jv_wf(v),
    ensures
        jprint(v).len() >= 1,
        !is_space(jprint(v)[0]),
        jprint(v)[0] != ',',
        jprint(v)[0] != ']',
        jprint(v)[0] != '}',
        jprint(v)[0] != ':',
{
    match v {
        Jv::Int(n) => {
            if n < 0 {
                lemma_nat_chars_digits(-n);
            } else {
                lemma_nat_chars_digits(n);
                assert(jprint(v)[0] == nat_chars(n)[0]);
                assert(is_digit(nat_chars(n)[0]));
            }
        },
        Jv::UInt(n) => {
            lemma_nat_chars_digits(n);
            assert(is_digit(nat_chars(n)[0]));
        },
        Jv::Dec(t) => {
            assert(t.len() > 0);
            if t[0] != '-' {
                assert(is_digit(t[0]));
            }
        },
        _ => {},
    }
}

proof fn lemma_hex_digit_of_val(d: int)
    requires
        0 <= d < 16,
    ensures
        is_hex_digit(hex_digit_of(d)),
        hex_val(hex_digit_of(d)) == d,
{
    if d == 0 {
    } else if d == 1 {
    } else if d == 2 {
    } else if d == 3 {
    } else if d == 4 {
    } else if d == 5 {
    } else if d == 6 {
    } else if d == 7 {
    } else if d == 8 {
    } else if d == 9 {
    } else if d == 10 {
    } else if d == 11 {
    } else if d == 12 {
    } else if d == 13 {
    } else if d == 14 {
    } else {
    }
}

proof fn lemma_str_body_roundtrip(cs: Seq<char>, s: Seq<char>, i: int)
    requires
        0 <= i,
        i + esc(cs).len() + 1 <= s.len(),
        s.subrange(i, i + esc(cs).len() as int) == esc(cs),
        s[i + esc(cs).len()] == '"',
    ensures
        jp_str_body(s, i) == Some((cs, i + esc(cs).len() + 1)),
    decreases cs.len(),
{
    if cs.len() == 0 {
        assert(esc(cs) =~= Seq::<char>::empty());
        assert(s[i] == '"');
    } else {
        let c0 = cs[0];
        let rest = cs.subrange(1, cs.len() as int);
        let ea = esc_char(c0);
        let eb = esc(rest);
        assert(esc(cs) == ea + eb);
        lemma_subrange_split(s, i, ea, eb);
        let j = i + ea.len();
        assert(s[j + eb.len()] == '"');
        lemma_str_body_roundtrip(rest, s, j);
        let sub = s.subrange(i, i + ea.len() as int);
        if c0 == '"' || c0 == '\\' || c0 == '\n' || c0 == '\r' || c0 == '\t' {
            assert(ea.len() == 2);
            assert(sub[0] == s[i] && sub[1] == s[i + 1]);
            assert(s[i] == '\\');
            if c0 == '"' {
                assert(s[i + 1] == '"');
            } else if c0 == '\\' {
                assert(s[i + 1] == '\\');
            } else if c0 == '\n' {
                assert(s[i + 1] == 'n');
            } else if c0 == '\r' {
                assert(s[i + 1] == 'r');
            } else {
                assert(s[i + 1] == 't');
            }
            assert(jp_escape(s, i + 1) == Some((c0, i + 2)));
            assert(jp_str_body(s, i) == Some((seq![c0] + rest, i + esc(cs).len() + 1)));
            assert(seq![c0] + rest =~= cs);
        } else if (c0 as u32) < 32 {
            assert(ea.len() == 6);
            assert(sub[0] == s[i] && sub[1] == s[i + 1] && sub[2] == s[i + 2] && sub[3] == s[i + 3]
                && sub[4] == s[i + 4] && sub[5] == s[i + 5]);
            assert(s[i] == '\\');
            assert(s[i + 1] == 'u');
            assert(s[i + 2] == '0');
            assert(s[i + 3] == '0');
            let hi = c0 as u32 as int / 16;
            let lo = c0 as u32 as int % 16;
            assert(s[i + 4] == hex_digit_of(hi));
            assert(s[i + 5] == hex_digit_of(lo));
            lemma_hex_digit_of_val(hi);
            lemma_hex_digit_of_val(lo);
            assert(is_hex_digit('0') && hex_val('0') == 0) by {
                assert(is_digit('0'));
            }
            let code = hex_val(s[i + 1 + 1]) * 4096 + hex_val(s[i + 1 + 2]) * 256 + hex_val(
                s[i + 1 + 3],
            ) * 16 + hex_val(s[i + 1 + 4]);
            assert(code == hi * 16 + lo);
            assert(code == c0 as u32);
            assert(code < 0xD800);
            vstd::utf8::char_u32_cast(c0, code as u32);
            assert(((code as u32) as char) == c0);
            assert(jp_escape(s, i + 1) == Some((c0, i + 6)));
            assert(jp_str_body(s, i) == Some((seq![c0] + rest, i + esc(cs).len() + 1)));
            assert(seq![c0] + rest =~= cs);
        } else {
            assert(ea =~= seq![c0]);
            assert(sub[0] == s[i]);
            assert(s[i] == c0);
            assert(jp_str_body(s, i) == Some((seq![c0] + rest, i + esc(cs).len() + 1)));
            assert(seq![c0] + rest =~= cs);
        }
    }
}

proof fn lemma_classify_print(v: Jv)
    requires
        jv_wf(v),
        v is Int || v is UInt || v is Dec,
    ensures
        is_valid_number(jprint(v)),
        classify_num(jprint(v)) == v,
{
    match v {
        Jv::Int(n) => {
            if n >= 0 {
                let t = nat_chars(n);
                lemma_nat_chars_digits(n);
                lemma_all_digits_end(t, 0, t.len() as int);
                assert(!(t[0] == '-')) by {
                    assert(is_digit(t[0]));
                }
                assert(is_valid_number(t));
                assert(is_int_form(t)) by {
                    assert forall|x: int| 0 <= x < t.len() implies !(#[trigger] t[x] == '.'
                        || t[x] == 'e' || t[x] == 'E') by {
                        assert(is_digit(t[x]));
                    }
                }
                assert(digits_val(t) == n);
            } else {
                let w = nat_chars(-n);
                let t = seq!['-'] + w;
                assert(jprint(v) == t);
                lemma_nat_chars_digits(-n);
                let u = t.subrange(1, t.len() as int);
                assert(u =~= w);
                lemma_all_digits_end(w, 0, w.len() as int);
                assert(t[0] == '-');
                assert(is_valid_number(t));
                assert(is_int_form(t)) by {
                    assert forall|x: int| 0 <= x < t.len() implies !(#[trigger] t[x] == '.'
                        || t[x] == 'e' || t[x] == 'E') by {
                        if x > 0 {
                            assert(t[x] == w[x - 1]);
                            assert(is_digit(w[x - 1]));
                        }
                    }
                }
                assert(digits_val(u) == -n);
                assert(classify_num(t) == Jv::Int(n));
            }
        },
        Jv::UInt(m) => {
            let t = nat_chars(m);
            lemma_nat_chars_digits(m);
            lemma_all_digits_end(t, 0, t.len() as int);
            assert(!(t[0] == '-')) by {
                assert(is_digit(t[0]));
            }
            assert(is_valid_number(t));
            assert(is_int_form(t)) by {
                assert forall|x: int| 0 <= x < t.len() implies !(#[trigger] t[x] == '.' || t[x]
                    == 'e' || t[x] == 'E') by {
                    assert(is_digit(t[x]));
                }
            }
            assert(digits_val(t) == m);
        },
        Jv::Dec(_) => {},
        _ => {},
    }
}

proof fn lemma_number_roundtrip(v: Jv, s: Seq<char>, i: int)
    requires
        jv_wf(v),
        v is Int || v is UInt || v is Dec,
        0 <= i,
        i + jprint(v).len() <= s.len(),
        s.subrange(i, i + jprint(v).len() as int) == jprint(v),
        i + jprint(v).len() == s.len() || !is_num_cont(s[i + jprint(v).len()]),
    ensures
        jp_number(s, i) == Some((v, i + jprint(v).len())),
{
    let t = jprint(v);
    lemma_classify_print(v);
    lemma_valid_number_chars(t);
    let e = i + t.len();
    assert forall|j: int| i <= j < e implies is_num_cont(#[trigger] s[j]) by {
        assert(s.subrange(i, e)[j - i] == s[j]);
        assert(t[j - i] == s[j]);
    }
    lemma_num_end_exact(s, i, e);
    assert(s.subrange(i, e) =~= t);
}

/// Printing a well-formed value and parsing it back yields the value again:
/// the parser inverts the printer wherever the printed text is embedded, as
/// long as no number-continuation character follows it directly.
pub proof fn lemma_print_parse(v: Jv, s: Seq<char>, i: int)
    requires
        jv_wf(v),
        0 <= i,
        i + jprint(v).len() <= s.len(),
        s.subrange(i, i + jprint(v).len() as int) == jprint(v),
        i + jprint(v).len() == s.len() || !is_num_cont(s[i + jprint(v).len()]),
    ensures
        jp_value(s, i) == Some((v, i + jprint(v).len())),
    decreases v,
{
    let t = jprint(v);
    let sub = s.subrange(i, i + t.len() as int);
    lemma_jprint_first(v);
    assert(sub[0] == s[i]);
    match v {
        Jv::Null => {
            assert(t =~= seq!['n', 'u', 'l', 'l']);
            assert(s[i] == 'n');
            assert(lit_at(s, i, seq!['n', 'u', 'l', 'l']));
        },
        Jv::Bool(b) => {
            if b {
                assert(t =~= seq!['t', 'r', 'u', 'e']);
                assert(s[i] == 't');
                assert(lit_at(s, i, seq!['t', 'r', 'u', 'e']));
            } else {
                assert(t =~= seq!['f', 'a', 'l', 's', 'e']);
                assert(s[i] == 'f');
                assert(lit_at(s, i, seq!['f', 'a', 'l', 's', 'e']));
            }
        },
        Jv::Int(n) => {
            if n < 0 {
                assert(t[0] == '-');
                assert(s[i] == '-');
            } else {
                lemma_nat_chars_digits(n);
                assert(is_digit(s[i]));
            }
            lemma_number_roundtrip(v, s, i);
        },
        Jv::UInt(n) => {
            lemma_nat_chars_digits(n);
            assert(is_digit(s[i]));
            lemma_number_roundtrip(v, s, i);
        },
        Jv::Dec(lit) => {
            assert(t == lit);
            assert(s[i] == lit[0]);
            if lit[0] != '-' {
                assert(is_digit(lit[0]));
            }
            lemma_number_roundtrip(v, s, i);
        },
        Jv::Str(cs) => {
            let e = esc(cs);
            assert(t == seq!['"'] + (e + seq!['"']));
            lemma_subrange_split(s, i, seq!['"'], e + seq!['"']);
            assert(s.subrange(i, i + 1)[0] == s[i]);
            assert(s[i] == '"');
            lemma_subrange_split(s, i + 1, e, seq!['"']);
            assert(s.subrange(i + 1 + e.len(), i + 1 + e.len() + 1)[0] == s[i + 1 + e.len()]);
            assert(s[i + 1 + e.len()] == '"');
            lemma_str_body_roundtrip(cs, s, i + 1);
            assert(jp_str_body(s, i + 1) == Some((cs, i + t.len())));
        },
        Jv::Arr(es) => {
            let inner = jprint_items(es);
            assert(t == seq!['['] + (inner + seq![']']));
            lemma_subrange_split(s, i, seq!['['], inner + seq![']']);
            assert(s.subrange(i, i + 1)[0] == s[i]);
            assert(s[i] == '[');
            lemma_subrange_split(s, i + 1, inner, seq![']']);
            assert(s.subrange(i + 1 + inner.len(), i + 1 + inner.len() + 1)[0] == s[i + 1
                + inner.len()]);
            assert(s[i + 1 + inner.len()] == ']');
            if es.len() == 0 {
                assert(inner.len() == 0);
                assert(ws_end(s, i + 1) == i + 1);
                assert(jp_arr(s, i + 1) == Some((Seq::<Jv>::empty(), i + 2)));
                assert(es =~= Seq::<Jv>::empty());
            } else {
                assert(jv_wf(es[0]));
                lemma_jprint_first(es[0]);
                assert(inner[0] == jprint(es[0])[0]) by {
                    if es.len() == 1 {
                    } else {
                        assert(inner == jprint(es[0]) + seq![','] + jprint_items(
                            es.subrange(1, es.len() as int),
                        ));
                    }
                }
                assert(s.subrange(i + 1, i + 1 + inner.len() as int)[0] == s[i + 1]);
                assert(s[i + 1] == inner[0]);
                assert(!is_space(s[i + 1]));
                assert(ws_end(s, i + 1) == i + 1);
                assert(s[i + 1] != ']');
                lemma_items_roundtrip(es, s, i + 1);
            }
        },
        Jv::Obj(fs) => {
            let inner = jprint_fields(fs);
            assert(t == seq!['{'] + (inner + seq!['}']));
            lemma_subrange_split(s, i, seq!['{'], inner + seq!['}']);
            assert(s.subrange(i, i + 1)[0] == s[i]);
            assert(s[i] == '{');
            lemma_subrange_split(s, i + 1, inner, seq!['}']);
            assert(s.subrange(i + 1 + inner.len(), i + 1 + inner.len() + 1)[0] == s[i + 1
                + inner.len()]);
            assert(s[i + 1 + inner.len()] == '}');
            if fs.len() == 0 {
                assert(inner.len() == 0);
                assert(ws_end(s, i + 1) == i + 1);
                assert(jp_obj(s, i + 1) == Some((Seq::<(Seq<char>, Jv)>::empty(), i + 2)));
                assert(fs =~= Seq::<(Seq<char>, Jv)>::empty());
            } else {
                assert(inner[0] == '"') by {
                    let head = seq!['"'] + esc(fs[0].0) + seq!['"', ':'] + jprint(fs[0].1);
                    if fs.len() == 1 {
                        assert(inner == head);
                    } else {
                        assert(inner == head + seq![','] + jprint_fields(
                            fs.subrange(1, fs.len() as int),
                        ));
                    }
                }
                assert(s.subrange(i + 1, i + 1 + inner.len() as int)[0] == s[i + 1]);
                assert(s[i + 1] == '"');
                assert(ws_end(s, i + 1) == i + 1);
                lemma_members_roundtrip(fs, s, i + 1);
            }
        },
    }
}

proof fn lemma_items_roundtrip(es: Seq<Jv>, s: Seq<char>, i: int)
    requires
        es.len() > 0,
        jv_wf_seq(es),
        0 <= i,
        i + jprint_items(es).len() + 1 <= s.len(),
        s.subrange(i, i + jprint_items(es).len() as int) == jprint_items(es),
        s[i + jprint_items(es).len()] == ']',
    ensures
        jp_items(s, i) == Some((es, i + jprint_items(es).len() + 1)),
    decreases es,
{
    let v0 = es[0];
    assert(jv_wf(v0));
    lemma_jprint_first(v0);
    let a = jprint(v0);
    if es.len() == 1 {
        assert(jprint_items(es) == a);
        assert(!is_num_cont(']'));
        lemma_print_parse(v0, s, i);
        let k2 = i + a.len();
        assert(s[k2] == ']');
        assert(!is_space(s[k2]));
        assert(ws_end(s, k2) == k2);
        assert(jp_items(s, i) == Some((seq![v0], k2 + 1)));
        assert(seq![v0] =~= es);
    } else {
        let rest = es.subrange(1, es.len() as int);
        let c = jprint_items(rest);
        assert(jprint_items(es) == a + seq![','] + c);
        assert(a + seq![','] + c =~= a + (seq![','] + c));
        lemma_subrange_split(s, i, a, seq![','] + c);
        lemma_subrange_split(s, i + a.len(), seq![','], c);
        let k2 = i + a.len();
        assert(s.subrange(k2, k2 + 1)[0] == s[k2]);
        assert(s[k2] == ',');
        assert(!is_num_cont(','));
        lemma_print_parse(v0, s, i);
        assert(!is_space(s[k2]));
        assert(ws_end(s, k2) == k2);
        // the next element begins directly after the comma
        assert(jv_wf_seq(rest)) by {
            assert(forall|x: int| 0 <= x < rest.len() ==> rest[x] == es[x + 1]);
        }
        assert(rest[0] == es[1]);
        assert(jv_wf(rest[0]));
        lemma_jprint_first(rest[0]);
        assert(c[0] == jprint(rest[0])[0]) by {
            if rest.len() == 1 {
            } else {
                assert(c == jprint(rest[0]) + seq![','] + jprint_items(
                    rest.subrange(1, rest.len() as int),
                ));
            }
        }
        assert(s.subrange(k2 + 1, k2 + 1 + c.len() as int)[0] == s[k2 + 1]);
        assert(s[k2 + 1] == c[0]);
        assert(!is_space(s[k2 + 1]));
        assert(ws_end(s, k2 + 1) == k2 + 1);
        assert(s[k2 + 1 + c.len()] == ']');
        lemma_items_roundtrip(rest, s, k2 + 1);
        assert(jp_items(s, k2 + 1) == Some((rest, k2 + 1 + c.len() + 1)));
        assert(jp_items(s, i) == Some((seq![v0] + rest, k2 + 1 + c.len() + 1)));
        assert(seq![v0] + rest =~= es);
    }
}

proof fn lemma_members_roundtrip(fs: Seq<(Seq<char>, Jv)>, s: Seq<char>, i: int)
    requires
        fs.len() > 0,
        jv_wf_fields(fs),
        0 <= i,
        i + jprint_fields(fs).len() + 1 <= s.len(),
        s.subrange(i, i + jprint_fields(fs).len() as int) == jprint_fields(fs),
        s[i + jprint_fields(fs).len()] == '}',
    ensures
        jp_members(s, i) == Some((fs, i + jprint_fields(fs).len() + 1)),
    decreases fs,
{
    let k0 = fs[0].0;
    let v0 = fs[0].1;
    assert(jv_wf(v0));
    lemma_jprint_first(v0);
    let head = seq!['"'] + esc(k0) + seq!['"', ':'] + jprint(v0);
    let e = esc(k0);
    let a = jprint(v0);
    let tail: Seq<char> = if fs.len() == 1 {
        Seq::empty()
    } else {
        seq![','] + jprint_fields(fs.subrange(1, fs.len() as int))
    };
    assert(jprint_fields(fs) == head + tail) by {
        if fs.len() == 1 {
            assert(head + tail =~= head);
        }
    }
    // split the text into the key, the colon, the value, and the rest
    assert(head + tail =~= seq!['"'] + (e + (seq!['"', ':'] + (a + tail))));
    lemma_subrange_split(s, i, seq!['"'], e + (seq!['"', ':'] + (a + tail)));
    assert(s.subrange(i, i + 1)[0] == s[i]);
    assert(s[i] == '"');
    lemma_subrange_split(s, i + 1, e, seq!['"', ':'] + (a + tail));
    let q = i + 1 + e.len();
    lemma_subrange_split(s, q, seq!['"', ':'], a + tail);
    assert(s.subrange(q, q + 2)[0] == s[q]);
    assert(s.subrange(q, q + 2)[1] == s[q + 1]);
    assert(s[q] == '"');
    assert(s[q + 1] == ':');
    let vs = q + 2;
    lemma_subrange_split(s, vs, a, tail);
    let k2 = vs + a.len();
    // the key string parses back
    assert(s.subrange(i + 1, i + 1 + (e.len() + 1) as int) == e + seq!['"']) by {
        let whole = s.subrange(i + 1, i + 1 + e.len() + 1);
        assert forall|x: int| 0 <= x < e.len() implies whole[x] == e[x] by {
            assert(s.subrange(i + 1, i + 1 + e.len() as int)[x] == s[i + 1 + x]);
            assert(whole[x] == s[i + 1 + x]);
        }
        assert(whole[e.len() as int] == s[q]);
        assert(whole =~= e + seq!['"']);
    }
    lemma_str_body_roundtrip(k0, s, i + 1);
    assert(jp_str_body(s, i + 1) == Some((k0, q + 1)));
    assert(!is_space(s[q + 1]));
    assert(ws_end(s, q + 1) == q + 1);
    // the value parses back
    let after: char = if fs.len() == 1 {
        '}'
    } else {
        ','
    };
    assert(s[k2] == after) by {
        if fs.len() == 1 {
            assert(tail.len() == 0);
            assert(k2 == i + jprint_fields(fs).len());
        } else {
            assert(s.subrange(k2, k2 + tail.len() as int)[0] == s[k2]);
            assert(tail[0] == ',');
        }
    }
    assert(!is_num_cont(after));
    assert(!is_space(s[vs])) by {
        assert(s.subrange(vs, vs + a.len() as int)[0] == s[vs]);
        assert(s[vs] == a[0]);
    }
    assert(ws_end(s, q + 2) == q + 2);
    lemma_print_parse(v0, s, vs);
    assert(jp_value(s, vs) == Some((v0, k2)));
    assert(!is_space(after));
    assert(ws_end(s, k2) == k2);
    if fs.len() == 1 {
        assert(s[k2] == '}');
        assert(jp_members(s, i) == Some((seq![(k0, v0)], k2 + 1)));
        assert(seq![(k0, v0)] =~= fs);
        assert((k0, v0) == fs[0]);
    } else {
        let rest = fs.subrange(1, fs.len() as int);
        let c = jprint_fields(rest);
        assert(tail == seq![','] + c);
        lemma_subrange_split(s, k2, seq![','], c);
        assert(s[k2] == ',');
        assert(jv_wf_fields(rest)) by {
            assert(forall|x: int| 0 <= x < rest.len() ==> rest[x] == fs[x + 1]);
        }
        assert(c[0] == '"') by {
            let h2 = seq!['"'] + esc(rest[0].0) + seq!['"', ':'] + jprint(rest[0].1);
            if rest.len() == 1 {
                assert(c == h2);
            } else {
                assert(c == h2 + seq![','] + jprint_fields(rest.subrange(1, rest.len() as int)));
            }
        }
        assert(s.subrange(k2 + 1, k2 + 1 + c.len() as int)[0] == s[k2 + 1]);
        assert(s[k2 + 1] == '"');
        assert(ws_end(s, k2 + 1) == k2 + 1);
        assert(s[k2 + 1 + c.len()] == '}') by {
            assert(k2 + 1 + c.len() == i + jprint_fields(fs).len());
        }
        lemma_members_roundtrip(rest, s, k2 + 1);
        assert(jp_members(s, k2 + 1) == Some((rest, k2 + 1 + c.len() + 1)));
        assert(jp_members(s, i) == Some((seq![(k0, v0)] + rest, k2 + 1 + c.len() + 1)));
        assert((k0, v0) == fs[0]);
        assert(seq![(k0, v0)] + rest =~= fs);
    }
}

/// Printing a well-formed value and parsing the result as a document gives
/// the value back: the codec round trip.
pub proof fn lemma_codec_roundtrip(v: Jv)
    requires
        jv_wf(v),
    ensures
        jp_doc(jprint(v)) == Some(v),
{
    let s = jprint(v);
    lemma_jprint_first(v);
    assert(ws_end(s, 0) == 0);
    assert(s.subrange(0, s.len() as int) =~= s);
    lemma_print_parse(v, s, 0);
    assert(ws_end(s, s.len() as int) == s.len());
}

impl JsonValue {
    /// A structural copy of this value.
    pub fn duplicate(&self) -> (r: JsonValue)
        ensures
            r@ == self@,
        decreases self, 0int, 0int,
    {
        match self {
            JsonValue::Null => JsonValue::Null,
            JsonValue::Bool(b) => JsonValue::Bool(*b),
            JsonValue::Int(n) => JsonValue::Int(*n),
            JsonValue::UInt(n) => JsonValue::UInt(*n),
            JsonValue::Dec(t) => JsonValue::Dec(t.clone()),
            JsonValue::Str(t) => JsonValue::Str(t.clone()),
            JsonValue::Arr(a) => {
                let items = dup_values(a, 0);
                proof {
                    assert(a@.subrange(0, a@.len() as int) =~= a@);
                }
                JsonValue::Arr(items)
            },
            JsonValue::Obj(a) => {
                let fields = dup_members(a, 0);
                proof {
                    assert(a@.subrange(0, a@.len() as int) =~= a@);
                }
                JsonValue::Obj(fields)
            },
        }
    }

    /// Structural equality, comparing numbers and `Dec` literals exactly.
    pub fn same_as(&self, other: &JsonValue) -> (r: bool)
        ensures
            r == (self@ == other@),
        decreases self, 0int, 0int,
    {
        match (self, other) {
            (JsonValue::Null, JsonValue::Null) => true,
            (JsonValue::Bool(a), JsonValue::Bool(b)) => *a == *b,
            (JsonValue::Int(a), JsonValue::Int(b)) => *a == *b,
            (JsonValue::UInt(a), JsonValue::UInt(b)) => *a == *b,
            (JsonValue::Dec(a), JsonValue::Dec(b)) => *a == *b,
            (JsonValue::Str(a), JsonValue::Str(b)) => *a == *b,
            (JsonValue::Arr(a), JsonValue::Arr(b)) => {
                proof {
                    assert(a@.subrange(0, a@.len() as int) =~= a@);
                    assert(b@.subrange(0, b@.len() as int) =~= b@);
                }
                eq_items(a, b, 0)
            },
            (JsonValue::Obj(a), JsonValue::Obj(b)) => {
                proof {
                    assert(a@.subrange(0, a@.len() as int) =~= a@);
                    assert(b@.subrange(0, b@.len() as int) =~= b@);
                }
                eq_fields(a, b, 0)
            },
            _ => {
                proof {
                    assert(self@ != other@);
                }
                false
            },
        }
    }
}

pub fn dup_values(a: &Vec<JsonValue>, i: usize) -> (r: Vec<JsonValue>)
    requires
        i <= a@.len(),
    ensures
        jview_seq(r@) == jview_seq(a@.subrange(i as int, a@.len() as int)),
    decreases a, 1int, a@.len() - i,
{
    if i < a.len() {
        let head = a[i].duplicate();
        let mut r = dup_values(a, i + 1);
        let ghost rest = r@;
        r.insert(0, head);
        proof {
            assert(r@ =~= seq![head] + rest);
            lemma_jview_seq_cons(head, rest);
            lemma_jview_seq_unfold(a@, i as int);
        }
        r
    } else {
        let r: Vec<JsonValue> = Vec::new();
        proof {
            assert(a@.subrange(i as int, a@.len() as int).len() == 0);
            assert(jview_seq(r@) =~= jview_seq(a@.subrange(i as int, a@.len() as int)));
        }
        r
    }
}

pub fn dup_members(a: &Vec<(String, JsonValue)>, i: usize) -> (r: Vec<(String, JsonValue)>)
    requires
        i <= a@.len(),
    ensures
        jview_fields(r@) == jview_fields(a@.subrange(i as int, a@.len() as int)),
    decreases a, 1int, a@.len() - i,
{
    if i < a.len() {
        let key = a[i].0.clone();
        let val = a[i].1.duplicate();
        let mut r = dup_members(a, i + 1);
        let ghost rest = r@;
        r.insert(0, (key, val));
        proof {
            assert(r@ =~= seq![(key, val)] + rest);
            lemma_jview_fields_cons((key, val), rest);
            lemma_jview_fields_unfold(a@, i as int);
        }
        r
    } else {
        let r: Vec<(String, JsonValue)> = Vec::new();
        proof {
            assert(a@.subrange(i as int, a@.len() as int).len() == 0);
            assert(jview_fields(r@) =~= jview_fields(a@.subrange(i as int, a@.len() as int)));
        }
        r
    }
}

fn eq_items(a: &Vec<JsonValue>, b: &Vec<JsonValue>, i: usize) -> (r: bool)
    requires
        i <= a@.len(),
        i <= b@.len(),
        a@.len() == b@.len() || i <= a@.len() && i <= b@.len(),
    ensures
        r == (jview_seq(a@.subrange(i as int, a@.len() as int)) == jview_seq(
            b@.subrange(i as int, b@.len() as int),
        )),
    decreases a, 1int, a@.len() - i,
{
    let ghost sa = a@.subrange(i as int, a@.len() as int);
    let ghost sb = b@.subrange(i as int, b@.len() as int);
    proof {
        lemma_jview_seq_len(sa);
        lemma_jview_seq_len(sb);
    }
    if a.len() - i != b.len() - i {
        proof {
            assert(jview_seq(sa).len() != jview_seq(sb).len());
        }
        return false;
    }
    if i < a.len() {
        proof {
            lemma_jview_seq_unfold(a@, i as int);
            lemma_jview_seq_unfold(b@, i as int);
        }
        if !a[i].same_as(&b[i]) {
            proof {
                assert(jview_seq(sa)[0] == jview(a@[i as int])) by {
                    assert(jview_seq(sa) == seq![jview(a@[i as int])] + jview_seq(
                        a@.subrange(i + 1, a@.len() as int),
                    ));
                }
                assert(jview_seq(sb)[0] == jview(b@[i as int])) by {
                    assert(jview_seq(sb) == seq![jview(b@[i as int])] + jview_seq(
                        b@.subrange(i + 1, b@.len() as int),
                    ));
                }
            }
            return false;
        }
        let r = eq_items(a, b, i + 1);
        proof {
            let ta = jview_seq(a@.subrange(i + 1, a@.len() as int));
            let tb = jview_seq(b@.subrange(i + 1, b@.len() as int));
            assert(jview_seq(sa) == seq![jview(a@[i as int])] + ta);
            assert(jview_seq(sb) == seq![jview(b@[i as int])] + tb);
            if r {
                assert(jview_seq(sa) =~= jview_seq(sb));
            } else {
                lemma_jview_seq_len(a@.subrange(i + 1, a@.len() as int));
                lemma_jview_seq_len(b@.subrange(i + 1, b@.len() as int));
                if jview_seq(sa) == jview_seq(sb) {
                    assert forall|x: int| 0 <= x < ta.len() implies ta[x] == tb[x] by {
                        assert(jview_seq(sa)[x + 1] == ta[x]);
                        assert(jview_seq(sb)[x + 1] == tb[x]);
                    }
                    assert(ta =~= tb);
                    assert(false);
                }
            }
        }
        r
    } else {
        proof {
            assert(sa.len() == 0 && sb.len() == 0);
            assert(jview_seq(sa) =~= jview_seq(sb));
        }
        true
    }
}

fn eq_fields(a: &Vec<(String, JsonValue)>, b: &Vec<(String, JsonValue)>, i: usize) -> (r: bool)
    requires
        i <= a@.len(),
        i <= b@.len(),
    ensures
        r == (jview_fields(a@.subrange(i as int, a@.len() as int)) == jview_fields(
            b@.subrange(i as int, b@.len() as int),
        )),
    decreases a, 1int, a@.len() - i,
{
    let ghost sa = a@.subrange(i as int, a@.len() as int);
    let ghost sb = b@.subrange(i as int, b@.len() as int);
    proof {
        lemma_jview_fields_len(sa);
        lemma_jview_fields_len(sb);
    }
    if a.len() - i != b.len() - i {
        proof {
            assert(jview_fields(sa).len() != jview_fields(sb).len());
        }
        return false;
    }
    if i < a.len() {
        proof {
            lemma_jview_fields_unfold(a@, i as int);
            lemma_jview_fields_unfold(b@, i as int);
        }
        let keys_match = a[i].0 == b[i].0;
        let vals_match = a[i].1.same_as(&b[i].1);
        let ghost ha = (a@[i as int].0@, jview(a@[i as int].1));
        let ghost hb = (b@[i as int].0@, jview(b@[i as int].1));
        proof {
            assert(jview_fields(sa)[0] == ha) by {
                assert(jview_fields(sa) == seq![ha] + jview_fields(
                    a@.subrange(i + 1, a@.len() as int),
                ));
            }
            assert(jview_fields(sb)[0] == hb) by {
                assert(jview_fields(sb) == seq![hb] + jview_fields(
                    b@.subrange(i + 1, b@.len() as int),
                ));
            }
        }
        if !keys_match || !vals_match {
            proof {
                assert(ha != hb);
            }
            return false;
        }
        let r = eq_fields(a, b, i + 1);
        proof {
            let ta = jview_fields(a@.subrange(i + 1, a@.len() as int));
            let tb = jview_fields(b@.subrange(i + 1, b@.len() as int));
            assert(jview_fields(sa) == seq![ha] + ta);
            assert(jview_fields(sb) == seq![hb] + tb);
            if r {
                assert(jview_fields(sa) =~= jview_fields(sb));
            } else {
                lemma_jview_fields_len(a@.subrange(i + 1, a@.len() as int));
                lemma_jview_fields_len(b@.subrange(i + 1, b@.len() as int));
                if jview_fields(sa) == jview_fields(sb) {
                    assert forall|x: int| 0 <= x < ta.len() implies ta[x] == tb[x] by {
                        assert(jview_fields(sa)[x + 1] == ta[x]);
                        assert(jview_fields(sb)[x + 1] == tb[x]);
                    }
                    assert(ta =~= tb);
                    assert(false);
                }
            }
        }
        r
    } else {
        proof {
            assert(sa.len() == 0 && sb.len() == 0);
            assert(jview_fields(sa) =~= jview_fields(sb));
        }
        true
    }
}

impl Jv {
    /// The value is a JSON string.
    pub open spec fn is_string(&self) -> bool {
        self is Str
    }

    /// The value is a JSON number.
    pub open spec fn is_number(&self) -> bool {
        self is Int || self is UInt || self is Dec
    }

    /// The value is an integer representable by a machine word.
    pub open spec fn is_integer(&self) -> bool {
        self is Int || self is UInt
    }

    /// The value is a JSON boolean.
    pub open spec fn is_boolean(&self) -> bool {
        self is Bool
    }
}

} // verus!
