use vstd::prelude::*;
use crate::strutil::{chars_of, string_from_chars, char_from_code};

verus! {

broadcast use vstd::std_specs::vec::axiom_vec_index_decreases, vstd::std_specs::vec::axiom_vec_decreases_to_view;

/// A JSON value: the tagged-union abstraction the response body is parsed
/// into. A number keeps its literal text as it stood in the input.
#[derive(Debug)]
pub enum JsonVal {
    Null,
    Bool(bool),
    Num(String),
    Str(String),
    Arr(Vec<JsonVal>),
    Obj(Vec<(String, JsonVal)>),
}

/// Ghost mirror of a `JsonVal`, over character sequences.
pub enum JsonRep {
    Null,
    Bool(bool),
    Num(Seq<char>),
    Str(Seq<char>),
    Arr(Seq<JsonRep>),
    Obj(Seq<(Seq<char>, JsonRep)>),
}

/// The abstraction of a concrete `JsonVal`.
pub open spec fn rep_of(v: JsonVal) -> JsonRep
    decreases v, 0int,
{
    match v {
        JsonVal::Null => JsonRep::Null,
        JsonVal::Bool(b) => JsonRep::Bool(b),
        JsonVal::Num(t) => JsonRep::Num(t@),
        JsonVal::Str(t) => JsonRep::Str(t@),
        JsonVal::Arr(items) => JsonRep::Arr(reps_of(items@)),
        JsonVal::Obj(entries) => JsonRep::Obj(entry_reps(entries@)),
    }
}

/// The abstractions of a sequence of values.
pub open spec fn reps_of(els: Seq<JsonVal>) -> Seq<JsonRep>
    decreases els, 1int,
{
    if els.len() == 0 {
        Seq::empty()
    } else {
        seq![rep_of(els[0])] + reps_of(els.subrange(1, els.len() as int))
    }
}

/// The abstractions of a sequence of object entries.
pub open spec fn entry_reps(es: Seq<(String, JsonVal)>) -> Seq<(Seq<char>, JsonRep)>
    decreases es, 1int,
{
    if es.len() == 0 {
        Seq::empty()
    } else {
        seq![(es[0].0@, rep_of(es[0].1))] + entry_reps(es.subrange(1, es.len() as int))
    }
}

/// `reps_of` maps the sequence element by element.
pub proof fn lemma_reps_of(els: Seq<JsonVal>)
    ensures
        reps_of(els).len() == els.len(),
        forall|j: int| 0 <= j < els.len() ==> reps_of(els)[j] == rep_of(els[j]),
    decreases els.len(),
{
    if els.len() > 0 {
        lemma_reps_of(els.subrange(1, els.len() as int));
    }
}

/// `entry_reps` maps the sequence element by element.
pub proof fn lemma_entry_reps(es: Seq<(String, JsonVal)>)
    ensures
        entry_reps(es).len() == es.len(),
        forall|j: int|
            0 <= j < es.len() ==> entry_reps(es)[j] == (es[j].0@, rep_of(es[j].1)),
    decreases es.len(),
{
    if es.len() > 0 {
        lemma_entry_reps(es.subrange(1, es.len() as int));
    }
}

/// The error of `parse`: the body is not syntactically valid JSON.
#[derive(Debug)]
pub struct ParseError;

impl ParseError {
    /// A short diagnostic text for this error.
    pub fn message(&self) -> (r: String)
        ensures
            r@ == "invalid JSON"@,
    {
        "invalid JSON".to_owned()
    }
}

pub open spec fn is_ws(c: char) -> bool {
    c == ' ' || c == '\t' || c == '\n' || c == '\r'
}

pub open spec fn is_digit(c: char) -> bool {
    '0' as u32 <= c as u32 && c as u32 <= '9' as u32
}

pub open spec fn is_hex(c: char) -> bool {
    is_digit(c) || ('a' as u32 <= c as u32 && c as u32 <= 'f' as u32) || ('A' as u32 <= c as u32
        && c as u32 <= 'F' as u32)
}

/// The numeric value of one hexadecimal digit.
pub open spec fn hex_val(c: char) -> int {
    if is_digit(c) {
        c as u32 - '0' as u32
    } else if 'a' as u32 <= c as u32 && c as u32 <= 'f' as u32 {
        c as u32 - 'a' as u32 + 10
    } else {
        c as u32 - 'A' as u32 + 10
    }
}

/// The value of the four hexadecimal digits at `j`.
pub open spec fn hex4(s: Seq<char>, j: int) -> int {
    hex_val(s[j]) * 0x1000 + hex_val(s[j + 1]) * 0x100 + hex_val(s[j + 2]) * 0x10 + hex_val(
        s[j + 3],
    )
}

/// The first position at or after `i` that does not hold whitespace.
pub open spec fn skip_ws(s: Seq<char>, i: int) -> int
    decreases s.len() - i,
{
    if 0 <= i && i < s.len() && is_ws(s[i]) {
        skip_ws(s, i + 1)
    } else {
        i
    }
}

/// The first position at or after `i` that does not hold a digit.
pub open spec fn digits_end(s: Seq<char>, i: int) -> int
    decreases s.len() - i,
{
    if 0 <= i && i < s.len() && is_digit(s[i]) {
        digits_end(s, i + 1)
    } else {
        i
    }
}

/// The literal `lit` stands in `s` at position `i`.
pub open spec fn match_lit(s: Seq<char>, i: int, lit: Seq<char>) -> bool {
    0 <= i && i + lit.len() <= s.len() && s.subrange(i, i + lit.len() as int) == lit
}

/// Prepends a character to the parsed remainder of a string body.
pub open spec fn cons_str(c: char, r: Option<(Seq<char>, int)>) -> Option<(Seq<char>, int)> {
    match r {
        Some((cs, j)) => Some((seq![c] + cs, j)),
        None => None,
    }
}

/// Parses the body of a JSON string from `i` (just past the opening
/// quote) to just past the closing quote, decoding the escape sequences.
/// A `\u` escape naming a high surrogate must be followed by one naming a
/// low surrogate; the pair decodes to one character.
pub open spec fn sp_string(s: Seq<char>, i: int) -> Option<(Seq<char>, int)>
    decreases s.len() - i,
{
    if i < 0 || i >= s.len() {
        None
    } else if s[i] == '"' {
        Some((Seq::empty(), i + 1))
    } else if s[i] == '\\' {
        if i + 1 >= s.len() {
            None
        } else {
            let e = s[i + 1];
            if e == '"' || e == '\\' || e == '/' {
                cons_str(e, sp_string(s, i + 2))
            } else if e == 'b' {
                cons_str('\u{8}', sp_string(s, i + 2))
            } else if e == 'f' {
                cons_str('\u{c}', sp_string(s, i + 2))
            } else if e == 'n' {
                cons_str('\n', sp_string(s, i + 2))
            } else if e == 'r' {
                cons_str('\r', sp_string(s, i + 2))
            } else if e == 't' {
                cons_str('\t', sp_string(s, i + 2))
            } else if e == 'u' {
                if i + 6 > s.len() || !(is_hex(s[i + 2]) && is_hex(s[i + 3]) && is_hex(s[i + 4])
                    && is_hex(s[i + 5])) {
                    None
                } else {
                    let cp = hex4(s, i + 2);
                    if 0xD800 <= cp < 0xDC00 {
                        if i + 12 > s.len() || !(s[i + 6] == '\\' && s[i + 7] == 'u' && is_hex(
                            s[i + 8],
                        ) && is_hex(s[i + 9]) && is_hex(s[i + 10]) && is_hex(s[i + 11])) {
                            None
                        } else {
                            let lo = hex4(s, i + 8);
                            if 0xDC00 <= lo < 0xE000 {
                                let c = ((0x10000 + (cp - 0xD800) * 0x400 + (lo
                                    - 0xDC00)) as u32) as char;
                                cons_str(c, sp_string(s, i + 12))
                            } else {
                                None
                            }
                        }
                    } else if 0xDC00 <= cp < 0xE000 {
                        None
                    } else {
                        cons_str((cp as u32) as char, sp_string(s, i + 6))
                    }
                }
            } else {
                None
            }
        }
    } else if (s[i] as u32) < 0x20 {
        None
    } else {
        cons_str(s[i], sp_string(s, i + 1))
    }
}

/// Parses a JSON number starting at `i`: an optional minus sign, an
/// integer part without a superfluous leading zero, an optional fraction
/// and an optional exponent. The literal text is kept.
pub open spec fn sp_number(s: Seq<char>, i: int) -> Option<(Seq<char>, int)> {
    let a = if i < s.len() && s[i] == '-' {
        i + 1
    } else {
        i
    };
    if a < s.len() && is_digit(s[a]) {
        let b = if s[a] == '0' {
            a + 1
        } else {
            digits_end(s, a)
        };
        let c = if b < s.len() && s[b] == '.' {
            if digits_end(s, b + 1) > b + 1 {
                digits_end(s, b + 1)
            } else {
                -1
            }
        } else {
            b
        };
        if c < 0 {
            None
        } else {
            let e2 = if c < s.len() && (s[c] == 'e' || s[c] == 'E') {
                let f = if c + 1 < s.len() && (s[c + 1] == '+' || s[c + 1] == '-') {
                    c + 2
                } else {
                    c + 1
                };
                if digits_end(s, f) > f {
                    digits_end(s, f)
                } else {
                    -1
                }
            } else {
                c
            };
            if e2 < 0 {
                None
            } else {
                Some((s.subrange(i, e2), e2))
            }
        }
    } else {
        None
    }
}

/// Parses one JSON value starting at `i`, which must not hold whitespace,
/// and returns it with the position just past it.
pub open spec fn sp_value(s: Seq<char>, i: int) -> Option<(JsonRep, int)>
    decreases s.len() - i, 0int,
{
    if i < 0 || i >= s.len() {
        None
    } else {
        let c = s[i];
        if c == 'n' {
            if match_lit(s, i, "null"@) {
                Some((JsonRep::Null, i + 4))
            } else {
                None
            }
        } else if c == 't' {
            if match_lit(s, i, "true"@) {
                Some((JsonRep::Bool(true), i + 4))
            } else {
                None
            }
        } else if c == 'f' {
            if match_lit(s, i, "false"@) {
                Some((JsonRep::Bool(false), i + 5))
            } else {
                None
            }
        } else if c == '"' {
            match sp_string(s, i + 1) {
                Some((cs, j)) => Some((JsonRep::Str(cs), j)),
                None => None,
            }
        } else if c == '-' || is_digit(c) {
            match sp_number(s, i) {
                Some((t, j)) => Some((JsonRep::Num(t), j)),
                None => None,
            }
        } else if c == '[' {
            let j = skip_ws(s, i + 1);
            if j < s.len() && s[j] == ']' {
                Some((JsonRep::Arr(Seq::empty()), j + 1))
            } else if i < j && j <= s.len() {
                match sp_elems(s, j) {
                    Some((vs, p)) => Some((JsonRep::Arr(vs), p)),
                    None => None,
                }
            } else {
                None
            }
        } else if c == '{' {
            let j = skip_ws(s, i + 1);
            if j < s.len() && s[j] == '}' {
                Some((JsonRep::Obj(Seq::empty()), j + 1))
            } else if i < j && j <= s.len() {
                match sp_members(s, j) {
                    Some((ms, p)) => Some((JsonRep::Obj(ms), p)),
                    None => None,
                }
            } else {
                None
            }
        } else {
            None
        }
    }
}

/// Parses the comma-separated elements of an array from `i` (at the first
/// element, whitespace already skipped) to just past the closing bracket.
pub open spec fn sp_elems(s: Seq<char>, i: int) -> Option<(Seq<JsonRep>, int)>
    decreases s.len() - i, 1int,
{
    match sp_value(s, i) {
        None => None,
        Some((v, j)) => {
            let p = skip_ws(s, j);
            if p < s.len() && s[p] == ',' {
                let q = skip_ws(s, p + 1);
                if i < q && q <= s.len() {
                    match sp_elems(s, q) {
                        Some((vs, r)) => Some((seq![v] + vs, r)),
                        None => None,
                    }
                } else {
                    None
                }
            } else if p < s.len() && s[p] == ']' {
                Some((seq![v], p + 1))
            } else {
                None
            }
        },
    }
}

/// Parses the members of an object from `i` (at the first key's quote,
/// whitespace already skipped) to just past the closing brace.
pub open spec fn sp_members(s: Seq<char>, i: int) -> Option<(Seq<(Seq<char>, JsonRep)>, int)>
    decreases s.len() - i, 1int,
{
    if 0 <= i && i < s.len() && s[i] == '"' {
        match sp_string(s, i + 1) {
            None => None,
            Some((key, j)) => {
                let p = skip_ws(s, j);
                if p < s.len() && s[p] == ':' {
                    let q = skip_ws(s, p + 1);
                    if i < q && q <= s.len() {
                        match sp_value(s, q) {
                            None => None,
                            Some((v, r)) => {
                                let t = skip_ws(s, r);
                                if t < s.len() && s[t] == ',' {
                                    let u = skip_ws(s, t + 1);
                                    if i < u && u <= s.len() {
                                        match sp_members(s, u) {
                                            Some((ms, w)) => Some((seq![(key, v)] + ms, w)),
                                            None => None,
                                        }
                                    } else {
                                        None
                                    }
                                } else if t < s.len() && s[t] == '}' {
                                    Some((seq![(key, v)], t + 1))
                                } else {
                                    None
                                }
                            },
                        }
                    } else {
                        None
                    }
                } else {
                    None
                }
            },
        }
    } else {
        None
    }
}

/// Parses a whole document: one value with whitespace around it, and
/// nothing after it.
pub open spec fn sp_doc(s: Seq<char>) -> Option<JsonRep> {
    match sp_value(s, skip_ws(s, 0)) {
        Some((v, j)) => if skip_ws(s, j) == s.len() {
            Some(v)
        } else {
            None
        },
        None => None,
    }
}

fn e_skip_ws(s: &Vec<char>, i: usize) -> (r: usize)
    requires
        i as int <= s@.len(),
    ensures
        i <= r,
        r as int <= s@.len(),
        r as int == skip_ws(s@, i as int),
    decreases s@.len() - i,
{
    let mut j = i;
    while j < s.len() && (s[j] == ' ' || s[j] == '\t' || s[j] == '\n' || s[j] == '\r')
        invariant
            i <= j,
            j as int <= s@.len(),
            skip_ws(s@, i as int) == skip_ws(s@, j as int),
        decreases s@.len() - j,
    {
        j += 1;
    }
    j
}

fn d_end(s: &Vec<char>, i: usize) -> (r: usize)
    requires
        i as int <= s@.len(),
    ensures
        i <= r,
        r as int <= s@.len(),
        r as int == digits_end(s@, i as int),
    decreases s@.len() - i,
{
    let mut j = i;
    while j < s.len() && s[j] as u32 >= 0x30 && s[j] as u32 <= 0x39
        invariant
            i <= j,
            j as int <= s@.len(),
            digits_end(s@, i as int) == digits_end(s@, j as int),
        decreases s@.len() - j,
    {
        j += 1;
    }
    j
}

/// Copies the characters of `s` between `from` and `to`.
fn copy_range(s: &Vec<char>, from: usize, to: usize) -> (v: Vec<char>)
    requires
        from <= to,
        to as int <= s@.len(),
    ensures
        v@ == s@.subrange(from as int, to as int),
{
    let mut v: Vec<char> = Vec::new();
    let mut j = from;
    while j < to
        invariant
            from <= j <= to,
            to as int <= s@.len(),
            v@ == s@.subrange(from as int, j as int),
        decreases to - j,
    {
        v.push(s[j]);
        proof {
            assert(s@.subrange(from as int, j + 1) =~= s@.subrange(from as int, j as int)
                + seq![s@[j as int]]);
        }
        j += 1;
    }
    v
}

/// The numeric value of one hexadecimal digit, if it is one.
fn hv(c: char) -> (r: Option<u32>)
    ensures
        match r {
            Some(x) => is_hex(c) && x == hex_val(c) && x < 16,
            None => !is_hex(c),
        },
{
    let u = c as u32;
    if 0x30 <= u && u <= 0x39 {
        Some(u - 0x30)
    } else if 0x61 <= u && u <= 0x66 {
        Some(u - 0x61 + 10)
    } else if 0x41 <= u && u <= 0x46 {
        Some(u - 0x41 + 10)
    } else {
        None
    }
}

/// The value of the four hexadecimal digits at `j`, if all four are such.
fn hex4_at(s: &Vec<char>, j: usize) -> (r: Option<u32>)
    requires
        j + 4 <= s@.len(),
    ensures
        match r {
            Some(x) => is_hex(s@[j as int]) && is_hex(s@[j + 1]) && is_hex(s@[j + 2]) && is_hex(
                s@[j + 3],
            ) && x == hex4(s@, j as int) && x <= 0xFFFF,
            None => !(is_hex(s@[j as int]) && is_hex(s@[j + 1]) && is_hex(s@[j + 2]) && is_hex(
                s@[j + 3],
            )),
        },
{
    let _n = s.len();
    let d0 = hv(s[j]);
    let d1 = hv(s[j + 1]);
    let d2 = hv(s[j + 2]);
    let d3 = hv(s[j + 3]);
    match (d0, d1, d2, d3) {
        (Some(a), Some(b), Some(c), Some(d)) => Some(a * 0x1000 + b * 0x100 + c * 0x10 + d),
        _ => None,
    }
}

/// Prepends a character to a parsed string body.
fn cons_char(c: char, r: Result<(Vec<char>, usize), ParseError>) -> (r2: Result<
    (Vec<char>, usize),
    ParseError,
>)
    ensures
        match r {
            Ok(p) => r2 matches Ok(p2) && p2.0@ == seq![c] + p.0@ && p2.1 == p.1,
            Err(_) => r2 is Err,
        },
{
    match r {
        Ok((mut cs, j)) => {
            let ghost gcs = cs@;
            cs.insert(0, c);
            proof {
                assert(cs@ =~= seq![c] + gcs);
            }
            Ok((cs, j))
        },
        Err(e) => Err(e),
    }
}

/// Parses the body of a JSON string, from just past the opening quote to
/// just past the closing quote, as `sp_string` describes.
fn p_string(s: &Vec<char>, i: usize) -> (r: Result<(Vec<char>, usize), ParseError>)
    requires
        i as int <= s@.len(),
    ensures
        match r {
            Ok(p) => sp_string(s@, i as int) == Some((p.0@, p.1 as int)) && i < p.1 && p.1 as int
                <= s@.len(),
            Err(_) => sp_string(s@, i as int) is None,
        },
    decreases s@.len() - i,
{
    if i >= s.len() {
        return Err(ParseError);
    }
    let c = s[i];
    if c == '"' {
        let v: Vec<char> = Vec::new();
        proof {
            assert(v@ =~= Seq::<char>::empty());
        }
        return Ok((v, i + 1));
    }
    if c == '\\' {
        if i + 1 >= s.len() {
            return Err(ParseError);
        }
        let e = s[i + 1];
        if e == '"' || e == '\\' || e == '/' {
            return cons_char(e, p_string(s, i + 2));
        }
        if e == 'b' {
            return cons_char('\u{8}', p_string(s, i + 2));
        }
        if e == 'f' {
            return cons_char('\u{c}', p_string(s, i + 2));
        }
        if e == 'n' {
            return cons_char('\n', p_string(s, i + 2));
        }
        if e == 'r' {
            return cons_char('\r', p_string(s, i + 2));
        }
        if e == 't' {
            return cons_char('\t', p_string(s, i + 2));
        }
        if e == 'u' {
            if s.len() - i < 6 {
                return Err(ParseError);
            }
            match hex4_at(s, i + 2) {
                None => Err(ParseError),
                Some(cp) => {
                    if 0xD800 <= cp && cp < 0xDC00 {
                        if s.len() - i < 12 {
                            return Err(ParseError);
                        }
                        if !(s[i + 6] == '\\' && s[i + 7] == 'u') {
                            return Err(ParseError);
                        }
                        match hex4_at(s, i + 8) {
                            None => Err(ParseError),
                            Some(lo) => {
                                if 0xDC00 <= lo && lo < 0xE000 {
                                    let code: u32 = 0x10000 + (cp - 0xD800) * 0x400 + (lo
                                        - 0xDC00);
                                    let ch = char_from_code(code);
                                    proof {
                                        vstd::utf8::char_u32_cast(ch, code);
                                    }
                                    cons_char(ch, p_string(s, i + 12))
                                } else {
                                    Err(ParseError)
                                }
                            },
                        }
                    } else if 0xDC00 <= cp && cp < 0xE000 {
                        Err(ParseError)
                    } else {
                        let ch = char_from_code(cp);
                        proof {
                            vstd::utf8::char_u32_cast(ch, cp);
                        }
                        cons_char(ch, p_string(s, i + 6))
                    }
                },
            }
        } else {
            Err(ParseError)
        }
    } else if (c as u32) < 0x20 {
        Err(ParseError)
    } else {
        cons_char(c, p_string(s, i + 1))
    }
}

/// Parses a JSON number, as `sp_number` describes, keeping its text.
fn p_number(s: &Vec<char>, i: usize) -> (r: Result<(Vec<char>, usize), ParseError>)
    requires
        i as int <= s@.len(),
    ensures
        match r {
            Ok(p) => sp_number(s@, i as int) == Some((p.0@, p.1 as int)) && i < p.1 && p.1 as int
                <= s@.len(),
            Err(_) => sp_number(s@, i as int) is None,
        },
{
    let mut a = i;
    if a < s.len() && s[a] == '-' {
        a += 1;
    }
    if !(a < s.len() && s[a] as u32 >= 0x30 && s[a] as u32 <= 0x39) {
        return Err(ParseError);
    }
    let b = if s[a] == '0' {
        a + 1
    } else {
        proof {
            assert(digits_end(s@, a as int) == digits_end(s@, a + 1));
        }
        d_end(s, a + 1)
    };
    let mut c2 = b;
    if b < s.len() && s[b] == '.' {
        let d = d_end(s, b + 1);
        if d > b + 1 {
            c2 = d;
        } else {
            return Err(ParseError);
        }
    }
    let mut e2 = c2;
    if c2 < s.len() && (s[c2] == 'e' || s[c2] == 'E') {
        let f = if c2 + 1 < s.len() && (s[c2 + 1] == '+' || s[c2 + 1] == '-') {
            c2 + 2
        } else {
            c2 + 1
        };
        let g = d_end(s, f);
        if g > f {
            e2 = g;
        } else {
            return Err(ParseError);
        }
    }
    Ok((copy_range(s, i, e2), e2))
}

/// Parses one JSON value, as `sp_value` describes.
fn p_value(s: &Vec<char>, i: usize) -> (r: Result<(JsonVal, usize), ParseError>)
    requires
        i as int <= s@.len(),
    ensures
        match r {
            Ok(p) => sp_value(s@, i as int) == Some((rep_of(p.0), p.1 as int)) && i < p.1
                && p.1 as int <= s@.len(),
            Err(_) => sp_value(s@, i as int) is None,
        },
    decreases s@.len() - i, 0int,
{
    if i >= s.len() {
        return Err(ParseError);
    }
    let c = s[i];
    if c == 'n' {
        proof {
            reveal_strlit("null");
        }
        if s.len() - i >= 4 && s[i + 1] == 'u' && s[i + 2] == 'l' && s[i + 3] == 'l' {
            proof {
                assert(s@.subrange(i as int, i + 4) =~= "null"@);
            }
            Ok((JsonVal::Null, i + 4))
        } else {
            proof {
                if match_lit(s@, i as int, "null"@) {
                    assert(s@[i + 1] == s@.subrange(i as int, i + 4)[1]);
                    assert(s@[i + 2] == s@.subrange(i as int, i + 4)[2]);
                    assert(s@[i + 3] == s@.subrange(i as int, i + 4)[3]);
                }
            }
            Err(ParseError)
        }
    } else if c == 't' {
        proof {
            reveal_strlit("true");
        }
        if s.len() - i >= 4 && s[i + 1] == 'r' && s[i + 2] == 'u' && s[i + 3] == 'e' {
            proof {
                assert(s@.subrange(i as int, i + 4) =~= "true"@);
            }
            Ok((JsonVal::Bool(true), i + 4))
        } else {
            proof {
                if match_lit(s@, i as int, "true"@) {
                    assert(s@[i + 1] == s@.subrange(i as int, i + 4)[1]);
                    assert(s@[i + 2] == s@.subrange(i as int, i + 4)[2]);
                    assert(s@[i + 3] == s@.subrange(i as int, i + 4)[3]);
                }
            }
            Err(ParseError)
        }
    } else if c == 'f' {
        proof {
            reveal_strlit("false");
        }
        if s.len() - i >= 5 && s[i + 1] == 'a' && s[i + 2] == 'l' && s[i + 3] == 's' && s[i + 4]
            == 'e' {
            proof {
                assert(s@.subrange(i as int, i + 5) =~= "false"@);
            }
            Ok((JsonVal::Bool(false), i + 5))
        } else {
            proof {
                if match_lit(s@, i as int, "false"@) {
                    assert(s@[i + 1] == s@.subrange(i as int, i + 5)[1]);
                    assert(s@[i + 2] == s@.subrange(i as int, i + 5)[2]);
                    assert(s@[i + 3] == s@.subrange(i as int, i + 5)[3]);
                    assert(s@[i + 4] == s@.subrange(i as int, i + 5)[4]);
                }
            }
            Err(ParseError)
        }
    } else if c == '"' {
        match p_string(s, i + 1) {
            Ok((cs, j)) => Ok((JsonVal::Str(string_from_chars(cs)), j)),
            Err(e) => Err(e),
        }
    } else if c == '-' || (c as u32 >= 0x30 && c as u32 <= 0x39) {
        match p_number(s, i) {
            Ok((t, j)) => Ok((JsonVal::Num(string_from_chars(t)), j)),
            Err(e) => Err(e),
        }
    } else if c == '[' {
        let j = e_skip_ws(s, i + 1);
        if j < s.len() && s[j] == ']' {
            let vs: Vec<JsonVal> = Vec::new();
            proof {
                assert(vs@ =~= Seq::<JsonVal>::empty());
                assert(reps_of(vs@) =~= Seq::<JsonRep>::empty());
            }
            Ok((JsonVal::Arr(vs), j + 1))
        } else {
            match p_elems(s, j) {
                Ok((vs, p)) => Ok((JsonVal::Arr(vs), p)),
                Err(e) => Err(e),
            }
        }
    } else if c == '{' {
        let j = e_skip_ws(s, i + 1);
        if j < s.len() && s[j] == '}' {
            let ms: Vec<(String, JsonVal)> = Vec::new();
            proof {
                assert(ms@ =~= Seq::<(String, JsonVal)>::empty());
                assert(entry_reps(ms@) =~= Seq::<(Seq<char>, JsonRep)>::empty());
            }
            Ok((JsonVal::Obj(ms), j + 1))
        } else {
            match p_members(s, j) {
                Ok((ms, p)) => Ok((JsonVal::Obj(ms), p)),
                Err(e) => Err(e),
            }
        }
    } else {
        Err(ParseError)
    }
}

/// Parses the elements of an array, as `sp_elems` describes.
fn p_elems(s: &Vec<char>, i: usize) -> (r: Result<(Vec<JsonVal>, usize), ParseError>)
    requires
        i as int <= s@.len(),
    ensures
        match r {
            Ok(p) => sp_elems(s@, i as int) == Some((reps_of(p.0@), p.1 as int)) && i < p.1
                && p.1 as int <= s@.len(),
            Err(_) => sp_elems(s@, i as int) is None,
        },
    decreases s@.len() - i, 1int,
{
    match p_value(s, i) {
        Err(e) => Err(e),
        Ok((v, j)) => {
            let p = e_skip_ws(s, j);
            if p < s.len() && s[p] == ',' {
                let q = e_skip_ws(s, p + 1);
                match p_elems(s, q) {
                    Err(e) => Err(e),
                    Ok((mut vs, r2)) => {
                        let ghost gvs = vs@;
                        vs.insert(0, v);
                        proof {
                            assert(vs@ =~= seq![v] + gvs);
                            assert(vs@.subrange(1, vs@.len() as int) =~= gvs);
                            assert(reps_of(vs@) =~= seq![rep_of(v)] + reps_of(gvs));
                        }
                        Ok((vs, r2))
                    },
                }
            } else if p < s.len() && s[p] == ']' {
                let mut vs: Vec<JsonVal> = Vec::new();
                vs.push(v);
                proof {
                    assert(vs@ =~= seq![v]);
                    assert(vs@.subrange(1, 1) =~= Seq::<JsonVal>::empty());
                    assert(reps_of(Seq::<JsonVal>::empty()) =~= Seq::<JsonRep>::empty());
                    assert(reps_of(vs@) =~= seq![rep_of(v)]);
                }
                Ok((vs, p + 1))
            } else {
                Err(ParseError)
            }
        },
    }
}

/// Parses the members of an object, as `sp_members` describes.
fn p_members(s: &Vec<char>, i: usize) -> (r: Result<(Vec<(String, JsonVal)>, usize), ParseError>)
    requires
        i as int <= s@.len(),
    ensures
        match r {
            Ok(p) => sp_members(s@, i as int) == Some((entry_reps(p.0@), p.1 as int)) && i < p.1
                && p.1 as int <= s@.len(),
            Err(_) => sp_members(s@, i as int) is None,
        },
    decreases s@.len() - i, 1int,
{
    if !(i < s.len() && s[i] == '"') {
        return Err(ParseError);
    }
    match p_string(s, i + 1) {
        Err(e) => Err(e),
        Ok((key_cs, j)) => {
            let p = e_skip_ws(s, j);
            if !(p < s.len() && s[p] == ':') {
                return Err(ParseError);
            }
            let q = e_skip_ws(s, p + 1);
            match p_value(s, q) {
                Err(e) => Err(e),
                Ok((v, r2)) => {
                    let t = e_skip_ws(s, r2);
                    if t < s.len() && s[t] == ',' {
                        let u = e_skip_ws(s, t + 1);
                        match p_members(s, u) {
                            Err(e) => Err(e),
                            Ok((mut ms, w)) => {
                                let key = string_from_chars(key_cs);
                                let ghost gms = ms@;
                                let ghost gkey = key@;
                                ms.insert(0, (key, v));
                                proof {
                                    assert(ms@ =~= seq![(ms@[0].0, v)] + gms);
                                    assert(ms@.subrange(1, ms@.len() as int) =~= gms);
                                    assert(entry_reps(ms@) =~= seq![(gkey, rep_of(v))]
                                        + entry_reps(gms));
                                }
                                Ok((ms, w))
                            },
                        }
                    } else if t < s.len() && s[t] == '}' {
                        let key = string_from_chars(key_cs);
                        let ghost gkey = key@;
                        let mut ms: Vec<(String, JsonVal)> = Vec::new();
                        ms.push((key, v));
                        proof {
                            assert(ms@.subrange(1, 1) =~= Seq::<(String, JsonVal)>::empty());
                            assert(entry_reps(Seq::<(String, JsonVal)>::empty()) =~= Seq::<(Seq<char>, JsonRep)>::empty());
                            assert(entry_reps(ms@) =~= seq![(gkey, rep_of(v))]);
                        }
                        Ok((ms, t + 1))
                    } else {
                        Err(ParseError)
                    }
                },
            }
        },
    }
}

/// Parses a response body as one JSON document.
///
/// Returns the parsed value exactly when the text matches the JSON
/// grammar `sp_doc` describes, and the parse error otherwise.
pub fn parse(text: &str) -> (r: Result<JsonVal, ParseError>)
    ensures
        match r {
            Ok(v) => sp_doc(text@) == Some(rep_of(v)),
            Err(_) => sp_doc(text@) is None,
        },
{
    let cs = chars_of(text);
    let start = e_skip_ws(&cs, 0);
    match p_value(&cs, start) {
        Err(e) => Err(e),
        Ok((v, j)) => {
            let end = e_skip_ws(&cs, j);
            if end == cs.len() {
                Ok(v)
            } else {
                Err(ParseError)
            }
        },
    }
}

} // verus!
