//! The persisted file format: a pretty-printed JSON array of
//! `{ "timestamp": ..., "text": ... }` objects, newest first.
//!
//! The renderer emits one canonical form; the parser accepts any amount of
//! whitespace between tokens and the standard string escapes, so it reads
//! back both this renderer's output and other pretty-printings of the same
//! array. Field order inside an object is fixed: `timestamp`, then `text`.

use vstd::prelude::*;
use vstd::string::{StrSliceExecFns, StringExecFns};
use crate::entry::{Entry, EntryModel, models};
use crate::strutil::{char_from_code, chars_to_string, push_char, str_to_chars};

verus! {

/// JSON insignificant whitespace.
pub open spec fn is_ws(c: char) -> bool {
    c == ' ' || c == '\n' || c == '\r' || c == '\t'
}

/// Drops the longest whitespace prefix.
pub open spec fn skip_ws(s: Seq<char>) -> Seq<char>
    decreases s.len(),
{
    if s.len() > 0 && is_ws(s[0]) {
        skip_ws(s.skip(1))
    } else {
        s
    }
}

/// Lower-case hexadecimal digit for a value below 16.
pub open spec fn hex_digit(n: int) -> char {
    if n == 0 { '0' } else if n == 1 { '1' } else if n == 2 { '2' } else if n == 3 { '3' }
    else if n == 4 { '4' } else if n == 5 { '5' } else if n == 6 { '6' } else if n == 7 { '7' }
    else if n == 8 { '8' } else if n == 9 { '9' } else if n == 10 { 'a' } else if n == 11 { 'b' }
    else if n == 12 { 'c' } else if n == 13 { 'd' } else if n == 14 { 'e' } else if n == 15 { 'f' }
    else { '0' }
}

/// The value of a hexadecimal digit, upper or lower case.
pub open spec fn hex_val(c: char) -> Option<int> {
    if '0' <= c && c <= '9' {
        Some(c as u32 - '0' as u32)
    } else if 'a' <= c && c <= 'f' {
        Some(10 + c as u32 - 'a' as u32)
    } else if 'A' <= c && c <= 'F' {
        Some(10 + c as u32 - 'A' as u32)
    } else {
        None
    }
}

/// Codes that denote a character: everything but the surrogate range.
pub open spec fn valid_code(v: int) -> bool {
    (0 <= v < 0xD800) || (0xE000 <= v <= 0x10FFFF)
}

/// How one character is written inside a JSON string: quote, backslash and
/// control characters are escaped, everything else stands for itself.
pub open spec fn escape_char(c: char) -> Seq<char> {
    if c == '"' { seq!['\\', '"'] }
    else if c == '\\' { seq!['\\', '\\'] }
    else if c == '\n' { seq!['\\', 'n'] }
    else if c == '\r' { seq!['\\', 'r'] }
    else if c == '\t' { seq!['\\', 't'] }
    else if (c as u32) < 32 {
        seq!['\\', 'u', '0', '0', hex_digit(c as u32 as int / 16), hex_digit(c as u32 as int % 16)]
    } else {
        seq![c]
    }
}

/// The body of a JSON string: each character escaped as needed.
pub open spec fn escape_string(s: Seq<char>) -> Seq<char>
    decreases s.len(),
{
    if s.len() == 0 {
        Seq::<char>::empty()
    } else {
        escape_char(s[0]) + escape_string(s.skip(1))
    }
}

/// The character named by a single-letter escape, if any.
pub open spec fn unescape_char(e: char) -> Option<char> {
    if e == '"' { Some('"') }
    else if e == '\\' { Some('\\') }
    else if e == '/' { Some('/') }
    else if e == 'n' { Some('\n') }
    else if e == 'r' { Some('\r') }
    else if e == 't' { Some('\t') }
    else if e == 'b' { Some('\u{0008}') }
    else if e == 'f' { Some('\u{000C}') }
    else { None }
}

/// Reads a JSON string body (the opening quote already consumed) up to and
/// including the closing quote; returns the decoded text and the remainder.
pub open spec fn parse_string_body(s: Seq<char>) -> Option<(Seq<char>, Seq<char>)>
    decreases s.len(),
{
    if s.len() == 0 {
        None
    } else if s[0] == '"' {
        Some((Seq::<char>::empty(), s.skip(1)))
    } else if s[0] == '\\' {
        if s.len() < 2 {
            None
        } else if s[1] == 'u' {
            if s.len() < 6 {
                None
            } else {
                match (hex_val(s[2]), hex_val(s[3]), hex_val(s[4]), hex_val(s[5])) {
                    (Some(h0), Some(h1), Some(h2), Some(h3)) => {
                        let code = ((h0 * 16 + h1) * 16 + h2) * 16 + h3;
                        if valid_code(code) {
                            match parse_string_body(s.skip(6)) {
                                Some((t, r)) => Some((seq![code as char] + t, r)),
                                None => None,
                            }
                        } else {
                            None
                        }
                    }
                    _ => None,
                }
            }
        } else {
            match unescape_char(s[1]) {
                Some(c) => match parse_string_body(s.skip(2)) {
                    Some((t, r)) => Some((seq![c] + t, r)),
                    None => None,
                },
                None => None,
            }
        }
    } else if (s[0] as u32) < 32 {
        None
    } else {
        match parse_string_body(s.skip(1)) {
            Some((t, r)) => Some((seq![s[0]] + t, r)),
            None => None,
        }
    }
}

/// The `"timestamp"` key, quotes included.
pub open spec fn ts_key() -> Seq<char> {
    seq!['"', 't', 'i', 'm', 'e', 's', 't', 'a', 'm', 'p', '"']
}

/// The `"text"` key, quotes included.
pub open spec fn text_key() -> Seq<char> {
    seq!['"', 't', 'e', 'x', 't', '"']
}

/// Reads one `{ "timestamp": ..., "text": ... }` object, leading whitespace
/// allowed; returns its model and the remainder after the closing brace.
pub open spec fn parse_entry(s: Seq<char>) -> Option<(EntryModel, Seq<char>)> {
    let s1 = skip_ws(s);
    if s1.len() == 0 || s1[0] != '{' {
        None
    } else {
        let s2 = skip_ws(s1.skip(1));
        if s2.len() < 11 || s2.take(11) != ts_key() {
            None
        } else {
            let s3 = skip_ws(s2.skip(11));
            if s3.len() == 0 || s3[0] != ':' {
                None
            } else {
                let s4 = skip_ws(s3.skip(1));
                if s4.len() == 0 || s4[0] != '"' {
                    None
                } else {
                    match parse_string_body(s4.skip(1)) {
                        Some((ts, r)) => {
                            let r1 = skip_ws(r);
                            if r1.len() == 0 || r1[0] != ',' {
                                None
                            } else {
                                let r2 = skip_ws(r1.skip(1));
                                if r2.len() < 6 || r2.take(6) != text_key() {
                                    None
                                } else {
                                    let r3 = skip_ws(r2.skip(6));
                                    if r3.len() == 0 || r3[0] != ':' {
                                        None
                                    } else {
                                        let r4 = skip_ws(r3.skip(1));
                                        if r4.len() == 0 || r4[0] != '"' {
                                            None
                                        } else {
                                            match parse_string_body(r4.skip(1)) {
                                                Some((tx, q)) => {
                                                    let q1 = skip_ws(q);
                                                    if q1.len() == 0 || q1[0] != '}' {
                                                        None
                                                    } else {
                                                        Some(
                                                            (
                                                                EntryModel {
                                                                    timestamp: ts,
                                                                    text: tx,
                                                                },
                                                                q1.skip(1),
                                                            ),
                                                        )
                                                    }
                                                }
                                                None => None,
                                            }
                                        }
                                    }
                                }
                            }
                        }
                        None => None,
                    }
                }
            }
        }
    }
}

/// Reads a non-empty, comma-separated object list followed by the closing
/// bracket; returns the models and the remainder after the bracket.
pub open spec fn parse_entries(s: Seq<char>) -> Option<(Seq<EntryModel>, Seq<char>)>
    decreases s.len(),
{
    match parse_entry(s) {
        Some((e, r)) => {
            let r1 = skip_ws(r);
            if r1.len() > 0 && r1[0] == ',' {
                let r2 = skip_ws(r1.skip(1));
                if r2.len() < s.len() {
                    match parse_entries(r2) {
                        Some((es, q)) => Some((seq![e] + es, q)),
                        None => None,
                    }
                } else {
                    None
                }
            } else if r1.len() > 0 && r1[0] == ']' {
                Some((seq![e], r1.skip(1)))
            } else {
                None
            }
        }
        None => None,
    }
}

/// Reads a whole persisted document: a JSON array of entry objects with
/// nothing but whitespace around it. `None` is a parse failure.
pub open spec fn parse_document(s: Seq<char>) -> Option<Seq<EntryModel>> {
    let s1 = skip_ws(s);
    if s1.len() == 0 || s1[0] != '[' {
        None
    } else {
        let s2 = skip_ws(s1.skip(1));
        if s2.len() > 0 && s2[0] == ']' {
            if skip_ws(s2.skip(1)).len() == 0 {
                Some(Seq::<EntryModel>::empty())
            } else {
                None
            }
        } else {
            match parse_entries(s2) {
                Some((es, q)) => if skip_ws(q).len() == 0 {
                    Some(es)
                } else {
                    None
                },
                None => None,
            }
        }
    }
}

/// One rendered entry object, brace to brace.
pub open spec fn entry_core(e: EntryModel) -> Seq<char> {
    seq!['{', ' '] + ts_key() + seq![':', ' ', '"'] + escape_string(e.timestamp)
        + seq!['"', ',', ' '] + text_key() + seq![':', ' ', '"'] + escape_string(e.text)
        + seq!['"', ' ', '}']
}

/// The rendering after the first entry object: `,\n  ` plus the next object
/// for each further entry, then the closing line.
pub open spec fn render_tail(es: Seq<EntryModel>) -> Seq<char>
    decreases es.len(),
{
    if es.len() == 0 {
        seq!['\n', ']']
    } else {
        seq![',', '\n', ' ', ' '] + entry_core(es[0]) + render_tail(es.skip(1))
    }
}

/// The canonical rendering of a whole log: `[]` when empty, else one
/// indented object per line.
pub open spec fn render_document(es: Seq<EntryModel>) -> Seq<char> {
    if es.len() == 0 {
        seq!['[', ']']
    } else {
        seq!['[', '\n', ' ', ' '] + entry_core(es[0]) + render_tail(es.skip(1))
    }
}

/// Whether `c` is JSON whitespace.
fn is_ws_exec(c: char) -> (r: bool)
    ensures
        r == is_ws(c),
{
    c == ' ' || c == '\n' || c == '\r' || c == '\t'
}

/// First position at or after `i` holding a non-whitespace character.
fn skip_ws_exec(v: &Vec<char>, i: usize) -> (r: usize)
    requires
        i <= v.len(),
    ensures
        i <= r <= v.len(),
        v@.skip(r as int) == skip_ws(v@.skip(i as int)),
{
    let mut j = i;
    while j < v.len() && is_ws_exec(v[j])
        invariant
            i <= j <= v.len(),
            skip_ws(v@.skip(i as int)) == skip_ws(v@.skip(j as int)),
        decreases v.len() - j,
    {
        proof {
            assert(v@.skip(j as int)[0] == v@[j as int]);
            assert(v@.skip(j as int).skip(1) =~= v@.skip(j as int + 1));
        }
        j += 1;
    }
    proof {
        if j < v.len() {
            assert(v@.skip(j as int)[0] == v@[j as int]);
        }
        assert(skip_ws(v@.skip(j as int)) == v@.skip(j as int));
    }
    j
}

/// The value of a hexadecimal digit character, if it is one.
fn hex_val_exec(c: char) -> (r: Option<u32>)
    ensures
        match r {
            Some(h) => hex_val(c) == Some(h as int) && h < 16,
            None => hex_val(c) is None,
        },
{
    let u = c as u32;
    if 48 <= u && u <= 57 {
        Some(u - 48)
    } else if 97 <= u && u <= 102 {
        Some(u - 97 + 10)
    } else if 65 <= u && u <= 70 {
        Some(u - 65 + 10)
    } else {
        None
    }
}

/// The character named by a single-letter escape, if any.
fn unescape_char_exec(e: char) -> (r: Option<char>)
    ensures
        r == unescape_char(e),
{
    if e == '"' { Some('"') }
    else if e == '\\' { Some('\\') }
    else if e == '/' { Some('/') }
    else if e == 'n' { Some('\n') }
    else if e == 'r' { Some('\r') }
    else if e == 't' { Some('\t') }
    else if e == 'b' { Some('\u{0008}') }
    else if e == 'f' { Some('\u{000C}') }
    else { None }
}

/// Prepends `p` to the text of a string-body parse, if it succeeded.
pub open spec fn psb_prepend(p: Seq<char>, r: Option<(Seq<char>, Seq<char>)>) -> Option<
    (Seq<char>, Seq<char>),
> {
    match r {
        Some((t, rest)) => Some((p + t, rest)),
        None => None,
    }
}

proof fn lemma_psb_prepend_empty(r: Option<(Seq<char>, Seq<char>)>)
    ensures
        psb_prepend(Seq::<char>::empty(), r) == r,
{
    match r {
        Some((t, rest)) => {
            assert(Seq::<char>::empty() + t =~= t);
        },
        None => {},
    }
}

proof fn lemma_psb_prepend_assoc(a: Seq<char>, b: Seq<char>, r: Option<(Seq<char>, Seq<char>)>)
    ensures
        psb_prepend(a, psb_prepend(b, r)) == psb_prepend(a + b, r),
{
    match r {
        Some((t, rest)) => {
            assert(a + (b + t) =~= (a + b) + t);
        },
        None => {},
    }
}

/// Reads a JSON string body starting at `i` (the opening quote already
/// consumed), up to and including the closing quote.
#[verifier::rlimit(30)]
fn parse_string_body_exec(v: &Vec<char>, i: usize) -> (r: Option<(Vec<char>, usize)>)
    requires
        i <= v.len(),
    ensures
        match r {
            Some((t, j)) => i <= j <= v.len() && parse_string_body(v@.skip(i as int)) == Some(
                (t@, v@.skip(j as int)),
            ),
            None => parse_string_body(v@.skip(i as int)) is None,
        },
{
    let mut acc: Vec<char> = Vec::new();
    let mut j = i;
    proof {
        lemma_psb_prepend_empty(parse_string_body(v@.skip(i as int)));
        assert(acc@ =~= Seq::<char>::empty());
    }
    loop
        invariant
            i <= j <= v.len(),
            parse_string_body(v@.skip(i as int)) == psb_prepend(
                acc@,
                parse_string_body(v@.skip(j as int)),
            ),
        decreases v.len() - j,
    {
        if j >= v.len() {
            proof {
                assert(v@.skip(j as int).len() == 0);
            }
            return None;
        }
        let c = v[j];
        proof {
            assert(v@.skip(j as int)[0] == c);
            assert(v@.skip(j as int).len() == v.len() - j);
        }
        if c == '"' {
            proof {
                assert(v@.skip(j as int).skip(1) =~= v@.skip(j as int + 1));
                assert(parse_string_body(v@.skip(j as int)) == Some(
                    (Seq::<char>::empty(), v@.skip(j as int + 1)),
                ));
                assert(acc@ + Seq::<char>::empty() =~= acc@);
            }
            return Some((acc, j + 1));
        } else if c == '\\' {
            if j + 1 >= v.len() {
                return None;
            }
            let e = v[j + 1];
            proof {
                assert(v@.skip(j as int)[1] == e);
            }
            if e == 'u' {
                if v.len() - j < 6 {
                    return None;
                }
                let h0 = hex_val_exec(v[j + 2]);
                let h1 = hex_val_exec(v[j + 3]);
                let h2 = hex_val_exec(v[j + 4]);
                let h3 = hex_val_exec(v[j + 5]);
                proof {
                    assert(v@.skip(j as int)[2] == v@[j as int + 2]);
                    assert(v@.skip(j as int)[3] == v@[j as int + 3]);
                    assert(v@.skip(j as int)[4] == v@[j as int + 4]);
                    assert(v@.skip(j as int)[5] == v@[j as int + 5]);
                }
                match (h0, h1, h2, h3) {
                    (Some(a), Some(b), Some(cc), Some(d)) => {
                        let code = ((a * 16 + b) * 16 + cc) * 16 + d;
                        match char_from_code(code) {
                            Some(ch) => {
                                let ghost pj = j as int;
                                let ghost pacc = acc@;
                                acc.push(ch);
                                j += 6;
                                proof {
                                    assert(v@.skip(pj).skip(6) =~= v@.skip(pj + 6));
                                    assert(parse_string_body(v@.skip(pj)) == psb_prepend(
                                        seq![ch],
                                        parse_string_body(v@.skip(pj + 6)),
                                    ));
                                    lemma_psb_prepend_assoc(
                                        pacc,
                                        seq![ch],
                                        parse_string_body(v@.skip(pj + 6)),
                                    );
                                    assert(pacc + seq![ch] =~= acc@);
                                }
                            },
                            None => {
                                return None;
                            },
                        }
                    },
                    _ => {
                        return None;
                    },
                }
            } else {
                match unescape_char_exec(e) {
                    Some(ch) => {
                        let ghost pj = j as int;
                        let ghost pacc = acc@;
                        acc.push(ch);
                        j += 2;
                        proof {
                            assert(v@.skip(pj).skip(2) =~= v@.skip(pj + 2));
                            assert(parse_string_body(v@.skip(pj)) == psb_prepend(
                                seq![ch],
                                parse_string_body(v@.skip(pj + 2)),
                            ));
                            lemma_psb_prepend_assoc(
                                pacc,
                                seq![ch],
                                parse_string_body(v@.skip(pj + 2)),
                            );
                            assert(pacc + seq![ch] =~= acc@);
                        }
                    },
                    None => {
                        return None;
                    },
                }
            }
        } else if (c as u32) < 32 {
            return None;
        } else {
            let ghost pj = j as int;
            let ghost pacc = acc@;
            acc.push(c);
            j += 1;
            proof {
                assert(v@.skip(pj).skip(1) =~= v@.skip(pj + 1));
                assert(parse_string_body(v@.skip(pj)) == psb_prepend(
                    seq![c],
                    parse_string_body(v@.skip(pj + 1)),
                ));
                lemma_psb_prepend_assoc(pacc, seq![c], parse_string_body(v@.skip(pj + 1)));
                assert(pacc + seq![c] =~= acc@);
            }
        }
    }
}

/// Whether the characters at `j` start with the quoted `timestamp` key.
fn match_ts_key(v: &Vec<char>, j: usize) -> (r: bool)
    requires
        j <= v.len(),
    ensures
        r == (v@.skip(j as int).len() >= 11 && v@.skip(j as int).take(11) == ts_key()),
{
    if v.len() - j < 11 {
        return false;
    }
    let m = v[j] == '"' && v[j + 1] == 't' && v[j + 2] == 'i' && v[j + 3] == 'm' && v[j + 4] == 'e'
        && v[j + 5] == 's' && v[j + 6] == 't' && v[j + 7] == 'a' && v[j + 8] == 'm' && v[j + 9]
        == 'p' && v[j + 10] == '"';
    proof {
        let s = v@.skip(j as int);
        if m {
            assert(s.take(11) =~= ts_key());
        }
        if s.take(11) == ts_key() {
            assert forall|k: int| 0 <= k < 11 implies s[k] == ts_key()[k] by {
                assert(s.take(11)[k] == s[k]);
            }
            assert(v@[j as int] == ts_key()[0]);
            assert(v@[j as int + 1] == ts_key()[1]);
            assert(v@[j as int + 2] == ts_key()[2]);
            assert(v@[j as int + 3] == ts_key()[3]);
            assert(v@[j as int + 4] == ts_key()[4]);
            assert(v@[j as int + 5] == ts_key()[5]);
            assert(v@[j as int + 6] == ts_key()[6]);
            assert(v@[j as int + 7] == ts_key()[7]);
            assert(v@[j as int + 8] == ts_key()[8]);
            assert(v@[j as int + 9] == ts_key()[9]);
            assert(v@[j as int + 10] == ts_key()[10]);
            assert(m);
        }
    }
    m
}

/// Whether the characters at `j` start with the quoted `text` key.
fn match_text_key(v: &Vec<char>, j: usize) -> (r: bool)
    requires
        j <= v.len(),
    ensures
        r == (v@.skip(j as int).len() >= 6 && v@.skip(j as int).take(6) == text_key()),
{
    if v.len() - j < 6 {
        return false;
    }
    let m = v[j] == '"' && v[j + 1] == 't' && v[j + 2] == 'e' && v[j + 3] == 'x' && v[j + 4] == 't'
        && v[j + 5] == '"';
    proof {
        let s = v@.skip(j as int);
        if m {
            assert(s.take(6) =~= text_key());
        }
        if s.take(6) == text_key() {
            assert forall|k: int| 0 <= k < 6 implies s[k] == text_key()[k] by {
                assert(s.take(6)[k] == s[k]);
            }
            assert(v@[j as int] == text_key()[0]);
            assert(v@[j as int + 1] == text_key()[1]);
            assert(v@[j as int + 2] == text_key()[2]);
            assert(v@[j as int + 3] == text_key()[3]);
            assert(v@[j as int + 4] == text_key()[4]);
            assert(v@[j as int + 5] == text_key()[5]);
            assert(m);
        }
    }
    m
}

/// Reads one entry object starting at `i`, leading whitespace allowed.
#[verifier::rlimit(60)]
fn parse_entry_exec(v: &Vec<char>, i: usize) -> (r: Option<(Entry, usize)>)
    requires
        i <= v.len(),
    ensures
        match r {
            Some((e, j)) => i <= j <= v.len() && parse_entry(v@.skip(i as int)) == Some(
                (e@, v@.skip(j as int)),
            ),
            None => parse_entry(v@.skip(i as int)) is None,
        },
{
    let ghost s = v@.skip(i as int);
    let j1 = skip_ws_exec(v, i);
    proof {
        assert(v@.skip(j1 as int) == skip_ws(s));
    }
    if j1 == v.len() {
        return None;
    }
    if v[j1] != '{' {
        proof {
            assert(skip_ws(s)[0] == v@[j1 as int]);
        }
        return None;
    }
    proof {
        assert(skip_ws(s)[0] == '{');
        assert(skip_ws(s).skip(1) =~= v@.skip(j1 as int + 1));
    }
    let j2 = skip_ws_exec(v, j1 + 1);
    if !match_ts_key(v, j2) {
        return None;
    }
    proof {
        assert(v@.skip(j2 as int).skip(11) =~= v@.skip(j2 as int + 11));
    }
    let j3 = skip_ws_exec(v, j2 + 11);
    if j3 == v.len() {
        return None;
    }
    if v[j3] != ':' {
        proof {
            assert(v@.skip(j3 as int)[0] == v@[j3 as int]);
        }
        return None;
    }
    proof {
        assert(v@.skip(j3 as int)[0] == ':');
        assert(v@.skip(j3 as int).skip(1) =~= v@.skip(j3 as int + 1));
    }
    let j4 = skip_ws_exec(v, j3 + 1);
    if j4 == v.len() {
        return None;
    }
    if v[j4] != '"' {
        proof {
            assert(v@.skip(j4 as int)[0] == v@[j4 as int]);
        }
        return None;
    }
    proof {
        assert(v@.skip(j4 as int)[0] == '"');
        assert(v@.skip(j4 as int).skip(1) =~= v@.skip(j4 as int + 1));
    }
    match parse_string_body_exec(v, j4 + 1) {
        None => {
            return None;
        },
        Some((ts_chars, k)) => {
            let k1 = skip_ws_exec(v, k);
            if k1 == v.len() {
                return None;
            }
            if v[k1] != ',' {
                proof {
                    assert(v@.skip(k1 as int)[0] == v@[k1 as int]);
                }
                return None;
            }
            proof {
                assert(v@.skip(k1 as int)[0] == ',');
                assert(v@.skip(k1 as int).skip(1) =~= v@.skip(k1 as int + 1));
            }
            let k2 = skip_ws_exec(v, k1 + 1);
            if !match_text_key(v, k2) {
                return None;
            }
            proof {
                assert(v@.skip(k2 as int).skip(6) =~= v@.skip(k2 as int + 6));
            }
            let k3 = skip_ws_exec(v, k2 + 6);
            if k3 == v.len() {
                return None;
            }
            if v[k3] != ':' {
                proof {
                    assert(v@.skip(k3 as int)[0] == v@[k3 as int]);
                }
                return None;
            }
            proof {
                assert(v@.skip(k3 as int)[0] == ':');
                assert(v@.skip(k3 as int).skip(1) =~= v@.skip(k3 as int + 1));
            }
            let k4 = skip_ws_exec(v, k3 + 1);
            if k4 == v.len() {
                return None;
            }
            if v[k4] != '"' {
                proof {
                    assert(v@.skip(k4 as int)[0] == v@[k4 as int]);
                }
                return None;
            }
            proof {
                assert(v@.skip(k4 as int)[0] == '"');
                assert(v@.skip(k4 as int).skip(1) =~= v@.skip(k4 as int + 1));
            }
            match parse_string_body_exec(v, k4 + 1) {
                None => {
                    return None;
                },
                Some((tx_chars, q)) => {
                    let q1 = skip_ws_exec(v, q);
                    if q1 == v.len() {
                        return None;
                    }
                    if v[q1] != '}' {
                        proof {
                            assert(v@.skip(q1 as int)[0] == v@[q1 as int]);
                        }
                        return None;
                    }
                    proof {
                        assert(v@.skip(q1 as int)[0] == '}');
                        assert(v@.skip(q1 as int).skip(1) =~= v@.skip(q1 as int + 1));
                    }
                    let e = Entry {
                        timestamp: chars_to_string(&ts_chars),
                        text: chars_to_string(&tx_chars),
                    };
                    return Some((e, q1 + 1));
                },
            }
        },
    }
}

/// Reads a non-empty object list followed by the closing bracket.
fn parse_entries_exec(v: &Vec<char>, i: usize) -> (r: Option<(Vec<Entry>, usize)>)
    requires
        i <= v.len(),
    ensures
        match r {
            Some((es, j)) => i <= j <= v.len() && parse_entries(v@.skip(i as int)) == Some(
                (models(es@), v@.skip(j as int)),
            ),
            None => parse_entries(v@.skip(i as int)) is None,
        },
    decreases v.len() - i,
{
    match parse_entry_exec(v, i) {
        None => None,
        Some((e, j)) => {
            let j1 = skip_ws_exec(v, j);
            if j1 < v.len() && v[j1] == ',' {
                proof {
                    assert(v@.skip(j1 as int)[0] == ',');
                    assert(v@.skip(j1 as int).skip(1) =~= v@.skip(j1 as int + 1));
                }
                let j2 = skip_ws_exec(v, j1 + 1);
                if j2 > i {
                    match parse_entries_exec(v, j2) {
                        Some((mut es, q)) => {
                            let ghost tail = es@;
                            es.insert(0, e);
                            proof {
                                assert(es@ =~= seq![e] + tail);
                                assert(models(es@) =~= seq![e@] + models(tail));
                            }
                            Some((es, q))
                        },
                        None => None,
                    }
                } else {
                    None
                }
            } else if j1 < v.len() && v[j1] == ']' {
                proof {
                    assert(v@.skip(j1 as int)[0] == ']');
                    assert(v@.skip(j1 as int).skip(1) =~= v@.skip(j1 as int + 1));
                }
                let es = vec![e];
                proof {
                    assert(models(es@) =~= seq![e@]);
                }
                Some((es, j1 + 1))
            } else {
                proof {
                    if j1 < v.len() {
                        assert(v@.skip(j1 as int)[0] == v@[j1 as int]);
                    }
                }
                None
            }
        },
    }
}

/// Reads a whole persisted document. `None` is a parse failure.
pub fn parse_history_json(s: &str) -> (r: Option<Vec<Entry>>)
    ensures
        match r {
            Some(es) => parse_document(s@) == Some(models(es@)),
            None => parse_document(s@) is None,
        },
{
    let v = str_to_chars(s);
    proof {
        assert(v@.skip(0) =~= s@);
    }
    let j1 = skip_ws_exec(&v, 0);
    if j1 == v.len() {
        return None;
    }
    if v[j1] != '[' {
        proof {
            assert(v@.skip(j1 as int)[0] == v@[j1 as int]);
        }
        return None;
    }
    proof {
        assert(v@.skip(j1 as int)[0] == '[');
        assert(v@.skip(j1 as int).skip(1) =~= v@.skip(j1 as int + 1));
    }
    let j2 = skip_ws_exec(&v, j1 + 1);
    if j2 < v.len() && v[j2] == ']' {
        proof {
            assert(v@.skip(j2 as int)[0] == ']');
            assert(v@.skip(j2 as int).skip(1) =~= v@.skip(j2 as int + 1));
        }
        let j3 = skip_ws_exec(&v, j2 + 1);
        if j3 == v.len() {
            let es: Vec<Entry> = Vec::new();
            proof {
                assert(models(es@) =~= Seq::<EntryModel>::empty());
            }
            return Some(es);
        } else {
            return None;
        }
    }
    proof {
        if j2 < v.len() {
            assert(v@.skip(j2 as int)[0] == v@[j2 as int]);
        }
    }
    match parse_entries_exec(&v, j2) {
        Some((es, q)) => {
            let q1 = skip_ws_exec(&v, q);
            if q1 == v.len() {
                Some(es)
            } else {
                None
            }
        },
        None => None,
    }
}

/// Escaping a string one character longer appends that character's escape.
proof fn lemma_escape_snoc(t: Seq<char>, c: char)
    ensures
        escape_string(t.push(c)) == escape_string(t) + escape_char(c),
    decreases t.len(),
{
    if t.len() == 0 {
        assert(t.push(c).len() == 1);
        assert(t.push(c)[0] == c);
        assert(t.push(c).skip(1) =~= Seq::<char>::empty());
        assert(escape_string(t.push(c)) == escape_char(c) + escape_string(Seq::<char>::empty()));
        assert(escape_string(Seq::<char>::empty()) == Seq::<char>::empty());
        assert(escape_char(c) + Seq::<char>::empty() =~= escape_char(c));
        assert(escape_string(t) + escape_char(c) =~= escape_char(c));
    } else {
        lemma_escape_snoc(t.skip(1), c);
        assert(t.push(c).skip(1) =~= t.skip(1).push(c));
        assert(t.push(c)[0] == t[0]);
        assert(escape_char(t[0]) + (escape_string(t.skip(1)) + escape_char(c)) =~= (escape_char(
            t[0],
        ) + escape_string(t.skip(1))) + escape_char(c));
    }
}

/// The lower-case hexadecimal digit character for a value below 16.
fn hex_digit_char(d: u32) -> (r: char)
    requires
        d < 16,
    ensures
        r == hex_digit(d as int),
{
    if d == 0 { '0' } else if d == 1 { '1' } else if d == 2 { '2' } else if d == 3 { '3' }
    else if d == 4 { '4' } else if d == 5 { '5' } else if d == 6 { '6' } else if d == 7 { '7' }
    else if d == 8 { '8' } else if d == 9 { '9' } else if d == 10 { 'a' } else if d == 11 { 'b' }
    else if d == 12 { 'c' } else if d == 13 { 'd' } else if d == 14 { 'e' } else { 'f' }
}

/// Appends the escaped form of `s` to `out`.
fn escape_into(out: &mut String, s: &str)
    ensures
        final(out)@ == old(out)@ + escape_string(s@),
{
    let n = s.unicode_len();
    proof {
        assert(out@ + escape_string(s@.take(0)) =~= out@);
    }
    let mut i: usize = 0;
    while i < n
        invariant
            i <= n,
            n == s@.len(),
            out@ == old(out)@ + escape_string(s@.take(i as int)),
        decreases n - i,
    {
        let ghost prev = out@;
        let c = s.get_char(i);
        if c == '"' {
            push_char(out, '\\');
            push_char(out, '"');
        } else if c == '\\' {
            push_char(out, '\\');
            push_char(out, '\\');
        } else if c == '\n' {
            push_char(out, '\\');
            push_char(out, 'n');
        } else if c == '\r' {
            push_char(out, '\\');
            push_char(out, 'r');
        } else if c == '\t' {
            push_char(out, '\\');
            push_char(out, 't');
        } else if (c as u32) < 32 {
            push_char(out, '\\');
            push_char(out, 'u');
            push_char(out, '0');
            push_char(out, '0');
            let v = c as u32;
            push_char(out, hex_digit_char(v / 16));
            push_char(out, hex_digit_char(v % 16));
        } else {
            push_char(out, c);
        }
        proof {
            assert(out@ =~= prev + escape_char(c));
            lemma_escape_snoc(s@.take(i as int), c);
            assert(s@.take(i as int + 1) =~= s@.take(i as int).push(c));
            assert(out@ =~= old(out)@ + escape_string(s@.take(i as int + 1)));
        }
        i += 1;
    }
    proof {
        assert(s@.take(n as int) =~= s@);
    }
}

/// One rendered entry object, brace to brace.
fn render_entry_core(e: &Entry) -> (r: String)
    ensures
        r@ == entry_core(e@),
{
    let mut s = String::from_str("{ \"timestamp\": \"");
    proof {
        reveal_strlit("{ \"timestamp\": \"");
        assert(s@ =~= seq!['{', ' '] + ts_key() + seq![':', ' ', '"']);
    }
    escape_into(&mut s, e.timestamp.as_str());
    s.append("\", \"text\": \"");
    proof {
        reveal_strlit("\", \"text\": \"");
        assert("\", \"text\": \""@ =~= seq!['"', ',', ' '] + text_key() + seq![':', ' ', '"']);
    }
    escape_into(&mut s, e.text.as_str());
    s.append("\" }");
    proof {
        reveal_strlit("\" }");
        assert("\" }"@ =~= seq!['"', ' ', '}']);
        assert(s@ =~= entry_core(e@));
    }
    s
}

/// Renders `,\n  ` plus the object for each entry from `i` on, then the
/// closing line.
fn render_tail_from(entries: &Vec<Entry>, i: usize) -> (r: String)
    requires
        i <= entries.len(),
    ensures
        r@ == render_tail(models(entries@).skip(i as int)),
    decreases entries.len() - i,
{
    if i == entries.len() {
        let s = String::from_str("\n]");
        proof {
            reveal_strlit("\n]");
            assert(models(entries@).skip(i as int) =~= Seq::<EntryModel>::empty());
            assert(s@ =~= seq!['\n', ']']);
        }
        s
    } else {
        let mut s = String::from_str(",\n  ");
        let core = render_entry_core(&entries[i]);
        s.append(core.as_str());
        let rest = render_tail_from(entries, i + 1);
        s.append(rest.as_str());
        proof {
            reveal_strlit(",\n  ");
            assert(",\n  "@ =~= seq![',', '\n', ' ', ' ']);
            let ghost ms = models(entries@);
            assert(ms.skip(i as int)[0] == entries@[i as int]@);
            assert(ms.skip(i as int).skip(1) =~= ms.skip(i as int + 1));
            assert(s@ =~= seq![',', '\n', ' ', ' '] + entry_core(ms.skip(i as int)[0])
                + render_tail(ms.skip(i as int).skip(1)));
        }
        s
    }
}

/// The canonical JSON rendering of the whole log, for persistence.
pub fn render_history_json(entries: &Vec<Entry>) -> (r: String)
    ensures
        r@ == render_document(models(entries@)),
{
    if entries.len() == 0 {
        let s = String::from_str("[]");
        proof {
            reveal_strlit("[]");
            assert(models(entries@).len() == 0);
            assert(s@ =~= seq!['[', ']']);
        }
        s
    } else {
        let mut s = String::from_str("[\n  ");
        let core = render_entry_core(&entries[0]);
        s.append(core.as_str());
        let rest = render_tail_from(entries, 1);
        s.append(rest.as_str());
        proof {
            reveal_strlit("[\n  ");
            assert("[\n  "@ =~= seq!['[', '\n', ' ', ' ']);
            let ghost ms = models(entries@);
            assert(ms[0] == entries@[0]@);
            assert(s@ =~= seq!['[', '\n', ' ', ' '] + entry_core(ms[0]) + render_tail(ms.skip(1)));
        }
        s
    }
}

/// Whether every character of `s` is whitespace.
pub open spec fn all_ws(s: Seq<char>) -> bool {
    forall|k: int| 0 <= k < s.len() ==> is_ws(s[k])
}

/// Skipping whitespace walks past any all-whitespace prefix.
proof fn lemma_skip_ws_concat(a: Seq<char>, b: Seq<char>)
    requires
        all_ws(a),
    ensures
        skip_ws(a + b) == skip_ws(b),
    decreases a.len(),
{
    if a.len() == 0 {
        assert(a + b =~= b);
    } else {
        assert((a + b)[0] == a[0]);
        assert(is_ws(a[0]));
        assert((a + b).skip(1) =~= a.skip(1) + b);
        lemma_skip_ws_concat(a.skip(1), b);
    }
}

/// Skipping whitespace stops at the first non-whitespace character.
proof fn lemma_skip_ws_past(a: Seq<char>, b: Seq<char>)
    requires
        all_ws(a),
        b.len() == 0 || !is_ws(b[0]),
    ensures
        skip_ws(a + b) == b,
{
    lemma_skip_ws_concat(a, b);
    assert(skip_ws(b) == b);
}

/// A hexadecimal digit character reads back as its value.
proof fn lemma_hex_digit_val(n: int)
    requires
        0 <= n < 16,
    ensures
        hex_val(hex_digit(n)) == Some(n),
{
}

/// The escaped form of any text, followed by the closing quote, parses
/// back to exactly that text.
proof fn lemma_parse_string_escaped(t: Seq<char>, rest: Seq<char>)
    ensures
        parse_string_body(escape_string(t) + seq!['"'] + rest) == Some((t, rest)),
    decreases t.len(),
{
    if t.len() == 0 {
        let s = escape_string(t) + seq!['"'] + rest;
        assert(s =~= seq!['"'] + rest);
        assert(s[0] == '"');
        assert(s.skip(1) =~= rest);
        assert(parse_string_body(s) == Some((Seq::<char>::empty(), rest)));
        assert(t =~= Seq::<char>::empty());
    } else {
        let c = t[0];
        let tail = escape_string(t.skip(1)) + seq!['"'] + rest;
        let s = escape_string(t) + seq!['"'] + rest;
        assert(s =~= escape_char(c) + tail);
        lemma_parse_string_escaped(t.skip(1), rest);
        if c == '"' || c == '\\' || c == '\n' || c == '\r' || c == '\t' {
            assert(escape_char(c).len() == 2);
            assert(s[0] == '\\');
            assert(s[1] == escape_char(c)[1]);
            assert(s[1] != 'u');
            assert(unescape_char(s[1]) == Some(c));
            assert(s.skip(2) =~= tail);
            assert(parse_string_body(s) == Some((seq![c] + t.skip(1), rest)));
            assert(seq![c] + t.skip(1) =~= t);
        } else if (c as u32) < 32 {
            let u = c as u32 as int;
            let n1 = u / 16;
            let n2 = u % 16;
            assert(escape_char(c) =~= seq!['\\', 'u', '0', '0', hex_digit(n1), hex_digit(n2)]);
            assert(s[0] == '\\');
            assert(s[1] == 'u');
            assert(s[2] == '0');
            assert(s[3] == '0');
            assert(s[4] == hex_digit(n1));
            assert(s[5] == hex_digit(n2));
            assert(s.len() >= 6);
            assert(hex_val('0') == Some(0int));
            lemma_hex_digit_val(n1);
            lemma_hex_digit_val(n2);
            vstd::arithmetic::div_mod::lemma_fundamental_div_mod(u, 16);
            let code = ((0int * 16 + 0int) * 16 + n1) * 16 + n2;
            assert(code == u);
            assert(valid_code(code));
            assert(s.skip(6) =~= tail);
            vstd::utf8::char_u32_cast(c, c as u32);
            assert(code as char == c);
            assert(parse_string_body(s) == Some((seq![c] + t.skip(1), rest)));
            assert(seq![c] + t.skip(1) =~= t);
        } else {
            assert(escape_char(c) =~= seq![c]);
            assert(s[0] == c);
            assert(s.skip(1) =~= tail);
            assert(parse_string_body(s) == Some((seq![c] + t.skip(1), rest)));
            assert(seq![c] + t.skip(1) =~= t);
        }
    }
}

/// A rendered entry object, after any whitespace, parses back to exactly
/// that entry, leaving exactly what followed it.
#[verifier::rlimit(100)]
proof fn lemma_parse_entry_rendered(e: EntryModel, ws: Seq<char>, rest: Seq<char>)
    requires
        all_ws(ws),
    ensures
        parse_entry(ws + entry_core(e) + rest) == Some((e, rest)),
{
    let s = ws + entry_core(e) + rest;
    let e1 = escape_string(e.timestamp);
    let e2 = escape_string(e.text);

    // The rendered object, token by token.
    let y1 = ts_key() + seq![':', ' ', '"'] + e1 + seq!['"', ',', ' '] + text_key()
        + seq![':', ' ', '"'] + e2 + seq!['"', ' ', '}'] + rest;
    let x1 = seq!['{'] + seq![' '] + y1;
    assert(s =~= ws + x1);
    assert(x1[0] == '{');
    lemma_skip_ws_past(ws, x1);
    assert(skip_ws(s) == x1);
    assert(x1.skip(1) =~= seq![' '] + y1);
    assert(y1[0] == '"');
    lemma_skip_ws_past(seq![' '], y1);

    // "timestamp" key, colon, opening quote.
    assert(y1.take(11) =~= ts_key());
    assert(y1.len() >= 11);
    let z1 = seq![':'] + seq![' '] + seq!['"'] + e1 + seq!['"', ',', ' '] + text_key()
        + seq![':', ' ', '"'] + e2 + seq!['"', ' ', '}'] + rest;
    assert(y1.skip(11) =~= z1);
    assert(z1[0] == ':');
    assert(skip_ws(z1) == z1);
    let z2 = seq!['"'] + e1 + seq!['"', ',', ' '] + text_key() + seq![':', ' ', '"'] + e2
        + seq!['"', ' ', '}'] + rest;
    assert(z1.skip(1) =~= seq![' '] + z2);
    assert(z2[0] == '"');
    lemma_skip_ws_past(seq![' '], z2);

    // The timestamp string body.
    let r1 = seq![','] + seq![' '] + text_key() + seq![':', ' ', '"'] + e2 + seq!['"', ' ', '}']
        + rest;
    assert(z2.skip(1) =~= e1 + seq!['"'] + r1);
    lemma_parse_string_escaped(e.timestamp, r1);
    assert(parse_string_body(z2.skip(1)) == Some((e.timestamp, r1)));

    // Comma, "text" key, colon, opening quote.
    assert(r1[0] == ',');
    assert(skip_ws(r1) == r1);
    let y2 = text_key() + seq![':', ' ', '"'] + e2 + seq!['"', ' ', '}'] + rest;
    assert(r1.skip(1) =~= seq![' '] + y2);
    assert(y2[0] == '"');
    lemma_skip_ws_past(seq![' '], y2);
    assert(y2.take(6) =~= text_key());
    assert(y2.len() >= 6);
    let z3 = seq![':'] + seq![' '] + seq!['"'] + e2 + seq!['"', ' ', '}'] + rest;
    assert(y2.skip(6) =~= z3);
    assert(z3[0] == ':');
    assert(skip_ws(z3) == z3);
    let z4 = seq!['"'] + e2 + seq!['"', ' ', '}'] + rest;
    assert(z3.skip(1) =~= seq![' '] + z4);
    assert(z4[0] == '"');
    lemma_skip_ws_past(seq![' '], z4);

    // The text string body and the closing brace.
    let r2 = seq![' '] + (seq!['}'] + rest);
    assert(z4.skip(1) =~= e2 + seq!['"'] + r2);
    lemma_parse_string_escaped(e.text, r2);
    assert(parse_string_body(z4.skip(1)) == Some((e.text, r2)));
    assert((seq!['}'] + rest)[0] == '}');
    lemma_skip_ws_past(seq![' '], seq!['}'] + rest);
    assert(skip_ws(r2) == seq!['}'] + rest);
    assert((seq!['}'] + rest).skip(1) =~= rest);

    assert(EntryModel { timestamp: e.timestamp, text: e.text } == e);
    assert(parse_entry(s) == Some((e, rest)));
}

/// A rendered non-empty object list, bracket included, parses back to
/// exactly those entries with nothing left over.
#[verifier::rlimit(60)]
proof fn lemma_parse_entries_rendered(es: Seq<EntryModel>)
    requires
        es.len() > 0,
    ensures
        parse_entries(entry_core(es[0]) + render_tail(es.skip(1))) == Some((es, Seq::<char>::empty())),
    decreases es.len(),
{
    let s = entry_core(es[0]) + render_tail(es.skip(1));
    if es.len() == 1 {
        let close = seq!['\n', ']'];
        assert(render_tail(es.skip(1)) == close);
        assert(s =~= Seq::<char>::empty() + entry_core(es[0]) + close);
        lemma_parse_entry_rendered(es[0], Seq::<char>::empty(), close);
        assert(parse_entry(s) == Some((es[0], close)));
        assert(close =~= seq!['\n'] + seq![']']);
        lemma_skip_ws_past(seq!['\n'], seq![']']);
        assert(skip_ws(close) == seq![']']);
        assert(seq![']'][0] == ']');
        assert(seq![']'].skip(1) =~= Seq::<char>::empty());
        assert(seq![es[0]] =~= es);
        assert(parse_entries(s) == Some((es, Seq::<char>::empty())));
    } else {
        let tail2 = render_tail(es.skip(1).skip(1));
        let core1 = entry_core(es.skip(1)[0]);
        assert(render_tail(es.skip(1)) == seq![',', '\n', ' ', ' '] + core1 + tail2);
        let r = seq![','] + (seq!['\n', ' ', ' '] + (core1 + tail2));
        assert(s =~= Seq::<char>::empty() + entry_core(es[0]) + r);
        lemma_parse_entry_rendered(es[0], Seq::<char>::empty(), r);
        assert(parse_entry(s) == Some((es[0], r)));
        assert(r[0] == ',');
        assert(skip_ws(r) == r);
        assert(core1[0] == '{');
        assert((core1 + tail2)[0] == '{');
        assert(r.skip(1) =~= seq!['\n', ' ', ' '] + (core1 + tail2));
        lemma_skip_ws_past(seq!['\n', ' ', ' '], core1 + tail2);
        assert(skip_ws(r.skip(1)) == core1 + tail2);
        assert((core1 + tail2).len() < s.len());
        lemma_parse_entries_rendered(es.skip(1));
        assert(entry_core(es.skip(1)[0]) + render_tail(es.skip(1).skip(1)) == core1 + tail2);
        assert(parse_entries(core1 + tail2) == Some((es.skip(1), Seq::<char>::empty())));
        assert(seq![es[0]] + es.skip(1) =~= es);
        assert(parse_entries(s) == Some((es, Seq::<char>::empty())));
    }
}

/// Persistence round-trip: parsing the rendering of any log yields exactly
/// that log. Together with the contracts of `render_history_json` and
/// `parse_history_json`, a fresh load of what was persisted equals the log
/// that was rendered.
pub proof fn lemma_render_parse_round_trip(es: Seq<EntryModel>)
    ensures
        parse_document(render_document(es)) == Some(es),
{
    let s = render_document(es);
    if es.len() == 0 {
        assert(s == seq!['[', ']']);
        assert(s[0] == '[');
        assert(skip_ws(s) == s);
        assert(s.skip(1) =~= seq![']']);
        assert(skip_ws(seq![']']) == seq![']']);
        assert(seq![']'][0] == ']');
        assert(seq![']'].skip(1) =~= Seq::<char>::empty());
        assert(skip_ws(Seq::<char>::empty()) == Seq::<char>::empty());
        assert(es =~= Seq::<EntryModel>::empty());
        assert(parse_document(s) == Some(es));
    } else {
        let core0 = entry_core(es[0]);
        let tail = render_tail(es.skip(1));
        assert(s == seq!['[', '\n', ' ', ' '] + core0 + tail);
        assert(s =~= seq!['['] + (seq!['\n', ' ', ' '] + (core0 + tail)));
        assert(s[0] == '[');
        assert(skip_ws(s) == s);
        assert(s.skip(1) =~= seq!['\n', ' ', ' '] + (core0 + tail));
        assert(core0[0] == '{');
        assert((core0 + tail)[0] == '{');
        lemma_skip_ws_past(seq!['\n', ' ', ' '], core0 + tail);
        assert(skip_ws(s.skip(1)) == core0 + tail);
        lemma_parse_entries_rendered(es);
        assert(parse_entries(core0 + tail) == Some((es, Seq::<char>::empty())));
        assert(skip_ws(Seq::<char>::empty()) == Seq::<char>::empty());
        assert(parse_document(s) == Some(es));
    }
}

} // verus!
