//! JSON text for strings and optional strings, in the compact form that
//! serde_json writes.

use vstd::prelude::*;

verus! {

/// The lower-case hexadecimal digit for `d < 16`.
pub open spec fn hex_digit(d: int) -> char {
    if d < 10 {
        (('0' as int) + d) as char
    } else {
        (('a' as int) + d - 10) as char
    }
}

/// How one character of a string is written inside a JSON string literal.
pub open spec fn escape_char(c: char) -> Seq<char> {
    if c == '"' {
        seq!['\\', '"']
    } else if c == '\\' {
        seq!['\\', '\\']
    } else if c == '\x08' {
        seq!['\\', 'b']
    } else if c == '\x0c' {
        seq!['\\', 'f']
    } else if c == '\n' {
        seq!['\\', 'n']
    } else if c == '\r' {
        seq!['\\', 'r']
    } else if c == '\t' {
        seq!['\\', 't']
    } else if (c as int) < 0x20 {
        seq!['\\', 'u', '0', '0', hex_digit((c as int) / 16), hex_digit((c as int) % 16)]
    } else {
        seq![c]
    }
}

/// The escaped body of a JSON string literal, without its quotes.
pub open spec fn escaped(s: Seq<char>) -> Seq<char>
    decreases s.len(),
{
    if s.len() == 0 {
        Seq::empty()
    } else {
        escape_char(s[0]) + escaped(s.drop_first())
    }
}

/// The JSON string literal for `s`.
pub open spec fn string_literal(s: Seq<char>) -> Seq<char> {
    seq!['"'] + escaped(s) + seq!['"']
}

/// Relies on serde_json::to_string on a `str`: the value is written as a
/// quoted literal, escaping `"`, `\` and the control characters below
/// U+0020 (the short forms `\b \f \n \r \t`, else `\u00xx` in lower-case
/// hex) and copying every other character. The writer is a `Vec<u8>`,
/// which never fails, so the result is always `Ok`.
#[verifier::external_body]
fn serde_string_literal(s: &str) -> (r: Result<String, serde_json::Error>)
    ensures
        r is Ok,
        r matches Ok(t) ==> t@ == string_literal(s@),
{
    serde_json::to_string(s)
}

/// serde_json's error type, which `serde_json::to_string` may return.
#[verifier::external_type_specification]
#[verifier::external_body]
pub struct ExJsonError(serde_json::Error);

/// The JSON string literal for `s`.
pub fn write_string_literal(s: &str) -> (r: String)
    ensures
        r@ == string_literal(s@),
{
    serde_string_literal(s).unwrap()
}


/// The characters of `s`, one by one.
pub fn chars_of(s: &str) -> (r: Vec<char>)
    ensures
        r@ == s@,
{
    broadcast use vstd::string::group_string_axioms;
    let mut v: Vec<char> = Vec::new();
    for c in it: s.chars()
        invariant
            it.seq() == s@,
            v@ == s@.take(it.index() as int),
    {
        v.push(c);
        assert(v@ =~= s@.take(it.index() + 1));
    }
    assert(v@ =~= s@);
    v
}


/// Relies on String::push: the character is appended at the end.
pub assume_specification[ String::push ](s: &mut String, ch: char)
    ensures
        final(s)@ == old(s)@.push(ch),
;

/// A lower-case hexadecimal digit, as written in a `\u00xx` escape.
pub open spec fn is_hex(h: char) -> bool {
    ('0' <= h && h <= '9') || ('a' <= h && h <= 'f')
}

/// The value of a hexadecimal digit.
pub open spec fn hex_value(h: char) -> int {
    if h <= '9' {
        (h as int) - ('0' as int)
    } else {
        (h as int) - ('a' as int) + 10
    }
}

/// Whether a control character has a two-character escape of its own.
pub open spec fn has_short_escape(code: int) -> bool {
    code == 0x08 || code == 0x09 || code == 0x0a || code == 0x0c || code == 0x0d
}

/// The character that the escape unit at the front of `u` stands for, and
/// the unit's length; `None` where `u` does not start with one.
pub open spec fn unit_at(u: Seq<char>) -> Option<(char, nat)> {
    if u.len() == 0 || u[0] == '"' || ' ' > u[0] {
        None
    } else if u[0] != '\\' {
        Some((u[0], 1))
    } else if u.len() < 2 {
        None
    } else if u[1] == '"' {
        Some(('"', 2))
    } else if u[1] == '\\' {
        Some(('\\', 2))
    } else if u[1] == 'b' {
        Some(('\x08', 2))
    } else if u[1] == 'f' {
        Some(('\x0c', 2))
    } else if u[1] == 'n' {
        Some(('\n', 2))
    } else if u[1] == 'r' {
        Some(('\r', 2))
    } else if u[1] == 't' {
        Some(('\t', 2))
    } else if u[1] == 'u' && u.len() >= 6 && u[2] == '0' && u[3] == '0' && is_hex(u[4])
        && is_hex(u[5]) && 16 * hex_value(u[4]) + hex_value(u[5]) < 0x20
        && !has_short_escape(16 * hex_value(u[4]) + hex_value(u[5])) {
        Some(((16 * hex_value(u[4]) + hex_value(u[5])) as char, 6))
    } else {
        None
    }
}

/// The string whose escaped body starts `u`, up to the closing quote, and
/// the body's length.
pub open spec fn body_at(u: Seq<char>) -> Option<(Seq<char>, nat)>
    decreases u.len(),
{
    if u.len() == 0 {
        None
    } else if u[0] == '"' {
        Some((Seq::empty(), 0))
    } else {
        match unit_at(u) {
            None => None,
            Some((c, n)) => match body_at(u.skip(n as int)) {
                None => None,
                Some((s, m)) => Some((seq![c] + s, n + m)),
            },
        }
    }
}

proof fn lemma_unit_of_escape(c: char, w: Seq<char>)
    ensures
        unit_at(escape_char(c) + w) == Some((c, escape_char(c).len())),
{
    let u = escape_char(c) + w;
    if (c as int) < 0x20 && !has_short_escape(c as int) {
        let hi = (c as int) / 16;
        let lo = (c as int) % 16;
        assert(u[4] == hex_digit(hi) && u[5] == hex_digit(lo));
        assert(hex_value(hex_digit(hi)) == hi);
        assert(hex_value(hex_digit(lo)) == lo);
    }
}

proof fn lemma_unit_sound(u: Seq<char>)
    ensures
        unit_at(u) matches Some((c, n)) ==> n <= u.len() && u.take(n as int) == escape_char(c),
{
    if let Some((c, n)) = unit_at(u) {
        if u[0] == '\\' && u[1] == 'u' {
            let code = 16 * hex_value(u[4]) + hex_value(u[5]);
            assert(code / 16 == hex_value(u[4]));
            assert(code % 16 == hex_value(u[5]));
            assert(hex_digit(hex_value(u[4])) == u[4]);
            assert(hex_digit(hex_value(u[5])) == u[5]);
        }
        assert(u.take(n as int) =~= escape_char(c));
    }
}

/// The escaped body of `s`, followed by a quote, reads back as `s`.
pub proof fn lemma_body_of_escaped(s: Seq<char>, rest: Seq<char>)
    ensures
        body_at(escaped(s) + seq!['"'] + rest) == Some((s, escaped(s).len())),
    decreases s.len(),
{
    let u = escaped(s) + seq!['"'] + rest;
    if s.len() == 0 {
        assert(u[0] == '"');
    } else {
        let c = s[0];
        let w = escaped(s.drop_first()) + seq!['"'] + rest;
        assert(u =~= escape_char(c) + w);
        lemma_unit_of_escape(c, w);
        assert(u[0] != '"');
        assert(u.skip(escape_char(c).len() as int) =~= w);
        lemma_body_of_escaped(s.drop_first(), rest);
        assert(seq![c] + s.drop_first() =~= s);
    }
}

/// What `body_at` reads is the escaped body of its result, and a quote
/// follows it.
pub proof fn lemma_body_sound(u: Seq<char>)
    ensures
        body_at(u) matches Some((s, m)) ==> m < u.len() && u[m as int] == '"' && u.take(
            m as int,
        ) == escaped(s),
    decreases u.len(),
{
    if u.len() > 0 && u[0] != '"' {
        if let Some((c, n)) = unit_at(u) {
            lemma_unit_sound(u);
            let v = u.skip(n as int);
            lemma_body_sound(v);
            if let Some((s, m)) = body_at(v) {
                let r = seq![c] + s;
                assert(r.drop_first() =~= s);
                assert(u.take((n + m) as int) =~= u.take(n as int) + v.take(m as int));
            }
        }
    } else if u.len() > 0 {
        assert(u.take(0) =~= escaped(Seq::empty()));
    }
}

/// Reads one escape unit of `t` at position `p`.
fn read_unit(t: &Vec<char>, p: usize) -> (r: Option<(char, usize)>)
    requires
        p <= t.len(),
    ensures
        r is Some <==> unit_at(t@.skip(p as int)) is Some,
        r matches Some((c, n)) ==> unit_at(t@.skip(p as int)) == Some((c, n as nat)),
{
    let ghost u = t@.skip(p as int);
    let len = t.len();
    assert(u.len() == len - p);
    assert(forall|i: int| 0 <= i && i < u.len() ==> u[i] == t@[p + i]);
    if p == len {
        return None;
    }
    let first = t[p];
    if first == '"' || ' ' > first {
        return None;
    }
    if first != '\\' {
        return Some((first, 1));
    }
    if len - p < 2 {
        return None;
    }
    let e = t[p + 1];
    if e == '"' {
        Some(('"', 2))
    } else if e == '\\' {
        Some(('\\', 2))
    } else if e == 'b' {
        Some(('\x08', 2))
    } else if e == 'f' {
        Some(('\x0c', 2))
    } else if e == 'n' {
        Some(('\n', 2))
    } else if e == 'r' {
        Some(('\r', 2))
    } else if e == 't' {
        Some(('\t', 2))
    } else if e == 'u' && len - p >= 6 && t[p + 2] == '0' && t[p + 3] == '0' {
        let hi = match hex_digit_value(t[p + 4]) {
            Some(v) => v,
            None => return None,
        };
        let lo = match hex_digit_value(t[p + 5]) {
            Some(v) => v,
            None => return None,
        };
        if hi > 1 {
            return None;
        }
        let code: u8 = 16 * hi + lo;
        if code == 0x08 || code == 0x09 || code == 0x0a || code == 0x0c || code == 0x0d {
            return None;
        }
        Some((code as char, 6))
    } else {
        None
    }
}

fn hex_digit_value(h: char) -> (r: Option<u8>)
    ensures
        r is Some <==> is_hex(h),
        r matches Some(v) ==> v as int == hex_value(h) && v < 16,
{
    if '0' <= h && h <= '9' {
        Some(((h as u32) - ('0' as u32)) as u8)
    } else if 'a' <= h && h <= 'f' {
        Some(((h as u32) - ('a' as u32) + 10) as u8)
    } else {
        None
    }
}

/// The string literal that starts `u`, and its length with both quotes.
pub open spec fn literal_at(u: Seq<char>) -> Option<(Seq<char>, nat)> {
    if u.len() > 0 && u[0] == '"' {
        match body_at(u.drop_first()) {
            None => None,
            Some((s, m)) => Some((s, m + 2)),
        }
    } else {
        None
    }
}

/// A string literal reads back as the string it was written for.
pub proof fn lemma_literal_complete(s: Seq<char>, rest: Seq<char>)
    ensures
        literal_at(string_literal(s) + rest) == Some((s, string_literal(s).len())),
{
    let u = string_literal(s) + rest;
    assert(u.drop_first() =~= escaped(s) + seq!['"'] + rest);
    lemma_body_of_escaped(s, rest);
}

/// What `literal_at` reads is the string literal of its result.
pub proof fn lemma_literal_sound(u: Seq<char>)
    ensures
        literal_at(u) matches Some((s, n)) ==> n <= u.len() && u.take(n as int)
            == string_literal(s),
{
    if u.len() > 0 && u[0] == '"' {
        let v = u.drop_first();
        lemma_body_sound(v);
        if let Some((s, m)) = body_at(v) {
            assert(u.take((m + 2) as int) =~= seq!['"'] + v.take(m as int) + seq!['"']);
        }
    }
}

spec fn prepended(o: Seq<char>, n: int, r: Option<(Seq<char>, nat)>) -> Option<(Seq<char>, nat)> {
    match r {
        None => None,
        Some((s, m)) => Some((o + s, (n + m) as nat)),
    }
}

/// Reads the string literal of `t` that starts at position `p`; gives the
/// string and the position just past the closing quote.
pub fn read_string(t: &Vec<char>, p: usize) -> (r: Option<(String, usize)>)
    requires
        p <= t.len(),
    ensures
        r is Some <==> literal_at(t@.skip(p as int)) is Some,
        r matches Some((s, q)) ==> p <= q <= t.len() && literal_at(t@.skip(p as int)) == Some(
            (s@, (q - p) as nat),
        ),
{
    let len = t.len();
    if p == len || t[p] != '"' {
        return None;
    }
    let start = p + 1;
    assert(t@.skip(p as int)[0] == '"');
    assert(t@.skip(p as int).drop_first() =~= t@.skip(start as int));
    let mut out = String::new();
    let mut q = start;
    while q < len
        invariant
            start <= q <= len,
            len == t.len(),
            start == p + 1,
            t@.skip(p as int).len() > 0,
            t@.skip(p as int)[0] == '"',
            t@.skip(p as int).drop_first() == t@.skip(start as int),
            body_at(t@.skip(start as int)) == prepended(out@, q - start, body_at(t@.skip(q as int))),
        decreases len - q,
    {
        assert(t@.skip(q as int)[0] == t@[q as int]);
        if t[q] == '"' {
            assert(body_at(t@.skip(q as int)) == Some((Seq::<char>::empty(), 0nat)));
            assert(out@ + Seq::<char>::empty() =~= out@);
            return Some((out, q + 1));
        }
        match read_unit(t, q) {
            None => {
                return None;
            },
            Some((c, n)) => {
                let ghost before = out@;
                assert(t@.skip(q as int).skip(n as int) =~= t@.skip((q + n) as int));
                out.push(c);
                assert(forall|w: Seq<char>| before + (seq![c] + w) =~= out@ + w);
                q = q + n;
            },
        }
    }
    None
}

/// The JSON text of an optional string: `null`, or its string literal.
pub open spec fn value_text(v: Option<Seq<char>>) -> Seq<char> {
    match v {
        None => "null"@,
        Some(s) => string_literal(s),
    }
}

/// An object member `"name":value` followed by the separator `sep`.
#[verifier::opaque]
pub open spec fn field_text(name: Seq<char>, v: Option<Seq<char>>, sep: char) -> Seq<char> {
    string_literal(name) + seq![':'] + value_text(v) + seq![sep]
}

/// The optional string whose JSON text starts `u`, and that text's length.
pub open spec fn value_at(u: Seq<char>) -> Option<(Option<Seq<char>>, nat)> {
    if "null"@.is_prefix_of(u) {
        Some((None, 4))
    } else {
        match literal_at(u) {
            None => None,
            Some((s, n)) => Some((Some(s), n)),
        }
    }
}

/// The value of the member `name` that starts `u` with its separator
/// `sep`, and the length of both.
#[verifier::opaque]
pub open spec fn field_at(u: Seq<char>, name: Seq<char>, sep: char) -> Option<
    (Option<Seq<char>>, nat),
> {
    let key = string_literal(name) + seq![':'];
    if key.is_prefix_of(u) {
        match value_at(u.skip(key.len() as int)) {
            None => None,
            Some((v, n)) => {
                let end = key.len() + n;
                if end < u.len() && u[end as int] == sep {
                    Some((v, end + 1))
                } else {
                    None
                }
            },
        }
    } else {
        None
    }
}

pub proof fn lemma_field_complete(name: Seq<char>, v: Option<Seq<char>>, sep: char, rest: Seq<char>)
    ensures
        field_at(field_text(name, v, sep) + rest, name, sep) == Some(
            (v, field_text(name, v, sep).len()),
        ),
{
    reveal_strlit("null");
    reveal(field_at);
    reveal(field_text);
    let key = string_literal(name) + seq![':'];
    let u = field_text(name, v, sep) + rest;
    let w = value_text(v) + (seq![sep] + rest);
    assert(u =~= key + w);
    assert(u.skip(key.len() as int) =~= w);
    assert(key.is_prefix_of(u));
    match v {
        None => {
            assert("null"@.is_prefix_of(w));
        },
        Some(s) => {
            lemma_literal_complete(s, seq![sep] + rest);
            assert(w[0] == '"');
            if "null"@.is_prefix_of(w) {
                assert("null"@[0] == w.subrange(0, 4)[0]);
            }
        },
    }
    assert(u[(key.len() + value_text(v).len()) as int] == sep);
}

pub proof fn lemma_field_sound(u: Seq<char>, name: Seq<char>, sep: char)
    ensures
        field_at(u, name, sep) matches Some((v, n)) ==> n <= u.len() && u.take(n as int)
            == field_text(name, v, sep),
{
    reveal_strlit("null");
    reveal(field_at);
    reveal(field_text);
    let key = string_literal(name) + seq![':'];
    if let Some((v, n)) = field_at(u, name, sep) {
        let w = u.skip(key.len() as int);
        lemma_literal_sound(w);
        let (_, m) = value_at(w)->Some_0;
        assert(w.take(m as int) == value_text(v));
        assert(u.take(n as int) =~= key + w.take(m as int) + seq![sep]);
    }
}

/// Whether the characters of `w` stand in `t` from position `p` on.
pub fn matches_at(t: &Vec<char>, p: usize, w: &Vec<char>) -> (r: bool)
    requires
        p <= t.len(),
    ensures
        r == w@.is_prefix_of(t@.skip(p as int)),
{
    if w.len() > t.len() - p {
        return false;
    }
    let mut i: usize = 0;
    while i < w.len()
        invariant
            i <= w.len(),
            p + w.len() <= t.len(),
            forall|j: int| 0 <= j && j < i ==> w@[j] == t@[p + j],
        decreases w.len() - i,
    {
        if w[i] != t[p + i] {
            assert(w@[i as int] != t@.skip(p as int)[i as int]);
            return false;
        }
        i = i + 1;
    }
    assert(w@ =~= t@.skip(p as int).subrange(0, w@.len() as int));
    true
}

fn read_value(t: &Vec<char>, p: usize) -> (r: Option<(Option<String>, usize)>)
    requires
        p <= t.len(),
    ensures
        r is Some <==> value_at(t@.skip(p as int)) is Some,
        r matches Some((v, q)) ==> p <= q <= t.len() && value_at(t@.skip(p as int)) == Some(
            (opt_view(v), (q - p) as nat),
        ),
{
    let null = chars_of("null");
    if matches_at(t, p, &null) {
        proof {
            reveal_strlit("null");
        }
        return Some((None, p + 4));
    }
    match read_string(t, p) {
        None => None,
        Some((s, q)) => Some((Some(s), q)),
    }
}

/// Reads the member `name` of an object at position `p`, with the separator
/// `sep` that follows it; gives its value and the position past `sep`.
pub fn read_field(t: &Vec<char>, p: usize, name: &str, sep: char) -> (r: Option<
    (Option<String>, usize),
>)
    requires
        p <= t.len(),
    ensures
        r is Some <==> field_at(t@.skip(p as int), name@, sep) is Some,
        r matches Some((v, q)) ==> p <= q <= t.len() && field_at(t@.skip(p as int), name@, sep) == Some(
            (opt_view(v), (q - p) as nat),
        ),
{
    let ghost u = t@.skip(p as int);
    proof { reveal(field_at); }
    let mut key = write_string_literal(name);
    key.push(':');
    let key = chars_of(key.as_str());
    if !matches_at(t, p, &key) {
        return None;
    }
    let at = p + key.len();
    assert(u.skip(key@.len() as int) =~= t@.skip(at as int));
    match read_value(t, at) {
        None => None,
        Some((v, q)) => {
            if q < t.len() && t[q] == sep {
                assert(u[q - p] == t@[q as int]);
                Some((v, q + 1))
            } else {
                None
            }
        },
    }
}

/// The view of an optional string.
pub open spec fn opt_view(o: Option<String>) -> Option<Seq<char>> {
    match o {
        None => None,
        Some(s) => Some(s@),
    }
}

} // verus!
