use vstd::prelude::*;

use crate::dates::push_char;
use crate::models::{ApiConfig, ConfigModel};

verus! {

/// The lowercase hexadecimal digit for `n`.
pub open spec fn hex_digit(n: int) -> char
    recommends
        0 <= n < 16,
{
    if n < 10 {
        ((48 + n) as u32) as char
    } else {
        ((87 + n) as u32) as char
    }
}

/// A lowercase hexadecimal digit character.
pub open spec fn is_lhex(c: char) -> bool {
    (48 <= c as u32 && c as u32 <= 57) || (97 <= c as u32 && c as u32 <= 102)
}

/// The value of a lowercase hexadecimal digit.
pub open spec fn hex_val(c: char) -> int
    recommends
        is_lhex(c),
{
    if c as u32 <= 57 {
        c as u32 - 48
    } else {
        c as u32 - 87
    }
}

/// The character a one-letter escape stands for, exactly serde_json's
/// set: quote, backslash, and the five control characters with short
/// forms.
pub open spec fn short_unescape(e: char) -> Option<char> {
    if e == '"' {
        Some('"')
    } else if e == '\\' {
        Some('\\')
    } else if e == 'b' {
        Some((8u32 as char))
    } else if e == 't' {
        Some((9u32 as char))
    } else if e == 'n' {
        Some((10u32 as char))
    } else if e == 'f' {
        Some((12u32 as char))
    } else if e == 'r' {
        Some((13u32 as char))
    } else {
        None
    }
}

/// The control characters serde_json writes with a one-letter escape.
pub open spec fn has_short_escape(v: int) -> bool {
    v == 8 || v == 9 || v == 10 || v == 12 || v == 13
}

/// How one character stands inside a JSON string literal, exactly as
/// serde_json renders it: quote and backslash escaped, the five usual
/// control characters as their short escapes, the other control
/// characters as `\u00xy` with lowercase hex, all else itself.
pub open spec fn esc(c: char) -> Seq<char> {
    if c == '"' {
        seq!['\\', '"']
    } else if c == '\\' {
        seq!['\\', '\\']
    } else if c as u32 == 8 {
        seq!['\\', 'b']
    } else if c as u32 == 9 {
        seq!['\\', 't']
    } else if c as u32 == 10 {
        seq!['\\', 'n']
    } else if c as u32 == 12 {
        seq!['\\', 'f']
    } else if c as u32 == 13 {
        seq!['\\', 'r']
    } else if (c as u32) < 32 {
        seq!['\\', 'u', '0', '0', hex_digit(c as u32 as int / 16), hex_digit(c as u32 as int % 16)]
    } else {
        seq![c]
    }
}

/// The body of the JSON string literal for `s`, without the quotes.
pub open spec fn escape_str(s: Seq<char>) -> Seq<char>
    decreases s.len(),
{
    if s.len() == 0 {
        Seq::empty()
    } else {
        esc(s[0]) + escape_str(s.skip(1))
    }
}

/// Reads a JSON string literal body up to its closing quote: the decoded
/// characters and what follows the quote, or nothing if the text is not
/// exactly an escaped body. Only the canonical escapes of `esc` are
/// accepted.
pub open spec fn parse_str(s: Seq<char>) -> Option<(Seq<char>, Seq<char>)>
    decreases s.len(),
{
    if s.len() == 0 {
        None
    } else if s[0] == '"' {
        Some((Seq::empty(), s.skip(1)))
    } else if s[0] == '\\' {
        if s.len() < 2 {
            None
        } else if s[1] == 'u' {
            if s.len() < 6 {
                None
            } else if s[2] == '0' && s[3] == '0' && is_lhex(s[4]) && is_lhex(s[5]) && hex_val(s[4])
                * 16 + hex_val(s[5]) < 32 && !has_short_escape(
                hex_val(s[4]) * 16 + hex_val(s[5]),
            ) {
                match parse_str(s.skip(6)) {
                    Some(p) => Some(
                        (seq![(((hex_val(s[4]) * 16 + hex_val(s[5])) as u32) as char)] + p.0, p.1),
                    ),
                    None => None,
                }
            } else {
                None
            }
        } else {
            match short_unescape(s[1]) {
                Some(c) => match parse_str(s.skip(2)) {
                    Some(p) => Some((seq![c] + p.0, p.1)),
                    None => None,
                },
                None => None,
            }
        }
    } else if (s[0] as u32) < 32 {
        None
    } else {
        match parse_str(s.skip(1)) {
            Some(p) => Some((seq![s[0]] + p.0, p.1)),
            None => None,
        }
    }
}

/// `hex_digit` lands on a lowercase hexadecimal digit and `hex_val`
/// reads it back.
proof fn lemma_hex_digit_val(n: int)
    requires
        0 <= n < 16,
    ensures
        is_lhex(hex_digit(n)),
        hex_val(hex_digit(n)) == n,
{
    if n < 10 {
        assert(hex_digit(n) as u32 == 48 + n) by {
            vstd::utf8::char_u32_cast(hex_digit(n), hex_digit(n) as u32);
            assert(((48 + n) as u32) < 0xD800);
        }
    } else {
        assert(hex_digit(n) as u32 == 87 + n) by {
            vstd::utf8::char_u32_cast(hex_digit(n), hex_digit(n) as u32);
            assert(((87 + n) as u32) < 0xD800);
        }
    }
}

/// Reading the escaped body of `s` followed by a closing quote yields
/// `s` exactly and leaves `rest`.
pub proof fn lemma_parse_escaped(s: Seq<char>, rest: Seq<char>)
    ensures
        parse_str(escape_str(s) + seq!['"'] + rest) == Some((s, rest)),
    decreases s.len(),
{
    let t = escape_str(s) + seq!['"'] + rest;
    if s.len() == 0 {
        assert(t =~= seq!['"'] + rest);
        assert(t[0] == '"');
        assert(t.skip(1) =~= rest);
    } else {
        lemma_parse_escaped(s.skip(1), rest);
        let c = s[0];
        let t1 = escape_str(s.skip(1)) + seq!['"'] + rest;
        assert(escape_str(s) == esc(c) + escape_str(s.skip(1)));
        if c == '"' || c == '\\' || c as u32 == 8 || c as u32 == 9 || c as u32 == 10 || c as u32
            == 12 || c as u32 == 13 {
            let e = esc(c)[1];
            assert(t =~= seq!['\\', e] + t1);
            assert(t[0] == '\\' && t[1] == e);
            assert(e != 'u');
            assert(short_unescape(e) == Some(c)) by {
                vstd::utf8::char_u32_cast(c, c as u32);
            }
            assert(t.skip(2) =~= t1);
            assert(seq![c] + s.skip(1) =~= s);
        } else if (c as u32) < 32 {
            let v = c as u32 as int;
            let h1 = hex_digit(v / 16);
            let h2 = hex_digit(v % 16);
            lemma_hex_digit_val(v / 16);
            lemma_hex_digit_val(v % 16);
            assert(t =~= seq!['\\', 'u', '0', '0', h1, h2] + t1);
            assert(t[0] == '\\' && t[1] == 'u' && t[2] == '0' && t[3] == '0');
            assert(t[4] == h1 && t[5] == h2);
            assert(hex_val(t[4]) * 16 + hex_val(t[5]) == v);
            assert((v as u32) as char == c) by {
                vstd::utf8::char_u32_cast(c, c as u32);
            }
            assert(t.skip(6) =~= t1);
            assert(seq![c] + s.skip(1) =~= s);
        } else {
            assert(t =~= seq![c] + t1);
            assert(t[0] == c);
            assert(t[0] != '"' && t[0] != '\\');
            assert(t.skip(1) =~= t1);
            assert(seq![c] + s.skip(1) =~= s);
        }
    }
}

/// Whatever `parse_str` reads was exactly the escaped body of its
/// result: the codec accepts nothing but its own output.
pub proof fn lemma_parse_sound(t: Seq<char>)
    ensures
        parse_str(t) matches Some(p) ==> t == escape_str(p.0) + seq!['"'] + p.1,
    decreases t.len(),
{
    if parse_str(t) is Some {
        let p = parse_str(t)->0;
        if t[0] == '"' {
            assert(p.0 =~= Seq::<char>::empty());
            assert(escape_str(p.0) + seq!['"'] + p.1 =~= t);
        } else if t[0] == '\\' {
            if t[1] != 'u' {
                let c = short_unescape(t[1])->0;
                lemma_parse_sound(t.skip(2));
                let q = parse_str(t.skip(2))->0;
                assert(t.skip(2) == escape_str(q.0) + seq!['"'] + q.1);
                assert(p.0 == seq![c] + q.0);
                assert(escape_str(p.0) == esc(c) + escape_str(q.0)) by {
                    assert(p.0[0] == c);
                    assert(p.0.skip(1) =~= q.0);
                }
                assert(esc(c) =~= seq![t[0], t[1]]) by {
                    vstd::utf8::char_u32_cast(c, c as u32);
                }
                assert(t =~= seq![t[0], t[1]] + t.skip(2));
                assert(p.1 == q.1);
                assert(escape_str(p.0) + seq!['"'] + p.1 =~= t);
            } else {
                // the `\u00xy` form
                lemma_parse_sound(t.skip(6));
                let q = parse_str(t.skip(6))->0;
                assert(t.skip(6) == escape_str(q.0) + seq!['"'] + q.1);
                let v = hex_val(t[4]) * 16 + hex_val(t[5]);
                let c = (v as u32) as char;
                assert(c as u32 == v) by {
                    vstd::utf8::char_u32_cast(c, c as u32);
                    assert(0 <= v < 32);
                }
                lemma_hex_val_digit(t[4]);
                lemma_hex_val_digit(t[5]);
                assert(hex_digit(v / 16) == t[4] && hex_digit(v % 16) == t[5]) by {
                    assert(v / 16 == hex_val(t[4]) && v % 16 == hex_val(t[5]));
                }
                assert(esc(c) =~= seq!['\\', 'u', '0', '0', t[4], t[5]]);
                assert(p.0 == seq![c] + q.0);
                assert(escape_str(p.0) == esc(c) + escape_str(q.0)) by {
                    assert(p.0[0] == c);
                    assert(p.0.skip(1) =~= q.0);
                }
                assert(esc(c) =~= seq![t[0], t[1], t[2], t[3], t[4], t[5]]);
                assert(t =~= seq![t[0], t[1], t[2], t[3], t[4], t[5]] + t.skip(6));
                assert(p.1 == q.1);
                assert(escape_str(p.0) + seq!['"'] + p.1 =~= t);
            }
        } else {
            lemma_parse_sound(t.skip(1));
            let q = parse_str(t.skip(1))->0;
            assert(t.skip(1) == escape_str(q.0) + seq!['"'] + q.1);
            assert(p.0 == seq![t[0]] + q.0);
            assert(esc(t[0]) =~= seq![t[0]]);
            assert(escape_str(p.0) == esc(t[0]) + escape_str(q.0)) by {
                assert(p.0[0] == t[0]);
                assert(p.0.skip(1) =~= q.0);
            }
            assert(t =~= seq![t[0]] + t.skip(1));
            assert(p.1 == q.1);
            assert(escape_str(p.0) + seq!['"'] + p.1 =~= t);
        }
    }
}

/// `hex_val` inverts onto `hex_digit` for lowercase digits.
proof fn lemma_hex_val_digit(c: char)
    requires
        is_lhex(c),
    ensures
        0 <= hex_val(c) < 16,
        hex_digit(hex_val(c)) == c,
{
    vstd::utf8::char_u32_cast(c, c as u32);
}

/// Escaping one more character appends its escape.
proof fn lemma_escape_snoc(a: Seq<char>, x: char)
    ensures
        escape_str(a.push(x)) == escape_str(a) + esc(x),
    decreases a.len(),
{
    if a.len() == 0 {
        assert(a.push(x).len() == 1);
        assert(a.push(x)[0] == x);
        assert(a.push(x).skip(1) =~= Seq::<char>::empty());
        assert(escape_str(Seq::<char>::empty()) == Seq::<char>::empty());
        assert(escape_str(a) == Seq::<char>::empty());
        assert(escape_str(a.push(x)) == esc(x) + escape_str(Seq::<char>::empty()));
        assert(escape_str(a.push(x)) =~= escape_str(a) + esc(x));
    } else {
        lemma_escape_snoc(a.skip(1), x);
        assert(a.push(x)[0] == a[0]);
        assert(a.push(x).skip(1) =~= a.skip(1).push(x));
        assert(escape_str(a.push(x)) == esc(a[0]) + (escape_str(a.skip(1)) + esc(x)));
        assert(esc(a[0]) + (escape_str(a.skip(1)) + esc(x))
            =~= (esc(a[0]) + escape_str(a.skip(1))) + esc(x));
    }
}

fn hex_digit_of(n: u8) -> (r: char)
    requires
        n < 16,
    ensures
        r == hex_digit(n as int),
{
    if n < 10 {
        (48 + n) as char
    } else {
        (87 + n) as char
    }
}

fn is_lhex_of(c: char) -> (r: bool)
    ensures
        r == is_lhex(c),
{
    let u = c as u32;
    (48 <= u && u <= 57) || (97 <= u && u <= 102)
}

fn hex_val_of(c: char) -> (r: u8)
    requires
        is_lhex(c),
    ensures
        r as int == hex_val(c),
{
    let u = c as u32;
    if u <= 57 {
        (u - 48) as u8
    } else {
        (u - 87) as u8
    }
}

fn short_unescape_of(e: char) -> (r: Option<char>)
    ensures
        r == short_unescape(e),
{
    if e == '"' {
        Some('"')
    } else if e == '\\' {
        Some('\\')
    } else if e == 'b' {
        Some(8u8 as char)
    } else if e == 't' {
        Some(9u8 as char)
    } else if e == 'n' {
        Some(10u8 as char)
    } else if e == 'f' {
        Some(12u8 as char)
    } else if e == 'r' {
        Some(13u8 as char)
    } else {
        None
    }
}

/// Renders the body of the JSON string literal for `s`.
pub(crate) fn escape_to_json(s: &str) -> (r: String)
    ensures
        r@ == escape_str(s@),
{
    let n = s.unicode_len();
    let mut out = String::new();
    let mut i: usize = 0;
    proof {
        assert(s@.take(0) =~= Seq::<char>::empty());
        assert(out@ =~= escape_str(s@.take(0)));
    }
    while i < n
        invariant
            i <= n,
            n == s@.len(),
            out@ == escape_str(s@.take(i as int)),
        decreases n - i,
    {
        let c = s.get_char(i);
        proof {
            lemma_escape_snoc(s@.take(i as int), c);
            assert(s@.take(i as int).push(c) =~= s@.take(i as int + 1));
        }
        if c == '"' {
            push_char(&mut out, '\\');
            push_char(&mut out, '"');
        } else if c == '\\' {
            push_char(&mut out, '\\');
            push_char(&mut out, '\\');
        } else if c as u32 == 8 {
            push_char(&mut out, '\\');
            push_char(&mut out, 'b');
        } else if c as u32 == 9 {
            push_char(&mut out, '\\');
            push_char(&mut out, 't');
        } else if c as u32 == 10 {
            push_char(&mut out, '\\');
            push_char(&mut out, 'n');
        } else if c as u32 == 12 {
            push_char(&mut out, '\\');
            push_char(&mut out, 'f');
        } else if c as u32 == 13 {
            push_char(&mut out, '\\');
            push_char(&mut out, 'r');
        } else if (c as u32) < 32 {
            let u = c as u32;
            push_char(&mut out, '\\');
            push_char(&mut out, 'u');
            push_char(&mut out, '0');
            push_char(&mut out, '0');
            push_char(&mut out, hex_digit_of((u / 16) as u8));
            push_char(&mut out, hex_digit_of((u % 16) as u8));
        } else {
            push_char(&mut out, c);
        }
        proof {
            assert(out@ =~= escape_str(s@.take(i as int)) + esc(c));
        }
        i = i + 1;
    }
    proof {
        assert(s@.take(n as int) =~= s@);
    }
    out
}

/// Reads a JSON string literal body starting at character `from`: the
/// decoded text and the position after the closing quote.
pub(crate) fn parse_json_string(s: &str, from: usize) -> (r: Option<(String, usize)>)
    requires
        from <= s@.len(),
    ensures
        match r {
            Some(p) => {
                &&& parse_str(s@.skip(from as int)) is Some
                &&& (parse_str(s@.skip(from as int))->0).0 == p.0@
                &&& p.1 <= s@.len()
                &&& (parse_str(s@.skip(from as int))->0).1 == s@.skip(p.1 as int)
            },
            None => parse_str(s@.skip(from as int)) is None,
        },
    decreases s@.len() - from,
{
    let n = s.unicode_len();
    let ghost t = s@.skip(from as int);
    if from == n {
        return None;
    }
    let c0 = s.get_char(from);
    proof {
        assert(t[0] == s@[from as int]);
    }
    if c0 == '"' {
        proof {
            assert(t.skip(1) =~= s@.skip(from as int + 1));
        }
        return Some((String::new(), from + 1));
    }
    if c0 == '\\' {
        if from + 1 == n {
            return None;
        }
        let c1 = s.get_char(from + 1);
        proof {
            assert(t[1] == s@[from as int + 1]);
        }
        if c1 != 'u' {
            let decoded = match short_unescape_of(c1) {
                None => {
                    return None;
                },
                Some(d) => d,
            };
            proof {
                assert(t.skip(2) =~= s@.skip(from as int + 2));
            }
            match parse_json_string(s, from + 2) {
                None => {
                    return None;
                },
                Some(p) => {
                    let mut out = String::new();
                    push_char(&mut out, decoded);
                    out.append(p.0.as_str());
                    proof {
                        assert(out@ =~= seq![short_unescape(t[1])->0] + p.0@);
                    }
                    return Some((out, p.1));
                },
            }
        }
        if c1 == 'u' {
            if n - from < 6 {
                return None;
            }
            let c2 = s.get_char(from + 2);
            let c3 = s.get_char(from + 3);
            let c4 = s.get_char(from + 4);
            let c5 = s.get_char(from + 5);
            proof {
                assert(t[2] == s@[from as int + 2]);
                assert(t[3] == s@[from as int + 3]);
                assert(t[4] == s@[from as int + 4]);
                assert(t[5] == s@[from as int + 5]);
            }
            if !(c2 == '0' && c3 == '0' && is_lhex_of(c4) && is_lhex_of(c5)) {
                return None;
            }
            let v: u8 = hex_val_of(c4) * 16 + hex_val_of(c5);
            if v >= 32 {
                return None;
            }
            if v == 8 || v == 9 || v == 10 || v == 12 || v == 13 {
                return None;
            }
            let decoded: char = v as char;
            proof {
                assert(decoded == ((hex_val(t[4]) * 16 + hex_val(t[5])) as u32) as char);
                assert(t.skip(6) =~= s@.skip(from as int + 6));
            }
            match parse_json_string(s, from + 6) {
                None => {
                    return None;
                },
                Some(p) => {
                    let mut out = String::new();
                    push_char(&mut out, decoded);
                    out.append(p.0.as_str());
                    proof {
                        assert(out@ =~= seq![((hex_val(t[4]) * 16 + hex_val(t[5])) as u32) as char]
                            + p.0@);
                    }
                    return Some((out, p.1));
                },
            }
        }
        return None;
    }
    if (c0 as u32) < 32 {
        return None;
    }
    proof {
        assert(t.skip(1) =~= s@.skip(from as int + 1));
    }
    match parse_json_string(s, from + 1) {
        None => None,
        Some(p) => {
            let mut out = String::new();
            push_char(&mut out, c0);
            out.append(p.0.as_str());
            proof {
                assert(out@ =~= seq![t[0]] + p.0@);
            }
            Some((out, p.1))
        },
    }
}

/// Whether the characters of `pat` stand in `s` beginning at `from`.
pub(crate) fn match_prefix(s: &str, from: usize, pat: &str) -> (r: bool)
    requires
        from <= s@.len(),
    ensures
        r == (from + pat@.len() <= s@.len() && s@.skip(from as int).take(pat@.len() as int)
            == pat@),
{
    let n = s.unicode_len();
    let m = pat.unicode_len();
    if n - from < m {
        return false;
    }
    let mut i: usize = 0;
    while i < m
        invariant
            i <= m,
            m == pat@.len(),
            n == s@.len(),
            from + m <= n,
            forall|k: int| 0 <= k < i ==> s@[from + k] == pat@[k],
        decreases m - i,
    {
        if s.get_char(from + i) != pat.get_char(i) {
            proof {
                assert(s@.skip(from as int)[i as int] == s@[from + i as int]);
            }
            return false;
        }
        i = i + 1;
    }
    proof {
        assert(s@.skip(from as int).take(m as int) =~= pat@);
    }
    true
}

// ---------------------------------------------------------------------------
// The configuration document: one JSON object of the three credential
// fields, in fixed order with no interior whitespace.
// ---------------------------------------------------------------------------

/// The document's opening through the first value's opening quote.
pub open spec fn key1() -> Seq<char> {
    seq!['{', '"', 'a', 'p', 'i', '_', 'k', 'e', 'y', '"', ':', '"']
}

/// Between the first value's closing quote and the second's opening.
pub open spec fn key2() -> Seq<char> {
    seq![',', '"', 'a', 'p', 'i', '_', 'u', 'r', 'l', '"', ':', '"']
}

/// Between the second value's closing quote and the third's opening.
pub open spec fn key3() -> Seq<char> {
    seq![',', '"', 'm', 'o', 'd', 'e', 'l', '"', ':', '"']
}

/// The JSON document for the credentials `c`.
pub open spec fn config_json(c: ConfigModel) -> Seq<char> {
    key1() + escape_str(c.api_key) + seq!['"'] + key2() + escape_str(c.api_url) + seq!['"']
        + key3() + escape_str(c.model) + seq!['"'] + seq!['}']
}

/// Reads a configuration document: the credentials it carries, or
/// nothing if the text is not exactly the rendering of some credentials.
pub open spec fn parse_config(s: Seq<char>) -> Option<ConfigModel> {
    if s.len() < 12 || s.take(12) != key1() {
        None
    } else {
        match parse_str(s.skip(12)) {
            None => None,
            Some(p1) => if p1.1.len() < 12 || p1.1.take(12) != key2() {
                None
            } else {
                match parse_str(p1.1.skip(12)) {
                    None => None,
                    Some(p2) => if p2.1.len() < 10 || p2.1.take(10) != key3() {
                        None
                    } else {
                        match parse_str(p2.1.skip(10)) {
                            None => None,
                            Some(p3) => if p3.1 == seq!['}'] {
                                Some(
                                    (ConfigModel { api_key: p1.0, api_url: p2.0, model: p3.0 }),
                                )
                            } else {
                                None
                            },
                        }
                    },
                }
            },
        }
    }
}

/// The document for `c` parses back to exactly `c`: a saved
/// configuration is always read back unchanged.
pub proof fn lemma_config_roundtrip(c: ConfigModel)
    ensures
        parse_config(config_json(c)) == Some(c),
{
    let s = config_json(c);
    let rest1 = key2() + escape_str(c.api_url) + seq!['"'] + key3() + escape_str(c.model)
        + seq!['"'] + seq!['}'];
    let rest2 = key3() + escape_str(c.model) + seq!['"'] + seq!['}'];
    let rest3 = seq!['}'];
    assert(s.take(12) =~= key1());
    assert(s.skip(12) =~= escape_str(c.api_key) + seq!['"'] + rest1);
    lemma_parse_escaped(c.api_key, rest1);
    assert(rest1.take(12) =~= key2());
    assert(rest1.skip(12) =~= escape_str(c.api_url) + seq!['"'] + rest2);
    lemma_parse_escaped(c.api_url, rest2);
    assert(rest2.take(10) =~= key3());
    assert(rest2.skip(10) =~= escape_str(c.model) + seq!['"'] + rest3);
    lemma_parse_escaped(c.model, rest3);
    assert(rest3 == seq!['}']);
    assert(parse_config(s) == Some(c));
}

/// Whatever parses as a configuration document was exactly the
/// rendering of that configuration: the parser accepts nothing else.
pub proof fn lemma_parse_config_sound(s: Seq<char>)
    ensures
        parse_config(s) matches Some(c) ==> s == config_json(c),
{
    if parse_config(s) is Some {
        let c = parse_config(s)->0;
        lemma_parse_sound(s.skip(12));
        let p1 = parse_str(s.skip(12))->0;
        lemma_parse_sound(p1.1.skip(12));
        let p2 = parse_str(p1.1.skip(12))->0;
        lemma_parse_sound(p2.1.skip(10));
        let p3 = parse_str(p2.1.skip(10))->0;
        assert(s.skip(12) == escape_str(p1.0) + seq!['"'] + p1.1);
        assert(p1.1.skip(12) == escape_str(p2.0) + seq!['"'] + p2.1);
        assert(p2.1.skip(10) == escape_str(p3.0) + seq!['"'] + p3.1);
        assert(p1.1 =~= p1.1.take(12) + p1.1.skip(12));
        assert(p2.1 =~= p2.1.take(10) + p2.1.skip(10));
        assert(s =~= s.take(12) + s.skip(12));
        assert(s =~= config_json(c));
    }
}

/// Renders the configuration document for `config`.
pub(crate) fn render_config(config: &ApiConfig) -> (r: String)
    ensures
        r@ == config_json(config@),
{
    let mut out = String::from_str("{\"api_key\":\"");
    proof {
        reveal_strlit("{\"api_key\":\"");
        assert(out@ =~= key1());
    }
    let ek = escape_to_json(config.api_key.as_str());
    out.append(ek.as_str());
    out.append("\",\"api_url\":\"");
    proof {
        reveal_strlit("\",\"api_url\":\"");
        assert(("\",\"api_url\":\"")@ =~= seq!['"'] + key2());
    }
    let eu = escape_to_json(config.api_url.as_str());
    out.append(eu.as_str());
    out.append("\",\"model\":\"");
    proof {
        reveal_strlit("\",\"model\":\"");
        assert(("\",\"model\":\"")@ =~= seq!['"'] + key3());
    }
    let em = escape_to_json(config.model.as_str());
    out.append(em.as_str());
    out.append("\"}");
    proof {
        reveal_strlit("\"}");
        assert(("\"}")@ =~= seq!['"'] + seq!['}']);
        assert(out@ =~= config_json(config@));
    }
    out
}

/// Reads a configuration document, exactly as `parse_config` does.
pub(crate) fn parse_config_str(s: &str) -> (r: Option<ApiConfig>)
    ensures
        r is Some ==> parse_config(s@) == Some(r->0@),
        r is None ==> parse_config(s@) is None,
{
    let n = s.unicode_len();
    proof {
        reveal_strlit("{\"api_key\":\"");
        assert(("{\"api_key\":\"")@ =~= key1());
        assert(s@.skip(0) =~= s@);
    }
    if !match_prefix(s, 0, "{\"api_key\":\"") {
        return None;
    }
    match parse_json_string(s, 12) {
        None => None,
        Some((k, e1)) => {
            proof {
                reveal_strlit(",\"api_url\":\"");
                assert((",\"api_url\":\"")@ =~= key2());
            }
            if !match_prefix(s, e1, ",\"api_url\":\"") {
                return None;
            }
            proof {
                assert(s@.skip(e1 as int).skip(12) =~= s@.skip(e1 as int + 12));
            }
            match parse_json_string(s, e1 + 12) {
                None => None,
                Some((u, e2)) => {
                    proof {
                        reveal_strlit(",\"model\":\"");
                        assert((",\"model\":\"")@ =~= key3());
                    }
                    if !match_prefix(s, e2, ",\"model\":\"") {
                        return None;
                    }
                    proof {
                        assert(s@.skip(e2 as int).skip(10) =~= s@.skip(e2 as int + 10));
                    }
                    match parse_json_string(s, e2 + 10) {
                        None => None,
                        Some((m, e3)) => {
                            if e3 < n && n - e3 == 1 && s.get_char(e3) == '}' {
                                proof {
                                    assert(s@.skip(e3 as int) =~= seq!['}']);
                                }
                                Some(ApiConfig { api_key: k, api_url: u, model: m })
                            } else {
                                proof {
                                    if s@.skip(e3 as int) == seq!['}'] {
                                        assert(s@.skip(e3 as int).len() == 1);
                                        assert(s@.skip(e3 as int)[0] == s@[e3 as int]);
                                        assert(s@[e3 as int] == '}');
                                    }
                                }
                                None
                            }
                        },
                    }
                },
            }
        },
    }
}

} // verus!
