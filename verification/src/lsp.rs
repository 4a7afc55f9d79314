//! Language server over hand-written JSON-RPC 2.0 messages: just the JSON that
//! the LSP messages use, a document table, and the replies.

pub mod modern;

use vstd::prelude::*;

use crate::lowering::{digits_value, lemma_digits_prefix};
use crate::table::Table;
use crate::lsp::modern::{
    find_symbol, path_to_uri, span_ok, span_range, span_to_range, symbol_at, uri_of_path, Position, Range,
    SymbolOccurrence,
};
use crate::text::{
    decimal, push_decimal, push_str, same_text, strip_prefix_chars, without_prefix,
    chars_of, find, find_exec, find_from, skip_ws, skip_ws_back, skip_ws_from, skip_ws_in, slice_chars,
    string_from_chars, trim, trim_end, trim_start, matches_at_exec,
};

verus! {

// ---------------------------------------------------------------------------
// JSON string escapes.
// ---------------------------------------------------------------------------

/// The lower-case hexadecimal digit of `d < 16`.
pub open spec fn hex_digit(d: nat) -> char {
    if d < 10 {
        ('0' as nat + d) as char
    } else {
        ('a' as nat + (d - 10)) as char
    }
}

/// The escape that `json_escape` writes for one character.
pub open spec fn escape_char(c: char) -> Seq<char> {
    if c == '"' {
        seq!['\\', '"']
    } else if c == '\\' {
        seq!['\\', '\\']
    } else if c == '\n' {
        seq!['\\', 'n']
    } else if c == '\r' {
        seq!['\\', 'r']
    } else if c == '\t' {
        seq!['\\', 't']
    } else if (c as u32) < 0x20 {
        seq!['\\', 'u', '0', '0', hex_digit((c as u32 / 16) as nat), hex_digit((c as u32 % 16) as nat)]
    } else {
        seq![c]
    }
}

/// The escapes of every character of `t`, in order.
pub open spec fn escape_all(t: Seq<char>) -> Seq<char>
    decreases t.len(),
{
    if t.len() == 0 {
        Seq::empty()
    } else {
        escape_char(t[0]) + escape_all(t.drop_first())
    }
}

/// A JSON string literal for `t`.
pub open spec fn json_string(t: Seq<char>) -> Seq<char> {
    seq!['"'] + escape_all(t) + seq!['"']
}

pub(crate) fn hex_digit_of(d: u32) -> (c: char)
    requires
        d < 16,
    ensures
        c == hex_digit(d as nat),
{
    match d {
        0 => '0',
        1 => '1',
        2 => '2',
        3 => '3',
        4 => '4',
        5 => '5',
        6 => '6',
        7 => '7',
        8 => '8',
        9 => '9',
        10 => 'a',
        11 => 'b',
        12 => 'c',
        13 => 'd',
        14 => 'e',
        _ => 'f',
    }
}

/// Appends the escapes of the characters of `text` to `out`.
pub fn push_escaped(out: &mut Vec<char>, text: &Vec<char>)
    ensures
        final(out)@ == old(out)@ + escape_all(text@),
{
    let ghost start = out@;
    let mut i: usize = 0;
    assert(text@.skip(0) =~= text@);
    while i < text.len()
        invariant
            i <= text@.len(),
            out@ + escape_all(text@.skip(i as int)) == start + escape_all(text@),
        decreases text@.len() - i,
    {
        let ghost before = out@;
        let c = text[i];
        let u = c as u32;
        if c == '"' {
            out.push('\\');
            out.push('"');
        } else if c == '\\' {
            out.push('\\');
            out.push('\\');
        } else if c == '\n' {
            out.push('\\');
            out.push('n');
        } else if c == '\r' {
            out.push('\\');
            out.push('r');
        } else if c == '\t' {
            out.push('\\');
            out.push('t');
        } else if u < 0x20 {
            out.push('\\');
            out.push('u');
            out.push('0');
            out.push('0');
            out.push(hex_digit_of(u / 16));
            out.push(hex_digit_of(u % 16));
        } else {
            out.push(c);
        }
        proof {
            assert(out@ =~= before + escape_char(c));
            assert(text@.skip(i as int).drop_first() =~= text@.skip(i + 1));
            assert(text@.skip(i as int)[0] == c);
            assert(before + escape_all(text@.skip(i as int)) =~= before + escape_char(c) + escape_all(
                text@.skip(i + 1),
            ));
        }
        i += 1;
    }
    assert(text@.skip(i as int) =~= Seq::<char>::empty());
    assert(out@ + Seq::<char>::empty() =~= out@);
}

/// A JSON string literal (quotes included) for `text`.
pub fn json_escape(text: &str) -> (r: String)
    ensures
        r@ == json_string(text@),
{
    let t = chars_of(text);
    let mut out: Vec<char> = Vec::new();
    out.push('"');
    push_escaped(&mut out, &t);
    out.push('"');
    assert(out@ =~= json_string(text@));
    string_from_chars(&out)
}


/// The value of a hexadecimal digit of either case.
pub open spec fn hex_value(c: char) -> Option<nat> {
    if '0' <= c && c <= '9' {
        Some((c as nat - '0' as nat) as nat)
    } else if 'a' <= c && c <= 'f' {
        Some((c as nat - 'a' as nat + 10) as nat)
    } else if 'A' <= c && c <= 'F' {
        Some((c as nat - 'A' as nat + 10) as nat)
    } else {
        None
    }
}

/// The value of a run of hexadecimal digits (none is zero), if all are digits.
pub open spec fn hex_run(d: Seq<char>) -> Option<nat>
    decreases d.len(),
{
    if d.len() == 0 {
        Some(0)
    } else {
        match (hex_run(d.drop_last()), hex_value(d.last())) {
            (Some(v), Some(x)) => Some(v * 16 + x),
            _ => None,
        }
    }
}

/// `u32::from_str_radix(s, 16)` for at most four characters: an optional `+`, then
/// one or more hexadecimal digits.
pub open spec fn parse_hex(s: Seq<char>) -> Option<nat> {
    let d = if s.len() > 0 && s[0] == '+' {
        s.drop_first()
    } else {
        s
    };
    if d.len() == 0 {
        None
    } else {
        hex_run(d)
    }
}

/// A code point that `char::from_u32` accepts.
pub open spec fn is_scalar_value(v: nat) -> bool {
    v <= 0x10ffff && !(0xd800 <= v <= 0xdfff)
}

/// What a `\u` escape with the (at most four) characters `hex` decodes to.
pub open spec fn unicode_escape(hex: Seq<char>) -> Seq<char> {
    match parse_hex(hex) {
        Some(v) => if is_scalar_value(v) {
            seq![v as char]
        } else {
            Seq::empty()
        },
        None => Seq::empty(),
    }
}

/// A UTF-16 high (leading) surrogate.
pub open spec fn high_half(v: nat) -> bool {
    0xd800 <= v <= 0xdbff
}

/// A UTF-16 low (trailing) surrogate.
pub open spec fn low_half(v: nat) -> bool {
    0xdc00 <= v <= 0xdfff
}

/// The code point that the surrogate pair `h`, `l` stands for.
pub open spec fn pair_code(h: nat, l: nat) -> nat {
    (0x10000 + (h - 0xd800) * 0x400 + (l - 0xdc00)) as nat
}

/// `rest`, the text after a `\u`, starts with a surrogate pair: four hexadecimal
/// characters of a high surrogate, then `\u` and four of a low one.
pub open spec fn starts_with_pair(rest: Seq<char>) -> bool {
    &&& rest.len() >= 10
    &&& rest[4] == '\\'
    &&& rest[5] == 'u'
    &&& parse_hex(rest.take(4)) matches Some(h) && high_half(h)
    &&& parse_hex(rest.subrange(6, 10)) matches Some(l) && low_half(l)
}

/// The character of the surrogate pair at the start of `rest`.
pub open spec fn pair_char(rest: Seq<char>) -> char {
    pair_code(parse_hex(rest.take(4)).unwrap(), parse_hex(rest.subrange(6, 10)).unwrap()) as char
}

/// The text of a JSON string body with its escapes decoded: `\n`, `\r`, `\t`, `\b`,
/// `\f`, `\"`, `\\`, `\uXXXX` (a surrogate pair `\uD83D\uDE00` decodes to one
/// character; an invalid escape or a lone surrogate decodes to nothing), and `\c` for
/// any other `c`.
pub open spec fn unescape(s: Seq<char>) -> Seq<char>
    decreases s.len(),
{
    if s.len() == 0 {
        Seq::empty()
    } else if s[0] != '\\' {
        seq![s[0]] + unescape(s.drop_first())
    } else if s.len() == 1 {
        Seq::empty()
    } else {
        let c = s[1];
        let rest = s.skip(2);
        if c == 'n' {
            seq!['\n'] + unescape(rest)
        } else if c == 'r' {
            seq!['\r'] + unescape(rest)
        } else if c == 't' {
            seq!['\t'] + unescape(rest)
        } else if c == 'b' {
            seq!['\u{8}'] + unescape(rest)
        } else if c == 'f' {
            seq!['\u{c}'] + unescape(rest)
        } else if c == '"' {
            seq!['"'] + unescape(rest)
        } else if c == '\\' {
            seq!['\\'] + unescape(rest)
        } else if c == 'u' {
            if starts_with_pair(rest) {
                seq![pair_char(rest)] + unescape(rest.skip(10))
            } else {
                let n = if rest.len() < 4 {
                    rest.len() as int
                } else {
                    4
                };
                unicode_escape(rest.take(n)) + unescape(rest.skip(n))
            }
        } else {
            seq![c] + unescape(rest)
        }
    }
}

/// `char::from_u32`: the character with code point `u`, if `u` is one.
#[verifier::external_body]
pub(crate) fn char_from_u32(u: u32) -> (r: Option<char>)
    ensures
        r is Some <==> is_scalar_value(u as nat),
        r matches Some(c) ==> c as u32 == u,
{
    char::from_u32(u)
}

fn hex_value_of(c: char) -> (r: Option<u32>)
    ensures
        r matches Some(v) ==> hex_value(c) == Some(v as nat),
        r is None ==> hex_value(c) is None,
{
    if '0' <= c && c <= '9' {
        Some((c as u32) - ('0' as u32))
    } else if 'a' <= c && c <= 'f' {
        Some((c as u32) - ('a' as u32) + 10)
    } else if 'A' <= c && c <= 'F' {
        Some((c as u32) - ('A' as u32) + 10)
    } else {
        None
    }
}

/// `u32::from_str_radix(s[a..b], 16)` for a run of at most four characters.
fn parse_hex_exec(s: &Vec<char>, a: usize, b: usize) -> (r: Option<u32>)
    requires
        a <= b <= s@.len(),
        b - a <= 4,
    ensures
        r matches Some(v) ==> parse_hex(s@.subrange(a as int, b as int)) == Some(v as nat),
        r is None ==> parse_hex(s@.subrange(a as int, b as int)) is None,
{
    let ghost t = s@.subrange(a as int, b as int);
    let mut i = a;
    if i < b && s[i] == '+' {
        i += 1;
    }
    proof {
        if a < b && s@[a as int] == '+' {
            assert(t.drop_first() =~= s@.subrange(i as int, b as int));
        } else {
            assert(t =~= s@.subrange(i as int, b as int));
        }
    }
    if i == b {
        return None;
    }
    let start = i;
    let mut v: u32 = 0;
    while i < b
        invariant
            a <= start <= i <= b <= s@.len(),
            b - a <= 4,
            hex_run(s@.subrange(start as int, i as int)) == Some(v as nat),
            v < pow16((i - start) as nat),
            start < b,
            parse_hex(s@.subrange(a as int, b as int)) == hex_run(s@.subrange(start as int, b as int)),
        decreases b - i,
    {
        match hex_value_of(s[i]) {
            Some(x) => {
                proof {
                    reveal_with_fuel(pow16, 5);
                    assert(i - start <= 3);
                    assert(v < 4096);
                    assert(s@.subrange(start as int, i + 1).drop_last() =~= s@.subrange(start as int, i as int));
                    assert(pow16((i + 1 - start) as nat) == 16 * pow16((i - start) as nat));
                }
                v = v * 16 + x;
                i += 1;
            },
            None => {
                proof {
                    lemma_hex_run_none(s@.subrange(start as int, b as int), i - start);
                }
                return None;
            },
        }
    }
    Some(v)
}

/// Powers of sixteen.
pub open spec fn pow16(n: nat) -> nat
    decreases n,
{
    if n == 0 {
        1
    } else {
        16 * pow16((n - 1) as nat)
    }
}

/// A run with a non-digit has no value.
proof fn lemma_hex_run_none(d: Seq<char>, k: int)
    requires
        0 <= k < d.len(),
        hex_value(d[k]) is None,
    ensures
        hex_run(d) is None,
    decreases d.len(),
{
    if k < d.len() - 1 {
        lemma_hex_run_none(d.drop_last(), k);
    }
}


/// Whether the characters of `t` from `a` on start with a surrogate pair.
fn pair_at(t: &Vec<char>, a: usize) -> (r: bool)
    requires
        a <= t@.len(),
    ensures
        r == starts_with_pair(t@.skip(a as int)),
{
    let ghost rest = t@.skip(a as int);
    if t.len() - a < 10 || t[a + 4] != '\\' || t[a + 5] != 'u' {
        return false;
    }
    proof {
        assert(rest.take(4) =~= t@.subrange(a as int, a + 4));
        assert(rest.subrange(6, 10) =~= t@.subrange(a + 6, a + 10));
    }
    match parse_hex_exec(t, a, a + 4) {
        Some(h) => if !(0xd800 <= h && h <= 0xdbff) {
            return false;
        },
        None => return false,
    }
    match parse_hex_exec(t, a + 6, a + 10) {
        Some(l) => 0xdc00 <= l && l <= 0xdfff,
        None => false,
    }
}

/// Decodes the escapes of a JSON string body.
pub fn unjson_escape(text: &str) -> (r: String)
    ensures
        r@ == unescape(text@),
{
    let t = chars_of(text);
    let out = unescape_chars(&t);
    string_from_chars(&out)
}

/// Decodes the escapes of the characters `t`.
pub fn unescape_chars(t: &Vec<char>) -> (out: Vec<char>)
    ensures
        out@ == unescape(t@),
{
    let mut out: Vec<char> = Vec::new();
    let mut i: usize = 0;
    let n = t.len();
    assert(t@.skip(0) =~= t@);
    while i < n
        invariant
            n == t@.len(),
            i <= n,
            out@ + unescape(t@.skip(i as int)) == unescape(t@),
        decreases n - i,
    {
        let ghost before = out@;
        let ghost rest = t@.skip(i as int);
        let ch = t[i];
        if ch != '\\' {
            out.push(ch);
            proof {
                assert(rest.drop_first() =~= t@.skip(i + 1));
                assert(before + unescape(rest) =~= before.push(ch) + unescape(t@.skip(i + 1)));
            }
            i += 1;
        } else if i + 1 == n {
            proof {
                assert(rest.len() == 1);
                assert(t@.skip(n as int) =~= Seq::<char>::empty());
            }
            i += 1;
        } else {
            let c = t[i + 1];
            proof {
                assert(rest.skip(2) =~= t@.skip(i + 2));
                assert(rest[1] == c);
            }
            if c == 'u' && pair_at(t, i + 2) {
                let a = i + 2;
                proof {
                    assert(t@.skip(a as int).take(4) =~= t@.subrange(a as int, a + 4));
                    assert(t@.skip(a as int).subrange(6, 10) =~= t@.subrange(a + 6, a + 10));
                }
                let h = parse_hex_exec(t, a, a + 4).unwrap();
                let l = parse_hex_exec(t, a + 6, a + 10).unwrap();
                let code: u32 = 0x10000 + (h - 0xd800) * 0x400 + (l - 0xdc00);
                let decoded = char_from_u32(code).unwrap();
                out.push(decoded);
                proof {
                    vstd::utf8::char_u32_cast(decoded, code);
                    assert(rest.skip(2).take(4) =~= t@.subrange(a as int, a + 4));
                    assert(rest.skip(2).subrange(6, 10) =~= t@.subrange(a + 6, a + 10));
                    assert(rest.skip(2).skip(10) =~= t@.skip(a + 10));
                    assert(before + unescape(rest) =~= out@ + unescape(t@.skip(a + 10)));
                }
                i = a + 10;
            } else if c == 'u' {
                let m = if n - (i + 2) < 4 {
                    n - (i + 2)
                } else {
                    4
                };
                let a = i + 2;
                let b = a + m;
                match parse_hex_exec(t, a, b) {
                    Some(code) => match char_from_u32(code) {
                        Some(decoded) => {
                            out.push(decoded);
                            proof {
                                vstd::utf8::char_u32_cast(decoded, code);
                            }
                        },
                        None => {},
                    },
                    None => {},
                }
                proof {
                    assert(t@.skip(i + 2).take(m as int) =~= t@.subrange(a as int, b as int));
                    assert(t@.skip(i + 2).skip(m as int) =~= t@.skip(b as int));
                    assert(out@ =~= before + unicode_escape(t@.subrange(a as int, b as int)));
                    assert(before + unescape(rest) =~= out@ + unescape(t@.skip(b as int)));
                }
                i = b;
            } else {
                let decoded = if c == 'n' {
                    '\n'
                } else if c == 'r' {
                    '\r'
                } else if c == 't' {
                    '\t'
                } else if c == 'b' {
                    '\u{8}'
                } else if c == 'f' {
                    '\u{c}'
                } else {
                    c
                };
                out.push(decoded);
                proof {
                    assert(before + unescape(rest) =~= out@ + unescape(t@.skip(i + 2)));
                }
                i += 2;
            }
        }
    }
    proof {
        assert(t@.skip(i as int) =~= Seq::<char>::empty());
        assert(out@ + Seq::<char>::empty() =~= out@);
    }
    out
}

proof fn lemma_hex_digit(d: nat)
    requires
        d < 16,
    ensures
        hex_value(hex_digit(d)) == Some(d),
{
}

/// Decoding undoes escaping: the body of `json_escape(t)` decodes back to `t`.
pub proof fn lemma_unescape_escape(t: Seq<char>)
    ensures
        unescape(escape_all(t)) == t,
    decreases t.len(),
{
    if t.len() > 0 {
        let c = t[0];
        let rest = escape_all(t.drop_first());
        lemma_unescape_escape(t.drop_first());
        let e = escape_char(c);
        let whole = e + rest;
        assert(escape_all(t) == whole);
        if c == '"' || c == '\\' || c == '\n' || c == '\r' || c == '\t' {
            assert(whole[0] == '\\');
            assert(whole.skip(2) =~= rest);
        } else if (c as u32) < 0x20 {
            let u = c as u32;
            lemma_hex_digit((u / 16) as nat);
            lemma_hex_digit((u % 16) as nat);
            assert(whole.skip(2).take(4) =~= seq!['0', '0', hex_digit((u / 16) as nat), hex_digit((u % 16) as nat)]);
            assert(whole.skip(2).skip(4) =~= rest);
            let h = whole.skip(2).take(4);
            let hi = hex_digit((u / 16) as nat);
            let lo = hex_digit((u % 16) as nat);
            let h0 = Seq::<char>::empty();
            let h1 = h0.push('0');
            let h2 = h1.push('0');
            let h3 = h2.push(hi);
            let h4 = h3.push(lo);
            assert(h1.drop_last() =~= h0);
            assert(h2.drop_last() =~= h1);
            assert(h3.drop_last() =~= h2);
            assert(h4.drop_last() =~= h3);
            assert(hex_value('0') == Some(0nat));
            assert(hex_run(h0) == Some(0nat));
            assert(h1.last() == '0' && h2.last() == '0' && h3.last() == hi && h4.last() == lo);
            assert(hex_run(h1) == Some(0nat));
            assert(hex_run(h2) == Some(0nat));
            assert(hex_run(h3) == Some((u / 16) as nat));
            assert(hex_run(h4) == Some(((u / 16) * 16 + u % 16) as nat));
            assert(h =~= h4);
            assert(hex_run(h) == Some(u as nat));
            assert(parse_hex(h) == Some(u as nat));
            vstd::utf8::char_u32_cast(c, u);
            assert(unicode_escape(h) =~= seq![c]);
        } else {
            assert(whole.drop_first() =~= rest);
        }
        assert(seq![c] + t.drop_first() =~= t);
    }
}


// ---------------------------------------------------------------------------
// Reading fields out of a JSON message.
// ---------------------------------------------------------------------------

/// Where the value of the first `key` of `input` starts: after the first `:` that
/// follows the key, white space skipped.
pub open spec fn value_start(input: Seq<char>, key: Seq<char>) -> Option<int> {
    match find(input, key) {
        Some(ki) => match find_from(input, seq![':'], ki + key.len()) {
            Some(c) => Some(skip_ws_from(input, c + 1)),
            None => None,
        },
        None => None,
    }
}

/// The end of a bare (number, boolean, null) value: the first `,`, `}` or line break
/// at or after `i`, or the end of the input.
pub open spec fn scalar_end(s: Seq<char>, i: int) -> int
    decreases s.len() - i,
{
    if i >= s.len() {
        s.len() as int
    } else if s[i] == ',' || s[i] == '}' || s[i] == '\n' {
        i
    } else {
        scalar_end(s, i + 1)
    }
}

/// The index of the quote that closes a string whose body goes on at `i`: the first
/// quote at or after `i` that no backslash escapes.
pub open spec fn string_close(s: Seq<char>, i: int) -> Option<int>
    decreases s.len() + 1 - i,
{
    if i < 0 || i >= s.len() {
        None
    } else if s[i] == '"' {
        Some(i)
    } else if s[i] == '\\' {
        string_close(s, i + 2)
    } else {
        string_close(s, i + 1)
    }
}

/// The string value that starts at `vs`: a quoted value up to its closing
/// (unescaped) quote, escapes decoded; any other value as its trimmed text.
pub open spec fn string_at(input: Seq<char>, vs: int) -> Option<Seq<char>> {
    if vs < input.len() && input[vs] == '"' {
        match string_close(input, vs + 1) {
            Some(e) => Some(unescape(input.subrange(vs + 1, e))),
            None => None,
        }
    } else {
        Some(trim(input.subrange(vs, scalar_end(input, vs))))
    }
}

/// The string value of the first `key` of `input` (see `string_at`).
pub open spec fn extract_string(input: Seq<char>, key: Seq<char>) -> Option<Seq<char>> {
    match value_start(input, key) {
        None => None,
        Some(vs) => string_at(input, vs),
    }
}

/// The index of the `}` that closes the object whose braces, counted from `i` on,
/// are `depth` deep.
pub open spec fn brace_close(s: Seq<char>, i: int, depth: int) -> Option<int>
    decreases s.len() - i,
{
    if i < 0 || i >= s.len() {
        None
    } else {
        let d = if s[i] == '{' {
            depth + 1
        } else if s[i] == '}' {
            depth - 1
        } else {
            depth
        };
        if s[i] == '}' && d == 0 {
            Some(i)
        } else {
            brace_close(s, i + 1, d)
        }
    }
}

/// The object value that starts at `vs`, from its `{` to the matching `}`.
pub open spec fn object_at(input: Seq<char>, vs: int) -> Option<Seq<char>> {
    if vs < input.len() && input[vs] == '{' {
        match brace_close(input, vs, 0) {
            Some(e) => Some(input.subrange(vs, e + 1)),
            None => None,
        }
    } else {
        None
    }
}

/// The object value of the first `key` of `input`.
pub open spec fn extract_object(input: Seq<char>, key: Seq<char>) -> Option<Seq<char>> {
    match value_start(input, key) {
        Some(vs) => object_at(input, vs),
        None => None,
    }
}

/// The index of the first field name `key` (quotes included, followed by `:`) that
/// stands directly in the outermost object of `s`, scanning from `i` at nesting depth
/// `depth`; strings are skipped whole.
pub open spec fn top_key_from(s: Seq<char>, key: Seq<char>, i: int, depth: nat) -> Option<int>
    decreases s.len() + 1 - i,
{
    if i < 0 || i >= s.len() {
        None
    } else if s[i] == '"' {
        if depth == 1 && i + key.len() <= s.len() && s.subrange(i, i + key.len()) == key
            && key.len() > 0 && skip_ws_from(s, i + key.len()) < s.len()
            && s[skip_ws_from(s, i + key.len())] == ':' {
            Some(i)
        } else {
            match string_close(s, i + 1) {
                Some(e) => {
                    proof {
                        lemma_string_close_bounds(s, i + 1);
                    }
                    top_key_from(s, key, e + 1, depth)
                },
                None => None,
            }
        }
    } else if s[i] == '{' || s[i] == '[' {
        top_key_from(s, key, i + 1, depth + 1)
    } else if s[i] == '}' || s[i] == ']' {
        top_key_from(s, key, i + 1, if depth == 0 { 0 } else { (depth - 1) as nat })
    } else {
        top_key_from(s, key, i + 1, depth)
    }
}

/// A field found by `top_key_from` is followed by its `:`.
pub proof fn lemma_top_key(s: Seq<char>, key: Seq<char>, i: int, depth: nat)
    ensures
        top_key_from(s, key, i, depth) matches Some(k) ==> 0 <= k && k + key.len() <= s.len()
            && skip_ws_from(s, k + key.len()) < s.len() && s[skip_ws_from(s, k + key.len())] == ':',
    decreases s.len() + 1 - i,
{
    if 0 <= i < s.len() {
        if s[i] == '"' {
            if !(depth == 1 && i + key.len() <= s.len() && s.subrange(i, i + key.len()) == key
                && key.len() > 0 && skip_ws_from(s, i + key.len()) < s.len()
                && s[skip_ws_from(s, i + key.len())] == ':') {
                lemma_string_close_bounds(s, i + 1);
                if let Some(e) = string_close(s, i + 1) {
                    lemma_top_key(s, key, e + 1, depth);
                }
            }
        } else if s[i] == '{' || s[i] == '[' {
            lemma_top_key(s, key, i + 1, depth + 1);
        } else if s[i] == '}' || s[i] == ']' {
            lemma_top_key(s, key, i + 1, if depth == 0 { 0 } else { (depth - 1) as nat });
        } else {
            lemma_top_key(s, key, i + 1, depth);
        }
    }
}

/// Where the value of the field `key` of the outermost object of `input` starts:
/// after its `:`, white space skipped.
pub open spec fn top_value_start(input: Seq<char>, key: Seq<char>) -> Option<int> {
    match top_key_from(input, key, 0, 0) {
        Some(ki) => Some(skip_ws_from(input, skip_ws_from(input, ki + key.len()) + 1)),
        None => None,
    }
}

/// The string value of the field `key` of the outermost object of `input`.
pub open spec fn top_string(input: Seq<char>, key: Seq<char>) -> Option<Seq<char>> {
    match top_value_start(input, key) {
        Some(vs) => string_at(input, vs),
        None => None,
    }
}

/// The object value of the field `key` of the outermost object of `input`.
pub open spec fn top_object(input: Seq<char>, key: Seq<char>) -> Option<Seq<char>> {
    match top_value_start(input, key) {
        Some(vs) => object_at(input, vs),
        None => None,
    }
}

fn value_start_exec(input: &Vec<char>, key: &Vec<char>) -> (r: Option<usize>)
    ensures
        r matches Some(v) ==> value_start(input@, key@) == Some(v as int) && v <= input@.len(),
        r is None ==> value_start(input@, key@) is None,
{
    let n = input.len();
    let ki = match find_exec(input, key, 0) {
        Some(k) => k,
        None => return None,
    };
    let mut colon: Vec<char> = Vec::new();
    colon.push(':');
    assert(colon@ =~= seq![':']);
    let c = match find_exec(input, &colon, ki + key.len()) {
        Some(c) => c,
        None => return None,
    };
    Some(skip_ws(input, c + 1))
}

fn scalar_end_exec(s: &Vec<char>, i: usize) -> (r: usize)
    requires
        i <= s@.len(),
    ensures
        r == scalar_end(s@, i as int),
        i <= r <= s@.len(),
{
    let mut k = i;
    while k < s.len() && s[k] != ',' && s[k] != '}' && s[k] != '\n'
        invariant
            i <= k <= s@.len(),
            scalar_end(s@, k as int) == scalar_end(s@, i as int),
        decreases s@.len() - k,
    {
        k += 1;
    }
    k
}

/// The closing quote of a string lies at or after where its body goes on.
pub proof fn lemma_string_close_bounds(s: Seq<char>, i: int)
    ensures
        string_close(s, i) matches Some(e) ==> i <= e < s.len(),
    decreases s.len() + 1 - i,
{
    if 0 <= i < s.len() && s[i] != '"' {
        if s[i] == '\\' {
            lemma_string_close_bounds(s, i + 2);
        } else {
            lemma_string_close_bounds(s, i + 1);
        }
    }
}

fn string_close_exec(s: &Vec<char>, i: usize) -> (r: Option<usize>)
    requires
        i <= s@.len(),
    ensures
        r matches Some(e) ==> string_close(s@, i as int) == Some(e as int) && i <= e < s@.len(),
        r is None ==> string_close(s@, i as int) is None,
{
    proof {
        lemma_string_close_bounds(s@, i as int);
    }
    let mut k = i;
    while k < s.len()
        invariant
            i <= k <= s@.len(),
            string_close(s@, k as int) == string_close(s@, i as int),
        decreases s@.len() - k,
    {
        if s[k] == '"' {
            return Some(k);
        } else if s[k] == '\\' {
            if k + 1 < s.len() {
                k += 2;
            } else {
                assert(string_close(s@, k + 2) is None);
                return None;
            }
        } else {
            k += 1;
        }
    }
    None
}

/// The string value that starts at `vs` in `s`.
fn string_value_at(s: &Vec<char>, vs: usize) -> (r: Option<String>)
    requires
        vs <= s@.len(),
    ensures
        r matches Some(v) ==> string_at(s@, vs as int) == Some(v@),
        r is None ==> string_at(s@, vs as int) is None,
{
    if vs < s.len() && s[vs] == '"' {
        match string_close_exec(&s, vs + 1) {
            Some(e) => {
                let body = slice_chars(&s, vs + 1, e);
                let decoded = unescape_chars(&body);
                Some(string_from_chars(&decoded))
            },
            None => None,
        }
    } else {
        let end = scalar_end_exec(&s, vs);
        let a = skip_ws_in(&s, vs, end);
        let b = skip_ws_back(&s, a, end);
        let v = slice_chars(&s, a, b);
        Some(string_from_chars(&v))
    }
}

/// The object value that starts at `vs` in `s`.
fn object_value_at(s: &Vec<char>, vs: usize) -> (r: Option<String>)
    requires
        vs <= s@.len(),
    ensures
        r matches Some(v) ==> object_at(s@, vs as int) == Some(v@),
        r is None ==> object_at(s@, vs as int) is None,
{
    if !(vs < s.len() && s[vs] == '{') {
        return None;
    }
    let n = s.len();
    let mut depth: usize = 0;
    let mut i = vs;
    while i < n
        invariant
            n == s@.len(),
            vs <= i <= n,
            vs < n,
            s@[vs as int] == '{',
            depth <= i - vs,
            i == vs ==> depth == 0,
            i > vs ==> depth >= 1,
            brace_close(s@, i as int, depth as int) == brace_close(s@, vs as int, 0),
        decreases n - i,
    {
        let c = s[i];
        if c == '{' {
            depth = depth + 1;
        } else if c == '}' {
            depth = depth - 1;
            if depth == 0 {
                let v = slice_chars(&s, vs, i + 1);
                return Some(string_from_chars(&v));
            }
        }
        i += 1;
    }
    None
}

/// The string value of `key` in the JSON text `input`.
pub fn extract_json_string(input: &str, key: &str) -> (r: Option<String>)
    ensures
        r matches Some(v) ==> extract_string(input@, key@) == Some(v@),
        r is None ==> extract_string(input@, key@) is None,
{
    let s = chars_of(input);
    let k = chars_of(key);
    match value_start_exec(&s, &k) {
        Some(vs) => string_value_at(&s, vs),
        None => None,
    }
}

/// The object value of `key` in the JSON text `input`, braces included.
pub fn extract_json_object(input: &str, key: &str) -> (r: Option<String>)
    ensures
        r matches Some(v) ==> extract_object(input@, key@) == Some(v@),
        r is None ==> extract_object(input@, key@) is None,
{
    let s = chars_of(input);
    let k = chars_of(key);
    match value_start_exec(&s, &k) {
        Some(vs) => object_value_at(&s, vs),
        None => None,
    }
}

/// Where the field `key` of the outermost object of `s` stands.
fn top_key_exec(s: &Vec<char>, key: &Vec<char>) -> (r: Option<usize>)
    ensures
        r matches Some(k) ==> top_key_from(s@, key@, 0, 0) == Some(k as int) && k + key@.len()
            <= s@.len(),
        r is None ==> top_key_from(s@, key@, 0, 0) is None,
{
    let n = s.len();
    let mut i: usize = 0;
    let mut depth: usize = 0;
    while i < n
        invariant
            n == s@.len(),
            i <= n,
            depth <= i,
            top_key_from(s@, key@, i as int, depth as nat) == top_key_from(s@, key@, 0, 0),
        decreases n - i,
    {
        let c = s[i];
        if c == '"' {
            if depth == 1 && key.len() > 0 && key.len() <= n - i && matches_at_exec(s, i, key) {
                let w = skip_ws(s, i + key.len());
                if w < n && s[w] == ':' {
                    return Some(i);
                }
            }
            proof {
                lemma_string_close_bounds(s@, i + 1);
            }
            match string_close_exec(s, i + 1) {
                Some(e) => {
                    i = e + 1;
                },
                None => return None,
            }
        } else if c == '{' || c == '[' {
            depth = depth + 1;
            i += 1;
        } else if c == '}' || c == ']' {
            if depth > 0 {
                depth = depth - 1;
            }
            i += 1;
        } else {
            i += 1;
        }
    }
    None
}

/// Where the value of the field `key` of the outermost object of `s` starts.
fn top_value_start_exec(s: &Vec<char>, key: &Vec<char>) -> (r: Option<usize>)
    ensures
        r matches Some(v) ==> top_value_start(s@, key@) == Some(v as int) && v <= s@.len(),
        r is None ==> top_value_start(s@, key@) is None,
{
    proof {
        lemma_top_key(s@, key@, 0, 0);
    }
    match top_key_exec(s, key) {
        Some(ki) => {
            let kl = key.len();
            let n = s.len();
            assert(top_key_from(s@, key@, 0, 0) == Some(ki as int));
            assert(ki + kl <= n);
            let w = skip_ws(s, ki + kl);
            assert(w < n);
            Some(skip_ws(s, w + 1))
        },
        None => None,
    }
}

/// The string value of the field `key` of the outermost object of the JSON text
/// `input` (a field of a nested object does not count).
pub fn top_json_string(input: &str, key: &str) -> (r: Option<String>)
    ensures
        r matches Some(v) ==> top_string(input@, key@) == Some(v@),
        r is None ==> top_string(input@, key@) is None,
{
    let s = chars_of(input);
    let k = chars_of(key);
    match top_value_start_exec(&s, &k) {
        Some(vs) => string_value_at(&s, vs),
        None => None,
    }
}

/// The object value of the field `key` of the outermost object of the JSON text
/// `input`, braces included.
pub fn top_json_object(input: &str, key: &str) -> (r: Option<String>)
    ensures
        r matches Some(v) ==> top_object(input@, key@) == Some(v@),
        r is None ==> top_object(input@, key@) is None,
{
    let s = chars_of(input);
    let k = chars_of(key);
    match top_value_start_exec(&s, &k) {
        Some(vs) => object_value_at(&s, vs),
        None => None,
    }
}


// ---------------------------------------------------------------------------
// The server.
// ---------------------------------------------------------------------------

/// Opens a JSON-RPC reply, up to its id.
pub const REPLY_HEAD: &'static str = "{\"jsonrpc\":\"2.0\",\"id\":";

/// Closes a reply whose result is `null`.
pub const NULL_RESULT_TAIL: &'static str = ",\"result\":null}";

/// Closes the reply to `initialize`: the server's capabilities and name.
pub const INITIALIZE_TAIL: &'static str = ",\"result\":{\"capabilities\":{\"textDocumentSync\":{\"openClose\":true,\"change\":1},\"hoverProvider\":true,\"definitionProvider\":true},\"serverInfo\":{\"name\":\"swc-lsp\",\"version\":\"0.1.2\"}}}";

/// Opens the result of a hover reply, up to the text it shows.
pub const HOVER_HEAD: &'static str = ",\"result\":{\"contents\":{\"kind\":\"markdown\",\"value\":";

/// Closes a hover reply.
pub const HOVER_CLOSE: &'static str = "}}}";

/// What hover shows where the analysis knows nothing.
pub const HOVER_FALLBACK: &'static str = "Sw 语言服务器（诊断见 Problems 面板）";

/// The field names that the server reads.
pub const KEY_ID: &'static str = "\"id\"";
pub const KEY_METHOD: &'static str = "\"method\"";
pub const KEY_PARAMS: &'static str = "\"params\"";
pub const KEY_URI: &'static str = "\"uri\"";
pub const KEY_TEXT: &'static str = "\"text\"";
pub const KEY_POSITION: &'static str = "\"position\"";
pub const KEY_LINE: &'static str = "\"line\"";
pub const KEY_CHARACTER: &'static str = "\"character\"";

/// The text of an id, or `null` without one.
pub open spec fn id_text(id: Option<Seq<char>>) -> Seq<char> {
    match id {
        Some(i) => i,
        None => "null"@,
    }
}

/// The reply to `initialize`.
pub open spec fn initialize_text(id: Option<Seq<char>>) -> Seq<char> {
    REPLY_HEAD@ + id_text(id) + INITIALIZE_TAIL@
}

/// A reply whose result is `null`.
pub open spec fn null_reply(id: Seq<char>) -> Seq<char> {
    REPLY_HEAD@ + id + NULL_RESULT_TAIL@
}

fn text_of(parts: &Vec<char>) -> (r: String)
    ensures
        r@ == parts@,
{
    string_from_chars(parts)
}

/// The reply to `initialize` for the request id `id`.
pub fn initialize_response(id: &Option<String>) -> (r: String)
    ensures
        r@ == initialize_text(match id {
            Some(i) => Some(i@),
            None => None,
        }),
{
    let mut out: Vec<char> = Vec::new();
    push_str(&mut out, REPLY_HEAD);
    match id {
        Some(i) => push_str(&mut out, i.as_str()),
        None => push_str(&mut out, "null"),
    }
    push_str(&mut out, INITIALIZE_TAIL);
    text_of(&out)
}

fn null_response(id: &str) -> (r: String)
    ensures
        r@ == null_reply(id@),
{
    let mut out: Vec<char> = Vec::new();
    push_str(&mut out, REPLY_HEAD);
    push_str(&mut out, id);
    push_str(&mut out, NULL_RESULT_TAIL);
    text_of(&out)
}

/// The view of an optional string.
pub open spec fn opt_view(s: Option<String>) -> Option<Seq<char>> {
    match s {
        Some(t) => Some(t@),
        None => None,
    }
}

/// An optional text, empty when absent.
pub open spec fn or_empty(s: Option<Seq<char>>) -> Seq<char> {
    match s {
        Some(t) => t,
        None => Seq::empty(),
    }
}

/// The URI and text fields of a `params` object (empty when missing).
pub open spec fn doc_fields(params: Seq<char>) -> (Seq<char>, Seq<char>) {
    (or_empty(extract_string(params, KEY_URI@)), or_empty(extract_string(params, KEY_TEXT@)))
}

/// The method of the message `body`: the `method` field of its outermost object.
pub open spec fn method_of(body: Seq<char>) -> Option<Seq<char>> {
    top_string(body, KEY_METHOD@)
}

/// The id of the message `body`: the `id` field of its outermost object (a field of
/// the same name inside `params` is no id); notifications have none.
pub open spec fn id_of(body: Seq<char>) -> Option<Seq<char>> {
    top_string(body, KEY_ID@)
}

/// The `params` object of the message `body`.
pub open spec fn params_of(body: Seq<char>) -> Option<Seq<char>> {
    top_object(body, KEY_PARAMS@)
}

/// The document table after the message `body`.
pub open spec fn docs_after(docs: Map<Seq<char>, Seq<char>>, body: Seq<char>) -> Map<Seq<char>, Seq<char>> {
    match (method_of(body), params_of(body)) {
        (Some(m), Some(p)) => if m == "textDocument/didOpen"@ || m == "textDocument/didChange"@ {
            docs.insert(doc_fields(p).0, doc_fields(p).1)
        } else if m == "textDocument/didClose"@ {
            docs.remove(doc_fields(p).0)
        } else {
            docs
        },
        _ => docs,
    }
}

/// The reply that the message `body` gets at once, if any. Requests about a position
/// (hover, definition) are answered after the analysis (see `lookup_for`).
pub open spec fn reply_to(body: Seq<char>) -> Option<Seq<char>> {
    let id = id_of(body);
    match method_of(body) {
        None => None,
        Some(m) => if m == "initialize"@ {
            Some(initialize_text(id))
        } else if m == "shutdown"@ {
            Some(null_reply(id_text(id)))
        } else if m == "initialized"@ || m == "exit"@ || m == "textDocument/didOpen"@ || m
            == "textDocument/didChange"@ || m == "textDocument/didClose"@ || m == "textDocument/hover"@
            || m == "textDocument/definition"@ {
            None
        } else {
            match id {
                Some(i) => Some(null_reply(i)),
                None => None,
            }
        },
    }
}

/// The document (URI and text) that the message `body` asks to analyse and publish
/// diagnostics for.
pub open spec fn analysis_for(body: Seq<char>) -> Option<(Seq<char>, Seq<char>)> {
    match (method_of(body), params_of(body)) {
        (Some(m), Some(p)) => if m == "textDocument/didOpen"@ || m == "textDocument/didChange"@ {
            Some(doc_fields(p))
        } else {
            None
        },
        _ => None,
    }
}

/// The position of a `params` object: its `position` field's `line` and `character`.
pub open spec fn position_in(params: Seq<char>) -> Option<Position> {
    match extract_object(params, KEY_POSITION@) {
        Some(p) => match (extract_string(p, KEY_LINE@), extract_string(p, KEY_CHARACTER@)) {
            (Some(l), Some(c)) => match (usize_value(l), usize_value(c)) {
                (Some(a), Some(b)) => Some(Position { line: a as u64, character: b as u64 }),
                _ => None,
            },
            _ => None,
        },
        None => None,
    }
}

/// A request about a position of a document: its id, whether it asks for the
/// definition (else hover), the document's URI, and the position.
pub struct Lookup {
    pub id: String,
    pub definition: bool,
    pub uri: String,
    pub position: Option<Position>,
}

/// The view of a lookup.
pub open spec fn lookup_view(l: Lookup) -> (Seq<char>, bool, Seq<char>, Option<Position>) {
    (l.id@, l.definition, l.uri@, l.position)
}

/// The lookup that the message `body` asks for: a hover or definition request with an
/// id.
pub open spec fn lookup_for(body: Seq<char>) -> Option<(Seq<char>, bool, Seq<char>, Option<Position>)> {
    match (id_of(body), method_of(body)) {
        (Some(id), Some(m)) => if m == "textDocument/hover"@ || m == "textDocument/definition"@ {
            let uri = match params_of(body) {
                Some(p) => or_empty(extract_string(p, KEY_URI@)),
                None => Seq::empty(),
            };
            let position = match params_of(body) {
                Some(p) => position_in(p),
                None => None,
            };
            Some((id, m == "textDocument/definition"@, uri, position))
        } else {
            None
        },
        _ => None,
    }
}

/// The position that a `params` object names.
pub fn position_of_params(params: &str) -> (r: Option<Position>)
    ensures
        r == position_in(params@),
{
    let p = match extract_json_object(params, KEY_POSITION) {
        Some(p) => p,
        None => return None,
    };
    let l = match extract_json_string(p.as_str(), KEY_LINE) {
        Some(l) => l,
        None => return None,
    };
    let c = match extract_json_string(p.as_str(), KEY_CHARACTER) {
        Some(c) => c,
        None => return None,
    };
    let a = match parse_usize(&chars_of(l.as_str())) {
        Some(a) => a,
        None => return None,
    };
    let b = match parse_usize(&chars_of(c.as_str())) {
        Some(b) => b,
        None => return None,
    };
    Some(Position { line: a as u64, character: b as u64 })
}

// ---------------------------------------------------------------------------
// Answers to hover and definition requests.
// ---------------------------------------------------------------------------

/// The diagnostic range of `d` holds the position `p` (both ends included).
pub open spec fn diagnostic_covers(d: LspDiagnostic, p: Position) -> bool {
    &&& (d.line < p.line || (d.line == p.line && d.character <= p.character))
    &&& (p.line < d.end_line || (p.line == d.end_line && p.character <= d.end_character))
}

/// The first diagnostic at or after index `i` whose range holds `p`.
pub open spec fn diagnostic_at(ds: Seq<LspDiagnostic>, p: Position, i: int) -> Option<int>
    decreases ds.len() - i,
{
    if i < 0 || i >= ds.len() {
        None
    } else if diagnostic_covers(ds[i], p) {
        Some(i)
    } else {
        diagnostic_at(ds, p, i + 1)
    }
}

/// What hover shows: the type (detail) of the symbol under the position as an `sw`
/// code block; else the message of the first diagnostic there; else a note that the
/// diagnostics are in the Problems panel.
pub open spec fn hover_summary(
    text: Option<Seq<char>>,
    position: Option<Position>,
    symbols: Seq<SymbolOccurrence>,
    diagnostics: Seq<LspDiagnostic>,
) -> Seq<char> {
    match position {
        None => HOVER_FALLBACK@,
        Some(p) => {
            let sym = match text {
                Some(t) => symbol_at(symbols, t, p),
                None => None,
            };
            match sym {
                Some(i) => "```sw\n"@ + symbols[i].detail@ + "\n```"@,
                None => match diagnostic_at(diagnostics, p, 0) {
                    Some(k) => diagnostics[k].message@,
                    None => HOVER_FALLBACK@,
                },
            }
        },
    }
}

/// The reply to a hover request with id `id`: a markdown text of `summary`.
pub open spec fn hover_text(id: Seq<char>, summary: Seq<char>) -> Seq<char> {
    REPLY_HEAD@ + id + HOVER_HEAD@ + json_string(summary) + HOVER_CLOSE@
}

proof fn lemma_diagnostic_at_bounds(ds: Seq<LspDiagnostic>, p: Position, i: int, k: int)
    requires
        0 <= i,
        diagnostic_at(ds, p, i) == Some(k),
    ensures
        i <= k < ds.len(),
    decreases ds.len() - i,
{
    if i < ds.len() && !diagnostic_covers(ds[i], p) {
        lemma_diagnostic_at_bounds(ds, p, i + 1, k);
    }
}

fn covers_position(d: &LspDiagnostic, p: Position) -> (r: bool)
    ensures
        r == diagnostic_covers(*d, p),
{
    (d.line < p.line || (d.line == p.line && d.character <= p.character)) && (p.line < d.end_line || (p.line
        == d.end_line && p.character <= d.end_character))
}

/// The text of an optional borrowed string.
pub open spec fn text_view(t: Option<&String>) -> Option<Seq<char>> {
    match t {
        Some(s) => Some(s@),
        None => None,
    }
}

/// The reply to the hover request `id` at `position` of a document whose text is
/// `text` (`None`: it is not open), given the symbols and diagnostics that its
/// analysis found.
pub fn hover_response(
    id: &str,
    text: Option<&String>,
    position: Option<Position>,
    symbols: &Vec<SymbolOccurrence>,
    diagnostics: &Vec<LspDiagnostic>,
) -> (r: String)
    ensures
        r@ == hover_text(id@, hover_summary(text_view(text), position, symbols@, diagnostics@)),
{
    let mut summary: Vec<char> = Vec::new();
    match position {
        None => push_str(&mut summary, HOVER_FALLBACK),
        Some(p) => {
            let sym = match text {
                Some(t) => find_symbol(symbols, t.as_str(), &p),
                None => None,
            };
            match sym {
                Some(symbol) => {
                    proof {
                        let i = choose|i: int| symbol_at(symbols@, text_view(text)->0, p) == Some(i) && *symbol
                            == #[trigger] symbols@[i];
                    }
                    push_str(&mut summary, "```sw\n");
                    push_str(&mut summary, symbol.detail.as_str());
                    push_str(&mut summary, "\n```");
                },
                None => {
                    let mut k: usize = 0;
                    while k < diagnostics.len() && !covers_position(&diagnostics[k], p)
                        invariant
                            k <= diagnostics@.len(),
                            diagnostic_at(diagnostics@, p, k as int) == diagnostic_at(diagnostics@, p, 0),
                        decreases diagnostics@.len() - k,
                    {
                        k += 1;
                    }
                    if k < diagnostics.len() {
                        push_str(&mut summary, diagnostics[k].message.as_str());
                    } else {
                        push_str(&mut summary, HOVER_FALLBACK);
                    }
                },
            }
        },
    }
    let mut out: Vec<char> = Vec::new();
    push_str(&mut out, REPLY_HEAD);
    push_str(&mut out, id);
    push_str(&mut out, HOVER_HEAD);
    out.push('"');
    push_escaped(&mut out, &summary);
    out.push('"');
    push_str(&mut out, HOVER_CLOSE);
    assert(out@ =~= hover_text(id@, hover_summary(text_view(text), position, symbols@, diagnostics@)));
    text_of(&out)
}

/// The symbol whose declaration a definition request at `position` of a document
/// whose text is `text` asks for: the symbol there, if the document is open.
pub fn definition_symbol<'a>(text: Option<&String>, position: Option<Position>, symbols: &'a Vec<SymbolOccurrence>) -> (r:
    Option<&'a SymbolOccurrence>)
    ensures
        match r {
            Some(sym) => text is Some && position is Some && exists|i: int|
                symbol_at(symbols@, text_view(text)->0, position->0) == Some(i) && *sym == #[trigger] symbols@[i],
            None => text is None || position is None || symbol_at(symbols@, text_view(text)->0, position->0) is None,
        },
{
    match (text, position) {
        (Some(t), Some(p)) => find_symbol(symbols, t.as_str(), &p),
        _ => None,
    }
}

/// The JSON text of a position.
pub open spec fn position_text(p: Position) -> Seq<char> {
    "{\"line\":"@ + decimal(p.line as nat) + ",\"character\":"@ + decimal(p.character as nat) + "}"@
}

/// The JSON text of a range.
pub open spec fn range_text(r: Range) -> Seq<char> {
    "{\"start\":"@ + position_text(r.start) + ",\"end\":"@ + position_text(r.end) + "}"@
}

/// The JSON text of the location of a symbol's declaration, `text` being the text of
/// the file that declares it.
pub open spec fn location_text(symbol: SymbolOccurrence, text: Seq<char>, windows: bool) -> Seq<char> {
    "{\"uri\":"@ + json_string(uri_of_path(symbol.definition_file@, windows)) + ",\"range\":"@ + range_text(
        span_range(text, symbol.definition_span),
    ) + "}"@
}

/// The reply to a definition request: the location of the declaration, or `null`.
pub open spec fn definition_text(id: Seq<char>, symbol: Option<SymbolOccurrence>, text: Seq<char>, windows: bool) -> Seq<
    char,
> {
    match symbol {
        Some(sym) => REPLY_HEAD@ + id + ",\"result\":"@ + location_text(sym, text, windows) + "}"@,
        None => null_reply(id),
    }
}

fn push_position(out: &mut Vec<char>, p: Position)
    ensures
        final(out)@ == old(out)@ + position_text(p),
{
    push_str(out, "{\"line\":");
    push_decimal(out, p.line);
    push_str(out, ",\"character\":");
    push_decimal(out, p.character);
    push_str(out, "}");
}

/// The reply to the definition request `id`: the location of the declaration of
/// `symbol` (`text`: the text of the file that declares it; `windows`: the host is
/// Windows), or `null` without a symbol.
pub fn definition_response(id: &str, symbol: Option<&SymbolOccurrence>, text: &str, windows: bool) -> (r: String)
    requires
        symbol matches Some(sym) ==> span_ok(text@, sym.definition_span),
    ensures
        r@ == definition_text(
            id@,
            match symbol {
                Some(sym) => Some(*sym),
                None => None,
            },
            text@,
            windows,
        ),
{
    match symbol {
        None => null_response(id),
        Some(sym) => {
            let range = span_to_range(text, sym.definition_span);
            let uri = path_to_uri(sym.definition_file.as_str(), windows);
            let mut out: Vec<char> = Vec::new();
            push_str(&mut out, REPLY_HEAD);
            push_str(&mut out, id);
            push_str(&mut out, ",\"result\":");
            push_str(&mut out, "{\"uri\":");
            out.push('"');
            push_escaped(&mut out, &chars_of(uri.as_str()));
            out.push('"');
            push_str(&mut out, ",\"range\":");
            push_str(&mut out, "{\"start\":");
            push_position(&mut out, range.start);
            push_str(&mut out, ",\"end\":");
            push_position(&mut out, range.end);
            push_str(&mut out, "}");
            push_str(&mut out, "}");
            push_str(&mut out, "}");
            assert(range == span_range(text@, sym.definition_span));
            assert(out@ =~= definition_text(id@, Some(*sym), text@, windows));
            text_of(&out)
        },
    }
}

/// What the server does with one message.
pub struct Reply {
    /// The message to send back, if any.
    pub response: Option<String>,
    /// A document (URI, text) whose diagnostics must be computed and published.
    pub analyze: Option<(String, String)>,
    /// A hover or definition request, to answer once the document is analysed.
    pub lookup: Option<Lookup>,
}

/// The language server: the table of open documents.
pub struct LspServer {
    documents: Table<String>,
    initialized: bool,
}

impl LspServer {
    /// The open documents: URI to text.
    pub closed spec fn docs(&self) -> Map<Seq<char>, Seq<char>> {
        Map::new(|k: Seq<char>| self.documents@.dom().contains(k), |k: Seq<char>| self.documents@[k]@)
    }

    /// The file path of a document URI: the `file://` scheme removed; a bare path is
    /// kept as it is.
    pub fn uri_to_path(uri: &str) -> (r: String)
        ensures
            r@ == (match without_prefix(uri@, "file://"@) {
                Some(rest) => rest,
                None => uri@,
            }),
    {
        let u = chars_of(uri);
        match strip_prefix_chars(&u, "file://") {
            Some(rest) => string_from_chars(&rest),
            None => string_from_chars(&u),
        }
    }

    /// A server with no open document.
    pub fn new() -> (s: Self)
        ensures
            s.docs() == Map::<Seq<char>, Seq<char>>::empty(),
    {
        let s = LspServer { documents: Table::new(), initialized: false };
        assert(s.docs() =~= Map::<Seq<char>, Seq<char>>::empty());
        s
    }

    /// The text of an open document.
    pub fn document(&self, uri: &str) -> (r: Option<&String>)
        ensures
            r matches Some(t) ==> self.docs().dom().contains(uri@) && t@ == self.docs()[uri@],
            r is None ==> !self.docs().dom().contains(uri@),
    {
        self.documents.get(uri)
    }

    fn set_document(&mut self, uri: String, text: String)
        ensures
            final(self).docs() == old(self).docs().insert(uri@, text@),
    {
        let ghost u = uri@;
        let ghost t = text@;
        self.documents.insert(uri, text);
        assert(self.docs() =~= old(self).docs().insert(u, t));
    }

    fn drop_document(&mut self, uri: &str)
        ensures
            final(self).docs() == old(self).docs().remove(uri@),
    {
        self.documents.remove(uri);
        assert(self.docs() =~= old(self).docs().remove(uri@));
    }

    /// Handles one JSON-RPC message: updates the document table, and says what to
    /// reply and which document to analyse.
    pub fn handle_message(&mut self, body: &str) -> (r: Reply)
        ensures
            final(self).docs() == docs_after(old(self).docs(), body@),
            opt_view(r.response) == reply_to(body@),
            (match r.analyze {
                Some((u, t)) => Some((u@, t@)),
                None => None,
            }) == analysis_for(body@),
            (match r.lookup {
                Some(l) => Some(lookup_view(l)),
                None => None,
            }) == lookup_for(body@),
    {
        proof {
            reveal_strlit("initialize");
            reveal_strlit("initialized");
            reveal_strlit("exit");
            reveal_strlit("shutdown");
            reveal_strlit("textDocument/didOpen");
            reveal_strlit("textDocument/didChange");
            reveal_strlit("textDocument/didClose");
            reveal_strlit("textDocument/hover");
            reveal_strlit("textDocument/definition");
            assert("initialize"@.len() == 10);
            assert("initialized"@.len() == 11);
            assert("exit"@.len() == 4);
            assert("shutdown"@.len() == 8);
            assert("textDocument/hover"@.len() == 18);
            assert("textDocument/definition"@.len() == 23);
            assert("textDocument/didOpen"@.len() == 20);
            assert("textDocument/didChange"@.len() == 22);
            assert("textDocument/didClose"@.len() == 21);
            assert("textDocument/didOpen"@[19] != "textDocument/didClose"@[19]);
        }
        let id = top_json_string(body, KEY_ID);
        let method = match top_json_string(body, KEY_METHOD) {
            Some(m) => m,
            None => return Reply { response: None, analyze: None, lookup: None },
        };
        let params = top_json_object(body, KEY_PARAMS);
        let m = method.as_str();
        if same_text(m, "initialize") {
            Reply { response: Some(initialize_response(&id)), analyze: None, lookup: None }
        } else if same_text(m, "initialized") || same_text(m, "exit") {
            Reply { response: None, analyze: None, lookup: None }
        } else if same_text(m, "shutdown") {
            let r = match &id {
                Some(i) => null_response(i.as_str()),
                None => null_response("null"),
            };
            Reply { response: Some(r), analyze: None, lookup: None }
        } else if same_text(m, "textDocument/didOpen") || same_text(m, "textDocument/didChange") {
            match &params {
                Some(p) => {
                    let uri = match extract_json_string(p.as_str(), KEY_URI) {
                        Some(u) => u,
                        None => String::new(),
                    };
                    let text = match extract_json_string(p.as_str(), KEY_TEXT) {
                        Some(t) => t,
                        None => String::new(),
                    };
                    self.set_document(uri.clone(), text.clone());
                            Reply { response: None, analyze: Some((uri, text)), lookup: None }
                },
                None => Reply { response: None, analyze: None, lookup: None },
            }
        } else if same_text(m, "textDocument/didClose") {
            match &params {
                Some(p) => {
                    let uri = match extract_json_string(p.as_str(), KEY_URI) {
                        Some(u) => u,
                        None => String::new(),
                    };
                    self.drop_document(uri.as_str());
                },
                None => {},
            }
            Reply { response: None, analyze: None, lookup: None }
        } else if same_text(m, "textDocument/hover") || same_text(m, "textDocument/definition") {
            match id {
                Some(i) => {
                    let uri = match &params {
                        Some(p) => match extract_json_string(p.as_str(), KEY_URI) {
                            Some(u) => u,
                            None => String::new(),
                        },
                        None => String::new(),
                    };
                    let position = match &params {
                        Some(p) => position_of_params(p.as_str()),
                        None => None,
                    };
                    let definition = same_text(m, "textDocument/definition");
                    Reply {
                        response: None,
                        analyze: None,
                        lookup: Some(Lookup { id: i, definition, uri, position }),
                    }
                },
                None => Reply { response: None, analyze: None, lookup: None },
            }
        } else {
            match &id {
                Some(i) => Reply { response: Some(null_response(i.as_str())), analyze: None, lookup: None },
                None => Reply { response: None, analyze: None, lookup: None },
            }
        }
    }
}

/// Whether a message asks the server to exit.
pub fn is_exit(body: &str) -> (r: bool)
    ensures
        r == (find(body@, "\"method\":\"exit\""@) is Some),
{
    let b = chars_of(body);
    let pat = chars_of("\"method\":\"exit\"");
    find_exec(&b, &pat, 0).is_some()
}


// ---------------------------------------------------------------------------
// Diagnostics.
// ---------------------------------------------------------------------------

/// A one-based line and column, as the compiler's sources count them.
#[derive(Clone, Copy, Debug)]
pub struct LineCol {
    pub line: usize,
    pub column: usize,
}

/// A diagnostic of the analysis, located in the sources.
pub struct SourceDiagnostic {
    /// It belongs to the file that is being analysed.
    pub same_file: bool,
    /// Start and end, when the diagnostic has a span.
    pub location: Option<(LineCol, LineCol)>,
    pub error: bool,
    pub message: String,
}

/// One LSP diagnostic: zero-based positions; severity 1 is an error, 2 a warning.
pub struct LspDiagnostic {
    pub line: u64,
    pub character: u64,
    pub end_line: u64,
    pub end_character: u64,
    pub severity: u64,
    pub message: String,
}

/// Every line and column is one-based.
pub open spec fn located_ok(d: SourceDiagnostic) -> bool {
    d.location matches Some((a, b)) ==> a.line >= 1 && a.column >= 1 && b.line >= 1 && b.column >= 1
}

/// The diagnostics of the analysed file, in order.
pub open spec fn same_file_items(s: Seq<SourceDiagnostic>) -> Seq<SourceDiagnostic>
    decreases s.len(),
{
    if s.len() == 0 {
        Seq::empty()
    } else {
        let rest = same_file_items(s.drop_last());
        if s.last().same_file {
            rest.push(s.last())
        } else {
            rest
        }
    }
}

/// `d` is the LSP form of `item`: positions one less (zero without a span).
pub open spec fn converts(item: SourceDiagnostic, d: LspDiagnostic) -> bool {
    &&& d.message@ == item.message@
    &&& d.severity == (if item.error { 1u64 } else { 2u64 })
    &&& match item.location {
        Some((a, b)) => d.line == a.line - 1 && d.character == a.column - 1 && d.end_line == b.line
            - 1 && d.end_character == b.column - 1,
        None => d.line == 0 && d.character == 0 && d.end_line == 0 && d.end_character == 0,
    }
}

/// The LSP diagnostics of the analysed file.
pub fn lsp_diagnostics(items: &Vec<SourceDiagnostic>) -> (out: Vec<LspDiagnostic>)
    requires
        forall|i: int| 0 <= i < items@.len() ==> located_ok(#[trigger] items@[i]),
    ensures
        out@.len() == same_file_items(items@).len(),
        forall|i: int| 0 <= i < out@.len() ==> converts(same_file_items(items@)[i], #[trigger] out@[i]),
{
    let mut out: Vec<LspDiagnostic> = Vec::new();
    let mut k: usize = 0;
    while k < items.len()
        invariant
            k <= items@.len(),
            forall|i: int| 0 <= i < items@.len() ==> located_ok(#[trigger] items@[i]),
            out@.len() == same_file_items(items@.take(k as int)).len(),
            forall|i: int| 0 <= i < out@.len() ==> converts(same_file_items(items@.take(k as int))[i], #[trigger] out@[i]),
        decreases items@.len() - k,
    {
        let item = &items[k];
        proof {
            assert(items@.take(k + 1).drop_last() =~= items@.take(k as int));
            assert(items@.take(k + 1).last() == items@[k as int]);
            assert(located_ok(items@[k as int]));
        }
        if item.same_file {
            let severity: u64 = if item.error {
                1
            } else {
                2
            };
            let d = match item.location {
                Some((a, b)) => LspDiagnostic {
                    line: (a.line - 1) as u64,
                    character: (a.column - 1) as u64,
                    end_line: (b.line - 1) as u64,
                    end_character: (b.column - 1) as u64,
                    severity,
                    message: item.message.clone(),
                },
                None => LspDiagnostic {
                    line: 0,
                    character: 0,
                    end_line: 0,
                    end_character: 0,
                    severity,
                    message: item.message.clone(),
                },
            };
            out.push(d);
        }
        k += 1;
    }
    assert(items@.take(k as int) =~= items@);
    out
}

/// Opens the diagnostics notification, up to the URI.
pub const PUBLISH_HEAD: &'static str = "{\"jsonrpc\":\"2.0\",\"method\":\"textDocument/publishDiagnostics\",\"params\":{\"uri\":";

/// The JSON object of one diagnostic.
pub open spec fn diagnostic_json(d: LspDiagnostic) -> Seq<char> {
    "{\"range\":{\"start\":{\"line\":"@ + decimal(d.line as nat) + ",\"character\":"@ + decimal(
        d.character as nat,
    ) + "},\"end\":{\"line\":"@ + decimal(d.end_line as nat) + ",\"character\":"@ + decimal(
        d.end_character as nat,
    ) + "},\"severity\":"@ + decimal(d.severity as nat) + ",\"message\":"@ + json_string(
        d.message@,
    ) + "}"@
}

/// The JSON objects of the diagnostics, separated by commas.
pub open spec fn diagnostics_json(ds: Seq<LspDiagnostic>) -> Seq<char>
    decreases ds.len(),
{
    if ds.len() == 0 {
        Seq::empty()
    } else if ds.len() == 1 {
        diagnostic_json(ds[0])
    } else {
        diagnostics_json(ds.drop_last()) + ","@ + diagnostic_json(ds.last())
    }
}

/// The `textDocument/publishDiagnostics` notification for a document.
pub open spec fn publish_text(uri: Seq<char>, ds: Seq<LspDiagnostic>) -> Seq<char> {
    PUBLISH_HEAD@ + json_string(uri) + ",\"diagnostics\":["@ + diagnostics_json(ds) + "]}}"@
}

fn push_diagnostic(out: &mut Vec<char>, d: &LspDiagnostic)
    ensures
        final(out)@ == old(out)@ + diagnostic_json(*d),
{
    push_str(out, "{\"range\":{\"start\":{\"line\":");
    push_decimal(out, d.line);
    push_str(out, ",\"character\":");
    push_decimal(out, d.character);
    push_str(out, "},\"end\":{\"line\":");
    push_decimal(out, d.end_line);
    push_str(out, ",\"character\":");
    push_decimal(out, d.end_character);
    push_str(out, "},\"severity\":");
    push_decimal(out, d.severity);
    push_str(out, ",\"message\":");
    let m = chars_of(d.message.as_str());
    out.push('"');
    push_escaped(out, &m);
    out.push('"');
    push_str(out, "}");
    proof {
        assert(final(out)@ =~= old(out)@ + diagnostic_json(*d));
    }
}

/// The diagnostics notification for `uri`.
pub fn publish_body(uri: &str, diagnostics: &Vec<LspDiagnostic>) -> (r: String)
    ensures
        r@ == publish_text(uri@, diagnostics@),
{
    let mut out: Vec<char> = Vec::new();
    push_str(&mut out, PUBLISH_HEAD);
    let u = chars_of(uri);
    out.push('"');
    push_escaped(&mut out, &u);
    out.push('"');
    push_str(&mut out, ",\"diagnostics\":[");
    let ghost head = out@;
    let mut i: usize = 0;
    while i < diagnostics.len()
        invariant
            i <= diagnostics@.len(),
            out@ == head + diagnostics_json(diagnostics@.take(i as int)),
        decreases diagnostics@.len() - i,
    {
        if i > 0 {
            push_str(&mut out, ",");
        }
        push_diagnostic(&mut out, &diagnostics[i]);
        proof {
            let t = diagnostics@.take(i + 1);
            assert(t.drop_last() =~= diagnostics@.take(i as int));
            assert(t.last() == diagnostics@[i as int]);
            if i == 0 {
                assert(diagnostics@.take(0) =~= Seq::<LspDiagnostic>::empty());
                assert(t.len() == 1 && t[0] == diagnostics@[0]);
            }
        }
        i += 1;
    }
    push_str(&mut out, "]}}");
    proof {
        assert(diagnostics@.take(i as int) =~= diagnostics@);
        assert(out@ =~= publish_text(uri@, diagnostics@));
    }
    string_from_chars(&out)
}


// ---------------------------------------------------------------------------
// Laws of the document table.
// ---------------------------------------------------------------------------

/// Opening or changing a document makes the server hold the text that the message
/// carried under the URI that it named.
pub proof fn lemma_write_then_read(docs: Map<Seq<char>, Seq<char>>, body: Seq<char>, params: Seq<char>)
    requires
        method_of(body) == Some("textDocument/didOpen"@) || method_of(body) == Some("textDocument/didChange"@),
        params_of(body) == Some(params),
    ensures
        docs_after(docs, body).dom().contains(doc_fields(params).0),
        docs_after(docs, body)[doc_fields(params).0] == doc_fields(params).1,
{
}

/// Closing a document forgets it.
pub proof fn lemma_close_then_gone(docs: Map<Seq<char>, Seq<char>>, body: Seq<char>, params: Seq<char>)
    requires
        method_of(body) == Some("textDocument/didClose"@),
        params_of(body) == Some(params),
    ensures
        !docs_after(docs, body).dom().contains(doc_fields(params).0),
{
    reveal_strlit("textDocument/didClose");
    reveal_strlit("textDocument/didOpen");
    reveal_strlit("textDocument/didChange");
    assert("textDocument/didClose"@.len() == 21);
    assert("textDocument/didOpen"@.len() == 20);
    assert("textDocument/didChange"@.len() == 22);
}

// ---------------------------------------------------------------------------
// Message frames.
// ---------------------------------------------------------------------------

/// A line of a message's header.
pub enum HeaderLine {
    /// The empty line that ends the header.
    End,
    /// A `Content-Length` field, with its value if it is a decimal `usize`.
    Length(Option<usize>),
    /// Any other field.
    Other,
}

/// `str::parse::<usize>`: an optional `+` and at least one decimal digit, the value
/// within the range of `usize`.
pub open spec fn usize_value(s: Seq<char>) -> Option<nat> {
    let body = if s.len() > 0 && s[0] == '+' {
        s.drop_first()
    } else {
        s
    };
    if body.len() == 0 {
        None
    } else {
        match digits_value(body, 10) {
            Some(v) => if v <= usize::MAX {
                Some(v)
            } else {
                None
            },
            None => None,
        }
    }
}

/// What a header line says: lines are read without their trailing white space and
/// without a leading byte-order mark.
pub open spec fn header_line_spec(line: Seq<char>) -> HeaderLineV {
    let t = trim_end(line);
    let u = match without_prefix(t, seq!['\u{feff}']) {
        Some(rest) => rest,
        None => t,
    };
    if u.len() == 0 {
        HeaderLineV::End
    } else {
        match without_prefix(u, "Content-Length:"@) {
            Some(rest) => HeaderLineV::Length(usize_value(trim(rest))),
            None => HeaderLineV::Other,
        }
    }
}

/// The mathematical form of a header line.
pub enum HeaderLineV {
    End,
    Length(Option<nat>),
    Other,
}

/// The view of a header line.
pub open spec fn header_view(h: HeaderLine) -> HeaderLineV {
    match h {
        HeaderLine::End => HeaderLineV::End,
        HeaderLine::Length(Some(n)) => HeaderLineV::Length(Some(n as nat)),
        HeaderLine::Length(None) => HeaderLineV::Length(None),
        HeaderLine::Other => HeaderLineV::Other,
    }
}

/// Parses a decimal `usize`.
pub fn parse_usize(s: &Vec<char>) -> (r: Option<usize>)
    ensures
        match r {
            Some(v) => usize_value(s@) == Some(v as nat),
            None => usize_value(s@) is None,
        },
{
    let n = s.len();
    let start: usize = if n > 0 && s[0] == '+' {
        1
    } else {
        0
    };
    let ghost body = if s@.len() > 0 && s@[0] == '+' {
        s@.drop_first()
    } else {
        s@
    };
    assert(body =~= s@.skip(start as int));
    if start == n {
        return None;
    }
    let mut v: usize = 0;
    let mut i: usize = start;
    while i < n
        invariant
            n == s@.len(),
            start <= i <= n,
            start <= 1,
            start == (if s@.len() > 0 && s@[0] == '+' { 1usize } else { 0usize }),
            body == (if s@.len() > 0 && s@[0] == '+' {
                s@.drop_first()
            } else {
                s@
            }),
            body.len() > 0,
            body == s@.skip(start as int),
            digits_value(body.take(i - start), 10) == Some(v as nat),
        decreases n - i,
    {
        proof {
            assert(body.take(i - start + 1).drop_last() =~= body.take(i - start));
            assert(body.take(i - start + 1).last() == s@[i as int]);
        }
        let c = s[i];
        if !('0' <= c && c <= '9') {
            assert(digits_value(body.take(i - start + 1), 10) is None);
            proof {
                if digits_value(body, 10) is Some {
                    lemma_digits_prefix(body, 10, i - start + 1);
                }
            }
            return None;
        }
        let d = (c as u32 - '0' as u32) as usize;
        if v > (usize::MAX - d) / 10 {
            assert(v * 10 + d > usize::MAX) by (nonlinear_arith)
                requires
                    v > (usize::MAX - d) / 10,
                    d <= 9,
            ;
            assert(digits_value(body.take(i - start + 1), 10) == Some((v * 10 + d) as nat));
            proof {
                if digits_value(body, 10) is Some {
                    lemma_digits_prefix(body, 10, i - start + 1);
                }
            }
            return None;
        }
        assert(v * 10 + d <= usize::MAX) by (nonlinear_arith)
            requires
                v <= (usize::MAX - d) / 10,
                d <= 9,
        ;
        v = v * 10 + d;
        assert(digits_value(body.take(i - start + 1), 10) == Some(v as nat));
        i += 1;
    }
    assert(body.take(n - start) =~= body);
    Some(v)
}

/// What a line of a message's header says.
pub fn header_line(line: &str) -> (r: HeaderLine)
    ensures
        header_view(r) == header_line_spec(line@),
{
    let l = chars_of(line);
    let e = skip_ws_back(&l, 0, l.len());
    assert(l@.subrange(0, l@.len() as int) =~= l@);
    let t = slice_chars(&l, 0, e);
    let u = if e > 0 && t[0] == '\u{feff}' {
        assert(t@.take(1) =~= seq!['\u{feff}']);
        slice_chars(&t, 1, e)
    } else {
        proof {
            if t@.len() >= 1 {
                assert(t@.take(1)[0] == t@[0]);
            }
        }
        t
    };
    let ghost tv = trim_end(line@);
    assert(u@ == (match without_prefix(tv, seq!['\u{feff}']) {
        Some(rest) => rest,
        None => tv,
    })) by {
        if e > 0 && t@[0] == '\u{feff}' {
            assert(u@ =~= tv.skip(1));
        }
    }
    if u.len() == 0 {
        return HeaderLine::End;
    }
    let us = string_from_chars(&u);
    let uc = chars_of(us.as_str());
    match strip_prefix_chars(&uc, "Content-Length:") {
        Some(rest) => {
            let n = skip_ws_in(&rest, 0, rest.len());
            let m = skip_ws_back(&rest, n, rest.len());
            assert(rest@.subrange(0, rest@.len() as int) =~= rest@);
            let value = slice_chars(&rest, n, m);
            HeaderLine::Length(parse_usize(&value))
        },
        None => HeaderLine::Other,
    }
}

} // verus!
