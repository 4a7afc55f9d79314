//! Conservative source formatter: literals and comments are kept as they are;
//! only the white space between tokens, the indentation and the line breaks are
//! normalised.

use vstd::prelude::*;

use crate::text::{line_end, lemma_line_end, is_ws, is_whitespace, is_alphanumeric, alnum_flags, alnum_flags_of, chars_of, string_from_chars, strip_ws, lemma_strip_ws_concat, lemma_strip_ws_push, lemma_strip_ws_push_ws};

verus! {

/// The lexical classes that the formatter distinguishes.
#[derive(Clone, Copy, Debug, PartialEq, Eq, Structural)]
pub enum TokenKind {
    Word,
    String,
    LineComment,
    BlockComment,
    OpenBrace,
    CloseBrace,
    OpenParen,
    CloseParen,
    OpenBracket,
    CloseBracket,
    Comma,
    Semicolon,
    Colon,
    Dot,
    Operator,
    Other,
}

/// A token: the characters `start..end` of the source, and their class.
#[derive(Clone, Copy, Debug)]
pub struct Token {
    pub start: usize,
    pub end: usize,
    pub kind: TokenKind,
}

/// The mathematical form of a token.
pub struct Tok {
    pub start: int,
    pub end: int,
    pub kind: TokenKind,
}

impl Token {
    pub open spec fn view(self) -> Tok {
        Tok { start: self.start as int, end: self.end as int, kind: self.kind }
    }
}

/// Characters `a b` stand at position `i` of `s`.
pub open spec fn at2(s: Seq<char>, i: int, a: char, b: char) -> bool {
    0 <= i && i + 2 <= s.len() && s[i] == a && s[i + 1] == b
}

/// Characters `a b c` stand at position `i` of `s`.
pub open spec fn at3(s: Seq<char>, i: int, a: char, b: char, c: char) -> bool {
    0 <= i && i + 3 <= s.len() && s[i] == a && s[i + 1] == b && s[i + 2] == c
}

/// Length and class of the punctuation token at `i`: the longest operators first, in a fixed order.
pub open spec fn punct(s: Seq<char>, i: int) -> (int, TokenKind) {
    if at3(s, i, '.', '.', '.') || at3(s, i, '<', '<', '=') || at3(s, i, '>', '>', '=') || at3(
        s,
        i,
        '&',
        '&',
        '=',
    ) || at3(s, i, '|', '|', '=') || at3(s, i, '?', '?', '=') {
        (3, TokenKind::Operator)
    } else if at2(s, i, '*', '*') || at2(s, i, '+', '+') || at2(s, i, '-', '-') || at2(s, i, '+', '=')
        || at2(s, i, '-', '=') || at2(s, i, '*', '=') || at2(s, i, '/', '=') || at2(s, i, '%', '=')
        || at2(s, i, '&', '=') || at2(s, i, '|', '=') || at2(s, i, '^', '=') || at2(s, i, '=', '=')
        || at2(s, i, '!', '=') || at2(s, i, '<', '=') || at2(s, i, '>', '=') || at2(s, i, '&', '&')
        || at2(s, i, '|', '|') || at2(s, i, '<', '<') || at2(s, i, '>', '>') || at2(s, i, '?', '?') {
        (2, TokenKind::Operator)
    } else if at2(s, i, '?', '.') {
        (2, TokenKind::Dot)
    } else if at2(s, i, '=', '>') {
        (2, TokenKind::Operator)
    } else {
        (1, single_kind(s[i]))
    }
}

/// The class of a one-character punctuation token.
pub open spec fn single_kind(c: char) -> TokenKind {
    if c == '{' {
        TokenKind::OpenBrace
    } else if c == '}' {
        TokenKind::CloseBrace
    } else if c == '(' {
        TokenKind::OpenParen
    } else if c == ')' {
        TokenKind::CloseParen
    } else if c == '[' {
        TokenKind::OpenBracket
    } else if c == ']' {
        TokenKind::CloseBracket
    } else if c == ',' {
        TokenKind::Comma
    } else if c == ';' {
        TokenKind::Semicolon
    } else if c == ':' {
        TokenKind::Colon
    } else if c == '.' {
        TokenKind::Dot
    } else if c == '+' || c == '-' || c == '*' || c == '/' || c == '%' || c == '=' || c == '<' || c
        == '>' || c == '&' || c == '|' || c == '^' || c == '!' || c == '~' || c == '?' {
        TokenKind::Operator
    } else {
        TokenKind::Other
    }
}

/// Just past the first `*/` that starts at or after `j`, or the end of `s`.
pub open spec fn block_end(s: Seq<char>, j: int) -> int
    decreases s.len() - j,
{
    if j >= s.len() {
        s.len() as int
    } else if at2(s, j, '*', '/') {
        j + 2
    } else {
        block_end(s, j + 1)
    }
}

/// Just past the closing `quote` of a literal whose body starts at `j` (a backslash
/// escapes the next character), or the end of `s` if it is not closed.
pub open spec fn quoted_end(s: Seq<char>, j: int, quote: char, escaped: bool) -> int
    decreases s.len() - j,
{
    if j >= s.len() {
        s.len() as int
    } else if escaped {
        quoted_end(s, j + 1, quote, false)
    } else if s[j] == '\\' {
        quoted_end(s, j + 1, quote, true)
    } else if s[j] == quote {
        j + 1
    } else {
        quoted_end(s, j + 1, quote, false)
    }
}

/// A character that may stand in a word: `_`, `$` or an alphanumeric one.
pub open spec fn word_char(s: Seq<char>, alnum: Seq<bool>, j: int) -> bool {
    s[j] == '_' || s[j] == '$' || alnum[j]
}

/// The end of the run of word characters that starts at `j`.
pub open spec fn word_end(s: Seq<char>, alnum: Seq<bool>, j: int) -> int
    decreases s.len() - j,
{
    if j >= s.len() {
        s.len() as int
    } else if word_char(s, alnum, j) {
        word_end(s, alnum, j + 1)
    } else {
        j
    }
}

/// A character that opens a quoted literal.
pub open spec fn is_quote(c: char) -> bool {
    c == '\'' || c == '"' || c == '`'
}

/// End and class of the token that starts at `i` (`i` not white space).
pub open spec fn scan(s: Seq<char>, alnum: Seq<bool>, i: int) -> (int, TokenKind) {
    if at2(s, i, '/', '/') {
        (line_end(s, i + 2), TokenKind::LineComment)
    } else if at2(s, i, '/', '*') {
        (block_end(s, i + 1), TokenKind::BlockComment)
    } else if is_quote(s[i]) {
        (quoted_end(s, i + 1, s[i], false), TokenKind::String)
    } else if word_char(s, alnum, i) {
        (word_end(s, alnum, i + 1), TokenKind::Word)
    } else {
        let (n, k) = punct(s, i);
        (i + n, k)
    }
}

proof fn lemma_block_end(s: Seq<char>, j: int)
    requires
        0 <= j,
    ensures
        j <= s.len() ==> j <= block_end(s, j) <= s.len(),
    decreases s.len() - j,
{
    if j < s.len() && !at2(s, j, '*', '/') {
        lemma_block_end(s, j + 1);
    }
}

proof fn lemma_quoted_end(s: Seq<char>, j: int, quote: char, escaped: bool)
    requires
        0 <= j <= s.len(),
    ensures
        j <= quoted_end(s, j, quote, escaped) <= s.len(),
    decreases s.len() - j,
{
    if j < s.len() {
        if escaped {
            lemma_quoted_end(s, j + 1, quote, false);
        } else if s[j] == '\\' {
            lemma_quoted_end(s, j + 1, quote, true);
        } else if s[j] != quote {
            lemma_quoted_end(s, j + 1, quote, false);
        }
    }
}

proof fn lemma_word_end(s: Seq<char>, alnum: Seq<bool>, j: int)
    requires
        0 <= j <= s.len(),
    ensures
        j <= word_end(s, alnum, j) <= s.len(),
    decreases s.len() - j,
{
    if j < s.len() && word_char(s, alnum, j) {
        lemma_word_end(s, alnum, j + 1);
    }
}

/// A token ends after it starts and no later than the end of the source.
pub proof fn lemma_scan_bounds(s: Seq<char>, alnum: Seq<bool>, i: int)
    requires
        0 <= i < s.len(),
    ensures
        i < scan(s, alnum, i).0 <= s.len(),
{
    if at2(s, i, '/', '/') {
        lemma_line_end(s, i + 2);
    } else if at2(s, i, '/', '*') {
        lemma_block_end(s, i + 1);
        if at2(s, i + 1, '*', '/') {
        } else {
            lemma_block_end(s, i + 2);
        }
    } else if is_quote(s[i]) {
        lemma_quoted_end(s, i + 1, s[i], false);
    } else if word_char(s, alnum, i) {
        lemma_word_end(s, alnum, i + 1);
    }
}

/// The tokens of `s` from position `i` on; white space between tokens is skipped.
pub open spec fn tokens_from(s: Seq<char>, alnum: Seq<bool>, i: int) -> Seq<Tok>
    decreases s.len() - i,
{
    if i < 0 || i >= s.len() {
        Seq::empty()
    } else if is_ws(s[i]) {
        tokens_from(s, alnum, i + 1)
    } else {
        let (e, k) = scan(s, alnum, i);
        proof {
            lemma_scan_bounds(s, alnum, i);
        }
        seq![Tok { start: i, end: e, kind: k }] + tokens_from(s, alnum, e)
    }
}


/// Every token that `tokens_from(s, alnum, i)` yields is a scanned token inside `s[i..]`.
pub open spec fn tok_ok(s: Seq<char>, alnum: Seq<bool>, t: Tok) -> bool {
    &&& 0 <= t.start < t.end <= s.len()
    &&& !is_ws(s[t.start])
    &&& scan(s, alnum, t.start) == (t.end, t.kind)
}

pub proof fn lemma_tokens_ok(s: Seq<char>, alnum: Seq<bool>, i: int)
    requires
        0 <= i,
    ensures
        forall|k: int|
            0 <= k < tokens_from(s, alnum, i).len() ==> tok_ok(
                s,
                alnum,
                #[trigger] tokens_from(s, alnum, i)[k],
            ) && i <= tokens_from(s, alnum, i)[k].start,
    decreases s.len() - i,
{
    if i < s.len() {
        if is_ws(s[i]) {
            lemma_tokens_ok(s, alnum, i + 1);
        } else {
            let (e, k) = scan(s, alnum, i);
            lemma_scan_bounds(s, alnum, i);
            lemma_tokens_ok(s, alnum, e);
            let rest = tokens_from(s, alnum, e);
            assert forall|m: int| 0 <= m < tokens_from(s, alnum, i).len() implies tok_ok(
                s,
                alnum,
                #[trigger] tokens_from(s, alnum, i)[m],
            ) && i <= tokens_from(s, alnum, i)[m].start by {
                if m > 0 {
                    assert(tokens_from(s, alnum, i)[m] == rest[m - 1]);
                }
            }
        }
    }
}

/// The mathematical form of a list of tokens.
pub open spec fn tok_views(ts: Seq<Token>) -> Seq<Tok> {
    ts.map_values(|t: Token| t.view())
}

fn at2_exec(s: &Vec<char>, i: usize, a: char, b: char) -> (r: bool)
    ensures
        r == at2(s@, i as int, a, b),
{
    i < s.len() && s.len() - i >= 2 && s[i] == a && s[i + 1] == b
}

fn at3_exec(s: &Vec<char>, i: usize, a: char, b: char, c: char) -> (r: bool)
    ensures
        r == at3(s@, i as int, a, b, c),
{
    i < s.len() && s.len() - i >= 3 && s[i] == a && s[i + 1] == b && s[i + 2] == c
}

fn single_kind_of(c: char) -> (k: TokenKind)
    ensures
        k == single_kind(c),
{
    match c {
        '{' => TokenKind::OpenBrace,
        '}' => TokenKind::CloseBrace,
        '(' => TokenKind::OpenParen,
        ')' => TokenKind::CloseParen,
        '[' => TokenKind::OpenBracket,
        ']' => TokenKind::CloseBracket,
        ',' => TokenKind::Comma,
        ';' => TokenKind::Semicolon,
        ':' => TokenKind::Colon,
        '.' => TokenKind::Dot,
        '+' | '-' | '*' | '/' | '%' | '=' | '<' | '>' | '&' | '|' | '^' | '!' | '~' | '?' => {
            TokenKind::Operator
        },
        _ => TokenKind::Other,
    }
}

/// Length and class of the punctuation token at `i`.
pub fn punctuation(s: &Vec<char>, i: usize) -> (r: (usize, TokenKind))
    requires
        i < s@.len(),
    ensures
        r.0 as int == punct(s@, i as int).0,
        r.1 == punct(s@, i as int).1,
{
    if at3_exec(s, i, '.', '.', '.') || at3_exec(s, i, '<', '<', '=') || at3_exec(s, i, '>', '>', '=')
        || at3_exec(s, i, '&', '&', '=') || at3_exec(s, i, '|', '|', '=') || at3_exec(
        s,
        i,
        '?',
        '?',
        '=',
    ) {
        (3, TokenKind::Operator)
    } else if at2_exec(s, i, '*', '*') || at2_exec(s, i, '+', '+') || at2_exec(s, i, '-', '-')
        || at2_exec(s, i, '+', '=') || at2_exec(s, i, '-', '=') || at2_exec(s, i, '*', '=')
        || at2_exec(s, i, '/', '=') || at2_exec(s, i, '%', '=') || at2_exec(s, i, '&', '=')
        || at2_exec(s, i, '|', '=') || at2_exec(s, i, '^', '=') || at2_exec(s, i, '=', '=')
        || at2_exec(s, i, '!', '=') || at2_exec(s, i, '<', '=') || at2_exec(s, i, '>', '=')
        || at2_exec(s, i, '&', '&') || at2_exec(s, i, '|', '|') || at2_exec(s, i, '<', '<')
        || at2_exec(s, i, '>', '>') || at2_exec(s, i, '?', '?') {
        (2, TokenKind::Operator)
    } else if at2_exec(s, i, '?', '.') {
        (2, TokenKind::Dot)
    } else if at2_exec(s, i, '=', '>') {
        (2, TokenKind::Operator)
    } else {
        (1, single_kind_of(s[i]))
    }
}

fn find_line_end(s: &Vec<char>, j: usize) -> (r: usize)
    requires
        j <= s@.len(),
    ensures
        r as int == line_end(s@, j as int),
{
    let mut k = j;
    while k < s.len() && s[k] != '\n'
        invariant
            j <= k <= s@.len(),
            line_end(s@, k as int) == line_end(s@, j as int),
        decreases s@.len() - k,
    {
        k += 1;
    }
    k
}

fn find_block_end(s: &Vec<char>, j: usize) -> (r: usize)
    requires
        j <= s@.len(),
    ensures
        r as int == block_end(s@, j as int),
{
    let mut k = j;
    while k < s.len() && !at2_exec(s, k, '*', '/')
        invariant
            j <= k <= s@.len(),
            block_end(s@, k as int) == block_end(s@, j as int),
        decreases s@.len() - k,
    {
        k += 1;
    }
    if k < s.len() {
        k + 2
    } else {
        k
    }
}

fn find_quoted_end(s: &Vec<char>, j: usize, quote: char) -> (r: usize)
    requires
        j <= s@.len(),
    ensures
        r as int == quoted_end(s@, j as int, quote, false),
{
    let mut k = j;
    let mut escaped = false;
    while k < s.len()
        invariant
            j <= k <= s@.len(),
            quoted_end(s@, k as int, quote, escaped) == quoted_end(s@, j as int, quote, false),
        decreases s@.len() - k,
    {
        let c = s[k];
        k += 1;
        if escaped {
            escaped = false;
        } else if c == '\\' {
            escaped = true;
        } else if c == quote {
            return k;
        }
    }
    k
}

fn find_word_end(s: &Vec<char>, alnum: &Vec<bool>, j: usize) -> (r: usize)
    requires
        j <= s@.len(),
        alnum@.len() == s@.len(),
    ensures
        r as int == word_end(s@, alnum@, j as int),
{
    let mut k = j;
    while k < s.len() && (s[k] == '_' || s[k] == '$' || alnum[k])
        invariant
            j <= k <= s@.len(),
            alnum@.len() == s@.len(),
            word_end(s@, alnum@, k as int) == word_end(s@, alnum@, j as int),
        decreases s@.len() - k,
    {
        k += 1;
    }
    k
}

/// End and class of the token that starts at `i`.
fn scan_token(s: &Vec<char>, alnum: &Vec<bool>, i: usize) -> (r: (usize, TokenKind))
    requires
        i < s@.len(),
        alnum@.len() == s@.len(),
    ensures
        r.0 as int == scan(s@, alnum@, i as int).0,
        r.1 == scan(s@, alnum@, i as int).1,
{
    let c = s[i];
    let n = s.len();
    if at2_exec(s, i, '/', '/') {
        (find_line_end(s, i + 2), TokenKind::LineComment)
    } else if at2_exec(s, i, '/', '*') {
        (find_block_end(s, i + 1), TokenKind::BlockComment)
    } else if c == '\'' || c == '"' || c == '`' {
        (find_quoted_end(s, i + 1, c), TokenKind::String)
    } else if c == '_' || c == '$' || alnum[i] {
        (find_word_end(s, alnum, i + 1), TokenKind::Word)
    } else {
        let (n, k) = punctuation(s, i);
        (i + n, k)
    }
}

/// Splits `s` into tokens, given `alnum[i]`: whether `s[i]` is alphanumeric.
pub fn tokenize(s: &Vec<char>, alnum: &Vec<bool>) -> (toks: Vec<Token>)
    requires
        alnum@.len() == s@.len(),
    ensures
        tok_views(toks@) == tokens_from(s@, alnum@, 0),
{
    let mut toks: Vec<Token> = Vec::new();
    let mut index: usize = 0;
    while index < s.len()
        invariant
            index <= s@.len(),
            alnum@.len() == s@.len(),
            tok_views(toks@) + tokens_from(s@, alnum@, index as int) == tokens_from(s@, alnum@, 0),
        decreases s@.len() - index,
    {
        if is_whitespace(s[index]) {
            index += 1;
            continue;
        }
        let (end, kind) = scan_token(s, alnum, index);
        proof {
            lemma_scan_bounds(s@, alnum@, index as int);
            assert(tok_views(toks@.push(Token { start: index, end, kind })) =~= tok_views(toks@)
                + seq![Tok { start: index as int, end: end as int, kind }]);
        }
        toks.push(Token { start: index, end, kind });
        index = end;
    }
    proof {
        assert(tok_views(toks@) + tokens_from(s@, alnum@, index as int) =~= tok_views(toks@));
    }
    toks
}


// ---------------------------------------------------------------------------
// The layout rules, stated over the mathematical state of the formatter.
// ---------------------------------------------------------------------------

/// The state of the formatter between two tokens.
#[verifier::ext_equal]
pub struct FmtState {
    pub out: Seq<char>,
    pub indent: nat,
    pub paren: nat,
    pub bracket: nat,
    /// One entry per open `{`: whether it opened outside any `(` and `[`.
    pub braces: Seq<bool>,
    pub prev: Option<TokenKind>,
    pub prev_text: Seq<char>,
    pub pprev_text: Seq<char>,
    pub line_start: bool,
    /// Ternary `?` still waiting for their `:`.
    pub ternary: nat,
    /// Depth of generic angle brackets.
    pub generic: nat,
}

/// A space, unless the output is empty or already ends in a space or a line break.
pub open spec fn with_space(out: Seq<char>) -> Seq<char> {
    if out.len() > 0 && out.last() != ' ' && out.last() != '\n' {
        out.push(' ')
    } else {
        out
    }
}

/// `out` without its trailing spaces.
pub open spec fn trim_spaces(out: Seq<char>) -> Seq<char>
    decreases out.len(),
{
    if out.len() > 0 && out.last() == ' ' {
        trim_spaces(out.drop_last())
    } else {
        out
    }
}

/// `out` without its trailing spaces and line breaks.
pub open spec fn trim_blank(out: Seq<char>) -> Seq<char>
    decreases out.len(),
{
    if out.len() > 0 && (out.last() == ' ' || out.last() == '\n') {
        trim_blank(out.drop_last())
    } else {
        out
    }
}

/// Trailing spaces removed, then a line break unless one already ends the output.
pub open spec fn with_newline(out: Seq<char>) -> Seq<char> {
    let t = trim_spaces(out);
    if t.len() > 0 && t.last() == '\n' {
        t
    } else {
        t.push('\n')
    }
}

/// Four spaces per indentation level.
pub open spec fn indent_text(n: nat) -> Seq<char> {
    Seq::new(4 * n, |i: int| ' ')
}

pub open spec fn st_space(st: FmtState) -> FmtState {
    FmtState { out: with_space(st.out), ..st }
}

pub open spec fn st_newline(st: FmtState) -> FmtState {
    FmtState { out: with_newline(st.out), line_start: true, ..st }
}

pub open spec fn st_indent(st: FmtState) -> FmtState {
    if st.line_start {
        FmtState { out: st.out + indent_text(st.indent), line_start: false, ..st }
    } else {
        st
    }
}

pub open spec fn st_push(st: FmtState, c: char) -> FmtState {
    FmtState { out: st.out.push(c), ..st }
}

pub open spec fn st_append(st: FmtState, t: Seq<char>) -> FmtState {
    FmtState { out: st.out + t, ..st }
}

/// A space separates two tokens when a word-like token follows a word-like or closing one.
pub open spec fn needs_space_spec(prev: Option<TokenKind>, cur: TokenKind, prev_text: Seq<char>) -> bool {
    (prev == Some(TokenKind::Word) || prev == Some(TokenKind::String) || prev == Some(
        TokenKind::CloseParen,
    ) || prev == Some(TokenKind::CloseBracket) || prev == Some(TokenKind::CloseBrace)) && (cur
        == TokenKind::Word || cur == TokenKind::String || cur == TokenKind::OpenBrace)
        && prev_text.len() != 0
}

/// Keywords after which `(` is preceded by a space.
pub open spec fn paren_keyword(t: Seq<char>) -> bool {
    t == "if"@ || t == "for"@ || t == "while"@ || t == "switch"@ || t == "match"@ || t == "catch"@
}

/// Words after which `Name<` opens generic arguments.
pub open spec fn generic_context(t: Seq<char>) -> bool {
    t == "function"@ || t == "class"@ || t == "struct"@ || t == "enum"@ || t == "interface"@ || t
        == "implements"@ || t == "extends"@ || t == "where"@ || t == "new"@ || t == ":"@
}

pub open spec fn kind_of(t: Option<Tok>) -> Option<TokenKind> {
    match t {
        Some(t) => Some(t.kind),
        None => None,
    }
}

pub open spec fn tok_text(s: Seq<char>, t: Tok) -> Seq<char> {
    s.subrange(t.start, t.end)
}

pub open spec fn step_line_comment(st: FmtState, text: Seq<char>) -> FmtState {
    let st = if !st.line_start { st_space(st) } else { st };
    st_newline(st_append(st_indent(st), text))
}

pub open spec fn step_block_comment(st: FmtState, text: Seq<char>) -> FmtState {
    let st = if needs_space_spec(st.prev, TokenKind::BlockComment, st.prev_text) {
        st_space(st)
    } else {
        st
    };
    let st = st_append(st_indent(st), text);
    if text.contains('\n') {
        st_newline(st)
    } else {
        st
    }
}

pub open spec fn step_open_brace(st: FmtState) -> FmtState {
    let st = if needs_space_spec(st.prev, TokenKind::OpenBrace, st.prev_text) || (st.prev == Some(
        TokenKind::Operator,
    ) && st.prev_text == ">"@) {
        st_space(st)
    } else {
        st
    };
    let st = st_push(st_indent(st), '{');
    let st = FmtState {
        braces: st.braces.push(st.paren == 0 && st.bracket == 0),
        indent: st.indent + 1,
        ..st
    };
    st_newline(st)
}

pub open spec fn step_close_brace(st: FmtState, next: Option<TokenKind>) -> FmtState {
    let st = FmtState { indent: if st.indent > 0 { (st.indent - 1) as nat } else { 0 }, ..st };
    let st = if !st.line_start { st_newline(st) } else { st };
    let st = st_push(st_indent(st), '}');
    let top = st.braces.len() > 0 && st.braces.last();
    let st = FmtState {
        braces: if st.braces.len() > 0 { st.braces.drop_last() } else { st.braces },
        ..st
    };
    if top && (next == Some(TokenKind::Word) || next == Some(TokenKind::LineComment) || next == Some(
        TokenKind::BlockComment,
    )) {
        st_newline(st)
    } else {
        st
    }
}

pub open spec fn step_semicolon(st: FmtState) -> FmtState {
    let st = st_push(st_indent(st), ';');
    if st.paren == 0 {
        st_newline(st)
    } else {
        st_space(st)
    }
}

/// A `;` inside parentheses (as in a `for` header) is followed by one space and
/// never ends the line; a `;` outside parentheses ends the line.
pub proof fn lemma_semicolon_layout(st: FmtState)
    ensures
        st.paren > 0 ==> step_semicolon(st).out == with_space(st_indent(st).out.push(';')) && !step_semicolon(
            st,
        ).line_start && step_semicolon(st).out.last() == ' ',
        st.paren == 0 ==> step_semicolon(st).line_start && step_semicolon(st).out.last() == '\n',
{
    let pushed = st_indent(st).out.push(';');
    assert(pushed.last() == ';');
    if st.paren == 0 {
        lemma_trim_spaces_keeps(pushed);
    }
}

/// A `,` inside parentheses or brackets is followed by one space and never ends the
/// line.
pub proof fn lemma_comma_layout(st: FmtState)
    requires
        st.paren > 0 || st.bracket > 0,
    ensures
        step_comma(st).out == with_space(st.out.push(',')),
        step_comma(st).out.last() == ' ',
        step_comma(st).line_start == st.line_start,
{
}

/// Trimming spaces keeps a text that does not end in a space.
proof fn lemma_trim_spaces_keeps(out: Seq<char>)
    requires
        out.len() > 0,
        out.last() != ' ',
    ensures
        trim_spaces(out) == out,
{
}

pub open spec fn step_comma(st: FmtState) -> FmtState {
    let st = st_push(st, ',');
    if st.generic == 0 && st.braces.len() > 0 && st.braces.last() && st.paren == 0 && st.bracket
        == 0 {
        st_newline(st)
    } else {
        st_space(st)
    }
}

pub open spec fn step_colon(st: FmtState) -> FmtState {
    if st.ternary > 0 {
        let st = st_space(st_push(st_space(st), ':'));
        FmtState { ternary: (st.ternary - 1) as nat, ..st }
    } else {
        st_space(st_push(st, ':'))
    }
}

pub open spec fn step_open_paren(st: FmtState) -> FmtState {
    let st = if st.prev == Some(TokenKind::Word) && paren_keyword(st.prev_text) {
        st_space(st)
    } else {
        st
    };
    let st = st_push(st, '(');
    FmtState { paren: st.paren + 1, ..st }
}

pub open spec fn step_close_paren(st: FmtState) -> FmtState {
    let st = st_push(st, ')');
    FmtState { paren: if st.paren > 0 { (st.paren - 1) as nat } else { 0 }, ..st }
}

pub open spec fn step_open_bracket(st: FmtState) -> FmtState {
    let st = st_push(st, '[');
    FmtState { bracket: st.bracket + 1, ..st }
}

pub open spec fn step_close_bracket(st: FmtState) -> FmtState {
    let st = st_push(st, ']');
    FmtState { bracket: if st.bracket > 0 { (st.bracket - 1) as nat } else { 0 }, ..st }
}

/// A spaced infix operator.
pub open spec fn st_infix(st: FmtState, text: Seq<char>) -> FmtState {
    st_space(st_append(st_space(st), text))
}

pub open spec fn step_question(st: FmtState, next: Option<TokenKind>, next_text: Option<Seq<char>>) -> FmtState {
    let ternary = next == Some(TokenKind::Word) || next == Some(TokenKind::String) || next == Some(
        TokenKind::OpenParen,
    ) || next == Some(TokenKind::OpenBracket) || next_text == Some("!"@) || next_text == Some(
        "~"@,
    ) || next_text == Some("-"@) || next_text == Some("+"@);
    if ternary {
        let st = st_space(st_push(st_space(st), '?'));
        FmtState { ternary: st.ternary + 1, ..st }
    } else {
        let st = st_push(st, '?');
        if next == Some(TokenKind::OpenBrace) {
            st_space(st)
        } else {
            st
        }
    }
}

pub open spec fn step_sign(st: FmtState, text: Seq<char>) -> FmtState {
    let unary = match st.prev {
        Some(k) => k == TokenKind::Operator || k == TokenKind::OpenParen || k
            == TokenKind::OpenBracket || k == TokenKind::Comma || k == TokenKind::Colon || k
            == TokenKind::OpenBrace,
        None => true,
    };
    if unary {
        let st = if !(st.prev == Some(TokenKind::OpenParen) || st.prev == Some(
            TokenKind::OpenBracket,
        ) || st.prev == Some(TokenKind::OpenBrace)) {
            st_space(st)
        } else {
            st
        };
        st_append(st, text)
    } else {
        st_infix(st, text)
    }
}

pub open spec fn step_angle(st: FmtState, text: Seq<char>) -> FmtState {
    let opens = text == "<"@ && (st.generic > 0 || (st.prev == Some(TokenKind::Word)
        && generic_context(st.pprev_text)));
    if opens {
        let st = st_push(st, '<');
        FmtState { generic: st.generic + 1, ..st }
    } else if text == ">"@ && st.generic > 0 {
        let st = st_push(st, '>');
        FmtState { generic: (st.generic - 1) as nat, ..st }
    } else if text == ">>"@ && st.generic >= 2 {
        let st = st_push(st_push(st, '>'), '>');
        FmtState { generic: (st.generic - 2) as nat, ..st }
    } else if text == ">>="@ && st.generic >= 2 {
        let st = st_push(st_push(st, '>'), '>');
        let st = FmtState { generic: (st.generic - 2) as nat, ..st };
        st_space(st_push(st_space(st), '='))
    } else {
        st_infix(st, text)
    }
}

pub open spec fn step_operator(st: FmtState, text: Seq<char>, next: Option<TokenKind>, next_text: Option<Seq<char>>) -> FmtState {
    if text == "!"@ || text == "~"@ || text == "++"@ || text == "--"@ {
        st_append(st, text)
    } else if text == "?"@ {
        step_question(st, next, next_text)
    } else if text == "-"@ || text == "+"@ {
        step_sign(st, text)
    } else if text == "<"@ || text == ">"@ || text == ">>"@ || text == ">>="@ {
        step_angle(st, text)
    } else {
        st_infix(st, text)
    }
}

pub open spec fn step_word(st: FmtState, kind: TokenKind, text: Seq<char>) -> FmtState {
    let after_generic = st.prev == Some(TokenKind::Operator) && (st.prev_text == ">"@
        || st.prev_text == ">>"@) && (kind == TokenKind::Word || kind == TokenKind::String || kind
        == TokenKind::OpenBrace);
    let st = if needs_space_spec(st.prev, kind, st.prev_text) || after_generic {
        st_space(st)
    } else {
        st
    };
    st_append(st_indent(st), text)
}

/// One token of layout: what the formatter writes for token `t`, given the token after it.
pub open spec fn step(st: FmtState, s: Seq<char>, t: Tok, next: Option<Tok>) -> FmtState {
    let text = tok_text(s, t);
    let next_kind = kind_of(next);
    let next_text = match next {
        Some(n) => Some(tok_text(s, n)),
        None => None,
    };
    let st2 = match t.kind {
        TokenKind::LineComment => step_line_comment(st, text),
        TokenKind::BlockComment => step_block_comment(st, text),
        TokenKind::OpenBrace => step_open_brace(st),
        TokenKind::CloseBrace => step_close_brace(st, next_kind),
        TokenKind::Semicolon => step_semicolon(st),
        TokenKind::Comma => step_comma(st),
        TokenKind::Colon => step_colon(st),
        TokenKind::OpenParen => step_open_paren(st),
        TokenKind::CloseParen => step_close_paren(st),
        TokenKind::OpenBracket => step_open_bracket(st),
        TokenKind::CloseBracket => step_close_bracket(st),
        TokenKind::Dot => st_append(st, text),
        TokenKind::Operator => step_operator(st, text, next_kind, next_text),
        _ => step_word(st, t.kind, text),
    };
    FmtState { pprev_text: st2.prev_text, prev: Some(t.kind), prev_text: text, ..st2 }
}

/// Lays out the tokens `toks` one after the other, starting from `st`.
pub open spec fn run(st: FmtState, s: Seq<char>, toks: Seq<Tok>) -> FmtState
    decreases toks.len(),
{
    if toks.len() == 0 {
        st
    } else {
        let next = if toks.len() > 1 { Some(toks[1]) } else { None };
        run(step(st, s, toks[0], next), s, toks.drop_first())
    }
}

/// The state before the first token.
pub open spec fn initial_state() -> FmtState {
    FmtState {
        out: Seq::empty(),
        indent: 0,
        paren: 0,
        bracket: 0,
        braces: Seq::empty(),
        prev: None,
        prev_text: Seq::empty(),
        pprev_text: Seq::empty(),
        line_start: true,
        ternary: 0,
        generic: 0,
    }
}

/// The formatted text of `s`, given which of its characters are alphanumeric:
/// the layout of all tokens, trailing blanks removed, and one final line break.
pub open spec fn format_text(s: Seq<char>, alnum: Seq<bool>) -> Seq<char> {
    trim_blank(run(initial_state(), s, tokens_from(s, alnum, 0)).out).push('\n')
}


// ---------------------------------------------------------------------------
// The executable formatter.
// ---------------------------------------------------------------------------

/// The executable state: the previous token texts are kept as ranges of the source.
struct Fmt {
    out: Vec<char>,
    indent: usize,
    paren: usize,
    bracket: usize,
    braces: Vec<bool>,
    prev: Option<TokenKind>,
    prev_tok: Option<(usize, usize)>,
    pprev_tok: Option<(usize, usize)>,
    line_start: bool,
    ternary: usize,
    generic: usize,
}

spec fn range_text(s: Seq<char>, r: Option<(usize, usize)>) -> Seq<char> {
    match r {
        Some((a, b)) => s.subrange(a as int, b as int),
        None => Seq::empty(),
    }
}

spec fn range_ok(s: Seq<char>, r: Option<(usize, usize)>) -> bool {
    match r {
        Some((a, b)) => a <= b <= s.len(),
        None => true,
    }
}

spec fn fview(f: Fmt, s: Seq<char>) -> FmtState {
    FmtState {
        out: f.out@,
        indent: f.indent as nat,
        paren: f.paren as nat,
        bracket: f.bracket as nat,
        braces: f.braces@,
        prev: f.prev,
        prev_text: range_text(s, f.prev_tok),
        pprev_text: range_text(s, f.pprev_tok),
        line_start: f.line_start,
        ternary: f.ternary as nat,
        generic: f.generic as nat,
    }
}

/// The ranges are inside the source and every counter can still grow by one.
spec fn fok(f: Fmt, s: Seq<char>) -> bool {
    &&& range_ok(s, f.prev_tok)
    &&& range_ok(s, f.pprev_tok)
    &&& f.indent < usize::MAX
    &&& f.paren < usize::MAX
    &&& f.bracket < usize::MAX
    &&& f.ternary < usize::MAX
    &&& f.generic < usize::MAX
}

/// The counters grew by at most one.
spec fn grew_by_one(a: Fmt, b: Fmt) -> bool {
    &&& b.indent <= a.indent + 1
    &&& b.paren <= a.paren + 1
    &&& b.bracket <= a.bracket + 1
    &&& b.ternary <= a.ternary + 1
    &&& b.generic <= a.generic + 1
}

fn out_space(out: &mut Vec<char>)
    ensures
        final(out)@ == with_space(old(out)@),
{
    let n = out.len();
    if n > 0 && out[n - 1] != ' ' && out[n - 1] != '\n' {
        out.push(' ');
    }
}

fn out_trim_spaces(out: &mut Vec<char>)
    ensures
        final(out)@ == trim_spaces(old(out)@),
{
    while out.len() > 0 && out[out.len() - 1] == ' '
        invariant
            trim_spaces(out@) == trim_spaces(old(out)@),
        decreases out@.len(),
    {
        out.pop();
    }
}

fn out_newline(out: &mut Vec<char>)
    ensures
        final(out)@ == with_newline(old(out)@),
{
    out_trim_spaces(out);
    let n = out.len();
    if !(n > 0 && out[n - 1] == '\n') {
        out.push('\n');
    }
}

fn out_append(out: &mut Vec<char>, s: &Vec<char>, a: usize, b: usize)
    requires
        a <= b <= s@.len(),
    ensures
        final(out)@ == old(out)@ + s@.subrange(a as int, b as int),
{
    let mut i = a;
    while i < b
        invariant
            a <= i <= b <= s@.len(),
            out@ == old(out)@ + s@.subrange(a as int, i as int),
        decreases b - i,
    {
        out.push(s[i]);
        i += 1;
        assert(out@ =~= old(out)@ + s@.subrange(a as int, i as int));
    }
}

/// The fields that the output helpers leave alone.
spec fn same_but_out(a: Fmt, b: Fmt) -> bool {
    &&& b.indent == a.indent
    &&& b.paren == a.paren
    &&& b.bracket == a.bracket
    &&& b.braces == a.braces
    &&& b.prev == a.prev
    &&& b.prev_tok == a.prev_tok
    &&& b.pprev_tok == a.pprev_tok
    &&& b.ternary == a.ternary
    &&& b.generic == a.generic
}

fn f_indent(f: &mut Fmt, s: &Vec<char>)
    ensures
        fview(*final(f), s@) == st_indent(fview(*old(f), s@)),
        same_but_out(*old(f), *final(f)),
{
    if f.line_start {
        let mut i: usize = 0;
        while i < f.indent
            invariant
                i <= f.indent,
                same_but_out(*old(f), *f),
                f.line_start == old(f).line_start,
                f.out@ == old(f).out@ + indent_text(i as nat),
            decreases f.indent - i,
        {
            f.out.push(' ');
            f.out.push(' ');
            f.out.push(' ');
            f.out.push(' ');
            i += 1;
            assert(f.out@ =~= old(f).out@ + indent_text(i as nat));
        }
        f.line_start = false;
    }
}

fn f_space(f: &mut Fmt, s: &Vec<char>)
    ensures
        fview(*final(f), s@) == st_space(fview(*old(f), s@)),
        same_but_out(*old(f), *final(f)),
        final(f).line_start == old(f).line_start,
{
    out_space(&mut f.out);
}

fn f_newline(f: &mut Fmt, s: &Vec<char>)
    ensures
        fview(*final(f), s@) == st_newline(fview(*old(f), s@)),
        same_but_out(*old(f), *final(f)),
{
    out_newline(&mut f.out);
    f.line_start = true;
}

fn f_push(f: &mut Fmt, s: &Vec<char>, c: char)
    ensures
        fview(*final(f), s@) == st_push(fview(*old(f), s@), c),
        same_but_out(*old(f), *final(f)),
        final(f).line_start == old(f).line_start,
{
    f.out.push(c);
}

fn f_append(f: &mut Fmt, s: &Vec<char>, a: usize, b: usize)
    requires
        a <= b <= s@.len(),
    ensures
        fview(*final(f), s@) == st_append(fview(*old(f), s@), s@.subrange(a as int, b as int)),
        same_but_out(*old(f), *final(f)),
        final(f).line_start == old(f).line_start,
{
    out_append(&mut f.out, s, a, b);
}

/// Whether the characters `a..b` of `s` spell `lit`.
fn text_eq(s: &Vec<char>, a: usize, b: usize, lit: &str) -> (r: bool)
    requires
        a <= b <= s@.len(),
    ensures
        r == (s@.subrange(a as int, b as int) == lit@),
{
    let l = chars_of(lit);
    if b - a != l.len() {
        return false;
    }
    let mut i: usize = 0;
    while i < l.len()
        invariant
            a <= b <= s@.len(),
            b - a == l@.len(),
            i <= l@.len(),
            l@ == lit@,
            forall|j: int| 0 <= j < i ==> s@[a + j] == l@[j],
        decreases l@.len() - i,
    {
        if s[a + i] != l[i] {
            assert(s@.subrange(a as int, b as int)[i as int] != lit@[i as int]);
            return false;
        }
        i += 1;
    }
    assert(s@.subrange(a as int, b as int) =~= lit@);
    true
}

/// Whether a kept range of `s` spells `lit` (an absent range is the empty text).
fn range_eq(s: &Vec<char>, r: Option<(usize, usize)>, lit: &str) -> (b: bool)
    requires
        range_ok(s@, r),
    ensures
        b == (range_text(s@, r) == lit@),
{
    match r {
        Some((a, e)) => text_eq(s, a, e, lit),
        None => {
            let l = chars_of(lit);
            if l.len() == 0 {
                assert(lit@ =~= Seq::<char>::empty());
                true
            } else {
                assert(lit@.len() > 0);
                false
            }
        },
    }
}


/// Whether a word-like token `current` must be separated from the previous token.
fn needs_space(
    previous: Option<TokenKind>,
    current: TokenKind,
    s: &Vec<char>,
    previous_text: Option<(usize, usize)>,
) -> (r: bool)
    requires
        range_ok(s@, previous_text),
    ensures
        r == needs_space_spec(previous, current, range_text(s@, previous_text)),
{
    let nonempty = match previous_text {
        Some((a, b)) => b - a != 0,
        None => false,
    };
    matches!(
        previous,
        Some(
            TokenKind::Word | TokenKind::String | TokenKind::CloseParen | TokenKind::CloseBracket
            | TokenKind::CloseBrace,
        )
    ) && matches!(current, TokenKind::Word | TokenKind::String | TokenKind::OpenBrace) && nonempty
}

/// What the `step` functions keep: ranges, and counters that grow by at most one.
spec fn kept(a: Fmt, b: Fmt) -> bool {
    &&& b.prev == a.prev
    &&& b.prev_tok == a.prev_tok
    &&& b.pprev_tok == a.pprev_tok
    &&& grew_by_one(a, b)
}

fn exec_line_comment(f: &mut Fmt, s: &Vec<char>, t: Token)
    requires
        t.start <= t.end <= s@.len(),
    ensures
        fview(*final(f), s@) == step_line_comment(fview(*old(f), s@), tok_text(s@, t.view())),
        kept(*old(f), *final(f)),
{
    if !f.line_start {
        f_space(f, s);
    }
    f_indent(f, s);
    f_append(f, s, t.start, t.end);
    f_newline(f, s);
}

fn contains_newline(s: &Vec<char>, a: usize, b: usize) -> (r: bool)
    requires
        a <= b <= s@.len(),
    ensures
        r == s@.subrange(a as int, b as int).contains('\n'),
{
    let mut i = a;
    while i < b
        invariant
            a <= i <= b <= s@.len(),
            forall|j: int| a <= j < i ==> s@[j] != '\n',
        decreases b - i,
    {
        if s[i] == '\n' {
            assert(s@.subrange(a as int, b as int)[i - a] == '\n');
            return true;
        }
        i += 1;
    }
    assert forall|j: int| 0 <= j < b - a implies s@.subrange(a as int, b as int)[j] != '\n' by {
        assert(s@.subrange(a as int, b as int)[j] == s@[a + j]);
    }
    false
}

fn exec_block_comment(f: &mut Fmt, s: &Vec<char>, t: Token)
    requires
        t.start <= t.end <= s@.len(),
        range_ok(s@, old(f).prev_tok),
    ensures
        fview(*final(f), s@) == step_block_comment(fview(*old(f), s@), tok_text(s@, t.view())),
        kept(*old(f), *final(f)),
{
    if needs_space(f.prev, TokenKind::BlockComment, s, f.prev_tok) {
        f_space(f, s);
    }
    f_indent(f, s);
    f_append(f, s, t.start, t.end);
    if contains_newline(s, t.start, t.end) {
        f_newline(f, s);
    }
}

fn exec_open_brace(f: &mut Fmt, s: &Vec<char>)
    requires
        fok(*old(f), s@),
    ensures
        fview(*final(f), s@) == step_open_brace(fview(*old(f), s@)),
        kept(*old(f), *final(f)),
{
    if needs_space(f.prev, TokenKind::OpenBrace, s, f.prev_tok) || (f.prev == Some(
        TokenKind::Operator,
    ) && range_eq(s, f.prev_tok, ">")) {
        f_space(f, s);
    }
    f_indent(f, s);
    f_push(f, s, '{');
    let top = f.paren == 0 && f.bracket == 0;
    f.braces.push(top);
    f.indent = f.indent + 1;
    f_newline(f, s);
}

fn exec_close_brace(f: &mut Fmt, s: &Vec<char>, next: Option<TokenKind>)
    ensures
        fview(*final(f), s@) == step_close_brace(fview(*old(f), s@), next),
        kept(*old(f), *final(f)),
{
    f.indent = if f.indent > 0 {
        f.indent - 1
    } else {
        0
    };
    if !f.line_start {
        f_newline(f, s);
    }
    f_indent(f, s);
    f_push(f, s, '}');
    let top = match f.braces.pop() {
        Some(b) => b,
        None => false,
    };
    if top && matches!(
        next,
        Some(TokenKind::Word | TokenKind::LineComment | TokenKind::BlockComment)
    ) {
        f_newline(f, s);
    }
}

fn exec_semicolon(f: &mut Fmt, s: &Vec<char>)
    ensures
        fview(*final(f), s@) == step_semicolon(fview(*old(f), s@)),
        kept(*old(f), *final(f)),
{
    f_indent(f, s);
    f_push(f, s, ';');
    if f.paren == 0 {
        f_newline(f, s);
    } else {
        f_space(f, s);
    }
}

fn exec_comma(f: &mut Fmt, s: &Vec<char>)
    ensures
        fview(*final(f), s@) == step_comma(fview(*old(f), s@)),
        kept(*old(f), *final(f)),
{
    f_push(f, s, ',');
    let n = f.braces.len();
    let last = n > 0 && f.braces[n - 1];
    if f.generic == 0 && last && f.paren == 0 && f.bracket == 0 {
        f_newline(f, s);
    } else {
        f_space(f, s);
    }
}

fn exec_colon(f: &mut Fmt, s: &Vec<char>)
    ensures
        fview(*final(f), s@) == step_colon(fview(*old(f), s@)),
        kept(*old(f), *final(f)),
{
    if f.ternary > 0 {
        f_space(f, s);
        f_push(f, s, ':');
        f_space(f, s);
        f.ternary = f.ternary - 1;
    } else {
        f_push(f, s, ':');
        f_space(f, s);
    }
}

fn exec_open_paren(f: &mut Fmt, s: &Vec<char>)
    requires
        fok(*old(f), s@),
    ensures
        fview(*final(f), s@) == step_open_paren(fview(*old(f), s@)),
        kept(*old(f), *final(f)),
{
    if f.prev == Some(TokenKind::Word) && (range_eq(s, f.prev_tok, "if") || range_eq(
        s,
        f.prev_tok,
        "for",
    ) || range_eq(s, f.prev_tok, "while") || range_eq(s, f.prev_tok, "switch") || range_eq(
        s,
        f.prev_tok,
        "match",
    ) || range_eq(s, f.prev_tok, "catch")) {
        f_space(f, s);
    }
    f_push(f, s, '(');
    f.paren = f.paren + 1;
}

fn exec_close_paren(f: &mut Fmt, s: &Vec<char>)
    ensures
        fview(*final(f), s@) == step_close_paren(fview(*old(f), s@)),
        kept(*old(f), *final(f)),
{
    f_push(f, s, ')');
    f.paren = if f.paren > 0 {
        f.paren - 1
    } else {
        0
    };
}

fn exec_open_bracket(f: &mut Fmt, s: &Vec<char>)
    requires
        fok(*old(f), s@),
    ensures
        fview(*final(f), s@) == step_open_bracket(fview(*old(f), s@)),
        kept(*old(f), *final(f)),
{
    f_push(f, s, '[');
    f.bracket = f.bracket + 1;
}

fn exec_close_bracket(f: &mut Fmt, s: &Vec<char>)
    ensures
        fview(*final(f), s@) == step_close_bracket(fview(*old(f), s@)),
        kept(*old(f), *final(f)),
{
    f_push(f, s, ']');
    f.bracket = if f.bracket > 0 {
        f.bracket - 1
    } else {
        0
    };
}

fn exec_infix(f: &mut Fmt, s: &Vec<char>, t: Token)
    requires
        t.start <= t.end <= s@.len(),
    ensures
        fview(*final(f), s@) == st_infix(fview(*old(f), s@), tok_text(s@, t.view())),
        kept(*old(f), *final(f)),
        final(f).ternary == old(f).ternary,
        final(f).generic == old(f).generic,
{
    f_space(f, s);
    f_append(f, s, t.start, t.end);
    f_space(f, s);
}

fn exec_question(f: &mut Fmt, s: &Vec<char>, next: Option<Token>)
    requires
        fok(*old(f), s@),
        next matches Some(n) ==> n.start <= n.end <= s@.len(),
    ensures
        fview(*final(f), s@) == step_question(
            fview(*old(f), s@),
            kind_of(opt_view(next)),
            opt_text(s@, opt_view(next)),
        ),
        kept(*old(f), *final(f)),
{
    let (next_kind, ternary) = match next {
        Some(n) => (
            Some(n.kind),
            matches!(
                n.kind,
                TokenKind::Word | TokenKind::String | TokenKind::OpenParen | TokenKind::OpenBracket
            ) || text_eq(s, n.start, n.end, "!") || text_eq(s, n.start, n.end, "~") || text_eq(
                s,
                n.start,
                n.end,
                "-",
            ) || text_eq(s, n.start, n.end, "+"),
        ),
        None => (None, false),
    };
    if ternary {
        f_space(f, s);
        f_push(f, s, '?');
        f_space(f, s);
        f.ternary = f.ternary + 1;
    } else {
        f_push(f, s, '?');
        if next_kind == Some(TokenKind::OpenBrace) {
            f_space(f, s);
        }
    }
}

fn exec_sign(f: &mut Fmt, s: &Vec<char>, t: Token)
    requires
        t.start <= t.end <= s@.len(),
    ensures
        fview(*final(f), s@) == step_sign(fview(*old(f), s@), tok_text(s@, t.view())),
        kept(*old(f), *final(f)),
{
    let unary = match f.prev {
        Some(k) => matches!(
            k,
            TokenKind::Operator | TokenKind::OpenParen | TokenKind::OpenBracket | TokenKind::Comma
            | TokenKind::Colon | TokenKind::OpenBrace
        ),
        None => true,
    };
    if unary {
        if !matches!(
            f.prev,
            Some(TokenKind::OpenParen | TokenKind::OpenBracket | TokenKind::OpenBrace)
        ) {
            f_space(f, s);
        }
        f_append(f, s, t.start, t.end);
    } else {
        exec_infix(f, s, t);
    }
}

fn exec_angle(f: &mut Fmt, s: &Vec<char>, t: Token)
    requires
        t.start <= t.end <= s@.len(),
        fok(*old(f), s@),
    ensures
        fview(*final(f), s@) == step_angle(fview(*old(f), s@), tok_text(s@, t.view())),
        kept(*old(f), *final(f)),
{
    let is_lt = text_eq(s, t.start, t.end, "<");
    let opens = is_lt && (f.generic > 0 || (f.prev == Some(TokenKind::Word) && (range_eq(
        s,
        f.pprev_tok,
        "function",
    ) || range_eq(s, f.pprev_tok, "class") || range_eq(s, f.pprev_tok, "struct") || range_eq(
        s,
        f.pprev_tok,
        "enum",
    ) || range_eq(s, f.pprev_tok, "interface") || range_eq(s, f.pprev_tok, "implements")
        || range_eq(s, f.pprev_tok, "extends") || range_eq(s, f.pprev_tok, "where") || range_eq(
        s,
        f.pprev_tok,
        "new",
    ) || range_eq(s, f.pprev_tok, ":"))));
    if opens {
        f_push(f, s, '<');
        f.generic = f.generic + 1;
    } else if text_eq(s, t.start, t.end, ">") && f.generic > 0 {
        f_push(f, s, '>');
        f.generic = f.generic - 1;
    } else if text_eq(s, t.start, t.end, ">>") && f.generic >= 2 {
        f_push(f, s, '>');
        f_push(f, s, '>');
        f.generic = f.generic - 2;
    } else if text_eq(s, t.start, t.end, ">>=") && f.generic >= 2 {
        f_push(f, s, '>');
        f_push(f, s, '>');
        f.generic = f.generic - 2;
        f_space(f, s);
        f_push(f, s, '=');
        f_space(f, s);
    } else {
        exec_infix(f, s, t);
    }
}

fn exec_operator(f: &mut Fmt, s: &Vec<char>, t: Token, next: Option<Token>)
    requires
        t.start <= t.end <= s@.len(),
        next matches Some(n) ==> n.start <= n.end <= s@.len(),
        fok(*old(f), s@),
    ensures
        fview(*final(f), s@) == step_operator(
            fview(*old(f), s@),
            tok_text(s@, t.view()),
            kind_of(opt_view(next)),
            opt_text(s@, opt_view(next)),
        ),
        kept(*old(f), *final(f)),
{
    if text_eq(s, t.start, t.end, "!") || text_eq(s, t.start, t.end, "~") || text_eq(
        s,
        t.start,
        t.end,
        "++",
    ) || text_eq(s, t.start, t.end, "--") {
        f_append(f, s, t.start, t.end);
    } else if text_eq(s, t.start, t.end, "?") {
        exec_question(f, s, next);
    } else if text_eq(s, t.start, t.end, "-") || text_eq(s, t.start, t.end, "+") {
        exec_sign(f, s, t);
    } else if text_eq(s, t.start, t.end, "<") || text_eq(s, t.start, t.end, ">") || text_eq(
        s,
        t.start,
        t.end,
        ">>",
    ) || text_eq(s, t.start, t.end, ">>=") {
        exec_angle(f, s, t);
    } else {
        exec_infix(f, s, t);
    }
}

fn exec_word(f: &mut Fmt, s: &Vec<char>, t: Token)
    requires
        t.start <= t.end <= s@.len(),
        range_ok(s@, old(f).prev_tok),
    ensures
        fview(*final(f), s@) == step_word(fview(*old(f), s@), t.kind, tok_text(s@, t.view())),
        kept(*old(f), *final(f)),
{
    let after_generic = f.prev == Some(TokenKind::Operator) && (range_eq(s, f.prev_tok, ">")
        || range_eq(s, f.prev_tok, ">>")) && matches!(
        t.kind,
        TokenKind::Word | TokenKind::String | TokenKind::OpenBrace
    );
    if needs_space(f.prev, t.kind, s, f.prev_tok) || after_generic {
        f_space(f, s);
    }
    f_indent(f, s);
    f_append(f, s, t.start, t.end);
}

spec fn opt_view(t: Option<Token>) -> Option<Tok> {
    match t {
        Some(t) => Some(t.view()),
        None => None,
    }
}

spec fn opt_text(s: Seq<char>, t: Option<Tok>) -> Option<Seq<char>> {
    match t {
        Some(n) => Some(tok_text(s, n)),
        None => None,
    }
}


/// Lays out one token.
fn exec_step(f: &mut Fmt, s: &Vec<char>, t: Token, next: Option<Token>)
    requires
        t.start <= t.end <= s@.len(),
        next matches Some(n) ==> n.start <= n.end <= s@.len(),
        fok(*old(f), s@),
    ensures
        fview(*final(f), s@) == step(fview(*old(f), s@), s@, t.view(), opt_view(next)),
        grew_by_one(*old(f), *final(f)),
        range_ok(s@, final(f).prev_tok),
        range_ok(s@, final(f).pprev_tok),
{
    let ghost st0 = fview(*f, s@);
    match t.kind {
        TokenKind::LineComment => exec_line_comment(f, s, t),
        TokenKind::BlockComment => exec_block_comment(f, s, t),
        TokenKind::OpenBrace => exec_open_brace(f, s),
        TokenKind::CloseBrace => exec_close_brace(
            f,
            s,
            match next {
                Some(n) => Some(n.kind),
                None => None,
            },
        ),
        TokenKind::Semicolon => exec_semicolon(f, s),
        TokenKind::Comma => exec_comma(f, s),
        TokenKind::Colon => exec_colon(f, s),
        TokenKind::OpenParen => exec_open_paren(f, s),
        TokenKind::CloseParen => exec_close_paren(f, s),
        TokenKind::OpenBracket => exec_open_bracket(f, s),
        TokenKind::CloseBracket => exec_close_bracket(f, s),
        TokenKind::Dot => f_append(f, s, t.start, t.end),
        TokenKind::Operator => exec_operator(f, s, t, next),
        _ => exec_word(f, s, t),
    }
    f.pprev_tok = f.prev_tok;
    f.prev = Some(t.kind);
    f.prev_tok = Some((t.start, t.end));
}

/// There are no more tokens than characters after `i`.
proof fn lemma_tokens_count(s: Seq<char>, alnum: Seq<bool>, i: int)
    requires
        0 <= i <= s.len(),
    ensures
        tokens_from(s, alnum, i).len() <= s.len() - i,
    decreases s.len() - i,
{
    if i < s.len() {
        if is_ws(s[i]) {
            lemma_tokens_count(s, alnum, i + 1);
        } else {
            lemma_scan_bounds(s, alnum, i);
            lemma_tokens_count(s, alnum, scan(s, alnum, i).0);
        }
    }
}

fn out_trim_blank(out: &mut Vec<char>)
    ensures
        final(out)@ == trim_blank(old(out)@),
{
    while out.len() > 0 && (out[out.len() - 1] == ' ' || out[out.len() - 1] == '\n')
        invariant
            trim_blank(out@) == trim_blank(old(out)@),
        decreases out@.len(),
    {
        out.pop();
    }
}

/// Formats `source`, given `alnum[i]`: whether `source[i]` is alphanumeric.
pub fn format_chars(source: &Vec<char>, alnum: &Vec<bool>) -> (r: Vec<char>)
    requires
        alnum@.len() == source@.len(),
    ensures
        r@ == format_text(source@, alnum@),
{
    let s = source;
    let toks = tokenize(s, alnum);
    let ghost all = tokens_from(s@, alnum@, 0);
    proof {
        lemma_tokens_ok(s@, alnum@, 0);
        lemma_tokens_count(s@, alnum@, 0);
    }
    let mut f = Fmt {
        out: Vec::new(),
        indent: 0,
        paren: 0,
        bracket: 0,
        braces: Vec::new(),
        prev: None,
        prev_tok: None,
        pprev_tok: None,
        line_start: true,
        ternary: 0,
        generic: 0,
    };
    assert(fview(f, s@) =~= initial_state());
    assert(tok_views(toks@).skip(0) =~= all);
    let mut k: usize = 0;
    while k < toks.len()
        invariant
            tok_views(toks@) == all,
            all.len() <= s@.len(),
            forall|m: int| 0 <= m < all.len() ==> tok_ok(s@, alnum@, #[trigger] all[m]),
            k <= toks@.len(),
            range_ok(s@, f.prev_tok),
            range_ok(s@, f.pprev_tok),
            f.indent <= k && f.paren <= k && f.bracket <= k && f.ternary <= k && f.generic <= k,
            run(fview(f, s@), s@, tok_views(toks@).skip(k as int)) == run(initial_state(), s@, all),
        decreases toks@.len() - k,
    {
        let t = toks[k];
        let next = if k + 1 < toks.len() {
            Some(toks[k + 1])
        } else {
            None
        };
        proof {
            assert(all[k as int] == t.view());
            assert(tok_ok(s@, alnum@, all[k as int]));
            if k + 1 < toks.len() {
                assert(all[k + 1] == toks@[k + 1].view());
                assert(tok_ok(s@, alnum@, all[k + 1]));
            }
            let rest = tok_views(toks@).skip(k as int);
            assert(rest[0] == t.view());
            assert(rest.drop_first() =~= tok_views(toks@).skip(k + 1));
            if k + 1 < toks.len() {
                assert(rest[1] == toks@[k + 1].view());
            }
            assert(opt_view(next) == (if rest.len() > 1 { Some(rest[1]) } else { None }));
        }
        exec_step(&mut f, s, t, next);
        k += 1;
    }
    assert(tok_views(toks@).skip(k as int) =~= Seq::<Tok>::empty());
    let mut out = f.out;
    out_trim_blank(&mut out);
    out.push('\n');
    out
}

/// Formats Sw source text: literals and comments are kept as written; only the
/// white space between tokens, the indentation and the line breaks change.
pub fn format_source(source: &str) -> (r: String)
    ensures
        r@ == format_text(source@, alnum_flags(source@)),
        strip_ws(r@) == strip_ws(source@),
{
    proof {
        lemma_format_keeps_text(source@, alnum_flags(source@));
    }
    let chars = chars_of(source);
    let alnum = alnum_flags_of(&chars);
    let out = format_chars(&chars, &alnum);
    string_from_chars(&out)
}


// ---------------------------------------------------------------------------
// Laws of the formatter.
// ---------------------------------------------------------------------------

/// The non-blank text of a list of tokens, one token after the other.
pub open spec fn strip_all(s: Seq<char>, toks: Seq<Tok>) -> Seq<char>
    decreases toks.len(),
{
    if toks.len() == 0 {
        Seq::empty()
    } else {
        strip_ws(tok_text(s, toks[0])) + strip_all(s, toks.drop_first())
    }
}

proof fn lemma_strip_all_blank(t: Seq<char>)
    requires
        forall|i: int| 0 <= i < t.len() ==> is_ws(#[trigger] t[i]),
    ensures
        strip_ws(t) == Seq::<char>::empty(),
    decreases t.len(),
{
    if t.len() > 0 {
        lemma_strip_all_blank(t.drop_last());
    }
}

proof fn lemma_strip_space(o: Seq<char>)
    ensures
        strip_ws(with_space(o)) == strip_ws(o),
{
    if o.len() > 0 && o.last() != ' ' && o.last() != '\n' {
        lemma_strip_ws_push_ws(o, ' ');
    }
}

proof fn lemma_strip_trim_spaces(o: Seq<char>)
    ensures
        strip_ws(trim_spaces(o)) == strip_ws(o),
    decreases o.len(),
{
    if o.len() > 0 && o.last() == ' ' {
        lemma_strip_trim_spaces(o.drop_last());
        lemma_strip_ws_push_ws(o.drop_last(), ' ');
        assert(o.drop_last().push(' ') =~= o);
    }
}

proof fn lemma_strip_trim_blank(o: Seq<char>)
    ensures
        strip_ws(trim_blank(o)) == strip_ws(o),
    decreases o.len(),
{
    if o.len() > 0 && (o.last() == ' ' || o.last() == '\n') {
        lemma_strip_trim_blank(o.drop_last());
        lemma_strip_ws_push_ws(o.drop_last(), o.last());
        assert(o.drop_last().push(o.last()) =~= o);
    }
}

proof fn lemma_strip_newline(o: Seq<char>)
    ensures
        strip_ws(with_newline(o)) == strip_ws(o),
{
    lemma_strip_trim_spaces(o);
    lemma_strip_ws_push_ws(trim_spaces(o), '\n');
}

proof fn lemma_strip_indent(o: Seq<char>, n: nat)
    ensures
        strip_ws(o + indent_text(n)) == strip_ws(o),
{
    lemma_strip_ws_concat(o, indent_text(n));
    lemma_strip_all_blank(indent_text(n));
    assert(strip_ws(o) + Seq::<char>::empty() =~= strip_ws(o));
}

proof fn lemma_st_space(st: FmtState)
    ensures
        strip_ws(st_space(st).out) == strip_ws(st.out),
{
    lemma_strip_space(st.out);
}

proof fn lemma_st_newline(st: FmtState)
    ensures
        strip_ws(st_newline(st).out) == strip_ws(st.out),
{
    lemma_strip_newline(st.out);
}

proof fn lemma_st_indent(st: FmtState)
    ensures
        strip_ws(st_indent(st).out) == strip_ws(st.out),
{
    lemma_strip_indent(st.out, st.indent);
}

proof fn lemma_st_append(st: FmtState, t: Seq<char>)
    ensures
        strip_ws(st_append(st, t).out) == strip_ws(st.out) + strip_ws(t),
{
    lemma_strip_ws_concat(st.out, t);
}

proof fn lemma_st_push(st: FmtState, c: char)
    requires
        !is_ws(c),
    ensures
        strip_ws(st_push(st, c).out) == strip_ws(st.out) + seq![c],
{
    lemma_strip_ws_push(st.out, c);
    assert(strip_ws(st.out).push(c) =~= strip_ws(st.out) + seq![c]);
}

proof fn lemma_strip_single(c: char)
    requires
        !is_ws(c),
    ensures
        strip_ws(seq![c]) == seq![c],
{
    lemma_strip_ws_push(Seq::empty(), c);
    assert(Seq::<char>::empty().push(c) =~= seq![c]);
}

/// A one-character punctuation token is exactly its character.
proof fn lemma_single_text(s: Seq<char>, alnum: Seq<bool>, t: Tok)
    requires
        tok_ok(s, alnum, t),
        t.kind == TokenKind::OpenBrace || t.kind == TokenKind::CloseBrace || t.kind
            == TokenKind::OpenParen || t.kind == TokenKind::CloseParen || t.kind
            == TokenKind::OpenBracket || t.kind == TokenKind::CloseBracket || t.kind
            == TokenKind::Comma || t.kind == TokenKind::Semicolon || t.kind == TokenKind::Colon,
    ensures
        t.end == t.start + 1,
        tok_text(s, t) == seq![s[t.start]],
        t.kind == single_kind(s[t.start]),
{
    assert(tok_text(s, t) =~= seq![s[t.start]]);
}

/// Laying out a token adds its non-blank text to the output, and nothing else.
proof fn lemma_step_strip(st: FmtState, s: Seq<char>, alnum: Seq<bool>, t: Tok, next: Option<Tok>)
    requires
        tok_ok(s, alnum, t),
    ensures
        strip_ws(step(st, s, t, next).out) == strip_ws(st.out) + strip_ws(tok_text(s, t)),
{
    let text = tok_text(s, t);
    let e = Seq::<char>::empty();
    match t.kind {
        TokenKind::LineComment => {
            let a = if !st.line_start { st_space(st) } else { st };
            lemma_st_space(st);
            lemma_st_indent(a);
            lemma_st_append(st_indent(a), text);
            lemma_st_newline(st_append(st_indent(a), text));
        },
        TokenKind::BlockComment => {
            let a = if needs_space_spec(st.prev, TokenKind::BlockComment, st.prev_text) {
                st_space(st)
            } else {
                st
            };
            lemma_st_space(st);
            lemma_st_indent(a);
            lemma_st_append(st_indent(a), text);
            lemma_st_newline(st_append(st_indent(a), text));
        },
        TokenKind::OpenBrace => {
            lemma_single_text(s, alnum, t);
            lemma_strip_single('{');
            let a = if needs_space_spec(st.prev, TokenKind::OpenBrace, st.prev_text) || (st.prev
                == Some(TokenKind::Operator) && st.prev_text == ">"@) {
                st_space(st)
            } else {
                st
            };
            lemma_st_space(st);
            lemma_st_indent(a);
            lemma_st_push(st_indent(a), '{');
            let b = st_push(st_indent(a), '{');
            let c = FmtState {
                braces: b.braces.push(b.paren == 0 && b.bracket == 0),
                indent: b.indent + 1,
                ..b
            };
            lemma_st_newline(c);
        },
        TokenKind::CloseBrace => {
            lemma_single_text(s, alnum, t);
            lemma_strip_single('}');
            let a = FmtState { indent: if st.indent > 0 { (st.indent - 1) as nat } else { 0 }, ..st };
            let b = if !a.line_start { st_newline(a) } else { a };
            lemma_st_newline(a);
            lemma_st_indent(b);
            lemma_st_push(st_indent(b), '}');
            let c = st_push(st_indent(b), '}');
            let d = FmtState {
                braces: if c.braces.len() > 0 { c.braces.drop_last() } else { c.braces },
                ..c
            };
            lemma_st_newline(d);
        },
        TokenKind::Semicolon => {
            lemma_single_text(s, alnum, t);
            lemma_strip_single(';');
            lemma_st_indent(st);
            lemma_st_push(st_indent(st), ';');
            lemma_st_newline(st_push(st_indent(st), ';'));
            lemma_st_space(st_push(st_indent(st), ';'));
        },
        TokenKind::Comma => {
            lemma_single_text(s, alnum, t);
            lemma_strip_single(',');
            lemma_st_push(st, ',');
            lemma_st_newline(st_push(st, ','));
            lemma_st_space(st_push(st, ','));
        },
        TokenKind::Colon => {
            lemma_single_text(s, alnum, t);
            lemma_strip_single(':');
            lemma_st_space(st);
            lemma_st_push(st_space(st), ':');
            lemma_st_space(st_push(st_space(st), ':'));
            lemma_st_push(st, ':');
            lemma_st_space(st_push(st, ':'));
        },
        TokenKind::OpenParen => {
            lemma_single_text(s, alnum, t);
            lemma_strip_single('(');
            lemma_st_space(st);
            let a = if st.prev == Some(TokenKind::Word) && paren_keyword(st.prev_text) {
                st_space(st)
            } else {
                st
            };
            lemma_st_push(a, '(');
        },
        TokenKind::CloseParen => {
            lemma_single_text(s, alnum, t);
            lemma_strip_single(')');
            lemma_st_push(st, ')');
        },
        TokenKind::OpenBracket => {
            lemma_single_text(s, alnum, t);
            lemma_strip_single('[');
            lemma_st_push(st, '[');
        },
        TokenKind::CloseBracket => {
            lemma_single_text(s, alnum, t);
            lemma_strip_single(']');
            lemma_st_push(st, ']');
        },
        TokenKind::Dot => {
            lemma_st_append(st, text);
        },
        TokenKind::Operator => {
            lemma_operator_strip(st, text, kind_of(next), opt_text(s, next));
        },
        _ => {
            let after_generic = st.prev == Some(TokenKind::Operator) && (st.prev_text == ">"@
                || st.prev_text == ">>"@) && (t.kind == TokenKind::Word || t.kind
                == TokenKind::String || t.kind == TokenKind::OpenBrace);
            let a = if needs_space_spec(st.prev, t.kind, st.prev_text) || after_generic {
                st_space(st)
            } else {
                st
            };
            lemma_st_space(st);
            lemma_st_indent(a);
            lemma_st_append(st_indent(a), text);
        },
    }
}

proof fn lemma_infix_strip(st: FmtState, text: Seq<char>)
    ensures
        strip_ws(st_infix(st, text).out) == strip_ws(st.out) + strip_ws(text),
{
    lemma_st_space(st);
    lemma_st_append(st_space(st), text);
    lemma_st_space(st_append(st_space(st), text));
}

proof fn lemma_operator_strip(
    st: FmtState,
    text: Seq<char>,
    next: Option<TokenKind>,
    next_text: Option<Seq<char>>,
)
    ensures
        strip_ws(step_operator(st, text, next, next_text).out) == strip_ws(st.out) + strip_ws(text),
{
    reveal_strlit("?");
    reveal_strlit("<");
    reveal_strlit(">");
    reveal_strlit(">>");
    reveal_strlit(">>=");
    if text == "!"@ || text == "~"@ || text == "++"@ || text == "--"@ {
        lemma_st_append(st, text);
    } else if text == "?"@ {
        assert(text =~= seq!['?']);
        lemma_strip_single('?');
        lemma_st_space(st);
        lemma_st_push(st_space(st), '?');
        lemma_st_space(st_push(st_space(st), '?'));
        lemma_st_push(st, '?');
        lemma_st_space(st_push(st, '?'));
    } else if text == "-"@ || text == "+"@ {
        lemma_st_space(st);
        lemma_st_append(st, text);
        lemma_st_append(st_space(st), text);
        lemma_infix_strip(st, text);
    } else if text == "<"@ || text == ">"@ || text == ">>"@ || text == ">>="@ {
        lemma_angle_strip(st, text);
    } else {
        lemma_infix_strip(st, text);
    }
}

proof fn lemma_angle_strip(st: FmtState, text: Seq<char>)
    requires
        text == "<"@ || text == ">"@ || text == ">>"@ || text == ">>="@,
    ensures
        strip_ws(step_angle(st, text).out) == strip_ws(st.out) + strip_ws(text),
{
    reveal_strlit("<");
    reveal_strlit(">");
    reveal_strlit(">>");
    reveal_strlit(">>=");
    let opens = text == "<"@ && (st.generic > 0 || (st.prev == Some(TokenKind::Word)
        && generic_context(st.pprev_text)));
    if opens {
        assert(text =~= seq!['<']);
        lemma_strip_single('<');
        lemma_st_push(st, '<');
    } else if text == ">"@ && st.generic > 0 {
        assert(text =~= seq!['>']);
        lemma_strip_single('>');
        lemma_st_push(st, '>');
    } else if text == ">>"@ && st.generic >= 2 {
        assert(text =~= seq!['>'] + seq!['>']);
        lemma_strip_single('>');
        lemma_strip_ws_concat(seq!['>'], seq!['>']);
        lemma_st_push(st, '>');
        lemma_st_push(st_push(st, '>'), '>');
    } else if text == ">>="@ && st.generic >= 2 {
        assert(text =~= seq!['>'] + seq!['>'] + seq!['=']);
        lemma_strip_single('>');
        lemma_strip_single('=');
        lemma_strip_ws_concat(seq!['>'], seq!['>']);
        lemma_strip_ws_concat(seq!['>'] + seq!['>'], seq!['=']);
        lemma_st_push(st, '>');
        lemma_st_push(st_push(st, '>'), '>');
        let a = st_push(st_push(st, '>'), '>');
        let b = FmtState { generic: (a.generic - 2) as nat, ..a };
        lemma_st_space(b);
        lemma_st_push(st_space(b), '=');
        lemma_st_space(st_push(st_space(b), '='));
    } else {
        lemma_infix_strip(st, text);
    }
}


proof fn lemma_run_strip(st: FmtState, s: Seq<char>, alnum: Seq<bool>, toks: Seq<Tok>)
    requires
        forall|m: int| 0 <= m < toks.len() ==> tok_ok(s, alnum, #[trigger] toks[m]),
    ensures
        strip_ws(run(st, s, toks).out) == strip_ws(st.out) + strip_all(s, toks),
    decreases toks.len(),
{
    if toks.len() == 0 {
        assert(strip_ws(st.out) + Seq::<char>::empty() =~= strip_ws(st.out));
    } else {
        let next = if toks.len() > 1 { Some(toks[1]) } else { None };
        let st2 = step(st, s, toks[0], next);
        assert(tok_ok(s, alnum, toks[0]));
        lemma_step_strip(st, s, alnum, toks[0], next);
        assert forall|m: int| 0 <= m < toks.drop_first().len() implies tok_ok(
            s,
            alnum,
            #[trigger] toks.drop_first()[m],
        ) by {
            assert(toks.drop_first()[m] == toks[m + 1]);
        }
        lemma_run_strip(st2, s, alnum, toks.drop_first());
        assert(strip_ws(st.out) + strip_ws(tok_text(s, toks[0])) + strip_all(s, toks.drop_first())
            =~= strip_ws(st.out) + (strip_ws(tok_text(s, toks[0])) + strip_all(
            s,
            toks.drop_first(),
        )));
    }
}

/// The tokens from position `i` on carry all the non-blank text of `s[i..]`.
proof fn lemma_tokens_partition(s: Seq<char>, alnum: Seq<bool>, i: int)
    requires
        0 <= i <= s.len(),
    ensures
        strip_ws(s.subrange(i, s.len() as int)) == strip_all(s, tokens_from(s, alnum, i)),
    decreases s.len() - i,
{
    let rest = s.subrange(i, s.len() as int);
    if i == s.len() {
        assert(rest =~= Seq::<char>::empty());
    } else if is_ws(s[i]) {
        lemma_tokens_partition(s, alnum, i + 1);
        assert(rest =~= seq![s[i]] + s.subrange(i + 1, s.len() as int));
        lemma_strip_ws_concat(seq![s[i]], s.subrange(i + 1, s.len() as int));
        lemma_strip_all_blank(seq![s[i]]);
        assert(Seq::<char>::empty() + strip_ws(s.subrange(i + 1, s.len() as int)) =~= strip_ws(
            s.subrange(i + 1, s.len() as int),
        ));
    } else {
        let (e, k) = scan(s, alnum, i);
        lemma_scan_bounds(s, alnum, i);
        lemma_tokens_partition(s, alnum, e);
        assert(rest =~= s.subrange(i, e) + s.subrange(e, s.len() as int));
        lemma_strip_ws_concat(s.subrange(i, e), s.subrange(e, s.len() as int));
        let toks = tokens_from(s, alnum, i);
        assert(toks[0] == Tok { start: i, end: e, kind: k });
        assert(toks.drop_first() =~= tokens_from(s, alnum, e));
    }
}

/// The trailing-blank trim and final line break add no text.
proof fn lemma_finish_strip(o: Seq<char>)
    ensures
        strip_ws(trim_blank(o).push('\n')) == strip_ws(o),
{
    lemma_strip_trim_blank(o);
    lemma_strip_ws_push_ws(trim_blank(o), '\n');
}

/// Formatting changes white space only: with every white-space character removed,
/// the formatted text and the source are the same.
pub proof fn lemma_format_keeps_text(s: Seq<char>, alnum: Seq<bool>)
    requires
        alnum.len() == s.len(),
    ensures
        strip_ws(format_text(s, alnum)) == strip_ws(s),
{
    let toks = tokens_from(s, alnum, 0);
    lemma_tokens_ok(s, alnum, 0);
    lemma_run_strip(initial_state(), s, alnum, toks);
    lemma_tokens_partition(s, alnum, 0);
    assert(s.subrange(0, s.len() as int) =~= s);
    lemma_finish_strip(run(initial_state(), s, toks).out);
    assert(strip_ws(initial_state().out) =~= Seq::<char>::empty());
    assert(Seq::<char>::empty() + strip_all(s, toks) =~= strip_all(s, toks));
}

proof fn lemma_trim_blank_end(o: Seq<char>)
    ensures
        trim_blank(o).len() == 0 || (trim_blank(o).last() != ' ' && trim_blank(o).last() != '\n'),
    decreases o.len(),
{
    if o.len() > 0 && (o.last() == ' ' || o.last() == '\n') {
        lemma_trim_blank_end(o.drop_last());
    }
}

/// The formatted text ends in exactly one line break, with no blank before it.
pub proof fn lemma_format_ends_with_newline(s: Seq<char>, alnum: Seq<bool>)
    ensures
        format_text(s, alnum).len() >= 1,
        format_text(s, alnum).last() == '\n',
        format_text(s, alnum).len() >= 2 ==> format_text(s, alnum)[format_text(s, alnum).len() - 2]
            != ' ' && format_text(s, alnum)[format_text(s, alnum).len() - 2] != '\n',
{
    lemma_trim_blank_end(run(initial_state(), s, tokens_from(s, alnum, 0)).out);
}


/// `t` stands somewhere in `o` as one contiguous run.
pub open spec fn occurs(o: Seq<char>, t: Seq<char>) -> bool {
    exists|p: int| 0 <= p && p + t.len() <= o.len() && #[trigger] o.subrange(p, p + t.len()) == t
}

/// A text that ends in a character other than white space.
pub open spec fn solid_end(t: Seq<char>) -> bool {
    t.len() > 0 && !is_ws(t.last())
}

/// Every solid-ended run of `a` is still a run of `b`.
pub open spec fn keeps(a: Seq<char>, b: Seq<char>) -> bool {
    forall|t: Seq<char>| solid_end(t) && #[trigger] occurs(a, t) ==> occurs(b, t)
}

proof fn lemma_keeps_trans(a: Seq<char>, b: Seq<char>, c: Seq<char>)
    requires
        keeps(a, b),
        keeps(b, c),
    ensures
        keeps(a, c),
{
    assert forall|t: Seq<char>| solid_end(t) && #[trigger] occurs(a, t) implies occurs(c, t) by {
        assert(occurs(b, t));
    }
}

proof fn lemma_keeps_append(a: Seq<char>, u: Seq<char>)
    ensures
        keeps(a, a + u),
        occurs(a + u, u),
{
    assert forall|t: Seq<char>| solid_end(t) && #[trigger] occurs(a, t) implies occurs(a + u, t) by {
        let p = choose|p: int| 0 <= p && p + t.len() <= a.len() && #[trigger] a.subrange(p, p + t.len()) == t;
        assert((a + u).subrange(p, p + t.len()) =~= a.subrange(p, p + t.len()));
    }
    assert((a + u).subrange(a.len() as int, (a.len() + u.len()) as int) =~= u);
}

proof fn lemma_keeps_push(a: Seq<char>, c: char)
    ensures
        keeps(a, a.push(c)),
{
    lemma_keeps_append(a, seq![c]);
    assert(a + seq![c] =~= a.push(c));
}

proof fn lemma_keeps_drop_ws(a: Seq<char>)
    requires
        a.len() > 0,
        is_ws(a.last()),
    ensures
        keeps(a, a.drop_last()),
{
    assert forall|t: Seq<char>| solid_end(t) && #[trigger] occurs(a, t) implies occurs(a.drop_last(), t) by {
        let p = choose|p: int| 0 <= p && p + t.len() <= a.len() && #[trigger] a.subrange(p, p + t.len()) == t;
        assert(a[p + t.len() - 1] == t.last());
        assert(a.drop_last().subrange(p, p + t.len()) =~= a.subrange(p, p + t.len()));
    }
}

proof fn lemma_keeps_trim_spaces(a: Seq<char>)
    ensures
        keeps(a, trim_spaces(a)),
    decreases a.len(),
{
    if a.len() > 0 && a.last() == ' ' {
        lemma_keeps_drop_ws(a);
        lemma_keeps_trim_spaces(a.drop_last());
        lemma_keeps_trans(a, a.drop_last(), trim_spaces(a.drop_last()));
    }
}

proof fn lemma_keeps_trim_blank(a: Seq<char>)
    ensures
        keeps(a, trim_blank(a)),
    decreases a.len(),
{
    if a.len() > 0 && (a.last() == ' ' || a.last() == '\n') {
        lemma_keeps_drop_ws(a);
        lemma_keeps_trim_blank(a.drop_last());
        lemma_keeps_trans(a, a.drop_last(), trim_blank(a.drop_last()));
    }
}

proof fn lemma_keeps_newline(a: Seq<char>)
    ensures
        keeps(a, with_newline(a)),
{
    lemma_keeps_trim_spaces(a);
    lemma_keeps_push(trim_spaces(a), '\n');
    lemma_keeps_trans(a, trim_spaces(a), with_newline(a));
}

proof fn lemma_keeps_space(a: Seq<char>)
    ensures
        keeps(a, with_space(a)),
{
    lemma_keeps_push(a, ' ');
}

proof fn lemma_keeps_indent(st: FmtState)
    ensures
        keeps(st.out, st_indent(st).out),
{
    lemma_keeps_append(st.out, indent_text(st.indent));
}

/// Laying out a token keeps what the output held, and a comment or literal token that
/// ends in a character other than white space then stands in the output as written.
proof fn lemma_step_keeps(st: FmtState, s: Seq<char>, alnum: Seq<bool>, t: Tok, next: Option<Tok>)
    requires
        tok_ok(s, alnum, t),
    ensures
        keeps(st.out, step(st, s, t, next).out),
        (t.kind == TokenKind::String || t.kind == TokenKind::LineComment || t.kind
            == TokenKind::BlockComment) && solid_end(tok_text(s, t)) ==> occurs(
            step(st, s, t, next).out,
            tok_text(s, t),
        ),
{
    let text = tok_text(s, t);
    let o = st.out;
    let r = step(st, s, t, next).out;
    let sp = st_space(st);
    lemma_keeps_space(o);
    match t.kind {
        TokenKind::LineComment => {
            let a = if !st.line_start { st_space(st) } else { st };
            lemma_keeps_indent(a);
            lemma_keeps_trans(o, a.out, st_indent(a).out);
            lemma_keeps_append(st_indent(a).out, text);
            lemma_keeps_trans(o, st_indent(a).out, st_indent(a).out + text);
            lemma_keeps_newline(st_indent(a).out + text);
            lemma_keeps_trans(o, st_indent(a).out + text, r);
        },
        TokenKind::BlockComment => {
            let a = if needs_space_spec(st.prev, TokenKind::BlockComment, st.prev_text) {
                st_space(st)
            } else {
                st
            };
            lemma_keeps_indent(a);
            lemma_keeps_trans(o, a.out, st_indent(a).out);
            lemma_keeps_append(st_indent(a).out, text);
            lemma_keeps_trans(o, st_indent(a).out, st_indent(a).out + text);
            lemma_keeps_newline(st_indent(a).out + text);
            lemma_keeps_trans(o, st_indent(a).out + text, with_newline(st_indent(a).out + text));
        },
        TokenKind::OpenBrace => {
            let a = if needs_space_spec(st.prev, TokenKind::OpenBrace, st.prev_text) || (st.prev
                == Some(TokenKind::Operator) && st.prev_text == ">"@) {
                st_space(st)
            } else {
                st
            };
            lemma_keeps_indent(a);
            lemma_keeps_trans(o, a.out, st_indent(a).out);
            lemma_keeps_push(st_indent(a).out, '{');
            lemma_keeps_trans(o, st_indent(a).out, st_indent(a).out.push('{'));
            lemma_keeps_newline(st_indent(a).out.push('{'));
            lemma_keeps_trans(o, st_indent(a).out.push('{'), r);
        },
        TokenKind::CloseBrace => {
            lemma_keeps_newline(o);
            let a = FmtState { indent: if st.indent > 0 { (st.indent - 1) as nat } else { 0 }, ..st };
            let b = if !a.line_start { st_newline(a) } else { a };
            lemma_keeps_indent(b);
            lemma_keeps_trans(o, b.out, st_indent(b).out);
            lemma_keeps_push(st_indent(b).out, '}');
            lemma_keeps_trans(o, st_indent(b).out, st_indent(b).out.push('}'));
            lemma_keeps_newline(st_indent(b).out.push('}'));
            lemma_keeps_trans(o, st_indent(b).out.push('}'), with_newline(st_indent(b).out.push('}')));
        },
        TokenKind::Semicolon => {
            lemma_keeps_indent(st);
            lemma_keeps_push(st_indent(st).out, ';');
            lemma_keeps_trans(o, st_indent(st).out, st_indent(st).out.push(';'));
            lemma_keeps_newline(st_indent(st).out.push(';'));
            lemma_keeps_space(st_indent(st).out.push(';'));
            lemma_keeps_trans(o, st_indent(st).out.push(';'), r);
        },
        TokenKind::Comma => {
            lemma_keeps_push(o, ',');
            lemma_keeps_newline(o.push(','));
            lemma_keeps_space(o.push(','));
            lemma_keeps_trans(o, o.push(','), r);
        },
        TokenKind::Colon => {
            lemma_keeps_push(sp.out, ':');
            lemma_keeps_trans(o, sp.out, sp.out.push(':'));
            lemma_keeps_space(sp.out.push(':'));
            lemma_keeps_trans(o, sp.out.push(':'), with_space(sp.out.push(':')));
            lemma_keeps_push(o, ':');
            lemma_keeps_space(o.push(':'));
            lemma_keeps_trans(o, o.push(':'), with_space(o.push(':')));
        },
        TokenKind::OpenParen => {
            let a = if st.prev == Some(TokenKind::Word) && paren_keyword(st.prev_text) {
                st_space(st)
            } else {
                st
            };
            lemma_keeps_push(a.out, '(');
            lemma_keeps_trans(o, a.out, r);
        },
        TokenKind::CloseParen => {
            lemma_keeps_push(o, ')');
        },
        TokenKind::OpenBracket => {
            lemma_keeps_push(o, '[');
        },
        TokenKind::CloseBracket => {
            lemma_keeps_push(o, ']');
        },
        TokenKind::Dot => {
            lemma_keeps_append(o, text);
        },
        TokenKind::Operator => {
            lemma_operator_keeps(st, text, kind_of(next), opt_text(s, next));
        },
        _ => {
            let after_generic = st.prev == Some(TokenKind::Operator) && (st.prev_text == ">"@
                || st.prev_text == ">>"@) && (t.kind == TokenKind::Word || t.kind
                == TokenKind::String || t.kind == TokenKind::OpenBrace);
            let a = if needs_space_spec(st.prev, t.kind, st.prev_text) || after_generic {
                st_space(st)
            } else {
                st
            };
            lemma_keeps_indent(a);
            lemma_keeps_trans(o, a.out, st_indent(a).out);
            lemma_keeps_append(st_indent(a).out, text);
            lemma_keeps_trans(o, st_indent(a).out, r);
        },
    }
}

proof fn lemma_infix_keeps(st: FmtState, text: Seq<char>)
    ensures
        keeps(st.out, st_infix(st, text).out),
{
    let a = with_space(st.out);
    lemma_keeps_space(st.out);
    lemma_keeps_append(a, text);
    lemma_keeps_trans(st.out, a, a + text);
    lemma_keeps_space(a + text);
    lemma_keeps_trans(st.out, a + text, with_space(a + text));
}

proof fn lemma_operator_keeps(
    st: FmtState,
    text: Seq<char>,
    next: Option<TokenKind>,
    next_text: Option<Seq<char>>,
)
    ensures
        keeps(st.out, step_operator(st, text, next, next_text).out),
{
    let o = st.out;
    let sp = with_space(o);
    lemma_keeps_space(o);
    lemma_infix_keeps(st, text);
    lemma_keeps_append(o, text);
    lemma_keeps_append(sp, text);
    lemma_keeps_trans(o, sp, sp + text);
    // `?`
    lemma_keeps_push(sp, '?');
    lemma_keeps_trans(o, sp, sp.push('?'));
    lemma_keeps_space(sp.push('?'));
    lemma_keeps_trans(o, sp.push('?'), with_space(sp.push('?')));
    lemma_keeps_push(o, '?');
    lemma_keeps_space(o.push('?'));
    lemma_keeps_trans(o, o.push('?'), with_space(o.push('?')));
    // angle brackets
    lemma_keeps_push(o, '<');
    lemma_keeps_push(o, '>');
    lemma_keeps_push(o.push('>'), '>');
    lemma_keeps_trans(o, o.push('>'), o.push('>').push('>'));
    let b = o.push('>').push('>');
    let bs = with_space(b);
    lemma_keeps_space(b);
    lemma_keeps_trans(o, b, bs);
    lemma_keeps_push(bs, '=');
    lemma_keeps_trans(o, bs, bs.push('='));
    lemma_keeps_space(bs.push('='));
    lemma_keeps_trans(o, bs.push('='), with_space(bs.push('=')));
}

proof fn lemma_run_keeps(st: FmtState, s: Seq<char>, alnum: Seq<bool>, toks: Seq<Tok>)
    requires
        forall|m: int| 0 <= m < toks.len() ==> tok_ok(s, alnum, #[trigger] toks[m]),
    ensures
        keeps(st.out, run(st, s, toks).out),
        forall|m: int|
            0 <= m < toks.len() && (toks[m].kind == TokenKind::String || toks[m].kind
                == TokenKind::LineComment || toks[m].kind == TokenKind::BlockComment) && solid_end(
                tok_text(s, toks[m]),
            ) ==> occurs(run(st, s, toks).out, #[trigger] tok_text(s, toks[m])),
    decreases toks.len(),
{
    if toks.len() > 0 {
        let next = if toks.len() > 1 { Some(toks[1]) } else { None };
        let st2 = step(st, s, toks[0], next);
        assert(tok_ok(s, alnum, toks[0]));
        lemma_step_keeps(st, s, alnum, toks[0], next);
        assert forall|m: int| 0 <= m < toks.drop_first().len() implies tok_ok(
            s,
            alnum,
            #[trigger] toks.drop_first()[m],
        ) by {
            assert(toks.drop_first()[m] == toks[m + 1]);
        }
        lemma_run_keeps(st2, s, alnum, toks.drop_first());
        let fin = run(st, s, toks).out;
        lemma_keeps_trans(st.out, st2.out, fin);
        assert forall|m: int|
            0 <= m < toks.len() && (toks[m].kind == TokenKind::String || toks[m].kind
                == TokenKind::LineComment || toks[m].kind == TokenKind::BlockComment) && solid_end(
                tok_text(s, toks[m]),
            ) implies occurs(fin, #[trigger] tok_text(s, toks[m])) by {
            if m == 0 {
                assert(occurs(st2.out, tok_text(s, toks[0])));
            } else {
                assert(toks.drop_first()[m - 1] == toks[m]);
            }
        }
    }
}

/// Comments and literals are kept as written: every string literal or comment
/// whose text ends in a character other than white space stands, as one
/// contiguous run, in the formatted text.
pub proof fn lemma_format_keeps_literals(s: Seq<char>, alnum: Seq<bool>, k: int)
    requires
        alnum.len() == s.len(),
        0 <= k < tokens_from(s, alnum, 0).len(),
        tokens_from(s, alnum, 0)[k].kind == TokenKind::String || tokens_from(s, alnum, 0)[k].kind
            == TokenKind::LineComment || tokens_from(s, alnum, 0)[k].kind == TokenKind::BlockComment,
        solid_end(tok_text(s, tokens_from(s, alnum, 0)[k])),
    ensures
        occurs(format_text(s, alnum), tok_text(s, tokens_from(s, alnum, 0)[k])),
{
    let toks = tokens_from(s, alnum, 0);
    lemma_tokens_ok(s, alnum, 0);
    lemma_run_keeps(initial_state(), s, alnum, toks);
    let o = run(initial_state(), s, toks).out;
    assert(occurs(o, tok_text(s, toks[k])));
    lemma_keeps_trim_blank(o);
    lemma_keeps_push(trim_blank(o), '\n');
    lemma_keeps_trans(o, trim_blank(o), trim_blank(o).push('\n'));
}

} // verus!
