//! Language server over typed JSON-RPC messages: document store, incremental
//! edits and the mapping between LSP positions (lines and UTF-16 units) and
//! byte offsets.

use vstd::prelude::*;

use crate::json::{Json, JsonV};
use crate::symbols::Span;
use crate::table::Table;
use crate::text::same_text;
use crate::text::{
    byte_len, chars_of, matches_at, matches_at_exec, without_prefix, strip_prefix_chars, slice_chars, push_str, len_utf16, len_utf8, lemma_line_end, lemma_utf8_prefix_mono, lemma_utf8_push,
    lemma_utf8_width, line_end, string_from_chars, utf16_len, utf16_width, utf8_len, utf8_width,
};

verus! {

/// A position in a document: zero-based line, and UTF-16 code units into the line.
#[derive(Clone, Copy, Debug, PartialEq, Eq, Structural)]
pub struct Position {
    pub line: u64,
    pub character: u64,
}

/// A range of a document.
#[derive(Clone, Copy, Debug, PartialEq, Eq, Structural)]
pub struct Range {
    pub start: Position,
    pub end: Position,
}

/// The character index at which line `line` starts, if the text has that many lines.
pub open spec fn line_start(t: Seq<char>, line: nat) -> Option<int>
    decreases line,
{
    if line == 0 {
        Some(0)
    } else {
        match line_start(t, (line - 1) as nat) {
            Some(st) => {
                let e = line_end(t, st);
                if e >= t.len() {
                    None
                } else {
                    Some(e + 1)
                }
            },
            None => None,
        }
    }
}

/// The character index `k` of the line `st..e` that lies `character` UTF-16 units in.
pub open spec fn column_at(t: Seq<char>, st: int, e: int, character: nat) -> Option<int> {
    if exists|k: int| st <= k <= e && #[trigger] utf16_len(t.subrange(st, k)) == character {
        Some(choose|k: int| st <= k <= e && #[trigger] utf16_len(t.subrange(st, k)) == character)
    } else {
        None
    }
}

/// The character index that a line and UTF-16 column denote, if any.
pub open spec fn char_index_at(t: Seq<char>, line: nat, character: nat) -> Option<int> {
    match line_start(t, line) {
        Some(st) => column_at(t, st, line_end(t, st), character),
        None => None,
    }
}

/// The byte offset that a position denotes, if any.
pub open spec fn byte_offset_at(t: Seq<char>, p: Position) -> Option<int> {
    match char_index_at(t, p.line as nat, p.character as nat) {
        Some(k) => Some(utf8_len(t.take(k)) as int),
        None => None,
    }
}

proof fn lemma_utf16_step(t: Seq<char>, st: int, k: int)
    requires
        0 <= st <= k < t.len(),
    ensures
        utf16_len(t.subrange(st, k + 1)) == utf16_len(t.subrange(st, k)) + utf16_width(t[k]),
{
    assert(t.subrange(st, k + 1).drop_last() =~= t.subrange(st, k));
}

proof fn lemma_utf16_mono(t: Seq<char>, st: int, k1: int, k2: int)
    requires
        0 <= st <= k1 < k2 <= t.len(),
    ensures
        utf16_len(t.subrange(st, k1)) < utf16_len(t.subrange(st, k2)),
    decreases k2 - k1,
{
    lemma_utf16_step(t, st, k2 - 1);
    if k1 < k2 - 1 {
        lemma_utf16_mono(t, st, k1, k2 - 1);
    }
}

/// At most one character index lies a given number of UTF-16 units into a line.
proof fn lemma_column_unique(t: Seq<char>, st: int, e: int, character: nat, k: int)
    requires
        0 <= st <= k <= e <= t.len(),
        utf16_len(t.subrange(st, k)) == character,
    ensures
        column_at(t, st, e, character) == Some(k),
{
    let c = choose|j: int| st <= j <= e && #[trigger] utf16_len(t.subrange(st, j)) == character;
    if c < k {
        lemma_utf16_mono(t, st, c, k);
    } else if c > k {
        lemma_utf16_mono(t, st, k, c);
    }
}

/// The character index and byte offset of a position in the characters `t`.
fn locate(t: &Vec<char>, total: usize, position: &Position) -> (r: Option<(usize, usize)>)
    requires
        total == utf8_len(t@),
    ensures
        r matches Some((k, b)) ==> char_index_at(t@, position.line as nat, position.character as nat)
            == Some(k as int) && b == utf8_len(t@.take(k as int)) && k <= t@.len(),
        r is None ==> char_index_at(t@, position.line as nat, position.character as nat) is None,
{
    let ghost ts = t@;
    let mut start: usize = 0;
    let mut start_byte: usize = 0;
    let mut line: u64 = 0;
    loop
        invariant
            t@ == ts,
            total == utf8_len(ts),
            start <= ts.len(),
            start_byte == utf8_len(ts.take(start as int)),
            line <= position.line,
            line_start(ts, line as nat) == Some(start as int),
        decreases ts.len() - start,
    {
        proof {
            lemma_utf8_prefix_mono(ts, start as int, ts.len() as int);
        }
        let mut end = start;
        let mut end_byte = start_byte;
        while end < t.len() && t[end] != '\n'
            invariant
                t@ == ts,
                total == utf8_len(ts),
                start <= end <= ts.len(),
                end_byte == utf8_len(ts.take(end as int)),
                line_end(ts, end as int) == line_end(ts, start as int),
            decreases ts.len() - end,
        {
            proof {
                lemma_utf8_prefix_mono(ts, end as int + 1, ts.len() as int);
                assert(ts.take(end + 1) =~= ts.take(end as int).push(ts[end as int]));
                lemma_utf8_push(ts.take(end as int), ts[end as int]);
            }
            end_byte = end_byte + len_utf8(t[end]);
            end += 1;
        }
        assert(line_end(ts, start as int) == end as int);
        if line == position.line {
            let mut utf16: u64 = 0;
            let mut i = start;
            let mut b = start_byte;
            while i < end
                invariant
                    t@ == ts,
                            total == utf8_len(ts),
                    start <= i <= end <= ts.len(),
                    line_end(ts, start as int) == end as int,
                    line_start(ts, line as nat) == Some(start as int),
                    line == position.line,
                    b == utf8_len(ts.take(i as int)),
                    end_byte == utf8_len(ts.take(end as int)),
                    utf16 == utf16_len(ts.subrange(start as int, i as int)),
                    utf16 <= position.character,
                    forall|k: int|
                        start <= k < i ==> #[trigger] utf16_len(ts.subrange(start as int, k))
                            < position.character,
                decreases end - i,
            {
                if utf16 == position.character {
                    proof {
                        lemma_column_unique(ts, start as int, end as int, position.character as nat, i as int);
                    }
                    return Some((i, b));
                }
                let w = len_utf16(t[i]);
                proof {
                    lemma_utf16_step(ts, start as int, i as int);
                }
                if w > position.character - utf16 {
                    proof {
                        assert forall|k: int|
                            start <= k <= end implies #[trigger] utf16_len(
                            ts.subrange(start as int, k),
                        ) != position.character by {
                            if k > i {
                                if k > i + 1 {
                                    lemma_utf16_mono(ts, start as int, i + 1, k);
                                }
                            }
                        }
                    }
                    return None;
                }
                utf16 = utf16 + w;
                proof {
                    lemma_utf8_prefix_mono(ts, i as int + 1, ts.len() as int);
                    assert(ts.take(i + 1) =~= ts.take(i as int).push(ts[i as int]));
                    lemma_utf8_push(ts.take(i as int), ts[i as int]);
                }
                b = b + len_utf8(t[i]);
                i += 1;
            }
            if utf16 == position.character {
                proof {
                    lemma_column_unique(ts, start as int, end as int, position.character as nat, end as int);
                }
                return Some((end, end_byte));
            }
            proof {
                assert forall|k: int|
                    start <= k <= end implies #[trigger] utf16_len(ts.subrange(start as int, k))
                    != position.character by {
                }
            }
            return None;
        }
        if end == t.len() {
            proof {
                assert(line_start(ts, (line + 1) as nat) is None);
                lemma_no_later_line(ts, (line + 1) as nat, position.line as nat);
            }
            return None;
        }
        proof {
            lemma_utf8_prefix_mono(ts, end as int + 1, ts.len() as int);
            assert(ts.take(end + 1) =~= ts.take(end as int).push(ts[end as int]));
            lemma_utf8_push(ts.take(end as int), ts[end as int]);
            lemma_utf8_width(ts[end as int]);
        }
        start = end + 1;
        start_byte = end_byte + 1;
        line = line + 1;
    }
}

/// The byte offset of a position: lines are split at `\n`, columns count UTF-16
/// code units; `None` when the line or column lies outside the text.
pub fn offset_at_position(text: &str, position: &Position) -> (r: Option<usize>)
    ensures
        r matches Some(b) ==> byte_offset_at(text@, *position) == Some(b as int),
        r is None ==> byte_offset_at(text@, *position) is None,
{
    let t = chars_of(text);
    let total = byte_len(text);
    match locate(&t, total, position) {
        Some((_, b)) => Some(b),
        None => None,
    }
}

/// The text after replacing the range `range` of `old` by `replacement`: both ends
/// must exist and the start must not come after the end; otherwise nothing changes.
pub open spec fn changed_text(old: Seq<char>, range: Range, replacement: Seq<char>) -> Seq<char> {
    match (
        char_index_at(old, range.start.line as nat, range.start.character as nat),
        char_index_at(old, range.end.line as nat, range.end.character as nat),
    ) {
        (Some(a), Some(b)) => if a <= b {
            old.take(a) + replacement + old.skip(b)
        } else {
            old
        },
        _ => old,
    }
}

/// Applies an incremental edit to a document.
pub fn apply_change(text: &mut String, range: &Range, replacement: &str)
    ensures
        final(text)@ == changed_text(old(text)@, *range, replacement@),
{
    let t = chars_of(text.as_str());
    let total = byte_len(text.as_str());
    let (a, start) = match locate(&t, total, &range.start) {
        Some(found) => found,
        None => return ,
    };
    let (b, end) = match locate(&t, total, &range.end) {
        Some(found) => found,
        None => return ,
    };
    proof {
        if a < b {
            lemma_utf8_prefix_mono(t@, a as int, b as int);
        } else if b < a {
            lemma_utf8_prefix_mono(t@, b as int, a as int);
        }
    }
    if start <= end {
        let r = chars_of(replacement);
        let mut out: Vec<char> = Vec::new();
        let mut i: usize = 0;
        while i < a
            invariant
                a <= b <= t@.len(),
                i <= a,
                out@ == t@.take(i as int),
            decreases a - i,
        {
            out.push(t[i]);
            i += 1;
            assert(out@ =~= t@.take(i as int));
        }
        let mut j: usize = 0;
        while j < r.len()
            invariant
                a <= b <= t@.len(),
                j <= r@.len(),
                out@ == t@.take(a as int) + r@.take(j as int),
            decreases r@.len() - j,
        {
            out.push(r[j]);
            j += 1;
            assert(out@ =~= t@.take(a as int) + r@.take(j as int));
        }
        let mut k: usize = b;
        while k < t.len()
            invariant
                a <= b <= k <= t@.len(),
                out@ == t@.take(a as int) + r@ + t@.subrange(b as int, k as int),
            decreases t@.len() - k,
        {
            out.push(t[k]);
            k += 1;
            assert(out@ =~= t@.take(a as int) + r@ + t@.subrange(b as int, k as int));
        }
        assert(r@.take(r@.len() as int) =~= r@);
        assert(t@.subrange(b as int, t@.len() as int) =~= t@.skip(b as int));
        *text = string_from_chars(&out);
    }
}

/// Line breaks in `s`.
pub open spec fn newline_count(s: Seq<char>) -> nat
    decreases s.len(),
{
    if s.len() == 0 {
        0
    } else {
        newline_count(s.drop_last()) + (if s.last() == '\n' {
            1nat
        } else {
            0nat
        })
    }
}

/// The start of the line that holds character index `k`.
pub open spec fn current_line_start(t: Seq<char>, k: int) -> int
    decreases k,
{
    if k <= 0 {
        0
    } else if t[k - 1] == '\n' {
        k
    } else {
        current_line_start(t, k - 1)
    }
}

/// The line and UTF-16 column of character index `k`.
pub open spec fn position_of(t: Seq<char>, k: int) -> Position {
    Position {
        line: newline_count(t.take(k)) as u64,
        character: utf16_len(t.subrange(current_line_start(t, k), k)) as u64,
    }
}

/// A byte offset that falls on a character boundary of `t` (or past its end).
pub open spec fn offset_ok(t: Seq<char>, offset: int) -> bool {
    offset >= utf8_len(t) || exists|k: int| 0 <= k <= t.len() && #[trigger] utf8_len(t.take(k)) == offset
}

/// The character index of a byte offset, the end of the text for offsets past it.
pub open spec fn index_of_offset(t: Seq<char>, offset: int) -> int {
    if offset >= utf8_len(t) {
        t.len() as int
    } else {
        choose|k: int| 0 <= k <= t.len() && #[trigger] utf8_len(t.take(k)) == offset
    }
}

proof fn lemma_utf16_le_utf8(s: Seq<char>)
    ensures
        utf16_len(s) <= utf8_len(s),
    decreases s.len(),
{
    if s.len() > 0 {
        lemma_utf16_le_utf8(s.drop_last());
        assert(s.drop_last().push(s.last()) =~= s);
        lemma_utf8_push(s.drop_last(), s.last());
        lemma_utf8_width(s.last());
    }
}

/// Whether a byte offset falls on a character boundary of `text` (or past its end):
/// the offsets that `position_at_offset` accepts.
pub fn offset_on_boundary(text: &str, offset: usize) -> (r: bool)
    ensures
        r == offset_ok(text@, offset as int),
{
    let t = chars_of(text);
    let total = byte_len(text);
    if offset >= total {
        return true;
    }
    let ghost ts = t@;
    let mut k: usize = 0;
    let mut b: usize = 0;
    while k < t.len()
        invariant
            t@ == ts,
            ts == text@,
            total == utf8_len(ts),
            offset < total,
            k <= ts.len(),
            b == utf8_len(ts.take(k as int)),
            forall|j: int| 0 <= j < k ==> #[trigger] utf8_len(ts.take(j)) < offset,
        decreases ts.len() - k,
    {
        if b == offset {
            assert(0 <= k <= ts.len() && utf8_len(text@.take(k as int)) == offset);
            return true;
        }
        if b > offset {
            proof {
                assert forall|j: int| 0 <= j <= ts.len() implies #[trigger] utf8_len(ts.take(j)) != offset by {
                    if j > k {
                        lemma_utf8_prefix_mono(ts, k as int, j);
                    }
                }
            }
            return false;
        }
        proof {
            lemma_utf8_prefix_mono(ts, k as int + 1, ts.len() as int);
            assert(ts.take(k + 1) =~= ts.take(k as int).push(ts[k as int]));
            lemma_utf8_push(ts.take(k as int), ts[k as int]);
        }
        b = b + len_utf8(t[k]);
        k += 1;
    }
    proof {
        assert(ts.take(ts.len() as int) =~= ts);
        assert forall|j: int| 0 <= j <= ts.len() implies #[trigger] utf8_len(ts.take(j)) != offset by {}
    }
    false
}

/// The line and UTF-16 column of a byte offset (offsets past the end count as the end).
pub fn position_at_offset(text: &str, offset: usize) -> (p: Position)
    requires
        offset_ok(text@, offset as int),
    ensures
        p == position_of(text@, index_of_offset(text@, offset as int)),
{
    let t = chars_of(text);
    let total = byte_len(text);
    let ghost ts = t@;
    let off = if offset < total {
        offset
    } else {
        total
    };
    let ghost target = index_of_offset(ts, offset as int);
    proof {
        if offset >= total {
            assert(ts.take(ts.len() as int) =~= ts);
        }
        assert(0 <= target <= ts.len() && utf8_len(ts.take(target)) == off);
    }
    let n = t.len();
    let mut k: usize = 0;
    let mut b: usize = 0;
    let mut line: usize = 0;
    let mut line_start_index: usize = 0;
    let mut col: usize = 0;
    while b < off
        invariant
            t@ == ts,
            n == ts.len(),
            total == utf8_len(ts),
            0 <= target <= ts.len(),
            utf8_len(ts.take(target)) == off,
            off <= total,
            k <= target,
            b == utf8_len(ts.take(k as int)),
            b <= off,
            line == newline_count(ts.take(k as int)),
            line <= k,
            line_start_index == current_line_start(ts, k as int),
            line_start_index <= k,
            col == utf16_len(ts.subrange(line_start_index as int, k as int)),
        decreases target - k,
    {
        proof {
            if k == target {
                assert(false);
            }
            lemma_utf8_prefix_mono(ts, k as int + 1, target);
            assert(ts.take(k + 1) =~= ts.take(k as int).push(ts[k as int]));
            lemma_utf8_push(ts.take(k as int), ts[k as int]);
            assert(ts.take(k + 1).drop_last() =~= ts.take(k as int));
            lemma_utf16_le_utf8(ts.subrange(line_start_index as int, k + 1));
            lemma_utf8_prefix_mono(ts.subrange(line_start_index as int, k + 1), 0, (k + 1 - line_start_index) as int);
            assert(ts.subrange(line_start_index as int, k + 1).take((k + 1 - line_start_index) as int)
                =~= ts.subrange(line_start_index as int, k + 1));
            lemma_utf8_prefix_mono(ts, line_start_index as int, k + 1);
            crate::text::lemma_utf8_concat(ts.take(line_start_index as int), ts.subrange(line_start_index as int, k + 1));
            assert(ts.take(line_start_index as int) + ts.subrange(line_start_index as int, k + 1) =~= ts.take(k + 1));
            lemma_utf16_step(ts, line_start_index as int, k as int);
        }
        let c = t[k];
        b = b + len_utf8(c);
        if c == '\n' {
            line = line + 1;
            line_start_index = k + 1;
            col = 0;
            proof {
                assert(ts.subrange(k + 1, k + 1) =~= Seq::<char>::empty());
            }
        } else {
            col = col + len_utf16(c) as usize;
        }
        k += 1;
    }
    proof {
        if k < target {
            lemma_utf8_prefix_mono(ts, k as int, target);
        }
    }
    Position { line: line as u64, character: col as u64 }
}

proof fn lemma_line_end_skip(t: Seq<char>, j: int, m: int)
    requires
        0 <= j <= m <= t.len(),
        forall|i: int| j <= i < m ==> t[i] != '\n',
    ensures
        line_end(t, j) == line_end(t, m),
    decreases m - j,
{
    if j < m {
        lemma_line_end_skip(t, j + 1, m);
    }
}

proof fn lemma_newline_count_le(s: Seq<char>)
    ensures
        newline_count(s) <= s.len(),
    decreases s.len(),
{
    if s.len() > 0 {
        lemma_newline_count_le(s.drop_last());
    }
}

/// The line of character index `k` starts where `current_line_start` says, and no
/// line break lies between that start and `k`.
proof fn lemma_line_of(t: Seq<char>, k: int)
    requires
        0 <= k <= t.len(),
    ensures
        line_start(t, newline_count(t.take(k))) == Some(current_line_start(t, k)),
        0 <= current_line_start(t, k) <= k,
        forall|i: int| current_line_start(t, k) <= i < k ==> t[i] != '\n',
    decreases k,
{
    if k > 0 {
        lemma_line_of(t, k - 1);
        assert(t.take(k).drop_last() =~= t.take(k - 1));
        let s = current_line_start(t, k - 1);
        if t[k - 1] == '\n' {
            lemma_line_end_skip(t, s, k - 1);
            assert(line_end(t, k - 1) == k - 1);
        }
    }
}

/// Going from a character index to its position and back gives the same index.
pub proof fn lemma_position_round_trip(t: Seq<char>, k: int)
    requires
        0 <= k <= t.len(),
        utf8_len(t) <= u64::MAX,
    ensures
        char_index_at(t, position_of(t, k).line as nat, position_of(t, k).character as nat)
            == Some(k),
{
    lemma_line_of(t, k);
    let s = current_line_start(t, k);
    lemma_line_end_skip(t, s, k);
    lemma_line_end(t, k);
    lemma_newline_count_le(t.take(k));
    lemma_utf16_le_utf8(t.subrange(s, k));
    lemma_utf8_prefix_mono(t, s, k);
    lemma_utf8_prefix_mono(t, 0, t.len() as int);
    crate::text::lemma_utf8_concat(t.take(s), t.subrange(s, k));
    assert(t.take(s) + t.subrange(s, k) =~= t.take(k));
    lemma_utf8_prefix_mono(t, k, t.len() as int);
    lemma_column_unique(t, s, line_end(t, s), utf16_len(t.subrange(s, k)), k);
}

/// Going from a byte offset on a character boundary to its position and back gives the
/// same offset.
pub proof fn lemma_offset_round_trip(t: Seq<char>, offset: int)
    requires
        0 <= offset <= utf8_len(t),
        offset_ok(t, offset),
        utf8_len(t) <= u64::MAX,
    ensures
        byte_offset_at(t, position_of(t, index_of_offset(t, offset))) == Some(offset),
{
    let k = index_of_offset(t, offset);
    if offset >= utf8_len(t) {
        assert(t.take(t.len() as int) =~= t);
    }
    lemma_position_round_trip(t, k);
}

/// No character of `t[j..line_end(t, j))` is a line break, and a line that ends
/// before the end of `t` ends at one.
proof fn lemma_line_end_props(t: Seq<char>, j: int)
    requires
        0 <= j <= t.len(),
    ensures
        j <= line_end(t, j) <= t.len(),
        forall|i: int| j <= i < line_end(t, j) ==> t[i] != '\n',
        line_end(t, j) < t.len() ==> t[line_end(t, j)] == '\n',
    decreases t.len() - j,
{
    if j < t.len() && t[j] != '\n' {
        lemma_line_end_props(t, j + 1);
    }
}

/// Characters without line breaks add no line.
proof fn lemma_newline_count_flat(t: Seq<char>, a: int, b: int)
    requires
        0 <= a <= b <= t.len(),
        forall|i: int| a <= i < b ==> t[i] != '\n',
    ensures
        newline_count(t.take(b)) == newline_count(t.take(a)),
    decreases b - a,
{
    if a < b {
        lemma_newline_count_flat(t, a, b - 1);
        assert(t.take(b).drop_last() =~= t.take(b - 1));
    }
}

/// Line `n` starts after `n` line breaks, at the start of the text or just after a
/// line break.
proof fn lemma_line_start_props(t: Seq<char>, n: nat)
    ensures
        line_start(t, n) matches Some(st) ==> 0 <= st <= t.len() && newline_count(t.take(st)) == n && (st
            == 0 || t[st - 1] == '\n'),
    decreases n,
{
    if n > 0 {
        lemma_line_start_props(t, (n - 1) as nat);
        if let Some(prev) = line_start(t, (n - 1) as nat) {
            lemma_line_end_props(t, prev);
            let e = line_end(t, prev);
            if e < t.len() {
                lemma_newline_count_flat(t, prev, e);
                assert(t.take(e + 1).drop_last() =~= t.take(e));
            }
        }
    }
}

/// Within a line, every index's line starts where the line does.
proof fn lemma_current_line_start(t: Seq<char>, st: int, k: int)
    requires
        0 <= st <= k <= t.len(),
        st == 0 || t[st - 1] == '\n',
        forall|i: int| st <= i < k ==> t[i] != '\n',
    ensures
        current_line_start(t, k) == st,
    decreases k - st,
{
    if k > st {
        lemma_current_line_start(t, st, k - 1);
    }
}

/// Going from a line and UTF-16 column to its character index and back gives the same
/// line and column.
pub proof fn lemma_index_round_trip(t: Seq<char>, line: nat, character: nat, k: int)
    requires
        char_index_at(t, line, character) == Some(k),
        line <= u64::MAX,
        character <= u64::MAX,
    ensures
        position_of(t, k) == (Position { line: line as u64, character: character as u64 }),
{
    lemma_line_start_props(t, line);
    let st = line_start(t, line)->0;
    lemma_line_end_props(t, st);
    let e = line_end(t, st);
    assert(st <= k <= e && utf16_len(t.subrange(st, k)) == character);
    lemma_newline_count_flat(t, st, k);
    lemma_current_line_start(t, st, k);
}

/// Going from a position to its byte offset and back gives the same position: when
/// `byte_offset_at(t, p)` is `o`, `position_of` the character at `o` is `p`.
pub proof fn lemma_position_offset_round_trip(t: Seq<char>, p: Position, o: int)
    requires
        byte_offset_at(t, p) == Some(o),
    ensures
        offset_ok(t, o),
        position_of(t, index_of_offset(t, o)) == p,
{
    let k = char_index_at(t, p.line as nat, p.character as nat)->0;
    lemma_line_start_props(t, p.line as nat);
    let st = line_start(t, p.line as nat)->0;
    lemma_line_end_props(t, st);
    assert(0 <= k <= t.len());
    assert(o == utf8_len(t.take(k)));
    lemma_index_round_trip(t, p.line as nat, p.character as nat, k);
    lemma_utf8_prefix_mono(t, k, t.len() as int);
    assert(t.take(t.len() as int) =~= t);
    if o >= utf8_len(t) {
        assert(k == t.len());
    } else {
        assert(utf8_len(t.take(k)) == o);
        let j = index_of_offset(t, o);
        assert(0 <= j <= t.len() && utf8_len(t.take(j)) == o);
        if j < k {
            lemma_utf8_prefix_mono(t, j, k);
        } else if k < j {
            lemma_utf8_prefix_mono(t, k, j);
        }
    }
}

proof fn lemma_char_index_bounds(t: Seq<char>, line: nat, character: nat)
    ensures
        char_index_at(t, line, character) matches Some(k) ==> 0 <= k <= t.len(),
{
    lemma_line_start_props(t, line);
    if let Some(st) = line_start(t, line) {
        lemma_line_end_props(t, st);
    }
}

/// Over bytes, a change replaces the bytes between the offsets of its two ends by the
/// replacement's: when both ends of `range` have byte offsets `x <= y`, the UTF-8 text
/// after the change is the old text's first `x` bytes, the replacement, and the old
/// text from byte `y` on. When an end has no offset, or they come in the wrong order,
/// the text stays as it was.
pub proof fn lemma_change_bytes(t: Seq<char>, range: Range, replacement: Seq<char>)
    ensures
        match (byte_offset_at(t, range.start), byte_offset_at(t, range.end)) {
            (Some(x), Some(y)) => if x <= y {
                vstd::utf8::encode_utf8(changed_text(t, range, replacement)) == vstd::utf8::encode_utf8(t).take(x)
                    + vstd::utf8::encode_utf8(replacement) + vstd::utf8::encode_utf8(t).skip(y)
            } else {
                changed_text(t, range, replacement) == t
            },
            _ => changed_text(t, range, replacement) == t,
        },
{
    lemma_char_index_bounds(t, range.start.line as nat, range.start.character as nat);
    lemma_char_index_bounds(t, range.end.line as nat, range.end.character as nat);
    match (
        char_index_at(t, range.start.line as nat, range.start.character as nat),
        char_index_at(t, range.end.line as nat, range.end.character as nat),
    ) {
        (Some(a), Some(b)) => {
            let x = utf8_len(t.take(a)) as int;
            let y = utf8_len(t.take(b)) as int;
            if a < b {
                lemma_utf8_prefix_mono(t, a, b);
            } else if b < a {
                lemma_utf8_prefix_mono(t, b, a);
            }
            if a <= b {
                let e = vstd::utf8::encode_utf8(t);
                crate::text::lemma_utf8_concat(t.take(a), t.skip(a));
                crate::text::lemma_utf8_concat(t.take(b), t.skip(b));
                assert(t.take(a) + t.skip(a) =~= t);
                assert(t.take(b) + t.skip(b) =~= t);
                assert(e.take(x) =~= vstd::utf8::encode_utf8(t.take(a)));
                assert(e.skip(y) =~= vstd::utf8::encode_utf8(t.skip(b)));
                crate::text::lemma_utf8_concat(t.take(a) + replacement, t.skip(b));
                crate::text::lemma_utf8_concat(t.take(a), replacement);
            }
        },
        _ => {},
    }
}

/// Once a line is missing, every later line is missing too.
proof fn lemma_no_later_line(t: Seq<char>, a: nat, b: nat)
    requires
        a <= b,
        line_start(t, a) is None,
    ensures
        line_start(t, b) is None,
    decreases b - a,
{
    if a < b {
        lemma_no_later_line(t, a, (b - 1) as nat);
    }
}


// ---------------------------------------------------------------------------
// URIs and paths.
// ---------------------------------------------------------------------------

/// The value of an ASCII hexadecimal digit byte.
pub open spec fn hex_byte(b: u8) -> Option<nat> {
    if 0x30 <= b <= 0x39 {
        Some((b - 0x30) as nat)
    } else if 0x61 <= b <= 0x66 {
        Some((b - 0x61 + 10) as nat)
    } else if 0x41 <= b <= 0x46 {
        Some((b - 0x41 + 10) as nat)
    } else {
        None
    }
}

/// `u8::from_str_radix` of the two bytes after a `%`: two hex digits, or `+` and one.
pub open spec fn escape_value(c1: u8, c2: u8) -> Option<nat> {
    match (hex_byte(c1), hex_byte(c2)) {
        (Some(h), Some(l)) => Some(h * 16 + l),
        (None, Some(l)) => if c1 == 0x2b {
            Some(l)
        } else {
            None
        },
        _ => None,
    }
}

/// The bytes of `b` with every valid `%XX` escape replaced by the byte it stands for.
pub open spec fn pct_decode(b: Seq<u8>) -> Seq<u8>
    decreases b.len(),
{
    if b.len() == 0 {
        Seq::empty()
    } else if b[0] == 0x25 && 2 < b.len() && escape_value(b[1], b[2]) is Some {
        seq![escape_value(b[1], b[2])->0 as u8] + pct_decode(b.skip(3))
    } else {
        seq![b[0]] + pct_decode(b.drop_first())
    }
}

/// A UTF-8 continuation byte: no character starts there.
pub open spec fn continuation(b: u8) -> bool {
    0x80 <= b < 0xc0
}

/// The two bytes after each `%` that the decoder examines end on a character
/// boundary (the decoder reads them as a string slice).
pub open spec fn pct_safe(b: Seq<u8>) -> bool
    decreases b.len(),
{
    if b.len() == 0 {
        true
    } else if b[0] == 0x25 && 2 < b.len() {
        &&& (b.len() > 3 ==> !continuation(b[3]))
        &&& if escape_value(b[1], b[2]) is Some {
            pct_safe(b.skip(3))
        } else {
            pct_safe(b.drop_first())
        }
    } else {
        pct_safe(b.drop_first())
    }
}

/// What `String::from_utf8_lossy` makes of the bytes `b`.
pub uninterp spec fn utf8_lossy(b: Seq<u8>) -> Seq<char>;

/// `String::from_utf8_lossy`: the text of `bytes`, with U+FFFD for invalid sequences;
/// valid UTF-8 comes out unchanged.
#[verifier::external_body]
fn string_from_utf8_lossy(bytes: &Vec<u8>) -> (s: String)
    ensures
        s@ == utf8_lossy(bytes@),
        vstd::utf8::valid_utf8(bytes@) ==> s@ == vstd::utf8::decode_utf8(bytes@),
{
    String::from_utf8_lossy(bytes).into_owned()
}

fn hex_byte_of(b: u8) -> (r: Option<u8>)
    ensures
        r matches Some(v) ==> hex_byte(b) == Some(v as nat),
        r is None ==> hex_byte(b) is None,
{
    if 0x30 <= b && b <= 0x39 {
        Some(b - 0x30)
    } else if 0x61 <= b && b <= 0x66 {
        Some(b - 0x61 + 10)
    } else if 0x41 <= b && b <= 0x46 {
        Some(b - 0x41 + 10)
    } else {
        None
    }
}

/// Decodes the `%XX` escapes of `text`.
pub fn percent_decode(text: &str) -> (r: String)
    requires
        pct_safe(vstd::utf8::encode_utf8(text@)),
    ensures
        r@ == utf8_lossy(pct_decode(vstd::utf8::encode_utf8(text@))),
        vstd::utf8::valid_utf8(pct_decode(vstd::utf8::encode_utf8(text@))) ==> r@ == vstd::utf8::decode_utf8(
            pct_decode(vstd::utf8::encode_utf8(text@)),
        ),
{
    let bytes = text.as_bytes();
    let ghost b = bytes@;
    let n = bytes.len();
    let mut output: Vec<u8> = Vec::new();
    let mut index: usize = 0;
    assert(b.skip(0) =~= b);
    while index < n
        invariant
            n == b.len(),
            bytes@ == b,
            index <= n,
            output@ + pct_decode(b.skip(index as int)) == pct_decode(b),
        decreases n - index,
    {
        let ghost rest = b.skip(index as int);
        let ghost before = output@;
        if bytes[index] == 0x25 && n - index > 2 {
            let c1 = bytes[index + 1];
            let c2 = bytes[index + 2];
            let value = match (hex_byte_of(c1), hex_byte_of(c2)) {
                (Some(h), Some(l)) => Some(h * 16 + l),
                (None, Some(l)) => if c1 == 0x2b {
                    Some(l)
                } else {
                    None
                },
                _ => None,
            };
            proof {
                assert(rest[0] == bytes@[index as int] && rest[1] == c1 && rest[2] == c2);
            }
            match value {
                Some(v) => {
                    output.push(v);
                    proof {
                        assert(rest.skip(3) =~= b.skip(index + 3));
                        assert(before + pct_decode(rest) =~= output@ + pct_decode(b.skip(index + 3)));
                    }
                    index += 3;
                    continue;
                },
                None => {},
            }
        }
        output.push(bytes[index]);
        proof {
            assert(rest.drop_first() =~= b.skip(index + 1));
            assert(rest[0] == bytes@[index as int]);
            assert(before + pct_decode(rest) =~= output@ + pct_decode(b.skip(index + 1)));
        }
        index += 1;
    }
    proof {
        assert(b.skip(index as int) =~= Seq::<u8>::empty());
        assert(output@ + Seq::<u8>::empty() =~= output@);
    }
    string_from_utf8_lossy(&output)
}


/// A decoded path of the form `/C:...` (a Windows drive behind a slash).
pub open spec fn slash_drive(d: Seq<char>) -> bool {
    d.len() >= 3 && d[0] == '/' && (d[1] as u32) < 0x80 && d[2] == ':'
}

/// The path that `uri_to_path` gives: scheme removed, escapes decoded, and on Windows
/// the slash before a drive letter dropped.
pub open spec fn path_of_uri(uri: Seq<char>, windows: bool) -> Seq<char> {
    let rest = match without_prefix(uri, "file://"@) {
        Some(r) => r,
        None => uri,
    };
    let decoded = utf8_lossy(pct_decode(vstd::utf8::encode_utf8(rest)));
    if windows && slash_drive(decoded) {
        decoded.drop_first()
    } else {
        decoded
    }
}

/// The path part of a document URI does not split a character after a `%`.
pub open spec fn uri_ok(uri: Seq<char>) -> bool {
    pct_safe(
        vstd::utf8::encode_utf8(
            match without_prefix(uri, "file://"@) {
                Some(r) => r,
                None => uri,
            },
        ),
    )
}

/// Whether the bytes of `text` meet `pct_safe`.
fn pct_safe_exec(text: &str) -> (r: bool)
    ensures
        r == pct_safe(vstd::utf8::encode_utf8(text@)),
{
    let bytes = text.as_bytes();
    let ghost b = bytes@;
    let n = bytes.len();
    let mut index: usize = 0;
    assert(b.skip(0) =~= b);
    while index < n
        invariant
            n == b.len(),
            bytes@ == b,
            b == vstd::utf8::encode_utf8(text@),
            index <= n,
            pct_safe(b.skip(index as int)) == pct_safe(b),
        decreases n - index,
    {
        let ghost rest = b.skip(index as int);
        proof {
            assert(rest[0] == bytes@[index as int]);
        }
        if bytes[index] == 0x25 && n - index > 2 {
            let c1 = bytes[index + 1];
            let c2 = bytes[index + 2];
            proof {
                assert(rest[1] == c1 && rest[2] == c2);
            }
            if n - index > 3 {
                let c3 = bytes[index + 3];
                assert(rest[3] == c3);
                if 0x80 <= c3 && c3 < 0xc0 {
                    return false;
                }
            }
            let valid = match (hex_byte_of(c1), hex_byte_of(c2)) {
                (Some(_), Some(_)) => true,
                (None, Some(_)) => c1 == 0x2b,
                _ => false,
            };
            if valid {
                proof {
                    assert(rest.skip(3) =~= b.skip(index + 3));
                }
                index += 3;
                continue;
            }
        }
        proof {
            assert(rest.drop_first() =~= b.skip(index + 1));
        }
        index += 1;
    }
    proof {
        assert(b.skip(index as int) =~= Seq::<u8>::empty());
    }
    true
}

/// Whether `uri_to_path` can decode `uri`: no escape in its path splits a
/// character.
pub fn is_uri_ok(uri: &str) -> (r: bool)
    ensures
        r == uri_ok(uri@),
{
    let u = chars_of(uri);
    let rest = match strip_prefix_chars(&u, "file://") {
        Some(r) => string_from_chars(&r),
        None => string_from_chars(&u),
    };
    pct_safe_exec(rest.as_str())
}

/// The file path of a document URI (`windows`: the host is Windows).
pub fn uri_to_path(uri: &str, windows: bool) -> (r: String)
    requires
        uri_ok(uri@),
    ensures
        r@ == path_of_uri(uri@, windows),
{
    let u = chars_of(uri);
    let rest = match strip_prefix_chars(&u, "file://") {
        Some(r) => string_from_chars(&r),
        None => string_from_chars(&u),
    };
    let decoded = percent_decode(rest.as_str());
    if windows {
        let d = chars_of(decoded.as_str());
        if d.len() >= 3 && d[0] == '/' && (d[1] as u32) < 0x80 && d[2] == ':' {
            let tail = slice_chars(&d, 1, d.len());
            assert(tail@ =~= d@.drop_first());
            return string_from_chars(&tail);
        }
    }
    decoded
}

/// `s` with every backslash turned into a slash.
pub open spec fn slashes(s: Seq<char>) -> Seq<char> {
    Seq::new(s.len(), |i: int| if s[i] == '\\' { '/' } else { s[i] })
}

/// The URI that `path_to_uri` gives: the `\\?\` prefix removed, backslashes turned
/// into slashes, a slash added on Windows, and the `file://` scheme.
pub open spec fn uri_of_path(path: Seq<char>, windows: bool) -> Seq<char> {
    let raw = match without_prefix(path, "\\\\?\\"@) {
        Some(r) => r,
        None => path,
    };
    let text = slashes(raw);
    "file://"@ + (if windows {
        "/"@ + text
    } else {
        text
    })
}

/// The `file://` URI of a path (`windows`: the host is Windows).
pub fn path_to_uri(path: &str, windows: bool) -> (r: String)
    ensures
        r@ == uri_of_path(path@, windows),
{
    let p = chars_of(path);
    let raw = match strip_prefix_chars(&p, "\\\\?\\") {
        Some(r) => r,
        None => p,
    };
    let mut out: Vec<char> = Vec::new();
    push_str(&mut out, "file://");
    if windows {
        push_str(&mut out, "/");
    }
    let ghost head = out@;
    let mut i: usize = 0;
    while i < raw.len()
        invariant
            i <= raw@.len(),
            out@ == head + slashes(raw@).take(i as int),
        decreases raw@.len() - i,
    {
        let c = raw[i];
        out.push(if c == '\\' {
            '/'
        } else {
            c
        });
        i += 1;
        assert(out@ =~= head + slashes(raw@).take(i as int));
    }
    assert(slashes(raw@).take(i as int) =~= slashes(raw@));
    assert(out@ =~= uri_of_path(path@, windows));
    string_from_chars(&out)
}

// ---------------------------------------------------------------------------
// Symbols and ranges.
// ---------------------------------------------------------------------------

/// A name in the document and the declaration it refers to.
pub struct SymbolOccurrence {
    pub span: Span,
    /// What hover shows.
    pub detail: String,
    pub definition_file: String,
    pub definition_span: Span,
}

/// The span of `sym` holds the byte offset `off` (both ends included).
pub open spec fn covers(sym: SymbolOccurrence, off: int) -> bool {
    sym.span.start <= off <= sym.span.end
}

/// The first symbol at or after index `i` whose span holds the byte offset `off`.
pub open spec fn first_covering(symbols: Seq<SymbolOccurrence>, off: int, i: int) -> Option<int>
    decreases symbols.len() - i,
{
    if i < 0 || i >= symbols.len() {
        None
    } else if covers(symbols[i], off) {
        Some(i)
    } else {
        first_covering(symbols, off, i + 1)
    }
}

/// The symbol under the byte offset of `position`: the first whose span holds it.
pub open spec fn symbol_at(symbols: Seq<SymbolOccurrence>, text: Seq<char>, position: Position) -> Option<int> {
    match byte_offset_at(text, position) {
        Some(off) => first_covering(symbols, off, 0),
        None => None,
    }
}

proof fn lemma_first_covering_bounds(symbols: Seq<SymbolOccurrence>, off: int, k: int, i: int)
    requires
        0 <= k,
        first_covering(symbols, off, k) == Some(i),
    ensures
        k <= i < symbols.len(),
    decreases symbols.len() - k,
{
    if k < symbols.len() && !covers(symbols[k], off) {
        lemma_first_covering_bounds(symbols, off, k + 1, i);
    }
}

/// The symbol at a position, if any.
pub fn find_symbol<'a>(symbols: &'a Vec<SymbolOccurrence>, text: &str, position: &Position) -> (r: Option<&'a SymbolOccurrence>)
    ensures
        match r {
            Some(sym) => exists|i: int| symbol_at(symbols@, text@, *position) == Some(i) && *sym == #[trigger] symbols@[i],
            None => symbol_at(symbols@, text@, *position) is None,
        },
{
    let offset = match offset_at_position(text, position) {
        Some(o) => o,
        None => return None,
    };
    let mut i: usize = 0;
    while i < symbols.len()
        invariant
            i <= symbols@.len(),
            byte_offset_at(text@, *position) == Some(offset as int),
            first_covering(symbols@, offset as int, i as int) == first_covering(symbols@, offset as int, 0),
        decreases symbols@.len() - i,
    {
        let sym = &symbols[i];
        if sym.span.start <= offset && offset <= sym.span.end {
            assert(*sym == symbols@[i as int]);
            return Some(sym);
        }
        i += 1;
    }
    None
}

/// The LSP range of a byte span.
pub fn span_to_range(text: &str, span: Span) -> (r: Range)
    requires
        offset_ok(text@, span.start as int),
        offset_ok(text@, span.end as int),
    ensures
        r.start == position_of(text@, index_of_offset(text@, span.start as int)),
        r.end == position_of(text@, index_of_offset(text@, span.end as int)),
{
    Range { start: position_at_offset(text, span.start), end: position_at_offset(text, span.end) }
}

/// The empty range at the start of a document.
pub fn zero_range() -> (r: Range)
    ensures
        r == (Range { start: Position { line: 0, character: 0 }, end: Position { line: 0, character: 0 } }),
{
    Range { start: Position { line: 0, character: 0 }, end: Position { line: 0, character: 0 } }
}


// ---------------------------------------------------------------------------
// Messages.
// ---------------------------------------------------------------------------

/// The string JSON value of `s`.
fn jstr(s: &str) -> (j: Json)
    ensures
        j@ == JsonV::Str(s@),
{
    Json::Str(String::from_str(s))
}

proof fn lemma_view_fields_push(s: Seq<(String, Json)>, x: (String, Json))
    ensures
        Json::view_fields(s.push(x)) == Json::view_fields(s).push((x.0@, x.1@)),
{
    assert(s.push(x).drop_last() =~= s);
}

/// Appends a named value to the fields of an object under construction.
fn push_field(fields: &mut Vec<(String, Json)>, key: &str, value: Json)
    ensures
        Json::view_fields(final(fields)@) == Json::view_fields(old(fields)@).push((key@, value@)),
{
    let ghost before = fields@;
    let ghost v = value@;
    let k = String::from_str(key);
    let ghost pair = (k, value);
    fields.push((k, value));
    proof {
        lemma_view_fields_push(before, pair);
    }
}

fn obj2(k1: &str, v1: Json, k2: &str, v2: Json) -> (j: Json)
    ensures
        j@ == JsonV::Object(seq![(k1@, v1@), (k2@, v2@)]),
{
    let ghost w1 = v1@;
    let ghost w2 = v2@;
    let mut f: Vec<(String, Json)> = Vec::new();
    assert(Json::view_fields(f@) =~= Seq::empty());
    push_field(&mut f, k1, v1);
    push_field(&mut f, k2, v2);
    assert(Json::view_fields(f@) =~= seq![(k1@, w1), (k2@, w2)]);
    Json::Object(f)
}

fn obj3(k1: &str, v1: Json, k2: &str, v2: Json, k3: &str, v3: Json) -> (j: Json)
    ensures
        j@ == JsonV::Object(seq![(k1@, v1@), (k2@, v2@), (k3@, v3@)]),
{
    let ghost w1 = v1@;
    let ghost w2 = v2@;
    let ghost w3 = v3@;
    let mut f: Vec<(String, Json)> = Vec::new();
    assert(Json::view_fields(f@) =~= Seq::empty());
    push_field(&mut f, k1, v1);
    push_field(&mut f, k2, v2);
    push_field(&mut f, k3, v3);
    assert(Json::view_fields(f@) =~= seq![(k1@, w1), (k2@, w2), (k3@, w3)]);
    Json::Object(f)
}

fn obj4(k1: &str, v1: Json, k2: &str, v2: Json, k3: &str, v3: Json, k4: &str, v4: Json) -> (j: Json)
    ensures
        j@ == JsonV::Object(seq![(k1@, v1@), (k2@, v2@), (k3@, v3@), (k4@, v4@)]),
{
    let ghost w1 = v1@;
    let ghost w2 = v2@;
    let ghost w3 = v3@;
    let ghost w4 = v4@;
    let mut f: Vec<(String, Json)> = Vec::new();
    assert(Json::view_fields(f@) =~= Seq::empty());
    push_field(&mut f, k1, v1);
    push_field(&mut f, k2, v2);
    push_field(&mut f, k3, v3);
    push_field(&mut f, k4, v4);
    assert(Json::view_fields(f@) =~= seq![(k1@, w1), (k2@, w2), (k3@, w3), (k4@, w4)]);
    Json::Object(f)
}

/// The JSON value of an optional id received from the client (`null` without one).
pub open spec fn id_v(id: Option<serde_json::Value>) -> JsonV {
    match id {
        Some(v) => JsonV::Received(v),
        None => JsonV::Null,
    }
}

/// A JSON-RPC reply.
pub open spec fn response_v(id: Option<serde_json::Value>, result: JsonV) -> JsonV {
    JsonV::Object(seq![("jsonrpc"@, JsonV::Str("2.0"@)), ("id"@, id_v(id)), ("result"@, result)])
}

/// The reply with `result` to the request with id `id`.
pub fn response(id: Option<serde_json::Value>, result: Json) -> (j: Json)
    ensures
        j@ == response_v(id, result@),
{
    let idj = match id {
        Some(v) => Json::Received(v),
        None => Json::Null,
    };
    obj3("jsonrpc", jstr("2.0"), "id", idj, "result", result)
}

/// The JSON form of a position.
pub open spec fn position_v(p: Position) -> JsonV {
    JsonV::Object(seq![("line"@, JsonV::Num(p.line as int)), ("character"@, JsonV::Num(p.character as int))])
}

/// The JSON form of a range.
pub open spec fn range_v(r: Range) -> JsonV {
    JsonV::Object(seq![("start"@, position_v(r.start)), ("end"@, position_v(r.end))])
}

fn position_json(p: Position) -> (j: Json)
    ensures
        j@ == position_v(p),
{
    obj2("line", Json::UInt(p.line), "character", Json::UInt(p.character))
}

/// The JSON form of a range.
pub fn range_json(r: Range) -> (j: Json)
    ensures
        j@ == range_v(r),
{
    obj2("start", position_json(r.start), "end", position_json(r.end))
}

/// What the server offers, in its reply to `initialize`.
pub open spec fn capabilities_v() -> JsonV {
    JsonV::Object(
        seq![
            ("capabilities"@, JsonV::Object(
                seq![
                    ("textDocumentSync"@, JsonV::Object(
                        seq![("openClose"@, JsonV::Bool(true)), ("change"@, JsonV::Num(2))],
                    )),
                    ("hoverProvider"@, JsonV::Bool(true)),
                    ("definitionProvider"@, JsonV::Bool(true)),
                ],
            )),
            ("serverInfo"@, JsonV::Object(seq![("name"@, JsonV::Str("swc-lsp"@)), ("version"@, JsonV::Str("0.1.2"@))])),
        ],
    )
}

/// The result of `initialize`: incremental sync, hover and go-to-definition.
pub fn capabilities() -> (j: Json)
    ensures
        j@ == capabilities_v(),
{
    let sync = obj2("openClose", Json::Bool(true), "change", Json::UInt(2));
    let caps = obj3("textDocumentSync", sync, "hoverProvider", Json::Bool(true), "definitionProvider", Json::Bool(true));
    let info = obj2("name", jstr("swc-lsp"), "version", jstr("0.1.2"));
    obj2("capabilities", caps, "serverInfo", info)
}


/// The message that tells the client a closed document has no diagnostics left.
pub open spec fn closed_v(uri: Seq<char>) -> JsonV {
    JsonV::Object(
        seq![
            ("jsonrpc"@, JsonV::Str("2.0"@)),
            ("method"@, JsonV::Str("textDocument/publishDiagnostics"@)),
            ("params"@, JsonV::Object(seq![("uri"@, JsonV::Str(uri)), ("diagnostics"@, JsonV::Array(seq![]))])),
        ],
    )
}

/// The message for a closed document.
fn closed_message(uri: &str) -> (j: Json)
    ensures
        j@ == closed_v(uri@),
{
    let empty = Json::Array(Vec::new());
    assert(empty@ == JsonV::Array(seq![])) by {
        assert(Json::view_items(Seq::<Json>::empty()) =~= Seq::<JsonV>::empty());
    }
    let params = obj2("uri", jstr(uri), "diagnostics", empty);
    obj3("jsonrpc", jstr("2.0"), "method", jstr("textDocument/publishDiagnostics"), "params", params)
}

proof fn lemma_view_items_push(s: Seq<Json>, x: Json)
    ensures
        Json::view_items(s.push(x)) == Json::view_items(s).push(x@),
{
    assert(s.push(x).drop_last() =~= s);
}

// ---------------------------------------------------------------------------
// The server.
// ---------------------------------------------------------------------------

/// An open document: its text and the version the client gave it.
pub struct Document {
    pub text: String,
    pub version: i64,
}

/// The `textDocument` part of a request's parameters (`version` is 0 and `text` empty
/// where the client left them out).
pub struct TextDocument {
    pub uri: String,
    pub version: i64,
    pub text: String,
}

/// One edit of `textDocument/didChange`: a range and its new text, or the whole text.
pub struct ContentChange {
    pub range: Option<Range>,
    pub text: String,
}

/// The parts of a request's `params` that the server reads, each present when the
/// client sent it well-formed.
pub struct Params {
    pub text_document: Option<TextDocument>,
    pub content_changes: Option<Vec<ContentChange>>,
    pub position: Option<Position>,
}

/// A JSON-RPC message from the client.
pub struct Request {
    pub id: Option<serde_json::Value>,
    pub method: String,
    pub params: Params,
}

/// What the server asks its host to do after a message.
pub enum Action {
    /// Send this message.
    Send(Json),
    /// Analyse the open document with this URI and send what `publish` makes of it.
    Publish(String),
    /// Analyse the open document and answer the hover request with this id with
    /// `response` of what `hover` makes of it.
    Hover(serde_json::Value, String, Position),
    /// Analyse the open document and answer the definition request with this id (see
    /// `definition_target` and `definition_location`).
    Definition(serde_json::Value, String, Position),
}

/// The mathematical form of an action.
pub enum ActionV {
    Send(JsonV),
    Publish(Seq<char>),
    Hover(serde_json::Value, Seq<char>, Position),
    Definition(serde_json::Value, Seq<char>, Position),
}

impl Action {
    pub open spec fn view(self) -> ActionV {
        match self {
            Action::Send(j) => ActionV::Send(j@),
            Action::Publish(u) => ActionV::Publish(u@),
            Action::Hover(id, u, p) => ActionV::Hover(id, u@, p),
            Action::Definition(id, u, p) => ActionV::Definition(id, u@, p),
        }
    }
}

/// The views of a sequence of actions.
pub open spec fn actions_view(a: Seq<Action>) -> Seq<ActionV> {
    Seq::new(a.len(), |i: int| a[i]@)
}

/// The text after the edits `changes`, applied in order: an edit with a range replaces
/// that range, one without replaces the whole text.
pub open spec fn after_changes(text: Seq<char>, changes: Seq<ContentChange>) -> Seq<char>
    decreases changes.len(),
{
    if changes.len() == 0 {
        text
    } else {
        let before = after_changes(text, changes.drop_last());
        let c = changes.last();
        match c.range {
            Some(r) => changed_text(before, r, c.text@),
            None => c.text@,
        }
    }
}

/// The open documents (URI to text and version) after the request `req`.
pub open spec fn docs_after(docs: Map<Seq<char>, (Seq<char>, i64)>, req: Request) -> Map<Seq<char>, (Seq<char>, i64)> {
    let m = req.method@;
    let p = req.params;
    if m == "textDocument/didOpen"@ {
        match p.text_document {
            Some(d) => docs.insert(d.uri@, (d.text@, d.version)),
            None => docs,
        }
    } else if m == "textDocument/didChange"@ {
        match (p.text_document, p.content_changes) {
            (Some(d), Some(cs)) => {
                let base = if docs.dom().contains(d.uri@) {
                    docs[d.uri@].0
                } else {
                    Seq::empty()
                };
                docs.insert(d.uri@, (after_changes(base, cs@), d.version))
            },
            _ => docs,
        }
    } else if m == "textDocument/didClose"@ {
        match p.text_document {
            Some(d) => docs.remove(d.uri@),
            None => docs,
        }
    } else {
        docs
    }
}

/// A `null` reply to a request that has an id; nothing for a notification.
pub open spec fn null_reply_v(id: Option<serde_json::Value>) -> Seq<ActionV> {
    match id {
        Some(v) => seq![ActionV::Send(response_v(Some(v), JsonV::Null))],
        None => seq![],
    }
}

/// What the server asks for after the request `req`, with `docs` the documents open
/// before it.
pub open spec fn actions_for(docs: Map<Seq<char>, (Seq<char>, i64)>, req: Request) -> Seq<ActionV> {
    let m = req.method@;
    let p = req.params;
    if m == "initialize"@ {
        seq![ActionV::Send(response_v(req.id, capabilities_v()))]
    } else if m == "shutdown"@ {
        null_reply_v(req.id)
    } else if m == "textDocument/didOpen"@ {
        match p.text_document {
            Some(d) => seq![ActionV::Publish(d.uri@)],
            None => seq![],
        }
    } else if m == "textDocument/didChange"@ {
        match (p.text_document, p.content_changes) {
            (Some(d), Some(cs)) => seq![ActionV::Publish(d.uri@)],
            _ => seq![],
        }
    } else if m == "textDocument/didClose"@ {
        match p.text_document {
            Some(d) => seq![ActionV::Send(closed_v(d.uri@))],
            None => seq![],
        }
    } else if m == "textDocument/hover"@ || m == "textDocument/definition"@ {
        match req.id {
            Some(v) => match (p.text_document, p.position) {
                (Some(d), Some(pos)) => if docs.dom().contains(d.uri@) {
                    if m == "textDocument/hover"@ {
                        seq![ActionV::Hover(v, d.uri@, pos)]
                    } else {
                        seq![ActionV::Definition(v, d.uri@, pos)]
                    }
                } else {
                    seq![ActionV::Send(response_v(Some(v), JsonV::Null))]
                },
                _ => seq![ActionV::Send(response_v(Some(v), JsonV::Null))],
            },
            None => seq![],
        }
    } else {
        null_reply_v(req.id)
    }
}

/// The language server: the open documents by URI.
pub struct LspServer {
    documents: Table<Document>,
}

impl LspServer {
    /// The open documents: URI to text and version.
    pub closed spec fn docs(&self) -> Map<Seq<char>, (Seq<char>, i64)> {
        Map::new(
            |k: Seq<char>| self.documents@.dom().contains(k),
            |k: Seq<char>| (self.documents@[k].text@, self.documents@[k].version),
        )
    }

    /// A server with no open document.
    pub fn new() -> (s: Self)
        ensures
            s.docs() == Map::<Seq<char>, (Seq<char>, i64)>::empty(),
    {
        let s = LspServer { documents: Table::new() };
        assert(s.docs() =~= Map::<Seq<char>, (Seq<char>, i64)>::empty());
        s
    }

    /// An open document.
    pub fn document(&self, uri: &str) -> (r: Option<&Document>)
        ensures
            r matches Some(d) ==> self.docs().dom().contains(uri@) && self.docs()[uri@] == (d.text@, d.version),
            r is None ==> !self.docs().dom().contains(uri@),
    {
        self.documents.get(uri)
    }

    fn set_document(&mut self, uri: String, document: Document)
        ensures
            final(self).docs() == old(self).docs().insert(uri@, (document.text@, document.version)),
    {
        let ghost u = uri@;
        let ghost d = (document.text@, document.version);
        self.documents.insert(uri, document);
        assert(self.docs() =~= old(self).docs().insert(u, d));
    }

    fn drop_document(&mut self, uri: &str)
        ensures
            final(self).docs() == old(self).docs().remove(uri@),
    {
        self.documents.remove(uri);
        assert(self.docs() =~= old(self).docs().remove(uri@));
    }

    /// Applies the edits of `textDocument/didChange` to the document `uri` (an empty one
    /// if it is not open) and records its new version.
    fn change_document(&mut self, uri: String, version: i64, changes: &Vec<ContentChange>)
        ensures
            final(self).docs() == old(self).docs().insert(
                uri@,
                (
                    after_changes(
                        if old(self).docs().dom().contains(uri@) {
                            old(self).docs()[uri@].0
                        } else {
                            Seq::empty()
                        },
                        changes@,
                    ),
                    version,
                ),
            ),
    {
        let mut text = match self.documents.get(uri.as_str()) {
            Some(d) => d.text.clone(),
            None => String::new(),
        };
        let ghost base = text@;
        let mut i: usize = 0;
        while i < changes.len()
            invariant
                i <= changes@.len(),
                text@ == after_changes(base, changes@.take(i as int)),
            decreases changes@.len() - i,
        {
            let change = &changes[i];
            match change.range {
                Some(range) => apply_change(&mut text, &range, change.text.as_str()),
                None => {
                    text = change.text.clone();
                },
            }
            proof {
                assert(changes@.take(i + 1).drop_last() =~= changes@.take(i as int));
            }
            i += 1;
        }
        assert(changes@.take(changes@.len() as int) =~= changes@);
        self.set_document(uri, Document { text, version });
    }

    /// Handles one message: updates the open documents and says what to do next.
    pub fn handle(&mut self, request: Request) -> (r: Vec<Action>)
        ensures
            final(self).docs() == docs_after(old(self).docs(), request),
            actions_view(r@) == actions_for(old(self).docs(), request),
    {
        let ghost req = request;
        proof {
            reveal_strlit("initialize");
            reveal_strlit("shutdown");
            reveal_strlit("textDocument/didOpen");
            reveal_strlit("textDocument/didChange");
            reveal_strlit("textDocument/didClose");
            reveal_strlit("textDocument/hover");
            reveal_strlit("textDocument/definition");
            assert("initialize"@.len() == 10);
            assert("shutdown"@.len() == 8);
            assert("textDocument/didOpen"@.len() == 20);
            assert("textDocument/didChange"@.len() == 22);
            assert("textDocument/didClose"@.len() == 21);
            assert("textDocument/hover"@.len() == 18);
            assert("textDocument/definition"@.len() == 23);
        }
        let Request { id, method, params } = request;
        let Params { text_document, content_changes, position } = params;
        let mut out: Vec<Action> = Vec::new();
        if same_text(method.as_str(), "initialize") {
            out.push(Action::Send(response(id, capabilities())));
        } else if same_text(method.as_str(), "shutdown") {
            if let Some(v) = id {
                out.push(Action::Send(response(Some(v), Json::Null)));
            }
        } else if same_text(method.as_str(), "textDocument/didOpen") {
            if let Some(d) = text_document {
                let TextDocument { uri, version, text } = d;
                let key = uri.clone();
                self.set_document(key, Document { text, version });
                out.push(Action::Publish(uri));
            }
        } else if same_text(method.as_str(), "textDocument/didChange") {
            match (text_document, content_changes) {
                (Some(d), Some(cs)) => {
                    let uri = d.uri;
                    let key = uri.clone();
                    self.change_document(key, d.version, &cs);
                    out.push(Action::Publish(uri));
                },
                _ => {},
            }
        } else if same_text(method.as_str(), "textDocument/didClose") {
            if let Some(d) = text_document {
                self.drop_document(d.uri.as_str());
                out.push(Action::Send(closed_message(d.uri.as_str())));
            }
        } else if same_text(method.as_str(), "textDocument/hover") || same_text(
            method.as_str(),
            "textDocument/definition",
        ) {
            if let Some(v) = id {
                match (text_document, position) {
                    (Some(d), Some(pos)) => {
                        let open = match self.documents.get(d.uri.as_str()) {
                            Some(_) => true,
                            None => false,
                        };
                        if open {
                            if same_text(method.as_str(), "textDocument/hover") {
                                out.push(Action::Hover(v, d.uri, pos));
                            } else {
                                out.push(Action::Definition(v, d.uri, pos));
                            }
                        } else {
                            out.push(Action::Send(response(Some(v), Json::Null)));
                        }
                    },
                    _ => {
                        out.push(Action::Send(response(Some(v), Json::Null)));
                    },
                }
            }
        } else {
            if let Some(v) = id {
                out.push(Action::Send(response(Some(v), Json::Null)));
            }
        }
        assert(actions_view(out@) =~= actions_for(old(self).docs(), req));
        out
    }
}


/// One diagnostic of the analysis of a document.
pub struct DiagnosticItem {
    /// The diagnostic concerns the analysed document itself (not a file it imports).
    pub in_document: bool,
    pub span: Option<Span>,
    pub error: bool,
    pub message: String,
}

/// The LSP range of a byte span of `text`.
pub open spec fn span_range(text: Seq<char>, span: Span) -> Range {
    Range {
        start: position_of(text, index_of_offset(text, span.start as int)),
        end: position_of(text, index_of_offset(text, span.end as int)),
    }
}

/// Both ends of a span fall on character boundaries of `text`.
pub open spec fn span_ok(text: Seq<char>, span: Span) -> bool {
    offset_ok(text, span.start as int) && offset_ok(text, span.end as int)
}

/// The spans of the diagnostics about the document fall on character boundaries.
pub open spec fn diagnostics_ok(text: Seq<char>, items: Seq<DiagnosticItem>) -> bool {
    forall|i: int|
        0 <= i < items.len() && (#[trigger] items[i]).in_document && items[i].span is Some ==> span_ok(
            text,
            items[i].span->0,
        )
}

/// The LSP form of one diagnostic: errors have severity 1, the rest 2; a diagnostic
/// without a span covers the start of the document.
pub open spec fn diagnostic_v(text: Seq<char>, item: DiagnosticItem) -> JsonV {
    JsonV::Object(
        seq![
            ("range"@, match item.span {
                Some(sp) => range_v(span_range(text, sp)),
                None => range_v(Range { start: Position { line: 0, character: 0 }, end: Position { line: 0, character: 0 } }),
            }),
            ("severity"@, JsonV::Num(if item.error { 1 } else { 2 })),
            ("source"@, JsonV::Str("swc"@)),
            ("message"@, JsonV::Str(item.message@)),
        ],
    )
}

/// The LSP diagnostics of a document: those about the document itself, in order.
pub open spec fn diagnostics_v(text: Seq<char>, items: Seq<DiagnosticItem>) -> Seq<JsonV>
    decreases items.len(),
{
    if items.len() == 0 {
        Seq::empty()
    } else {
        let before = diagnostics_v(text, items.drop_last());
        if items.last().in_document {
            before.push(diagnostic_v(text, items.last()))
        } else {
            before
        }
    }
}

/// The `textDocument/publishDiagnostics` message of a document.
pub open spec fn publish_v(uri: Seq<char>, version: i64, diagnostics: Seq<JsonV>) -> JsonV {
    JsonV::Object(
        seq![
            ("jsonrpc"@, JsonV::Str("2.0"@)),
            ("method"@, JsonV::Str("textDocument/publishDiagnostics"@)),
            ("params"@, JsonV::Object(
                seq![
                    ("uri"@, JsonV::Str(uri)),
                    ("version"@, JsonV::Num(version as int)),
                    ("diagnostics"@, JsonV::Array(diagnostics)),
                ],
            )),
        ],
    )
}

/// The hover result for a symbol: its detail as an `sw` code block, and its range.
pub open spec fn hover_v(text: Seq<char>, symbol: SymbolOccurrence) -> JsonV {
    JsonV::Object(
        seq![
            ("contents"@, JsonV::Object(
                seq![
                    ("kind"@, JsonV::Str("markdown"@)),
                    ("value"@, JsonV::Str("```sw\n"@ + symbol.detail@ + "\n```"@)),
                ],
            )),
            ("range"@, range_v(span_range(text, symbol.span))),
        ],
    )
}

/// The spans of all symbols fall on character boundaries of `text`.
pub open spec fn symbols_ok(text: Seq<char>, symbols: Seq<SymbolOccurrence>) -> bool {
    forall|i: int| 0 <= i < symbols.len() ==> span_ok(text, (#[trigger] symbols[i]).span)
}

/// The location of a symbol's declaration, `text` being the text of the file that
/// declares it.
pub open spec fn location_v(symbol: SymbolOccurrence, text: Seq<char>, windows: bool) -> JsonV {
    JsonV::Object(
        seq![
            ("uri"@, JsonV::Str(uri_of_path(symbol.definition_file@, windows))),
            ("range"@, range_v(span_range(text, symbol.definition_span))),
        ],
    )
}

/// The JSON form of one diagnostic.
fn diagnostic_json(text: &str, item: &DiagnosticItem) -> (j: Json)
    requires
        item.span matches Some(sp) ==> span_ok(text@, sp),
    ensures
        j@ == diagnostic_v(text@, *item),
{
    let range = match item.span {
        Some(sp) => span_to_range(text, sp),
        None => zero_range(),
    };
    let severity: u64 = if item.error {
        1
    } else {
        2
    };
    let rj = range_json(range);
    let ghost rv = rj@;
    assert(rv == diagnostic_v(text@, *item)->Object_0[0].1);
    let j = obj4(
        "range",
        rj,
        "severity",
        Json::UInt(severity),
        "source",
        jstr("swc"),
        "message",
        Json::Str(item.message.clone()),
    );
    let ghost dv = diagnostic_v(text@, *item)->Object_0;
    assert(j@->Object_0 =~= dv);
    j
}

/// Whether both ends of every span of the diagnostics about the document fall on
/// character boundaries of `text`.
pub fn diagnostics_on_boundaries(text: &str, items: &Vec<DiagnosticItem>) -> (r: bool)
    ensures
        r == diagnostics_ok(text@, items@),
{
    let mut i: usize = 0;
    while i < items.len()
        invariant
            i <= items@.len(),
            forall|j: int|
                0 <= j < i && (#[trigger] items@[j]).in_document && items@[j].span is Some ==> span_ok(
                    text@,
                    items@[j].span->0,
                ),
        decreases items@.len() - i,
    {
        let item = &items[i];
        if item.in_document {
            if let Some(sp) = item.span {
                if !offset_on_boundary(text, sp.start) || !offset_on_boundary(text, sp.end) {
                    return false;
                }
            }
        }
        i += 1;
    }
    true
}

/// Whether both ends of every symbol's span fall on character boundaries of `text`.
pub fn symbols_on_boundaries(text: &str, symbols: &Vec<SymbolOccurrence>) -> (r: bool)
    ensures
        r == symbols_ok(text@, symbols@),
{
    let mut i: usize = 0;
    while i < symbols.len()
        invariant
            i <= symbols@.len(),
            forall|j: int| 0 <= j < i ==> span_ok(text@, (#[trigger] symbols@[j]).span),
        decreases symbols@.len() - i,
    {
        let sp = symbols[i].span;
        if !offset_on_boundary(text, sp.start) || !offset_on_boundary(text, sp.end) {
            return false;
        }
        i += 1;
    }
    true
}

impl LspServer {
    /// The diagnostics message for the open document `uri`, from the diagnostics that
    /// its analysis reported; `null` if the document is not open.
    pub fn publish(&self, uri: &str, items: &Vec<DiagnosticItem>) -> (j: Json)
        requires
            self.docs().dom().contains(uri@) ==> diagnostics_ok(self.docs()[uri@].0, items@),
        ensures
            j@ == (if self.docs().dom().contains(uri@) {
                publish_v(uri@, self.docs()[uri@].1, diagnostics_v(self.docs()[uri@].0, items@))
            } else {
                JsonV::Null
            }),
    {
        let document = match self.document(uri) {
            Some(d) => d,
            None => return Json::Null,
        };
        let text = document.text.as_str();
        let mut list: Vec<Json> = Vec::new();
        let mut i: usize = 0;
        while i < items.len()
            invariant
                i <= items@.len(),
                diagnostics_ok(text@, items@),
                Json::view_items(list@) == diagnostics_v(text@, items@.take(i as int)),
            decreases items@.len() - i,
        {
            proof {
                assert(items@.take(i + 1).drop_last() =~= items@.take(i as int));
            }
            let item = &items[i];
            if item.in_document {
                let d = diagnostic_json(text, item);
                proof {
                    lemma_view_items_push(list@, d);
                }
                list.push(d);
            }
            i += 1;
        }
        assert(items@.take(items@.len() as int) =~= items@);
        let params = obj3(
            "uri",
            jstr(uri),
            "version",
            Json::Int(document.version),
            "diagnostics",
            Json::Array(list),
        );
        obj3("jsonrpc", jstr("2.0"), "method", jstr("textDocument/publishDiagnostics"), "params", params)
    }

    /// The hover result at `position` of the open document `uri`, from the symbols that
    /// its analysis found: `null` when the document is not open or no symbol lies there.
    pub fn hover(&self, uri: &str, position: &Position, symbols: &Vec<SymbolOccurrence>) -> (j: Json)
        requires
            self.docs().dom().contains(uri@) ==> symbols_ok(self.docs()[uri@].0, symbols@),
        ensures
            j@ == (if self.docs().dom().contains(uri@) {
                match symbol_at(symbols@, self.docs()[uri@].0, *position) {
                    Some(i) => hover_v(self.docs()[uri@].0, symbols@[i]),
                    None => JsonV::Null,
                }
            } else {
                JsonV::Null
            }),
    {
        let document = match self.document(uri) {
            Some(d) => d,
            None => return Json::Null,
        };
        let text = document.text.as_str();
        match find_symbol(symbols, text, position) {
            Some(symbol) => {
                proof {
                    let i = choose|i: int| symbol_at(symbols@, text@, *position) == Some(i) && *symbol == #[trigger] symbols@[i];
                    lemma_first_covering_bounds(symbols@, byte_offset_at(text@, *position)->0, 0, i);
                    assert(span_ok(text@, symbols@[i].span));
                }
                let mut value: Vec<char> = Vec::new();
                push_str(&mut value, "```sw\n");
                push_str(&mut value, symbol.detail.as_str());
                push_str(&mut value, "\n```");
                let contents = obj2("kind", jstr("markdown"), "value", Json::Str(string_from_chars(&value)));
                obj2("contents", contents, "range", range_json(span_to_range(text, symbol.span)))
            },
            None => Json::Null,
        }
    }

    /// The symbol whose declaration a definition request at `position` of the open
    /// document `uri` asks for; `None` when the document is not open or no symbol lies
    /// there.
    pub fn definition_target<'a>(&self, uri: &str, position: &Position, symbols: &'a Vec<SymbolOccurrence>) -> (r:
        Option<&'a SymbolOccurrence>)
        ensures
            match r {
                Some(sym) => self.docs().dom().contains(uri@) && exists|i: int|
                    symbol_at(symbols@, self.docs()[uri@].0, *position) == Some(i) && *sym == #[trigger] symbols@[i],
                None => !self.docs().dom().contains(uri@) || symbol_at(symbols@, self.docs()[uri@].0, *position) is None,
            },
    {
        match self.document(uri) {
            Some(d) => find_symbol(symbols, d.text.as_str(), position),
            None => None,
        }
    }
}

/// The location of a symbol's declaration, given the text of the file that declares
/// it (`windows`: the host is Windows).
pub fn definition_location(symbol: &SymbolOccurrence, text: &str, windows: bool) -> (j: Json)
    requires
        span_ok(text@, symbol.definition_span),
    ensures
        j@ == location_v(*symbol, text@, windows),
{
    let uri = path_to_uri(symbol.definition_file.as_str(), windows);
    obj2("uri", Json::Str(uri), "range", range_json(span_to_range(text, symbol.definition_span)))
}


// ---------------------------------------------------------------------------
// Laws of the document store.
// ---------------------------------------------------------------------------

/// Opening a document makes its text and version what the server then holds for its
/// URI.
pub proof fn lemma_open_then_read(docs: Map<Seq<char>, (Seq<char>, i64)>, req: Request)
    requires
        req.method@ == "textDocument/didOpen"@,
        req.params.text_document is Some,
    ensures
        ({
            let d = req.params.text_document->0;
            &&& docs_after(docs, req).dom().contains(d.uri@)
            &&& docs_after(docs, req)[d.uri@] == (d.text@, d.version)
        }),
{
}

/// Closing a document forgets it, and tells the client it has no diagnostics left.
pub proof fn lemma_close_forgets(docs: Map<Seq<char>, (Seq<char>, i64)>, req: Request)
    requires
        req.method@ == "textDocument/didClose"@,
        req.params.text_document is Some,
    ensures
        !docs_after(docs, req).dom().contains(req.params.text_document->0.uri@),
        actions_for(docs, req) == seq![ActionV::Send(closed_v(req.params.text_document->0.uri@))],
{
    proof_literals();
}

/// An edit without a range replaces the whole text: after a change whose last edit
/// has no range, the document holds that edit's text, whatever it held before.
pub proof fn lemma_full_change_replaces(docs: Map<Seq<char>, (Seq<char>, i64)>, req: Request)
    requires
        req.method@ == "textDocument/didChange"@,
        req.params.text_document is Some,
        req.params.content_changes is Some,
        req.params.content_changes->0@.len() > 0,
        req.params.content_changes->0@.last().range is None,
    ensures
        ({
            let d = req.params.text_document->0;
            docs_after(docs, req)[d.uri@] == (req.params.content_changes->0@.last().text@, d.version)
        }),
{
    proof_literals();
}

/// Messages about one document leave every other open document as it was.
pub proof fn lemma_other_documents_kept(docs: Map<Seq<char>, (Seq<char>, i64)>, req: Request, uri: Seq<char>)
    requires
        req.params.text_document is Some ==> req.params.text_document->0.uri@ != uri,
    ensures
        docs_after(docs, req).dom().contains(uri) == docs.dom().contains(uri),
        docs.dom().contains(uri) ==> docs_after(docs, req)[uri] == docs[uri],
{
}

/// Requests that do not open, change or close a document leave the documents as
/// they were.
pub proof fn lemma_queries_keep_documents(docs: Map<Seq<char>, (Seq<char>, i64)>, req: Request)
    requires
        req.method@ != "textDocument/didOpen"@,
        req.method@ != "textDocument/didChange"@,
        req.method@ != "textDocument/didClose"@,
    ensures
        docs_after(docs, req) == docs,
{
}

/// The method names differ.
proof fn proof_literals()
    ensures
        "textDocument/didOpen"@ != "textDocument/didChange"@,
        "textDocument/didOpen"@ != "textDocument/didClose"@,
        "textDocument/didChange"@ != "textDocument/didClose"@,
        "initialize"@ != "textDocument/didClose"@,
        "shutdown"@ != "textDocument/didClose"@,
{
    reveal_strlit("textDocument/didOpen");
    reveal_strlit("textDocument/didChange");
    reveal_strlit("textDocument/didClose");
    reveal_strlit("initialize");
    reveal_strlit("shutdown");
    assert("textDocument/didOpen"@.len() == 20);
    assert("textDocument/didChange"@.len() == 22);
    assert("textDocument/didClose"@.len() == 21);
    assert("initialize"@.len() == 10);
    assert("shutdown"@.len() == 8);
}

} // verus!
