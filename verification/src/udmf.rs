//! UDMF text maps: comment stripping, named `{ ... }` blocks of
//! `key = value;` statements, and the map assembled from them.
//!
//! The text is read as its UTF-8 bytes. Trimming follows `str::trim`
//! (Unicode white space); block scanning follows `u8::is_ascii_whitespace`.
//! Fractional fields (coordinates, heights, angles) are handed back as the
//! value text, for the caller to read as numbers.

use vstd::prelude::*;
use vstd::utf8::encode_utf8;
use crate::wad::{LineDef, SideDef, SideDefModel, WadError, bytes_eq, lower_byte, upper, upper_byte};

verus! {

// ---------------------------------------------------------------------------
// Text helpers
// ---------------------------------------------------------------------------

/// The three-byte UTF-8 encodings of white-space characters: U+1680,
/// U+2000..=U+200A, U+2028, U+2029, U+202F, U+205F and U+3000.
pub open spec fn is_ws3(a: u8, b: u8, c: u8) -> bool {
    ||| (a == 0xE1 && b == 0x9A && c == 0x80)
    ||| (a == 0xE2 && b == 0x80 && ((0x80 <= c <= 0x8A) || c == 0xA8 || c == 0xA9 || c == 0xAF))
    ||| (a == 0xE2 && b == 0x81 && c == 0x9F)
    ||| (a == 0xE3 && b == 0x80 && c == 0x80)
}

/// The byte length of the white-space character that starts at `i`, or 0:
/// U+0009..=U+000D and U+0020 take one byte, U+0085 and U+00A0 two.
pub open spec fn ws_len_at(s: Seq<u8>, i: int) -> nat {
    if 0 <= i < s.len() && (s[i] == 32 || (9 <= s[i] <= 13)) {
        1
    } else if 0 <= i && i + 1 < s.len() && s[i] == 0xC2 && (s[i + 1] == 0x85 || s[i + 1] == 0xA0) {
        2
    } else if 0 <= i && i + 2 < s.len() && is_ws3(s[i], s[i + 1], s[i + 2]) {
        3
    } else {
        0
    }
}

/// The byte length of the white-space character that ends at `j`, or 0.
pub open spec fn ws_len_before(s: Seq<u8>, j: int) -> nat {
    if 1 <= j <= s.len() && (s[j - 1] == 32 || (9 <= s[j - 1] <= 13)) {
        1
    } else if 2 <= j <= s.len() && s[j - 2] == 0xC2 && (s[j - 1] == 0x85 || s[j - 1] == 0xA0) {
        2
    } else if 3 <= j <= s.len() && is_ws3(s[j - 3], s[j - 2], s[j - 1]) {
        3
    } else {
        0
    }
}

/// The first position at or after `i` where no white-space character starts.
pub open spec fn skip_uws(s: Seq<u8>, i: nat) -> nat
    decreases s.len() - i,
{
    if i < s.len() && ws_len_at(s, i as int) > 0 {
        skip_uws(s, i + ws_len_at(s, i as int))
    } else {
        i
    }
}

/// The end of `s[lo..j]` without its trailing white-space characters.
pub open spec fn back_uws(s: Seq<u8>, lo: nat, j: nat) -> nat
    decreases j,
{
    let w = ws_len_before(s, j as int);
    if j > lo && w > 0 && j >= lo + w {
        back_uws(s, lo, (j - w) as nat)
    } else {
        j
    }
}

/// `s` without leading and trailing white space.
pub open spec fn utrim(s: Seq<u8>) -> Seq<u8> {
    let lo = skip_uws(s, 0);
    s.subrange(lo as int, back_uws(s, lo, s.len()) as int)
}

/// `s` with ASCII letters lower-cased.
pub open spec fn lower(s: Seq<u8>) -> Seq<u8> {
    Seq::new(s.len(), |i: int| lower_byte(s[i]))
}

/// Equality of `a` and `b` with ASCII letters compared without case.
pub open spec fn eq_ignore_case(a: Seq<u8>, b: Seq<u8>) -> bool {
    a.len() == b.len() && forall|i: int| 0 <= i < a.len() ==> lower_byte(a[i]) == lower_byte(b[i])
}

fn ws_len_at_exec(s: &[u8], i: usize) -> (r: usize)
    ensures
        r == ws_len_at(s@, i as int),
{
    let n = s.len();
    if i < n && (s[i] == 32 || (s[i] >= 9 && s[i] <= 13)) {
        1
    } else if i < n && n - i > 1 && s[i] == 0xC2 && (s[i + 1] == 0x85 || s[i + 1] == 0xA0) {
        2
    } else if i < n && n - i > 2 && ws3_exec(s[i], s[i + 1], s[i + 2]) {
        3
    } else {
        0
    }
}

fn ws_len_before_exec(s: &[u8], j: usize) -> (r: usize)
    ensures
        r == ws_len_before(s@, j as int),
{
    let n = s.len();
    if j >= 1 && j <= n && (s[j - 1] == 32 || (s[j - 1] >= 9 && s[j - 1] <= 13)) {
        1
    } else if j >= 2 && j <= n && s[j - 2] == 0xC2 && (s[j - 1] == 0x85 || s[j - 1] == 0xA0) {
        2
    } else if j >= 3 && j <= n && ws3_exec(s[j - 3], s[j - 2], s[j - 1]) {
        3
    } else {
        0
    }
}

fn ws3_exec(a: u8, b: u8, c: u8) -> (r: bool)
    ensures
        r == is_ws3(a, b, c),
{
    (a == 0xE1 && b == 0x9A && c == 0x80) || (a == 0xE2 && b == 0x80 && ((c >= 0x80 && c <= 0x8A)
        || c == 0xA8 || c == 0xA9 || c == 0xAF)) || (a == 0xE2 && b == 0x81 && c == 0x9F) || (a
        == 0xE3 && b == 0x80 && c == 0x80)
}

/// The bounds of `s[lo..hi]` without leading and trailing white space, in
/// `s`'s own positions.
fn trim_bounds(s: &[u8]) -> (r: (usize, usize))
    ensures
        r.0 == skip_uws(s@, 0),
        r.1 == back_uws(s@, r.0 as nat, s@.len()),
        r.0 <= r.1 <= s@.len(),
{
    let n = s.len();
    let mut lo: usize = 0;
    loop
        invariant
            lo <= n,
            n == s@.len(),
            skip_uws(s@, lo as nat) == skip_uws(s@, 0),
        ensures
            lo <= n,
            lo == skip_uws(s@, 0),
        decreases n - lo,
    {
        if lo >= n {
            break;
        }
        let w = ws_len_at_exec(s, lo);
        if w == 0 {
            break;
        }
        lo = lo + w;
    }
    let mut hi: usize = n;
    loop
        invariant
            lo <= hi <= n,
            n == s@.len(),
            lo == skip_uws(s@, 0),
            back_uws(s@, lo as nat, hi as nat) == back_uws(s@, lo as nat, n as nat),
        ensures
            lo <= hi <= n,
            hi == back_uws(s@, lo as nat, n as nat),
        decreases hi,
    {
        let w = ws_len_before_exec(s, hi);
        if !(hi > lo && w > 0 && hi - lo >= w) {
            break;
        }
        hi = hi - w;
    }
    (lo, hi)
}

/// A copy of `s[lo..hi]`.
pub(crate) fn copy_range(s: &[u8], lo: usize, hi: usize) -> (r: Vec<u8>)
    requires
        lo <= hi <= s@.len(),
    ensures
        r@ == s@.subrange(lo as int, hi as int),
{
    let mut out: Vec<u8> = Vec::new();
    let mut i: usize = lo;
    while i < hi
        invariant
            lo <= i <= hi <= s@.len(),
            out@ == s@.subrange(lo as int, i as int),
        decreases hi - i,
    {
        out.push(s[i]);
        proof {
            assert(out@ =~= s@.subrange(lo as int, i + 1));
        }
        i = i + 1;
    }
    out
}

/// A copy of `s` without leading and trailing white space.
pub fn trim_text(s: &[u8]) -> (r: Vec<u8>)
    ensures
        r@ == utrim(s@),
{
    let (lo, hi) = trim_bounds(s);
    copy_range(s, lo, hi)
}

/// A copy of `s` with ASCII letters upper-cased.
pub(crate) fn upper_copy(s: &[u8]) -> (r: Vec<u8>)
    ensures
        r@ == upper(s@),
{
    let mut out: Vec<u8> = Vec::new();
    let mut i: usize = 0;
    while i < s.len()
        invariant
            i <= s@.len(),
            out@ == upper(s@.take(i as int)),
        decreases s@.len() - i,
    {
        let b = s[i];
        let u = if b >= 97 && b <= 122 {
            b - 32
        } else {
            b
        };
        out.push(u);
        proof {
            assert(out@ =~= upper(s@.take(i + 1)));
        }
        i = i + 1;
    }
    assert(s@.take(s@.len() as int) =~= s@);
    out
}

/// A copy of `s` with ASCII letters lower-cased.
pub(crate) fn lower_copy(s: &[u8]) -> (r: Vec<u8>)
    ensures
        r@ == lower(s@),
{
    let mut out: Vec<u8> = Vec::new();
    let mut i: usize = 0;
    while i < s.len()
        invariant
            i <= s@.len(),
            out@ == lower(s@.take(i as int)),
        decreases s@.len() - i,
    {
        let b = s[i];
        let l = if b >= 65 && b <= 90 {
            b + 32
        } else {
            b
        };
        out.push(l);
        proof {
            assert(out@ =~= lower(s@.take(i + 1)));
        }
        i = i + 1;
    }
    assert(s@.take(s@.len() as int) =~= s@);
    out
}

/// Whether `a` and `b` are equal with ASCII letters compared without case.
pub(crate) fn eq_ignore_case_exec(a: &[u8], b: &[u8]) -> (r: bool)
    ensures
        r == eq_ignore_case(a@, b@),
{
    if a.len() != b.len() {
        return false;
    }
    let mut i: usize = 0;
    while i < a.len()
        invariant
            i <= a@.len(),
            a@.len() == b@.len(),
            forall|k: int| 0 <= k < i ==> lower_byte(a@[k]) == lower_byte(b@[k]),
        decreases a@.len() - i,
    {
        let x = if a[i] >= 65 && a[i] <= 90 {
            a[i] + 32
        } else {
            a[i]
        };
        let y = if b[i] >= 65 && b[i] <= 90 {
            b[i] + 32
        } else {
            b[i]
        };
        if x != y {
            return false;
        }
        i = i + 1;
    }
    true
}

// ---------------------------------------------------------------------------
// Comments
// ---------------------------------------------------------------------------

/// Whether `b` continues a multi-byte UTF-8 character.
pub open spec fn is_cont(b: u8) -> bool {
    0x80 <= b <= 0xBF
}

/// Going back from `k` over continuation bytes: the start of the character
/// that holds byte `k`.
pub open spec fn char_start(s: Seq<u8>, k: nat) -> nat
    decreases k,
{
    if k > 0 && k < s.len() && is_cont(s[k as int]) {
        char_start(s, (k - 1) as nat)
    } else {
        k
    }
}

/// Where the last character of `s` starts (0 for empty text).
pub open spec fn last_char(s: Seq<u8>) -> nat {
    if s.len() == 0 {
        0
    } else {
        char_start(s, (s.len() - 1) as nat)
    }
}

/// The end of a `//` comment whose text starts at `j`: the next line feed
/// (which stays in the text), or the end.
pub open spec fn line_end(s: Seq<u8>, j: nat) -> nat
    decreases s.len() - j,
{
    if j < s.len() && s[j as int] != 10 {
        line_end(s, j + 1)
    } else {
        j
    }
}

/// The end of a `/*` comment whose text starts at `j`: just past the first
/// `*/`. Without one, scanning stops at the last character, which stays in
/// the text; with fewer than two characters left it stops at `j`.
pub open spec fn block_end(s: Seq<u8>, j: nat) -> nat
    decreases s.len() - j,
{
    if j < last_char(s) && j + 1 < s.len() {
        if s[j as int] == 42 && s[j + 1int] == 47 {
            j + 2
        } else {
            block_end(s, j + 1)
        }
    } else {
        j
    }
}

pub proof fn lemma_char_start_bound(s: Seq<u8>, k: nat)
    ensures
        char_start(s, k) <= k,
    decreases k,
{
    if k > 0 && k < s.len() && is_cont(s[k as int]) {
        lemma_char_start_bound(s, (k - 1) as nat);
    }
}

pub proof fn lemma_line_end_bounds(s: Seq<u8>, j: nat)
    requires
        j <= s.len(),
    ensures
        j <= line_end(s, j) <= s.len(),
    decreases s.len() - j,
{
    if j < s.len() && s[j as int] != 10 {
        lemma_line_end_bounds(s, j + 1);
    }
}

pub proof fn lemma_block_end_bounds(s: Seq<u8>, j: nat)
    requires
        j <= s.len(),
    ensures
        j <= block_end(s, j) <= s.len(),
    decreases s.len() - j,
{
    if j < last_char(s) && j + 1 < s.len() {
        if !(s[j as int] == 42 && s[j + 1int] == 47) {
            lemma_block_end_bounds(s, j + 1);
        }
    }
}

/// `s[i..]` with comments removed, `in_str` telling whether position `i`
/// lies inside a double-quoted string, where `//` and `/*` are plain text.
pub open spec fn strip_from(s: Seq<u8>, i: nat, in_str: bool) -> Seq<u8>
    decreases s.len() - i,
{
    if i >= s.len() {
        Seq::empty()
    } else if s[i as int] == 34 {
        seq![34u8] + strip_from(s, i + 1, !in_str)
    } else if !in_str && s[i as int] == 47 && i + 1 < s.len() && s[i + 1int] == 47 {
        proof {
            lemma_line_end_bounds(s, i + 2);
        }
        strip_from(s, line_end(s, i + 2), in_str)
    } else if !in_str && s[i as int] == 47 && i + 1 < s.len() && s[i + 1int] == 42 {
        proof {
            lemma_block_end_bounds(s, i + 2);
        }
        strip_from(s, block_end(s, i + 2), in_str)
    } else {
        seq![s[i as int]] + strip_from(s, i + 1, in_str)
    }
}

/// `s` with `//` and `/* */` comments outside double-quoted strings removed.
pub open spec fn strip_comments(s: Seq<u8>) -> Seq<u8> {
    strip_from(s, 0, false)
}

/// Removes `//` line comments and `/* */` block comments that stand outside
/// double-quoted strings. The line feed that ends a line comment stays; an
/// unterminated block comment runs to the last character, which stays.
pub fn strip_udmf_comments(text: &[u8]) -> (r: Vec<u8>)
    ensures
        r@ == strip_comments(text@),
{
    let n = text.len();
    let mut last: usize = 0;
    if n > 0 {
        last = n - 1;
        while last > 0 && text[last] >= 0x80 && text[last] <= 0xBF
            invariant
                last < n,
                n == text@.len(),
                char_start(text@, last as nat) == last_char(text@),
            decreases last,
        {
            last = last - 1;
        }
    }
    assert(last == last_char(text@));
    let mut out: Vec<u8> = Vec::new();
    let mut i: usize = 0;
    let mut in_str = false;
    while i < n
        invariant
            i <= n,
            n == text@.len(),
            last == last_char(text@),
            out@ + strip_from(text@, i as nat, in_str) == strip_comments(text@),
        decreases n - i,
    {
        let c = text[i];
        if c == 34 {
            proof {
                assert(out@.push(34u8) + strip_from(text@, (i + 1) as nat, !in_str) =~= out@ + (
                seq![34u8] + strip_from(text@, (i + 1) as nat, !in_str)));
            }
            out.push(c);
            in_str = !in_str;
            i = i + 1;
        } else if !in_str && c == 47 && i + 1 < n && text[i + 1] == 47 {
            let mut j: usize = i + 2;
            while j < n && text[j] != 10
                invariant
                    i + 2 <= j <= n,
                    n == text@.len(),
                    line_end(text@, j as nat) == line_end(text@, (i + 2) as nat),
                decreases n - j,
            {
                j = j + 1;
            }
            i = j;
        } else if !in_str && c == 47 && i + 1 < n && text[i + 1] == 42 {
            let mut j: usize = i + 2;
            loop
                invariant_except_break
                    block_end(text@, j as nat) == block_end(text@, (i + 2) as nat),
                invariant
                    i + 2 <= j <= n,
                    n == text@.len(),
                    last == last_char(text@),
                ensures
                    i + 2 <= j <= n,
                    j == block_end(text@, (i + 2) as nat),
                decreases n - j,
            {
                if !(j < last && j + 1 < n) {
                    break;
                }
                if text[j] == 42 && text[j + 1] == 47 {
                    j = j + 2;
                    break;
                }
                j = j + 1;
            }
            i = j;
        } else {
            proof {
                assert(out@.push(c) + strip_from(text@, (i + 1) as nat, in_str) =~= out@ + (
                seq![c] + strip_from(text@, (i + 1) as nat, in_str)));
            }
            out.push(c);
            i = i + 1;
        }
    }
    assert(out@ + strip_from(text@, i as nat, in_str) =~= out@);
    out
}

// ---------------------------------------------------------------------------
// Blocks
// ---------------------------------------------------------------------------

/// White space as `u8::is_ascii_whitespace` sees it: space, tab, line feed,
/// form feed, carriage return.
pub open spec fn is_aws(b: u8) -> bool {
    b == 32 || b == 9 || b == 10 || b == 12 || b == 13
}

/// A byte of a block name: an ASCII letter or digit, or `_`.
pub open spec fn is_word(b: u8) -> bool {
    (48 <= b <= 57) || (65 <= b <= 90) || (97 <= b <= 122) || b == 95
}

/// The first position at or after `i` that is not ASCII white space.
pub open spec fn skip_aws(s: Seq<u8>, i: nat) -> nat
    decreases s.len() - i,
{
    if i < s.len() && is_aws(s[i as int]) {
        skip_aws(s, i + 1)
    } else {
        i
    }
}

/// The end of the run of name bytes that starts at `i`.
pub open spec fn word_end(s: Seq<u8>, i: nat) -> nat
    decreases s.len() - i,
{
    if i < s.len() && is_word(s[i as int]) {
        word_end(s, i + 1)
    } else {
        i
    }
}

/// The position of the `}` that closes the block whose body continues at
/// `i` with `depth` braces open, or `None` when the text ends first.
pub open spec fn closing_brace(s: Seq<u8>, i: nat, depth: nat) -> Option<nat>
    decreases s.len() - i,
{
    if i >= s.len() {
        None
    } else if s[i as int] == 123 {
        closing_brace(s, i + 1, depth + 1)
    } else if s[i as int] == 125 {
        if depth <= 1 {
            Some(i)
        } else {
            closing_brace(s, i + 1, (depth - 1) as nat)
        }
    } else {
        closing_brace(s, i + 1, depth)
    }
}

/// The block that starts at `start` after white space: its name in lower
/// case, its body between the braces, and the position after its closing
/// brace. `None` when no name, no `{`, or no closing `}` follows.
pub open spec fn next_block(s: Seq<u8>, start: nat) -> Option<(Seq<u8>, Seq<u8>, nat)> {
    let i = skip_aws(s, start);
    let e = word_end(s, i);
    let k = skip_aws(s, e);
    if i >= s.len() || e == i || k >= s.len() || s[k as int] != 123 {
        None
    } else {
        match closing_brace(s, k + 1, 1) {
            None => None,
            Some(c) => Some((lower(s.subrange(i as int, e as int)), s.subrange(k + 1int, c as int), c + 1)),
        }
    }
}

pub proof fn lemma_skip_aws_bounds(s: Seq<u8>, i: nat)
    ensures
        i <= skip_aws(s, i),
        i <= s.len() ==> skip_aws(s, i) <= s.len(),
    decreases s.len() - i,
{
    if i < s.len() && is_aws(s[i as int]) {
        lemma_skip_aws_bounds(s, i + 1);
    }
}

pub proof fn lemma_word_end_bounds(s: Seq<u8>, i: nat)
    ensures
        i <= word_end(s, i),
        i <= s.len() ==> word_end(s, i) <= s.len(),
    decreases s.len() - i,
{
    if i < s.len() && is_word(s[i as int]) {
        lemma_word_end_bounds(s, i + 1);
    }
}

pub proof fn lemma_closing_brace_bounds(s: Seq<u8>, i: nat, depth: nat)
    ensures
        closing_brace(s, i, depth) matches Some(c) ==> i <= c < s.len(),
    decreases s.len() - i,
{
    if i < s.len() {
        if s[i as int] == 123 {
            lemma_closing_brace_bounds(s, i + 1, depth + 1);
        } else if s[i as int] == 125 {
            if depth > 1 {
                lemma_closing_brace_bounds(s, i + 1, (depth - 1) as nat);
            }
        } else {
            lemma_closing_brace_bounds(s, i + 1, depth);
        }
    }
}

/// A block found by `next_block` ends after where the search started, and
/// within the text.
pub proof fn lemma_next_block_advances(s: Seq<u8>, start: nat)
    ensures
        next_block(s, start) matches Some((n, b, c)) ==> start < c <= s.len(),
{
    let i = skip_aws(s, start);
    let e = word_end(s, i);
    let k = skip_aws(s, e);
    lemma_skip_aws_bounds(s, start);
    lemma_word_end_bounds(s, i);
    lemma_skip_aws_bounds(s, e);
    lemma_closing_brace_bounds(s, k + 1, 1);
}

/// The blocks of `s` from `cursor` on, each as its lower-case name and body,
/// up to the first place where no further block can be read.
pub open spec fn blocks_from(s: Seq<u8>, cursor: nat) -> Seq<(Seq<u8>, Seq<u8>)>
    decreases s.len() - cursor,
{
    match next_block(s, cursor) {
        None => Seq::empty(),
        Some((n, b, c)) => {
            proof {
                lemma_next_block_advances(s, cursor);
            }
            seq![(n, b)] + blocks_from(s, c)
        },
    }
}

/// Reads the block that starts at `start` after white space: its name in
/// lower case, its body, and the position after its closing brace.
pub fn next_udmf_block(text: &[u8], start: usize) -> (r: Option<(Vec<u8>, Vec<u8>, usize)>)
    ensures
        match next_block(text@, start as nat) {
            None => r is None,
            Some((n, b, c)) => r matches Some((n2, b2, c2)) && n2@ == n && b2@ == b && c2 == c,
        },
{
    let len = text.len();
    let mut i = start;
    while i < len && (text[i] == 32 || text[i] == 9 || text[i] == 10 || text[i] == 12 || text[i]
        == 13)
        invariant
            start <= i,
            len == text@.len(),
            skip_aws(text@, i as nat) == skip_aws(text@, start as nat),
        decreases len - i,
    {
        i = i + 1;
    }
    if i >= len {
        return None;
    }
    let name_start = i;
    while i < len && ((text[i] >= 48 && text[i] <= 57) || (text[i] >= 65 && text[i] <= 90) || (
    text[i] >= 97 && text[i] <= 122) || text[i] == 95)
        invariant
            name_start <= i <= len,
            len == text@.len(),
            word_end(text@, i as nat) == word_end(text@, name_start as nat),
        decreases len - i,
    {
        i = i + 1;
    }
    if i == name_start {
        return None;
    }
    let name_end = i;
    while i < len && (text[i] == 32 || text[i] == 9 || text[i] == 10 || text[i] == 12 || text[i]
        == 13)
        invariant
            name_end <= i <= len,
            len == text@.len(),
            skip_aws(text@, i as nat) == skip_aws(text@, name_end as nat),
        decreases len - i,
    {
        i = i + 1;
    }
    if i >= len || text[i] != 123 {
        return None;
    }
    let ghost k = i as nat;
    i = i + 1;
    let body_start = i;
    let mut depth: usize = 1;
    while i < len
        invariant
            body_start <= i <= len,
            len == text@.len(),
            1 <= depth <= i - body_start + 1,
            name_start < name_end < body_start,
            body_start == k + 1,
            name_start == skip_aws(text@, start as nat),
            name_end == word_end(text@, name_start as nat),
            k == skip_aws(text@, name_end as nat),
            text@[k as int] == 123,
            closing_brace(text@, i as nat, depth as nat) == closing_brace(text@, k + 1, 1),
        decreases len - i,
    {
        if text[i] == 123 {
            depth = depth + 1;
        } else if text[i] == 125 {
            if depth <= 1 {
                let name_bytes = copy_range(text, name_start, name_end);
                let name = lower_copy(name_bytes.as_slice());
                let body = copy_range(text, body_start, i);
                assert(closing_brace(text@, k + 1, 1) == Some(i as nat));
                return Some((name, body, i + 1));
            }
            depth = depth - 1;
        }
        i = i + 1;
    }
    None
}

// ---------------------------------------------------------------------------
// Statements and values
// ---------------------------------------------------------------------------

/// The first `;` at or after `i`, or the end.
pub open spec fn seg_end(s: Seq<u8>, i: nat) -> nat
    decreases s.len() - i,
{
    if i < s.len() && s[i as int] != 59 {
        seg_end(s, i + 1)
    } else {
        i
    }
}

/// The first position at or after `i` that holds `b`.
pub open spec fn find_byte(s: Seq<u8>, b: u8, i: nat) -> Option<nat>
    decreases s.len() - i,
{
    if i >= s.len() {
        None
    } else if s[i as int] == b {
        Some(i)
    } else {
        find_byte(s, b, i + 1)
    }
}

pub proof fn lemma_seg_end_bounds(s: Seq<u8>, i: nat)
    requires
        i <= s.len(),
    ensures
        i <= seg_end(s, i) <= s.len(),
    decreases s.len() - i,
{
    if i < s.len() && s[i as int] != 59 {
        lemma_seg_end_bounds(s, i + 1);
    }
}

pub proof fn lemma_find_byte_bounds(s: Seq<u8>, b: u8, i: nat)
    ensures
        find_byte(s, b, i) matches Some(q) ==> i <= q < s.len() && s[q as int] == b,
    decreases s.len() - i,
{
    if i < s.len() && s[i as int] != b {
        lemma_find_byte_bounds(s, b, i + 1);
    }
}

/// The value of `key` among the `;`-separated statements of `body` from `i`
/// on: statements are trimmed and empty ones skipped; the first statement
/// without `=` ends the search with nothing; otherwise the first statement
/// whose trimmed left side equals `key` without regard to ASCII case gives
/// its trimmed right side (all after the first `=`).
pub open spec fn value_from(body: Seq<u8>, key: Seq<u8>, i: nat) -> Option<Seq<u8>>
    decreases body.len() - i,
{
    if i > body.len() {
        None
    } else {
        let e = seg_end(body, i);
        let st = utrim(body.subrange(i as int, e as int));
        let more = e < body.len();
        proof {
            lemma_seg_end_bounds(body, i);
        }
        if st.len() == 0 {
            if more {
                value_from(body, key, e + 1)
            } else {
                None
            }
        } else {
            match find_byte(st, 61, 0) {
                None => None,
                Some(q) => {
                    if eq_ignore_case(utrim(st.subrange(0, q as int)), key) {
                        Some(utrim(st.subrange(q + 1int, st.len() as int)))
                    } else if more {
                        value_from(body, key, e + 1)
                    } else {
                        None
                    }
                },
            }
        }
    }
}

/// The value of `key` in a block body.
pub open spec fn udmf_value(body: Seq<u8>, key: Seq<u8>) -> Option<Seq<u8>> {
    value_from(body, key, 0)
}

/// The number that the decimal digits `d` spell.
pub open spec fn digits_value(d: Seq<u8>) -> nat
    decreases d.len(),
{
    if d.len() == 0 {
        0
    } else {
        digits_value(d.drop_last()) * 10 + (d.last() - 48) as nat
    }
}

/// Whether every byte of `d` is an ASCII digit.
pub open spec fn all_digits(d: Seq<u8>) -> bool {
    forall|i: int| 0 <= i < d.len() ==> 48 <= #[trigger] d[i] <= 57
}

/// What `u16::from_str` gives: digits after an optional `+`, up to 65535.
pub open spec fn parse_u16_text(t: Seq<u8>) -> Option<u16> {
    let d = if t.len() > 0 && t[0] == 43 {
        t.subrange(1, t.len() as int)
    } else {
        t
    };
    if d.len() == 0 || !all_digits(d) || digits_value(d) > 65535 {
        None
    } else {
        Some(digits_value(d) as u16)
    }
}

/// What `i32::from_str` gives: digits after an optional `+` or `-`, within
/// the range of `i32`.
pub open spec fn parse_i32_text(t: Seq<u8>) -> Option<int> {
    let signed = t.len() > 0 && (t[0] == 43 || t[0] == 45);
    let neg = t.len() > 0 && t[0] == 45;
    let d = if signed {
        t.subrange(1, t.len() as int)
    } else {
        t
    };
    if d.len() == 0 || !all_digits(d) {
        None
    } else if neg {
        if digits_value(d) > 2147483648 {
            None
        } else {
            Some(-(digits_value(d) as int))
        }
    } else if digits_value(d) > 2147483647 {
        None
    } else {
        Some(digits_value(d) as int)
    }
}

/// A value read as an index or code: as a `u16` if it is one; else as an
/// `i32`, a negative one meaning 0xFFFF (no side) and one above 65535
/// nothing.
pub open spec fn udmf_u16(v: Seq<u8>) -> Option<u16> {
    let t = utrim(v);
    match parse_u16_text(t) {
        Some(x) => Some(x),
        None => match parse_i32_text(t) {
            Some(y) => if y < 0 {
                Some(0xFFFFu16)
            } else if y <= 65535 {
                Some(y as u16)
            } else {
                None
            },
            None => None,
        },
    }
}

/// A value read as a string: trimmed, and without its surrounding double
/// quotes when it has them.
pub open spec fn udmf_string(v: Seq<u8>) -> Seq<u8> {
    let t = utrim(v);
    if t.len() >= 2 && t[0] == 34 && t[t.len() - 1] == 34 {
        t.subrange(1, t.len() - 1)
    } else {
        t
    }
}

/// The value of `key` in `body`, see `value_from`.
pub fn extract_udmf_value(body: &[u8], key: &[u8]) -> (r: Option<Vec<u8>>)
    ensures
        match udmf_value(body@, key@) {
            None => r is None,
            Some(v) => r matches Some(w) && w@ == v,
        },
{
    let n = body.len();
    let mut i: usize = 0;
    loop
        invariant
            i <= n,
            n == body@.len(),
            value_from(body@, key@, i as nat) == udmf_value(body@, key@),
        decreases n - i,
    {
        let mut e: usize = i;
        while e < n && body[e] != 59
            invariant
                i <= e <= n,
                n == body@.len(),
                seg_end(body@, e as nat) == seg_end(body@, i as nat),
            decreases n - e,
        {
            e = e + 1;
        }
        let seg = copy_range(body, i, e);
        let st = trim_text(seg.as_slice());
        if st.len() == 0 {
            if e < n {
                i = e + 1;
                continue ;
            } else {
                return None;
            }
        }
        let mut q: usize = 0;
        while q < st.len() && st[q] != 61
            invariant
                q <= st@.len(),
                find_byte(st@, 61, q as nat) == find_byte(st@, 61, 0),
            decreases st@.len() - q,
        {
            q = q + 1;
        }
        if q >= st.len() {
            return None;
        }
        let lhs_raw = copy_range(st.as_slice(), 0, q);
        let lhs = trim_text(lhs_raw.as_slice());
        if eq_ignore_case_exec(lhs.as_slice(), key) {
            let rhs_raw = copy_range(st.as_slice(), q + 1, st.len());
            let rhs = trim_text(rhs_raw.as_slice());
            return Some(rhs);
        }
        if e < n {
            i = e + 1;
        } else {
            return None;
        }
    }
}

/// Clamps a digit value above 2^32 to 2^32 + 1, which keeps every value
/// that a `u16` or an `i32` can take apart from those too large for both.
pub open spec fn clamp_value(x: nat) -> nat {
    if x > 4294967296 {
        4294967297
    } else {
        x
    }
}

pub proof fn lemma_digits_step(d: Seq<u8>, k: int)
    requires
        0 <= k < d.len(),
    ensures
        digits_value(d.take(k + 1)) == digits_value(d.take(k)) * 10 + (d[k] - 48) as nat,
{
    assert(d.take(k + 1).drop_last() =~= d.take(k));
}

/// The clamped value of the digits `s[lo..]`, or `None` when that is empty
/// or holds a byte other than a digit.
fn decimal_value(s: &[u8], lo: usize) -> (r: Option<u64>)
    requires
        lo <= s@.len(),
    ensures
        r is Some <==> (lo < s@.len() && all_digits(s@.subrange(lo as int, s@.len() as int))),
        r matches Some(v) ==> v == clamp_value(digits_value(s@.subrange(lo as int, s@.len() as int))),
{
    let n = s.len();
    if lo >= n {
        return None;
    }
    let ghost d = s@.subrange(lo as int, n as int);
    let mut acc: u64 = 0;
    let mut i: usize = lo;
    while i < n
        invariant
            lo <= i <= n,
            n == s@.len(),
            d == s@.subrange(lo as int, n as int),
            all_digits(d.take(i - lo)),
            acc == clamp_value(digits_value(d.take(i - lo))),
        decreases n - i,
    {
        let b = s[i];
        if b < 48 || b > 57 {
            assert(!(48 <= d[i - lo] <= 57));
            return None;
        }
        proof {
            lemma_digits_step(d, i - lo);
            assert(d.take(i + 1 - lo) =~= d.take(i - lo).push(b));
        }
        if acc <= 4294967296 {
            acc = acc * 10 + (b - 48) as u64;
            if acc > 4294967296 {
                acc = 4294967297;
            }
        }
        i = i + 1;
    }
    assert(d.take(n - lo) =~= d);
    Some(acc)
}

/// A value read as an index or code, see `udmf_u16`.
pub fn udmf_u16_of(v: &[u8]) -> (r: Option<u16>)
    ensures
        r == udmf_u16(v@),
{
    let t = trim_text(v);
    let n = t.len();
    let ghost tv = t@;
    // As `u16`: an optional `+`, then digits.
    let ulo: usize = if n > 0 && t[0] == 43 {
        1
    } else {
        0
    };
    let u = decimal_value(t.as_slice(), ulo);
    proof {
        if n > 0 && t@[0] == 43 {
            assert(tv.subrange(1, n as int) == t@.subrange(ulo as int, n as int));
        } else {
            assert(tv =~= t@.subrange(ulo as int, n as int));
        }
    }
    if let Some(x) = u {
        if x <= 65535 {
            return Some(x as u16);
        }
    }
    // As `i32`: an optional sign, then digits.
    let signed = n > 0 && (t[0] == 43 || t[0] == 45);
    let neg = n > 0 && t[0] == 45;
    let ilo: usize = if signed {
        1
    } else {
        0
    };
    let w = decimal_value(t.as_slice(), ilo);
    proof {
        if signed {
            assert(tv.subrange(1, n as int) == t@.subrange(ilo as int, n as int));
        } else {
            assert(tv =~= t@.subrange(ilo as int, n as int));
        }
    }
    match w {
        None => None,
        Some(y) => {
            if neg {
                if y > 2147483648 {
                    None
                } else if y == 0 {
                    Some(0)
                } else {
                    Some(0xFFFF)
                }
            } else if y > 2147483647 {
                None
            } else if y <= 65535 {
                Some(y as u16)
            } else {
                None
            }
        },
    }
}

/// The value of `key` read as an index or code.
pub fn parse_udmf_u16(body: &[u8], key: &[u8]) -> (r: Option<u16>)
    ensures
        r == match udmf_value(body@, key@) {
            None => None,
            Some(v) => udmf_u16(v),
        },
{
    match extract_udmf_value(body, key) {
        None => None,
        Some(v) => udmf_u16_of(v.as_slice()),
    }
}

/// The value of `key` read as a string.
pub fn parse_udmf_string(body: &[u8], key: &[u8]) -> (r: Option<Vec<u8>>)
    ensures
        match udmf_value(body@, key@) {
            None => r is None,
            Some(v) => r matches Some(w) && w@ == udmf_string(v),
        },
{
    match extract_udmf_value(body, key) {
        None => None,
        Some(v) => {
            let t = trim_text(v.as_slice());
            let n = t.len();
            if n >= 2 && t[0] == 34 && t[n - 1] == 34 {
                Some(copy_range(t.as_slice(), 1, n - 1))
            } else {
                Some(t)
            }
        },
    }
}

// ---------------------------------------------------------------------------
// The map
// ---------------------------------------------------------------------------

/// A UDMF vertex: the value texts of its coordinates.
#[derive(Debug, Clone)]
pub struct UdmfVertex {
    pub x: Option<Vec<u8>>,
    pub y: Option<Vec<u8>>,
}

/// A UDMF sector: the value texts of its heights, and its textures.
#[derive(Debug, Clone)]
pub struct UdmfSector {
    pub floor_height: Option<Vec<u8>>,
    pub ceiling_height: Option<Vec<u8>>,
    pub floor_texture: Vec<u8>,
    pub ceiling_texture: Vec<u8>,
}

/// A UDMF thing: the value texts of its position and angle, and its type.
#[derive(Debug, Clone)]
pub struct UdmfThing {
    pub x: Option<Vec<u8>>,
    pub y: Option<Vec<u8>>,
    pub angle: Option<Vec<u8>>,
    pub kind: u16,
}

/// The blocks of a UDMF text map, by kind, in text order.
#[derive(Debug, Clone)]
pub struct UdmfMap {
    pub vertices: Vec<UdmfVertex>,
    pub linedefs: Vec<LineDef>,
    pub sidedefs: Vec<SideDef>,
    pub sectors: Vec<UdmfSector>,
    pub things: Vec<UdmfThing>,
}

pub struct UdmfVertexModel {
    pub x: Option<Seq<u8>>,
    pub y: Option<Seq<u8>>,
}

pub struct UdmfSectorModel {
    pub floor_height: Option<Seq<u8>>,
    pub ceiling_height: Option<Seq<u8>>,
    pub floor_texture: Seq<u8>,
    pub ceiling_texture: Seq<u8>,
}

pub struct UdmfThingModel {
    pub x: Option<Seq<u8>>,
    pub y: Option<Seq<u8>>,
    pub angle: Option<Seq<u8>>,
    pub kind: u16,
}

pub struct UdmfMapModel {
    pub vertices: Seq<UdmfVertexModel>,
    pub linedefs: Seq<LineDef>,
    pub sidedefs: Seq<SideDefModel>,
    pub sectors: Seq<UdmfSectorModel>,
    pub things: Seq<UdmfThingModel>,
}

/// The bytes held by an optional buffer.
pub open spec fn opt_bytes(o: Option<Vec<u8>>) -> Option<Seq<u8>> {
    match o {
        Some(v) => Some(v@),
        None => None,
    }
}

impl View for UdmfVertex {
    type V = UdmfVertexModel;

    open spec fn view(&self) -> UdmfVertexModel {
        UdmfVertexModel { x: opt_bytes(self.x), y: opt_bytes(self.y) }
    }
}

impl View for UdmfSector {
    type V = UdmfSectorModel;

    open spec fn view(&self) -> UdmfSectorModel {
        UdmfSectorModel {
            floor_height: opt_bytes(self.floor_height),
            ceiling_height: opt_bytes(self.ceiling_height),
            floor_texture: self.floor_texture@,
            ceiling_texture: self.ceiling_texture@,
        }
    }
}

impl View for UdmfThing {
    type V = UdmfThingModel;

    open spec fn view(&self) -> UdmfThingModel {
        UdmfThingModel {
            x: opt_bytes(self.x),
            y: opt_bytes(self.y),
            angle: opt_bytes(self.angle),
            kind: self.kind,
        }
    }
}

impl View for UdmfMap {
    type V = UdmfMapModel;

    open spec fn view(&self) -> UdmfMapModel {
        UdmfMapModel {
            vertices: self.vertices@.map_values(|v: UdmfVertex| v@),
            linedefs: self.linedefs@,
            sidedefs: self.sidedefs@.map_values(|s: SideDef| s@),
            sectors: self.sectors@.map_values(|s: UdmfSector| s@),
            things: self.things@.map_values(|t: UdmfThing| t@),
        }
    }
}

/// "vertex"
pub const BLOCK_VERTEX: [u8; 6] = [118, 101, 114, 116, 101, 120];

/// "linedef"
pub const BLOCK_LINEDEF: [u8; 7] = [108, 105, 110, 101, 100, 101, 102];

/// "sidedef"
pub const BLOCK_SIDEDEF: [u8; 7] = [115, 105, 100, 101, 100, 101, 102];

/// "sector"
pub const BLOCK_SECTOR: [u8; 6] = [115, 101, 99, 116, 111, 114];

/// "thing"
pub const BLOCK_THING: [u8; 5] = [116, 104, 105, 110, 103];

/// "x"
pub const KEY_X: [u8; 1] = [120];

/// "y"
pub const KEY_Y: [u8; 1] = [121];

/// "v1"
pub const KEY_V1: [u8; 2] = [118, 49];

/// "v2"
pub const KEY_V2: [u8; 2] = [118, 50];

/// "special"
pub const KEY_SPECIAL: [u8; 7] = [115, 112, 101, 99, 105, 97, 108];

/// "id"
pub const KEY_ID: [u8; 2] = [105, 100];

/// "sidefront"
pub const KEY_SIDEFRONT: [u8; 9] = [115, 105, 100, 101, 102, 114, 111, 110, 116];

/// "sideback"
pub const KEY_SIDEBACK: [u8; 8] = [115, 105, 100, 101, 98, 97, 99, 107];

/// "sector"
pub const KEY_SECTOR: [u8; 6] = [115, 101, 99, 116, 111, 114];

/// "texturetop"
pub const KEY_TEXTURETOP: [u8; 10] = [116, 101, 120, 116, 117, 114, 101, 116, 111, 112];

/// "texturebottom"
pub const KEY_TEXTUREBOTTOM: [u8; 13] = [116, 101, 120, 116, 117, 114, 101, 98, 111, 116, 116, 111, 109];

/// "texturemiddle"
pub const KEY_TEXTUREMIDDLE: [u8; 13] = [116, 101, 120, 116, 117, 114, 101, 109, 105, 100, 100, 108, 101];

/// "heightfloor"
pub const KEY_HEIGHTFLOOR: [u8; 11] = [104, 101, 105, 103, 104, 116, 102, 108, 111, 111, 114];

/// "heightceiling"
pub const KEY_HEIGHTCEILING: [u8; 13] = [104, 101, 105, 103, 104, 116, 99, 101, 105, 108, 105, 110, 103];

/// "texturefloor"
pub const KEY_TEXTUREFLOOR: [u8; 12] = [116, 101, 120, 116, 117, 114, 101, 102, 108, 111, 111, 114];

/// "textureceiling"
pub const KEY_TEXTURECEILING: [u8; 14] = [116, 101, 120, 116, 117, 114, 101, 99, 101, 105, 108, 105, 110, 103];

/// "angle"
pub const KEY_ANGLE: [u8; 5] = [97, 110, 103, 108, 101];

/// "type"
pub const KEY_TYPE: [u8; 4] = [116, 121, 112, 101];

/// "-"
pub const DEFAULT_SIDE_TEXTURE: [u8; 1] = [45];

/// "FLOOR"
pub const DEFAULT_FLOOR_TEXTURE: [u8; 5] = [70, 76, 79, 79, 82];

/// "CEIL"
pub const DEFAULT_CEILING_TEXTURE: [u8; 4] = [67, 69, 73, 76];

/// The value of `key` read as an index or code, or `d`.
pub open spec fn u16_or(body: Seq<u8>, key: Seq<u8>, d: u16) -> u16 {
    match udmf_value(body, key) {
        Some(v) => match udmf_u16(v) {
            Some(x) => x,
            None => d,
        },
        None => d,
    }
}

/// The value of `key` read as a string, or `d`, upper-cased.
pub open spec fn text_or(body: Seq<u8>, key: Seq<u8>, d: Seq<u8>) -> Seq<u8> {
    upper(
        match udmf_value(body, key) {
            Some(v) => udmf_string(v),
            None => d,
        },
    )
}

pub open spec fn vertex_block(body: Seq<u8>) -> UdmfVertexModel {
    UdmfVertexModel { x: udmf_value(body, KEY_X@), y: udmf_value(body, KEY_Y@) }
}

pub open spec fn linedef_block(body: Seq<u8>) -> LineDef {
    LineDef {
        start_vertex: u16_or(body, KEY_V1@, 0),
        end_vertex: u16_or(body, KEY_V2@, 0),
        special: u16_or(body, KEY_SPECIAL@, 0),
        tag: u16_or(body, KEY_ID@, 0),
        right_sidedef: u16_or(body, KEY_SIDEFRONT@, 0xFFFF),
        left_sidedef: u16_or(body, KEY_SIDEBACK@, 0xFFFF),
    }
}

pub open spec fn sidedef_block(body: Seq<u8>) -> SideDefModel {
    SideDefModel {
        upper_texture: text_or(body, KEY_TEXTURETOP@, DEFAULT_SIDE_TEXTURE@),
        lower_texture: text_or(body, KEY_TEXTUREBOTTOM@, DEFAULT_SIDE_TEXTURE@),
        middle_texture: text_or(body, KEY_TEXTUREMIDDLE@, DEFAULT_SIDE_TEXTURE@),
        sector: u16_or(body, KEY_SECTOR@, 0),
    }
}

pub open spec fn sector_block(body: Seq<u8>) -> UdmfSectorModel {
    UdmfSectorModel {
        floor_height: udmf_value(body, KEY_HEIGHTFLOOR@),
        ceiling_height: udmf_value(body, KEY_HEIGHTCEILING@),
        floor_texture: text_or(body, KEY_TEXTUREFLOOR@, DEFAULT_FLOOR_TEXTURE@),
        ceiling_texture: text_or(body, KEY_TEXTURECEILING@, DEFAULT_CEILING_TEXTURE@),
    }
}

pub open spec fn thing_block(body: Seq<u8>) -> UdmfThingModel {
    UdmfThingModel {
        x: udmf_value(body, KEY_X@),
        y: udmf_value(body, KEY_Y@),
        angle: udmf_value(body, KEY_ANGLE@),
        kind: u16_or(body, KEY_TYPE@, 0),
    }
}

/// `m` with the block `name { body }` added; blocks of other kinds change
/// nothing.
pub open spec fn add_block(m: UdmfMapModel, name: Seq<u8>, body: Seq<u8>) -> UdmfMapModel {
    if name == BLOCK_VERTEX@ {
        UdmfMapModel { vertices: m.vertices.push(vertex_block(body)), ..m }
    } else if name == BLOCK_LINEDEF@ {
        UdmfMapModel { linedefs: m.linedefs.push(linedef_block(body)), ..m }
    } else if name == BLOCK_SIDEDEF@ {
        UdmfMapModel { sidedefs: m.sidedefs.push(sidedef_block(body)), ..m }
    } else if name == BLOCK_SECTOR@ {
        UdmfMapModel { sectors: m.sectors.push(sector_block(body)), ..m }
    } else if name == BLOCK_THING@ {
        UdmfMapModel { things: m.things.push(thing_block(body)), ..m }
    } else {
        m
    }
}

/// The map that the blocks make, in order.
pub open spec fn udmf_map_of(blocks: Seq<(Seq<u8>, Seq<u8>)>) -> UdmfMapModel
    decreases blocks.len(),
{
    if blocks.len() == 0 {
        UdmfMapModel {
            vertices: Seq::empty(),
            linedefs: Seq::empty(),
            sidedefs: Seq::empty(),
            sectors: Seq::empty(),
            things: Seq::empty(),
        }
    } else {
        add_block(udmf_map_of(blocks.drop_last()), blocks.last().0, blocks.last().1)
    }
}

/// Whether a block is a thing block: its name is "thing".
pub open spec fn is_thing_block(b: (Seq<u8>, Seq<u8>)) -> bool {
    b.0 == seq![116u8, 104u8, 105u8, 110u8, 103u8]
}

/// The things that the thing blocks `bs` make, in order, each read from
/// its own block's keys.
pub open spec fn things_from_blocks(bs: Seq<(Seq<u8>, Seq<u8>)>) -> Seq<UdmfThingModel> {
    bs.map_values(|blk: (Seq<u8>, Seq<u8>)| { let bd = blk.1; UdmfThingModel { x: udmf_value(bd, seq![120u8]), y: udmf_value(bd, seq![121u8]), angle: udmf_value(bd, seq![97u8, 110u8, 103u8, 108u8, 101u8]), kind: u16_or(bd, seq![116u8, 121u8, 112u8, 101u8], 0) } })
}

proof fn lemma_things_from_keys(blocks: Seq<(Seq<u8>, Seq<u8>)>)
    ensures
        udmf_map_of(blocks).things =~= things_from_blocks(blocks.filter(|b: (Seq<u8>, Seq<u8>)| is_thing_block(b))),
    decreases blocks.len(),
{
    reveal(Seq::filter);
    assert(KEY_ANGLE@ =~= seq![97u8, 110u8, 103u8, 108u8, 101u8]);
    assert(KEY_TYPE@ =~= seq![116u8, 121u8, 112u8, 101u8]);
    assert(KEY_X@ =~= seq![120u8]);
    assert(KEY_Y@ =~= seq![121u8]);
    assert(BLOCK_THING@ =~= seq![116u8, 104u8, 105u8, 110u8, 103u8]);
    let p = |b: (Seq<u8>, Seq<u8>)| is_thing_block(b);
    if blocks.len() > 0 {
        let front = blocks.drop_last();
        let last = blocks.last();
        lemma_things_from_keys(front);
        assert(blocks.filter(p) == if p(last) {
            front.filter(p).push(last)
        } else {
            front.filter(p)
        });
        if p(last) {
            assert(things_from_blocks(front.filter(p).push(last)) =~= things_from_blocks(front.filter(p)).push(thing_block(last.1)));
        }
    } else {
        assert(blocks.filter(p) =~= Seq::<(Seq<u8>, Seq<u8>)>::empty());
    }
}

/// Whether a block is a vertex block: its name is "vertex".
pub open spec fn is_vertex_block(b: (Seq<u8>, Seq<u8>)) -> bool {
    b.0 == seq![118u8, 101u8, 114u8, 116u8, 101u8, 120u8]
}

/// The vertices that the vertex blocks `bs` make, in order, each read from
/// its own block's keys.
pub open spec fn vertices_from_blocks(bs: Seq<(Seq<u8>, Seq<u8>)>) -> Seq<UdmfVertexModel> {
    bs.map_values(|blk: (Seq<u8>, Seq<u8>)| { let bd = blk.1; UdmfVertexModel { x: udmf_value(bd, seq![120u8]), y: udmf_value(bd, seq![121u8]) } })
}

proof fn lemma_vertices_from_keys(blocks: Seq<(Seq<u8>, Seq<u8>)>)
    ensures
        udmf_map_of(blocks).vertices =~= vertices_from_blocks(blocks.filter(|b: (Seq<u8>, Seq<u8>)| is_vertex_block(b))),
    decreases blocks.len(),
{
    reveal(Seq::filter);
    assert(KEY_X@ =~= seq![120u8]);
    assert(KEY_Y@ =~= seq![121u8]);
    assert(BLOCK_VERTEX@ =~= seq![118u8, 101u8, 114u8, 116u8, 101u8, 120u8]);
    let p = |b: (Seq<u8>, Seq<u8>)| is_vertex_block(b);
    if blocks.len() > 0 {
        let front = blocks.drop_last();
        let last = blocks.last();
        lemma_vertices_from_keys(front);
        assert(blocks.filter(p) == if p(last) {
            front.filter(p).push(last)
        } else {
            front.filter(p)
        });
        if p(last) {
            assert(vertices_from_blocks(front.filter(p).push(last)) =~= vertices_from_blocks(front.filter(p)).push(vertex_block(last.1)));
        }
    } else {
        assert(blocks.filter(p) =~= Seq::<(Seq<u8>, Seq<u8>)>::empty());
    }
}

/// Whether a block is a linedef block: its name is "linedef".
pub open spec fn is_linedef_block(b: (Seq<u8>, Seq<u8>)) -> bool {
    b.0 == seq![108u8, 105u8, 110u8, 101u8, 100u8, 101u8, 102u8]
}

/// The linedefs that the linedef blocks `bs` make, in order, each read from
/// its own block's keys.
pub open spec fn linedefs_from_blocks(bs: Seq<(Seq<u8>, Seq<u8>)>) -> Seq<LineDef> {
    bs.map_values(|blk: (Seq<u8>, Seq<u8>)| { let bd = blk.1; LineDef { start_vertex: u16_or(bd, seq![118u8, 49u8], 0), end_vertex: u16_or(bd, seq![118u8, 50u8], 0), special: u16_or(bd, seq![115u8, 112u8, 101u8, 99u8, 105u8, 97u8, 108u8], 0), tag: u16_or(bd, seq![105u8, 100u8], 0), right_sidedef: u16_or(bd, seq![115u8, 105u8, 100u8, 101u8, 102u8, 114u8, 111u8, 110u8, 116u8], 0xFFFF), left_sidedef: u16_or(bd, seq![115u8, 105u8, 100u8, 101u8, 98u8, 97u8, 99u8, 107u8], 0xFFFF) } })
}

proof fn lemma_linedefs_from_keys(blocks: Seq<(Seq<u8>, Seq<u8>)>)
    ensures
        udmf_map_of(blocks).linedefs =~= linedefs_from_blocks(blocks.filter(|b: (Seq<u8>, Seq<u8>)| is_linedef_block(b))),
    decreases blocks.len(),
{
    reveal(Seq::filter);
    assert(KEY_ID@ =~= seq![105u8, 100u8]);
    assert(KEY_SIDEBACK@ =~= seq![115u8, 105u8, 100u8, 101u8, 98u8, 97u8, 99u8, 107u8]);
    assert(KEY_SIDEFRONT@ =~= seq![115u8, 105u8, 100u8, 101u8, 102u8, 114u8, 111u8, 110u8, 116u8]);
    assert(KEY_SPECIAL@ =~= seq![115u8, 112u8, 101u8, 99u8, 105u8, 97u8, 108u8]);
    assert(KEY_V1@ =~= seq![118u8, 49u8]);
    assert(KEY_V2@ =~= seq![118u8, 50u8]);
    assert(BLOCK_LINEDEF@ =~= seq![108u8, 105u8, 110u8, 101u8, 100u8, 101u8, 102u8]);
    let p = |b: (Seq<u8>, Seq<u8>)| is_linedef_block(b);
    if blocks.len() > 0 {
        let front = blocks.drop_last();
        let last = blocks.last();
        lemma_linedefs_from_keys(front);
        assert(blocks.filter(p) == if p(last) {
            front.filter(p).push(last)
        } else {
            front.filter(p)
        });
        if p(last) {
            assert(linedefs_from_blocks(front.filter(p).push(last)) =~= linedefs_from_blocks(front.filter(p)).push(linedef_block(last.1)));
        }
    } else {
        assert(blocks.filter(p) =~= Seq::<(Seq<u8>, Seq<u8>)>::empty());
    }
}

/// Whether a block is a sidedef block: its name is "sidedef".
pub open spec fn is_sidedef_block(b: (Seq<u8>, Seq<u8>)) -> bool {
    b.0 == seq![115u8, 105u8, 100u8, 101u8, 100u8, 101u8, 102u8]
}

/// The sidedefs that the sidedef blocks `bs` make, in order, each read from
/// its own block's keys.
pub open spec fn sidedefs_from_blocks(bs: Seq<(Seq<u8>, Seq<u8>)>) -> Seq<SideDefModel> {
    bs.map_values(|blk: (Seq<u8>, Seq<u8>)| { let bd = blk.1; SideDefModel { upper_texture: text_or(bd, seq![116u8, 101u8, 120u8, 116u8, 117u8, 114u8, 101u8, 116u8, 111u8, 112u8], seq![45u8]), lower_texture: text_or(bd, seq![116u8, 101u8, 120u8, 116u8, 117u8, 114u8, 101u8, 98u8, 111u8, 116u8, 116u8, 111u8, 109u8], seq![45u8]), middle_texture: text_or(bd, seq![116u8, 101u8, 120u8, 116u8, 117u8, 114u8, 101u8, 109u8, 105u8, 100u8, 100u8, 108u8, 101u8], seq![45u8]), sector: u16_or(bd, seq![115u8, 101u8, 99u8, 116u8, 111u8, 114u8], 0) } })
}

proof fn lemma_sidedefs_from_keys(blocks: Seq<(Seq<u8>, Seq<u8>)>)
    ensures
        udmf_map_of(blocks).sidedefs =~= sidedefs_from_blocks(blocks.filter(|b: (Seq<u8>, Seq<u8>)| is_sidedef_block(b))),
    decreases blocks.len(),
{
    reveal(Seq::filter);
    assert(DEFAULT_SIDE_TEXTURE@ =~= seq![45u8]);
    assert(KEY_SECTOR@ =~= seq![115u8, 101u8, 99u8, 116u8, 111u8, 114u8]);
    assert(KEY_TEXTUREBOTTOM@ =~= seq![116u8, 101u8, 120u8, 116u8, 117u8, 114u8, 101u8, 98u8, 111u8, 116u8, 116u8, 111u8, 109u8]);
    assert(KEY_TEXTUREMIDDLE@ =~= seq![116u8, 101u8, 120u8, 116u8, 117u8, 114u8, 101u8, 109u8, 105u8, 100u8, 100u8, 108u8, 101u8]);
    assert(KEY_TEXTURETOP@ =~= seq![116u8, 101u8, 120u8, 116u8, 117u8, 114u8, 101u8, 116u8, 111u8, 112u8]);
    assert(BLOCK_SIDEDEF@ =~= seq![115u8, 105u8, 100u8, 101u8, 100u8, 101u8, 102u8]);
    let p = |b: (Seq<u8>, Seq<u8>)| is_sidedef_block(b);
    if blocks.len() > 0 {
        let front = blocks.drop_last();
        let last = blocks.last();
        lemma_sidedefs_from_keys(front);
        assert(blocks.filter(p) == if p(last) {
            front.filter(p).push(last)
        } else {
            front.filter(p)
        });
        if p(last) {
            assert(sidedefs_from_blocks(front.filter(p).push(last)) =~= sidedefs_from_blocks(front.filter(p)).push(sidedef_block(last.1)));
        }
    } else {
        assert(blocks.filter(p) =~= Seq::<(Seq<u8>, Seq<u8>)>::empty());
    }
}

/// Whether a block is a sector block: its name is "sector".
pub open spec fn is_sector_block(b: (Seq<u8>, Seq<u8>)) -> bool {
    b.0 == seq![115u8, 101u8, 99u8, 116u8, 111u8, 114u8]
}

/// The sectors that the sector blocks `bs` make, in order, each read from
/// its own block's keys.
pub open spec fn sectors_from_blocks(bs: Seq<(Seq<u8>, Seq<u8>)>) -> Seq<UdmfSectorModel> {
    bs.map_values(|blk: (Seq<u8>, Seq<u8>)| { let bd = blk.1; UdmfSectorModel { floor_height: udmf_value(bd, seq![104u8, 101u8, 105u8, 103u8, 104u8, 116u8, 102u8, 108u8, 111u8, 111u8, 114u8]), ceiling_height: udmf_value(bd, seq![104u8, 101u8, 105u8, 103u8, 104u8, 116u8, 99u8, 101u8, 105u8, 108u8, 105u8, 110u8, 103u8]), floor_texture: text_or(bd, seq![116u8, 101u8, 120u8, 116u8, 117u8, 114u8, 101u8, 102u8, 108u8, 111u8, 111u8, 114u8], seq![70u8, 76u8, 79u8, 79u8, 82u8]), ceiling_texture: text_or(bd, seq![116u8, 101u8, 120u8, 116u8, 117u8, 114u8, 101u8, 99u8, 101u8, 105u8, 108u8, 105u8, 110u8, 103u8], seq![67u8, 69u8, 73u8, 76u8]) } })
}

proof fn lemma_sectors_from_keys(blocks: Seq<(Seq<u8>, Seq<u8>)>)
    ensures
        udmf_map_of(blocks).sectors =~= sectors_from_blocks(blocks.filter(|b: (Seq<u8>, Seq<u8>)| is_sector_block(b))),
    decreases blocks.len(),
{
    reveal(Seq::filter);
    assert(DEFAULT_CEILING_TEXTURE@ =~= seq![67u8, 69u8, 73u8, 76u8]);
    assert(DEFAULT_FLOOR_TEXTURE@ =~= seq![70u8, 76u8, 79u8, 79u8, 82u8]);
    assert(KEY_HEIGHTCEILING@ =~= seq![104u8, 101u8, 105u8, 103u8, 104u8, 116u8, 99u8, 101u8, 105u8, 108u8, 105u8, 110u8, 103u8]);
    assert(KEY_HEIGHTFLOOR@ =~= seq![104u8, 101u8, 105u8, 103u8, 104u8, 116u8, 102u8, 108u8, 111u8, 111u8, 114u8]);
    assert(KEY_TEXTURECEILING@ =~= seq![116u8, 101u8, 120u8, 116u8, 117u8, 114u8, 101u8, 99u8, 101u8, 105u8, 108u8, 105u8, 110u8, 103u8]);
    assert(KEY_TEXTUREFLOOR@ =~= seq![116u8, 101u8, 120u8, 116u8, 117u8, 114u8, 101u8, 102u8, 108u8, 111u8, 111u8, 114u8]);
    assert(BLOCK_SECTOR@ =~= seq![115u8, 101u8, 99u8, 116u8, 111u8, 114u8]);
    let p = |b: (Seq<u8>, Seq<u8>)| is_sector_block(b);
    if blocks.len() > 0 {
        let front = blocks.drop_last();
        let last = blocks.last();
        lemma_sectors_from_keys(front);
        assert(blocks.filter(p) == if p(last) {
            front.filter(p).push(last)
        } else {
            front.filter(p)
        });
        if p(last) {
            assert(sectors_from_blocks(front.filter(p).push(last)) =~= sectors_from_blocks(front.filter(p)).push(sector_block(last.1)));
        }
    } else {
        assert(blocks.filter(p) =~= Seq::<(Seq<u8>, Seq<u8>)>::empty());
    }
}

/// The parts of a map come from its blocks of the matching kind, one each,
/// in text order, and every field from the key of that name in the part's
/// own block: a vertex's and a thing's position from "x" and "y", a thing's
/// angle from "angle" and type from "type"; a linedef's vertices from "v1"
/// and "v2", special from "special", tag from "id", sides from "sidefront"
/// and "sideback" (0xFFFF, no side, when missing); a sidedef's textures from
/// "texturetop", "texturebottom" and "texturemiddle" (upper-cased, "-" when
/// missing) and sector from "sector"; a sector's heights from "heightfloor"
/// and "heightceiling" and textures from "texturefloor" and
/// "textureceiling" ("FLOOR" and "CEIL" when missing).
pub proof fn lemma_udmf_fields_from_keys(blocks: Seq<(Seq<u8>, Seq<u8>)>)
    ensures
        udmf_map_of(blocks).things == things_from_blocks(blocks.filter(|b: (Seq<u8>, Seq<u8>)| is_thing_block(b))),
        udmf_map_of(blocks).vertices == vertices_from_blocks(blocks.filter(|b: (Seq<u8>, Seq<u8>)| is_vertex_block(b))),
        udmf_map_of(blocks).linedefs == linedefs_from_blocks(blocks.filter(|b: (Seq<u8>, Seq<u8>)| is_linedef_block(b))),
        udmf_map_of(blocks).sidedefs == sidedefs_from_blocks(blocks.filter(|b: (Seq<u8>, Seq<u8>)| is_sidedef_block(b))),
        udmf_map_of(blocks).sectors == sectors_from_blocks(blocks.filter(|b: (Seq<u8>, Seq<u8>)| is_sector_block(b))),
{
    lemma_things_from_keys(blocks);
    lemma_vertices_from_keys(blocks);
    lemma_linedefs_from_keys(blocks);
    lemma_sidedefs_from_keys(blocks);
    lemma_sectors_from_keys(blocks);
}

/// The map of a UDMF text: its blocks after comments are removed; an error
/// when there is no vertex or no linedef.
pub open spec fn parse_textmap(text: Seq<u8>) -> Result<UdmfMapModel, WadError> {
    let m = udmf_map_of(blocks_from(strip_comments(text), 0));
    if m.vertices.len() == 0 || m.linedefs.len() == 0 {
        Err(WadError::UdmfMissingGeometry)
    } else {
        Ok(m)
    }
}

/// For a parsed text map, its parts are read from the blocks of its text
/// (comments removed) as `lemma_udmf_fields_from_keys` says; in particular
/// each thing's position is the value of the keys "x" and "y" of its block.
pub proof fn lemma_textmap_fields_from_keys(text: Seq<u8>)
    ensures
        parse_textmap(text) matches Ok(m) ==> {
            let tb = blocks_from(strip_comments(text), 0).filter(|b: (Seq<u8>, Seq<u8>)| is_thing_block(b));
            &&& m.things.len() == tb.len()
            &&& forall|t: int|
                0 <= t < tb.len() ==> (#[trigger] m.things[t]).x == udmf_value(tb[t].1, seq![120u8])
                    && m.things[t].y == udmf_value(tb[t].1, seq![121u8])
            &&& m == UdmfMapModel {
                vertices: vertices_from_blocks(blocks_from(strip_comments(text), 0).filter(|b: (Seq<u8>, Seq<u8>)| is_vertex_block(b))),
                linedefs: linedefs_from_blocks(blocks_from(strip_comments(text), 0).filter(|b: (Seq<u8>, Seq<u8>)| is_linedef_block(b))),
                sidedefs: sidedefs_from_blocks(blocks_from(strip_comments(text), 0).filter(|b: (Seq<u8>, Seq<u8>)| is_sidedef_block(b))),
                sectors: sectors_from_blocks(blocks_from(strip_comments(text), 0).filter(|b: (Seq<u8>, Seq<u8>)| is_sector_block(b))),
                things: things_from_blocks(tb),
            }
        },
{
    lemma_udmf_fields_from_keys(blocks_from(strip_comments(text), 0));
}

fn u16_or_exec(body: &[u8], key: &[u8], d: u16) -> (r: u16)
    ensures
        r == u16_or(body@, key@, d),
{
    match parse_udmf_u16(body, key) {
        Some(x) => x,
        None => d,
    }
}

fn text_or_exec(body: &[u8], key: &[u8], d: &[u8]) -> (r: Vec<u8>)
    ensures
        r@ == text_or(body@, key@, d@),
{
    match parse_udmf_string(body, key) {
        Some(v) => upper_copy(v.as_slice()),
        None => upper_copy(d),
    }
}

/// Reads a UDMF text map: strips comments, then reads blocks until none
/// follows, keeping vertex, linedef, sidedef, sector and thing blocks.
pub fn parse_udmf_textmap(text: &str) -> (r: Result<UdmfMap, WadError>)
    ensures
        match parse_textmap(encode_utf8(text@)) {
            Ok(m) => r matches Ok(v) && v@ == m,
            Err(e) => r matches Err(e2) && e2 == e,
        },
{
    let stripped = strip_udmf_comments(text.as_bytes());
    let ghost s = stripped@;
    let mut map = UdmfMap {
        vertices: Vec::new(),
        linedefs: Vec::new(),
        sidedefs: Vec::new(),
        sectors: Vec::new(),
        things: Vec::new(),
    };
    let ghost mut seen: Seq<(Seq<u8>, Seq<u8>)> = Seq::empty();
    proof {
        assert(map@.vertices =~= Seq::<UdmfVertexModel>::empty());
        assert(map@.sidedefs =~= Seq::<SideDefModel>::empty());
        assert(map@.sectors =~= Seq::<UdmfSectorModel>::empty());
        assert(map@.things =~= Seq::<UdmfThingModel>::empty());
        assert(seen + blocks_from(s, 0) =~= blocks_from(s, 0));
    }
    let mut cursor: usize = 0;
    loop
        invariant
            s == stripped@,
            s == strip_comments(encode_utf8(text@)),
            cursor <= s.len(),
            map@ == udmf_map_of(seen),
            seen + blocks_from(s, cursor as nat) == blocks_from(s, 0),
        ensures
            map@ == udmf_map_of(blocks_from(s, 0)),
        decreases s.len() - cursor,
    {
        let (name, body, next) = match next_udmf_block(stripped.as_slice(), cursor) {
            None => {
                assert(seen =~= blocks_from(s, 0));
                break ;
            },
            Some(t) => t,
        };
        proof {
            lemma_next_block_advances(s, cursor as nat);
            assert(seen.push((name@, body@)).drop_last() =~= seen);
            assert(seen.push((name@, body@)) + blocks_from(s, next as nat) =~= seen + blocks_from(
                s,
                cursor as nat,
            ));
        }
        let b = body.as_slice();
        if bytes_eq(name.as_slice(), BLOCK_VERTEX.as_slice()) {
            let v = UdmfVertex {
                x: extract_udmf_value(b, KEY_X.as_slice()),
                y: extract_udmf_value(b, KEY_Y.as_slice()),
            };
            map.vertices.push(v);
        } else if bytes_eq(name.as_slice(), BLOCK_LINEDEF.as_slice()) {
            let l = LineDef {
                start_vertex: u16_or_exec(b, KEY_V1.as_slice(), 0),
                end_vertex: u16_or_exec(b, KEY_V2.as_slice(), 0),
                special: u16_or_exec(b, KEY_SPECIAL.as_slice(), 0),
                tag: u16_or_exec(b, KEY_ID.as_slice(), 0),
                right_sidedef: u16_or_exec(b, KEY_SIDEFRONT.as_slice(), 0xFFFF),
                left_sidedef: u16_or_exec(b, KEY_SIDEBACK.as_slice(), 0xFFFF),
            };
            map.linedefs.push(l);
        } else if bytes_eq(name.as_slice(), BLOCK_SIDEDEF.as_slice()) {
            let sd = SideDef {
                upper_texture: text_or_exec(b, KEY_TEXTURETOP.as_slice(), DEFAULT_SIDE_TEXTURE.as_slice()),
                lower_texture: text_or_exec(b, KEY_TEXTUREBOTTOM.as_slice(), DEFAULT_SIDE_TEXTURE.as_slice()),
                middle_texture: text_or_exec(b, KEY_TEXTUREMIDDLE.as_slice(), DEFAULT_SIDE_TEXTURE.as_slice()),
                sector: u16_or_exec(b, KEY_SECTOR.as_slice(), 0),
            };
            map.sidedefs.push(sd);
        } else if bytes_eq(name.as_slice(), BLOCK_SECTOR.as_slice()) {
            let sc = UdmfSector {
                floor_height: extract_udmf_value(b, KEY_HEIGHTFLOOR.as_slice()),
                ceiling_height: extract_udmf_value(b, KEY_HEIGHTCEILING.as_slice()),
                floor_texture: text_or_exec(b, KEY_TEXTUREFLOOR.as_slice(), DEFAULT_FLOOR_TEXTURE.as_slice()),
                ceiling_texture: text_or_exec(b, KEY_TEXTURECEILING.as_slice(), DEFAULT_CEILING_TEXTURE.as_slice()),
            };
            map.sectors.push(sc);
        } else if bytes_eq(name.as_slice(), BLOCK_THING.as_slice()) {
            let t = UdmfThing {
                x: extract_udmf_value(b, KEY_X.as_slice()),
                y: extract_udmf_value(b, KEY_Y.as_slice()),
                angle: extract_udmf_value(b, KEY_ANGLE.as_slice()),
                kind: u16_or_exec(b, KEY_TYPE.as_slice(), 0),
            };
            map.things.push(t);
        }
        proof {
            let ghost next_seen = seen.push((name@, body@));
            assert(map@.vertices =~= udmf_map_of(next_seen).vertices);
            assert(map@.linedefs =~= udmf_map_of(next_seen).linedefs);
            assert(map@.sidedefs =~= udmf_map_of(next_seen).sidedefs);
            assert(map@.sectors =~= udmf_map_of(next_seen).sectors);
            assert(map@.things =~= udmf_map_of(next_seen).things);
            seen = next_seen;
        }
        cursor = next;
    }
    if map.vertices.len() == 0 || map.linedefs.len() == 0 {
        return Err(WadError::UdmfMissingGeometry);
    }
    Ok(map)
}

// ---------------------------------------------------------------------------
// Archive entry names
// ---------------------------------------------------------------------------

/// "/TEXTMAP"
pub const SLASH_TEXTMAP: [u8; 8] = [47, 84, 69, 88, 84, 77, 65, 80];

/// "TEXTMAP"
pub const TEXTMAP: [u8; 7] = [84, 69, 88, 84, 77, 65, 80];

/// `s` with every `\` made `/`.
pub open spec fn forward_slashes(s: Seq<u8>) -> Seq<u8> {
    Seq::new(s.len(), |i: int| if s[i] == 92 { 47u8 } else { s[i] })
}

/// The end of `s[..j]` without trailing `/`.
pub open spec fn trim_slashes_end(s: Seq<u8>, j: nat) -> nat
    decreases j,
{
    if j > 0 && j <= s.len() && s[j - 1] == 47 {
        trim_slashes_end(s, (j - 1) as nat)
    } else {
        j
    }
}

/// The position of the last `/` in `s[..j]`.
pub open spec fn last_slash(s: Seq<u8>, j: nat) -> Option<nat>
    decreases j,
{
    if j == 0 || j > s.len() {
        None
    } else if s[j - 1] == 47 {
        Some((j - 1) as nat)
    } else {
        last_slash(s, (j - 1) as nat)
    }
}

/// The last `/` before `j` is the one at `k` when none follows it before `j`.
proof fn lemma_last_slash_at(s: Seq<u8>, j: nat, k: nat)
    requires
        k < j <= s.len(),
        s[k as int] == 47,
        forall|m: int| k < m < j ==> s[m] != 47,
    ensures
        last_slash(s, j) == Some(k),
    decreases j,
{
    if j - 1 != k {
        lemma_last_slash_at(s, (j - 1) as nat, k);
    }
}

/// Text of printable ASCII without spaces is unchanged by trimming.
proof fn lemma_utrim_printable(s: Seq<u8>)
    requires
        s.len() > 0,
        forall|k: int| 0 <= k < s.len() ==> 33 <= #[trigger] s[k] <= 126,
    ensures
        utrim(s) == s,
{
    assert(ws_len_at(s, 0) == 0);
    assert(skip_uws(s, 0) == 0);
    let n = s.len() as int;
    assert(33 <= s[n - 1] <= 126);
    if n >= 2 {
        assert(33 <= s[n - 2] <= 126);
    }
    if n >= 3 {
        assert(33 <= s[n - 3] <= 126);
    }
    assert(ws_len_before(s, n) == 0);
    assert(back_uws(s, 0, s.len()) == s.len());
    assert(utrim(s) =~= s);
}

/// The map of a text map entry is the directory just above the TEXTMAP
/// file: for any path, the entry `path/DIR/TEXTMAP`, with `DIR` a name of
/// letters, digits and underscores, holds the map `DIR` in upper case,
/// however deep the path and whichever slashes it uses.
pub proof fn lemma_textmap_dir_name(path: Seq<u8>, dir: Seq<u8>)
    requires
        dir.len() > 0,
        forall|k: int|
            0 <= k < dir.len() ==> (48 <= #[trigger] dir[k] <= 57) || (65 <= dir[k] <= 90) || (97 <= dir[k]
                <= 122) || dir[k] == 95,
    ensures
        textmap_map_name(path + seq![47u8] + dir + seq![47u8, 84u8, 69u8, 88u8, 84u8, 77u8, 65u8, 80u8])
            == Some(upper(dir)),
{
    let st = seq![47u8, 84u8, 69u8, 88u8, 84u8, 77u8, 65u8, 80u8];
    let e = path + seq![47u8] + dir + st;
    let n = forward_slashes(e);
    let fp = forward_slashes(path);
    let kk = path.len();
    let l = (n.len() - 8) as nat;
    assert(n =~= fp + seq![47u8] + dir + st);
    let u = upper(n);
    assert(u.subrange(u.len() - 8, u.len() as int) =~= SLASH_TEXTMAP@);
    assert(trim_slashes_end(n, n.len()) == n.len());
    let t = n.subrange(0, trim_slashes_end(n, n.len()) as int);
    assert(t =~= n);
    assert forall|m: int| l < m < t.len() implies t[m] != 47 by {
        assert(t[m] == st[m - l]);
    }
    lemma_last_slash_at(t, t.len(), l);
    assert forall|m: int| kk < m < l implies t[m] != 47 by {
        assert(t[m] == dir[m - kk - 1]);
    }
    lemma_last_slash_at(t, l, kk);
    assert(t.subrange(kk + 1int, l as int) =~= dir);
    lemma_utrim_printable(dir);
}

/// The map that an archive entry named `.../NAME/TEXTMAP` holds: the
/// directory just above the TEXTMAP file, trimmed and upper-cased, with `\`
/// read as `/` and the file name compared without case. `None` for other
/// entries, for a bare `TEXTMAP`, and for an empty directory name.
pub open spec fn textmap_map_name(entry: Seq<u8>) -> Option<Seq<u8>> {
    let n = forward_slashes(entry);
    let u = upper(n);
    let is_textmap = (u.len() >= 8 && u.subrange(u.len() - 8, u.len() as int) == SLASH_TEXTMAP@)
        || u == TEXTMAP@;
    if !is_textmap {
        None
    } else {
        let t = n.subrange(0, trim_slashes_end(n, n.len()) as int);
        match last_slash(t, t.len()) {
            None => None,
            Some(l) => {
                let p: nat = match last_slash(t, l) {
                    None => 0,
                    Some(q) => q + 1,
                };
                let name = upper(utrim(t.subrange(p as int, l as int)));
                if name.len() == 0 {
                    None
                } else {
                    Some(name)
                }
            },
        }
    }
}

pub proof fn lemma_trim_slashes_end_bound(s: Seq<u8>, j: nat)
    requires
        j <= s.len(),
    ensures
        trim_slashes_end(s, j) <= j,
    decreases j,
{
    if j > 0 && s[j - 1] == 47 {
        lemma_trim_slashes_end_bound(s, (j - 1) as nat);
    }
}

pub proof fn lemma_last_slash_bound(s: Seq<u8>, j: nat)
    ensures
        last_slash(s, j) matches Some(l) ==> l < j && j <= s.len() && s[l as int] == 47,
    decreases j,
{
    if j > 0 && j <= s.len() && s[j - 1] != 47 {
        lemma_last_slash_bound(s, (j - 1) as nat);
    }
}

fn last_slash_exec(s: &[u8], j: usize) -> (r: Option<usize>)
    requires
        j <= s@.len(),
    ensures
        match last_slash(s@, j as nat) {
            None => r is None,
            Some(l) => r == Some(l as usize),
        },
{
    let mut k = j;
    while k > 0 && s[k - 1] != 47
        invariant
            k <= j <= s@.len(),
            last_slash(s@, k as nat) == last_slash(s@, j as nat),
        decreases k,
    {
        k = k - 1;
    }
    if k == 0 {
        None
    } else {
        Some(k - 1)
    }
}

/// The map name that an archive entry holding a UDMF text map stands for;
/// see `textmap_map_name`.
pub fn infer_map_name_from_textmap_path(entry_name: &str) -> (r: Option<Vec<u8>>)
    ensures
        match textmap_map_name(encode_utf8(entry_name@)) {
            None => r is None,
            Some(m) => r matches Some(v) && v@ == m,
        },
{
    let raw = entry_name.as_bytes();
    let mut n: Vec<u8> = Vec::new();
    let mut i: usize = 0;
    while i < raw.len()
        invariant
            i <= raw@.len(),
            n@ == forward_slashes(raw@.take(i as int)),
        decreases raw@.len() - i,
    {
        let b = if raw[i] == 92 {
            47
        } else {
            raw[i]
        };
        n.push(b);
        proof {
            assert(n@ =~= forward_slashes(raw@.take(i + 1)));
        }
        i = i + 1;
    }
    assert(raw@.take(raw@.len() as int) =~= raw@);
    let u = upper_copy(n.as_slice());
    let len = u.len();
    let mut ends = len >= 8;
    if ends {
        let mut k: usize = 0;
        while k < 8
            invariant
                len == u@.len(),
                len >= 8,
                k <= 8,
                ends == (forall|m: int| 0 <= m < k ==> u@[len - 8 + m] == SLASH_TEXTMAP@[m]),
            decreases 8 - k,
        {
            if u[len - 8 + k] != SLASH_TEXTMAP[k] {
                ends = false;
            }
            k = k + 1;
        }
        assert(ends == (u@.subrange(len - 8, len as int) =~= SLASH_TEXTMAP@));
    }
    let bare = bytes_eq(u.as_slice(), TEXTMAP.as_slice());
    if !ends && !bare {
        return None;
    }
    let mut t_end = n.len();
    while t_end > 0 && n[t_end - 1] == 47
        invariant
            t_end <= n@.len(),
            trim_slashes_end(n@, t_end as nat) == trim_slashes_end(n@, n@.len()),
        decreases t_end,
    {
        t_end = t_end - 1;
    }
    let t = copy_range(n.as_slice(), 0, t_end);
    let l = match last_slash_exec(t.as_slice(), t.len()) {
        None => {
            return None;
        },
        Some(l) => l,
    };
    proof {
        lemma_last_slash_bound(t@, t@.len());
        lemma_last_slash_bound(t@, l as nat);
    }
    let p = match last_slash_exec(t.as_slice(), l) {
        None => 0,
        Some(q) => q + 1,
    };
    let parent = copy_range(t.as_slice(), p, l);
    let trimmed = trim_text(parent.as_slice());
    let name = upper_copy(trimmed.as_slice());
    if name.len() == 0 {
        None
    } else {
        Some(name)
    }
}

} // verus!
