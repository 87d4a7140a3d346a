//! Approximate text metrics.
//!
//! Widths come from a fixed table of glyph widths for a proportional
//! sans-serif face at a 14 pixel reference size, scaled linearly by the font
//! size. No font is ever loaded.

use vstd::prelude::*;

use crate::strings::{string_of, texts, to_chars};
use crate::units::{capped, max_int};

verus! {

/// Font size, in pixels, at which the glyph table is stated.
pub const REFERENCE_FONT_SIZE: i64 = 14;

/// Units per pixel of glyph width and per pixel of font size:
/// `UNITS_PER_PX / REFERENCE_FONT_SIZE`.
pub const GLYPH_SCALE: i64 = 10;

/// Width of one glyph at the reference size, in pixels.
pub open spec fn glyph_width(c: char) -> int {
    match c {
        'i' | 'j' | 'l' | '!' | '|' | '.' | ',' | ':' | ';' | '\'' | '`' => 4,
        'I' | 'f' | 't' | 'r' => 5,
        ' ' | '-' | '(' | ')' | '[' | ']' | '{' | '}' => 5,
        'a' | 'b' | 'c' | 'd' | 'e' | 'g' | 'h' | 'k' | 'n' | 'o' | 'p' | 'q' | 's' | 'u' | 'v'
        | 'x' | 'y' | 'z' => 7,
        'w' | 'm' => 10,
        'A' | 'B' | 'C' | 'D' | 'E' | 'F' | 'G' | 'H' | 'K' | 'L' | 'N' | 'O' | 'P' | 'Q' | 'R'
        | 'S' | 'T' | 'U' | 'V' | 'X' | 'Y' | 'Z' => 9,
        'M' | 'W' => 11,
        '0'..='9' => 7,
        '@' | '#' | '$' | '%' | '&' | '+' | '=' | '<' | '>' | '?' | '/' | '\\' | '"' | '*' => 8,
        _ => 7,
    }
}

/// Sum of the glyph widths of `text` at the reference size, in pixels.
pub open spec fn base_width(text: Seq<char>) -> int
    decreases text.len(),
{
    if text.len() == 0 {
        0
    } else {
        base_width(text.drop_last()) + glyph_width(text.last())
    }
}

/// Width of `text` set at `font_size` pixels, in units.
pub open spec fn text_width_spec(text: Seq<char>, font_size: int) -> int {
    base_width(text) * font_size * GLYPH_SCALE
}

fn char_width(c: char) -> (w: i64)
    ensures
        w == glyph_width(c),
        4 <= w <= 11,
{
    match c {
        'i' | 'j' | 'l' | '!' | '|' | '.' | ',' | ':' | ';' | '\'' | '`' => 4,
        'I' | 'f' | 't' | 'r' => 5,
        ' ' | '-' | '(' | ')' | '[' | ']' | '{' | '}' => 5,
        'a' | 'b' | 'c' | 'd' | 'e' | 'g' | 'h' | 'k' | 'n' | 'o' | 'p' | 'q' | 's' | 'u' | 'v'
        | 'x' | 'y' | 'z' => 7,
        'w' | 'm' => 10,
        'A' | 'B' | 'C' | 'D' | 'E' | 'F' | 'G' | 'H' | 'K' | 'L' | 'N' | 'O' | 'P' | 'Q' | 'R'
        | 'S' | 'T' | 'U' | 'V' | 'X' | 'Y' | 'Z' => 9,
        'M' | 'W' => 11,
        '0'..='9' => 7,
        '@' | '#' | '$' | '%' | '&' | '+' | '=' | '<' | '>' | '?' | '/' | '\\' | '"' | '*' => 8,
        _ => 7,
    }
}


/// A longer text is never narrower: the width of a prefix is at most the
/// width of the whole, and every glyph is at least 4 and at most 11 wide.
pub proof fn lemma_base_width_prefix(text: Seq<char>, n: int)
    requires
        0 <= n <= text.len(),
    ensures
        0 <= 4 * n <= base_width(text.take(n)) <= base_width(text),
        base_width(text.take(n)) <= 11 * n,
    decreases text.len() - n,
{
    lemma_base_width_bounds(text.take(n));
    if n < text.len() {
        lemma_base_width_prefix(text, n + 1);
        assert(text.take(n + 1).drop_last() =~= text.take(n));
    } else {
        assert(text.take(n) =~= text);
    }
}

/// Every glyph is between 4 and 11 pixels wide at the reference size.
pub proof fn lemma_base_width_bounds(text: Seq<char>)
    ensures
        4 * text.len() <= base_width(text) <= 11 * text.len(),
    decreases text.len(),
{
    if text.len() > 0 {
        lemma_base_width_bounds(text.drop_last());
    }
}

/// Width is linear in the font size: at `k` times the size, every text is
/// exactly `k` times as wide.
pub proof fn text_width_scales_linearly(text: Seq<char>, font_size: int, k: int)
    ensures
        text_width_spec(text, k * font_size) == k * text_width_spec(text, font_size),
        text_width_spec(text, 2 * font_size) == 2 * text_width_spec(text, font_size),
{
    let b = base_width(text);
    assert(b * (k * font_size) * GLYPH_SCALE == k * (b * font_size * GLYPH_SCALE))
        by (nonlinear_arith);
    assert(b * (2 * font_size) * GLYPH_SCALE == 2 * (b * font_size * GLYPH_SCALE))
        by (nonlinear_arith);
}

/// Approximate width of `text` set at `font_size` pixels, in units: the sum
/// of its glyph widths at the reference size, scaled by `font_size / 14`.
/// The result is wide enough for every text at every font size.
pub fn text_width(text: &str, font_size: u32) -> (w: i128)
    ensures
        w == text_width_spec(text@, font_size as int),
        w >= 0,
{
    let count: usize = text.unicode_len();
    proof {
        lemma_base_width_bounds(text@);
        assert(base_width(text@) * font_size * GLYPH_SCALE >= 0) by (nonlinear_arith)
            requires
                base_width(text@) >= 0,
                font_size >= 0,
        ;
    }
    let mut base: i128 = 0;
    for c in it: text.chars()
        invariant
            it.seq() == text@,
            count == text@.len(),
            base == base_width(text@.take(it.index() as int)),
    {
        proof {
            let n = it.index() as int;
            lemma_base_width_prefix(text@, n + 1);
            assert(text@.take(n + 1).drop_last() =~= text@.take(n));
            assert(text@.take(n + 1).last() == c);
        }
        base = base + (char_width(c) as i128);
    }
    proof {
        assert(text@.take(text@.len() as int) =~= text@);
        assert(0 <= base * font_size <= 11 * 0x1_0000_0000_0000_0000 * 0x1_0000_0000)
            by (nonlinear_arith)
            requires
                0 <= base <= 11 * 0x1_0000_0000_0000_0000,
                0 <= font_size <= 0x1_0000_0000,
        ;
        assert(GLYPH_SCALE == 10);
    }
    base * (font_size as i128) * 10
}

/// Whether `c` is white space: the characters that trimming removes.
pub open spec fn is_whitespace(c: char) -> bool {
    match c {
        '\u{9}'..='\u{d}' | ' ' | '\u{85}' | '\u{a0}' | '\u{1680}' => true,
        '\u{2000}'..='\u{200a}' | '\u{2028}' | '\u{2029}' | '\u{202f}' | '\u{205f}' | '\u{3000}' => true,
        _ => false,
    }
}

/// Whether the marker `<br>` starts at position `i` of `text`.
pub open spec fn is_br(text: Seq<char>, i: int) -> bool {
    &&& 0 <= i
    &&& i + 4 <= text.len()
    &&& text[i] == '<'
    &&& text[i + 1] == 'b'
    &&& text[i + 2] == 'r'
    &&& text[i + 3] == '>'
}

/// Whether the marker `<br/>` starts at position `i` of `text`.
pub open spec fn is_br_slash(text: Seq<char>, i: int) -> bool {
    &&& 0 <= i
    &&& i + 5 <= text.len()
    &&& text[i] == '<'
    &&& text[i + 1] == 'b'
    &&& text[i + 2] == 'r'
    &&& text[i + 3] == '/'
    &&& text[i + 4] == '>'
}

/// Length of the line break that starts at position `i` of `text`: 5 for
/// `<br/>`, 4 for `<br>`, 1 for a newline, and 0 where no break starts.
pub open spec fn break_len(text: Seq<char>, i: int) -> int {
    if is_br_slash(text, i) {
        5
    } else if is_br(text, i) {
        4
    } else if 0 <= i < text.len() && text[i] == '\n' {
        1
    } else {
        0
    }
}

/// First position at or after `i` that holds no white space.
pub open spec fn skip_whitespace(s: Seq<char>, i: int) -> int
    decreases s.len() - i,
{
    if 0 <= i < s.len() && is_whitespace(s[i]) {
        skip_whitespace(s, i + 1)
    } else {
        i
    }
}

/// End of the last stretch before `j` that ends in no white space.
pub open spec fn skip_whitespace_back(s: Seq<char>, j: int) -> int
    decreases j,
{
    if 0 < j <= s.len() && is_whitespace(s[j - 1]) {
        skip_whitespace_back(s, j - 1)
    } else {
        j
    }
}

/// `s` without its leading and trailing white space.
pub open spec fn trim(s: Seq<char>) -> Seq<char> {
    let a = skip_whitespace(s, 0);
    let b = skip_whitespace_back(s, s.len() as int);
    if a < b {
        s.subrange(a, b)
    } else {
        Seq::empty()
    }
}

/// What one stretch between two breaks contributes: itself trimmed, or
/// nothing when that leaves it empty.
pub open spec fn line_of(piece: Seq<char>) -> Seq<Seq<char>> {
    if trim(piece).len() > 0 {
        seq![trim(piece)]
    } else {
        Seq::empty()
    }
}

/// The lines of `text` from position `i` on, where the stretch since the
/// last break began at `start`.
pub open spec fn lines_from(text: Seq<char>, start: int, i: int) -> Seq<Seq<char>>
    decreases text.len() - i,
{
    if 0 <= start <= i < text.len() {
        let k = break_len(text, i);
        if k > 0 {
            line_of(text.subrange(start, i)) + lines_from(text, i + k, i + k)
        } else {
            lines_from(text, start, i + 1)
        }
    } else if 0 <= start <= i == text.len() {
        line_of(text.subrange(start, i))
    } else {
        Seq::empty()
    }
}

/// The lines of `text`: the stretches between line breaks (`<br/>`, `<br>`
/// and newline), each trimmed, the empty ones dropped.
pub open spec fn split_lines_spec(text: Seq<char>) -> Seq<Seq<char>> {
    lines_from(text, 0, 0)
}

/// A line as splitting leaves it: not empty, no white space at either end,
/// and no line break anywhere in it.
pub open spec fn is_plain_line(line: Seq<char>) -> bool {
    &&& line.len() > 0
    &&& !is_whitespace(line.first())
    &&& !is_whitespace(line.last())
    &&& forall|j: int| 0 <= j < line.len() ==> break_len(line, j) == 0
}

/// Whether `text` holds nothing but white space.
pub open spec fn is_blank(text: Seq<char>) -> bool {
    forall|j: int| 0 <= j < text.len() ==> is_whitespace(#[trigger] text[j])
}

fn is_space(c: char) -> (r: bool)
    ensures
        r == is_whitespace(c),
{
    match c {
        '\u{9}'..='\u{d}' | ' ' | '\u{85}' | '\u{a0}' | '\u{1680}' => true,
        '\u{2000}'..='\u{200a}' | '\u{2028}' | '\u{2029}' | '\u{202f}' | '\u{205f}' | '\u{3000}' => true,
        _ => false,
    }
}

fn break_at(chars: &Vec<char>, i: usize) -> (k: usize)
    requires
        i < chars.len(),
    ensures
        k == break_len(chars@, i as int),
        i + k <= chars.len(),
{
    let n: usize = chars.len();
    if chars[i] == '\n' {
        1
    } else if chars[i] == '<' && n - i >= 4 && chars[i + 1] == 'b' && chars[i + 2] == 'r' {
        if chars[i + 3] == '>' {
            4
        } else if n - i >= 5 && chars[i + 3] == '/' && chars[i + 4] == '>' {
            5
        } else {
            0
        }
    } else {
        0
    }
}

fn push_trimmed(out: &mut Vec<String>, chars: &Vec<char>, from: usize, to: usize)
    requires
        from <= to <= chars.len(),
    ensures
        texts(final(out)@) == texts(old(out)@) + line_of(chars@.subrange(from as int, to as int)),
{
    let ghost piece = chars@.subrange(from as int, to as int);
    let mut a: usize = from;
    while a < to && is_space(chars[a])
        invariant
            from <= a <= to <= chars.len(),
            piece == chars@.subrange(from as int, to as int),
            skip_whitespace(piece, 0) == skip_whitespace(piece, a - from),
        decreases to - a,
    {
        a = a + 1;
    }
    let mut b: usize = to;
    while b > from && is_space(chars[b - 1])
        invariant
            from <= b <= to <= chars.len(),
            piece == chars@.subrange(from as int, to as int),
            skip_whitespace_back(piece, piece.len() as int) == skip_whitespace_back(piece, b - from),
        decreases b,
    {
        b = b - 1;
    }
    if a < b {
        let line = string_of(chars, a, b);
        proof {
            assert(line@ =~= trim(piece));
            assert(texts(out@.push(line)) =~= texts(out@) + line_of(piece));
        }
        out.push(line);
    } else {
        assert(texts(out@) + line_of(piece) =~= texts(out@));
    }
}

/// Splits `text` into its display lines.
///
/// `<br/>`, `<br>` and newline each end a line. Every line is trimmed, and a
/// line that is then empty is left out, so an empty or blank text has no
/// lines at all.
pub fn split_by_line_breaks(text: &str) -> (lines: Vec<String>)
    ensures
        texts(lines@) == split_lines_spec(text@),
        forall|k: int| 0 <= k < lines@.len() ==> is_plain_line(#[trigger] lines@[k]@),
{
    let chars = to_chars(text);
    let n: usize = chars.len();
    let mut out: Vec<String> = Vec::new();
    let mut start: usize = 0;
    let mut i: usize = 0;
    assert(texts(out@) + lines_from(chars@, 0, 0) =~= split_lines_spec(chars@));
    while i < n
        invariant
            start <= i <= n,
            n == chars.len(),
            texts(out@) + lines_from(chars@, start as int, i as int) == split_lines_spec(chars@),
        decreases n - i,
    {
        let k: usize = break_at(&chars, i);
        if k > 0 {
            let ghost before = texts(out@);
            push_trimmed(&mut out, &chars, start, i);
            proof {
                let piece = line_of(chars@.subrange(start as int, i as int));
                let rest = lines_from(chars@, i + k, i + k);
                assert((before + piece) + rest =~= before + (piece + rest));
            }
            i = i + k;
            start = i;
        } else {
            i = i + 1;
        }
    }
    let ghost before = texts(out@);
    push_trimmed(&mut out, &chars, start, n);
    proof {
        lemma_lines_are_plain(text@, 0, 0);
        assert(texts(out@) == split_lines_spec(text@));
        assert forall|k: int| 0 <= k < out@.len() implies is_plain_line(#[trigger] out@[k]@) by {
            assert(texts(out@)[k] == out@[k]@);
        }
    }
    out
}

/// A trimmed text has no white space at either end.
pub proof fn lemma_trim_is_trimmed(s: Seq<char>)
    ensures
        trim(s).len() > 0 ==> !is_whitespace(trim(s).first()) && !is_whitespace(trim(s).last()),
        trim(s).len() > 0 ==> trim(s) == s.subrange(
            skip_whitespace(s, 0),
            skip_whitespace_back(s, s.len() as int),
        ),
        0 <= skip_whitespace(s, 0) <= s.len(),
        0 <= skip_whitespace_back(s, s.len() as int) <= s.len(),
{
    lemma_skip_whitespace(s, 0);
    lemma_skip_whitespace_back(s, s.len() as int);
}

/// Where skipping white space forward stops.
pub proof fn lemma_skip_whitespace(s: Seq<char>, i: int)
    requires
        0 <= i <= s.len(),
    ensures
        i <= skip_whitespace(s, i) <= s.len(),
        skip_whitespace(s, i) < s.len() ==> !is_whitespace(s[skip_whitespace(s, i)]),
        forall|j: int| i <= j < skip_whitespace(s, i) ==> is_whitespace(#[trigger] s[j]),
    decreases s.len() - i,
{
    if i < s.len() && is_whitespace(s[i]) {
        lemma_skip_whitespace(s, i + 1);
    }
}

/// Where skipping white space backward stops.
pub proof fn lemma_skip_whitespace_back(s: Seq<char>, j: int)
    requires
        0 <= j <= s.len(),
    ensures
        0 <= skip_whitespace_back(s, j) <= j,
        skip_whitespace_back(s, j) > 0 ==> !is_whitespace(s[skip_whitespace_back(s, j) - 1]),
        forall|k: int| skip_whitespace_back(s, j) <= k < j ==> is_whitespace(#[trigger] s[k]),
    decreases j,
{
    if 0 < j && is_whitespace(s[j - 1]) {
        lemma_skip_whitespace_back(s, j - 1);
    }
}

/// Every line that splitting produces is a plain line, provided that no
/// break starts between `start` and `i`.
pub proof fn lemma_lines_are_plain(text: Seq<char>, start: int, i: int)
    requires
        0 <= start <= i <= text.len(),
        forall|p: int| start <= p < i ==> break_len(text, p) == 0,
    ensures
        forall|k: int|
            0 <= k < lines_from(text, start, i).len() ==> is_plain_line(
                #[trigger] lines_from(text, start, i)[k],
            ),
    decreases text.len() - i,
{
    if i < text.len() {
        let k = break_len(text, i);
        if k > 0 {
            lemma_piece_line_is_plain(text, start, i);
            lemma_lines_are_plain(text, i + k, i + k);
            let head = line_of(text.subrange(start, i));
            let tail = lines_from(text, i + k, i + k);
            assert forall|j: int| 0 <= j < (head + tail).len() implies is_plain_line(
                #[trigger] (head + tail)[j],
            ) by {
                if j < head.len() {
                    assert((head + tail)[j] == head[j]);
                } else {
                    assert((head + tail)[j] == tail[j - head.len()]);
                }
            }
            assert(lines_from(text, start, i) == head + tail);
        } else {
            lemma_lines_are_plain(text, start, i + 1);
            assert(lines_from(text, start, i) == lines_from(text, start, i + 1));
        }
    } else {
        lemma_piece_line_is_plain(text, start, i);
        assert(lines_from(text, start, i) == line_of(text.subrange(start, i)));
    }
}

/// The line of a stretch in which no break starts is a plain line.
pub proof fn lemma_piece_line_is_plain(text: Seq<char>, start: int, end: int)
    requires
        0 <= start <= end <= text.len(),
        forall|p: int| start <= p < end ==> break_len(text, p) == 0,
    ensures
        forall|k: int|
            0 <= k < line_of(text.subrange(start, end)).len() ==> is_plain_line(
                #[trigger] line_of(text.subrange(start, end))[k],
            ),
{
    let piece = text.subrange(start, end);
    lemma_trim_is_trimmed(piece);
    let line = trim(piece);
    if line.len() > 0 {
        let a = skip_whitespace(piece, 0);
        assert forall|j: int| 0 <= j < line.len() implies break_len(line, j) == 0 by {
            let p = start + a + j;
            assert(break_len(text, p) == 0);
            assert(line[j] == text[p]);
            if j + 4 <= line.len() {
                assert(line[j + 1] == text[p + 1]);
                assert(line[j + 2] == text[p + 2]);
                assert(line[j + 3] == text[p + 3]);
            }
            if j + 5 <= line.len() {
                assert(line[j + 4] == text[p + 4]);
            }
        }
        assert(is_plain_line(line));
    }
}

/// Splitting a plain line gives that line back, alone.
pub proof fn lemma_split_plain_line(line: Seq<char>)
    requires
        is_plain_line(line),
    ensures
        split_lines_spec(line) == seq![line],
{
    lemma_plain_line_has_no_break(line, 0);
    lemma_skip_whitespace(line, 0);
    lemma_skip_whitespace_back(line, line.len() as int);
    assert(line.subrange(0, line.len() as int) =~= line);
    assert(trim(line) =~= line);
}

proof fn lemma_plain_line_has_no_break(line: Seq<char>, i: int)
    requires
        is_plain_line(line),
        0 <= i <= line.len(),
    ensures
        lines_from(line, 0, i) == line_of(line.subrange(0, line.len() as int)),
    decreases line.len() - i,
{
    if i < line.len() {
        lemma_plain_line_has_no_break(line, i + 1);
    }
}

/// Splitting is idempotent: each line it gives is already split, so that
/// splitting it again gives the same line and nothing else.
pub proof fn split_lines_idempotent(text: Seq<char>, k: int)
    requires
        0 <= k < split_lines_spec(text).len(),
    ensures
        is_plain_line(split_lines_spec(text)[k]),
        split_lines_spec(split_lines_spec(text)[k]) == seq![split_lines_spec(text)[k]],
{
    lemma_lines_are_plain(text, 0, 0);
    lemma_split_plain_line(split_lines_spec(text)[k]);
}

/// A text of nothing but white space, the empty text among them, has no
/// lines.
pub proof fn split_lines_of_blank(text: Seq<char>)
    requires
        is_blank(text),
    ensures
        split_lines_spec(text).len() == 0,
{
    lemma_blank_has_no_lines(text, 0, 0);
}

proof fn lemma_blank_has_no_lines(text: Seq<char>, start: int, i: int)
    requires
        is_blank(text),
        0 <= start <= i <= text.len(),
    ensures
        lines_from(text, start, i).len() == 0,
    decreases text.len() - i,
{
    if i < text.len() {
        let k = break_len(text, i);
        if k > 0 {
            lemma_blank_piece(text, start, i);
            assert(text[i] == '\n') by {
                assert(is_whitespace(text[i]));
            }
            lemma_blank_has_no_lines(text, i + k, i + k);
        } else {
            lemma_blank_has_no_lines(text, start, i + 1);
        }
    } else {
        lemma_blank_piece(text, start, i);
    }
}

proof fn lemma_blank_piece(text: Seq<char>, start: int, end: int)
    requires
        is_blank(text),
        0 <= start <= end <= text.len(),
    ensures
        line_of(text.subrange(start, end)).len() == 0,
{
    let piece = text.subrange(start, end);
    lemma_skip_whitespace(piece, 0);
    lemma_skip_whitespace_back(piece, piece.len() as int);
    let a = skip_whitespace(piece, 0);
    if a < piece.len() {
        assert(piece[a] == text[start + a]);
        assert(is_whitespace(text[start + a]));
    }
}

/// Width of the widest of `lines` at `font_size`, in units; 0 for no lines.
pub open spec fn max_line_width(lines: Seq<Seq<char>>, font_size: int) -> int
    decreases lines.len(),
{
    if lines.len() == 0 {
        0
    } else {
        max_int(max_line_width(lines.drop_last(), font_size), text_width_spec(lines.last(), font_size))
    }
}

/// Width of a box around `lines`: the widest line plus `padding`.
pub open spec fn text_box_width_spec(lines: Seq<Seq<char>>, font_size: int, padding: int) -> int {
    max_line_width(lines, font_size) + padding
}

/// Height of a box around `num_lines` lines: an empty box is as tall as one
/// with a single line.
pub open spec fn text_box_height_spec(num_lines: int, line_height: int, padding: int) -> int {
    (if num_lines == 0 {
        1
    } else {
        num_lines
    }) * line_height + padding
}

/// The widest line is at least as wide as each line, and is one of them
/// unless there is none.
pub proof fn lemma_max_line_width(lines: Seq<Seq<char>>, font_size: int)
    requires
        font_size >= 0,
    ensures
        max_line_width(lines, font_size) >= 0,
        forall|k: int|
            0 <= k < lines.len() ==> text_width_spec(#[trigger] lines[k], font_size)
                <= max_line_width(lines, font_size),
        lines.len() > 0 ==> exists|k: int|
            0 <= k < lines.len() && text_width_spec(#[trigger] lines[k], font_size)
                == max_line_width(lines, font_size),
        lines.len() == 0 ==> max_line_width(lines, font_size) == 0,
    decreases lines.len(),
{
    if lines.len() > 0 {
        let init = lines.drop_last();
        lemma_max_line_width(init, font_size);
        lemma_base_width_bounds(lines.last());
        assert(text_width_spec(lines.last(), font_size) >= 0) by (nonlinear_arith)
            requires
                base_width(lines.last()) >= 0,
                font_size >= 0,
        ;
        assert forall|k: int| 0 <= k < lines.len() implies text_width_spec(
            #[trigger] lines[k],
            font_size,
        ) <= max_line_width(lines, font_size) by {
            if k < init.len() {
                assert(init[k] == lines[k]);
            }
        }
        if max_line_width(lines, font_size) == text_width_spec(lines.last(), font_size) {
            assert(lines[lines.len() - 1] == lines.last());
        } else {
            let k = choose|k: int|
                0 <= k < init.len() && text_width_spec(#[trigger] init[k], font_size)
                    == max_line_width(init, font_size);
            assert(init[k] == lines[k]);
        }
    }
}

/// Width of the widest of `lines`, in units.
pub fn widest_line(lines: &[String], font_size: u32) -> (w: i64)
    requires
        forall|k: int|
            0 <= k < lines@.len() ==> text_width_spec(#[trigger] lines@[k]@, font_size as int)
                <= i64::MAX,
    ensures
        w == max_line_width(texts(lines@), font_size as int),
        w >= 0,
{
    let mut widest: i64 = 0;
    let mut i: usize = 0;
    while i < lines.len()
        invariant
            i <= lines@.len(),
            widest == max_line_width(texts(lines@).take(i as int), font_size as int),
            widest >= 0,
            forall|k: int|
                0 <= k < lines@.len() ==> text_width_spec(#[trigger] lines@[k]@, font_size as int)
                    <= i64::MAX,
        decreases lines@.len() - i,
    {
        let w: i64 = text_width(lines[i].as_str(), font_size) as i64;
        proof {
            let all = texts(lines@);
            assert(all.take(i + 1).drop_last() =~= all.take(i as int));
            assert(all.take(i + 1).last() == lines@[i as int]@);
        }
        if w > widest {
            widest = w;
        }
        i = i + 1;
    }
    assert(texts(lines@).take(lines@.len() as int) =~= texts(lines@));
    widest
}

/// Width of a text box around `lines`: the widest line plus `padding`, which
/// counts both sides together. With no lines the box is `padding` wide.
pub fn calculate_text_box_width(lines: &[String], font_size: u32, padding: i64) -> (w: i64)
    requires
        forall|k: int|
            0 <= k < lines@.len() ==> text_width_spec(#[trigger] lines@[k]@, font_size as int)
                <= i64::MAX,
        i64::MIN <= text_box_width_spec(texts(lines@), font_size as int, padding as int)
            <= i64::MAX,
    ensures
        w == text_box_width_spec(texts(lines@), font_size as int, padding as int),
{
    widest_line(lines, font_size) + padding
}

/// Height of a text box of `num_lines` lines, each `line_height` tall, plus
/// `padding`, which counts top and bottom together. A box with no line is as
/// tall as a box with one.
pub fn calculate_text_box_height(num_lines: usize, line_height: i64, padding: i64) -> (h: i64)
    requires
        i64::MIN <= max_int(num_lines as int, 1) * line_height <= i64::MAX,
        i64::MIN <= text_box_height_spec(num_lines as int, line_height as int, padding as int)
            <= i64::MAX,
    ensures
        h == text_box_height_spec(num_lines as int, line_height as int, padding as int),
{
    let effective_lines: usize = if num_lines == 0 {
        1
    } else {
        num_lines
    };
    assert(effective_lines == max_int(num_lines as int, 1));
    let lines_height: i128 = (effective_lines as i128) * (line_height as i128);
    (lines_height as i64) + padding
}

/// Width of `text` set at `font_size` pixels, held at `limit`: the width
/// itself, or `limit` where the text is wider. Unlike `text_width` this can
/// be asked of any text, however long.
pub fn text_width_capped(text: &str, font_size: u32, limit: i64) -> (w: i64)
    requires
        0 <= limit <= 0x4000_0000_0000_0000,
    ensures
        w == capped(text_width_spec(text@, font_size as int), limit as int),
        0 <= w <= limit,
{
    proof {
        lemma_base_width_bounds(text@);
    }
    if font_size == 0 {
        assert(base_width(text@) * 0 * GLYPH_SCALE == 0) by (nonlinear_arith);
        return 0;
    }
    assert(GLYPH_SCALE == 10);
    let per_pixel: i128 = (font_size as i128) * 10;
    let mut base: i64 = 0;
    let mut fits: bool = true;
    assert(0 * font_size * GLYPH_SCALE == 0) by (nonlinear_arith);
    for c in it: text.chars()
        invariant
            it.seq() == text@,
            font_size >= 1,
            per_pixel == font_size * GLYPH_SCALE,
            0 <= limit <= 0x4000_0000_0000_0000,
            fits ==> base == base_width(text@.take(it.index() as int)),
            fits ==> 0 <= base * font_size * GLYPH_SCALE <= limit,
            !fits ==> text_width_spec(text@, font_size as int) > limit,
    {
        if fits {
            let ghost n = it.index() as int;
            proof {
                lemma_base_width_prefix(text@, n);
                lemma_base_width_prefix(text@, n + 1);
                assert(text@.take(n + 1).drop_last() =~= text@.take(n));
                assert(text@.take(n + 1).last() == c);
                assert(base <= limit) by (nonlinear_arith)
                    requires
                        0 <= base * font_size * GLYPH_SCALE <= limit,
                        font_size >= 1,
                        base >= 0,
                        GLYPH_SCALE >= 1,
                ;
            }
            base = base + char_width(c);
            assert(base * font_size * GLYPH_SCALE == base * per_pixel) by (nonlinear_arith)
                requires
                    per_pixel == font_size * GLYPH_SCALE,
            ;
            assert(0 <= base * per_pixel <= 0x4000_0000_0000_0010 * 0x10_0000_0000)
                by (nonlinear_arith)
                requires
                    0 <= base <= 0x4000_0000_0000_0010,
                    0 <= per_pixel <= 0x10_0000_0000,
            ;
            if (base as i128) * per_pixel > (limit as i128) {
                proof {
                    let whole = base_width(text@);
                    assert(whole * font_size * GLYPH_SCALE >= base * font_size * GLYPH_SCALE)
                        by (nonlinear_arith)
                        requires
                            whole >= base,
                            font_size >= 1,
                            GLYPH_SCALE >= 1,
                    ;
                }
                fits = false;
            }
        }
    }
    assert(text@.take(text@.len() as int) =~= text@);
    if fits {
        assert(base * font_size * GLYPH_SCALE == base * per_pixel) by (nonlinear_arith)
            requires
                per_pixel == font_size * GLYPH_SCALE,
        ;
        ((base as i128) * per_pixel) as i64
    } else {
        limit
    }
}

/// Width of the widest of `lines`, held at `limit`.
pub fn widest_line_capped(lines: &[String], font_size: u32, limit: i64) -> (w: i64)
    requires
        0 <= limit <= 0x4000_0000_0000_0000,
    ensures
        w == capped(max_line_width(texts(lines@), font_size as int), limit as int),
        0 <= w <= limit,
{
    let mut widest: i64 = 0;
    let mut i: usize = 0;
    while i < lines.len()
        invariant
            i <= lines@.len(),
            0 <= limit <= 0x4000_0000_0000_0000,
            widest == capped(
                max_line_width(texts(lines@).take(i as int), font_size as int),
                limit as int,
            ),
            0 <= widest <= limit,
        decreases lines@.len() - i,
    {
        let w: i64 = text_width_capped(lines[i].as_str(), font_size, limit);
        proof {
            let all = texts(lines@);
            assert(all.take(i + 1).drop_last() =~= all.take(i as int));
            assert(all.take(i + 1).last() == lines@[i as int]@);
            lemma_max_line_width(all.take(i as int), font_size as int);
        }
        if w > widest {
            widest = w;
        }
        i = i + 1;
    }
    assert(texts(lines@).take(lines@.len() as int) =~= texts(lines@));
    widest
}

} // verus!
