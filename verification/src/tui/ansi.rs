//! ANSI escape codes and the segments of a styled text.

use unicode_segmentation::UnicodeSegmentation;
use unicode_width::UnicodeWidthStr;
use vstd::prelude::*;
use crate::text;
use crate::text::{char_len, chars_of, len_of, split_chars, split_first, split_head, substring};

verus! {

pub const ESC: char = '\u{1b}';

pub const BEL: char = '\u{7}';

/// The first grapheme cluster of a text, by the extended rules.
pub uninterp spec fn first_grapheme(s: Seq<char>) -> Seq<char>;

/// The number of terminal columns that a text takes.
pub uninterp spec fn str_width(s: Seq<char>) -> usize;

/// The first item of `UnicodeSegmentation::graphemes(s, true)`. There is one unless `s` is
/// empty, and it is a non-empty prefix of `s`; which prefix is named by `first_grapheme`.
#[verifier::external_body]
fn next_grapheme<'a>(s: &'a str) -> (r: Option<&'a str>)
    ensures
        r is None <==> s@.len() == 0,
        r matches Some(g) ==> {
            &&& g@ == first_grapheme(s@)
            &&& 0 < g@.len() <= s@.len()
            &&& g@ == s@.take(g@.len() as int)
        },
{
    s.graphemes(true).next()
}

/// `UnicodeWidthStr::width`. The result is named by `str_width`; a text of one character is
/// never wider than three columns.
#[verifier::external_body]
fn width_of(s: &str) -> (w: usize)
    ensures
        w == str_width(s@),
        s@.len() == 1 ==> w <= 3,
{
    UnicodeWidthStr::width(s)
}

pub open spec fn in_range(c: char, lo: char, hi: char) -> bool {
    lo as u32 <= c as u32 && c as u32 <= hi as u32
}

/// The first position from `pos` on whose character is not in `lo..=hi`.
pub open spec fn run_end(s: Seq<char>, pos: int, lo: char, hi: char) -> int
    decreases s.len() - pos,
{
    if 0 <= pos < s.len() && in_range(s[pos], lo, hi) {
        run_end(s, pos + 1, lo, hi)
    } else {
        pos
    }
}

/// Where the CSI sequence that starts at `pos` ends: `ESC [`, parameter characters
/// (`0`..`?`), intermediate characters (space..`/`), one final character (`@`..`~`).
pub open spec fn csi_end(s: Seq<char>, pos: int) -> Option<int> {
    let a = run_end(s, pos + 2, '0', '?');
    let b = run_end(s, a, ' ', '/');
    if b < s.len() && in_range(s[b], '@', '~') {
        Some(b + 1)
    } else {
        None
    }
}

/// Behind the first terminator (`BEL`, or `ESC \`) from `pos` on.
pub open spec fn terminator_end(s: Seq<char>, pos: int) -> Option<int>
    decreases s.len() - pos,
{
    if pos < 0 || pos >= s.len() {
        None
    } else if s[pos] == BEL {
        Some(pos + 1)
    } else if s[pos] == ESC && pos + 1 < s.len() && s[pos + 1] == '\\' {
        Some(pos + 2)
    } else {
        terminator_end(s, pos + 1)
    }
}

/// Where the escape code that starts at character `pos` ends, if one starts there:
/// a CSI sequence, or an OSC (`ESC ]`) or APC (`ESC _`) string with its terminator.
pub open spec fn code_end(s: Seq<char>, pos: int) -> Option<int> {
    if 0 <= pos && pos + 1 < s.len() && s[pos] == ESC {
        if s[pos + 1] == '[' {
            csi_end(s, pos)
        } else if s[pos + 1] == ']' || s[pos + 1] == '_' {
            terminator_end(s, pos + 2)
        } else {
            None
        }
    } else {
        None
    }
}

proof fn lemma_run_end(s: Seq<char>, pos: int, lo: char, hi: char)
    ensures
        pos <= run_end(s, pos, lo, hi),
        0 <= pos <= s.len() ==> run_end(s, pos, lo, hi) <= s.len(),
    decreases s.len() - pos,
{
    if 0 <= pos < s.len() && in_range(s[pos], lo, hi) {
        lemma_run_end(s, pos + 1, lo, hi);
    }
}

proof fn lemma_terminator_end(s: Seq<char>, pos: int)
    ensures
        terminator_end(s, pos) matches Some(e) ==> pos < e <= s.len(),
    decreases s.len() - pos,
{
    if 0 <= pos < s.len() {
        lemma_terminator_end(s, pos + 1);
    }
}

/// An escape code has at least three characters and lies within the text.
pub proof fn lemma_code_end(s: Seq<char>, pos: int)
    ensures
        code_end(s, pos) matches Some(e) ==> 0 <= pos && pos + 3 <= e <= s.len(),
{
    if 0 <= pos && pos + 1 < s.len() && s[pos] == ESC {
        lemma_run_end(s, pos + 2, '0', '?');
        lemma_run_end(s, run_end(s, pos + 2, '0', '?'), ' ', '/');
        lemma_terminator_end(s, pos + 2);
    }
}

/// The text without its escape codes, from `pos` on.
pub open spec fn stripped(s: Seq<char>, pos: int) -> Seq<char>
    decreases s.len() - pos,
{
    if pos < 0 || pos >= s.len() {
        Seq::empty()
    } else {
        proof {
            lemma_code_end(s, pos);
        }
        match code_end(s, pos) {
            Some(e) => stripped(s, e),
            None => seq![s[pos]] + stripped(s, pos + 1),
        }
    }
}

/// Columns of one character: a tab takes three.
pub open spec fn char_cols(c: char) -> int {
    if c == '\t' {
        3
    } else {
        str_width(seq![c]) as int
    }
}

/// Columns of a text, counted character by character.
pub open spec fn chars_cols(s: Seq<char>) -> int
    decreases s.len(),
{
    if s.len() == 0 {
        0
    } else {
        chars_cols(s.drop_last()) + char_cols(s.last())
    }
}

/// Visible columns of a text: those of what is left without its escape codes.
pub open spec fn visible_cols(s: Seq<char>) -> int {
    chars_cols(stripped(s, 0))
}

/// Columns of a grapheme cluster: a tab takes three.
pub open spec fn grapheme_cols(g: Seq<char>) -> int {
    if g == seq!['\t'] {
        3
    } else {
        str_width(g) as int
    }
}

/// One step of a styled text: an escape code (no columns) or a grapheme cluster.
pub struct Token {
    pub code: bool,
    pub text: Seq<char>,
    pub cols: int,
}

pub open spec fn code_token(text: Seq<char>) -> Token {
    Token { code: true, text, cols: 0 }
}

pub open spec fn cell_token(text: Seq<char>) -> Token {
    Token { code: false, text, cols: grapheme_cols(text) }
}

/// The token that starts at `pos`.
pub open spec fn token_at(s: Seq<char>, pos: int) -> Token {
    match code_end(s, pos) {
        Some(e) => code_token(s.subrange(pos, e)),
        None => cell_token(first_grapheme(s.skip(pos))),
    }
}

/// The tokens of a text from `pos` on.
pub open spec fn tokens(s: Seq<char>, pos: int) -> Seq<Token>
    decreases s.len() - pos,
{
    if pos < 0 || pos >= s.len() {
        Seq::empty()
    } else {
        let t = token_at(s, pos);
        if t.text.len() == 0 || pos + t.text.len() > s.len() {
            Seq::empty()
        } else {
            seq![t] + tokens(s, pos + t.text.len())
        }
    }
}

/// The text of a token sequence.
pub open spec fn text_of(t: Seq<Token>) -> Seq<char>
    decreases t.len(),
{
    if t.len() == 0 {
        Seq::empty()
    } else {
        text_of(t.drop_last()) + t.last().text
    }
}

/// The columns of a token sequence.
pub open spec fn cols_of(t: Seq<Token>) -> int
    decreases t.len(),
{
    if t.len() == 0 {
        0
    } else {
        cols_of(t.drop_last()) + t.last().cols
    }
}

pub proof fn lemma_text_concat(a: Seq<Token>, b: Seq<Token>)
    ensures
        text_of(a + b) == text_of(a) + text_of(b),
        cols_of(a + b) == cols_of(a) + cols_of(b),
    decreases b.len(),
{
    if b.len() == 0 {
        assert(a + b =~= a);
        assert(text_of(a) + text_of(b) =~= text_of(a));
    } else {
        lemma_text_concat(a, b.drop_last());
        assert((a + b).drop_last() =~= a + b.drop_last());
        assert(text_of(a + b) =~= text_of(a) + text_of(b));
    }
}

pub proof fn lemma_text_push(a: Seq<Token>, t: Token)
    ensures
        text_of(a.push(t)) == text_of(a) + t.text,
        cols_of(a.push(t)) == cols_of(a) + t.cols,
{
    assert(a.push(t).drop_last() =~= a);
}

/// A segment of a styled text, with its columns counted.
pub struct Segment {
    pub code: bool,
    pub text: String,
    pub cols: usize,
}

impl View for Segment {
    type V = Token;

    open spec fn view(&self) -> Token {
        Token { code: self.code, text: self.text@, cols: self.cols as int }
    }
}

pub open spec fn seg_views(v: Seq<Segment>) -> Seq<Token> {
    v.map_values(|s: Segment| s@)
}

fn within(c: char, lo: char, hi: char) -> (r: bool)
    ensures
        r == in_range(c, lo, hi),
{
    lo as u32 <= c as u32 && c as u32 <= hi as u32
}

fn skip_run(v: &Vec<char>, pos: usize, lo: char, hi: char) -> (r: usize)
    requires
        pos <= v@.len(),
    ensures
        r == run_end(v@, pos as int, lo, hi),
        pos <= r <= v@.len(),
{
    let mut i: usize = pos;
    while i < v.len() && within(v[i], lo, hi)
        invariant
            pos <= i <= v@.len(),
            run_end(v@, pos as int, lo, hi) == run_end(v@, i as int, lo, hi),
        decreases v.len() - i,
    {
        i = i + 1;
    }
    i
}

/// A CSI sequence: `ESC [`, parameter characters, intermediate characters, a final one.
fn extract_csi(v: &Vec<char>, pos: usize) -> (r: Option<usize>)
    requires
        pos + 2 <= v.len(),
    ensures
        r is Some <==> csi_end(v@, pos as int) is Some,
        r matches Some(e) ==> csi_end(v@, pos as int) == Some(e as int),
{
    let a: usize = skip_run(v, pos + 2, '0', '?');
    let b: usize = skip_run(v, a, ' ', '/');
    if b < v.len() && within(v[b], '@', '~') {
        Some(b + 1)
    } else {
        None
    }
}

/// An OSC or APC string from behind its introducer, up to its terminator.
fn extract_string_sequence(v: &Vec<char>, pos: usize) -> (r: Option<usize>)
    requires
        pos + 2 <= v.len(),
    ensures
        r is Some <==> terminator_end(v@, pos as int + 2) is Some,
        r matches Some(e) ==> terminator_end(v@, pos as int + 2) == Some(e as int),
{
    let mut i: usize = pos + 2;
    while i < v.len()
        invariant
            pos + 2 <= i <= v@.len(),
            terminator_end(v@, pos as int + 2) == terminator_end(v@, i as int),
        decreases v.len() - i,
    {
        if v[i] == BEL {
            return Some(i + 1);
        }
        if v[i] == ESC && i + 1 < v.len() && v[i + 1] == '\\' {
            return Some(i + 2);
        }
        i = i + 1;
    }
    None
}

/// Where the escape code that starts at character `pos` ends.
pub fn find_code_end(v: &Vec<char>, pos: usize) -> (r: Option<usize>)
    ensures
        r is Some <==> code_end(v@, pos as int) is Some,
        r matches Some(e) ==> code_end(v@, pos as int) == Some(e as int),
{
    if pos >= v.len() || v[pos] != ESC {
        return None;
    }
    if pos + 1 >= v.len() {
        return None;
    }
    let c = v[pos + 1];
    if c == '[' {
        extract_csi(v, pos)
    } else if c == ']' || c == '_' {
        extract_string_sequence(v, pos)
    } else {
        None
    }
}

/// Does character `k` of `s` start at byte `pos`?
pub open spec fn starts_at(s: Seq<char>, k: int, pos: int) -> bool {
    0 <= k <= s.len() && text::byte_len(s.take(k)) == pos
}

proof fn lemma_offsets_increase(s: Seq<char>, j: int, k: int)
    requires
        0 <= j <= k <= s.len(),
    ensures
        text::byte_len(s.take(j)) + (k - j) <= text::byte_len(s.take(k)),
        text::byte_len(s.take(k)) <= text::byte_len(s),
{
    assert(s.take(k) =~= s.take(j) + s.subrange(j, k));
    text::lemma_encode_concat(s.take(j), s.subrange(j, k));
    text::lemma_byte_len_at_least(s.subrange(j, k));
    assert(s =~= s.take(k) + s.skip(k));
    text::lemma_encode_concat(s.take(k), s.skip(k));
}

/// Extract the escape code that starts at byte position `pos` of the string.
///
/// Returns the code and the number of its bytes, or `None` if no complete code starts there.
///
/// - CSI: `ESC [` ... final character
/// - OSC: `ESC ]` ... (`BEL` | `ESC \`)
/// - APC: `ESC _` ... (`BEL` | `ESC \`)
pub fn extract_ansi_code(s: &str, pos: usize) -> (r: Option<(String, usize)>)
    ensures
        r is Some <==> exists|k: int| starts_at(s@, k, pos as int) && code_end(s@, k) is Some,
        r matches Some((code, len)) ==> {
            &&& len == text::byte_len(code@)
            &&& forall|k: int| #[trigger]
                starts_at(s@, k, pos as int) ==> code_end(s@, k) is Some && code@ == s@.subrange(
                    k,
                    code_end(s@, k)->0,
                )
        },
{
    let v = chars_of(s);
    let total: usize = len_of(s);
    let mut k: usize = 0;
    let mut off: usize = 0;
    assert(s@.take(0) =~= Seq::<char>::empty());
    while k < v.len() && off < pos
        invariant
            v@ == s@,
            total == text::byte_len(s@),
            k <= v@.len(),
            off == text::byte_len(s@.take(k as int)),
            k > 0 ==> text::byte_len(s@.take(k - 1)) < pos,
        decreases v.len() - k,
    {
        proof {
            lemma_offsets_increase(s@, k as int, k as int + 1);
            assert(s@.take(k as int + 1) =~= s@.take(k as int) + seq![s@[k as int]]);
            text::lemma_encode_concat(s@.take(k as int), seq![s@[k as int]]);
            text::lemma_one_char(s@[k as int]);
        }
        off = off + char_len(v[k]);
        k = k + 1;
    }
    if off != pos {
        proof {
            assert forall|j: int| starts_at(s@, j, pos as int) implies false by {
                if j < k {
                    lemma_offsets_increase(s@, j, k - 1);
                } else if j > k {
                    lemma_offsets_increase(s@, k as int, j);
                }
            }
        }
        return None;
    }
    proof {
        assert(starts_at(s@, k as int, pos as int));
        assert forall|j: int| starts_at(s@, j, pos as int) implies j == k by {
            if j < k {
                lemma_offsets_increase(s@, j, k as int);
            } else {
                lemma_offsets_increase(s@, k as int, j);
            }
        }
        lemma_code_end(s@, k as int);
    }
    match find_code_end(&v, k) {
        Some(e) => {
            let code = substring(&v, k, e);
            let len: usize = len_of(code.as_str());
            Some((code, len))
        },
        None => None,
    }
}

/// Remove all escape codes from a string, leaving the visible text.
pub fn strip_ansi(s: &str) -> (r: String)
    ensures
        r@ == stripped(s@, 0),
{
    let v = chars_of(s);
    let mut result = String::new();
    let mut i: usize = 0;
    while i < v.len()
        invariant
            v@ == s@,
            i <= v@.len(),
            result@ + stripped(s@, i as int) == stripped(s@, 0),
        decreases v.len() - i,
    {
        proof {
            lemma_code_end(s@, i as int);
        }
        match find_code_end(&v, i) {
            Some(e) => {
                i = e;
            },
            None => {
                proof {
                    assert(result@.push(s@[i as int]) + stripped(s@, i as int + 1) =~= result@ + (seq![s@[i as int]]
                        + stripped(s@, i as int + 1)));
                }
                result.push(v[i]);
                i = i + 1;
            },
        }
    }
    assert(result@ =~= stripped(s@, 0));
    result
}

/// The text has no more characters without its codes than with them.
proof fn lemma_stripped_len(s: Seq<char>, pos: int)
    requires
        0 <= pos <= s.len(),
    ensures
        stripped(s, pos).len() <= s.len() - pos,
    decreases s.len() - pos,
{
    if pos < s.len() {
        lemma_code_end(s, pos);
        match code_end(s, pos) {
            Some(e) => lemma_stripped_len(s, e),
            None => lemma_stripped_len(s, pos + 1),
        }
    }
}

/// Columns of a piece of text whose Unicode width is `width`: a lone tab takes three.
pub fn cell_columns(cell: &str, width: usize) -> (r: usize)
    ensures
        r == if cell@ == seq!['\t'] { 3 } else { width },
{
    let v = chars_of(cell);
    let tab: bool = v.len() == 1 && v[0] == '\t';
    assert(tab == (cell@ =~= seq!['\t']));
    if tab {
        3
    } else {
        width
    }
}

/// The visible width of a string in terminal columns: its escape codes take none, each other
/// character its own width, a tab three.
pub fn visible_width(s: &str) -> (w: usize)
    requires
        3 * s@.len() <= usize::MAX,
    ensures
        w == visible_cols(s@),
{
    let stripped_text = strip_ansi(s);
    proof {
        lemma_stripped_len(s@, 0);
    }
    let ghost t = stripped_text@;
    let mut cur: &str = stripped_text.as_str();
    let mut total: usize = 0;
    let mut n: usize = 0;
    proof {
        assert(t.take(0) =~= Seq::<char>::empty());
        assert(t.skip(0) =~= t);
    }
    loop
        invariant
            3 * t.len() <= usize::MAX,
            n <= t.len(),
            cur@ == t.skip(n as int),
            total == chars_cols(t.take(n as int)),
            total <= 3 * n,
        ensures
            total == chars_cols(t),
        decreases cur@.len(),
    {
        match split_first(cur) {
            None => {
                assert(t.take(n as int) =~= t);
                break;
            },
            Some((c, head, tail)) => {
                proof {
                    assert(t.take(n as int + 1).drop_last() =~= t.take(n as int));
                    assert(t.take(n as int + 1).last() == c);
                    assert(tail@ =~= t.skip(n as int + 1));
                }
                assert((c == '\t') == (seq![c] =~= seq!['\t'])) by {
                    if c != '\t' {
                        assert(seq![c][0] != seq!['\t'][0]);
                    }
                }
                let w: usize = cell_columns(head, width_of(head));
                total = total + w;
                n = n + 1;
                cur = tail;
            },
        }
    }
    total
}

/// The segments of a string: its escape codes, and the grapheme clusters between them.
pub fn segments(s: &str) -> (r: Vec<Segment>)
    ensures
        seg_views(r@) == tokens(s@, 0),
        text_of(seg_views(r@)) == s@,
{
    let v = chars_of(s);
    let mut r: Vec<Segment> = Vec::new();
    let mut rest: &str = s;
    let mut pos: usize = 0;
    proof {
        assert(s@.skip(0) =~= s@);
        assert(s@.take(0) =~= text_of(seg_views(r@)));
        assert(seg_views(r@) + tokens(s@, 0) =~= tokens(s@, 0));
    }
    while pos < v.len()
        invariant
            v@ == s@,
            pos <= v@.len(),
            rest@ == s@.skip(pos as int),
            seg_views(r@) + tokens(s@, pos as int) == tokens(s@, 0),
            text_of(seg_views(r@)) == s@.take(pos as int),
        decreases v.len() - pos,
    {
        let ghost done = seg_views(r@);
        let ghost t = token_at(s@, pos as int);
        let ghost before = s@.take(pos as int);
        proof {
            lemma_code_end(s@, pos as int);
        }
        match find_code_end(&v, pos) {
            Some(e) => {
                let n: usize = e - pos;
                let parts = split_chars(rest, n);
                assert(parts.0@ =~= s@.subrange(pos as int, e as int));
                assert(parts.1@ =~= s@.skip(e as int));
                r.push(Segment { code: true, text: parts.0.to_owned(), cols: 0 });
                rest = parts.1;
                pos = e;
            },
            None => {
                match next_grapheme(rest) {
                    Some(g) => {
                        let parts = split_head(rest, g);
                        let n: usize = chars_of(g).len();
                        let cols: usize = cell_columns(g, width_of(g));
                        assert(parts.1@ =~= s@.skip(pos as int + n));
                        r.push(Segment { code: false, text: g.to_owned(), cols });
                        rest = parts.1;
                        pos = pos + n;
                    },
                    None => {
                        // Only an empty rest has no grapheme cluster.
                        assert(false);
                    },
                }
            },
        }
        proof {
            assert(r@.last()@ == t);
            assert(seg_views(r@) =~= done.push(t));
            lemma_text_push(done, t);
            assert(s@.take(pos as int) =~= before + t.text);
            assert(done.push(t) + tokens(s@, pos as int) =~= done + (seq![t] + tokens(s@, pos as int)));
        }
    }
    assert(seg_views(r@) =~= tokens(s@, 0));
    assert(s@.take(pos as int) =~= s@);
    r
}

/// A text without escape characters is what `strip_ansi` leaves of it.
pub proof fn plain_text_is_kept(s: Seq<char>)
    requires
        !s.contains(ESC),
    ensures
        stripped(s, 0) == s,
{
    lemma_plain_from(s, 0);
    assert(s.skip(0) =~= s);
}

proof fn lemma_plain_from(s: Seq<char>, pos: int)
    requires
        !s.contains(ESC),
        0 <= pos <= s.len(),
    ensures
        stripped(s, pos) == s.skip(pos),
    decreases s.len() - pos,
{
    if pos < s.len() {
        assert(s[pos] != ESC);
        lemma_plain_from(s, pos + 1);
        assert(s.skip(pos) =~= seq![s[pos]] + s.skip(pos + 1));
    } else {
        assert(s.skip(pos) =~= Seq::<char>::empty());
    }
}

} // verus!
