//! What holds of escape codes, of cut text and of stacked components.

use vstd::prelude::*;
use crate::text;
use crate::tui::ansi;
use crate::tui::ansi::{Token, BEL, ESC};
use crate::tui::component;
use crate::tui::component::Component;
use crate::tui::utils;
use crate::tui::wrap;

verus! {

// ---------------------------------------------------------------------------
// Escape codes
// ---------------------------------------------------------------------------

/// Do all characters lie in a range?
pub open spec fn all_in(s: Seq<char>, lo: char, hi: char) -> bool {
    forall|i: int| 0 <= i < s.len() ==> lo as u32 <= (#[trigger] s[i]) as u32 && s[i] as u32 <= hi as u32
}

proof fn lemma_run(x: Seq<char>, run: Seq<char>, y: Seq<char>, lo: char, hi: char, i: int)
    requires
        x.len() <= i <= x.len() + run.len(),
        all_in(run, lo, hi),
        y.len() > 0 ==> !(lo as u32 <= y[0] as u32 && y[0] as u32 <= hi as u32),
    ensures
        ansi::run_end(x + run + y, i, lo, hi) == x.len() + run.len(),
    decreases x.len() + run.len() - i,
{
    let s = x + run + y;
    if i < x.len() + run.len() {
        assert(s[i] == run[i - x.len()]);
        lemma_run(x, run, y, lo, hi, i + 1);
    } else if y.len() > 0 {
        assert(s[i] == y[0]);
    }
}

/// A control sequence is found whole wherever it stands: it starts with `ESC [`, goes on with any number
/// of parameter characters and then of intermediate ones, and ends with a final character.
pub proof fn control_sequences_are_found(a: Seq<char>, params: Seq<char>, between: Seq<char>, last: char, b: Seq<char>)
    requires
        all_in(params, '0', '?'),
        all_in(between, ' ', '/'),
        '@' as u32 <= last as u32 <= '~' as u32,
    ensures
        ({
            let code = seq![ESC, '['] + params + between + seq![last];
            ansi::code_end(a + code + b, a.len() as int) == Some((a.len() + code.len()) as int)
        }),
{
    let code = seq![ESC, '['] + params + between + seq![last];
    let s = a + code + b;
    let x = a + seq![ESC, '['];
    let y1 = between + seq![last] + b;
    assert(s =~= x + params + y1);
    assert(y1.len() > 0);
    assert(!('0' as u32 <= y1[0] as u32 && y1[0] as u32 <= '?' as u32)) by {
        if between.len() > 0 {
            assert(y1[0] == between[0]);
        } else {
            assert(y1[0] == last);
        }
    }
    lemma_run(x, params, y1, '0', '?', x.len() as int);
    let x2 = x + params;
    let y2 = seq![last] + b;
    assert(s =~= x2 + between + y2);
    assert(y2[0] == last);
    lemma_run(x2, between, y2, ' ', '/', x2.len() as int);
    assert(s[a.len() as int] == ESC);
    assert(s[a.len() as int + 1] == '[');
    assert(s[(x2.len() + between.len()) as int] == last);
}

/// Does a terminator start here?
pub open spec fn terminator_at(s: Seq<char>, i: int) -> bool {
    s[i] == BEL || (s[i] == ESC && i + 1 < s.len() && s[i + 1] == '\\')
}

proof fn lemma_terminator(s: Seq<char>, pos: int, at: int)
    requires
        0 <= pos <= at < s.len(),
        forall|i: int| pos <= i < at ==> !#[trigger] terminator_at(s, i),
        terminator_at(s, at),
    ensures
        ansi::terminator_end(s, pos) == Some(
            if s[at] == BEL {
                at + 1
            } else {
                at + 2
            },
        ),
    decreases at - pos,
{
    if pos < at {
        assert(!terminator_at(s, pos));
        lemma_terminator(s, pos + 1, at);
    }
}

/// A string sequence is found whole wherever it stands: it starts with `ESC ]` or `ESC _` and goes on to
/// the first terminator, which is `BEL` or `ESC \`.
pub proof fn string_sequences_are_found(s: Seq<char>, pos: int, at: int)
    requires
        0 <= pos,
        pos + 2 <= at < s.len(),
        s[pos] == ESC,
        s[pos + 1] == ']' || s[pos + 1] == '_',
        forall|i: int| pos + 2 <= i < at ==> !#[trigger] terminator_at(s, i),
        terminator_at(s, at),
    ensures
        ansi::code_end(s, pos) == Some(
            if s[at] == BEL {
                at + 1
            } else {
                at + 2
            },
        ),
{
    lemma_terminator(s, pos + 2, at);
}

/// Every escape code starts with the escape character.
pub proof fn codes_start_with_escape(s: Seq<char>, pos: int)
    ensures
        ansi::code_end(s, pos) is Some ==> 0 <= pos < s.len() && s[pos] == ESC && (s[pos + 1] == '[' || s[pos + 1] == ']'
            || s[pos + 1] == '_'),
{
}

proof fn lemma_run_shift(x: Seq<char>, b: Seq<char>, j: int, lo: char, hi: char)
    requires
        0 <= j,
    ensures
        ansi::run_end(x + b, x.len() + j, lo, hi) == x.len() + ansi::run_end(b, j, lo, hi),
    decreases b.len() - j,
{
    if j < b.len() {
        assert((x + b)[x.len() + j] == b[j]);
        lemma_run_shift(x, b, j + 1, lo, hi);
    }
}

proof fn lemma_run_grows(s: Seq<char>, pos: int, lo: char, hi: char)
    ensures
        ansi::run_end(s, pos, lo, hi) >= pos,
    decreases s.len() - pos,
{
    if 0 <= pos < s.len() && ansi::in_range(s[pos], lo, hi) {
        lemma_run_grows(s, pos + 1, lo, hi);
    }
}

proof fn lemma_terminator_shift(x: Seq<char>, b: Seq<char>, j: int)
    requires
        0 <= j,
    ensures
        ansi::terminator_end(x + b, x.len() + j) == match ansi::terminator_end(b, j) {
            Some(e) => Some(x.len() + e),
            None => None,
        },
    decreases b.len() - j,
{
    if j < b.len() {
        let s = x + b;
        let i = x.len() + j;
        assert(s[i] == b[j]);
        if j + 1 < b.len() {
            assert(s[i + 1] == b[j + 1]);
        }
        lemma_terminator_shift(x, b, j + 1);
    }
}

proof fn lemma_code_shift(x: Seq<char>, b: Seq<char>, j: int)
    requires
        0 <= j,
    ensures
        ansi::code_end(x + b, x.len() + j) == match ansi::code_end(b, j) {
            Some(e) => Some(x.len() + e),
            None => None,
        },
{
    if j + 1 < b.len() {
        let s = x + b;
        let i = x.len() + j;
        assert(s[i] == b[j]);
        assert(s[i + 1] == b[j + 1]);
        lemma_run_shift(x, b, j + 2, '0', '?');
        let m = ansi::run_end(b, j + 2, '0', '?');
        lemma_run_grows(b, j + 2, '0', '?');
        lemma_run_shift(x, b, m, ' ', '/');
        lemma_run_grows(b, m, ' ', '/');
        let e = ansi::run_end(b, m, ' ', '/');
        if e < b.len() {
            assert(s[x.len() + e] == b[e]);
        }
        lemma_terminator_shift(x, b, j + 2);
    }
}

proof fn lemma_stripped_shift(x: Seq<char>, b: Seq<char>, j: int)
    requires
        0 <= j <= b.len(),
    ensures
        ansi::stripped(x + b, x.len() + j) == ansi::stripped(b, j),
    decreases b.len() - j,
{
    if j < b.len() {
        lemma_code_shift(x, b, j);
        ansi::lemma_code_end(b, j);
        ansi::lemma_code_end(x + b, x.len() + j);
        assert((x + b)[x.len() + j] == b[j]);
        match ansi::code_end(b, j) {
            Some(e) => {
                lemma_stripped_shift(x, b, e);
            },
            None => {
                lemma_stripped_shift(x, b, j + 1);
            },
        }
    }
}

proof fn lemma_stripped_plain(a: Seq<char>, b: Seq<char>, i: int)
    requires
        0 <= i <= a.len(),
        !a.contains(ESC),
    ensures
        ansi::stripped(a + b, i) == a.skip(i) + ansi::stripped(a + b, a.len() as int),
    decreases a.len() - i,
{
    let s = a + b;
    if i < a.len() {
        assert(s[i] == a[i]);
        assert(a.contains(a[i]));
        lemma_stripped_plain(a, b, i + 1);
        assert(seq![a[i]] + (a.skip(i + 1) + ansi::stripped(s, a.len() as int)) =~= a.skip(i) + ansi::stripped(
            s,
            a.len() as int,
        ));
    } else {
        assert(a.skip(i) + ansi::stripped(s, a.len() as int) =~= ansi::stripped(s, a.len() as int));
    }
}

/// Stripping takes an escape code away and nothing else: what stands before it stays, and what stands
/// behind it is stripped as if it stood alone.
pub proof fn stripping_takes_codes_only(a: Seq<char>, code: Seq<char>, b: Seq<char>)
    requires
        !a.contains(ESC),
        code.len() > 0,
        ansi::code_end(a + code + b, a.len() as int) == Some((a.len() + code.len()) as int),
    ensures
        ansi::stripped(a + code + b, 0) == a + ansi::stripped(b, 0),
        ansi::visible_cols(a + code + b) == ansi::chars_cols(a) + ansi::visible_cols(b),
{
    let s = a + code + b;
    assert(s =~= a + (code + b));
    lemma_stripped_plain(a, code + b, 0);
    assert(a.skip(0) =~= a);
    lemma_stripped_shift(a + code, b, 0);
    assert((a + code) + b =~= s);
    assert(ansi::stripped(s, a.len() as int) == ansi::stripped(b, 0));
    lemma_chars_cols_concat(a, ansi::stripped(b, 0));
}

proof fn lemma_chars_cols_concat(a: Seq<char>, b: Seq<char>)
    ensures
        ansi::chars_cols(a + b) == ansi::chars_cols(a) + ansi::chars_cols(b),
    decreases b.len(),
{
    if b.len() == 0 {
        assert(a + b =~= a);
    } else {
        lemma_chars_cols_concat(a, b.drop_last());
        assert((a + b).drop_last() =~= a + b.drop_last());
    }
}

/// A tab takes three columns; any other character takes its own width, whatever stands beside it.
pub proof fn columns_add_up(a: Seq<char>, c: char, b: Seq<char>)
    ensures
        ansi::chars_cols(a + seq![c] + b) == ansi::chars_cols(a) + ansi::chars_cols(b) + if c == '\t' {
            3
        } else {
            ansi::str_width(seq![c]) as int
        },
        ansi::chars_cols(Seq::empty()) == 0,
{
    lemma_chars_cols_concat(a + seq![c], b);
    assert((a + seq![c]).drop_last() =~= a);
}

// ---------------------------------------------------------------------------
// Styles
// ---------------------------------------------------------------------------

/// The active codes are those since the last reset: a reset ends them all, any other SGR code is added,
/// and a code of another kind changes nothing.
pub proof fn a_reset_ends_all_styles(state: Seq<Seq<char>>, body: Seq<char>, code: Seq<char>)
    ensures
        utils::sgr_step(state, seq![ESC, '[', 'm']) == Seq::<Seq<char>>::empty(),
        utils::sgr_step(state, seq![ESC, '[', '0', 'm']) == Seq::<Seq<char>>::empty(),
        body.len() > 0 && body != seq!['0'] ==> utils::sgr_step(state, seq![ESC, '['] + body + seq!['m']) == state.push(
            seq![ESC, '['] + body + seq!['m'],
        ),
        code.len() == 0 || code.last() != 'm' || code[0] != ESC ==> utils::sgr_step(state, code) == state,
{
    let full = seq![ESC, '['] + body + seq!['m'];
    let long = seq![ESC, '[', '0', 'm'];
    let short = seq![ESC, '[', 'm'];
    assert(full.len() == body.len() + 3);
    assert(full[0] == ESC && full[1] == '[' && full.last() == 'm');
    if body.len() > 0 && body != seq!['0'] {
        if full == long {
            assert(body =~= seq!['0']) by {
                assert(body.len() == 1);
                assert(full[2] == body[0]);
            }
        }
        assert(full != short) by {
            assert(short.len() == 3);
        }
    }
    assert(utils::sgr_code(long));
    assert(utils::sgr_code(short));
}

// ---------------------------------------------------------------------------
// Cutting
// ---------------------------------------------------------------------------

proof fn lemma_cols_grow(t: Seq<Token>, n: int, m: int)
    requires
        wrap::sound(t),
        0 <= n <= m <= t.len(),
    ensures
        ansi::cols_of(t.take(n)) <= ansi::cols_of(t.take(m)),
    decreases m - n,
{
    if n < m {
        lemma_cols_grow(t, n, m - 1);
        assert(t.take(m) =~= t.take(m - 1).push(t[m - 1]));
        ansi::lemma_text_push(t.take(m - 1), t[m - 1]);
    }
}

/// Truncation keeps as much as fits: no longer run of tokens would have fitted in the columns that are
/// left beside the ellipsis.
pub proof fn truncation_keeps_as_much_as_fits(t: Seq<Token>, budget: int, n: int, m: int)
    requires
        wrap::sound(t),
        utils::fit_count(t, budget, n),
        n < m <= t.len(),
    ensures
        ansi::cols_of(t.take(m)) > budget,
{
    lemma_cols_grow(t, n + 1, m);
}

/// The ellipsis is shown whenever it fits, and takes its columns from the text; where it does not fit it
/// is left out, and so is the text.
pub proof fn the_ellipsis_is_shown_where_it_fits(max_width: int, ellipsis: Seq<char>)
    requires
        0 <= max_width,
    ensures
        ansi::visible_cols(ellipsis) <= max_width ==> {
            &&& utils::shown_ellipsis(max_width, ellipsis) == ellipsis
            &&& utils::content_budget(max_width, ellipsis) + ansi::visible_cols(ellipsis) == max_width
        },
        ansi::visible_cols(ellipsis) > max_width ==> {
            &&& utils::shown_ellipsis(max_width, ellipsis).len() == 0
            &&& utils::content_budget(max_width, ellipsis) == 0
        },
{
}

proof fn lemma_behind_codes(t: Seq<Token>, n: int)
    requires
        0 <= n <= t.len(),
    ensures
        ({
            let m = utils::behind_codes(t, n);
            &&& n <= m <= t.len()
            &&& forall|i: int| n <= i < m ==> (#[trigger] t[i]).code
            &&& m < t.len() ==> !t[m].code
        }),
    decreases t.len() - n,
{
    if n < t.len() && t[n].code {
        lemma_behind_codes(t, n + 1);
    }
}

/// Slicing cuts a text in two and loses nothing: what is left out is the shortest run of tokens that
/// takes the columns to be skipped, with the codes that follow it; what is left starts with a
/// grapheme cluster, and the codes in force there are given with it.
pub proof fn slicing_cuts_in_two(t: Seq<Token>, skip: int, prefix: Seq<char>, rest: Seq<char>) -> (m: int)
    requires
        utils::sliced(t, skip, prefix, rest),
        0 <= skip,
    ensures
        0 <= m <= t.len(),
        rest == ansi::text_of(t.skip(m)),
        ansi::text_of(t) == ansi::text_of(t.take(m)) + rest,
        prefix == text::concat(utils::sgr_after(t.take(m))),
        m < t.len() ==> !t[m].code && (wrap::sound(t) ==> ansi::cols_of(t.take(m)) >= skip),
        forall|i: int| 0 <= i < m && ansi::cols_of(#[trigger] t.take(i)) >= skip ==> t[i].code,
{
    let n = choose|n: int|
        #![trigger utils::cover_count(t, skip, n)]
        {
            let m = utils::behind_codes(t, n);
            &&& utils::cover_count(t, skip, n)
            &&& n <= m <= t.len()
            &&& prefix == text::concat(utils::sgr_after(t.take(m)))
            &&& rest == ansi::text_of(t.skip(m))
            &&& ansi::text_of(t) == ansi::text_of(t.take(m)) + rest
        };
    let m = utils::behind_codes(t, n);
    lemma_behind_codes(t, n);
    if wrap::sound(t) {
        lemma_cols_grow(t, n, m);
    }
    m
}

// ---------------------------------------------------------------------------
// Components
// ---------------------------------------------------------------------------

/// Components are shown one below the other: the lines of two stacks, one on the other, are those of the
/// upper one and then those of the lower one.
pub proof fn stacks_are_shown_in_order<C: Component>(a: Seq<C>, b: Seq<C>, width: u16)
    ensures
        component::stacked(a + b, width) == component::stacked(a, width) + component::stacked(b, width),
    decreases b.len(),
{
    if b.len() == 0 {
        assert(a + b =~= a);
        assert(component::stacked(a, width) + component::stacked(b, width) =~= component::stacked(a, width));
    } else {
        stacks_are_shown_in_order(a, b.drop_last(), width);
        assert((a + b).drop_last() =~= a + b.drop_last());
        assert(component::stacked(a + b, width) =~= component::stacked(a, width) + component::stacked(b, width));
    }
}

/// A stack of one component shows the lines of that component.
pub proof fn one_component_is_shown<C: Component>(c: C, width: u16)
    ensures
        component::stacked(seq![c], width) == c.lines(width),
{
    let s = seq![c];
    assert(s.drop_last() =~= Seq::<C>::empty());
    assert(component::stacked(s.drop_last(), width) =~= Seq::<Seq<char>>::empty());
    assert(component::stacked(s, width) =~= c.lines(width));
}

} // verus!
