//! Cutting and wrapping of styled text by visible columns.

use vstd::prelude::*;
use crate::text;
use crate::text::concat_strings;
use crate::tui::ansi;
use crate::tui::ansi::{segments, visible_width, Segment, Token};

verus! {

/// Is this escape code an SGR (select graphic rendition) code?
pub open spec fn sgr_code(code: Seq<char>) -> bool {
    code.len() >= 3 && code[0] == ansi::ESC && code[1] == '[' && code.last() == 'm'
}

/// Is this SGR code a reset?
pub open spec fn sgr_reset(code: Seq<char>) -> bool {
    code == seq![ansi::ESC, '[', '0', 'm'] || code == seq![ansi::ESC, '[', 'm']
}

/// The active SGR codes after `code`: a reset clears them, another SGR code is added, any
/// other code changes nothing.
pub open spec fn sgr_step(state: Seq<Seq<char>>, code: Seq<char>) -> Seq<Seq<char>> {
    if !sgr_code(code) {
        state
    } else if sgr_reset(code) {
        Seq::empty()
    } else {
        state.push(code)
    }
}

/// The active SGR codes behind a token sequence.
pub open spec fn sgr_after(t: Seq<Token>) -> Seq<Seq<char>>
    decreases t.len(),
{
    if t.len() == 0 {
        Seq::empty()
    } else {
        let before = sgr_after(t.drop_last());
        if t.last().code {
            sgr_step(before, t.last().text)
        } else {
            before
        }
    }
}

pub(crate) fn is_sgr(code: &str) -> (r: bool)
    ensures
        r == sgr_code(code@),
{
    let v = text::chars_of(code);
    v.len() >= 3 && v[0] == ansi::ESC && v[1] == '[' && v[v.len() - 1] == 'm'
}

/// Updates the active SGR codes.
pub(crate) fn update_sgr_state(state: &mut Vec<String>, code: &str)
    ensures
        text::views(final(state)@) == sgr_step(text::views(old(state)@), code@),
{
    if !is_sgr(code) {
        return;
    }
    let v = text::chars_of(code);
    let reset: bool = (v.len() == 4 && v[2] == '0') || v.len() == 3;
    proof {
        if reset {
            if v.len() == 4 {
                assert(code@ =~= seq![ansi::ESC, '[', '0', 'm']);
            } else {
                assert(code@ =~= seq![ansi::ESC, '[', 'm']);
            }
        }
        assert(reset == sgr_reset(code@));
    }
    if reset {
        state.clear();
        assert(text::views(state@) =~= Seq::empty());
    } else {
        let ghost before = text::views(state@);
        state.push(code.to_owned());
        assert(text::views(state@) =~= before.push(code@));
    }
}

/// The active SGR codes as one string.
pub(crate) fn sgr_prefix(state: &Vec<String>) -> (r: String)
    ensures
        r@ == text::concat(text::views(state@)),
{
    concat_strings(state)
}

/// Is `n` the number of tokens that fit in `budget` columns? It is that of the longest prefix
/// that does.
pub open spec fn fit_count(t: Seq<Token>, budget: int, n: int) -> bool {
    &&& 0 <= n <= t.len()
    &&& ansi::cols_of(t.take(n)) <= budget
    &&& n < t.len() ==> ansi::cols_of(t.take(n + 1)) > budget
}

/// Columns that are left for the content beside the ellipsis.
pub open spec fn content_budget(max_width: int, ellipsis: Seq<char>) -> int {
    if ansi::visible_cols(ellipsis) <= max_width {
        max_width - ansi::visible_cols(ellipsis)
    } else {
        0
    }
}

/// The ellipsis where there is room for it.
pub open spec fn shown_ellipsis(max_width: int, ellipsis: Seq<char>) -> Seq<char> {
    if ansi::visible_cols(ellipsis) <= max_width {
        ellipsis
    } else {
        Seq::empty()
    }
}

/// The text of the segments that fit in `budget` columns.
pub fn fit_segments(segs: &Vec<Segment>, budget: usize) -> (r: String)
    ensures
        exists|n: int|
            #![trigger fit_count(ansi::seg_views(segs@), budget as int, n)]
            {
                &&& fit_count(ansi::seg_views(segs@), budget as int, n)
                &&& r@ == ansi::text_of(ansi::seg_views(segs@).take(n))
            },
{
    let ghost t = ansi::seg_views(segs@);
    let mut result = String::new();
    let mut used: usize = 0;
    let mut n: usize = 0;
    proof {
        assert(t.take(0) =~= Seq::<Token>::empty());
    }
    while n < segs.len()
        invariant
            ansi::seg_views(segs@) == t,
            n <= segs@.len(),
            used <= budget,
            used == ansi::cols_of(t.take(n as int)),
            result@ == ansi::text_of(t.take(n as int)),
        ensures
            fit_count(t, budget as int, n as int),
            result@ == ansi::text_of(t.take(n as int)),
        decreases segs.len() - n,
    {
        proof {
            assert(t[n as int] == segs@[n as int]@);
            assert(t.take(n as int + 1) =~= t.take(n as int).push(t[n as int]));
            ansi::lemma_text_push(t.take(n as int), t[n as int]);
        }
        let seg = &segs[n];
        if seg.cols > budget - used {
            break;
        }
        result.append(seg.text.as_str());
        used = used + seg.cols;
        n = n + 1;
    }
    result
}

/// Truncate a string to `max_width` visible columns.
///
/// A string that fits is returned as it is. Of another, the longest run of whole tokens that
/// fits beside the ellipsis is kept, and the ellipsis follows where it fits at all. Escape
/// codes take no columns, and no grapheme cluster is split.
pub fn truncate_to_width(s: &str, max_width: usize, ellipsis: &str) -> (r: String)
    requires
        3 * s@.len() <= usize::MAX,
        3 * ellipsis@.len() <= usize::MAX,
    ensures
        ansi::visible_cols(s@) <= max_width ==> r@ == s@,
        ansi::visible_cols(s@) > max_width ==> exists|n: int|
            #![trigger fit_count(ansi::tokens(s@, 0), content_budget(max_width as int, ellipsis@), n)]
            {
                &&& fit_count(ansi::tokens(s@, 0), content_budget(max_width as int, ellipsis@), n)
                &&& r@ == ansi::text_of(ansi::tokens(s@, 0).take(n)) + shown_ellipsis(
                    max_width as int,
                    ellipsis@,
                )
            },
{
    let full_visible: usize = visible_width(s);
    if full_visible <= max_width {
        return s.to_owned();
    }
    let ellipsis_width: usize = visible_width(ellipsis);
    let budget: usize = max_width.saturating_sub(ellipsis_width);
    assert(budget == content_budget(max_width as int, ellipsis@));
    let mut result = fit_segments(&segments(s), budget);
    if ellipsis_width <= max_width {
        result.append(ellipsis);
    } else {
        assert(result@ + Seq::<char>::empty() =~= result@);
    }
    result
}

/// What truncation shows takes no more than `max_width` columns: the kept tokens and the
/// ellipsis fit together.
pub proof fn truncation_fits(t: Seq<Token>, max_width: int, ellipsis: Seq<char>, n: int)
    requires
        0 <= max_width,
        fit_count(t, content_budget(max_width, ellipsis), n),
    ensures
        ansi::visible_cols(ellipsis) <= max_width ==> ansi::cols_of(t.take(n))
            + ansi::visible_cols(ellipsis) <= max_width,
        ansi::visible_cols(ellipsis) > max_width ==> ansi::cols_of(t.take(n)) <= 0,
{
}

/// The number of tokens that cover the first `skip` columns: the shortest prefix that does,
/// or all of them.
pub open spec fn cover_count(t: Seq<Token>, skip: int, n: int) -> bool {
    &&& 0 <= n <= t.len()
    &&& n < t.len() ==> ansi::cols_of(t.take(n)) >= skip
    &&& forall|m: int| 0 <= m < n ==> ansi::cols_of(#[trigger] t.take(m)) < skip
}

/// Behind the escape codes that follow token `n`.
pub open spec fn behind_codes(t: Seq<Token>, n: int) -> int
    decreases t.len() - n,
{
    if 0 <= n < t.len() && t[n].code {
        behind_codes(t, n + 1)
    } else {
        n
    }
}

/// The part of a token sequence behind its first `skip` columns: the SGR codes that are active
/// there, and the rest of the text. Escape codes right at the boundary are skipped too, and
/// count as active.
pub open spec fn sliced(t: Seq<Token>, skip: int, prefix: Seq<char>, rest: Seq<char>) -> bool {
    exists|n: int|
        #![trigger cover_count(t, skip, n)]
        {
            let m = behind_codes(t, n);
            &&& cover_count(t, skip, n)
            &&& n <= m <= t.len()
            &&& prefix == text::concat(sgr_after(t.take(m)))
            &&& rest == ansi::text_of(t.skip(m))
            &&& ansi::text_of(t) == ansi::text_of(t.take(m)) + rest
        }
}

/// Skip the first `skip` visible columns of a string.
///
/// Returns `(sgr_prefix, remaining_content)`.
pub fn slice_from_column(s: &str, skip: usize) -> (r: (String, String))
    ensures
        sliced(ansi::tokens(s@, 0), skip as int, r.0@, r.1@),
        ansi::text_of(ansi::tokens(s@, 0)) == s@,
{
    slice_segments(&segments(s), skip)
}

/// Skip the first `skip` visible columns of a segmented text.
pub fn slice_segments(segs: &Vec<Segment>, skip: usize) -> (r: (String, String))
    ensures
        sliced(ansi::seg_views(segs@), skip as int, r.0@, r.1@),
{
    let ghost t = ansi::seg_views(segs@);
    let mut sgr_state: Vec<String> = Vec::new();
    let mut n: usize = 0;
    let mut col: usize = 0;
    proof {
        assert(t.take(0) =~= Seq::<Token>::empty());
        assert(text::views(sgr_state@) =~= sgr_after(t.take(0)));
    }
    let mut open: bool = skip > 0;
    while open && n < segs.len()
        invariant
            ansi::seg_views(segs@) == t,
            n <= segs@.len(),
            open ==> col < skip && col == ansi::cols_of(t.take(n as int)),
            !open ==> ansi::cols_of(t.take(n as int)) >= skip,
            forall|m: int| 0 <= m < n ==> ansi::cols_of(#[trigger] t.take(m)) < skip,
            text::views(sgr_state@) == sgr_after(t.take(n as int)),
        decreases segs.len() - n,
    {
        proof {
            assert(t[n as int] == segs@[n as int]@);
            assert(t.take(n as int + 1) =~= t.take(n as int).push(t[n as int]));
            assert(t.take(n as int + 1).drop_last() =~= t.take(n as int));
            ansi::lemma_text_push(t.take(n as int), t[n as int]);
        }
        let seg = &segs[n];
        if seg.code {
            update_sgr_state(&mut sgr_state, seg.text.as_str());
        }
        if seg.cols >= skip - col {
            open = false;
        } else {
            col = col + seg.cols;
        }
        n = n + 1;
    }
    let ghost covered = n as int;
    assert(cover_count(t, skip as int, covered));
    while n < segs.len() && segs[n].code
        invariant
            ansi::seg_views(segs@) == t,
            covered <= n <= segs@.len(),
            behind_codes(t, covered) == behind_codes(t, n as int),
            text::views(sgr_state@) == sgr_after(t.take(n as int)),
        decreases segs.len() - n,
    {
        proof {
            assert(t[n as int] == segs@[n as int]@);
            assert(t.take(n as int + 1).drop_last() =~= t.take(n as int));
        }
        update_sgr_state(&mut sgr_state, segs[n].text.as_str());
        n = n + 1;
    }
    proof {
        if n < segs@.len() {
            assert(t[n as int] == segs@[n as int]@);
        }
    }
    let from: usize = n;
    let mut rest = String::new();
    assert(t.subrange(from as int, from as int) =~= Seq::<Token>::empty());
    while n < segs.len()
        invariant
            ansi::seg_views(segs@) == t,
            from <= n <= segs@.len(),
            rest@ == ansi::text_of(t.subrange(from as int, n as int)),
        decreases segs.len() - n,
    {
        proof {
            assert(t[n as int] == segs@[n as int]@);
            assert(t.subrange(from as int, n as int + 1) =~= t.subrange(from as int, n as int).push(t[n as int]));
            ansi::lemma_text_push(t.subrange(from as int, n as int), t[n as int]);
        }
        rest.append(segs[n].text.as_str());
        n = n + 1;
    }
    proof {
        assert(t.subrange(from as int, n as int) =~= t.skip(from as int));
        assert(t =~= t.take(from as int) + t.skip(from as int));
        ansi::lemma_text_concat(t.take(from as int), t.skip(from as int));
    }
    (sgr_prefix(&sgr_state), rest)
}

} // verus!
