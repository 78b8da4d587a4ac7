//! Word wrapping of styled text.

use vstd::prelude::*;
use crate::text;
use crate::text::{copy_strings, split_at_char};
use crate::tui::ansi;
use crate::tui::ansi::{segments, Segment, Token};
use crate::tui::utils;
use crate::tui::utils::{sgr_prefix, update_sgr_state};

verus! {

/// A space within a line: one column.
pub open spec fn space() -> Token {
    Token { code: false, text: seq![' '], cols: 1 }
}

/// A place where a line may be broken: a space with `cols` columns before it, `tail` behind it,
/// and the SGR codes that were active at it.
pub struct BreakPoint {
    pub tail: Seq<Token>,
    pub cols: int,
    pub sgr: Seq<Seq<char>>,
}

/// A hard line that is being wrapped: the finished lines, the active SGR codes, and the line
/// under way, which is `head`, or `head`, the space and `tail` where it has a break point.
pub struct LineState {
    pub lines: Seq<Seq<Token>>,
    pub sgr: Seq<Seq<char>>,
    pub head: Seq<Token>,
    pub brk: Option<BreakPoint>,
    pub cols: int,
}

/// The codes that re-apply an SGR state.
pub open spec fn reapply(sgr: Seq<Seq<char>>) -> Seq<Token> {
    sgr.map_values(|c: Seq<char>| ansi::code_token(c))
}

/// The line under way.
pub open spec fn line(st: LineState) -> Seq<Token> {
    match st.brk {
        None => st.head,
        Some(b) => st.head.push(space()) + b.tail,
    }
}

pub open spec fn start(sgr: Seq<Seq<char>>) -> LineState {
    LineState { lines: Seq::empty(), sgr, head: reapply(sgr), brk: None, cols: 0 }
}

/// The line under way grows by a token.
pub open spec fn append(st: LineState, t: Token) -> LineState {
    let cols = st.cols + t.cols;
    match st.brk {
        None => LineState { head: st.head.push(t), cols, ..st },
        Some(b) => LineState { brk: Some(BreakPoint { tail: b.tail.push(t), ..b }), cols, ..st },
    }
}

/// The line under way is finished; the next starts with the active SGR codes.
pub open spec fn flush(st: LineState) -> LineState {
    LineState { lines: st.lines.push(line(st)), head: reapply(st.sgr), brk: None, cols: 0, ..st }
}

/// The line is broken at its break point: what stood before the space is finished, what stood
/// behind it goes on with the SGR codes of that place.
pub open spec fn break_at(st: LineState, b: BreakPoint) -> LineState {
    LineState {
        lines: st.lines.push(st.head),
        head: reapply(b.sgr) + b.tail,
        brk: None,
        cols: st.cols - b.cols - 1,
        ..st
    }
}

/// One token more.
pub open spec fn step(st: LineState, t: Token, width: int) -> LineState {
    if t.code {
        LineState { sgr: utils::sgr_step(st.sgr, t.text), ..append(st, t) }
    } else if t.text == seq![' '] {
        if st.cols + 1 > width && st.cols > 0 {
            // The space does not fit: the line ends without it.
            flush(st)
        } else {
            LineState {
                head: line(st),
                brk: Some(BreakPoint { tail: Seq::empty(), cols: st.cols, sgr: st.sgr }),
                cols: st.cols + 1,
                ..st
            }
        }
    } else if st.cols + t.cols > width {
        match st.brk {
            Some(b) => {
                let rest = break_at(st, b);
                if rest.cols > 0 && rest.cols + t.cols > width {
                    // The word is longer than a line: it is broken before this cluster.
                    append(flush(rest), t)
                } else {
                    append(rest, t)
                }
            },
            None => if st.cols == 0 {
                // Wider than a whole line: it stands alone.
                flush(append(st, t))
            } else {
                append(flush(st), t)
            },
        }
    } else {
        append(st, t)
    }
}

/// A hard line's tokens, taken one by one.
pub open spec fn fold_line(t: Seq<Token>, width: int, sgr: Seq<Seq<char>>) -> LineState
    decreases t.len(),
{
    if t.len() == 0 {
        start(sgr)
    } else {
        step(fold_line(t.drop_last(), width, sgr), t.last(), width)
    }
}

/// The lines of a hard line; the last one counts if it has columns or is the only one.
pub open spec fn finish(st: LineState) -> Seq<Seq<Token>> {
    if st.cols > 0 || st.lines.len() == 0 {
        st.lines.push(line(st))
    } else {
        st.lines
    }
}

/// The lines of a sequence of hard lines, and the SGR codes active behind them.
pub open spec fn wrap_all(hard: Seq<Seq<Token>>, width: int) -> (Seq<Seq<Token>>, Seq<Seq<char>>)
    decreases hard.len(),
{
    if hard.len() == 0 {
        (Seq::empty(), Seq::empty())
    } else {
        let (lines, sgr) = wrap_all(hard.drop_last(), width);
        let st = fold_line(hard.last(), width, sgr);
        (lines + finish(st), st.sgr)
    }
}

/// The tokens of each hard line of a text.
pub open spec fn hard_lines(s: Seq<char>) -> Seq<Seq<Token>> {
    text::split_on(s, '\n').map_values(|l: Seq<char>| ansi::tokens(l, 0))
}

pub open spec fn line_texts(lines: Seq<Seq<Token>>) -> Seq<Seq<char>> {
    lines.map_values(|l: Seq<Token>| ansi::text_of(l))
}

proof fn lemma_reapply_text(sgr: Seq<Seq<char>>)
    ensures
        ansi::text_of(reapply(sgr)) == text::concat(sgr),
        ansi::cols_of(reapply(sgr)) == 0,
    decreases sgr.len(),
{
    if sgr.len() > 0 {
        lemma_reapply_text(sgr.drop_last());
        assert(reapply(sgr).drop_last() =~= reapply(sgr.drop_last()));
    }
}

/// The wrapper of one hard line.
struct LineWrapper {
    width: usize,
    out: Vec<String>,
    sgr: Vec<String>,
    head: String,
    has_break: bool,
    tail: String,
    break_cols: usize,
    break_sgr: Vec<String>,
    cols: usize,
    over: bool,
}

impl LineWrapper {
    /// Does the wrapper hold `st`? Columns are counted as far as the width; `over` says that the
    /// line is past it.
    spec fn models(&self, st: LineState) -> bool {
        &&& text::views(self.out@) == line_texts(st.lines)
        &&& text::views(self.sgr@) == st.sgr
        &&& self.head@ == ansi::text_of(st.head)
        &&& self.has_break == st.brk is Some
        &&& st.brk matches Some(b) ==> {
            &&& self.tail@ == ansi::text_of(b.tail)
            &&& self.break_cols == b.cols
            &&& text::views(self.break_sgr@) == b.sgr
            &&& b.cols + 1 <= st.cols
            &&& !self.over
        }
        &&& !self.over ==> self.cols == st.cols && st.cols <= self.width
        &&& self.over ==> st.cols > self.width
    }

    fn new(width: usize, sgr: Vec<String>) -> (r: LineWrapper)
        ensures
            r.models(start(text::views(sgr@))),
            r.width == width,
    {
        let head = sgr_prefix(&sgr);
        proof {
            lemma_reapply_text(text::views(sgr@));
        }
        let r = LineWrapper {
            width,
            out: Vec::new(),
            sgr,
            head,
            has_break: false,
            tail: String::new(),
            break_cols: 0,
            break_sgr: Vec::new(),
            cols: 0,
            over: false,
        };
        assert(text::views(r.out@) =~= line_texts(Seq::empty()));
        r
    }

    /// The text of the line under way; the wrapper's own is then used up.
    fn take_line(&mut self, st: Ghost<LineState>) -> (r: String)
        requires
            old(self).models(st@),
        ensures
            r@ == ansi::text_of(line(st@)),
            final(self).out == old(self).out,
            final(self).sgr == old(self).sgr,
            final(self).width == old(self).width,
            final(self).cols == old(self).cols,
            final(self).over == old(self).over,
    {
        let mut line_text = String::new();
        std::mem::swap(&mut line_text, &mut self.head);
        if self.has_break {
            line_text.push(' ');
            line_text.append(self.tail.as_str());
            proof {
                let b = st@.brk->0;
                ansi::lemma_text_push(st@.head, space());
                ansi::lemma_text_concat(st@.head.push(space()), b.tail);
                assert(ansi::text_of(st@.head).push(' ') =~= ansi::text_of(st@.head) + seq![' ']);
            }
        }
        line_text
    }

    fn flush(&mut self, st: Ghost<LineState>)
        requires
            old(self).models(st@),
        ensures
            final(self).models(flush(st@)),
            final(self).width == old(self).width,
    {
        let line_text = self.take_line(st);
        let ghost before = text::views(self.out@);
        self.out.push(line_text);
        self.head = sgr_prefix(&self.sgr);
        self.has_break = false;
        self.cols = 0;
        self.over = false;
        proof {
            lemma_reapply_text(st@.sgr);
            assert(text::views(self.out@) =~= before.push(ansi::text_of(line(st@))));
            assert(line_texts(flush(st@).lines) =~= line_texts(st@.lines).push(ansi::text_of(line(st@))));
        }
    }

    /// Adds text to the line under way.
    fn push_text(&mut self, piece: &str, st: Ghost<LineState>, t: Ghost<Token>)
        requires
            old(self).models(st@),
            piece@ == t@.text,
            t@.cols == 0,
        ensures
            final(self).models(append(st@, t@)),
            final(self).width == old(self).width,
    {
        proof {
            ansi::lemma_text_push(st@.head, t@);
        }
        if self.has_break {
            proof {
                ansi::lemma_text_push(st@.brk->0.tail, t@);
            }
            self.tail.append(piece);
        } else {
            self.head.append(piece);
        }
    }

    /// Adds a grapheme cluster to the line under way.
    fn push_cell(&mut self, piece: &str, cols: usize, st: Ghost<LineState>, t: Ghost<Token>)
        requires
            old(self).models(st@),
            !old(self).over,
            piece@ == t@.text,
            t@.cols == cols,
            st@.brk is Some ==> st@.cols + cols <= old(self).width,
        ensures
            final(self).models(append(st@, t@)),
            final(self).width == old(self).width,
    {
        proof {
            ansi::lemma_text_push(st@.head, t@);
        }
        if self.has_break {
            proof {
                ansi::lemma_text_push(st@.brk->0.tail, t@);
            }
            self.tail.append(piece);
        } else {
            self.head.append(piece);
        }
        if cols > self.width - self.cols {
            self.over = true;
        } else {
            self.cols = self.cols + cols;
        }
    }

    fn step(&mut self, seg: &Segment, st: Ghost<LineState>)
        requires
            old(self).models(st@),
            old(self).width > 0,
            seg.code ==> seg.cols == 0,
        ensures
            final(self).models(step(st@, seg@, old(self).width as int)),
            final(self).width == old(self).width,
    {
        let ghost t = seg@;
        let width: usize = self.width;
        if seg.code {
            self.push_text(seg.text.as_str(), st, Ghost(t));
            update_sgr_state(&mut self.sgr, seg.text.as_str());
            return;
        }
        let v = text::chars_of(seg.text.as_str());
        let is_space: bool = v.len() == 1 && v[0] == ' ';
        assert(is_space == (t.text =~= seq![' ']));
        if is_space {
            if self.over || (self.cols >= width && self.cols > 0) {
                self.flush(st);
            } else {
                let cols: usize = self.cols;
                let head = self.take_line(st);
                self.head = head;
                self.has_break = true;
                self.tail = String::new();
                self.break_cols = cols;
                self.break_sgr = copy_strings(&self.sgr);
                self.cols = cols + 1;
            }
            return;
        }
        if self.over || seg.cols > width - self.cols {
            if self.has_break {
                let ghost b = st@.brk->0;
                let mut done = String::new();
                std::mem::swap(&mut done, &mut self.head);
                let ghost before = text::views(self.out@);
                self.out.push(done);
                let mut next = sgr_prefix(&self.break_sgr);
                next.append(self.tail.as_str());
                self.head = next;
                self.has_break = false;
                self.cols = self.cols - self.break_cols - 1;
                proof {
                    lemma_reapply_text(b.sgr);
                    ansi::lemma_text_concat(reapply(b.sgr), b.tail);
                    assert(text::views(self.out@) =~= before.push(ansi::text_of(st@.head)));
                    assert(line_texts(break_at(st@, b).lines) =~= line_texts(st@.lines).push(
                        ansi::text_of(st@.head),
                    ));
                }
                let ghost rest = break_at(st@, b);
                if self.cols > 0 && seg.cols > width - self.cols {
                    self.flush(Ghost(rest));
                    self.push_cell(seg.text.as_str(), seg.cols, Ghost(flush(rest)), Ghost(t));
                } else {
                    self.push_cell(seg.text.as_str(), seg.cols, Ghost(rest), Ghost(t));
                }
            } else if !self.over && self.cols == 0 {
                self.push_cell(seg.text.as_str(), seg.cols, st, Ghost(t));
                self.flush(Ghost(append(st@, t)));
            } else {
                self.flush(st);
                self.push_cell(seg.text.as_str(), seg.cols, Ghost(flush(st@)), Ghost(t));
            }
            return;
        }
        self.push_cell(seg.text.as_str(), seg.cols, st, Ghost(t));
    }
}

/// Wrap the segments of one hard line, starting with the SGR codes `sgr`.
///
/// Returns the lines and the SGR codes that are active behind them.
pub fn wrap_segments(segs: &Vec<Segment>, width: usize, sgr: Vec<String>) -> (r: (
    Vec<String>,
    Vec<String>,
))
    requires
        width > 0,
        forall|i: int| 0 <= i < segs@.len() && (#[trigger] segs@[i]).code ==> segs@[i].cols == 0,
    ensures
        ({
            let st = fold_line(ansi::seg_views(segs@), width as int, text::views(sgr@));
            &&& text::views(r.0@) == line_texts(finish(st))
            &&& text::views(r.1@) == st.sgr
        }),
{
    let ghost t = ansi::seg_views(segs@);
    let ghost sgr0 = text::views(sgr@);
    let mut w = LineWrapper::new(width, sgr);
    let mut i: usize = 0;
    assert(t.take(0) =~= Seq::<Token>::empty());
    while i < segs.len()
        invariant
            width > 0,
            t == ansi::seg_views(segs@),
            i <= segs@.len(),
            w.width == width,
            w.models(fold_line(t.take(i as int), width as int, sgr0)),
            forall|i: int| 0 <= i < segs@.len() && (#[trigger] segs@[i]).code ==> segs@[i].cols == 0,
        decreases segs.len() - i,
    {
        let ghost st = fold_line(t.take(i as int), width as int, sgr0);
        proof {
            assert(t.take(i as int + 1).drop_last() =~= t.take(i as int));
            assert(t.take(i as int + 1).last() == segs@[i as int]@);
        }
        w.step(&segs[i], Ghost(st));
        i = i + 1;
    }
    assert(t.take(i as int) =~= t);
    let ghost st = fold_line(t, width as int, sgr0);
    assert(line_texts(st.lines).len() == text::views(w.out@).len());
    if w.over || w.cols > 0 || w.out.len() == 0 {
        let last = w.take_line(Ghost(st));
        w.out.push(last);
        assert(line_texts(finish(st)) =~= line_texts(st.lines).push(ansi::text_of(line(st))));
        assert(text::views(w.out@) =~= line_texts(finish(st)));
    }
    let LineWrapper { out, sgr, .. } = w;
    (out, sgr)
}

/// Word-wrap text to fit within `width` visible columns, preserving escape codes.
///
/// - Lines are broken at spaces
/// - Words longer than a line are broken between grapheme clusters; a cluster that is wider than a
///   line by itself stands alone
/// - The active SGR codes are re-applied at the start of each wrapped line
/// - Hard line breaks are kept
///
/// Returns no line for an empty text or a width of zero.
pub fn wrap_text_with_ansi(text: &str, width: usize) -> (r: Vec<String>)
    ensures
        text@.len() == 0 || width == 0 ==> r@.len() == 0,
        text@.len() > 0 && width > 0 ==> text::views(r@) == line_texts(
            wrap_all(hard_lines(text@), width as int).0,
        ),
{
    let mut result: Vec<String> = Vec::new();
    if text.is_empty() || width == 0 {
        return result;
    }
    let hard = split_at_char(text, '\n');
    let mut sgr_state: Vec<String> = Vec::new();
    let ghost all = hard_lines(text@);
    let mut i: usize = 0;
    proof {
        assert(all.take(0) =~= Seq::<Seq<Token>>::empty());
        assert(text::views(result@) =~= line_texts(wrap_all(all.take(0), width as int).0));
        assert(text::views(sgr_state@) =~= Seq::empty());
    }
    while i < hard.len()
        invariant
            width > 0,
            text::views(hard@) == text::split_on(text@, '\n'),
            all == hard_lines(text@),
            i <= hard@.len(),
            text::views(result@) == line_texts(wrap_all(all.take(i as int), width as int).0),
            text::views(sgr_state@) == wrap_all(all.take(i as int), width as int).1,
        decreases hard.len() - i,
    {
        let segs = segments(hard[i].as_str());
        let ghost l = hard@[i as int]@;
        proof {
            assert(l == text::views(hard@)[i as int]);
            assert(all[i as int] == ansi::tokens(l, 0));
            tokens_are_sound(l, 0);
            assert forall|k: int| 0 <= k < segs@.len() && (#[trigger] segs@[k]).code implies segs@[k].cols
                == 0 by {
                assert(ansi::seg_views(segs@)[k] == segs@[k]@);
                assert(ansi::tokens(l, 0)[k].code);
            }
            assert(all.take(i as int + 1).drop_last() =~= all.take(i as int));
            assert(all.take(i as int + 1).last() == all[i as int]);
        }
        let (mut lines, sgr) = wrap_segments(&segs, width, sgr_state);
        let ghost before = text::views(result@);
        let ghost added = text::views(lines@);
        let ghost lines_before = wrap_all(all.take(i as int), width as int).0;
        let ghost st = fold_line(all[i as int], width as int, wrap_all(all.take(i as int), width as int).1);
        result.append(&mut lines);
        sgr_state = sgr;
        proof {
            assert(text::views(result@) =~= before + added);
            assert(line_texts(lines_before + finish(st)) =~= line_texts(lines_before) + line_texts(finish(st)));
        }
        i = i + 1;
    }
    assert(all.take(i as int) =~= all) by {
        assert(all.len() == text::views(hard@).len());
    }
    result
}

/// Columns are counted from zero, and an escape code takes none.
pub open spec fn sound(t: Seq<Token>) -> bool {
    forall|i: int|
        0 <= i < t.len() ==> (#[trigger] t[i]).cols >= 0 && (t[i].code ==> t[i].cols == 0)
}

/// How many grapheme clusters take columns.
pub open spec fn clusters(l: Seq<Token>) -> nat
    decreases l.len(),
{
    if l.len() == 0 {
        0
    } else {
        clusters(l.drop_last()) + (if l.last().cols > 0 {
            1nat
        } else {
            0nat
        })
    }
}

/// A line that fits in the width, unless it holds a single cluster, which is then wider by itself.
pub open spec fn fits(l: Seq<Token>, width: int) -> bool {
    ansi::cols_of(l) <= width || clusters(l) == 1
}

/// The grapheme clusters that can be seen: those with columns that are no spaces.
pub open spec fn seen(t: Seq<Token>) -> Seq<Seq<char>>
    decreases t.len(),
{
    if t.len() == 0 {
        Seq::empty()
    } else {
        let before = seen(t.drop_last());
        if t.last().cols > 0 && t.last().text != seq![' '] {
            before.push(t.last().text)
        } else {
            before
        }
    }
}

/// What can be seen on all the lines, in order.
pub open spec fn all_seen(lines: Seq<Seq<Token>>) -> Seq<Seq<char>>
    decreases lines.len(),
{
    if lines.len() == 0 {
        Seq::empty()
    } else {
        all_seen(lines.drop_last()) + seen(lines.last())
    }
}

proof fn lemma_seen_push(t: Seq<Token>, x: Token)
    ensures
        seen(t.push(x)) == if x.cols > 0 && x.text != seq![' '] {
            seen(t).push(x.text)
        } else {
            seen(t)
        },
{
    assert(t.push(x).drop_last() =~= t);
}

proof fn lemma_seen_concat(a: Seq<Token>, b: Seq<Token>)
    ensures
        seen(a + b) == seen(a) + seen(b),
    decreases b.len(),
{
    if b.len() == 0 {
        assert(a + b =~= a);
        assert(seen(a) + seen(b) =~= seen(a));
    } else {
        lemma_seen_concat(a, b.drop_last());
        assert((a + b).drop_last() =~= a + b.drop_last());
        assert(seen(a + b) =~= seen(a) + seen(b));
    }
}

proof fn lemma_all_seen_push(lines: Seq<Seq<Token>>, l: Seq<Token>)
    ensures
        all_seen(lines.push(l)) == all_seen(lines) + seen(l),
{
    assert(lines.push(l).drop_last() =~= lines);
}

proof fn lemma_all_seen_concat(a: Seq<Seq<Token>>, b: Seq<Seq<Token>>)
    ensures
        all_seen(a + b) == all_seen(a) + all_seen(b),
    decreases b.len(),
{
    if b.len() == 0 {
        assert(a + b =~= a);
        assert(all_seen(a) + all_seen(b) =~= all_seen(a));
    } else {
        lemma_all_seen_concat(a, b.drop_last());
        assert((a + b).drop_last() =~= a + b.drop_last());
        assert(all_seen(a + b) =~= all_seen(a) + all_seen(b));
    }
}

proof fn lemma_reapply_unseen(sgr: Seq<Seq<char>>)
    ensures
        seen(reapply(sgr)) == Seq::<Seq<char>>::empty(),
        sound(reapply(sgr)),
        ansi::cols_of(reapply(sgr)) == 0,
    decreases sgr.len(),
{
    lemma_reapply_text(sgr);
    if sgr.len() > 0 {
        lemma_reapply_unseen(sgr.drop_last());
        assert(reapply(sgr).drop_last() =~= reapply(sgr.drop_last()));
    }
}

proof fn lemma_cols_nonnegative(t: Seq<Token>)
    requires
        sound(t),
    ensures
        ansi::cols_of(t) >= 0,
        ansi::cols_of(t) == 0 ==> seen(t) == Seq::<Seq<char>>::empty() && clusters(t) == 0,
    decreases t.len(),
{
    if t.len() > 0 {
        assert(sound(t.drop_last()));
        lemma_cols_nonnegative(t.drop_last());
        assert(t.last() == t[t.len() - 1]);
    }
}

/// What holds of a hard line while it is wrapped: the columns are those of the line under way;
/// a line with a break point fits; every finished line, and the one under way, fits unless it holds
/// a single cluster; and nothing that was seen is lost.
spec fn orderly(st: LineState, width: int, t: Seq<Token>) -> bool {
    &&& sound(line(st))
    &&& ansi::cols_of(line(st)) == st.cols
    &&& st.brk matches Some(b) ==> {
        &&& ansi::cols_of(st.head) == b.cols
        &&& ansi::cols_of(b.tail) == st.cols - b.cols - 1
        &&& sound(st.head)
        &&& sound(b.tail)
        &&& st.cols <= width
    }
    &&& fits(line(st), width)
    &&& forall|i: int| 0 <= i < st.lines.len() ==> fits(#[trigger] st.lines[i], width)
    &&& all_seen(st.lines) + seen(line(st)) == seen(t)
}

/// No grapheme cluster is wider than a line.
pub open spec fn narrow(t: Seq<Token>, width: int) -> bool {
    forall|i: int| 0 <= i < t.len() ==> (#[trigger] t[i]).cols <= width
}

/// The line under way and every finished line fit.
spec fn snug(st: LineState, width: int) -> bool {
    &&& st.cols <= width
    &&& forall|i: int|
        0 <= i < st.lines.len() ==> ansi::cols_of(#[trigger] st.lines[i]) <= width
}

proof fn lemma_append_orderly(st: LineState, width: int, t: Seq<Token>, x: Token)
    requires
        orderly(st, width, t),
        x.cols >= 0,
        x.code ==> x.cols == 0,
        !x.code ==> st.cols == 0 || st.cols + x.cols <= width,
        st.brk is Some ==> st.cols + x.cols <= width,
        x.code || x.text != seq![' '],
    ensures
        orderly(append(st, x), width, t.push(x)),
        append(st, x).lines == st.lines,
        line(append(st, x)) == line(st).push(x),
{
    let next = append(st, x);
    assert(line(next) =~= line(st).push(x));
    ansi::lemma_text_push(line(st), x);
    match st.brk {
        Some(b) => {
            ansi::lemma_text_push(b.tail, x);
        },
        None => {},
    }
    assert(line(next).drop_last() =~= line(st));
    lemma_cols_nonnegative(line(st));
    lemma_seen_push(line(st), x);
    lemma_seen_push(t, x);
    assert(all_seen(next.lines) + seen(line(next)) =~= seen(t.push(x)));
}

proof fn lemma_flush_orderly(st: LineState, width: int, t: Seq<Token>)
    requires
        orderly(st, width, t),
        width > 0,
    ensures
        orderly(flush(st), width, t),
{
    let next = flush(st);
    lemma_reapply_unseen(st.sgr);
    lemma_all_seen_push(st.lines, line(st));
    assert(all_seen(next.lines) + seen(line(next)) =~= seen(t));
}

proof fn lemma_step_orderly(st: LineState, width: int, t: Seq<Token>, x: Token)
    requires
        orderly(st, width, t),
        width > 0,
        x.cols >= 0,
        x.code ==> x.cols == 0,
    ensures
        orderly(step(st, x, width), width, t.push(x)),
{
    let next = step(st, x, width);
    lemma_cols_nonnegative(line(st));
    lemma_seen_push(t, x);
    if x.code {
        lemma_append_orderly(st, width, t, x);
    } else if x.text == seq![' '] {
        if st.cols + 1 > width && st.cols > 0 {
            lemma_flush_orderly(st, width, t);
        } else {
            lemma_seen_push(line(st), space());
            ansi::lemma_text_push(line(st), space());
            assert(line(next) =~= line(st).push(space()));
            assert(next.brk->0.tail =~= Seq::<Token>::empty());
        }
    } else if st.cols + x.cols > width {
        match st.brk {
            Some(b) => {
                let mid = break_at(st, b);
                lemma_reapply_unseen(b.sgr);
                ansi::lemma_text_concat(reapply(b.sgr), b.tail);
                lemma_all_seen_push(st.lines, st.head);
                lemma_seen_concat(reapply(b.sgr), b.tail);
                lemma_seen_push(st.head, space());
                lemma_seen_concat(st.head.push(space()), b.tail);
                lemma_cols_nonnegative(b.tail);
                lemma_cols_nonnegative(st.head);
                assert(sound(line(mid)));
                assert(all_seen(mid.lines) + seen(line(mid)) =~= seen(t));
                assert(orderly(mid, width, t));
                if mid.cols > 0 && mid.cols + x.cols > width {
                    lemma_flush_orderly(mid, width, t);
                    lemma_append_orderly(flush(mid), width, t, x);
                } else {
                    lemma_append_orderly(mid, width, t, x);
                }
            },
            None => {
                if st.cols == 0 {
                    lemma_append_orderly(st, width, t, x);
                    lemma_flush_orderly(append(st, x), width, t.push(x));
                } else {
                    lemma_flush_orderly(st, width, t);
                    lemma_append_orderly(flush(st), width, t, x);
                }
            },
        }
    } else {
        lemma_append_orderly(st, width, t, x);
    }
}

proof fn lemma_step_snug(st: LineState, width: int, t: Seq<Token>, x: Token)
    requires
        orderly(st, width, t),
        snug(st, width),
        width > 0,
        0 <= x.cols <= width,
        x.code ==> x.cols == 0,
    ensures
        snug(step(st, x, width), width),
{
    lemma_cols_nonnegative(line(st));
    if !x.code && x.text != seq![' '] && st.cols + x.cols > width {
        match st.brk {
            Some(b) => {
                let rest = break_at(st, b);
                lemma_cols_nonnegative(st.head);
                lemma_cols_nonnegative(b.tail);
                lemma_reapply_unseen(b.sgr);
                ansi::lemma_text_concat(reapply(b.sgr), b.tail);
                assert(ansi::cols_of(line(rest)) == rest.cols);
                assert(snug(rest, width));
            },
            None => {},
        }
    }
}

proof fn lemma_fold_orderly(t: Seq<Token>, width: int, sgr: Seq<Seq<char>>)
    requires
        sound(t),
        width > 0,
    ensures
        orderly(fold_line(t, width, sgr), width, t),
        narrow(t, width) ==> snug(fold_line(t, width, sgr), width),
    decreases t.len(),
{
    if t.len() == 0 {
        lemma_reapply_unseen(sgr);
        assert(all_seen(Seq::<Seq<Token>>::empty()) + seen(reapply(sgr)) =~= seen(t));
    } else {
        let before = t.drop_last();
        assert(sound(before)) by {
            assert forall|i: int| 0 <= i < before.len() implies (#[trigger] before[i]).cols >= 0 && (before[i].code
                ==> before[i].cols == 0) by {
                assert(before[i] == t[i]);
            }
        }
        lemma_fold_orderly(before, width, sgr);
        assert(t.last() == t[t.len() - 1]);
        assert(before.push(t.last()) =~= t);
        lemma_step_orderly(fold_line(before, width, sgr), width, before, t.last());
        if narrow(t, width) {
            assert(narrow(before, width)) by {
                assert forall|i: int| 0 <= i < before.len() implies (#[trigger] before[i]).cols <= width by {
                    assert(before[i] == t[i]);
                }
            }
            lemma_step_snug(fold_line(before, width, sgr), width, before, t.last());
        }
    }
}

/// Every wrapped line fits in the width, unless it holds a single grapheme cluster that is wider by
/// itself.
pub proof fn wrapped_lines_fit(hard: Seq<Seq<Token>>, width: int)
    requires
        width > 0,
        forall|i: int| 0 <= i < hard.len() ==> sound(#[trigger] hard[i]),
    ensures
        forall|i: int|
            0 <= i < wrap_all(hard, width).0.len() ==> fits(
                #[trigger] wrap_all(hard, width).0[i],
                width,
            ),
    decreases hard.len(),
{
    if hard.len() > 0 {
        let before = hard.drop_last();
        assert forall|i: int| 0 <= i < before.len() implies sound(#[trigger] before[i]) by {
            assert(before[i] == hard[i]);
        }
        wrapped_lines_fit(before, width);
        assert(hard.last() == hard[hard.len() - 1]);
        lemma_fold_orderly(hard.last(), width, wrap_all(before, width).1);
    }
}

/// Where no grapheme cluster is wider than the width, every wrapped line fits in it.
pub proof fn narrow_text_fits(hard: Seq<Seq<Token>>, width: int)
    requires
        width > 0,
        forall|i: int| 0 <= i < hard.len() ==> sound(#[trigger] hard[i]) && narrow(hard[i], width),
    ensures
        forall|i: int|
            0 <= i < wrap_all(hard, width).0.len() ==> ansi::cols_of(
                #[trigger] wrap_all(hard, width).0[i],
            ) <= width,
    decreases hard.len(),
{
    if hard.len() > 0 {
        let before = hard.drop_last();
        assert forall|i: int| 0 <= i < before.len() implies sound(#[trigger] before[i]) && narrow(
            before[i],
            width,
        ) by {
            assert(before[i] == hard[i]);
        }
        narrow_text_fits(before, width);
        assert(hard.last() == hard[hard.len() - 1]);
        lemma_fold_orderly(hard.last(), width, wrap_all(before, width).1);
    }
}

/// Wrapping loses nothing that can be seen but spaces, and keeps the order.
pub proof fn wrapping_keeps_what_is_seen(hard: Seq<Seq<Token>>, width: int)
    requires
        width > 0,
        forall|i: int| 0 <= i < hard.len() ==> sound(#[trigger] hard[i]),
    ensures
        all_seen(wrap_all(hard, width).0) == all_seen(hard),
    decreases hard.len(),
{
    if hard.len() > 0 {
        let before = hard.drop_last();
        assert forall|i: int| 0 <= i < before.len() implies sound(#[trigger] before[i]) by {
            assert(before[i] == hard[i]);
        }
        wrapping_keeps_what_is_seen(before, width);
        assert(hard.last() == hard[hard.len() - 1]);
        let (lines, sgr) = wrap_all(before, width);
        let st = fold_line(hard.last(), width, sgr);
        lemma_fold_orderly(hard.last(), width, sgr);
        lemma_cols_nonnegative(line(st));
        lemma_all_seen_push(st.lines, line(st));
        lemma_all_seen_concat(lines, finish(st));
        if st.cols == 0 && st.lines.len() > 0 {
            assert(all_seen(st.lines) + Seq::<Seq<char>>::empty() =~= all_seen(st.lines));
        }
    }
}

/// The tokens of a text have sound columns.
pub proof fn tokens_are_sound(s: Seq<char>, pos: int)
    ensures
        sound(ansi::tokens(s, pos)),
    decreases s.len() - pos,
{
    if 0 <= pos < s.len() {
        let t = ansi::token_at(s, pos);
        if t.text.len() > 0 && pos + t.text.len() <= s.len() {
            let rest = ansi::tokens(s, pos + t.text.len());
            let all = ansi::tokens(s, pos);
            tokens_are_sound(s, pos + t.text.len());
            assert forall|i: int| 0 <= i < all.len() implies (#[trigger] all[i]).cols >= 0 && (all[i].code
                ==> all[i].cols == 0) by {
                if i > 0 {
                    assert(all[i] == rest[i - 1]);
                }
            }
        }
    }
}

// ---------------------------------------------------------------------------
// Where lines are broken
// ---------------------------------------------------------------------------

/// Does this token end a word?
pub open spec fn is_space(x: Token) -> bool {
    !x.code && x.text == seq![' ']
}

/// Can this token be seen?
pub open spec fn shown(x: Token) -> bool {
    x.cols > 0 && x.text != seq![' ']
}

/// The columns of the word that the sequence ends with.
pub open spec fn word_cols(t: Seq<Token>) -> int
    decreases t.len(),
{
    if t.len() == 0 || is_space(t.last()) {
        0
    } else {
        word_cols(t.drop_last()) + t.last().cols
    }
}

/// The columns from place `p` to the end of the word there.
pub open spec fn rest_cols(t: Seq<Token>, p: int) -> int
    decreases t.len() - p,
{
    if p < 0 || p >= t.len() || is_space(t[p]) {
        0
    } else {
        t[p].cols + rest_cols(t, p + 1)
    }
}

pub open spec fn no_space(t: Seq<Token>) -> bool {
    forall|i: int| 0 <= i < t.len() ==> !is_space(#[trigger] t[i])
}

/// Is `p` the place of the cluster that is seen behind `n` others?
pub open spec fn seen_behind(t: Seq<Token>, p: int, n: nat) -> bool {
    0 <= p < t.len() && shown(t[p]) && seen(t.take(p)).len() == n
}

/// Is this a good place for a line of `c` columns to end, behind the first `n` clusters that are
/// seen? What follows does not fit on the line, and it starts a word, unless the word is too wide.
spec fn good_end(t: Seq<Token>, width: int, c: int, n: nat) -> bool {
    &&& n <= seen(t).len()
    &&& forall|p: int|
        #[trigger] seen_behind(t, p, n) ==> c + 1 + rest_cols(t, p) > width && (word_cols(t.take(p)) > 0 ==> word_cols(
            t.take(p + 1),
        ) > width)
    &&& n == seen(t).len() ==> c + 1 > width && (word_cols(t) > 0 ==> word_cols(t) > width)
}

proof fn lemma_word_cols_push(t: Seq<Token>, x: Token)
    ensures
        word_cols(t.push(x)) == if is_space(x) {
            0
        } else {
            word_cols(t) + x.cols
        },
{
    assert(t.push(x).drop_last() =~= t);
}

proof fn lemma_word_cols_nonnegative(t: Seq<Token>)
    requires
        sound(t),
    ensures
        word_cols(t) >= 0,
    decreases t.len(),
{
    if t.len() > 0 {
        assert(sound(t.drop_last()));
        lemma_word_cols_nonnegative(t.drop_last());
        assert(t.last() == t[t.len() - 1]);
    }
}

proof fn lemma_rest_cols_push(t: Seq<Token>, x: Token, p: int)
    requires
        sound(t),
        x.cols >= 0,
        0 <= p <= t.len(),
    ensures
        rest_cols(t.push(x), p) >= rest_cols(t, p) >= 0,
        no_space(t.skip(p)) && !is_space(x) ==> rest_cols(t.push(x), p) == rest_cols(t, p) + x.cols,
    decreases t.len() - p,
{
    let u = t.push(x);
    if p < t.len() {
        assert(u[p] == t[p]);
        lemma_rest_cols_push(t, x, p + 1);
        if no_space(t.skip(p)) {
            assert(t.skip(p)[0] == t[p]);
            assert forall|i: int| 0 <= i < t.skip(p + 1).len() implies !is_space(#[trigger] t.skip(p + 1)[i]) by {
                assert(t.skip(p)[i + 1] == t.skip(p + 1)[i]);
            }
        }
    } else {
        assert(u[p] == x);
        assert(rest_cols(u, p + 1) == 0);
    }
}

/// A cluster that is seen counts.
proof fn lemma_seen_before(t: Seq<Token>, p: int)
    requires
        0 <= p < t.len(),
    ensures
        seen(t.take(p)).len() <= seen(t).len(),
        shown(t[p]) ==> seen(t.take(p)).len() < seen(t).len(),
    decreases t.len(),
{
    let d = t.drop_last();
    if p < d.len() {
        lemma_seen_before(d, p);
        assert(d.take(p) =~= t.take(p));
    } else {
        assert(t.take(p) =~= d);
    }
}

proof fn lemma_good_end_push(t: Seq<Token>, width: int, c: int, n: nat, x: Token)
    requires
        sound(t),
        good_end(t, width, c, n),
        x.cols >= 0,
        x.code ==> x.cols == 0,
    ensures
        good_end(t.push(x), width, c, n),
{
    let u = t.push(x);
    lemma_seen_push(t, x);
    lemma_word_cols_push(t, x);
    assert forall|p: int| #[trigger] seen_behind(u, p, n) implies c + 1 + rest_cols(u, p) > width && (word_cols(u.take(p)) > 0
        ==> word_cols(u.take(p + 1)) > width) by {
        lemma_rest_cols_push(t, x, p);
        if p < t.len() {
            assert(u.take(p) =~= t.take(p));
            assert(u.take(p + 1) =~= t.take(p + 1));
            assert(seen_behind(t, p, n));
        } else {
            assert(u.take(p) =~= t);
            assert(u.take(p + 1) =~= u);
        }
    }
}

/// A line that ends behind everything so far, and that takes no more.
proof fn lemma_good_end_full(t: Seq<Token>, width: int, c: int)
    requires
        c + 1 > width,
        word_cols(t) > 0 ==> word_cols(t) > width,
    ensures
        good_end(t, width, c, seen(t).len()),
{
    assert forall|p: int| #[trigger] seen_behind(t, p, seen(t).len()) implies false by {
        lemma_seen_before(t, p);
    }
}

/// A line that ends before the cluster `x`, which does not fit.
proof fn lemma_good_end_before(t: Seq<Token>, width: int, c: int, x: Token)
    requires
        sound(t),
        shown(x),
        c + 1 + x.cols > width,
        word_cols(t) > 0 ==> word_cols(t) + x.cols > width,
    ensures
        good_end(t.push(x), width, c, seen(t).len()),
{
    let u = t.push(x);
    let n = seen(t).len();
    lemma_seen_push(t, x);
    lemma_word_cols_push(t, x);
    assert forall|p: int| #[trigger] seen_behind(u, p, n) implies c + 1 + rest_cols(u, p) > width && (word_cols(u.take(p)) > 0
        ==> word_cols(u.take(p + 1)) > width) by {
        if p < t.len() {
            assert(u.take(p) =~= t.take(p));
            lemma_seen_before(t, p);
        } else {
            lemma_rest_cols_push(t, x, p);
            assert(t.skip(p) =~= Seq::<Token>::empty());
            assert(rest_cols(t, p) == 0);
            assert(u.take(p) =~= t);
            assert(u.take(p + 1) =~= u);
        }
    }
}

/// The word under way starts behind the first `n` clusters that are seen.
spec fn word_starts(t: Seq<Token>, n: nat) -> bool {
    &&& n <= seen(t).len()
    &&& forall|p: int|
        #[trigger] seen_behind(t, p, n) ==> word_cols(t.take(p)) == 0 && no_space(t.skip(p)) && rest_cols(t, p) == word_cols(t)
    &&& n == seen(t).len() ==> word_cols(t) == 0
}

proof fn lemma_word_starts_push(t: Seq<Token>, n: nat, x: Token)
    requires
        sound(t),
        word_starts(t, n),
        x.cols >= 0,
        x.code ==> x.cols == 0,
        !is_space(x),
    ensures
        word_starts(t.push(x), n),
{
    let u = t.push(x);
    lemma_seen_push(t, x);
    lemma_word_cols_push(t, x);
    assert forall|p: int| #[trigger] seen_behind(u, p, n) implies word_cols(u.take(p)) == 0 && no_space(u.skip(p)) && rest_cols(
        u,
        p,
    ) == word_cols(u) by {
        lemma_rest_cols_push(t, x, p);
        if p < t.len() {
            assert(u.take(p) =~= t.take(p));
            assert(seen_behind(t, p, n));
            assert(u.skip(p) =~= t.skip(p).push(x));
        } else {
            assert(u.take(p) =~= t);
            assert(t.skip(p) =~= Seq::<Token>::empty());
            assert(u.skip(p) =~= seq![x]);
        }
    }
}

/// A line that ends at the space before the word under way, which does not fit with `x`.
proof fn lemma_good_end_at_space(t: Seq<Token>, width: int, c: int, n: nat, x: Token)
    requires
        sound(t),
        word_starts(t, n),
        x.cols >= 0,
        x.code ==> x.cols == 0,
        !is_space(x),
        c + 1 + word_cols(t) + x.cols > width,
    ensures
        good_end(t.push(x), width, c, n),
{
    let u = t.push(x);
    lemma_word_starts_push(t, n, x);
    lemma_word_cols_push(t, x);
}

/// What holds of the ends of lines while a hard line is wrapped.
spec fn well_broken(st: LineState, width: int, t: Seq<Token>) -> bool {
    &&& forall|i: int|
        0 <= i < st.lines.len() ==> good_end(
            t,
            width,
            ansi::cols_of(#[trigger] st.lines[i]),
            all_seen(st.lines.take(i + 1)).len(),
        )
    &&& st.brk is None ==> word_cols(t) >= st.cols
    &&& st.brk matches Some(b) ==> word_cols(t) == ansi::cols_of(b.tail) && word_starts(
        t,
        (all_seen(st.lines).len() + seen(st.head).len()) as nat,
    )
}

/// The finished lines, and one more, end well.
proof fn lemma_one_more_line(lines: Seq<Seq<Token>>, l: Seq<Token>, width: int, t: Seq<Token>)
    requires
        forall|i: int|
            0 <= i < lines.len() ==> good_end(t, width, ansi::cols_of(#[trigger] lines[i]), all_seen(lines.take(i + 1)).len()),
        good_end(t, width, ansi::cols_of(l), (all_seen(lines).len() + seen(l).len()) as nat),
    ensures
        forall|i: int|
            0 <= i < lines.push(l).len() ==> good_end(
                t,
                width,
                ansi::cols_of(#[trigger] lines.push(l)[i]),
                all_seen(lines.push(l).take(i + 1)).len(),
            ),
{
    let more = lines.push(l);
    assert forall|i: int| 0 <= i < more.len() implies good_end(
        t,
        width,
        ansi::cols_of(#[trigger] more[i]),
        all_seen(more.take(i + 1)).len(),
    ) by {
        if i < lines.len() {
            assert(more[i] == lines[i]);
            assert(more.take(i + 1) =~= lines.take(i + 1));
        } else {
            assert(more.take(i + 1) =~= more);
            lemma_all_seen_push(lines, l);
        }
    }
}

#[verifier::rlimit(40)]
proof fn lemma_step_well_broken(st: LineState, width: int, t: Seq<Token>, x: Token)
    requires
        orderly(st, width, t),
        well_broken(st, width, t),
        sound(t),
        width > 0,
        x.cols >= 0,
        x.code ==> x.cols == 0,
    ensures
        well_broken(step(st, x, width), width, t.push(x)),
{
    let u = t.push(x);
    let next = step(st, x, width);
    lemma_seen_push(t, x);
    lemma_word_cols_push(t, x);
    lemma_word_cols_nonnegative(t);
    lemma_cols_nonnegative(line(st));
    assert forall|i: int| 0 <= i < st.lines.len() implies good_end(
        u,
        width,
        ansi::cols_of(#[trigger] st.lines[i]),
        all_seen(st.lines.take(i + 1)).len(),
    ) by {
        lemma_good_end_push(t, width, ansi::cols_of(st.lines[i]), all_seen(st.lines.take(i + 1)).len(), x);
    }
    assert(seen(t).len() == all_seen(st.lines).len() + seen(line(st)).len());
    if x.code {
        if st.brk is Some {
            let b = st.brk->0;
            lemma_word_starts_push(t, (all_seen(st.lines).len() + seen(st.head).len()) as nat, x);
            ansi::lemma_text_push(b.tail, x);
        }
    } else if x.text == seq![' '] {
        if st.cols + 1 > width && st.cols > 0 {
            lemma_good_end_full(u, width, st.cols);
            lemma_one_more_line(st.lines, line(st), width, u);
        } else {
            assert(ansi::cols_of(Seq::<Token>::empty()) == 0);
            assert forall|p: int| #[trigger] seen_behind(u, p, seen(u).len()) implies false by {
                lemma_seen_before(u, p);
            }
        }
    } else if st.cols + x.cols > width {
        match st.brk {
            Some(b) => {
                let rest = break_at(st, b);
                let n = (all_seen(st.lines).len() + seen(st.head).len()) as nat;
                lemma_cols_nonnegative(b.tail);
                lemma_good_end_at_space(t, width, b.cols, n, x);
                lemma_one_more_line(st.lines, st.head, width, u);
                lemma_reapply_unseen(b.sgr);
                ansi::lemma_text_concat(reapply(b.sgr), b.tail);
                assert(line(rest) == reapply(b.sgr) + b.tail);
                if rest.cols > 0 && rest.cols + x.cols > width {
                    lemma_all_seen_push(st.lines, st.head);
                    lemma_seen_concat(reapply(b.sgr), b.tail);
                    lemma_seen_push(st.head, space());
                    lemma_seen_concat(st.head.push(space()), b.tail);
                    assert(all_seen(rest.lines).len() + seen(line(rest)).len() == seen(t).len());
                    if shown(x) {
                        lemma_good_end_before(t, width, rest.cols, x);
                    } else {
                        lemma_good_end_full(u, width, rest.cols);
                    }
                    lemma_one_more_line(rest.lines, line(rest), width, u);
                }
            },
            None => {
                if st.cols == 0 {
                    let one = append(st, x);
                    assert(line(one) =~= line(st).push(x));
                    lemma_seen_push(line(st), x);
                    ansi::lemma_text_push(line(st), x);
                    lemma_good_end_full(u, width, x.cols);
                    lemma_one_more_line(st.lines, line(one), width, u);
                } else {
                    if shown(x) {
                        lemma_good_end_before(t, width, st.cols, x);
                    } else {
                        lemma_good_end_full(u, width, st.cols);
                    }
                    lemma_one_more_line(st.lines, line(st), width, u);
                }
            },
        }
    } else {
        if st.brk is Some {
            let b = st.brk->0;
            lemma_word_starts_push(t, (all_seen(st.lines).len() + seen(st.head).len()) as nat, x);
            ansi::lemma_text_push(b.tail, x);
        }
    }
}

proof fn lemma_fold_well_broken(t: Seq<Token>, width: int, sgr: Seq<Seq<char>>)
    requires
        sound(t),
        width > 0,
    ensures
        well_broken(fold_line(t, width, sgr), width, t),
    decreases t.len(),
{
    if t.len() > 0 {
        let before = t.drop_last();
        assert(sound(before)) by {
            assert forall|i: int| 0 <= i < before.len() implies (#[trigger] before[i]).cols >= 0 && (before[i].code
                ==> before[i].cols == 0) by {
                assert(before[i] == t[i]);
            }
        }
        lemma_fold_well_broken(before, width, sgr);
        lemma_fold_orderly(before, width, sgr);
        assert(t.last() == t[t.len() - 1]);
        assert(before.push(t.last()) =~= t);
        lemma_step_well_broken(fold_line(before, width, sgr), width, before, t.last());
    }
}

/// The lines that a hard line becomes.
pub open spec fn lines_for(t: Seq<Token>, width: int, sgr: Seq<Seq<char>>) -> Seq<Seq<Token>> {
    finish(fold_line(t, width, sgr))
}

proof fn lemma_ends(t: Seq<Token>, width: int, sgr: Seq<Seq<char>>, i: int)
    requires
        sound(t),
        width > 0,
        0 <= i,
        i + 1 < lines_for(t, width, sgr).len(),
    ensures
        good_end(
            t,
            width,
            ansi::cols_of(lines_for(t, width, sgr)[i]),
            all_seen(lines_for(t, width, sgr).take(i + 1)).len(),
        ),
{
    let st = fold_line(t, width, sgr);
    let lines = lines_for(t, width, sgr);
    lemma_fold_well_broken(t, width, sgr);
    assert(lines[i] == st.lines[i]);
    assert(lines.take(i + 1) =~= st.lines.take(i + 1));
}

/// A line ends within a word only if that word is by itself wider than the width: wherever a wrapped
/// line starts with a cluster that goes on with the word of the cluster before it, that word is, up to
/// this cluster, wider than a whole line.
pub proof fn words_are_broken_only_if_too_wide(t: Seq<Token>, width: int, sgr: Seq<Seq<char>>, i: int, p: int)
    requires
        sound(t),
        width > 0,
        0 < i < lines_for(t, width, sgr).len(),
        seen_behind(t, p, all_seen(lines_for(t, width, sgr).take(i)).len()),
        word_cols(t.take(p)) > 0,
    ensures
        word_cols(t.take(p + 1)) > width,
{
    lemma_ends(t, width, sgr, i - 1);
}

/// A line ends only where it has to: the rest of the word that the next line starts with would not have
/// fitted behind it and a space.
pub proof fn lines_are_filled(t: Seq<Token>, width: int, sgr: Seq<Seq<char>>, i: int, p: int)
    requires
        sound(t),
        width > 0,
        0 < i < lines_for(t, width, sgr).len(),
        seen_behind(t, p, all_seen(lines_for(t, width, sgr).take(i)).len()),
    ensures
        ansi::cols_of(lines_for(t, width, sgr)[i - 1]) + 1 + rest_cols(t, p) > width,
{
    lemma_ends(t, width, sgr, i - 1);
}

/// Each space takes a column.
pub open spec fn spaces_count(t: Seq<Token>) -> bool {
    forall|i: int| 0 <= i < t.len() && is_space(#[trigger] t[i]) ==> t[i].cols == 1
}

proof fn lemma_fits_whole(t: Seq<Token>, width: int, sgr: Seq<Seq<char>>)
    requires
        sound(t),
        spaces_count(t),
        ansi::cols_of(t) <= width,
        width > 0,
    ensures
        fold_line(t, width, sgr).lines.len() == 0,
        line(fold_line(t, width, sgr)) == reapply(sgr) + t,
        fold_line(t, width, sgr).cols == ansi::cols_of(t),
    decreases t.len(),
{
    let st = fold_line(t, width, sgr);
    if t.len() == 0 {
        assert(line(st) =~= reapply(sgr) + t);
    } else {
        let before = t.drop_last();
        let x = t.last();
        assert(x == t[t.len() - 1]);
        assert forall|i: int| 0 <= i < before.len() implies (#[trigger] before[i]).cols >= 0 && (before[i].code ==> before[i].cols
            == 0) && (is_space(before[i]) ==> before[i].cols == 1) by {
            assert(before[i] == t[i]);
        }
        lemma_fits_whole(before, width, sgr);
        lemma_cols_nonnegative(before);
        let prev = fold_line(before, width, sgr);
        if is_space(x) {
            assert(x == space());
        }
        assert(line(st) =~= line(prev).push(x));
        assert(line(st) =~= reapply(sgr) + t);
    }
}

/// A hard line that fits is left as it is.
pub proof fn what_fits_stays_on_its_line(t: Seq<Token>, width: int, sgr: Seq<Seq<char>>)
    requires
        sound(t),
        spaces_count(t),
        ansi::cols_of(t) <= width,
        width > 0,
    ensures
        lines_for(t, width, sgr) == seq![reapply(sgr) + t],
{
    lemma_fits_whole(t, width, sgr);
    assert(Seq::<Seq<Token>>::empty().push(reapply(sgr) + t) =~= seq![reapply(sgr) + t]);
    assert(fold_line(t, width, sgr).lines =~= Seq::empty());
}

// ---------------------------------------------------------------------------
// Words
// ---------------------------------------------------------------------------

/// The words that are complete, and the one under way, each as the clusters that are seen of it.
pub open spec fn token_words(t: Seq<Token>) -> (Seq<Seq<Seq<char>>>, Seq<Seq<char>>)
    decreases t.len(),
{
    if t.len() == 0 {
        (Seq::empty(), Seq::empty())
    } else {
        let (done, cur) = token_words(t.drop_last());
        if is_space(t.last()) {
            (with_word(done, cur), Seq::empty())
        } else if shown(t.last()) {
            (done, cur.push(t.last().text))
        } else {
            (done, cur)
        }
    }
}

pub open spec fn with_word(done: Seq<Seq<Seq<char>>>, cur: Seq<Seq<char>>) -> Seq<Seq<Seq<char>>> {
    if cur.len() > 0 {
        done.push(cur)
    } else {
        done
    }
}

/// The words of a line.
pub open spec fn words_in(t: Seq<Token>) -> Seq<Seq<Seq<char>>> {
    with_word(token_words(t).0, token_words(t).1)
}

/// The words of all lines, in order; a line end ends a word.
pub open spec fn words_in_all(lines: Seq<Seq<Token>>) -> Seq<Seq<Seq<char>>>
    decreases lines.len(),
{
    if lines.len() == 0 {
        Seq::empty()
    } else {
        words_in_all(lines.drop_last()) + words_in(lines.last())
    }
}

/// No word is wider than a line.
pub open spec fn words_fit(t: Seq<Token>, width: int) -> bool {
    forall|k: int| 0 <= k <= t.len() ==> word_cols(#[trigger] t.take(k)) <= width
}

proof fn lemma_token_words_push(t: Seq<Token>, x: Token)
    ensures
        token_words(t.push(x)) == if is_space(x) {
            (words_in(t), Seq::<Seq<char>>::empty())
        } else if shown(x) {
            (token_words(t).0, token_words(t).1.push(x.text))
        } else {
            token_words(t)
        },
{
    assert(t.push(x).drop_last() =~= t);
}

proof fn lemma_token_words_concat(a: Seq<Token>, b: Seq<Token>)
    requires
        no_space(b),
    ensures
        token_words(b).0 == Seq::<Seq<Seq<char>>>::empty(),
        token_words(a + b) == (token_words(a).0, token_words(a).1 + token_words(b).1),
    decreases b.len(),
{
    if b.len() == 0 {
        assert(a + b =~= a);
        assert(token_words(a).1 + token_words(b).1 =~= token_words(a).1);
    } else {
        let d = b.drop_last();
        assert forall|i: int| 0 <= i < d.len() implies !is_space(#[trigger] d[i]) by {
            assert(d[i] == b[i]);
        }
        assert(!is_space(b[b.len() - 1]));
        lemma_token_words_concat(a, d);
        assert((a + b).drop_last() =~= a + d);
        assert(token_words(a).1 + token_words(d).1.push(b.last().text) =~= (token_words(a).1 + token_words(d).1).push(
            b.last().text,
        ));
    }
}

proof fn lemma_reapply_wordless(sgr: Seq<Seq<char>>)
    ensures
        no_space(reapply(sgr)),
        token_words(reapply(sgr)) == (Seq::<Seq<Seq<char>>>::empty(), Seq::<Seq<char>>::empty()),
    decreases sgr.len(),
{
    if sgr.len() > 0 {
        lemma_reapply_wordless(sgr.drop_last());
        assert(reapply(sgr).drop_last() =~= reapply(sgr.drop_last()));
    }
}

proof fn lemma_words_in_all_push(lines: Seq<Seq<Token>>, l: Seq<Token>)
    ensures
        words_in_all(lines.push(l)) == words_in_all(lines) + words_in(l),
{
    assert(lines.push(l).drop_last() =~= lines);
}

/// While no word is wider than a line, none is broken.
spec fn unbroken(st: LineState, t: Seq<Token>) -> bool {
    &&& words_in_all(st.lines) + token_words(line(st)).0 == token_words(t).0
    &&& token_words(line(st)).1 == token_words(t).1
    &&& st.brk matches Some(b) ==> no_space(b.tail)
    &&& st.brk is None ==> no_space(st.head)
}

#[verifier::rlimit(40)]
proof fn lemma_step_unbroken(st: LineState, width: int, t: Seq<Token>, x: Token)
    requires
        orderly(st, width, t),
        well_broken(st, width, t),
        unbroken(st, t),
        word_cols(t.push(x)) <= width,
        width > 0,
        x.cols >= 0,
        x.code ==> x.cols == 0,
    ensures
        unbroken(step(st, x, width), t.push(x)),
{
    let next = step(st, x, width);
    let none = Seq::<Seq<Seq<char>>>::empty();
    lemma_word_cols_push(t, x);
    lemma_token_words_push(t, x);
    lemma_cols_nonnegative(line(st));
    if is_space(x) {
        if st.cols + 1 > width && st.cols > 0 {
            lemma_reapply_wordless(st.sgr);
            lemma_words_in_all_push(st.lines, line(st));
            assert(words_in_all(next.lines) + none =~= words_in_all(st.lines) + words_in(line(st)));
            assert(words_in_all(st.lines) + words_in(line(st)) =~= words_in(t));
        } else {
            assert(line(next) =~= line(st).push(space()));
            lemma_token_words_push(line(st), space());
            assert(words_in_all(st.lines) + words_in(line(st)) =~= words_in(t));
        }
    } else if !x.code && st.cols + x.cols > width {
        match st.brk {
            Some(b) => {
                let rest = break_at(st, b);
                lemma_cols_nonnegative(b.tail);
                lemma_cols_nonnegative(st.head);
                assert(rest.cols + x.cols <= width);
                lemma_reapply_wordless(b.sgr);
                lemma_token_words_concat(reapply(b.sgr), b.tail);
                lemma_token_words_push(st.head, space());
                lemma_token_words_concat(st.head.push(space()), b.tail);
                lemma_words_in_all_push(st.lines, st.head);
                let l = reapply(b.sgr) + b.tail;
                assert(line(rest) == l);
                assert(words_in_all(rest.lines) + none =~= words_in_all(st.lines) + words_in(st.head));
                assert(Seq::<Seq<char>>::empty() + token_words(b.tail).1 =~= token_words(b.tail).1);
                assert(token_words(l).1 == token_words(t).1);
                assert(words_in_all(rest.lines) + token_words(l).0 == token_words(t).0);
                assert(next == append(rest, x));
                assert(line(next) =~= l.push(x));
                lemma_token_words_push(l, x);
                assert(no_space(l.push(x)));
            },
            None => {},
        }
    } else {
        assert(line(next) =~= line(st).push(x));
        lemma_token_words_push(line(st), x);
    }
}

proof fn lemma_fold_unbroken(t: Seq<Token>, width: int, sgr: Seq<Seq<char>>)
    requires
        sound(t),
        words_fit(t, width),
        width > 0,
    ensures
        unbroken(fold_line(t, width, sgr), t),
    decreases t.len(),
{
    if t.len() == 0 {
        lemma_reapply_wordless(sgr);
        assert(Seq::<Seq<Seq<char>>>::empty() + Seq::<Seq<Seq<char>>>::empty() =~= Seq::<Seq<Seq<char>>>::empty());
    } else {
        let before = t.drop_last();
        assert(sound(before)) by {
            assert forall|i: int| 0 <= i < before.len() implies (#[trigger] before[i]).cols >= 0 && (before[i].code
                ==> before[i].cols == 0) by {
                assert(before[i] == t[i]);
            }
        }
        assert(words_fit(before, width)) by {
            assert forall|k: int| 0 <= k <= before.len() implies word_cols(#[trigger] before.take(k)) <= width by {
                assert(before.take(k) =~= t.take(k));
            }
        }
        lemma_fold_unbroken(before, width, sgr);
        lemma_fold_well_broken(before, width, sgr);
        lemma_fold_orderly(before, width, sgr);
        assert(t.last() == t[t.len() - 1]);
        assert(before.push(t.last()) =~= t);
        assert(t.take(t.len() as int) =~= t);
        lemma_step_unbroken(fold_line(before, width, sgr), width, before, t.last());
    }
}

/// Where no word is wider than a line, the words of the wrapped lines are those of the hard line, each
/// whole, and in their order.
pub proof fn words_stay_whole(t: Seq<Token>, width: int, sgr: Seq<Seq<char>>)
    requires
        sound(t),
        words_fit(t, width),
        width > 0,
    ensures
        words_in_all(lines_for(t, width, sgr)) == words_in(t),
{
    let st = fold_line(t, width, sgr);
    lemma_fold_unbroken(t, width, sgr);
    lemma_fold_orderly(t, width, sgr);
    lemma_words_in_all_push(st.lines, line(st));
    lemma_cols_nonnegative(line(st));
    assert(words_in_all(st.lines) + words_in(line(st)) =~= words_in(t));
    if st.cols == 0 && st.lines.len() > 0 {
        lemma_wordless(line(st));
        assert(words_in_all(st.lines) + words_in(line(st)) =~= words_in_all(st.lines));
    }
}

/// A line without columns has no words.
proof fn lemma_wordless(l: Seq<Token>)
    requires
        sound(l),
        ansi::cols_of(l) == 0,
    ensures
        token_words(l) == (Seq::<Seq<Seq<char>>>::empty(), Seq::<Seq<char>>::empty()),
    decreases l.len(),
{
    if l.len() > 0 {
        let d = l.drop_last();
        assert(sound(d));
        lemma_cols_nonnegative(d);
        assert(l.last() == l[l.len() - 1]);
        lemma_wordless(d);
    }
}

// ---------------------------------------------------------------------------
// Styles
// ---------------------------------------------------------------------------

/// The SGR codes in force behind a token sequence, which starts with those of `sgr`.
pub open spec fn style(sgr: Seq<Seq<char>>, t: Seq<Token>) -> Seq<Seq<char>>
    decreases t.len(),
{
    if t.len() == 0 {
        sgr
    } else if t.last().code {
        utils::sgr_step(style(sgr, t.drop_last()), t.last().text)
    } else {
        style(sgr, t.drop_last())
    }
}

/// The clusters that are seen, each with the SGR codes in force at it.
pub open spec fn styled(sgr: Seq<Seq<char>>, t: Seq<Token>) -> Seq<(Seq<char>, Seq<Seq<char>>)>
    decreases t.len(),
{
    if t.len() == 0 {
        Seq::empty()
    } else if shown(t.last()) {
        styled(sgr, t.drop_last()).push((t.last().text, style(sgr, t.drop_last())))
    } else {
        styled(sgr, t.drop_last())
    }
}

/// The clusters that are seen on all lines, each with the codes that its own line puts in force.
pub open spec fn all_styled(lines: Seq<Seq<Token>>) -> Seq<(Seq<char>, Seq<Seq<char>>)>
    decreases lines.len(),
{
    if lines.len() == 0 {
        Seq::empty()
    } else {
        all_styled(lines.drop_last()) + styled(Seq::empty(), lines.last())
    }
}

/// Codes that put a style in force: SGR codes, no reset among them.
pub open spec fn active(sgr: Seq<Seq<char>>) -> bool {
    forall|i: int| 0 <= i < sgr.len() ==> utils::sgr_code(#[trigger] sgr[i]) && !utils::sgr_reset(sgr[i])
}

proof fn lemma_style_push(sgr: Seq<Seq<char>>, t: Seq<Token>, x: Token)
    ensures
        style(sgr, t.push(x)) == if x.code {
            utils::sgr_step(style(sgr, t), x.text)
        } else {
            style(sgr, t)
        },
        styled(sgr, t.push(x)) == if shown(x) {
            styled(sgr, t).push((x.text, style(sgr, t)))
        } else {
            styled(sgr, t)
        },
{
    assert(t.push(x).drop_last() =~= t);
}

proof fn lemma_style_concat(sgr: Seq<Seq<char>>, a: Seq<Token>, b: Seq<Token>)
    ensures
        style(sgr, a + b) == style(style(sgr, a), b),
        styled(sgr, a + b) == styled(sgr, a) + styled(style(sgr, a), b),
    decreases b.len(),
{
    if b.len() == 0 {
        assert(a + b =~= a);
        assert(styled(sgr, a) + styled(style(sgr, a), b) =~= styled(sgr, a));
    } else {
        let d = b.drop_last();
        lemma_style_concat(sgr, a, d);
        assert(a + b =~= (a + d).push(b.last()));
        lemma_style_push(sgr, a + d, b.last());
        assert(styled(sgr, a + b) =~= styled(sgr, a) + styled(style(sgr, a), b));
    }
}

proof fn lemma_reapply_style(sgr: Seq<Seq<char>>)
    requires
        active(sgr),
    ensures
        style(Seq::empty(), reapply(sgr)) == sgr,
        styled(Seq::empty(), reapply(sgr)) == Seq::<(Seq<char>, Seq<Seq<char>>)>::empty(),
    decreases sgr.len(),
{
    if sgr.len() > 0 {
        let d = sgr.drop_last();
        assert forall|i: int| 0 <= i < d.len() implies utils::sgr_code(#[trigger] d[i]) && !utils::sgr_reset(d[i]) by {
            assert(d[i] == sgr[i]);
        }
        lemma_reapply_style(d);
        assert(reapply(sgr).drop_last() =~= reapply(d));
        assert(utils::sgr_code(sgr[sgr.len() - 1]));
        assert(d.push(sgr.last()) =~= sgr);
    } else {
        assert(sgr =~= Seq::empty());
    }
}

proof fn lemma_all_styled_push(lines: Seq<Seq<Token>>, l: Seq<Token>)
    ensures
        all_styled(lines.push(l)) == all_styled(lines) + styled(Seq::empty(), l),
{
    assert(lines.push(l).drop_last() =~= lines);
}

proof fn lemma_all_styled_concat(a: Seq<Seq<Token>>, b: Seq<Seq<Token>>)
    ensures
        all_styled(a + b) == all_styled(a) + all_styled(b),
    decreases b.len(),
{
    if b.len() == 0 {
        assert(a + b =~= a);
        assert(all_styled(a) + all_styled(b) =~= all_styled(a));
    } else {
        lemma_all_styled_concat(a, b.drop_last());
        assert((a + b).drop_last() =~= a + b.drop_last());
        assert(all_styled(a + b) =~= all_styled(a) + all_styled(b));
    }
}

/// What holds of the styles while a hard line is wrapped.
spec fn in_style(st: LineState, sgr: Seq<Seq<char>>, t: Seq<Token>) -> bool {
    &&& active(st.sgr)
    &&& style(Seq::empty(), line(st)) == st.sgr
    &&& st.sgr == style(sgr, t)
    &&& all_styled(st.lines) + styled(Seq::empty(), line(st)) == styled(sgr, t)
    &&& st.brk matches Some(b) ==> active(b.sgr) && style(Seq::empty(), st.head) == b.sgr
}

proof fn lemma_append_in_style(st: LineState, sgr: Seq<Seq<char>>, t: Seq<Token>, x: Token)
    requires
        in_style(st, sgr, t),
        !x.code,
    ensures
        in_style(append(st, x), sgr, t.push(x)),
{
    let next = append(st, x);
    assert(line(next) =~= line(st).push(x));
    lemma_style_push(Seq::empty(), line(st), x);
    lemma_style_push(sgr, t, x);
    assert(all_styled(next.lines) + styled(Seq::empty(), line(next)) =~= styled(sgr, t.push(x)));
}

proof fn lemma_flush_in_style(st: LineState, sgr: Seq<Seq<char>>, t: Seq<Token>)
    requires
        in_style(st, sgr, t),
    ensures
        in_style(flush(st), sgr, t),
{
    let next = flush(st);
    lemma_reapply_style(st.sgr);
    lemma_all_styled_push(st.lines, line(st));
    assert(all_styled(next.lines) + styled(Seq::empty(), line(next)) =~= styled(sgr, t));
}

proof fn lemma_step_in_style(st: LineState, width: int, sgr: Seq<Seq<char>>, t: Seq<Token>, x: Token)
    requires
        in_style(st, sgr, t),
        x.code ==> x.cols == 0,
    ensures
        in_style(step(st, x, width), sgr, t.push(x)),
{
    let next = step(st, x, width);
    lemma_style_push(sgr, t, x);
    if x.code {
        assert(line(next) =~= line(st).push(x));
        lemma_style_push(Seq::empty(), line(st), x);
    } else if is_space(x) {
        if st.cols + 1 > width && st.cols > 0 {
            lemma_flush_in_style(st, sgr, t);
        } else {
            assert(line(next) =~= line(st).push(space()));
            lemma_style_push(Seq::empty(), line(st), space());
        }
    } else if st.cols + x.cols > width {
        match st.brk {
            Some(b) => {
                let rest = break_at(st, b);
                lemma_reapply_style(b.sgr);
                lemma_style_concat(Seq::empty(), reapply(b.sgr), b.tail);
                lemma_style_push(Seq::empty(), st.head, space());
                lemma_style_concat(Seq::empty(), st.head.push(space()), b.tail);
                lemma_all_styled_push(st.lines, st.head);
                assert(line(rest) == reapply(b.sgr) + b.tail);
                assert(all_styled(rest.lines) + styled(Seq::empty(), line(rest)) =~= styled(sgr, t));
                assert(in_style(rest, sgr, t));
                if rest.cols > 0 && rest.cols + x.cols > width {
                    lemma_flush_in_style(rest, sgr, t);
                    lemma_append_in_style(flush(rest), sgr, t, x);
                } else {
                    lemma_append_in_style(rest, sgr, t, x);
                }
            },
            None => {
                if st.cols == 0 {
                    lemma_append_in_style(st, sgr, t, x);
                    lemma_flush_in_style(append(st, x), sgr, t.push(x));
                } else {
                    lemma_flush_in_style(st, sgr, t);
                    lemma_append_in_style(flush(st), sgr, t, x);
                }
            },
        }
    } else {
        lemma_append_in_style(st, sgr, t, x);
    }
}

proof fn lemma_fold_in_style(t: Seq<Token>, width: int, sgr: Seq<Seq<char>>)
    requires
        sound(t),
        active(sgr),
    ensures
        in_style(fold_line(t, width, sgr), sgr, t),
    decreases t.len(),
{
    if t.len() == 0 {
        lemma_reapply_style(sgr);
        assert(all_styled(Seq::<Seq<Token>>::empty()) + styled(Seq::empty(), reapply(sgr)) =~= styled(sgr, t));
    } else {
        let before = t.drop_last();
        assert(sound(before)) by {
            assert forall|i: int| 0 <= i < before.len() implies (#[trigger] before[i]).cols >= 0 && (before[i].code
                ==> before[i].cols == 0) by {
                assert(before[i] == t[i]);
            }
        }
        lemma_fold_in_style(before, width, sgr);
        assert(t.last() == t[t.len() - 1]);
        assert(before.push(t.last()) =~= t);
        lemma_step_in_style(fold_line(before, width, sgr), width, sgr, before, t.last());
    }
}

/// All hard lines, one behind the other.
pub open spec fn end_to_end(hard: Seq<Seq<Token>>) -> Seq<Token>
    decreases hard.len(),
{
    if hard.len() == 0 {
        Seq::empty()
    } else {
        end_to_end(hard.drop_last()) + hard.last()
    }
}

proof fn lemma_styles(hard: Seq<Seq<Token>>, width: int)
    requires
        width > 0,
        forall|i: int| 0 <= i < hard.len() ==> sound(#[trigger] hard[i]),
    ensures
        active(wrap_all(hard, width).1),
        wrap_all(hard, width).1 == style(Seq::empty(), end_to_end(hard)),
        all_styled(wrap_all(hard, width).0) == styled(Seq::empty(), end_to_end(hard)),
    decreases hard.len(),
{
    if hard.len() > 0 {
        let before = hard.drop_last();
        assert forall|i: int| 0 <= i < before.len() implies sound(#[trigger] before[i]) by {
            assert(before[i] == hard[i]);
        }
        lemma_styles(before, width);
        let (lines, sgr) = wrap_all(before, width);
        assert(hard.last() == hard[hard.len() - 1]);
        lemma_fold_in_style(hard.last(), width, sgr);
        lemma_fold_orderly(hard.last(), width, sgr);
        lemma_style_concat(Seq::empty(), end_to_end(before), hard.last());
        let st = fold_line(hard.last(), width, sgr);
        lemma_cols_nonnegative(line(st));
        lemma_all_styled_push(st.lines, line(st));
        lemma_all_styled_concat(lines, finish(st));
        if st.cols == 0 && st.lines.len() > 0 {
            lemma_styleless(line(st));
            assert(all_styled(st.lines) + styled(Seq::empty(), line(st)) =~= all_styled(st.lines));
        }
    }
}

proof fn lemma_styleless(l: Seq<Token>)
    requires
        sound(l),
        ansi::cols_of(l) == 0,
    ensures
        styled(Seq::empty(), l) == Seq::<(Seq<char>, Seq<Seq<char>>)>::empty(),
    decreases l.len(),
{
    if l.len() > 0 {
        let d = l.drop_last();
        assert(sound(d));
        lemma_cols_nonnegative(d);
        assert(l.last() == l[l.len() - 1]);
        lemma_styleless(d);
    }
}

/// Wrapping keeps the style of everything that can be seen: each wrapped line puts in force by itself
/// the codes that were in force in the text.
pub proof fn every_cluster_keeps_its_style(hard: Seq<Seq<Token>>, width: int)
    requires
        width > 0,
        forall|i: int| 0 <= i < hard.len() ==> sound(#[trigger] hard[i]),
    ensures
        all_styled(wrap_all(hard, width).0) == styled(Seq::empty(), end_to_end(hard)),
{
    lemma_styles(hard, width);
}

/// Hard lines are wrapped one by one: the lines of those that come first do not depend on what follows,
/// and each gives at least one line.
pub proof fn hard_lines_stay_apart(hard: Seq<Seq<Token>>, last: Seq<Token>, width: int)
    ensures
        ({
            let (lines, sgr) = wrap_all(hard, width);
            &&& wrap_all(hard.push(last), width).0 == lines + lines_for(last, width, sgr)
            &&& lines_for(last, width, sgr).len() > 0
        }),
{
    assert(hard.push(last).drop_last() =~= hard);
}

} // verus!
