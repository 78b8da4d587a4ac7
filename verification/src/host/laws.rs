//! What holds of the host's readers of files and command lines.

use vstd::prelude::*;
use crate::host::capture;
use crate::host::compiler;
use crate::host::compiler::{DepStat, HostBuild};
use crate::host::modes;
use crate::host::modes::ModeView;
use crate::host::script;
use crate::host::script::CommandView;
use crate::host::standalone;
use crate::text;
use crate::words;

verus! {

// ---------------------------------------------------------------------------
// Dep files
// ---------------------------------------------------------------------------

/// The paths of the part of a dep file that lists them.
pub open spec fn paths_of(s: Seq<char>) -> Seq<Seq<char>> {
    compiler::paths_from(s, 0, Seq::empty())
}

/// A path is not empty, and spaces are the only white space that it can hold.
pub open spec fn is_path(p: Seq<char>) -> bool {
    p.len() > 0 && spaces_at_most(p)
}

pub open spec fn spaces_at_most(p: Seq<char>) -> bool {
    forall|i: int| 0 <= i < p.len() && words::white(#[trigger] p[i]) ==> p[i] == ' '
}

proof fn lemma_paths_spaces(s: Seq<char>, i: int, cur: Seq<char>)
    requires
        0 <= i <= s.len(),
        spaces_at_most(cur),
    ensures
        forall|k: int|
            0 <= k < compiler::paths_from(s, i, cur).len() ==> is_path(#[trigger] compiler::paths_from(s, i, cur)[k]),
    decreases s.len() - i,
{
    if i < s.len() {
        let empty = Seq::<char>::empty();
        if s[i] == '\\' && i + 1 < s.len() && s[i + 1] == ' ' {
            lemma_paths_spaces(s, i + 2, cur.push(' '));
            assert(compiler::paths_from(s, i, cur) == compiler::paths_from(s, i + 2, cur.push(' ')));
        } else if s[i] == '\\' && i + 1 < s.len() && s[i + 1] == '\n' {
            lemma_paths_spaces(s, i + 2, cur);
            assert(compiler::paths_from(s, i, cur) == compiler::paths_from(s, i + 2, cur));
        } else if words::white(s[i]) {
            lemma_paths_spaces(s, i + 1, empty);
            let rest = compiler::paths_from(s, i + 1, empty);
            let all = compiler::paths_from(s, i, cur);
            if cur.len() > 0 {
                assert(all == seq![cur] + rest);
                assert forall|k: int| 0 <= k < all.len() implies is_path(#[trigger] all[k]) by {
                    if k > 0 {
                        assert(all[k] == rest[k - 1]);
                    }
                }
            } else {
                assert(cur =~= empty);
                assert(all == rest);
            }
        } else {
            lemma_paths_spaces(s, i + 1, cur.push(s[i]));
            assert(compiler::paths_from(s, i, cur) == compiler::paths_from(s, i + 1, cur.push(s[i])));
        }
    } else if cur.len() > 0 {
        assert(compiler::paths_from(s, i, cur) =~= seq![cur]);
    }
}

/// No path of a dep file is empty, and none holds white space but spaces, whatever the file holds.
pub proof fn paths_end_at_white_space(contents: Seq<char>, at: int)
    ensures
        forall|k: int|
            0 <= k < compiler::dep_paths(contents, at).len() ==> is_path(#[trigger] compiler::dep_paths(contents, at)[k]),
{
    let s = compiler::joined_lines(contents, 0).skip(at + 2);
    lemma_paths_spaces(s, 0, Seq::empty());
}

proof fn lemma_plain_paths(s: Seq<char>, i: int)
    requires
        0 <= i <= s.len(),
        !s.contains('\\'),
    ensures
        words::words_of(s) == words::word_fold(s.take(i)).0 + compiler::paths_from(s, i, words::word_fold(s.take(i)).1),
    decreases s.len() - i,
{
    let (done, cur) = words::word_fold(s.take(i));
    let rest = compiler::paths_from(s, i, cur);
    if i == s.len() {
        assert(s.take(i) =~= s);
        assert(words::words_of(s) =~= done + rest);
    } else {
        assert(s[i] != '\\');
        assert(s.take(i + 1).drop_last() =~= s.take(i));
        assert(s.take(i + 1).last() == s[i]);
        lemma_plain_paths(s, i + 1);
        let (done1, cur1) = words::word_fold(s.take(i + 1));
        assert(done + rest =~= done1 + compiler::paths_from(s, i + 1, cur1));
    }
}

proof fn lemma_plain_lines(s: Seq<char>, i: int)
    requires
        0 <= i <= s.len(),
        !s.contains('\\'),
    ensures
        compiler::joined_lines(s, i) == s.skip(i),
    decreases s.len() - i,
{
    if i < s.len() {
        assert(s[i] != '\\');
        lemma_plain_lines(s, i + 1);
        assert(seq![s[i]] + s.skip(i + 1) =~= s.skip(i));
    } else {
        assert(s.skip(i) =~= Seq::<char>::empty());
    }
}

/// Where a dep file holds no backslash, its paths are the words behind the mark.
pub proof fn plain_paths_are_words(contents: Seq<char>, at: int)
    requires
        !contents.contains('\\'),
        0 <= at,
        at + 2 <= contents.len(),
    ensures
        compiler::joined_lines(contents, 0) == contents,
        compiler::dep_paths(contents, at) == words::words_of(contents.skip(at + 2)),
{
    let s = contents.skip(at + 2);
    lemma_plain_lines(contents, 0);
    assert(contents.skip(0) =~= contents);
    assert(!s.contains('\\')) by {
        if s.contains('\\') {
            let k = choose|k: int| 0 <= k < s.len() && s[k] == '\\';
            assert(contents[at + 2 + k] == '\\');
        }
    }
    lemma_plain_paths(s, 0);
    assert(s.take(0) =~= Seq::<char>::empty());
    assert(Seq::<Seq<char>>::empty() + paths_of(s) =~= paths_of(s));
}

proof fn lemma_paths_shift(x: Seq<char>, b: Seq<char>, j: int, cur: Seq<char>)
    requires
        0 <= j <= b.len(),
    ensures
        compiler::paths_from(x + b, x.len() + j, cur) == compiler::paths_from(b, j, cur),
    decreases b.len() - j,
{
    if j < b.len() {
        let s = x + b;
        let i = x.len() + j;
        assert(s[i] == b[j]);
        if j + 1 < b.len() {
            assert(s[i + 1] == b[j + 1]);
            lemma_paths_shift(x, b, j + 2, cur.push(' '));
            lemma_paths_shift(x, b, j + 2, cur);
        }
        lemma_paths_shift(x, b, j + 1, cur);
        lemma_paths_shift(x, b, j + 1, Seq::empty());
        lemma_paths_shift(x, b, j + 1, cur.push(b[j]));
    }
}

proof fn lemma_paths_split(a: Seq<char>, c: char, b: Seq<char>, i: int, cur: Seq<char>)
    requires
        0 <= i <= a.len(),
        words::white(c),
        a.len() > 0 && a.last() == '\\' ==> c != ' ' && c != '\n',
    ensures
        compiler::paths_from(a.push(c) + b, i, cur) == compiler::paths_from(a, i, cur) + paths_of(b),
    decreases a.len() - i,
{
    let s = a.push(c) + b;
    if i == a.len() {
        assert(s[i] == c);
        lemma_paths_shift(a.push(c), b, 0, Seq::empty());
        assert(compiler::paths_from(s, i + 1, Seq::empty()) == paths_of(b));
        if cur.len() == 0 {
            assert(cur =~= Seq::<char>::empty());
            assert(Seq::<Seq<char>>::empty() + paths_of(b) =~= paths_of(b));
        }
    } else {
        assert(s[i] == a[i]);
        if i + 1 < a.len() {
            assert(s[i + 1] == a[i + 1]);
            lemma_paths_split(a, c, b, i + 2, cur.push(' '));
            lemma_paths_split(a, c, b, i + 2, cur);
        } else {
            assert(s[i + 1] == c);
            assert(a.last() == a[i]);
        }
        lemma_paths_split(a, c, b, i + 1, cur);
        lemma_paths_split(a, c, b, i + 1, Seq::empty());
        lemma_paths_split(a, c, b, i + 1, cur.push(a[i]));
        let rest = compiler::paths_from(a, i + 1, Seq::empty());
        assert(seq![cur] + (rest + paths_of(b)) =~= seq![cur] + rest + paths_of(b));
    }
}

/// White space separates paths, unless a backslash stands before it: the paths of two lists with a
/// white space character between them are those of the first and then those of the second.
pub proof fn white_space_separates_paths(a: Seq<char>, c: char, b: Seq<char>)
    requires
        words::white(c),
        a.len() > 0 && a.last() == '\\' ==> c != ' ' && c != '\n',
    ensures
        paths_of(a.push(c) + b) == paths_of(a) + paths_of(b),
{
    lemma_paths_split(a, c, b, 0, Seq::empty());
}

proof fn lemma_whole_piece(x: Seq<char>, p: Seq<char>, y: Seq<char>, i: int, cur: Seq<char>)
    requires
        x.len() <= i <= x.len() + p.len(),
        words::no_white(p),
        y.len() > 0 ==> y[0] == '\\',
    ensures
        compiler::paths_from(x + p + y, i, cur) == compiler::paths_from(
            x + p + y,
            (x.len() + p.len()) as int,
            cur + p.skip(i - x.len()),
        ),
    decreases x.len() + p.len() - i,
{
    let s = x + p + y;
    let k = i - x.len();
    if k == p.len() {
        assert(cur + p.skip(k) =~= cur);
    } else {
        assert(s[i] == p[k]);
        assert(!words::white(p[k]));
        if i + 1 < s.len() {
            if k + 1 < p.len() {
                assert(s[i + 1] == p[k + 1]);
                assert(!words::white(p[k + 1]));
            } else {
                assert(s[i + 1] == y[0]);
            }
        }
        lemma_whole_piece(x, p, y, i + 1, cur.push(p[k]));
        assert(cur.push(p[k]) + p.skip(k + 1) =~= cur + p.skip(k));
    }
}

proof fn lemma_escaped_path(parts: Seq<Seq<char>>, y: Seq<char>)
    requires
        parts.len() > 0,
        forall|i: int| 0 <= i < parts.len() ==> words::no_white(#[trigger] parts[i]),
        y.len() > 0 ==> y[0] == '\\',
    ensures
        paths_of(text::join(parts, seq!['\\', ' ']) + y) == compiler::paths_from(
            text::join(parts, seq!['\\', ' ']) + y,
            text::join(parts, seq!['\\', ' ']).len() as int,
            text::join(parts, seq![' ']),
        ),
    decreases parts.len(),
{
    let sep = seq!['\\', ' '];
    let s = text::join(parts, sep);
    let empty = Seq::<char>::empty();
    if parts.len() == 1 {
        assert(words::no_white(parts[0]));
        lemma_whole_piece(empty, parts[0], y, 0, empty);
        assert(empty + parts[0] + y =~= s + y);
        assert(empty + parts[0].skip(0) =~= parts[0]);
    } else {
        let d = parts.drop_last();
        let last = parts.last();
        assert(last == parts[parts.len() - 1]);
        assert forall|i: int| 0 <= i < d.len() implies words::no_white(#[trigger] d[i]) by {
            assert(d[i] == parts[i]);
        }
        let head = text::join(d, sep);
        let tail = sep + last + y;
        lemma_escaped_path(d, tail);
        let all = s + y;
        assert(head + tail =~= all);
        let n = head.len() as int;
        let cur = text::join(d, seq![' ']);
        assert(all[n] == '\\' && all[n + 1] == ' ');
        assert(compiler::paths_from(all, n, cur) == compiler::paths_from(all, n + 2, cur.push(' ')));
        assert((head + sep) + last + y =~= all);
        lemma_whole_piece(head + sep, last, y, n + 2, cur.push(' '));
        assert(cur.push(' ') + last.skip(0) =~= text::join(parts, seq![' ']));
    }
}

/// A path with spaces comes back as it was: a backslash before each of its spaces keeps the path
/// together, and is no part of it.
pub proof fn escaped_spaces_come_back(parts: Seq<Seq<char>>)
    requires
        parts.len() > 0,
        forall|i: int| 0 <= i < parts.len() ==> words::no_white(#[trigger] parts[i]),
        text::join(parts, seq![' ']).len() > 0,
    ensures
        paths_of(text::join(parts, seq!['\\', ' '])) == seq![text::join(parts, seq![' '])],
{
    let s = text::join(parts, seq!['\\', ' ']);
    lemma_escaped_path(parts, Seq::empty());
    assert(s + Seq::<char>::empty() =~= s);
}

/// Does a text hold a continued line end?
pub open spec fn continued_at(s: Seq<char>, i: int) -> bool {
    s[i] == '\\' && s[i + 1] == '\n'
}

proof fn lemma_joined_piece(x: Seq<char>, p: Seq<char>, y: Seq<char>, i: int)
    requires
        x.len() <= i <= x.len() + p.len(),
        forall|k: int| 0 <= k && k + 1 < p.len() ==> !#[trigger] continued_at(p, k),
        y.len() > 0 ==> y[0] == '\\',
    ensures
        compiler::joined_lines(x + p + y, i) == p.skip(i - x.len()) + compiler::joined_lines(
            x + p + y,
            (x.len() + p.len()) as int,
        ),
    decreases x.len() + p.len() - i,
{
    let s = x + p + y;
    let k = i - x.len();
    let rest = compiler::joined_lines(s, (x.len() + p.len()) as int);
    if k == p.len() {
        assert(p.skip(k) + rest =~= rest);
    } else {
        assert(s[i] == p[k]);
        if i + 1 < s.len() {
            if k + 1 < p.len() {
                assert(s[i + 1] == p[k + 1]);
                assert(!continued_at(p, k));
            } else {
                assert(s[i + 1] == y[0]);
            }
        }
        lemma_joined_piece(x, p, y, i + 1);
        assert(seq![p[k]] + (p.skip(k + 1) + rest) =~= p.skip(k) + rest);
    }
}

proof fn lemma_joined_lines(lines: Seq<Seq<char>>, y: Seq<char>)
    requires
        lines.len() > 0,
        forall|i: int, k: int|
            0 <= i < lines.len() && 0 <= k && k + 1 < lines[i].len() ==> !#[trigger] continued_at(lines[i], k),
        y.len() > 0 ==> y[0] == '\\',
    ensures
        compiler::joined_lines(text::join(lines, seq!['\\', '\n']) + y, 0) == text::join(lines, seq![' ']) + compiler::joined_lines(
            text::join(lines, seq!['\\', '\n']) + y,
            text::join(lines, seq!['\\', '\n']).len() as int,
        ),
    decreases lines.len(),
{
    let sep = seq!['\\', '\n'];
    let s = text::join(lines, sep);
    let empty = Seq::<char>::empty();
    if lines.len() == 1 {
        assert forall|k: int| 0 <= k && k + 1 < lines[0].len() implies !#[trigger] continued_at(lines[0], k) by {}
        lemma_joined_piece(empty, lines[0], y, 0);
        assert(empty + lines[0] + y =~= s + y);
        assert(lines[0].skip(0) =~= lines[0]);
    } else {
        let d = lines.drop_last();
        let last = lines.last();
        assert(last == lines[lines.len() - 1]);
        assert forall|i: int, k: int| 0 <= i < d.len() && 0 <= k && k + 1 < d[i].len() implies !#[trigger] continued_at(
            d[i],
            k,
        ) by {
            assert(d[i] == lines[i]);
        }
        assert forall|k: int| 0 <= k && k + 1 < last.len() implies !#[trigger] continued_at(last, k) by {
            assert(!continued_at(lines[lines.len() - 1], k));
        }
        let head = text::join(d, sep);
        let tail = sep + last + y;
        lemma_joined_lines(d, tail);
        let all = s + y;
        assert(head + tail =~= all);
        let n = head.len() as int;
        assert(all[n] == '\\' && all[n + 1] == '\n');
        assert((head + sep) + last + y =~= all);
        lemma_joined_piece(head + sep, last, y, n + 2);
        assert(last.skip(0) =~= last);
        let end = compiler::joined_lines(all, s.len() as int);
        assert(compiler::joined_lines(all, n) == seq![' '] + (last + end));
        let cur = text::join(d, seq![' ']);
        assert(cur + (seq![' '] + (last + end)) =~= (cur + seq![' '] + last) + end);
    }
}

/// Lines that are continued with a backslash become one, with a space in place of each line end.
pub proof fn continued_lines_become_one(lines: Seq<Seq<char>>)
    requires
        lines.len() > 0,
        forall|i: int, k: int|
            0 <= i < lines.len() && 0 <= k && k + 1 < lines[i].len() ==> !#[trigger] continued_at(lines[i], k),
    ensures
        compiler::joined_lines(text::join(lines, seq!['\\', '\n']), 0) == text::join(lines, seq![' ']),
{
    let s = text::join(lines, seq!['\\', '\n']);
    lemma_joined_lines(lines, Seq::empty());
    assert(s + Seq::<char>::empty() =~= s);
    assert(text::join(lines, seq![' ']) + Seq::<char>::empty() =~= text::join(lines, seq![' ']));
}

// ---------------------------------------------------------------------------
// Patches
// ---------------------------------------------------------------------------

/// A text that neither starts nor ends with white space.
pub open spec fn clean(s: Seq<char>) -> bool {
    s.len() > 0 ==> !words::white(s[0]) && !words::white(s.last())
}

/// A patch is read as it was written: its name and its path, whatever white space stands around them and
/// around the line.
pub proof fn patches_come_back(
    a: Seq<char>,
    name: Seq<char>,
    b: Seq<char>,
    c: Seq<char>,
    path: Seq<char>,
    d: Seq<char>,
)
    requires
        words::all_white(a),
        words::all_white(b),
        words::all_white(c),
        words::all_white(d),
        clean(name),
        clean(path),
        name.len() > 0,
        path.len() > 0,
        name[0] != '#',
        !name.contains('='),
    ensures
        compiler::patch_of(a + name + b + seq!['='] + c + path + d) == Some((name, path)),
{
    let l = name + b + seq!['='] + c + path;
    let line = a + name + b + seq!['='] + c + path + d;
    assert(line =~= a + l + d);
    assert(l[0] == name[0]);
    assert(l.last() == path.last());
    words::padding_is_trimmed(a, l, d);
    let head = name + b;
    let tail = c + path;
    assert(!head.contains('=')) by {
        if head.contains('=') {
            let k = choose|k: int| 0 <= k < head.len() && head[k] == '=';
            if k < name.len() {
                assert(name[k] == '=');
            } else {
                assert(b[k - name.len()] == '=');
                words::white_space_in_ascii('=');
            }
        }
    }
    assert(l =~= head.push('=') + tail);
    words::the_first_place_is_behind(head, '=', tail);
    assert(l.take(head.len() as int) =~= head);
    assert(l.skip(head.len() as int + 1) =~= tail);
    let empty = Seq::<char>::empty();
    words::padding_is_trimmed(empty, name, b);
    assert(empty + name + b =~= head);
    words::padding_is_trimmed(c, path, empty);
    assert(c + path + empty =~= tail);
}

/// Comments and blank lines are no patches.
pub proof fn comments_are_no_patches(a: Seq<char>, rest: Seq<char>)
    requires
        words::all_white(a),
    ensures
        compiler::patch_of(a) is None,
        compiler::patch_of(a + seq!['#'] + rest) is None,
{
    let empty = Seq::<char>::empty();
    words::padding_is_trimmed(a, empty, empty);
    assert(a + empty + empty =~= a);
    let line = a + seq!['#'] + rest;
    let (front, back) = words::trimming_takes_white_space_only(line);
    let t = words::trimmed(line);
    words::white_space_in_ascii('#');
    if t.len() > 0 {
        assert(line[front.len() as int] == t[0]);
        if front.len() < a.len() {
            assert(line[front.len() as int] == a[front.len() as int]);
        } else if front.len() > a.len() {
            assert(line[a.len() as int] == front[a.len() as int]);
            assert(line[a.len() as int] == '#');
        }
        assert(line[a.len() as int] == '#');
    }
}

/// The patches of two lists, one behind the other, are those of the first and then those of the second.
pub proof fn patches_are_read_in_order(a: Seq<Seq<char>>, b: Seq<Seq<char>>)
    ensures
        compiler::patches_of(a + b) == compiler::patches_of(a) + compiler::patches_of(b),
    decreases b.len(),
{
    if b.len() == 0 {
        assert(a + b =~= a);
        assert(compiler::patches_of(a) + compiler::patches_of(b) =~= compiler::patches_of(a));
    } else {
        patches_are_read_in_order(a, b.drop_last());
        assert((a + b).drop_last() =~= a + b.drop_last());
        assert(compiler::patches_of(a + b) =~= compiler::patches_of(a) + compiler::patches_of(b));
    }
}

/// A line that stands for a patch gives exactly that one; any other gives none.
pub proof fn each_line_gives_its_patch(line: Seq<char>)
    ensures
        compiler::patches_of(seq![line]) == match compiler::patch_of(line) {
            Some(p) => seq![p],
            None => Seq::empty(),
        },
{
    let s = seq![line];
    assert(s.drop_last() =~= Seq::<Seq<char>>::empty());
    assert(compiler::patches_of(s.drop_last()) =~= Seq::<(Seq<char>, Seq<char>)>::empty());
    match compiler::patch_of(line) {
        Some(p) => {
            assert(compiler::patches_of(s) =~= seq![p]);
        },
        None => {},
    }
}

// ---------------------------------------------------------------------------
// Paths and flags
// ---------------------------------------------------------------------------

/// A path below another has exactly one slash between the two; an absolute path stands for itself.
pub proof fn paths_are_put_below(base: Seq<char>, rel: Seq<char>)
    requires
        base.len() > 0,
        base.last() != '/',
        rel.len() > 0 ==> rel[0] != '/',
    ensures
        compiler::path_below(base, rel) == base + seq!['/'] + rel,
        compiler::path_below(base + seq!['/'], rel) == base + seq!['/'] + rel,
        compiler::path_below(Seq::empty(), rel) == rel,
        compiler::path_below(base, seq!['/'] + rel) == seq!['/'] + rel,
{
    assert(base.push('/') + rel =~= base + seq!['/'] + rel);
    let slashed = base + seq!['/'];
    assert(slashed.last() == '/');
    assert((seq!['/'] + rel)[0] == '/');
}

/// The cache directory of a plugin is named by the plugin and by eight characters of the hash at most.
pub proof fn cache_names_are_short(crate_name: Seq<char>, src_hash: Seq<char>)
    ensures
        ({
            let n = compiler::cache_name(crate_name, src_hash);
            let k = if src_hash.len() < 8 {
                src_hash.len() as int
            } else {
                8
            };
            n == crate_name + "."@ + src_hash.take(k)
        }),
{
    assert(src_hash.take(src_hash.len() as int) =~= src_hash);
}

/// A file that is gone makes a build out of date, and so does one that was written after it; one that
/// was not written later does not.
pub proof fn newer_files_count(t: u64, built: u64)
    ensures
        !compiler::not_newer(DepStat::Missing, built),
        compiler::not_newer(DepStat::Unknown, built),
        compiler::not_newer(DepStat::Written(t), built) <==> t <= built,
{
}

/// The settings for two lists of patched crates, one behind the other, are those of the first and then
/// those of the second.
pub proof fn patch_settings_follow_the_list(a: Seq<(Seq<char>, Seq<char>)>, b: Seq<(Seq<char>, Seq<char>)>, prebuilt: bool)
    ensures
        compiler::patch_args(a + b, prebuilt) == compiler::patch_args(a, prebuilt) + compiler::patch_args(b, prebuilt),
    decreases b.len(),
{
    if b.len() == 0 {
        assert(a + b =~= a);
        assert(compiler::patch_args(a, prebuilt) + compiler::patch_args(b, prebuilt) =~= compiler::patch_args(a, prebuilt));
    } else {
        patch_settings_follow_the_list(a, b.drop_last(), prebuilt);
        assert((a + b).drop_last() =~= a + b.drop_last());
        assert(compiler::patch_args(a + b, prebuilt) =~= compiler::patch_args(a, prebuilt) + compiler::patch_args(b, prebuilt));
    }
}

/// Every patched crate is set to its path, but for the runtime where that comes prebuilt.
pub proof fn each_patch_has_its_setting(name: Seq<char>, path: Seq<char>, prebuilt: bool)
    ensures
        compiler::patch_args(seq![(name, path)], prebuilt) == if prebuilt && name == "tau-rt"@ {
            Seq::empty()
        } else {
            seq!["--config"@, "patch.crates-io."@ + name + ".path=\""@ + path + "\""@]
        },
{
    let s = seq![(name, path)];
    assert(s.drop_last() =~= Seq::<(Seq<char>, Seq<char>)>::empty());
    assert(compiler::patch_args(s.drop_last(), prebuilt) =~= Seq::<Seq<char>>::empty());
    assert(Seq::<Seq<char>>::empty() + compiler::patch_arg((name, path)) =~= compiler::patch_arg((name, path)));
}

/// Every plugin is linked dynamically, finds the host's libraries, and leaves what it does not define to
/// the host; it uses the prebuilt runtime where there is one.
pub proof fn plugins_are_linked_to_the_host(host: HostBuild, dist_lib_path: Seq<char>, tau_rt: Option<(Seq<char>, Seq<char>)>)
    ensures
        ({
            let flags = compiler::all_flags(host, dist_lib_path, tau_rt);
            let n = if host.rustflags@.len() > 0 {
                text::split_on(host.rustflags@, '\u{1f}').len() as int
            } else {
                0
            };
            let m = if host.target_features@.len() > 0 {
                2int
            } else {
                0int
            };
            &&& flags.len() == n + 8 + m + if tau_rt is Some {
                3int
            } else {
                0int
            }
            &&& flags[n] == "-C"@ && flags[n + 1] == "prefer-dynamic"@
            &&& flags[n + 2] == "-C"@ && flags[n + 3] == "link-args=-Wl,-undefined,dynamic_lookup"@
            &&& flags[n + 4] == "-L"@ && flags[n + 5] == dist_lib_path
            &&& flags[n + 6] == "-C"@ && flags[n + 7] == "panic="@ + host.panic@
            &&& m > 0 ==> flags[n + 8] == "-C"@ && flags[n + 9] == "target-feature="@ + host.target_features@
            &&& tau_rt matches Some((path, dir)) ==> flags[n + 8 + m] == "-L"@ && flags[n + 9 + m] == dir && flags[n + 10 + m]
                == "--extern=tau_rt="@ + path
        }),
{
}

// ---------------------------------------------------------------------------
// Manifests and versions
// ---------------------------------------------------------------------------

/// Does a line name the package?
pub open spec fn names_the_package(line: Seq<char>) -> bool {
    words::starts_with(words::trimmed(line), "name"@)
}

proof fn lemma_name_line(lines: Seq<Seq<char>>, from: int, k: int)
    requires
        0 <= from <= k < lines.len(),
        names_the_package(lines[k]),
        forall|i: int| from <= i < k ==> !names_the_package(#[trigger] lines[i]),
    ensures
        compiler::name_line(lines, from) == Some(lines[k]),
    decreases k - from,
{
    if from < k {
        assert(!names_the_package(lines[from]));
        lemma_name_line(lines, from + 1, k);
    }
}

/// The package name is read from the first line that gives it: what stands in its quotes.
pub proof fn the_package_name_is_read(lines: Seq<Seq<char>>, k: int, name: Seq<char>)
    requires
        0 <= k < lines.len(),
        forall|i: int|
            0 <= i < lines.len() ==> !(#[trigger] lines[i]).contains('\n') && (lines[i].len() == 0 || lines[i].last() != '\r'),
        forall|i: int| 0 <= i < k ==> !names_the_package(#[trigger] lines[i]),
        lines[k] == "name"@ + seq![' ', '=', ' ', '"'] + name + seq!['"'],
        name.len() > 0,
        !name.contains('='),
        !name.contains('"'),
        name[0] != '\'',
        name.last() != '\'',
    ensures
        compiler::package_name(text::join(lines, seq!['\n']) + seq!['\n']) == Some(name),
{
    let line = lines[k];
    let empty = Seq::<char>::empty();
    reveal_strlit("name");
    words::lines_come_back(lines);
    words::white_space_in_ascii('n');
    words::white_space_in_ascii('"');
    words::white_space_in_ascii(' ');
    words::padding_is_trimmed(empty, line, empty);
    assert(empty + line + empty =~= line);
    assert(line.subrange(0, 4) =~= "name"@);
    assert(names_the_package(line));
    lemma_name_line(lines, 0, k);
    let head = "name"@ + seq![' '];
    let quoted = seq!['"'] + name + seq!['"'];
    let tail = seq![' '] + quoted;
    assert(line =~= head.push('=') + tail);
    assert(!head.contains('='));
    assert(!tail.contains('=')) by {
        if tail.contains('=') {
            let i = choose|i: int| 0 <= i < tail.len() && tail[i] == '=';
            assert(name[i - 2] == '=');
        }
    }
    text::separators_separate(head, '=', tail);
    text::a_piece_stays_whole(head, '=');
    text::a_piece_stays_whole(tail, '=');
    assert(text::split_on(line, '=')[1] == tail);
    words::padding_is_trimmed(seq![' '], quoted, empty);
    assert(seq![' '] + quoted + empty =~= tail);
    assert(name.contains(name[0]) && name.contains(name.last()));
    words::quotes_are_trimmed(seq!['"'], name, seq!['"'], '"');
    words::quotes_are_trimmed(empty, name, empty, '\'');
    assert(empty + name + empty =~= name);
}

/// The toolchain of a stable or a beta version is its second word, and that of a nightly version is named
/// by its date; there is none for a version of a single word.
pub proof fn toolchains_are_named_by_the_version(parts: Seq<Seq<char>>, date: Seq<char>)
    requires
        forall|i: int| 0 <= i < parts.len() ==> words::is_word(#[trigger] parts[i]),
        date.len() > 0,
        date[0] != ')',
        date.last() != ')',
    ensures
        ({
            let version = text::join(parts, seq![' ']);
            let toolchain = compiler::toolchain_of(version);
            &&& parts.len() < 2 ==> toolchain is None
            &&& parts.len() >= 2 && !compiler::nightly(version) ==> toolchain == Some(parts[1])
            &&& parts.len() >= 2 && compiler::nightly(version) && parts.last() == date + seq![')'] && text::byte_len(date) == 10
                && date.contains('-') ==> toolchain == Some("nightly-"@ + date)
            &&& parts.len() >= 2 && compiler::nightly(version) && parts.last() == date + seq![')'] && !date.contains('-')
                ==> toolchain == Some("nightly"@)
        }),
{
    words::words_come_back(parts);
    let empty = Seq::<char>::empty();
    words::quotes_are_trimmed(empty, date, seq![')'], ')');
    assert(empty + date + seq![')'] =~= date + seq![')']);
}

/// Upper case letters of ASCII become lower case ones, and all other characters stay.
pub proof fn letters_become_small(s: Seq<char>, i: int)
    requires
        0 <= i < s.len(),
    ensures
        compiler::lower_ascii(s).len() == s.len(),
        !('A' as u32 <= s[i] as u32 && s[i] as u32 <= 'Z' as u32) ==> compiler::lower_ascii(s)[i] == s[i],
        ('A' as u32 <= s[i] as u32 && s[i] as u32 <= 'Z' as u32) ==> compiler::lower_ascii(s)[i] as u32 == s[i] as u32 + 32,
{
}

/// Marks at the start of a text are taken away, all of them; the rest of it stays.
pub proof fn marks_are_taken_away(n: nat, mark: Seq<char>, rest: Seq<char>)
    requires
        mark.len() > 0,
        !words::starts_with(rest, mark),
    ensures
        capture::without_marks(repeated(mark, n) + rest, mark) == rest,
    decreases n,
{
    let all = repeated(mark, n) + rest;
    if n == 0 {
        assert(all =~= rest);
    } else {
        let less = repeated(mark, (n - 1) as nat);
        assert(all =~= mark + (less + rest));
        assert(all.subrange(0, mark.len() as int) =~= mark);
        assert(all.skip(mark.len() as int) =~= less + rest);
        marks_are_taken_away((n - 1) as nat, mark, rest);
    }
}

/// A text so many times.
pub open spec fn repeated(s: Seq<char>, n: nat) -> Seq<char>
    decreases n,
{
    if n == 0 {
        Seq::empty()
    } else {
        s + repeated(s, (n - 1) as nat)
    }
}

/// The target is read from the first line that tells of it, whatever stands before and behind that line.
pub proof fn the_target_is_read(before: Seq<Seq<char>>, target: Seq<char>, after: Seq<Seq<char>>)
    requires
        forall|i: int| 0 <= i < before.len() ==> !words::starts_with(#[trigger] before[i], "host:"@),
        clean(target),
        target.len() > 0,
    ensures
        capture::host_line(before + seq!["host:"@ + seq![' '] + target] + after) == Some(target),
        capture::host_line(before) is None,
    decreases before.len(),
{
    let line = "host:"@ + seq![' '] + target;
    let all = before + seq![line] + after;
    reveal_strlit("host:");
    if before.len() == 0 {
        assert(all[0] == line);
        assert(line.subrange(0, 5) =~= "host:"@);
        let rest = seq![' '] + target;
        assert(!words::starts_with(rest, "host:"@)) by {
            if words::starts_with(rest, "host:"@) {
                assert(rest.subrange(0, 5)[0] == ' ');
            }
        }
        marks_are_taken_away(1, "host:"@, rest);
        assert(repeated("host:"@, 0) =~= Seq::<char>::empty());
        assert(repeated("host:"@, 1) =~= "host:"@);
        assert("host:"@ + rest =~= line);
        words::white_space_in_ascii(' ');
        words::padding_is_trimmed(seq![' '], target, Seq::empty());
        assert(seq![' '] + target + Seq::<char>::empty() =~= rest);
    } else {
        let less = before.skip(1);
        assert forall|i: int| 0 <= i < less.len() implies !words::starts_with(#[trigger] less[i], "host:"@) by {
            assert(less[i] == before[i + 1]);
        }
        assert(all[0] == before[0]);
        assert(all.skip(1) =~= less + seq![line] + after);
        the_target_is_read(less, target, after);
    }
}

// ---------------------------------------------------------------------------
// Prebuilt crates
// ---------------------------------------------------------------------------

proof fn lemma_last_dash(a: Seq<char>, b: Seq<char>)
    requires
        !b.contains('-'),
    ensures
        standalone::last_dash(a + seq!['-'] + b) == Some(a.len() as int),
    decreases b.len(),
{
    let s = a + seq!['-'] + b;
    if b.len() > 0 {
        assert(s.last() == b.last());
        assert(b.contains(b.last()));
        assert(s.drop_last() =~= a + seq!['-'] + b.drop_last());
        assert(!b.drop_last().contains('-')) by {
            if b.drop_last().contains('-') {
                let k = choose|k: int| 0 <= k < b.drop_last().len() && b.drop_last()[k] == '-';
                assert(b[k] == '-');
            }
        }
        lemma_last_dash(a, b.drop_last());
    } else {
        assert(s.last() == '-');
    }
}

/// A library file tells its crate: what stands between `lib` and the last dash before the hash, dashes in
/// the name of the crate and all.
pub proof fn library_files_tell_their_crate(name: Seq<char>, hash: Seq<char>)
    requires
        !hash.contains('-'),
    ensures
        standalone::prebuilt_name("lib"@ + name + seq!['-'] + hash + ".rlib"@) == Some(name),
{
    reveal_strlit("lib");
    reveal_strlit(".rlib");
    let file = "lib"@ + name + seq!['-'] + hash + ".rlib"@;
    assert(file.subrange(0, 3) =~= "lib"@);
    assert(file.subrange(file.len() - 5, file.len() as int) =~= ".rlib"@);
    let back = hash + ".rlib"@;
    assert(!back.contains('-')) by {
        if back.contains('-') {
            let k = choose|k: int| 0 <= k < back.len() && back[k] == '-';
            if k < hash.len() {
                assert(hash[k] == '-');
            } else {
                assert(".rlib"@[k - hash.len()] == '-');
            }
        }
    }
    assert(file.skip(3) =~= name + seq!['-'] + back);
    lemma_last_dash(name, back);
    assert(file.skip(3).take(name.len() as int) =~= name);
}

/// The flags for two lists of files, one behind the other, are those of the first and then those of the
/// second; a file that is no library gives none.
pub proof fn crate_flags_follow_the_files(a: Seq<(Seq<char>, Seq<char>)>, file: Seq<char>, path: Seq<char>)
    ensures
        standalone::extern_flags_of(a.push((file, path))) == standalone::extern_flags_of(a) + match standalone::prebuilt_name(
            file,
        ) {
            Some(n) => seq!["--extern="@ + n + "="@ + path],
            None => Seq::empty(),
        },
        standalone::extern_flags_of(Seq::empty()).len() == 0,
{
    assert(a.push((file, path)).drop_last() =~= a);
    match standalone::prebuilt_name(file) {
        Some(n) => {
            let flag = "--extern="@ + n + "="@ + path;
            assert(standalone::extern_flags_of(a).push(flag) =~= standalone::extern_flags_of(a) + seq![flag]);
        },
        None => {
            assert(standalone::extern_flags_of(a) + Seq::<Seq<char>>::empty() =~= standalone::extern_flags_of(a));
        },
    }
}

// ---------------------------------------------------------------------------
// Command lines
// ---------------------------------------------------------------------------

proof fn lemma_paths_behind(x: Seq<Seq<char>>, rest: Seq<Seq<char>>, i: int)
    requires
        0 <= i <= rest.len(),
    ensures
        script::plugin_paths(x + rest, x.len() + i) == script::plugin_paths(rest, i),
    decreases rest.len() - i,
{
    if i < rest.len() {
        let all = x + rest;
        assert(all[x.len() + i] == rest[i]);
        if i + 1 < rest.len() {
            assert(all[x.len() + i + 1] == rest[i + 1]);
            lemma_paths_behind(x, rest, i + 2);
        }
        lemma_paths_behind(x, rest, i + 1);
    }
}

/// Each `--plugin` names the plugin behind it, in order; other arguments name none.
pub proof fn each_plugin_argument_names_one(arg: Seq<char>, path: Seq<char>, rest: Seq<Seq<char>>)
    ensures
        script::plugin_paths(seq!["--plugin"@, path] + rest, 0) == seq![path] + script::plugin_paths(rest, 0),
        arg != "--plugin"@ ==> script::plugin_paths(seq![arg] + rest, 0) == script::plugin_paths(rest, 0),
        script::plugin_paths(seq!["--plugin"@], 0).len() == 0,
        script::plugin_paths(Seq::empty(), 0).len() == 0,
        script::plugin_paths(seq![arg] + rest, 1) == script::plugin_paths(rest, 0),
{
    lemma_paths_behind(seq!["--plugin"@, path], rest, 0);
    lemma_paths_behind(seq![arg], rest, 0);
    let pair = seq!["--plugin"@, path] + rest;
    assert(pair[0] == "--plugin"@ && pair[1] == path);
    let one = seq![arg] + rest;
    assert(one[0] == arg);
    assert(script::plugin_paths(Seq::<Seq<char>>::empty(), 0) =~= Seq::<Seq<char>>::empty());
}

/// A plugin is installed by its user and its name: from that user's repository, into a directory of that
/// name. With anything but one slash between the two it is refused.
pub proof fn plugins_are_installed_by_name(program: Seq<char>, user: Seq<char>, name: Seq<char>, more: Seq<char>)
    requires
        !user.contains('/'),
        !name.contains('/'),
        !more.contains('/'),
    ensures
        modes::mode_of(seq![program, "install"@, user + seq!['/'] + name]) == ModeView::Install(
            name,
            "https://github.com/"@ + (user + seq!['/'] + name) + ".git"@,
        ),
        modes::mode_of(seq![program, "install"@, user]) is Refuse,
        modes::mode_of(seq![program, "install"@, user + seq!['/'] + name + seq!['/'] + more]) is Refuse,
        modes::mode_of(seq![program, "install"@]) is Refuse,
{
    reveal_strlit("install");
    reveal_strlit("--info");
    let info = "--info"@;
    assert("install"@ != info) by {
        assert("install"@.len() != info.len());
    }
    assert(user + seq!['/'] + name =~= user.push('/') + name);
    text::separators_separate(user, '/', name);
    text::a_piece_stays_whole(user, '/');
    text::a_piece_stays_whole(name, '/');
    text::a_piece_stays_whole(more, '/');
    let two = user + seq!['/'] + name;
    assert(two + seq!['/'] + more =~= two.push('/') + more);
    text::separators_separate(two, '/', more);
}

// ---------------------------------------------------------------------------
// Commands
// ---------------------------------------------------------------------------

/// A word of a command: it holds no space.
pub open spec fn one_word(s: Seq<char>) -> bool {
    s.len() > 0 && !s.contains(' ')
}

proof fn lemma_cut(a: Seq<char>, b: Seq<char>)
    requires
        !a.contains(' '),
    ensures
        script::head_word(a + seq![' '] + b) == a,
        script::tail_words(a + seq![' '] + b) == Some(b),
        script::head_word(a) == a,
        script::tail_words(a) is None,
{
    words::the_first_place_is_behind(a, ' ', b);
    let s = a + seq![' '] + b;
    assert(s =~= a.push(' ') + b);
    assert(s.take(a.len() as int) =~= a);
    assert(s.skip(a.len() as int + 1) =~= b);
}

/// Of a command with a verb, a name and a rest, whatever white space stands around it, each part is read
/// as it was written.
pub proof fn commands_come_back(a: Seq<char>, verb: Seq<char>, name: Seq<char>, rest: Seq<char>, b: Seq<char>)
    requires
        words::all_white(a),
        words::all_white(b),
        one_word(verb),
        one_word(name),
        verb[0] != '#',
        !words::white(verb[0]),
        rest.len() > 0,
        !words::white(rest.last()),
    ensures
        ({
            let c = script::command_of(a + verb + seq![' '] + name + seq![' '] + rest + b);
            &&& verb == "load"@ ==> c == CommandView::Load(name, rest)
            &&& verb == "send"@ ==> c == CommandView::Send(name, rest)
            &&& verb == "unload"@ ==> c == CommandView::Unload(name)
            &&& verb == "print"@ ==> c == CommandView::Print(name + seq![' '] + rest)
            &&& verb == "assert_resource"@ ==> c == CommandView::AssertResource(name)
            &&& verb == "assert_no_resource"@ ==> c == CommandView::AssertNoResource(name)
            &&& verb == "sleep"@ ==> c == CommandView::Sleep(
                match words::number_of(name) {
                    Some(n) => n as u64,
                    None => 100,
                },
            )
            &&& c is Load ==> verb == "load"@
            &&& c is Send ==> verb == "send"@
            &&& c is Unload ==> verb == "unload"@
            &&& !(c is Skip) && !(c is Usage)
        }),
{
    let tail = name + seq![' '] + rest;
    let l = verb + seq![' '] + tail;
    assert(a + verb + seq![' '] + name + seq![' '] + rest + b =~= a + l + b);
    assert(l[0] == verb[0]);
    assert(l.last() == rest.last());
    words::padding_is_trimmed(a, l, b);
    lemma_cut(verb, tail);
    lemma_cut(name, rest);
    lemma_verbs();
}

/// A command with a verb and a name alone is read as it was written; where more is needed, its usage is
/// told.
pub proof fn short_commands_come_back(a: Seq<char>, verb: Seq<char>, name: Seq<char>, b: Seq<char>)
    requires
        words::all_white(a),
        words::all_white(b),
        one_word(verb),
        one_word(name),
        verb[0] != '#',
        !words::white(verb[0]),
        !words::white(name.last()),
    ensures
        ({
            let c = script::command_of(a + verb + seq![' '] + name + b);
            &&& verb == "unload"@ ==> c == CommandView::Unload(name)
            &&& verb == "print"@ ==> c == CommandView::Print(name)
            &&& verb == "assert_resource"@ ==> c == CommandView::AssertResource(name)
            &&& verb == "assert_no_resource"@ ==> c == CommandView::AssertNoResource(name)
            &&& verb == "load"@ || verb == "send"@ ==> c is Usage
        }),
{
    let l = verb + seq![' '] + name;
    assert(a + verb + seq![' '] + name + b =~= a + l + b);
    assert(l[0] == verb[0]);
    assert(l.last() == name.last());
    words::padding_is_trimmed(a, l, b);
    lemma_cut(verb, name);
    lemma_cut(name, name);
    lemma_verbs();
}

/// No two verbs are the same.
proof fn lemma_verbs()
    ensures
        "load"@ != "unload"@,
        "load"@ != "send"@,
        "load"@ != "sleep"@,
        "load"@ != "assert_resource"@,
        "load"@ != "assert_no_resource"@,
        "load"@ != "print"@,
        "unload"@ != "send"@,
        "unload"@ != "sleep"@,
        "unload"@ != "assert_resource"@,
        "unload"@ != "assert_no_resource"@,
        "unload"@ != "print"@,
        "send"@ != "sleep"@,
        "send"@ != "assert_resource"@,
        "send"@ != "assert_no_resource"@,
        "send"@ != "print"@,
        "sleep"@ != "assert_resource"@,
        "sleep"@ != "assert_no_resource"@,
        "sleep"@ != "print"@,
        "assert_resource"@ != "assert_no_resource"@,
        "assert_resource"@ != "print"@,
        "assert_no_resource"@ != "print"@,
{
    reveal_strlit("load");
    reveal_strlit("unload");
    reveal_strlit("send");
    reveal_strlit("sleep");
    reveal_strlit("assert_resource");
    reveal_strlit("assert_no_resource");
    reveal_strlit("print");
    assert("load"@[0] == 'l' && "unload"@[0] == 'u' && "send"@[0] == 's' && "sleep"@[0] == 's');
    assert("assert_resource"@[0] == 'a' && "assert_no_resource"@[0] == 'a' && "print"@[0] == 'p');
    assert("send"@.len() == 4 && "sleep"@.len() == 5);
    assert("assert_resource"@.len() == 15 && "assert_no_resource"@.len() == 18);
}

/// Comments and blank lines are passed over.
pub proof fn comments_are_passed_over(a: Seq<char>, rest: Seq<char>, b: Seq<char>)
    requires
        words::all_white(a),
        words::all_white(b),
        rest.len() > 0 ==> !words::white(rest.last()),
    ensures
        script::command_of(a) is Skip,
        script::command_of(a + seq!['#'] + rest + b) is Skip,
{
    let empty = Seq::<char>::empty();
    words::padding_is_trimmed(a, empty, empty);
    assert(a + empty + empty =~= a);
    let l = seq!['#'] + rest;
    words::white_space_in_ascii('#');
    assert(l.last() == if rest.len() > 0 {
        rest.last()
    } else {
        '#'
    });
    assert(a + seq!['#'] + rest + b =~= a + l + b);
    words::padding_is_trimmed(a, l, b);
}

/// A verb that is not known is told of.
pub proof fn unknown_verbs_are_told(verb: Seq<char>)
    requires
        one_word(verb),
        words::no_white(verb),
        verb[0] != '#',
        verb != "load"@,
        verb != "unload"@,
        verb != "send"@,
        verb != "sleep"@,
        verb != "assert_resource"@,
        verb != "assert_no_resource"@,
        verb != "print"@,
    ensures
        script::command_of(verb) == CommandView::Unknown(verb),
{
    let empty = Seq::<char>::empty();
    assert(!words::white(verb[0]) && !words::white(verb[verb.len() - 1]));
    words::padding_is_trimmed(empty, verb, empty);
    assert(empty + verb + empty =~= verb);
    lemma_cut(verb, empty);
}

// ---------------------------------------------------------------------------
// Names of versions, files and directories
// ---------------------------------------------------------------------------

/// A version is a nightly one if it says so anywhere, in upper or lower case; one without a dash is none.
pub proof fn nightly_versions_say_so(a: Seq<char>, mark: Seq<char>, b: Seq<char>, version: Seq<char>)
    requires
        mark.len() == 8,
        forall|i: int| 0 <= i < 8 ==> same_letter(#[trigger] mark[i], "-nightly"@[i]),
        !version.contains('-'),
    ensures
        compiler::nightly(a + mark + b),
        !compiler::nightly(version),
{
    reveal_strlit("-nightly");
    let low = compiler::lower_ascii(a + mark + b);
    let at = a.len() as int;
    let l = compiler::lower_ascii(version);
    assert forall|i: int| 0 <= i < 8 implies #[trigger] low.subrange(at, at + 8)[i] == "-nightly"@[i] by {
        assert((a + mark + b)[at + i] == mark[i]);
        assert(same_letter(mark[i], "-nightly"@[i]));
    }
    assert(low.subrange(at, at + 8) =~= "-nightly"@);
    assert(words::occurs_at(low, "-nightly"@, at));
    if compiler::nightly(version) {
        let k = choose|k: int| words::occurs_at(l, "-nightly"@, k);
        assert(l[k] == l.subrange(k, k + 8)[0]);
        assert(l[k] == '-');
        assert(version[k] == '-') by {
            let c = version[k];
            assert('A' as u32 <= c as u32 && c as u32 <= 'Z' as u32 ==> l[k] as u32 == c as u32 + 32);
        }
    }
}

/// Are two characters the same, or an upper case letter of ASCII and its lower case?
pub open spec fn same_letter(a: char, b: char) -> bool {
    a == b || ('A' as u32 <= a as u32 && a as u32 <= 'Z' as u32 && b as u32 == a as u32 + 32)
}

/// The standard library is told by its name: every file that starts with `libstd-` and ends with `.dylib`, and
/// no other.
pub proof fn the_standard_library_is_told_by_its_name(middle: Seq<char>, name: Seq<char>)
    ensures
        compiler::is_std_dylib("libstd-"@ + middle + ".dylib"@),
        compiler::is_std_dylib(name) ==> "libstd-"@.is_prefix_of(name) && ".dylib"@.is_suffix_of(name),
{
    let s = "libstd-"@ + middle + ".dylib"@;
    assert(s.subrange(0, "libstd-"@.len() as int) =~= "libstd-"@);
    assert(s.subrange(s.len() - ".dylib"@.len(), s.len() as int) =~= ".dylib"@);
}

/// A plugin's cache directory stands below the home directory, in a directory for the environment: plugins of
/// different environments do not share one.
pub proof fn caches_stand_below_the_home(home: Seq<char>, env: Seq<char>, name: Seq<char>, hash: Seq<char>)
    requires
        home.len() > 0,
        home.last() != '/',
        env.len() > 0,
        env[0] != '/',
        env.last() != '/',
        name.len() > 0,
        name[0] != '/',
        hash.len() == 8,
    ensures
        compiler::cache_path(Some(home), env, name, hash) == home + seq!['/'] + ".tau"@ + seq!['/'] + "buildcache"@ + seq!['/'] + env
            + seq!['/'] + (name + "."@ + hash),
        compiler::cache_path(None, env, name, hash) == compiler::cache_path(Some("."@), env, name, hash),
{
    reveal_strlit(".tau");
    reveal_strlit("buildcache");
    let a = home + seq!['/'] + ".tau"@;
    let b = a + seq!['/'] + "buildcache"@;
    let c = b + seq!['/'] + env;
    let n = name + "."@ + hash;
    paths_are_put_below(home, ".tau"@);
    assert(a.last() == 'u');
    paths_are_put_below(a, "buildcache"@);
    assert(b.last() == 'e');
    paths_are_put_below(b, env);
    assert(c.last() == env.last());
    assert(n[0] == name[0]);
    paths_are_put_below(c, n);
}

/// A target feature is switched on under its own name, whatever white space stands around it.
pub proof fn features_are_switched_on(a: Seq<char>, feature: Seq<char>, b: Seq<char>)
    requires
        words::all_white(a),
        words::all_white(b),
        clean(feature),
    ensures
        capture::enabled(a + feature + b) == "+"@ + feature,
{
    words::padding_is_trimmed(a, feature, b);
}

/// What the program does is told by its first argument alone; if that is none of the known ones, the plugins
/// that are named run.
pub proof fn the_first_argument_tells_the_mode(program: Seq<char>, word: Seq<char>, rest: Seq<Seq<char>>)
    ensures
        ({
            let mode = modes::mode_of(seq![program, word] + rest);
            &&& mode is Info <==> word == "--info"@
            &&& mode is Test <==> word == "test"@
            &&& mode is Bench <==> word == "bench"@
            &&& word == "--reload-test"@ ==> if rest.len() > 0 {
                mode == ModeView::ReloadTest(rest[0])
            } else {
                mode is Refuse
            }
            &&& mode is ReloadTest ==> word == "--reload-test"@
            &&& mode is Install ==> word == "install"@
            &&& word == "bench"@ && rest.len() > 0 ==> mode->Bench_0 == rest[0]
            &&& word == "bench"@ && rest.len() == 0 ==> mode == ModeView::Bench("all"@, 10_000)
            &&& word == "bench"@ && rest.len() > 1 && words::number_of(rest[1]) is Some ==> mode->Bench_1 == words::number_of(rest[1])->0 as u64
            &&& word == "bench"@ && rest.len() > 1 && words::number_of(rest[1]) is None ==> mode->Bench_1 == 10_000
            &&& word != "--info"@ && word != "install"@ && word != "test"@ && word != "bench"@ && word != "--reload-test"@
                && word != "--plugin"@ ==> mode == ModeView::Run(script::plugin_paths(rest, 0))
        }),
        modes::mode_of(seq![program]) matches ModeView::Run(paths) && paths.len() == 0,
{
    reveal_strlit("--info");
    reveal_strlit("install");
    reveal_strlit("test");
    reveal_strlit("bench");
    reveal_strlit("--reload-test");
    let args = seq![program, word] + rest;
    assert(args[1] == word);
    assert(forall|i: int| 0 <= i < rest.len() ==> args[i + 2] == #[trigger] rest[i]);
    assert("--info"@.len() == 6 && "install"@.len() == 7 && "test"@.len() == 4 && "bench"@.len() == 5 && "--reload-test"@.len() == 13);
    if rest.len() > 0 {
        assert(args[2] == rest[0]);
    }
    if rest.len() > 1 {
        assert(args[3] == rest[1]);
    }
    let tail = seq![word] + rest;
    each_plugin_argument_names_one(program, program, tail);
    each_plugin_argument_names_one(word, program, rest);
    assert(args =~= seq![program] + tail);
    each_plugin_argument_names_one(program, program, Seq::empty());
    assert(seq![program] =~= seq![program] + Seq::<Seq<char>>::empty());
}

/// Without a number to wait for, a pause takes a tenth of a second.
pub proof fn a_pause_has_a_length(ms: Seq<char>)
    requires
        one_word(ms),
        !words::white(ms.last()),
    ensures
        script::command_of("sleep"@) == CommandView::Sleep(100),
        script::command_of("sleep"@ + seq![' '] + ms) == CommandView::Sleep(
            match words::number_of(ms) {
                Some(n) => n as u64,
                None => 100,
            },
        ),
{
    reveal_strlit("sleep");
    let empty = Seq::<char>::empty();
    words::white_space_in_ascii('s');
    words::white_space_in_ascii('p');
    words::padding_is_trimmed(empty, "sleep"@, empty);
    assert(empty + "sleep"@ + empty =~= "sleep"@);
    let l = "sleep"@ + seq![' '] + ms;
    assert(l.last() == ms.last());
    words::padding_is_trimmed(empty, l, empty);
    assert(empty + l + empty =~= l);
    lemma_cut("sleep"@, ms);
    lemma_cut(ms, ms);
    lemma_verbs();
}

} // verus!
