//! What a build of the host records of itself, so that plugins can be built in the same way.

use vstd::prelude::*;
use crate::text;
use crate::text::{chars_of, join_strings, same, split_at_char, substring};
use crate::words;
use crate::words::{has_prefix, matches_at, split_lines, trim};

verus! {

/// A variable of the environment, or what stands for it.
pub open spec fn var_or(var: Option<&str>, fallback: Seq<char>) -> Seq<char> {
    match var {
        Some(v) => v@,
        None => fallback,
    }
}

fn or_else(var: Option<&str>, fallback: &str) -> (r: String)
    ensures
        r@ == var_or(var, fallback@),
{
    match var {
        Some(v) => v.to_owned(),
        None => fallback.to_owned(),
    }
}

/// The version, from what `rustc -V` writes.
pub fn capture_rustc_version(stdout: &str) -> (r: String)
    ensures
        r@ == words::trimmed(stdout@),
{
    trim(stdout)
}

/// The compiler flags: the encoded ones, else the plain ones, else none.
pub fn capture_rustflags(encoded: Option<&str>, plain: Option<&str>) -> (r: String)
    ensures
        r@ == var_or(encoded, var_or(plain, ""@)),
{
    match encoded {
        Some(flags) => flags.to_owned(),
        None => or_else(plain, ""),
    }
}

/// The text after all the marks that it begins with.
pub open spec fn without_marks(s: Seq<char>, mark: Seq<char>) -> Seq<char>
    decreases s.len(),
{
    if mark.len() > 0 && words::starts_with(s, mark) {
        without_marks(s.skip(mark.len() as int), mark)
    } else {
        s
    }
}

fn skip_marks(s: &str, mark: &str) -> (r: String)
    requires
        mark@.len() > 0,
    ensures
        r@ == without_marks(s@, mark@),
{
    let all = chars_of(s);
    let part = chars_of(mark);
    let n: usize = part.len();
    let total: usize = all.len();
    let mut at: usize = 0;
    assert(s@.skip(0) =~= s@);
    loop
        invariant
            all@ == s@,
            part@ == mark@,
            n == part@.len(),
            n > 0,
            at <= total == all@.len(),
            without_marks(s@, mark@) == without_marks(s@.skip(at as int), mark@),
        ensures
            all@ == s@,
            at <= total == all@.len(),
            s@.skip(at as int) == without_marks(s@, mark@),
        decreases all@.len() - at,
    {
        let ghost rest = s@.skip(at as int);
        assert(at + n <= all@.len() ==> rest.subrange(0, n as int) =~= s@.subrange(at as int, at + n));
        if matches_at(&all, &part, at) {
            assert(words::starts_with(rest, mark@));
            assert(rest.skip(n as int) =~= s@.skip(at + n));
            at = at + n;
        } else {
            assert(!words::starts_with(rest, mark@));
            break;
        }
    }
    assert(all@.subrange(at as int, all@.len() as int) =~= s@.skip(at as int));
    substring(&all, at, total)
}

/// What stands behind `host:` in the first of the lines that begins with it.
pub open spec fn host_line(lines: Seq<Seq<char>>) -> Option<Seq<char>>
    decreases lines.len(),
{
    if lines.len() == 0 {
        None
    } else if words::starts_with(lines[0], "host:"@) {
        Some(words::trimmed(without_marks(lines[0], "host:"@)))
    } else {
        host_line(lines.skip(1))
    }
}

/// The target of the build: the variable, else what the compiler's long version tells, else that it
/// is unknown.
pub fn capture_target(target: Option<&str>, verbose: &str) -> (r: String)
    ensures
        r@ == match target {
            Some(t) => t@,
            None => match host_line(words::lines_of(verbose@)) {
                Some(t) => t,
                None => "unknown"@,
            },
        },
{
    if let Some(t) = target {
        return t.to_owned();
    }
    let lines = split_lines(verbose);
    let ghost all = text::views(lines@);
    let mut i: usize = 0;
    assert(all.skip(0) =~= all);
    while i < lines.len()
        invariant
            target is None,
            all == text::views(lines@),
            all == words::lines_of(verbose@),
            i <= lines@.len(),
            host_line(all) == host_line(all.skip(i as int)),
        decreases lines.len() - i,
    {
        let line = lines[i].as_str();
        assert(all.skip(i as int)[0] == line@);
        assert(all.skip(i as int).skip(1) =~= all.skip(i + 1));
        if has_prefix(line, "host:") {
            proof {
                reveal_strlit("host:");
            }
            return trim(skip_marks(line, "host:").as_str());
        }
        i = i + 1;
    }
    "unknown".to_owned()
}

/// How the host panics: as its profile says, and by unwinding if that says nothing. A build without
/// a profile is one for debugging.
pub fn capture_panic_strategy(profile: Option<&str>, release: Option<&str>, dev: Option<&str>) -> (r: String)
    ensures
        r@ == if var_or(profile, "debug"@) == "release"@ {
            var_or(release, "unwind"@)
        } else {
            var_or(dev, "unwind"@)
        },
{
    let profile = or_else(profile, "debug");
    if same(profile.as_str(), "release") {
        or_else(release, "unwind")
    } else {
        or_else(dev, "unwind")
    }
}

/// A target feature as the compiler takes it.
pub open spec fn enabled(feature: Seq<char>) -> Seq<char> {
    "+"@ + words::trimmed(feature)
}

/// The target features as the compiler takes them: each one switched on, commas between them.
pub fn capture_target_features(features: Option<&str>) -> (r: String)
    ensures
        r@ == if var_or(features, ""@).len() == 0 {
            ""@
        } else {
            text::join(text::split_on(var_or(features, ""@), ',').map_values(|f: Seq<char>| enabled(f)), ","@)
        },
{
    let features = or_else(features, "");
    if features.as_str().is_empty() {
        return "".to_owned();
    }
    let list = split_at_char(features.as_str(), ',');
    let ghost all = text::views(list@);
    let mut on: Vec<String> = Vec::new();
    let mut i: usize = 0;
    while i < list.len()
        invariant
            all == text::views(list@),
            i <= list@.len(),
            on@.len() == i,
            forall|k: int| 0 <= k < i ==> (#[trigger] on@[k])@ == enabled(all[k]),
        decreases list.len() - i,
    {
        let mut f = "+".to_owned();
        f.append(trim(list[i].as_str()).as_str());
        assert(all[i as int] == list@[i as int]@);
        on.push(f);
        i = i + 1;
    }
    assert(text::views(on@) =~= all.map_values(|f: Seq<char>| enabled(f)));
    join_strings(&on, ",")
}

} // verus!
