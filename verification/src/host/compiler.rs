//! Plans for compiling plugins: what to run, with what, and what to make of the outcome.
//!
//! Plugins are compiled by the very compiler that built the host, with the same flags. The
//! functions here decide; running programs and reading files is left to the caller.

use std::collections::hash_map::DefaultHasher;
use std::hash::Hasher;
use vstd::bytes::*;
use vstd::prelude::*;
use vstd::std_specs::hash::*;
use vstd::utf8::*;
use crate::text;
use crate::text::{chars_of, join_strings, same, split_at_char, string_of, substring};
use crate::words;
use crate::words::{find_char, find_part, has_prefix, has_suffix, hexadecimal, is_white, replace_char, split_lines, split_words, trim, trim_char};

verus! {

/// The crates that are patched into plugin builds, one `name = directory` to a line; the
/// directories are relative to the root of the workspace. The shared runtime is not among
/// them: it comes as a prebuilt library.
pub const PATCHES_LIST: &'static str = "# name = directory\ntau = crates/tau\ntokio = crates/tau-tokio\n";

/// A patched crate and its source directory.
pub struct PatchEntry {
    pub name: String,
    pub rel_path: String,
}

/// A patched crate's name and directory.
pub open spec fn patch_view(e: PatchEntry) -> (Seq<char>, Seq<char>) {
    (e.name@, e.rel_path@)
}

/// The patch that a line stands for. Blank lines, comments and lines without `=` stand for
/// none.
pub open spec fn patch_of(line: Seq<char>) -> Option<(Seq<char>, Seq<char>)> {
    let l = words::trimmed(line);
    if l.len() == 0 || l[0] == '#' {
        None
    } else {
        match words::char_index(l, '=', 0) {
            Some(i) => Some((words::trimmed(l.take(i)), words::trimmed(l.skip(i + 1)))),
            None => None,
        }
    }
}

/// The patches of a list, in order.
pub open spec fn patches_of(lines: Seq<Seq<char>>) -> Seq<(Seq<char>, Seq<char>)>
    decreases lines.len(),
{
    if lines.len() == 0 {
        Seq::empty()
    } else {
        let before = patches_of(lines.drop_last());
        match patch_of(lines.last()) {
            Some(p) => before.push(p),
            None => before,
        }
    }
}

pub open spec fn patch_views(v: Seq<PatchEntry>) -> Seq<(Seq<char>, Seq<char>)> {
    v.map_values(|e: PatchEntry| patch_view(e))
}

/// Reads one line of the list.
fn parse_patch(line: &str) -> (r: Option<PatchEntry>)
    ensures
        r is Some <==> patch_of(line@) is Some,
        r matches Some(e) ==> patch_of(line@) == Some(patch_view(e)),
{
    let l = trim(line);
    let v = chars_of(l.as_str());
    if v.len() == 0 || v[0] == '#' {
        return None;
    }
    match find_char(&v, '=', 0) {
        None => None,
        Some(i) => {
            let name = substring(&v, 0, i);
            let path = substring(&v, i + 1, v.len());
            assert(name@ =~= v@.take(i as int));
            assert(path@ =~= v@.skip(i as int + 1));
            Some(PatchEntry { name: trim(name.as_str()), rel_path: trim(path.as_str()) })
        },
    }
}

/// Reads a list of patches.
pub fn parse_patch_list(list: &str) -> (r: Vec<PatchEntry>)
    ensures
        patch_views(r@) == patches_of(words::lines_of(list@)),
{
    let lines = split_lines(list);
    let ghost all = text::views(lines@);
    let mut r: Vec<PatchEntry> = Vec::new();
    let mut i: usize = 0;
    proof {
        assert(all.take(0) =~= Seq::<Seq<char>>::empty());
        assert(patch_views(r@) =~= Seq::empty());
    }
    while i < lines.len()
        invariant
            all == text::views(lines@),
            i <= lines@.len(),
            patch_views(r@) == patches_of(all.take(i as int)),
        decreases lines.len() - i,
    {
        let ghost before = patch_views(r@);
        proof {
            assert(all.take(i as int + 1).drop_last() =~= all.take(i as int));
            assert(all.take(i as int + 1).last() == lines@[i as int]@);
        }
        if let Some(e) = parse_patch(lines[i].as_str()) {
            let ghost p = patch_view(e);
            r.push(e);
            assert(patch_views(r@) =~= before.push(p));
        }
        i = i + 1;
    }
    assert(all.take(i as int) =~= all);
    r
}

/// The patches of `PATCHES_LIST`.
pub fn parse_patches() -> (r: Vec<PatchEntry>)
    ensures
        patch_views(r@) == patches_of(words::lines_of(PATCHES_LIST@)),
{
    parse_patch_list(PATCHES_LIST)
}

/// A path below another: an absolute one stands for itself.
pub open spec fn path_below(base: Seq<char>, rel: Seq<char>) -> Seq<char> {
    if rel.len() > 0 && rel[0] == '/' {
        rel
    } else if base.len() == 0 {
        rel
    } else if base.last() == '/' {
        base + rel
    } else {
        base.push('/') + rel
    }
}

/// Puts a path below another.
pub fn join_path(base: &str, rel: &str) -> (r: String)
    ensures
        r@ == path_below(base@, rel@),
{
    let b = chars_of(base);
    let q = chars_of(rel);
    if (q.len() > 0 && q[0] == '/') || b.len() == 0 {
        return rel.to_owned();
    }
    let mut r = base.to_owned();
    if b[b.len() - 1] != '/' {
        r.push('/');
    }
    r.append(rel);
    r
}

/// The patched crates with their absolute paths.
pub struct ResolvedPatches {
    pub entries: Vec<(String, String)>,
}

pub open spec fn pair_views(v: Seq<(String, String)>) -> Seq<(Seq<char>, Seq<char>)> {
    v.map_values(|e: (String, String)| (e.0@, e.1@))
}

impl ResolvedPatches {
    /// The patches, below `root`.
    pub fn resolve(root: &str) -> (r: Self)
        ensures
            pair_views(r.entries@) == patches_of(words::lines_of(PATCHES_LIST@)).map_values(
                |p: (Seq<char>, Seq<char>)| (p.0, path_below(root@, p.1)),
            ),
    {
        let patches = parse_patches();
        let ghost all = patch_views(patches@);
        let mut entries: Vec<(String, String)> = Vec::new();
        let mut i: usize = 0;
        while i < patches.len()
            invariant
                all == patch_views(patches@),
                i <= patches@.len(),
                entries@.len() == i,
                forall|k: int|
                    0 <= k < i ==> (#[trigger] entries@[k]).0@ == all[k].0 && entries@[k].1@ == path_below(root@, all[k].1),
            decreases patches.len() - i,
        {
            assert(all[i as int] == patch_view(patches@[i as int]));
            let e = &patches[i];
            entries.push((e.name.clone(), join_path(root, e.rel_path.as_str())));
            i = i + 1;
        }
        assert(pair_views(entries@) =~= all.map_values(|p: (Seq<char>, Seq<char>)| (p.0, path_below(root@, p.1))));
        ResolvedPatches { entries }
    }

    /// The patches of an installed host: each crate's source stands below `src_root` under its
    /// name.
    pub fn resolve_installed(src_root: &str) -> (r: Self)
        ensures
            pair_views(r.entries@) == patches_of(words::lines_of(PATCHES_LIST@)).map_values(
                |p: (Seq<char>, Seq<char>)| (p.0, path_below(src_root@, p.0)),
            ),
    {
        let patches = parse_patches();
        let ghost all = patch_views(patches@);
        let mut entries: Vec<(String, String)> = Vec::new();
        let mut i: usize = 0;
        while i < patches.len()
            invariant
                all == patch_views(patches@),
                i <= patches@.len(),
                entries@.len() == i,
                forall|k: int|
                    0 <= k < i ==> (#[trigger] entries@[k]).0@ == all[k].0 && entries@[k].1@ == path_below(src_root@, all[k].0),
            decreases patches.len() - i,
        {
            assert(all[i as int] == patch_view(patches@[i as int]));
            let e = &patches[i];
            entries.push((e.name.clone(), join_path(src_root, e.name.as_str())));
            i = i + 1;
        }
        assert(pair_views(entries@) =~= all.map_values(|p: (Seq<char>, Seq<char>)| (p.0, path_below(src_root@, p.0))));
        ResolvedPatches { entries }
    }

    /// The path of a patched crate: the first entry of this name.
    pub fn get(&self, name: &str) -> (r: Option<&str>)
        ensures
            r is None <==> forall|i: int| 0 <= i < self.entries@.len() ==> (#[trigger] self.entries@[i]).0@ != name@,
            r matches Some(p) ==> exists|i: int|
                #![trigger self.entries@[i]]
                0 <= i < self.entries@.len() && self.entries@[i].0@ == name@ && self.entries@[i].1@ == p@ && forall|k: int|
                    0 <= k < i ==> (#[trigger] self.entries@[k]).0@ != name@,
    {
        let mut i: usize = 0;
        while i < self.entries.len()
            invariant
                i <= self.entries@.len(),
                forall|k: int| 0 <= k < i ==> (#[trigger] self.entries@[k]).0@ != name@,
            decreases self.entries.len() - i,
        {
            let e = &self.entries[i];
            if same(e.0.as_str(), name) {
                assert(self.entries@[i as int].0@ == name@);
                return Some(e.1.as_str());
            }
            i = i + 1;
        }
        None
    }
}

/// How the host was built.
pub struct HostBuild {
    pub version: String,
    pub rustflags: String,
    pub target: String,
    pub panic: String,
    pub target_features: String,
}

/// What of two environments matters to a build is the same.
pub open spec fn same_environment(one: (HostBuild, Option<Seq<u8>>), other: (HostBuild, Option<Seq<u8>>)) -> bool {
    &&& one.0.version@ == other.0.version@
    &&& one.0.rustflags@ == other.0.rustflags@
    &&& one.0.panic@ == other.0.panic@
    &&& one.0.target_features@ == other.0.target_features@
    &&& one.1 == other.1
}

/// What is handed to a hasher of a text: its bytes, and one that is in no text.
pub open spec fn text_writes(s: Seq<char>) -> Seq<Seq<u8>> {
    seq![encode_utf8(s), seq![0xffu8]]
}

/// What is handed to a hasher of bytes: their number, and the bytes.
pub open spec fn bytes_writes(b: Seq<u8>) -> Seq<Seq<u8>> {
    seq![spec_u64_to_le_bytes(b.len() as u64), b]
}

/// What is handed to a hasher of the environment of a build.
pub open spec fn env_writes(host: HostBuild, runtime: Option<Seq<u8>>) -> Seq<Seq<u8>> {
    text_writes(host.version@) + text_writes(host.rustflags@) + text_writes(host.panic@) + text_writes(host.target_features@)
        + (match runtime {
        Some(b) => bytes_writes(b),
        None => Seq::empty(),
    }) + text_writes(PATCHES_LIST@)
}

pub open spec fn bytes_of(b: Option<&Vec<u8>>) -> Option<Seq<u8>> {
    match b {
        Some(b) => Some(b@),
        None => None,
    }
}

/// The name of the cache directory of an environment.
pub open spec fn env_name(host: HostBuild, runtime: Option<Seq<u8>>) -> Seq<char> {
    words::numeral(DefaultHasher::spec_finish(env_writes(host, runtime)) as nat, 16)
}

/// The hash of where a plugin's source is.
pub open spec fn source_name(source: Seq<char>) -> Seq<char> {
    words::numeral(DefaultHasher::spec_finish(text_writes(source)) as nat, 16)
}

fn write_text(hasher: &mut DefaultHasher, s: &str)
    ensures
        final(hasher)@ == old(hasher)@ + text_writes(s@),
{
    let end: [u8; 1] = [0xff];
    hasher.write(s.as_bytes());
    hasher.write(&end);
    assert(end@ =~= seq![0xffu8]);
    assert(hasher@ =~= old(hasher)@ + text_writes(s@));
}

fn write_bytes(hasher: &mut DefaultHasher, b: &Vec<u8>)
    ensures
        final(hasher)@ == old(hasher)@ + bytes_writes(b@),
{
    let len: u64 = b.len() as u64;
    hasher.write(u64_to_le_bytes(len).as_slice());
    hasher.write(b.as_slice());
    assert(hasher@ =~= old(hasher)@ + bytes_writes(b@));
}

/// The compiler that plugins are built with.
pub struct Compiler {
    pub rustc: String,
    pub cargo: String,
    pub sysroot: String,
    pub std_dylib: String,
    /// The directory of `std_dylib`.
    pub std_dir: String,
    pub target: String,
    pub version_string: String,
}

/// The text with each continued line end (a backslash before a newline) made a space.
pub open spec fn joined_lines(s: Seq<char>, i: int) -> Seq<char>
    decreases s.len() - i,
{
    if i < 0 || i >= s.len() {
        Seq::empty()
    } else if s[i] == '\\' && i + 1 < s.len() && s[i + 1] == '\n' {
        seq![' '] + joined_lines(s, i + 2)
    } else {
        seq![s[i]] + joined_lines(s, i + 1)
    }
}

/// The paths from `i` on, the first of which has begun as `cur`. White space ends a path; a
/// backslash takes the space behind it into the path.
pub open spec fn paths_from(s: Seq<char>, i: int, cur: Seq<char>) -> Seq<Seq<char>>
    decreases s.len() - i,
{
    if i < 0 || i >= s.len() {
        if cur.len() > 0 {
            seq![cur]
        } else {
            Seq::empty()
        }
    } else if s[i] == '\\' && i + 1 < s.len() && s[i + 1] == ' ' {
        paths_from(s, i + 2, cur.push(' '))
    } else if s[i] == '\\' && i + 1 < s.len() && s[i + 1] == '\n' {
        paths_from(s, i + 2, cur)
    } else if words::white(s[i]) {
        if cur.len() > 0 {
            seq![cur] + paths_from(s, i + 1, Seq::empty())
        } else {
            paths_from(s, i + 1, cur)
        }
    } else {
        paths_from(s, i + 1, cur.push(s[i]))
    }
}

/// The mark between the output and its dependencies.
pub open spec fn dep_mark() -> Seq<char> {
    seq![':', ' ']
}

/// The dependencies of a dep file: the paths behind its first `: `.
pub open spec fn dep_paths(contents: Seq<char>, at: int) -> Seq<Seq<char>> {
    paths_from(joined_lines(contents, 0).skip(at + 2), 0, Seq::empty())
}

fn join_continued(v: &Vec<char>) -> (r: Vec<char>)
    ensures
        r@ == joined_lines(v@, 0),
{
    let mut r: Vec<char> = Vec::new();
    let mut i: usize = 0;
    while i < v.len()
        invariant
            i <= v@.len(),
            r@ + joined_lines(v@, i as int) == joined_lines(v@, 0),
        decreases v.len() - i,
    {
        let ghost before = r@;
        let ghost left = joined_lines(v@, i as int);
        if v[i] == '\\' && i + 1 < v.len() && v[i + 1] == '\n' {
            r.push(' ');
            i = i + 2;
        } else {
            r.push(v[i]);
            i = i + 1;
        }
        assert(r@ + joined_lines(v@, i as int) =~= before + left);
    }
    assert(r@ =~= joined_lines(v@, 0));
    r
}

fn scan_paths(v: &Vec<char>) -> (r: Vec<String>)
    ensures
        text::views(r@) == paths_from(v@, 0, Seq::empty()),
{
    let mut deps: Vec<String> = Vec::new();
    let mut cur: Vec<char> = Vec::new();
    let mut i: usize = 0;
    proof {
        assert(text::views(deps@) + paths_from(v@, 0, cur@) =~= paths_from(v@, 0, Seq::empty()));
    }
    while i < v.len()
        invariant
            i <= v@.len(),
            text::views(deps@) + paths_from(v@, i as int, cur@) == paths_from(v@, 0, Seq::empty()),
        decreases v.len() - i,
    {
        if v[i] == '\\' && i + 1 < v.len() && v[i + 1] == ' ' {
            cur.push(' ');
            i = i + 2;
        } else if v[i] == '\\' && i + 1 < v.len() && v[i + 1] == '\n' {
            i = i + 2;
        } else if is_white(v[i]) {
            if cur.len() > 0 {
                let ghost before = text::views(deps@);
                let ghost w = cur@;
                deps.push(string_of(&cur));
                cur = Vec::new();
                assert(text::views(deps@) =~= before.push(w));
                assert(cur@ =~= Seq::<char>::empty());
                assert(text::views(deps@) + paths_from(v@, i as int + 1, cur@) =~= before + (seq![w] + paths_from(
                    v@,
                    i as int + 1,
                    Seq::empty(),
                )));
            }
            i = i + 1;
        } else {
            cur.push(v[i]);
            i = i + 1;
        }
    }
    if cur.len() > 0 {
        let ghost before = text::views(deps@);
        let ghost w = cur@;
        deps.push(string_of(&cur));
        assert(text::views(deps@) =~= before + seq![w]);
    } else {
        assert(text::views(deps@) + Seq::<Seq<char>>::empty() =~= text::views(deps@));
    }
    deps
}

/// The first line of a manifest that names the package.
pub open spec fn name_line(lines: Seq<Seq<char>>, i: int) -> Option<Seq<char>>
    decreases lines.len() - i,
{
    if i < 0 || i >= lines.len() {
        None
    } else if words::starts_with(words::trimmed(lines[i]), "name"@) {
        Some(lines[i])
    } else {
        name_line(lines, i + 1)
    }
}

/// The package name of a manifest: what stands behind the `=` of its first line that starts
/// with `name`, up to a second `=`, without white space and quotes.
pub open spec fn package_name(manifest: Seq<char>) -> Option<Seq<char>> {
    match name_line(words::lines_of(manifest), 0) {
        None => None,
        Some(l) => {
            let pieces = text::split_on(l, '=');
            if pieces.len() > 1 {
                Some(words::trimmed_of(words::trimmed_of(words::trimmed(pieces[1]), '"'), '\''))
            } else {
                None
            }
        },
    }
}

/// Does the text hold `-nightly`, in upper or lower case?
pub open spec fn nightly(version: Seq<char>) -> bool {
    exists|at: int| words::occurs_at(lower_ascii(version), "-nightly"@, at)
}

/// The text with `A` to `Z` in lower case.
pub open spec fn lower_ascii(s: Seq<char>) -> Seq<char> {
    s.map_values(
        |c: char|
            if 'A' as u32 <= c as u32 <= 'Z' as u32 {
                ((c as u32 + 32) as u32) as char
            } else {
                c
            },
    )
}

fn lower(v: &Vec<char>) -> (r: Vec<char>)
    ensures
        r@ == lower_ascii(v@),
{
    let mut r: Vec<char> = Vec::new();
    let mut i: usize = 0;
    while i < v.len()
        invariant
            i <= v@.len(),
            r@ == lower_ascii(v@).take(i as int),
        decreases v.len() - i,
    {
        let c = v[i];
        let d = if 'A' as u32 <= c as u32 && c as u32 <= 'Z' as u32 {
            let b: u8 = (c as u32) as u8;
            (b + 32) as char
        } else {
            c
        };
        r.push(d);
        assert(lower_ascii(v@).take(i as int + 1) =~= lower_ascii(v@).take(i as int).push(d));
        i = i + 1;
    }
    assert(lower_ascii(v@).take(i as int) =~= lower_ascii(v@));
    r
}

/// The date of a nightly version: its last word without the closing bracket, if it is ten bytes
/// long and has a dash.
pub open spec fn nightly_date(version: Seq<char>) -> Option<Seq<char>> {
    let w = words::words_of(version);
    if w.len() == 0 {
        None
    } else {
        let d = words::trimmed_of(w.last(), ')');
        if text::byte_len(d) == 10 && d.contains('-') {
            Some(d)
        } else {
            None
        }
    }
}

/// The toolchain that a compiler version stands for: the second word of a stable or beta
/// version, `nightly` with its date (where it has one) for a nightly one. `None` for a version
/// of fewer than two words.
pub open spec fn toolchain_of(version: Seq<char>) -> Option<Seq<char>> {
    let w = words::words_of(version);
    if w.len() < 2 {
        None
    } else if nightly(version) {
        match nightly_date(version) {
            Some(d) => Some("nightly-"@ + d),
            None => Some("nightly"@),
        }
    } else {
        Some(w[1])
    }
}

/// The flags that every plugin is built with, beyond those of the host.
pub open spec fn plugin_flags(host: HostBuild, dist_lib_path: Seq<char>, tau_rt: Option<(Seq<char>, Seq<char>)>) -> Seq<Seq<char>> {
    let base = seq![
        "-C"@,
        "prefer-dynamic"@,
        "-C"@,
        "link-args=-Wl,-undefined,dynamic_lookup"@,
        "-L"@,
        dist_lib_path,
        "-C"@,
        "panic="@ + host.panic@,
    ];
    let featured = if host.target_features@.len() > 0 {
        base + seq!["-C"@, "target-feature="@ + host.target_features@]
    } else {
        base
    };
    match tau_rt {
        Some((path, dir)) => featured + seq!["-L"@, dir, "--extern=tau_rt="@ + path],
        None => featured,
    }
}

/// All flags: those that the host was built with, then the plugin's own.
pub open spec fn all_flags(host: HostBuild, dist_lib_path: Seq<char>, tau_rt: Option<(Seq<char>, Seq<char>)>) -> Seq<Seq<char>> {
    if host.rustflags@.len() > 0 {
        text::split_on(host.rustflags@, '\u{1f}') + plugin_flags(host, dist_lib_path, tau_rt)
    } else {
        plugin_flags(host, dist_lib_path, tau_rt)
    }
}

fn cat(a: &str, b: &str) -> (r: String)
    ensures
        r@ == a@ + b@,
{
    let mut r = a.to_owned();
    r.append(b);
    r
}

fn cat3(a: &str, b: &str, c: &str) -> (r: String)
    ensures
        r@ == a@ + b@ + c@,
{
    let mut r = a.to_owned();
    r.append(b);
    r.append(c);
    r
}

/// What is known of a file that the plugin was built from.
pub enum DepStat {
    /// The file is gone.
    Missing,
    /// Its time cannot be told.
    Unknown,
    /// It was last written at this time.
    Written(u64),
}

/// Is the file no newer than `built`? One whose time cannot be told counts as old.
pub open spec fn not_newer(s: DepStat, built: u64) -> bool {
    match s {
        DepStat::Missing => false,
        DepStat::Unknown => true,
        DepStat::Written(t) => t <= built,
    }
}

/// What is known of an earlier build.
pub struct BuildFacts {
    /// When the artifact was written; `None` if there is none or its time cannot be told.
    pub artifact: Option<u64>,
    /// Does the dep file exist?
    pub dep_file: bool,
    /// When the manifest was written, as far as that can be told.
    pub manifest: Option<u64>,
    /// The dependencies; `None` if the dep file cannot be read.
    pub deps: Option<Vec<DepStat>>,
}

/// Where a plugin is built, and what comes of it.
pub struct BuildPaths {
    pub cache_dir: String,
    pub target_dir: String,
    pub build_dir: String,
    pub plugins_dir: String,
    pub dylib_name: String,
    pub built: String,
    pub artifact: String,
    pub dep_file: String,
}

pub open spec fn profile_name(release: bool) -> Seq<char> {
    if release {
        "release"@
    } else {
        "debug"@
    }
}

/// `name.hash`, with at most eight characters of the hash.
pub open spec fn cache_name(crate_name: Seq<char>, src_hash: Seq<char>) -> Seq<char> {
    crate_name + "."@ + if src_hash.len() > 8 {
        src_hash.take(8)
    } else {
        src_hash
    }
}

/// `~/.tau/buildcache/<env_hash>/<crate_name>.<src_hash>`, below `.` where there is no home.
pub open spec fn cache_path(home: Option<Seq<char>>, env_hash: Seq<char>, crate_name: Seq<char>, src_hash: Seq<char>) -> Seq<char> {
    let h = match home {
        Some(h) => h,
        None => "."@,
    };
    path_below(
        path_below(path_below(path_below(h, ".tau"@), "buildcache"@), env_hash),
        cache_name(crate_name, src_hash),
    )
}

impl Compiler {
    /// Reads a dep file: the paths behind the first `: `, or `None` if there is no such mark.
    ///
    /// Lines may be continued with a backslash, and a backslash before a space makes the space
    /// part of the path.
    pub fn parse_dep_file(contents: &str) -> (r: Option<Vec<String>>)
        ensures
            r is None ==> words::first_occurrence(joined_lines(contents@, 0), dep_mark(), None),
            r matches Some(deps) ==> exists|at: int|
                #[trigger] words::first_occurrence(joined_lines(contents@, 0), dep_mark(), Some(at)) && text::views(deps@) == dep_paths(
                    contents@,
                    at,
                ),
    {
        let joined = join_continued(&chars_of(contents));
        let mut mark: Vec<char> = Vec::new();
        mark.push(':');
        mark.push(' ');
        assert(mark@ =~= dep_mark());
        match find_part(&joined, &mark) {
            None => None,
            Some(at) => {
                assert(words::occurs_at(joined@, mark@, at as int));
                assert(at + 2 <= joined.len());
                let mut tail: Vec<char> = Vec::new();
                let mut i: usize = at + 2;
                while i < joined.len()
                    invariant
                        at + 2 <= i <= joined@.len(),
                        tail@ == joined@.subrange(at as int + 2, i as int),
                    decreases joined.len() - i,
                {
                    tail.push(joined[i]);
                    assert(joined@.subrange(at as int + 2, i as int + 1) =~= joined@.subrange(at as int + 2, i as int).push(
                        joined@[i as int],
                    ));
                    i = i + 1;
                }
                assert(tail@ =~= joined@.skip(at as int + 2));
                assert(words::first_occurrence(joined_lines(contents@, 0), dep_mark(), Some(at as int)));
                Some(scan_paths(&tail))
            },
        }
    }

    /// The toolchain of a compiler version; an error for a version of fewer than two words.
    pub fn parse_toolchain_from_version(version: &str) -> (r: Result<String, String>)
        ensures
            r is Ok <==> toolchain_of(version@) is Some,
            r matches Ok(t) ==> toolchain_of(version@) == Some(t@),
            r matches Err(e) ==> e@ == "Invalid version: "@ + version@,
    {
        let w = split_words(version);
        let ghost wv = text::views(w@);
        if w.len() < 2 {
            return Err(cat("Invalid version: ", version));
        }
        let low = lower(&chars_of(version));
        let found = find_part(&low, &chars_of("-nightly"));
        if found.is_some() {
            assert(nightly(version@));
            let last = trim_char(w[w.len() - 1].as_str(), ')');
            assert(wv.last() == w@[w@.len() - 1]@);
            let d = chars_of(last.as_str());
            let dash = find_char(&d, '-', 0);
            proof {
                lemma_char_index(d@, '-', 0);
            }
            if text::len_of(last.as_str()) == 10 && dash.is_some() {
                return Ok(cat("nightly-", last.as_str()));
            }
            return Ok("nightly".to_owned());
        }
        assert(!nightly(version@));
        assert(wv[1] == w@[1]@);
        Ok(w[1].clone())
    }

    /// The package name of a manifest.
    pub fn parse_crate_name(manifest: &str) -> (r: Option<String>)
        ensures
            r is Some <==> package_name(manifest@) is Some,
            r matches Some(n) ==> package_name(manifest@) == Some(n@),
    {
        let lines = split_lines(manifest);
        let ghost all = text::views(lines@);
        let mut i: usize = 0;
        while i < lines.len()
            invariant
                all == text::views(lines@),
                all == words::lines_of(manifest@),
                i <= lines@.len(),
                name_line(all, 0) == name_line(all, i as int),
            decreases lines.len() - i,
        {
            assert(all[i as int] == lines@[i as int]@);
            let t = trim(lines[i].as_str());
            if has_prefix(t.as_str(), "name") {
                let pieces = split_at_char(lines[i].as_str(), '=');
                let ghost pv = text::views(pieces@);
                if pieces.len() > 1 {
                    assert(pv[1] == pieces@[1]@);
                    let a = trim(pieces[1].as_str());
                    let b = trim_char(a.as_str(), '"');
                    return Some(trim_char(b.as_str(), '\''));
                }
                return None;
            }
            i = i + 1;
        }
        None
    }

    /// Does the compiler that reported `stdout` have the expected version?
    pub fn check_compiler_version(success: bool, stdout: &str, expected: &str) -> (r: bool)
        ensures
            r == (success && words::trimmed(stdout@) == expected@),
    {
        success && same(trim(stdout).as_str(), expected)
    }

    /// The directory that holds the standard library of a target.
    pub fn std_search_dir(sysroot: &str, target: &str) -> (r: String)
        ensures
            r@ == path_below(path_below(path_below(sysroot@, "lib/rustlib"@), target@), "lib"@),
    {
        let a = join_path(sysroot, "lib/rustlib");
        let b = join_path(a.as_str(), target);
        join_path(b.as_str(), "lib")
    }

    /// The first of the file names that is the standard library's.
    pub fn find_std_dylib(names: &Vec<String>) -> (r: Option<usize>)
        ensures
            r matches Some(i) ==> i < names@.len() && is_std_dylib(names@[i as int]@) && forall|k: int|
                0 <= k < i ==> !is_std_dylib(#[trigger] names@[k]@),
            r is None ==> forall|k: int| 0 <= k < names@.len() ==> !is_std_dylib(#[trigger] names@[k]@),
    {
        let mut i: usize = 0;
        while i < names.len()
            invariant
                i <= names@.len(),
                forall|k: int| 0 <= k < i ==> !is_std_dylib(#[trigger] names@[k]@),
            decreases names.len() - i,
        {
            if has_prefix(names[i].as_str(), "libstd-") && has_suffix(names[i].as_str(), ".dylib") {
                return Some(i);
            }
            i = i + 1;
        }
        None
    }

    /// The build tool: the one beside an absolute compiler path if it is there, else the one on
    /// the search path.
    pub fn find_cargo(absolute: bool, sibling: Option<String>) -> (r: String)
        ensures
            absolute && sibling is Some ==> r@ == sibling->0@,
            !(absolute && sibling is Some) ==> r@ == "cargo"@,
    {
        if absolute {
            if let Some(c) = sibling {
                return c;
            }
        }
        "cargo".to_owned()
    }

    /// The compiler, once everything about it is known: the outcome of the search for `rustc`, what
    /// it said of its sysroot, the standard library with its directory, the build tool. The errors
    /// come in the order in which they were met.
    pub fn resolve(
        host: &HostBuild,
        rustc: Result<String, String>,
        sysroot: Result<String, String>,
        std_dylib: Result<(String, String), String>,
        cargo: String,
    ) -> (r: Result<Compiler, String>)
        ensures
            rustc matches Err(e) ==> r == Err::<Compiler, String>(e),
            rustc is Ok && sysroot is Err ==> r == Err::<Compiler, String>(sysroot->Err_0),
            rustc is Ok && sysroot is Ok && std_dylib is Err ==> r == Err::<Compiler, String>(std_dylib->Err_0),
            rustc is Ok && sysroot is Ok && std_dylib is Ok ==> {
                &&& r matches Ok(c)
                &&& c.rustc == rustc->Ok_0
                &&& c.sysroot@ == words::trimmed(sysroot->Ok_0@)
                &&& c.std_dylib == std_dylib->Ok_0.0
                &&& c.std_dir == std_dylib->Ok_0.1
                &&& c.cargo == cargo
                &&& c.target@ == host.target@
                &&& c.version_string@ == host.version@
            },
    {
        match rustc {
            Err(e) => Err(e),
            Ok(rustc) => match sysroot {
                Err(e) => Err(e),
                Ok(out) => match std_dylib {
                    Err(e) => Err(e),
                    Ok((std_dylib, std_dir)) => Ok(
                        Compiler {
                            rustc,
                            cargo,
                            sysroot: trim(out.as_str()),
                            std_dylib,
                            std_dir,
                            target: host.target.clone(),
                            version_string: host.version.clone(),
                        },
                    ),
                },
            },
        }
    }

    /// The encoded compiler flags of a plugin build, separated by the unit separator. `tau_rt` is
    /// the prebuilt runtime library with its directory, where there is one.
    pub fn build_rustflags(host: &HostBuild, dist_lib_path: &str, tau_rt: Option<(&str, &str)>) -> (r: String)
        ensures
            r@ == text::join(
                all_flags(
                    *host,
                    dist_lib_path@,
                    match tau_rt {
                        Some((p, d)) => Some((p@, d@)),
                        None => None,
                    },
                ),
                seq!['\u{1f}'],
            ),
    {
        let ghost rt = match tau_rt {
            Some((p, d)) => Some((p@, d@)),
            None => None,
        };
        let mut flags: Vec<String> = Vec::new();
        if !host.rustflags.as_str().is_empty() {
            flags = split_at_char(host.rustflags.as_str(), '\u{1f}');
        } else {
            assert(text::views(flags@) =~= Seq::empty());
        }
        let ghost inherited = text::views(flags@);
        flags.push("-C".to_owned());
        flags.push("prefer-dynamic".to_owned());
        flags.push("-C".to_owned());
        flags.push("link-args=-Wl,-undefined,dynamic_lookup".to_owned());
        flags.push("-L".to_owned());
        flags.push(dist_lib_path.to_owned());
        flags.push("-C".to_owned());
        flags.push(cat("panic=", host.panic.as_str()));
        if !host.target_features.as_str().is_empty() {
            flags.push("-C".to_owned());
            flags.push(cat("target-feature=", host.target_features.as_str()));
        }
        if let Some((path, dir)) = tau_rt {
            flags.push("-L".to_owned());
            flags.push(dir.to_owned());
            flags.push(cat("--extern=tau_rt=", path));
        }
        assert(text::views(flags@) =~= inherited + plugin_flags(*host, dist_lib_path@, rt));
        assert(text::views(flags@) =~= all_flags(*host, dist_lib_path@, rt));
        let mut sep = String::new();
        sep.push('\u{1f}');
        assert(sep@ =~= seq!['\u{1f}']);
        join_strings(&flags, sep.as_str())
    }

    /// The search path for shared libraries: the host's own, then the toolchain's.
    pub fn build_dyld_path(dist_lib_path: &str, toolchain_lib: &str) -> (r: String)
        ensures
            r@ == dist_lib_path@ + ":"@ + toolchain_lib@,
    {
        cat3(dist_lib_path, ":", toolchain_lib)
    }

    /// A search path with a directory put in front of what it was.
    pub fn append_path(path: &str, existing: Option<&str>) -> (r: String)
        ensures
            existing matches Some(e) ==> r@ == path@ + ":"@ + e@,
            existing is None ==> r@ == path@,
    {
        match existing {
            Some(e) => cat3(path, ":", e),
            None => path.to_owned(),
        }
    }

    /// The directories for native libraries, package descriptions and headers, in this order.
    pub fn system_paths(dist_lib_path: &str, dist_root: &str) -> (r: (String, String, String))
        ensures
            r.0@ == dist_lib_path@,
            r.1@ == path_below(dist_lib_path@, "pkgconfig"@),
            r.2@ == path_below(dist_root@, "include"@),
    {
        (dist_lib_path.to_owned(), join_path(dist_lib_path, "pkgconfig"), join_path(dist_root, "include"))
    }

    /// The arguments of the build tool: the build itself, then one setting for each patched
    /// crate. The runtime is left out where it comes prebuilt.
    pub fn build_args(patches: &ResolvedPatches, prebuilt: bool, release: bool) -> (r: Vec<String>)
        ensures
            text::views(r@) == (if release {
                seq!["build"@, "--release"@]
            } else {
                seq!["build"@]
            }) + patch_args(pair_views(patches.entries@), prebuilt),
    {
        let mut args: Vec<String> = Vec::new();
        args.push("build".to_owned());
        if release {
            args.push("--release".to_owned());
        }
        let ghost start = text::views(args@);
        assert(start =~= if release {
            seq!["build"@, "--release"@]
        } else {
            seq!["build"@]
        });
        let ghost all = pair_views(patches.entries@);
        let mut i: usize = 0;
        assert(all.take(0) =~= Seq::empty());
        assert(start + patch_args(all.take(0), prebuilt) =~= start);
        while i < patches.entries.len()
            invariant
                all == pair_views(patches.entries@),
                i <= patches.entries@.len(),
                text::views(args@) == start + patch_args(all.take(i as int), prebuilt),
            decreases patches.entries.len() - i,
        {
            let ghost before = text::views(args@);
            let e = &patches.entries[i];
            proof {
                assert(all.take(i as int + 1).drop_last() =~= all.take(i as int));
                assert(all.take(i as int + 1).last() == (e.0@, e.1@));
            }
            let skip: bool = prebuilt && same(e.0.as_str(), "tau-rt");
            if !skip {
                let mut a = cat3("patch.crates-io.", e.0.as_str(), ".path=\"");
                a.append(e.1.as_str());
                a.append("\"");
                args.push("--config".to_owned());
                args.push(a);
                assert(text::views(args@) =~= before + patch_arg((e.0@, e.1@)));
                assert(before + patch_arg((e.0@, e.1@)) =~= start + (patch_args(all.take(i as int), prebuilt) + patch_arg(
                    (e.0@, e.1@),
                )));
            }
            i = i + 1;
        }
        assert(all.take(i as int) =~= all);
        args
    }

    /// The hash of the environment of a build, in hexadecimal: of how the host was built, of the bytes
    /// of the runtime library if there is one, and of the list of patches.
    pub fn env_hash(host: &HostBuild, runtime: Option<&Vec<u8>>) -> (r: String)
        ensures
            r@ == env_name(*host, bytes_of(runtime)),
    {
        let mut hasher = DefaultHasher::new();
        write_text(&mut hasher, host.version.as_str());
        write_text(&mut hasher, host.rustflags.as_str());
        write_text(&mut hasher, host.panic.as_str());
        write_text(&mut hasher, host.target_features.as_str());
        match runtime {
            Some(bytes) => {
                write_bytes(&mut hasher, bytes);
            },
            None => {},
        }
        write_text(&mut hasher, PATCHES_LIST);
        assert(hasher@ =~= env_writes(*host, bytes_of(runtime)));
        hexadecimal(hasher.finish())
    }

    /// The hash of the environment, which is the name of its cache directory. It is computed once, and
    /// kept in `cached`.
    pub fn get_or_compute_env_hash(cached: &mut Option<String>, host: &HostBuild, runtime: Option<&Vec<u8>>) -> (r: String)
        ensures
            match *old(cached) {
                Some(known) => r@ == known@ && *final(cached) == *old(cached),
                None => r@ == env_name(*host, bytes_of(runtime)) && (*final(cached) matches Some(known) && known@ == r@),
            },
    {
        match cached {
            Some(known) => known.clone(),
            None => {
                let hash = Compiler::env_hash(host, runtime);
                *cached = Some(hash.clone());
                hash
            },
        }
    }

    /// The hash of where a plugin's source is, in hexadecimal.
    pub fn source_hash(source: &str) -> (r: String)
        ensures
            r@ == source_name(source@),
    {
        let mut hasher = DefaultHasher::new();
        write_text(&mut hasher, source);
        assert(hasher@ =~= text_writes(source@));
        hexadecimal(hasher.finish())
    }

    /// Where a plugin is built: below the cache directory of its environment and its source.
    pub fn build_paths(
        home: Option<&str>,
        env_hash: &str,
        crate_name: &str,
        src_hash: &str,
        release: bool,
    ) -> (r: BuildPaths)
        ensures
            ({
                let cache = cache_path(
                    match home {
                        Some(h) => Some(h@),
                        None => None,
                    },
                    env_hash@,
                    crate_name@,
                    src_hash@,
                );
                let base = "lib"@ + words::replaced(crate_name@, '-', '_');
                let build = path_below(path_below(cache, "target"@), profile_name(release));
                &&& r.cache_dir@ == cache
                &&& r.target_dir@ == path_below(cache, "target"@)
                &&& r.build_dir@ == build
                &&& r.plugins_dir@ == path_below(cache, "plugins"@)
                &&& r.dylib_name@ == base + ".dylib"@
                &&& r.built@ == path_below(build, base + ".dylib"@)
                &&& r.artifact@ == path_below(path_below(cache, "plugins"@), base + ".dylib"@)
                &&& r.dep_file@ == path_below(build, base + ".d"@)
            }),
    {
        let root = match home {
            Some(h) => h.to_owned(),
            None => ".".to_owned(),
        };
        let a = join_path(root.as_str(), ".tau");
        let b = join_path(a.as_str(), "buildcache");
        let c = join_path(b.as_str(), env_hash);
        let hash = chars_of(src_hash);
        let short = if hash.len() > 8 {
            substring(&hash, 0, 8)
        } else {
            src_hash.to_owned()
        };
        assert(src_hash@.len() > 8 ==> short@ =~= src_hash@.take(8));
        let name = cat3(crate_name, ".", short.as_str());
        let cache_dir = join_path(c.as_str(), name.as_str());
        let target_dir = join_path(cache_dir.as_str(), "target");
        let profile = if release {
            "release"
        } else {
            "debug"
        };
        let build_dir = join_path(target_dir.as_str(), profile);
        let plugins_dir = join_path(cache_dir.as_str(), "plugins");
        let base = cat("lib", replace_char(crate_name, '-', '_').as_str());
        let dylib_name = cat(base.as_str(), ".dylib");
        let dep_name = cat(base.as_str(), ".d");
        let built = join_path(build_dir.as_str(), dylib_name.as_str());
        let artifact = join_path(plugins_dir.as_str(), dylib_name.as_str());
        let dep_file = join_path(build_dir.as_str(), dep_name.as_str());
        BuildPaths { cache_dir, target_dir, build_dir, plugins_dir, dylib_name, built, artifact, dep_file }
    }

    /// Is an earlier build still good? So it is if its artifact and its dep file are there, and
    /// neither the manifest nor any dependency is newer or gone.
    pub fn check_up_to_date(facts: &BuildFacts) -> (r: bool)
        ensures
            r == ({
                &&& facts.artifact is Some
                &&& facts.dep_file
                &&& facts.manifest matches Some(t) ==> t <= facts.artifact->0
                &&& facts.deps is Some
                &&& forall|i: int|
                    0 <= i < facts.deps->0@.len() ==> not_newer(#[trigger] facts.deps->0@[i], facts.artifact->0)
            }),
    {
        let built: u64 = match facts.artifact {
            Some(t) => t,
            None => {
                return false;
            },
        };
        if !facts.dep_file {
            return false;
        }
        if let Some(t) = facts.manifest {
            if t > built {
                return false;
            }
        }
        match &facts.deps {
            None => false,
            Some(deps) => {
                let mut i: usize = 0;
                while i < deps.len()
                    invariant
                        i <= deps@.len(),
                        facts.artifact == Some(built),
                        facts.deps == Some(*deps),
                        forall|k: int| 0 <= k < i ==> not_newer(#[trigger] deps@[k], built),
                    decreases deps.len() - i,
                {
                    let ok: bool = match &deps[i] {
                        DepStat::Missing => false,
                        DepStat::Unknown => true,
                        DepStat::Written(t) => *t <= built,
                    };
                    if !ok {
                        assert(!not_newer(facts.deps->0@[i as int], built));
                        return false;
                    }
                    i = i + 1;
                }
                true
            },
        }
    }
}

proof fn lemma_char_index(s: Seq<char>, c: char, from: int)
    requires
        0 <= from <= s.len(),
    ensures
        words::char_index(s, c, from) is Some <==> s.skip(from).contains(c),
        from == 0 ==> s.skip(from) == s,
    decreases s.len() - from,
{
    assert(from == 0 ==> s.skip(from) =~= s);
    if from < s.len() {
        lemma_char_index(s, c, from + 1);
        let a = s.skip(from);
        let b = s.skip(from + 1);
        assert(a[0] == s[from]);
        if b.contains(c) {
            let k = choose|k: int| 0 <= k < b.len() && b[k] == c;
            assert(a[k + 1] == c);
        }
        if a.contains(c) && s[from] != c {
            let k = choose|k: int| 0 <= k < a.len() && a[k] == c;
            assert(b[k - 1] == c);
        }
    }
}

/// A file of the standard library: `libstd-` ... `.dylib`.
pub open spec fn is_std_dylib(name: Seq<char>) -> bool {
    words::starts_with(name, "libstd-"@) && words::ends_with(name, ".dylib"@)
}

/// The setting for one patched crate.
pub open spec fn patch_arg(p: (Seq<char>, Seq<char>)) -> Seq<Seq<char>> {
    seq!["--config"@, "patch.crates-io."@ + p.0 + ".path=\""@ + p.1 + "\""@]
}

/// The settings for the patched crates.
pub open spec fn patch_args(entries: Seq<(Seq<char>, Seq<char>)>, prebuilt: bool) -> Seq<Seq<char>>
    decreases entries.len(),
{
    if entries.len() == 0 {
        Seq::empty()
    } else {
        let before = patch_args(entries.drop_last(), prebuilt);
        if prebuilt && entries.last().0 == "tau-rt"@ {
            before
        } else {
            before + patch_arg(entries.last())
        }
    }
}

/// Builds of different environments do not mix: when any part of the environment changes (how the host
/// was built, the runtime library), a plugin is built in another directory. This is so unless the hasher
/// gives both environments the same number.
pub proof fn a_new_environment_is_built_anew(
    home: Option<Seq<char>>,
    one: (HostBuild, Option<Seq<u8>>),
    other: (HostBuild, Option<Seq<u8>>),
    crate_name: Seq<char>,
    src_hash: Seq<char>,
)
    requires
        !same_environment(one, other),
        DefaultHasher::spec_finish(env_writes(one.0, one.1)) == DefaultHasher::spec_finish(env_writes(other.0, other.1))
            ==> env_writes(one.0, one.1) == env_writes(other.0, other.1),
        crate_name.len() > 0 ==> crate_name[0] != '/',
    ensures
        cache_path(home, env_name(one.0, one.1), crate_name, src_hash) != cache_path(
            home,
            env_name(other.0, other.1),
            crate_name,
            src_hash,
        ),
{
    environments_are_told_apart(one, other);
    lemma_other_hash(
        home,
        DefaultHasher::spec_finish(env_writes(one.0, one.1)),
        DefaultHasher::spec_finish(env_writes(other.0, other.1)),
        crate_name,
        src_hash,
    );
}

/// What is handed to the hasher tells environments apart.
pub proof fn environments_are_told_apart(one: (HostBuild, Option<Seq<u8>>), other: (HostBuild, Option<Seq<u8>>))
    requires
        !same_environment(one, other),
    ensures
        env_writes(one.0, one.1) != env_writes(other.0, other.1),
{
    let a = env_writes(one.0, one.1);
    let b = env_writes(other.0, other.1);
    if a == b {
        lemma_text_told(one.0.version@, other.0.version@);
        lemma_text_told(one.0.rustflags@, other.0.rustflags@);
        lemma_text_told(one.0.panic@, other.0.panic@);
        lemma_text_told(one.0.target_features@, other.0.target_features@);
        assert(a[0] == b[0]);
        assert(a[2] == b[2]);
        assert(a[4] == b[4]);
        assert(a[6] == b[6]);
        assert(a.len() == b.len());
        if one.1 is Some {
            assert(a[9] == b[9]);
        }
    }
}

proof fn lemma_text_told(a: Seq<char>, b: Seq<char>)
    ensures
        encode_utf8(a) == encode_utf8(b) ==> a == b,
{
    encode_utf8_decode_utf8(a);
    encode_utf8_decode_utf8(b);
}

proof fn lemma_other_hash(home: Option<Seq<char>>, one: u64, other: u64, crate_name: Seq<char>, src_hash: Seq<char>)
    requires
        one != other,
        crate_name.len() > 0 ==> crate_name[0] != '/',
    ensures
        cache_path(home, words::numeral(one as nat, 16), crate_name, src_hash) != cache_path(
            home,
            words::numeral(other as nat, 16),
            crate_name,
            src_hash,
        ),
{
    let h = match home {
        Some(h) => h,
        None => "."@,
    };
    let a = words::numeral(one as nat, 16);
    let b = words::numeral(other as nat, 16);
    words::lemma_hexadecimal_tells(one as nat, other as nat);
    words::lemma_hexadecimal_tells(other as nat, one as nat);
    assert(a.contains(a[0]) && a.contains(a.last()));
    assert(b.contains(b[0]) && b.contains(b.last()));
    reveal_strlit(".tau");
    reveal_strlit("buildcache");
    reveal_strlit(".");
    let base = path_below(path_below(h, ".tau"@), "buildcache"@);
    let name = cache_name(crate_name, src_hash);
    assert(base.last() == 'e');
    assert(name[0] != '/');
    let p = path_below(path_below(base, a), name);
    let q = path_below(path_below(base, b), name);
    assert(p == (base.push('/') + a).push('/') + name);
    assert(q == (base.push('/') + b).push('/') + name);
    if p == q {
        assert(a.len() == b.len());
        assert forall|k: int| 0 <= k < a.len() implies a[k] == b[k] by {
            assert(p[base.len() + 1 + k] == q[base.len() + 1 + k]);
        }
        assert(a =~= b);
    }
}

proof fn lemma_clean_sum(a: Seq<char>, b: Seq<char>, c: char)
    requires
        !a.contains(c),
        !b.contains(c),
    ensures
        !(a + b).contains(c),
{
    assert forall|k: int| 0 <= k < (a + b).len() implies (a + b)[k] != c by {
        if k < a.len() {
            assert(a.contains((a + b)[k]));
        } else {
            assert((a + b)[k] == b[k - a.len()]);
            assert(b.contains((a + b)[k]));
        }
    }
}

/// Plugins are built as the host was: with all of its flags, its way to panic and its target
/// features. The compiler sees these flags one by one, as long as no path, strategy or feature
/// holds the separator.
pub proof fn plugins_are_built_like_the_host(
    host: HostBuild,
    dist_lib_path: Seq<char>,
    tau_rt: Option<(Seq<char>, Seq<char>)>,
)
    requires
        !host.panic@.contains('\u{1f}'),
        !host.target_features@.contains('\u{1f}'),
        !dist_lib_path.contains('\u{1f}'),
        tau_rt matches Some((path, dir)) ==> !path.contains('\u{1f}') && !dir.contains('\u{1f}'),
    ensures
        ({
            let seen = text::split_on(text::join(all_flags(host, dist_lib_path, tau_rt), seq!['\u{1f}']), '\u{1f}');
            &&& seen == all_flags(host, dist_lib_path, tau_rt)
            &&& host.rustflags@.len() > 0 ==> text::split_on(host.rustflags@, '\u{1f}').is_prefix_of(seen)
            &&& seen.contains("panic="@ + host.panic@)
            &&& host.target_features@.len() > 0 ==> seen.contains("target-feature="@ + host.target_features@)
        }),
{
    let all = all_flags(host, dist_lib_path, tau_rt);
    let own = plugin_flags(host, dist_lib_path, tau_rt);
    let inherited = text::split_on(host.rustflags@, '\u{1f}');
    let sep = '\u{1f}';
    reveal_strlit("-C");
    reveal_strlit("prefer-dynamic");
    reveal_strlit("link-args=-Wl,-undefined,dynamic_lookup");
    reveal_strlit("-L");
    reveal_strlit("panic=");
    reveal_strlit("target-feature=");
    reveal_strlit("--extern=tau_rt=");
    assert(!"panic="@.contains(sep));
    assert(!"target-feature="@.contains(sep));
    assert(!"--extern=tau_rt="@.contains(sep));
    lemma_clean_sum("panic="@, host.panic@, sep);
    lemma_clean_sum("target-feature="@, host.target_features@, sep);
    if let Some((path, dir)) = tau_rt {
        lemma_clean_sum("--extern=tau_rt="@, path, sep);
    }
    assert forall|i: int| 0 <= i < own.len() implies !(#[trigger] own[i]).contains(sep) by {
    }
    text::lemma_split_pieces(host.rustflags@, sep);
    assert forall|i: int| 0 <= i < all.len() implies !(#[trigger] all[i]).contains(sep) by {
        if host.rustflags@.len() > 0 {
            if i < inherited.len() {
                assert(all[i] == inherited[i]);
            } else {
                assert(all[i] == own[i - inherited.len()]);
            }
        }
    }
    text::split_undoes_join(all, sep);
    let start: int = if host.rustflags@.len() > 0 {
        inherited.len() as int
    } else {
        0
    };
    assert(own[7] == "panic="@ + host.panic@);
    assert(all[start + 7] == own[7]);
    if host.target_features@.len() > 0 {
        assert(own[9] == "target-feature="@ + host.target_features@);
        assert(all[start + 9] == own[9]);
    }
}

} // verus!
