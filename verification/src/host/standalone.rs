//! Building plugins the plain way: every time anew, against prebuilt crates and vendored sources where
//! there are some, and with the result put beside the host.

use vstd::prelude::*;
use crate::host::compiler;
use crate::host::compiler::{join_path, Compiler, HostBuild};
use crate::host::course;
use crate::host::course::{has_version, FindNext, FindResult, FindStep, StepResult};
use crate::text;
use crate::text::{chars_of, join_strings, split_at_char, substring};
use crate::words;
use crate::words::{has_prefix, has_suffix, trim};

verus! {

// ---------------------------------------------------------------------------
// Prebuilt crates
// ---------------------------------------------------------------------------

/// Position of the last dash, if there is one.
pub open spec fn last_dash(s: Seq<char>) -> Option<int>
    decreases s.len(),
{
    if s.len() == 0 {
        None
    } else if s.last() == '-' {
        Some(s.len() - 1)
    } else {
        last_dash(s.drop_last())
    }
}

/// The crate that a library file is of: `lib<crate>-<hash>.rlib`.
pub open spec fn prebuilt_name(file: Seq<char>) -> Option<Seq<char>> {
    if words::ends_with(file, ".rlib"@) && file.len() > 5 && words::starts_with(file, "lib"@) {
        match last_dash(file.skip(3)) {
            Some(i) => Some(file.skip(3).take(i)),
            None => None,
        }
    } else {
        None
    }
}

/// The crate that a library file is of.
pub fn prebuilt_crate(file: &str) -> (r: Option<String>)
    ensures
        r is Some <==> prebuilt_name(file@) is Some,
        r matches Some(n) ==> prebuilt_name(file@) == Some(n@),
{
    let v = chars_of(file);
    if !has_suffix(file, ".rlib") || v.len() <= 5 || !has_prefix(file, "lib") {
        return None;
    }
    let ghost rest = file@.skip(3);
    let mut i: usize = v.len();
    assert(rest.take(v@.len() - 3) =~= rest);
    while i > 3
        invariant
            v@ == file@,
            rest == file@.skip(3),
            words::ends_with(file@, ".rlib"@) && file@.len() > 5 && words::starts_with(file@, "lib"@),
            3 <= i <= v@.len(),
            last_dash(rest) == last_dash(rest.take(i - 3)),
        decreases i,
    {
        proof {
            assert(rest.take(i - 3).last() == v@[i - 1]);
            assert(rest.take(i - 3).drop_last() =~= rest.take(i - 4));
        }
        if v[i - 1] == '-' {
            let name = substring(&v, 3, i - 1);
            assert(name@ =~= rest.take(i - 4));
            return Some(name);
        }
        i = i - 1;
    }
    None
}

/// The flags for the prebuilt crates among some files, each a name and a path.
pub open spec fn extern_flags_of(files: Seq<(Seq<char>, Seq<char>)>) -> Seq<Seq<char>>
    decreases files.len(),
{
    if files.len() == 0 {
        Seq::empty()
    } else {
        let before = extern_flags_of(files.drop_last());
        match prebuilt_name(files.last().0) {
            Some(n) => before.push("--extern="@ + n + "="@ + files.last().1),
            None => before,
        }
    }
}

/// The flags for the prebuilt crates among some files, each a name and a path.
pub fn extern_flags(files: &Vec<(String, String)>) -> (r: Vec<String>)
    ensures
        text::views(r@) == extern_flags_of(compiler::pair_views(files@)),
{
    let ghost all = compiler::pair_views(files@);
    let mut r: Vec<String> = Vec::new();
    let mut i: usize = 0;
    assert(all.take(0) =~= Seq::empty());
    assert(text::views(r@) =~= Seq::<Seq<char>>::empty());
    while i < files.len()
        invariant
            all == compiler::pair_views(files@),
            i <= files@.len(),
            text::views(r@) == extern_flags_of(all.take(i as int)),
        decreases files.len() - i,
    {
        proof {
            assert(all.take(i as int + 1).drop_last() =~= all.take(i as int));
            assert(all.take(i as int + 1).last() == all[i as int]);
            assert(all[i as int] == (files@[i as int].0@, files@[i as int].1@));
        }
        if let Some(name) = prebuilt_crate(files[i].0.as_str()) {
            let ghost before = text::views(r@);
            let mut flag = "--extern=".to_owned();
            flag.append(name.as_str());
            flag.append("=");
            flag.append(files[i].1.as_str());
            let ghost made = flag@;
            r.push(flag);
            assert(text::views(r@) =~= before.push(made));
        }
        i = i + 1;
    }
    assert(all.take(i as int) =~= all);
    r
}

/// The encoded compiler flags of a build, separated by the unit separator: those of the host, the
/// plugin's own, then those for prebuilt crates.
pub fn encoded_flags(host: &HostBuild, dist_lib_path: &str, prebuilt: &Vec<(String, String)>) -> (r: String)
    ensures
        r@ == text::join(
            compiler::all_flags(*host, dist_lib_path@, None) + extern_flags_of(compiler::pair_views(prebuilt@)),
            seq!['\u{1f}'],
        ),
{
    let mut flags: Vec<String> = Vec::new();
    if !host.rustflags.as_str().is_empty() {
        flags = split_at_char(host.rustflags.as_str(), '\u{1f}');
    } else {
        assert(text::views(flags@) =~= Seq::empty());
    }
    let ghost inherited = text::views(flags@);
    flags.push("-C".to_owned());
    flags.push("prefer-dynamic".to_owned());
    flags.push("-C".to_owned());
    flags.push("link-args=-Wl,-undefined,dynamic_lookup".to_owned());
    flags.push("-L".to_owned());
    flags.push(dist_lib_path.to_owned());
    flags.push("-C".to_owned());
    let mut panic = "panic=".to_owned();
    panic.append(host.panic.as_str());
    flags.push(panic);
    if !host.target_features.as_str().is_empty() {
        flags.push("-C".to_owned());
        let mut features = "target-feature=".to_owned();
        features.append(host.target_features.as_str());
        flags.push(features);
    }
    assert(text::views(flags@) =~= inherited + compiler::plugin_flags(*host, dist_lib_path@, None));
    assert(text::views(flags@) =~= compiler::all_flags(*host, dist_lib_path@, None));
    let ghost own = text::views(flags@);
    let mut more = extern_flags(prebuilt);
    let ghost found = text::views(more@);
    flags.append(&mut more);
    assert(text::views(flags@) =~= own + found);
    let mut sep = String::new();
    sep.push('\u{1f}');
    assert(sep@ =~= seq!['\u{1f}']);
    join_strings(&flags, sep.as_str())
}

// ---------------------------------------------------------------------------
// What the build tool is told
// ---------------------------------------------------------------------------

/// The arguments of the build tool: with a directory of vendored sources, they replace the registry.
pub fn build_args(release: bool, vendor_dir: Option<&str>) -> (r: Vec<String>)
    ensures
        text::views(r@) == (if release {
            seq!["build"@, "--release"@]
        } else {
            seq!["build"@]
        }) + match vendor_dir {
            Some(d) => seq![
                "--config"@,
                "source.crates-io.replace-with=\"vendored-sources\""@,
                "--config"@,
                "source.vendored-sources.directory=\""@ + d@ + "\""@,
            ],
            None => Seq::<Seq<char>>::empty(),
        },
{
    let mut r: Vec<String> = Vec::new();
    r.push("build".to_owned());
    if release {
        r.push("--release".to_owned());
    }
    let ghost first = text::views(r@);
    assert(first =~= if release {
        seq!["build"@, "--release"@]
    } else {
        seq!["build"@]
    });
    if let Some(d) = vendor_dir {
        r.push("--config".to_owned());
        r.push("source.crates-io.replace-with=\"vendored-sources\"".to_owned());
        r.push("--config".to_owned());
        let mut dir = "source.vendored-sources.directory=\"".to_owned();
        dir.append(d);
        dir.append("\"");
        r.push(dir);
        assert(text::views(r@) =~= first + seq![
            "--config"@,
            "source.crates-io.replace-with=\"vendored-sources\""@,
            "--config"@,
            "source.vendored-sources.directory=\""@ + d@ + "\""@,
        ]);
    } else {
        assert(text::views(r@) =~= first + Seq::<Seq<char>>::empty());
    }
    r
}

/// Where a plugin is built, by the hash of its source directory: `~/.tau/buildcache/<hash>`, below
/// `.` where there is no home.
pub fn target_dir(home: Option<&str>, source: &str) -> (r: String)
    ensures
        r@ == compiler::path_below(
            compiler::path_below(
                compiler::path_below(
                    match home {
                        Some(h) => h@,
                        None => "."@,
                    },
                    ".tau"@,
                ),
                "buildcache"@,
            ),
            compiler::source_name(source@),
        ),
{
    let root = match home {
        Some(h) => h.to_owned(),
        None => ".".to_owned(),
    };
    let a = join_path(root.as_str(), ".tau");
    let b = join_path(a.as_str(), "buildcache");
    join_path(b.as_str(), Compiler::source_hash(source).as_str())
}

// ---------------------------------------------------------------------------
// The course of a build
// ---------------------------------------------------------------------------

/// What has to be done next for a plugin build.
#[derive(Clone, Copy, PartialEq, Eq, Structural, Debug)]
pub enum BuildStep {
    /// Make the source path absolute.
    Canonicalize,
    /// Look for the manifest.
    CheckManifest,
    /// Make the cache directory.
    MakeCache,
    /// Run the build tool.
    Build,
    /// Read the package name.
    ReadName,
    /// Look for the artifact.
    CheckArtifact,
    /// Copy it beside the host.
    CopyArtifact,
}

/// What follows a step.
pub enum BuildNext {
    Do(BuildStep),
    Built,
    /// There is no plugin, for this reason.
    Fail(String),
}

/// The step after one that went well.
pub open spec fn next_step(step: BuildStep) -> Option<BuildStep> {
    match step {
        BuildStep::Canonicalize => Some(BuildStep::CheckManifest),
        BuildStep::CheckManifest => Some(BuildStep::MakeCache),
        BuildStep::MakeCache => Some(BuildStep::Build),
        BuildStep::Build => Some(BuildStep::ReadName),
        BuildStep::ReadName => Some(BuildStep::CheckArtifact),
        BuildStep::CheckArtifact => Some(BuildStep::CopyArtifact),
        BuildStep::CopyArtifact => None,
    }
}

/// Can this come of the step?
pub open spec fn can_come(step: BuildStep, result: StepResult) -> bool {
    match result {
        StepResult::Yes => true,
        StepResult::No => step == BuildStep::CheckManifest || step == BuildStep::ReadName || step == BuildStep::CheckArtifact,
        StepResult::Failed(_) => step == BuildStep::Canonicalize || step == BuildStep::MakeCache || step == BuildStep::Build || step
            == BuildStep::ReadName || step == BuildStep::CopyArtifact,
        StepResult::BuildFailed(_, _) => step == BuildStep::Build,
    }
}

/// What is said of a step that did not go well.
pub open spec fn failure_of(
    step: BuildStep,
    result: StepResult,
    source: Seq<char>,
    artifact: Seq<char>,
    place: Seq<char>,
) -> Seq<char> {
    match (step, result) {
        (BuildStep::Canonicalize, StepResult::Failed(e)) => "Invalid source path: "@ + e@,
        (BuildStep::CheckManifest, _) => "Not a Cargo project: "@ + source,
        (BuildStep::MakeCache, StepResult::Failed(e)) => "Failed to create cache dir: "@ + e@,
        (BuildStep::Build, StepResult::Failed(e)) => "Failed to run cargo: "@ + e@,
        (BuildStep::Build, StepResult::BuildFailed(out, err)) => "Compilation failed:\n"@ + out@ + "\n"@ + err@,
        (BuildStep::ReadName, StepResult::Failed(e)) => "Failed to read Cargo.toml: "@ + e@,
        (BuildStep::ReadName, _) => "Could not determine package name from Cargo.toml"@,
        (BuildStep::CopyArtifact, StepResult::Failed(e)) => e@,
        _ => "Expected artifact "@ + artifact + " not found in "@ + place,
    }
}

/// The course of a plugin build: what follows a step, by what came of it. `source` and `place` stand
/// for the source directory and the build directory, `artifact` for the file that is expected.
pub fn compile_plugin(step: BuildStep, result: StepResult, source: &str, artifact: &str, place: &str) -> (r: BuildNext)
    requires
        can_come(step, result),
    ensures
        match result {
            StepResult::Yes => r == match next_step(step) {
                Some(s) => BuildNext::Do(s),
                None => BuildNext::Built,
            },
            _ => r matches BuildNext::Fail(m) && m@ == failure_of(step, result, source@, artifact@, place@),
        },
{
    let mut m = String::new();
    match result {
        StepResult::Yes => {
            return match step {
                BuildStep::Canonicalize => BuildNext::Do(BuildStep::CheckManifest),
                BuildStep::CheckManifest => BuildNext::Do(BuildStep::MakeCache),
                BuildStep::MakeCache => BuildNext::Do(BuildStep::Build),
                BuildStep::Build => BuildNext::Do(BuildStep::ReadName),
                BuildStep::ReadName => BuildNext::Do(BuildStep::CheckArtifact),
                BuildStep::CheckArtifact => BuildNext::Do(BuildStep::CopyArtifact),
                BuildStep::CopyArtifact => BuildNext::Built,
            };
        },
        StepResult::No => match step {
            BuildStep::CheckManifest => {
                m.append("Not a Cargo project: ");
                m.append(source);
            },
            BuildStep::ReadName => {
                m.append("Could not determine package name from Cargo.toml");
            },
            _ => {
                m.append("Expected artifact ");
                m.append(artifact);
                m.append(" not found in ");
                m.append(place);
            },
        },
        StepResult::Failed(e) => {
            match step {
                BuildStep::Canonicalize => m.append("Invalid source path: "),
                BuildStep::MakeCache => m.append("Failed to create cache dir: "),
                BuildStep::Build => m.append("Failed to run cargo: "),
                BuildStep::ReadName => m.append("Failed to read Cargo.toml: "),
                _ => {},
            }
            m.append(e.as_str());
        },
        StepResult::BuildFailed(out, err) => {
            m.append("Compilation failed:\n");
            m.append(out.as_str());
            m.append("\n");
            m.append(err.as_str());
        },
    }
    assert(m@ =~= failure_of(step, result, source@, artifact@, place@));
    BuildNext::Fail(m)
}

/// How many steps a build can still take after this one.
pub open spec fn steps_to_come(step: BuildStep) -> nat {
    match step {
        BuildStep::Canonicalize => 6,
        BuildStep::CheckManifest => 5,
        BuildStep::MakeCache => 4,
        BuildStep::Build => 3,
        BuildStep::ReadName => 2,
        BuildStep::CheckArtifact => 1,
        BuildStep::CopyArtifact => 0,
    }
}

/// A build comes to an end: each step that follows another leaves fewer to come.
pub proof fn plain_builds_come_to_an_end(step: BuildStep)
    ensures
        next_step(step) matches Some(s) ==> steps_to_come(s) < steps_to_come(step),
{
}

// ---------------------------------------------------------------------------
// The search for a compiler
// ---------------------------------------------------------------------------

/// Does the compiler that reported `stdout` have the expected version? An error says why not.
pub fn check_compiler(success: bool, stdout: &str, expected: &str) -> (r: Result<(), String>)
    ensures
        r is Ok <==> success && words::trimmed(stdout@) == expected@,
        r matches Err(e) ==> e@ == if success {
            "Version mismatch"@
        } else {
            "Failed execution"@
        },
{
    if !success {
        return Err("Failed execution".to_owned());
    }
    if Compiler::check_compiler_version(success, stdout, expected) {
        Ok(())
    } else {
        Err("Version mismatch".to_owned())
    }
}

/// The toolchain of a compiler version; an error for a version of fewer than two words.
pub fn calculate_required_toolchain(version: &str) -> (r: Result<String, String>)
    ensures
        r is Ok <==> compiler::toolchain_of(version@) is Some,
        r matches Ok(t) ==> compiler::toolchain_of(version@) == Some(t@),
        r matches Err(e) ==> e@ == "Invalid version string: "@ + version@,
{
    match Compiler::parse_toolchain_from_version(version) {
        Ok(t) => Ok(t),
        Err(_) => {
            let mut m = "Invalid version string: ".to_owned();
            m.append(version);
            Err(m)
        },
    }
}

/// Can this come of a step of the search?
pub open spec fn search_possible(step: FindStep, result: FindResult) -> bool {
    match step {
        FindStep::TryPath | FindStep::Verify(_) => result is Output || result is No,
        FindStep::CheckInstalled | FindStep::Install => result is Yes || result is No || result is Failed,
        FindStep::Which => result is Output || result is No || result is Failed,
    }
}

/// The search for a compiler of exactly the host's version: the one on the search path if its version
/// is right, otherwise that of the toolchain, which is installed first if need be, if its version is
/// right. No compiler is found but one that was asked for its version and gave the host's.
pub fn find_compatible_compiler(version: &str, step: FindStep, result: FindResult) -> (r: FindNext)
    requires
        search_possible(step, result),
        step != FindStep::TryPath ==> compiler::toolchain_of(version@) is Some,
    ensures
        r matches FindNext::Found(p) ==> {
            &&& result matches FindResult::Output(out) && words::trimmed(out@) == version@
            &&& match step {
                FindStep::TryPath => p@ == "rustc"@,
                FindStep::Verify(path) => p == path,
                _ => false,
            }
        },
        ({
            let toolchain = compiler::toolchain_of(version@);
            match (step, result) {
                (FindStep::TryPath, _) => if course::right_version(result, version@) {
                    r matches FindNext::Found(p) && p@ == "rustc"@
                } else {
                    match toolchain {
                        Some(t) => r matches FindNext::Do(s, n) && s == FindStep::CheckInstalled && n@ == t,
                        None => r matches FindNext::Fail(e) && e@ == "Invalid version string: "@ + version@,
                    }
                },
                (FindStep::CheckInstalled, FindResult::No) => r matches FindNext::Do(s, n) && s == FindStep::Install && n@
                    == toolchain->0,
                (FindStep::CheckInstalled, FindResult::Failed(e)) => r matches FindNext::Fail(m) && m@ == e@,
                (FindStep::CheckInstalled, _) | (FindStep::Install, FindResult::Yes) => r matches FindNext::Do(s, n) && s
                    == FindStep::Which && n@ == toolchain->0,
                (FindStep::Install, FindResult::Failed(e)) => r matches FindNext::Fail(m) && m@
                    == "Failed to run rustup install: "@ + e@,
                (FindStep::Install, _) => r matches FindNext::Fail(m) && m@ == "Failed to install toolchain '"@ + toolchain->0
                    + "'"@,
                (FindStep::Which, FindResult::Output(out)) => {
                    &&& r matches FindNext::Do(FindStep::Verify(path), n)
                    &&& path@ == words::trimmed(out@)
                    &&& n@ == toolchain->0
                },
                (FindStep::Which, FindResult::Failed(e)) => r matches FindNext::Fail(m) && m@ == "Failed to resolve rustc path: "@
                    + e@,
                (FindStep::Which, _) => r matches FindNext::Fail(m) && m@ == "Could not find compatible rustc for "@ + version@,
                (FindStep::Verify(path), _) => if course::right_version(result, version@) {
                    r == FindNext::Found(path)
                } else {
                    r matches FindNext::Fail(m) && m@ == "Version mismatch"@
                },
            }
        }),
{
    let toolchain = calculate_required_toolchain(version);
    match step {
        FindStep::TryPath => if has_version(&result, version) {
            FindNext::Found("rustc".to_owned())
        } else {
            match toolchain {
                Ok(t) => FindNext::Do(FindStep::CheckInstalled, t),
                Err(e) => FindNext::Fail(e),
            }
        },
        FindStep::CheckInstalled => match toolchain {
            Ok(t) => match result {
                FindResult::No => FindNext::Do(FindStep::Install, t),
                FindResult::Failed(e) => FindNext::Fail(e),
                _ => FindNext::Do(FindStep::Which, t),
            },
            Err(e) => FindNext::Fail(e),
        },
        FindStep::Install => match toolchain {
            Ok(t) => match result {
                FindResult::Yes => FindNext::Do(FindStep::Which, t),
                FindResult::Failed(e) => {
                    let mut m = "Failed to run rustup install: ".to_owned();
                    m.append(e.as_str());
                    FindNext::Fail(m)
                },
                _ => {
                    let mut m = "Failed to install toolchain '".to_owned();
                    m.append(t.as_str());
                    m.append("'");
                    FindNext::Fail(m)
                },
            },
            Err(e) => FindNext::Fail(e),
        },
        FindStep::Which => match result {
            FindResult::Output(out) => match toolchain {
                Ok(t) => FindNext::Do(FindStep::Verify(trim(out.as_str())), t),
                Err(e) => FindNext::Fail(e),
            },
            FindResult::Failed(e) => {
                let mut m = "Failed to resolve rustc path: ".to_owned();
                m.append(e.as_str());
                FindNext::Fail(m)
            },
            _ => {
                let mut m = "Could not find compatible rustc for ".to_owned();
                m.append(version);
                FindNext::Fail(m)
            },
        },
        FindStep::Verify(path) => if has_version(&result, version) {
            FindNext::Found(path)
        } else {
            FindNext::Fail("Version mismatch".to_owned())
        },
    }
}

} // verus!
