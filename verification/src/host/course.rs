//! The course of a plugin build, and of the search for a compiler, step by step.

use vstd::prelude::*;
use crate::host::compiler;
use crate::host::compiler::{join_path, Compiler, ResolvedPatches};
use crate::words;
use crate::words::trim;

verus! {

/// What has to be done next for a plugin build.
#[derive(Clone, Copy, PartialEq, Eq, Structural)]
pub enum CompileStep {
    /// Make the source path absolute.
    Canonicalize,
    /// Look for the manifest.
    CheckManifest,
    /// Read the package name.
    ReadName,
    /// Make the cache directory.
    MakeCache,
    /// See whether an earlier build is still good.
    CheckFresh,
    /// Run the build tool.
    Build,
    /// Look for the artifact.
    CheckArtifact,
    /// Make the directory for finished plugins.
    MakePlugins,
    /// Copy the artifact there.
    CopyArtifact,
}

/// What came of a step.
pub enum StepResult {
    /// It was done, or the answer is yes.
    Yes,
    /// The answer is no.
    No,
    /// It could not be done, for this reason.
    Failed(String),
    /// The build tool ran and failed, with this output and these messages.
    BuildFailed(String, String),
}

/// Why there is no plugin.
pub enum CompileError {
    InvalidSource(String),
    NotACargoProject,
    UnreadableManifest(String),
    NoPackageName,
    CacheDir(String),
    CargoNotRun(String),
    CompilationFailed(String, String),
    ArtifactMissing,
    PluginsDir(String),
    CopyFailed(String),
}

/// What follows a step.
pub enum CompileNext {
    Do(CompileStep),
    /// The plugin of an earlier build is good.
    UpToDate,
    /// The plugin is built.
    Built,
    Fail(CompileError),
}

/// The step after one that went well.
pub open spec fn following(step: CompileStep) -> Option<CompileStep> {
    match step {
        CompileStep::Canonicalize => Some(CompileStep::CheckManifest),
        CompileStep::CheckManifest => Some(CompileStep::ReadName),
        CompileStep::ReadName => Some(CompileStep::MakeCache),
        CompileStep::MakeCache => Some(CompileStep::CheckFresh),
        CompileStep::CheckFresh => None,
        CompileStep::Build => Some(CompileStep::CheckArtifact),
        CompileStep::CheckArtifact => Some(CompileStep::MakePlugins),
        CompileStep::MakePlugins => Some(CompileStep::CopyArtifact),
        CompileStep::CopyArtifact => None,
    }
}

/// The error of a step that did not go well.
pub open spec fn error_of(step: CompileStep, result: StepResult) -> CompileError {
    match (step, result) {
        (CompileStep::Canonicalize, StepResult::Failed(e)) => CompileError::InvalidSource(e),
        (CompileStep::CheckManifest, _) => CompileError::NotACargoProject,
        (CompileStep::ReadName, StepResult::Failed(e)) => CompileError::UnreadableManifest(e),
        (CompileStep::ReadName, _) => CompileError::NoPackageName,
        (CompileStep::MakeCache, StepResult::Failed(e)) => CompileError::CacheDir(e),
        (CompileStep::Build, StepResult::Failed(e)) => CompileError::CargoNotRun(e),
        (CompileStep::Build, StepResult::BuildFailed(out, err)) => CompileError::CompilationFailed(out, err),
        (CompileStep::MakePlugins, StepResult::Failed(e)) => CompileError::PluginsDir(e),
        (CompileStep::CopyArtifact, StepResult::Failed(e)) => CompileError::CopyFailed(e),
        _ => CompileError::ArtifactMissing,
    }
}

/// Can this come of the step?
pub open spec fn possible(step: CompileStep, result: StepResult) -> bool {
    match result {
        StepResult::Yes => true,
        StepResult::No => step == CompileStep::CheckManifest || step == CompileStep::ReadName || step == CompileStep::CheckFresh
            || step == CompileStep::CheckArtifact,
        StepResult::Failed(_) => step == CompileStep::Canonicalize || step == CompileStep::ReadName || step == CompileStep::MakeCache
            || step == CompileStep::Build || step == CompileStep::MakePlugins || step == CompileStep::CopyArtifact,
        StepResult::BuildFailed(_, _) => step == CompileStep::Build,
    }
}

impl Compiler {
    /// The course of a plugin build: what follows a step, by what came of it.
    ///
    /// Starts with `Canonicalize`. An earlier build that is still good ends it early; any failure
    /// ends it with its error.
    pub fn compile_plugin(step: CompileStep, result: StepResult) -> (r: CompileNext)
        requires
            possible(step, result),
        ensures
            r == match result {
                StepResult::Yes => match following(step) {
                    Some(s) => CompileNext::Do(s),
                    None => if step == CompileStep::CheckFresh {
                        CompileNext::UpToDate
                    } else {
                        CompileNext::Built
                    },
                },
                _ => if step == CompileStep::CheckFresh {
                    CompileNext::Do(CompileStep::Build)
                } else {
                    CompileNext::Fail(error_of(step, result))
                },
            },
    {
        match result {
            StepResult::Yes => match step {
                CompileStep::Canonicalize => CompileNext::Do(CompileStep::CheckManifest),
                CompileStep::CheckManifest => CompileNext::Do(CompileStep::ReadName),
                CompileStep::ReadName => CompileNext::Do(CompileStep::MakeCache),
                CompileStep::MakeCache => CompileNext::Do(CompileStep::CheckFresh),
                CompileStep::CheckFresh => CompileNext::UpToDate,
                CompileStep::Build => CompileNext::Do(CompileStep::CheckArtifact),
                CompileStep::CheckArtifact => CompileNext::Do(CompileStep::MakePlugins),
                CompileStep::MakePlugins => CompileNext::Do(CompileStep::CopyArtifact),
                CompileStep::CopyArtifact => CompileNext::Built,
            },
            StepResult::No => match step {
                CompileStep::CheckManifest => CompileNext::Fail(CompileError::NotACargoProject),
                CompileStep::ReadName => CompileNext::Fail(CompileError::NoPackageName),
                CompileStep::CheckFresh => CompileNext::Do(CompileStep::Build),
                _ => CompileNext::Fail(CompileError::ArtifactMissing),
            },
            StepResult::Failed(e) => match step {
                CompileStep::Canonicalize => CompileNext::Fail(CompileError::InvalidSource(e)),
                CompileStep::ReadName => CompileNext::Fail(CompileError::UnreadableManifest(e)),
                CompileStep::MakeCache => CompileNext::Fail(CompileError::CacheDir(e)),
                CompileStep::Build => CompileNext::Fail(CompileError::CargoNotRun(e)),
                CompileStep::MakePlugins => CompileNext::Fail(CompileError::PluginsDir(e)),
                _ => CompileNext::Fail(CompileError::CopyFailed(e)),
            },
            StepResult::BuildFailed(out, err) => CompileNext::Fail(CompileError::CompilationFailed(out, err)),
        }
    }
}

impl CompileError {
    /// The message of an error. `source` and `place` stand for the source directory and the build
    /// directory, `artifact` for the file that was expected.
    pub fn message(&self, source: &str, artifact: &str, place: &str) -> (r: String)
        ensures
            r@ == message_of(*self, source@, artifact@, place@),
    {
        let mut m = String::new();
        match self {
            CompileError::InvalidSource(e) => {
                m.append("Invalid source path: ");
                m.append(e.as_str());
            },
            CompileError::NotACargoProject => {
                m.append("Not a Cargo project: ");
                m.append(source);
            },
            CompileError::UnreadableManifest(e) => {
                m.append("Failed to read Cargo.toml: ");
                m.append(e.as_str());
            },
            CompileError::NoPackageName => {
                m.append("Could not determine package name from ");
                m.append(source);
            },
            CompileError::CacheDir(e) => {
                m.append("Failed to create cache dir: ");
                m.append(e.as_str());
            },
            CompileError::CargoNotRun(e) => {
                m.append("Failed to run cargo: ");
                m.append(e.as_str());
            },
            CompileError::CompilationFailed(out, err) => {
                m.append("Compilation failed:\n");
                m.append(out.as_str());
                m.append("\n");
                m.append(err.as_str());
            },
            CompileError::ArtifactMissing => {
                m.append("Artifact ");
                m.append(artifact);
                m.append(" not found in ");
                m.append(place);
            },
            CompileError::PluginsDir(e) => {
                m.append("Failed to create plugins dir: ");
                m.append(e.as_str());
            },
            CompileError::CopyFailed(e) => {
                m.append("Failed to copy artifact: ");
                m.append(e.as_str());
            },
        }
        assert(m@ =~= message_of(*self, source@, artifact@, place@));
        m
    }
}

pub open spec fn message_of(e: CompileError, source: Seq<char>, artifact: Seq<char>, place: Seq<char>) -> Seq<char> {
    match e {
        CompileError::InvalidSource(e) => "Invalid source path: "@ + e@,
        CompileError::NotACargoProject => "Not a Cargo project: "@ + source,
        CompileError::UnreadableManifest(e) => "Failed to read Cargo.toml: "@ + e@,
        CompileError::NoPackageName => "Could not determine package name from "@ + source,
        CompileError::CacheDir(e) => "Failed to create cache dir: "@ + e@,
        CompileError::CargoNotRun(e) => "Failed to run cargo: "@ + e@,
        CompileError::CompilationFailed(out, err) => "Compilation failed:\n"@ + out@ + "\n"@ + err@,
        CompileError::ArtifactMissing => "Artifact "@ + artifact + " not found in "@ + place,
        CompileError::PluginsDir(e) => "Failed to create plugins dir: "@ + e@,
        CompileError::CopyFailed(e) => "Failed to copy artifact: "@ + e@,
    }
}

/// How many steps a build can still take after this one.
pub open spec fn steps_left(step: CompileStep) -> nat {
    match step {
        CompileStep::Canonicalize => 8,
        CompileStep::CheckManifest => 7,
        CompileStep::ReadName => 6,
        CompileStep::MakeCache => 5,
        CompileStep::CheckFresh => 4,
        CompileStep::Build => 3,
        CompileStep::CheckArtifact => 2,
        CompileStep::MakePlugins => 1,
        CompileStep::CopyArtifact => 0,
    }
}

/// A build comes to an end: each step that follows another leaves fewer to come.
pub proof fn builds_come_to_an_end(step: CompileStep)
    ensures
        following(step) matches Some(s) ==> steps_left(s) < steps_left(step),
        step == CompileStep::CheckFresh ==> steps_left(CompileStep::Build) < steps_left(step),
{
}

/// What has to be done next in the search for a compiler.
#[derive(PartialEq, Eq)]
pub enum FindStep {
    /// Ask the compiler on the search path for its version.
    TryPath,
    /// See whether the toolchain is installed.
    CheckInstalled,
    /// Install it.
    Install,
    /// Ask where its compiler is.
    Which,
    /// Ask the compiler at this path for its version.
    Verify(String),
}

/// What came of it.
pub enum FindResult {
    Yes,
    No,
    /// It could not be run at all.
    Failed(String),
    /// It succeeded, and printed this.
    Output(String),
}

/// What follows.
pub enum FindNext {
    /// Do this, with the toolchain of this name.
    Do(FindStep, String),
    Found(String),
    Fail(String),
}

pub open spec fn find_possible(step: FindStep, result: FindResult) -> bool {
    match step {
        FindStep::TryPath | FindStep::Verify(_) => result is Output || result is No,
        FindStep::CheckInstalled => result is Yes || result is No,
        FindStep::Install => result is Yes || result is No || result is Failed,
        FindStep::Which => result is Output || result is No || result is Failed,
    }
}

/// Did a compiler that was asked for its version give this one?
pub open spec fn right_version(result: FindResult, version: Seq<char>) -> bool {
    result matches FindResult::Output(out) && words::trimmed(out@) == version
}

/// Did a compiler that was asked for its version give this one?
pub fn has_version(result: &FindResult, version: &str) -> (r: bool)
    ensures
        r == right_version(*result, version@),
{
    match result {
        FindResult::Output(out) => Compiler::check_compiler_version(true, out.as_str(), version),
        _ => false,
    }
}

impl Compiler {
    /// The search for a compiler of exactly the host's version.
    ///
    /// The one on the search path is taken if its version is right. Otherwise the toolchain of
    /// that version is used, and installed first if need be; its compiler is taken if its version
    /// is right. No compiler is found but one that was asked for its version and gave the host's.
    pub fn find_compatible_compiler(version: &str, step: FindStep, result: FindResult) -> (r: FindNext)
        requires
            find_possible(step, result),
            step != FindStep::TryPath ==> compiler::toolchain_of(version@) is Some,
        ensures
            r matches FindNext::Found(p) ==> {
                &&& result matches FindResult::Output(out) && words::trimmed(out@) == version@
                &&& match step {
                    FindStep::TryPath => p@ == "rustc"@,
                    FindStep::Verify(path) => p == path,
                    _ => false,
                }
            },
            ({
                let toolchain = compiler::toolchain_of(version@);
                match (step, result) {
                    (FindStep::TryPath, _) => if right_version(result, version@) {
                        r matches FindNext::Found(p) && p@ == "rustc"@
                    } else {
                        match toolchain {
                            Some(t) => r matches FindNext::Do(s, n) && s == FindStep::CheckInstalled && n@ == t,
                            None => r matches FindNext::Fail(e) && e@ == "Invalid version: "@ + version@,
                        }
                    },
                    (FindStep::CheckInstalled, FindResult::No) => r matches FindNext::Do(s, n) && s == FindStep::Install
                        && n@ == toolchain->0,
                    (FindStep::CheckInstalled, _) | (FindStep::Install, FindResult::Yes) => r matches FindNext::Do(s, n) && s
                        == FindStep::Which && n@ == toolchain->0,
                    (FindStep::Install, FindResult::Failed(e)) => r matches FindNext::Fail(m) && m@ == "Failed to run rustup: "@ + e@,
                    (FindStep::Install, _) => r matches FindNext::Fail(m) && m@ == "Failed to install toolchain '"@ + toolchain->0
                        + "'"@,
                    (FindStep::Which, FindResult::Output(out)) => {
                        &&& r matches FindNext::Do(FindStep::Verify(path), n)
                        &&& path@ == words::trimmed(out@)
                        &&& n@ == toolchain->0
                    },
                    (FindStep::Which, FindResult::Failed(e)) => r matches FindNext::Fail(m) && m@ == "Failed to resolve rustc: "@
                        + e@,
                    (FindStep::Which, _) => r matches FindNext::Fail(m) && m@ == "Could not find rustc for "@ + version@,
                    (FindStep::Verify(path), _) => if right_version(result, version@) {
                        r == FindNext::Found(path)
                    } else {
                        r matches FindNext::Fail(m) && m@ == "Version mismatch"@
                    },
                }
            }),
    {
        let toolchain = Compiler::parse_toolchain_from_version(version);
        match step {
            FindStep::TryPath => if has_version(&result, version) {
                FindNext::Found("rustc".to_owned())
            } else {
                match toolchain {
                    Ok(t) => FindNext::Do(FindStep::CheckInstalled, t),
                    Err(e) => FindNext::Fail(e),
                }
            },
            FindStep::CheckInstalled => match toolchain {
                Ok(t) => match result {
                    FindResult::No => FindNext::Do(FindStep::Install, t),
                    _ => FindNext::Do(FindStep::Which, t),
                },
                Err(e) => FindNext::Fail(e),
            },
            FindStep::Install => match toolchain {
                Ok(t) => match result {
                    FindResult::Yes => FindNext::Do(FindStep::Which, t),
                    FindResult::Failed(e) => {
                        let mut m = "Failed to run rustup: ".to_owned();
                        m.append(e.as_str());
                        FindNext::Fail(m)
                    },
                    _ => {
                        let mut m = "Failed to install toolchain '".to_owned();
                        m.append(t.as_str());
                        m.append("'");
                        FindNext::Fail(m)
                    },
                },
                Err(e) => FindNext::Fail(e),
            },
            FindStep::Which => match result {
                FindResult::Output(out) => match toolchain {
                    Ok(t) => FindNext::Do(FindStep::Verify(trim(out.as_str())), t),
                    Err(e) => FindNext::Fail(e),
                },
                FindResult::Failed(e) => {
                    let mut m = "Failed to resolve rustc: ".to_owned();
                    m.append(e.as_str());
                    FindNext::Fail(m)
                },
                _ => {
                    let mut m = "Could not find rustc for ".to_owned();
                    m.append(version);
                    FindNext::Fail(m)
                },
            },
            FindStep::Verify(path) => if has_version(&result, version) {
                FindNext::Found(path)
            } else {
                FindNext::Fail("Version mismatch".to_owned())
            },
        }
    }
}

/// A message to a plugin.
pub struct Message {
    pub id: u64,
    pub payload: String,
}

/// The host: its compiler, if it has one, the patched crates, and where its libraries are.
pub struct Host {
    pub compiler: Option<Compiler>,
    pub patches: ResolvedPatches,
    pub dist_lib_path: String,
}

impl Host {
    /// A host. Its libraries are looked for beside the program (`beside`), then in the `lib`
    /// directory next to the program's directory (`in_lib`), and beside the program if they are
    /// nowhere.
    pub fn new(
        patches: ResolvedPatches,
        compiler: Option<Compiler>,
        exe_dir: &str,
        exe_parent: &str,
        beside: bool,
        in_lib: bool,
    ) -> (r: Host)
        ensures
            r.patches == patches,
            r.compiler == compiler,
            r.dist_lib_path@ == if !beside && in_lib {
                compiler::path_below(exe_parent@, "lib"@)
            } else {
                exe_dir@
            },
    {
        let dist_lib_path = if beside {
            exe_dir.to_owned()
        } else if in_lib {
            join_path(exe_parent, "lib")
        } else {
            exe_dir.to_owned()
        };
        Host { compiler, patches, dist_lib_path }
    }

    /// The compiler for a plugin build, and its first step; an error if there is no compiler.
    pub fn compile_plugin(&self) -> (r: Result<(&Compiler, CompileStep), String>)
        ensures
            self.compiler matches Some(c) ==> r == Ok::<(&Compiler, CompileStep), String>(
                (&c, CompileStep::Canonicalize),
            ),
            self.compiler is None ==> (r matches Err(e) && e@ == "Compiler not available"@),
    {
        match &self.compiler {
            Some(c) => Ok((c, CompileStep::Canonicalize)),
            None => Err("Compiler not available".to_owned()),
        }
    }

    /// The directory of the standard library, if there is a compiler.
    pub fn std_lib_path(&self) -> (r: Option<&str>)
        ensures
            self.compiler matches Some(c) ==> (r matches Some(p) && p@ == c.std_dir@),
            self.compiler is None ==> r is None,
    {
        match &self.compiler {
            Some(c) => Some(c.std_dir.as_str()),
            None => None,
        }
    }
}

} // verus!
