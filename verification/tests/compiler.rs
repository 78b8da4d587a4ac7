//! Building plugins: versions, flags, dep files, paths and the course of a build.

use tau::host::compiler::{
    join_path, parse_patch_list, parse_patches, BuildFacts, Compiler, DepStat, HostBuild, ResolvedPatches,
};
use tau::host::standalone;
use tau::text::{join_strings, split_at_char};
use tau::words::{decimal, hexadecimal, parse_number};
use tau::host::standalone::{BuildNext, BuildStep};
use tau::host::course::{
    CompileError, CompileNext, CompileStep, FindNext, FindResult, FindStep, Host, Message, StepResult,
};

fn host_build() -> HostBuild {
    HostBuild {
        version: "rustc 1.80.0 (051478957 2024-07-21)".to_string(),
        rustflags: "".to_string(),
        target: "aarch64-apple-darwin".to_string(),
        panic: "unwind".to_string(),
        target_features: "".to_string(),
    }
}

fn some_compiler() -> Compiler {
    let found = ("/sys/lib/libstd-1.dylib".to_string(), "/sys/lib".to_string());
    match Compiler::resolve(&host_build(), Ok("rustc".to_string()), Ok(" /sys \n".to_string()), Ok(found), "cargo".to_string()) {
        Ok(c) => c,
        Err(e) => panic!("{}", e),
    }
}

#[test]
fn compiler_test_detect_compiler() {
    let compiler = some_compiler();
    println!("rustc: {:?}", compiler.rustc);
    println!("sysroot: {:?}", compiler.sysroot);
    println!("target: {}", compiler.target);
    println!("std dylib: {:?}", compiler.std_dylib);
    assert_eq!(compiler.rustc, "rustc");
    assert_eq!(compiler.sysroot, "/sys");
    assert_eq!(compiler.std_dylib, "/sys/lib/libstd-1.dylib");
    assert_eq!(compiler.target, "aarch64-apple-darwin");
    assert_eq!(compiler.version_string, "rustc 1.80.0 (051478957 2024-07-21)");
}

#[test]
fn test_detect_compiler() {
    let compiler = some_compiler();
    println!("rustc: {:?}", compiler.rustc);
    println!("sysroot: {:?}", compiler.sysroot);
    println!("target: {}", compiler.target);
    println!("std dylib: {:?}", compiler.std_dylib);
    assert_eq!(compiler.cargo, "cargo");
    assert_eq!(compiler.rustc, "rustc");
    assert_eq!(compiler.sysroot, "/sys");
    assert_eq!(compiler.std_dylib, "/sys/lib/libstd-1.dylib");
    assert_eq!(compiler.target, "aarch64-apple-darwin");
    assert_eq!(compiler.version_string, "rustc 1.80.0 (051478957 2024-07-21)");
}

#[test]
fn the_first_thing_that_is_missing_is_reported() {
    let host = host_build();
    let found = || Ok(("/l/libstd-1.dylib".to_string(), "/l".to_string()));
    let failed = |s: &str| Err(s.to_string());
    let r = Compiler::resolve(&host, failed("no rustc"), failed("no sysroot"), failed("no std").map(|s: String| (s, "".to_string())), "cargo".to_string());
    assert_eq!(r.err().unwrap(), "no rustc");
    let r = Compiler::resolve(&host, Ok("rustc".to_string()), failed("no sysroot"), found(), "cargo".to_string());
    assert_eq!(r.err().unwrap(), "no sysroot");
    let r = Compiler::resolve(&host, Ok("rustc".to_string()), Ok("/s".to_string()), Err("no std".to_string()), "cargo".to_string());
    assert_eq!(r.err().unwrap(), "no std");
}

#[test]
fn test_parse_dep_file_simple() {
    let contents = "/path/to/output.dylib: /path/to/src/lib.rs /path/to/src/main.rs";
    let deps = Compiler::parse_dep_file(contents).unwrap();
    assert_eq!(deps, vec!["/path/to/src/lib.rs", "/path/to/src/main.rs"]);
}

#[test]
fn test_parse_dep_file_continuation() {
    let contents = "/path/to/output.dylib: /path/to/src/lib.rs \\\n/path/to/src/main.rs";
    let deps = Compiler::parse_dep_file(contents).unwrap();
    assert_eq!(deps, vec!["/path/to/src/lib.rs", "/path/to/src/main.rs"]);
}

#[test]
fn test_parse_dep_file_escaped_spaces() {
    let contents = "/path/output.dylib: /path/my\\ file.rs /path/other.rs";
    let deps = Compiler::parse_dep_file(contents).unwrap();
    assert_eq!(deps, vec!["/path/my file.rs", "/path/other.rs"]);
}

#[test]
fn test_parse_dep_file_empty() {
    let contents = "/path/output.dylib: ";
    let deps = Compiler::parse_dep_file(contents).unwrap();
    assert!(deps.is_empty());
}

#[test]
fn test_parse_dep_file_no_colon() {
    let contents = "no colon here";
    assert!(Compiler::parse_dep_file(contents).is_none());
}

#[test]
fn test_parse_patches() {
    let patches = parse_patches();
    assert!(patches.len() >= 2, "Expected at least 2 patches, got {}", patches.len());

    let names: Vec<&str> = patches.iter().map(|e| e.name.as_str()).collect();
    assert!(names.contains(&"tau"), "Missing tau patch");
    assert!(names.contains(&"tokio"), "Missing tokio patch");

    for e in &patches {
        println!("  {} → {}", e.name, e.rel_path);
    }
}

#[test]
fn a_list_of_patches_may_hold_comments_and_blank_lines() {
    let list = parse_patch_list("# comment\n\n  tau = crates/tau  \nnothing\ntokio=crates/tau-tokio\n");
    let pairs: Vec<(&str, &str)> = list.iter().map(|e| (e.name.as_str(), e.rel_path.as_str())).collect();
    assert_eq!(pairs, vec![("tau", "crates/tau"), ("tokio", "crates/tau-tokio")]);
}

#[test]
fn patches_stand_below_a_root() {
    let p = ResolvedPatches::resolve("/ws");
    assert_eq!(p.get("tau"), Some("/ws/crates/tau"));
    assert_eq!(p.get("tokio"), Some("/ws/crates/tau-tokio"));
    assert_eq!(p.get("serde"), None);
    let p = ResolvedPatches::resolve_installed("/dist/src");
    assert_eq!(p.get("tokio"), Some("/dist/src/tokio"));
}

#[test]
fn paths_are_joined() {
    assert_eq!(join_path("/a", "b"), "/a/b");
    assert_eq!(join_path("/a/", "b"), "/a/b");
    assert_eq!(join_path("/a", "/b"), "/b");
    assert_eq!(join_path("", "b"), "b");
}

#[test]
fn versions_name_a_toolchain() {
    let stable = Compiler::parse_toolchain_from_version("rustc 1.80.0 (051478957 2024-07-21)");
    assert_eq!(stable, Ok("1.80.0".to_string()));
    let nightly = Compiler::parse_toolchain_from_version("rustc 1.82.0-nightly (abcdef012 2024-08-01)");
    assert_eq!(nightly, Ok("nightly-2024-08-01".to_string()));
    let odd = Compiler::parse_toolchain_from_version("rustc");
    assert_eq!(odd, Err("Invalid version: rustc".to_string()));
}

#[test]
fn manifests_name_a_package() {
    assert_eq!(Compiler::parse_crate_name("[package]\nname = \"my-plugin\"\n"), Some("my-plugin".to_string()));
    assert_eq!(Compiler::parse_crate_name("name='x'"), Some("x".to_string()));
    assert_eq!(Compiler::parse_crate_name("[package]\nversion = \"1\"\n"), None);
}

#[test]
fn compilers_of_the_same_version_are_compatible() {
    assert!(Compiler::check_compiler_version(true, "rustc 1.80.0\n", "rustc 1.80.0"));
    assert!(!Compiler::check_compiler_version(false, "rustc 1.80.0\n", "rustc 1.80.0"));
    assert!(!Compiler::check_compiler_version(true, "rustc 1.81.0\n", "rustc 1.80.0"));
}

#[test]
fn the_standard_library_is_found_by_its_name() {
    let dir = Compiler::std_search_dir("/sys", "x86");
    assert_eq!(dir, "/sys/lib/rustlib/x86/lib");
    let names = vec!["libcore.rlib".to_string(), "libstd-12ab.dylib".to_string(), "libstd-34cd.dylib".to_string()];
    assert_eq!(Compiler::find_std_dylib(&names), Some(1));
    assert_eq!(Compiler::find_std_dylib(&vec!["libstd-12ab.so".to_string()]), None);
}

#[test]
fn the_build_tool_is_the_one_beside_the_compiler() {
    assert_eq!(Compiler::find_cargo(true, Some("/t/bin/cargo".to_string())), "/t/bin/cargo");
    assert_eq!(Compiler::find_cargo(true, None), "cargo");
    assert_eq!(Compiler::find_cargo(false, Some("/t/bin/cargo".to_string())), "cargo");
}

#[test]
fn flags_of_the_host_come_first() {
    let mut host = host_build();
    let plain = Compiler::build_rustflags(&host, "/dist/lib", None);
    host.rustflags = "-C\u{1f}opt-level=3".to_string();
    let more = Compiler::build_rustflags(&host, "/dist/lib", None);
    assert_eq!(more, format!("-C\u{1f}opt-level=3\u{1f}{}", plain));
    let with_rt = Compiler::build_rustflags(&host_build(), "/dist/lib", Some(("/dist/lib/libtau_rt.dylib", "/dist/lib")));
    assert!(with_rt.contains("tau_rt=/dist/lib/libtau_rt.dylib"));
    assert!(!plain.contains("tau_rt"));
}

#[test]
fn search_paths_grow_at_the_front() {
    assert_eq!(Compiler::build_dyld_path("/a", "/b"), "/a:/b");
    assert_eq!(Compiler::append_path("/a", Some("/c")), "/a:/c");
    assert_eq!(Compiler::append_path("/a", None), "/a");
    let (lib, pkg, inc) = Compiler::system_paths("/dist/lib", "/dist");
    assert_eq!((lib.as_str(), pkg.as_str(), inc.as_str()), ("/dist/lib", "/dist/lib/pkgconfig", "/dist/include"));
}

#[test]
fn the_build_is_told_of_every_patch() {
    let patches = ResolvedPatches {
        entries: vec![("tau".to_string(), "/ws/tau".to_string()), ("tau-rt".to_string(), "/ws/tau-rt".to_string())],
    };
    let all = Compiler::build_args(&patches, false, true);
    assert_eq!(all[0], "build");
    assert_eq!(all[1], "--release");
    assert!(all.iter().any(|a| a.contains("tau-rt")));
    let prebuilt = Compiler::build_args(&patches, true, false);
    assert_eq!(prebuilt[0], "build");
    assert!(!prebuilt.iter().any(|a| a.contains("tau-rt") || a == "--release"));
    assert!(prebuilt.iter().any(|a| a.contains("/ws/tau")));
}

#[test]
fn builds_have_a_place_of_their_own() {
    let p = Compiler::build_paths(Some("/home/u"), "e1", "my-plugin", "s1", true);
    assert!(p.cache_dir.starts_with("/home/u/.tau/buildcache/e1/"));
    assert_eq!(p.dylib_name, "libmy_plugin.dylib");
    assert_eq!(p.built, format!("{}/target/release/libmy_plugin.dylib", p.cache_dir));
    assert_eq!(p.artifact, format!("{}/plugins/libmy_plugin.dylib", p.cache_dir));
    assert_eq!(p.dep_file, format!("{}/target/release/libmy_plugin.d", p.cache_dir));
    let q = Compiler::build_paths(None, "e1", "my-plugin", "s2", false);
    assert!(q.cache_dir.starts_with("./.tau/buildcache/e1/"));
    assert!(q.build_dir.ends_with("/target/debug"));
}

fn facts() -> BuildFacts {
    BuildFacts { artifact: Some(10), dep_file: true, manifest: Some(5), deps: Some(vec![DepStat::Written(10), DepStat::Unknown]) }
}

#[test]
fn a_build_is_good_unless_something_is_newer_or_gone() {
    assert!(Compiler::check_up_to_date(&facts()));
    assert!(!Compiler::check_up_to_date(&BuildFacts { artifact: None, ..facts() }));
    assert!(!Compiler::check_up_to_date(&BuildFacts { dep_file: false, ..facts() }));
    assert!(!Compiler::check_up_to_date(&BuildFacts { manifest: Some(11), ..facts() }));
    assert!(Compiler::check_up_to_date(&BuildFacts { manifest: None, ..facts() }));
    assert!(!Compiler::check_up_to_date(&BuildFacts { deps: None, ..facts() }));
    assert!(!Compiler::check_up_to_date(&BuildFacts { deps: Some(vec![DepStat::Missing]), ..facts() }));
    assert!(!Compiler::check_up_to_date(&BuildFacts { deps: Some(vec![DepStat::Written(11)]), ..facts() }));
}

#[test]
fn a_build_goes_through_its_steps() {
    let mut step = CompileStep::Canonicalize;
    let mut seen = 0;
    loop {
        seen += 1;
        let result = if step == CompileStep::CheckFresh { StepResult::No } else { StepResult::Yes };
        match Compiler::compile_plugin(step, result) {
            CompileNext::Do(next) => step = next,
            CompileNext::Built => break,
            _ => panic!("a build that works comes to its end"),
        }
    }
    assert_eq!(seen, 9);
    assert!(matches!(Compiler::compile_plugin(CompileStep::CheckFresh, StepResult::Yes), CompileNext::UpToDate));
}

fn failure(step: CompileStep, result: StepResult) -> String {
    match Compiler::compile_plugin(step, result) {
        CompileNext::Fail(e) => e.message("/src", "libx.dylib", "/build"),
        _ => panic!("the step does not fail"),
    }
}

#[test]
fn a_build_that_fails_says_why() {
    let e = || StepResult::Failed("why".to_string());
    assert_eq!(failure(CompileStep::Canonicalize, e()), "Invalid source path: why");
    assert_eq!(failure(CompileStep::CheckManifest, StepResult::No), "Not a Cargo project: /src");
    assert_eq!(failure(CompileStep::ReadName, e()), "Failed to read Cargo.toml: why");
    assert_eq!(failure(CompileStep::ReadName, StepResult::No), "Could not determine package name from /src");
    assert_eq!(failure(CompileStep::MakeCache, e()), "Failed to create cache dir: why");
    assert_eq!(failure(CompileStep::Build, e()), "Failed to run cargo: why");
    let out = StepResult::BuildFailed("o".to_string(), "e".to_string());
    assert_eq!(failure(CompileStep::Build, out), "Compilation failed:\no\ne");
    assert_eq!(failure(CompileStep::CheckArtifact, StepResult::No), "Artifact libx.dylib not found in /build");
    assert_eq!(failure(CompileStep::MakePlugins, e()), "Failed to create plugins dir: why");
    assert_eq!(failure(CompileStep::CopyArtifact, e()), "Failed to copy artifact: why");
    assert_eq!(CompileError::ArtifactMissing.message("s", "a", "p"), "Artifact a not found in p");
}

const VERSION: &str = "rustc 1.80.0 (051478957 2024-07-21)";

fn found(step: FindStep, result: FindResult) -> String {
    match Compiler::find_compatible_compiler(VERSION, step, result) {
        FindNext::Found(p) => format!("found {}", p),
        FindNext::Do(FindStep::CheckInstalled, t) => format!("check {}", t),
        FindNext::Do(FindStep::Install, t) => format!("install {}", t),
        FindNext::Do(FindStep::Which, t) => format!("which {}", t),
        FindNext::Do(FindStep::Verify(p), _) => format!("verify {}", p),
        FindNext::Do(FindStep::TryPath, _) => panic!("the search does not start again"),
        FindNext::Fail(e) => e,
    }
}

#[test]
fn a_compiler_of_the_right_version_is_searched_for() {
    let right = || FindResult::Output(format!("{}\n", VERSION));
    let wrong = || FindResult::Output("rustc 1.81.0 (eeb90cda1 2024-09-04)\n".to_string());
    assert_eq!(found(FindStep::TryPath, right()), "found rustc");
    assert_eq!(found(FindStep::TryPath, wrong()), "check 1.80.0");
    assert_eq!(found(FindStep::TryPath, FindResult::No), "check 1.80.0");
    assert_eq!(found(FindStep::CheckInstalled, FindResult::Yes), "which 1.80.0");
    assert_eq!(found(FindStep::CheckInstalled, FindResult::No), "install 1.80.0");
    assert_eq!(found(FindStep::Install, FindResult::Yes), "which 1.80.0");
    assert_eq!(found(FindStep::Install, FindResult::No), "Failed to install toolchain '1.80.0'");
    assert_eq!(found(FindStep::Install, FindResult::Failed("x".to_string())), "Failed to run rustup: x");
    assert_eq!(found(FindStep::Which, FindResult::Output("/t/rustc\n".to_string())), "verify /t/rustc");
    assert_eq!(found(FindStep::Verify("/t/rustc".to_string()), right()), "found /t/rustc");
    assert_eq!(found(FindStep::Verify("/t/rustc".to_string()), wrong()), "Version mismatch");
    assert_eq!(found(FindStep::Verify("/t/rustc".to_string()), FindResult::No), "Version mismatch");
    assert_eq!(found(FindStep::Which, FindResult::Failed("x".to_string())), "Failed to resolve rustc: x");
    assert_eq!(found(FindStep::Which, FindResult::No), format!("Could not find rustc for {}", VERSION));
    match Compiler::find_compatible_compiler("odd", FindStep::TryPath, FindResult::No) {
        FindNext::Fail(e) => assert_eq!(e, "Invalid version: odd"),
        _ => panic!("an odd version names no toolchain"),
    }
}

#[test]
fn a_host_without_a_compiler_builds_nothing() {
    let none = Host::new(ResolvedPatches { entries: Vec::new() }, None, "/d/bin", "/d", false, true);
    assert_eq!(none.dist_lib_path, "/d/lib");
    assert_eq!(none.compile_plugin().err().unwrap(), "Compiler not available");
    assert_eq!(none.std_lib_path(), None);
    let some = Host::new(ResolvedPatches { entries: Vec::new() }, Some(some_compiler()), "/d/bin", "/d", true, true);
    assert_eq!(some.dist_lib_path, "/d/bin");
    assert!(some.compile_plugin().is_ok());
    assert_eq!(some.std_lib_path(), Some("/sys/lib"));
    let message = Message { id: 1, payload: "hello #1".to_string() };
    assert_eq!((message.id, message.payload.as_str()), (1, "hello #1"));
}

#[test]
fn prebuilt_crates_are_told_by_their_file_names() {
    assert_eq!(standalone::prebuilt_crate("libserde-1a2b.rlib"), Some("serde".to_string()));
    assert_eq!(standalone::prebuilt_crate("libmy-crate-1a2b.rlib"), Some("my-crate".to_string()));
    assert_eq!(standalone::prebuilt_crate("libserde-1a2b.rmeta"), None);
    assert_eq!(standalone::prebuilt_crate("libserde.rlib"), None);
    assert_eq!(standalone::prebuilt_crate("serde-1.rlib"), None);
    let files = vec![
        ("libserde-1.rlib".to_string(), "/p/libserde-1.rlib".to_string()),
        ("readme.txt".to_string(), "/p/readme.txt".to_string()),
    ];
    assert_eq!(standalone::extern_flags(&files), vec!["--extern=serde=/p/libserde-1.rlib"]);
    let flags = standalone::encoded_flags(&host_build(), "/d", &files);
    assert_eq!(flags, format!("{}\u{1f}--extern=serde=/p/libserde-1.rlib", Compiler::build_rustflags(&host_build(), "/d", None)));
}

#[test]
fn plain_builds_may_use_vendored_sources() {
    assert_eq!(standalone::build_args(false, None), vec!["build"]);
    let args = standalone::build_args(true, Some("/v"));
    assert_eq!(args[..2], ["build", "--release"]);
    assert_eq!(args[3], "source.crates-io.replace-with=\"vendored-sources\"");
    assert_eq!(args[5], "source.vendored-sources.directory=\"/v\"");
    let hash = Compiler::source_hash("/src/p");
    assert_eq!(standalone::target_dir(Some("/h"), "/src/p"), format!("/h/.tau/buildcache/{}", hash));
    assert_eq!(standalone::target_dir(None, "/src/p"), format!("./.tau/buildcache/{}", hash));
    assert_ne!(hash, Compiler::source_hash("/src/q"));
}

fn plain_failure(step: BuildStep, result: StepResult) -> String {
    match standalone::compile_plugin(step, result, "/src", "libx.dylib", "/build") {
        BuildNext::Fail(m) => m,
        _ => panic!("the step does not fail"),
    }
}

#[test]
fn plain_builds_come_to_an_end() {
    let mut step = BuildStep::Canonicalize;
    let mut seen = 1;
    while let BuildNext::Do(next) = standalone::compile_plugin(step, StepResult::Yes, "", "", "") {
        step = next;
        seen += 1;
    }
    assert_eq!(seen, 7);
    let e = || StepResult::Failed("why".to_string());
    assert_eq!(plain_failure(BuildStep::Canonicalize, e()), "Invalid source path: why");
    assert_eq!(plain_failure(BuildStep::CheckManifest, StepResult::No), "Not a Cargo project: /src");
    assert_eq!(plain_failure(BuildStep::MakeCache, e()), "Failed to create cache dir: why");
    assert_eq!(plain_failure(BuildStep::Build, e()), "Failed to run cargo: why");
    let out = StepResult::BuildFailed("o".to_string(), "e".to_string());
    assert_eq!(plain_failure(BuildStep::Build, out), "Compilation failed:\no\ne");
    assert_eq!(plain_failure(BuildStep::ReadName, e()), "Failed to read Cargo.toml: why");
    assert_eq!(plain_failure(BuildStep::ReadName, StepResult::No), "Could not determine package name from Cargo.toml");
    assert_eq!(plain_failure(BuildStep::CheckArtifact, StepResult::No), "Expected artifact libx.dylib not found in /build");
    assert_eq!(plain_failure(BuildStep::CopyArtifact, e()), "why");
}

fn plain_found(step: FindStep, result: FindResult) -> String {
    match standalone::find_compatible_compiler(VERSION, step, result) {
        FindNext::Found(p) => format!("found {}", p),
        FindNext::Do(FindStep::CheckInstalled, t) => format!("check {}", t),
        FindNext::Do(FindStep::Install, t) => format!("install {}", t),
        FindNext::Do(FindStep::Verify(p), _) => format!("verify {}", p),
        FindNext::Do(_, t) => format!("which {}", t),
        FindNext::Fail(e) => e,
    }
}

#[test]
fn plain_searches_say_what_went_wrong() {
    let e = || FindResult::Failed("x".to_string());
    let right = || FindResult::Output(VERSION.to_string());
    assert_eq!(plain_found(FindStep::TryPath, right()), "found rustc");
    assert_eq!(plain_found(FindStep::TryPath, FindResult::No), "check 1.80.0");
    assert_eq!(plain_found(FindStep::CheckInstalled, FindResult::No), "install 1.80.0");
    assert_eq!(plain_found(FindStep::CheckInstalled, e()), "x");
    assert_eq!(plain_found(FindStep::Install, FindResult::Yes), "which 1.80.0");
    assert_eq!(plain_found(FindStep::Install, e()), "Failed to run rustup install: x");
    assert_eq!(plain_found(FindStep::Install, FindResult::No), "Failed to install toolchain '1.80.0'");
    assert_eq!(plain_found(FindStep::Which, FindResult::Output(" /r \n".to_string())), "verify /r");
    assert_eq!(plain_found(FindStep::Verify("/r".to_string()), right()), "found /r");
    assert_eq!(plain_found(FindStep::Verify("/r".to_string()), FindResult::No), "Version mismatch");
    assert_eq!(plain_found(FindStep::Which, e()), "Failed to resolve rustc path: x");
    assert_eq!(plain_found(FindStep::Which, FindResult::No), format!("Could not find compatible rustc for {}", VERSION));
    assert_eq!(standalone::calculate_required_toolchain("odd"), Err("Invalid version string: odd".to_string()));
    assert_eq!(standalone::check_compiler(true, "v\n", "v"), Ok(()));
    assert_eq!(standalone::check_compiler(true, "w", "v"), Err("Version mismatch".to_string()));
    assert_eq!(standalone::check_compiler(false, "v", "v"), Err("Failed execution".to_string()));
}

#[test]
fn plugins_are_built_like_the_host() {
    let host = HostBuild {
        rustflags: "-C\u{1f}opt-level=2".to_string(),
        panic: "abort".to_string(),
        target_features: "+neon".to_string(),
        ..host_build()
    };
    let flags = Compiler::build_rustflags(&host, "/dist/lib", Some(("/dist/lib/libtau_rt.dylib", "/dist/lib")));
    let seen: Vec<&str> = flags.split('\u{1f}').collect();
    assert_eq!(seen[..2], ["-C", "opt-level=2"]);
    assert!(seen.contains(&"panic=abort"));
    assert!(seen.contains(&"target-feature=+neon"));
    assert_eq!(seen.len(), 15);
}

#[test]
fn split_undoes_join() {
    let parts: Vec<String> = ["a", "", "b c", ""].iter().map(|p| p.to_string()).collect();
    assert_eq!(split_at_char(&join_strings(&parts, ","), ','), parts);
    assert_eq!(split_at_char("", ','), vec![""]);
}

#[test]
fn numbers_round_trip() {
    for n in [0, 7, 10, 255, 1_000_000, u64::MAX] {
        assert_eq!(parse_number(&decimal(n)), Some(n));
        assert_eq!(u64::from_str_radix(&hexadecimal(n), 16).ok(), Some(n));
    }
}
