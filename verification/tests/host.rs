//! Scripts, discovery, loading, and the small runtime.

use std::collections::hash_map::DefaultHasher;
use std::hash::{Hash, Hasher};
use tau::host::capture::{
    capture_panic_strategy, capture_rustc_version, capture_rustflags, capture_target, capture_target_features,
};
use tau::host::compiler::{Compiler, HostBuild, PATCHES_LIST};
use tau::host::discover::{discover_plugins, first_workspace, is_plugin, plugins_dir};
use tau::host::modes::{discovers, load_plan, numbered, parse_mode, run_bench, run_plugins, BenchRun, LoadPlan, Mode};
use tau::host::plugin::{dropped_note, load, turn, unload, LoadAction, LoadEvent, UnloadAction, UnloadEvent};
use tau::host::reload::{test_reload, Reload, ReloadAction, ReloadEvent};
use tau::host::script::{explicit_plugins, install_plan, parse_command, Command, Tally};
use tau::host::session::{Reply, Session, SessionAction, SessionEvent};
use tau::host::single::{BlockNext, Outcome, Runtime};
use tau::runtime::events::{tau_event_subscribe, EventBus};
use tau::runtime::executor::{alloc_raw, commit_spawn, debug_stats, enter, leave, Executor, PluginIds};
use tau::runtime::resources::{resource_exists, tau_resource_put, Resources};

fn strings(v: &[&str]) -> Vec<String> {
    v.iter().map(|s| s.to_string()).collect()
}

#[test]
fn lines_are_commands() {
    assert!(matches!(parse_command("   "), Command::Skip));
    assert!(matches!(parse_command("# load a b"), Command::Skip));
    assert!(matches!(parse_command("load a /x y/z"), Command::Load(n, p) if n == "a" && p == "/x y/z"));
    assert!(matches!(parse_command("load a"), Command::Usage(u) if u == "Usage: load <name> <path>"));
    assert!(matches!(parse_command("unload a"), Command::Unload(n) if n == "a"));
    assert!(matches!(parse_command("unload"), Command::Usage(u) if u == "Usage: unload <name>"));
    assert!(matches!(parse_command("send a b c"), Command::Send(n, p) if n == "a" && p == "b c"));
    assert!(matches!(parse_command("send a"), Command::Usage(u) if u == "Usage: send <name> <payload>"));
    assert!(matches!(parse_command("sleep 5"), Command::Sleep(5)));
    assert!(matches!(parse_command("sleep"), Command::Sleep(100)));
    assert!(matches!(parse_command("sleep soon"), Command::Sleep(100)));
    assert!(matches!(parse_command("assert_resource r"), Command::AssertResource(n) if n == "r"));
    assert!(matches!(parse_command("assert_no_resource r"), Command::AssertNoResource(n) if n == "r"));
    assert!(matches!(parse_command("assert_resource"), Command::Usage(u) if u == "Usage: assert_resource <name>"));
    assert!(matches!(parse_command("assert_no_resource"), Command::Usage(u) if u == "Usage: assert_no_resource <name>"));
    assert!(matches!(parse_command("print hello world"), Command::Print(m) if m == "hello world"));
    assert!(matches!(parse_command("print"), Command::Print(m) if m.is_empty()));
    assert!(matches!(parse_command("dance now"), Command::Unknown(v) if v == "dance"));
}

#[test]
fn assertions_are_counted() {
    let mut t = Tally::new();
    assert!(t.record(true, true));
    assert_eq!(t.exit_code(), 0);
    assert!(!t.record(false, true));
    assert_eq!((t.tests, t.passed, t.failed), (2, 1, 1));
    assert_eq!(t.exit_code(), 1);
}

#[test]
fn plugins_are_named_on_the_command_line() {
    let args = strings(&["tau", "--plugin", "/a", "--reload", "--plugin", "/b", "--plugin"]);
    assert_eq!(explicit_plugins(&args), vec!["/a", "/b"]);
}

#[test]
fn installations_take_a_user_and_a_repository() {
    let (name, url) = install_plan("user/repo").unwrap();
    assert_eq!(name, "repo");
    assert_eq!(url, "https://github.com/user/repo.git");
    assert!(install_plan("repo").is_none());
    assert!(install_plan("a/b/c").is_none());
}

fn said(r: &Reply) -> Option<(bool, &str)> {
    r.note.as_ref().map(|n| (n.error, n.text.as_str()))
}

fn line(s: &mut Session, l: &str) -> Reply {
    s.step(SessionEvent::Line(l.to_string()))
}

#[test]
fn a_script_loads_sends_and_unloads() {
    let mut s = Session::new();
    let r = line(&mut s, "load a /src");
    assert!(said(&r).is_none() && matches!(r.action, SessionAction::AskIsDir(p) if p == "/src"));
    let r = s.step(SessionEvent::IsDir(true));
    assert!(matches!(r.action, SessionAction::Compile(p) if p == "/src"));
    let r = s.step(SessionEvent::Compiled(Ok("/lib.so".to_string())));
    assert!(matches!(r.action, SessionAction::Load(p) if p == "/lib.so"));
    let r = s.step(SessionEvent::Loaded(Ok(7)));
    assert_eq!(said(&r), Some((false, "OK load a")));
    assert!(matches!(r.action, SessionAction::ReadLine));

    // a path that was compiled is not compiled again
    let r = line(&mut s, "load b /src");
    assert!(matches!(r.action, SessionAction::Load(p) if p == "/lib.so"));
    let r = s.step(SessionEvent::Loaded(Err("bad".to_string())));
    assert_eq!(said(&r), Some((true, "LOAD_FAIL b: bad")));

    let r = line(&mut s, "send a hi there");
    assert!(matches!(r.action, SessionAction::Request(7, 0, p) if p == "hi there"));
    let r = s.step(SessionEvent::Done);
    assert_eq!(said(&r), Some((false, "OK send a")));

    let r = line(&mut s, "unload a");
    assert!(matches!(r.action, SessionAction::Unload(7)));
    let r = s.step(SessionEvent::Done);
    assert_eq!(said(&r), Some((false, "OK unload a")));
    let r = line(&mut s, "unload a");
    assert_eq!(said(&r), Some((true, "NOT_FOUND: a")));
    let r = line(&mut s, "send a x");
    assert_eq!(said(&r), Some((true, "NOT_FOUND: a")));
}

#[test]
fn a_script_checks_resources() {
    let mut s = Session::new();
    let r = line(&mut s, "assert_resource r");
    assert!(matches!(r.action, SessionAction::LookUp(n) if n == "r"));
    let r = s.step(SessionEvent::Resource(true));
    assert_eq!(said(&r), Some((false, "PASS assert_resource r")));
    line(&mut s, "assert_resource r");
    let r = s.step(SessionEvent::Resource(false));
    assert_eq!(said(&r), Some((false, "FAIL assert_resource r — not found")));
    line(&mut s, "assert_no_resource r");
    let r = s.step(SessionEvent::Resource(false));
    assert_eq!(said(&r), Some((false, "PASS assert_no_resource r")));
    line(&mut s, "assert_no_resource r");
    let r = s.step(SessionEvent::Resource(true));
    assert_eq!(said(&r), Some((false, "FAIL assert_no_resource r — still exists")));
    assert_eq!((s.tally.tests, s.tally.passed, s.tally.failed), (4, 2, 2));
}

#[test]
fn a_script_says_what_it_is_told_to() {
    let mut s = Session::new();
    assert_eq!(said(&line(&mut s, "print a b")), Some((false, "--- a b ---")));
    assert_eq!(said(&line(&mut s, "dance")), Some((true, "Unknown command: dance")));
    assert_eq!(said(&line(&mut s, "load a")), Some((true, "Usage: load <name> <path>")));
    assert!(said(&line(&mut s, "# nothing")).is_none());
    assert!(matches!(line(&mut s, "sleep 3").action, SessionAction::Sleep(3)));
    assert!(matches!(s.step(SessionEvent::Done).action, SessionAction::ReadLine));
    line(&mut s, "load a /src");
    s.step(SessionEvent::IsDir(true));
    let r = s.step(SessionEvent::Compiled(Err("no".to_string())));
    assert_eq!(said(&r), Some((true, "COMPILE_FAIL: no")));
}

#[test]
fn everything_is_unloaded_at_the_end() {
    let mut s = Session::new();
    for (name, token) in [("a", 1), ("b", 2), ("a", 3)] {
        line(&mut s, &format!("load {} /x.so", name));
        s.step(SessionEvent::IsDir(false));
        let r = s.step(SessionEvent::Loaded(Ok(token)));
        // a plugin that is loaded again takes the place of the one before
        if token == 3 {
            assert!(matches!(r.action, SessionAction::Unload(1)));
        }
    }
    let r = s.step(SessionEvent::End);
    assert!(matches!(r.action, SessionAction::Finish(v) if v == vec![3, 2]));
    assert!(s.names.is_empty());
}

#[test]
fn plugins_are_crates_and_libraries() {
    assert!(is_plugin(true, true, false, None));
    assert!(!is_plugin(true, false, false, None));
    assert!(is_plugin(false, false, true, Some("so")));
    assert!(is_plugin(false, false, true, Some("dylib")));
    assert!(!is_plugin(false, false, true, Some("txt")));
    assert!(!is_plugin(false, false, true, None));
    assert_eq!(plugins_dir("/home/u"), "/home/u/.tau/plugins");
    assert_eq!(first_workspace(&vec![false, true, true]), Some(1));
    assert_eq!(first_workspace(&vec![false]), None);
}

#[test]
fn discovered_plugins_are_sorted_and_listed_once() {
    let found = strings(&["/b", "/a/c", "/a", "/b", "/a-b"]);
    assert_eq!(discover_plugins(&found), vec!["/a", "/a/c", "/a-b", "/b"]);
    assert!(discover_plugins(&Vec::new()).is_empty());
}

#[test]
fn loading_goes_through_its_steps() {
    let mut ids = PluginIds::new();
    assert!(matches!(load(&mut ids, LoadEvent::Start), LoadAction::Open));
    assert!(matches!(load(&mut ids, LoadEvent::Opened(Ok(()))), LoadAction::FindSymbols));
    let first = ids.next;
    assert!(matches!(load(&mut ids, LoadEvent::Symbols(true)), LoadAction::Init(id) if id == first));
    assert_eq!(ids.current, first);
    assert!(matches!(load(&mut ids, LoadEvent::Initialized(0)), LoadAction::Loaded));
    assert_eq!(ids.current, 0);
}

#[test]
fn loading_says_what_went_wrong() {
    let mut ids = PluginIds::new();
    let r = load(&mut ids, LoadEvent::Opened(Err("gone".to_string())));
    assert!(matches!(r, LoadAction::Fail(false, e) if e == "dlopen failed: gone"));
    let r = load(&mut ids, LoadEvent::Symbols(false));
    assert!(matches!(r, LoadAction::Fail(true, e) if e == "Failed to find plugin_init/plugin_destroy symbols"));
    let r = load(&mut ids, LoadEvent::Initialized(3));
    assert!(matches!(r, LoadAction::Fail(true, e) if e == "Plugin init failed"));
}

#[test]
fn a_plugin_leaves_nothing_behind() {
    let mut ex: Executor<u32, u64> = Executor::new();
    ex.init();
    let mut bus: EventBus<u8> = EventBus::new();
    let mut table: Resources<u16> = Resources::new();
    for plugin_id in [1, 2] {
        let (id, _) = alloc_raw(&mut ex);
        commit_spawn(&mut ex, id, 10 + plugin_id as u32, plugin_id);
        tau_event_subscribe(&mut bus, "c", plugin_id as u8, plugin_id);
        tau_resource_put(&mut table, &format!("r{}", plugin_id), 5, 9, plugin_id);
    }
    assert!(matches!(unload(&mut ex, &mut bus, &mut table, 1, UnloadEvent::Start), UnloadAction::Destroy));
    let UnloadAction::DropTasks(tasks) = unload(&mut ex, &mut bus, &mut table, 1, UnloadEvent::Destroyed) else {
        panic!("the tasks go first");
    };
    assert_eq!(tasks.len(), 1);
    assert_eq!(tasks[0].payload, Some(11));
    // a task's destructor finds the resources of its plugin, and may subscribe and put
    assert!(resource_exists(&table, "r1"));
    tau_event_subscribe(&mut bus, "late", 7, 1);
    tau_resource_put(&mut table, "late", 5, 9, 1);
    let ids = tasks.iter().map(|c| c.id).collect();
    let UnloadAction::DropEvents(subs) = unload(&mut ex, &mut bus, &mut table, 1, UnloadEvent::TasksDropped(ids)) else {
        panic!("then the subscriptions go");
    };
    assert_eq!(debug_stats(&ex).0, 1);
    assert_eq!(subs.len(), 2);
    assert_eq!(bus.subs.len(), 1);
    assert!(resource_exists(&table, "r1"));
    let UnloadAction::DropResources(entries) = unload(&mut ex, &mut bus, &mut table, 1, UnloadEvent::EventsDropped) else {
        panic!("then the resources go");
    };
    assert_eq!(entries.len(), 2);
    assert!(!resource_exists(&table, "r1") && !resource_exists(&table, "late"));
    assert!(resource_exists(&table, "r2"));
    assert!(matches!(unload(&mut ex, &mut bus, &mut table, 1, UnloadEvent::ResourcesDropped), UnloadAction::Close));
    assert_eq!(dropped_note(2, "resources", 1).as_deref(), Some("[Host] Dropped 2 resources from plugin 1"));
    assert_eq!(dropped_note(0, "tasks", 1), None);
}

#[test]
fn the_current_plugin_comes_back() {
    let mut ids = PluginIds::new();
    let outer = enter(&mut ids, 3);
    let inner = enter(&mut ids, 4);
    assert_eq!((outer, inner, ids.current), (0, 3, 4));
    leave(&mut ids, inner);
    assert_eq!(ids.current, 3);
    leave(&mut ids, outer);
    assert_eq!(ids.current, 0);
}

#[test]
fn plugins_take_turns() {
    let turns: Vec<usize> = (0..5).map(|i| turn(i, 2)).collect();
    assert_eq!(turns, vec![0, 1, 0, 1, 0]);
}

#[test]
fn the_small_runtime_polls_what_is_queued() {
    let mut rt: Runtime<&str> = Runtime::new();
    rt.init();
    rt.spawn(1, "a");
    rt.spawn(2, "b");
    assert_eq!(rt.drive(), vec![1, 2]);
    assert!(rt.drive().is_empty());
    assert_eq!(rt.poll_task(1), Some("a"));
    rt.polled(1, "a", false);
    assert!(matches!(rt.block_on(1, false), BlockNext::Drive));
    assert_eq!(rt.poll_task(1), Some("a"));
    rt.polled(1, "done", true);
    assert_eq!(rt.poll_task(1), None);
    assert!(matches!(rt.block_on(1, true), BlockNext::Done(Some("done"))));
    assert_eq!(rt.poll_task(9), None);
}

#[test]
fn the_small_runtime_counts_what_completes() {
    let mut rt: Runtime<&str> = Runtime::new();
    rt.init();
    for id in 1..5 {
        rt.spawn(id, "t");
    }
    let ids = rt.drive();
    let outcomes = ids.iter().map(|id| Outcome { task_id: *id, payload: rt.poll_task(*id).unwrap(), ready: *id != 3 }).collect();
    assert_eq!(rt.drove(outcomes), 3);
    assert_eq!(rt.poll_task(1), None);
    assert_eq!(rt.poll_task(3), Some("t"));
    let again = |id| Outcome { task_id: id, payload: "u", ready: true };
    assert_eq!(rt.drove(vec![again(1), again(3), again(3), again(9)]), 1);
}

fn mode(args: &[&str]) -> Mode {
    parse_mode(&strings(args))
}

#[test]
fn the_command_line_says_what_to_do() {
    assert!(matches!(mode(&["tau", "--info"]), Mode::Info));
    assert!(matches!(mode(&["tau", "install"]), Mode::Refuse(m) if m == "Usage: tau install <user>/<repo>"));
    assert!(matches!(mode(&["tau", "install", "x"]), Mode::Refuse(m) if m == "Invalid format. Use <user>/<repo>"));
    assert!(matches!(mode(&["tau", "install", "u/r"]), Mode::Install(n, u) if n == "r" && u == "https://github.com/u/r.git"));
    assert!(matches!(mode(&["tau", "test"]), Mode::Test));
    assert!(matches!(mode(&["tau", "bench"]), Mode::Bench(m, 10_000) if m == "all"));
    assert!(matches!(mode(&["tau", "bench", "ipc", "7"]), Mode::Bench(m, 7) if m == "ipc"));
    assert!(matches!(mode(&["tau", "bench", "ipc", "x"]), Mode::Bench(_, 10_000)));
    assert!(matches!(mode(&["tau", "--reload-test"]), Mode::Refuse(m) if m == "Usage: tau --reload-test <plugin-path>"));
    assert!(matches!(mode(&["tau", "--reload-test", "/p"]), Mode::ReloadTest(p) if p == "/p"));
    assert!(matches!(mode(&["tau"]), Mode::Run(p) if p.is_empty()));
    assert!(matches!(mode(&["tau", "--plugin", "/p"]), Mode::Run(p) if p == vec!["/p"]));
    assert!(discovers(&strings(&["tau"])) && discovers(&strings(&["tau", "--info"])));
    assert!(!discovers(&strings(&["tau", "test"])));
}

#[test]
fn paths_are_built_loaded_or_passed_over() {
    assert_eq!(load_plan(true, true, None), LoadPlan::Compile);
    assert_eq!(load_plan(true, false, Some("so")), LoadPlan::SkipNoManifest);
    assert_eq!(load_plan(false, false, Some("dylib")), LoadPlan::Load);
    assert_eq!(load_plan(false, false, Some("so")), LoadPlan::Load);
    assert_eq!(load_plan(false, false, Some("txt")), LoadPlan::SkipOther);
    assert_eq!(load_plan(false, false, None), LoadPlan::SkipOther);
}

#[test]
fn benchmarks_run_in_order() {
    assert_eq!(run_bench("load", 9), vec![BenchRun::Load(9)]);
    assert_eq!(run_bench("ipc", 9), vec![BenchRun::Ipc(9)]);
    assert_eq!(run_bench("spawn", 9), vec![BenchRun::Spawn(9)]);
    assert_eq!(run_bench("event", 9), vec![BenchRun::Event(9)]);
    let all = vec![BenchRun::Ipc(900), BenchRun::Event(900), BenchRun::Spawn(900), BenchRun::Load(500)];
    assert_eq!(run_bench("all", 900), all);
    assert!(run_bench("other", 9).is_empty());
}

#[test]
fn messages_are_numbered() {
    let m = numbered(103, "reload test", 3);
    assert_eq!((m.id, m.payload.as_str()), (103, "reload test #3"));
    assert_eq!(numbered(0, "hello", u64::MAX).payload, "hello #18446744073709551615");
    assert_eq!(numbered(0, "hello", 10).payload, "hello #10");
}

#[test]
fn a_new_environment_is_built_anew() {
    let host = |version: &str, rustflags: &str| HostBuild {
        version: version.to_string(),
        rustflags: rustflags.to_string(),
        target: "t".to_string(),
        panic: "p".to_string(),
        target_features: "x".to_string(),
    };
    let runtime = vec![1u8, 2, 3];
    let now = Compiler::env_hash(&host("v", "f"), Some(&runtime));
    assert_eq!(now, Compiler::env_hash(&host("v", "f"), Some(&vec![1, 2, 3])));
    assert_ne!(now, Compiler::env_hash(&host("w", "f"), Some(&runtime)));
    assert_ne!(now, Compiler::env_hash(&host("v", "g"), Some(&runtime)));
    assert_ne!(now, Compiler::env_hash(&host("vf", ""), Some(&runtime)));
    assert_ne!(now, Compiler::env_hash(&host("v", "f"), Some(&vec![1, 2])));
    assert_ne!(now, Compiler::env_hash(&host("v", "f"), None));
    let mut hasher = DefaultHasher::new();
    for part in ["v", "f", "p", "x"] {
        part.hash(&mut hasher);
    }
    PATCHES_LIST.hash(&mut hasher);
    assert_eq!(Compiler::env_hash(&host("v", "f"), None), format!("{:x}", hasher.finish()));
    let mut cached = None;
    assert_eq!(Compiler::get_or_compute_env_hash(&mut cached, &host("v", "f"), Some(&runtime)), now);
    assert_eq!(Compiler::get_or_compute_env_hash(&mut cached, &host("w", "f"), None), now);
    let one = Compiler::build_paths(Some("/h"), "a1", "c", "s", true);
    let other = Compiler::build_paths(Some("/h"), "a2", "c", "s", true);
    assert_ne!(one.cache_dir, other.cache_dir);
}

#[test]
fn plugins_are_asked_in_turn() {
    let run = run_plugins(3);
    assert_eq!(run.iter().map(|r| r.0).collect::<Vec<usize>>(), vec![0, 1, 2, 0, 1, 2, 0, 1, 2, 0]);
    assert_eq!(run.iter().map(|r| r.1.id).collect::<Vec<u64>>(), (0..10).collect::<Vec<u64>>());
    assert_eq!(run[7].1.payload, "hello #7");
    assert!(run_plugins(1).iter().all(|r| r.0 == 0));
}

/// Runs a trial; the loads come to these results. What was said, and what was done.
fn trial(loads: &[Result<(), String>]) -> (Vec<(bool, String)>, Vec<String>) {
    let mut t = Reload { again: true, served: 2 };
    let mut loads = loads.iter().cloned();
    let mut said = vec![];
    let mut done = vec![];
    let mut ev = ReloadEvent::Start;
    loop {
        let reply = test_reload(&mut t, ev);
        said.extend(reply.notes);
        ev = match reply.action {
            ReloadAction::Load => {
                done.push("load".to_string());
                ReloadEvent::Loaded(loads.next().unwrap())
            },
            ReloadAction::Serve(m) => {
                done.push(format!("{} {}", m.id, m.payload));
                ReloadEvent::Served
            },
            ReloadAction::Unload => {
                done.push("unload".to_string());
                ReloadEvent::Unloaded
            },
            ReloadAction::Sleep(ms) => {
                done.push(format!("sleep {}", ms));
                ReloadEvent::Slept
            },
            ReloadAction::Finish => return (said, done),
        };
        assert!(done.len() < 20);
    }
}

#[test]
fn trials_come_to_an_end() {
    let (said, done) = trial(&[Ok(()), Ok(())]);
    assert!(said.iter().all(|s| !s.0));
    let said: Vec<&str> = said.iter().map(|s| s.1.as_str()).collect();
    assert_eq!(
        said,
        vec![
            "[Reload Test] Loading plugin...",
            "[Reload Test] First run complete",
            "[Reload Test] Unloading plugin...",
            "[Reload Test] Plugin unloaded",
            "[Reload Test] Reloading plugin...",
            "[Reload Test] Second run complete",
            "[Reload Test] SUCCESS - Plugin reloaded and ran correctly!",
        ]
    );
    assert_eq!(
        done,
        vec![
            "load",
            "0 test #0",
            "1 test #1",
            "2 test #2",
            "unload",
            "sleep 100",
            "load",
            "100 reload test #0",
            "101 reload test #1",
            "102 reload test #2",
            "unload",
        ]
    );
    let (said, done) = trial(&[Err("no".to_string())]);
    assert_eq!(said.last().unwrap(), &(true, "[Reload Test] Failed to load: no".to_string()));
    assert_eq!(done, vec!["load"]);
    let (said, done) = trial(&[Ok(()), Err("gone".to_string())]);
    assert_eq!(said.last().unwrap(), &(true, "[Reload Test] Failed to reload: gone".to_string()));
    assert_eq!(done.len(), 7);
}

#[test]
fn a_build_records_how_it_was_made() {
    assert_eq!(capture_rustc_version("rustc 1.80.0 (abc 2024-07-01)\n"), "rustc 1.80.0 (abc 2024-07-01)");
    assert_eq!(capture_rustflags(Some("-C\u{1f}a"), Some("-C b")), "-C\u{1f}a");
    assert_eq!(capture_rustflags(None, Some("-C b")), "-C b");
    assert_eq!(capture_rustflags(None, None), "");
    let verbose = "rustc 1.80.0\nbinary: rustc\nhost: aarch64-apple-darwin\nhost: other\n";
    assert_eq!(capture_target(Some("x86_64"), verbose), "x86_64");
    assert_eq!(capture_target(None, verbose), "aarch64-apple-darwin");
    assert_eq!(capture_target(None, "host:host: a\n"), "a");
    assert_eq!(capture_target(None, " host: a\nhos"), "unknown");
    assert_eq!(capture_panic_strategy(Some("release"), Some("abort"), None), "abort");
    assert_eq!(capture_panic_strategy(Some("release"), None, Some("abort")), "unwind");
    assert_eq!(capture_panic_strategy(Some("debug"), None, Some("abort")), "abort");
    assert_eq!(capture_panic_strategy(None, Some("abort"), None), "unwind");
    assert_eq!(capture_target_features(Some("neon, aes,sha2")), "+neon,+aes,+sha2");
    assert_eq!(capture_target_features(Some("neon")), "+neon");
    assert_eq!(capture_target_features(Some("")), "");
    assert_eq!(capture_target_features(None), "");
}
