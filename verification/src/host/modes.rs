//! What the host program is asked to do.

use vstd::prelude::*;
use crate::host::course::Message;
use crate::host::plugin::turn;
use crate::host::script;
use crate::host::script::{explicit_plugins, install_plan};
use crate::text;
use crate::text::same;
use crate::words;
use crate::words::{decimal, parse_number};

verus! {

/// What the command line asks for.
pub enum Mode {
    /// Tell of the host and its compiler.
    Info,
    /// Install a plugin: the directory's name, and where the source is.
    Install(String, String),
    /// Run a script.
    Test,
    /// Run a benchmark so many times.
    Bench(String, u64),
    /// Load, unload and load a plugin again.
    ReloadTest(String),
    /// Run plugins: those that are named.
    Run(Vec<String>),
    /// Something is wrong: what to say.
    Refuse(String),
}

/// What the command line asks for, as a value.
pub enum ModeView {
    Info,
    Install(Seq<char>, Seq<char>),
    Test,
    Bench(Seq<char>, u64),
    ReloadTest(Seq<char>),
    Run(Seq<Seq<char>>),
    Refuse(Seq<char>),
}

impl View for Mode {
    type V = ModeView;

    open spec fn view(&self) -> ModeView {
        match self {
            Mode::Info => ModeView::Info,
            Mode::Install(name, url) => ModeView::Install(name@, url@),
            Mode::Test => ModeView::Test,
            Mode::Bench(mode, iters) => ModeView::Bench(mode@, *iters),
            Mode::ReloadTest(path) => ModeView::ReloadTest(path@),
            Mode::Run(paths) => ModeView::Run(text::views(paths@)),
            Mode::Refuse(m) => ModeView::Refuse(m@),
        }
    }
}

/// The number of rounds of a benchmark where none is given.
pub const BENCH_ROUNDS: u64 = 10_000;

/// What the arguments ask for; the first one is the program.
pub open spec fn mode_of(args: Seq<Seq<char>>) -> ModeView {
    if args.len() > 1 && args[1] == "--info"@ {
        ModeView::Info
    } else if args.len() > 1 && args[1] == "install"@ {
        if args.len() < 3 {
            ModeView::Refuse("Usage: tau install <user>/<repo>"@)
        } else {
            let parts = text::split_on(args[2], '/');
            if parts.len() == 2 {
                ModeView::Install(parts[1], "https://github.com/"@ + args[2] + ".git"@)
            } else {
                ModeView::Refuse("Invalid format. Use <user>/<repo>"@)
            }
        }
    } else if args.len() > 1 && args[1] == "test"@ {
        ModeView::Test
    } else if args.len() > 1 && args[1] == "bench"@ {
        ModeView::Bench(
            if args.len() > 2 {
                args[2]
            } else {
                "all"@
            },
            if args.len() > 3 && words::number_of(args[3]) is Some {
                words::number_of(args[3])->0 as u64
            } else {
                BENCH_ROUNDS
            },
        )
    } else if args.len() > 1 && args[1] == "--reload-test"@ {
        if args.len() < 3 {
            ModeView::Refuse("Usage: tau --reload-test <plugin-path>"@)
        } else {
            ModeView::ReloadTest(args[2])
        }
    } else {
        ModeView::Run(script::plugin_paths(args, 1))
    }
}

/// Reads the command line.
pub fn parse_mode(args: &Vec<String>) -> (r: Mode)
    ensures
        r@ == mode_of(text::views(args@)),
{
    let ghost all = text::views(args@);
    assert(forall|i: int| 0 <= i < all.len() ==> #[trigger] all[i] == args@[i]@);
    if args.len() <= 1 {
        return Mode::Run(explicit_plugins(args));
    }
    let first = args[1].as_str();
    if same(first, "--info") {
        return Mode::Info;
    }
    if same(first, "install") {
        if args.len() < 3 {
            return Mode::Refuse("Usage: tau install <user>/<repo>".to_owned());
        }
        return match install_plan(args[2].as_str()) {
            Some((name, url)) => Mode::Install(name, url),
            None => Mode::Refuse("Invalid format. Use <user>/<repo>".to_owned()),
        };
    }
    if same(first, "test") {
        return Mode::Test;
    }
    if same(first, "bench") {
        let mode = if args.len() > 2 {
            args[2].clone()
        } else {
            "all".to_owned()
        };
        let mut iters: u64 = BENCH_ROUNDS;
        if args.len() > 3 {
            if let Some(n) = parse_number(args[3].as_str()) {
                iters = n;
            }
        }
        return Mode::Bench(mode, iters);
    }
    if same(first, "--reload-test") {
        if args.len() < 3 {
            return Mode::Refuse("Usage: tau --reload-test <plugin-path>".to_owned());
        }
        return Mode::ReloadTest(args[2].clone());
    }
    Mode::Run(explicit_plugins(args))
}

/// Are plugins looked for? So they are without arguments, and for `--info` alone.
pub fn discovers(args: &Vec<String>) -> (r: bool)
    ensures
        r == (args@.len() <= 1 || (args@.len() == 2 && args@[1]@ == "--info"@)),
{
    args.len() <= 1 || (args.len() == 2 && same(args[1].as_str(), "--info"))
}

/// What is done with a path that is to be run.
#[derive(Clone, Copy, PartialEq, Eq, Structural, Debug)]
pub enum LoadPlan {
    /// Build it, and load what was built.
    Compile,
    /// Load it as it is.
    Load,
    /// A directory that is no crate.
    SkipNoManifest,
    /// Neither a crate nor a library.
    SkipOther,
}

/// What is done with a path that is to be run: a directory with a manifest is built, a library is
/// loaded, and anything else is passed over.
pub fn load_plan(is_dir: bool, has_manifest: bool, extension: Option<&str>) -> (r: LoadPlan)
    ensures
        r == if is_dir {
            if has_manifest {
                LoadPlan::Compile
            } else {
                LoadPlan::SkipNoManifest
            }
        } else if extension matches Some(e) && (e@ == "dylib"@ || e@ == "so"@) {
            LoadPlan::Load
        } else {
            LoadPlan::SkipOther
        },
{
    if is_dir {
        return if has_manifest {
            LoadPlan::Compile
        } else {
            LoadPlan::SkipNoManifest
        };
    }
    match extension {
        Some(e) => if same(e, "dylib") || same(e, "so") {
            LoadPlan::Load
        } else {
            LoadPlan::SkipOther
        },
        None => LoadPlan::SkipOther,
    }
}

/// A benchmark, and how often it runs.
#[derive(Clone, Copy, PartialEq, Eq, Structural, Debug)]
pub enum BenchRun {
    Load(u64),
    Ipc(u64),
    Spawn(u64),
    Event(u64),
}

/// The benchmarks of a mode, in order; none for a mode that is unknown. Loading is slow: with the
/// others it runs at most 500 times.
pub fn run_bench(mode: &str, iters: u64) -> (r: Vec<BenchRun>)
    ensures
        r@ == if mode@ == "load"@ {
            seq![BenchRun::Load(iters)]
        } else if mode@ == "ipc"@ {
            seq![BenchRun::Ipc(iters)]
        } else if mode@ == "spawn"@ {
            seq![BenchRun::Spawn(iters)]
        } else if mode@ == "event"@ {
            seq![BenchRun::Event(iters)]
        } else if mode@ == "all"@ {
            seq![
                BenchRun::Ipc(iters),
                BenchRun::Event(iters),
                BenchRun::Spawn(iters),
                BenchRun::Load(
                    if iters < 500 {
                        iters
                    } else {
                        500
                    },
                ),
            ]
        } else {
            Seq::<BenchRun>::empty()
        },
{
    let mut r: Vec<BenchRun> = Vec::new();
    if same(mode, "load") {
        r.push(BenchRun::Load(iters));
    } else if same(mode, "ipc") {
        r.push(BenchRun::Ipc(iters));
    } else if same(mode, "spawn") {
        r.push(BenchRun::Spawn(iters));
    } else if same(mode, "event") {
        r.push(BenchRun::Event(iters));
    } else if same(mode, "all") {
        r.push(BenchRun::Ipc(iters));
        r.push(BenchRun::Event(iters));
        r.push(BenchRun::Spawn(iters));
        let few: u64 = if iters < 500 {
            iters
        } else {
            500
        };
        r.push(BenchRun::Load(few));
    }
    r
}

/// A message that is numbered: `hello #3`.
pub fn numbered(id: u64, text: &str, number: u64) -> (r: Message)
    ensures
        r.id == id,
        r.payload@ == text@ + " #"@ + words::numeral(number as nat, 10),
{
    let mut payload = text.to_owned();
    payload.append(" #");
    payload.append(decimal(number).as_str());
    Message { id, payload }
}

/// How often plugins are asked.
pub const ROUNDS: u64 = 10;

/// The requests of a run: which plugin is asked, and what. They take turns.
pub fn run_plugins(plugins: usize) -> (r: Vec<(usize, Message)>)
    requires
        plugins > 0,
    ensures
        r@.len() == ROUNDS,
        forall|i: int|
            0 <= i < ROUNDS ==> {
                &&& (#[trigger] r@[i]).0 == i % plugins as int
                &&& r@[i].1.id == i
                &&& r@[i].1.payload@ == "hello"@ + " #"@ + words::numeral(i as nat, 10)
            },
{
    let mut r: Vec<(usize, Message)> = Vec::new();
    let mut i: u64 = 0;
    while i < ROUNDS
        invariant
            plugins > 0,
            i <= ROUNDS,
            r@.len() == i,
            forall|k: int|
                0 <= k < i ==> {
                    &&& (#[trigger] r@[k]).0 == k % plugins as int
                    &&& r@[k].1.id == k
                    &&& r@[k].1.payload@ == "hello"@ + " #"@ + words::numeral(k as nat, 10)
                },
        decreases ROUNDS - i,
    {
        r.push((turn(i, plugins), numbered(i, "hello", i)));
        i = i + 1;
    }
    r
}

} // verus!
