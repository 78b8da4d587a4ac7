//! What holds of runs: of scripted ones, of trials, of builds, and of the order of plugins.

use vstd::prelude::*;
use crate::host::course;
use crate::host::course::{CompileStep, StepResult};
use crate::host::discover;
use crate::host::plugin;
use crate::host::reload;
use crate::host::reload::{Reload, ReloadActionView, ReloadEvent};
use crate::host::script::CommandView;
use crate::host::session;
use crate::host::session::{ActionView, EventView, SessionView, StageView};
use crate::host::single;
use crate::host::single::{Outcome, Task};
use crate::host::standalone;
use crate::host::standalone::BuildStep;
use crate::runtime::executor;
use crate::runtime::executor::{ExecState, MAX_SLOTS, STATE_CANCELLED, STATE_EMPTY};
use crate::text;
use crate::words;

verus! {

// ---------------------------------------------------------------------------
// Scripted runs
// ---------------------------------------------------------------------------

/// Is a plugin loaded under this name and this number?
pub open spec fn loaded(v: SessionView, name: Seq<char>, token: u64) -> bool {
    exists|k: int| 0 <= k < v.names.len() && #[trigger] v.names[k] == name && v.tokens[k] == token
}

proof fn lemma_first_place(all: Seq<Seq<char>>, one: Seq<char>)
    ensures
        0 <= session::place_of(all, one) <= all.len(),
        session::place_of(all, one) < all.len() ==> all[session::place_of(all, one)] == one,
        forall|i: int| 0 <= i < session::place_of(all, one) ==> all[i] != one,
    decreases all.len(),
{
    if all.len() > 0 && all[0] != one {
        let rest = all.skip(1);
        lemma_first_place(rest, one);
        assert forall|i: int| 0 <= i < session::place_of(all, one) implies all[i] != one by {
            if i > 0 {
                assert(all[i] == rest[i - 1]);
            }
        }
    }
}

proof fn lemma_only_place(all: Seq<Seq<char>>, k: int)
    requires
        0 <= k < all.len(),
        forall|i: int, j: int| 0 <= i < j < all.len() ==> all[i] != all[j],
    ensures
        session::place_of(all, all[k]) == k,
{
    lemma_first_place(all, all[k]);
}

/// What comes first of a thing's occurrences is found.
pub proof fn the_first_of_a_name_is_found(all: Seq<Seq<char>>, one: Seq<char>)
    ensures
        ({
            let k = session::place_of(all, one);
            &&& all.contains(one) ==> 0 <= k < all.len() && all[k] == one
            &&& !all.contains(one) ==> k == all.len()
            &&& forall|i: int| 0 <= i < k ==> all[i] != one
        }),
{
    lemma_first_place(all, one);
    if session::place_of(all, one) < all.len() {
        assert(all.contains(one));
    }
}

/// No plugin is forgotten: after each step, one that was loaded is loaded still, under its name and its
/// number, unless the step was to unload it.
pub proof fn no_plugin_is_forgotten(v: SessionView, ev: EventView, k: int)
    requires
        v.wf(),
        0 <= k < v.names.len(),
    ensures
        ({
            let (after, reply) = session::stepped(v, ev);
            ||| loaded(after, v.names[k], v.tokens[k])
            ||| reply.action == ActionView::Unload(v.tokens[k])
            ||| reply.action matches ActionView::Finish(all) && all.contains(v.tokens[k])
        }),
{
    let (after, reply) = session::stepped(v, ev);
    match (v.stage, ev) {
        (_, EventView::End) => {
            assert(v.tokens.contains(v.tokens[k]));
        },
        (StageView::Idle, EventView::Line(line)) => {
            let c = crate::host::script::command_of(line);
            if c is Unload {
                let name = c->Unload_0;
                let p = session::place_of(v.names, name);
                lemma_first_place(v.names, name);
                if p < v.names.len() {
                    if k < p {
                        assert(after.names[k] == v.names[k] && after.tokens[k] == v.tokens[k]);
                    } else if k > p {
                        assert(after.names[k - 1] == v.names[k] && after.tokens[k - 1] == v.tokens[k]);
                    }
                } else {
                    assert(after.names[k] == v.names[k]);
                }
            } else {
                assert(after.names[k] == v.names[k] && after.tokens[k] == v.tokens[k]);
            }
        },
        (StageView::Loading { name }, EventView::Loaded(Ok(token))) => {
            let p = session::place_of(v.names, name);
            lemma_first_place(v.names, name);
            assert(after.names[k] == v.names[k]);
        },
        _ => {
            assert(after.names[k] == v.names[k] && after.tokens[k] == v.tokens[k]);
        },
    }
}

/// A plugin that was loaded is known by the name that it was loaded under. One that had the name before is
/// unloaded; no other is.
pub proof fn who_is_loaded_is_known(v: SessionView, name: Seq<char>, token: u64)
    requires
        v.wf(),
        v.stage == (StageView::Loading { name }),
    ensures
        ({
            let (after, reply) = session::stepped(v, EventView::Loaded(Ok(token)));
            &&& loaded(after, name, token)
            &&& after.wf()
            &&& after.stage == StageView::Idle
            &&& forall|old_token: u64| #[trigger] loaded(v, name, old_token) ==> reply.action == ActionView::Unload(old_token)
            &&& !v.names.contains(name) ==> reply.action == ActionView::ReadLine
            &&& reply.note == Some((false, "OK load "@ + name))
        }),
{
    let (after, reply) = session::stepped(v, EventView::Loaded(Ok(token)));
    let p = session::place_of(v.names, name);
    lemma_first_place(v.names, name);
    if p < v.names.len() {
        assert(v.names.contains(name));
        assert(after.names[p] == name && after.tokens[p] == token);
        assert forall|old_token: u64| #[trigger] loaded(v, name, old_token) implies reply.action == ActionView::Unload(old_token) by {
            let k = choose|k: int| 0 <= k < v.names.len() && #[trigger] v.names[k] == name && v.tokens[k] == old_token;
            lemma_only_place(v.names, k);
        }
    } else {
        let last = v.names.len() as int;
        assert(after.names[last] == name && after.tokens[last] == token);
    }
}

/// A request goes to the plugin that is loaded under the name, and to unload a name unloads that plugin; it
/// is then not known any more, and nothing else has changed. Where no plugin has the name, that is said, and
/// nothing changes.
pub proof fn plugins_are_called_by_their_names(v: SessionView, name: Seq<char>, token: u64, payload: Seq<char>)
    requires
        v.wf(),
        v.stage == StageView::Idle,
    ensures
        ({
            let (sent, request) = session::commanded(v, CommandView::Send(name, payload));
            let (left, unload) = session::commanded(v, CommandView::Unload(name));
            &&& loaded(v, name, token) ==> {
                &&& request.action == ActionView::Request(token, v.tests as u64, payload)
                &&& sent.names == v.names && sent.tokens == v.tokens
                &&& unload.action == ActionView::Unload(token)
                &&& !left.names.contains(name)
                &&& forall|n: Seq<char>, t: u64| n != name ==> (#[trigger] loaded(left, n, t) <==> loaded(v, n, t))
            }
            &&& !v.names.contains(name) ==> {
                &&& sent == v && left == v
                &&& request.action == ActionView::ReadLine && request.note == Some((true, "NOT_FOUND: "@ + name))
                &&& unload.action == ActionView::ReadLine && unload.note == Some((true, "NOT_FOUND: "@ + name))
            }
        }),
{
    let (left, unload) = session::commanded(v, CommandView::Unload(name));
    let p = session::place_of(v.names, name);
    lemma_first_place(v.names, name);
    if loaded(v, name, token) {
        let k = choose|k: int| 0 <= k < v.names.len() && #[trigger] v.names[k] == name && v.tokens[k] == token;
        lemma_only_place(v.names, k);
        if left.names.contains(name) {
            let i = choose|i: int| 0 <= i < left.names.len() && left.names[i] == name;
            if i < p {
                assert(v.names[i] == name);
            } else {
                assert(v.names[i + 1] == name);
            }
        }
        assert forall|n: Seq<char>, t: u64| n != name implies (#[trigger] loaded(left, n, t) <==> loaded(v, n, t)) by {
            if loaded(left, n, t) {
                let i = choose|i: int| 0 <= i < left.names.len() && #[trigger] left.names[i] == n && left.tokens[i] == t;
                if i < p {
                    assert(v.names[i] == n && v.tokens[i] == t);
                } else {
                    assert(v.names[i + 1] == n && v.tokens[i + 1] == t);
                }
            }
            if loaded(v, n, t) {
                let i = choose|i: int| 0 <= i < v.names.len() && #[trigger] v.names[i] == n && v.tokens[i] == t;
                if i < p {
                    assert(left.names[i] == n && left.tokens[i] == t);
                } else {
                    assert(left.names[i - 1] == n && left.tokens[i - 1] == t);
                }
            }
        }
    }
    if !v.names.contains(name) && p < v.names.len() {
        assert(v.names[p] == name);
    }
}

/// A path that was compiled is not compiled again: its library is loaded at once, and stays known whatever
/// happens. Any other path is asked about first.
pub proof fn a_path_is_compiled_once(v: SessionView, ev: EventView, name: Seq<char>, path: Seq<char>)
    requires
        v.wf(),
    ensures
        ({
            let (after, _) = session::stepped(v, ev);
            &&& v.sources.is_prefix_of(after.sources)
            &&& v.libraries.is_prefix_of(after.libraries)
            &&& after.sources.len() == after.libraries.len()
        }),
        ({
            let (next, reply) = session::commanded(v, CommandView::Load(name, path));
            &&& v.sources.contains(path) ==> {
                &&& next.stage == (StageView::Loading { name })
                &&& exists|k: int|
                    0 <= k < v.sources.len() && #[trigger] v.sources[k] == path && reply.action == ActionView::Load(v.libraries[k])
            }
            &&& !v.sources.contains(path) ==> next.stage == (StageView::Asking { name, path }) && reply.action
                == ActionView::AskIsDir(path)
        }),
{
    lemma_first_place(v.sources, path);
    let k = session::place_of(v.sources, path);
    if k < v.sources.len() {
        assert(v.sources[k] == path);
    }
    let (after, _) = session::stepped(v, ev);
    if v.stage is Idle && ev is Line {
        assert(after.sources == v.sources && after.libraries == v.libraries);
    }
}

/// The library that was compiled for a path is the one that is loaded, now and later.
pub proof fn what_was_compiled_is_loaded(v: SessionView, name: Seq<char>, path: Seq<char>, lib: Seq<char>, again: Seq<char>)
    requires
        v.wf(),
        v.stage == (StageView::Compiling { name, path }),
        !v.sources.contains(path),
    ensures
        ({
            let (after, reply) = session::stepped(v, EventView::Compiled(Ok(lib)));
            &&& reply.action == ActionView::Load(lib)
            &&& after.stage == (StageView::Loading { name })
            &&& session::commanded(after, CommandView::Load(again, path)).1.action == ActionView::Load(lib)
        }),
{
    let (after, _) = session::stepped(v, EventView::Compiled(Ok(lib)));
    let k = session::place_of(after.sources, path);
    lemma_first_place(after.sources, path);
    let last = v.sources.len() as int;
    assert(after.sources[last] == path);
    if k < last {
        assert(v.sources[k] == path);
    }
}

/// A directory is compiled before it is loaded, and anything else is loaded as it is.
pub proof fn directories_are_compiled(v: SessionView, name: Seq<char>, path: Seq<char>)
    requires
        v.stage == (StageView::Asking { name, path }),
    ensures
        session::stepped(v, EventView::IsDir(true)).1.action == ActionView::Compile(path),
        session::stepped(v, EventView::IsDir(true)).0.stage == (StageView::Compiling { name, path }),
        session::stepped(v, EventView::IsDir(false)).1.action == ActionView::Load(path),
        session::stepped(v, EventView::IsDir(false)).0.stage == (StageView::Loading { name }),
{
}

/// What could not be done is said, with the reason, and the run goes on with the next line: the plugins are
/// as they were.
pub proof fn failures_are_said(v: SessionView, name: Seq<char>, path: Seq<char>, e: Seq<char>)
    ensures
        v.stage == (StageView::Compiling { name, path }) ==> {
            let (after, reply) = session::stepped(v, EventView::Compiled(Err(e)));
            &&& reply.note == Some((true, "COMPILE_FAIL: "@ + e)) && reply.action == ActionView::ReadLine
            &&& after == (SessionView { stage: StageView::Idle, ..v })
        },
        v.stage == (StageView::Loading { name }) ==> {
            let (after, reply) = session::stepped(v, EventView::Loaded(Err(e)));
            &&& reply.note == Some((true, "LOAD_FAIL "@ + name + ": "@ + e)) && reply.action == ActionView::ReadLine
            &&& after == (SessionView { stage: StageView::Idle, ..v })
        },
{
}

/// Every assertion counts, and nothing else does: it has passed exactly if the resource was there and should
/// be, or was not and should not.
pub proof fn assertions_are_counted(v: SessionView, ev: EventView)
    requires
        v.wf(),
    ensures
        ({
            let (after, _) = session::stepped(v, ev);
            match (v.stage, ev) {
                (StageView::Checking { name, wanted }, EventView::Resource(there)) => {
                    &&& after.tests == v.tests + 1
                    &&& wanted == there ==> after.passed == v.passed + 1 && after.failed == v.failed
                    &&& wanted != there ==> after.passed == v.passed && after.failed == v.failed + 1
                },
                _ => after.tests == v.tests && after.passed == v.passed && after.failed == v.failed,
            }
        }),
{
}

/// A run that ends unloads every plugin that is loaded, in whatever stage it is.
pub proof fn a_run_ends_with_all_unloaded(v: SessionView)
    requires
        v.wf(),
    ensures
        ({
            let (after, reply) = session::stepped(v, EventView::End);
            &&& reply.action == ActionView::Finish(v.tokens)
            &&& after.names.len() == 0 && after.tokens.len() == 0
            &&& after.stage == StageView::Idle
        }),
{
}

// ---------------------------------------------------------------------------
// Trials
// ---------------------------------------------------------------------------

/// So many requests have been served since the plugin was loaded.
pub open spec fn served(t: Reload, n: nat) -> Reload
    decreases n,
{
    if n == 0 {
        t
    } else {
        reload::reload_step(served(t, (n - 1) as nat), ReloadEvent::Served).0
    }
}

proof fn lemma_served(t: Reload, n: nat)
    requires
        t.served == 0,
        n <= reload::REQUESTS,
    ensures
        served(t, n) == (Reload { again: t.again, served: n as u64 }),
    decreases n,
{
    if n > 0 {
        lemma_served(t, (n - 1) as nat);
    }
}

/// Each time that the plugin is loaded it is asked three times, each time with a request of its own, and
/// unloaded after the third. The first time it is loaded again after a pause, the second time the trial is
/// over.
pub proof fn a_trial_takes_its_course(t: Reload, n: nat)
    requires
        n < reload::REQUESTS,
    ensures
        ({
            let (fresh, _, first) = reload::reload_step(t, ReloadEvent::Loaded(Ok(())));
            let (_, _, next) = reload::reload_step(served(fresh, n), ReloadEvent::Served);
            &&& first matches ReloadActionView::Serve(id, _) && id == (if t.again {
                100int
            } else {
                0
            })
            &&& n + 1 < reload::REQUESTS ==> (next matches ReloadActionView::Serve(id, _) && id == n + 1 + (if t.again {
                100int
            } else {
                0
            }))
            &&& n + 1 == reload::REQUESTS ==> next == ReloadActionView::Unload
        }),
        reload::REQUESTS == 3,
        reload::PAUSE == 100,
        ({
            let (after, _, next) = reload::reload_step(t, ReloadEvent::Unloaded);
            &&& t.again ==> next == ReloadActionView::Finish
            &&& !t.again ==> next == ReloadActionView::Sleep(reload::PAUSE)
            &&& after.again == t.again
        }),
        ({
            let (after, _, next) = reload::reload_step(t, ReloadEvent::Slept);
            after.again && next == ReloadActionView::Load
        }),
        ({
            let (after, _, next) = reload::reload_step(t, ReloadEvent::Start);
            !after.again && next == ReloadActionView::Load
        }),
{
    let (fresh, _, _) = reload::reload_step(t, ReloadEvent::Loaded(Ok(())));
    lemma_served(fresh, n);
}

/// A plugin that cannot be loaded ends the trial, and the reason is said as an error; nothing else is.
pub proof fn a_trial_says_what_failed(t: Reload, ev: ReloadEvent)
    ensures
        ({
            let (_, notes, next) = reload::reload_step(t, ev);
            match ev {
                ReloadEvent::Loaded(Err(e)) => {
                    &&& next == ReloadActionView::Finish
                    &&& notes.len() == 1 && notes[0].0
                    &&& e@.is_suffix_of(notes[0].1)
                },
                _ => forall|i: int| 0 <= i < notes.len() ==> !(#[trigger] notes[i]).0,
            }
        }),
{
    let (_, notes, next) = reload::reload_step(t, ev);
    match ev {
        ReloadEvent::Loaded(Err(e)) => {
            let n = notes[0].1;
            assert(n.subrange(n.len() - e@.len(), n.len() as int) =~= e@);
        },
        _ => {},
    }
}

// ---------------------------------------------------------------------------
// Tasks
// ---------------------------------------------------------------------------

/// Of the tasks of a plugin, those are freed that are still there and cancelled: all of them, in order, and
/// no others.
pub proof fn exactly_the_cancelled_are_freed<P, W>(v: ExecState<P, W>, ids: Seq<u32>)
    ensures
        plugin::cancelled_of(v, ids) == ids.filter(|id: u32| v.has(id) && v.slot(id).state == STATE_CANCELLED),
    decreases ids.len(),
{
    reveal(Seq::filter);
    if ids.len() > 0 {
        exactly_the_cancelled_are_freed(v, ids.drop_last());
    } else {
        assert(plugin::cancelled_of(v, ids) =~= Seq::<u32>::empty());
    }
}

/// Is the task one that a round brings further: known, and not complete?
pub open spec fn in_work<P>(tasks: Map<u64, Task<P>>, id: u64) -> bool {
    tasks.dom().contains(id) && !tasks[id].completed
}

/// Each outcome of a round is of another task.
pub open spec fn apart<P>(outcomes: Seq<Outcome<P>>) -> bool {
    forall|i: int, j: int| 0 <= i < j < outcomes.len() ==> (#[trigger] outcomes[i]).task_id != (#[trigger] outcomes[j]).task_id
}

/// After a round every task that was polled has its payload back, and is complete exactly if its poll said
/// so. All other tasks are as they were: those that were not polled, and those that were complete before.
pub proof fn a_round_brings_payloads_back<P>(tasks: Map<u64, Task<P>>, outcomes: Seq<Outcome<P>>)
    requires
        apart(outcomes),
    ensures
        ({
            let (after, n) = single::round_over(tasks, outcomes);
            &&& after.dom() == tasks.dom()
            &&& forall|i: int|
                0 <= i < outcomes.len() && in_work(tasks, (#[trigger] outcomes[i]).task_id) ==> after[outcomes[i].task_id] == (Task {
                    payload: Some(outcomes[i].payload),
                    completed: outcomes[i].ready,
                })
            &&& forall|id: u64|
                tasks.dom().contains(id) && (!in_work(tasks, id) || forall|i: int| 0 <= i < outcomes.len() ==> outcomes[i].task_id != id)
                    ==> #[trigger] after[id] == tasks[id]
            &&& n == outcomes.filter(|o: Outcome<P>| in_work(tasks, o.task_id) && o.ready).len()
        }),
    decreases outcomes.len(),
{
    reveal(Seq::filter);
    let p = |o: Outcome<P>| in_work(tasks, o.task_id) && o.ready;
    let (after, n) = single::round_over(tasks, outcomes);
    if outcomes.len() == 0 {
        assert(outcomes.filter(p).len() == 0);
    } else {
        let less = outcomes.drop_last();
        let o = outcomes.last();
        assert(apart(less)) by {
            assert forall|i: int, j: int| 0 <= i < j < less.len() implies (#[trigger] less[i]).task_id != (#[trigger] less[j]).task_id by {
                assert(less[i] == outcomes[i] && less[j] == outcomes[j]);
            }
        }
        a_round_brings_payloads_back(tasks, less);
        let (before, m) = single::round_over(tasks, less);
        assert(forall|i: int| 0 <= i < less.len() ==> less[i].task_id != o.task_id) by {
            assert forall|i: int| 0 <= i < less.len() implies less[i].task_id != o.task_id by {
                assert(less[i] == outcomes[i]);
                assert(outcomes[outcomes.len() - 1] == o);
            }
        }
        if tasks.dom().contains(o.task_id) {
            assert(before[o.task_id] == tasks[o.task_id]);
        }
        assert(in_work(before, o.task_id) == in_work(tasks, o.task_id));
        assert(after.dom() =~= tasks.dom());
        assert forall|i: int| 0 <= i < outcomes.len() && in_work(tasks, (#[trigger] outcomes[i]).task_id) implies after[outcomes[i].task_id] == (
        Task { payload: Some(outcomes[i].payload), completed: outcomes[i].ready }) by {
            if i < less.len() {
                assert(less[i] == outcomes[i]);
                assert(outcomes[i].task_id != o.task_id);
            }
        }
        assert forall|id: u64|
            tasks.dom().contains(id) && (!in_work(tasks, id) || forall|i: int| 0 <= i < outcomes.len() ==> outcomes[i].task_id != id) implies #[trigger] after[id]
            == tasks[id] by {
            if in_work(tasks, id) {
                assert(outcomes[outcomes.len() - 1].task_id != id);
                assert forall|i: int| 0 <= i < less.len() implies less[i].task_id != id by {
                    assert(outcomes[i].task_id != id);
                }
            }
            assert(before[id] == tasks[id]);
        }
        assert(outcomes.filter(p) == if p(o) {
            less.filter(p).push(o)
        } else {
            less.filter(p)
        });
    }
}

// ---------------------------------------------------------------------------
// Builds
// ---------------------------------------------------------------------------

/// No step of a build is left out: each comes after exactly one other, but for the first one and the build
/// itself, which comes where no earlier one is good.
pub proof fn no_step_is_left_out(step: CompileStep, other: CompileStep)
    ensures
        step != CompileStep::Canonicalize && step != CompileStep::Build ==> exists|before: CompileStep|
            #[trigger] course::following(before) == Some(step),
        course::following(step) == course::following(other) && course::following(step) is Some ==> step == other,
        course::following(step) != Some(CompileStep::Canonicalize),
        course::following(step) != Some(CompileStep::Build),
        course::following(step) is None <==> step == CompileStep::CheckFresh || step == CompileStep::CopyArtifact,
        course::following(step) != Some(step),
{
    match step {
        CompileStep::CheckManifest => {
            assert(course::following(CompileStep::Canonicalize) == Some(step));
        },
        CompileStep::ReadName => {
            assert(course::following(CompileStep::CheckManifest) == Some(step));
        },
        CompileStep::MakeCache => {
            assert(course::following(CompileStep::ReadName) == Some(step));
        },
        CompileStep::CheckFresh => {
            assert(course::following(CompileStep::MakeCache) == Some(step));
        },
        CompileStep::CheckArtifact => {
            assert(course::following(CompileStep::Build) == Some(step));
        },
        CompileStep::MakePlugins => {
            assert(course::following(CompileStep::CheckArtifact) == Some(step));
        },
        CompileStep::CopyArtifact => {
            assert(course::following(CompileStep::MakePlugins) == Some(step));
        },
        _ => {},
    }
}

/// A build that has failed says why: the message ends with the reason of the step that failed, and with what
/// the build tool said.
pub proof fn failed_builds_say_why(
    step: CompileStep,
    e: String,
    out: String,
    err: String,
    source: Seq<char>,
    artifact: Seq<char>,
    place: Seq<char>,
)
    requires
        course::possible(step, StepResult::Failed(e)),
    ensures
        e@.is_suffix_of(course::message_of(course::error_of(step, StepResult::Failed(e)), source, artifact, place)),
        ({
            let m = course::message_of(course::error_of(CompileStep::Build, StepResult::BuildFailed(out, err)), source, artifact, place);
            (out@ + "\n"@ + err@).is_suffix_of(m)
        }),
{
    let m = course::message_of(course::error_of(step, StepResult::Failed(e)), source, artifact, place);
    assert(m.subrange(m.len() - e@.len(), m.len() as int) =~= e@);
    let b = course::message_of(course::error_of(CompileStep::Build, StepResult::BuildFailed(out, err)), source, artifact, place);
    let s = out@ + "\n"@ + err@;
    assert(b.subrange(b.len() - s.len(), b.len() as int) =~= s);
}

/// The error tells which step has failed.
pub proof fn errors_tell_the_step(a: CompileStep, b: CompileStep, r: StepResult, s: StepResult)
    requires
        course::possible(a, r),
        course::possible(b, s),
        !(r is Yes),
        !(s is Yes),
        a != CompileStep::CheckFresh,
        b != CompileStep::CheckFresh,
        course::error_of(a, r) == course::error_of(b, s),
    ensures
        a == b,
        r == s,
{
}

// ---------------------------------------------------------------------------
// The order of plugins
// ---------------------------------------------------------------------------

proof fn lemma_common(p: Seq<int>, a: Seq<int>, b: Seq<int>)
    ensures
        discover::key_less(p + a, p + b) == discover::key_less(a, b),
    decreases p.len(),
{
    if p.len() == 0 {
        assert(p + a =~= a);
        assert(p + b =~= b);
    } else {
        lemma_common(p.drop_first(), a, b);
        assert((p + a).drop_first() =~= p.drop_first() + a);
        assert((p + b).drop_first() =~= p.drop_first() + b);
    }
}

/// The order of sort keys is that of a dictionary: what two keys have in common does not count, then the
/// smaller one comes first; a key comes before those that go on behind it.
pub proof fn keys_are_ordered_like_words(p: Seq<int>, x: int, a: Seq<int>, y: int, b: Seq<int>)
    ensures
        discover::key_less(p + seq![x] + a, p + seq![y] + b) <== x < y,
        discover::key_less(p, p + seq![y] + b),
        !discover::key_less(p + seq![y] + b, p),
        !discover::key_less(p, p),
{
    let empty = Seq::<int>::empty();
    lemma_common(p, seq![x] + a, seq![y] + b);
    assert(p + seq![x] + a =~= p + (seq![x] + a));
    assert(p + seq![y] + b =~= p + (seq![y] + b));
    assert((seq![x] + a)[0] == x && (seq![y] + b)[0] == y);
    lemma_common(p, empty, seq![y] + b);
    lemma_common(p, seq![y] + b, empty);
    lemma_common(p, empty, empty);
    assert(p + empty =~= p);
}

/// A plain name: not empty, not `.` and not `..`, and without a slash.
pub open spec fn plain(name: Seq<char>) -> bool {
    name.len() > 0 && name != seq!['.'] && name != seq!['.', '.'] && !name.contains('/')
}

proof fn lemma_pieces_key(pieces: Seq<Seq<char>>, more: Seq<Seq<char>>, n: int)
    requires
        0 <= n <= pieces.len(),
        pieces.len() > 1,
    ensures
        discover::pieces_key(pieces + more, n) == discover::pieces_key(pieces, n),
    decreases n,
{
    if n > 0 {
        lemma_pieces_key(pieces, more, n - 1);
        assert((pieces + more)[n - 1] == pieces[n - 1]);
    }
}

/// What stands in a directory stands behind the directory, and of two entries of it that one comes first
/// whose name does: a name comes before those that it is the start of, and where two names part, the smaller
/// character decides.
pub proof fn entries_are_ordered_by_name(dir: Seq<char>, p: Seq<char>, x: char, a: Seq<char>, y: char, b: Seq<char>)
    requires
        dir.contains('/'),
        plain(p + seq![x] + a),
        plain(p + seq![y] + b),
    ensures
        ({
            let one = dir.push('/') + (p + seq![x] + a);
            let other = dir.push('/') + (p + seq![y] + b);
            &&& discover::key_less(discover::path_key(dir), discover::path_key(one))
            &&& (x as u32) < (y as u32) ==> discover::key_less(discover::path_key(one), discover::path_key(other))
            &&& plain(p) ==> discover::key_less(discover::path_key(dir.push('/') + p), discover::path_key(one))
        }),
{
    let f = |c: char| (c as u32 + 1) as int;
    lemma_more_pieces(dir);
    let d = discover::path_key(dir);
    lemma_entry_key(dir, p + seq![x] + a);
    lemma_entry_key(dir, p + seq![y] + b);
    let kx = discover::component_key(3, p + seq![x] + a);
    let ky = discover::component_key(3, p + seq![y] + b);
    let empty = Seq::<int>::empty();
    lemma_common(d, empty, kx);
    assert(d + empty =~= d);
    let front = seq![3int] + p.map_values(f);
    let ax = a.map_values(f) + seq![0int];
    let by = b.map_values(f) + seq![0int];
    assert(kx =~= front + seq![f(x)] + ax);
    assert(ky =~= front + seq![f(y)] + by);
    keys_are_ordered_like_words(front, f(x), ax, f(y), by);
    lemma_common(d, kx, ky);
    if plain(p) {
        lemma_entry_key(dir, p);
        let kp = discover::component_key(3, p);
        assert(kp =~= front + seq![0int] + empty);
        keys_are_ordered_like_words(front, 0, empty, f(x), ax);
        lemma_common(d, kp, kx);
    }
}

proof fn lemma_more_pieces(dir: Seq<char>)
    requires
        dir.contains('/'),
    ensures
        text::split_on(dir, '/').len() > 1,
{
    let k = choose|k: int| 0 <= k < dir.len() && dir[k] == '/';
    let a = dir.take(k);
    let b = dir.skip(k + 1);
    assert(dir =~= a.push('/') + b);
    text::separators_separate(a, '/', b);
    text::lemma_split_on_nonempty(a, '/');
    text::lemma_split_on_nonempty(b, '/');
}

proof fn lemma_entry_key(dir: Seq<char>, name: Seq<char>)
    requires
        dir.contains('/'),
        plain(name),
    ensures
        discover::path_key(dir.push('/') + name) == discover::path_key(dir) + discover::component_key(3, name),
{
    let pieces = text::split_on(dir, '/');
    lemma_more_pieces(dir);
    text::separators_separate(dir, '/', name);
    text::a_piece_stays_whole(name, '/');
    let all = pieces + seq![name];
    let n = pieces.len() as int;
    lemma_pieces_key(pieces, seq![name], n);
    assert(all[n] == name);
    assert(text::split_on(dir.push('/') + name, '/') =~= all);
}

/// No step of a plain build is left out: each comes after exactly one other, but for the first one; and none
/// comes behind the last.
pub proof fn no_plain_step_is_left_out(step: BuildStep, other: BuildStep)
    ensures
        step != BuildStep::Canonicalize ==> exists|before: BuildStep| #[trigger] standalone::next_step(before) == Some(step),
        standalone::next_step(step) == standalone::next_step(other) ==> step == other,
        standalone::next_step(step) != Some(BuildStep::Canonicalize),
        standalone::next_step(step) is None <==> step == BuildStep::CopyArtifact,
{
    match step {
        BuildStep::CheckManifest => {
            assert(standalone::next_step(BuildStep::Canonicalize) == Some(step));
        },
        BuildStep::MakeCache => {
            assert(standalone::next_step(BuildStep::CheckManifest) == Some(step));
        },
        BuildStep::Build => {
            assert(standalone::next_step(BuildStep::MakeCache) == Some(step));
        },
        BuildStep::ReadName => {
            assert(standalone::next_step(BuildStep::Build) == Some(step));
        },
        BuildStep::CheckArtifact => {
            assert(standalone::next_step(BuildStep::ReadName) == Some(step));
        },
        BuildStep::CopyArtifact => {
            assert(standalone::next_step(BuildStep::CheckArtifact) == Some(step));
        },
        _ => {},
    }
}

/// A plain build that has failed says why, whichever step it was.
pub proof fn failed_plain_builds_say_why(
    step: BuildStep,
    e: String,
    out: String,
    err: String,
    source: Seq<char>,
    artifact: Seq<char>,
    place: Seq<char>,
)
    requires
        standalone::can_come(step, StepResult::Failed(e)),
    ensures
        e@.is_suffix_of(standalone::failure_of(step, StepResult::Failed(e), source, artifact, place)),
        (out@ + "\n"@ + err@).is_suffix_of(
            standalone::failure_of(BuildStep::Build, StepResult::BuildFailed(out, err), source, artifact, place),
        ),
{
    let m = standalone::failure_of(step, StepResult::Failed(e), source, artifact, place);
    assert(m.subrange(m.len() - e@.len(), m.len() as int) =~= e@);
    let b = standalone::failure_of(BuildStep::Build, StepResult::BuildFailed(out, err), source, artifact, place);
    let s = out@ + "\n"@ + err@;
    assert(b.subrange(b.len() - s.len(), b.len() as int) =~= s);
}

/// Of every assertion it is said, with its name, whether it has passed: exactly if the resource was there and
/// should be, or was not and should not.
pub proof fn verdicts_say_what_came(v: SessionView, name: Seq<char>, wanted: bool, there: bool)
    requires
        v.stage == (StageView::Checking { name, wanted }),
    ensures
        ({
            let (_, reply) = session::stepped(v, EventView::Resource(there));
            &&& reply.action == ActionView::ReadLine
            &&& reply.note matches Some((error, said))
            &&& !error
            &&& wanted == there ==> "PASS "@.is_prefix_of(said) && name.is_suffix_of(said)
            &&& wanted != there ==> "FAIL "@.is_prefix_of(said) && exists|front: Seq<char>, back: Seq<char>|
                said == #[trigger] (front + name + back)
        }),
{
    reveal_strlit("PASS ");
    reveal_strlit("FAIL ");
    reveal_strlit("PASS assert_resource ");
    reveal_strlit("FAIL assert_resource ");
    reveal_strlit("PASS assert_no_resource ");
    reveal_strlit("FAIL assert_no_resource ");
    let said = session::verdict(name, wanted, wanted == there);
    if wanted == there {
        assert(said.subrange(0, 5) =~= "PASS "@);
        assert(said.subrange(said.len() - name.len(), said.len() as int) =~= name);
    } else {
        assert(said.subrange(0, 5) =~= "FAIL "@);
        if wanted {
            assert(said =~= "FAIL assert_resource "@ + name + " — not found"@);
        } else {
            assert(said =~= "FAIL assert_no_resource "@ + name + " — still exists"@);
        }
    }
}

/// The requests of a trial are numbered, from the first one on, and tell whether the plugin was loaded again.
pub proof fn requests_are_numbered(t: Reload)
    ensures
        reload::request(t) matches ReloadActionView::Serve(_, payload) && words::numeral(t.served as nat, 10).is_suffix_of(payload)
            && (t.again <==> "reload "@.is_prefix_of(payload)),
{
    reveal_strlit("reload ");
    reveal_strlit("reload test");
    reveal_strlit("test");
    let n = words::numeral(t.served as nat, 10);
    let payload = reload::request(t)->Serve_1;
    assert(payload.subrange(payload.len() - n.len(), payload.len() as int) =~= n);
    if t.again {
        assert(payload.subrange(0, 7) =~= "reload "@);
    } else if "reload "@.is_prefix_of(payload) {
        assert(payload[0] == 't');
        assert(payload.subrange(0, 7)[0] == payload[0]);
    }
}

proof fn lemma_all_freed<P, W>(v: ExecState<P, W>, c: Seq<u32>, i: int)
    requires
        forall|k: int| 0 <= k < c.len() ==> v.has(#[trigger] c[k]),
        0 <= i < v.slots.len(),
    ensures
        ({
            let after = executor::all_freed(v, c);
            &&& after.slots.len() == v.slots.len()
            &&& after.free == v.free + c
            &&& after.ready == v.ready && after.hot == v.hot && after.remote == v.remote && after.next_handle == v.next_handle
            &&& (exists|k: int| 0 <= k < c.len() && #[trigger] c[k] == i) ==> after.slots[i].state == STATE_EMPTY
                && after.slots[i].storage is None && after.slots[i].generation == v.slots[i].generation
            &&& !(exists|k: int| 0 <= k < c.len() && #[trigger] c[k] == i) ==> after.slots[i] == v.slots[i]
        }),
    decreases c.len(),
{
    let after = executor::all_freed(v, c);
    if c.len() == 0 {
        assert(v.free + c =~= v.free);
    } else {
        let d = c.drop_last();
        assert forall|k: int| 0 <= k < d.len() implies v.has(#[trigger] d[k]) by {
            assert(v.has(c[k]));
        }
        lemma_all_freed(v, d, i);
        assert(v.has(c[c.len() - 1]));
        assert((v.free + d).push(c.last()) =~= v.free + c);
        let before = executor::all_freed(v, d);
        if c.last() == i {
            assert(c[c.len() - 1] == i);
            if exists|k: int| 0 <= k < d.len() && #[trigger] d[k] == i {
            } else {
                assert(before.slots[i] == v.slots[i]);
            }
        } else {
            assert(after.slots[i] == before.slots[i]);
            if exists|k: int| 0 <= k < d.len() && #[trigger] d[k] == i {
                let k = choose|k: int| 0 <= k < d.len() && #[trigger] d[k] == i;
                assert(c[k] == i);
            }
            if exists|k: int| 0 <= k < c.len() && #[trigger] c[k] == i {
                let k = choose|k: int| 0 <= k < c.len() && #[trigger] c[k] == i;
                assert(d[k] == i);
            }
        }
    }
}

proof fn lemma_filtered_within(s: Seq<u32>, p: spec_fn(u32) -> bool, k: int)
    requires
        0 <= k < s.filter(p).len(),
    ensures
        s.contains(s.filter(p)[k]),
        p(s.filter(p)[k]),
    decreases s.len(),
{
    reveal(Seq::filter);
    if s.len() > 0 {
        let d = s.drop_last();
        if k < d.filter(p).len() {
            lemma_filtered_within(d, p, k);
            let j = choose|j: int| 0 <= j < d.len() && d[j] == d.filter(p)[k];
            assert(s[j] == d.filter(p)[k]);
        } else {
            assert(s[s.len() - 1] == s.filter(p)[k]);
        }
    }
}

/// Once what is left of a plugin's tasks has been dropped, the slots of those that were cancelled are empty and
/// free, in the order in which they were dropped; all other slots are as they were, and so are the queues. If
/// there were any tasks, no timer is left.
pub proof fn dropped_tasks_free_their_slots<P, W>(v: ExecState<P, W>, ids: Seq<u32>, i: int)
    requires
        0 <= i < v.slots.len(),
        v.slots.len() <= MAX_SLOTS,
    ensures
        ({
            let after = plugin::tasks_gone(v, ids);
            let freed = ids.filter(|id: u32| id < v.slots.len() && v.slots[id as int].state == STATE_CANCELLED);
            &&& after.slots.len() == v.slots.len()
            &&& after.free == v.free + freed
            &&& after.ready == v.ready && after.hot == v.hot && after.remote == v.remote
            &&& ids.contains(i as u32) && v.slots[i].state == STATE_CANCELLED ==> after.slots[i].state == STATE_EMPTY
                && after.slots[i].generation == v.slots[i].generation
            &&& !(ids.contains(i as u32) && v.slots[i].state == STATE_CANCELLED) ==> after.slots[i] == v.slots[i]
            &&& ids.len() == 0 ==> after == v
            &&& ids.len() > 0 ==> after.timers.len() == 0
        }),
{
    broadcast use vstd::seq_lib::group_filter_ensures;

    let p = |id: u32| v.has(id) && v.slot(id).state == STATE_CANCELLED;
    let q = |id: u32| id < v.slots.len() && v.slots[id as int].state == STATE_CANCELLED;
    assert(p =~= q);
    let c = ids.filter(p);
    exactly_the_cancelled_are_freed(v, ids);
    assert(plugin::cancelled_of(v, ids) == c);
    assert forall|k: int| 0 <= k < c.len() implies v.has(#[trigger] c[k]) && v.slot(c[k]).state == STATE_CANCELLED && ids.contains(c[k]) by {
        lemma_filtered_within(ids, p, k);
    }
    if ids.len() > 0 {
        lemma_all_freed(v, c, i);
        if ids.contains(i as u32) && v.slots[i].state == STATE_CANCELLED {
            assert(p(i as u32));
            assert(c.contains(i as u32));
            let k = choose|k: int| 0 <= k < c.len() && c[k] == i as u32;
            assert(c[k] == i);
        } else if exists|k: int| 0 <= k < c.len() && #[trigger] c[k] == i {
            let k = choose|k: int| 0 <= k < c.len() && #[trigger] c[k] == i;
            assert(c[k] == i as u32);
        }
    } else {
        reveal(Seq::filter);
        assert(v.free + c =~= v.free);
    }
}

proof fn lemma_first_kind(pieces: Seq<Seq<char>>, n: int, kind: int)
    requires
        1 <= n <= pieces.len(),
        kind == 0 <==> pieces[0].len() == 0,
        kind == 0 ==> pieces.len() > 1,
        kind == 1 <==> pieces[0] == seq!['.'],
        kind == 2 <==> pieces[0] == seq!['.', '.'],
        0 <= kind <= 3,
    ensures
        discover::pieces_key(pieces, n).len() > 0,
        discover::pieces_key(pieces, n)[0] == kind,
    decreases n,
{
    if n == 1 {
        let none = discover::pieces_key(pieces, 0);
        assert(none.len() == 0);
    } else {
        lemma_first_kind(pieces, n - 1, kind);
    }
}

proof fn lemma_first_piece(first: Seq<char>, rest: Seq<char>)
    requires
        !first.contains('/'),
    ensures
        text::split_on(first.push('/') + rest, '/').len() > 1,
        text::split_on(first.push('/') + rest, '/')[0] == first,
{
    text::separators_separate(first, '/', rest);
    text::a_piece_stays_whole(first, '/');
    text::lemma_split_on_nonempty(rest, '/');
}

/// Absolute paths come first, then those that start with `.`, then those that start with `..`, and those that
/// start with a name last, whatever comes behind.
pub proof fn paths_are_ordered_by_how_they_start(name: Seq<char>, a: Seq<char>, b: Seq<char>, c: Seq<char>, d: Seq<char>)
    requires
        plain(name),
    ensures
        ({
            let root = discover::path_key(seq!['/'] + a);
            let here = discover::path_key(seq!['.', '/'] + b);
            let above = discover::path_key(seq!['.', '.', '/'] + c);
            let named = discover::path_key(name + seq!['/'] + d);
            &&& discover::key_less(root, here)
            &&& discover::key_less(here, above)
            &&& discover::key_less(above, named)
            &&& discover::key_less(root, named)
        }),
{
    let none = Seq::<char>::empty();
    assert(seq!['/'] + a =~= none.push('/') + a);
    assert(seq!['.', '/'] + b =~= seq!['.'].push('/') + b);
    assert(seq!['.', '.', '/'] + c =~= seq!['.', '.'].push('/') + c);
    assert(name + seq!['/'] + d =~= name.push('/') + d);
    lemma_first_piece(none, a);
    lemma_first_piece(seq!['.'], b);
    lemma_first_piece(seq!['.', '.'], c);
    lemma_first_piece(name, d);
    assert(seq!['.'].len() == 1 && seq!['.', '.'].len() == 2);
    assert(seq!['.'] != seq!['.', '.']);
    let p0 = text::split_on(none.push('/') + a, '/');
    let p1 = text::split_on(seq!['.'].push('/') + b, '/');
    let p2 = text::split_on(seq!['.', '.'].push('/') + c, '/');
    let p3 = text::split_on(name.push('/') + d, '/');
    lemma_first_kind(p0, p0.len() as int, 0);
    lemma_first_kind(p1, p1.len() as int, 1);
    lemma_first_kind(p2, p2.len() as int, 2);
    lemma_first_kind(p3, p3.len() as int, 3);
}

/// Another slash behind a path does not count, and neither does `.`; `..` does, and comes before all names.
pub proof fn empty_components_do_not_count(dir: Seq<char>, name: Seq<char>)
    requires
        dir.contains('/'),
        plain(name),
    ensures
        discover::path_key(dir.push('/')) == discover::path_key(dir),
        discover::path_key(dir.push('/') + seq!['.']) == discover::path_key(dir),
        discover::key_less(discover::path_key(dir), discover::path_key(dir.push('/') + seq!['.', '.'])),
        discover::key_less(discover::path_key(dir.push('/') + seq!['.', '.']), discover::path_key(dir.push('/') + name)),
{
    let none = Seq::<char>::empty();
    let pieces = text::split_on(dir, '/');
    let n = pieces.len() as int;
    let key = discover::path_key(dir);
    lemma_more_pieces(dir);
    assert(dir.push('/') + none =~= dir.push('/'));
    text::separators_separate(dir, '/', none);
    text::separators_separate(dir, '/', seq!['.']);
    text::separators_separate(dir, '/', seq!['.', '.']);
    text::a_piece_stays_whole(none, '/');
    text::a_piece_stays_whole(seq!['.'], '/');
    text::a_piece_stays_whole(seq!['.', '.'], '/');
    lemma_pieces_key(pieces, seq![none], n);
    lemma_pieces_key(pieces, seq![seq!['.']], n);
    lemma_pieces_key(pieces, seq![seq!['.', '.']], n);
    assert((pieces + seq![none])[n] == none);
    assert((pieces + seq![seq!['.']])[n] == seq!['.']);
    assert((pieces + seq![seq!['.', '.']])[n] == seq!['.', '.']);
    assert(seq!['.'].len() == 1 && seq!['.', '.'].len() == 2);
    let up = discover::component_key(2, none);
    assert(discover::path_key(dir.push('/') + seq!['.', '.']) == key + up);
    lemma_entry_key(dir, name);
    let empty = Seq::<int>::empty();
    lemma_common(key, empty, up);
    assert(key + empty =~= key);
    assert(up[0] == 2 && discover::component_key(3, name)[0] == 3);
    lemma_common(key, up, discover::component_key(3, name));
}

} // verus!
