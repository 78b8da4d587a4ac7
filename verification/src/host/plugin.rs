//! The life of a plugin: loading it, handing it requests, unloading it.

use vstd::prelude::*;
use crate::runtime::events;
use crate::runtime::events::{drop_plugin_events, EventBus, Subscription};
use crate::runtime::executor;
use crate::runtime::executor::{
    allocate_plugin_id, clear_current_plugin, drop_plugin_tasks, finish_drop_plugin_tasks, set_current_plugin, slot_state, Cleanup,
    ExecState, Executor, PluginIds, STATE_CANCELLED,
};
use crate::runtime::resources;
use crate::runtime::resources::{drop_plugin_resources, ResourceEntry, Resources};
use crate::words;
use crate::words::decimal;

verus! {

/// What came of the last step of loading.
pub enum LoadEvent {
    Start,
    /// The library was opened, or why not.
    Opened(Result<(), String>),
    /// Were both `plugin_init` and `plugin_destroy` found?
    Symbols(bool),
    /// `plugin_init` returned this.
    Initialized(i32),
}

/// The next step of loading.
pub enum LoadAction {
    Open,
    FindSymbols,
    /// Call `plugin_init` with the id of the plugin, which is the current one.
    Init(u64),
    Loaded,
    /// Close the library if it was opened, and report this.
    Fail(bool, String),
}

/// A step of loading, as a value.
pub enum LoadActionView {
    Open,
    FindSymbols,
    Init(u64),
    Loaded,
    Fail(bool, Seq<char>),
}

impl View for LoadAction {
    type V = LoadActionView;

    open spec fn view(&self) -> LoadActionView {
        match self {
            LoadAction::Open => LoadActionView::Open,
            LoadAction::FindSymbols => LoadActionView::FindSymbols,
            LoadAction::Init(id) => LoadActionView::Init(*id),
            LoadAction::Loaded => LoadActionView::Loaded,
            LoadAction::Fail(close, s) => LoadActionView::Fail(*close, s@),
        }
    }
}

/// Loads a plugin, step by step: the library is opened, its two functions are found, it gets an id
/// of its own and is initialized as the current plugin.
pub fn load(ids: &mut PluginIds, ev: LoadEvent) -> (r: LoadAction)
    requires
        old(ids).next < u64::MAX,
    ensures
        match ev {
            LoadEvent::Start => r@ == LoadActionView::Open && *final(ids) == *old(ids),
            LoadEvent::Opened(Ok(())) => r@ == LoadActionView::FindSymbols && *final(ids) == *old(ids),
            LoadEvent::Opened(Err(e)) => r@ == LoadActionView::Fail(false, "dlopen failed: "@ + e@) && *final(ids) == *old(ids),
            LoadEvent::Symbols(true) => {
                &&& r@ == LoadActionView::Init(old(ids).next)
                &&& final(ids).next == old(ids).next + 1
                &&& final(ids).current == old(ids).next
            },
            LoadEvent::Symbols(false) => {
                &&& r@ == LoadActionView::Fail(true, "Failed to find plugin_init/plugin_destroy symbols"@)
                &&& *final(ids) == *old(ids)
            },
            LoadEvent::Initialized(code) => {
                &&& r@ == (if code == 0 {
                    LoadActionView::Loaded
                } else {
                    LoadActionView::Fail(true, "Plugin init failed"@)
                })
                &&& final(ids).next == old(ids).next
                &&& final(ids).current == 0
            },
        },
{
    match ev {
        LoadEvent::Start => LoadAction::Open,
        LoadEvent::Opened(Ok(())) => LoadAction::FindSymbols,
        LoadEvent::Opened(Err(e)) => {
            let mut s = "dlopen failed: ".to_owned();
            s.append(e.as_str());
            LoadAction::Fail(false, s)
        },
        LoadEvent::Symbols(found) => {
            if found {
                let id: u64 = allocate_plugin_id(ids);
                set_current_plugin(ids, id);
                LoadAction::Init(id)
            } else {
                LoadAction::Fail(true, "Failed to find plugin_init/plugin_destroy symbols".to_owned())
            }
        },
        LoadEvent::Initialized(code) => {
            clear_current_plugin(ids);
            if code == 0 {
                LoadAction::Loaded
            } else {
                LoadAction::Fail(true, "Plugin init failed".to_owned())
            }
        },
    }
}

/// What came of the last step of unloading.
pub enum UnloadEvent {
    Start,
    /// `plugin_destroy` has returned.
    Destroyed,
    /// What was left of these tasks has been dropped.
    TasksDropped(Vec<u32>),
    EventsDropped,
    ResourcesDropped,
}

/// The next step of unloading. The plugin's code is there until the last of them.
pub enum UnloadAction<P, C, V> {
    /// Call `plugin_destroy`.
    Destroy,
    /// Drop what is left of these tasks, with the plugin as the current one.
    DropTasks(Vec<Cleanup<P>>),
    /// Drop these subscriptions.
    DropEvents(Vec<Subscription<C>>),
    /// Drop these resources, with the plugin as the current one.
    DropResources(Vec<ResourceEntry<V>>),
    /// Close the library.
    Close,
}

/// Those of the tasks that are cancelled, and whose slots can be freed.
pub open spec fn cancelled_of<P, W>(v: ExecState<P, W>, ids: Seq<u32>) -> Seq<u32>
    decreases ids.len(),
{
    if ids.len() == 0 {
        ids
    } else {
        let before = cancelled_of(v, ids.drop_last());
        if v.has(ids.last()) && v.slot(ids.last()).state == STATE_CANCELLED {
            before.push(ids.last())
        } else {
            before
        }
    }
}

/// The executor once the slots of a plugin's dropped tasks are free. If there were any, all timers are
/// gone too.
pub open spec fn tasks_gone<P, W>(v: ExecState<P, W>, ids: Seq<u32>) -> ExecState<P, W> {
    if ids.len() > 0 {
        ExecState { timers: Seq::empty(), ..executor::all_freed(v, cancelled_of(v, ids)) }
    } else {
        v
    }
}

proof fn lemma_cancelled_of<P, W>(v: ExecState<P, W>, ids: Seq<u32>)
    requires
        forall|i: int, j: int| 0 <= i < j < ids.len() ==> ids[i] != ids[j],
    ensures
        ({
            let c = cancelled_of(v, ids);
            &&& forall|i: int| 0 <= i < c.len() ==> ids.contains(#[trigger] c[i])
            &&& forall|i: int| 0 <= i < c.len() ==> v.has(#[trigger] c[i]) && v.slot(c[i]).state == STATE_CANCELLED
            &&& forall|i: int, j: int| 0 <= i < j < c.len() ==> c[i] != c[j]
        }),
    decreases ids.len(),
{
    if ids.len() > 0 {
        let d = ids.drop_last();
        let b = cancelled_of(v, d);
        let c = cancelled_of(v, ids);
        lemma_cancelled_of(v, d);
        assert forall|i: int| 0 <= i < c.len() implies ids.contains(#[trigger] c[i]) by {
            if i < b.len() {
                assert(d.contains(b[i]));
                let k = choose|k: int| 0 <= k < d.len() && d[k] == b[i];
                assert(ids[k] == c[i]);
            } else {
                assert(ids[ids.len() - 1] == c[i]);
            }
        }
        assert forall|i: int| 0 <= i < c.len() implies v.has(#[trigger] c[i]) && v.slot(c[i]).state == STATE_CANCELLED by {
            if i < b.len() {
                assert(b[i] == c[i]);
            }
        }
        assert forall|i: int, j: int| 0 <= i < j < c.len() implies c[i] != c[j] by {
            assert(b[i] == c[i]);
            if j < b.len() {
                assert(b[j] == c[j]);
            } else {
                assert(d.contains(b[i]));
                let k = choose|k: int| 0 <= k < d.len() && d[k] == b[i];
                assert(ids[k] != ids[ids.len() - 1]);
            }
        }
    }
}

fn keep_cancelled<P, W>(ex: &Executor<P, W>, ids: &Vec<u32>) -> (r: Vec<u32>)
    ensures
        r@ == cancelled_of(ex@, ids@),
{
    let mut r: Vec<u32> = Vec::new();
    let mut i: usize = 0;
    assert(ids@.take(0) =~= Seq::<u32>::empty());
    while i < ids.len()
        invariant
            i <= ids@.len(),
            r@ == cancelled_of(ex@, ids@.take(i as int)),
        decreases ids.len() - i,
    {
        assert(ids@.take(i as int + 1).drop_last() =~= ids@.take(i as int));
        let id: u32 = ids[i];
        if slot_state(ex, id).0 == STATE_CANCELLED {
            r.push(id);
        }
        i = i + 1;
    }
    assert(ids@.take(i as int) =~= ids@);
    r
}

/// Frees the slots of a plugin's tasks, once what was left of them has been dropped.
pub fn free_tasks<P, W>(ex: &mut Executor<P, W>, ids: &Vec<u32>)
    requires
        old(ex)@.wf(),
        forall|i: int, j: int| 0 <= i < j < ids@.len() ==> ids@[i] != ids@[j],
    ensures
        final(ex)@.wf(),
        final(ex)@ == tasks_gone(old(ex)@, ids@),
{
    proof {
        lemma_cancelled_of(ex@, ids@);
    }
    let gone = keep_cancelled(ex, ids);
    finish_drop_plugin_tasks(ex, &gone);
    if ids.len() > 0 {
        ex.timers = Vec::new();
        assert(ex@.timers =~= Seq::empty());
    }
}

/// Unloads a plugin, step by step: it cleans up by itself, then its tasks go, then its subscriptions,
/// then its resources, and last its library.
///
/// Each of these is taken out of the host, as it is by then, only when what went before has been
/// dropped: a destructor still finds what comes after it, and what it adds to that goes too.
pub fn unload<P, W, C, V>(
    ex: &mut Executor<P, W>,
    bus: &mut EventBus<C>,
    table: &mut Resources<V>,
    plugin_id: u64,
    ev: UnloadEvent,
) -> (r: UnloadAction<P, C, V>)
    requires
        old(ex)@.wf(),
        old(bus).wf(),
        old(table).wf(),
        ev matches UnloadEvent::TasksDropped(ids) ==> forall|i: int, j: int|
            0 <= i < j < ids@.len() ==> ids@[i] != ids@[j],
    ensures
        final(ex)@.wf(),
        final(bus).wf(),
        final(table).wf(),
        match ev {
            UnloadEvent::Start => r is Destroy && final(ex)@ == old(ex)@,
            UnloadEvent::Destroyed => {
                &&& r matches UnloadAction::DropTasks(tasks)
                &&& tasks@ == executor::doomed_payloads(old(ex)@.slots, plugin_id, old(ex)@.slots.len() as int)
                &&& final(ex)@ == executor::plugin_purged(old(ex)@, plugin_id)
            },
            UnloadEvent::TasksDropped(ids) => {
                &&& r matches UnloadAction::DropEvents(subs)
                &&& subs@ == events::subs_of(old(bus).subs@, plugin_id)
                &&& final(bus).subs@ == events::subs_without(old(bus).subs@, plugin_id)
                &&& final(bus).next == old(bus).next
                &&& final(ex)@ == tasks_gone(old(ex)@, ids@)
            },
            UnloadEvent::EventsDropped => {
                &&& r matches UnloadAction::DropResources(entries)
                &&& entries@ == resources::entries_of(old(table).entries@, plugin_id)
                &&& final(table).entries@ == resources::entries_without(old(table).entries@, plugin_id)
                &&& final(table)@ == resources::without_plugin(old(table)@, plugin_id)
                &&& final(ex)@ == old(ex)@
            },
            UnloadEvent::ResourcesDropped => r is Close && final(ex)@ == old(ex)@,
        },
        !(ev is TasksDropped) ==> *final(bus) == *old(bus),
        !(ev is EventsDropped) ==> *final(table) == *old(table),
{
    match ev {
        UnloadEvent::Start => UnloadAction::Destroy,
        UnloadEvent::Destroyed => UnloadAction::DropTasks(drop_plugin_tasks(ex, plugin_id)),
        UnloadEvent::TasksDropped(ids) => {
            free_tasks(ex, &ids);
            UnloadAction::DropEvents(drop_plugin_events(bus, plugin_id))
        },
        UnloadEvent::EventsDropped => UnloadAction::DropResources(drop_plugin_resources(table, plugin_id)),
        UnloadEvent::ResourcesDropped => UnloadAction::Close,
    }
}

/// What is said when some things of a plugin have been dropped; nothing if there were none.
pub fn dropped_note(count: usize, what: &str, plugin_id: u64) -> (r: Option<String>)
    ensures
        count == 0 ==> r is None,
        count > 0 ==> (r matches Some(s) && s@ == "[Host] Dropped "@ + words::numeral(count as nat, 10) + " "@ + what@
            + " from plugin "@ + words::numeral(plugin_id as nat, 10)),
{
    if count == 0 {
        return None;
    }
    let mut s = "[Host] Dropped ".to_owned();
    s.append(decimal(count as u64).as_str());
    s.append(" ");
    s.append(what);
    s.append(" from plugin ");
    s.append(decimal(plugin_id).as_str());
    Some(s)
}

/// Each sweep leaves nothing of the plugin in what it sweeps, whatever the destructors before it have
/// added there, and all that belongs to others.
pub proof fn each_sweep_is_complete<P, W, C, V>(
    ex: ExecState<P, W>,
    subs: Seq<Subscription<C>>,
    table: Map<Seq<char>, resources::Stored<V>>,
    plugin_id: u64,
)
    requires
        ex.wf(),
    ensures
        forall|i: int|
            0 <= i < ex.slots.len() ==> !executor::doomed(
                #[trigger] executor::plugin_purged(ex, plugin_id).slots[i],
                plugin_id,
            ),
        forall|s: Subscription<C>| #[trigger]
            events::subs_without(subs, plugin_id).contains(s) <==> subs.contains(s) && s.plugin_id != plugin_id,
        forall|name: Seq<char>| #[trigger]
            resources::without_plugin(table, plugin_id).dom().contains(name) <==> table.dom().contains(name)
                && table[name].plugin_id != plugin_id,
{
    executor::no_task_of_a_dropped_plugin_is_left(ex, plugin_id);
    lemma_subs_without(subs, plugin_id);
}

proof fn lemma_subs_without<C>(subs: Seq<Subscription<C>>, plugin_id: u64)
    ensures
        forall|s: Subscription<C>| #[trigger]
            events::subs_without(subs, plugin_id).contains(s) <==> subs.contains(s) && s.plugin_id != plugin_id,
    decreases subs.len(),
{
    if subs.len() > 0 {
        let d = subs.drop_last();
        let q = events::subs_without(d, plugin_id);
        let r = events::subs_without(subs, plugin_id);
        lemma_subs_without(d, plugin_id);
        assert forall|s: Subscription<C>| #[trigger]
            r.contains(s) <==> subs.contains(s) && s.plugin_id != plugin_id by {
            assert(q.contains(s) <==> d.contains(s) && s.plugin_id != plugin_id);
            if subs.contains(s) {
                let k = choose|k: int| 0 <= k < subs.len() && subs[k] == s;
                if k < d.len() {
                    assert(d[k] == s);
                    if s.plugin_id != plugin_id {
                        let m = choose|m: int| 0 <= m < q.len() && q[m] == s;
                        assert(r[m] == s);
                    }
                } else if s.plugin_id != plugin_id {
                    assert(r[q.len() as int] == s);
                }
            }
            if r.contains(s) {
                let k = choose|k: int| 0 <= k < r.len() && r[k] == s;
                if k < q.len() {
                    assert(q[k] == s);
                    let m = choose|m: int| 0 <= m < d.len() && d[m] == s;
                    assert(subs[m] == s);
                } else {
                    assert(subs[subs.len() - 1] == s);
                }
            }
        }
    }
}

/// The plugin whose turn it is in round `i`: they take turns.
pub fn turn(i: u64, plugins: usize) -> (r: usize)
    requires
        plugins > 0,
    ensures
        r == i as usize % plugins,
        r < plugins,
{
    i as usize % plugins
}

} // verus!
