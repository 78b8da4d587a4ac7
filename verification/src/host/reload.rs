//! Trying whether a plugin can be loaded again: it is loaded, asked a few times, unloaded, and all
//! of it once more.

use vstd::prelude::*;
use crate::host::course::Message;
use crate::host::modes::numbered;
use crate::words;

verus! {

/// How often a plugin is asked each time it is loaded.
pub const REQUESTS: u64 = 3;

/// How long is waited between unloading and loading again, in milliseconds.
pub const PAUSE: u64 = 100;

/// How far the trial is.
#[derive(Clone, Copy)]
pub struct Reload {
    /// Has the plugin been unloaded once?
    pub again: bool,
    /// How many requests it has served since it was loaded.
    pub served: u64,
}

/// What came of the last action.
pub enum ReloadEvent {
    Start,
    Loaded(Result<(), String>),
    Served,
    Unloaded,
    Slept,
}

/// What is next.
pub enum ReloadAction {
    Load,
    Serve(Message),
    Unload,
    Sleep(u64),
    Finish,
}

/// What is said, each an error or not, and what is next.
pub struct ReloadReply {
    pub notes: Vec<(bool, String)>,
    pub action: ReloadAction,
}

/// What is next, as a value.
pub enum ReloadActionView {
    Load,
    Serve(u64, Seq<char>),
    Unload,
    Sleep(u64),
    Finish,
}

impl View for ReloadAction {
    type V = ReloadActionView;

    open spec fn view(&self) -> ReloadActionView {
        match self {
            ReloadAction::Load => ReloadActionView::Load,
            ReloadAction::Serve(m) => ReloadActionView::Serve(m.id, m.payload@),
            ReloadAction::Unload => ReloadActionView::Unload,
            ReloadAction::Sleep(ms) => ReloadActionView::Sleep(*ms),
            ReloadAction::Finish => ReloadActionView::Finish,
        }
    }
}

/// Notes as values.
pub open spec fn said(notes: Seq<(bool, String)>) -> Seq<(bool, Seq<char>)> {
    Seq::new(notes.len(), |i: int| (notes[i].0, notes[i].1@))
}

/// The next request: they are numbered from 0, and have ids from 0 the first time, from 100 the
/// second.
pub open spec fn request(t: Reload) -> ReloadActionView {
    if t.again {
        ReloadActionView::Serve((t.served + 100) as u64, "reload test"@ + " #"@ + words::numeral(t.served as nat, 10))
    } else {
        ReloadActionView::Serve(t.served, "test"@ + " #"@ + words::numeral(t.served as nat, 10))
    }
}

/// The state after an event, what is said, and what is next.
pub open spec fn reload_step(t: Reload, ev: ReloadEvent) -> (Reload, Seq<(bool, Seq<char>)>, ReloadActionView) {
    match ev {
        ReloadEvent::Start => (
            Reload { again: false, served: 0 },
            seq![(false, "[Reload Test] Loading plugin..."@)],
            ReloadActionView::Load,
        ),
        ReloadEvent::Loaded(Ok(())) => {
            let fresh = Reload { served: 0, ..t };
            (fresh, Seq::empty(), request(fresh))
        },
        ReloadEvent::Loaded(Err(e)) => (
            t,
            seq![
                (
                    true,
                    if t.again {
                        "[Reload Test] Failed to reload: "@ + e@
                    } else {
                        "[Reload Test] Failed to load: "@ + e@
                    },
                ),
            ],
            ReloadActionView::Finish,
        ),
        ReloadEvent::Served => {
            let more = Reload { served: (t.served + 1) as u64, ..t };
            if more.served < REQUESTS {
                (more, Seq::empty(), request(more))
            } else if t.again {
                (more, seq![(false, "[Reload Test] Second run complete"@)], ReloadActionView::Unload)
            } else {
                (
                    more,
                    seq![(false, "[Reload Test] First run complete"@), (false, "[Reload Test] Unloading plugin..."@)],
                    ReloadActionView::Unload,
                )
            }
        },
        ReloadEvent::Unloaded => if t.again {
            (
                t,
                seq![(false, "[Reload Test] SUCCESS - Plugin reloaded and ran correctly!"@)],
                ReloadActionView::Finish,
            )
        } else {
            (t, seq![(false, "[Reload Test] Plugin unloaded"@)], ReloadActionView::Sleep(PAUSE))
        },
        ReloadEvent::Slept => (
            Reload { again: true, ..t },
            seq![(false, "[Reload Test] Reloading plugin..."@)],
            ReloadActionView::Load,
        ),
    }
}

fn next_request(t: Reload) -> (r: ReloadAction)
    requires
        t.served < REQUESTS,
    ensures
        r@ == request(t),
{
    if t.again {
        ReloadAction::Serve(numbered(t.served + 100, "reload test", t.served))
    } else {
        ReloadAction::Serve(numbered(t.served, "test", t.served))
    }
}

fn one(error: bool, text: &str) -> (r: Vec<(bool, String)>)
    ensures
        said(r@) == seq![(error, text@)],
{
    let mut notes: Vec<(bool, String)> = Vec::new();
    notes.push((error, text.to_owned()));
    assert(said(notes@) =~= seq![(error, text@)]);
    notes
}

fn none() -> (r: Vec<(bool, String)>)
    ensures
        said(r@) == Seq::<(bool, Seq<char>)>::empty(),
{
    let notes: Vec<(bool, String)> = Vec::new();
    assert(said(notes@) =~= Seq::empty());
    notes
}

/// One step of the trial. It starts with `Start` and ends with `Finish`.
pub fn test_reload(t: &mut Reload, ev: ReloadEvent) -> (r: ReloadReply)
    requires
        old(t).served <= REQUESTS,
    ensures
        (*final(t), said(r.notes@), r.action@) == reload_step(*old(t), ev),
        old(t).served < REQUESTS || ev !is Served ==> final(t).served <= REQUESTS,
{
    match ev {
        ReloadEvent::Start => {
            t.again = false;
            t.served = 0;
            ReloadReply { notes: one(false, "[Reload Test] Loading plugin..."), action: ReloadAction::Load }
        },
        ReloadEvent::Loaded(Ok(())) => {
            t.served = 0;
            ReloadReply { notes: none(), action: next_request(*t) }
        },
        ReloadEvent::Loaded(Err(e)) => {
            let mut text = if t.again {
                "[Reload Test] Failed to reload: ".to_owned()
            } else {
                "[Reload Test] Failed to load: ".to_owned()
            };
            text.append(e.as_str());
            ReloadReply { notes: one(true, text.as_str()), action: ReloadAction::Finish }
        },
        ReloadEvent::Served => {
            t.served = t.served + 1;
            if t.served < REQUESTS {
                ReloadReply { notes: none(), action: next_request(*t) }
            } else if t.again {
                ReloadReply { notes: one(false, "[Reload Test] Second run complete"), action: ReloadAction::Unload }
            } else {
                let mut notes = one(false, "[Reload Test] First run complete");
                let ghost first = said(notes@);
                notes.push((false, "[Reload Test] Unloading plugin...".to_owned()));
                assert(said(notes@) =~= first.push((false, "[Reload Test] Unloading plugin..."@)));
                assert(first.push((false, "[Reload Test] Unloading plugin..."@)) =~= seq![
                    (false, "[Reload Test] First run complete"@),
                    (false, "[Reload Test] Unloading plugin..."@),
                ]);
                ReloadReply { notes, action: ReloadAction::Unload }
            }
        },
        ReloadEvent::Unloaded => if t.again {
            ReloadReply {
                notes: one(false, "[Reload Test] SUCCESS - Plugin reloaded and ran correctly!"),
                action: ReloadAction::Finish,
            }
        } else {
            ReloadReply { notes: one(false, "[Reload Test] Plugin unloaded"), action: ReloadAction::Sleep(PAUSE) }
        },
        ReloadEvent::Slept => {
            t.again = true;
            ReloadReply { notes: one(false, "[Reload Test] Reloading plugin..."), action: ReloadAction::Load }
        },
    }
}

/// How many actions are at most ahead, the given one among them.
pub open spec fn ahead(t: Reload, action: ReloadActionView) -> int {
    let later: int = if t.again {
        0
    } else {
        7
    };
    match action {
        ReloadActionView::Load => later + 6,
        ReloadActionView::Serve(_, _) => later + 5 - t.served,
        ReloadActionView::Unload => later + 2,
        ReloadActionView::Sleep(_) => later + 1,
        ReloadActionView::Finish => 0,
    }
}

/// Is the event an outcome of the action?
pub open spec fn answers(ev: ReloadEvent, action: ReloadActionView) -> bool {
    match action {
        ReloadActionView::Load => ev is Loaded,
        ReloadActionView::Serve(_, _) => ev is Served,
        ReloadActionView::Unload => ev is Unloaded,
        ReloadActionView::Sleep(_) => ev is Slept,
        ReloadActionView::Finish => false,
    }
}

/// A trial comes to an end, whatever comes of its actions: every step brings it nearer.
pub proof fn trials_come_to_an_end(t: Reload, action: ReloadActionView, ev: ReloadEvent)
    requires
        answers(ev, action),
        action is Serve ==> t.served < REQUESTS,
        action is Sleep ==> !t.again,
    ensures
        ({
            let (after, _, next) = reload_step(t, ev);
            &&& ahead(after, next) < ahead(t, action)
            &&& 0 <= ahead(after, next)
            &&& next is Serve ==> after.served < REQUESTS
            &&& next is Sleep ==> !after.again
        }),
{
}

} // verus!
