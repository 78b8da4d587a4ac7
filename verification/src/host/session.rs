//! A scripted run: what is done for each line, step by step.

use vstd::prelude::*;
use crate::host::script;
use crate::host::script::{parse_command, Command, CommandView, Tally};
use crate::text;
use crate::text::same;

verus! {

/// Where a run stands: what it waits for, and for whom.
pub enum Stage {
    Idle,
    /// Is the path that `name` is to be loaded from a directory?
    Asking { name: String, path: String },
    Compiling { name: String, path: String },
    Loading { name: String },
    Unloading { name: String },
    Sending { name: String },
    /// Is there such a resource? There should be, or there should not.
    Checking { name: String, wanted: bool },
}

/// A scripted run. The plugins that are loaded have a name and a number of their own; for a path
/// that was compiled, the library is known.
pub struct Session {
    pub names: Vec<String>,
    pub tokens: Vec<u64>,
    pub sources: Vec<String>,
    pub libraries: Vec<String>,
    pub tally: Tally,
    pub stage: Stage,
}

/// What came of the last action.
pub enum SessionEvent {
    Line(String),
    IsDir(bool),
    Compiled(Result<String, String>),
    /// The plugin is loaded, under this number.
    Loaded(Result<u64, String>),
    Resource(bool),
    /// Slept, unloaded, sent.
    Done,
    /// There are no more lines.
    End,
}

/// What is to be done next.
pub enum SessionAction {
    ReadLine,
    AskIsDir(String),
    Compile(String),
    Load(String),
    Unload(u64),
    /// Send a request with this id and this payload.
    Request(u64, u64, String),
    Sleep(u64),
    LookUp(String),
    /// Unload these, and report the tally.
    Finish(Vec<u64>),
}

/// What is to be said: on standard error, or on standard output.
pub struct Note {
    pub error: bool,
    pub text: String,
}

/// What a step comes to: what is said first, if anything, and what is done then.
pub struct Reply {
    pub note: Option<Note>,
    pub action: SessionAction,
}

// ---------------------------------------------------------------------------
// As values
// ---------------------------------------------------------------------------

pub enum StageView {
    Idle,
    Asking { name: Seq<char>, path: Seq<char> },
    Compiling { name: Seq<char>, path: Seq<char> },
    Loading { name: Seq<char> },
    Unloading { name: Seq<char> },
    Sending { name: Seq<char> },
    Checking { name: Seq<char>, wanted: bool },
}

impl View for Stage {
    type V = StageView;

    open spec fn view(&self) -> StageView {
        match self {
            Stage::Idle => StageView::Idle,
            Stage::Asking { name, path } => StageView::Asking { name: name@, path: path@ },
            Stage::Compiling { name, path } => StageView::Compiling { name: name@, path: path@ },
            Stage::Loading { name } => StageView::Loading { name: name@ },
            Stage::Unloading { name } => StageView::Unloading { name: name@ },
            Stage::Sending { name } => StageView::Sending { name: name@ },
            Stage::Checking { name, wanted } => StageView::Checking { name: name@, wanted: *wanted },
        }
    }
}

#[verifier::ext_equal]
pub struct SessionView {
    pub names: Seq<Seq<char>>,
    pub tokens: Seq<u64>,
    pub sources: Seq<Seq<char>>,
    pub libraries: Seq<Seq<char>>,
    pub tests: nat,
    pub passed: nat,
    pub failed: nat,
    pub stage: StageView,
}

impl View for Session {
    type V = SessionView;

    open spec fn view(&self) -> SessionView {
        SessionView {
            names: text::views(self.names@),
            tokens: self.tokens@,
            sources: text::views(self.sources@),
            libraries: text::views(self.libraries@),
            tests: self.tally.tests as nat,
            passed: self.tally.passed as nat,
            failed: self.tally.failed as nat,
            stage: self.stage@,
        }
    }
}

pub enum EventView {
    Line(Seq<char>),
    IsDir(bool),
    Compiled(Result<Seq<char>, Seq<char>>),
    Loaded(Result<u64, Seq<char>>),
    Resource(bool),
    Done,
    End,
}

impl View for SessionEvent {
    type V = EventView;

    open spec fn view(&self) -> EventView {
        match self {
            SessionEvent::Line(s) => EventView::Line(s@),
            SessionEvent::IsDir(b) => EventView::IsDir(*b),
            SessionEvent::Compiled(Ok(s)) => EventView::Compiled(Ok(s@)),
            SessionEvent::Compiled(Err(s)) => EventView::Compiled(Err(s@)),
            SessionEvent::Loaded(Ok(n)) => EventView::Loaded(Ok(*n)),
            SessionEvent::Loaded(Err(s)) => EventView::Loaded(Err(s@)),
            SessionEvent::Resource(b) => EventView::Resource(*b),
            SessionEvent::Done => EventView::Done,
            SessionEvent::End => EventView::End,
        }
    }
}

pub enum ActionView {
    ReadLine,
    AskIsDir(Seq<char>),
    Compile(Seq<char>),
    Load(Seq<char>),
    Unload(u64),
    Request(u64, u64, Seq<char>),
    Sleep(u64),
    LookUp(Seq<char>),
    Finish(Seq<u64>),
}

impl View for SessionAction {
    type V = ActionView;

    open spec fn view(&self) -> ActionView {
        match self {
            SessionAction::ReadLine => ActionView::ReadLine,
            SessionAction::AskIsDir(s) => ActionView::AskIsDir(s@),
            SessionAction::Compile(s) => ActionView::Compile(s@),
            SessionAction::Load(s) => ActionView::Load(s@),
            SessionAction::Unload(n) => ActionView::Unload(*n),
            SessionAction::Request(n, id, s) => ActionView::Request(*n, *id, s@),
            SessionAction::Sleep(n) => ActionView::Sleep(*n),
            SessionAction::LookUp(s) => ActionView::LookUp(s@),
            SessionAction::Finish(v) => ActionView::Finish(v@),
        }
    }
}

pub struct ReplyView {
    pub note: Option<(bool, Seq<char>)>,
    pub action: ActionView,
}

impl View for Reply {
    type V = ReplyView;

    open spec fn view(&self) -> ReplyView {
        ReplyView {
            note: match self.note {
                Some(n) => Some((n.error, n.text@)),
                None => None,
            },
            action: self.action@,
        }
    }
}

/// Position of the first that is equal, or the length.
pub open spec fn place_of(all: Seq<Seq<char>>, one: Seq<char>) -> int
    decreases all.len(),
{
    if all.len() == 0 {
        0
    } else if all[0] == one {
        0
    } else {
        1 + place_of(all.skip(1), one)
    }
}

proof fn lemma_place(all: Seq<Seq<char>>, one: Seq<char>, n: int)
    requires
        0 <= n <= all.len(),
        forall|i: int| 0 <= i < n ==> all[i] != one,
    ensures
        n < all.len() && all[n] == one ==> place_of(all, one) == n,
        n == all.len() ==> place_of(all, one) == n,
    decreases all.len(),
{
    if n > 0 {
        lemma_place(all.skip(1), one, n - 1);
    }
}

impl SessionView {
    /// No two plugins have the same name, and every assertion has passed or failed.
    pub open spec fn wf(self) -> bool {
        &&& self.names.len() == self.tokens.len()
        &&& self.sources.len() == self.libraries.len()
        &&& self.tests == self.passed + self.failed
        &&& forall|i: int, j: int| 0 <= i < j < self.names.len() ==> self.names[i] != self.names[j]
    }

    pub open spec fn to(self, stage: StageView) -> Self {
        SessionView { stage, ..self }
    }

    pub open spec fn counted(self, ok: bool) -> Self {
        SessionView {
            tests: self.tests + 1,
            passed: if ok {
                self.passed + 1
            } else {
                self.passed
            },
            failed: if ok {
                self.failed
            } else {
                self.failed + 1
            },
            ..self
        }
    }
}

pub open spec fn silently(action: ActionView) -> ReplyView {
    ReplyView { note: None, action }
}

pub open spec fn saying(error: bool, text: Seq<char>, action: ActionView) -> ReplyView {
    ReplyView { note: Some((error, text)), action }
}

/// What a command comes to.
pub open spec fn commanded(v: SessionView, c: CommandView) -> (SessionView, ReplyView) {
    match c {
        CommandView::Skip => (v, silently(ActionView::ReadLine)),
        CommandView::Usage(u) => (v, saying(true, u, ActionView::ReadLine)),
        CommandView::Unknown(verb) => (v, saying(true, "Unknown command: "@ + verb, ActionView::ReadLine)),
        CommandView::Print(msg) => (v, saying(false, "--- "@ + msg + " ---"@, ActionView::ReadLine)),
        CommandView::Sleep(ms) => (v, silently(ActionView::Sleep(ms))),
        CommandView::Load(name, path) => {
            let k = place_of(v.sources, path);
            if k < v.sources.len() {
                (v.to(StageView::Loading { name }), silently(ActionView::Load(v.libraries[k])))
            } else {
                (v.to(StageView::Asking { name, path }), silently(ActionView::AskIsDir(path)))
            }
        },
        CommandView::Unload(name) => {
            let k = place_of(v.names, name);
            if k < v.names.len() {
                (
                    SessionView { names: v.names.remove(k), tokens: v.tokens.remove(k), stage: StageView::Unloading { name }, ..v },
                    silently(ActionView::Unload(v.tokens[k])),
                )
            } else {
                (v, saying(true, "NOT_FOUND: "@ + name, ActionView::ReadLine))
            }
        },
        CommandView::Send(name, payload) => {
            let k = place_of(v.names, name);
            if k < v.names.len() {
                (
                    v.to(StageView::Sending { name }),
                    silently(ActionView::Request(v.tokens[k], v.tests as u64, payload)),
                )
            } else {
                (v, saying(true, "NOT_FOUND: "@ + name, ActionView::ReadLine))
            }
        },
        CommandView::AssertResource(name) => (
            v.to(StageView::Checking { name, wanted: true }),
            silently(ActionView::LookUp(name)),
        ),
        CommandView::AssertNoResource(name) => (
            v.to(StageView::Checking { name, wanted: false }),
            silently(ActionView::LookUp(name)),
        ),
    }
}

/// What is said of an assertion.
pub open spec fn verdict(name: Seq<char>, wanted: bool, ok: bool) -> Seq<char> {
    if wanted {
        if ok {
            "PASS assert_resource "@ + name
        } else {
            "FAIL assert_resource "@ + name + " — not found"@
        }
    } else {
        if ok {
            "PASS assert_no_resource "@ + name
        } else {
            "FAIL assert_no_resource "@ + name + " — still exists"@
        }
    }
}

/// What an event comes to. One that was not waited for changes nothing.
pub open spec fn stepped(v: SessionView, ev: EventView) -> (SessionView, ReplyView) {
    let idle = v.to(StageView::Idle);
    match (v.stage, ev) {
        (_, EventView::End) => (
            SessionView { names: Seq::empty(), tokens: Seq::empty(), ..idle },
            silently(ActionView::Finish(v.tokens)),
        ),
        (StageView::Idle, EventView::Line(line)) => commanded(v, script::command_of(line)),
        (StageView::Asking { name, path }, EventView::IsDir(true)) => (
            v.to(StageView::Compiling { name, path }),
            silently(ActionView::Compile(path)),
        ),
        (StageView::Asking { name, path }, EventView::IsDir(false)) => (
            v.to(StageView::Loading { name }),
            silently(ActionView::Load(path)),
        ),
        (StageView::Compiling { name, path }, EventView::Compiled(Ok(lib))) => (
            SessionView {
                sources: v.sources.push(path),
                libraries: v.libraries.push(lib),
                stage: StageView::Loading { name },
                ..v
            },
            silently(ActionView::Load(lib)),
        ),
        (StageView::Compiling { name, path }, EventView::Compiled(Err(e))) => (
            idle,
            saying(true, "COMPILE_FAIL: "@ + e, ActionView::ReadLine),
        ),
        (StageView::Loading { name }, EventView::Loaded(Ok(token))) => {
            let k = place_of(v.names, name);
            if k < v.names.len() {
                (
                    SessionView { tokens: v.tokens.update(k, token), ..idle },
                    saying(false, "OK load "@ + name, ActionView::Unload(v.tokens[k])),
                )
            } else {
                (
                    SessionView { names: v.names.push(name), tokens: v.tokens.push(token), ..idle },
                    saying(false, "OK load "@ + name, ActionView::ReadLine),
                )
            }
        },
        (StageView::Loading { name }, EventView::Loaded(Err(e))) => (
            idle,
            saying(true, "LOAD_FAIL "@ + name + ": "@ + e, ActionView::ReadLine),
        ),
        (StageView::Unloading { name }, EventView::Done) => (
            idle,
            saying(false, "OK unload "@ + name, ActionView::ReadLine),
        ),
        (StageView::Sending { name }, EventView::Done) => (idle, saying(false, "OK send "@ + name, ActionView::ReadLine)),
        (StageView::Checking { name, wanted }, EventView::Resource(exists)) => (
            idle.counted(wanted == exists),
            saying(false, verdict(name, wanted, wanted == exists), ActionView::ReadLine),
        ),
        _ => (v, silently(ActionView::ReadLine)),
    }
}

// ---------------------------------------------------------------------------
// As it runs
// ---------------------------------------------------------------------------

fn find_name(all: &Vec<String>, one: &str) -> (r: Option<usize>)
    ensures
        match r {
            Some(i) => i == place_of(text::views(all@), one@) && i < all@.len(),
            None => place_of(text::views(all@), one@) == all@.len(),
        },
{
    let ghost vs = text::views(all@);
    let mut i: usize = 0;
    while i < all.len()
        invariant
            i <= all@.len(),
            vs == text::views(all@),
            forall|j: int| 0 <= j < i ==> vs[j] != one@,
        decreases all.len() - i,
    {
        assert(vs[i as int] == all@[i as int]@);
        if same(all[i].as_str(), one) {
            proof {
                lemma_place(vs, one@, i as int);
            }
            return Some(i);
        }
        i = i + 1;
    }
    proof {
        lemma_place(vs, one@, i as int);
    }
    None
}

fn joined(a: &str, b: &str, c: &str, d: &str) -> (r: String)
    ensures
        r@ == a@ + b@ + c@ + d@,
{
    let mut s = a.to_owned();
    s.append(b);
    s.append(c);
    s.append(d);
    s
}

fn quiet(action: SessionAction) -> (r: Reply)
    ensures
        r@ == silently(action@),
{
    Reply { note: None, action }
}

fn say(error: bool, text: String, action: SessionAction) -> (r: Reply)
    ensures
        r@ == saying(error, text@, action@),
{
    Reply { note: Some(Note { error, text }), action }
}

impl Session {
    pub fn new() -> (r: Self)
        ensures
            r@.wf(),
            r@.names.len() == 0,
            r@.sources.len() == 0,
            r@.tests == 0,
            r@.stage == StageView::Idle,
    {
        Session {
            names: Vec::new(),
            tokens: Vec::new(),
            sources: Vec::new(),
            libraries: Vec::new(),
            tally: Tally::new(),
            stage: Stage::Idle,
        }
    }

    fn obey(&mut self, c: Command) -> (r: Reply)
        requires
            old(self)@.wf(),
            old(self)@.stage == StageView::Idle,
        ensures
            final(self)@.wf(),
            (final(self)@, r@) == commanded(old(self)@, c@),
    {
        let ghost v = self@;
        match c {
            Command::Skip => quiet(SessionAction::ReadLine),
            Command::Usage(u) => say(true, u, SessionAction::ReadLine),
            Command::Unknown(verb) => {
                let t = joined("Unknown command: ", verb.as_str(), "", "");
                proof {
                    reveal_strlit("");
                    assert(t@ =~= "Unknown command: "@ + verb@);
                }
                say(true, t, SessionAction::ReadLine)
            },
            Command::Print(msg) => {
                let t = joined("--- ", msg.as_str(), " ---", "");
                proof {
                    reveal_strlit("");
                    assert(t@ =~= "--- "@ + msg@ + " ---"@);
                }
                say(false, t, SessionAction::ReadLine)
            },
            Command::Sleep(ms) => quiet(SessionAction::Sleep(ms)),
            Command::Load(name, path) => {
                match find_name(&self.sources, path.as_str()) {
                    Some(k) => {
                        let lib = self.libraries[k].clone();
                        assert(lib@ == v.libraries[k as int]);
                        self.stage = Stage::Loading { name };
                        assert(self@ =~= v.to(StageView::Loading { name: name@ }));
                        quiet(SessionAction::Load(lib))
                    },
                    None => {
                        let again = path.clone();
                        self.stage = Stage::Asking { name, path };
                        assert(self@ =~= v.to(StageView::Asking { name: name@, path: path@ }));
                        quiet(SessionAction::AskIsDir(again))
                    },
                }
            },
            Command::Unload(name) => {
                match find_name(&self.names, name.as_str()) {
                    Some(k) => {
                        let gone = self.names.remove(k);
                        let token: u64 = self.tokens.remove(k);
                        self.stage = Stage::Unloading { name };
                        proof {
                            assert(text::views(self.names@) =~= v.names.remove(k as int));
                            assert(self@ =~= (SessionView {
                                names: v.names.remove(k as int),
                                tokens: v.tokens.remove(k as int),
                                stage: StageView::Unloading { name: name@ },
                                ..v
                            }));
                        }
                        quiet(SessionAction::Unload(token))
                    },
                    None => {
                        let t = joined("NOT_FOUND: ", name.as_str(), "", "");
                        proof {
                            reveal_strlit("");
                            assert(t@ =~= "NOT_FOUND: "@ + name@);
                        }
                        say(true, t, SessionAction::ReadLine)
                    },
                }
            },
            Command::Send(name, payload) => {
                match find_name(&self.names, name.as_str()) {
                    Some(k) => {
                        let token: u64 = self.tokens[k];
                        let id: u64 = self.tally.tests as u64;
                        self.stage = Stage::Sending { name };
                        assert(self@ =~= v.to(StageView::Sending { name: name@ }));
                        quiet(SessionAction::Request(token, id, payload))
                    },
                    None => {
                        let t = joined("NOT_FOUND: ", name.as_str(), "", "");
                        proof {
                            reveal_strlit("");
                            assert(t@ =~= "NOT_FOUND: "@ + name@);
                        }
                        say(true, t, SessionAction::ReadLine)
                    },
                }
            },
            Command::AssertResource(name) => {
                let again = name.clone();
                self.stage = Stage::Checking { name, wanted: true };
                assert(self@ =~= v.to(StageView::Checking { name: name@, wanted: true }));
                quiet(SessionAction::LookUp(again))
            },
            Command::AssertNoResource(name) => {
                let again = name.clone();
                self.stage = Stage::Checking { name, wanted: false };
                assert(self@ =~= v.to(StageView::Checking { name: name@, wanted: false }));
                quiet(SessionAction::LookUp(again))
            },
        }
    }

    /// One step: takes in what came of the last action, and says what is next. It starts with the
    /// first line and ends with `Finish`.
    pub fn step(&mut self, ev: SessionEvent) -> (r: Reply)
        requires
            old(self)@.wf(),
            old(self)@.tests < u32::MAX,
        ensures
            final(self)@.wf(),
            (final(self)@, r@) == stepped(old(self)@, ev@),
    {
        let ghost v = self@;
        let ghost idle = v.to(StageView::Idle);
        let mut stage = Stage::Idle;
        std::mem::swap(&mut stage, &mut self.stage);
        assert(self@ =~= idle);
        match (stage, ev) {
            (_, SessionEvent::End) => {
                let mut tokens: Vec<u64> = Vec::new();
                std::mem::swap(&mut tokens, &mut self.tokens);
                self.names = Vec::new();
                assert(self@ =~= (SessionView { names: Seq::empty(), tokens: Seq::empty(), ..idle }));
                quiet(SessionAction::Finish(tokens))
            },
            (Stage::Idle, SessionEvent::Line(line)) => {
                assert(idle == v);
                self.obey(parse_command(line.as_str()))
            },
            (Stage::Asking { name, path }, SessionEvent::IsDir(is_dir)) => {
                if is_dir {
                    let again = path.clone();
                    self.stage = Stage::Compiling { name, path };
                    assert(self@ =~= v.to(StageView::Compiling { name: name@, path: path@ }));
                    quiet(SessionAction::Compile(again))
                } else {
                    self.stage = Stage::Loading { name };
                    assert(self@ =~= v.to(StageView::Loading { name: name@ }));
                    quiet(SessionAction::Load(path))
                }
            },
            (Stage::Compiling { name, path }, SessionEvent::Compiled(result)) => {
                match result {
                    Ok(lib) => {
                        let again = lib.clone();
                        let ghost path_view = path@;
                        self.sources.push(path);
                        self.libraries.push(lib);
                        self.stage = Stage::Loading { name };
                        proof {
                            assert(text::views(self.sources@) =~= v.sources.push(path_view));
                            assert(text::views(self.libraries@) =~= v.libraries.push(again@));
                            assert(self@ =~= (SessionView {
                                sources: v.sources.push(path_view),
                                libraries: v.libraries.push(again@),
                                stage: StageView::Loading { name: name@ },
                                ..v
                            }));
                        }
                        quiet(SessionAction::Load(again))
                    },
                    Err(e) => {
                        let t = joined("COMPILE_FAIL: ", e.as_str(), "", "");
                        proof {
                            reveal_strlit("");
                            assert(t@ =~= "COMPILE_FAIL: "@ + e@);
                        }
                        say(true, t, SessionAction::ReadLine)
                    },
                }
            },
            (Stage::Loading { name }, SessionEvent::Loaded(result)) => {
                match result {
                    Ok(token) => {
                        let t = joined("OK load ", name.as_str(), "", "");
                        proof {
                            reveal_strlit("");
                            assert(t@ =~= "OK load "@ + name@);
                        }
                        match find_name(&self.names, name.as_str()) {
                            Some(k) => {
                                let before: u64 = self.tokens[k];
                                self.tokens[k] = token;
                                assert(self@ =~= (SessionView { tokens: v.tokens.update(k as int, token), ..idle }));
                                say(false, t, SessionAction::Unload(before))
                            },
                            None => {
                                let ghost name_view = name@;
                                self.names.push(name);
                                self.tokens.push(token);
                                proof {
                                    assert(text::views(self.names@) =~= v.names.push(name_view));
                                    assert(self@ =~= (SessionView {
                                        names: v.names.push(name_view),
                                        tokens: v.tokens.push(token),
                                        ..idle
                                    }));
                                    lemma_new_name(v.names, name_view);
                                }
                                say(false, t, SessionAction::ReadLine)
                            },
                        }
                    },
                    Err(e) => {
                        let t = joined("LOAD_FAIL ", name.as_str(), ": ", e.as_str());
                        say(true, t, SessionAction::ReadLine)
                    },
                }
            },
            (Stage::Unloading { name }, SessionEvent::Done) => {
                let t = joined("OK unload ", name.as_str(), "", "");
                proof {
                    reveal_strlit("");
                    assert(t@ =~= "OK unload "@ + name@);
                }
                say(false, t, SessionAction::ReadLine)
            },
            (Stage::Sending { name }, SessionEvent::Done) => {
                let t = joined("OK send ", name.as_str(), "", "");
                proof {
                    reveal_strlit("");
                    assert(t@ =~= "OK send "@ + name@);
                }
                say(false, t, SessionAction::ReadLine)
            },
            (Stage::Checking { name, wanted }, SessionEvent::Resource(exists)) => {
                let ok: bool = self.tally.record(wanted, exists);
                let t = if wanted {
                    if ok {
                        joined("PASS assert_resource ", name.as_str(), "", "")
                    } else {
                        joined("FAIL assert_resource ", name.as_str(), " — not found", "")
                    }
                } else {
                    if ok {
                        joined("PASS assert_no_resource ", name.as_str(), "", "")
                    } else {
                        joined("FAIL assert_no_resource ", name.as_str(), " — still exists", "")
                    }
                };
                proof {
                    reveal_strlit("");
                    assert(t@ =~= verdict(name@, wanted, ok));
                    assert(self@ =~= idle.counted(ok));
                }
                say(false, t, SessionAction::ReadLine)
            },
            (stage, _) => {
                self.stage = stage;
                assert(self@ =~= v);
                quiet(SessionAction::ReadLine)
            },
        }
    }
}

proof fn lemma_new_name(names: Seq<Seq<char>>, name: Seq<char>)
    requires
        place_of(names, name) == names.len(),
        forall|i: int, j: int| 0 <= i < j < names.len() ==> names[i] != names[j],
    ensures
        forall|i: int, j: int| 0 <= i < j < names.push(name).len() ==> names.push(name)[i] != names.push(name)[j],
{
    assert forall|i: int| 0 <= i < names.len() implies names[i] != name by {
        lemma_absent(names, name, i);
    }
}

proof fn lemma_absent(names: Seq<Seq<char>>, name: Seq<char>, i: int)
    requires
        place_of(names, name) == names.len(),
        0 <= i < names.len(),
    ensures
        names[i] != name,
    decreases names.len(),
{
    if names[0] != name {
        lemma_place_bound(names.skip(1), name);
        if i > 0 {
            lemma_absent(names.skip(1), name, i - 1);
        }
    }
}

proof fn lemma_place_bound(names: Seq<Seq<char>>, name: Seq<char>)
    ensures
        0 <= place_of(names, name) <= names.len(),
    decreases names.len(),
{
    if names.len() > 0 && names[0] != name {
        lemma_place_bound(names.skip(1), name);
    }
}

/// A run leaves nothing behind: at its end every plugin that is still loaded is unloaded, and
/// none is known any more.
pub proof fn everything_is_unloaded_at_the_end(v: SessionView)
    requires
        v.wf(),
    ensures
        stepped(v, EventView::End).1.action == ActionView::Finish(v.tokens),
        stepped(v, EventView::End).0.names.len() == 0,
        stepped(v, EventView::End).0.tokens.len() == 0,
{
}

} // verus!
