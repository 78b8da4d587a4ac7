//! The commands of a scripted run, and of the command line.

use vstd::prelude::*;
use crate::text;
use crate::text::{chars_of, same, split_at_char, substring};
use crate::words;
use crate::words::{find_char, parse_number, trim};

verus! {

/// A command of a script.
pub enum Command {
    /// Blank lines and comments.
    Skip,
    /// Compile, if need be, and load a plugin under a name.
    Load(String, String),
    Unload(String),
    /// Send a request to a plugin.
    Send(String, String),
    /// Sleep for so many milliseconds.
    Sleep(u64),
    AssertResource(String),
    AssertNoResource(String),
    Print(String),
    /// Something is missing: how the command is used.
    Usage(String),
    Unknown(String),
}

/// A command, as a value.
pub enum CommandView {
    Skip,
    Load(Seq<char>, Seq<char>),
    Unload(Seq<char>),
    Send(Seq<char>, Seq<char>),
    Sleep(u64),
    AssertResource(Seq<char>),
    AssertNoResource(Seq<char>),
    Print(Seq<char>),
    Usage(Seq<char>),
    Unknown(Seq<char>),
}

impl View for Command {
    type V = CommandView;

    open spec fn view(&self) -> CommandView {
        match self {
            Command::Skip => CommandView::Skip,
            Command::Load(a, b) => CommandView::Load(a@, b@),
            Command::Unload(a) => CommandView::Unload(a@),
            Command::Send(a, b) => CommandView::Send(a@, b@),
            Command::Sleep(n) => CommandView::Sleep(*n),
            Command::AssertResource(a) => CommandView::AssertResource(a@),
            Command::AssertNoResource(a) => CommandView::AssertNoResource(a@),
            Command::Print(a) => CommandView::Print(a@),
            Command::Usage(a) => CommandView::Usage(a@),
            Command::Unknown(a) => CommandView::Unknown(a@),
        }
    }
}

/// What stands before the first space.
pub open spec fn head_word(s: Seq<char>) -> Seq<char> {
    match words::char_index(s, ' ', 0) {
        Some(i) => s.take(i),
        None => s,
    }
}

/// What stands behind the first space, if there is one.
pub open spec fn tail_words(s: Seq<char>) -> Option<Seq<char>> {
    match words::char_index(s, ' ', 0) {
        Some(i) => Some(s.skip(i + 1)),
        None => None,
    }
}

/// The command that a line stands for: its verb, up to the first space; a name, up to the
/// second; and the rest of the line.
pub open spec fn command_of(line: Seq<char>) -> CommandView {
    let l = words::trimmed(line);
    if l.len() == 0 || l[0] == '#' {
        CommandView::Skip
    } else {
        let verb = head_word(l);
        let rest = tail_words(l);
        let second = match rest {
            Some(r) => Some(head_word(r)),
            None => None,
        };
        let third = match rest {
            Some(r) => tail_words(r),
            None => None,
        };
        if verb == "load"@ {
            match third {
                Some(path) => CommandView::Load(second->0, path),
                None => CommandView::Usage("Usage: load <name> <path>"@),
            }
        } else if verb == "unload"@ {
            match second {
                Some(name) => CommandView::Unload(name),
                None => CommandView::Usage("Usage: unload <name>"@),
            }
        } else if verb == "send"@ {
            match third {
                Some(payload) => CommandView::Send(second->0, payload),
                None => CommandView::Usage("Usage: send <name> <payload>"@),
            }
        } else if verb == "sleep"@ {
            CommandView::Sleep(
                match second {
                    Some(ms) => match words::number_of(ms) {
                        Some(n) => n as u64,
                        None => 100,
                    },
                    None => 100,
                },
            )
        } else if verb == "assert_resource"@ {
            match second {
                Some(name) => CommandView::AssertResource(name),
                None => CommandView::Usage("Usage: assert_resource <name>"@),
            }
        } else if verb == "assert_no_resource"@ {
            match second {
                Some(name) => CommandView::AssertNoResource(name),
                None => CommandView::Usage("Usage: assert_no_resource <name>"@),
            }
        } else if verb == "print"@ {
            match rest {
                Some(msg) => CommandView::Print(msg),
                None => CommandView::Print(Seq::empty()),
            }
        } else {
            CommandView::Unknown(verb)
        }
    }
}

/// Splits a string at its first space.
fn cut(s: &str) -> (r: (String, Option<String>))
    ensures
        r.0@ == head_word(s@),
        r.1 is Some <==> tail_words(s@) is Some,
        r.1 matches Some(t) ==> tail_words(s@) == Some(t@),
{
    let v = chars_of(s);
    match find_char(&v, ' ', 0) {
        Some(i) => {
            let a = substring(&v, 0, i);
            let b = substring(&v, i + 1, v.len());
            assert(a@ =~= s@.take(i as int));
            assert(b@ =~= s@.skip(i as int + 1));
            (a, Some(b))
        },
        None => (s.to_owned(), None),
    }
}

/// Reads a line of a script.
pub fn parse_command(line: &str) -> (r: Command)
    ensures
        r@ == command_of(line@),
{
    let l = trim(line);
    let v = chars_of(l.as_str());
    if v.len() == 0 || v[0] == '#' {
        return Command::Skip;
    }
    let (verb, rest) = cut(l.as_str());
    let (second, third) = match &rest {
        Some(r) => {
            let (a, b) = cut(r.as_str());
            (Some(a), b)
        },
        None => (None, None),
    };
    let verb_str = verb.as_str();
    if same(verb_str, "load") {
        match (second, third) {
            (Some(name), Some(path)) => Command::Load(name, path),
            _ => Command::Usage("Usage: load <name> <path>".to_owned()),
        }
    } else if same(verb_str, "unload") {
        match second {
            Some(name) => Command::Unload(name),
            None => Command::Usage("Usage: unload <name>".to_owned()),
        }
    } else if same(verb_str, "send") {
        match (second, third) {
            (Some(name), Some(payload)) => Command::Send(name, payload),
            _ => Command::Usage("Usage: send <name> <payload>".to_owned()),
        }
    } else if same(verb_str, "sleep") {
        let ms: u64 = match second {
            Some(t) => match parse_number(t.as_str()) {
                Some(n) => n,
                None => 100,
            },
            None => 100,
        };
        Command::Sleep(ms)
    } else if same(verb_str, "assert_resource") {
        match second {
            Some(name) => Command::AssertResource(name),
            None => Command::Usage("Usage: assert_resource <name>".to_owned()),
        }
    } else if same(verb_str, "assert_no_resource") {
        match second {
            Some(name) => Command::AssertNoResource(name),
            None => Command::Usage("Usage: assert_no_resource <name>".to_owned()),
        }
    } else if same(verb_str, "print") {
        match rest {
            Some(msg) => Command::Print(msg),
            None => Command::Print(String::new()),
        }
    } else {
        Command::Unknown(verb)
    }
}

/// The outcome of the assertions of a script.
pub struct Tally {
    pub tests: u32,
    pub passed: u32,
    pub failed: u32,
}

impl Tally {
    /// Every assertion has passed or failed.
    pub open spec fn wf(&self) -> bool {
        self.tests == self.passed + self.failed
    }

    pub fn new() -> (r: Self)
        ensures
            r.wf(),
            r.tests == 0,
            r.passed == 0,
            r.failed == 0,
    {
        Tally { tests: 0, passed: 0, failed: 0 }
    }

    /// Counts an assertion: a resource was to exist, or not, and does, or does not. Was it right?
    pub fn record(&mut self, wanted: bool, exists: bool) -> (ok: bool)
        requires
            old(self).wf(),
            old(self).tests < u32::MAX,
        ensures
            final(self).wf(),
            ok == (wanted == exists),
            final(self).tests == old(self).tests + 1,
            ok ==> final(self).passed == old(self).passed + 1,
            !ok ==> final(self).failed == old(self).failed + 1,
    {
        let ok: bool = wanted == exists;
        self.tests = self.tests + 1;
        if ok {
            self.passed = self.passed + 1;
        } else {
            self.failed = self.failed + 1;
        }
        ok
    }

    /// The exit code of a script: 1 if an assertion failed.
    pub fn exit_code(&self) -> (r: i32)
        ensures
            r == if self.failed > 0 { 1int } else { 0int },
    {
        if self.failed > 0 {
            1
        } else {
            0
        }
    }
}

/// The paths behind each `--plugin`, from argument `i` on. The last one has none if nothing
/// follows it.
pub open spec fn plugin_paths(args: Seq<Seq<char>>, i: int) -> Seq<Seq<char>>
    decreases args.len() - i,
{
    if i < 0 || i >= args.len() {
        Seq::empty()
    } else if args[i] == "--plugin"@ {
        if i + 1 < args.len() {
            seq![args[i + 1]] + plugin_paths(args, i + 2)
        } else {
            Seq::empty()
        }
    } else {
        plugin_paths(args, i + 1)
    }
}

/// The plugins that the command line names.
pub fn explicit_plugins(args: &Vec<String>) -> (r: Vec<String>)
    ensures
        text::views(r@) == plugin_paths(text::views(args@), 1),
{
    let ghost all = text::views(args@);
    let mut r: Vec<String> = Vec::new();
    let mut i: usize = 1;
    assert(text::views(r@) + plugin_paths(all, 1) =~= plugin_paths(all, 1));
    while i < args.len()
        invariant
            all == text::views(args@),
            1 <= i,
            text::views(r@) + plugin_paths(all, i as int) == plugin_paths(all, 1),
        decreases args.len() - i,
    {
        assert(all[i as int] == args@[i as int]@);
        if same(args[i].as_str(), "--plugin") {
            if i + 1 < args.len() {
                let ghost before = text::views(r@);
                r.push(args[i + 1].clone());
                assert(all[i as int + 1] == args@[i as int + 1]@);
                assert(text::views(r@) =~= before.push(all[i as int + 1]));
                assert(text::views(r@) + plugin_paths(all, i as int + 2) =~= before + (seq![all[i as int + 1]] + plugin_paths(
                    all,
                    i as int + 2,
                )));
                i = i + 2;
            } else {
                i = i + 1;
            }
        } else {
            i = i + 1;
        }
    }
    assert(text::views(r@) =~= plugin_paths(all, 1));
    r
}

/// What an installation needs: the directory's name, and where the source is. `None` if the
/// argument is not of the form `user/repo`.
pub fn install_plan(slug: &str) -> (r: Option<(String, String)>)
    ensures
        r is Some <==> text::split_on(slug@, '/').len() == 2,
        r matches Some((name, url)) ==> name@ == text::split_on(slug@, '/')[1] && url@ == "https://github.com/"@ + slug@ + ".git"@,
{
    let parts = split_at_char(slug, '/');
    let ghost pv = text::views(parts@);
    if parts.len() != 2 {
        return None;
    }
    assert(pv[1] == parts@[1]@);
    let mut url = "https://github.com/".to_owned();
    url.append(slug);
    url.append(".git");
    Some((parts[1].clone(), url))
}

} // verus!
