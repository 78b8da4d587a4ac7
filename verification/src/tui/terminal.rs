//! Terminals: what is written to them, and what a real one has to be told.

use vstd::prelude::*;
use crate::text;
use crate::text::concat_strings;

verus! {

/// Something to write to.
pub trait Terminal {
    /// Takes the terminal over: raw mode, no cursor.
    fn start(&mut self);

    /// Gives the terminal back.
    fn stop(&mut self);

    fn write(&mut self, data: &str);

    fn flush(&mut self);

    /// Columns and rows.
    fn size(&self) -> (u16, u16);

    fn hide_cursor(&mut self);

    fn show_cursor(&mut self);
}

/// What a real terminal has to be told.
pub enum TerminalOp {
    EnableRawMode,
    DisableRawMode,
    HideCursor,
    ShowCursor,
    Write(String),
    Flush,
}

/// What an operation means.
#[verifier::ext_equal]
pub enum OpView {
    EnableRawMode,
    DisableRawMode,
    HideCursor,
    ShowCursor,
    Write(Seq<char>),
    Flush,
}

impl View for TerminalOp {
    type V = OpView;

    open spec fn view(&self) -> OpView {
        match self {
            TerminalOp::EnableRawMode => OpView::EnableRawMode,
            TerminalOp::DisableRawMode => OpView::DisableRawMode,
            TerminalOp::HideCursor => OpView::HideCursor,
            TerminalOp::ShowCursor => OpView::ShowCursor,
            TerminalOp::Write(s) => OpView::Write(s@),
            TerminalOp::Flush => OpView::Flush,
        }
    }
}

/// A real terminal: what it still has to be told, in order, and the size that it reported.
pub struct CrosstermTerminal {
    pub ops: Vec<TerminalOp>,
    pub reported: Option<(u16, u16)>,
}

/// What the operations mean.
pub open spec fn op_views(ops: Seq<TerminalOp>) -> Seq<OpView> {
    ops.map_values(|op: TerminalOp| op@)
}

/// Columns and rows of a terminal that does not say.
pub const DEFAULT_COLS: u16 = 80;

pub const DEFAULT_ROWS: u16 = 24;

impl CrosstermTerminal {
    pub fn new() -> (r: Self)
        ensures
            r.ops@.len() == 0,
            r.reported is None,
    {
        CrosstermTerminal { ops: Vec::new(), reported: None }
    }

    /// The terminal has reported its size, or failed to.
    pub fn report_size(&mut self, size: Option<(u16, u16)>)
        ensures
            final(self).reported == size,
            final(self).ops == old(self).ops,
    {
        self.reported = size;
    }

    /// Hands out what the terminal has to be told.
    pub fn take_ops(&mut self) -> (r: Vec<TerminalOp>)
        ensures
            r@ == old(self).ops@,
            final(self).ops@.len() == 0,
            final(self).reported == old(self).reported,
    {
        let mut ops: Vec<TerminalOp> = Vec::new();
        std::mem::swap(&mut ops, &mut self.ops);
        ops
    }

    fn tell(&mut self, op: TerminalOp)
        ensures
            op_views(final(self).ops@) == op_views(old(self).ops@).push(op@),
            final(self).reported == old(self).reported,
    {
        let ghost before = self.ops@;
        self.ops.push(op);
        assert(op_views(self.ops@) =~= op_views(before).push(op@));
    }
}

impl Default for CrosstermTerminal {
    fn default() -> (r: Self)
        ensures
            r.ops@.len() == 0,
            r.reported is None,
    {
        CrosstermTerminal::new()
    }
}

impl Terminal for CrosstermTerminal {
    fn start(&mut self)
        ensures
            op_views(final(self).ops@) == op_views(old(self).ops@).push(OpView::EnableRawMode).push(OpView::HideCursor),
            final(self).reported == old(self).reported,
    {
        self.tell(TerminalOp::EnableRawMode);
        self.tell(TerminalOp::HideCursor);
    }

    fn stop(&mut self)
        ensures
            op_views(final(self).ops@) == op_views(old(self).ops@).push(OpView::ShowCursor).push(OpView::DisableRawMode),
            final(self).reported == old(self).reported,
    {
        self.tell(TerminalOp::ShowCursor);
        self.tell(TerminalOp::DisableRawMode);
    }

    fn write(&mut self, data: &str)
        ensures
            op_views(final(self).ops@) == op_views(old(self).ops@).push(OpView::Write(data@)),
            final(self).reported == old(self).reported,
    {
        self.tell(TerminalOp::Write(data.to_owned()));
    }

    fn flush(&mut self)
        ensures
            op_views(final(self).ops@) == op_views(old(self).ops@).push(OpView::Flush),
            final(self).reported == old(self).reported,
    {
        self.tell(TerminalOp::Flush);
    }

    /// The size that the terminal reported, or the usual one.
    fn size(&self) -> (r: (u16, u16))
        ensures
            r == match self.reported {
                Some(size) => size,
                None => (DEFAULT_COLS, DEFAULT_ROWS),
            },
    {
        match self.reported {
            Some(size) => size,
            None => (DEFAULT_COLS, DEFAULT_ROWS),
        }
    }

    fn hide_cursor(&mut self)
        ensures
            op_views(final(self).ops@) == op_views(old(self).ops@).push(OpView::HideCursor),
            final(self).reported == old(self).reported,
    {
        self.tell(TerminalOp::HideCursor);
    }

    fn show_cursor(&mut self)
        ensures
            op_views(final(self).ops@) == op_views(old(self).ops@).push(OpView::ShowCursor),
            final(self).reported == old(self).reported,
    {
        self.tell(TerminalOp::ShowCursor);
    }
}

/// A terminal that only remembers what was done to it.
pub struct MockTerminal {
    pub writes: Vec<String>,
    pub size: (u16, u16),
    pub started: bool,
    pub stopped: bool,
    pub cursor_visible: bool,
}

impl MockTerminal {
    pub fn new(cols: u16, rows: u16) -> (r: Self)
        ensures
            r.writes@.len() == 0,
            r.size == (cols, rows),
            !r.started,
            !r.stopped,
            r.cursor_visible,
    {
        MockTerminal { writes: Vec::new(), size: (cols, rows), started: false, stopped: false, cursor_visible: true }
    }

    /// All that was written, in one piece.
    pub fn output(&self) -> (r: String)
        ensures
            r@ == text::concat(text::views(self.writes@)),
    {
        concat_strings(&self.writes)
    }

    pub fn set_size(&mut self, cols: u16, rows: u16)
        ensures
            *final(self) == (MockTerminal { size: (cols, rows), ..*old(self) }),
    {
        self.size = (cols, rows);
    }
}

impl Terminal for MockTerminal {
    fn start(&mut self)
        ensures
            *final(self) == (MockTerminal { started: true, cursor_visible: false, ..*old(self) }),
    {
        self.started = true;
        self.cursor_visible = false;
    }

    fn stop(&mut self)
        ensures
            *final(self) == (MockTerminal { stopped: true, cursor_visible: true, ..*old(self) }),
    {
        self.stopped = true;
        self.cursor_visible = true;
    }

    fn write(&mut self, data: &str)
        ensures
            text::views(final(self).writes@) == text::views(old(self).writes@).push(data@),
            *final(self) == (MockTerminal { writes: final(self).writes, ..*old(self) }),
    {
        let ghost before = self.writes@;
        self.writes.push(data.to_owned());
        assert(text::views(self.writes@) =~= text::views(before).push(data@));
    }

    fn flush(&mut self)
        ensures
            *final(self) == *old(self),
    {
    }

    fn size(&self) -> (r: (u16, u16))
        ensures
            r == self.size,
    {
        self.size
    }

    fn hide_cursor(&mut self)
        ensures
            *final(self) == (MockTerminal { cursor_visible: false, ..*old(self) }),
    {
        self.cursor_visible = false;
    }

    fn show_cursor(&mut self)
        ensures
            *final(self) == (MockTerminal { cursor_visible: true, ..*old(self) }),
    {
        self.cursor_visible = true;
    }
}

} // verus!
