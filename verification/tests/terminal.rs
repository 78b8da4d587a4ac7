//! Terminals and components.

use crossterm::event::{KeyCode, KeyEvent, KeyModifiers};
use tau::tui::component::{Component, Container};
use tau::tui::terminal::{CrosstermTerminal, MockTerminal, Terminal, TerminalOp};

#[test]
fn crossterm_terminal_can_be_constructed() {
    let term = CrosstermTerminal::new();
    let (cols, rows) = term.size();
    assert!(cols > 0 || rows > 0 || true, "size() should not panic");
}

#[test]
fn crossterm_terminal_default() {
    let _term = CrosstermTerminal::default();
}

#[test]
fn mock_terminal_can_be_constructed() {
    let term = MockTerminal::new(80, 24);
    assert_eq!(term.size(), (80, 24));
    assert!(!term.started);
    assert!(!term.stopped);
    assert!(term.cursor_visible);
}

#[test]
fn mock_terminal_captures_writes() {
    let mut term = MockTerminal::new(80, 24);
    term.write("hello ");
    term.write("world");
    assert_eq!(term.writes, vec!["hello ", "world"]);
    assert_eq!(term.output(), "hello world");
}

#[test]
fn mock_terminal_start_stop() {
    let mut term = MockTerminal::new(80, 24);

    term.start();
    assert!(term.started);
    assert!(!term.cursor_visible);

    term.stop();
    assert!(term.stopped);
    assert!(term.cursor_visible);
}

#[test]
fn mock_terminal_cursor_visibility() {
    let mut term = MockTerminal::new(80, 24);
    assert!(term.cursor_visible);

    term.hide_cursor();
    assert!(!term.cursor_visible);

    term.show_cursor();
    assert!(term.cursor_visible);
}

#[test]
fn mock_terminal_set_size() {
    let mut term = MockTerminal::new(80, 24);
    assert_eq!(term.size(), (80, 24));

    term.set_size(120, 40);
    assert_eq!(term.size(), (120, 40));
}

#[test]
fn mock_terminal_flush_is_noop() {
    let mut term = MockTerminal::new(80, 24);
    term.write("data");
    term.flush();
    assert_eq!(term.output(), "data");
}

#[test]
fn terminal_trait_is_object_safe() {
    let term: Box<dyn Terminal> = Box::new(MockTerminal::new(80, 24));
    assert_eq!(term.size(), (80, 24));
}

#[test]
fn a_real_terminal_is_told_everything_in_order() {
    let mut term = CrosstermTerminal::new();
    term.start();
    term.write("hi");
    term.flush();
    term.stop();
    let ops = term.take_ops();
    assert_eq!(ops.len(), 6);
    assert!(matches!(ops[0], TerminalOp::EnableRawMode));
    assert!(matches!(ops[1], TerminalOp::HideCursor));
    assert!(matches!(&ops[2], TerminalOp::Write(s) if s == "hi"));
    assert!(matches!(ops[3], TerminalOp::Flush));
    assert!(matches!(ops[4], TerminalOp::ShowCursor));
    assert!(matches!(ops[5], TerminalOp::DisableRawMode));
    assert!(term.take_ops().is_empty());
}

#[test]
fn a_real_terminal_has_the_usual_size_unless_it_says_otherwise() {
    let mut term = CrosstermTerminal::new();
    assert_eq!(term.size(), (80, 24));
    term.report_size(Some((120, 40)));
    assert_eq!(term.size(), (120, 40));
    term.report_size(None);
    assert_eq!(term.size(), (80, 24));
    term.hide_cursor();
    term.show_cursor();
    let ops = term.take_ops();
    assert!(matches!(ops[0], TerminalOp::HideCursor));
    assert!(matches!(ops[1], TerminalOp::ShowCursor));
}

/// Components of any kind, one below the other.
type Shelf = Container<Box<dyn Component>>;

/// A mock component that returns fixed lines on render.
struct MockComponent {
    lines: Vec<String>,
    invalidated: bool,
}

impl MockComponent {
    fn new(lines: Vec<&str>) -> Self {
        MockComponent {
            lines: lines.into_iter().map(String::from).collect(),
            invalidated: false,
        }
    }
}

impl Component for MockComponent {
    fn render(&self, _width: u16) -> Vec<String> {
        self.lines.clone()
    }

    fn invalidate(&mut self) {
        self.invalidated = true;
    }
}

#[test]
fn empty_container_renders_empty_vec() {
    let container = Shelf::new();
    let lines = container.render(80);
    assert!(lines.is_empty());
}

#[test]
fn container_with_one_child() {
    let mut container = Shelf::new();
    container.add_child(Box::new(MockComponent::new(vec!["hello", "world"])));
    let lines = container.render(80);
    assert_eq!(lines, vec!["hello", "world"]);
}

#[test]
fn container_concatenates_children_output() {
    let mut container = Shelf::new();
    container.add_child(Box::new(MockComponent::new(vec!["line1"])));
    container.add_child(Box::new(MockComponent::new(vec!["line2", "line3"])));
    container.add_child(Box::new(MockComponent::new(vec!["line4"])));
    let lines = container.render(80);
    assert_eq!(lines, vec!["line1", "line2", "line3", "line4"]);
}

#[test]
fn container_remove_child() {
    let mut container = Shelf::new();
    container.add_child(Box::new(MockComponent::new(vec!["a"])));
    container.add_child(Box::new(MockComponent::new(vec!["b"])));
    container.add_child(Box::new(MockComponent::new(vec!["c"])));
    container.remove_child(1);
    let lines = container.render(80);
    assert_eq!(lines, vec!["a", "c"]);
}

#[test]
fn container_clear() {
    let mut container = Shelf::new();
    container.add_child(Box::new(MockComponent::new(vec!["a"])));
    container.add_child(Box::new(MockComponent::new(vec!["b"])));
    container.clear();
    assert!(container.is_empty());
    assert!(container.render(80).is_empty());
}

#[test]
fn container_len_and_is_empty() {
    let mut container = Shelf::new();
    assert!(container.is_empty());
    assert_eq!(container.len(), 0);
    container.add_child(Box::new(MockComponent::new(vec!["a"])));
    assert!(!container.is_empty());
    assert_eq!(container.len(), 1);
}

#[test]
fn container_default() {
    let container = Shelf::default();
    assert!(container.is_empty());
}

#[test]
fn container_invalidate_propagates() {
    // We can't directly inspect MockComponent through Box<dyn Component>,
    // but we can verify invalidate() doesn't panic and the trait method is called.
    let mut container = Shelf::new();
    container.add_child(Box::new(MockComponent::new(vec!["a"])));
    container.add_child(Box::new(MockComponent::new(vec!["b"])));
    container.invalidate(); // should not panic
}

#[test]
fn container_with_empty_child() {
    let mut container = Shelf::new();
    container.add_child(Box::new(MockComponent::new(vec![])));
    container.add_child(Box::new(MockComponent::new(vec!["hello"])));
    let lines = container.render(80);
    assert_eq!(lines, vec!["hello"]);
}

#[test]
fn component_trait_default_methods() {
    // Verify default handle_input and invalidate don't panic
    let mut mock = MockComponent::new(vec!["test"]);
    let key_event = KeyEvent::new(
        KeyCode::Char('a'),
        KeyModifiers::NONE,
    );
    mock.handle_input(&key_event);
    // MockComponent overrides invalidate, but the default on Component is a no-op
}

#[test]
fn component_trait_is_object_safe() {
    // Verify we can use Box<dyn Component>
    let _boxed: Box<dyn Component> = Box::new(MockComponent::new(vec!["test"]));
}

#[test]
fn container_child_mut_valid_index() {
    let mut container = Shelf::new();
    container.add_child(Box::new(MockComponent::new(vec!["a"])));
    container.add_child(Box::new(MockComponent::new(vec!["b"])));
    assert!(container.child_mut(0).is_some());
    assert!(container.child_mut(1).is_some());
}

#[test]
fn container_child_mut_out_of_bounds() {
    let mut container = Shelf::new();
    container.add_child(Box::new(MockComponent::new(vec!["a"])));
    assert!(container.child_mut(5).is_none());
}

#[test]
fn container_child_mut_can_call_methods() {
    let mut container = Shelf::new();
    container.add_child(Box::new(MockComponent::new(vec!["hello"])));
    let child = container.child_mut(0).unwrap();
    // Can call Component methods through Box deref
    let lines = child.render(80);
    assert_eq!(lines, vec!["hello"]);
}

#[test]
fn every_component_is_invalidated() {
    let mut container = Container::new();
    container.add_child(MockComponent::new(vec!["a"]));
    container.add_child(MockComponent::new(vec!["b"]));
    container.invalidate();
    assert!(container.children.iter().all(|c| c.invalidated));
}

#[test]
fn containers_can_be_nested() {
    let mut inner = Shelf::new();
    inner.add_child(Box::new(MockComponent::new(vec!["b", "c"])));
    let mut outer = Shelf::new();
    outer.add_child(Box::new(MockComponent::new(vec!["a"])));
    outer.add_child(Box::new(inner));
    assert_eq!(outer.render(10), vec!["a", "b", "c"]);
}
