use presenterm::properties::WindowSize;
use presenterm::style::{Color, Colors, TextStyle};
use presenterm::virt::{TerminalCommand, TerminalGrid, TextProperties, VirtualTerminal};

fn assert_contents(grid: &TerminalGrid, lines: &[&str]) {
    assert_eq!(grid.rows.len(), lines.len());
    for (line, expected) in grid.rows.iter().zip(lines) {
        let line: String = line.iter().map(|c| c.character).collect();
        assert_eq!(line, *expected);
    }
}

#[test]
fn text() {
    let dimensions = WindowSize { rows: 2, columns: 3, height: 0, width: 0 };
    let mut term = VirtualTerminal::new(dimensions);
    for c in "abc".chars() {
        term.print_text(&c.to_string(), &TextStyle::default(), &TextProperties::default());
    }
    term.move_to_next_line();
    term.print_text("A", &TextStyle::default(), &TextProperties::default());
    let grid = term.into_contents();
    assert_contents(&grid, &["abc", "A  "]);
}

#[test]
fn movement() {
    let dimensions = WindowSize { rows: 2, columns: 3, height: 0, width: 0 };
    let mut term = VirtualTerminal::new(dimensions);
    term.print_text("A", &TextStyle::default(), &TextProperties::default());
    term.move_down(1);
    term.print_text("B", &TextStyle::default(), &TextProperties::default());
    term.move_to(2, 0);
    term.print_text("C", &TextStyle::default(), &TextProperties::default());
    term.move_to_row(1);
    term.move_to_column(2);
    term.print_text("D", &TextStyle::default(), &TextProperties::default());

    let grid = term.into_contents();
    assert_contents(&grid, &["A C", " BD"]);
}

#[test]
fn text_past_the_edge_is_dropped() {
    let dimensions = WindowSize { rows: 1, columns: 3, height: 0, width: 0 };
    let mut term = VirtualTerminal::new(dimensions);
    term.move_to_column(1);
    term.print_text("xyzw", &TextStyle::default(), &TextProperties::default());
    assert_contents(&term.into_contents(), &[" xy"]);
}

#[test]
fn tall_text_moves_the_next_line_further() {
    let dimensions = WindowSize { rows: 4, columns: 2, height: 0, width: 0 };
    let mut term = VirtualTerminal::new(dimensions);
    term.print_text("a", &TextStyle::default(), &TextProperties { height: 2 });
    term.move_to_next_line();
    assert_eq!(term.cursor_row(), 2);
    term.print_text("b", &TextStyle::default(), &TextProperties::default());
    assert_contents(&term.into_contents(), &["a ", "  ", "b ", "  "]);
}

#[test]
fn clear_screen_takes_the_background_color() {
    let dimensions = WindowSize { rows: 1, columns: 2, height: 0, width: 0 };
    let mut term = VirtualTerminal::new(dimensions);
    term.print_text("ab", &TextStyle::default(), &TextProperties::default());
    term.execute(&TerminalCommand::SetBackgroundColor(Color::Red));
    term.execute(&TerminalCommand::ClearScreen);
    let grid = term.into_contents();
    assert_eq!(grid.background_color, Some(Color::Red));
    assert_contents(&grid, &["  "]);
}

#[test]
fn printed_text_takes_the_current_colors() {
    let dimensions = WindowSize { rows: 1, columns: 1, height: 0, width: 0 };
    let mut term = VirtualTerminal::new(dimensions);
    let colors = Colors { background: Some(Color::Blue), foreground: Some(Color::White) };
    term.execute(&TerminalCommand::SetColors(colors));
    term.execute(&TerminalCommand::PrintText {
        content: "x".to_string(),
        style: TextStyle::default().bold(),
        properties: TextProperties::default(),
    });
    let grid = term.into_contents();
    let cell = grid.rows[0][0];
    assert_eq!(cell.character, 'x');
    assert_eq!(cell.style.colors, colors);
    assert!(cell.style.is_bold());
}
