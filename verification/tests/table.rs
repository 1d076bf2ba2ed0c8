use presenterm::builder::{BuilderSettings, ElementStyle, PresentationBuilder, SlidePrelude};
use presenterm::engine::{RenderEngine, RenderEngineOptions, TerminalIo};
use presenterm::operation::RenderOperation;
use presenterm::properties::WindowSize;
use presenterm::style::{Colors, TextStyle};
use presenterm::table::{prepare_table_row, table_rule, Table, TableColumn, TableColumnAlignment, TableRow};
use presenterm::text::{Text, WeightedLine};
use presenterm::theme::{Alignment, Margin};
use presenterm::virt::{TerminalCommand, VirtualTerminal};
use std::io;

struct Screen(VirtualTerminal);

impl TerminalIo for Screen {
    fn row(&self) -> u16 {
        self.0.cursor_row()
    }

    fn execute(&mut self, command: &TerminalCommand) -> Result<(), io::Error> {
        self.0.execute(command);
        Ok(())
    }

    fn cursor_row(&self) -> u16 {
        self.0.cursor_row()
    }
}

fn settings(incremental_tables: bool) -> BuilderSettings {
    BuilderSettings {
        pause_create_new_slide: false,
        font_size_supported: true,
        render_speaker_notes_only: false,
        command_prefix: String::new(),
        incremental_lists: false,
        pause_before_incremental_lists: false,
        pause_after_incremental_lists: false,
        list_item_newlines: 1,
        incremental_tables,
        pause_before_incremental_tables: true,
        pause_after_incremental_tables: false,
    }
}

fn prelude() -> SlidePrelude {
    SlidePrelude {
        colors: Colors::default(),
        margin: Margin::Fixed(0),
        footer_height: 0,
        paragraph_alignment: Alignment::Left { margin: Margin::Fixed(0) },
    }
}

fn style() -> ElementStyle {
    ElementStyle { alignment: Alignment::Left { margin: Margin::Fixed(0) }, inline_code_colors: Colors::default() }
}

fn line(text: &str) -> WeightedLine {
    WeightedLine::from_str(text)
}

fn table(name_alignment: TableColumnAlignment) -> Table {
    Table {
        columns: vec![
            TableColumn { text: line("Name"), alignment: name_alignment },
            TableColumn { text: line("Taste"), alignment: TableColumnAlignment::Left },
        ],
        rows: vec![
            TableRow { cells: vec![line("Potatooo"), line("Great")] },
            TableRow { cells: vec![line("Carrot"), line("Yuck")] },
        ],
    }
}

fn render(operations: &[RenderOperation], rows: u16, columns: u16) -> Vec<String> {
    let dimensions = WindowSize { rows, columns, height: rows * 2, width: columns * 2 };
    let mut screen = Screen(VirtualTerminal::new(dimensions));
    let options = RenderEngineOptions { validate_overflows: false, ..Default::default() };
    let mut engine = RenderEngine::new(&screen, dimensions, options);
    engine.render(&mut screen, &operations.to_vec()).expect("render failed");
    let grid = screen.0.into_contents();
    grid.rows.iter().map(|row| row.iter().map(|c| c.character).collect()).collect()
}

fn render_table(table: &Table) -> Vec<String> {
    let mut builder = PresentationBuilder::new(settings(false), prelude());
    builder.push_table(table, style());
    render(&builder.chunk_operations, 6, 18)
}

fn pieces(line: &WeightedLine) -> Vec<String> {
    line.chunks.iter().map(|t| t.content.clone()).collect()
}

#[test]
fn table_table() {
    let expected_lines = &[
        "                  ",
        "  Name   │ Taste  ",
        "─────────┼──────  ",
        "Potatooo │ Great  ",
        "Carrot   │ Yuck   ",
        "                  ",
    ];
    assert_eq!(render_table(&table(TableColumnAlignment::Left)), expected_lines);
}

#[test]
fn table_left_aligned() {
    let expected_lines = &[
        "                  ",
        "  Name   │ Taste  ",
        "─────────┼──────  ",
        "Potatooo │ Great  ",
        "Carrot   │ Yuck   ",
        "                  ",
    ];
    assert_eq!(render_table(&table(TableColumnAlignment::Left)), expected_lines);
}

#[test]
fn table_center_aligned() {
    let expected_lines = &[
        "                  ",
        "  Name   │ Taste  ",
        "─────────┼──────  ",
        "Potatooo │ Great  ",
        " Carrot  │ Yuck   ",
        "                  ",
    ];
    assert_eq!(render_table(&table(TableColumnAlignment::Center)), expected_lines);
}

#[test]
fn table_right_aligned() {
    let expected_lines = &[
        "                  ",
        "  Name   │ Taste  ",
        "─────────┼──────  ",
        "Potatooo │ Great  ",
        "  Carrot │ Yuck   ",
        "                  ",
    ];
    assert_eq!(render_table(&table(TableColumnAlignment::Right)), expected_lines);
}

#[test]
fn column_widths_take_the_widest_cell() {
    assert_eq!(table(TableColumnAlignment::Left).column_widths(), vec![8, 5]);
    let empty = Table { columns: vec![], rows: vec![] };
    assert_eq!(empty.column_widths(), Vec::<usize>::new());
}

#[test]
fn centered_cells_put_the_odd_space_first() {
    let texts = vec![line("ab"), line("c")];
    let alignments = vec![TableColumnAlignment::Center, TableColumnAlignment::Right];
    let row = prepare_table_row(&texts, &alignments, &vec![5, 3]);
    assert_eq!(pieces(&row), vec!["  ", "ab", " ", " │ ", "  ", "c"]);
}

#[test]
fn rows_keep_only_cells_with_an_alignment() {
    let texts = vec![line("a"), line("b"), line("c")];
    let alignments = vec![TableColumnAlignment::Left];
    let row = prepare_table_row(&texts, &alignments, &vec![1]);
    assert_eq!(pieces(&row), vec!["a"]);
}

#[test]
fn rule_widens_middle_columns() {
    let rule = table_rule(&vec![1, 2, 3]);
    assert_eq!(pieces(&rule), vec!["──", "┼────", "┼────"]);
    assert!(rule.chunks.iter().all(|t| t.style == TextStyle::default()));
}

#[test]
fn incremental_tables_pause_between_rows() {
    let mut builder = PresentationBuilder::new(settings(true), prelude());
    builder.push_table(&table(TableColumnAlignment::Left), style());
    // a pause before the table and one before each of its two rows
    assert_eq!(builder.slide_chunks.len(), 3);
    let last: Vec<&RenderOperation> = builder.chunk_operations.iter().collect();
    assert_eq!(last.len(), 2);
    match last[0] {
        RenderOperation::RenderText { line, .. } => assert_eq!(pieces(line), vec!["Carrot", "  ", " │ ", "Yuck", " "]),
        _ => panic!("not text"),
    }
}

#[test]
fn inline_code_in_tables_takes_the_theme_colors() {
    let code = Text::new("x", TextStyle::default().code());
    let table = Table {
        columns: vec![TableColumn { text: WeightedLine::from_text(code), alignment: TableColumnAlignment::Left }],
        rows: vec![],
    };
    let code_colors = Colors { background: None, foreground: Some(presenterm::style::Color::new(1, 2, 3)) };
    let mut builder = PresentationBuilder::new(settings(false), prelude());
    builder.push_table(&table, ElementStyle { inline_code_colors: code_colors, ..style() });
    let header = builder.chunk_operations.iter().find_map(|op| match op {
        RenderOperation::RenderText { line, .. } => Some(line.clone()),
        _ => None,
    });
    let header = header.expect("no header");
    assert_eq!(header.chunks[0].style.colors, code_colors);
}
