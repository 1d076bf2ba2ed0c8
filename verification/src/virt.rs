//! Terminals: the commands sent to them, a terminal that keeps track of where its cursor is,
//! and a virtual one that keeps a grid of what was printed.
use crate::options::ExIoError;
use crate::properties::WindowSize;
use crate::style::{merged_style, Color, Colors, TextStyle};
use crate::text_util::str_chars;
use std::io::Error as IoError;
use vstd::prelude::*;

verus! {

/// How printed text is laid out.
#[derive(Clone, Copy, Debug, PartialEq, Eq, Structural)]
pub struct TextProperties {
    /// The number of rows the text takes.
    pub height: u8,
}

impl Default for TextProperties {
    fn default() -> (p: Self)
        ensures
            p.height == 1,
    {
        TextProperties { height: 1 }
    }
}

/// A command sent to a terminal.
#[derive(Clone, Debug)]
pub enum TerminalCommand {
    BeginUpdate,
    EndUpdate,
    MoveTo { column: u16, row: u16 },
    MoveToRow(u16),
    MoveToColumn(u16),
    MoveDown(u16),
    MoveToNextLine,
    PrintText { content: String, style: TextStyle, properties: TextProperties },
    ClearScreen,
    SetColors(Colors),
    SetBackgroundColor(Color),
    Flush,
    /// Tells the terminal how many rows the drawing area has.
    SetCursorBoundaries { rows: u16 },
}

/// Where output goes: a terminal handle that sends commands on.
pub trait TerminalWrite {
    /// Prepares the terminal: raw mode and the alternate screen.
    fn init(&mut self) -> Result<(), IoError>;

    /// Restores the terminal.
    fn deinit(&mut self);

    /// Sends one command, moving the cursor by `rows` for a move to the next line.
    fn send(&mut self, command: &TerminalCommand, rows: u16) -> Result<(), IoError>;
}

/// A terminal that keeps track of the row its cursor is in.
pub struct Terminal<I: TerminalWrite> {
    writer: I,
    cursor_row: u16,
    current_row_height: u16,
}

/// What a tracking terminal knows: the cursor's row and the height of the current row.
#[derive(Clone, Copy, Debug, PartialEq, Eq, Structural)]
pub struct CursorTrack {
    pub cursor_row: u16,
    pub current_row_height: u16,
}

/// Whether a command can be tracked without the row overflowing.
pub open spec fn trackable(t: CursorTrack, command: TerminalCommand) -> bool {
    match command {
        TerminalCommand::MoveDown(amount) => t.cursor_row + amount <= u16::MAX,
        TerminalCommand::MoveToNextLine => t.cursor_row + t.current_row_height <= u16::MAX,
        _ => true,
    }
}

/// What a command does to what a tracking terminal knows.
pub open spec fn track(t: CursorTrack, command: TerminalCommand) -> CursorTrack {
    match command {
        TerminalCommand::MoveTo { column, row } => CursorTrack { cursor_row: row, ..t },
        TerminalCommand::MoveToRow(row) => CursorTrack { cursor_row: row, ..t },
        TerminalCommand::MoveDown(amount) => CursorTrack {
            cursor_row: (t.cursor_row + amount) as u16,
            ..t
        },
        TerminalCommand::MoveToNextLine => CursorTrack {
            cursor_row: (t.cursor_row + t.current_row_height) as u16,
            current_row_height: 1,
        },
        TerminalCommand::PrintText { properties, .. } => CursorTrack {
            current_row_height: if t.current_row_height >= properties.height {
                t.current_row_height
            } else {
                properties.height as u16
            },
            ..t
        },
        TerminalCommand::ClearScreen => CursorTrack { cursor_row: 0, ..t },
        _ => t,
    }
}

impl<I: TerminalWrite> Terminal<I> {
    /// What this terminal knows of its cursor.
    pub closed spec fn cursor_state(&self) -> CursorTrack {
        CursorTrack { cursor_row: self.cursor_row, current_row_height: self.current_row_height }
    }

    /// Prepares the terminal; the cursor starts at the first row, in a row one cell high.
    pub fn new(writer: I) -> (r: Result<Self, IoError>)
        ensures
            r matches Ok(t) ==> t.cursor_state() == (CursorTrack { cursor_row: 0, current_row_height: 1 }),
    {
        let mut writer = writer;
        match writer.init() {
            Ok(()) => Ok(Terminal { writer, cursor_row: 0, current_row_height: 1 }),
            Err(e) => Err(e),
        }
    }

    /// The row the cursor is in.
    pub fn cursor_row(&self) -> (r: u16)
        ensures
            r == self.cursor_state().cursor_row,
    {
        self.cursor_row
    }

    /// Whether a command can be followed without the cursor's row overflowing.
    pub fn can_track(&self, command: &TerminalCommand) -> (b: bool)
        ensures
            b == trackable(self.cursor_state(), *command),
    {
        match command {
            TerminalCommand::MoveDown(amount) => self.cursor_row as u32 + *amount as u32 <= 65535,
            TerminalCommand::MoveToNextLine => self.cursor_row as u32 + self.current_row_height as u32
                <= 65535,
            _ => true,
        }
    }

    /// Sends a command, then follows where it moves the cursor; a failed send changes nothing.
    pub fn execute(&mut self, command: &TerminalCommand) -> (r: Result<(), IoError>)
        requires
            trackable(old(self).cursor_state(), *command),
        ensures
            r is Ok ==> final(self).cursor_state() == track(old(self).cursor_state(), *command),
            r is Err ==> final(self).cursor_state() == old(self).cursor_state(),
    {
        let rows = self.current_row_height;
        match self.writer.send(command, rows) {
            Ok(()) => {},
            Err(e) => {
                return Err(e);
            },
        }
        match command {
            TerminalCommand::MoveTo { column: _, row } => {
                self.cursor_row = *row;
            },
            TerminalCommand::MoveToRow(row) => {
                self.cursor_row = *row;
            },
            TerminalCommand::MoveDown(amount) => {
                self.cursor_row = self.cursor_row + *amount;
            },
            TerminalCommand::MoveToNextLine => {
                self.cursor_row = self.cursor_row + self.current_row_height;
                self.current_row_height = 1;
            },
            TerminalCommand::PrintText { content: _, style: _, properties } => {
                if self.current_row_height < properties.height as u16 {
                    self.current_row_height = properties.height as u16;
                }
            },
            TerminalCommand::ClearScreen => {
                self.cursor_row = 0;
            },
            _ => {},
        }
        Ok(())
    }

    /// Restores the terminal while something else uses it.
    pub fn suspend(&mut self)
        ensures
            final(self).cursor_state() == old(self).cursor_state(),
    {
        self.writer.deinit();
    }

    /// Prepares the terminal again after a suspension.
    pub fn resume(&mut self)
        ensures
            final(self).cursor_state() == old(self).cursor_state(),
    {
        let _ = self.writer.init();
    }
}

/// A character on a virtual terminal, with its style.
#[derive(Clone, Copy, Debug, PartialEq, Eq, Structural)]
pub struct StyledChar {
    pub character: char,
    pub style: TextStyle,
}

/// An empty cell: a space in the plain style.
pub open spec fn blank_cell() -> StyledChar {
    StyledChar { character: ' ', style: TextStyle::plain() }
}

impl Default for StyledChar {
    fn default() -> (c: Self)
        ensures
            c == blank_cell(),
    {
        StyledChar { character: ' ', style: TextStyle::default() }
    }
}

/// What a virtual terminal ends up holding.
pub struct TerminalGrid {
    pub rows: Vec<Vec<StyledChar>>,
    pub background_color: Option<Color>,
}

/// What a virtual terminal holds.
pub struct VirtualState {
    pub row: u16,
    pub column: u16,
    pub colors: Colors,
    pub grid: Seq<Seq<StyledChar>>,
    pub background_color: Option<Color>,
    pub row_heights: Seq<u16>,
}

/// A terminal that prints into a grid of cells, to check what a presentation would draw.
pub struct VirtualTerminal {
    row: u16,
    column: u16,
    colors: Colors,
    rows: Vec<Vec<StyledChar>>,
    background_color: Option<Color>,
    row_heights: Vec<u16>,
}

/// The height of the row the cursor is in, or 1 outside the grid.
pub open spec fn current_height(s: VirtualState) -> u16 {
    if s.row < s.row_heights.len() {
        s.row_heights[s.row as int]
    } else {
        1
    }
}

/// The heights with the cursor's row set to `height`, when it is in the grid.
pub open spec fn with_height(s: VirtualState, height: u16) -> Seq<u16> {
    if s.row < s.row_heights.len() {
        s.row_heights.update(s.row as int, height)
    } else {
        s.row_heights
    }
}

/// How many characters of a text of length `len` land on the grid from the cursor on.
pub open spec fn written_count(s: VirtualState, len: nat) -> nat {
    if s.row < s.grid.len() && s.column < s.grid[s.row as int].len() {
        let room = (s.grid[s.row as int].len() - s.column) as nat;
        if len <= room {
            len
        } else {
            room
        }
    } else {
        0
    }
}

/// A row with `text` written from `start` on, in the given style.
pub open spec fn write_row(
    row: Seq<StyledChar>,
    start: int,
    text: Seq<char>,
    style: TextStyle,
) -> Seq<StyledChar> {
    Seq::new(row.len(), |i: int| write_cell(row, start, text, style, i))
}

/// The cell at `i` of a row with `text` written from `start` on.
pub open spec fn write_cell(
    row: Seq<StyledChar>,
    start: int,
    text: Seq<char>,
    style: TextStyle,
    i: int,
) -> StyledChar {
    if start <= i && i < start + text.len() {
        StyledChar { character: text[i - start], style }
    } else {
        row[i]
    }
}

/// Writing into a row keeps its width, and leaves the cells outside the text as they were.
pub proof fn lemma_write_row(row: Seq<StyledChar>, start: int, text: Seq<char>, style: TextStyle)
    ensures
        write_row(row, start, text, style).len() == row.len(),
        forall|i: int|
            0 <= i < row.len() && !(start <= i < start + text.len()) ==> #[trigger] write_row(
                row,
                start,
                text,
                style,
            )[i] == row[i],
        forall|i: int|
            0 <= i < row.len() && start <= i < start + text.len() ==> #[trigger] write_row(
                row,
                start,
                text,
                style,
            )[i] == (StyledChar { character: text[i - start], style }),
{
}

/// Writing one more character of a text extends the written part by that character's cell.
pub proof fn lemma_write_row_step(
    row: Seq<StyledChar>,
    start: int,
    text: Seq<char>,
    i: int,
    c: char,
    style: TextStyle,
)
    requires
        0 <= i < text.len(),
        c == text[i],
        0 <= start,
        start + i < row.len(),
    ensures
        write_row(row, start, text.take(i), style).update(
            start + i,
            StyledChar { character: c, style },
        ) =~= write_row(row, start, text.take(i + 1), style),
{
    let w = write_row(row, start, text.take(i), style);
    let cell = StyledChar { character: c, style };
    let a = w.update(start + i, cell);
    let b = write_row(row, start, text.take(i + 1), style);
    assert(w.len() == row.len());
    assert forall|k: int| 0 <= k < row.len() implies #[trigger] a[k] == b[k] by {
        if k == start + i {
            assert(text.take(i + 1)[i] == c);
        } else {
            if start <= k && k < start + i {
                assert(text.take(i + 1)[k - start] == text.take(i)[k - start]);
            }
        }
    }
}

/// The state after printing `text` in `style` with the given properties.
pub open spec fn printed(
    s: VirtualState,
    text: Seq<char>,
    style: TextStyle,
    properties: TextProperties,
) -> VirtualState {
    let count = written_count(s, text.len());
    let cell_style = merged_style(style, TextStyle { colors: s.colors, ..TextStyle::plain() });
    let grid = if count > 0 {
        s.grid.update(
            s.row as int,
            write_row(s.grid[s.row as int], s.column as int, text.take(count as int), cell_style),
        )
    } else {
        s.grid
    };
    let height = if current_height(s) >= properties.height {
        current_height(s)
    } else {
        properties.height as u16
    };
    VirtualState {
        grid,
        column: (s.column + count) as u16,
        row_heights: with_height(s, height),
        ..s
    }
}

/// Whether every row is `width` cells wide and every row has a height.
pub open spec fn grid_wf(s: VirtualState) -> bool {
    &&& s.row_heights.len() == s.grid.len()
    &&& forall|r: int| 0 <= r < s.grid.len() ==> (#[trigger] s.grid[r]).len() <= u16::MAX
}

impl VirtualTerminal {
    /// What this terminal holds.
    pub closed spec fn state(&self) -> VirtualState {
        VirtualState {
            row: self.row,
            column: self.column,
            colors: self.colors,
            grid: self.rows@.map_values(|r: Vec<StyledChar>| r@),
            background_color: self.background_color,
            row_heights: self.row_heights@,
        }
    }

    /// A terminal of the given size: blank cells, rows one cell high, the cursor at the top left.
    pub fn new(dimensions: WindowSize) -> (t: Self)
        ensures
            t.state().row == 0,
            t.state().column == 0,
            t.state().colors == (Colors { background: None, foreground: None }),
            t.state().background_color is None,
            t.state().grid == Seq::new(
                dimensions.rows as nat,
                |_r: int| Seq::new(dimensions.columns as nat, |_c: int| blank_cell()),
            ),
            t.state().row_heights == Seq::new(dimensions.rows as nat, |_r: int| 1u16),
            grid_wf(t.state()),
    {
        let mut rows: Vec<Vec<StyledChar>> = Vec::new();
        let mut row_heights: Vec<u16> = Vec::new();
        let mut r: u16 = 0;
        while r < dimensions.rows
            invariant
                r <= dimensions.rows,
                rows@.len() == r,
                row_heights@.len() == r,
                forall|i: int|
                    0 <= i < r ==> (#[trigger] rows@[i])@ == Seq::new(
                        dimensions.columns as nat,
                        |_c: int| blank_cell(),
                    ),
                forall|i: int| 0 <= i < r ==> #[trigger] row_heights@[i] == 1u16,
            decreases dimensions.rows - r,
        {
            let mut row: Vec<StyledChar> = Vec::new();
            let mut c: u16 = 0;
            while c < dimensions.columns
                invariant
                    c <= dimensions.columns,
                    row@ == Seq::new(c as nat, |_c: int| blank_cell()),
                decreases dimensions.columns - c,
            {
                row.push(StyledChar::default());
                c += 1;
                assert(row@ =~= Seq::new(c as nat, |_c: int| blank_cell()));
            }
            rows.push(row);
            row_heights.push(1);
            r += 1;
        }
        let t = VirtualTerminal {
            row: 0,
            column: 0,
            colors: Colors::default(),
            rows,
            background_color: None,
            row_heights,
        };
        assert(t.state().grid =~= Seq::new(
            dimensions.rows as nat,
            |_r: int| Seq::new(dimensions.columns as nat, |_c: int| blank_cell()),
        ));
        assert(t.state().row_heights =~= Seq::new(dimensions.rows as nat, |_r: int| 1u16));
        t
    }

    /// What this terminal ends up holding.
    pub fn into_contents(self) -> (g: TerminalGrid)
        ensures
            g.rows@.map_values(|r: Vec<StyledChar>| r@) == self.state().grid,
            g.background_color == self.state().background_color,
    {
        TerminalGrid { rows: self.rows, background_color: self.background_color }
    }

    /// The row the cursor is in.
    pub fn cursor_row(&self) -> (r: u16)
        ensures
            r == self.state().row,
    {
        self.row
    }

    fn current_row_height(&self) -> (h: u16)
        ensures
            h == current_height(self.state()),
    {
        if (self.row as usize) < self.row_heights.len() {
            self.row_heights[self.row as usize]
        } else {
            1
        }
    }

    fn set_current_row_height(&mut self, height: u16)
        ensures
            final(self).state() == (VirtualState {
                row_heights: with_height(old(self).state(), height),
                ..old(self).state()
            }),
    {
        if (self.row as usize) < self.row_heights.len() {
            self.row_heights.set(self.row as usize, height);
        }
        assert(self.state().grid =~= old(self).state().grid);
    }

    /// Moves the cursor.
    pub fn move_to(&mut self, column: u16, row: u16)
        ensures
            final(self).state() == (VirtualState { row, column, ..old(self).state() }),
    {
        self.column = column;
        self.row = row;
        assert(self.state().grid =~= old(self).state().grid);
    }

    /// Moves the cursor to a row, which starts one cell high.
    pub fn move_to_row(&mut self, row: u16)
        ensures
            final(self).state() == (VirtualState {
                row,
                row_heights: with_height(VirtualState { row, ..old(self).state() }, 1),
                ..old(self).state()
            }),
    {
        self.row = row;
        self.set_current_row_height(1);
    }

    /// Moves the cursor to a column.
    pub fn move_to_column(&mut self, column: u16)
        ensures
            final(self).state() == (VirtualState { column, ..old(self).state() }),
    {
        self.column = column;
        assert(self.state().grid =~= old(self).state().grid);
    }

    /// Moves the cursor down.
    pub fn move_down(&mut self, amount: u16)
        requires
            old(self).state().row + amount <= u16::MAX,
        ensures
            final(self).state() == (VirtualState {
                row: (old(self).state().row + amount) as u16,
                ..old(self).state()
            }),
    {
        self.row = self.row + amount;
        assert(self.state().grid =~= old(self).state().grid);
    }

    /// Moves the cursor to the start of the line after the current row, which starts one cell
    /// high.
    pub fn move_to_next_line(&mut self)
        requires
            old(self).state().row + current_height(old(self).state()) <= u16::MAX,
        ensures
            ({
                let s = old(self).state();
                let row = (s.row + current_height(s)) as u16;
                final(self).state() == (VirtualState {
                    row,
                    column: 0,
                    row_heights: with_height(VirtualState { row, ..s }, 1),
                    ..s
                })
            }),
    {
        let amount = self.current_row_height();
        self.row = self.row + amount;
        self.column = 0;
        self.set_current_row_height(1);
    }

    /// Prints text from the cursor on, in the given style merged with the current colors; what
    /// doesn't fit on the row is dropped, and the row grows to the text's height.
    pub fn print_text(&mut self, content: &str, style: &TextStyle, properties: &TextProperties)
        requires
            grid_wf(old(self).state()),
        ensures
            final(self).state() == printed(old(self).state(), content@, *style, *properties),
            grid_wf(final(self).state()),
    {
        let ghost s = self.state();
        let plain = TextStyle::default();
        let cell_style = style.merged(&plain.colors(self.colors));
        let chars = str_chars(content);
        let ghost count = written_count(s, chars@.len());
        proof {
            assert forall|k: int| 0 <= k < s.grid.len() implies (#[trigger] self.rows@[k])@ == s.grid[k] by {
            }
            if s.row < s.grid.len() {
                assert(write_row(s.grid[s.row as int], s.column as int, chars@.take(0), cell_style)
                    =~= s.grid[s.row as int]);
            }
        }
        let mut i: usize = 0;
        while i < chars.len()
            invariant
                i <= chars@.len(),
                chars@ == content@,
                s == old(self).state(),
                grid_wf(s),
                cell_style == merged_style(*style, TextStyle { colors: s.colors, ..TextStyle::plain() }),
                count == written_count(s, chars@.len()),
                self.row == s.row,
                self.colors == s.colors,
                self.background_color == s.background_color,
                self.row_heights@ == s.row_heights,
                self.rows@.len() == s.grid.len(),
                self.column as int == s.column + (if i <= count { i as nat } else { count }),
                forall|r: int|
                    0 <= r < s.grid.len() && r != s.row ==> (#[trigger] self.rows@[r])@ == s.grid[r],
                s.row < s.grid.len() ==> self.rows@[s.row as int]@ == write_row(
                    s.grid[s.row as int],
                    s.column as int,
                    chars@.take(if i <= count { i as int } else { count as int }),
                    cell_style,
                ),
            decreases chars@.len() - i,
        {
            let r = self.row as usize;
            let c = self.column as usize;
            if r < self.rows.len() && c < self.rows[r].len() {
                proof {
                    assert(r == s.row);
                    assert(s.row < s.grid.len());
                    assert(self.rows@[s.row as int]@ == write_row(
                        s.grid[s.row as int],
                        s.column as int,
                        chars@.take(if i <= count { i as int } else { count as int }),
                        cell_style,
                    ));
                    lemma_write_row(
                        s.grid[s.row as int],
                        s.column as int,
                        chars@.take(if i <= count { i as int } else { count as int }),
                        cell_style,
                    );
                    assert(self.rows@[r as int]@.len() == s.grid[s.row as int].len());
                    assert(s.grid[s.row as int].len() <= u16::MAX);
                    if i >= count {
                        assert(self.column == s.column + count);
                    }
                    assert(i < count);
                    assert(c == s.column + i);
                }
                let cell = StyledChar { character: chars[i], style: cell_style };
                let ghost before = self.rows@[r as int]@;
                assert(c < before.len());
                self.rows[r].set(c, cell);
                self.column = self.column + 1;
                proof {
                    assert((if i <= count { i as int } else { count as int }) == i as int);
                    assert(self.rows@[r as int]@ == before.update(c as int, cell));
                    lemma_write_row_step(
                        s.grid[s.row as int],
                        s.column as int,
                        chars@,
                        i as int,
                        chars@[i as int],
                        cell_style,
                    );
                }
            } else {
                proof {
                    if s.row < s.grid.len() {
                        assert(self.rows@[r as int]@.len() == s.grid[s.row as int].len());
                    }
                    if i < count {
                        assert(s.row < s.grid.len());
                    }
                    assert(i >= count);
                }
            }
            i += 1;
        }
        let height = self.current_row_height();
        let new_height = if height >= properties.height as u16 {
            height
        } else {
            properties.height as u16
        };
        let ghost mid = self.state();
        proof {
            assert forall|k: int| 0 <= k < s.grid.len() implies #[trigger] mid.grid[k] == self.rows@[k]@ by {
            }
        }
        self.set_current_row_height(new_height);
        proof {
            let p = printed(s, content@, *style, *properties);
            assert(self.state().grid == mid.grid);
            if count > 0 {
                assert(mid.grid[s.row as int] == p.grid[s.row as int]);
            }
            assert forall|k: int| 0 <= k < p.grid.len() implies #[trigger] self.state().grid[k]
                == p.grid[k] by {
                if k != s.row {
                    assert(p.grid[k] == s.grid[k]);
                }
                if count == 0 && k == s.row {
                    assert(chars@.take(0) =~= Seq::<char>::empty());
                    assert(write_row(s.grid[s.row as int], s.column as int, chars@.take(0), cell_style)
                        =~= s.grid[s.row as int]);
                }
            }
            assert(self.state().grid =~= p.grid);
        }
    }

    /// Blanks every cell, keeping their styles, and takes the current background color.
    pub fn clear_screen(&mut self)
        ensures
            ({
                let s = old(self).state();
                final(self).state() == (VirtualState {
                    grid: Seq::new(
                        s.grid.len(),
                        |r: int|
                            Seq::new(
                                s.grid[r].len(),
                                |c: int| StyledChar { character: ' ', style: s.grid[r][c].style },
                            ),
                    ),
                    background_color: s.colors.background,
                    ..s
                })
            }),
    {
        let ghost s = self.state();
        let mut r: usize = 0;
        while r < self.rows.len()
            invariant
                r <= self.rows@.len(),
                self.rows@.len() == s.grid.len(),
                forall|k: int|
                    r <= k < s.grid.len() ==> (#[trigger] self.rows@[k])@ == s.grid[k],
                forall|k: int|
                    0 <= k < r ==> (#[trigger] self.rows@[k])@ == Seq::new(
                        s.grid[k].len(),
                        |c: int| StyledChar { character: ' ', style: s.grid[k][c].style },
                    ),
                self.row == s.row,
                self.column == s.column,
                self.colors == s.colors,
                self.background_color == s.background_color,
                self.row_heights@ == s.row_heights,
            decreases self.rows@.len() - r,
        {
            let mut c: usize = 0;
            while c < self.rows[r].len()
                invariant
                    r < self.rows@.len(),
                    self.rows@.len() == s.grid.len(),
                    c <= self.rows@[r as int]@.len(),
                    self.rows@[r as int]@.len() == s.grid[r as int].len(),
                    forall|k: int| 0 <= k < c ==> (#[trigger] self.rows@[r as int]@[k]) == (StyledChar {
                        character: ' ',
                        style: s.grid[r as int][k].style,
                    }),
                    forall|k: int|
                        c <= k < s.grid[r as int].len() ==> (#[trigger] self.rows@[r as int]@[k])
                            == s.grid[r as int][k],
                    forall|k: int|
                        r < k < s.grid.len() ==> (#[trigger] self.rows@[k])@ == s.grid[k],
                    forall|k: int|
                        0 <= k < r ==> (#[trigger] self.rows@[k])@ == Seq::new(
                            s.grid[k].len(),
                            |c: int| StyledChar { character: ' ', style: s.grid[k][c].style },
                        ),
                    self.row == s.row,
                    self.column == s.column,
                    self.colors == s.colors,
                    self.background_color == s.background_color,
                    self.row_heights@ == s.row_heights,
                decreases self.rows@[r as int]@.len() - c,
            {
                let style = self.rows[r][c].style;
                self.rows[r].set(c, StyledChar { character: ' ', style });
                c += 1;
            }
            assert(self.rows@[r as int]@ =~= Seq::new(
                s.grid[r as int].len(),
                |c: int| StyledChar { character: ' ', style: s.grid[r as int][c].style },
            ));
            r += 1;
        }
        self.background_color = self.colors.background;
        assert(self.state().grid =~= Seq::new(
            s.grid.len(),
            |r: int|
                Seq::new(
                    s.grid[r].len(),
                    |c: int| StyledChar { character: ' ', style: s.grid[r][c].style },
                ),
        ));
    }

    /// Sets the colors that printed text takes when it has none of its own.
    pub fn set_colors(&mut self, colors: Colors)
        ensures
            final(self).state() == (VirtualState { colors, ..old(self).state() }),
    {
        self.colors = colors;
        assert(self.state().grid =~= old(self).state().grid);
    }

    /// Sets the background color.
    pub fn set_background_color(&mut self, color: Color)
        ensures
            final(self).state() == (VirtualState {
                colors: Colors { background: Some(color), ..old(self).state().colors },
                ..old(self).state()
            }),
    {
        self.colors.background = Some(color);
        assert(self.state().grid =~= old(self).state().grid);
    }
}

/// Whether a command can run on a virtual terminal without its cursor row overflowing.
pub open spec fn runnable(s: VirtualState, command: TerminalCommand) -> bool {
    match command {
        TerminalCommand::MoveDown(amount) => s.row + amount <= u16::MAX,
        TerminalCommand::MoveToNextLine => s.row + current_height(s) <= u16::MAX,
        _ => true,
    }
}

/// What a command does to a virtual terminal.
pub open spec fn run_command(s: VirtualState, command: TerminalCommand) -> VirtualState {
    match command {
        TerminalCommand::MoveTo { column, row } => VirtualState { row, column, ..s },
        TerminalCommand::MoveToRow(row) => VirtualState {
            row,
            row_heights: with_height(VirtualState { row, ..s }, 1),
            ..s
        },
        TerminalCommand::MoveToColumn(column) => VirtualState { column, ..s },
        TerminalCommand::MoveDown(amount) => VirtualState { row: (s.row + amount) as u16, ..s },
        TerminalCommand::MoveToNextLine => {
            let row = (s.row + current_height(s)) as u16;
            VirtualState { row, column: 0, row_heights: with_height(VirtualState { row, ..s }, 1), ..s }
        },
        TerminalCommand::PrintText { content, style, properties } => printed(
            s,
            content@,
            style,
            properties,
        ),
        TerminalCommand::ClearScreen => VirtualState {
            grid: Seq::new(
                s.grid.len(),
                |r: int|
                    Seq::new(
                        s.grid[r].len(),
                        |c: int| StyledChar { character: ' ', style: s.grid[r][c].style },
                    ),
            ),
            background_color: s.colors.background,
            ..s
        },
        TerminalCommand::SetColors(colors) => VirtualState { colors, ..s },
        TerminalCommand::SetBackgroundColor(color) => VirtualState {
            colors: Colors { background: Some(color), ..s.colors },
            ..s
        },
        _ => s,
    }
}

impl VirtualTerminal {
    /// Runs a command.
    pub fn execute(&mut self, command: &TerminalCommand)
        requires
            grid_wf(old(self).state()),
            runnable(old(self).state(), *command),
        ensures
            final(self).state() == run_command(old(self).state(), *command),
            grid_wf(final(self).state()),
    {
        match command {
            TerminalCommand::MoveTo { column, row } => self.move_to(*column, *row),
            TerminalCommand::MoveToRow(row) => self.move_to_row(*row),
            TerminalCommand::MoveToColumn(column) => self.move_to_column(*column),
            TerminalCommand::MoveDown(amount) => self.move_down(*amount),
            TerminalCommand::MoveToNextLine => self.move_to_next_line(),
            TerminalCommand::PrintText { content, style, properties } => {
                self.print_text(content.as_str(), style, properties)
            },
            TerminalCommand::ClearScreen => self.clear_screen(),
            TerminalCommand::SetColors(colors) => self.set_colors(*colors),
            TerminalCommand::SetBackgroundColor(color) => self.set_background_color(*color),
            TerminalCommand::BeginUpdate
            | TerminalCommand::EndUpdate
            | TerminalCommand::Flush
            | TerminalCommand::SetCursorBoundaries { .. } => {},
        }
    }
}

} // verus!
