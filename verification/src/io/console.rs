//! Text console: a grid of cells with a cursor, colours and ANSI escape
//! sequences for colour, cursor movement and erasing.
use crate::io::framebuffer;
use crate::io::framebuffer::{FramebufferPresenter, FramebufferResult};
use crate::text;
use vstd::prelude::*;
use vstd::string::*;
use vstd::utf8::*;

verus! {

pub const COLS: usize = 128;

pub const ROWS: usize = 48;

/// Code points of the control characters that the console interprets.
pub const BACKSPACE: u8 = 8;

pub const LINE_FEED: u8 = 10;

pub const CARRIAGE_RETURN: u8 = 13;

pub const SPACE: u8 = 32;

/// Console configuration.
#[derive(Debug, Clone, Copy, PartialEq, Eq)]
pub struct ConsoleConfig {
    pub cols: usize,
    pub rows: usize,
    pub default_fg: u32,
    pub default_bg: u32,
    pub font_width: usize,
    pub font_height: usize,
    pub enable_ansi: bool,
    pub enable_serial_fallback: bool,
    pub collect_metrics: bool,
    pub log_operations: bool,
}

impl Default for ConsoleConfig {
    fn default() -> (r: Self)
        ensures
            r == (ConsoleConfig {
                cols: 128,
                rows: 48,
                default_fg: 0xE6EDF3,
                default_bg: 0x0F1923,
                font_width: 8,
                font_height: 16,
                enable_ansi: true,
                enable_serial_fallback: true,
                collect_metrics: true,
                log_operations: false,
            }),
    {
        ConsoleConfig {
            cols: 128,
            rows: 48,
            default_fg: 0xE6EDF3,
            default_bg: 0x0F1923,
            font_width: 8,
            font_height: 16,
            enable_ansi: true,
            enable_serial_fallback: true,
            collect_metrics: true,
            log_operations: false,
        }
    }
}

impl ConsoleConfig {
    /// The first rule that the configuration breaks, if any.
    pub open spec fn broken_rule(&self) -> Option<Seq<char>> {
        if self.cols == 0 || self.rows == 0 {
            Some("cols and rows must be > 0"@)
        } else if self.font_width == 0 || self.font_height == 0 {
            Some("font dimensions must be > 0"@)
        } else {
            None
        }
    }

    pub fn validate(&self) -> (r: Result<(), &'static str>)
        ensures
            match r {
                Ok(_) => self.broken_rule() is None,
                Err(e) => self.broken_rule() == Some(e@),
            },
    {
        if self.cols == 0 || self.rows == 0 {
            return Err("cols and rows must be > 0");
        }
        if self.font_width == 0 || self.font_height == 0 {
            return Err("font dimensions must be > 0");
        }
        Ok(())
    }

    pub fn with_metrics(self) -> (r: Self)
        ensures
            r == (ConsoleConfig { collect_metrics: true, ..self }),
    {
        ConsoleConfig { collect_metrics: true, ..self }
    }
}

#[derive(Debug, PartialEq, Eq)]
pub enum ConsoleError {
    NotInitialised,
    OutOfBounds { row: usize, col: usize },
    InvalidAnsi { seq: String },
    Config(String),
}

pub type ConsoleResult<T> = Result<T, ConsoleError>;

/// Colour (RGB).
pub type Color = u32;

/// A single cell of the terminal.
#[derive(Clone, Copy, Debug, PartialEq, Eq, Structural)]
pub struct Cell {
    pub ch: u8,
    pub fg: u32,
    pub bg: u32,
}

impl Default for Cell {
    fn default() -> (r: Self)
        ensures
            r == (Cell { ch: SPACE, fg: 0xE6EDF3, bg: 0x0F1923 }),
    {
        Cell { ch: SPACE, fg: 0xE6EDF3, bg: 0x0F1923 }
    }
}

/// Cursor position (0-indexed).
#[derive(Clone, Copy, Debug, PartialEq, Eq, Structural)]
pub struct Cursor {
    pub col: usize,
    pub row: usize,
}

impl Cursor {
    pub fn new(col: usize, row: usize) -> (r: Self)
        ensures
            r == (Cursor { col, row }),
    {
        Cursor { col, row }
    }

    pub fn is_valid(&self, cols: usize, rows: usize) -> (r: bool)
        ensures
            r == (self.col < cols && self.row < rows),
    {
        self.col < cols && self.row < rows
    }
}

/// Counters of the console.
#[derive(Debug, Clone, Copy, PartialEq, Eq)]
pub struct ConsoleMetrics {
    pub chars: u64,
    pub newlines: u64,
    pub backspaces: u64,
    pub clears: u64,
    pub cursor_moves: u64,
    pub ansi_sequences: u64,
    pub scrolls: u64,
}

impl Default for ConsoleMetrics {
    fn default() -> (r: Self)
        ensures
            r == (ConsoleMetrics {
                chars: 0,
                newlines: 0,
                backspaces: 0,
                clears: 0,
                cursor_moves: 0,
                ansi_sequences: 0,
                scrolls: 0,
            }),
    {
        ConsoleMetrics {
            chars: 0,
            newlines: 0,
            backspaces: 0,
            clears: 0,
            cursor_moves: 0,
            ansi_sequences: 0,
            scrolls: 0,
        }
    }
}

impl ConsoleMetrics {
    pub fn inc_char(&mut self)
        ensures
            *final(self) == (ConsoleMetrics {
                chars: old(self).chars.wrapping_add(1),
                ..*old(self)
            }),
    {
        self.chars = self.chars.wrapping_add(1);
    }

    pub fn inc_newline(&mut self)
        ensures
            *final(self) == (ConsoleMetrics {
                newlines: old(self).newlines.wrapping_add(1),
                ..*old(self)
            }),
    {
        self.newlines = self.newlines.wrapping_add(1);
    }

    pub fn inc_backspace(&mut self)
        ensures
            *final(self) == (ConsoleMetrics {
                backspaces: old(self).backspaces.wrapping_add(1),
                ..*old(self)
            }),
    {
        self.backspaces = self.backspaces.wrapping_add(1);
    }

    pub fn inc_clear(&mut self)
        ensures
            *final(self) == (ConsoleMetrics {
                clears: old(self).clears.wrapping_add(1),
                ..*old(self)
            }),
    {
        self.clears = self.clears.wrapping_add(1);
    }

    pub fn inc_cursor_move(&mut self)
        ensures
            *final(self) == (ConsoleMetrics {
                cursor_moves: old(self).cursor_moves.wrapping_add(1),
                ..*old(self)
            }),
    {
        self.cursor_moves = self.cursor_moves.wrapping_add(1);
    }

    pub fn inc_ansi(&mut self)
        ensures
            *final(self) == (ConsoleMetrics {
                ansi_sequences: old(self).ansi_sequences.wrapping_add(1),
                ..*old(self)
            }),
    {
        self.ansi_sequences = self.ansi_sequences.wrapping_add(1);
    }

    pub fn inc_scroll(&mut self)
        ensures
            *final(self) == (ConsoleMetrics {
                scrolls: old(self).scrolls.wrapping_add(1),
                ..*old(self)
            }),
    {
        self.scrolls = self.scrolls.wrapping_add(1);
    }

    /// A copy of the counters.
    pub fn snapshot(&self) -> (r: ConsoleMetricsSnapshot)
        ensures
            r == (ConsoleMetricsSnapshot {
                chars: self.chars,
                newlines: self.newlines,
                backspaces: self.backspaces,
                clears: self.clears,
                cursor_moves: self.cursor_moves,
                ansi_sequences: self.ansi_sequences,
                scrolls: self.scrolls,
            }),
    {
        ConsoleMetricsSnapshot {
            chars: self.chars,
            newlines: self.newlines,
            backspaces: self.backspaces,
            clears: self.clears,
            cursor_moves: self.cursor_moves,
            ansi_sequences: self.ansi_sequences,
            scrolls: self.scrolls,
        }
    }
}

/// A copy of [`ConsoleMetrics`] at one moment.
#[derive(Debug, Clone, Copy, PartialEq, Eq)]
pub struct ConsoleMetricsSnapshot {
    pub chars: u64,
    pub newlines: u64,
    pub backspaces: u64,
    pub clears: u64,
    pub cursor_moves: u64,
    pub ansi_sequences: u64,
    pub scrolls: u64,
}

// ---------------------------------------------------------------------------
// What is on the screen
// ---------------------------------------------------------------------------

/// What a console shows and what it has still to interpret.
#[verifier::ext_equal]
pub struct Screen {
    /// Rows of cells, top to bottom.
    pub cells: Seq<Seq<Cell>>,
    pub cursor: Cursor,
    pub fg: Color,
    pub bg: Color,
    pub cols: usize,
    pub rows: usize,
    /// Something has changed since the last time the screen was drawn.
    pub dirty: bool,
    /// An escape sequence has begun.
    pub escaped: bool,
    /// The escape sequence so far, without its escape character.
    pub pending: Seq<char>,
}

impl Screen {
    /// The cell that erasing leaves behind.
    pub open spec fn blank(self) -> Cell {
        Cell { ch: SPACE, fg: self.fg, bg: self.bg }
    }

    /// The grid has `rows` rows of `cols` cells; the cursor is on it, or at the
    /// start of the line below it.
    pub open spec fn wf(self) -> bool {
        &&& 0 < self.cols <= isize::MAX
        &&& 0 < self.rows <= isize::MAX
        &&& self.cells.len() == self.rows
        &&& forall|r: int| 0 <= r < self.rows ==> (#[trigger] self.cells[r]).len() == self.cols
        &&& self.cursor.col < self.cols
        &&& self.cursor.row < self.rows || (self.cursor.row == self.rows && self.cursor.col == 0)
    }

    /// The cells at which `hit` holds, replaced by `cell`.
    pub open spec fn filled(self, cell: Cell, hit: spec_fn(int, int) -> bool) -> Screen {
        Screen { cells: filled_cells(self.cells, cell, hit), ..self }
    }

    /// The cells at which `hit` holds, erased.
    pub open spec fn erased(self, hit: spec_fn(int, int) -> bool) -> Screen {
        Screen { dirty: true, ..self.filled(self.blank(), hit) }
    }

    /// All cells erased, with the background `bg`.
    pub open spec fn cleared(self, bg: Color) -> Screen {
        Screen {
            dirty: true,
            ..self.filled(Cell { ch: SPACE, fg: self.fg, bg }, |r: int, c: int| true)
        }
    }

    /// All rows moved up by one; the last is blank.
    pub open spec fn scrolled(self) -> Screen {
        let cell = self.blank();
        Screen {
            cells: self.cells.drop_first().push(Seq::new(self.cols as nat, |c: int| cell)),
            dirty: true,
            ..self
        }
    }

    /// A character at the cursor, which moves on; below the screen nothing
    /// happens.
    pub open spec fn put(self, ch: u8, fg: Color, bg: Color) -> Screen {
        let at = self.cursor;
        if at.row < self.rows && at.col < self.cols {
            Screen {
                cells: self.cells.update(
                    at.row as int,
                    self.cells[at.row as int].update(at.col as int, Cell { ch, fg, bg }),
                ),
                dirty: true,
                cursor: if at.col + 1 >= self.cols {
                    Cursor { col: 0, row: (at.row + 1) as usize }
                } else {
                    Cursor { col: (at.col + 1) as usize, row: at.row }
                },
                ..self
            }
        } else {
            self
        }
    }

    /// One step back: the character left of the cursor is erased; from the first
    /// column the cursor goes to the end of the line above.
    pub open spec fn stepped_back(self) -> Screen {
        let at = self.cursor;
        if at.col > 0 {
            let to = Cursor { col: (at.col - 1) as usize, row: at.row };
            Screen { cursor: to, ..self.erased(|r: int, c: int| r == to.row && c == to.col) }
        } else if at.row > 0 {
            Screen {
                cursor: Cursor { col: (self.cols - 1) as usize, row: (at.row - 1) as usize },
                ..self
            }
        } else {
            self
        }
    }

    /// The cursor moved by `dx` columns and `dy` rows, and held on the screen.
    pub open spec fn moved(self, dx: int, dy: int) -> Screen {
        Screen {
            cursor: Cursor {
                col: clamped(self.cursor.col + dx, self.cols - 1) as usize,
                row: clamped(self.cursor.row + dy, self.rows - 1) as usize,
            },
            ..self
        }
    }

    /// The cursor at the given place, if that is on the screen.
    pub open spec fn at(self, col: usize, row: usize) -> Screen {
        if col < self.cols && row < self.rows {
            Screen { cursor: Cursor { col, row }, ..self }
        } else {
            self
        }
    }

    /// A line feed: the start of the next line, for which the screen scrolls
    /// where there is none.
    pub open spec fn line_fed(self) -> Screen {
        if self.cursor.row + 1 >= self.rows {
            Screen {
                cursor: Cursor { col: 0, row: (self.rows - 1) as usize },
                ..self.scrolled()
            }
        } else {
            Screen {
                cursor: Cursor { col: 0, row: (self.cursor.row + 1) as usize },
                dirty: true,
                ..self
            }
        }
    }

    /// The screen after a character that is no part of an escape sequence.
    pub open spec fn after_char(self, ch: u8) -> Screen {
        if ch == LINE_FEED {
            self.line_fed()
        } else if ch == CARRIAGE_RETURN {
            Screen { cursor: Cursor { col: 0, ..self.cursor }, dirty: true, ..self }
        } else if ch == BACKSPACE {
            self.stepped_back()
        } else {
            self.put(ch, self.fg, self.bg)
        }
    }

    /// The screen after several such characters.
    pub open spec fn after_chars(self, s: Seq<u8>) -> Screen
        decreases s.len(),
    {
        if s.len() == 0 {
            self
        } else {
            self.after_chars(s.drop_last()).after_char(s.last())
        }
    }

    /// The screen after the command of an escape sequence.
    pub open spec fn after_command(
        self,
        command: char,
        params: Seq<usize>,
        config: ConsoleConfig,
    ) -> Screen {
        let n = signed(param(params, 0, 1));
        let mode = param(params, 0, 0);
        let at = self.cursor;
        if command == 'm' {
            let (fg, bg) = if params.len() == 0 || params == seq![0usize] {
                (config.default_fg, config.default_bg)
            } else {
                colours(self.fg, self.bg, params)
            };
            Screen { fg, bg, dirty: true, ..self }
        } else if command == 'A' {
            self.moved(0, -n)
        } else if command == 'B' {
            self.moved(0, n)
        } else if command == 'C' {
            self.moved(n, 0)
        } else if command == 'D' {
            self.moved(-n, 0)
        } else if command == 'H' || command == 'f' {
            self.at(less_one(param(params, 1, 1)), less_one(param(params, 0, 1)))
        } else if command == 'J' {
            if mode == 0 {
                self.erased(|r: int, c: int| r > at.row || (r == at.row && c >= at.col))
            } else if mode == 1 {
                self.erased(|r: int, c: int| r < at.row || (r == at.row && c <= at.col))
            } else if mode == 2 {
                Screen { cursor: Cursor { col: 0, row: 0 }, ..self.cleared(self.bg) }
            } else {
                self
            }
        } else if command == 'K' {
            if mode == 0 {
                self.erased(|r: int, c: int| r == at.row && c >= at.col)
            } else if mode == 1 {
                self.erased(|r: int, c: int| r == at.row && c <= at.col)
            } else if mode == 2 {
                self.erased(|r: int, c: int| r == at.row)
            } else {
                self
            }
        } else {
            self
        }
    }

    /// The command has a meaning here: what it erases is on the screen, and the
    /// distance it moves by is a number that can be added to the cursor.
    pub open spec fn takes(self, command: char, params: Seq<usize>) -> bool {
        let n = signed(param(params, 0, 1));
        let mode = param(params, 0, 0);
        if command == 'A' {
            fits(-n) && fits(self.cursor.row - n)
        } else if command == 'B' {
            fits(self.cursor.row + n)
        } else if command == 'C' {
            fits(self.cursor.col + n)
        } else if command == 'D' {
            fits(-n) && fits(self.cursor.col - n)
        } else if command == 'J' {
            mode == 1 ==> self.cursor.row < self.rows
        } else if command == 'K' {
            mode <= 2 ==> self.cursor.row < self.rows
        } else {
            true
        }
    }

    /// The screen after a whole escape sequence.
    pub open spec fn after_sequence(self, seq: Seq<char>, config: ConsoleConfig) -> Screen {
        if !config.enable_ansi {
            self.after_chars(encode_utf8(seq))
        } else {
            match command_of(seq) {
                Some((command, params)) => self.after_command(command, params, config),
                None => self,
            }
        }
    }

    /// The command of the sequence, if it has one, has a meaning here.
    pub open spec fn takes_sequence(self, seq: Seq<char>, config: ConsoleConfig) -> bool {
        config.enable_ansi ==> match command_of(seq) {
            Some((command, params)) => self.takes(command, params),
            None => true,
        }
    }
}

/// The cells at which `hit` holds, replaced by `cell`.
pub open spec fn filled_cells(
    cells: Seq<Seq<Cell>>,
    cell: Cell,
    hit: spec_fn(int, int) -> bool,
) -> Seq<Seq<Cell>> {
    Seq::new(
        cells.len(),
        |r: int|
            Seq::new(
                cells[r].len(),
                |c: int|
                    if hit(r, c) {
                        cell
                    } else {
                        cells[r][c]
                    },
            ),
    )
}

/// `x`, not below 0 nor above `max`.
pub open spec fn clamped(x: int, max: int) -> int {
    if x < 0 {
        0
    } else if x > max {
        max
    } else {
        x
    }
}

/// The parameter at `i`, or `default` where there is none.
pub open spec fn param(params: Seq<usize>, i: int, default: usize) -> usize {
    if i < params.len() {
        params[i]
    } else {
        default
    }
}

/// One less, but not below 0.
pub open spec fn less_one(n: usize) -> usize {
    if n == 0 {
        0
    } else {
        (n - 1) as usize
    }
}

/// The signed number with the bits of `n`.
pub open spec fn signed(n: usize) -> int {
    if n <= isize::MAX {
        n as int
    } else {
        n - usize::MAX - 1
    }
}

/// `n` is a signed machine integer.
pub open spec fn fits(n: int) -> bool {
    isize::MIN <= n <= isize::MAX
}

/// The eight colours of the escape sequences.
pub open spec fn palette(i: int) -> Color {
    if i == 0 {
        0x000000
    } else if i == 1 {
        0xF85149
    } else if i == 2 {
        0x3FB950
    } else if i == 3 {
        0xD29922
    } else if i == 4 {
        0x58A6FF
    } else if i == 5 {
        0xBC8CFF
    } else if i == 6 {
        0x39D353
    } else {
        0xE6EDF3
    }
}

/// Foreground and background after colour parameters: 30 to 37 set the one, 40
/// to 47 the other, and the last of each counts.
pub open spec fn colours(fg: Color, bg: Color, params: Seq<usize>) -> (Color, Color)
    decreases params.len(),
{
    if params.len() == 0 {
        (fg, bg)
    } else {
        let (f, b) = colours(fg, bg, params.drop_last());
        let p = params.last();
        if 30 <= p <= 37 {
            (palette(p - 30), b)
        } else if 40 <= p <= 47 {
            (f, palette(p - 40))
        } else {
            (f, b)
        }
    }
}

pub open spec fn is_digit(ch: char) -> bool {
    '0' as int <= ch as int <= '9' as int
}

pub open spec fn is_letter(ch: char) -> bool {
    ('A' as int <= ch as int <= 'Z' as int) || ('a' as int <= ch as int <= 'z' as int)
}

/// The number that decimal digits stand for.
pub open spec fn value(digits: Seq<char>) -> nat
    decreases digits.len(),
{
    if digits.len() == 0 {
        0
    } else {
        value(digits.drop_last()) * 10 + (digits.last() as int - '0' as int) as nat
    }
}

/// The parameter that decimal digits stand for; 0 where it is too large.
pub open spec fn number(digits: Seq<char>) -> usize {
    if value(digits) <= usize::MAX {
        value(digits) as usize
    } else {
        0
    }
}

/// The digits after the last separator.
pub open spec fn open_digits(s: Seq<char>) -> Seq<char>
    decreases s.len(),
{
    if s.len() == 0 || s.last() == ';' {
        Seq::empty()
    } else {
        open_digits(s.drop_last()).push(s.last())
    }
}

/// The parameters before the last separator; empty ones are left out.
pub open spec fn closed_params(s: Seq<char>) -> Seq<usize>
    decreases s.len(), 0int,
{
    if s.len() == 0 {
        Seq::empty()
    } else if s.last() == ';' {
        params_of(s.drop_last())
    } else {
        closed_params(s.drop_last())
    }
}

/// The parameters written as decimal numbers with semicolons between them.
pub open spec fn params_of(s: Seq<char>) -> Seq<usize>
    decreases s.len(), 1int,
{
    let digits = open_digits(s);
    if digits.len() == 0 {
        closed_params(s)
    } else {
        closed_params(s).push(number(digits))
    }
}

/// Where the parameters that begin at `i` end.
pub open spec fn param_end(s: Seq<char>, i: int) -> int
    decreases s.len() - i,
{
    if i < s.len() && (is_digit(s[i]) || s[i] == ';') {
        param_end(s, i + 1)
    } else {
        i
    }
}

/// The command of an escape sequence, with its parameters: an opening bracket,
/// parameters, and the first character that belongs to none.
pub open spec fn command_of(s: Seq<char>) -> Option<(char, Seq<usize>)> {
    if s.len() == 0 || s[0] != '[' {
        None
    } else {
        let i = param_end(s, 1);
        if i < s.len() {
            Some((s[i], params_of(s.subrange(1, i))))
        } else {
            None
        }
    }
}

/// The counters after a character that is no part of an escape sequence.
pub open spec fn counted_char(m: ConsoleMetrics, ch: u8) -> ConsoleMetrics {
    if ch == LINE_FEED {
        ConsoleMetrics { newlines: m.newlines.wrapping_add(1), ..m }
    } else if ch == CARRIAGE_RETURN {
        m
    } else if ch == BACKSPACE {
        ConsoleMetrics { backspaces: m.backspaces.wrapping_add(1), ..m }
    } else {
        ConsoleMetrics { chars: m.chars.wrapping_add(1), ..m }
    }
}

/// The counters after several such characters.
pub open spec fn counted_chars(m: ConsoleMetrics, s: Seq<u8>) -> ConsoleMetrics
    decreases s.len(),
{
    if s.len() == 0 {
        m
    } else {
        counted_char(counted_chars(m, s.drop_last()), s.last())
    }
}

/// The counters after a command.
pub open spec fn counted_command(m: ConsoleMetrics, command: char) -> ConsoleMetrics {
    if command == 'm' {
        ConsoleMetrics { ansi_sequences: m.ansi_sequences.wrapping_add(1), ..m }
    } else if command == 'A' || command == 'B' || command == 'C' || command == 'D' || command == 'H'
        || command == 'f' {
        ConsoleMetrics { cursor_moves: m.cursor_moves.wrapping_add(1), ..m }
    } else if command == 'J' || command == 'K' {
        ConsoleMetrics { clears: m.clears.wrapping_add(1), ..m }
    } else {
        m
    }
}

/// The counters after a whole escape sequence.
pub open spec fn counted_sequence(
    m: ConsoleMetrics,
    seq: Seq<char>,
    config: ConsoleConfig,
) -> ConsoleMetrics {
    if !config.enable_ansi {
        counted_chars(m, encode_utf8(seq))
    } else {
        match command_of(seq) {
            Some((command, params)) => counted_command(m, command),
            None => m,
        }
    }
}

// ---------------------------------------------------------------------------
// The state of the terminal
// ---------------------------------------------------------------------------

/// Console state.
#[derive(Debug)]
pub struct ConsoleState {
    pub cells: Vec<Vec<Cell>>,
    pub cursor: Cursor,
    pub fg: Color,
    pub bg: Color,
    pub cols: usize,
    pub rows: usize,
    pub dirty: bool,
    pub escaped: bool,
    pub ansi_buffer: String,
}

impl View for ConsoleState {
    type V = Screen;

    open spec fn view(&self) -> Screen {
        Screen {
            cells: Seq::new(self.cells@.len(), |r: int| self.cells@[r]@),
            cursor: self.cursor,
            fg: self.fg,
            bg: self.bg,
            cols: self.cols,
            rows: self.rows,
            dirty: self.dirty,
            escaped: self.escaped,
            pending: self.ansi_buffer@,
        }
    }
}

impl ConsoleState {
    /// An empty screen of the configured size.
    pub fn new(config: &ConsoleConfig) -> (r: Self)
        requires
            0 < config.cols <= isize::MAX,
            0 < config.rows <= isize::MAX,
        ensures
            r@.wf(),
            r@ == (Screen {
                cells: Seq::new(
                    config.rows as nat,
                    |i: int|
                        Seq::new(
                            config.cols as nat,
                            |j: int| Cell { ch: SPACE, fg: 0xE6EDF3, bg: 0x0F1923 },
                        ),
                ),
                cursor: Cursor { col: 0, row: 0 },
                fg: config.default_fg,
                bg: config.default_bg,
                cols: config.cols,
                rows: config.rows,
                dirty: false,
                escaped: false,
                pending: Seq::empty(),
            }),
    {
        let ghost line = Seq::new(
            config.cols as nat,
            |j: int| Cell { ch: SPACE, fg: 0xE6EDF3, bg: 0x0F1923 },
        );
        let mut cells: Vec<Vec<Cell>> = Vec::new();
        let mut r: usize = 0;
        while r < config.rows
            invariant
                r <= config.rows,
                cells@.len() == r,
                line == Seq::new(
                    config.cols as nat,
                    |j: int| Cell { ch: SPACE, fg: 0xE6EDF3, bg: 0x0F1923 },
                ),
                forall|i: int| 0 <= i < r ==> (#[trigger] cells@[i])@ == line,
            decreases config.rows - r,
        {
            let row = vec![Cell::default(); config.cols];
            assert(row@ =~= line);
            cells.push(row);
            r += 1;
        }
        let s = ConsoleState {
            cells,
            cursor: Cursor::new(0, 0),
            fg: config.default_fg,
            bg: config.default_bg,
            cols: config.cols,
            rows: config.rows,
            dirty: false,
            escaped: false,
            ansi_buffer: String::new(),
        };
        assert(s@.cells =~= Seq::new(config.rows as nat, |i: int| line));
        s
    }

    /// Puts `cell` into the columns `from` to `to` of a row.
    fn fill_row(&mut self, row: usize, from: usize, to: usize, cell: Cell)
        requires
            old(self)@.wf(),
            row < old(self).rows,
            to <= old(self).cols,
        ensures
            final(self)@ == old(self)@.filled(
                cell,
                |r: int, c: int| r == row && from <= c < to,
            ),
            final(self)@.wf(),
    {
        let mut c: usize = from;
        while c < to
            invariant
                old(self)@.wf(),
                self@.wf(),
                row < self.rows,
                to <= self.cols,
                from <= c,
                c <= to || c == from,
                self@.cursor == old(self)@.cursor,
                self.fg == old(self).fg,
                self.bg == old(self).bg,
                self.rows == old(self).rows,
                self.cols == old(self).cols,
                self.dirty == old(self).dirty,
                self.escaped == old(self).escaped,
                self.ansi_buffer == old(self).ansi_buffer,
                forall|i: int|
                    0 <= i < self.rows && i != row ==> #[trigger] self.cells@[i] == old(self).cells@[i],
                forall|j: int|
                    0 <= j < self.cols ==> #[trigger] self.cells@[row as int]@[j] == (if from <= j
                        < c {
                        cell
                    } else {
                        old(self).cells@[row as int]@[j]
                    }),
            decreases to - c,
        {
            let ghost pre = *self;
            proof {
                assert(self@.cells[row as int].len() == self.cols);
            }
            self.cells[row].set(c, cell);
            proof {
                assert(self.cells@[row as int]@ == pre.cells@[row as int]@.update(c as int, cell));
                assert forall|i: int| 0 <= i < self.rows implies (#[trigger] self@.cells[i]).len()
                    == self.cols by {
                    assert(pre@.cells[i].len() == self.cols);
                }
            }
            c += 1;
        }
        proof {
            let want = old(self)@.filled(cell, |r: int, c: int| r == row && from <= c < to);
            assert forall|i: int| 0 <= i < self.rows implies #[trigger] self@.cells[i]
                == want.cells[i] by {
                assert(self@.cells[i].len() == self.cols);
                assert(old(self)@.cells[i].len() == self.cols);
                assert(self@.cells[i] =~= want.cells[i]);
            }
            assert(self@ =~= want);
        }
    }

    /// Puts `cell` into all rows from `from` to `to`.
    fn fill_rows(&mut self, from: usize, to: usize, cell: Cell)
        requires
            old(self)@.wf(),
            to <= old(self).rows,
        ensures
            final(self)@ == old(self)@.filled(cell, |r: int, c: int| from <= r < to),
            final(self)@.wf(),
    {
        let mut r: usize = from;
        proof {
            let none = |i: int, j: int| from <= i < r;
            assert forall|i: int| 0 <= i < self.rows implies #[trigger] self@.cells[i] == self@.filled(
                cell,
                none,
            ).cells[i] by {
                assert(self@.cells[i] =~= self@.filled(cell, none).cells[i]);
            }
            assert(self@ =~= self@.filled(cell, none));
        }
        while r < to
            invariant
                old(self)@.wf(),
                self@.wf(),
                from <= r,
                r <= to || r == from,
                to <= self.rows,
                self@ == old(self)@.filled(cell, |i: int, j: int| from <= i < r),
            decreases to - r,
        {
            let ghost pre = self@;
            let cols: usize = self.cols;
            self.fill_row(r, 0, cols, cell);
            proof {
                let want = old(self)@.filled(cell, |i: int, j: int| from <= i < r + 1);
                assert forall|i: int| 0 <= i < self.rows implies #[trigger] self@.cells[i]
                    == want.cells[i] by {
                    assert(old(self)@.cells[i].len() == self.cols);
                    assert(pre.cells[i].len() == self.cols);
                    assert(self@.cells[i] =~= want.cells[i]);
                }
                assert(self@ =~= want);
            }
            r += 1;
        }
        proof {
            let want = old(self)@.filled(cell, |r: int, c: int| from <= r < to);
            assert forall|i: int| 0 <= i < self.rows implies #[trigger] self@.cells[i]
                == want.cells[i] by {
                assert(self@.cells[i] =~= want.cells[i]);
            }
            assert(self@ =~= want);
        }
    }

    /// Erases the whole screen to the background `bg`; the cursor stays.
    pub fn clear(&mut self, bg: Color)
        requires
            old(self)@.wf(),
        ensures
            final(self)@ == old(self)@.cleared(bg),
            final(self)@.wf(),
    {
        let cell = Cell { ch: SPACE, fg: self.fg, bg };
        let rows: usize = self.rows;
        self.fill_rows(0, rows, cell);
        self.dirty = true;
        proof {
            lemma_same_fill(
                old(self)@,
                cell,
                |r: int, c: int| 0 <= r < rows,
                |r: int, c: int| true,
            );
        }
    }

    /// Puts a character at the cursor.
    pub fn put_char(&mut self, ch: u8, fg: Color, bg: Color)
        requires
            old(self)@.wf(),
        ensures
            final(self)@ == old(self)@.put(ch, fg, bg),
            final(self)@.wf(),
    {
        let row: usize = self.cursor.row;
        let col: usize = self.cursor.col;
        if row < self.rows && col < self.cols {
            proof {
                assert(self@.cells[row as int].len() == self.cols);
            }
            self.cells[row].set(col, Cell { ch, fg, bg });
            self.dirty = true;
            self.cursor.col = self.cursor.col + 1;
            if self.cursor.col >= self.cols {
                self.cursor.col = 0;
                self.cursor.row = self.cursor.row + 1;
            }
            proof {
                let want = old(self)@.put(ch, fg, bg);
                assert forall|i: int| 0 <= i < self.rows implies #[trigger] self@.cells[i]
                    == want.cells[i] && self@.cells[i].len() == self.cols by {
                    assert(old(self)@.cells[i].len() == self.cols);
                    assert(self@.cells[i] =~= want.cells[i]);
                }
                assert(self@ =~= want);
            }
        }
    }

    /// Moves all rows up by one.
    pub fn scroll(&mut self)
        requires
            old(self)@.wf(),
        ensures
            final(self)@ == old(self)@.scrolled(),
            final(self)@.wf(),
    {
        let cell = Cell { ch: SPACE, fg: self.fg, bg: self.bg };
        let _ = self.cells.remove(0);
        let row = vec![cell; self.cols];
        let ghost line = Seq::new(self.cols as nat, |c: int| cell);
        assert(row@ =~= line);
        self.cells.push(row);
        self.dirty = true;
        proof {
            let want = old(self)@.scrolled();
            assert(want.cells.last() =~= line);
            assert forall|i: int| 0 <= i < self.rows implies #[trigger] self@.cells[i]
                == want.cells[i] && self@.cells[i].len() == self.cols by {
                if i + 1 < self.rows {
                    assert(old(self)@.cells[i + 1].len() == self.cols);
                }
            }
            assert(self@ =~= want);
        }
    }

    /// Moves the cursor to a place on the screen; any other is refused.
    pub fn move_cursor(&mut self, col: usize, row: usize) -> (r: bool)
        requires
            old(self)@.wf(),
        ensures
            final(self)@ == old(self)@.at(col, row),
            final(self)@.wf(),
            r == (col < old(self).cols && row < old(self).rows),
    {
        if col < self.cols && row < self.rows {
            self.cursor.col = col;
            self.cursor.row = row;
            true
        } else {
            false
        }
    }

    /// Moves the cursor by so many columns and rows, as far as the screen goes.
    pub fn move_cursor_relative(&mut self, dx: isize, dy: isize)
        requires
            old(self)@.wf(),
            fits(old(self).cursor.col + dx),
            fits(old(self).cursor.row + dy),
        ensures
            final(self)@ == old(self)@.moved(dx as int, dy as int),
            final(self)@.wf(),
    {
        self.cursor.col = shifted(self.cursor.col, dx, self.cols);
        self.cursor.row = shifted(self.cursor.row, dy, self.rows);
    }

    /// Steps back by one character.
    pub fn backspace(&mut self)
        requires
            old(self)@.wf(),
        ensures
            final(self)@ == old(self)@.stepped_back(),
            final(self)@.wf(),
    {
        if self.cursor.col > 0 {
            let at = Cursor::new(self.cursor.col - 1, self.cursor.row);
            let cell = Cell { ch: SPACE, fg: self.fg, bg: self.bg };
            self.fill_row(at.row, at.col, at.col + 1, cell);
            self.cursor = at;
            self.dirty = true;
            proof {
                lemma_same_fill(
                    old(self)@,
                    cell,
                    |r: int, c: int| r == at.row && at.col <= c < at.col + 1,
                    |r: int, c: int| r == at.row && c == at.col,
                );
            }
        } else if self.cursor.row > 0 {
            self.cursor.row = self.cursor.row - 1;
            self.cursor.col = self.cols - 1;
        }
    }
}

/// Fills that hit the same cells of the grid are the same.
proof fn lemma_same_fill(
    s: Screen,
    cell: Cell,
    p: spec_fn(int, int) -> bool,
    q: spec_fn(int, int) -> bool,
)
    requires
        s.wf(),
        forall|r: int, c: int| 0 <= r < s.rows && 0 <= c < s.cols ==> #[trigger] p(r, c) == q(r, c),
    ensures
        s.filled(cell, p) == s.filled(cell, q),
{
    let a = s.filled(cell, p);
    let b = s.filled(cell, q);
    assert forall|i: int| 0 <= i < s.rows implies #[trigger] a.cells[i] == b.cells[i] by {
        assert(s.cells[i].len() == s.cols);
        assert forall|j: int| 0 <= j < s.cols implies #[trigger] a.cells[i][j] == b.cells[i][j] by {
            assert(p(i, j) == q(i, j));
        }
        assert(a.cells[i] =~= b.cells[i]);
    }
    assert(a =~= b);
}

/// Two fills with the same cell hit what either of them hits.
proof fn lemma_fill_twice(
    s: Screen,
    cell: Cell,
    p: spec_fn(int, int) -> bool,
    q: spec_fn(int, int) -> bool,
    both: spec_fn(int, int) -> bool,
)
    requires
        s.wf(),
        forall|r: int, c: int|
            0 <= r < s.rows && 0 <= c < s.cols ==> #[trigger] both(r, c) == (p(r, c) || q(r, c)),
    ensures
        s.filled(cell, p).filled(cell, q) == s.filled(cell, both),
{
    let a = s.filled(cell, p).filled(cell, q);
    let b = s.filled(cell, both);
    assert forall|i: int| 0 <= i < s.rows implies #[trigger] a.cells[i] == b.cells[i] by {
        assert(s.cells[i].len() == s.cols);
        assert forall|j: int| 0 <= j < s.cols implies #[trigger] a.cells[i][j] == b.cells[i][j] by {
            assert(both(i, j) == (p(i, j) || q(i, j)));
        }
        assert(a.cells[i] =~= b.cells[i]);
    }
    assert(a =~= b);
}

/// `x + d`, not below 0 nor beyond the last of `len` places.
fn shifted(x: usize, d: isize, len: usize) -> (r: usize)
    requires
        0 < len <= isize::MAX,
        x <= len,
        fits(x + d),
    ensures
        r == clamped(x + d, len - 1),
{
    let to: isize = x as isize + d;
    if to < 0 {
        0
    } else if to > len as isize - 1 {
        len - 1
    } else {
        to as usize
    }
}

// ---------------------------------------------------------------------------
// Escape sequences
// ---------------------------------------------------------------------------

/// The signed number with the bits of `n`.
fn to_signed(n: usize) -> (r: isize)
    ensures
        r == signed(n),
{
    if n <= isize::MAX as usize {
        n as isize
    } else {
        -((usize::MAX - n) as isize) - 1
    }
}

/// The parameter at `i`, or `default`.
fn param_or(params: &Vec<usize>, i: usize, default: usize) -> (r: usize)
    ensures
        r == param(params@, i as int, default),
{
    if i < params.len() {
        params[i]
    } else {
        default
    }
}

/// Colour `i` of the escape sequences.
fn palette_color(i: usize) -> (r: Color)
    ensures
        r == palette(i as int),
{
    match i {
        0 => 0x000000,
        1 => 0xF85149,
        2 => 0x3FB950,
        3 => 0xD29922,
        4 => 0x58A6FF,
        5 => 0xBC8CFF,
        6 => 0x39D353,
        _ => 0xE6EDF3,
    }
}

/// Sets the colours that the parameters name.
fn apply_colours(state: &mut ConsoleState, params: &Vec<usize>)
    ensures
        final(state)@ == ({
            let (fg, bg) = colours(old(state).fg, old(state).bg, params@);
            Screen { fg, bg, ..old(state)@ }
        }),
{
    let mut i: usize = 0;
    proof {
        assert(params@.take(0) =~= Seq::<usize>::empty());
    }
    while i < params.len()
        invariant
            i <= params@.len(),
            state@ == ({
                let (fg, bg) = colours(old(state).fg, old(state).bg, params@.take(i as int));
                Screen { fg, bg, ..old(state)@ }
            }),
        decreases params@.len() - i,
    {
        let p: usize = params[i];
        proof {
            assert(params@.take(i + 1).drop_last() =~= params@.take(i as int));
            assert(params@.take(i + 1).last() == p);
        }
        if 30 <= p && p <= 37 {
            state.fg = palette_color(p - 30);
        } else if 40 <= p && p <= 47 {
            state.bg = palette_color(p - 40);
        }
        i += 1;
    }
    assert(params@.take(i as int) =~= params@);
}

/// Erases part of the screen (mode 0: from the cursor on, 1: up to the cursor,
/// 2: all of it).
fn erase_screen(state: &mut ConsoleState, mode: usize)
    requires
        old(state)@.wf(),
        mode == 1 ==> old(state).cursor.row < old(state).rows,
    ensures
        final(state)@ == ({
            let s = old(state)@;
            let at = s.cursor;
            if mode == 0 {
                s.erased(|r: int, c: int| r > at.row || (r == at.row && c >= at.col))
            } else if mode == 1 {
                s.erased(|r: int, c: int| r < at.row || (r == at.row && c <= at.col))
            } else if mode == 2 {
                Screen { cursor: Cursor { col: 0, row: 0 }, ..s.cleared(s.bg) }
            } else {
                s
            }
        }),
        final(state)@.wf(),
{
    let at = state.cursor;
    let cell = Cell { ch: SPACE, fg: state.fg, bg: state.bg };
    let rows: usize = state.rows;
    let cols: usize = state.cols;
    let ghost s = state@;
    if mode == 0 {
        if at.row < rows {
            state.fill_row(at.row, at.col, cols, cell);
            state.fill_rows(at.row + 1, rows, cell);
            proof {
                lemma_fill_twice(
                    s,
                    cell,
                    |r: int, c: int| r == at.row && at.col <= c < cols,
                    |r: int, c: int| at.row + 1 <= r < rows,
                    |r: int, c: int| r > at.row || (r == at.row && c >= at.col),
                );
            }
        } else {
            proof {
                lemma_no_fill(
                    s,
                    cell,
                    |r: int, c: int| r > at.row || (r == at.row && c >= at.col),
                );
            }
        }
        state.dirty = true;
    } else if mode == 1 {
        state.fill_rows(0, at.row, cell);
        state.fill_row(at.row, 0, at.col + 1, cell);
        state.dirty = true;
        proof {
            lemma_fill_twice(
                s,
                cell,
                |r: int, c: int| 0 <= r < at.row,
                |r: int, c: int| r == at.row && 0 <= c < at.col + 1,
                |r: int, c: int| r < at.row || (r == at.row && c <= at.col),
            );
        }
    } else if mode == 2 {
        let bg: Color = state.bg;
        state.clear(bg);
        state.cursor = Cursor::new(0, 0);
    }
}

/// Erases part of the line (mode 0: from the cursor on, 1: up to the cursor,
/// 2: all of it).
fn erase_line(state: &mut ConsoleState, mode: usize)
    requires
        old(state)@.wf(),
        mode <= 2 ==> old(state).cursor.row < old(state).rows,
    ensures
        final(state)@ == ({
            let s = old(state)@;
            let at = s.cursor;
            if mode == 0 {
                s.erased(|r: int, c: int| r == at.row && c >= at.col)
            } else if mode == 1 {
                s.erased(|r: int, c: int| r == at.row && c <= at.col)
            } else if mode == 2 {
                s.erased(|r: int, c: int| r == at.row)
            } else {
                s
            }
        }),
        final(state)@.wf(),
{
    let at = state.cursor;
    let cell = Cell { ch: SPACE, fg: state.fg, bg: state.bg };
    let cols: usize = state.cols;
    let ghost s = state@;
    if mode == 0 {
        state.fill_row(at.row, at.col, cols, cell);
        state.dirty = true;
        proof {
            lemma_same_fill(
                s,
                cell,
                |r: int, c: int| r == at.row && at.col <= c < cols,
                |r: int, c: int| r == at.row && c >= at.col,
            );
        }
    } else if mode == 1 {
        state.fill_row(at.row, 0, at.col + 1, cell);
        state.dirty = true;
        proof {
            lemma_same_fill(
                s,
                cell,
                |r: int, c: int| r == at.row && 0 <= c < at.col + 1,
                |r: int, c: int| r == at.row && c <= at.col,
            );
        }
    } else if mode == 2 {
        state.fill_row(at.row, 0, cols, cell);
        state.dirty = true;
        proof {
            lemma_same_fill(
                s,
                cell,
                |r: int, c: int| r == at.row && 0 <= c < cols,
                |r: int, c: int| r == at.row,
            );
        }
    }
}

/// A fill that hits no cell of the grid changes nothing.
proof fn lemma_no_fill(s: Screen, cell: Cell, p: spec_fn(int, int) -> bool)
    requires
        s.wf(),
        forall|r: int, c: int| 0 <= r < s.rows && 0 <= c < s.cols ==> !#[trigger] p(r, c),
    ensures
        s.filled(cell, p) == s,
{
    let a = s.filled(cell, p);
    assert forall|i: int| 0 <= i < s.rows implies #[trigger] a.cells[i] == s.cells[i] by {
        assert(s.cells[i].len() == s.cols);
        assert(a.cells[i] =~= s.cells[i]);
    }
    assert(a =~= s);
}

/// Carries out the command of an escape sequence.
pub fn apply_command(
    state: &mut ConsoleState,
    command: char,
    params: &Vec<usize>,
    config: &ConsoleConfig,
    metrics: &mut ConsoleMetrics,
)
    requires
        old(state)@.wf(),
        old(state)@.takes(command, params@),
    ensures
        final(state)@ == old(state)@.after_command(command, params@, *config),
        final(state)@.wf(),
        *final(metrics) == counted_command(*old(metrics), command),
{
    match command {
        'm' => {
            if params.len() == 0 || (params.len() == 1 && params[0] == 0) {
                assert(params@.len() == 0 || params@ =~= seq![0usize]);
                state.fg = config.default_fg;
                state.bg = config.default_bg;
            } else {
                apply_colours(state, params);
            }
            state.dirty = true;
            metrics.inc_ansi();
        },
        'A' => {
            let n: isize = to_signed(param_or(params, 0, 1));
            state.move_cursor_relative(0, -n);
            metrics.inc_cursor_move();
        },
        'B' => {
            let n: isize = to_signed(param_or(params, 0, 1));
            state.move_cursor_relative(0, n);
            metrics.inc_cursor_move();
        },
        'C' => {
            let n: isize = to_signed(param_or(params, 0, 1));
            state.move_cursor_relative(n, 0);
            metrics.inc_cursor_move();
        },
        'D' => {
            let n: isize = to_signed(param_or(params, 0, 1));
            state.move_cursor_relative(-n, 0);
            metrics.inc_cursor_move();
        },
        'H' | 'f' => {
            let row: usize = param_or(params, 0, 1).saturating_sub(1);
            let col: usize = param_or(params, 1, 1).saturating_sub(1);
            let _ = state.move_cursor(col, row);
            metrics.inc_cursor_move();
        },
        'J' => {
            erase_screen(state, param_or(params, 0, 0));
            metrics.inc_clear();
        },
        'K' => {
            erase_line(state, param_or(params, 0, 0));
            metrics.inc_clear();
        },
        _ => {},
    }
}

/// Whether the command has a meaning on this screen.
fn takes_command(state: &ConsoleState, command: char, params: &Vec<usize>) -> (r: bool)
    requires
        state@.wf(),
    ensures
        r == state@.takes(command, params@),
{
    let n: isize = to_signed(param_or(params, 0, 1));
    let mode: usize = param_or(params, 0, 0);
    match command {
        'A' => n != isize::MIN && (state.cursor.row as isize).checked_sub(n).is_some(),
        'B' => (state.cursor.row as isize).checked_add(n).is_some(),
        'C' => (state.cursor.col as isize).checked_add(n).is_some(),
        'D' => n != isize::MIN && (state.cursor.col as isize).checked_sub(n).is_some(),
        'J' => mode != 1 || state.cursor.row < state.rows,
        'K' => mode > 2 || state.cursor.row < state.rows,
        _ => true,
    }
}

/// Applies a character that is no part of an escape sequence.
pub fn apply_char(
    state: &mut ConsoleState,
    ch: u8,
    config: &ConsoleConfig,
    metrics: &mut ConsoleMetrics,
)
    requires
        old(state)@.wf(),
    ensures
        final(state)@ == old(state)@.after_char(ch),
        final(state)@.wf(),
        *final(metrics) == counted_char(*old(metrics), ch),
{
    if ch == LINE_FEED {
        state.cursor.col = 0;
        if state.cursor.row + 1 >= state.rows {
            state.scroll();
            state.cursor.row = state.rows - 1;
        } else {
            state.cursor.row = state.cursor.row + 1;
        }
        state.dirty = true;
        metrics.inc_newline();
    } else if ch == CARRIAGE_RETURN {
        state.cursor.col = 0;
        state.dirty = true;
    } else if ch == BACKSPACE {
        state.backspace();
        metrics.inc_backspace();
    } else {
        let fg: Color = state.fg;
        let bg: Color = state.bg;
        state.put_char(ch, fg, bg);
        metrics.inc_char();
    }
}

/// Applies several characters.
fn apply_bytes(
    state: &mut ConsoleState,
    bytes: &[u8],
    config: &ConsoleConfig,
    metrics: &mut ConsoleMetrics,
)
    requires
        old(state)@.wf(),
    ensures
        final(state)@ == old(state)@.after_chars(bytes@),
        final(state)@.wf(),
        *final(metrics) == counted_chars(*old(metrics), bytes@),
        final(state).cols == old(state).cols,
        final(state).rows == old(state).rows,
{
    let mut i: usize = 0;
    proof {
        assert(bytes@.take(0) =~= Seq::<u8>::empty());
    }
    while i < bytes.len()
        invariant
            i <= bytes@.len(),
            state@.wf(),
            state.cols == old(state).cols,
            state.rows == old(state).rows,
            state@ == old(state)@.after_chars(bytes@.take(i as int)),
            *metrics == counted_chars(*old(metrics), bytes@.take(i as int)),
        decreases bytes@.len() - i,
    {
        proof {
            assert(bytes@.take(i + 1).drop_last() =~= bytes@.take(i as int));
            assert(bytes@.take(i + 1).last() == bytes@[i as int]);
        }
        apply_char(state, bytes[i], config, metrics);
        i += 1;
    }
    assert(bytes@.take(i as int) =~= bytes@);
}

/// One more digit of a number; `None` once the number is too large.
fn with_digit(n: Option<usize>, d: usize) -> (r: Option<usize>)
    requires
        d < 10,
    ensures
        match n {
            Some(v) => match r {
                Some(w) => w == v * 10 + d,
                None => v * 10 + d > usize::MAX,
            },
            None => r is None,
        },
{
    match n {
        Some(v) => match v.checked_mul(10) {
            Some(w) => w.checked_add(d),
            None => None,
        },
        None => None,
    }
}

/// The command of a sequence and its parameters.
fn parse_sequence(seq: &str) -> (r: Option<(char, Vec<usize>)>)
    ensures
        match r {
            Some((command, params)) => command_of(seq@) == Some((command, params@)),
            None => command_of(seq@) is None,
        },
{
    let n: usize = seq.unicode_len();
    if n == 0 || seq.get_char(0) != '[' {
        return None;
    }
    let mut params: Vec<usize> = Vec::new();
    let mut current: Option<usize> = Some(0);
    let mut digits: usize = 0;
    let mut i: usize = 1;
    proof {
        assert(seq@.subrange(1, 1) =~= Seq::<char>::empty());
    }
    while i < n
        invariant
            n == seq@.len(),
            1 <= i <= n,
            seq@[0] == '[',
            param_end(seq@, 1) == param_end(seq@, i as int),
            params@ == closed_params(seq@.subrange(1, i as int)),
            digits == open_digits(seq@.subrange(1, i as int)).len(),
            digits <= i,
            match current {
                Some(v) => v == value(open_digits(seq@.subrange(1, i as int))),
                None => value(open_digits(seq@.subrange(1, i as int))) > usize::MAX,
            },
        decreases n - i,
    {
        let ch: char = seq.get_char(i);
        let ghost before = seq@.subrange(1, i as int);
        let ghost after = seq@.subrange(1, i + 1);
        proof {
            assert(after.drop_last() =~= before);
            assert(after.last() == ch);
            reveal_with_fuel(closed_params, 2);
            reveal_with_fuel(params_of, 2);
        }
        if ch == ';' {
            if digits > 0 {
                params.push(match current {
                    Some(v) => v,
                    None => 0,
                });
            }
            current = Some(0);
            digits = 0;
        } else if '0' <= ch && ch <= '9' {
            let d: usize = (ch as u32 - '0' as u32) as usize;
            proof {
                let all = open_digits(after);
                assert(all == open_digits(before).push(ch));
                assert(all.drop_last() =~= open_digits(before));
                assert(value(all) == value(open_digits(before)) * 10 + d);
            }
            current = with_digit(current, d);
            digits += 1;
        } else {
            if digits > 0 {
                params.push(match current {
                    Some(v) => v,
                    None => 0,
                });
            }
            return Some((ch, params));
        }
        i += 1;
    }
    None
}

/// What interpreting an escape sequence returns and leaves behind.
pub open spec fn applied(
    pre: ConsoleState,
    post: ConsoleState,
    counts: ConsoleMetrics,
    counts_after: ConsoleMetrics,
    seq: Seq<char>,
    config: ConsoleConfig,
    r: ConsoleResult<()>,
) -> bool {
    &&& post@ == pre@.after_sequence(seq, config)
    &&& counts_after == counted_sequence(counts, seq, config)
    &&& match r {
        Ok(_) => !config.enable_ansi || (seq.len() > 0 && seq[0] == '['),
        Err(e) => {
            &&& config.enable_ansi
            &&& seq.len() == 0 || seq[0] != '['
            &&& e matches ConsoleError::InvalidAnsi { seq: s } && s@ == seq
        },
    }
}

/// Interprets an escape sequence, written without its escape character. One that
/// does not begin with a bracket is an error; one without a command does nothing.
pub fn parse_and_apply(
    state: &mut ConsoleState,
    seq: &str,
    config: &ConsoleConfig,
    metrics: &mut ConsoleMetrics,
) -> (r: ConsoleResult<()>)
    requires
        old(state)@.wf(),
        old(state)@.takes_sequence(seq@, *config),
    ensures
        final(state)@.wf(),
        final(state).cols == old(state).cols,
        final(state).rows == old(state).rows,
        applied(*old(state), *final(state), *old(metrics), *final(metrics), seq@, *config, r),
{
    if !config.enable_ansi {
        apply_bytes(state, seq.as_bytes(), config, metrics);
        return Ok(());
    }
    if seq.unicode_len() == 0 || seq.get_char(0) != '[' {
        return Err(ConsoleError::InvalidAnsi { seq: seq.to_owned() });
    }
    match parse_sequence(seq) {
        Some((command, params)) => {
            apply_command(state, command, &params, config, metrics);
        },
        None => {},
    }
    Ok(())
}

/// Whether the sequence's command has a meaning on this screen.
pub fn accepts_sequence(state: &ConsoleState, seq: &str, config: &ConsoleConfig) -> (r: bool)
    requires
        state@.wf(),
    ensures
        r == state@.takes_sequence(seq@, *config),
{
    if !config.enable_ansi {
        return true;
    }
    match parse_sequence(seq) {
        Some((command, params)) => takes_command(state, command, &params),
        None => true,
    }
}

// ---------------------------------------------------------------------------
// The console
// ---------------------------------------------------------------------------

/// The low eight bits of a character.
pub open spec fn low_byte(ch: char) -> u8 {
    (ch as int % 256) as u8
}

/// A screen with its counters.
#[verifier::ext_equal]
pub struct Term {
    pub screen: Screen,
    pub metrics: ConsoleMetrics,
}

impl Term {
    /// A character that is no part of an escape sequence; the screen is drawn
    /// where it has changed.
    pub open spec fn shown(self, ch: char) -> Term {
        let m = counted_char(self.metrics, low_byte(ch));
        Term {
            screen: Screen { dirty: false, ..self.screen.after_char(low_byte(ch)) },
            metrics: ConsoleMetrics { chars: m.chars.wrapping_add(1), ..m },
        }
    }

    /// A character: the escape character begins a sequence, in a sequence
    /// characters are collected up to a letter, and any other character is shown.
    pub open spec fn fed(self, ch: char, config: ConsoleConfig) -> Term {
        let s = self.screen;
        if ch == '\x1b' {
            Term { screen: Screen { escaped: true, pending: Seq::empty(), ..s }, ..self }
        } else if s.escaped {
            let seq = s.pending.push(ch);
            if is_letter(ch) {
                Term {
                    screen: Screen {
                        escaped: false,
                        pending: Seq::empty(),
                        ..s.after_sequence(seq, config)
                    },
                    metrics: counted_sequence(self.metrics, seq, config),
                }
            } else {
                Term { screen: Screen { pending: seq, ..s }, ..self }
            }
        } else {
            self.shown(ch)
        }
    }

    /// Where the character ends a sequence, that one has a meaning here.
    pub open spec fn takes(self, ch: char, config: ConsoleConfig) -> bool {
        ch != '\x1b' && self.screen.escaped && is_letter(ch) ==> self.screen.takes_sequence(
            self.screen.pending.push(ch),
            config,
        )
    }

    /// The screen is drawn after the character.
    pub open spec fn draws(self, ch: char) -> bool {
        ch != '\x1b' && !self.screen.escaped && self.screen.after_char(low_byte(ch)).dirty
    }

    /// After all characters of a string.
    pub open spec fn fed_all(self, s: Seq<char>, config: ConsoleConfig) -> Term
        decreases s.len(),
    {
        if s.len() == 0 {
            self
        } else {
            self.fed_all(s.drop_last(), config).fed(s.last(), config)
        }
    }

    /// Each sequence that the string ends has a meaning where it ends.
    pub open spec fn takes_all(self, s: Seq<char>, config: ConsoleConfig) -> bool
        decreases s.len(),
    {
        s.len() == 0 || (self.takes_all(s.drop_last(), config) && self.fed_all(
            s.drop_last(),
            config,
        ).takes(s.last(), config))
    }

    /// How often the screen is drawn while the string is fed.
    pub open spec fn drawn_in(self, s: Seq<char>, config: ConsoleConfig) -> nat
        decreases s.len(),
    {
        if s.len() == 0 {
            0
        } else {
            self.drawn_in(s.drop_last(), config) + if self.fed_all(s.drop_last(), config).draws(
                s.last(),
            ) {
                1nat
            } else {
                0nat
            }
        }
    }

    /// The screen is up to date.
    pub open spec fn settled(self) -> Term {
        Term { screen: Screen { dirty: false, ..self.screen }, ..self }
    }
}

/// One cell to draw: the character with its colours, at a pixel position.
#[derive(Clone, Copy, Debug, PartialEq, Eq)]
pub struct CellDraw {
    pub x: usize,
    pub y: usize,
    pub ch: char,
    pub fg: Color,
    pub bg: Color,
}

/// The character that a byte is drawn as: itself where it is ASCII, else the
/// replacement character.
pub open spec fn glyph(ch: u8) -> char {
    if ch < 128 {
        ch as char
    } else {
        '\u{FFFD}'
    }
}

/// The console terminal.
#[derive(Debug)]
pub struct Console {
    pub config: ConsoleConfig,
    pub state: ConsoleState,
    pub metrics: ConsoleMetrics,
    pub initialised: bool,
}

impl Console {
    /// The screen has the configured size, and its pixels can be addressed.
    pub open spec fn wf(&self) -> bool {
        &&& self.state@.wf()
        &&& self.state.cols == self.config.cols
        &&& self.state.rows == self.config.rows
        &&& self.config.cols * self.config.font_width <= usize::MAX
        &&& self.config.rows * self.config.font_height <= usize::MAX
        &&& self.config.cols * self.config.rows <= usize::MAX
    }

    pub open spec fn term(&self) -> Term {
        Term { screen: self.state@, metrics: self.metrics }
    }

    /// The configuration is valid and its screen fits into memory.
    pub open spec fn can_hold(config: ConsoleConfig) -> bool {
        &&& config.broken_rule() is None
        &&& config.cols <= isize::MAX
        &&& config.rows <= isize::MAX
        &&& config.cols * config.font_width <= usize::MAX
        &&& config.rows * config.font_height <= usize::MAX
        &&& config.cols * config.rows <= usize::MAX
    }

    pub fn new(config: ConsoleConfig) -> (r: Self)
        requires
            Self::can_hold(config),
        ensures
            r.wf(),
            r.config == config,
            !r.initialised,
            r.metrics == (ConsoleMetrics {
                chars: 0,
                newlines: 0,
                backspaces: 0,
                clears: 0,
                cursor_moves: 0,
                ansi_sequences: 0,
                scrolls: 0,
            }),
            r.state@ == (Screen {
                cells: Seq::new(
                    config.rows as nat,
                    |i: int|
                        Seq::new(
                            config.cols as nat,
                            |j: int| Cell { ch: SPACE, fg: 0xE6EDF3, bg: 0x0F1923 },
                        ),
                ),
                cursor: Cursor { col: 0, row: 0 },
                fg: config.default_fg,
                bg: config.default_bg,
                cols: config.cols,
                rows: config.rows,
                dirty: false,
                escaped: false,
                pending: Seq::empty(),
            }),
    {
        let state = ConsoleState::new(&config);
        Console { config, state, metrics: ConsoleMetrics::default(), initialised: false }
    }

    /// Clears the screen, once. The caller draws it then.
    pub fn init(&mut self) -> (r: ConsoleResult<()>)
        requires
            old(self).wf(),
        ensures
            final(self).wf(),
            r is Ok,
            final(self).initialised,
            final(self).config == old(self).config,
            final(self).metrics == old(self).metrics,
            final(self).state@ == (if old(self).initialised {
                old(self).state@
            } else {
                old(self).state@.cleared(old(self).config.default_bg)
            }),
    {
        if self.initialised {
            return Ok(());
        }
        let bg: Color = self.config.default_bg;
        self.state.clear(bg);
        self.initialised = true;
        Ok(())
    }

    /// Feeds one character to an initialised console and says whether the screen
    /// is to be drawn.
    pub fn write_char(&mut self, ch: char) -> (draw: bool)
        requires
            old(self).wf(),
            old(self).term().takes(ch, old(self).config),
        ensures
            final(self).wf(),
            final(self).config == old(self).config,
            final(self).initialised == old(self).initialised,
            final(self).term() == old(self).term().fed(ch, old(self).config),
            draw == old(self).term().draws(ch),
    {
        if ch == '\x1b' {
            self.state.escaped = true;
            self.state.ansi_buffer = String::new();
            return false;
        }
        if self.state.escaped {
            self.state.ansi_buffer.push(ch);
            if ('A' <= ch && ch <= 'Z') || ('a' <= ch && ch <= 'z') {
                let seq = self.state.ansi_buffer.clone();
                self.state.ansi_buffer = String::new();
                self.state.escaped = false;
                proof {
                    let t = old(self).term().screen;
                    lemma_sequence_frame(t, false, Seq::empty(), seq@, self.config);
                }
                let _ = parse_and_apply(
                    &mut self.state,
                    seq.as_str(),
                    &self.config,
                    &mut self.metrics,
                );
            }
            return false;
        }
        let byte: u8 = (ch as u32 % 256) as u8;
        apply_char(&mut self.state, byte, &self.config, &mut self.metrics);
        self.metrics.inc_char();
        let draw: bool = self.state.dirty;
        self.state.dirty = false;
        draw
    }

    /// What writing a string leaves behind.
    pub open spec fn wrote(pre: Console, post: Console, s: Seq<char>) -> bool {
        &&& post.config == pre.config
        &&& post.initialised == pre.initialised
        &&& post.term() == if pre.initialised {
            pre.term().fed_all(s, pre.config).settled()
        } else {
            pre.term()
        }
    }

    /// How often the screen is drawn while a string is written.
    pub open spec fn frames(&self, s: Seq<char>) -> nat {
        if self.initialised {
            self.term().drawn_in(s, self.config) + if self.term().fed_all(
                s,
                self.config,
            ).screen.dirty {
                1nat
            } else {
                0nat
            }
        } else {
            0
        }
    }

    /// The string can be written: see [`Term::takes_all`].
    pub open spec fn takes(&self, s: Seq<char>) -> bool {
        self.initialised ==> self.term().takes_all(s, self.config)
    }

    /// Writes a string, interpreting its escape sequences, and returns how often
    /// the screen was to be drawn on the way. Before `init` nothing is written.
    pub fn write(&mut self, s: &str) -> (frames: u64)
        requires
            old(self).wf(),
            old(self).takes(s@),
            s@.len() < u64::MAX,
        ensures
            final(self).wf(),
            Self::wrote(*old(self), *final(self), s@),
            frames == old(self).frames(s@),
    {
        if !self.initialised {
            return 0;
        }
        let mut frames: u64 = 0;
        proof {
            assert(s@.take(0) =~= Seq::<char>::empty());
        }
        for ch in it: s.chars()
            invariant
                it.seq() == s@,
                s@.len() < u64::MAX,
                frames <= it.index(),
                self.wf(),
                self.config == old(self).config,
                self.initialised,
                old(self).initialised,
                old(self).term().takes_all(s@, self.config),
                self.term() == old(self).term().fed_all(s@.take(it.index()), self.config),
                frames == old(self).term().drawn_in(s@.take(it.index()), self.config),
        {
            proof {
                let i = it.index();
                lemma_takes_prefix(old(self).term(), s@, i + 1, self.config);
                assert(s@.take(i + 1).drop_last() =~= s@.take(i));
                assert(s@.take(i + 1).last() == ch);
            }
            if self.write_char(ch) {
                frames += 1;
            }
        }
        assert(s@.take(s@.len() as int) =~= s@);
        if self.state.dirty {
            self.state.dirty = false;
            frames += 1;
        }
        proof {
            assert(self.term() =~= old(self).term().fed_all(s@, self.config).settled());
        }
        frames
    }

    /// Writes as much of the string as can be written: up to the first sequence
    /// without a meaning where it ends. Returns the number of characters written.
    pub fn write_prefix(&mut self, s: &str) -> (n: usize)
        requires
            old(self).wf(),
            s@.len() <= usize::MAX,
        ensures
            final(self).wf(),
            n <= s@.len(),
            n == s@.len() <==> old(self).takes(s@),
            old(self).takes(s@.take(n as int)),
            Self::wrote(*old(self), *final(self), s@.take(n as int)),
    {
        proof {
            assert(s@.take(0) =~= Seq::<char>::empty());
            assert(s@.take(s@.len() as int) =~= s@);
        }
        if !self.initialised {
            return s.unicode_len();
        }
        let mut n: usize = 0;
        for ch in it: s.chars()
            invariant
                it.seq() == s@,
                s@.len() <= usize::MAX,
                n == it.index(),
                self.wf(),
                self.config == old(self).config,
                self.initialised,
                old(self).wf(),
                old(self).initialised,
                old(self).term().takes_all(s@.take(n as int), self.config),
                self.term() == old(self).term().fed_all(s@.take(n as int), self.config),
        {
            proof {
                assert(s@.take(n + 1).drop_last() =~= s@.take(n as int));
                assert(s@.take(n + 1).last() == ch);
            }
            if !self.accepts_char(ch) {
                proof {
                    if old(self).term().takes_all(s@, self.config) {
                        lemma_takes_prefix(old(self).term(), s@, n + 1, self.config);
                    }
                }
                self.state.dirty = false;
                assert(self.term() =~= old(self).term().fed_all(
                    s@.take(n as int),
                    self.config,
                ).settled());
                return n;
            }
            let _ = self.write_char(ch);
            n += 1;
        }
        self.state.dirty = false;
        assert(s@.take(n as int) =~= s@);
        assert(self.term() =~= old(self).term().fed_all(s@, self.config).settled());
        n
    }

    /// Whether the character can be fed.
    pub fn accepts_char(&self, ch: char) -> (r: bool)
        requires
            self.wf(),
        ensures
            r == self.term().takes(ch, self.config),
    {
        if ch == '\x1b' || !self.state.escaped || !(('A' <= ch && ch <= 'Z') || ('a' <= ch && ch
            <= 'z')) {
            return true;
        }
        let mut seq = self.state.ansi_buffer.clone();
        seq.push(ch);
        accepts_sequence(&self.state, seq.as_str(), &self.config)
    }

    /// Writes a single character.
    pub fn write_one(&mut self, ch: char)
        requires
            old(self).wf(),
            old(self).takes(seq![ch]),
        ensures
            final(self).wf(),
            Self::wrote(*old(self), *final(self), seq![ch]),
    {
        if !self.initialised {
            return;
        }
        let ghost t = self.term();
        let ghost one = seq![ch];
        proof {
            assert(one.drop_last() =~= Seq::<char>::empty());
            assert(one.last() == ch);
            reveal_with_fuel(Term::fed_all, 2);
            reveal_with_fuel(Term::takes_all, 2);
        }
        let _ = self.write_char(ch);
        self.state.dirty = false;
        assert(self.term() =~= t.fed_all(one, self.config).settled());
    }

    /// Writes a single ASCII character.
    pub fn put_char(&mut self, ch: u8)
        requires
            old(self).wf(),
            ch < 128,
            old(self).takes(seq![ch as char]),
        ensures
            final(self).wf(),
            Self::wrote(*old(self), *final(self), seq![ch as char]),
    {
        self.write_one(ch as char);
    }

    /// Erases the screen to the default background and puts the cursor home. The
    /// caller draws the screen then.
    pub fn clear(&mut self)
        requires
            old(self).wf(),
        ensures
            final(self).wf(),
            final(self).config == old(self).config,
            final(self).initialised == old(self).initialised,
            final(self).state@ == (Screen {
                cursor: Cursor { col: 0, row: 0 },
                ..old(self).state@.cleared(old(self).config.default_bg)
            }),
            final(self).metrics == (ConsoleMetrics {
                clears: old(self).metrics.clears.wrapping_add(1),
                ..old(self).metrics
            }),
    {
        let bg: Color = self.config.default_bg;
        self.state.clear(bg);
        self.state.cursor = Cursor::new(0, 0);
        self.metrics.inc_clear();
    }

    /// Cell `i` of the screen, counted row by row, as it is drawn.
    pub open spec fn drawn(&self, i: int) -> CellDraw {
        let row = i / self.config.cols as int;
        let col = i % self.config.cols as int;
        let cell = self.state@.cells[row][col];
        CellDraw {
            x: (col * self.config.font_width) as usize,
            y: (row * self.config.font_height) as usize,
            ch: glyph(cell.ch),
            fg: cell.fg,
            bg: cell.bg,
        }
    }

    /// What drawing the whole screen consists of: every cell, row by row, and the
    /// area in pixels that has to be presented then.
    pub fn render_all(&self) -> (r: Frame)
        requires
            self.wf(),
        ensures
            r.cells@ == Seq::new(
                (self.config.cols * self.config.rows) as nat,
                |i: int| self.drawn(i),
            ),
            r.width == self.config.cols * self.config.font_width,
            r.height == self.config.rows * self.config.font_height,
    {
        let cols: usize = self.config.cols;
        let rows: usize = self.config.rows;
        let fw: usize = self.config.font_width;
        let fh: usize = self.config.font_height;
        let mut cells: Vec<CellDraw> = Vec::new();
        let mut row: usize = 0;
        assert(0 * cols == 0);
        while row < rows
            invariant
                self.wf(),
                cols == self.config.cols,
                rows == self.config.rows,
                fw == self.config.font_width,
                fh == self.config.font_height,
                row <= rows,
                cells@.len() == row * cols,
                forall|i: int| 0 <= i < cells@.len() ==> #[trigger] cells@[i] == self.drawn(i),
            decreases rows - row,
        {
            let mut col: usize = 0;
            while col < cols
                invariant
                    self.wf(),
                    cols == self.config.cols,
                    rows == self.config.rows,
                    fw == self.config.font_width,
                    fh == self.config.font_height,
                    row < rows,
                    col <= cols,
                    cells@.len() == row * cols + col,
                    forall|i: int| 0 <= i < cells@.len() ==> #[trigger] cells@[i] == self.drawn(i),
                decreases cols - col,
            {
                proof {
                    let i = row * cols + col;
                    assert(i / cols as int == row && i % cols as int == col) by (nonlinear_arith)
                        requires
                            i == row * cols + col,
                            0 <= col < cols,
                    ;
                    assert(self.state@.cells[row as int].len() == cols);
                    assert(col * fw <= cols * fw) by (nonlinear_arith)
                        requires
                            col < cols,
                    ;
                    assert(row * fh <= rows * fh) by (nonlinear_arith)
                        requires
                            row < rows,
                    ;
                }
                let cell = self.state.cells[row][col];
                let ch: char = if cell.ch < 128 {
                    cell.ch as char
                } else {
                    '\u{FFFD}'
                };
                cells.push(CellDraw { x: col * fw, y: row * fh, ch, fg: cell.fg, bg: cell.bg });
                col += 1;
            }
            assert((row + 1) * cols == row * cols + cols) by (nonlinear_arith);
            row += 1;
        }
        assert(rows * cols == cols * rows) by (nonlinear_arith);
        assert(cells@ =~= Seq::new((cols * rows) as nat, |i: int| self.drawn(i)));
        Frame { cells, width: cols * fw, height: rows * fh }
    }

    /// Brings what was drawn to the screen.
    pub fn flush(&self, p: &mut FramebufferPresenter, vram: &mut [u8])
        requires
            old(p).wf(),
            old(p).hw matches Some(hw) ==> hw.wf(old(vram)@.len()),
        ensures
            final(p).wf(),
            final(vram)@.len() == old(vram)@.len(),
            exists|r: FramebufferResult<()>| #[trigger]
                FramebufferPresenter::presented(*old(p), *final(p), old(vram)@, final(vram)@, r),
    {
        framebuffer::present(p, vram);
    }

    /// Draws the screen and counts it as up to date.
    pub fn render_dirty(&mut self) -> (r: Frame)
        requires
            old(self).wf(),
        ensures
            final(self).wf(),
            r.cells@ == Seq::new(
                (old(self).config.cols * old(self).config.rows) as nat,
                |i: int| old(self).drawn(i),
            ),
            r.width == old(self).config.cols * old(self).config.font_width,
            r.height == old(self).config.rows * old(self).config.font_height,
            final(self).term() == old(self).term().settled(),
            final(self).config == old(self).config,
            final(self).initialised == old(self).initialised,
    {
        let frame = self.render_all();
        self.state.dirty = false;
        frame
    }

    pub fn cursor(&self) -> (r: Cursor)
        ensures
            r == self.state.cursor,
    {
        self.state.cursor
    }

    /// Moves the cursor to a place on the screen.
    pub fn set_cursor(&mut self, col: usize, row: usize) -> (r: ConsoleResult<()>)
        requires
            old(self).wf(),
        ensures
            final(self).wf(),
            final(self).config == old(self).config,
            final(self).initialised == old(self).initialised,
            final(self).metrics == old(self).metrics,
            final(self).state@ == old(self).state@.at(col, row),
            match r {
                Ok(_) => col < old(self).config.cols && row < old(self).config.rows,
                Err(e) => !(col < old(self).config.cols && row < old(self).config.rows) && e
                    == (ConsoleError::OutOfBounds { row, col }),
            },
    {
        if col < self.config.cols && row < self.config.rows {
            self.state.cursor = Cursor::new(col, row);
            Ok(())
        } else {
            Err(ConsoleError::OutOfBounds { row, col })
        }
    }

    pub fn cols(&self) -> (r: usize)
        ensures
            r == self.config.cols,
    {
        self.config.cols
    }

    pub fn rows(&self) -> (r: usize)
        ensures
            r == self.config.rows,
    {
        self.config.rows
    }

    pub fn metrics(&self) -> (r: &ConsoleMetrics)
        ensures
            *r == self.metrics,
    {
        &self.metrics
    }

    pub fn is_initialised(&self) -> (r: bool)
        ensures
            r == self.initialised,
    {
        self.initialised
    }
}

/// A whole screen to draw.
#[derive(Debug)]
pub struct Frame {
    pub cells: Vec<CellDraw>,
    pub width: usize,
    pub height: usize,
}

/// A sequence does not look at what is pending.
proof fn lemma_sequence_frame(
    s: Screen,
    escaped: bool,
    pending: Seq<char>,
    seq: Seq<char>,
    config: ConsoleConfig,
)
    ensures
        (Screen { escaped, pending, ..s }).after_sequence(seq, config) == (Screen {
            escaped,
            pending,
            ..s.after_sequence(seq, config)
        }),
        (Screen { escaped, pending, ..s }).takes_sequence(seq, config) == s.takes_sequence(
            seq,
            config,
        ),
{
    let a = Screen { escaped, pending, ..s };
    if !config.enable_ansi {
        lemma_chars_frame(s, escaped, pending, encode_utf8(seq));
    } else {
        match command_of(seq) {
            Some((command, params)) => {
                assert(a.after_command(command, params, config) =~= (Screen {
                    escaped,
                    pending,
                    ..s.after_command(command, params, config)
                }));
            },
            None => {},
        }
    }
}

proof fn lemma_chars_frame(s: Screen, escaped: bool, pending: Seq<char>, bytes: Seq<u8>)
    ensures
        (Screen { escaped, pending, ..s }).after_chars(bytes) == (Screen {
            escaped,
            pending,
            ..s.after_chars(bytes)
        }),
    decreases bytes.len(),
{
    if bytes.len() > 0 {
        lemma_chars_frame(s, escaped, pending, bytes.drop_last());
        let mid = s.after_chars(bytes.drop_last());
        let ch = bytes.last();
        assert((Screen { escaped, pending, ..mid }).after_char(ch) =~= (Screen {
            escaped,
            pending,
            ..mid.after_char(ch)
        }));
    }
}

/// What can be written whole can be written in part.
pub proof fn lemma_takes_prefix(t: Term, s: Seq<char>, n: int, config: ConsoleConfig)
    requires
        0 <= n <= s.len(),
        t.takes_all(s, config),
    ensures
        t.takes_all(s.take(n), config),
    decreases s.len(),
{
    if n == s.len() {
        assert(s.take(n) =~= s);
    } else {
        lemma_takes_prefix(t, s.drop_last(), n, config);
        assert(s.drop_last().take(n) =~= s.take(n));
    }
}

// ---------------------------------------------------------------------------
// The manager
// ---------------------------------------------------------------------------

/// Manager of the console.
#[derive(Debug)]
pub struct ConsoleManager {
    pub console: Console,
    pub initialised: bool,
}

/// The console that a manager makes of a configuration before it is initialised.
pub open spec fn fresh(console: Console, config: ConsoleConfig) -> bool {
    &&& console.wf()
    &&& console.config == config
    &&& !console.initialised
    &&& !console.state.escaped
    &&& !console.state.dirty
    &&& console.state.cursor == (Cursor { col: 0, row: 0 })
    &&& console.state.fg == config.default_fg
    &&& console.state.bg == config.default_bg
}

impl ConsoleManager {
    pub fn new(config: ConsoleConfig) -> (r: Self)
        requires
            Console::can_hold(config),
        ensures
            fresh(r.console, config),
            !r.initialised,
    {
        ConsoleManager { console: Console::new(config), initialised: false }
    }

    pub fn default() -> (r: Self)
        ensures
            fresh(
                r.console,
                ConsoleConfig {
                    cols: 128,
                    rows: 48,
                    default_fg: 0xE6EDF3,
                    default_bg: 0x0F1923,
                    font_width: 8,
                    font_height: 16,
                    enable_ansi: true,
                    enable_serial_fallback: true,
                    collect_metrics: true,
                    log_operations: false,
                },
            ),
            !r.initialised,
    {
        Self::new(ConsoleConfig::default())
    }

    /// Initialises the console, once.
    pub fn init(&mut self) -> (r: ConsoleResult<()>)
        requires
            old(self).console.wf(),
        ensures
            final(self).console.wf(),
            r is Ok,
            final(self).initialised,
            final(self).console.config == old(self).console.config,
            final(self).console.metrics == old(self).console.metrics,
            old(self).initialised ==> *final(self) == *old(self),
            !old(self).initialised ==> final(self).console.initialised
                && final(self).console.state@ == (if old(self).console.initialised {
                old(self).console.state@
            } else {
                old(self).console.state@.cleared(old(self).console.config.default_bg)
            }),
    {
        if self.initialised {
            return Ok(());
        }
        match self.console.init() {
            Ok(()) => {},
            Err(e) => {
                return Err(e);
            },
        }
        self.initialised = true;
        Ok(())
    }

    pub fn write(&mut self, s: &str) -> (frames: u64)
        requires
            old(self).console.wf(),
            old(self).console.takes(s@),
            s@.len() < u64::MAX,
        ensures
            final(self).console.wf(),
            final(self).initialised == old(self).initialised,
            Console::wrote(old(self).console, final(self).console, s@),
            frames == old(self).console.frames(s@),
    {
        self.console.write(s)
    }

    pub fn put_char(&mut self, ch: u8)
        requires
            old(self).console.wf(),
            ch < 128,
            old(self).console.takes(seq![ch as char]),
        ensures
            final(self).console.wf(),
            final(self).initialised == old(self).initialised,
            Console::wrote(old(self).console, final(self).console, seq![ch as char]),
    {
        self.console.put_char(ch);
    }

    pub fn clear(&mut self)
        requires
            old(self).console.wf(),
        ensures
            final(self).console.wf(),
            final(self).initialised == old(self).initialised,
            final(self).console.config == old(self).console.config,
            final(self).console.initialised == old(self).console.initialised,
            final(self).console.state@ == (Screen {
                cursor: Cursor { col: 0, row: 0 },
                ..old(self).console.state@.cleared(old(self).console.config.default_bg)
            }),
            final(self).console.metrics == (ConsoleMetrics {
                clears: old(self).console.metrics.clears.wrapping_add(1),
                ..old(self).console.metrics
            }),
    {
        self.console.clear();
    }

    pub fn cursor(&self) -> (r: Cursor)
        ensures
            r == self.console.state.cursor,
    {
        self.console.cursor()
    }

    pub fn set_cursor(&mut self, col: usize, row: usize) -> (r: ConsoleResult<()>)
        requires
            old(self).console.wf(),
        ensures
            final(self).console.wf(),
            final(self).initialised == old(self).initialised,
            final(self).console.state@ == old(self).console.state@.at(col, row),
            match r {
                Ok(_) => col < old(self).console.config.cols && row < old(self).console.config.rows,
                Err(e) => !(col < old(self).console.config.cols && row
                    < old(self).console.config.rows) && e == (ConsoleError::OutOfBounds {
                    row,
                    col,
                }),
            },
    {
        self.console.set_cursor(col, row)
    }

    pub fn metrics(&self) -> (r: &ConsoleMetrics)
        ensures
            *r == self.console.metrics,
    {
        self.console.metrics()
    }

    pub fn metrics_snapshot(&self) -> (r: ConsoleMetricsSnapshot)
        ensures
            r.chars == self.console.metrics.chars,
            r.newlines == self.console.metrics.newlines,
            r.backspaces == self.console.metrics.backspaces,
            r.clears == self.console.metrics.clears,
            r.cursor_moves == self.console.metrics.cursor_moves,
            r.ansi_sequences == self.console.metrics.ansi_sequences,
            r.scrolls == self.console.metrics.scrolls,
    {
        self.console.metrics.snapshot()
    }

    /// Sets all counters to 0.
    pub fn reset_metrics(&mut self)
        ensures
            *final(self) == (ConsoleManager {
                console: Console {
                    metrics: ConsoleMetrics {
                        chars: 0,
                        newlines: 0,
                        backspaces: 0,
                        clears: 0,
                        cursor_moves: 0,
                        ansi_sequences: 0,
                        scrolls: 0,
                    },
                    ..old(self).console
                },
                ..*old(self)
            }),
    {
        self.console.metrics = ConsoleMetrics::default();
    }

    pub fn is_initialised(&self) -> (r: bool)
        ensures
            r == self.initialised,
    {
        self.initialised
    }
}

// ---------------------------------------------------------------------------
// The kernel-wide instance, which its owner passes in
// ---------------------------------------------------------------------------

/// An initialised console with the default configuration, on which nothing has
/// been written.
pub open spec fn at_start(c: Console) -> bool {
    &&& c.wf()
    &&& c.initialised
    &&& !c.state.escaped
    &&& c.state.cursor == (Cursor { col: 0, row: 0 })
    &&& c.config.enable_ansi
    &&& c.config.cols == COLS
    &&& c.config.rows == ROWS
    &&& c.state.fg == c.config.default_fg
    &&& c.state.bg == c.config.default_bg
    &&& forall|r: int, k: int|
        0 <= r < ROWS && 0 <= k < COLS ==> #[trigger] c.state@.cells[r][k] == (Cell {
            ch: SPACE,
            fg: c.config.default_fg,
            bg: c.config.default_bg,
        })
}

/// The instance, made with the defaults and initialised where there is none.
pub open spec fn instance(global: Option<ConsoleManager>, m: ConsoleManager) -> bool {
    match global {
        Some(g) => m == g,
        None => at_start(m.console) && m.initialised,
    }
}

/// The instance to work on.
pub fn ready_instance(global: Option<ConsoleManager>) -> (r: ConsoleManager)
    requires
        global matches Some(g) ==> g.console.wf(),
    ensures
        r.console.wf(),
        instance(global, r),
{
    match global {
        Some(m) => m,
        None => {
            let mut m = ConsoleManager::default();
            let _ = m.init();
            proof {
                let c = m.console;
                assert forall|r: int, k: int| 0 <= r < ROWS && 0 <= k < COLS implies (
                #[trigger] c.state@.cells[r][k]) == (Cell {
                    ch: SPACE,
                    fg: c.config.default_fg,
                    bg: c.config.default_bg,
                }) by {
                    assert(c.state@.cells[r].len() == COLS);
                }
            }
            m
        },
    }
}

pub open spec fn banner() -> Seq<char> {
    "IONA OS Kernel Console\n"@
}

pub open spec fn underline() -> Seq<char> {
    "======================\n\n"@
}

/// Writes the banner.
pub fn init(global: Option<ConsoleManager>) -> (r: ConsoleManager)
    requires
        global matches Some(g) ==> g.console.wf() && g.console.takes(banner() + underline()),
    ensures
        r.console.wf(),
        exists|start: ConsoleManager, mid: Console|
            #![trigger instance(global, start), Console::wrote(mid, r.console, underline())]
            instance(global, start) && Console::wrote(start.console, mid, banner())
                && Console::wrote(mid, r.console, underline()),
{
    let mut m = ready_instance(global);
    let ghost start = m;
    proof {
        reveal_strlit("IONA OS Kernel Console\n");
        reveal_strlit("======================\n\n");
        let all = banner() + underline();
        if global is None {
            law_plain_text_is_taken(m.console.term(), all, m.console.config);
        }
        if m.console.initialised {
            lemma_takes_concat(m.console.term(), banner(), underline(), m.console.config);
        }
    }
    let _ = m.write("IONA OS Kernel Console\n");
    let ghost mid = m.console;
    proof {
        if start.console.initialised {
            lemma_takes_settled(
                start.console.term().fed_all(banner(), start.console.config),
                underline(),
                start.console.config,
            );
        }
    }
    let _ = m.write("======================\n\n");
    assert(instance(global, start) && Console::wrote(start.console, mid, banner())
        && Console::wrote(mid, m.console, underline()));
    m
}

/// Writes a string.
pub fn puts(m: &mut ConsoleManager, s: &str) -> (frames: u64)
    requires
        old(m).console.wf(),
        old(m).console.takes(s@),
        s@.len() < u64::MAX,
    ensures
        final(m).console.wf(),
        final(m).initialised == old(m).initialised,
        Console::wrote(old(m).console, final(m).console, s@),
        frames == old(m).console.frames(s@),
{
    m.write(s)
}

/// Writes an ASCII character.
pub fn putc(m: &mut ConsoleManager, ch: u8)
    requires
        old(m).console.wf(),
        ch < 128,
        old(m).console.takes(seq![ch as char]),
    ensures
        final(m).console.wf(),
        final(m).initialised == old(m).initialised,
        Console::wrote(old(m).console, final(m).console, seq![ch as char]),
{
    m.put_char(ch);
}

/// Clears the screen.
pub fn clear(m: &mut ConsoleManager)
    requires
        old(m).console.wf(),
    ensures
        final(m).console.wf(),
        final(m).initialised == old(m).initialised,
        final(m).console.config == old(m).console.config,
        final(m).console.initialised == old(m).console.initialised,
        final(m).console.state@ == (Screen {
            cursor: Cursor { col: 0, row: 0 },
            ..old(m).console.state@.cleared(old(m).console.config.default_bg)
        }),
        final(m).console.metrics == (ConsoleMetrics {
            clears: old(m).console.metrics.clears.wrapping_add(1),
            ..old(m).console.metrics
        }),
{
    m.clear();
}

// ---------------------------------------------------------------------------
// Laws
// ---------------------------------------------------------------------------

/// Text without escape characters can be written on any screen that is not
/// inside an escape sequence, and leaves it outside one.
pub proof fn law_plain_text_is_taken(t: Term, s: Seq<char>, config: ConsoleConfig)
    requires
        !t.screen.escaped,
        forall|i: int| 0 <= i < s.len() ==> s[i] != '\x1b',
    ensures
        t.takes_all(s, config),
        !t.fed_all(s, config).screen.escaped,
    decreases s.len(),
{
    if s.len() > 0 {
        law_plain_text_is_taken(t, s.drop_last(), config);
    }
}

/// Writing a string in two parts is writing it whole: the same screen, the same
/// counters.
pub proof fn law_write_in_parts(t: Term, a: Seq<char>, b: Seq<char>, config: ConsoleConfig)
    ensures
        t.fed_all(a, config).settled().fed_all(b, config).settled() == t.fed_all(
            a + b,
            config,
        ).settled(),
{
    lemma_fed_concat(t, a, b, config);
    lemma_fed_settled(t.fed_all(a, config), b, config);
}

/// The reset sequence restores the default colours, whatever the colours were.
pub proof fn law_reset_restores_colours(s: Screen, config: ConsoleConfig)
    requires
        config.enable_ansi,
    ensures
        s.after_sequence(seq!['[', '0', 'm'], config).fg == config.default_fg,
        s.after_sequence(seq!['[', '0', 'm'], config).bg == config.default_bg,
        s.after_sequence(seq!['[', 'm'], config).fg == config.default_fg,
        s.after_sequence(seq!['[', 'm'], config).bg == config.default_bg,
{
    let a = seq!['[', '0', 'm'];
    assert(param_end(a, 2) == 2);
    assert(param_end(a, 1) == 2);
    let d = a.subrange(1, 2);
    assert(d.len() == 1 && d.last() == '0');
    assert(d.drop_last() =~= Seq::<char>::empty());
    reveal_with_fuel(open_digits, 3);
    reveal_with_fuel(closed_params, 3);
    reveal_with_fuel(value, 3);
    let digits = open_digits(d);
    assert(digits =~= seq!['0']);
    assert(digits.drop_last() =~= Seq::<char>::empty());
    assert(value(digits) == 0);
    assert(closed_params(d) =~= Seq::<usize>::empty());
    assert(params_of(d) =~= seq![0usize]);
    let b = seq!['[', 'm'];
    assert(param_end(b, 1) == 1);
    assert(b.subrange(1, 1) =~= Seq::<char>::empty());
    assert(params_of(b.subrange(1, 1)) =~= Seq::<usize>::empty());
}

/// Whatever is written, an initialised console's cursor stays on the screen or at
/// the start of the line below it, and the size of the screen does not change.
pub proof fn law_screen_stays_whole(t: Term, s: Seq<char>, config: ConsoleConfig)
    requires
        t.screen.wf(),
        t.takes_all(s, config),
    ensures
        t.fed_all(s, config).screen.wf(),
        t.fed_all(s, config).screen.cols == t.screen.cols,
        t.fed_all(s, config).screen.rows == t.screen.rows,
    decreases s.len(),
{
    if s.len() > 0 {
        law_screen_stays_whole(t, s.drop_last(), config);
        let mid = t.fed_all(s.drop_last(), config);
        lemma_fed_whole(mid, s.last(), config);
    }
}

/// From the start of a line, characters that are no control characters, at most
/// as many as the line has columns, stand in that line in their order and leave
/// the other lines alone.
pub proof fn law_line_is_filled(s: Screen, line: Seq<u8>)
    requires
        s.wf(),
        s.cursor.row < s.rows,
        s.cursor.col == 0,
        line.len() <= s.cols,
        forall|i: int|
            0 <= i < line.len() ==> line[i] != LINE_FEED && line[i] != CARRIAGE_RETURN && line[i]
                != BACKSPACE,
    ensures
        forall|c: int|
            0 <= c < line.len() ==> #[trigger] s.after_chars(line).cells[s.cursor.row as int][c]
                == (Cell { ch: line[c], fg: s.fg, bg: s.bg }),
        forall|r: int|
            0 <= r < s.rows && r != s.cursor.row ==> #[trigger] s.after_chars(line).cells[r]
                == s.cells[r],
        line.len() < s.cols ==> s.after_chars(line).cursor == (Cursor {
            col: line.len() as usize,
            row: s.cursor.row,
        }),
        line.len() == s.cols ==> s.after_chars(line).cursor == (Cursor {
            col: 0,
            row: (s.cursor.row + 1) as usize,
        }),
        s.after_chars(line).wf(),
        s.after_chars(line).fg == s.fg,
        s.after_chars(line).bg == s.bg,
        s.after_chars(line).rows == s.rows,
        s.after_chars(line).cols == s.cols,
    decreases line.len(),
{
    if line.len() > 0 {
        law_line_is_filled(s, line.drop_last());
        let mid = s.after_chars(line.drop_last());
        lemma_put_whole(mid, line.last(), mid.fg, mid.bg);
        assert(mid.cells[s.cursor.row as int].len() == s.cols);
    }
}

proof fn lemma_put_whole(s: Screen, ch: u8, fg: Color, bg: Color)
    requires
        s.wf(),
    ensures
        s.put(ch, fg, bg).wf(),
{
    let a = s.put(ch, fg, bg);
    assert forall|r: int| 0 <= r < a.rows implies (#[trigger] a.cells[r]).len() == a.cols by {
        assert(s.cells[r].len() == s.cols);
    }
}

proof fn lemma_filled_whole(s: Screen, cell: Cell, hit: spec_fn(int, int) -> bool)
    requires
        s.wf(),
    ensures
        s.filled(cell, hit).wf(),
{
    let a = s.filled(cell, hit);
    assert forall|r: int| 0 <= r < a.rows implies (#[trigger] a.cells[r]).len() == a.cols by {
        assert(s.cells[r].len() == s.cols);
    }
}

proof fn lemma_char_whole(s: Screen, ch: u8)
    requires
        s.wf(),
    ensures
        s.after_char(ch).wf(),
        s.after_char(ch).cols == s.cols,
        s.after_char(ch).rows == s.rows,
{
    lemma_put_whole(s, ch, s.fg, s.bg);
    if ch == LINE_FEED {
        let a = s.after_char(ch);
        assert forall|r: int| 0 <= r < a.rows implies (#[trigger] a.cells[r]).len() == a.cols by {
            assert(s.cells[r].len() == s.cols);
            if r + 1 < s.rows {
                assert(s.cells[r + 1].len() == s.cols);
            }
        }
    } else if ch == BACKSPACE && s.cursor.col > 0 {
        let to = Cursor { col: (s.cursor.col - 1) as usize, row: s.cursor.row };
        lemma_filled_whole(s, s.blank(), |r: int, c: int| r == to.row && c == to.col);
    }
}

proof fn lemma_chars_whole(s: Screen, bytes: Seq<u8>)
    requires
        s.wf(),
    ensures
        s.after_chars(bytes).wf(),
        s.after_chars(bytes).cols == s.cols,
        s.after_chars(bytes).rows == s.rows,
    decreases bytes.len(),
{
    if bytes.len() > 0 {
        lemma_chars_whole(s, bytes.drop_last());
        lemma_char_whole(s.after_chars(bytes.drop_last()), bytes.last());
    }
}

#[verifier::spinoff_prover]
#[verifier::rlimit(60)]
proof fn lemma_fed_whole(t: Term, ch: char, config: ConsoleConfig)
    requires
        t.screen.wf(),
        t.takes(ch, config),
    ensures
        t.fed(ch, config).screen.wf(),
        t.fed(ch, config).screen.cols == t.screen.cols,
        t.fed(ch, config).screen.rows == t.screen.rows,
{
    let s = t.screen;
    lemma_char_whole(s, low_byte(ch));
    let seq = s.pending.push(ch);
    lemma_chars_whole(s, encode_utf8(seq));
    match command_of(seq) {
        Some((command, params)) => {
            let at = s.cursor;
            let cell = s.blank();
            lemma_filled_whole(
                s,
                cell,
                |r: int, c: int| r > at.row || (r == at.row && c >= at.col),
            );
            lemma_filled_whole(
                s,
                cell,
                |r: int, c: int| r < at.row || (r == at.row && c <= at.col),
            );
            lemma_filled_whole(s, cell, |r: int, c: int| true);
            lemma_filled_whole(s, cell, |r: int, c: int| r == at.row && c >= at.col);
            lemma_filled_whole(s, cell, |r: int, c: int| r == at.row && c <= at.col);
            lemma_filled_whole(s, cell, |r: int, c: int| r == at.row);
        },
        None => {},
    }
}

pub proof fn lemma_fed_concat(t: Term, a: Seq<char>, b: Seq<char>, config: ConsoleConfig)
    ensures
        t.fed_all(a + b, config) == t.fed_all(a, config).fed_all(b, config),
    decreases b.len(),
{
    if b.len() == 0 {
        assert(a + b =~= a);
    } else {
        lemma_fed_concat(t, a, b.drop_last(), config);
        assert((a + b).drop_last() =~= a + b.drop_last());
    }
}

pub proof fn lemma_takes_concat(t: Term, a: Seq<char>, b: Seq<char>, config: ConsoleConfig)
    ensures
        t.takes_all(a + b, config) == (t.takes_all(a, config) && t.fed_all(a, config).takes_all(
            b,
            config,
        )),
    decreases b.len(),
{
    if b.len() == 0 {
        assert(a + b =~= a);
    } else {
        lemma_takes_concat(t, a, b.drop_last(), config);
        lemma_fed_concat(t, a, b.drop_last(), config);
        assert((a + b).drop_last() =~= a + b.drop_last());
    }
}

/// What is drawn already makes no difference to what is written next.
pub proof fn lemma_fed_settled(t: Term, s: Seq<char>, config: ConsoleConfig)
    ensures
        t.settled().fed_all(s, config).settled() == t.fed_all(s, config).settled(),
    decreases s.len(),
{
    if s.len() > 0 {
        lemma_fed_settled(t, s.drop_last(), config);
        let a = t.settled().fed_all(s.drop_last(), config);
        let b = t.fed_all(s.drop_last(), config);
        lemma_step_settled(a, s.last(), config);
        lemma_step_settled(b, s.last(), config);
    }
}

proof fn lemma_step_settled(t: Term, ch: char, config: ConsoleConfig)
    ensures
        t.settled().fed(ch, config).settled() == t.fed(ch, config).settled(),
        t.settled().takes(ch, config) == t.takes(ch, config),
{
    let s = t.screen;
    let d = t.settled().screen;
    let seq = s.pending.push(ch);
    if !config.enable_ansi {
        lemma_chars_settled(s, encode_utf8(seq));
    }
    assert(Screen { dirty: false, ..d.after_sequence(seq, config) } =~= (Screen {
        dirty: false,
        ..s.after_sequence(seq, config)
    }));
    assert(t.settled().fed(ch, config).settled() =~= t.fed(ch, config).settled());
}

proof fn lemma_chars_settled(s: Screen, bytes: Seq<u8>)
    ensures
        (Screen { dirty: false, ..(Screen { dirty: false, ..s }).after_chars(bytes) }) == (Screen {
            dirty: false,
            ..s.after_chars(bytes)
        }),
    decreases bytes.len(),
{
    if bytes.len() > 0 {
        lemma_chars_settled(s, bytes.drop_last());
        let a = (Screen { dirty: false, ..s }).after_chars(bytes.drop_last());
        let b = s.after_chars(bytes.drop_last());
        let ch = bytes.last();
        assert((Screen { dirty: false, ..a.after_char(ch) }) =~= (Screen {
            dirty: false,
            ..b.after_char(ch)
        }));
    }
}

pub proof fn lemma_takes_settled(t: Term, s: Seq<char>, config: ConsoleConfig)
    ensures
        t.settled().takes_all(s, config) == t.takes_all(s, config),
    decreases s.len(),
{
    if s.len() > 0 {
        lemma_takes_settled(t, s.drop_last(), config);
        lemma_fed_settled(t, s.drop_last(), config);
        let a = t.settled().fed_all(s.drop_last(), config);
        let b = t.fed_all(s.drop_last(), config);
        lemma_step_settled(a, s.last(), config);
        lemma_step_settled(b, s.last(), config);
    }
}

/// A command with parameters that are not too large has a meaning wherever the cursor
/// is on the screen, as long as their sum with its place is a machine integer.
pub proof fn law_commands_are_taken(s: Screen, command: char, params: Seq<usize>)
    requires
        s.wf(),
        s.cursor.row < s.rows,
        forall|i: int| 0 <= i < params.len() ==> (#[trigger] params[i]) < 0x8000_0000,
        s.cursor.row + param(params, 0, 1) <= isize::MAX,
        s.cursor.col + param(params, 0, 1) <= isize::MAX,
    ensures
        s.takes(command, params),
{
}

/// What a command does to a screen with the cursor on it. The cursor stays there and
/// the cells keep their shape. `A`, `B`, `C` and `D` move the cursor up, down, right and
/// left by the first parameter, or by one, as far as the screen goes. `H` and `f` take
/// it to the row and the column of the first two parameters, counted from one, where
/// that is on the screen. Only `J` and `K` change cells, and only `m` changes colours.
pub proof fn law_commands_move_the_cursor(
    s: Screen,
    command: char,
    params: Seq<usize>,
    config: ConsoleConfig,
)
    requires
        s.wf(),
        s.cursor.row < s.rows,
        s.cursor.col < s.cols,
        forall|i: int| 0 <= i < params.len() ==> (#[trigger] params[i]) < 0x8000_0000,
        s.takes(command, params),
    ensures
        ({
            let t = s.after_command(command, params, config);
            let n = param(params, 0, 1) as int;
            let (row, col) = (s.cursor.row as int, s.cursor.col as int);
            let to_row = less_one(param(params, 0, 1));
            let to_col = less_one(param(params, 1, 1));
            &&& t.wf()
            &&& t.cursor.row < t.rows && t.cursor.col < t.cols
            &&& t.rows == s.rows && t.cols == s.cols
            &&& command == 'A' ==> t.cursor.col == col && t.cursor.row == clamped(
                row - n,
                s.rows - 1,
            )
            &&& command == 'B' ==> t.cursor.col == col && t.cursor.row == clamped(
                row + n,
                s.rows - 1,
            )
            &&& command == 'C' ==> t.cursor.row == row && t.cursor.col == clamped(
                col + n,
                s.cols - 1,
            )
            &&& command == 'D' ==> t.cursor.row == row && t.cursor.col == clamped(
                col - n,
                s.cols - 1,
            )
            &&& command == 'H' || command == 'f' ==> t.cursor == (if to_row < s.rows && to_col
                < s.cols {
                Cursor { col: to_col, row: to_row }
            } else {
                s.cursor
            })
            &&& command != 'J' && command != 'K' ==> t.cells == s.cells
            &&& command != 'm' ==> t.fg == s.fg && t.bg == s.bg
        }),
{
    let t = s.after_command(command, params, config);
    assert forall|r: int| 0 <= r < t.cells.len() implies (#[trigger] t.cells[r]).len()
        == t.cols by {
        assert(s.cells[r].len() == s.cols);
    }
}

/// After the command `K` with no parameter or with 0, each cell of the cursor's row at or
/// right of the cursor is blank; with 1, each at or left of it; with 2, the whole row.
/// Every other cell is as before, and so are the cursor and the colours. With any other
/// parameter nothing changes.
pub proof fn law_line_is_erased(
    state: &mut ConsoleState,
    params: &Vec<usize>,
    config: &ConsoleConfig,
    metrics: &mut ConsoleMetrics,
    row: int,
    col: int,
)
    requires
        old(state)@.wf(),
        call_ensures(apply_command, (state, 'K', params, config, metrics), ()),
        0 <= row < old(state).rows,
        0 <= col < old(state).cols,
    ensures
        ({
            let s = old(state)@;
            let t = final(state)@;
            let mode = if params@.len() == 0 {
                0usize
            } else {
                params@[0]
            };
            let hit = row == s.cursor.row && ((mode == 0 && col >= s.cursor.col) || (mode == 1
                && col <= s.cursor.col) || mode == 2);
            &&& hit ==> t.cells[row][col] == (Cell { ch: 32, fg: s.fg, bg: s.bg })
            &&& !hit ==> t.cells[row][col] == s.cells[row][col]
            &&& t.cursor == s.cursor
            &&& t.fg == s.fg && t.bg == s.bg
            &&& t.escaped == s.escaped && t.pending == s.pending
            &&& mode <= 2 ==> t.dirty
            &&& mode > 2 ==> t == s
        }),
        old(metrics).clears < u64::MAX ==> final(metrics).clears == old(metrics).clears + 1,
        final(metrics).cursor_moves == old(metrics).cursor_moves,
        final(metrics).ansi_sequences == old(metrics).ansi_sequences,
        final(metrics).chars == old(metrics).chars,
{
    assert(old(state)@.cells[row].len() == old(state)@.cols);
}

/// After the command `J` with no parameter or with 0, each cell at or behind the cursor
/// is blank, in its row and in the rows below; with 1, each at or before it, in its row
/// and in the rows above; with 2, every cell, and the cursor is at the top left. Every
/// other cell is as before. With any other parameter nothing changes.
pub proof fn law_screen_is_erased(
    state: &mut ConsoleState,
    params: &Vec<usize>,
    config: &ConsoleConfig,
    metrics: &mut ConsoleMetrics,
    row: int,
    col: int,
)
    requires
        old(state)@.wf(),
        call_ensures(apply_command, (state, 'J', params, config, metrics), ()),
        0 <= row < old(state).rows,
        0 <= col < old(state).cols,
    ensures
        ({
            let s = old(state)@;
            let t = final(state)@;
            let mode = if params@.len() == 0 {
                0usize
            } else {
                params@[0]
            };
            let behind = row > s.cursor.row || (row == s.cursor.row && col >= s.cursor.col);
            let before = row < s.cursor.row || (row == s.cursor.row && col <= s.cursor.col);
            let hit = (mode == 0 && behind) || (mode == 1 && before) || mode == 2;
            &&& hit ==> t.cells[row][col] == (Cell { ch: 32, fg: s.fg, bg: s.bg })
            &&& !hit ==> t.cells[row][col] == s.cells[row][col]
            &&& mode == 2 ==> t.cursor.row == 0 && t.cursor.col == 0
            &&& mode != 2 ==> t.cursor == s.cursor
            &&& t.fg == s.fg && t.bg == s.bg
            &&& t.escaped == s.escaped && t.pending == s.pending
            &&& mode <= 2 ==> t.dirty
            &&& mode > 2 ==> t == s
        }),
        old(metrics).clears < u64::MAX ==> final(metrics).clears == old(metrics).clears + 1,
        final(metrics).cursor_moves == old(metrics).cursor_moves,
        final(metrics).ansi_sequences == old(metrics).ansi_sequences,
        final(metrics).chars == old(metrics).chars,
{
    assert(old(state)@.cells[row].len() == old(state)@.cols);
}

/// `A`, `B`, `C` and `D` take the cursor up, down, right and left by the first parameter,
/// or by one where there is none, and stop at the edge of the screen. Up undoes down and
/// left undoes right where no edge stops them. No cell and no colour changes.
pub proof fn law_cursor_goes_as_far_as_told(
    state: &mut ConsoleState,
    command: char,
    params: &Vec<usize>,
    config: &ConsoleConfig,
    metrics: &mut ConsoleMetrics,
)
    requires
        old(state)@.wf(),
        old(state).cursor.row < old(state).rows,
        command == 'A' || command == 'B' || command == 'C' || command == 'D',
        params@.len() > 0 ==> params@[0] <= isize::MAX,
        call_ensures(apply_command, (state, command, params, config, metrics), ()),
    ensures
        ({
            let s = old(state)@;
            let t = final(state)@;
            let n = if params@.len() == 0 {
                1int
            } else {
                params@[0] as int
            };
            let (row, col) = (s.cursor.row as int, s.cursor.col as int);
            &&& command == 'A' ==> t.cursor.col == col && t.cursor.row == (if n <= row {
                row - n
            } else {
                0
            })
            &&& command == 'B' ==> t.cursor.col == col && t.cursor.row == (if row + n < s.rows {
                row + n
            } else {
                s.rows - 1
            })
            &&& command == 'C' ==> t.cursor.row == row && t.cursor.col == (if col + n < s.cols {
                col + n
            } else {
                s.cols - 1
            })
            &&& command == 'D' ==> t.cursor.row == row && t.cursor.col == (if n <= col {
                col - n
            } else {
                0
            })
            &&& t.cells == s.cells
            &&& t.fg == s.fg && t.bg == s.bg
        }),
        old(metrics).cursor_moves < u64::MAX ==> final(metrics).cursor_moves == old(
            metrics).cursor_moves + 1,
        final(metrics).clears == old(metrics).clears,
        final(metrics).ansi_sequences == old(metrics).ansi_sequences,
{
}

/// `H` and `f` take the cursor to a row and a column that are counted from one and are
/// one where they are not given. A place off the screen leaves it where it is. No cell and
/// no colour changes.
pub proof fn law_cursor_goes_to_the_place(
    state: &mut ConsoleState,
    command: char,
    params: &Vec<usize>,
    config: &ConsoleConfig,
    metrics: &mut ConsoleMetrics,
)
    requires
        old(state)@.wf(),
        command == 'H' || command == 'f',
        call_ensures(apply_command, (state, command, params, config, metrics), ()),
    ensures
        ({
            let s = old(state)@;
            let t = final(state)@;
            let row = if params@.len() == 0 {
                1usize
            } else {
                params@[0]
            };
            let col = if params@.len() <= 1 {
                1usize
            } else {
                params@[1]
            };
            &&& 1 <= row <= s.rows && 1 <= col <= s.cols ==> t.cursor.row + 1 == row && t.cursor.col
                + 1 == col
            &&& row > s.rows || col > s.cols ==> t.cursor == s.cursor
            &&& row == 0 && 1 <= col <= s.cols ==> t.cursor.row == 0 && t.cursor.col + 1 == col
            &&& col == 0 && 1 <= row <= s.rows ==> t.cursor.col == 0 && t.cursor.row + 1 == row
            &&& t.cells == s.cells
            &&& t.fg == s.fg && t.bg == s.bg
        }),
        old(metrics).cursor_moves < u64::MAX ==> final(metrics).cursor_moves == old(
            metrics).cursor_moves + 1,
{
}

/// The eight colours that `m` knows, from black to white.
pub open spec fn eight_colours() -> Seq<u32> {
    seq![0x000000u32, 0xF85149, 0x3FB950, 0xD29922, 0x58A6FF, 0xBC8CFF, 0x39D353, 0xE6EDF3]
}

/// Of the parameters of `m`, the last one from 30 to 37 sets the foreground and the last
/// one from 40 to 47 the background, each to the colour of that number among the eight. A
/// colour that no parameter sets stays. No parameter, or 0 alone, gives both defaults
/// back. The cells and the cursor stay.
pub proof fn law_last_colour_counts(
    state: &mut ConsoleState,
    params: &Vec<usize>,
    config: &ConsoleConfig,
    metrics: &mut ConsoleMetrics,
    k: int,
)
    requires
        call_ensures(apply_command, (state, 'm', params, config, metrics), ()),
        0 <= k < params@.len(),
    ensures
        ({
            let s = old(state)@;
            let t = final(state)@;
            let p = params@;
            let reset = p.len() == 1 && p[0] == 0;
            &&& reset ==> t.fg == config.default_fg && t.bg == config.default_bg
            &&& 30 <= p[k] <= 37 && (forall|j: int|
                k < j < p.len() ==> !(30 <= #[trigger] p[j] <= 37)) ==> t.fg == eight_colours()[p[k]
                - 30]
            &&& 40 <= p[k] <= 47 && (forall|j: int|
                k < j < p.len() ==> !(40 <= #[trigger] p[j] <= 47)) ==> t.bg == eight_colours()[p[k]
                - 40]
            &&& !reset && (forall|j: int| 0 <= j < p.len() ==> !(30 <= #[trigger] p[j] <= 37))
                ==> t.fg == s.fg
            &&& !reset && (forall|j: int| 0 <= j < p.len() ==> !(40 <= #[trigger] p[j] <= 47))
                ==> t.bg == s.bg
            &&& t.cells == s.cells
            &&& t.cursor == s.cursor
        }),
        old(metrics).ansi_sequences < u64::MAX ==> final(metrics).ansi_sequences == old(
            metrics).ansi_sequences + 1,
        final(metrics).clears == old(metrics).clears,
        final(metrics).cursor_moves == old(metrics).cursor_moves,
{
    lemma_last_colour(old(state).fg, old(state).bg, params@, k);
    assert(params@ == seq![0usize] <==> params@ =~= seq![0usize]);
}

proof fn lemma_last_colour(fg: Color, bg: Color, p: Seq<usize>, k: int)
    ensures
        0 <= k < p.len() && 30 <= p[k] <= 37 && (forall|j: int|
            k < j < p.len() ==> !(30 <= #[trigger] p[j] <= 37)) ==> colours(fg, bg, p).0
            == eight_colours()[p[k] - 30],
        0 <= k < p.len() && 40 <= p[k] <= 47 && (forall|j: int|
            k < j < p.len() ==> !(40 <= #[trigger] p[j] <= 47)) ==> colours(fg, bg, p).1
            == eight_colours()[p[k] - 40],
        (forall|j: int| 0 <= j < p.len() ==> !(30 <= #[trigger] p[j] <= 37)) ==> colours(
            fg,
            bg,
            p,
        ).0 == fg,
        (forall|j: int| 0 <= j < p.len() ==> !(40 <= #[trigger] p[j] <= 47)) ==> colours(
            fg,
            bg,
            p,
        ).1 == bg,
    decreases p.len(),
{
    if p.len() > 0 {
        let q = p.drop_last();
        lemma_last_colour(fg, bg, q, k);
        assert(p.last() == p[p.len() - 1]);
        assert(forall|j: int| 0 <= j < q.len() ==> #[trigger] q[j] == p[j]);
        assert(forall|j: int| 0 <= j < q.len() ==> #[trigger] p[j] == q[j]);
    }
}

/// A character that is none of line feed, carriage return and backspace stands where the
/// cursor was, in the colours of the screen; every other cell is as before, and the cursor
/// goes to the next column or, behind the last one, to the start of the next row.
pub proof fn law_character_stands_at_the_cursor(
    state: &mut ConsoleState,
    ch: u8,
    config: &ConsoleConfig,
    metrics: &mut ConsoleMetrics,
    row: int,
    col: int,
)
    requires
        old(state)@.wf(),
        old(state).cursor.row < old(state).rows,
        ch != 10 && ch != 13 && ch != 8,
        call_ensures(apply_char, (state, ch, config, metrics), ()),
        0 <= row < old(state).rows,
        0 <= col < old(state).cols,
    ensures
        ({
            let s = old(state)@;
            let t = final(state)@;
            let here = row == s.cursor.row && col == s.cursor.col;
            &&& here ==> t.cells[row][col] == (Cell { ch, fg: s.fg, bg: s.bg })
            &&& !here ==> t.cells[row][col] == s.cells[row][col]
            &&& t.cursor.row * t.cols + t.cursor.col == s.cursor.row * s.cols + s.cursor.col + 1
            &&& t.cursor.col < t.cols
            &&& t.dirty
            &&& t.fg == s.fg && t.bg == s.bg && t.rows == s.rows && t.cols == s.cols
        }),
        old(metrics).chars < u64::MAX ==> final(metrics).chars == old(metrics).chars + 1,
        final(metrics).newlines == old(metrics).newlines,
        final(metrics).backspaces == old(metrics).backspaces,
{
    let s = old(state)@;
    assert(s.cells[row].len() == s.cols);
    assert((s.cursor.row + 1) * s.cols == s.cursor.row * s.cols + s.cols) by (nonlinear_arith);
}

/// A line feed takes the cursor to the start of the next row. Where there is none, every
/// row moves up by one, the first is lost and the last is blank, and the cursor is at the
/// start of the last row.
pub proof fn law_line_feed_goes_down(
    state: &mut ConsoleState,
    config: &ConsoleConfig,
    metrics: &mut ConsoleMetrics,
    row: int,
    col: int,
)
    requires
        old(state)@.wf(),
        call_ensures(apply_char, (state, 10u8, config, metrics), ()),
        0 <= row < old(state).rows,
        0 <= col < old(state).cols,
    ensures
        ({
            let s = old(state)@;
            let t = final(state)@;
            let room = s.cursor.row + 1 < s.rows;
            &&& t.cursor.col == 0
            &&& room ==> t.cursor.row == s.cursor.row + 1 && t.cells == s.cells
            &&& !room ==> t.cursor.row + 1 == t.rows
            &&& !room && row + 1 < s.rows ==> t.cells[row][col] == s.cells[row + 1][col]
            &&& !room && row + 1 == s.rows ==> t.cells[row][col] == (Cell {
                ch: 32,
                fg: s.fg,
                bg: s.bg,
            })
            &&& t.dirty
            &&& t.fg == s.fg && t.bg == s.bg && t.rows == s.rows && t.cols == s.cols
        }),
        old(metrics).newlines < u64::MAX ==> final(metrics).newlines == old(metrics).newlines + 1,
        final(metrics).chars == old(metrics).chars,
        final(metrics).backspaces == old(metrics).backspaces,
{
}

/// A carriage return takes the cursor to the start of its row and changes no cell.
pub proof fn law_carriage_return_goes_back(
    state: &mut ConsoleState,
    config: &ConsoleConfig,
    metrics: &mut ConsoleMetrics,
)
    requires
        call_ensures(apply_char, (state, 13u8, config, metrics), ()),
    ensures
        final(state).cursor.row == old(state).cursor.row,
        final(state).cursor.col == 0,
        final(state)@.cells == old(state)@.cells,
        final(state)@.fg == old(state)@.fg && final(state)@.bg == old(state)@.bg,
        *final(metrics) == *old(metrics),
{
    let s = old(state)@;
    let t = final(state)@;
    assert(t.cursor == final(state).cursor);
    assert(s.cursor == old(state).cursor);
}

/// A backspace takes back the character before it: after a character that leaves the
/// cursor in its row, the cursor is where it was and its cell is blank. At the start of a
/// row the cursor goes to the end of the row above and no cell changes; at the top left
/// nothing changes.
pub proof fn law_backspace_takes_back(
    state: &mut ConsoleState,
    config: &ConsoleConfig,
    metrics: &mut ConsoleMetrics,
    row: int,
    col: int,
)
    requires
        old(state)@.wf(),
        call_ensures(apply_char, (state, 8u8, config, metrics), ()),
        0 <= row < old(state).rows,
        0 <= col < old(state).cols,
    ensures
        ({
            let s = old(state)@;
            let t = final(state)@;
            let here = s.cursor.col > 0 && row == s.cursor.row && col + 1 == s.cursor.col;
            &&& here ==> t.cells[row][col] == (Cell { ch: 32, fg: s.fg, bg: s.bg })
            &&& !here ==> t.cells[row][col] == s.cells[row][col]
            &&& s.cursor.col > 0 ==> t.cursor.row == s.cursor.row && t.cursor.col + 1
                == s.cursor.col
            &&& s.cursor.col == 0 && s.cursor.row > 0 ==> t.cursor.row + 1 == s.cursor.row
                && t.cursor.col + 1 == s.cols
            &&& s.cursor.col == 0 && s.cursor.row == 0 ==> t == s
            &&& t.fg == s.fg && t.bg == s.bg && t.rows == s.rows && t.cols == s.cols
        }),
        old(metrics).backspaces < u64::MAX ==> final(metrics).backspaces == old(metrics).backspaces
            + 1,
        final(metrics).chars == old(metrics).chars,
        final(metrics).newlines == old(metrics).newlines,
{
    assert(old(state)@.cells[row].len() == old(state)@.cols);
}

/// A screen that is cleared to a background is blank in it everywhere, in the foreground
/// that it has; its cursor stays. A scrolled one has each row where the row above it was.
pub proof fn law_cleared_and_scrolled(
    cleared: &mut ConsoleState,
    bg: Color,
    scrolled: &mut ConsoleState,
    row: int,
    col: int,
)
    requires
        old(cleared)@.wf(),
        old(scrolled)@.wf(),
        call_ensures(ConsoleState::clear, (cleared, bg), ()),
        call_ensures(ConsoleState::scroll, (scrolled,), ()),
        0 <= row,
        0 <= col,
    ensures
        row < old(cleared).rows && col < old(cleared).cols ==> final(cleared)@.cells[row][col] == (
        Cell { ch: 32, fg: old(cleared).fg, bg }),
        final(cleared)@.cursor == old(cleared)@.cursor,
        final(cleared)@.fg == old(cleared)@.fg,
        final(cleared)@.bg == old(cleared)@.bg,
        row + 1 < old(scrolled).rows && col < old(scrolled).cols ==> final(
            scrolled)@.cells[row][col] == old(scrolled)@.cells[row + 1][col],
        row + 1 == old(scrolled).rows && col < old(scrolled).cols ==> final(
            scrolled)@.cells[row][col] == (Cell {
            ch: 32,
            fg: old(scrolled).fg,
            bg: old(scrolled).bg,
        }),
        final(scrolled)@.cursor == old(scrolled)@.cursor,
        final(scrolled)@.cells.len() == old(scrolled)@.cells.len(),
{
    if row < old(cleared).rows {
        assert(old(cleared)@.cells[row].len() == old(cleared)@.cols);
    }
}

/// The character at a place of the screen is drawn at that place: each column takes the
/// width of the font and each row its height, so the cells of a frame do not overlap and
/// fill it. Its colours are those of the cell, and bytes beyond ASCII are drawn as the
/// replacement character.
pub proof fn law_cell_is_drawn_at_its_place(c: &Console, r: Frame, row: int, col: int)
    requires
        c.wf(),
        call_ensures(Console::render_all, (c,), r),
        0 <= row < c.config.rows,
        0 <= col < c.config.cols,
    ensures
        ({
            let d = r.cells@[row * c.config.cols + col];
            let cell = c.state@.cells[row][col];
            &&& r.cells@.len() == c.config.cols * c.config.rows
            &&& d.x == col * c.config.font_width
            &&& d.y == row * c.config.font_height
            &&& d.x + c.config.font_width <= r.width
            &&& d.y + c.config.font_height <= r.height
            &&& d.fg == cell.fg
            &&& d.bg == cell.bg
            &&& cell.ch < 128 ==> d.ch as int == cell.ch as int
            &&& cell.ch >= 128 ==> d.ch == '\u{FFFD}'
        }),
        r.width == c.config.cols * c.config.font_width,
        r.height == c.config.rows * c.config.font_height,
{
    let cols = c.config.cols as int;
    let rows = c.config.rows as int;
    let (w, h) = (c.config.font_width as int, c.config.font_height as int);
    let i = row * cols + col;
    assert(0 <= i < cols * rows) by (nonlinear_arith)
        requires
            i == row * cols + col,
            0 <= row < rows,
            0 <= col < cols,
    ;
    vstd::arithmetic::div_mod::lemma_fundamental_div_mod_converse(i, cols, row, col);
    assert(0 <= col * w && col * w + w <= cols * w) by (nonlinear_arith)
        requires
            0 <= col < cols,
            w >= 0,
    ;
    assert(0 <= row * h && row * h + h <= rows * h) by (nonlinear_arith)
        requires
            0 <= row < rows,
            h >= 0,
    ;
}

/// The digits of a number stand for the number.
proof fn lemma_value_of_decimal(n: nat)
    ensures
        value(crate::text::decimal(n)) == n,
        crate::text::decimal(n).len() > 0,
        forall|i: int|
            0 <= i < crate::text::decimal(n).len() ==> is_digit(
                #[trigger] crate::text::decimal(n)[i],
            ),
    decreases n,
{
    let d = crate::text::decimal(n);
    if n < 10 {
        assert(d.drop_last() =~= Seq::<char>::empty());
        assert(value(d.drop_last()) == 0);
    } else {
        lemma_value_of_decimal(n / 10);
        assert(d.drop_last() =~= crate::text::decimal(n / 10));
    }
}

/// Digits behind a semicolon, or behind nothing, are the open parameter.
proof fn lemma_open_digits(head: Seq<char>, digits: Seq<char>)
    requires
        head.len() == 0 || head.last() == ';',
        forall|i: int| 0 <= i < digits.len() ==> is_digit(#[trigger] digits[i]),
    ensures
        open_digits(head + digits) == digits,
        closed_params(head + digits) == closed_params(head),
    decreases digits.len(),
{
    let all = head + digits;
    if digits.len() == 0 {
        assert(all =~= head);
    } else {
        assert(all.last() == digits.last());
        assert(all.last() == digits[digits.len() - 1]);
        assert(all.drop_last() =~= head + digits.drop_last());
        lemma_open_digits(head, digits.drop_last());
        assert(digits.drop_last().push(digits.last()) =~= digits);
    }
}

proof fn lemma_param_end(s: Seq<char>, i: int, n: int)
    requires
        0 <= i <= n <= s.len(),
        forall|k: int| i <= k < n ==> is_digit(#[trigger] s[k]) || s[k] == ';',
        n < s.len() ==> !is_digit(s[n]) && s[n] != ';',
    ensures
        param_end(s, i) == n,
    decreases n - i,
{
    if i < n {
        assert(is_digit(s[i]) || s[i] == ';');
        lemma_param_end(s, i + 1, n);
    }
}

/// What an escape sequence leaves of a screen on which it is written, when it is a
/// bracket, two numbers in decimal with a semicolon between them, and a letter: what the
/// command of that letter leaves with these two parameters.
pub proof fn law_written_command_is_applied(
    t: Term,
    a: usize,
    b: usize,
    letter: char,
    config: ConsoleConfig,
)
    requires
        config.enable_ansi,
        is_letter(letter),
    ensures
        ({
            let text = seq!['\x1b', '['] + crate::text::decimal(a as nat) + seq![';']
                + crate::text::decimal(b as nat) + seq![letter];
            let s = Screen { escaped: false, pending: Seq::empty(), ..t.screen };
            &&& t.fed_all(text, config).screen == (Screen {
                escaped: false,
                pending: Seq::empty(),
                ..s.after_command(letter, seq![a, b], config)
            })
            &&& t.fed_all(text, config).metrics == counted_command(t.metrics, letter)
        }),
{
    let da = crate::text::decimal(a as nat);
    let db = crate::text::decimal(b as nat);
    lemma_value_of_decimal(a as nat);
    lemma_value_of_decimal(b as nat);
    let middle = seq!['['] + da + seq![';'] + db;
    let all = middle.push(letter);
    let text = seq!['\x1b', '['] + da + seq![';'] + db + seq![letter];
    assert(text =~= (seq!['\x1b'] + middle).push(letter));
    assert forall|k: int| 0 <= k < middle.len() implies !is_letter(#[trigger] middle[k])
        && middle[k] != '\x1b' by {
        if 1 <= k < 1 + da.len() {
            assert(middle[k] == da[k - 1]);
        } else if k > 1 + da.len() {
            assert(middle[k] == db[k - 2 - da.len()]);
        }
    }
    lemma_pending_grows(t, middle, config);
    assert(text.drop_last() =~= seq!['\x1b'] + middle);
    let mid = t.fed_all(text.drop_last(), config);
    let n = middle.len() as int;
    assert forall|k: int| 1 <= k < n implies is_digit(#[trigger] all[k]) || all[k] == ';' by {
        if k < 1 + da.len() {
            assert(all[k] == da[k - 1]);
        } else if k > 1 + da.len() {
            assert(all[k] == db[k - 2 - da.len()]);
        }
    }
    lemma_param_end(all, 1, n);
    let p = all.subrange(1, n);
    let head = da + seq![';'];
    assert(p =~= head + db);
    lemma_open_digits(head, db);
    lemma_open_digits(Seq::empty(), da);
    assert(Seq::<char>::empty() + da =~= da);
    assert(head.last() == ';');
    assert(head.drop_last() =~= da);
    assert(closed_params(Seq::<char>::empty()) =~= Seq::<usize>::empty());
    assert(params_of(da) =~= seq![a]);
    assert(closed_params(head) == params_of(da));
    assert(params_of(p) =~= seq![a, b]);
    assert(command_of(all) == Some((letter, seq![a, b])));
    assert(mid.screen.pending == middle);
    let s = Screen { escaped: false, pending: Seq::empty(), ..t.screen };
    assert(t.fed_all(text, config) == mid.fed(letter, config));
    let x = mid.screen.after_command(letter, seq![a, b], config);
    let y = s.after_command(letter, seq![a, b], config);
    assert(x.cells =~= y.cells);
}

/// Between the escape character and the letter, what is written waits.
proof fn lemma_pending_grows(t: Term, middle: Seq<char>, config: ConsoleConfig)
    requires
        forall|k: int|
            0 <= k < middle.len() ==> !is_letter(#[trigger] middle[k]) && middle[k] != '\x1b',
    ensures
        t.fed_all(seq!['\x1b'] + middle, config) == (Term {
            screen: Screen { escaped: true, pending: middle, ..t.screen },
            ..t
        }),
    decreases middle.len(),
{
    let all = seq!['\x1b'] + middle;
    if middle.len() == 0 {
        assert(all.drop_last() =~= Seq::<char>::empty());
        assert(all.last() == '\x1b');
        assert(t.fed_all(all.drop_last(), config) == t);
        assert(middle =~= Seq::<char>::empty());
    } else {
        let rest = middle.drop_last();
        assert forall|k: int| 0 <= k < rest.len() implies !is_letter(#[trigger] rest[k])
            && rest[k] != '\x1b' by {
            assert(rest[k] == middle[k]);
        }
        lemma_pending_grows(t, rest, config);
        assert(all.drop_last() =~= seq!['\x1b'] + rest);
        assert(all.last() == middle[middle.len() - 1]);
        assert(rest.push(all.last()) =~= middle);
    }
}

/// A printable ASCII character that is written outside of an escape sequence stands where
/// the cursor was; it is drawn at once, so nothing is left to draw. It is counted as
/// written and as put on the screen. A character beyond a byte is shown as its low byte.
pub proof fn law_written_character_is_shown(c: &mut Console, ch: char, draw: bool)
    requires
        old(c).wf(),
        old(c).state.cursor.row < old(c).state.rows,
        !old(c).state.escaped,
        32 <= ch as int % 256,
        call_ensures(Console::write_char, (c, ch), draw),
    ensures
        ({
            let at = old(c).state.cursor;
            let s = old(c).state@;
            let t = final(c).state@;
            &&& draw
            &&& !t.dirty
            &&& !t.escaped
            &&& t.cells[at.row as int][at.col as int] == (Cell {
                ch: (ch as int % 256) as u8,
                fg: s.fg,
                bg: s.bg,
            })
            &&& t.cursor.row * t.cols + t.cursor.col == s.cursor.row * s.cols + s.cursor.col + 1
            &&& old(c).metrics.chars + 2 <= u64::MAX ==> final(c).metrics.chars == old(
                c).metrics.chars + 2
            &&& final(c).metrics.newlines == old(c).metrics.newlines
        }),
{
    let s = old(c).state@;
    assert(s.cells[s.cursor.row as int].len() == s.cols);
    assert((s.cursor.row + 1) * s.cols == s.cursor.row * s.cols + s.cols) by (nonlinear_arith);
    assert(old(c).term().screen == s);
    assert(final(c).term().screen == final(c).state@);
    let b = low_byte(ch);
    assert(b >= 32);
    let t = s.after_char(b);
    assert(t == s.put(b, s.fg, s.bg));
}

/// The cursor is set exactly where the place is on the screen; else the place is returned
/// as out of bounds and the cursor stays. No cell changes.
pub proof fn law_cursor_is_set_on_the_screen(
    c: &mut Console,
    col: usize,
    row: usize,
    r: ConsoleResult<()>,
)
    requires
        old(c).wf(),
        call_ensures(Console::set_cursor, (c, col, row), r),
    ensures
        r is Ok <==> col < old(c).config.cols && row < old(c).config.rows,
        r is Ok ==> final(c).state@.cursor.col == col && final(c).state@.cursor.row == row,
        r is Err ==> final(c).state@.cursor == old(c).state@.cursor && r
            == Err::<(), ConsoleError>(ConsoleError::OutOfBounds { row, col }),
        final(c).state@.cells == old(c).state@.cells,
{
}

/// A console that is not initialised takes nothing: what is written on it leaves screen
/// and counters as they were, and no frame is drawn. Once it is initialised it is blank in
/// the default background, and clearing it makes it so again with the cursor at the top
/// left.
pub proof fn law_console_is_blank_at_first(
    written: &mut Console,
    text: &str,
    frames: u64,
    made: &mut Console,
    cleared: &mut Console,
    row: int,
    col: int,
)
    requires
        old(written).wf(),
        !old(written).initialised,
        call_ensures(Console::write, (written, text), frames),
        old(made).wf(),
        !old(made).initialised,
        call_ensures(Console::init, (made,), Ok(())),
        old(cleared).wf(),
        call_ensures(Console::clear, (cleared,), ()),
        0 <= row,
        0 <= col,
    ensures
        final(written).state@ == old(written).state@,
        final(written).metrics == old(written).metrics,
        frames == 0,
        final(made).initialised,
        row < old(made).config.rows && col < old(made).config.cols ==> final(
            made).state@.cells[row][col] == (Cell {
            ch: 32,
            fg: old(made).state@.fg,
            bg: old(made).config.default_bg,
        }),
        row < old(cleared).config.rows && col < old(cleared).config.cols ==> final(
            cleared).state@.cells[row][col] == (Cell {
            ch: 32,
            fg: old(cleared).state@.fg,
            bg: old(cleared).config.default_bg,
        }),
        final(cleared).state@.cursor.row == 0 && final(cleared).state@.cursor.col == 0,
        old(cleared).metrics.clears < u64::MAX ==> final(cleared).metrics.clears == old(
            cleared).metrics.clears + 1,
{
    if row < old(made).config.rows {
        assert(old(made).state@.cells[row].len() == old(made).state@.cols);
    }
    if row < old(cleared).config.rows {
        assert(old(cleared).state@.cells[row].len() == old(cleared).state@.cols);
    }
    assert(old(written).term().screen == old(written).state@);
    assert(final(written).term().screen == final(written).state@);
}

/// What is reported of the console is what was counted.
pub proof fn law_console_report_is_what_was_counted(m: &ConsoleMetrics, r: ConsoleMetricsSnapshot)
    requires
        call_ensures(ConsoleMetrics::snapshot, (m,), r),
    ensures
        r.chars == m.chars,
        r.newlines == m.newlines,
        r.backspaces == m.backspaces,
        r.clears == m.clears,
        r.cursor_moves == m.cursor_moves,
        r.ansi_sequences == m.ansi_sequences,
        r.scrolls == m.scrolls,
{
}

/// Settings pass exactly where the screen has a cell and the font has a pixel.
pub proof fn law_console_settings_hold_a_cell(config: &ConsoleConfig, r: Result<(), &'static str>)
    requires
        call_ensures(ConsoleConfig::validate, (config,), r),
    ensures
        r is Ok <==> config.cols > 0 && config.rows > 0 && config.font_width > 0
            && config.font_height > 0,
        config.cols == 0 || config.rows == 0 ==> r is Err && r->Err_0@
            == "cols and rows must be > 0"@,
{
}

} // verus!
