//! What the full-screen programs decide from a key press, and how a list
//! row is highlighted.

use vstd::prelude::*;

verus! {

/// A key, as the programs tell keys apart.
pub enum Key {
    Up,
    Down,
    Left,
    Right,
    Tab,
    Enter,
    Backspace,
    Esc,
    Char(char),
    Other,
}

/// What a key asks of the directory browser.
pub enum BrowserCommand {
    /// ↑: move up (or scroll a preview up).
    Up,
    /// ↓: move down (or scroll a preview down).
    Down,
    /// →: move right.
    Right,
    /// ←: move left, leave a preview, or go to the parent.
    Left,
    /// Tab: preview the highlighted row.
    Preview,
    /// Enter: leave, changing to the highlighted directory.
    Exit,
    /// r: back to the start directory.
    Reset,
    /// q, Ctrl-C or Esc: leave without changing directory.
    Quit,
    /// Anything else: nothing.
    Ignore,
}

/// The browser's command for a key event: only presses count; `r` and `q`
/// act with or without Ctrl, `c` only with Ctrl.
pub open spec fn browser_command_spec(key: Key, ctrl: bool, press: bool) -> BrowserCommand {
    if !press {
        BrowserCommand::Ignore
    } else {
        match key {
            Key::Up => BrowserCommand::Up,
            Key::Down => BrowserCommand::Down,
            Key::Right => BrowserCommand::Right,
            Key::Left => BrowserCommand::Left,
            Key::Tab => BrowserCommand::Preview,
            Key::Enter => BrowserCommand::Exit,
            Key::Char(c) => if c == 'r' {
                BrowserCommand::Reset
            } else if c == 'q' {
                BrowserCommand::Quit
            } else if c == 'c' && ctrl {
                BrowserCommand::Quit
            } else {
                BrowserCommand::Ignore
            },
            Key::Esc => BrowserCommand::Quit,
            _ => BrowserCommand::Ignore,
        }
    }
}

/// What a key event asks of the directory browser.
pub fn browser_command(key: &Key, ctrl: bool, press: bool) -> (r: BrowserCommand)
    ensures
        r == browser_command_spec(*key, ctrl, press),
{
    if !press {
        return BrowserCommand::Ignore;
    }
    match key {
        Key::Up => BrowserCommand::Up,
        Key::Down => BrowserCommand::Down,
        Key::Right => BrowserCommand::Right,
        Key::Left => BrowserCommand::Left,
        Key::Tab => BrowserCommand::Preview,
        Key::Enter => BrowserCommand::Exit,
        Key::Char(c) => {
            if *c == 'r' {
                BrowserCommand::Reset
            } else if *c == 'q' {
                BrowserCommand::Quit
            } else if *c == 'c' && ctrl {
                BrowserCommand::Quit
            } else {
                BrowserCommand::Ignore
            }
        },
        Key::Esc => BrowserCommand::Quit,
        _ => BrowserCommand::Ignore,
    }
}

/// What a key asks of a search picker.
pub enum PickerCommand {
    /// Enter: take the highlighted item.
    Choose,
    /// ↑: highlight the previous match.
    Up,
    /// ↓: highlight the next match.
    Down,
    /// Backspace: remove the last filter character.
    Backspace,
    /// Ctrl-C, Ctrl-Q or Esc: leave without an item.
    Cancel,
    /// A character typed into the filter.
    Type(char),
    /// Anything else: nothing.
    Ignore,
}

/// The picker's command for a key event: only presses count; Ctrl with `c`
/// or `q` cancels, any other character is typed.
pub open spec fn picker_command_spec(key: Key, ctrl: bool, press: bool) -> PickerCommand {
    if !press {
        PickerCommand::Ignore
    } else {
        match key {
            Key::Enter => PickerCommand::Choose,
            Key::Up => PickerCommand::Up,
            Key::Down => PickerCommand::Down,
            Key::Backspace => PickerCommand::Backspace,
            Key::Char(c) => if ctrl && (c == 'c' || c == 'q') {
                PickerCommand::Cancel
            } else {
                PickerCommand::Type(c)
            },
            Key::Esc => PickerCommand::Cancel,
            _ => PickerCommand::Ignore,
        }
    }
}

/// What a key event asks of a search picker.
pub fn picker_command(key: &Key, ctrl: bool, press: bool) -> (r: PickerCommand)
    ensures
        r == picker_command_spec(*key, ctrl, press),
{
    if !press {
        return PickerCommand::Ignore;
    }
    match key {
        Key::Enter => PickerCommand::Choose,
        Key::Up => PickerCommand::Up,
        Key::Down => PickerCommand::Down,
        Key::Backspace => PickerCommand::Backspace,
        Key::Char(c) => {
            if ctrl && (*c == 'c' || *c == 'q') {
                PickerCommand::Cancel
            } else {
                PickerCommand::Type(*c)
            }
        },
        Key::Esc => PickerCommand::Cancel,
        _ => PickerCommand::Ignore,
    }
}

/// Whether a key ends the system monitor: `q`, Ctrl-C or Esc (pressed or
/// not).
pub open spec fn monitor_quits_spec(key: Key, ctrl: bool) -> bool {
    match key {
        Key::Char(c) => c == 'q' || (c == 'c' && ctrl),
        Key::Esc => true,
        _ => false,
    }
}

/// Whether a key ends the system monitor.
pub fn monitor_quits(key: &Key, ctrl: bool) -> (r: bool)
    ensures
        r == monitor_quits_spec(*key, ctrl),
{
    match key {
        Key::Char(c) => *c == 'q' || (*c == 'c' && ctrl),
        Key::Esc => true,
        _ => false,
    }
}

/// How a row of a browser column is drawn.
pub enum RowStyle {
    /// The highlighted row of the focused column.
    Focused,
    /// The highlighted row of another column.
    Selected,
    /// Any other directory row.
    Directory,
    /// Any other file row.
    Plain,
}

/// The style of row `i` of a column whose highlight is `selected`.
pub open spec fn row_style_spec(i: usize, selected: usize, focused: bool, is_dir: bool) -> RowStyle {
    if i == selected && focused {
        RowStyle::Focused
    } else if i == selected {
        RowStyle::Selected
    } else if is_dir {
        RowStyle::Directory
    } else {
        RowStyle::Plain
    }
}

/// The style of row `i` of a browser column.
pub fn row_style(i: usize, selected: usize, focused: bool, is_dir: bool) -> (r: RowStyle)
    ensures
        r == row_style_spec(i, selected, focused, is_dir),
{
    if i == selected && focused {
        RowStyle::Focused
    } else if i == selected {
        RowStyle::Selected
    } else if is_dir {
        RowStyle::Directory
    } else {
        RowStyle::Plain
    }
}

/// Whether a picker draws row `i` highlighted, in a list scrolled by
/// `scroll` whose cursor is `cursor`: when `i + scroll` is the cursor.
pub fn picker_row_highlighted(i: usize, scroll: usize, cursor: usize) -> (r: bool)
    ensures
        r == (i + scroll == cursor),
{
    i <= cursor && cursor - i == scroll
}

/// How long the system monitor waits between refreshes of its slow
/// widgets (disks, system, GPU, battery), in milliseconds.
pub const SLOW_REFRESH_MS: u128 = 2000;

/// How long the system monitor waits between redraws, in milliseconds.
pub const REDRAW_MS: u128 = 50;

/// Whether the slow widgets are due for a refresh, `elapsed_ms` whole
/// milliseconds after the last one.
pub fn slow_refresh_due(elapsed_ms: u128) -> (r: bool)
    ensures
        r == (elapsed_ms >= SLOW_REFRESH_MS),
{
    elapsed_ms >= SLOW_REFRESH_MS
}

/// Whether the screen is due for a redraw, `elapsed_ms` whole milliseconds
/// after the last one.
pub fn redraw_due(elapsed_ms: u128) -> (r: bool)
    ensures
        r == (elapsed_ms >= REDRAW_MS),
{
    elapsed_ms >= REDRAW_MS
}

} // verus!
