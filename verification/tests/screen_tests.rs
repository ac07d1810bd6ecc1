use fast::screen::{
    browser_command, monitor_quits, picker_command, picker_row_highlighted, row_style, BrowserCommand, Key,
    PickerCommand, RowStyle,
};
use fast::screen::{redraw_due, slow_refresh_due};

#[test]
fn browser_keys() {
    assert!(matches!(browser_command(&Key::Up, false, true), BrowserCommand::Up));
    assert!(matches!(browser_command(&Key::Down, false, true), BrowserCommand::Down));
    assert!(matches!(browser_command(&Key::Right, false, true), BrowserCommand::Right));
    assert!(matches!(browser_command(&Key::Left, false, true), BrowserCommand::Left));
    assert!(matches!(browser_command(&Key::Tab, false, true), BrowserCommand::Preview));
    assert!(matches!(browser_command(&Key::Enter, false, true), BrowserCommand::Exit));
    assert!(matches!(browser_command(&Key::Char('r'), false, true), BrowserCommand::Reset));
    assert!(matches!(browser_command(&Key::Char('r'), true, true), BrowserCommand::Reset));
    assert!(matches!(browser_command(&Key::Char('q'), false, true), BrowserCommand::Quit));
    assert!(matches!(browser_command(&Key::Char('c'), true, true), BrowserCommand::Quit));
    assert!(matches!(browser_command(&Key::Char('c'), false, true), BrowserCommand::Ignore));
    assert!(matches!(browser_command(&Key::Esc, false, true), BrowserCommand::Quit));
    assert!(matches!(browser_command(&Key::Backspace, false, true), BrowserCommand::Ignore));
    assert!(matches!(browser_command(&Key::Up, false, false), BrowserCommand::Ignore));
}

#[test]
fn picker_keys() {
    assert!(matches!(picker_command(&Key::Enter, false, true), PickerCommand::Choose));
    assert!(matches!(picker_command(&Key::Up, false, true), PickerCommand::Up));
    assert!(matches!(picker_command(&Key::Down, false, true), PickerCommand::Down));
    assert!(matches!(picker_command(&Key::Backspace, false, true), PickerCommand::Backspace));
    assert!(matches!(picker_command(&Key::Char('q'), true, true), PickerCommand::Cancel));
    assert!(matches!(picker_command(&Key::Char('c'), true, true), PickerCommand::Cancel));
    assert!(matches!(picker_command(&Key::Char('q'), false, true), PickerCommand::Type('q')));
    assert!(matches!(picker_command(&Key::Char('x'), true, true), PickerCommand::Type('x')));
    assert!(matches!(picker_command(&Key::Esc, false, true), PickerCommand::Cancel));
    assert!(matches!(picker_command(&Key::Tab, false, true), PickerCommand::Ignore));
    assert!(matches!(picker_command(&Key::Enter, false, false), PickerCommand::Ignore));
}

#[test]
fn monitor_keys() {
    assert!(monitor_quits(&Key::Char('q'), false));
    assert!(monitor_quits(&Key::Char('c'), true));
    assert!(!monitor_quits(&Key::Char('c'), false));
    assert!(monitor_quits(&Key::Esc, false));
    assert!(!monitor_quits(&Key::Enter, false));
}

#[test]
fn row_styles() {
    assert!(matches!(row_style(2, 2, true, false), RowStyle::Focused));
    assert!(matches!(row_style(2, 2, false, true), RowStyle::Selected));
    assert!(matches!(row_style(1, 2, true, true), RowStyle::Directory));
    assert!(matches!(row_style(1, 2, true, false), RowStyle::Plain));
}

#[test]
fn picker_highlight() {
    assert!(picker_row_highlighted(3, 0, 3));
    assert!(picker_row_highlighted(3, 2, 5));
    assert!(!picker_row_highlighted(5, 2, 5));
    assert!(!picker_row_highlighted(6, 0, 5));
    assert!(!picker_row_highlighted(usize::MAX, usize::MAX, 0));
}

#[test]
fn monitor_timing() {
    assert!(!slow_refresh_due(1999));
    assert!(slow_refresh_due(2000));
    assert!(!redraw_due(49));
    assert!(redraw_due(50));
    assert!(redraw_due(u128::MAX));
}
