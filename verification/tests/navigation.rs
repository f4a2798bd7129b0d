use shortcut_keeper::app::App;
use shortcut_keeper::app_state::AppState;
use shortcut_keeper::screen::KeyCode;
use shortcut_keeper::screen::KeyEvent;
use shortcut_keeper::screen::KeyEventKind;
use shortcut_keeper::screen::Screen;
use shortcut_keeper::screen::ScreenCommand;
use shortcut_keeper::screens::add_screen::AddShortcutScreen;
use shortcut_keeper::screens::add_screen::FocusedWidget;
use shortcut_keeper::screens::main_screen::MainScreen;
use shortcut_keeper::shortcuts::Shortcuts;

fn press(code: KeyCode) -> KeyEvent {
    KeyEvent { code, kind: KeyEventKind::Press }
}

fn fresh_app() -> App {
    App::new(AppState::new(Shortcuts::new()))
}

#[test]
fn app_starts_on_one_main_screen() {
    let app = fresh_app();
    assert_eq!(app.screens.len(), 1);
    assert!(matches!(app.screens[0], Screen::Main(_)));
}

#[test]
fn releases_are_discarded_before_dispatch() {
    assert!(App::should_dispatch(press(KeyCode::Char('q'))));
    assert!(App::should_dispatch(KeyEvent { code: KeyCode::Esc, kind: KeyEventKind::Repeat }));
    assert!(!App::should_dispatch(KeyEvent {
        code: KeyCode::Char('q'),
        kind: KeyEventKind::Release
    }));
}

#[test]
fn main_screen_quits_on_q_and_esc() {
    let mut state = AppState::new(Shortcuts::new());
    let mut screen = MainScreen::new();
    assert!(matches!(screen.handle_event(press(KeyCode::Char('q')), &mut state), ScreenCommand::Quit(true)));
    assert!(matches!(screen.handle_event(press(KeyCode::Esc), &mut state), ScreenCommand::Quit(true)));
    assert!(matches!(screen.handle_event(press(KeyCode::Char('x')), &mut state), ScreenCommand::Stay));
}

#[test]
fn main_screen_pushes_add_screen_on_n() {
    let mut state = AppState::new(Shortcuts::new());
    let mut screen = MainScreen::new();
    match screen.handle_event(press(KeyCode::Char('n')), &mut state) {
        ScreenCommand::Push(Screen::AddShortcut(add)) => {
            assert_eq!(add.get_shortcut_input().get_value(), "Shortcut");
            assert_eq!(add.get_description_input().get_value(), "Description");
            assert_eq!(*add.get_focused_widget(), Some(FocusedWidget::ShortcutInput));
        }
        _ => panic!("expected a push of the add screen"),
    }
}

#[test]
fn add_screen_tab_cycles_focus_and_esc_drops_it() {
    let mut state = AppState::new(Shortcuts::new());
    let mut screen = AddShortcutScreen::new();
    assert_eq!(*screen.get_focused_widget(), Some(FocusedWidget::ShortcutInput));
    assert!(matches!(screen.handle_event(press(KeyCode::Tab), &mut state), ScreenCommand::Stay));
    assert_eq!(*screen.get_focused_widget(), Some(FocusedWidget::DescriptionInput));
    assert!(matches!(screen.handle_event(press(KeyCode::Tab), &mut state), ScreenCommand::Stay));
    assert_eq!(*screen.get_focused_widget(), Some(FocusedWidget::ShortcutInput));
    assert!(matches!(screen.handle_event(press(KeyCode::Esc), &mut state), ScreenCommand::Stay));
    assert_eq!(*screen.get_focused_widget(), None);
    assert!(matches!(screen.handle_event(press(KeyCode::Tab), &mut state), ScreenCommand::Stay));
    assert_eq!(*screen.get_focused_widget(), Some(FocusedWidget::ShortcutInput));
}

#[test]
fn add_screen_q_closes_only_without_focus() {
    let mut state = AppState::new(Shortcuts::new());
    let mut screen = AddShortcutScreen::new();
    // Focused: 'q' is ordinary input, the screen stays.
    assert!(matches!(screen.handle_event(press(KeyCode::Char('q')), &mut state), ScreenCommand::Stay));
    // Unfocused: 'q' closes.
    screen.handle_event(press(KeyCode::Esc), &mut state);
    assert!(matches!(screen.handle_event(press(KeyCode::Char('q')), &mut state), ScreenCommand::Close));
}

#[test]
fn close_from_single_screen_terminates() {
    let mut app = fresh_app();
    let running = app.apply_command(ScreenCommand::Close);
    assert!(!running);
    assert_eq!(app.screens.len(), 0);
}

#[test]
fn push_then_repeated_close_unwinds_and_terminates() {
    let mut app = fresh_app();
    assert!(app.apply_command(ScreenCommand::Push(Screen::AddShortcut(AddShortcutScreen::new()))));
    assert_eq!(app.screens.len(), 2);
    assert!(app.apply_command(ScreenCommand::Close));
    assert_eq!(app.screens.len(), 1);
    assert!(!app.apply_command(ScreenCommand::Close));
    assert_eq!(app.screens.len(), 0);
}

#[test]
fn push_keeps_original_below_and_swap_replaces() {
    let mut app = fresh_app();
    assert!(app.apply_command(ScreenCommand::Push(Screen::AddShortcut(AddShortcutScreen::new()))));
    assert_eq!(app.screens.len(), 2);
    assert!(matches!(app.screens[0], Screen::Main(_)));
    assert!(matches!(app.screens[1], Screen::AddShortcut(_)));

    let mut other = fresh_app();
    assert!(other.apply_command(ScreenCommand::Swap(Screen::AddShortcut(AddShortcutScreen::new()))));
    assert_eq!(other.screens.len(), 1);
    assert!(matches!(other.screens[0], Screen::AddShortcut(_)));
}

#[test]
fn quit_clears_the_whole_stack() {
    let mut app = fresh_app();
    assert!(app.apply_command(ScreenCommand::Push(Screen::AddShortcut(AddShortcutScreen::new()))));
    let running = app.apply_command(ScreenCommand::Quit(true));
    assert!(!running);
    assert_eq!(app.screens.len(), 0);
}

#[test]
fn stay_changes_nothing() {
    let mut app = fresh_app();
    assert!(app.apply_command(ScreenCommand::Stay));
    assert_eq!(app.screens.len(), 1);
}

#[test]
fn full_loop_scenario_through_handle_top() {
    let mut app = fresh_app();
    // Open the add screen from the main screen.
    let cmd = app.handle_top(press(KeyCode::Char('n')));
    assert!(app.apply_command(cmd));
    assert_eq!(app.screens.len(), 2);
    // Drop the focus, then close the add screen with 'q'.
    let cmd = app.handle_top(press(KeyCode::Esc));
    assert!(app.apply_command(cmd));
    let cmd = app.handle_top(press(KeyCode::Char('q')));
    assert!(app.apply_command(cmd));
    assert_eq!(app.screens.len(), 1);
    // Quit from the main screen.
    let cmd = app.handle_top(press(KeyCode::Char('q')));
    assert!(!app.apply_command(cmd));
    assert_eq!(app.screens.len(), 0);
}

#[test]
fn input_widget_holds_label_text_and_focus() {
    let mut input = shortcut_keeper::widgets::input::Input::new("Shortcut", "placeholder text");
    assert_eq!(input.get_value(), "Shortcut");
    assert_eq!(input.get_text(), "placeholder text");
    assert!(!input.get_focused());
    input.set_focused(true);
    assert!(input.get_focused());
    assert_eq!(input.get_value(), "Shortcut");
}

#[test]
fn main_screen_starts_on_first_row() {
    let screen = MainScreen::new();
    assert_eq!(screen.get_selected(), 0);
}

#[test]
fn app_state_starts_with_scratch_text() {
    let state = AppState::new(Shortcuts::new());
    assert_eq!(state.temp_text, "Hello world");
    assert_eq!(state.shortcuts.get_all_shortcuts().len(), 0);
}
