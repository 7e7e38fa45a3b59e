use mega_clipboard::state::{AppState, Effect, Message};
use mega_clipboard::ticker::{
    MouseButton, TickInput, TrayEvent, CLIPBOARD_PAUSE, TICK_MILLIS, TOGGLE_PAUSE,
};

fn sample() -> AppState {
    AppState::new(None, None, Vec::new(), false, 1_000)
}

#[test]
fn pauses() {
    assert_eq!(TICK_MILLIS, 30);
    assert_eq!(TOGGLE_PAUSE, 300_000_000);
    assert_eq!(CLIPBOARD_PAUSE, 500_000_000);
}

#[test]
fn hotkey_toggles_after_a_pause() {
    let mut state = sample();
    assert_eq!(
        state.tick(TickInput::Hotkeys(true), 1_000 + TOGGLE_PAUSE),
        Some(Effect::PollTray)
    );
    assert_eq!(state.last_toggle_time, 1_000);
    assert_eq!(
        state.tick(TickInput::Hotkeys(true), 1_001 + TOGGLE_PAUSE),
        Some(Effect::Send(Message::ToggleVisibility))
    );
    assert_eq!(state.last_toggle_time, 1_001 + TOGGLE_PAUSE);
    assert_eq!(
        state.tick(TickInput::Hotkeys(true), 1_002 + TOGGLE_PAUSE),
        Some(Effect::PollTray)
    );
    assert_eq!(state.tick(TickInput::Hotkeys(false), u128::MAX), Some(Effect::PollTray));
    assert_eq!(state.tick(TickInput::Hotkeys(true), 0), Some(Effect::PollTray));
}

#[test]
fn left_click_shows_the_window() {
    let mut state = sample();
    let left = TickInput::Tray(Some(TrayEvent::Click(MouseButton::Left)));
    assert_eq!(state.tick(left, 0), Some(Effect::Send(Message::SetVisibility(true))));
    for event in [
        TrayEvent::Click(MouseButton::Right),
        TrayEvent::Click(MouseButton::Middle),
        TrayEvent::Other,
    ] {
        assert_eq!(state.tick(TickInput::Tray(Some(event)), 0), Some(Effect::PollTray));
    }
    assert_eq!(state.tick(TickInput::Tray(None), 0), Some(Effect::PollMenu));
    assert_eq!(state, sample());
}

#[test]
fn menu_choices() {
    let mut state = sample();
    let choice = |id: &str| TickInput::Menu(Some(id.to_string()));
    assert_eq!(state.tick(choice("open"), 0), Some(Effect::Send(Message::SetVisibility(true))));
    assert_eq!(state.tick(choice("quit"), 0), Some(Effect::Quit));
    assert_eq!(state.tick(choice("other"), 0), Some(Effect::PollMenu));
    assert_eq!(state.tick(choice(""), 0), Some(Effect::PollMenu));
    assert_eq!(state, sample());
}

#[test]
fn clipboard_is_checked_after_a_pause() {
    let mut state = sample();
    assert_eq!(state.tick(TickInput::Menu(None), 5), Some(Effect::CheckClipboard));
    assert_eq!(state.last_clip_check, Some(5));
    assert_eq!(state.tick(TickInput::Menu(None), 5 + CLIPBOARD_PAUSE), None);
    assert_eq!(
        state.tick(TickInput::Menu(None), 6 + CLIPBOARD_PAUSE),
        Some(Effect::CheckClipboard)
    );
    assert_eq!(state.last_clip_check, Some(6 + CLIPBOARD_PAUSE));
}
