//! The inputs that are looked at again and again: the hotkey, the tray icon, its menu,
//! and the clipboard.

use vstd::prelude::*;

use crate::state::AppState;
use crate::state::Effect;
use crate::state::EffectView;
use crate::state::Message;
use crate::state::StateView;

verus! {

/// How many milliseconds pass from one tick to the next.
pub const TICK_MILLIS: u64 = 30;

/// The nanoseconds for which the hotkey has no effect after it had one.
pub const TOGGLE_PAUSE: u128 = 300_000_000;

/// The nanoseconds for which the clipboard is left alone after it was looked at.
pub const CLIPBOARD_PAUSE: u128 = 500_000_000;

/// A button of the mouse.
#[derive(Clone, Copy, Debug, PartialEq, Eq)]
pub enum MouseButton {
    Left,
    Right,
    Middle,
}

/// An event of the tray icon.
#[derive(Clone, Copy, Debug, PartialEq, Eq)]
pub enum TrayEvent {
    /// The icon was clicked.
    Click(MouseButton),
    /// Anything else.
    Other,
}

/// What an input gave.
#[derive(Debug, PartialEq, Eq)]
pub enum TickInput {
    /// Whether the hotkey was pressed.
    Hotkeys(bool),
    /// The next event of the tray icon, if one was waiting.
    Tray(Option<TrayEvent>),
    /// The id of the next choice from the tray menu, if one was waiting.
    Menu(Option<String>),
}

/// What an input makes of the state at the time `clock`, and what is to be done next;
/// nothing, if the tick is over. The inputs come in turn, and the first that asks for
/// something ends the tick.
pub open spec fn ticked(s: StateView, input: TickInput, clock: int) -> (
    StateView,
    Option<EffectView>,
) {
    match input {
        TickInput::Hotkeys(pressed) => if pressed && clock - s.last_toggle_time > TOGGLE_PAUSE {
            (
                StateView { last_toggle_time: clock, ..s },
                Some(EffectView::Send(Message::ToggleVisibility)),
            )
        } else {
            (s, Some(EffectView::PollTray))
        },
        TickInput::Tray(Some(event)) => if event == TrayEvent::Click(MouseButton::Left) {
            (s, Some(EffectView::Send(Message::SetVisibility(true))))
        } else {
            (s, Some(EffectView::PollTray))
        },
        TickInput::Tray(None) => (s, Some(EffectView::PollMenu)),
        TickInput::Menu(Some(id)) => if id@ == "open"@ {
            (s, Some(EffectView::Send(Message::SetVisibility(true))))
        } else if id@ == "quit"@ {
            (s, Some(EffectView::Quit))
        } else {
            (s, Some(EffectView::PollMenu))
        },
        TickInput::Menu(None) => if s.last_clip_check matches Some(last) && clock - last
            <= CLIPBOARD_PAUSE {
            (s, None)
        } else {
            (
                StateView { last_clip_check: Some(clock), ..s },
                Some(EffectView::CheckClipboard),
            )
        },
    }
}

/// The model of an effect, if there is one.
pub open spec fn effect_model(e: Option<Effect>) -> Option<EffectView> {
    match e {
        Some(e) => Some(e@),
        None => None,
    }
}

impl AppState {
    /// Handles what an input gave at the time `clock`, and tells what is to be done
    /// next.
    pub fn tick(&mut self, input: TickInput, clock: u128) -> (next: Option<Effect>)
        ensures
            (final(self)@, effect_model(next)) == ticked(old(self)@, input, clock as int),
            old(self)@.wf() ==> final(self)@.wf(),
    {
        match input {
            TickInput::Hotkeys(pressed) => {
                if pressed && clock.saturating_sub(self.last_toggle_time) > TOGGLE_PAUSE {
                    self.last_toggle_time = clock;
                    Some(Effect::Send(Message::ToggleVisibility))
                } else {
                    Some(Effect::PollTray)
                }
            },
            TickInput::Tray(Some(event)) => match event {
                TrayEvent::Click(MouseButton::Left) => Some(
                    Effect::Send(Message::SetVisibility(true)),
                ),
                _ => Some(Effect::PollTray),
            },
            TickInput::Tray(None) => Some(Effect::PollMenu),
            TickInput::Menu(Some(id)) => {
                if id == "open".to_string() {
                    Some(Effect::Send(Message::SetVisibility(true)))
                } else if id == "quit".to_string() {
                    Some(Effect::Quit)
                } else {
                    Some(Effect::PollMenu)
                }
            },
            TickInput::Menu(None) => {
                let due = match self.last_clip_check {
                    Some(last) => clock.saturating_sub(last) > CLIPBOARD_PAUSE,
                    None => true,
                };
                if due {
                    self.last_clip_check = Some(clock);
                    Some(Effect::CheckClipboard)
                } else {
                    None
                }
            },
        }
    }
}

/// The model of an effect that may be there holds all of it.
pub proof fn law_effect_model(e: Effect)
    ensures
        effect_model(Some(e)) == Some(e@),
        effect_model(None) is None,
{
}

} // verus!
