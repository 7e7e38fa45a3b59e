//! The state of the program, and what each message makes of it.

use vstd::prelude::*;
use vstd::string::StringExecFns;

use crate::calendar;
use crate::calendar::LocalTime;
use crate::calendar::format_time;
use crate::calendar::present_time;
use crate::clipboard::ClipboardContent;
use crate::history;
use crate::history::HistoryItem;
use crate::history::ItemView;
use crate::log;
use crate::log::rewrite_log;
use crate::picture;
use crate::picture::rgba_buffer;

verus! {

/// What happens to the program.
#[derive(Debug, PartialEq, Eq)]
pub enum Message {
    /// It is time to look at the inputs.
    Tick,
    /// The clipboard was looked at.
    ClipboardChecked(Result<ClipboardContent, String>),
    /// An item is to go to the clipboard: its content, and whether it is an image.
    CopyToClipboard(String, bool),
    /// The item at an index is to be shown in full, or no longer.
    ToggleExpand(usize),
    /// The item at an index is to be deleted.
    DeleteItem(usize),
    /// The item at an index is to become a favorite, or no longer.
    ToggleFavorite(usize),
    /// The window is to be shown or hidden.
    SetVisibility(bool),
    /// The window is to be shown if it is hidden, and hidden if it is shown.
    ToggleVisibility,
    /// The search text was changed.
    SearchChanged(String),
    /// The start with the system is to be switched on or off.
    ToggleAutoStart(bool),
    /// The number of days to show was changed.
    FilterChanged(i64),
    /// Only favorites are to be shown, or no longer.
    ToggleFavoriteFilter(bool),
    /// Only images are to be shown, or no longer.
    ToggleImageFilter(bool),
    /// Everything but the favorites is to be deleted.
    ClearHistory,
}

/// What the program is to do next.
#[derive(Debug, PartialEq, Eq)]
pub enum Effect {
    /// Take all presses of the hotkey that are waiting.
    PollHotkeys,
    /// Take the next event of the tray icon.
    PollTray,
    /// Take the next choice from the tray menu.
    PollMenu,
    /// Look at the clipboard.
    CheckClipboard,
    /// Handle a message.
    Send(Message),
    /// End the program.
    Quit,
    /// Show the window and bring it to the front, or hide it.
    ShowWindow(bool),
    /// Switch the start with the system on or off.
    SetAutoStart(bool),
    /// Write the log file anew.
    WriteLog(String),
    /// Remove a file from the captures.
    RemoveCapture(String),
    /// Make sure that there is a directory for the captures.
    CreateCapturesDir,
    /// Save an image to the captures, under a name, and tell whether that worked.
    SaveCapture { name: String, width: u32, height: u32, pixels: Vec<u8> },
    /// Put a text on the clipboard.
    CopyText(String),
    /// Put the image of a file of the captures on the clipboard.
    CopyImage(String),
}

/// The model of an [`Effect`].
pub enum EffectView {
    PollHotkeys,
    PollTray,
    PollMenu,
    CheckClipboard,
    Send(Message),
    Quit,
    ShowWindow(bool),
    SetAutoStart(bool),
    WriteLog(Seq<char>),
    RemoveCapture(Seq<char>),
    CreateCapturesDir,
    SaveCapture { name: Seq<char>, width: u32, height: u32, pixels: Seq<u8> },
    CopyText(Seq<char>),
    CopyImage(Seq<char>),
}

impl View for Effect {
    type V = EffectView;

    open spec fn view(&self) -> EffectView {
        match *self {
            Effect::PollHotkeys => EffectView::PollHotkeys,
            Effect::PollTray => EffectView::PollTray,
            Effect::PollMenu => EffectView::PollMenu,
            Effect::CheckClipboard => EffectView::CheckClipboard,
            Effect::Send(message) => EffectView::Send(message),
            Effect::Quit => EffectView::Quit,
            Effect::ShowWindow(show) => EffectView::ShowWindow(show),
            Effect::SetAutoStart(enable) => EffectView::SetAutoStart(enable),
            Effect::WriteLog(text) => EffectView::WriteLog(text@),
            Effect::RemoveCapture(name) => EffectView::RemoveCapture(name@),
            Effect::CreateCapturesDir => EffectView::CreateCapturesDir,
            Effect::SaveCapture { name, width, height, pixels } => EffectView::SaveCapture {
                name: name@,
                width,
                height,
                pixels: pixels@,
            },
            Effect::CopyText(text) => EffectView::CopyText(text@),
            Effect::CopyImage(name) => EffectView::CopyImage(name@),
        }
    }
}

/// The models of a list of effects.
pub open spec fn effects(list: Seq<Effect>) -> Seq<EffectView> {
    list.map_values(|e: Effect| e@)
}

/// The state of the program. Its times are nanoseconds on a clock that never goes
/// back.
#[derive(Debug, PartialEq, Eq)]
pub struct AppState {
    /// The text that was last seen on the clipboard.
    pub last_text: String,
    /// The pixels of the image that was last seen on the clipboard.
    pub last_image_hash: Vec<u8>,
    /// What was on the clipboard, oldest first.
    pub history: Vec<HistoryItem>,
    /// Whether the window is shown.
    pub is_visible: bool,
    /// When the hotkey last took effect.
    pub last_toggle_time: u128,
    /// When the clipboard was last looked at.
    pub last_clip_check: Option<u128>,
    /// The search text.
    pub search_query: String,
    /// Whether the program starts with the system.
    pub auto_start: bool,
    /// Of how many days items are shown; of all, if there is not even one.
    pub days_filter: i64,
    /// Whether only favorites are shown.
    pub only_favorites: bool,
    /// Whether only images are shown.
    pub only_images: bool,
}

/// The model of an [`AppState`].
#[verifier::ext_equal]
pub struct StateView {
    pub last_text: Seq<char>,
    pub last_image_hash: Seq<u8>,
    pub history: Seq<ItemView>,
    pub is_visible: bool,
    pub last_toggle_time: int,
    pub last_clip_check: Option<int>,
    pub search_query: Seq<char>,
    pub auto_start: bool,
    pub days_filter: int,
    pub only_favorites: bool,
    pub only_images: bool,
}

impl View for AppState {
    type V = StateView;

    open spec fn view(&self) -> StateView {
        StateView {
            last_text: self.last_text@,
            last_image_hash: self.last_image_hash@,
            history: history::items(self.history@),
            is_visible: self.is_visible,
            last_toggle_time: self.last_toggle_time as int,
            last_clip_check: match self.last_clip_check {
                Some(time) => Some(time as int),
                None => None,
            },
            search_query: self.search_query@,
            auto_start: self.auto_start,
            days_filter: self.days_filter as int,
            only_favorites: self.only_favorites,
            only_images: self.only_images,
        }
    }
}

impl StateView {
    /// Every item of the history has a time that exists.
    pub open spec fn wf(self) -> bool {
        history::all_wf(self.history)
    }
}

/// The effect of writing the log of a history.
pub open spec fn write_log(history: Seq<ItemView>) -> EffectView {
    EffectView::WriteLog(log::log_text(history))
}

/// The history holds `text` as a text.
pub open spec fn has_text(history: Seq<ItemView>, text: Seq<char>) -> bool {
    exists|i: int|
        0 <= i < history.len() && !(#[trigger] history[i]).is_image && history[i].content == text
}

/// The file name of an image that is seen at `now`.
pub open spec fn capture_name(now: LocalTime) -> Seq<char> {
    "img_"@ + calendar::formatted("%Y%m%d_%H%M%S"@, 0, now.civil) + ".png"@
}

/// An item that was just seen.
pub open spec fn fresh(content: Seq<char>, is_image: bool, now: LocalTime) -> ItemView {
    ItemView {
        datetime: now,
        content,
        is_image,
        has_preview: is_image,
        expanded: false,
        is_favorite: false,
    }
}

/// What a text on the clipboard does: one that is not empty and was not just there
/// becomes the last one, and enters the history unless the history holds it.
pub open spec fn text_seen(s: StateView, text: Seq<char>, now: LocalTime) -> (
    StateView,
    Seq<EffectView>,
) {
    if text.len() == 0 || text == s.last_text {
        (s, Seq::empty())
    } else if has_text(s.history, text) {
        (StateView { last_text: text, ..s }, Seq::empty())
    } else {
        let h = s.history.push(fresh(text, false, now));
        (StateView { last_text: text, history: h, ..s }, seq![write_log(h)])
    }
}

/// What an image on the clipboard does: one that was not just there becomes the last
/// one, and is saved if it has pixels enough for its size.
pub open spec fn image_seen(
    s: StateView,
    pixels: Seq<u8>,
    width: u32,
    height: u32,
    now: LocalTime,
) -> (StateView, Seq<EffectView>) {
    if pixels == s.last_image_hash {
        (s, Seq::empty())
    } else {
        (
            StateView { last_image_hash: pixels, ..s },
            if picture::is_enough(width, height, pixels.len()) {
                seq![
                    EffectView::CreateCapturesDir,
                    EffectView::SaveCapture { name: capture_name(now), width, height, pixels },
                ]
            } else {
                seq![EffectView::CreateCapturesDir]
            },
        )
    }
}

/// The history without all but the favorites.
pub open spec fn favorites(history: Seq<ItemView>) -> Seq<ItemView> {
    history.filter(|i: ItemView| i.is_favorite)
}

/// The images of the history that are no favorites.
pub open spec fn discarded_images(history: Seq<ItemView>) -> Seq<ItemView> {
    history.filter(|i: ItemView| !i.is_favorite && i.is_image)
}

/// The effects of removing the files of images.
pub open spec fn removals(images: Seq<ItemView>) -> Seq<EffectView> {
    images.map_values(|i: ItemView| EffectView::RemoveCapture(i.content))
}

/// What a message makes of the state, and what it asks to be done.
pub open spec fn updated(s: StateView, message: Message, now: LocalTime) -> (
    StateView,
    Seq<EffectView>,
) {
    match message {
        Message::Tick => (s, seq![EffectView::PollHotkeys]),
        Message::ToggleVisibility => (
            s,
            seq![EffectView::Send(Message::SetVisibility(!s.is_visible))],
        ),
        Message::SetVisibility(show) => (
            StateView { is_visible: show, ..s },
            seq![EffectView::ShowWindow(show)],
        ),
        Message::SearchChanged(query) => (StateView { search_query: query@, ..s }, Seq::empty()),
        Message::FilterChanged(days) => (
            StateView { days_filter: days as int, ..s },
            Seq::empty(),
        ),
        Message::ToggleFavoriteFilter(only) => (
            StateView { only_favorites: only, ..s },
            Seq::empty(),
        ),
        Message::ToggleImageFilter(only) => (StateView { only_images: only, ..s }, Seq::empty()),
        Message::ToggleAutoStart(enable) => (
            StateView { auto_start: enable, ..s },
            seq![EffectView::SetAutoStart(enable)],
        ),
        Message::ToggleExpand(index) => if index < s.history.len() {
            let item = s.history[index as int];
            let h = s.history.update(
                index as int,
                ItemView { expanded: !item.expanded, ..item },
            );
            (StateView { history: h, ..s }, Seq::empty())
        } else {
            (s, Seq::empty())
        },
        Message::ToggleFavorite(index) => if index < s.history.len() {
            let item = s.history[index as int];
            let h = s.history.update(
                index as int,
                ItemView { is_favorite: !item.is_favorite, ..item },
            );
            (StateView { history: h, ..s }, seq![write_log(h)])
        } else {
            (s, Seq::empty())
        },
        Message::DeleteItem(index) => {
            let item = s.history[index as int];
            let h = s.history.remove(index as int);
            (
                StateView { history: h, ..s },
                if item.is_image {
                    seq![EffectView::RemoveCapture(item.content), write_log(h)]
                } else {
                    seq![write_log(h)]
                },
            )
        },
        Message::ClearHistory => {
            let h = favorites(s.history);
            (
                StateView { history: h, ..s },
                removals(discarded_images(s.history)).push(write_log(h)),
            )
        },
        Message::ClipboardChecked(result) => match result {
            Ok(ClipboardContent::Text(text)) => text_seen(s, text@, now),
            Ok(ClipboardContent::Image(pixels, width, height)) => image_seen(
                s,
                pixels@,
                width,
                height,
                now,
            ),
            _ => (s, Seq::empty()),
        },
        Message::CopyToClipboard(content, is_image) => (
            s,
            if is_image {
                seq![EffectView::CopyImage(content@)]
            } else {
                seq![EffectView::CopyText(content@)]
            },
        ),
    }
}

/// What the end of saving an image makes of the state.
pub open spec fn after_capture(s: StateView, name: Seq<char>, saved: bool, now: LocalTime) -> (
    StateView,
    Seq<EffectView>,
) {
    if saved {
        let h = s.history.push(fresh(name, true, now));
        (StateView { history: h, ..s }, seq![write_log(h)])
    } else {
        (s, Seq::empty())
    }
}

/// The message can be handled: what is to be deleted is there.
pub open spec fn is_possible(s: StateView, message: Message) -> bool {
    message matches Message::DeleteItem(index) ==> index < s.history.len()
}

/// The file name of an image that is seen at `now`.
fn capture_file_name(now: &LocalTime) -> (name: String)
    requires
        now.wf(),
    ensures
        name@ == capture_name(*now),
{
    proof {
        calendar::lemma_plain_formats();
    }
    let mut name = String::new();
    name.append("img_");
    name.append(format_time(&now.civil, "%Y%m%d_%H%M%S").as_str());
    name.append(".png");
    name
}

/// Whether `history` holds `text` as a text.
fn contains_text_item(history: &Vec<HistoryItem>, text: &String) -> (r: bool)
    ensures
        r == has_text(history::items(history@), text@),
{
    let ghost h = history::items(history@);
    for i in 0..history.len()
        invariant
            h == history::items(history@),
            forall|j: int| 0 <= j < i ==> (#[trigger] h[j]).is_image || h[j].content != text@,
    {
        let item = &history[i];
        assert(h[i as int] == item@);
        if !item.is_image && item.content == *text {
            return true;
        }
    }
    false
}

impl AppState {
    /// The state at the start: `text` and `pixels` are what is on the clipboard, if
    /// anything is, and `clock` is the time on the clock.
    pub fn new(
        text: Option<String>,
        pixels: Option<Vec<u8>>,
        history: Vec<HistoryItem>,
        auto_start: bool,
        clock: u128,
    ) -> (state: AppState)
        ensures
            state@ == (StateView {
                last_text: match text {
                    Some(t) => t@,
                    None => Seq::empty(),
                },
                last_image_hash: match pixels {
                    Some(p) => p@,
                    None => Seq::empty(),
                },
                history: history::items(history@),
                is_visible: false,
                last_toggle_time: clock as int,
                last_clip_check: None,
                search_query: Seq::empty(),
                auto_start,
                days_filter: 0,
                only_favorites: false,
                only_images: false,
            }),
    {
        AppState {
            last_text: match text {
                Some(t) => t,
                None => String::new(),
            },
            last_image_hash: match pixels {
                Some(p) => p,
                None => Vec::new(),
            },
            history,
            is_visible: false,
            last_toggle_time: clock,
            last_clip_check: None,
            search_query: String::new(),
            auto_start,
            days_filter: 0,
            only_favorites: false,
            only_images: false,
        }
    }

    /// Handles a text that is on the clipboard at `now`.
    fn see_text(&mut self, text: String, now: LocalTime) -> (todo: Vec<Effect>)
        requires
            old(self)@.wf(),
            now.wf(),
        ensures
            final(self)@.wf(),
            (final(self)@, effects(todo@)) == text_seen(old(self)@, text@, now),
    {
        let mut todo: Vec<Effect> = Vec::new();
        let ghost h = self@.history;
        if !text.as_str().is_empty() && text != self.last_text {
            self.last_text = text.clone();
            if !contains_text_item(&self.history, &text) {
                self.history.push(
                    HistoryItem {
                        datetime: now,
                        content: text,
                        is_image: false,
                        has_preview: false,
                        expanded: false,
                        is_favorite: false,
                    },
                );
                assert(self@.history == h.push(fresh(text@, false, now)));
                todo.push(Effect::WriteLog(rewrite_log(&self.history)));
            }
        }
        todo
    }

    /// Handles an image that is on the clipboard at `now`.
    fn see_image(&mut self, pixels: Vec<u8>, width: u32, height: u32, now: LocalTime) -> (todo: Vec<
        Effect,
    >)
        requires
            old(self)@.wf(),
            now.wf(),
        ensures
            final(self)@.wf(),
            (final(self)@, effects(todo@)) == image_seen(old(self)@, pixels@, width, height, now),
    {
        let mut todo: Vec<Effect> = Vec::new();
        if !(pixels == self.last_image_hash) {
            self.last_image_hash = pixels.clone();
            todo.push(Effect::CreateCapturesDir);
            if let Some(pixels) = rgba_buffer(width, height, pixels) {
                let name = capture_file_name(&now);
                todo.push(Effect::SaveCapture { name, width, height, pixels });
            }
        }
        todo
    }

    /// Handles the end of saving an image under `name`; `saved` tells whether it
    /// worked, and `now` is the time.
    pub fn capture_saved_at(&mut self, name: String, saved: bool, now: LocalTime) -> (todo: Vec<
        Effect,
    >)
        requires
            old(self)@.wf(),
            now.wf(),
        ensures
            final(self)@.wf(),
            (final(self)@, effects(todo@)) == after_capture(old(self)@, name@, saved, now),
    {
        let mut todo: Vec<Effect> = Vec::new();
        let ghost h = self@.history;
        if saved {
            self.history.push(
                HistoryItem {
                    datetime: now,
                    content: name,
                    is_image: true,
                    has_preview: true,
                    expanded: false,
                    is_favorite: false,
                },
            );
            assert(self@.history == h.push(fresh(name@, true, now)));
            todo.push(Effect::WriteLog(rewrite_log(&self.history)));
        }
        todo
    }

    /// Handles the end of saving an image under `name`, now.
    pub fn capture_saved(&mut self, name: String, saved: bool) -> (todo: Vec<Effect>)
        requires
            old(self)@.wf(),
        ensures
            final(self)@.wf(),
            exists|now: LocalTime|
                calendar::is_present(now) && now.wf() && (final(self)@, effects(todo@))
                    == #[trigger] after_capture(old(self)@, name@, saved, now),
    {
        let now = present_time();
        self.capture_saved_at(name, saved, now)
    }

    /// Deletes everything but the favorites.
    fn clear_history(&mut self) -> (todo: Vec<Effect>)
        requires
            old(self)@.wf(),
        ensures
            final(self)@.wf(),
            final(self)@ == (StateView { history: favorites(old(self)@.history), ..old(self)@ }),
            effects(todo@) == removals(discarded_images(old(self)@.history)).push(
                write_log(favorites(old(self)@.history)),
            ),
    {
        let ghost h = self@.history;
        let ghost keep = |i: ItemView| i.is_favorite;
        let ghost drop = |i: ItemView| !i.is_favorite && i.is_image;
        let mut todo: Vec<Effect> = Vec::new();
        let mut kept: Vec<HistoryItem> = Vec::new();
        let mut all: Vec<HistoryItem> = Vec::new();
        std::mem::swap(&mut all, &mut self.history);
        let ghost list = all@;
        assert(h.take(0).filter(keep) == Seq::<ItemView>::empty());
        assert(h.take(0).filter(drop) == Seq::<ItemView>::empty());
        for item in it: all
            invariant
                it.seq() == list,
                h == history::items(list),
                keep == (|i: ItemView| i.is_favorite),
                drop == (|i: ItemView| !i.is_favorite && i.is_image),
                history::items(kept@) == h.take(it.index()).filter(keep),
                effects(todo@) == removals(h.take(it.index()).filter(drop)),
        {
            let ghost k = it.index();
            let ghost before = history::items(kept@);
            let ghost done = effects(todo@);
            proof {
                assert(h[k] == item@);
                assert(h.take(k + 1) == h.take(k).push(h[k]));
                h.take(k).lemma_filter_push(h[k], keep);
                h.take(k).lemma_filter_push(h[k], drop);
            }
            if item.is_favorite {
                kept.push(item);
                assert(history::items(kept@) == before.push(item@));
            } else if item.is_image {
                todo.push(Effect::RemoveCapture(item.content));
                assert(effects(todo@) == done.push(EffectView::RemoveCapture(item@.content)));
                assert(removals(h.take(k).filter(drop).push(h[k])) == removals(
                    h.take(k).filter(drop),
                ).push(EffectView::RemoveCapture(item@.content)));
            }
        }
        assert(h.take(h.len() as int) == h);
        self.history = kept;
        let ghost done = effects(todo@);
        proof {
            lemma_filter_wf(h, keep);
        }
        todo.push(Effect::WriteLog(rewrite_log(&self.history)));
        assert(effects(todo@) == done.push(write_log(favorites(h))));
        todo
    }
}

impl AppState {
    /// Shows the item at `index` in full, or no longer.
    fn toggle_expand(&mut self, index: usize)
        requires
            old(self)@.wf(),
            index < old(self)@.history.len(),
        ensures
            final(self)@.wf(),
            final(self)@ == (StateView {
                history: old(self)@.history.update(
                    index as int,
                    ItemView {
                        expanded: !old(self)@.history[index as int].expanded,
                        ..old(self)@.history[index as int]
                    },
                ),
                ..old(self)@
            }),
    {
        let ghost h = self@.history;
        let expanded: bool = !self.history[index].expanded;
        self.history[index].expanded = expanded;
        assert(self@.history == h.update(index as int, ItemView { expanded, ..h[index as int] }));
    }

    /// Makes the item at `index` a favorite, or no longer.
    fn toggle_favorite(&mut self, index: usize) -> (todo: Vec<Effect>)
        requires
            old(self)@.wf(),
            index < old(self)@.history.len(),
        ensures
            final(self)@.wf(),
            final(self)@ == (StateView {
                history: old(self)@.history.update(
                    index as int,
                    ItemView {
                        is_favorite: !old(self)@.history[index as int].is_favorite,
                        ..old(self)@.history[index as int]
                    },
                ),
                ..old(self)@
            }),
            effects(todo@) == seq![write_log(final(self)@.history)],
    {
        let ghost h = self@.history;
        let is_favorite: bool = !self.history[index].is_favorite;
        self.history[index].is_favorite = is_favorite;
        assert(self@.history == h.update(
            index as int,
            ItemView { is_favorite, ..h[index as int] },
        ));
        let mut todo: Vec<Effect> = Vec::new();
        todo.push(Effect::WriteLog(rewrite_log(&self.history)));
        todo
    }

    /// Deletes the item at `index`.
    fn delete_item(&mut self, index: usize) -> (todo: Vec<Effect>)
        requires
            old(self)@.wf(),
            index < old(self)@.history.len(),
        ensures
            final(self)@.wf(),
            final(self)@ == (StateView {
                history: old(self)@.history.remove(index as int),
                ..old(self)@
            }),
            effects(todo@) == if old(self)@.history[index as int].is_image {
                seq![
                    EffectView::RemoveCapture(old(self)@.history[index as int].content),
                    write_log(final(self)@.history),
                ]
            } else {
                seq![write_log(final(self)@.history)]
            },
    {
        let ghost h = self@.history;
        let mut todo: Vec<Effect> = Vec::new();
        let item = self.history.remove(index);
        assert(self@.history == h.remove(index as int));
        assert(h[index as int] == item@);
        if item.is_image {
            todo.push(Effect::RemoveCapture(item.content));
        }
        todo.push(Effect::WriteLog(rewrite_log(&self.history)));
        todo
    }

    /// Handles `message` at the time `now`, and tells what is to be done.
    pub fn update_at(&mut self, message: Message, now: LocalTime) -> (todo: Vec<Effect>)
        requires
            old(self)@.wf(),
            now.wf(),
            is_possible(old(self)@, message),
        ensures
            final(self)@.wf(),
            (final(self)@, effects(todo@)) == updated(old(self)@, message, now),
    {
        let mut todo: Vec<Effect> = Vec::new();
        match message {
            Message::Tick => todo.push(Effect::PollHotkeys),
            Message::ToggleVisibility => {
                let show: bool = !self.is_visible;
                todo.push(Effect::Send(Message::SetVisibility(show)));
            },
            Message::SetVisibility(show) => {
                self.is_visible = show;
                todo.push(Effect::ShowWindow(show));
            },
            Message::SearchChanged(query) => self.search_query = query,
            Message::FilterChanged(days) => self.days_filter = days,
            Message::ToggleFavoriteFilter(only) => self.only_favorites = only,
            Message::ToggleImageFilter(only) => self.only_images = only,
            Message::ToggleAutoStart(enable) => {
                self.auto_start = enable;
                todo.push(Effect::SetAutoStart(enable));
            },
            Message::ToggleExpand(index) => {
                if index < self.history.len() {
                    self.toggle_expand(index);
                }
            },
            Message::ToggleFavorite(index) => {
                if index < self.history.len() {
                    todo = self.toggle_favorite(index);
                }
            },
            Message::DeleteItem(index) => todo = self.delete_item(index),
            Message::ClearHistory => todo = self.clear_history(),
            Message::ClipboardChecked(result) => match result {
                Ok(ClipboardContent::Text(text)) => todo = self.see_text(text, now),
                Ok(ClipboardContent::Image(pixels, width, height)) => {
                    todo = self.see_image(pixels, width, height, now);
                },
                _ => {},
            },
            Message::CopyToClipboard(content, is_image) => {
                if is_image {
                    todo.push(Effect::CopyImage(content));
                } else {
                    todo.push(Effect::CopyText(content));
                }
            },
        }
        todo
    }

    /// Handles `message`, and tells what is to be done. The clock of the machine gives
    /// the time.
    pub fn update(&mut self, message: Message) -> (todo: Vec<Effect>)
        requires
            old(self)@.wf(),
            is_possible(old(self)@, message),
        ensures
            final(self)@.wf(),
            exists|now: LocalTime|
                calendar::is_present(now) && now.wf() && (final(self)@, effects(todo@))
                    == #[trigger] updated(old(self)@, message, now),
    {
        let now = present_time();
        self.update_at(message, now)
    }
}

/// What is left of a sound history is sound.
pub proof fn lemma_filter_wf(history: Seq<ItemView>, keep: spec_fn(ItemView) -> bool)
    requires
        history::all_wf(history),
    ensures
        history::all_wf(history.filter(keep)),
{
    let left = history.filter(keep);
    assert forall|i: int| 0 <= i < left.len() implies (#[trigger] left[i]).datetime.wf() by {
        assert(left.contains(left[i]));
        history.lemma_filter_contains_rev(keep, left[i]);
        let j = choose|j: int| 0 <= j < history.len() && history[j] == left[i];
        assert(history[j].datetime.wf());
    }
}

/// The models of effects and of the state hold all of them.
pub proof fn law_state_models(list: Seq<Effect>, state: AppState)
    ensures
        effects(list).len() == list.len(),
        forall|i: int|
            #![trigger list[i]]
            0 <= i < list.len() ==> effects(list)[i] == (match list[i] {
                Effect::PollHotkeys => EffectView::PollHotkeys,
                Effect::PollTray => EffectView::PollTray,
                Effect::PollMenu => EffectView::PollMenu,
                Effect::CheckClipboard => EffectView::CheckClipboard,
                Effect::Send(message) => EffectView::Send(message),
                Effect::Quit => EffectView::Quit,
                Effect::ShowWindow(show) => EffectView::ShowWindow(show),
                Effect::SetAutoStart(enable) => EffectView::SetAutoStart(enable),
                Effect::WriteLog(text) => EffectView::WriteLog(text@),
                Effect::RemoveCapture(name) => EffectView::RemoveCapture(name@),
                Effect::CreateCapturesDir => EffectView::CreateCapturesDir,
                Effect::SaveCapture { name, width, height, pixels } => EffectView::SaveCapture {
                    name: name@,
                    width,
                    height,
                    pixels: pixels@,
                },
                Effect::CopyText(text) => EffectView::CopyText(text@),
                Effect::CopyImage(name) => EffectView::CopyImage(name@),
            }),
        state@.last_text == state.last_text@ && state@.last_image_hash == state.last_image_hash@,
        state@.search_query == state.search_query@ && state@.days_filter == state.days_filter,
        state@.is_visible == state.is_visible && state@.auto_start == state.auto_start,
        state@.only_favorites == state.only_favorites && state@.only_images == state.only_images,
        state@.last_toggle_time == state.last_toggle_time,
        state@.last_clip_check is None <==> state.last_clip_check is None,
        state.last_clip_check matches Some(t) ==> state@.last_clip_check == Some(t as int),
        state@.history.len() == state.history@.len(),
        forall|i: int|
            0 <= i < state.history@.len() ==> #[trigger] state@.history[i] == state.history@[i]@,
{
}

} // verus!
