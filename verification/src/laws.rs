//! What holds of the program as a whole: over several messages, and in every state that
//! it can come to.

use vstd::prelude::*;

use crate::calendar;
use crate::calendar::LocalTime;
use crate::clipboard::ClipboardContent;
use crate::history;
use crate::history::HistoryItem;
use crate::history::ItemView;
use crate::log;
use crate::log::LogEntry;
use crate::readback;
use crate::screen;
use crate::state;
use crate::state::AppState;
use crate::state::EffectView;
use crate::state::Message;
use crate::state::StateView;
use crate::text;
use crate::ticker;
use crate::ticker::MouseButton;
use crate::ticker::TickInput;
use crate::ticker::TrayEvent;

verus! {

/// Something that changes the state.
pub enum Event {
    /// A message is handled at a time.
    Handled(Message, LocalTime),
    /// An image was to be saved under a name; whether it was, and the time.
    Saved(Seq<char>, bool, LocalTime),
    /// An input gave something, at a time on the clock.
    Ticked(TickInput, int),
}

/// The event can happen in the state.
pub open spec fn can_happen(s: StateView, event: Event) -> bool {
    match event {
        Event::Handled(message, now) => now.wf() && state::is_possible(s, message),
        Event::Saved(_, _, now) => now.wf(),
        Event::Ticked(_, _) => true,
    }
}

/// What an event makes of the state.
pub open spec fn next(s: StateView, event: Event) -> StateView {
    match event {
        Event::Handled(message, now) => state::updated(s, message, now).0,
        Event::Saved(name, saved, now) => state::after_capture(s, name, saved, now).0,
        Event::Ticked(input, clock) => ticker::ticked(s, input, clock).0,
    }
}

/// What an event asks to be done.
pub open spec fn asked(s: StateView, event: Event) -> Seq<EffectView> {
    match event {
        Event::Handled(message, now) => state::updated(s, message, now).1,
        Event::Saved(name, saved, now) => state::after_capture(s, name, saved, now).1,
        Event::Ticked(input, clock) => match ticker::ticked(s, input, clock).1 {
            Some(effect) => seq![effect],
            None => Seq::empty(),
        },
    }
}

/// The state after events that follow one another.
pub open spec fn run(s: StateView, events: Seq<Event>) -> StateView
    decreases events.len(),
{
    if events.len() == 0 {
        s
    } else {
        next(run(s, events.drop_last()), events.last())
    }
}

/// Each of the events can happen in the state that those before it lead to.
pub open spec fn can_run(s: StateView, events: Seq<Event>) -> bool {
    forall|i: int|
        0 <= i < events.len() ==> can_happen(run(s, events.take(i)), #[trigger] events[i])
}

/// No two texts of the history are the same.
pub open spec fn texts_distinct(h: Seq<ItemView>) -> bool {
    forall|i: int, j: int|
        0 <= i < j < h.len() && !(#[trigger] h[i]).is_image && !(#[trigger] h[j]).is_image
            ==> h[i].content != h[j].content
}

/// What the log file holds after effects, if it held `file` before them.
pub open spec fn file_after(file: Seq<char>, todo: Seq<EffectView>) -> Seq<char>
    decreases todo.len(),
{
    if todo.len() == 0 {
        file
    } else {
        match todo.last() {
            EffectView::WriteLog(text) => text,
            _ => file_after(file, todo.drop_last()),
        }
    }
}

/// What is left of a history without doubled texts has none.
proof fn lemma_filter_distinct(h: Seq<ItemView>, keep: spec_fn(ItemView) -> bool)
    requires
        texts_distinct(h),
    ensures
        texts_distinct(h.filter(keep)),
    decreases h.len(),
{
    reveal(Seq::filter);
    if h.len() > 0 {
        let front = h.drop_last();
        assert(texts_distinct(front)) by {
            assert forall|i: int, j: int|
                0 <= i < j < front.len() && !(#[trigger] front[i]).is_image && !(
                #[trigger] front[j]).is_image implies front[i].content != front[j].content by {
                assert(front[i] == h[i] && front[j] == h[j]);
            }
        }
        lemma_filter_distinct(front, keep);
        let left = front.filter(keep);
        assert forall|i: int| 0 <= i < left.len() && !(#[trigger] left[i]).is_image
            && !h.last().is_image implies left[i].content != h.last().content by {
            assert(left.contains(left[i]));
            front.lemma_filter_contains_rev(keep, left[i]);
            let j = choose|j: int| 0 <= j < front.len() && front[j] == left[i];
            assert(h[j] == left[i]);
            assert(h[h.len() - 1] == h.last());
        }
    }
}

/// An event that can happen leaves a sound state sound, and texts that are all
/// different stay so.
#[verifier::spinoff_prover]
proof fn lemma_next(s: StateView, event: Event)
    requires
        s.wf(),
        can_happen(s, event),
    ensures
        next(s, event).wf(),
        texts_distinct(s.history) ==> texts_distinct(next(s, event).history),
{
    if let Event::Handled(message, now) = event {
        if let Message::ClearHistory = message {
            let keep = |i: ItemView| i.is_favorite;
            state::lemma_filter_wf(s.history, keep);
            if texts_distinct(s.history) {
                lemma_filter_distinct(s.history, keep);
            }
        }
    }
}

/// In every state that events lead to from a sound one, each item has a time that
/// exists, and no text is in the history twice if none was at the start.
pub proof fn law_invariant(s: StateView, events: Seq<Event>)
    requires
        s.wf(),
        can_run(s, events),
    ensures
        run(s, events).wf(),
        texts_distinct(s.history) ==> texts_distinct(run(s, events).history),
    decreases events.len(),
{
    if events.len() > 0 {
        let front = events.drop_last();
        assert(can_run(s, front)) by {
            assert forall|i: int| 0 <= i < front.len() implies can_happen(
                run(s, front.take(i)),
                #[trigger] front[i],
            ) by {
                assert(front[i] == events[i]);
                assert(front.take(i) == events.take(i));
            }
        }
        law_invariant(s, front);
        assert(front == events.take(events.len() - 1));
        assert(events.last() == events[events.len() - 1]);
        lemma_next(run(s, front), events.last());
    }
}

/// Two items of the same line leave the log as it is.
proof fn lemma_log_update(h: Seq<ItemView>, i: int, item: ItemView)
    requires
        0 <= i < h.len(),
        log::log_record(item) == log::log_record(h[i]),
    ensures
        log::log_text(h.update(i, item)) == log::log_text(h),
{
    let f = |item: ItemView| log::log_record(item);
    assert(h.update(i, item).map_values(f) == h.map_values(f));
}

/// The effects write no log.
spec fn writes_nothing(todo: Seq<EffectView>) -> bool {
    forall|i: int| 0 <= i < todo.len() ==> (#[trigger] todo[i]) !is WriteLog
}

/// The last of the effects writes the log of `h`, and no other writes one.
spec fn writes_at_last(todo: Seq<EffectView>, h: Seq<ItemView>) -> bool {
    &&& todo.len() > 0
    &&& todo.last() == state::write_log(h)
    &&& writes_nothing(todo.drop_last())
}

/// Effects that write no log leave the file as it is.
proof fn lemma_writes_nothing(file: Seq<char>, todo: Seq<EffectView>)
    requires
        writes_nothing(todo),
    ensures
        file_after(file, todo) == file,
    decreases todo.len(),
{
    if todo.len() > 0 {
        assert(todo[todo.len() - 1] !is WriteLog);
        assert forall|i: int| 0 <= i < todo.drop_last().len() implies (
        #[trigger] todo.drop_last()[i]) !is WriteLog by {
            assert(todo[i] !is WriteLog);
        }
        lemma_writes_nothing(file, todo.drop_last());
    }
}

/// An event either leaves the log as it is and writes none, or writes the new one.
#[verifier::spinoff_prover]
proof fn lemma_log_written(s: StateView, event: Event)
    requires
        can_happen(s, event),
    ensures
        ({
            let todo = asked(s, event);
            let h = next(s, event).history;
            ||| writes_nothing(todo) && log::log_text(h) == log::log_text(s.history)
            ||| writes_at_last(todo, h)
        }),
{
    let todo = asked(s, event);
    let h = next(s, event).history;
    match event {
        Event::Handled(message, _) => match message {
            Message::ToggleExpand(index) => {
                if index < s.history.len() {
                    lemma_log_update(s.history, index as int, h[index as int]);
                }
            },
            Message::ToggleFavorite(index) => {
                if index < s.history.len() {
                    assert(writes_at_last(todo, h));
                }
            },
            Message::DeleteItem(index) => {
                assert(writes_at_last(todo, h));
            },
            Message::ClearHistory => {
                let removed = state::removals(state::discarded_images(s.history));
                assert(todo.drop_last() == removed);
                assert(writes_at_last(todo, h));
            },
            Message::ClipboardChecked(Ok(ClipboardContent::Text(t))) => {
                if todo.len() > 0 {
                    assert(writes_at_last(todo, h));
                }
            },
            _ => {
                assert(writes_nothing(todo));
            },
        },
        Event::Saved(_, saved, _) => {
            if saved {
                assert(writes_at_last(todo, h));
            }
        },
        Event::Ticked(_, _) => {
            assert(writes_nothing(todo));
        },
    }
}

/// The log file keeps up with the history: if it holds the log of the history before an
/// event, and what the event asks for is done, it holds the log of the history
/// afterwards. And whatever it held before, what is written is that log.
pub proof fn law_log_keeps_up(s: StateView, event: Event, file: Seq<char>)
    requires
        can_happen(s, event),
    ensures
        file == log::log_text(s.history) ==> file_after(file, asked(s, event)) == log::log_text(
            next(s, event).history,
        ),
        forall|i: int|
            0 <= i < asked(s, event).len() && (#[trigger] asked(s, event)[i]) is WriteLog
                ==> asked(s, event)[i] == EffectView::WriteLog(
                log::log_text(next(s, event).history),
            ),
{
    let todo = asked(s, event);
    let h = next(s, event).history;
    lemma_log_written(s, event);
    if writes_at_last(todo, h) {
        assert forall|i: int| 0 <= i < todo.len() && (
        #[trigger] todo[i]) is WriteLog implies todo[i] == EffectView::WriteLog(
            log::log_text(h),
        ) by {
            if i < todo.len() - 1 {
                assert(todo.drop_last()[i] !is WriteLog);
            }
        }
    } else {
        lemma_writes_nothing(file, todo);
    }
}

/// A text or image that stays on the clipboard does nothing more: handling the same
/// look at the clipboard again changes nothing and asks for nothing, whatever the time.
pub proof fn law_clipboard_once(s: StateView, message: Message, first: LocalTime, second: LocalTime)
    requires
        message is ClipboardChecked,
    ensures
        state::updated(state::updated(s, message, first).0, message, second) == (
            state::updated(s, message, first).0,
            Seq::<EffectView>::empty(),
        ),
{
}

/// What was on the clipboard when it was last looked at, or at the start, does not
/// enter the history.
pub proof fn law_known_clipboard_ignored(s: StateView, content: ClipboardContent, now: LocalTime)
    requires
        match content {
            ClipboardContent::Text(t) => t@ == s.last_text,
            ClipboardContent::Image(pixels, _, _) => pixels@ == s.last_image_hash,
            ClipboardContent::Empty => true,
        },
    ensures
        state::updated(s, Message::ClipboardChecked(Ok(content)), now) == (
            s,
            Seq::<EffectView>::empty(),
        ),
{
}

/// A text that is not empty and not the last one is remembered. If the history holds a
/// text of just these characters, nothing else happens; if not, the text becomes the
/// newest item, whole, dated now and no favorite, and the log is written.
pub proof fn law_new_text_is_kept(s: StateView, t: String, now: LocalTime)
    requires
        t@.len() > 0,
        t@ != s.last_text,
    ensures
        ({
            let (after, todo) = state::updated(
                s,
                Message::ClipboardChecked(Ok(ClipboardContent::Text(t))),
                now,
            );
            if exists|i: int|
                0 <= i < s.history.len() && !(#[trigger] s.history[i]).is_image
                    && s.history[i].content == t@ {
                after == StateView { last_text: t@, ..s } && todo == Seq::<EffectView>::empty()
            } else {
                &&& after == StateView {
                    last_text: t@,
                    history: s.history.push(
                        ItemView {
                            datetime: now,
                            content: t@,
                            is_image: false,
                            has_preview: false,
                            expanded: false,
                            is_favorite: false,
                        },
                    ),
                    ..s
                }
                &&& todo == seq![EffectView::WriteLog(log::log_text(after.history))]
            }
        }),
{
}

/// An empty text, an empty clipboard and one that could not be read change nothing.
pub proof fn law_no_news(s: StateView, result: Result<ClipboardContent, String>, now: LocalTime)
    requires
        match result {
            Ok(ClipboardContent::Text(t)) => t@.len() == 0,
            Ok(ClipboardContent::Image(_, _, _)) => false,
            Ok(ClipboardContent::Empty) => true,
            Err(_) => true,
        },
    ensures
        state::updated(s, Message::ClipboardChecked(result), now) == (
            s,
            Seq::<EffectView>::empty(),
        ),
{
}

/// An image that differs from the last one, in its number of bytes or in any of them, is
/// remembered, and the directory of the captures is asked for. If its bytes are enough
/// for its size, it is then to be saved: just these bytes, in this size, under the name
/// of the time.
pub proof fn law_new_image_is_kept(
    s: StateView,
    pixels: Vec<u8>,
    width: u32,
    height: u32,
    now: LocalTime,
)
    requires
        pixels@.len() != s.last_image_hash.len() || exists|i: int|
            0 <= i < pixels@.len() && #[trigger] pixels@[i] != s.last_image_hash[i],
    ensures
        ({
            let (after, todo) = state::updated(
                s,
                Message::ClipboardChecked(Ok(ClipboardContent::Image(pixels, width, height))),
                now,
            );
            let t = now.civil;
            &&& after == StateView { last_image_hash: pixels@, ..s }
            &&& if 4 * width <= usize::MAX && 4 * width * height <= pixels@.len() {
                todo == seq![
                    EffectView::CreateCapturesDir,
                    EffectView::SaveCapture {
                        name: "img_"@ + (calendar::year_text(t.year as int) + text::zero_padded(
                            t.month as nat,
                            2,
                        ) + text::zero_padded(t.day as nat, 2) + seq!['_'] + text::zero_padded(
                            t.hour as nat,
                            2,
                        ) + text::zero_padded(t.minute as nat, 2) + text::zero_padded(
                            calendar::shown_second(t),
                            2,
                        )) + ".png"@,
                        width,
                        height,
                        pixels: pixels@,
                    },
                ]
            } else {
                todo == seq![EffectView::CreateCapturesDir]
            }
        }),
{
    calendar::law_formats(now.civil);
    assert(pixels@ != s.last_image_hash);
}

/// An image that was saved becomes the newest item, under its name, dated now, to be drawn
/// and no favorite, and the log is written; one that could not be saved changes nothing.
pub proof fn law_saved_image_is_kept(s: StateView, name: Seq<char>, now: LocalTime)
    ensures
        ({
            let (after, todo) = state::after_capture(s, name, true, now);
            &&& after == StateView {
                history: s.history.push(
                    ItemView {
                        datetime: now,
                        content: name,
                        is_image: true,
                        has_preview: true,
                        expanded: false,
                        is_favorite: false,
                    },
                ),
                ..s
            }
            &&& todo == seq![EffectView::WriteLog(log::log_text(after.history))]
        }),
        state::after_capture(s, name, false, now) == (s, Seq::<EffectView>::empty()),
{
}

/// Copying puts on the clipboard just what it was asked to, character by character, and
/// does nothing else: a text as it is, or the image of the file of the name.
pub proof fn law_copy(s: StateView, content: String, now: LocalTime)
    ensures
        state::updated(s, Message::CopyToClipboard(content, false), now) == (
            s,
            seq![EffectView::CopyText(content@)],
        ),
        state::updated(s, Message::CopyToClipboard(content, true), now) == (
            s,
            seq![EffectView::CopyImage(content@)],
        ),
{
}

/// The copy button of a card puts the whole content of its item on the clipboard, however
/// little of it the card shows.
pub proof fn law_copy_of_a_card(s: StateView, seen: LocalTime, k: int, copied: String, now: LocalTime)
    requires
        0 <= k < screen::screen_of(s, seen).cards.len(),
        copied@ == screen::screen_of(s, seen).cards[k].content,
    ensures
        ({
            let card = screen::screen_of(s, seen).cards[k];
            let item = s.history[card.index];
            &&& 0 <= card.index < s.history.len()
            &&& state::updated(s, Message::CopyToClipboard(copied, card.is_image), now).1 == seq![
                if item.is_image {
                    EffectView::CopyImage(item.content)
                } else {
                    EffectView::CopyText(item.content)
                },
            ]
        }),
{
    screen::law_cards_match_filters(s, seen);
}

/// Marking an item as a favorite, or no longer, turns the mark of this item and nothing
/// else, and writes the log; where there is no such item it does nothing.
pub proof fn law_toggle_favorite(s: StateView, index: usize, now: LocalTime)
    ensures
        ({
            let (after, todo) = state::updated(s, Message::ToggleFavorite(index), now);
            if index < s.history.len() {
                &&& after == StateView { history: after.history, ..s }
                &&& after.history.len() == s.history.len()
                &&& after.history[index as int] == ItemView {
                    is_favorite: !s.history[index as int].is_favorite,
                    ..s.history[index as int]
                }
                &&& forall|j: int|
                    0 <= j < s.history.len() && j != index ==> #[trigger] after.history[j]
                        == s.history[j]
                &&& todo == seq![EffectView::WriteLog(log::log_text(after.history))]
            } else {
                after == s && todo == Seq::<EffectView>::empty()
            }
        }),
{
}

/// Showing an item in full, or no longer, turns this of the item and nothing else; where
/// there is no such item it does nothing.
pub proof fn law_toggle_expand(s: StateView, index: usize, now: LocalTime)
    ensures
        ({
            let (after, todo) = state::updated(s, Message::ToggleExpand(index), now);
            &&& todo == Seq::<EffectView>::empty()
            &&& if index < s.history.len() {
                &&& after == StateView { history: after.history, ..s }
                &&& after.history.len() == s.history.len()
                &&& after.history[index as int] == ItemView {
                    expanded: !s.history[index as int].expanded,
                    ..s.history[index as int]
                }
                &&& forall|j: int|
                    0 <= j < s.history.len() && j != index ==> #[trigger] after.history[j]
                        == s.history[j]
            } else {
                after == s
            }
        }),
{
}

/// Deleting an item takes out this item and no other, leaves the others in their order,
/// removes its file if it is an image, and writes the log.
pub proof fn law_delete_item(s: StateView, index: usize, now: LocalTime)
    requires
        index < s.history.len(),
    ensures
        ({
            let (after, todo) = state::updated(s, Message::DeleteItem(index), now);
            let gone = s.history[index as int];
            let written = EffectView::WriteLog(log::log_text(after.history));
            &&& after == StateView { history: after.history, ..s }
            &&& after.history.len() + 1 == s.history.len()
            &&& forall|j: int|
                0 <= j < after.history.len() ==> #[trigger] after.history[j] == if j < index {
                    s.history[j]
                } else {
                    s.history[j + 1]
                }
            &&& gone.is_image ==> todo == seq![EffectView::RemoveCapture(gone.content), written]
            &&& !gone.is_image ==> todo == seq![written]
        }),
{
}

/// Search text, filters, start with the system and visibility become what they are set
/// to, whatever they were, and nothing else changes.
#[verifier::spinoff_prover]
pub proof fn law_settings(s: StateView, query: String, days: i64, on: bool, now: LocalTime)
    ensures
        state::updated(s, Message::SearchChanged(query), now) == (
            StateView { search_query: query@, ..s },
            Seq::<EffectView>::empty(),
        ),
        state::updated(s, Message::FilterChanged(days), now) == (
            StateView { days_filter: days as int, ..s },
            Seq::<EffectView>::empty(),
        ),
        state::updated(s, Message::ToggleFavoriteFilter(on), now) == (
            StateView { only_favorites: on, ..s },
            Seq::<EffectView>::empty(),
        ),
        state::updated(s, Message::ToggleImageFilter(on), now) == (
            StateView { only_images: on, ..s },
            Seq::<EffectView>::empty(),
        ),
        state::updated(s, Message::ToggleAutoStart(on), now) == (
            StateView { auto_start: on, ..s },
            seq![EffectView::SetAutoStart(on)],
        ),
        state::updated(s, Message::SetVisibility(on), now) == (
            StateView { is_visible: on, ..s },
            seq![EffectView::ShowWindow(on)],
        ),
        state::updated(s, Message::Tick, now) == (s, seq![EffectView::PollHotkeys]),
{
}

/// Every message can be handled in every state, but for the deletion of an item that is
/// not there.
pub proof fn law_messages_possible(s: StateView, message: Message)
    ensures
        !(message is DeleteItem) ==> state::is_possible(s, message),
        forall|index: usize|
            #[trigger] state::is_possible(s, Message::DeleteItem(index)) <==> index
                < s.history.len(),
{
}

/// Marking an item twice, or showing it in full and no longer, leaves the state as it
/// was.
pub proof fn law_toggles_undo(s: StateView, index: usize, first: LocalTime, second: LocalTime)
    ensures
        state::updated(
            state::updated(s, Message::ToggleFavorite(index), first).0,
            Message::ToggleFavorite(index),
            second,
        ).0 == s,
        state::updated(
            state::updated(s, Message::ToggleExpand(index), first).0,
            Message::ToggleExpand(index),
            second,
        ).0 == s,
{
    if index < s.history.len() {
        let i = index as int;
        let fav = state::updated(s, Message::ToggleFavorite(index), first).0.history;
        assert(fav.update(i, s.history[i]) == s.history);
        let exp = state::updated(s, Message::ToggleExpand(index), first).0.history;
        assert(exp.update(i, s.history[i]) == s.history);
    }
}

/// Switching the window asks for one message, which shows it if it was hidden and hides
/// it if it was shown.
pub proof fn law_toggle_visibility(s: StateView, first: LocalTime, second: LocalTime)
    ensures
        ({
            let (same, todo) = state::updated(s, Message::ToggleVisibility, first);
            &&& same == s
            &&& todo.len() == 1
            &&& todo[0] matches EffectView::Send(message) && state::updated(s, message, second) == (
                StateView { is_visible: !s.is_visible, ..s },
                seq![EffectView::ShowWindow(!s.is_visible)],
            )
        }),
{
}

/// Clearing the history leaves the favorites, all of them, in their order; it removes
/// the files of the images that go, and no others; and clearing it again changes
/// nothing and removes nothing.
#[verifier::spinoff_prover]
pub proof fn law_clear_history(s: StateView, first: LocalTime, second: LocalTime)
    ensures
        ({
            let (after, todo) = state::updated(s, Message::ClearHistory, first);
            &&& after == StateView { history: after.history, ..s }
            &&& forall|item: ItemView| #[trigger]
                after.history.contains(item) <==> s.history.contains(item) && item.is_favorite
            &&& exists|order: Seq<int>|
                is_subsequence(after.history, s.history, order) && forall|i: int|
                    0 <= i < s.history.len() && (#[trigger] s.history[i]).is_favorite
                        ==> order.contains(i)
            &&& todo.len() > 0
            &&& todo.last() == EffectView::WriteLog(log::log_text(after.history))
            &&& forall|k: int|
                0 <= k < todo.len() - 1 ==> (#[trigger] todo[k]) is RemoveCapture
            &&& forall|name: Seq<char>|
                #[trigger] todo.contains(EffectView::RemoveCapture(name)) <==> exists|i: int|
                    0 <= i < s.history.len() && (#[trigger] s.history[i]).is_image
                        && !s.history[i].is_favorite && s.history[i].content == name
            &&& state::updated(after, Message::ClearHistory, second) == (
                after,
                seq![EffectView::WriteLog(log::log_text(after.history))],
            )
        }),
{
    let (after, todo) = state::updated(s, Message::ClearHistory, first);
    let h = s.history;
    let keep = |i: ItemView| i.is_favorite;
    let drop = |i: ItemView| !i.is_favorite && i.is_image;
    let gone = state::discarded_images(h);
    assert forall|item: ItemView| #[trigger]
        after.history.contains(item) <==> h.contains(item) && item.is_favorite by {
        lemma_filter_members(h, keep, item);
    }
    lemma_filter_subsequence(h, keep);
    let order = choose|order: Seq<int>|
        is_subsequence(h.filter(keep), h, order) && forall|i: int|
            0 <= i < h.len() && keep(#[trigger] h[i]) ==> order.contains(i);
    assert(is_subsequence(after.history, h, order) && forall|i: int|
        0 <= i < h.len() && (#[trigger] h[i]).is_favorite ==> order.contains(i));
    assert forall|name: Seq<char>|
        #[trigger] todo.contains(EffectView::RemoveCapture(name)) <==> exists|i: int|
            0 <= i < h.len() && (#[trigger] h[i]).is_image && !h[i].is_favorite && h[i].content
                == name by {
        let effect = EffectView::RemoveCapture(name);
        let removed = state::removals(gone);
        if todo.contains(effect) {
            let k = choose|k: int| 0 <= k < todo.len() && todo[k] == effect;
            assert(k < removed.len());
            assert(removed[k] == effect);
            assert(gone.contains(gone[k]));
            lemma_filter_members(h, drop, gone[k]);
            let i = choose|i: int| 0 <= i < h.len() && h[i] == gone[k];
            assert(h[i].is_image && !h[i].is_favorite && h[i].content == name);
        }
        if exists|i: int|
            0 <= i < h.len() && (#[trigger] h[i]).is_image && !h[i].is_favorite && h[i].content
                == name {
            let i = choose|i: int|
                0 <= i < h.len() && (#[trigger] h[i]).is_image && !h[i].is_favorite && h[i].content
                    == name;
            lemma_filter_members(h, drop, h[i]);
            let k = choose|k: int| 0 <= k < gone.len() && gone[k] == h[i];
            assert(removed[k] == effect);
            assert(todo[k] == effect);
        }
    }
    lemma_filter_again(h, keep, drop);
    assert(state::removals(Seq::empty()) == Seq::<EffectView>::empty());
    assert(Seq::<EffectView>::empty().push(state::write_log(after.history)) == seq![
        state::write_log(after.history),
    ]);
}

/// `part` is made of the items of `whole` at the places `order`, which rise.
pub open spec fn is_subsequence(
    part: Seq<ItemView>,
    whole: Seq<ItemView>,
    order: Seq<int>,
) -> bool {
    &&& order.len() == part.len()
    &&& forall|k: int|
        0 <= k < order.len() ==> 0 <= #[trigger] order[k] < whole.len() && whole[order[k]]
            == part[k]
    &&& forall|k: int, l: int| 0 <= k < l < order.len() ==> order[k] < order[l]
}

/// What is left after a filter stands in its order.
proof fn lemma_filter_subsequence(h: Seq<ItemView>, keep: spec_fn(ItemView) -> bool)
    ensures
        exists|order: Seq<int>|
            is_subsequence(h.filter(keep), h, order) && forall|i: int|
                0 <= i < h.len() && keep(#[trigger] h[i]) ==> order.contains(i),
    decreases h.len(),
{
    reveal(Seq::filter);
    if h.len() == 0 {
        assert(is_subsequence(h.filter(keep), h, Seq::empty()));
    } else {
        let front = h.drop_last();
        lemma_filter_subsequence(front, keep);
        let order = choose|order: Seq<int>|
            is_subsequence(front.filter(keep), front, order) && forall|i: int|
                0 <= i < front.len() && keep(#[trigger] front[i]) ==> order.contains(i);
        let longer = if keep(h.last()) {
            order.push(h.len() - 1)
        } else {
            order
        };
        assert(is_subsequence(h.filter(keep), h, longer));
        assert forall|i: int| 0 <= i < h.len() && keep(#[trigger] h[i]) implies longer.contains(
            i,
        ) by {
            if i < h.len() - 1 {
                assert(front[i] == h[i]);
                let k = choose|k: int| 0 <= k < order.len() && order[k] == i;
                assert(longer[k] == i);
            } else {
                assert(longer[longer.len() - 1] == i);
            }
        }
    }
}

/// What a filter leaves: the items that it keeps.
proof fn lemma_filter_members(h: Seq<ItemView>, keep: spec_fn(ItemView) -> bool, item: ItemView)
    ensures
        h.filter(keep).contains(item) <==> h.contains(item) && keep(item),
{
    if h.filter(keep).contains(item) {
        h.lemma_filter_contains_rev(keep, item);
        let k = choose|k: int| 0 <= k < h.filter(keep).len() && h.filter(keep)[k] == item;
        h.lemma_filter_pred(keep, k);
    }
    if h.contains(item) && keep(item) {
        let i = choose|i: int| 0 <= i < h.len() && h[i] == item;
        h.lemma_filter_contains(keep, i);
    }
}

/// A filter leaves as it is what it has left, and a filter that keeps none of it
/// leaves nothing.
proof fn lemma_filter_again(
    h: Seq<ItemView>,
    keep: spec_fn(ItemView) -> bool,
    other: spec_fn(ItemView) -> bool,
)
    requires
        forall|i: ItemView| #[trigger] keep(i) ==> !other(i),
    ensures
        h.filter(keep).filter(keep) == h.filter(keep),
        h.filter(keep).filter(other) == Seq::<ItemView>::empty(),
    decreases h.len(),
{
    reveal(Seq::filter);
    if h.len() > 0 {
        let front = h.drop_last();
        lemma_filter_again(front, keep, other);
        if keep(h.last()) {
            front.filter(keep).lemma_filter_push(h.last(), keep);
            front.filter(keep).lemma_filter_push(h.last(), other);
        }
    }
}

/// The favorites of `h`, each with its time, content and kind, are all among those of
/// `after`.
pub open spec fn favorites_kept(h: Seq<ItemView>, after: Seq<ItemView>) -> bool {
    forall|i: int|
        0 <= i < h.len() && (#[trigger] h[i]).is_favorite ==> exists|j: int|
            0 <= j < after.len() && is_same_favorite(h[i], #[trigger] after[j])
}

/// The same favorite, shown in full or not.
pub open spec fn is_same_favorite(a: ItemView, b: ItemView) -> bool {
    ItemView { expanded: false, ..a } == (ItemView { expanded: false, ..b }) && b.is_favorite
}

/// A favorite leaves the favorites by a message about just this item, and by nothing
/// else that can happen.
#[verifier::spinoff_prover]
pub proof fn law_favorites_stay(s: StateView, event: Event)
    requires
        can_happen(s, event),
        event matches Event::Handled(message, _) ==> !(message is DeleteItem) && !(
        message is ToggleFavorite),
    ensures
        favorites_kept(s.history, next(s, event).history),
{
    let h = s.history;
    let after = next(s, event).history;
    assert forall|i: int| 0 <= i < h.len() && (#[trigger] h[i]).is_favorite implies exists|j: int|
        0 <= j < after.len() && is_same_favorite(h[i], #[trigger] after[j]) by {
        if event matches Event::Handled(Message::ClearHistory, _) {
            let keep = |i: ItemView| i.is_favorite;
            assert(h.contains(h[i]));
            lemma_filter_members(h, keep, h[i]);
            let j = choose|j: int| 0 <= j < after.len() && after[j] == h[i];
            assert(is_same_favorite(h[i], after[j]));
        } else {
            assert(is_same_favorite(h[i], after[i]));
        }
    }
}

/// Searching, filtering, showing the window and switching the start with the system
/// leave the history alone.
pub proof fn law_history_untouched(s: StateView, message: Message, now: LocalTime)
    requires
        message is Tick || message is CopyToClipboard || message is SetVisibility
            || message is ToggleVisibility || message is SearchChanged || message is ToggleAutoStart
            || message is FilterChanged || message is ToggleFavoriteFilter
            || message is ToggleImageFilter,
    ensures
        state::updated(s, message, now).0.history == s.history,
{
}

/// The event is the hotkey switching the window at `clock`.
pub open spec fn is_toggle(s: StateView, event: Event, clock: int) -> bool {
    event matches Event::Ticked(input, c) && c == clock && ticker::ticked(s, input, c).1 == Some(
        EffectView::Send(Message::ToggleVisibility),
    )
}

/// The event asks for a look at the clipboard at `clock`.
pub open spec fn is_check(s: StateView, event: Event, clock: int) -> bool {
    event matches Event::Ticked(input, c) && c == clock && ticker::ticked(s, input, c).1 == Some(
        EffectView::CheckClipboard,
    )
}

/// A message leaves the times of the last toggle and the last look at the clipboard.
#[verifier::spinoff_prover]
proof fn lemma_message_keeps_times(s: StateView, message: Message, now: LocalTime)
    ensures
        state::updated(s, message, now).0.last_toggle_time == s.last_toggle_time,
        state::updated(s, message, now).0.last_clip_check == s.last_clip_check,
{
}

/// An event takes neither the time of the last toggle nor that of the last look at the
/// clipboard back, and only the hotkey changes the first.
#[verifier::spinoff_prover]
proof fn lemma_event_times(s: StateView, event: Event)
    ensures
        s.last_toggle_time <= next(s, event).last_toggle_time,
        s.last_clip_check matches Some(a) ==> (next(s, event).last_clip_check matches Some(b) && a
            <= b),
        !(event matches Event::Ticked(TickInput::Hotkeys(_), _)) ==> next(s, event).last_toggle_time
            == s.last_toggle_time,
{
    if let Event::Handled(message, now) = event {
        lemma_message_keeps_times(s, message, now);
    }
}

/// The times of the last toggle and the last look at the clipboard never go back.
#[verifier::spinoff_prover]
proof fn lemma_times_rise(s: StateView, events: Seq<Event>, i: int, j: int)
    requires
        0 <= i <= j <= events.len(),
    ensures
        run(s, events.take(i)).last_toggle_time <= run(s, events.take(j)).last_toggle_time,
        run(s, events.take(i)).last_clip_check matches Some(a) ==> (run(
            s,
            events.take(j),
        ).last_clip_check matches Some(b) && a <= b),
    decreases j - i,
{
    if i < j {
        lemma_times_rise(s, events, i, j - 1);
        assert(events.take(j).drop_last() == events.take(j - 1));
        lemma_event_times(run(s, events.take(j - 1)), events.take(j).last());
    }
}

/// The hotkey switches the window at most once in any 300 milliseconds, and the
/// clipboard is looked at once in any 500 at most, whatever else happens in between.
#[verifier::spinoff_prover]
pub proof fn law_pauses(s: StateView, events: Seq<Event>, i: int, j: int, first: int, second: int)
    requires
        0 <= i < j < events.len(),
    ensures
        is_toggle(run(s, events.take(i)), events[i], first) && is_toggle(
            run(s, events.take(j)),
            events[j],
            second,
        ) ==> second - first > ticker::TOGGLE_PAUSE,
        is_check(run(s, events.take(i)), events[i], first) && is_check(
            run(s, events.take(j)),
            events[j],
            second,
        ) ==> second - first > ticker::CLIPBOARD_PAUSE,
{
    lemma_times_rise(s, events, i + 1, j);
    assert(events.take(i + 1).drop_last() == events.take(i));
    assert(events.take(i + 1).last() == events[i]);
}

/// A tick looks at the clipboard only when neither hotkey, tray icon nor menu asked for
/// anything, and ends the program only on the menu's choice to quit.
pub proof fn law_tick_order(s: StateView, input: TickInput, clock: int)
    ensures
        ticker::ticked(s, input, clock).1 == Some(EffectView::CheckClipboard) ==> input
            == TickInput::Menu(None),
        ticker::ticked(s, input, clock).1 == Some(EffectView::Quit) ==> (
        input matches TickInput::Menu(Some(id)) && id@ == "quit"@),
        ticker::ticked(s, input, clock).1 is None ==> input == TickInput::Menu(None),
{
}

/// A press of the hotkey more than 300 milliseconds after the last one that took effect
/// takes effect, whether the window is shown or not: it sends the message that switches
/// the window, and its time is noted. Any other look at the hotkey changes nothing, and
/// the tray is next.
pub proof fn law_hotkey(s: StateView, pressed: bool, clock: int)
    ensures
        pressed && clock - s.last_toggle_time > 300_000_000 ==> ticker::ticked(
            s,
            TickInput::Hotkeys(pressed),
            clock,
        ) == (
            StateView { last_toggle_time: clock, ..s },
            Some(EffectView::Send(Message::ToggleVisibility)),
        ),
        !(pressed && clock - s.last_toggle_time > 300_000_000) ==> ticker::ticked(
            s,
            TickInput::Hotkeys(pressed),
            clock,
        ) == (s, Some(EffectView::PollTray)),
{
}

/// A press of the hotkey that takes effect ends, after the messages that it leads to, in
/// the window being hidden if it was shown and shown if it was hidden.
#[verifier::spinoff_prover]
pub proof fn law_hotkey_switches_window(
    s: StateView,
    clock: int,
    first: LocalTime,
    second: LocalTime,
)
    requires
        clock - s.last_toggle_time > 300_000_000,
    ensures
        ({
            let (noted, sent) = ticker::ticked(s, TickInput::Hotkeys(true), clock);
            &&& sent matches Some(EffectView::Send(toggle)) && {
                let (same, asked) = state::updated(noted, toggle, first);
                &&& asked.len() == 1
                &&& asked[0] matches EffectView::Send(set) && {
                    let (after, shown) = state::updated(same, set, second);
                    &&& after == StateView {
                        is_visible: !s.is_visible,
                        last_toggle_time: clock,
                        ..s
                    }
                    &&& shown == seq![EffectView::ShowWindow(!s.is_visible)]
                }
            }
        }),
{
}

/// Two presses of the hotkey more than 300 milliseconds apart, of which the first takes
/// effect, both do, whatever else happens in between.
#[verifier::spinoff_prover]
pub proof fn law_presses_apart(s: StateView, first: int, between: Seq<Event>, second: int)
    requires
        first - s.last_toggle_time > 300_000_000,
        second - first > 300_000_000,
        forall|i: int|
            0 <= i < between.len() ==> !(#[trigger] between[i] matches Event::Ticked(
                TickInput::Hotkeys(_),
                _,
            )),
    ensures
        ({
            let (noted, sent) = ticker::ticked(s, TickInput::Hotkeys(true), first);
            let later = run(noted, between);
            &&& sent == Some(EffectView::Send(Message::ToggleVisibility))
            &&& ticker::ticked(later, TickInput::Hotkeys(true), second).1 == Some(
                EffectView::Send(Message::ToggleVisibility),
            )
        }),
    decreases between.len(),
{
    let noted = ticker::ticked(s, TickInput::Hotkeys(true), first).0;
    lemma_toggle_time_stays(noted, between);
}

/// Only the hotkey changes the time of the last toggle.
#[verifier::spinoff_prover]
proof fn lemma_toggle_time_stays(s: StateView, events: Seq<Event>)
    requires
        forall|i: int|
            0 <= i < events.len() ==> !(#[trigger] events[i] matches Event::Ticked(
                TickInput::Hotkeys(_),
                _,
            )),
    ensures
        run(s, events).last_toggle_time == s.last_toggle_time,
    decreases events.len(),
{
    if events.len() > 0 {
        let front = events.drop_last();
        assert forall|i: int| 0 <= i < front.len() implies !(
        #[trigger] front[i] matches Event::Ticked(TickInput::Hotkeys(_), _)) by {
            assert(front[i] == events[i]);
        }
        lemma_toggle_time_stays(s, front);
        lemma_event_times(run(s, front), events.last());
        assert(!(events[events.len() - 1] matches Event::Ticked(TickInput::Hotkeys(_), _)));
    }
}

/// A click on the tray icon with the left button shows the window, whether it is shown or
/// not; any other event of the icon is passed over, and after the last the menu is next.
pub proof fn law_tray(s: StateView, event: TrayEvent, clock: int)
    ensures
        ticker::ticked(s, TickInput::Tray(Some(TrayEvent::Click(MouseButton::Left))), clock) == (
            s,
            Some(EffectView::Send(Message::SetVisibility(true))),
        ),
        event != TrayEvent::Click(MouseButton::Left) ==> ticker::ticked(
            s,
            TickInput::Tray(Some(event)),
            clock,
        ) == (s, Some(EffectView::PollTray)),
        ticker::ticked(s, TickInput::Tray(None), clock) == (s, Some(EffectView::PollMenu)),
{
}

/// The menu's choice to open shows the window, its choice to quit ends the program, and
/// any other is passed over.
pub proof fn law_menu(s: StateView, id: String, clock: int)
    ensures
        ticker::ticked(s, TickInput::Menu(Some(id)), clock) == (
            s,
            Some(
                if id@ == "open"@ {
                    EffectView::Send(Message::SetVisibility(true))
                } else if id@ == "quit"@ {
                    EffectView::Quit
                } else {
                    EffectView::PollMenu
                },
            ),
        ),
{
}

/// Once the inputs before it asked for nothing, the clipboard is looked at if it never was
/// or was more than 500 milliseconds ago, and the time is noted; else the tick is over.
pub proof fn law_clipboard_is_watched(s: StateView, clock: int)
    ensures
        s.last_clip_check is None || clock - s.last_clip_check->0 > 500_000_000 ==> ticker::ticked(
            s,
            TickInput::Menu(None),
            clock,
        ) == (
            StateView { last_clip_check: Some(clock), ..s },
            Some(EffectView::CheckClipboard),
        ),
        s.last_clip_check is Some && clock - s.last_clip_check->0 <= 500_000_000 ==> ticker::ticked(
            s,
            TickInput::Menu(None),
            clock,
        ) == (s, None::<EffectView>),
{
}

/// At the start the window is hidden and nothing is filtered, the history is the one that
/// was loaded, and what is on the clipboard then, be it a text or an image, does not enter
/// it.
#[verifier::spinoff_prover]
pub proof fn law_start(
    text: Option<String>,
    pixels: Option<Vec<u8>>,
    history: Vec<HistoryItem>,
    auto_start: bool,
    clock: u128,
    s: AppState,
    width: u32,
    height: u32,
    now: LocalTime,
)
    requires
        call_ensures(AppState::new, (text, pixels, history, auto_start, clock), s),
    ensures
        s@.history.len() == history@.len(),
        forall|i: int| 0 <= i < history@.len() ==> #[trigger] s@.history[i] == history@[i]@,
        !s@.is_visible && s@.auto_start == auto_start && s@.last_toggle_time == clock,
        s@.last_clip_check is None,
        s@.search_query.len() == 0 && s@.days_filter == 0 && !s@.only_favorites && !s@.only_images,
        text is None ==> s@.last_text.len() == 0,
        pixels is None ==> s@.last_image_hash.len() == 0,
        text matches Some(t) ==> state::updated(
            s@,
            Message::ClipboardChecked(Ok(ClipboardContent::Text(t))),
            now,
        ) == (s@, Seq::<EffectView>::empty()),
        pixels matches Some(p) ==> state::updated(
            s@,
            Message::ClipboardChecked(Ok(ClipboardContent::Image(p, width, height))),
            now,
        ) == (s@, Seq::<EffectView>::empty()),
{
}

/// What a restart gives back: if the log of a history is written to the file, and the
/// history is loaded from it, the items are those before that hold more than white space,
/// in their order, with their marks and kinds, and with their contents on one line without
/// the white space that ends them. Where the time zone gives a point in time for each time
/// in the log, each item has its time, to the second; where it gives none for an item, that
/// one is dated now.
#[verifier::spinoff_prover]
pub proof fn law_restart(
    before: Vec<HistoryItem>,
    written: String,
    bytes: &[u8],
    list: Vec<LogEntry>,
    has_file: Vec<bool>,
    after: Vec<HistoryItem>,
)
    requires
        history::all_wf(history::items(before@)),
        call_ensures(log::rewrite_log, (&before,), written),
        bytes@ == vstd::utf8::encode_utf8(written@),
        call_ensures(log::parse_log, (bytes,), list),
        has_file@.len() == list@.len(),
        call_ensures(log::load_history, (&list, &has_file), after),
    ensures
        ({
            let left = readback::legible(history::items(before@));
            &&& log::is_readable_log(bytes@)
            &&& after@.len() == left.len()
            &&& forall|i: int|
                0 <= i < after@.len() ==> {
                    let item = (#[trigger] after@[i])@;
                    let t = left[i].datetime.civil.whole_second();
                    &&& item.content == text::trim_end(log::flat(left[i].content))
                    &&& item.is_image == left[i].is_image
                    &&& item.is_favorite == left[i].is_favorite
                    &&& item.has_preview == (left[i].is_image && has_file@[i])
                    &&& !item.expanded
                    &&& exists|r: Option<LocalTime>| #[trigger]
                        calendar::is_resolution_of(t, r) && (match r {
                            Some(l) => item.datetime == l && l.civil == t,
                            None => calendar::is_present(item.datetime),
                        })
                }
        }),
{
    let h = history::items(before@);
    let left = readback::legible(h);
    let kept = readback::kept_entries(h);
    let restored = history::items(after@);
    readback::law_log_is_readable(h);
    assert(log::entries(list@) == kept);
    assert(readback::is_restored_from(kept, has_file@, restored)) by {
        assert forall|i: int| 0 <= i < restored.len() implies log::is_restored(
            kept[i],
            has_file@[i],
            #[trigger] restored[i],
        ) by {
            assert(log::entries(list@)[i] == list@[i]@);
            assert(restored[i] == after@[i]@);
        }
    }
    readback::law_history_survives(h, has_file@, restored);
    readback::law_kept_times(h);
    assert forall|i: int| 0 <= i < after@.len() implies {
        let item = (#[trigger] after@[i])@;
        let t = left[i].datetime.civil.whole_second();
        &&& item.content == text::trim_end(log::flat(left[i].content))
        &&& item.is_image == left[i].is_image
        &&& item.is_favorite == left[i].is_favorite
        &&& item.has_preview == (left[i].is_image && has_file@[i])
        &&& !item.expanded
        &&& exists|r: Option<LocalTime>| #[trigger]
            calendar::is_resolution_of(t, r) && (match r {
                Some(l) => item.datetime == l && l.civil == t,
                None => calendar::is_present(item.datetime),
            })
    } by {
        assert(restored[i] == after@[i]@);
        assert(log::is_restored(kept[i], has_file@[i], restored[i]));
        readback::law_restored_date(kept[i], has_file@[i], restored[i]);
    }
}

} // verus!
