use mega_clipboard::calendar::{CivilTime, LocalTime};
use mega_clipboard::clipboard::{check_clipboard, ClipboardContent};
use mega_clipboard::history::HistoryItem;
use mega_clipboard::log::rewrite_log;
use mega_clipboard::picture::ClipboardPicture;
use mega_clipboard::state::{AppState, Effect, Message};

fn now() -> LocalTime {
    LocalTime {
        civil: CivilTime {
            year: 2024,
            month: 3,
            day: 9,
            hour: 8,
            minute: 5,
            second: 7,
            nanosecond: 0,
        },
        utc_offset: 3600,
    }
}

fn item(content: &str, is_image: bool, is_favorite: bool) -> HistoryItem {
    HistoryItem {
        datetime: now(),
        content: content.to_string(),
        is_image,
        has_preview: is_image,
        expanded: false,
        is_favorite,
    }
}

fn sample() -> AppState {
    let history = vec![
        item("a", false, false),
        item("b.png", true, false),
        item("c", false, true),
        item("d.png", true, true),
        item("e.png", true, false),
    ];
    AppState::new(None, None, history, false, 7)
}

fn contents(state: &AppState) -> Vec<&str> {
    state.history.iter().map(|i| i.content.as_str()).collect()
}

fn text(s: &str) -> Message {
    Message::ClipboardChecked(Ok(ClipboardContent::Text(s.to_string())))
}

fn image(pixels: &[u8], width: u32, height: u32) -> Message {
    Message::ClipboardChecked(Ok(ClipboardContent::Image(pixels.to_vec(), width, height)))
}

#[test]
fn first_state() {
    let state = AppState::new(Some("t".to_string()), Some(vec![1, 2]), Vec::new(), true, 99);
    assert_eq!(
        state,
        AppState {
            last_text: "t".to_string(),
            last_image_hash: vec![1, 2],
            history: Vec::new(),
            is_visible: false,
            last_toggle_time: 99,
            last_clip_check: None,
            search_query: String::new(),
            auto_start: true,
            days_filter: 0,
            only_favorites: false,
            only_images: false,
        }
    );
    let empty = AppState::new(None, None, Vec::new(), false, 0);
    assert_eq!(empty.last_text, "");
    assert!(empty.last_image_hash.is_empty());
}

#[test]
fn clipboard_at_the_start_is_ignored() {
    let mut state = AppState::new(Some("t".to_string()), Some(vec![0; 4]), Vec::new(), true, 0);
    assert_eq!(state.update_at(text("t"), now()), Vec::new());
    assert_eq!(state.update_at(image(&[0; 4], 1, 1), now()), Vec::new());
    assert!(state.history.is_empty());
}

#[test]
fn new_text_enters_the_history() {
    let mut state = sample();
    let todo = state.update_at(text("new"), now());
    assert_eq!(contents(&state), vec!["a", "b.png", "c", "d.png", "e.png", "new"]);
    assert_eq!(state.history[5], item("new", false, false));
    assert_eq!(state.last_text, "new");
    assert_eq!(todo, vec![Effect::WriteLog(rewrite_log(&state.history))]);
    assert_eq!(state.update_at(text("new"), now()), Vec::new());
    assert_eq!(state.history.len(), 6);
}

#[test]
fn known_text_does_not_enter_again() {
    let mut state = sample();
    assert_eq!(state.update_at(text("a"), now()), Vec::new());
    assert_eq!(state.last_text, "a");
    assert_eq!(state.history.len(), 5);
    let todo = state.update_at(text("b.png"), now());
    assert_eq!(todo.len(), 1);
    assert_eq!(state.history.len(), 6);
}

#[test]
fn empty_clipboard_does_nothing() {
    let mut state = sample();
    assert_eq!(state.update_at(text(""), now()), Vec::new());
    let empty = Message::ClipboardChecked(Ok(ClipboardContent::Empty));
    assert_eq!(state.update_at(empty, now()), Vec::new());
    let failed = Message::ClipboardChecked(Err("busy".to_string()));
    assert_eq!(state.update_at(failed, now()), Vec::new());
    assert_eq!(state, sample());
}

#[test]
fn new_image_is_saved() {
    let mut state = sample();
    let pixels: Vec<u8> = (0..8).collect();
    let todo = state.update_at(image(&pixels, 2, 1), now());
    assert_eq!(
        todo,
        vec![
            Effect::CreateCapturesDir,
            Effect::SaveCapture {
                name: "img_20240309_080507.png".to_string(),
                width: 2,
                height: 1,
                pixels: pixels.clone(),
            },
        ]
    );
    assert_eq!(state.last_image_hash, pixels);
    assert_eq!(state.history.len(), 5);
    assert_eq!(state.update_at(image(&pixels, 2, 1), now()), Vec::new());
}

#[test]
fn image_with_too_few_pixels_is_not_saved() {
    let mut state = sample();
    assert_eq!(state.update_at(image(&[0; 7], 2, 1), now()), vec![Effect::CreateCapturesDir]);
    assert_eq!(state.last_image_hash, vec![0; 7]);
    assert_eq!(
        state.update_at(image(&[1; 7], u32::MAX, u32::MAX), now()),
        vec![Effect::CreateCapturesDir]
    );
    assert_eq!(state.update_at(image(&[1; 9], 2, 1), now()).len(), 2);
    assert_eq!(state.update_at(image(&[], 0, 5), now()).len(), 2);
}

#[test]
fn saved_image_enters_the_history() {
    let mut state = sample();
    let todo = state.capture_saved_at("n.png".to_string(), true, now());
    assert_eq!(state.history[5], item("n.png", true, false));
    assert_eq!(todo, vec![Effect::WriteLog(rewrite_log(&state.history))]);
    let todo = state.capture_saved_at("m.png".to_string(), false, now());
    assert_eq!(todo, Vec::new());
    assert_eq!(state.history.len(), 6);
    state.capture_saved("o.png".to_string(), true);
    assert_eq!(state.history[6].content, "o.png");
    assert!(state.history[6].datetime.civil.year >= 2024);
}

#[test]
fn favorites_toggle() {
    let mut state = sample();
    let todo = state.update_at(Message::ToggleFavorite(0), now());
    assert!(state.history[0].is_favorite);
    assert_eq!(todo, vec![Effect::WriteLog(rewrite_log(&state.history))]);
    state.update_at(Message::ToggleFavorite(0), now());
    assert_eq!(state, sample());
    assert_eq!(state.update_at(Message::ToggleFavorite(5), now()), Vec::new());
    assert_eq!(state, sample());
}

#[test]
fn expansion_toggles() {
    let mut state = sample();
    assert_eq!(state.update_at(Message::ToggleExpand(1), now()), Vec::new());
    assert!(state.history[1].expanded);
    state.update_at(Message::ToggleExpand(1), now());
    assert_eq!(state, sample());
    assert_eq!(state.update_at(Message::ToggleExpand(5), now()), Vec::new());
    assert_eq!(state, sample());
}

#[test]
fn deleting_items() {
    let mut state = sample();
    let todo = state.update_at(Message::DeleteItem(1), now());
    assert_eq!(contents(&state), vec!["a", "c", "d.png", "e.png"]);
    assert_eq!(
        todo,
        vec![
            Effect::RemoveCapture("b.png".to_string()),
            Effect::WriteLog(rewrite_log(&state.history)),
        ]
    );
    let todo = state.update_at(Message::DeleteItem(1), now());
    assert_eq!(contents(&state), vec!["a", "d.png", "e.png"]);
    assert_eq!(todo, vec![Effect::WriteLog(rewrite_log(&state.history))]);
}

#[test]
fn clearing_the_history() {
    let mut state = sample();
    let todo = state.update_at(Message::ClearHistory, now());
    assert_eq!(contents(&state), vec!["c", "d.png"]);
    let log = rewrite_log(&state.history);
    assert_eq!(
        todo,
        vec![
            Effect::RemoveCapture("b.png".to_string()),
            Effect::RemoveCapture("e.png".to_string()),
            Effect::WriteLog(log.clone()),
        ]
    );
    assert_eq!(state.update_at(Message::ClearHistory, now()), vec![Effect::WriteLog(log)]);
    assert_eq!(contents(&state), vec!["c", "d.png"]);
}

#[test]
fn visibility() {
    let mut state = sample();
    assert_eq!(
        state.update_at(Message::ToggleVisibility, now()),
        vec![Effect::Send(Message::SetVisibility(true))]
    );
    assert!(!state.is_visible);
    assert_eq!(
        state.update_at(Message::SetVisibility(true), now()),
        vec![Effect::ShowWindow(true)]
    );
    assert!(state.is_visible);
    assert_eq!(
        state.update_at(Message::ToggleVisibility, now()),
        vec![Effect::Send(Message::SetVisibility(false))]
    );
}

#[test]
fn filters_leave_the_history() {
    let mut state = sample();
    assert_eq!(state.update_at(Message::SearchChanged("q".to_string()), now()), Vec::new());
    assert_eq!(state.update_at(Message::FilterChanged(30), now()), Vec::new());
    assert_eq!(state.update_at(Message::ToggleFavoriteFilter(true), now()), Vec::new());
    assert_eq!(state.update_at(Message::ToggleImageFilter(true), now()), Vec::new());
    assert_eq!(state.search_query, "q");
    assert_eq!(state.days_filter, 30);
    assert!(state.only_favorites && state.only_images);
    assert_eq!(state.history, sample().history);
}

#[test]
fn requests() {
    let mut state = sample();
    assert_eq!(
        state.update_at(Message::ToggleAutoStart(true), now()),
        vec![Effect::SetAutoStart(true)]
    );
    assert!(state.auto_start);
    assert_eq!(
        state.update_at(Message::CopyToClipboard("a".to_string(), false), now()),
        vec![Effect::CopyText("a".to_string())]
    );
    assert_eq!(
        state.update_at(Message::CopyToClipboard("b.png".to_string(), true), now()),
        vec![Effect::CopyImage("b.png".to_string())]
    );
    assert_eq!(state.update_at(Message::Tick, now()), vec![Effect::PollHotkeys]);
}

#[test]
fn the_clock_dates_new_items() {
    let mut state = sample();
    state.update(text("new"));
    let time = state.history[5].datetime;
    assert!(time.civil.year >= 2024);
    assert!(time.civil.hour < 24 && time.utc_offset.abs() < 86_400);
}

#[test]
fn file_names_are_dated() {
    let mut state = sample();
    let mut far = now();
    far.civil.year = 12345;
    match &state.update_at(image(&[0; 4], 1, 1), far)[1] {
        Effect::SaveCapture { name, .. } => assert_eq!(name, "img_+123450309_080507.png"),
        other => panic!("{:?}", other),
    }
}

#[test]
fn clipboard_contents() {
    let picture = || Some(ClipboardPicture { width: 2, height: 3, pixels: vec![9; 24] });
    let some = || Some("t".to_string());
    assert_eq!(
        check_clipboard(Ok(()), picture(), some()),
        Ok(ClipboardContent::Image(vec![9; 24], 2, 3))
    );
    assert_eq!(
        check_clipboard(Ok(()), None, some()),
        Ok(ClipboardContent::Text("t".to_string()))
    );
    assert_eq!(check_clipboard(Ok(()), None, None), Ok(ClipboardContent::Empty));
    assert_eq!(
        check_clipboard(Err("busy".to_string()), picture(), some()),
        Err("busy".to_string())
    );
}
