use mega_clipboard::calendar::{CivilTime, LocalTime, MAX_SPAN_DAYS};
use mega_clipboard::history::HistoryItem;
use mega_clipboard::screen::{displayed_text, filter_label, matches_query, CardBody};
use mega_clipboard::state::AppState;

fn at(month: u32, day: u32, hour: u32) -> LocalTime {
    LocalTime {
        civil: CivilTime { year: 2024, month, day, hour, minute: 5, second: 7, nanosecond: 0 },
        utc_offset: 0,
    }
}

fn item(datetime: LocalTime, content: &str, is_image: bool, is_favorite: bool) -> HistoryItem {
    HistoryItem {
        datetime,
        content: content.to_string(),
        is_image,
        has_preview: is_image,
        expanded: false,
        is_favorite,
    }
}

fn sample() -> AppState {
    let history = vec![
        item(at(1, 9, 1), "Hello World", false, false),
        item(at(3, 1, 12), "ПРИВЕТ", false, true),
        item(at(3, 8, 12), "a.png", true, false),
        item(at(3, 9, 11), "b.png", true, true),
    ];
    AppState::new(None, None, history, false, 0)
}

fn shown(state: &AppState) -> Vec<usize> {
    state.screen_at(at(3, 9, 12)).cards.iter().map(|c| c.index).collect()
}

#[test]
fn labels_of_the_filter() {
    assert_eq!(filter_label(0), "За всё время");
    assert_eq!(filter_label(-3), "За всё время");
    assert_eq!(filter_label(1), "За последние 1 дн.");
    assert_eq!(filter_label(90), "За последние 90 дн.");
    assert_eq!(filter_label(i64::MAX), "За последние 2147483647 дн.");
    assert_eq!(sample().screen_at(at(3, 9, 12)).filter_label, "За всё время");
}

#[test]
fn all_items_newest_first() {
    assert_eq!(shown(&sample()), vec![3, 2, 1, 0]);
    let screen = sample().screen();
    assert_eq!(screen.cards.len(), 4);
    assert_eq!(screen.cards[0].index, 3);
    assert_eq!(AppState::new(None, None, Vec::new(), false, 0).screen().cards, Vec::new());
}

#[test]
fn search_by_text_ignores_case() {
    let mut state = sample();
    state.search_query = "WORLD".to_string();
    assert_eq!(shown(&state), vec![0]);
    state.search_query = "привет".to_string();
    assert_eq!(shown(&state), vec![1]);
    state.search_query = ".PNG".to_string();
    assert_eq!(shown(&state), vec![3, 2]);
    state.search_query = "nowhere".to_string();
    assert_eq!(shown(&state), Vec::<usize>::new());
}

#[test]
fn search_by_date() {
    let mut state = sample();
    state.search_query = "09.01".to_string();
    assert_eq!(shown(&state), vec![0]);
    state.search_query = ".03.2024".to_string();
    assert_eq!(shown(&state), vec![3, 2, 1]);
    state.search_query = "08.03".to_string();
    assert_eq!(shown(&state), vec![2]);
}

#[test]
fn queries() {
    assert!(matches_query("", "", "", ""));
    assert!(matches_query("b", "abc", "", ""));
    assert!(matches_query("9.0", "", "09.03", ""));
    assert!(matches_query("2024", "", "09.03", "09.03.2024"));
    assert!(!matches_query("x", "abc", "09.03", "09.03.2024"));
}

#[test]
fn filter_by_days() {
    let mut state = sample();
    state.days_filter = 1;
    assert_eq!(shown(&state), vec![3]);
    state.days_filter = 2;
    assert_eq!(shown(&state), vec![3, 2]);
    state.days_filter = 8;
    assert_eq!(shown(&state), vec![3, 2]);
    state.days_filter = 9;
    assert_eq!(shown(&state), vec![3, 2, 1]);
    state.days_filter = 90;
    assert_eq!(shown(&state), vec![3, 2, 1, 0]);
    state.days_filter = MAX_SPAN_DAYS;
    assert_eq!(shown(&state), vec![3, 2, 1, 0]);
}

#[test]
fn leap_seconds_count() {
    let mut state = sample();
    state.days_filter = 1;
    state.history.truncate(1);
    let mut then = at(6, 29, 23);
    then.civil.minute = 59;
    then.civil.second = 59;
    then.civil.nanosecond = 1_500_000_000;
    state.history[0].datetime = then;
    let mut now = at(6, 30, 23);
    now.civil.minute = 59;
    now.civil.second = 59;
    now.civil.nanosecond = 1_499_999_999;
    assert_eq!(state.screen_at(now).cards.len(), 1);
    now.civil.nanosecond = 1_500_000_000;
    assert_eq!(state.screen_at(now).cards.len(), 0);
    state.days_filter = 2;
    let mut later = at(7, 2, 0);
    later.civil.minute = 0;
    later.civil.second = 0;
    later.civil.nanosecond = 499_999_999;
    assert_eq!(state.screen_at(later).cards.len(), 1);
    later.civil.nanosecond = 500_000_000;
    assert_eq!(state.screen_at(later).cards.len(), 0);
}

#[test]
fn days_are_of_real_time() {
    let mut state = sample();
    state.days_filter = 1;
    state.history.truncate(3);
    let mut now = at(3, 9, 12);
    now.civil.second = 6;
    assert_eq!(state.screen_at(now).cards.len(), 1);
    now.civil.second = 7;
    assert_eq!(state.screen_at(now).cards.len(), 0);
    now.utc_offset = 1;
    assert_eq!(state.screen_at(now).cards.len(), 1);
    now.utc_offset = -1;
    now.civil.second = 6;
    assert_eq!(state.screen_at(now).cards.len(), 0);
}

#[test]
fn filter_by_kind_and_mark() {
    let mut state = sample();
    state.only_favorites = true;
    assert_eq!(shown(&state), vec![3, 1]);
    state.only_images = true;
    assert_eq!(shown(&state), vec![3]);
    state.only_favorites = false;
    assert_eq!(shown(&state), vec![3, 2]);
    state.search_query = String::new();
    assert_eq!(shown(&state), vec![3, 2]);
    state.search_query = "a".to_string();
    assert_eq!(shown(&state), vec![2]);
}

#[test]
fn cards() {
    let mut state = sample();
    state.history[2].has_preview = false;
    state.history[3].expanded = true;
    let cards = state.screen_at(at(3, 9, 12)).cards;
    assert_eq!(cards[0].header, "09.03 11:05:07");
    assert_eq!(cards[0].star, '★');
    assert!(cards[0].is_favorite);
    assert_eq!(cards[0].body, CardBody::Picture { width: 400, height: 300 });
    assert_eq!(cards[1].body, CardBody::NoPicture);
    assert_eq!(cards[1].star, '☆');
    assert_eq!(cards[1].content, "a.png");
    assert!(cards[1].is_image && !cards[1].is_favorite);
    assert_eq!(cards[3].body, CardBody::Text("Hello World".to_string()));
    assert_eq!(cards[3].header, "09.01 01:05:07");
    state.history[3].expanded = false;
    assert_eq!(
        state.screen_at(at(3, 9, 12)).cards[0].body,
        CardBody::Picture { width: 150, height: 100 }
    );
}

#[test]
fn previews() {
    let hundred = "x".repeat(100);
    let more = "x".repeat(101);
    assert_eq!(displayed_text(&hundred, false), hundred);
    assert_eq!(displayed_text(&more, false), format!("{}...", hundred));
    assert_eq!(displayed_text(&more, true), more);
    assert_eq!(displayed_text("", false), "");
    let sixty = "ж".repeat(60);
    assert_eq!(displayed_text(&sixty, false), format!("{}...", sixty));
    let fifty = "ж".repeat(50);
    assert_eq!(displayed_text(&fifty, false), fifty);
    let long = "ж".repeat(150);
    assert_eq!(displayed_text(&long, false), format!("{}...", "ж".repeat(100)));
}

#[test]
fn wider_filters_show_more() {
    let mut state = sample();
    let mut last = 0;
    for days in [1, 2, 9, 61, 62] {
        state.days_filter = days;
        let n = shown(&state).len();
        assert!(n >= last);
        last = n;
    }
    assert_eq!(last, 4);
}
