use mega_clipboard::calendar::{CivilTime, LocalTime};
use mega_clipboard::history::HistoryItem;
use mega_clipboard::log::{
    is_readable_file, is_readable_line, load_history, parse_line, parse_log, read_entry,
    read_stamp, restore_item, rewrite_log, LogEntry,
};

fn civil(year: i32, month: u32, day: u32, hour: u32, minute: u32, second: u32) -> CivilTime {
    CivilTime { year, month, day, hour, minute, second, nanosecond: 0 }
}

fn local(civil: CivilTime) -> LocalTime {
    LocalTime { civil, utc_offset: 10_800 }
}

fn item(time: CivilTime, content: &str, is_image: bool, is_favorite: bool) -> HistoryItem {
    HistoryItem {
        datetime: local(time),
        content: content.to_string(),
        is_image,
        has_preview: is_image,
        expanded: true,
        is_favorite,
    }
}

fn entry(time: Option<CivilTime>, content: &str, is_image: bool, is_favorite: bool) -> LogEntry {
    LogEntry { time, content: content.to_string(), is_image, is_favorite }
}

#[test]
fn log_of_each_kind() {
    let t = civil(2024, 3, 9, 8, 5, 7);
    let history = vec![
        item(t, "hello", false, false),
        item(t, "два\nслова", false, true),
        item(t, "img_20240309_080507.png", true, false),
        item(t, "img.png", true, true),
    ];
    assert_eq!(
        rewrite_log(&history),
        "[2024-03-09 08:05:07] REG TEXT: hello\n\
         [2024-03-09 08:05:07] FAV TEXT: два слова\n\
         [2024-03-09 08:05:07] REG IMAGE: img_20240309_080507.png\n\
         [2024-03-09 08:05:07] FAV IMAGE: img.png\n"
    );
}

#[test]
fn log_of_nothing() {
    assert_eq!(rewrite_log(&Vec::new()), "");
    assert_eq!(parse_log(b""), Vec::new());
}

#[test]
fn log_of_distant_years_and_leap_seconds() {
    let leap = CivilTime { nanosecond: 1_500_000_000, ..civil(2016, 12, 31, 23, 59, 59) };
    let times = vec![
        (civil(12345, 1, 2, 3, 4, 5), "+12345-01-02 03:04:05"),
        (civil(-7, 1, 2, 3, 4, 5), "-0007-01-02 03:04:05"),
        (civil(0, 12, 31, 23, 59, 59), "0000-12-31 23:59:59"),
        (civil(-262_143, 1, 1, 0, 0, 0), "-262143-01-01 00:00:00"),
        (civil(262_142, 12, 31, 23, 59, 59), "+262142-12-31 23:59:59"),
        (leap, "2016-12-31 23:59:60"),
    ];
    for (time, stamp) in times {
        let mut x = item(time, "x", false, false);
        x.datetime.utc_offset = 0;
        let log = rewrite_log(&vec![x]);
        assert_eq!(log, format!("[{}] REG TEXT: x\n", stamp));
        let whole = CivilTime {
            nanosecond: if time.nanosecond >= 1_000_000_000 { 1_000_000_000 } else { 0 },
            ..time
        };
        assert_eq!(parse_log(log.as_bytes()), vec![entry(Some(whole), "x", false, false)]);
    }
}

#[test]
fn log_reads_back() {
    let t = CivilTime { nanosecond: 123_456_789, ..civil(2024, 2, 29, 23, 59, 59) };
    let whole = civil(2024, 2, 29, 23, 59, 59);
    let history = vec![
        item(t, "plain", false, true),
        item(t, "  spaced [x]: y  ", false, false),
        item(t, "line\nbreaks\r\n", false, false),
        item(t, "IMAGE: FAV", false, false),
        item(t, "   \n", false, false),
        item(t, "img_20240229_235959.png", true, false),
        item(t, "трёх\u{2028}", false, false),
    ];
    let log = rewrite_log(&history);
    assert!(is_readable_file(log.as_bytes()));
    assert_eq!(
        parse_log(log.as_bytes()),
        vec![
            entry(Some(whole), "plain", false, true),
            entry(Some(whole), "  spaced [x]: y", false, false),
            entry(Some(whole), "line breaks", false, false),
            entry(Some(whole), "IMAGE: FAV", false, false),
            entry(Some(whole), "img_20240229_235959.png", true, false),
            entry(Some(whole), "трёх", false, false),
        ]
    );
}

#[test]
fn log_is_stable() {
    let t = civil(2024, 2, 29, 23, 59, 59);
    let history = vec![item(t, " a\nb \n", false, true), item(t, "c.png", true, false)];
    let first = parse_log(rewrite_log(&history).as_bytes());
    let restored: Vec<HistoryItem> =
        first.iter().map(|e| restore_item(e, e.time.map(local), local(t), true)).collect();
    let second = parse_log(rewrite_log(&restored).as_bytes());
    assert_eq!(first, second);
    let again: Vec<HistoryItem> =
        second.iter().map(|e| restore_item(e, e.time.map(local), local(t), true)).collect();
    assert_eq!(rewrite_log(&again), rewrite_log(&restored));
    assert_eq!(
        rewrite_log(&restored),
        "[2024-02-29 23:59:59] FAV TEXT:  a b\n[2024-02-29 23:59:59] REG IMAGE: c.png\n"
    );
}

#[test]
fn history_survives() {
    let t = civil(2024, 6, 15, 12, 30, 0);
    let precise = CivilTime { nanosecond: 987_654_321, ..t };
    let history = vec![item(precise, "one", false, true), item(precise, "two.png", true, false)];
    let entries = parse_log(rewrite_log(&history).as_bytes());
    let restored = load_history(&entries, &vec![true, true]);
    assert_eq!(restored.len(), 2);
    for i in 0..2 {
        assert_eq!(restored[i].content, history[i].content);
        assert_eq!(restored[i].is_image, history[i].is_image);
        assert_eq!(restored[i].is_favorite, history[i].is_favorite);
        assert_eq!(restored[i].has_preview, history[i].is_image);
        assert!(!restored[i].expanded);
        assert_eq!(restored[i].datetime.civil, t);
    }
}

#[test]
fn items_survive_but_for_white_space() {
    let t = civil(2024, 6, 15, 12, 30, 0);
    let history = vec![
        item(t, " a\nb \n", false, true),
        item(t, " \n\t", false, true),
        item(t, "", false, false),
        item(t, "c", false, false),
    ];
    let entries = parse_log(rewrite_log(&history).as_bytes());
    let restored = load_history(&entries, &vec![false, false]);
    assert_eq!(restored.len(), 2);
    assert_eq!(restored[0].content, " a b");
    assert!(restored[0].is_favorite);
    assert_eq!(restored[1].content, "c");
}

#[test]
fn parts_of_a_file() {
    let first = b"[2024-03-09 08:05:07] REG TEXT: a\r\n\xFF\n[] x: b\n";
    let second = b"nothing\n[] FAV: c";
    let mut whole = first.to_vec();
    whole.extend_from_slice(second);
    let mut parts = parse_log(first);
    parts.extend(parse_log(second));
    assert_eq!(parse_log(&whole), parts);
    assert_eq!(parts.len(), 3);
}

#[test]
fn read_contents_are_on_one_line() {
    let bytes = b"[] x:  a \t\r\n[] x: \n[] x: \xC2\xA0\n[] x: b\xE3\x80\x80\n";
    assert_eq!(
        parse_log(bytes),
        vec![entry(None, " a", false, false), entry(None, "b", false, false)]
    );
}

#[test]
fn line_of_a_favorite_image() {
    assert_eq!(
        parse_line("[2024-03-09 08:05:07] FAV IMAGE: a.png"),
        Some(entry(Some(civil(2024, 3, 9, 8, 5, 7)), "a.png", true, true))
    );
}

#[test]
fn lines_without_an_entry() {
    assert_eq!(parse_line(""), None);
    assert_eq!(parse_line("no brackets: here"), None);
    assert_eq!(parse_line("[2024-03-09 08:05:07 REG TEXT: x"), None);
    assert_eq!(parse_line("2024-03-09 08:05:07] REG TEXT: x"), None);
    assert_eq!(parse_line("[2024-03-09 08:05:07] REG TEXT:"), None);
    assert_eq!(parse_line("[2024-03-09 08:05:07] REG TEXT: "), None);
    assert_eq!(parse_line("[2024-03-09 08:05:07]"), None);
}

#[test]
fn lines_with_odd_parts() {
    assert_eq!(parse_line("[] : x"), Some(entry(None, "x", false, false)));
    assert_eq!(parse_line("[] a: x"), Some(entry(None, "x", false, false)));
    assert_eq!(
        parse_line("junk [2023-02-29 00:00:00] FAVOURITE: x"),
        Some(entry(None, "x", false, true))
    );
    assert_eq!(
        parse_line("[2024-03-09 08:05:07] THE IMAGE IS: x: y"),
        Some(entry(Some(civil(2024, 3, 9, 8, 5, 7)), "x: y", true, false))
    );
    assert_eq!(
        parse_line("[2024-03-09 08:05:07]REG TEXT: IMAGE"),
        Some(entry(Some(civil(2024, 3, 9, 8, 5, 7)), "IMAGE", false, false))
    );
    assert_eq!(parse_line("[09.03.2024] REG TEXT: x"), Some(entry(None, "x", false, false)));
}

#[test]
fn parts_of_a_line() {
    assert_eq!(read_stamp("a [b c] d [e]"), Some("b c".to_string()));
    assert_eq!(read_stamp("[]"), Some(String::new()));
    assert_eq!(read_stamp("a b"), None);
    let time = Some(civil(2000, 1, 1, 0, 0, 0));
    assert_eq!(read_entry("[x] FAV TEXT: a", time), Some(entry(time, "a", false, true)));
    assert_eq!(read_entry("[x] FAV TEXT: a", None), Some(entry(None, "a", false, true)));
    assert_eq!(read_entry("FAV TEXT: a", time), None);
}

#[test]
fn readable_lines() {
    assert!(is_readable_line("[a] b"));
    assert!(is_readable_line("a] b"));
    assert!(is_readable_line("[a b"));
    assert!(is_readable_line(""));
    assert!(!is_readable_line("a] [b"));
    assert!(is_readable_file(b"[a] b\n]\n\xFF] [\n"));
    assert!(!is_readable_file(b"[a] b\n] ["));
}

#[test]
fn files_with_odd_lines() {
    let bytes = b"[2024-03-09 08:05:07] REG TEXT: a\r\n\n\xFF\xFE[]: x\nnothing\n[2024-03-09 08:05:08] FAV TEXT: b";
    assert!(is_readable_file(bytes));
    assert_eq!(
        parse_log(bytes),
        vec![
            entry(Some(civil(2024, 3, 9, 8, 5, 7)), "a", false, false),
            entry(Some(civil(2024, 3, 9, 8, 5, 8)), "b", false, true),
        ]
    );
}

#[test]
fn restored_items() {
    let e = entry(Some(civil(2024, 3, 9, 8, 5, 7)), "a.png", true, true);
    let found = local(civil(2024, 3, 9, 8, 5, 7));
    let now = local(civil(2025, 1, 1, 0, 0, 0));
    let there = restore_item(&e, Some(found), now, true);
    assert_eq!(there.datetime, found);
    assert_eq!(there.content, "a.png");
    assert!(there.is_image && there.has_preview && there.is_favorite && !there.expanded);
    let gone = restore_item(&e, None, now, false);
    assert_eq!(gone.datetime, now);
    assert!(gone.is_image && !gone.has_preview);
    let text = restore_item(&entry(None, "a", false, false), None, now, true);
    assert!(!text.is_image && !text.has_preview && !text.is_favorite);
}

#[test]
fn entries_without_a_time_are_dated_now() {
    let log = vec![entry(None, "x", false, false)];
    let first = load_history(&log, &vec![false]);
    assert!(first[0].datetime.civil.year >= 2024);
    assert_eq!(first[0].content, "x");
}
