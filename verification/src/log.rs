//! The log: the history as a text file, one line for each item.

use vstd::prelude::*;
use vstd::slice::slice_subrange;
use vstd::slice::slice_to_vec;
use vstd::string::StringExecFns;

use crate::calendar;
use crate::calendar::CivilTime;
use crate::calendar::LocalTime;
use crate::calendar::format_time;
use crate::calendar::present_time;
use crate::calendar::parse_time;
use crate::calendar::resolve_time;
use crate::history;
use crate::history::HistoryItem;
use crate::history::ItemView;
use crate::readback;
use crate::text;
use crate::text::chars_of;
use crate::text::find_char;
use crate::text::find_text;
use crate::text::starts_with;
use crate::text::string_of;
use crate::text::trim;

verus! {

/// A text on one line: each line break becomes a space.
pub open spec fn flat(s: Seq<char>) -> Seq<char> {
    s.map_values(|c: char| if c == '\n' { ' ' } else { c })
}

/// The start of an item's line, up to its content.
pub open spec fn log_head(item: ItemView) -> Seq<char> {
    "["@ + calendar::formatted(calendar::log_time_format(), 0, item.datetime.civil) + "] "@
        + log_tags(item)
}

/// The marks of an item in its line.
pub open spec fn log_tags(item: ItemView) -> Seq<char> {
    (if item.is_favorite { "FAV"@ } else { "REG"@ }) + " "@ + (if item.is_image {
        "IMAGE"@
    } else {
        "TEXT"@
    }) + ": "@
}

/// An item's line, with the line break that ends it.
pub open spec fn log_record(item: ItemView) -> Seq<char> {
    (log_head(item) + flat(item.content)).push('\n')
}

/// The log of a history.
pub open spec fn log_text(history: Seq<ItemView>) -> Seq<char> {
    history.flat_map(|item: ItemView| log_record(item))
}

/// Appends `s` to `out`, each line break as a space.
fn push_flat(out: &mut String, s: &str)
    ensures
        final(out)@ == old(out)@ + flat(s@),
{
    let chars = chars_of(s);
    let ghost start = out@;
    for i in 0..chars.len()
        invariant
            chars@ == s@,
            out@ == start + flat(s@).take(i as int),
    {
        if chars[i] == '\n' {
            out.push(' ');
        } else {
            out.push(chars[i]);
        }
    }
    assert(flat(s@).take(s@.len() as int) == flat(s@));
}

/// The log of `history`, as it is to be written to the log file.
pub fn rewrite_log(history: &Vec<HistoryItem>) -> (log: String)
    requires
        history::all_wf(history::items(history@)),
    ensures
        log@ == log_text(history::items(history@)),
{
    let mut log = String::new();
    let ghost h = history::items(history@);
    for i in 0..history.len()
        invariant
            h == history::items(history@),
            history::all_wf(h),
            log@ == log_text(h.take(i as int)),
    {
        let item = &history[i];
        assert(h[i as int] == item@);
        proof {
            calendar::lemma_plain_formats();
            h.lemma_flat_map_take_append(|item: ItemView| log_record(item), i as int);
        }
        log.append("[");
        log.append(format_time(&item.datetime.civil, "%Y-%m-%d %H:%M:%S").as_str());
        log.append("] ");
        log.append(if item.is_favorite { "FAV" } else { "REG" });
        log.append(" ");
        log.append(if item.is_image { "IMAGE" } else { "TEXT" });
        log.append(": ");
        push_flat(&mut log, item.content.as_str());
        log.push('\n');
        assert(log@ == log_text(h.take(i as int)) + log_record(item@));
    }
    assert(h.take(h.len() as int) == h);
    log
}

/// What a line of the log says of an item.
#[derive(Debug, PartialEq, Eq)]
pub struct LogEntry {
    /// The time in the line, if it is one.
    pub time: Option<CivilTime>,
    /// The text, or the name of the image's file.
    pub content: String,
    /// Whether it is an image.
    pub is_image: bool,
    /// Whether it is a favorite.
    pub is_favorite: bool,
}

/// The model of a [`LogEntry`].
pub struct EntryView {
    pub time: Option<CivilTime>,
    pub content: Seq<char>,
    pub is_image: bool,
    pub is_favorite: bool,
}

impl View for LogEntry {
    type V = EntryView;

    open spec fn view(&self) -> EntryView {
        EntryView {
            time: self.time,
            content: self.content@,
            is_image: self.is_image,
            is_favorite: self.is_favorite,
        }
    }
}

/// The models of a list of entries.
pub open spec fn entries(list: Seq<LogEntry>) -> Seq<EntryView> {
    list.map_values(|e: LogEntry| e@)
}

/// The text between the first `[` and the first `]` of a line.
pub open spec fn stamp_of(line: Seq<char>) -> Option<Seq<char>> {
    match (line.index_of_first('['), line.index_of_first(']')) {
        (Some(open), Some(close)) => Some(line.subrange(open + 1, close)),
        _ => None,
    }
}

/// No `]` of the line stands before its first `[`, unless it has no `[`.
pub open spec fn is_readable(line: Seq<char>) -> bool {
    match (line.index_of_first('['), line.index_of_first(']')) {
        (Some(open), Some(close)) => open < close,
        _ => true,
    }
}

/// The entry of a line whose brackets hold `time`, if it is one: after them come the
/// marks up to the first `: `, then the content. A line without brackets, or without
/// `: `, has none.
pub open spec fn entry_at(line: Seq<char>, time: Option<CivilTime>) -> Option<EntryView> {
    match (stamp_of(line), line.index_of_first(']')) {
        (Some(_), Some(close)) => {
            let rest = text::trim_end(text::trim_start(line.skip(close + 1)));
            match text::first_occurrence(rest, ": "@) {
                Some(sep) => Some(
                    EntryView {
                        time,
                        content: rest.skip(sep + 2),
                        is_image: text::contains_text(rest.take(sep), "IMAGE"@),
                        is_favorite: "FAV"@.is_prefix_of(rest),
                    },
                ),
                None => None,
            }
        },
        _ => None,
    }
}

/// The entry of a line.
pub open spec fn entry_of(line: Seq<char>) -> Option<EntryView> {
    match stamp_of(line) {
        Some(stamp) => entry_at(line, calendar::parsed_time(stamp, calendar::log_time_format())),
        None => None,
    }
}

/// Whether `line` can be parsed: no `]` stands before its first `[`.
pub fn is_readable_line(line: &str) -> (r: bool)
    ensures
        r == is_readable(line@),
{
    let chars = chars_of(line);
    match (find_char(&chars, '['), find_char(&chars, ']')) {
        (Some(open), Some(close)) => open < close,
        _ => true,
    }
}

/// The text between the brackets of `line`.
pub fn read_stamp(line: &str) -> (r: Option<String>)
    requires
        is_readable(line@),
    ensures
        match r {
            Some(stamp) => stamp_of(line@) == Some(stamp@),
            None => stamp_of(line@) is None,
        },
{
    let chars = chars_of(line);
    proof {
        chars@.index_of_first_ensures('[');
        chars@.index_of_first_ensures(']');
    }
    match (find_char(&chars, '['), find_char(&chars, ']')) {
        (Some(open), Some(close)) => {
            assert(open < close < chars.len());
            Some(string_of(slice_subrange(&chars, open + 1, close)))
        },
        _ => None,
    }
}

/// The entry of `line`, whose brackets hold `time`, if it is one.
pub fn read_entry(line: &str, time: Option<CivilTime>) -> (r: Option<LogEntry>)
    requires
        is_readable(line@),
    ensures
        match r {
            Some(e) => entry_at(line@, time) == Some(e@),
            None => entry_at(line@, time) is None,
        },
{
    let chars = chars_of(line);
    proof {
        chars@.index_of_first_ensures('[');
        chars@.index_of_first_ensures(']');
    }
    match (find_char(&chars, '['), find_char(&chars, ']')) {
        (Some(open), Some(close)) => {
            assert(open < close < chars.len());
            let tail = slice_subrange(&chars, close + 1, chars.len());
            assert(tail@ == chars@.skip(close + 1));
            let rest = trim(tail);
            let separator = chars_of(": ");
            proof {
                reveal_strlit(": ");
            }
            match find_text(rest, &separator) {
                Some(sep) => {
                    assert(sep + 2 <= rest.len());
                    let kind = slice_subrange(rest, 0, sep);
                    assert(kind@ == rest@.take(sep as int));
                    let content = slice_subrange(rest, sep + 2, rest.len());
                    assert(content@ == rest@.skip(sep + 2));
                    Some(
                        LogEntry {
                            time,
                            content: string_of(content),
                            is_image: find_text(kind, &chars_of("IMAGE")).is_some(),
                            is_favorite: starts_with(rest, &chars_of("FAV")),
                        },
                    )
                },
                None => None,
            }
        },
        _ => None,
    }
}

/// The entry of `line`.
pub fn parse_line(line: &str) -> (r: Option<LogEntry>)
    requires
        is_readable(line@),
    ensures
        match r {
            Some(e) => entry_of(line@) == Some(e@),
            None => entry_of(line@) is None,
        },
        r matches Some(e) ==> (e.time matches Some(t) ==> t.valid()),
        stamp_of(line@) matches Some(stamp) ==> calendar::reads_back(stamp),
{
    match read_stamp(line) {
        Some(stamp) => {
            proof {
                calendar::lemma_plain_formats();
            }
            let time = parse_time(stamp.as_str(), "%Y-%m-%d %H:%M:%S");
            read_entry(line, time)
        },
        None => None,
    }
}

/// A line's bytes without the carriage return that may end them.
pub open spec fn without_return(bytes: Seq<u8>) -> Seq<u8> {
    if bytes.len() > 0 && bytes.last() == 0x0D {
        bytes.drop_last()
    } else {
        bytes
    }
}

/// The lines of a file: what stands before each line break, without the carriage
/// return of a `\r\n`, and what follows the last one, if anything does.
pub open spec fn raw_lines(bytes: Seq<u8>) -> Seq<Seq<u8>>
    decreases bytes.len(),
{
    proof {
        bytes.index_of_first_ensures(0x0A);
    }
    match bytes.index_of_first(0x0A) {
        Some(end) => seq![without_return(bytes.take(end))] + raw_lines(bytes.skip(end + 1)),
        None => if bytes.len() == 0 {
            Seq::empty()
        } else {
            seq![bytes]
        },
    }
}

/// The entry of a line of bytes; one that is not UTF-8 has none.
pub open spec fn raw_entry(line: Seq<u8>) -> Option<EntryView> {
    if vstd::utf8::valid_utf8(line) {
        entry_of(vstd::utf8::decode_utf8(line))
    } else {
        None
    }
}

/// The entries of a log file, in its order.
pub open spec fn log_entries(bytes: Seq<u8>) -> Seq<EntryView> {
    raw_lines(bytes).filter_map(|line: Seq<u8>| raw_entry(line))
}

/// Every line of the file that is UTF-8 is readable.
pub open spec fn is_readable_log(bytes: Seq<u8>) -> bool {
    forall|i: int|
        0 <= i < raw_lines(bytes).len() && vstd::utf8::valid_utf8(#[trigger] raw_lines(bytes)[i])
            ==> is_readable(vstd::utf8::decode_utf8(raw_lines(bytes)[i]))
}

/// [`String::from_utf8`]: the text that `bytes` encode; none if they are not UTF-8.
#[verifier::external_body]
fn utf8_text(bytes: Vec<u8>) -> (r: Option<String>)
    ensures
        r is Some <==> vstd::utf8::valid_utf8(bytes@),
        r matches Some(s) ==> vstd::utf8::encode_utf8(s@) == bytes@,
{
    String::from_utf8(bytes).ok()
}

/// The position of the first line break in `bytes` from `from` on.
fn find_line_break(bytes: &[u8], from: usize) -> (r: Option<usize>)
    requires
        from <= bytes@.len(),
    ensures
        match r {
            Some(i) => from <= i < bytes@.len() && bytes@.skip(from as int).index_of_first(0x0A)
                == Some(i - from),
            None => bytes@.skip(from as int).index_of_first(0x0A) is None,
        },
{
    let ghost rest = bytes@.skip(from as int);
    proof {
        rest.index_of_first_ensures(0x0A);
    }
    for i in from..bytes.len()
        invariant
            from <= bytes@.len(),
            rest == bytes@.skip(from as int),
            forall|j: int| 0 <= j < i - from ==> rest[j] != 0x0A,
            match rest.index_of_first(0x0A) {
                Some(k) => 0 <= k < rest.len() && rest[k] == 0x0A && (forall|j: int|
                    0 <= j < k ==> rest[j] != 0x0A),
                None => !rest.contains(0x0A),
            },
    {
        assert(bytes@[i as int] == rest[i - from]);
        if bytes[i] == 0x0A {
            return Some(i);
        }
    }
    None
}

/// The lines of a file, each as far as it is UTF-8 as a text.
fn split_lines(bytes: &[u8]) -> (lines: Vec<Option<String>>)
    ensures
        lines@.len() == raw_lines(bytes@).len(),
        forall|i: int|
            0 <= i < lines@.len() ==> (match #[trigger] lines@[i] {
                Some(s) => vstd::utf8::encode_utf8(s@) == raw_lines(bytes@)[i],
                None => !vstd::utf8::valid_utf8(raw_lines(bytes@)[i]),
            }),
{
    let mut lines: Vec<Option<String>> = Vec::new();
    let mut from: usize = 0;
    let ghost mut done: Seq<Seq<u8>> = Seq::empty();
    assert(bytes@.skip(0) == bytes@);
    assert(raw_lines(bytes@) == done + raw_lines(bytes@));
    while from < bytes.len()
        invariant
            from <= bytes@.len(),
            raw_lines(bytes@) == done + raw_lines(bytes@.skip(from as int)),
            lines@.len() == done.len(),
            forall|i: int|
                0 <= i < lines@.len() ==> (match #[trigger] lines@[i] {
                    Some(s) => vstd::utf8::encode_utf8(s@) == done[i],
                    None => !vstd::utf8::valid_utf8(done[i]),
                }),
        decreases bytes@.len() - from,
    {
        let ghost rest = bytes@.skip(from as int);
        let line: &[u8];
        let next: usize;
        proof {
            Seq::<u8>::empty().index_of_first_ensures(0x0A);
        }
        match find_line_break(bytes, from) {
            Some(end) => {
                assert(bytes@.subrange(from as int, end as int) == rest.take(end - from));
                assert(rest.skip(end - from + 1) == bytes@.skip(end + 1));
                if from < end && bytes[end - 1] == 0x0D {
                    line = slice_subrange(bytes, from, end - 1);
                } else {
                    line = slice_subrange(bytes, from, end);
                }
                assert(line@ == without_return(rest.take(end - from)));
                next = end + 1;
            },
            None => {
                line = slice_subrange(bytes, from, bytes.len());
                next = bytes.len();
                assert(line@ == rest);
                assert(bytes@.skip(next as int) == Seq::<u8>::empty());
            },
        }
        assert(raw_lines(rest) == seq![line@] + raw_lines(bytes@.skip(next as int)));
        lines.push(utf8_text(slice_to_vec(line)));
        proof {
            assert(done + (seq![line@] + raw_lines(bytes@.skip(next as int))) == done.push(line@)
                + raw_lines(bytes@.skip(next as int)));
            done = done.push(line@);
        }
        from = next;
    }
    proof {
        Seq::<u8>::empty().index_of_first_ensures(0x0A);
    }
    assert(bytes@.skip(from as int) == Seq::<u8>::empty());
    assert(done + Seq::<Seq<u8>>::empty() == done);
    lines
}

/// Whether the log file `bytes` can be parsed: no line of it has a `]` before its
/// first `[`.
pub fn is_readable_file(bytes: &[u8]) -> (r: bool)
    ensures
        r == is_readable_log(bytes@),
{
    let lines = split_lines(bytes);
    for i in 0..lines.len()
        invariant
            lines@.len() == raw_lines(bytes@).len(),
            forall|j: int|
                0 <= j < lines@.len() ==> (match #[trigger] lines@[j] {
                    Some(s) => vstd::utf8::encode_utf8(s@) == raw_lines(bytes@)[j],
                    None => !vstd::utf8::valid_utf8(raw_lines(bytes@)[j]),
                }),
            forall|j: int|
                0 <= j < i && vstd::utf8::valid_utf8(#[trigger] raw_lines(bytes@)[j])
                    ==> is_readable(vstd::utf8::decode_utf8(raw_lines(bytes@)[j])),
    {
        let ghost raw = raw_lines(bytes@)[i as int];
        if let Some(line) = &lines[i] {
            proof {
                vstd::utf8::encode_utf8_decode_utf8(line@);
                vstd::utf8::encode_utf8_valid_utf8(line@);
            }
            if !is_readable_line(line.as_str()) {
                assert(lines@[i as int] is Some);
                return false;
            }
        }
        assert(lines@[i as int] is None ==> !vstd::utf8::valid_utf8(raw));
    }
    true
}

/// Every time in the entries exists.
pub open spec fn times_valid(list: Seq<EntryView>) -> bool {
    forall|i: int|
        0 <= i < list.len() ==> ((#[trigger] list[i]).time matches Some(t) ==> t.valid())
}

/// The entries of the log file `bytes`. If it is the log of a history, they are what
/// the log keeps of that history.
pub fn parse_log(bytes: &[u8]) -> (list: Vec<LogEntry>)
    requires
        is_readable_log(bytes@),
    ensures
        entries(list@) == log_entries(bytes@),
        times_valid(entries(list@)),
        forall|h: Seq<ItemView>|
            history::all_wf(h) && bytes@ == #[trigger] vstd::utf8::encode_utf8(log_text(h))
                ==> entries(list@) == readback::kept_entries(h),
{
    let lines = split_lines(bytes);
    let ghost raw = raw_lines(bytes@);
    let ghost f = |line: Seq<u8>| raw_entry(line);
    let mut list: Vec<LogEntry> = Vec::new();
    assert(entries(list@) == raw.take(0).filter_map(f));
    for i in 0..lines.len()
        invariant
            raw == raw_lines(bytes@),
            f == (|line: Seq<u8>| raw_entry(line)),
            lines@.len() == raw.len(),
            is_readable_log(bytes@),
            forall|j: int|
                0 <= j < lines@.len() ==> (match #[trigger] lines@[j] {
                    Some(s) => vstd::utf8::encode_utf8(s@) == raw[j],
                    None => !vstd::utf8::valid_utf8(raw[j]),
                }),
            entries(list@) == raw.take(i as int).filter_map(f),
            times_valid(entries(list@)),
            forall|j: int|
                0 <= j < i && vstd::utf8::valid_utf8(#[trigger] raw[j]) ==> (stamp_of(
                    vstd::utf8::decode_utf8(raw[j]),
                ) matches Some(stamp) ==> calendar::reads_back(stamp)),
    {
        let ghost before = entries(list@);
        proof {
            raw.lemma_filter_map_take_succ(f, i as int);
        }
        if let Some(line) = &lines[i] {
            proof {
                vstd::utf8::encode_utf8_decode_utf8(line@);
                vstd::utf8::encode_utf8_valid_utf8(line@);
                assert(lines@[i as int] is Some);
            }
            if let Some(entry) = parse_line(line.as_str()) {
                list.push(entry);
                assert(entries(list@) == before.push(entry@));
            }
        } else {
            assert(lines@[i as int] is None);
        }
    }
    proof {
        assert(raw.take(raw.len() as int) == raw);
        assert(readback::stamps_read_back(bytes@));
        assert forall|h: Seq<ItemView>|
            history::all_wf(h) && bytes@ == #[trigger] vstd::utf8::encode_utf8(
                log_text(h),
            ) implies entries(list@) == readback::kept_entries(h) by {
            readback::lemma_log_entries(h);
        }
    }
    list
}

/// The item of an entry: at the time that was found for it, or else now.
pub open spec fn restored(
    entry: EntryView,
    resolved: Option<LocalTime>,
    now: LocalTime,
    has_file: bool,
) -> ItemView {
    ItemView {
        datetime: match resolved {
            Some(time) => time,
            None => now,
        },
        content: entry.content,
        is_image: entry.is_image,
        has_preview: entry.is_image && has_file,
        expanded: false,
        is_favorite: entry.is_favorite,
    }
}

/// The item of `entry`, where `resolved` is the point in time that was found for the
/// entry's time, `now` the present one, and `has_file` tells whether there is a file
/// of its name among the captures.
pub fn restore_item(
    entry: &LogEntry,
    resolved: Option<LocalTime>,
    now: LocalTime,
    has_file: bool,
) -> (item: HistoryItem)
    ensures
        item@ == restored(entry@, resolved, now, has_file),
{
    HistoryItem {
        datetime: match resolved {
            Some(time) => time,
            None => now,
        },
        content: entry.content.clone(),
        is_image: entry.is_image,
        has_preview: entry.is_image && has_file,
        expanded: false,
        is_favorite: entry.is_favorite,
    }
}

/// `resolved` is what the machine's time zone gave for the entry's time; nothing, if the
/// entry has no time.
pub open spec fn is_resolution(entry: EntryView, resolved: Option<LocalTime>) -> bool {
    match entry.time {
        Some(t) => calendar::is_resolution_of(t, resolved) && (resolved matches Some(l) ==> l.wf()
            && l.civil == t),
        None => resolved is None,
    }
}

/// `item` is the item of `entry`, for what the time zone gave for its time, and what the
/// clock gave for the present one.
pub open spec fn is_restored(entry: EntryView, has_file: bool, item: ItemView) -> bool {
    exists|resolved: Option<LocalTime>, now: LocalTime|
        is_resolution(entry, resolved) && calendar::is_present(now) && now.wf() && item
            == #[trigger] restored(entry, resolved, now, has_file)
}

/// The history of the entries `log`, in their order; `has_file[i]` tells whether there
/// is a file of the name of the entry `i` among the captures. An entry has the point in
/// time that the machine's time zone gives for its time; only one without a time, or for
/// whose time the zone gives none, is dated now.
pub fn load_history(log: &Vec<LogEntry>, has_file: &Vec<bool>) -> (history: Vec<HistoryItem>)
    requires
        log@.len() == has_file@.len(),
        times_valid(entries(log@)),
    ensures
        history@.len() == log@.len(),
        history::all_wf(history::items(history@)),
        forall|i: int|
            0 <= i < history@.len() ==> is_restored(
                log@[i]@,
                has_file@[i],
                (#[trigger] history@[i])@,
            ),
{
    let mut history: Vec<HistoryItem> = Vec::new();
    for i in 0..log.len()
        invariant
            log@.len() == has_file@.len(),
            times_valid(entries(log@)),
            history@.len() == i,
            history::all_wf(history::items(history@)),
            forall|j: int|
                0 <= j < history@.len() ==> is_restored(
                    log@[j]@,
                    has_file@[j],
                    (#[trigger] history@[j])@,
                ),
    {
        let entry = &log[i];
        assert(entries(log@)[i as int] == entry@);
        let resolved = match &entry.time {
            Some(time) => resolve_time(time),
            None => None,
        };
        let now = present_time();
        let item = restore_item(entry, resolved, now, has_file[i]);
        assert(is_restored(entry@, has_file@[i as int], item@)) by {
            assert(is_resolution(entry@, resolved));
        }
        let ghost before = history::items(history@);
        history.push(item);
        assert(history::items(history@) == before.push(item@));
    }
    history
}

/// The model of an entry holds all of it.
pub proof fn law_entry_models(entry: LogEntry, list: Seq<LogEntry>)
    ensures
        entry@.time == entry.time && entry@.content == entry.content@,
        entry@.is_image == entry.is_image && entry@.is_favorite == entry.is_favorite,
        entries(list).len() == list.len(),
        forall|i: int| 0 <= i < list.len() ==> #[trigger] entries(list)[i] == list[i]@,
{
}

} // verus!
