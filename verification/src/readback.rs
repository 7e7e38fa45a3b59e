//! What reading the log gives back of what was written to it.

use vstd::prelude::*;
use vstd::utf8::*;

use crate::calendar;
use crate::calendar::CivilTime;
use crate::calendar::LocalTime;
use crate::history;
use crate::history::ItemView;
use crate::log;
use crate::log::EntryView;
use crate::state;
use crate::text;

verus! {

/// What the log keeps of an item: the time to the second, the marks, and the content
/// on one line without the white space that ends it. Of an item without any other
/// content it keeps nothing.
pub open spec fn kept(item: ItemView) -> Option<EntryView> {
    let content = text::trim_end(log::flat(item.content));
    if content.len() == 0 {
        None
    } else {
        Some(
            EntryView {
                time: Some(item.datetime.civil.whole_second()),
                content,
                is_image: item.is_image,
                is_favorite: item.is_favorite,
            },
        )
    }
}

/// What the log keeps of a history.
pub open spec fn kept_entries(history: Seq<ItemView>) -> Seq<EntryView> {
    history.filter_map(|item: ItemView| kept(item))
}

/// The times in the lines of a file read back.
pub open spec fn stamps_read_back(bytes: Seq<u8>) -> bool {
    forall|i: int|
        0 <= i < log::raw_lines(bytes).len() && valid_utf8(#[trigger] log::raw_lines(bytes)[i])
            ==> (log::stamp_of(decode_utf8(log::raw_lines(bytes)[i])) matches Some(stamp)
            ==> calendar::reads_back(stamp))
}

/// The encoding of a concatenation.
proof fn lemma_encode_concat(a: Seq<char>, b: Seq<char>)
    ensures
        encode_utf8(a + b) == encode_utf8(a) + encode_utf8(b),
    decreases a.len(),
{
    if a.len() == 0 {
        assert(a + b == b);
    } else {
        assert((a + b).drop_first() == a.drop_first() + b);
        lemma_encode_concat(a.drop_first(), b);
    }
}

/// The bytes of a character other than the line break are not line breaks.
proof fn lemma_scalar_no_break(c: u32)
    requires
        is_scalar(c),
        c != 0x0A,
    ensures
        !encode_scalar(c).contains(0x0A),
{
    if has_width_1_encoding(c) {
        assert((c & 0x7F) as u8 != 0x0A) by (bit_vector)
            requires
                c <= 0x7F,
                c != 0x0A,
        ;
    } else {
        assert((0xC0 | ((c >> 6) & 0x1F) as u8) != 0x0Au8) by (bit_vector);
        assert((0xE0 | ((c >> 12) & 0x0F) as u8) != 0x0Au8) by (bit_vector);
        assert((0xF0 | ((c >> 18) & 0x7) as u8) != 0x0Au8) by (bit_vector);
        assert((0x80 | (c & 0x3F) as u8) != 0x0Au8) by (bit_vector);
        assert((0x80 | ((c >> 6) & 0x3F) as u8) != 0x0Au8) by (bit_vector);
        assert((0x80 | ((c >> 12) & 0x3F) as u8) != 0x0Au8) by (bit_vector);
    }
}

/// The encoding of a text without line breaks has none.
proof fn lemma_encode_no_break(s: Seq<char>)
    requires
        !s.contains('\n'),
    ensures
        !encode_utf8(s).contains(0x0A),
    decreases s.len(),
{
    if s.len() > 0 {
        let rest = s.drop_first();
        assert(s[0] != '\n');
        assert(!rest.contains('\n')) by {
            assert forall|i: int| 0 <= i < rest.len() implies rest[i] != '\n' by {
                assert(rest[i] == s[i + 1]);
            }
        }
        char_is_scalar(s[0]);
        char_u32_cast(s[0], s[0] as u32);
        lemma_scalar_no_break(s[0] as u32);
        lemma_encode_no_break(rest);
        let head = encode_scalar(s[0] as u32);
        let tail = encode_utf8(rest);
        assert forall|i: int| 0 <= i < (head + tail).len() implies (head + tail)[i] != 0x0A by {
            if i < head.len() {
                assert(head.contains(head[i]));
            } else {
                assert(tail.contains(tail[i - head.len()]));
            }
        }
    }
}

/// The encoding of a text that ends in an ASCII character ends in its byte.
proof fn lemma_encode_last(s: Seq<char>)
    requires
        s.len() > 0,
    ensures
        encode_utf8(s) == encode_utf8(s.drop_last()) + encode_scalar(s.last() as u32),
{
    lemma_encode_concat(s.drop_last(), seq![s.last()]);
    assert(s.drop_last() + seq![s.last()] == s);
    reveal_with_fuel(encode_utf8, 2);
    assert(seq![s.last()].drop_first() == Seq::<char>::empty());
    assert(encode_scalar(s.last() as u32) + Seq::<u8>::empty() == encode_scalar(s.last() as u32));
}

/// Only a carriage return has the byte of one at the end of its encoding.
proof fn lemma_scalar_return(c: u32)
    requires
        is_scalar(c),
    ensures
        encode_scalar(c).len() > 0,
        encode_scalar(c).last() == 0x0D <==> c == 0x0D,
        c == 0x0D ==> encode_scalar(c).len() == 1,
{
    if has_width_1_encoding(c) {
        assert((c & 0x7F) as u8 == 0x0D <==> c == 0x0D) by (bit_vector)
            requires
                c <= 0x7F,
        ;
    } else {
        assert((0x80 | (c & 0x3F) as u8) != 0x0Du8) by (bit_vector);
    }
}

/// A text without the carriage return that may end it.
pub open spec fn chomped(s: Seq<char>) -> Seq<char> {
    if s.len() > 0 && s.last() == '\r' {
        s.drop_last()
    } else {
        s
    }
}

/// Taking the carriage return off the bytes takes it off the text.
proof fn lemma_without_return(s: Seq<char>)
    ensures
        log::without_return(encode_utf8(s)) == encode_utf8(chomped(s)),
{
    if s.len() > 0 {
        lemma_encode_last(s);
        char_is_scalar(s.last());
        char_u32_cast(s.last(), s.last() as u32);
        lemma_scalar_return(s.last() as u32);
        let tail = encode_scalar(s.last() as u32);
        let bytes = encode_utf8(s);
        assert(bytes.last() == tail.last());
        if s.last() == '\r' {
            assert(bytes.drop_last() == encode_utf8(s.drop_last()));
        } else {
            assert(s.last() as u32 != 0x0D);
        }
    }
}

/// The lines of a file that begins with a line.
proof fn lemma_raw_lines_cons(line: Seq<u8>, rest: Seq<u8>)
    requires
        !line.contains(0x0A),
    ensures
        log::raw_lines(line.push(0x0A) + rest) == seq![log::without_return(line)]
            + log::raw_lines(rest),
{
    let all = line.push(0x0A) + rest;
    all.index_of_first_ensures(0x0A);
    assert(all[line.len() as int] == 0x0A);
    assert(all.contains(0x0A));
    let end = all.index_of_first(0x0A)->0;
    assert(end == line.len()) by {
        if end < line.len() {
            assert(line[end] == 0x0A);
        }
    }
    assert(all.take(end) == line);
    assert(all.skip(end + 1) == rest);
}

/// Decimal numbers hold digits only.
proof fn lemma_decimal_digits(n: nat)
    ensures
        forall|i: int| 0 <= i < text::decimal(n).len() ==> '0' <= #[trigger] text::decimal(n)[i] <= '9',
    decreases n,
{
    let d = text::decimal(n);
    if n >= 10 {
        lemma_decimal_digits(n / 10);
        assert(d == text::decimal(n / 10).push(text::digit((n % 10) as int)));
        assert forall|i: int| 0 <= i < d.len() implies '0' <= #[trigger] d[i] <= '9' by {
            if i < d.len() - 1 {
                assert(d[i] == text::decimal(n / 10)[i]);
            }
        }
    }
}

/// A character that is in no number does not come into a field.
proof fn lemma_field_avoids(f: char, t: CivilTime, bad: char)
    requires
        !('0' <= bad <= '9'),
        bad != '+',
        bad != '-',
    ensures
        !calendar::format_field(f, t).contains(bad),
{
    let y = if t.year >= 0 {
        t.year as nat
    } else {
        (-t.year) as nat
    };
    lemma_decimal_digits(y);
    lemma_decimal_digits(t.month as nat);
    lemma_decimal_digits(t.day as nat);
    lemma_decimal_digits(t.hour as nat);
    lemma_decimal_digits(t.minute as nat);
    lemma_decimal_digits((t.second + t.nanosecond / 1_000_000_000) as nat);
}

/// A character that is in no number, and not in the format, does not come into the
/// text.
proof fn lemma_formatted_avoids(format: Seq<char>, i: int, t: CivilTime, bad: char)
    requires
        0 <= i,
        !('0' <= bad <= '9'),
        bad != '+',
        bad != '-',
        !format.contains(bad),
    ensures
        !calendar::formatted(format, i, t).contains(bad),
    decreases format.len() - i,
{
    if i < format.len() {
        if format[i] == '%' && i + 1 < format.len() {
            let a = calendar::format_field(format[i + 1], t);
            let b = calendar::formatted(format, i + 2, t);
            lemma_field_avoids(format[i + 1], t, bad);
            lemma_formatted_avoids(format, i + 2, t, bad);
            lemma_concat_avoids(a, b, bad);
        } else {
            let b = calendar::formatted(format, i + 1, t);
            lemma_formatted_avoids(format, i + 1, t, bad);
            assert(!seq![format[i]].contains(bad)) by {
                assert(format.contains(format[i]));
            }
            lemma_concat_avoids(seq![format[i]], b, bad);
        }
    }
}

/// What two texts avoid, their concatenation avoids.
proof fn lemma_concat_avoids(a: Seq<char>, b: Seq<char>, bad: char)
    requires
        !a.contains(bad),
        !b.contains(bad),
    ensures
        !(a + b).contains(bad),
{
    if (a + b).contains(bad) {
        let i = choose|i: int| 0 <= i < (a + b).len() && (a + b)[i] == bad;
        if i < a.len() {
            assert(a.contains(a[i]));
        } else {
            assert(b.contains(b[i - a.len()]));
        }
    }
}

/// Trimming the end of a concatenation.
proof fn lemma_trim_end_concat(a: Seq<char>, b: Seq<char>)
    ensures
        text::trim_end(a + b) == if text::trim_end(b).len() > 0 {
            a + text::trim_end(b)
        } else {
            text::trim_end(a)
        },
    decreases b.len(),
{
    if b.len() == 0 {
        assert(a + b == a);
    } else if text::is_white(b.last()) {
        assert((a + b).drop_last() == a + b.drop_last());
        lemma_trim_end_concat(a, b.drop_last());
    }
}

/// The marks before the content, up to the colon.
spec fn marks(item: ItemView) -> Seq<char> {
    (if item.is_favorite { "FAV"@ } else { "REG"@ }) + " "@ + (if item.is_image {
        "IMAGE"@
    } else {
        "TEXT"@
    })
}

/// What the marks say.
proof fn lemma_marks(item: ItemView)
    ensures
        marks(item).len() > 4,
        !text::is_white(marks(item)[0]),
        !text::is_white(marks(item).last()),
        !marks(item).contains(':'),
        !marks(item).contains('\n'),
        "FAV"@.is_prefix_of(marks(item)) == item.is_favorite,
        "FAV"@.len() == 3,
        text::contains_text(marks(item), "IMAGE"@) == item.is_image,
{
    reveal_strlit("FAV");
    reveal_strlit("REG");
    reveal_strlit(" ");
    reveal_strlit("IMAGE");
    reveal_strlit("TEXT");
    let m = marks(item);
    if item.is_image {
        assert(m.subrange(4, 9) == "IMAGE"@);
        assert(text::occurs_at(m, "IMAGE"@, 4));
    } else {
        assert forall|i: int| !text::occurs_at(m, "IMAGE"@, i) by {
            if text::occurs_at(m, "IMAGE"@, i) {
                assert(m.subrange(i, i + 5)[0] == 'I');
                assert(m[i] == 'I');
            }
        }
    }
    if !item.is_favorite {
        assert(m[0] == 'R' && "FAV"@[0] == 'F');
        if "FAV"@.is_prefix_of(m) {
            assert(m.subrange(0, 3)[0] == m[0]);
        }
    } else {
        assert(m.subrange(0, 3) == "FAV"@);
    }
}

/// The entry of a line with the marks of `item` and the content `c`.
proof fn lemma_entry_of_line(item: ItemView, c: Seq<char>)
    requires
        item.datetime.civil.valid(),
    ensures
        log::stamp_of(log::log_head(item) + c) == Some(
            calendar::formatted(calendar::log_time_format(), 0, item.datetime.civil),
        ),
        log::is_readable(log::log_head(item) + c),
        calendar::reads_back(log::stamp_of(log::log_head(item) + c)->0) ==> log::entry_of(
            log::log_head(item) + c,
        ) == if text::trim_end(c).len() == 0 {
            None::<EntryView>
        } else {
            Some(
                EntryView {
                    time: Some(item.datetime.civil.whole_second()),
                    content: text::trim_end(c),
                    is_image: item.is_image,
                    is_favorite: item.is_favorite,
                },
            )
        },
{
    let format = calendar::log_time_format();
    let stamp = calendar::formatted(format, 0, item.datetime.civil);
    let line = log::log_head(item) + c;
    let m = marks(item);
    reveal_strlit("%Y-%m-%d %H:%M:%S");
    reveal_strlit("[");
    reveal_strlit("] ");
    reveal_strlit(": ");
    lemma_formatted_avoids(format, 0, item.datetime.civil, ']');
    lemma_marks(item);
    let tail = m + ": "@ + c;
    assert(line == seq!['['] + stamp + seq![']', ' '] + tail);
    // The brackets.
    line.index_of_first_ensures('[');
    line.index_of_first_ensures(']');
    assert(line[0] == '[');
    let close = stamp.len() as int + 1;
    assert(line[close] == ']');
    assert(line.contains('[') && line.contains(']'));
    assert(line.index_of_first('[') == Some(0int));
    assert(line.index_of_first(']') == Some(close)) by {
        let k = line.index_of_first(']')->0;
        if k < close {
            assert(k > 0);
            assert(stamp[k - 1] == ']');
            assert(stamp.contains(stamp[k - 1]));
        }
    }
    assert(line.subrange(1, close) == stamp);
    // The rest of the line, trimmed.
    let after = line.skip(close + 1);
    assert(after == seq![' '] + tail);
    assert(text::trim_start(after) == tail) by {
        assert(after.drop_first() == tail);
        assert(tail[0] == m[0]);
        reveal_with_fuel(text::trim_start, 2);
    }
    let rest = text::trim_end(tail);
    let content = text::trim_end(c);
    lemma_trim_end_concat(m + ": "@, c);
    if content.len() > 0 {
        assert(rest == m + ": "@ + content);
        let sep = m.len() as int;
        assert(rest.subrange(sep, sep + 2) == ": "@);
        assert(text::is_first_occurrence(rest, ": "@, sep)) by {
            assert forall|j: int| 0 <= j < sep implies !text::occurs_at(rest, ": "@, j) by {
                assert(rest[j] == m[j]);
                assert(m.contains(m[j]));
                if text::occurs_at(rest, ": "@, j) {
                    assert(rest.subrange(j, j + 2)[0] == rest[j]);
                }
            }
        }
        text::lemma_first_occurrence(rest, ": "@, sep);
        assert(rest.take(sep) == m);
        assert(rest.skip(sep + 2) == content);
        assert("FAV"@.is_prefix_of(rest) == "FAV"@.is_prefix_of(m)) by {
            assert(rest.subrange(0, 3) == m.subrange(0, 3));
        }
    } else {
        let short = m.push(':');
        assert((m + ": "@).drop_last() == short);
        reveal_with_fuel(text::trim_end, 3);
        assert((m + ": "@).last() == ' ');
        assert(short.last() == ':');
        assert(rest == short);
        assert forall|j: int| !text::occurs_at(rest, ": "@, j) by {
            if text::occurs_at(rest, ": "@, j) {
                assert(rest.subrange(j, j + 2)[0] == rest[j]);
                assert(rest[j] == m[j]);
                assert(m.contains(m[j]));
            }
        }
    }
}

/// The line of an item, without its line break.
spec fn line_of(item: ItemView) -> Seq<char> {
    log::log_head(item) + log::flat(item.content)
}

/// An item's line is one line.
proof fn lemma_line_no_break(item: ItemView)
    ensures
        !line_of(item).contains('\n'),
{
    let format = calendar::log_time_format();
    let stamp = calendar::formatted(format, 0, item.datetime.civil);
    let c = log::flat(item.content);
    reveal_strlit("%Y-%m-%d %H:%M:%S");
    reveal_strlit("[");
    reveal_strlit("] ");
    reveal_strlit(": ");
    lemma_formatted_avoids(format, 0, item.datetime.civil, '\n');
    lemma_marks(item);
    lemma_concat_avoids("["@, stamp, '\n');
    lemma_concat_avoids("["@ + stamp, "] "@, '\n');
    lemma_concat_avoids(marks(item), ": "@, '\n');
    lemma_concat_avoids("["@ + stamp + "] "@, log::log_tags(item), '\n');
    lemma_concat_avoids(log::log_head(item), c, '\n');
}

/// The lines of the file of a log.
proof fn lemma_raw_lines_of_log(h: Seq<ItemView>)
    ensures
        log::raw_lines(encode_utf8(log::log_text(h))).len() == h.len(),
        forall|i: int|
            0 <= i < h.len() ==> #[trigger] log::raw_lines(encode_utf8(log::log_text(h)))[i]
                == encode_utf8(chomped(line_of(h[i]))),
    decreases h.len(),
{
    let bytes = encode_utf8(log::log_text(h));
    let f = |item: ItemView| log::log_record(item);
    if h.len() == 0 {
        bytes.index_of_first_ensures(0x0A);
        assert(h.map_values(f) == Seq::<Seq<char>>::empty());
    } else {
        let rest = h.drop_first();
        let line = line_of(h[0]);
        assert(h.map_values(f).drop_first() == rest.map_values(f));
        assert(log::log_text(h) == log::log_record(h[0]) + log::log_text(rest));
        lemma_encode_concat(log::log_record(h[0]), log::log_text(rest));
        lemma_encode_last(line.push('\n'));
        assert(line.push('\n').drop_last() == line);
        assert((0x0Au32 & 0x7F) as u8 == 0x0Au8) by (bit_vector);
        assert(encode_utf8(line.push('\n')) == encode_utf8(line).push(0x0A));
        lemma_line_no_break(h[0]);
        lemma_encode_no_break(line);
        let tail = encode_utf8(log::log_text(rest));
        lemma_raw_lines_cons(encode_utf8(line), tail);
        lemma_without_return(line);
        lemma_raw_lines_of_log(rest);
        assert forall|i: int| 0 <= i < h.len() implies #[trigger] log::raw_lines(bytes)[i]
            == encode_utf8(chomped(line_of(h[i]))) by {
            if i > 0 {
                assert(log::raw_lines(bytes)[i] == log::raw_lines(tail)[i - 1]);
                assert(h[i] == rest[i - 1]);
            }
        }
    }
}

/// The entry of an item's line, with or without a carriage return at its end.
proof fn lemma_entry_of_item(item: ItemView)
    requires
        item.datetime.civil.valid(),
    ensures
        log::is_readable(chomped(line_of(item))),
        log::stamp_of(chomped(line_of(item))) is Some,
        calendar::reads_back(log::stamp_of(chomped(line_of(item)))->0) ==> log::entry_of(
            chomped(line_of(item)),
        ) == kept(item),
{
    let head = log::log_head(item);
    let c = log::flat(item.content);
    reveal_strlit(": ");
    assert(head.last() == ' ');
    if c.len() > 0 && c.last() == '\r' {
        assert((head + c).drop_last() == head + c.drop_last());
        assert(text::trim_end(c) == text::trim_end(c.drop_last()));
        lemma_entry_of_line(item, c.drop_last());
    } else {
        lemma_entry_of_line(item, c);
    }
}

/// Two lists whose elements are kept alike are kept alike.
proof fn lemma_filter_map_alike<A, B, C>(
    a: Seq<A>,
    b: Seq<B>,
    f: spec_fn(A) -> Option<C>,
    g: spec_fn(B) -> Option<C>,
)
    requires
        a.len() == b.len(),
        forall|i: int| 0 <= i < a.len() ==> f(#[trigger] a[i]) == g(b[i]),
    ensures
        a.filter_map(f) == b.filter_map(g),
    decreases a.len(),
{
    if a.len() > 0 {
        assert forall|i: int| 0 <= i < a.drop_last().len() implies f(#[trigger] a.drop_last()[i])
            == g(b.drop_last()[i]) by {
            assert(a.drop_last()[i] == a[i]);
        }
        lemma_filter_map_alike(a.drop_last(), b.drop_last(), f, g);
        assert(f(a[a.len() - 1]) == g(b[a.len() - 1]));
    }
}

/// The log of a history has one line for each item, whatever its content.
pub proof fn law_one_line_each(history: Seq<ItemView>)
    ensures
        log::raw_lines(encode_utf8(log::log_text(history))).len() == history.len(),
{
    lemma_raw_lines_of_log(history);
}

/// The log of a history can always be parsed.
pub proof fn law_log_is_readable(history: Seq<ItemView>)
    requires
        history::all_wf(history),
    ensures
        log::is_readable_log(encode_utf8(log::log_text(history))),
{
    let raw = log::raw_lines(encode_utf8(log::log_text(history)));
    lemma_raw_lines_of_log(history);
    assert forall|i: int| 0 <= i < raw.len() && valid_utf8(#[trigger] raw[i]) implies
        log::is_readable(decode_utf8(raw[i])) by {
        assert(history[i].datetime.wf());
        encode_utf8_decode_utf8(chomped(line_of(history[i])));
        lemma_entry_of_item(history[i]);
    }
}

/// The log of a history has an entry for each item of which something is kept, in the
/// order of the history, as far as the times in it read back.
pub proof fn lemma_log_entries(history: Seq<ItemView>)
    requires
        history::all_wf(history),
        stamps_read_back(encode_utf8(log::log_text(history))),
    ensures
        log::log_entries(encode_utf8(log::log_text(history))) == kept_entries(history),
{
    let raw = log::raw_lines(encode_utf8(log::log_text(history)));
    lemma_raw_lines_of_log(history);
    let f = |line: Seq<u8>| log::raw_entry(line);
    let g = |item: ItemView| kept(item);
    assert forall|i: int| 0 <= i < raw.len() implies f(#[trigger] raw[i]) == g(history[i]) by {
        assert(history[i].datetime.wf());
        encode_utf8_decode_utf8(chomped(line_of(history[i])));
        encode_utf8_valid_utf8(chomped(line_of(history[i])));
        lemma_entry_of_item(history[i]);
    }
    lemma_filter_map_alike(raw, history, f, g);
}

/// A content as the log leaves it: not empty, without line breaks, and without white
/// space at its end.
pub open spec fn is_log_content(c: Seq<char>) -> bool {
    &&& c.len() > 0
    &&& !c.contains('\n')
    &&& !text::is_white(c.last())
}

/// The log keeps a content as it is that has no line breaks, is not empty, and does not
/// end in white space.
pub proof fn law_plain_content_survives(item: ItemView)
    requires
        is_log_content(item.content),
    ensures
        kept(item) == Some(
            EntryView {
                time: Some(item.datetime.civil.whole_second()),
                content: item.content,
                is_image: item.is_image,
                is_favorite: item.is_favorite,
            },
        ),
{
    let c = item.content;
    assert forall|i: int| 0 <= i < c.len() implies c[i] != '\n' by {
        assert(c.contains(c[i]));
    }
    assert(log::flat(c) == c);
}

/// The log keeps every image that is saved, with the name of its file.
pub proof fn law_captures_survive(name_time: LocalTime, now: LocalTime)
    ensures
        kept(state::fresh(state::capture_name(name_time), true, now)) == Some(
            EntryView {
                time: Some(now.civil.whole_second()),
                content: state::capture_name(name_time),
                is_image: true,
                is_favorite: false,
            },
        ),
{
    let format = "%Y%m%d_%H%M%S"@;
    let stamp = calendar::formatted(format, 0, name_time.civil);
    reveal_strlit("%Y%m%d_%H%M%S");
    reveal_strlit("img_");
    reveal_strlit(".png");
    lemma_formatted_avoids(format, 0, name_time.civil, '\n');
    lemma_concat_avoids("img_"@, stamp, '\n');
    lemma_concat_avoids("img_"@ + stamp, ".png"@, '\n');
    assert(state::capture_name(name_time).last() == 'g');
    law_plain_content_survives(state::fresh(state::capture_name(name_time), true, now));
}

/// What is left of a text without the white space that ends it.
proof fn lemma_trim_end(s: Seq<char>)
    ensures
        text::trim_end(s).is_prefix_of(s),
        text::trim_end(s).len() > 0 ==> !text::is_white(text::trim_end(s).last()),
        text::trim_end(s).len() > 0 <==> has_ink(s),
    decreases s.len(),
{
    if s.len() > 0 && text::is_white(s.last()) {
        let front = s.drop_last();
        lemma_trim_end(front);
        if has_ink(front) {
            let i = choose|i: int| 0 <= i < front.len() && !text::is_white(#[trigger] front[i]);
            assert(s[i] == front[i]);
        }
        if has_ink(s) {
            let i = choose|i: int| 0 <= i < s.len() && !text::is_white(#[trigger] s[i]);
            assert(front[i] == s[i]);
        }
    } else {
        assert(s.subrange(0, s.len() as int) == s);
        if s.len() > 0 {
            assert(!text::is_white(s[s.len() - 1]));
        }
    }
}

/// The text holds something besides white space.
pub open spec fn has_ink(s: Seq<char>) -> bool {
    exists|i: int| 0 <= i < s.len() && !text::is_white(#[trigger] s[i])
}

/// The items that hold something besides white space.
pub open spec fn legible(h: Seq<ItemView>) -> Seq<ItemView> {
    h.filter(|item: ItemView| has_ink(item.content))
}

/// The log keeps something of just those items whose content is more than white space:
/// the time to the second, both marks, and the content on one line without the white space
/// that ends it, which is as the log leaves contents.
pub proof fn law_kept_contents(item: ItemView)
    ensures
        kept(item) is Some <==> has_ink(item.content),
        kept(item) matches Some(entry) ==> {
            &&& is_log_content(entry.content)
            &&& entry.time == Some(item.datetime.civil.whole_second())
            &&& entry.content == text::trim_end(log::flat(item.content))
            &&& entry.is_image == item.is_image
            &&& entry.is_favorite == item.is_favorite
        },
{
    let c = log::flat(item.content);
    let t = text::trim_end(c);
    lemma_trim_end(c);
    if has_ink(item.content) {
        let i = choose|i: int|
            0 <= i < item.content.len() && !text::is_white(#[trigger] item.content[i]);
        assert(c[i] == item.content[i]);
    }
    if has_ink(c) {
        let i = choose|i: int| 0 <= i < c.len() && !text::is_white(#[trigger] c[i]);
        assert(!text::is_white(item.content[i]));
    }
    assert forall|i: int| 0 <= i < t.len() implies t[i] != '\n' by {
        assert(t[i] == c.subrange(0, t.len() as int)[i]);
        assert(t[i] == c[i]);
    }
}

/// What the log keeps of a history are the entries of its legible items.
proof fn lemma_kept_of_legible(h: Seq<ItemView>)
    ensures
        kept_entries(h) == legible(h).map_values(|item: ItemView| kept(item)->0),
    decreases h.len(),
{
    reveal(Seq::filter);
    let g = |item: ItemView| kept(item)->0;
    if h.len() > 0 {
        let front = h.drop_last();
        lemma_kept_of_legible(front);
        law_kept_contents(h.last());
        if has_ink(h.last().content) {
            assert(legible(h) == legible(front).push(h.last()));
            assert(legible(h).map_values(g) == legible(front).map_values(g).push(g(h.last())));
        }
    }
}

/// Where every item is legible, all are.
proof fn lemma_all_legible(h: Seq<ItemView>)
    requires
        forall|i: int| 0 <= i < h.len() ==> has_ink((#[trigger] h[i]).content),
    ensures
        legible(h) == h,
    decreases h.len(),
{
    reveal(Seq::filter);
    if h.len() > 0 {
        let front = h.drop_last();
        assert forall|i: int| 0 <= i < front.len() implies has_ink((#[trigger] front[i]).content) by {
            assert(front[i] == h[i]);
        }
        lemma_all_legible(front);
        assert(has_ink(h[h.len() - 1].content));
        assert(front.push(h.last()) == h);
    }
}

/// `restored` is what is restored from `list`, entry by entry.
pub open spec fn is_restored_from(
    list: Seq<EntryView>,
    has_file: Seq<bool>,
    restored: Seq<ItemView>,
) -> bool {
    &&& restored.len() == list.len()
    &&& has_file.len() == list.len()
    &&& forall|i: int|
        0 <= i < restored.len() ==> log::is_restored(list[i], has_file[i], #[trigger] restored[i])
}

/// Each of the items has the time of its entry.
pub open spec fn has_times_of(list: Seq<EntryView>, restored: Seq<ItemView>) -> bool {
    forall|i: int|
        0 <= i < restored.len() ==> list[i].time == Some((#[trigger] restored[i]).datetime.civil)
}

/// A history survives a restart: what is restored from the entries of its log has the
/// same items in the same order, but for those of white space alone, each with its kind
/// and mark, none of them expanded, and with its content on one line without the white
/// space that ends it. If every content is more than white space, no item is missing.
/// Where every time in the log was found again, each item has its time to the second.
pub proof fn law_history_survives(h: Seq<ItemView>, has_file: Seq<bool>, restored: Seq<ItemView>)
    requires
        is_restored_from(kept_entries(h), has_file, restored),
    ensures
        restored.len() == legible(h).len(),
        forall|i: int|
            0 <= i < restored.len() ==> {
                let item = #[trigger] restored[i];
                let before = legible(h)[i];
                &&& item.content == text::trim_end(log::flat(before.content))
                &&& item.is_image == before.is_image
                &&& item.is_favorite == before.is_favorite
                &&& item.has_preview == (before.is_image && has_file[i])
                &&& !item.expanded
            },
        (forall|i: int| 0 <= i < h.len() ==> has_ink((#[trigger] h[i]).content)) ==> legible(h)
            == h,
        has_times_of(kept_entries(h), restored) ==> forall|i: int|
            0 <= i < restored.len() ==> (#[trigger] restored[i]).datetime.civil == legible(
                h,
            )[i].datetime.civil.whole_second(),
{
    let left = legible(h);
    lemma_kept_of_legible(h);
    if forall|i: int| 0 <= i < h.len() ==> has_ink((#[trigger] h[i]).content) {
        lemma_all_legible(h);
    }
    assert forall|i: int| 0 <= i < restored.len() implies {
        let item = #[trigger] restored[i];
        let before = left[i];
        &&& item.content == text::trim_end(log::flat(before.content))
        &&& item.is_image == before.is_image
        &&& item.is_favorite == before.is_favorite
        &&& item.has_preview == (before.is_image && has_file[i])
        &&& !item.expanded
    } by {
        assert(kept_entries(h)[i] == kept(left[i])->0);
        h.lemma_filter_pred(|item: ItemView| has_ink(item.content), i);
        law_kept_contents(left[i]);
        assert(log::is_restored(kept_entries(h)[i], has_file[i], restored[i]));
    }
    if has_times_of(kept_entries(h), restored) {
        assert forall|i: int| 0 <= i < restored.len() implies (
        #[trigger] restored[i]).datetime.civil == left[i].datetime.civil.whole_second() by {
            assert(kept_entries(h)[i] == kept(left[i])->0);
            h.lemma_filter_pred(|item: ItemView| has_ink(item.content), i);
            law_kept_contents(left[i]);
        }
    }
}

/// A time is written like the time to the second.
proof fn lemma_formatted_whole(format: Seq<char>, i: int, t: CivilTime)
    requires
        0 <= i,
        t.nanosecond < 2_000_000_000,
    ensures
        calendar::formatted(format, i, t.whole_second()) == calendar::formatted(format, i, t),
    decreases format.len() - i,
{
    if i < format.len() {
        if format[i] == '%' && i + 1 < format.len() {
            lemma_formatted_whole(format, i + 2, t);
        } else {
            lemma_formatted_whole(format, i + 1, t);
        }
    }
}

/// Once contents are as the log leaves them, the log does not change any more: the log
/// of what is restored from a log is that log, character by character, where every time
/// in it was found again.
pub proof fn law_log_is_stable(h: Seq<ItemView>, has_file: Seq<bool>, restored: Seq<ItemView>)
    requires
        history::all_wf(h),
        forall|i: int| 0 <= i < h.len() ==> is_log_content((#[trigger] h[i]).content),
        is_restored_from(kept_entries(h), has_file, restored),
        has_times_of(kept_entries(h), restored),
    ensures
        log::log_text(restored) == log::log_text(h),
{
    let f = |item: ItemView| log::log_record(item);
    assert forall|i: int| 0 <= i < h.len() implies has_ink((#[trigger] h[i]).content) by {
        assert(is_log_content(h[i].content));
        let c = h[i].content;
        assert(!text::is_white(c[c.len() - 1]));
    }
    lemma_kept_of_legible(h);
    lemma_all_legible(h);
    assert forall|i: int| 0 <= i < h.len() implies log::log_record(#[trigger] restored[i])
        == log::log_record(h[i]) by {
        assert(is_log_content(h[i].content));
        law_plain_content_survives(h[i]);
        assert(h[i].datetime.wf());
        assert(kept_entries(h)[i] == kept(h[i])->0);
        assert(log::is_restored(kept_entries(h)[i], has_file[i], restored[i]));
        lemma_formatted_whole(calendar::log_time_format(), 0, h[i].datetime.civil);
    }
    assert(restored.map_values(f) == h.map_values(f));
}

/// The log keeps what was read from one: of what is restored from entries with contents
/// as the log leaves them, it keeps those entries, with their times to the second, where
/// every time was found again.
pub proof fn law_entries_are_stable(
    list: Seq<EntryView>,
    has_file: Seq<bool>,
    restored: Seq<ItemView>,
)
    requires
        forall|i: int| 0 <= i < list.len() ==> is_log_content((#[trigger] list[i]).content),
        is_restored_from(list, has_file, restored),
        has_times_of(list, restored),
    ensures
        kept_entries(restored) == list.map_values(
            |e: EntryView| EntryView { time: Some(e.time->0.whole_second()), ..e },
        ),
{
    let g = |item: ItemView| kept(item)->0;
    assert forall|i: int| 0 <= i < restored.len() implies has_ink((#[trigger] restored[i]).content)
        && kept(restored[i]) == Some(
        EntryView { time: Some(list[i].time->0.whole_second()), ..list[i] },
    ) by {
        assert(is_log_content(list[i].content));
        assert(log::is_restored(list[i], has_file[i], restored[i]));
        law_plain_content_survives(restored[i]);
        law_kept_contents(restored[i]);
    }
    lemma_kept_of_legible(restored);
    lemma_all_legible(restored);
}

/// The lines of a file hold no line breaks.
proof fn lemma_raw_lines_no_break(bytes: Seq<u8>)
    ensures
        forall|i: int|
            0 <= i < log::raw_lines(bytes).len() ==> !(#[trigger] log::raw_lines(
                bytes,
            )[i]).contains(0x0A),
    decreases bytes.len(),
{
    bytes.index_of_first_ensures(0x0A);
    if let Some(end) = bytes.index_of_first(0x0A) {
        let line = bytes.take(end);
        let rest = bytes.skip(end + 1);
        lemma_raw_lines_no_break(rest);
        assert forall|i: int| 0 <= i < log::raw_lines(bytes).len() implies !(
        #[trigger] log::raw_lines(bytes)[i]).contains(0x0A) by {
            if i > 0 {
                assert(log::raw_lines(bytes)[i] == log::raw_lines(rest)[i - 1]);
            } else {
                let first = log::without_return(line);
                assert forall|k: int| 0 <= k < first.len() implies first[k] != 0x0A by {
                    assert(first[k] == bytes[k]);
                }
            }
        }
    }
}

/// The encoding of a text with a line break has one.
proof fn lemma_encode_break(s: Seq<char>)
    requires
        s.contains('\n'),
    ensures
        encode_utf8(s).contains(0x0A),
    decreases s.len(),
{
    let head = encode_scalar(s[0] as u32);
    let tail = encode_utf8(s.drop_first());
    if s[0] == '\n' {
        assert((0x0Au32 & 0x7F) as u8 == 0x0Au8) by (bit_vector);
        assert((head + tail)[0] == 0x0A);
    } else {
        let i = choose|i: int| 0 <= i < s.len() && s[i] == '\n';
        assert(s.drop_first()[i - 1] == '\n');
        lemma_encode_break(s.drop_first());
        let k = choose|k: int| 0 <= k < tail.len() && tail[k] == 0x0A;
        assert((head + tail)[head.len() + k] == 0x0A);
    }
}

/// Trimming the start of a text leaves its end.
proof fn lemma_trim_start(s: Seq<char>)
    ensures
        text::trim_start(s).is_suffix_of(s),
    decreases s.len(),
{
    if s.len() > 0 && text::is_white(s[0]) {
        lemma_trim_start(s.drop_first());
        let t = text::trim_start(s);
        assert(t.len() <= s.len() - 1);
        assert(s.subrange(s.len() - t.len(), s.len() as int) == s.drop_first().subrange(
            s.drop_first().len() - t.len(),
            s.drop_first().len() as int,
        ));
    } else {
        assert(s.subrange(0, s.len() as int) == s);
    }
}

/// The content in a line is as the log leaves contents.
proof fn lemma_line_content(line: Seq<char>, time: Option<CivilTime>)
    requires
        !line.contains('\n'),
    ensures
        log::entry_at(line, time) matches Some(entry) ==> is_log_content(entry.content),
{
    if let Some(entry) = log::entry_at(line, time) {
        line.index_of_first_ensures(']');
        let close = line.index_of_first(']')->0;
        let after = line.skip(close + 1);
        let tail = text::trim_start(after);
        let rest = text::trim_end(tail);
        lemma_trim_start(after);
        lemma_trim_end(tail);
        reveal_strlit(": ");
        let at = choose|i: int| text::occurs_at(rest, ": "@, i);
        text::lemma_first_of(rest, ": "@, at);
        let sep = text::first_occurrence(rest, ": "@)->0;
        assert(rest.subrange(sep, sep + 2)[1] == ' ');
        assert(rest[sep + 1] == ' ');
        assert(text::is_white(' '));
        assert(rest.last() == rest[rest.len() - 1]);
        assert forall|k: int| 0 <= k < rest.len() implies rest[k] != '\n' by {
            assert(rest[k] == tail.subrange(0, rest.len() as int)[k]);
            assert(tail[k] == after.subrange(after.len() - tail.len(), after.len() as int)[k]);
            assert(line.contains(tail[k]));
        }
    }
}

/// What is read from a file, whatever it holds, has contents as the log leaves them:
/// never empty, never with a line break, and never with white space at the end.
pub proof fn law_read_contents(bytes: Seq<u8>)
    ensures
        forall|i: int|
            0 <= i < log::log_entries(bytes).len() ==> is_log_content(
                (#[trigger] log::log_entries(bytes)[i]).content,
            ),
{
    let raw = log::raw_lines(bytes);
    let f = |line: Seq<u8>| log::raw_entry(line);
    let list = log::log_entries(bytes);
    lemma_raw_lines_no_break(bytes);
    assert forall|i: int| 0 <= i < list.len() implies is_log_content(
        (#[trigger] list[i]).content,
    ) by {
        assert(list.contains(list[i]));
        raw.lemma_filter_map_contains(f, list[i]);
        let line = choose|line: Seq<u8>| #[trigger] raw.contains(line) && f(line) == Some(list[i]);
        let k = choose|k: int| 0 <= k < raw.len() && raw[k] == line;
        assert(!raw[k].contains(0x0A));
        let chars = decode_utf8(line);
        decode_utf8_encode_utf8(line);
        if chars.contains('\n') {
            lemma_encode_break(chars);
        }
        let stamp = log::stamp_of(chars)->0;
        lemma_line_content(chars, calendar::parsed_time(stamp, calendar::log_time_format()));
    }
}

/// What is kept of two lists is what is kept of the one and of the other.
proof fn lemma_filter_map_concat<A, B>(a: Seq<A>, b: Seq<A>, f: spec_fn(A) -> Option<B>)
    ensures
        (a + b).filter_map(f) == a.filter_map(f) + b.filter_map(f),
    decreases b.len(),
{
    if b.len() == 0 {
        assert(a + b == a);
    } else {
        assert((a + b).drop_last() == a + b.drop_last());
        lemma_filter_map_concat(a, b.drop_last(), f);
    }
}

/// A file of two parts, of which the first is empty or ends in a line break, has the
/// lines of the one followed by those of the other, and so for the entries.
pub proof fn law_parts_of_a_file(first: Seq<u8>, second: Seq<u8>)
    requires
        first.len() == 0 || first.last() == 0x0A,
    ensures
        log::raw_lines(first + second) == log::raw_lines(first) + log::raw_lines(second),
        log::log_entries(first + second) == log::log_entries(first) + log::log_entries(second),
    decreases first.len(),
{
    let f = |line: Seq<u8>| log::raw_entry(line);
    first.index_of_first_ensures(0x0A);
    if first.len() == 0 {
        assert(first + second == second);
        assert(log::raw_lines(first) + log::raw_lines(second) == log::raw_lines(second));
    } else {
        assert(first[first.len() - 1] == 0x0A);
        assert(first.contains(0x0A));
        let end = first.index_of_first(0x0A)->0;
        let line = first.take(end);
        let rest = first.skip(end + 1);
        law_parts_of_a_file(rest, second);
        assert(line.push(0x0A) + rest == first);
        assert(line.push(0x0A) + (rest + second) == first + second);
        assert(!line.contains(0x0A));
        lemma_raw_lines_cons(line, rest);
        lemma_raw_lines_cons(line, rest + second);
    }
    lemma_filter_map_concat(log::raw_lines(first), log::raw_lines(second), f);
}

/// A content is written on one line: each line break becomes a space, and every other
/// character stays as it is, at its place.
pub proof fn law_flat(s: Seq<char>)
    ensures
        log::flat(s).len() == s.len(),
        forall|i: int|
            0 <= i < s.len() ==> #[trigger] log::flat(s)[i] == (if s[i] == '\n' {
                ' '
            } else {
                s[i]
            }),
{
}

/// The log of a history with one more item is the log of the history and the item's line:
/// its time in brackets, its marks, its content on one line, and a line break.
pub proof fn law_log_line(h: Seq<ItemView>, item: ItemView)
    ensures
        log::log_text(Seq::empty()) == Seq::<char>::empty(),
        ({
            let t = item.datetime.civil;
            log::log_text(h.push(item)) == log::log_text(h) + (seq!['['] + (calendar::year_text(
                t.year as int,
            ) + seq!['-'] + text::zero_padded(t.month as nat, 2) + seq!['-'] + text::zero_padded(
                t.day as nat,
                2,
            ) + seq![' '] + calendar::clock_face(t)) + seq![']', ' '] + (if item.is_favorite {
                "FAV"@
            } else {
                "REG"@
            }) + seq![' '] + (if item.is_image {
                "IMAGE"@
            } else {
                "TEXT"@
            }) + seq![':', ' '] + log::flat(item.content) + seq!['\n'])
        }),
{
    let f = |item: ItemView| log::log_record(item);
    let n = h.len() as int;
    reveal_strlit("[");
    reveal_strlit("] ");
    reveal_strlit(" ");
    reveal_strlit(": ");
    assert("["@ == seq!['[']);
    assert("] "@ == seq![']', ' ']);
    assert(" "@ == seq![' ']);
    assert(": "@ == seq![':', ' ']);
    calendar::law_formats(item.datetime.civil);
    assert(Seq::<ItemView>::empty().map_values(f) == Seq::<Seq<char>>::empty());
    h.push(item).lemma_flat_map_take_append(f, n);
    assert(h.push(item).take(n + 1) == h.push(item));
    assert(h.push(item).take(n) == h);
    let stamp = calendar::formatted(calendar::log_time_format(), 0, item.datetime.civil);
    let fav = if item.is_favorite {
        "FAV"@
    } else {
        "REG"@
    };
    let kind = if item.is_image {
        "IMAGE"@
    } else {
        "TEXT"@
    };
    let c = log::flat(item.content);
    assert(log::log_record(item) == seq!['['] + stamp + seq![']', ' '] + fav + seq![' '] + kind
        + seq![':', ' '] + c + seq!['\n']);
}

/// What is restored of an entry: its content and marks, at the time that was found for its
/// time, and now only if none was; never expanded, and to be drawn if it is an image whose
/// file is there.
pub proof fn law_restored(
    entry: EntryView,
    resolved: Option<LocalTime>,
    now: LocalTime,
    has_file: bool,
)
    ensures
        ({
            let item = log::restored(entry, resolved, now, has_file);
            &&& resolved matches Some(time) ==> item.datetime == time
            &&& resolved is None ==> item.datetime == now
            &&& item.content == entry.content
            &&& item.is_image == entry.is_image
            &&& item.is_favorite == entry.is_favorite
            &&& item.has_preview <==> entry.is_image && has_file
            &&& !item.expanded
        }),
{
}

/// The date of an item that was restored: for an entry without a time it is the present
/// one; for any other the time zone was asked for its time, and the item has the point in
/// time that the zone gave, or the present one if the zone gave none.
pub proof fn law_restored_date(entry: EntryView, has_file: bool, item: ItemView)
    requires
        log::is_restored(entry, has_file, item),
    ensures
        match entry.time {
            Some(t) => exists|r: Option<LocalTime>| #[trigger]
                calendar::is_resolution_of(t, r) && (match r {
                    Some(l) => item.datetime == l && l.civil == t,
                    None => calendar::is_present(item.datetime),
                }),
            None => calendar::is_present(item.datetime),
        },
{
}

/// An item keeps its date at every start: where the time zone gives just one point in time
/// for the time of an entry, what is restored of it has that one, and its wall clock shows
/// the time in the log.
pub proof fn law_dates_come_back(
    entry: EntryView,
    has_file: bool,
    item: ItemView,
    t: CivilTime,
    l: LocalTime,
)
    requires
        log::is_restored(entry, has_file, item),
        entry.time == Some(t),
        forall|r: Option<LocalTime>| #[trigger] calendar::is_resolution_of(t, r) ==> r == Some(l),
    ensures
        item.datetime == l,
        item.datetime.civil == t,
{
    law_restored_date(entry, has_file, item);
}

/// Where the time zone gives a point in time for every time in the log of a history, every
/// item is restored at its time, to the second.
pub proof fn law_times_survive(h: Seq<ItemView>, has_file: Seq<bool>, restored: Seq<ItemView>)
    requires
        is_restored_from(kept_entries(h), has_file, restored),
        forall|i: int, r: Option<LocalTime>|
            0 <= i < kept_entries(h).len() && #[trigger] calendar::is_resolution_of(
                kept_entries(h)[i].time->0,
                r,
            ) ==> r is Some,
    ensures
        restored.len() == legible(h).len(),
        forall|i: int|
            0 <= i < restored.len() ==> (#[trigger] restored[i]).datetime.civil == legible(
                h,
            )[i].datetime.civil.whole_second(),
{
    let left = legible(h);
    lemma_kept_of_legible(h);
    assert forall|i: int| 0 <= i < restored.len() implies kept_entries(h)[i].time == Some(
        (#[trigger] restored[i]).datetime.civil,
    ) by {
        assert(kept_entries(h)[i] == kept(left[i])->0);
        h.lemma_filter_pred(|item: ItemView| has_ink(item.content), i);
        law_kept_contents(left[i]);
        assert(log::is_restored(kept_entries(h)[i], has_file[i], restored[i]));
        law_restored_date(kept_entries(h)[i], has_file[i], restored[i]);
    }
    law_history_survives(h, has_file, restored);
}

/// A line with a `]` before its first `[`, where it has one, cannot be read, and every other
/// can.
pub proof fn law_readable_lines(line: Seq<char>)
    ensures
        log::is_readable(line) <==> !(line.contains('[') && exists|i: int|
            0 <= i < line.len() && #[trigger] line[i] == ']' && !line.take(i).contains('[')),
{
    line.index_of_first_ensures('[');
    line.index_of_first_ensures(']');
    let bad = |i: int| 0 <= i < line.len() && line[i] == ']' && !line.take(i).contains('[');
    if line.contains('[') && line.contains(']') {
        let open = line.index_of_first('[')->0;
        let close = line.index_of_first(']')->0;
        if close < open {
            assert(!line.take(close).contains('[')) by {
                if line.take(close).contains('[') {
                    let k = choose|k: int| 0 <= k < close && line.take(close)[k] == '[';
                    assert(line[k] == '[');
                }
            }
            assert(line[close] == ']');
        } else {
            assert forall|i: int| 0 <= i < line.len() && #[trigger] line[i] == ']' implies line.take(
                i,
            ).contains('[') by {
                assert(close <= i);
                assert(line.take(i)[open] == '[');
            }
        }
    } else {
        assert forall|i: int| 0 <= i < line.len() && #[trigger] line[i] == ']' implies line.contains(
            ']',
        ) by {}
    }
}

/// The time of a line is what stands in its brackets, read by the log's format.
pub proof fn law_time_of_a_line(line: Seq<char>)
    ensures
        match log::stamp_of(line) {
            Some(stamp) => log::entry_of(line) == log::entry_at(
                line,
                calendar::parsed_time(stamp, "%Y-%m-%d %H:%M:%S"@),
            ),
            None => log::entry_of(line) is None,
        },
{
}

/// White space before a text that begins with none is trimmed off.
proof fn lemma_trim_start_blank(gap: Seq<char>, s: Seq<char>)
    requires
        text::is_blank(gap),
        s.len() > 0,
        !text::is_white(s[0]),
    ensures
        text::trim_start(gap + s) == s,
    decreases gap.len(),
{
    if gap.len() == 0 {
        assert(gap + s == s);
    } else {
        assert(text::is_white(gap[0]));
        assert((gap + s)[0] == gap[0]);
        assert((gap + s).drop_first() == gap.drop_first() + s);
        lemma_trim_start_blank(gap.drop_first(), s);
    }
}

/// The first `: ` of a text with marks that have none.
proof fn lemma_marks_separated(m: Seq<char>, c: Seq<char>)
    requires
        !text::contains_text(m, ": "@),
    ensures
        text::first_occurrence(m + seq![':', ' '] + c, ": "@) == Some(m.len() as int),
        !text::contains_text(m.push(':'), ": "@),
{
    reveal_strlit(": ");
    let rest = m + seq![':', ' '] + c;
    let sep = m.len() as int;
    assert(rest.subrange(sep, sep + 2) == ": "@);
    assert forall|j: int| 0 <= j < sep implies !text::occurs_at(rest, ": "@, j) by {
        if text::occurs_at(rest, ": "@, j) {
            assert(rest.subrange(j, j + 2)[0] == rest[j]);
            assert(rest.subrange(j, j + 2)[1] == rest[j + 1]);
            assert(j + 1 < sep);
            assert(m.subrange(j, j + 2) == ": "@);
            assert(text::occurs_at(m, ": "@, j));
        }
    }
    text::lemma_first_occurrence(rest, ": "@, sep);
    assert forall|j: int| !text::occurs_at(m.push(':'), ": "@, j) by {
        if text::occurs_at(m.push(':'), ": "@, j) {
            let p = m.push(':');
            assert(p.subrange(j, j + 2)[1] == p[j + 1]);
            assert(p.subrange(j, j + 2)[0] == p[j]);
            assert(j + 1 < sep);
            assert(m.subrange(j, j + 2) == ": "@);
            assert(text::occurs_at(m, ": "@, j));
        }
    }
}

/// A line of brackets, marks, `: ` and a content reads as that content, whole, with the time
/// in the brackets; it is an image if the marks hold `IMAGE`, and a favorite if they begin
/// with `FAV`. Anything may stand before the brackets, and white space before the marks
/// and at the end is passed over. Without a content the line has no entry.
pub proof fn law_read_line(
    before: Seq<char>,
    stamp: Seq<char>,
    gap: Seq<char>,
    m: Seq<char>,
    content: Seq<char>,
    end: Seq<char>,
    time: Option<CivilTime>,
)
    requires
        !before.contains('['),
        !before.contains(']'),
        !stamp.contains(']'),
        text::is_blank(gap),
        text::is_blank(end),
        m.len() > 0 ==> !text::is_white(m[0]),
        !text::contains_text(m, ": "@),
        content.len() > 0 && !text::is_white(content.last()),
    ensures
        ({
            let line = before + seq!['['] + stamp + seq![']'] + gap + m + seq![':', ' '] + content
                + end;
            &&& log::is_readable(line)
            &&& log::stamp_of(line) == Some(stamp)
            &&& log::entry_at(line, time) == Some(
                EntryView {
                    time,
                    content,
                    is_image: text::contains_text(m, "IMAGE"@),
                    is_favorite: m.len() >= 3 && m.take(3) == seq!['F', 'A', 'V'],
                },
            )
        }),
        log::entry_at(
            before + seq!['['] + stamp + seq![']'] + gap + m + seq![':', ' '] + end,
            time,
        ) is None,
{
    let full = m + seq![':', ' '] + content;
    let tail = gap + (full + end);
    let line = before + seq!['['] + stamp + seq![']'] + gap + m + seq![':', ' '] + content + end;
    assert(line == before + seq!['['] + stamp + seq![']'] + tail);
    law_brackets(before, stamp, tail);
    assert(!text::is_white(':'));
    assert((full + end)[0] == if m.len() > 0 {
        m[0]
    } else {
        ':'
    });
    lemma_trim_start_blank(gap, full + end);
    lemma_blank_end(full, end);
    lemma_marks_separated(m, content);
    let sep = m.len() as int;
    assert(full.take(sep) == m);
    assert(full.skip(sep + 2) == content);
    reveal_strlit("FAV");
    assert("FAV"@ == seq!['F', 'A', 'V']);
    if m.len() >= 3 {
        assert(full.subrange(0, 3) == m.take(3));
    } else {
        assert(full[sep] == ':');
        if "FAV"@.is_prefix_of(full) {
            assert(full.subrange(0, 3)[sep] == full[sep]);
        }
    }
    let short = m.push(':');
    let spaces = seq![' '] + end;
    let tail2 = gap + (short + spaces);
    let line2 = before + seq!['['] + stamp + seq![']'] + gap + m + seq![':', ' '] + end;
    assert(line2 == before + seq!['['] + stamp + seq![']'] + tail2);
    law_brackets(before, stamp, tail2);
    assert((short + spaces)[0] == if m.len() > 0 {
        m[0]
    } else {
        ':'
    });
    lemma_trim_start_blank(gap, short + spaces);
    assert(text::is_blank(spaces)) by {
        assert forall|i: int| 0 <= i < spaces.len() implies text::is_white(#[trigger] spaces[i]) by {
            if i > 0 {
                assert(spaces[i] == end[i - 1]);
            }
        }
    }
    lemma_blank_end(short, spaces);
}

/// White space after a text that ends in none is trimmed off.
proof fn lemma_blank_end(s: Seq<char>, end: Seq<char>)
    requires
        s.len() > 0,
        !text::is_white(s.last()),
        text::is_blank(end),
    ensures
        text::trim_end(s + end) == s,
{
    lemma_trim_end(end);
    assert(!has_ink(end));
    lemma_trim_end_concat(s, end);
}

/// The first bracket that opens and the first that closes hold the time of a line, whatever
/// stands around them.
pub proof fn law_brackets(before: Seq<char>, stamp: Seq<char>, tail: Seq<char>)
    requires
        !before.contains('['),
        !before.contains(']'),
        !stamp.contains(']'),
    ensures
        ({
            let line = before + seq!['['] + stamp + seq![']'] + tail;
            &&& log::is_readable(line)
            &&& log::stamp_of(line) == Some(stamp)
            &&& line.index_of_first(']') matches Some(close) && line.skip(close + 1) == tail
        }),
{
    let line = before + seq!['['] + stamp + seq![']'] + tail;
    let open = before.len() as int;
    let close = open + 1 + stamp.len();
    line.index_of_first_ensures('[');
    line.index_of_first_ensures(']');
    assert(line[open] == '[');
    assert(line[close] == ']');
    assert(line.contains('[') && line.contains(']'));
    let o = line.index_of_first('[')->0;
    let c = line.index_of_first(']')->0;
    if o < open {
        assert(before[o] == '[');
    }
    if c < open {
        assert(before[c] == ']');
    } else if open < c && c < close {
        assert(stamp[c - open - 1] == ']');
    }
    assert(o == open && c == close);
    assert(line.subrange(open + 1, close) == stamp);
    assert(line.skip(close + 1) == tail);
}

/// A line without a bracket of either kind has no time and no entry.
pub proof fn law_line_without_brackets(line: Seq<char>, time: Option<CivilTime>)
    requires
        !line.contains('[') || !line.contains(']'),
    ensures
        log::stamp_of(line) is None,
        log::entry_at(line, time) is None,
        log::entry_of(line) is None,
{
    line.index_of_first_ensures('[');
    line.index_of_first_ensures(']');
}

/// A line without `: ` after its brackets has no entry.
pub proof fn law_line_without_content(
    before: Seq<char>,
    stamp: Seq<char>,
    after: Seq<char>,
    time: Option<CivilTime>,
)
    requires
        !before.contains('['),
        !before.contains(']'),
        !stamp.contains(']'),
        !text::contains_text(after, ": "@),
    ensures
        log::entry_at(before + seq!['['] + stamp + seq![']'] + after, time) is None,
{
    law_brackets(before, stamp, after);
    let tail = text::trim_start(after);
    let rest = text::trim_end(tail);
    lemma_trim_start(after);
    lemma_trim_end(tail);
    if text::contains_text(rest, ": "@) {
        let i = choose|i: int| text::occurs_at(rest, ": "@, i);
        reveal_strlit(": ");
        let k = after.len() - tail.len() + i;
        assert(rest == tail.subrange(0, rest.len() as int));
        assert(tail == after.subrange(after.len() - tail.len(), after.len() as int));
        assert(after.subrange(k, k + 2) == rest.subrange(i, i + 2));
        assert(text::occurs_at(after, ": "@, k));
    }
}

/// The lines of a file: one that ends in a line break is what stands before it, without
/// one carriage return; what follows the last line break is a line if it is not empty.
pub proof fn law_lines(line: Seq<u8>)
    requires
        !line.contains(0x0A),
    ensures
        log::raw_lines(line.push(0x0A)) == seq![
            if line.len() > 0 && line.last() == 0x0D {
                line.take(line.len() - 1)
            } else {
                line
            },
        ],
        line.len() > 0 ==> log::raw_lines(line) == seq![line],
        log::raw_lines(Seq::empty()) == Seq::<Seq<u8>>::empty(),
{
    Seq::<u8>::empty().index_of_first_ensures(0x0A);
    line.index_of_first_ensures(0x0A);
    lemma_raw_lines_cons(line, Seq::empty());
    assert(line.push(0x0A) + Seq::<u8>::empty() == line.push(0x0A));
    if line.len() > 0 {
        assert(line.drop_last() == line.take(line.len() - 1));
    }
}

/// The entries of one line: the entry of its text, if it has one; none, if the line is not
/// UTF-8. It is the same whether the line ends in a line break, in a carriage return and a
/// line break, or with the file.
pub proof fn law_entries_of_a_line(line: Seq<u8>)
    requires
        !line.contains(0x0A),
        line.len() > 0 && line.last() != 0x0D,
    ensures
        ({
            let list = if valid_utf8(line) {
                match log::entry_of(decode_utf8(line)) {
                    Some(entry) => seq![entry],
                    None => Seq::empty(),
                }
            } else {
                Seq::empty()
            };
            &&& log::log_entries(line.push(0x0A)) == list
            &&& log::log_entries(line.push(0x0D).push(0x0A)) == list
            &&& log::log_entries(line) == list
        }),
{
    let f = |line: Seq<u8>| log::raw_entry(line);
    let marked = line.push(0x0D);
    law_lines(line);
    assert(!marked.contains(0x0A)) by {
        assert forall|i: int| 0 <= i < marked.len() implies marked[i] != 0x0A by {
            if i < line.len() {
                assert(line.contains(line[i]));
            }
        }
    }
    law_lines(marked);
    assert(marked.take(marked.len() - 1) == line);
    Seq::<Seq<u8>>::lemma_filter_map_singleton(line, f);
}

/// A file can be read if and only if its parts can, where the first is empty or ends in a
/// line break; and a single line if and only if its text can, or it is not UTF-8.
pub proof fn law_readable_files(first: Seq<u8>, second: Seq<u8>, line: Seq<u8>)
    requires
        first.len() == 0 || first.last() == 0x0A,
        !line.contains(0x0A),
        line.len() > 0,
    ensures
        log::is_readable_log(first + second) <==> log::is_readable_log(first)
            && log::is_readable_log(second),
        log::is_readable_log(line) <==> (valid_utf8(line) ==> log::is_readable(decode_utf8(line))),
{
    law_parts_of_a_file(first, second);
    law_lines(line);
    let a = log::raw_lines(first);
    let b = log::raw_lines(second);
    let both = log::raw_lines(first + second);
    if log::is_readable_log(first + second) {
        assert forall|i: int| 0 <= i < a.len() && valid_utf8(#[trigger] a[i]) implies
            log::is_readable(decode_utf8(a[i])) by {
            assert(both[i] == a[i]);
        }
        assert forall|i: int| 0 <= i < b.len() && valid_utf8(#[trigger] b[i]) implies
            log::is_readable(decode_utf8(b[i])) by {
            assert(both[a.len() + i] == b[i]);
        }
    }
    if log::is_readable_log(first) && log::is_readable_log(second) {
        assert forall|i: int| 0 <= i < both.len() && valid_utf8(#[trigger] both[i]) implies
            log::is_readable(decode_utf8(both[i])) by {
            if i < a.len() {
                assert(both[i] == a[i]);
            } else {
                assert(both[i] == b[i - a.len()]);
            }
        }
    }
    if log::is_readable_log(line) {
        assert(log::raw_lines(line)[0] == line);
    }
}

/// The log keeps the time of each legible item, to the second.
pub proof fn law_kept_times(h: Seq<ItemView>)
    ensures
        kept_entries(h).len() == legible(h).len(),
        forall|i: int|
            0 <= i < legible(h).len() ==> (#[trigger] kept_entries(h)[i]).time == Some(
                legible(h)[i].datetime.civil.whole_second(),
            ),
{
    lemma_kept_of_legible(h);
    assert forall|i: int| 0 <= i < legible(h).len() implies (#[trigger] kept_entries(h)[i]).time
        == Some(legible(h)[i].datetime.civil.whole_second()) by {
        assert(kept_entries(h)[i] == kept(legible(h)[i])->0);
        h.lemma_filter_pred(|item: ItemView| has_ink(item.content), i);
        law_kept_contents(legible(h)[i]);
    }
}

} // verus!
