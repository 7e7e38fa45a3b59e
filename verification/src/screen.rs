//! What the window shows of the state.

use vstd::prelude::*;
use vstd::slice::slice_subrange;
use vstd::string::StringExecFns;

use crate::calendar;
use crate::calendar::LocalTime;
use crate::calendar::format_time;
use crate::calendar::is_within_days;
use crate::calendar::present_time;
use crate::history::HistoryItem;
use crate::history::ItemView;
use crate::state::AppState;
use crate::state::StateView;
use crate::text;
use crate::text::chars_of;
use crate::text::find_text;
use crate::text::push_decimal;
use crate::text::string_of;

verus! {

/// How many characters of a text are shown, and how many bytes it may have to be shown
/// without a sign that there is more.
pub const PREVIEW_LIMIT: usize = 100;

/// The body of a card.
#[derive(Debug, PartialEq, Eq)]
pub enum CardBody {
    /// An image, drawn in a size.
    Picture { width: u32, height: u32 },
    /// An image that cannot be drawn.
    NoPicture,
    /// A text.
    Text(String),
}

/// An item as it is shown.
#[derive(Debug, PartialEq, Eq)]
pub struct Card {
    /// Its place in the history.
    pub index: usize,
    /// The date and time above it.
    pub header: String,
    /// The sign of a favorite, or of none.
    pub star: char,
    /// Whether it is a favorite.
    pub is_favorite: bool,
    /// The image or text.
    pub body: CardBody,
    /// What its copy button puts on the clipboard: the whole text, or the image of the
    /// file of this name.
    pub content: String,
    /// Whether it is an image.
    pub is_image: bool,
}

/// What the window shows.
#[derive(Debug, PartialEq, Eq)]
pub struct Screen {
    /// The days of which items are shown.
    pub filter_label: String,
    /// The items, newest first.
    pub cards: Vec<Card>,
}

/// The model of a [`CardBody`].
pub enum BodyView {
    Picture { width: int, height: int },
    NoPicture,
    Text(Seq<char>),
}

/// The model of a [`Card`].
pub struct CardView {
    pub index: int,
    pub header: Seq<char>,
    pub star: char,
    pub is_favorite: bool,
    pub body: BodyView,
    pub content: Seq<char>,
    pub is_image: bool,
}

/// The model of a [`Screen`].
pub struct ScreenView {
    pub filter_label: Seq<char>,
    pub cards: Seq<CardView>,
}

impl View for CardBody {
    type V = BodyView;

    open spec fn view(&self) -> BodyView {
        match *self {
            CardBody::Picture { width, height } => BodyView::Picture {
                width: width as int,
                height: height as int,
            },
            CardBody::NoPicture => BodyView::NoPicture,
            CardBody::Text(text) => BodyView::Text(text@),
        }
    }
}

impl View for Card {
    type V = CardView;

    open spec fn view(&self) -> CardView {
        CardView {
            index: self.index as int,
            header: self.header@,
            star: self.star,
            is_favorite: self.is_favorite,
            body: self.body@,
            content: self.content@,
            is_image: self.is_image,
        }
    }
}

impl View for Screen {
    type V = ScreenView;

    open spec fn view(&self) -> ScreenView {
        ScreenView {
            filter_label: self.filter_label@,
            cards: self.cards@.map_values(|c: Card| c@),
        }
    }
}

/// The label of the filter by days. More days than fit into 32 bits are shown as the
/// most that do.
pub open spec fn label(days: int) -> Seq<char> {
    if days < 1 {
        "За всё время"@
    } else {
        let shown = if days <= i32::MAX {
            days
        } else {
            i32::MAX as int
        };
        "За последние "@ + text::decimal(shown as nat) + " дн."@
    }
}

/// The query, the content of an item, and the item's date in two forms match: the query
/// is empty, or stands in one of the three. Query and content are in lower case.
pub open spec fn query_match(
    query: Seq<char>,
    content: Seq<char>,
    day_month: Seq<char>,
    date: Seq<char>,
) -> bool {
    ||| query.len() == 0
    ||| text::contains_text(content, query)
    ||| text::contains_text(day_month, query)
    ||| text::contains_text(date, query)
}

/// The item is found by the search text.
pub open spec fn is_found(query: Seq<char>, item: ItemView) -> bool {
    query_match(
        text::lowercase(query),
        text::lowercase(item.content),
        calendar::formatted("%d.%m"@, 0, item.datetime.civil),
        calendar::formatted("%d.%m.%Y"@, 0, item.datetime.civil),
    )
}

/// The item is less than `days` days old at `now`; of any age, if `days` is not even
/// one.
pub open spec fn is_recent(days: int, item: ItemView, now: LocalTime) -> bool {
    days < 1 || calendar::elapsed_nanos(now, item.datetime) < days * 86_400_000_000_000
}

/// The item passes all filters.
pub open spec fn is_shown(s: StateView, item: ItemView, now: LocalTime) -> bool {
    &&& is_found(s.search_query, item)
    &&& is_recent(s.days_filter, item, now)
    &&& s.only_favorites ==> item.is_favorite
    &&& s.only_images ==> item.is_image
}

/// The text that is shown of a content.
pub open spec fn shown_text(content: Seq<char>, expanded: bool) -> Seq<char> {
    if expanded {
        content
    } else {
        (if content.len() > PREVIEW_LIMIT {
            content.take(PREVIEW_LIMIT as int)
        } else {
            content
        }) + (if vstd::utf8::encode_utf8(content).len() > PREVIEW_LIMIT {
            "..."@
        } else {
            Seq::empty()
        })
    }
}

/// The body of an item's card.
pub open spec fn body_of(item: ItemView) -> BodyView {
    if !item.is_image {
        BodyView::Text(shown_text(item.content, item.expanded))
    } else if !item.has_preview {
        BodyView::NoPicture
    } else if item.expanded {
        BodyView::Picture { width: 400, height: 300 }
    } else {
        BodyView::Picture { width: 150, height: 100 }
    }
}

/// The card of the item at `index`.
pub open spec fn card_of(index: int, item: ItemView) -> CardView {
    CardView {
        index,
        header: calendar::formatted("%d.%m %H:%M:%S"@, 0, item.datetime.civil),
        star: if item.is_favorite {
            '★'
        } else {
            '☆'
        },
        is_favorite: item.is_favorite,
        body: body_of(item),
        content: item.content,
        is_image: item.is_image,
    }
}

/// The indices of a list of `n` items, last first.
pub open spec fn backwards(n: nat) -> Seq<int> {
    Seq::new(n, |k: int| n - 1 - k)
}

/// The indices of the items that are shown, newest first.
pub open spec fn shown_indices(s: StateView, now: LocalTime) -> Seq<int> {
    backwards(s.history.len()).filter(|i: int| is_shown(s, s.history[i], now))
}

/// What the window shows of `s` at `now`.
pub open spec fn screen_of(s: StateView, now: LocalTime) -> ScreenView {
    ScreenView {
        filter_label: label(s.days_filter),
        cards: shown_indices(s, now).map_values(|i: int| card_of(i, s.history[i])),
    }
}

/// The cards of all items, newest first.
pub open spec fn all_cards(s: StateView) -> Seq<CardView> {
    backwards(s.history.len()).map_values(|i: int| card_of(i, s.history[i]))
}

/// Nothing narrows what is shown.
pub open spec fn is_unfiltered(s: StateView) -> bool {
    &&& s.search_query.len() == 0
    &&& s.days_filter < 1
    &&& !s.only_favorites
    &&& !s.only_images
}

/// The ages of the items can be compared with the number of days.
pub open spec fn is_comparable(s: StateView) -> bool {
    s.history.len() == 0 || s.days_filter <= calendar::MAX_SPAN_DAYS
}

/// The label of the filter by `days` days.
pub fn filter_label(days: i64) -> (s: String)
    ensures
        s@ == label(days as int),
{
    if days < 1 {
        "За всё время".to_string()
    } else {
        let shown: u32 = if days <= 0x7FFF_FFFF {
            days as u32
        } else {
            0x7FFF_FFFF
        };
        let mut s = "За последние ".to_string();
        push_decimal(&mut s, shown);
        s.append(" дн.");
        s
    }
}

/// Whether the query, the content of an item, and the item's date in two forms match.
pub fn matches_query(query: &str, content: &str, day_month: &str, date: &str) -> (r: bool)
    ensures
        r == query_match(query@, content@, day_month@, date@),
{
    if query.is_empty() {
        return true;
    }
    let pattern = chars_of(query);
    find_text(&chars_of(content), &pattern).is_some() || find_text(
        &chars_of(day_month),
        &pattern,
    ).is_some() || find_text(&chars_of(date), &pattern).is_some()
}

/// The text that is shown of `content`.
pub fn displayed_text(content: &str, expanded: bool) -> (s: String)
    ensures
        s@ == shown_text(content@, expanded),
{
    if expanded {
        return content.to_string();
    }
    let chars = chars_of(content);
    let mut s = if chars.len() > PREVIEW_LIMIT {
        string_of(slice_subrange(&chars, 0, PREVIEW_LIMIT))
    } else {
        content.to_string()
    };
    if content.as_bytes().len() > PREVIEW_LIMIT {
        s.append("...");
    }
    s
}

/// The card of `item`, which stands at `index`.
fn make_card(index: usize, item: &HistoryItem) -> (card: Card)
    requires
        item@.datetime.wf(),
    ensures
        card@ == card_of(index as int, item@),
{
    proof {
        calendar::lemma_plain_formats();
    }
    let body = if item.is_image {
        if item.has_preview {
            if item.expanded {
                CardBody::Picture { width: 400, height: 300 }
            } else {
                CardBody::Picture { width: 150, height: 100 }
            }
        } else {
            CardBody::NoPicture
        }
    } else {
        CardBody::Text(displayed_text(item.content.as_str(), item.expanded))
    };
    Card {
        index,
        header: format_time(&item.datetime.civil, "%d.%m %H:%M:%S"),
        star: if item.is_favorite {
            '★'
        } else {
            '☆'
        },
        is_favorite: item.is_favorite,
        body,
        content: item.content.clone(),
        is_image: item.is_image,
    }
}

impl AppState {
    /// Whether `item` passes all filters at `now`.
    fn shows(&self, item: &HistoryItem, now: &LocalTime) -> (r: bool)
        requires
            item@.datetime.wf(),
            now.wf(),
            self@.days_filter <= calendar::MAX_SPAN_DAYS,
        ensures
            r == is_shown(self@, item@, *now),
            is_unfiltered(self@) ==> r,
            self@.search_query.len() == 0 ==> is_found(self@.search_query, item@),
    {
        proof {
            calendar::lemma_plain_formats();
        }
        let query = self.search_query.as_str().to_lowercase();
        let query_match = matches_query(
            query.as_str(),
            item.content.as_str().to_lowercase().as_str(),
            format_time(&item.datetime.civil, "%d.%m").as_str(),
            format_time(&item.datetime.civil, "%d.%m.%Y").as_str(),
        );
        let date_match = self.days_filter < 1 || is_within_days(
            now,
            &item.datetime,
            self.days_filter,
        );
        let fav_match = !self.only_favorites || item.is_favorite;
        let img_match = !self.only_images || item.is_image;
        query_match && date_match && fav_match && img_match
    }

    /// What the window shows at `now`. With no filter set, that is every item, and an
    /// empty search text hides none whatever filters are set.
    pub fn screen_at(&self, now: LocalTime) -> (screen: Screen)
        requires
            self@.wf(),
            now.wf(),
            is_comparable(self@),
        ensures
            screen@ == screen_of(self@, now),
            is_unfiltered(self@) ==> screen@.cards == all_cards(self@),
            self@.search_query.len() == 0 ==> forall|i: int|
                0 <= i < self@.history.len() ==> is_found(
                    self@.search_query,
                    #[trigger] self@.history[i],
                ),
    {
        let ghost s = self@;
        let ghost n = s.history.len();
        let ghost all = backwards(n);
        let ghost keep = |i: int| is_shown(s, s.history[i], now);
        let ghost make = |i: int| card_of(i, s.history[i]);
        let mut cards: Vec<Card> = Vec::new();
        let mut i: usize = self.history.len();
        assert(all.take(0).filter(keep) == Seq::<int>::empty());
        assert(cards@.map_values(|c: Card| c@) == all.take(0).filter(keep).map_values(make));
        while i > 0
            invariant
                self@.wf(),
                now.wf(),
                is_comparable(self@),
                s == self@,
                n == s.history.len(),
                n == self.history@.len(),
                i <= n,
                all == backwards(n),
                keep == (|i: int| is_shown(s, s.history[i], now)),
                make == (|i: int| card_of(i, s.history[i])),
                cards@.map_values(|c: Card| c@) == all.take(n - i).filter(keep).map_values(make),
                is_unfiltered(s) ==> all.take(n - i).filter(keep) == all.take(n - i),
                s.search_query.len() == 0 ==> forall|j: int|
                    i <= j < n ==> is_found(s.search_query, #[trigger] s.history[j]),
            decreases i,
        {
            let ghost before = cards@.map_values(|c: Card| c@);
            let ghost k = n - i;
            i = i - 1;
            let item = &self.history[i];
            proof {
                assert(s.history[i as int] == item@);
                assert(all.take(k + 1) == all.take(k).push(i as int));
                all.take(k).lemma_filter_push(i as int, keep);
            }
            if self.shows(item, &now) {
                let card = make_card(i, item);
                cards.push(card);
                assert(cards@.map_values(|c: Card| c@) == before.push(card@));
                assert(all.take(k).filter(keep).push(i as int).map_values(make) == before.push(
                    card@,
                ));
            }
        }
        assert(all.take(n as int) == all);
        Screen { filter_label: filter_label(self.days_filter), cards }
    }

    /// What the window shows. The clock of the machine gives the time. With no filter
    /// set, that is every item, whatever the time, and an empty search text hides none
    /// whatever filters are set.
    pub fn screen(&self) -> (screen: Screen)
        requires
            self@.wf(),
            is_comparable(self@),
        ensures
            exists|now: LocalTime|
                calendar::is_present(now) && now.wf() && screen@ == #[trigger] screen_of(
                    self@,
                    now,
                ),
            is_unfiltered(self@) ==> screen@.cards == all_cards(self@),
            self@.search_query.len() == 0 ==> forall|i: int|
                0 <= i < self@.history.len() ==> is_found(
                    self@.search_query,
                    #[trigger] self@.history[i],
                ),
    {
        let now = present_time();
        self.screen_at(now)
    }
}

/// The cards are those of the items that pass all filters, each with one card, and
/// newer items stand before older ones.
pub proof fn law_cards_match_filters(s: StateView, now: LocalTime)
    ensures
        forall|k: int|
            0 <= k < screen_of(s, now).cards.len() ==> {
                let card = #[trigger] screen_of(s, now).cards[k];
                &&& 0 <= card.index < s.history.len()
                &&& is_shown(s, s.history[card.index], now)
                &&& card == card_of(card.index, s.history[card.index])
            },
        forall|i: int|
            0 <= i < s.history.len() && is_shown(s, #[trigger] s.history[i], now) ==> exists|k: int|
                0 <= k < screen_of(s, now).cards.len() && (#[trigger] screen_of(
                    s,
                    now,
                ).cards[k]).index == i,
        forall|k: int, l: int|
            0 <= k < l < screen_of(s, now).cards.len() ==> (#[trigger] screen_of(
                s,
                now,
            ).cards[k]).index > (#[trigger] screen_of(s, now).cards[l]).index,
{
    let n = s.history.len();
    let all = backwards(n);
    let keep = |i: int| is_shown(s, s.history[i], now);
    let shown = shown_indices(s, now);
    let cards = screen_of(s, now).cards;
    lemma_filter_falls(all, keep);
    assert forall|k: int| 0 <= k < cards.len() implies {
        let card = #[trigger] cards[k];
        &&& 0 <= card.index < s.history.len()
        &&& is_shown(s, s.history[card.index], now)
        &&& card == card_of(card.index, s.history[card.index])
    } by {
        assert(shown.contains(shown[k]));
        all.lemma_filter_contains_rev(keep, shown[k]);
        all.lemma_filter_pred(keep, k);
    }
    assert forall|i: int| 0 <= i < n && is_shown(s, #[trigger] s.history[i], now) implies exists|
        k: int,
    | 0 <= k < cards.len() && (#[trigger] cards[k]).index == i by {
        assert(all[n - 1 - i] == i);
        all.lemma_filter_contains(keep, n - 1 - i);
        let k = choose|k: int| 0 <= k < shown.len() && shown[k] == i;
        assert(cards[k].index == i);
    }
}

/// A filter leaves falling numbers falling.
proof fn lemma_filter_falls(list: Seq<int>, keep: spec_fn(int) -> bool)
    requires
        forall|k: int, l: int| 0 <= k < l < list.len() ==> list[k] > list[l],
    ensures
        forall|k: int, l: int|
            0 <= k < l < list.filter(keep).len() ==> list.filter(keep)[k] > list.filter(keep)[l],
    decreases list.len(),
{
    reveal(Seq::filter);
    if list.len() > 0 {
        let front = list.drop_last();
        lemma_filter_falls(front, keep);
        let left = front.filter(keep);
        assert forall|k: int| 0 <= k < left.len() implies #[trigger] left[k] > list.last() by {
            assert(left.contains(left[k]));
            front.lemma_filter_contains_rev(keep, left[k]);
            let j = choose|j: int| 0 <= j < front.len() && front[j] == left[k];
            assert(list[j] > list[list.len() - 1]);
        }
    }
}

/// A wider filter hides nothing that a narrower one shows: more days, or all of them,
/// and items that need be no favorites or no images.
pub proof fn law_wider_filter_shows_more(
    narrow: StateView,
    wide: StateView,
    item: ItemView,
    now: LocalTime,
)
    requires
        wide.search_query == narrow.search_query,
        wide.days_filter < 1 || 1 <= narrow.days_filter <= wide.days_filter,
        wide.only_favorites ==> narrow.only_favorites,
        wide.only_images ==> narrow.only_images,
        is_shown(narrow, item, now),
    ensures
        is_shown(wide, item, now),
{
}

/// As time goes on, the filter by days only takes items out of sight: one that is shown
/// when it is older is shown when it is younger.
pub proof fn law_items_age(s: StateView, item: ItemView, now: LocalTime, later: LocalTime)
    requires
        calendar::elapsed_nanos(now, item.datetime) <= calendar::elapsed_nanos(
            later,
            item.datetime,
        ),
        is_shown(s, item, later),
    ensures
        is_shown(s, item, now),
{
}

/// A text has no more characters than bytes.
proof fn lemma_bytes_for_chars(s: Seq<char>)
    ensures
        s.len() <= vstd::utf8::encode_utf8(s).len(),
    decreases s.len(),
{
    if s.len() > 0 {
        lemma_bytes_for_chars(s.drop_first());
    }
}

/// A text of at most 100 bytes is shown whole; of a longer one that is not expanded, at
/// most its first 100 characters and a sign that there may be more.
pub proof fn law_shown_text(content: Seq<char>)
    ensures
        shown_text(content, true) == content,
        vstd::utf8::encode_utf8(content).len() <= PREVIEW_LIMIT ==> shown_text(content, false)
            == content,
        vstd::utf8::encode_utf8(content).len() > PREVIEW_LIMIT ==> exists|k: int|
            0 <= k <= PREVIEW_LIMIT && k <= content.len() && (k == PREVIEW_LIMIT || k
                == content.len()) && shown_text(content, false) == #[trigger] content.take(k)
                + "..."@,
{
    lemma_bytes_for_chars(content);
    let k = if content.len() > PREVIEW_LIMIT {
        PREVIEW_LIMIT as int
    } else {
        content.len() as int
    };
    assert(content.take(content.len() as int) == content);
    assert(content + Seq::<char>::empty() == content);
    assert(vstd::utf8::encode_utf8(content).len() > PREVIEW_LIMIT ==> shown_text(content, false)
        == content.take(k) + "..."@);
}

/// The search finds an item wherever the query stands in its whole content, letter case
/// aside, or in its date, as day and month or with the year; and everything if the query
/// is empty.
pub proof fn law_search_finds(query: Seq<char>, item: ItemView, before: Seq<char>, after: Seq<char>)
    requires
        ({
            let q = text::lowercase(query);
            let t = item.datetime.civil;
            ||| q.len() == 0
            ||| text::lowercase(item.content) == before + q + after
            ||| calendar::day_month(t) == before + q + after
            ||| calendar::day_month(t) + seq!['.'] + calendar::year_text(t.year as int) == before
                + q + after
        }),
    ensures
        is_found(query, item),
{
    let q = text::lowercase(query);
    let t = item.datetime.civil;
    calendar::law_formats(t);
    text::law_contains_text(text::lowercase(item.content), q);
    text::law_contains_text(calendar::day_month(t), q);
    text::law_contains_text(
        calendar::day_month(t) + seq!['.'] + calendar::year_text(t.year as int),
        q,
    );
}

/// The search finds nothing else: what it finds has the query in its content, letter case
/// aside, or in its date.
pub proof fn law_search_finds_only(query: Seq<char>, item: ItemView)
    requires
        is_found(query, item),
        text::lowercase(query).len() > 0,
    ensures
        ({
            let q = text::lowercase(query);
            let t = item.datetime.civil;
            exists|before: Seq<char>, after: Seq<char>|
                {
                    let s = #[trigger] (before + q + after);
                    ||| s == text::lowercase(item.content)
                    ||| s == calendar::day_month(t)
                    ||| s == calendar::day_month(t) + seq!['.'] + calendar::year_text(t.year as int)
                }
        }),
{
    let q = text::lowercase(query);
    let t = item.datetime.civil;
    calendar::law_formats(t);
    text::law_contains_text(text::lowercase(item.content), q);
    text::law_contains_text(calendar::day_month(t), q);
    text::law_contains_text(
        calendar::day_month(t) + seq!['.'] + calendar::year_text(t.year as int),
        q,
    );
}

/// An item is shown if and only if the search finds it, it is a favorite where only those
/// are wanted, an image where only those are wanted, and less than the wanted number of
/// days of 24 hours old, if that is at least one.
pub proof fn law_shown(s: StateView, item: ItemView, now: LocalTime)
    ensures
        is_shown(s, item, now) <==> {
            &&& is_found(s.search_query, item)
            &&& item.is_favorite || !s.only_favorites
            &&& item.is_image || !s.only_images
            &&& s.days_filter <= 0 || calendar::elapsed_nanos(now, item.datetime) < s.days_filter
                * (24 * 60 * 60 * 1_000_000_000)
        },
{
}

/// What a card says of its item: its day and time, its mark, its whole content to copy,
/// and a body that is the picture in the size that goes with it, or the text.
pub proof fn law_card(s: StateView, now: LocalTime, k: int)
    requires
        0 <= k < screen_of(s, now).cards.len(),
    ensures
        ({
            let card = screen_of(s, now).cards[k];
            let item = s.history[card.index];
            let t = item.datetime.civil;
            &&& card.header == calendar::day_month(t) + seq![' '] + calendar::clock_face(t)
            &&& card.star == (if item.is_favorite {
                '★'
            } else {
                '☆'
            })
            &&& card.is_favorite == item.is_favorite
            &&& card.is_image == item.is_image
            &&& card.content == item.content
            &&& match card.body {
                BodyView::Picture { width, height } => item.is_image && item.has_preview && if item.expanded {
                    width == 400 && height == 300
                } else {
                    width == 150 && height == 100
                },
                BodyView::NoPicture => item.is_image && !item.has_preview,
                BodyView::Text(shown) => {
                    &&& !item.is_image
                    &&& item.expanded ==> shown == item.content
                    &&& vstd::utf8::encode_utf8(item.content).len() <= 100 ==> shown == item.content
                    &&& !item.expanded && vstd::utf8::encode_utf8(item.content).len() > 100
                        ==> shown == (if item.content.len() > 100 {
                        item.content.take(100)
                    } else {
                        item.content
                    }) + "..."@
                },
            }
        }),
{
    law_cards_match_filters(s, now);
    let card = screen_of(s, now).cards[k];
    let item = s.history[card.index];
    calendar::law_formats(item.datetime.civil);
    law_shown_text(item.content);
}

/// The window says how many days are shown: the number itself, in decimal, or that all
/// are.
pub proof fn law_label(s: StateView, now: LocalTime)
    ensures
        s.days_filter <= 0 ==> screen_of(s, now).filter_label == "За всё время"@,
        1 <= s.days_filter <= 0x7FFF_FFFF ==> screen_of(s, now).filter_label
            == "За последние "@ + text::decimal(s.days_filter as nat) + " дн."@,
        s.days_filter > 0x7FFF_FFFF ==> screen_of(s, now).filter_label == "За последние "@
            + text::decimal(0x7FFF_FFFF) + " дн."@,
{
}

/// There is a screen for every state without items, and for every number of days to show
/// up to the longest span that can be compared.
pub proof fn law_screen_possible(s: StateView)
    ensures
        is_comparable(s) <==> s.history.len() == 0 || s.days_filter <= 106_751_991_167,
{
}

/// The models of what is shown hold all of it.
pub proof fn law_screen_models(body: CardBody, card: Card, screen: Screen)
    ensures
        body matches CardBody::Picture { width, height } ==> body@ == (BodyView::Picture {
            width: width as int,
            height: height as int,
        }),
        body is NoPicture ==> body@ == BodyView::NoPicture,
        body matches CardBody::Text(t) ==> body@ == BodyView::Text(t@),
        card@.index == card.index && card@.header == card.header@ && card@.star == card.star,
        card@.is_favorite == card.is_favorite && card@.is_image == card.is_image,
        card@.body == card.body@ && card@.content == card.content@,
        screen@.filter_label == screen.filter_label@,
        screen@.cards.len() == screen.cards@.len(),
        forall|i: int|
            0 <= i < screen.cards@.len() ==> #[trigger] screen@.cards[i] == screen.cards@[i]@,
{
}

} // verus!
