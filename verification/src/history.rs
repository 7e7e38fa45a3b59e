//! The items of the clipboard history.

use vstd::prelude::*;

use crate::calendar::LocalTime;

verus! {

/// Something that was on the clipboard: a text, or an image that was saved to a file.
#[derive(Debug, PartialEq, Eq)]
pub struct HistoryItem {
    /// When it was seen.
    pub datetime: LocalTime,
    /// The text, or the name of the image's file.
    pub content: String,
    /// Whether it is an image.
    pub is_image: bool,
    /// Whether there is an image to draw.
    pub has_preview: bool,
    /// Whether it is shown in full.
    pub expanded: bool,
    /// Whether it is marked as a favorite.
    pub is_favorite: bool,
}

/// The model of a [`HistoryItem`].
pub struct ItemView {
    pub datetime: LocalTime,
    pub content: Seq<char>,
    pub is_image: bool,
    pub has_preview: bool,
    pub expanded: bool,
    pub is_favorite: bool,
}

impl View for HistoryItem {
    type V = ItemView;

    open spec fn view(&self) -> ItemView {
        ItemView {
            datetime: self.datetime,
            content: self.content@,
            is_image: self.is_image,
            has_preview: self.has_preview,
            expanded: self.expanded,
            is_favorite: self.is_favorite,
        }
    }
}

/// The models of a list of items.
pub open spec fn items(history: Seq<HistoryItem>) -> Seq<ItemView> {
    history.map_values(|i: HistoryItem| i@)
}

/// Every item has a time that exists.
pub open spec fn all_wf(history: Seq<ItemView>) -> bool {
    forall|i: int| 0 <= i < history.len() ==> (#[trigger] history[i]).datetime.wf()
}

/// The model of an item holds all of it, and a list of items is sound if and only if each
/// of their times is.
pub proof fn law_item_models(item: HistoryItem, list: Seq<HistoryItem>)
    ensures
        item@.datetime == item.datetime && item@.content == item.content@,
        item@.is_image == item.is_image && item@.has_preview == item.has_preview,
        item@.expanded == item.expanded && item@.is_favorite == item.is_favorite,
        items(list).len() == list.len(),
        forall|i: int| 0 <= i < list.len() ==> #[trigger] items(list)[i] == list[i]@,
        all_wf(items(list)) <==> forall|i: int|
            0 <= i < list.len() ==> (#[trigger] list[i]).datetime.wf(),
{
    if forall|i: int| 0 <= i < list.len() ==> (#[trigger] list[i]).datetime.wf() {
        assert forall|i: int| 0 <= i < items(list).len() implies (
        #[trigger] items(list)[i]).datetime.wf() by {
            assert(list[i].datetime.wf());
        }
    }
    if all_wf(items(list)) {
        assert forall|i: int| 0 <= i < list.len() implies (#[trigger] list[i]).datetime.wf() by {
            assert(items(list)[i].datetime.wf());
        }
    }
}

} // verus!
