//! A feed entry as the extractors build it.

use crate::urls::opt_view;
use vstd::prelude::*;

verus! {

/// A candidate feed entry.
pub struct Item {
    pub title: String,
    pub link: String,
    pub description: Option<String>,
    pub pub_date: Option<String>,
    pub image: Option<String>,
}

/// The text of an entry.
pub struct ItemView {
    pub title: Seq<char>,
    pub link: Seq<char>,
    pub description: Option<Seq<char>>,
    pub pub_date: Option<Seq<char>>,
    pub image: Option<Seq<char>>,
}

impl View for Item {
    type V = ItemView;

    open spec fn view(&self) -> ItemView {
        ItemView {
            title: self.title@,
            link: self.link@,
            description: opt_view(self.description),
            pub_date: opt_view(self.pub_date),
            image: opt_view(self.image),
        }
    }
}

/// The entries of a list, in order.
pub open spec fn items_view(v: Seq<Item>) -> Seq<ItemView> {
    v.map_values(|i: Item| i@)
}

/// The links of the entries, in order.
pub open spec fn links_of(items: Seq<ItemView>) -> Seq<Seq<char>> {
    items.map_values(|it: ItemView| it.link)
}

} // verus!
