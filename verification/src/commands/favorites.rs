//! Bookmarked pages.
use vstd::prelude::*;
use crate::text::{chars_eq, chars_of, str_eq};

verus! {

/// A bookmarked page.
#[derive(Debug, Clone)]
pub struct FavoriteItem {
    pub id: String,
    pub url: String,
    pub title: String,
    pub favicon: Option<String>,
    /// Milliseconds since the Unix epoch when it was added.
    pub created_at: u64,
}

/// The URLs of the bookmarks.
pub open spec fn urls(items: Seq<FavoriteItem>) -> Seq<Seq<char>> {
    items.map_values(|f: FavoriteItem| f.url@)
}

/// Some bookmark has the URL.
pub open spec fn has_url(items: Seq<FavoriteItem>, url: Seq<char>) -> bool {
    exists|i: int| 0 <= i < items.len() && (#[trigger] items[i]).url@ == url
}

/// Whether a page is bookmarked.
pub fn is_favorite(items: &Vec<FavoriteItem>, url: &str) -> (r: bool)
    ensures
        r == has_url(items@, url@),
{
    let mut i: usize = 0;
    while i < items.len()
        invariant
            i <= items@.len(),
            forall|j: int| 0 <= j < i ==> (#[trigger] items@[j]).url@ != url@,
        decreases items@.len() - i,
    {
        if str_eq(items[i].url.as_str(), url) {
            return true;
        }
        i = i + 1;
    }
    false
}

/// Bookmarks a page at the front of the list, unless its URL is bookmarked
/// already (then nothing changes). Says whether it was added.
pub fn add_favorite(items: &mut Vec<FavoriteItem>, id: String, url: String, title: String, favicon: Option<String>, created_at: u64) -> (added: bool)
    ensures
        added == !has_url(old(items)@, url@),
        added ==> final(items)@ == seq![FavoriteItem { id, url, title, favicon, created_at }] + old(items)@,
        !added ==> final(items)@ == old(items)@,
{
    if is_favorite(items, url.as_str()) {
        return false;
    }
    let ghost before = items@;
    items.insert(0, FavoriteItem { id, url, title, favicon, created_at });
    proof {
        assert(items@ =~= seq![items@[0]] + before);
    }
    true
}

/// The bookmarks without those whose id is `id`.
pub open spec fn without_id(items: Seq<FavoriteItem>, id: Seq<char>) -> Seq<FavoriteItem> {
    items.filter(|f: FavoriteItem| f.id@ != id)
}

/// Removes every bookmark with the id, keeping the others in order.
pub fn remove_favorite(items: &mut Vec<FavoriteItem>, id: &str)
    ensures
        final(items)@ == without_id(old(items)@, id@),
{
    let ghost src = items@;
    let mut out: Vec<FavoriteItem> = Vec::new();
    let mut i: usize = 0;
    while i < items.len()
        invariant
            i <= items@.len(),
            src == items@,
            out@ == without_id(src.take(i as int), id@),
        decreases items@.len() - i,
    {
        proof {
            assert(src.take(i + 1).drop_last() =~= src.take(i as int));
            reveal(Seq::filter);
        }
        if !str_eq(items[i].id.as_str(), id) {
            out.push(items[i].clone_item());
        }
        i = i + 1;
    }
    proof {
        assert(src.take(src.len() as int) =~= src);
    }
    *items = out;
}

impl FavoriteItem {
    /// A copy of the bookmark.
    pub fn clone_item(&self) -> (r: FavoriteItem)
        ensures
            r == *self,
    {
        FavoriteItem {
            id: self.id.clone(),
            url: self.url.clone(),
            title: self.title.clone(),
            favicon: match &self.favicon {
                Some(f) => Some(f.clone()),
                None => None,
            },
            created_at: self.created_at,
        }
    }
}

/// After a page is added it is bookmarked, and every page bookmarked before
/// still is.
pub proof fn law_added_is_favorite(items: Seq<FavoriteItem>, f: FavoriteItem, other: Seq<char>)
    ensures
        has_url(seq![f] + items, f.url@),
        has_url(items, other) ==> has_url(seq![f] + items, other),
{
    assert((seq![f] + items)[0] == f);
    if has_url(items, other) {
        let i = choose|i: int| 0 <= i < items.len() && (#[trigger] items[i]).url@ == other;
        assert((seq![f] + items)[i + 1] == items[i]);
    }
}

/// After removal no bookmark has the id, and every other bookmark stays.
pub proof fn law_removed_has_no_id(items: Seq<FavoriteItem>, id: Seq<char>)
    ensures
        forall|i: int| 0 <= i < without_id(items, id).len() ==> (#[trigger] without_id(items, id)[i]).id@ != id,
        forall|i: int| 0 <= i < items.len() && (#[trigger] items[i]).id@ != id ==> without_id(items, id).contains(items[i]),
{
    let p = |f: FavoriteItem| f.id@ != id;
    items.filter_lemma(p);
    assert forall|i: int| 0 <= i < items.len() && (#[trigger] items[i]).id@ != id implies without_id(items, id).contains(items[i]) by {
        assert(items.contains(items[i]));
        assert(p(items[i]));
    }
}

/// No URL is bookmarked twice.
pub open spec fn urls_distinct(items: Seq<FavoriteItem>) -> bool {
    forall|i: int, j: int| 0 <= i < j < items.len() ==> (#[trigger] items[i]).url@ != (#[trigger] items[j]).url@
}

/// Adding keeps every URL bookmarked at most once: a page is put in front
/// only when its URL is not bookmarked yet.
pub proof fn law_add_keeps_urls_distinct(items: Seq<FavoriteItem>, f: FavoriteItem)
    requires
        urls_distinct(items),
        !has_url(items, f.url@),
    ensures
        urls_distinct(seq![f] + items),
{
    let s = seq![f] + items;
    assert forall|i: int, j: int| 0 <= i < j < s.len() implies (#[trigger] s[i]).url@ != (#[trigger] s[j]).url@ by {
        if i == 0 {
            assert(s[j] == items[j - 1]);
        } else {
            assert(s[i] == items[i - 1] && s[j] == items[j - 1]);
        }
    }
}

} // verus!
