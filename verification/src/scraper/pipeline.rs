//! Cleaning of scraped items: whitespace normalisation, dropping empty items
//! and removing duplicates.
use vstd::prelude::*;
use crate::text::{all_ws, chars_eq, chars_of, collapse_whitespace, is_blank, join, str_eq, string_of, words};
use crate::scraper::types::ScrapedItem;

verus! {

/// `s` with surrounding whitespace removed and inner runs of whitespace turned
/// into single spaces.
pub open spec fn collapsed(s: Seq<char>) -> Seq<char> {
    join(words(s), seq![' '])
}

/// The fields with every value collapsed.
pub open spec fn cleaned(f: Seq<(Seq<char>, Seq<char>)>) -> Seq<(Seq<char>, Seq<char>)> {
    f.map_values(|p: (Seq<char>, Seq<char>)| (p.0, collapsed(p.1)))
}

/// Some value of the item is not blank.
pub open spec fn has_content(f: Seq<(Seq<char>, Seq<char>)>) -> bool {
    exists|i: int| 0 <= i < f.len() && !all_ws(#[trigger] f[i].1)
}

/// The items of `s` that have content, in order.
pub open spec fn non_empty_items(s: Seq<Seq<(Seq<char>, Seq<char>)>>) -> Seq<Seq<(Seq<char>, Seq<char>)>>
    decreases s.len(),
{
    if s.len() == 0 {
        s
    } else if has_content(s.last()) {
        non_empty_items(s.drop_last()).push(s.last())
    } else {
        non_empty_items(s.drop_last())
    }
}

/// Two items are duplicates when they have the same fields: the same
/// name/value pairs (for items that hold each name once, as a scraped item
/// does, the same map from names to values).
pub open spec fn same_fields(a: Seq<(Seq<char>, Seq<char>)>, b: Seq<(Seq<char>, Seq<char>)>) -> bool {
    a.to_set() == b.to_set()
}

/// Some item of `d` has the same fields as `f`.
pub open spec fn has_same_fields(d: Seq<Seq<(Seq<char>, Seq<char>)>>, f: Seq<(Seq<char>, Seq<char>)>) -> bool {
    exists|k: int| 0 <= k < d.len() && same_fields(#[trigger] d[k], f)
}

/// The items of `s` whose fields no earlier item has, in order.
pub open spec fn first_occurrences(s: Seq<Seq<(Seq<char>, Seq<char>)>>) -> Seq<Seq<(Seq<char>, Seq<char>)>>
    decreases s.len(),
{
    if s.len() == 0 {
        s
    } else if has_same_fields(s.drop_last(), s.last()) {
        first_occurrences(s.drop_last())
    } else {
        first_occurrences(s.drop_last()).push(s.last())
    }
}

/// The views of a list of items.
pub open spec fn items_view(items: Seq<ScrapedItem>) -> Seq<Seq<(Seq<char>, Seq<char>)>> {
    items.map_values(|it: ScrapedItem| it@)
}

/// The whole default pipeline on item views.
pub open spec fn pipeline(s: Seq<Seq<(Seq<char>, Seq<char>)>>) -> Seq<Seq<(Seq<char>, Seq<char>)>> {
    first_occurrences(non_empty_items(s.map_values(|f: Seq<(Seq<char>, Seq<char>)>| cleaned(f))))
}

/// The item with every value collapsed.
fn clean_item(item: &ScrapedItem) -> (r: ScrapedItem)
    ensures
        r@ == cleaned(item@),
{
    let mut fields: Vec<(String, String)> = Vec::new();
    let mut i: usize = 0;
    while i < item.fields.len()
        invariant
            i <= item@.len(),
            item@.len() == item.fields@.len(),
            fields@.len() == i,
            forall|j: int| 0 <= j < i ==> (#[trigger] fields@[j]).0@ == item@[j].0
                && fields@[j].1@ == collapsed(item@[j].1),
        decreases item@.len() - i,
    {
        let name = item.fields[i].0.clone();
        let v = chars_of(item.fields[i].1.as_str());
        let c = collapse_whitespace(&v);
        fields.push((name, string_of(&c)));
        i = i + 1;
    }
    let r = ScrapedItem { fields };
    proof {
        assert(r@ =~= cleaned(item@));
    }
    r
}

/// Strips leading and trailing whitespace and collapses inner whitespace in
/// every field of every item.
pub fn clean_whitespace(items: &mut [ScrapedItem])
    ensures
        items_view(final(items)@) == items_view(old(items)@).map_values(
            |f: Seq<(Seq<char>, Seq<char>)>| cleaned(f),
        ),
{
    let ghost orig = items@;
    let mut i: usize = 0;
    while i < items.len()
        invariant
            i <= items@.len(),
            items@.len() == orig.len(),
            forall|j: int| 0 <= j < i ==> (#[trigger] items@[j])@ == cleaned(orig[j]@),
            forall|j: int| i <= j < items@.len() ==> (#[trigger] items@[j]) == orig[j],
        decreases items@.len() - i,
    {
        let c = clean_item(&items[i]);
        items[i] = c;
        i = i + 1;
    }
    proof {
        assert(items_view(items@) =~= items_view(orig).map_values(
            |f: Seq<(Seq<char>, Seq<char>)>| cleaned(f),
        ));
    }
}

/// Does some value of the item have a non-whitespace character?
fn item_has_content(item: &ScrapedItem) -> (r: bool)
    ensures
        r == has_content(item@),
{
    let mut i: usize = 0;
    while i < item.fields.len()
        invariant
            i <= item@.len(),
            item@.len() == item.fields@.len(),
            forall|j: int| 0 <= j < i ==> all_ws(#[trigger] item@[j].1),
        decreases item@.len() - i,
    {
        let v = chars_of(item.fields[i].1.as_str());
        if !is_blank(&v) {
            proof {
                assert(!all_ws(item@[i as int].1));
            }
            return true;
        }
        i = i + 1;
    }
    false
}

/// Removes the items whose fields are all empty or whitespace.
pub fn drop_empty(items: &mut Vec<ScrapedItem>)
    ensures
        items_view(final(items)@) == non_empty_items(items_view(old(items)@)),
{
    let ghost src = items_view(items@);
    let mut out: Vec<ScrapedItem> = Vec::new();
    let mut i: usize = 0;
    while i < items.len()
        invariant
            i <= items@.len(),
            src == items_view(items@),
            items_view(out@) == non_empty_items(src.take(i as int)),
        decreases items@.len() - i,
    {
        proof {
            assert(src.take(i + 1).drop_last() =~= src.take(i as int));
            assert(src.take(i + 1).last() == items@[i as int]@);
        }
        if item_has_content(&items[i]) {
            out.push(items[i].clone_item());
            proof {
                assert(items_view(out@) =~= non_empty_items(src.take(i as int)).push(items@[i as int]@));
            }
        }
        i = i + 1;
    }
    proof {
        assert(src.take(items@.len() as int) =~= src);
    }
    *items = out;
}

impl ScrapedItem {
    /// A copy of the item.
    pub fn clone_item(&self) -> (r: ScrapedItem)
        ensures
            r@ == self@,
    {
        let mut fields: Vec<(String, String)> = Vec::new();
        let mut i: usize = 0;
        while i < self.fields.len()
            invariant
                i <= self@.len(),
                self@.len() == self.fields@.len(),
                fields@.len() == i,
                forall|j: int| 0 <= j < i ==> (#[trigger] fields@[j]).0@ == self@[j].0
                    && fields@[j].1@ == self@[j].1,
            decreases self@.len() - i,
        {
            let n = string_of(&chars_of(self.fields[i].0.as_str()));
            let v = string_of(&chars_of(self.fields[i].1.as_str()));
            fields.push((n, v));
            i = i + 1;
        }
        let r = ScrapedItem { fields };
        proof {
            assert(r@ =~= self@);
        }
        r
    }
}

/// Does `b` hold the name/value pair `p`?
fn has_pair(b: &ScrapedItem, p: &(String, String)) -> (r: bool)
    ensures
        r == b@.contains(p@),
{
    let mut i: usize = 0;
    while i < b.fields.len()
        invariant
            i <= b.fields@.len(),
            b@.len() == b.fields@.len(),
            forall|j: int| 0 <= j < i ==> b@[j] != p@,
        decreases b.fields@.len() - i,
    {
        proof {
            assert(b@[i as int] == b.fields@[i as int]@);
        }
        if str_eq(b.fields[i].0.as_str(), p.0.as_str()) && str_eq(b.fields[i].1.as_str(), p.1.as_str()) {
            proof {
                assert(b@[i as int] == p@);
            }
            return true;
        }
        i = i + 1;
    }
    false
}

/// Every pair of `a` is a pair of `b`.
fn pairs_within(a: &ScrapedItem, b: &ScrapedItem) -> (r: bool)
    ensures
        r == forall|k: int| 0 <= k < a@.len() ==> b@.contains(#[trigger] a@[k]),
{
    let mut i: usize = 0;
    while i < a.fields.len()
        invariant
            i <= a.fields@.len(),
            a@.len() == a.fields@.len(),
            forall|k: int| 0 <= k < i ==> b@.contains(#[trigger] a@[k]),
        decreases a.fields@.len() - i,
    {
        proof {
            assert(a@[i as int] == a.fields@[i as int]@);
        }
        if !has_pair(b, &a.fields[i]) {
            return false;
        }
        i = i + 1;
    }
    true
}

/// Do the two items have the same fields (see [`same_fields`])?
fn same_fields_exec(a: &ScrapedItem, b: &ScrapedItem) -> (r: bool)
    ensures
        r == same_fields(a@, b@),
{
    let ab = pairs_within(a, b);
    let ba = pairs_within(b, a);
    proof {
        if ab && ba {
            assert forall|x: (Seq<char>, Seq<char>)| a@.to_set().contains(x) <==> b@.to_set().contains(x) by {
                if a@.contains(x) {
                    let k = choose|k: int| 0 <= k < a@.len() && a@[k] == x;
                    assert(b@.contains(a@[k]));
                }
                if b@.contains(x) {
                    let k = choose|k: int| 0 <= k < b@.len() && b@[k] == x;
                    assert(a@.contains(b@[k]));
                }
            }
            assert(a@.to_set() =~= b@.to_set());
        } else if !ab {
            let k = choose|k: int| 0 <= k < a@.len() && !b@.contains(#[trigger] a@[k]);
            assert(a@.to_set().contains(a@[k]));
            assert(!b@.to_set().contains(a@[k]));
        } else {
            let k = choose|k: int| 0 <= k < b@.len() && !a@.contains(#[trigger] b@[k]);
            assert(b@.to_set().contains(b@[k]));
            assert(!a@.to_set().contains(b@[k]));
        }
    }
    ab && ba
}

/// Does some item among the first `n` of `items` have the fields of `f`?
fn seen_earlier(items: &Vec<ScrapedItem>, n: usize, f: &ScrapedItem) -> (r: bool)
    requires
        n <= items@.len(),
    ensures
        r == has_same_fields(items_view(items@).take(n as int), f@),
{
    let ghost d = items_view(items@).take(n as int);
    let mut k: usize = 0;
    while k < n
        invariant
            k <= n,
            n <= items@.len(),
            d == items_view(items@).take(n as int),
            forall|j: int| 0 <= j < k ==> !same_fields(#[trigger] d[j], f@),
        decreases n - k,
    {
        proof {
            assert(d[k as int] == items@[k as int]@);
        }
        if same_fields_exec(&items[k], f) {
            return true;
        }
        k = k + 1;
    }
    false
}

/// Is `x` among `list`?
pub(crate) fn contains_text(list: &Vec<Vec<char>>, x: &[char]) -> (r: bool)
    ensures
        r == list@.map_values(|v: Vec<char>| v@).contains(x@),
{
    let ghost lv = list@.map_values(|v: Vec<char>| v@);
    let mut i: usize = 0;
    while i < list.len()
        invariant
            i <= list@.len(),
            lv == list@.map_values(|v: Vec<char>| v@),
            forall|j: int| 0 <= j < i ==> lv[j] != x@,
        decreases list@.len() - i,
    {
        if chars_eq(&list[i], x) {
            proof {
                assert(lv[i as int] == x@);
            }
            return true;
        }
        i = i + 1;
    }
    false
}

/// Removes every item whose fields an earlier item has (see
/// [`same_fields`]), keeping the first of each.
pub fn deduplicate(items: &mut Vec<ScrapedItem>)
    ensures
        items_view(final(items)@) == first_occurrences(items_view(old(items)@)),
{
    let ghost src = items_view(items@);
    let mut out: Vec<ScrapedItem> = Vec::new();
    let mut i: usize = 0;
    while i < items.len()
        invariant
            i <= items@.len(),
            src == items_view(items@),
            items_view(out@) == first_occurrences(src.take(i as int)),
        decreases items@.len() - i,
    {
        let ghost pre = src.take(i as int);
        proof {
            assert(src.take(i + 1).drop_last() =~= pre);
            assert(src.take(i + 1).last() == items@[i as int]@);
        }
        if !seen_earlier(items, i, &items[i]) {
            out.push(items[i].clone_item());
            proof {
                assert(items_view(out@) =~= first_occurrences(pre).push(items@[i as int]@));
            }
        }
        i = i + 1;
    }
    proof {
        assert(src.take(items@.len() as int) =~= src);
    }
    *items = out;
}

/// Runs the default pipeline: clean whitespace, drop empty items, remove
/// duplicates.
pub fn run_pipeline(items: &mut Vec<ScrapedItem>)
    ensures
        items_view(final(items)@) == pipeline(items_view(old(items)@)),
{
    clean_whitespace(items.as_mut_slice());
    drop_empty(items);
    deduplicate(items);
}

/// Every item that `first_occurrences` keeps comes from the input.
proof fn lemma_first_occurrences_from_input(s: Seq<Seq<(Seq<char>, Seq<char>)>>)
    ensures
        forall|i: int| 0 <= i < first_occurrences(s).len() ==> s.contains(#[trigger] first_occurrences(s)[i]),
    decreases s.len(),
{
    if s.len() > 0 {
        let d = s.drop_last();
        lemma_first_occurrences_from_input(d);
        assert forall|i: int| 0 <= i < first_occurrences(s).len() implies s.contains(#[trigger] first_occurrences(s)[i]) by {
            if i < first_occurrences(d).len() {
                assert(first_occurrences(s)[i] == first_occurrences(d)[i]);
                let k = choose|k: int| 0 <= k < d.len() && d[k] == first_occurrences(d)[i];
                assert(s[k] == d[k]);
            } else {
                assert(first_occurrences(s)[i] == s.last());
                assert(s[s.len() - 1] == s.last());
            }
        }
    }
}

/// After removing duplicates no two items have the same fields, and every
/// item removed has the fields of an item kept.
pub proof fn law_deduplicated_fields_distinct(s: Seq<Seq<(Seq<char>, Seq<char>)>>)
    ensures
        forall|i: int, j: int| 0 <= i < j < first_occurrences(s).len() ==>
            !same_fields(#[trigger] first_occurrences(s)[i], #[trigger] first_occurrences(s)[j]),
        forall|i: int| 0 <= i < s.len() ==> has_same_fields(first_occurrences(s), #[trigger] s[i]),
    decreases s.len(),
{
    if s.len() > 0 {
        let d = s.drop_last();
        law_deduplicated_fields_distinct(d);
        lemma_first_occurrences_from_input(d);
        let fd = first_occurrences(d);
        let fs = first_occurrences(s);
        assert forall|i: int, j: int| 0 <= i < j < fs.len() implies
            !same_fields(#[trigger] fs[i], #[trigger] fs[j]) by {
            if j < fd.len() {
                assert(fs[i] == fd[i]);
                assert(fs[j] == fd[j]);
            } else {
                assert(!has_same_fields(d, s.last()));
                assert(fs[j] == s.last());
                assert(fs[i] == fd[i]);
                assert(d.contains(fd[i]));
                let k = choose|k: int| 0 <= k < d.len() && d[k] == fd[i];
                if same_fields(fs[i], fs[j]) {
                    assert(same_fields(d[k], s.last()));
                }
            }
        }
        assert forall|i: int| 0 <= i < s.len() implies has_same_fields(fs, #[trigger] s[i]) by {
            if i < d.len() {
                assert(s[i] == d[i]);
                assert(has_same_fields(fd, d[i]));
                let k = choose|k: int| 0 <= k < fd.len() && same_fields(#[trigger] fd[k], d[i]);
                assert(fs[k] == fd[k]);
            } else if has_same_fields(d, s.last()) {
                let k = choose|k: int| 0 <= k < d.len() && same_fields(#[trigger] d[k], s.last());
                assert(has_same_fields(fd, d[k]));
                let m = choose|m: int| 0 <= m < fd.len() && same_fields(#[trigger] fd[m], d[k]);
                assert(fs[m] == fd[m]);
                assert(same_fields(fs[m], s[i]));
            } else {
                assert(fs[fs.len() - 1] == s.last());
                assert(same_fields(fs[fs.len() - 1], s[i]));
            }
        }
    }
}

/// After dropping empty items, every item left has a non-blank value.
pub proof fn law_kept_items_have_content(s: Seq<Seq<(Seq<char>, Seq<char>)>>)
    ensures
        forall|i: int| 0 <= i < non_empty_items(s).len() ==> has_content(#[trigger] non_empty_items(s)[i]),
    decreases s.len(),
{
    if s.len() > 0 {
        law_kept_items_have_content(s.drop_last());
        let d = non_empty_items(s.drop_last());
        assert forall|i: int| 0 <= i < non_empty_items(s).len() implies has_content(#[trigger] non_empty_items(s)[i]) by {
            if i < d.len() {
                assert(non_empty_items(s)[i] == d[i]);
            }
        }
    }
}

} // verus!
