//! Export planning: output paths with the format's extension, and the CSV
//! table of scraped items. Writing the files is the application's part.
use vstd::prelude::*;
use crate::text::{chars_of, push_all, string_of};
use crate::sorting::{law_sort_by_text_key_orders, sort_by_text_key, stable_sort_by_text_key};
use crate::text::lex_lt;
use crate::scraper::types::{ExportFormat, ScrapedItem};
use crate::scraper::pipeline::{contains_text, items_view};

verus! {

/// The final component of `path` as `std::path::Path::file_name` gives it, or
/// `None` where the path has none (it ends in `..`, or is a root or empty).
pub uninterp spec fn spec_file_name(path: Seq<char>) -> Option<Seq<char>>;

/// Calls `std::path::Path::file_name` on `path`. Claims only that the result
/// is the named value (a `&str` path has a UTF-8 file name, so the conversion
/// loses nothing).
#[verifier::external_body]
fn file_name_of(path: &str) -> (r: Option<String>)
    ensures
        match r {
            Some(n) => spec_file_name(path@) == Some(n@),
            None => spec_file_name(path@) is None,
        },
{
    std::path::Path::new(path).file_name().map(|n| n.to_string_lossy().into_owned())
}

/// A file name has an extension (`Path::extension` is `Some`) when it holds a
/// `.` after its first character.
pub open spec fn name_has_extension(name: Seq<char>) -> bool {
    exists|i: int| 0 < i < name.len() && name[i] == '.'
}

/// Does the path's file name have an extension?
pub open spec fn path_has_extension(path: Seq<char>) -> bool {
    match spec_file_name(path) {
        Some(n) => name_has_extension(n),
        None => false,
    }
}

/// `path` unchanged when its file name has an extension, else `path.ext`.
pub open spec fn with_extension(path: Seq<char>, ext: Seq<char>) -> Seq<char> {
    if path_has_extension(path) {
        path
    } else {
        path + seq!['.'] + ext
    }
}

fn has_dot_after_first(name: &[char]) -> (r: bool)
    ensures
        r == name_has_extension(name@),
{
    let mut i: usize = 1;
    while i < name.len()
        invariant
            1 <= i,
            forall|j: int| 0 < j < i && j < name@.len() ==> name@[j] != '.',
        decreases name@.len() - i,
    {
        if name[i] == '.' {
            return true;
        }
        i = i + 1;
    }
    false
}

/// Adds `.ext` to the path unless its file name already has an extension.
pub fn ensure_extension(path: &str, ext: &str) -> (r: String)
    ensures
        r@ == with_extension(path@, ext@),
{
    let has = match file_name_of(path) {
        Some(n) => has_dot_after_first(&chars_of(n.as_str())),
        None => false,
    };
    if has {
        string_of(&chars_of(path))
    } else {
        let mut v = chars_of(path);
        v.push('.');
        let e = chars_of(ext);
        push_all(&mut v, &e);
        proof {
            assert(v@ =~= path@ + seq!['.'] + ext@);
        }
        string_of(&v)
    }
}

/// Every field name of every item, in order.
pub open spec fn all_names(items: Seq<Seq<(Seq<char>, Seq<char>)>>) -> Seq<Seq<char>>
    decreases items.len(),
{
    if items.len() == 0 {
        Seq::empty()
    } else {
        all_names(items.drop_last()) + items.last().map_values(|p: (Seq<char>, Seq<char>)| p.0)
    }
}

/// `s` without repeats, each kept where it first occurs.
pub open spec fn distinct_in_order(s: Seq<Seq<char>>) -> Seq<Seq<char>>
    decreases s.len(),
{
    if s.len() == 0 {
        s
    } else if s.drop_last().contains(s.last()) {
        distinct_in_order(s.drop_last())
    } else {
        distinct_in_order(s.drop_last()).push(s.last())
    }
}

/// The CSV header: every field name that occurs, once, in character order.
pub open spec fn csv_headers(items: Seq<Seq<(Seq<char>, Seq<char>)>>) -> Seq<Seq<char>> {
    sort_by_text_key(distinct_in_order(all_names(items)), |n: Seq<char>| n)
}

/// The CSV header row is in character-code order and holds each field name
/// that the items use, as often as it occurs among their distinct names.
pub proof fn law_csv_headers_sorted(items: Seq<Seq<(Seq<char>, Seq<char>)>>)
    ensures
        forall|i: int, j: int| 0 <= i <= j < csv_headers(items).len()
            ==> !lex_lt(#[trigger] csv_headers(items)[j], #[trigger] csv_headers(items)[i]),
        csv_headers(items).to_multiset() =~= distinct_in_order(all_names(items)).to_multiset(),
{
    law_sort_by_text_key_orders(distinct_in_order(all_names(items)), |n: Seq<char>| n);
}

/// The value of the first field called `name`, empty when there is none.
pub open spec fn cell(f: Seq<(Seq<char>, Seq<char>)>, name: Seq<char>) -> Seq<char> {
    match f.map_values(|p: (Seq<char>, Seq<char>)| p.0).index_of_first(name) {
        Some(i) => f[i].1,
        None => Seq::empty(),
    }
}

/// One CSV row per item: its value under each header.
pub open spec fn csv_rows(items: Seq<Seq<(Seq<char>, Seq<char>)>>) -> Seq<Seq<Seq<char>>> {
    items.map_values(|f: Seq<(Seq<char>, Seq<char>)>| csv_headers(items).map_values(|h: Seq<char>| cell(f, h)))
}

/// What an export writes: the path (with the format's extension added where
/// the file name has none) and, for CSV, the table.
pub enum ExportPlan {
    /// Pretty-printed JSON array of the items.
    Json { path: String },
    /// A header row and one row per item.
    Csv { path: String, headers: Vec<String>, rows: Vec<Vec<String>> },
    /// One compact JSON object per line.
    JsonLines { path: String },
}

/// The distinct field names of the items, in order of first occurrence.
fn distinct_names(items: &[ScrapedItem]) -> (r: Vec<Vec<char>>)
    ensures
        r@.map_values(|v: Vec<char>| v@) == distinct_in_order(all_names(items_view(items@))),
{
    let ghost iv = items_view(items@);
    let mut out: Vec<Vec<char>> = Vec::new();
    let ghost mut seen_all: Seq<Seq<char>> = Seq::empty();
    let mut i: usize = 0;
    while i < items.len()
        invariant
            i <= items@.len(),
            iv == items_view(items@),
            seen_all == all_names(iv.take(i as int)),
            out@.map_values(|v: Vec<char>| v@) == distinct_in_order(seen_all),
        decreases items@.len() - i,
    {
        proof {
            assert(iv.take(i + 1).drop_last() =~= iv.take(i as int));
            assert(iv.take(i + 1).last() == items@[i as int]@);
        }
        let item = &items[i];
        let ghost names_i = item@.map_values(|p: (Seq<char>, Seq<char>)| p.0);
        let ghost base = seen_all;
        let mut k: usize = 0;
        while k < item.fields.len()
            invariant
                k <= item@.len(),
                item@.len() == item.fields@.len(),
                names_i == item@.map_values(|p: (Seq<char>, Seq<char>)| p.0),
                seen_all == base + names_i.take(k as int),
                out@.map_values(|v: Vec<char>| v@) == distinct_in_order(seen_all),
            decreases item@.len() - k,
        {
            let name = chars_of(item.fields[k].0.as_str());
            proof {
                assert(name@ == names_i[k as int]);
                assert(base + names_i.take(k + 1) =~= (base + names_i.take(k as int)).push(name@));
                assert((base + names_i.take(k as int)).push(name@).drop_last() =~= base + names_i.take(k as int));
            }
            let present = contains_text(&out, &name);
            proof {
                lemma_distinct_same_members(seen_all);
            }
            if !present {
                let ghost before = out@.map_values(|v: Vec<char>| v@);
                out.push(name);
                proof {
                    assert(out@.map_values(|v: Vec<char>| v@) =~= before.push(names_i[k as int]));
                }
            }
            proof {
                seen_all = base + names_i.take(k + 1);
            }
            k = k + 1;
        }
        proof {
            assert(names_i.take(item@.len() as int) =~= names_i);
        }
        i = i + 1;
    }
    proof {
        assert(iv.take(items@.len() as int) =~= iv);
    }
    out
}

/// The distinct elements hold exactly the elements of the input.
proof fn lemma_distinct_same_members(s: Seq<Seq<char>>)
    ensures
        forall|x: Seq<char>| distinct_in_order(s).contains(x) <==> s.contains(x),
    decreases s.len(),
{
    if s.len() > 0 {
        let d = s.drop_last();
        lemma_distinct_same_members(d);
        assert forall|x: Seq<char>| distinct_in_order(s).contains(x) <==> s.contains(x) by {
            if s.contains(x) && x != s.last() {
                let k = choose|k: int| 0 <= k < s.len() && s[k] == x;
                assert(d[k] == x);
            }
            if d.contains(x) {
                let k = choose|k: int| 0 <= k < d.len() && d[k] == x;
                assert(s[k] == x);
            }
            if distinct_in_order(s).contains(x) && !distinct_in_order(d).contains(x) {
                let ds = distinct_in_order(d);
                let k = choose|k: int| 0 <= k < distinct_in_order(s).len() && distinct_in_order(s)[k] == x;
                if k < ds.len() {
                    assert(distinct_in_order(s)[k] == ds[k]);
                }
            }
            if distinct_in_order(d).contains(x) && !d.contains(s.last()) {
                let ds = distinct_in_order(d);
                let k = choose|k: int| 0 <= k < ds.len() && ds[k] == x;
                assert(distinct_in_order(s)[k] == x);
            }
            if x == s.last() && !d.contains(x) {
                assert(distinct_in_order(s).last() == x);
            }
        }
    }
}

/// The value of the first field called `name` in the item, empty if none.
fn item_cell(item: &ScrapedItem, name: &[char]) -> (r: Vec<char>)
    ensures
        r@ == cell(item@, name@),
{
    let ghost names = item@.map_values(|p: (Seq<char>, Seq<char>)| p.0);
    let mut i: usize = 0;
    while i < item.fields.len()
        invariant
            i <= item@.len(),
            item@.len() == item.fields@.len(),
            names == item@.map_values(|p: (Seq<char>, Seq<char>)| p.0),
            forall|j: int| 0 <= j < i ==> names[j] != name@,
        decreases item@.len() - i,
    {
        let n = chars_of(item.fields[i].0.as_str());
        if crate::text::chars_eq(&n, name) {
            proof {
                names.index_of_first_ensures(name@);
                assert(names[i as int] == name@);
            }
            return chars_of(item.fields[i].1.as_str());
        }
        i = i + 1;
    }
    proof {
        names.index_of_first_ensures(name@);
        assert(!names.contains(name@));
    }
    Vec::new()
}

/// The CSV header and rows for the items.
pub fn csv_table(items: &[ScrapedItem]) -> (r: (Vec<String>, Vec<Vec<String>>))
    ensures
        r.0@.map_values(|s: String| s@) == csv_headers(items_view(items@)),
        r.1@.len() == items@.len(),
        forall|i: int| 0 <= i < r.1@.len() ==> (#[trigger] r.1@[i])@.map_values(|s: String| s@)
            == csv_rows(items_view(items@))[i],
{
    let names = distinct_names(items);
    let mut keys: Vec<Vec<char>> = Vec::new();
    let mut k: usize = 0;
    while k < names.len()
        invariant
            k <= names@.len(),
            keys@.len() == k,
            forall|j: int| 0 <= j < k ==> (#[trigger] keys@[j])@ == names@[j]@,
        decreases names@.len() - k,
    {
        keys.push(crate::text::slice_chars(&names[k], 0, names[k].len()));
        proof {
            assert(names@[k as int]@.subrange(0, names@[k as int]@.len() as int) =~= names@[k as int]@);
        }
        k = k + 1;
    }
    let ghost id = |n: Seq<char>| n;
    let ghost nv = names@.map_values(|v: Vec<char>| v@);
    proof {
        assert(names@.map_values(|t: Vec<char>| t@) == nv);
    }
    let sorted = stable_sort_by_text_key(names, keys, Ghost(id));
    let ghost hv = csv_headers(items_view(items@));
    let mut headers: Vec<String> = Vec::new();
    let mut h: usize = 0;
    while h < sorted.len()
        invariant
            h <= sorted@.len(),
            sorted@.map_values(|t: Vec<char>| t@) == hv,
            headers@.len() == h,
            forall|j: int| 0 <= j < h ==> (#[trigger] headers@[j])@ == hv[j],
        decreases sorted@.len() - h,
    {
        proof {
            assert(hv[h as int] == sorted@[h as int]@);
        }
        headers.push(string_of(&sorted[h]));
        h = h + 1;
    }
    proof {
        assert(headers@.map_values(|s: String| s@) =~= hv);
    }
    let ghost iv = items_view(items@);
    let mut rows: Vec<Vec<String>> = Vec::new();
    let mut i: usize = 0;
    while i < items.len()
        invariant
            i <= items@.len(),
            iv == items_view(items@),
            sorted@.map_values(|t: Vec<char>| t@) == hv,
            hv == csv_headers(iv),
            rows@.len() == i,
            forall|j: int| 0 <= j < i ==> (#[trigger] rows@[j])@.map_values(|s: String| s@)
                == csv_rows(iv)[j],
        decreases items@.len() - i,
    {
        let mut row: Vec<String> = Vec::new();
        let mut c: usize = 0;
        while c < sorted.len()
            invariant
                c <= sorted@.len(),
                sorted@.map_values(|t: Vec<char>| t@) == hv,
                row@.len() == c,
                i < items@.len(),
                forall|j: int| 0 <= j < c ==> (#[trigger] row@[j])@ == cell(items@[i as int]@, hv[j]),
            decreases sorted@.len() - c,
        {
            proof {
                assert(hv[c as int] == sorted@[c as int]@);
            }
            let v = item_cell(&items[i], &sorted[c]);
            row.push(string_of(&v));
            c = c + 1;
        }
        proof {
            assert(iv[i as int] == items@[i as int]@);
            assert(row@.map_values(|s: String| s@) =~= csv_rows(iv)[i as int]);
        }
        rows.push(row);
        i = i + 1;
    }
    (headers, rows)
}

/// The export of `items` to `output_path` in `format`: JSON to `.json`, CSV
/// to `.csv`, JSON lines to `.jsonl`, each extension added only where the
/// file name has none.
pub fn export_items(items: &[ScrapedItem], output_path: &str, format: &ExportFormat) -> (r: ExportPlan)
    ensures
        match (*format, r) {
            (ExportFormat::Json, ExportPlan::Json { path }) => path@ == with_extension(output_path@, "json"@),
            (ExportFormat::JsonLines, ExportPlan::JsonLines { path }) => path@ == with_extension(output_path@, "jsonl"@),
            (ExportFormat::Csv, ExportPlan::Csv { path, headers, rows }) => {
                &&& path@ == with_extension(output_path@, "csv"@)
                &&& headers@.map_values(|s: String| s@) == csv_headers(items_view(items@))
                &&& rows@.len() == items@.len()
                &&& forall|i: int| 0 <= i < rows@.len() ==> (#[trigger] rows@[i])@.map_values(|s: String| s@)
                    == csv_rows(items_view(items@))[i]
            },
            _ => false,
        },
{
    match format {
        ExportFormat::Json => ExportPlan::Json { path: ensure_extension(output_path, "json") },
        ExportFormat::JsonLines => ExportPlan::JsonLines { path: ensure_extension(output_path, "jsonl") },
        ExportFormat::Csv => {
            let (headers, rows) = csv_table(items);
            ExportPlan::Csv { path: ensure_extension(output_path, "csv"), headers, rows }
        },
    }
}

} // verus!
