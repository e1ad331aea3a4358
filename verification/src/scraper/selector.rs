//! Field and link extraction from HTML through the `scraper` and `regex`
//! crates.
use vstd::prelude::*;
use crate::text::{chars_of, join, join_chars, push_all, starts_with, starts_with_chars, string_of,
    trim, trim_chars, trim_end_char, trim_end_char_chars, trim_start_char, trim_start_char_chars};
use crate::urls::{is_absolute_http, is_absolute_http_chars, spec_url_join, url_join};
use crate::scraper::types::{FieldRule, ScrapedItem, str_equal};
use crate::engine::dash::parser::opt_view;

verus! {

/// What a matched element offers for extraction: its HTML, its inner HTML, its
/// descendant text pieces and the value of one requested attribute.
pub struct HtmlElement {
    pub outer_html: String,
    pub inner_html: String,
    pub text: Vec<String>,
    pub attr: Option<String>,
}

impl View for HtmlElement {
    type V = (Seq<char>, Seq<char>, Seq<Seq<char>>, Option<Seq<char>>);

    open spec fn view(&self) -> (Seq<char>, Seq<char>, Seq<Seq<char>>, Option<Seq<char>>) {
        (self.outer_html@, self.inner_html@, self.text@.map_values(|t: String| t@), match self.attr {
            Some(a) => Some(a@),
            None => None,
        })
    }
}

/// The elements that CSS `selector` matches in `html` parsed as a document, in
/// document order, each with the value of its attribute `attr`; `None` when
/// the selector does not parse.
pub uninterp spec fn spec_select_document(html: Seq<char>, selector: Seq<char>, attr: Seq<char>)
    -> Option<Seq<(Seq<char>, Seq<char>, Seq<Seq<char>>, Option<Seq<char>>)>>;

/// The same as [`spec_select_document`] for `html` parsed as a fragment.
pub uninterp spec fn spec_select_fragment(html: Seq<char>, selector: Seq<char>, attr: Seq<char>)
    -> Option<Seq<(Seq<char>, Seq<char>, Seq<Seq<char>>, Option<Seq<char>>)>>;

/// For `regex::Regex::new(pattern)` and `captures(text)`: `None` when the
/// pattern does not compile, else, for the first match if there is one, the
/// text of group 0 and of group 1, each where it took part in the match.
pub uninterp spec fn spec_regex_captures(pattern: Seq<char>, text: Seq<char>)
    -> Option<Option<(Option<Seq<char>>, Option<Seq<char>>)>>;

/// The text a regex filter keeps of a match: group 1 where it took part, else
/// the whole match.
pub open spec fn captured_text(groups: (Option<Seq<char>>, Option<Seq<char>>)) -> Option<Seq<char>> {
    match groups.1 {
        Some(g) => Some(g),
        None => groups.0,
    }
}

/// The views of converted elements.
pub open spec fn elements_view(v: Seq<HtmlElement>) -> Seq<(Seq<char>, Seq<char>, Seq<Seq<char>>, Option<Seq<char>>)> {
    v.map_values(|e: HtmlElement| e@)
}

/// Calls `scraper::Selector::parse(selector)`, `Html::parse_document(html)` and
/// `Html::select`, and reads `html()`, `inner_html()`, `text()` and
/// `value().attr(attr)` of each match. Claims only that the result is the
/// named value.
#[verifier::external_body]
fn select_in_document(html: &str, selector: &str, attr: &str) -> (r: Option<Vec<HtmlElement>>)
    ensures
        match r {
            Some(v) => spec_select_document(html@, selector@, attr@) == Some(elements_view(v@)),
            None => spec_select_document(html@, selector@, attr@) is None,
        },
{
    let sel = scraper::Selector::parse(selector).ok()?;
    let doc = scraper::Html::parse_document(html);
    Some(doc.select(&sel).map(|el| HtmlElement {
        outer_html: el.html(),
        inner_html: el.inner_html(),
        text: el.text().map(|t| t.to_string()).collect(),
        attr: el.value().attr(attr).map(|a| a.to_string()),
    }).collect())
}

/// As [`select_in_document`], with `Html::parse_fragment(html)`.
#[verifier::external_body]
fn select_in_fragment(html: &str, selector: &str, attr: &str) -> (r: Option<Vec<HtmlElement>>)
    ensures
        match r {
            Some(v) => spec_select_fragment(html@, selector@, attr@) == Some(elements_view(v@)),
            None => spec_select_fragment(html@, selector@, attr@) is None,
        },
{
    let sel = scraper::Selector::parse(selector).ok()?;
    let doc = scraper::Html::parse_fragment(html);
    Some(doc.select(&sel).map(|el| HtmlElement {
        outer_html: el.html(),
        inner_html: el.inner_html(),
        text: el.text().map(|t| t.to_string()).collect(),
        attr: el.value().attr(attr).map(|a| a.to_string()),
    }).collect())
}

/// Calls `regex::Regex::new(pattern)` and `captures(text)`, and reads the
/// text of groups 0 and 1 of the match. Claims only that the result is the
/// named value.
#[verifier::external_body]
fn regex_captures(pattern: &str, text: &str) -> (r: Option<Option<(Option<String>, Option<String>)>>)
    ensures
        match r {
            Some(Some((g0, g1))) => spec_regex_captures(pattern@, text@) == Some(Some((opt_view(g0), opt_view(g1)))),
            Some(None) => spec_regex_captures(pattern@, text@)
                == Some(None::<(Option<Seq<char>>, Option<Seq<char>>)>),
            None => spec_regex_captures(pattern@, text@) is None,
        },
{
    let re = regex::Regex::new(pattern).ok()?;
    Some(re.captures(text).map(|c| (c.get(0).map(|m| m.as_str().to_string()), c.get(1).map(|m| m.as_str().to_string()))))
}

/// The text a regex filter keeps of `text` (see [`captured_text`]): `None`
/// when the pattern does not compile, `Some(None)` when it does not match.
pub(crate) fn regex_capture(pattern: &str, text: &str) -> (r: Option<Option<String>>)
    ensures
        match spec_regex_captures(pattern@, text@) {
            None => r is None,
            Some(None) => r == Some(None::<String>),
            Some(Some(groups)) => match captured_text(groups) {
                Some(t) => r matches Some(Some(m)) && m@ == t,
                None => r == Some(None::<String>),
            },
        },
{
    match regex_captures(pattern, text) {
        None => None,
        Some(None) => Some(None),
        Some(Some((g0, g1))) => match g1 {
            Some(g) => Some(Some(g)),
            None => match g0 {
                Some(g) => Some(Some(g)),
                None => Some(None),
            },
        },
    }
}

/// The value of an extraction kind applied to a matched element: trimmed text
/// joined with spaces for "text", inner HTML for "html" and "inner_html", the
/// element's HTML for "outer_html", else the named attribute (empty when
/// missing).
pub open spec fn raw_value(el: (Seq<char>, Seq<char>, Seq<Seq<char>>, Option<Seq<char>>), extract: Seq<char>) -> Seq<char> {
    if extract == "text"@ {
        trim(join(el.2, seq![' ']))
    } else if extract == "html"@ || extract == "inner_html"@ {
        el.1
    } else if extract == "outer_html"@ {
        el.0
    } else {
        match el.3 {
            Some(a) => a,
            None => Seq::empty(),
        }
    }
}

/// `raw` after the optional regex filter: the captured text where the pattern
/// compiles and matches, else `raw` unchanged.
pub open spec fn filtered(raw: Seq<char>, pattern: Option<Seq<char>>) -> Seq<char> {
    match pattern {
        Some(p) => match spec_regex_captures(p, raw) {
            Some(Some(groups)) => match captured_text(groups) {
                Some(m) => m,
                None => raw,
            },
            _ => raw,
        },
        None => raw,
    }
}

/// The elements a rule's selector matches, in the whole document or in a
/// fragment.
pub open spec fn rule_matches(html: Seq<char>, in_document: bool, rule: (Seq<char>, Seq<char>, Seq<char>, Option<Seq<char>>))
    -> Option<Seq<(Seq<char>, Seq<char>, Seq<Seq<char>>, Option<Seq<char>>)>> {
    if in_document {
        spec_select_document(html, rule.1, rule.2)
    } else {
        spec_select_fragment(html, rule.1, rule.2)
    }
}

/// The value a rule gives: `None` when its selector does not parse (the rule
/// is skipped), empty when nothing matches, else the filtered value of the
/// first match.
pub open spec fn rule_value(html: Seq<char>, in_document: bool, rule: (Seq<char>, Seq<char>, Seq<char>, Option<Seq<char>>)) -> Option<Seq<char>> {
    match rule_matches(html, in_document, rule) {
        None => None,
        Some(els) => if els.len() == 0 {
            Some(Seq::empty())
        } else {
            Some(filtered(raw_value(els[0], rule.2), rule.3))
        },
    }
}

/// `f` with field `name` set to `value` (replaced in place or appended).
pub open spec fn set_field(f: Seq<(Seq<char>, Seq<char>)>, name: Seq<char>, value: Seq<char>) -> Seq<(Seq<char>, Seq<char>)> {
    match f.map_values(|p: (Seq<char>, Seq<char>)| p.0).index_of_first(name) {
        Some(i) => f.update(i, (name, value)),
        None => f.push((name, value)),
    }
}

/// The item the rules give on `html`, applying them in order.
pub open spec fn item_from_rules(html: Seq<char>, in_document: bool, rules: Seq<(Seq<char>, Seq<char>, Seq<char>, Option<Seq<char>>)>) -> Seq<(Seq<char>, Seq<char>)>
    decreases rules.len(),
{
    if rules.len() == 0 {
        Seq::empty()
    } else {
        let prev = item_from_rules(html, in_document, rules.drop_last());
        match rule_value(html, in_document, rules.last()) {
            None => prev,
            Some(v) => set_field(prev, rules.last().0, v),
        }
    }
}

/// The views of the rules.
pub open spec fn rules_view(rules: Seq<FieldRule>) -> Seq<(Seq<char>, Seq<char>, Seq<char>, Option<Seq<char>>)> {
    rules.map_values(|r: FieldRule| r@)
}

/// The items `extract_items` gives: one per element matched by a valid item
/// selector, extracted from that element's HTML as a fragment; otherwise one
/// item from the whole page, or none when no rule produced a field.
pub open spec fn items_spec(html: Seq<char>, rules: Seq<(Seq<char>, Seq<char>, Seq<char>, Option<Seq<char>>)>, item_selector: Option<Seq<char>>) -> Seq<Seq<(Seq<char>, Seq<char>)>> {
    let whole = item_from_rules(html, true, rules);
    let page_items = if whole.len() == 0 { Seq::empty() } else { seq![whole] };
    match item_selector {
        Some(s) => match spec_select_document(html, s, Seq::empty()) {
            Some(els) => els.map_values(|e: (Seq<char>, Seq<char>, Seq<Seq<char>>, Option<Seq<char>>)| item_from_rules(e.0, false, rules)),
            None => page_items,
        },
        None => page_items,
    }
}

/// Is `v` equal to the text `lit`?
fn is_word(v: &str, lit: &str) -> (r: bool)
    ensures
        r == (v@ == lit@),
{
    str_equal(v, lit)
}

/// The value of a rule's extraction on a matched element.
fn element_value(el: &HtmlElement, extract: &str) -> (r: Vec<char>)
    ensures
        r@ == raw_value(el@, extract@),
{
    proof {
        reveal_strlit("text");
        reveal_strlit("html");
        reveal_strlit("inner_html");
        reveal_strlit("outer_html");
    }
    if is_word(extract, "text") {
        let mut pieces: Vec<Vec<char>> = Vec::new();
        let mut i: usize = 0;
        while i < el.text.len()
            invariant
                i <= el.text@.len(),
                pieces@.len() == i,
                forall|j: int| 0 <= j < i ==> (#[trigger] pieces@[j])@ == el.text@[j]@,
            decreases el.text@.len() - i,
        {
            pieces.push(chars_of(el.text[i].as_str()));
            i = i + 1;
        }
        let mut sep: Vec<char> = Vec::new();
        sep.push(' ');
        proof {
            assert(sep@ =~= seq![' ']);
            assert(pieces@.map_values(|p: Vec<char>| p@) =~= el.text@.map_values(|t: String| t@));
        }
        let joined = join_chars(&pieces, &sep);
        trim_chars(&joined)
    } else if is_word(extract, "html") || is_word(extract, "inner_html") {
        chars_of(el.inner_html.as_str())
    } else if is_word(extract, "outer_html") {
        chars_of(el.outer_html.as_str())
    } else {
        match &el.attr {
            Some(a) => chars_of(a.as_str()),
            None => Vec::new(),
        }
    }
}

/// The value of one rule on `html` (see [`rule_value`]).
fn apply_rule(html: &str, in_document: bool, rule: &FieldRule) -> (r: Option<Vec<char>>)
    ensures
        match r {
            Some(v) => rule_value(html@, in_document, rule@) == Some(v@),
            None => rule_value(html@, in_document, rule@) is None,
        },
{
    let found = if in_document {
        select_in_document(html, rule.css_selector.as_str(), rule.extract.as_str())
    } else {
        select_in_fragment(html, rule.css_selector.as_str(), rule.extract.as_str())
    };
    match found {
        None => None,
        Some(els) => {
            if els.len() == 0 {
                Some(Vec::new())
            } else {
                let raw = element_value(&els[0], rule.extract.as_str());
                match &rule.regex_filter {
                    None => Some(raw),
                    Some(p) => {
                        let raw_s = string_of(&raw);
                        match regex_capture(p.as_str(), raw_s.as_str()) {
                            Some(Some(m)) => Some(chars_of(m.as_str())),
                            _ => Some(raw),
                        }
                    },
                }
            }
        },
    }
}

/// Extracts one item from `html` with the rules (the first match of each
/// rule's selector gives that field).
fn extract_single_item(html: &str, in_document: bool, field_rules: &[FieldRule]) -> (r: ScrapedItem)
    ensures
        r@ == item_from_rules(html@, in_document, rules_view(field_rules@)),
        r.wf(),
{
    let ghost rv = rules_view(field_rules@);
    let mut item = ScrapedItem::new();
    let mut i: usize = 0;
    while i < field_rules.len()
        invariant
            i <= field_rules@.len(),
            rv == rules_view(field_rules@),
            item.wf(),
            item@ == item_from_rules(html@, in_document, rv.take(i as int)),
        decreases field_rules@.len() - i,
    {
        proof {
            assert(rv.take(i + 1).drop_last() =~= rv.take(i as int));
            assert(rv.take(i + 1).last() == field_rules@[i as int]@);
        }
        match apply_rule(html, in_document, &field_rules[i]) {
            Some(v) => {
                let name = string_of(&chars_of(field_rules[i].name.as_str()));
                item.insert(name, string_of(&v));
            },
            None => {},
        }
        i = i + 1;
    }
    proof {
        assert(rv.take(field_rules@.len() as int) =~= rv);
    }
    item
}

/// The views of a list of items.
pub open spec fn scraped_view(items: Seq<ScrapedItem>) -> Seq<Seq<(Seq<char>, Seq<char>)>> {
    items.map_values(|it: ScrapedItem| it@)
}

/// Extracts items from an HTML document with the field rules. With a valid
/// item selector, each matched element gives one item, its fields taken from
/// that element alone; otherwise the whole page gives one item, or none when
/// no rule produced a field. Of several matches of a field's selector only the
/// first is used; a field whose selector matches nothing is empty; a rule whose
/// selector does not parse is skipped.
pub fn extract_items(html: &str, field_rules: &[FieldRule], item_selector: Option<&str>) -> (r: Vec<ScrapedItem>)
    ensures
        scraped_view(r@) == items_spec(html@, rules_view(field_rules@), match item_selector {
            Some(s) => Some(s@),
            None => None,
        }),
        forall|i: int| 0 <= i < r@.len() ==> (#[trigger] r@[i]).wf(),
{
    let ghost rv = rules_view(field_rules@);
    proof {
        reveal_strlit("");
        assert(""@ =~= Seq::<char>::empty());
    }
    if let Some(sel) = item_selector {
        match select_in_document(html, sel, "") {
            Some(els) => {
                let ghost ev = elements_view(els@);
                let mut out: Vec<ScrapedItem> = Vec::new();
                let mut i: usize = 0;
                while i < els.len()
                    invariant
                        i <= els@.len(),
                        ev == elements_view(els@),
                        rv == rules_view(field_rules@),
                        out@.len() == i,
                        forall|j: int| 0 <= j < i ==> (#[trigger] out@[j])@ == item_from_rules(ev[j].0, false, rv),
                        forall|j: int| 0 <= j < i ==> (#[trigger] out@[j]).wf(),
                    decreases els@.len() - i,
                {
                    let it = extract_single_item(els[i].outer_html.as_str(), false, field_rules);
                    out.push(it);
                    i = i + 1;
                }
                proof {
                    assert(scraped_view(out@) =~= ev.map_values(
                        |e: (Seq<char>, Seq<char>, Seq<Seq<char>>, Option<Seq<char>>)| item_from_rules(e.0, false, rv),
                    ));
                }
                return out;
            },
            None => {},
        }
    }
    let item = extract_single_item(html, true, field_rules);
    let mut out: Vec<ScrapedItem> = Vec::new();
    if item.fields.len() > 0 {
        out.push(item);
        proof {
            assert(scraped_view(out@) =~= seq![item@]);
        }
    } else {
        proof {
            assert(scraped_view(out@) =~= Seq::<Seq<(Seq<char>, Seq<char>)>>::empty());
        }
    }
    out
}

/// `href` resolved against `base`: kept when it is an absolute http(s) URL,
/// given the `https:` scheme when it starts with `//`, joined onto `base` by
/// the `url` crate where that works, and else appended to `base` with one `/`
/// between them.
pub open spec fn resolved_link(href: Seq<char>, base: Seq<char>) -> Seq<char> {
    if is_absolute_http(href) {
        href
    } else if starts_with(href, seq!['/', '/']) {
        seq!['h', 't', 't', 'p', 's', ':'] + href
    } else {
        match spec_url_join(base, href) {
            Some(j) => j,
            None => trim_end_char(base, '/') + seq!['/'] + trim_start_char(href, '/'),
        }
    }
}

/// Resolves a possibly relative link against the page URL.
pub fn resolve_url(href: &str, base_url: &str) -> (r: String)
    ensures
        r@ == resolved_link(href@, base_url@),
{
    let h = chars_of(href);
    if is_absolute_http_chars(&h) {
        return string_of(&h);
    }
    let slashes = ['/', '/'];
    proof {
        assert(slashes@ =~= seq!['/', '/']);
    }
    if starts_with_chars(&h, &slashes) {
        let mut v: Vec<char> = Vec::new();
        v.push('h');
        v.push('t');
        v.push('t');
        v.push('p');
        v.push('s');
        v.push(':');
        push_all(&mut v, &h);
        proof {
            assert(v@ =~= seq!['h', 't', 't', 'p', 's', ':'] + href@);
        }
        return string_of(&v);
    }
    match url_join(base_url, href) {
        Some(j) => j,
        None => {
            let b = chars_of(base_url);
            let mut v = trim_end_char_chars(&b, '/');
            v.push('/');
            let rest = trim_start_char_chars(&h, '/');
            push_all(&mut v, &rest);
            proof {
                assert(v@ =~= trim_end_char(base_url@, '/') + seq!['/'] + trim_start_char(href@, '/'));
            }
            string_of(&v)
        },
    }
}

/// The resolved `href` values of the elements that have one.
pub open spec fn links_of(els: Seq<(Seq<char>, Seq<char>, Seq<Seq<char>>, Option<Seq<char>>)>, base: Seq<char>) -> Seq<Seq<char>>
    decreases els.len(),
{
    if els.len() == 0 {
        Seq::empty()
    } else {
        let prev = links_of(els.drop_last(), base);
        match els.last().3 {
            Some(h) => prev.push(resolved_link(h, base)),
            None => prev,
        }
    }
}

/// The links `extract_links` gives: the resolved `href` of every element that
/// the selector matches and that has one, in document order; none when the
/// selector does not parse.
pub open spec fn links_spec(html: Seq<char>, selector: Seq<char>, base: Seq<char>) -> Seq<Seq<char>> {
    match spec_select_document(html, selector, "href"@) {
        Some(els) => links_of(els, base),
        None => Seq::empty(),
    }
}

/// Extracts the links of the elements matching a CSS selector, resolved
/// against `base_url`.
pub fn extract_links(html: &str, link_selector: &str, base_url: &str) -> (r: Vec<String>)
    ensures
        r@.map_values(|s: String| s@) == links_spec(html@, link_selector@, base_url@),
{
    match select_in_document(html, link_selector, "href") {
        None => Vec::new(),
        Some(els) => {
            let ghost ev = elements_view(els@);
            let mut out: Vec<String> = Vec::new();
            let mut i: usize = 0;
            while i < els.len()
                invariant
                    i <= els@.len(),
                    ev == elements_view(els@),
                    out@.map_values(|s: String| s@) == links_of(ev.take(i as int), base_url@),
                decreases els@.len() - i,
            {
                proof {
                    assert(ev.take(i + 1).drop_last() =~= ev.take(i as int));
                    assert(ev.take(i + 1).last() == els@[i as int]@);
                }
                match &els[i].attr {
                    Some(h) => {
                        let link = resolve_url(h.as_str(), base_url);
                        let ghost before = out@.map_values(|s: String| s@);
                        out.push(link);
                        proof {
                            assert(out@.map_values(|s: String| s@) =~= before.push(link@));
                        }
                    },
                    None => {},
                }
                i = i + 1;
            }
            proof {
                assert(ev.take(els@.len() as int) =~= ev);
            }
            out
        },
    }
}

} // verus!
