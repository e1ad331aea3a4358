//! Data model of scrape jobs.
use vstd::prelude::*;
use crate::text::{chars_of, chars_eq, string_of};

verus! {

/// The fields of one item as (name, value) character pairs.
pub open spec fn pairs_view(fields: Seq<(String, String)>) -> Seq<(Seq<char>, Seq<char>)> {
    fields.map_values(|p: (String, String)| (p.0@, p.1@))
}

/// No name occurs twice among `f`.
pub open spec fn names_unique(f: Seq<(Seq<char>, Seq<char>)>) -> bool {
    forall|i: int, j: int| 0 <= i < j < f.len() ==> f[i].0 != f[j].0
}

/// The value recorded for `name` in `f`, if any.
pub open spec fn field_value(f: Seq<(Seq<char>, Seq<char>)>, name: Seq<char>) -> Option<Seq<char>>
    decreases f.len(),
{
    if f.len() == 0 {
        None
    } else if f.last().0 == name {
        Some(f.last().1)
    } else {
        field_value(f.drop_last(), name)
    }
}

/// A single scraped data item (one row): named text fields, each name at most
/// once, in the order they were first set.
#[derive(Debug, Clone)]
pub struct ScrapedItem {
    pub fields: Vec<(String, String)>,
}

impl View for ScrapedItem {
    type V = Seq<(Seq<char>, Seq<char>)>;

    open spec fn view(&self) -> Seq<(Seq<char>, Seq<char>)> {
        pairs_view(self.fields@)
    }
}

impl ScrapedItem {
    /// Field names are unique.
    pub open spec fn wf(&self) -> bool {
        names_unique(self@)
    }

    /// An item without fields.
    pub fn new() -> (r: Self)
        ensures
            r@ == Seq::<(Seq<char>, Seq<char>)>::empty(),
            r.wf(),
    {
        ScrapedItem { fields: Vec::new() }
    }

    /// Position of the field called `name`.
    fn position(&self, name: &str) -> (r: Option<usize>)
        ensures
            match r {
                Some(i) => i < self@.len() && self@[i as int].0 == name@,
                None => forall|j: int| 0 <= j < self@.len() ==> self@[j].0 != name@,
            },
    {
        let mut i: usize = 0;
        while i < self.fields.len()
            invariant
                i <= self@.len(),
                self@.len() == self.fields@.len(),
                forall|j: int| 0 <= j < i ==> self@[j].0 != name@,
            decreases self@.len() - i,
        {
            if str_equal(&self.fields[i].0, name) {
                return Some(i);
            }
            i = i + 1;
        }
        None
    }

    /// Sets the field `name` to `value`: replaces the value where the name is
    /// already there, else appends the field (`HashMap::insert`).
    pub fn insert(&mut self, name: String, value: String)
        requires
            old(self).wf(),
        ensures
            final(self).wf(),
            ({
                let before = old(self)@;
                match before.map_values(|p: (Seq<char>, Seq<char>)| p.0).index_of_first(name@) {
                    Some(i) => final(self)@ == before.update(i, (name@, value@)),
                    None => final(self)@ == before.push((name@, value@)),
                }
            }),
    {
        let ghost before = self@;
        let ghost names = before.map_values(|p: (Seq<char>, Seq<char>)| p.0);
        match self.position(name.as_str()) {
            Some(i) => {
                self.fields.set(i, (name, value));
                proof {
                    assert(names[i as int] == name@);
                    assert forall|j: int| 0 <= j < i implies names[j] != name@ by {
                        assert(before[j].0 != name@);
                    }
                    let idx = names.index_of_first(name@);
                    names.index_of_first_ensures(name@);
                    assert(idx == Some(i as int));
                    assert(self@ =~= before.update(i as int, (name@, value@)));
                }
            },
            None => {
                self.fields.push((name, value));
                proof {
                    assert forall|j: int| 0 <= j < names.len() implies names[j] != name@ by {
                        assert(before[j].0 != name@);
                    }
                    names.index_of_first_ensures(name@);
                    assert(!names.contains(name@));
                    assert(self@ =~= before.push((name@, value@)));
                }
            },
        }
    }

    /// The value of the field `name`, if it is set.
    pub fn get(&self, name: &str) -> (r: Option<String>)
        requires
            self.wf(),
        ensures
            match r {
                Some(v) => exists|i: int| 0 <= i < self@.len() && self@[i] == (name@, v@),
                None => forall|i: int| 0 <= i < self@.len() ==> self@[i].0 != name@,
            },
    {
        match self.position(name) {
            Some(i) => {
                let v = self.fields[i].1.clone();
                proof {
                    assert(self@[i as int] == (name@, v@));
                }
                Some(v)
            },
            None => None,
        }
    }

    /// Number of fields.
    pub fn len(&self) -> (r: usize)
        ensures
            r == self@.len(),
    {
        self.fields.len()
    }

    /// Whether the item has no field at all.
    pub fn is_empty(&self) -> (r: bool)
        ensures
            r == (self@.len() == 0),
    {
        self.fields.len() == 0
    }
}

/// Do the two strings hold the same characters?
pub fn str_equal(a: &str, b: &str) -> (r: bool)
    ensures
        r == (a@ == b@),
{
    let x = chars_of(a);
    let y = chars_of(b);
    chars_eq(&x, &y)
}

/// Defines a field to extract from the page.
#[derive(Debug, Clone)]
pub struct FieldRule {
    /// Name of the field (becomes the column header in exports).
    pub name: String,
    /// CSS selector that locates the element.
    pub css_selector: String,
    /// What to extract: "text", "html", "inner_html", "outer_html", or an
    /// attribute name such as "href" or "src".
    pub extract: String,
    /// Optional regex applied after extraction.
    pub regex_filter: Option<String>,
}

impl View for FieldRule {
    type V = (Seq<char>, Seq<char>, Seq<char>, Option<Seq<char>>);

    open spec fn view(&self) -> (Seq<char>, Seq<char>, Seq<char>, Option<Seq<char>>) {
        (self.name@, self.css_selector@, self.extract@, match self.regex_filter {
            Some(p) => Some(p@),
            None => None,
        })
    }
}

/// A crawl rule that tells the spider which links to follow.
#[derive(Debug, Clone)]
pub struct CrawlRule {
    /// CSS selector for links to follow.
    pub link_selector: String,
    /// Optional regex that followed links must match.
    pub url_pattern: Option<String>,
}

impl View for CrawlRule {
    type V = (Seq<char>, Option<Seq<char>>);

    open spec fn view(&self) -> (Seq<char>, Option<Seq<char>>) {
        (self.link_selector@, match self.url_pattern {
            Some(p) => Some(p@),
            None => None,
        })
    }
}

impl CrawlRule {
    /// A copy of the rule.
    pub fn clone_rule(&self) -> (r: CrawlRule)
        ensures
            r@ == self@,
    {
        CrawlRule {
            link_selector: string_of(&chars_of(self.link_selector.as_str())),
            url_pattern: match &self.url_pattern {
                Some(p) => Some(string_of(&chars_of(p.as_str()))),
                None => None,
            },
        }
    }
}

/// Configuration of a spider.
#[derive(Debug, Clone)]
pub struct SpiderConfig {
    /// Human-readable name.
    pub name: String,
    /// Starting URLs.
    pub start_urls: Vec<String>,
    /// Fields to extract on each page.
    pub field_rules: Vec<FieldRule>,
    /// Rules for following links (pagination and the like).
    pub crawl_rules: Vec<CrawlRule>,
    /// Most pages to crawl (0 means no limit).
    pub max_pages: usize,
    /// Most requests at a time.
    pub concurrency: usize,
    /// Delay between requests in milliseconds.
    pub request_delay_ms: u64,
    /// Whether robots.txt is respected.
    pub respect_robots: bool,
    /// Custom User-Agent.
    pub user_agent: Option<String>,
    /// Custom request headers as (name, value) pairs.
    pub headers: Vec<(String, String)>,
}

impl SpiderConfig {
    /// The settings a configuration starts from: named "default", no URLs or
    /// rules, 50 pages, 4 requests at a time, 1000 ms apart, robots.txt
    /// respected, no custom agent or headers.
    pub open spec fn is_default(&self) -> bool {
        &&& self.name@ == "default"@
        &&& self.start_urls@.len() == 0
        &&& self.field_rules@.len() == 0
        &&& self.crawl_rules@.len() == 0
        &&& self.max_pages == 50
        &&& self.concurrency == 4
        &&& self.request_delay_ms == 1000
        &&& self.respect_robots
        &&& self.user_agent is None
        &&& self.headers@.len() == 0
    }
}

impl Default for SpiderConfig {
    fn default() -> (r: Self)
        ensures
            r.is_default(),
    {
        SpiderConfig {
            name: String::from_str("default"),
            start_urls: Vec::new(),
            field_rules: Vec::new(),
            crawl_rules: Vec::new(),
            max_pages: 50,
            concurrency: 4,
            request_delay_ms: 1000,
            respect_robots: true,
            user_agent: None,
            headers: Vec::new(),
        }
    }
}

/// Progress of a running scrape job.
#[derive(Debug, Clone)]
pub struct ScrapeProgress {
    pub job_id: String,
    pub pages_crawled: usize,
    pub pages_total: usize,
    pub items_scraped: usize,
    pub current_url: String,
    pub status: String,
    pub log_line: String,
}

/// The result of a finished scrape job.
#[derive(Debug, Clone)]
pub struct ScrapeResult {
    pub job_id: String,
    pub items: Vec<ScrapedItem>,
    pub pages_crawled: usize,
    pub errors: Vec<String>,
    pub export_path: Option<String>,
}

/// Export format for scraped data.
#[derive(Debug, Clone, Copy, PartialEq, Eq, Structural)]
pub enum ExportFormat {
    Json,
    Csv,
    JsonLines,
}

} // verus!
