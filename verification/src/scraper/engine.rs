//! The crawl loop's decisions. A crawl is a state that the application drives:
//! it asks for the next URL, performs the fetches (robots.txt, the page), hands
//! back what happened, and reports the progress each step returns. Fetching
//! and sleeping stay with the application.
use vstd::prelude::*;
use crate::text::{chars_eq, chars_of, dec_string, push_str, push_usize, string_of};
use crate::scraper::types::{CrawlRule, ScrapedItem, ScrapeProgress, ScrapeResult, SpiderConfig};
use crate::scraper::spider::{config_problem, validate_config};
use crate::scraper::selector::{extract_items, extract_links, items_spec, links_spec, rules_view, scraped_view};
use crate::scraper::pipeline::{items_view, pipeline, run_pipeline};
use crate::scraper::pipeline::contains_text;

verus! {

/// For `regex::Regex::new(pattern)` and `is_match(text)`: `None` when the
/// pattern does not compile, else whether it matches somewhere in `text`.
pub uninterp spec fn spec_regex_is_match(pattern: Seq<char>, text: Seq<char>) -> Option<bool>;

/// Calls `regex::Regex::new(pattern)` and `is_match(text)`. Claims only that
/// the result is the named value.
#[verifier::external_body]
fn regex_is_match(pattern: &str, text: &str) -> (r: Option<bool>)
    ensures
        r == spec_regex_is_match(pattern@, text@),
{
    regex::Regex::new(pattern).ok().map(|re| re.is_match(text))
}

/// The views of a list of strings.
pub open spec fn strings_view(v: Seq<String>) -> Seq<Seq<char>> {
    v.map_values(|s: String| s@)
}

/// Whether a found link is queued: it was not visited, and where the rule's
/// pattern compiles, the pattern matches it.
pub open spec fn link_followed(link: Seq<char>, visited: Seq<Seq<char>>, pattern: Option<Seq<char>>) -> bool {
    !visited.contains(link) && match pattern {
        Some(p) => spec_regex_is_match(p, link) != Some(false),
        None => true,
    }
}

/// The links of one rule that are queued, in order.
pub open spec fn followed_of_rule(links: Seq<Seq<char>>, visited: Seq<Seq<char>>, pattern: Option<Seq<char>>) -> Seq<Seq<char>>
    decreases links.len(),
{
    if links.len() == 0 {
        links
    } else if link_followed(links.last(), visited, pattern) {
        followed_of_rule(links.drop_last(), visited, pattern).push(links.last())
    } else {
        followed_of_rule(links.drop_last(), visited, pattern)
    }
}

/// The links queued after fetching `url`: rule by rule, the links its selector
/// finds, filtered by [`link_followed`].
pub open spec fn followed_links(html: Seq<char>, url: Seq<char>, visited: Seq<Seq<char>>, rules: Seq<(Seq<char>, Option<Seq<char>>)>) -> Seq<Seq<char>>
    decreases rules.len(),
{
    if rules.len() == 0 {
        Seq::empty()
    } else {
        followed_links(html, url, visited, rules.drop_last()) + followed_of_rule(
            links_spec(html, rules.last().0, url),
            visited,
            rules.last().1,
        )
    }
}

/// A crawl in progress.
pub struct Crawl {
    pub job_id: String,
    pub config: SpiderConfig,
    /// The page limit (`usize::MAX` when the configuration sets none).
    pub max_pages: usize,
    /// URLs taken from the queue so far.
    pub visited: Vec<String>,
    /// URLs waiting; the last is taken first.
    pub queue: Vec<String>,
    /// Items scraped so far, before the pipeline.
    pub items: Vec<ScrapedItem>,
    pub errors: Vec<String>,
    pub pages_crawled: usize,
}

/// How a crawl begins: refused because of its configuration, or ready.
pub enum CrawlStart {
    Rejected { progress: ScrapeProgress, result: ScrapeResult },
    Ready(Crawl),
}

/// A progress report.
fn report(job_id: &String, pages_crawled: usize, pages_total: usize, items_scraped: usize,
    current_url: String, status: &str, log_line: Vec<char>) -> (r: ScrapeProgress)
    ensures
        r.job_id@ == job_id@,
        r.pages_crawled == pages_crawled,
        r.pages_total == pages_total,
        r.items_scraped == items_scraped,
        r.current_url@ == current_url@,
        r.status@ == status@,
        r.log_line@ == log_line@,
{
    ScrapeProgress {
        job_id: string_of(&chars_of(job_id.as_str())),
        pages_crawled,
        pages_total,
        items_scraped,
        current_url,
        status: string_of(&chars_of(status)),
        log_line: string_of(&log_line),
    }
}

/// A copy of a string.
fn copy_string(s: &String) -> (r: String)
    ensures
        r@ == s@,
{
    string_of(&chars_of(s.as_str()))
}

/// Is `url` among `list`?
fn listed(list: &Vec<String>, url: &str) -> (r: bool)
    ensures
        r == strings_view(list@).contains(url@),
{
    let ghost lv = strings_view(list@);
    let u = chars_of(url);
    let mut i: usize = 0;
    while i < list.len()
        invariant
            i <= list@.len(),
            lv == strings_view(list@),
            u@ == url@,
            forall|j: int| 0 <= j < i ==> lv[j] != url@,
        decreases list@.len() - i,
    {
        let x = chars_of(list[i].as_str());
        proof {
            assert(lv[i as int] == list@[i as int]@);
        }
        if chars_eq(&x, &u) {
            proof {
                assert(lv[i as int] == url@);
            }
            return true;
        }
        i = i + 1;
    }
    false
}

/// Validates the configuration and sets the crawl up: the start URLs queued,
/// nothing visited. A configuration with a problem gives an "error" report
/// ("Config error: " and the problem) and an empty result carrying the
/// problem as its one error.
pub fn start_crawl(job_id: String, config: SpiderConfig) -> (r: CrawlStart)
    ensures
        match r {
            CrawlStart::Rejected { progress, result } => {
                &&& config_problem(config) is Some
                &&& progress.job_id@ == job_id@
                &&& progress.status@ == "error"@
                &&& progress.log_line@ == "Config error: "@ + config_problem(config)->0
                &&& progress.pages_crawled == 0 && progress.pages_total == 0 && progress.items_scraped == 0
                &&& progress.current_url@.len() == 0
                &&& result.job_id@ == job_id@
                &&& result.items@.len() == 0
                &&& result.pages_crawled == 0
                &&& strings_view(result.errors@) == seq![config_problem(config)->0]
                &&& result.export_path is None
            },
            CrawlStart::Ready(c) => {
                &&& config_problem(config) is None
                &&& c.job_id@ == job_id@
                &&& c.config == config
                &&& c.max_pages == if config.max_pages == 0 { usize::MAX } else { config.max_pages }
                &&& c.visited@.len() == 0
                &&& strings_view(c.queue@) == strings_view(config.start_urls@)
                &&& c.items@.len() == 0
                &&& c.errors@.len() == 0
                &&& c.pages_crawled == 0
            },
        },
{
    match validate_config(&config) {
        Err(e) => {
            let mut log: Vec<char> = Vec::new();
            push_str(&mut log, "Config error: ");
            let ev = chars_of(e.as_str());
            crate::text::push_all(&mut log, &ev);
            let progress = report(&job_id, 0, 0, 0, String::new(), "error", log);
            let mut errors: Vec<String> = Vec::new();
            errors.push(e);
            proof {
                assert(strings_view(errors@) =~= seq![config_problem(config)->0]);
            }
            CrawlStart::Rejected {
                progress,
                result: ScrapeResult { job_id, items: Vec::new(), pages_crawled: 0, errors, export_path: None },
            }
        },
        Ok(()) => {
            let mut queue: Vec<String> = Vec::new();
            let mut i: usize = 0;
            while i < config.start_urls.len()
                invariant
                    i <= config.start_urls@.len(),
                    strings_view(queue@) == strings_view(config.start_urls@.take(i as int)),
                decreases config.start_urls@.len() - i,
            {
                let u = copy_string(&config.start_urls[i]);
                let ghost before = strings_view(queue@);
                let ghost uv = u@;
                queue.push(u);
                proof {
                    assert(strings_view(queue@) =~= before.push(uv));
                    assert(config.start_urls@.take(i + 1) =~= config.start_urls@.take(i as int).push(config.start_urls@[i as int]));
                    assert(strings_view(queue@) =~= strings_view(config.start_urls@.take(i + 1)));
                }
                i = i + 1;
            }
            proof {
                assert(config.start_urls@.take(config.start_urls@.len() as int) =~= config.start_urls@);
            }
            let max_pages = if config.max_pages == 0 { usize::MAX } else { config.max_pages };
            CrawlStart::Ready(Crawl {
                job_id,
                config,
                max_pages,
                visited: Vec::new(),
                queue,
                items: Vec::new(),
                errors: Vec::new(),
                pages_crawled: 0,
            })
        },
    }
}

/// The result when the HTTP client cannot be built: no items, the one error.
pub fn client_failed(job_id: String, error: String) -> (r: ScrapeResult)
    ensures
        r.job_id@ == job_id@,
        r.items@.len() == 0,
        r.pages_crawled == 0,
        strings_view(r.errors@) == seq![error@],
        r.export_path is None,
{
    let mut errors: Vec<String> = Vec::new();
    errors.push(error);
    proof {
        assert(strings_view(errors@) =~= seq![errors@[0]@]);
    }
    ScrapeResult { job_id, items: Vec::new(), pages_crawled: 0, errors, export_path: None }
}

/// The URL the next fetch goes to: URLs are taken from the end of the queue,
/// already visited ones are passed over, and none is given once the page limit
/// is reached. The URL given is marked visited.
pub open spec fn next_url_spec(queue: Seq<Seq<char>>, visited: Seq<Seq<char>>, pages: usize, max_pages: usize)
    -> (Option<Seq<char>>, Seq<Seq<char>>, Seq<Seq<char>>)
    decreases queue.len(),
{
    if queue.len() == 0 {
        (None, queue, visited)
    } else if pages >= max_pages {
        (None, queue.drop_last(), visited)
    } else if visited.contains(queue.last()) {
        next_url_spec(queue.drop_last(), visited, pages, max_pages)
    } else {
        (Some(queue.last()), queue.drop_last(), visited.push(queue.last()))
    }
}

/// A URL that the crawl gives to fetch was not visited before, it is visited
/// afterwards, the visited URLs keep all the earlier ones, and the queue is
/// shorter than before (unless it was empty); once the page limit is reached no
/// URL is given.
pub proof fn law_next_url_is_fresh(queue: Seq<Seq<char>>, visited: Seq<Seq<char>>, pages: usize, max_pages: usize)
    ensures
        ({
            let s = next_url_spec(queue, visited, pages, max_pages);
            &&& (s.0 matches Some(u) ==> !visited.contains(u) && s.2.contains(u))
            &&& forall|x: Seq<char>| visited.contains(x) ==> #[trigger] s.2.contains(x)
            &&& (queue.len() > 0 ==> s.1.len() < queue.len())
            &&& (pages >= max_pages ==> s.0 is None)
        }),
    decreases queue.len(),
{
    if queue.len() > 0 && pages < max_pages && visited.contains(queue.last()) {
        law_next_url_is_fresh(queue.drop_last(), visited, pages, max_pages);
    }
    let s = next_url_spec(queue, visited, pages, max_pages);
    if queue.len() > 0 && pages < max_pages && !visited.contains(queue.last()) {
        assert(s.2 == visited.push(queue.last()));
        assert(s.2[visited.len() as int] == queue.last());
        assert forall|x: Seq<char>| visited.contains(x) implies #[trigger] s.2.contains(x) by {
            let j = choose|j: int| 0 <= j < visited.len() && visited[j] == x;
            assert(s.2[j] == x);
        }
    }
}

/// No URL is fetched twice: two successive calls of `next_url` (with any page
/// count in between) never give the same URL.
pub proof fn law_next_url_never_repeats(queue: Seq<Seq<char>>, visited: Seq<Seq<char>>, pages: usize,
    later_pages: usize, max_pages: usize)
    ensures
        ({
            let s = next_url_spec(queue, visited, pages, max_pages);
            let t = next_url_spec(s.1, s.2, later_pages, max_pages);
            s.0 matches Some(u) ==> t.0 != Some(u)
        }),
{
    law_next_url_is_fresh(queue, visited, pages, max_pages);
    let s = next_url_spec(queue, visited, pages, max_pages);
    law_next_url_is_fresh(s.1, s.2, later_pages, max_pages);
}

/// When a URL is given, the page limit was not reached, the URL was not
/// visited, and it is the one URL added to the visited list.
proof fn lemma_next_url_given(queue: Seq<Seq<char>>, visited: Seq<Seq<char>>, pages: usize, max_pages: usize)
    ensures
        ({
            let s = next_url_spec(queue, visited, pages, max_pages);
            &&& s.0 is None ==> s.2 == visited
            &&& s.0 matches Some(u) ==> pages < max_pages && !visited.contains(u) && s.2 == visited.push(u)
        }),
    decreases queue.len(),
{
    if queue.len() > 0 && pages < max_pages && visited.contains(queue.last()) {
        lemma_next_url_given(queue.drop_last(), visited, pages, max_pages);
    }
}

/// A whole crawl from a queue, a visited list and a page count: each step
/// takes the next URL (see [`next_url_spec`]); when one is given and the
/// step's flag is set, the page counts as crawled and the step's links are
/// queued behind. The run stops when no URL is given or the steps run out. It
/// gives the URLs fetched, in order, the visited list and the page count.
pub open spec fn crawl_run(queue: Seq<Seq<char>>, visited: Seq<Seq<char>>, pages: usize, max_pages: usize,
    steps: Seq<(bool, Seq<Seq<char>>)>) -> (Seq<Seq<char>>, Seq<Seq<char>>, usize)
    decreases steps.len(),
{
    if steps.len() == 0 {
        (Seq::empty(), visited, pages)
    } else {
        let s = next_url_spec(queue, visited, pages, max_pages);
        match s.0 {
            None => (Seq::empty(), s.2, pages),
            Some(u) => {
                let q = if steps[0].0 { s.1 + steps[0].1 } else { s.1 };
                let n = if steps[0].0 && pages < max_pages { (pages + 1) as usize } else { pages };
                let rest = crawl_run(q, s.2, n, max_pages, steps.drop_first());
                (seq![u] + rest.0, rest.1, rest.2)
            },
        }
    }
}

/// Over a whole crawl no URL is fetched twice or fetched when it was visited
/// before, the visited list stays free of repeats, and the page count never
/// passes the page limit.
pub proof fn law_crawl_run(queue: Seq<Seq<char>>, visited: Seq<Seq<char>>, pages: usize, max_pages: usize,
    steps: Seq<(bool, Seq<Seq<char>>)>)
    requires
        visited.no_duplicates(),
        pages <= max_pages,
    ensures
        ({
            let r = crawl_run(queue, visited, pages, max_pages, steps);
            &&& r.0.no_duplicates()
            &&& forall|k: int| 0 <= k < r.0.len() ==> !visited.contains(#[trigger] r.0[k])
            &&& r.1.no_duplicates()
            &&& r.2 <= max_pages
        }),
    decreases steps.len(),
{
    if steps.len() > 0 {
        let s = next_url_spec(queue, visited, pages, max_pages);
        lemma_next_url_given(queue, visited, pages, max_pages);
        if let Some(u) = s.0 {
            let q = if steps[0].0 { s.1 + steps[0].1 } else { s.1 };
            let n = if steps[0].0 && pages < max_pages { (pages + 1) as usize } else { pages };
            assert(s.2.no_duplicates()) by {
                assert forall|i: int, j: int| 0 <= i < s.2.len() && 0 <= j < s.2.len() && i != j implies s.2[i] != s.2[j] by {
                    if i == visited.len() as int {
                        assert(visited[j] == s.2[j]);
                    } else if j == visited.len() as int {
                        assert(visited[i] == s.2[i]);
                    } else {
                        assert(visited[i] == s.2[i] && visited[j] == s.2[j]);
                    }
                }
            }
            law_crawl_run(q, s.2, n, max_pages, steps.drop_first());
            let rest = crawl_run(q, s.2, n, max_pages, steps.drop_first());
            let r = crawl_run(queue, visited, pages, max_pages, steps);
            assert(r.0 == seq![u] + rest.0);
            assert(s.2[visited.len() as int] == u);
            assert forall|k: int| 0 <= k < r.0.len() implies !visited.contains(#[trigger] r.0[k]) by {
                if k > 0 {
                    assert(r.0[k] == rest.0[k - 1]);
                    if visited.contains(r.0[k]) {
                        let j = choose|j: int| 0 <= j < visited.len() && visited[j] == r.0[k];
                        assert(s.2[j] == visited[j]);
                        assert(s.2.contains(rest.0[k - 1]));
                    }
                }
            }
            assert forall|i: int, j: int| 0 <= i < r.0.len() && 0 <= j < r.0.len() && i != j implies r.0[i] != r.0[j] by {
                if i == 0 && j > 0 {
                    assert(r.0[j] == rest.0[j - 1]);
                    assert(s.2.contains(u));
                } else if j == 0 && i > 0 {
                    assert(r.0[i] == rest.0[i - 1]);
                    assert(s.2.contains(u));
                } else if i > 0 && j > 0 {
                    assert(r.0[i] == rest.0[i - 1] && r.0[j] == rest.0[j - 1]);
                }
            }
        }
    }
}

impl Crawl {
    /// Takes the next URL to fetch (see [`next_url_spec`]); `None` ends the
    /// crawl.
    pub fn next_url(&mut self) -> (r: Option<String>)
        ensures
            ({
                let s = next_url_spec(strings_view(old(self).queue@), strings_view(old(self).visited@),
                    old(self).pages_crawled, old(self).max_pages);
                &&& match r {
                    Some(u) => s.0 == Some(u@),
                    None => s.0 is None,
                }
                &&& strings_view(final(self).queue@) == s.1
                &&& strings_view(final(self).visited@) == s.2
            }),
            final(self).job_id == old(self).job_id,
            final(self).config == old(self).config,
            final(self).max_pages == old(self).max_pages,
            final(self).items == old(self).items,
            final(self).errors == old(self).errors,
            final(self).pages_crawled == old(self).pages_crawled,
    {
        let ghost target = next_url_spec(strings_view(self.queue@), strings_view(self.visited@),
            self.pages_crawled, self.max_pages);
        loop
            invariant
                next_url_spec(strings_view(self.queue@), strings_view(self.visited@), self.pages_crawled, self.max_pages) == target,
                target == next_url_spec(strings_view(old(self).queue@), strings_view(old(self).visited@),
                    old(self).pages_crawled, old(self).max_pages),
                self.job_id == old(self).job_id,
                self.config == old(self).config,
                self.max_pages == old(self).max_pages,
                self.items == old(self).items,
                self.errors == old(self).errors,
                self.pages_crawled == old(self).pages_crawled,
            decreases self.queue@.len(),
        {
            let ghost qv = strings_view(self.queue@);
            let ghost q_raw = self.queue@;
            let ghost vv = strings_view(self.visited@);
            if self.queue.len() == 0 {
                proof {
                    assert(qv.len() == 0);
                    assert(target == (None::<Seq<char>>, qv, vv));
                }
                return None;
            }
            let url = self.queue.pop().unwrap();
            proof {
                assert(self.queue@ =~= q_raw.drop_last());
                assert(strings_view(self.queue@) =~= qv.drop_last());
                assert(qv.last() == url@);
            }
            if self.pages_crawled >= self.max_pages {
                proof {
                    assert(target == (None::<Seq<char>>, qv.drop_last(), vv));
                }
                return None;
            }
            if listed(&self.visited, url.as_str()) {
                proof {
                    assert(target == next_url_spec(qv.drop_last(), vv, self.pages_crawled, self.max_pages));
                }
                continue;
            }
            let mark = copy_string(&url);
            self.visited.push(mark);
            proof {
                assert(strings_view(self.visited@) =~= vv.push(url@));
                assert(target == (Some(url@), qv.drop_last(), vv.push(url@)));
            }
            return Some(url);
        }
    }

    /// The report for a URL that robots.txt blocks ("skipped").
    pub fn blocked(&self, url: &str) -> (r: ScrapeProgress)
        requires
            self.pages_crawled + self.queue@.len() <= usize::MAX,
        ensures
            r.job_id@ == self.job_id@,
            r.pages_crawled == self.pages_crawled,
            r.pages_total == self.pages_crawled + self.queue@.len(),
            r.items_scraped == self.items@.len(),
            r.current_url@ == url@,
            r.status@ == "skipped"@,
            r.log_line@ == "Blocked by robots.txt: "@ + url@,
    {
        let mut log: Vec<char> = Vec::new();
        push_str(&mut log, "Blocked by robots.txt: ");
        push_str(&mut log, url);
        report(&self.job_id, self.pages_crawled, self.pages_crawled + self.queue.len(), self.items.len(),
            string_of(&chars_of(url)), "skipped", log)
    }

    /// The report before fetching a page ("crawling").
    pub fn fetching(&self, url: &str) -> (r: ScrapeProgress)
        requires
            self.pages_crawled + self.queue@.len() + 1 <= usize::MAX,
        ensures
            r.job_id@ == self.job_id@,
            r.pages_crawled == self.pages_crawled,
            r.pages_total == self.pages_crawled + self.queue@.len() + 1,
            r.items_scraped == self.items@.len(),
            r.current_url@ == url@,
            r.status@ == "crawling"@,
            r.log_line@ == "Fetching: "@ + url@,
    {
        let mut log: Vec<char> = Vec::new();
        push_str(&mut log, "Fetching: ");
        push_str(&mut log, url);
        report(&self.job_id, self.pages_crawled, self.pages_crawled + self.queue.len() + 1, self.items.len(),
            string_of(&chars_of(url)), "crawling", log)
    }

    /// A page answered with an unsuccessful HTTP status (its text as the
    /// client writes it): the error "HTTP <status> for <url>" is recorded and
    /// reported.
    pub fn http_error(&mut self, url: &str, status: &str) -> (r: ScrapeProgress)
        requires
            old(self).pages_crawled + old(self).queue@.len() <= usize::MAX,
        ensures
            strings_view(final(self).errors@) == strings_view(old(self).errors@).push("HTTP "@ + status@ + " for "@ + url@),
            final(self).queue == old(self).queue,
            final(self).visited == old(self).visited,
            final(self).items == old(self).items,
            final(self).pages_crawled == old(self).pages_crawled,
            final(self).job_id == old(self).job_id,
            final(self).config == old(self).config,
            final(self).max_pages == old(self).max_pages,
            r.job_id@ == old(self).job_id@,
            r.pages_crawled == old(self).pages_crawled,
            r.pages_total == old(self).pages_crawled + old(self).queue@.len(),
            r.items_scraped == old(self).items@.len(),
            r.current_url@ == url@,
            r.status@ == "error"@,
            r.log_line@ == "HTTP "@ + status@ + " for "@ + url@,
    {
        let mut err: Vec<char> = Vec::new();
        push_str(&mut err, "HTTP ");
        push_str(&mut err, status);
        push_str(&mut err, " for ");
        push_str(&mut err, url);
        let ghost ev = strings_view(self.errors@);
        self.errors.push(string_of(&err));
        proof {
            assert(strings_view(self.errors@) =~= ev.push(err@));
        }
        report(&self.job_id, self.pages_crawled, self.pages_crawled + self.queue.len(), self.items.len(),
            string_of(&chars_of(url)), "error", err)
    }

    /// The request itself failed: the error "Request failed for <url>: <why>"
    /// is recorded and reported.
    pub fn request_error(&mut self, url: &str, why: &str) -> (r: ScrapeProgress)
        requires
            old(self).pages_crawled + old(self).queue@.len() <= usize::MAX,
        ensures
            strings_view(final(self).errors@) == strings_view(old(self).errors@).push("Request failed for "@ + url@ + ": "@ + why@),
            final(self).queue == old(self).queue,
            final(self).visited == old(self).visited,
            final(self).items == old(self).items,
            final(self).pages_crawled == old(self).pages_crawled,
            final(self).job_id == old(self).job_id,
            final(self).config == old(self).config,
            final(self).max_pages == old(self).max_pages,
            r.job_id@ == old(self).job_id@,
            r.pages_crawled == old(self).pages_crawled,
            r.pages_total == old(self).pages_crawled + old(self).queue@.len(),
            r.items_scraped == old(self).items@.len(),
            r.current_url@ == url@,
            r.status@ == "error"@,
            r.log_line@ == "Request failed for "@ + url@ + ": "@ + why@,
    {
        let mut err: Vec<char> = Vec::new();
        push_str(&mut err, "Request failed for ");
        push_str(&mut err, url);
        push_str(&mut err, ": ");
        push_str(&mut err, why);
        let ghost ev = strings_view(self.errors@);
        self.errors.push(string_of(&err));
        proof {
            assert(strings_view(self.errors@) =~= ev.push(err@));
        }
        report(&self.job_id, self.pages_crawled, self.pages_crawled + self.queue.len(), self.items.len(),
            string_of(&chars_of(url)), "error", err)
    }

    /// The body of a page could not be read: the error "Failed to read body
    /// from <url>: <why>" is recorded (nothing is reported).
    pub fn body_error(&mut self, url: &str, why: &str)
        ensures
            strings_view(final(self).errors@) == strings_view(old(self).errors@).push("Failed to read body from "@ + url@ + ": "@ + why@),
            final(self).queue == old(self).queue,
            final(self).visited == old(self).visited,
            final(self).items == old(self).items,
            final(self).pages_crawled == old(self).pages_crawled,
            final(self).job_id == old(self).job_id,
            final(self).config == old(self).config,
            final(self).max_pages == old(self).max_pages,
    {
        let mut err: Vec<char> = Vec::new();
        push_str(&mut err, "Failed to read body from ");
        push_str(&mut err, url);
        push_str(&mut err, ": ");
        push_str(&mut err, why);
        let ghost ev = strings_view(self.errors@);
        self.errors.push(string_of(&err));
        proof {
            assert(strings_view(self.errors@) =~= ev.push(err@));
        }
    }

    /// Queues the links of one crawl rule found on the page.
    fn follow_rule(&mut self, html: &str, url: &str, rule: &CrawlRule)
        ensures
            strings_view(final(self).queue@) == strings_view(old(self).queue@) + followed_of_rule(
                links_spec(html@, rule@.0, url@), strings_view(old(self).visited@), rule@.1),
            final(self).visited == old(self).visited,
            final(self).items == old(self).items,
            final(self).errors == old(self).errors,
            final(self).pages_crawled == old(self).pages_crawled,
            final(self).job_id == old(self).job_id,
            final(self).config == old(self).config,
            final(self).max_pages == old(self).max_pages,
    {
        let links = extract_links(html, rule.link_selector.as_str(), url);
        let ghost lv = strings_view(links@);
        let ghost base = strings_view(self.queue@);
        let ghost vis = strings_view(self.visited@);
        let mut i: usize = 0;
        while i < links.len()
            invariant
                i <= links@.len(),
                lv == strings_view(links@),
                vis == strings_view(self.visited@),
                strings_view(self.queue@) == base + followed_of_rule(lv.take(i as int), vis, rule@.1),
                self.visited == old(self).visited,
                self.items == old(self).items,
                self.errors == old(self).errors,
                self.pages_crawled == old(self).pages_crawled,
                self.job_id == old(self).job_id,
                self.config == old(self).config,
                self.max_pages == old(self).max_pages,
            decreases links@.len() - i,
        {
            let link = &links[i];
            proof {
                assert(lv.take(i + 1).drop_last() =~= lv.take(i as int));
                assert(lv.take(i + 1).last() == link@);
            }
            let mut keep = !listed(&self.visited, link.as_str());
            if keep {
                match &rule.url_pattern {
                    Some(p) => {
                        match regex_is_match(p.as_str(), link.as_str()) {
                            Some(false) => {
                                keep = false;
                            },
                            _ => {},
                        }
                    },
                    None => {},
                }
            }
            if keep {
                let ghost qv = strings_view(self.queue@);
                self.queue.push(copy_string(link));
                proof {
                    assert(strings_view(self.queue@) =~= qv.push(link@));
                }
            }
            i = i + 1;
        }
        proof {
            assert(lv.take(links@.len() as int) =~= lv);
        }
    }

    /// A page was fetched: it counts as crawled, its items (one per page, see
    /// `extract_items` without an item selector) are collected, the "scraped"
    /// report is made, and then the links of every crawl rule are queued (see
    /// [`followed_links`]).
    pub fn page(&mut self, url: &str, html: &str) -> (r: ScrapeProgress)
        requires
            old(self).pages_crawled + old(self).queue@.len() + 1 <= usize::MAX,
            old(self).items@.len() + 1 <= usize::MAX,
        ensures
            final(self).pages_crawled == old(self).pages_crawled + 1,
            scraped_view(final(self).items@) == scraped_view(old(self).items@)
                + items_spec(html@, rules_view(old(self).config.field_rules@), None),
            strings_view(final(self).queue@) == strings_view(old(self).queue@) + followed_links(html@, url@,
                strings_view(old(self).visited@), old(self).config.crawl_rules@.map_values(|c: CrawlRule| c@)),
            final(self).visited == old(self).visited,
            final(self).errors == old(self).errors,
            final(self).job_id == old(self).job_id,
            final(self).config == old(self).config,
            final(self).max_pages == old(self).max_pages,
            r.job_id@ == old(self).job_id@,
            r.pages_crawled == final(self).pages_crawled,
            r.pages_total == final(self).pages_crawled + old(self).queue@.len(),
            r.items_scraped == final(self).items@.len(),
            r.current_url@ == url@,
            r.status@ == "scraped"@,
            r.log_line@ == "Scraped "@ + url@ + " (total items: "@ + dec_string(final(self).items@.len()) + ")"@,
    {
        self.pages_crawled = self.pages_crawled + 1;
        let found = extract_items(html, self.config.field_rules.as_slice(), None);
        let ghost before = scraped_view(self.items@);
        proof {
            assert(scraped_view(found@).len() == found@.len());
            assert(items_spec(html@, rules_view(self.config.field_rules@), None).len() <= 1);
        }
        let mut i: usize = 0;
        while i < found.len()
            invariant
                i <= found@.len(),
                scraped_view(self.items@) == before + scraped_view(found@.take(i as int)),
                self.pages_crawled == old(self).pages_crawled + 1,
                self.queue == old(self).queue,
                self.visited == old(self).visited,
                self.errors == old(self).errors,
                self.job_id == old(self).job_id,
                self.config == old(self).config,
                self.max_pages == old(self).max_pages,
                found@.len() <= 1,
                old(self).items@.len() + 1 <= usize::MAX,
                before.len() == old(self).items@.len(),
            decreases found@.len() - i,
        {
            let it = found[i].clone_item();
            let ghost iv = scraped_view(self.items@);
            self.items.push(it);
            proof {
                assert(scraped_view(self.items@) =~= iv.push(found@[i as int]@));
                assert(scraped_view(found@.take(i + 1)) =~= scraped_view(found@.take(i as int)).push(found@[i as int]@));
            }
            i = i + 1;
        }
        proof {
            assert(found@.take(found@.len() as int) =~= found@);
            assert(items_spec(html@, rules_view(self.config.field_rules@), None).len() <= 1);
        }
        let mut log: Vec<char> = Vec::new();
        push_str(&mut log, "Scraped ");
        push_str(&mut log, url);
        push_str(&mut log, " (total items: ");
        push_usize(&mut log, self.items.len());
        push_str(&mut log, ")");
        let progress = report(&self.job_id, self.pages_crawled, self.pages_crawled + self.queue.len(),
            self.items.len(), string_of(&chars_of(url)), "scraped", log);
        let ghost rules = self.config.crawl_rules@.map_values(|c: CrawlRule| c@);
        let ghost q0 = strings_view(self.queue@);
        let ghost vis = strings_view(self.visited@);
        let n = self.config.crawl_rules.len();
        let mut k: usize = 0;
        while k < n
            invariant
                k <= n,
                n == self.config.crawl_rules@.len(),
                rules == self.config.crawl_rules@.map_values(|c: CrawlRule| c@),
                vis == strings_view(self.visited@),
                strings_view(self.queue@) == q0 + followed_links(html@, url@, vis, rules.take(k as int)),
                self.pages_crawled == old(self).pages_crawled + 1,
                scraped_view(self.items@) == before + items_spec(html@, rules_view(old(self).config.field_rules@), None),
                self.visited == old(self).visited,
                self.errors == old(self).errors,
                self.job_id == old(self).job_id,
                self.config == old(self).config,
                self.max_pages == old(self).max_pages,
            decreases n - k,
        {
            let rule = self.config.crawl_rules[k].clone_rule();
            proof {
                assert(rules.take(k + 1).drop_last() =~= rules.take(k as int));
                assert(rules.take(k + 1).last() == rule@);
            }
            self.follow_rule(html, url, &rule);
            proof {
                assert(q0 + followed_links(html@, url@, vis, rules.take(k + 1)) =~= q0 + followed_links(html@, url@, vis, rules.take(k as int))
                    + followed_of_rule(links_spec(html@, rule@.0, url@), vis, rule@.1));
            }
            k = k + 1;
        }
        proof {
            assert(rules.take(n as int) =~= rules);
        }
        progress
    }

    /// Whether the application waits the configured delay before the next
    /// request: only while URLs are still queued.
    pub fn should_pause(&self) -> (r: bool)
        ensures
            r == (self.queue@.len() > 0),
    {
        self.queue.len() > 0
    }

    /// Ends the crawl: the pipeline runs over the items, and the "complete"
    /// report and the result are made.
    pub fn finish(self) -> (r: (ScrapeProgress, ScrapeResult))
        ensures
            scraped_view(r.1.items@) == pipeline(scraped_view(self.items@)),
            r.1.job_id@ == self.job_id@,
            r.1.pages_crawled == self.pages_crawled,
            strings_view(r.1.errors@) == strings_view(self.errors@),
            r.1.export_path is None,
            r.0.job_id@ == self.job_id@,
            r.0.pages_crawled == self.pages_crawled,
            r.0.pages_total == self.pages_crawled,
            r.0.items_scraped == r.1.items@.len(),
            r.0.current_url@.len() == 0,
            r.0.status@ == "complete"@,
            r.0.log_line@ == "Done! Crawled "@ + dec_string(self.pages_crawled as nat) + " pages, scraped "@
                + dec_string(r.1.items@.len()) + " items, "@ + dec_string(self.errors@.len()) + " errors"@,
    {
        let mut items = self.items;
        proof {
            assert(items_view(items@) == scraped_view(items@));
        }
        run_pipeline(&mut items);
        let mut log: Vec<char> = Vec::new();
        push_str(&mut log, "Done! Crawled ");
        push_usize(&mut log, self.pages_crawled);
        push_str(&mut log, " pages, scraped ");
        push_usize(&mut log, items.len());
        push_str(&mut log, " items, ");
        push_usize(&mut log, self.errors.len());
        push_str(&mut log, " errors");
        let progress = report(&self.job_id, self.pages_crawled, self.pages_crawled, items.len(),
            String::new(), "complete", log);
        let result = ScrapeResult {
            job_id: self.job_id,
            items,
            pages_crawled: self.pages_crawled,
            errors: self.errors,
            export_path: None,
        };
        (progress, result)
    }
}

} // verus!
