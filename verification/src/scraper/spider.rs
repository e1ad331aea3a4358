//! Validation of spider configurations.
use vstd::prelude::*;
use crate::text::{chars_of, push_all, string_of};
use crate::urls::{spec_url_parts, url_parts};
use crate::scraper::types::{CrawlRule, FieldRule, SpiderConfig};
use crate::scraper::selector::rules_view;

verus! {

/// The error text of `regex::Regex::new(pattern)`, or `None` when the pattern
/// compiles.
pub uninterp spec fn spec_regex_error(pattern: Seq<char>) -> Option<Seq<char>>;

/// Calls `regex::Regex::new(pattern)` and renders its error with `Display`.
/// Claims only that the result is the named value.
#[verifier::external_body]
pub(crate) fn regex_error(pattern: &str) -> (r: Option<String>)
    ensures
        match r {
            Some(e) => spec_regex_error(pattern@) == Some(e@),
            None => spec_regex_error(pattern@) is None,
        },
{
    regex::Regex::new(pattern).err().map(|e| e.to_string())
}

/// The first start URL that does not parse, reported.
pub open spec fn start_url_error(urls: Seq<Seq<char>>) -> Option<Seq<char>>
    decreases urls.len(),
{
    if urls.len() == 0 {
        None
    } else if spec_url_parts(urls[0]) is None {
        Some("Invalid start URL: "@ + urls[0])
    } else {
        start_url_error(urls.skip(1))
    }
}

/// The first problem with a field rule: an empty name, an empty selector or
/// a regex that does not compile.
pub open spec fn field_rule_error(rules: Seq<(Seq<char>, Seq<char>, Seq<char>, Option<Seq<char>>)>) -> Option<Seq<char>>
    decreases rules.len(),
{
    if rules.len() == 0 {
        None
    } else {
        let r = rules[0];
        if r.0.len() == 0 {
            Some("Field rule name cannot be empty"@)
        } else if r.1.len() == 0 {
            Some("CSS selector for field '"@ + r.0 + "' cannot be empty"@)
        } else if r.3 is Some && spec_regex_error(r.3->0) is Some {
            Some("Invalid regex for field '"@ + r.0 + "': "@ + spec_regex_error(r.3->0)->0)
        } else {
            field_rule_error(rules.skip(1))
        }
    }
}

/// The first problem with a crawl rule: an empty link selector or a URL
/// pattern that does not compile.
pub open spec fn crawl_rule_error(rules: Seq<(Seq<char>, Option<Seq<char>>)>) -> Option<Seq<char>>
    decreases rules.len(),
{
    if rules.len() == 0 {
        None
    } else {
        let r = rules[0];
        if r.0.len() == 0 {
            Some("Crawl rule link selector cannot be empty"@)
        } else if r.1 is Some && spec_regex_error(r.1->0) is Some {
            Some("Invalid URL pattern in crawl rule: "@ + spec_regex_error(r.1->0)->0)
        } else {
            crawl_rule_error(rules.skip(1))
        }
    }
}

/// The first problem with a configuration, checked in this order: no start
/// URL, a start URL that does not parse, no field rule, a bad field rule, a bad
/// crawl rule, a concurrency of 0.
pub open spec fn config_error(
    urls: Seq<Seq<char>>,
    rules: Seq<(Seq<char>, Seq<char>, Seq<char>, Option<Seq<char>>)>,
    crawl: Seq<(Seq<char>, Option<Seq<char>>)>,
    concurrency: usize,
) -> Option<Seq<char>> {
    if urls.len() == 0 {
        Some("At least one start URL is required"@)
    } else if start_url_error(urls) is Some {
        start_url_error(urls)
    } else if rules.len() == 0 {
        Some("At least one field extraction rule is required"@)
    } else if field_rule_error(rules) is Some {
        field_rule_error(rules)
    } else if crawl_rule_error(crawl) is Some {
        crawl_rule_error(crawl)
    } else if concurrency == 0 {
        Some("Concurrency must be at least 1"@)
    } else {
        None
    }
}

/// The configuration's parts that validation reads.
pub open spec fn config_problem(config: SpiderConfig) -> Option<Seq<char>> {
    config_error(
        config.start_urls@.map_values(|s: String| s@),
        rules_view(config.field_rules@),
        config.crawl_rules@.map_values(|r: CrawlRule| r@),
        config.concurrency,
    )
}

/// `a` followed by `b`, as a string.
fn concat(a: &str, b: &str) -> (r: String)
    ensures
        r@ == a@ + b@,
{
    let mut v = chars_of(a);
    let w = chars_of(b);
    push_all(&mut v, &w);
    string_of(&v)
}

fn check_start_urls(urls: &Vec<String>) -> (r: Option<String>)
    ensures
        match r {
            Some(e) => start_url_error(urls@.map_values(|s: String| s@)) == Some(e@),
            None => start_url_error(urls@.map_values(|s: String| s@)) is None,
        },
{
    let ghost uv = urls@.map_values(|s: String| s@);
    let mut i: usize = 0;
    proof {
        assert(uv.skip(0) =~= uv);
    }
    while i < urls.len()
        invariant
            i <= urls@.len(),
            uv == urls@.map_values(|s: String| s@),
            start_url_error(uv) == start_url_error(uv.skip(i as int)),
        decreases urls@.len() - i,
    {
        proof {
            assert(uv.skip(i as int)[0] == urls@[i as int]@);
            assert(uv.skip(i as int).skip(1) =~= uv.skip(i + 1));
        }
        if url_parts(urls[i].as_str()).is_none() {
            proof {
                reveal_strlit("Invalid start URL: ");
            }
            return Some(concat("Invalid start URL: ", urls[i].as_str()));
        }
        i = i + 1;
    }
    proof {
        assert(uv.skip(i as int) =~= Seq::<Seq<char>>::empty());
    }
    None
}

fn check_field_rules(rules: &Vec<FieldRule>) -> (r: Option<String>)
    ensures
        match r {
            Some(e) => field_rule_error(rules_view(rules@)) == Some(e@),
            None => field_rule_error(rules_view(rules@)) is None,
        },
{
    let ghost rv = rules_view(rules@);
    let mut i: usize = 0;
    proof {
        assert(rv.skip(0) =~= rv);
    }
    while i < rules.len()
        invariant
            i <= rules@.len(),
            rv == rules_view(rules@),
            field_rule_error(rv) == field_rule_error(rv.skip(i as int)),
        decreases rules@.len() - i,
    {
        proof {
            assert(rv.skip(i as int)[0] == rules@[i as int]@);
            assert(rv.skip(i as int).skip(1) =~= rv.skip(i + 1));
        }
        let rule = &rules[i];
        if rule.name.as_str().is_empty() {
            return Some(String::from_str("Field rule name cannot be empty"));
        }
        if rule.css_selector.as_str().is_empty() {
            proof {
                reveal_strlit("CSS selector for field '");
                reveal_strlit("' cannot be empty");
            }
            let a = concat("CSS selector for field '", rule.name.as_str());
            return Some(concat(a.as_str(), "' cannot be empty"));
        }
        match &rule.regex_filter {
            Some(p) => match regex_error(p.as_str()) {
                Some(e) => {
                    let a = concat("Invalid regex for field '", rule.name.as_str());
                    let b = concat(a.as_str(), "': ");
                    return Some(concat(b.as_str(), e.as_str()));
                },
                None => {},
            },
            None => {},
        }
        i = i + 1;
    }
    proof {
        assert(rv.skip(i as int) =~= Seq::<(Seq<char>, Seq<char>, Seq<char>, Option<Seq<char>>)>::empty());
    }
    None
}

fn check_crawl_rules(rules: &Vec<CrawlRule>) -> (r: Option<String>)
    ensures
        match r {
            Some(e) => crawl_rule_error(rules@.map_values(|c: CrawlRule| c@)) == Some(e@),
            None => crawl_rule_error(rules@.map_values(|c: CrawlRule| c@)) is None,
        },
{
    let ghost rv = rules@.map_values(|c: CrawlRule| c@);
    let mut i: usize = 0;
    proof {
        assert(rv.skip(0) =~= rv);
    }
    while i < rules.len()
        invariant
            i <= rules@.len(),
            rv == rules@.map_values(|c: CrawlRule| c@),
            crawl_rule_error(rv) == crawl_rule_error(rv.skip(i as int)),
        decreases rules@.len() - i,
    {
        proof {
            assert(rv.skip(i as int)[0] == rules@[i as int]@);
            assert(rv.skip(i as int).skip(1) =~= rv.skip(i + 1));
        }
        let rule = &rules[i];
        if rule.link_selector.as_str().is_empty() {
            return Some(String::from_str("Crawl rule link selector cannot be empty"));
        }
        match &rule.url_pattern {
            Some(p) => match regex_error(p.as_str()) {
                Some(e) => {
                    return Some(concat("Invalid URL pattern in crawl rule: ", e.as_str()));
                },
                None => {},
            },
            None => {},
        }
        i = i + 1;
    }
    proof {
        assert(rv.skip(i as int) =~= Seq::<(Seq<char>, Option<Seq<char>>)>::empty());
    }
    None
}

/// Checks a spider configuration before a run; `Err` carries the first
/// problem found (see [`config_error`]).
pub fn validate_config(config: &SpiderConfig) -> (r: Result<(), String>)
    ensures
        match r {
            Ok(()) => config_problem(*config) is None,
            Err(e) => config_problem(*config) == Some(e@),
        },
{
    if config.start_urls.len() == 0 {
        return Err(String::from_str("At least one start URL is required"));
    }
    match check_start_urls(&config.start_urls) {
        Some(e) => return Err(e),
        None => {},
    }
    if config.field_rules.len() == 0 {
        return Err(String::from_str("At least one field extraction rule is required"));
    }
    match check_field_rules(&config.field_rules) {
        Some(e) => return Err(e),
        None => {},
    }
    match check_crawl_rules(&config.crawl_rules) {
        Some(e) => return Err(e),
        None => {},
    }
    if config.concurrency == 0 {
        return Err(String::from_str("Concurrency must be at least 1"));
    }
    Ok(())
}

} // verus!
