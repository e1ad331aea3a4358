//! MPD manifest parsing for the download engine, on the document tree that
//! `roxmltree` reads.
//!
//! The manifest's duration is an ISO 8601 text with fractional seconds; the
//! application turns it into seconds. Where a segment count depends on it, the
//! application hands in the duration in each track's timescale units.
use vstd::prelude::*;
use crate::text::{parse_signed64, chars_of, contains, contains_chars, dec_string, find_from, first_occurrence_from,
    occurs_at, parse_u32, parse_u64, parse_unsigned, parse_usize, push_all, replace,
    replace_chars, slice_chars, starts_with, starts_with_chars, string_of, trim_start_char,
    trim_start_char_chars, u64_to_chars, u64_zero_padded, zero_padded, parse_i64, chars_eq};
use crate::engine::hls::parser::{resolve_url, resolved_url};
use crate::sorting::{sort_by_key, stable_sort_by_key};

verus! {

/// An attribute of an XML element: its local name and value.
pub struct XmlAttr {
    pub name: String,
    pub value: String,
}

/// A node of an XML document, in document order: whether it is an element,
/// its local tag name, its attributes, the index of its parent and its text
/// (for an element, the text of a first child that is text).
pub struct XmlNode {
    pub is_element: bool,
    pub name: String,
    pub attributes: Vec<XmlAttr>,
    pub parent: Option<usize>,
    pub text: Option<String>,
}

/// The view of a node.
pub open spec fn node_view(n: XmlNode) -> (bool, Seq<char>, Seq<(Seq<char>, Seq<char>)>, Option<usize>, Option<Seq<char>>) {
    (n.is_element, n.name@, n.attributes@.map_values(|a: XmlAttr| (a.name@, a.value@)), n.parent, match n.text {
        Some(t) => Some(t@),
        None => None,
    })
}

/// The views of a node list.
pub open spec fn nodes_view(v: Seq<XmlNode>) -> Seq<(bool, Seq<char>, Seq<(Seq<char>, Seq<char>)>, Option<usize>, Option<Seq<char>>)> {
    v.map_values(|n: XmlNode| node_view(n))
}

/// The nodes `roxmltree::Document::parse(content)` reads, in document order
/// (the document root first), or the parse error's text.
pub uninterp spec fn spec_xml_nodes(content: Seq<char>) -> Result<Seq<(bool, Seq<char>, Seq<(Seq<char>, Seq<char>)>, Option<usize>, Option<Seq<char>>)>, Seq<char>>;

/// Calls `roxmltree::Document::parse(content)` and lists `descendants()` of the
/// document with each node's `is_element()`, `tag_name().name()`,
/// `attributes()`, parent `id().get_usize()` and `text()`; an error is rendered
/// with `Display`. Claims only that the result is the named value.
#[verifier::external_body]
fn xml_nodes(content: &str) -> (r: Result<Vec<XmlNode>, String>)
    ensures
        match r {
            Ok(v) => spec_xml_nodes(content@) == Ok::<_, Seq<char>>(nodes_view(v@)),
            Err(e) => spec_xml_nodes(content@) == Err::<Seq<(bool, Seq<char>, Seq<(Seq<char>, Seq<char>)>, Option<usize>, Option<Seq<char>>)>, Seq<char>>(e@),
        },
{
    let doc = roxmltree::Document::parse(content).map_err(|e| e.to_string())?;
    Ok(doc.descendants().map(|n| XmlNode {
        is_element: n.is_element(),
        name: n.tag_name().name().to_string(),
        attributes: n.attributes().map(|a| XmlAttr { name: a.name().to_string(), value: a.value().to_string() }).collect(),
        parent: n.parent().map(|p| p.id().get_usize()),
        text: n.text().map(|t| t.to_string()),
    }).collect())
}

/// The value of the first attribute called `name`.
pub open spec fn attr_in(attrs: Seq<(Seq<char>, Seq<char>)>, name: Seq<char>) -> Option<Seq<char>>
    decreases attrs.len(),
{
    if attrs.len() == 0 {
        None
    } else if attrs[0].0 == name {
        Some(attrs[0].1)
    } else {
        attr_in(attrs.skip(1), name)
    }
}

/// The node `k` is an element named `name` whose parent is `p`.
pub open spec fn is_named_child(nodes: Seq<(bool, Seq<char>, Seq<(Seq<char>, Seq<char>)>, Option<usize>, Option<Seq<char>>)>, p: int, name: Seq<char>, k: int) -> bool {
    0 <= k < nodes.len() && nodes[k].0 && nodes[k].1 == name && nodes[k].3 == Some(p as usize)
}

/// The first element child of `p` named `name`, in document order.
pub open spec fn first_named_child(nodes: Seq<(bool, Seq<char>, Seq<(Seq<char>, Seq<char>)>, Option<usize>, Option<Seq<char>>)>, p: int, name: Seq<char>) -> Option<int> {
    if exists|k: int| is_named_child(nodes, p, name, k) {
        Some(choose|k: int| is_named_child(nodes, p, name, k) && forall|j: int| 0 <= j < k ==> !is_named_child(nodes, p, name, j))
    } else {
        None
    }
}

/// The element children of `p` named `name` among the first `upto` nodes,
/// in document order.
pub open spec fn named_children(nodes: Seq<(bool, Seq<char>, Seq<(Seq<char>, Seq<char>)>, Option<usize>, Option<Seq<char>>)>, p: int, name: Seq<char>, upto: int) -> Seq<int>
    decreases upto,
{
    if upto <= 0 {
        Seq::empty()
    } else if is_named_child(nodes, p, name, upto - 1) {
        named_children(nodes, p, name, upto - 1).push(upto - 1)
    } else {
        named_children(nodes, p, name, upto - 1)
    }
}

/// The value of attribute `name` of node `k`.
pub fn node_attr(nodes: &Vec<XmlNode>, k: usize, name: &str) -> (r: Option<String>)
    requires
        k < nodes@.len(),
    ensures
        match r {
            Some(v) => attr_in(nodes_view(nodes@)[k as int].2, name@) == Some(v@),
            None => attr_in(nodes_view(nodes@)[k as int].2, name@) is None,
        },
{
    let attrs = &nodes[k].attributes;
    let ghost av = nodes_view(nodes@)[k as int].2;
    proof {
        assert(av == attrs@.map_values(|a: XmlAttr| (a.name@, a.value@)));
        assert(av.skip(0) =~= av);
    }
    let want = chars_of(name);
    let mut i: usize = 0;
    while i < attrs.len()
        invariant
            i <= attrs@.len(),
            av == attrs@.map_values(|a: XmlAttr| (a.name@, a.value@)),
            k < nodes@.len(),
            av == nodes_view(nodes@)[k as int].2,
            want@ == name@,
            attr_in(av, name@) == attr_in(av.skip(i as int), name@),
        decreases attrs@.len() - i,
    {
        proof {
            assert(av.skip(i as int)[0] == av[i as int]);
            assert(av.skip(i as int).skip(1) =~= av.skip(i + 1));
            assert(av[i as int] == (attrs@[i as int].name@, attrs@[i as int].value@));
        }
        let n = chars_of(attrs[i].name.as_str());
        if chars_eq(&n, &want) {
            return Some(string_of(&chars_of(attrs[i].value.as_str())));
        }
        i = i + 1;
    }
    proof {
        assert(av.skip(i as int).len() == 0);
    }
    None
}

/// Is node `k` an element named `name` with parent `p`?
fn named_child_at(nodes: &Vec<XmlNode>, p: usize, name: &[char], k: usize) -> (r: bool)
    requires
        k < nodes@.len(),
    ensures
        r == is_named_child(nodes_view(nodes@), p as int, name@, k as int),
{
    let n = &nodes[k];
    if !n.is_element {
        return false;
    }
    match n.parent {
        Some(q) => {
            if q != p {
                return false;
            }
        },
        None => {
            return false;
        },
    }
    let nm = chars_of(n.name.as_str());
    chars_eq(&nm, name)
}

/// The first element child of `p` named `name`.
pub fn first_child(nodes: &Vec<XmlNode>, p: usize, name: &str) -> (r: Option<usize>)
    ensures
        match r {
            Some(k) => first_named_child(nodes_view(nodes@), p as int, name@) == Some(k as int) && k < nodes@.len(),
            None => first_named_child(nodes_view(nodes@), p as int, name@) is None,
        },
{
    let want = chars_of(name);
    let ghost nv = nodes_view(nodes@);
    let mut k: usize = 0;
    while k < nodes.len()
        invariant
            k <= nodes@.len(),
            nv == nodes_view(nodes@),
            want@ == name@,
            forall|j: int| 0 <= j < k ==> !is_named_child(nv, p as int, name@, j),
        decreases nodes@.len() - k,
    {
        if named_child_at(nodes, p, &want, k) {
            proof {
                let c = choose|c: int| is_named_child(nv, p as int, name@, c) && forall|j: int| 0 <= j < c ==> !is_named_child(nv, p as int, name@, j);
                assert(c == k);
            }
            return Some(k);
        }
        k = k + 1;
    }
    None
}

/// The children of `p` named `name`, in document order.
pub fn children_named(nodes: &Vec<XmlNode>, p: usize, name: &str) -> (r: Vec<usize>)
    ensures
        r@.map_values(|k: usize| k as int) == named_children(nodes_view(nodes@), p as int, name@, nodes@.len() as int),
        forall|i: int| 0 <= i < r@.len() ==> r@[i] < nodes@.len(),
{
    let want = chars_of(name);
    let ghost nv = nodes_view(nodes@);
    let mut out: Vec<usize> = Vec::new();
    let mut k: usize = 0;
    while k < nodes.len()
        invariant
            k <= nodes@.len(),
            nv == nodes_view(nodes@),
            want@ == name@,
            out@.map_values(|k: usize| k as int) == named_children(nv, p as int, name@, k as int),
            forall|i: int| 0 <= i < out@.len() ==> out@[i] < nodes@.len(),
        decreases nodes@.len() - k,
    {
        if named_child_at(nodes, p, &want, k) {
            let ghost before = out@.map_values(|k: usize| k as int);
            out.push(k);
            proof {
                assert(out@.map_values(|k: usize| k as int) =~= before.push(k as int));
            }
        }
        k = k + 1;
    }
    out
}

/// The URL a node gives for its descendants: its first `BaseURL` child's text
/// resolved against `parent_base`, or `parent_base` where that child is
/// missing or has no text.
pub open spec fn base_url_of(nodes: Seq<(bool, Seq<char>, Seq<(Seq<char>, Seq<char>)>, Option<usize>, Option<Seq<char>>)>, k: int, parent_base: Seq<char>) -> Seq<char> {
    match first_named_child(nodes, k, "BaseURL"@) {
        Some(b) => match nodes[b].4 {
            Some(t) => resolved_url(parent_base, t),
            None => parent_base,
        },
        None => parent_base,
    }
}

/// The base URL that node `k` gives (see [`base_url_of`]).
pub fn find_base_url(nodes: &Vec<XmlNode>, k: usize, parent_base: &str) -> (r: String)
    ensures
        r@ == base_url_of(nodes_view(nodes@), k as int, parent_base@),
{
    proof {
        reveal_strlit("BaseURL");
    }
    match first_child(nodes, k, "BaseURL") {
        Some(b) => {
            proof {
                assert(nodes_view(nodes@)[b as int] == node_view(nodes@[b as int]));
            }
            match &nodes[b].text {
                Some(t) => resolve_url(parent_base, &chars_of(t.as_str())),
                None => string_of(&chars_of(parent_base)),
            }
        },
        None => string_of(&chars_of(parent_base)),
    }
}

/// The template with `$RepresentationID$`, `$Bandwidth$` and `$Time$`
/// replaced.
pub open spec fn with_fixed_fields(t: Seq<char>, id: Seq<char>, bandwidth: u64, time: u64) -> Seq<char> {
    replace(
        replace(replace(t, "$RepresentationID$"@, id), "$Bandwidth$"@, dec_string(bandwidth as nat)),
        "$Time$"@,
        dec_string(time as nat),
    )
}

/// The width a `$Number%0<w>d$` format asks for: its digits after leading
/// zeros are dropped, 1 when they do not read as a number.
pub open spec fn number_width(format: Seq<char>) -> nat {
    match parse_unsigned(trim_start_char(format.drop_last(), '0'), usize::MAX as nat) {
        Some(w) => w,
        None => 1,
    }
}

/// The first `$Number%<fmt>$` (with `fmt` ending in `d`) replaced by the
/// zero-padded number; the text unchanged where there is none of that form.
pub open spec fn with_padded_number(r: Seq<char>, number: u64) -> Seq<char> {
    match first_occurrence_from(r, "$Number%"@, 0) {
        Some(start) => match first_occurrence_from(r.skip(start + 8), seq!['$'], 0) {
            Some(e) => {
                let end = start + 8 + e;
                let format = r.subrange(start + 8, end);
                if format.len() > 0 && format.last() == 'd' {
                    r.take(start) + zero_padded(number as nat, number_width(format)) + r.skip(end + 1)
                } else {
                    r
                }
            },
            None => r,
        },
        None => r,
    }
}

/// A DASH segment template with its variables filled in: the representation
/// id, the bandwidth and the time, then, where `$Number` occurs, a first
/// `$Number%0<w>d$` zero-padded to width `w` and every `$Number$`.
pub open spec fn substituted(t: Seq<char>, id: Seq<char>, bandwidth: u64, number: u64, time: u64) -> Seq<char> {
    let r = with_fixed_fields(t, id, bandwidth, time);
    if contains(r, "$Number"@) {
        replace(with_padded_number(r, number), "$Number$"@, dec_string(number as nat))
    } else {
        r
    }
}

/// Replaces every `pat` (non-empty) in `v`.
fn replace_lit(v: &Vec<char>, pat: &str, rep: &[char]) -> (r: Vec<char>)
    requires
        pat@.len() > 0,
    ensures
        r@ == replace(v@, pat@, rep@),
{
    let p = chars_of(pat);
    replace_chars(v, &p, rep)
}

/// Fills in the first zero-padded `$Number%..d$` (see [`with_padded_number`]).
fn pad_number(r: &Vec<char>, number: u64) -> (out: Vec<char>)
    ensures
        out@ == with_padded_number(r@, number),
{
    proof {
        reveal_strlit("$Number%");
    }
    let key = chars_of("$Number%");
    match find_from(r, &key, 0) {
        None => r.clone(),
        Some(start) => {
            let n = r.len();
            proof {
                assert(occurs_at(r@, key@, start as int));
                assert(start + 8 <= n);
            }
            let rest = slice_chars(r, start + 8, n);
            proof {
                assert(rest@ =~= r@.skip(start + 8));
            }
            let dollar = ['$'];
            proof {
                assert(dollar@ =~= seq!['$']);
            }
            match find_from(&rest, &dollar, 0) {
                None => r.clone(),
                Some(e) => {
                    proof {
                        assert(occurs_at(rest@, dollar@, e as int));
                    }
                    let end = start + 8 + e;
                    let format = slice_chars(r, start + 8, end);
                    if format.len() > 0 && format[format.len() - 1] == 'd' {
                        let digits = slice_chars(&format, 0, format.len() - 1);
                        proof {
                            assert(digits@ =~= format@.drop_last());
                        }
                        let stripped = trim_start_char_chars(&digits, '0');
                        let width: usize = match parse_usize(&stripped) {
                            Some(w) => w,
                            None => 1,
                        };
                        let padded = u64_zero_padded(number, width);
                        let mut out = slice_chars(r, 0, start);
                        push_all(&mut out, &padded);
                        let tail = slice_chars(r, end + 1, n);
                        push_all(&mut out, &tail);
                        proof {
                            assert(out@ =~= r@.take(start as int) + zero_padded(number as nat, number_width(format@))
                                + r@.skip(end + 1));
                        }
                        out
                    } else {
                        r.clone()
                    }
                },
            }
        },
    }
}

/// Fills in a DASH segment template (see [`substituted`]).
pub fn substitute_template(template: &str, repr_id: &str, bandwidth: u64, number: u64, time: u64) -> (r: String)
    ensures
        r@ == substituted(template@, repr_id@, bandwidth, number, time),
{
    proof {
        reveal_strlit("$RepresentationID$");
        reveal_strlit("$Bandwidth$");
        reveal_strlit("$Time$");
        reveal_strlit("$Number");
        reveal_strlit("$Number$");
    }
    let t = chars_of(template);
    let id = chars_of(repr_id);
    let r1 = replace_lit(&t, "$RepresentationID$", &id);
    let r2 = replace_lit(&r1, "$Bandwidth$", &u64_to_chars(bandwidth));
    let r3 = replace_lit(&r2, "$Time$", &u64_to_chars(time));
    let marker = chars_of("$Number");
    if contains_chars(&r3, &marker) {
        let r4 = pad_number(&r3, number);
        let r5 = replace_lit(&r4, "$Number$", &u64_to_chars(number));
        string_of(&r5)
    } else {
        string_of(&r3)
    }
}

/// The URL of one segment of a template.
pub open spec fn segment_url(base: Seq<char>, media: Seq<char>, id: Seq<char>, bandwidth: u64, number: u64, time: u64) -> Seq<char> {
    resolved_url(base, substituted(media, id, bandwidth, number, time))
}

/// What a representation's segments are made from.
pub struct TemplatePlan {
    /// The `media` template (empty when missing).
    pub media: String,
    /// The resolved initialization URL, when the template names one.
    pub init_url: Option<String>,
    /// Time units per second (1 when missing or unreadable).
    pub timescale: u64,
    /// Number of the first segment (1 when missing or unreadable).
    pub start_number: u64,
    /// The fixed segment duration, when given.
    pub duration: Option<u64>,
    /// The `<S>` entries of a segment timeline as (`t`, `d`, `r`), when there
    /// is a timeline.
    pub timeline: Option<Vec<(Option<u64>, u64, i64)>>,
}

/// How many times a timeline entry is used: `r + 1` times, or for a negative
/// `r` as many as fit between `time` and the end of the presentation (`total`,
/// in timescale units, where the duration is known and positive), computed
/// with release-build wrapping.
pub open spec fn repeat_count(r: i64, d: u64, time: u64, total: Option<u64>) -> i64 {
    if r < 0 {
        match total {
            Some(tt) => if d > 0 {
                (vstd::wrapping::u64_specs::wrapping_sub(tt, time) / d) as i64
            } else {
                0
            },
            None => 0,
        }
    } else {
        r
    }
}

/// The URLs of `k` consecutive segments starting at `time` and `number`, `d`
/// apart, with the time and number after them.
pub open spec fn run(k: nat, time: u64, number: u64, d: u64, base: Seq<char>, media: Seq<char>, id: Seq<char>, bandwidth: u64) -> (Seq<Seq<char>>, u64, u64)
    decreases k,
{
    if k == 0 {
        (Seq::empty(), time, number)
    } else {
        let p = run((k - 1) as nat, time, number, d, base, media, id, bandwidth);
        (
            p.0.push(segment_url(base, media, id, bandwidth, p.2, p.1)),
            vstd::wrapping::u64_specs::wrapping_add(p.1, d),
            vstd::wrapping::u64_specs::wrapping_add(p.2, 1),
        )
    }
}

/// The number of segments an entry with repeat count `rc` gives.
pub open spec fn uses(rc: i64) -> nat {
    if rc < 0 { 0 } else { (rc + 1) as nat }
}

/// The URLs a segment timeline gives, with the time and number after it.
pub open spec fn timeline_urls(s: Seq<(Option<u64>, u64, i64)>, start_number: u64, total: Option<u64>, base: Seq<char>, media: Seq<char>, id: Seq<char>, bandwidth: u64) -> (Seq<Seq<char>>, u64, u64)
    decreases s.len(),
{
    if s.len() == 0 {
        (Seq::empty(), 0, start_number)
    } else {
        let p = timeline_urls(s.drop_last(), start_number, total, base, media, id, bandwidth);
        let (t, d, r) = s.last();
        let time = match t { Some(v) => v, None => p.1 };
        let q = run(uses(repeat_count(r, d, time, total)), time, p.2, d, base, media, id, bandwidth);
        (p.0 + q.0, q.1, q.2)
    }
}

/// The view of a plan: media template, initialization URL, timescale, start
/// number, fixed duration and timeline entries.
pub open spec fn plan_view(p: TemplatePlan) -> (Seq<char>, Option<Seq<char>>, u64, u64, Option<u64>, Option<Seq<(Option<u64>, u64, i64)>>) {
    (p.media@, match p.init_url { Some(u) => Some(u@), None => None }, p.timescale, p.start_number, p.duration,
        match p.timeline { Some(t) => Some(t@), None => None })
}

/// The segment URLs of a template: from its timeline where it has one, else,
/// with a fixed duration and a known positive presentation length (`total`
/// timescale units), as many segments as cover it; none otherwise.
pub open spec fn template_urls(plan: (Seq<char>, Option<Seq<char>>, u64, u64, Option<u64>, Option<Seq<(Option<u64>, u64, i64)>>), total: Option<u64>, base: Seq<char>, id: Seq<char>, bandwidth: u64) -> Seq<Seq<char>> {
    match plan.5 {
        Some(tl) => timeline_urls(tl, plan.3, total, base, plan.0, id, bandwidth).0,
        None => match (plan.4, total) {
            (Some(sd), Some(tt)) => if sd > 0 {
                let n = vstd::wrapping::u64_specs::wrapping_sub(vstd::wrapping::u64_specs::wrapping_add(tt, sd), 1) / sd;
                Seq::new(n as nat, |i: int| segment_url(base, plan.0, id, bandwidth,
                    vstd::wrapping::u64_specs::wrapping_add(plan.3, i as u64),
                    ((i * sd) % 0x1_0000_0000_0000_0000) as u64))
            } else {
                Seq::empty()
            },
            _ => Seq::empty(),
        },
    }
}

/// A template with a fixed segment duration covers the presentation: its
/// segments reach the end, and without the last one they would not (as long
/// as the length plus one duration fits in 64 bits).
pub proof fn law_fixed_duration_covers(plan: (Seq<char>, Option<Seq<char>>, u64, u64, Option<u64>, Option<Seq<(Option<u64>, u64, i64)>>),
    total: u64, base: Seq<char>, id: Seq<char>, bandwidth: u64)
    requires
        plan.5 is None,
        plan.4 matches Some(sd) && sd > 0 && total + sd - 1 <= u64::MAX,
    ensures
        ({
            let n = template_urls(plan, Some(total), base, id, bandwidth).len();
            let sd = plan.4->0;
            &&& n * sd >= total
            &&& (n == 0 || (n - 1) * sd < total)
        }),
{
    let sd = plan.4->0;
    let sum = vstd::wrapping::u64_specs::wrapping_add(total, sd);
    let m = vstd::wrapping::u64_specs::wrapping_sub(sum, 1);
    assert(m == total + sd - 1) by {
        if total + sd > u64::MAX {
            assert(sum == 0);
        } else {
            assert(sum == total + sd);
        }
    }
    let n = m / sd;
    assert(template_urls(plan, Some(total), base, id, bandwidth).len() == n);
    assert(n * sd >= total && (n == 0 || (n - 1) * sd < total)) by (nonlinear_arith)
        requires
            sd > 0,
            m == total + sd - 1,
            n == m / sd;
}

/// The URL of one templated segment.
fn one_segment(base: &str, media: &str, id: &str, bandwidth: u64, number: u64, time: u64) -> (r: String)
    ensures
        r@ == segment_url(base@, media@, id@, bandwidth, number, time),
{
    let u = substitute_template(media, id, bandwidth, number, time);
    resolve_url(base, &chars_of(u.as_str()))
}

/// Appends `k` consecutive segments (see [`run`]).
fn push_run(out: &mut Vec<String>, k: u64, time: u64, number: u64, d: u64, base: &str, media: &str, id: &str, bandwidth: u64) -> (r: (u64, u64))
    ensures
        ({
            let q = run(k as nat, time, number, d, base@, media@, id@, bandwidth);
            &&& final(out)@.map_values(|s: String| s@) == old(out)@.map_values(|s: String| s@) + q.0
            &&& r == (q.1, q.2)
        }),
{
    let ghost start = out@.map_values(|s: String| s@);
    let mut t = time;
    let mut n = number;
    let mut j: u64 = 0;
    while j < k
        invariant
            j <= k,
            ({
                let q = run(j as nat, time, number, d, base@, media@, id@, bandwidth);
                &&& out@.map_values(|s: String| s@) == start + q.0
                &&& t == q.1
                &&& n == q.2
            }),
        decreases k - j,
    {
        let u = one_segment(base, media, id, bandwidth, n, t);
        let ghost before = out@.map_values(|s: String| s@);
        let ghost uv = u@;
        out.push(u);
        proof {
            assert(out@.map_values(|s: String| s@) =~= before.push(uv));
        }
        t = t.wrapping_add(d);
        n = n.wrapping_add(1);
        j = j + 1;
    }
    (t, n)
}

/// The number of uses of a timeline entry as an exec value.
fn entry_uses(r: i64, d: u64, time: u64, total: Option<u64>) -> (k: u64)
    ensures
        k == uses(repeat_count(r, d, time, total)),
{
    let rc: i64 = if r < 0 {
        match total {
            Some(tt) => {
                if d > 0 {
                    (tt.wrapping_sub(time) / d) as i64
                } else {
                    0
                }
            },
            None => 0,
        }
    } else {
        r
    };
    if rc < 0 {
        0
    } else {
        rc as u64 + 1
    }
}

/// Where a segment timeline ends: the start of its last entry (its `t`, or
/// where the entries before it end) plus that entry's number of segments times
/// its `d`, wrapping at 2^64; 0 for no entries.
pub open spec fn timeline_end(s: Seq<(Option<u64>, u64, i64)>, total: Option<u64>) -> u64
    decreases s.len(),
{
    if s.len() == 0 {
        0
    } else {
        let start = match s.last().0 {
            Some(v) => v,
            None => timeline_end(s.drop_last(), total),
        };
        ((start + uses(repeat_count(s.last().2, s.last().1, start, total)) * s.last().1) % 0x1_0000_0000_0000_0000) as u64
    }
}

/// Where the last entry of a (non-empty) timeline starts: its `t`, or where
/// the entries before it end.
pub open spec fn last_entry_start(s: Seq<(Option<u64>, u64, i64)>, total: Option<u64>) -> u64 {
    match s.last().0 {
        Some(v) => v,
        None => timeline_end(s.drop_last(), total),
    }
}

/// How many segments the last entry of a (non-empty) timeline gives.
pub open spec fn last_entry_count(s: Seq<(Option<u64>, u64, i64)>, total: Option<u64>) -> nat {
    uses(repeat_count(s.last().2, s.last().1, last_entry_start(s, total), total))
}

/// How many segments a timeline gives.
pub open spec fn timeline_count(s: Seq<(Option<u64>, u64, i64)>, total: Option<u64>) -> nat
    decreases s.len(),
{
    if s.len() == 0 {
        0
    } else {
        timeline_count(s.drop_last(), total) + last_entry_count(s, total)
    }
}

/// `x + y` wrapping at 2^64 is the sum modulo 2^64.
proof fn lemma_wrapping_add_is_mod(x: u64, y: u64)
    ensures
        vstd::wrapping::u64_specs::wrapping_add(x, y) as int == (x + y) % 0x1_0000_0000_0000_0000,
{
    let m: int = 0x1_0000_0000_0000_0000;
    if x + y > u64::MAX {
        vstd::arithmetic::div_mod::lemma_mod_sub_multiples_vanish(x + y, m);
        vstd::arithmetic::div_mod::lemma_small_mod((x + y - m) as nat, m as nat);
    } else {
        vstd::arithmetic::div_mod::lemma_small_mod((x + y) as nat, m as nat);
    }
}

/// The `i`-th of `k` consecutive segments has number `number + i` and time
/// `time + i * d` (wrapping at 2^64), and the run ends `k` numbers and `k * d`
/// time units later.
proof fn lemma_run_closed_form(k: nat, time: u64, number: u64, d: u64, base: Seq<char>, media: Seq<char>,
    id: Seq<char>, bandwidth: u64)
    ensures
        ({
            let r = run(k, time, number, d, base, media, id, bandwidth);
            &&& r.0.len() == k
            &&& r.1 as int == (time + k * d) % 0x1_0000_0000_0000_0000
            &&& r.2 as int == (number + k) % 0x1_0000_0000_0000_0000
            &&& forall|i: int| 0 <= i < k ==> #[trigger] r.0[i] == segment_url(base, media, id, bandwidth,
                ((number + i) % 0x1_0000_0000_0000_0000) as u64, ((time + i * d) % 0x1_0000_0000_0000_0000) as u64)
        }),
    decreases k,
{
    let m: int = 0x1_0000_0000_0000_0000;
    if k == 0 {
        vstd::arithmetic::div_mod::lemma_small_mod(time as nat, m as nat);
        vstd::arithmetic::div_mod::lemma_small_mod(number as nat, m as nat);
    } else {
        let k1 = (k - 1) as nat;
        lemma_run_closed_form(k1, time, number, d, base, media, id, bandwidth);
        let p = run(k1, time, number, d, base, media, id, bandwidth);
        let r = run(k, time, number, d, base, media, id, bandwidth);
        lemma_wrapping_add_is_mod(p.1, d);
        lemma_wrapping_add_is_mod(p.2, 1);
        vstd::arithmetic::div_mod::lemma_add_mod_noop_right(d as int, time + k1 * d, m);
        vstd::arithmetic::div_mod::lemma_add_mod_noop_right(1, number + k1, m);
        assert(k1 * d + d == k * d) by (nonlinear_arith)
            requires
                k1 + 1 == k,
        ;
        assert(r.1 as int == (time + k * d) % m);
        assert(r.2 as int == (number + k) % m);
        assert forall|i: int| 0 <= i < k implies #[trigger] r.0[i] == segment_url(base, media, id, bandwidth,
            ((number + i) % m) as u64, ((time + i * d) % m) as u64) by {
            if i < k1 {
                assert(r.0[i] == p.0[i]);
            } else {
                assert(r.0[i] == segment_url(base, media, id, bandwidth, p.2, p.1));
            }
        }
    }
}

/// A segment timeline's URLs are those of the entries before its last one
/// followed by the last entry's run.
proof fn lemma_timeline_last(s: Seq<(Option<u64>, u64, i64)>, start_number: u64, total: Option<u64>,
    base: Seq<char>, media: Seq<char>, id: Seq<char>, bandwidth: u64)
    requires
        s.len() > 0,
        timeline_urls(s.drop_last(), start_number, total, base, media, id, bandwidth).1 == timeline_end(s.drop_last(), total),
    ensures
        ({
            let p = timeline_urls(s.drop_last(), start_number, total, base, media, id, bandwidth);
            let q = run(last_entry_count(s, total), last_entry_start(s, total), p.2, s.last().1, base, media, id, bandwidth);
            timeline_urls(s, start_number, total, base, media, id, bandwidth) == (p.0 + q.0, q.1, q.2)
        }),
{
}

/// The segments before an entry and the entry's own segments are among the
/// timeline's segments.
proof fn lemma_count_prefix_bound(s: Seq<(Option<u64>, u64, i64)>, total: Option<u64>)
    ensures
        forall|j: int| 0 <= j < s.len() ==> timeline_count(#[trigger] s.take(j), total)
            + last_entry_count(s.take(j + 1), total) <= timeline_count(s, total),
    decreases s.len(),
{
    if s.len() > 0 {
        let s0 = s.drop_last();
        lemma_count_prefix_bound(s0, total);
        assert forall|j: int| 0 <= j < s.len() implies timeline_count(#[trigger] s.take(j), total)
            + last_entry_count(s.take(j + 1), total) <= timeline_count(s, total) by {
            if j == s.len() - 1 {
                assert(s.take(j) =~= s0);
                assert(s.take(j + 1) =~= s);
            } else {
                assert(s.take(j) =~= s0.take(j));
                assert(s.take(j + 1) =~= s0.take(j + 1));
                assert(timeline_count(s0.take(j), total) + last_entry_count(s0.take(j + 1), total)
                    <= timeline_count(s0, total));
            }
        }
    }
}

/// The segments of a timeline in closed form: entry `j` gives its segments
/// one after another, the `k`-th of them numbered `start_number` plus the
/// segments before it and timed at the entry's start plus `k * d`; an entry
/// without `t` starts where the entries before it end (see
/// [`last_entry_start`]); and the timeline ends at [`timeline_end`].
#[verifier::rlimit(40)]
pub proof fn law_timeline_segment_times(s: Seq<(Option<u64>, u64, i64)>, start_number: u64, total: Option<u64>,
    base: Seq<char>, media: Seq<char>, id: Seq<char>, bandwidth: u64)
    ensures
        ({
            let r = timeline_urls(s, start_number, total, base, media, id, bandwidth);
            &&& r.0.len() == timeline_count(s, total)
            &&& r.1 == timeline_end(s, total)
            &&& r.2 as int == (start_number + timeline_count(s, total)) % 0x1_0000_0000_0000_0000
            &&& forall|j: int, k: int| 0 <= j < s.len() && 0 <= k < last_entry_count(s.take(j + 1), total) ==>
                #[trigger] r.0[timeline_count(s.take(j), total) + k] == segment_url(base, media, id, bandwidth,
                    ((start_number + timeline_count(s.take(j), total) + k) % 0x1_0000_0000_0000_0000) as u64,
                    ((last_entry_start(s.take(j + 1), total) + k * s[j].1) % 0x1_0000_0000_0000_0000) as u64)
        }),
    decreases s.len(),
{
    let m: int = 0x1_0000_0000_0000_0000;
    if s.len() == 0 {
        vstd::arithmetic::div_mod::lemma_small_mod(start_number as nat, m as nat);
    } else {
        let s0 = s.drop_last();
        law_timeline_segment_times(s0, start_number, total, base, media, id, bandwidth);
        lemma_count_prefix_bound(s0, total);
        lemma_timeline_last(s, start_number, total, base, media, id, bandwidth);
        let p = timeline_urls(s0, start_number, total, base, media, id, bandwidth);
        let d = s.last().1;
        let time = last_entry_start(s, total);
        let n = last_entry_count(s, total);
        lemma_run_closed_form(n, time, p.2, d, base, media, id, bandwidth);
        let q = run(n, time, p.2, d, base, media, id, bandwidth);
        let r = timeline_urls(s, start_number, total, base, media, id, bandwidth);
        let c0 = timeline_count(s0, total);
        vstd::arithmetic::div_mod::lemma_add_mod_noop_right(n as int, start_number + c0, m);
        assert(r.1 == timeline_end(s, total));
        assert forall|j: int, k: int| 0 <= j < s.len() && 0 <= k < last_entry_count(s.take(j + 1), total) implies
            #[trigger] r.0[timeline_count(s.take(j), total) + k] == segment_url(base, media, id, bandwidth,
                ((start_number + timeline_count(s.take(j), total) + k) % m) as u64,
                ((last_entry_start(s.take(j + 1), total) + k * s[j].1) % m) as u64) by {
            if j == s.len() - 1 {
                assert(s.take(j) =~= s0);
                assert(s.take(j + 1) =~= s);
                assert(r.0[c0 + k] == q.0[k]);
                vstd::arithmetic::div_mod::lemma_add_mod_noop_right(k, start_number + c0, m);
            } else {
                assert(s.take(j) =~= s0.take(j));
                assert(s.take(j + 1) =~= s0.take(j + 1));
                assert(s[j] == s0[j]);
                assert(timeline_count(s0.take(j), total) + last_entry_count(s0.take(j + 1), total) <= c0);
                assert(r.0[timeline_count(s.take(j), total) + k] == p.0[timeline_count(s0.take(j), total) + k]);
            }
        }
    }
}

/// An `<S>` entry without `t` continues where the timeline before it ends:
/// its first segment is timed at the previous entry's start plus that entry's
/// number of segments times its `d` (0 for the first entry).
pub proof fn law_untimed_entry_continues(s: Seq<(Option<u64>, u64, i64)>, d: u64, r: i64, start_number: u64,
    total: Option<u64>, base: Seq<char>, media: Seq<char>, id: Seq<char>, bandwidth: u64)
    requires
        uses(repeat_count(r, d, timeline_end(s, total), total)) > 0,
    ensures
        ({
            let u = timeline_urls(s.push((None, d, r)), start_number, total, base, media, id, bandwidth).0;
            let before = timeline_count(s, total);
            let prev_end: int = if s.len() == 0 {
                0
            } else {
                (last_entry_start(s, total) + last_entry_count(s, total) * s.last().1) % 0x1_0000_0000_0000_0000
            };
            u[before as int] == segment_url(base, media, id, bandwidth,
                ((start_number + before) % 0x1_0000_0000_0000_0000) as u64, prev_end as u64)
        }),
{
    let s2 = s.push((None, d, r));
    let j = s.len() as int;
    let m: int = 0x1_0000_0000_0000_0000;
    let t = timeline_end(s, total);
    assert(s2.take(j) =~= s);
    assert(s2.take(j + 1) =~= s2);
    assert(s2.drop_last() =~= s);
    assert(last_entry_start(s2, total) == t);
    assert(last_entry_count(s2, total) > 0);
    law_timeline_segment_times(s2, start_number, total, base, media, id, bandwidth);
    let u = timeline_urls(s2, start_number, total, base, media, id, bandwidth).0;
    assert(u[timeline_count(s2.take(j), total) + 0int] == segment_url(base, media, id, bandwidth,
        ((start_number + timeline_count(s2.take(j), total) + 0int) % m) as u64,
        ((last_entry_start(s2.take(j + 1), total) + 0int * s2[j].1) % m) as u64));
    vstd::arithmetic::div_mod::lemma_small_mod(t as nat, m as nat);
    assert((t + 0 * d) % m == t as int);
    if s.len() > 0 {
        assert(t as int == (last_entry_start(s, total) + last_entry_count(s, total) * s.last().1) % m);
    }
}

/// The segment URLs of a template (see [`template_urls`]); `total` is the
/// presentation length in the template's timescale units, `None` where the
/// length is not known to be positive.
pub fn expand_template(plan: &TemplatePlan, total: Option<u64>, base: &str, id: &str, bandwidth: u64) -> (r: Vec<String>)
    ensures
        r@.map_values(|s: String| s@) == template_urls(plan_view(*plan), total, base@, id@, bandwidth),
{
    let media = plan.media.as_str();
    let mut out: Vec<String> = Vec::new();
    match &plan.timeline {
        Some(tl) => {
            let ghost sv = tl@;
            let mut time: u64 = 0;
            let mut number: u64 = plan.start_number;
            let mut i: usize = 0;
            while i < tl.len()
                invariant
                    i <= sv.len(),
                    sv == tl@,
                    media@ == plan.media@,
                    ({
                        let p = timeline_urls(sv.take(i as int), plan.start_number, total, base@, media@, id@, bandwidth);
                        &&& out@.map_values(|s: String| s@) == p.0
                        &&& time == p.1
                        &&& number == p.2
                    }),
                decreases sv.len() - i,
            {
                let (t, d, r) = tl[i];
                proof {
                    assert(sv.take(i + 1).drop_last() =~= sv.take(i as int));
                    assert(sv.take(i + 1).last() == (t, d, r));
                }
                let start_time = match t {
                    Some(v) => v,
                    None => time,
                };
                let k = entry_uses(r, d, start_time, total);
                let (t2, n2) = push_run(&mut out, k, start_time, number, d, base, media, id, bandwidth);
                time = t2;
                number = n2;
                i = i + 1;
            }
            proof {
                assert(sv.take(sv.len() as int) =~= sv);
            }
            out
        },
        None => {
            match (plan.duration, total) {
                (Some(sd), Some(tt)) => {
                    if sd > 0 {
                        let count = tt.wrapping_add(sd).wrapping_sub(1) / sd;
                        let mut time: u64 = 0;
                        let mut k: u64 = 0;
                        while k < count
                            invariant
                                k <= count,
                                sd > 0,
                                media@ == plan.media@,
                                time == ((k * sd) % 0x1_0000_0000_0000_0000) as u64,
                                out@.len() == k,
                                forall|i: int| 0 <= i < k ==> (#[trigger] out@[i])@ == segment_url(base@, media@, id@, bandwidth,
                                    vstd::wrapping::u64_specs::wrapping_add(plan.start_number, i as u64),
                                    ((i * sd) % 0x1_0000_0000_0000_0000) as u64),
                            decreases count - k,
                        {
                            let u = one_segment(base, media, id, bandwidth, plan.start_number.wrapping_add(k), time);
                            out.push(u);
                            proof {
                                assert(((k + 1) * sd) % 0x1_0000_0000_0000_0000 == (((k * sd) % 0x1_0000_0000_0000_0000) + sd) % 0x1_0000_0000_0000_0000) by (nonlinear_arith);
                            }
                            time = time.wrapping_add(sd);
                            k = k + 1;
                        }
                        proof {
                            assert(out@.map_values(|s: String| s@) =~= template_urls(plan_view(*plan), total, base@, id@, bandwidth));
                        }
                        out
                    } else {
                        out
                    }
                },
                _ => out,
            }
        },
    }
}

/// An attribute read as a `u64` (`None` when missing or unreadable).
pub open spec fn attr_u64(attrs: Seq<(Seq<char>, Seq<char>)>, name: Seq<char>) -> Option<u64> {
    match attr_in(attrs, name) {
        Some(v) => match parse_unsigned(v, u64::MAX as nat) {
            Some(n) => Some(n as u64),
            None => None,
        },
        None => None,
    }
}

/// An attribute read as an `i64` (`None` when missing or unreadable).
pub open spec fn attr_i64(attrs: Seq<(Seq<char>, Seq<char>)>, name: Seq<char>) -> Option<i64> {
    match attr_in(attrs, name) {
        Some(v) => match parse_signed64(v) {
            Some(n) => Some(n as i64),
            None => None,
        },
        None => None,
    }
}

fn attr_u64_of(nodes: &Vec<XmlNode>, k: usize, name: &str) -> (r: Option<u64>)
    requires
        k < nodes@.len(),
    ensures
        r == attr_u64(nodes_view(nodes@)[k as int].2, name@),
{
    match node_attr(nodes, k, name) {
        Some(v) => parse_u64(&chars_of(v.as_str())),
        None => None,
    }
}

fn attr_i64_of(nodes: &Vec<XmlNode>, k: usize, name: &str) -> (r: Option<i64>)
    requires
        k < nodes@.len(),
    ensures
        r == attr_i64(nodes_view(nodes@)[k as int].2, name@),
{
    match node_attr(nodes, k, name) {
        Some(v) => parse_i64(&chars_of(v.as_str())),
        None => None,
    }
}

/// The `(t, d, r)` of an `<S>` entry: `d` and `r` are 0 when missing or
/// unreadable.
pub open spec fn s_entry(attrs: Seq<(Seq<char>, Seq<char>)>) -> (Option<u64>, u64, i64) {
    (attr_u64(attrs, "t"@), match attr_u64(attrs, "d"@) { Some(d) => d, None => 0 },
        match attr_i64(attrs, "r"@) { Some(r) => r, None => 0 })
}

/// The plan a `SegmentTemplate` element gives for a representation.
#[verifier::opaque]
pub open spec fn plan_of(nodes: Seq<(bool, Seq<char>, Seq<(Seq<char>, Seq<char>)>, Option<usize>, Option<Seq<char>>)>, k: int, base: Seq<char>, id: Seq<char>, bandwidth: u64)
    -> (Seq<char>, Option<Seq<char>>, u64, u64, Option<u64>, Option<Seq<(Option<u64>, u64, i64)>>) {
    let a = nodes[k].2;
    (
        match attr_in(a, "media"@) { Some(m) => m, None => Seq::empty() },
        match attr_in(a, "initialization"@) {
            Some(t) => Some(resolved_url(base, substituted(t, id, bandwidth, 0, 0))),
            None => None,
        },
        match attr_u64(a, "timescale"@) { Some(t) => t, None => 1 },
        match attr_u64(a, "startNumber"@) { Some(t) => t, None => 1 },
        attr_u64(a, "duration"@),
        match first_named_child(nodes, k, "SegmentTimeline"@) {
            Some(tl) => Some(named_children(nodes, tl, "S"@, nodes.len() as int).map_values(
                |j: int| s_entry(nodes[j].2))),
            None => None,
        },
    )
}

/// Reads a `SegmentTemplate` element into a plan (see [`plan_of`]).
#[verifier::spinoff_prover]
#[verifier::rlimit(40)]
pub fn template_plan(nodes: &Vec<XmlNode>, k: usize, base: &str, id: &str, bandwidth: u64) -> (r: TemplatePlan)
    requires
        k < nodes@.len(),
    ensures
        plan_view(r) == plan_of(nodes_view(nodes@), k as int, base@, id@, bandwidth),
{
    proof {
        reveal_strlit("");
        reveal(plan_of);
    }
    let ghost nv = nodes_view(nodes@);
    let media = match node_attr(nodes, k, "media") {
        Some(m) => m,
        None => String::new(),
    };
    let init_url = match node_attr(nodes, k, "initialization") {
        Some(t) => {
            let u = substitute_template(t.as_str(), id, bandwidth, 0, 0);
            Some(resolve_url(base, &chars_of(u.as_str())))
        },
        None => None,
    };
    let timescale = match attr_u64_of(nodes, k, "timescale") {
        Some(t) => t,
        None => 1,
    };
    let start_number = match attr_u64_of(nodes, k, "startNumber") {
        Some(t) => t,
        None => 1,
    };
    let duration = attr_u64_of(nodes, k, "duration");
    let timeline = match first_child(nodes, k, "SegmentTimeline") {
        Some(tl) => {
            let ids = children_named(nodes, tl, "S");
            let ghost idv = ids@.map_values(|j: usize| j as int);
            let mut entries: Vec<(Option<u64>, u64, i64)> = Vec::new();
            let mut i: usize = 0;
            while i < ids.len()
                invariant
                    i <= ids@.len(),
                    nv == nodes_view(nodes@),
                    idv == ids@.map_values(|j: usize| j as int),
                    forall|x: int| 0 <= x < ids@.len() ==> ids@[x] < nodes@.len(),
                    entries@ == idv.take(i as int).map_values(|j: int| s_entry(nv[j].2)),
                decreases ids@.len() - i,
            {
                let j = ids[i];
                let t = attr_u64_of(nodes, j, "t");
                let d = match attr_u64_of(nodes, j, "d") {
                    Some(d) => d,
                    None => 0,
                };
                let r = match attr_i64_of(nodes, j, "r") {
                    Some(r) => r,
                    None => 0,
                };
                entries.push((t, d, r));
                proof {
                    assert(idv[i as int] == j as int);
                    assert(idv.take(i + 1).map_values(|j: int| s_entry(nv[j].2)) =~= idv.take(i as int).map_values(
                        |j: int| s_entry(nv[j].2)).push(s_entry(nv[j as int].2)));
                }
                i = i + 1;
            }
            proof {
                assert(idv.take(ids@.len() as int) =~= idv);
            }
            Some(entries)
        },
        None => None,
    };
    TemplatePlan { media, init_url, timescale, start_number, duration, timeline }
}

/// The media URLs of `SegmentURL` elements among `ids`, resolved.
pub open spec fn list_media(nodes: Seq<(bool, Seq<char>, Seq<(Seq<char>, Seq<char>)>, Option<usize>, Option<Seq<char>>)>, ids: Seq<int>, base: Seq<char>) -> Seq<Seq<char>>
    decreases ids.len(),
{
    if ids.len() == 0 {
        Seq::empty()
    } else {
        let prev = list_media(nodes, ids.drop_last(), base);
        match attr_in(nodes[ids.last()].2, "media"@) {
            Some(u) => prev.push(resolved_url(base, u)),
            None => prev,
        }
    }
}

/// The initialization URL of a `SegmentList` or `SegmentBase` element: its
/// first `Initialization` child's `sourceURL`, resolved.
pub open spec fn init_of(nodes: Seq<(bool, Seq<char>, Seq<(Seq<char>, Seq<char>)>, Option<usize>, Option<Seq<char>>)>, k: int, base: Seq<char>) -> Option<Seq<char>> {
    match first_named_child(nodes, k, "Initialization"@) {
        Some(i) => match attr_in(nodes[i].2, "sourceURL"@) {
            Some(u) => Some(resolved_url(base, u)),
            None => None,
        },
        None => None,
    }
}

/// The initialization URL of a list or base element (see [`init_of`]).
pub fn initialization_url(nodes: &Vec<XmlNode>, k: usize, base: &str) -> (r: Option<String>)
    ensures
        match r {
            Some(u) => init_of(nodes_view(nodes@), k as int, base@) == Some(u@),
            None => init_of(nodes_view(nodes@), k as int, base@) is None,
        },
{
    match first_child(nodes, k, "Initialization") {
        Some(i) => match node_attr(nodes, i, "sourceURL") {
            Some(u) => Some(resolve_url(base, &chars_of(u.as_str()))),
            None => None,
        },
        None => None,
    }
}

/// The initialization URL and the segment URLs of a `SegmentList` element.
pub fn parse_segment_list(nodes: &Vec<XmlNode>, k: usize, base: &str) -> (r: (Option<String>, Vec<String>))
    ensures
        match r.0 {
            Some(u) => init_of(nodes_view(nodes@), k as int, base@) == Some(u@),
            None => init_of(nodes_view(nodes@), k as int, base@) is None,
        },
        r.1@.map_values(|s: String| s@) == list_media(nodes_view(nodes@),
            named_children(nodes_view(nodes@), k as int, "SegmentURL"@, nodes@.len() as int), base@),
{
    let init = initialization_url(nodes, k, base);
    let ids = children_named(nodes, k, "SegmentURL");
    let ghost idv = ids@.map_values(|j: usize| j as int);
    let ghost nv = nodes_view(nodes@);
    let mut urls: Vec<String> = Vec::new();
    let mut i: usize = 0;
    while i < ids.len()
        invariant
            i <= ids@.len(),
            nv == nodes_view(nodes@),
            idv == ids@.map_values(|j: usize| j as int),
            forall|x: int| 0 <= x < ids@.len() ==> ids@[x] < nodes@.len(),
            urls@.map_values(|s: String| s@) == list_media(nv, idv.take(i as int), base@),
        decreases ids@.len() - i,
    {
        proof {
            assert(idv.take(i + 1).drop_last() =~= idv.take(i as int));
            assert(idv.take(i + 1).last() == ids@[i as int] as int);
        }
        match node_attr(nodes, ids[i], "media") {
            Some(u) => {
                let full = resolve_url(base, &chars_of(u.as_str()));
                let ghost before = urls@.map_values(|s: String| s@);
                let ghost fv = full@;
                urls.push(full);
                proof {
                    assert(urls@.map_values(|s: String| s@) =~= before.push(fv));
                }
            },
            None => {},
        }
        i = i + 1;
    }
    proof {
        assert(idv.take(ids@.len() as int) =~= idv);
    }
    (init, urls)
}

/// Where a track's segments come from.
pub enum SegmentSource {
    /// A segment template, expanded once the presentation length is known.
    Template(TemplatePlan),
    /// Segment URLs known from the manifest itself.
    Listed { init_url: Option<String>, segment_urls: Vec<String> },
}

/// A representation as the manifest describes it.
pub struct TrackOutline {
    pub id: String,
    pub bandwidth: u64,
    pub height: Option<u32>,
    pub width: Option<u32>,
    pub mime_type: String,
    pub codecs: Option<String>,
    pub label: String,
    pub is_drm: bool,
    pub is_video: bool,
    pub is_audio: bool,
    /// The representation's base URL, which its segments resolve against.
    pub base_url: String,
    pub source: SegmentSource,
}

/// What a manifest says before its duration is read: the duration text, whether
/// it is live, and every representation in document order.
pub struct MpdOutline {
    pub duration_text: Option<String>,
    pub is_live: bool,
    pub tracks: Vec<TrackOutline>,
}

/// The view of a track outline.
pub struct TrackSpec {
    pub id: Seq<char>,
    pub bandwidth: u64,
    pub height: Option<u32>,
    pub width: Option<u32>,
    pub mime_type: Seq<char>,
    pub codecs: Option<Seq<char>>,
    pub label: Seq<char>,
    pub is_drm: bool,
    pub is_video: bool,
    pub is_audio: bool,
    pub base_url: Seq<char>,
    /// `Ok(plan)` for a template, `Err((init, segments))` for known URLs.
    pub source: Result<(Seq<char>, Option<Seq<char>>, u64, u64, Option<u64>, Option<Seq<(Option<u64>, u64, i64)>>), (Option<Seq<char>>, Seq<Seq<char>>)>,
}

/// An optional string's view.
pub open spec fn opt_view(o: Option<String>) -> Option<Seq<char>> {
    match o {
        Some(s) => Some(s@),
        None => None,
    }
}

/// The view of a track outline.
#[verifier::opaque]
pub open spec fn track_view(t: TrackOutline) -> TrackSpec {
    TrackSpec {
        id: t.id@,
        bandwidth: t.bandwidth,
        height: t.height,
        width: t.width,
        mime_type: t.mime_type@,
        codecs: opt_view(t.codecs),
        label: t.label@,
        is_drm: t.is_drm,
        is_video: t.is_video,
        is_audio: t.is_audio,
        base_url: t.base_url@,
        source: source_view(t.source),
    }
}

/// The view of a segment source.
pub open spec fn source_view(s: SegmentSource) -> Result<(Seq<char>, Option<Seq<char>>, u64, u64, Option<u64>, Option<Seq<(Option<u64>, u64, i64)>>), (Option<Seq<char>>, Seq<Seq<char>>)> {
    match s {
        SegmentSource::Template(p) => Ok(plan_view(p)),
        SegmentSource::Listed { init_url, segment_urls } => Err((opt_view(init_url),
            segment_urls@.map_values(|s: String| s@))),
    }
}

/// A scheme id names one of the DRM systems Widevine, PlayReady or FairPlay.
pub open spec fn is_drm_scheme(s: Seq<char>) -> bool {
    contains(s, "edef8ba9-79d6-4ace-a3c8-27dcd51d21ed"@) || contains(s, "9a04f079-9840-4286-ab92-e65be0885f95"@)
        || contains(s, "94ce86fb-07ff-4f43-adb8-93d2fa968ca2"@)
}

/// An adaptation set declares DRM: one of its `ContentProtection` children
/// names a DRM scheme.
pub open spec fn has_drm(nodes: Seq<(bool, Seq<char>, Seq<(Seq<char>, Seq<char>)>, Option<usize>, Option<Seq<char>>)>, a: int) -> bool {
    exists|j: int| #[trigger] is_named_child(nodes, a, "ContentProtection"@, j) && names_drm(nodes, j)
}

/// Node `j` has a `schemeIdUri` naming a DRM scheme.
pub open spec fn names_drm(nodes: Seq<(bool, Seq<char>, Seq<(Seq<char>, Seq<char>)>, Option<usize>, Option<Seq<char>>)>, j: int) -> bool {
    match attr_in(nodes[j].2, "schemeIdUri"@) {
        Some(s) => is_drm_scheme(s),
        None => false,
    }
}

/// A track's label: its height as `<h>p`, else its bandwidth in kbit/s as
/// `<k>k`.
pub open spec fn track_label(height: Option<u32>, bandwidth: u64) -> Seq<char> {
    match height {
        Some(h) => dec_string(h as nat).push('p'),
        None => dec_string((bandwidth / 1000) as nat).push('k'),
    }
}

/// An attribute read as a `u32`.
pub open spec fn attr_u32(attrs: Seq<(Seq<char>, Seq<char>)>, name: Seq<char>) -> Option<u32> {
    match attr_in(attrs, name) {
        Some(v) => match parse_unsigned(v, u32::MAX as nat) {
            Some(n) => Some(n as u32),
            None => None,
        },
        None => None,
    }
}

/// The child of `rep` named `name`, else that of the adaptation set `a`.
pub open spec fn own_or_set(nodes: Seq<(bool, Seq<char>, Seq<(Seq<char>, Seq<char>)>, Option<usize>, Option<Seq<char>>)>, rep: int, a: int, name: Seq<char>) -> Option<int> {
    match first_named_child(nodes, rep, name) {
        Some(c) => Some(c),
        None => first_named_child(nodes, a, name),
    }
}

/// The segment source of a representation: a template of its own or of its
/// set; else a segment list of its own or of its set; else a segment base (its
/// initialization and the base URL as the one segment); else the base URL as
/// the one segment.
pub open spec fn source_of(nodes: Seq<(bool, Seq<char>, Seq<(Seq<char>, Seq<char>)>, Option<usize>, Option<Seq<char>>)>, rep: int, a: int, base: Seq<char>, id: Seq<char>, bandwidth: u64)
    -> Result<(Seq<char>, Option<Seq<char>>, u64, u64, Option<u64>, Option<Seq<(Option<u64>, u64, i64)>>), (Option<Seq<char>>, Seq<Seq<char>>)> {
    match own_or_set(nodes, rep, a, "SegmentTemplate"@) {
        Some(t) => Ok(plan_of(nodes, t, base, id, bandwidth)),
        None => match own_or_set(nodes, rep, a, "SegmentList"@) {
            Some(l) => Err((init_of(nodes, l, base), list_media(nodes, named_children(nodes, l, "SegmentURL"@, nodes.len() as int), base))),
            None => match own_or_set(nodes, rep, a, "SegmentBase"@) {
                Some(b) => Err((init_of(nodes, b, base), seq![base])),
                None => Err((None, seq![base])),
            },
        },
    }
}

/// The outline of representation `rep` in adaptation set `a`.
#[verifier::opaque]
pub open spec fn rep_spec(nodes: Seq<(bool, Seq<char>, Seq<(Seq<char>, Seq<char>)>, Option<usize>, Option<Seq<char>>)>, rep: int, a: int, set_base: Seq<char>) -> TrackSpec {
    let ra = nodes[rep].2;
    let aa = nodes[a].2;
    let base = base_url_of(nodes, rep, set_base);
    let id = match attr_in(ra, "id"@) { Some(i) => i, None => "0"@ };
    let bandwidth = match attr_u64(ra, "bandwidth"@) { Some(b) => b, None => 0 };
    let height = attr_u32(ra, "height"@);
    let set_mime = match attr_in(aa, "mimeType"@) { Some(m) => m, None => Seq::empty() };
    let set_type = match attr_in(aa, "contentType"@) { Some(m) => m, None => Seq::empty() };
    let mime = match attr_in(ra, "mimeType"@) { Some(m) => m, None => set_mime };
    TrackSpec {
        id,
        bandwidth,
        height,
        width: attr_u32(ra, "width"@),
        mime_type: mime,
        codecs: attr_in(ra, "codecs"@),
        label: track_label(height, bandwidth),
        is_drm: has_drm(nodes, a),
        is_video: starts_with(mime, "video"@) || set_type == "video"@ || (height is Some && !starts_with(mime, "audio"@)),
        is_audio: starts_with(mime, "audio"@) || set_type == "audio"@,
        base_url: base,
        source: source_of(nodes, rep, a, base, id, bandwidth),
    }
}

/// The outlines of the representations `reps` of adaptation set `a`.
pub open spec fn reps_spec(nodes: Seq<(bool, Seq<char>, Seq<(Seq<char>, Seq<char>)>, Option<usize>, Option<Seq<char>>)>, reps: Seq<int>, a: int, set_base: Seq<char>) -> Seq<TrackSpec> {
    reps.map_values(|r: int| rep_spec(nodes, r, a, set_base))
}

/// The outlines of the adaptation sets `sets` of a period.
pub open spec fn sets_spec(nodes: Seq<(bool, Seq<char>, Seq<(Seq<char>, Seq<char>)>, Option<usize>, Option<Seq<char>>)>, sets: Seq<int>, period_base: Seq<char>) -> Seq<TrackSpec>
    decreases sets.len(),
{
    if sets.len() == 0 {
        Seq::empty()
    } else {
        let a = sets.last();
        sets_spec(nodes, sets.drop_last(), period_base) + reps_spec(nodes,
            named_children(nodes, a, "Representation"@, nodes.len() as int), a, base_url_of(nodes, a, period_base))
    }
}

/// The outlines of the periods `periods`.
pub open spec fn periods_spec(nodes: Seq<(bool, Seq<char>, Seq<(Seq<char>, Seq<char>)>, Option<usize>, Option<Seq<char>>)>, periods: Seq<int>, mpd_base: Seq<char>) -> Seq<TrackSpec>
    decreases periods.len(),
{
    if periods.len() == 0 {
        Seq::empty()
    } else {
        let p = periods.last();
        periods_spec(nodes, periods.drop_last(), mpd_base) + sets_spec(nodes,
            named_children(nodes, p, "AdaptationSet"@, nodes.len() as int), base_url_of(nodes, p, mpd_base))
    }
}

/// Does adaptation set `a` declare DRM?
fn set_has_drm(nodes: &Vec<XmlNode>, a: usize) -> (r: bool)
    ensures
        r == has_drm(nodes_view(nodes@), a as int),
{
    proof {
        reveal_strlit("edef8ba9-79d6-4ace-a3c8-27dcd51d21ed");
    }
    let ghost nv = nodes_view(nodes@);
    let ids = children_named(nodes, a, "ContentProtection");
    let ghost idv = ids@.map_values(|j: usize| j as int);
    let w = chars_of("edef8ba9-79d6-4ace-a3c8-27dcd51d21ed");
    let pr = chars_of("9a04f079-9840-4286-ab92-e65be0885f95");
    let fp = chars_of("94ce86fb-07ff-4f43-adb8-93d2fa968ca2");
    let mut i: usize = 0;
    while i < ids.len()
        invariant
            i <= ids@.len(),
            nv == nodes_view(nodes@),
            idv == ids@.map_values(|j: usize| j as int),
            idv == named_children(nv, a as int, "ContentProtection"@, nodes@.len() as int),
            forall|x: int| 0 <= x < ids@.len() ==> ids@[x] < nodes@.len(),
            w@ == "edef8ba9-79d6-4ace-a3c8-27dcd51d21ed"@,
            pr@ == "9a04f079-9840-4286-ab92-e65be0885f95"@,
            fp@ == "94ce86fb-07ff-4f43-adb8-93d2fa968ca2"@,
            forall|x: int| 0 <= x < i ==> !names_drm(nv, #[trigger] idv[x]),
        decreases ids@.len() - i,
    {
        let j = ids[i];
        match node_attr(nodes, j, "schemeIdUri") {
            Some(sch) => {
                let sv = chars_of(sch.as_str());
                if contains_chars(&sv, &w) || contains_chars(&sv, &pr) || contains_chars(&sv, &fp) {
                    proof {
                        lemma_named_children_members(nv, a as int, "ContentProtection"@, nodes@.len() as int);
                        assert(idv[i as int] == j as int);
                        assert(is_named_child(nv, a as int, "ContentProtection"@, j as int));
                    }
                    return true;
                }
            },
            None => {},
        }
        i = i + 1;
    }
    proof {
        lemma_named_children_members(nv, a as int, "ContentProtection"@, nodes@.len() as int);
        assert forall|j: int| #[trigger] is_named_child(nv, a as int, "ContentProtection"@, j) implies !names_drm(nv, j) by {
            let x = choose|x: int| 0 <= x < idv.len() && idv[x] == j;
        }
    }
    false
}

/// The named children hold exactly the matching nodes below `upto`.
proof fn lemma_named_children_members(nodes: Seq<(bool, Seq<char>, Seq<(Seq<char>, Seq<char>)>, Option<usize>, Option<Seq<char>>)>, p: int, name: Seq<char>, upto: int)
    ensures
        forall|j: int| 0 <= j < upto && is_named_child(nodes, p, name, j) <==> exists|x: int| 0 <= x < named_children(nodes, p, name, upto).len() && #[trigger] named_children(nodes, p, name, upto)[x] == j,
        forall|x: int| 0 <= x < named_children(nodes, p, name, upto).len() ==> is_named_child(nodes, p, name, #[trigger] named_children(nodes, p, name, upto)[x]),
    decreases upto,
{
    if upto > 0 {
        lemma_named_children_members(nodes, p, name, upto - 1);
        let prev = named_children(nodes, p, name, upto - 1);
        let cur = named_children(nodes, p, name, upto);
        assert forall|j: int| 0 <= j < upto && is_named_child(nodes, p, name, j) implies exists|x: int| 0 <= x < cur.len() && #[trigger] cur[x] == j by {
            if j < upto - 1 {
                let x = choose|x: int| 0 <= x < prev.len() && prev[x] == j;
                assert(cur[x] == j);
            } else {
                assert(cur[cur.len() - 1] == j);
            }
        }
        assert forall|j: int| (exists|x: int| 0 <= x < cur.len() && #[trigger] cur[x] == j) implies 0 <= j < upto && is_named_child(nodes, p, name, j) by {
            let x = choose|x: int| 0 <= x < cur.len() && cur[x] == j;
            if x < prev.len() {
                assert(prev[x] == j);
            }
        }
        assert forall|x: int| 0 <= x < cur.len() implies is_named_child(nodes, p, name, #[trigger] cur[x]) by {
            if x < prev.len() {
                assert(cur[x] == prev[x]);
            }
        }
    }
}

/// The child of `rep` named `name`, else that of `a` (see [`own_or_set`]).
fn own_or_set_child(nodes: &Vec<XmlNode>, rep: usize, a: usize, name: &str) -> (r: Option<usize>)
    ensures
        match r {
            Some(c) => own_or_set(nodes_view(nodes@), rep as int, a as int, name@) == Some(c as int) && c < nodes@.len(),
            None => own_or_set(nodes_view(nodes@), rep as int, a as int, name@) is None,
        },
{
    match first_child(nodes, rep, name) {
        Some(c) => Some(c),
        None => first_child(nodes, a, name),
    }
}

fn attr_u32_of(nodes: &Vec<XmlNode>, k: usize, name: &str) -> (r: Option<u32>)
    requires
        k < nodes@.len(),
    ensures
        r == attr_u32(nodes_view(nodes@)[k as int].2, name@),
{
    match node_attr(nodes, k, name) {
        Some(v) => parse_u32(&chars_of(v.as_str())),
        None => None,
    }
}

/// The label of a track (see [`track_label`]).
fn label_for(height: Option<u32>, bandwidth: u64) -> (r: String)
    ensures
        r@ == track_label(height, bandwidth),
{
    match height {
        Some(h) => crate::text::number_with_suffix(h as u64, 'p'),
        None => crate::text::number_with_suffix(bandwidth / 1000, 'k'),
    }
}

/// Does the string start with the literal?
fn begins(v: &str, lit: &str) -> (r: bool)
    ensures
        r == starts_with(v@, lit@),
{
    starts_with_chars(&chars_of(v), &chars_of(lit))
}

/// The segment source of a representation (see [`source_of`]).
fn rep_source(nodes: &Vec<XmlNode>, rep: usize, a: usize, base: &str, id: &str, bandwidth: u64) -> (r: SegmentSource)
    ensures
        source_view(r) == source_of(nodes_view(nodes@), rep as int, a as int, base@, id@, bandwidth),
{
    match own_or_set_child(nodes, rep, a, "SegmentTemplate") {
        Some(t) => SegmentSource::Template(template_plan(nodes, t, base, id, bandwidth)),
        None => match own_or_set_child(nodes, rep, a, "SegmentList") {
            Some(l) => {
                let (init_url, segment_urls) = parse_segment_list(nodes, l, base);
                SegmentSource::Listed { init_url, segment_urls }
            },
            None => {
                let mut only: Vec<String> = Vec::new();
                only.push(string_of(&chars_of(base)));
                proof {
                    assert(only@.map_values(|s: String| s@) =~= seq![base@]);
                }
                match own_or_set_child(nodes, rep, a, "SegmentBase") {
                    Some(b) => SegmentSource::Listed { init_url: initialization_url(nodes, b, base), segment_urls: only },
                    None => SegmentSource::Listed { init_url: None, segment_urls: only },
                }
            },
        },
    }
}

/// The outline of representation `rep` of adaptation set `a`.
fn rep_outline(nodes: &Vec<XmlNode>, rep: usize, a: usize, set_base: &str) -> (r: TrackOutline)
    requires
        rep < nodes@.len(),
        a < nodes@.len(),
    ensures
        track_view(r) == rep_spec(nodes_view(nodes@), rep as int, a as int, set_base@),
{
    proof {
        reveal_strlit("0");
        reveal_strlit("");
        reveal(track_view);
        reveal(rep_spec);
    }
    let base = find_base_url(nodes, rep, set_base);
    let id = match node_attr(nodes, rep, "id") {
        Some(i) => i,
        None => String::from_str("0"),
    };
    let bandwidth = match attr_u64_of(nodes, rep, "bandwidth") {
        Some(b) => b,
        None => 0,
    };
    let height = attr_u32_of(nodes, rep, "height");
    let width = attr_u32_of(nodes, rep, "width");
    let set_mime = match node_attr(nodes, a, "mimeType") {
        Some(m) => m,
        None => String::new(),
    };
    let set_type = match node_attr(nodes, a, "contentType") {
        Some(m) => m,
        None => String::new(),
    };
    let mime = match node_attr(nodes, rep, "mimeType") {
        Some(m) => m,
        None => set_mime,
    };
    let codecs = node_attr(nodes, rep, "codecs");
    let label = label_for(height, bandwidth);
    let is_drm = set_has_drm(nodes, a);
    let is_video = begins(mime.as_str(), "video") || crate::text::str_eq(set_type.as_str(), "video")
        || (height.is_some() && !begins(mime.as_str(), "audio"));
    let is_audio = begins(mime.as_str(), "audio") || crate::text::str_eq(set_type.as_str(), "audio");
    let source = rep_source(nodes, rep, a, base.as_str(), id.as_str(), bandwidth);
    TrackOutline { id, bandwidth, height, width, mime_type: mime, codecs, label, is_drm, is_video, is_audio,
        base_url: base, source }
}

/// Appends the outlines of adaptation set `a`'s representations.
#[verifier::spinoff_prover]
#[verifier::rlimit(40)]
fn push_set(nodes: &Vec<XmlNode>, a: usize, period_base: &str, out: &mut Vec<TrackOutline>)
    requires
        a < nodes@.len(),
    ensures
        final(out)@.map_values(|t: TrackOutline| track_view(t)) == old(out)@.map_values(|t: TrackOutline| track_view(t))
            + reps_spec(nodes_view(nodes@), named_children(nodes_view(nodes@), a as int, "Representation"@, nodes@.len() as int),
                a as int, base_url_of(nodes_view(nodes@), a as int, period_base@)),
{
    let set_base = find_base_url(nodes, a, period_base);
    let reps = children_named(nodes, a, "Representation");
    let ghost nv = nodes_view(nodes@);
    let ghost rv = reps@.map_values(|j: usize| j as int);
    let ghost start = out@.map_values(|t: TrackOutline| track_view(t));
    let mut i: usize = 0;
    while i < reps.len()
        invariant
            i <= reps@.len(),
            a < nodes@.len(),
            nv == nodes_view(nodes@),
            rv == reps@.map_values(|j: usize| j as int),
            forall|x: int| 0 <= x < reps@.len() ==> reps@[x] < nodes@.len(),
            out@.map_values(|t: TrackOutline| track_view(t)) == start + reps_spec(nv, rv.take(i as int), a as int, set_base@),
        decreases reps@.len() - i,
    {
        let t = rep_outline(nodes, reps[i], a, set_base.as_str());
        let ghost before = out@.map_values(|t: TrackOutline| track_view(t));
        let ghost tv = track_view(t);
        out.push(t);
        proof {
            assert(out@.map_values(|t: TrackOutline| track_view(t)) =~= before.push(tv));
            assert(reps_spec(nv, rv.take(i + 1), a as int, set_base@) =~= reps_spec(nv, rv.take(i as int), a as int, set_base@).push(
                rep_spec(nv, rv[i as int], a as int, set_base@)));
        }
        i = i + 1;
    }
    proof {
        assert(rv.take(reps@.len() as int) =~= rv);
    }
}

/// Appends the outlines of period `p`'s adaptation sets.
#[verifier::spinoff_prover]
#[verifier::rlimit(40)]
fn push_period(nodes: &Vec<XmlNode>, p: usize, mpd_base: &str, out: &mut Vec<TrackOutline>)
    requires
        p < nodes@.len(),
    ensures
        final(out)@.map_values(|t: TrackOutline| track_view(t)) == old(out)@.map_values(|t: TrackOutline| track_view(t))
            + sets_spec(nodes_view(nodes@), named_children(nodes_view(nodes@), p as int, "AdaptationSet"@, nodes@.len() as int),
                base_url_of(nodes_view(nodes@), p as int, mpd_base@)),
{
    let period_base = find_base_url(nodes, p, mpd_base);
    let sets = children_named(nodes, p, "AdaptationSet");
    let ghost nv = nodes_view(nodes@);
    let ghost sv = sets@.map_values(|j: usize| j as int);
    let ghost start = out@.map_values(|t: TrackOutline| track_view(t));
    let mut i: usize = 0;
    while i < sets.len()
        invariant
            i <= sets@.len(),
            nv == nodes_view(nodes@),
            sv == sets@.map_values(|j: usize| j as int),
            forall|x: int| 0 <= x < sets@.len() ==> sets@[x] < nodes@.len(),
            out@.map_values(|t: TrackOutline| track_view(t)) == start + sets_spec(nv, sv.take(i as int), period_base@),
        decreases sets@.len() - i,
    {
        proof {
            assert(sv.take(i + 1).drop_last() =~= sv.take(i as int));
            assert(sv.take(i + 1).last() == sets@[i as int] as int);
        }
        push_set(nodes, sets[i], period_base.as_str(), out);
        i = i + 1;
    }
    proof {
        assert(sv.take(sets@.len() as int) =~= sv);
    }
}

/// The root element: the first element whose parent is the document root.
pub open spec fn root_element(nodes: Seq<(bool, Seq<char>, Seq<(Seq<char>, Seq<char>)>, Option<usize>, Option<Seq<char>>)>) -> Option<int> {
    if exists|k: int| 0 <= k < nodes.len() && nodes[k].0 && nodes[k].3 == Some(0usize) {
        Some(choose|k: int| 0 <= k < nodes.len() && nodes[k].0 && nodes[k].3 == Some(0usize)
            && forall|j: int| 0 <= j < k ==> !(nodes[j].0 && nodes[j].3 == Some(0usize)))
    } else {
        None
    }
}

/// The outlines of every period of the manifest element `m`.
#[verifier::spinoff_prover]
#[verifier::rlimit(60)]
fn collect_tracks(nodes: &Vec<XmlNode>, m: usize, mpd_base: &str) -> (r: Vec<TrackOutline>)
    ensures
        r@.map_values(|t: TrackOutline| track_view(t)) == periods_spec(nodes_view(nodes@),
            named_children(nodes_view(nodes@), m as int, "Period"@, nodes@.len() as int), mpd_base@),
{
    let ghost nv = nodes_view(nodes@);
    let periods = children_named(nodes, m, "Period");
    let ghost pv = periods@.map_values(|j: usize| j as int);
    let mut tracks: Vec<TrackOutline> = Vec::new();
    let mut i: usize = 0;
    while i < periods.len()
        invariant
            i <= periods@.len(),
            nv == nodes_view(nodes@),
            pv == periods@.map_values(|j: usize| j as int),
            forall|x: int| 0 <= x < periods@.len() ==> periods@[x] < nodes@.len(),
            tracks@.map_values(|t: TrackOutline| track_view(t)) == periods_spec(nv, pv.take(i as int), mpd_base@),
        decreases periods@.len() - i,
    {
        proof {
            assert(pv.take(i + 1).drop_last() =~= pv.take(i as int));
            assert(pv.take(i + 1).last() == periods@[i as int] as int);
        }
        push_period(nodes, periods[i], mpd_base, &mut tracks);
        i = i + 1;
    }
    proof {
        assert(pv.take(periods@.len() as int) =~= pv);
    }
    tracks
}

/// The root element of a document (see [`root_element`]).
fn find_root(nodes: &Vec<XmlNode>) -> (r: Option<usize>)
    ensures
        match r {
            Some(m) => root_element(nodes_view(nodes@)) == Some(m as int) && m < nodes@.len(),
            None => root_element(nodes_view(nodes@)) is None,
        },
{
    let ghost nv = nodes_view(nodes@);
    let mut k: usize = 0;
    while k < nodes.len()
        invariant
            k <= nodes@.len(),
            nv == nodes_view(nodes@),
            forall|j: int| 0 <= j < k ==> !(nv[j].0 && nv[j].3 == Some(0usize)),
        decreases nodes@.len() - k,
    {
        if nodes[k].is_element && nodes[k].parent == Some(0usize) {
            proof {
                assert(nv[k as int].0 && nv[k as int].3 == Some(0usize));
                let c = choose|c: int| 0 <= c < nv.len() && nv[c].0 && nv[c].3 == Some(0usize)
                    && forall|j: int| 0 <= j < c ==> !(nv[j].0 && nv[j].3 == Some(0usize));
                assert(c == k);
            }
            return Some(k);
        }
        k = k + 1;
    }
    None
}

/// What `parse_mpd` reads from a document: an error unless the root element
/// is `MPD`; else the duration text, whether the type is "dynamic", and the
/// outline of every representation of every adaptation set of every period,
/// in document order, base URLs resolved level by level from `base`.
pub open spec fn mpd_spec(nodes: Seq<(bool, Seq<char>, Seq<(Seq<char>, Seq<char>)>, Option<usize>, Option<Seq<char>>)>, base: Seq<char>)
    -> Result<(Option<Seq<char>>, bool, Seq<TrackSpec>), Seq<char>> {
    match root_element(nodes) {
        Some(m) => if nodes[m].1 == "MPD"@ {
            Ok((
                attr_in(nodes[m].2, "mediaPresentationDuration"@),
                attr_in(nodes[m].2, "type"@) == Some("dynamic"@),
                periods_spec(nodes, named_children(nodes, m, "Period"@, nodes.len() as int), base_url_of(nodes, m, base)),
            ))
        } else {
            Err("Root element is not MPD"@)
        },
        None => Err("Root element is not MPD"@),
    }
}

/// Parses an MPD manifest into its outline: an unreadable document gives
/// "Failed to parse MPD XML: " and the reason, a root other than `MPD` gives
/// "Root element is not MPD" (see [`mpd_spec`]).
#[verifier::spinoff_prover]
#[verifier::rlimit(40)]
pub fn parse_mpd(content: &str, base_url: &str) -> (r: Result<MpdOutline, String>)
    ensures
        match spec_xml_nodes(content@) {
            Err(e) => r matches Err(m) && m@ == "Failed to parse MPD XML: "@ + e,
            Ok(nodes) => match (mpd_spec(nodes, base_url@), r) {
                (Ok((d, live, tracks)), Ok(o)) => opt_view(o.duration_text) == d && o.is_live == live
                    && o.tracks@.map_values(|t: TrackOutline| track_view(t)) == tracks,
                (Err(m1), Err(m2)) => m1 == m2@,
                _ => false,
            },
        },
{
    proof {
        reveal_strlit("dynamic");
    }
    let nodes = match xml_nodes(content) {
        Err(e) => {
            let mut m: Vec<char> = Vec::new();
            crate::text::push_str(&mut m, "Failed to parse MPD XML: ");
            crate::text::push_str(&mut m, e.as_str());
            return Err(string_of(&m));
        },
        Ok(v) => v,
    };
    let ghost nv = nodes_view(nodes@);
    let root = find_root(&nodes);
    let m = match root {
        None => {
            return Err(String::from_str("Root element is not MPD"));
        },
        Some(m) => m,
    };
    if !crate::text::str_eq(nodes[m].name.as_str(), "MPD") {
        return Err(String::from_str("Root element is not MPD"));
    }
    let duration_text = node_attr(&nodes, m, "mediaPresentationDuration");
    let is_live = match node_attr(&nodes, m, "type") {
        Some(t) => crate::text::str_eq(t.as_str(), "dynamic"),
        None => false,
    };
    let mpd_base = find_base_url(&nodes, m, base_url);
    let tracks = collect_tracks(&nodes, m, mpd_base.as_str());
    Ok(MpdOutline { duration_text, is_live, tracks })
}

/// A track of the manifest with its segment URLs.
pub struct DashTrack {
    pub id: String,
    pub bandwidth: u64,
    pub height: Option<u32>,
    pub width: Option<u32>,
    pub mime_type: String,
    pub codecs: Option<String>,
    pub init_url: Option<String>,
    pub segment_urls: Vec<String>,
    pub label: String,
    pub is_drm: bool,
}

/// The view of a track.
pub struct DashTrackSpec {
    pub id: Seq<char>,
    pub bandwidth: u64,
    pub height: Option<u32>,
    pub width: Option<u32>,
    pub mime_type: Seq<char>,
    pub codecs: Option<Seq<char>>,
    pub init_url: Option<Seq<char>>,
    pub segment_urls: Seq<Seq<char>>,
    pub label: Seq<char>,
    pub is_drm: bool,
}

impl View for DashTrack {
    type V = DashTrackSpec;

    open spec fn view(&self) -> DashTrackSpec {
        DashTrackSpec {
            id: self.id@,
            bandwidth: self.bandwidth,
            height: self.height,
            width: self.width,
            mime_type: self.mime_type@,
            codecs: opt_view(self.codecs),
            init_url: opt_view(self.init_url),
            segment_urls: self.segment_urls@.map_values(|s: String| s@),
            label: self.label@,
            is_drm: self.is_drm,
        }
    }
}

/// The track an outline becomes once the presentation length in its
/// timescale units (`total`) is known.
pub open spec fn track_of(t: TrackSpec, total: Option<u64>) -> DashTrackSpec {
    DashTrackSpec {
        id: t.id,
        bandwidth: t.bandwidth,
        height: t.height,
        width: t.width,
        mime_type: t.mime_type,
        codecs: t.codecs,
        init_url: match t.source {
            Ok(plan) => plan.1,
            Err((init, _)) => init,
        },
        segment_urls: match t.source {
            Ok(plan) => template_urls(plan, total, t.base_url, t.id, t.bandwidth),
            Err((_, urls)) => urls,
        },
        label: t.label,
        is_drm: t.is_drm,
    }
}

/// The tracks of one kind (video when `video`, else audio), in manifest order:
/// video tracks are those classed as video, audio tracks those classed as
/// audio and not as video.
pub open spec fn tracks_of_kind(ts: Seq<TrackSpec>, totals: Seq<Option<u64>>, video: bool) -> Seq<DashTrackSpec>
    decreases ts.len(),
{
    if ts.len() == 0 {
        Seq::empty()
    } else {
        let prev = tracks_of_kind(ts.drop_last(), totals, video);
        let t = ts.last();
        let i = ts.len() - 1;
        if (video && t.is_video) || (!video && !t.is_video && t.is_audio) {
            prev.push(track_of(t, totals[i]))
        } else {
            prev
        }
    }
}

/// The timescale of each track whose segments depend on the presentation
/// length (`None` for the others). For each, the application hands back the
/// length in those units (`None` unless the duration is positive).
pub fn timescales(outline: &MpdOutline) -> (r: Vec<Option<u64>>)
    ensures
        r@.len() == outline.tracks@.len(),
        forall|i: int| 0 <= i < r@.len() ==> (#[trigger] r@[i]) == match outline.tracks@[i].source {
            SegmentSource::Template(p) => Some(p.timescale),
            SegmentSource::Listed { .. } => None,
        },
{
    let mut r: Vec<Option<u64>> = Vec::new();
    let mut i: usize = 0;
    while i < outline.tracks.len()
        invariant
            i <= outline.tracks@.len(),
            r@.len() == i,
            forall|j: int| 0 <= j < i ==> (#[trigger] r@[j]) == match outline.tracks@[j].source {
                SegmentSource::Template(p) => Some(p.timescale),
                SegmentSource::Listed { .. } => None,
            },
        decreases outline.tracks@.len() - i,
    {
        let ts = match &outline.tracks[i].source {
            SegmentSource::Template(p) => Some(p.timescale),
            SegmentSource::Listed { .. } => None,
        };
        r.push(ts);
        i = i + 1;
    }
    r
}

/// A copy of an optional string.
fn copy_opt(o: &Option<String>) -> (r: Option<String>)
    ensures
        opt_view(r) == opt_view(*o),
{
    match o {
        Some(s) => Some(string_of(&chars_of(s.as_str()))),
        None => None,
    }
}

/// The finished track of an outline.
fn finish_track(t: &TrackOutline, total: Option<u64>) -> (r: DashTrack)
    ensures
        r@ == track_of(track_view(*t), total),
{
    proof {
        reveal(track_view);
    }
    let (init_url, segment_urls) = match &t.source {
        SegmentSource::Template(p) => (copy_opt(&p.init_url),
            expand_template(p, total, t.base_url.as_str(), t.id.as_str(), t.bandwidth)),
        SegmentSource::Listed { init_url, segment_urls } => {
            let mut v: Vec<String> = Vec::new();
            let mut i: usize = 0;
            while i < segment_urls.len()
                invariant
                    i <= segment_urls@.len(),
                    v@.map_values(|s: String| s@) == segment_urls@.take(i as int).map_values(|s: String| s@),
                decreases segment_urls@.len() - i,
            {
                let ghost before = v@.map_values(|s: String| s@);
                let c = string_of(&chars_of(segment_urls[i].as_str()));
                let ghost cv = c@;
                v.push(c);
                proof {
                    assert(v@.map_values(|s: String| s@) =~= before.push(cv));
                    assert(segment_urls@.take(i + 1).map_values(|s: String| s@) =~= segment_urls@.take(i as int).map_values(
                        |s: String| s@).push(segment_urls@[i as int]@));
                }
                i = i + 1;
            }
            proof {
                assert(segment_urls@.take(segment_urls@.len() as int) =~= segment_urls@);
            }
            (copy_opt(init_url), v)
        },
    };
    DashTrack {
        id: string_of(&chars_of(t.id.as_str())),
        bandwidth: t.bandwidth,
        height: t.height,
        width: t.width,
        mime_type: string_of(&chars_of(t.mime_type.as_str())),
        codecs: copy_opt(&t.codecs),
        init_url,
        segment_urls,
        label: string_of(&chars_of(t.label.as_str())),
        is_drm: t.is_drm,
    }
}

/// The tracks of each kind come in ascending order of bandwidth, each
/// representation of that kind once; so the last is the one of highest
/// bandwidth.
pub proof fn law_tracks_ascending(tracks: Seq<TrackSpec>, totals: Seq<Option<u64>>, video: bool)
    ensures
        ({
            let t = sort_by_key(tracks_of_kind(tracks, totals, video), |t: DashTrackSpec| t.bandwidth);
            &&& forall|i: int, j: int| 0 <= i <= j < t.len() ==> (#[trigger] t[i]).bandwidth <= (#[trigger] t[j]).bandwidth
            &&& t.to_multiset() =~= tracks_of_kind(tracks, totals, video).to_multiset()
        }),
{
    crate::sorting::law_sort_by_key_orders(tracks_of_kind(tracks, totals, video), |t: DashTrackSpec| t.bandwidth);
}

/// The tracks of a manifest, video and audio, each sorted by ascending
/// bandwidth (stably), given the presentation length of each track in its
/// timescale units (see [`timescales`]).
pub fn finish_manifest(outline: &MpdOutline, totals: &Vec<Option<u64>>) -> (r: (Vec<DashTrack>, Vec<DashTrack>))
    requires
        totals@.len() == outline.tracks@.len(),
    ensures
        r.0@.map_values(|t: DashTrack| t@) == sort_by_key(tracks_of_kind(outline.tracks@.map_values(|t: TrackOutline| track_view(t)), totals@, true),
            |t: DashTrackSpec| t.bandwidth),
        r.1@.map_values(|t: DashTrack| t@) == sort_by_key(tracks_of_kind(outline.tracks@.map_values(|t: TrackOutline| track_view(t)), totals@, false),
            |t: DashTrackSpec| t.bandwidth),
{
    let ghost tv = outline.tracks@.map_values(|t: TrackOutline| track_view(t));
    let mut video: Vec<DashTrack> = Vec::new();
    let mut audio: Vec<DashTrack> = Vec::new();
    let mut vkeys: Vec<u64> = Vec::new();
    let mut akeys: Vec<u64> = Vec::new();
    let mut i: usize = 0;
    while i < outline.tracks.len()
        invariant
            i <= outline.tracks@.len(),
            totals@.len() == outline.tracks@.len(),
            tv == outline.tracks@.map_values(|t: TrackOutline| track_view(t)),
            video@.map_values(|t: DashTrack| t@) == tracks_of_kind(tv.take(i as int), totals@, true),
            audio@.map_values(|t: DashTrack| t@) == tracks_of_kind(tv.take(i as int), totals@, false),
            vkeys@.len() == video@.len(),
            akeys@.len() == audio@.len(),
            forall|j: int| 0 <= j < video@.len() ==> vkeys@[j] == (#[trigger] video@[j])@.bandwidth,
            forall|j: int| 0 <= j < audio@.len() ==> akeys@[j] == (#[trigger] audio@[j])@.bandwidth,
        decreases outline.tracks@.len() - i,
    {
        let t = &outline.tracks[i];
        proof {
            reveal(track_view);
            assert(tv.take(i + 1).drop_last() =~= tv.take(i as int));
            assert(tv.take(i + 1).last() == track_view(*t));
        }
        if t.is_video {
            let d = finish_track(t, totals[i]);
            let ghost before = video@.map_values(|t: DashTrack| t@);
            let ghost dv = d@;
            vkeys.push(d.bandwidth);
            video.push(d);
            proof {
                assert(video@.map_values(|t: DashTrack| t@) =~= before.push(dv));
            }
        } else if t.is_audio {
            let d = finish_track(t, totals[i]);
            let ghost before = audio@.map_values(|t: DashTrack| t@);
            let ghost dv = d@;
            akeys.push(d.bandwidth);
            audio.push(d);
            proof {
                assert(audio@.map_values(|t: DashTrack| t@) =~= before.push(dv));
            }
        }
        i = i + 1;
    }
    proof {
        assert(tv.take(outline.tracks@.len() as int) =~= tv);
    }
    let ghost key = |t: DashTrackSpec| t.bandwidth;
    let v = stable_sort_by_key(video, vkeys, Ghost(key));
    let a = stable_sort_by_key(audio, akeys, Ghost(key));
    (v, a)
}

/// Reading an ISO 8601 duration character by character: the state is whether
/// the time part (`T`) began, the digits collected, and the (number text,
/// unit) pairs found. `H`, `M` and `S` close a number in the time part, `D`
/// anywhere; other characters (and `M` before `T`) are collected.
pub open spec fn iso_step(st: (bool, Seq<char>, Seq<(Seq<char>, char)>), c: char) -> (bool, Seq<char>, Seq<(Seq<char>, char)>) {
    if c == 'T' {
        (true, st.1, st.2)
    } else if (st.0 && (c == 'H' || c == 'M' || c == 'S')) || c == 'D' {
        (st.0, Seq::empty(), st.2.push((st.1, c)))
    } else {
        (st.0, st.1.push(c), st.2)
    }
}

/// The state after reading `s`.
pub open spec fn iso_scan(s: Seq<char>) -> (bool, Seq<char>, Seq<(Seq<char>, char)>)
    decreases s.len(),
{
    if s.len() == 0 {
        (false, Seq::empty(), Seq::empty())
    } else {
        iso_step(iso_scan(s.drop_last()), s.last())
    }
}

/// The (number text, unit) pairs of an ISO 8601 duration, after an optional
/// leading `P`; the seconds are the sum of each number times 86400, 3600, 60
/// or 1 for `D`, `H`, `M`, `S`, an unreadable number counting as 0.
pub open spec fn iso_parts(s: Seq<char>) -> Seq<(Seq<char>, char)> {
    let body = if s.len() > 0 && s[0] == 'P' { s.skip(1) } else { s };
    iso_scan(body).2
}

/// Splits an ISO 8601 duration into its numbers and units (see
/// [`iso_parts`]).
pub fn iso_duration_parts(s: &str) -> (r: Vec<(String, char)>)
    ensures
        r@.map_values(|p: (String, char)| (p.0@, p.1)) == iso_parts(s@),
{
    let v = chars_of(s);
    let start: usize = if v.len() > 0 && v[0] == 'P' { 1 } else { 0 };
    let ghost body = if s@.len() > 0 && s@[0] == 'P' { s@.skip(1) } else { s@ };
    proof {
        assert(body =~= v@.skip(start as int));
    }
    let mut in_time = false;
    let mut current: Vec<char> = Vec::new();
    let mut parts: Vec<(String, char)> = Vec::new();
    let mut i = start;
    while i < v.len()
        invariant
            start <= i <= v@.len(),
            body == v@.skip(start as int),
            ({
                let st = iso_scan(body.take(i - start));
                &&& in_time == st.0
                &&& current@ == st.1
                &&& parts@.map_values(|p: (String, char)| (p.0@, p.1)) == st.2
            }),
        decreases v@.len() - i,
    {
        let c = v[i];
        proof {
            assert(body.take(i + 1 - start).drop_last() =~= body.take(i - start));
            assert(body.take(i + 1 - start).last() == c);
        }
        if c == 'T' {
            in_time = true;
        } else if (in_time && (c == 'H' || c == 'M' || c == 'S')) || c == 'D' {
            let ghost before = parts@.map_values(|p: (String, char)| (p.0@, p.1));
            let ghost cv = current@;
            parts.push((string_of(&current), c));
            current = Vec::new();
            proof {
                assert(parts@.map_values(|p: (String, char)| (p.0@, p.1)) =~= before.push((cv, c)));
                assert(current@ =~= Seq::<char>::empty());
            }
        } else {
            current.push(c);
        }
        i = i + 1;
    }
    proof {
        assert(body.take(v@.len() - start) =~= body);
    }
    parts
}

} // verus!
