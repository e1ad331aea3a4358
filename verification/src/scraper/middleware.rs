//! robots.txt evaluation and request identity for the spider.
use vstd::prelude::*;
use crate::text::{chars_eq, chars_of, push_all, split, split_chars, starts_with, starts_with_chars,
    string_of, trim, trim_chars};
use crate::urls::{spec_url_parts, url_parts};

verus! {

/// The User-Agent sent when the configuration names none.
pub open spec fn default_user_agent_spec() -> Seq<char> {
    "CyberSnatcher/1.0 (Scraper Engine; +https://github.com/shaa123/cybersnatcher)"@
}

/// The User-Agent sent when the configuration names none.
pub fn default_user_agent() -> (r: String)
    ensures
        r@ == default_user_agent_spec(),
{
    String::from_str("CyberSnatcher/1.0 (Scraper Engine; +https://github.com/shaa123/cybersnatcher)")
}

/// ASCII letters lowered, every other character kept.
pub open spec fn ascii_lower(c: char) -> char {
    if 'A' <= c && c <= 'Z' {
        ((c as u32) + 32) as char
    } else {
        c
    }
}

/// Equal up to ASCII case (`str::eq_ignore_ascii_case`).
pub open spec fn eq_ignore_ascii_case(a: Seq<char>, b: Seq<char>) -> bool {
    a.len() == b.len() && forall|i: int| 0 <= i < a.len() ==> ascii_lower(#[trigger] a[i]) == ascii_lower(b[i])
}

fn lower_char(c: char) -> (r: char)
    ensures
        r == ascii_lower(c),
{
    if 'A' <= c && c <= 'Z' {
        let n = (c as u32) + 32;
        proof {
            assert(0x61 <= n <= 0x7a);
        }
        char_from_u32_ascii(n)
    } else {
        c
    }
}

/// The character with code `n`, for a code of an ASCII letter.
fn char_from_u32_ascii(n: u32) -> (r: char)
    requires
        0x61 <= n <= 0x7a,
    ensures
        r == n as char,
{
    let mut c: char = 'a';
    let mut k: u32 = 0x61;
    while k < n
        invariant
            0x61 <= k <= n <= 0x7a,
            c == k as char,
        decreases n - k,
    {
        c = next_letter(c);
        k = k + 1;
    }
    c
}

/// The next lowercase letter.
fn next_letter(c: char) -> (r: char)
    requires
        'a' <= c < 'z',
    ensures
        r as u32 == c as u32 + 1,
{
    let t = ['b', 'c', 'd', 'e', 'f', 'g', 'h', 'i', 'j', 'k', 'l', 'm', 'n', 'o', 'p', 'q', 'r',
        's', 't', 'u', 'v', 'w', 'x', 'y', 'z'];
    let i = (c as u32 - 0x61) as usize;
    t[i]
}

fn eq_ignore_case(a: &[char], b: &[char]) -> (r: bool)
    ensures
        r == eq_ignore_ascii_case(a@, b@),
{
    if a.len() != b.len() {
        return false;
    }
    let mut i: usize = 0;
    while i < a.len()
        invariant
            i <= a@.len(),
            a@.len() == b@.len(),
            forall|j: int| 0 <= j < i ==> ascii_lower(#[trigger] a@[j]) == ascii_lower(b@[j]),
        decreases a@.len() - i,
    {
        if lower_char(a[i]) != lower_char(b[i]) {
            return false;
        }
        i = i + 1;
    }
    true
}

/// What a robots.txt line does while it is read: `(applies, disallowed)`
/// before and after. Comments and blank lines change nothing; a `User-agent:`
/// line decides whether the following rules apply (to `*` and to
/// "cybersnatcher" in any case); where they apply, a matching `Disallow:`
/// prefix blocks the path and a matching `Allow:` prefix unblocks it.
pub open spec fn robots_step(state: (bool, bool), raw_line: Seq<char>, path: Seq<char>) -> (bool, bool) {
    let line = trim(raw_line);
    if line.len() == 0 || line[0] == '#' {
        state
    } else if starts_with(line, "User-agent:"@) || starts_with(line, "user-agent:"@) {
        let agent = trim(line.skip(11));
        (agent == seq!['*'] || eq_ignore_ascii_case(agent, "cybersnatcher"@), state.1)
    } else if state.0 {
        let after_disallow = if starts_with(line, "Disallow:"@) || starts_with(line, "disallow:"@) {
            let d = trim(line.skip(9));
            if d.len() > 0 && starts_with(path, d) { true } else { state.1 }
        } else {
            state.1
        };
        if starts_with(line, "Allow:"@) || starts_with(line, "allow:"@) {
            let a = trim(line.skip(6));
            if a.len() > 0 && starts_with(path, a) { (true, false) } else { (true, after_disallow) }
        } else {
            (true, after_disallow)
        }
    } else {
        state
    }
}

/// The state after reading `lines` in order, from "rules do not apply, not
/// blocked".
pub open spec fn robots_state(lines: Seq<Seq<char>>, path: Seq<char>) -> (bool, bool)
    decreases lines.len(),
{
    if lines.len() == 0 {
        (false, false)
    } else {
        robots_step(robots_state(lines.drop_last(), path), lines.last(), path)
    }
}

/// A line is a `User-agent:` line (after trimming, in either spelling).
pub open spec fn is_agent_line(raw_line: Seq<char>) -> bool {
    starts_with(trim(raw_line), "User-agent:"@) || starts_with(trim(raw_line), "user-agent:"@)
}

/// A line is an `Allow:` line whose (non-empty) prefix `path` begins with.
pub open spec fn unblocks(raw_line: Seq<char>, path: Seq<char>) -> bool {
    let line = trim(raw_line);
    (starts_with(line, "Allow:"@) || starts_with(line, "allow:"@)) && trim(line.skip(6)).len() > 0
        && starts_with(path, trim(line.skip(6)))
}

/// A line is a `Disallow:` line whose (non-empty) prefix `path` begins with.
pub open spec fn blocks(raw_line: Seq<char>, path: Seq<char>) -> bool {
    let line = trim(raw_line);
    (starts_with(line, "Disallow:"@) || starts_with(line, "disallow:"@)) && trim(line.skip(9)).len() > 0
        && starts_with(path, trim(line.skip(9)))
}

/// A `User-agent:` line never changes whether the path is blocked, whatever
/// agent it names.
pub proof fn law_agent_line_keeps_block(state: (bool, bool), line: Seq<char>, path: Seq<char>)
    requires
        is_agent_line(line),
    ensures
        robots_step(state, line, path).1 == state.1,
{
    reveal_strlit("User-agent:");
    reveal_strlit("user-agent:");
    let t = trim(line);
    if starts_with(t, "User-agent:"@) {
        assert(t.take(11)[0] == t[0]);
    } else {
        assert(t.take(11)[0] == t[0]);
    }
}

/// Where the rules apply, a matching `Disallow:` line blocks the path.
pub proof fn law_disallow_blocks(state: (bool, bool), line: Seq<char>, path: Seq<char>)
    requires
        state.0,
        blocks(line, path),
    ensures
        robots_step(state, line, path).1,
{
    reveal_strlit("Disallow:");
    reveal_strlit("disallow:");
    reveal_strlit("Allow:");
    reveal_strlit("allow:");
    reveal_strlit("User-agent:");
    reveal_strlit("user-agent:");
    let t = trim(line);
    assert(t.take(9)[0] == t[0]);
    assert(t.len() > 0);
    if starts_with(t, "Allow:"@) || starts_with(t, "allow:"@) {
        assert(t.take(6)[0] == t[0]);
    }
    if starts_with(t, "User-agent:"@) || starts_with(t, "user-agent:"@) {
        assert(t.take(11)[0] == t[0]);
    }
}

/// A blocked path stays blocked over any line that is not a matching `Allow:`
/// line.
proof fn lemma_block_kept(state: (bool, bool), line: Seq<char>, path: Seq<char>)
    requires
        state.1,
        !unblocks(line, path),
    ensures
        robots_step(state, line, path).1,
{
}

/// Once the path is blocked, it stays blocked until a matching `Allow:` line
/// in a group that applies: lines for other agents, other rules and comments
/// never unblock it.
pub proof fn law_block_survives(lines: Seq<Seq<char>>, more: Seq<Seq<char>>, path: Seq<char>)
    requires
        robots_state(lines, path).1,
        forall|k: int| 0 <= k < more.len() ==> !unblocks(#[trigger] more[k], path),
    ensures
        robots_state(lines + more, path).1,
    decreases more.len(),
{
    if more.len() == 0 {
        assert(lines + more =~= lines);
    } else {
        law_block_survives(lines, more.drop_last(), path);
        assert((lines + more).drop_last() =~= lines + more.drop_last());
        assert((lines + more).last() == more[more.len() - 1]);
        lemma_block_kept(robots_state(lines + more.drop_last(), path), more[more.len() - 1], path);
    }
}

/// Whether robots.txt text lets the spider fetch `path`.
pub open spec fn robots_allow(text: Seq<char>, path: Seq<char>) -> bool {
    !robots_state(split(text, seq!['\n']), path).1
}

/// Does trimmed `line` start with one of the two spellings of a directive?
fn has_directive(line: &[char], upper: &str, lower: &str) -> (r: bool)
    ensures
        r == (starts_with(line@, upper@) || starts_with(line@, lower@)),
{
    let u = chars_of(upper);
    let l = chars_of(lower);
    starts_with_chars(line, &u) || starts_with_chars(line, &l)
}

/// `v` from position `k` on, trimmed.
fn trimmed_rest(v: &[char], k: usize) -> (r: Vec<char>)
    requires
        k <= v@.len(),
    ensures
        r@ == trim(v@.skip(k as int)),
{
    let mut rest: Vec<char> = Vec::new();
    let mut i: usize = k;
    while i < v.len()
        invariant
            k <= i <= v@.len(),
            rest@ == v@.subrange(k as int, i as int),
        decreases v@.len() - i,
    {
        rest.push(v[i]);
        i = i + 1;
        proof {
            assert(rest@ =~= v@.subrange(k as int, i as int));
        }
    }
    proof {
        assert(rest@ =~= v@.skip(k as int));
    }
    trim_chars(&rest)
}

fn robots_line(state: (bool, bool), raw: &[char], path: &[char]) -> (r: (bool, bool))
    ensures
        r == robots_step(state, raw@, path@),
{
    proof {
        reveal_strlit("User-agent:");
        reveal_strlit("user-agent:");
        reveal_strlit("Disallow:");
        reveal_strlit("disallow:");
        reveal_strlit("Allow:");
        reveal_strlit("allow:");
        reveal_strlit("cybersnatcher");
    }
    let line = trim_chars(raw);
    if line.len() == 0 || line[0] == '#' {
        return state;
    }
    if has_directive(&line, "User-agent:", "user-agent:") {
        let agent = trimmed_rest(&line, 11);
        let star = ['*'];
        let name = chars_of("cybersnatcher");
        proof {
            assert(star@ =~= seq!['*']);
        }
        let applies = chars_eq(&agent, &star) || eq_ignore_case(&agent, &name);
        return (applies, state.1);
    }
    if !state.0 {
        return state;
    }
    let mut blocked = state.1;
    if has_directive(&line, "Disallow:", "disallow:") {
        let d = trimmed_rest(&line, 9);
        if d.len() > 0 && starts_with_chars(path, &d) {
            blocked = true;
        }
    }
    if has_directive(&line, "Allow:", "allow:") {
        let a = trimmed_rest(&line, 6);
        if a.len() > 0 && starts_with_chars(path, &a) {
            blocked = false;
        }
    }
    (true, blocked)
}

/// Reads robots.txt text and says whether `path` may be fetched (see
/// [`robots_step`]).
pub fn robots_allows(robots_text: &str, path: &str) -> (r: bool)
    ensures
        r == robots_allow(robots_text@, path@),
{
    let text = chars_of(robots_text);
    let p = chars_of(path);
    let nl = ['\n'];
    proof {
        assert(nl@ =~= seq!['\n']);
    }
    let lines = split_chars(&text, &nl);
    let ghost lv = split(text@, seq!['\n']);
    let mut state: (bool, bool) = (false, false);
    let mut i: usize = 0;
    while i < lines.len()
        invariant
            i <= lines@.len(),
            lines@.len() == lv.len(),
            forall|j: int| 0 <= j < lines@.len() ==> #[trigger] lines@[j]@ == lv[j],
            state == robots_state(lv.take(i as int), p@),
        decreases lines@.len() - i,
    {
        proof {
            assert(lv.take(i + 1).drop_last() =~= lv.take(i as int));
            assert(lv.take(i + 1).last() == lines@[i as int]@);
        }
        state = robots_line(state, &lines[i], &p);
        i = i + 1;
    }
    proof {
        assert(lv.take(lines@.len() as int) =~= lv);
    }
    !state.1
}

/// `scheme://host/robots.txt` for the URL, `None` when it does not parse.
pub open spec fn robots_url_spec(url: Seq<char>) -> Option<Seq<char>> {
    match spec_url_parts(url) {
        Some((scheme, host, _path)) => Some(
            scheme + "://"@ + match host { Some(h) => h, None => Seq::empty() } + "/robots.txt"@,
        ),
        None => None,
    }
}

/// Where the robots.txt for `url` lives, and the path of `url` that it is
/// checked against; `None` when the URL does not parse (the spider then goes
/// ahead).
pub fn robots_location(url: &str) -> (r: Option<(String, String)>)
    ensures
        match r {
            Some((loc, path)) => robots_url_spec(url@) == Some(loc@) && match spec_url_parts(url@) {
                Some(parts) => parts.2 == path@,
                None => false,
            },
            None => spec_url_parts(url@) is None,
        },
{
    match url_parts(url) {
        Some((scheme, host, path)) => {
            let mut v = chars_of(scheme.as_str());
            let sep = chars_of("://");
            push_all(&mut v, &sep);
            match host {
                Some(h) => {
                    let hv = chars_of(h.as_str());
                    push_all(&mut v, &hv);
                },
                None => {},
            }
            let tail = chars_of("/robots.txt");
            push_all(&mut v, &tail);
            Some((string_of(&v), path))
        },
        None => None,
    }
}

} // verus!
