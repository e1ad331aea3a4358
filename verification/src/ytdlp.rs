//! yt-dlp binary names and file-name sanitising.
use vstd::prelude::*;
use crate::platform::Platform;
use crate::text::{chars_of, string_of, trim, trim_chars, trim_end, trim_start, is_ws};

verus! {

/// The bundled yt-dlp binary's file name on a platform.
pub open spec fn ytdlp_binary_name_spec(p: Platform) -> Seq<char> {
    match p {
        Platform::Windows => "yt-dlp-x86_64-pc-windows-msvc.exe"@,
        Platform::MacArm => "yt-dlp-aarch64-apple-darwin"@,
        Platform::MacIntel => "yt-dlp-x86_64-apple-darwin"@,
        Platform::Linux => "yt-dlp-x86_64-unknown-linux-gnu"@,
    }
}

/// The bundled yt-dlp binary's file name on a platform.
pub fn ytdlp_binary_name(p: Platform) -> (r: String)
    ensures
        r@ == ytdlp_binary_name_spec(p),
{
    match p {
        Platform::Windows => String::from_str("yt-dlp-x86_64-pc-windows-msvc.exe"),
        Platform::MacArm => String::from_str("yt-dlp-aarch64-apple-darwin"),
        Platform::MacIntel => String::from_str("yt-dlp-x86_64-apple-darwin"),
        Platform::Linux => String::from_str("yt-dlp-x86_64-unknown-linux-gnu"),
    }
}

/// Control characters (Unicode category Cc, what `char::is_control` tests).
pub open spec fn is_control(c: char) -> bool {
    (c as u32) <= 0x1F || (0x7F <= (c as u32) && (c as u32) <= 0x9F)
}

/// Characters that file systems refuse in names.
pub open spec fn is_reserved(c: char) -> bool {
    c == '<' || c == '>' || c == ':' || c == '"' || c == '/' || c == '\\' || c == '|' || c == '?'
        || c == '*'
}

/// A character as it stands in a sanitised name: reserved and control
/// characters become `_`.
pub open spec fn safe_char(c: char) -> char {
    if is_reserved(c) || is_control(c) { '_' } else { c }
}

/// The sanitised form of a name: characters made safe, then surrounding
/// whitespace trimmed, then at most 200 characters kept.
pub open spec fn sanitized(name: Seq<char>) -> Seq<char> {
    let t = trim(name.map_values(|c: char| safe_char(c)));
    if t.len() <= 200 { t } else { t.take(200) }
}

/// A character that may stand in a sanitised name.
pub open spec fn name_char_ok(c: char) -> bool {
    !is_reserved(c) && !is_control(c)
}

proof fn lemma_trim_start_keeps_ok(s: Seq<char>)
    requires
        forall|i: int| 0 <= i < s.len() ==> name_char_ok(#[trigger] s[i]),
    ensures
        forall|i: int| 0 <= i < trim_start(s).len() ==> name_char_ok(#[trigger] trim_start(s)[i]),
    decreases s.len(),
{
    if s.len() > 0 && is_ws(s[0]) {
        assert forall|i: int| 0 <= i < s.skip(1).len() implies name_char_ok(#[trigger] s.skip(1)[i]) by {
            assert(s.skip(1)[i] == s[i + 1]);
        }
        lemma_trim_start_keeps_ok(s.skip(1));
        assert(trim_start(s) == trim_start(s.skip(1)));
    } else {
        assert(trim_start(s) == s);
    }
}

proof fn lemma_trim_end_keeps_ok(s: Seq<char>)
    requires
        forall|i: int| 0 <= i < s.len() ==> name_char_ok(#[trigger] s[i]),
    ensures
        forall|i: int| 0 <= i < trim_end(s).len() ==> name_char_ok(#[trigger] trim_end(s)[i]),
    decreases s.len(),
{
    if s.len() > 0 && is_ws(s.last()) {
        assert forall|i: int| 0 <= i < s.drop_last().len() implies name_char_ok(#[trigger] s.drop_last()[i]) by {
            assert(s.drop_last()[i] == s[i]);
        }
        lemma_trim_end_keeps_ok(s.drop_last());
        assert(trim_end(s) == trim_end(s.drop_last()));
    } else {
        assert(trim_end(s) == s);
    }
}

/// A sanitised name is at most 200 characters long and holds no reserved and
/// no control character.
pub proof fn law_sanitized_is_safe(name: Seq<char>)
    ensures
        sanitized(name).len() <= 200,
        forall|i: int| 0 <= i < sanitized(name).len() ==> name_char_ok(#[trigger] sanitized(name)[i]),
{
    let m = name.map_values(|c: char| safe_char(c));
    assert forall|i: int| 0 <= i < m.len() implies name_char_ok(#[trigger] m[i]) by {
        assert(m[i] == safe_char(name[i]));
    }
    lemma_trim_start_keeps_ok(m);
    lemma_trim_end_keeps_ok(trim_start(m));
    let t = trim(m);
    if t.len() > 200 {
        assert forall|i: int| 0 <= i < t.take(200).len() implies name_char_ok(#[trigger] t.take(200)[i]) by {
            assert(t.take(200)[i] == t[i]);
        }
    }
}

/// Makes a title usable as a file name (see [`sanitized`]).
pub fn sanitize_filename(name: &str) -> (r: String)
    ensures
        r@ == sanitized(name@),
{
    let v = chars_of(name);
    let mut mapped: Vec<char> = Vec::new();
    let mut i: usize = 0;
    while i < v.len()
        invariant
            i <= v@.len(),
            mapped@ == v@.take(i as int).map_values(|c: char| safe_char(c)),
        decreases v@.len() - i,
    {
        let c = v[i];
        let n = c as u32;
        let safe = if c == '<' || c == '>' || c == ':' || c == '"' || c == '/' || c == '\\' || c == '|'
            || c == '?' || c == '*' || n <= 0x1F || (0x7F <= n && n <= 0x9F) {
            '_'
        } else {
            c
        };
        mapped.push(safe);
        proof {
            assert(v@.take(i + 1).map_values(|c: char| safe_char(c)) =~= v@.take(i as int).map_values(
                |c: char| safe_char(c),
            ).push(safe_char(v@[i as int])));
        }
        i = i + 1;
    }
    proof {
        assert(v@.take(v@.len() as int) =~= v@);
    }
    let t = trim_chars(&mapped);
    if t.len() <= 200 {
        string_of(&t)
    } else {
        let mut out: Vec<char> = Vec::new();
        let mut k: usize = 0;
        while k < 200
            invariant
                k <= 200,
                200 < t@.len(),
                out@ == t@.take(k as int),
            decreases 200 - k,
        {
            out.push(t[k]);
            k = k + 1;
            proof {
                assert(out@ =~= t@.take(k as int));
            }
        }
        string_of(&out)
    }
}

} // verus!
