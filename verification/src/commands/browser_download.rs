//! Downloads of streams the in-app browser detected: always the native HLS or
//! DASH engine.
use vstd::prelude::*;
use crate::text::{chars_of, push_str, string_of, str_eq};

verus! {

/// The text `str::to_uppercase` gives (full Unicode uppercase mapping).
pub uninterp spec fn spec_to_uppercase(s: Seq<char>) -> Seq<char>;

/// Calls `str::to_uppercase`. Claims only that the result is the named value.
#[verifier::external_body]
fn to_uppercase(s: &str) -> (r: String)
    ensures
        r@ == spec_to_uppercase(s@),
{
    s.to_uppercase()
}

/// The engine a detected stream goes to.
#[derive(Debug, Clone, Copy, PartialEq, Eq, Structural)]
pub enum StreamEngine {
    Hls,
    Dash,
}

/// The engine for a stream type: "hls" or "dash"; any other type is refused
/// with "Unknown stream type: " and the type.
pub fn stream_engine(stream_type: &str) -> (r: Result<StreamEngine, String>)
    ensures
        stream_type@ == "hls"@ ==> r == Ok::<StreamEngine, String>(StreamEngine::Hls),
        stream_type@ == "dash"@ ==> r == Ok::<StreamEngine, String>(StreamEngine::Dash),
        stream_type@ != "hls"@ && stream_type@ != "dash"@ ==> (r matches Err(e) && e@ == "Unknown stream type: "@ + stream_type@),
{
    proof {
        reveal_strlit("hls");
        reveal_strlit("dash");
        assert("hls"@.len() == 3);
        assert("dash"@.len() == 4);
    }
    if str_eq(stream_type, "hls") {
        Ok(StreamEngine::Hls)
    } else if str_eq(stream_type, "dash") {
        Ok(StreamEngine::Dash)
    } else {
        let mut m = chars_of("Unknown stream type: ");
        push_str(&mut m, stream_type);
        Err(string_of(&m))
    }
}

/// The line reporting the start of a browser download.
pub fn starting_line(stream_type: &str) -> (r: String)
    ensures
        r@ == "Browser "@ + spec_to_uppercase(stream_type@) + ": Starting native download (no yt-dlp)"@,
{
    let mut m = chars_of("Browser ");
    push_str(&mut m, to_uppercase(stream_type).as_str());
    push_str(&mut m, ": Starting native download (no yt-dlp)");
    string_of(&m)
}

/// The line reporting the end of a browser download: success, or the error.
pub fn finished_line(stream_type: &str, result: &Result<String, String>) -> (r: String)
    ensures
        match result {
            Ok(_) => r@ == "Browser "@ + spec_to_uppercase(stream_type@) + " download complete"@,
            Err(e) => r@ == "Browser download error: "@ + e@,
        },
{
    match result {
        Ok(_) => {
            let mut m = chars_of("Browser ");
            push_str(&mut m, to_uppercase(stream_type).as_str());
            push_str(&mut m, " download complete");
            string_of(&m)
        },
        Err(e) => {
            let mut m = chars_of("Browser download error: ");
            push_str(&mut m, e.as_str());
            string_of(&m)
        },
    }
}

} // verus!
