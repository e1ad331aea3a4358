//! Direct file downloads: resuming a partial file and reading the answer.
use vstd::prelude::*;
use crate::text::{chars_of, dec_string, push_str, string_of, u64_to_chars, push_all};

verus! {

/// Where a download resumes: after the bytes already on disk, when there are
/// some and fewer than the whole file's known size; else from the start.
pub fn resume_offset(existing: u64, total_size: Option<u64>) -> (r: u64)
    ensures
        r == if existing > 0 && match total_size { Some(t) => existing < t, None => false } { existing } else { 0 },
{
    if existing > 0 {
        match total_size {
            Some(t) => if existing < t { existing } else { 0 },
            None => 0,
        }
    } else {
        0
    }
}

/// The `Range` header asking for the bytes from `start` on.
pub fn range_header(start: u64) -> (r: String)
    ensures
        r@ == "bytes="@ + dec_string(start as nat) + "-"@,
{
    let mut v = chars_of("bytes=");
    push_all(&mut v, &u64_to_chars(start));
    push_str(&mut v, "-");
    string_of(&v)
}

/// How a response is taken: refused unless its status is 200 or 206; a full
/// answer (200) to a range request starts the file over.
pub fn accept_response(status: u16, start_byte: u64) -> (r: Option<u64>)
    ensures
        (status != 200 && status != 206) <==> r is None,
        r matches Some(s) ==> s == if start_byte > 0 && status == 200 { 0 } else { start_byte },
{
    if status != 200 && status != 206 {
        return None;
    }
    if start_byte > 0 && status == 200 {
        Some(0)
    } else {
        Some(start_byte)
    }
}

} // verus!
