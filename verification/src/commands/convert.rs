//! Where a conversion writes its output.
use vstd::prelude::*;
use crate::text::{chars_of, chars_eq, push_all, push_str, slice_chars, string_of};
use crate::ffmpeg::ConversionPreset;

verus! {

/// The part of `s` before its last `.`, if it has one (`rsplit_once('.')`).
pub open spec fn before_last_dot(s: Seq<char>) -> Option<Seq<char>> {
    if exists|i: int| 0 <= i < s.len() && s[i] == '.' {
        let k = choose|i: int| 0 <= i < s.len() && s[i] == '.' && forall|j: int| i < j < s.len() ==> s[j] != '.';
        Some(s.take(k))
    } else {
        None
    }
}

/// The output path of converting `input` to extension `ext`: the input's
/// extension replaced (or `ext` appended where it has none), and
/// `_converted` put before the extension where that would overwrite the
/// input.
pub open spec fn output_path_spec(input: Seq<char>, ext: Seq<char>) -> Seq<char> {
    let out = match before_last_dot(input) {
        Some(b) => b + seq!['.'] + ext,
        None => input + seq!['.'] + ext,
    };
    if out == input {
        let base = match before_last_dot(input) { Some(b) => b, None => input };
        base + "_converted."@ + ext
    } else {
        out
    }
}

fn last_dot(v: &[char]) -> (r: Option<usize>)
    ensures
        match r {
            Some(k) => k < v@.len() && v@[k as int] == '.' && forall|j: int| k < j < v@.len() ==> v@[j] != '.',
            None => forall|j: int| 0 <= j < v@.len() ==> v@[j] != '.',
        },
{
    let mut i = v.len();
    while i > 0
        invariant
            i <= v@.len(),
            forall|j: int| i <= j < v@.len() ==> v@[j] != '.',
        decreases i,
    {
        if v[i - 1] == '.' {
            return Some(i - 1);
        }
        i = i - 1;
    }
    None
}

fn base_before_dot(v: &Vec<char>) -> (r: Option<Vec<char>>)
    ensures
        match r {
            Some(b) => before_last_dot(v@) == Some(b@),
            None => before_last_dot(v@) is None,
        },
{
    match last_dot(v) {
        Some(k) => {
            proof {
                let c = choose|i: int| 0 <= i < v@.len() && v@[i] == '.' && forall|j: int| i < j < v@.len() ==> v@[j] != '.';
                assert(c == k);
            }
            let b = slice_chars(v, 0, k);
            proof {
                assert(b@ =~= v@.take(k as int));
            }
            Some(b)
        },
        None => None,
    }
}

/// The output path of converting `input_path` with a preset (see
/// [`output_path_spec`]).
pub fn conversion_output_path(input_path: &str, preset: &ConversionPreset) -> (r: String)
    ensures
        r@ == output_path_spec(input_path@, preset.output_ext_spec()),
{
    let ext = chars_of(preset.output_ext());
    let input = chars_of(input_path);
    let base = base_before_dot(&input);
    let mut out: Vec<char> = match &base {
        Some(b) => b.clone(),
        None => input.clone(),
    };
    let ghost stem = match before_last_dot(input@) { Some(b) => b, None => input@ };
    proof {
        assert(out@ == stem);
    }
    out.push('.');
    push_all(&mut out, &ext);
    proof {
        assert(out@ =~= stem + seq!['.'] + ext@);
    }
    if chars_eq(&out, &input) {
        let mut c: Vec<char> = match &base {
            Some(b) => b.clone(),
            None => input.clone(),
        };
        proof {
            assert(c@ == stem);
        }
        push_str(&mut c, "_converted.");
        push_all(&mut c, &ext);
        proof {
            assert(c@ =~= stem + "_converted."@ + ext@);
        }
        string_of(&c)
    } else {
        string_of(&out)
    }
}

/// A conversion never writes over its input.
pub proof fn law_output_is_not_input(input: Seq<char>, ext: Seq<char>)
    ensures
        output_path_spec(input, ext) != input,
{
    reveal_strlit("_converted.");
    let out = match before_last_dot(input) {
        Some(b) => b + seq!['.'] + ext,
        None => input + seq!['.'] + ext,
    };
    if out == input {
        let base = match before_last_dot(input) { Some(b) => b, None => input };
        assert(before_last_dot(input) is Some) by {
            if before_last_dot(input) is None {
                assert(out.len() == input.len() + 1 + ext.len());
            }
        }
        assert((base + "_converted."@ + ext).len() == base.len() + 11 + ext.len());
        assert(out.len() == base.len() + 1 + ext.len());
    }
}

} // verus!
