//! Stream validation: size estimates from sampled segments and the name shown
//! for a page.
use vstd::prelude::*;
use crate::text::{chars_of, replace, replace_chars, split, split_chars, string_of};

verus! {

/// The segments sampled to estimate a stream's size: up to three, spread
/// evenly (`i * (n / count)` for the i-th of `count = min(3, n)`).
pub open spec fn sample_positions(n: nat) -> Seq<int> {
    let count: nat = if n < 3 { n } else { 3 };
    if count == 0 {
        Seq::empty()
    } else {
        Seq::new(count, |i: int| i * (n / count) as int)
    }
}

/// The positions of the segments to sample (see [`sample_positions`]).
pub fn sample_indices(n: usize) -> (r: Vec<usize>)
    ensures
        r@.map_values(|i: usize| i as int) == sample_positions(n as nat),
        forall|i: int| 0 <= i < r@.len() ==> r@[i] < n,
{
    let mut out: Vec<usize> = Vec::new();
    if n == 0 {
        proof {
            assert(out@.map_values(|i: usize| i as int) =~= sample_positions(n as nat));
        }
        return out;
    }
    let count: usize = if n < 3 { n } else { 3 };
    let step = n / count;
    let mut i: usize = 0;
    while i < count
        invariant
            1 <= count <= 3,
            count <= n,
            count == if n < 3 { n } else { 3 },
            step == n / count,
            i <= count,
            out@.len() == i,
            forall|j: int| 0 <= j < i ==> (#[trigger] out@[j]) as int == j * step && out@[j] < n,
        decreases count - i,
    {
        proof {
            assert(i * step < n) by (nonlinear_arith)
                requires i < count, step == n / count, count >= 1, count <= n;
        }
        out.push(i * step);
        i = i + 1;
    }
    proof {
        assert(out@.map_values(|i: usize| i as int) =~= sample_positions(n as nat));
    }
    out
}

/// The estimated size from the sampled sizes (`None` for a sample that
/// failed): none when no sample answered, else the average answered size
/// times the number of segments (with release-build wrapping arithmetic).
pub open spec fn estimate_spec(sizes: Seq<Option<u64>>, n: nat) -> Option<u64>
    decreases sizes.len(),
{
    let ok = answered(sizes);
    if ok.1 == 0 {
        None
    } else {
        Some((((ok.0 / ok.1) as nat * n) % 0x1_0000_0000_0000_0000) as u64)
    }
}

/// The wrapped sum and the number of the answered sizes.
pub open spec fn answered(sizes: Seq<Option<u64>>) -> (u64, u64)
    decreases sizes.len(),
{
    if sizes.len() == 0 {
        (0, 0)
    } else {
        let p = answered(sizes.drop_last());
        match sizes.last() {
            Some(s) => (vstd::wrapping::u64_specs::wrapping_add(p.0, s), vstd::wrapping::u64_specs::wrapping_add(p.1, 1)),
            None => p,
        }
    }
}

/// Extrapolates the size of `n` segments from the sampled sizes.
pub fn estimate_size(sizes: &Vec<Option<u64>>, n: usize) -> (r: Option<u64>)
    ensures
        r == estimate_spec(sizes@, n as nat),
{
    let mut total: u64 = 0;
    let mut ok: u64 = 0;
    let mut i: usize = 0;
    while i < sizes.len()
        invariant
            i <= sizes@.len(),
            (total, ok) == answered(sizes@.take(i as int)),
        decreases sizes@.len() - i,
    {
        proof {
            assert(sizes@.take(i + 1).drop_last() =~= sizes@.take(i as int));
        }
        match sizes[i] {
            Some(s) => {
                total = total.wrapping_add(s);
                ok = ok.wrapping_add(1);
            },
            None => {},
        }
        i = i + 1;
    }
    proof {
        assert(sizes@.take(sizes@.len() as int) =~= sizes@);
    }
    if ok == 0 {
        return None;
    }
    let avg = total / ok;
    Some(avg.wrapping_mul(n as u64))
}

/// The name shown for a validated stream: the page URL without `https://`
/// and `http://`, up to its first `/`.
pub open spec fn page_title(page_url: Seq<char>) -> Seq<char> {
    split(replace(replace(page_url, "https://"@, Seq::empty()), "http://"@, Seq::empty()), seq!['/'])[0]
}

/// The name shown for a validated stream (see [`page_title`]).
pub fn title_from_page_url(page_url: &str) -> (r: String)
    ensures
        r@ == page_title(page_url@),
{
    proof {
        reveal_strlit("https://");
        reveal_strlit("http://");
    }
    let none: [char; 0] = [];
    proof {
        assert(none@ =~= Seq::<char>::empty());
    }
    let a = replace_chars(&chars_of(page_url), &chars_of("https://"), &none);
    let b = replace_chars(&a, &chars_of("http://"), &none);
    let slash = ['/'];
    proof {
        assert(slash@ =~= seq!['/']);
    }
    let parts = split_chars(&b, &slash);
    string_of(&parts[0])
}

/// The size filter: a stream whose estimated size is known and below the
/// minimum is rejected.
pub fn size_acceptable(estimated: Option<u64>, min_file_size: u64) -> (r: bool)
    ensures
        r == match estimated { Some(s) => s >= min_file_size, None => true },
{
    match estimated {
        Some(s) => s >= min_file_size,
        None => true,
    }
}

} // verus!
