//! Character-level string utilities with exact specifications.
//!
//! All text handling of the library goes through these functions, which work on
//! the character sequence (`Seq<char>`) that `str` and `String` are viewed as.
use vstd::prelude::*;

verus! {

/// `String::push` appends one character.
pub assume_specification[ String::push ](s: &mut String, ch: char)
    ensures
        final(s)@ == old(s)@.push(ch),
;

// ---------------------------------------------------------------------------
// Conversions between strings and character vectors
// ---------------------------------------------------------------------------

/// The characters of `s`, in order.
pub fn chars_of(s: &str) -> (v: Vec<char>)
    ensures
        v@ == s@,
{
    let mut v: Vec<char> = Vec::new();
    for c in it: s.chars()
        invariant
            v@ == it.seq().take(it.index() as int),
    {
        v.push(c);
    }
    proof {
        assert(v@ =~= s@);
    }
    v
}

/// A `String` holding exactly the characters `v`.
pub fn string_of(v: &[char]) -> (s: String)
    ensures
        s@ == v@,
{
    let mut s = String::new();
    let mut i: usize = 0;
    while i < v.len()
        invariant
            i <= v@.len(),
            s@ == v@.take(i as int),
        decreases v@.len() - i,
    {
        s.push(v[i]);
        i = i + 1;
        proof {
            assert(s@ =~= v@.take(i as int));
        }
    }
    proof {
        assert(v@.take(v@.len() as int) =~= v@);
    }
    s
}

/// `a` followed by `b`, as a new vector.
pub fn concat_chars(a: &[char], b: &[char]) -> (r: Vec<char>)
    ensures
        r@ == a@ + b@,
{
    let mut r: Vec<char> = Vec::new();
    push_all(&mut r, a);
    push_all(&mut r, b);
    proof {
        assert(r@ =~= a@ + b@);
    }
    r
}

/// Appends every character of `b` to `r`.
pub fn push_all(r: &mut Vec<char>, b: &[char])
    ensures
        final(r)@ == old(r)@ + b@,
{
    let mut i: usize = 0;
    while i < b.len()
        invariant
            i <= b@.len(),
            r@ == old(r)@ + b@.take(i as int),
        decreases b@.len() - i,
    {
        r.push(b[i]);
        i = i + 1;
        proof {
            assert(r@ =~= old(r)@ + b@.take(i as int));
        }
    }
    proof {
        assert(b@.take(b@.len() as int) =~= b@);
    }
}

/// The characters `v[from..to]` as a new vector.
pub fn slice_chars(v: &[char], from: usize, to: usize) -> (r: Vec<char>)
    requires
        from <= to <= v@.len(),
    ensures
        r@ == v@.subrange(from as int, to as int),
{
    let mut r: Vec<char> = Vec::new();
    let mut i = from;
    while i < to
        invariant
            from <= i <= to <= v@.len(),
            r@ == v@.subrange(from as int, i as int),
        decreases to - i,
    {
        r.push(v[i]);
        i = i + 1;
        proof {
            assert(r@ =~= v@.subrange(from as int, i as int));
        }
    }
    r
}

/// Character-wise equality of two character slices.
pub fn chars_eq(a: &[char], b: &[char]) -> (r: bool)
    ensures
        r == (a@ == b@),
{
    if a.len() != b.len() {
        return false;
    }
    let mut i: usize = 0;
    while i < a.len()
        invariant
            a@.len() == b@.len(),
            i <= a@.len(),
            forall|j: int| 0 <= j < i ==> a@[j] == b@[j],
        decreases a@.len() - i,
    {
        if a[i] != b[i] {
            return false;
        }
        i = i + 1;
    }
    proof {
        assert(a@ =~= b@);
    }
    true
}

/// Equality of two strings.
pub fn str_eq(a: &str, b: &str) -> (r: bool)
    ensures
        r == (a@ == b@),
{
    let av = chars_of(a);
    let bv = chars_of(b);
    chars_eq(&av, &bv)
}

// ---------------------------------------------------------------------------
// Searching
// ---------------------------------------------------------------------------

/// `needle` occurs in `hay` starting at index `i`.
pub open spec fn occurs_at(hay: Seq<char>, needle: Seq<char>, i: int) -> bool {
    0 <= i && i + needle.len() <= hay.len() && hay.subrange(i, i + needle.len()) == needle
}

/// `needle` occurs somewhere in `hay`.
pub open spec fn contains(hay: Seq<char>, needle: Seq<char>) -> bool {
    exists|i: int| occurs_at(hay, needle, i)
}

/// `hay` begins with `prefix`.
pub open spec fn starts_with(hay: Seq<char>, prefix: Seq<char>) -> bool {
    prefix.len() <= hay.len() && hay.take(prefix.len() as int) == prefix
}

/// `hay` ends with `suffix`.
pub open spec fn ends_with(hay: Seq<char>, suffix: Seq<char>) -> bool {
    suffix.len() <= hay.len() && hay.skip(hay.len() - suffix.len()) == suffix
}

/// The first index at or after `from` where `needle` occurs in `hay`.
pub open spec fn first_occurrence_from(hay: Seq<char>, needle: Seq<char>, from: int) -> Option<int> {
    if exists|i: int| from <= i && occurs_at(hay, needle, i) {
        Some(choose|i: int| from <= i && occurs_at(hay, needle, i)
            && forall|j: int| from <= j < i ==> !occurs_at(hay, needle, j))
    } else {
        None
    }
}

/// Where there is an occurrence at `k`, there is a first one at or after
/// `from`, and `first_occurrence_from` gives it.
pub proof fn lemma_first_occurrence(hay: Seq<char>, needle: Seq<char>, from: int, k: int)
    requires
        from <= k,
        occurs_at(hay, needle, k),
    ensures
        first_occurrence_from(hay, needle, from) matches Some(p) && from <= p <= k && occurs_at(hay, needle, p)
            && forall|j: int| from <= j < p ==> !occurs_at(hay, needle, j),
    decreases k - from,
{
    if exists|j: int| from <= j < k && occurs_at(hay, needle, j) {
        let j = choose|j: int| from <= j < k && occurs_at(hay, needle, j);
        lemma_first_occurrence(hay, needle, from, j);
    } else {
        assert(from <= k && occurs_at(hay, needle, k) && forall|j: int| from <= j < k ==> !occurs_at(hay, needle, j));
    }
}

/// What `first_occurrence_from` gives: an occurrence at or after `from`, with
/// none before it there; `None` where there is none.
pub proof fn lemma_first_occurrence_from(hay: Seq<char>, needle: Seq<char>, from: int)
    ensures
        match first_occurrence_from(hay, needle, from) {
            Some(p) => from <= p && occurs_at(hay, needle, p)
                && forall|j: int| from <= j < p ==> !occurs_at(hay, needle, j),
            None => forall|j: int| from <= j ==> !occurs_at(hay, needle, j),
        },
{
    if exists|i: int| from <= i && occurs_at(hay, needle, i) {
        let k = choose|i: int| from <= i && occurs_at(hay, needle, i);
        lemma_first_occurrence(hay, needle, from, k);
    }
}

/// The first occurrence of `needle` at or after `from` that starts an item of
/// an attribute list: at the start of `hay`, or right after `,` or `:`.
/// Occurrences elsewhere (inside a longer name or a value) are passed over.
#[verifier::opaque]
pub open spec fn item_start(hay: Seq<char>, needle: Seq<char>, from: nat) -> Option<int>
    decreases hay.len() + 1 - from,
{
    if from > hay.len() {
        None
    } else {
        match first_occurrence_from(hay, needle, from as int) {
            Some(p) => {
                proof {
                    lemma_first_occurrence_from(hay, needle, from as int);
                }
                if p == 0 || hay[p - 1] == ',' || hay[p - 1] == ':' {
                    Some(p)
                } else {
                    item_start(hay, needle, (p + 1) as nat)
                }
            },
            None => None,
        }
    }
}

/// An item start is an occurrence.
pub proof fn lemma_item_start_occurs(hay: Seq<char>, needle: Seq<char>, from: nat)
    ensures
        item_start(hay, needle, from) matches Some(p) ==> from <= p && occurs_at(hay, needle, p),
    decreases hay.len() + 1 - from,
{
    reveal(item_start);
    if from <= hay.len() {
        lemma_first_occurrence_from(hay, needle, from as int);
        match first_occurrence_from(hay, needle, from as int) {
            Some(p) => {
                if !(p == 0 || hay[p - 1] == ',' || hay[p - 1] == ':') {
                    lemma_item_start_occurs(hay, needle, (p + 1) as nat);
                }
            },
            None => {},
        }
    }
}

/// `needle` occurs at `i` as the start of an item: at the start of `hay` or
/// right after `,` or `:`.
#[verifier::opaque]
pub open spec fn starts_item(hay: Seq<char>, needle: Seq<char>, i: int) -> bool {
    occurs_at(hay, needle, i) && (i == 0 || hay[i - 1] == ',' || hay[i - 1] == ':')
}

/// One step of [`item_start`].
proof fn lemma_item_start_step(hay: Seq<char>, needle: Seq<char>, from: nat)
    ensures
        item_start(hay, needle, from) == if from > hay.len() {
            None
        } else {
            match first_occurrence_from(hay, needle, from as int) {
                Some(p) => if p == 0 || hay[p - 1] == ',' || hay[p - 1] == ':' {
                    Some(p)
                } else {
                    item_start(hay, needle, (p + 1) as nat)
                },
                None => None,
            }
        },
{
    reveal(item_start);
}

/// An attribute name matches only as a whole item name: the occurrence taken
/// starts an item and is the first one (from `from` on) that does; where
/// none is taken, none starts an item.
pub proof fn law_item_start_is_first_item(hay: Seq<char>, needle: Seq<char>, from: nat)
    ensures
        match item_start(hay, needle, from) {
            Some(p) => starts_item(hay, needle, p) && from <= p
                && forall|j: int| from <= j < p ==> !#[trigger] starts_item(hay, needle, j),
            None => forall|j: int| from <= j ==> !#[trigger] starts_item(hay, needle, j),
        },
    decreases hay.len() + 1 - from,
{
    lemma_item_start_step(hay, needle, from);
    if from > hay.len() {
        assert forall|j: int| from <= j implies !#[trigger] starts_item(hay, needle, j) by {
            reveal(starts_item);
        }
    } else {
        lemma_first_occurrence_from(hay, needle, from as int);
        match first_occurrence_from(hay, needle, from as int) {
            Some(p) => {
                assert forall|j: int| from <= j < p implies !#[trigger] starts_item(hay, needle, j) by {
                    reveal(starts_item);
                }
                if !(p == 0 || hay[p - 1] == ',' || hay[p - 1] == ':') {
                    law_item_start_is_first_item(hay, needle, (p + 1) as nat);
                    assert(!starts_item(hay, needle, p)) by {
                        reveal(starts_item);
                    }
                } else {
                    assert(starts_item(hay, needle, p)) by {
                        reveal(starts_item);
                    }
                }
            },
            None => {
                assert forall|j: int| from <= j implies !#[trigger] starts_item(hay, needle, j) by {
                    reveal(starts_item);
                }
            },
        }
    }
}

/// Finds the first item start of `needle` (see [`item_start`]).
pub fn find_item_start(hay: &[char], needle: &[char]) -> (r: Option<usize>)
    ensures
        match r {
            Some(p) => item_start(hay@, needle@, 0) == Some(p as int),
            None => item_start(hay@, needle@, 0) is None,
        },
{
    proof {
        reveal(item_start);
    }
    let mut from: usize = 0;
    while from <= hay.len()
        invariant
            item_start(hay@, needle@, from as nat) == item_start(hay@, needle@, 0),
            from <= hay@.len() + 1,
        decreases hay@.len() + 1 - from,
    {
        match find_from(hay, needle, from) {
            Some(p) => {
                let ghost h = hay@;
                let ghost n = needle@;
                proof {
                    reveal(item_start);
                    lemma_first_occurrence_from(h, n, from as int);
                    assert(first_occurrence_from(h, n, from as int) == Some(p as int));
                    assert(item_start(h, n, from as nat) == if p == 0 || h[p - 1] == ',' || h[p - 1] == ':' {
                        Some(p as int)
                    } else {
                        item_start(h, n, (p + 1) as nat)
                    });
                }
                if p == 0 || hay[p - 1] == ',' || hay[p - 1] == ':' {
                    return Some(p);
                }
                if p >= hay.len() {
                    proof {
                        reveal(item_start);
                        assert(item_start(h, n, (p + 1) as nat) is None);
                    }
                    return None;
                }
                from = p + 1;
            },
            None => {
                proof {
                    reveal(item_start);
                    assert(item_start(hay@, needle@, from as nat) is None);
                }
                return None;
            },
        }
    }
    None
}

/// Does `needle` occur in `hay` at index `i`?
pub fn matches_at(hay: &[char], needle: &[char], i: usize) -> (r: bool)
    ensures
        r == occurs_at(hay@, needle@, i as int),
{
    if i > hay.len() || needle.len() > hay.len() - i {
        return false;
    }
    let mut k: usize = 0;
    while k < needle.len()
        invariant
            i + needle@.len() <= hay@.len(),
            hay@.len() == hay.len(),
            k <= needle@.len(),
            forall|j: int| 0 <= j < k ==> hay@[i + j] == needle@[j],
        decreases needle@.len() - k,
    {
        if hay[i + k] != needle[k] {
            proof {
                assert(hay@.subrange(i as int, i + needle@.len())[k as int] != needle@[k as int]);
            }
            return false;
        }
        k = k + 1;
    }
    proof {
        assert(hay@.subrange(i as int, i + needle@.len()) =~= needle@);
    }
    true
}

/// The first index at or after `from` where `needle` occurs in `hay`.
pub fn find_from(hay: &[char], needle: &[char], from: usize) -> (r: Option<usize>)
    ensures
        match r {
            Some(i) => from <= i && occurs_at(hay@, needle@, i as int)
                && forall|j: int| from <= j < i ==> !occurs_at(hay@, needle@, j),
            None => forall|j: int| from <= j ==> !occurs_at(hay@, needle@, j),
        },
        r matches Some(i) ==> first_occurrence_from(hay@, needle@, from as int) == Some(i as int),
        r is None ==> first_occurrence_from(hay@, needle@, from as int) is None,
{
    if from > hay.len() {
        return None;
    }
    let mut i = from;
    loop
        invariant
            from <= i <= hay@.len(),
            forall|j: int| from <= j < i ==> !occurs_at(hay@, needle@, j),
        decreases hay@.len() - i,
    {
        if matches_at(hay, needle, i) {
            proof {
                let w = choose|k: int| from <= k && occurs_at(hay@, needle@, k)
                    && forall|j: int| from <= j < k ==> !occurs_at(hay@, needle@, j);
                assert(from <= i && occurs_at(hay@, needle@, i as int)
                    && forall|j: int| from <= j < i ==> !occurs_at(hay@, needle@, j));
                if w < i {
                } else if w > i {
                }
            }
            return Some(i);
        }
        if i >= hay.len() {
            return None;
        }
        i = i + 1;
    }
}

/// Does `needle` occur in `hay`?
pub fn contains_chars(hay: &[char], needle: &[char]) -> (r: bool)
    ensures
        r == contains(hay@, needle@),
{
    let f = find_from(hay, needle, 0);
    match f {
        Some(i) => {
            assert(occurs_at(hay@, needle@, i as int));
            true
        },
        None => {
            assert forall|j: int| !occurs_at(hay@, needle@, j) by {
                if j < 0 {
                }
            }
            false
        },
    }
}

/// Does `hay` begin with `prefix`?
pub fn starts_with_chars(hay: &[char], prefix: &[char]) -> (r: bool)
    ensures
        r == starts_with(hay@, prefix@),
{
    let r = matches_at(hay, prefix, 0);
    proof {
        if prefix@.len() <= hay@.len() {
            assert(hay@.subrange(0, prefix@.len() as int) =~= hay@.take(prefix@.len() as int));
        }
    }
    r
}

/// Does `hay` end with `suffix`?
pub fn ends_with_chars(hay: &[char], suffix: &[char]) -> (r: bool)
    ensures
        r == ends_with(hay@, suffix@),
{
    if suffix.len() > hay.len() {
        return false;
    }
    let r = matches_at(hay, suffix, hay.len() - suffix.len());
    proof {
        assert(hay@.subrange(hay@.len() - suffix@.len(), hay@.len() as int) =~= hay@.skip(
            hay@.len() - suffix@.len(),
        ));
    }
    r
}


// ---------------------------------------------------------------------------
// Whitespace and trimming
// ---------------------------------------------------------------------------

/// Unicode `White_Space` characters, which is what `char::is_whitespace`,
/// `str::trim` and `str::split_whitespace` treat as whitespace.
pub open spec fn is_ws(c: char) -> bool {
    let n = c as u32;
    (0x09 <= n && n <= 0x0D) || n == 0x20 || n == 0x85 || n == 0xA0 || n == 0x1680
        || (0x2000 <= n && n <= 0x200A) || n == 0x2028 || n == 0x2029 || n == 0x202F
        || n == 0x205F || n == 0x3000
}

/// Executable test for [`is_ws`].
pub fn is_ws_char(c: char) -> (r: bool)
    ensures
        r == is_ws(c),
{
    let n = c as u32;
    (0x09 <= n && n <= 0x0D) || n == 0x20 || n == 0x85 || n == 0xA0 || n == 0x1680
        || (0x2000 <= n && n <= 0x200A) || n == 0x2028 || n == 0x2029 || n == 0x202F
        || n == 0x205F || n == 0x3000
}

/// `s` without its leading whitespace.
pub open spec fn trim_start(s: Seq<char>) -> Seq<char>
    decreases s.len(),
{
    if s.len() > 0 && is_ws(s[0]) {
        trim_start(s.skip(1))
    } else {
        s
    }
}

/// `s` without its trailing whitespace.
pub open spec fn trim_end(s: Seq<char>) -> Seq<char>
    decreases s.len(),
{
    if s.len() > 0 && is_ws(s.last()) {
        trim_end(s.drop_last())
    } else {
        s
    }
}

/// `s` without leading and trailing whitespace (`str::trim`).
pub open spec fn trim(s: Seq<char>) -> Seq<char> {
    trim_end(trim_start(s))
}

/// Every character of `s` is whitespace.
pub open spec fn all_ws(s: Seq<char>) -> bool {
    forall|i: int| 0 <= i < s.len() ==> is_ws(#[trigger] s[i])
}

proof fn lemma_trim_start_index(s: Seq<char>, k: int)
    requires
        0 <= k <= s.len(),
        forall|j: int| 0 <= j < k ==> is_ws(#[trigger] s[j]),
        k == s.len() || !is_ws(s[k]),
    ensures
        trim_start(s) == s.skip(k),
    decreases k,
{
    if k == 0 {
        assert(s.skip(0) =~= s);
    } else {
        assert forall|j: int| 0 <= j < k - 1 implies is_ws(#[trigger] s.skip(1)[j]) by {
            assert(s.skip(1)[j] == s[j + 1]);
        }
        lemma_trim_start_index(s.skip(1), k - 1);
        assert(s.skip(1).skip(k - 1) =~= s.skip(k));
    }
}

proof fn lemma_trim_end_index(s: Seq<char>, k: int)
    requires
        0 <= k <= s.len(),
        forall|j: int| k <= j < s.len() ==> is_ws(#[trigger] s[j]),
        k == 0 || !is_ws(s[k - 1]),
    ensures
        trim_end(s) == s.take(k),
    decreases s.len() - k,
{
    if k == s.len() {
        assert(s.take(k) =~= s);
    } else {
        lemma_trim_end_index(s.drop_last(), k);
        assert(s.drop_last().take(k) =~= s.take(k));
    }
}

/// `v` with leading and trailing whitespace removed (`str::trim`).
pub fn trim_chars(v: &[char]) -> (r: Vec<char>)
    ensures
        r@ == trim(v@),
{
    let mut a: usize = 0;
    while a < v.len() && is_ws_char(v[a])
        invariant
            a <= v@.len(),
            forall|j: int| 0 <= j < a ==> is_ws(#[trigger] v@[j]),
        decreases v@.len() - a,
    {
        a = a + 1;
    }
    proof {
        lemma_trim_start_index(v@, a as int);
    }
    let mut b: usize = v.len();
    while b > a && is_ws_char(v[b - 1])
        invariant
            a <= b <= v@.len(),
            forall|j: int| b <= j < v@.len() ==> is_ws(#[trigger] v@[j]),
        decreases b,
    {
        b = b - 1;
    }
    proof {
        let t = v@.skip(a as int);
        assert forall|j: int| b - a <= j < t.len() implies is_ws(#[trigger] t[j]) by {
            assert(t[j] == v@[j + a]);
        }
        lemma_trim_end_index(t, b - a);
        assert(t.take(b - a) =~= v@.subrange(a as int, b as int));
    }
    slice_chars(v, a, b)
}

/// `s` with leading and trailing whitespace removed, as characters.
pub fn trim_str(s: &str) -> (r: Vec<char>)
    ensures
        r@ == trim(s@),
{
    let v = chars_of(s);
    trim_chars(&v)
}

/// Does `v` consist of whitespace only (so that it trims to nothing)?
pub fn is_blank(v: &[char]) -> (r: bool)
    ensures
        r == all_ws(v@),
        r == (trim(v@).len() == 0),
{
    let t = trim_chars(v);
    proof {
        lemma_trim_empty_iff_all_ws(v@);
    }
    t.len() == 0
}

/// A sequence trims to nothing exactly when it is all whitespace.
pub proof fn lemma_trim_empty_iff_all_ws(s: Seq<char>)
    ensures
        (trim(s).len() == 0) == all_ws(s),
    decreases s.len(),
{
    if s.len() > 0 && is_ws(s[0]) {
        lemma_trim_empty_iff_all_ws(s.skip(1));
        assert(trim(s) == trim(s.skip(1)));
        if all_ws(s.skip(1)) {
            assert forall|i: int| 0 <= i < s.len() implies is_ws(#[trigger] s[i]) by {
                if i > 0 {
                    assert(s[i] == s.skip(1)[i - 1]);
                }
            }
        } else {
            let w = choose|i: int| 0 <= i < s.skip(1).len() && !is_ws(#[trigger] s.skip(1)[i]);
            assert(s[w + 1] == s.skip(1)[w]);
        }
    } else if s.len() > 0 {
        assert(trim_start(s) == s);
        lemma_trim_end_keeps_first(s);
    } else {
        assert(trim_start(s) == s);
        assert(trim_end(s) == s);
    }
}

proof fn lemma_trim_end_keeps_first(s: Seq<char>)
    requires
        s.len() > 0,
        !is_ws(s[0]),
    ensures
        trim_end(s).len() > 0,
    decreases s.len(),
{
    if is_ws(s.last()) {
        lemma_trim_end_keeps_first(s.drop_last());
    }
}


// ---------------------------------------------------------------------------
// Splitting and replacing
// ---------------------------------------------------------------------------

/// Pieces of `s` split at non-overlapping occurrences of `pat`, scanning left
/// to right, where `cur` is the piece collected so far.
pub open spec fn split_acc(s: Seq<char>, pat: Seq<char>, cur: Seq<char>) -> Seq<Seq<char>>
    decreases s.len(),
{
    if s.len() == 0 {
        seq![cur]
    } else if pat.len() > 0 && starts_with(s, pat) {
        seq![cur] + split_acc(s.skip(pat.len() as int), pat, Seq::empty())
    } else {
        split_acc(s.skip(1), pat, cur.push(s[0]))
    }
}

/// `str::split` with a non-empty pattern: the pieces between occurrences.
pub open spec fn split(s: Seq<char>, pat: Seq<char>) -> Seq<Seq<char>> {
    split_acc(s, pat, Seq::empty())
}

/// A split always yields at least one piece.
pub proof fn lemma_split_acc_nonempty(s: Seq<char>, pat: Seq<char>, cur: Seq<char>)
    ensures
        split_acc(s, pat, cur).len() >= 1,
    decreases s.len(),
{
    if s.len() == 0 {
    } else if pat.len() > 0 && starts_with(s, pat) {
        lemma_split_acc_nonempty(s.skip(pat.len() as int), pat, Seq::empty());
    } else {
        lemma_split_acc_nonempty(s.skip(1), pat, cur.push(s[0]));
    }
}

/// Splits `v` at every non-overlapping occurrence of the non-empty `pat`.
pub fn split_chars(v: &[char], pat: &[char]) -> (r: Vec<Vec<char>>)
    requires
        pat@.len() > 0,
    ensures
        r@.len() == split(v@, pat@).len(),
        forall|i: int| 0 <= i < r@.len() ==> #[trigger] r@[i]@ == split(v@, pat@)[i],
        r@.len() >= 1,
{
    let mut pieces: Vec<Vec<char>> = Vec::new();
    let mut cur: Vec<char> = Vec::new();
    let mut i: usize = 0;
    let ghost total = split(v@, pat@);
    proof {
        assert(v@.skip(0) =~= v@);
    }
    while i < v.len()
        invariant
            pat@.len() > 0,
            i <= v@.len(),
            total == split(v@, pat@),
            total =~= pieces@.map_values(|p: Vec<char>| p@) + split_acc(v@.skip(i as int), pat@, cur@),
        decreases v@.len() - i,
    {
        let ghost rest = v@.skip(i as int);
        if matches_at(v, pat, i) {
            proof {
                assert(rest.take(pat@.len() as int) =~= v@.subrange(i as int, i + pat@.len()));
                assert(starts_with(rest, pat@));
                assert(rest.skip(pat@.len() as int) =~= v@.skip(i + pat@.len()));
            }
            let done = cur;
            pieces.push(done);
            cur = Vec::new();
            i = i + pat.len();
            proof {
                assert(total =~= pieces@.map_values(|p: Vec<char>| p@) + split_acc(v@.skip(i as int), pat@, cur@));
            }
        } else {
            proof {
                if starts_with(rest, pat@) {
                    assert(rest.take(pat@.len() as int) =~= v@.subrange(i as int, i + pat@.len()));
                }
                assert(rest.skip(1) =~= v@.skip(i + 1));
            }
            cur.push(v[i]);
            i = i + 1;
        }
    }
    proof {
        assert(v@.skip(i as int) =~= Seq::<char>::empty());
    }
    pieces.push(cur);
    proof {
        assert(total =~= pieces@.map_values(|p: Vec<char>| p@));
    }
    pieces
}

/// `s` with every non-overlapping occurrence of `pat` (scanning left to right)
/// replaced by `rep` (`str::replace` with a non-empty pattern).
pub open spec fn replace(s: Seq<char>, pat: Seq<char>, rep: Seq<char>) -> Seq<char>
    decreases s.len(),
{
    if s.len() == 0 {
        s
    } else if pat.len() > 0 && starts_with(s, pat) {
        rep + replace(s.skip(pat.len() as int), pat, rep)
    } else {
        seq![s[0]] + replace(s.skip(1), pat, rep)
    }
}

/// Replaces every non-overlapping occurrence of the non-empty `pat` by `rep`.
pub fn replace_chars(v: &[char], pat: &[char], rep: &[char]) -> (r: Vec<char>)
    requires
        pat@.len() > 0,
    ensures
        r@ == replace(v@, pat@, rep@),
{
    let mut out: Vec<char> = Vec::new();
    let mut i: usize = 0;
    proof {
        assert(v@.skip(0) =~= v@);
    }
    while i < v.len()
        invariant
            pat@.len() > 0,
            i <= v@.len(),
            replace(v@, pat@, rep@) =~= out@ + replace(v@.skip(i as int), pat@, rep@),
        decreases v@.len() - i,
    {
        let ghost rest = v@.skip(i as int);
        if matches_at(v, pat, i) {
            proof {
                assert(rest.take(pat@.len() as int) =~= v@.subrange(i as int, i + pat@.len()));
                assert(rest.skip(pat@.len() as int) =~= v@.skip(i + pat@.len()));
            }
            push_all(&mut out, rep);
            i = i + pat.len();
        } else {
            proof {
                if starts_with(rest, pat@) {
                    assert(rest.take(pat@.len() as int) =~= v@.subrange(i as int, i + pat@.len()));
                }
                assert(rest.skip(1) =~= v@.skip(i + 1));
            }
            out.push(v[i]);
            i = i + 1;
        }
    }
    proof {
        assert(v@.skip(i as int) =~= Seq::<char>::empty());
    }
    out
}

/// Replaces every occurrence of the non-empty `pat` in `s` by `rep`.
pub fn replace_str(s: &str, pat: &str, rep: &str) -> (r: String)
    requires
        pat@.len() > 0,
    ensures
        r@ == replace(s@, pat@, rep@),
{
    let v = chars_of(s);
    let p = chars_of(pat);
    let q = chars_of(rep);
    let out = replace_chars(&v, &p, &q);
    string_of(&out)
}

// ---------------------------------------------------------------------------
// Decimal numbers
// ---------------------------------------------------------------------------

/// An ASCII decimal digit.
pub open spec fn is_digit(c: char) -> bool {
    '0' <= c && c <= '9'
}

/// Every character of `s` is an ASCII digit.
pub open spec fn all_digits(s: Seq<char>) -> bool {
    forall|i: int| 0 <= i < s.len() ==> is_digit(#[trigger] s[i])
}

/// The value of an ASCII digit.
pub open spec fn digit_value(c: char) -> nat {
    (c as u32 - '0' as u32) as nat
}

/// The value of a string of decimal digits.
pub open spec fn dec_value(s: Seq<char>) -> nat
    decreases s.len(),
{
    if s.len() == 0 {
        0
    } else {
        dec_value(s.drop_last()) * 10 + digit_value(s.last())
    }
}

/// The digits part of an unsigned number: an optional leading `+` is dropped.
pub open spec fn unsigned_digits(s: Seq<char>) -> Seq<char> {
    if s.len() > 0 && s[0] == '+' {
        s.skip(1)
    } else {
        s
    }
}

/// Rust's `FromStr` for an unsigned integer type whose largest value is `max`:
/// an optional `+` and at least one ASCII digit, with a value not above `max`.
pub open spec fn parse_unsigned(s: Seq<char>, max: nat) -> Option<nat> {
    let d = unsigned_digits(s);
    if d.len() > 0 && all_digits(d) && dec_value(d) <= max {
        Some(dec_value(d))
    } else {
        None
    }
}

/// Parses `s` as a `u64` (`str::parse::<u64>`).
pub fn parse_u64(s: &[char]) -> (r: Option<u64>)
    ensures
        match parse_unsigned(s@, u64::MAX as nat) {
            Some(n) => r == Some(n as u64),
            None => r is None,
        },
{
    let start: usize = if s.len() > 0 && s[0] == '+' { 1 } else { 0 };
    let ghost d = unsigned_digits(s@);
    proof {
        assert(d =~= s@.skip(start as int));
    }
    if start >= s.len() {
        return None;
    }
    let mut i = start;
    let mut val: u64 = 0;
    let mut over = false;
    while i < s.len()
        invariant
            start <= i <= s@.len(),
            d == unsigned_digits(s@),
            d =~= s@.skip(start as int),
            forall|j: int| start <= j < i ==> is_digit(#[trigger] s@[j]),
            over ==> dec_value(s@.subrange(start as int, i as int)) > u64::MAX,
            !over ==> val == dec_value(s@.subrange(start as int, i as int)),
        decreases s@.len() - i,
    {
        let c = s[i];
        if !('0' <= c && c <= '9') {
            proof {
                assert(d[i - start] == c);
                assert(!is_digit(d[i - start]));
                assert(!all_digits(d));
            }
            return None;
        }
        let dv = (c as u32 - '0' as u32) as u64;
        proof {
            assert(s@.subrange(start as int, i + 1).drop_last() =~= s@.subrange(start as int, i as int));
        }
        if !over {
            if val > (u64::MAX - dv) / 10 {
                over = true;
            } else {
                val = val * 10 + dv;
            }
        }
        i = i + 1;
    }
    proof {
        assert(s@.subrange(start as int, s@.len() as int) =~= d);
        assert(all_digits(d)) by {
            assert forall|j: int| 0 <= j < d.len() implies is_digit(#[trigger] d[j]) by {
                assert(d[j] == s@[j + start]);
            }
        }
    }
    if over {
        None
    } else {
        Some(val)
    }
}

/// Parses `s` as a `u32` (`str::parse::<u32>`).
pub fn parse_u32(s: &[char]) -> (r: Option<u32>)
    ensures
        match parse_unsigned(s@, u32::MAX as nat) {
            Some(n) => r == Some(n as u32),
            None => r is None,
        },
{
    match parse_u64(s) {
        Some(n) => {
            if n <= u32::MAX as u64 {
                Some(n as u32)
            } else {
                None
            }
        },
        None => {
            None
        },
    }
}

/// Parses `s` as a `usize` (`str::parse::<usize>`).
pub fn parse_usize(s: &[char]) -> (r: Option<usize>)
    ensures
        match parse_unsigned(s@, usize::MAX as nat) {
            Some(n) => r == Some(n as usize),
            None => r is None,
        },
{
    match parse_u64(s) {
        Some(n) => {
            if n as u128 <= usize::MAX as u128 {
                Some(n as usize)
            } else {
                None
            }
        },
        None => {
            proof {
                let d = unsigned_digits(s@);
                assert(usize::MAX <= u64::MAX);
            }
            None
        },
    }
}

/// Rust's `FromStr` for `i64`: an optional sign and at least one ASCII digit,
/// with a value in range.
pub open spec fn parse_signed64(s: Seq<char>) -> Option<int> {
    if s.len() > 0 && s[0] == '-' {
        let d = s.skip(1);
        if d.len() > 0 && all_digits(d) && dec_value(d) <= 0x8000_0000_0000_0000 {
            Some(-(dec_value(d) as int))
        } else {
            None
        }
    } else {
        match parse_unsigned(s, i64::MAX as nat) {
            Some(n) => Some(n as int),
            None => None,
        }
    }
}

/// Parses `s` as an `i64` (`str::parse::<i64>`).
pub fn parse_i64(s: &[char]) -> (r: Option<i64>)
    ensures
        match parse_signed64(s@) {
            Some(n) => r == Some(n as i64),
            None => r is None,
        },
{
    if s.len() > 0 && s[0] == '-' {
        let rest = slice_chars(s, 1, s.len());
        proof {
            assert(rest@ =~= s@.skip(1));
            assert(unsigned_digits(rest@) == rest@ || (rest@.len() > 0 && rest@[0] == '+'));
        }
        if rest.len() > 0 && rest[0] == '+' {
            proof {
                assert(!is_digit(rest@[0]));
            }
            return None;
        }
        match parse_u64(&rest) {
            Some(n) => {
                if n <= 0x8000_0000_0000_0000u64 {
                    if n == 0x8000_0000_0000_0000u64 {
                        Some(i64::MIN)
                    } else {
                        Some(-(n as i64))
                    }
                } else {
                    None
                }
            },
            None => None,
        }
    } else {
        match parse_u64(s) {
            Some(n) => {
                if n <= i64::MAX as u64 {
                    Some(n as i64)
                } else {
                    None
                }
            },
            None => None,
        }
    }
}

/// The ASCII digit for `d < 10`.
pub open spec fn digit_char(d: nat) -> char {
    ((d + '0' as u32) as u32) as char
}

/// The decimal representation of `n`, as `Display` writes it.
pub open spec fn dec_string(n: nat) -> Seq<char>
    decreases n,
{
    if n < 10 {
        seq![digit_char(n)]
    } else {
        dec_string(n / 10).push(digit_char(n % 10))
    }
}

/// The decimal representation of `n` (`n.to_string()`).
pub fn u64_to_chars(n: u64) -> (r: Vec<char>)
    ensures
        r@ == dec_string(n as nat),
    decreases n,
{
    let d = (n % 10) as u32;
    let c = char_from_digit(d);
    if n < 10 {
        let mut v: Vec<char> = Vec::new();
        v.push(c);
        proof {
            assert(v@ =~= seq![digit_char(n as nat)]);
        }
        v
    } else {
        let mut v = u64_to_chars(n / 10);
        v.push(c);
        v
    }
}

/// The ASCII digit character for `d < 10`.
pub fn char_from_digit(d: u32) -> (c: char)
    requires
        d < 10,
    ensures
        c == digit_char(d as nat),
{
    if d == 0 { '0' }
    else if d == 1 { '1' }
    else if d == 2 { '2' }
    else if d == 3 { '3' }
    else if d == 4 { '4' }
    else if d == 5 { '5' }
    else if d == 6 { '6' }
    else if d == 7 { '7' }
    else if d == 8 { '8' }
    else { '9' }
}

/// `n` written in decimal, left-padded with `0` to at least `width` characters
/// (`format!("{:0>width$}", n)`).
pub open spec fn zero_padded(n: nat, width: nat) -> Seq<char> {
    let s = dec_string(n);
    if s.len() < width {
        Seq::new((width - s.len()) as nat, |i: int| '0') + s
    } else {
        s
    }
}

/// `n` in decimal, left-padded with `0` to at least `width` characters.
pub fn u64_zero_padded(n: u64, width: usize) -> (r: Vec<char>)
    ensures
        r@ == zero_padded(n as nat, width as nat),
{
    let s = u64_to_chars(n);
    if s.len() < width {
        let mut r: Vec<char> = Vec::new();
        let k = width - s.len();
        let mut i: usize = 0;
        while i < k
            invariant
                i <= k,
                r@ == Seq::new(i as nat, |j: int| '0'),
            decreases k - i,
        {
            r.push('0');
            i = i + 1;
            proof {
                assert(r@ =~= Seq::new(i as nat, |j: int| '0'));
            }
        }
        push_all(&mut r, &s);
        r
    } else {
        s
    }
}


// ---------------------------------------------------------------------------
// More slicing helpers
// ---------------------------------------------------------------------------

/// `s` without any trailing `c` (`str::trim_end_matches(c)`).
pub open spec fn trim_end_char(s: Seq<char>, c: char) -> Seq<char>
    decreases s.len(),
{
    if s.len() > 0 && s.last() == c {
        trim_end_char(s.drop_last(), c)
    } else {
        s
    }
}

/// `s` without any leading `c` (`str::trim_start_matches(c)`).
pub open spec fn trim_start_char(s: Seq<char>, c: char) -> Seq<char>
    decreases s.len(),
{
    if s.len() > 0 && s[0] == c {
        trim_start_char(s.skip(1), c)
    } else {
        s
    }
}

/// Removes every trailing `c` from `v`.
pub fn trim_end_char_chars(v: &[char], c: char) -> (r: Vec<char>)
    ensures
        r@ == trim_end_char(v@, c),
{
    let mut b = v.len();
    proof {
        assert(v@.take(b as int) =~= v@);
    }
    while b > 0 && v[b - 1] == c
        invariant
            b <= v@.len(),
            trim_end_char(v@, c) == trim_end_char(v@.take(b as int), c),
        decreases b,
    {
        proof {
            assert(v@.take(b as int).drop_last() =~= v@.take(b - 1));
        }
        b = b - 1;
    }
    slice_chars(v, 0, b)
}

/// Removes every leading `c` from `v`.
pub fn trim_start_char_chars(v: &[char], c: char) -> (r: Vec<char>)
    ensures
        r@ == trim_start_char(v@, c),
{
    let mut a: usize = 0;
    proof {
        assert(v@.skip(0) =~= v@);
    }
    while a < v.len() && v[a] == c
        invariant
            a <= v@.len(),
            trim_start_char(v@, c) == trim_start_char(v@.skip(a as int), c),
        decreases v@.len() - a,
    {
        proof {
            assert(v@.skip(a as int).skip(1) =~= v@.skip(a + 1));
        }
        a = a + 1;
    }
    proof {
        assert(v@.skip(a as int) =~= v@.subrange(a as int, v@.len() as int));
    }
    slice_chars(v, a, v.len())
}

/// The part of `s` after its last `c`, or all of `s` when there is none
/// (`s.split(c).last()`).
pub open spec fn after_last(s: Seq<char>, c: char) -> Seq<char> {
    split(s, seq![c]).last()
}

/// The pieces of `v` split at `c`.
pub fn split_at_char(v: &[char], c: char) -> (r: Vec<Vec<char>>)
    ensures
        r@.len() == split(v@, seq![c]).len(),
        forall|i: int| 0 <= i < r@.len() ==> #[trigger] r@[i]@ == split(v@, seq![c])[i],
        r@.len() >= 1,
{
    let mut pat: Vec<char> = Vec::new();
    pat.push(c);
    proof {
        assert(pat@ =~= seq![c]);
    }
    split_chars(v, &pat)
}

/// The part of `v` after its last `c` (all of `v` when it holds no `c`).
pub fn after_last_char(v: &[char], c: char) -> (r: Vec<char>)
    ensures
        r@ == after_last(v@, c),
{
    let parts = split_at_char(v, c);
    let n = parts.len();
    let last = parts[n - 1].clone();
    proof {
        assert(last@ == parts@[n - 1]@);
    }
    last
}

/// `v` followed by the decimal digits of `n` and then `suffix`.
pub fn number_with_suffix(n: u64, suffix: char) -> (r: String)
    ensures
        r@ == dec_string(n as nat).push(suffix),
{
    let mut d = u64_to_chars(n);
    d.push(suffix);
    string_of(&d)
}

/// The pieces of `parts` joined with `sep` between them (`[..].join(sep)`).
pub open spec fn join(parts: Seq<Seq<char>>, sep: Seq<char>) -> Seq<char>
    decreases parts.len(),
{
    if parts.len() == 0 {
        Seq::empty()
    } else if parts.len() == 1 {
        parts[0]
    } else {
        join(parts.drop_last(), sep) + sep + parts.last()
    }
}

/// Joins `parts` with `sep` between consecutive pieces.
pub fn join_chars(parts: &Vec<Vec<char>>, sep: &[char]) -> (r: Vec<char>)
    ensures
        r@ == join(parts@.map_values(|p: Vec<char>| p@), sep@),
{
    let ghost ps = parts@.map_values(|p: Vec<char>| p@);
    let mut r: Vec<char> = Vec::new();
    let mut i: usize = 0;
    while i < parts.len()
        invariant
            i <= parts@.len(),
            ps == parts@.map_values(|p: Vec<char>| p@),
            r@ == join(ps.take(i as int), sep@),
        decreases parts@.len() - i,
    {
        if i > 0 {
            push_all(&mut r, sep);
        }
        push_all(&mut r, &parts[i]);
        proof {
            assert(ps.take(i + 1).drop_last() =~= ps.take(i as int));
            if i == 0 {
                assert(ps.take(1)[0] == parts@[0]@);
                assert(r@ =~= join(ps.take(1), sep@));
            }
        }
        i = i + 1;
    }
    proof {
        assert(ps.take(parts@.len() as int) =~= ps);
    }
    r
}

// ---------------------------------------------------------------------------
// Words and lexicographic order
// ---------------------------------------------------------------------------

/// The maximal runs of non-whitespace characters of `s`, where `cur` is the
/// run collected so far (`str::split_whitespace`).
pub open spec fn words_acc(s: Seq<char>, cur: Seq<char>) -> Seq<Seq<char>>
    decreases s.len(),
{
    if s.len() == 0 {
        if cur.len() > 0 { seq![cur] } else { Seq::empty() }
    } else if is_ws(s[0]) {
        (if cur.len() > 0 { seq![cur] } else { Seq::empty() }) + words_acc(s.skip(1), Seq::empty())
    } else {
        words_acc(s.skip(1), cur.push(s[0]))
    }
}

/// The whitespace-separated words of `s`.
pub open spec fn words(s: Seq<char>) -> Seq<Seq<char>> {
    words_acc(s, Seq::empty())
}

/// The words of `v`, in order.
pub fn split_words(v: &[char]) -> (r: Vec<Vec<char>>)
    ensures
        r@.map_values(|p: Vec<char>| p@) == words(v@),
{
    let mut pieces: Vec<Vec<char>> = Vec::new();
    let mut cur: Vec<char> = Vec::new();
    let mut i: usize = 0;
    let ghost total = words(v@);
    proof {
        assert(v@.skip(0) =~= v@);
    }
    while i < v.len()
        invariant
            i <= v@.len(),
            total == words(v@),
            total =~= pieces@.map_values(|p: Vec<char>| p@) + words_acc(v@.skip(i as int), cur@),
        decreases v@.len() - i,
    {
        let ghost rest = v@.skip(i as int);
        proof {
            assert(rest[0] == v@[i as int]);
            assert(rest.skip(1) =~= v@.skip(i + 1));
        }
        let ghost before = pieces@.map_values(|p: Vec<char>| p@);
        let ghost cur0 = cur@;
        if is_ws_char(v[i]) {
            proof {
                let head: Seq<Seq<char>> = if cur0.len() > 0 { seq![cur0] } else { Seq::empty() };
                assert(words_acc(rest, cur0) == head + words_acc(v@.skip(i + 1), Seq::empty()));
                assert(total =~= before + head + words_acc(v@.skip(i + 1), Seq::empty()));
            }
            if cur.len() > 0 {
                let done = cur;
                pieces.push(done);
                cur = Vec::new();
                proof {
                    assert(pieces@.map_values(|p: Vec<char>| p@) =~= before + seq![done@]);
                }
            }
            proof {
                assert(cur@ =~= Seq::<char>::empty());
                if cur0.len() == 0 {
                    assert(pieces@.map_values(|p: Vec<char>| p@) =~= before);
                }
                assert(total =~= pieces@.map_values(|p: Vec<char>| p@) + words_acc(v@.skip(i + 1), cur@));
            }
        } else {
            cur.push(v[i]);
        }
        i = i + 1;
    }
    if cur.len() > 0 {
        pieces.push(cur);
    }
    proof {
        assert(total =~= pieces@.map_values(|p: Vec<char>| p@));
    }
    pieces
}

/// `v` with leading and trailing whitespace removed and every inner run of
/// whitespace replaced by one space (`split_whitespace` joined with `" "`).
pub fn collapse_whitespace(v: &[char]) -> (r: Vec<char>)
    ensures
        r@ == join(words(v@), seq![' ']),
{
    let ws = split_words(v);
    let mut sep: Vec<char> = Vec::new();
    sep.push(' ');
    proof {
        assert(sep@ =~= seq![' ']);
    }
    join_chars(&ws, &sep)
}

/// `a` comes strictly before `b` in character-code order, as `String`'s `<`
/// orders (UTF-8 byte order and code point order agree).
pub open spec fn lex_lt(a: Seq<char>, b: Seq<char>) -> bool
    decreases a.len(),
{
    if a.len() == 0 {
        b.len() > 0
    } else if b.len() == 0 {
        false
    } else if a[0] != b[0] {
        (a[0] as u32) < (b[0] as u32)
    } else {
        lex_lt(a.drop_first(), b.drop_first())
    }
}

/// Executable [`lex_lt`].
pub fn lex_less(a: &[char], b: &[char]) -> (r: bool)
    ensures
        r == lex_lt(a@, b@),
{
    let mut i: usize = 0;
    proof {
        assert(a@.skip(0) =~= a@);
        assert(b@.skip(0) =~= b@);
    }
    while i < a.len() && i < b.len()
        invariant
            i <= a@.len(),
            i <= b@.len(),
            lex_lt(a@, b@) == lex_lt(a@.skip(i as int), b@.skip(i as int)),
        decreases a@.len() - i,
    {
        let ghost sa = a@.skip(i as int);
        let ghost sb = b@.skip(i as int);
        proof {
            assert(sa[0] == a@[i as int]);
            assert(sb[0] == b@[i as int]);
        }
        if a[i] != b[i] {
            return (a[i] as u32) < (b[i] as u32);
        }
        proof {
            assert(sa.drop_first() =~= a@.skip(i + 1));
            assert(sb.drop_first() =~= b@.skip(i + 1));
        }
        i = i + 1;
    }
    proof {
        assert(a@.skip(i as int).len() == a@.len() - i);
        assert(b@.skip(i as int).len() == b@.len() - i);
    }
    i < b.len()
}

/// Appends the characters of `s`.
pub fn push_str(r: &mut Vec<char>, s: &str)
    ensures
        final(r)@ == old(r)@ + s@,
{
    let v = chars_of(s);
    push_all(r, &v);
}

/// Appends the decimal digits of `n`.
pub fn push_usize(r: &mut Vec<char>, n: usize)
    ensures
        final(r)@ == old(r)@ + dec_string(n as nat),
{
    let d = u64_to_chars(n as u64);
    push_all(r, &d);
}

} // verus!
