//! Locating and rewriting the duration fields of MP4 header boxes (`mvhd`,
//! `mdhd`, `tkhd`). Reading and writing the file, and turning seconds into
//! timescale units, are the application's.
use vstd::prelude::*;

verus! {

/// The 4-byte box name `name` stands at index `i` of `data`.
pub open spec fn box_at(data: Seq<u8>, name: Seq<u8>, i: int) -> bool {
    0 <= i && i + 4 <= data.len() && data[i] == name[0] && data[i + 1] == name[1]
        && data[i + 2] == name[2] && data[i + 3] == name[3]
}

/// The first index at or after `start` where box `name` stands; none in data
/// shorter than 8 bytes.
pub open spec fn box_from(data: Seq<u8>, name: Seq<u8>, start: int) -> Option<int> {
    if data.len() < 8 {
        None
    } else if exists|i: int| start <= i && box_at(data, name, i) {
        Some(choose|i: int| start <= i && box_at(data, name, i)
            && forall|j: int| start <= j < i ==> !box_at(data, name, j))
    } else {
        None
    }
}

/// Finds box `name` at or after `start` (see [`box_from`]).
pub fn find_box_from(data: &[u8], name: &[u8; 4], start: usize) -> (r: Option<usize>)
    ensures
        match r {
            Some(i) => box_from(data@, name@, start as int) == Some(i as int),
            None => box_from(data@, name@, start as int) is None,
        },
{
    if data.len() < 8 {
        return None;
    }
    let end = data.len() - 3;
    let mut i = start;
    while i < end
        invariant
            start <= i,
            end == data@.len() - 3,
            data@.len() >= 8,
            forall|j: int| start <= j < i ==> !box_at(data@, name@, j),
        decreases end - i,
    {
        if data[i] == name[0] && data[i + 1] == name[1] && data[i + 2] == name[2] && data[i + 3] == name[3] {
            proof {
                assert(box_at(data@, name@, i as int));
                let c = choose|k: int| start <= k && box_at(data@, name@, k)
                    && forall|j: int| start <= j < k ==> !box_at(data@, name@, j);
                assert(c == i);
            }
            return Some(i);
        }
        i = i + 1;
    }
    proof {
        assert forall|k: int| start <= k implies !box_at(data@, name@, k) by {
            if k >= i && box_at(data@, name@, k) {
                assert(k + 4 <= data@.len());
            }
        }
    }
    None
}

/// Finds the first box `name` (see [`box_from`]).
pub fn find_box(data: &[u8], name: &[u8; 4]) -> (r: Option<usize>)
    ensures
        match r {
            Some(i) => box_from(data@, name@, 0) == Some(i as int),
            None => box_from(data@, name@, 0) is None,
        },
{
    find_box_from(data, name, 0)
}

/// The big-endian 32-bit value at `offset`, or 0 where fewer than 4 bytes
/// remain there.
pub open spec fn u32_at(data: Seq<u8>, offset: int) -> u32 {
    if offset + 4 > data.len() {
        0
    } else {
        ((data[offset] as u32) * 0x100_0000 + (data[offset + 1] as u32) * 0x1_0000
            + (data[offset + 2] as u32) * 0x100 + (data[offset + 3] as u32)) as u32
    }
}

/// Reads a big-endian 32-bit value (0 past the end).
pub fn read_u32(data: &[u8], offset: usize) -> (r: u32)
    ensures
        r == u32_at(data@, offset as int),
{
    if offset > data.len() || data.len() - offset < 4 {
        return 0;
    }
    let a = data[offset] as u32;
    let b = data[offset + 1] as u32;
    let c = data[offset + 2] as u32;
    let d = data[offset + 3] as u32;
    proof {
        assert(a * 0x100_0000 + b * 0x1_0000 + c * 0x100 + d <= 0xffff_ffff) by (nonlinear_arith)
            requires a < 256, b < 256, c < 256, d < 256;
    }
    a * 0x100_0000 + b * 0x1_0000 + c * 0x100 + d
}

/// `data` with the big-endian bytes of `value` at `offset`, unchanged where
/// fewer than 4 bytes remain there.
pub open spec fn with_u32_at(data: Seq<u8>, offset: int, value: u32) -> Seq<u8> {
    if offset + 4 > data.len() {
        data
    } else {
        data.update(offset, (value / 0x100_0000) as u8)
            .update(offset + 1, ((value / 0x1_0000) % 0x100) as u8)
            .update(offset + 2, ((value / 0x100) % 0x100) as u8)
            .update(offset + 3, (value % 0x100) as u8)
    }
}

/// Writes a big-endian 32-bit value (nothing past the end).
pub fn write_u32(data: &mut [u8], offset: usize, value: u32)
    ensures
        final(data)@ == with_u32_at(old(data)@, offset as int, value),
{
    if offset > data.len() || data.len() - offset < 4 {
        return;
    }
    data[offset] = (value / 0x100_0000) as u8;
    data[offset + 1] = ((value / 0x1_0000) % 0x100) as u8;
    data[offset + 2] = ((value / 0x100) % 0x100) as u8;
    data[offset + 3] = (value % 0x100) as u8;
}

/// Writing a value and reading it back gives the value.
pub proof fn law_read_after_write(data: Seq<u8>, offset: int, value: u32)
    requires
        0 <= offset,
        offset + 4 <= data.len(),
    ensures
        u32_at(with_u32_at(data, offset, value), offset) == value,
{
    let a = value / 0x100_0000;
    let b = (value / 0x1_0000) % 0x100;
    let c = (value / 0x100) % 0x100;
    let d = value % 0x100;
    assert(a * 0x100_0000 + b * 0x1_0000 + c * 0x100 + d == value) by (nonlinear_arith)
        requires a == value / 0x100_0000, b == (value / 0x1_0000) % 0x100, c == (value / 0x100) % 0x100,
            d == value % 0x100, value <= 0xffff_ffff;
}

/// The box name `mvhd` (movie header).
pub open spec fn mvhd_name() -> Seq<u8> {
    seq![0x6du8, 0x76u8, 0x68u8, 0x64u8]
}

/// The box name `mdhd` (media header).
pub open spec fn mdhd_name() -> Seq<u8> {
    seq![0x6du8, 0x64u8, 0x68u8, 0x64u8]
}

/// The box name `tkhd` (track header).
pub open spec fn tkhd_name() -> Seq<u8> {
    seq![0x74u8, 0x6bu8, 0x68u8, 0x64u8]
}

/// Where a box is found: at or after the start, with its 4 name bytes inside
/// the data.
pub proof fn lemma_box_from_bounds(d: Seq<u8>, name: Seq<u8>, start: int)
    ensures
        box_from(d, name, start) matches Some(p) ==> start <= p && p + 4 <= d.len(),
{
    if d.len() >= 8 && exists|i: int| start <= i && box_at(d, name, i) {
        let k = choose|i: int| start <= i && box_at(d, name, i);
        lemma_first_box_exists(d, name, start, k);
        let p = box_from(d, name, start)->0;
        assert(start <= p && box_at(d, name, p));
    }
}

/// Where a box stands at `k`, there is a first one at or after `start`.
proof fn lemma_first_box_exists(d: Seq<u8>, name: Seq<u8>, start: int, k: int)
    requires
        start <= k,
        box_at(d, name, k),
    ensures
        exists|i: int| start <= i && box_at(d, name, i) && forall|j: int| start <= j < i ==> !box_at(d, name, j),
    decreases k - start,
{
    if exists|j: int| start <= j < k && box_at(d, name, j) {
        let j = choose|j: int| start <= j < k && box_at(d, name, j);
        lemma_first_box_exists(d, name, start, j);
    } else {
        assert(start <= k && box_at(d, name, k) && forall|j: int| start <= j < k ==> !box_at(d, name, j));
    }
}

/// Whether a scaling closure gives one value per timescale.
pub open spec fn scale_is_function<F: Fn(u32) -> u32>(scale: F) -> bool {
    forall|t: u32, v: u32, w: u32| scale.ensures((t,), v) && scale.ensures((t,), w) ==> v == w
}

/// The value a scaling closure gives for each timescale.
pub open spec fn scale_fn<F: Fn(u32) -> u32>(scale: F) -> spec_fn(u32) -> u32 {
    |t: u32| choose|v: u32| scale.ensures((t,), v)
}

/// A version-0 header box whose fields start at `base` and need `need` bytes
/// gets `f(ts)` in its duration field at `base + off`, when `ts` is not zero;
/// the flag says whether a field was written.
#[verifier::opaque]
pub open spec fn patched_field(d: Seq<u8>, base: int, need: int, off: int, ts: u32, f: spec_fn(u32) -> u32) -> (Seq<u8>, bool) {
    if base < d.len() && d[base] == 0 && base + need <= d.len() && ts > 0 {
        (with_u32_at(d, base + off, f(ts)), true)
    } else {
        (d, false)
    }
}

/// The first `mvhd` box gets the duration in its own timescale (at offsets
/// 12 and 16 after the name's 4 bytes).
pub open spec fn mvhd_patched(d: Seq<u8>, f: spec_fn(u32) -> u32) -> (Seq<u8>, bool) {
    match box_from(d, mvhd_name(), 0) {
        Some(p) => patched_field(d, p + 4, 20, 16, u32_at(d, p + 16), f),
        None => (d, false),
    }
}

/// Every `mdhd` box from `from` on gets the duration in its own timescale; the
/// search goes on 20 bytes after each one found.
#[verifier::opaque]
pub open spec fn mdhd_patched(d: Seq<u8>, from: nat, f: spec_fn(u32) -> u32) -> (Seq<u8>, bool)
    decreases d.len() + 20 - from,
{
    if from > d.len() {
        (d, false)
    } else {
        match box_from(d, mdhd_name(), from as int) {
            Some(p) => {
                proof {
                    lemma_box_from_bounds(d, mdhd_name(), from as int);
                    lemma_patched_field_len(d, p + 4, 20, 16, u32_at(d, p + 16), f);
                }
                let s = patched_field(d, p + 4, 20, 16, u32_at(d, p + 16), f);
                let rest = mdhd_patched(s.0, (p + 20) as nat, f);
                (rest.0, s.1 || rest.1)
            },
            None => (d, false),
        }
    }
}

/// The movie timescale: the one in the first `mvhd` box, 90000 without one.
pub open spec fn movie_timescale(d: Seq<u8>) -> u32 {
    match box_from(d, mvhd_name(), 0) {
        Some(p) => u32_at(d, p + 16),
        None => 90000,
    }
}

/// Every `tkhd` box from `from` on gets the duration in the movie timescale
/// (at offset 20 after the name's 4 bytes); the search goes on 24 bytes after
/// each one found.
#[verifier::opaque]
pub open spec fn tkhd_patched(d: Seq<u8>, from: nat, f: spec_fn(u32) -> u32) -> (Seq<u8>, bool)
    decreases d.len() + 24 - from,
{
    if from > d.len() {
        (d, false)
    } else {
        match box_from(d, tkhd_name(), from as int) {
            Some(p) => {
                proof {
                    lemma_box_from_bounds(d, tkhd_name(), from as int);
                    lemma_patched_field_len(d, p + 4, 24, 20, movie_timescale(d), f);
                }
                let s = patched_field(d, p + 4, 24, 20, movie_timescale(d), f);
                let rest = tkhd_patched(s.0, (p + 24) as nat, f);
                (rest.0, s.1 || rest.1)
            },
            None => (d, false),
        }
    }
}

/// The file with its durations set to `f` of each timescale: the movie header
/// first, then every media header, then every track header; the flag says
/// whether any field was written (the file is saved only then).
pub open spec fn durations_patched(d: Seq<u8>, f: spec_fn(u32) -> u32) -> (Seq<u8>, bool) {
    let a = mvhd_patched(d, f);
    let b = mdhd_patched(a.0, 0, f);
    let c = tkhd_patched(b.0, 0, f);
    (c.0, a.1 || b.1 || c.1)
}

pub proof fn lemma_patched_field_len(d: Seq<u8>, base: int, need: int, off: int, ts: u32, f: spec_fn(u32) -> u32)
    requires
        0 <= base,
        0 <= off,
    ensures
        patched_field(d, base, need, off, ts, f).0.len() == d.len(),
{
    reveal(patched_field);
}

/// Writes `scale(ts)` into the duration field at `base + off` of a version-0
/// box (see [`patched_field`]).
fn write_duration<F: Fn(u32) -> u32>(d: &mut Vec<u8>, base: usize, need: usize, off: usize, ts: u32, scale: &F) -> (w: bool)
    requires
        base + need <= usize::MAX,
        off + 4 <= need,
        forall|t: u32| scale.requires((t,)),
    ensures
        final(d)@.len() == old(d)@.len(),
        scale_is_function(*scale) ==> (final(d)@, w) == patched_field(old(d)@, base as int, need as int, off as int, ts, scale_fn(*scale)),
{
    proof {
        reveal(patched_field);
    }
    if base < d.len() && d[base] == 0 && base + need <= d.len() && ts > 0 {
        let v = scale(ts);
        proof {
            if scale_is_function(*scale) {
                let c = choose|x: u32| scale.ensures((ts,), x);
                assert(scale.ensures((ts,), c));
                assert(scale_fn(*scale)(ts) == c);
            }
        }
        write_u32(d.as_mut_slice(), base + off, v);
        true
    } else {
        false
    }
}

/// The big-endian value at `offset`, read without overflow (0 past the end).
fn read_u32_after(data: &[u8], pos: usize, delta: usize) -> (r: u32)
    requires
        pos + delta <= usize::MAX,
    ensures
        r == u32_at(data@, pos + delta),
{
    read_u32(data, pos + delta)
}

/// Sets the duration of every `mdhd` box (see [`mdhd_patched`]).
fn patch_media_headers<F: Fn(u32) -> u32>(d: &mut Vec<u8>, scale: &F) -> (w: bool)
    requires
        old(d)@.len() + 24 <= usize::MAX,
        forall|t: u32| scale.requires((t,)),
    ensures
        final(d)@.len() == old(d)@.len(),
        scale_is_function(*scale) ==> (final(d)@, w) == mdhd_patched(old(d)@, 0, scale_fn(*scale)),
{
    let ghost f = scale_fn(*scale);
    let ghost target = mdhd_patched(d@, 0, f);
    let name: [u8; 4] = [0x6d, 0x64, 0x68, 0x64];
    proof {
        assert(name@ =~= mdhd_name());
    }
    let ghost n = d@.len();
    let mut any = false;
    let mut from: usize = 0;
    loop
        invariant
            d@.len() == n,
            n == old(d)@.len(),
            n + 24 <= usize::MAX,
            forall|t: u32| scale.requires((t,)),
            name@ == mdhd_name(),
            f == scale_fn(*scale),
            target == mdhd_patched(old(d)@, 0, f),
            from <= n + 20,
            scale_is_function(*scale) ==> ({
                let rest = mdhd_patched(d@, from as nat, f);
                rest.0 == target.0 && (any || rest.1) == target.1
            }),
        decreases n + 20 - from,
    {
        if from > d.len() {
            proof {
                reveal(mdhd_patched);
                reveal(tkhd_patched);
            }
            return any;
        }
        let ghost before = d@;
        match find_box_from(d.as_slice(), &name, from) {
            Some(pos) => {
                proof {
                    lemma_box_from_bounds(before, name@, from as int);
                }
                let ts = read_u32_after(d.as_slice(), pos, 16);
                let w = write_duration(d, pos + 4, 20, 16, ts, scale);
                proof {
                    reveal(mdhd_patched);
                    if scale_is_function(*scale) {
                        let s = patched_field(before, pos + 4, 20, 16, u32_at(before, pos + 16), f);
                        assert(mdhd_patched(before, from as nat, f) == ({
                            let rest = mdhd_patched(s.0, (pos + 20) as nat, f);
                            (rest.0, s.1 || rest.1)
                        }));
                    }
                }
                any = any || w;
                from = pos + 20;
            },
            None => {
                proof {
                    reveal(mdhd_patched);
                    assert(mdhd_patched(before, from as nat, f) == (before, false));
                }
                return any;
            },
        }
    }
}

/// Sets the duration of every `tkhd` box (see [`tkhd_patched`]).
fn patch_track_headers<F: Fn(u32) -> u32>(d: &mut Vec<u8>, scale: &F) -> (w: bool)
    requires
        old(d)@.len() + 24 <= usize::MAX,
        forall|t: u32| scale.requires((t,)),
    ensures
        final(d)@.len() == old(d)@.len(),
        scale_is_function(*scale) ==> (final(d)@, w) == tkhd_patched(old(d)@, 0, scale_fn(*scale)),
{
    let ghost f = scale_fn(*scale);
    let ghost target = tkhd_patched(d@, 0, f);
    let name: [u8; 4] = [0x74, 0x6b, 0x68, 0x64];
    let movie: [u8; 4] = [0x6d, 0x76, 0x68, 0x64];
    proof {
        assert(name@ =~= tkhd_name());
        assert(movie@ =~= mvhd_name());
    }
    let ghost n = d@.len();
    let mut any = false;
    let mut from: usize = 0;
    loop
        invariant
            d@.len() == n,
            n == old(d)@.len(),
            n + 24 <= usize::MAX,
            forall|t: u32| scale.requires((t,)),
            name@ == tkhd_name(),
            movie@ == mvhd_name(),
            f == scale_fn(*scale),
            target == tkhd_patched(old(d)@, 0, f),
            from <= n + 24,
            scale_is_function(*scale) ==> ({
                let rest = tkhd_patched(d@, from as nat, f);
                rest.0 == target.0 && (any || rest.1) == target.1
            }),
        decreases n + 24 - from,
    {
        if from > d.len() {
            proof {
                reveal(mdhd_patched);
                reveal(tkhd_patched);
            }
            return any;
        }
        let ghost before = d@;
        match find_box_from(d.as_slice(), &name, from) {
            Some(pos) => {
                proof {
                    lemma_box_from_bounds(before, name@, from as int);
                }
                let ts = match find_box(d.as_slice(), &movie) {
                    Some(p) => {
                        proof {
                            lemma_box_from_bounds(before, movie@, 0);
                        }
                        read_u32_after(d.as_slice(), p, 16)
                    },
                    None => 90000,
                };
                proof {
                    assert(ts == movie_timescale(before));
                }
                let w = write_duration(d, pos + 4, 24, 20, ts, scale);
                proof {
                    reveal(tkhd_patched);
                    if scale_is_function(*scale) {
                        let s = patched_field(before, pos + 4, 24, 20, movie_timescale(before), f);
                        assert(tkhd_patched(before, from as nat, f) == ({
                            let rest = tkhd_patched(s.0, (pos + 24) as nat, f);
                            (rest.0, s.1 || rest.1)
                        }));
                    }
                }
                any = any || w;
                from = pos + 24;
            },
            None => {
                proof {
                    reveal(tkhd_patched);
                    assert(tkhd_patched(before, from as nat, f) == (before, false));
                }
                return any;
            },
        }
    }
}

/// Sets the durations in the MP4 data `mp4` to `scale` of each box's timescale
/// (see [`durations_patched`]) and says whether any field was written. Where
/// `scale` gives one value per timescale the bytes are exactly those of
/// [`durations_patched`] with it; the length never changes.
pub fn patch_durations<F: Fn(u32) -> u32>(mp4: &mut Vec<u8>, scale: F) -> (patched: bool)
    requires
        old(mp4)@.len() + 24 <= usize::MAX,
        forall|t: u32| scale.requires((t,)),
    ensures
        final(mp4)@.len() == old(mp4)@.len(),
        scale_is_function(scale) ==> (final(mp4)@, patched) == durations_patched(old(mp4)@, scale_fn(scale)),
{
    let movie: [u8; 4] = [0x6d, 0x76, 0x68, 0x64];
    proof {
        assert(movie@ =~= mvhd_name());
    }
    let a = match find_box(mp4.as_slice(), &movie) {
        Some(pos) => {
            proof {
                lemma_box_from_bounds(mp4@, movie@, 0);
            }
            let ts = read_u32_after(mp4.as_slice(), pos, 16);
            write_duration(mp4, pos + 4, 20, 16, ts, &scale)
        },
        None => false,
    };
    let b = patch_media_headers(mp4, &scale);
    let c = patch_track_headers(mp4, &scale);
    a || b || c
}

} // verus!
