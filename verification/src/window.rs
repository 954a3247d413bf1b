use vstd::prelude::*;

verus! {

/// What `clamp` yields: `min` below the range, `max - 1` at or past its end,
/// the input itself inside.
pub open spec fn spec_clamp(input: int, min: int, max: int) -> int {
    if input < min {
        min
    } else if input >= max {
        max - 1
    } else {
        input
    }
}

/// Clamps `input` into `min..max` (a half-open range: the upper bound is
/// exclusive, so an input at or past `max` becomes `max - 1`).
pub fn clamp(input: usize, min: usize, max: usize) -> (r: usize)
    requires
        input < min || max > 0,
    ensures
        r == spec_clamp(input as int, min as int, max as int),
        input < min ==> r == min,
        min <= input < max ==> r == input,
        min <= input && max <= input ==> r == max - 1,
{
    if input < min {
        return min;
    }
    if input >= max {
        return max - 1;
    }
    input
}


/// Clamping into a non-empty range always lands inside it.
pub proof fn lemma_clamp_in_range(input: int, min: int, max: int)
    requires
        min < max,
    ensures
        min <= spec_clamp(input, min, max) < max,
{
}

/// An input already inside the range is left unchanged.
pub proof fn lemma_clamp_fixes_range(input: int, min: int, max: int)
    requires
        min <= input < max,
    ensures
        spec_clamp(input, min, max) == input,
{
}

/// An input below the range becomes the bottom of the range.
pub proof fn lemma_clamp_below(input: int, min: int, max: int)
    requires
        input < min,
    ensures
        spec_clamp(input, min, max) == min,
{
}

/// An input at or past the end of a non-empty range becomes its last value,
/// `max - 1`, however far past the end it lies.
pub proof fn lemma_clamp_past_end(input: int, min: int, max: int)
    requires
        min < max <= input,
    ensures
        spec_clamp(input, min, max) == max - 1,
{
}

/// Clamping twice into the same non-empty range is the same as clamping once.
pub proof fn lemma_clamp_idempotent(input: int, min: int, max: int)
    requires
        min < max,
    ensures
        spec_clamp(spec_clamp(input, min, max), min, max) == spec_clamp(input, min, max),
{
}

/// Index into a vertex list of length `len` of the `k`-th vertex of the window
/// that starts at `oindex`: positions past the end repeat the last vertex.
pub open spec fn window_index(oindex: int, k: int, len: int) -> int {
    spec_clamp(oindex + k, 0, len)
}

/// The six indices of the window that starts at `oindex` in a vertex list of
/// length `len`.
pub fn window_indices(oindex: usize, len: usize) -> (r: [usize; 6])
    requires
        len > 0,
        oindex + 5 <= usize::MAX,
    ensures
        forall|k: int| 0 <= k < 6 ==> #[trigger] r@[k] == window_index(oindex as int, k, len as int),
        forall|k: int| 0 <= k < 6 ==> #[trigger] r@[k] < len,
        forall|k: int| 0 <= k < 6 && oindex + k < len ==> #[trigger] r@[k] == oindex + k,
        forall|k: int| 0 <= k < 6 && oindex + k >= len ==> #[trigger] r@[k] == len - 1,
{
    let r: [usize; 6] = [
        clamp(oindex, 0, len),
        clamp(oindex + 1, 0, len),
        clamp(oindex + 2, 0, len),
        clamp(oindex + 3, 0, len),
        clamp(oindex + 4, 0, len),
        clamp(oindex + 5, 0, len),
    ];
    assert(r@[0] == r[0] && r@[1] == r[1] && r@[2] == r[2] && r@[3] == r[3] && r@[4] == r[4] && r@[5] == r[5]);
    r
}

/// The six vertices of the window that starts at `oindex`, in order; a window
/// that runs past the end of `base` repeats its last vertex.
pub fn gather_window<T: Copy>(base: &Vec<T>, oindex: usize) -> (r: [T; 6])
    requires
        base.len() > 0,
        oindex + 5 <= usize::MAX,
    ensures
        forall|k: int| 0 <= k < 6 ==> #[trigger] r@[k] == base@[window_index(oindex as int, k, base.len() as int)],
        forall|k: int| 0 <= k < 6 && oindex + k < base.len() ==> #[trigger] r@[k] == base@[oindex + k],
        forall|k: int|
            0 <= k < 6 && oindex + k >= base.len() ==> #[trigger] r@[k] == base@[base.len() - 1],
{
    let idx = window_indices(oindex, base.len());
    let r: [T; 6] = [base[idx[0]], base[idx[1]], base[idx[2]], base[idx[3]], base[idx[4]], base[idx[5]]];
    assert(r@[0] == r[0] && r@[1] == r[1] && r@[2] == r[2] && r@[3] == r[3] && r@[4] == r[4] && r@[5] == r[5]);
    r
}

/// The `k`-th vertex of a window is the vertex `oindex + k` while that lies
/// in the list, and the list's last vertex past its end.
pub proof fn lemma_window_index(oindex: int, k: int, len: int)
    requires
        0 <= oindex,
        0 <= k,
        0 < len,
    ensures
        oindex + k < len ==> window_index(oindex, k, len) == oindex + k,
        oindex + k >= len ==> window_index(oindex, k, len) == len - 1,
{
}

/// Number of windows drawn in one frame: one for every step of six in
/// `0..=buf * 100`.
pub open spec fn frame_window_count(buf: int) -> int {
    if buf * 100 >= 0 {
        (buf * 100) / 6 + 1
    } else {
        0
    }
}

/// Start of the `k`-th window of a frame: the step `6 * k` and the index
/// offset `ind`, each taken as a `usize`, added.
pub open spec fn frame_window_start(k: int, ind: i64) -> int {
    ((6 * k) as usize) as int + (ind as usize) as int
}

/// The starts of the windows drawn in one frame: the steps `0, 6, 12, ...`
/// up to `buf * 100` inclusive, each shifted by `ind`.
pub fn frame_window_starts(buf: i64, ind: i64) -> (r: Vec<usize>)
    requires
        i64::MIN <= buf * 100 <= i64::MAX,
        forall|k: int|
            0 <= k < frame_window_count(buf as int) ==> #[trigger] frame_window_start(k, ind)
                <= usize::MAX,
    ensures
        r.len() == frame_window_count(buf as int),
        forall|k: int| 0 <= k < r.len() ==> #[trigger] r@[k] == frame_window_start(k, ind),
        buf * 100 < 0 ==> r.len() == 0,
        buf * 100 >= 0 ==> 0 < r.len() && 6 * (r.len() - 1) <= buf * 100 < 6 * r.len(),
        forall|k: int|
            0 <= k < r.len() ==> #[trigger] r@[k] == ((6 * k) as usize) as int + (ind as usize) as int,
{
    let last: i64 = buf * 100;
    let mut r: Vec<usize> = Vec::new();
    if last < 0 {
        return r;
    }
    let ghost count = frame_window_count(buf as int);
    let mut i: i64 = 0;
    loop
        invariant_except_break
            i == 6 * r.len(),
            r.len() < count,
        invariant
            last == buf * 100,
            last >= 0,
            count == frame_window_count(buf as int),
            count == last / 6 + 1,
            0 <= i <= last,
            forall|k: int| 0 <= k < count ==> #[trigger] frame_window_start(k, ind) <= usize::MAX,
            forall|k: int| 0 <= k < r.len() ==> #[trigger] r@[k] == frame_window_start(k, ind),
        ensures
            r.len() == count,
            forall|k: int| 0 <= k < r.len() ==> #[trigger] r@[k] == frame_window_start(k, ind),
        decreases last - i,
    {
        assert(frame_window_start(r.len() as int, ind) <= usize::MAX);
        let start: usize = i as usize + ind as usize;
        r.push(start);
        if last - i < 6 {
            assert(r.len() == count);
            break;
        }
        i = i + 6;
    }
    r
}


/// A frame draws one window for every multiple of six in `0..=buf * 100`:
/// the last window's step is the greatest such multiple, and the next
/// multiple of six lies past `buf * 100`. No window is drawn when
/// `buf * 100` is negative.
pub proof fn lemma_frame_window_count(buf: int)
    ensures
        buf * 100 < 0 ==> frame_window_count(buf) == 0,
        buf * 100 >= 0 ==> 0 < frame_window_count(buf) && 6 * (frame_window_count(buf) - 1)
            <= buf * 100 < 6 * frame_window_count(buf),
{
}

/// With a non-negative offset and no overflow, the `k`-th window of a frame
/// starts at `6 * k + ind`.
pub proof fn lemma_frame_window_start(k: int, ind: i64)
    requires
        0 <= k,
        0 <= ind,
        6 * k + ind <= usize::MAX,
    ensures
        frame_window_start(k, ind) == 6 * k + ind,
{
}

} // verus!
