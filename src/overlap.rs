//! Vertical overlap detection between two consecutive RGBA frames.
//!
//! Frames are top-down, row-major, four bytes per pixel. The detector
//! first matches row fingerprints (tier 1) and, when that gives no
//! convincing answer, slides a small reference strip through the later
//! frame and scores it by mean absolute channel difference (tier 2).
use vstd::prelude::*;
use vstd::slice::slice_subrange;
use std::hash::DefaultHasher;
use std::hash::Hasher;
use vstd::std_specs::hash::DefaultHasherAdditionalSpecFns;

verus! {

/// Fewest contiguous fingerprint matches that settle a candidate by themselves.
pub const MIN_RUN: usize = 8;

/// Rows in the reference strip of the intensity fallback (at most).
pub const STRIP_ROWS: usize = 10;

/// Frames shorter than this are never matched.
pub const MIN_HEIGHT: usize = 32;

/// Largest accepted mean absolute difference per channel, in the fallback.
pub const NOISE_THRESHOLD: u128 = 15;

// ---------------------------------------------------------------------------
// Geometry of the search
// ---------------------------------------------------------------------------

/// Rows of each frame that take part in the search: the bottom 5% is ignored.
pub open spec fn search_range(h: nat) -> nat {
    h * 19 / 20
}

/// Distance of the reference row from the bottom edge of the earlier frame.
pub open spec fn ref_offset(h: nat) -> nat {
    h / 6
}

/// Pixel columns that are compared: the right-most 5% (a scrollbar) is left out.
pub open spec fn window_cols(w: nat) -> nat {
    (w - w / 20) as nat
}

/// Byte length of one row.
pub open spec fn row_bytes(w: nat) -> nat {
    w * 4
}

/// A buffer that holds exactly `h` rows of `w` RGBA pixels.
pub open spec fn is_rgba(data: Seq<u8>, w: nat, h: nat) -> bool {
    data.len() == w * h * 4
}

// ---------------------------------------------------------------------------
// Tier 1: row fingerprints
// ---------------------------------------------------------------------------

/// The fingerprint of a byte string: std's `DefaultHasher` after a single write.
pub open spec fn fingerprint(bytes: Seq<u8>) -> u64 {
    DefaultHasher::spec_finish(Seq::<Seq<u8>>::empty().push(bytes))
}

/// The bytes of row `row` inside the compared column window.
pub open spec fn row_window(data: Seq<u8>, w: nat, row: int) -> Seq<u8> {
    data.subrange(row * row_bytes(w), row * row_bytes(w) + window_cols(w) * 4)
}

/// Fingerprints of the first `n` rows of a frame.
pub open spec fn fingerprints(data: Seq<u8>, w: nat, n: nat) -> Seq<u64> {
    Seq::new(n, |i: int| fingerprint(row_window(data, w, i)))
}

/// Under overlap `k`, row `r` of the later frame lines up with row `h - k + r`
/// of the earlier one; this says whether their fingerprints agree.
pub open spec fn row_agrees(ha: Seq<u64>, hb: Seq<u64>, h: nat, k: nat, r: int) -> bool {
    ha[h - k + r] == hb[r]
}

/// How many of the first `n` rows of the band agree under overlap `k`.
pub open spec fn band_matches(ha: Seq<u64>, hb: Seq<u64>, h: nat, k: nat, n: nat) -> nat
    decreases n,
{
    if n == 0 {
        0
    } else if row_agrees(ha, hb, h, k, n - 1) {
        band_matches(ha, hb, h, k, (n - 1) as nat) + 1
    } else {
        band_matches(ha, hb, h, k, (n - 1) as nat)
    }
}

/// Length of the run of agreeing rows that ends just before row `n`.
pub open spec fn run_ending(ha: Seq<u64>, hb: Seq<u64>, h: nat, k: nat, n: nat) -> nat
    decreases n,
{
    if n == 0 {
        0
    } else if row_agrees(ha, hb, h, k, n - 1) {
        run_ending(ha, hb, h, k, (n - 1) as nat) + 1
    } else {
        0
    }
}

/// Longest run of agreeing rows among the first `n` rows of the band.
pub open spec fn longest_run(ha: Seq<u64>, hb: Seq<u64>, h: nat, k: nat, n: nat) -> nat
    decreases n,
{
    if n == 0 {
        0
    } else {
        let prev = longest_run(ha, hb, h, k, (n - 1) as nat);
        let cur = run_ending(ha, hb, h, k, n);
        if cur > prev {
            cur
        } else {
            prev
        }
    }
}

/// Row `j` of the later frame carries the reference row's fingerprint, and the
/// overlap it implies, `j + h/6`, is a possible one.
pub open spec fn is_candidate(ha: Seq<u64>, hb: Seq<u64>, h: nat, j: nat) -> bool {
    &&& j < search_range(h)
    &&& hb[j as int] == ha[h - ref_offset(h)]
    &&& 0 < j + ref_offset(h) <= h
}

/// Score of one candidate overlap `k`: agreeing rows per thousand band rows.
pub open spec fn match_rate(ha: Seq<u64>, hb: Seq<u64>, h: nat, k: nat) -> nat {
    band_matches(ha, hb, h, k, k) * 1000 / k
}

/// Best candidate among rows `0..n` of the later frame, as
/// (overlap, rate, longest run, matches). A candidate replaces the one held
/// when its rate is higher, or its rate equal and its longest run longer;
/// so of equally good candidates the first one stays.
pub open spec fn best_candidate(ha: Seq<u64>, hb: Seq<u64>, h: nat, n: nat) -> (nat, nat, nat, nat)
    decreases n,
{
    if n == 0 {
        (0, 0, 0, 0)
    } else {
        let prev = best_candidate(ha, hb, h, (n - 1) as nat);
        let j = (n - 1) as nat;
        if is_candidate(ha, hb, h, j) {
            let k = j + ref_offset(h);
            let rate = match_rate(ha, hb, h, k);
            let run = longest_run(ha, hb, h, k, k);
            if rate > prev.1 || (rate == prev.1 && run > prev.2) {
                (k, rate, run, band_matches(ha, hb, h, k, k))
            } else {
                prev
            }
        } else {
            prev
        }
    }
}

/// The evidence bar: a run of eight agreeing rows, or agreeing rows that
/// number at least eight and at least a quarter of the band.
pub open spec fn is_convincing(k: nat, run: nat, matches: nat) -> bool {
    run >= MIN_RUN || (matches >= MIN_RUN && matches >= k / 4)
}

/// What fingerprint matching concludes from the row fingerprints of both
/// frames: the overlap, or `None` when the evidence is not convincing.
pub open spec fn fingerprint_overlap(ha: Seq<u64>, hb: Seq<u64>, h: nat) -> Option<nat> {
    let best = best_candidate(ha, hb, h, search_range(h));
    if is_convincing(best.0, best.2, best.3) {
        Some(if best.0 >= h { h } else { best.0 })
    } else {
        None
    }
}

// ---------------------------------------------------------------------------
// Tier 2: intensity fallback
// ---------------------------------------------------------------------------

/// Rows in the reference strip.
pub open spec fn strip_rows(h: nat) -> nat {
    if h / 4 < STRIP_ROWS { h / 4 } else { STRIP_ROWS as nat }
}

/// First row of the reference strip in the earlier frame: centred `h/6` rows
/// above the bottom edge, and kept inside the frame.
pub open spec fn strip_start(h: nat) -> nat {
    let centre = h - ref_offset(h);
    let up = if centre >= strip_rows(h) / 2 { centre - strip_rows(h) / 2 } else { 0 };
    if up <= h - strip_rows(h) { up as nat } else { (h - strip_rows(h)) as nat }
}

/// Last row of the later frame at which the strip may start.
pub open spec fn strip_limit(h: nat) -> nat {
    if search_range(h) >= strip_rows(h) { (search_range(h) - strip_rows(h)) as nat } else { 0 }
}

/// Sampled pixels per row: every fourth column of the compared window.
pub open spec fn samples_per_row(w: nat) -> nat {
    (window_cols(w) + 3) / 4
}

pub open spec fn abs_diff(x: u8, y: u8) -> nat {
    if x >= y { (x - y) as nat } else { (y - x) as nat }
}

/// Sum of the red, green and blue differences of the pixels at byte offsets
/// `ai` and `bi`.
pub open spec fn pixel_diff(a: Seq<u8>, b: Seq<u8>, ai: int, bi: int) -> nat {
    abs_diff(a[ai], b[bi]) + abs_diff(a[ai + 1], b[bi + 1]) + abs_diff(a[ai + 2], b[bi + 2])
}

/// Differences over the first `n` sampled pixels of row `ra` of A and row `rb` of B.
pub open spec fn row_diff(a: Seq<u8>, b: Seq<u8>, w: nat, ra: nat, rb: nat, n: nat) -> nat
    decreases n,
{
    if n == 0 {
        0
    } else {
        let off = 16 * (n - 1);
        row_diff(a, b, w, ra, rb, (n - 1) as nat)
            + pixel_diff(a, b, ra * row_bytes(w) + off, rb * row_bytes(w) + off)
    }
}

/// Differences over the first `n` rows of the reference strip, with the strip
/// laid at row `pos` of B.
pub open spec fn strip_diff(a: Seq<u8>, b: Seq<u8>, w: nat, h: nat, pos: nat, n: nat) -> nat
    decreases n,
{
    if n == 0 {
        0
    } else {
        strip_diff(a, b, w, h, pos, (n - 1) as nat) + row_diff(
            a,
            b,
            w,
            strip_start(h) + (n - 1) as nat,
            pos + (n - 1) as nat,
            samples_per_row(w),
        )
    }
}

/// First position among `0..=n` at which the strip differs least from B, with
/// that difference.
pub open spec fn best_position(a: Seq<u8>, b: Seq<u8>, w: nat, h: nat, n: nat) -> (nat, nat)
    decreases n,
{
    let here = strip_diff(a, b, w, h, n, strip_rows(h));
    if n == 0 {
        (0, here)
    } else {
        let prev = best_position(a, b, w, h, (n - 1) as nat);
        if here < prev.1 {
            (n, here)
        } else {
            prev
        }
    }
}

/// What the intensity fallback concludes. The mean difference per compared
/// channel is `diff / (3 * rows * samples)`; it is accepted up to the noise
/// threshold.
pub open spec fn intensity_overlap(a: Seq<u8>, b: Seq<u8>, w: nat, h: nat) -> nat {
    let best = best_position(a, b, w, h, strip_limit(h));
    let compared = 3 * strip_rows(h) * samples_per_row(w);
    if best.1 > NOISE_THRESHOLD * compared {
        0
    } else {
        let k = h - strip_start(h) + best.0;
        if k >= h { h } else { k as nat }
    }
}

/// What the intensity fallback returns for any input: zero where there is
/// nothing to compare (no columns, no strip rows, or buffers of the wrong
/// size), else `intensity_overlap`.
pub open spec fn intensity_result(a: Seq<u8>, b: Seq<u8>, w: nat, h: nat) -> nat {
    if w == 0 || strip_rows(h) == 0 || !is_rgba(a, w, h) || !is_rgba(b, w, h) {
        0
    } else {
        intensity_overlap(a, b, w, h)
    }
}

/// The overlap between the earlier frame `a` and the later frame `b`.
pub open spec fn overlap_of(a: Seq<u8>, b: Seq<u8>, w: nat, h: nat) -> nat {
    if w == 0 || h < MIN_HEIGHT || !is_rgba(a, w, h) || !is_rgba(b, w, h) {
        0
    } else {
        match fingerprint_overlap(fingerprints(a, w, h), fingerprints(b, w, h), h) {
            Some(k) => k,
            None => intensity_overlap(a, b, w, h),
        }
    }
}


// ---------------------------------------------------------------------------
// Executable detector
// ---------------------------------------------------------------------------

proof fn lemma_row_fits(w: nat, h: nat, row: nat)
    requires
        row < h,
    ensures
        row * row_bytes(w) + row_bytes(w) <= w * h * 4,
        window_cols(w) * 4 <= row_bytes(w),
{
    assert(row * (w * 4) + w * 4 <= w * h * 4) by (nonlinear_arith)
        requires
            row < h,
    ;
}

/// Fingerprint of bytes `row * bpr .. row * bpr + byte_end` of `data`: the
/// first `byte_end` bytes of row `row` when rows are `bpr` bytes long. When
/// that range does not lie inside `data`, the fingerprint of no bytes at all
/// (a hasher that was never written to).
fn hash_row(data: &[u8], row: usize, bpr: usize, byte_end: usize) -> (r: u64)
    ensures
        row * bpr + byte_end <= data@.len() ==> r == fingerprint(
            data@.subrange(row * bpr, row * bpr + byte_end),
        ),
        row * bpr + byte_end > data@.len() ==> r == DefaultHasher::spec_finish(
            Seq::<Seq<u8>>::empty(),
        ),
{
    let n = data.len();
    let range = match row.checked_mul(bpr) {
        None => None,
        Some(start) => match start.checked_add(byte_end) {
            None => None,
            Some(end) => if end <= n {
                Some(start)
            } else {
                None
            },
        },
    };
    let mut hasher = DefaultHasher::new();
    if let Some(start) = range {
        hasher.write(slice_subrange(data, start, start + byte_end));
    }
    hasher.finish()
}

/// Fingerprints of all `h` rows of a frame.
fn row_hashes(data: &[u8], w: usize, h: usize) -> (r: Vec<u64>)
    requires
        0 < w,
        0 < h,
        is_rgba(data@, w as nat, h as nat),
    ensures
        r@ == fingerprints(data@, w as nat, h as nat),
{
    let n = data.len();
    proof {
        lemma_row_fits(w as nat, h as nat, 0);
    }
    let bpr = w * 4;
    let byte_end = (w - w / 20) * 4;
    let mut v: Vec<u64> = Vec::new();
    let mut i: usize = 0;
    while i < h
        invariant
            i <= h,
            bpr == row_bytes(w as nat),
            byte_end == window_cols(w as nat) * 4,
            is_rgba(data@, w as nat, h as nat),
            v@.len() == i,
            forall|j: int| 0 <= j < i ==> v@[j] == fingerprint(row_window(data@, w as nat, j)),
        decreases h - i,
    {
        proof {
            lemma_row_fits(w as nat, h as nat, i as nat);
        }
        let f = hash_row(data, i, bpr, byte_end);
        v.push(f);
        i = i + 1;
    }
    assert(v@ =~= fingerprints(data@, w as nat, h as nat));
    v
}

proof fn lemma_band_bounds(ha: Seq<u64>, hb: Seq<u64>, h: nat, k: nat, n: nat)
    ensures
        band_matches(ha, hb, h, k, n) <= n,
        run_ending(ha, hb, h, k, n) <= n,
        longest_run(ha, hb, h, k, n) <= n,
    decreases n,
{
    if n > 0 {
        lemma_band_bounds(ha, hb, h, k, (n - 1) as nat);
    }
}

/// Agreeing rows and longest agreeing run of the band under overlap `k`.
fn band_stats(ha: &Vec<u64>, hb: &Vec<u64>, h: usize, k: usize) -> (r: (usize, usize))
    requires
        ha@.len() == h,
        hb@.len() == h,
        0 < k <= h,
    ensures
        r.0 == band_matches(ha@, hb@, h as nat, k as nat, k as nat),
        r.1 == longest_run(ha@, hb@, h as nat, k as nat, k as nat),
{
    let a_start = h - k;
    let mut longest: usize = 0;
    let mut current: usize = 0;
    let mut total: usize = 0;
    let mut r: usize = 0;
    while r < k
        invariant
            r <= k,
            a_start == h - k,
            ha@.len() == h,
            hb@.len() == h,
            0 < k <= h,
            total == band_matches(ha@, hb@, h as nat, k as nat, r as nat),
            current == run_ending(ha@, hb@, h as nat, k as nat, r as nat),
            longest == longest_run(ha@, hb@, h as nat, k as nat, r as nat),
        decreases k - r,
    {
        proof {
            lemma_band_bounds(ha@, hb@, h as nat, k as nat, r as nat);
        }
        if ha[a_start + r] == hb[r] {
            current = current + 1;
            total = total + 1;
            if current > longest {
                longest = current;
            }
        } else {
            current = 0;
        }
        r = r + 1;
    }
    (total, longest)
}

/// Fingerprint matching on the row fingerprints of two frames of `height`
/// rows: `Some(overlap)` when a candidate alignment clears the evidence bar,
/// `None` otherwise.
pub fn match_row_hashes(ha: &Vec<u64>, hb: &Vec<u64>, height: usize) -> (r: Option<usize>)
    requires
        ha@.len() == height,
        hb@.len() == height,
        MIN_HEIGHT <= height,
    ensures
        r matches Some(k) ==> fingerprint_overlap(ha@, hb@, height as nat) == Some(k as nat),
        r is None ==> fingerprint_overlap(ha@, hb@, height as nat) is None,
{
    let h = height;
    let sr = ((h as u128) * 19 / 20) as usize;
    let d = h / 6;
    let ref_hash = ha[h - d];
    let mut best_k: usize = 0;
    let mut best_rate: usize = 0;
    let mut best_run: usize = 0;
    let mut best_matches: usize = 0;
    let mut j: usize = 0;
    while j < sr
        invariant
            j <= sr,
            sr == search_range(h as nat),
            sr <= h,
            d == ref_offset(h as nat),
            h == height,
            MIN_HEIGHT <= h,
            ha@.len() == h,
            hb@.len() == h,
            ref_hash == ha@[h - d],
            (best_k as nat, best_rate as nat, best_run as nat, best_matches as nat)
                == best_candidate(ha@, hb@, h as nat, j as nat),
        decreases sr - j,
    {
        if hb[j] == ref_hash && j <= h - d {
            let k = j + d;
            let (m, run) = band_stats(ha, hb, h, k);
            proof {
                lemma_band_bounds(ha@, hb@, h as nat, k as nat, k as nat);
                assert((m as int) * 1000 / (k as int) <= 1000) by (nonlinear_arith)
                    requires
                        m <= k,
                        0 < k,
                ;
            }
            let rate = ((m as u128) * 1000 / (k as u128)) as usize;
            if rate > best_rate || (rate == best_rate && run > best_run) {
                best_k = k;
                best_rate = rate;
                best_run = run;
                best_matches = m;
            }
        }
        j = j + 1;
    }
    let min_matches = if best_k / 4 > MIN_RUN { best_k / 4 } else { MIN_RUN };
    if best_matches < min_matches && best_run < MIN_RUN {
        None
    } else if best_k >= h {
        Some(h)
    } else {
        Some(best_k)
    }
}

proof fn lemma_sample_fits(w: nat, p: nat)
    requires
        p < samples_per_row(w),
    ensures
        16 * p + 3 < window_cols(w) * 4,
        window_cols(w) <= w,
{
}

fn byte_diff(x: u8, y: u8) -> (r: u16)
    ensures
        r == abs_diff(x, y),
{
    if x >= y {
        (x - y) as u16
    } else {
        (y - x) as u16
    }
}

/// Channel differences over the sampled pixels of row `ra` of `a` and row `rb` of `b`.
fn row_difference(a: &[u8], b: &[u8], w: usize, h: usize, ra: usize, rb: usize) -> (r: u128)
    requires
        0 < w,
        is_rgba(a@, w as nat, h as nat),
        is_rgba(b@, w as nat, h as nat),
        ra < h,
        rb < h,
    ensures
        r == row_diff(a@, b@, w as nat, ra as nat, rb as nat, samples_per_row(w as nat)),
        r <= 765 * samples_per_row(w as nat),
{
    let alen = a.len();
    let blen = b.len();
    proof {
        lemma_row_fits(w as nat, h as nat, ra as nat);
        lemma_row_fits(w as nat, h as nat, rb as nat);
    }
    let bpr = w * 4;
    let a_base = ra * bpr;
    let b_base = rb * bpr;
    let n = (w - w / 20 + 3) / 4;
    let mut sum: u128 = 0;
    let mut p: usize = 0;
    while p < n
        invariant
            p <= n,
            n == samples_per_row(w as nat),
            bpr == row_bytes(w as nat),
            a_base == ra * row_bytes(w as nat),
            b_base == rb * row_bytes(w as nat),
            a_base + bpr <= alen,
            b_base + bpr <= blen,
            alen == a@.len(),
            blen == b@.len(),
            sum == row_diff(a@, b@, w as nat, ra as nat, rb as nat, p as nat),
            sum <= 765 * p,
        decreases n - p,
    {
        proof {
            lemma_sample_fits(w as nat, p as nat);
        }
        let off = p * 16;
        let ai = a_base + off;
        let bi = b_base + off;
        let d = byte_diff(a[ai], b[bi]) as u128 + byte_diff(a[ai + 1], b[bi + 1]) as u128
            + byte_diff(a[ai + 2], b[bi + 2]) as u128;
        sum = sum + d;
        p = p + 1;
    }
    sum
}

/// Channel differences between the reference strip of `a` and the rows of `b`
/// from `pos` on.
fn strip_difference(
    a: &[u8],
    b: &[u8],
    w: usize,
    h: usize,
    start: usize,
    rows: usize,
    pos: usize,
) -> (r: u128)
    requires
        0 < w,
        is_rgba(a@, w as nat, h as nat),
        is_rgba(b@, w as nat, h as nat),
        start == strip_start(h as nat),
        rows == strip_rows(h as nat),
        start + rows <= h,
        pos + rows <= h,
    ensures
        r == strip_diff(a@, b@, w as nat, h as nat, pos as nat, rows as nat),
        r <= 765 * samples_per_row(w as nat) * rows,
{
    let mut sum: u128 = 0;
    let mut r: usize = 0;
    while r < rows
        invariant
            r <= rows,
            0 < w,
            is_rgba(a@, w as nat, h as nat),
            is_rgba(b@, w as nat, h as nat),
            start == strip_start(h as nat),
            rows == strip_rows(h as nat),
            start + rows <= h,
            pos + rows <= h,
            sum == strip_diff(a@, b@, w as nat, h as nat, pos as nat, r as nat),
            sum <= 765 * samples_per_row(w as nat) * r,
        decreases rows - r,
    {
        let d = row_difference(a, b, w, h, start + r, pos + r);
        proof {
            let s = samples_per_row(w as nat);
            assert(765 * s * r + 765 * s == 765 * s * (r + 1)) by (nonlinear_arith);
            assert(765 * s * (r + 1) <= 765 * s * 10) by (nonlinear_arith)
                requires
                    r + 1 <= 10,
            ;
            lemma_sample_fits(w as nat, 0);
        }
        sum = sum + d;
        r = r + 1;
    }
    sum
}

/// Intensity fallback: slides the reference strip through the later frame and
/// keeps the first position of least difference, accepted below the noise
/// threshold. Zero when there is nothing to compare: no columns, a strip of
/// no rows (fewer than four rows), or buffers that are not `w` x `h` RGBA
/// frames.
fn find_overlap_sad(a: &[u8], b: &[u8], w: usize, h: usize) -> (r: usize)
    ensures
        r == intensity_result(a@, b@, w as nat, h as nat),
        r <= h,
{
    let la = a.len();
    let lb = b.len();
    if w == 0 || h / 4 == 0 {
        return 0;
    }
    let expected = match w.checked_mul(h) {
        None => {
            return 0;
        },
        Some(px) => match px.checked_mul(4) {
            None => {
                return 0;
            },
            Some(n) => n,
        },
    };
    if la != expected || lb != expected {
        return 0;
    }
    let rows = if h / 4 < STRIP_ROWS { h / 4 } else { STRIP_ROWS };
    let centre = h - h / 6;
    let up = if centre >= rows / 2 { centre - rows / 2 } else { 0 };
    let start = if up <= h - rows { up } else { h - rows };
    let sr = ((h as u128) * 19 / 20) as usize;
    let limit = if sr >= rows { sr - rows } else { 0 };
    let mut best_pos: usize = 0;
    let mut best = strip_difference(a, b, w, h, start, rows, 0);
    let mut c: usize = 1;
    while c <= limit
        invariant
            1 <= c <= limit + 1,
            limit == strip_limit(h as nat),
            limit + rows <= h,
            0 < w,
            4 <= h,
            is_rgba(a@, w as nat, h as nat),
            is_rgba(b@, w as nat, h as nat),
            start == strip_start(h as nat),
            rows == strip_rows(h as nat),
            start + rows <= h,
            (best_pos as nat, best as nat) == best_position(
                a@,
                b@,
                w as nat,
                h as nat,
                (c - 1) as nat,
            ),
        decreases limit + 1 - c,
    {
        let here = strip_difference(a, b, w, h, start, rows, c);
        if here < best {
            best = here;
            best_pos = c;
        }
        c = c + 1;
    }
    let samples = ((w - w / 20 + 3) / 4) as u128;
    proof {
        lemma_sample_fits(w as nat, 0);
        assert(3 * (rows as int) * (samples as int) <= 30 * (w as int)) by (nonlinear_arith)
            requires
                rows <= 10,
                samples <= w,
        ;
    }
    let compared = 3 * (rows as u128) * samples;
    if best > NOISE_THRESHOLD * compared {
        0
    } else if best_pos >= start {
        h
    } else {
        h - (start - best_pos)
    }
}

/// Number of pixel rows by which `rows_b`, captured after scrolling down,
/// continues `rows_a`: its top rows repeat that many bottom rows of
/// `rows_a`. Zero means that no reliable match was found (or that the
/// buffers are not `width` x `height` RGBA frames, or are shorter than
/// `MIN_HEIGHT` rows).
pub fn find_overlap(rows_a: &[u8], rows_b: &[u8], width: usize, height: usize) -> (r: usize)
    ensures
        r == overlap_of(rows_a@, rows_b@, width as nat, height as nat),
        r <= height,
{
    let la = rows_a.len();
    let lb = rows_b.len();
    if width == 0 || height < MIN_HEIGHT {
        return 0;
    }
    let expected = match width.checked_mul(height) {
        None => {
            return 0;
        },
        Some(px) => match px.checked_mul(4) {
            None => {
                return 0;
            },
            Some(n) => n,
        },
    };
    if la != expected || lb != expected {
        return 0;
    }
    let ha = row_hashes(rows_a, width, height);
    let hb = row_hashes(rows_b, width, height);
    match match_row_hashes(&ha, &hb, height) {
        Some(k) => k,
        None => find_overlap_sad(rows_a, rows_b, width, height),
    }
}

/// The candidate that fingerprint matching keeps scores at least as well as
/// every candidate among rows `0..n`: none has a higher rate, or the same
/// rate and a longer run.
pub proof fn lemma_best_candidate_is_maximal(ha: Seq<u64>, hb: Seq<u64>, h: nat, n: nat, j: nat)
    requires
        j < n,
        is_candidate(ha, hb, h, j),
    ensures
        ({
            let best = best_candidate(ha, hb, h, n);
            let k = j + ref_offset(h);
            let rate = match_rate(ha, hb, h, k);
            let run = longest_run(ha, hb, h, k, k);
            !(rate > best.1 || (rate == best.1 && run > best.2))
        }),
    decreases n,
{
    if j < n - 1 {
        lemma_best_candidate_is_maximal(ha, hb, h, (n - 1) as nat, j);
    }
}

/// The strip position that the intensity fallback keeps differs least from
/// `b` among positions `0..=n`.
pub proof fn lemma_best_position_is_minimal(a: Seq<u8>, b: Seq<u8>, w: nat, h: nat, n: nat, c: nat)
    requires
        c <= n,
    ensures
        best_position(a, b, w, h, n).1 <= strip_diff(a, b, w, h, c, strip_rows(h)),
        best_position(a, b, w, h, n).1 == strip_diff(
            a,
            b,
            w,
            h,
            best_position(a, b, w, h, n).0,
            strip_rows(h),
        ),
        best_position(a, b, w, h, n).0 <= n,
    decreases n,
{
    if n > 0 {
        if c < n {
            lemma_best_position_is_minimal(a, b, w, h, (n - 1) as nat, c);
        } else {
            lemma_best_position_is_minimal(a, b, w, h, (n - 1) as nat, 0);
        }
    }
}

// ---------------------------------------------------------------------------
// Laws
// ---------------------------------------------------------------------------

/// Bytes of row `i` of a frame `w` pixels wide.
pub open spec fn row_of(data: Seq<u8>, w: nat, i: int) -> Seq<u8> {
    data.subrange(i * row_bytes(w), (i + 1) * row_bytes(w))
}

proof fn lemma_equal_rows_equal_fingerprints(a: Seq<u8>, b: Seq<u8>, w: nat, h: nat, i: int, j: int)
    requires
        is_rgba(a, w, h),
        is_rgba(b, w, h),
        0 <= i < h,
        0 <= j < h,
        row_of(a, w, i) == row_of(b, w, j),
    ensures
        fingerprints(a, w, h)[i] == fingerprints(b, w, h)[j],
{
    lemma_row_fits(w, h, i as nat);
    lemma_row_fits(w, h, j as nat);
    assert(i * (w * 4) + w * 4 == (i + 1) * (w * 4)) by (nonlinear_arith);
    assert(j * (w * 4) + w * 4 == (j + 1) * (w * 4)) by (nonlinear_arith);
    assert(i * (w * 4) >= 0) by (nonlinear_arith)
        requires
            i >= 0,
    ;
    assert(j * (w * 4) >= 0) by (nonlinear_arith)
        requires
            j >= 0,
    ;
    let e = window_cols(w) * 4;
    assert(row_window(a, w, i) =~= row_of(a, w, i).subrange(0, e as int));
    assert(row_window(b, w, j) =~= row_of(b, w, j).subrange(0, e as int));
}

/// Agreeing rows of a band of `k` rows in which every row but `skip` agrees.
proof fn lemma_band_count(ha: Seq<u64>, hb: Seq<u64>, h: nat, k: nat, skip: int, n: nat)
    requires
        n <= k,
        forall|r: int| 0 <= r < k && r != skip ==> row_agrees(ha, hb, h, k, r),
    ensures
        band_matches(ha, hb, h, k, n) >= n - (if 0 <= skip < n { 1int } else { 0int }),
        band_matches(ha, hb, h, k, n) <= n,
    decreases n,
{
    if n > 0 {
        lemma_band_count(ha, hb, h, k, skip, (n - 1) as nat);
    }
}

/// When row `j0` alone carries the reference fingerprint, it is the best candidate.
proof fn lemma_lone_candidate(ha: Seq<u64>, hb: Seq<u64>, h: nat, j0: nat, n: nat)
    requires
        is_candidate(ha, hb, h, j0),
        forall|j: nat| j < search_range(h) && j != j0 ==> !is_candidate(ha, hb, h, j),
        match_rate(ha, hb, h, j0 + ref_offset(h)) > 0,
        n <= search_range(h),
    ensures
        n <= j0 ==> best_candidate(ha, hb, h, n) == (0nat, 0nat, 0nat, 0nat),
        n > j0 ==> best_candidate(ha, hb, h, n) == {
            let k = j0 + ref_offset(h);
            (k, match_rate(ha, hb, h, k), longest_run(ha, hb, h, k, k), band_matches(ha, hb, h, k, k))
        },
    decreases n,
{
    if n > 0 {
        lemma_lone_candidate(ha, hb, h, j0, (n - 1) as nat);
    }
}

/// The common core of the two laws below: the band agrees but for row
/// `skip`, which is not the reference row, and the reference fingerprint
/// occurs in `b`'s search range only where the true overlap puts it.
proof fn lemma_band_detected(a: Seq<u8>, b: Seq<u8>, w: nat, h: nat, k: nat, skip: int)
    requires
        w > 0,
        h >= MIN_HEIGHT,
        is_rgba(a, w, h),
        is_rgba(b, w, h),
        ref_offset(h) <= k <= h,
        MIN_RUN + (if 0 <= skip < k { 1int } else { 0int }) <= k,
        skip != k - ref_offset(h),
        forall|r: int|
            0 <= r < k && r != skip ==> #[trigger] row_of(a, w, h - k + r) == row_of(b, w, r),
        forall|j: int|
            0 <= j < search_range(h) && j != k - ref_offset(h) ==> fingerprint(
                #[trigger] row_window(b, w, j),
            ) != fingerprint(row_window(a, w, h - ref_offset(h))),
    ensures
        overlap_of(a, b, w, h) == k,
{
    let ha = fingerprints(a, w, h);
    let hb = fingerprints(b, w, h);
    let d = ref_offset(h);
    let j0 = (k - d) as nat;
    assert forall|r: int| 0 <= r < k && r != skip implies row_agrees(ha, hb, h, k, r) by {
        lemma_equal_rows_equal_fingerprints(a, b, w, h, h - k + r, r);
    }
    assert(row_agrees(ha, hb, h, k, j0 as int));
    assert(h - k + j0 == h - d);
    assert(j0 < search_range(h));
    assert(is_candidate(ha, hb, h, j0));
    assert forall|j: nat| j < search_range(h) && j != j0 implies !is_candidate(ha, hb, h, j) by {
        assert(hb[j as int] == fingerprint(row_window(b, w, j as int)));
        assert(ha[h - d] == fingerprint(row_window(a, w, h - d)));
    }
    lemma_band_count(ha, hb, h, k, skip, k);
    let m = band_matches(ha, hb, h, k, k);
    assert(m * 1000 / k >= 1) by (nonlinear_arith)
        requires
            m >= 1,
            m <= k,
            k > 0,
            m + 1 >= k,
            k >= 2,
    ;
    lemma_lone_candidate(ha, hb, h, j0, search_range(h));
}

/// A true overlap of `k` rows is found: when the last `k` rows of `a` are
/// byte-identical to the first `k` rows of `b`, and `b` is otherwise
/// unrelated to `a` in that no other row of `b`'s search range shares the
/// reference row's fingerprint, the detector returns exactly `k`. This needs
/// the reference row, `h/6` rows above `a`'s bottom edge, to lie in the band,
/// and at least `MIN_RUN` rows of evidence.
pub proof fn lemma_true_overlap_detected(a: Seq<u8>, b: Seq<u8>, w: nat, h: nat, k: nat)
    requires
        w > 0,
        h >= MIN_HEIGHT,
        is_rgba(a, w, h),
        is_rgba(b, w, h),
        ref_offset(h) <= k <= h,
        MIN_RUN <= k,
        forall|r: int| 0 <= r < k ==> #[trigger] row_of(a, w, h - k + r) == row_of(b, w, r),
        forall|j: int|
            0 <= j < search_range(h) && j != k - ref_offset(h) ==> fingerprint(
                #[trigger] row_window(b, w, j),
            ) != fingerprint(row_window(a, w, h - ref_offset(h))),
    ensures
        overlap_of(a, b, w, h) == k,
{
    lemma_band_detected(a, b, w, h, k, -1);
}

/// One differing row inside an otherwise true overlap of `k` rows (a
/// blinking cursor, a moving highlight) does not lower the detected overlap:
/// under the conditions of `lemma_true_overlap_detected`, with row `skip` of
/// the band differing, the detector still returns `k`, provided the differing
/// row is not the reference row itself and `k > MIN_RUN`.
pub proof fn lemma_isolated_row_tolerated(a: Seq<u8>, b: Seq<u8>, w: nat, h: nat, k: nat, skip: int)
    requires
        w > 0,
        h >= MIN_HEIGHT,
        is_rgba(a, w, h),
        is_rgba(b, w, h),
        ref_offset(h) <= k <= h,
        MIN_RUN < k,
        0 <= skip < k,
        skip != k - ref_offset(h),
        forall|r: int|
            0 <= r < k && r != skip ==> #[trigger] row_of(a, w, h - k + r) == row_of(b, w, r),
        forall|j: int|
            0 <= j < search_range(h) && j != k - ref_offset(h) ==> fingerprint(
                #[trigger] row_window(b, w, j),
            ) != fingerprint(row_window(a, w, h - ref_offset(h))),
    ensures
        overlap_of(a, b, w, h) == k,
{
    lemma_band_detected(a, b, w, h, k, skip);
}


proof fn lemma_no_candidate(ha: Seq<u64>, hb: Seq<u64>, h: nat, n: nat)
    requires
        forall|j: nat| j < n ==> !is_candidate(ha, hb, h, j),
    ensures
        best_candidate(ha, hb, h, n) == (0nat, 0nat, 0nat, 0nat),
    decreases n,
{
    if n > 0 {
        lemma_no_candidate(ha, hb, h, (n - 1) as nat);
    }
}

/// Unrelated frames have no overlap: when no row of `b`'s search range shares
/// the reference row's fingerprint, and the reference strip differs from `b`
/// by more than the noise threshold at every position it is tried, the
/// detector returns zero.
pub proof fn lemma_unrelated_frames_no_overlap(a: Seq<u8>, b: Seq<u8>, w: nat, h: nat)
    requires
        w > 0,
        h >= MIN_HEIGHT,
        is_rgba(a, w, h),
        is_rgba(b, w, h),
        forall|j: int|
            0 <= j < search_range(h) ==> fingerprint(#[trigger] row_window(b, w, j)) != fingerprint(
                row_window(a, w, h - ref_offset(h)),
            ),
        forall|p: nat|
            p <= strip_limit(h) ==> #[trigger] strip_diff(a, b, w, h, p, strip_rows(h))
                > NOISE_THRESHOLD * (3 * strip_rows(h) * samples_per_row(w)),
    ensures
        overlap_of(a, b, w, h) == 0,
{
    let ha = fingerprints(a, w, h);
    let hb = fingerprints(b, w, h);
    assert forall|j: nat| j < search_range(h) implies !is_candidate(ha, hb, h, j) by {
        assert(hb[j as int] == fingerprint(row_window(b, w, j as int)));
        assert(ha[h - ref_offset(h)] == fingerprint(row_window(a, w, h - ref_offset(h))));
    }
    lemma_no_candidate(ha, hb, h, search_range(h));
    lemma_best_position_is_minimal(a, b, w, h, strip_limit(h), 0);
    let best = best_position(a, b, w, h, strip_limit(h));
    assert(strip_diff(a, b, w, h, best.0, strip_rows(h)) > NOISE_THRESHOLD * (3 * strip_rows(h)
        * samples_per_row(w)));
}


/// The intensity fallback settles on the first position where the strip
/// matches `b` exactly: with `p0` the least position of zero difference
/// among `0..=n`, the best position among `0..=n` is `p0`.
pub proof fn lemma_first_exact_match(a: Seq<u8>, b: Seq<u8>, w: nat, h: nat, n: nat, p0: nat)
    requires
        p0 <= n,
        strip_diff(a, b, w, h, p0, strip_rows(h)) == 0,
        forall|p: nat| p < p0 ==> #[trigger] strip_diff(a, b, w, h, p, strip_rows(h)) > 0,
    ensures
        best_position(a, b, w, h, n) == (p0, 0nat),
    decreases n,
{
    if n > p0 {
        lemma_first_exact_match(a, b, w, h, (n - 1) as nat, p0);
    } else if n > 0 {
        lemma_best_position_is_minimal(a, b, w, h, (n - 1) as nat, 0);
        let prev = best_position(a, b, w, h, (n - 1) as nat);
        assert(strip_diff(a, b, w, h, prev.0, strip_rows(h)) > 0);
    }
}

} // verus!
