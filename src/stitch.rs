//! Composition of consecutive frames into one tall image, dropping the rows
//! that each frame repeats from the one before.
use vstd::prelude::*;
use crate::frame::RgbaImage;
use crate::overlap::{find_overlap, is_rgba, overlap_of, row_bytes};

verus! {

/// Rows that a frame of height `h` adds below its predecessor when they
/// overlap by `k` rows: `max(0, h - k)`.
pub open spec fn added_rows(h: nat, k: nat) -> nat {
    if k >= h { 0 } else { (h - k) as nat }
}

/// Height of the composed image: `h + sum of max(0, h - k)` over the overlaps.
pub open spec fn stitched_height(h: nat, overlaps: Seq<nat>) -> nat
    decreases overlaps.len(),
{
    if overlaps.len() == 0 {
        h
    } else {
        stitched_height(h, overlaps.drop_last()) + added_rows(h, overlaps.last())
    }
}

/// The rows of a frame kept under overlap `k`: from row `min(k, h)` to its end.
pub open spec fn kept_rows(data: Seq<u8>, w: nat, h: nat, k: nat) -> Seq<u8> {
    data.subrange((h - added_rows(h, k)) * row_bytes(w), (h * row_bytes(w)) as int)
}

/// Bytes of the composed image: the first frame whole, then the kept rows of
/// each later frame, in order. `overlaps[i]` is the overlap of frames `i` and
/// `i + 1`.
pub open spec fn stitched_data(frames: Seq<Seq<u8>>, overlaps: Seq<nat>, w: nat, h: nat) -> Seq<u8>
    decreases overlaps.len(),
{
    if overlaps.len() == 0 {
        frames[0]
    } else {
        let n = overlaps.len();
        stitched_data(frames, overlaps.drop_last(), w, h) + kept_rows(
            frames[n as int],
            w,
            h,
            overlaps[n - 1],
        )
    }
}

/// Every frame has the size of the first and holds that many pixels.
pub open spec fn uniform(frames: Seq<RgbaImage>) -> bool {
    forall|i: int|
        #![trigger frames[i]]
        0 <= i < frames.len() ==> {
            &&& frames[i].width == frames[0].width
            &&& frames[i].height == frames[0].height
            &&& frames[i].wf()
        }
}

pub open spec fn frame_bytes(frames: Seq<RgbaImage>) -> Seq<Seq<u8>> {
    frames.map_values(|f: RgbaImage| f.data@)
}

pub open spec fn as_nats(v: Seq<usize>) -> Seq<nat> {
    v.map_values(|k: usize| k as nat)
}

/// Overlap of each consecutive pair, as the detector finds it.
pub open spec fn frame_overlaps(frames: Seq<RgbaImage>) -> Seq<nat> {
    Seq::new(
        (frames.len() - 1) as nat,
        |i: int|
            overlap_of(
                frames[i].data@,
                frames[i + 1].data@,
                frames[0].width as nat,
                frames[0].height as nat,
            ),
    )
}

/// An image of `w` x `rows` pixels can be held in memory.
pub open spec fn fits(w: nat, rows: nat) -> bool {
    w * rows * 4 <= usize::MAX
}

/// The frames can be stitched: there is at least one, all share one nonzero
/// size, and the composed image can be held in memory.
pub open spec fn stitchable(frames: Seq<RgbaImage>) -> bool {
    &&& frames.len() > 0
    &&& uniform(frames)
    &&& frames[0].width > 0
    &&& frames[0].height > 0
    &&& fits(frames[0].width as nat, stitched_height(frames[0].height as nat, frame_overlaps(frames)))
}

proof fn lemma_height_min(h: nat, ov: Seq<nat>)
    ensures
        h <= stitched_height(h, ov),
    decreases ov.len(),
{
    if ov.len() > 0 {
        lemma_height_min(h, ov.drop_last());
    }
}

proof fn lemma_height_grows(h: nat, ov: Seq<nat>, i: nat)
    requires
        i <= ov.len(),
    ensures
        h <= stitched_height(h, ov.take(i as int)) <= stitched_height(h, ov),
    decreases ov.len() - i,
{
    lemma_height_min(h, ov.take(i as int));
    if i < ov.len() {
        lemma_height_grows(h, ov, i + 1);
        assert(ov.take(i + 1 as int).drop_last() =~= ov.take(i as int));
    } else {
        assert(ov.take(i as int) =~= ov);
    }
}

/// For any overlap sequence, the composed image has `h + sum of max(0, h - k)`
/// rows (the definition of `stitched_height`) of `w` pixels: its bytes are
/// `4 * w` for each of those rows.
pub proof fn lemma_stitched_len(frames: Seq<Seq<u8>>, ov: Seq<nat>, w: nat, h: nat)
    requires
        frames.len() > ov.len(),
        forall|i: int| 0 <= i < frames.len() ==> is_rgba(#[trigger] frames[i], w, h),
    ensures
        stitched_data(frames, ov, w, h).len() == row_bytes(w) * stitched_height(h, ov),
    decreases ov.len(),
{
    assert(w * h * 4 == w * 4 * h) by (nonlinear_arith);
    if ov.len() > 0 {
        let n = ov.len();
        let prev = ov.drop_last();
        lemma_stitched_len(frames, prev, w, h);
        let k = ov[n - 1];
        let a = added_rows(h, k);
        assert((h - a) * (w * 4) + a * (w * 4) == h * (w * 4)) by (nonlinear_arith)
            requires
                a <= h,
        ;
        assert((h - a) * (w * 4) >= 0) by (nonlinear_arith)
            requires
                a <= h,
        ;
        assert(a * (w * 4) >= 0) by (nonlinear_arith);
        assert(h * (w * 4) == w * h * 4) by (nonlinear_arith);
        let st: int = (h - a) * row_bytes(w);
        let en: int = (h * row_bytes(w)) as int;
        assert(en == frames[n as int].len());
        assert(kept_rows(frames[n as int], w, h, k) == frames[n as int].subrange(st, en));
        assert(stitched_data(frames, ov, w, h) == stitched_data(frames, prev, w, h) + kept_rows(
            frames[n as int],
            w,
            h,
            k,
        ));
        assert(w * 4 * stitched_height(h, prev) + w * 4 * a == w * 4 * (stitched_height(h, prev)
            + a)) by (nonlinear_arith);
    }
}

/// A single frame stitches to itself: same size, same bytes.
pub proof fn lemma_single_frame_identity(f: RgbaImage)
    requires
        f.wf(),
        f.width > 0,
        f.height > 0,
    ensures
        stitchable(seq![f]),
        stitched_height(f.height as nat, frame_overlaps(seq![f])) == f.height,
        stitched_data(frame_bytes(seq![f]), frame_overlaps(seq![f]), f.width as nat, f.height as nat)
            == f.data@,
{
    let fs = seq![f];
    assert(frame_overlaps(fs) =~= Seq::<nat>::empty());
    assert(fs[0] == f);
    assert(uniform(fs));
}

/// Stitching depends on the frames' sizes and bytes alone: two frame lists
/// that agree on those stitch to the same result, so stitching one list twice
/// gives identical output.
pub proof fn lemma_stitch_deterministic(a: Seq<RgbaImage>, b: Seq<RgbaImage>)
    requires
        a.len() == b.len(),
        forall|i: int|
            0 <= i < a.len() ==> {
                &&& (#[trigger] a[i]).width == b[i].width
                &&& a[i].height == b[i].height
                &&& a[i].data@ == b[i].data@
            },
    ensures
        stitchable(a) == stitchable(b),
        a.len() > 0 ==> stitched_height(a[0].height as nat, frame_overlaps(a)) == stitched_height(
            b[0].height as nat,
            frame_overlaps(b),
        ),
        a.len() > 0 ==> stitched_data(
            frame_bytes(a),
            frame_overlaps(a),
            a[0].width as nat,
            a[0].height as nat,
        ) == stitched_data(frame_bytes(b), frame_overlaps(b), b[0].width as nat, b[0].height as nat),
{
    if a.len() > 0 {
        assert(frame_overlaps(a) =~= frame_overlaps(b));
        assert(frame_bytes(a) =~= frame_bytes(b));
        assert(uniform(a) == uniform(b)) by {
            if uniform(a) {
                assert forall|i: int| 0 <= i < b.len() implies {
                    &&& (#[trigger] b[i]).width == b[0].width
                    &&& b[i].height == b[0].height
                    &&& b[i].wf()
                } by {
                    assert(a[i].wf());
                }
            }
            if uniform(b) {
                assert forall|i: int| 0 <= i < a.len() implies {
                    &&& (#[trigger] a[i]).width == a[0].width
                    &&& a[i].height == a[0].height
                    &&& a[i].wf()
                } by {
                    assert(b[i].wf());
                }
            }
        }
    }
}

/// Appends `src[from..to]` to `out`.
fn append_bytes(out: &mut Vec<u8>, src: &Vec<u8>, from: usize, to: usize)
    requires
        from <= to <= src@.len(),
    ensures
        final(out)@ == old(out)@ + src@.subrange(from as int, to as int),
{
    let ghost start = out@;
    let mut i: usize = from;
    while i < to
        invariant
            from <= i <= to,
            to <= src@.len(),
            out@ == start + src@.subrange(from as int, i as int),
        decreases to - i,
    {
        out.push(src[i]);
        proof {
            assert(start + src@.subrange(from as int, i + 1) =~= (start + src@.subrange(
                from as int,
                i as int,
            )).push(src@[i as int]));
        }
        i = i + 1;
    }
}

/// Composes frames of one size, `width` x `height`, under the given overlaps:
/// the first frame whole, then rows `min(overlaps[i], height)..height` of
/// frame `i + 1`, for each `i` in order. The result has
/// `height + sum of max(0, height - overlaps[i])` rows of `width` pixels.
pub fn compose_frames(frames: &Vec<RgbaImage>, overlaps: &Vec<usize>, width: usize, height: usize) -> (r: Vec<u8>)
    requires
        0 < width,
        0 < height,
        frames@.len() == overlaps@.len() + 1,
        forall|i: int|
            #![trigger frames@[i]]
            0 <= i < frames@.len() ==> {
                &&& frames@[i].width == width
                &&& frames@[i].height == height
                &&& frames@[i].wf()
            },
        fits(width as nat, stitched_height(height as nat, as_nats(overlaps@))),
    ensures
        r@ == stitched_data(frame_bytes(frames@), as_nats(overlaps@), width as nat, height as nat),
        r@.len() == width * stitched_height(height as nat, as_nats(overlaps@)) * 4,
{
    let ghost fb = frame_bytes(frames@);
    let ghost ov = as_nats(overlaps@);
    let ghost w = width as nat;
    let ghost h = height as nat;
    assert forall|i: int| 0 <= i < fb.len() implies is_rgba(#[trigger] fb[i], w, h) by {
        assert(frames@[i].wf());
    }
    let frame_len = frames[0].data.len();
    proof {
        assert(frames@[0].wf());
        assert(height * (width * 4) == width * height * 4) by (nonlinear_arith);
        assert(width * 4 <= height * (width * 4)) by (nonlinear_arith)
            requires
                0 < height,
        ;
    }
    let bpr = width * 4;
    let end = height * bpr;
    let mut out: Vec<u8> = Vec::new();
    append_bytes(&mut out, &frames[0].data, 0, end);
    proof {
        assert(frames@[0].data@.subrange(0, end as int) =~= frames@[0].data@);
        assert(out@ =~= stitched_data(fb, ov.take(0), w, h));
    }
    let mut i: usize = 0;
    while i < overlaps.len()
        invariant
            i <= overlaps@.len(),
            frames@.len() == overlaps@.len() + 1,
            fb == frame_bytes(frames@),
            ov == as_nats(overlaps@),
            w == width,
            h == height,
            bpr == width * 4,
            end == height * bpr,
            end == w * h * 4,
            forall|j: int|
                #![trigger frames@[j]]
                0 <= j < frames@.len() ==> {
                    &&& frames@[j].width == width
                    &&& frames@[j].height == height
                    &&& frames@[j].wf()
                },
            forall|j: int| 0 <= j < fb.len() ==> is_rgba(#[trigger] fb[j], w, h),
            fits(w, stitched_height(h, ov)),
            out@ == stitched_data(fb, ov.take(i as int), w, h),
        decreases overlaps@.len() - i,
    {
        let k = overlaps[i];
        proof {
            if k < height {
                assert(k * (width * 4) <= height * (width * 4)) by (nonlinear_arith)
                    requires
                        k < height,
                ;
            }
            assert(frames@[i + 1].wf());
        }
        let from = if k >= height {
            end
        } else {
            k * bpr
        };
        append_bytes(&mut out, &frames[i + 1].data, from, end);
        proof {
            assert(ov.take(i + 1 as int).drop_last() =~= ov.take(i as int));
            assert(ov.take(i + 1 as int).last() == k as nat);
            let a = added_rows(h, k as nat);
            assert((h - a) * (w * 4) == from) by (nonlinear_arith)
                requires
                    a == (if k >= h { 0 } else { h - k }),
                    from == (if k >= h { h * (w * 4) } else { (k * (w * 4)) as nat }),
                    k >= h ==> a == 0,
            ;
            assert(fb[i + 1] == frames@[i + 1].data@);
        }
        i = i + 1;
    }
    proof {
        assert(ov.take(overlaps@.len() as int) =~= ov);
        lemma_stitched_len(fb, ov, w, h);
        assert(w * 4 * stitched_height(h, ov) == w * stitched_height(h, ov) * 4) by (nonlinear_arith);
    }
    out
}

/// Stitches consecutive frames into one tall image. The overlap of each
/// consecutive pair is found by `find_overlap`, and each frame adds only the
/// rows below its overlapping head. `None` when there is no frame, the frames
/// do not share one nonzero size, or the result would not fit in memory; a
/// single frame comes back as an identical copy.
pub fn stitch_frames(frames: &Vec<RgbaImage>) -> (r: Option<RgbaImage>)
    ensures
        r is Some <==> stitchable(frames@),
        r matches Some(img) ==> {
            &&& img.width == frames@[0].width
            &&& img.height == stitched_height(frames@[0].height as nat, frame_overlaps(frames@))
            &&& img.data@ == stitched_data(
                frame_bytes(frames@),
                frame_overlaps(frames@),
                frames@[0].width as nat,
                frames@[0].height as nat,
            )
        },
{
    let n = frames.len();
    if n == 0 {
        return None;
    }
    let width = frames[0].width;
    let height = frames[0].height;
    let mut i: usize = 0;
    while i < n
        invariant
            i <= n,
            n == frames@.len(),
            width == frames@[0].width,
            height == frames@[0].height,
            forall|j: int|
                #![trigger frames@[j]]
                0 <= j < i ==> {
                    &&& frames@[j].width == width
                    &&& frames@[j].height == height
                    &&& frames@[j].wf()
                },
        decreases n - i,
    {
        if frames[i].width != width || frames[i].height != height || !frames[i].is_well_formed() {
            return None;
        }
        i = i + 1;
    }
    assert(uniform(frames@));
    if width == 0 || height == 0 {
        return None;
    }
    let mut overlaps: Vec<usize> = Vec::new();
    let mut i: usize = 0;
    while i + 1 < n
        invariant
            i + 1 <= n,
            n == frames@.len(),
            width == frames@[0].width,
            height == frames@[0].height,
            overlaps@.len() == i,
            forall|j: int|
                0 <= j < i ==> #[trigger] overlaps@[j] == overlap_of(
                    frames@[j].data@,
                    frames@[j + 1].data@,
                    width as nat,
                    height as nat,
                ),
        decreases n - i,
    {
        let k = find_overlap(frames[i].data.as_slice(), frames[i + 1].data.as_slice(), width, height);
        overlaps.push(k);
        i = i + 1;
    }
    let ghost ov = as_nats(overlaps@);
    assert(ov =~= frame_overlaps(frames@));
    let mut total: usize = height;
    let mut i: usize = 0;
    while i < overlaps.len()
        invariant
            i <= overlaps@.len(),
            ov == as_nats(overlaps@),
            ov == frame_overlaps(frames@),
            width == frames@[0].width,
            height == frames@[0].height,
            0 < width,
            total == stitched_height(height as nat, ov.take(i as int)),
        decreases overlaps@.len() - i,
    {
        let k = overlaps[i];
        let add = if k >= height {
            0
        } else {
            height - k
        };
        proof {
            assert(ov.take(i + 1 as int).drop_last() =~= ov.take(i as int));
            assert(ov.take(i + 1 as int).last() == k as nat);
            lemma_height_grows(height as nat, ov, (i + 1) as nat);
        }
        match total.checked_add(add) {
            None => {
                proof {
                    assert(width * stitched_height(height as nat, ov) * 4 >= stitched_height(
                        height as nat,
                        ov,
                    )) by (nonlinear_arith)
                        requires
                            width >= 1,
                    ;
                }
                return None;
            },
            Some(t) => {
                total = t;
            },
        }
        i = i + 1;
    }
    assert(ov.take(overlaps@.len() as int) =~= ov);
    let bytes = match width.checked_mul(total) {
        None => {
            proof {
                assert(width * total * 4 >= width * total) by (nonlinear_arith);
            }
            return None;
        },
        Some(px) => match px.checked_mul(4) {
            None => {
                return None;
            },
            Some(b) => b,
        },
    };
    let data = compose_frames(frames, &overlaps, width, height);
    Some(RgbaImage { width, height: total, data })
}

} // verus!
