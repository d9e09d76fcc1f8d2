use clipshot::frame::RgbaImage;
use clipshot::stitch::{compose_frames, stitch_frames};

fn doc_row(seed: u64, i: usize, w: usize) -> Vec<u8> {
    let mut x: u64 = seed ^ ((i as u64 + 1).wrapping_mul(0x9E37_79B9_7F4A_7C15));
    let mut row = Vec::with_capacity(w * 4);
    for _ in 0..w * 4 {
        x ^= x << 13;
        x ^= x >> 7;
        x ^= x << 17;
        row.push((x >> 24) as u8);
    }
    row
}

fn window(seed: u64, start: usize, w: usize, h: usize) -> Vec<u8> {
    let mut data = Vec::with_capacity(w * h * 4);
    for i in start..start + h {
        data.extend_from_slice(&doc_row(seed, i, w));
    }
    data
}

fn frame(seed: u64, start: usize, w: usize, h: usize) -> RgbaImage {
    RgbaImage { width: w, height: h, data: window(seed, start, w, h) }
}

#[test]
fn no_frames_give_no_image() {
    assert!(stitch_frames(&Vec::new()).is_none());
}

#[test]
fn single_frame_is_copied_unchanged() {
    let f = frame(11, 0, 8, 50);
    let out = stitch_frames(&vec![frame(11, 0, 8, 50)]).expect("one frame stitches");
    assert_eq!(out.width, f.width);
    assert_eq!(out.height, f.height);
    assert_eq!(out.data, f.data);
}

#[test]
fn single_small_frame_is_copied_unchanged() {
    let f = RgbaImage { width: 1, height: 1, data: vec![1, 2, 3, 4] };
    let out = stitch_frames(&vec![RgbaImage { width: 1, height: 1, data: vec![1, 2, 3, 4] }])
        .expect("one frame stitches");
    assert_eq!((out.width, out.height), (f.width, f.height));
    assert_eq!(out.data, f.data);
}

#[test]
fn overlapping_frames_rebuild_the_document() {
    let (w, h) = (8, 600);
    let frames = vec![frame(21, 0, w, h), frame(21, 400, w, h), frame(21, 450, w, h)];
    let out = stitch_frames(&frames).expect("frames stitch");
    assert_eq!(out.width, w);
    assert_eq!(out.height, 600 + (600 - 200) + (600 - 550));
    assert_eq!(out.height, 1050);
    assert_eq!(out.data, window(21, 0, w, 1050));
}

#[test]
fn unmatched_frame_is_appended_whole() {
    let (w, h) = (8, 100);
    let frames = vec![frame(31, 0, w, h), frame(32, 0, w, h)];
    let out = stitch_frames(&frames).expect("frames stitch");
    assert_eq!(out.height, 200);
    let mut expected = window(31, 0, w, h);
    expected.extend_from_slice(&window(32, 0, w, h));
    assert_eq!(out.data, expected);
}

#[test]
fn stitching_twice_gives_identical_output() {
    let (w, h) = (8, 300);
    let frames = vec![frame(41, 0, w, h), frame(41, 200, w, h), frame(41, 390, w, h)];
    let first = stitch_frames(&frames).expect("frames stitch");
    let second = stitch_frames(&frames).expect("frames stitch");
    assert_eq!((first.width, first.height), (second.width, second.height));
    assert_eq!(first.data, second.data);
}

#[test]
fn frames_of_different_sizes_do_not_stitch() {
    let frames = vec![frame(51, 0, 8, 100), frame(51, 50, 8, 99)];
    assert!(stitch_frames(&frames).is_none());
    let frames = vec![frame(51, 0, 8, 100), frame(51, 50, 9, 100)];
    assert!(stitch_frames(&frames).is_none());
}

#[test]
fn malformed_or_empty_frames_do_not_stitch() {
    let bad = RgbaImage { width: 8, height: 10, data: vec![0; 8 * 10 * 4 - 1] };
    assert!(stitch_frames(&vec![bad]).is_none());
    let empty = RgbaImage { width: 0, height: 10, data: Vec::new() };
    assert!(stitch_frames(&vec![empty]).is_none());
    let flat = RgbaImage { width: 10, height: 0, data: Vec::new() };
    assert!(stitch_frames(&vec![flat]).is_none());
}

#[test]
fn composed_height_follows_the_overlaps() {
    let (w, h) = (2, 10);
    let frames: Vec<RgbaImage> = (0..4).map(|s| frame(60 + s, 0, w, h)).collect();
    // An overlap of the whole frame, or more, adds no rows.
    let overlaps = vec![3, 10, 25];
    let out = compose_frames(&frames, &overlaps, w, h);
    let rows = 10 + (10 - 3) + 0 + 0;
    assert_eq!(out.len(), w * rows * 4);
    let mut expected = frames[0].data.clone();
    expected.extend_from_slice(&frames[1].data[3 * w * 4..]);
    assert_eq!(out, expected);
}

#[test]
fn composition_drops_the_head_and_keeps_the_tail() {
    let (w, h) = (1, 4);
    let a = RgbaImage { width: w, height: h, data: (0..16).collect() };
    let b = RgbaImage { width: w, height: h, data: (100..116).collect() };
    let out = compose_frames(&vec![a, b], &vec![1], w, h);
    let mut expected: Vec<u8> = (0..16).collect();
    expected.extend(104..116);
    assert_eq!(out, expected);
}
