use clipshot::frame::RgbaImage;
use clipshot::session::{Phase, ScrollCaptureState, DEFAULT_MAX_STEPS};
use clipshot::stitch::stitch_frames;

fn doc_row(seed: u64, i: usize, w: usize) -> Vec<u8> {
    let mut x: u64 = seed ^ ((i as u64 + 1).wrapping_mul(0x9E37_79B9_7F4A_7C15));
    let mut row = Vec::with_capacity(w * 4);
    for _ in 0..w * 4 {
        x ^= x << 13;
        x ^= x >> 7;
        x ^= x << 17;
        row.push((x >> 24) as u8);
    }
    row
}

fn frame(seed: u64, start: usize, w: usize, h: usize) -> RgbaImage {
    let mut data = Vec::with_capacity(w * h * 4);
    for i in start..start + h {
        data.extend_from_slice(&doc_row(seed, i, w));
    }
    RgbaImage { width: w, height: h, data }
}

/// Runs the session to its end the way a host does, answering each capture
/// tick with the next stub result (`None` once they run out). Returns the
/// number of scrolls the host was asked to post.
fn drive(state: &mut ScrollCaptureState, mut captures: Vec<Option<RgbaImage>>) -> usize {
    captures.reverse();
    let mut scrolls = 0;
    for _ in 0..1000 {
        let go_on = match state.phase() {
            Phase::Scroll => {
                let go_on = state.tick_scroll();
                if go_on {
                    scrolls += 1;
                }
                go_on
            }
            Phase::Capture => state.tick_capture(captures.pop().unwrap_or(None)),
        };
        if !go_on {
            return scrolls;
        }
    }
    panic!("session did not stop");
}

#[test]
fn new_session_starts_with_a_capture() {
    let mut s = ScrollCaptureState::new(7);
    assert_eq!(s.phase(), Phase::Capture);
    assert_eq!(s.step_count(), 0);
    assert_eq!(s.display_id(), 7);
    assert_eq!(s.border_window_id(), None);
    assert!(s.frames().is_empty());
    s.set_border_window_id(42);
    assert_eq!(s.border_window_id(), Some(42));
    let mut steps = 0;
    s.tick_capture(None);
    while s.tick_scroll() {
        steps += 1;
        s.tick_capture(None);
    }
    assert_eq!(steps, DEFAULT_MAX_STEPS);
}

#[test]
fn session_stops_near_the_end_of_the_content() {
    // 800x600 selection: three captures overlapping by 200 and 550 rows.
    let (w, h) = (8, 600);
    let mut s = ScrollCaptureState::new(1);
    let scrolls = drive(
        &mut s,
        vec![Some(frame(3, 0, w, h)), Some(frame(3, 400, w, h)), Some(frame(3, 450, w, h))],
    );
    assert_eq!(scrolls, 2);
    assert_eq!(s.step_count(), 2);
    assert_eq!(s.frames().len(), 3);
    let out = stitch_frames(s.frames()).expect("frames stitch");
    assert_eq!(out.height, 1050);
    assert_eq!(out.width, w);
}

#[test]
fn failed_capture_is_retried() {
    let (w, h) = (8, 600);
    let mut s = ScrollCaptureState::new(1);
    let scrolls = drive(
        &mut s,
        vec![Some(frame(3, 0, w, h)), None, Some(frame(3, 400, w, h)), Some(frame(3, 450, w, h))],
    );
    assert_eq!(scrolls, 3);
    assert_eq!(s.frames().len(), 3);
    assert_eq!(s.frames()[0].data, frame(3, 0, w, h).data);
    assert_eq!(s.frames()[1].data, frame(3, 400, w, h).data);
    let out = stitch_frames(s.frames()).expect("frames stitch");
    assert_eq!(out.height, 1050);
}

#[test]
fn failed_capture_leaves_frames_alone_and_scrolls_again() {
    let mut s = ScrollCaptureState::new(1);
    assert!(s.tick_capture(Some(frame(3, 0, 8, 100))));
    assert!(s.tick_scroll());
    assert!(s.tick_capture(None));
    assert_eq!(s.phase(), Phase::Scroll);
    assert_eq!(s.frames().len(), 1);
    assert_eq!(s.step_count(), 1);
}

#[test]
fn session_stops_after_max_steps() {
    let (w, h) = (8, 300);
    let mut s = ScrollCaptureState::new(1);
    s.set_max_steps(3);
    let captures = (0..10).map(|i| Some(frame(8, i * 200, w, h))).collect();
    let scrolls = drive(&mut s, captures);
    assert_eq!(scrolls, 3);
    assert_eq!(s.step_count(), 4);
    assert_eq!(s.frames().len(), 4);
    for i in 0..4 {
        assert_eq!(s.frames()[i].data, frame(8, i * 200, w, h).data);
    }
}

#[test]
fn unmoved_content_stops_without_storing() {
    let (w, h) = (8, 300);
    let mut s = ScrollCaptureState::new(1);
    let scrolls = drive(&mut s, vec![Some(frame(4, 0, w, h)), Some(frame(4, 0, w, h))]);
    assert_eq!(scrolls, 1);
    assert_eq!(s.frames().len(), 1);
}

#[test]
fn overlap_of_ninety_percent_stores_and_stops() {
    let (w, h) = (8, 300);
    let mut s = ScrollCaptureState::new(1);
    let scrolls = drive(&mut s, vec![Some(frame(4, 0, w, h)), Some(frame(4, 30, w, h))]);
    assert_eq!(scrolls, 1);
    assert_eq!(s.frames().len(), 2);
}

#[test]
fn frame_of_another_size_is_treated_as_a_failed_capture() {
    let mut s = ScrollCaptureState::new(1);
    assert!(s.tick_capture(Some(frame(5, 0, 8, 100))));
    assert!(s.tick_scroll());
    assert!(s.tick_capture(Some(frame(5, 50, 8, 99))));
    assert_eq!(s.frames().len(), 1);
    assert_eq!(s.phase(), Phase::Scroll);
    let malformed = RgbaImage { width: 8, height: 100, data: vec![0; 10] };
    assert!(s.tick_scroll());
    assert!(s.tick_capture(Some(malformed)));
    assert_eq!(s.frames().len(), 1);
}

#[test]
fn ending_on_the_cap_counts_the_last_step() {
    let mut s = ScrollCaptureState::new(1);
    s.set_max_steps(1);
    assert_eq!(s.max_steps(), 1);
    assert!(s.tick_capture(None));
    assert!(s.tick_scroll());
    assert_eq!(s.step_count(), 1);
    assert!(s.tick_capture(None));
    assert!(!s.tick_scroll());
    assert_eq!(s.step_count(), 2);
    assert_eq!(s.phase(), Phase::Scroll);
}
