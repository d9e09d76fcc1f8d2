use clipshot::overlap::{find_overlap, match_row_hashes};

/// Pseudo-random bytes for row `i` of a synthetic document, `w` pixels wide.
fn doc_row(seed: u64, i: usize, w: usize) -> Vec<u8> {
    let mut x: u64 = seed ^ ((i as u64 + 1).wrapping_mul(0x9E37_79B9_7F4A_7C15));
    let mut row = Vec::with_capacity(w * 4);
    for _ in 0..w * 4 {
        x ^= x << 13;
        x ^= x >> 7;
        x ^= x << 17;
        row.push((x >> 24) as u8);
    }
    row
}

/// Rows `start..start + h` of document `seed`.
fn window(seed: u64, start: usize, w: usize, h: usize) -> Vec<u8> {
    let mut data = Vec::with_capacity(w * h * 4);
    for i in start..start + h {
        data.extend_from_slice(&doc_row(seed, i, w));
    }
    data
}

fn true_overlap_case(w: usize, h: usize, k: usize) {
    let a = window(7, 0, w, h);
    let b = window(7, h - k, w, h);
    assert_eq!(find_overlap(&a, &b, w, h), k);
}

#[test]
fn true_overlap_of_eight_rows() {
    true_overlap_case(16, 48, 8);
}

#[test]
fn true_overlap_of_twenty_rows() {
    true_overlap_case(16, 100, 20);
}

#[test]
fn true_overlap_of_a_third() {
    true_overlap_case(16, 300, 100);
}

#[test]
fn true_overlap_of_four_fifths() {
    true_overlap_case(16, 300, 240);
}

#[test]
fn true_overlap_of_the_whole_frame() {
    let a = window(3, 0, 16, 64);
    assert_eq!(find_overlap(&a, &a, 16, 64), 64);
}

#[test]
fn unrelated_frames_have_no_overlap() {
    let a = window(1, 0, 16, 200);
    let b = window(2, 0, 16, 200);
    assert_eq!(find_overlap(&a, &b, 16, 200), 0);
}

#[test]
fn isolated_row_difference_keeps_the_overlap() {
    let (w, h, k) = (16, 300, 100);
    let a = window(9, 0, w, h);
    let mut b = window(9, h - k, w, h);
    // Row 10 of the band (not the reference row, which is row k - h/6 = 50).
    let r = 10;
    b[r * w * 4] ^= 0xff;
    assert_eq!(find_overlap(&a, &b, w, h), k);
}

#[test]
fn noisy_overlap_found_by_intensity_fallback() {
    let (w, h, k) = (16, 300, 120);
    let a = window(5, 0, w, h);
    let mut b = window(5, h - k, w, h);
    // Every byte of the band is off by two: no row fingerprint matches.
    for byte in b[..k * w * 4].iter_mut() {
        *byte = if *byte >= 128 { *byte - 2 } else { *byte + 2 };
    }
    assert_eq!(find_overlap(&a, &b, w, h), k);
}

#[test]
fn large_differences_are_rejected_by_fallback() {
    let (w, h, k) = (16, 300, 120);
    let a = window(5, 0, w, h);
    let mut b = window(5, h - k, w, h);
    for byte in b[..k * w * 4].iter_mut() {
        *byte = byte.wrapping_add(128);
    }
    assert_eq!(find_overlap(&a, &b, w, h), 0);
}

#[test]
fn frames_shorter_than_the_minimum_are_not_matched() {
    let a = window(4, 0, 16, 31);
    assert_eq!(find_overlap(&a, &a, 16, 31), 0);
}

#[test]
fn buffers_of_the_wrong_size_are_not_matched() {
    let a = window(4, 0, 16, 64);
    let b = window(4, 0, 16, 63);
    assert_eq!(find_overlap(&a, &b, 16, 64), 0);
    assert_eq!(find_overlap(&a, &a, 0, 64), 0);
}

#[test]
fn scrollbar_columns_are_ignored() {
    // The right-most 5% of columns differ everywhere; the overlap is still found.
    let (w, h, k) = (40, 120, 60);
    let a = window(6, 0, w, h);
    let mut b = window(6, h - k, w, h);
    for row in 0..h {
        for col in w - 2..w {
            b[row * w * 4 + col * 4] ^= 0x55;
        }
    }
    assert_eq!(find_overlap(&a, &b, w, h), k);
}

fn distinct_hashes(base: u64, n: usize) -> Vec<u64> {
    (0..n as u64).map(|i| base + i).collect()
}

#[test]
fn fingerprint_matching_finds_the_band() {
    let h = 60;
    let k = 30;
    let ha = distinct_hashes(1000, h);
    let mut hb = distinct_hashes(5000, h);
    for r in 0..k {
        hb[r] = ha[h - k + r];
    }
    assert_eq!(match_row_hashes(&ha, &hb, h), Some(k));
}

#[test]
fn fingerprint_matching_without_evidence_gives_none() {
    let h = 60;
    let ha = distinct_hashes(1000, h);
    let hb = distinct_hashes(5000, h);
    assert_eq!(match_row_hashes(&ha, &hb, h), None);
}

#[test]
fn fingerprint_matching_needs_eight_rows_of_evidence() {
    // h/6 = 6: an overlap of 7 rows has the reference row inside, but too few rows.
    let h = 36;
    let k = 7;
    let ha = distinct_hashes(1000, h);
    let mut hb = distinct_hashes(5000, h);
    for r in 0..k {
        hb[r] = ha[h - k + r];
    }
    assert_eq!(match_row_hashes(&ha, &hb, h), None);
    let k = 8;
    for r in 0..k {
        hb[r] = ha[h - k + r];
    }
    assert_eq!(match_row_hashes(&ha, &hb, h), Some(8));
}

#[test]
fn fingerprint_matching_prefers_the_higher_match_rate() {
    // Two candidates: overlap 40 with every row agreeing, and a spurious
    // reference match implying overlap 50 where few rows agree.
    let h = 60;
    let d = h / 6;
    let ha = distinct_hashes(1000, h);
    let mut hb = distinct_hashes(5000, h);
    for r in 0..40 {
        hb[r] = ha[h - 40 + r];
    }
    hb[50 - d] = ha[h - d];
    assert_eq!(match_row_hashes(&ha, &hb, h), Some(40));
}
