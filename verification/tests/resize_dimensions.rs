use videoplayer::resize_dimensions;

#[test]
fn resize_handles_fill() {
    let result = resize_dimensions(true, 100, 200, 200, 500);
    assert_eq!(result, (250, 500));

    let result = resize_dimensions(true, 200, 100, 500, 200);
    assert_eq!(result, (500, 250))
}

#[test]
fn resize_never_rounds_to_zero() {
    let (w, h) = resize_dimensions(false, 1, 150, 128, 128);
    assert!(w >= 1 && h >= 1);
}

#[test]
fn resize_handles_overflow() {
    let result = resize_dimensions(true, 100, u32::MAX, 200, u32::MAX);
    assert_eq!(result, (100, u32::MAX));

    let result = resize_dimensions(true, u32::MAX, 100, u32::MAX, 200);
    assert_eq!(result, (u32::MAX, 100));
}

#[test]
fn resize_rounds() {
    // Only truncation would give (3840, 2229) and (2160, 3719).
    let result = resize_dimensions(true, 4264, 2476, 3840, 2160);
    assert_eq!(result, (3840, 2230));

    let result = resize_dimensions(false, 2476, 4264, 2160, 3840);
    assert_eq!(result, (2160, 3720));
}

#[test]
fn resize_handles_zero() {
    let result = resize_dimensions(false, 0, 100, 100, 100);
    assert_eq!(result, (1, 100));

    let result = resize_dimensions(false, 100, 0, 100, 100);
    assert_eq!(result, (100, 1));

    let result = resize_dimensions(false, 100, 100, 0, 100);
    assert_eq!(result, (1, 1));

    let result = resize_dimensions(false, 100, 100, 100, 0);
    assert_eq!(result, (1, 1));
}

#[test]
fn resize_fill_round_trips_within_one() {
    // Scaling up by a ratio and back by its reciprocal lands within one of
    // the starting dimensions.
    let cases: [(u32, u32, u32, u32); 3] = [(100, 50, 200, 100), (7, 13, 21, 39), (33, 47, 99, 140)];
    for (w, h, nw, nh) in cases {
        let (uw, uh) = resize_dimensions(true, w, h, nw, nh);
        let (bw, bh) = resize_dimensions(true, uw, uh, w, h);
        assert!(bw.abs_diff(w) <= 1, "width {bw} vs {w}");
        assert!(bh.abs_diff(h) <= 1, "height {bh} vs {h}");
    }
}
