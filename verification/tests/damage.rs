use vnc_server::{compute_damage_rect, damage_since, Rect, SharedFrame};

fn rect(x: u16, y: u16, width: u16, height: u16) -> Rect {
    Rect { x, y, width, height }
}

#[test]
fn damage_rect_is_none_for_identical_frames() {
    let frame = vec![0u8; 4 * 3 * 4];
    assert_eq!(compute_damage_rect(&frame, &frame, 4, 3), None);
}

#[test]
fn damage_rect_bounds_changed_pixels() {
    let old = vec![0u8; 4 * 3 * 4];
    let mut new = old.clone();
    new[(1 * 4 + 2) * 4] = 1;
    new[(2 * 4 + 3) * 4] = 1;
    assert_eq!(
        compute_damage_rect(&old, &new, 4, 3),
        Some(Rect {
            x: 2,
            y: 1,
            width: 2,
            height: 2,
        })
    );
}

#[test]
fn damage_rect_is_full_for_size_mismatch() {
    assert_eq!(
        compute_damage_rect(&[0; 4], &[0; 8], 2, 1),
        Some(Rect {
            x: 0,
            y: 0,
            width: 2,
            height: 1,
        })
    );
}

#[test]
fn damage_rect_is_full_where_both_frames_have_another_size() {
    assert_eq!(
        compute_damage_rect(&[0; 8], &[0; 8], 3, 1),
        Some(rect(0, 0, 3, 1))
    );
}

#[test]
fn damage_rect_is_none_for_an_empty_screen() {
    assert_eq!(compute_damage_rect(&[0; 4], &[1; 8], 0, 7), None);
    assert_eq!(compute_damage_rect(&[0; 4], &[1; 8], 7, 0), None);
}

#[test]
fn damage_rect_sees_every_byte_of_a_pixel() {
    let old = vec![0u8; 3 * 2 * 4];
    for byte in 0..4 {
        let mut new = old.clone();
        new[(1 * 3 + 1) * 4 + byte] = 9;
        assert_eq!(compute_damage_rect(&old, &new, 3, 2), Some(rect(1, 1, 1, 1)));
    }
}

#[test]
fn damage_rect_spans_opposite_corners() {
    let old = vec![5u8; 5 * 4 * 4];
    let mut new = old.clone();
    new[4 * 4] = 0;
    new[3 * 5 * 4] = 0;
    assert_eq!(compute_damage_rect(&old, &new, 5, 4), Some(rect(0, 0, 5, 4)));
}

#[test]
fn a_new_frame_is_black_and_unpublished() {
    let frame = SharedFrame::new(3, 2);
    assert_eq!((frame.width(), frame.height(), frame.seq()), (3, 2, 0));
    assert_eq!(frame.data(), &[0u8; 24][..]);
    assert_eq!(damage_since(&frame, 0), Some(None));
}

#[test]
fn publications_are_numbered_and_their_damage_is_merged() {
    let mut frame = SharedFrame::new(4, 4);
    let mut pixels = vec![0u8; 64];
    pixels[(1 * 4 + 1) * 4] = 1;
    frame.publish(&pixels);
    pixels[(2 * 4 + 3) * 4] = 1;
    frame.publish(&pixels);
    frame.publish(&pixels);
    assert_eq!(frame.seq(), 3);
    assert_eq!(frame.data(), &pixels[..]);
    assert_eq!(damage_since(&frame, 0), Some(Some(rect(1, 1, 3, 2))));
    assert_eq!(damage_since(&frame, 1), Some(Some(rect(3, 2, 1, 1))));
    assert_eq!(damage_since(&frame, 2), Some(None));
    assert_eq!(damage_since(&frame, 3), Some(None));
    assert_eq!(damage_since(&frame, 9), Some(None));
}

#[test]
fn a_frame_of_another_size_damages_the_whole_screen() {
    let mut frame = SharedFrame::new(2, 2);
    frame.publish(&[1, 2, 3, 4]);
    assert_eq!(frame.data(), &[1, 2, 3, 4][..]);
    assert_eq!(damage_since(&frame, 0), Some(Some(rect(0, 0, 2, 2))));
    frame.publish(&[0u8; 16]);
    assert_eq!(damage_since(&frame, 1), Some(Some(rect(0, 0, 2, 2))));
}

#[test]
fn history_goes_back_a_limited_number_of_publications() {
    let mut frame = SharedFrame::new(8, 1);
    let mut pixels = vec![0u8; 32];
    for n in 0..130u8 {
        pixels[12] = n + 1;
        frame.publish(&pixels);
    }
    assert_eq!(frame.seq(), 130);
    assert_eq!(damage_since(&frame, 2), Some(Some(rect(3, 0, 1, 1))));
    assert_eq!(damage_since(&frame, 1), Some(Some(rect(0, 0, 8, 1))));
    assert_eq!(damage_since(&frame, 0), Some(Some(rect(0, 0, 8, 1))));
}

#[test]
fn every_changed_pixel_is_in_the_damage_since_then() {
    let mut frame = SharedFrame::new(4, 3);
    let mut history = vec![frame.data().to_vec()];
    let mut pixels = vec![0u8; 48];
    for step in 0..6usize {
        let i = (step * 7) % 12;
        pixels[i * 4 + step % 4] = pixels[i * 4 + step % 4].wrapping_add(3);
        frame.publish(&pixels);
        history.push(pixels.clone());
    }
    for (known, earlier) in history.iter().enumerate() {
        for i in 0..12usize {
            if earlier[i * 4..i * 4 + 4] != pixels[i * 4..i * 4 + 4] {
                let r = damage_since(&frame, known as u64).unwrap().unwrap();
                let (x, y) = ((i % 4) as u16, (i / 4) as u16);
                assert!(r.x <= x && x < r.x + r.width && r.y <= y && y < r.y + r.height);
            }
        }
    }
}
