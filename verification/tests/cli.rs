use riffle::cli::{crop_window, draw_rect};

#[test]
fn the_crop_window_is_held_inside_the_image() {
    assert_eq!(crop_window(6000, 4000, 3000, 2000, 512), (2744, 1744, 512, 512));
    assert_eq!(crop_window(6000, 4000, 10, 10, 512), (0, 0, 512, 512));
    assert_eq!(crop_window(6000, 4000, 5990, 3990, 512), (5488, 3488, 512, 512));
    assert_eq!(crop_window(300, 200, 150, 100, 512), (0, 0, 300, 200));
}

#[test]
fn draw_rect_paints_a_three_pixel_red_border_clipped_to_the_image() {
    let (w, h) = (10usize, 8usize);
    let mut rgb = vec![7u8; w * h * 3 + 2];
    draw_rect(&mut rgb, w, h, 2, 1, 5, 4);
    let at = |x: usize, y: usize| {
        let i = (y * w + x) * 3;
        (rgb[i], rgb[i + 1], rgb[i + 2])
    };
    let red = (255, 0, 0);
    let untouched = (7, 7, 7);
    assert_eq!(at(2, 1), red);
    assert_eq!(at(6, 1), red);
    assert_eq!(at(7, 3), red);
    assert_eq!(at(4, 5), red);
    assert_eq!(at(0, 0), untouched);
    assert_eq!(at(9, 7), untouched);
    assert_eq!(&rgb[w * h * 3..], &[7, 7]);
}

#[test]
fn a_box_outside_the_image_paints_nothing() {
    let mut rgb = vec![1u8; 4 * 4 * 3];
    draw_rect(&mut rgb, 4, 4, -100, -100, 10, 10);
    assert!(rgb.iter().all(|&b| b == 1));
}
