use dictationapp::annotate::{
    apply_annotation, apply_blur_rect, apply_pixelate_rect, canvas_from_rgba, canvas_to_rgba,
    draw_line, has_visible_text, pixel_rect, Annotation, Canvas, PixelRect, Rgba,
};

fn solid(w: u32, h: u32, p: Rgba) -> Canvas {
    Canvas { width: w, height: h, pixels: vec![p; (w * h) as usize] }
}

const WHITE: Rgba = Rgba { r: 255, g: 255, b: 255, a: 255 };
const GREEN: Rgba = Rgba { r: 34, g: 197, b: 94, a: 255 };

#[test]
fn rgba_buffers_round_trip() {
    let raw: Vec<u8> = (0u8..24).collect();
    let c = canvas_from_rgba(3, 2, &raw).unwrap();
    assert_eq!(c.get(1, 1), Rgba { r: 16, g: 17, b: 18, a: 19 });
    assert_eq!(canvas_to_rgba(&c), raw);
    assert!(canvas_from_rgba(3, 3, &raw).is_none());
}

#[test]
fn line_covers_its_ends_with_a_three_pixel_brush() {
    let mut c = solid(7, 5, WHITE);
    let red = Rgba { r: 255, g: 0, b: 0, a: 255 };
    draw_line(&mut c, 1, 2, 5, 2, red);
    for x in 0..7u32 {
        for y in 0..5u32 {
            let painted = (1..=3).contains(&y) && x <= 6;
            assert_eq!(c.get(x, y) == red, painted, "pixel {} {}", x, y);
        }
    }
    let mut c = solid(4, 4, WHITE);
    draw_line(&mut c, -10, -10, -5, -5, red);
    assert!(c.pixels.iter().all(|p| *p == WHITE));
}

#[test]
fn diagonal_line_reaches_far_corner() {
    let mut c = solid(10, 10, WHITE);
    draw_line(&mut c, 0, 0, 9, 6, GREEN);
    assert_eq!(c.get(0, 0), GREEN);
    assert_eq!(c.get(9, 6), GREEN);
    assert_eq!(c.get(9, 0), WHITE);
    assert_eq!(c.get(0, 9), WHITE);
}

#[test]
fn pixelate_averages_each_block() {
    let mut c = solid(14, 2, WHITE);
    for x in 0..6u32 {
        for y in 0..2u32 {
            c.pixels[(y * 14 + x) as usize] = Rgba { r: 0, g: 0, b: 0, a: 255 };
        }
    }
    apply_pixelate_rect(&mut c, PixelRect { x0: 0, y0: 0, x1: 14, y1: 2 });
    // First block: 12 columns, half black and half white.
    let avg = Rgba { r: 127, g: 127, b: 127, a: 255 };
    for x in 0..12u32 {
        assert_eq!(c.get(x, 0), avg);
        assert_eq!(c.get(x, 1), avg);
    }
    assert_eq!(c.get(12, 0), WHITE);
    assert_eq!(c.get(13, 1), WHITE);
}

#[test]
fn blur_of_uniform_region_keeps_color_and_outside_untouched() {
    let mut c = solid(20, 20, Rgba { r: 10, g: 20, b: 30, a: 255 });
    c.pixels[0] = WHITE;
    apply_blur_rect(&mut c, PixelRect { x0: 10, y0: 10, x1: 20, y1: 20 });
    assert_eq!(c.get(15, 15), Rgba { r: 10, g: 20, b: 30, a: 255 });
    assert_eq!(c.get(0, 0), WHITE);
}

#[test]
fn blur_mixes_neighbours_with_edge_clamping() {
    let mut c = solid(3, 3, Rgba { r: 0, g: 0, b: 0, a: 0 });
    c.pixels[0] = Rgba { r: 169, g: 0, b: 0, a: 169 };
    apply_blur_rect(&mut c, PixelRect { x0: 0, y0: 0, x1: 2, y1: 2 });
    // Clamping repeats the corner pixel 7 x 7 = 49 times in the 13 x 13 window of (0, 0).
    assert_eq!(c.get(0, 0), Rgba { r: 49, g: 0, b: 0, a: 49 });
    assert_eq!(c.get(2, 2), Rgba { r: 0, g: 0, b: 0, a: 0 });
}

#[test]
fn annotations_paint_green() {
    let mut c = solid(12, 12, WHITE);
    apply_annotation(&mut c, &Annotation::Rect { start: (2, 2), end: (9, 9) });
    assert_eq!(c.get(2, 2), GREEN);
    assert_eq!(c.get(9, 5), GREEN);
    assert_eq!(c.get(5, 5), WHITE);

    let mut c = solid(12, 12, WHITE);
    apply_annotation(&mut c, &Annotation::Pen(vec![(1, 1), (5, 1), (5, 8)]));
    assert_eq!(c.get(3, 1), GREEN);
    assert_eq!(c.get(5, 6), GREEN);
    assert_eq!(c.get(10, 10), WHITE);

    let mut c = solid(12, 12, WHITE);
    apply_annotation(&mut c, &Annotation::Arrow { start: (1, 6), end: (10, 6), heads: ((7, 3), (7, 9)) });
    assert_eq!(c.get(4, 6), GREEN);
    assert_eq!(c.get(7, 3), GREEN);
    assert_eq!(c.get(7, 9), GREEN);

    let mut c = solid(12, 12, WHITE);
    apply_annotation(&mut c, &Annotation::Text { at: (1, 1), text: "   ".to_string(), end_x: 25 });
    assert!(c.pixels.iter().all(|p| *p == WHITE));
    apply_annotation(&mut c, &Annotation::Text { at: (1, 1), text: "hi".to_string(), end_x: 17 });
    assert_eq!(c.get(11, 1), GREEN);

    let mut c = solid(12, 12, WHITE);
    apply_annotation(&mut c, &Annotation::Blur(None));
    apply_annotation(&mut c, &Annotation::Pixelate(None));
    assert!(c.pixels.iter().all(|p| *p == WHITE));
    assert!(has_visible_text(" x "));
    assert!(!has_visible_text(" \t"));
}

#[test]
fn pixel_rect_needs_two_pixels_each_way() {
    assert_eq!(pixel_rect(3, 4, 10, 9), Some(PixelRect { x0: 3, y0: 4, x1: 10, y1: 9 }));
    assert_eq!(pixel_rect(3, 4, 4, 9), None);
    assert_eq!(pixel_rect(3, 4, 10, 5), None);
    assert_eq!(pixel_rect(30, 4, 10, 9), None);
}

#[test]
fn pixelating_twice_changes_nothing_more() {
    let raw: Vec<u8> = (0..30u32 * 20 * 4).map(|i| (i * 37 % 251) as u8).collect();
    let mut c = canvas_from_rgba(30, 20, &raw).unwrap();
    let rect = PixelRect { x0: 3, y0: 2, x1: 29, y1: 19 };
    apply_pixelate_rect(&mut c, rect);
    let once = c.pixels.clone();
    apply_pixelate_rect(&mut c, rect);
    assert_eq!(c.pixels, once);
}
