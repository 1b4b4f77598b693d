use pixel_sorter::line::sort_line;
use pixel_sorter::pixel::Pixel;
use pixel_sorter::settings::Order;
use pixel_sorter::span::sort_span;

/// A gray pixel whose luminance is exactly `v`.
fn gray(v: u8) -> Pixel {
    Pixel { r: v, g: v, b: v, a: 255 }
}

fn px(r: u8, g: u8, b: u8, a: u8) -> Pixel {
    Pixel { r, g, b, a }
}

#[test]
fn luminance_of_gray_is_value() {
    assert_eq!(gray(0).luminance(), 0);
    assert_eq!(gray(30).luminance(), 30);
    assert_eq!(gray(100).luminance(), 100);
    assert_eq!(gray(255).luminance(), 255);
}

#[test]
fn luminance_weights_channels() {
    // (2126 * 255) / 10000 == 54 for a pure red pixel
    assert_eq!(px(255, 0, 0, 0).luminance(), 54);
    // (7152 * 255) / 10000 == 182 for a pure green pixel
    assert_eq!(px(0, 255, 0, 0).luminance(), 182);
    // (722 * 255) / 10000 == 18 for a pure blue pixel
    assert_eq!(px(0, 0, 255, 0).luminance(), 18);
    // alpha plays no part in the luminance
    assert_eq!(px(255, 0, 0, 255).luminance(), 54);
}

#[test]
fn brightness_key_is_channel_sum() {
    assert_eq!(px(1, 2, 3, 4).key(), 10);
    assert_eq!(px(255, 255, 255, 255).key(), 1020);
    assert_eq!(px(0, 0, 0, 0).key(), 0);
}

#[test]
fn sort_span_ascending() {
    let v = vec![gray(120), gray(30), gray(200), gray(100)];
    let sorted = sort_span(&v, 0, 4, Order::Ascending);
    assert_eq!(sorted, vec![gray(30), gray(100), gray(120), gray(200)]);
}

#[test]
fn sort_span_descending() {
    let v = vec![gray(120), gray(30), gray(200), gray(100)];
    let sorted = sort_span(&v, 0, 4, Order::Descending);
    assert_eq!(sorted, vec![gray(200), gray(120), gray(100), gray(30)]);
}

#[test]
fn sort_span_subrange_only() {
    let v = vec![gray(120), gray(30), gray(200), gray(100)];
    let sorted = sort_span(&v, 1, 3, Order::Ascending);
    assert_eq!(sorted, vec![gray(30), gray(200)]);
}

#[test]
fn sort_span_stable_on_ties() {
    // equal brightness keys (sum 60), distinct pixels: input order kept
    let a = px(60, 0, 0, 0);
    let b = px(0, 60, 0, 0);
    let c = px(0, 0, 60, 0);
    let v = vec![a, b, c];
    let sorted = sort_span(&v, 0, 3, Order::Ascending);
    assert_eq!(sorted, vec![a, b, c]);
}

#[test]
fn sort_span_is_permutation() {
    let v = vec![gray(9), gray(7), gray(9), gray(1), gray(7)];
    let mut sorted = sort_span(&v, 0, 5, Order::Descending);
    let mut copy = v.clone();
    sorted.sort_by_key(|p| p.r);
    copy.sort_by_key(|p| p.r);
    assert_eq!(sorted, copy);
}

#[test]
fn sorting_twice_ascending_is_idempotent() {
    let v = vec![gray(120), gray(30), gray(200), gray(100), gray(30)];
    let once = sort_span(&v, 0, 5, Order::Ascending);
    let twice = sort_span(&once, 0, 5, Order::Ascending);
    assert_eq!(twice, once);
}

#[test]
fn sorting_twice_descending_is_idempotent_without_ties() {
    let v = vec![gray(120), gray(30), gray(200), gray(100)];
    let once = sort_span(&v, 0, 4, Order::Descending);
    let twice = sort_span(&once, 0, 4, Order::Descending);
    assert_eq!(twice, once);
}

#[test]
fn descending_of_ascending_sorted_is_reverse() {
    let sorted = vec![gray(10), gray(20), gray(30), gray(40)];
    let reversed = sort_span(&sorted, 0, 4, Order::Descending);
    assert_eq!(reversed, vec![gray(40), gray(30), gray(20), gray(10)]);
}

#[test]
fn line_sorts_interior_span() {
    // luminance [30, 120, 100, 30] with window [50, 150]: indices 0 and
    // 3 are boundaries; the span {1, 2} is sorted ascending; index 3
    // keeps its original copy.
    let line = vec![gray(30), gray(120), gray(100), gray(30)];
    let out = sort_line(&line, 50, 150, Order::Ascending);
    assert_eq!(out, vec![gray(30), gray(100), gray(120), gray(30)]);
}

#[test]
fn line_keeps_boundary_pixels() {
    let line = vec![gray(200), gray(120), gray(100), gray(10), gray(60)];
    let out = sort_line(&line, 50, 150, Order::Ascending);
    assert_eq!(out[0], gray(200));
    assert_eq!(out[3], gray(10));
}

#[test]
fn line_trailing_span_stays_in_input_order() {
    // the last boundary pixel (index 0) comes before the final index:
    // the trailing run is never flushed, so it keeps input order.
    let line = vec![gray(30), gray(120), gray(100), gray(60)];
    let out = sort_line(&line, 50, 150, Order::Ascending);
    assert_eq!(out, line);
}

#[test]
fn line_without_boundaries_is_unchanged() {
    let line = vec![gray(120), gray(100), gray(60)];
    let out = sort_line(&line, 50, 150, Order::Ascending);
    assert_eq!(out, line);
}

#[test]
fn line_span_of_one_is_unchanged() {
    // the single in-window pixel at index 1 is closed by a boundary at
    // index 2, but a span of one pixel is never rewritten
    let line = vec![gray(30), gray(120), gray(40), gray(100), gray(60), gray(20)];
    let out = sort_line(&line, 50, 150, Order::Ascending);
    assert_eq!(out[1], gray(120));
    // the span {3, 4} is sorted ascending by key
    assert_eq!(out[3], gray(60));
    assert_eq!(out[4], gray(100));
}

#[test]
fn line_descending_span() {
    let line = vec![gray(30), gray(60), gray(120), gray(100), gray(30)];
    let out = sort_line(&line, 50, 150, Order::Descending);
    assert_eq!(out, vec![gray(30), gray(120), gray(100), gray(60), gray(30)]);
}

#[test]
fn line_empty_is_empty() {
    let line: Vec<Pixel> = vec![];
    let out = sort_line(&line, 50, 150, Order::Ascending);
    assert!(out.is_empty());
}
