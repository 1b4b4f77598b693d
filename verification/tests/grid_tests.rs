use pixel_sorter::grid::{apply_orientation, rotate180, rotate270, rotate90, sort_img, Grid};
use pixel_sorter::pixel::Pixel;
use pixel_sorter::settings::{Direction, Order, SortSettings};

fn gray(v: u8) -> Pixel {
    Pixel { r: v, g: v, b: v, a: 255 }
}

/// A 3x2 grid of distinct pixels:
///   1 2 3
///   4 5 6
fn sample_grid() -> Grid {
    Grid::from_pixels(3, 2, vec![gray(1), gray(2), gray(3), gray(4), gray(5), gray(6)])
}

fn pixels(g: &Grid) -> Vec<Pixel> {
    g.pixels.clone()
}

#[test]
fn rotate90_geometry() {
    let g = sample_grid();
    let r = rotate90(&g);
    assert_eq!(r.width, 2);
    assert_eq!(r.height, 3);
    // 1 2 3    4 1
    // 4 5 6 -> 5 2
    //          6 3
    assert_eq!(pixels(&r), vec![gray(4), gray(1), gray(5), gray(2), gray(6), gray(3)]);
}

#[test]
fn rotate180_geometry() {
    let g = sample_grid();
    let r = rotate180(&g);
    assert_eq!(r.width, 3);
    assert_eq!(r.height, 2);
    assert_eq!(pixels(&r), vec![gray(6), gray(5), gray(4), gray(3), gray(2), gray(1)]);
}

#[test]
fn rotate270_geometry() {
    let g = sample_grid();
    let r = rotate270(&g);
    assert_eq!(r.width, 2);
    assert_eq!(r.height, 3);
    // 1 2 3    3 6
    // 4 5 6 -> 2 5
    //          1 4
    assert_eq!(pixels(&r), vec![gray(3), gray(6), gray(2), gray(5), gray(1), gray(4)]);
}

#[test]
fn rotations_compose_to_identity() {
    let g = sample_grid();
    let r = rotate270(&rotate90(&g));
    assert_eq!(r.width, g.width);
    assert_eq!(r.height, g.height);
    assert_eq!(pixels(&r), pixels(&g));
}

#[test]
fn orientation_6_is_rotate90() {
    let g = sample_grid();
    let corrected = apply_orientation(&g, Some(6));
    let manual = rotate90(&sample_grid());
    assert_eq!(corrected.width, manual.width);
    assert_eq!(corrected.height, manual.height);
    assert_eq!(pixels(&corrected), pixels(&manual));
}

#[test]
fn orientation_3_is_rotate180() {
    let g = sample_grid();
    let corrected = apply_orientation(&g, Some(3));
    assert_eq!(pixels(&corrected), pixels(&rotate180(&sample_grid())));
}

#[test]
fn orientation_8_is_rotate270() {
    let g = sample_grid();
    let corrected = apply_orientation(&g, Some(8));
    assert_eq!(pixels(&corrected), pixels(&rotate270(&sample_grid())));
}

#[test]
fn other_orientations_are_identity() {
    for code in [None, Some(1), Some(2), Some(4), Some(5), Some(7)] {
        let g = sample_grid();
        let corrected = apply_orientation(&g, code);
        assert_eq!(corrected.width, 3);
        assert_eq!(corrected.height, 2);
        assert_eq!(pixels(&corrected), pixels(&sample_grid()));
    }
}

#[test]
fn sort_img_preserves_dimensions() {
    let g = sample_grid();
    let out = sort_img(&g, &SortSettings::default());
    assert_eq!(out.width, g.width);
    assert_eq!(out.height, g.height);
}

#[test]
fn sort_img_horizontal_line() {
    // luminance [30, 120, 100, 30], window [50, 150], ascending: the
    // interior span {1, 2} is sorted; the boundaries keep their copies.
    let g = Grid::from_pixels(4, 1, vec![gray(30), gray(120), gray(100), gray(30)]);
    let settings = SortSettings {
        lower_threshold: 50,
        upper_threshold: 150,
        direction: Direction::Horizontal,
        order: Order::Ascending,
    };
    let out = sort_img(&g, &settings);
    assert_eq!(pixels(&out), vec![gray(30), gray(100), gray(120), gray(30)]);
}

#[test]
fn sort_img_vertical_line() {
    let g = Grid::from_pixels(1, 4, vec![gray(30), gray(120), gray(100), gray(30)]);
    let settings = SortSettings {
        lower_threshold: 50,
        upper_threshold: 150,
        direction: Direction::Vertical,
        order: Order::Ascending,
    };
    let out = sort_img(&g, &settings);
    assert_eq!(pixels(&out), vec![gray(30), gray(100), gray(120), gray(30)]);
}

#[test]
fn sort_img_vertical_ignores_rows() {
    // two columns, sorted independently; the horizontal neighbours stay
    // in their own columns
    let g = Grid::from_pixels(
        2,
        4,
        vec![
            gray(30),
            gray(30),
            gray(140),
            gray(60),
            gray(100),
            gray(80),
            gray(30),
            gray(30),
        ],
    );
    let settings = SortSettings {
        lower_threshold: 50,
        upper_threshold: 150,
        direction: Direction::Vertical,
        order: Order::Ascending,
    };
    let out = sort_img(&g, &settings);
    assert_eq!(
        pixels(&out),
        vec![
            gray(30),
            gray(30),
            gray(100),
            gray(60),
            gray(140),
            gray(80),
            gray(30),
            gray(30),
        ]
    );
}

#[test]
fn sort_img_boundaries_bit_identical() {
    let boundary = Pixel { r: 255, g: 0, b: 255, a: 7 };
    let g = Grid::from_pixels(4, 1, vec![boundary, gray(120), gray(100), boundary]);
    let out = sort_img(&g, &SortSettings::default());
    assert_eq!(out.get(0, 0), boundary);
    assert_eq!(out.get(3, 0), boundary);
}
