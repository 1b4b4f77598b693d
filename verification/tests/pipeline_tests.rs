use std::io::Cursor;

use pixel_sorter::codec::{decode_image, encode_image, get_orientation, PixelSortError};
use pixel_sorter::grid::Grid;
use pixel_sorter::pixel::Pixel;
use pixel_sorter::pipeline::{run_job, WorkerInput, WorkerOutput, WorkerStatus};
use pixel_sorter::settings::{Direction, Order, SortSettings};

fn gray(v: u8) -> Pixel {
    Pixel { r: v, g: v, b: v, a: 255 }
}

/// Encode a row of gray values as a PNG byte buffer (lossless, so the
/// decoder must hand the very same pixels back).
fn png_row(values: &[u8]) -> Vec<u8> {
    let img = image::RgbaImage::from_fn(values.len() as u32, 1, |x, _| {
        let v = values[x as usize];
        image::Rgba([v, v, v, 255])
    });
    let mut cursor = Cursor::new(Vec::new());
    img.write_to(&mut cursor, image::ImageFormat::Png).unwrap();
    cursor.into_inner()
}

/// A TIFF byte buffer whose metadata carries the given orientation.
fn tiff_with_orientation(code: u16) -> Vec<u8> {
    let field = exif::Field {
        tag: exif::Tag::Orientation,
        ifd_num: exif::In::PRIMARY,
        value: exif::Value::Short(vec![code]),
    };
    let mut writer = exif::experimental::Writer::new();
    writer.push_field(&field);
    let mut cursor = Cursor::new(Vec::new());
    writer.write(&mut cursor, false).unwrap();
    cursor.into_inner()
}

#[test]
fn decode_round_trips_png() {
    let data = png_row(&[30, 120, 100, 30]);
    let grid = decode_image(&data).unwrap();
    assert_eq!(grid.width, 4);
    assert_eq!(grid.height, 1);
    assert_eq!(grid.pixels, vec![gray(30), gray(120), gray(100), gray(30)]);
}

#[test]
fn decode_rejects_garbage() {
    let data = vec![0u8, 1, 2, 3, 4, 5, 6, 7];
    assert_eq!(decode_image(&data).unwrap_err(), PixelSortError::DecodeError);
}

#[test]
fn decode_rejects_empty() {
    assert_eq!(decode_image(&Vec::new()).unwrap_err(), PixelSortError::DecodeError);
}

#[test]
fn encode_produces_decodable_jpeg() {
    let grid = Grid::from_pixels(2, 2, vec![gray(10), gray(60), gray(110), gray(160)]);
    let bytes = encode_image(&grid).unwrap();
    assert!(!bytes.is_empty());
    let back = decode_image(&bytes).unwrap();
    assert_eq!(back.width, 2);
    assert_eq!(back.height, 2);
}

#[test]
fn orientation_of_garbage_is_none() {
    let data = vec![9u8; 64];
    assert_eq!(get_orientation(&data), None);
}

#[test]
fn orientation_tag_is_read() {
    let data = tiff_with_orientation(6);
    assert_eq!(get_orientation(&data), Some(6));
}

#[test]
fn orientation_out_of_range_is_none() {
    let data = tiff_with_orientation(9);
    assert_eq!(get_orientation(&data), None);
    let data = tiff_with_orientation(0);
    assert_eq!(get_orientation(&data), None);
}

#[test]
fn job_emits_statuses_in_order_then_result() {
    let input = WorkerInput {
        img_data: png_row(&[30, 120, 100, 30]),
        settings: SortSettings::default(),
    };
    let events = run_job(&input).unwrap();
    assert_eq!(events.len(), 4);
    assert_eq!(events[0], WorkerOutput::StatusUpdate(WorkerStatus::Decoding));
    assert_eq!(events[1], WorkerOutput::StatusUpdate(WorkerStatus::Sorting));
    assert_eq!(events[2], WorkerOutput::StatusUpdate(WorkerStatus::Encoding));
    match &events[3] {
        WorkerOutput::Sorted(bytes) => {
            // the delivered bytes are a complete encoded image of the
            // input's dimensions
            let out = decode_image(bytes).unwrap();
            assert_eq!(out.width, 4);
            assert_eq!(out.height, 1);
        },
        other => panic!("expected Sorted, got {:?}", other),
    }
}

#[test]
fn job_sorts_the_pixels() {
    // a lossless check of the whole pipeline, bypassing the final JPEG
    // step: decode, orient, sort
    let data = png_row(&[30, 120, 100, 30]);
    let grid = decode_image(&data).unwrap();
    let orientation = get_orientation(&data);
    assert_eq!(orientation, None);
    let corrected = pixel_sorter::grid::apply_orientation(&grid, orientation);
    let settings = SortSettings {
        lower_threshold: 50,
        upper_threshold: 150,
        direction: Direction::Horizontal,
        order: Order::Ascending,
    };
    let out = pixel_sorter::grid::sort_img(&corrected, &settings);
    assert_eq!(out.pixels, vec![gray(30), gray(100), gray(120), gray(30)]);
}

#[test]
fn job_fails_distinctly_on_bad_input() {
    let input = WorkerInput {
        img_data: vec![1u8, 2, 3],
        settings: SortSettings::default(),
    };
    assert_eq!(run_job(&input).unwrap_err(), PixelSortError::DecodeError);
}

#[test]
fn jobs_run_one_at_a_time() {
    // two jobs run back to back: each response stream is complete and
    // well-ordered on its own, with no events of the other in it
    let first = WorkerInput {
        img_data: png_row(&[30, 120, 100, 30]),
        settings: SortSettings::default(),
    };
    let second = WorkerInput {
        img_data: png_row(&[10, 80, 90, 10]),
        settings: SortSettings::default(),
    };
    let ev1 = run_job(&first).unwrap();
    let ev2 = run_job(&second).unwrap();
    for events in [&ev1, &ev2] {
        assert_eq!(events.len(), 4);
        assert_eq!(events[0], WorkerOutput::StatusUpdate(WorkerStatus::Decoding));
        assert_eq!(events[1], WorkerOutput::StatusUpdate(WorkerStatus::Sorting));
        assert_eq!(events[2], WorkerOutput::StatusUpdate(WorkerStatus::Encoding));
        assert!(matches!(events[3], WorkerOutput::Sorted(_)));
    }
}
