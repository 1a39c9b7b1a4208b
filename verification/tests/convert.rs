use image_to_ascii::convert::{
    adjust_tile, best_glyph, convert_rows, convert_tile, img_to_char_rows, sharpen_tile,
    worker_count, worker_span, Adjustment,
};
use image_to_ascii::error::ConversionError;
use image_to_ascii::font::{Catalog, Glyph};
use image_to_ascii::frame::{luminance, Frame, Rgb};
use image_to_ascii::metrics::{get_converter, score_glyph, Metric};
use image_to_ascii::sampler::Sampler;

fn plain() -> Adjustment {
    Adjustment { brightness_offset: 0, noise_scale: 0, noise_seed: 0, edge_detection: false }
}

fn block_font() -> Catalog {
    let glyphs = vec![Glyph::new(' ', vec![false; 4]), Glyph::new('#', vec![true; 4])];
    Catalog::new(2, 2, glyphs).unwrap()
}

fn gray_frame(width: u32, height: u32, luma: &[u8]) -> Frame {
    let mut data = Vec::new();
    for &v in luma {
        data.push(v);
        data.push(v);
        data.push(v);
    }
    Frame::new(width, height, data).unwrap()
}

fn chequered(side: u32, square: u32) -> Frame {
    let mut luma = Vec::new();
    for y in 0..side {
        for x in 0..side {
            luma.push(if (x / square + y / square) % 2 == 0 { 0 } else { 255 });
        }
    }
    gray_frame(side, side, &luma)
}

fn rows_of(font: &Catalog, frame: &Frame, metric: Metric, width: usize, threads: usize) -> Vec<String> {
    let grid = img_to_char_rows(font, frame, metric, width, &plain(), threads).unwrap();
    grid.rows().iter().map(|r| r.iter().collect::<String>()).collect()
}

#[test]
fn luminance_uses_the_usual_weights() {
    assert_eq!(luminance(Rgb { r: 255, g: 255, b: 255 }), 255);
    assert_eq!(luminance(Rgb { r: 0, g: 0, b: 0 }), 0);
    assert_eq!(luminance(Rgb { r: 255, g: 0, b: 0 }), 76);
    assert_eq!(luminance(Rgb { r: 0, g: 255, b: 0 }), 149);
    assert_eq!(luminance(Rgb { r: 0, g: 0, b: 255 }), 29);
    assert_eq!(luminance(Rgb { r: 10, g: 20, b: 30 }), 18);
}

#[test]
fn frame_rejects_a_buffer_of_the_wrong_length() {
    assert_eq!(Frame::new(2, 2, vec![0; 11]), Err(ConversionError::InvalidConfiguration));
    assert_eq!(Frame::new(2, 2, vec![0; 13]), Err(ConversionError::InvalidConfiguration));
    let f = Frame::new(2, 1, vec![1, 2, 3, 4, 5, 6]).unwrap();
    assert_eq!(f.width(), 2);
    assert_eq!(f.height(), 1);
    assert_eq!(f.pixel(1, 0), Some(Rgb { r: 4, g: 5, b: 6 }));
    assert_eq!(f.pixel(2, 0), None);
    assert_eq!(f.pixel(0, 1), None);
    assert_eq!(f.data(), &vec![1, 2, 3, 4, 5, 6]);
}

#[test]
fn metric_names_are_resolved() {
    assert_eq!(get_converter("grad"), Ok(Metric::Grad));
    assert_eq!(get_converter("coverage"), Ok(Metric::Coverage));
    assert_eq!(get_converter("Grad"), Err(ConversionError::UnknownMetric));
    assert_eq!(get_converter(""), Err(ConversionError::UnknownMetric));
    assert_eq!(get_converter("gradx"), Err(ConversionError::UnknownMetric));
}

#[test]
fn coverage_score_sums_luminance_errors() {
    let font = block_font();
    let black = vec![0u8; 4];
    assert_eq!(score_glyph(Metric::Coverage, &black, &font, 1), 0);
    assert_eq!(score_glyph(Metric::Coverage, &black, &font, 0), 1020);
    let gray = vec![100u8, 100, 100, 100];
    assert_eq!(score_glyph(Metric::Coverage, &gray, &font, 1), 400);
    assert_eq!(score_glyph(Metric::Coverage, &gray, &font, 0), 620);
}

#[test]
fn grad_score_adds_gradient_errors() {
    let font = block_font();
    let halves = vec![0u8, 255, 0, 255];
    assert_eq!(score_glyph(Metric::Coverage, &halves, &font, 1), 510);
    assert_eq!(score_glyph(Metric::Grad, &halves, &font, 1), 1020);
    assert_eq!(score_glyph(Metric::Grad, &halves, &font, 0), 1020);
    let stripes = vec![0u8, 0, 255, 255];
    assert_eq!(score_glyph(Metric::Grad, &stripes, &font, 1), 1020);
}

#[test]
fn matching_mask_beats_inverse_mask() {
    let glyphs = vec![
        Glyph::new('a', vec![true, false, false, true]),
        Glyph::new('b', vec![false, true, true, false]),
        Glyph::new('c', vec![true, false, false, true]),
    ];
    let font = Catalog::new(2, 2, glyphs).unwrap();
    let tile = vec![0u8, 255, 255, 0];
    for metric in [Metric::Coverage, Metric::Grad] {
        let same = score_glyph(metric, &tile, &font, 0);
        let twin = score_glyph(metric, &tile, &font, 2);
        let inverse = score_glyph(metric, &tile, &font, 1);
        assert_eq!(same, 0);
        assert_eq!(twin, 0);
        assert!(same < inverse);
    }
    assert_eq!(score_glyph(Metric::Coverage, &tile, &font, 1), 1020);
}

#[test]
fn black_tile_selects_full_glyph_and_white_tile_selects_blank() {
    let font = block_font();
    assert_eq!(best_glyph(Metric::Coverage, &vec![0u8; 4], &font), 1);
    assert_eq!(best_glyph(Metric::Coverage, &vec![255u8; 4], &font), 0);
    let black = gray_frame(2, 2, &[0, 0, 0, 0]);
    let white = gray_frame(2, 2, &[255, 255, 255, 255]);
    assert_eq!(rows_of(&font, &black, Metric::Coverage, 1, 1), vec!["#".to_string()]);
    assert_eq!(rows_of(&font, &white, Metric::Coverage, 1, 1), vec![" ".to_string()]);
}

#[test]
fn equal_scores_go_to_the_first_glyph() {
    let glyphs = vec![
        Glyph::new('x', vec![true, false, false, false]),
        Glyph::new('y', vec![false, true, false, false]),
    ];
    let font = Catalog::new(2, 2, glyphs).unwrap();
    assert_eq!(best_glyph(Metric::Coverage, &vec![255u8; 4], &font), 0);
    assert_eq!(best_glyph(Metric::Coverage, &vec![0u8; 4], &font), 0);
    assert_eq!(best_glyph(Metric::Coverage, &vec![255u8, 0, 255, 255], &font), 1);
}

#[test]
fn adjustment_shifts_and_clamps() {
    let up = Adjustment { brightness_offset: 50, noise_scale: 0, noise_seed: 7, edge_detection: false };
    assert_eq!(adjust_tile(&vec![0, 100, 210, 255], &up, 3, 4), vec![50, 150, 255, 255]);
    let down = Adjustment { brightness_offset: -60, noise_scale: 0, noise_seed: 9, edge_detection: false };
    assert_eq!(adjust_tile(&vec![0, 59, 60, 255], &down, 0, 0), vec![0, 0, 0, 195]);
    let far = Adjustment { brightness_offset: i32::MIN, noise_scale: 0, noise_seed: 0, edge_detection: false };
    assert_eq!(adjust_tile(&vec![255], &far, 0, 0), vec![0]);
}

#[test]
fn noise_stays_within_its_scale() {
    let adj = Adjustment { brightness_offset: 0, noise_scale: 5, noise_seed: 12345, edge_detection: false };
    let tile = vec![100u8; 64];
    let out = adjust_tile(&tile, &adj, 2, 3);
    assert_eq!(out.len(), 64);
    for v in &out {
        assert!(*v >= 95 && *v <= 105);
    }
    assert_eq!(out, adjust_tile(&tile, &adj, 2, 3));
    assert!(out.iter().any(|v| *v != 100));
}

#[test]
fn noise_follows_its_formula() {
    let adj = Adjustment { brightness_offset: 0, noise_scale: 5, noise_seed: 1, edge_detection: false };
    let mul: u128 = 6364136223846793005;
    let inc: u128 = 1442695040888963407;
    let modulus: u128 = 1 << 64;
    let h1 = (1 * mul + 2 + inc) % modulus;
    let h2 = (h1 * mul + 3 + inc) % modulus;
    let h3 = (h2 * mul + 0 + inc) % modulus;
    let expected = 100 + ((h3 >> 32) % 11) as i64 - 5;
    assert_eq!(adjust_tile(&vec![100u8], &adj, 2, 3), vec![expected as u8]);
}

#[test]
fn sharpening_steepens_edges_and_keeps_flat_tiles() {
    assert_eq!(sharpen_tile(&vec![90u8; 6], 3), vec![90u8; 6]);
    assert_eq!(sharpen_tile(&vec![100, 120, 100, 120], 2), vec![80, 140, 80, 140]);
    assert_eq!(sharpen_tile(&vec![0, 255, 255, 0], 2), vec![0, 255, 255, 0]);
    assert_eq!(sharpen_tile(&vec![10, 200], 2), vec![0, 255]);
}

#[test]
fn tile_conversion_follows_the_stages() {
    let font = block_font();
    let frame = gray_frame(4, 2, &[0, 0, 255, 255, 0, 0, 255, 255]);
    let sampler = Sampler::new(&frame, 2, (2, 2)).unwrap();
    assert_eq!(convert_tile(&sampler, &font, Metric::Coverage, &plain(), 0, 0), '#');
    assert_eq!(convert_tile(&sampler, &font, Metric::Coverage, &plain(), 0, 1), ' ');
    let rows = convert_rows(&sampler, &font, Metric::Grad, &plain(), 0, 1);
    assert_eq!(rows, vec![vec!['#', ' ']]);
    assert_eq!(convert_rows(&sampler, &font, Metric::Grad, &plain(), 1, 1), Vec::<Vec<char>>::new());
}

#[test]
fn brightness_offset_changes_the_selection() {
    let font = block_font();
    let frame = gray_frame(2, 2, &[120, 120, 120, 120]);
    let darker = Adjustment { brightness_offset: 0, noise_scale: 0, noise_seed: 0, edge_detection: true };
    let lighter = Adjustment { brightness_offset: 20, noise_scale: 0, noise_seed: 0, edge_detection: true };
    let a = img_to_char_rows(&font, &frame, Metric::Coverage, 1, &darker, 1).unwrap();
    let b = img_to_char_rows(&font, &frame, Metric::Coverage, 1, &lighter, 1).unwrap();
    assert_eq!(a.get(0, 0), Some('#'));
    assert_eq!(b.get(0, 0), Some(' '));
}

#[test]
fn workers_share_all_rows() {
    assert_eq!(worker_count(10, 3), 3);
    assert_eq!(worker_count(2, 8), 2);
    assert_eq!(worker_count(5, 5), 5);
    assert_eq!(worker_span(10, 3, 0), (0, 3));
    assert_eq!(worker_span(10, 3, 1), (3, 6));
    assert_eq!(worker_span(10, 3, 2), (6, 10));
    assert_eq!(worker_span(7, 1, 0), (0, 7));
    assert_eq!(worker_span(u32::MAX, u32::MAX, u32::MAX - 1), (u32::MAX - 1, u32::MAX));
}

#[test]
fn thread_count_does_not_change_the_grid() {
    let font = block_font();
    let frame = chequered(64, 8);
    let one = img_to_char_rows(&font, &frame, Metric::Grad, 32, &plain(), 1).unwrap();
    let eight = img_to_char_rows(&font, &frame, Metric::Grad, 32, &plain(), 8).unwrap();
    assert_eq!(one, eight);
    assert_eq!(one.rows(), eight.rows());
    assert_eq!(one.height(), 32);
    assert_eq!(one.width(), 32);
    let many = img_to_char_rows(&font, &frame, Metric::Grad, 32, &plain(), 1000).unwrap();
    assert_eq!(one, many);
    let first: String = one.row(0).iter().collect();
    assert_eq!(first, "####    ####    ####    ####    ");
    let fifth: String = one.row(4).iter().collect();
    assert_eq!(fifth, "    ####    ####    ####    ####");
}

#[test]
fn conversion_is_repeatable() {
    let font = block_font();
    let frame = chequered(16, 3);
    for edge in [false, true] {
        let adj = Adjustment { brightness_offset: 10, noise_scale: 0, noise_seed: 1, edge_detection: edge };
        let other = Adjustment { brightness_offset: 10, noise_scale: 0, noise_seed: 99, edge_detection: edge };
        let a = img_to_char_rows(&font, &frame, Metric::Coverage, 7, &adj, 1).unwrap();
        let b = img_to_char_rows(&font, &frame, Metric::Coverage, 7, &adj, 1).unwrap();
        let c = img_to_char_rows(&font, &frame, Metric::Coverage, 7, &other, 3).unwrap();
        assert_eq!(a, b);
        assert_eq!(a, c);
    }
}

#[test]
fn grid_has_the_requested_width_and_proportional_height() {
    let font = block_font();
    let frame = gray_frame(10, 20, &[0u8; 200]);
    let grid = img_to_char_rows(&font, &frame, Metric::Coverage, 5, &plain(), 2).unwrap();
    assert_eq!(grid.width(), 5);
    assert_eq!(grid.height(), 10);
    let wide = gray_frame(20, 10, &[0u8; 200]);
    let grid = img_to_char_rows(&font, &wide, Metric::Coverage, 7, &plain(), 2).unwrap();
    assert_eq!(grid.width(), 7);
    assert_eq!(grid.height(), 4);
    for r in 0..grid.height() {
        assert_eq!(grid.row(r).len(), 7);
    }
}

#[test]
fn single_pixel_frame_yields_a_single_cell() {
    let font = block_font();
    let frame = gray_frame(1, 1, &[0]);
    let grid = img_to_char_rows(&font, &frame, Metric::Grad, 1, &plain(), 1).unwrap();
    assert_eq!(grid.height(), 1);
    assert_eq!(grid.width(), 1);
    assert_eq!(grid.rows(), &vec![vec!['#']]);
}

#[test]
fn width_that_does_not_divide_the_frame_keeps_every_column() {
    let font = block_font();
    let frame = gray_frame(5, 1, &[0, 0, 0, 0, 255]);
    let grid = img_to_char_rows(&font, &frame, Metric::Coverage, 5, &plain(), 1).unwrap();
    assert_eq!(grid.rows(), &vec![vec!['#', '#', '#', '#', ' ']]);
    let frame = gray_frame(7, 2, &[0, 0, 0, 0, 0, 0, 255, 0, 0, 0, 0, 0, 0, 255]);
    let grid = img_to_char_rows(&font, &frame, Metric::Coverage, 7, &plain(), 1).unwrap();
    assert_eq!(grid.width(), 7);
    assert_eq!(grid.rows(), &vec![
        vec!['#', '#', '#', '#', '#', '#', ' '],
        vec!['#', '#', '#', '#', '#', '#', ' '],
    ]);
}

#[test]
fn conversion_reports_each_failure() {
    let font = block_font();
    let frame = gray_frame(2, 2, &[0, 0, 0, 0]);
    let empty = Frame::new(0, 5, vec![]).unwrap();
    assert_eq!(
        img_to_char_rows(&font, &frame, Metric::Grad, 1, &plain(), 0),
        Err(ConversionError::InvalidThreadCount)
    );
    assert_eq!(
        img_to_char_rows(&font, &frame, Metric::Grad, 0, &plain(), 1),
        Err(ConversionError::InvalidConfiguration)
    );
    assert_eq!(
        img_to_char_rows(&font, &empty, Metric::Grad, 1, &plain(), 1),
        Err(ConversionError::EmptyImage)
    );
    assert_eq!(
        img_to_char_rows(&font, &empty, Metric::Grad, 0, &plain(), 0),
        Err(ConversionError::InvalidThreadCount)
    );
    assert_eq!(
        img_to_char_rows(&font, &frame, Metric::Grad, usize::MAX, &plain(), 1),
        Err(ConversionError::InvalidConfiguration)
    );
    let tall = gray_frame(1, 3, &[0, 0, 0]);
    assert_eq!(
        img_to_char_rows(&font, &tall, Metric::Grad, 1_000_000_000, &plain(), 1),
        Err(ConversionError::InvalidConfiguration)
    );
}
