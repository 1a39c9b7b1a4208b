use image_to_ascii::error::ConversionError;
use image_to_ascii::frame::Frame;
use image_to_ascii::sampler::Sampler;

fn ramp(width: u32, height: u32) -> Frame {
    let mut data = Vec::new();
    for y in 0..height {
        for x in 0..width {
            let v = (y * width + x) as u8;
            data.push(v);
            data.push(v);
            data.push(v);
        }
    }
    Frame::new(width, height, data).unwrap()
}

#[test]
fn sampler_lays_out_rows_and_columns() {
    let frame = ramp(10, 20);
    let s = Sampler::new(&frame, 5, (2, 4)).unwrap();
    assert_eq!(s.cols(), 5);
    assert_eq!(s.rows(), 5);
    let s = Sampler::new(&frame, 3, (7, 13)).unwrap();
    assert_eq!(s.cols(), 3);
    assert_eq!(s.rows(), 4);
    let s = Sampler::new(&frame, 1, (1, 1)).unwrap();
    assert_eq!(s.rows(), 2);
}

#[test]
fn sampler_reads_nearest_pixels() {
    let frame = ramp(4, 2);
    let s = Sampler::new(&frame, 2, (1, 1)).unwrap();
    assert_eq!(s.rows(), 1);
    assert_eq!(s.tile(0, 0), vec![0]);
    assert_eq!(s.tile(0, 1), vec![2]);
    let s = Sampler::new(&frame, 2, (2, 1)).unwrap();
    assert_eq!(s.rows(), 2);
    assert_eq!(s.tile(0, 0), vec![0, 1]);
    assert_eq!(s.tile(0, 1), vec![2, 3]);
    assert_eq!(s.tile(1, 0), vec![4, 5]);
    assert_eq!(s.tile(1, 1), vec![6, 7]);
}

#[test]
fn sampler_repeats_the_last_row_below_the_image() {
    let frame = ramp(2, 3);
    let s = Sampler::new(&frame, 1, (2, 2)).unwrap();
    assert_eq!(s.rows(), 2);
    assert_eq!(s.tile(0, 0), vec![0, 1, 2, 3]);
    assert_eq!(s.tile(1, 0), vec![4, 5, 4, 5]);
}

#[test]
fn sampler_scales_up() {
    let frame = ramp(2, 1);
    let s = Sampler::new(&frame, 2, (2, 2)).unwrap();
    assert_eq!(s.rows(), 1);
    assert_eq!(s.tile(0, 0), vec![0, 0, 0, 0]);
    assert_eq!(s.tile(0, 1), vec![1, 1, 1, 1]);
}

#[test]
fn sampler_refuses_bad_requests() {
    let frame = ramp(2, 2);
    let none = Frame::new(3, 0, vec![]).unwrap();
    assert!(matches!(Sampler::new(&frame, 0, (2, 2)), Err(ConversionError::InvalidConfiguration)));
    assert!(matches!(Sampler::new(&frame, 1, (0, 2)), Err(ConversionError::InvalidConfiguration)));
    assert!(matches!(Sampler::new(&frame, 1, (2, 70000)), Err(ConversionError::InvalidConfiguration)));
    assert!(matches!(Sampler::new(&none, 1, (2, 2)), Err(ConversionError::EmptyImage)));
    assert!(matches!(Sampler::new(&none, 0, (2, 2)), Err(ConversionError::InvalidConfiguration)));
    assert!(matches!(
        Sampler::new(&frame, 0x8000_0000, (2, 2)),
        Err(ConversionError::InvalidConfiguration)
    ));
    assert!(Sampler::new(&frame, 0x7fff_ffff, (2, 2)).is_ok());
}
