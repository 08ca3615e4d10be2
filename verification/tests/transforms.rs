use screencast::screen::blank;
use screencast::screen::crop;
use screencast::screen::CropValues;
use screencast::screen::Frame;

fn solid_frame(width: u32, height: u32, pixel: [u8; 4]) -> Frame {
    let mut data = Vec::new();
    for _ in 0..(width as usize * height as usize) {
        data.extend_from_slice(&pixel);
    }
    Frame { data, width, height }
}

fn pixel_at(frame: &Frame, x: u32, y: u32) -> [u8; 4] {
    let i = (y as usize * frame.width as usize + x as usize) * 4;
    [frame.data[i], frame.data[i + 1], frame.data[i + 2], frame.data[i + 3]]
}

#[test]
fn crop_left_half_whitens_left_columns() {
    let mut f = solid_frame(4, 2, [255, 0, 0, 255]);
    crop(&mut f, CropValues::new(50, 0, 0, 0));
    for y in 0..2 {
        assert_eq!(pixel_at(&f, 0, y), [255, 255, 255, 255]);
        assert_eq!(pixel_at(&f, 1, y), [255, 255, 255, 255]);
        assert_eq!(pixel_at(&f, 2, y), [255, 0, 0, 255]);
        assert_eq!(pixel_at(&f, 3, y), [255, 0, 0, 255]);
    }
    assert_eq!(f.width, 4);
    assert_eq!(f.height, 2);
    assert_eq!(f.data.len(), 4 * 2 * 4);
}

#[test]
fn crop_rounds_pixel_bounds() {
    // 25% of 6 columns is 1.5, which rounds up to 2 columns.
    let mut f = solid_frame(6, 1, [10, 20, 30, 40]);
    crop(&mut f, CropValues::new(25, 0, 0, 0));
    assert_eq!(pixel_at(&f, 0, 0), [255, 255, 255, 255]);
    assert_eq!(pixel_at(&f, 1, 0), [255, 255, 255, 255]);
    assert_eq!(pixel_at(&f, 2, 0), [10, 20, 30, 40]);
}

#[test]
fn crop_is_idempotent() {
    let mut once = solid_frame(8, 8, [1, 2, 3, 4]);
    let spec = CropValues::new(30, 40, 10, 90);
    crop(&mut once, spec);
    let mut twice_data = once.data.clone();
    let mut twice = Frame { data: std::mem::take(&mut twice_data), width: 8, height: 8 };
    crop(&mut twice, spec);
    assert_eq!(once.data, twice.data);
}

#[test]
fn crop_overlapping_bounds_stay_in_range() {
    // left + right and top + bottom both exceed 100%: every pixel is
    // covered, nothing panics, the buffer keeps its size.
    let mut f = solid_frame(3, 3, [9, 9, 9, 9]);
    crop(&mut f, CropValues::new(100, 100, 100, 100));
    assert_eq!(f.data.len(), 3 * 3 * 4);
    assert!(f.data.iter().all(|b| *b == 255));

    let mut g = solid_frame(5, 5, [9, 9, 9, 9]);
    crop(&mut g, CropValues::new(60, 60, 60, 60));
    assert_eq!(g.data.len(), 5 * 5 * 4);
    assert!(g.data.iter().all(|b| *b == 255));
}

#[test]
fn crop_zero_spec_changes_nothing() {
    let mut f = solid_frame(4, 4, [7, 8, 9, 10]);
    let before = f.data.clone();
    crop(&mut f, CropValues::new(0, 0, 0, 0));
    assert_eq!(f.data, before);
}

#[test]
fn crop_zero_dimension_frame_is_noop() {
    let mut f = Frame { data: Vec::new(), width: 0, height: 0 };
    crop(&mut f, CropValues::new(100, 0, 50, 0));
    assert_eq!(f.data.len(), 0);
}

#[test]
fn blank_true_paints_all_white() {
    let mut f = solid_frame(4, 3, [1, 2, 3, 4]);
    blank(&mut f, true);
    assert!(f.data.iter().all(|b| *b == 255));
    assert_eq!(f.width, 4);
    assert_eq!(f.height, 3);
}

#[test]
fn blank_false_changes_nothing() {
    let mut f = solid_frame(4, 3, [1, 2, 3, 4]);
    let before = f.data.clone();
    blank(&mut f, false);
    assert_eq!(f.data, before);
}

#[test]
fn blank_takes_precedence_over_crop() {
    let mut f = solid_frame(6, 6, [11, 22, 33, 44]);
    crop(&mut f, CropValues::new(17, 3, 88, 0));
    blank(&mut f, true);
    assert!(f.data.iter().all(|b| *b == 255));
}
