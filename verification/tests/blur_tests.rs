use lvie::boxblur::{
    FastBoxBlur, FastBoxBlur_rgb, FastBoxBlur_rgba, FastGaussianBlur, FastGaussianBlur_rgb, FastGaussianBlur_rgba,
    PixelBuffer, Pixels,
};
use lvie::window::channelimage2window;

fn row_rgb() -> PixelBuffer {
    // three pixels in one row: red 10/20/30, green 0, blue 255
    PixelBuffer { width: 3, height: 1, channels: 3, data: vec![10, 0, 255, 20, 0, 255, 30, 0, 255] }
}

#[test]
fn box_blur_rgb_averages_the_box() {
    let out = FastBoxBlur_rgb(&row_rgb(), 1);
    assert_eq!(out.width, 3);
    assert_eq!(out.height, 1);
    assert_eq!(out.channels, 3);
    // the running sums leave out the first column: the box of pixel 0 sums
    // column 1 only but counts two pixels
    assert_eq!(out.data, vec![10, 0, 127, 16, 0, 170, 25, 0, 255]);
}

#[test]
fn box_blur_radius_zero_clears_the_first_column() {
    let out = FastBoxBlur_rgb(&row_rgb(), 0);
    assert_eq!(out.data, vec![0, 0, 0, 20, 0, 255, 30, 0, 255]);
}

#[test]
fn box_blur_rgba_carries_alpha() {
    let img = PixelBuffer {
        width: 2,
        height: 2,
        channels: 4,
        data: vec![4, 4, 4, 9, 8, 8, 8, 99, 12, 12, 12, 50, 16, 16, 16, 60],
    };
    let out = FastBoxBlur_rgba(&img, 1);
    // every box is the whole image (4 pixels); the sums cover column 1:
    // 8 + 16 = 24, 24 / 4 = 6
    assert_eq!(
        out.data,
        vec![6, 6, 6, 0, 6, 6, 6, 99, 6, 6, 6, 50, 6, 6, 6, 60]
    );
}

#[test]
fn gaussian_blur_is_the_last_box_pass() {
    let img = row_rgb();
    let out = FastGaussianBlur_rgb(&img, &vec![1, 3]);
    assert_eq!(out.data, FastBoxBlur_rgb(&img, 1).data);
    let out = FastGaussianBlur_rgb(&img, &vec![3, 1]);
    assert_eq!(out.data, FastBoxBlur_rgb(&img, 0).data);

    let rgba = PixelBuffer { width: 2, height: 1, channels: 4, data: vec![1, 2, 3, 4, 5, 6, 7, 8] };
    let out = FastGaussianBlur_rgba(&rgba, &vec![3, 3, 3]);
    assert_eq!(out.data, FastBoxBlur_rgba(&rgba, 1).data);
    assert_eq!(out.data, vec![2, 3, 3, 0, 2, 3, 3, 8]);
}

#[test]
fn window_layout_of_a_channel() {
    let out = channelimage2window(vec![0u8, 1, 2, 3, 4, 5], 3, 2, 2, 2);
    assert_eq!(out, vec![0, 3, 1, 4, 2, 5]);
}

#[test]
fn window_layout_with_one_row_windows() {
    let out = channelimage2window(vec![0u8, 1, 2, 3, 4, 5], 3, 2, 1, 1);
    assert_eq!(out, vec![0, 3]);
}

#[test]
fn generic_box_blur_of_8_bit_samples_matches_rgba() {
    let img = PixelBuffer {
        width: 3,
        height: 2,
        channels: 4,
        data: vec![
            255, 0, 10, 1, 255, 30, 20, 2, 255, 60, 30, 3, 200, 90, 40, 4, 100, 120, 50, 5, 0, 150, 60, 6,
        ],
    };
    for radius in 0..4 {
        assert_eq!(FastBoxBlur(&img, radius).data, FastBoxBlur_rgba(&img, radius).data);
    }
    // pixel (0, 1): box of columns 0..=2 (column 0 left out of the sums) and
    // both rows, 6 pixels: red (255 + 255 + 100 + 0) / 6 = 101
    assert_eq!(FastBoxBlur(&img, 1).data[4], 101);
}

fn square16() -> Pixels<u16> {
    Pixels {
        width: 2,
        height: 2,
        channels: 4,
        data: vec![
            1000, 1000, 1000, 9, 60000, 60000, 60000, 65535, 30000, 30000, 30000, 50, 65535, 65535, 65535, 60,
        ],
    }
}

#[test]
fn generic_box_blur_of_16_bit_samples() {
    let out = FastBoxBlur(&square16(), 1);
    assert_eq!((out.width, out.height, out.channels), (2, 2, 4));
    // every box is the whole image (4 pixels); the sums cover column 1:
    // (60000 + 65535) / 4 = 31383
    let m = 31383u16;
    assert_eq!(out.data, vec![m, m, m, 0, m, m, m, 65535, m, m, m, 50, m, m, m, 60]);
    // radius 0: column 0 is cleared, column 1 is kept
    let out = FastBoxBlur(&square16(), 0);
    assert_eq!(out.data, vec![0, 0, 0, 0, 60000, 60000, 60000, 65535, 0, 0, 0, 50, 65535, 65535, 65535, 60]);
}

#[test]
fn generic_gaussian_blur_of_16_bit_samples_is_the_last_box_pass() {
    let img = square16();
    assert_eq!(FastGaussianBlur(&img, &vec![1, 3]).data, FastBoxBlur(&img, 1).data);
    assert_eq!(FastGaussianBlur(&img, &vec![3, 1]).data, FastBoxBlur(&img, 0).data);
}
