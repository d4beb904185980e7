use lvie::boxblur::PixelBuffer;
use lvie::img_processing::{collect_histogram_data, crop};

fn gradient() -> PixelBuffer {
    // 3 by 2 RGB image; the samples count up
    PixelBuffer { width: 3, height: 2, channels: 3, data: (0u8..18).collect() }
}

#[test]
fn crop_takes_the_region() {
    let out = crop(&gradient(), 1, 0, 2, 2);
    assert_eq!(out.width, 2);
    assert_eq!(out.height, 2);
    assert_eq!(out.channels, 3);
    assert_eq!(out.data, vec![3, 4, 5, 6, 7, 8, 12, 13, 14, 15, 16, 17]);

    let out = crop(&gradient(), 2, 1, 1, 1);
    assert_eq!(out.data, vec![15, 16, 17]);

    let whole = crop(&gradient(), 0, 0, 3, 2);
    assert_eq!(whole.data, gradient().data);

    let empty = crop(&gradient(), 3, 2, 0, 0);
    assert!(empty.data.is_empty());
}

#[test]
fn histograms_of_the_colour_channels() {
    let img = PixelBuffer { width: 2, height: 1, channels: 4, data: vec![1, 2, 3, 200, 1, 5, 3, 201] };
    let [r, g, b] = collect_histogram_data(&img);
    assert_eq!(r[&1], 2);
    assert_eq!(r[&0], 0);
    assert_eq!(g[&2], 1);
    assert_eq!(g[&5], 1);
    assert_eq!(b[&3], 2);
    assert_eq!(b[&200], 0);
    assert_eq!(r.len(), 256);
}

#[test]
fn preview_at_the_same_size_is_a_copy() {
    let img = PixelBuffer { width: 2, height: 1, channels: 4, data: vec![1, 2, 3, 4, 5, 6, 7, 8] };
    let out = lvie::img_processing::build_low_res_preview(&img, 2, 1);
    assert_eq!(out.width, 2);
    assert_eq!(out.height, 1);
    assert_eq!(out.data, img.data);
}

#[test]
fn preview_of_one_pixel_repeats_it() {
    let img = PixelBuffer { width: 1, height: 1, channels: 4, data: vec![10, 20, 30, 40] };
    let out = lvie::img_processing::build_low_res_preview(&img, 2, 2);
    assert_eq!(out.width, 2);
    assert_eq!(out.height, 2);
    assert_eq!(out.channels, 4);
    assert_eq!(out.data, vec![10, 20, 30, 40, 10, 20, 30, 40, 10, 20, 30, 40, 10, 20, 30, 40]);
}

#[test]
fn preview_of_an_empty_image_is_zeroed() {
    let img = PixelBuffer { width: 0, height: 0, channels: 4, data: vec![] };
    let out = lvie::img_processing::build_low_res_preview(&img, 1, 2);
    assert_eq!(out.data, vec![0; 8]);
}

#[test]
fn crop_of_16_bit_samples() {
    let src: Vec<u16> = (1000u16..1012).collect();
    // 3 by 2 pixels of 2 samples
    let out = lvie::img_processing::crop_samples(&src, 3, 2, 2, 1, 1, 2, 1);
    assert_eq!(out, vec![1008, 1009, 1010, 1011]);
}
