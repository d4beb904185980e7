use lvie::gpu::{compute_work_group_count, padded_bytes_per_row, unpad_rows, GPUBackens, GPUError, GPUShaderType};

#[test]
fn work_groups_cover_the_image() {
    assert_eq!(compute_work_group_count((100, 50), (16, 16)), (7, 4));
    assert_eq!(compute_work_group_count((16, 32), (16, 16)), (1, 2));
    assert_eq!(compute_work_group_count((0, 1), (16, 16)), (0, 1));
    assert_eq!(compute_work_group_count((17, 17), (8, 4)), (3, 5));
}

#[test]
fn rows_are_padded_to_256_bytes() {
    assert_eq!(padded_bytes_per_row(1), 256);
    assert_eq!(padded_bytes_per_row(64), 256);
    assert_eq!(padded_bytes_per_row(65), 512);
    assert_eq!(padded_bytes_per_row(0), 0);
    assert_eq!(padded_bytes_per_row(100), 512);
}

#[test]
fn unpadding_keeps_the_pixels_of_each_row() {
    // two rows of one pixel each, padded to 256 bytes
    let mut padded = vec![0u8; 512];
    padded[0..4].copy_from_slice(&[1, 2, 3, 4]);
    padded[4] = 77; // padding, dropped
    padded[256..260].copy_from_slice(&[5, 6, 7, 8]);
    let pixels = unpad_rows(&padded, 1, 2);
    assert_eq!(pixels.len(), 512);
    assert_eq!(&pixels[0..8], &[1, 2, 3, 4, 5, 6, 7, 8]);
    assert!(pixels[8..].iter().all(|b| *b == 0));
}

#[test]
fn shader_slots_follow_the_declaration() {
    assert_eq!(GPUShaderType::Exposition.index(), 0);
    assert_eq!(GPUShaderType::Saturation.index(), 1);
    assert_eq!(GPUShaderType::Grayscale.index(), 2);
}

#[test]
fn gpu_enums_carry_their_data() {
    let e = GPUError::UNCOMPATIBLEIMAGESIZE((1, 2), (3, 4));
    assert!(matches!(e, GPUError::UNCOMPATIBLEIMAGESIZE((1, 2), (3, 4))));
    let e = GPUError::REQUESTDEVICEERROR(String::from("no device"));
    assert!(matches!(e, GPUError::REQUESTDEVICEERROR(ref s) if s == "no device"));
    assert!(matches!(GPUBackens::VULCAN, GPUBackens::VULCAN));
}
