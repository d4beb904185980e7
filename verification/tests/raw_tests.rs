use lvie::raw_decoder::{bayer_to_rgb, supported_formats, Cfa};

fn rggb() -> Cfa {
    let mut pattern = Vec::new();
    for row in 0..48usize {
        for col in 0..48usize {
            pattern.push(match (row % 2, col % 2) {
                (0, 0) => 0,
                (1, 1) => 2,
                _ => 1,
            });
        }
    }
    Cfa { pattern }
}

#[test]
fn cfa_repeats_its_tile() {
    let cfa = rggb();
    assert_eq!(cfa.color_at(0, 0), 0);
    assert_eq!(cfa.color_at(1, 1), 2);
    assert_eq!(cfa.color_at(49, 48), 1);
    assert_eq!(cfa.color_at(96, 2), 0);
}

#[test]
fn blue_pixel_takes_the_middle_of_its_neighbours() {
    let img: Vec<u16> = vec![0, 10, 0, 20, 7, 40, 0, 30, 200];
    let out = bayer_to_rgb(&img, 3, 3, &rggb());
    assert_eq!(out, vec![0, 25, 7]);
}

#[test]
fn inner_pixels_are_demosaiced_row_by_row() {
    let img: Vec<u16> = vec![0, 12, 24, 36, 40, 50, 61, 70, 80, 90, 100, 110];
    let out = bayer_to_rgb(&img, 4, 3, &rggb());
    assert_eq!(out, vec![52, 50, 50, 62, 61, 60]);
}

#[test]
fn images_without_inner_pixels_give_nothing() {
    let out = bayer_to_rgb(&vec![1, 2, 3, 4], 2, 2, &rggb());
    assert!(out.is_empty());
}

#[test]
fn raw_formats() {
    let f = supported_formats();
    assert_eq!(f.len(), 23);
    assert_eq!(f[0], "MRW");
    assert_eq!(f[22], "NEF");
    assert!(f.contains(&"CR2"));
    assert!(f.contains(&"DNG"));
}
