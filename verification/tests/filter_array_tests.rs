use lvie::editor::filters::{Filter, FilterArray, FilterType};

fn defaults() -> Vec<Vec<u32>> {
    (0..7).map(|i| vec![i]).collect()
}

#[test]
fn filters_take_their_slots() {
    let fa = FilterArray::new(defaults(), None);
    assert_eq!(fa.filters().len(), 7);
    assert!(fa.filters()[2].filtertype == FilterType::WhiteBalance);
    assert_eq!(fa.get_filter(FilterType::Boxblur), &vec![6]);
    assert_eq!(fa.get_filter(FilterType::Exposition), &vec![0]);
}

#[test]
fn given_filters_replace_the_defaults_the_last_one_winning() {
    let given = vec![
        Filter { filtertype: FilterType::Contrast, parameters: vec![10u32] },
        Filter { filtertype: FilterType::Saturation, parameters: vec![20] },
        Filter { filtertype: FilterType::Contrast, parameters: vec![30, 31] },
    ];
    let mut fa = FilterArray::new(defaults(), Some(given));
    assert_eq!(fa.get_filter(FilterType::Contrast), &vec![30, 31]);
    assert_eq!(fa.get_filter(FilterType::Saturation), &vec![20]);
    assert_eq!(fa.get_filter(FilterType::Sharpening), &vec![1]);
    fa.update_filter(FilterType::Sharpening, vec![99]);
    assert_eq!(fa.get_filter(FilterType::Sharpening), &vec![99]);
    assert_eq!(fa.get_filter(FilterType::Contrast), &vec![30, 31]);
}
