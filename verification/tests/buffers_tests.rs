use lvie::editor::buffers::{BufferState, Conversion};

fn run(state: &mut BufferState, plan: Vec<Conversion>) {
    for c in plan {
        state.converted(c);
    }
}

#[test]
fn fresh_copies_need_no_conversion() {
    let s = BufferState::from_rgb();
    assert!(s.rgb_update().is_empty());
    assert!(s.hsl_update().is_empty());
    assert!(s.oklab_update().is_empty());
}

#[test]
fn an_edit_in_hsl_is_carried_to_the_others() {
    let mut s = BufferState::new();
    s.replace_hsl();
    assert_eq!(s.rgb_update(), vec![Conversion::HslToRgb]);
    assert!(s.hsl_update().is_empty());
    assert_eq!(s.oklab_update(), vec![Conversion::HslToRgb, Conversion::RgbToOklab]);
}

#[test]
fn an_edit_in_oklab_goes_through_rgb() {
    let mut s = BufferState::new();
    s.replace_oklab();
    assert_eq!(s.rgb_update(), vec![Conversion::OklabToRgb]);
    assert_eq!(s.hsl_update(), vec![Conversion::OklabToRgb, Conversion::RgbToHsl]);
    let plan = s.rgb_update();
    run(&mut s, plan);
    assert_eq!(s.hsl_update(), vec![Conversion::RgbToHsl]);
}

#[test]
fn an_edit_in_rgb_rebuilds_the_others_from_it() {
    let mut s = BufferState::from_hsl();
    s.replace_rgb();
    assert!(s.rgb_update().is_empty());
    assert_eq!(s.hsl_update(), vec![Conversion::RgbToHsl]);
    assert_eq!(s.oklab_update(), vec![Conversion::RgbToOklab]);
}

#[test]
fn updating_all_copies_leaves_none_stale() {
    for bits in 0..8u8 {
        let mut s = BufferState::new();
        s.set_updated(bits & 1 != 0, bits & 2 != 0, bits & 4 != 0);
        let p = s.rgb_update();
        run(&mut s, p);
        let p = s.hsl_update();
        run(&mut s, p);
        let p = s.oklab_update();
        run(&mut s, p);
        assert!(s.rgb_update().is_empty());
        assert!(s.hsl_update().is_empty());
        assert!(s.oklab_update().is_empty());
    }
}

#[test]
fn nothing_fresh_leaves_rgb_alone() {
    let mut s = BufferState::new();
    s.set_updated(false, false, false);
    assert!(s.rgb_update().is_empty());
    assert_eq!(s.hsl_update(), vec![Conversion::RgbToHsl]);
    s.set_updates(true, false);
    s.reset();
    assert!(s.rgb_update().is_empty());
}
