use lvie::backend_settings;
use lvie::editor::filters::{CurveError, CurveType, FilterType as PipelineFilter};
use lvie::editor::masks::MaskError;
use lvie::editor::rendering::{RenderingBackends, RenderingError};
use lvie::editor::{CoreBackends, CoreError, FilterType};
use lvie::gpu::GPUError;
use lvie::settings::history::OpType;
use lvie::settings::keyboard_shortcuts::{prettify_keyboard_xml, Binding, Key, Keyboard, MODIFIER};
use lvie::settings::{prettify_settings_xml, Settings};

#[test]
fn backend_names() {
    assert_eq!(RenderingBackends::GPU.name(), "GPU");
    assert_eq!(RenderingBackends::CPU.name(), "CPU");
    assert!(RenderingBackends::default() == RenderingBackends::GPU);
}

#[test]
fn built_in_settings_render_on_the_gpu() {
    let s = backend_settings::load_settings();
    assert!(s.backend == RenderingBackends::GPU);
    let s = Settings::default();
    assert!(s.backend == RenderingBackends::GPU);
    assert!(!s.start_maximized);
    assert_eq!(s.keyboard_shortcuts.keys().len(), 5);
}

#[test]
fn filter_slots_follow_the_declaration() {
    assert_eq!(FilterType::Sharpening.index(), 0);
    assert_eq!(FilterType::GaussianBlur.index(), 1);
    assert_eq!(FilterType::Boxblur.index(), 2);
    assert_eq!(FilterType::Contrast.index(), 3);
    assert_eq!(FilterType::Saturation.index(), 4);

    assert_eq!(PipelineFilter::Exposition.index(), 0);
    assert_eq!(PipelineFilter::Sharpening.index(), 1);
    assert_eq!(PipelineFilter::WhiteBalance.index(), 2);
    assert_eq!(PipelineFilter::Contrast.index(), 3);
    assert_eq!(PipelineFilter::Saturation.index(), 4);
    assert_eq!(PipelineFilter::GaussianBlur.index(), 5);
    assert_eq!(PipelineFilter::Boxblur.index(), 6);
}

#[test]
fn error_and_kind_enums() {
    assert!(matches!(CoreError::GENERICERROR("x"), CoreError::GENERICERROR("x")));
    assert!(matches!(CoreBackends::CPU, CoreBackends::CPU));
    assert!(CurveType::MONOTONE != CurveType::SMOOTH);
    assert!(matches!(CurveError::OUT_OF_RANGE(String::from("9")), CurveError::OUT_OF_RANGE(_)));
    assert!(matches!(MaskError::PointNotFound, MaskError::PointNotFound));
    assert!(matches!(MaskError::MaskNotClosed, MaskError::MaskNotClosed));
    assert!(matches!(
        RenderingError::GPUERROR(GPUError::RENDERINGERROR()),
        RenderingError::GPUERROR(GPUError::RENDERINGERROR())
    ));
    assert!(matches!(RenderingError::GENERICERROR("e"), RenderingError::GENERICERROR("e")));
    assert!(OpType::Saturation != OpType::Filter);
}

#[test]
fn default_shortcuts() {
    let kb = Keyboard::default();
    let keys = kb.keys();
    let expected = [
        ("o", vec![MODIFIER::CTRL], "editor.file.open"),
        ("z", vec![MODIFIER::CTRL], "editor.preview.undo"),
        ("y", vec![MODIFIER::CTRL], "editor.preview.redo"),
        ("e", vec![MODIFIER::CTRL], "editor.file.close"),
        ("r", vec![MODIFIER::CTRL, MODIFIER::SHIFT], "editor.image.rotate-90-deg"),
    ];
    assert_eq!(keys.len(), expected.len());
    for (key, (value, modifiers, action)) in keys.iter().zip(expected.iter()) {
        assert_eq!(key.value(), value);
        assert!(key.is(&String::from(*value)));
        assert_eq!(key.bindings().len(), 1);
        assert_eq!(key.bindings()[0].modifiers(), modifiers);
        assert_eq!(key.bindings()[0].action(), action);
    }
}

#[test]
fn binding_lookup_by_modifiers() {
    let key = Key::new(
        String::from("s"),
        vec![
            Binding::new(String::from("save"), vec![MODIFIER::CTRL]),
            Binding::new(String::from("save-as"), vec![MODIFIER::CTRL, MODIFIER::SHIFT]),
            Binding::new(String::from("other"), vec![MODIFIER::CTRL]),
        ],
    );
    let b = key.get_binding_by_modifiers(&vec![MODIFIER::CTRL]).unwrap();
    assert_eq!(b.action(), "save");
    let b = key.get_binding_by_modifiers(&vec![MODIFIER::CTRL, MODIFIER::SHIFT]).unwrap();
    assert_eq!(b.action(), "save-as");
    assert!(key.get_binding_by_modifiers(&vec![MODIFIER::SHIFT, MODIFIER::CTRL]).is_none());
    assert!(key.get_binding_by_modifiers(&vec![MODIFIER::ALT]).is_none());
    assert!(key.get_binding_by_modifiers(&vec![]).is_none());
    assert!(!key.is(&String::from("S")));
}

#[test]
fn keyboard_file_layout() {
    let xml = String::from(
        "<Keyboard><key value=\"o\"><binding action=\"editor.file.open\">ctrl</binding></key></Keyboard>",
    );
    assert_eq!(
        prettify_keyboard_xml(xml),
        "<Keyboard>\n\t<key value=\"o\">\n\t\t<binding action=\"editor.file.open\">ctrl</binding>\n\t</key>\n</Keyboard>"
    );
}

#[test]
fn settings_file_layout() {
    let xml = String::from("<Settings><backend>GPU</backend><start_maximized>false</start_maximized></Settings>");
    assert_eq!(
        prettify_settings_xml(xml),
        "<Settings>\n\t<backend>GPU</backend>\n\t<start_maximized>false</start_maximized>\n</Settings>"
    );
}
