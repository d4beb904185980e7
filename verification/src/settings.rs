//! The editor's stored settings and the layout of the file they are
//! written to.

pub mod history;
pub mod keyboard_shortcuts;

use crate::editor::rendering::RenderingBackends;
use crate::text::{replace_all, replace_str};
use keyboard_shortcuts::{is_default_keyboard, Keyboard};
use vstd::prelude::*;

verus! {

/// The stored settings.
#[derive(Debug)]
pub struct Settings {
    pub backend: RenderingBackends,
    pub start_maximized: bool,
    pub keyboard_shortcuts: Keyboard,
}

impl Default for Settings {
    /// Rendering on the GPU, a window of normal size and the default
    /// shortcuts.
    fn default() -> (s: Self)
        ensures
            s.backend == RenderingBackends::GPU,
            !s.start_maximized,
            is_default_keyboard(s.keyboard_shortcuts),
    {
        Settings {
            backend: RenderingBackends::GPU,
            start_maximized: false,
            keyboard_shortcuts: Keyboard::default(),
        }
    }
}

/// The layout of the settings file: each element on a line of its own,
/// indented by one tab, the root element at the margin.
pub open spec fn settings_xml_layout(content: Seq<char>) -> Seq<char> {
    replace_all(
        replace_all(
            replace_all(
                replace_all(replace_all(content, "<"@, "\n\t<"@), "\n\t</"@, "</"@),
                "\n\t<Settings"@,
                "<Settings"@,
            ),
            "</Settings"@,
            "\n</Settings"@,
        ),
        "\n\n"@,
        "\n"@,
    )
}

/// Lays out the serialized settings for reading.
pub fn prettify_settings_xml(content: String) -> (r: String)
    ensures
        r@ == settings_xml_layout(content@),
{
    proof {
        reveal_strlit("<");
        reveal_strlit("\n\t</");
        reveal_strlit("\n\t<Settings");
        reveal_strlit("</Settings");
        reveal_strlit("\n\n");
    }
    let a = replace_str(content.as_str(), "<", "\n\t<");
    let b = replace_str(a.as_str(), "\n\t</", "</");
    let c = replace_str(b.as_str(), "\n\t<Settings", "<Settings");
    let d = replace_str(c.as_str(), "</Settings", "\n</Settings");
    replace_str(d.as_str(), "\n\n", "\n")
}

} // verus!
