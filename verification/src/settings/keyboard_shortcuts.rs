//! Keyboard shortcuts: the actions bound to a key under a set of modifier
//! keys, and the layout of the file they are stored in.

use crate::text::{replace_all, replace_str};
use vstd::prelude::*;

verus! {

/// A modifier key held together with a shortcut's key.
#[derive(PartialEq, Eq, Structural, Clone, Copy, Debug)]
pub enum MODIFIER {
    ALT,
    CTRL,
    SHIFT,
}

/// An action triggered by a key pressed with exactly these modifiers.
#[derive(Debug)]
pub struct Binding {
    action: String,
    modifiers: Vec<MODIFIER>,
}

impl Binding {
    pub closed spec fn action_text(&self) -> Seq<char> {
        self.action@
    }

    pub closed spec fn modifier_list(&self) -> Seq<MODIFIER> {
        self.modifiers@
    }

    pub fn new(action: String, modifiers: Vec<MODIFIER>) -> (b: Binding)
        ensures
            b.action_text() == action@,
            b.modifier_list() == modifiers@,
    {
        Binding { action, modifiers }
    }

    pub fn action(&self) -> (r: &String)
        ensures
            r@ == self.action_text(),
    {
        &self.action
    }

    pub fn modifiers(&self) -> (r: &Vec<MODIFIER>)
        ensures
            r@ == self.modifier_list(),
    {
        &self.modifiers
    }
}

/// A key and the actions bound to it.
#[derive(Debug)]
pub struct Key {
    value: String,
    bindings: Vec<Binding>,
}

/// Index of the first binding whose modifiers are exactly `modifiers`, if
/// any.
pub open spec fn first_binding_with(bindings: Seq<Binding>, modifiers: Seq<MODIFIER>) -> Option<int>
    decreases bindings.len(),
{
    if bindings.len() == 0 {
        None
    } else if bindings[0].modifier_list() == modifiers {
        Some(0)
    } else {
        match first_binding_with(bindings.subrange(1, bindings.len() as int), modifiers) {
            Some(i) => Some(i + 1),
            None => None,
        }
    }
}

/// The first matching binding is a binding of the list, with exactly the
/// modifiers looked for, and no binding before it has them.
proof fn lemma_first_binding(bindings: Seq<Binding>, modifiers: Seq<MODIFIER>)
    ensures
        first_binding_with(bindings, modifiers) matches Some(i) ==> {
            &&& 0 <= i < bindings.len()
            &&& bindings[i].modifier_list() == modifiers
            &&& forall|j: int| 0 <= j < i ==> #[trigger] bindings[j].modifier_list() != modifiers
        },
        first_binding_with(bindings, modifiers) is None ==> forall|j: int|
            0 <= j < bindings.len() ==> #[trigger] bindings[j].modifier_list() != modifiers,
    decreases bindings.len(),
{
    if bindings.len() > 0 {
        let rest = bindings.subrange(1, bindings.len() as int);
        lemma_first_binding(rest, modifiers);
        assert forall|j: int| 1 <= j < bindings.len() implies #[trigger] bindings[j].modifier_list()
            == rest[j - 1].modifier_list() by {
            assert(bindings[j] == rest[j - 1]);
        }
    }
}

/// An optional index moved `by` places further.
pub open spec fn shifted(index: Option<int>, by: int) -> Option<int> {
    match index {
        Some(i) => Some(i + by),
        None => None,
    }
}

/// Two modifier lists are the same, element by element.
fn same_modifiers(a: &Vec<MODIFIER>, b: &Vec<MODIFIER>) -> (r: bool)
    ensures
        r == (a@ == b@),
{
    if a.len() != b.len() {
        return false;
    }
    let mut i: usize = 0;
    while i < a.len()
        invariant
            a.len() == b.len(),
            i <= a.len(),
            forall|k: int| 0 <= k < i ==> a@[k] == b@[k],
        decreases a.len() - i,
    {
        if a[i] != b[i] {
            return false;
        }
        i = i + 1;
    }
    assert(a@ =~= b@);
    true
}

impl Key {
    pub closed spec fn value_text(&self) -> Seq<char> {
        self.value@
    }

    pub closed spec fn binding_list(&self) -> Seq<Binding> {
        self.bindings@
    }

    pub fn new(value: String, bindings: Vec<Binding>) -> (k: Key)
        ensures
            k.value_text() == value@,
            k.binding_list() == bindings@,
    {
        Key { value, bindings }
    }

    /// Whether this is the key named `x`.
    pub fn is(&self, x: &String) -> (r: bool)
        ensures
            r == (x@ == self.value_text()),
    {
        x.eq(&self.value)
    }

    pub fn value(&self) -> (r: &String)
        ensures
            r@ == self.value_text(),
    {
        &self.value
    }

    pub fn bindings(&self) -> (r: &Vec<Binding>)
        ensures
            r@ == self.binding_list(),
    {
        &self.bindings
    }

    /// The first binding of the key whose modifiers are exactly
    /// `modifiers`.
    pub fn get_binding_by_modifiers(&self, modifiers: &Vec<MODIFIER>) -> (r: Option<&Binding>)
        ensures
            match first_binding_with(self.binding_list(), modifiers@) {
                Some(i) => r == Some(&self.binding_list()[i]),
                None => r is None,
            },
            r matches Some(b) ==> b.modifier_list() == modifiers@,
            r is None <==> forall|j: int|
                0 <= j < self.binding_list().len() ==> #[trigger] self.binding_list()[j].modifier_list()
                    != modifiers@,
    {
        proof {
            lemma_first_binding(self.bindings@, modifiers@);
        }
        let mut i: usize = 0;
        assert(self.bindings@.subrange(0, self.bindings@.len() as int) =~= self.bindings@);
        while i < self.bindings.len()
            invariant
                i <= self.bindings@.len(),
                first_binding_with(self.bindings@, modifiers@) == shifted(
                    first_binding_with(
                    self.bindings@.subrange(i as int, self.bindings@.len() as int),
                    modifiers@,
                ),
                i as int,
            ),
            decreases self.bindings.len() - i,
        {
            let ghost rest = self.bindings@.subrange(i as int, self.bindings@.len() as int);
            if same_modifiers(&self.bindings[i].modifiers, modifiers) {
                assert(rest[0] == self.bindings@[i as int]);
                return Some(&self.bindings[i]);
            }
            assert(rest.subrange(1, rest.len() as int) =~= self.bindings@.subrange(
                i + 1,
                self.bindings@.len() as int,
            ));
            i = i + 1;
        }
        None
    }
}

/// The keyboard shortcuts, one entry per key.
#[derive(Debug)]
pub struct Keyboard {
    keys: Vec<Key>,
}

impl Keyboard {
    pub closed spec fn key_list(&self) -> Seq<Key> {
        self.keys@
    }

    pub fn new(keys: Vec<Key>) -> (k: Keyboard)
        ensures
            k.key_list() == keys@,
    {
        Keyboard { keys }
    }

    /// The keys, in the order they were given.
    pub fn keys(&self) -> (r: &Vec<Key>)
        ensures
            r@ == self.key_list(),
    {
        &self.keys
    }
}

/// Key `k` of a keyboard is `value` with the single binding of `action` under
/// `modifiers`.
pub open spec fn binds_once(k: Key, value: Seq<char>, modifiers: Seq<MODIFIER>, action: Seq<char>) -> bool {
    &&& k.value_text() == value
    &&& k.binding_list().len() == 1
    &&& k.binding_list()[0].modifier_list() == modifiers
    &&& k.binding_list()[0].action_text() == action
}

/// The shortcuts of a fresh installation: open, undo, redo and close with
/// Ctrl, and rotate with Ctrl and Shift.
pub open spec fn is_default_keyboard(kb: Keyboard) -> bool {
    &&& kb.key_list().len() == 5
    &&& binds_once(kb.key_list()[0], "o"@, seq![MODIFIER::CTRL], "editor.file.open"@)
    &&& binds_once(kb.key_list()[1], "z"@, seq![MODIFIER::CTRL], "editor.preview.undo"@)
    &&& binds_once(kb.key_list()[2], "y"@, seq![MODIFIER::CTRL], "editor.preview.redo"@)
    &&& binds_once(kb.key_list()[3], "e"@, seq![MODIFIER::CTRL], "editor.file.close"@)
    &&& binds_once(
        kb.key_list()[4],
        "r"@,
        seq![MODIFIER::CTRL, MODIFIER::SHIFT],
        "editor.image.rotate-90-deg"@,
    )
}

fn single_binding(value: &str, modifiers: Vec<MODIFIER>, action: &str) -> (k: Key)
    ensures
        binds_once(k, value@, modifiers@, action@),
{
    let b = Binding::new(action.to_owned(), modifiers);
    let mut bindings: Vec<Binding> = Vec::new();
    bindings.push(b);
    Key::new(value.to_owned(), bindings)
}

impl Default for Keyboard {
    /// The shortcuts of a fresh installation: open, undo, redo, close and
    /// rotate.
    fn default() -> (kb: Self)
        ensures
            is_default_keyboard(kb),
    {
        let mut keys: Vec<Key> = Vec::new();
        let open = vec![MODIFIER::CTRL];
        assert(open@ =~= seq![MODIFIER::CTRL]);
        keys.push(single_binding("o", open, "editor.file.open"));
        let undo = vec![MODIFIER::CTRL];
        assert(undo@ =~= seq![MODIFIER::CTRL]);
        keys.push(single_binding("z", undo, "editor.preview.undo"));
        let redo = vec![MODIFIER::CTRL];
        assert(redo@ =~= seq![MODIFIER::CTRL]);
        keys.push(single_binding("y", redo, "editor.preview.redo"));
        let close = vec![MODIFIER::CTRL];
        assert(close@ =~= seq![MODIFIER::CTRL]);
        keys.push(single_binding("e", close, "editor.file.close"));
        let rotate = vec![MODIFIER::CTRL, MODIFIER::SHIFT];
        assert(rotate@ =~= seq![MODIFIER::CTRL, MODIFIER::SHIFT]);
        keys.push(single_binding("r", rotate, "editor.image.rotate-90-deg"));
        Keyboard { keys }
    }
}

/// The layout of the shortcuts file: each key on a line of its own, its
/// bindings indented beneath it.
pub open spec fn keyboard_xml_layout(content: Seq<char>) -> Seq<char> {
    replace_all(
        replace_all(replace_all(content, "<key"@, "\n\t<key"@), "<binding"@, "\n\t\t<binding"@),
        "</key>"@,
        "\n\t</key>\n"@,
    )
}

/// Lays out the serialized shortcuts for reading.
pub fn prettify_keyboard_xml(content: String) -> (r: String)
    ensures
        r@ == keyboard_xml_layout(content@),
{
    proof {
        reveal_strlit("<key");
        reveal_strlit("<binding");
        reveal_strlit("</key>");
    }
    let a = replace_str(content.as_str(), "<key", "\n\t<key");
    let b = replace_str(a.as_str(), "<binding", "\n\t\t<binding");
    replace_str(b.as_str(), "</key>", "\n\t</key>\n")
}

} // verus!
