//! Keyboard input: which key events stand for one key press.
use crate::text::{byte_len, bytes_up_to, debug, debug_text, opt_text};
use vstd::prelude::*;

verus! {

/// A key of the US keyboard layout.
pub struct KeyDefinition {
    pub key: String,
    pub key_code: i64,
    pub code: String,
    pub text: Option<String>,
}

/// The layout entry of a key: its name, code number, code name and text.
pub uninterp spec fn key_definition(key: Seq<char>) -> Option<(
    Seq<char>,
    int,
    Seq<char>,
    Option<Seq<char>>,
)>;

/// The model of a key definition.
pub open spec fn definition_view(d: Option<KeyDefinition>) -> Option<(
    Seq<char>,
    int,
    Seq<char>,
    Option<Seq<char>>,
)> {
    match d {
        Some(d) => Some((d.key@, d.key_code as int, d.code@, opt_text(d.text))),
        None => None,
    }
}

/// `chromiumoxide::keys::get_key_definition`: the first entry of the crate's layout table
/// whose key is the given one, named [`key_definition`]. An entry that is found carries
/// the key it was looked up by.
#[verifier::external_body]
fn get_key_definition(key: &str) -> (res: Option<KeyDefinition>)
    ensures
        definition_view(res) == key_definition(key@),
        res is Some ==> res.unwrap().key@ == key@,
{
    chromiumoxide::keys::get_key_definition(key).map(
        |d| KeyDefinition {
            key: d.key.to_string(),
            key_code: d.key_code,
            code: d.code.to_string(),
            text: d.text.map(|t| t.to_string()),
        },
    )
}

/// The type of a key event.
#[derive(Clone, Copy, Debug, PartialEq, Eq, Structural)]
pub enum KeyEventType {
    /// A key that produces text goes down.
    KeyDown,
    /// A pure control key goes down.
    RawKeyDown,
    KeyUp,
}

/// One `Input.dispatchKeyEvent`.
pub struct KeyEvent {
    pub kind: KeyEventType,
    pub text: Option<String>,
    pub key: String,
    pub code: String,
    pub windows_virtual_key_code: i64,
    pub native_virtual_key_code: i64,
}

/// The text that a key delivers: its own, or the key itself where that is one byte.
pub open spec fn key_text(key: Seq<char>, text: Option<Seq<char>>) -> Option<Seq<char>> {
    match text {
        Some(t) => Some(t),
        None => if byte_len(key) == 1 {
            Some(key)
        } else {
            None
        },
    }
}

/// Whether an event is of the given type and speaks of the given key.
pub open spec fn is_event(
    e: KeyEvent,
    kind: KeyEventType,
    def: (Seq<char>, int, Seq<char>, Option<Seq<char>>),
) -> bool {
    &&& e.kind == kind
    &&& opt_text(e.text) == key_text(def.0, def.3)
    &&& e.key@ == def.0
    &&& e.code@ == def.2
    &&& e.windows_virtual_key_code == def.1
    &&& e.native_virtual_key_code == def.1
}

/// The type of the event that presses a key down.
pub open spec fn down_type(def: (Seq<char>, int, Seq<char>, Option<Seq<char>>)) -> KeyEventType {
    if key_text(def.0, def.3) is Some {
        KeyEventType::KeyDown
    } else {
        KeyEventType::RawKeyDown
    }
}

/// The down and up events of a key press. A key that produces text is pressed with
/// `keyDown`, so that its text is delivered; a pure control key with `rawKeyDown`.
pub fn key_events(def: &KeyDefinition) -> (res: (KeyEvent, KeyEvent))
    ensures
        ({
            let d = (def.key@, def.key_code as int, def.code@, opt_text(def.text));
            &&& is_event(res.0, down_type(d), d)
            &&& is_event(res.1, KeyEventType::KeyUp, d)
        }),
        res.0.key@ == def.key@ && res.1.key@ == def.key@,
        res.0.code@ == def.code@ && res.1.code@ == def.code@,
        res.0.windows_virtual_key_code == def.key_code,
        res.0.native_virtual_key_code == def.key_code,
        res.1.windows_virtual_key_code == def.key_code,
        res.1.native_virtual_key_code == def.key_code,
        res.1.kind == KeyEventType::KeyUp,
        def.text matches Some(t) ==> res.0.kind == KeyEventType::KeyDown && opt_text(res.0.text)
            == Some(t@) && opt_text(res.1.text) == Some(t@),
        def.text is None && byte_len(def.key@) == 1 ==> res.0.kind == KeyEventType::KeyDown
            && opt_text(res.0.text) == Some(def.key@) && opt_text(res.1.text) == Some(def.key@),
        def.text is None && byte_len(def.key@) != 1 ==> res.0.kind == KeyEventType::RawKeyDown
            && res.0.text is None && res.1.text is None,
{
    let text = match &def.text {
        Some(t) => Some(t.clone()),
        None => if bytes_up_to(def.key.as_str(), 2) == 1 {
            Some(def.key.clone())
        } else {
            None
        },
    };
    let kind = if text.is_some() {
        KeyEventType::KeyDown
    } else {
        KeyEventType::RawKeyDown
    };
    let up_text = crate::text::clone_opt(&text);
    (
        KeyEvent {
            kind,
            text,
            key: def.key.clone(),
            code: def.code.clone(),
            windows_virtual_key_code: def.key_code,
            native_virtual_key_code: def.key_code,
        },
        KeyEvent {
            kind: KeyEventType::KeyUp,
            text: up_text,
            key: def.key.clone(),
            code: def.code.clone(),
            windows_virtual_key_code: def.key_code,
            native_virtual_key_code: def.key_code,
        },
    )
}

/// The events of a press of `key`, or an error for a key that the layout does not have.
pub fn dispatch_key(key: &str) -> (res: Result<(KeyEvent, KeyEvent), String>)
    ensures
        match key_definition(key@) {
            Some(def) => {
                &&& res is Ok
                &&& is_event(res->Ok_0.0, down_type(def), def)
                &&& is_event(res->Ok_0.1, KeyEventType::KeyUp, def)
                &&& res->Ok_0.0.key@ == key@
                &&& res->Ok_0.1.key@ == key@
                &&& res->Ok_0.0.code@ == def.2 && res->Ok_0.1.code@ == def.2
                &&& res->Ok_0.0.windows_virtual_key_code == def.1
                &&& res->Ok_0.1.windows_virtual_key_code == def.1
                &&& res->Ok_0.0.native_virtual_key_code == def.1
                &&& res->Ok_0.1.native_virtual_key_code == def.1
                &&& opt_text(res->Ok_0.1.text) == opt_text(res->Ok_0.0.text)
                &&& res->Ok_0.1.kind == KeyEventType::KeyUp
                &&& def.3 matches Some(t) ==> res->Ok_0.0.kind == KeyEventType::KeyDown && opt_text(
                    res->Ok_0.0.text,
                ) == Some(t)
                &&& def.3 is None && byte_len(key@) == 1 ==> res->Ok_0.0.kind
                    == KeyEventType::KeyDown && opt_text(res->Ok_0.0.text) == Some(key@)
                &&& def.3 is None && byte_len(key@) != 1 ==> res->Ok_0.0.kind
                    == KeyEventType::RawKeyDown && res->Ok_0.0.text is None
            },
            None => res is Err && res->Err_0@ == "unknown key "@ + debug_text(key@)
                + " — use DOM key values like Enter, Tab, Escape, Backspace, ArrowDown, PageDown, a, 1"@,
        },
{
    match get_key_definition(key) {
        Some(def) => Ok(key_events(&def)),
        None => {
            let mut e = "unknown key ".to_owned();
            let d = debug(key);
            e.append(d.as_str());
            e.append(
                " — use DOM key values like Enter, Tab, Escape, Backspace, ArrowDown, PageDown, a, 1",
            );
            Err(e)
        },
    }
}

} // verus!
