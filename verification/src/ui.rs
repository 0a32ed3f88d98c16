//! The interface's state that is not drawing: request tabs, dialogs,
//! importers, modal outcomes, keyboard shortcuts and the environment chosen.
use crate::text::{chars_of, contains, contains_str, eq_str};
use vstd::prelude::*;

verus! {

/// The tabs of the request editor.
#[derive(Clone, Copy, Debug, PartialEq, Eq, Structural)]
pub enum Tab {
    Body,
    Params,
    Headers,
    Auth,
}

impl Tab {
    /// Every tab, in display order.
    pub fn all() -> (r: [Tab; 4])
        ensures
            r@ == seq![Tab::Body, Tab::Params, Tab::Headers, Tab::Auth],
    {
        let r = [Tab::Body, Tab::Params, Tab::Headers, Tab::Auth];
        assert(r@ =~= seq![Tab::Body, Tab::Params, Tab::Headers, Tab::Auth]);
        r
    }
}

/// A dialog and the path it acts on.
#[derive(Clone, Debug)]
pub enum Dialog {
    NewRequest(String),
    NewFolder(String),
    Rename(String),
    Delete(String),
    Shortcuts,
}

/// The export formats that can be imported.
#[derive(Clone, Copy, Debug, PartialEq, Eq, Structural)]
pub enum ImportFormat {
    Postman,
    Insomnia,
}

/// An import offered in the menu: its name, the file extensions it opens,
/// and the format it reads.
#[derive(Clone, Debug)]
pub struct Importer {
    pub name: &'static str,
    pub extensions: Vec<&'static str>,
    pub format: ImportFormat,
}

pub open spec fn strs(v: Seq<&'static str>) -> Seq<Seq<char>> {
    v.map_values(|s: &'static str| s@)
}

impl Importer {
    pub fn postman() -> (r: Importer)
        ensures
            r.name@ == "Postman"@,
            strs(r.extensions@) == seq!["json"@],
            r.format == ImportFormat::Postman,
    {
        let r = Importer { name: "Postman", extensions: vec!["json"], format: ImportFormat::Postman };
        assert(strs(r.extensions@) =~= seq!["json"@]);
        r
    }

    pub fn insomnia() -> (r: Importer)
        ensures
            r.name@ == "Insomnia"@,
            strs(r.extensions@) == seq!["json"@, "yaml"@, "yml"@],
            r.format == ImportFormat::Insomnia,
    {
        let r = Importer {
            name: "Insomnia",
            extensions: vec!["json", "yaml", "yml"],
            format: ImportFormat::Insomnia,
        };
        assert(strs(r.extensions@) =~= seq!["json"@, "yaml"@, "yml"@]);
        r
    }
}

/// How a modal ended this frame.
#[derive(Clone, Copy, Debug, PartialEq, Eq, Structural)]
pub enum ModalAction {
    Open,
    Confirm,
    Close,
}

/// The keys that shortcuts use.
#[derive(Clone, Copy, Debug, PartialEq, Eq, Structural)]
pub enum KeyCode {
    Enter,
    N,
    S,
    O,
    K,
    L,
    E,
    H,
    R,
    C,
    F,
    Questionmark,
}

/// What a shortcut does.
#[derive(Clone, Copy, Debug, PartialEq, Eq, Structural)]
pub enum Action {
    Send,
    New,
    Save,
    OpenFolder,
    Search,
    FocusUrl,
    NextEnv,
    History,
    ToggleRaw,
    CopyCurl,
    FocusMode,
    Help,
}

/// One keyboard shortcut: how it is shown, its key combination, and what it
/// does.
#[derive(Clone, Copy, Debug)]
pub struct Shortcut {
    pub keys: &'static str,
    pub label: &'static str,
    pub key: KeyCode,
    pub command: bool,
    pub shift: bool,
    pub action: Action,
}

/// A shortcut's key combination and action.
pub struct Binding {
    pub key: KeyCode,
    pub command: bool,
    pub shift: bool,
    pub action: Action,
}

pub open spec fn binding_of(s: Shortcut) -> Binding {
    Binding { key: s.key, command: s.command, shift: s.shift, action: s.action }
}

/// The shortcut list.
pub open spec fn shortcut_table() -> Seq<Binding> {
    seq![
        Binding { key: KeyCode::Enter, command: true, shift: false, action: Action::Send },
        Binding { key: KeyCode::N, command: true, shift: false, action: Action::New },
        Binding { key: KeyCode::S, command: true, shift: false, action: Action::Save },
        Binding { key: KeyCode::O, command: true, shift: false, action: Action::OpenFolder },
        Binding { key: KeyCode::K, command: true, shift: false, action: Action::Search },
        Binding { key: KeyCode::L, command: true, shift: false, action: Action::FocusUrl },
        Binding { key: KeyCode::E, command: true, shift: false, action: Action::NextEnv },
        Binding { key: KeyCode::H, command: true, shift: false, action: Action::History },
        Binding { key: KeyCode::R, command: true, shift: false, action: Action::ToggleRaw },
        Binding { key: KeyCode::C, command: true, shift: true, action: Action::CopyCurl },
        Binding { key: KeyCode::F, command: true, shift: true, action: Action::FocusMode },
        Binding { key: KeyCode::Questionmark, command: false, shift: false, action: Action::Help },
    ]
}

/// How each shortcut is shown: its keys and its label.
pub open spec fn shortcut_texts() -> Seq<(Seq<char>, Seq<char>)> {
    seq![
        ("⌘ Enter"@, "Send request"@),
        ("⌘ N"@, "New request"@),
        ("⌘ S"@, "Save request"@),
        ("⌘ O"@, "Open folder"@),
        ("⌘ K"@, "Search collection"@),
        ("⌘ L"@, "Focus URL bar"@),
        ("⌘ E"@, "Next environment"@),
        ("⌘ H"@, "Toggle history"@),
        ("⌘ R"@, "Toggle raw response"@),
        ("⌘ Shift C"@, "Copy as cURL"@),
        ("⌘ Shift F"@, "Focus mode"@),
        ("?"@, "Keyboard shortcuts"@),
    ]
}

/// No two shortcuts share a key combination or an action.
pub open spec fn bindings_unique(t: Seq<Binding>) -> bool {
    forall|i: int, j: int|
        0 <= i < j < t.len() ==> !(t[i].key == t[j].key && t[i].command == t[j].command
            && t[i].shift == t[j].shift) && t[i].action != t[j].action
}

/// No two shortcuts share a key combination, and no two do the same thing.
pub proof fn law_shortcuts_unique()
    ensures
        bindings_unique(shortcut_table()),
{
    let t = shortcut_table();
    assert forall|i: int, j: int| 0 <= i < j < t.len() implies !(t[i].key == t[j].key
        && t[i].command == t[j].command && t[i].shift == t[j].shift) && t[i].action
        != t[j].action by {
        assert(t.len() == 12);
    }
}

/// The single list of shortcuts: the help modal shows it and key handling
/// uses it.
pub fn shortcuts() -> (r: [Shortcut; 12])
    ensures
        r@.map_values(|s: Shortcut| binding_of(s)) == shortcut_table(),
        r@.map_values(|s: Shortcut| (s.keys@, s.label@)) == shortcut_texts(),
        bindings_unique(r@.map_values(|s: Shortcut| binding_of(s))),
{
    let r = [
        Shortcut { keys: "⌘ Enter", label: "Send request", key: KeyCode::Enter, command: true, shift: false, action: Action::Send },
        Shortcut { keys: "⌘ N", label: "New request", key: KeyCode::N, command: true, shift: false, action: Action::New },
        Shortcut { keys: "⌘ S", label: "Save request", key: KeyCode::S, command: true, shift: false, action: Action::Save },
        Shortcut { keys: "⌘ O", label: "Open folder", key: KeyCode::O, command: true, shift: false, action: Action::OpenFolder },
        Shortcut { keys: "⌘ K", label: "Search collection", key: KeyCode::K, command: true, shift: false, action: Action::Search },
        Shortcut { keys: "⌘ L", label: "Focus URL bar", key: KeyCode::L, command: true, shift: false, action: Action::FocusUrl },
        Shortcut { keys: "⌘ E", label: "Next environment", key: KeyCode::E, command: true, shift: false, action: Action::NextEnv },
        Shortcut { keys: "⌘ H", label: "Toggle history", key: KeyCode::H, command: true, shift: false, action: Action::History },
        Shortcut { keys: "⌘ R", label: "Toggle raw response", key: KeyCode::R, command: true, shift: false, action: Action::ToggleRaw },
        Shortcut { keys: "⌘ Shift C", label: "Copy as cURL", key: KeyCode::C, command: true, shift: true, action: Action::CopyCurl },
        Shortcut { keys: "⌘ Shift F", label: "Focus mode", key: KeyCode::F, command: true, shift: true, action: Action::FocusMode },
        Shortcut { keys: "?", label: "Keyboard shortcuts", key: KeyCode::Questionmark, command: false, shift: false, action: Action::Help },
    ];
    assert(r@.map_values(|s: Shortcut| binding_of(s)) =~= shortcut_table());
    assert(r@.map_values(|s: Shortcut| (s.keys@, s.label@)) =~= shortcut_texts());
    proof {
        law_shortcuts_unique();
    }
    r
}

impl Shortcut {
    /// Whether the shortcut fires for this frame's input: a command shortcut
    /// needs the command key and exactly its shift state; a bare key must not
    /// fire while typing, nor with the command key held, and `?` also fires
    /// as shift and slash.
    pub fn fires(
        &self,
        command_down: bool,
        shift_down: bool,
        key_pressed: bool,
        slash_pressed: bool,
        typing: bool,
    ) -> (r: bool)
        ensures
            self.command ==> r == (command_down && shift_down == self.shift && key_pressed),
            !self.command ==> r == (!typing && !command_down && (key_pressed || (shift_down
                && slash_pressed))),
    {
        if self.command {
            command_down && shift_down == self.shift && key_pressed
        } else {
            !typing && !command_down && (key_pressed || (shift_down && slash_pressed))
        }
    }
}

// ---------------------------------------------------------------------------
// Choosing the environment
// ---------------------------------------------------------------------------

/// The first index at or after `i` whose file is named `name`.
pub open spec fn first_named(files: Seq<Seq<char>>, name: Seq<char>, i: int) -> Option<int>
    decreases files.len() - i,
{
    if i < 0 || i >= files.len() {
        None
    } else if files[i] == name {
        Some(i)
    } else {
        first_named(files, name, i + 1)
    }
}

/// The first index at or after `i` whose file name contains `.dev`.
pub open spec fn first_dev(files: Seq<Seq<char>>, i: int) -> Option<int>
    decreases files.len() - i,
{
    if i < 0 || i >= files.len() {
        None
    } else if contains(files[i], ".dev"@) {
        Some(i)
    } else {
        first_dev(files, i + 1)
    }
}

/// The environment a workspace opens with: the remembered one when it is
/// still there, else the first development one, else the first.
pub open spec fn pick_env_spec(files: Seq<Seq<char>>, remembered: Option<Seq<char>>) -> Option<int> {
    let named = match remembered {
        Some(n) => first_named(files, n, 0),
        None => None,
    };
    match named {
        Some(i) => Some(i),
        None => match first_dev(files, 0) {
            Some(i) => Some(i),
            None => if files.len() > 0 {
                Some(0)
            } else {
                None
            },
        },
    }
}

pub open spec fn names_view(v: Seq<String>) -> Seq<Seq<char>> {
    v.map_values(|s: String| s@)
}

/// Choose the environment to select when a workspace opens.
pub fn pick_env(files: &Vec<String>, remembered: Option<&str>) -> (r: Option<usize>)
    ensures
        r == (match pick_env_spec(
            names_view(files@),
            match remembered {
                Some(n) => Some(n@),
                None => None,
            },
        ) {
            Some(i) => Some(i as usize),
            None => None,
        }),
{
    let ghost fv = names_view(files@);
    let mut named: Option<usize> = None;
    match remembered {
        Some(n) => {
            let nc = chars_of(n);
            let mut i: usize = 0;
            while i < files.len()
                invariant_except_break
                    i <= files@.len(),
                    fv == names_view(files@),
                    nc@ == n@,
                    first_named(fv, n@, 0) == first_named(fv, n@, i as int),
                    named is None,
                ensures
                    fv == names_view(files@),
                    named == (match first_named(fv, n@, 0) {
                        Some(k) => Some(k as usize),
                        None => None,
                    }),
                decreases files@.len() - i,
            {
                if eq_str(&chars_of(files[i].as_str()), n) {
                    named = Some(i);
                    break;
                }
                i += 1;
            }
        },
        None => {},
    }
    if named.is_some() {
        return named;
    }
    let ghost none_named = match remembered {
        Some(n) => first_named(fv, n@, 0) is None,
        None => true,
    };
    assert(none_named);
    let mut i: usize = 0;
    while i < files.len()
        invariant
            i <= files@.len(),
            fv == names_view(files@),
            first_dev(fv, 0) == first_dev(fv, i as int),
            none_named == (match remembered {
                Some(n) => first_named(fv, n@, 0) is None,
                None => true,
            }),
            none_named,
        decreases files@.len() - i,
    {
        assert(fv[i as int] == files@[i as int]@);
        if contains_str(&chars_of(files[i].as_str()), ".dev") {
            return Some(i);
        }
        i += 1;
    }
    if files.len() > 0 {
        Some(0)
    } else {
        None
    }
}

/// The environment after the selected one (or the first when none is
/// selected); none after the last.
pub fn next_env(selected: Option<usize>, count: usize) -> (r: Option<usize>)
    ensures
        r == (match selected {
            None => if count > 0 {
                Some(0usize)
            } else {
                None
            },
            Some(i) => if i + 1 < count {
                Some((i + 1) as usize)
            } else {
                None
            },
        }),
{
    match selected {
        None => if count > 0 {
            Some(0)
        } else {
            None
        },
        Some(i) => if i < count && i + 1 < count {
            Some(i + 1)
        } else {
            None
        },
    }
}

} // verus!
