//! Settings and key bindings.

use crate::scalar::{Color, Double, Single};
use crate::text::{lower_case, lowercase, split, split_on, str_eq, texts};
use vstd::prelude::*;

verus! {

/// A key binding as it is written in the settings.
#[derive(Debug, Clone)]
pub struct KeyBind {
    /// The keys, such as `Super+Shift+1`.
    pub keys: String,
    /// What the keys do, such as `exec` or `workspace`.
    pub action: String,
    /// What the action is given: a command, a workspace number, a direction.
    pub arg: Option<String>,
}

/// The texts of a key binding.
#[verifier::ext_equal]
pub struct KeyBindView {
    pub keys: Seq<char>,
    pub action: Seq<char>,
    pub arg: Option<Seq<char>>,
}

/// The text of an optional string.
pub open spec fn opt_text(text: Option<String>) -> Option<Seq<char>> {
    match text {
        None => None,
        Some(s) => Some(s@),
    }
}

/// A copy of an optional string.
pub fn copy_opt(text: &Option<String>) -> (r: Option<String>)
    ensures
        r == *text,
{
    match text {
        None => None,
        Some(s) => Some(s.clone()),
    }
}

impl View for KeyBind {
    type V = KeyBindView;

    open spec fn view(&self) -> KeyBindView {
        KeyBindView { keys: self.keys@, action: self.action@, arg: opt_text(self.arg) }
    }
}

/// The texts of a list of key bindings.
pub open spec fn bind_views(binds: Seq<KeyBind>) -> Seq<KeyBindView> {
    binds.map_values(|b: KeyBind| b@)
}

/// General settings.
#[derive(Debug, Clone, Copy)]
pub struct GeneralConfig {
    pub border_size: u32,
    pub gaps_inner: u32,
    pub gaps_outer: u32,
    pub cursor_size: u32,
    pub active_border_color: Color,
    pub inactive_border_color: Color,
}

impl GeneralConfig {
    /// What [`GeneralConfig::default`] returns: a cyan border for the active
    /// window and a grey one for the others.
    pub open spec fn default_spec() -> GeneralConfig {
        GeneralConfig {
            border_size: 2,
            gaps_inner: 5,
            gaps_outer: 10,
            cursor_size: 24,
            active_border_color: Color {
                red: Single { bits: 0 },
                green: Single { bits: 0x3f66_6666 },
                blue: Single { bits: 0x3f4c_cccd },
                alpha: Single { bits: 0x3f80_0000 },
            },
            inactive_border_color: Color {
                red: Single { bits: 0x3e99_999a },
                green: Single { bits: 0x3e99_999a },
                blue: Single { bits: 0x3e99_999a },
                alpha: Single { bits: 0x3f80_0000 },
            },
        }
    }
}

impl Default for GeneralConfig {
    fn default() -> (r: Self)
        ensures
            r == Self::default_spec(),
    {
        GeneralConfig {
            border_size: 2,
            gaps_inner: 5,
            gaps_outer: 10,
            cursor_size: 24,
            active_border_color: Color {
                red: Single { bits: 0 },
                green: Single { bits: 0x3f66_6666 },
                blue: Single { bits: 0x3f4c_cccd },
                alpha: Single { bits: 0x3f80_0000 },
            },
            inactive_border_color: Color {
                red: Single { bits: 0x3e99_999a },
                green: Single { bits: 0x3e99_999a },
                blue: Single { bits: 0x3e99_999a },
                alpha: Single { bits: 0x3f80_0000 },
            },
        }
    }
}

/// Settings of the animations; times are in milliseconds.
#[derive(Debug, Clone, Copy)]
pub struct AnimationConfig {
    pub enabled: bool,
    pub window_open_ms: u64,
    pub window_close_ms: u64,
    pub workspace_switch_ms: u64,
}

impl AnimationConfig {
    /// What [`AnimationConfig::default`] returns.
    pub open spec fn default_spec() -> AnimationConfig {
        AnimationConfig {
            enabled: true,
            window_open_ms: 200,
            window_close_ms: 150,
            workspace_switch_ms: 300,
        }
    }
}

impl Default for AnimationConfig {
    fn default() -> (r: Self)
        ensures
            r == Self::default_spec(),
    {
        AnimationConfig {
            enabled: true,
            window_open_ms: 200,
            window_close_ms: 150,
            workspace_switch_ms: 300,
        }
    }
}

/// Settings of the layout.
#[derive(Debug, Clone)]
pub struct LayoutConfig {
    pub default_layout: String,
    pub master_ratio: Double,
    pub split_ratio: Double,
}

impl LayoutConfig {
    /// The dwindle layout, a master column of 0.55 and splits at one half.
    pub open spec fn is_default(self) -> bool {
        &&& self.default_layout@ == "dwindle"@
        &&& self.master_ratio == (Double { bits: 0x3fe1_9999_9999_999a })
        &&& self.split_ratio == (Double { bits: 0x3fe0_0000_0000_0000 })
    }
}

impl Default for LayoutConfig {
    fn default() -> (r: Self)
        ensures
            r.is_default(),
    {
        LayoutConfig {
            default_layout: "dwindle".to_owned(),
            master_ratio: Double { bits: 0x3fe1_9999_9999_999a },
            split_ratio: Double { bits: 0x3fe0_0000_0000_0000 },
        }
    }
}

/// Settings of the decorations.
#[derive(Debug, Clone, Copy)]
pub struct DecorationConfig {
    pub rounding: u32,
    pub blur_enabled: bool,
    pub blur_size: u32,
    pub blur_passes: u32,
    pub shadow_enabled: bool,
    pub shadow_range: u32,
    pub shadow_color: Color,
    pub shadow_offset_x: Single,
    pub shadow_offset_y: Single,
}

impl DecorationConfig {
    /// What [`DecorationConfig::default`] returns: the shadow is half-transparent
    /// black and falls four pixels down.
    pub open spec fn default_spec() -> DecorationConfig {
        DecorationConfig {
            rounding: 10,
            blur_enabled: true,
            blur_size: 8,
            blur_passes: 2,
            shadow_enabled: true,
            shadow_range: 15,
            shadow_color: Color {
                red: Single { bits: 0 },
                green: Single { bits: 0 },
                blue: Single { bits: 0 },
                alpha: Single { bits: 0x3f00_0000 },
            },
            shadow_offset_x: Single { bits: 0 },
            shadow_offset_y: Single { bits: 0x4080_0000 },
        }
    }
}

impl Default for DecorationConfig {
    fn default() -> (r: Self)
        ensures
            r == Self::default_spec(),
    {
        DecorationConfig {
            rounding: 10,
            blur_enabled: true,
            blur_size: 8,
            blur_passes: 2,
            shadow_enabled: true,
            shadow_range: 15,
            shadow_color: Color {
                red: Single { bits: 0 },
                green: Single { bits: 0 },
                blue: Single { bits: 0 },
                alpha: Single { bits: 0x3f00_0000 },
            },
            shadow_offset_x: Single { bits: 0 },
            shadow_offset_y: Single { bits: 0x4080_0000 },
        }
    }
}

/// A key binding with an argument or without.
pub open spec fn bind_view(keys: Seq<char>, action: Seq<char>, arg: Option<Seq<char>>) -> KeyBindView {
    KeyBindView { keys, action, arg }
}

/// The key bindings that are used when the settings have none.
pub open spec fn default_bind_views() -> Seq<KeyBindView> {
    seq![
        bind_view("Super+Return"@, "exec"@, Some("alacritty"@)),
        bind_view("Super+Q"@, "close"@, None),
        bind_view("Super+Shift+Q"@, "quit"@, None),
        bind_view("Super+D"@, "exec"@, Some("fuzzel"@)),
        bind_view("Super+J"@, "focus"@, Some("next"@)),
        bind_view("Super+K"@, "focus"@, Some("prev"@)),
        bind_view("Super+H"@, "focus"@, Some("prev"@)),
        bind_view("Super+Shift+J"@, "swap"@, Some("next"@)),
        bind_view("Super+Shift+K"@, "swap"@, Some("prev"@)),
        bind_view("Super+Shift+H"@, "swap"@, Some("prev"@)),
        bind_view("Super+Shift+L"@, "swap"@, Some("next"@)),
        bind_view("Super+F"@, "fullscreen"@, None),
        bind_view("Super+V"@, "floating"@, None),
        bind_view("Super+Ctrl+L"@, "resize"@, Some("0.05"@)),
        bind_view("Super+Ctrl+H"@, "resize"@, Some("-0.05"@)),
        bind_view("Super+1"@, "workspace"@, Some("1"@)),
        bind_view("Super+2"@, "workspace"@, Some("2"@)),
        bind_view("Super+3"@, "workspace"@, Some("3"@)),
        bind_view("Super+4"@, "workspace"@, Some("4"@)),
        bind_view("Super+5"@, "workspace"@, Some("5"@)),
        bind_view("Super+Shift+1"@, "movetoworkspace"@, Some("1"@)),
        bind_view("Super+Shift+2"@, "movetoworkspace"@, Some("2"@)),
        bind_view("Super+Shift+3"@, "movetoworkspace"@, Some("3"@)),
        bind_view("Super+Shift+4"@, "movetoworkspace"@, Some("4"@)),
        bind_view("Super+Shift+5"@, "movetoworkspace"@, Some("5"@)),
        bind_view("Alt+Tab"@, "focus"@, Some("next"@)),
        bind_view("Alt+Shift+Tab"@, "focus"@, Some("prev"@)),
        bind_view("Super+Escape"@, "lock"@, None),
    ]
}

fn key_bind(keys: &str, action: &str, arg: Option<&str>) -> (r: KeyBind)
    ensures
        r@ == bind_view(
            keys@,
            action@,
            match arg {
                None => None,
                Some(a) => Some(a@),
            },
        ),
{
    KeyBind {
        keys: keys.to_owned(),
        action: action.to_owned(),
        arg: match arg {
            None => None,
            Some(a) => Some(a.to_owned()),
        },
    }
}

/// The key bindings that are used when the settings have none.
pub fn default_binds() -> (binds: Vec<KeyBind>)
    ensures
        bind_views(binds@) == default_bind_views(),
{
    let mut binds: Vec<KeyBind> = Vec::new();
    binds.push(key_bind("Super+Return", "exec", Some("alacritty")));
    binds.push(key_bind("Super+Q", "close", None));
    binds.push(key_bind("Super+Shift+Q", "quit", None));
    binds.push(key_bind("Super+D", "exec", Some("fuzzel")));
    binds.push(key_bind("Super+J", "focus", Some("next")));
    binds.push(key_bind("Super+K", "focus", Some("prev")));
    binds.push(key_bind("Super+H", "focus", Some("prev")));
    binds.push(key_bind("Super+Shift+J", "swap", Some("next")));
    binds.push(key_bind("Super+Shift+K", "swap", Some("prev")));
    binds.push(key_bind("Super+Shift+H", "swap", Some("prev")));
    binds.push(key_bind("Super+Shift+L", "swap", Some("next")));
    binds.push(key_bind("Super+F", "fullscreen", None));
    binds.push(key_bind("Super+V", "floating", None));
    binds.push(key_bind("Super+Ctrl+L", "resize", Some("0.05")));
    binds.push(key_bind("Super+Ctrl+H", "resize", Some("-0.05")));
    binds.push(key_bind("Super+1", "workspace", Some("1")));
    binds.push(key_bind("Super+2", "workspace", Some("2")));
    binds.push(key_bind("Super+3", "workspace", Some("3")));
    binds.push(key_bind("Super+4", "workspace", Some("4")));
    binds.push(key_bind("Super+5", "workspace", Some("5")));
    binds.push(key_bind("Super+Shift+1", "movetoworkspace", Some("1")));
    binds.push(key_bind("Super+Shift+2", "movetoworkspace", Some("2")));
    binds.push(key_bind("Super+Shift+3", "movetoworkspace", Some("3")));
    binds.push(key_bind("Super+Shift+4", "movetoworkspace", Some("4")));
    binds.push(key_bind("Super+Shift+5", "movetoworkspace", Some("5")));
    binds.push(key_bind("Alt+Tab", "focus", Some("next")));
    binds.push(key_bind("Alt+Shift+Tab", "focus", Some("prev")));
    binds.push(key_bind("Super+Escape", "lock", None));
    assert(bind_views(binds@) =~= default_bind_views());
    binds
}

/// All settings.
#[derive(Debug)]
pub struct LingxiConfig {
    pub general: GeneralConfig,
    pub animations: AnimationConfig,
    pub layout: LayoutConfig,
    pub decoration: DecorationConfig,
    pub binds: Vec<KeyBind>,
}

impl LingxiConfig {
    /// Every setting has its default value.
    pub open spec fn is_default(self) -> bool {
        &&& self.general == GeneralConfig::default_spec()
        &&& self.animations == AnimationConfig::default_spec()
        &&& self.layout.is_default()
        &&& self.decoration == DecorationConfig::default_spec()
        &&& bind_views(self.binds@) == default_bind_views()
    }
}

impl Default for LingxiConfig {
    fn default() -> (r: Self)
        ensures
            r.is_default(),
    {
        LingxiConfig {
            general: GeneralConfig::default(),
            animations: AnimationConfig::default(),
            layout: LayoutConfig::default(),
            decoration: DecorationConfig::default(),
            binds: default_binds(),
        }
    }
}

/// A key binding in a form that can be compared with a key press.
#[derive(Debug, Clone, Copy, PartialEq, Eq, Structural)]
pub struct ParsedKeyBind {
    pub logo: bool,
    pub shift: bool,
    pub ctrl: bool,
    pub alt: bool,
    pub keysym: u32,
}

/// What one part of a key binding names.
#[derive(Debug, Clone, Copy, PartialEq, Eq, Structural)]
pub enum KeyPart {
    Logo,
    Shift,
    Ctrl,
    Alt,
    Key,
}

/// What a part names, given in lower case.
pub open spec fn key_part(lower: Seq<char>) -> KeyPart {
    if lower == "super"@ || lower == "mod4"@ || lower == "logo"@ {
        KeyPart::Logo
    } else if lower == "shift"@ {
        KeyPart::Shift
    } else if lower == "ctrl"@ || lower == "control"@ {
        KeyPart::Ctrl
    } else if lower == "alt"@ || lower == "mod1"@ {
        KeyPart::Alt
    } else {
        KeyPart::Key
    }
}

/// Tells what a part names, given in lower case.
pub fn classify_part(lower: &str) -> (r: KeyPart)
    ensures
        r == key_part(lower@),
{
    if str_eq(lower, "super") || str_eq(lower, "mod4") || str_eq(lower, "logo") {
        KeyPart::Logo
    } else if str_eq(lower, "shift") {
        KeyPart::Shift
    } else if str_eq(lower, "ctrl") || str_eq(lower, "control") {
        KeyPart::Ctrl
    } else if str_eq(lower, "alt") || str_eq(lower, "mod1") {
        KeyPart::Alt
    } else {
        KeyPart::Key
    }
}

/// One of the parts names `kind`.
pub open spec fn names_part(lowered: Seq<Seq<char>>, kind: KeyPart) -> bool {
    exists|i: int| 0 <= i < lowered.len() && key_part(#[trigger] lowered[i]) == kind
}

/// The last part that names a key and no modifier.
pub open spec fn last_key(lowered: Seq<Seq<char>>) -> Option<int>
    decreases lowered.len(),
{
    if lowered.len() == 0 {
        None
    } else if key_part(lowered.last()) == KeyPart::Key {
        Some(lowered.len() - 1)
    } else {
        last_key(lowered.drop_last())
    }
}

/// The modifiers that the parts of a key binding name, and which part names the
/// key.
#[derive(Debug, Clone, Copy, PartialEq, Eq, Structural)]
pub struct ScannedParts {
    pub logo: bool,
    pub shift: bool,
    pub ctrl: bool,
    pub alt: bool,
    pub key: Option<usize>,
}

/// Goes through the parts of a key binding, given in lower case.
pub fn scan_parts(lowered: &Vec<String>) -> (r: ScannedParts)
    ensures
        r.logo == names_part(texts(lowered@), KeyPart::Logo),
        r.shift == names_part(texts(lowered@), KeyPart::Shift),
        r.ctrl == names_part(texts(lowered@), KeyPart::Ctrl),
        r.alt == names_part(texts(lowered@), KeyPart::Alt),
        match r.key {
            None => last_key(texts(lowered@)) is None,
            Some(i) => i < lowered@.len() && last_key(texts(lowered@)) == Some(i as int),
        },
{
    let mut r = ScannedParts { logo: false, shift: false, ctrl: false, alt: false, key: None };
    let mut i: usize = 0;
    let ghost all = texts(lowered@);
    while i < lowered.len()
        invariant
            0 <= i <= lowered.len(),
            all == texts(lowered@),
            r.logo == names_part(all.take(i as int), KeyPart::Logo),
            r.shift == names_part(all.take(i as int), KeyPart::Shift),
            r.ctrl == names_part(all.take(i as int), KeyPart::Ctrl),
            r.alt == names_part(all.take(i as int), KeyPart::Alt),
            match r.key {
                None => last_key(all.take(i as int)) is None,
                Some(k) => k < i && last_key(all.take(i as int)) == Some(k as int),
            },
        decreases lowered.len() - i,
    {
        let kind = classify_part(lowered[i].as_str());
        let ghost head = all.take(i as int);
        let ghost more = all.take(i + 1);
        proof {
            assert(more.drop_last() =~= head);
            assert(more.last() == all[i as int]);
            assert(all[i as int] == lowered@[i as int]@);
            assert forall|k: KeyPart| #[trigger] names_part(more, k) == (names_part(head, k) || kind
                == k) by {
                if names_part(head, k) {
                    let j = choose|j: int| 0 <= j < head.len() && key_part(#[trigger] head[j]) == k;
                    assert(more[j] == head[j]);
                }
                if kind == k {
                    assert(key_part(more[i as int]) == k);
                }
                if names_part(more, k) && kind != k {
                    let j = choose|j: int| 0 <= j < more.len() && key_part(#[trigger] more[j]) == k;
                    assert(more[j] == head[j]);
                }
            }
        }
        match kind {
            KeyPart::Logo => {
                r.logo = true;
            },
            KeyPart::Shift => {
                r.shift = true;
            },
            KeyPart::Ctrl => {
                r.ctrl = true;
            },
            KeyPart::Alt => {
                r.alt = true;
            },
            KeyPart::Key => {
                r.key = Some(i);
            },
        }
        i = i + 1;
    }
    assert(all.take(i as int) =~= all);
    r
}

/// The keysym of a key, given its name in lower case: the name of a key that
/// types no character, or a single ASCII digit or letter.
pub open spec fn keysym_of(name: Seq<char>) -> Option<u32> {
    if name == "return"@ || name == "enter"@ {
        Some(0xff0d)
    } else if name == "escape"@ || name == "esc"@ {
        Some(0xff1b)
    } else if name == "tab"@ {
        Some(0xff09)
    } else if name == "backspace"@ {
        Some(0xff08)
    } else if name == "space"@ {
        Some(0x0020)
    } else if name == "left"@ {
        Some(0xff51)
    } else if name == "up"@ {
        Some(0xff52)
    } else if name == "right"@ {
        Some(0xff53)
    } else if name == "down"@ {
        Some(0xff54)
    } else if name == "delete"@ {
        Some(0xffff)
    } else if name == "home"@ {
        Some(0xff50)
    } else if name == "end"@ {
        Some(0xff57)
    } else if name == "f1"@ {
        Some(0xffbe)
    } else if name == "f2"@ {
        Some(0xffbf)
    } else if name == "f3"@ {
        Some(0xffc0)
    } else if name == "f4"@ {
        Some(0xffc1)
    } else if name == "f5"@ {
        Some(0xffc2)
    } else if name == "f6"@ {
        Some(0xffc3)
    } else if name == "f7"@ {
        Some(0xffc4)
    } else if name == "f8"@ {
        Some(0xffc5)
    } else if name == "f9"@ {
        Some(0xffc6)
    } else if name == "f10"@ {
        Some(0xffc7)
    } else if name == "f11"@ {
        Some(0xffc8)
    } else if name == "f12"@ {
        Some(0xffc9)
    } else if name.len() == 1 && ('0' <= name[0] <= '9' || 'a' <= name[0] <= 'z') {
        Some(name[0] as u32)
    } else if name.len() == 1 && 'A' <= name[0] <= 'Z' {
        Some((name[0] as u32 + 32) as u32)
    } else {
        None
    }
}

/// The keysym of a key, given its name in lower case.
pub fn keysym_of_lowercase(name: &str) -> (r: Option<u32>)
    ensures
        r == keysym_of(name@),
{
    if str_eq(name, "return") || str_eq(name, "enter") {
        Some(0xff0d)
    } else if str_eq(name, "escape") || str_eq(name, "esc") {
        Some(0xff1b)
    } else if str_eq(name, "tab") {
        Some(0xff09)
    } else if str_eq(name, "backspace") {
        Some(0xff08)
    } else if str_eq(name, "space") {
        Some(0x0020)
    } else if str_eq(name, "left") {
        Some(0xff51)
    } else if str_eq(name, "up") {
        Some(0xff52)
    } else if str_eq(name, "right") {
        Some(0xff53)
    } else if str_eq(name, "down") {
        Some(0xff54)
    } else if str_eq(name, "delete") {
        Some(0xffff)
    } else if str_eq(name, "home") {
        Some(0xff50)
    } else if str_eq(name, "end") {
        Some(0xff57)
    } else if str_eq(name, "f1") {
        Some(0xffbe)
    } else if str_eq(name, "f2") {
        Some(0xffbf)
    } else if str_eq(name, "f3") {
        Some(0xffc0)
    } else if str_eq(name, "f4") {
        Some(0xffc1)
    } else if str_eq(name, "f5") {
        Some(0xffc2)
    } else if str_eq(name, "f6") {
        Some(0xffc3)
    } else if str_eq(name, "f7") {
        Some(0xffc4)
    } else if str_eq(name, "f8") {
        Some(0xffc5)
    } else if str_eq(name, "f9") {
        Some(0xffc6)
    } else if str_eq(name, "f10") {
        Some(0xffc7)
    } else if str_eq(name, "f11") {
        Some(0xffc8)
    } else if str_eq(name, "f12") {
        Some(0xffc9)
    } else if name.unicode_len() == 1 {
        let c = name.get_char(0);
        if ('0' <= c && c <= '9') || ('a' <= c && c <= 'z') {
            Some(c as u32)
        } else if 'A' <= c && c <= 'Z' {
            Some(c as u32 + 32)
        } else {
            None
        }
    } else {
        None
    }
}

/// The keysym of the key with a name, in any case of letters.
pub fn key_name_to_keysym(name: &str) -> (r: Option<u32>)
    ensures
        r == keysym_of(lower_case(name@)),
{
    let lower = lowercase(name);
    keysym_of_lowercase(lower.as_str())
}

/// The parts of a key binding, in lower case.
pub open spec fn lowered_parts(keys: Seq<char>) -> Seq<Seq<char>> {
    split_on(keys, '+').map_values(|part: Seq<char>| lower_case(part))
}

/// What the text of a key binding stands for. The parts are divided by plus
/// signs; each names a modifier or the key, and of several keys the last counts.
/// There is no binding without a key that is known.
pub open spec fn parsed_keys(keys: Seq<char>) -> Option<ParsedKeyBind> {
    let lowered = lowered_parts(keys);
    let name = match last_key(lowered) {
        None => lower_case(""@),
        Some(i) => lowered[i],
    };
    match keysym_of(name) {
        None => None,
        Some(keysym) => Some(
            ParsedKeyBind {
                logo: names_part(lowered, KeyPart::Logo),
                shift: names_part(lowered, KeyPart::Shift),
                ctrl: names_part(lowered, KeyPart::Ctrl),
                alt: names_part(lowered, KeyPart::Alt),
                keysym,
            },
        ),
    }
}

impl ParsedKeyBind {
    /// Reads a key binding such as `Super+Shift+1`.
    pub fn parse(keys: &str) -> (r: Option<Self>)
        ensures
            r == parsed_keys(keys@),
    {
        let parts = split(keys, '+');
        let mut lowered: Vec<String> = Vec::new();
        let mut i: usize = 0;
        while i < parts.len()
            invariant
                0 <= i <= parts.len(),
                texts(parts@) == split_on(keys@, '+'),
                lowered@.len() == i,
                forall|k: int|
                    0 <= k < i ==> (#[trigger] lowered@[k])@ == lower_case(parts@[k]@),
            decreases parts.len() - i,
        {
            lowered.push(lowercase(parts[i].as_str()));
            i = i + 1;
        }
        assert forall|k: int| 0 <= k < lowered@.len() implies texts(lowered@)[k] == lowered_parts(
            keys@,
        )[k] by {
            assert(texts(parts@)[k] == parts@[k]@);
        }
        assert(texts(lowered@) =~= lowered_parts(keys@));
        let scanned = scan_parts(&lowered);
        let keysym = match scanned.key {
            None => key_name_to_keysym(""),
            Some(k) => key_name_to_keysym(parts[k].as_str()),
        };
        match keysym {
            None => None,
            Some(keysym) => Some(
                ParsedKeyBind {
                    logo: scanned.logo,
                    shift: scanned.shift,
                    ctrl: scanned.ctrl,
                    alt: scanned.alt,
                    keysym,
                },
            ),
        }
    }
}

/// A key binding that could be read, with its action and argument.
pub type Bound = (ParsedKeyBind, String, Option<String>);

/// What a bound key stands for.
pub type BoundView = (ParsedKeyBind, Seq<char>, Option<Seq<char>>);

/// What a bound key stands for.
pub open spec fn bound_view(bound: Bound) -> BoundView {
    (bound.0, bound.1@, opt_text(bound.2))
}

/// What a list of bound keys stands for.
pub open spec fn bound_views(bounds: Seq<Bound>) -> Seq<BoundView> {
    bounds.map_values(|b: Bound| bound_view(b))
}

/// The key bindings that can be read, in their order.
pub open spec fn readable_binds(binds: Seq<KeyBindView>) -> Seq<BoundView>
    decreases binds.len(),
{
    if binds.len() == 0 {
        Seq::empty()
    } else {
        let before = readable_binds(binds.drop_last());
        let bind = binds.last();
        match parsed_keys(bind.keys) {
            None => before,
            Some(parsed) => before.push((parsed, bind.action, bind.arg)),
        }
    }
}

impl LingxiConfig {
    /// The settings to start with, given what was read from the settings file:
    /// nothing, if there is no such file or it cannot be understood. Settings
    /// without key bindings get the default ones.
    pub fn load(read: Option<LingxiConfig>) -> (config: Self)
        ensures
            match read {
                None => config.is_default(),
                Some(c) => {
                    &&& config.general == c.general
                    &&& config.animations == c.animations
                    &&& config.layout == c.layout
                    &&& config.decoration == c.decoration
                    &&& c.binds@.len() > 0 ==> config.binds == c.binds
                    &&& c.binds@.len() == 0 ==> bind_views(config.binds@) == default_bind_views()
                },
            },
            config.binds@.len() > 0,
    {
        let config = match read {
            Some(mut config) => {
                if config.binds.is_empty() {
                    config.binds = default_binds();
                }
                config
            },
            None => LingxiConfig::default(),
        };
        assert(config.binds@.len() == bind_views(config.binds@).len());
        config
    }

    /// The key bindings that can be read, in their order.
    pub fn parsed_binds(&self) -> (r: Vec<(ParsedKeyBind, String, Option<String>)>)
        ensures
            bound_views(r@) == readable_binds(bind_views(self.binds@)),
    {
        let mut r: Vec<(ParsedKeyBind, String, Option<String>)> = Vec::new();
        let mut i: usize = 0;
        let ghost all = bind_views(self.binds@);
        assert(bound_views(r@) =~= readable_binds(all.take(0)));
        while i < self.binds.len()
            invariant
                0 <= i <= self.binds.len(),
                all == bind_views(self.binds@),
                bound_views(r@) == readable_binds(all.take(i as int)),
            decreases self.binds.len() - i,
        {
            let bind = &self.binds[i];
            let ghost before = bound_views(r@);
            proof {
                assert(all.take(i + 1).drop_last() =~= all.take(i as int));
                assert(all.take(i + 1).last() == bind@);
            }
            if let Some(parsed) = ParsedKeyBind::parse(bind.keys.as_str()) {
                let bound = (parsed, bind.action.clone(), copy_opt(&bind.arg));
                let ghost view = bound_view(bound);
                r.push(bound);
                assert(bound_views(r@) =~= before.push(view));
            }
            i = i + 1;
        }
        assert(all.take(i as int) =~= all);
        r
    }
}

/// Where the settings file lies, under the home directory or, without one, under
/// `/tmp`.
pub open spec fn config_path(home: Option<Seq<char>>) -> Seq<char> {
    let base = match home {
        None => "/tmp"@,
        Some(h) => h,
    };
    base + "/.config/lingxi/lingxi.toml"@
}

/// Where the settings file lies.
pub fn dirs_config_path(home: Option<String>) -> (path: String)
    ensures
        path@ == config_path(opt_text(home)),
{
    let base = match home {
        None => "/tmp".to_owned(),
        Some(h) => h,
    };
    base.concat("/.config/lingxi/lingxi.toml")
}

} // verus!
