//! What holds of the settings that are used where none are given, and of the names that
//! settings may use.

use crate::config::{
    bind_view, default_bind_views, keysym_of, AnimationConfig, DecorationConfig, GeneralConfig,
    KeyBindView, LingxiConfig,
};
use crate::input::keys::{names_action, Action};
use vstd::prelude::*;

verus! {

/// The names of actions are all different.
proof fn lemma_action_names()
    ensures
        "exec"@.len() == 4 && "exec"@[0] == 'e',
        "close"@.len() == 5 && "close"@[0] == 'c',
        "quit"@.len() == 4 && "quit"@[0] == 'q',
        "lock"@.len() == 4 && "lock"@[0] == 'l',
        "fullscreen"@.len() == 10,
        "floating"@.len() == 8,
        "resize"@.len() == 6,
        "focus"@.len() == 5 && "focus"@[0] == 'f',
        "swap"@.len() == 4 && "swap"@[0] == 's',
        "workspace"@.len() == 9,
        "movetoworkspace"@.len() == 15,
        "next"@[0] == 'n',
        "prev"@[0] == 'p',
{
    reveal_strlit("exec");
    reveal_strlit("close");
    reveal_strlit("quit");
    reveal_strlit("lock");
    reveal_strlit("fullscreen");
    reveal_strlit("floating");
    reveal_strlit("resize");
    reveal_strlit("focus");
    reveal_strlit("swap");
    reveal_strlit("workspace");
    reveal_strlit("movetoworkspace");
    reveal_strlit("next");
    reveal_strlit("prev");
}

/// What each name of an action means, whatever the argument is: the actions without an
/// argument take no notice of it, a direction is backwards only if the argument says `prev`,
/// and a command line or a change of the ratio is the argument as it is.
pub proof fn law_names_mean_actions(
    name: Seq<char>,
    arg: Option<Seq<char>>,
    action: Option<Action>,
)
    requires
        names_action(name, arg, action),
    ensures
        name == "close"@ ==> action == Some(Action::CloseWindow),
        name == "quit"@ ==> action == Some(Action::Quit),
        name == "lock"@ ==> action == Some(Action::Lock),
        name == "fullscreen"@ ==> action == Some(Action::ToggleFullscreen),
        name == "floating"@ ==> action == Some(Action::ToggleFloating),
        name == "focus"@ && arg == Some("prev"@) ==> action == Some(Action::FocusPrev),
        name == "focus"@ && arg != Some("prev"@) ==> action == Some(Action::FocusNext),
        name == "swap"@ && arg == Some("prev"@) ==> action == Some(Action::SwapPrev),
        name == "swap"@ && arg != Some("prev"@) ==> action == Some(Action::SwapNext),
        name == "exec"@ ==> (action matches Some(Action::Exec(command)) && match arg {
            Some(text) => command@ == text,
            None => command@.len() == 0,
        }),
        name == "resize"@ ==> (action matches Some(Action::ResizeRatio(delta)) && match arg {
            Some(text) => delta@ == text,
            None => delta@ == "0.05"@,
        }),
        name == "workspace"@ ==> (action matches Some(does) && does is Workspace),
        name == "movetoworkspace"@ ==> (action matches Some(does) && does is MoveToWorkspace),
        action is Some ==> {
            ||| name == "exec"@ || name == "close"@ || name == "quit"@ || name == "lock"@
            ||| name == "fullscreen"@ || name == "floating"@ || name == "resize"@
            ||| name == "focus"@ || name == "swap"@
            ||| name == "workspace"@ || name == "movetoworkspace"@
        },
{
    lemma_action_names();
    reveal_strlit("");
}

/// A default binding does what its keys are for: the digits go to the workspace with their
/// number, and with Shift they send the window there; J and Tab go forwards, K and H and
/// Shift with Tab backwards; with Shift the letters swap instead, and L swaps forwards.
pub open spec fn fits_its_keys(bind: KeyBindView) -> bool {
    &&& bind.action == "close"@ ==> bind.keys == "Super+Q"@ && bind.arg is None
    &&& bind.action == "quit"@ ==> bind.keys == "Super+Shift+Q"@ && bind.arg is None
    &&& bind.action == "lock"@ ==> bind.keys == "Super+Escape"@ && bind.arg is None
    &&& bind.action == "fullscreen"@ ==> bind.keys == "Super+F"@ && bind.arg is None
    &&& bind.action == "floating"@ ==> bind.keys == "Super+V"@ && bind.arg is None
    &&& bind.action == "exec"@ ==> {
        ||| bind.keys == "Super+Return"@ && bind.arg == Some("alacritty"@)
        ||| bind.keys == "Super+D"@ && bind.arg == Some("fuzzel"@)
    }
    &&& bind.action == "focus"@ ==> {
        ||| bind.arg == Some("next"@) && (bind.keys == "Super+J"@ || bind.keys == "Alt+Tab"@)
        ||| bind.arg == Some("prev"@) && (bind.keys == "Super+K"@ || bind.keys == "Super+H"@
            || bind.keys == "Alt+Shift+Tab"@)
    }
    &&& bind.action == "swap"@ ==> {
        ||| bind.arg == Some("next"@) && (bind.keys == "Super+Shift+J"@ || bind.keys
            == "Super+Shift+L"@)
        ||| bind.arg == Some("prev"@) && (bind.keys == "Super+Shift+K"@ || bind.keys
            == "Super+Shift+H"@)
    }
    &&& bind.action == "resize"@ ==> {
        ||| bind.arg == Some("0.05"@) && bind.keys == "Super+Ctrl+L"@
        ||| bind.arg == Some("-0.05"@) && bind.keys == "Super+Ctrl+H"@
    }
    &&& bind.action == "workspace"@ ==> (bind.arg matches Some(digit) && bind.keys == "Super+"@
        + digit)
    &&& bind.action == "movetoworkspace"@ ==> (bind.arg matches Some(digit) && bind.keys
        == "Super+Shift+"@ + digit)
}

/// Every default binding does what its keys are for, and every action has one; so does
/// every workspace, for going there and for sending a window there.
pub proof fn law_default_bindings_fit(i: int)
    requires
        0 <= i < default_bind_views().len(),
    ensures
        default_bind_views().len() == 28,
        fits_its_keys(default_bind_views()[i]),
{
    let views = default_bind_views();
    lemma_action_names();
    lemma_digits();
    if i < 15 {
        assert(views[i].action != "workspace"@ && views[i].action != "movetoworkspace"@);
        assert(fits_its_keys(views[i]));
    } else if i < 20 {
        assert(views[i].action == "workspace"@);
        assert(fits_its_keys(views[i]));
    } else if i < 25 {
        assert(views[i].action == "movetoworkspace"@);
        assert(fits_its_keys(views[i]));
    } else {
        assert(fits_its_keys(views[i]));
    }
}

proof fn lemma_digits()
    ensures
        "Super+1"@ == "Super+"@ + "1"@,
        "Super+2"@ == "Super+"@ + "2"@,
        "Super+3"@ == "Super+"@ + "3"@,
        "Super+4"@ == "Super+"@ + "4"@,
        "Super+5"@ == "Super+"@ + "5"@,
        "Super+Shift+1"@ == "Super+Shift+"@ + "1"@,
        "Super+Shift+2"@ == "Super+Shift+"@ + "2"@,
        "Super+Shift+3"@ == "Super+Shift+"@ + "3"@,
        "Super+Shift+4"@ == "Super+Shift+"@ + "4"@,
        "Super+Shift+5"@ == "Super+Shift+"@ + "5"@,
{
    reveal_strlit("Super+");
    reveal_strlit("Super+Shift+");
    reveal_strlit("1");
    reveal_strlit("2");
    reveal_strlit("3");
    reveal_strlit("4");
    reveal_strlit("5");
    reveal_strlit("Super+1");
    reveal_strlit("Super+2");
    reveal_strlit("Super+3");
    reveal_strlit("Super+4");
    reveal_strlit("Super+5");
    reveal_strlit("Super+Shift+1");
    reveal_strlit("Super+Shift+2");
    reveal_strlit("Super+Shift+3");
    reveal_strlit("Super+Shift+4");
    reveal_strlit("Super+Shift+5");
    assert("Super+1"@ =~= "Super+"@ + "1"@);
    assert("Super+2"@ =~= "Super+"@ + "2"@);
    assert("Super+3"@ =~= "Super+"@ + "3"@);
    assert("Super+4"@ =~= "Super+"@ + "4"@);
    assert("Super+5"@ =~= "Super+"@ + "5"@);
    assert("Super+Shift+1"@ =~= "Super+Shift+"@ + "1"@);
    assert("Super+Shift+2"@ =~= "Super+Shift+"@ + "2"@);
    assert("Super+Shift+3"@ =~= "Super+Shift+"@ + "3"@);
    assert("Super+Shift+4"@ =~= "Super+Shift+"@ + "4"@);
    assert("Super+Shift+5"@ =~= "Super+Shift+"@ + "5"@);
}

/// Every action but starting a program has a default binding, and going to a workspace and
/// sending a window there have one for each of the five.
pub proof fn law_default_bindings_complete()
    ensures
        ({
            let views = default_bind_views();
            &&& views.contains(bind_view("Super+Q"@, "close"@, None))
            &&& views.contains(bind_view("Super+Shift+Q"@, "quit"@, None))
            &&& views.contains(bind_view("Super+Escape"@, "lock"@, None))
            &&& views.contains(bind_view("Super+F"@, "fullscreen"@, None))
            &&& views.contains(bind_view("Super+V"@, "floating"@, None))
            &&& views.contains(bind_view("Alt+Tab"@, "focus"@, Some("next"@)))
            &&& views.contains(bind_view("Alt+Shift+Tab"@, "focus"@, Some("prev"@)))
            &&& forall|k: int|
                0 <= k < 5 ==> {
                    let digit = #[trigger] digits()[k];
                    &&& views.contains(bind_view("Super+"@ + digit, "workspace"@, Some(digit)))
                    &&& views.contains(
                        bind_view("Super+Shift+"@ + digit, "movetoworkspace"@, Some(digit)),
                    )
                }
        }),
{
    let views = default_bind_views();
    lemma_digits();
    assert(views[1] == bind_view("Super+Q"@, "close"@, None));
    assert(views[2] == bind_view("Super+Shift+Q"@, "quit"@, None));
    assert(views[27] == bind_view("Super+Escape"@, "lock"@, None));
    assert(views[11] == bind_view("Super+F"@, "fullscreen"@, None));
    assert(views[12] == bind_view("Super+V"@, "floating"@, None));
    assert(views[25] == bind_view("Alt+Tab"@, "focus"@, Some("next"@)));
    assert(views[26] == bind_view("Alt+Shift+Tab"@, "focus"@, Some("prev"@)));
    assert forall|k: int| 0 <= k < 5 implies {
        let digit = #[trigger] digits()[k];
        &&& views.contains(bind_view("Super+"@ + digit, "workspace"@, Some(digit)))
        &&& views.contains(bind_view("Super+Shift+"@ + digit, "movetoworkspace"@, Some(digit)))
    } by {
        let digit = digits()[k];
        assert(views[15 + k] == bind_view("Super+"@ + digit, "workspace"@, Some(digit)));
        assert(views[20 + k] == bind_view(
            "Super+Shift+"@ + digit,
            "movetoworkspace"@,
            Some(digit),
        ));
    }
}

/// The numbers of the workspaces.
pub open spec fn digits() -> Seq<Seq<char>> {
    seq!["1"@, "2"@, "3"@, "4"@, "5"@]
}

/// Settings without a settings file, and those of a settings file without key bindings: the
/// latter keep all that the file says and only get the default bindings.
pub proof fn law_settings_kept(read: Option<LingxiConfig>, config: LingxiConfig)
    requires
        call_ensures(LingxiConfig::load, (read,), config),
    ensures
        read matches Some(file) ==> {
            &&& config.general == file.general
            &&& config.animations == file.animations
            &&& config.layout == file.layout
            &&& config.decoration == file.decoration
            &&& file.binds@.len() > 0 ==> config.binds == file.binds
        },
        config.binds@.len() > 0,
        read is None ==> {
            &&& config.general.border_size == 2
            &&& config.general.gaps_inner == 5
            &&& config.general.gaps_outer == 10
            &&& config.general.cursor_size == 24
            &&& config.layout.default_layout@ == "dwindle"@
            &&& config.layout.split_ratio.bits == 0x3fe0_0000_0000_0000
            &&& config.layout.master_ratio.bits == 0x3fe1_9999_9999_999a
            &&& config.decoration.rounding == 10
            &&& config.decoration.shadow_range == 15
        },
{
}

/// By default the border of the active window is opaque cyan, that of the others opaque
/// grey, and shadows are half-transparent black and fall straight down; animations and all
/// decorations are switched on, and closing is quicker than opening and that quicker than a
/// switch between workspaces.
pub proof fn law_default_looks()
    ensures
        ({
            let g = GeneralConfig::default_spec();
            let d = DecorationConfig::default_spec();
            let a = AnimationConfig::default_spec();
            &&& g.active_border_color.red.bits == 0
            &&& g.active_border_color.green.bits == 0x3f66_6666
            &&& g.active_border_color.blue.bits == 0x3f4c_cccd
            &&& g.active_border_color.alpha.bits == 0x3f80_0000
            &&& g.inactive_border_color.red == g.inactive_border_color.green
            &&& g.inactive_border_color.green == g.inactive_border_color.blue
            &&& g.inactive_border_color.red.bits == 0x3e99_999a
            &&& g.inactive_border_color.alpha == g.active_border_color.alpha
            &&& d.shadow_color.red.bits == 0 && d.shadow_color.green.bits == 0
            &&& d.shadow_color.blue.bits == 0 && d.shadow_color.alpha.bits == 0x3f00_0000
            &&& d.shadow_offset_x.bits == 0 && d.shadow_offset_y.bits == 0x4080_0000
            &&& d.shadow_enabled && d.blur_enabled && d.blur_size == 8 && d.blur_passes == 2
            &&& a.enabled && a.window_close_ms == 150 && a.window_open_ms == 200
            &&& a.workspace_switch_ms == 300
        }),
{
}

/// The arrow keys and the function keys have keysyms in a row, and the keys of the lock
/// screen those that it knows.
pub proof fn law_named_keys()
    ensures
        keysym_of("left"@) == Some(0xff51u32),
        keysym_of("up"@) == Some(0xff52u32),
        keysym_of("right"@) == Some(0xff53u32),
        keysym_of("down"@) == Some(0xff54u32),
        keysym_of("return"@) == Some(0xff0du32) && keysym_of("enter"@) == Some(0xff0du32),
        keysym_of("escape"@) == Some(0xff1bu32) && keysym_of("esc"@) == Some(0xff1bu32),
        keysym_of("backspace"@) == Some(0xff08u32),
        keysym_of("tab"@) == Some(0xff09u32),
        keysym_of("space"@) == Some(0x20u32),
        keysym_of("delete"@) == Some(0xffffu32),
        keysym_of("home"@) == Some(0xff50u32),
        keysym_of("end"@) == Some(0xff57u32),
        forall|n: int|
            1 <= n <= 12 ==> (#[trigger] keysym_of(function_keys()[n - 1])) == Some(
                (0xffbd + n) as u32,
            ),
{
    lemma_key_names();
    assert(keysym_of("delete"@) == Some(0xffffu32));
    assert(keysym_of("end"@) == Some(0xff57u32));
    assert forall|n: int| 1 <= n <= 12 implies (#[trigger] keysym_of(function_keys()[n - 1]))
        == Some((0xffbd + n) as u32) by {
        let name = function_keys()[n - 1];
        assert(keysym_of("f1"@) == Some(0xffbeu32));
        assert(keysym_of("f2"@) == Some(0xffbfu32));
        assert(keysym_of("f3"@) == Some(0xffc0u32));
        assert(keysym_of("f4"@) == Some(0xffc1u32));
        assert(keysym_of("f5"@) == Some(0xffc2u32));
        assert(keysym_of("f6"@) == Some(0xffc3u32));
        assert(keysym_of("f7"@) == Some(0xffc4u32));
        assert(keysym_of("f8"@) == Some(0xffc5u32));
        assert(keysym_of("f9"@) == Some(0xffc6u32));
        assert(keysym_of("f10"@) == Some(0xffc7u32));
        assert(keysym_of("f11"@) == Some(0xffc8u32));
        assert(keysym_of("f12"@) == Some(0xffc9u32));
    }
}

/// How the names of the keys differ.
proof fn lemma_key_names()
    ensures
        "return"@.len() == 6 && "return"@[0] == 'r' && "return"@[1] == 'e' && "return"@[2] == 't',
        "enter"@.len() == 5 && "enter"@[0] == 'e' && "enter"@[1] == 'n' && "enter"@[2] == 't',
        "escape"@.len() == 6 && "escape"@[0] == 'e' && "escape"@[1] == 's' && "escape"@[2] == 'c',
        "esc"@.len() == 3 && "esc"@[0] == 'e' && "esc"@[1] == 's' && "esc"@[2] == 'c',
        "tab"@.len() == 3 && "tab"@[0] == 't' && "tab"@[1] == 'a' && "tab"@[2] == 'b',
        "backspace"@.len() == 9 && "backspace"@[0] == 'b' && "backspace"@[1] == 'a' && "backspace"@[2] == 'c',
        "space"@.len() == 5 && "space"@[0] == 's' && "space"@[1] == 'p' && "space"@[2] == 'a',
        "left"@.len() == 4 && "left"@[0] == 'l' && "left"@[1] == 'e' && "left"@[2] == 'f',
        "up"@.len() == 2 && "up"@[0] == 'u' && "up"@[1] == 'p',
        "right"@.len() == 5 && "right"@[0] == 'r' && "right"@[1] == 'i' && "right"@[2] == 'g',
        "down"@.len() == 4 && "down"@[0] == 'd' && "down"@[1] == 'o' && "down"@[2] == 'w',
        "delete"@.len() == 6 && "delete"@[0] == 'd' && "delete"@[1] == 'e' && "delete"@[2] == 'l',
        "home"@.len() == 4 && "home"@[0] == 'h' && "home"@[1] == 'o' && "home"@[2] == 'm',
        "end"@.len() == 3 && "end"@[0] == 'e' && "end"@[1] == 'n' && "end"@[2] == 'd',
        "f1"@.len() == 2 && "f1"@[0] == 'f' && "f1"@[1] == '1',
        "f2"@.len() == 2 && "f2"@[0] == 'f' && "f2"@[1] == '2',
        "f3"@.len() == 2 && "f3"@[0] == 'f' && "f3"@[1] == '3',
        "f4"@.len() == 2 && "f4"@[0] == 'f' && "f4"@[1] == '4',
        "f5"@.len() == 2 && "f5"@[0] == 'f' && "f5"@[1] == '5',
        "f6"@.len() == 2 && "f6"@[0] == 'f' && "f6"@[1] == '6',
        "f7"@.len() == 2 && "f7"@[0] == 'f' && "f7"@[1] == '7',
        "f8"@.len() == 2 && "f8"@[0] == 'f' && "f8"@[1] == '8',
        "f9"@.len() == 2 && "f9"@[0] == 'f' && "f9"@[1] == '9',
        "f10"@.len() == 3 && "f10"@[0] == 'f' && "f10"@[1] == '1' && "f10"@[2] == '0',
        "f11"@.len() == 3 && "f11"@[0] == 'f' && "f11"@[1] == '1' && "f11"@[2] == '1',
        "f12"@.len() == 3 && "f12"@[0] == 'f' && "f12"@[1] == '1' && "f12"@[2] == '2',
{
    reveal_strlit("return");
    reveal_strlit("enter");
    reveal_strlit("escape");
    reveal_strlit("esc");
    reveal_strlit("tab");
    reveal_strlit("backspace");
    reveal_strlit("space");
    reveal_strlit("left");
    reveal_strlit("up");
    reveal_strlit("right");
    reveal_strlit("down");
    reveal_strlit("delete");
    reveal_strlit("home");
    reveal_strlit("end");
    reveal_strlit("f1");
    reveal_strlit("f2");
    reveal_strlit("f3");
    reveal_strlit("f4");
    reveal_strlit("f5");
    reveal_strlit("f6");
    reveal_strlit("f7");
    reveal_strlit("f8");
    reveal_strlit("f9");
    reveal_strlit("f10");
    reveal_strlit("f11");
    reveal_strlit("f12");
}

/// The names of the function keys.
pub open spec fn function_keys() -> Seq<Seq<char>> {
    seq![
        "f1"@, "f2"@, "f3"@, "f4"@, "f5"@, "f6"@, "f7"@, "f8"@, "f9"@, "f10"@, "f11"@, "f12"@,
    ]
}

} // verus!
