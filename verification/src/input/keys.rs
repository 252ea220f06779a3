//! From a key press to an action.

use crate::config::{bound_view, bound_views, opt_text, BoundView, ParsedKeyBind};
use crate::scalar::Double;
use crate::text::{parse_usize, number_in, split_words, str_eq, texts, words};
use vstd::prelude::*;

verus! {

/// What a key press makes the compositor do.
#[derive(Debug, Clone, PartialEq, Eq)]
pub enum Action {
    /// Run a command line.
    Exec(String),
    CloseWindow,
    Quit,
    FocusNext,
    FocusPrev,
    SwapNext,
    SwapPrev,
    ToggleFullscreen,
    ToggleFloating,
    /// Move the floating window by pixels to the right and downwards.
    MoveFloating(Double, Double),
    /// Change the split ratio by the number that the text spells out.
    ResizeRatio(String),
    Workspace(usize),
    MoveToWorkspace(usize),
    Lock,
}

/// The modifier keys that are held down.
#[derive(Debug, Clone, Copy, PartialEq, Eq, Structural)]
pub struct Modifiers {
    pub logo: bool,
    pub shift: bool,
    pub ctrl: bool,
    pub alt: bool,
}

/// What becomes of a key press.
#[derive(Debug, Clone, PartialEq, Eq)]
pub enum KeyOutcome {
    /// It goes on to the client.
    Forward,
    /// It is a volume or brightness key: the display program is run with these
    /// arguments.
    Display(Vec<String>),
    /// It makes the compositor do something.
    Intercept(Action),
}

/// What the display program is to show for a volume or brightness key.
pub open spec fn display_text(sym: u32) -> Option<Seq<char>> {
    if sym == 0x1008_ff11 {
        Some("output-volume lower"@)
    } else if sym == 0x1008_ff13 {
        Some("output-volume raise"@)
    } else if sym == 0x1008_ff12 {
        Some("output-volume mute-toggle"@)
    } else if sym == 0x1008_ff03 {
        Some("brightness lower"@)
    } else if sym == 0x1008_ff02 {
        Some("brightness raise"@)
    } else {
        None
    }
}

/// What the display program is to show for a volume or brightness key.
pub fn osd_argument(sym: u32) -> (r: Option<String>)
    ensures
        opt_text(r) == display_text(sym),
{
    if sym == 0x1008_ff11 {
        Some("output-volume lower".to_owned())
    } else if sym == 0x1008_ff13 {
        Some("output-volume raise".to_owned())
    } else if sym == 0x1008_ff12 {
        Some("output-volume mute-toggle".to_owned())
    } else if sym == 0x1008_ff03 {
        Some("brightness lower".to_owned())
    } else if sym == 0x1008_ff02 {
        Some("brightness raise".to_owned())
    } else {
        None
    }
}

/// The bits of fifty.
pub const FIFTY: u64 = 0x4049_0000_0000_0000;

/// The bits of minus fifty.
pub const MINUS_FIFTY: u64 = 0xc049_0000_0000_0000;

/// How far an arrow key moves a floating window, to the right and downwards.
pub open spec fn arrow_step(sym: u32) -> Option<(Double, Double)> {
    if sym == 0xff51 {
        Some((Double { bits: MINUS_FIFTY }, Double { bits: 0 }))
    } else if sym == 0xff53 {
        Some((Double { bits: FIFTY }, Double { bits: 0 }))
    } else if sym == 0xff52 {
        Some((Double { bits: 0 }, Double { bits: MINUS_FIFTY }))
    } else if sym == 0xff54 {
        Some((Double { bits: 0 }, Double { bits: FIFTY }))
    } else {
        None
    }
}

/// How far an arrow key moves a floating window.
pub fn step_of_arrow(sym: u32) -> (r: Option<(Double, Double)>)
    ensures
        r == arrow_step(sym),
{
    if sym == 0xff51 {
        Some((Double { bits: MINUS_FIFTY }, Double { bits: 0 }))
    } else if sym == 0xff53 {
        Some((Double { bits: FIFTY }, Double { bits: 0 }))
    } else if sym == 0xff52 {
        Some((Double { bits: 0 }, Double { bits: MINUS_FIFTY }))
    } else if sym == 0xff54 {
        Some((Double { bits: 0 }, Double { bits: FIFTY }))
    } else {
        None
    }
}

/// Whether a key binding is pressed: exactly its modifiers are held down and its
/// key is one of those that the pressed key stands for.
pub open spec fn pressed_bind(bind: ParsedKeyBind, modifiers: Modifiers, syms: Seq<u32>) -> bool {
    &&& bind.logo == modifiers.logo
    &&& bind.shift == modifiers.shift
    &&& bind.ctrl == modifiers.ctrl
    &&& bind.alt == modifiers.alt
    &&& syms.contains(bind.keysym)
}

/// The first key binding that is pressed.
pub open spec fn first_pressed(
    binds: Seq<BoundView>,
    modifiers: Modifiers,
    syms: Seq<u32>,
) -> Option<BoundView>
    decreases binds.len(),
{
    if binds.len() == 0 {
        None
    } else if pressed_bind(binds[0].0, modifiers, syms) {
        Some(binds[0])
    } else {
        first_pressed(binds.drop_first(), modifiers, syms)
    }
}

/// The argument of a binding, or what stands for a missing one.
pub open spec fn arg_or(arg: Option<Seq<char>>, default: Seq<char>) -> Seq<char> {
    match arg {
        Some(text) => text,
        None => default,
    }
}

/// The workspace that an argument names. Arguments count from one, workspaces
/// from zero; what is no number counts as one.
pub open spec fn workspace_named(arg: Option<Seq<char>>) -> usize {
    let n = match number_in(arg_or(arg, "1"@)) {
        Some(n) => n,
        None => 1,
    };
    if n == 0 {
        0
    } else {
        (n - 1) as usize
    }
}

/// `action` is what a binding names. An unknown name means no action.
pub open spec fn names_action(
    name: Seq<char>,
    arg: Option<Seq<char>>,
    action: Option<Action>,
) -> bool {
    if name == "exec"@ {
        action matches Some(Action::Exec(command)) && command@ == arg_or(arg, ""@)
    } else if name == "close"@ {
        action == Some(Action::CloseWindow)
    } else if name == "quit"@ {
        action == Some(Action::Quit)
    } else if name == "lock"@ {
        action == Some(Action::Lock)
    } else if name == "fullscreen"@ {
        action == Some(Action::ToggleFullscreen)
    } else if name == "floating"@ {
        action == Some(Action::ToggleFloating)
    } else if name == "resize"@ {
        action matches Some(Action::ResizeRatio(delta)) && delta@ == arg_or(arg, "0.05"@)
    } else if name == "focus"@ {
        action == Some(
            if arg_or(arg, "next"@) == "prev"@ {
                Action::FocusPrev
            } else {
                Action::FocusNext
            },
        )
    } else if name == "swap"@ {
        action == Some(
            if arg_or(arg, "next"@) == "prev"@ {
                Action::SwapPrev
            } else {
                Action::SwapNext
            },
        )
    } else if name == "workspace"@ {
        action == Some(Action::Workspace(workspace_named(arg)))
    } else if name == "movetoworkspace"@ {
        action == Some(Action::MoveToWorkspace(workspace_named(arg)))
    } else {
        action is None
    }
}

fn text_or(arg: &Option<String>, default: &str) -> (r: String)
    ensures
        r@ == arg_or(opt_text(*arg), default@),
{
    match arg {
        Some(text) => text.clone(),
        None => default.to_owned(),
    }
}

fn workspace_of(arg: &Option<String>) -> (r: usize)
    ensures
        r == workspace_named(opt_text(*arg)),
{
    let text = text_or(arg, "1");
    let n: usize = match parse_usize(text.as_str()) {
        Some(n) => n,
        None => 1,
    };
    if n == 0 {
        0
    } else {
        n - 1
    }
}

/// The action that a binding names.
pub fn action_of(name: &str, arg: &Option<String>) -> (r: Option<Action>)
    ensures
        names_action(name@, opt_text(*arg), r),
{
    if str_eq(name, "exec") {
        return Some(Action::Exec(text_or(arg, "")));
    }
    if str_eq(name, "close") {
        return Some(Action::CloseWindow);
    }
    if str_eq(name, "quit") {
        return Some(Action::Quit);
    }
    if str_eq(name, "lock") {
        return Some(Action::Lock);
    }
    if str_eq(name, "fullscreen") {
        return Some(Action::ToggleFullscreen);
    }
    if str_eq(name, "floating") {
        return Some(Action::ToggleFloating);
    }
    if str_eq(name, "resize") {
        return Some(Action::ResizeRatio(text_or(arg, "0.05")));
    }
    if str_eq(name, "focus") {
        let direction = text_or(arg, "next");
        return if str_eq(direction.as_str(), "prev") {
            Some(Action::FocusPrev)
        } else {
            Some(Action::FocusNext)
        };
    }
    if str_eq(name, "swap") {
        let direction = text_or(arg, "next");
        return if str_eq(direction.as_str(), "prev") {
            Some(Action::SwapPrev)
        } else {
            Some(Action::SwapNext)
        };
    }
    if str_eq(name, "workspace") {
        return Some(Action::Workspace(workspace_of(arg)));
    }
    if str_eq(name, "movetoworkspace") {
        return Some(Action::MoveToWorkspace(workspace_of(arg)));
    }
    None
}

fn holds_sym(syms: &Vec<u32>, sym: u32) -> (r: bool)
    ensures
        r == syms@.contains(sym),
{
    let mut i: usize = 0;
    while i < syms.len()
        invariant
            0 <= i <= syms.len(),
            forall|k: int| 0 <= k < i ==> #[trigger] syms@[k] != sym,
        decreases syms.len() - i,
    {
        if syms[i] == sym {
            return true;
        }
        i = i + 1;
    }
    false
}

/// `action` is what the key bindings make of a key press: what the first one that
/// is pressed names, and nothing if none is.
pub open spec fn binds_name(
    binds: Seq<BoundView>,
    modifiers: Modifiers,
    syms: Seq<u32>,
    action: Option<Action>,
) -> bool {
    match first_pressed(binds, modifiers, syms) {
        Some(bound) => names_action(bound.1, bound.2, action),
        None => action is None,
    }
}

/// What the key bindings make of a key press. `syms` are what the key stands for
/// without the modifiers, so that a digit stays a digit under Shift.
pub fn check_configurable_keybind(
    modifiers: Modifiers,
    syms: &Vec<u32>,
    parsed_binds: &Vec<(ParsedKeyBind, String, Option<String>)>,
) -> (r: Option<Action>)
    ensures
        binds_name(bound_views(parsed_binds@), modifiers, syms@, r),
{
    let ghost views = bound_views(parsed_binds@);
    let mut i: usize = 0;
    assert(views.skip(0) =~= views);
    while i < parsed_binds.len()
        invariant
            0 <= i <= parsed_binds.len(),
            views == bound_views(parsed_binds@),
            first_pressed(views, modifiers, syms@) == first_pressed(
                views.skip(i as int),
                modifiers,
                syms@,
            ),
        decreases parsed_binds.len() - i,
    {
        let bound = &parsed_binds[i];
        let bind = bound.0;
        proof {
            assert(views.skip(i as int)[0] == bound_view(*bound));
            assert(views.skip(i as int).drop_first() =~= views.skip(i + 1));
        }
        if bind.logo == modifiers.logo && bind.shift == modifiers.shift && bind.ctrl
            == modifiers.ctrl && bind.alt == modifiers.alt && holds_sym(syms, bind.keysym) {
            return action_of(bound.1.as_str(), &bound.2);
        }
        i = i + 1;
    }
    None
}

/// Whether the logo and Shift keys are held down, and no other modifier.
pub open spec fn moves_floating_keys(modifiers: Modifiers) -> bool {
    modifiers.logo && modifiers.shift && !modifiers.ctrl && !modifiers.alt
}

/// `outcome` is what becomes of a key press: volume and brightness keys come
/// first, then the arrow keys that move floating windows, then the key bindings.
pub open spec fn filters_key(
    pressed: bool,
    modifiers: Modifiers,
    sym: u32,
    syms: Seq<u32>,
    binds: Seq<BoundView>,
    outcome: KeyOutcome,
) -> bool {
    if !pressed {
        outcome is Forward
    } else if display_text(sym) is Some {
        outcome matches KeyOutcome::Display(args) && texts(args@) == words(display_text(sym)->0)
    } else if moves_floating_keys(modifiers) && arrow_step(sym) is Some {
        outcome == KeyOutcome::Intercept(
            Action::MoveFloating((arrow_step(sym)->0).0, (arrow_step(sym)->0).1),
        )
    } else {
        match outcome {
            KeyOutcome::Forward => binds_name(binds, modifiers, syms, None),
            KeyOutcome::Intercept(action) => binds_name(binds, modifiers, syms, Some(action)),
            KeyOutcome::Display(_) => false,
        }
    }
}

/// Decides what becomes of a key press. `sym` is what the key stands for with the
/// modifiers, `syms` what it stands for without them.
pub fn filter_key(
    pressed: bool,
    modifiers: Modifiers,
    sym: u32,
    syms: &Vec<u32>,
    parsed_binds: &Vec<(ParsedKeyBind, String, Option<String>)>,
) -> (outcome: KeyOutcome)
    ensures
        filters_key(pressed, modifiers, sym, syms@, bound_views(parsed_binds@), outcome),
{
    if !pressed {
        return KeyOutcome::Forward;
    }
    if let Some(text) = osd_argument(sym) {
        return KeyOutcome::Display(split_words(text.as_str()));
    }
    if modifiers.logo && modifiers.shift && !modifiers.ctrl && !modifiers.alt {
        if let Some((dx, dy)) = step_of_arrow(sym) {
            return KeyOutcome::Intercept(Action::MoveFloating(dx, dy));
        }
    }
    match check_configurable_keybind(modifiers, syms, parsed_binds) {
        Some(action) => KeyOutcome::Intercept(action),
        None => KeyOutcome::Forward,
    }
}

/// The first binding that is pressed decides, however many follow it.
pub proof fn law_first_binding_wins(
    binds: Seq<BoundView>,
    modifiers: Modifiers,
    syms: Seq<u32>,
    i: int,
)
    requires
        0 <= i < binds.len(),
        pressed_bind(binds[i].0, modifiers, syms),
        forall|j: int|
            0 <= j < i ==> !pressed_bind((#[trigger] binds[j]).0, modifiers, syms),
    ensures
        first_pressed(binds, modifiers, syms) == Some(binds[i]),
    decreases i,
{
    if i > 0 {
        assert(!pressed_bind(binds[0].0, modifiers, syms));
        let rest = binds.drop_first();
        assert forall|j: int| 0 <= j < i - 1 implies !pressed_bind(
            (#[trigger] rest[j]).0,
            modifiers,
            syms,
        ) by {
            assert(rest[j] == binds[j + 1]);
        }
        law_first_binding_wins(rest, modifiers, syms, i - 1);
    }
}

/// A key press that no binding names goes on to the client, unless it is one of
/// the keys that need no binding.
pub proof fn law_unbound_keys_forwarded(
    modifiers: Modifiers,
    sym: u32,
    syms: Seq<u32>,
    binds: Seq<BoundView>,
    outcome: KeyOutcome,
)
    requires
        filters_key(true, modifiers, sym, syms, binds, outcome),
        display_text(sym) is None,
        !(moves_floating_keys(modifiers) && arrow_step(sym) is Some),
        forall|j: int|
            0 <= j < binds.len() ==> !pressed_bind((#[trigger] binds[j]).0, modifiers, syms),
    ensures
        outcome is Forward,
    decreases binds.len(),
{
    lemma_none_pressed(binds, modifiers, syms);
}

proof fn lemma_none_pressed(binds: Seq<BoundView>, modifiers: Modifiers, syms: Seq<u32>)
    requires
        forall|j: int|
            0 <= j < binds.len() ==> !pressed_bind((#[trigger] binds[j]).0, modifiers, syms),
    ensures
        first_pressed(binds, modifiers, syms) is None,
    decreases binds.len(),
{
    if binds.len() > 0 {
        assert(!pressed_bind(binds[0].0, modifiers, syms));
        let rest = binds.drop_first();
        assert forall|j: int| 0 <= j < rest.len() implies !pressed_bind(
            (#[trigger] rest[j]).0,
            modifiers,
            syms,
        ) by {
            assert(rest[j] == binds[j + 1]);
        }
        lemma_none_pressed(rest, modifiers, syms);
    }
}

} // verus!
