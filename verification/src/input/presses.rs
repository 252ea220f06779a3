//! What a key press comes to.

use super::keys::{filters_key, first_pressed, names_action, Action, KeyOutcome, Modifiers};
use super::locked::lock_key_of;
use super::route::KeyRoute;
use crate::compositor::state::StateView;
use crate::config::{bind_views, parsed_keys, readable_binds, BoundView, KeyBindView};
use crate::scalar::Double;
use crate::text::number_in;
use vstd::prelude::*;

verus! {

/// A binding asks for exactly the modifiers that are held down, no more and no fewer,
/// and for one of the keys that the pressed key stands for.
pub open spec fn asks_for(bound: BoundView, modifiers: Modifiers, syms: Seq<u32>) -> bool {
    &&& (bound.0.logo <==> modifiers.logo)
    &&& (bound.0.shift <==> modifiers.shift)
    &&& (bound.0.ctrl <==> modifiers.ctrl)
    &&& (bound.0.alt <==> modifiers.alt)
    &&& exists|k: int| 0 <= k < syms.len() && #[trigger] syms[k] == bound.0.keysym
}

/// Volume and brightness keys.
pub open spec fn is_display_key(sym: u32) -> bool {
    sym == 0x1008_ff11 || sym == 0x1008_ff12 || sym == 0x1008_ff13 || sym == 0x1008_ff02 || sym
        == 0x1008_ff03
}

/// An arrow key with the logo and Shift keys, and no other modifier.
pub open spec fn is_moving_key(modifiers: Modifiers, sym: u32) -> bool {
    &&& modifiers.logo
    &&& modifiers.shift
    &&& !modifiers.ctrl
    &&& !modifiers.alt
    &&& 0xff51 <= sym <= 0xff54
}

/// The binding that a key press finds asks for what is pressed, and is the first one
/// that does; if it finds none, there is none.
pub proof fn law_binding_asks_for_press(
    binds: Seq<BoundView>,
    modifiers: Modifiers,
    syms: Seq<u32>,
)
    ensures
        match first_pressed(binds, modifiers, syms) {
            Some(bound) => exists|i: int|
                {
                    &&& 0 <= i < binds.len()
                    &&& #[trigger] binds[i] == bound
                    &&& asks_for(bound, modifiers, syms)
                    &&& forall|j: int|
                        0 <= j < i ==> !asks_for(#[trigger] binds[j], modifiers, syms)
                },
            None => forall|j: int|
                0 <= j < binds.len() ==> !asks_for(#[trigger] binds[j], modifiers, syms),
        },
    decreases binds.len(),
{
    if binds.len() > 0 {
        let rest = binds.drop_first();
        law_binding_asks_for_press(rest, modifiers, syms);
        match first_pressed(binds, modifiers, syms) {
            Some(bound) => {
                if asks_for(binds[0], modifiers, syms) {
                    assert(binds[0] == bound);
                } else {
                    let i = choose|i: int|
                        {
                            &&& 0 <= i < rest.len()
                            &&& #[trigger] rest[i] == bound
                            &&& asks_for(bound, modifiers, syms)
                            &&& forall|j: int|
                                0 <= j < i ==> !asks_for(#[trigger] rest[j], modifiers, syms)
                        };
                    assert(binds[i + 1] == bound);
                    assert forall|j: int| 0 <= j < i + 1 implies !asks_for(
                        #[trigger] binds[j],
                        modifiers,
                        syms,
                    ) by {
                        if j > 0 {
                            assert(binds[j] == rest[j - 1]);
                        }
                    }
                }
            },
            None => {
                assert forall|j: int| 0 <= j < binds.len() implies !asks_for(
                    #[trigger] binds[j],
                    modifiers,
                    syms,
                ) by {
                    if j > 0 {
                        assert(binds[j] == rest[j - 1]);
                    }
                }
            },
        }
    }
}

/// A press that differs from every binding in a modifier or in the key goes on to the
/// client: Tab alone is not Alt and Tab. So does a key that is let go.
pub proof fn law_other_presses_forwarded(
    pressed: bool,
    modifiers: Modifiers,
    sym: u32,
    syms: Seq<u32>,
    binds: Seq<BoundView>,
    outcome: KeyOutcome,
)
    requires
        filters_key(pressed, modifiers, sym, syms, binds, outcome),
        pressed ==> {
            &&& !is_display_key(sym)
            &&& !is_moving_key(modifiers, sym)
            &&& forall|j: int|
                0 <= j < binds.len() ==> {
                    ||| (#[trigger] binds[j]).0.logo != modifiers.logo
                    ||| binds[j].0.shift != modifiers.shift
                    ||| binds[j].0.ctrl != modifiers.ctrl
                    ||| binds[j].0.alt != modifiers.alt
                    ||| !syms.contains(binds[j].0.keysym)
                }
        },
    ensures
        outcome is Forward,
{
    if pressed {
        law_binding_asks_for_press(binds, modifiers, syms);
        if let Some(bound) = first_pressed(binds, modifiers, syms) {
            let i = choose|i: int|
                {
                    &&& 0 <= i < binds.len()
                    &&& #[trigger] binds[i] == bound
                    &&& asks_for(bound, modifiers, syms)
                };
            let k = choose|k: int| 0 <= k < syms.len() && #[trigger] syms[k] == bound.0.keysym;
            assert(syms.contains(binds[i].0.keysym));
        }
    }
}

/// A press for which a binding asks makes the compositor do what the first such binding
/// names; if that is nothing it goes on to the client.
pub proof fn law_bound_press_acts(
    modifiers: Modifiers,
    sym: u32,
    syms: Seq<u32>,
    binds: Seq<BoundView>,
    i: int,
    outcome: KeyOutcome,
)
    requires
        filters_key(true, modifiers, sym, syms, binds, outcome),
        !is_display_key(sym),
        !is_moving_key(modifiers, sym),
        0 <= i < binds.len(),
        asks_for(binds[i], modifiers, syms),
        forall|j: int| 0 <= j < i ==> !asks_for(#[trigger] binds[j], modifiers, syms),
    ensures
        match outcome {
            KeyOutcome::Forward => names_action(binds[i].1, binds[i].2, None),
            KeyOutcome::Intercept(action) => names_action(binds[i].1, binds[i].2, Some(action)),
            KeyOutcome::Display(_) => false,
        },
{
    law_binding_asks_for_press(binds, modifiers, syms);
    assert(first_pressed(binds, modifiers, syms) == Some(binds[i])) by {
        match first_pressed(binds, modifiers, syms) {
            Some(bound) => {
                let k = choose|k: int|
                    {
                        &&& 0 <= k < binds.len()
                        &&& #[trigger] binds[k] == bound
                        &&& asks_for(bound, modifiers, syms)
                        &&& forall|j: int|
                            0 <= j < k ==> !asks_for(#[trigger] binds[j], modifiers, syms)
                    };
                assert(k == i);
            },
            None => {},
        }
    }
}

/// Volume and brightness keys are shown whatever the bindings are, and the arrow keys
/// with the logo and Shift keys move the floating window by fifty pixels that way.
pub proof fn law_keys_without_binding(
    modifiers: Modifiers,
    sym: u32,
    syms: Seq<u32>,
    binds: Seq<BoundView>,
    outcome: KeyOutcome,
)
    requires
        filters_key(true, modifiers, sym, syms, binds, outcome),
    ensures
        is_display_key(sym) ==> outcome is Display,
        outcome is Display ==> is_display_key(sym),
        is_moving_key(modifiers, sym) ==> outcome == KeyOutcome::Intercept(
            Action::MoveFloating(
                Double {
                    bits: if sym == 0xff51 {
                        0xc049_0000_0000_0000
                    } else if sym == 0xff53 {
                        0x4049_0000_0000_0000
                    } else {
                        0
                    },
                },
                Double {
                    bits: if sym == 0xff52 {
                        0xc049_0000_0000_0000
                    } else if sym == 0xff54 {
                        0x4049_0000_0000_0000
                    } else {
                        0
                    },
                },
            ),
        ),
{
}

/// Workspaces are counted from one in bindings and from zero in actions: the number that
/// a binding gives is one more than that of the workspace. What is no number counts as
/// one.
pub proof fn law_workspaces_count_from_one(text: Seq<char>, action: Option<Action>, send: bool)
    requires
        names_action(
            if send {
                "movetoworkspace"@
            } else {
                "workspace"@
            },
            Some(text),
            action,
        ),
    ensures
        match number_in(text) {
            Some(n) if n > 0 => action matches Some(does) && match does {
                Action::Workspace(at) => !send && at + 1 == n,
                Action::MoveToWorkspace(at) => send && at + 1 == n,
                _ => false,
            },
            _ => action == Some(
                if send {
                    Action::MoveToWorkspace(0)
                } else {
                    Action::Workspace(0)
                },
            ),
        },
{
    reveal_strlit("workspace");
    reveal_strlit("movetoworkspace");
    reveal_strlit("exec");
    reveal_strlit("close");
    reveal_strlit("quit");
    reveal_strlit("lock");
    reveal_strlit("fullscreen");
    reveal_strlit("floating");
    reveal_strlit("resize");
    reveal_strlit("focus");
    reveal_strlit("swap");
    assert("workspace"@[0] == 'w');
    assert("movetoworkspace"@[0] == 'm');
    assert("exec"@[0] == 'e');
    assert("close"@[0] == 'c');
    assert("quit"@[0] == 'q');
    assert("lock"@[0] == 'l');
    assert("fullscreen"@[0] == 'f');
    assert("floating"@[0] == 'f');
    assert("resize"@[0] == 'r');
    assert("focus"@[0] == 'f');
    assert("swap"@[0] == 's');
}

/// The bindings of a longer list are those of its parts, one after the other: which
/// bindings can be read does not depend on the others, and their order is kept.
pub proof fn law_bindings_in_order(a: Seq<KeyBindView>, b: Seq<KeyBindView>)
    ensures
        readable_binds(a + b) == readable_binds(a) + readable_binds(b),
    decreases b.len(),
{
    if b.len() == 0 {
        assert(a + b =~= a);
        assert(readable_binds(a + b) =~= readable_binds(a) + readable_binds(b));
    } else {
        law_bindings_in_order(a, b.drop_last());
        assert((a + b).drop_last() =~= a + b.drop_last());
        assert((a + b).last() == b.last());
        assert(readable_binds(a + b) =~= readable_binds(a) + readable_binds(b));
    }
}

/// A binding that can be read keeps its action and its argument.
pub proof fn law_binding_keeps_action(bind: KeyBindView)
    ensures
        match parsed_keys(bind.keys) {
            Some(parsed) => readable_binds(seq![bind]).len() == 1 && {
                let bound = readable_binds(seq![bind])[0];
                bound.0 == parsed && bound.1 == bind.action && bound.2 == bind.arg
            },
            None => readable_binds(seq![bind]).len() == 0,
        },
{
    assert(seq![bind].drop_last() =~= Seq::<KeyBindView>::empty());
    reveal_with_fuel(readable_binds, 2);
}

/// While the screen is locked, the Enter key asks for the password to be verified, the
/// Backspace key takes back what was typed last, the Escape key all of it, and a key that
/// types a printable ASCII character adds that character. No other key, and no key that is
/// let go, changes what was typed.
pub proof fn law_typing_on_lock_screen(
    state: StateView,
    pressed: bool,
    modifiers: Modifiers,
    sym: u32,
    syms: Seq<u32>,
    next: StateView,
    route: KeyRoute,
)
    requires
        state.locked,
        state.routes_key(pressed, modifiers, sym, syms, next, route),
    ensures
        route == (KeyRoute::Swallowed { verify: pressed && sym == 0xff0d }),
        !pressed ==> next == state,
        pressed ==> next.needs_render,
        pressed && sym == 0xff08 ==> next.password_input == if state.password_input.len() > 0 {
            state.password_input.take(state.password_input.len() - 1)
        } else {
            state.password_input
        },
        pressed && sym == 0xff1b ==> next.password_input.len() == 0 && next.password_error is None,
        pressed && 0x20 <= sym <= 0x7e ==> {
            &&& next.password_input.len() == state.password_input.len() + 1
            &&& next.password_input.drop_last() == state.password_input
            &&& next.password_input.last() as u32 == sym
            &&& next.password_error is None
        },
        pressed && sym != 0xff08 && sym != 0xff1b && !(0x20 <= sym <= 0x7e)
            ==> next.password_input == state.password_input && next.password_error
            == state.password_error,
        next == (StateView {
            needs_render: next.needs_render,
            password_input: next.password_input,
            password_error: next.password_error,
            ..state
        }),
{
    assert(lock_key_of(sym) is Character ==> state.password_input.push(
        sym as char,
    ).drop_last() =~= state.password_input);
}

/// While the screen is not locked, keys change nothing of the state by themselves, and
/// the bindings of the settings decide.
pub proof fn law_unlocked_keys_decided(
    state: StateView,
    pressed: bool,
    modifiers: Modifiers,
    sym: u32,
    syms: Seq<u32>,
    next: StateView,
    route: KeyRoute,
)
    requires
        !state.locked,
        state.routes_key(pressed, modifiers, sym, syms, next, route),
    ensures
        next == state,
        route matches KeyRoute::Decided(outcome) && filters_key(
            pressed,
            modifiers,
            sym,
            syms,
            readable_binds(bind_views(state.config.binds@)),
            outcome,
        ),
{
}

} // verus!
