//! Where a key goes: to the lock screen, to an action, or to the client.

use super::keys::{filter_key, filters_key, KeyOutcome, Modifiers};
use super::locked::lock_key_of;
use crate::compositor::state::{LingxiState, StateView};
use crate::config::{bind_views, readable_binds};
use vstd::prelude::*;

verus! {

/// Where a key goes.
#[derive(Debug, PartialEq, Eq)]
pub enum KeyRoute {
    /// The lock screen has it; `verify` asks for the password to be verified.
    Swallowed { verify: bool },
    /// The screen is not locked.
    Decided(KeyOutcome),
}

impl StateView {
    /// `next` and `route` are what becomes of a key: the lock screen takes every
    /// key while the screen is locked, and otherwise the configured bindings
    /// decide.
    pub open spec fn routes_key(
        self,
        pressed: bool,
        modifiers: Modifiers,
        sym: u32,
        syms: Seq<u32>,
        next: StateView,
        route: KeyRoute,
    ) -> bool {
        if self.locked {
            &&& next == if pressed {
                StateView { needs_render: true, ..self.typed(lock_key_of(sym)) }
            } else {
                self
            }
            &&& route == (KeyRoute::Swallowed { verify: pressed && lock_key_of(sym) is Verify })
        } else {
            &&& next == self
            &&& route matches KeyRoute::Decided(outcome) && filters_key(
                pressed,
                modifiers,
                sym,
                syms,
                readable_binds(bind_views(self.config.binds@)),
                outcome,
            )
        }
    }
}

impl LingxiState {
    /// Decides where a key goes. `sym` is what the key stands for with the
    /// modifiers, `syms` what it stands for without them.
    pub fn route_key(
        &mut self,
        pressed: bool,
        modifiers: Modifiers,
        sym: u32,
        syms: &Vec<u32>,
    ) -> (route: KeyRoute)
        requires
            old(self).wf(),
        ensures
            final(self).wf(),
            old(self)@.routes_key(pressed, modifiers, sym, syms@, final(self)@, route),
    {
        if self.locked {
            KeyRoute::Swallowed { verify: self.locked_key(pressed, sym) }
        } else {
            let binds = self.config.parsed_binds();
            KeyRoute::Decided(filter_key(pressed, modifiers, sym, syms, &binds))
        }
    }
}

/// While the screen is locked no key reaches a client or an action, and it stays
/// locked.
pub proof fn law_locked_keys_swallowed(
    state: StateView,
    pressed: bool,
    modifiers: Modifiers,
    sym: u32,
    syms: Seq<u32>,
    next: StateView,
    route: KeyRoute,
)
    requires
        state.locked,
        state.routes_key(pressed, modifiers, sym, syms, next, route),
    ensures
        route is Swallowed,
        next.locked,
        next.workspaces == state.workspaces,
        next.active == state.active,
{
}

} // verus!
