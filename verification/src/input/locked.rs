//! The keyboard while the screen is locked.

use crate::compositor::screen::Screen;
use crate::compositor::state::{Effect, LingxiState, StateView};
use crate::layout::splits_in_range;
use crate::numerics::Numerics;
use vstd::prelude::*;

verus! {

/// How long the lock screen says that a password was wrong, in nanoseconds: three
/// seconds.
pub const ERROR_SHOWN: u64 = 3_000_000_000;

/// What a key does on the lock screen.
#[derive(Debug, Clone, Copy, PartialEq, Eq, Structural)]
pub enum LockKey {
    /// Have the password verified.
    Verify,
    /// Take back the last character.
    Erase,
    /// Start over.
    Clear,
    /// Type a character.
    Character(char),
    /// Nothing.
    Ignore,
}

/// What a key does on the lock screen: Enter, Backspace, Escape and the printable
/// ASCII characters do something.
pub open spec fn lock_key_of(sym: u32) -> LockKey {
    if sym == 0xff0d {
        LockKey::Verify
    } else if sym == 0xff08 {
        LockKey::Erase
    } else if sym == 0xff1b {
        LockKey::Clear
    } else if 0x20 <= sym <= 0x7e {
        LockKey::Character(sym as char)
    } else {
        LockKey::Ignore
    }
}

/// What a key does on the lock screen.
pub fn lock_key(sym: u32) -> (r: LockKey)
    ensures
        r == lock_key_of(sym),
{
    if sym == 0xff0d {
        LockKey::Verify
    } else if sym == 0xff08 {
        LockKey::Erase
    } else if sym == 0xff1b {
        LockKey::Clear
    } else if 0x20 <= sym && sym <= 0x7e {
        let byte: u8 = sym as u8;
        LockKey::Character(byte as char)
    } else {
        LockKey::Ignore
    }
}

impl StateView {
    /// The state after a key has been pressed on the lock screen, as far as the
    /// password is concerned.
    pub open spec fn typed(self, key: LockKey) -> StateView {
        match key {
            LockKey::Verify => self,
            LockKey::Erase => StateView {
                password_input: if self.password_input.len() > 0 {
                    self.password_input.drop_last()
                } else {
                    self.password_input
                },
                ..self
            },
            LockKey::Clear => StateView {
                password_input: Seq::empty(),
                password_error: None,
                ..self
            },
            LockKey::Character(c) => StateView {
                password_input: self.password_input.push(c),
                password_error: None,
                ..self
            },
            LockKey::Ignore => self,
        }
    }

    /// The state after a wrong password.
    pub open spec fn rejected(self, now: u64) -> StateView {
        StateView {
            password_input: Seq::empty(),
            password_error: Some("Password incorrect"@),
            password_error_at: now,
            needs_render: true,
            ..self
        }
    }

    /// Whether what the lock screen says of a wrong password has been said for long
    /// enough.
    pub open spec fn error_expired(self, now: u64) -> bool {
        self.password_error is Some && now - self.password_error_at >= ERROR_SHOWN
    }
}

impl LingxiState {
    /// Takes back what the lock screen says of a wrong password, a few seconds
    /// after it came up. To be called every frame.
    pub fn expire_password_error(&mut self, now: u64)
        requires
            old(self).wf(),
        ensures
            final(self).wf(),
            final(self)@ == (if old(self)@.error_expired(now) {
                StateView { password_error: None, needs_render: true, ..old(self)@ }
            } else {
                old(self)@
            }),
    {
        if self.password_error.is_some() && now >= self.password_error_at && now
            - self.password_error_at >= ERROR_SHOWN {
            self.password_error = None;
            self.needs_render = true;
        }
    }

    /// A key on the lock screen. Returns whether the password is to be verified
    /// now. Keys that are let go do nothing.
    pub fn locked_key(&mut self, pressed: bool, sym: u32) -> (verify: bool)
        requires
            old(self).wf(),
        ensures
            final(self).wf(),
            !pressed ==> final(self)@ == old(self)@,
            pressed ==> final(self)@ == (StateView {
                needs_render: true,
                ..old(self)@.typed(lock_key_of(sym))
            }),
            verify == (pressed && lock_key_of(sym) is Verify),
    {
        if !pressed {
            return false;
        }
        let mut verify: bool = false;
        match lock_key(sym) {
            LockKey::Verify => {
                verify = true;
            },
            LockKey::Erase => {
                self.password_input.pop();
            },
            LockKey::Clear => {
                self.password_input = String::new();
                self.password_error = None;
            },
            LockKey::Character(c) => {
                self.password_input.push(c);
                self.password_error = None;
            },
            LockKey::Ignore => {},
        }
        self.needs_render = true;
        verify
    }

    /// The password has been verified: a right one unlocks the screen, a wrong one
    /// is to be typed again.
    pub fn password_verified<N: Numerics>(
        &mut self,
        right: bool,
        screen: &Screen,
        now: u64,
        num: &N,
    ) -> (effects: Vec<Effect>)
        requires
            old(self).wf(),
            right ==> old(self)@.arrangeable(0),
            splits_in_range(*num),
        ensures
            final(self).wf(),
            right ==> old(self)@.unlocks(*screen, now, *num, final(self)@, effects@),
            !right ==> final(self)@ == old(self)@.rejected(now) && effects@ == Seq::<
                Effect,
            >::empty(),
    {
        if right {
            self.unlock(screen, now, num)
        } else {
            self.password_input = String::new();
            self.password_error = Some("Password incorrect".to_owned());
            self.password_error_at = now;
            self.needs_render = true;
            Vec::new()
        }
    }
}

/// Backspace takes back the character typed last.
pub proof fn law_erase_undoes_character(state: StateView, c: char)
    ensures
        state.typed(LockKey::Character(c)).typed(LockKey::Erase).password_input
            == state.password_input,
{
    assert(state.password_input.push(c).drop_last() =~= state.password_input);
}

/// No key unlocks the screen, nor does a wrong password; only a right password
/// does.
pub proof fn law_keys_do_not_unlock(state: StateView, sym: u32, now: u64)
    ensures
        state.typed(lock_key_of(sym)).locked == state.locked,
        state.rejected(now).locked == state.locked,
        state.rejected(now).password_input.len() == 0,
{
}

/// What the lock screen says of a wrong password is there for three seconds, and no
/// longer.
pub proof fn law_error_goes_away(state: StateView, now: u64, later: u64)
    ensures
        state.rejected(now).password_error is Some,
        state.rejected(now).error_expired(later) <==> later >= now + ERROR_SHOWN,
{
}

/// A wrong password is forgotten, and the lock screen says so from then on for three
/// seconds.
pub proof fn law_wrong_password(state: StateView, now: u64, later: u64)
    ensures
        state.rejected(now).password_input.len() == 0,
        state.rejected(now).password_error == Some("Password incorrect"@),
        state.rejected(now).password_error_at == now,
        state.rejected(now).needs_render,
        state.rejected(now).workspaces == state.workspaces,
        state.rejected(now).locked == state.locked,
        state.rejected(now).error_expired(later) <==> later - now >= 3_000_000_000,
        state.password_error is None ==> !state.error_expired(later),
{
}

} // verus!
