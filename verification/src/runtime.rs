//! Shell-agnostic application core.
//!
//! Runtime owns the state and reduces messages into it. It knows nothing about a
//! toolkit or a main loop: each shell boots one, drains its event sources, calls
//! dispatch, and does what the reduce asked for.

use crate::profile;
use crate::state;
use crate::state::{save_failed, update, App, AppView, Effects, Message, Work};
use crate::text::{clone_opt, same_opt};
use vstd::prelude::*;
use vstd::string::*;

verus! {

/// The application core: the state, and what the last reduce wants done beyond
/// it.
pub struct Runtime {
    pub state: App,
    /// Kept apart from the state: a reduce only names what it wants done, and
    /// doing it is the shell's side of the boundary, which keeps the reducer a
    /// pure function of its state and its message.
    pub effects: Effects,
}

/// Two messages are quieter than the rest. A save tick changes what is drawn only
/// when saving fails, and a resize never changes what is drawn inside the window
/// at all.
pub open spec fn is_quiet(message: Message) -> bool {
    message is AutoSaveTick || message is GeometryChanged
}

/// Work not begun: a state and nothing to do beyond it.
pub open spec fn begun(st: AppView, connected: bool) -> Work {
    Work { state: st, commands: Seq::empty(), saves: Seq::empty(), overtaken: 0, connected }
}

impl Runtime {
    /// A core around a booted state, with a sound server to take its commands. A
    /// shell that has none says so in the effects.
    pub fn new(state: App) -> (runtime: Runtime)
        requires
            state.wf(),
        ensures
            runtime.state.wf(),
            state::work(runtime.state, runtime.effects) == begun(state@, true),
    {
        Runtime { state, effects: Effects::new(true) }
    }

    /// The current state, for the shell to project and draw.
    pub fn state(&self) -> (state: &App)
        ensures
            *state == self.state,
    {
        &self.state
    }

    /// Reduce one message and report whether the view needs a refresh, before any
    /// save it asks for has been tried.
    pub fn dispatch(&mut self, message: Message) -> (refresh: bool)
        requires
            old(self).state.wf(),
        ensures
            final(self).state.wf(),
            state::work(final(self).state, final(self).effects) == state::step(
                begun(old(self).state@, old(self).effects.connected),
                message,
            ),
            refresh == !is_quiet(message),
    {
        let quiet = match &message {
            Message::AutoSaveTick => true,
            Message::GeometryChanged { .. } => true,
            _ => false,
        };
        let mut effects = Effects::new(self.effects.connected);
        update(&mut self.state, message, &mut effects);
        self.effects = effects;
        !quiet
    }

    /// Note how the save `at` went, in the order they were asked for, and report
    /// whether the status line changed: what decides whether a save tick is worth a
    /// refresh. What the line has said since the save stands.
    pub fn saved(&mut self, at: usize, error: Option<&str>) -> (refresh: bool)
        requires
            old(self).state.wf(),
        ensures
            final(self).state.wf(),
            final(self).effects == old(self).effects,
            final(self).state@ == match error {
                Some(e) if at >= old(self).effects.overtaken => (AppView {
                    status: Some("save state: "@ + e@),
                    ..old(self).state@
                }),
                _ => old(self).state@,
            },
            refresh == (final(self).state@.status != old(self).state@.status),
    {
        if at < self.effects.overtaken {
            return false;
        }
        match error {
            Some(e) => {
                let before = clone_opt(&self.state.status);
                save_failed(&mut self.state, e);
                !same_opt(&before, &self.state.status)
            },
            None => false,
        }
    }

    /// Final flush on shutdown: a save tick folds in whatever is still dirty.
    pub fn shutdown(&mut self)
        requires
            old(self).state.wf(),
        ensures
            final(self).state.wf(),
            state::work(final(self).state, final(self).effects) == state::step(
                begun(old(self).state@, old(self).effects.connected),
                Message::AutoSaveTick,
            ),
    {
        let refresh = self.dispatch(Message::AutoSaveTick);
    }
}

/// A tick with nothing to save does nothing and asks for nothing.
pub proof fn a_clean_tick_is_idle(st: AppView, connected: bool)
    requires
        !st.dirty,
        !st.geometry_dirty,
    ensures
        state::step(begun(st, connected), Message::AutoSaveTick) == begun(st, connected),
{
}

/// After a tick nothing is left to save, so the next one is idle.
pub proof fn a_tick_leaves_nothing_to_save(st: AppView, connected: bool)
    ensures
        ({
            let once = state::step(begun(st, connected), Message::AutoSaveTick).state;
            state::step(begun(once, connected), Message::AutoSaveTick) == begun(once, connected)
        }),
{
}

/// A profile that is not there is what the status line names, even where the save
/// that went before it failed.
pub proof fn an_unknown_profile_is_named_whatever_the_save_did(
    st: AppView,
    connected: bool,
    name: String,
)
    requires
        profile::find_name(
            state::flushed(begun(st, connected), name@).state.profiles.profiles,
            name@,
        ) is None,
    ensures
        ({
            let done = state::step(begun(st, connected), Message::ApplyProfile(name));
            &&& done.state.status == Some(state::not_found(name@))
            &&& done.overtaken == done.saves.len()
        }),
{
}

} // verus!
