//! The per-tick authority and the composition root.  The updater owns the
//! world state and the loaded plugins; each tick it first applies the
//! inbound player commands, then runs every plugin's tick hook in load
//! order, so plugins always observe a world already updated by this tick's
//! player actions.

use crate::connector::ServerConnector;
use crate::content::Plugin;
use crate::signals::PlayerSignal;
use crate::state::State;
use vstd::prelude::*;

verus! {

/// Owns the authoritative state and the loaded plugins, and applies
/// inbound commands to them.
pub struct ServerUpdater {
    pub state: State,
    pub plugins: Vec<Plugin>,
}

impl ServerUpdater {
    /// A fresh updater: a fresh store, no plugins.
    pub fn new() -> (u: Self)
        ensures
            u.state.wf(),
            u.state.floor_defs().len() == 0,
            u.state.wall_defs().len() == 0,
            u.state.entity_defs().len() == 1,
            u.state.floors_seq().len() == 0,
            u.state.walls_seq().len() == 0,
            u.state.entities_seq().len() == 0,
            u.plugins@.len() == 0,
    {
        Self { state: State::default(), plugins: Vec::new() }
    }

    /// Applies one decoded inbound command.  The commands currently
    /// supported request work outside the store (a server reload), so the
    /// world itself is left untouched; the caller reports the command.
    pub fn handle_signal(&mut self, signal: PlayerSignal)
        ensures
            final(self).state == old(self).state,
            final(self).plugins@ == old(self).plugins@,
    {
        match signal {
            PlayerSignal::ReloadServer => {},
        }
    }

    /// Runs every plugin's tick hook, in load order.  The hooks of the
    /// current content react to nothing, so the world and the plugins come
    /// out exactly as they went in; a future content revision that mutates
    /// on tick would weaken this to the fold of the hooks' effects.
    pub fn tick_plugins(&mut self)
        requires
            old(self).state.wf(),
        ensures
            final(self).state.wf(),
            final(self).state == old(self).state,
            final(self).plugins@ == old(self).plugins@,
    {
        let mut i: usize = 0;
        while i < self.plugins.len()
            invariant
                i <= self.plugins@.len(),
                self.state.wf(),
                self.state == old(self).state,
                self.plugins@ == old(self).plugins@,
            decreases self.plugins@.len() - i,
        {
            let mut plugin = self.plugins.remove(i);
            plugin.handle_event(&mut self.state);
            self.plugins.insert(i, plugin);
            proof {
                assert(self.plugins@ =~= old(self).plugins@);
            }
            i = i + 1;
        }
    }
}

/// The composition root: the connector that speaks to clients and the
/// updater that owns the world.
pub struct Server {
    pub connector: ServerConnector,
    pub updater: ServerUpdater,
}

impl Server {
    pub fn new(connector: ServerConnector, updater: ServerUpdater) -> (s: Self)
        ensures
            s.connector == connector,
            s.updater == updater,
    {
        Self { connector, updater }
    }

    /// Adds a loaded plugin; it will be ticked after every earlier one.
    pub fn push_plugin(&mut self, plugin: Plugin)
        ensures
            final(self).updater.plugins@ == old(self).updater.plugins@.push(plugin),
            final(self).updater.state == old(self).updater.state,
            final(self).connector == old(self).connector,
    {
        self.updater.plugins.push(plugin);
    }
}

} // verus!
