//! A session: the registry of windows and the window manager it works with,
//! and what saving, loading and replacing a session does to them.

use vstd::prelude::*;
pub use crate::window::SaveError;
use crate::config::General;
use crate::procinfo::ProcTable;
use crate::window::{
    WindowRegistry, Window, addr_map, cmdline_set, classify_error, first_classify_error,
    program_typed,
    save_commands, sorted_by_address, not_held, addr_lt, lemma_addr_map_dom,
    lemma_first_classify_error,
};

verus! {

/// The windows `result` are what saving makes of the fetched windows: the
/// fetched windows by address (`sorted`), classified (`typed`), then given the
/// command lines that reopen them.
pub open spec fn saved_windows(
    cfg: General,
    procs: ProcTable,
    fetched: Seq<Window>,
    sorted: Seq<Window>,
    typed: Seq<Window>,
    result: Seq<Window>,
) -> bool {
    &&& sorted_by_address(sorted)
    &&& addr_map(sorted) == addr_map(fetched)
    &&& sorted.len() == typed.len()
    &&& typed.len() == result.len()
    &&& forall|i: int| 0 <= i < sorted.len() ==> classify_error(cfg, procs, #[trigger] sorted[i]) is None
    &&& forall|i: int| 0 <= i < sorted.len() ==> program_typed(cfg, procs, #[trigger] sorted[i], typed[i])
    &&& forall|i: int| 0 <= i < typed.len() ==> cmdline_set(cfg.terminal, #[trigger] typed[i], result[i])
}

/// Saving keeps exactly the fetched windows' addresses: the saved registry
/// holds a window at an address exactly when a fetched window had it.
pub proof fn law_save_keeps_addresses(
    cfg: General,
    procs: ProcTable,
    fetched: Seq<Window>,
    sorted: Seq<Window>,
    typed: Seq<Window>,
    result: Seq<Window>,
)
    requires
        saved_windows(cfg, procs, fetched, sorted, typed, result),
    ensures
        sorted_by_address(result),
        addr_map(result).dom() == addr_map(fetched).dom(),
{
    assert forall|i: int| 0 <= i < result.len() implies #[trigger] result[i].address == sorted[i].address by {
        assert(program_typed(cfg, procs, sorted[i], typed[i]));
        assert(cmdline_set(cfg.terminal, typed[i], result[i]));
    }
    assert(sorted_by_address(result)) by {
        assert forall|a: int, b: int| 0 <= a < b < result.len() implies addr_lt(
            #[trigger] result[a].address@,
            #[trigger] result[b].address@,
        ) by {
            assert(result[a].address == sorted[a].address);
            assert(result[b].address == sorted[b].address);
        }
    }
    assert forall|k: Seq<char>| #[trigger] addr_map(result).contains_key(k) <==> addr_map(sorted).contains_key(k) by {
        lemma_addr_map_dom(result, k);
        lemma_addr_map_dom(sorted, k);
        if addr_map(result).contains_key(k) {
            let i = choose|i: int| 0 <= i < result.len() && #[trigger] result[i].address@ == k;
            assert(sorted[i].address@ == k);
        }
        if addr_map(sorted).contains_key(k) {
            let i = choose|i: int| 0 <= i < sorted.len() && #[trigger] sorted[i].address@ == k;
            assert(result[i].address@ == k);
        }
    }
    assert(addr_map(result).dom() =~= addr_map(fetched).dom());
}

/// The registry of windows and the window manager.
pub struct Session<M> {
    registry: WindowRegistry,
    manager: M,
}

impl<M> Session<M> {
    /// The registry of windows.
    pub closed spec fn current(self) -> WindowRegistry {
        self.registry
    }

    /// The window manager.
    pub closed spec fn window_manager(self) -> M {
        self.manager
    }

    /// A session with no windows yet.
    pub fn new(config: General, manager: M) -> (r: Self)
        ensures
            r.current().windows() == Seq::<Window>::empty(),
            r.current().settings() == config,
            r.window_manager() == manager,
    {
        Session { registry: WindowRegistry::new(config), manager }
    }

    /// The registry of windows.
    pub fn registry(&self) -> (r: &WindowRegistry)
        ensures
            *r == self.current(),
    {
        &self.registry
    }

    /// The window manager.
    pub fn manager(&self) -> (r: &M)
        ensures
            *r == self.window_manager(),
    {
        &self.manager
    }

    /// Records the fetched windows, classifies them and gives them the
    /// command lines that reopen them; answers the commands to run on saving.
    /// Refused, with the fetched windows recorded, where classifying a window
    /// meets a pattern that does not compile or a command line that cannot be
    /// read: the answer is what stops the first such window.
    pub fn save(&mut self, fetched: Vec<Window>, procs: &ProcTable) -> (r: Result<Vec<String>, SaveError>)
        ensures
            final(self).current().settings() == old(self).current().settings(),
            final(self).current().well_formed(),
            final(self).window_manager() == old(self).window_manager(),
            match r {
                Err(e) => {
                    &&& final(self).current().contents() == addr_map(fetched@)
                    &&& first_classify_error(
                        old(self).current().settings(),
                        *procs,
                        final(self).current().windows(),
                    ) == Some(e)
                },
                Ok(cmds) => {
                    &&& exists|s: Seq<Window>, t: Seq<Window>|
                        saved_windows(
                            old(self).current().settings(),
                            *procs,
                            fetched@,
                            s,
                            t,
                            final(self).current().windows(),
                        )
                    &&& cmds@.map_values(|c: String| c@) == save_commands(
                        final(self).current().windows(),
                    )
                },
            },
    {
        self.registry.update(fetched);
        match self.registry.classification_error(procs) {
            Some(e) => {
                return Err(e);
            },
            None => {},
        }
        let ghost s = self.registry.windows();
        proof {
            lemma_first_classify_error(self.registry.settings(), *procs, s);
        }
        self.registry.set_program_type(procs);
        let ghost t = self.registry.windows();
        self.registry.set_cmdline();
        assert(saved_windows(
            old(self).current().settings(),
            *procs,
            fetched@,
            s,
            t,
            self.registry.windows(),
        ));
        Ok(self.registry.on_save())
    }

    /// Records the fetched windows and answers the saved windows that are not
    /// open: those to open.
    pub fn load(&mut self, saved: &WindowRegistry, fetched: Vec<Window>) -> (r: WindowRegistry)
        ensures
            final(self).current().settings() == old(self).current().settings(),
            final(self).current().well_formed(),
            final(self).current().contents() == addr_map(fetched@),
            final(self).window_manager() == old(self).window_manager(),
            r.well_formed(),
            r.settings()@ == saved.settings()@,
            r.windows() == saved.windows().filter(not_held(addr_map(fetched@))),
    {
        self.registry.update(fetched);
        saved.difference(&self.registry)
    }

    /// Records the fetched windows: those that replacing a session closes.
    pub fn replace(&mut self, fetched: Vec<Window>)
        ensures
            final(self).current().settings() == old(self).current().settings(),
            final(self).current().well_formed(),
            final(self).current().contents() == addr_map(fetched@),
            final(self).window_manager() == old(self).window_manager(),
    {
        self.registry.update(fetched);
    }
}

} // verus!
