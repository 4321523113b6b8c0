use vstd::prelude::*;

verus! {

/// Proof that the engine was started: handed out once, by `on_start`, to
/// the code that runs the engine.
#[derive(Debug, Clone, Copy)]
pub struct EngineKey(());

/// The engine's own state: whether it was started, and whether exiting was
/// asked for.
pub struct EngineState {
    exit: bool,
    started: bool,
}

impl EngineState {
    /// Whether exiting was asked for.
    pub closed spec fn exit_requested(&self) -> bool {
        self.exit
    }

    /// Whether the engine was started.
    pub closed spec fn is_started(&self) -> bool {
        self.started
    }

    /// An engine not started, with no exit asked for.
    pub fn new() -> (e: Self)
        ensures
            !e.exit_requested(),
            !e.is_started(),
    {
        EngineState { started: false, exit: false }
    }

    /// Asks the engine to exit.
    pub fn exit(&mut self)
        ensures
            final(self).exit_requested(),
            final(self).is_started() == old(self).is_started(),
    {
        self.exit = true;
    }

    /// Whether exiting was asked for.
    pub fn should_exit(&self) -> (b: bool)
        ensures
            b == self.exit_requested(),
    {
        self.exit
    }

    /// Whether the engine was started.
    pub fn started(&self) -> (b: bool)
        ensures
            b == self.is_started(),
    {
        self.started
    }

    /// Starts the engine, which must not have been started, and hands out
    /// its key.
    pub fn on_start(&mut self) -> (key: EngineKey)
        requires
            !old(self).is_started(),
        ensures
            final(self).is_started(),
            final(self).exit_requested() == old(self).exit_requested(),
    {
        self.started = true;
        EngineKey(())
    }
}

} // verus!
