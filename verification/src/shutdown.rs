//! The two-stage shutdown protocol: every subsystem loop treats the first
//! observation of the stop broadcast as "prepare to stop" and the second as
//! the actual stop instruction, so that a subsystem split into two
//! cooperating tasks can let each task consume one observation.

use vstd::prelude::*;

verus! {

/// One subsystem's view of the stop broadcast: how many observations it has
/// consumed.
pub struct StopWatcher {
    observations: u64,
}

impl StopWatcher {
    /// How many stop observations this subsystem has consumed.
    pub closed spec fn count(&self) -> u64 {
        self.observations
    }

    /// A subsystem keeps running until its second observation.
    pub open spec fn running(&self) -> bool {
        self.count() < 2
    }

    pub fn new() -> (r: StopWatcher)
        ensures
            r.count() == 0,
    {
        StopWatcher { observations: 0 }
    }

    /// Consume one observation of the stop broadcast.
    pub fn observe(&mut self)
        requires
            old(self).count() < u64::MAX,
        ensures
            final(self).count() == old(self).count() + 1,
    {
        self.observations = self.observations + 1;
    }

    /// Whether the subsystem's loop should keep going.
    pub fn is_running(&self) -> (r: bool)
        ensures
            r == self.running(),
    {
        self.observations < 2
    }
}

/// The three independently scheduled subsystem loops under one stop
/// broadcast.
pub struct ShutdownCoordinator {
    pub core: StopWatcher,
    pub hub: StopWatcher,
    pub web: StopWatcher,
}

impl ShutdownCoordinator {
    /// Every subsystem is still running.
    pub open spec fn all_running(&self) -> bool {
        self.core.running() && self.hub.running() && self.web.running()
    }

    /// Every subsystem has stopped.
    pub open spec fn all_stopped(&self) -> bool {
        !self.core.running() && !self.hub.running() && !self.web.running()
    }

    pub fn new() -> (r: ShutdownCoordinator)
        ensures
            r.core.count() == 0,
            r.hub.count() == 0,
            r.web.count() == 0,
            r.all_running(),
    {
        ShutdownCoordinator { core: StopWatcher::new(), hub: StopWatcher::new(), web: StopWatcher::new() }
    }

    /// One broadcast of the stop signal: every subsystem consumes exactly
    /// one observation.
    pub fn broadcast(&mut self)
        requires
            old(self).core.count() < u64::MAX,
            old(self).hub.count() < u64::MAX,
            old(self).web.count() < u64::MAX,
        ensures
            final(self).core.count() == old(self).core.count() + 1,
            final(self).hub.count() == old(self).hub.count() + 1,
            final(self).web.count() == old(self).web.count() + 1,
    {
        self.core.observe();
        self.hub.observe();
        self.web.observe();
    }
}

/// Broadcasting the stop signal once leaves all three subsystems running;
/// broadcasting it twice stops all three; each subsystem stops after
/// processing exactly its second observation, and a third changes nothing it
/// still needs.
pub proof fn lemma_two_stage_shutdown(w: StopWatcher)
    ensures
        w.count() == 0 ==> w.running(),
        w.count() == 1 ==> w.running(),
        w.count() == 2 ==> !w.running(),
        w.count() >= 2 ==> !w.running(),
{
}

} // verus!
