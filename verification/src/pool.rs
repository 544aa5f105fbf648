//! The bounded worker window of the download pipeline. Both tiers — package
//! processing and artifact download — start tasks through one of these
//! windows: a task may be started only while the window is below its
//! width, and the driver must observe a completion before starting more.
//! The well-formedness invariant bounds the number of unresolved tasks by
//! the width in every reachable state.

use vstd::prelude::*;

verus! {

/// One bounded window of in-flight tasks.
pub struct WorkerWindow {
    /// The configured worker-pool width; at least one.
    pub width: usize,
    /// Tasks started and not yet observed complete.
    pub in_flight: usize,
    /// Tasks whose completion has been observed.
    pub completed: usize,
}

impl WorkerWindow {
    /// The invariant of every reachable window state: the number of
    /// unresolved tasks never exceeds the width.
    pub open spec fn wf(self) -> bool {
        &&& self.width >= 1
        &&& self.in_flight <= self.width
    }

    /// A fresh window: nothing in flight.
    pub fn new(width: usize) -> (r: WorkerWindow)
        requires
            width >= 1,
        ensures
            r.wf(),
            r.width == width,
            r.in_flight == 0,
            r.completed == 0,
    {
        WorkerWindow { width, in_flight: 0, completed: 0 }
    }

    /// Whether the driver must observe a completion before starting the
    /// next task.
    pub fn must_wait(&self) -> (r: bool)
        ensures
            r == (self.in_flight >= self.width),
    {
        self.in_flight >= self.width
    }

    /// Starts one task. Only callable below the width, so the bound is
    /// preserved.
    pub fn launch(&mut self)
        requires
            old(self).wf(),
            old(self).in_flight < old(self).width,
        ensures
            final(self).wf(),
            final(self).width == old(self).width,
            final(self).in_flight == old(self).in_flight + 1,
            final(self).completed == old(self).completed,
    {
        self.in_flight = self.in_flight + 1;
    }

    /// Records one observed completion.
    pub fn complete(&mut self)
        requires
            old(self).wf(),
            old(self).in_flight >= 1,
            old(self).completed < usize::MAX,
        ensures
            final(self).wf(),
            final(self).width == old(self).width,
            final(self).in_flight == old(self).in_flight - 1,
            final(self).completed == old(self).completed + 1,
    {
        self.in_flight = self.in_flight - 1;
        self.completed = self.completed + 1;
    }
}

/// One step of a window's life: a task is started or a completion is
/// observed.
pub enum WindowStep {
    Launch,
    Complete,
}

/// The driver's transition relation: a task may be started only below
/// the width, a completion only while something is in flight.
pub open spec fn window_step(pre: WorkerWindow, step: WindowStep, post: WorkerWindow) -> bool {
    match step {
        WindowStep::Launch => {
            &&& pre.in_flight < pre.width
            &&& post == (WorkerWindow {
                in_flight: (pre.in_flight + 1) as usize,
                ..pre
            })
        }
        WindowStep::Complete => {
            &&& pre.in_flight >= 1
            &&& pre.completed < usize::MAX
            &&& post == (WorkerWindow {
                in_flight: (pre.in_flight - 1) as usize,
                completed: (pre.completed + 1) as usize,
                ..pre
            })
        }
    }
}

/// Law: along every sequence of starts and completions that the driver
/// may take from a fresh window, the number of unresolved tasks never
/// exceeds the configured width.
pub proof fn lemma_window_bounded(pre: WorkerWindow, step: WindowStep, post: WorkerWindow)
    requires
        pre.wf(),
        window_step(pre, step, post),
    ensures
        post.wf(),
        post.in_flight <= post.width,
{
}

} // verus!
