//! The run loop's decisions. The caller performs each action it is given and
//! reports what came of it; the loop answers with the next action.
//!
//! In one-shot mode the command set is started once and the loop waits for
//! the interrupt. In watch mode it scans, restarts the set when the scan saw
//! a change, sleeps a short while and scans again. An interrupt, at any point
//! before termination, terminates the set and ends the run with status 0; a
//! failed scan does the same with status 1.
use vstd::prelude::*;

verus! {

/// Milliseconds between two scans.
pub const POLL_MS: u64 = 100;

/// Exit status after an interrupt.
pub const EXIT_OK: i32 = 0;

/// Exit status after a failed scan.
pub const EXIT_SCAN_FAILED: i32 = 1;

#[derive(Clone, Copy, PartialEq, Eq, Debug, Structural)]
pub enum Mode {
    /// Start the set once, then wait for the interrupt.
    Once,
    /// Restart the set whenever the tree changes.
    Watch,
}

/// What the caller is to do next.
#[derive(Clone, Copy, PartialEq, Eq, Debug, Structural)]
pub enum Action {
    /// Replace the running set by the configured commands.
    Replace,
    /// Scan the tree once.
    Scan,
    /// Sleep this many milliseconds.
    Sleep(u64),
    /// Wait for the interrupt.
    AwaitSignal,
    /// Terminate every running command.
    Terminate,
    /// End the process with this status.
    Exit(i32),
}

/// What came of the last action, or what happened meanwhile.
#[derive(Clone, Copy, PartialEq, Eq, Debug, Structural)]
pub enum Event {
    /// The set was replaced.
    Replaced,
    /// A scan ended; whether it saw a change.
    Scanned(bool),
    /// A scan could not read a directory.
    ScanFailed,
    /// The sleep is over.
    Slept,
    /// The interrupt arrived.
    Interrupted,
    /// Every command was terminated.
    Terminated,
}

/// Where the loop stands: the action under way.
#[derive(Clone, Copy, PartialEq, Eq, Debug, Structural)]
pub enum Phase {
    Replacing,
    Scanning,
    Sleeping,
    Waiting,
    /// Terminating, to exit with this status afterwards.
    Terminating(i32),
    /// Finished with this status.
    Done(i32),
}

/// The action that goes with `phase`.
pub open spec fn action_of(phase: Phase) -> Action {
    match phase {
        Phase::Replacing => Action::Replace,
        Phase::Scanning => Action::Scan,
        Phase::Sleeping => Action::Sleep(POLL_MS),
        Phase::Waiting => Action::AwaitSignal,
        Phase::Terminating(code) => Action::Terminate,
        Phase::Done(code) => Action::Exit(code),
    }
}

/// The first phase of a run in `mode`.
pub open spec fn first_phase(mode: Mode) -> Phase {
    match mode {
        Mode::Once => Phase::Replacing,
        Mode::Watch => Phase::Scanning,
    }
}

/// The phase after `event` in `phase`. An event that does not belong to the
/// phase leaves it as it is, and its action is asked for again.
pub open spec fn next_phase(mode: Mode, phase: Phase, event: Event) -> Phase {
    match (phase, event) {
        (Phase::Terminating(code), Event::Terminated) => Phase::Done(code),
        (Phase::Terminating(code), _) => phase,
        (Phase::Done(code), _) => phase,
        (_, Event::Interrupted) => Phase::Terminating(EXIT_OK),
        (Phase::Replacing, Event::Replaced) => match mode {
            Mode::Once => Phase::Waiting,
            Mode::Watch => Phase::Sleeping,
        },
        (Phase::Scanning, Event::Scanned(changed)) => if changed {
            Phase::Replacing
        } else {
            Phase::Sleeping
        },
        (Phase::Scanning, Event::ScanFailed) => Phase::Terminating(EXIT_SCAN_FAILED),
        (Phase::Sleeping, Event::Slept) => Phase::Scanning,
        _ => phase,
    }
}

/// The state of one run.
pub struct RunLoop {
    mode: Mode,
    phase: Phase,
}

impl RunLoop {
    pub closed spec fn mode_spec(&self) -> Mode {
        self.mode
    }

    pub closed spec fn phase_spec(&self) -> Phase {
        self.phase
    }

    /// A run in `mode`, with its first action.
    pub fn start(mode: Mode) -> (r: (RunLoop, Action))
        ensures
            r.0.mode_spec() == mode,
            r.0.phase_spec() == first_phase(mode),
            r.1 == action_of(first_phase(mode)),
    {
        let phase = match mode {
            Mode::Once => Phase::Replacing,
            Mode::Watch => Phase::Scanning,
        };
        (RunLoop { mode, phase }, action_of_phase(phase))
    }

    /// Takes `event` in and says what to do next.
    pub fn step(&mut self, event: Event) -> (r: Action)
        ensures
            final(self).mode_spec() == old(self).mode_spec(),
            final(self).phase_spec() == next_phase(old(self).mode_spec(), old(self).phase_spec(), event),
            r == action_of(final(self).phase_spec()),
    {
        let phase = match (self.phase, event) {
            (Phase::Terminating(code), Event::Terminated) => Phase::Done(code),
            (Phase::Terminating(_), _) => self.phase,
            (Phase::Done(_), _) => self.phase,
            (_, Event::Interrupted) => Phase::Terminating(EXIT_OK),
            (Phase::Replacing, Event::Replaced) => match self.mode {
                Mode::Once => Phase::Waiting,
                Mode::Watch => Phase::Sleeping,
            },
            (Phase::Scanning, Event::Scanned(changed)) => if changed {
                Phase::Replacing
            } else {
                Phase::Sleeping
            },
            (Phase::Scanning, Event::ScanFailed) => Phase::Terminating(EXIT_SCAN_FAILED),
            (Phase::Sleeping, Event::Slept) => Phase::Scanning,
            _ => self.phase,
        };
        self.phase = phase;
        action_of_phase(phase)
    }

    /// Whether the run is over.
    pub fn is_done(&self) -> (r: bool)
        ensures
            r == (self.phase_spec() is Done),
    {
        match self.phase {
            Phase::Done(_) => true,
            _ => false,
        }
    }
}

/// The action that goes with `phase`.
pub fn action_of_phase(phase: Phase) -> (r: Action)
    ensures
        r == action_of(phase),
{
    match phase {
        Phase::Replacing => Action::Replace,
        Phase::Scanning => Action::Scan,
        Phase::Sleeping => Action::Sleep(POLL_MS),
        Phase::Waiting => Action::AwaitSignal,
        Phase::Terminating(_) => Action::Terminate,
        Phase::Done(code) => Action::Exit(code),
    }
}

/// An interrupt before termination always leads, once the set is
/// terminated, to an exit with status 0.
pub proof fn lemma_interrupt_exits(mode: Mode, phase: Phase)
    requires
        !(phase is Terminating),
        !(phase is Done),
    ensures
        next_phase(mode, phase, Event::Interrupted) == Phase::Terminating(EXIT_OK),
        action_of(next_phase(mode, phase, Event::Interrupted)) == Action::Terminate,
        next_phase(mode, next_phase(mode, phase, Event::Interrupted), Event::Terminated)
            == Phase::Done(EXIT_OK),
{
}

} // verus!
