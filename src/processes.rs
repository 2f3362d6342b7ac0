use vstd::prelude::*;
use crate::helpers::FileError;
use crate::models::{fits_as_bytes, Settings};

verus! {

/// How many actions may wait for the dispatcher before the watch loop has
/// to wait for it.
pub const ACTION_QUEUE_CAPACITY: usize = 3;

/// Work handed from the watch loop to the dispatcher.
#[derive(Debug, Clone, Copy, PartialEq, Eq, Structural)]
pub enum Actions {
    /// The log file reached the size threshold.
    Rotate,
    /// The sleep interval ran out first.
    RotatedFromSleep,
}

/// What the watch loop observed in one wait.
#[derive(Debug, Clone, Copy)]
pub enum WatchEvent {
    /// The log file changed; its length, or `None` where it could not be
    /// read (it may be between a rename and its re-creation).
    LogModified { size: Option<u64> },
    /// The settings file changed; the settings read from it, or why they
    /// could not be read.
    SettingsModified { settings: Result<Settings, FileError> },
    /// The sleep interval ran out before any event that leads to a rotation.
    TimerElapsed,
    /// A change to a file that is not watched.
    Unrelated,
}

/// What the watch loop does after an event.
#[derive(Debug, Clone, Copy, PartialEq, Eq, Structural)]
pub enum WatchStep {
    /// Wait again, nothing to do.
    Wait,
    /// New settings are in effect from the next wait on.
    Reloaded,
    /// The settings file could not be read; the previous settings stay.
    ReloadFailed(FileError),
    /// Queue the action; the rotation replaces the log file, so its watch
    /// is to be set up again on the new file.
    Dispatch(Actions),
}

impl WatchStep {
    /// A new timer is armed, with the sleep interval then in effect, only
    /// once an action has been queued; after any other step the timer that
    /// is running keeps running, so writes below the threshold, unrelated
    /// events and reloads neither shorten nor extend it.
    pub open spec fn rearms(self) -> bool {
        self is Dispatch
    }

    /// Whether the watch loop arms a new timer after this step.
    pub fn rearms_timer(&self) -> (r: bool)
        ensures
            r == self.rearms(),
    {
        match self {
            WatchStep::Dispatch(_) => true,
            _ => false,
        }
    }
}

/// The values that the watch loop decides by: the seconds of the timer
/// that forces a rotation, and the size in bytes that triggers one.
#[derive(Debug, Clone, Copy, PartialEq, Eq, Structural)]
pub struct WatchState {
    pub sleep_seconds: u64,
    pub threshold: u64,
}

impl WatchState {
    /// The state that `settings` give.
    pub open spec fn of_settings(settings: Settings) -> WatchState {
        WatchState {
            sleep_seconds: settings.sleep_counter,
            threshold: settings.file_size.byte_count() as u64,
        }
    }

    /// The state after `event`.
    pub open spec fn next(self, event: WatchEvent) -> WatchState {
        match event {
            WatchEvent::SettingsModified { settings: Ok(s) } => {
                if s.wf() {
                    WatchState::of_settings(s)
                } else {
                    self
                }
            },
            _ => self,
        }
    }

    /// The step after `event`: a log file at or above the threshold is
    /// rotated; so is the log file when the timer runs out; valid settings
    /// replace the old ones wholesale; a failed reload keeps them.
    pub open spec fn step(self, event: WatchEvent) -> WatchStep {
        match event {
            WatchEvent::LogModified { size: Some(n) } => {
                if n >= self.threshold {
                    WatchStep::Dispatch(Actions::Rotate)
                } else {
                    WatchStep::Wait
                }
            },
            WatchEvent::LogModified { size: None } => WatchStep::Wait,
            WatchEvent::SettingsModified { settings: Ok(s) } => {
                if s.wf() {
                    WatchStep::Reloaded
                } else {
                    WatchStep::ReloadFailed(FileError::FileSizeInvalid)
                }
            },
            WatchEvent::SettingsModified { settings: Err(e) } => WatchStep::ReloadFailed(e),
            WatchEvent::TimerElapsed => WatchStep::Dispatch(Actions::RotatedFromSleep),
            WatchEvent::Unrelated => WatchStep::Wait,
        }
    }

    /// The state at startup.
    pub fn new(settings: &Settings) -> (r: WatchState)
        requires
            settings.wf(),
        ensures
            r == WatchState::of_settings(*settings),
    {
        WatchState { sleep_seconds: settings.sleep_counter, threshold: settings.threshold() }
    }

    /// Takes in one event: updates the state and says what to do. Only a
    /// rotation, for the size or for the timer, arms a new timer.
    pub fn on_event(&mut self, event: WatchEvent) -> (r: WatchStep)
        ensures
            *final(self) == old(self).next(event),
            r == old(self).step(event),
            r.rearms() <==> (event is TimerElapsed || (event matches WatchEvent::LogModified {
                size: Some(n),
            } && n >= old(self).threshold)),
    {
        match event {
            WatchEvent::LogModified { size: Some(n) } => {
                if n >= self.threshold {
                    WatchStep::Dispatch(Actions::Rotate)
                } else {
                    WatchStep::Wait
                }
            },
            WatchEvent::LogModified { size: None } => WatchStep::Wait,
            WatchEvent::SettingsModified { settings: Ok(s) } => {
                if fits_as_bytes(s.file_size) {
                    *self = WatchState::new(&s);
                    WatchStep::Reloaded
                } else {
                    WatchStep::ReloadFailed(FileError::FileSizeInvalid)
                }
            },
            WatchEvent::SettingsModified { settings: Err(e) } => WatchStep::ReloadFailed(e),
            WatchEvent::TimerElapsed => WatchStep::Dispatch(Actions::RotatedFromSleep),
            WatchEvent::Unrelated => WatchStep::Wait,
        }
    }
}

} // verus!
