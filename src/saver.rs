//! The decisions of the background saver: whether a worker is to be started,
//! at what interval, and whether a running one goes on.

use vstd::prelude::*;

use crate::memory::AegMemoryEngine;
use crate::registry::AegCore;

verus! {

/// The saver's flags: whether its worker should keep going, and whether one
/// has been started since the last stop.
pub struct SaverState {
    pub running: bool,
    pub started: bool,
}

impl SaverState {
    /// No worker started.
    pub fn new() -> (r: SaverState)
        ensures
            !r.running,
            !r.started,
    {
        SaverState { running: false, started: false }
    }

    /// Asks for a worker that flushes every `interval_seconds` seconds (at
    /// least one). Returns the interval to start a worker with, or `None`
    /// when one is already started.
    pub fn start(&mut self, interval_seconds: u64) -> (r: Option<u64>)
        ensures
            old(self).started ==> r is None && *final(self) == *old(self),
            !old(self).started ==> r == Some(if interval_seconds == 0 {
                1u64
            } else {
                interval_seconds
            }) && final(self).running && final(self).started,
    {
        if self.started {
            return None;
        }
        self.running = true;
        self.started = true;
        Some(if interval_seconds == 0 { 1 } else { interval_seconds })
    }

    /// Signals the worker to stop after its current sleep, and lets a later
    /// start begin a new one. Does not wait for the final flush.
    pub fn stop(&mut self)
        ensures
            !final(self).running,
            !final(self).started,
    {
        self.running = false;
        self.started = false;
    }

    /// Whether the worker flushes again rather than ending with a last flush.
    pub fn keep_running(&self) -> (r: bool)
        ensures
            r == self.running,
    {
        self.running
    }
}

impl AegMemoryEngine {
    /// See `SaverState::start`.
    pub fn start_background_saver(saver: &mut SaverState, interval_seconds: u64) -> (r: Option<u64>)
        ensures
            old(saver).started ==> r is None && *final(saver) == *old(saver),
            !old(saver).started ==> r == Some(if interval_seconds == 0 {
                1u64
            } else {
                interval_seconds
            }) && final(saver).running && final(saver).started,
    {
        saver.start(interval_seconds)
    }

    /// See `SaverState::stop`.
    pub fn stop_background_saver(saver: &mut SaverState)
        ensures
            !final(saver).running,
            !final(saver).started,
    {
        saver.stop()
    }
}

impl AegCore {
    /// Starts the background saver; see `SaverState::start`.
    pub fn start_background_saver(saver: &mut SaverState, interval_seconds: u64) -> (r: Option<u64>)
        ensures
            old(saver).started ==> r is None && *final(saver) == *old(saver),
            !old(saver).started ==> r == Some(if interval_seconds == 0 {
                1u64
            } else {
                interval_seconds
            }) && final(saver).running && final(saver).started,
    {
        AegMemoryEngine::start_background_saver(saver, interval_seconds)
    }

    /// Signals the background saver to stop; see `SaverState::stop`.
    pub fn stop_background_saver(saver: &mut SaverState)
        ensures
            !final(saver).running,
            !final(saver).started,
    {
        AegMemoryEngine::stop_background_saver(saver)
    }
}

} // verus!
