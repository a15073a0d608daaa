//! The terms of a capture: its limits, its mode, and what it reports at the end.
use vstd::prelude::*;

verus! {

/// Stop conditions for a capture.
#[derive(Clone, Copy, Debug, PartialEq, Eq, Structural)]
pub struct CaptureLimits {
    /// Stop once the recorded events reach this many bytes (by default 512 MiB).
    pub max_bytes: usize,
    /// Optional limit on the wall-clock duration, in nanoseconds.
    pub duration: Option<u128>,
}

impl Default for CaptureLimits {
    fn default() -> (r: Self)
        ensures
            r.max_bytes == 512 * 1024 * 1024,
            r.duration is None,
    {
        CaptureLimits { max_bytes: 512 * 1024 * 1024, duration: None }
    }
}

/// Why a capture stopped.
#[derive(Clone, Copy, Debug, PartialEq, Eq, Structural)]
pub enum StoppedReason {
    Manual,
    Duration,
    SizeLimit,
    Disconnected,
}

/// The result of a finished capture.
#[derive(Clone, Debug, PartialEq, Eq)]
pub struct CaptureOutcome {
    pub pml_path: String,
    pub events_written: usize,
    pub stopped_reason: StoppedReason,
}

/// Where the accepted events of a capture go.
#[derive(Clone, Copy, Debug, PartialEq, Eq, Structural)]
pub enum CaptureMode {
    /// To a `.PML` file.
    Recorded,
    /// To a `.PML` file and, as they come, to a receiver.
    Streaming,
    /// To a receiver only: there is no writer and no file.
    Transient,
}

impl CaptureMode {
    /// Whether this mode writes a `.PML` file.
    pub open spec fn spec_persists(self) -> bool {
        self is Recorded || self is Streaming
    }

    /// Whether this mode hands events to a receiver.
    pub open spec fn spec_publishes(self) -> bool {
        self is Streaming || self is Transient
    }

    /// The path of a session in this mode: the one that was asked for where there is
    /// a file, else the empty one.
    pub open spec fn spec_session_path<P>(self, out_path: P, empty: P) -> P {
        if self.spec_persists() {
            out_path
        } else {
            empty
        }
    }

    /// Picks the path of a session: `out_path` where this mode writes a `.PML` file,
    /// and `empty`, the empty path, where it does not. The paths are carried along as
    /// they are.
    pub fn session_path<P>(&self, out_path: P, empty: P) -> (r: P)
        ensures
            r == self.spec_session_path(out_path, empty),
            self is Transient ==> r == empty,
    {
        if self.persists() {
            out_path
        } else {
            empty
        }
    }

    /// Whether this mode writes a `.PML` file.
    pub fn persists(&self) -> (r: bool)
        ensures
            r == self.spec_persists(),
    {
        match self {
            CaptureMode::Recorded | CaptureMode::Streaming => true,
            CaptureMode::Transient => false,
        }
    }

    /// Whether this mode hands events to a receiver.
    pub fn publishes(&self) -> (r: bool)
        ensures
            r == self.spec_publishes(),
    {
        match self {
            CaptureMode::Streaming | CaptureMode::Transient => true,
            CaptureMode::Recorded => false,
        }
    }
}

/// A transient session has the empty path, whatever was asked for, and every other
/// session has the path that was asked for. Picking again from what was picked
/// changes nothing.
pub proof fn transient_sessions_have_no_path<P>(mode: CaptureMode, out_path: P, empty: P)
    ensures
        mode is Transient ==> mode.spec_session_path(out_path, empty) == empty,
        !(mode is Transient) ==> mode.spec_session_path(out_path, empty) == out_path,
        mode.spec_session_path(mode.spec_session_path(out_path, empty), empty)
            == mode.spec_session_path(out_path, empty),
{
}

/// A capture has a file unless it is transient, and a receiver unless it is only
/// recorded.
pub proof fn modes_written_out(mode: CaptureMode)
    ensures
        mode.spec_persists() <==> mode == CaptureMode::Recorded || mode == CaptureMode::Streaming,
        mode.spec_publishes() <==> mode == CaptureMode::Streaming || mode
            == CaptureMode::Transient,
{
}

/// No capture is for nothing: every mode writes its events or hands them on.
pub proof fn every_mode_delivers(mode: CaptureMode)
    ensures
        mode.spec_persists() || mode.spec_publishes(),
{
}

} // verus!
