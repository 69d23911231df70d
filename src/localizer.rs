//! The localizer's control loop: it calibrates its inertial sensors, then runs
//! the filter on each sensor frame until it is asked to calibrate again.
//!
//! The loop itself waits on the sensors; each time one of them reports (or the
//! wait times out) it asks [`step`] what to do next.
use vstd::prelude::*;

verus! {

/// A stage of the localizer.
#[derive(Clone, Copy, PartialEq, Eq, Debug, Structural)]
pub enum LocalizerStage {
    /// Observing the inertial sensors at rest to correct their bias and scale.
    Calibrating,
    /// Updating the particle cloud from sensor frames.
    Running,
}

/// The kind of a sensor frame.
#[derive(Clone, Copy, PartialEq, Eq, Debug, Structural)]
pub enum FrameKind {
    Imu,
    Position,
    Velocity,
    Orientation,
}

/// What woke the loop.
#[derive(Clone, Copy, PartialEq, Eq, Debug, Structural)]
pub enum LoopEvent {
    /// A sensor frame arrived.
    Frame(FrameKind),
    /// No frame arrived within the longest allowed step.
    Timeout,
    /// The calibration interval has elapsed.
    CalibrationElapsed,
    /// A recalibration was requested.
    RecalibrationRequested,
    /// Every input has been closed.
    InputsClosed,
}

/// What the loop does in answer to an event.
#[derive(Clone, Copy, PartialEq, Eq, Debug, Structural)]
pub enum LoopAction {
    /// Add an inertial frame to the calibration sums.
    Accumulate,
    /// Finish the calibration and start running the filter.
    FinishCalibration,
    /// Weigh the particles against the frame, then predict and publish.
    ObserveAndPredict(FrameKind),
    /// Predict and publish without an observation.
    Predict,
    /// Leave the running stage and start a new calibration.
    Recalibrate,
    /// Do nothing and wait for the next event.
    Ignore,
    /// Stop the loop.
    Exit,
}

/// The stage and action that follow event `e` in stage `s`.
///
/// While calibrating, inertial frames are accumulated and other frames are
/// dropped until the interval elapses. While running, each frame is observed
/// and followed by a prediction, a timeout gives a prediction alone, and a
/// recalibration request goes back to calibrating. Closing every input stops
/// the loop in either stage.
pub open spec fn step_spec(s: LocalizerStage, e: LoopEvent) -> (LocalizerStage, LoopAction) {
    match s {
        LocalizerStage::Calibrating => match e {
            LoopEvent::Frame(FrameKind::Imu) => (s, LoopAction::Accumulate),
            LoopEvent::CalibrationElapsed => (LocalizerStage::Running, LoopAction::FinishCalibration),
            LoopEvent::InputsClosed => (s, LoopAction::Exit),
            _ => (s, LoopAction::Ignore),
        },
        LocalizerStage::Running => match e {
            LoopEvent::Frame(k) => (s, LoopAction::ObserveAndPredict(k)),
            LoopEvent::Timeout => (s, LoopAction::Predict),
            LoopEvent::RecalibrationRequested => (LocalizerStage::Calibrating, LoopAction::Recalibrate),
            LoopEvent::InputsClosed => (s, LoopAction::Exit),
            LoopEvent::CalibrationElapsed => (s, LoopAction::Ignore),
        },
    }
}

/// The localizer starts by calibrating.
pub fn initial_stage() -> (r: LocalizerStage)
    ensures
        r == LocalizerStage::Calibrating,
{
    LocalizerStage::Calibrating
}

/// The stage and action that follow event `e` in stage `s`.
pub fn step(s: LocalizerStage, e: LoopEvent) -> (r: (LocalizerStage, LoopAction))
    ensures
        r == step_spec(s, e),
{
    match s {
        LocalizerStage::Calibrating => match e {
            LoopEvent::Frame(FrameKind::Imu) => (s, LoopAction::Accumulate),
            LoopEvent::CalibrationElapsed => (LocalizerStage::Running, LoopAction::FinishCalibration),
            LoopEvent::InputsClosed => (s, LoopAction::Exit),
            _ => (s, LoopAction::Ignore),
        },
        LocalizerStage::Running => match e {
            LoopEvent::Frame(k) => (s, LoopAction::ObserveAndPredict(k)),
            LoopEvent::Timeout => (s, LoopAction::Predict),
            LoopEvent::RecalibrationRequested => (LocalizerStage::Calibrating, LoopAction::Recalibrate),
            LoopEvent::InputsClosed => (s, LoopAction::Exit),
            LoopEvent::CalibrationElapsed => (s, LoopAction::Ignore),
        },
    }
}

/// Whether a calibration that has run for `elapsed_ms` milliseconds, out of an
/// interval of `duration_ms`, is over.
pub fn calibration_elapsed(elapsed_ms: u64, duration_ms: u64) -> (r: bool)
    ensures
        r == (elapsed_ms >= duration_ms),
{
    elapsed_ms >= duration_ms
}

/// The stage changes exactly when the calibration interval elapses during a
/// calibration, or when a recalibration is requested while running.
pub proof fn lemma_stage_changes(s: LocalizerStage, e: LoopEvent)
    ensures
        step_spec(s, e).0 != s <==> (s == LocalizerStage::Calibrating && e
            == LoopEvent::CalibrationElapsed) || (s == LocalizerStage::Running && e
            == LoopEvent::RecalibrationRequested),
{
}

} // verus!
