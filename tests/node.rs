use lunabot_core::localizer::{
    calibration_elapsed, initial_stage, step, FrameKind, LocalizerStage, LoopAction, LoopEvent,
};
use lunabot_core::node::{FnNode, Node, RunOptions};

#[test]
fn fn_node_has_default_name() {
    let node = FnNode::new(|| 7u32);
    assert_eq!(node.get_name(), "fn_node");
}

#[test]
fn fn_node_can_be_renamed() {
    let mut node = FnNode::new(|| 7u32);
    node.set_name("camera".to_string());
    assert_eq!(node.get_name(), "camera");
    assert_eq!((node.into_work())(), 7);
}

#[test]
fn run_options_default_is_unnamed() {
    let o = RunOptions::default();
    assert_eq!(o.runtime_name, "");
}

#[test]
fn localizer_calibrates_then_runs() {
    let s = initial_stage();
    assert_eq!(s, LocalizerStage::Calibrating);
    assert_eq!(step(s, LoopEvent::Frame(FrameKind::Imu)), (s, LoopAction::Accumulate));
    assert_eq!(step(s, LoopEvent::Frame(FrameKind::Position)), (s, LoopAction::Ignore));
    assert_eq!(step(s, LoopEvent::RecalibrationRequested), (s, LoopAction::Ignore));
    assert_eq!(
        step(s, LoopEvent::CalibrationElapsed),
        (LocalizerStage::Running, LoopAction::FinishCalibration)
    );
}

#[test]
fn localizer_running_steps() {
    let r = LocalizerStage::Running;
    assert_eq!(
        step(r, LoopEvent::Frame(FrameKind::Velocity)),
        (r, LoopAction::ObserveAndPredict(FrameKind::Velocity))
    );
    assert_eq!(step(r, LoopEvent::Timeout), (r, LoopAction::Predict));
    assert_eq!(step(r, LoopEvent::CalibrationElapsed), (r, LoopAction::Ignore));
    assert_eq!(
        step(r, LoopEvent::RecalibrationRequested),
        (LocalizerStage::Calibrating, LoopAction::Recalibrate)
    );
    assert_eq!(step(r, LoopEvent::InputsClosed), (r, LoopAction::Exit));
    assert_eq!(
        step(LocalizerStage::Calibrating, LoopEvent::InputsClosed),
        (LocalizerStage::Calibrating, LoopAction::Exit)
    );
}

#[test]
fn calibration_interval() {
    assert!(!calibration_elapsed(2999, 3000));
    assert!(calibration_elapsed(3000, 3000));
    assert!(calibration_elapsed(3001, 3000));
}
