use lunabot_core::autonomy::{autonomy, dig, dump, traverse, Autonomy, AutonomyBlackboard, AutonomyStage};
use lunabot_core::behavior::Behavior;

#[test]
fn advance_cycles_full_autonomy() {
    let mut a = Autonomy::FullAutonomy(AutonomyStage::TraverseObstacles);
    a.advance();
    assert_eq!(a, Autonomy::FullAutonomy(AutonomyStage::Dig));
    a.advance();
    assert_eq!(a, Autonomy::FullAutonomy(AutonomyStage::Dump));
    a.advance();
    assert_eq!(a, Autonomy::FullAutonomy(AutonomyStage::Dig));
}

#[test]
fn advance_ends_partial_autonomy() {
    let mut a = Autonomy::PartialAutonomy(AutonomyStage::Dump);
    a.advance();
    assert_eq!(a, Autonomy::Disabled);
    a.advance();
    assert_eq!(a, Autonomy::Disabled);
}

#[test]
fn dig_runs_only_while_digging() {
    let mut bb = AutonomyBlackboard { autonomy: Autonomy::FullAutonomy(AutonomyStage::Dig) };
    assert_eq!(dig().run(&mut bb), Ok(()));
    assert_eq!(bb.autonomy, Autonomy::FullAutonomy(AutonomyStage::Dump));
    assert_eq!(dig().run(&mut bb), Err(()));
    assert_eq!(bb.autonomy, Autonomy::FullAutonomy(AutonomyStage::Dump));
    assert_eq!(dump().run(&mut bb), Ok(()));
    assert_eq!(bb.autonomy, Autonomy::FullAutonomy(AutonomyStage::Dig));
}

#[test]
fn traverse_leads_to_dig() {
    let mut bb =
        AutonomyBlackboard { autonomy: Autonomy::FullAutonomy(AutonomyStage::TraverseObstacles) };
    assert_eq!(traverse().run(&mut bb), Ok(()));
    assert_eq!(bb.autonomy, Autonomy::FullAutonomy(AutonomyStage::Dig));
}

#[test]
fn mission_under_partial_autonomy_runs_one_stage() {
    let mut bb = AutonomyBlackboard { autonomy: Autonomy::PartialAutonomy(AutonomyStage::Dig) };
    assert_eq!(autonomy().run(&mut bb), Err(()));
    assert_eq!(bb.autonomy, Autonomy::Disabled);
}
