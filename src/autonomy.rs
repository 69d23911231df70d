//! The rover's mission stages and the behaviors that step through them.
use vstd::prelude::*;

use crate::behavior::{loop_ends_within, Behavior, IfElse, Select, Status, WhileLoop};

verus! {

/// A stage of the mission.
#[derive(Clone, Copy, PartialEq, Eq, Debug, Structural)]
pub enum AutonomyStage {
    TraverseObstacles,
    Dig,
    Dump,
}

/// How much of the mission the rover runs by itself.
///
/// Under full autonomy the rover cycles through the stages; under partial
/// autonomy it runs the one stage it was given and then stops;
/// when disabled it runs none.
#[derive(Clone, Copy, PartialEq, Eq, Debug, Structural)]
pub enum Autonomy {
    FullAutonomy(AutonomyStage),
    PartialAutonomy(AutonomyStage),
    Disabled,
}

/// The mode that follows `a` once its current stage is done.
pub open spec fn next_autonomy(a: Autonomy) -> Autonomy {
    match a {
        Autonomy::FullAutonomy(AutonomyStage::TraverseObstacles) => Autonomy::FullAutonomy(
            AutonomyStage::Dig,
        ),
        Autonomy::FullAutonomy(AutonomyStage::Dig) => Autonomy::FullAutonomy(AutonomyStage::Dump),
        Autonomy::FullAutonomy(AutonomyStage::Dump) => Autonomy::FullAutonomy(AutonomyStage::Dig),
        Autonomy::PartialAutonomy(_) => Autonomy::Disabled,
        Autonomy::Disabled => Autonomy::Disabled,
    }
}

/// Whether `a` is currently running stage `s`.
pub open spec fn in_stage(a: Autonomy, s: AutonomyStage) -> bool {
    a == Autonomy::FullAutonomy(s) || a == Autonomy::PartialAutonomy(s)
}

impl Autonomy {
    /// Moves on to the mode that follows the current stage.
    pub fn advance(&mut self)
        ensures
            *final(self) == next_autonomy(*old(self)),
    {
        match *self {
            Autonomy::FullAutonomy(autonomy_stage) => match autonomy_stage {
                AutonomyStage::TraverseObstacles => {
                    *self = Autonomy::FullAutonomy(AutonomyStage::Dig)
                },
                AutonomyStage::Dig => *self = Autonomy::FullAutonomy(AutonomyStage::Dump),
                AutonomyStage::Dump => *self = Autonomy::FullAutonomy(AutonomyStage::Dig),
            },
            Autonomy::PartialAutonomy(_) => *self = Autonomy::Disabled,
            Autonomy::Disabled => {},
        }
    }

    /// Whether the current stage is `stage`.
    pub fn is_in_stage(&self, stage: AutonomyStage) -> (r: bool)
        ensures
            r == in_stage(*self, stage),
    {
        *self == Autonomy::FullAutonomy(stage) || *self == Autonomy::PartialAutonomy(stage)
    }
}

/// What the autonomy behaviors read and write.
pub struct AutonomyBlackboard {
    pub autonomy: Autonomy,
}

/// Succeeds exactly when the blackboard's mode is running the given stage.
pub struct StageIs(pub AutonomyStage);

impl Behavior<AutonomyBlackboard> for StageIs {
    open spec fn runs(
        &self,
        bb: AutonomyBlackboard,
        next: Self,
        bb_next: AutonomyBlackboard,
        r: Status,
    ) -> bool {
        &&& next == *self
        &&& bb_next == bb
        &&& r == if in_stage(bb.autonomy, self.0) {
            Ok::<(), ()>(())
        } else {
            Err(())
        }
    }

    open spec fn can_run(&self, bb: AutonomyBlackboard) -> bool {
        true
    }

    fn run(&mut self, bb: &mut AutonomyBlackboard) -> (r: Status) {
        if bb.autonomy.is_in_stage(self.0) {
            Ok(())
        } else {
            Err(())
        }
    }
}

/// Advances the blackboard's mode past its current stage, and succeeds.
pub struct AdvanceStage;

impl Behavior<AutonomyBlackboard> for AdvanceStage {
    open spec fn runs(
        &self,
        bb: AutonomyBlackboard,
        next: Self,
        bb_next: AutonomyBlackboard,
        r: Status,
    ) -> bool {
        &&& next == *self
        &&& bb_next.autonomy == next_autonomy(bb.autonomy)
        &&& r is Ok
    }

    open spec fn can_run(&self, bb: AutonomyBlackboard) -> bool {
        true
    }

    fn run(&mut self, bb: &mut AutonomyBlackboard) -> (r: Status) {
        bb.autonomy.advance();
        Ok(())
    }
}

/// The behavior of one stage: when the mode is running `stage` it finishes the
/// stage and succeeds, otherwise it fails and changes nothing.
pub type StageBehavior = IfElse<StageIs, AdvanceStage, Status>;

/// The behavior that runs stage `s`.
pub open spec fn stage_behavior(s: AutonomyStage) -> StageBehavior {
    IfElse { condition: StageIs(s), if_true: AdvanceStage, if_false: Err(()) }
}

/// A run of the behavior of stage `s` finishes the stage and succeeds when the
/// mode is running `s`; otherwise it fails and leaves the blackboard as it was.
pub proof fn lemma_stage_run(
    s: AutonomyStage,
    bb: AutonomyBlackboard,
    next: StageBehavior,
    bb_next: AutonomyBlackboard,
    r: Status,
)
    requires
        stage_behavior(s).runs(bb, next, bb_next, r),
    ensures
        stage_behavior(s).can_run(bb),
        next == stage_behavior(s),
        in_stage(bb.autonomy, s) ==> r is Ok && bb_next.autonomy == next_autonomy(bb.autonomy),
        !in_stage(bb.autonomy, s) ==> r is Err && bb_next == bb,
{
}

/// The behavior of a stage of the mission.
pub fn stage(s: AutonomyStage) -> (r: StageBehavior)
    ensures
        r == stage_behavior(s),
{
    IfElse { condition: StageIs(s), if_true: AdvanceStage, if_false: Err(()) }
}

/// The digging stage.
pub fn dig() -> (r: StageBehavior)
    ensures
        r == stage_behavior(AutonomyStage::Dig),
{
    stage(AutonomyStage::Dig)
}

/// The dumping stage.
pub fn dump() -> (r: StageBehavior)
    ensures
        r == stage_behavior(AutonomyStage::Dump),
{
    stage(AutonomyStage::Dump)
}

/// The obstacle-traversal stage.
pub fn traverse() -> (r: StageBehavior)
    ensures
        r == stage_behavior(AutonomyStage::TraverseObstacles),
{
    stage(AutonomyStage::TraverseObstacles)
}

/// The whole mission: as long as some stage is running, run it.
pub type AutonomyBehavior = WhileLoop<Status, (Select<(StageBehavior, StageBehavior, StageBehavior)>,)>;

/// The mission behavior as a value.
pub open spec fn mission() -> AutonomyBehavior {
    WhileLoop {
        condition: Ok(()),
        body: (
            Select {
                body: (
                    stage_behavior(AutonomyStage::Dig),
                    stage_behavior(AutonomyStage::Dump),
                    stage_behavior(AutonomyStage::TraverseObstacles),
                ),
            },
        ),
    }
}

/// Once no stage is running, every stage fails, and so does a round of the mission.
pub proof fn lemma_idle_round_fails(
    bb: AutonomyBlackboard,
    next: (Select<(StageBehavior, StageBehavior, StageBehavior)>,),
    bb_next: AutonomyBlackboard,
    r: Status,
)
    requires
        bb.autonomy == Autonomy::Disabled,
        mission().body.runs(bb, next, bb_next, r),
    ensures
        r is Err,
        bb_next == bb,
{
    let sel = mission().body.0;
    let (bb1, ra) = choose|bb1: AutonomyBlackboard, ra: Status|
        #[trigger] sel.body.0.runs(bb, next.0.body.0, bb1, ra) && if ra is Ok {
            r is Ok && bb_next == bb1 && next.0.body.1 == sel.body.1 && next.0.body.2 == sel.body.2
        } else {
            Select { body: (sel.body.1, sel.body.2) }.runs(
                bb1,
                Select { body: (next.0.body.1, next.0.body.2) },
                bb_next,
                r,
            )
        };
    lemma_stage_run(AutonomyStage::Dig, bb, next.0.body.0, bb1, ra);
    let (bb2, rb) = choose|bb2: AutonomyBlackboard, rb: Status|
        #[trigger] sel.body.1.runs(bb1, next.0.body.1, bb2, rb) && if rb is Ok {
            r is Ok && bb_next == bb2 && next.0.body.2 == sel.body.2
        } else {
            sel.body.2.runs(bb2, next.0.body.2, bb_next, r)
        };
    lemma_stage_run(AutonomyStage::Dump, bb1, next.0.body.1, bb2, rb);
    lemma_stage_run(AutonomyStage::TraverseObstacles, bb2, next.0.body.2, bb_next, r);
}

/// Under partial autonomy a round of the mission runs the one stage given,
/// succeeds, and leaves autonomy disabled; the mission itself is unchanged.
pub proof fn lemma_partial_round(
    bb: AutonomyBlackboard,
    next: (Select<(StageBehavior, StageBehavior, StageBehavior)>,),
    bb_next: AutonomyBlackboard,
    r: Status,
)
    requires
        bb.autonomy is PartialAutonomy,
        mission().body.runs(bb, next, bb_next, r),
    ensures
        r is Ok,
        bb_next.autonomy == Autonomy::Disabled,
        next == mission().body,
{
    let sel = mission().body.0;
    let (bb1, ra) = choose|bb1: AutonomyBlackboard, ra: Status|
        #[trigger] sel.body.0.runs(bb, next.0.body.0, bb1, ra) && if ra is Ok {
            r is Ok && bb_next == bb1 && next.0.body.1 == sel.body.1 && next.0.body.2 == sel.body.2
        } else {
            Select { body: (sel.body.1, sel.body.2) }.runs(
                bb1,
                Select { body: (next.0.body.1, next.0.body.2) },
                bb_next,
                r,
            )
        };
    lemma_stage_run(AutonomyStage::Dig, bb, next.0.body.0, bb1, ra);
    if ra is Err {
        let (bb2, rb) = choose|bb2: AutonomyBlackboard, rb: Status|
            #[trigger] sel.body.1.runs(bb1, next.0.body.1, bb2, rb) && if rb is Ok {
                r is Ok && bb_next == bb2 && next.0.body.2 == sel.body.2
            } else {
                sel.body.2.runs(bb2, next.0.body.2, bb_next, r)
            };
        lemma_stage_run(AutonomyStage::Dump, bb1, next.0.body.1, bb2, rb);
        if rb is Err {
            lemma_stage_run(AutonomyStage::TraverseObstacles, bb2, next.0.body.2, bb_next, r);
        }
    }
}

/// Under partial autonomy the mission can run: it ends after its second round.
pub proof fn lemma_partial_mission_ends(bb: AutonomyBlackboard)
    requires
        bb.autonomy is PartialAutonomy,
    ensures
        mission().can_run(bb),
{
    let w = mission();
    assert forall|c2: Status, bb1: AutonomyBlackboard, cr: Status| #[trigger]
        w.condition.runs(bb, c2, bb1, cr) && cr is Ok implies {
        &&& w.body.can_run(bb1)
        &&& forall|s2: (Select<(StageBehavior, StageBehavior, StageBehavior)>,), bb2: AutonomyBlackboard, br: Status| #[trigger]
            w.body.runs(bb1, s2, bb2, br) && br is Ok ==> 1nat > 0 && loop_ends_within(
                WhileLoop { condition: c2, body: s2 },
                bb2,
                0,
            )
    } by {
        assert forall|s2: (Select<(StageBehavior, StageBehavior, StageBehavior)>,), bb2: AutonomyBlackboard, br: Status| #[trigger]
            w.body.runs(bb1, s2, bb2, br) && br is Ok implies loop_ends_within(
                WhileLoop { condition: c2, body: s2 },
                bb2,
                0,
            ) by {
            lemma_partial_round(bb1, s2, bb2, br);
            lemma_idle_mission_ends(bb2);
            assert(WhileLoop { condition: c2, body: s2 } == w);
        }
    }
    assert(loop_ends_within(w, bb, 1));
}

/// With no stage running, the mission can run: it ends after its first round.
pub proof fn lemma_idle_mission_ends(bb: AutonomyBlackboard)
    requires
        bb.autonomy == Autonomy::Disabled,
    ensures
        mission().can_run(bb),
        loop_ends_within(mission(), bb, 0),
{
    let w = mission();
    assert forall|c2: Status, bb1: AutonomyBlackboard, cr: Status| #[trigger]
        w.condition.runs(bb, c2, bb1, cr) && cr is Ok implies {
        &&& w.body.can_run(bb1)
        &&& forall|s2: (Select<(StageBehavior, StageBehavior, StageBehavior)>,), bb2: AutonomyBlackboard, br: Status| #[trigger]
            w.body.runs(bb1, s2, bb2, br) && br is Ok ==> 0nat > 0 && loop_ends_within(
                WhileLoop { condition: c2, body: s2 },
                bb2,
                0,
            )
    } by {
        assert forall|s2: (Select<(StageBehavior, StageBehavior, StageBehavior)>,), bb2: AutonomyBlackboard, br: Status| #[trigger]
            w.body.runs(bb1, s2, bb2, br) implies br is Err by {
            lemma_idle_round_fails(bb1, s2, bb2, br);
        }
    }
    assert(loop_ends_within(w, bb, 0));
}

/// The mission behavior: it repeats digging, dumping and traversing, whichever
/// the mode is running, and fails once no stage is running.
pub fn autonomy() -> (r: AutonomyBehavior)
    ensures
        r == mission(),
{
    WhileLoop { condition: Ok(()), body: (Select { body: (dig(), dump(), traverse()) },) }
}

} // verus!
