//! Core logic of a lunar-rover autonomy stack: behavior-tree combinators, the
//! mission stage machine, the localizer's control loop, and the terrain
//! costmap builder.
pub mod autonomy;
pub mod behavior;
pub mod costmap;
pub mod localizer;
pub mod node;
pub mod queue;
