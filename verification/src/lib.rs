//! Potential-field path planning in fixed-point arithmetic.
//!
//! Every length, time, speed and normalized parameter is an integer count of
//! millionths (see [`fixed::SCALE`]), so that planning is exact, repeatable and
//! free of rounding modes. The planner seeds a straight path, relaxes it away
//! from circular obstacles by descending their potential, prunes what the
//! relaxation left behind, and follows a Catmull-Rom curve through the result.
//!
//! The obstacles are handed to every call as a slice: nothing is shared
//! between calls, and nothing changes under a call. All the planner works in
//! is the workspace, the square of side `2 * WORKSPACE_LIMIT` around the
//! origin; a waypoint that would leave it stops at its edge.
//!
//! - [`fixed`]: scalars, roots, and the series of the field.
//! - [`position`]: points and planar vectors.
//! - [`obstacle`]: obstacles, their potential and its gradient.
//! - [`robot`]: the robot and its path.
//! - [`generator`], [`optimizer`], [`pruner`]: planning.
//! - [`spline`], [`follower`]: the curve through a path, and following it.
//! - [`laws`]: what holds of planning and following as a whole.
//! - [`wire`], [`model`], [`field`], [`target_position`], [`gradient_field`]:
//!   what is drawn.
pub mod error;
pub mod field;
pub mod fixed;
pub mod follower;
pub mod generator;
pub mod gradient_field;
pub mod laws;
pub mod model;
pub mod obstacle;
pub mod optimizer;
pub mod position;
pub mod pruner;
pub mod robot;
pub mod spline;
pub mod target_position;
pub mod wire;
