//! Hierarchical positioning for bodies on fixed orbits: simulated time kept
//! in whole microseconds, a forest of bodies addressed by stable tags, the
//! order in which their positions are brought up to date, and the plan that
//! resolves every position relative to a chosen origin body with each
//! body's motion evaluated once.
mod arena;
mod clock;
mod forest;
mod geometry;
mod groups;
mod hierarchy;
mod input;
mod resolve;
mod time;

pub use arena::{BodyNode, BodyTag};
pub use clock::{
    lemma_reduction_is_periodic, lemma_whole_periods_reduce_to_zero, rotation_phase, scaled_step, sim_interval,
    time_since_periapsis, SimTimer, SIM_INTERVAL_MICROS,
};
pub use forest::{abs_pos, is_top_down, links_wf, lists_exactly};
pub use geometry::{
    corner, face_indices, index_values, lemma_mesh_len, mesh_indices, row_entry, row_indices, row_start, subdivided_indices, Geodesic,
    SubdivisionMethod, ICOSAHEDRON_FACES,
};
pub use groups::div_ceil;
pub use hierarchy::{Hierarchy, HierarchyError};
pub use input::{held, CursorAction, FocusState, MoveKey, MovementKeys};
pub use resolve::{
    evaluates_what_it_sets, lemma_each_motion_once, lemma_origin_shift, lemma_plan_positions, lemma_plans_agree,
    plan_evaluates, plan_sets, plan_wf, run_plan, ResolveStep,
};
pub use time::{fits_i64, lemma_instant_fits, trunc_rem, SimDuration, SimInstant};
